//! The command line: its commands, their arguments, and the decisions taken
//! from them that involve no I/O.

use vstd::prelude::*;

use crate::model::{Severity, ScanReport, report_reaches};
use crate::sanitizer::{SanitizeOptions, SanitizeRequest};
use crate::scanner::{
    ScanOptions, ascii_lower, ascii_lower_char, contains_string, lemma_contains_view,
};
use crate::text::{chars_of, is_unicode_whitespace, string_views, trim_end};

verus! {

/// The extensions that directory walks consider unless told otherwise.
pub const DEFAULT_EXTENSIONS: &'static str = "md,markdown,txt,rst,adoc,org,tex,html,htm,xml,json,jsonl,yaml,yml,toml,csv,tsv,log,ini,cfg,conf,rs,py,js,jsx,ts,tsx,go,java,kt,kts,c,cc,cpp,h,hpp,cs,swift,rb,php,sh,zsh,bash,fish";

/// The largest file, in bytes, that is read unless told otherwise (8 MiB).
pub const DEFAULT_MAX_BYTES: u64 = 8388608;

/// The number of findings retained per file unless told otherwise.
pub const DEFAULT_MAX_FINDINGS: usize = 200;

/// How a report is printed.
#[derive(Clone, Copy, Debug, PartialEq, Eq, Structural)]
pub enum OutputFormat {
    Human,
    Json,
}

impl Default for OutputFormat {
    fn default() -> (format: OutputFormat)
        ensures
            format == OutputFormat::Human,
    {
        OutputFormat::Human
    }
}

/// The parsed command line.
#[derive(Debug)]
pub struct Cli {
    pub command: Command,
}

/// What the tool is asked to do.
#[derive(Debug)]
pub enum Command {
    /// Scan files or directories without modifying them.
    Scan(ScanArgs),
    /// Sanitize deterministic Unicode/text carriers in one UTF-8 file.
    Sanitize(SanitizeArgs),
    /// Print the built-in rules and their interpretation limits.
    Rules,
}

/// The arguments of `scan`.
#[derive(Debug)]
pub struct ScanArgs {
    /// Files or directories to scan.
    pub paths: Vec<String>,
    /// Output format.
    pub format: OutputFormat,
    /// The exit code is 1 when a finding of this severity or higher is found.
    pub fail_on: Severity,
    /// Include hidden files when walking directories.
    pub hidden: bool,
    /// Ignore .gitignore and related ignore files.
    pub no_ignore: bool,
    /// Maximum file size in bytes.
    pub max_bytes: u64,
    /// Maximum number of findings retained per file.
    pub max_findings: usize,
    /// Comma-separated extensions used during directory walks. Explicit files are always considered.
    pub extensions: String,
}

/// The arguments of `sanitize`.
#[derive(Debug)]
pub struct SanitizeArgs {
    /// UTF-8 text or source-code file to sanitize.
    pub input: String,
    /// Write the sanitized content to a new path.
    pub output: Option<String>,
    /// Replace the input and create INPUT.bak when changes are needed.
    pub in_place: bool,
    /// Report proposed operations without writing a file.
    pub dry_run: bool,
    /// Allow the output to replace an existing file. Never overwrites an in-place backup.
    pub force: bool,
    /// Remove trailing ASCII spaces/tabs, preserving Markdown hard breaks of exactly two spaces.
    pub strip_trailing_whitespace: bool,
    /// Maximum input size in bytes.
    pub max_bytes: u64,
    /// Output format.
    pub format: OutputFormat,
}

// ---------------------------------------------------------------------------
// The extension list.
// ---------------------------------------------------------------------------

/// The pieces of `s` between commas, as `str::split(',')` yields them.
pub open spec fn comma_pieces(s: Seq<char>) -> Seq<Seq<char>>
    decreases s.len(),
{
    if s.len() == 0 {
        seq![Seq::empty()]
    } else {
        let prior = comma_pieces(s.drop_last());
        if s.last() == ',' {
            prior.push(Seq::empty())
        } else {
            prior.update(prior.len() - 1, prior.last().push(s.last()))
        }
    }
}

/// There is always at least one piece.
proof fn lemma_comma_pieces_nonempty(s: Seq<char>)
    ensures
        comma_pieces(s).len() >= 1,
    decreases s.len(),
{
    if s.len() > 0 {
        lemma_comma_pieces_nonempty(s.drop_last());
    }
}

/// `s` without its leading whitespace.
pub open spec fn trim_start(s: Seq<char>) -> Seq<char>
    decreases s.len(),
{
    if s.len() > 0 && is_unicode_whitespace(s[0]) {
        trim_start(s.drop_first())
    } else {
        s
    }
}

/// `s` without leading and trailing whitespace, as `str::trim` gives it.
pub open spec fn trim(s: Seq<char>) -> Seq<char> {
    trim_start(trim_end(s))
}

/// `s` without its leading dots.
pub open spec fn strip_leading_dots(s: Seq<char>) -> Seq<char>
    decreases s.len(),
{
    if s.len() > 0 && s[0] == '.' {
        strip_leading_dots(s.drop_first())
    } else {
        s
    }
}

/// The extension that a piece names: trimmed, without leading dots, lowercased.
pub open spec fn piece_extension(piece: Seq<char>) -> Seq<char> {
    ascii_lower(strip_leading_dots(trim(piece)))
}

/// The extensions that `pieces` name, skipping blank pieces, in order.
pub open spec fn piece_extensions(pieces: Seq<Seq<char>>) -> Seq<Seq<char>>
    decreases pieces.len(),
{
    if pieces.len() == 0 {
        Seq::empty()
    } else {
        let prior = piece_extensions(pieces.drop_last());
        if trim(pieces.last()).len() == 0 {
            prior
        } else {
            prior.push(piece_extension(pieces.last()))
        }
    }
}

/// `s` with every repeated element dropped after its first occurrence.
pub open spec fn first_occurrences(s: Seq<Seq<char>>) -> Seq<Seq<char>>
    decreases s.len(),
{
    if s.len() == 0 {
        Seq::empty()
    } else {
        let prior = first_occurrences(s.drop_last());
        if prior.contains(s.last()) {
            prior
        } else {
            prior.push(s.last())
        }
    }
}

/// Keeping first occurrences leaves no element twice.
proof fn lemma_first_occurrences_no_duplicates(s: Seq<Seq<char>>)
    ensures
        first_occurrences(s).no_duplicates(),
    decreases s.len(),
{
    if s.len() > 0 {
        lemma_first_occurrences_no_duplicates(s.drop_last());
    }
}

/// The extensions of a comma-separated list, each once, in order of first mention.
pub open spec fn extension_list(s: Seq<char>) -> Seq<Seq<char>> {
    first_occurrences(piece_extensions(comma_pieces(s)))
}

proof fn lemma_trim_end_take(s: Seq<char>, e: int)
    requires
        0 <= e <= s.len(),
        forall|k: int| e <= k < s.len() ==> is_unicode_whitespace(#[trigger] s[k]),
        e == 0 || !is_unicode_whitespace(s[e - 1]),
    ensures
        trim_end(s) == s.take(e),
    decreases s.len(),
{
    if s.len() > e {
        assert(s.drop_last().take(e) =~= s.take(e));
        lemma_trim_end_take(s.drop_last(), e);
    } else {
        assert(s.take(e) =~= s);
    }
}

proof fn lemma_trim_start_skip(s: Seq<char>, b: int)
    requires
        0 <= b <= s.len(),
        forall|k: int| 0 <= k < b ==> is_unicode_whitespace(#[trigger] s[k]),
        b == s.len() || !is_unicode_whitespace(s[b]),
    ensures
        trim_start(s) == s.skip(b),
    decreases b,
{
    if b > 0 {
        assert(s.drop_first().skip(b - 1) =~= s.skip(b));
        lemma_trim_start_skip(s.drop_first(), b - 1);
    } else {
        assert(s.skip(0) =~= s);
    }
}

proof fn lemma_strip_dots_skip(s: Seq<char>, d: int)
    requires
        0 <= d <= s.len(),
        forall|k: int| 0 <= k < d ==> #[trigger] s[k] == '.',
        d == s.len() || s[d] != '.',
    ensures
        strip_leading_dots(s) == s.skip(d),
    decreases d,
{
    if d > 0 {
        assert(s.drop_first().skip(d - 1) =~= s.skip(d));
        lemma_strip_dots_skip(s.drop_first(), d - 1);
    } else {
        assert(s.skip(0) =~= s);
    }
}

/// The extension that `piece` names, or `None` for a blank piece.
fn normalized_extension(piece: &Vec<char>) -> (extension: Option<String>)
    ensures
        match extension {
            Some(e) => trim(piece@).len() > 0 && e@ == piece_extension(piece@),
            None => trim(piece@).len() == 0,
        },
{
    let mut e: usize = piece.len();
    while e > 0 && is_unicode_whitespace(piece[e - 1])
        invariant
            e <= piece.len(),
            forall|k: int| e <= k < piece.len() ==> is_unicode_whitespace(#[trigger] piece@[k]),
        decreases e,
    {
        e -= 1;
    }
    let ghost t = piece@.take(e as int);
    proof {
        lemma_trim_end_take(piece@, e as int);
    }
    let mut b: usize = 0;
    while b < e && is_unicode_whitespace(piece[b])
        invariant
            b <= e <= piece.len(),
            forall|k: int| 0 <= k < b ==> is_unicode_whitespace(#[trigger] piece@[k]),
        decreases e - b,
    {
        b += 1;
    }
    let ghost u = t.skip(b as int);
    proof {
        lemma_trim_start_skip(t, b as int);
        assert(u =~= piece@.subrange(b as int, e as int));
    }
    if b == e {
        return None;
    }
    let mut d: usize = b;
    while d < e && piece[d] == '.'
        invariant
            b <= d <= e <= piece.len(),
            forall|k: int| b <= k < d ==> #[trigger] piece@[k] == '.',
        decreases e - d,
    {
        d += 1;
    }
    proof {
        lemma_strip_dots_skip(u, d - b);
        assert(u.skip(d - b) =~= piece@.subrange(d as int, e as int));
    }
    let ghost stripped = piece@.subrange(d as int, e as int);
    let mut lower = String::new();
    let mut i: usize = d;
    while i < e
        invariant
            d <= i <= e <= piece.len(),
            stripped == piece@.subrange(d as int, e as int),
            lower@ == ascii_lower(stripped).take(i - d),
        decreases e - i,
    {
        let c = piece[i];
        let l = ascii_lower_one(c);
        crate::text::push_char(&mut lower, l);
        proof {
            assert(ascii_lower(stripped).take(i + 1 - d) =~= ascii_lower(stripped).take(i - d).push(l));
        }
        i += 1;
    }
    proof {
        assert(ascii_lower(stripped).take(e - d) =~= ascii_lower(stripped));
    }
    Some(lower)
}

fn ascii_lower_one(c: char) -> (l: char)
    ensures
        l == ascii_lower_char(c),
{
    if 'A' <= c && c <= 'Z' {
        let b = (c as u32 + 32) as u8;
        b as char
    } else {
        c
    }
}

fn add_piece(piece: &Vec<char>, out: &mut Vec<String>, Ghost(done): Ghost<Seq<Seq<char>>>)
    requires
        string_views(old(out)@) == first_occurrences(piece_extensions(done)),
    ensures
        string_views(final(out)@) == first_occurrences(piece_extensions(done.push(piece@))),
{
    proof {
        assert(done.push(piece@).drop_last() =~= done);
    }
    match normalized_extension(piece) {
        Some(extension) => {
            let ghost seen = piece_extensions(done);
            let ghost view = extension@;
            proof {
                lemma_contains_view(out@, view);
                assert(seen.push(view).drop_last() =~= seen);
            }
            if !contains_string(out, &extension) {
                let ghost before = out@;
                out.push(extension);
                assert(string_views(out@) =~= string_views(before).push(view));
            }
        },
        None => {},
    }
}

impl ScanArgs {
    /// The extensions that directory walks consider: the comma-separated
    /// entries, trimmed, without leading dots, lowercased, blank entries
    /// skipped, each once.
    pub fn extension_set(&self) -> (extensions: Vec<String>)
        ensures
            string_views(extensions@) == extension_list(self.extensions@),
            string_views(extensions@).no_duplicates(),
    {
        let chars = chars_of(self.extensions.as_str());
        let ghost s = self.extensions@;
        let mut out: Vec<String> = Vec::new();
        let mut piece: Vec<char> = Vec::new();
        let ghost mut done: Seq<Seq<char>> = Seq::empty();
        let mut i: usize = 0;
        proof {
            assert(s.take(0) =~= Seq::<char>::empty());
            assert(done.push(piece@) =~= comma_pieces(s.take(0)));
            assert(string_views(out@) =~= first_occurrences(piece_extensions(done)));
        }
        while i < chars.len()
            invariant
                i <= chars.len(),
                chars@ == s,
                comma_pieces(s.take(i as int)) == done.push(piece@),
                string_views(out@) == first_occurrences(piece_extensions(done)),
            decreases chars.len() - i,
        {
            let c = chars[i];
            proof {
                assert(s.take(i + 1).drop_last() =~= s.take(i as int));
                lemma_comma_pieces_nonempty(s.take(i as int));
            }
            if c == ',' {
                add_piece(&piece, &mut out, Ghost(done));
                proof {
                    done = done.push(piece@);
                }
                piece = Vec::new();
                proof {
                    assert(comma_pieces(s.take(i + 1)) =~= done.push(piece@));
                }
            } else {
                piece.push(c);
                proof {
                    assert(comma_pieces(s.take(i + 1)) =~= done.push(piece@));
                }
            }
            i += 1;
        }
        add_piece(&piece, &mut out, Ghost(done));
        proof {
            assert(s.take(chars.len() as int) =~= s);
            lemma_first_occurrences_no_duplicates(piece_extensions(comma_pieces(s)));
        }
        out
    }
}

// ---------------------------------------------------------------------------
// Decisions taken from the arguments.
// ---------------------------------------------------------------------------

/// The scan options that `scan` arguments ask for.
pub fn scan_options(args: &ScanArgs) -> (options: ScanOptions)
    ensures
        options.include_hidden == args.hidden,
        options.respect_ignore_files == !args.no_ignore,
        options.max_bytes == args.max_bytes,
        options.max_findings_per_file == args.max_findings,
        string_views(options.extensions@) == extension_list(args.extensions@),
{
    ScanOptions {
        include_hidden: args.hidden,
        respect_ignore_files: !args.no_ignore,
        max_bytes: args.max_bytes,
        max_findings_per_file: args.max_findings,
        extensions: args.extension_set(),
    }
}

/// The sanitation request that `sanitize` arguments make.
pub fn sanitize_request(args: &SanitizeArgs) -> (request: SanitizeRequest)
    ensures
        request.input@ == args.input@,
        match (request.output, args.output) {
            (Some(a), Some(b)) => a@ == b@,
            (None, None) => true,
            _ => false,
        },
        request.in_place == args.in_place,
        request.dry_run == args.dry_run,
        request.force == args.force,
        request.max_bytes == args.max_bytes,
        request.options.strip_trailing_whitespace == args.strip_trailing_whitespace,
{
    let output = match &args.output {
        Some(path) => Some(path.clone()),
        None => None,
    };
    SanitizeRequest {
        input: args.input.clone(),
        output,
        in_place: args.in_place,
        dry_run: args.dry_run,
        force: args.force,
        max_bytes: args.max_bytes,
        options: SanitizeOptions { strip_trailing_whitespace: args.strip_trailing_whitespace },
    }
}

/// The exit code of a scan: 2 when an operational error was met, else 1 when
/// a retained finding reaches `fail_on` (`Never` is never reached), else 0.
pub open spec fn scan_exit_status(report: ScanReport, fail_on: Severity) -> u8 {
    if report.errors@.len() > 0 {
        2
    } else if fail_on == Severity::Never {
        0
    } else if report_reaches(report.files@, fail_on) {
        1
    } else {
        0
    }
}

/// The exit code of a scan.
pub fn scan_exit_code(report: &ScanReport, fail_on: Severity) -> (code: u8)
    ensures
        code == scan_exit_status(*report, fail_on),
{
    if report.errors.len() > 0 {
        return 2;
    }
    if fail_on == Severity::Never {
        return 0;
    }
    if report.has_severity_at_least(fail_on) {
        1
    } else {
        0
    }
}

} // verus!
