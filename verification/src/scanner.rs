//! Selection of the files to scan and the report on each of them.
//!
//! Reading the file system is left to the caller: it walks the input paths,
//! reads the selected files, and hands the outcomes to these functions.

use vstd::prelude::*;

use crate::model::{
    FileReport, FileReportView, FileStatus, ScanError, ScanErrorView, ScanReport, StatisticalStatus, Summary,
    TextMetrics, ToolInfo, TOOL_VERSION, error_views, file_views, finding_views, summarize, summary_after,
};
use crate::text::{capped, decimal, owned, overflow, push_decimal, push_str, str_equals, string_views, utf8_decode};
use crate::sanitizer::{paths_equal, same_path};
use crate::unicode_rules::{all_findings, analyzable, analyze_text, text_metrics};
use vstd::utf8::{decode_utf8, partial_valid_utf8, valid_utf8};

verus! {

/// How a scan selects and analyzes files.
#[derive(Debug)]
pub struct ScanOptions {
    pub include_hidden: bool,
    pub respect_ignore_files: bool,
    pub max_bytes: u64,
    pub max_findings_per_file: usize,
    /// Lowercase extensions (without a dot) of the files that directory walks consider.
    pub extensions: Vec<String>,
}

// ---------------------------------------------------------------------------
// Selection of candidates.
// ---------------------------------------------------------------------------

/// Directory names that directory walks never enter.
pub open spec fn excluded_directory_name(name: Seq<char>) -> bool {
    name == ".git"@ || name == ".hg"@ || name == ".svn"@ || name == "target"@ || name == "node_modules"@
        || name == "vendor"@ || name == ".venv"@ || name == "__pycache__"@
}

/// Whether a directory walk skips a directory of this name (generated and dependency directories).
pub fn is_default_excluded_directory(name: &str) -> (excluded: bool)
    ensures
        excluded == excluded_directory_name(name@),
{
    str_equals(name, ".git") || str_equals(name, ".hg") || str_equals(name, ".svn") || str_equals(name, "target")
        || str_equals(name, "node_modules") || str_equals(name, "vendor") || str_equals(name, ".venv")
        || str_equals(name, "__pycache__")
}

/// The extension of a path as `std::path::Path::extension` computes it.
pub uninterp spec fn path_extension(path: Seq<char>) -> Option<Seq<char>>;

/// Calls `std::path::Path::extension` on `path` and converts the result to a
/// string; the result is named by `path_extension`.
#[verifier::external_body]
fn extension_of(path: &str) -> (extension: Option<String>)
    ensures
        match extension {
            Some(e) => path_extension(path@) == Some(e@),
            None => path_extension(path@) is None,
        },
{
    std::path::Path::new(path).extension().and_then(|value| value.to_str()).map(|value| value.to_owned())
}

/// `c` with ASCII uppercase letters mapped to lowercase.
pub open spec fn ascii_lower_char(c: char) -> char {
    if 'A' <= c && c <= 'Z' {
        ((c as u32) + 32) as char
    } else {
        c
    }
}

/// `s` with ASCII uppercase letters mapped to lowercase.
pub open spec fn ascii_lower(s: Seq<char>) -> Seq<char> {
    s.map_values(|c: char| ascii_lower_char(c))
}

/// `value` with ASCII uppercase letters mapped to lowercase.
pub fn to_ascii_lowercase(value: &str) -> (lower: String)
    ensures
        lower@ == ascii_lower(value@),
{
    let chars = crate::text::chars_of(value);
    let mut lower = String::new();
    let mut i: usize = 0;
    while i < chars.len()
        invariant
            i <= chars.len(),
            chars@ == value@,
            lower@ == ascii_lower(value@).take(i as int),
        decreases chars.len() - i,
    {
        let c = chars[i];
        let l = if 'A' <= c && c <= 'Z' { ascii_lowercase_letter(c) } else { c };
        crate::text::push_char(&mut lower, l);
        proof {
            assert(ascii_lower(value@).take(i + 1) =~= ascii_lower(value@).take(i as int).push(l));
        }
        i += 1;
    }
    proof {
        assert(ascii_lower(value@).take(chars.len() as int) =~= ascii_lower(value@));
    }
    lower
}

fn ascii_lowercase_letter(c: char) -> (l: char)
    requires
        'A' <= c && c <= 'Z',
    ensures
        l == ascii_lower_char(c),
{
    let b = (c as u32 + 32) as u8;
    b as char
}

/// Some entry of `values` holds `s`.
pub open spec fn contains_view(values: Seq<String>, s: Seq<char>) -> bool {
    exists|k: int| 0 <= k < values.len() && (#[trigger] values[k])@ == s
}

pub(crate) fn contains_string(values: &Vec<String>, s: &String) -> (found: bool)
    ensures
        found == contains_view(values@, s@),
{
    let mut k: usize = 0;
    while k < values.len()
        invariant
            k <= values.len(),
            forall|m: int| 0 <= m < k ==> (#[trigger] values@[m])@ != s@,
        decreases values.len() - k,
    {
        if values[k] == *s {
            assert(values@[k as int]@ == s@);
            return true;
        }
        k += 1;
    }
    false
}

/// A path's extension, lowercased, is among `extensions`.
pub open spec fn allowed_extension(path: Seq<char>, extensions: Seq<String>) -> bool {
    match path_extension(path) {
        Some(e) => contains_view(extensions, ascii_lower(e)),
        None => false,
    }
}

/// Whether a directory walk considers the file at `path`.
pub fn has_allowed_extension(path: &str, extensions: &Vec<String>) -> (allowed: bool)
    ensures
        allowed == allowed_extension(path@, extensions@),
{
    match extension_of(path) {
        Some(extension) => {
            let lower = to_ascii_lowercase(extension.as_str());
            contains_string(extensions, &lower)
        },
        None => false,
    }
}

/// `q` and `p` name the same file: they are equal as strings, or
/// `std::path::Path` considers them equal (component-wise).
pub open spec fn same_candidate(q: Seq<char>, p: Seq<char>) -> bool {
    q == p || same_path(q, p)
}

/// Some entry of `values` names the same file as `p`.
pub open spec fn holds_candidate(values: Seq<String>, p: Seq<char>) -> bool {
    exists|k: int| 0 <= k < values.len() && same_candidate((#[trigger] values[k])@, p)
}

fn contains_candidate(values: &Vec<String>, p: &String) -> (found: bool)
    ensures
        found == holds_candidate(values@, p@),
{
    let mut k: usize = 0;
    while k < values.len()
        invariant
            k <= values.len(),
            forall|m: int| 0 <= m < k ==> !same_candidate((#[trigger] values@[m])@, p@),
        decreases values.len() - k,
    {
        if values[k] == *p || paths_equal(values[k].as_str(), p.as_str()) {
            assert(same_candidate(values@[k as int]@, p@));
            return true;
        }
        k += 1;
    }
    false
}

/// Adds `path` to `candidates` unless a candidate already names the same file.
pub fn push_candidate(path: String, candidates: &mut Vec<String>)
    ensures
        holds_candidate(old(candidates)@, path@) ==> final(candidates)@ == old(candidates)@,
        !holds_candidate(old(candidates)@, path@) ==> string_views(final(candidates)@) == string_views(
            old(candidates)@,
        ).push(path@),
{
    if !contains_candidate(candidates, &path) {
        let ghost before = candidates@;
        let ghost view = path@;
        candidates.push(path);
        assert(string_views(candidates@) =~= string_views(before).push(view));
    }
}

/// One entry that a directory walk produced.
pub enum WalkEntry {
    /// A regular file.
    File(String),
    /// The walk could not read an entry; the message describes why.
    Error(String),
}

/// An input path and what the file system says of it.
pub enum PathInput {
    /// A regular file named explicitly: it is considered whatever its extension.
    File(String),
    /// A directory and the regular files (and errors) of its walk, which skips
    /// hidden and ignored entries as requested and the default excluded directories.
    Directory { root: String, entries: Vec<WalkEntry> },
    /// Neither a regular file nor a directory.
    Missing(String),
}

/// The files selected for scanning and the errors met while selecting them.
pub struct Candidates {
    pub paths: Vec<String>,
    pub errors: Vec<ScanError>,
}

/// `std::path::Path` orders `a` no later than `b`.
pub uninterp spec fn path_le(a: Seq<char>, b: Seq<char>) -> bool;

/// Sorts the paths with `std::path::Path`'s order (component-wise), by
/// calling `slice::sort` on `PathBuf`s: the result is a permutation of the
/// input, in ascending order by `path_le`.
#[verifier::external_body]
fn sort_paths(paths: &mut Vec<String>)
    ensures
        string_views(final(paths)@).to_multiset() == string_views(old(paths)@).to_multiset(),
        forall|i: int, j: int| 0 <= i < j < final(paths)@.len() ==> path_le(
            #[trigger] final(paths)@[i]@,
            #[trigger] final(paths)@[j]@,
        ),
{
    let mut buffers: Vec<std::path::PathBuf> = paths.drain(..).map(std::path::PathBuf::from).collect();
    buffers.sort();
    *paths = buffers.into_iter().map(|buffer| buffer.to_string_lossy().into_owned()).collect();
}

/// The paths that the inputs contribute, in input order, before duplicates are dropped.
pub open spec fn input_paths(inputs: Seq<PathInput>, extensions: Seq<String>, k: int) -> Seq<Seq<char>>
    decreases k,
{
    if k <= 0 {
        Seq::empty()
    } else {
        input_paths(inputs, extensions, k - 1) + match inputs[k - 1] {
            PathInput::File(path) => seq![path@],
            PathInput::Directory { root, entries } => walk_paths(entries@, extensions, entries@.len() as int),
            PathInput::Missing(_) => Seq::empty(),
        }
    }
}

/// The files of a walk whose extension is allowed, in walk order.
pub open spec fn walk_paths(entries: Seq<WalkEntry>, extensions: Seq<String>, k: int) -> Seq<Seq<char>>
    decreases k,
{
    if k <= 0 {
        Seq::empty()
    } else {
        walk_paths(entries, extensions, k - 1) + match entries[k - 1] {
            WalkEntry::File(path) => if allowed_extension(path@, extensions) { seq![path@] } else { Seq::empty() },
            WalkEntry::Error(_) => Seq::empty(),
        }
    }
}

/// The errors that the inputs contribute, in input order.
pub open spec fn input_errors(inputs: Seq<PathInput>, k: int) -> Seq<ScanErrorView>
    decreases k,
{
    if k <= 0 {
        Seq::empty()
    } else {
        input_errors(inputs, k - 1) + match inputs[k - 1] {
            PathInput::File(_) => Seq::empty(),
            PathInput::Directory { root, entries } => walk_errors(root@, entries@, entries@.len() as int),
            PathInput::Missing(path) => seq![ScanErrorView {
                path: path@,
                message: "Path does not exist or is not a regular file/directory"@,
            }],
        }
    }
}

/// The errors of a walk, reported against its root.
pub open spec fn walk_errors(root: Seq<char>, entries: Seq<WalkEntry>, k: int) -> Seq<ScanErrorView>
    decreases k,
{
    if k <= 0 {
        Seq::empty()
    } else {
        walk_errors(root, entries, k - 1) + match entries[k - 1] {
            WalkEntry::File(_) => Seq::empty(),
            WalkEntry::Error(message) => seq![ScanErrorView { path: root, message: message@ }],
        }
    }
}


pub(crate) proof fn lemma_contains_view(values: Seq<String>, p: Seq<char>)
    ensures
        contains_view(values, p) == string_views(values).contains(p),
{
    if contains_view(values, p) {
        let k = choose|k: int| 0 <= k < values.len() && (#[trigger] values[k])@ == p;
        assert(string_views(values)[k] == p);
    }
    if string_views(values).contains(p) {
        let k = choose|k: int| 0 <= k < string_views(values).len() && string_views(values)[k] == p;
        assert(values[k]@ == p);
    }
}

/// `s` with every path dropped that names the same file as an earlier kept one.
pub open spec fn distinct_paths(s: Seq<Seq<char>>) -> Seq<Seq<char>>
    decreases s.len(),
{
    if s.len() == 0 {
        Seq::empty()
    } else {
        let prior = distinct_paths(s.drop_last());
        if exists|k: int| 0 <= k < prior.len() && same_candidate(#[trigger] prior[k], s.last()) {
            prior
        } else {
            prior.push(s.last())
        }
    }
}

/// No kept path names the same file as an earlier kept one; in particular no
/// path is kept twice.
pub proof fn lemma_distinct_paths_are_distinct(s: Seq<Seq<char>>)
    ensures
        forall|i: int, j: int|
            0 <= i < j < distinct_paths(s).len() ==> !same_candidate(
                #[trigger] distinct_paths(s)[i],
                #[trigger] distinct_paths(s)[j],
            ),
        distinct_paths(s).no_duplicates(),
    decreases s.len(),
{
    if s.len() > 0 {
        lemma_distinct_paths_are_distinct(s.drop_last());
        let prior = distinct_paths(s.drop_last());
        if !(exists|k: int| 0 <= k < prior.len() && same_candidate(#[trigger] prior[k], s.last())) {
            let d = distinct_paths(s);
            assert forall|i: int, j: int| 0 <= i < j < d.len() implies !same_candidate(
                #[trigger] d[i],
                #[trigger] d[j],
            ) by {
                if j == d.len() - 1 {
                    assert(d[j] == s.last());
                    assert(d[i] == prior[i]);
                } else {
                    assert(d[i] == prior[i] && d[j] == prior[j]);
                }
            }
        }
    }
}

/// Every path is kept, or an earlier kept path names the same file.
proof fn lemma_distinct_paths_cover(s: Seq<Seq<char>>)
    ensures
        forall|i: int|
            #![trigger s[i]]
            0 <= i < s.len() ==> exists|k: int|
                0 <= k < distinct_paths(s).len() && same_candidate(#[trigger] distinct_paths(s)[k], s[i]),
    decreases s.len(),
{
    if s.len() > 0 {
        let prior = distinct_paths(s.drop_last());
        lemma_distinct_paths_cover(s.drop_last());
        let d = distinct_paths(s);
        assert forall|i: int| #![trigger s[i]] 0 <= i < s.len() implies exists|k: int|
            0 <= k < d.len() && same_candidate(#[trigger] d[k], s[i]) by {
            if i < s.len() - 1 {
                assert(s[i] == s.drop_last()[i]);
                let k = choose|k: int| 0 <= k < prior.len() && same_candidate(#[trigger] prior[k], s.drop_last()[i]);
                assert(d[k] == prior[k]);
            } else if exists|k: int| 0 <= k < prior.len() && same_candidate(#[trigger] prior[k], s.last()) {
                let k = choose|k: int| 0 <= k < prior.len() && same_candidate(#[trigger] prior[k], s.last());
                assert(d[k] == prior[k]);
            } else {
                assert(same_candidate(d[d.len() - 1], s[i]));
            }
        }
    }
}

proof fn lemma_input_paths_prefix(inputs: Seq<PathInput>, extensions: Seq<String>, k: int, n: int)
    requires
        0 <= k <= n <= inputs.len(),
    ensures
        input_paths(inputs, extensions, k).len() <= input_paths(inputs, extensions, n).len(),
        forall|i: int|
            0 <= i < input_paths(inputs, extensions, k).len() ==> #[trigger] input_paths(inputs, extensions, n)[i]
                == input_paths(inputs, extensions, k)[i],
    decreases n - k,
{
    if k < n {
        lemma_input_paths_prefix(inputs, extensions, k, n - 1);
    }
}

/// A file named explicitly is selected whatever its extension: its path, or
/// an earlier mention of the same file, is among the selected paths.
pub proof fn lemma_explicit_files_are_selected(inputs: Seq<PathInput>, extensions: Seq<String>, i: int)
    requires
        0 <= i < inputs.len(),
        inputs[i] is File,
    ensures
        exists|k: int|
            0 <= k < distinct_paths(input_paths(inputs, extensions, inputs.len() as int)).len() && same_candidate(
                #[trigger] distinct_paths(input_paths(inputs, extensions, inputs.len() as int))[k],
                inputs[i]->File_0@,
            ),
{
    let all = input_paths(inputs, extensions, inputs.len() as int);
    let upto = input_paths(inputs, extensions, i + 1);
    assert(upto[upto.len() - 1] == inputs[i]->File_0@);
    lemma_input_paths_prefix(inputs, extensions, i + 1, inputs.len() as int);
    assert(all[upto.len() - 1] == inputs[i]->File_0@);
    lemma_distinct_paths_cover(all);
    assert(0 <= upto.len() - 1 < all.len());
}

fn add_candidate(path: String, candidates: &mut Vec<String>, Ghost(seen): Ghost<Seq<Seq<char>>>)
    requires
        string_views(old(candidates)@) == distinct_paths(seen),
    ensures
        string_views(final(candidates)@) == distinct_paths(seen.push(path@)),
{
    let ghost view = path@;
    let ghost prior = string_views(candidates@);
    proof {
        assert(seen.push(view).drop_last() =~= seen);
        if holds_candidate(candidates@, view) {
            let k = choose|k: int| 0 <= k < candidates@.len() && same_candidate((#[trigger] candidates@[k])@, view);
            assert(same_candidate(prior[k], view));
        }
        if exists|k: int| 0 <= k < prior.len() && same_candidate(#[trigger] prior[k], view) {
            let k = choose|k: int| 0 <= k < prior.len() && same_candidate(#[trigger] prior[k], view);
            assert(same_candidate(candidates@[k]@, view));
        }
    }
    push_candidate(path, candidates);
}

/// Selects the files to scan: explicit files whatever their extension, and
/// walked files with an allowed extension, each file once (by string or
/// `std::path::Path` equality, the first mention kept), sorted by
/// `std::path::Path`'s order; with an error for each missing input and each
/// failed walk entry.
pub fn collect_candidates(inputs: &Vec<PathInput>, options: &ScanOptions) -> (selected: Candidates)
    ensures
        string_views(selected.paths@).to_multiset() == distinct_paths(
            input_paths(inputs@, options.extensions@, inputs@.len() as int),
        ).to_multiset(),
        string_views(selected.paths@).no_duplicates(),
        forall|i: int, j: int| 0 <= i < j < selected.paths@.len() ==> path_le(
            #[trigger] selected.paths@[i]@,
            #[trigger] selected.paths@[j]@,
        ),
        error_views(selected.errors@) == input_errors(inputs@, inputs@.len() as int),
{
    let mut paths: Vec<String> = Vec::new();
    let mut errors: Vec<ScanError> = Vec::new();
    let ghost ext = options.extensions@;
    let mut k: usize = 0;
    proof {
        assert(string_views(paths@) =~= distinct_paths(Seq::<Seq<char>>::empty()));
        assert(error_views(errors@) =~= Seq::<ScanErrorView>::empty());
    }
    while k < inputs.len()
        invariant
            k <= inputs.len(),
            ext == options.extensions@,
            string_views(paths@) == distinct_paths(input_paths(inputs@, ext, k as int)),
            error_views(errors@) == input_errors(inputs@, k as int),
        decreases inputs.len() - k,
    {
        let ghost before = input_paths(inputs@, ext, k as int);
        let ghost errors_before = input_errors(inputs@, k as int);
        match &inputs[k] {
            PathInput::File(path) => {
                add_candidate(path.clone(), &mut paths, Ghost(before));
                proof {
                    assert(input_paths(inputs@, ext, k + 1) =~= before.push(path@));
                    assert(input_errors(inputs@, k + 1) =~= errors_before);
                }
            },
            PathInput::Directory { root, entries } => {
                let mut m: usize = 0;
                proof {
                    assert(before + walk_paths(entries@, ext, 0) =~= before);
                    assert(errors_before + walk_errors(root@, entries@, 0) =~= errors_before);
                }
                while m < entries.len()
                    invariant
                        m <= entries.len(),
                        ext == options.extensions@,
                        string_views(paths@) == distinct_paths(before + walk_paths(entries@, ext, m as int)),
                        error_views(errors@) == errors_before + walk_errors(root@, entries@, m as int),
                    decreases entries.len() - m,
                {
                    let ghost walked = before + walk_paths(entries@, ext, m as int);
                    let ghost werr = errors_before + walk_errors(root@, entries@, m as int);
                    match &entries[m] {
                        WalkEntry::File(path) => {
                            if has_allowed_extension(path.as_str(), &options.extensions) {
                                add_candidate(path.clone(), &mut paths, Ghost(walked));
                                proof {
                                    assert(before + walk_paths(entries@, ext, m + 1) =~= walked.push(path@));
                                }
                            } else {
                                proof {
                                    assert(before + walk_paths(entries@, ext, m + 1) =~= walked);
                                }
                            }
                            proof {
                                assert(errors_before + walk_errors(root@, entries@, m + 1) =~= werr);
                            }
                        },
                        WalkEntry::Error(message) => {
                            let error = ScanError { path: root.clone(), message: message.clone() };
                            let ghost ev = error@;
                            errors.push(error);
                            proof {
                                assert(error_views(errors@) =~= werr.push(ev));
                                assert(errors_before + walk_errors(root@, entries@, m + 1) =~= werr.push(ev));
                                assert(before + walk_paths(entries@, ext, m + 1) =~= walked);
                            }
                        },
                    }
                    m += 1;
                }
                proof {
                    assert(input_paths(inputs@, ext, k + 1) =~= before + walk_paths(entries@, ext, entries@.len() as int));
                    assert(input_errors(inputs@, k + 1) =~= errors_before + walk_errors(root@, entries@, entries@.len() as int));
                }
            },
            PathInput::Missing(path) => {
                let error = ScanError {
                    path: path.clone(),
                    message: owned("Path does not exist or is not a regular file/directory"),
                };
                let ghost ev = error@;
                errors.push(error);
                proof {
                    assert(error_views(errors@) =~= errors_before.push(ev));
                    assert(input_errors(inputs@, k + 1) =~= errors_before.push(ev));
                    assert(input_paths(inputs@, ext, k + 1) =~= before);
                }
            },
        }
        k += 1;
    }
    let ghost unsorted = string_views(paths@);
    sort_paths(&mut paths);
    proof {
        let all = input_paths(inputs@, ext, inputs@.len() as int);
        lemma_distinct_paths_are_distinct(all);
        unsorted.lemma_multiset_has_no_duplicates();
        string_views(paths@).lemma_multiset_has_no_duplicates_conv();
    }
    Candidates { paths, errors }
}


// ---------------------------------------------------------------------------
// The report on one file.
// ---------------------------------------------------------------------------

/// The first 8 KiB of `bytes` hold a NUL byte.
pub open spec fn binary_sample(bytes: Seq<u8>) -> bool {
    exists|i: int| 0 <= i < bytes.len() && i < 8192 && bytes[i] == 0
}

/// Whether the bytes look binary: a NUL byte in the first 8 KiB.
pub fn looks_binary(bytes: &[u8]) -> (binary: bool)
    ensures
        binary == binary_sample(bytes@),
{
    let mut i: usize = 0;
    while i < bytes.len() && i < 8192
        invariant
            i <= bytes.len(),
            forall|k: int| 0 <= k < i ==> bytes@[k] != 0,
        decreases bytes.len() - i,
    {
        if bytes[i] == 0 {
            return true;
        }
        i += 1;
    }
    false
}

/// The largest `j <= n` such that `bytes[0..j]` is valid UTF-8.
pub open spec fn valid_prefix_len(bytes: Seq<u8>, n: int) -> int
    decreases n,
{
    if n <= 0 {
        0
    } else if partial_valid_utf8(bytes, n) {
        n
    } else {
        valid_prefix_len(bytes, n - 1)
    }
}

proof fn lemma_valid_prefix_len(bytes: Seq<u8>, k: int, n: int)
    requires
        0 <= k <= n <= bytes.len(),
        partial_valid_utf8(bytes, k),
        forall|j: int| k < j <= bytes.len() ==> !partial_valid_utf8(bytes, j),
    ensures
        valid_prefix_len(bytes, n) == k,
    decreases n,
{
    if n > k {
        lemma_valid_prefix_len(bytes, k, n - 1);
    }
}

/// The length reported for invalid UTF-8 is the longest valid prefix.
pub proof fn lemma_valid_prefix_len_pub(bytes: Seq<u8>, k: int, n: int)
    requires
        0 <= k <= n <= bytes.len(),
        partial_valid_utf8(bytes, k),
        forall|j: int| k < j <= bytes.len() ==> !partial_valid_utf8(bytes, j),
    ensures
        valid_prefix_len(bytes, n) == k,
{
    lemma_valid_prefix_len(bytes, k, n);
}

/// The bytes start with the UTF-8 byte-order mark.
pub open spec fn has_bom(bytes: Seq<u8>) -> bool {
    bytes.len() >= 3 && bytes[0] == 0xEF && bytes[1] == 0xBB && bytes[2] == 0xBF
}

/// What reading a file gave.
pub enum ReadOutcome {
    /// The file was not read because it is too large.
    NotRead,
    /// Reading failed; the message describes why.
    Failed(String),
    /// The content of the file.
    Bytes(Vec<u8>),
}

/// What the file system says of a candidate file.
pub enum FileProbe {
    /// Its metadata could not be read; the message describes why.
    MetadataFailed(String),
    /// Its size, and its content unless it exceeds the size limit.
    Stat { size: u64, contents: ReadOutcome },
}

/// Whether a file of `size` bytes is read under `options`.
pub fn within_size_limit(size: u64, options: &ScanOptions) -> (read: bool)
    ensures
        read == (size <= options.max_bytes),
{
    size <= options.max_bytes
}

/// A probe that a scan can report on: files within the limit were read, and
/// their length leaves room for byte offsets and finding counts.
pub open spec fn probe_ok(probe: FileProbe, max_bytes: u64) -> bool {
    match probe {
        FileProbe::MetadataFailed(_) => true,
        FileProbe::Stat { size, contents } => match contents {
            ReadOutcome::NotRead => size > max_bytes,
            ReadOutcome::Failed(_) => true,
            ReadOutcome::Bytes(bytes) => 3 * bytes@.len() + 6 <= usize::MAX,
        },
    }
}

/// The report on a file that was not analyzed.
pub open spec fn skipped_view(path: Seq<char>, size: u64, status: FileStatus, note: Seq<char>) -> FileReportView {
    FileReportView {
        path,
        size_bytes: size,
        status,
        encoding: None,
        metrics: None,
        findings: Seq::empty(),
        findings_truncated: 0,
        note: Some(note),
    }
}

/// The report on the file at `path`, or the error that prevents one.
pub open spec fn file_outcome(path: Seq<char>, probe: FileProbe, max_bytes: u64, max_findings: usize) -> Result<
    FileReportView,
    ScanErrorView,
> {
    match probe {
        FileProbe::MetadataFailed(message) => Err(ScanErrorView { path, message: "Could not read metadata: "@ + message@ }),
        FileProbe::Stat { size, contents } => if size > max_bytes {
            Ok(skipped_view(path, size, FileStatus::SkippedTooLarge, "File exceeds --max-bytes ("@ + decimal(max_bytes as nat) + ")"@))
        } else {
            match contents {
                ReadOutcome::Failed(message) => Err(ScanErrorView { path, message: "Could not read file: "@ + message@ }),
                ReadOutcome::Bytes(bytes) => if binary_sample(bytes@) {
                    Ok(skipped_view(path, size, FileStatus::SkippedBinary, "NUL byte detected in the initial sample"@))
                } else if !valid_utf8(bytes@) {
                    Ok(skipped_view(path, size, FileStatus::SkippedNonUtf8, "Invalid UTF-8 at byte "@ + decimal(
                        valid_prefix_len(bytes@, bytes@.len() as int) as nat)))
                } else {
                    let t = decode_utf8(bytes@);
                    let findings = capped(all_findings(t, 0), max_findings as int);
                    Ok(FileReportView {
                        path,
                        size_bytes: size,
                        status: if findings.len() == 0 {
                            FileStatus::NoSupportedSurfaceSignalDetected
                        } else {
                            FileStatus::SurfaceFindingsPresent
                        },
                        encoding: Some(if has_bom(bytes@) { "utf-8-bom" } else { "utf-8" }),
                        metrics: Some(text_metrics(t)),
                        findings,
                        findings_truncated: overflow(all_findings(t, 0), max_findings as int) as usize,
                        note: None,
                    })
                },
                ReadOutcome::NotRead => Err(ScanErrorView { path, message: Seq::empty() }),
            }
        },
    }
}

/// The view of the result of scanning one file.
pub open spec fn outcome_view(result: Result<FileReport, ScanError>) -> Result<FileReportView, ScanErrorView> {
    match result {
        Ok(report) => Ok(report@),
        Err(error) => Err(error@),
    }
}

fn skipped_report(path: &str, size: u64, status: FileStatus, note: String) -> (report: FileReport)
    ensures
        report@ == skipped_view(path@, size, status, note@),
{
    let report = FileReport {
        path: owned(path),
        size_bytes: size,
        status,
        encoding: None,
        metrics: None,
        findings: Vec::new(),
        findings_truncated: 0,
        note: Some(note),
    };
    assert(finding_views(report.findings@) =~= Seq::empty());
    report
}

/// Reports on the file at `path` from what the file system gave: skipped
/// when too large, binary or not UTF-8, else the analysis of its text.
pub fn scan_file(path: &str, probe: &FileProbe, options: &ScanOptions) -> (result: Result<FileReport, ScanError>)
    requires
        probe_ok(*probe, options.max_bytes),
    ensures
        outcome_view(result) == file_outcome(path@, *probe, options.max_bytes, options.max_findings_per_file),
{
    match probe {
        FileProbe::MetadataFailed(message) => {
            let mut text = owned("Could not read metadata: ");
            push_str(&mut text, message.as_str());
            Err(ScanError { path: owned(path), message: text })
        },
        FileProbe::Stat { size, contents } => {
            let size = *size;
            if !within_size_limit(size, options) {
                let mut note = owned("File exceeds --max-bytes (");
                push_decimal(&mut note, options.max_bytes);
                push_str(&mut note, ")");
                return Ok(skipped_report(path, size, FileStatus::SkippedTooLarge, note));
            }
            match contents {
                ReadOutcome::NotRead => {
                    assert(false);
                    Err(ScanError { path: owned(path), message: String::new() })
                },
                ReadOutcome::Failed(message) => {
                    let mut text = owned("Could not read file: ");
                    push_str(&mut text, message.as_str());
                    Err(ScanError { path: owned(path), message: text })
                },
                ReadOutcome::Bytes(bytes) => {
                    if looks_binary(bytes.as_slice()) {
                        return Ok(skipped_report(path, size, FileStatus::SkippedBinary,
                            owned("NUL byte detected in the initial sample")));
                    }
                    match utf8_decode(bytes.as_slice()) {
                        Err(valid_up_to) => {
                            proof {
                                lemma_valid_prefix_len(bytes@, valid_up_to as int, bytes@.len() as int);
                            }
                            let mut note = owned("Invalid UTF-8 at byte ");
                            push_decimal(&mut note, valid_up_to as u64);
                            Ok(skipped_report(path, size, FileStatus::SkippedNonUtf8, note))
                        },
                        Ok(text) => {
                            proof {
                                crate::text::lemma_decoded_len(bytes@);
                            }
                            let encoding: &'static str = if bytes.len() >= 3 && bytes[0] == 0xEF && bytes[1] == 0xBB
                                && bytes[2] == 0xBF {
                                "utf-8-bom"
                            } else {
                                "utf-8"
                            };
                            proof {
                                crate::unicode_rules::lemma_offsets_fit(text@, 0);
                                crate::unicode_rules::lemma_utf8_len_at_least_chars(text@);
                            }
                            let analysis = analyze_text(text.as_str(), 0, options.max_findings_per_file);
                            let status = if analysis.findings.len() == 0 {
                                FileStatus::NoSupportedSurfaceSignalDetected
                            } else {
                                FileStatus::SurfaceFindingsPresent
                            };
                            let report = FileReport {
                                path: owned(path),
                                size_bytes: size,
                                status,
                                encoding: Some(encoding),
                                metrics: Some(analysis.metrics),
                                findings: analysis.findings,
                                findings_truncated: analysis.truncated,
                                note: None,
                            };
                            Ok(report)
                        },
                    }
                },
            }
        },
    }
}


// ---------------------------------------------------------------------------
// The report on a scan.
// ---------------------------------------------------------------------------

/// The reports on `paths[0..k]` that a scan keeps, in order.
pub open spec fn scanned_files(paths: Seq<String>, probes: Seq<FileProbe>, max_bytes: u64, max_findings: usize, k: int) -> Seq<
    FileReportView,
>
    decreases k,
{
    if k <= 0 {
        Seq::empty()
    } else {
        match file_outcome(paths[k - 1]@, probes[k - 1], max_bytes, max_findings) {
            Ok(report) => scanned_files(paths, probes, max_bytes, max_findings, k - 1).push(report),
            Err(_) => scanned_files(paths, probes, max_bytes, max_findings, k - 1),
        }
    }
}

/// The errors met while scanning `paths[0..k]`, in order.
pub open spec fn scan_errors(paths: Seq<String>, probes: Seq<FileProbe>, max_bytes: u64, max_findings: usize, k: int) -> Seq<
    ScanErrorView,
>
    decreases k,
{
    if k <= 0 {
        Seq::empty()
    } else {
        match file_outcome(paths[k - 1]@, probes[k - 1], max_bytes, max_findings) {
            Ok(_) => scan_errors(paths, probes, max_bytes, max_findings, k - 1),
            Err(error) => scan_errors(paths, probes, max_bytes, max_findings, k - 1).push(error),
        }
    }
}

/// Every candidate yields exactly one report or one error.
pub proof fn lemma_each_candidate_accounted(
    paths: Seq<String>,
    probes: Seq<FileProbe>,
    max_bytes: u64,
    max_findings: usize,
    k: int,
)
    requires
        0 <= k,
    ensures
        scanned_files(paths, probes, max_bytes, max_findings, k).len() + scan_errors(
            paths,
            probes,
            max_bytes,
            max_findings,
            k,
        ).len() == k,
    decreases k,
{
    if k > 0 {
        lemma_each_candidate_accounted(paths, probes, max_bytes, max_findings, k - 1);
    }
}

/// The summary before any file is counted.
pub open spec fn initial_summary(files_considered: usize) -> Summary {
    Summary {
        files_considered,
        files_scanned: 0,
        files_with_findings: 0,
        files_skipped: 0,
        findings_total: 0,
        findings_info: 0,
        findings_warning: 0,
        findings_high: 0,
        findings_truncated: 0,
    }
}

/// The reason why statistical watermark detection is indeterminate.
pub const INDETERMINATE_REASON: &'static str =
    "A provider detector or the watermark algorithm, tokenizer, configuration, and key are required.";

/// Builds the scan report from the selected candidates and what the file
/// system gave for each of them (`probes[k]` for `candidates.paths[k]`): a
/// report or an error per file, after the errors of the selection, and the
/// summary of the reports. Statistical watermark detection is always
/// reported as indeterminate.
#[verifier::spinoff_prover]
#[verifier::rlimit(40)]
pub fn scan_paths(candidates: Candidates, probes: &Vec<FileProbe>, options: &ScanOptions) -> (report: ScanReport)
    requires
        probes.len() == candidates.paths.len(),
        forall|k: int| 0 <= k < probes.len() ==> probe_ok(#[trigger] probes@[k], options.max_bytes),
    ensures
        report.schema_version == 1,
        report.tool == (ToolInfo { name: "wmtext", version: TOOL_VERSION }),
        report.statistical_watermark_status == (StatisticalStatus {
            status: "indeterminate",
            reason: INDETERMINATE_REASON,
        }),
        file_views(report.files@) == scanned_files(
            candidates.paths@,
            probes@,
            options.max_bytes,
            options.max_findings_per_file,
            probes@.len() as int,
        ),
        error_views(report.errors@) == error_views(candidates.errors@) + scan_errors(
            candidates.paths@,
            probes@,
            options.max_bytes,
            options.max_findings_per_file,
            probes@.len() as int,
        ),
        report.summary == summary_after(
            file_views(report.files@),
            report.files@.len() as int,
            initial_summary(candidates.paths@.len() as usize),
        ),
{
    let Candidates { paths, errors } = candidates;
    let ghost first_errors = error_views(errors@);
    let mut report = ScanReport {
        schema_version: 1,
        tool: ToolInfo { name: "wmtext", version: TOOL_VERSION },
        statistical_watermark_status: StatisticalStatus { status: "indeterminate", reason: INDETERMINATE_REASON },
        summary: Summary {
            files_considered: paths.len(),
            files_scanned: 0,
            files_with_findings: 0,
            files_skipped: 0,
            findings_total: 0,
            findings_info: 0,
            findings_warning: 0,
            findings_high: 0,
            findings_truncated: 0,
        },
        files: Vec::new(),
        errors,
    };
    let mut k: usize = 0;
    proof {
        assert(file_views(report.files@) =~= Seq::<FileReportView>::empty());
        assert(first_errors + scan_errors(paths@, probes@, options.max_bytes, options.max_findings_per_file, 0)
            =~= first_errors);
    }
    while k < paths.len()
        invariant
            k <= paths.len(),
            probes.len() == paths.len(),
            forall|m: int| 0 <= m < probes.len() ==> probe_ok(#[trigger] probes@[m], options.max_bytes),
            report.schema_version == 1,
            report.tool == (ToolInfo { name: "wmtext", version: TOOL_VERSION }),
            report.statistical_watermark_status == (StatisticalStatus {
                status: "indeterminate",
                reason: INDETERMINATE_REASON,
            }),
            report.summary == initial_summary(paths@.len() as usize),
            file_views(report.files@) == scanned_files(paths@, probes@, options.max_bytes, options.max_findings_per_file, k as int),
            error_views(report.errors@) == first_errors + scan_errors(
                paths@,
                probes@,
                options.max_bytes,
                options.max_findings_per_file,
                k as int,
            ),
        decreases paths.len() - k,
    {
        let ghost files_before = report.files@;
        let ghost errors_before = report.errors@;
        let result = scan_file(paths[k].as_str(), &probes[k], options);
        let ghost outcome = file_outcome(paths@[k as int]@, probes@[k as int], options.max_bytes, options.max_findings_per_file);
        assert(outcome_view(result) == outcome);
        match result {
            Ok(file) => {
                let ghost fv = file@;
                assert(outcome == Ok::<FileReportView, ScanErrorView>(fv));
                report.files.push(file);
                proof {
                    assert(file_views(report.files@) =~= file_views(files_before).push(fv));
                    assert(error_views(report.errors@) =~= first_errors + scan_errors(
                        paths@,
                        probes@,
                        options.max_bytes,
                        options.max_findings_per_file,
                        k + 1,
                    ));
                }
            },
            Err(error) => {
                let ghost ev = error@;
                assert(outcome == Err::<FileReportView, ScanErrorView>(ev));
                report.errors.push(error);
                proof {
                    assert(error_views(report.errors@) =~= error_views(errors_before).push(ev));
                    assert(error_views(report.errors@) =~= first_errors + scan_errors(
                        paths@,
                        probes@,
                        options.max_bytes,
                        options.max_findings_per_file,
                        k + 1,
                    ));
                    assert(file_views(report.files@) =~= scanned_files(
                        paths@,
                        probes@,
                        options.max_bytes,
                        options.max_findings_per_file,
                        k + 1,
                    ));
                }
            },
        }
        k += 1;
    }
    summarize(&mut report);
    report
}

} // verus!
