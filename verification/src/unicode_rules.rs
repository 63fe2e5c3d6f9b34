//! Findings and metrics derived from the classification of a text.

use unicode_normalization::UnicodeNormalization;
use vstd::prelude::*;

use crate::model::{Finding, FindingView, Severity, TextMetrics, finding_views};
use crate::text::{content_end, line_end, line_start, trail_start, lemma_line_end_bounds, lemma_trail_start_bounds};
use crate::text::{
    capped, codepoint_text, column_of, decimal, format_codepoint, hex, line_of, overflow, owned,
    push_char, push_decimal, push_str, utf8_len, zero_padded,
};
use vstd::string::StrSliceExecFns;
use crate::unicode_context::{alphabetic, char_is_alphabetic};
use crate::unicode_context::{
    CarrierKind, CharDecision, RecommendedAction, classify_chars, classify_spec, decision_at,
    is_variation_selector,
};

use crate::binary64::{at_least_two_percent, ratio_at_least_two_percent};

verus! {

/// The interpretation attached to every finding.
pub const INTERPRETATION: &'static str =
    "Observable surface anomaly only; it does not identify an AI provider or prove a watermark.";

// ---------------------------------------------------------------------------
// Character predicates of the analysis.
// ---------------------------------------------------------------------------

/// Zero-width non-joiner and joiner.
#[verifier::allow_in_spec]
pub fn is_joiner(cp: u32) -> bool
    returns
        cp == 0x200C || cp == 0x200D,
{
    cp == 0x200C || cp == 0x200D
}

/// Embeddings, overrides, the pop and the isolates.
#[verifier::allow_in_spec]
pub fn is_bidi_control(cp: u32) -> bool
    returns
        (0x202A <= cp && cp <= 0x202E) || (0x2066 <= cp && cp <= 0x2069),
{
    (0x202A <= cp && cp <= 0x202E) || (0x2066 <= cp && cp <= 0x2069)
}

/// Unicode tag characters.
#[verifier::allow_in_spec]
pub fn is_unicode_tag(cp: u32) -> bool
    returns
        0xE0000 <= cp && cp <= 0xE007F,
{
    0xE0000 <= cp && cp <= 0xE007F
}

/// Non-ASCII space characters.
#[verifier::allow_in_spec]
pub fn is_non_ascii_space(cp: u32) -> bool
    returns
        cp == 0x00A0 || cp == 0x1680 || (0x2000 <= cp && cp <= 0x200A) || cp == 0x202F || cp
            == 0x205F || cp == 0x3000,
{
    cp == 0x00A0 || cp == 0x1680 || (0x2000 <= cp && cp <= 0x200A) || cp == 0x202F || cp
        == 0x205F || cp == 0x3000
}

/// Combining diacritical marks of the dedicated blocks.
#[verifier::allow_in_spec]
pub fn is_combining_mark(cp: u32) -> bool
    returns
        (0x0300 <= cp && cp <= 0x036F) || (0x1AB0 <= cp && cp <= 0x1AFF) || (0x1DC0 <= cp && cp
            <= 0x1DFF) || (0x20D0 <= cp && cp <= 0x20FF) || (0xFE20 <= cp && cp <= 0xFE2F),
{
    (0x0300 <= cp && cp <= 0x036F) || (0x1AB0 <= cp && cp <= 0x1AFF) || (0x1DC0 <= cp && cp
        <= 0x1DFF) || (0x20D0 <= cp && cp <= 0x20FF) || (0xFE20 <= cp && cp <= 0xFE2F)
}

/// C0 and C1 controls other than tab, line feed and carriage return.
#[verifier::allow_in_spec]
pub fn is_unexpected_control(cp: u32) -> bool
    returns
        (cp <= 0x001F || (0x007F <= cp && cp <= 0x009F)) && !(cp == 0x0009 || cp == 0x000A || cp
            == 0x000D),
{
    (cp <= 0x001F || (0x007F <= cp && cp <= 0x009F)) && !(cp == 0x0009 || cp == 0x000A || cp
        == 0x000D)
}

/// The general category Cc (control), which is exactly U+0000-U+001F and
/// U+007F-U+009F: what `char::is_control` reports.
#[verifier::allow_in_spec]
pub fn is_control_char(cp: u32) -> bool
    returns
        cp <= 0x001F || (0x007F <= cp && cp <= 0x009F),
{
    cp <= 0x001F || (0x007F <= cp && cp <= 0x009F)
}

/// The script of a letter: 1 for Latin, 2 for Greek, 4 for Cyrillic, 8 for anything else.
pub open spec fn script_of(ch: char) -> u8 {
    let cp = ch as u32;
    if (0x41 <= cp && cp <= 0x5A) || (0x61 <= cp && cp <= 0x7A) || (0x00C0 <= cp && cp <= 0x024F)
        || (0x1E00 <= cp && cp <= 0x1EFF) {
        1
    } else if (0x0370 <= cp && cp <= 0x03FF) || (0x1F00 <= cp && cp <= 0x1FFF) {
        2
    } else if (0x0400 <= cp && cp <= 0x052F) || (0x2DE0 <= cp && cp <= 0x2DFF) || (0xA640 <= cp
        && cp <= 0xA69F) {
        4
    } else {
        8
    }
}

/// The script of a letter: 1 for Latin, 2 for Greek, 4 for Cyrillic, 8 for anything else.
pub fn script_bit(ch: char) -> (bit: u8)
    ensures
        bit == script_of(ch),
{
    let cp = ch as u32;
    if (0x41 <= cp && cp <= 0x5A) || (0x61 <= cp && cp <= 0x7A) || (0x00C0 <= cp && cp <= 0x024F)
        || (0x1E00 <= cp && cp <= 0x1EFF) {
        1
    } else if (0x0370 <= cp && cp <= 0x03FF) || (0x1F00 <= cp && cp <= 0x1FFF) {
        2
    } else if (0x0400 <= cp && cp <= 0x052F) || (0x2DE0 <= cp && cp <= 0x2DFF) || (0xA640 <= cp
        && cp <= 0xA69F) {
        4
    } else {
        8
    }
}

/// The severity and message of well-known invisible format characters.
pub open spec fn format_control_class(cp: u32) -> Option<(Severity, &'static str)> {
    if cp == 0x200B {
        Some((Severity::High, "Zero-width space is invisible in rendered text"))
    } else if cp == 0x2060 {
        Some((Severity::Warning, "Word joiner is invisible in rendered text"))
    } else if 0x2061 <= cp && cp <= 0x2064 {
        Some((Severity::High, "Invisible mathematical operator can carry hidden distinctions"))
    } else if cp == 0x00AD {
        Some((Severity::Info, "Soft hyphen is normally invisible"))
    } else if cp == 0x034F {
        Some((Severity::Warning, "Combining grapheme joiner is invisible"))
    } else if cp == 0x061C || cp == 0x200E || cp == 0x200F {
        Some((Severity::Info, "Directional mark may be legitimate in bidirectional text"))
    } else if cp == 0x180E {
        Some((Severity::High, "Mongolian vowel separator is normally invisible"))
    } else if cp == 0xFEFF {
        Some((Severity::High, "Unexpected byte-order-mark character appears inside decoded text"))
    } else if 0xFFF9 <= cp && cp <= 0xFFFB {
        Some((Severity::High, "Interlinear annotation control is invisible or display-affecting"))
    } else {
        None
    }
}

/// The severity and message of well-known invisible format characters.
pub fn classified_format_control(cp: u32) -> (class: Option<(Severity, &'static str)>)
    ensures
        class == format_control_class(cp),
{
    if cp == 0x200B {
        Some((Severity::High, "Zero-width space is invisible in rendered text"))
    } else if cp == 0x2060 {
        Some((Severity::Warning, "Word joiner is invisible in rendered text"))
    } else if 0x2061 <= cp && cp <= 0x2064 {
        Some((Severity::High, "Invisible mathematical operator can carry hidden distinctions"))
    } else if cp == 0x00AD {
        Some((Severity::Info, "Soft hyphen is normally invisible"))
    } else if cp == 0x034F {
        Some((Severity::Warning, "Combining grapheme joiner is invisible"))
    } else if cp == 0x061C || cp == 0x200E || cp == 0x200F {
        Some((Severity::Info, "Directional mark may be legitimate in bidirectional text"))
    } else if cp == 0x180E {
        Some((Severity::High, "Mongolian vowel separator is normally invisible"))
    } else if cp == 0xFEFF {
        Some((Severity::High, "Unexpected byte-order-mark character appears inside decoded text"))
    } else if 0xFFF9 <= cp && cp <= 0xFFFB {
        Some((Severity::High, "Interlinear annotation control is invisible or display-affecting"))
    } else {
        None
    }
}

// ---------------------------------------------------------------------------
// Names and visible renderings.
// ---------------------------------------------------------------------------

/// The name reported for a character.
pub open spec fn unicode_name_text(ch: char) -> Seq<char> {
    let cp = ch as u32;
    if cp == 0x00A0 { "NO-BREAK SPACE"@ }
    else if cp == 0x00AD { "SOFT HYPHEN"@ }
    else if cp == 0x034F { "COMBINING GRAPHEME JOINER"@ }
    else if cp == 0x061C { "ARABIC LETTER MARK"@ }
    else if cp == 0x180E { "MONGOLIAN VOWEL SEPARATOR"@ }
    else if cp == 0x200B { "ZERO WIDTH SPACE"@ }
    else if cp == 0x200C { "ZERO WIDTH NON-JOINER"@ }
    else if cp == 0x200D { "ZERO WIDTH JOINER"@ }
    else if cp == 0x200E { "LEFT-TO-RIGHT MARK"@ }
    else if cp == 0x200F { "RIGHT-TO-LEFT MARK"@ }
    else if cp == 0x202A { "LEFT-TO-RIGHT EMBEDDING"@ }
    else if cp == 0x202B { "RIGHT-TO-LEFT EMBEDDING"@ }
    else if cp == 0x202C { "POP DIRECTIONAL FORMATTING"@ }
    else if cp == 0x202D { "LEFT-TO-RIGHT OVERRIDE"@ }
    else if cp == 0x202E { "RIGHT-TO-LEFT OVERRIDE"@ }
    else if cp == 0x202F { "NARROW NO-BREAK SPACE"@ }
    else if cp == 0x2060 { "WORD JOINER"@ }
    else if cp == 0x2061 { "FUNCTION APPLICATION"@ }
    else if cp == 0x2062 { "INVISIBLE TIMES"@ }
    else if cp == 0x2063 { "INVISIBLE SEPARATOR"@ }
    else if cp == 0x2064 { "INVISIBLE PLUS"@ }
    else if cp == 0x2066 { "LEFT-TO-RIGHT ISOLATE"@ }
    else if cp == 0x2067 { "RIGHT-TO-LEFT ISOLATE"@ }
    else if cp == 0x2068 { "FIRST STRONG ISOLATE"@ }
    else if cp == 0x2069 { "POP DIRECTIONAL ISOLATE"@ }
    else if cp == 0xFEFF { "ZERO WIDTH NO-BREAK SPACE"@ }
    else if 0xFE00 <= cp && cp <= 0xFE0F { "VARIATION SELECTOR-"@ + decimal((cp - 0xFE00 + 1) as nat) }
    else if 0xE0100 <= cp && cp <= 0xE01EF { "VARIATION SELECTOR-"@ + decimal((cp - 0xE0100 + 17) as nat) }
    else if cp == 0xE0000 { "TAG BASE"@ }
    else if cp == 0xE0001 { "LANGUAGE TAG"@ }
    else if 0xE0020 <= cp && cp <= 0xE007E { "TAG CHARACTER U+"@ + zero_padded(hex(cp as nat), 4) }
    else if cp == 0xE007F { "CANCEL TAG"@ }
    else { "UNICODE CHARACTER U+"@ + zero_padded(hex(cp as nat), 4) }
}

/// Appends the hexadecimal code point of `ch`, at least four digits.
fn push_hex4(s: &mut String, ch: char)
    ensures
        final(s)@ == old(s)@ + zero_padded(hex(ch as u32 as nat), 4),
{
    let label = format_codepoint(ch);
    proof {
        assert(label@ == seq!['U', '+'] + zero_padded(hex(ch as u32 as nat), 4));
    }
    let mut i: usize = 2;
    let ghost start = s@;
    let n = label.as_str().unicode_len();
    while i < n
        invariant
            2 <= i <= n,
            n == label@.len(),
            s@ == start + label@.subrange(2, i as int),
        decreases n - i,
    {
        push_char(s, label.as_str().get_char(i));
        proof {
            assert(label@.subrange(2, i + 1) =~= label@.subrange(2, i as int).push(label@[i as int]));
        }
        i += 1;
    }
    proof {
        assert(label@.subrange(2, n as int) =~= zero_padded(hex(ch as u32 as nat), 4));
    }
}

/// The name reported for a character.
pub fn unicode_name(ch: char) -> (name: String)
    ensures
        name@ == unicode_name_text(ch),
{
    let cp = ch as u32;
    if cp == 0x00A0 { owned("NO-BREAK SPACE") }
    else if cp == 0x00AD { owned("SOFT HYPHEN") }
    else if cp == 0x034F { owned("COMBINING GRAPHEME JOINER") }
    else if cp == 0x061C { owned("ARABIC LETTER MARK") }
    else if cp == 0x180E { owned("MONGOLIAN VOWEL SEPARATOR") }
    else if cp == 0x200B { owned("ZERO WIDTH SPACE") }
    else if cp == 0x200C { owned("ZERO WIDTH NON-JOINER") }
    else if cp == 0x200D { owned("ZERO WIDTH JOINER") }
    else if cp == 0x200E { owned("LEFT-TO-RIGHT MARK") }
    else if cp == 0x200F { owned("RIGHT-TO-LEFT MARK") }
    else if cp == 0x202A { owned("LEFT-TO-RIGHT EMBEDDING") }
    else if cp == 0x202B { owned("RIGHT-TO-LEFT EMBEDDING") }
    else if cp == 0x202C { owned("POP DIRECTIONAL FORMATTING") }
    else if cp == 0x202D { owned("LEFT-TO-RIGHT OVERRIDE") }
    else if cp == 0x202E { owned("RIGHT-TO-LEFT OVERRIDE") }
    else if cp == 0x202F { owned("NARROW NO-BREAK SPACE") }
    else if cp == 0x2060 { owned("WORD JOINER") }
    else if cp == 0x2061 { owned("FUNCTION APPLICATION") }
    else if cp == 0x2062 { owned("INVISIBLE TIMES") }
    else if cp == 0x2063 { owned("INVISIBLE SEPARATOR") }
    else if cp == 0x2064 { owned("INVISIBLE PLUS") }
    else if cp == 0x2066 { owned("LEFT-TO-RIGHT ISOLATE") }
    else if cp == 0x2067 { owned("RIGHT-TO-LEFT ISOLATE") }
    else if cp == 0x2068 { owned("FIRST STRONG ISOLATE") }
    else if cp == 0x2069 { owned("POP DIRECTIONAL ISOLATE") }
    else if cp == 0xFEFF { owned("ZERO WIDTH NO-BREAK SPACE") }
    else if 0xFE00 <= cp && cp <= 0xFE0F {
        let mut name = owned("VARIATION SELECTOR-");
        push_decimal(&mut name, (cp - 0xFE00 + 1) as u64);
        name
    } else if 0xE0100 <= cp && cp <= 0xE01EF {
        let mut name = owned("VARIATION SELECTOR-");
        push_decimal(&mut name, (cp - 0xE0100 + 17) as u64);
        name
    } else if cp == 0xE0000 { owned("TAG BASE") }
    else if cp == 0xE0001 { owned("LANGUAGE TAG") }
    else if 0xE0020 <= cp && cp <= 0xE007E {
        let mut name = owned("TAG CHARACTER U+");
        push_hex4(&mut name, ch);
        name
    } else if cp == 0xE007F { owned("CANCEL TAG") }
    else {
        let mut name = owned("UNICODE CHARACTER U+");
        push_hex4(&mut name, ch);
        name
    }
}

/// The visible rendering of one character: escapes for line breaks and
/// tabs, `<U+XXXX>` for controls, invisible carriers and non-ASCII spaces.
pub open spec fn visible_char(c: char) -> Seq<char> {
    let cp = c as u32;
    if c == '\n' {
        "\\n"@
    } else if c == '\r' {
        "\\r"@
    } else if c == '\t' {
        "\\t"@
    } else if is_control_char(cp) || format_control_class(cp) is Some || is_joiner(cp) || is_bidi_control(cp)
        || is_unicode_tag(cp) || is_variation_selector(cp) || is_non_ascii_space(cp) {
        seq!['<'] + codepoint_text(c) + seq!['>']
    } else {
        seq![c]
    }
}

/// The visible rendering of a character sequence.
pub open spec fn visible(s: Seq<char>) -> Seq<char>
    decreases s.len(),
{
    if s.len() == 0 {
        Seq::empty()
    } else {
        visible(s.drop_last()) + visible_char(s.last())
    }
}

/// Appends the visible rendering of `chars[from..to]`.
pub fn push_visible(out: &mut String, chars: &Vec<char>, from: usize, to: usize)
    requires
        from <= to <= chars.len(),
    ensures
        final(out)@ == old(out)@ + visible(chars@.subrange(from as int, to as int)),
{
    let ghost start = out@;
    let mut i = from;
    proof {
        assert(chars@.subrange(from as int, from as int) =~= Seq::<char>::empty());
    }
    while i < to
        invariant
            from <= i <= to <= chars.len(),
            out@ == start + visible(chars@.subrange(from as int, i as int)),
        decreases to - i,
    {
        let c = chars[i];
        let cp = c as u32;
        let ghost before = out@;
        if c == '\n' {
            push_str(out, "\\n");
        } else if c == '\r' {
            push_str(out, "\\r");
        } else if c == '\t' {
            push_str(out, "\\t");
        } else if is_control_char(cp) || classified_format_control(cp).is_some() || is_joiner(cp)
            || is_bidi_control(cp) || is_unicode_tag(cp) || is_variation_selector(cp) || is_non_ascii_space(cp) {
            push_char(out, '<');
            let label = format_codepoint(c);
            push_str(out, label.as_str());
            push_char(out, '>');
            proof {
                assert(out@ =~= before + (seq!['<'] + codepoint_text(c) + seq!['>']));
            }
        } else {
            push_char(out, c);
        }
        proof {
            let sub = chars@.subrange(from as int, i + 1);
            assert(sub.drop_last() =~= chars@.subrange(from as int, i as int));
            assert(sub.last() == c);
            assert(out@ =~= start + visible(sub));
        }
        i += 1;
    }
}

/// The visible rendering of a string.
pub fn visible_text(value: &str) -> (rendered: String)
    ensures
        rendered@ == visible(value@),
{
    let chars = crate::text::chars_of(value);
    let mut rendered = String::new();
    push_visible(&mut rendered, &chars, 0, chars.len());
    proof {
        assert(chars@.subrange(0, chars@.len() as int) =~= value@);
    }
    rendered
}

/// The context of position `i`: up to 16 characters before and 16 after it,
/// rendered visibly; empty for an empty text.
pub open spec fn context_text(t: Seq<char>, i: int) -> Seq<char> {
    if t.len() == 0 {
        Seq::empty()
    } else {
        let start = if i >= 16 { i - 16 } else { 0 };
        let end = if i + 17 <= t.len() { i + 17 } else { t.len() as int };
        visible(t.subrange(start, end))
    }
}

/// The context of position `index` of `chars`.
pub fn context_at(chars: &Vec<char>, index: usize) -> (context: String)
    requires
        index <= chars.len(),
    ensures
        context@ == context_text(chars@, index as int),
{
    let mut context = String::new();
    if chars.len() == 0 {
        return context;
    }
    let start = if index >= 16 { index - 16 } else { 0 };
    let end = if index < chars.len() && chars.len() - index >= 17 { index + 17 } else { chars.len() };
    push_visible(&mut context, chars, start, end);
    context
}

// ---------------------------------------------------------------------------
// Capped collection of findings.
// ---------------------------------------------------------------------------

/// Collects findings up to a maximum and counts the ones beyond it.
pub struct FindingCollector {
    pub max: usize,
    pub findings: Vec<Finding>,
    pub truncated: usize,
    /// Every finding pushed so far, retained or not.
    pub pushed: Ghost<Seq<FindingView>>,
}

impl FindingCollector {
    /// The retained findings are the first `max` pushed ones; the rest are counted.
    pub open spec fn wf(&self) -> bool {
        &&& finding_views(self.findings@) == capped(self.pushed@, self.max as int)
        &&& self.truncated == overflow(self.pushed@, self.max as int)
    }

    /// An empty collector keeping at most `max` findings.
    pub fn new(max: usize) -> (collector: Self)
        ensures
            collector.wf(),
            collector.max == max,
            collector.pushed@ == Seq::<FindingView>::empty(),
    {
        let collector = FindingCollector { max, findings: Vec::new(), truncated: 0, pushed: Ghost(Seq::empty()) };
        assert(finding_views(collector.findings@) =~= Seq::<FindingView>::empty());
        collector
    }

    /// Keeps `finding` while fewer than `max` are kept, else counts it.
    pub fn push(&mut self, finding: Finding)
        requires
            old(self).wf(),
            old(self).pushed@.len() < usize::MAX,
        ensures
            final(self).wf(),
            final(self).max == old(self).max,
            final(self).pushed@ == old(self).pushed@.push(finding@),
    {
        let ghost view = finding@;
        let ghost before = self.findings@;
        let ghost old_p = self.pushed@;
        assert(finding_views(before).len() == before.len());
        if self.findings.len() < self.max {
            assert(old_p.len() < self.max);
            self.findings.push(finding);
            proof {
                assert(finding_views(self.findings@) =~= finding_views(before).push(view));
                assert(capped(old_p.push(view), self.max as int) =~= old_p.push(view));
            }
        } else {
            assert(old_p.len() >= self.max);
            self.truncated = self.truncated + 1;
            proof {
                assert(capped(old_p.push(view), self.max as int) =~= capped(old_p, self.max as int));
            }
        }
        self.pushed = Ghost(self.pushed@.push(view));
    }
}


// ---------------------------------------------------------------------------
// Positions of the characters.
// ---------------------------------------------------------------------------

/// A character with its offsets and its line and column.
#[derive(Clone, Copy)]
pub struct Scalar {
    pub ch: char,
    pub local_byte_offset: usize,
    pub byte_offset: usize,
    pub char_offset: usize,
    pub line: usize,
    pub column: usize,
}

/// The offsets, line and column of position `i` of `t`, byte offsets counted from `byte_base`.
pub open spec fn scalar_at(t: Seq<char>, byte_base: int, i: int) -> Scalar {
    Scalar {
        ch: t[i],
        local_byte_offset: utf8_len(t.take(i)) as usize,
        byte_offset: (byte_base + utf8_len(t.take(i))) as usize,
        char_offset: i as usize,
        line: line_of(t, i) as usize,
        column: column_of(t, i) as usize,
    }
}

/// The byte offset of every character of `t`, counted from `byte_base`, and
/// the length of `t` in bytes fit in `usize`.
pub open spec fn offsets_fit(t: Seq<char>, byte_base: int) -> bool {
    &&& 0 <= byte_base
    &&& utf8_len(t) <= usize::MAX
    &&& forall|i: int| 0 <= i < t.len() ==> byte_base + #[trigger] utf8_len(t.take(i)) <= usize::MAX
}

/// The texts whose character offsets, counted from `byte_base`, fit in
/// `usize`, and whose findings can be counted in `usize`. A text of `n`
/// characters yields at most `3 * n + 6` findings (at most one per character,
/// one per mixed-script token, one per run of combining marks, and one each
/// for spaces, selectors, trailing whitespace and NFC), and the analysis counts
/// them, retained and truncated, in `usize`; the second bound says that this
/// count fits. It does not depend on `byte_base`.
pub open spec fn analyzable(t: Seq<char>, byte_base: int) -> bool {
    &&& offsets_fit(t, byte_base)
    &&& 3 * t.len() + 6 <= usize::MAX
}

/// Offsets fit when the whole text fits after `byte_base`.
pub proof fn lemma_offsets_fit(t: Seq<char>, byte_base: int)
    requires
        0 <= byte_base,
        byte_base + utf8_len(t) <= usize::MAX,
    ensures
        offsets_fit(t, byte_base),
{
    assert forall|i: int| 0 <= i < t.len() implies byte_base + #[trigger] utf8_len(t.take(i)) <= usize::MAX by {
        crate::text::lemma_utf8_len_prefix(t, i);
    }
}

/// Each character takes at least one byte.
pub proof fn lemma_utf8_len_at_least_chars(t: Seq<char>)
    ensures
        utf8_len(t) >= t.len(),
    decreases t.len(),
{
    if t.len() > 0 {
        crate::text::lemma_utf8_len_step(t, t.len() - 1);
        assert(t.take(t.len() - 1).len() == t.len() - 1);
        lemma_utf8_len_at_least_chars(t.take(t.len() - 1));
        assert(t.take(t.len() as int) =~= t);
    }
}

/// The characters of the text with their offsets, lines and columns.
pub fn collect_scalars(chars: &Vec<char>, byte_base: usize) -> (scalars: Vec<Scalar>)
    requires
        offsets_fit(chars@, byte_base as int),
    ensures
        scalars.len() == chars.len(),
        forall|i: int| 0 <= i < chars.len() ==> #[trigger] scalars[i] == scalar_at(chars@, byte_base as int, i),
{
    let ghost t = chars@;
    let n = chars.len();
    let mut scalars: Vec<Scalar> = Vec::new();
    let mut local_bytes: usize = 0;
    let mut line: usize = 1;
    let mut column: usize = 1;
    let mut index: usize = 0;
    proof {
        assert(t.take(0) =~= Seq::<char>::empty());
        assert(vstd::utf8::encode_utf8(Seq::<char>::empty()) =~= Seq::<u8>::empty());
    }
    while index < n
        invariant
            t == chars@,
            n == t.len(),
            index <= n,
            scalars.len() == index,
            offsets_fit(t, byte_base as int),
            local_bytes == utf8_len(t.take(index as int)),
            index < n ==> line == line_of(t, index as int),
            index < n ==> column == column_of(t, index as int),
            forall|i: int| 0 <= i < index ==> #[trigger] scalars[i] == scalar_at(t, byte_base as int, i),
        decreases n - index,
    {
        let ch = chars[index];
        proof {
            crate::text::lemma_utf8_len_step(t, index as int);
        }
        let scalar = Scalar {
            ch,
            local_byte_offset: local_bytes,
            byte_offset: local_bytes + byte_base,
            char_offset: index,
            line,
            column,
        };
        let ghost before = scalars@;
        scalars.push(scalar);
        assert(scalars@ == before.push(scalar));
        assert(scalar == scalar_at(t, byte_base as int, index as int));
        local_bytes = local_bytes + crate::text::utf8_width(ch);
        if index + 1 < n {
            proof {
                crate::text::lemma_line_start_bounds(t, index + 1);
            }
            if ch == '\n' {
                line += 1;
                column = 1;
            } else {
                column += 1;
            }
        }
        index += 1;
    }
    scalars
}

// ---------------------------------------------------------------------------
// Findings about single characters.
// ---------------------------------------------------------------------------

/// A finding about the character at position `i`.
pub open spec fn codepoint_finding_view(
    t: Seq<char>,
    byte_base: int,
    i: int,
    rule_id: &'static str,
    category: &'static str,
    severity: Severity,
    message: Seq<char>,
) -> FindingView {
    FindingView {
        rule_id,
        category,
        severity,
        message,
        codepoint: Some(codepoint_text(t[i])),
        unicode_name: Some(unicode_name_text(t[i])),
        byte_offset: byte_base + utf8_len(t.take(i)),
        char_offset: i,
        line: line_of(t, i) as int,
        column: column_of(t, i) as int,
        context: context_text(t, i),
        interpretation: INTERPRETATION,
    }
}

/// Builds the finding about `scalar`, the character at position `scalar.char_offset`.
fn codepoint_finding(
    chars: &Vec<char>,
    byte_base: usize,
    scalar: Scalar,
    rule_id: &'static str,
    category: &'static str,
    severity: Severity,
    message: String,
) -> (finding: Finding)
    requires
        scalar.char_offset < chars.len(),
        offsets_fit(chars@, byte_base as int),
        scalar == scalar_at(chars@, byte_base as int, scalar.char_offset as int),
    ensures
        finding@ == codepoint_finding_view(
            chars@,
            byte_base as int,
            scalar.char_offset as int,
            rule_id,
            category,
            severity,
            message@,
        ),
{
    proof {
        crate::text::lemma_utf8_len_prefix(chars@, scalar.char_offset as int);
        crate::text::lemma_line_start_bounds(chars@, scalar.char_offset as int);
    }
    Finding {
        rule_id,
        category,
        severity,
        message,
        codepoint: Some(format_codepoint(scalar.ch)),
        unicode_name: Some(unicode_name(scalar.ch)),
        byte_offset: scalar.byte_offset,
        char_offset: scalar.char_offset,
        line: scalar.line,
        column: scalar.column,
        context: context_at(chars, scalar.char_offset),
        interpretation: INTERPRETATION,
    }
}

/// The finding, if any, that the character at position `i` yields on its own.
pub open spec fn scalar_finding(t: Seq<char>, byte_base: int, i: int) -> Option<FindingView> {
    let cp = t[i] as u32;
    let d = decision_at(t, i);
    if is_unexpected_control(cp) {
        Some(codepoint_finding_view(t, byte_base, i, "unicode.control_character", "control_character",
            Severity::High, "Unexpected C0/C1 control character is embedded in text"@))
    } else {
        match d.kind {
            None => None,
            Some(CarrierKind::ExoticSpace) => None,
            Some(CarrierKind::Tag) => Some(codepoint_finding_view(t, byte_base, i, "unicode.tag_character",
                "unicode_tag", if d.contextually_valid { Severity::Info } else { Severity::High }, d.reason@)),
            Some(CarrierKind::VariationSelector) => if d.contextually_valid {
                Some(codepoint_finding_view(t, byte_base, i, "unicode.variation_selector_channel",
                    "variation_selector", Severity::Info, d.reason@))
            } else {
                None
            },
            Some(CarrierKind::Joiner) => Some(codepoint_finding_view(t, byte_base, i, "unicode.joiner",
                "zero_width_joiner", if d.contextually_valid { Severity::Info } else { Severity::Warning }, d.reason@)),
            Some(CarrierKind::Bidi) => Some(codepoint_finding_view(t, byte_base, i, "unicode.bidi_control",
                "bidi_control", if d.contextually_valid { Severity::Info } else { Severity::Warning }, d.reason@)),
            Some(CarrierKind::PrivateUse) => Some(codepoint_finding_view(t, byte_base, i, "unicode.private_use",
                "private_use", Severity::Warning, d.reason@)),
            Some(CarrierKind::SoftHyphen) => Some(codepoint_finding_view(t, byte_base, i, "unicode.format_control",
                "format_control", Severity::Info, d.reason@)),
            Some(_) => if d.contextually_valid {
                Some(codepoint_finding_view(t, byte_base, i, "unicode.format_control", "format_control",
                    Severity::Info, d.reason@))
            } else {
                match format_control_class(cp) {
                    Some((severity, message)) => Some(codepoint_finding_view(t, byte_base, i,
                        "unicode.format_control", "format_control", severity, message@)),
                    None => Some(codepoint_finding_view(t, byte_base, i, "unicode.format_control",
                        "format_control", Severity::Warning, d.reason@)),
                }
            },
        }
    }
}

/// The finding of position `i`, built from its decision.
fn scalar_finding_at(chars: &Vec<char>, byte_base: usize, scalar: Scalar, decision: CharDecision) -> (finding: Option<Finding>)
    requires
        scalar.char_offset < chars.len(),
        offsets_fit(chars@, byte_base as int),
        scalar == scalar_at(chars@, byte_base as int, scalar.char_offset as int),
        decision == decision_at(chars@, scalar.char_offset as int),
    ensures
        match finding {
            Some(f) => scalar_finding(chars@, byte_base as int, scalar.char_offset as int) == Some(f@),
            None => scalar_finding(chars@, byte_base as int, scalar.char_offset as int) is None,
        },
{
    let cp = scalar.ch as u32;
    if is_unexpected_control(cp) {
        return Some(codepoint_finding(chars, byte_base, scalar, "unicode.control_character", "control_character",
            Severity::High, owned("Unexpected C0/C1 control character is embedded in text")));
    }
    match decision.kind {
        None => None,
        Some(CarrierKind::ExoticSpace) => None,
        Some(CarrierKind::Tag) => Some(codepoint_finding(chars, byte_base, scalar, "unicode.tag_character", "unicode_tag",
            if decision.contextually_valid { Severity::Info } else { Severity::High }, owned(decision.reason))),
        Some(CarrierKind::VariationSelector) => if decision.contextually_valid {
            Some(codepoint_finding(chars, byte_base, scalar, "unicode.variation_selector_channel", "variation_selector",
                Severity::Info, owned(decision.reason)))
        } else {
            None
        },
        Some(CarrierKind::Joiner) => Some(codepoint_finding(chars, byte_base, scalar, "unicode.joiner", "zero_width_joiner",
            if decision.contextually_valid { Severity::Info } else { Severity::Warning }, owned(decision.reason))),
        Some(CarrierKind::Bidi) => Some(codepoint_finding(chars, byte_base, scalar, "unicode.bidi_control", "bidi_control",
            if decision.contextually_valid { Severity::Info } else { Severity::Warning }, owned(decision.reason))),
        Some(CarrierKind::PrivateUse) => Some(codepoint_finding(chars, byte_base, scalar, "unicode.private_use", "private_use",
            Severity::Warning, owned(decision.reason))),
        Some(CarrierKind::SoftHyphen) => Some(codepoint_finding(chars, byte_base, scalar, "unicode.format_control",
            "format_control", Severity::Info, owned(decision.reason))),
        Some(_) => if decision.contextually_valid {
            Some(codepoint_finding(chars, byte_base, scalar, "unicode.format_control", "format_control", Severity::Info,
                owned(decision.reason)))
        } else {
            match classified_format_control(cp) {
                Some((severity, message)) => Some(codepoint_finding(chars, byte_base, scalar, "unicode.format_control",
                    "format_control", severity, owned(message))),
                None => Some(codepoint_finding(chars, byte_base, scalar, "unicode.format_control", "format_control",
                    Severity::Warning, owned(decision.reason))),
            }
        },
    }
}


// ---------------------------------------------------------------------------
// Tallies over the characters.
// ---------------------------------------------------------------------------

/// The per-character properties that the analysis counts.
pub enum Tally {
    AsciiSpace,
    NonAsciiSpace,
    VariationSelector,
    FormatControl,
    Tag,
    FloatingSelector,
}

/// Position `i` of `t` has property `which`.
pub open spec fn tallied(t: Seq<char>, i: int, which: Tally) -> bool {
    let cp = t[i] as u32;
    let kind = decision_at(t, i).kind;
    match which {
        Tally::AsciiSpace => t[i] == ' ',
        Tally::NonAsciiSpace => is_non_ascii_space(cp),
        Tally::VariationSelector => is_variation_selector(cp),
        Tally::FormatControl => is_unexpected_control(cp) || (kind is Some && kind != Some(CarrierKind::ExoticSpace)
            && kind != Some(CarrierKind::PrivateUse)),
        Tally::Tag => !is_unexpected_control(cp) && kind == Some(CarrierKind::Tag),
        Tally::FloatingSelector => !is_unexpected_control(cp) && kind == Some(CarrierKind::VariationSelector)
            && !decision_at(t, i).contextually_valid,
    }
}

/// The positions below `n` with property `which`, in order.
pub open spec fn tally_positions(t: Seq<char>, n: int, which: Tally) -> Seq<int>
    decreases n,
{
    if n <= 0 {
        Seq::empty()
    } else if tallied(t, n - 1, which) {
        tally_positions(t, n - 1, which).push(n - 1)
    } else {
        tally_positions(t, n - 1, which)
    }
}

/// The number of positions of `t` with property `which`.
pub open spec fn tally_count(t: Seq<char>, which: Tally) -> nat {
    tally_positions(t, t.len() as int, which).len()
}

proof fn lemma_tally_positions_bounds(t: Seq<char>, n: int, which: Tally)
    requires
        0 <= n,
    ensures
        tally_positions(t, n, which).len() <= n,
        forall|k: int| 0 <= k < tally_positions(t, n, which).len() ==> 0 <= #[trigger] tally_positions(t, n, which)[k] < n,
    decreases n,
{
    if n > 0 {
        lemma_tally_positions_bounds(t, n - 1, which);
    }
}

/// The findings that the characters `t[0..n]` yield one by one, in order.
pub open spec fn scalar_findings(t: Seq<char>, byte_base: int, n: int) -> Seq<FindingView>
    decreases n,
{
    if n <= 0 {
        Seq::empty()
    } else {
        match scalar_finding(t, byte_base, n - 1) {
            Some(f) => scalar_findings(t, byte_base, n - 1).push(f),
            None => scalar_findings(t, byte_base, n - 1),
        }
    }
}

proof fn lemma_scalar_findings_len(t: Seq<char>, byte_base: int, n: int)
    requires
        0 <= n,
    ensures
        scalar_findings(t, byte_base, n).len() <= n,
    decreases n,
{
    if n > 0 {
        lemma_scalar_findings_len(t, byte_base, n - 1);
    }
}

/// The positions of a tally, as a vector, matches its specification.
pub open spec fn positions_match(v: Seq<usize>, p: Seq<int>) -> bool {
    v.len() == p.len() && forall|k: int| 0 <= k < v.len() ==> #[trigger] v[k] as int == p[k]
}

/// What the pass over the single characters counts and collects.
pub struct ScalarTally {
    pub non_ascii_spaces: Vec<usize>,
    pub variation_selectors: Vec<usize>,
    pub ascii_space_count: usize,
    pub variation_selector_count: usize,
    pub format_control_count: usize,
    pub unicode_tag_count: usize,
}

fn push_position(v: &mut Vec<usize>, index: usize, Ghost(p): Ghost<Seq<int>>)
    requires
        positions_match(old(v)@, p),
    ensures
        positions_match(final(v)@, p.push(index as int)),
{
    v.push(index);
    assert(final(v)@.len() == p.push(index as int).len());
}

/// Pushes the finding of every character, and tallies the character properties.
fn analyze_scalars(
    chars: &Vec<char>,
    byte_base: usize,
    decisions: &Vec<CharDecision>,
    scalars: &Vec<Scalar>,
    collector: &mut FindingCollector,
) -> (tally: ScalarTally)
    requires
        offsets_fit(chars@, byte_base as int),
        decisions@ == classify_spec(chars@),
        scalars.len() == chars.len(),
        forall|i: int| 0 <= i < chars.len() ==> #[trigger] scalars[i] == scalar_at(chars@, byte_base as int, i),
        old(collector).wf(),
        old(collector).pushed@.len() + chars.len() <= usize::MAX,
    ensures
        final(collector).wf(),
        final(collector).max == old(collector).max,
        final(collector).pushed@ == old(collector).pushed@ + scalar_findings(chars@, byte_base as int, chars.len() as int),
        positions_match(tally.non_ascii_spaces@, tally_positions(chars@, chars.len() as int, Tally::NonAsciiSpace)),
        positions_match(tally.variation_selectors@, tally_positions(chars@, chars.len() as int, Tally::FloatingSelector)),
        tally.ascii_space_count == tally_count(chars@, Tally::AsciiSpace),
        tally.variation_selector_count == tally_count(chars@, Tally::VariationSelector),
        tally.format_control_count == tally_count(chars@, Tally::FormatControl),
        tally.unicode_tag_count == tally_count(chars@, Tally::Tag),
{
    let ghost t = chars@;
    let ghost base = byte_base as int;
    let ghost start = collector.pushed@;
    let n = chars.len();
    let mut non_ascii_spaces: Vec<usize> = Vec::new();
    let mut variation_selectors: Vec<usize> = Vec::new();
    let mut ascii_space_count: usize = 0;
    let mut variation_selector_count: usize = 0;
    let mut format_control_count: usize = 0;
    let mut unicode_tag_count: usize = 0;
    let mut index: usize = 0;
    while index < n
        invariant
            t == chars@,
            base == byte_base as int,
            n == t.len(),
            index <= n,
            offsets_fit(t, byte_base as int),
            decisions@ == classify_spec(t),
            scalars.len() == n,
            forall|i: int| 0 <= i < n ==> #[trigger] scalars[i] == scalar_at(t, base, i),
            collector.wf(),
            collector.max == old(collector).max,
            start.len() + n <= usize::MAX,
            collector.pushed@ == start + scalar_findings(t, base, index as int),
            positions_match(non_ascii_spaces@, tally_positions(t, index as int, Tally::NonAsciiSpace)),
            positions_match(variation_selectors@, tally_positions(t, index as int, Tally::FloatingSelector)),
            ascii_space_count == tally_positions(t, index as int, Tally::AsciiSpace).len(),
            variation_selector_count == tally_positions(t, index as int, Tally::VariationSelector).len(),
            format_control_count == tally_positions(t, index as int, Tally::FormatControl).len(),
            unicode_tag_count == tally_positions(t, index as int, Tally::Tag).len(),
            ascii_space_count <= index,
            variation_selector_count <= index,
            format_control_count <= index,
            unicode_tag_count <= index,
        decreases n - index,
    {
        let scalar = scalars[index];
        let decision = decisions[index];
        assert(scalar == scalar_at(t, base, index as int));
        assert(decision == decision_at(t, index as int));
        assert(scalar.char_offset == index);
        let ch = scalar.ch;
        let cp = ch as u32;
        proof {
            lemma_scalar_findings_len(t, base, index as int);
        }
        if ch == ' ' {
            ascii_space_count += 1;
        }
        if is_non_ascii_space(cp) {
            push_position(&mut non_ascii_spaces, index, Ghost(tally_positions(t, index as int, Tally::NonAsciiSpace)));
        }
        if is_variation_selector(cp) {
            variation_selector_count += 1;
        }
        let control = is_unexpected_control(cp);
        let counted = control || match decision.kind {
            Some(kind) => kind != CarrierKind::ExoticSpace && kind != CarrierKind::PrivateUse,
            None => false,
        };
        if counted {
            format_control_count += 1;
        }
        if !control && decision.kind == Some(CarrierKind::Tag) {
            unicode_tag_count += 1;
        }
        if !control && decision.kind == Some(CarrierKind::VariationSelector) && !decision.contextually_valid {
            push_position(&mut variation_selectors, index, Ghost(tally_positions(t, index as int, Tally::FloatingSelector)));
        }
        assert(scalar == scalar_at(t, base, index as int));
        let finding = scalar_finding_at(chars, byte_base, scalar, decision);
        match finding {
            Some(f) => {
                collector.push(f);
            }
            None => {}
        }
        proof {
            assert(collector.pushed@ =~= start + scalar_findings(t, base, index + 1));
        }
        index += 1;
    }
    ScalarTally {
        non_ascii_spaces,
        variation_selectors,
        ascii_space_count,
        variation_selector_count,
        format_control_count,
        unicode_tag_count,
    }
}


// ---------------------------------------------------------------------------
// Aggregate findings.
// ---------------------------------------------------------------------------

/// The finding on non-ASCII spaces, if there are any: a warning when at least
/// four of them make up at least 2% of all space characters, the share
/// computed and printed as binary64 arithmetic does.
pub open spec fn spaces_finding(t: Seq<char>, byte_base: int) -> Option<FindingView> {
    let sp = tally_positions(t, t.len() as int, Tally::NonAsciiSpace);
    if sp.len() == 0 {
        None
    } else {
        let ns = sp.len();
        let total = tally_count(t, Tally::AsciiSpace) + ns;
        Some(codepoint_finding_view(
            t,
            byte_base,
            sp[0],
            "unicode.non_ascii_spaces",
            "whitespace_channel",
            if ns >= 4 && ratio_at_least_two_percent(ns, total) { Severity::Warning } else { Severity::Info },
            "Found "@ + decimal(ns) + " non-ASCII space characters ("@ + crate::binary64::percent_text(ns, total)
                + "% of space-like characters)"@,
        ))
    }
}

/// The finding on variation selectors outside a recognized context, if there
/// are any: high severity from four of them on.
pub open spec fn selectors_finding(t: Seq<char>, byte_base: int) -> Option<FindingView> {
    let vs = tally_positions(t, t.len() as int, Tally::FloatingSelector);
    if vs.len() == 0 {
        None
    } else {
        Some(codepoint_finding_view(
            t,
            byte_base,
            vs[0],
            "unicode.variation_selector_channel",
            "variation_selector",
            if vs.len() >= 4 { Severity::High } else { Severity::Warning },
            "Found "@ + decimal(vs.len()) + " variation selector(s) outside a recognized emoji, CJK, or Mongolian context"@,
        ))
    }
}

/// The sequence holding the value of `o`, if any.
pub open spec fn opt_seq<T>(o: Option<T>) -> Seq<T> {
    match o {
        Some(v) => seq![v],
        None => Seq::empty(),
    }
}

fn analyze_spaces(
    chars: &Vec<char>,
    byte_base: usize,
    scalars: &Vec<Scalar>,
    spaces: &Vec<usize>,
    ascii_spaces: usize,
    collector: &mut FindingCollector,
)
    requires
        offsets_fit(chars@, byte_base as int),
        scalars.len() == chars.len(),
        forall|i: int| 0 <= i < chars.len() ==> #[trigger] scalars[i] == scalar_at(chars@, byte_base as int, i),
        positions_match(spaces@, tally_positions(chars@, chars.len() as int, Tally::NonAsciiSpace)),
        ascii_spaces == tally_count(chars@, Tally::AsciiSpace),
        old(collector).wf(),
        old(collector).pushed@.len() < usize::MAX,
    ensures
        final(collector).wf(),
        final(collector).max == old(collector).max,
        final(collector).pushed@ == old(collector).pushed@ + opt_seq(spaces_finding(chars@, byte_base as int)),
{
    let ghost t = chars@;
    proof {
        lemma_tally_positions_bounds(t, t.len() as int, Tally::NonAsciiSpace);
        lemma_tally_positions_bounds(t, t.len() as int, Tally::AsciiSpace);
        lemma_tally_disjoint(t, t.len() as int);
    }
    if spaces.len() == 0 {
        assert(collector.pushed@ =~= old(collector).pushed@ + opt_seq(spaces_finding(t, byte_base as int)));
        return;
    }
    let count = spaces.len();
    let total = ascii_spaces + count;
    let severity = if count >= 4 && at_least_two_percent(count as u64, total as u64) {
        Severity::Warning
    } else {
        Severity::Info
    };
    let mut message = owned("Found ");
    push_decimal(&mut message, count as u64);
    push_str(&mut message, " non-ASCII space characters (");
    crate::binary64::push_percent(&mut message, count as u64, total as u64);
    push_str(&mut message, "% of space-like characters)");
    let first = spaces[0];
    let finding = codepoint_finding(chars, byte_base, scalars[first], "unicode.non_ascii_spaces", "whitespace_channel",
        severity, message);
    collector.push(finding);
    assert(collector.pushed@ =~= old(collector).pushed@ + opt_seq(spaces_finding(t, byte_base as int)));
}

fn analyze_variation_selectors(
    chars: &Vec<char>,
    byte_base: usize,
    scalars: &Vec<Scalar>,
    selectors: &Vec<usize>,
    collector: &mut FindingCollector,
)
    requires
        offsets_fit(chars@, byte_base as int),
        scalars.len() == chars.len(),
        forall|i: int| 0 <= i < chars.len() ==> #[trigger] scalars[i] == scalar_at(chars@, byte_base as int, i),
        positions_match(selectors@, tally_positions(chars@, chars.len() as int, Tally::FloatingSelector)),
        old(collector).wf(),
        old(collector).pushed@.len() < usize::MAX,
    ensures
        final(collector).wf(),
        final(collector).max == old(collector).max,
        final(collector).pushed@ == old(collector).pushed@ + opt_seq(selectors_finding(chars@, byte_base as int)),
{
    let ghost t = chars@;
    proof {
        lemma_tally_positions_bounds(t, t.len() as int, Tally::FloatingSelector);
    }
    if selectors.len() == 0 {
        assert(collector.pushed@ =~= old(collector).pushed@ + opt_seq(selectors_finding(t, byte_base as int)));
        return;
    }
    let count = selectors.len();
    let severity = if count >= 4 { Severity::High } else { Severity::Warning };
    let mut message = owned("Found ");
    push_decimal(&mut message, count as u64);
    push_str(&mut message, " variation selector(s) outside a recognized emoji, CJK, or Mongolian context");
    let first = selectors[0];
    let finding = codepoint_finding(chars, byte_base, scalars[first], "unicode.variation_selector_channel",
        "variation_selector", severity, message);
    collector.push(finding);
    assert(collector.pushed@ =~= old(collector).pushed@ + opt_seq(selectors_finding(t, byte_base as int)));
}

/// ASCII and non-ASCII spaces are different positions, so together they are at most all positions.
proof fn lemma_tally_disjoint(t: Seq<char>, n: int)
    requires
        0 <= n,
    ensures
        tally_positions(t, n, Tally::AsciiSpace).len() + tally_positions(t, n, Tally::NonAsciiSpace).len() <= n,
    decreases n,
{
    if n > 0 {
        lemma_tally_disjoint(t, n - 1);
    }
}


// ---------------------------------------------------------------------------
// Mixed-script tokens.
// ---------------------------------------------------------------------------

/// The start of the run of alphabetic characters that ends at `e`.
pub open spec fn alpha_run_start(t: Seq<char>, e: int) -> int
    decreases e,
{
    if e > 0 && alphabetic(t[e - 1]) {
        alpha_run_start(t, e - 1)
    } else {
        e
    }
}

/// Some character of `t[s..e]` is of script `bit`.
pub open spec fn has_script(t: Seq<char>, s: int, e: int, bit: u8) -> bool {
    exists|j: int| s <= j < e && script_of(#[trigger] t[j]) == bit
}

/// A maximal alphabetic token ends at `e` and mixes at least two of Latin, Greek and Cyrillic.
pub open spec fn mixed_token_at(t: Seq<char>, e: int) -> bool {
    let s = alpha_run_start(t, e);
    &&& 0 <= e <= t.len()
    &&& e == t.len() || !alphabetic(t[e])
    &&& s < e
    &&& {
        let latin = has_script(t, s, e, 1);
        let greek = has_script(t, s, e, 2);
        let cyrillic = has_script(t, s, e, 4);
        (latin && greek) || (latin && cyrillic) || (greek && cyrillic)
    }
}

/// The finding on the mixed-script token that ends at `e`.
pub open spec fn mixed_token_finding(t: Seq<char>, byte_base: int, e: int) -> FindingView {
    let s = alpha_run_start(t, e);
    FindingView {
        rule_id: "unicode.mixed_script_token",
        category: "homoglyph_heuristic",
        severity: Severity::Warning,
        message: "Token mixes Latin, Cyrillic, or Greek scripts: "@ + visible(t.subrange(s, e)),
        codepoint: None,
        unicode_name: None,
        byte_offset: byte_base + utf8_len(t.take(s)),
        char_offset: s,
        line: line_of(t, s) as int,
        column: column_of(t, s) as int,
        context: context_text(t, s),
        interpretation: INTERPRETATION,
    }
}

/// The findings on the mixed-script tokens that end before `k`, in order.
pub open spec fn mixed_findings(t: Seq<char>, byte_base: int, k: int) -> Seq<FindingView>
    decreases k,
{
    if k <= 0 {
        Seq::empty()
    } else if mixed_token_at(t, k - 1) {
        mixed_findings(t, byte_base, k - 1).push(mixed_token_finding(t, byte_base, k - 1))
    } else {
        mixed_findings(t, byte_base, k - 1)
    }
}

proof fn lemma_alpha_run_start_bounds(t: Seq<char>, e: int)
    requires
        0 <= e,
    ensures
        0 <= alpha_run_start(t, e) <= e,
        forall|j: int| alpha_run_start(t, e) <= j < e ==> alphabetic(#[trigger] t[j]),
    decreases e,
{
    if e > 0 && alphabetic(t[e - 1]) {
        lemma_alpha_run_start_bounds(t, e - 1);
    }
}

proof fn lemma_mixed_findings_len(t: Seq<char>, byte_base: int, k: int)
    requires
        0 <= k,
    ensures
        mixed_findings(t, byte_base, k).len() <= k,
    decreases k,
{
    if k > 0 {
        lemma_mixed_findings_len(t, byte_base, k - 1);
    }
}

/// Reports every maximal alphabetic token that mixes Latin, Greek and Cyrillic letters.
fn analyze_mixed_scripts(
    chars: &Vec<char>,
    byte_base: usize,
    scalars: &Vec<Scalar>,
    collector: &mut FindingCollector,
) -> (count: usize)
    requires
        offsets_fit(chars@, byte_base as int),
        chars.len() < usize::MAX,
        scalars.len() == chars.len(),
        forall|i: int| 0 <= i < chars.len() ==> #[trigger] scalars[i] == scalar_at(chars@, byte_base as int, i),
        old(collector).wf(),
        old(collector).pushed@.len() + chars.len() + 1 <= usize::MAX,
    ensures
        final(collector).wf(),
        final(collector).max == old(collector).max,
        final(collector).pushed@ == old(collector).pushed@ + mixed_findings(chars@, byte_base as int, chars.len() + 1),
        count == mixed_findings(chars@, byte_base as int, chars.len() + 1).len(),
{
    let ghost t = chars@;
    let ghost base = byte_base as int;
    let ghost start_pushed = collector.pushed@;
    let n = chars.len();
    let mut start: Option<usize> = None;
    let mut count: usize = 0;
    let mut index: usize = 0;
    while index <= n
        invariant
            t == chars@,
            base == byte_base as int,
            n == t.len(),
            n < usize::MAX,
            index <= n + 1,
            offsets_fit(t, byte_base as int),
            scalars.len() == n,
            forall|i: int| 0 <= i < n ==> #[trigger] scalars[i] == scalar_at(t, base, i),
            collector.wf(),
            collector.max == old(collector).max,
            start_pushed.len() + n + 1 <= usize::MAX,
            collector.pushed@ == start_pushed + mixed_findings(t, base, index as int),
            count == mixed_findings(t, base, index as int).len(),
            index <= n ==> start == (if alpha_run_start(t, index as int) < index {
                Some(alpha_run_start(t, index as int) as usize)
            } else {
                None::<usize>
            }),
        decreases n + 1 - index,
    {
        proof {
            lemma_alpha_run_start_bounds(t, index as int);
            lemma_mixed_findings_len(t, base, index as int);
        }
        let continues = index < n && char_is_alphabetic(chars[index]);
        if continues {
            if start.is_none() {
                start = Some(index);
            }
            index += 1;
            continue;
        }
        match start {
            Some(token_start) => {
                start = None;
                let mut latin = false;
                let mut greek = false;
                let mut cyrillic = false;
                let mut m = token_start;
                while m < index
                    invariant
                        t == chars@,
                        n == t.len(),
                        token_start <= m <= index <= n,
                        latin == has_script(t, token_start as int, m as int, 1),
                        greek == has_script(t, token_start as int, m as int, 2),
                        cyrillic == has_script(t, token_start as int, m as int, 4),
                    decreases index - m,
                {
                    let bit = script_bit(chars[m]);
                    if bit == 1 {
                        latin = true;
                    } else if bit == 2 {
                        greek = true;
                    } else if bit == 4 {
                        cyrillic = true;
                    }
                    proof {
                        assert(has_script(t, token_start as int, m + 1, 1) == (latin));
                        assert(has_script(t, token_start as int, m + 1, 2) == (greek));
                        assert(has_script(t, token_start as int, m + 1, 4) == (cyrillic));
                    }
                    m += 1;
                }
                if (latin && greek) || (latin && cyrillic) || (greek && cyrillic) {
                    count += 1;
                    let scalar = scalars[token_start];
                    let mut message = owned("Token mixes Latin, Cyrillic, or Greek scripts: ");
                    push_visible(&mut message, chars, token_start, index);
                    proof {
                        crate::text::lemma_utf8_len_prefix(t, token_start as int);
                        crate::text::lemma_line_start_bounds(t, token_start as int);
                    }
                    let finding = Finding {
                        rule_id: "unicode.mixed_script_token",
                        category: "homoglyph_heuristic",
                        severity: Severity::Warning,
                        message,
                        codepoint: None,
                        unicode_name: None,
                        byte_offset: scalar.byte_offset,
                        char_offset: scalar.char_offset,
                        line: scalar.line,
                        column: scalar.column,
                        context: context_at(chars, token_start),
                        interpretation: INTERPRETATION,
                    };
                    assert(finding@ == mixed_token_finding(t, base, index as int));
                    collector.push(finding);
                }
            }
            None => {}
        }
        proof {
            assert(collector.pushed@ =~= start_pushed + mixed_findings(t, base, index + 1));
        }
        index += 1;
    }
    count
}

// ---------------------------------------------------------------------------
// Runs of combining marks.
// ---------------------------------------------------------------------------

/// The start of the run of combining marks that ends at `e`.
pub open spec fn mark_run_start(t: Seq<char>, e: int) -> int
    decreases e,
{
    if e > 0 && is_combining_mark(t[e - 1] as u32) {
        mark_run_start(t, e - 1)
    } else {
        e
    }
}

/// A maximal run of more than three combining marks ends at `e`.
pub open spec fn long_mark_run_at(t: Seq<char>, e: int) -> bool {
    &&& 0 <= e <= t.len()
    &&& e == t.len() || !is_combining_mark(t[e] as u32)
    &&& e - mark_run_start(t, e) > 3
}

/// The finding on the run of combining marks that ends at `e`.
pub open spec fn mark_run_finding(t: Seq<char>, byte_base: int, e: int) -> FindingView {
    let s = mark_run_start(t, e);
    FindingView {
        rule_id: "unicode.combining_mark_run",
        category: "combining_marks",
        severity: Severity::Warning,
        message: "Suspicious run of "@ + decimal((e - s) as nat) + " combining marks"@,
        codepoint: Some(codepoint_text(t[s])),
        unicode_name: Some("COMBINING MARK"@),
        byte_offset: byte_base + utf8_len(t.take(s)),
        char_offset: s,
        line: line_of(t, s) as int,
        column: column_of(t, s) as int,
        context: context_text(t, s),
        interpretation: INTERPRETATION,
    }
}

/// The findings on the long runs of combining marks that end before `k`, in order.
pub open spec fn mark_run_findings(t: Seq<char>, byte_base: int, k: int) -> Seq<FindingView>
    decreases k,
{
    if k <= 0 {
        Seq::empty()
    } else if long_mark_run_at(t, k - 1) {
        mark_run_findings(t, byte_base, k - 1).push(mark_run_finding(t, byte_base, k - 1))
    } else {
        mark_run_findings(t, byte_base, k - 1)
    }
}

proof fn lemma_mark_run_start_bounds(t: Seq<char>, e: int)
    requires
        0 <= e,
    ensures
        0 <= mark_run_start(t, e) <= e,
    decreases e,
{
    if e > 0 && is_combining_mark(t[e - 1] as u32) {
        lemma_mark_run_start_bounds(t, e - 1);
    }
}

proof fn lemma_mark_run_findings_len(t: Seq<char>, byte_base: int, k: int)
    requires
        0 <= k,
    ensures
        mark_run_findings(t, byte_base, k).len() <= k,
    decreases k,
{
    if k > 0 {
        lemma_mark_run_findings_len(t, byte_base, k - 1);
    }
}

/// Reports every maximal run of more than three combining marks.
fn analyze_combining_runs(chars: &Vec<char>, byte_base: usize, scalars: &Vec<Scalar>, collector: &mut FindingCollector)
    requires
        offsets_fit(chars@, byte_base as int),
        chars.len() < usize::MAX,
        scalars.len() == chars.len(),
        forall|i: int| 0 <= i < chars.len() ==> #[trigger] scalars[i] == scalar_at(chars@, byte_base as int, i),
        old(collector).wf(),
        old(collector).pushed@.len() + chars.len() + 1 <= usize::MAX,
    ensures
        final(collector).wf(),
        final(collector).max == old(collector).max,
        final(collector).pushed@ == old(collector).pushed@ + mark_run_findings(chars@, byte_base as int, chars.len() + 1),
{
    let ghost t = chars@;
    let ghost base = byte_base as int;
    let ghost start_pushed = collector.pushed@;
    let n = chars.len();
    let mut start: Option<usize> = None;
    let mut index: usize = 0;
    while index <= n
        invariant
            t == chars@,
            base == byte_base as int,
            n == t.len(),
            n < usize::MAX,
            index <= n + 1,
            offsets_fit(t, byte_base as int),
            scalars.len() == n,
            forall|i: int| 0 <= i < n ==> #[trigger] scalars[i] == scalar_at(t, base, i),
            collector.wf(),
            collector.max == old(collector).max,
            start_pushed.len() + n + 1 <= usize::MAX,
            collector.pushed@ == start_pushed + mark_run_findings(t, base, index as int),
            index <= n ==> start == (if mark_run_start(t, index as int) < index {
                Some(mark_run_start(t, index as int) as usize)
            } else {
                None::<usize>
            }),
        decreases n + 1 - index,
    {
        proof {
            lemma_mark_run_start_bounds(t, index as int);
            lemma_mark_run_findings_len(t, base, index as int);
        }
        if index < n && is_combining_mark(chars[index] as u32) {
            if start.is_none() {
                start = Some(index);
            }
            index += 1;
            continue;
        }
        match start {
            Some(run_start) => {
                start = None;
                let count = index - run_start;
                if count > 3 {
                    let scalar = scalars[run_start];
                    let mut message = owned("Suspicious run of ");
                    push_decimal(&mut message, count as u64);
                    push_str(&mut message, " combining marks");
                    proof {
                        crate::text::lemma_utf8_len_prefix(t, run_start as int);
                        crate::text::lemma_line_start_bounds(t, run_start as int);
                    }
                    let finding = Finding {
                        rule_id: "unicode.combining_mark_run",
                        category: "combining_marks",
                        severity: Severity::Warning,
                        message,
                        codepoint: Some(format_codepoint(scalar.ch)),
                        unicode_name: Some(owned("COMBINING MARK")),
                        byte_offset: scalar.byte_offset,
                        char_offset: scalar.char_offset,
                        line: scalar.line,
                        column: scalar.column,
                        context: context_at(chars, run_start),
                        interpretation: INTERPRETATION,
                    };
                    assert(finding@ == mark_run_finding(t, base, index as int));
                    collector.push(finding);
                }
            }
            None => {}
        }
        proof {
            assert(collector.pushed@ =~= start_pushed + mark_run_findings(t, base, index + 1));
        }
        index += 1;
    }
}


// ---------------------------------------------------------------------------
// Trailing whitespace.
// ---------------------------------------------------------------------------

/// The number of positions in `t[a..b]` that hold `c`.
pub open spec fn count_char_in(t: Seq<char>, a: int, b: int, c: char) -> nat
    decreases b - a,
{
    if b <= a {
        0
    } else {
        count_char_in(t, a, b - 1, c) + if t[b - 1] == c { 1nat } else { 0nat }
    }
}

proof fn lemma_count_char_in_bound(t: Seq<char>, a: int, b: int, c: char)
    requires
        a <= b,
    ensures
        count_char_in(t, a, b, c) <= b - a,
    decreases b - a,
{
    if b > a {
        lemma_count_char_in_bound(t, a, b - 1, c);
    }
}

proof fn lemma_count_spaces_tabs(t: Seq<char>, a: int, b: int)
    requires
        a <= b,
        forall|q: int| a <= q < b ==> crate::text::is_hspace(#[trigger] t[q]),
    ensures
        count_char_in(t, a, b, ' ') + count_char_in(t, a, b, '\t') == b - a,
    decreases b - a,
{
    if b > a {
        lemma_count_spaces_tabs(t, a, b - 1);
    }
}

/// The tally of the lines with trailing spaces or tabs.
pub struct TrailingScan {
    pub lines: nat,
    pub spaces: nat,
    pub tabs: nat,
    pub padded: nat,
    pub single: nat,
    pub hard: nat,
    pub other: nat,
    /// The start of the first line with trailing whitespace.
    pub first: Option<int>,
}

/// Adds the line that starts at `ls` to the tally: a padded blank line, a
/// content line with one trailing space, one with two (a Markdown hard
/// break), or another content line.
pub open spec fn trailing_step(t: Seq<char>, ls: int, acc: TrailingScan) -> TrailingScan {
    let ce = content_end(t, ls);
    let ts = trail_start(t, ls, ce);
    if ts == ce {
        acc
    } else {
        let sp = count_char_in(t, ts, ce, ' ');
        let tb = count_char_in(t, ts, ce, '\t');
        TrailingScan {
            lines: acc.lines + 1,
            spaces: acc.spaces + sp,
            tabs: acc.tabs + tb,
            padded: acc.padded + if ts == ls { 1nat } else { 0nat },
            single: acc.single + if ts != ls && tb == 0 && sp == 1 { 1nat } else { 0nat },
            hard: acc.hard + if ts != ls && tb == 0 && sp == 2 { 1nat } else { 0nat },
            other: acc.other + if ts != ls && !(tb == 0 && (sp == 1 || sp == 2)) { 1nat } else { 0nat },
            first: if acc.first is Some { acc.first } else { Some(ls) },
        }
    }
}

/// Tallies the lines from the one starting at `ls` on.
pub open spec fn trailing_scan(t: Seq<char>, ls: int, acc: TrailingScan) -> TrailingScan
    decreases t.len() + 1 - ls,
{
    if ls < 0 || ls >= t.len() {
        acc
    } else {
        proof {
            lemma_line_end_bounds(t, ls);
        }
        trailing_scan(t, line_end(t, ls) + 1, trailing_step(t, ls, acc))
    }
}

/// The tally of all lines of `t`.
pub open spec fn trailing_total(t: Seq<char>) -> TrailingScan {
    trailing_scan(
        t,
        0,
        TrailingScan { lines: 0, spaces: 0, tabs: 0, padded: 0, single: 0, hard: 0, other: 0, first: None },
    )
}

/// The visible marks of trailing whitespace.
pub open spec fn whitespace_marks(s: Seq<char>) -> Seq<char>
    decreases s.len(),
{
    if s.len() == 0 {
        Seq::empty()
    } else {
        whitespace_marks(s.drop_last()) + if s.last() == ' ' {
            "<SPACE>"@
        } else if s.last() == '\t' {
            "<TAB>"@
        } else {
            seq![s.last()]
        }
    }
}

/// The context of the trailing whitespace `t[ts..ce]` of the line starting at
/// `ls`: up to 32 characters before it, then the whitespace as marks.
pub open spec fn trailing_context(t: Seq<char>, ls: int, ts: int, ce: int) -> Seq<char> {
    visible(t.subrange(if ts - ls > 32 { ts - 32 } else { ls }, ts)) + whitespace_marks(t.subrange(ts, ce))
}

/// The finding on trailing whitespace, if any line has some.
pub open spec fn trailing_finding(t: Seq<char>, byte_base: int) -> Option<FindingView> {
    let s = trailing_total(t);
    match s.first {
        None => None,
        Some(ls) => {
            let ce = content_end(t, ls);
            let ts = trail_start(t, ls, ce);
            Some(FindingView {
                rule_id: "text.trailing_whitespace",
                category: "whitespace_channel",
                severity: if s.tabs > 0 || s.single >= 4 || s.other > 0 { Severity::Warning } else { Severity::Info },
                message: "Trailing whitespace appears on "@ + decimal(s.lines) + " line(s): "@ + decimal(s.single)
                    + " single-space content line(s), "@ + decimal(s.hard) + " Markdown hard-break line(s), "@
                    + decimal(s.other) + " other content line(s), "@ + decimal(s.padded) + " padded blank line(s)"@,
                codepoint: Some(if s.tabs > 0 { "U+0009"@ } else { "U+0020"@ }),
                unicode_name: Some(if s.tabs > 0 { "CHARACTER TABULATION"@ } else { "SPACE"@ }),
                byte_offset: byte_base + utf8_len(t.take(ts)),
                char_offset: ts,
                line: line_of(t, ls) as int,
                column: ts - ls + 1,
                context: trailing_context(t, ls, ts, ce),
                interpretation: INTERPRETATION,
            })
        }
    }
}

/// The counts of the trailing-whitespace pass.
pub struct TrailingTally {
    pub lines: usize,
    pub spaces: usize,
    pub tabs: usize,
    pub padded: usize,
}

/// The content end and trailing start of the line `chars[ls..le]`.
fn line_trailing(chars: &Vec<char>, ls: usize, le: usize) -> (r: (usize, usize))
    requires
        ls <= le <= chars.len(),
        ls == 0 || chars@[ls - 1] == '\n',
        le == chars.len() || chars@[le as int] == '\n',
        forall|q: int| ls <= q < le ==> chars@[q] != '\n',
    ensures
        r.0 == content_end(chars@, ls as int),
        r.1 == trail_start(chars@, ls as int, r.0 as int),
        ls <= r.1 <= r.0 <= le,
{
    let ghost t = chars@;
    proof {
        crate::text::lemma_line_start_const(t, ls as int, ls as int);
        crate::text::lemma_line_end_const(t, ls as int, le as int);
    }
    let mut ce = le;
    if ce > ls && chars[ce - 1] == '\r' {
        ce -= 1;
    }
    let mut ts = ce;
    while ts > ls && (chars[ts - 1] == ' ' || chars[ts - 1] == '\t')
        invariant
            t == chars@,
            ls <= ts <= ce <= le <= chars.len(),
            trail_start(t, ls as int, ts as int) == trail_start(t, ls as int, ce as int),
        decreases ts,
    {
        ts -= 1;
    }
    (ce, ts)
}

/// Appends the trailing-whitespace context of the line starting at `ls`.
fn push_trailing_context(out: &mut String, chars: &Vec<char>, ls: usize, ts: usize, ce: usize)
    requires
        ls <= ts <= ce <= chars.len(),
    ensures
        final(out)@ == old(out)@ + trailing_context(chars@, ls as int, ts as int, ce as int),
{
    let from = if ts - ls > 32 { ts - 32 } else { ls };
    push_visible(out, chars, from, ts);
    let ghost mid = out@;
    let mut m = ts;
    proof {
        assert(chars@.subrange(ts as int, ts as int) =~= Seq::<char>::empty());
    }
    while m < ce
        invariant
            ts <= m <= ce <= chars.len(),
            out@ == mid + whitespace_marks(chars@.subrange(ts as int, m as int)),
        decreases ce - m,
    {
        let c = chars[m];
        if c == ' ' {
            push_str(out, "<SPACE>");
        } else if c == '\t' {
            push_str(out, "<TAB>");
        } else {
            push_char(out, c);
        }
        proof {
            let sub = chars@.subrange(ts as int, m + 1);
            assert(sub.drop_last() =~= chars@.subrange(ts as int, m as int));
            assert(out@ =~= mid + whitespace_marks(sub));
        }
        m += 1;
    }
}

/// Tallies the lines with trailing spaces or tabs and reports them together.
fn analyze_trailing_whitespace(chars: &Vec<char>, byte_base: usize, collector: &mut FindingCollector) -> (tally:
    TrailingTally)
    requires
        offsets_fit(chars@, byte_base as int),
        chars.len() < usize::MAX,
        old(collector).wf(),
        old(collector).pushed@.len() < usize::MAX,
    ensures
        final(collector).wf(),
        final(collector).max == old(collector).max,
        final(collector).pushed@ == old(collector).pushed@ + opt_seq(trailing_finding(chars@, byte_base as int)),
        tally.lines == trailing_total(chars@).lines,
        tally.spaces == trailing_total(chars@).spaces,
        tally.tabs == trailing_total(chars@).tabs,
        tally.padded == trailing_total(chars@).padded,
{
    let ghost t = chars@;
    let n = chars.len();
    let mut lines: usize = 0;
    let mut spaces: usize = 0;
    let mut tabs: usize = 0;
    let mut padded: usize = 0;
    let mut single: usize = 0;
    let mut hard: usize = 0;
    let mut other: usize = 0;
    let mut first: Option<(usize, usize, usize)> = None;
    let ghost mut acc = TrailingScan { lines: 0, spaces: 0, tabs: 0, padded: 0, single: 0, hard: 0, other: 0, first: None };
    let mut ls: usize = 0;
    while ls < n
        invariant
            t == chars@,
            n == t.len(),
            n < usize::MAX,
            ls <= n + 1,
            0 < ls <= n ==> t[ls - 1] == '\n',
            trailing_scan(t, ls as int, acc) == trailing_total(t),
            lines == acc.lines,
            spaces == acc.spaces,
            tabs == acc.tabs,
            padded == acc.padded,
            single == acc.single,
            hard == acc.hard,
            other == acc.other,
            acc.lines <= ls,
            acc.spaces + acc.tabs <= ls,
            acc.padded + acc.single + acc.hard + acc.other == acc.lines,
            match first {
                Some((fls, fts, fce)) => acc.first == Some(fls as int) && fce == content_end(t, fls as int)
                    && fts == trail_start(t, fls as int, fce as int) && fls <= fts < fce <= n && fls < n,
                None => acc.first is None,
            },
        decreases n + 1 - ls,
    {
        let mut le = ls;
        while le < n && chars[le] != '\n'
            invariant
                t == chars@,
                n == t.len(),
                ls <= le <= n,
                forall|q: int| ls <= q < le ==> t[q] != '\n',
            decreases n - le,
        {
            le += 1;
        }
        proof {
            crate::text::lemma_line_end_const(t, ls as int, le as int);
        }
        let (ce, ts) = line_trailing(chars, ls, le);
        let ghost next_acc = trailing_step(t, ls as int, acc);
        if ts < ce {
            let mut sp: usize = 0;
            let mut tb: usize = 0;
            let mut m = ts;
            proof {
                lemma_trail_start_bounds(t, ls as int, ce as int);
            }
            while m < ce
                invariant
                    t == chars@,
                    n == chars.len(),
                    ts <= m <= ce <= n,
                    sp == count_char_in(t, ts as int, m as int, ' '),
                    tb == count_char_in(t, ts as int, m as int, '\t'),
                    sp + tb <= m - ts,
                decreases ce - m,
            {
                if chars[m] == ' ' {
                    sp += 1;
                } else if chars[m] == '\t' {
                    tb += 1;
                }
                m += 1;
            }
            lines += 1;
            spaces += sp;
            tabs += tb;
            if ts == ls {
                padded += 1;
            } else if tb == 0 && sp == 1 {
                single += 1;
            } else if tb == 0 && sp == 2 {
                hard += 1;
            } else {
                other += 1;
            }
            if first.is_none() {
                first = Some((ls, ts, ce));
            }
        }
        proof {
            acc = next_acc;
        }
        ls = le + 1;
    }
    let tally = TrailingTally { lines, spaces, tabs, padded };
    match first {
        None => {
            assert(collector.pushed@ =~= old(collector).pushed@ + opt_seq(trailing_finding(t, byte_base as int)));
            tally
        }
        Some((fls, fts, fce)) => {
            let severity = if tabs > 0 || single >= 4 || other > 0 { Severity::Warning } else { Severity::Info };
            let mut message = owned("Trailing whitespace appears on ");
            push_decimal(&mut message, lines as u64);
            push_str(&mut message, " line(s): ");
            push_decimal(&mut message, single as u64);
            push_str(&mut message, " single-space content line(s), ");
            push_decimal(&mut message, hard as u64);
            push_str(&mut message, " Markdown hard-break line(s), ");
            push_decimal(&mut message, other as u64);
            push_str(&mut message, " other content line(s), ");
            push_decimal(&mut message, padded as u64);
            push_str(&mut message, " padded blank line(s)");
            let mut context = String::new();
            push_trailing_context(&mut context, chars, fls, fts, fce);
            proof {
                crate::text::lemma_utf8_len_prefix(t, fts as int);
                assert(fts < t.len());
                assert(byte_base + utf8_len(t.take(fts as int)) <= usize::MAX);
            }
            let local = crate::text::utf8_prefix_len(chars, fts);
            let line = crate::text::line_number(chars, fls);
            let finding = Finding {
                rule_id: "text.trailing_whitespace",
                category: "whitespace_channel",
                severity,
                message,
                codepoint: Some(if tabs > 0 { owned("U+0009") } else { owned("U+0020") }),
                unicode_name: Some(if tabs > 0 { owned("CHARACTER TABULATION") } else { owned("SPACE") }),
                byte_offset: local + byte_base,
                char_offset: fts,
                line,
                column: fts - fls + 1,
                context,
                interpretation: INTERPRETATION,
            };
            assert(finding@ == trailing_finding(t, byte_base as int)->0);
            collector.push(finding);
            assert(collector.pushed@ =~= old(collector).pushed@ + opt_seq(trailing_finding(t, byte_base as int)));
            tally
        }
    }
}


// ---------------------------------------------------------------------------
// Normalization.
// ---------------------------------------------------------------------------

/// The Unicode Normalization Form C of a character sequence, as the
/// unicode-normalization crate computes it.
pub uninterp spec fn nfc(s: Seq<char>) -> Seq<char>;

/// Calls `UnicodeNormalization::nfc` of the unicode-normalization crate on
/// `text` and collects the characters it yields; the result is named by `nfc`
/// (the normalization algorithm is the crate's and is not restated here).
#[verifier::external_body]
fn nfc_string(text: &str) -> (normalized: String)
    ensures
        normalized@ == nfc(text@),
{
    text.nfc().collect::<String>()
}

/// Whether `text` is in Normalization Form C.
pub fn is_nfc_normalized(text: &str) -> (normalized: bool)
    ensures
        normalized == (nfc(text@) == text@),
{
    let form = nfc_string(text);
    let source = owned(text);
    form == source
}

/// The informational finding on text that is not in NFC.
pub open spec fn nfc_finding(t: Seq<char>, byte_base: int) -> Option<FindingView> {
    if nfc(t) == t {
        None
    } else {
        Some(FindingView {
            rule_id: "unicode.non_nfc",
            category: "normalization",
            severity: Severity::Info,
            message: "Text is not normalized to Unicode NFC"@,
            codepoint: None,
            unicode_name: None,
            byte_offset: byte_base,
            char_offset: 0,
            line: 1,
            column: 1,
            context: context_text(t, 0),
            interpretation: INTERPRETATION,
        })
    }
}

// ---------------------------------------------------------------------------
// The analysis of a text.
// ---------------------------------------------------------------------------

/// The metrics, findings and truncation count of one text.
pub struct TextAnalysis {
    pub metrics: TextMetrics,
    pub findings: Vec<Finding>,
    pub truncated: usize,
}

/// Every finding on `t`, in the order the analysis reports them: the single
/// characters, non-ASCII spaces, variation selectors, mixed-script tokens,
/// combining-mark runs, trailing whitespace, normalization.
pub open spec fn all_findings(t: Seq<char>, byte_base: int) -> Seq<FindingView> {
    scalar_findings(t, byte_base, t.len() as int) + opt_seq(spaces_finding(t, byte_base)) + opt_seq(
        selectors_finding(t, byte_base),
    ) + mixed_findings(t, byte_base, t.len() as int + 1) + mark_run_findings(t, byte_base, t.len() as int + 1) + opt_seq(
        trailing_finding(t, byte_base),
    ) + opt_seq(nfc_finding(t, byte_base))
}

/// An analyzable text has at most `usize::MAX` findings, so an unlimited cap
/// keeps all of them and truncates none; any cap keeps the first findings.
pub proof fn lemma_findings_fit(t: Seq<char>, byte_base: int, cap: int)
    requires
        analyzable(t, byte_base),
        0 <= cap,
    ensures
        all_findings(t, byte_base).len() <= usize::MAX,
        capped(all_findings(t, byte_base), usize::MAX as int) == all_findings(t, byte_base),
        overflow(all_findings(t, byte_base), usize::MAX as int) == 0,
        capped(all_findings(t, byte_base), cap) == all_findings(t, byte_base).take(
            capped(all_findings(t, byte_base), cap).len() as int,
        ),
        capped(all_findings(t, byte_base), cap).len() == if cap < all_findings(t, byte_base).len() {
            cap
        } else {
            all_findings(t, byte_base).len() as int
        },
{
    let n = t.len() as int;
    lemma_utf8_len_at_least_chars(t);
    lemma_scalar_findings_len(t, byte_base, n);
    lemma_mixed_findings_len(t, byte_base, n + 1);
    lemma_mark_run_findings_len(t, byte_base, n + 1);
    crate::text::lemma_capped_keeps_prefix(all_findings(t, byte_base), cap);
}

/// `f` with its byte offset moved by `delta`.
pub open spec fn shift_finding(f: FindingView, delta: int) -> FindingView {
    FindingView {
        rule_id: f.rule_id,
        category: f.category,
        severity: f.severity,
        message: f.message,
        codepoint: f.codepoint,
        unicode_name: f.unicode_name,
        byte_offset: f.byte_offset + delta,
        char_offset: f.char_offset,
        line: f.line,
        column: f.column,
        context: f.context,
        interpretation: f.interpretation,
    }
}

/// Every finding of `fs` with its byte offset moved by `delta`.
pub open spec fn shift_findings(fs: Seq<FindingView>, delta: int) -> Seq<FindingView> {
    fs.map_values(|f: FindingView| shift_finding(f, delta))
}

proof fn lemma_shift_concat(a: Seq<FindingView>, b: Seq<FindingView>, delta: int)
    ensures
        shift_findings(a + b, delta) == shift_findings(a, delta) + shift_findings(b, delta),
{
    assert(shift_findings(a + b, delta) =~= shift_findings(a, delta) + shift_findings(b, delta));
}

proof fn lemma_shift_push(a: Seq<FindingView>, f: FindingView, delta: int)
    ensures
        shift_findings(a.push(f), delta) == shift_findings(a, delta).push(shift_finding(f, delta)),
{
    assert(shift_findings(a.push(f), delta) =~= shift_findings(a, delta).push(shift_finding(f, delta)));
}

proof fn lemma_shift_opt(o: Option<FindingView>, p: Option<FindingView>, delta: int)
    requires
        match o {
            Some(f) => p == Some(shift_finding(f, delta)),
            None => p is None,
        },
    ensures
        opt_seq(p) == shift_findings(opt_seq(o), delta),
{
    assert(opt_seq(p) =~= shift_findings(opt_seq(o), delta));
}

proof fn lemma_scalar_findings_shift(t: Seq<char>, byte_base: int, n: int)
    requires
        0 <= n <= t.len(),
    ensures
        scalar_findings(t, byte_base, n) == shift_findings(scalar_findings(t, 0, n), byte_base),
    decreases n,
{
    if n <= 0 {
        assert(shift_findings(scalar_findings(t, 0, n), byte_base) =~= Seq::<FindingView>::empty());
    } else {
        lemma_scalar_findings_shift(t, byte_base, n - 1);
        match scalar_finding(t, 0, n - 1) {
            Some(f) => {
                assert(scalar_finding(t, byte_base, n - 1) == Some(shift_finding(f, byte_base)));
                lemma_shift_push(scalar_findings(t, 0, n - 1), f, byte_base);
            },
            None => {
                assert(scalar_finding(t, byte_base, n - 1) is None);
            },
        }
    }
}

proof fn lemma_mixed_findings_shift(t: Seq<char>, byte_base: int, k: int)
    requires
        0 <= k,
    ensures
        mixed_findings(t, byte_base, k) == shift_findings(mixed_findings(t, 0, k), byte_base),
    decreases k,
{
    if k <= 0 {
        assert(shift_findings(mixed_findings(t, 0, k), byte_base) =~= Seq::<FindingView>::empty());
    } else {
        lemma_mixed_findings_shift(t, byte_base, k - 1);
        if mixed_token_at(t, k - 1) {
            lemma_shift_push(mixed_findings(t, 0, k - 1), mixed_token_finding(t, 0, k - 1), byte_base);
        }
    }
}

proof fn lemma_mark_run_findings_shift(t: Seq<char>, byte_base: int, k: int)
    requires
        0 <= k,
    ensures
        mark_run_findings(t, byte_base, k) == shift_findings(mark_run_findings(t, 0, k), byte_base),
    decreases k,
{
    if k <= 0 {
        assert(shift_findings(mark_run_findings(t, 0, k), byte_base) =~= Seq::<FindingView>::empty());
    } else {
        lemma_mark_run_findings_shift(t, byte_base, k - 1);
        if long_mark_run_at(t, k - 1) {
            lemma_shift_push(mark_run_findings(t, 0, k - 1), mark_run_finding(t, 0, k - 1), byte_base);
        }
    }
}

/// The byte base moves the byte offsets of the findings and nothing else: the
/// findings at `byte_base` are those at 0, in the same order, each with
/// `byte_base` added to its byte offset; so under any cap the same findings
/// are kept and the same number is truncated.
pub proof fn lemma_byte_base_moves_only_offsets(t: Seq<char>, byte_base: int, cap: int)
    requires
        0 <= cap,
    ensures
        all_findings(t, byte_base) == shift_findings(all_findings(t, 0), byte_base),
        capped(all_findings(t, byte_base), cap) == shift_findings(capped(all_findings(t, 0), cap), byte_base),
        overflow(all_findings(t, byte_base), cap) == overflow(all_findings(t, 0), cap),
{
    let n = t.len() as int;
    lemma_scalar_findings_shift(t, byte_base, n);
    lemma_mixed_findings_shift(t, byte_base, n + 1);
    lemma_mark_run_findings_shift(t, byte_base, n + 1);
    lemma_shift_opt(spaces_finding(t, 0), spaces_finding(t, byte_base), byte_base);
    lemma_shift_opt(selectors_finding(t, 0), selectors_finding(t, byte_base), byte_base);
    lemma_shift_opt(trailing_finding(t, 0), trailing_finding(t, byte_base), byte_base);
    lemma_shift_opt(nfc_finding(t, 0), nfc_finding(t, byte_base), byte_base);
    let a0 = scalar_findings(t, 0, n);
    let a1 = opt_seq(spaces_finding(t, 0));
    let a2 = opt_seq(selectors_finding(t, 0));
    let a3 = mixed_findings(t, 0, n + 1);
    let a4 = mark_run_findings(t, 0, n + 1);
    let a5 = opt_seq(trailing_finding(t, 0));
    let a6 = opt_seq(nfc_finding(t, 0));
    lemma_shift_concat(a0, a1, byte_base);
    lemma_shift_concat(a0 + a1, a2, byte_base);
    lemma_shift_concat(a0 + a1 + a2, a3, byte_base);
    lemma_shift_concat(a0 + a1 + a2 + a3, a4, byte_base);
    lemma_shift_concat(a0 + a1 + a2 + a3 + a4, a5, byte_base);
    lemma_shift_concat(a0 + a1 + a2 + a3 + a4 + a5, a6, byte_base);
    let all0 = all_findings(t, 0);
    assert(all_findings(t, byte_base) == shift_findings(all0, byte_base));
    if all0.len() > cap {
        assert(shift_findings(all0, byte_base).take(cap) =~= shift_findings(all0.take(cap), byte_base));
    }
}

proof fn lemma_scalar_finding_listed(t: Seq<char>, byte_base: int, n: int, i: int)
    requires
        0 <= i < n <= t.len(),
        scalar_finding(t, byte_base, i) is Some,
    ensures
        scalar_findings(t, byte_base, n).contains(scalar_finding(t, byte_base, i)->0),
    decreases n,
{
    let f = scalar_finding(t, byte_base, i)->0;
    let s = scalar_findings(t, byte_base, n);
    if i == n - 1 {
        assert(s[s.len() - 1] == f);
    } else {
        lemma_scalar_finding_listed(t, byte_base, n - 1, i);
        let prior = scalar_findings(t, byte_base, n - 1);
        let k = choose|k: int| 0 <= k < prior.len() && prior[k] == f;
        assert(s[k] == f);
    }
}

proof fn lemma_scalar_finding_in_all(t: Seq<char>, byte_base: int, i: int)
    requires
        0 <= i < t.len(),
        scalar_finding(t, byte_base, i) is Some,
    ensures
        exists|j: int|
            0 <= j < all_findings(t, byte_base).len() && #[trigger] all_findings(t, byte_base)[j] == scalar_finding(
                t,
                byte_base,
                i,
            )->0,
{
    let n = t.len() as int;
    let f = scalar_finding(t, byte_base, i)->0;
    lemma_scalar_finding_listed(t, byte_base, n, i);
    let sf = scalar_findings(t, byte_base, n);
    let k = choose|k: int| 0 <= k < sf.len() && sf[k] == f;
    let all = all_findings(t, byte_base);
    assert(all[k] == sf[k]);
}

/// Every unexpected C0/C1 control is reported as `unicode.control_character`,
/// with high severity, at its own position.
pub proof fn lemma_controls_are_high(t: Seq<char>, byte_base: int, i: int)
    requires
        0 <= i < t.len(),
        is_unexpected_control(t[i] as u32),
    ensures
        exists|j: int|
            0 <= j < all_findings(t, byte_base).len() && (#[trigger] all_findings(t, byte_base)[j]).rule_id
                == "unicode.control_character" && all_findings(t, byte_base)[j].char_offset == i
                && all_findings(t, byte_base)[j].severity == Severity::High,
{
    lemma_scalar_finding_in_all(t, byte_base, i);
}

/// Every tag character is reported as `unicode.tag_character` at its own
/// position: for information inside a complete subdivision flag, else with
/// high severity.
pub proof fn lemma_tags_are_reported(t: Seq<char>, byte_base: int, i: int)
    requires
        0 <= i < t.len(),
        crate::unicode_context::carrier_kind(t[i] as u32) == Some(CarrierKind::Tag),
    ensures
        exists|j: int|
            0 <= j < all_findings(t, byte_base).len() && (#[trigger] all_findings(t, byte_base)[j]).rule_id
                == "unicode.tag_character" && all_findings(t, byte_base)[j].char_offset == i
                && all_findings(t, byte_base)[j].severity == if decision_at(t, i).contextually_valid {
                Severity::Info
            } else {
                Severity::High
            },
{
    crate::unicode_context::lemma_decision_kind(t, i);
    assert(!is_unexpected_control(t[i] as u32));
    lemma_scalar_finding_in_all(t, byte_base, i);
}

/// Every zero-width joiner or non-joiner is reported as `unicode.joiner` at
/// its own position: for information where its context makes it legitimate
/// (an emoji sequence, a same-script word), else as a warning.
pub proof fn lemma_joiners_are_reported(t: Seq<char>, byte_base: int, i: int)
    requires
        0 <= i < t.len(),
        t[i] as u32 == 0x200C || t[i] as u32 == 0x200D,
    ensures
        exists|j: int|
            0 <= j < all_findings(t, byte_base).len() && (#[trigger] all_findings(t, byte_base)[j]).rule_id
                == "unicode.joiner" && all_findings(t, byte_base)[j].char_offset == i
                && all_findings(t, byte_base)[j].severity == if decision_at(t, i).contextually_valid {
                Severity::Info
            } else {
                Severity::Warning
            },
{
    crate::unicode_context::lemma_decision_kind(t, i);
    lemma_scalar_finding_in_all(t, byte_base, i);
}

/// Every private-use character is reported as `unicode.private_use`, as a
/// warning, at its own position.
pub proof fn lemma_private_use_needs_review(t: Seq<char>, byte_base: int, i: int)
    requires
        0 <= i < t.len(),
        crate::unicode_context::carrier_kind(t[i] as u32) == Some(CarrierKind::PrivateUse),
    ensures
        exists|j: int|
            0 <= j < all_findings(t, byte_base).len() && (#[trigger] all_findings(t, byte_base)[j]).rule_id
                == "unicode.private_use" && all_findings(t, byte_base)[j].char_offset == i
                && all_findings(t, byte_base)[j].severity == Severity::Warning,
{
    crate::unicode_context::lemma_decision_kind(t, i);
    assert(!is_unexpected_control(t[i] as u32));
    lemma_scalar_finding_in_all(t, byte_base, i);
}

/// A soft hyphen is reported as `unicode.format_control`, for information, at
/// its own position.
pub proof fn lemma_soft_hyphens_are_informational(t: Seq<char>, byte_base: int, i: int)
    requires
        0 <= i < t.len(),
        t[i] as u32 == 0x00AD,
    ensures
        exists|j: int|
            0 <= j < all_findings(t, byte_base).len() && (#[trigger] all_findings(t, byte_base)[j]).rule_id
                == "unicode.format_control" && all_findings(t, byte_base)[j].char_offset == i
                && all_findings(t, byte_base)[j].severity == Severity::Info,
{
    crate::unicode_context::lemma_decision_kind(t, i);
    lemma_scalar_finding_in_all(t, byte_base, i);
}

/// Every bidi control is reported under `unicode.bidi_control`, at its own
/// position: as a warning unless its context makes it legitimate (a
/// directional mark, an isolate, or a paired embedding), and then for
/// information only.
pub proof fn lemma_bidi_controls_are_reported(t: Seq<char>, byte_base: int, i: int)
    requires
        0 <= i < t.len(),
        crate::unicode_context::carrier_kind(t[i] as u32) == Some(CarrierKind::Bidi),
    ensures
        exists|j: int|
            0 <= j < all_findings(t, byte_base).len() && (#[trigger] all_findings(t, byte_base)[j]).rule_id
                == "unicode.bidi_control" && all_findings(t, byte_base)[j].char_offset == i
                && all_findings(t, byte_base)[j].severity == if decision_at(t, i).contextually_valid {
                Severity::Info
            } else {
                Severity::Warning
            },
{
    crate::unicode_context::lemma_decision_kind(t, i);
    let d = decision_at(t, i);
    assert(!is_unexpected_control(t[i] as u32));
    let f = scalar_finding(t, byte_base, i)->0;
    assert(scalar_finding(t, byte_base, i) is Some);
    assert(f.rule_id == "unicode.bidi_control" && f.char_offset == i);
    assert(f.severity == if d.contextually_valid { Severity::Info } else { Severity::Warning });
    lemma_scalar_finding_in_all(t, byte_base, i);
}

/// An embedding or override (U+202A to U+202E) that is not part of a paired
/// embedding, such as a lone right-to-left override, is reported as a warning.
pub proof fn lemma_unpaired_embeddings_are_warnings(t: Seq<char>, byte_base: int, i: int)
    requires
        0 <= i < t.len(),
        0x202A <= t[i] as u32 <= 0x202E,
        !crate::unicode_context::in_paired_embedding(t, i),
    ensures
        exists|j: int|
            0 <= j < all_findings(t, byte_base).len() && (#[trigger] all_findings(t, byte_base)[j]).rule_id
                == "unicode.bidi_control" && all_findings(t, byte_base)[j].char_offset == i
                && all_findings(t, byte_base)[j].severity == Severity::Warning,
{
    assert(!decision_at(t, i).contextually_valid);
    lemma_bidi_controls_are_reported(t, byte_base, i);
}

/// The number of maximal alphabetic tokens ending before `k` that mix scripts.
pub open spec fn mixed_token_count(t: Seq<char>, k: int) -> nat
    decreases k,
{
    if k <= 0 {
        0
    } else {
        mixed_token_count(t, k - 1) + if mixed_token_at(t, k - 1) { 1nat } else { 0nat }
    }
}

proof fn lemma_mixed_token_count(t: Seq<char>, byte_base: int, k: int)
    requires
        0 <= k,
    ensures
        mixed_findings(t, byte_base, k).len() == mixed_token_count(t, k),
    decreases k,
{
    if k > 0 {
        lemma_mixed_token_count(t, byte_base, k - 1);
    }
}

/// The metrics of `t`.
pub open spec fn text_metrics(t: Seq<char>) -> TextMetrics {
    let trailing = trailing_total(t);
    TextMetrics {
        unicode_scalar_count: t.len() as usize,
        line_count: if t.len() == 0 { 0 } else { (crate::text::newlines_before(t, t.len() as int) + 1) as usize },
        ascii_space_count: tally_count(t, Tally::AsciiSpace) as usize,
        non_ascii_space_count: tally_count(t, Tally::NonAsciiSpace) as usize,
        format_control_count: tally_count(t, Tally::FormatControl) as usize,
        variation_selector_count: tally_count(t, Tally::VariationSelector) as usize,
        unicode_tag_count: tally_count(t, Tally::Tag) as usize,
        mixed_script_token_count: mixed_token_count(t, t.len() as int + 1) as usize,
        trailing_whitespace_line_count: trailing.lines as usize,
        trailing_space_count: trailing.spaces as usize,
        trailing_tab_count: trailing.tabs as usize,
        padded_blank_line_count: trailing.padded as usize,
        nfc_normalized: nfc(t) == t,
    }
}

/// The number of lines of `chars`: none for an empty text, else one more than its line feeds.
fn count_lines(chars: &Vec<char>) -> (count: usize)
    requires
        chars.len() < usize::MAX,
    ensures
        count == (if chars.len() == 0 { 0 } else { crate::text::newlines_before(chars@, chars.len() as int) + 1 }),
{
    if chars.len() == 0 {
        return 0;
    }
    let ghost t = chars@;
    let mut count: usize = 0;
    let mut k: usize = 0;
    while k < chars.len()
        invariant
            t == chars@,
            k <= t.len() < usize::MAX,
            count == crate::text::newlines_before(t, k as int),
            count <= k,
        decreases t.len() - k,
    {
        if chars[k] == '\n' {
            count += 1;
        }
        k += 1;
    }
    count + 1
}

/// The counts that the passes over the characters produce.
pub struct PassCounts {
    pub scalars: ScalarTally,
    pub mixed_tokens: usize,
    pub trailing: TrailingTally,
}

/// Runs every pass of the analysis over `chars`, pushing the findings in order.
fn run_passes(
    chars: &Vec<char>,
    byte_base: usize,
    scalars: &Vec<Scalar>,
    decisions: &Vec<CharDecision>,
    nfc_normalized: bool,
    collector: &mut FindingCollector,
) -> (counts: PassCounts)
    requires
        analyzable(chars@, byte_base as int),
        decisions@ == classify_spec(chars@),
        scalars.len() == chars.len(),
        forall|i: int| 0 <= i < chars.len() ==> #[trigger] scalars[i] == scalar_at(chars@, byte_base as int, i),
        nfc_normalized == (nfc(chars@) == chars@),
        old(collector).wf(),
        old(collector).pushed@.len() == 0,
    ensures
        final(collector).wf(),
        final(collector).max == old(collector).max,
        final(collector).pushed@ == all_findings(chars@, byte_base as int),
        positions_match(counts.scalars.non_ascii_spaces@, tally_positions(chars@, chars.len() as int, Tally::NonAsciiSpace)),
        counts.scalars.ascii_space_count == tally_count(chars@, Tally::AsciiSpace),
        counts.scalars.variation_selector_count == tally_count(chars@, Tally::VariationSelector),
        counts.scalars.format_control_count == tally_count(chars@, Tally::FormatControl),
        counts.scalars.unicode_tag_count == tally_count(chars@, Tally::Tag),
        counts.mixed_tokens == mixed_token_count(chars@, chars.len() + 1),
        counts.trailing.lines == trailing_total(chars@).lines,
        counts.trailing.spaces == trailing_total(chars@).spaces,
        counts.trailing.tabs == trailing_total(chars@).tabs,
        counts.trailing.padded == trailing_total(chars@).padded,
{
    let ghost t = chars@;
    let ghost base = byte_base as int;
    let n = chars.len();
    proof {
        lemma_utf8_len_at_least_chars(t);
        lemma_scalar_findings_len(t, base, n as int);
        lemma_mixed_findings_len(t, base, n + 1);
        lemma_mark_run_findings_len(t, base, n + 1);
        lemma_mixed_token_count(t, base, n + 1);
    }
    let tally = analyze_scalars(chars, byte_base, decisions, scalars, collector);
    analyze_spaces(chars, byte_base, scalars, &tally.non_ascii_spaces, tally.ascii_space_count, collector);
    analyze_variation_selectors(chars, byte_base, scalars, &tally.variation_selectors, collector);
    let mixed_tokens = analyze_mixed_scripts(chars, byte_base, scalars, collector);
    analyze_combining_runs(chars, byte_base, scalars, collector);
    let trailing = analyze_trailing_whitespace(chars, byte_base, collector);
    if !nfc_normalized {
        let finding = Finding {
            rule_id: "unicode.non_nfc",
            category: "normalization",
            severity: Severity::Info,
            message: owned("Text is not normalized to Unicode NFC"),
            codepoint: None,
            unicode_name: None,
            byte_offset: byte_base,
            char_offset: 0,
            line: 1,
            column: 1,
            context: context_at(chars, 0),
            interpretation: INTERPRETATION,
        };
        collector.push(finding);
    }
    proof {
        assert(collector.pushed@ =~= all_findings(t, base));
    }
    PassCounts { scalars: tally, mixed_tokens, trailing }
}

/// Analyzes `text` whose first byte lies `byte_base` bytes into its file:
/// computes the metrics and collects the findings, retaining at most
/// `max_findings` and counting the rest.
pub fn analyze_text(text: &str, byte_base: usize, max_findings: usize) -> (analysis: TextAnalysis)
    requires
        analyzable(text@, byte_base as int),
    ensures
        analysis.metrics == text_metrics(text@),
        finding_views(analysis.findings@) == capped(all_findings(text@, byte_base as int), max_findings as int),
        analysis.truncated == overflow(all_findings(text@, byte_base as int), max_findings as int),
{
    let chars = crate::text::chars_of(text);
    let ghost t = chars@;
    proof {
        lemma_utf8_len_at_least_chars(t);
    }
    let scalars = collect_scalars(&chars, byte_base);
    let decisions = classify_chars(&chars);
    let nfc_normalized = is_nfc_normalized(text);
    let mut collector = FindingCollector::new(max_findings);
    let counts = run_passes(&chars, byte_base, &scalars, &decisions, nfc_normalized, &mut collector);
    let metrics = TextMetrics {
        unicode_scalar_count: chars.len(),
        line_count: count_lines(&chars),
        ascii_space_count: counts.scalars.ascii_space_count,
        non_ascii_space_count: counts.scalars.non_ascii_spaces.len(),
        format_control_count: counts.scalars.format_control_count,
        variation_selector_count: counts.scalars.variation_selector_count,
        unicode_tag_count: counts.scalars.unicode_tag_count,
        mixed_script_token_count: counts.mixed_tokens,
        trailing_whitespace_line_count: counts.trailing.lines,
        trailing_space_count: counts.trailing.spaces,
        trailing_tab_count: counts.trailing.tabs,
        padded_blank_line_count: counts.trailing.padded,
        nfc_normalized,
    };
    TextAnalysis { metrics, findings: collector.findings, truncated: collector.truncated }
}

} // verus!
