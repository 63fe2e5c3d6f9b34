//! Deterministic removal of recognized invisible, format and private-use
//! characters, and optionally of trailing whitespace.

use vstd::prelude::*;
use vstd::utf8::{decode_utf8, encode_utf8, partial_valid_utf8, valid_utf8};
use crate::scanner::{ReadOutcome, binary_sample, looks_binary, valid_prefix_len};
use crate::text::{decimal, owned, push_decimal, push_str};

use crate::text::{
    codepoint_text, column_of, format_codepoint, line_of, trailing_removal, trailing_whitespace_indices,
    utf8_len, utf8_width, lemma_utf8_len_step, capped, overflow, lemma_line_start_bounds, line_start, newlines_before,
};
use crate::unicode_context::{
    CarrierKind, CharDecision, RecommendedAction, classify_chars, decision_at, classify_spec,
    carrier_kind, is_exotic_space, lemma_decision_kind,
};
use crate::text::{is_hspace, line_end, content_end, trail_start, lemma_trail_start_bounds};

verus! {

/// How many removal operations a report lists; the rest are only counted.
pub const MAX_RECORDED_OPERATIONS: usize = 1000;

/// Options of the sanitation pass.
#[derive(Clone, Copy, Debug)]
pub struct SanitizeOptions {
    pub strip_trailing_whitespace: bool,
}

/// What the sanitizer did to a character.
#[derive(Clone, Copy, Debug, PartialEq, Eq, Structural)]
pub enum SanitizeAction {
    Remove,
}

/// One removed character.
#[derive(Debug)]
pub struct SanitizeOperation {
    pub action: SanitizeAction,
    pub kind: &'static str,
    pub codepoint: Option<String>,
    pub byte_offset: usize,
    pub char_offset: usize,
    pub line: usize,
    pub column: usize,
    pub reason: &'static str,
}

/// The mathematical content of a [`SanitizeOperation`].
pub struct OperationView {
    pub action: SanitizeAction,
    pub kind: &'static str,
    pub codepoint: Option<Seq<char>>,
    pub byte_offset: int,
    pub char_offset: int,
    pub line: int,
    pub column: int,
    pub reason: &'static str,
}

impl View for SanitizeOperation {
    type V = OperationView;

    open spec fn view(&self) -> OperationView {
        OperationView {
            action: self.action,
            kind: self.kind,
            codepoint: match self.codepoint {
                Some(c) => Some(c@),
                None => None,
            },
            byte_offset: self.byte_offset as int,
            char_offset: self.char_offset as int,
            line: self.line as int,
            column: self.column as int,
            reason: self.reason,
        }
    }
}

/// Counts of the sanitation pass.
#[derive(Debug)]
pub struct SanitizeStats {
    pub input_char_count: usize,
    pub output_char_count: usize,
    pub removed_count: usize,
    /// Removal counts by kind label, in ascending label order, zero counts omitted.
    pub removed_by_kind: Vec<(&'static str, usize)>,
}

/// The sanitized text with its statistics and the recorded operations.
pub struct TextSanitizeResult {
    pub text: String,
    pub stats: SanitizeStats,
    pub operations: Vec<SanitizeOperation>,
    pub operations_truncated: usize,
}

// ---------------------------------------------------------------------------
// Specification of the sanitation of a text.
// ---------------------------------------------------------------------------

/// Position `i` of `t` is removed: it is trailing whitespace and the cleanup is
/// requested, or it is a recognized carrier other than a non-ASCII space.
pub open spec fn removed_at(t: Seq<char>, strip: bool, i: int) -> bool {
    (strip && trailing_removal(t, i)) || (decision_at(t, i).kind is Some && decision_at(t, i).kind
        != Some(CarrierKind::ExoticSpace))
}

/// The label of the removal of position `i`.
pub open spec fn removal_label(t: Seq<char>, strip: bool, i: int) -> &'static str {
    if strip && trailing_removal(t, i) {
        "trailing_whitespace"
    } else {
        match decision_at(t, i).kind {
            Some(kind) => kind.label(),
            None => "format_control",
        }
    }
}

/// The reason given for the removal of position `i`.
pub open spec fn removal_reason(t: Seq<char>, strip: bool, i: int) -> &'static str {
    if strip && trailing_removal(t, i) {
        "trailing ASCII whitespace was explicitly requested for removal"
    } else if decision_at(t, i).action == RecommendedAction::Keep {
        "project policy removes all recognized invisible/format and private-use characters"
    } else {
        decision_at(t, i).reason
    }
}

/// The operation that records the removal of position `i`.
pub open spec fn operation_at(t: Seq<char>, byte_base: int, strip: bool, i: int) -> OperationView {
    OperationView {
        action: SanitizeAction::Remove,
        kind: removal_label(t, strip, i),
        codepoint: Some(codepoint_text(t[i])),
        byte_offset: byte_base + utf8_len(t.take(i)),
        char_offset: i,
        line: line_of(t, i) as int,
        column: column_of(t, i) as int,
        reason: removal_reason(t, strip, i),
    }
}

/// The characters of `t[0..n]` that are kept, in order.
pub open spec fn kept_chars(t: Seq<char>, strip: bool, n: int) -> Seq<char>
    decreases n,
{
    if n <= 0 {
        Seq::empty()
    } else if removed_at(t, strip, n - 1) {
        kept_chars(t, strip, n - 1)
    } else {
        kept_chars(t, strip, n - 1).push(t[n - 1])
    }
}

/// The operations for the removed positions of `t[0..n]`, in order.
pub open spec fn removal_operations(t: Seq<char>, byte_base: int, strip: bool, n: int) -> Seq<OperationView>
    decreases n,
{
    if n <= 0 {
        Seq::empty()
    } else if removed_at(t, strip, n - 1) {
        removal_operations(t, byte_base, strip, n - 1).push(operation_at(t, byte_base, strip, n - 1))
    } else {
        removal_operations(t, byte_base, strip, n - 1)
    }
}

/// The nine removal labels in ascending order.
#[verifier::allow_in_spec]
pub fn slot_label(slot: usize) -> &'static str
    returns
        if slot == 0 {
            "bidi"
        } else if slot == 1 {
            "format_control"
        } else if slot == 2 {
            "joiner"
        } else if slot == 3 {
            "private_use"
        } else if slot == 4 {
            "script_format"
        } else if slot == 5 {
            "soft_hyphen"
        } else if slot == 6 {
            "tag_character"
        } else if slot == 7 {
            "trailing_whitespace"
        } else {
            "variation_selector"
        },
{
    if slot == 0 {
        "bidi"
    } else if slot == 1 {
        "format_control"
    } else if slot == 2 {
        "joiner"
    } else if slot == 3 {
        "private_use"
    } else if slot == 4 {
        "script_format"
    } else if slot == 5 {
        "soft_hyphen"
    } else if slot == 6 {
        "tag_character"
    } else if slot == 7 {
        "trailing_whitespace"
    } else {
        "variation_selector"
    }
}

/// The slot (position in ascending label order) of the removal of position `i`.
pub open spec fn removal_slot(t: Seq<char>, strip: bool, i: int) -> int {
    slot_of(decision_at(t, i).kind, strip && trailing_removal(t, i)) as int
}

/// The number of removed positions of `t[0..n]` in `slot`.
pub open spec fn slot_count(t: Seq<char>, strip: bool, n: int, slot: int) -> nat
    decreases n,
{
    if n <= 0 {
        0
    } else {
        slot_count(t, strip, n - 1, slot) + if removed_at(t, strip, n - 1) && removal_slot(t, strip, n - 1)
            == slot {
            1nat
        } else {
            0nat
        }
    }
}

/// The label/count entries for the slots `0..k` with a non-zero count.
pub open spec fn kind_entries(t: Seq<char>, strip: bool, k: int) -> Seq<(&'static str, usize)>
    decreases k,
{
    if k <= 0 {
        Seq::empty()
    } else if slot_count(t, strip, t.len() as int, k - 1) > 0 {
        kind_entries(t, strip, k - 1).push((slot_label((k - 1) as usize), slot_count(t, strip, t.len() as int, k - 1) as usize))
    } else {
        kind_entries(t, strip, k - 1)
    }
}

/// The views of a list of operations.
pub open spec fn operation_views(ops: Seq<SanitizeOperation>) -> Seq<OperationView> {
    ops.map_values(|op: SanitizeOperation| op@)
}

/// Every input character is either kept or recorded as removed.
pub proof fn lemma_removal_counts(t: Seq<char>, byte_base: int, strip: bool, n: int)
    requires
        0 <= n <= t.len(),
    ensures
        kept_chars(t, strip, n).len() + removal_operations(t, byte_base, strip, n).len() == n,
    decreases n,
{
    if n > 0 {
        lemma_removal_counts(t, byte_base, strip, n - 1);
    }
}

/// The length of `t` in bytes fits in `usize`, and so does the byte offset,
/// counted from `byte_base`, of every character that the sanitation removes.
pub open spec fn removal_offsets_fit(t: Seq<char>, byte_base: int, strip: bool) -> bool {
    &&& 0 <= byte_base
    &&& utf8_len(t) <= usize::MAX
    &&& forall|i: int|
        0 <= i < t.len() && removed_at(t, strip, i) ==> byte_base + #[trigger] utf8_len(t.take(i)) <= usize::MAX
}

proof fn lemma_removal_offsets_fit(t: Seq<char>, strip: bool)
    requires
        utf8_len(t) <= usize::MAX,
    ensures
        removal_offsets_fit(t, 0, strip),
{
    assert forall|i: int| 0 <= i < t.len() && removed_at(t, strip, i) implies #[trigger] utf8_len(t.take(i))
        <= usize::MAX by {
        crate::text::lemma_utf8_len_prefix(t, i);
    }
}

/// Records `operation`, or counts it once `MAX_RECORDED_OPERATIONS` are recorded.
pub fn record_operation(operations: &mut Vec<SanitizeOperation>, truncated: &mut usize, operation: SanitizeOperation)
    requires
        *old(truncated) < usize::MAX,
    ensures
        old(operations).len() < MAX_RECORDED_OPERATIONS ==> operation_views(final(operations)@)
            == operation_views(old(operations)@).push(operation@) && *final(truncated) == *old(truncated),
        old(operations).len() >= MAX_RECORDED_OPERATIONS ==> final(operations)@ == old(operations)@
            && *final(truncated) == *old(truncated) + 1,
{
    if operations.len() < MAX_RECORDED_OPERATIONS {
        let ghost before = operations@;
        operations.push(operation);
        proof {
            assert(operation_views(operations@) =~= operation_views(before).push(operation@));
        }
    } else {
        *truncated += 1;
    }
}

/// The slot of a removal of a character of `kind`, or of trailing whitespace.
#[verifier::allow_in_spec]
pub fn slot_of(kind: Option<CarrierKind>, trailing: bool) -> usize
    returns
        if trailing {
            7usize
        } else {
            match kind {
                Some(CarrierKind::Bidi) => 0usize,
                Some(CarrierKind::Joiner) => 2usize,
                Some(CarrierKind::PrivateUse) => 3usize,
                Some(CarrierKind::ScriptFormat) => 4usize,
                Some(CarrierKind::SoftHyphen) => 5usize,
                Some(CarrierKind::Tag) => 6usize,
                Some(CarrierKind::VariationSelector) => 8usize,
                _ => 1usize,
            }
        },
{
    if trailing {
        7
    } else {
        match kind {
            Some(CarrierKind::Bidi) => 0,
            Some(CarrierKind::Joiner) => 2,
            Some(CarrierKind::PrivateUse) => 3,
            Some(CarrierKind::ScriptFormat) => 4,
            Some(CarrierKind::SoftHyphen) => 5,
            Some(CarrierKind::Tag) => 6,
            Some(CarrierKind::VariationSelector) => 8,
            _ => 1,
        }
    }
}

/// Removes every recognized carrier other than non-ASCII spaces from `text`
/// (and, when requested, trailing whitespace), recording each removal.
pub fn sanitize_text(text: &str, byte_base: usize, options: SanitizeOptions) -> (result: TextSanitizeResult)
    requires
        removal_offsets_fit(text@, byte_base as int, options.strip_trailing_whitespace),
    ensures
        result.text@ == kept_chars(text@, options.strip_trailing_whitespace, text@.len() as int),
        result.stats.input_char_count == text@.len(),
        result.stats.output_char_count == result.text@.len(),
        result.stats.removed_count == removal_operations(
            text@,
            byte_base as int,
            options.strip_trailing_whitespace,
            text@.len() as int,
        ).len(),
        result.stats.removed_by_kind@ == kind_entries(text@, options.strip_trailing_whitespace, 9),
        operation_views(result.operations@) == capped(
            removal_operations(text@, byte_base as int, options.strip_trailing_whitespace, text@.len() as int),
            MAX_RECORDED_OPERATIONS as int,
        ),
        result.operations_truncated == overflow(
            removal_operations(text@, byte_base as int, options.strip_trailing_whitespace, text@.len() as int),
            MAX_RECORDED_OPERATIONS as int,
        ),
{
    let chars = crate::text::chars_of(text);
    let ghost t = chars@;
    let strip = options.strip_trailing_whitespace;
    let n = chars.len();
    let decisions = classify_chars(&chars);
    let trailing = if strip {
        trailing_whitespace_indices(&chars)
    } else {
        crate::text::false_mask(n)
    };
    let mut result = String::new();
    let mut kept_count: usize = 0;
    let mut removed_count: usize = 0;
    let mut counts: Vec<usize> = vec![0, 0, 0, 0, 0, 0, 0, 0, 0];
    let mut operations: Vec<SanitizeOperation> = Vec::new();
    let mut operations_truncated: usize = 0;
    let mut local_bytes: usize = 0;
    let mut line: usize = 1;
    let mut column: usize = 1;
    let mut index: usize = 0;
    proof {
        assert(t.take(0) =~= Seq::<char>::empty());
        assert(vstd::utf8::encode_utf8(Seq::<char>::empty()) =~= Seq::<u8>::empty());
    }
    while index < n
        invariant
            t == chars@,
            t == text@,
            n == t.len(),
            index <= n,
            removal_offsets_fit(t, byte_base as int, strip),
            decisions@ == classify_spec(t),
            trailing.len() == n,
            forall|i: int| 0 <= i < n ==> #[trigger] trailing[i] == (strip && trailing_removal(t, i)),
            result@ == kept_chars(t, strip, index as int),
            kept_count == result@.len(),
            removed_count == removal_operations(t, byte_base as int, strip, index as int).len(),
            kept_count + removed_count == index,
            counts.len() == 9,
            forall|s: int| 0 <= s < 9 ==> #[trigger] counts[s] == slot_count(t, strip, index as int, s),
            forall|s: int| 0 <= s < 9 ==> #[trigger] counts[s] <= index,
            operation_views(operations@) == capped(
                removal_operations(t, byte_base as int, strip, index as int),
                MAX_RECORDED_OPERATIONS as int,
            ),
            operations_truncated == overflow(
                removal_operations(t, byte_base as int, strip, index as int),
                MAX_RECORDED_OPERATIONS as int,
            ),
            local_bytes == utf8_len(t.take(index as int)),
            index < n ==> line == line_of(t, index as int),
            index < n ==> column == column_of(t, index as int),
        decreases n - index,
    {
        let ch = chars[index];
        let decision = decisions[index];
        let remove_for_trailing = trailing[index];
        let remove = remove_for_trailing || match decision.kind {
            Some(kind) => kind != CarrierKind::ExoticSpace,
            None => false,
        };
        proof {
            lemma_utf8_len_step(t, index as int);
            lemma_removal_counts(t, byte_base as int, strip, index as int);
        }
        let width = utf8_width(ch);
        let ghost all_before = removal_operations(t, byte_base as int, strip, index as int);
        if remove {
            let kind: &'static str = if remove_for_trailing {
                "trailing_whitespace"
            } else {
                match decision.kind {
                    Some(k) => k.label(),
                    None => "format_control",
                }
            };
            let reason: &'static str = if remove_for_trailing {
                "trailing ASCII whitespace was explicitly requested for removal"
            } else if decision.action == RecommendedAction::Keep {
                "project policy removes all recognized invisible/format and private-use characters"
            } else {
                decision.reason
            };
            let slot = slot_of(decision.kind, remove_for_trailing);
            counts.set(slot, counts[slot] + 1);
            removed_count += 1;
            let operation = SanitizeOperation {
                action: SanitizeAction::Remove,
                kind,
                codepoint: Some(format_codepoint(ch)),
                byte_offset: local_bytes + byte_base,
                char_offset: index,
                line,
                column,
                reason,
            };
            assert(operation@ == operation_at(t, byte_base as int, strip, index as int));
            record_operation(&mut operations, &mut operations_truncated, operation);
            proof {
                let all_after = removal_operations(t, byte_base as int, strip, index + 1);
                assert(all_after == all_before.push(operation_at(t, byte_base as int, strip, index as int)));
                if all_before.len() < MAX_RECORDED_OPERATIONS {
                    assert(capped(all_after, MAX_RECORDED_OPERATIONS as int) =~= capped(all_before, MAX_RECORDED_OPERATIONS as int).push(
                        operation_at(t, byte_base as int, strip, index as int)));
                } else {
                    assert(capped(all_after, MAX_RECORDED_OPERATIONS as int) =~= capped(all_before, MAX_RECORDED_OPERATIONS as int));
                }
                assert forall|s: int| 0 <= s < 9 implies #[trigger] counts[s] == slot_count(t, strip, index + 1, s) by {
                }
            }
        } else {
            crate::text::push_char(&mut result, ch);
            kept_count += 1;
        }
        local_bytes = local_bytes + width;
        if index + 1 < n {
            proof {
                lemma_line_start_bounds(t, index + 1);
            }
            if ch == '\n' {
                line += 1;
                column = 1;
            } else {
                column += 1;
            }
        }
        index += 1;
    }
    let mut removed_by_kind: Vec<(&'static str, usize)> = Vec::new();
    let mut slot: usize = 0;
    while slot < 9
        invariant
            counts.len() == 9,
            slot <= 9,
            forall|s: int| 0 <= s < 9 ==> #[trigger] counts[s] == slot_count(t, strip, n as int, s),
            n == t.len(),
            removed_by_kind@ == kind_entries(t, strip, slot as int),
        decreases 9 - slot,
    {
        if counts[slot] > 0 {
            removed_by_kind.push((slot_label(slot), counts[slot]));
        }
        slot += 1;
    }
    let stats = SanitizeStats {
        input_char_count: n,
        output_char_count: kept_count,
        removed_count,
        removed_by_kind,
    };
    TextSanitizeResult { text: result, stats, operations, operations_truncated }
}


// ---------------------------------------------------------------------------
// Laws of the sanitation.
// ---------------------------------------------------------------------------

/// The trailing-whitespace cleanup removes only spaces and tabs.
pub proof fn lemma_trailing_removal_is_hspace(t: Seq<char>, i: int)
    requires
        trailing_removal(t, i),
    ensures
        is_hspace(t[i]),
{
    let ls = line_start(t, i);
    let ce = content_end(t, i);
    crate::text::lemma_line_start_bounds(t, i);
    crate::text::lemma_line_end_bounds(t, i);
    lemma_trail_start_bounds(t, ls, ce);
}

/// The cleanup removes whitespace only at the end of a line's content: from a
/// removed character to the end of its line's content there are only spaces
/// and tabs, so line breaks and the content itself are kept.
pub proof fn lemma_cleanup_touches_only_line_ends(t: Seq<char>, i: int)
    requires
        trailing_removal(t, i),
    ensures
        forall|q: int| i <= q < content_end(t, i) ==> is_hspace(#[trigger] t[q]),
        content_end(t, i) == t.len() || t[content_end(t, i)] == '\n' || t[content_end(t, i)] == '\r',
{
    let ls = line_start(t, i);
    let ce = content_end(t, i);
    crate::text::lemma_line_start_bounds(t, i);
    crate::text::lemma_line_end_bounds(t, i);
    lemma_trail_start_bounds(t, ls, ce);
}

/// With the cleanup on, every space or tab of the trailing run of a line is
/// removed, unless the run is exactly two spaces after some content (a
/// Markdown hard break), which is kept whole; a run of three spaces, a tab, or
/// a run on a blank line is removed.
pub proof fn lemma_cleanup_keeps_only_two_space_breaks(t: Seq<char>, i: int)
    requires
        0 <= i < t.len(),
        trail_start(t, line_start(t, i), content_end(t, i)) <= i < content_end(t, i),
    ensures
        !({
            let ls = line_start(t, i);
            let ts = trail_start(t, ls, content_end(t, i));
            &&& ts > ls
            &&& content_end(t, i) - ts == 2
            &&& t[ts] == ' '
            &&& t[ts + 1] == ' '
        }) ==> removed_at(t, true, i),
        ({
            let ls = line_start(t, i);
            let ts = trail_start(t, ls, content_end(t, i));
            &&& ts > ls
            &&& content_end(t, i) - ts == 2
            &&& t[ts] == ' '
            &&& t[ts + 1] == ' '
        }) ==> !removed_at(t, true, i),
{
    lemma_trailing_removal_is_hspace_or_kept(t, i);
    lemma_decision_kind(t, i);
    let ls = line_start(t, i);
    let ce = content_end(t, i);
    let ts = trail_start(t, ls, ce);
    if ts > ls && ce - ts == 2 && t[ts] == ' ' && t[ts + 1] == ' ' {
        assert(i == ts || i == ts + 1);
        assert(t[i] == ' ');
        assert(carrier_kind(t[i] as u32) is None);
        assert(!trailing_removal(t, i));
    }
}

proof fn lemma_trailing_removal_is_hspace_or_kept(t: Seq<char>, i: int)
    requires
        0 <= i < t.len(),
        trail_start(t, line_start(t, i), content_end(t, i)) <= i < content_end(t, i),
    ensures
        is_hspace(t[i]),
{
    let ls = line_start(t, i);
    let ce = content_end(t, i);
    crate::text::lemma_line_start_bounds(t, i);
    crate::text::lemma_line_end_bounds(t, i);
    lemma_trail_start_bounds(t, ls, ce);
    lemma_decision_kind(t, i);
}

/// Non-ASCII spaces are never removed: they are reported, not sanitized.
pub proof fn lemma_exotic_spaces_are_kept(t: Seq<char>, strip: bool, i: int)
    requires
        0 <= i < t.len(),
        is_exotic_space(t[i] as u32),
    ensures
        !removed_at(t, strip, i),
{
    lemma_decision_kind(t, i);
    if strip && trailing_removal(t, i) {
        lemma_trailing_removal_is_hspace(t, i);
    }
}

/// Without the cleanup, a character is removed exactly when its code point is
/// a recognized carrier other than a non-ASCII space, whatever its context.
pub proof fn lemma_removal_depends_on_code_point_only(t: Seq<char>, i: int)
    requires
        0 <= i < t.len(),
    ensures
        removed_at(t, false, i) == (carrier_kind(t[i] as u32) is Some && carrier_kind(t[i] as u32)
            != Some(CarrierKind::ExoticSpace)),
{
    lemma_decision_kind(t, i);
}

/// The cleanup option removes only spaces and tabs beyond what the carrier pass removes.
pub proof fn lemma_cleanup_removes_only_hspace(t: Seq<char>, i: int)
    requires
        0 <= i < t.len(),
        removed_at(t, true, i),
        !removed_at(t, false, i),
    ensures
        is_hspace(t[i]),
{
    lemma_trailing_removal_is_hspace(t, i);
}

/// No character that the sanitized text keeps is a recognized carrier other
/// than a non-ASCII space.
pub proof fn lemma_kept_chars_are_not_carriers(t: Seq<char>, strip: bool, n: int)
    requires
        0 <= n <= t.len(),
    ensures
        forall|j: int| 0 <= j < kept_chars(t, strip, n).len() ==> {
            let k = carrier_kind(#[trigger] kept_chars(t, strip, n)[j] as u32);
            k is None || k == Some(CarrierKind::ExoticSpace)
        },
    decreases n,
{
    if n > 0 {
        lemma_kept_chars_are_not_carriers(t, strip, n - 1);
        lemma_decision_kind(t, n - 1);
        let prev = kept_chars(t, strip, n - 1);
        if !removed_at(t, strip, n - 1) {
            assert forall|j: int| 0 <= j < kept_chars(t, strip, n).len() implies {
                let k = carrier_kind(#[trigger] kept_chars(t, strip, n)[j] as u32);
                k is None || k == Some(CarrierKind::ExoticSpace)
            } by {
                if j < prev.len() {
                    assert(kept_chars(t, strip, n)[j] == prev[j]);
                }
            }
        }
    }
}

proof fn lemma_nothing_removed(t: Seq<char>, n: int)
    requires
        0 <= n <= t.len(),
        forall|i: int| 0 <= i < t.len() ==> !removed_at(t, false, i),
    ensures
        kept_chars(t, false, n) == t.take(n),
    decreases n,
{
    if n > 0 {
        lemma_nothing_removed(t, n - 1);
        assert(t.take(n) =~= t.take(n - 1).push(t[n - 1]));
    }
}

proof fn lemma_nothing_recorded(t: Seq<char>, byte_base: int, n: int)
    requires
        0 <= n <= t.len(),
        forall|i: int| 0 <= i < t.len() ==> !removed_at(t, false, i),
    ensures
        removal_operations(t, byte_base, false, n).len() == 0,
        forall|slot: int| #[trigger] slot_count(t, false, n, slot) == 0,
    decreases n,
{
    if n > 0 {
        lemma_nothing_recorded(t, byte_base, n - 1);
        assert forall|slot: int| #[trigger] slot_count(t, false, n, slot) == 0 by {
            assert(slot_count(t, false, n - 1, slot) == 0);
        }
    }
}

proof fn lemma_no_kind_entries(t: Seq<char>, k: int)
    requires
        forall|slot: int| #[trigger] slot_count(t, false, t.len() as int, slot) == 0,
    ensures
        kind_entries(t, false, k).len() == 0,
    decreases k,
{
    if k > 0 {
        lemma_no_kind_entries(t, k - 1);
        assert(slot_count(t, false, t.len() as int, k - 1) == 0);
    }
}

/// Sanitizing an already sanitized text (without the cleanup) changes
/// nothing: the text stays as it is, no character is removed, no operation is
/// recorded and no kind is counted, whatever the byte base.
pub proof fn lemma_sanitation_is_idempotent(t: Seq<char>, byte_base: int)
    ensures
        kept_chars(kept_chars(t, false, t.len() as int), false, kept_chars(t, false, t.len() as int).len() as int)
            == kept_chars(t, false, t.len() as int),
        removal_operations(
            kept_chars(t, false, t.len() as int),
            byte_base,
            false,
            kept_chars(t, false, t.len() as int).len() as int,
        ).len() == 0,
        kind_entries(kept_chars(t, false, t.len() as int), false, 9).len() == 0,
{
    let k = kept_chars(t, false, t.len() as int);
    lemma_kept_chars_are_not_carriers(t, false, t.len() as int);
    assert forall|i: int| 0 <= i < k.len() implies !removed_at(k, false, i) by {
        lemma_decision_kind(k, i);
        let kk = carrier_kind(k[i] as u32);
        assert(kk is None || kk == Some(CarrierKind::ExoticSpace));
    }
    lemma_nothing_removed(k, k.len() as int);
    assert(k.take(k.len() as int) =~= k);
    lemma_nothing_recorded(k, byte_base, k.len() as int);
    lemma_no_kind_entries(k, 9);
}


// ---------------------------------------------------------------------------
// Sanitizing a file.
// ---------------------------------------------------------------------------

/// A request to sanitize one file.
#[derive(Debug)]
pub struct SanitizeRequest {
    pub input: String,
    pub output: Option<String>,
    pub in_place: bool,
    pub dry_run: bool,
    pub force: bool,
    pub max_bytes: u64,
    pub options: SanitizeOptions,
}

/// `std::path::Path` considers the two paths equal (component-wise).
pub uninterp spec fn same_path(a: Seq<char>, b: Seq<char>) -> bool;

/// Calls `PartialEq::eq` on `std::path::Path`s; the result is named by
/// `same_path`, and equal strings name equal paths.
#[verifier::external_body]
pub(crate) fn paths_equal(a: &str, b: &str) -> (equal: bool)
    ensures
        equal == same_path(a@, b@),
        a@ == b@ ==> equal,
{
    std::path::Path::new(a) == std::path::Path::new(b)
}

/// The error, if any, of a request's combination of write modes.
pub open spec fn request_error(request: SanitizeRequest) -> Option<Seq<char>> {
    if request.dry_run {
        if request.output is Some || request.in_place {
            Some("--dry-run cannot be combined with --output or --in-place"@)
        } else {
            None
        }
    } else if request.in_place == request.output is Some {
        Some("choose exactly one of --output or --in-place (or use --dry-run)"@)
    } else if request.output is Some && same_path(request.output->0@, request.input@) {
        Some("use --in-place when the output path equals the input path"@)
    } else {
        None
    }
}

/// Checks that exactly one write mode is chosen: `--dry-run`, `--in-place`,
/// or `--output` with a path other than the input.
pub fn validate_request(request: &SanitizeRequest) -> (result: Result<(), String>)
    ensures
        match result {
            Ok(()) => request_error(*request) is None,
            Err(message) => request_error(*request) == Some(message@),
        },
{
    if request.dry_run {
        if request.output.is_some() || request.in_place {
            return Err(owned("--dry-run cannot be combined with --output or --in-place"));
        }
        return Ok(());
    }
    if request.in_place == request.output.is_some() {
        return Err(owned("choose exactly one of --output or --in-place (or use --dry-run)"));
    }
    match &request.output {
        Some(output) => {
            if paths_equal(output.as_str(), request.input.as_str()) {
                return Err(owned("use --in-place when the output path equals the input path"));
            }
        },
        None => {},
    }
    Ok(())
}

/// What the file system says of the input file.
pub enum InputProbe {
    /// Its metadata could not be read; the message describes why.
    MetadataFailed(String),
    /// It exists but is not a regular file.
    NotAFile,
    /// Its size, and its content unless the size exceeds the limit.
    Stat { len: u64, contents: ReadOutcome },
}

/// The file writes that carry out a sanitation.
pub enum WriteAction {
    /// Nothing is written.
    Nothing,
    /// The text is written to `path`; an existing file is replaced only with `force`.
    WriteOutput { path: String, force: bool },
    /// The input is copied to `backup`, which must not exist yet, then replaced by the text.
    InPlace { input: String, backup: String },
}

/// The report of a sanitation.
#[derive(Debug)]
pub struct SanitizeReport {
    pub schema_version: u32,
    pub tool: &'static str,
    pub version: &'static str,
    pub input_path: String,
    pub output_path: Option<String>,
    pub backup_path: Option<String>,
    pub dry_run: bool,
    pub changed: bool,
    pub input_bytes: usize,
    pub output_bytes: usize,
    pub options: SanitizeOptions,
    pub stats: SanitizeStats,
    pub operations: Vec<SanitizeOperation>,
    pub operations_truncated: usize,
    pub note: &'static str,
}

/// A sanitation ready to be carried out: its report, the sanitized text, and the writes.
pub struct SanitizePlan {
    pub report: SanitizeReport,
    pub text: String,
    pub action: WriteAction,
}

/// The backup of an in-place sanitation: the input path with `.bak` appended.
fn backup_name(input: &str) -> (backup: String)
    ensures
        backup@ == input@ + ".bak"@,
{
    let mut backup = owned(input);
    push_str(&mut backup, ".bak");
    backup
}

/// The refusal, if any, to carry out an in-place write: an existing backup is
/// never overwritten.
pub fn backup_conflict(backup: &str, backup_exists: bool) -> (refusal: Option<String>)
    ensures
        backup_exists ==> (refusal matches Some(message) && message@ == "refusing to overwrite existing backup: "@
            + backup@),
        !backup_exists ==> refusal is None,
{
    if backup_exists {
        let mut message = owned("refusing to overwrite existing backup: ");
        push_str(&mut message, backup);
        Some(message)
    } else {
        None
    }
}

/// The note attached to every sanitation report.
pub const SANITIZE_NOTE: &'static str =
    "Deterministic Unicode/text sanitation only; statistical watermark status remains indeterminate.";

/// The error, if any, that stops the sanitation of a validated request before any write.
pub open spec fn input_error(request: SanitizeRequest, probe: InputProbe) -> Option<Seq<char>> {
    match probe {
        InputProbe::MetadataFailed(message) => Some("could not read input metadata: "@ + message@),
        InputProbe::NotAFile => Some("input is not a regular file"@),
        InputProbe::Stat { len, contents } => if len > request.max_bytes {
            Some("input exceeds --max-bytes ("@ + decimal(len as nat) + " > "@ + decimal(request.max_bytes as nat) + ")"@)
        } else {
            match contents {
                ReadOutcome::Failed(message) => Some("could not read input: "@ + message@),
                ReadOutcome::Bytes(bytes) => if binary_sample(bytes@) {
                    Some("input looks binary (NUL byte in initial sample)"@)
                } else if !valid_utf8(bytes@) {
                    Some("input is not valid UTF-8 at byte "@ + decimal(valid_prefix_len(bytes@, bytes@.len() as int) as nat))
                } else {
                    None
                },
                ReadOutcome::NotRead => Some(Seq::empty()),
            }
        },
    }
}

/// The probe can be sanitized: within the limit it was read, and its length
/// leaves room for byte offsets.
pub open spec fn input_probe_ok(request: SanitizeRequest, probe: InputProbe) -> bool {
    match probe {
        InputProbe::Stat { len, contents } => match contents {
            ReadOutcome::NotRead => len > request.max_bytes,
            ReadOutcome::Bytes(bytes) => bytes@.len() < usize::MAX,
            _ => true,
        },
        _ => true,
    }
}

/// The sanitized characters of valid input bytes.
pub open spec fn sanitized_chars(bytes: Seq<u8>, strip: bool) -> Seq<char> {
    let t = decode_utf8(bytes);
    kept_chars(t, strip, t.len() as int)
}

/// Sanitizes the input of a request from what the file system gave: the
/// error of the request or of the input, or the plan of writes and the report.
pub fn sanitize_file(request: &SanitizeRequest, probe: InputProbe) -> (result: Result<SanitizePlan, String>)
    requires
        input_probe_ok(*request, probe),
    ensures
        request_error(*request) is Some ==> result == Err::<SanitizePlan, String>(result->Err_0)
            && request_error(*request) == Some(result->Err_0@),
        request_error(*request) is None && input_error(*request, probe) is Some ==> result is Err
            && input_error(*request, probe) == Some(result->Err_0@),
        request_error(*request) is None && input_error(*request, probe) is None ==> result is Ok && {
            let plan = result->Ok_0;
            let bytes = probe->Stat_contents->Bytes_0@;
            let t = decode_utf8(bytes);
            let strip = request.options.strip_trailing_whitespace;
            let out = sanitized_chars(bytes, strip);
            let changed = encode_utf8(out) != bytes;
            &&& plan.text@ == out
            &&& plan.report.schema_version == 1
            &&& plan.report.tool == "wmtext"
            &&& plan.report.input_path@ == request.input@
            &&& plan.report.dry_run == request.dry_run
            &&& plan.report.changed == changed
            &&& plan.report.input_bytes == bytes.len()
            &&& plan.report.output_bytes == encode_utf8(out).len()
            &&& plan.report.stats.input_char_count == t.len()
            &&& plan.report.stats.output_char_count == out.len()
            &&& plan.report.stats.removed_count == removal_operations(t, 0, strip, t.len() as int).len()
            &&& plan.report.stats.removed_by_kind@ == kind_entries(t, strip, 9)
            &&& operation_views(plan.report.operations@) == capped(
                removal_operations(t, 0, strip, t.len() as int),
                MAX_RECORDED_OPERATIONS as int,
            )
            &&& plan.report.operations_truncated == overflow(
                removal_operations(t, 0, strip, t.len() as int),
                MAX_RECORDED_OPERATIONS as int,
            )
            &&& plan.report.note == SANITIZE_NOTE
            &&& if request.dry_run {
                &&& plan.action is Nothing
                &&& plan.report.output_path is None
                &&& plan.report.backup_path is None
            } else if request.in_place {
                &&& plan.report.output_path == Some(request.input)
                &&& if changed {
                    &&& plan.action matches WriteAction::InPlace { input, backup }
                    &&& input@ == request.input@
                    &&& backup@ == request.input@ + ".bak"@
                    &&& plan.report.backup_path matches Some(b) && b@ == backup@
                } else {
                    &&& plan.action is Nothing
                    &&& plan.report.backup_path is None
                }
            } else {
                &&& plan.action matches WriteAction::WriteOutput { path, force }
                &&& path@ == request.output->0@
                &&& force == request.force
                &&& plan.report.output_path == request.output
                &&& plan.report.backup_path is None
            }
        },
{
    match validate_request(request) {
        Err(message) => {
            return Err(message);
        },
        Ok(()) => {},
    }
    let (len, contents) = match probe {
        InputProbe::MetadataFailed(message) => {
            let mut text = owned("could not read input metadata: ");
            push_str(&mut text, message.as_str());
            return Err(text);
        },
        InputProbe::NotAFile => {
            return Err(owned("input is not a regular file"));
        },
        InputProbe::Stat { len, contents } => (len, contents),
    };
    if len > request.max_bytes {
        let mut text = owned("input exceeds --max-bytes (");
        push_decimal(&mut text, len);
        push_str(&mut text, " > ");
        push_decimal(&mut text, request.max_bytes);
        push_str(&mut text, ")");
        return Err(text);
    }
    let bytes = match contents {
        ReadOutcome::NotRead => {
            return Err(String::new());
        },
        ReadOutcome::Failed(message) => {
            let mut text = owned("could not read input: ");
            push_str(&mut text, message.as_str());
            return Err(text);
        },
        ReadOutcome::Bytes(bytes) => bytes,
    };
    if looks_binary(bytes.as_slice()) {
        return Err(owned("input looks binary (NUL byte in initial sample)"));
    }
    let text = match crate::text::utf8_decode(bytes.as_slice()) {
        Err(valid_up_to) => {
            proof {
                crate::scanner::lemma_valid_prefix_len_pub(bytes@, valid_up_to as int, bytes@.len() as int);
            }
            let mut message = owned("input is not valid UTF-8 at byte ");
            push_decimal(&mut message, valid_up_to as u64);
            return Err(message);
        },
        Ok(text) => text,
    };
    let ghost t = text@;
    proof {
        crate::text::lemma_decoded_len(bytes@);
        lemma_removal_offsets_fit(t, request.options.strip_trailing_whitespace);
    }
    let result = sanitize_text(text.as_str(), 0, request.options);
    let output_bytes = crate::text::utf8_byte_len(result.text.as_str());
    let changed = !(result.text == text);
    proof {
        let out = result.text@;
        vstd::utf8::decode_utf8_encode_utf8(bytes@);
        vstd::utf8::encode_utf8_decode_utf8(out);
        if encode_utf8(out) == bytes@ {
            assert(out == decode_utf8(bytes@));
        }
    }
    let mut output_path: Option<String> = None;
    let mut backup_path: Option<String> = None;
    let mut action = WriteAction::Nothing;
    if !request.dry_run {
        if request.in_place {
            if changed {
                let backup = backup_name(request.input.as_str());
                backup_path = Some(backup.clone());
                action = WriteAction::InPlace { input: request.input.clone(), backup };
            }
            output_path = Some(request.input.clone());
        } else {
            match &request.output {
                Some(path) => {
                    action = WriteAction::WriteOutput { path: path.clone(), force: request.force };
                    output_path = Some(path.clone());
                },
                None => {},
            }
        }
    }
    let report = SanitizeReport {
        schema_version: 1,
        tool: "wmtext",
        version: crate::model::TOOL_VERSION,
        input_path: request.input.clone(),
        output_path,
        backup_path,
        dry_run: request.dry_run,
        changed,
        input_bytes: bytes.len(),
        output_bytes,
        options: request.options,
        stats: result.stats,
        operations: result.operations,
        operations_truncated: result.operations_truncated,
        note: SANITIZE_NOTE,
    };
    Ok(SanitizePlan { report, text: result.text, action })
}

} // verus!
