//! Context-aware classification of every character of a text.
//!
//! Each character receives a [`CharDecision`]: which carrier of hidden
//! content it is (if any), whether it should be kept or removed, and whether
//! its surroundings make it legitimate.

use vstd::prelude::*;

verus! {

/// The families of characters that can carry hidden or display-altering content.
#[derive(Clone, Copy, Debug, PartialEq, Eq, Structural)]
pub enum CarrierKind {
    SoftHyphen,
    FormatControl,
    Bidi,
    Joiner,
    Tag,
    VariationSelector,
    ScriptFormat,
    PrivateUse,
    ExoticSpace,
}

impl CarrierKind {
    /// The stable machine-readable name of the kind.
    #[verifier::allow_in_spec]
    pub fn label(self) -> &'static str
        returns
            match self {
                CarrierKind::SoftHyphen => "soft_hyphen",
                CarrierKind::FormatControl => "format_control",
                CarrierKind::Bidi => "bidi",
                CarrierKind::Joiner => "joiner",
                CarrierKind::Tag => "tag_character",
                CarrierKind::VariationSelector => "variation_selector",
                CarrierKind::ScriptFormat => "script_format",
                CarrierKind::PrivateUse => "private_use",
                CarrierKind::ExoticSpace => "exotic_space",
            },
    {
        match self {
            CarrierKind::SoftHyphen => "soft_hyphen",
            CarrierKind::FormatControl => "format_control",
            CarrierKind::Bidi => "bidi",
            CarrierKind::Joiner => "joiner",
            CarrierKind::Tag => "tag_character",
            CarrierKind::VariationSelector => "variation_selector",
            CarrierKind::ScriptFormat => "script_format",
            CarrierKind::PrivateUse => "private_use",
            CarrierKind::ExoticSpace => "exotic_space",
        }
    }
}

/// Whether a character should stay in sanitized text.
#[derive(Clone, Copy, Debug, PartialEq, Eq, Structural)]
pub enum RecommendedAction {
    Keep,
    Remove,
}

/// The classification of one character in its context.
#[derive(Clone, Copy, Debug, PartialEq, Eq)]
pub struct CharDecision {
    pub kind: Option<CarrierKind>,
    pub action: RecommendedAction,
    pub contextually_valid: bool,
    pub reason: &'static str,
}

impl CharDecision {
    /// A character that is no carrier at all.
    #[verifier::allow_in_spec]
    pub fn ordinary() -> Self
        returns
            (CharDecision {
                kind: None,
                action: RecommendedAction::Keep,
                contextually_valid: true,
                reason: "ordinary text",
            }),
    {
        CharDecision {
            kind: None,
            action: RecommendedAction::Keep,
            contextually_valid: true,
            reason: "ordinary text",
        }
    }

    /// A carrier whose context makes it legitimate.
    #[verifier::allow_in_spec]
    pub fn preserve(kind: CarrierKind, reason: &'static str) -> Self
        returns
            (CharDecision {
                kind: Some(kind),
                action: RecommendedAction::Keep,
                contextually_valid: true,
                reason,
            }),
    {
        CharDecision { kind: Some(kind), action: RecommendedAction::Keep, contextually_valid: true, reason }
    }

    /// A carrier that is kept but needs a human review.
    #[verifier::allow_in_spec]
    pub fn report_only(kind: CarrierKind, reason: &'static str) -> Self
        returns
            (CharDecision {
                kind: Some(kind),
                action: RecommendedAction::Keep,
                contextually_valid: false,
                reason,
            }),
    {
        CharDecision { kind: Some(kind), action: RecommendedAction::Keep, contextually_valid: false, reason }
    }

    /// A carrier outside any recognized legitimate context.
    #[verifier::allow_in_spec]
    pub fn remove(kind: CarrierKind, reason: &'static str) -> Self
        returns
            (CharDecision {
                kind: Some(kind),
                action: RecommendedAction::Remove,
                contextually_valid: false,
                reason,
            }),
    {
        CharDecision { kind: Some(kind), action: RecommendedAction::Remove, contextually_valid: false, reason }
    }
}

// ---------------------------------------------------------------------------
// Code point predicates.
// ---------------------------------------------------------------------------

/// Characters that bind to the preceding base instead of being a base themselves.
#[verifier::allow_in_spec]
pub fn is_glue(cp: u32) -> bool
    returns
        cp == 0x200C || cp == 0x200D || cp == 0xFE0E || cp == 0xFE0F || (0x180B <= cp
            && cp <= 0x180D) || cp == 0x17B4 || cp == 0x17B5 || cp == 0x115F || cp == 0x1160
            || (0xE0020 <= cp && cp <= 0xE007F) || is_variation_selector(cp),
{
    cp == 0x200C || cp == 0x200D || cp == 0xFE0E || cp == 0xFE0F || (0x180B <= cp && cp
        <= 0x180D) || cp == 0x17B4 || cp == 0x17B5 || cp == 0x115F || cp == 0x1160 || (0xE0020
        <= cp && cp <= 0xE007F) || is_variation_selector(cp)
}

/// Directional marks and isolates.
#[verifier::allow_in_spec]
pub fn is_preservable_bidi(cp: u32) -> bool
    returns
        cp == 0x061C || cp == 0x200E || cp == 0x200F || (0x2066 <= cp && cp <= 0x2069),
{
    cp == 0x061C || cp == 0x200E || cp == 0x200F || (0x2066 <= cp && cp <= 0x2069)
}

/// Every bidirectional formatting character.
#[verifier::allow_in_spec]
pub fn is_bidi(cp: u32) -> bool
    returns
        cp == 0x061C || cp == 0x200E || cp == 0x200F || (0x202A <= cp && cp <= 0x202E) || (0x2066
            <= cp && cp <= 0x206F),
{
    cp == 0x061C || cp == 0x200E || cp == 0x200F || (0x202A <= cp && cp <= 0x202E) || (0x2066
        <= cp && cp <= 0x206F)
}

/// Unicode tag characters.
#[verifier::allow_in_spec]
pub fn is_tag(cp: u32) -> bool
    returns
        0xE0000 <= cp && cp <= 0xE007F,
{
    0xE0000 <= cp && cp <= 0xE007F
}

/// Variation selectors VS1-VS16 and VS17-VS256.
#[verifier::allow_in_spec]
pub fn is_variation_selector(cp: u32) -> bool
    returns
        (0xFE00 <= cp && cp <= 0xFE0F) || (0xE0100 <= cp && cp <= 0xE01EF),
{
    (0xFE00 <= cp && cp <= 0xFE0F) || (0xE0100 <= cp && cp <= 0xE01EF)
}

/// Variation selectors VS17-VS256.
#[verifier::allow_in_spec]
pub fn is_supplementary_variation_selector(cp: u32) -> bool
    returns
        0xE0100 <= cp && cp <= 0xE01EF,
{
    0xE0100 <= cp && cp <= 0xE01EF
}

/// Mongolian free variation selectors.
#[verifier::allow_in_spec]
pub fn is_mongolian_fvs(cp: u32) -> bool
    returns
        0x180B <= cp && cp <= 0x180D,
{
    0x180B <= cp && cp <= 0x180D
}

/// Private-use code points of the BMP and of planes 15 and 16.
#[verifier::allow_in_spec]
pub fn is_private_use(cp: u32) -> bool
    returns
        (0xE000 <= cp && cp <= 0xF8FF) || (0xF0000 <= cp && cp <= 0xFFFFD) || (0x100000 <= cp
            && cp <= 0x10FFFD),
{
    (0xE000 <= cp && cp <= 0xF8FF) || (0xF0000 <= cp && cp <= 0xFFFFD) || (0x100000 <= cp && cp
        <= 0x10FFFD)
}

/// Non-ASCII space characters.
#[verifier::allow_in_spec]
pub fn is_exotic_space(cp: u32) -> bool
    returns
        cp == 0x00A0 || cp == 0x1680 || (0x2000 <= cp && cp <= 0x200A) || cp == 0x202F || cp
            == 0x205F || cp == 0x3000,
{
    cp == 0x00A0 || cp == 0x1680 || (0x2000 <= cp && cp <= 0x200A) || cp == 0x202F || cp
        == 0x205F || cp == 0x3000
}

/// Format characters with an orthographic role in their script.
#[verifier::allow_in_spec]
pub fn is_orthographic_format(cp: u32) -> bool
    returns
        (0x0600 <= cp && cp <= 0x0605) || cp == 0x06DD || cp == 0x070F || (0x0890 <= cp && cp
            <= 0x0891) || cp == 0x08E2 || cp == 0x110BD || cp == 0x110CD || (0x13430 <= cp && cp
            <= 0x13455),
{
    (0x0600 <= cp && cp <= 0x0605) || cp == 0x06DD || cp == 0x070F || (0x0890 <= cp && cp
        <= 0x0891) || cp == 0x08E2 || cp == 0x110BD || cp == 0x110CD || (0x13430 <= cp && cp
        <= 0x13455)
}

/// Invisible characters that may be legitimate in typography or notation.
#[verifier::allow_in_spec]
pub fn is_ambiguous_format(cp: u32) -> bool
    returns
        cp == 0x034F || cp == 0x180E || cp == 0x200B || (0x2060 <= cp && cp <= 0x2064) || cp
            == 0xFEFF || (0xFFF9 <= cp && cp <= 0xFFFB) || (0x1BCA0 <= cp && cp <= 0x1BCA3) || (
        0x1D173 <= cp && cp <= 0x1D17A),
{
    cp == 0x034F || cp == 0x180E || cp == 0x200B || (0x2060 <= cp && cp <= 0x2064) || cp
        == 0xFEFF || (0xFFF9 <= cp && cp <= 0xFFFB) || (0x1BCA0 <= cp && cp <= 0x1BCA3) || (
    0x1D173 <= cp && cp <= 0x1D17A)
}

/// C0 and C1 controls other than tab, line feed and carriage return.
#[verifier::allow_in_spec]
pub fn is_unexpected_control(cp: u32) -> bool
    returns
        (cp <= 0x001F || (0x007F <= cp && cp <= 0x009F)) && !(cp == 0x0009 || cp == 0x000A || cp
            == 0x000D),
{
    (cp <= 0x001F || (0x007F <= cp && cp <= 0x009F)) && !(cp == 0x0009 || cp == 0x000A || cp
        == 0x000D)
}

/// Code points that can start an emoji presentation or sequence.
#[verifier::allow_in_spec]
pub fn is_emoji_base(cp: u32) -> bool
    returns
        (0x1F000 <= cp && cp <= 0x1FAFF) || (0x2190 <= cp && cp <= 0x27BF) || (0x2B00 <= cp && cp
            <= 0x2BFF) || cp == 0x00A9 || cp == 0x00AE || cp == 0x2122 || cp == 0x3030 || cp
            == 0x303D || cp == 0x3297 || cp == 0x3299 || cp == 0x0023 || cp == 0x002A || (0x0030
            <= cp && cp <= 0x0039),
{
    (0x1F000 <= cp && cp <= 0x1FAFF) || (0x2190 <= cp && cp <= 0x27BF) || (0x2B00 <= cp && cp
        <= 0x2BFF) || cp == 0x00A9 || cp == 0x00AE || cp == 0x2122 || cp == 0x3030 || cp
        == 0x303D || cp == 0x3297 || cp == 0x3299 || cp == 0x0023 || cp == 0x002A || (0x0030
        <= cp && cp <= 0x0039)
}

/// CJK unified and compatibility ideographs.
#[verifier::allow_in_spec]
pub fn is_cjk_ideograph(cp: u32) -> bool
    returns
        (0x3400 <= cp && cp <= 0x4DBF) || (0x4E00 <= cp && cp <= 0x9FFF) || (0xF900 <= cp && cp
            <= 0xFAFF) || (0x20000 <= cp && cp <= 0x323AF),
{
    (0x3400 <= cp && cp <= 0x4DBF) || (0x4E00 <= cp && cp <= 0x9FFF) || (0xF900 <= cp && cp
        <= 0xFAFF) || (0x20000 <= cp && cp <= 0x323AF)
}

/// The Mongolian block.
#[verifier::allow_in_spec]
pub fn is_mongolian_base(cp: u32) -> bool
    returns
        0x1800 <= cp && cp <= 0x18AF,
{
    0x1800 <= cp && cp <= 0x18AF
}

/// Mongolian letters.
#[verifier::allow_in_spec]
pub fn is_mongolian_letter(cp: u32) -> bool
    returns
        (0x1820 <= cp && cp <= 0x1878) || (0x1880 <= cp && cp <= 0x1884) || (0x1887 <= cp && cp
            <= 0x18A8),
{
    (0x1820 <= cp && cp <= 0x1878) || (0x1880 <= cp && cp <= 0x1884) || (0x1887 <= cp && cp
        <= 0x18A8)
}

/// Khmer consonants and independent vowels.
#[verifier::allow_in_spec]
pub fn is_khmer_letter(cp: u32) -> bool
    returns
        (0x1780 <= cp && cp <= 0x17A2) || (0x17A5 <= cp && cp <= 0x17B3),
{
    (0x1780 <= cp && cp <= 0x17A2) || (0x17A5 <= cp && cp <= 0x17B3)
}

/// Hangul conjoining jamo.
#[verifier::allow_in_spec]
pub fn is_hangul_jamo(cp: u32) -> bool
    returns
        (0x1100 <= cp && cp <= 0x11FF) || (0xA960 <= cp && cp <= 0xA97C) || (0xD7B0 <= cp && cp
            <= 0xD7C6),
{
    (0x1100 <= cp && cp <= 0x11FF) || (0xA960 <= cp && cp <= 0xA97C) || (0xD7B0 <= cp && cp
        <= 0xD7C6)
}


/// Whether `c` has the Unicode `Alphabetic` property, as `char::is_alphabetic` reports it.
pub uninterp spec fn alphabetic(c: char) -> bool;

/// Calls `char::is_alphabetic`; the result is named by `alphabetic`, and nothing
/// more is stated of it (the property table is Unicode's, not restated here).
#[verifier::external_body]
pub(crate) fn char_is_alphabetic(c: char) -> (b: bool)
    ensures
        b == alphabetic(c),
{
    c.is_alphabetic()
}

/// Letters and combining marks of scripts whose joiners can be load-bearing.
#[verifier::allow_in_spec]
pub fn is_joining_letter_or_mark(ch: char) -> bool
    returns
        alphabetic(ch) || {
            let cp = ch as u32;
            (0x0610 <= cp && cp <= 0x061A) || (0x064B <= cp && cp <= 0x065F) || cp == 0x0670 || (
            0x06D6 <= cp && cp <= 0x06ED) || (0x08D3 <= cp && cp <= 0x08FF) || (0x0900 <= cp && cp
                <= 0x0903) || (0x093A <= cp && cp <= 0x094D) || (0x0951 <= cp && cp <= 0x0957) || (
            0x0962 <= cp && cp <= 0x0963) || (0x0981 <= cp && cp <= 0x0983) || cp == 0x09BC || (
            0x09BE <= cp && cp <= 0x09CD) || cp == 0x09D7 || (0x09E2 <= cp && cp <= 0x09E3) || (
            0x0A01 <= cp && cp <= 0x0A03) || cp == 0x0A3C || (0x0A3E <= cp && cp <= 0x0A4D) || (
            0x0A81 <= cp && cp <= 0x0A83) || cp == 0x0ABC || (0x0ABE <= cp && cp <= 0x0ACD) || (
            0x0B01 <= cp && cp <= 0x0B03) || cp == 0x0B3C || (0x0B3E <= cp && cp <= 0x0B4D) || (
            0x0BBE <= cp && cp <= 0x0BCD) || (0x0C00 <= cp && cp <= 0x0C04) || (0x0C3C <= cp && cp
                <= 0x0C56) || (0x0C81 <= cp && cp <= 0x0C83) || (0x0CBC <= cp && cp <= 0x0CCD) || (
            0x0D00 <= cp && cp <= 0x0D03) || (0x0D3B <= cp && cp <= 0x0D4D) || (0x0F18 <= cp && cp
                <= 0x0F19) || cp == 0x0F35 || cp == 0x0F37 || cp == 0x0F39 || (0x0F71 <= cp && cp
                <= 0x0F84) || (0x1780 <= cp && cp <= 0x17D3) || (0x180B <= cp && cp <= 0x180D) || (
            0x1885 <= cp && cp <= 0x1886) || cp == 0x18A9
        },
{
    if char_is_alphabetic(ch) {
        return true;
    }
    let cp = ch as u32;
    (0x0610 <= cp && cp <= 0x061A) || (0x064B <= cp && cp <= 0x065F) || cp == 0x0670 || (0x06D6
        <= cp && cp <= 0x06ED) || (0x08D3 <= cp && cp <= 0x08FF) || (0x0900 <= cp && cp <= 0x0903)
        || (0x093A <= cp && cp <= 0x094D) || (0x0951 <= cp && cp <= 0x0957) || (0x0962 <= cp && cp
        <= 0x0963) || (0x0981 <= cp && cp <= 0x0983) || cp == 0x09BC || (0x09BE <= cp && cp
        <= 0x09CD) || cp == 0x09D7 || (0x09E2 <= cp && cp <= 0x09E3) || (0x0A01 <= cp && cp
        <= 0x0A03) || cp == 0x0A3C || (0x0A3E <= cp && cp <= 0x0A4D) || (0x0A81 <= cp && cp
        <= 0x0A83) || cp == 0x0ABC || (0x0ABE <= cp && cp <= 0x0ACD) || (0x0B01 <= cp && cp
        <= 0x0B03) || cp == 0x0B3C || (0x0B3E <= cp && cp <= 0x0B4D) || (0x0BBE <= cp && cp
        <= 0x0BCD) || (0x0C00 <= cp && cp <= 0x0C04) || (0x0C3C <= cp && cp <= 0x0C56) || (0x0C81
        <= cp && cp <= 0x0C83) || (0x0CBC <= cp && cp <= 0x0CCD) || (0x0D00 <= cp && cp <= 0x0D03)
        || (0x0D3B <= cp && cp <= 0x0D4D) || (0x0F18 <= cp && cp <= 0x0F19) || cp == 0x0F35 || cp
        == 0x0F37 || cp == 0x0F39 || (0x0F71 <= cp && cp <= 0x0F84) || (0x1780 <= cp && cp
        <= 0x17D3) || (0x180B <= cp && cp <= 0x180D) || (0x1885 <= cp && cp <= 0x1886) || cp
        == 0x18A9
}

/// The joining script (Arabic, Indic, Tibetan/Myanmar, Khmer, Mongolian) of a
/// letter or mark, numbered 1 to 5; `None` for anything else.
#[verifier::allow_in_spec]
pub fn joining_script(ch: char) -> Option<u8>
    returns
        if !is_joining_letter_or_mark(ch) {
            None
        } else {
            let cp = ch as u32;
            if 0x0600 <= cp && cp <= 0x08FF {
                Some(1u8)
            } else if 0x0900 <= cp && cp <= 0x0DFF {
                Some(2u8)
            } else if 0x0F00 <= cp && cp <= 0x109F {
                Some(3u8)
            } else if 0x1780 <= cp && cp <= 0x17FF {
                Some(4u8)
            } else if 0x1800 <= cp && cp <= 0x18AF {
                Some(5u8)
            } else {
                None
            }
        },
{
    if !is_joining_letter_or_mark(ch) {
        return None;
    }
    let cp = ch as u32;
    if 0x0600 <= cp && cp <= 0x08FF {
        Some(1)
    } else if 0x0900 <= cp && cp <= 0x0DFF {
        Some(2)
    } else if 0x0F00 <= cp && cp <= 0x109F {
        Some(3)
    } else if 0x1780 <= cp && cp <= 0x17FF {
        Some(4)
    } else if 0x1800 <= cp && cp <= 0x18AF {
        Some(5)
    } else {
        None
    }
}

/// Both neighbours of a joiner are letters or marks of one joining script.
pub open spec fn same_joining_script(previous_input: Option<char>, next_input: Option<char>) -> bool {
    match (previous_input, next_input) {
        (Some(p), Some(n)) => joining_script(p) is Some && joining_script(n) == joining_script(p),
        _ => false,
    }
}

/// The decision for one character, given the last kept base character before
/// it, its raw neighbours, and whether it lies in a complete subdivision-flag
/// sequence or in a paired legacy bidi embedding.
pub open spec fn decide(
    ch: char,
    previous_base: Option<char>,
    previous_input: Option<char>,
    next_input: Option<char>,
    valid_flag_tag: bool,
    valid_bidi_embedding: bool,
) -> CharDecision {
    let cp = ch as u32;
    if is_unexpected_control(cp) {
        CharDecision::remove(CarrierKind::FormatControl, "unexpected C0/C1 control is embedded in text")
    } else if is_exotic_space(cp) {
        CharDecision::report_only(CarrierKind::ExoticSpace, "non-ASCII space is preserved unless normalization is requested")
    } else if valid_bidi_embedding {
        CharDecision::preserve(CarrierKind::Bidi, "paired legacy bidi embedding is load-bearing")
    } else if is_preservable_bidi(cp) {
        CharDecision::preserve(CarrierKind::Bidi, "directional mark or isolate may be load-bearing in mixed-direction text")
    } else if previous_input is Some && is_supplementary_variation_selector(cp) && is_cjk_ideograph(previous_input->0 as u32) {
        CharDecision::preserve(CarrierKind::VariationSelector, "CJK ideographic variation selector follows an ideograph")
    } else if previous_input is Some && is_mongolian_fvs(cp) && is_mongolian_base(previous_input->0 as u32) {
        CharDecision::preserve(CarrierKind::VariationSelector, "Mongolian variation selector follows a Mongolian base")
    } else if previous_input is Some && 0xFE00 <= cp && cp <= 0xFE0D && is_cjk_ideograph(previous_input->0 as u32) {
        CharDecision::preserve(CarrierKind::VariationSelector, "standardized variation selector follows a CJK ideograph")
    } else if previous_input is Some && (cp == 0xFE0E || cp == 0xFE0F) && is_emoji_base(previous_input->0 as u32) {
        CharDecision::preserve(CarrierKind::VariationSelector, "emoji presentation selector follows an emoji-capable base")
    } else if cp == 0x200D && previous_base is Some && is_emoji_base(previous_base->0 as u32)
        && next_input is Some && is_emoji_base(next_input->0 as u32) {
        CharDecision::preserve(CarrierKind::Joiner, "zero-width joiner connects an emoji sequence")
    } else if (cp == 0x200C || cp == 0x200D) && same_joining_script(previous_input, next_input) {
        CharDecision::preserve(CarrierKind::Joiner, "joiner is between letters or marks from the same joining script")
    } else if is_tag(cp) && valid_flag_tag {
        CharDecision::preserve(CarrierKind::Tag, "tag character belongs to a complete subdivision-flag sequence")
    } else if is_mongolian_fvs(cp) && previous_base is Some && is_mongolian_letter(previous_base->0 as u32) {
        CharDecision::preserve(CarrierKind::VariationSelector, "Mongolian selector remains bound to the preceding letter")
    } else if (cp == 0x17B4 || cp == 0x17B5) && previous_base is Some && is_khmer_letter(previous_base->0 as u32) {
        CharDecision::preserve(CarrierKind::ScriptFormat, "Khmer inherent vowel follows a Khmer letter")
    } else if (cp == 0x115F || cp == 0x1160) && previous_base is Some && is_hangul_jamo(previous_base->0 as u32) {
        CharDecision::preserve(CarrierKind::ScriptFormat, "Hangul filler follows a jamo base")
    } else if is_orthographic_format(cp) {
        CharDecision::preserve(CarrierKind::ScriptFormat, "script-specific format character has an orthographic role")
    } else if is_private_use(cp) {
        CharDecision::report_only(CarrierKind::PrivateUse, "private-use characters have no portable interpretation and require review")
    } else if cp == 0x00AD {
        CharDecision::report_only(CarrierKind::SoftHyphen, "soft hyphen can be legitimate discretionary hyphenation and requires review")
    } else if cp == 0x200C || cp == 0x200D {
        CharDecision::remove(CarrierKind::Joiner, "joiner is not in a recognized emoji or same-script context")
    } else if is_tag(cp) {
        CharDecision::remove(CarrierKind::Tag, "tag character is outside a complete subdivision-flag sequence")
    } else if is_variation_selector(cp) || (0x180B <= cp && cp <= 0x180D) {
        CharDecision::remove(CarrierKind::VariationSelector, "variation selector is not bound to a recognized base")
    } else if is_bidi(cp) {
        CharDecision::remove(CarrierKind::Bidi, "bidi override, deprecated control, or unpaired embedding changes display order")
    } else if cp == 0x115F || cp == 0x1160 || cp == 0x17B4 || cp == 0x17B5 {
        CharDecision::remove(CarrierKind::ScriptFormat, "script-specific invisible is outside a recognized load-bearing context")
    } else if is_ambiguous_format(cp) {
        CharDecision::report_only(CarrierKind::FormatControl, "invisible character can be load-bearing in typography or specialized notation and requires review")
    } else {
        CharDecision::ordinary()
    }
}

fn classify_char(
    ch: char,
    previous_base: Option<char>,
    previous_input: Option<char>,
    next_input: Option<char>,
    valid_flag_tag: bool,
    valid_bidi_embedding: bool,
) -> (d: CharDecision)
    ensures
        d == decide(ch, previous_base, previous_input, next_input, valid_flag_tag, valid_bidi_embedding),
{
    let cp = ch as u32;

    if is_unexpected_control(cp) {
        return CharDecision::remove(CarrierKind::FormatControl, "unexpected C0/C1 control is embedded in text");
    }
    if is_exotic_space(cp) {
        return CharDecision::report_only(CarrierKind::ExoticSpace, "non-ASCII space is preserved unless normalization is requested");
    }
    if valid_bidi_embedding {
        return CharDecision::preserve(CarrierKind::Bidi, "paired legacy bidi embedding is load-bearing");
    }
    if is_preservable_bidi(cp) {
        return CharDecision::preserve(CarrierKind::Bidi, "directional mark or isolate may be load-bearing in mixed-direction text");
    }
    if let Some(previous) = previous_input {
        let previous_cp = previous as u32;
        if is_supplementary_variation_selector(cp) && is_cjk_ideograph(previous_cp) {
            return CharDecision::preserve(CarrierKind::VariationSelector, "CJK ideographic variation selector follows an ideograph");
        }
        if is_mongolian_fvs(cp) && is_mongolian_base(previous_cp) {
            return CharDecision::preserve(CarrierKind::VariationSelector, "Mongolian variation selector follows a Mongolian base");
        }
        if 0xFE00 <= cp && cp <= 0xFE0D && is_cjk_ideograph(previous_cp) {
            return CharDecision::preserve(CarrierKind::VariationSelector, "standardized variation selector follows a CJK ideograph");
        }
        if (cp == 0xFE0E || cp == 0xFE0F) && is_emoji_base(previous_cp) {
            return CharDecision::preserve(CarrierKind::VariationSelector, "emoji presentation selector follows an emoji-capable base");
        }
    }
    if cp == 0x200D {
        if let Some(base) = previous_base {
            if let Some(next) = next_input {
                if is_emoji_base(base as u32) && is_emoji_base(next as u32) {
                    return CharDecision::preserve(CarrierKind::Joiner, "zero-width joiner connects an emoji sequence");
                }
            }
        }
    }
    if cp == 0x200C || cp == 0x200D {
        if let Some(previous) = previous_input {
            if let Some(next) = next_input {
                let script = joining_script(previous);
                if script.is_some() && joining_script(next) == script {
                    return CharDecision::preserve(CarrierKind::Joiner, "joiner is between letters or marks from the same joining script");
                }
            }
        }
    }
    if is_tag(cp) && valid_flag_tag {
        return CharDecision::preserve(CarrierKind::Tag, "tag character belongs to a complete subdivision-flag sequence");
    }
    if let Some(base) = previous_base {
        let base_cp = base as u32;
        if is_mongolian_fvs(cp) && is_mongolian_letter(base_cp) {
            return CharDecision::preserve(CarrierKind::VariationSelector, "Mongolian selector remains bound to the preceding letter");
        }
        if (cp == 0x17B4 || cp == 0x17B5) && is_khmer_letter(base_cp) {
            return CharDecision::preserve(CarrierKind::ScriptFormat, "Khmer inherent vowel follows a Khmer letter");
        }
        if (cp == 0x115F || cp == 0x1160) && is_hangul_jamo(base_cp) {
            return CharDecision::preserve(CarrierKind::ScriptFormat, "Hangul filler follows a jamo base");
        }
    }
    if is_orthographic_format(cp) {
        return CharDecision::preserve(CarrierKind::ScriptFormat, "script-specific format character has an orthographic role");
    }
    if is_private_use(cp) {
        return CharDecision::report_only(CarrierKind::PrivateUse, "private-use characters have no portable interpretation and require review");
    }
    if cp == 0x00AD {
        return CharDecision::report_only(CarrierKind::SoftHyphen, "soft hyphen can be legitimate discretionary hyphenation and requires review");
    }
    if cp == 0x200C || cp == 0x200D {
        return CharDecision::remove(CarrierKind::Joiner, "joiner is not in a recognized emoji or same-script context");
    }
    if is_tag(cp) {
        return CharDecision::remove(CarrierKind::Tag, "tag character is outside a complete subdivision-flag sequence");
    }
    if is_variation_selector(cp) || (0x180B <= cp && cp <= 0x180D) {
        return CharDecision::remove(CarrierKind::VariationSelector, "variation selector is not bound to a recognized base");
    }
    if is_bidi(cp) {
        return CharDecision::remove(CarrierKind::Bidi, "bidi override, deprecated control, or unpaired embedding changes display order");
    }
    if cp == 0x115F || cp == 0x1160 || cp == 0x17B4 || cp == 0x17B5 {
        return CharDecision::remove(CarrierKind::ScriptFormat, "script-specific invisible is outside a recognized load-bearing context");
    }
    if is_ambiguous_format(cp) {
        return CharDecision::report_only(CarrierKind::FormatControl, "invisible character can be load-bearing in typography or specialized notation and requires review");
    }
    CharDecision::ordinary()
}


// ---------------------------------------------------------------------------
// Complete subdivision-flag sequences.
// ---------------------------------------------------------------------------

/// Tag characters that may stand inside a subdivision-flag sequence.
pub open spec fn is_flag_payload(c: char) -> bool {
    0xE0020 <= c as u32 && c as u32 <= 0xE007E
}

/// `t[j]` is a black flag, `t[j+1..k]` is a non-empty run of tag payload
/// characters and `t[k]` is the cancel tag.
pub open spec fn complete_flag(t: Seq<char>, j: int, k: int) -> bool {
    &&& 0 <= j
    &&& j + 1 < k
    &&& k < t.len()
    &&& t[j] as u32 == 0x1F3F4
    &&& t[k] as u32 == 0xE007F
    &&& forall|m: int| j < m < k ==> is_flag_payload(#[trigger] t[m])
}

/// Position `i` is one of the tag characters of a complete subdivision-flag sequence.
pub open spec fn in_complete_flag(t: Seq<char>, i: int) -> bool {
    exists|j: int, k: int| j < i <= k && #[trigger] complete_flag(t, j, k)
}

/// Marks the tag characters that belong to complete subdivision-flag sequences.
fn valid_flag_tag_indices(chars: &Vec<char>) -> (valid: Vec<bool>)
    ensures
        valid.len() == chars.len(),
        forall|i: int| 0 <= i < chars.len() ==> #[trigger] valid[i] == in_complete_flag(chars@, i),
{
    let ghost t = chars@;
    let n = chars.len();
    let mut valid = crate::text::false_mask(n);
    let mut index: usize = 0;
    while index < n
        invariant
            t == chars@,
            n == chars.len(),
            index <= n,
            valid.len() == n,
            forall|p: int| 0 <= p < index ==> #[trigger] valid[p] == in_complete_flag(t, p),
            forall|p: int| index <= p < n ==> !#[trigger] valid[p],
            forall|j: int, k: int| #[trigger] complete_flag(t, j, k) && j < index ==> k < index,
        decreases n - index,
    {
        assert(!in_complete_flag(t, index as int)) by {
            if in_complete_flag(t, index as int) {
                let (j, k) = choose|j: int, k: int| j < index <= k && #[trigger] complete_flag(t, j, k);
            }
        }
        if chars[index] as u32 != 0x1F3F4 {
            index += 1;
            continue;
        }
        let mut cursor: usize = index + 1;
        while cursor < n && 0xE0020 <= chars[cursor] as u32 && chars[cursor] as u32 <= 0xE007E
            invariant
                t == chars@,
                n == chars.len(),
                index < cursor <= n,
                forall|m: int| index < m < cursor ==> is_flag_payload(#[trigger] t[m]),
            decreases n - cursor,
        {
            cursor += 1;
        }
        if cursor > index + 1 && cursor < n && chars[cursor] as u32 == 0xE007F {
            assert(complete_flag(t, index as int, cursor as int));
            let ghost start = index;
            let mut m: usize = index + 1;
            while m <= cursor
                invariant
                    t == chars@,
                    n == chars.len(),
                    valid.len() == n,
                    start < m <= cursor + 1,
                    cursor < n,
                    complete_flag(t, start as int, cursor as int),
                    forall|p: int| 0 <= p <= start ==> #[trigger] valid[p] == in_complete_flag(t, p),
                    forall|p: int| start < p < m ==> #[trigger] valid[p],
                    forall|p: int| m <= p < n ==> !#[trigger] valid[p],
                decreases cursor + 1 - m,
            {
                valid.set(m, true);
                m += 1;
            }
            assert forall|j: int, k: int| #[trigger] complete_flag(t, j, k) && j < cursor + 1 implies k < cursor + 1 by {
                if j == index {
                    if k < cursor {
                        assert(is_flag_payload(t[k]));
                    } else if k > cursor {
                        assert(is_flag_payload(t[cursor as int]));
                    }
                } else if j > index {
                    if j <= cursor {
                        assert(is_flag_payload(t[j]) || j == cursor);
                    }
                }
            }
            assert forall|p: int| 0 <= p < cursor + 1 implies #[trigger] valid[p] == in_complete_flag(t, p) by {
                if start < p {
                    assert(complete_flag(t, start as int, cursor as int));
                }
            }
            index = cursor + 1;
        } else {
            assert forall|j: int, k: int| #[trigger] complete_flag(t, j, k) && j < index + 1 implies k < index + 1 by {
                if j == index {
                    if k < cursor {
                        assert(is_flag_payload(t[k]));
                    } else if k > cursor {
                        assert(is_flag_payload(t[cursor as int]));
                    }
                }
            }
            index += 1;
        }
    }
    valid
}

// ---------------------------------------------------------------------------
// Paired legacy bidi embeddings.
// ---------------------------------------------------------------------------

/// The state of the embedding scan over a prefix of the text: the open
/// embeddings and overrides (code point and position), innermost last, and
/// the positions found to belong to a matched embedding/pop pair.
pub struct BidiScan {
    pub open: Seq<(u32, int)>,
    pub paired: Set<int>,
}

/// Scans `t[0..n]`: LRE, RLE, LRO and RLO open; PDF closes the innermost open
/// one, and the pair counts when that one is an embedding (LRE or RLE).
pub open spec fn bidi_scan(t: Seq<char>, n: int) -> BidiScan
    decreases n,
{
    if n <= 0 {
        BidiScan { open: Seq::empty(), paired: Set::empty() }
    } else {
        let prior = bidi_scan(t, n - 1);
        let cp = t[n - 1] as u32;
        if cp == 0x202A || cp == 0x202B || cp == 0x202D || cp == 0x202E {
            BidiScan { open: prior.open.push((cp, n - 1)), paired: prior.paired }
        } else if cp == 0x202C && prior.open.len() > 0 {
            let (opener, opener_index) = prior.open.last();
            if opener == 0x202A || opener == 0x202B {
                BidiScan {
                    open: prior.open.drop_last(),
                    paired: prior.paired.insert(opener_index).insert(n - 1),
                }
            } else {
                BidiScan { open: prior.open.drop_last(), paired: prior.paired }
            }
        } else {
            prior
        }
    }
}

/// Position `i` is an embedding or its closing pop in a matched pair.
pub open spec fn in_paired_embedding(t: Seq<char>, i: int) -> bool {
    bidi_scan(t, t.len() as int).paired.contains(i)
}

proof fn lemma_bidi_scan_bounds(t: Seq<char>, n: int)
    ensures
        forall|i: int| #[trigger] bidi_scan(t, n).paired.contains(i) ==> 0 <= i < n,
        forall|q: int| 0 <= q < bidi_scan(t, n).open.len() ==> 0 <= #[trigger] bidi_scan(t, n).open[q].1 < n,
    decreases n,
{
    if n > 0 {
        lemma_bidi_scan_bounds(t, n - 1);
        let prior = bidi_scan(t, n - 1);
        let cur = bidi_scan(t, n);
        let cp = t[n - 1] as u32;
        if cp == 0x202A || cp == 0x202B || cp == 0x202D || cp == 0x202E {
            assert(cur.open == prior.open.push((cp, n - 1)));
            assert forall|q: int| 0 <= q < cur.open.len() implies 0 <= #[trigger] cur.open[q].1 < n by {
                if q < prior.open.len() {
                    assert(cur.open[q] == prior.open[q]);
                }
            }
        } else if cp == 0x202C && prior.open.len() > 0 {
            let last = prior.open[prior.open.len() - 1];
            assert(0 <= last.1 < n - 1);
            assert forall|q: int| 0 <= q < cur.open.len() implies 0 <= #[trigger] cur.open[q].1 < n by {
                assert(cur.open[q] == prior.open[q]);
            }
            assert forall|i: int| #[trigger] cur.paired.contains(i) implies 0 <= i < n by {
                if i != n - 1 && i != last.1 {
                    assert(prior.paired.contains(i));
                }
            }
        }
    }
}

/// Marks the LRE/RLE characters and their matching PDF.
fn valid_bidi_embedding_indices(chars: &Vec<char>) -> (valid: Vec<bool>)
    ensures
        valid.len() == chars.len(),
        forall|i: int| 0 <= i < chars.len() ==> #[trigger] valid[i] == in_paired_embedding(chars@, i),
{
    let ghost t = chars@;
    let n = chars.len();
    let mut valid = crate::text::false_mask(n);
    let mut stack: Vec<(u32, usize)> = Vec::new();
    let mut index: usize = 0;
    while index < n
        invariant
            t == chars@,
            n == chars.len(),
            index <= n,
            valid.len() == n,
            stack@.len() == bidi_scan(t, index as int).open.len(),
            forall|q: int| 0 <= q < stack@.len() ==> (#[trigger] stack@[q]).0 == bidi_scan(t, index as int).open[q].0
                && stack@[q].1 as int == bidi_scan(t, index as int).open[q].1,
            forall|p: int| 0 <= p < n ==> #[trigger] valid[p] == bidi_scan(t, index as int).paired.contains(p),
        decreases n - index,
    {
        proof {
            lemma_bidi_scan_bounds(t, index as int);
        }
        let cp = chars[index] as u32;
        if cp == 0x202A || cp == 0x202B || cp == 0x202D || cp == 0x202E {
            stack.push((cp, index));
        } else if cp == 0x202C {
            if stack.len() > 0 {
                let top = stack.pop();
                match top {
                    Some((opener, opener_index)) => {
                        if opener == 0x202A || opener == 0x202B {
                            valid.set(opener_index, true);
                            valid.set(index, true);
                        }
                    }
                    None => {}
                }
            }
        }
        proof {
            let next = bidi_scan(t, index + 1);
            assert(stack@.len() == next.open.len());
        }
        index += 1;
    }
    proof {
        assert forall|i: int| 0 <= i < n implies #[trigger] valid[i] == in_paired_embedding(t, i) by {
            assert(t.len() == n);
        }
    }
    valid
}


// ---------------------------------------------------------------------------
// Whole-text classification.
// ---------------------------------------------------------------------------

/// The decision for `t[i]` in the context of the whole text `t`.
pub open spec fn decision_at(t: Seq<char>, i: int) -> CharDecision
    decreases i, 1int,
{
    decide(
        t[i],
        base_before(t, i),
        if i > 0 { Some(t[i - 1]) } else { None },
        if i + 1 < t.len() { Some(t[i + 1]) } else { None },
        in_complete_flag(t, i),
        in_paired_embedding(t, i),
    )
}

/// The last character before position `i` that is kept and is not glue
/// (a joiner, selector, filler or tag), if any.
pub open spec fn base_before(t: Seq<char>, i: int) -> Option<char>
    decreases i, 0int,
{
    if i <= 0 {
        None
    } else if decision_at(t, i - 1).action == RecommendedAction::Keep && !is_glue(t[i - 1] as u32) {
        Some(t[i - 1])
    } else {
        base_before(t, i - 1)
    }
}

/// The decisions for every character of `t`, in order.
pub open spec fn classify_spec(t: Seq<char>) -> Seq<CharDecision> {
    Seq::new(t.len(), |i: int| decision_at(t, i))
}

/// Classifies every character of `chars` in its context.
pub fn classify_chars(chars: &Vec<char>) -> (decisions: Vec<CharDecision>)
    ensures
        decisions@ == classify_spec(chars@),
{
    let ghost t = chars@;
    let n = chars.len();
    let valid_flag_tags = valid_flag_tag_indices(chars);
    let valid_bidi_embeddings = valid_bidi_embedding_indices(chars);
    let mut decisions: Vec<CharDecision> = Vec::new();
    let mut previous_base: Option<char> = None;
    let mut index: usize = 0;
    while index < n
        invariant
            t == chars@,
            n == chars.len(),
            index <= n,
            valid_flag_tags.len() == n,
            valid_bidi_embeddings.len() == n,
            forall|i: int| 0 <= i < n ==> #[trigger] valid_flag_tags[i] == in_complete_flag(t, i),
            forall|i: int| 0 <= i < n ==> #[trigger] valid_bidi_embeddings[i] == in_paired_embedding(t, i),
            decisions.len() == index,
            forall|i: int| 0 <= i < index ==> #[trigger] decisions[i] == decision_at(t, i),
            previous_base == base_before(t, index as int),
        decreases n - index,
    {
        let ch = chars[index];
        let previous_input = if index > 0 { Some(chars[index - 1]) } else { None };
        let next_input = if index + 1 < n { Some(chars[index + 1]) } else { None };
        let decision = classify_char(
            ch,
            previous_base,
            previous_input,
            next_input,
            valid_flag_tags[index],
            valid_bidi_embeddings[index],
        );
        assert(decision == decision_at(t, index as int));
        if decision.action == RecommendedAction::Keep && !is_glue(ch as u32) {
            previous_base = Some(ch);
        }
        decisions.push(decision);
        index += 1;
    }
    assert(decisions@ =~= classify_spec(t));
    decisions
}

/// Classifies every character of `text` in its context.
pub fn classify_text(text: &str) -> (decisions: Vec<CharDecision>)
    ensures
        decisions@ == classify_spec(text@),
{
    let chars = crate::text::chars_of(text);
    classify_chars(&chars)
}

// ---------------------------------------------------------------------------
// Properties of the classification.
// ---------------------------------------------------------------------------

/// The carrier kind of a code point, independent of its context.
pub open spec fn carrier_kind(cp: u32) -> Option<CarrierKind> {
    if is_unexpected_control(cp) {
        Some(CarrierKind::FormatControl)
    } else if is_exotic_space(cp) {
        Some(CarrierKind::ExoticSpace)
    } else if is_bidi(cp) {
        Some(CarrierKind::Bidi)
    } else if is_variation_selector(cp) || is_mongolian_fvs(cp) {
        Some(CarrierKind::VariationSelector)
    } else if cp == 0x200C || cp == 0x200D {
        Some(CarrierKind::Joiner)
    } else if is_tag(cp) {
        Some(CarrierKind::Tag)
    } else if cp == 0x17B4 || cp == 0x17B5 || cp == 0x115F || cp == 0x1160 || is_orthographic_format(cp) {
        Some(CarrierKind::ScriptFormat)
    } else if is_private_use(cp) {
        Some(CarrierKind::PrivateUse)
    } else if cp == 0x00AD {
        Some(CarrierKind::SoftHyphen)
    } else if is_ambiguous_format(cp) {
        Some(CarrierKind::FormatControl)
    } else {
        None
    }
}

/// The kind a character is classified as depends on its code point alone:
/// context only decides whether it is kept and whether it is legitimate.
pub proof fn lemma_kind_depends_on_code_point_only(
    ch: char,
    previous_base: Option<char>,
    previous_input: Option<char>,
    next_input: Option<char>,
    valid_flag_tag: bool,
    valid_bidi_embedding: bool,
)
    requires
        valid_bidi_embedding ==> 0x202A <= ch as u32 <= 0x202C,
    ensures
        decide(ch, previous_base, previous_input, next_input, valid_flag_tag, valid_bidi_embedding).kind
            == carrier_kind(ch as u32),
{
}

/// Every open entry records the code point at its position, and only LRE,
/// RLE and PDF can belong to a matched embedding pair.
proof fn lemma_bidi_scan_code_points(t: Seq<char>, n: int)
    requires
        0 <= n <= t.len(),
    ensures
        forall|q: int| 0 <= q < bidi_scan(t, n).open.len() ==> {
            let e = #[trigger] bidi_scan(t, n).open[q];
            0 <= e.1 < n && t[e.1] as u32 == e.0
        },
        forall|i: int| #[trigger] bidi_scan(t, n).paired.contains(i) ==> 0 <= i < n && 0x202A
            <= t[i] as u32 <= 0x202C,
    decreases n,
{
    if n > 0 {
        lemma_bidi_scan_code_points(t, n - 1);
        let prior = bidi_scan(t, n - 1);
        let cur = bidi_scan(t, n);
        let cp = t[n - 1] as u32;
        if cp == 0x202A || cp == 0x202B || cp == 0x202D || cp == 0x202E {
            assert forall|q: int| 0 <= q < cur.open.len() implies {
                let e = #[trigger] cur.open[q];
                0 <= e.1 < n && t[e.1] as u32 == e.0
            } by {
                if q < prior.open.len() {
                    assert(cur.open[q] == prior.open[q]);
                }
            }
        } else if cp == 0x202C && prior.open.len() > 0 {
            let last = prior.open[prior.open.len() - 1];
            assert(0 <= last.1 < n - 1 && t[last.1] as u32 == last.0);
            assert forall|q: int| 0 <= q < cur.open.len() implies {
                let e = #[trigger] cur.open[q];
                0 <= e.1 < n && t[e.1] as u32 == e.0
            } by {
                assert(cur.open[q] == prior.open[q]);
            }
            assert forall|i: int| #[trigger] cur.paired.contains(i) implies 0 <= i < n && 0x202A
                <= t[i] as u32 <= 0x202C by {
                if i != n - 1 && i != last.1 {
                    assert(prior.paired.contains(i));
                }
            }
        }
    }
}

/// The decision for a character of a text has the kind of its code point.
pub proof fn lemma_decision_kind(t: Seq<char>, i: int)
    requires
        0 <= i < t.len(),
    ensures
        decision_at(t, i).kind == carrier_kind(t[i] as u32),
{
    lemma_bidi_scan_code_points(t, t.len() as int);
    if in_paired_embedding(t, i) {
        assert(0x202A <= t[i] as u32 <= 0x202C);
    }
    lemma_kind_depends_on_code_point_only(
        t[i],
        base_before(t, i),
        if i > 0 { Some(t[i - 1]) } else { None },
        if i + 1 < t.len() { Some(t[i + 1]) } else { None },
        in_complete_flag(t, i),
        in_paired_embedding(t, i),
    );
}

/// A zero-width joiner or non-joiner between two characters of the same
/// joining script (as in Persian or Devanagari words) is a joiner kept as
/// legitimate.
pub proof fn lemma_same_script_joiners_are_kept(t: Seq<char>, i: int)
    requires
        0 < i < t.len() - 1,
        t[i] as u32 == 0x200C || t[i] as u32 == 0x200D,
        joining_script(t[i - 1]) is Some,
        joining_script(t[i + 1]) == joining_script(t[i - 1]),
    ensures
        decision_at(t, i).kind == Some(CarrierKind::Joiner),
        decision_at(t, i).action == RecommendedAction::Keep,
        decision_at(t, i).contextually_valid,
        classify_spec(t)[i] == decision_at(t, i),
{
    lemma_bidi_scan_code_points(t, t.len() as int);
    if in_paired_embedding(t, i) {
        assert(0x202A <= t[i] as u32 <= 0x202C);
    }
    assert(same_joining_script(Some(t[i - 1]), Some(t[i + 1])));
}

/// A zero-width joiner after an emoji-capable base (the last kept base
/// character before it) and before another is part of an emoji sequence: kept
/// as legitimate.
pub proof fn lemma_emoji_joiners_are_kept(t: Seq<char>, i: int)
    requires
        0 <= i < t.len() - 1,
        t[i] as u32 == 0x200D,
        base_before(t, i) is Some,
        is_emoji_base(base_before(t, i)->0 as u32),
        is_emoji_base(t[i + 1] as u32),
    ensures
        decision_at(t, i).kind == Some(CarrierKind::Joiner),
        decision_at(t, i).action == RecommendedAction::Keep,
        decision_at(t, i).contextually_valid,
{
    lemma_bidi_scan_code_points(t, t.len() as int);
    if in_paired_embedding(t, i) {
        assert(0x202A <= t[i] as u32 <= 0x202C);
    }
}

/// A joiner in neither an emoji sequence nor a same-script word is a joiner
/// to remove.
pub proof fn lemma_stray_joiners_are_removed(t: Seq<char>, i: int)
    requires
        0 <= i < t.len(),
        t[i] as u32 == 0x200C || t[i] as u32 == 0x200D,
        !(t[i] as u32 == 0x200D && base_before(t, i) is Some && is_emoji_base(base_before(t, i)->0 as u32) && i + 1
            < t.len() && is_emoji_base(t[i + 1] as u32)),
        !(0 < i && i + 1 < t.len() && joining_script(t[i - 1]) is Some && joining_script(t[i + 1]) == joining_script(
            t[i - 1],
        )),
    ensures
        decision_at(t, i).kind == Some(CarrierKind::Joiner),
        decision_at(t, i).action == RecommendedAction::Remove,
        !decision_at(t, i).contextually_valid,
{
    lemma_bidi_scan_code_points(t, t.len() as int);
    if in_paired_embedding(t, i) {
        assert(0x202A <= t[i] as u32 <= 0x202C);
    }
}

/// A tag character inside a complete subdivision-flag sequence is kept as
/// legitimate; outside one it is removed.
pub proof fn lemma_flag_tags_are_kept(t: Seq<char>, i: int)
    requires
        0 <= i < t.len(),
        is_tag(t[i] as u32),
    ensures
        decision_at(t, i).kind == Some(CarrierKind::Tag),
        in_complete_flag(t, i) ==> decision_at(t, i).action == RecommendedAction::Keep && decision_at(
            t,
            i,
        ).contextually_valid,
        !in_complete_flag(t, i) ==> decision_at(t, i).action == RecommendedAction::Remove && !decision_at(
            t,
            i,
        ).contextually_valid,
{
    lemma_bidi_scan_code_points(t, t.len() as int);
    if in_paired_embedding(t, i) {
        assert(0x202A <= t[i] as u32 <= 0x202C);
    }
}

} // verus!
