//! Small verified string utilities shared by the analysis and rendering code.

use vstd::prelude::*;
use vstd::string::StringExecFns;
use vstd::string::StrSliceExecFns;
use vstd::utf8::encode_utf8;
use vstd::utf8::encode_scalar;
use vstd::utf8::valid_utf8;
use vstd::utf8::decode_utf8;
use vstd::utf8::partial_valid_utf8;

verus! {

/// The characters of `text`, in order.
pub fn chars_of(text: &str) -> (chars: Vec<char>)
    ensures
        chars@ == text@,
{
    let mut chars: Vec<char> = Vec::new();
    for c in it: text.chars()
        invariant
            chars@ == it.seq().take(it.index() as int),
    {
        chars.push(c);
    }
    chars
}


/// Calls `String::push`: appends `c` to `s`.
#[verifier::external_body]
pub(crate) fn push_char(s: &mut String, c: char)
    ensures
        final(s)@ == old(s)@.push(c),
{
    s.push(c);
}

/// Appends `tail` to `s`.
pub fn push_str(s: &mut String, tail: &str)
    ensures
        final(s)@ == old(s)@ + tail@,
{
    s.append(tail);
}

/// A new string holding `value`.
pub fn owned(value: &str) -> (s: String)
    ensures
        s@ == value@,
{
    value.to_owned()
}

// ---------------------------------------------------------------------------
// Numbers.
// ---------------------------------------------------------------------------

/// The character of a decimal or hexadecimal digit (uppercase letters).
pub open spec fn digit_char(d: nat) -> char {
    if d < 10 {
        ((48 + d) as u32) as char
    } else {
        ((55 + d) as u32) as char
    }
}

/// The decimal representation of `n`, without leading zeros.
pub open spec fn decimal(n: nat) -> Seq<char>
    decreases n,
{
    if n < 10 {
        seq![digit_char(n)]
    } else {
        decimal(n / 10).push(digit_char(n % 10))
    }
}

/// The uppercase hexadecimal representation of `n`, without leading zeros.
pub open spec fn hex(n: nat) -> Seq<char>
    decreases n,
{
    if n < 16 {
        seq![digit_char(n)]
    } else {
        hex(n / 16).push(digit_char(n % 16))
    }
}

/// `s` left-padded with `'0'` to at least `width` characters.
pub open spec fn zero_padded(s: Seq<char>, width: nat) -> Seq<char> {
    if s.len() >= width {
        s
    } else {
        Seq::new((width - s.len()) as nat, |i: int| '0') + s
    }
}

/// `U+` followed by the code point in uppercase hexadecimal, at least four digits.
pub open spec fn codepoint_text(c: char) -> Seq<char> {
    seq!['U', '+'] + zero_padded(hex(c as u32 as nat), 4)
}

pub(crate) fn digit(d: u32) -> (c: char)
    requires
        d < 16,
    ensures
        c == digit_char(d as nat),
{
    if d < 10 {
        proof {
            assert((48 + d) as u32 == (48u32 + d) as u32);
        }
        char_from_ascii((48 + d) as u8)
    } else {
        char_from_ascii((55 + d) as u8)
    }
}

fn char_from_ascii(b: u8) -> (c: char)
    requires
        b < 128,
    ensures
        c as u32 == b as u32,
{
    b as char
}

/// Appends the decimal representation of `n`.
pub fn push_decimal(s: &mut String, n: u64)
    ensures
        final(s)@ == old(s)@ + decimal(n as nat),
    decreases n,
{
    if n >= 10 {
        push_decimal(s, n / 10);
    }
    push_char(s, digit((n % 10) as u32));
    proof {
        assert(decimal(n as nat) == if n < 10 { seq![digit_char(n as nat)] } else { decimal((n / 10) as nat).push(digit_char((n % 10) as nat)) });
    }
}

/// The decimal representation of `n`.
pub fn decimal_string(n: u64) -> (s: String)
    ensures
        s@ == decimal(n as nat),
{
    let mut s = String::new();
    push_decimal(&mut s, n);
    s
}

fn push_hex(s: &mut String, n: u32)
    ensures
        final(s)@ == old(s)@ + hex(n as nat),
    decreases n,
{
    if n >= 16 {
        push_hex(s, n / 16);
    }
    push_char(s, digit(n % 16));
}

/// `U+XXXX`: the code point of `c` in uppercase hexadecimal, at least four digits.
pub fn format_codepoint(c: char) -> (s: String)
    ensures
        s@ == codepoint_text(c),
{
    let cp = c as u32;
    let mut digits = String::new();
    push_hex(&mut digits, cp);
    let len = digits.as_str().unicode_len();
    let mut s = owned("U+");
    proof {
        reveal_strlit("U+");
    }
    let ghost prefix = s@;
    let mut pad: usize = len;
    while pad < 4
        invariant
            len <= pad <= 4 || (len > 4 && pad == len),
            len == hex(cp as nat).len(),
            s@ == prefix + Seq::new((pad - len) as nat, |i: int| '0'),
        decreases 4 - pad,
    {
        push_char(&mut s, '0');
        proof {
            assert(s@ =~= prefix + Seq::new((pad + 1 - len) as nat, |i: int| '0'));
        }
        pad += 1;
    }
    push_str(&mut s, digits.as_str());
    proof {
        if len >= 4 {
            assert(s@ =~= seq!['U', '+'] + hex(cp as nat));
        } else {
            assert(s@ =~= seq!['U', '+'] + (Seq::new((4 - len) as nat, |i: int| '0') + hex(cp as nat)));
        }
    }
    s
}

// ---------------------------------------------------------------------------
// UTF-8 byte offsets.
// ---------------------------------------------------------------------------

/// The number of UTF-8 bytes that encode `t`.
pub open spec fn utf8_len(t: Seq<char>) -> nat {
    encode_utf8(t).len()
}

/// Encoding distributes over concatenation.
pub proof fn lemma_encode_utf8_concat(a: Seq<char>, b: Seq<char>)
    ensures
        encode_utf8(a + b) == encode_utf8(a) + encode_utf8(b),
    decreases a.len(),
{
    if a.len() == 0 {
        assert(a + b =~= b);
        assert(encode_utf8(a) =~= Seq::<u8>::empty());
        assert(encode_utf8(a) + encode_utf8(b) =~= encode_utf8(b));
    } else {
        assert((a + b).drop_first() =~= a.drop_first() + b);
        lemma_encode_utf8_concat(a.drop_first(), b);
        assert(encode_utf8(a + b) =~= encode_scalar((a + b)[0] as u32) + encode_utf8((a + b).drop_first()));
    }
}

/// The bytes before position `i + 1` are those before `i` and those of `t[i]`.
pub proof fn lemma_utf8_len_step(t: Seq<char>, i: int)
    requires
        0 <= i < t.len(),
    ensures
        utf8_len(t.take(i + 1)) == utf8_len(t.take(i)) + encode_scalar(t[i] as u32).len(),
        utf8_len(t.take(i + 1)) <= utf8_len(t),
{
    assert(t.take(i + 1) =~= t.take(i) + seq![t[i]]);
    lemma_encode_utf8_concat(t.take(i), seq![t[i]]);
    assert(seq![t[i]].drop_first() =~= Seq::<char>::empty());
    assert(encode_utf8(seq![t[i]]) =~= encode_scalar(t[i] as u32) + encode_utf8(Seq::<char>::empty()));
    assert(t =~= t.take(i + 1) + t.skip(i + 1));
    lemma_encode_utf8_concat(t.take(i + 1), t.skip(i + 1));
}

/// A prefix takes no more bytes than the whole text.
pub proof fn lemma_utf8_len_prefix(t: Seq<char>, i: int)
    requires
        0 <= i <= t.len(),
    ensures
        utf8_len(t.take(i)) <= utf8_len(t),
{
    assert(t =~= t.take(i) + t.skip(i));
    lemma_encode_utf8_concat(t.take(i), t.skip(i));
}

/// The number of UTF-8 bytes of `c`.
pub fn utf8_width(c: char) -> (w: usize)
    ensures
        w == encode_scalar(c as u32).len(),
        1 <= w <= 4,
{
    broadcast use vstd::utf8::char_is_scalar;
    let cp = c as u32;
    if cp <= 0x7F {
        1
    } else if cp <= 0x7FF {
        2
    } else if cp <= 0xFFFF {
        3
    } else {
        4
    }
}

// ---------------------------------------------------------------------------
// Lines.
// ---------------------------------------------------------------------------

/// The start of the line that holds position `i`.
pub open spec fn line_start(t: Seq<char>, i: int) -> int
    decreases i,
{
    if i <= 0 || t[i - 1] == '\n' {
        i
    } else {
        line_start(t, i - 1)
    }
}

/// The number of line feeds before position `i`.
pub open spec fn newlines_before(t: Seq<char>, i: int) -> nat
    decreases i,
{
    if i <= 0 {
        0
    } else {
        newlines_before(t, i - 1) + if t[i - 1] == '\n' { 1nat } else { 0nat }
    }
}

/// The 1-based line of position `i`.
pub open spec fn line_of(t: Seq<char>, i: int) -> nat {
    newlines_before(t, i) + 1
}

/// The 1-based column (in characters) of position `i`.
pub open spec fn column_of(t: Seq<char>, i: int) -> nat {
    (i - line_start(t, i) + 1) as nat
}

pub proof fn lemma_line_start_bounds(t: Seq<char>, i: int)
    requires
        0 <= i,
    ensures
        0 <= line_start(t, i) <= i,
        newlines_before(t, i) <= i,
    decreases i,
{
    if i > 0 {
        lemma_line_start_bounds(t, i - 1);
    }
}


/// The position of the line feed that ends the line holding `i`, or the text length.
pub open spec fn line_end(t: Seq<char>, i: int) -> int
    decreases t.len() - i,
{
    if i < 0 || i >= t.len() || t[i] == '\n' {
        i
    } else {
        line_end(t, i + 1)
    }
}

/// All positions from `ls` up to (not including) `p` lie on the line that starts at `ls`.
pub proof fn lemma_line_start_const(t: Seq<char>, ls: int, p: int)
    requires
        0 <= ls <= p <= t.len(),
        ls == 0 || t[ls - 1] == '\n',
        forall|q: int| ls <= q < p ==> t[q] != '\n',
    ensures
        line_start(t, p) == ls,
    decreases p,
{
    if p > ls {
        lemma_line_start_const(t, ls, p - 1);
    }
}

/// The line holding `p` ends at `e` when no line feed lies in between.
pub proof fn lemma_line_end_const(t: Seq<char>, p: int, e: int)
    requires
        0 <= p <= e <= t.len(),
        e == t.len() || t[e] == '\n',
        forall|q: int| p <= q < e ==> t[q] != '\n',
    ensures
        line_end(t, p) == e,
    decreases e - p,
{
    if p < e {
        lemma_line_end_const(t, p + 1, e);
    }
}

/// A space or a horizontal tab.
pub open spec fn is_hspace(c: char) -> bool {
    c == ' ' || c == '\t'
}

/// The end of the content of the line holding `i`: its line feed, or the
/// carriage return just before it (or before the end of the text).
pub open spec fn content_end(t: Seq<char>, i: int) -> int {
    let ls = line_start(t, i);
    let le = line_end(t, i);
    if le > ls && t[le - 1] == '\r' {
        le - 1
    } else {
        le
    }
}

/// The start of the run of spaces and tabs that ends at `ce` and begins no earlier than `ls`.
pub open spec fn trail_start(t: Seq<char>, ls: int, ce: int) -> int
    decreases ce - ls,
{
    if ce > ls && is_hspace(t[ce - 1]) {
        trail_start(t, ls, ce - 1)
    } else {
        ce
    }
}

/// The trailing run `t[ts..ce]` is a Markdown hard break: exactly two spaces after content.
pub open spec fn is_markdown_hard_break(t: Seq<char>, ls: int, ts: int, ce: int) -> bool {
    ts > ls && ce - ts == 2 && t[ts] == ' ' && t[ts + 1] == ' '
}

/// Position `i` is trailing whitespace of its line that the cleanup removes:
/// a space or tab at the end of the line's content, unless the whole run is
/// a Markdown hard break.
pub open spec fn trailing_removal(t: Seq<char>, i: int) -> bool {
    0 <= i < t.len() && {
        let ls = line_start(t, i);
        let ce = content_end(t, i);
        let ts = trail_start(t, ls, ce);
        ts <= i < ce && !is_markdown_hard_break(t, ls, ts, ce)
    }
}

/// The run of spaces and tabs before `ce` starts within the line and holds only spaces and tabs.
pub proof fn lemma_trail_start_bounds(t: Seq<char>, ls: int, ce: int)
    requires
        ls <= ce,
    ensures
        ls <= trail_start(t, ls, ce) <= ce,
        forall|q: int| trail_start(t, ls, ce) <= q < ce ==> is_hspace(#[trigger] t[q]),
    decreases ce - ls,
{
    if ce > ls && is_hspace(t[ce - 1]) {
        lemma_trail_start_bounds(t, ls, ce - 1);
    }
}

/// Marks the trailing removals of the line `chars[line_begin..line_stop]`,
/// where `line_stop` is the position of its line feed or the text length.
fn mark_line_trailing(chars: &Vec<char>, removals: &mut Vec<bool>, line_begin: usize, line_stop: usize)
    requires
        old(removals).len() == chars.len(),
        line_begin <= line_stop <= chars.len(),
        line_begin == 0 || t_is_newline(chars@, line_begin as int - 1),
        line_stop == chars.len() || chars@[line_stop as int] == '\n',
        forall|q: int| line_begin <= q < line_stop ==> chars@[q] != '\n',
        forall|p: int| line_begin <= p < chars.len() ==> !#[trigger] old(removals)[p],
    ensures
        final(removals).len() == chars.len(),
        forall|p: int| 0 <= p < line_begin ==> #[trigger] final(removals)[p] == old(removals)[p],
        forall|p: int| line_begin <= p <= line_stop && p < chars.len() ==> #[trigger] final(removals)[p]
            == trailing_removal(chars@, p),
        forall|p: int| line_stop < p < chars.len() ==> !#[trigger] final(removals)[p],
{
    let ghost t = chars@;
    let n = chars.len();
    let mut content_stop = line_stop;
    if content_stop > line_begin && chars[content_stop - 1] == '\r' {
        content_stop -= 1;
    }
    let mut trailing_begin = content_stop;
    while trailing_begin > line_begin && (chars[trailing_begin - 1] == ' ' || chars[trailing_begin - 1] == '\t')
        invariant
            t == chars@,
            n == chars.len(),
            line_begin <= trailing_begin <= content_stop <= line_stop <= n,
            trail_start(t, line_begin as int, trailing_begin as int) == trail_start(t, line_begin as int, content_stop as int),
        decreases trailing_begin,
    {
        trailing_begin -= 1;
    }
    let hard_break = trailing_begin > line_begin && content_stop - trailing_begin == 2
        && chars[trailing_begin] == ' ' && chars[trailing_begin + 1] == ' ';
    if trailing_begin < content_stop && !hard_break {
        let mut m = trailing_begin;
        while m < content_stop
            invariant
                n == chars.len(),
                removals.len() == n,
                old(removals).len() == n,
                trailing_begin <= m <= content_stop <= line_stop <= n,
                line_begin <= trailing_begin,
                forall|p: int| 0 <= p < line_begin ==> #[trigger] removals[p] == old(removals)[p],
                forall|p: int| trailing_begin <= p < m ==> #[trigger] removals[p],
                forall|p: int| line_begin <= p < n && !(trailing_begin <= p < m) ==> !#[trigger] removals[p],
            decreases content_stop - m,
        {
            removals.set(m, true);
            m += 1;
        }
    }
    proof {
        assert forall|p: int| line_begin <= p <= line_stop && p < n implies #[trigger] removals[p]
            == trailing_removal(t, p) by {
            lemma_line_start_const(t, line_begin as int, p);
            lemma_line_end_const(t, p, line_stop as int);
            if p < line_stop {
                assert(content_end(t, p) == content_stop);
            }
        }
    }
}

/// `t[i]` is a line feed.
pub open spec fn t_is_newline(t: Seq<char>, i: int) -> bool {
    0 <= i < t.len() && t[i] == '\n'
}

/// Marks the trailing spaces and tabs of every line, except Markdown hard breaks.
pub fn trailing_whitespace_indices(chars: &Vec<char>) -> (removals: Vec<bool>)
    ensures
        removals.len() == chars.len(),
        forall|i: int| 0 <= i < chars.len() ==> #[trigger] removals[i] == trailing_removal(chars@, i),
{
    let ghost t = chars@;
    let n = chars.len();
    let mut removals: Vec<bool> = Vec::new();
    while removals.len() < n
        invariant
            removals.len() <= n,
            forall|p: int| 0 <= p < removals.len() ==> !#[trigger] removals[p],
        decreases n - removals.len(),
    {
        removals.push(false);
    }
    let mut line_begin: usize = 0;
    let mut index: usize = 0;
    while index < n
        invariant
            t == chars@,
            n == chars.len(),
            removals.len() == n,
            line_begin <= index <= n,
            line_begin == 0 || t_is_newline(t, line_begin as int - 1),
            forall|q: int| line_begin <= q < index ==> t[q] != '\n',
            forall|p: int| 0 <= p < line_begin ==> #[trigger] removals[p] == trailing_removal(t, p),
            forall|p: int| line_begin <= p < n ==> !#[trigger] removals[p],
        decreases n - index,
    {
        if chars[index] == '\n' {
            mark_line_trailing(chars, &mut removals, line_begin, index);
            line_begin = index + 1;
        }
        index += 1;
    }
    mark_line_trailing(chars, &mut removals, line_begin, n);
    removals
}


/// A vector of `n` times `false`.
pub fn false_mask(n: usize) -> (mask: Vec<bool>)
    ensures
        mask.len() == n,
        forall|p: int| 0 <= p < n ==> !#[trigger] mask[p],
{
    let mut mask: Vec<bool> = Vec::new();
    while mask.len() < n
        invariant
            mask.len() <= n,
            forall|p: int| 0 <= p < mask.len() ==> !#[trigger] mask[p],
        decreases n - mask.len(),
    {
        mask.push(false);
    }
    mask
}


/// The list `all` cut to `cap` entries.
pub open spec fn capped<T>(all: Seq<T>, cap: int) -> Seq<T> {
    if all.len() <= cap {
        all
    } else {
        all.take(cap)
    }
}

/// The number of entries of `all` beyond `cap`.
pub open spec fn overflow<T>(all: Seq<T>, cap: int) -> int {
    if all.len() <= cap {
        0
    } else {
        all.len() - cap
    }
}


/// Capping keeps the first entries, at most `cap` of them, and the entries
/// kept plus the overflow count are all the entries.
pub proof fn lemma_capped_keeps_prefix<T>(all: Seq<T>, cap: int)
    requires
        cap >= 0,
    ensures
        capped(all, cap).len() <= cap,
        capped(all, cap).len() + overflow(all, cap) == all.len(),
        capped(all, cap) == all.take(capped(all, cap).len() as int),
{
    if all.len() <= cap {
        assert(all.take(all.len() as int) =~= all);
    }
}

/// The line holding `i` ends at or after `i`, at a line feed or at the end of the text.
pub proof fn lemma_line_end_bounds(t: Seq<char>, i: int)
    requires
        0 <= i <= t.len(),
    ensures
        i <= line_end(t, i) <= t.len(),
        line_end(t, i) < t.len() ==> t[line_end(t, i)] == '\n',
    decreases t.len() - i,
{
    if i < t.len() && t[i] != '\n' {
        lemma_line_end_bounds(t, i + 1);
    }
}


/// The number of UTF-8 bytes of `chars[0..i]`.
pub fn utf8_prefix_len(chars: &Vec<char>, i: usize) -> (len: usize)
    requires
        i <= chars.len(),
        utf8_len(chars@) <= usize::MAX,
    ensures
        len == utf8_len(chars@.take(i as int)),
{
    let ghost t = chars@;
    let mut len: usize = 0;
    let mut k: usize = 0;
    proof {
        assert(t.take(0) =~= Seq::<char>::empty());
        assert(encode_utf8(Seq::<char>::empty()) =~= Seq::<u8>::empty());
    }
    while k < i
        invariant
            t == chars@,
            k <= i <= t.len(),
            utf8_len(t) <= usize::MAX,
            len == utf8_len(t.take(k as int)),
        decreases i - k,
    {
        proof {
            lemma_utf8_len_step(t, k as int);
        }
        len = len + utf8_width(chars[k]);
        k += 1;
    }
    len
}

/// The 1-based line of position `i`.
pub fn line_number(chars: &Vec<char>, i: usize) -> (line: usize)
    requires
        i < chars.len(),
    ensures
        line == line_of(chars@, i as int),
{
    let ghost t = chars@;
    let mut count: usize = 0;
    let mut k: usize = 0;
    while k < i
        invariant
            t == chars@,
            k <= i < t.len(),
            count == newlines_before(t, k as int),
            count <= k,
        decreases i - k,
    {
        if chars[k] == '\n' {
            count += 1;
        }
        k += 1;
    }
    count + 1
}


/// Calls `std::str::from_utf8`: `Ok` with the decoded text exactly when the
/// bytes are valid UTF-8; otherwise `Err` with `Utf8Error::valid_up_to`, the
/// largest length of a valid prefix.
#[verifier::external_body]
pub(crate) fn utf8_decode(bytes: &[u8]) -> (decoded: Result<String, usize>)
    ensures
        match decoded {
            Ok(s) => valid_utf8(bytes@) && s@ == decode_utf8(bytes@),
            Err(k) => {
                &&& !valid_utf8(bytes@)
                &&& partial_valid_utf8(bytes@, k as int)
                &&& forall|j: int| k < j <= bytes@.len() ==> !partial_valid_utf8(bytes@, j)
            },
        },
{
    match std::str::from_utf8(bytes) {
        Ok(text) => Ok(text.to_owned()),
        Err(error) => Err(error.valid_up_to()),
    }
}

/// Decoded UTF-8 takes as many bytes as were decoded.
pub proof fn lemma_decoded_len(bytes: Seq<u8>)
    requires
        valid_utf8(bytes),
    ensures
        utf8_len(decode_utf8(bytes)) == bytes.len(),
{
    vstd::utf8::decode_utf8_encode_utf8(bytes);
}

/// Whether two strings hold the same characters.
pub fn str_equals(a: &str, b: &str) -> (equal: bool)
    ensures
        equal == (a@ == b@),
{
    let x = owned(a);
    let y = owned(b);
    x == y
}

/// The views of a sequence of strings.
pub open spec fn string_views(v: Seq<String>) -> Seq<Seq<char>> {
    v.map_values(|s: String| s@)
}


/// The number of UTF-8 bytes of `s`.
pub fn utf8_byte_len(s: &str) -> (len: usize)
    ensures
        len == encode_utf8(s@).len(),
{
    s.as_bytes().len()
}


/// The characters with the Unicode `White_Space` property, which is what
/// `char::is_whitespace` reports.
#[verifier::allow_in_spec]
pub fn is_unicode_whitespace(c: char) -> bool
    returns
        (0x09 <= c as u32 && c as u32 <= 0x0D) || c as u32 == 0x20 || c as u32 == 0x85 || c as u32 == 0xA0
            || c as u32 == 0x1680 || (0x2000 <= c as u32 && c as u32 <= 0x200A) || c as u32 == 0x2028 || c as u32
            == 0x2029 || c as u32 == 0x202F || c as u32 == 0x205F || c as u32 == 0x3000,
{
    let cp = c as u32;
    (0x09 <= cp && cp <= 0x0D) || cp == 0x20 || cp == 0x85 || cp == 0xA0 || cp == 0x1680 || (0x2000 <= cp && cp
        <= 0x200A) || cp == 0x2028 || cp == 0x2029 || cp == 0x202F || cp == 0x205F || cp == 0x3000
}

/// `s` without its trailing whitespace.
pub open spec fn trim_end(s: Seq<char>) -> Seq<char>
    decreases s.len(),
{
    if s.len() > 0 && is_unicode_whitespace(s.last()) {
        trim_end(s.drop_last())
    } else {
        s
    }
}

/// `s` without its trailing whitespace.
pub fn trim_end_owned(s: &str) -> (trimmed: String)
    ensures
        trimmed@ == trim_end(s@),
{
    let chars = chars_of(s);
    let mut end = chars.len();
    proof {
        assert(chars@.take(end as int) =~= s@);
    }
    while end > 0 && is_unicode_whitespace(chars[end - 1])
        invariant
            end <= chars.len(),
            chars@ == s@,
            trim_end(chars@.take(end as int)) == trim_end(s@),
        decreases end,
    {
        proof {
            assert(chars@.take(end as int).drop_last() =~= chars@.take(end - 1));
        }
        end -= 1;
    }
    let mut trimmed = String::new();
    let mut i: usize = 0;
    while i < end
        invariant
            i <= end <= chars.len(),
            trimmed@ == chars@.take(i as int),
        decreases end - i,
    {
        push_char(&mut trimmed, chars[i]);
        proof {
            assert(chars@.take(i + 1) =~= chars@.take(i as int).push(chars@[i as int]));
        }
        i += 1;
    }
    proof {
        assert(trim_end(chars@.take(end as int)) == chars@.take(end as int));
    }
    trimmed
}

} // verus!
