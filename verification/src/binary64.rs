//! The ratio of two counts as binary64 (IEEE 754 double precision) arithmetic
//! computes and prints it, emulated exactly with integers.
//!
//! The share of non-ASCII spaces is reported as `part / total * 100` printed
//! with two decimals, where both counts are first converted to binary64, each
//! operation rounds to the nearest binary64 (ties to even), and printing
//! rounds the exact binary value to two decimals (ties to even), as Rust's
//! `{:.2}` formatting does: its exact-mode digit generation rounds an exact
//! half to the even digit.

use vstd::prelude::*;
use vstd::arithmetic::power2::{
    lemma2_to64, lemma2_to64_rest, lemma_pow2_adds, lemma_pow2_pos, lemma_pow2_strictly_increases, lemma_pow2_unfold,
    pow2,
};
use vstd::arithmetic::div_mod::lemma_fundamental_div_mod_converse;
use crate::text::{decimal, digit, digit_char, push_char, push_decimal};

verus! {

// ---------------------------------------------------------------------------
// Rounding.
// ---------------------------------------------------------------------------

/// `num / den` rounded to the nearest integer, ties to the even one.
pub open spec fn round_half_even(num: nat, den: nat) -> nat {
    let q = num / den;
    let r = num % den;
    if 2 * r > den || (2 * r == den && q % 2 == 1) {
        q + 1
    } else {
        q
    }
}

/// `2^k` brings `num / den` into the range of 53-bit significands:
/// `2^52 <= num / den * 2^k < 2^53`.
pub open spec fn is_binary_scale(num: nat, den: nat, k: nat) -> bool {
    pow2(52) * den <= num * pow2(k) && num * pow2(k) < pow2(53) * den
}

/// The binary64 value nearest to `num / den`, ties to even, as `m / 2^k`;
/// meant for ratios below 2^52 and above the subnormal range.
pub open spec fn nearest_binary64(num: nat, den: nat) -> (nat, nat) {
    let k = choose|k: nat| is_binary_scale(num, den, k);
    (round_half_even(num * pow2(k), den), k)
}

/// `2^s` brings the integer `x` into the range of 53-bit significands.
pub open spec fn is_int_scale(x: nat, s: nat) -> bool {
    pow2(52) * pow2(s) <= x && x < pow2(53) * pow2(s)
}

/// The integer value of the binary64 nearest to `x`, ties to even: `x` itself below 2^53.
pub open spec fn binary64_of_int(x: nat) -> nat {
    if x < pow2(53) {
        x
    } else {
        let s = choose|s: nat| is_int_scale(x, s);
        round_half_even(x, pow2(s)) * pow2(s)
    }
}

/// `part / total` computed in binary64 from the two counts converted to binary64, as `m / 2^k`.
pub open spec fn binary64_ratio(part: nat, total: nat) -> (nat, nat) {
    nearest_binary64(binary64_of_int(part), binary64_of_int(total))
}

/// That ratio multiplied by 100 in binary64, as `m / 2^k`.
pub open spec fn binary64_percent(part: nat, total: nat) -> (nat, nat) {
    let r = binary64_ratio(part, total);
    nearest_binary64(r.0 * 100, pow2(r.1))
}

/// The binary64 percentage printed with two decimals, in hundredths: its
/// exact value rounded half to even.
pub open spec fn percent_hundredths(part: nat, total: nat) -> nat {
    let p = binary64_percent(part, total);
    round_half_even(p.0 * 100, pow2(p.1))
}

/// The binary64 percentage of `part` in `total` with two decimals.
pub open spec fn percent_text(part: nat, total: nat) -> Seq<char> {
    let h = percent_hundredths(part, total);
    decimal(h / 100) + seq!['.', digit_char((h % 100) / 10), digit_char(h % 10)]
}

/// The binary64 value nearest to 2/100, as `m / 2^k`.
pub open spec fn two_hundredths() -> (nat, nat) {
    nearest_binary64(2, 100)
}

/// The binary64 ratio of `part` to `total` is at least the binary64 value nearest to 2/100.
pub open spec fn ratio_at_least_two_percent(part: nat, total: nat) -> bool {
    let r = binary64_ratio(part, total);
    let c = two_hundredths();
    r.0 * pow2(c.1) >= c.0 * pow2(r.1)
}

// ---------------------------------------------------------------------------
// Lemmas.
// ---------------------------------------------------------------------------

proof fn lemma_pow2_le(a: nat, b: nat)
    requires
        a <= b,
    ensures
        pow2(a) <= pow2(b),
{
    if a < b {
        lemma_pow2_strictly_increases(a, b);
    }
}

proof fn lemma_pow2_constants()
    ensures
        pow2(52) == 4503599627370496,
        pow2(53) == 9007199254740992,
        pow2(58) == 288230376151711744,
        pow2(64) == 18446744073709551616,
        pow2(65) == 36893488147419103232,
        pow2(6) == 64,
        pow2(7) == 128,
{
    lemma2_to64();
    lemma2_to64_rest();
    lemma_pow2_unfold(65);
}

proof fn lemma_binary_scale_unique(num: nat, den: nat, k1: nat, k2: nat)
    requires
        is_binary_scale(num, den, k1),
        is_binary_scale(num, den, k2),
    ensures
        k1 == k2,
{
    lemma_pow2_constants();
    if k1 < k2 {
        lemma_scale_step(num, den, k1, k2);
    } else if k2 < k1 {
        lemma_scale_step(num, den, k2, k1);
    }
}

proof fn lemma_scale_step(num: nat, den: nat, a: nat, b: nat)
    requires
        a < b,
        is_binary_scale(num, den, a),
    ensures
        !is_binary_scale(num, den, b),
{
    lemma_pow2_constants();
    lemma_pow2_le(a + 1, b);
    lemma_pow2_unfold(a + 1);
    let pa = pow2(a);
    let pa1 = pow2((a + 1) as nat);
    let pb = pow2(b);
    assert(num * pb >= 9007199254740992 * den) by (nonlinear_arith)
        requires
            pb >= pa1,
            pa1 == 2 * pa,
            4503599627370496 * den <= num * pa,
    ;
}

proof fn lemma_nearest_at(num: nat, den: nat, k: nat)
    requires
        is_binary_scale(num, den, k),
    ensures
        nearest_binary64(num, den) == (round_half_even(num * pow2(k), den), k),
{
    let c = choose|j: nat| is_binary_scale(num, den, j);
    lemma_binary_scale_unique(num, den, c, k);
}

proof fn lemma_int_scale_unique(x: nat, s1: nat, s2: nat)
    requires
        is_int_scale(x, s1),
        is_int_scale(x, s2),
    ensures
        s1 == s2,
{
    if s1 < s2 {
        lemma_int_scale_step(x, s1, s2);
    } else if s2 < s1 {
        lemma_int_scale_step(x, s2, s1);
    }
}

proof fn lemma_int_scale_step(x: nat, a: nat, b: nat)
    requires
        a < b,
        is_int_scale(x, a),
    ensures
        !is_int_scale(x, b),
{
    lemma_pow2_constants();
    lemma_pow2_le(a + 1, b);
    lemma_pow2_unfold(a + 1);
    let pa = pow2(a);
    let pa1 = pow2((a + 1) as nat);
    let pb = pow2(b);
    assert(4503599627370496 * pb > x) by (nonlinear_arith)
        requires
            pb >= pa1,
            pa1 == 2 * pa,
            x < 9007199254740992 * pa,
    ;
}

/// Scaling numerator and denominator alike does not change the rounded quotient.
proof fn lemma_round_scale(a: nat, b: nat, c: nat)
    requires
        b > 0,
        c > 0,
    ensures
        round_half_even(a * c, b * c) == round_half_even(a, b),
{
    let q = a / b;
    let r = a % b;
    assert(a == q * b + r && 0 <= r < b) by (nonlinear_arith)
        requires
            b > 0,
            q == a / b,
            r == a % b,
    ;
    assert(a * c == q * (b * c) + r * c && 0 <= r * c < b * c) by (nonlinear_arith)
        requires
            a == q * b + r,
            0 <= r < b,
            c > 0,
    ;
    lemma_fundamental_div_mod_converse((a * c) as int, (b * c) as int, q as int, (r * c) as int);
    assert((2 * (r * c) > b * c) == (2 * r > b)) by (nonlinear_arith)
        requires
            c > 0,
    ;
    assert((2 * (r * c) == b * c) == (2 * r == b)) by (nonlinear_arith)
        requires
            c > 0,
    ;
}

proof fn lemma_two_hundredths()
    ensures
        two_hundredths() == (5764607523034235nat, 58nat),
{
    lemma_pow2_constants();
    assert(is_binary_scale(2, 100, 58));
    lemma_nearest_at(2, 100, 58);
    assert(round_half_even(2 * pow2(58), 100) == 5764607523034235);
}

// ---------------------------------------------------------------------------
// Computation.
// ---------------------------------------------------------------------------

fn pow2_u128(k: u32) -> (p: u128)
    requires
        k < 128,
    ensures
        p == pow2(k as nat),
{
    let mut p: u128 = 1;
    let mut i: u32 = 0;
    proof {
        lemma2_to64();
    }
    while i < k
        invariant
            i <= k < 128,
            p == pow2(i as nat),
        decreases k - i,
    {
        proof {
            lemma_pow2_unfold((i + 1) as nat);
            lemma_pow2_le((i + 1) as nat, 127);
            assert(pow2(127) < 0x1_0000_0000_0000_0000_0000_0000_0000_0000) by {
                lemma_pow2_adds(64, 63);
                lemma2_to64();
                lemma_pow2_strictly_increases(63, 64);
            }
        }
        p = p * 2;
        i = i + 1;
    }
    p
}

fn round_half_even_u128(num: u128, den: u128) -> (m: u128)
    requires
        den > 0,
        num < u128::MAX,
    ensures
        m == round_half_even(num as nat, den as nat),
{
    let q = num / den;
    let r = num % den;
    proof {
        assert(q <= num) by (nonlinear_arith)
            requires
                den > 0,
                q == num / den,
        ;
    }
    if r > den - r || (r == den - r && q % 2 == 1) {
        q + 1
    } else {
        q
    }
}

/// The integer value of the binary64 nearest to `x`.
fn binary64_from_int(x: u64) -> (v: u128)
    ensures
        v == binary64_of_int(x as nat),
        1 <= x ==> 1 <= v,
        v <= pow2(65),
        x < pow2(53) ==> v == x,
        x >= pow2(53) ==> v >= pow2(53),
{
    proof {
        lemma_pow2_constants();
    }
    if x < 9007199254740992 {
        return x as u128;
    }
    let xx = x as u128;
    let mut p: u128 = 2;
    let mut s: u32 = 1;
    proof {
        lemma_pow2_unfold(1);
        assert(pow2(0) == 1) by {
            lemma2_to64();
        }
    }
    while 9007199254740992 * p <= xx
        invariant
            xx == x,
            x >= 9007199254740992,
            p == pow2(s as nat),
            1 <= s <= 13,
            4503599627370496 * p <= xx,
            1 <= p <= 8192,
        decreases xx - 4503599627370496 * p,
    {
        proof {
            lemma_pow2_constants();
            lemma_pow2_unfold((s + 1) as nat);
            if s + 1 > 13 {
                lemma_pow2_le(14, (s + 1) as nat);
                lemma2_to64();
            }
        }
        p = p * 2;
        s = s + 1;
    }
    let m = round_half_even_u128(xx, p);
    proof {
        lemma_pow2_constants();
        assert(is_int_scale(x as nat, s as nat));
        let c = choose|j: nat| is_int_scale(x as nat, j);
        lemma_int_scale_unique(x as nat, c, s as nat);
        let q = xx / p;
        assert(4503599627370496 <= q && q * p <= xx && xx < 9007199254740992 * p) by (nonlinear_arith)
            requires
                4503599627370496 * p <= xx,
                xx < 9007199254740992 * p,
                p > 0,
                q == xx / p,
        ;
        assert(m <= q + 1 && m >= q);
        assert(m * p <= xx + p && m * p >= 4503599627370496 * p) by (nonlinear_arith)
            requires
                m <= q + 1,
                m >= q,
                q * p <= xx,
                4503599627370496 <= q,
                p > 0,
        ;
    }
    m * p
}

/// The binary64 value nearest to `num / den`, as `(m, k)` for `m / 2^k`.
fn nearest_u128(num: u128, den: u128) -> (r: (u128, u32))
    requires
        1 <= num <= pow2(65),
        1 <= den <= pow2(65),
        num < pow2(53) * den,
    ensures
        (r.0 as nat, r.1 as nat) == nearest_binary64(num as nat, den as nat),
        is_binary_scale(num as nat, den as nat, r.1 as nat),
        pow2(52) <= r.0 <= pow2(53),
        r.1 < 118,
{
    proof {
        lemma_pow2_constants();
    }
    let mut x: u128 = num;
    let mut k: u32 = 0;
    proof {
        assert(pow2(0) == 1) by {
            lemma2_to64();
        }
    }
    while x < 4503599627370496 * den
        invariant
            1 <= num,
            1 <= den <= 36893488147419103232,
            x == num * pow2(k as nat),
            pow2(k as nat) <= x,
            x < 9007199254740992 * den,
            k < 118,
        decreases 9007199254740992 * den - x,
    {
        proof {
            lemma_pow2_constants();
            lemma_pow2_pos(k as nat);
            lemma_pow2_unfold((k + 1) as nat);
            assert(num * pow2((k + 1) as nat) == 2 * x) by (nonlinear_arith)
                requires
                    x == num * pow2(k as nat),
                    pow2((k + 1) as nat) == 2 * pow2(k as nat),
            ;
            if k + 1 >= 118 {
                lemma_pow2_le(118, (k + 1) as nat);
                lemma_pow2_adds(65, 53);
                assert(pow2(118) == 36893488147419103232 * 9007199254740992);
                assert(9007199254740992 * den <= 36893488147419103232 * 9007199254740992) by (nonlinear_arith)
                    requires
                        den <= 36893488147419103232,
                ;
            }
        }
        x = x * 2;
        k = k + 1;
    }
    let m = round_half_even_u128(x, den);
    proof {
        assert(is_binary_scale(num as nat, den as nat, k as nat));
        lemma_nearest_at(num as nat, den as nat, k as nat);
        let q = x / den;
        assert(4503599627370496 <= q < 9007199254740992) by (nonlinear_arith)
            requires
                4503599627370496 * den <= x,
                x < 9007199254740992 * den,
                den > 0,
                q == x / den,
        ;
    }
    (m, k)
}

/// The binary64 value nearest to `m1 / 2^k1 * 100`, as `(m, k)` for `m / 2^k`.
fn times_hundred(m1: u128, k1: u32) -> (r: (u128, u32))
    requires
        pow2(52) <= m1 <= pow2(53),
        7 <= k1 < 118,
    ensures
        (r.0 as nat, r.1 as nat) == nearest_binary64((m1 * 100) as nat, pow2(k1 as nat)),
        pow2(52) <= r.0 <= pow2(53),
        r.1 < 112,
{
    proof {
        lemma_pow2_constants();
    }
    let y: u128 = m1 * 100;
    let (p, s): (u128, u32) = if y < 9007199254740992 * 64 { (64, 6) } else { (128, 7) };
    let m = round_half_even_u128(y, p);
    let k = k1 - s;
    proof {
        assert(p == pow2(s as nat));
        assert(4503599627370496 * p <= y && y < 9007199254740992 * p);
        lemma_pow2_adds(s as nat, k as nat);
        assert(pow2(k1 as nat) == p * pow2(k as nat));
        let c = pow2(k as nat);
        lemma_pow2_pos(k as nat);
        assert(4503599627370496 * pow2(k1 as nat) <= y * c && y * c < 9007199254740992 * pow2(k1 as nat))
            by (nonlinear_arith)
            requires
                4503599627370496 * p <= y,
                y < 9007199254740992 * p,
                pow2(k1 as nat) == p * c,
                c > 0,
        ;
        assert(is_binary_scale(y as nat, pow2(k1 as nat), k as nat));
        lemma_nearest_at(y as nat, pow2(k1 as nat), k as nat);
        assert(y * c == y * c);
        lemma_round_scale(y as nat, p as nat, c);
        assert((p * c) as nat == pow2(k1 as nat));
        let q = y / p;
        assert(4503599627370496 <= q < 9007199254740992) by (nonlinear_arith)
            requires
                4503599627370496 * p <= y,
                y < 9007199254740992 * p,
                p > 0,
                q == y / p,
        ;
    }
    (m, k)
}

/// The binary64 ratio of `part` to `total`, as `(m, k)` for `m / 2^k`.
fn ratio_u128(part: u64, total: u64) -> (r: (u128, u32))
    requires
        1 <= part <= total,
    ensures
        (r.0 as nat, r.1 as nat) == binary64_ratio(part as nat, total as nat),
        pow2(52) <= r.0 <= pow2(53),
        7 <= r.1 < 118,
{
    proof {
        lemma_pow2_constants();
    }
    let n = binary64_from_int(part);
    let d = binary64_from_int(total);
    proof {
        if part < 9007199254740992 {
            assert(n < 9007199254740992 * d) by (nonlinear_arith)
                requires
                    n < 9007199254740992,
                    d >= 1,
            ;
        } else {
            assert(n < 9007199254740992 * d) by (nonlinear_arith)
                requires
                    n <= 36893488147419103232,
                    d >= 9007199254740992,
            ;
        }
    }
    let (m, k) = nearest_u128(n, d);
    proof {
        if k < 7 {
            lemma_pow2_le(k as nat, 6);
            assert(4503599627370496 * d <= n * pow2(k as nat));
            assert(4503599627370496 * d <= n * 64) by (nonlinear_arith)
                requires
                    4503599627370496 * d <= n * pow2(k as nat),
                    pow2(k as nat) <= 64,
            ;
            if part < 9007199254740992 {
                if total < 9007199254740992 {
                    assert(n <= d);
                } else {
                    assert(n < d);
                }
            }
            assert(false) by (nonlinear_arith)
                requires
                    4503599627370496 * d <= n * 64,
                    n <= d || (n <= 36893488147419103232 && d >= 9007199254740992),
                    d >= 1,
            ;
        }
    }
    (m, k)
}

/// Appends the binary64 percentage of `part` in `total` with two decimals.
pub fn push_percent(s: &mut String, part: u64, total: u64)
    requires
        0 < part <= total,
    ensures
        final(s)@ == old(s)@ + percent_text(part as nat, total as nat),
{
    let (m1, k1) = ratio_u128(part, total);
    let (m2, k2) = times_hundred(m1, k1);
    proof {
        lemma_pow2_constants();
    }
    let pw = pow2_u128(k2);
    proof {
        lemma_pow2_pos(k2 as nat);
    }
    let y = m2 * 100;
    let h = round_half_even_u128(y, pw);
    proof {
        let q = y / pw;
        assert(q <= y) by (nonlinear_arith)
            requires
                pw > 0,
                q == y / pw,
        ;
        assert(h == percent_hundredths(part as nat, total as nat));
    }
    let ghost start = s@;
    push_decimal(s, (h / 100) as u64);
    push_char(s, '.');
    push_char(s, digit(((h % 100) / 10) as u32));
    push_char(s, digit((h % 10) as u32));
    proof {
        assert(s@ =~= start + percent_text(part as nat, total as nat));
    }
}

/// Whether the binary64 ratio of `part` to `total` is at least the binary64
/// value nearest to 2/100.
pub fn at_least_two_percent(part: u64, total: u64) -> (at_least: bool)
    requires
        0 < part <= total,
    ensures
        at_least == ratio_at_least_two_percent(part as nat, total as nat),
{
    let (m1, k1) = ratio_u128(part, total);
    proof {
        lemma_two_hundredths();
        lemma_pow2_constants();
    }
    if k1 > 70 {
        proof {
            lemma_pow2_le(71, k1 as nat);
            lemma_pow2_adds(64, 7);
            assert(m1 * pow2(58) < 5764607523034235 * pow2(k1 as nat)) by (nonlinear_arith)
                requires
                    m1 <= 9007199254740992,
                    pow2(58) == 288230376151711744,
                    pow2(k1 as nat) >= 18446744073709551616 * 128,
            ;
        }
        return false;
    }
    let c = pow2_u128(58);
    let pk = pow2_u128(k1);
    proof {
        lemma_pow2_le(k1 as nat, 70);
        lemma_pow2_adds(64, 6);
        assert(5764607523034235 * pk <= 5764607523034235 * (18446744073709551616 * 64)) by (nonlinear_arith)
            requires
                pk <= 18446744073709551616 * 64,
        ;
        assert(m1 * c <= 9007199254740992 * 288230376151711744) by (nonlinear_arith)
            requires
                m1 <= 9007199254740992,
                c == 288230376151711744,
        ;
    }
    m1 * c >= 5764607523034235 * pk
}

} // verus!
