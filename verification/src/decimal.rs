//! Exact non-negative decimal numbers and their fixed-point normalization.
//!
//! A USD price travels through the library as a [`Decimal`]: an exact value
//! `mantissa / 10^scale`. The canonical on-chain form of a price is
//! `round(price * 10^18)`, rounding half away from zero, held in a `u64`.

use vstd::prelude::*;

verus! {

use vstd::arithmetic::power::{
    pow, lemma_pow0, lemma_pow_adds, lemma_pow_positive, lemma_pow_strictly_increases,
};
use vstd::arithmetic::div_mod::{
    lemma_fundamental_div_mod, lemma_fundamental_div_mod_converse_div, lemma_div_is_ordered,
    lemma_div_denominator, lemma_div_multiples_vanish,
};
use vstd::arithmetic::mul::lemma_mul_is_associative;
use crate::errors::OracleError;

/// Ten to the power `e`, as a mathematical integer.
pub open spec fn pow10(e: nat) -> int {
    pow(10, e)
}

/// `a / d` rounded to the nearest integer, half away from zero,
/// for `a >= 0` and `d > 0`.
pub open spec fn round_div(a: int, d: int) -> int {
    (2 * a + d) / (2 * d)
}

/// An exact, non-negative decimal number: the value `mantissa / 10^scale`.
#[derive(Clone, Copy, Debug, PartialEq, Eq, Structural)]
pub struct Decimal {
    pub mantissa: u128,
    pub scale: usize,
}

impl Decimal {
    /// The canonical fixed-point form of this value:
    /// `round(value * 10^18)`, half away from zero.
    pub open spec fn scaled(self) -> int {
        round_div(self.mantissa * pow10(18), pow10(self.scale as nat))
    }
}

pub proof fn lemma_pow10_pos(e: nat)
    ensures
        pow10(e) >= 1,
{
    lemma_pow_positive(10, e);
}

pub proof fn lemma_pow10_unfold(e: nat)
    ensures
        pow10(e + 1) == 10 * pow10(e),
{
    assert(pow(10, e + 1) == 10 * pow(10, e)) by {
        reveal(pow);
    }
}

pub proof fn lemma_pow10_le(e1: nat, e2: nat)
    requires
        e1 <= e2,
    ensures
        pow10(e1) <= pow10(e2),
{
    if e1 < e2 {
        lemma_pow_strictly_increases(10, e1, e2);
    }
}

/// The concrete powers of ten that the executable code leans on.
pub proof fn lemma_pow10_concrete()
    ensures
        pow10(0) == 1,
        pow10(18) == 1_000_000_000_000_000_000,
        pow10(38) == 100_000_000_000_000_000_000_000_000_000_000_000_000,
        pow10(39) == 1_000_000_000_000_000_000_000_000_000_000_000_000_000,
{
    assert(pow10(0) == 1) by { lemma_pow0(10); }
    assert(pow10(1) == 10) by { lemma_pow10_unfold(0); }
    assert(pow10(2) == 100) by { lemma_pow10_unfold(1); }
    assert(pow10(3) == 1_000) by { lemma_pow10_unfold(2); }
    assert(pow10(4) == 10_000) by { lemma_pow10_unfold(3); }
    assert(pow10(5) == 100_000) by { lemma_pow10_unfold(4); }
    assert(pow10(6) == 1_000_000) by { lemma_pow10_unfold(5); }
    assert(pow10(7) == 10_000_000) by { lemma_pow10_unfold(6); }
    assert(pow10(8) == 100_000_000) by { lemma_pow10_unfold(7); }
    assert(pow10(9) == 1_000_000_000) by { lemma_pow10_unfold(8); }
    assert(pow10(10) == 10_000_000_000) by { lemma_pow10_unfold(9); }
    assert(pow10(11) == 100_000_000_000) by { lemma_pow10_unfold(10); }
    assert(pow10(12) == 1_000_000_000_000) by { lemma_pow10_unfold(11); }
    assert(pow10(13) == 10_000_000_000_000) by { lemma_pow10_unfold(12); }
    assert(pow10(14) == 100_000_000_000_000) by { lemma_pow10_unfold(13); }
    assert(pow10(15) == 1_000_000_000_000_000) by { lemma_pow10_unfold(14); }
    assert(pow10(16) == 10_000_000_000_000_000) by { lemma_pow10_unfold(15); }
    assert(pow10(17) == 100_000_000_000_000_000) by { lemma_pow10_unfold(16); }
    assert(pow10(18) == 1_000_000_000_000_000_000) by { lemma_pow10_unfold(17); }
    assert(pow10(19) == 10_000_000_000_000_000_000) by { lemma_pow10_unfold(18); }
    assert(pow10(20) == 100_000_000_000_000_000_000) by { lemma_pow10_unfold(19); }
    assert(pow10(21) == 1_000_000_000_000_000_000_000) by { lemma_pow10_unfold(20); }
    assert(pow10(22) == 10_000_000_000_000_000_000_000) by { lemma_pow10_unfold(21); }
    assert(pow10(23) == 100_000_000_000_000_000_000_000) by { lemma_pow10_unfold(22); }
    assert(pow10(24) == 1_000_000_000_000_000_000_000_000) by { lemma_pow10_unfold(23); }
    assert(pow10(25) == 10_000_000_000_000_000_000_000_000) by { lemma_pow10_unfold(24); }
    assert(pow10(26) == 100_000_000_000_000_000_000_000_000) by { lemma_pow10_unfold(25); }
    assert(pow10(27) == 1_000_000_000_000_000_000_000_000_000) by { lemma_pow10_unfold(26); }
    assert(pow10(28) == 10_000_000_000_000_000_000_000_000_000) by { lemma_pow10_unfold(27); }
    assert(pow10(29) == 100_000_000_000_000_000_000_000_000_000) by { lemma_pow10_unfold(28); }
    assert(pow10(30) == 1_000_000_000_000_000_000_000_000_000_000) by { lemma_pow10_unfold(29); }
    assert(pow10(31) == 10_000_000_000_000_000_000_000_000_000_000) by { lemma_pow10_unfold(30); }
    assert(pow10(32) == 100_000_000_000_000_000_000_000_000_000_000) by { lemma_pow10_unfold(31); }
    assert(pow10(33) == 1_000_000_000_000_000_000_000_000_000_000_000) by { lemma_pow10_unfold(32); }
    assert(pow10(34) == 10_000_000_000_000_000_000_000_000_000_000_000) by { lemma_pow10_unfold(33); }
    assert(pow10(35) == 100_000_000_000_000_000_000_000_000_000_000_000) by { lemma_pow10_unfold(34); }
    assert(pow10(36) == 1_000_000_000_000_000_000_000_000_000_000_000_000) by { lemma_pow10_unfold(35); }
    assert(pow10(37) == 10_000_000_000_000_000_000_000_000_000_000_000_000) by { lemma_pow10_unfold(36); }
    assert(pow10(38) == 100_000_000_000_000_000_000_000_000_000_000_000_000) by {
        lemma_pow10_unfold(37);
    }
    assert(pow10(39) == 1_000_000_000_000_000_000_000_000_000_000_000_000_000) by {
        lemma_pow10_unfold(38);
    }
}

/// Ten to the power `e`, executable.
pub fn pow10_u128(e: usize) -> (r: u128)
    requires
        e <= 38,
    ensures
        r == pow10(e as nat),
{
    proof {
        lemma_pow10_concrete();
    }
    let mut r: u128 = 1;
    let mut i: usize = 0;
    while i < e
        invariant
            i <= e <= 38,
            r == pow10(i as nat),
        decreases e - i,
    {
        proof {
            lemma_pow10_unfold(i as nat);
            lemma_pow10_le((i + 1) as nat, 38);
            lemma_pow10_concrete();
        }
        r = r * 10;
        i = i + 1;
    }
    r
}

/// How the rounded division is computed: quotient, plus one when the
/// remainder is at least half the divisor.
pub proof fn lemma_round_div_exec(a: int, d: int)
    requires
        a >= 0,
        d >= 1,
    ensures
        round_div(a, d) == a / d + (if 2 * (a % d) >= d { 1int } else { 0int }),
{
    let q = a / d;
    let r = a % d;
    lemma_fundamental_div_mod(a, d);
    if 2 * r < d {
        assert(2 * a + d == q * (2 * d) + (2 * r + d)) by (nonlinear_arith)
            requires
                a == d * q + r,
        ;
        lemma_fundamental_div_mod_converse_div(2 * a + d, 2 * d, q, 2 * r + d);
    } else {
        assert(2 * a + d == (q + 1) * (2 * d) + (2 * r - d)) by (nonlinear_arith)
            requires
                a == d * q + r,
        ;
        lemma_fundamental_div_mod_converse_div(2 * a + d, 2 * d, q + 1, 2 * r - d);
    }
}

/// With a scale of at most 18, the canonical form is the exact product
/// `mantissa * 10^(18 - scale)`: nothing is rounded.
pub proof fn lemma_scaled_low(d: Decimal)
    requires
        d.scale <= 18,
    ensures
        d.scaled() == d.mantissa * pow10((18 - d.scale) as nat),
{
    let m = d.mantissa as int;
    let s = d.scale as nat;
    let k = m * pow10((18 - s) as nat);
    let dd = pow10(s);
    lemma_pow10_pos(s);
    lemma_pow_adds(10, (18 - s) as nat, s);
    assert(m * pow10(18) == k * dd) by {
        lemma_mul_is_associative(m, pow10((18 - s) as nat), dd);
    }
    assert(2 * (k * dd) + dd == k * (2 * dd) + dd) by (nonlinear_arith);
    lemma_fundamental_div_mod_converse_div(2 * (k * dd) + dd, 2 * dd, k, dd);
}

/// With a scale beyond 18, the canonical form is the mantissa divided by
/// `10^(scale - 18)`, rounded half away from zero.
pub proof fn lemma_scaled_mid(d: Decimal)
    requires
        d.scale > 18,
    ensures
        d.scaled() == round_div(d.mantissa as int, pow10((d.scale - 18) as nat)),
{
    let m = d.mantissa as int;
    let s = d.scale as nat;
    let c = pow10(18);
    let dd = pow10((s - 18) as nat);
    lemma_pow10_pos(s);
    lemma_pow10_pos((s - 18) as nat);
    lemma_pow10_pos(18);
    lemma_pow_adds(10, (s - 18) as nat, 18);
    assert(pow10(s) == dd * c);
    // Numerator and denominator share the factor 10^18, which cancels.
    let x = 2 * m + dd;
    assert(2 * (m * c) + pow10(s) == x * c) by (nonlinear_arith)
        requires
            pow10(s) == dd * c,
            x == 2 * m + dd,
    ;
    assert(2 * pow10(s) == (2 * dd) * c) by (nonlinear_arith)
        requires
            pow10(s) == dd * c,
    ;
    assert((x * c) / ((2 * dd) * c) == x / (2 * dd)) by {
        lemma_div_denominator(x * c, c, 2 * dd);
        assert((x * c) / c == x) by {
            lemma_div_multiples_vanish(x, c);
            assert(c * x == x * c) by (nonlinear_arith);
        }
        assert(c * (2 * dd) == (2 * dd) * c) by (nonlinear_arith);
    }
}

/// A scale beyond 56 pushes any representable mantissa below one half,
/// so the canonical form rounds to zero.
pub proof fn lemma_scaled_huge(d: Decimal)
    requires
        d.scale > 56,
    ensures
        d.scaled() == 0,
{
    let m = d.mantissa as int;
    let s = d.scale as nat;
    lemma_pow10_concrete();
    lemma_pow10_pos(s);
    assert(2 * m < pow10(39));
    lemma_pow_adds(10, 39, 18);
    assert(pow10(57) == pow10(39) * pow10(18));
    assert(2 * (m * pow10(18)) < pow10(57)) by (nonlinear_arith)
        requires
            2 * m < pow10(39),
            pow10(57) == pow10(39) * pow10(18),
            pow10(18) >= 1,
            m >= 0,
    ;
    lemma_pow10_le(57, s);
    let a = m * pow10(18);
    let dd = pow10(s);
    assert(0 <= 2 * a + dd < 2 * dd) by {
        assert(a >= 0) by (nonlinear_arith)
            requires
                m >= 0,
                pow10(18) >= 1,
                a == m * pow10(18),
        ;
    }
    assert((2 * a + dd) / (2 * dd) == 0) by {
        vstd::arithmetic::div_mod::lemma_basic_div(2 * a + dd, 2 * dd);
    }
}

/// A zero mantissa normalizes to zero, whatever the scale.
pub proof fn lemma_scaled_of_zero(d: Decimal)
    requires
        d.mantissa == 0,
    ensures
        d.scaled() == 0,
{
    let dd = pow10(d.scale as nat);
    lemma_pow10_pos(d.scale as nat);
    assert(d.mantissa * pow10(18) == 0) by (nonlinear_arith)
        requires
            d.mantissa == 0,
    ;
    assert(dd / (2 * dd) == 0) by {
        vstd::arithmetic::div_mod::lemma_basic_div(dd, 2 * dd);
    }
}

/// Normalizes when the result fits; reports overflow otherwise.
pub fn try_normalize(d: Decimal) -> (r: Option<u64>)
    ensures
        match r {
            Some(v) => d.scaled() <= u64::MAX && v == d.scaled(),
            None => d.scaled() > u64::MAX,
        },
{
    proof {
        lemma_pow10_concrete();
    }
    if d.scale <= 18 {
        let f = pow10_u128(18 - d.scale);
        proof {
            lemma_scaled_low(d);
            lemma_pow10_pos((18 - d.scale) as nat);
            lemma_pow10_le((18 - d.scale) as nat, 38);
        }
        let limit = (u64::MAX as u128) / f;
        if d.mantissa > limit {
            proof {
                let q = (u64::MAX as u128) / (f as u128);
                lemma_fundamental_div_mod(u64::MAX as int, f as int);
                assert(d.mantissa * f > u64::MAX) by (nonlinear_arith)
                    requires
                        u64::MAX == f * q + (u64::MAX as int) % (f as int),
                        (u64::MAX as int) % (f as int) < f,
                        d.mantissa > q,
                        f >= 1,
                ;
            }
            None
        } else {
            proof {
                let q = (u64::MAX as u128) / (f as u128);
                lemma_fundamental_div_mod(u64::MAX as int, f as int);
                assert(d.mantissa * f <= u64::MAX) by (nonlinear_arith)
                    requires
                        u64::MAX == f * q + (u64::MAX as int) % (f as int),
                        (u64::MAX as int) % (f as int) >= 0,
                        d.mantissa <= q,
                        d.mantissa >= 0,
                        f >= 1,
                ;
            }
            let p = d.mantissa * f;
            Some(p as u64)
        }
    } else if d.scale <= 56 {
        let dd = pow10_u128(d.scale - 18);
        proof {
            lemma_scaled_mid(d);
            lemma_pow10_pos((d.scale - 18) as nat);
            lemma_round_div_exec(d.mantissa as int, dd as int);
        }
        let q = d.mantissa / dd;
        let rem = d.mantissa % dd;
        let res = if rem >= dd - rem {
            proof {
                assert(q < u128::MAX) by {
                    lemma_pow10_unfold(0);
                    lemma_pow10_le(1, (d.scale - 18) as nat);
                    lemma_fundamental_div_mod(d.mantissa as int, dd as int);
                    assert(d.mantissa >= dd * q) by (nonlinear_arith)
                        requires
                            d.mantissa == dd * q + rem,
                            rem >= 0,
                    ;
                    assert(dd * q >= 2 * q) by (nonlinear_arith)
                        requires
                            dd >= 10,
                            q >= 0,
                    ;
                }
            }
            q + 1
        } else {
            q
        };
        if res <= u64::MAX as u128 {
            Some(res as u64)
        } else {
            None
        }
    } else {
        proof {
            lemma_scaled_huge(d);
        }
        Some(0)
    }
}

/// Converts a price to its canonical on-chain form: `round(value * 10^18)`,
/// half away from zero. The value must fit the unsigned 64-bit range.
pub fn normalize(d: Decimal) -> (r: u64)
    requires
        d.scaled() <= u64::MAX,
    ensures
        r == d.scaled(),
{
    match try_normalize(d) {
        Some(v) => v,
        None => 0,
    }
}

/// Normalization is monotonic: a value no greater than another normalizes
/// to a result no greater than the other's. The hypothesis
/// `a.mantissa * 10^b.scale <= b.mantissa * 10^a.scale` states
/// `a <= b` as decimals with the denominators cleared.
pub proof fn lemma_normalize_monotonic(a: Decimal, b: Decimal)
    requires
        a.mantissa * pow10(b.scale as nat) <= b.mantissa * pow10(a.scale as nat),
    ensures
        a.scaled() <= b.scaled(),
{
    let m1 = a.mantissa as int;
    let m2 = b.mantissa as int;
    let d1 = pow10(a.scale as nat);
    let d2 = pow10(b.scale as nat);
    let c = pow10(18);
    lemma_pow10_pos(a.scale as nat);
    lemma_pow10_pos(b.scale as nat);
    lemma_pow10_pos(18);
    let a1 = m1 * c;
    let a2 = m2 * c;
    let x = 2 * a1 + d1;
    let y = 2 * a2 + d2;
    assert(a1 >= 0 && a2 >= 0 && x >= 0 && y >= 0) by (nonlinear_arith)
        requires
            m1 >= 0,
            m2 >= 0,
            c >= 1,
            d1 >= 1,
            d2 >= 1,
            a1 == m1 * c,
            a2 == m2 * c,
            x == 2 * a1 + d1,
            y == 2 * a2 + d2,
    ;
    assert(x * (2 * d2) <= y * (2 * d1)) by (nonlinear_arith)
        requires
            m1 * d2 <= m2 * d1,
            c >= 1,
            d1 >= 1,
            d2 >= 1,
            a1 == m1 * c,
            a2 == m2 * c,
            x == 2 * a1 + d1,
            y == 2 * a2 + d2,
    ;
    lemma_div_cross_ordered(x, y, 2 * d1, 2 * d2);
}

/// An ASCII decimal digit.
pub open spec fn is_digit(b: u8) -> bool {
    48 <= b && b <= 57
}

/// Every byte of the sequence is an ASCII digit.
pub open spec fn all_digits(s: Seq<u8>) -> bool {
    forall|i: int| 0 <= i < s.len() ==> is_digit(#[trigger] s[i])
}

/// The integer that a sequence of ASCII digits denotes, most significant
/// digit first. The empty sequence denotes zero.
pub open spec fn digits_val(s: Seq<u8>) -> int
    decreases s.len(),
{
    if s.len() == 0 {
        0
    } else {
        10 * digits_val(s.drop_last()) + (s.last() - 48)
    }
}

/// Whether the sequence holds an ASCII decimal point.
pub open spec fn has_dot(s: Seq<u8>) -> bool {
    exists|i: int| 0 <= i < s.len() && s[i] == 46
}

/// The position of the decimal point, or the length when there is none.
/// Meaningful only for sequences with at most one point.
pub open spec fn dot_pos(s: Seq<u8>) -> int {
    if has_dot(s) {
        choose|i: int| 0 <= i < s.len() && s[i] == 46
    } else {
        s.len() as int
    }
}

/// The decimal-number grammar the library accepts: non-empty, every byte a
/// digit or a point, at most one point, and at least one digit.
pub open spec fn valid_decimal(s: Seq<u8>) -> bool {
    &&& s.len() > 0
    &&& (forall|i: int| 0 <= i < s.len() ==> is_digit(#[trigger] s[i]) || s[i] == 46)
    &&& (forall|i: int, j: int| 0 <= i < j < s.len() && s[i] == 46 ==> s[j] != 46)
    &&& (exists|i: int| 0 <= i < s.len() && is_digit(#[trigger] s[i]))
}

/// The digits before the decimal point.
pub open spec fn int_part(s: Seq<u8>) -> Seq<u8> {
    s.subrange(0, dot_pos(s))
}

/// The digits after the decimal point, empty when there is none.
pub open spec fn frac_part(s: Seq<u8>) -> Seq<u8> {
    if has_dot(s) {
        s.subrange(dot_pos(s) + 1, s.len() as int)
    } else {
        Seq::empty()
    }
}

/// How many fractional digits the number carries.
pub open spec fn dec_scale(s: Seq<u8>) -> nat {
    frac_part(s).len()
}

/// The numerator of the number: the digits with the point removed.
pub open spec fn dec_num(s: Seq<u8>) -> int {
    digits_val(int_part(s)) * pow10(dec_scale(s)) + digits_val(frac_part(s))
}

/// A byte sequence the parser accepts: well-formed, with a numerator the
/// mantissa type can hold.
pub open spec fn parseable(s: Seq<u8>) -> bool {
    valid_decimal(s) && dec_num(s) <= u128::MAX
}

/// The decimal a parseable byte sequence denotes.
pub open spec fn decimal_of(s: Seq<u8>) -> Decimal {
    Decimal { mantissa: dec_num(s) as u128, scale: dec_scale(s) as usize }
}

/// The canonical fixed-point form of the number a byte sequence denotes.
pub open spec fn normalized_of(s: Seq<u8>) -> int {
    decimal_of(s).scaled()
}

/// A sequence of digits denotes a non-negative integer.
pub proof fn lemma_digits_val_nonneg(s: Seq<u8>)
    requires
        all_digits(s),
    ensures
        digits_val(s) >= 0,
    decreases s.len(),
{
    if s.len() > 0 {
        lemma_digits_val_nonneg(s.drop_last());
    }
}

/// Concatenation of digit strings: the left part is shifted past the right.
pub proof fn lemma_digits_val_append(x: Seq<u8>, y: Seq<u8>)
    ensures
        digits_val(x + y) == digits_val(x) * pow10(y.len()) + digits_val(y),
    decreases y.len(),
{
    if y.len() == 0 {
        assert(x + y =~= x);
        lemma_pow0(10);
        assert(digits_val(x) * 1 == digits_val(x)) by (nonlinear_arith);
    } else {
        let y0 = y.drop_last();
        lemma_digits_val_append(x, y0);
        assert((x + y).drop_last() =~= x + y0);
        assert((x + y).last() == y.last());
        lemma_pow10_unfold(y0.len());
        assert(10 * (digits_val(x) * pow10(y0.len()) + digits_val(y0)) + (y.last() - 48)
            == digits_val(x) * pow10(y.len()) + digits_val(y)) by (nonlinear_arith)
            requires
                pow10(y.len()) == 10 * pow10(y0.len()),
                digits_val(y) == 10 * digits_val(y0) + (y.last() - 48),
                y0.len() == y.len() - 1,
        ;
    }
}

/// The value of a digit string bounds each of its prefixes from above.
pub proof fn lemma_digits_val_prefix(s: Seq<u8>, i: int)
    requires
        all_digits(s),
        0 <= i <= s.len(),
    ensures
        digits_val(s) >= digits_val(s.subrange(0, i)),
{
    let p = s.subrange(0, i);
    let q = s.subrange(i, s.len() as int);
    assert(s =~= p + q);
    lemma_digits_val_append(p, q);
    lemma_digits_val_nonneg(p);
    lemma_digits_val_nonneg(q);
    lemma_pow10_pos(q.len());
    assert(digits_val(p) * pow10(q.len()) >= digits_val(p)) by (nonlinear_arith)
        requires
            digits_val(p) >= 0,
            pow10(q.len()) >= 1,
    ;
}

/// With at most one point in the sequence, a point found at `k` is the
/// point: `dot_pos` picks it.
pub proof fn lemma_dot_pos_unique(s: Seq<u8>, k: int)
    requires
        0 <= k < s.len(),
        s[k] == 46,
        forall|i: int, j: int| 0 <= i < j < s.len() && s[i] == 46 ==> s[j] != 46,
    ensures
        has_dot(s),
        dot_pos(s) == k,
{
    assert(has_dot(s));
    let p = dot_pos(s);
    assert(0 <= p < s.len() && s[p] == 46);
    if p < k {
        assert(s[k] != 46);
    } else if k < p {
        assert(s[p] != 46);
    }
}

/// Lower bound on a valid number's numerator from a scanned all-digit
/// prefix that has not yet reached a decimal point.
proof fn lemma_dec_num_lower_no_dot(s: Seq<u8>, i: int)
    requires
        valid_decimal(s),
        0 <= i <= s.len(),
        forall|j: int| 0 <= j < i ==> is_digit(#[trigger] s[j]),
    ensures
        dec_num(s) >= digits_val(s.subrange(0, i)),
{
    let p = dot_pos(s);
    if has_dot(s) {
        assert(0 <= p < s.len() && s[p] == 46);
        assert(p >= i) by {
            if p < i {
                assert(is_digit(s[p]));
            }
        }
    }
    assert(all_digits(int_part(s)));
    assert(all_digits(frac_part(s)));
    lemma_digits_val_prefix(int_part(s), i);
    assert(int_part(s).subrange(0, i) =~= s.subrange(0, i));
    lemma_digits_val_nonneg(int_part(s));
    lemma_digits_val_nonneg(frac_part(s));
    lemma_pow10_pos(dec_scale(s));
    assert(digits_val(int_part(s)) * pow10(dec_scale(s)) >= digits_val(int_part(s)))
        by (nonlinear_arith)
        requires
            digits_val(int_part(s)) >= 0,
            pow10(dec_scale(s)) >= 1,
    ;
}

/// Lower bound on a valid number's numerator from a scanned prefix whose
/// decimal point stood at `k`.
proof fn lemma_dec_num_lower_with_dot(s: Seq<u8>, k: int, i: int)
    requires
        valid_decimal(s),
        0 <= k < i <= s.len(),
        s[k] == 46,
        forall|j: int| 0 <= j < i && j != k ==> is_digit(#[trigger] s[j]),
    ensures
        dec_num(s) >= digits_val(s.subrange(0, k)) * pow10((i - k - 1) as nat) + digits_val(
            s.subrange(k + 1, i),
        ),
{
    lemma_dot_pos_unique(s, k);
    let a = digits_val(int_part(s));
    let scanned = s.subrange(k + 1, i);
    let rest = s.subrange(i, s.len() as int);
    assert(frac_part(s) =~= scanned + rest);
    assert(all_digits(frac_part(s)));
    assert(all_digits(scanned));
    assert(all_digits(rest));
    lemma_digits_val_append(scanned, rest);
    lemma_digits_val_nonneg(scanned);
    lemma_digits_val_nonneg(rest);
    lemma_pow10_pos(rest.len());
    assert(digits_val(frac_part(s)) >= digits_val(scanned)) by (nonlinear_arith)
        requires
            digits_val(frac_part(s)) == digits_val(scanned) * pow10(rest.len()) + digits_val(rest),
            digits_val(scanned) >= 0,
            digits_val(rest) >= 0,
            pow10(rest.len()) >= 1,
    ;
    assert(all_digits(int_part(s)));
    lemma_digits_val_nonneg(int_part(s));
    lemma_pow10_le((i - k - 1) as nat, dec_scale(s));
    lemma_pow10_pos((i - k - 1) as nat);
    assert(a * pow10(dec_scale(s)) >= a * pow10((i - k - 1) as nat)) by (nonlinear_arith)
        requires
            a >= 0,
            pow10(dec_scale(s)) >= pow10((i - k - 1) as nat),
    ;
}

/// Parses a non-negative decimal number written as ASCII bytes: digits
/// with at most one decimal point and at least one digit. Rejects
/// anything else, and any numerator past the mantissa range, as a
/// numeric error.
pub fn parse_decimal(s: &[u8]) -> (r: Result<Decimal, OracleError>)
    ensures
        match r {
            Ok(d) => parseable(s@) && d == decimal_of(s@),
            Err(e) => e is Numeric && !parseable(s@),
        },
{
    let n = s.len();
    if n == 0 {
        return Err(OracleError::Numeric);
    }
    let mut m: u128 = 0;
    let mut dot: bool = false;
    let mut k: usize = 0;
    let mut i: usize = 0;
    proof {
        lemma_pow10_concrete();
    }
    while i < n
        invariant
            0 <= i <= n,
            n == s@.len(),
            !dot ==> (forall|j: int| 0 <= j < i ==> is_digit(#[trigger] s@[j])) && m == digits_val(
                s@.subrange(0, i as int),
            ),
            dot ==> k < i && s@[k as int] == 46 && (forall|j: int|
                0 <= j < i && j != k ==> is_digit(#[trigger] s@[j])) && m == digits_val(
                s@.subrange(0, k as int),
            ) * pow10((i - k - 1) as nat) + digits_val(s@.subrange(k as int + 1, i as int)),
        decreases n - i,
    {
        let b = s[i];
        if 48 <= b && b <= 57 {
            let dv = (b - 48) as u128;
            let limit = (u128::MAX - dv) / 10;
            if m > limit {
                proof {
                    let q = (u128::MAX - dv) / 10;
                    lemma_fundamental_div_mod(u128::MAX - dv, 10);
                    assert(10 * m + dv > u128::MAX) by (nonlinear_arith)
                        requires
                            u128::MAX - dv == 10 * q + (u128::MAX - dv) % 10,
                            (u128::MAX - dv) % 10 < 10,
                            m > q,
                    ;
                    if parseable(s@) {
                        assert(s@.subrange(0, i as int + 1).drop_last() =~= s@.subrange(
                            0,
                            i as int,
                        ));
                        assert(s@.subrange(0, i as int + 1).last() == s@[i as int]);
                        if !dot {
                            lemma_dec_num_lower_no_dot(s@, i as int + 1);
                            assert(digits_val(s@.subrange(0, i as int + 1)) == 10 * m + dv);
                        } else {
                            lemma_dec_num_lower_with_dot(s@, k as int, i as int + 1);
                            let fp = s@.subrange(k as int + 1, i as int + 1);
                            assert(fp.drop_last() =~= s@.subrange(k as int + 1, i as int));
                            assert(fp.last() == s@[i as int]);
                            lemma_pow10_unfold((i - k - 1) as nat);
                            assert(digits_val(s@.subrange(0, k as int)) * pow10(
                                (i + 1 - k - 1) as nat,
                            ) + digits_val(fp) == 10 * m + dv) by (nonlinear_arith)
                                requires
                                    pow10((i + 1 - k - 1) as nat) == 10 * pow10((i - k - 1) as nat),
                                    digits_val(fp) == 10 * digits_val(
                                        s@.subrange(k as int + 1, i as int),
                                    ) + dv,
                                    m == digits_val(s@.subrange(0, k as int)) * pow10(
                                        (i - k - 1) as nat,
                                    ) + digits_val(s@.subrange(k as int + 1, i as int)),
                            ;
                        }
                        assert(dec_num(s@) > u128::MAX);
                    }
                }
                return Err(OracleError::Numeric);
            }
            proof {
                let q = (u128::MAX - dv) / 10;
                lemma_fundamental_div_mod(u128::MAX - dv, 10);
                assert(10 * m + dv <= u128::MAX) by (nonlinear_arith)
                    requires
                        u128::MAX - dv == 10 * q + (u128::MAX - dv) % 10,
                        (u128::MAX - dv) % 10 >= 0,
                        0 <= m <= q,
                ;
                assert(s@.subrange(0, i as int + 1).drop_last() =~= s@.subrange(0, i as int));
                assert(s@.subrange(0, i as int + 1).last() == s@[i as int]);
                if dot {
                    let fp = s@.subrange(k as int + 1, i as int + 1);
                    assert(fp.drop_last() =~= s@.subrange(k as int + 1, i as int));
                    assert(fp.last() == s@[i as int]);
                    lemma_pow10_unfold((i - k - 1) as nat);
                    assert(digits_val(s@.subrange(0, k as int)) * pow10((i + 1 - k - 1) as nat)
                        + digits_val(fp) == 10 * m + dv) by (nonlinear_arith)
                        requires
                            pow10((i + 1 - k - 1) as nat) == 10 * pow10((i - k - 1) as nat),
                            digits_val(fp) == 10 * digits_val(s@.subrange(k as int + 1, i as int))
                                + dv,
                            m == digits_val(s@.subrange(0, k as int)) * pow10((i - k - 1) as nat)
                                + digits_val(s@.subrange(k as int + 1, i as int)),
                    ;
                }
            }
            m = m * 10 + dv;
        } else if b == 46 {
            if dot {
                proof {
                    assert(!valid_decimal(s@)) by {
                        assert(s@[k as int] == 46 && s@[i as int] == 46 && k < i);
                    }
                }
                return Err(OracleError::Numeric);
            }
            dot = true;
            k = i;
            proof {
                lemma_pow0(10);
                assert(s@.subrange(i as int + 1, i as int + 1) =~= Seq::<u8>::empty());
                assert(m * pow10(0) + digits_val(Seq::<u8>::empty()) == m) by (nonlinear_arith)
                    requires
                        pow10(0) == 1,
                ;
            }
        } else {
            proof {
                assert(!valid_decimal(s@)) by {
                    assert(!is_digit(s@[i as int]) && s@[i as int] != 46);
                }
            }
            return Err(OracleError::Numeric);
        }
        i = i + 1;
    }
    if dot && n == 1 {
        proof {
            assert(!valid_decimal(s@)) by {
                assert(forall|j: int| 0 <= j < s@.len() ==> !is_digit(#[trigger] s@[j])) by {
                    assert(s@[0] == 46);
                }
            }
        }
        return Err(OracleError::Numeric);
    }
    let scale = if dot {
        n - k - 1
    } else {
        0
    };
    proof {
        if !dot {
            assert(!has_dot(s@)) by {
                if has_dot(s@) {
                    let p = choose|p: int| 0 <= p < s@.len() && s@[p] == 46;
                    assert(is_digit(s@[p]));
                }
            }
            assert(s@.subrange(0, n as int) =~= s@);
            assert(valid_decimal(s@)) by {
                assert(is_digit(s@[0]));
            }
            assert(frac_part(s@) =~= Seq::<u8>::empty());
            lemma_pow0(10);
            assert(dec_num(s@) == m) by (nonlinear_arith)
                requires
                    pow10(dec_scale(s@)) == 1,
                    dec_scale(s@) == 0,
                    digits_val(int_part(s@)) == m,
                    digits_val(frac_part(s@)) == 0,
                    dec_num(s@) == digits_val(int_part(s@)) * pow10(dec_scale(s@)) + digits_val(
                        frac_part(s@),
                    ),
            ;
        } else {
            assert(valid_decimal(s@)) by {
                assert(forall|x: int, y: int|
                    0 <= x < y < s@.len() && s@[x] == 46 ==> s@[y] != 46) by {
                    assert forall|x: int, y: int|
                        0 <= x < y < s@.len() && s@[x] == 46 implies s@[y] != 46 by {
                        if x != k as int {
                            assert(is_digit(s@[x]));
                        } else {
                            assert(is_digit(s@[y]));
                        }
                    }
                }
                let w: int = if k == 0 { 1 } else { 0 };
                assert(is_digit(s@[w]));
            }
            lemma_dot_pos_unique(s@, k as int);
            assert(int_part(s@) =~= s@.subrange(0, k as int));
            assert(frac_part(s@) =~= s@.subrange(k as int + 1, n as int));
        }
    }
    Ok(Decimal { mantissa: m, scale })
}

/// Cross-multiplied ordering carries over to the integer quotients:
/// from `x * e <= y * c` follows `x / c <= y / e`.
pub proof fn lemma_div_cross_ordered(x: int, y: int, c: int, e: int)
    requires
        x >= 0,
        y >= 0,
        c >= 1,
        e >= 1,
        x * e <= y * c,
    ensures
        x / c <= y / e,
{
    assert((x * e) / (c * e) == x / c) by {
        lemma_div_denominator(x * e, e, c);
        assert((x * e) / e == x) by {
            lemma_div_multiples_vanish(x, e);
            assert(e * x == x * e) by (nonlinear_arith);
        }
        assert(e * c == c * e) by (nonlinear_arith);
    }
    assert((y * c) / (c * e) == y / e) by {
        lemma_div_denominator(y * c, c, e);
        assert((y * c) / c == y) by {
            lemma_div_multiples_vanish(y, c);
            assert(c * y == y * c) by (nonlinear_arith);
        }
    }
    assert(c * e >= 1) by (nonlinear_arith)
        requires
            c >= 1,
            e >= 1,
    ;
    lemma_div_is_ordered(x * e, y * c, c * e);
}

} // verus!
