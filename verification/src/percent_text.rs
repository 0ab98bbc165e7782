//! Percentages in decimal, with one digit after the point.

use crate::percent::{
    lemma_nearest_complement, lemma_nearest_scaled, nearest_even, Percent, HIDDEN_BIT, SIGN_BIT,
};
use crate::text;
use crate::text::{decimal, digit};
use vstd::arithmetic::div_mod::{
    lemma_div_denominator, lemma_fundamental_div_mod, lemma_fundamental_div_mod_converse,
};
use vstd::arithmetic::power::{lemma_pow0, lemma_pow1, lemma_pow_adds, lemma_pow_positive, pow};
use vstd::arithmetic::power2::{
    lemma2_to64, lemma2_to64_rest, lemma_pow2_adds, lemma_pow2_pos, lemma_pow2_strictly_increases,
    pow2,
};
use vstd::bits::lemma_u64_shl_is_mul;
use vstd::prelude::*;

verus! {

// ---------------------------------------------------------------------------
// Large numbers in decimal
// ---------------------------------------------------------------------------
/// The number that decimal digits stand for, the least significant first.
pub open spec fn digits_value(digits: Seq<u8>) -> int
    decreases digits.len(),
{
    if digits.len() == 0 {
        0
    } else {
        digits_value(digits.drop_last()) + digits.last() * pow(10, (digits.len() - 1) as nat)
    }
}

/// Whether some numbers are the decimal digits of a number, without zeros in front.
pub open spec fn are_digits(digits: Seq<u8>) -> bool {
    &&& digits.len() > 0
    &&& forall|i: int| 0 <= i < digits.len() ==> #[trigger] digits[i] < 10
    &&& digits.len() > 1 ==> digits.last() != 0
}

/// Digits as text, the most significant first.
pub open spec fn digits_text(digits: Seq<u8>) -> Seq<char> {
    Seq::new(digits.len(), |i: int| digit(digits[digits.len() - 1 - i] as nat))
}

/// The number that digits stand for, seen from the least significant one.
proof fn lemma_value_from_the_front(digits: Seq<u8>)
    requires
        digits.len() > 0,
    ensures
        digits_value(digits) == digits[0] + 10 * digits_value(digits.skip(1)),
    decreases digits.len(),
{
    if digits.len() == 1 {
        assert(digits.drop_last() =~= Seq::empty());
        assert(digits.skip(1) =~= Seq::empty());
        lemma_pow0(10);
    } else {
        let front = digits.drop_last();
        lemma_value_from_the_front(front);
        assert(digits.skip(1).drop_last() =~= front.skip(1));
        assert(digits.skip(1).last() == digits.last());
        let p = pow(10, (digits.len() - 2) as nat);
        lemma_pow_adds(10, 1, (digits.len() - 2) as nat);
        lemma_pow1(10);
        assert(pow(10, (digits.len() - 1) as nat) == 10 * p);
        let d = digits.last() as int;
        assert(d * (10 * p) == 10 * (d * p)) by (nonlinear_arith);
    }
}

/// No digit stands for less than nothing.
proof fn lemma_value_is_not_negative(digits: Seq<u8>)
    ensures
        digits_value(digits) >= 0,
    decreases digits.len(),
{
    if digits.len() > 0 {
        lemma_value_is_not_negative(digits.drop_last());
        lemma_pow_positive(10, (digits.len() - 1) as nat);
        let d = digits.last() as int;
        let p = pow(10, (digits.len() - 1) as nat);
        assert(d * p >= 0) by (nonlinear_arith)
            requires
                d >= 0,
                p > 0,
        ;
    }
}

/// The digits of a number are its decimal.
proof fn lemma_digits_are_decimal(digits: Seq<u8>)
    requires
        are_digits(digits),
    ensures
        digits_value(digits) >= 0,
        digits.len() > 1 ==> digits_value(digits) >= 10,
        decimal(digits_value(digits) as nat) == digits_text(digits),
    decreases digits.len(),
{
    lemma_value_from_the_front(digits);
    let rest = digits.skip(1);
    let n = digits_value(digits);
    if digits.len() == 1 {
        assert(rest =~= Seq::empty());
        assert(n == digits[0]);
        assert(decimal(n as nat) =~= digits_text(digits));
    } else {
        assert forall|i: int| 0 <= i < rest.len() implies #[trigger] rest[i] < 10 by {
            assert(rest[i] == digits[i + 1]);
        }
        assert(rest.last() == digits.last());
        lemma_digits_are_decimal(rest);
        let upper = digits_value(rest);
        if rest.len() == 1 {
            lemma_value_from_the_front(rest);
            assert(rest.skip(1) =~= Seq::empty());
            assert(upper == rest[0]);
        }
        assert(upper >= 1);
        assert(n == 10 * upper + digits[0]);
        lemma_fundamental_div_mod_converse(n, 10, upper, digits[0] as int);
        assert(decimal(n as nat) == decimal(upper as nat).push(digit(digits[0] as nat)));
        assert(decimal(n as nat) =~= digits_text(digits));
    }
}

/// The digits of a number.
fn digits_of(n: u64) -> (r: Vec<u8>)
    ensures
        are_digits(r@),
        digits_value(r@) == n,
{
    let mut digits: Vec<u8> = Vec::new();
    let mut rest: u64 = n;
    digits.push((rest % 10) as u8);
    rest = rest / 10;
    proof {
        assert(digits@.drop_last() =~= Seq::empty());
        assert(digits_value(Seq::<u8>::empty()) == 0);
        lemma_pow0(10);
        lemma_pow1(10);
        assert(digits_value(digits@) == digits@[0]);
        assert(digits_value(digits@) + rest * pow(10, 1) == n);
    }
    while rest > 0
        invariant
            digits@.len() > 0,
            forall|i: int| 0 <= i < digits@.len() ==> #[trigger] digits@[i] < 10,
            digits@.len() > 1 && rest == 0 ==> digits@.last() != 0,
            digits_value(digits@) + rest * pow(10, digits@.len()) == n,
        decreases rest,
    {
        let ghost before = digits@;
        let ghost p = pow(10, before.len());
        let low: u64 = rest % 10;
        let high: u64 = rest / 10;
        digits.push(low as u8);
        proof {
            assert(digits@.drop_last() =~= before);
            lemma_pow_adds(10, 1, before.len());
            lemma_pow1(10);
            assert(low * p + high * (10 * p) == rest * p) by (nonlinear_arith)
                requires
                    rest == 10 * high + low,
            ;
        }
        rest = high;
    }
    proof {
        let p = pow(10, digits@.len());
        assert(0 * p == 0);
    }
    digits
}

/// The digits of twice a number.
fn doubled(digits: &Vec<u8>) -> (r: Vec<u8>)
    requires
        are_digits(digits@),
    ensures
        are_digits(r@),
        digits_value(r@) == 2 * digits_value(digits@),
{
    let mut out: Vec<u8> = Vec::new();
    let mut carry: u8 = 0;
    let mut i: usize = 0;
    assert(digits@.take(0) =~= Seq::empty());
    while i < digits.len()
        invariant
            0 <= i <= digits@.len(),
            are_digits(digits@),
            carry <= 1,
            out@.len() == i,
            forall|j: int| 0 <= j < out@.len() ==> #[trigger] out@[j] < 10,
            digits_value(out@) + carry * pow(10, i as nat) == 2 * digits_value(
                digits@.take(i as int),
            ),
            i == digits@.len() && i > 1 ==> carry == 1 || out@.last() != 0,
        decreases digits@.len() - i,
    {
        let ghost before = out@;
        let ghost p = pow(10, i as nat);
        let ghost d = digits@[i as int] as int;
        let ghost c = carry as int;
        let twice: u8 = 2 * digits[i] + carry;
        out.push(twice % 10);
        carry = twice / 10;
        proof {
            assert(out@.drop_last() =~= before);
            assert(digits@.take(i + 1).drop_last() =~= digits@.take(i as int));
            assert(digits@.take(i + 1).last() == digits@[i as int]);
            lemma_pow_adds(10, 1, i as nat);
            lemma_pow1(10);
            let low = (twice % 10) as int;
            let high = carry as int;
            assert(low * p + high * (10 * p) == c * p + 2 * (d * p)) by (nonlinear_arith)
                requires
                    low + 10 * high == 2 * d + c,
            ;
        }
        i = i + 1;
    }
    assert(digits@.take(i as int) =~= digits@);
    if carry > 0 {
        let ghost before = out@;
        let ghost p = pow(10, i as nat);
        out.push(carry);
        proof {
            assert(out@.drop_last() =~= before);
        }
    } else {
        proof {
            let p = pow(10, i as nat);
            assert(0 * p == 0);
        }
    }
    out
}

/// Digits as text.
fn write_digits(digits: &Vec<u8>) -> (r: String)
    requires
        are_digits(digits@),
    ensures
        r@ == digits_text(digits@),
{
    let mut out = String::new();
    let mut left: usize = digits.len();
    let ghost shown = digits_text(digits@);
    assert(out@ =~= shown.take(0));
    while left > 0
        invariant
            0 <= left <= digits@.len(),
            are_digits(digits@),
            shown == digits_text(digits@),
            out@ == shown.take(digits@.len() - left),
        decreases left,
    {
        left = left - 1;
        let ghost at = digits@.len() - 1 - left;
        let c: char = (48 + digits[left]) as char;
        assert(shown[at] == c);
        out.push(c);
        assert(out@ =~= shown.take(at + 1));
    }
    assert(shown.take(digits@.len() as int) =~= shown);
    out
}

/// A number times a power of two, in decimal.
fn scaled_decimal(n: u64, doublings: u32) -> (r: String)
    ensures
        r@ == decimal((n * pow2(doublings as nat)) as nat),
{
    let mut digits = digits_of(n);
    let mut i: u32 = 0;
    proof {
        lemma2_to64();
        assert(n * pow2(0) == n) by {
            assert(pow2(0) == 1);
        }
    }
    while i < doublings
        invariant
            0 <= i <= doublings,
            are_digits(digits@),
            digits_value(digits@) == n * pow2(i as nat),
        decreases doublings - i,
    {
        proof {
            lemma2_to64();
            lemma_pow2_adds(1, i as nat);
            let p = pow2(i as nat) as int;
            assert(2 * (n * p) == n * (2 * p)) by (nonlinear_arith);
        }
        digits = doubled(&digits);
        i = i + 1;
    }
    proof {
        lemma_digits_are_decimal(digits@);
    }
    write_digits(&digits)
}

// ---------------------------------------------------------------------------
// Magnitudes
// ---------------------------------------------------------------------------
/// A magnitude in units of 2^-1074, in tenths: the nearest whole number of them, and of
/// two equally near the even one.
pub open spec fn tenths(magnitude: int) -> int {
    nearest_even(10 * magnitude, pow2(1074) as int)
}

/// A magnitude in units of 2^-1074, in decimal with one digit after the point.
pub open spec fn magnitude_text(magnitude: int) -> Seq<char> {
    decimal((tenths(magnitude) / 10) as nat).push('.').push(
        digit((tenths(magnitude) % 10) as nat),
    )
}

/// A whole number is its own tenths, ten for each.
proof fn lemma_whole_tenths(m: int, k: int)
    requires
        m >= 0,
        k >= 1074,
    ensures
        ({
            let whole = m * pow2((k - 1074) as nat);
            &&& whole >= 0
            &&& tenths(m * pow2(k as nat)) == 10 * whole
        }),
{
    let unit = pow2(1074) as int;
    let p = pow2((k - 1074) as nat) as int;
    let whole = m * p;
    lemma_pow2_pos(1074);
    lemma_pow2_pos((k - 1074) as nat);
    lemma_pow2_adds((k - 1074) as nat, 1074);
    assert(whole >= 0) by (nonlinear_arith)
        requires
            whole == m * p,
            m >= 0,
            p > 0,
    ;
    assert(10 * (m * (p * unit)) == (10 * whole) * unit + 0) by (nonlinear_arith)
        requires
            whole == m * p,
    ;
    lemma_fundamental_div_mod_converse(10 * (m * pow2(k as nat)), unit, 10 * whole, 0);
}

/// Below 2^53 the tenths are a quotient of small numbers.
proof fn lemma_small_tenths(m: int, k: int)
    requires
        m >= 0,
        0 <= k < 1074,
    ensures
        tenths(m * pow2(k as nat)) == nearest_even(10 * m, pow2((1074 - k) as nat) as int),
{
    let g = pow2(k as nat) as int;
    let d = pow2((1074 - k) as nat) as int;
    lemma_pow2_pos(k as nat);
    lemma_pow2_pos((1074 - k) as nat);
    lemma_pow2_adds((1074 - k) as nat, k as nat);
    lemma_nearest_scaled(10 * m, d, g);
    assert(10 * (m * g) == (10 * m) * g) by (nonlinear_arith);
}

/// Less than half of one is nearest to nothing.
proof fn lemma_nearest_is_zero(a: int, d: int)
    requires
        0 <= a,
        2 * a < d,
    ensures
        nearest_even(a, d) == 0,
{
    lemma_fundamental_div_mod_converse(a, d, 0, a);
}

/// A power of two as a machine word.
proof fn lemma_power_word(shift: u64)
    requires
        shift < 64,
    ensures
        (1u64 << shift) == pow2(shift as nat),
        (1u64 << shift) > 0,
{
    lemma2_to64();
    lemma2_to64_rest();
    lemma_pow2_pos(shift as nat);
    if shift < 63 {
        lemma_pow2_strictly_increases(shift as nat, 63);
    }
    lemma_u64_shl_is_mul(1, shift);
}

/// A whole number of units of 2^-1074, `m` times 2 to the power `k`, in decimal with one
/// digit after the point.
fn write_magnitude(m: u64, k: u32) -> (r: String)
    requires
        m <= 0x0020_0000_0000_0000,
    ensures
        r@ == magnitude_text(m * pow2(k as nat)),
{
    if k >= 1074 {
        proof {
            lemma_whole_tenths(m as int, k as int);
            let whole = m * pow2((k - 1074) as nat);
            lemma_fundamental_div_mod_converse(10 * whole, 10, whole, 0);
            reveal_strlit(".0");
        }
        let mut out = scaled_decimal(m, k - 1074);
        let ghost whole = out@;
        out.append(".0");
        assert(out@ =~= whole.push('.').push('0'));
        assert(digit(0) == '0');
        return out;
    }
    let shift: u64 = (1074 - k) as u64;
    proof {
        lemma_small_tenths(m as int, k as int);
    }
    let mut count: u64 = 0;
    if shift >= 60 {
        proof {
            lemma2_to64();
            lemma2_to64_rest();
            if shift > 60 {
                lemma_pow2_strictly_increases(60, shift as nat);
            }
            lemma_nearest_is_zero(10 * m, pow2(shift as nat) as int);
        }
    } else {
        let d: u64 = 1u64 << shift;
        proof {
            lemma_power_word(shift);
            lemma2_to64();
            lemma2_to64_rest();
            lemma_pow2_strictly_increases(shift as nat, 60);
        }
        let a: u64 = 10 * m;
        let q: u64 = a / d;
        let rest: u64 = a % d;
        count = if 2 * rest < d || (2 * rest == d && q % 2 == 0) {
            q
        } else {
            q + 1
        };
    }
    let mut out = text::decimal_of(count / 10);
    let c: char = (48 + (count % 10) as u8) as char;
    out.push('.');
    out.push(c);
    out
}

// ---------------------------------------------------------------------------
// Percentages
// ---------------------------------------------------------------------------
/// The number of a double, or that it is none.
pub enum Number {
    NotANumber,
    Infinite { negative: bool },
    Finite { negative: bool, magnitude: int },
}

impl Percent {
    /// The number of the pattern, in units of 2^-1074.
    pub open spec fn number(self) -> Number {
        if self.is_nan() {
            Number::NotANumber
        } else if self.exponent_field() == 2047 {
            Number::Infinite { negative: self.negative() }
        } else {
            Number::Finite {
                negative: self.negative(),
                magnitude: self.significand() * pow2((self.exponent() - 1) as nat),
            }
        }
    }
}

/// A minus sign before what is negative.
pub open spec fn sign_text(negative: bool) -> Seq<char> {
    if negative {
        seq!['-']
    } else {
        seq![]
    }
}

/// A number as a percentage: with one digit after the point.
pub open spec fn number_text(number: Number) -> Seq<char> {
    match number {
        Number::NotANumber => "NaN%"@,
        Number::Infinite { negative } => sign_text(negative) + "inf%"@,
        Number::Finite { negative, magnitude } => (sign_text(negative) + magnitude_text(
            magnitude,
        )).push('%'),
    }
}

/// A finite number: a sign, and `significand` times 2 to the power `shift` units of
/// 2^-1074.
#[derive(Clone, Copy)]
struct Finite {
    negative: bool,
    significand: u64,
    shift: u32,
}

/// A finite number as a percentage.
fn write_finite(number: Finite) -> (r: String)
    requires
        number.significand <= 0x0020_0000_0000_0000,
    ensures
        r@ == number_text(
            Number::Finite {
                negative: number.negative,
                magnitude: number.significand * pow2(number.shift as nat),
            },
        ),
{
    let mut out = String::new();
    if number.negative {
        out.push('-');
    }
    assert(out@ =~= sign_text(number.negative));
    let magnitude = write_magnitude(number.significand, number.shift);
    out.append(magnitude.as_str());
    out.push('%');
    out
}

/// An infinite number as a percentage.
fn write_infinite(negative: bool) -> (r: String)
    ensures
        r@ == number_text(Number::Infinite { negative }),
{
    let mut out = String::new();
    if negative {
        out.push('-');
    }
    assert(out@ =~= sign_text(negative));
    out.append("inf%");
    out
}

impl Percent {
    /// The fields of a finite pattern.
    fn finite(&self) -> (r: Option<Finite>)
        ensures
            r is None <==> self.exponent_field() == 2047,
            r is Some ==> {
                &&& r->0.negative == self.negative()
                &&& r->0.significand == self.significand()
                &&& r->0.significand < 0x0020_0000_0000_0000
                &&& r->0.shift == self.exponent() - 1
                &&& r->0.shift < 2046
                &&& r->0.shift > 0 ==> r->0.significand >= HIDDEN_BIT
            },
    {
        let field: u64 = (self.bits / HIDDEN_BIT) % 2048;
        let fraction: u64 = self.bits % HIDDEN_BIT;
        if field == 2047 {
            return None;
        }
        let negative = self.bits >= SIGN_BIT;
        if field == 0 {
            Some(Finite { negative, significand: fraction, shift: 0 })
        } else {
            Some(Finite { negative, significand: fraction + HIDDEN_BIT, shift: (field - 1) as u32 })
        }
    }
}

/// Dashes where there is no percentage, and else its text.
pub open spec fn percent_cell(number: Option<Number>) -> Seq<char> {
    match number {
        Some(number) => number_text(number),
        None => "--"@,
    }
}

/// A percentage in decimal with one digit after the point; dashes where there is none.
pub fn format_percent(value: Option<Percent>) -> (r: String)
    ensures
        r@ == percent_cell(
            match value {
                Some(percent) => Some(percent.number()),
                None => None,
            },
        ),
{
    match value {
        None => "--".to_owned(),
        Some(percent) => {
            if percent.nan() {
                return "NaN%".to_owned();
            }
            match percent.finite() {
                Some(number) => write_finite(number),
                None => write_infinite(percent.bits >= SIGN_BIT),
            }
        },
    }
}

// ---------------------------------------------------------------------------
// What remains of one hundred
// ---------------------------------------------------------------------------
/// How far apart doubles are around a magnitude in units of 2^-1074: one unit below 2^53
/// of them, and twice as far with each doubling.
pub open spec fn grid(magnitude: int) -> int
    decreases magnitude,
{
    if magnitude < 0x0020_0000_0000_0000 {
        1
    } else {
        2 * grid(magnitude / 2)
    }
}

/// The double nearest to a magnitude in units of 2^-1074; of two equally near, the one
/// with the even significand.
pub open spec fn rounded(magnitude: int) -> int {
    nearest_even(magnitude, grid(magnitude)) * grid(magnitude)
}

/// One hundred less a number, in double arithmetic.
pub open spec fn hundred_less(number: Number) -> Number {
    match number {
        Number::NotANumber => Number::NotANumber,
        Number::Infinite { negative } => Number::Infinite { negative: !negative },
        Number::Finite { negative, magnitude } => {
            let exact = 100 * pow2(1074) - if negative {
                -magnitude
            } else {
                magnitude
            };
            Number::Finite {
                negative: exact < 0,
                magnitude: rounded(
                    if exact < 0 {
                        -exact
                    } else {
                        exact
                    },
                ),
            }
        },
    }
}

/// Doubles are some distance apart.
proof fn lemma_grid_is_positive(n: int)
    ensures
        grid(n) >= 1,
    decreases n,
{
    if n >= 0x0020_0000_0000_0000 {
        lemma_grid_is_positive(n / 2);
    }
}

/// A whole number is nearest to itself.
proof fn lemma_nearest_of_multiple(q: int, d: int)
    requires
        d > 0,
    ensures
        nearest_even(q * d, d) == q,
{
    lemma_fundamental_div_mod_converse(q * d, d, q, 0);
}

/// Rounding twice a magnitude is twice rounding it.
proof fn lemma_rounded_twice(n: int)
    requires
        n >= 0,
    ensures
        rounded(2 * n) == 2 * rounded(n),
{
    lemma_grid_is_positive(n);
    let g = grid(n);
    if n < 0x0010_0000_0000_0000 {
        lemma_nearest_of_multiple(n, 1);
        lemma_nearest_of_multiple(2 * n, 1);
    } else {
        assert((2 * n) / 2 == n);
        assert(grid(2 * n) == 2 * g);
        lemma_nearest_scaled(n, g, 2);
        let q = nearest_even(n, g);
        assert(q * (g * 2) == 2 * (q * g)) by (nonlinear_arith);
        assert(n * 2 == 2 * n);
        assert(g * 2 == 2 * g);
    }
}

/// Rounding a magnitude times a power of two is rounding it, times that power.
proof fn lemma_rounded_scaled(n: int, k: nat)
    requires
        n >= 0,
    ensures
        rounded(n * pow2(k)) == rounded(n) * pow2(k),
    decreases k,
{
    lemma2_to64();
    if k > 0 {
        lemma_rounded_scaled(n, (k - 1) as nat);
        lemma_pow2_adds(1, (k - 1) as nat);
        lemma_pow2_pos((k - 1) as nat);
        let p = pow2((k - 1) as nat) as int;
        let r = rounded(n);
        assert(n * p >= 0) by (nonlinear_arith)
            requires
                n >= 0,
                p > 0,
        ;
        lemma_rounded_twice(n * p);
        assert(n * (2 * p) == 2 * (n * p)) by (nonlinear_arith);
        assert(r * (2 * p) == 2 * (r * p)) by (nonlinear_arith);
    } else {
        assert(pow2(0) == 1);
        assert(n * 1 == n);
        let r = rounded(n);
        assert(r * 1 == r);
    }
}

/// The distance of doubles between two powers of two.
proof fn lemma_grid_between(n: int, e: nat)
    requires
        0x0010_0000_0000_0000 * pow2(e) <= n < 0x0020_0000_0000_0000 * pow2(e),
    ensures
        grid(n) == pow2(e),
    decreases e,
{
    lemma2_to64();
    if e > 0 {
        lemma_pow2_adds(1, (e - 1) as nat);
        lemma_pow2_pos((e - 1) as nat);
        let p = pow2((e - 1) as nat) as int;
        assert(pow2(e) == 2 * p);
        assert(n >= 0x0020_0000_0000_0000 * p);
        assert(0x0010_0000_0000_0000 * p <= n / 2 < 0x0020_0000_0000_0000 * p);
        lemma_grid_between(n / 2, (e - 1) as nat);
    } else {
        assert(pow2(0) == 1);
    }
}

/// Rounding a magnitude to 53 bits.
fn round_to_double(n: u128) -> (r: (u64, u32))
    requires
        n < 0x0100_0000_0000_0000_0000_0000_0000_0000,
    ensures
        r.0 * pow2(r.1 as nat) == rounded(n as int),
        r.0 <= 0x0020_0000_0000_0000,
        r.1 <= 128,
{
    let mut step: u128 = 1;
    let mut shift: u32 = 0;
    let mut left: u128 = n;
    proof {
        lemma2_to64();
        assert(n as int / 1 == n);
    }
    while left >= 0x0020_0000_0000_0000
        invariant
            n < 0x0100_0000_0000_0000_0000_0000_0000_0000,
            step == pow2(shift as nat),
            step >= 1,
            left == n / step,
            left * step <= n,
            step <= 0x0100_0000_0000_0000_0000_0000_0000_0000,
            shift <= 120,
            grid(n as int) == step * grid(left as int),
        decreases left,
    {
        let ghost old_left = left as int;
        let ghost old_step = step as int;
        proof {
            lemma2_to64();
            lemma_pow2_adds(1, shift as nat);
            assert(2 * old_step <= n) by (nonlinear_arith)
                requires
                    old_left * old_step <= n,
                    old_left >= 0x0020_0000_0000_0000,
                    old_step >= 1,
            ;
            lemma_pow2_adds(60, 60);
            if shift >= 119 {
                lemma2_to64_rest();
                assert(pow2(120) == 0x0100_0000_0000_0000_0000_0000_0000_0000);
                if shift > 119 {
                    lemma_pow2_strictly_increases(120, (shift + 1) as nat);
                }
            }
            lemma_div_denominator(n as int, old_step, 2);
            assert(grid(old_left) == 2 * grid(old_left / 2));
            let g = grid(old_left / 2);
            assert(old_step * (2 * g) == (2 * old_step) * g) by (nonlinear_arith);
            assert((old_left / 2) * (2 * old_step) <= n) by (nonlinear_arith)
                requires
                    old_left * old_step <= n,
                    2 * (old_left / 2) <= old_left,
                    old_step >= 1,
            ;
        }
        left = left / 2;
        step = step * 2;
        shift = shift + 1;
    }
    let q: u128 = n / step;
    let rest: u128 = n % step;
    let up = !(2 * rest < step || (2 * rest == step && q % 2 == 0));
    assert(grid(n as int) == step) by {
        assert(grid(left as int) == 1);
    }
    if up {
        ((q + 1) as u64, shift)
    } else {
        (q as u64, shift)
    }
}

/// Rounding the sum of an even multiple and something is rounding, seen from there.
proof fn lemma_nearest_offset(n: int, a: int, d: int)
    requires
        d > 0,
        n % 2 == 0,
    ensures
        nearest_even(n * d + a, d) == n + nearest_even(a, d),
{
    let q = a / d;
    let r = a % d;
    lemma_fundamental_div_mod(a, d);
    assert(n * d + a == (n + q) * d + r) by (nonlinear_arith)
        requires
            a == d * q + r,
    ;
    lemma_fundamental_div_mod_converse(n * d + a, d, n + q, r);
}

/// One hundred less a number of less than 2^-7 is rounded to the nearest multiple of
/// 2^-46.
proof fn lemma_small_difference(m: int, k: int, negative: bool)
    requires
        0 <= m < 0x0020_0000_0000_0000,
        0 <= k < 1014,
    ensures
        ({
            let offset = nearest_even(m, pow2((1028 - k) as nat) as int);
            let shifted: int = if negative {
                0x0019_0000_0000_0000 + offset
            } else {
                0x0019_0000_0000_0000 - offset
            };
            let exact = if negative {
                100 * pow2(1074) + m * pow2(k as nat)
            } else {
                100 * pow2(1074) - m * pow2(k as nat)
            };
            &&& exact >= 0
            &&& 0 <= offset <= 0x0100_0000_0000
            &&& rounded(exact) == shifted * pow2(1028)
        }),
{
    let g = pow2(k as nat) as int;
    let d = pow2((1028 - k) as nat) as int;
    let u = pow2(1028) as int;
    let c: int = 0x0019_0000_0000_0000;
    lemma2_to64();
    lemma2_to64_rest();
    lemma_pow2_pos(k as nat);
    lemma_pow2_pos((1028 - k) as nat);
    lemma_pow2_pos(1028);
    lemma_pow2_adds((1028 - k) as nat, k as nat);
    lemma_pow2_adds(46, 1028);
    assert(d * g == u);
    assert(100 * pow2(1074) == c * u);
    // the offset is small
    if 1028 - k > 15 {
        lemma_pow2_strictly_increases(15, (1028 - k) as nat);
    }
    assert(d >= 0x8000);
    let offset = nearest_even(m, d);
    lemma_fundamental_div_mod(m, d);
    let q = m / d;
    assert(0 <= q < 0x0040_0000_0000) by (nonlinear_arith)
        requires
            m == d * q + m % d,
            0 <= m % d < d,
            d >= 0x8000,
            0 <= m < 0x0020_0000_0000_0000,
    ;
    // the magnitude of the number is small too
    assert(0 <= m * g <= 0x0080_0000_0000 * u) by (nonlinear_arith)
        requires
            d * g == u,
            d >= 0x8000,
            g > 0,
            0 <= m < 0x0020_0000_0000_0000,
    ;
    let exact = if negative {
        c * u + m * g
    } else {
        c * u - m * g
    };
    assert(0x0010_0000_0000_0000 * u <= exact < 0x0020_0000_0000_0000 * u) by (nonlinear_arith)
        requires
            exact == c * u + m * g || exact == c * u - m * g,
            c == 0x0019_0000_0000_0000,
            0 <= m * g <= 0x0080_0000_0000 * u,
            u > 0,
    ;
    lemma_grid_between(exact, 1028);
    if negative {
        assert(exact == (c * d + m) * g) by (nonlinear_arith)
            requires
                exact == c * u + m * g,
                d * g == u,
        ;
        lemma_nearest_scaled(c * d + m, d, g);
        lemma_nearest_offset(c, m, d);
    } else {
        assert(exact == (c * d - m) * g) by (nonlinear_arith)
            requires
                exact == c * u - m * g,
                d * g == u,
        ;
        lemma_nearest_scaled(c * d - m, d, g);
        lemma_nearest_complement(c, m, d);
    }
}

/// One hundred is lost beside a number of 2^113 or more.
proof fn lemma_large_difference(m: int, j: int, negative: bool)
    requires
        0x0010_0000_0000_0000 <= m < 0x0020_0000_0000_0000,
        j > 60,
    ensures
        ({
            let exact = if negative {
                m * pow2(j as nat) + 100
            } else {
                m * pow2(j as nat) - 100
            };
            &&& exact > 0
            &&& rounded(exact) == m * pow2(j as nat)
        }),
{
    lemma2_to64();
    lemma2_to64_rest();
    lemma_pow2_strictly_increases(60, j as nat);
    lemma_pow2_adds(1, (j - 1) as nat);
    let p = pow2(j as nat) as int;
    let h = pow2((j - 1) as nat) as int;
    assert(p == 2 * h);
    assert(p > 0x1000_0000_0000_000);
    let exact = if negative {
        m * p + 100
    } else {
        m * p - 100
    };
    if negative {
        assert(0x0010_0000_0000_0000 * p <= exact < 0x0020_0000_0000_0000 * p) by (nonlinear_arith)
            requires
                exact == m * p + 100,
                0x0010_0000_0000_0000 <= m <= 0x001f_ffff_ffff_ffff,
                p > 100,
        ;
        lemma_grid_between(exact, j as nat);
        lemma_fundamental_div_mod_converse(exact, p, m, 100);
    } else if m > 0x0010_0000_0000_0000 {
        assert(0x0010_0000_0000_0000 * p <= exact < 0x0020_0000_0000_0000 * p) by (nonlinear_arith)
            requires
                exact == m * p - 100,
                0x0010_0000_0000_0001 <= m <= 0x001f_ffff_ffff_ffff,
                p > 100,
        ;
        lemma_grid_between(exact, j as nat);
        assert(exact == (m - 1) * p + (p - 100)) by (nonlinear_arith)
            requires
                exact == m * p - 100,
        ;
        lemma_fundamental_div_mod_converse(exact, p, m - 1, p - 100);
    } else {
        assert(exact == 0x0020_0000_0000_0000 * h - 100);
        lemma_grid_between(exact, (j - 1) as nat);
        assert(exact == 0x001f_ffff_ffff_ffff * h + (h - 100));
        lemma_fundamental_div_mod_converse(exact, h, 0x001f_ffff_ffff_ffff, h - 100);
        assert(0x0020_0000_0000_0000 * h == m * p);
    }
}

/// The magnitude of a finite number, in units of 2^-1074.
spec fn magnitude_of(number: Finite) -> int {
    number.significand * pow2(number.shift as nat)
}

/// A finite number as such.
spec fn as_number(number: Finite) -> Number {
    Number::Finite { negative: number.negative, magnitude: magnitude_of(number) }
}

/// A rounded coefficient of a power of two.
fn round_scaled(negative: bool, n: u128, k: u32) -> (r: Finite)
    requires
        n < 0x0100_0000_0000_0000_0000_0000_0000_0000,
        k <= 1074,
    ensures
        r.negative == negative,
        magnitude_of(r) == rounded(n * pow2(k as nat)),
        r.significand <= 0x0020_0000_0000_0000,
{
    let (significand, shift) = round_to_double(n);
    proof {
        lemma_rounded_scaled(n as int, k as nat);
        lemma_pow2_adds(shift as nat, k as nat);
        let a = pow2(shift as nat) as int;
        let b = pow2(k as nat) as int;
        assert(significand * (a * b) == (significand * a) * b) by (nonlinear_arith);
    }
    Finite { negative, significand, shift: shift + k }
}

/// One hundred less a finite number.
fn subtract_from_hundred(number: Finite) -> (r: Finite)
    requires
        number.significand < 0x0020_0000_0000_0000,
        number.shift < 2046,
        number.shift > 0 ==> number.significand >= HIDDEN_BIT,
    ensures
        as_number(r) == hundred_less(as_number(number)),
        r.significand <= 0x0020_0000_0000_0000,
{
    let m: u64 = number.significand;
    let k: u32 = number.shift;
    let ghost x = magnitude_of(number);
    proof {
        lemma_pow2_pos(k as nat);
        let p = pow2(k as nat) as int;
        assert(m * p >= 0) by (nonlinear_arith)
            requires
                m >= 0,
                p > 0,
        ;
    }
    if k < 1014 {
        let shift: u64 = (1028 - k) as u64;
        proof {
            lemma_small_difference(m as int, k as int, number.negative);
        }
        let mut offset: u64 = 0;
        if shift >= 55 {
            proof {
                lemma2_to64();
                lemma2_to64_rest();
                if shift > 55 {
                    lemma_pow2_strictly_increases(55, shift as nat);
                }
                lemma_nearest_is_zero(m as int, pow2(shift as nat) as int);
            }
        } else {
            let d: u64 = 1u64 << shift;
            proof {
                lemma_power_word(shift);
                lemma2_to64();
                lemma2_to64_rest();
                lemma_pow2_strictly_increases(shift as nat, 55);
            }
            let q: u64 = m / d;
            let rest: u64 = m % d;
            offset = if 2 * rest < d || (2 * rest == d && q % 2 == 0) {
                q
            } else {
                q + 1
            };
        }
        let significand: u64 = if number.negative {
            0x0019_0000_0000_0000 + offset
        } else {
            0x0019_0000_0000_0000 - offset
        };
        return Finite { negative: false, significand, shift: 1028 };
    }
    if k <= 1074 {
        let gap: u64 = (1074 - k) as u64;
        let p: u64 = 1u64 << gap;
        proof {
            lemma_power_word(gap);
            lemma2_to64();
            lemma2_to64_rest();
            if gap < 60 {
                lemma_pow2_strictly_increases(gap as nat, 60);
            }
            lemma_pow2_adds(gap as nat, k as nat);
        }
        let hundred: u128 = 100 * (p as u128);
        proof {
            let g = pow2(k as nat) as int;
            assert(100 * pow2(1074) == hundred * g) by (nonlinear_arith)
                requires
                    pow2(1074) == p * g,
                    hundred == 100 * p,
            ;
            assert((hundred + m) * g == hundred * g + m * g) by (nonlinear_arith);
            assert((hundred - m) * g == hundred * g - m * g) by (nonlinear_arith);
            assert((m - hundred) * g == m * g - hundred * g) by (nonlinear_arith);
            lemma_pow2_pos(k as nat);
            assert(hundred >= m ==> (hundred - m) * g >= 0) by (nonlinear_arith)
                requires
                    g > 0,
            ;
            assert(hundred < m ==> (m - hundred) * g > 0) by (nonlinear_arith)
                requires
                    g > 0,
            ;
        }
        if number.negative {
            return round_scaled(false, hundred + m as u128, k);
        }
        return if hundred >= m as u128 {
            round_scaled(false, hundred - m as u128, k)
        } else {
            round_scaled(true, m as u128 - hundred, k)
        };
    }
    let j: u32 = k - 1074;
    let ghost unit = pow2(1074) as int;
    let ghost power = pow2(j as nat) as int;
    proof {
        lemma_pow2_adds(j as nat, 1074);
        lemma_pow2_pos(1074);
        lemma_pow2_pos(j as nat);
        assert(x == (m * power) * unit) by (nonlinear_arith)
            requires
                x == m * (power * unit),
        ;
        assert((m * power + 100) * unit == (m * power) * unit + 100 * unit) by (nonlinear_arith);
        assert((m * power - 100) * unit == (m * power) * unit - 100 * unit) by (nonlinear_arith);
        assert(m * power >= 0x0010_0000_0000_0000) by (nonlinear_arith)
            requires
                m >= 0x0010_0000_0000_0000,
                power >= 1,
        ;
        assert((m * power - 100) * unit > 0) by (nonlinear_arith)
            requires
                m * power >= 0x0010_0000_0000_0000,
                unit > 0,
        ;
        assert((m * power + 100) * unit > 0) by (nonlinear_arith)
            requires
                m * power >= 0x0010_0000_0000_0000,
                unit > 0,
        ;
    }
    if j <= 60 {
        let p: u64 = 1u64 << (j as u64);
        proof {
            lemma_power_word(j as u64);
            lemma2_to64();
            lemma2_to64_rest();
            if j < 60 {
                lemma_pow2_strictly_increases(j as nat, 60);
            }
            assert(m * p <= 0x0020_0000_0000_0000 * 0x1000_0000_0000_0000) by (nonlinear_arith)
                requires
                    m <= 0x0020_0000_0000_0000,
                    p <= 0x1000_0000_0000_0000,
            ;
        }
        let whole: u128 = (m as u128) * (p as u128);
        if number.negative {
            return round_scaled(false, whole + 100, 1074);
        }
        return round_scaled(true, whole - 100, 1074);
    }
    proof {
        lemma_large_difference(m as int, j as int, number.negative);
        let exact = if number.negative {
            m * power + 100
        } else {
            m * power - 100
        };
        lemma_rounded_scaled(exact, 1074);
    }
    Finite { negative: !number.negative, significand: m, shift: k }
}

/// What remains of one hundred after a percentage, in double arithmetic and in decimal
/// with one digit after the point; dashes where there is none.
pub fn format_remaining(used: Option<Percent>) -> (r: String)
    ensures
        r@ == percent_cell(
            match used {
                Some(used) => Some(hundred_less(used.number())),
                None => None,
            },
        ),
{
    match used {
        None => "--".to_owned(),
        Some(used) => {
            if used.nan() {
                return "NaN%".to_owned();
            }
            match used.finite() {
                Some(number) => write_finite(subtract_from_hundred(number)),
                None => write_infinite(!(used.bits >= SIGN_BIT)),
            }
        },
    }
}

/// Doubles are no further apart than a magnitude over 2^52.
proof fn lemma_grid_is_small(n: int)
    requires
        n >= 0x0010_0000_0000_0000,
    ensures
        0x0010_0000_0000_0000 * grid(n) <= n,
    decreases n,
{
    if n >= 0x0020_0000_0000_0000 {
        lemma_grid_is_small(n / 2);
    }
}

/// Nothing from one hundred up is rounded to less.
proof fn lemma_rounded_from_hundred_up(n: int)
    requires
        n >= 100 * pow2(1074),
    ensures
        rounded(n) >= 100 * pow2(1074),
{
    lemma2_to64();
    lemma2_to64_rest();
    lemma_pow2_pos(1028);
    lemma_pow2_adds(46, 1028);
    let u = pow2(1028) as int;
    let c: int = 0x0019_0000_0000_0000;
    assert(100 * pow2(1074) == c * u);
    lemma_grid_is_positive(n);
    let g = grid(n);
    let q = n / g;
    lemma_fundamental_div_mod(n, g);
    assert(nearest_even(n, g) >= q);
    if n < 0x0020_0000_0000_0000 * u {
        lemma_grid_between(n, 1028);
        assert(q >= c) by (nonlinear_arith)
            requires
                n == u * q + n % u,
                0 <= n % u < u,
                n >= c * u,
                u > 0,
        ;
        assert(nearest_even(n, g) * g >= c * u) by (nonlinear_arith)
            requires
                nearest_even(n, g) >= c,
                g == u,
                u > 0,
        ;
    } else {
        lemma_grid_is_small(n);
        assert(g * q > n - g);
        assert(nearest_even(n, g) * g >= g * q) by (nonlinear_arith)
            requires
                nearest_even(n, g) >= q,
                g >= 1,
        ;
        assert(n - g >= c * u) by (nonlinear_arith)
            requires
                0x0010_0000_0000_0000 * g <= n,
                n >= 0x0020_0000_0000_0000 * u,
                c == 0x0019_0000_0000_0000,
                u > 0,
                g >= 1,
        ;
    }
}

/// Below 64 the difference of one hundred and a double is a double.
proof fn lemma_exact_difference(m: int, k: int)
    requires
        0 <= m < 0x0020_0000_0000_0000,
        k >= 0,
        0 < 100 * pow2(1074) - m * pow2(k as nat) < 64 * pow2(1074),
    ensures
        rounded(100 * pow2(1074) - m * pow2(k as nat)) == 100 * pow2(1074) - m * pow2(k as nat),
{
    lemma2_to64();
    lemma2_to64_rest();
    lemma_pow2_pos(1027);
    lemma_pow2_adds(47, 1027);
    let p = pow2(1027) as int;
    let exact = 100 * pow2(1074) - m * pow2(k as nat);
    assert(pow2(1074) == 0x8000_0000_0000 * p);
    if k < 1027 {
        lemma_pow2_pos(k as nat);
        lemma_pow2_adds(1, k as nat);
        if k < 1026 {
            lemma_pow2_strictly_increases((k + 1) as nat, 1027);
        }
        let g = pow2(k as nat) as int;
        assert(m * g <= 0x0010_0000_0000_0000 * p) by (nonlinear_arith)
            requires
                0 <= m < 0x0020_0000_0000_0000,
                2 * g <= p,
                g > 0,
        ;
        assert(false);
    }
    lemma_pow2_adds((k - 1027) as nat, 1027);
    let h = pow2((k - 1027) as nat) as int;
    let a = 0x0032_0000_0000_0000 - m * h;
    assert(exact == a * p) by (nonlinear_arith)
        requires
            exact == 100 * (0x8000_0000_0000 * p) - m * (h * p),
            a == 0x0032_0000_0000_0000 - m * h,
    ;
    assert(0 < a < 0x0020_0000_0000_0000) by (nonlinear_arith)
        requires
            0 < a * p < 64 * (0x8000_0000_0000 * p),
            p > 0,
    ;
    lemma_rounded_scaled(a, 1027);
    lemma_nearest_of_multiple(a, 1);
}

/// What ranks an account is what the table shows of it: one hundred less the percentage,
/// in double arithmetic, held between nothing and one hundred.
pub proof fn law_rank_follows_what_is_shown(used: Percent)
    requires
        used.exponent_field() != 2047,
    ensures
        match hundred_less(used.number()) {
            Number::Finite { negative, magnitude } => used.remaining() == if negative {
                0
            } else if magnitude >= 100 * pow2(1074) {
                100 * pow2(1074) as int
            } else {
                magnitude
            },
            _ => false,
        },
{
    let hundred: int = 100 * pow2(1074) as int;
    let m = used.significand();
    let k = used.exponent() - 1;
    let magnitude = m * pow2(k as nat);
    let exact = hundred - used.scaled();
    lemma_pow2_pos(1074);
    lemma2_to64();
    lemma2_to64_rest();
    lemma_pow2_adds(46, 1028);
    if exact == 0 {
        lemma_nearest_of_multiple(0, 1);
    } else if exact >= hundred {
        lemma_rounded_from_hundred_up(exact);
    } else if exact >= 64 * pow2(1074) {
        let u = pow2(1028) as int;
        assert(64 * pow2(1074) == 0x0010_0000_0000_0000 * u);
        lemma_pow2_pos(1028);
        lemma_grid_between(exact, 1028);
        let q = nearest_even(exact, u);
        let c: int = 0x0019_0000_0000_0000;
        assert(hundred == c * u);
        lemma_fundamental_div_mod(exact, u);
        assert(exact / u < c) by (nonlinear_arith)
            requires
                exact == u * (exact / u) + exact % u,
                exact % u >= 0,
                exact < c * u,
                u > 0,
        ;
        assert(q * u <= c * u) by (nonlinear_arith)
            requires
                q <= c,
                u > 0,
        ;
    } else if exact > 0 {
        lemma_pow2_pos(k as nat);
        assert(magnitude >= 0) by (nonlinear_arith)
            requires
                magnitude == m * pow2(k as nat),
                m >= 0,
                pow2(k as nat) > 0,
        ;
        assert(!used.negative());
        lemma_exact_difference(m, k);
    }
}

} // verus!
