//! Percentages as IEEE 754 doubles.
//!
//! A percentage is kept by the bit pattern of the double that a usage report
//! carried, so it comes back out exactly as it came in. Ranking needs one thing
//! of it: what remains, `100 - used` in double arithmetic, held between 0 and
//! 100. That is computed here on the bits, in whole units of 2^-47: every double
//! that such a difference can be is a whole number of them.

use vstd::arithmetic::div_mod::{lemma_fundamental_div_mod, lemma_fundamental_div_mod_converse};
use vstd::arithmetic::power2::{
    lemma2_to64, lemma2_to64_rest, lemma_pow2_adds, lemma_pow2_pos, lemma_pow2_strictly_increases,
    pow2,
};
use vstd::bits::lemma_u64_shl_is_mul;
use vstd::prelude::*;

verus! {

/// A percentage: the bit pattern of a double.
#[derive(Debug, Clone, Copy, PartialEq, Eq, Structural)]
pub struct Percent {
    pub bits: u64,
}

/// 2^52, the weight of the implicit leading bit of a double.
pub const HIDDEN_BIT: u64 = 0x0010_0000_0000_0000;

/// 2^63, the sign bit of a double.
pub const SIGN_BIT: u64 = 0x8000_0000_0000_0000;

/// One hundred, in units of 2^-47.
pub const FULL_UNITS: u64 = 0x0032_0000_0000_0000;

/// The whole number nearest to `a / d`; of two equally near, the even one.
pub open spec fn nearest_even(a: int, d: int) -> int {
    let q = a / d;
    let r = a % d;
    if 2 * r < d || (2 * r == d && q % 2 == 0) {
        q
    } else {
        q + 1
    }
}

impl Percent {
    /// Whether the sign bit is set.
    pub open spec fn negative(self) -> bool {
        self.bits >= SIGN_BIT
    }

    /// The exponent field.
    pub open spec fn exponent_field(self) -> int {
        (self.bits as int / 0x0010_0000_0000_0000) % 2048
    }

    /// The fraction field.
    pub open spec fn fraction(self) -> int {
        self.bits as int % 0x0010_0000_0000_0000
    }

    /// Whether the pattern is that of no number.
    pub open spec fn is_nan(self) -> bool {
        self.exponent_field() == 2047 && self.fraction() != 0
    }

    /// The significand: the fraction, behind a leading bit unless the number is
    /// subnormal.
    pub open spec fn significand(self) -> int {
        if self.exponent_field() == 0 {
            self.fraction()
        } else {
            self.fraction() + 0x0010_0000_0000_0000
        }
    }

    /// The exponent: subnormal numbers share that of the smallest normal ones.
    pub open spec fn exponent(self) -> int {
        if self.exponent_field() == 0 {
            1
        } else {
            self.exponent_field()
        }
    }

    /// The number, in units of 2^-1074: the smallest positive double is one.
    pub open spec fn scaled(self) -> int {
        let magnitude = self.significand() * pow2((self.exponent() - 1) as nat);
        if self.negative() {
            -magnitude
        } else {
            magnitude
        }
    }

    /// `100 - used`, not below 0 and not above 100, as double arithmetic gives
    /// it, in units of 2^-1074. From 64 up a double is a multiple of 2^-46, and
    /// the difference is rounded to the nearest one; below 64 the difference of
    /// 100 and a double is a double itself.
    pub open spec fn remaining(self) -> int {
        let hundred: int = 100 * pow2(1074) as int;
        let exact = hundred - self.scaled();
        if exact <= 0 {
            0
        } else if exact >= hundred {
            hundred
        } else if exact >= 64 * pow2(1074) {
            nearest_even(exact, pow2(1028) as int) * pow2(1028)
        } else {
            exact
        }
    }

    /// Whether the pattern is that of no number.
    pub fn nan(&self) -> (r: bool)
        ensures
            r == self.is_nan(),
    {
        (self.bits / HIDDEN_BIT) % 2048 == 2047 && self.bits % HIDDEN_BIT != 0
    }

    /// What remains of one hundred, in units of 2^-47; `None` where the pattern
    /// is that of no number.
    pub fn remaining_units(&self) -> (r: Option<u64>)
        ensures
            r is None <==> self.is_nan(),
            r is Some ==> r->0 * pow2(1027) == self.remaining(),
            r is Some ==> r->0 <= FULL_UNITS,
    {
        if self.nan() {
            return None;
        }
        let field: u64 = (self.bits / HIDDEN_BIT) % 2048;
        let fraction: u64 = self.bits % HIDDEN_BIT;
        let significand: u64 = if field == 0 {
            fraction
        } else {
            fraction + HIDDEN_BIT
        };
        let exponent: u64 = if field == 0 {
            1
        } else {
            field
        };
        assert(significand == self.significand());
        assert(exponent == self.exponent());
        proof {
            lemma_hundred();
            lemma_pow2_pos((exponent - 1) as nat);
        }
        if self.bits >= SIGN_BIT || significand == 0 {
            proof {
                let m = self.significand() * pow2((self.exponent() - 1) as nat);
                assert(m >= 0) by (nonlinear_arith)
                    requires
                        m == self.significand() * pow2((self.exponent() - 1) as nat),
                        self.significand() >= 0,
                        pow2((self.exponent() - 1) as nat) > 0,
                ;
                if significand == 0 {
                    assert(m == 0) by (nonlinear_arith)
                        requires
                            m == self.significand() * pow2((self.exponent() - 1) as nat),
                            self.significand() == 0,
                    ;
                }
            }
            return Some(FULL_UNITS);
        }
        if exponent >= 1030 {
            proof {
                lemma_large(significand as int, exponent as int);
            }
            return Some(0);
        }
        if exponent == 1029 {
            proof {
                lemma_exact(significand as int, 1029);
            }
            if 2 * significand >= FULL_UNITS {
                Some(0)
            } else {
                Some(FULL_UNITS - 2 * significand)
            }
        } else if exponent == 1028 && significand >= 0x0012_0000_0000_0000 {
            proof {
                lemma_exact(significand as int, 1028);
            }
            Some(FULL_UNITS - significand)
        } else {
            let shift: u64 = 1029 - exponent;
            proof {
                lemma_rounded(significand as int, exponent as int);
            }
            let doubled: u64 = if shift >= 55 {
                proof {
                    lemma_small(significand as int, shift as int);
                }
                0
            } else {
                let d: u64 = 1u64 << shift;
                proof {
                    lemma_shift(shift);
                }
                let q: u64 = significand / d;
                let rest: u64 = significand % d;
                if 2 * rest < d || (2 * rest == d && q % 2 == 0) {
                    q
                } else {
                    q + 1
                }
            };
            proof {
                lemma2_to64();
                lemma_pow2_strictly_increases(0, shift as nat);
                lemma_rounded_bounds(significand as int, pow2(shift as nat) as int);
            }
            Some(FULL_UNITS - 2 * doubled)
        }
    }
}

/// Shifting one left by less than 55 is a power of two.
proof fn lemma_shift(shift: u64)
    requires
        1 <= shift < 55,
    ensures
        (1u64 << shift) == pow2(shift as nat),
        2 <= (1u64 << shift) <= 0x0040_0000_0000_0000,
{
    lemma2_to64();
    lemma2_to64_rest();
    lemma_pow2_strictly_increases(0, shift as nat);
    if shift < 54 {
        lemma_pow2_strictly_increases(shift as nat, 54);
    }
    lemma_u64_shl_is_mul(1, shift);
}

/// One hundred in the two units.
proof fn lemma_hundred()
    ensures
        100 * pow2(1074) == FULL_UNITS * pow2(1027),
        100 * pow2(1074) == 0x0019_0000_0000_0000 * pow2(1028),
        64 * pow2(1074) == 0x0020_0000_0000_0000 * pow2(1027),
        pow2(1028) == 2 * pow2(1027),
        pow2(1027) > 0,
{
    lemma2_to64();
    lemma2_to64_rest();
    lemma_pow2_adds(47, 1027);
    lemma_pow2_adds(1, 1027);
    lemma_pow2_pos(1027);
    let p = pow2(1027);
    assert(pow2(1074) == 0x8000_0000_0000 * p);
}

/// From 128 up nothing remains.
proof fn lemma_large(significand: int, exponent: int)
    requires
        significand >= 0x0010_0000_0000_0000,
        exponent >= 1030,
    ensures
        100 * pow2(1074) - significand * pow2((exponent - 1) as nat) <= 0,
{
    lemma_hundred();
    lemma_pow2_adds(2, (exponent - 3) as nat);
    lemma2_to64();
    if exponent - 3 > 1027 {
        lemma_pow2_strictly_increases(1027, (exponent - 3) as nat);
    }
    let p = pow2(1027) as int;
    let g = pow2((exponent - 3) as nat) as int;
    assert(significand * (4 * g) >= 0x0040_0000_0000_0000 * p) by (nonlinear_arith)
        requires
            significand >= 0x0010_0000_0000_0000,
            g >= p,
            p > 0,
    ;
}

/// From 36 up to 128 the difference needs no rounding.
proof fn lemma_exact(significand: int, exponent: int)
    requires
        0 <= significand,
        exponent == 1028 || exponent == 1029,
        exponent == 1028 ==> significand >= 0x0012_0000_0000_0000,
        exponent == 1028 ==> significand < 0x0020_0000_0000_0000,
        exponent == 1029 ==> significand >= 0x0010_0000_0000_0000,
    ensures
        ({
            let units = if exponent == 1028 {
                significand
            } else {
                2 * significand
            };
            let exact = 100 * pow2(1074) - significand * pow2((exponent - 1) as nat);
            &&& exact == (FULL_UNITS - units) * pow2(1027)
            &&& exact <= 64 * pow2(1074)
            &&& exact == 64 * pow2(1074) ==> nearest_even(exact, pow2(1028) as int) * pow2(1028)
                == exact
            &&& exact < 100 * pow2(1074)
            &&& (exact <= 0 <==> units >= FULL_UNITS)
        }),
{
    lemma_hundred();
    let p = pow2(1027) as int;
    let units = if exponent == 1028 {
        significand
    } else {
        2 * significand
    };
    assert(significand * pow2((exponent - 1) as nat) == units * p) by {
        if exponent == 1029 {
            assert(significand * (2 * p) == (2 * significand) * p) by (nonlinear_arith);
        }
    }
    let exact = 100 * pow2(1074) - significand * pow2((exponent - 1) as nat);
    assert(FULL_UNITS * p - units * p == (FULL_UNITS - units) * p) by (nonlinear_arith);
    assert(exact <= 0x0020_0000_0000_0000 * p) by (nonlinear_arith)
        requires
            exact == (FULL_UNITS - units) * p,
            FULL_UNITS - units <= 0x0020_0000_0000_0000,
            p > 0,
    ;
    assert(exact < FULL_UNITS * p) by (nonlinear_arith)
        requires
            exact == (FULL_UNITS - units) * p,
            units > 0,
            p > 0,
    ;
    assert(exact <= 0 <==> units >= FULL_UNITS) by (nonlinear_arith)
        requires
            exact == (FULL_UNITS - units) * p,
            p > 0,
    ;
    if exact == 64 * pow2(1074) {
        let two = 2 * p;
        assert(exact == 0x0010_0000_0000_0000 * two + 0);
        lemma_fundamental_div_mod_converse(exact, two, 0x0010_0000_0000_0000, 0);
    }
}

/// Scaling both sides of a division does not move the nearest whole number.
pub(crate) proof fn lemma_nearest_scaled(a: int, d: int, g: int)
    requires
        d > 0,
        g > 0,
    ensures
        nearest_even(a * g, d * g) == nearest_even(a, d),
{
    lemma_fundamental_div_mod(a, d);
    let q = a / d;
    let r = a % d;
    assert(a * g == q * (d * g) + r * g) by (nonlinear_arith)
        requires
            a == d * q + r,
    ;
    assert(0 <= r * g < d * g) by (nonlinear_arith)
        requires
            0 <= r < d,
            g > 0,
    ;
    assert(d * g > 0) by (nonlinear_arith)
        requires
            d > 0,
            g > 0,
    ;
    lemma_fundamental_div_mod_converse(a * g, d * g, q, r * g);
    assert(2 * (r * g) < d * g <==> 2 * r < d) by (nonlinear_arith)
        requires
            g > 0,
    ;
    assert(2 * (r * g) == d * g <==> 2 * r == d) by (nonlinear_arith)
        requires
            g > 0,
    ;
}

/// Rounding the distance to an even multiple is rounding, seen from there.
pub(crate) proof fn lemma_nearest_complement(n: int, a: int, d: int)
    requires
        d > 0,
        n % 2 == 0,
    ensures
        nearest_even(n * d - a, d) == n - nearest_even(a, d),
{
    lemma_fundamental_div_mod(a, d);
    let q = a / d;
    let r = a % d;
    if r == 0 {
        assert(n * d - a == (n - q) * d + 0) by (nonlinear_arith)
            requires
                a == d * q + r,
                r == 0,
        ;
        lemma_fundamental_div_mod_converse(n * d - a, d, n - q, 0);
    } else {
        assert(n * d - a == (n - q - 1) * d + (d - r)) by (nonlinear_arith)
            requires
                a == d * q + r,
        ;
        lemma_fundamental_div_mod_converse(n * d - a, d, n - q - 1, d - r);
    }
}

/// Below 36 the difference is rounded to the nearest multiple of 2^-46.
proof fn lemma_rounded(significand: int, exponent: int)
    requires
        0 < significand < 0x0020_0000_0000_0000,
        1 <= exponent <= 1028,
        exponent == 1028 ==> significand < 0x0012_0000_0000_0000,
    ensures
        ({
            let hundred = 100 * pow2(1074);
            let exact = hundred - significand * pow2((exponent - 1) as nat);
            let rounded = nearest_even(significand, pow2((1029 - exponent) as nat) as int);
            &&& 64 * pow2(1074) <= exact < hundred
            &&& nearest_even(exact, pow2(1028) as int) * pow2(1028) == (FULL_UNITS - 2 * rounded)
                * pow2(1027)
        }),
{
    lemma_hundred();
    let g = pow2((exponent - 1) as nat) as int;
    let d = pow2((1029 - exponent) as nat) as int;
    let p = pow2(1027) as int;
    lemma_pow2_pos((exponent - 1) as nat);
    lemma_pow2_pos((1029 - exponent) as nat);
    lemma_pow2_adds((1029 - exponent) as nat, (exponent - 1) as nat);
    assert(d * g == 2 * p);
    let n: int = 0x0019_0000_0000_0000;
    let exact = 100 * pow2(1074) - significand * g;
    assert(exact == (n * d - significand) * g) by (nonlinear_arith)
        requires
            exact == n * (d * g) - significand * g,
    ;
    assert(exact < 100 * pow2(1074)) by (nonlinear_arith)
        requires
            exact == 100 * pow2(1074) - significand * g,
            significand > 0,
            g > 0,
    ;
    assert(significand * g <= 0x0012_0000_0000_0000 * p) by {
        if exponent == 1028 {
            assert(g == p);
            assert(significand * g <= 0x0012_0000_0000_0000 * p) by (nonlinear_arith)
                requires
                    g == p,
                    p > 0,
                    significand < 0x0012_0000_0000_0000,
            ;
        } else {
            lemma2_to64();
            lemma_pow2_adds((1028 - exponent) as nat, (exponent - 1) as nat);
            lemma_pow2_strictly_increases(0, (1028 - exponent) as nat);
            let h = pow2((1028 - exponent) as nat) as int;
            assert(h * g == p);
            assert(significand * g <= 0x0012_0000_0000_0000 * p) by (nonlinear_arith)
                requires
                    h * g == p,
                    h >= 2,
                    g > 0,
                    significand < 0x0020_0000_0000_0000,
            ;
        }
    }
    lemma_nearest_scaled(n * d - significand, d, g);
    lemma_nearest_complement(n, significand, d);
    let rounded = nearest_even(significand, d);
    assert((n - rounded) * (2 * p) == (2 * n - 2 * rounded) * p) by (nonlinear_arith);
}

/// A significand is less than half of a large power of two.
proof fn lemma_small(significand: int, shift: int)
    requires
        0 < significand < 0x0020_0000_0000_0000,
        shift >= 55,
    ensures
        nearest_even(significand, pow2(shift as nat) as int) == 0,
{
    lemma2_to64();
    lemma2_to64_rest();
    if shift > 55 {
        lemma_pow2_strictly_increases(55, shift as nat);
    }
    let d = pow2(shift as nat) as int;
    lemma_fundamental_div_mod_converse(significand, d, 0, significand);
}

/// The rounded quotient of a significand stays below half of one hundred.
proof fn lemma_rounded_bounds(significand: int, d: int)
    requires
        0 < significand < 0x0020_0000_0000_0000,
        d >= 2,
    ensures
        0 <= nearest_even(significand, d) <= 0x0011_0000_0000_0000,
{
    lemma_fundamental_div_mod(significand, d);
    let q = significand / d;
    assert(0 <= q <= 0x0010_0000_0000_0000) by (nonlinear_arith)
        requires
            significand == d * q + significand % d,
            0 <= significand % d < d,
            d >= 2,
            0 < significand < 0x0020_0000_0000_0000,
    ;
}

// ---------------------------------------------------------------------------
// Laws
// ---------------------------------------------------------------------------
/// Rounding moves a number by half a unit at most, and keeps the order of numbers.
proof fn lemma_nearest(a: int, b: int, d: int)
    requires
        d > 0,
        a <= b,
    ensures
        -d <= 2 * (nearest_even(a, d) * d - a) <= d,
        nearest_even(a, d) * d <= nearest_even(b, d) * d,
{
    lemma_fundamental_div_mod(a, d);
    lemma_fundamental_div_mod(b, d);
    let q = a / d;
    let p = b / d;
    let x = nearest_even(a, d);
    let y = nearest_even(b, d);
    assert(d * q == q * d) by (nonlinear_arith);
    assert((q + 1) * d == q * d + d) by (nonlinear_arith);
    assert(q <= p) by (nonlinear_arith)
        requires
            a == d * q + a % d,
            b == d * p + b % d,
            0 <= a % d < d,
            0 <= b % d < d,
            a <= b,
            d > 0,
    ;
    if q == p {
        assert(a % d <= b % d);
    }
    assert(x <= y);
    assert(x * d <= y * d) by (nonlinear_arith)
        requires
            x <= y,
            d > 0,
    ;
}

/// What remains is one hundred less what is used: none from one hundred up, all where nothing
/// is used, and otherwise the difference, but for a rounding of less than 2^-46.
pub proof fn law_remaining_is_what_is_left(used: Percent)
    ensures
        ({
            let hundred: int = 100 * pow2(1074) as int;
            &&& 0 <= used.remaining() <= hundred
            &&& used.scaled() >= hundred ==> used.remaining() == 0
            &&& used.scaled() <= 0 ==> used.remaining() == hundred
            &&& 0 <= used.scaled() <= hundred ==> -pow2(1028) < used.remaining() - (hundred
                - used.scaled()) < pow2(1028)
        }),
{
    lemma_hundred();
    let hundred: int = 100 * pow2(1074) as int;
    let exact = hundred - used.scaled();
    let d = pow2(1028) as int;
    if exact < hundred {
        lemma_nearest(exact, hundred, d);
    }
    let c: int = 0x0019_0000_0000_0000;
    assert(hundred == c * d + 0);
    lemma_fundamental_div_mod_converse(hundred, d, c, 0);
    if exact >= 64 * pow2(1074) {
        lemma_nearest(64 * pow2(1074) as int, exact, d);
        let s: int = 0x0010_0000_0000_0000;
        assert(64 * pow2(1074) == s * d + 0);
        lemma_fundamental_div_mod_converse(64 * pow2(1074) as int, d, s, 0);
        assert(s * d >= 0) by (nonlinear_arith)
            requires
                s >= 0,
                d > 0,
        ;
    }
}

/// Who has used more has no more left.
pub proof fn law_more_used_leaves_less(a: Percent, b: Percent)
    requires
        a.scaled() <= b.scaled(),
    ensures
        a.remaining() >= b.remaining(),
{
    lemma_hundred();
    law_remaining_is_what_is_left(a);
    law_remaining_is_what_is_left(b);
    let hundred: int = 100 * pow2(1074) as int;
    let d = pow2(1028) as int;
    let more = hundred - a.scaled();
    let less = hundred - b.scaled();
    if 0 < less && more < hundred {
        lemma_nearest(less, more, d);
        if less < 64 * pow2(1074) && more >= 64 * pow2(1074) {
            lemma_nearest(64 * pow2(1074) as int, more, d);
            let s: int = 0x0010_0000_0000_0000;
            assert(64 * pow2(1074) == s * d + 0);
            lemma_fundamental_div_mod_converse(64 * pow2(1074) as int, d, s, 0);
        }
    }
}

/// Of two doubles that are no less than zero, the one with the larger pattern is the larger
/// number; and nothing with the sign bit is more than zero.
pub proof fn law_larger_patterns_are_larger_numbers(a: Percent, b: Percent)
    requires
        a.bits < b.bits < SIGN_BIT,
    ensures
        0 <= a.scaled() < b.scaled(),
        (Percent { bits: (a.bits + SIGN_BIT) as u64 }).scaled() == -a.scaled(),
{
    let m = a.significand();
    let n = b.significand();
    let j = (a.exponent() - 1) as nat;
    let k = (b.exponent() - 1) as nat;
    let h: int = 0x0010_0000_0000_0000;
    lemma_pow2_pos(j);
    lemma_pow2_pos(k);
    let p = pow2(j) as int;
    let q = pow2(k) as int;
    assert(a.bits as int / h < 2048);
    assert(b.bits as int / h < 2048);
    assert(a.exponent_field() == a.bits as int / h);
    assert(b.exponent_field() == b.bits as int / h);
    assert(m * p >= 0) by (nonlinear_arith)
        requires
            m >= 0,
            p > 0,
    ;
    if a.exponent_field() == b.exponent_field() {
        assert(m < n);
        assert(m * p < n * p) by (nonlinear_arith)
            requires
                m < n,
                p > 0,
        ;
    } else {
        assert(a.exponent_field() < b.exponent_field());
        assert(n >= h);
        if j == k {
            assert(m < h);
            assert(m * p < n * p) by (nonlinear_arith)
                requires
                    m < n,
                    p > 0,
            ;
        } else {
            lemma2_to64();
            lemma_pow2_adds(1, (k - 1) as nat);
            if j < k - 1 {
                lemma_pow2_strictly_increases(j, (k - 1) as nat);
            }
            let half = pow2((k - 1) as nat) as int;
            assert(q == 2 * half);
            assert(m * p < n * q) by (nonlinear_arith)
                requires
                    0 <= m < 2 * h,
                    n >= h,
                    p > 0,
                    half >= p,
                    q == 2 * half,
                    h > 0,
            ;
        }
    }
    let other = Percent { bits: (a.bits + SIGN_BIT) as u64 };
    assert(other.bits as int == a.bits + 2048 * h);
    assert(other.bits as int / h == a.bits as int / h + 2048);
    assert(other.exponent_field() == a.exponent_field());
    assert(other.fraction() == a.fraction());
}

} // verus!
