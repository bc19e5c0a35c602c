//! Real numbers as the scene carries them.
//!
//! A [`Scalar`] is the bit pattern of an IEEE 754 double-precision number. The
//! library never does arithmetic on scalars; it moves them, negates them and
//! reads their sign and their order. Each of those is exact on the bit pattern:
//! apart from the not-a-number patterns, doubles are ordered as their
//! sign-and-magnitude integers are, and that integer is the scalar's `rank`.
//! That the rank orders scalars as the numbers they stand for is proved here
//! from the way a double is put together: a sign, an exponent and a fraction.

use vstd::arithmetic::div_mod::lemma_fundamental_div_mod;
use vstd::arithmetic::div_mod::lemma_fundamental_div_mod_converse;
use vstd::arithmetic::power2::lemma2_to64;
use vstd::arithmetic::power2::lemma2_to64_rest;
use vstd::arithmetic::power2::lemma_pow2_adds;
use vstd::arithmetic::power2::lemma_pow2_pos;
use vstd::arithmetic::power2::lemma_pow2_strictly_increases;
use vstd::arithmetic::power2::lemma_pow2_unfold;
use vstd::arithmetic::power2::pow2;
use vstd::prelude::*;
use vstd::std_specs::cmp::PartialEqSpecImpl;

verus! {

/// The sign bit of a double.
pub const SIGN_BIT: u64 = 0x8000_0000_0000_0000;

/// Positive infinity; every larger magnitude is not a number.
pub const INFINITY_BITS: u64 = 0x7FF0_0000_0000_0000;

/// The number one.
pub const ONE_BITS: u64 = 0x3FF0_0000_0000_0000;

/// Two to the power of 52: a double has 52 bits of fraction, below its exponent.
pub const FRACTION_RANGE: u64 = 0x10_0000_0000_0000;

/// What a magnitude stands for, times two to the power of 1074, which makes a
/// whole number of every double: the fraction as it is where the exponent is
/// zero; else the fraction with a leading one before it, doubled once for each
/// step of the exponent above one.
pub open spec fn weight(magnitude: int) -> int {
    let exponent = magnitude / (FRACTION_RANGE as int);
    let fraction = magnitude % (FRACTION_RANGE as int);
    if exponent == 0 {
        fraction
    } else {
        (FRACTION_RANGE + fraction) * pow2((exponent - 1) as nat)
    }
}

/// A double-precision number, held as its bit pattern.
#[derive(Clone, Copy, Debug)]
pub struct Scalar {
    pub bits: u64,
}

impl Scalar {
    /// The pattern with its sign bit cleared.
    pub open spec fn magnitude(self) -> int {
        if self.bits >= SIGN_BIT {
            self.bits - SIGN_BIT
        } else {
            self.bits as int
        }
    }

    /// Whether the sign bit is set. Negative zero has it set.
    pub open spec fn sign_negative(self) -> bool {
        self.bits >= SIGN_BIT
    }

    /// Whether the pattern is not a number.
    pub open spec fn nan(self) -> bool {
        self.magnitude() > INFINITY_BITS
    }

    /// Where the number stands on the number line: for two numbers `a` and `b`,
    /// `a` is less than `b` exactly when `a.rank() < b.rank()`. Both zeros have
    /// rank 0, the infinities have the ranks of largest magnitude.
    pub open spec fn rank(self) -> int {
        if self.sign_negative() {
            -self.magnitude()
        } else {
            self.magnitude()
        }
    }

    /// Whether the scalar is a number that is not infinite.
    pub open spec fn finite(self) -> bool {
        self.magnitude() < INFINITY_BITS
    }

    /// The number that a finite scalar stands for, times two to the power of
    /// 1074.
    pub open spec fn scaled_value(self) -> int {
        if self.sign_negative() {
            -weight(self.magnitude())
        } else {
            weight(self.magnitude())
        }
    }

    /// One unit in the last place of a finite scalar: how far it is to the next
    /// double away from zero. Like `scaled_value`, it is taken times two to the
    /// power of 1074.
    pub open spec fn scaled_unit(self) -> int {
        let exponent = self.magnitude() / (FRACTION_RANGE as int);
        if exponent == 0 {
            1
        } else {
            pow2((exponent - 1) as nat) as int
        }
    }

    /// Whether the scalar stands for exactly `numerator / denominator`.
    pub open spec fn is_exactly(self, numerator: int, denominator: int) -> bool
        recommends
            denominator > 0,
    {
        self.finite() && denominator * self.scaled_value() == numerator * pow2(1074)
    }

    /// Whether the scalar stands for `numerator / denominator` as well as a
    /// double can: it is off by at most half a unit in its last place.
    pub open spec fn is_rounded(self, numerator: int, denominator: int) -> bool
        recommends
            denominator > 0,
    {
        let off = denominator * self.scaled_value() - numerator * pow2(1074);
        self.finite() && -denominator * self.scaled_unit() <= 2 * off <= denominator
            * self.scaled_unit()
    }

    /// The greatest whole number that is not above a finite scalar.
    pub open spec fn floor(self) -> int {
        self.scaled_value() / (pow2(1074) as int)
    }

    /// Whether the scalar, rounded down to a whole number, leaves no remainder
    /// when divided by two. What is infinite or not a number has no such
    /// remainder to compare.
    pub open spec fn floor_even(self) -> bool {
        self.finite() && self.floor() % 2 == 0
    }

    /// `self < other` as numbers. False when either is not a number.
    pub open spec fn less(self, other: Scalar) -> bool {
        !self.nan() && !other.nan() && self.rank() < other.rank()
    }

    /// `self == other` as numbers. The two zeros are equal; what is not a number
    /// equals nothing, itself included.
    pub open spec fn same(self, other: Scalar) -> bool {
        !self.nan() && !other.nan() && self.rank() == other.rank()
    }

    /// `self >= 0`: a number that is not below zero. Negative zero qualifies.
    pub open spec fn non_negative(self) -> bool {
        !self.nan() && self.rank() >= 0
    }

    /// `self > 0` as numbers.
    pub open spec fn positive(self) -> bool {
        !self.nan() && self.rank() > 0
    }

    /// `self < 0` as numbers.
    pub open spec fn negative(self) -> bool {
        !self.nan() && self.rank() < 0
    }

    /// `self == 0` as numbers: either zero.
    pub open spec fn zero(self) -> bool {
        self.magnitude() == 0
    }

    /// The number with the opposite sign: the sign bit flipped, nothing else.
    pub open spec fn negated(self) -> Scalar {
        if self.bits >= SIGN_BIT {
            Scalar { bits: (self.bits - SIGN_BIT) as u64 }
        } else {
            Scalar { bits: (self.bits + SIGN_BIT) as u64 }
        }
    }

    /// The absolute value: the sign bit cleared, nothing else.
    pub open spec fn absolute(self) -> Scalar {
        Scalar { bits: self.magnitude() as u64 }
    }

    /// The scalar with the given bit pattern.
    pub fn from_bits(bits: u64) -> (r: Scalar)
        ensures
            r.bits == bits,
    {
        Scalar { bits }
    }

    /// The scalar's bit pattern.
    pub fn to_bits(self) -> (r: u64)
        ensures
            r == self.bits,
    {
        self.bits
    }

    /// Positive zero.
    pub fn new_zero() -> (r: Scalar)
        ensures
            r.bits == 0,
            r.zero(),
    {
        Scalar { bits: 0 }
    }

    /// The number one.
    pub fn new_one() -> (r: Scalar)
        ensures
            r.bits == ONE_BITS,
    {
        Scalar { bits: ONE_BITS }
    }

    fn magnitude_bits(self) -> (r: u64)
        ensures
            r == self.magnitude(),
            r < SIGN_BIT,
    {
        if self.bits >= SIGN_BIT {
            self.bits - SIGN_BIT
        } else {
            self.bits
        }
    }

    /// Whether the scalar is not a number.
    pub fn is_nan(self) -> (r: bool)
        ensures
            r == self.nan(),
    {
        self.magnitude_bits() > INFINITY_BITS
    }

    /// Whether the sign bit is clear, as for positive zero and every number above it.
    pub fn is_sign_positive(self) -> (r: bool)
        ensures
            r == !self.sign_negative(),
    {
        self.bits < SIGN_BIT
    }

    /// The rank as a machine integer.
    pub fn ordinal(self) -> (r: i64)
        ensures
            r == self.rank(),
    {
        let m: u64 = self.magnitude_bits();
        if self.bits >= SIGN_BIT {
            -(m as i64)
        } else {
            m as i64
        }
    }

    /// `self < other` as numbers.
    pub fn lt(self, other: Scalar) -> (r: bool)
        ensures
            r == self.less(other),
    {
        !self.is_nan() && !other.is_nan() && self.ordinal() < other.ordinal()
    }

    /// `self > other` as numbers.
    pub fn gt(self, other: Scalar) -> (r: bool)
        ensures
            r == other.less(self),
    {
        other.lt(self)
    }

    /// `self <= other` as numbers.
    pub fn le(self, other: Scalar) -> (r: bool)
        ensures
            r == (self.less(other) || self.same(other)),
    {
        !self.is_nan() && !other.is_nan() && self.ordinal() <= other.ordinal()
    }

    /// `self >= other` as numbers.
    pub fn ge(self, other: Scalar) -> (r: bool)
        ensures
            r == (other.less(self) || other.same(self)),
    {
        other.le(self)
    }

    /// `self >= 0` as numbers.
    pub fn is_non_negative(self) -> (r: bool)
        ensures
            r == self.non_negative(),
    {
        !self.is_nan() && self.ordinal() >= 0
    }

    /// `self > 0` as numbers.
    pub fn is_positive(self) -> (r: bool)
        ensures
            r == self.positive(),
    {
        !self.is_nan() && self.ordinal() > 0
    }

    /// `self < 0` as numbers.
    pub fn is_negative(self) -> (r: bool)
        ensures
            r == self.negative(),
    {
        !self.is_nan() && self.ordinal() < 0
    }

    /// `self == 0` as numbers.
    pub fn is_zero(self) -> (r: bool)
        ensures
            r == self.zero(),
    {
        self.magnitude_bits() == 0
    }

    /// Whether the number, rounded down to a whole number, is even.
    pub fn is_floor_even(self) -> (r: bool)
        ensures
            r == self.floor_even(),
    {
        let magnitude: u64 = self.magnitude_bits();
        if magnitude >= INFINITY_BITS {
            return false;
        }
        let negative = self.bits >= SIGN_BIT;
        let exponent: u64 = magnitude / FRACTION_RANGE;
        let fraction: u64 = magnitude % FRACTION_RANGE;
        proof {
            lemma_floor(self);
        }
        if exponent == 0 {
            // Less than one away from zero.
            return !(negative && fraction != 0);
        }
        let significand: u64 = FRACTION_RANGE + fraction;
        if exponent >= 1076 {
            // A whole number, and a multiple of two.
            return true;
        }
        if exponent == 1075 {
            // A whole number: the significand itself.
            return significand % 2 == 0;
        }
        let shift: u64 = 1075 - exponent;
        if shift >= 53 {
            // Less than one away from zero, and not zero.
            proof {
                lemma_pow2_at_least(53, shift as nat);
                lemma2_to64_rest();
                lemma_fundamental_div_mod_converse(
                    significand as int,
                    pow2(shift as nat) as int,
                    0,
                    significand as int,
                );
            }
            return !negative;
        }
        let mut divisor: u64 = 1;
        let mut doubled: u64 = 0;
        proof {
            lemma2_to64();
            lemma2_to64_rest();
        }
        while doubled < shift
            invariant
                doubled <= shift <= 52,
                divisor == pow2(doubled as nat),
                divisor <= pow2(52),
                pow2(52) == 0x10_0000_0000_0000,
            decreases shift - doubled,
        {
            proof {
                lemma_pow2_unfold((doubled + 1) as nat);
                lemma_pow2_at_least((doubled + 1) as nat, 52);
            }
            divisor = divisor * 2;
            doubled = doubled + 1;
        }
        let whole: u64 = significand / divisor;
        let rest: u64 = significand % divisor;
        if negative && rest != 0 {
            whole % 2 == 1
        } else {
            whole % 2 == 0
        }
    }

    /// The number with the opposite sign: the sign bit flipped, nothing else.
    pub fn neg(self) -> (r: Scalar)
        ensures
            r == self.negated(),
            r.magnitude() == self.magnitude(),
            r.sign_negative() == !self.sign_negative(),
            r.rank() == -self.rank(),
            r.nan() == self.nan(),
    {
        if self.bits >= SIGN_BIT {
            Scalar { bits: self.bits - SIGN_BIT }
        } else {
            Scalar { bits: self.bits + SIGN_BIT }
        }
    }

    /// The absolute value: the sign bit cleared, nothing else.
    pub fn abs(self) -> (r: Scalar)
        ensures
            r == self.absolute(),
            !r.sign_negative(),
            r.nan() == self.nan(),
            r.rank() == if self.rank() < 0 { -self.rank() } else { self.rank() },
    {
        Scalar { bits: self.magnitude_bits() }
    }
}

impl PartialEq for Scalar {
    /// Equality of numbers, not of patterns.
    fn eq(&self, other: &Scalar) -> (r: bool) {
        !self.is_nan() && !other.is_nan() && self.ordinal() == other.ordinal()
    }
}

impl PartialEqSpecImpl for Scalar {
    open spec fn obeys_eq_spec() -> bool {
        true
    }

    open spec fn eq_spec(&self, other: &Scalar) -> bool {
        self.same(*other)
    }
}

/// A greater magnitude stands for a greater number.
pub proof fn lemma_weight_increases(lower: int, upper: int)
    requires
        0 <= lower < upper,
    ensures
        0 <= weight(lower) < weight(upper),
{
    let range = FRACTION_RANGE as int;
    let (e1, f1) = (lower / range, lower % range);
    let (e2, f2) = (upper / range, upper % range);
    assert(lower == e1 * range + f1 && upper == e2 * range + f2 && e1 <= e2) by (nonlinear_arith)
        requires
            0 <= lower < upper,
            range == 0x10_0000_0000_0000,
            e1 == lower / range,
            f1 == lower % range,
            e2 == upper / range,
            f2 == upper % range,
    ;
    if e1 == e2 {
        if e1 > 0 {
            let p = pow2((e1 - 1) as nat) as int;
            lemma_pow2_pos((e1 - 1) as nat);
            assert(0 <= (range + f1) * p < (range + f2) * p) by (nonlinear_arith)
                requires
                    0 <= f1 < f2,
                    0 < range,
                    0 < p,
            ;
        }
    } else {
        // The lower magnitude stays below the least one with the exponent above its own.
        let q = pow2((e2 - 1) as nat) as int;
        lemma_pow2_pos((e2 - 1) as nat);
        assert(range * q <= (range + f2) * q) by (nonlinear_arith)
            requires
                0 <= f2,
                0 < q,
        ;
        if e1 == 0 {
            assert(range * 1 <= range * q) by (nonlinear_arith)
                requires
                    1 <= q,
                    0 < range,
            ;
        } else {
            let p = pow2((e1 - 1) as nat) as int;
            lemma_pow2_pos((e1 - 1) as nat);
            lemma_pow2_unfold(e1 as nat);
            if e1 < e2 - 1 {
                lemma_pow2_strictly_increases(e1 as nat, (e2 - 1) as nat);
            }
            assert(0 <= (range + f1) * p < range * (2 * p)) by (nonlinear_arith)
                requires
                    0 <= f1 < range,
                    0 < p,
            ;
            assert(range * (2 * p) <= range * q) by (nonlinear_arith)
                requires
                    2 * p <= q,
                    0 < range,
            ;
        }
    }
}

/// The rank orders finite scalars as the numbers they stand for: the lesser
/// rank belongs to the lesser number, and equal ranks to equal numbers.
pub proof fn lemma_rank_orders_values(a: Scalar, b: Scalar)
    requires
        a.finite(),
        b.finite(),
    ensures
        a.less(b) <==> a.scaled_value() < b.scaled_value(),
        a.same(b) <==> a.scaled_value() == b.scaled_value(),
{
    let (m, n) = (a.magnitude(), b.magnitude());
    assert(weight(0) == 0);
    if m < n {
        lemma_weight_increases(m, n);
    } else if n < m {
        lemma_weight_increases(n, m);
    }
    if 0 < m {
        lemma_weight_increases(0, m);
    }
    if 0 < n {
        lemma_weight_increases(0, n);
    }
}

/// The infinities lie beyond every finite number, on either side.
pub proof fn lemma_infinities_are_outermost(a: Scalar)
    requires
        a.finite(),
    ensures
        a.less(Scalar { bits: INFINITY_BITS }),
        (Scalar { bits: (INFINITY_BITS + SIGN_BIT) as u64 }).less(a),
{
}

/// The opposite of a scalar stands for the opposite number, and one stands
/// for one.
pub proof fn lemma_values(a: Scalar)
    ensures
        a.negated().scaled_value() == -a.scaled_value(),
        a.zero() <==> a.scaled_value() == 0,
        (Scalar { bits: ONE_BITS }).scaled_value() == pow2(1074),
        (Scalar { bits: 0 }).scaled_value() == 0,
{
    assert(weight(0) == 0);
    if a.magnitude() > 0 {
        lemma_weight_increases(0, a.magnitude());
    }
    assert(weight(ONE_BITS as int) == FRACTION_RANGE * pow2(1022));
    assert(FRACTION_RANGE as int == pow2(52)) by {
        vstd::arithmetic::power2::lemma2_to64_rest();
    }
    vstd::arithmetic::power2::lemma_pow2_adds(52, 1022);
}

/// What it takes for a pattern to stand for a fraction: with the pattern's
/// exponent `exponent` above zero and its fraction `fraction`, the pattern
/// stands for `(2^52 + fraction) * 2^(exponent - 1075)`, negated where `negative`.
/// Where that is within `slack` halves of a unit in the last place off
/// `numerator / denominator`, so says the scalar: exactly with a slack of zero,
/// rounded with a slack of one.
pub proof fn lemma_stands_for(
    bits: u64,
    negative: bool,
    exponent: nat,
    fraction: nat,
    numerator: int,
    denominator: int,
    slack: int,
)
    requires
        0 < exponent < 1075,
        fraction < FRACTION_RANGE,
        bits == (if negative {
            SIGN_BIT as int
        } else {
            0
        }) + exponent * FRACTION_RANGE + fraction,
        denominator > 0,
        0 <= slack <= 1,
        ({
            let whole = pow2((1075 - exponent) as nat) as int;
            let signed = if negative {
                -(FRACTION_RANGE + fraction)
            } else {
                FRACTION_RANGE + fraction
            };
            -slack * denominator <= 2 * (denominator * signed - numerator * whole) <= slack
                * denominator
        }),
    ensures
        slack == 0 ==> (Scalar { bits }).is_exactly(numerator, denominator),
        (Scalar { bits }).is_rounded(numerator, denominator),
{
    let s = Scalar { bits };
    let range = FRACTION_RANGE as int;
    let magnitude = exponent * range + fraction;
    assert(magnitude < 1075 * range) by (nonlinear_arith)
        requires
            magnitude == exponent * range + fraction,
            exponent <= 1074,
            fraction < range,
            range > 0,
    ;
    assert(s.magnitude() == magnitude);
    assert(magnitude / range == exponent && magnitude % range == fraction) by (nonlinear_arith)
        requires
            magnitude == exponent * range + fraction,
            0 <= fraction < range,
            0 <= exponent,
    ;
    let unit = pow2((exponent - 1) as nat) as int;
    let whole = pow2((1075 - exponent) as nat) as int;
    lemma_pow2_pos((exponent - 1) as nat);
    vstd::arithmetic::power2::lemma_pow2_adds((1075 - exponent) as nat, (exponent - 1) as nat);
    assert(whole * unit == pow2(1074));
    let signed = if negative {
        -(range + fraction)
    } else {
        range + fraction
    };
    assert(s.scaled_value() == signed * unit) by (nonlinear_arith)
        requires
            s.scaled_value() == if negative {
                -((range + fraction) * unit)
            } else {
                (range + fraction) * unit
            },
            signed == if negative {
                -(range + fraction)
            } else {
                range + fraction
            },
    ;
    let off = denominator * signed - numerator * whole;
    assert(denominator * (signed * unit) - numerator * (whole * unit) == off * unit)
        by (nonlinear_arith)
        requires
            off == denominator * signed - numerator * whole,
    ;
    assert(-(slack * denominator) * unit <= 2 * off * unit <= (slack * denominator) * unit)
        by (nonlinear_arith)
        requires
            -slack * denominator <= 2 * off <= slack * denominator,
            unit > 0,
    ;
    assert(-denominator * unit <= 2 * (off * unit) <= denominator * unit) by (nonlinear_arith)
        requires
            -(slack * denominator) * unit <= 2 * off * unit <= (slack * denominator) * unit,
            0 <= slack <= 1,
            denominator > 0,
            unit > 0,
    ;
    if slack == 0 {
        assert(off * unit == 0) by (nonlinear_arith)
            requires
                0 <= 2 * off <= 0,
        ;
    }
}

/// A power of two is at least every power of two with a lesser exponent.
proof fn lemma_pow2_at_least(lower: nat, upper: nat)
    requires
        lower <= upper,
    ensures
        pow2(lower) <= pow2(upper),
{
    if lower < upper {
        lemma_pow2_strictly_increases(lower, upper);
    }
}

/// Rounding down a quotient whose numerator and denominator have a factor in
/// common.
proof fn lemma_floor_of_scaled(a: int, d: int, u: int)
    requires
        d > 0,
        u > 0,
    ensures
        d * u > 0,
        (a * u) / (d * u) == a / d,
{
    let q = a / d;
    let r = a % d;
    lemma_fundamental_div_mod(a, d);
    assert(d * u > 0) by (nonlinear_arith)
        requires
            d > 0,
            u > 0,
    ;
    assert(a * u == q * (d * u) + r * u && 0 <= r * u < d * u) by (nonlinear_arith)
        requires
            a == d * q + r,
            0 <= r < d,
            u > 0,
    ;
    lemma_fundamental_div_mod_converse(a * u, d * u, q, r * u);
}

/// Rounding down the opposite of a quotient.
proof fn lemma_floor_of_opposite(m: int, d: int)
    requires
        d > 0,
        m >= 0,
    ensures
        (-m) / d == if m % d == 0 {
            -(m / d)
        } else {
            -(m / d) - 1
        },
{
    let q = m / d;
    let r = m % d;
    lemma_fundamental_div_mod(m, d);
    if r == 0 {
        assert(-m == (-q) * d + 0) by (nonlinear_arith)
            requires
                m == d * q + r,
                r == 0,
        ;
        lemma_fundamental_div_mod_converse(-m, d, -q, 0);
    } else {
        assert(-m == (-q - 1) * d + (d - r)) by (nonlinear_arith)
            requires
                m == d * q + r,
        ;
        lemma_fundamental_div_mod_converse(-m, d, -q - 1, d - r);
    }
}

/// What a finite scalar comes to when rounded down, by its exponent: a scalar
/// with an exponent of zero is less than one away from zero; one with an
/// exponent of 1075 or more is a whole number; between the two, the
/// significand is divided by a power of two.
pub proof fn lemma_floor(s: Scalar)
    requires
        s.finite(),
    ensures
        ({
            let range = FRACTION_RANGE as int;
            let exponent = s.magnitude() / range;
            let fraction = s.magnitude() % range;
            let significand = range + fraction;
            &&& 0 <= exponent < 2047
            &&& 0 <= fraction < range
            &&& exponent == 0 ==> s.floor() == if s.sign_negative() && fraction != 0 {
                -1int
            } else {
                0
            }
            &&& exponent >= 1076 ==> s.floor() % 2 == 0
            &&& exponent == 1075 ==> s.floor() == if s.sign_negative() {
                -significand
            } else {
                significand
            }
            &&& 0 < exponent < 1075 ==> {
                let divisor = pow2((1075 - exponent) as nat) as int;
                &&& divisor > 0
                &&& s.floor() == if !s.sign_negative() {
                    significand / divisor
                } else if significand % divisor == 0 {
                    -(significand / divisor)
                } else {
                    -(significand / divisor) - 1
                }
            }
        }),
{
    let range = FRACTION_RANGE as int;
    let magnitude = s.magnitude();
    let exponent = magnitude / range;
    let fraction = magnitude % range;
    let significand = range + fraction;
    let whole = pow2(1074) as int;
    lemma_pow2_pos(1074);
    assert(0 <= exponent < 2047 && 0 <= fraction < range) by (nonlinear_arith)
        requires
            0 <= magnitude < 0x7FF0_0000_0000_0000,
            range == 0x10_0000_0000_0000,
            exponent == magnitude / range,
            fraction == magnitude % range,
    ;
    if exponent == 0 {
        lemma_pow2_at_least(52, 1074);
        lemma2_to64_rest();
        if s.sign_negative() && fraction != 0 {
            lemma_fundamental_div_mod_converse(-fraction, whole, -1, whole - fraction);
        } else {
            lemma_fundamental_div_mod_converse(fraction, whole, 0, fraction);
        }
    } else if exponent >= 1075 {
        let above = pow2((exponent - 1075) as nat) as int;
        lemma_pow2_adds((exponent - 1075) as nat, 1074);
        let signed = if s.sign_negative() {
            -significand
        } else {
            significand
        };
        assert(s.scaled_value() == (signed * above) * whole + 0) by (nonlinear_arith)
            requires
                s.scaled_value() == if s.sign_negative() {
                    -(significand * (above * whole))
                } else {
                    significand * (above * whole)
                },
                signed == if s.sign_negative() {
                    -significand
                } else {
                    significand
                },
        ;
        lemma_fundamental_div_mod_converse(s.scaled_value(), whole, signed * above, 0);
        if exponent == 1075 {
            lemma2_to64();
            assert(signed * above == signed) by (nonlinear_arith)
                requires
                    above == 1,
            ;
        } else {
            lemma_pow2_unfold((exponent - 1075) as nat);
            let half = pow2((exponent - 1076) as nat) as int;
            assert(signed * above == 2 * (signed * half)) by (nonlinear_arith)
                requires
                    above == 2 * half,
            ;
        }
    } else {
        let unit = pow2((exponent - 1) as nat) as int;
        let divisor = pow2((1075 - exponent) as nat) as int;
        lemma_pow2_pos((exponent - 1) as nat);
        lemma_pow2_pos((1075 - exponent) as nat);
        lemma_pow2_adds((1075 - exponent) as nat, (exponent - 1) as nat);
        let signed = if s.sign_negative() {
            -significand
        } else {
            significand
        };
        assert(s.scaled_value() == signed * unit) by (nonlinear_arith)
            requires
                s.scaled_value() == if s.sign_negative() {
                    -(significand * unit)
                } else {
                    significand * unit
                },
                signed == if s.sign_negative() {
                    -significand
                } else {
                    significand
                },
        ;
        lemma_floor_of_scaled(signed, divisor, unit);
        if s.sign_negative() {
            lemma_floor_of_opposite(significand, divisor);
        }
    }
}

/// The order of numbers is strict and total on what is a number: of two
/// numbers exactly one of less, same and greater holds.
pub proof fn lemma_order_trichotomy(a: Scalar, b: Scalar)
    requires
        !a.nan(),
        !b.nan(),
    ensures
        a.less(b) || a.same(b) || b.less(a),
        !(a.less(b) && b.less(a)),
        !(a.less(b) && a.same(b)),
{
}

/// The order of numbers is transitive.
pub proof fn lemma_order_transitive(a: Scalar, b: Scalar, c: Scalar)
    requires
        a.less(b) || a.same(b),
        b.less(c) || b.same(c),
    ensures
        a.less(c) || a.same(c),
        a.less(b) || b.less(c) ==> a.less(c),
{
}

} // verus!
