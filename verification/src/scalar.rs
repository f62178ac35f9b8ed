//! Single-precision values as bit patterns: classification, ordering and
//! conversion to an 8-bit channel.
use vstd::prelude::*;
use vstd::arithmetic::div_mod::lemma_div_multiples_vanish_quotient;
use vstd::arithmetic::div_mod::lemma_fundamental_div_mod_converse;
use vstd::arithmetic::power2::lemma2_to64;
use vstd::arithmetic::power2::lemma_pow2_adds;
use vstd::arithmetic::power2::lemma_pow2_pos;
use vstd::arithmetic::power2::lemma_pow2_strictly_increases;
use vstd::arithmetic::power2::lemma_pow2_unfold;
use vstd::arithmetic::power2::pow2;

verus! {

/// Bit pattern of positive zero.
pub const ZERO_BITS: u32 = 0x0000_0000;

/// Bit pattern of `1.0`.
pub const ONE_BITS: u32 = 0x3f80_0000;

/// Bit pattern of positive infinity.
pub const INFINITY_BITS: u32 = 0x7f80_0000;

/// A single-precision value, carried as its IEEE-754 bit pattern: one sign
/// bit, eight bits of biased exponent, twenty-three bits of fraction.
///
/// `==` compares patterns, not values: it tells `0.0` from `-0.0`, and finds
/// a value that is not a number equal to itself. Values are compared by
/// [`Scalar::lt`], [`Scalar::le`] and [`Scalar::gt`].
#[derive(Clone, Copy, Debug, PartialEq, Eq)]
pub struct Scalar {
    pub bits: u32,
}

impl Scalar {
    /// The sign bit is set (true of `-0.0` and of negative NaNs too).
    pub open spec fn negative(self) -> bool {
        self.bits >= 0x8000_0000
    }

    /// The pattern without its sign bit.
    pub open spec fn magnitude(self) -> int {
        if self.bits >= 0x8000_0000 {
            self.bits - 0x8000_0000
        } else {
            self.bits as int
        }
    }

    /// The value is not a number.
    pub open spec fn nan(self) -> bool {
        self.magnitude() > 0x7f80_0000
    }

    /// The biased exponent, `0..=255`.
    pub open spec fn exponent(self) -> int {
        self.magnitude() / 0x80_0000
    }

    /// The fraction bits, `0..2^23`.
    pub open spec fn fraction(self) -> int {
        self.magnitude() % 0x80_0000
    }

    /// The absolute value, times `2^149`, which makes it a whole number: with
    /// the biased exponent 0 the absolute value is `fraction * 2^-149`, with
    /// an exponent `e` above 0 it is `(2^23 + fraction) * 2^(e - 150)`.
    /// Infinity, which has the exponent 255, stands above every number.
    pub open spec fn scaled(self) -> int {
        if self.exponent() == 0 {
            self.fraction()
        } else {
            (0x80_0000 + self.fraction()) * pow2((self.exponent() - 1) as nat)
        }
    }

    /// The value, times `2^149`.
    pub open spec fn value(self) -> int {
        if self.negative() {
            -self.scaled()
        } else {
            self.scaled()
        }
    }

    /// `self < other`; false when either is not a number.
    pub open spec fn below(self, other: Scalar) -> bool {
        !self.nan() && !other.nan() && self.value() < other.value()
    }

    /// `self <= other`; false when either is not a number.
    pub open spec fn at_most(self, other: Scalar) -> bool {
        !self.nan() && !other.nan() && self.value() <= other.value()
    }

    /// `min <= self < max`.
    pub open spec fn within(self, min: Scalar, max: Scalar) -> bool {
        min.at_most(self) && self.below(max)
    }

    /// The value held between 0 and 255, without what follows the point; 0
    /// for a value that is not a number.
    pub open spec fn channel(self) -> int {
        if self.nan() || self.negative() {
            0
        } else if self.scaled() / (pow2(149) as int) >= 255 {
            255
        } else {
            self.scaled() / (pow2(149) as int)
        }
    }

    /// The pattern read as a sign and a magnitude. It orders patterns as
    /// their values do, see [`lemma_rank_orders_values`].
    pub open spec fn rank(self) -> int {
        if self.negative() {
            -self.magnitude()
        } else {
            self.magnitude()
        }
    }

    /// Positive zero.
    pub open spec fn spec_zero() -> Scalar {
        Scalar { bits: ZERO_BITS }
    }

    /// Positive zero.
    #[verifier::when_used_as_spec(spec_zero)]
    pub fn zero() -> (r: Scalar)
        ensures
            r == Scalar::spec_zero(),
    {
        Scalar { bits: ZERO_BITS }
    }

    /// The value `1.0`.
    pub open spec fn spec_one() -> Scalar {
        Scalar { bits: ONE_BITS }
    }

    /// The value `1.0`.
    #[verifier::when_used_as_spec(spec_one)]
    pub fn one() -> (r: Scalar)
        ensures
            r == Scalar::spec_one(),
    {
        Scalar { bits: ONE_BITS }
    }

    /// Positive infinity.
    pub open spec fn spec_infinity() -> Scalar {
        Scalar { bits: INFINITY_BITS }
    }

    /// Positive infinity.
    #[verifier::when_used_as_spec(spec_infinity)]
    pub fn infinity() -> (r: Scalar)
        ensures
            r == Scalar::spec_infinity(),
    {
        Scalar { bits: INFINITY_BITS }
    }

    /// Whether the value is not a number.
    pub fn is_nan(self) -> (r: bool)
        ensures
            r == self.nan(),
    {
        proof {
            lemma_clear_sign(self.bits);
        }
        (self.bits & 0x7fff_ffff) > 0x7f80_0000
    }

    /// The rank of a value, as a machine integer.
    fn order_key(self) -> (r: i64)
        ensures
            r == self.rank(),
    {
        proof {
            lemma_clear_sign(self.bits);
        }
        let magnitude: u32 = self.bits & 0x7fff_ffff;
        if self.bits >= 0x8000_0000 {
            -(magnitude as i64)
        } else {
            magnitude as i64
        }
    }

    /// `self < other`, as the comparison of the two values decides it.
    pub fn lt(self, other: Scalar) -> (r: bool)
        ensures
            r == self.below(other),
    {
        proof {
            lemma_rank_orders_values(self, other);
        }
        !self.is_nan() && !other.is_nan() && self.order_key() < other.order_key()
    }

    /// `self <= other`, as the comparison of the two values decides it.
    pub fn le(self, other: Scalar) -> (r: bool)
        ensures
            r == self.at_most(other),
    {
        proof {
            lemma_rank_orders_values(self, other);
        }
        !self.is_nan() && !other.is_nan() && self.order_key() <= other.order_key()
    }

    /// `self > other`, as the comparison of the two values decides it.
    pub fn gt(self, other: Scalar) -> (r: bool)
        ensures
            r == other.below(self),
    {
        other.lt(self)
    }

    /// Whether the value lies in the half-open range from `min` to `max`.
    pub fn is_within(self, min: Scalar, max: Scalar) -> (r: bool)
        ensures
            r == self.within(min, max),
    {
        min.le(self) && self.lt(max)
    }

    /// Holds the value between 0 and 255 and drops what follows the point. A
    /// value that is not a number gives 0.
    pub fn to_channel(self) -> (r: u8)
        ensures
            r == self.channel(),
    {
        proof {
            lemma_clear_sign(self.bits);
        }
        let magnitude: u32 = self.bits & 0x7fff_ffff;
        if self.bits >= 0x8000_0000 || magnitude > 0x7f80_0000 {
            return 0;
        }
        let exponent: u32 = magnitude >> 23;
        let fraction: u32 = magnitude & 0x7f_ffff;
        proof {
            assert(magnitude >> 23 == magnitude / 0x80_0000) by (bit_vector);
            assert(magnitude & 0x7f_ffff == magnitude % 0x80_0000) by (bit_vector);
            lemma_whole_part(self);
        }
        if exponent < 127 {
            0
        } else if exponent >= 135 {
            255
        } else {
            let significand: u32 = 0x80_0000 + fraction;
            let shift: u32 = 150 - exponent;
            proof {
                vstd::bits::lemma_u32_shr_is_div(significand, shift);
                assert(significand >> shift <= 255) by (bit_vector)
                    requires
                        significand < 0x100_0000,
                        16 <= shift <= 23,
                ;
            }
            (significand >> shift) as u8
        }
    }
}

/// Clearing the sign bit of a pattern subtracts `2^31` where the bit was set.
proof fn lemma_clear_sign(b: u32)
    ensures
        (b & 0x7fff_ffff) == if b >= 0x8000_0000u32 {
            (b - 0x8000_0000u32) as u32
        } else {
            b
        },
{
    assert((b & 0x7fff_ffff) == if b >= 0x8000_0000u32 {
        (b - 0x8000_0000u32) as u32
    } else {
        b
    }) by (bit_vector);
}

/// Of two patterns, the one with the larger magnitude has the larger
/// absolute value.
pub proof fn lemma_scaled_grows_with_magnitude(a: Scalar, b: Scalar)
    requires
        a.magnitude() < b.magnitude(),
    ensures
        0 <= a.scaled() < b.scaled(),
{
    let ea = a.exponent();
    let eb = b.exponent();
    let fa = a.fraction();
    let fb = b.fraction();
    assert(ea <= eb && (ea == eb ==> fa < fb));
    if ea == 0 {
        if eb > 0 {
            lemma_pow2_pos((eb - 1) as nat);
            assert(0x80_0000 <= (0x80_0000 + fb) * pow2((eb - 1) as nat)) by (nonlinear_arith)
                requires
                    0 <= fb,
                    pow2((eb - 1) as nat) >= 1,
            ;
        }
    } else {
        let pa = pow2((ea - 1) as nat);
        let pb = pow2((eb - 1) as nat);
        lemma_pow2_pos((ea - 1) as nat);
        lemma_pow2_pos((eb - 1) as nat);
        assert(0 <= (0x80_0000 + fa) * pa) by (nonlinear_arith)
            requires
                0 <= fa,
                pa >= 1,
        ;
        if ea == eb {
            assert((0x80_0000 + fa) * pa < (0x80_0000 + fb) * pa) by (nonlinear_arith)
                requires
                    fa < fb,
                    pa >= 1,
            ;
        } else {
            lemma_pow2_unfold(ea as nat);
            if ea < eb - 1 {
                lemma_pow2_strictly_increases(ea as nat, (eb - 1) as nat);
            }
            assert(2 * pa <= pb);
            assert((0x80_0000 + fa) * pa < (0x80_0000 + fb) * pb) by (nonlinear_arith)
                requires
                    0 <= fa < 0x80_0000,
                    0 <= fb,
                    pa >= 1,
                    2 * pa <= pb,
            ;
        }
    }
}

/// The rank of a pattern orders patterns as the values do that they stand
/// for, and two patterns have one rank exactly when they have one value: so
/// the two zeros are equal, and every other value has one pattern.
pub proof fn lemma_rank_orders_values(a: Scalar, b: Scalar)
    ensures
        a.rank() < b.rank() <==> a.value() < b.value(),
        a.rank() == b.rank() <==> a.value() == b.value(),
{
    let zero = Scalar { bits: 0 };
    assert(zero.scaled() == 0);
    if a.magnitude() < b.magnitude() {
        lemma_scaled_grows_with_magnitude(a, b);
    } else if b.magnitude() < a.magnitude() {
        lemma_scaled_grows_with_magnitude(b, a);
    } else {
        assert(a.scaled() == b.scaled());
    }
    if 0 < a.magnitude() {
        lemma_scaled_grows_with_magnitude(zero, a);
    } else {
        assert(a.scaled() == 0);
    }
    if 0 < b.magnitude() {
        lemma_scaled_grows_with_magnitude(zero, b);
    } else {
        assert(b.scaled() == 0);
    }
}

/// No number is above positive infinity, and what is below anything is below
/// positive infinity.
pub proof fn lemma_infinity_is_greatest(x: Scalar, y: Scalar)
    ensures
        !x.nan() ==> x.at_most(Scalar::infinity()),
        !Scalar::infinity().below(x),
        x.below(y) ==> x.below(Scalar::infinity()),
{
    let infinity = Scalar::infinity();
    lemma_rank_orders_values(x, infinity);
    lemma_rank_orders_values(infinity, x);
    lemma_rank_orders_values(y, infinity);
}

/// The whole part of the absolute value: 0 below the exponent 127, at least
/// 256 from the exponent 135 on, and in between the leading `e - 126` bits of
/// `2^23 + fraction`.
proof fn lemma_whole_part(x: Scalar)
    ensures
        x.exponent() < 127 ==> x.scaled() / (pow2(149) as int) == 0,
        x.exponent() >= 135 ==> x.scaled() / (pow2(149) as int) >= 256,
        127 <= x.exponent() < 135 ==> x.scaled() / (pow2(149) as int) == (0x80_0000 + x.fraction())
            / (pow2((150 - x.exponent()) as nat) as int),
{
    let e = x.exponent();
    let f = x.fraction();
    let unit = pow2(149) as int;
    lemma2_to64();
    lemma_pow2_pos(149);
    if e == 0 {
        lemma_pow2_strictly_increases(23, 149);
        lemma_fundamental_div_mod_converse(f, unit, 0, f);
    } else {
        let p = pow2((e - 1) as nat) as int;
        let s = 0x80_0000 + f;
        lemma_pow2_pos((e - 1) as nat);
        if e < 127 {
            if e < 126 {
                lemma_pow2_strictly_increases((e - 1) as nat, 125);
            }
            lemma_pow2_adds(24, 125);
            assert(0 <= s * p < unit) by (nonlinear_arith)
                requires
                    0 <= s < 0x100_0000,
                    1 <= p <= pow2(125),
                    unit == 0x100_0000 * pow2(125),
            ;
            lemma_fundamental_div_mod_converse(s * p, unit, 0, s * p);
        } else if e >= 135 {
            if e > 135 {
                lemma_pow2_strictly_increases(134, (e - 1) as nat);
            }
            lemma_pow2_adds(8, 149);
            lemma_pow2_adds(23, 134);
            assert(pow2(157) == 256 * unit);
            assert(s * p >= 256 * unit) by (nonlinear_arith)
                requires
                    s >= 0x80_0000,
                    p >= pow2(134),
                    0x80_0000 * pow2(134) == 256 * unit,
                    unit > 0,
            ;
            vstd::arithmetic::div_mod::lemma_div_is_ordered(256 * unit, s * p, unit);
            vstd::arithmetic::div_mod::lemma_div_multiples_vanish(256, unit);
        } else {
            let k = pow2((150 - e) as nat) as int;
            lemma_pow2_pos((150 - e) as nat);
            lemma_pow2_adds((e - 1) as nat, (150 - e) as nat);
            assert(unit == p * k);
            lemma_div_multiples_vanish_quotient(p, s, k);
            assert(s * p == p * s) by (nonlinear_arith);
        }
    }
}

} // verus!
