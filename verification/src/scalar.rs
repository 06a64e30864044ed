//! Scalars of the renderer, held by their IEEE 754 binary32 encoding.
//!
//! A [`Scalar`] is the 32-bit pattern of a single-precision number that is not
//! a NaN. What a pattern denotes is given by [`scaled_value`]: the number
//! multiplied by 2^149, which is an integer for every pattern because the
//! smallest subnormal is 2^-149. The two infinities take the values that the
//! same formula gives them, beyond every finite number.
//!
//! Comparison, selection, clamping, negation and absolute value are exact on
//! patterns. They are implemented here on integers and proved against the
//! model. Operations that round (sums, products, roots) are not part of this
//! module: callers compute them and hand the pattern of the result back.

use vstd::arithmetic::mul::{lemma_mul_inequality, lemma_mul_strict_inequality};
use vstd::arithmetic::power2::{lemma2_to64, lemma_pow2_pos, lemma_pow2_strictly_increases, lemma_pow2_unfold, pow2};
use vstd::prelude::*;

verus! {

/// The bit that holds the sign.
pub const SIGN_BIT: u32 = 0x8000_0000;

/// Number of patterns that share one exponent: 2^23.
pub const FRACTION_SPAN: u32 = 0x0080_0000;

/// Pattern of positive infinity, the largest magnitude that is not a NaN.
pub const INFINITY_BITS: u32 = 0x7f80_0000;

/// Pattern of 0.0.
pub const ZERO_BITS: u32 = 0x0000_0000;

/// Pattern of 1.0.
pub const ONE_BITS: u32 = 0x3f80_0000;

/// Pattern of 1e-8, the length below which a vector counts as zero.
pub const PRECISION_BITS: u32 = 0x322b_cc77;

/// The pattern with its sign bit cleared.
pub open spec fn magnitude_bits(bits: u32) -> u32 {
    if bits >= SIGN_BIT {
        (bits - SIGN_BIT) as u32
    } else {
        bits
    }
}

/// Whether the sign bit is set.
pub open spec fn is_negative_bits(bits: u32) -> bool {
    bits >= SIGN_BIT
}

/// Whether the pattern encodes a NaN: all exponent bits set and a fraction
/// that is not zero.
pub open spec fn is_nan_bits(bits: u32) -> bool {
    magnitude_bits(bits) > INFINITY_BITS
}

/// What a pattern without sign denotes, times 2^149.
///
/// With exponent field `e` and fraction field `f`, a subnormal (`e == 0`)
/// denotes `f * 2^-149` and every other pattern `(2^23 + f) * 2^(e - 150)`.
pub open spec fn magnitude_value(magnitude: u32) -> nat {
    let exponent = (magnitude / FRACTION_SPAN) as nat;
    let fraction = (magnitude % FRACTION_SPAN) as nat;
    if exponent == 0 {
        fraction
    } else {
        ((FRACTION_SPAN + fraction) * pow2((exponent - 1) as nat)) as nat
    }
}

/// What a pattern denotes, times 2^149.
pub open spec fn scaled_value(bits: u32) -> int {
    if is_negative_bits(bits) {
        -(magnitude_value(magnitude_bits(bits)) as int)
    } else {
        magnitude_value(magnitude_bits(bits)) as int
    }
}

/// The integer by which patterns are compared: the magnitude, negated where
/// the sign bit is set. Both zeros share the key 0.
pub open spec fn order_key(bits: u32) -> int {
    if is_negative_bits(bits) {
        -(magnitude_bits(bits) as int)
    } else {
        magnitude_bits(bits) as int
    }
}

/// A larger magnitude pattern denotes a larger magnitude.
pub proof fn lemma_magnitude_increases(low: u32, high: u32)
    requires
        low < high < SIGN_BIT,
    ensures
        magnitude_value(low) < magnitude_value(high),
{
    let e1 = (low / FRACTION_SPAN) as nat;
    let f1 = (low % FRACTION_SPAN) as nat;
    let e2 = (high / FRACTION_SPAN) as nat;
    let f2 = (high % FRACTION_SPAN) as nat;
    assert(e1 <= e2);
    if e1 == e2 {
        assert(f1 < f2);
        if e1 > 0 {
            let scale = pow2((e1 - 1) as nat);
            lemma_pow2_pos((e1 - 1) as nat);
            lemma_mul_strict_inequality((FRACTION_SPAN + f1) as int, (FRACTION_SPAN + f2) as int, scale as int);
        }
    } else {
        let step = pow2((e2 - 1) as nat);
        lemma_pow2_pos((e2 - 1) as nat);
        // What `high` denotes is at least 2^23 * 2^(e2 - 1).
        lemma_mul_inequality(FRACTION_SPAN as int, (FRACTION_SPAN + f2) as int, step as int);
        assert(magnitude_value(high) >= FRACTION_SPAN * step);
        if e1 == 0 {
            assert(magnitude_value(low) == f1);
            assert(FRACTION_SPAN * step >= FRACTION_SPAN) by (nonlinear_arith)
                requires
                    step >= 1,
            ;
        } else {
            // What `low` denotes is below 2^24 * 2^(e1 - 1) = 2^23 * 2^e1.
            let scale = pow2((e1 - 1) as nat);
            lemma_pow2_pos((e1 - 1) as nat);
            lemma_pow2_unfold(e1);
            lemma_mul_strict_inequality((FRACTION_SPAN + f1) as int, 2 * FRACTION_SPAN, scale as int);
            assert((2 * FRACTION_SPAN) * scale == FRACTION_SPAN * pow2(e1)) by (nonlinear_arith)
                requires
                    pow2(e1) == 2 * scale,
            ;
            if e1 < e2 - 1 {
                lemma_pow2_strictly_increases(e1, (e2 - 1) as nat);
            }
            lemma_mul_inequality(pow2(e1) as int, step as int, FRACTION_SPAN as int);
            assert(FRACTION_SPAN * pow2(e1) <= FRACTION_SPAN * step) by (nonlinear_arith)
                requires
                    pow2(e1) * FRACTION_SPAN <= step * FRACTION_SPAN,
            ;
        }
    }
}

/// Magnitudes are ordered as their patterns are.
pub proof fn lemma_magnitude_order(a: u32, b: u32)
    requires
        a < SIGN_BIT,
        b < SIGN_BIT,
    ensures
        a < b <==> magnitude_value(a) < magnitude_value(b),
        a == b <==> magnitude_value(a) == magnitude_value(b),
{
    if a < b {
        lemma_magnitude_increases(a, b);
    } else if b < a {
        lemma_magnitude_increases(b, a);
    }
}

/// Only the all-zero magnitude denotes zero.
pub proof fn lemma_magnitude_zero(a: u32)
    requires
        a < SIGN_BIT,
    ensures
        magnitude_value(a) == 0 <==> a == 0,
{
    if a > 0 {
        lemma_magnitude_increases(0, a);
    }
}

/// The order of two patterns by value is the order of their keys, and they
/// denote the same number exactly when their keys agree.
pub proof fn lemma_key_orders_values(a: u32, b: u32)
    ensures
        order_key(a) < order_key(b) <==> scaled_value(a) < scaled_value(b),
        order_key(a) == order_key(b) <==> scaled_value(a) == scaled_value(b),
{
    let ma = magnitude_bits(a);
    let mb = magnitude_bits(b);
    lemma_magnitude_order(ma, mb);
    lemma_magnitude_zero(ma);
    lemma_magnitude_zero(mb);
}

/// A single-precision number that is not a NaN.
///
/// Its view is the number times 2^149 (see [`scaled_value`]), so contracts
/// compare scalars as integers.
#[derive(Clone, Copy, Debug)]
pub struct Scalar {
    bits: u32,
}

impl View for Scalar {
    type V = int;

    open spec fn view(&self) -> int {
        scaled_value(self.bits())
    }
}

impl Scalar {
    #[verifier::type_invariant]
    spec fn not_nan(self) -> bool {
        !is_nan_bits(self.bits)
    }

    /// The encoding of the scalar.
    pub closed spec fn bits(self) -> u32 {
        self.bits
    }

    /// The scalar whose encoding is `bits`.
    pub closed spec fn of_bits(bits: u32) -> Scalar {
        Scalar { bits }
    }

    /// The scalar with the given encoding, or `None` where the pattern is a
    /// NaN.
    pub fn from_bits(bits: u32) -> (scalar: Option<Scalar>)
        ensures
            scalar.is_some() <==> !is_nan_bits(bits),
            scalar matches Some(s) ==> s == Scalar::of_bits(bits) && s.bits() == bits,
    {
        let magnitude: u32 = if bits >= SIGN_BIT {
            bits - SIGN_BIT
        } else {
            bits
        };
        if magnitude > INFINITY_BITS {
            None
        } else {
            Some(Scalar { bits })
        }
    }

    /// The encoding of the scalar, which is never that of a NaN.
    pub fn to_bits(self) -> (bits: u32)
        ensures
            bits == self.bits(),
            !is_nan_bits(bits),
    {
        proof {
            use_type_invariant(&self);
        }
        self.bits
    }

    /// 0.0
    pub fn zero() -> (scalar: Scalar)
        ensures
            scalar == Scalar::of_bits(ZERO_BITS),
            scalar.bits() == ZERO_BITS,
            scalar@ == 0,
    {
        Scalar { bits: ZERO_BITS }
    }

    /// 1.0
    pub fn one() -> (scalar: Scalar)
        ensures
            scalar == Scalar::of_bits(ONE_BITS),
            scalar.bits() == ONE_BITS,
            scalar@ == pow2(149),
    {
        proof {
            lemma_one_value();
        }
        Scalar { bits: ONE_BITS }
    }

    /// Positive infinity, above every other scalar.
    pub fn infinity() -> (scalar: Scalar)
        ensures
            scalar == Scalar::of_bits(INFINITY_BITS),
            scalar.bits() == INFINITY_BITS,
    {
        Scalar { bits: INFINITY_BITS }
    }

    /// The integer by which the scalar is compared.
    fn key(self) -> (key: i64)
        ensures
            key == order_key(self.bits()),
    {
        if self.bits >= SIGN_BIT {
            -((self.bits - SIGN_BIT) as i64)
        } else {
            self.bits as i64
        }
    }

    /// Whether `self` is strictly less than `other`.
    pub fn lt(self, other: Scalar) -> (less: bool)
        ensures
            less <==> self@ < other@,
    {
        proof {
            lemma_key_orders_values(self.bits, other.bits);
        }
        self.key() < other.key()
    }

    /// Whether `self` is less than or equal to `other`.
    pub fn le(self, other: Scalar) -> (at_most: bool)
        ensures
            at_most <==> self@ <= other@,
    {
        proof {
            lemma_key_orders_values(self.bits, other.bits);
        }
        self.key() <= other.key()
    }

    /// Whether the two scalars denote the same number. The two zeros do.
    pub fn same(self, other: Scalar) -> (equal: bool)
        ensures
            equal <==> self@ == other@,
    {
        proof {
            lemma_key_orders_values(self.bits, other.bits);
        }
        self.key() == other.key()
    }

    /// The scalar without its sign.
    pub fn abs(self) -> (magnitude: Scalar)
        ensures
            magnitude@ == if self@ < 0 {
                -self@
            } else {
                self@
            },
            magnitude.bits() == magnitude_bits(self.bits()),
    {
        proof {
            use_type_invariant(&self);
        }
        if self.bits >= SIGN_BIT {
            Scalar { bits: self.bits - SIGN_BIT }
        } else {
            self
        }
    }

    /// The scalar with its sign flipped.
    pub fn neg(self) -> (negated: Scalar)
        ensures
            negated@ == -self@,
            magnitude_bits(negated.bits()) == magnitude_bits(self.bits()),
            is_negative_bits(negated.bits()) != is_negative_bits(self.bits()),
    {
        proof {
            use_type_invariant(&self);
        }
        if self.bits >= SIGN_BIT {
            Scalar { bits: self.bits - SIGN_BIT }
        } else {
            Scalar { bits: self.bits + SIGN_BIT }
        }
    }

    /// The smaller of the two scalars; `self` where they denote the same
    /// number.
    pub fn min(self, other: Scalar) -> (least: Scalar)
        ensures
            least == if other@ < self@ {
                other
            } else {
                self
            },
    {
        if other.lt(self) {
            other
        } else {
            self
        }
    }

    /// The larger of the two scalars; `self` where they denote the same
    /// number.
    pub fn max(self, other: Scalar) -> (most: Scalar)
        ensures
            most == if self@ < other@ {
                other
            } else {
                self
            },
    {
        if self.lt(other) {
            other
        } else {
            self
        }
    }

    /// The scalar moved into the range from `low` to `high`: `low` where it
    /// lies below, `high` where it lies above, else the scalar itself.
    pub fn clamp(self, low: Scalar, high: Scalar) -> (kept: Scalar)
        requires
            low@ <= high@,
        ensures
            kept == if self@ < low@ {
                low
            } else if high@ < self@ {
                high
            } else {
                self
            },
            low@ <= kept@ <= high@,
    {
        if self.lt(low) {
            low
        } else if high.lt(self) {
            high
        } else {
            self
        }
    }
}

/// Whether a vector of length `norm` counts as the zero vector: its length
/// lies below 1e-8. Such a vector has no direction, so it must not be
/// normalized. A vector of length 1e-8 or more has one.
pub fn is_near_zero(norm: Scalar) -> (near_zero: bool)
    ensures
        near_zero <==> norm@ < scaled_value(PRECISION_BITS),
{
    let precision = Scalar::from_bits(PRECISION_BITS).unwrap();
    norm.lt(precision)
}

/// Whether a scale factor is usable: it is greater than 0. A factor of 0 or
/// less would flatten or mirror what it scales, and has no inverse.
pub fn is_positive(factor: Scalar) -> (positive: bool)
    ensures
        positive <==> factor@ > 0,
{
    Scalar::zero().lt(factor)
}

/// A scalar is its encoding: `of_bits` and `bits` undo each other.
pub proof fn lemma_of_bits(bits: u32, scalar: Scalar)
    ensures
        Scalar::of_bits(bits).bits() == bits,
        Scalar::of_bits(scalar.bits()) == scalar,
{
}

/// The pattern of 1.0 denotes 2^149 in units of 2^-149.
pub proof fn lemma_one_value()
    ensures
        scaled_value(ONE_BITS) == pow2(149),
{
    assert(ONE_BITS / FRACTION_SPAN == 127);
    assert(ONE_BITS % FRACTION_SPAN == 0);
    lemma2_to64();
    vstd::arithmetic::power2::lemma_pow2_adds(23, 126);
    assert(pow2(23) == 0x80_0000);
}

} // verus!
