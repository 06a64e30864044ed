//! Colors: three channels, each between 0 and 1.

use crate::scalar::{lemma_of_bits, lemma_one_value, scaled_value, Scalar, ONE_BITS, ZERO_BITS};
use vstd::arithmetic::power2::lemma_pow2_pos;
use vstd::prelude::*;

verus! {

/// What a channel at full strength denotes, in the units of a scalar's view.
pub open spec fn full_channel() -> int {
    scaled_value(ONE_BITS)
}

/// The number `value` moved into the range of a channel.
pub open spec fn clamp_channel(value: int) -> int {
    if value < 0 {
        0
    } else if value > full_channel() {
        full_channel()
    } else {
        value
    }
}

/// The scalar `value` moved into the range of a channel: 0.0 where it lies
/// below 0, 1.0 where it lies above 1, else the scalar itself.
pub open spec fn clamped(value: Scalar) -> Scalar {
    if value@ < 0 {
        Scalar::of_bits(ZERO_BITS)
    } else if value@ > full_channel() {
        Scalar::of_bits(ONE_BITS)
    } else {
        value
    }
}

/// A color. Every channel lies between 0 and 1, both included, whatever the
/// color was made from.
#[derive(Debug, Clone, Copy)]
pub struct Color {
    r: Scalar,
    g: Scalar,
    b: Scalar,
}

impl Color {
    pub closed spec fn spec_r(&self) -> Scalar {
        self.r
    }

    pub closed spec fn spec_g(&self) -> Scalar {
        self.g
    }

    pub closed spec fn spec_b(&self) -> Scalar {
        self.b
    }

    /// Whether the color is black: every channel denotes 0.
    pub open spec fn is_black(&self) -> bool {
        self.r()@ == 0 && self.g()@ == 0 && self.b()@ == 0
    }

    /// Whether no channel of the color is stronger than the same channel of
    /// `other`.
    pub open spec fn no_brighter_than(&self, other: Color) -> bool {
        self.r()@ <= other.r()@ && self.g()@ <= other.g()@ && self.b()@ <= other.b()@
    }

    /// Whether every channel lies between 0 and 1. Every color that
    /// executable code holds does.
    #[verifier::type_invariant]
    pub open spec fn in_range(&self) -> bool {
        &&& 0 <= self.r()@ <= full_channel()
        &&& 0 <= self.g()@ <= full_channel()
        &&& 0 <= self.b()@ <= full_channel()
    }

    /// Whether the color is white: every channel denotes 1.
    pub open spec fn is_white(&self) -> bool {
        self.r()@ == full_channel() && self.g()@ == full_channel() && self.b()@ == full_channel()
    }

    /// The color with the given channels, each moved into the range from 0 to
    /// 1: a channel below 0 becomes 0, one above 1 becomes 1.
    pub fn from_rgb(r: Scalar, g: Scalar, b: Scalar) -> (color: Color)
        ensures
            color.r() == clamped(r),
            color.g() == clamped(g),
            color.b() == clamped(b),
            color.r()@ == clamp_channel(r@),
            color.g()@ == clamp_channel(g@),
            color.b()@ == clamp_channel(b@),
    {
        let zero = Scalar::zero();
        let one = Scalar::one();
        proof {
            lemma_one_value();
            lemma_pow2_pos(149);
        }
        Color { r: r.clamp(zero, one), g: g.clamp(zero, one), b: b.clamp(zero, one) }
    }

    pub closed spec fn spec_black() -> Color {
        Color {
            r: Scalar::of_bits(ZERO_BITS),
            g: Scalar::of_bits(ZERO_BITS),
            b: Scalar::of_bits(ZERO_BITS),
        }
    }

    pub closed spec fn spec_white() -> Color {
        Color { r: Scalar::of_bits(ONE_BITS), g: Scalar::of_bits(ONE_BITS), b: Scalar::of_bits(ONE_BITS) }
    }

    /// Black is black, white is white, and both are colors in range.
    pub proof fn lemma_black_and_white()
        ensures
            Color::black().is_black(),
            Color::black().in_range(),
            Color::white().is_white(),
            Color::white().in_range(),
    {
        lemma_of_bits(ZERO_BITS, Scalar::of_bits(ZERO_BITS));
        lemma_of_bits(ONE_BITS, Scalar::of_bits(ONE_BITS));
        lemma_one_value();
        lemma_pow2_pos(149);
        assert(scaled_value(ZERO_BITS) == 0);
    }

    /// Black: no light in any channel.
    #[verifier::when_used_as_spec(spec_black)]
    pub fn black() -> (color: Color)
        ensures
            color == Color::black(),
            color.is_black(),
    {
        proof {
            lemma_one_value();
            lemma_pow2_pos(149);
        }
        Color { r: Scalar::zero(), g: Scalar::zero(), b: Scalar::zero() }
    }

    /// White: every channel at full strength.
    #[verifier::when_used_as_spec(spec_white)]
    pub fn white() -> (color: Color)
        ensures
            color == Color::white(),
            color.is_white(),
    {
        proof {
            lemma_one_value();
            lemma_pow2_pos(149);
        }
        Color { r: Scalar::one(), g: Scalar::one(), b: Scalar::one() }
    }

    /// The red channel, between 0 and 1.
    #[verifier::when_used_as_spec(spec_r)]
    pub fn r(&self) -> (channel: Scalar)
        ensures
            channel == self.r(),
            0 <= channel@ <= full_channel(),
    {
        proof {
            use_type_invariant(self);
        }
        self.r
    }

    /// The green channel, between 0 and 1.
    #[verifier::when_used_as_spec(spec_g)]
    pub fn g(&self) -> (channel: Scalar)
        ensures
            channel == self.g(),
            0 <= channel@ <= full_channel(),
    {
        proof {
            use_type_invariant(self);
        }
        self.g
    }

    /// The blue channel, between 0 and 1.
    #[verifier::when_used_as_spec(spec_b)]
    pub fn b(&self) -> (channel: Scalar)
        ensures
            channel == self.b(),
            0 <= channel@ <= full_channel(),
    {
        proof {
            use_type_invariant(self);
        }
        self.b
    }
}

} // verus!
