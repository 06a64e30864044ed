use raytracer::scalar::{
    is_near_zero, is_positive, Scalar, INFINITY_BITS, ONE_BITS, PRECISION_BITS, ZERO_BITS,
};

fn scalar(value: f32) -> Scalar {
    Scalar::from_bits(value.to_bits()).expect("not a NaN")
}

fn number(scalar: Scalar) -> f32 {
    f32::from_bits(scalar.to_bits())
}

fn samples() -> Vec<f32> {
    vec![
        f32::NEG_INFINITY,
        f32::MIN,
        -3.0e38,
        -1.0,
        -1.0e-8,
        -1.0e-40,
        -1.0e-45,
        -0.0,
        0.0,
        1.0e-45,
        1.0e-40,
        1.0e-8,
        0.001,
        0.5,
        1.0,
        1.000_000_1,
        2.0,
        3.0e38,
        f32::MAX,
        f32::INFINITY,
    ]
}

#[test]
fn from_bits_rejects_nan() {
    assert!(Scalar::from_bits(f32::NAN.to_bits()).is_none());
    assert!(Scalar::from_bits(0x7f80_0001).is_none());
    assert!(Scalar::from_bits(0x7fff_ffff).is_none());
    assert!(Scalar::from_bits(0xff80_0001).is_none());
    assert!(Scalar::from_bits(0xffc0_0000).is_none());
}

#[test]
fn from_bits_accepts_every_number() {
    for value in samples() {
        let made = Scalar::from_bits(value.to_bits());
        assert!(made.is_some(), "{}", value);
        assert_eq!(made.unwrap().to_bits(), value.to_bits());
    }
    assert!(Scalar::from_bits(0x7f80_0000).is_some());
    assert!(Scalar::from_bits(0xff80_0000).is_some());
    assert!(Scalar::from_bits(0x7f7f_ffff).is_some());
}

#[test]
fn constants_are_the_patterns_of_their_numbers() {
    assert_eq!(ZERO_BITS, 0.0f32.to_bits());
    assert_eq!(ONE_BITS, 1.0f32.to_bits());
    assert_eq!(INFINITY_BITS, f32::INFINITY.to_bits());
    assert_eq!(PRECISION_BITS, 1e-8f32.to_bits());
    assert_eq!(Scalar::zero().to_bits(), 0.0f32.to_bits());
    assert_eq!(Scalar::one().to_bits(), 1.0f32.to_bits());
    assert_eq!(Scalar::infinity().to_bits(), f32::INFINITY.to_bits());
}

#[test]
fn lt_agrees_with_single_precision_order() {
    for a in samples() {
        for b in samples() {
            assert_eq!(scalar(a).lt(scalar(b)), a < b, "{} < {}", a, b);
        }
    }
}

#[test]
fn le_agrees_with_single_precision_order() {
    for a in samples() {
        for b in samples() {
            assert_eq!(scalar(a).le(scalar(b)), a <= b, "{} <= {}", a, b);
        }
    }
}

#[test]
fn same_agrees_with_single_precision_equality() {
    for a in samples() {
        for b in samples() {
            assert_eq!(scalar(a).same(scalar(b)), a == b, "{} == {}", a, b);
        }
    }
    assert!(scalar(0.0).same(scalar(-0.0)));
    assert!(!scalar(1.0).same(scalar(-1.0)));
}

#[test]
fn order_is_strict_between_neighbouring_patterns() {
    let below = Scalar::from_bits(0x3f7f_ffff).unwrap();
    let one = Scalar::one();
    let above = Scalar::from_bits(0x3f80_0001).unwrap();
    assert!(below.lt(one));
    assert!(one.lt(above));
    assert!(!one.lt(below));
    let largest_subnormal = Scalar::from_bits(0x007f_ffff).unwrap();
    let smallest_normal = Scalar::from_bits(0x0080_0000).unwrap();
    assert!(largest_subnormal.lt(smallest_normal));
    assert!(Scalar::from_bits(0x7f7f_ffff).unwrap().lt(Scalar::infinity()));
}

#[test]
fn min_and_max_pick_as_single_precision_does() {
    for a in samples() {
        for b in samples() {
            assert_eq!(number(scalar(a).min(scalar(b))), a.min(b), "min({}, {})", a, b);
            assert_eq!(number(scalar(a).max(scalar(b))), a.max(b), "max({}, {})", a, b);
        }
    }
    assert_eq!(scalar(2.0).min(scalar(3.0)).to_bits(), 2.0f32.to_bits());
    assert_eq!(scalar(2.0).max(scalar(3.0)).to_bits(), 3.0f32.to_bits());
}

#[test]
fn min_and_max_keep_the_first_of_two_equals() {
    assert_eq!(scalar(-0.0).min(scalar(0.0)).to_bits(), (-0.0f32).to_bits());
    assert_eq!(scalar(0.0).min(scalar(-0.0)).to_bits(), 0.0f32.to_bits());
    assert_eq!(scalar(-0.0).max(scalar(0.0)).to_bits(), (-0.0f32).to_bits());
}

#[test]
fn clamp_moves_into_the_range() {
    let zero = Scalar::zero();
    let one = Scalar::one();
    for value in samples() {
        let kept = scalar(value).clamp(zero, one);
        assert_eq!(kept.to_bits(), value.clamp(0.0, 1.0).to_bits(), "{}", value);
    }
    assert_eq!(number(scalar(1.5).clamp(zero, one)), 1.0);
    assert_eq!(number(scalar(-0.25).clamp(zero, one)), 0.0);
    assert_eq!(number(scalar(0.25).clamp(zero, one)), 0.25);
    assert_eq!(number(scalar(7.0).clamp(scalar(7.0), scalar(7.0))), 7.0);
}

#[test]
fn abs_and_neg_are_exact() {
    for value in samples() {
        assert_eq!(scalar(value).abs().to_bits(), value.abs().to_bits(), "|{}|", value);
        assert_eq!(scalar(value).neg().to_bits(), (-value).to_bits(), "-{}", value);
    }
    assert_eq!(number(scalar(-2.5).abs()), 2.5);
    assert_eq!(number(scalar(2.5).neg()), -2.5);
    assert_eq!(number(scalar(-2.5).neg()), 2.5);
}

fn length(x: f32, y: f32, z: f32) -> Scalar {
    scalar((x * x + y * y + z * z).sqrt())
}

#[test]
fn near_zero_is_a_length_below_the_precision() {
    assert!(is_near_zero(scalar(0.0)));
    assert!(is_near_zero(scalar(-0.0)));
    assert!(is_near_zero(scalar(9.9e-9)));
    assert!(is_near_zero(scalar(1.0e-45)));
    assert!(is_near_zero(Scalar::from_bits(PRECISION_BITS - 1).unwrap()));
    assert!(!is_near_zero(Scalar::from_bits(PRECISION_BITS).unwrap()));
    assert!(!is_near_zero(scalar(1.0e-8)));
    assert!(!is_near_zero(scalar(1.1e-8)));
    assert!(!is_near_zero(scalar(1.0)));
    assert!(!is_near_zero(scalar(f32::INFINITY)));
    for norm in samples() {
        assert_eq!(is_near_zero(scalar(norm)), norm < 1e-8, "{}", norm);
    }
}

#[test]
fn a_vector_is_near_zero_by_its_length_not_by_its_components() {
    // Every component lies below the precision, the length does not.
    assert!(!is_near_zero(length(0.9e-8, 0.9e-8, 0.9e-8)));
    assert!(!is_near_zero(length(9.9e-9, -9.9e-9, -0.0)));
    assert!(!is_near_zero(length(0.0, 8.0e-9, 8.0e-9)));
    // The length lies below the precision.
    assert!(is_near_zero(length(5.0e-9, 5.0e-9, 5.0e-9)));
    assert!(is_near_zero(length(9.9e-9, 0.0, 0.0)));
    assert!(is_near_zero(length(0.0, 0.0, 0.0)));
    // One component reaches the precision.
    assert!(!is_near_zero(length(1.0e-8, 0.0, 0.0)));
    assert!(!is_near_zero(length(0.0, -2.0e-8, 0.0)));
    assert!(!is_near_zero(length(1.0, 1.0, 1.0)));
}

#[test]
fn a_factor_is_positive_above_zero_only() {
    assert!(is_positive(scalar(1.0)));
    assert!(is_positive(scalar(1.0e-45)));
    assert!(is_positive(scalar(f32::INFINITY)));
    assert!(!is_positive(scalar(0.0)));
    assert!(!is_positive(scalar(-0.0)));
    assert!(!is_positive(scalar(-1.0e-45)));
    assert!(!is_positive(scalar(-2.0)));
    assert!(!is_positive(scalar(f32::NEG_INFINITY)));
    for factor in samples() {
        assert_eq!(is_positive(scalar(factor)), factor > 0.0, "{}", factor);
    }
}
