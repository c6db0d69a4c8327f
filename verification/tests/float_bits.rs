use xrizer::float_bits::{
    clamp_to_unit, is_one, is_positive, less_than, nan, FRAC_1_SQRT_2, FRAC_PI_2, INFINITY,
    NEG_FRAC_1_SQRT_2, NEG_FRAC_PI_2, NEG_HALF, ONE, SIGN_BIT, TWO_PI, ZERO,
};
use xrizer::handle::{canonical_handle, names_no_key, HALF, NULL_SLOT};

fn samples() -> Vec<f32> {
    vec![
        0.0,
        -0.0,
        1.0,
        -1.0,
        2.0,
        0.5,
        -0.5,
        0.999_999_94,
        1.000_000_1,
        1.0e-40,
        -1.0e-40,
        f32::MIN_POSITIVE,
        f32::MAX,
        f32::MIN,
        f32::INFINITY,
        f32::NEG_INFINITY,
        f32::NAN,
        f32::from_bits(0xffc0_0000),
        f32::from_bits(0x7f80_0001),
        std::f32::consts::PI,
        500.0,
    ]
}

#[test]
fn constants_are_the_patterns_of_their_numbers() {
    assert_eq!(ZERO, 0.0f32.to_bits());
    assert_eq!(ONE, 1.0f32.to_bits());
    assert_eq!(NEG_HALF, (-0.5f32).to_bits());
    assert_eq!(FRAC_1_SQRT_2, std::f32::consts::FRAC_1_SQRT_2.to_bits());
    assert_eq!(NEG_FRAC_1_SQRT_2, (-std::f32::consts::FRAC_1_SQRT_2).to_bits());
    assert_eq!(TWO_PI, (2.0 * std::f32::consts::PI).to_bits());
    assert_eq!(FRAC_PI_2, (0.5 * std::f32::consts::PI).to_bits());
    assert_eq!(NEG_FRAC_PI_2, (-0.5 * std::f32::consts::PI).to_bits());
    assert_eq!(INFINITY, f32::INFINITY.to_bits());
    assert_eq!(SIGN_BIT, (-0.0f32).to_bits());
}

#[test]
fn nan_agrees_with_the_hardware() {
    for x in samples() {
        assert_eq!(nan(x.to_bits()), x.is_nan(), "{x}");
    }
}

#[test]
fn less_than_agrees_with_the_hardware() {
    for a in samples() {
        for b in samples() {
            assert_eq!(less_than(a.to_bits(), b.to_bits()), a < b, "{a} < {b}");
        }
    }
}

#[test]
fn is_one_agrees_with_the_hardware() {
    for x in samples() {
        assert_eq!(is_one(x.to_bits()), x == 1.0, "{x}");
    }
}

#[test]
fn is_positive_agrees_with_the_hardware() {
    for x in samples() {
        assert_eq!(is_positive(x.to_bits()), x > 0.0, "{x}");
    }
}

#[test]
fn clamp_agrees_with_the_hardware() {
    for x in samples() {
        assert_eq!(clamp_to_unit(x.to_bits()), x.clamp(0.0, 1.0).to_bits(), "{x}");
    }
}

#[test]
fn clamp_of_two_is_one() {
    assert_eq!(f32::from_bits(clamp_to_unit(2.0f32.to_bits())), 1.0);
}

#[test]
fn clamp_of_minus_one_is_zero() {
    assert_eq!(clamp_to_unit((-1.0f32).to_bits()), 0.0f32.to_bits());
}

#[test]
fn clamp_keeps_a_number_inside_the_range() {
    assert_eq!(clamp_to_unit(0.25f32.to_bits()), 0.25f32.to_bits());
    assert_eq!(clamp_to_unit(ONE), ONE);
    assert_eq!(clamp_to_unit(ZERO), ZERO);
}

#[test]
fn clamp_keeps_nan_and_negative_zero() {
    assert!(f32::from_bits(clamp_to_unit(f32::NAN.to_bits())).is_nan());
    assert_eq!(clamp_to_unit(SIGN_BIT), SIGN_BIT);
}

#[test]
fn canonical_handle_sets_the_lowest_version_bit() {
    assert_eq!(canonical_handle(0x0000_0001_0000_0001), 0x0000_0001_0000_0001);
    assert_eq!(canonical_handle(0x0000_0000_0000_0001), 0x0000_0001_0000_0001);
    assert_eq!(canonical_handle(0x0000_0002_0000_0007), 0x0000_0003_0000_0007);
    assert_eq!(canonical_handle(u64::MAX), u64::MAX);
    assert_eq!(canonical_handle(0xffff_fffe_0000_0000), 0xffff_ffff_0000_0000);
    for h in [0u64, 1, 0x1_0000_0000, 0x2_0000_0005, 0xdead_beef_0123_4567] {
        assert_eq!(canonical_handle(h), h | HALF);
    }
}

#[test]
fn null_slot_names_no_key() {
    assert!(names_no_key(NULL_SLOT));
    assert!(names_no_key(0x0000_0001_ffff_ffff));
    assert!(!names_no_key(0x0000_0001_0000_0001));
    assert!(!names_no_key(0xffff_ffff_0000_0000));
}
