use raytracer::key::{
    below_zero, distance_key, less, signed_key, whole_part, FARTHEST, FRACTION_RANGE, INFINITY,
    SIGN_BIT,
};

fn samples() -> Vec<f32> {
    vec![
        f32::NEG_INFINITY,
        f32::MIN,
        -1000.,
        -10.,
        -1.5,
        -1.,
        -1e-3,
        -f32::MIN_POSITIVE,
        -1e-45,
        -0.,
        0.,
        1e-45,
        f32::MIN_POSITIVE,
        1e-3,
        0.5,
        1.,
        1.0000001,
        1.5,
        10.,
        30.,
        999.99,
        1000.,
        3.0e38,
        f32::MAX,
        f32::INFINITY,
    ]
}

#[test]
fn constants_are_the_patterns_of_their_numbers() {
    assert_eq!(SIGN_BIT, (-0f32).to_bits());
    assert_eq!(INFINITY, f32::INFINITY.to_bits());
    assert_eq!(FARTHEST, f32::MAX.to_bits());
    assert_eq!(FRACTION_RANGE, 1 << 23);
}

#[test]
fn key_of_a_positive_number_is_its_pattern() {
    assert_eq!(signed_key(1f32.to_bits()), Some(0x3F80_0000));
    assert_eq!(signed_key(1000f32.to_bits()), Some(0x447A_0000));
    assert_eq!(signed_key(f32::INFINITY.to_bits()), Some(0x7F80_0000));
}

#[test]
fn key_of_a_negative_number_is_its_negated_magnitude() {
    assert_eq!(signed_key((-1f32).to_bits()), Some(-0x3F80_0000));
    assert_eq!(signed_key(f32::NEG_INFINITY.to_bits()), Some(-0x7F80_0000));
}

#[test]
fn both_zeros_have_key_zero() {
    assert_eq!(signed_key(0f32.to_bits()), Some(0));
    assert_eq!(signed_key((-0f32).to_bits()), Some(0));
    assert_eq!(distance_key(0f32.to_bits()), Some(0));
    assert_eq!(distance_key((-0f32).to_bits()), Some(0));
}

#[test]
fn what_is_not_a_number_has_no_key() {
    assert_eq!(signed_key(f32::NAN.to_bits()), None);
    assert_eq!(signed_key((-f32::NAN).to_bits()), None);
    assert_eq!(signed_key(0x7F80_0001), None);
    assert_eq!(signed_key(0xFFFF_FFFF), None);
    assert_eq!(distance_key(f32::NAN.to_bits()), None);
    assert_eq!(distance_key(0xFF80_0001), None);
}

#[test]
fn keys_are_ordered_as_the_numbers_are() {
    let all = samples();
    for a in &all {
        for b in &all {
            let ka = signed_key(a.to_bits()).unwrap();
            let kb = signed_key(b.to_bits()).unwrap();
            assert_eq!(ka < kb, a < b);
            assert_eq!(ka == kb, a == b);
        }
    }
}

#[test]
fn distance_key_exists_for_zero_and_more() {
    for a in samples() {
        let key = distance_key(a.to_bits());
        assert_eq!(key.is_some(), a >= 0.);
        if let Some(k) = key {
            assert_eq!(f32::from_bits(k), a);
        }
    }
}

#[test]
fn distance_keys_are_ordered_as_the_distances_are() {
    let all = samples();
    for a in &all {
        for b in &all {
            if let (Some(ka), Some(kb)) = (distance_key(a.to_bits()), distance_key(b.to_bits())) {
                assert_eq!(ka < kb, a < b);
            }
        }
    }
}

#[test]
fn whole_part_drops_the_fraction() {
    assert_eq!(whole_part(0f32.to_bits()), 0);
    assert_eq!(whole_part(0.999f32.to_bits()), 0);
    assert_eq!(whole_part(1f32.to_bits()), 1);
    assert_eq!(whole_part(1.5f32.to_bits()), 1);
    assert_eq!(whole_part(254.99998f32.to_bits()), 254);
    assert_eq!(whole_part(255f32.to_bits()), 255);
    assert_eq!(whole_part(1023.9999f32.to_bits()), 1023);
    assert_eq!(whole_part(16_777_215f32.to_bits()), 16_777_215);
    assert_eq!(whole_part(16_777_216f32.to_bits()), 16_777_216);
    assert_eq!(whole_part(4_294_967_040f32.to_bits()), 4_294_967_040);
}

#[test]
fn whole_part_stops_at_the_ends_of_the_range() {
    assert_eq!(whole_part(4_294_967_296f32.to_bits()), u32::MAX);
    assert_eq!(whole_part(1e20f32.to_bits()), u32::MAX);
    assert_eq!(whole_part(f32::MAX.to_bits()), u32::MAX);
    assert_eq!(whole_part(f32::INFINITY.to_bits()), u32::MAX);
    assert_eq!(whole_part((-0f32).to_bits()), 0);
    assert_eq!(whole_part((-0.5f32).to_bits()), 0);
    assert_eq!(whole_part((-7f32).to_bits()), 0);
    assert_eq!(whole_part(f32::NEG_INFINITY.to_bits()), 0);
    assert_eq!(whole_part(f32::NAN.to_bits()), 0);
    assert_eq!(whole_part(0xFFC0_0000), 0);
}

#[test]
fn whole_part_agrees_with_the_conversion_of_numbers() {
    for a in samples() {
        assert_eq!(whole_part(a.to_bits()), a as u32);
    }
    // A walk over all exponents and a spread of fractions.
    let mut bits: u32 = 0;
    loop {
        let a = f32::from_bits(bits);
        assert_eq!(whole_part(bits), a as u32);
        assert_eq!(whole_part(bits | SIGN_BIT), 0);
        match bits.checked_add(0x0003_A5C7) {
            Some(next) if next < SIGN_BIT => bits = next,
            _ => break,
        }
    }
}

#[test]
fn patterns_compare_as_their_numbers_do() {
    let mut all = samples();
    all.push(f32::NAN);
    for a in &all {
        for b in &all {
            assert_eq!(less(a.to_bits(), b.to_bits()), a < b);
        }
        assert_eq!(below_zero(a.to_bits()), *a < 0.);
    }
}

#[test]
fn zero_is_not_below_zero() {
    assert!(!below_zero(0f32.to_bits()));
    assert!(!below_zero((-0f32).to_bits()));
    assert!(below_zero((-1e-45f32).to_bits()));
    assert!(!less((-0f32).to_bits(), 0f32.to_bits()));
    assert!(!less(0f32.to_bits(), (-0f32).to_bits()));
}
