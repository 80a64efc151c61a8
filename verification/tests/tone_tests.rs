use raytracer::tone::{clamp, divisor, FULL};

fn scale(r: f32, g: f32, b: f32) -> Option<f32> {
    divisor(r.to_bits(), g.to_bits(), b.to_bits()).map(f32::from_bits)
}

#[test]
fn full_brightness_is_one() {
    assert_eq!(FULL, 1f32.to_bits());
}

#[test]
fn pixel_within_range_is_left_alone() {
    assert_eq!(scale(0.2, 0.4, 0.6), None);
    assert_eq!(scale(0., 0., 0.), None);
    assert_eq!(scale(1., 1., 1.), None);
    assert_eq!(scale(-3., 0.5, -0.), None);
}

#[test]
fn bright_pixel_is_divided_by_its_brightest_channel() {
    assert_eq!(scale(2., 0.5, 1.), Some(2.));
    assert_eq!(scale(0.5, 4., 1.), Some(4.));
    assert_eq!(scale(0.5, 1.5, 8.), Some(8.));
    assert_eq!(scale(3., 3., 3.), Some(3.));
    assert_eq!(scale(1.0000001, 1., 0.), Some(1.0000001));
    assert_eq!(scale(f32::INFINITY, 2., 2.), Some(f32::INFINITY));
}

#[test]
fn scaling_keeps_the_proportions_of_the_channels() {
    let (r, g, b) = (2.0f32, 1.0f32, 0.5f32);
    let d = scale(r, g, b).unwrap();
    assert_eq!((r / d, g / d, b / d), (1., 0.5, 0.25));
    assert_eq!((r / d) / (g / d), r / g);
    assert_eq!((g / d) / (b / d), g / b);
}

#[test]
fn channel_that_is_not_a_number_is_passed_over() {
    assert_eq!(scale(f32::NAN, 0.5, 0.25), None);
    assert_eq!(scale(f32::NAN, 5., 0.25), Some(5.));
    assert_eq!(scale(f32::NAN, f32::NAN, f32::NAN), None);
    assert_eq!(scale(2., f32::NAN, 6.), Some(6.));
}

#[test]
fn divisor_agrees_with_the_greatest_channel() {
    let values = [-1.0f32, 0., 0.5, 1., 1.25, 2., 100., f32::NAN];
    for r in values {
        for g in values {
            for b in values {
                let max = r.max(g.max(b));
                let expected = if max > 1. { Some(max) } else { None };
                assert_eq!(scale(r, g, b), expected);
            }
        }
    }
}

fn clamped(v: f32) -> f32 {
    f32::from_bits(clamp(v.to_bits()))
}

#[test]
fn channel_in_range_is_unchanged_by_clamping() {
    assert_eq!(clamped(0.), 0.);
    assert_eq!(clamped(0.25), 0.25);
    assert_eq!(clamped(0.999_999_9), 0.999_999_9);
    assert_eq!(clamped(1.), 1.);
    assert_eq!(clamped(1e-45), 1e-45);
}

#[test]
fn channel_out_of_range_is_clamped_to_the_nearest_end() {
    assert_eq!(clamped(1.000_000_1), 1.);
    assert_eq!(clamped(17.), 1.);
    assert_eq!(clamped(f32::INFINITY), 1.);
    assert_eq!(clamped(-1e-45), 0.);
    assert_eq!(clamped(-3.), 0.);
    assert_eq!(clamped(f32::NEG_INFINITY), 0.);
    assert_eq!(clamped(-0.), 0.);
}

#[test]
fn clamping_what_is_not_a_number_gives_one() {
    assert_eq!(clamped(f32::NAN), 1.);
    assert_eq!(clamp(0xFFC0_0001), FULL);
}

#[test]
fn clamping_agrees_with_the_bounds_on_numbers() {
    let mut v = -2.0f32;
    while v < 3. {
        assert_eq!(clamped(v), v.min(1.).max(0.));
        assert!((0. ..=1.).contains(&clamped(v)));
        v += 0.0173;
    }
}

#[test]
fn scaled_and_clamped_pixel_keeps_its_proportions() {
    let (r, g, b) = (4.0f32, 2.0f32, 1.0f32);
    let d = scale(r, g, b).unwrap();
    let out = (clamped(r / d), clamped(g / d), clamped(b / d));
    assert_eq!(out, (1., 0.5, 0.25));
}
