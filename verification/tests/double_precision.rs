use wallpaper_poc::double::{scale_pixels, to_physical};

fn next(state: &mut u64) -> u64 {
    *state = state.wrapping_mul(6364136223846793005).wrapping_add(1442695040888963407);
    let high = *state >> 32;
    *state = state.wrapping_mul(6364136223846793005).wrapping_add(1442695040888963407);
    (high << 32) | (*state >> 32)
}

#[test]
fn pixels_are_scaled_without_their_fraction() {
    assert_eq!(scale_pixels(340, 1.0f64.to_bits()), 340);
    assert_eq!(scale_pixels(340, 2.0f64.to_bits()), 680);
    assert_eq!(scale_pixels(180, 1.25f64.to_bits()), 225);
    assert_eq!(scale_pixels(181, 1.5f64.to_bits()), 271);
    assert_eq!(scale_pixels(180, 0.0f64.to_bits()), 0);
    assert_eq!(scale_pixels(181, (-1.5f64).to_bits()), -271);
}

#[test]
fn unusual_factors_are_handled() {
    assert_eq!(scale_pixels(340, f64::NAN.to_bits()), 0);
    assert_eq!(scale_pixels(340, f64::INFINITY.to_bits()), i32::MAX);
    assert_eq!(scale_pixels(340, f64::NEG_INFINITY.to_bits()), i32::MIN);
    assert_eq!(scale_pixels(0, f64::INFINITY.to_bits()), 0);
    assert_eq!(scale_pixels(340, f64::MAX.to_bits()), i32::MAX);
    assert_eq!(scale_pixels(340, f64::MIN_POSITIVE.to_bits()), 0);
    assert_eq!(scale_pixels(1, 2147483648.0f64.to_bits()), i32::MAX);
    assert_eq!(scale_pixels(1, (-2147483648.0f64).to_bits()), i32::MIN);
}

#[test]
fn scaled_pixels_agree_with_the_hardware() {
    let mut state = 23;
    for i in 0..40000 {
        let pixels = (next(&mut state) as u32) >> (i % 32);
        let scale = match i % 3 {
            0 => f64::from_bits(next(&mut state)),
            1 => (next(&mut state) % 1000) as f64 / 96.0,
            _ => -((next(&mut state) % 1000) as f64) / 7.0,
        };
        assert_eq!(
            scale_pixels(pixels, scale.to_bits()),
            (pixels as f64 * scale) as i32,
            "{pixels} * {scale}"
        );
    }
}

#[test]
fn points_become_pixels() {
    assert_eq!(to_physical(1728.0f64.to_bits(), 2.0f64.to_bits()), 3456);
    assert_eq!(to_physical(1920.5f64.to_bits(), 1.0f64.to_bits()), 1921);
    assert_eq!(to_physical(1920.25f64.to_bits(), 2.0f64.to_bits()), 3841);
    assert_eq!(to_physical((-3.0f64).to_bits(), 2.0f64.to_bits()), 0);
    assert_eq!(to_physical((-3.0f64).to_bits(), (-2.0f64).to_bits()), 6);
}

#[test]
fn unusual_points_are_handled() {
    let inf = f64::INFINITY.to_bits();
    assert_eq!(to_physical(f64::NAN.to_bits(), 2.0f64.to_bits()), 0);
    assert_eq!(to_physical(2.0f64.to_bits(), f64::NAN.to_bits()), 0);
    assert_eq!(to_physical(inf, 2.0f64.to_bits()), u32::MAX);
    assert_eq!(to_physical(inf, 0.0f64.to_bits()), 0);
    assert_eq!(to_physical(0.0f64.to_bits(), inf), 0);
    assert_eq!(to_physical(2.0f64.to_bits(), inf), u32::MAX);
    assert_eq!(to_physical(f64::NEG_INFINITY.to_bits(), 2.0f64.to_bits()), 0);
    assert_eq!(to_physical(f64::MAX.to_bits(), f64::MAX.to_bits()), u32::MAX);
}

#[test]
fn physical_sides_agree_with_the_hardware() {
    let mut state = 29;
    for i in 0..40000 {
        let (points, scale) = match i % 3 {
            0 => (f64::from_bits(next(&mut state)), f64::from_bits(next(&mut state))),
            1 => (
                (next(&mut state) % 100000) as f64 / 16.0,
                (next(&mut state) % 1000) as f64 / 96.0,
            ),
            _ => (
                (next(&mut state) as f64) / 3.0e10,
                (next(&mut state) as f64) / 1.0e19,
            ),
        };
        assert_eq!(
            to_physical(points.to_bits(), scale.to_bits()),
            (points * scale).round() as u32,
            "{points} * {scale}"
        );
    }
}
