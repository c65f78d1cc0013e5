use wallpaper_poc::single::Single;

fn single(v: f32) -> Single {
    Single::from_bits(v.to_bits()).unwrap()
}

fn next(state: &mut u64) -> u32 {
    *state = state.wrapping_mul(6364136223846793005).wrapping_add(1442695040888963407);
    (*state >> 32) as u32
}

#[test]
fn only_non_negative_finite_values_are_taken() {
    assert!(Single::from_bits(f32::NAN.to_bits()).is_none());
    assert!(Single::from_bits(f32::INFINITY.to_bits()).is_none());
    assert!(Single::from_bits((-1.0f32).to_bits()).is_none());
    assert!(Single::from_bits((-0.0f32).to_bits()).is_none());
    assert!(Single::from_bits(f32::MAX.to_bits()).is_some());
    assert!(Single::from_bits(0).is_some());
}

#[test]
fn bits_survive_the_way_in_and_out() {
    let mut state = 3;
    for _ in 0..20000 {
        let bits = next(&mut state) % 0x7f80_0000;
        assert_eq!(Single::from_bits(bits).unwrap().to_bits(), bits);
    }
    assert_eq!(single(f32::MIN_POSITIVE).to_bits(), f32::MIN_POSITIVE.to_bits());
}

#[test]
fn whole_numbers_are_rounded_to_the_nearest_value() {
    assert_eq!(Single::from_whole(0).to_bits(), 0);
    assert_eq!(Single::from_whole(1).to_bits(), 1.0f32.to_bits());
    assert_eq!(Single::from_whole(16777217).to_bits(), 16777216.0f32.to_bits());
    assert_eq!(Single::from_whole(16777219).to_bits(), 16777220.0f32.to_bits());
    let mut state = 5;
    for _ in 0..20000 {
        let x = next(&mut state);
        assert_eq!(Single::from_whole(x).to_bits(), (x as f32).to_bits());
    }
}

#[test]
fn values_are_ordered_as_numbers() {
    let mut state = 9;
    for _ in 0..20000 {
        let a = f32::from_bits(next(&mut state) % 0x7f80_0000);
        let b = f32::from_bits(next(&mut state) % 0x7f80_0000);
        assert_eq!(single(a).at_most(single(b)), a <= b);
        assert_eq!(single(a).max(single(b)).to_bits(), a.max(b).to_bits());
        assert_eq!(single(a).min(single(b)).to_bits(), a.min(b).to_bits());
    }
    assert!(single(2.5).at_most(single(2.5)));
}

#[test]
fn quotients_agree_with_the_hardware() {
    let mut state = 13;
    for i in 0..20000 {
        let a = if i % 2 == 0 {
            f32::from_bits(next(&mut state) % 0x7f80_0000)
        } else {
            (next(&mut state) & 0xffff) as f32
        };
        let b = (next(&mut state).max(1) >> (i % 30)).max(1) as f32;
        assert_eq!(single(a).over(single(b)).to_bits(), (a / b).to_bits(), "{a} / {b}");
    }
}

#[test]
fn products_agree_with_the_hardware() {
    let mut state = 17;
    for i in 0..20000 {
        let a = (next(&mut state).max(1) >> (i % 30)).max(1) as f32;
        let b = f32::from_bits(next(&mut state) % 0x5400_0000);
        assert_eq!(single(a).times(single(b)).to_bits(), (a * b).to_bits(), "{a} * {b}");
    }
}

#[test]
fn values_are_rounded_to_whole_numbers() {
    assert_eq!(single(0.49999997).to_whole(), 0);
    assert_eq!(single(0.5).to_whole(), 1);
    assert_eq!(single(2.5).to_whole(), 3);
    assert_eq!(single(8388607.5).to_whole(), 8388608);
    assert_eq!(single(4294967040.0).to_whole(), 4294967040);
    assert_eq!(single(4294967296.0).to_whole(), u32::MAX);
    assert_eq!(single(f32::MAX).to_whole(), u32::MAX);
    let mut state = 19;
    for _ in 0..20000 {
        let v = f32::from_bits(next(&mut state) % 0x7f80_0000);
        assert_eq!(single(v).to_whole(), v.round() as u32);
    }
}
