use wallpaper_poc::single::Single;
use wallpaper_poc::sizes::{compute_output_size, compute_upscaled_size, ratio_of_sides, scale_side};

fn hardware_output_size(src_w: u32, src_h: u32, tw: u32, th: u32) -> (u32, u32) {
    let scale = (tw as f32 / src_w as f32).max(th as f32 / src_h as f32);
    let effective = scale.min(3.0);
    let even = |src: u32, target: u32| {
        let px = (src as f32 * effective).round().max(2.0) as u32;
        let below = px & !1;
        let above = px as u64 + 1;
        if below != px && below < target && above <= 3 * src as u64 && px < u32::MAX {
            px + 1
        } else {
            below
        }
    };
    (even(src_w, tw), even(src_h, th))
}

fn hardware_upscaled_size(src: (u32, u32), target: (u32, u32), cap: f32) -> Option<(u32, u32)> {
    let scale = (target.0 as f32 / src.0 as f32).min(target.1 as f32 / src.1 as f32);
    if scale <= 1.0 {
        return None;
    }
    let effective = scale.min(cap);
    Some((
        (src.0 as f32 * effective).round().max(1.0) as u32,
        (src.1 as f32 * effective).round().max(1.0) as u32,
    ))
}

fn next(state: &mut u64) -> u32 {
    *state = state.wrapping_mul(6364136223846793005).wrapping_add(1442695040888963407);
    (*state >> 33) as u32
}

#[test]
fn frames_keep_their_size_without_a_target() {
    assert_eq!(compute_output_size(1921, 1081, None), (1921, 1081));
    assert_eq!(compute_output_size(0, 0, None), (0, 0));
}

#[test]
fn frames_without_pixels_keep_their_size() {
    assert_eq!(compute_output_size(0, 1080, Some((1920, 1080))), (0, 1080));
    assert_eq!(compute_output_size(1920, 0, Some((1920, 1080))), (1920, 0));
}

#[test]
fn frames_cover_the_display() {
    assert_eq!(compute_output_size(1280, 720, Some((1920, 1080))), (1920, 1080));
    assert_eq!(compute_output_size(3840, 2160, Some((1920, 1080))), (1920, 1080));
    assert_eq!(compute_output_size(1920, 1080, Some((2560, 1600))), (2844, 1600));
    assert_eq!(compute_output_size(1440, 1080, Some((1920, 1080))), (1920, 1440));
}

#[test]
fn frames_grow_at_most_threefold() {
    assert_eq!(compute_output_size(320, 240, Some((3840, 2160))), (960, 720));
    assert_eq!(compute_output_size(1, 1, Some((3840, 2160))), (2, 2));
    assert_eq!(compute_output_size(3, 3, Some((3840, 2160))), (8, 8));
}

#[test]
fn frames_have_even_sides_of_at_least_two() {
    assert_eq!(compute_output_size(1921, 1081, Some((1921, 1081))), (1922, 1082));
    assert_eq!(compute_output_size(100, 100, Some((101, 101))), (102, 102));
    assert_eq!(compute_output_size(100, 100, Some((0, 0))), (2, 2));
    assert_eq!(compute_output_size(4000, 10, Some((1000, 1))), (1000, 2));
}

#[test]
fn frames_of_the_display_size_stay() {
    assert_eq!(compute_output_size(2560, 1440, Some((2560, 1440))), (2560, 1440));
    assert_eq!(compute_output_size(2, 16777214, Some((2, 16777214))), (2, 16777214));
}

#[test]
fn frames_that_go_into_the_display_fill_it() {
    assert_eq!(compute_output_size(1280, 720, Some((2560, 1440))), (2560, 1440));
    assert_eq!(compute_output_size(1281, 721, Some((3843, 2163))), (3842, 2162));
    assert_eq!(compute_output_size(1, 1, Some((1, 1))), (2, 2));
}

#[test]
fn frames_cover_displays_of_up_to_two_to_the_23() {
    let mut state = 37;
    for _ in 0..20000 {
        let target = (next(&mut state) % 0x80_0001, next(&mut state) % 0x80_0001);
        let src = (next(&mut state).max(1), next(&mut state).max(1));
        let out = compute_output_size(src.0, src.1, Some(target));
        let covered = |t: u32, s: u32| t as u64 <= 3 * s as u64 && (t % 2 == 0 || t as u64 != 3 * s as u64);
        if covered(target.0, src.0) && covered(target.1, src.1) {
            assert!(out.0 >= target.0 && out.1 >= target.1);
        }
    }
    for src in 1..200u32 {
        for target in 0..3 * src {
            let out = compute_output_size(src, src, Some((target, target)));
            assert!(out.0 >= target && out.0 <= (3 * src).max(2) && out.0 % 2 == 0);
        }
    }
}

#[test]
fn an_odd_threefold_display_is_missed_by_a_pixel() {
    assert_eq!(compute_output_size(1, 1, Some((3, 3))), (2, 2));
    assert_eq!(compute_output_size(101, 101, Some((303, 303))), (302, 302));
    assert_eq!(compute_output_size(101, 101, Some((302, 302))), (302, 302));
}

#[test]
fn a_huge_display_may_be_missed() {
    let out = compute_output_size(6481934, 6481934, Some((13361213, 13361213)));
    assert_eq!(out, hardware_output_size(6481934, 6481934, 13361213, 13361213));
    assert_eq!(out, (13361212, 13361212));
}

#[test]
fn a_huge_frame_may_exceed_its_threefold() {
    let out = compute_output_size(5592409, 5592409, Some((u32::MAX, u32::MAX)));
    assert_eq!(out, (16777228, 16777228));
}

#[test]
fn the_largest_frame_is_even() {
    assert_eq!(
        compute_output_size(u32::MAX, u32::MAX, Some((u32::MAX, u32::MAX))),
        (u32::MAX - 1, u32::MAX - 1)
    );
}

#[test]
fn output_sizes_agree_with_the_hardware() {
    let mut state = 7;
    for i in 0..20000 {
        let mask = [0xff, 0xfff, 0x1fff, 0x7fff, 0xff_ffff, u32::MAX][i % 6];
        let w = (next(&mut state) & mask).max(1);
        let h = (next(&mut state) & mask).max(1);
        let tw = next(&mut state) & mask;
        let th = next(&mut state) & mask;
        assert_eq!(
            compute_output_size(w, h, Some((tw, th))),
            hardware_output_size(w, h, tw, th),
            "{w}x{h} on {tw}x{th}"
        );
    }
}

#[test]
fn pictures_are_enlarged_inside_the_display() {
    let cap = Single::from_whole(4);
    assert_eq!(compute_upscaled_size((800, 600), (1920, 1080), cap), Some((1440, 1080)));
    assert_eq!(compute_upscaled_size((100, 100), (1920, 1080), cap), Some((400, 400)));
    assert_eq!(compute_upscaled_size((1000, 1), (2500, 900), cap), Some((2500, 3)));
}

#[test]
fn pictures_that_reach_the_display_stay() {
    let cap = Single::from_whole(4);
    assert_eq!(compute_upscaled_size((1920, 1080), (1920, 1080), cap), None);
    assert_eq!(compute_upscaled_size((1920, 10), (1920, 1080), cap), None);
    assert_eq!(compute_upscaled_size((4000, 10), (1920, 1080), cap), None);
    assert_eq!(compute_upscaled_size((0, 10), (1920, 1080), cap), None);
    assert_eq!(compute_upscaled_size((10, 0), (1920, 1080), cap), None);
}

#[test]
fn a_cap_below_one_makes_pictures_smaller() {
    let half = Single::from_bits(0.5f32.to_bits()).unwrap();
    assert_eq!(compute_upscaled_size((800, 600), (1920, 1080), half), Some((400, 300)));
    let nothing = Single::from_whole(0);
    assert_eq!(compute_upscaled_size((800, 600), (1920, 1080), nothing), Some((1, 1)));
}

#[test]
fn upscaled_sizes_agree_with_the_hardware() {
    let mut state = 11;
    for i in 0..20000 {
        let mask = [0xff, 0xfff, 0x1fff, 0x7fff, 0xff_ffff, u32::MAX][i % 6];
        let src = ((next(&mut state) & mask).max(1), (next(&mut state) & mask).max(1));
        let target = (next(&mut state) & mask, next(&mut state) & mask);
        let cap = (next(&mut state) % 4096) as f32 / 512.0;
        assert_eq!(
            compute_upscaled_size(src, target, Single::from_bits(cap.to_bits()).unwrap()),
            hardware_upscaled_size(src, target, cap),
            "{src:?} on {target:?} up to {cap}"
        );
    }
}

#[test]
fn a_huge_picture_may_overshoot_its_display() {
    let cap = Single::from_whole(4);
    let grown = compute_upscaled_size((6276674, 6276674), (8357283, 8357283), cap);
    assert_eq!(grown, Some((8357284, 8357284)));
}

#[test]
fn ratios_and_sides_agree_with_the_hardware() {
    let third = ratio_of_sides(1, 3);
    assert_eq!(third.to_bits(), (1.0f32 / 3.0).to_bits());
    assert_eq!(scale_side(3, third), 1);
    assert_eq!(scale_side(5, ratio_of_sides(1, 2)), 3);
    assert_eq!(scale_side(u32::MAX, ratio_of_sides(u32::MAX, 1)), u32::MAX);
}
