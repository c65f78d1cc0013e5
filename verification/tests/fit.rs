use wallpaper_poc::color::Srgb;
use wallpaper_poc::fit::{background_scale, camera_color, fit_scale, WindowSize};
use wallpaper_poc::media::{FitMode, MediaSlot, WallpaperFor};
use wallpaper_poc::single::Single;

fn value(v: f32) -> Single {
    Single::from_bits(v.to_bits()).unwrap()
}

fn fitted_slot(index: usize, fit_mode: FitMode, r: u8) -> MediaSlot<u32, (), ()> {
    MediaSlot {
        monitor_index: index,
        monitor_entity: 0,
        monitor_name: None,
        target_physical: (1, 1),
        media_path: None,
        fit_mode,
        dirty: false,
        video: None,
        handle: None,
        dims: None,
        background_color: Srgb { r, g: 0, b: 0 },
    }
}

fn window(tag: usize, width: f32, height: f32) -> WindowSize {
    WindowSize { tag: WallpaperFor(tag), width: value(width), height: value(height) }
}

fn factors(scale: Option<(Single, Single)>) -> Option<(f32, f32)> {
    scale.map(|(x, y)| (f32::from_bits(x.to_bits()), f32::from_bits(y.to_bits())))
}

fn scale(mode: FitMode, w: f32, h: f32, picture: (u32, u32)) -> (f32, f32) {
    factors(Some(fit_scale(mode, value(w), value(h), picture))).unwrap()
}

#[test]
fn covering_takes_the_larger_factor() {
    assert_eq!(scale(FitMode::Cover, 1920.0, 1080.0, (960, 1080)), (2.0, 2.0));
}

#[test]
fn containing_takes_the_smaller_factor() {
    assert_eq!(scale(FitMode::Contain, 1920.0, 1080.0, (960, 1080)), (1.0, 1.0));
}

#[test]
fn stretching_takes_both_factors() {
    assert_eq!(scale(FitMode::Stretch, 1920.0, 1080.0, (960, 1080)), (2.0, 1.0));
}

#[test]
fn factors_agree_with_the_hardware() {
    let mut state: u64 = 31;
    for _ in 0..20000 {
        state = state.wrapping_mul(6364136223846793005).wrapping_add(1442695040888963407);
        let w = ((state >> 40) as f32) / 97.0;
        let h = ((state >> 20) as u32 as f32) / 1024.0;
        let pw = ((state >> 33) as u32 % 9000) + 1;
        let ph = ((state >> 13) as u32 % 9000) + 1;
        let sx = w / pw as f32;
        let sy = h / ph as f32;
        assert_eq!(scale(FitMode::Cover, w, h, (pw, ph)), (sx.max(sy), sx.max(sy)));
        assert_eq!(scale(FitMode::Contain, w, h, (pw, ph)), (sx.min(sy), sx.min(sy)));
        assert_eq!(scale(FitMode::Stretch, w, h, (pw, ph)), (sx, sy));
    }
}

#[test]
fn a_covered_window_is_filled_and_a_containing_one_is_not_left() {
    for (w, h) in [(1920.0f32, 1080.0f32), (2560.0, 1600.0), (333.5, 77.25)] {
        for picture in [(3u32, 7u32), (1000, 999), (4096, 16)] {
            let cover = scale(FitMode::Cover, w, h, picture).0 as f64;
            let contain = scale(FitMode::Contain, w, h, picture).0 as f64;
            let slack = 1.0 + 1.0 / 16777216.0;
            assert!(cover * picture.0 as f64 * slack >= w as f64);
            assert!(cover * picture.1 as f64 * slack >= h as f64);
            assert!(contain * picture.0 as f64 <= w as f64 * slack);
            assert!(contain * picture.1 as f64 <= h as f64 * slack);
            assert!(contain <= cover);
        }
    }
}

#[test]
fn a_background_follows_its_window_and_slot() {
    let windows = vec![window(0, 100.0, 100.0), window(1, 200.0, 100.0)];
    let slots = vec![fitted_slot(0, FitMode::Cover, 1), fitted_slot(1, FitMode::Stretch, 2)];
    assert_eq!(
        factors(background_scale(&windows, &slots, WallpaperFor(0), Some((50, 100)))),
        Some((2.0, 2.0))
    );
    assert_eq!(
        factors(background_scale(&windows, &slots, WallpaperFor(1), Some((50, 100)))),
        Some((4.0, 1.0))
    );
}

#[test]
fn a_background_without_a_window_or_pixels_stays() {
    let windows = vec![window(0, 100.0, 100.0)];
    let slots = vec![fitted_slot(0, FitMode::Cover, 1)];
    assert!(background_scale(&windows, &slots, WallpaperFor(1), Some((50, 100))).is_none());
    assert!(background_scale(&windows, &slots, WallpaperFor(1), None).is_none());
    assert!(background_scale(&windows, &slots, WallpaperFor(0), Some((0, 100))).is_none());
    assert!(background_scale(&windows, &slots, WallpaperFor(0), Some((50, 0))).is_none());
}

#[test]
fn a_background_without_a_picture_is_not_scaled() {
    let windows = vec![window(0, 100.0, 100.0)];
    let slots = vec![fitted_slot(0, FitMode::Cover, 1)];
    assert_eq!(
        factors(background_scale(&windows, &slots, WallpaperFor(0), None)),
        Some((1.0, 1.0))
    );
}

#[test]
fn a_background_without_a_slot_is_contained() {
    let windows = vec![window(4, 100.0, 300.0)];
    let slots: Vec<MediaSlot<u32, (), ()>> = Vec::new();
    assert_eq!(
        factors(background_scale(&windows, &slots, WallpaperFor(4), Some((50, 100)))),
        Some((2.0, 2.0))
    );
}

#[test]
fn the_last_of_equal_tags_counts() {
    let windows = vec![window(0, 100.0, 100.0), window(0, 400.0, 400.0)];
    let slots = vec![fitted_slot(0, FitMode::Cover, 1), fitted_slot(0, FitMode::Contain, 2)];
    assert_eq!(
        factors(background_scale(&windows, &slots, WallpaperFor(0), Some((100, 200)))),
        Some((2.0, 2.0))
    );
    assert_eq!(camera_color(&slots, WallpaperFor(0)), Some(Srgb { r: 2, g: 0, b: 0 }));
}

#[test]
fn a_camera_clears_with_the_color_of_its_slot() {
    let slots = vec![fitted_slot(0, FitMode::Cover, 1), fitted_slot(1, FitMode::Contain, 2)];
    assert_eq!(camera_color(&slots, WallpaperFor(1)), Some(Srgb { r: 2, g: 0, b: 0 }));
    assert_eq!(camera_color(&slots, WallpaperFor(2)), None);
}
