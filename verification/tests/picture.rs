use image::{DynamicImage, GrayImage, Luma, Rgb, RgbImage, Rgba, RgbaImage};
use wallpaper_poc::color::Srgb;
use wallpaper_poc::picture::{
    prepare_picture, show_picture, size_of_picture, try_prepare_picture, upscale_to_fit, MAX_UPSCALE,
};
use wallpaper_poc::single::Single;

fn plain(width: u32, height: u32, pixel: [u8; 4]) -> DynamicImage {
    DynamicImage::ImageRgba8(RgbaImage::from_pixel(width, height, Rgba(pixel)))
}

fn cap() -> Single {
    Single::from_whole(MAX_UPSCALE)
}

#[test]
fn a_picture_tells_its_size() {
    assert_eq!(size_of_picture(&plain(31, 17, [0, 0, 0, 0])), (31, 17));
    assert_eq!(size_of_picture(&plain(0, 5, [0, 0, 0, 0])), (0, 5));
}

#[test]
fn a_small_picture_is_enlarged_to_the_display() {
    let big = upscale_to_fit(plain(80, 60, [1, 2, 3, 255]), 192, 108, cap());
    assert_eq!(size_of_picture(&big), (144, 108));
    let big = upscale_to_fit(plain(10, 30, [1, 2, 3, 255]), 1000, 90, cap());
    assert_eq!(size_of_picture(&big), (30, 90));
}

#[test]
fn a_tiny_picture_is_enlarged_fourfold() {
    let big = upscale_to_fit(plain(10, 7, [1, 2, 3, 255]), 1920, 1080, cap());
    assert_eq!(size_of_picture(&big), (40, 28));
}

#[test]
fn a_large_picture_is_left_alone() {
    let same = upscale_to_fit(plain(200, 50, [9, 8, 7, 6]), 192, 108, cap());
    assert_eq!(size_of_picture(&same), (200, 50));
    assert_eq!(same.to_rgba8().get_pixel(0, 0).0, [9, 8, 7, 6]);
    let empty = upscale_to_fit(plain(0, 50, [9, 8, 7, 6]), 192, 108, cap());
    assert_eq!(size_of_picture(&empty), (0, 50));
}

#[test]
fn an_enlarged_picture_fits_its_display() {
    for w in [1u32, 2, 3, 5, 7, 11, 23, 37, 60] {
        for h in [1u32, 2, 3, 5, 7, 11, 23, 37, 60] {
            let big = upscale_to_fit(plain(w, h, [50, 60, 70, 255]), 97, 61, cap());
            let (bw, bh) = size_of_picture(&big);
            assert!(bw <= 97 && bh <= 61, "{w}x{h} became {bw}x{bh}");
            assert!(bw >= w && bh >= h);
        }
    }
}

#[test]
fn a_picture_is_made_ready_with_its_color() {
    let ready = prepare_picture(plain(64, 64, [255, 0, 0, 255]), (64, 64));
    assert_eq!((ready.width, ready.height), (64, 64));
    assert_eq!(ready.original, (64, 64));
    assert_eq!(ready.rgba.len(), 64 * 64 * 4);
    assert_eq!(&ready.rgba[..4], &[255, 0, 0, 255]);
    assert_eq!(ready.background, Srgb { r: 31, g: 1, b: 1 });
}

#[test]
fn a_picture_without_opacity_becomes_opaque_bytes() {
    let rgb = DynamicImage::ImageRgb8(RgbImage::from_pixel(3, 2, Rgb([10, 20, 30])));
    let ready = prepare_picture(rgb, (3, 2));
    assert_eq!(ready.rgba, [10, 20, 30, 255].repeat(6));
    let gray = DynamicImage::ImageLuma8(GrayImage::from_pixel(2, 2, Luma([77])));
    let ready = prepare_picture(gray, (2, 2));
    assert_eq!(ready.rgba, [77, 77, 77, 255].repeat(4));
}

#[test]
fn an_enlarged_picture_is_made_ready() {
    let ready = prepare_picture(plain(16, 8, [0, 0, 255, 255]), (1920, 1080));
    assert_eq!((ready.width, ready.height), (64, 32));
    assert_eq!(ready.original, (16, 8));
    assert_eq!(ready.rgba.len(), 64 * 32 * 4);
    assert_eq!(ready.background, Srgb { r: 1, g: 1, b: 31 });
}

#[test]
fn rows_come_one_after_the_other() {
    let mut buffer = RgbaImage::new(2, 2);
    buffer.put_pixel(0, 0, Rgba([1, 0, 0, 255]));
    buffer.put_pixel(1, 0, Rgba([2, 0, 0, 255]));
    buffer.put_pixel(0, 1, Rgba([3, 0, 0, 255]));
    buffer.put_pixel(1, 1, Rgba([4, 0, 0, 255]));
    let ready = prepare_picture(DynamicImage::ImageRgba8(buffer), (1, 1));
    assert_eq!(ready.rgba, [1, 0, 0, 255, 2, 0, 0, 255, 3, 0, 0, 255, 4, 0, 0, 255]);
}

#[test]
fn what_memory_can_hold_is_made_ready() {
    let ready = try_prepare_picture(plain(4, 4, [0, 0, 0, 255]), (8, 8)).unwrap();
    assert_eq!((ready.width, ready.height), (8, 8));
    let ready = try_prepare_picture(plain(4, 4, [0, 0, 0, 255]), (u32::MAX, u32::MAX)).unwrap();
    assert_eq!((ready.width, ready.height), (16, 16));
    let ready = try_prepare_picture(plain(0, 4, [0, 0, 0, 255]), (8, 8)).unwrap();
    assert_eq!((ready.width, ready.height), (0, 4));
    assert_eq!(ready.background, Srgb::black());
}

#[test]
fn a_side_too_long_to_resample_is_refused() {
    let gray = |w: u32| DynamicImage::ImageLuma8(GrayImage::from_pixel(w, 1, Luma([9])));
    assert!(try_prepare_picture(gray(67_108_869), (200_000_000, 2)).is_none());
    assert!(try_prepare_picture(gray(0x100_0000), (0x400_0000, 4)).is_none());
    let same = try_prepare_picture(gray(0x100_0000), (1920, 1080)).unwrap();
    assert_eq!((same.width, same.height), (0x100_0000, 1));
    assert_eq!(same.rgba.len(), 0x400_0000);
}

#[test]
fn a_long_picture_never_shrinks() {
    let big = upscale_to_fit(plain(10000, 3, [1, 2, 3, 255]), 10001, 900, cap());
    let (w, h) = size_of_picture(&big);
    assert!((10000..=10001).contains(&w) && h == 3);
}

#[test]
fn an_enlarged_picture_keeps_its_colors() {
    let mut buffer = RgbaImage::from_pixel(16, 16, Rgba([255, 0, 0, 255]));
    for y in 0..16 {
        for x in 8..16 {
            buffer.put_pixel(x, y, Rgba([0, 0, 255, 255]));
        }
    }
    let ready = prepare_picture(DynamicImage::ImageRgba8(buffer), (64, 64));
    assert_eq!((ready.width, ready.height), (64, 64));
    let pixel = |x: usize, y: usize| &ready.rgba[(y * 64 + x) * 4..(y * 64 + x) * 4 + 4];
    for y in [0, 31, 63] {
        assert_eq!(pixel(8, y), &[255, 0, 0, 255]);
        assert_eq!(pixel(55, y), &[0, 0, 255, 255]);
    }
}

#[test]
fn a_picture_is_shown_as_it_is() {
    let shown = plain(3, 2, [10, 200, 30, 255]);
    let ready = show_picture(&shown, (1, 1));
    assert_eq!((ready.width, ready.height), (3, 2));
    assert_eq!(ready.original, (1, 1));
    assert_eq!(ready.rgba, [10, 200, 30, 255].repeat(6));
    assert_eq!(ready.background, Srgb { r: 1, g: 25, b: 3 });
}
