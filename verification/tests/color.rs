use wallpaper_poc::color::{bucket_color, count_buckets, dominant_color, fullest_bucket, Srgb};

fn filled(width: usize, height: usize, pixel: [u8; 4]) -> Vec<u8> {
    let mut rgba = Vec::new();
    for _ in 0..width * height {
        rgba.extend_from_slice(&pixel);
    }
    rgba
}

#[test]
fn a_plain_picture_decides_the_color() {
    let rgba = filled(8, 8, [255, 16, 0, 255]);
    assert_eq!(dominant_color(&rgba, 8, 8), Srgb { r: 31, g: 3, b: 1 });
}

#[test]
fn a_channel_is_the_middle_of_its_sixteenth() {
    for v in 0..=255u8 {
        let color = dominant_color(&[v, v, v, 255], 1, 1);
        let expected = ((v >> 4) as f32 + 0.5) / 16.0;
        assert_eq!(color.r as f32 / 32.0, expected);
        assert_eq!(color.g, color.r);
        assert_eq!(color.b, color.r);
    }
}

#[test]
fn pixels_that_are_half_transparent_do_not_count() {
    let rgba = filled(4, 4, [200, 200, 200, 128]);
    assert_eq!(dominant_color(&rgba, 4, 4), Srgb { r: 0, g: 0, b: 0 });
    let rgba = filled(4, 4, [200, 200, 200, 129]);
    assert_eq!(dominant_color(&rgba, 4, 4), Srgb { r: 25, g: 25, b: 25 });
}

#[test]
fn an_empty_picture_is_black() {
    assert_eq!(dominant_color(&[], 0, 0), Srgb::black());
    assert_eq!(dominant_color(&[], 100, 100), Srgb::black());
    assert_eq!(dominant_color(&[255, 255, 255], 1, 1), Srgb::black());
}

#[test]
fn the_most_frequent_color_wins() {
    let mut rgba = filled(4, 2, [0, 0, 255, 255]);
    rgba.extend_from_slice(&filled(4, 3, [0, 255, 0, 255]));
    assert_eq!(dominant_color(&rgba, 4, 5), Srgb { r: 1, g: 31, b: 1 });
}

#[test]
fn large_pictures_are_sampled() {
    let width = 256u32;
    let mut rgba = filled(256, 256, [255, 0, 0, 255]);
    for y in (0..256usize).step_by(4) {
        for x in (0..256usize).step_by(4) {
            let i = (y * 256 + x) * 4;
            rgba[i] = 0;
            rgba[i + 1] = 255;
        }
    }
    assert_eq!(dominant_color(&rgba, width, width), Srgb { r: 1, g: 31, b: 1 });
    let buckets = count_buckets(&rgba, width, width);
    assert_eq!(buckets.len(), 1);
    assert_eq!(buckets[&0x0f0], 64 * 64);
}

#[test]
fn a_short_buffer_is_read_as_far_as_it_goes() {
    let rgba = filled(4, 2, [255, 255, 255, 255]);
    let buckets = count_buckets(&rgba, 4, 100);
    assert_eq!(buckets.len(), 1);
    assert_eq!(buckets[&0xfff], 8);
}

#[test]
fn the_fullest_bucket_has_the_largest_count() {
    let mut buckets = std::collections::HashMap::new();
    assert_eq!(fullest_bucket(&buckets), None);
    buckets.insert(0x123, 4u32);
    buckets.insert(0x456, 9);
    buckets.insert(0x789, 2);
    assert_eq!(fullest_bucket(&buckets), Some(0x456));
    buckets.insert(0xabc, 9);
    let best = fullest_bucket(&buckets);
    assert!(best == Some(0x456) || best == Some(0xabc));
}

#[test]
fn a_bucket_stands_for_its_middle() {
    assert_eq!(bucket_color(0x3a7), Srgb { r: 7, g: 21, b: 15 });
    assert_eq!(bucket_color(0), Srgb { r: 1, g: 1, b: 1 });
}
