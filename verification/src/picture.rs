//! Still pictures: how a decoded one is enlarged and made ready to show.

use image::DynamicImage;
use vstd::prelude::*;

use crate::color::{dominant_color, is_dominant, Srgb};
use crate::single::{one, single_of, Single};
use crate::sizes::{
    compute_upscaled_size, in_proportion, is_value, law_large_size_stays, law_upscaled_size_fits,
    law_upscaled_size_grows, law_upscaled_size_is_below_cap, law_upscaled_size_meets_target,
    law_upscaled_size_with_any_cap, lemma_whole_exact, upscaled_size, whole_side,
};

verus! {

/// A decoded picture of the `image` crate, in any of its pixel formats.
#[verifier::external_type_specification]
#[verifier::external_body]
pub struct ExDynamicImage(image::DynamicImage);

/// The width of a picture, in pixels.
pub uninterp spec fn picture_width(picture: DynamicImage) -> u32;

/// The height of a picture, in pixels.
pub uninterp spec fn picture_height(picture: DynamicImage) -> u32;

/// The pixels of a picture, row by row, as four bytes each: red, green, blue and
/// opacity.
pub uninterp spec fn picture_rgba(picture: DynamicImage) -> Seq<u8>;

/// How many bytes a pixel of a picture takes in its own format.
pub uninterp spec fn picture_depth(picture: DynamicImage) -> u8;

/// The width and height of a picture.
pub open spec fn picture_size(picture: DynamicImage) -> (u32, u32) {
    (picture_width(picture), picture_height(picture))
}

/// The bytes of so many pixels, four to a pixel, can be held in memory.
pub open spec fn rgba_fits(width: u32, height: u32) -> bool {
    width as int * height as int * 4 <= isize::MAX
}

/// Both sides are below two to the power of 24, so that the place of each pixel can
/// be told in single precision.
pub open spec fn sides_tell_apart(size: (nat, nat)) -> bool {
    size.0 < 0x100_0000 && size.1 < 0x100_0000
}

/// A picture of size `src` and `depth` bytes to a pixel can be resampled to `size`. It
/// has that size already; or the places of its pixels can be told apart before and
/// after, and memory holds it twice: once its columns are resampled, at sixteen bytes
/// to a pixel, and once its rows are too, in its own format.
pub open spec fn resampling_fits(src: (u32, u32), depth: u8, size: (nat, nat)) -> bool {
    ||| src.0 == size.0 && src.1 == size.1
    ||| {
        &&& sides_tell_apart((src.0 as nat, src.1 as nat))
        &&& sides_tell_apart(size)
        &&& src.0 * size.1 * 16 <= isize::MAX
        &&& size.0 * size.1 * depth <= isize::MAX
    }
}

/// A picture that is to be enlarged can be resampled.
pub open spec fn enlarging_fits(picture: DynamicImage, target: (u32, u32), cap: nat) -> bool {
    upscaled_size(picture_size(picture), target, cap) matches Some(size) ==> resampling_fits(
        picture_size(picture),
        picture_depth(picture),
        size,
    )
}

/// A side is the natural number nearest to `n / d`, a tie going either way, but at
/// least one.
pub open spec fn nearest_side(side: u32, n: int, d: int) -> bool {
    &&& side >= 1
    &&& -d <= 2 * (side * d - n)
    &&& side == 1 || 2 * (side * d - n) <= d
}

/// `size` is the largest size of the shape of `from` that fits inside `bounds`: the
/// side that reaches its bound first is the bound, and the other one follows the
/// shape to the nearest pixel.
pub open spec fn fitted(from: (u32, u32), bounds: (u32, u32), size: (u32, u32)) -> bool {
    &&& 1 <= size.0 <= bounds.0
    &&& 1 <= size.1 <= bounds.1
    &&& bounds.0 * from.1 <= bounds.1 * from.0 ==> size.0 == bounds.0 && nearest_side(
        size.1,
        from.1 * bounds.0,
        from.0 as int,
    )
    &&& bounds.1 * from.0 <= bounds.0 * from.1 ==> size.1 == bounds.1 && nearest_side(
        size.0,
        from.0 * bounds.1,
        from.1 as int,
    )
}

/// `after` is `before`, resampled to the largest size inside `bounds`, and `before`
/// itself where that has the size of the bounds.
pub open spec fn resized(before: DynamicImage, after: DynamicImage, bounds: (u32, u32)) -> bool {
    &&& fitted(picture_size(before), bounds, picture_size(after))
    &&& picture_size(before) == bounds ==> after == before
}

/// Calls `DynamicImage::width`, which gives the width of the picture.
#[verifier::external_body]
fn width_of(picture: &DynamicImage) -> (r: u32)
    ensures
        r == picture_width(*picture),
{
    picture.width()
}

/// Calls `DynamicImage::height`, which gives the height of the picture.
#[verifier::external_body]
fn height_of(picture: &DynamicImage) -> (r: u32)
    ensures
        r == picture_height(*picture),
{
    picture.height()
}

/// Calls `DynamicImage::color`, and takes from the format how many bytes it has to a
/// pixel: from one for eight-bit greys to sixteen.
#[verifier::external_body]
fn depth_of(picture: &DynamicImage) -> (r: u8)
    ensures
        r == picture_depth(*picture),
        1 <= r <= 16,
{
    picture.color().bytes_per_pixel()
}

/// Calls `DynamicImage::resize` with its Lanczos filter: the picture keeps its
/// shape and takes the largest size inside the bounds, and where it has the size of
/// the bounds already the same picture comes back. Longer sides are left out: the
/// filter places pixels in single precision, and may find none to sample there.
/// What other pixels come out is not stated: the filter weighs them by a sine that
/// machines work out differently.
#[verifier::external_body]
fn resize(picture: &DynamicImage, width: u32, height: u32) -> (r: DynamicImage)
    requires
        picture_width(*picture) > 0,
        picture_height(*picture) > 0,
        width > 0,
        height > 0,
        resampling_fits(
            picture_size(*picture),
            picture_depth(*picture),
            (width as nat, height as nat),
        ),
    ensures
        resized(*picture, r, (width, height)),
{
    picture.resize(width, height, image::imageops::FilterType::Lanczos3)
}

/// `after` is what `DynamicImage::resize` may answer about `before` and a size.
pub closed spec fn resize_answer(
    before: DynamicImage,
    width: u32,
    height: u32,
    after: DynamicImage,
) -> bool {
    call_ensures(resize, (&before, width, height), after)
}

/// Calls `DynamicImage::to_rgba8` and takes its buffer: the pixels as four bytes
/// each, with at least as many as the picture has.
#[verifier::external_body]
fn rgba_of(picture: &DynamicImage) -> (r: Vec<u8>)
    requires
        rgba_fits(picture_width(*picture), picture_height(*picture)),
    ensures
        r@ == picture_rgba(*picture),
        r@.len() >= picture_width(*picture) as int * picture_height(*picture) as int * 4,
{
    picture.to_rgba8().into_raw()
}

/// The width and height of a picture.
pub fn size_of_picture(picture: &DynamicImage) -> (r: (u32, u32))
    ensures
        r == picture_size(*picture),
{
    (width_of(picture), height_of(picture))
}

/// `after` is what becomes of `before` on a display of `target` pixels: itself, or
/// the answer to enlarging it by a factor of at most `cap`.
pub open spec fn upscaled(
    before: DynamicImage,
    after: DynamicImage,
    target: (u32, u32),
    cap: nat,
) -> bool {
    match upscaled_size(picture_size(before), target, cap) {
        None => after == before,
        Some((w, h)) => {
            &&& resized(before, after, (w as u32, h as u32))
            &&& resize_answer(before, w as u32, h as u32, after)
        },
    }
}

/// Enlarges a picture that is smaller than the target in both directions, by a
/// factor of at most `max_upscale`.
pub fn upscale_to_fit(
    img: DynamicImage,
    target_w: u32,
    target_h: u32,
    max_upscale: Single,
) -> (r: DynamicImage)
    requires
        enlarging_fits(img, (target_w, target_h), max_upscale.units()),
    ensures
        upscaled(img, r, (target_w, target_h), max_upscale.units()),
{
    let src = size_of_picture(&img);
    match compute_upscaled_size(src, (target_w, target_h), max_upscale) {
        None => img,
        Some((w, h)) => resize(&img, w, h),
    }
}

/// A picture made ready to show.
pub struct Picture {
    pub width: u32,
    pub height: u32,
    pub rgba: Vec<u8>,
    pub background: Srgb,
    pub original: (u32, u32),
}

/// The factor by which pictures are enlarged at most.
pub const MAX_UPSCALE: u32 = 4;

/// `ready` shows `shown`, with its dominant colour behind it.
pub open spec fn shows(ready: Picture, shown: DynamicImage) -> bool {
    &&& (ready.width, ready.height) == picture_size(shown)
    &&& ready.rgba@ == picture_rgba(shown)
    &&& ready.rgba@.len() >= ready.width * ready.height * 4
    &&& is_dominant(ready.rgba@, ready.width, ready.height, ready.background)
}

/// `ready` is the picture `raw` as a display of `target` pixels shows it.
pub open spec fn prepared(raw: DynamicImage, target: (u32, u32), ready: Picture) -> bool {
    &&& ready.original == picture_size(raw)
    &&& exists|shown: DynamicImage| #[trigger]
        upscaled(raw, shown, target, single_of(MAX_UPSCALE as nat)) && shows(ready, shown)
}

/// A picture can be made ready: it can be resampled where it is to be enlarged, and
/// memory holds what is shown at four bytes to a pixel.
pub open spec fn preparing_fits(raw: DynamicImage, target: (u32, u32)) -> bool {
    let cap = single_of(MAX_UPSCALE as nat);
    &&& enlarging_fits(raw, target, cap)
    &&& match upscaled_size(picture_size(raw), target, cap) {
        None => rgba_fits(picture_width(raw), picture_height(raw)),
        Some((w, h)) => rgba_fits(w as u32, h as u32),
    }
}

/// Makes a picture ready that is shown at its own size from now on. `original` is the
/// size that it had at first.
pub fn show_picture(shown: &DynamicImage, original: (u32, u32)) -> (r: Picture)
    requires
        rgba_fits(picture_width(*shown), picture_height(*shown)),
    ensures
        shows(r, *shown),
        r.original == original,
{
    let rgba = rgba_of(shown);
    let (width, height) = size_of_picture(shown);
    let background = dominant_color(rgba.as_slice(), width, height);
    Picture { width, height, rgba, background, original }
}

/// Makes a picture ready for a display of `target` pixels.
pub fn prepare_picture(raw: DynamicImage, target: (u32, u32)) -> (r: Picture)
    requires
        preparing_fits(raw, target),
    ensures
        prepared(raw, target, r),
{
    let original = size_of_picture(&raw);
    let ghost before = raw;
    let shown = upscale_to_fit(raw, target.0, target.1, Single::from_whole(MAX_UPSCALE));
    proof {
        if let Some((w, h)) = upscaled_size(original, target, single_of(MAX_UPSCALE as nat)) {
            let (sw, sh) = picture_size(shown);
            assert(sw * sh * 4 <= w * h * 4) by (nonlinear_arith)
                requires
                    0 <= sw <= w,
                    0 <= sh <= h,
            ;
        }
    }
    let ready = show_picture(&shown, original);
    assert(upscaled(before, shown, target, single_of(MAX_UPSCALE as nat)));
    ready
}

/// Whether so many pixels can be held in memory, at some bytes to a pixel.
fn area_fits(width: u32, height: u32, bytes: u32) -> (r: bool)
    requires
        bytes <= 16,
    ensures
        r == (width * height * bytes <= isize::MAX),
{
    proof {
        assert(width * height <= 0xffff_ffff * 0xffff_ffff) by (nonlinear_arith)
            requires
                0 <= width <= 0xffff_ffff,
                0 <= height <= 0xffff_ffff,
        ;
        let area = width * height;
        assert(area * bytes <= 0xffff_ffff * 0xffff_ffff * 16) by (nonlinear_arith)
            requires
                0 <= area <= 0xffff_ffff * 0xffff_ffff,
                0 <= bytes <= 16,
        ;
    }
    width as u128 * height as u128 * bytes as u128 <= isize::MAX as u128
}

/// Makes a picture ready, unless it is too large for that.
pub fn try_prepare_picture(raw: DynamicImage, target: (u32, u32)) -> (r: Option<Picture>)
    ensures
        r is Some <==> preparing_fits(raw, target),
        r matches Some(ready) ==> prepared(raw, target, ready),
{
    let src = size_of_picture(&raw);
    let fits: bool = match compute_upscaled_size(src, target, Single::from_whole(MAX_UPSCALE)) {
        None => area_fits(src.0, src.1, 4),
        Some((w, h)) => {
            let depth: u8 = depth_of(&raw);
            let same: bool = w == src.0 && h == src.1;
            let short: bool = src.0 < 0x100_0000 && src.1 < 0x100_0000 && w < 0x100_0000 && h
                < 0x100_0000;
            area_fits(w, h, 4) && (same || short && area_fits(src.0, h, 16) && area_fits(
                w,
                h,
                depth as u32,
            ))
        },
    };
    if fits {
        Some(prepare_picture(raw, target))
    } else {
        None
    }
}

/// A picture that is enlarged still fits its display.
pub proof fn law_enlarged_picture_fits(
    before: DynamicImage,
    after: DynamicImage,
    target: (u32, u32),
    cap: nat,
)
    requires
        target.0 < 0x40_0000,
        target.1 < 0x40_0000,
        upscaled(before, after, target, cap),
        after != before,
    ensures
        picture_width(after) <= target.0,
        picture_height(after) <= target.1,
{
    law_upscaled_size_fits(picture_size(before), target, cap);
}

/// A picture that reaches its display on either side, or has no pixels, comes back
/// as it is.
pub proof fn law_large_picture_stays(
    before: DynamicImage,
    after: DynamicImage,
    target: (u32, u32),
    cap: nat,
)
    requires
        upscaled(before, after, target, cap),
        target.0 <= picture_width(before) || target.1 <= picture_height(before) || picture_width(
            before,
        ) == 0 || picture_height(before) == 0,
    ensures
        after == before,
{
    law_large_size_stays(picture_size(before), target, cap);
}

/// With a cap of at least one no picture comes out smaller than it was, and none
/// larger than the cap allows.
pub proof fn law_picture_grows_up_to_cap(
    before: DynamicImage,
    after: DynamicImage,
    target: (u32, u32),
    cap: nat,
)
    requires
        upscaled(before, after, target, cap),
        enlarging_fits(before, target, cap),
        cap >= one(),
    ensures
        picture_width(after) >= picture_width(before),
        picture_height(after) >= picture_height(before),
        after != before ==> picture_width(after) <= whole_side(picture_width(before), cap),
        after != before ==> picture_height(after) <= whole_side(picture_height(before), cap),
{
    let from = picture_size(before);
    let size = picture_size(after);
    if after != before {
        let (w, h) = upscaled_size(from, target, cap)->0;
        lemma_whole_exact(from.0 as nat);
        lemma_whole_exact(from.1 as nat);
        law_upscaled_size_grows(from, target, cap);
        law_upscaled_size_is_below_cap(from, target, cap);
        let (w, h) = (w as int, h as int);
        let (fw, fh) = (from.0 as int, from.1 as int);
        let (sw, sh) = (size.0 as int, size.1 as int);
        if w * fh <= h * fw {
            assert(sh >= fh) by (nonlinear_arith)
                requires
                    -fw <= 2 * (sh * fw - fh * w),
                    w >= fw,
                    fw > 0,
                    fh > 0,
            ;
        } else {
            assert(sw >= fw) by (nonlinear_arith)
                requires
                    -fh <= 2 * (sw * fh - fw * h),
                    h >= fh,
                    fw > 0,
                    fh > 0,
            ;
        }
    }
}

/// A picture of the shape of `src` by `src_other` takes a display's side of `bound`
/// pixels: the other side is proportional to it, to less than a pixel, this side is the
/// bound or follows the other to half a pixel, and where the proportion is a whole
/// number both are just that.
pub open spec fn takes_side(
    side: int,
    other: int,
    bound: int,
    src: int,
    src_other: int,
) -> bool {
    &&& other * src < bound * src_other + src
    &&& bound * src_other < other * src + src
    &&& side == bound || -src_other <= 2 * (side * src_other - other * src) <= src_other
    &&& forall|m: int| #[trigger] (m * src) == bound * src_other ==> side == bound && other == m
}

proof fn lemma_fitted_takes_side(
    side: int,
    other: int,
    bound: int,
    free: int,
    src: int,
    src_other: int,
)
    requires
        src > 0,
        src_other > 0,
        bound >= src,
        free >= src_other,
        in_proportion(bound, free, src, src_other),
        bound * src_other <= free * src ==> {
            &&& side == bound
            &&& -src <= 2 * (other * src - src_other * bound)
            &&& other == 1 || 2 * (other * src - src_other * bound) <= src
        },
        free * src <= bound * src_other ==> {
            &&& other == free
            &&& -src_other <= 2 * (side * src_other - src * free)
            &&& side == 1 || 2 * (side * src_other - src * free) <= src_other
        },
    ensures
        takes_side(side, other, bound, src, src_other),
{
    assert(src_other * bound == bound * src_other && src * free == free * src)
        by (nonlinear_arith);
    assert(bound * src_other >= src && free * src >= src_other) by (nonlinear_arith)
        requires
            bound >= src,
            free >= src_other,
            src > 0,
            src_other > 0,
    ;
    if bound * src_other <= free * src {
        if other == 1 {
            assert(other * src == src);
        }
        assert forall|m: int| #[trigger] (m * src) == bound * src_other implies side == bound
            && other == m by {
            assert(free == m);
            assert(free * src <= bound * src_other);
        }
    } else {
        if side == 1 {
            assert(side * src_other == src_other);
        }
        assert forall|m: int| #[trigger] (m * src) == bound * src_other implies side == bound
            && other == m by {
            assert(free == m);
        }
    }
}

/// A picture that is shorter than its display on both sides is always enlarged, and
/// the picture that comes out is an answer of `DynamicImage::resize` about it. With a
/// whole cap that keeps both sides inside the display each side is multiplied by it.
/// Else the picture takes the side of the display that it meets first.
pub proof fn law_enlarged_picture_meets_display(
    before: DynamicImage,
    after: DynamicImage,
    target: (u32, u32),
    k: nat,
)
    requires
        0 < picture_width(before) < target.0 < 0x40_0000,
        0 < picture_height(before) < target.1 < 0x40_0000,
        1 <= k < 0x100_0000,
        upscaled(before, after, target, k * one()),
    ensures
        ({
            let (sw, sh) = (picture_width(before) as int, picture_height(before) as int);
            let (tw, th) = (target.0 as int, target.1 as int);
            let (rw, rh) = (picture_width(after) as int, picture_height(after) as int);
            &&& k * sw <= tw && k * sh <= th ==> rw == k * sw && rh == k * sh
            &&& tw <= k * sw && tw * sh <= th * sw ==> takes_side(rw, rh, tw, sw, sh)
            &&& th <= k * sh && th * sw <= tw * sh ==> takes_side(rh, rw, th, sh, sw)
        }),
        exists|w: u32, h: u32| #[trigger] resize_answer(before, w, h, after),
{
    let from = picture_size(before);
    law_upscaled_size_meets_target(from, target, k);
    law_upscaled_size_fits(from, target, k * one());
    let (w, h) = upscaled_size(from, target, k * one())->0;
    lemma_whole_exact(from.0 as nat);
    lemma_whole_exact(from.1 as nat);
    assert(k * one() >= one()) by (nonlinear_arith)
        requires
            k >= 1,
    ;
    law_upscaled_size_grows(from, target, k * one());
    assert(resize_answer(before, w as u32, h as u32, after));
    let (sw, sh) = (from.0 as int, from.1 as int);
    let (tw, th) = (target.0 as int, target.1 as int);
    let (rw, rh) = (picture_width(after) as int, picture_height(after) as int);
    if k * sw <= tw && k * sh <= th {
        assert((k * sw) * sh == (k * sh) * sw) by (nonlinear_arith);
    }
    if tw <= k * sw && tw * sh <= th * sw {
        lemma_fitted_takes_side(rw, rh, tw, h as int, sw, sh);
    }
    if th <= k * sh && th * sw <= tw * sh {
        lemma_fitted_takes_side(rh, rw, th, w as int, sh, sw);
    }
}

/// A picture that reaches its display on either side, or has no pixels, is shown as it
/// is. A shorter one is shown at four times its size, or at the size at which it takes
/// a side of the display where that is less. Either way its own size is kept beside it.
pub proof fn law_prepared_picture_meets_display(
    raw: DynamicImage,
    target: (u32, u32),
    ready: Picture,
)
    requires
        prepared(raw, target, ready),
    ensures
        ready.original == picture_size(raw),
        ({
            let (sw, sh) = (picture_width(raw) as int, picture_height(raw) as int);
            let (tw, th) = (target.0 as int, target.1 as int);
            let (rw, rh) = (ready.width as int, ready.height as int);
            &&& tw <= sw || th <= sh || sw == 0 || sh == 0 ==> rw == sw && rh == sh
                && ready.rgba@ == picture_rgba(raw)
            &&& 0 < sw < tw < 0x40_0000 && 0 < sh < th < 0x40_0000 ==> {
                &&& 4 * sw <= tw && 4 * sh <= th ==> rw == 4 * sw && rh == 4 * sh
                &&& tw <= 4 * sw && tw * sh <= th * sw ==> takes_side(rw, rh, tw, sw, sh)
                &&& th <= 4 * sh && th * sw <= tw * sh ==> takes_side(rh, rw, th, sh, sw)
            }
        }),
{
    lemma_whole_exact(4);
    let shown = choose|shown: DynamicImage| #[trigger]
        upscaled(raw, shown, target, single_of(MAX_UPSCALE as nat)) && shows(ready, shown);
    let (sw, sh) = (picture_width(raw) as int, picture_height(raw) as int);
    let (tw, th) = (target.0 as int, target.1 as int);
    if tw <= sw || th <= sh || sw == 0 || sh == 0 {
        law_large_picture_stays(raw, shown, target, single_of(MAX_UPSCALE as nat));
    } else if tw < 0x40_0000 && th < 0x40_0000 {
        law_enlarged_picture_meets_display(raw, shown, target, 4);
    }
}

/// Pictures and displays of up to 8192 pixels a side are never too large.
pub proof fn law_common_pictures_can_be_prepared(raw: DynamicImage, target: (u32, u32))
    requires
        picture_width(raw) <= 8192,
        picture_height(raw) <= 8192,
        target.0 <= 8192,
        target.1 <= 8192,
        picture_depth(raw) <= 16,
    ensures
        preparing_fits(raw, target),
{
    let cap = single_of(MAX_UPSCALE as nat);
    let (sw, sh) = (picture_width(raw) as int, picture_height(raw) as int);
    lemma_area(sw, sh, 4);
    if upscaled_size(picture_size(raw), target, cap) is Some {
        let (w, h) = upscaled_size(picture_size(raw), target, cap)->0;
        law_upscaled_size_fits(picture_size(raw), target, cap);
        lemma_area(w as int, h as int, 4);
        lemma_area(sw, h as int, 16);
        lemma_area(w as int, h as int, picture_depth(raw) as int);
    }
}

proof fn lemma_area(width: int, height: int, bytes: int)
    requires
        0 <= width <= 8192,
        0 <= height <= 8192,
        0 <= bytes <= 16,
    ensures
        width * height * bytes <= 0x4000_0000,
{
    assert(0 <= width * height <= 8192 * 8192) by (nonlinear_arith)
        requires
            0 <= width <= 8192,
            0 <= height <= 8192,
    ;
    let area = width * height;
    assert(area * bytes <= 8192 * 8192 * 16) by (nonlinear_arith)
        requires
            0 <= area <= 8192 * 8192,
            0 <= bytes <= 16,
    ;
}

/// A length of so many pixels is a cap times a side, to less than a pixel.
pub open spec fn times_cap(px: int, cap: nat, side: int) -> bool {
    &&& px * one() < cap * side + one()
    &&& cap * side < px * one() + one()
}

/// Also with a cap that is not a whole number a picture shorter than its display on both
/// sides is enlarged. Where the cap keeps it inside the display one side is the cap
/// times its own, to less than a pixel, and the other one follows it to half a pixel.
/// Else it takes the side of the display that it meets first.
pub proof fn law_picture_enlarged_by_any_cap(
    before: DynamicImage,
    after: DynamicImage,
    target: (u32, u32),
    cap: nat,
)
    requires
        0 < picture_width(before) < target.0 < 0x40_0000,
        0 < picture_height(before) < target.1 < 0x40_0000,
        cap >= one(),
        is_value(cap),
        upscaled(before, after, target, cap),
    ensures
        ({
            let o = one() as int;
            let (sw, sh) = (picture_width(before) as int, picture_height(before) as int);
            let (tw, th) = (target.0 as int, target.1 as int);
            let (rw, rh) = (picture_width(after) as int, picture_height(after) as int);
            &&& cap * sw <= tw * o && cap * sh <= th * o ==> {
                ||| times_cap(rw, cap, sw) && -sw <= 2 * (rh * sw - sh * rw) && (rh == 1 || 2 * (rh
                    * sw - sh * rw) <= sw)
                ||| times_cap(rh, cap, sh) && -sh <= 2 * (rw * sh - sw * rh) && (rw == 1 || 2 * (rw
                    * sh - sw * rh) <= sh)
            }
            &&& tw * o <= cap * sw && tw * sh <= th * sw ==> takes_side(rw, rh, tw, sw, sh)
            &&& th * o <= cap * sh && th * sw <= tw * sh ==> takes_side(rh, rw, th, sh, sw)
        }),
{
    let from = picture_size(before);
    law_upscaled_size_with_any_cap(from, target, cap);
    law_upscaled_size_fits(from, target, cap);
    lemma_whole_exact(from.0 as nat);
    lemma_whole_exact(from.1 as nat);
    law_upscaled_size_grows(from, target, cap);
    let (w, h) = upscaled_size(from, target, cap)->0;
    let o = one() as int;
    let (sw, sh) = (from.0 as int, from.1 as int);
    let (tw, th) = (target.0 as int, target.1 as int);
    let (rw, rh) = (picture_width(after) as int, picture_height(after) as int);
    if tw * o <= cap * sw && tw * sh <= th * sw {
        lemma_fitted_takes_side(rw, rh, tw, h as int, sw, sh);
    }
    if th * o <= cap * sh && th * sw <= tw * sh {
        lemma_fitted_takes_side(rh, rw, th, w as int, sh, sw);
    }
}

/// What comes out of enlarging a picture shorter than its display on both sides has the
/// cap times its size where that stays inside the display, and else takes a side of the
/// display.
pub proof fn law_upscaling_meets_the_display(
    img: DynamicImage,
    target: (u32, u32),
    cap: Single,
    k: nat,
    r: DynamicImage,
)
    requires
        call_ensures(upscale_to_fit, (img, target.0, target.1, cap), r),
        0 < picture_width(img) < target.0 < 0x40_0000,
        0 < picture_height(img) < target.1 < 0x40_0000,
        1 <= k < 0x100_0000,
        cap.units() == k * one(),
    ensures
        ({
            let (sw, sh) = (picture_width(img) as int, picture_height(img) as int);
            let (tw, th) = (target.0 as int, target.1 as int);
            let (rw, rh) = (picture_width(r) as int, picture_height(r) as int);
            ||| rw == k * sw && rh == k * sh
            ||| takes_side(rw, rh, tw, sw, sh)
            ||| takes_side(rh, rw, th, sh, sw)
        }),
{
    law_enlarged_picture_meets_display(img, r, target, k);
    let (sw, sh) = (picture_width(img) as int, picture_height(img) as int);
    let (tw, th) = (target.0 as int, target.1 as int);
    if !(k * sw <= tw && k * sh <= th) {
        if tw * sh <= th * sw && tw > k * sw {
            assert(th >= k * sh) by (nonlinear_arith)
                requires
                    tw * sh <= th * sw,
                    tw > k * sw,
                    sw > 0,
                    sh > 0,
            ;
        }
        if th * sw <= tw * sh && th > k * sh {
            assert(tw >= k * sw) by (nonlinear_arith)
                requires
                    th * sw <= tw * sh,
                    th > k * sh,
                    sw > 0,
                    sh > 0,
            ;
        }
    }
}

/// A picture is made ready, and not refused, just as often as memory allows for it. What
/// is made ready keeps the size that the picture had, and shows it as it is where it
/// reaches its display.
pub proof fn law_picture_is_made_ready(
    raw: DynamicImage,
    target: (u32, u32),
    r: Option<Picture>,
)
    requires
        call_ensures(try_prepare_picture, (raw, target), r),
    ensures
        r is Some <==> preparing_fits(raw, target),
        r is Some ==> {
            &&& r->0.original == picture_size(raw)
            &&& target.0 <= picture_width(raw) || target.1 <= picture_height(raw) ==> {
                &&& (r->0.width, r->0.height) == picture_size(raw)
                &&& r->0.rgba@ == picture_rgba(raw)
            }
            &&& is_dominant(r->0.rgba@, r->0.width, r->0.height, r->0.background)
        },
{
    if r is Some {
        law_prepared_picture_meets_display(raw, target, r->0);
    }
}

/// A picture is made ready as soon as memory holds it four times a pixel, and the display
/// at sixteen bytes to a pixel, beside a strip of it as high as the display; its sides
/// are below two to the power of 24.
pub proof fn law_pictures_that_fit_are_prepared(raw: DynamicImage, target: (u32, u32))
    requires
        picture_width(raw) < 0x100_0000,
        picture_height(raw) < 0x100_0000,
        target.0 < 0x40_0000,
        target.1 < 0x40_0000,
        picture_depth(raw) <= 16,
        picture_width(raw) * picture_height(raw) * 4 <= isize::MAX,
        picture_width(raw) * target.1 * 16 <= isize::MAX,
        target.0 * target.1 * 16 <= isize::MAX,
    ensures
        preparing_fits(raw, target),
{
    let cap = single_of(MAX_UPSCALE as nat);
    let sw = picture_width(raw) as int;
    if upscaled_size(picture_size(raw), target, cap) is Some {
        let (w, h) = upscaled_size(picture_size(raw), target, cap)->0;
        let (w, h) = (w as int, h as int);
        let (tw, th) = (target.0 as int, target.1 as int);
        let depth = picture_depth(raw) as int;
        law_upscaled_size_fits(picture_size(raw), target, cap);
        assert(sw * h <= sw * th && w * h <= tw * th && 0 <= w * h) by (nonlinear_arith)
            requires
                0 <= w <= tw,
                0 <= h <= th,
                0 <= sw,
        ;
        let area = w * h;
        assert(area * depth <= area * 16) by (nonlinear_arith)
            requires
                0 <= depth <= 16,
                0 <= area,
        ;
    }
}

/// What is made ready shows the picture itself or an answer of `DynamicImage::resize`
/// about it: its size and its pixels.
pub proof fn law_prepared_picture_shows_the_raw_one(
    raw: DynamicImage,
    target: (u32, u32),
    ready: Picture,
)
    requires
        prepared(raw, target, ready),
    ensures
        exists|shown: DynamicImage|
            {
                &&& ready.rgba@ == #[trigger] picture_rgba(shown)
                &&& ready.width == picture_width(shown)
                &&& ready.height == picture_height(shown)
                &&& shown == raw || exists|w: u32, h: u32| #[trigger]
                    resize_answer(raw, w, h, shown)
            },
{
    let cap = single_of(MAX_UPSCALE as nat);
    let shown = choose|shown: DynamicImage| #[trigger]
        upscaled(raw, shown, target, cap) && shows(ready, shown);
    assert(ready.rgba@ == picture_rgba(shown));
    if upscaled_size(picture_size(raw), target, cap) is Some {
        let (w, h) = upscaled_size(picture_size(raw), target, cap)->0;
        assert(resize_answer(raw, w as u32, h as u32, shown));
    }
}

/// A picture is shown with its own size and pixels, on their dominant colour, beside the
/// size that it had at first.
pub proof fn law_picture_is_shown_as_it_is(
    shown: DynamicImage,
    original: (u32, u32),
    ready: Picture,
)
    requires
        call_ensures(show_picture, (&shown, original), ready),
    ensures
        ready.width == picture_width(shown),
        ready.height == picture_height(shown),
        ready.rgba@ == picture_rgba(shown),
        ready.original == original,
        is_dominant(
            picture_rgba(shown),
            picture_width(shown),
            picture_height(shown),
            ready.background,
        ),
{
}

} // verus!
