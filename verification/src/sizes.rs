//! Sizes of scaled pictures, worked out in single precision.

use vstd::arithmetic::power2::{
    lemma2_to64, lemma_pow2_adds, lemma_pow2_pos, lemma_pow2_strictly_increases, lemma_pow2_unfold,
    pow2,
};
use vstd::prelude::*;

use crate::rounding::{
    lemma_nearest_error, lemma_nearest_exact, lemma_nearest_monotone, lemma_nearest_scaled,
};
use crate::single::{one, single_div, single_mul, single_of, single_round, to_single, Single};

verus! {

/// The larger of two naturals.
pub open spec fn larger(a: nat, b: nat) -> nat {
    if a <= b {
        b
    } else {
        a
    }
}

/// The smaller of two naturals.
pub open spec fn smaller(a: nat, b: nat) -> nat {
    if a <= b {
        a
    } else {
        b
    }
}

/// The factor that takes a side of `src` pixels to `target` pixels, in units.
pub open spec fn side_ratio(target: u32, src: u32) -> nat {
    single_div(single_of(target as nat), single_of(src as nat))
}

/// A side of `src` pixels times a factor, to the nearest whole pixel.
pub open spec fn scaled_side(src: u32, scale: nat) -> nat {
    single_round(single_mul(single_of(src as nat), scale))
}

/// A whole number from one to the largest `u32` stays between one and two to
/// the power of 32.
pub proof fn lemma_whole_range(x: u32)
    ensures
        single_of(x as nat) <= pow2(181),
        x > 0 ==> single_of(x as nat) >= one(),
        x == 0 ==> single_of(x as nat) == 0,
{
    lemma2_to64();
    lemma_pow2_adds(32, 149);
    lemma_pow2_pos(149);
    lemma_nearest_exact(0x80_0000, 1, 181, 1);
    lemma_nearest_exact(0x80_0000, 1, 149, 1);
    lemma_nearest_exact(0x80_0000, 0, 149, 1);
    assert(x * pow2(149) <= pow2(32) * pow2(149)) by (nonlinear_arith)
        requires
            x <= pow2(32),
            pow2(149) > 0,
    ;
    lemma_nearest_monotone(0x80_0000, (x * pow2(149)) as nat, pow2(181), 1);
    if x > 0 {
        assert(1 * pow2(149) <= x * pow2(149)) by (nonlinear_arith)
            requires
                x >= 1,
        ;
        lemma_nearest_monotone(0x80_0000, pow2(149), (x * pow2(149)) as nat, 1);
    }
}

/// A whole number is a value as it stands, without rounding.
pub open spec fn is_exact(x: nat) -> bool {
    single_of(x) == x * one()
}

/// Whole numbers below two to the power of 24 need no rounding.
pub proof fn lemma_whole_exact(x: nat)
    requires
        x < 0x100_0000,
    ensures
        is_exact(x),
{
    lemma_nearest_exact(0x80_0000, x, 149, 1);
}

/// A ratio to a side of at least one pixel is at most the target side.
proof fn lemma_ratio_range(target: u32, src: u32)
    requires
        src > 0,
    ensures
        side_ratio(target, src) <= pow2(181),
{
    lemma_whole_range(target);
    lemma_whole_range(src);
    lemma_pow2_pos(149);
    let a = single_of(target as nat);
    let b = single_of(src as nat);
    assert(a * one() <= pow2(181) * b) by (nonlinear_arith)
        requires
            a <= pow2(181),
            one() <= b,
    ;
    lemma_nearest_exact(0x80_0000, 1, 181, b);
    lemma_nearest_monotone(0x80_0000, a * one(), pow2(181) * b, b);
}

/// The factor that takes a side of `src` pixels to `target` pixels.
pub fn ratio_of_sides(target: u32, src: u32) -> (r: Single)
    requires
        src > 0,
    ensures
        r.units() == side_ratio(target, src),
        r.units() <= pow2(181),
{
    proof {
        lemma_whole_range(src);
        lemma_ratio_range(target, src);
    }
    Single::from_whole(target).over(Single::from_whole(src))
}

/// A side times a factor, to the nearest pixel that a `u32` can count.
pub fn scale_side(src: u32, scale: Single) -> (r: u32)
    requires
        src > 0,
        scale.units() <= pow2(181),
    ensures
        r == smaller(scaled_side(src, scale.units()), u32::MAX as nat),
{
    proof {
        lemma_whole_range(src);
        lemma_pow2_strictly_increases(181, 190);
    }
    Single::from_whole(src).times(scale).to_whole()
}

/// An odd number of pixels can be raised by one: that is no more than three times
/// the side it comes from, and a `u32` can count it.
pub open spec fn can_raise(src: u32, px: nat) -> bool {
    px + 1 <= 3 * src && px + 1 <= u32::MAX
}

/// An even number of pixels, at least two, next to the scaled side: below it,
/// unless that would leave the target uncovered and the cap allows for one pixel
/// more.
pub open spec fn even_side(src: u32, scale: nat, target: u32) -> nat {
    let px = smaller(larger(scaled_side(src, scale), 2), u32::MAX as nat);
    if px % 2 == 0 {
        px
    } else if px - 1 < target && can_raise(src, px) {
        px + 1
    } else {
        (px - 1) as nat
    }
}

/// The factor by which a frame is scaled to cover `target`: no more than three.
pub open spec fn cover_scale(src_w: u32, src_h: u32, target: (u32, u32)) -> nat {
    smaller(larger(side_ratio(target.0, src_w), side_ratio(target.1, src_h)), single_of(3))
}

/// The size at which a frame is shown: the size that covers the target, in even
/// numbers of pixels, or its own size where there is no target or no pixel.
pub open spec fn output_size(src_w: u32, src_h: u32, target: Option<(u32, u32)>) -> (nat, nat) {
    match target {
        None => (src_w as nat, src_h as nat),
        Some(t) => if src_w == 0 || src_h == 0 {
            (src_w as nat, src_h as nat)
        } else {
            let scale = cover_scale(src_w, src_h, t);
            (even_side(src_w, scale, t.0), even_side(src_h, scale, t.1))
        },
    }
}

/// The size to which frames are scaled before they are shown.
pub fn compute_output_size(src_w: u32, src_h: u32, target: Option<(u32, u32)>) -> (r: (u32, u32))
    ensures
        (r.0 as nat, r.1 as nat) == output_size(src_w, src_h, target),
{
    let (tw, th): (u32, u32) = match target {
        Some(t) => t,
        None => return (src_w, src_h),
    };
    if src_w == 0 || src_h == 0 {
        return (src_w, src_h);
    }
    let scale = ratio_of_sides(tw, src_w).max(ratio_of_sides(th, src_h));
    let effective = scale.min(Single::from_whole(3));
    (even_pixels(src_w, effective, tw), even_pixels(src_h, effective, th))
}

fn even_pixels(src: u32, scale: Single, target: u32) -> (r: u32)
    requires
        src > 0,
        scale.units() <= pow2(181),
    ensures
        r == even_side(src, scale.units(), target),
{
    let side: u32 = scale_side(src, scale);
    let px: u32 = if side < 2 {
        2
    } else {
        side
    };
    if px % 2 == 0 {
        px
    } else if px - 1 < target && px < u32::MAX && px as u64 + 1 <= 3 * src as u64 {
        px + 1
    } else {
        px - 1
    }
}

/// A frame that is scaled has even sides of at least two pixels.
pub proof fn law_output_size_is_even(src_w: u32, src_h: u32, target: (u32, u32))
    requires
        src_w > 0,
        src_h > 0,
    ensures
        output_size(src_w, src_h, Some(target)).0 % 2 == 0,
        output_size(src_w, src_h, Some(target)).1 % 2 == 0,
        output_size(src_w, src_h, Some(target)).0 >= 2,
        output_size(src_w, src_h, Some(target)).1 >= 2,
{
}

/// A factor of at least `t / s` takes `s` pixels to at least `t` of them.
proof fn lemma_scaled_reaches(s: u32, t: u32, scale: nat)
    requires
        s > 0,
        t <= 0x80_0000,
        side_ratio(t, s) <= scale,
    ensures
        t <= scaled_side(s, scale),
{
    if t > 0 {
        let o = one();
        let b = single_of(s as nat);
        let q = side_ratio(t, s);
        let goal = (t * o) as nat;
        lemma2_to64();
        lemma_pow2_pos(149);
        lemma_whole_range(s);
        lemma_whole_exact(t as nat);
        // The ratio is of full precision.
        lemma_pow2_adds(23, 181);
        lemma_pow2_adds(149, 149);
        lemma_pow2_strictly_increases(204, 298);
        assert(goal * o >= b * 0x80_0000) by (nonlinear_arith)
            requires
                goal == t * o,
                t >= 1,
                b <= pow2(181),
                o * o >= pow2(181) * 0x80_0000,
                o > 0,
        ;
        lemma_nearest_error(0x80_0000, goal * o, b);
        let half = pow2(148);
        lemma_pow2_unfold(149);
        let n = b * scale;
        assert(q * b <= n) by (nonlinear_arith)
            requires
                q <= scale,
                n == b * scale,
        ;
        assert((2 * t - 1) * half * o <= n) by (nonlinear_arith)
            requires
                0xff_ffff * (goal * o) <= 0x100_0000 * (q * b),
                goal == t * o,
                q * b <= n,
                o == 2 * half,
                0 < t <= 0x80_0000,
        ;
        lemma_nearest_exact(0x80_0000, (2 * t - 1) as nat, 148, o);
        lemma_nearest_monotone(0x80_0000, ((2 * t - 1) * half * o) as nat, n, o);
        let v = single_mul(b, scale);
        assert((2 * v + o) / (2 * o) >= t) by (nonlinear_arith)
            requires
                v >= (2 * t - 1) * half,
                o == 2 * half,
                half > 0,
        ;
    }
}

/// A ratio of whole numbers that need no rounding is their quotient, rounded.
proof fn lemma_ratio_quotient(t: u32, s: u32)
    requires
        0 < s < 0x100_0000,
        t < 0x100_0000,
    ensures
        side_ratio(t, s) == to_single((t * one()) as nat, s as nat),
{
    let o = one();
    lemma_pow2_pos(149);
    lemma_whole_exact(s as nat);
    lemma_whole_exact(t as nat);
    assert(single_of(t as nat) * o == o * (t * o)) by (nonlinear_arith)
        requires
            single_of(t as nat) == t * o,
    ;
    assert(single_of(s as nat) == o * s) by (nonlinear_arith)
        requires
            single_of(s as nat) == s * o,
    ;
    lemma_nearest_scaled(0x80_0000, (t * o) as nat, s as nat, o);
}

/// A ratio of small whole numbers is within one part in two to the power of 24.
proof fn lemma_ratio_bounds(t: u32, s: u32)
    requires
        0 < s < 0x100_0000,
        0 < t < 0x100_0000,
    ensures
        0x100_0000 * (side_ratio(t, s) * s) <= 0x100_0001 * (t * one()),
        0xff_ffff * (t * one()) <= 0x100_0000 * (side_ratio(t, s) * s),
{
    let o = one();
    lemma_ratio_quotient(t, s);
    lemma2_to64();
    lemma_pow2_strictly_increases(64, 149);
    assert(t * o >= s * 0x80_0000) by (nonlinear_arith)
        requires
            t >= 1,
            s < 0x100_0000,
            o >= 0x100_0000 * 0x80_0000,
    ;
    lemma_nearest_error(0x80_0000, (t * o) as nat, s as nat);
}

/// A product with a whole number that needs no rounding is rounded once.
proof fn lemma_product_of_whole(s: u32, scale: nat)
    requires
        is_exact(s as nat),
    ensures
        single_mul(single_of(s as nat), scale) == to_single((s * scale) as nat, 1),
{
    let o = one();
    lemma_pow2_pos(149);
    assert(single_of(s as nat) * scale == o * (s * scale)) by (nonlinear_arith)
        requires
            single_of(s as nat) == s * o,
    ;
    assert(o * 1 == o);
    lemma_nearest_scaled(0x80_0000, (s * scale) as nat, 1, o);
}

/// A target of up to three times a side has a ratio of at most three to it.
proof fn lemma_ratio_at_most_three(t: u32, s: u32)
    requires
        s > 0,
        t <= 0x80_0000,
        t <= 3 * s,
    ensures
        side_ratio(t, s) <= single_of(3),
{
    let o = one();
    let b = single_of(s as nat);
    lemma_pow2_pos(149);
    lemma_whole_exact(3);
    lemma_whole_exact(t as nat);
    lemma_whole_range(s);
    if s < 0x80_0000 {
        lemma_whole_exact(s as nat);
    } else {
        // The side, rounded, is no shorter than the target.
        lemma_nearest_exact(0x80_0000, 0x80_0000, 149, 1);
        assert(0x80_0000 * o <= s * o) by (nonlinear_arith)
            requires
                s >= 0x80_0000,
        ;
        lemma_nearest_monotone(0x80_0000, (0x80_0000 * o) as nat, (s * o) as nat, 1);
    }
    assert(t * o <= 3 * b) by (nonlinear_arith)
        requires
            b == s * o && t <= 3 * s || b >= 0x80_0000 * o && t <= 0x80_0000,
    ;
    let a = (t * o) as nat;
    assert(a * o <= (3 * o) * b) by (nonlinear_arith)
        requires
            a <= 3 * b,
    ;
    lemma_nearest_exact(0x80_0000, 3, 149, b);
    lemma_nearest_monotone(0x80_0000, a * o, (3 * o) * b, b);
}

/// A scaled frame covers a target of up to three times its size. The one target
/// left out is an odd one of just three times a side: there is no even number that
/// covers it and is no more than three times the side.
pub proof fn law_output_size_covers(src_w: u32, src_h: u32, target: (u32, u32))
    requires
        src_w > 0,
        src_h > 0,
        target.0 <= 0x80_0000,
        target.1 <= 0x80_0000,
        target.0 <= 3 * src_w,
        target.1 <= 3 * src_h,
        target.0 % 2 == 0 || target.0 != 3 * src_w,
        target.1 % 2 == 0 || target.1 != 3 * src_h,
    ensures
        output_size(src_w, src_h, Some(target)).0 >= target.0,
        output_size(src_w, src_h, Some(target)).1 >= target.1,
{
    let scale = cover_scale(src_w, src_h, target);
    lemma_ratio_at_most_three(target.0, src_w);
    lemma_ratio_at_most_three(target.1, src_h);
    lemma_scaled_reaches(src_w, target.0, scale);
    lemma_scaled_reaches(src_h, target.1, scale);
}

/// A factor of at most `c` takes `s` pixels to at most `s * c` of them.
proof fn lemma_scaled_capped(s: u32, c: nat, scale: nat)
    requires
        is_exact(s as nat),
        is_exact((s * c) as nat),
        scale <= c * one(),
    ensures
        scaled_side(s, scale) <= s * c,
{
    let o = one();
    let top = (s * c) as nat;
    lemma_pow2_pos(149);
    lemma_product_of_whole(s, scale);
    assert(s * scale <= top * o) by (nonlinear_arith)
        requires
            scale <= c * o,
            top == s * c,
    ;
    lemma_nearest_monotone(0x80_0000, (s * scale) as nat, top * o, 1);
    lemma_round_whole_bound(single_mul(single_of(s as nat), scale), top);
}

proof fn lemma_round_whole_bound(v: nat, top: nat)
    requires
        v <= top * one(),
    ensures
        single_round(v) <= top,
{
    let o = one();
    lemma_pow2_pos(149);
    assert((2 * v + o) / (2 * o) <= top) by (nonlinear_arith)
        requires
            v <= top * o,
            o > 0,
    ;
}

/// A frame is scaled up to at most three times its size, where neither needs
/// rounding.
pub proof fn law_output_size_is_capped(src_w: u32, src_h: u32, target: (u32, u32))
    requires
        src_w > 0,
        src_h > 0,
        is_exact(src_w as nat),
        is_exact(src_h as nat),
        is_exact((src_w * 3) as nat),
        is_exact((src_h * 3) as nat),
    ensures
        output_size(src_w, src_h, Some(target)).0 <= larger((src_w * 3) as nat, 2),
        output_size(src_w, src_h, Some(target)).1 <= larger((src_h * 3) as nat, 2),
{
    let scale = cover_scale(src_w, src_h, target);
    lemma_whole_exact(3);
    lemma_scaled_capped(src_w, 3, scale);
    lemma_scaled_capped(src_h, 3, scale);
}

/// The ratio of a multiple of a side to the side is the multiplier.
proof fn lemma_ratio_of_multiple(s: u32, k: nat, t: u32)
    requires
        s > 0,
        t == s * k,
        k < 0x100_0000,
        is_exact(s as nat),
        is_exact(t as nat),
    ensures
        side_ratio(t, s) == k * one(),
{
    let o = one();
    lemma_pow2_pos(149);
    assert(single_of(t as nat) * o == (k * o) * single_of(s as nat)) by (nonlinear_arith)
        requires
            single_of(t as nat) == t * o,
            single_of(s as nat) == s * o,
            t == s * k,
    ;
    lemma_whole_range(s);
    lemma_nearest_exact(0x80_0000, k, 149, single_of(s as nat));
}

/// A whole factor multiplies a side.
proof fn lemma_scaled_by_whole(s: u32, k: nat)
    requires
        is_exact(s as nat),
        is_exact((s * k) as nat),
    ensures
        scaled_side(s, k * one()) == s * k,
{
    let o = one();
    let t = (s * k) as nat;
    lemma_pow2_pos(149);
    lemma_product_of_whole(s, k * o);
    assert(s * (k * o) == t * o) by (nonlinear_arith)
        requires
            t == s * k,
    ;
    let v = t * o;
    assert((2 * v + o) / (2 * o) == t) by (nonlinear_arith)
        requires
            v == t * o,
            o > 0,
    ;
}

/// The side at which a frame is shown that goes `k` times into a target side.
pub open spec fn multiple_side(target: u32, k: nat) -> int {
    if target % 2 == 0 {
        target as int
    } else if k < 3 {
        target + 1
    } else {
        target - 1
    }
}

/// A frame that goes into its target once, twice or three times, where nothing
/// needs rounding, is shown at the size of the target. An odd side of it is one
/// pixel longer, or one pixel shorter at three times.
pub proof fn law_output_size_of_multiple(src_w: u32, src_h: u32, k: nat, target: (u32, u32))
    requires
        src_w > 0,
        src_h > 0,
        1 <= k <= 3,
        target.0 == src_w * k,
        target.1 == src_h * k,
        target.0 < u32::MAX,
        target.1 < u32::MAX,
        is_exact(src_w as nat),
        is_exact(src_h as nat),
        is_exact(target.0 as nat),
        is_exact(target.1 as nat),
    ensures
        ({
            let (w, h) = output_size(src_w, src_h, Some(target));
            &&& w == multiple_side(target.0, k)
            &&& h == multiple_side(target.1, k)
        }),
{
    let o = one();
    lemma_ratio_of_multiple(src_w, k, target.0);
    lemma_ratio_of_multiple(src_h, k, target.1);
    lemma_whole_exact(3);
    assert(k * o <= 3 * o) by (nonlinear_arith)
        requires
            k <= 3,
    ;
    lemma_scaled_by_whole(src_w, k);
    lemma_scaled_by_whole(src_h, k);
}

/// At least one pixel of a scaled side.
pub open spec fn whole_side(src: u32, scale: nat) -> nat {
    smaller(larger(scaled_side(src, scale), 1), u32::MAX as nat)
}

/// The factor that takes a picture to the largest size inside `target`.
pub open spec fn contain_scale(src: (u32, u32), target: (u32, u32)) -> nat {
    smaller(side_ratio(target.0, src.0), side_ratio(target.1, src.1))
}

/// The size to which a picture smaller than the target is enlarged, by a factor
/// of at most `cap`, and `None` for a picture that stays as it is.
pub open spec fn upscaled_size(src: (u32, u32), target: (u32, u32), cap: nat) -> Option<
    (nat, nat),
> {
    if src.0 == 0 || src.1 == 0 || contain_scale(src, target) <= one() {
        None
    } else {
        let scale = smaller(contain_scale(src, target), cap);
        Some((whole_side(src.0, scale), whole_side(src.1, scale)))
    }
}

/// The size to which a picture is enlarged, if it is.
pub fn compute_upscaled_size(src: (u32, u32), target: (u32, u32), cap: Single) -> (r: Option<
    (u32, u32),
>)
    ensures
        r is Some <==> upscaled_size(src, target, cap.units()) is Some,
        r matches Some(size) ==> upscaled_size(src, target, cap.units()) == Some(
            (size.0 as nat, size.1 as nat),
        ),
{
    if src.0 == 0 || src.1 == 0 {
        return None;
    }
    let scale = ratio_of_sides(target.0, src.0).min(ratio_of_sides(target.1, src.1));
    proof {
        lemma_whole_exact(1);
    }
    if scale.at_most(Single::from_whole(1)) {
        return None;
    }
    let effective = scale.min(cap);
    Some((at_least_one_pixel(src.0, effective), at_least_one_pixel(src.1, effective)))
}

fn at_least_one_pixel(src: u32, scale: Single) -> (r: u32)
    requires
        src > 0,
        scale.units() <= pow2(181),
    ensures
        r == whole_side(src, scale.units()),
{
    let side: u32 = scale_side(src, scale);
    if side < 1 {
        1
    } else {
        side
    }
}

/// Only a side shorter than the target's has a ratio above one.
proof fn lemma_ratio_above_one(t: u32, s: u32)
    requires
        s > 0,
        side_ratio(t, s) > one(),
    ensures
        s < t,
{
    if t <= s {
        let a = single_of(t as nat);
        let b = single_of(s as nat);
        lemma_whole_range(s);
        lemma_pow2_pos(149);
        assert(t * one() <= s * one()) by (nonlinear_arith)
            requires
                t <= s,
        ;
        lemma_nearest_monotone(0x80_0000, (t * one()) as nat, (s * one()) as nat, 1);
        assert(a * one() <= one() * b) by (nonlinear_arith)
            requires
                a <= b,
        ;
        lemma_nearest_exact(0x80_0000, 1, 149, b);
        lemma_nearest_monotone(0x80_0000, a * one(), one() * b, b);
    }
}

/// A factor of at most `t / s` takes `s` pixels to at most `t` of them.
proof fn lemma_scaled_stays_inside(s: u32, t: u32, scale: nat)
    requires
        0 < s < 0x100_0000,
        0 < t < 0x40_0000,
        scale <= side_ratio(t, s),
    ensures
        scaled_side(s, scale) <= t,
{
    let o = one();
    let q = side_ratio(t, s);
    let quarter = pow2(147);
    lemma_pow2_pos(147);
    lemma_pow2_unfold(148);
    lemma_pow2_unfold(149);
    lemma_ratio_bounds(t, s);
    lemma_whole_exact(s as nat);
    lemma_product_of_whole(s, scale);
    let n = (s * scale) as nat;
    assert(n <= (4 * t + 1) * quarter) by (nonlinear_arith)
        requires
            0x100_0000 * (q * s) <= 0x100_0001 * (t * o),
            scale <= q,
            n == s * scale,
            o == 4 * quarter,
            0 < t < 0x40_0000,
    ;
    lemma_nearest_exact(0x80_0000, (4 * t + 1) as nat, 147, 1);
    lemma_nearest_monotone(0x80_0000, n, ((4 * t + 1) * quarter) as nat, 1);
    let v = single_mul(single_of(s as nat), scale);
    assert((2 * v + o) / (2 * o) <= t) by (nonlinear_arith)
        requires
            v <= (4 * t + 1) * quarter,
            o == 4 * quarter,
            quarter > 0,
    ;
}

/// An enlarged picture still fits inside the target.
pub proof fn law_upscaled_size_fits(src: (u32, u32), target: (u32, u32), cap: nat)
    requires
        target.0 < 0x40_0000,
        target.1 < 0x40_0000,
    ensures
        upscaled_size(src, target, cap) matches Some(size) ==> size.0 <= target.0 && size.1
            <= target.1,
{
    if upscaled_size(src, target, cap) is Some {
        let scale = smaller(contain_scale(src, target), cap);
        lemma_ratio_above_one(target.0, src.0);
        lemma_ratio_above_one(target.1, src.1);
        lemma_scaled_stays_inside(src.0, target.0, scale);
        lemma_scaled_stays_inside(src.1, target.1, scale);
    }
}

/// A picture that reaches the target on either side, or has no pixels, is left
/// alone.
pub proof fn law_large_size_stays(src: (u32, u32), target: (u32, u32), cap: nat)
    requires
        target.0 <= src.0 || target.1 <= src.1 || src.0 == 0 || src.1 == 0,
    ensures
        upscaled_size(src, target, cap) is None,
{
    if upscaled_size(src, target, cap) is Some {
        lemma_ratio_above_one(target.0, src.0);
        lemma_ratio_above_one(target.1, src.1);
    }
}

/// A picture is enlarged by no more than the cap, whatever the cap is.
pub proof fn law_upscaled_size_is_below_cap(src: (u32, u32), target: (u32, u32), cap: nat)
    ensures
        upscaled_size(src, target, cap) matches Some(size) ==> size.0 <= whole_side(src.0, cap)
            && size.1 <= whole_side(src.1, cap),
{
    let scale = smaller(contain_scale(src, target), cap);
    lemma_scaled_monotone(src.0, scale, cap);
    lemma_scaled_monotone(src.1, scale, cap);
}

proof fn lemma_scaled_monotone(s: u32, low: nat, high: nat)
    requires
        low <= high,
    ensures
        scaled_side(s, low) <= scaled_side(s, high),
{
    let o = one();
    let b = single_of(s as nat);
    lemma_pow2_pos(149);
    assert(b * low <= b * high) by (nonlinear_arith)
        requires
            low <= high,
    ;
    lemma_nearest_monotone(0x80_0000, b * low, b * high, o);
    let v = single_mul(b, low);
    let w = single_mul(b, high);
    assert((2 * v + o) / (2 * o) <= (2 * w + o) / (2 * o)) by (nonlinear_arith)
        requires
            v <= w,
            o > 0,
    ;
}

/// A picture whose sides need no rounding is enlarged or left alone: with a cap of
/// at least one it is never made smaller.
pub proof fn law_upscaled_size_grows(src: (u32, u32), target: (u32, u32), cap: nat)
    requires
        is_exact(src.0 as nat),
        is_exact(src.1 as nat),
        cap >= one(),
    ensures
        upscaled_size(src, target, cap) matches Some(size) ==> size.0 >= src.0 && size.1 >= src.1,
{
    if upscaled_size(src, target, cap) is Some {
        let scale = smaller(contain_scale(src, target), cap);
        lemma_scaled_grows(src.0, scale);
        lemma_scaled_grows(src.1, scale);
    }
}

proof fn lemma_scaled_grows(s: u32, scale: nat)
    requires
        is_exact(s as nat),
        scale >= one(),
    ensures
        scaled_side(s, scale) >= s,
{
    let o = one();
    lemma_pow2_pos(149);
    lemma_product_of_whole(s, scale);
    assert(s * o <= s * scale) by (nonlinear_arith)
        requires
            o <= scale,
    ;
    lemma_nearest_monotone(0x80_0000, (s * o) as nat, (s * scale) as nat, 1);
    let v = single_mul(single_of(s as nat), scale);
    assert((2 * v + o) / (2 * o) >= s) by (nonlinear_arith)
        requires
            v >= s * o,
            o > 0,
    ;
}

/// A picture is enlarged by no more than a whole cap, where neither its sides nor
/// their multiples need rounding.
pub proof fn law_upscaled_size_is_capped(src: (u32, u32), target: (u32, u32), cap: nat)
    requires
        is_exact(src.0 as nat),
        is_exact(src.1 as nat),
        is_exact((src.0 * cap) as nat),
        is_exact((src.1 * cap) as nat),
        cap >= 1,
    ensures
        upscaled_size(src, target, cap * one()) matches Some(size) ==> size.0 <= src.0 * cap
            && size.1 <= src.1 * cap,
{
    if upscaled_size(src, target, cap * one()) is Some {
        let scale = smaller(contain_scale(src, target), cap * one());
        assert(src.0 <= src.0 * cap && src.1 <= src.1 * cap) by (nonlinear_arith)
            requires
                cap >= 1,
        ;
        lemma_scaled_capped(src.0, cap, scale);
        lemma_scaled_capped(src.1, cap, scale);
    }
}

/// Of two ratios the one of the larger quotient is no smaller.
proof fn lemma_ratio_order(t1: u32, s1: u32, t2: u32, s2: u32)
    requires
        0 < s1 < 0x100_0000,
        0 < s2 < 0x100_0000,
        t1 < 0x100_0000,
        t2 < 0x100_0000,
        t1 * s2 <= t2 * s1,
    ensures
        side_ratio(t1, s1) <= side_ratio(t2, s2),
{
    let o = one();
    let n1 = (t1 * o) as nat;
    let n2 = (t2 * o) as nat;
    lemma_ratio_quotient(t1, s1);
    lemma_ratio_quotient(t2, s2);
    lemma_nearest_scaled(0x80_0000, n1, s1 as nat, s2 as nat);
    lemma_nearest_scaled(0x80_0000, n2, s2 as nat, s1 as nat);
    let d = (s1 * s2) as nat;
    assert(s2 * s1 == d && d > 0 && s2 * n1 <= s1 * n2) by (nonlinear_arith)
        requires
            d == s1 * s2,
            s1 > 0,
            s2 > 0,
            t1 * s2 <= t2 * s1,
            n1 == t1 * o,
            n2 == t2 * o,
    ;
    lemma_nearest_monotone(0x80_0000, s2 as nat * n1, s1 as nat * n2, d);
}

/// A side shorter than the target's has a ratio above one.
proof fn lemma_shorter_ratio(t: u32, s: u32)
    requires
        0 < s < t < 0x40_0000,
    ensures
        side_ratio(t, s) > one(),
{
    let o = one();
    let part = pow2(127);
    lemma2_to64();
    lemma_pow2_adds(22, 127);
    lemma_pow2_pos(127);
    assert(pow2(22) == 0x40_0000);
    lemma_ratio_quotient(t, s);
    lemma_nearest_exact(0x80_0000, 0x40_0001, 127, s as nat);
    assert(0x40_0001 * part * s <= t * o) by (nonlinear_arith)
        requires
            o == 0x40_0000 * part,
            s + 1 <= t,
            s < 0x40_0000,
            part > 0,
    ;
    lemma_nearest_monotone(0x80_0000, (0x40_0001 * part * s) as nat, (t * o) as nat, s as nat);
}

proof fn lemma_steps_within_a_pixel(sw: int, x: int, o: int, n: int, v: int, b: int)
    requires
        o > 0,
        sw > 0,
        0 <= x <= 0x3f_ffff * sw,
        0x100_0000 * (n * sw) <= 0x100_0001 * (x * o),
        0xff_ffff * (x * o) <= 0x100_0000 * (n * sw),
        0x100_0000 * v <= 0x100_0001 * n,
        0xff_ffff * n <= 0x100_0000 * v,
        b == (2 * v + o) / (2 * o),
    ensures
        b * sw < x + sw,
        x < b * sw + sw,
{
    let bs = b * sw;
    let vs = v * sw;
    let ns = n * sw;
    let xo = x * o;
    assert(2 * (b * o) <= 2 * v + o && 2 * v + o < 2 * (b * o) + 2 * o) by (nonlinear_arith)
        requires
            b == (2 * v + o) / (2 * o),
            o > 0,
    ;
    assert(2 * (bs * o) <= 2 * vs + o * sw && 2 * vs < 2 * (bs * o) + o * sw) by (nonlinear_arith)
        requires
            2 * (b * o) <= 2 * v + o,
            2 * v + o < 2 * (b * o) + 2 * o,
            sw > 0,
            bs == b * sw,
            vs == v * sw,
    ;
    assert(0x100_0000 * vs <= 0x100_0001 * ns && 0xff_ffff * ns <= 0x100_0000 * vs)
        by (nonlinear_arith)
        requires
            0x100_0000 * v <= 0x100_0001 * n,
            0xff_ffff * n <= 0x100_0000 * v,
            sw > 0,
            vs == v * sw,
            ns == n * sw,
    ;
    let bso = bs * o;
    let so = o * sw;
    assert(0x1_0000_0000_0000 * vs <= 0x1_0000_0200_0001 * xo);
    assert(0xffff_fe00_0001 * xo <= 0x1_0000_0000_0000 * vs);
    assert(0x2_0000_0000_0000 * bs <= 0x2_0000_0400_0002 * x + 0x1_0000_0000_0000 * sw)
        by (nonlinear_arith)
        requires
            0x2_0000_0000_0000 * bso <= 0x2_0000_0400_0002 * xo + 0x1_0000_0000_0000 * so,
            bso == bs * o,
            so == o * sw,
            xo == x * o,
            o > 0,
    ;
    assert(0x1_ffff_fc00_0002 * x < 0x2_0000_0000_0000 * bs + 0x1_0000_0000_0000 * sw)
        by (nonlinear_arith)
        requires
            0x1_ffff_fc00_0002 * xo < 0x2_0000_0000_0000 * bso + 0x1_0000_0000_0000 * so,
            bso == bs * o,
            so == o * sw,
            xo == x * o,
            o > 0,
    ;
}

/// A side that is scaled by the ratio of two others is proportional to them, to less
/// than a pixel.
proof fn lemma_proportional(t: u32, s: u32, side: u32)
    requires
        0 < s < 0x100_0000,
        0 < t < 0x100_0000,
        0 < side < 0x100_0000,
        t * side <= 0x3f_ffff * s,
    ensures
        scaled_side(side, side_ratio(t, s)) * s < t * side + s,
        t * side < scaled_side(side, side_ratio(t, s)) * s + s,
{
    let o = one();
    let q = side_ratio(t, s);
    let n = (side * q) as nat;
    lemma2_to64();
    lemma_pow2_strictly_increases(64, 149);
    lemma_ratio_bounds(t, s);
    lemma_whole_exact(side as nat);
    lemma_product_of_whole(side, q);
    assert(q >= 0x80_0000) by (nonlinear_arith)
        requires
            0xff_ffff * (t * o) <= 0x100_0000 * (q * s),
            t >= 1,
            s < 0x100_0000,
            o >= 0x1_0000_0000_0000_0000,
    ;
    assert(n >= 1 * 0x80_0000) by (nonlinear_arith)
        requires
            n == side * q,
            q >= 0x80_0000,
            side >= 1,
    ;
    lemma_nearest_error(0x80_0000, n, 1);
    let v = single_mul(single_of(side as nat), q);
    let x = t * side;
    assert(n * s == side * (q * s) && x * o == side * (t * o)) by (nonlinear_arith)
        requires
            n == side * q,
            x == t * side,
    ;
    assert(0x100_0000 * (n * s) <= 0x100_0001 * (x * o)) by (nonlinear_arith)
        requires
            n * s == side * (q * s),
            x * o == side * (t * o),
            0x100_0000 * (q * s) <= 0x100_0001 * (t * o),
    ;
    assert(0xff_ffff * (x * o) <= 0x100_0000 * (n * s)) by (nonlinear_arith)
        requires
            n * s == side * (q * s),
            x * o == side * (t * o),
            0xff_ffff * (t * o) <= 0x100_0000 * (q * s),
    ;
    assert(v * 1 == v);
    lemma_steps_within_a_pixel(
        s as int,
        x,
        o as int,
        n as int,
        v as int,
        scaled_side(side, q) as int,
    );
}

/// A size has the shape of a picture with one of its sides as it stands: the other one
/// is proportional to it, to less than a pixel, and just so where that is a whole
/// number.
pub open spec fn in_proportion(side: int, other: int, src: int, src_other: int) -> bool {
    &&& other * src < side * src_other + src
    &&& side * src_other < other * src + src
    &&& forall|m: int| #[trigger] (m * src) == side * src_other ==> other == m
}

proof fn lemma_in_proportion(side: int, other: int, src: int, src_other: int)
    requires
        src > 0,
        other * src < side * src_other + src,
        side * src_other < other * src + src,
    ensures
        in_proportion(side, other, src, src_other),
{
    assert forall|m: int| #[trigger] (m * src) == side * src_other implies other == m by {
        assert(other == m) by (nonlinear_arith)
            requires
                src > 0,
                other * src < m * src + src,
                m * src < other * src + src,
        ;
    }
}

/// A picture shorter than the target on both sides is always enlarged. With a whole
/// cap that keeps both sides inside the target it is multiplied by the cap. Else the
/// side that meets the target first becomes as long as the target's, and the picture
/// keeps its shape.
pub proof fn law_upscaled_size_meets_target(src: (u32, u32), target: (u32, u32), k: nat)
    requires
        0 < src.0 < target.0 < 0x40_0000,
        0 < src.1 < target.1 < 0x40_0000,
        1 <= k < 0x100_0000,
    ensures
        upscaled_size(src, target, k * one()) is Some,
        ({
            let (w, h) = upscaled_size(src, target, k * one())->0;
            &&& k * src.0 <= target.0 && k * src.1 <= target.1 ==> w == k * src.0 && h == k * src.1
            &&& target.0 <= k * src.0 && target.0 * src.1 <= target.1 * src.0 ==> w == target.0
                && in_proportion(w as int, h as int, src.0 as int, src.1 as int)
            &&& target.1 <= k * src.1 && target.1 * src.0 <= target.0 * src.1 ==> h == target.1
                && in_proportion(h as int, w as int, src.1 as int, src.0 as int)
        }),
{
    let o = one();
    lemma_shorter_ratio(target.0, src.0);
    lemma_shorter_ratio(target.1, src.1);
    let (x, y) = (side_ratio(target.0, src.0), side_ratio(target.1, src.1));
    if k * src.0 <= target.0 && k * src.1 <= target.1 {
        lemma_cap_reached(src.0, target.0, k);
        lemma_cap_reached(src.1, target.1, k);
    }
    if target.0 <= k * src.0 && target.0 * src.1 <= target.1 * src.0 {
        lemma_ratio_order(target.0, src.0, target.1, src.1);
        lemma_cap_not_reached(src.0, target.0, k);
        lemma_binding_side(src.0, target.0, src.1, target.1);
    }
    if target.1 <= k * src.1 && target.1 * src.0 <= target.0 * src.1 {
        lemma_ratio_order(target.1, src.1, target.0, src.0);
        lemma_cap_not_reached(src.1, target.1, k);
        lemma_binding_side(src.1, target.1, src.0, target.0);
    }
}

proof fn lemma_cap_reached(s: u32, t: u32, k: nat)
    requires
        0 < s < t < 0x40_0000,
        1 <= k < 0x100_0000,
        k * s <= t,
    ensures
        side_ratio(t, s) >= k * one(),
        whole_side(s, k * one()) == k * s,
{
    let o = one();
    lemma_pow2_pos(149);
    assert(s * k == k * s && k * s >= s) by (nonlinear_arith)
        requires
            k >= 1,
    ;
    let reached = (s * k) as u32;
    lemma_whole_exact(s as nat);
    lemma_whole_exact(reached as nat);
    lemma_ratio_of_multiple(s, k, reached);
    assert(reached * s <= t * s) by (nonlinear_arith)
        requires
            reached <= t,
    ;
    lemma_ratio_order(reached, s, t, s);
    lemma_scaled_by_whole(s, k);
}

proof fn lemma_cap_not_reached(s: u32, t: u32, k: nat)
    requires
        0 < s < 0x100_0000,
        t < 0x100_0000,
        k < 0x100_0000,
        t <= k * s,
    ensures
        side_ratio(t, s) <= k * one(),
{
    let o = one();
    lemma_pow2_pos(149);
    lemma_ratio_quotient(t, s);
    assert(t * o <= k * o * s) by (nonlinear_arith)
        requires
            t <= k * s,
    ;
    lemma_nearest_exact(0x80_0000, k, 149, s as nat);
    lemma_nearest_monotone(0x80_0000, (t * o) as nat, k * o * (s as nat), s as nat);
}

proof fn lemma_binding_side(s: u32, t: u32, other: u32, bound: u32)
    requires
        0 < s < t < 0x40_0000,
        0 < other < bound < 0x40_0000,
        t * other <= bound * s,
        side_ratio(t, s) <= side_ratio(bound, other),
        side_ratio(t, s) > one(),
    ensures
        whole_side(s, side_ratio(t, s)) == t,
        in_proportion(
            t as int,
            whole_side(other, side_ratio(t, s)) as int,
            s as int,
            other as int,
        ),
{
    let q = side_ratio(t, s);
    lemma_scaled_reaches(s, t, q);
    lemma_scaled_stays_inside(s, t, q);
    lemma_scaled_stays_inside(other, bound, q);
    lemma_whole_exact(other as nat);
    lemma_scaled_grows(other, q);
    assert(t * other <= 0x3f_ffff * s) by (nonlinear_arith)
        requires
            t * other <= bound * s,
            bound <= 0x3f_ffff,
    ;
    lemma_proportional(t, s, other);
    lemma_in_proportion(
        t as int,
        whole_side(other, q) as int,
        s as int,
        other as int,
    );
}

/// The largest even number of pixels in a side, but two at least.
pub open spec fn evened(px: int) -> int {
    if px < 2 {
        2
    } else if px % 2 == 0 {
        px
    } else {
        px - 1
    }
}

/// A frame that goes three times into its target on one side is shown at three times
/// its size, in even numbers of pixels.
pub proof fn law_output_size_reaches_the_cap(src_w: u32, src_h: u32, target: (u32, u32))
    requires
        0 < src_w < 0x40_0000,
        0 < src_h < 0x40_0000,
        target.0 < 0x100_0000,
        target.1 < 0x100_0000,
        3 * src_w <= target.0 || 3 * src_h <= target.1,
    ensures
        output_size(src_w, src_h, Some(target)).0 == evened(3 * src_w),
        output_size(src_w, src_h, Some(target)).1 == evened(3 * src_h),
{
    lemma_whole_exact(3);
    if 3 * src_w <= target.0 {
        lemma_three_times(src_w, target.0);
    }
    if 3 * src_h <= target.1 {
        lemma_three_times(src_h, target.1);
    }
    lemma_whole_exact(src_w as nat);
    lemma_whole_exact(src_h as nat);
    lemma_whole_exact((src_w * 3) as nat);
    lemma_whole_exact((src_h * 3) as nat);
    lemma_scaled_by_whole(src_w, 3);
    lemma_scaled_by_whole(src_h, 3);
}

proof fn lemma_three_times(s: u32, t: u32)
    requires
        0 < s < 0x40_0000,
        t < 0x100_0000,
        3 * s <= t,
    ensures
        side_ratio(t, s) >= 3 * one(),
{
    let reached = (s * 3) as u32;
    lemma_whole_exact(s as nat);
    lemma_whole_exact(reached as nat);
    lemma_ratio_of_multiple(s, 3, reached);
    assert(reached * s <= t * s) by (nonlinear_arith)
        requires
            reached <= t,
    ;
    lemma_ratio_order(reached, s, t, s);
}

/// A frame below the cap is as long as its target on the side that is covered last, to
/// an even number of pixels, and the other side is proportional to it, to less than
/// two pixels. It is longer than in proportion by a pixel or more only where it has to be
/// to cover the target.
pub proof fn law_output_size_meets_target(src_w: u32, src_h: u32, target: (u32, u32))
    requires
        0 < src_w < 0x100_0000,
        0 < src_h < 0x100_0000,
        target.0 < 0x40_0000,
        target.1 < 0x40_0000,
    ensures
        ({
            let (w, h) = output_size(src_w, src_h, Some(target));
            &&& 0 < target.0 < 3 * src_w && target.1 * src_w <= target.0 * src_h && target.0
                * src_h <= 0x3f_ffff * src_w ==> {
                &&& w == target.0 + target.0 % 2
                &&& h * src_w < target.0 * src_h + 2 * src_w || h == 2
                &&& target.0 * src_h < h * src_w + 2 * src_w
                &&& h > target.1 + 1 ==> h * src_w < target.0 * src_h + src_w || h == 2
                &&& forall|m: int|
                    #[trigger] (m * src_w) == target.0 * src_h && m % 2 == 0 ==> h == m
            }
            &&& 0 < target.1 < 3 * src_h && target.0 * src_h <= target.1 * src_w && target.1
                * src_w <= 0x3f_ffff * src_h ==> {
                &&& h == target.1 + target.1 % 2
                &&& w * src_h < target.1 * src_w + 2 * src_h || w == 2
                &&& target.1 * src_w < w * src_h + 2 * src_h
                &&& w > target.0 + 1 ==> w * src_h < target.1 * src_w + src_h || w == 2
                &&& forall|m: int|
                    #[trigger] (m * src_h) == target.1 * src_w && m % 2 == 0 ==> w == m
            }
        }),
{
    if 0 < target.0 < 3 * src_w && target.1 * src_w <= target.0 * src_h && target.0 * src_h
        <= 0x3f_ffff * src_w {
        lemma_covered_side(src_w, target.0, src_h, target.1);
    }
    if 0 < target.1 < 3 * src_h && target.0 * src_h <= target.1 * src_w && target.1 * src_w
        <= 0x3f_ffff * src_h {
        lemma_covered_side(src_h, target.1, src_w, target.0);
    }
}

proof fn lemma_covered_side(s: u32, t: u32, other: u32, bound: u32)
    requires
        0 < s < 0x100_0000,
        0 < other < 0x100_0000,
        0 < t < 0x40_0000,
        bound < 0x40_0000,
        t < 3 * s,
        bound * s <= t * other,
        t * other <= 0x3f_ffff * s,
    ensures
        side_ratio(bound, other) <= side_ratio(t, s),
        side_ratio(t, s) <= single_of(3),
        even_side(s, side_ratio(t, s), t) == t + t % 2,
        ({
            let h = even_side(other, side_ratio(t, s), bound);
            &&& h * s < t * other + 2 * s || h == 2
            &&& t * other < h * s + 2 * s
            &&& h > bound + 1 ==> h * s < t * other + s || h == 2
            &&& forall|m: int| #[trigger] (m * s) == t * other && m % 2 == 0 ==> h == m
        }),
{
    let q = side_ratio(t, s);
    lemma_ratio_order(bound, other, t, s);
    lemma_whole_exact(3);
    lemma_cap_not_reached(s, t, 3);
    lemma_scaled_reaches(s, t, q);
    lemma_scaled_stays_inside(s, t, q);
    lemma_proportional(t, s, other);
    let b = scaled_side(other, q) as int;
    lemma_in_proportion(t as int, b, s as int, other as int);
    let h = even_side(other, q, bound) as int;
    let x = t * other;
    assert(b <= 0x40_0000) by (nonlinear_arith)
        requires
            b * s < x + s,
            x <= 0x3f_ffff * s,
            s > 0,
    ;
    assert(h * s <= b * s + s || h == 2) by (nonlinear_arith)
        requires
            h <= b + 1 || h == 2,
    ;
    assert(b * s <= h * s + s) by (nonlinear_arith)
        requires
            b <= h + 1,
    ;
    if h > bound + 1 && h != 2 {
        assert(h * s <= b * s) by (nonlinear_arith)
            requires
                h <= b,
        ;
    }
    assert(x > 0) by (nonlinear_arith)
        requires
            x == t * other,
            t > 0,
            other > 0,
    ;
    assert forall|m: int| #[trigger] (m * s) == t * other && m % 2 == 0 implies h == m by {
        assert(m > 0) by (nonlinear_arith)
            requires
                m * s == x,
                x > 0,
                s > 0,
        ;
    }
}

/// A frame with nothing to cover, or without pixels, keeps its size.
pub proof fn law_output_size_without_target(src_w: u32, src_h: u32, target: Option<(u32, u32)>)
    requires
        target is None || src_w == 0 || src_h == 0,
    ensures
        output_size(src_w, src_h, target) == (src_w as nat, src_h as nat),
{
}

/// A number of units is that of a value: it needs no rounding.
pub open spec fn is_value(units: nat) -> bool {
    to_single(units, 1) == units
}

proof fn lemma_value_times_side(cap: nat, s: u32)
    requires
        is_value(cap),
        s > 0,
    ensures
        to_single((cap * s) as nat, s as nat) == cap,
{
    lemma_nearest_scaled(0x80_0000, cap, 1, s as nat);
    assert(s as nat * cap == cap * s && s as nat * 1 == s) by (nonlinear_arith);
}

proof fn lemma_capped_side(s: u32, t: u32, cap: nat)
    requires
        0 < s < t < 0x40_0000,
        is_value(cap),
        cap >= one(),
        cap * s <= t * one(),
    ensures
        side_ratio(t, s) >= cap,
        whole_side(s, cap) * one() < cap * s + one(),
        cap * s < whole_side(s, cap) * one() + one(),
{
    let o = one();
    let n = (s * cap) as nat;
    lemma2_to64();
    lemma_pow2_strictly_increases(64, 149);
    lemma_ratio_quotient(t, s);
    lemma_value_times_side(cap, s);
    lemma_nearest_monotone(0x80_0000, (cap * s) as nat, (t * o) as nat, s as nat);
    lemma_scaled_stays_inside(s, t, cap);
    lemma_whole_exact(s as nat);
    lemma_scaled_grows(s, cap);
    lemma_product_of_whole(s, cap);
    assert(n == cap * s && n >= 1 * 0x80_0000) by (nonlinear_arith)
        requires
            n == s * cap,
            s >= 1,
            cap >= 0x80_0000,
    ;
    lemma_nearest_error(0x80_0000, n, 1);
    let v = single_mul(single_of(s as nat), cap);
    let b = whole_side(s, cap);
    assert(v * 1 == v);
    assert(2 * (b * o) <= 2 * v + o && 2 * v + o < 2 * (b * o) + 2 * o) by (nonlinear_arith)
        requires
            b == (2 * v + o) / (2 * o),
            o > 0,
    ;
    assert(n <= 0x3f_ffff * o) by (nonlinear_arith)
        requires
            n <= t * o,
            t <= 0x3f_ffff,
    ;
    lemma_error_below_a_pixel(n as int, v as int, (b * o) as int, o as int);
}

proof fn lemma_error_below_a_pixel(n: int, v: int, bo: int, o: int)
    requires
        o > 0,
        0 <= n <= 0x3f_ffff * o,
        0x100_0000 * v <= 0x100_0001 * n,
        0xff_ffff * n <= 0x100_0000 * v,
        2 * bo <= 2 * v + o,
        2 * v + o < 2 * bo + 2 * o,
    ensures
        bo < n + o,
        n < bo + o,
{
}

proof fn lemma_below_cap(s: u32, t: u32, cap: nat)
    requires
        0 < s < 0x100_0000,
        t < 0x100_0000,
        is_value(cap),
        t * one() <= cap * s,
    ensures
        side_ratio(t, s) <= cap,
{
    lemma_ratio_quotient(t, s);
    lemma_value_times_side(cap, s);
    lemma_nearest_monotone(0x80_0000, (t * one()) as nat, (cap * s) as nat, s as nat);
}

/// With a cap that is not a whole number a picture shorter than the target on both
/// sides is enlarged too: by the cap, to less than a pixel on each side, where that
/// stays inside the target, and else to the side that meets the target first.
pub proof fn law_upscaled_size_with_any_cap(src: (u32, u32), target: (u32, u32), cap: nat)
    requires
        0 < src.0 < target.0 < 0x40_0000,
        0 < src.1 < target.1 < 0x40_0000,
        cap >= one(),
        is_value(cap),
    ensures
        upscaled_size(src, target, cap) is Some,
        ({
            let o = one();
            let (w, h) = upscaled_size(src, target, cap)->0;
            &&& cap * src.0 <= target.0 * o && cap * src.1 <= target.1 * o ==> {
                &&& w * o < cap * src.0 + o
                &&& cap * src.0 < w * o + o
                &&& h * o < cap * src.1 + o
                &&& cap * src.1 < h * o + o
            }
            &&& target.0 * o <= cap * src.0 && target.0 * src.1 <= target.1 * src.0 ==> w
                == target.0 && in_proportion(w as int, h as int, src.0 as int, src.1 as int)
            &&& target.1 * o <= cap * src.1 && target.1 * src.0 <= target.0 * src.1 ==> h
                == target.1 && in_proportion(h as int, w as int, src.1 as int, src.0 as int)
        }),
{
    let o = one();
    lemma_shorter_ratio(target.0, src.0);
    lemma_shorter_ratio(target.1, src.1);
    if cap * src.0 <= target.0 * o && cap * src.1 <= target.1 * o {
        lemma_capped_side(src.0, target.0, cap);
        lemma_capped_side(src.1, target.1, cap);
    }
    if target.0 * o <= cap * src.0 && target.0 * src.1 <= target.1 * src.0 {
        lemma_ratio_order(target.0, src.0, target.1, src.1);
        lemma_below_cap(src.0, target.0, cap);
        lemma_binding_side(src.0, target.0, src.1, target.1);
    }
    if target.1 * o <= cap * src.1 && target.1 * src.0 <= target.0 * src.1 {
        lemma_ratio_order(target.1, src.1, target.0, src.0);
        lemma_below_cap(src.1, target.1, cap);
        lemma_binding_side(src.1, target.1, src.0, target.0);
    }
}

/// A frame that is to cover no pixels at all is shown at two by two.
pub proof fn law_output_size_of_empty_target(src_w: u32, src_h: u32)
    requires
        src_w > 0,
        src_h > 0,
    ensures
        output_size(src_w, src_h, Some((0, 0))) == (2nat, 2nat),
{
    lemma_nothing_scaled(src_w);
    lemma_nothing_scaled(src_h);
}

proof fn lemma_nothing_scaled(s: u32)
    requires
        s > 0,
    ensures
        side_ratio(0, s) == 0,
        scaled_side(s, 0) == 0,
{
    let o = one();
    let b = single_of(s as nat);
    lemma_pow2_pos(149);
    lemma_whole_range(0);
    lemma_whole_range(s);
    lemma_nearest_exact(0x80_0000, 0, 149, b);
    lemma_nearest_exact(0x80_0000, 0, 149, o);
    assert(0 * pow2(149) * b == 0 && 0 * pow2(149) * o == 0 && b * 0 == 0 && 0 * o == 0)
        by (nonlinear_arith);
    assert((2 * 0 + o) / (2 * o) == 0) by (nonlinear_arith)
        requires
            o > 0,
    ;
}

/// The size that is worked out for a frame is even, covers its target where the cap
/// allows for that, and is three times the frame where the target is that far away.
pub proof fn law_frame_size_is_worked_out(src_w: u32, src_h: u32, target: (u32, u32), r: (u32, u32))
    requires
        call_ensures(compute_output_size, (src_w, src_h, Some(target)), r),
        0 < src_w < 0x40_0000,
        0 < src_h < 0x40_0000,
        target.0 < 0x40_0000,
        target.1 < 0x40_0000,
    ensures
        r.0 % 2 == 0 && r.1 % 2 == 0,
        target.0 < 3 * src_w && target.1 < 3 * src_h ==> r.0 >= target.0 && r.1 >= target.1,
        target.0 >= 3 * src_w || target.1 >= 3 * src_h ==> r.0 == evened(3 * src_w) && r.1 == evened(
            3 * src_h,
        ),
{
    law_output_size_is_even(src_w, src_h, target);
    if target.0 < 3 * src_w && target.1 < 3 * src_h {
        law_output_size_covers(src_w, src_h, target);
    } else {
        law_output_size_reaches_the_cap(src_w, src_h, target);
    }
}

/// A frame without a target keeps its size.
pub proof fn law_frame_without_target_keeps_its_size(src_w: u32, src_h: u32, r: (u32, u32))
    requires
        call_ensures(compute_output_size, (src_w, src_h, None::<(u32, u32)>), r),
    ensures
        r == (src_w, src_h),
{
}

/// A size is worked out for a picture just when it is shorter than the target on both
/// sides, and then it is the multiple that the cap allows for or has a side of the target.
pub proof fn law_picture_size_is_worked_out(
    src: (u32, u32),
    target: (u32, u32),
    cap: Single,
    k: nat,
    r: Option<(u32, u32)>,
)
    requires
        call_ensures(compute_upscaled_size, (src, target, cap), r),
        cap.units() == k * one(),
        1 <= k < 0x100_0000,
        0 < src.0,
        0 < src.1,
        target.0 < 0x40_0000,
        target.1 < 0x40_0000,
    ensures
        r is Some <==> src.0 < target.0 && src.1 < target.1,
        r matches Some((w, h)) ==> {
            &&& k * src.0 <= target.0 && k * src.1 <= target.1 ==> w == k * src.0 && h == k * src.1
            &&& k * src.0 > target.0 || k * src.1 > target.1 ==> w == target.0 || h == target.1
            &&& w <= target.0 && h <= target.1
        },
{
    if src.0 < target.0 && src.1 < target.1 {
        law_upscaled_size_meets_target(src, target, k);
        law_upscaled_size_fits(src, target, cap.units());
        let (sw, sh) = (src.0 as int, src.1 as int);
        let (tw, th) = (target.0 as int, target.1 as int);
        if k * sw > tw && !(tw * sh <= th * sw) {
            assert(th <= k * sh) by (nonlinear_arith)
                requires
                    th * sw < tw * sh,
                    tw < k * sw,
                    sw > 0,
                    sh > 0,
            ;
        }
        if k * sh > th && !(th * sw <= tw * sh) {
            assert(tw <= k * sw) by (nonlinear_arith)
                requires
                    tw * sh < th * sw,
                    th < k * sh,
                    sw > 0,
                    sh > 0,
            ;
        }
    } else {
        law_large_size_stays(src, target, cap.units());
    }
}

} // verus!
