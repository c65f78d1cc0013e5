//! How backgrounds are scaled to their windows.

use vstd::arithmetic::power2::{lemma2_to64, lemma_pow2_pos, lemma_pow2_strictly_increases, pow2};
use vstd::prelude::*;

use crate::color::Srgb;
use crate::media::{FitMode, MediaSlot, WallpaperFor};
use crate::rounding::{
    lemma_nearest_error, lemma_nearest_exact, lemma_nearest_monotone, lemma_nearest_scaled,
};
use crate::single::{one, single_div, single_of, Single};
use crate::sizes::{is_exact, larger, lemma_whole_exact, lemma_whole_range, smaller};

verus! {

/// The size of a wallpaper's window.
#[derive(Clone, Copy, Debug, PartialEq, Eq, Structural)]
pub struct WindowSize {
    pub tag: WallpaperFor,
    pub width: Single,
    pub height: Single,
}

/// The factors that take a picture to the sides of a window, in units.
pub open spec fn side_factors(window: (nat, nat), picture: (u32, u32)) -> (nat, nat) {
    (
        single_div(window.0, single_of(picture.0 as nat)),
        single_div(window.1, single_of(picture.1 as nat)),
    )
}

/// The factors by which a picture is scaled in a window, in units.
pub open spec fn fit_factors(mode: FitMode, window: (nat, nat), picture: (u32, u32)) -> (nat, nat) {
    let (x, y) = side_factors(window, picture);
    match mode {
        FitMode::Cover => (larger(x, y), larger(x, y)),
        FitMode::Contain => (smaller(x, y), smaller(x, y)),
        FitMode::Stretch => (x, y),
    }
}

/// The factors by which a picture is scaled in a window.
pub fn fit_scale(mode: FitMode, width: Single, height: Single, picture: (u32, u32)) -> (r: (
    Single,
    Single,
))
    requires
        picture.0 > 0,
        picture.1 > 0,
    ensures
        (r.0.units(), r.1.units()) == fit_factors(mode, (width.units(), height.units()), picture),
{
    proof {
        lemma_whole_range(picture.0);
        lemma_whole_range(picture.1);
    }
    let x = width.over(Single::from_whole(picture.0));
    let y = height.over(Single::from_whole(picture.1));
    match mode {
        FitMode::Cover => {
            let s = x.max(y);
            (s, s)
        },
        FitMode::Contain => {
            let s = x.min(y);
            (s, s)
        },
        FitMode::Stretch => (x, y),
    }
}

/// The last of the first `n` windows that belongs to a wallpaper.
pub open spec fn window_of(windows: Seq<WindowSize>, index: usize, n: nat) -> Option<WindowSize>
    decreases n,
{
    if n == 0 {
        None
    } else if windows[n - 1].tag.0 == index {
        Some(windows[n - 1])
    } else {
        window_of(windows, index, (n - 1) as nat)
    }
}

/// The last of the first `n` slots that belongs to a wallpaper.
pub open spec fn slot_of<E, V, H>(
    slots: Seq<MediaSlot<E, V, H>>,
    index: usize,
    n: nat,
) -> Option<MediaSlot<E, V, H>>
    decreases n,
{
    if n == 0 {
        None
    } else if slots[n - 1].monitor_index == index {
        Some(slots[n - 1])
    } else {
        slot_of(slots, index, (n - 1) as nat)
    }
}

fn find_window(windows: &Vec<WindowSize>, index: usize) -> (r: Option<WindowSize>)
    ensures
        r == window_of(windows@, index, windows@.len()),
{
    let mut n: usize = windows.len();
    while n > 0
        invariant
            n <= windows@.len(),
            window_of(windows@, index, windows@.len()) == window_of(windows@, index, n as nat),
        decreases n,
    {
        if windows[n - 1].tag.0 == index {
            return Some(windows[n - 1]);
        }
        n = n - 1;
    }
    None
}

fn find_slot<E, V, H>(slots: &Vec<MediaSlot<E, V, H>>, index: usize) -> (r: Option<usize>)
    ensures
        match r {
            Some(i) => i < slots@.len() && slot_of(slots@, index, slots@.len()) == Some(
                slots@[i as int],
            ),
            None => slot_of(slots@, index, slots@.len()) is None,
        },
{
    let mut n: usize = slots.len();
    while n > 0
        invariant
            n <= slots@.len(),
            slot_of(slots@, index, slots@.len()) == slot_of(slots@, index, n as nat),
        decreases n,
    {
        if slots[n - 1].monitor_index == index {
            return Some(n - 1);
        }
        n = n - 1;
    }
    None
}

/// The colour that a wallpaper's camera clears its window with, if it has a slot.
pub fn camera_color<E, V, H>(slots: &Vec<MediaSlot<E, V, H>>, tag: WallpaperFor) -> (r: Option<
    Srgb,
>)
    ensures
        r == match slot_of(slots@, tag.0, slots@.len()) {
            Some(slot) => Some(slot.background_color),
            None => None,
        },
{
    match find_slot(slots, tag.0) {
        Some(i) => Some(slots[i].background_color),
        None => None,
    }
}

/// How a wallpaper's slot fits its picture to the window.
pub open spec fn mode_of<E, V, H>(slots: Seq<MediaSlot<E, V, H>>, tag: WallpaperFor) -> FitMode {
    match slot_of(slots, tag.0, slots.len()) {
        Some(slot) => slot.fit_mode,
        None => FitMode::Contain,
    }
}

/// The factors of a background in units, and `None` where they stay what they
/// are: where it has no window, or a picture without pixels. A background with
/// no picture is not scaled.
pub open spec fn background_factors<E, V, H>(
    windows: Seq<WindowSize>,
    slots: Seq<MediaSlot<E, V, H>>,
    tag: WallpaperFor,
    picture: Option<(u32, u32)>,
) -> Option<(nat, nat)> {
    match (window_of(windows, tag.0, windows.len()), picture) {
        (None, _) => None,
        (Some(_), None) => Some((one(), one())),
        (Some(window), Some(size)) => if size.0 == 0 || size.1 == 0 {
            None
        } else {
            Some(
                fit_factors(
                    mode_of(slots, tag),
                    (window.width.units(), window.height.units()),
                    size,
                ),
            )
        },
    }
}

/// The factors by which a background is scaled. `picture` is the size of what it
/// shows.
pub fn background_scale<E, V, H>(
    windows: &Vec<WindowSize>,
    slots: &Vec<MediaSlot<E, V, H>>,
    tag: WallpaperFor,
    picture: Option<(u32, u32)>,
) -> (r: Option<(Single, Single)>)
    ensures
        match r {
            Some((x, y)) => background_factors(windows@, slots@, tag, picture) == Some(
                (x.units(), y.units()),
            ),
            None => background_factors(windows@, slots@, tag, picture) is None,
        },
{
    let window = match find_window(windows, tag.0) {
        Some(window) => window,
        None => return None,
    };
    let size = match picture {
        Some(size) => size,
        None => {
            proof {
                lemma_whole_exact(1);
            }
            return Some((Single::from_whole(1), Single::from_whole(1)));
        },
    };
    if size.0 == 0 || size.1 == 0 {
        return None;
    }
    let mode = match find_slot(slots, tag.0) {
        Some(i) => slots[i].fit_mode,
        None => FitMode::Contain,
    };
    Some(fit_scale(mode, window.width, window.height, size))
}

/// Covering and containing keep the shape of a picture, and covering scales it no
/// less than containing does.
pub proof fn law_fit_keeps_shape(window: (nat, nat), picture: (u32, u32))
    ensures
        ({
            let cover = fit_factors(FitMode::Cover, window, picture);
            let contain = fit_factors(FitMode::Contain, window, picture);
            &&& cover.0 == cover.1
            &&& contain.0 == contain.1
            &&& contain.0 <= cover.0
        }),
{
}

/// A side needs no rounding, and the factor that takes it to a window's side is
/// not so small that it loses precision.
pub open spec fn fine_factor(window: nat, side: u32) -> bool {
    &&& side > 0
    &&& is_exact(side as nat)
    &&& window >= side * 0x80_0000
}

proof fn lemma_factor_error(window: nat, side: u32)
    requires
        fine_factor(window, side),
    ensures
        ({
            let factor = single_div(window, single_of(side as nat));
            &&& 0x100_0000 * (factor * side) <= 0x100_0001 * window
            &&& 0xff_ffff * window <= 0x100_0000 * (factor * side)
        }),
{
    let o = one();
    lemma_pow2_pos(149);
    assert(window * o == o * window) by (nonlinear_arith);
    assert(single_of(side as nat) == o * side) by (nonlinear_arith)
        requires
            single_of(side as nat) == side * o,
    ;
    lemma_nearest_scaled(0x80_0000, window, side as nat, o);
    lemma_nearest_error(0x80_0000, window, side as nat);
}

/// A picture that covers its window is at least as long on both sides, up to one
/// part in two to the power of 24.
pub proof fn law_cover_fills_window(window: (nat, nat), picture: (u32, u32))
    requires
        fine_factor(window.0, picture.0),
        fine_factor(window.1, picture.1),
    ensures
        ({
            let (x, y) = fit_factors(FitMode::Cover, window, picture);
            &&& 0xff_ffff * window.0 <= 0x100_0000 * (x * picture.0)
            &&& 0xff_ffff * window.1 <= 0x100_0000 * (y * picture.1)
        }),
{
    lemma_factor_error(window.0, picture.0);
    lemma_factor_error(window.1, picture.1);
    let (x, y) = side_factors(window, picture);
    let s = larger(x, y);
    let (w, h) = picture;
    assert(x * w <= s * w && y * h <= s * h) by (nonlinear_arith)
        requires
            x <= s,
            y <= s,
    ;
}

/// A picture that its window contains is at most as long on both sides, up to one
/// part in two to the power of 24.
pub proof fn law_contain_stays_in_window(window: (nat, nat), picture: (u32, u32))
    requires
        fine_factor(window.0, picture.0),
        fine_factor(window.1, picture.1),
    ensures
        ({
            let (x, y) = fit_factors(FitMode::Contain, window, picture);
            &&& 0x100_0000 * (x * picture.0) <= 0x100_0001 * window.0
            &&& 0x100_0000 * (y * picture.1) <= 0x100_0001 * window.1
        }),
{
    lemma_factor_error(window.0, picture.0);
    lemma_factor_error(window.1, picture.1);
    let (x, y) = side_factors(window, picture);
    let s = smaller(x, y);
    let (w, h) = picture;
    assert(s * w <= x * w && s * h <= y * h) by (nonlinear_arith)
        requires
            s <= x,
            s <= y,
    ;
}

/// A stretched picture has the sides of its window, up to one part in two to the
/// power of 24.
pub proof fn law_stretch_matches_window(window: (nat, nat), picture: (u32, u32))
    requires
        fine_factor(window.0, picture.0),
        fine_factor(window.1, picture.1),
    ensures
        ({
            let (x, y) = fit_factors(FitMode::Stretch, window, picture);
            &&& 0xff_ffff * window.0 <= 0x100_0000 * (x * picture.0) <= 0x100_0001 * window.0
            &&& 0xff_ffff * window.1 <= 0x100_0000 * (y * picture.1) <= 0x100_0001 * window.1
        }),
{
    lemma_factor_error(window.0, picture.0);
    lemma_factor_error(window.1, picture.1);
}

/// The sides of a picture and of a window can be compared: the picture has pixels,
/// and its factors are not so small that they lose precision.
pub open spec fn sides_match_up(window: (nat, nat), picture: (u32, u32)) -> bool {
    &&& picture.0 > 0
    &&& picture.1 > 0
    &&& window.0 >= picture.0 * 0x100_0000
    &&& window.1 >= picture.1 * 0x100_0000
}

/// A side times a factor is no longer than a window's side, up to one of so many parts.
pub open spec fn no_longer(factor: nat, side: u32, window: nat, parts: nat) -> bool {
    parts * (factor * side) <= (parts + 1) * window
}

/// A side times a factor is no shorter than a window's side, up to one of so many parts.
pub open spec fn no_shorter(factor: nat, side: u32, window: nat, parts: nat) -> bool {
    (parts - 1) * window <= parts * (factor * side)
}

/// The factors place a picture in its window as a mode asks for, up to one of so many
/// parts. Contained, it keeps its shape, is no longer than the window on either side
/// and as long on one. Covering, it keeps its shape, is no shorter on either side and
/// as long on one. Stretched, it is as long as the window on both sides.
pub open spec fn placed(
    mode: FitMode,
    window: (nat, nat),
    picture: (u32, u32),
    factors: (nat, nat),
    parts: nat,
) -> bool {
    let (x, y) = factors;
    match mode {
        FitMode::Contain => {
            &&& x == y
            &&& no_longer(x, picture.0, window.0, parts)
            &&& no_longer(y, picture.1, window.1, parts)
            &&& no_shorter(x, picture.0, window.0, parts) || no_shorter(
                y,
                picture.1,
                window.1,
                parts,
            )
        },
        FitMode::Cover => {
            &&& x == y
            &&& no_shorter(x, picture.0, window.0, parts)
            &&& no_shorter(y, picture.1, window.1, parts)
            &&& no_longer(x, picture.0, window.0, parts) || no_longer(
                y,
                picture.1,
                window.1,
                parts,
            )
        },
        FitMode::Stretch => {
            &&& no_longer(x, picture.0, window.0, parts)
            &&& no_longer(y, picture.1, window.1, parts)
            &&& no_shorter(x, picture.0, window.0, parts)
            &&& no_shorter(y, picture.1, window.1, parts)
        },
    }
}

/// How close a picture comes to its window: to one part in two to the power of 24 where
/// its sides need no rounding, and to one in two to the power of 22 elsewhere.
pub open spec fn closeness(picture: (u32, u32)) -> nat {
    if picture.0 < 0x100_0000 && picture.1 < 0x100_0000 {
        0x100_0000
    } else {
        0x40_0000
    }
}

proof fn lemma_side_met(window: nat, side: u32)
    requires
        side > 0,
        window >= side * 0x100_0000,
    ensures
        no_longer(single_div(window, single_of(side as nat)), side, window, 0x40_0000),
        no_shorter(single_div(window, single_of(side as nat)), side, window, 0x40_0000),
{
    let o = one();
    let b = single_of(side as nat);
    let q = single_div(window, b);
    lemma2_to64();
    lemma_pow2_strictly_increases(64, 149);
    lemma_whole_range(side);
    let whole = (side * o) as nat;
    assert(whole >= 1 * 0x80_0000) by (nonlinear_arith)
        requires
            whole == side * o,
            side >= 1,
            o >= 0x80_0000,
    ;
    lemma_nearest_error(0x80_0000, whole, 1);
    assert(window * o >= b * 0x80_0000) by (nonlinear_arith)
        requires
            0x100_0000 * b <= 0x100_0001 * whole,
            whole == side * o,
            window >= side * 0x100_0000,
            o >= 1,
    ;
    lemma_nearest_error(0x80_0000, window * o, b);
    lemma_two_roundings(window as int, side as int, o as int, b as int, q as int);
}

proof fn lemma_two_roundings(window: int, side: int, o: int, b: int, q: int)
    requires
        o > 0,
        q >= 0,
        side >= 0,
        window >= 0,
        0x100_0000 * b <= 0x100_0001 * (side * o),
        0xff_ffff * (side * o) <= 0x100_0000 * b,
        0x100_0000 * (q * b) <= 0x100_0001 * (window * o),
        0xff_ffff * (window * o) <= 0x100_0000 * (q * b),
    ensures
        0x40_0000 * (q * side) <= 0x40_0001 * window,
        0x3f_ffff * window <= 0x40_0000 * (q * side),
{
    let qs = q * side;
    let so = side * o;
    assert(q * so == qs * o) by (nonlinear_arith)
        requires
            qs == q * side,
            so == side * o,
    ;
    assert(0x100_0000 * (q * b) <= 0x100_0001 * (q * so)) by (nonlinear_arith)
        requires
            0x100_0000 * b <= 0x100_0001 * so,
            q >= 0,
    ;
    assert(0xff_ffff * (q * so) <= 0x100_0000 * (q * b)) by (nonlinear_arith)
        requires
            0xff_ffff * so <= 0x100_0000 * b,
            q >= 0,
    ;
    assert(0xff_ffff * qs <= 0x100_0001 * window) by (nonlinear_arith)
        requires
            0xff_ffff * (qs * o) <= 0x100_0001 * (window * o),
            o > 0,
    ;
    assert(0xff_ffff * window <= 0x100_0001 * qs) by (nonlinear_arith)
        requires
            0xff_ffff * (window * o) <= 0x100_0001 * (qs * o),
            o > 0,
    ;
}

/// A picture is placed in its window as the mode asks for.
pub proof fn law_fit_places_picture(mode: FitMode, window: (nat, nat), picture: (u32, u32))
    requires
        sides_match_up(window, picture),
    ensures
        placed(mode, window, picture, fit_factors(mode, window, picture), closeness(picture)),
{
    if picture.0 < 0x100_0000 && picture.1 < 0x100_0000 {
        lemma_whole_exact(picture.0 as nat);
        lemma_whole_exact(picture.1 as nat);
        lemma_factor_error(window.0, picture.0);
        lemma_factor_error(window.1, picture.1);
    } else {
        lemma_side_met(window.0, picture.0);
        lemma_side_met(window.1, picture.1);
    }
    let (x, y) = side_factors(window, picture);
    let (w, h) = picture;
    if x <= y {
        assert(x * h <= y * h && x * w <= y * w) by (nonlinear_arith)
            requires
                x <= y,
        ;
    } else {
        assert(y * h <= x * h && y * w <= x * w) by (nonlinear_arith)
            requires
                y <= x,
        ;
    }
}

proof fn lemma_window_of(windows: Seq<WindowSize>, index: usize, k: int, n: nat)
    requires
        0 <= k < n <= windows.len(),
        windows[k].tag.0 == index,
        forall|j: int| k < j < n ==> (#[trigger] windows[j]).tag.0 != index,
    ensures
        window_of(windows, index, n) == Some(windows[k]),
    decreases n,
{
    if n - 1 > k {
        lemma_window_of(windows, index, k, (n - 1) as nat);
    }
}

proof fn lemma_no_window(windows: Seq<WindowSize>, index: usize, n: nat)
    requires
        n <= windows.len(),
        forall|j: int| 0 <= j < n ==> (#[trigger] windows[j]).tag.0 != index,
    ensures
        window_of(windows, index, n) is None,
    decreases n,
{
    if n > 0 {
        lemma_no_window(windows, index, (n - 1) as nat);
    }
}

proof fn lemma_slot_of<E, V, H>(
    slots: Seq<MediaSlot<E, V, H>>,
    index: usize,
    k: int,
    n: nat,
)
    requires
        0 <= k < n <= slots.len(),
        slots[k].monitor_index == index,
        forall|j: int| k < j < n ==> (#[trigger] slots[j]).monitor_index != index,
    ensures
        slot_of(slots, index, n) == Some(slots[k]),
    decreases n,
{
    if n - 1 > k {
        lemma_slot_of(slots, index, k, (n - 1) as nat);
    }
}

proof fn lemma_no_slot<E, V, H>(slots: Seq<MediaSlot<E, V, H>>, index: usize, n: nat)
    requires
        n <= slots.len(),
        forall|j: int| 0 <= j < n ==> (#[trigger] slots[j]).monitor_index != index,
    ensures
        slot_of(slots, index, n) is None,
    decreases n,
{
    if n > 0 {
        lemma_no_slot(slots, index, (n - 1) as nat);
    }
}

/// A background with a picture is placed in the window of its wallpaper, the last one
/// that has its index, as the last slot with that index asks for.
pub proof fn law_background_fits_its_window<E, V, H>(
    windows: Seq<WindowSize>,
    slots: Seq<MediaSlot<E, V, H>>,
    tag: WallpaperFor,
    picture: (u32, u32),
    k: int,
    m: int,
)
    requires
        0 <= k < windows.len(),
        windows[k].tag.0 == tag.0,
        forall|j: int| k < j < windows.len() ==> (#[trigger] windows[j]).tag.0 != tag.0,
        0 <= m < slots.len(),
        slots[m].monitor_index == tag.0,
        forall|j: int| m < j < slots.len() ==> (#[trigger] slots[j]).monitor_index != tag.0,
        sides_match_up((windows[k].width.units(), windows[k].height.units()), picture),
    ensures
        background_factors(windows, slots, tag, Some(picture)) is Some,
        placed(
            slots[m].fit_mode,
            (windows[k].width.units(), windows[k].height.units()),
            picture,
            background_factors(windows, slots, tag, Some(picture))->0,
            closeness(picture),
        ),
{
    let window = (windows[k].width.units(), windows[k].height.units());
    lemma_window_of(windows, tag.0, k, windows.len());
    lemma_slot_of(slots, tag.0, m, slots.len());
    law_fit_places_picture(slots[m].fit_mode, window, picture);
}

/// A background whose wallpaper has no slot is contained in its window.
pub proof fn law_background_without_slot_is_contained<E, V, H>(
    windows: Seq<WindowSize>,
    slots: Seq<MediaSlot<E, V, H>>,
    tag: WallpaperFor,
    picture: (u32, u32),
    k: int,
)
    requires
        0 <= k < windows.len(),
        windows[k].tag.0 == tag.0,
        forall|j: int| k < j < windows.len() ==> (#[trigger] windows[j]).tag.0 != tag.0,
        forall|j: int| 0 <= j < slots.len() ==> (#[trigger] slots[j]).monitor_index != tag.0,
        sides_match_up((windows[k].width.units(), windows[k].height.units()), picture),
    ensures
        background_factors(windows, slots, tag, Some(picture)) is Some,
        placed(
            FitMode::Contain,
            (windows[k].width.units(), windows[k].height.units()),
            picture,
            background_factors(windows, slots, tag, Some(picture))->0,
            closeness(picture),
        ),
{
    let window = (windows[k].width.units(), windows[k].height.units());
    lemma_window_of(windows, tag.0, k, windows.len());
    lemma_no_slot(slots, tag.0, slots.len());
    law_fit_places_picture(FitMode::Contain, window, picture);
}

/// A background keeps its factors just where its wallpaper has no window, or its
/// picture has no pixels. One without a picture gets factors of one.
pub proof fn law_background_without_window_stays<E, V, H>(
    windows: Seq<WindowSize>,
    slots: Seq<MediaSlot<E, V, H>>,
    tag: WallpaperFor,
    picture: Option<(u32, u32)>,
)
    ensures
        background_factors(windows, slots, tag, picture) is None <==> {
            ||| forall|j: int| 0 <= j < windows.len() ==> (#[trigger] windows[j]).tag.0 != tag.0
            ||| match picture {
                Some((width, height)) => width == 0 || height == 0,
                None => false,
            }
        },
        picture is None && background_factors(windows, slots, tag, picture) is Some ==>
            background_factors(windows, slots, tag, picture) == Some((pow2(149), pow2(149))),
{
    if forall|j: int| 0 <= j < windows.len() ==> (#[trigger] windows[j]).tag.0 != tag.0 {
        lemma_no_window(windows, tag.0, windows.len());
    } else if window_of(windows, tag.0, windows.len()) is None {
        lemma_window_is_found(windows, tag.0, windows.len());
    }
}

proof fn lemma_window_is_found(windows: Seq<WindowSize>, index: usize, n: nat)
    requires
        n <= windows.len(),
        window_of(windows, index, n) is None,
    ensures
        forall|j: int| 0 <= j < n ==> (#[trigger] windows[j]).tag.0 != index,
    decreases n,
{
    if n > 0 {
        lemma_window_is_found(windows, index, (n - 1) as nat);
    }
}

/// A window without width or height gives a factor of nothing to that side.
pub proof fn law_window_without_side_hides_picture(window: (nat, nat), picture: (u32, u32))
    requires
        picture.0 > 0,
        picture.1 > 0,
    ensures
        window.0 == 0 ==> fit_factors(FitMode::Stretch, window, picture).0 == 0,
        window.1 == 0 ==> fit_factors(FitMode::Stretch, window, picture).1 == 0,
        window.0 == 0 || window.1 == 0 ==> fit_factors(FitMode::Contain, window, picture) == (
            0nat,
            0nat,
        ),
{
    let a = single_of(picture.0 as nat);
    let b = single_of(picture.1 as nat);
    lemma_pow2_pos(149);
    lemma_whole_range(picture.0);
    lemma_whole_range(picture.1);
    lemma_nearest_exact(0x80_0000, 0, 149, a);
    lemma_nearest_exact(0x80_0000, 0, 149, b);
    assert(0 * pow2(149) * a == 0 && 0 * pow2(149) * b == 0 && 0 * one() == 0)
        by (nonlinear_arith);
}

/// A larger window never makes a picture smaller, in any mode.
pub proof fn law_larger_window_scales_no_less(
    mode: FitMode,
    small: (nat, nat),
    large: (nat, nat),
    picture: (u32, u32),
)
    requires
        picture.0 > 0,
        picture.1 > 0,
        small.0 <= large.0,
        small.1 <= large.1,
    ensures
        fit_factors(mode, small, picture).0 <= fit_factors(mode, large, picture).0,
        fit_factors(mode, small, picture).1 <= fit_factors(mode, large, picture).1,
{
    lemma_factor_grows(small.0, large.0, picture.0);
    lemma_factor_grows(small.1, large.1, picture.1);
}

proof fn lemma_factor_grows(small: nat, large: nat, side: u32)
    requires
        side > 0,
        small <= large,
    ensures
        single_div(small, single_of(side as nat)) <= single_div(large, single_of(side as nat)),
{
    let o = one();
    lemma_pow2_pos(149);
    lemma_whole_range(side);
    assert(small * o <= large * o) by (nonlinear_arith)
        requires
            small <= large,
    ;
    lemma_nearest_monotone(0x80_0000, small * o, large * o, single_of(side as nat));
}

/// A camera shows the background colour of the last slot that has its wallpaper's
/// index, and without such a slot it has none to show.
pub proof fn law_camera_shows_its_slot<E, V, H>(
    slots: &Vec<MediaSlot<E, V, H>>,
    tag: WallpaperFor,
    color: Option<Srgb>,
    m: int,
)
    requires
        call_ensures(camera_color::<E, V, H>, (slots, tag), color),
        -1 <= m < slots@.len(),
        m >= 0 ==> slots@[m].monitor_index == tag.0,
        forall|j: int| m < j < slots@.len() ==> (#[trigger] slots@[j]).monitor_index != tag.0,
    ensures
        color == if m >= 0 {
            Some(slots@[m].background_color)
        } else {
            None
        },
{
    if m >= 0 {
        lemma_slot_of(slots@, tag.0, m, slots@.len());
    } else {
        lemma_no_slot(slots@, tag.0, slots@.len());
    }
}

/// The factors that come out for a background place its picture in the last window of
/// its wallpaper, as the last slot of the wallpaper asks for.
pub proof fn law_background_is_scaled_to_its_window<E, V, H>(
    windows: Vec<WindowSize>,
    slots: Vec<MediaSlot<E, V, H>>,
    tag: WallpaperFor,
    picture: (u32, u32),
    scale: Option<(Single, Single)>,
    k: int,
    m: int,
)
    requires
        call_ensures(
            background_scale::<E, V, H>,
            (&windows, &slots, tag, Some(picture)),
            scale,
        ),
        0 <= k < windows@.len(),
        windows@[k].tag.0 == tag.0,
        forall|j: int| k < j < windows@.len() ==> (#[trigger] windows@[j]).tag.0 != tag.0,
        0 <= m < slots@.len(),
        slots@[m].monitor_index == tag.0,
        forall|j: int| m < j < slots@.len() ==> (#[trigger] slots@[j]).monitor_index != tag.0,
        sides_match_up((windows@[k].width.units(), windows@[k].height.units()), picture),
    ensures
        match scale {
            Some((x, y)) => placed(
                slots@[m].fit_mode,
                (windows@[k].width.units(), windows@[k].height.units()),
                picture,
                (x.units(), y.units()),
                closeness(picture),
            ),
            None => false,
        },
{
    law_background_fits_its_window(windows@, slots@, tag, picture, k, m);
}

/// The factors that come out for a picture and a window place the picture in the window.
pub proof fn law_picture_is_scaled_to_its_window(
    mode: FitMode,
    width: Single,
    height: Single,
    picture: (u32, u32),
    scale: (Single, Single),
)
    requires
        call_ensures(fit_scale, (mode, width, height, picture), scale),
        sides_match_up((width.units(), height.units()), picture),
    ensures
        placed(
            mode,
            (width.units(), height.units()),
            picture,
            (scale.0.units(), scale.1.units()),
            closeness(picture),
        ),
{
    law_fit_places_picture(mode, (width.units(), height.units()), picture);
}

} // verus!
