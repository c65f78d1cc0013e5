//! Monitors, and the windows that cover them.

use vstd::prelude::*;
use vstd::string::*;

use crate::color::{black, Srgb};
use crate::config::name_text;
use crate::double::{physical_side, to_physical};
use crate::listing::{lemma_places, lemma_places_len, places};
use crate::media::{FitMode, MediaSlot, WallpaperFor, WallpaperMedia};
use crate::text::{decimal, push_decimal};

verus! {

/// A monitor that is connected. `E` identifies it.
pub struct MonitorInfo<E> {
    pub entity: E,
    pub name: Option<String>,
    pub physical_width: u32,
    pub physical_height: u32,
    pub physical_position: (i32, i32),
    /// The bit pattern of its physical pixels to a logical one, in double
    /// precision.
    pub scale_factor: u64,
    pub primary: bool,
}

/// The first primary monitor from `from` on.
pub open spec fn first_primary<E>(monitors: Seq<MonitorInfo<E>>, from: nat) -> Option<nat>
    decreases monitors.len() - from,
{
    if from >= monitors.len() {
        None
    } else if monitors[from as int].primary {
        Some(from)
    } else {
        first_primary(monitors, from + 1)
    }
}

fn find_primary<E>(monitors: &Vec<MonitorInfo<E>>) -> (r: Option<usize>)
    ensures
        match r {
            Some(i) => first_primary(monitors@, 0) == Some(i as nat) && i < monitors@.len(),
            None => first_primary(monitors@, 0) is None,
        },
{
    let mut i: usize = 0;
    while i < monitors.len()
        invariant
            i <= monitors@.len(),
            first_primary(monitors@, 0) == first_primary(monitors@, i as nat),
        decreases monitors@.len() - i,
    {
        if monitors[i].primary {
            return Some(i);
        }
        i = i + 1;
    }
    None
}

/// The monitor on which a single window goes: the primary one, or else the first.
pub open spec fn main_monitor<E>(monitors: Seq<MonitorInfo<E>>) -> Option<nat> {
    if first_primary(monitors, 0) is Some {
        first_primary(monitors, 0)
    } else if monitors.len() > 0 {
        Some(0)
    } else {
        None
    }
}

/// Picks the monitor on which a single window goes.
pub fn pick_monitor<E>(monitors: &Vec<MonitorInfo<E>>) -> (r: Option<usize>)
    ensures
        match r {
            Some(i) => main_monitor(monitors@) == Some(i as nat) && i < monitors@.len(),
            None => main_monitor(monitors@) is None,
        },
{
    let primary = find_primary(monitors);
    if primary.is_some() {
        primary
    } else if monitors.len() > 0 {
        Some(0)
    } else {
        None
    }
}

/// The size and place of a window that covers a monitor.
#[derive(Clone, Copy, Debug, PartialEq, Eq)]
pub struct WindowFit {
    pub size: (u32, u32),
    pub position: Option<(i32, i32)>,
}

/// Where the first window goes: over the whole of the main monitor.
pub fn fit_to_primary_monitor<E>(monitors: &Vec<MonitorInfo<E>>) -> (r: Option<WindowFit>)
    ensures
        match main_monitor(monitors@) {
            Some(i) => r == Some(
                (WindowFit {
                    size: (monitors@[i as int].physical_width, monitors@[i as int].physical_height),
                    position: Some(monitors@[i as int].physical_position),
                }),
            ),
            None => r is None,
        },
{
    match pick_monitor(monitors) {
        Some(i) => Some(
            WindowFit {
                size: (monitors[i].physical_width, monitors[i].physical_height),
                position: Some(monitors[i].physical_position),
            },
        ),
        None => None,
    }
}

/// The monitors among the first `n` that are not primary, in order.
pub open spec fn secondary_among<E>(monitors: Seq<MonitorInfo<E>>, n: nat) -> Seq<usize> {
    places(|i: int| !monitors[i].primary, n)
}

/// The order in which monitors get wallpapers: the primary one first.
pub open spec fn wallpaper_order<E>(monitors: Seq<MonitorInfo<E>>) -> Seq<usize> {
    let rest = secondary_among(monitors, monitors.len());
    match first_primary(monitors, 0) {
        Some(p) => seq![p as usize] + rest,
        None => rest,
    }
}

/// The order in which monitors get wallpapers.
pub fn order_monitors<E>(monitors: &Vec<MonitorInfo<E>>) -> (r: Vec<usize>)
    ensures
        r@ == wallpaper_order(monitors@),
        forall|i: int| 0 <= i < r@.len() ==> #[trigger] r@[i] < monitors@.len(),
{
    let mut r: Vec<usize> = Vec::new();
    if let Some(p) = find_primary(monitors) {
        r.push(p);
    }
    let ghost head = r@;
    let mut i: usize = 0;
    while i < monitors.len()
        invariant
            i <= monitors@.len(),
            r@ == head + secondary_among(monitors@, i as nat),
            forall|j: int| 0 <= j < r@.len() ==> #[trigger] r@[j] < monitors@.len(),
        decreases monitors@.len() - i,
    {
        if !monitors[i].primary {
            r.push(i);
            assert(r@ =~= head + secondary_among(monitors@, (i + 1) as nat));
        }
        i = i + 1;
    }
    assert(r@ =~= wallpaper_order(monitors@));
    r
}

/// One wallpaper that is to be set up.
pub struct WallpaperPlan {
    /// Its number, which its window, its camera and its background carry.
    pub tag: WallpaperFor,
    /// Its monitor, by its place in the list.
    pub monitor: usize,
    /// It takes the window that is there already instead of a new one.
    pub reuses_window: bool,
    /// What its new window is called.
    pub title: String,
    /// The render layer that its camera and its background share.
    pub layer: usize,
    /// Its camera's place in the order of drawing, before the controls.
    pub camera_order: isize,
}

/// The plan for the wallpaper of number `index` on a monitor.
pub open spec fn plans(plan: WallpaperPlan, index: nat, monitor: usize) -> bool {
    &&& plan.tag.0 == index
    &&& plan.monitor == monitor
    &&& plan.reuses_window == (index == 0)
    &&& plan.title@ == "Wallpaper "@ + decimal(index)
    &&& plan.layer == index + 1
    &&& plan.camera_order == -index - 10
}

/// A slot that has shown nothing yet.
pub open spec fn fresh_slot<E, V, H>(
    slot: MediaSlot<E, V, H>,
    index: nat,
    monitor: MonitorInfo<E>,
) -> bool {
    &&& slot.monitor_index == index
    &&& slot.monitor_entity == monitor.entity
    &&& name_text(slot.monitor_name) == name_text(monitor.name)
    &&& slot.target_physical == (monitor.physical_width, monitor.physical_height)
    &&& slot.media_path is None
    &&& slot.fit_mode == FitMode::Contain
    &&& !slot.dirty
    &&& slot.video is None
    &&& slot.handle is None
    &&& slot.dims is None
    &&& slot.background_color == black()
}

/// Plans a wallpaper for each monitor and gives each a slot. The window that is
/// there already goes to the first of them.
pub fn plan_wallpapers<E: Copy, V, H>(monitors: &Vec<MonitorInfo<E>>) -> (r: (
    Vec<WallpaperPlan>,
    WallpaperMedia<E, V, H>,
))
    requires
        monitors@.len() <= isize::MAX - 11,
    ensures
        r.0@.len() == wallpaper_order(monitors@).len(),
        r.1.slots@.len() == wallpaper_order(monitors@).len(),
        r.1.numbered(),
        forall|i: int|
            0 <= i < r.0@.len() ==> plans(#[trigger] r.0@[i], i as nat, wallpaper_order(monitors@)[i]),
        forall|i: int|
            0 <= i < r.1.slots@.len() ==> fresh_slot(
                #[trigger] r.1.slots@[i],
                i as nat,
                monitors@[wallpaper_order(monitors@)[i] as int],
            ),
{
    let order = order_monitors(monitors);
    proof {
        lemma_places_len(|i: int| !monitors@[i].primary, monitors@.len());
    }
    let mut list: Vec<WallpaperPlan> = Vec::new();
    let mut slots: Vec<MediaSlot<E, V, H>> = Vec::new();
    let mut i: usize = 0;
    while i < order.len()
        invariant
            i <= order@.len(),
            order@.len() <= isize::MAX - 10,
            order@ == wallpaper_order(monitors@),
            forall|j: int| 0 <= j < order@.len() ==> #[trigger] order@[j] < monitors@.len(),
            list@.len() == i,
            slots@.len() == i,
            forall|j: int| 0 <= j < i ==> plans(#[trigger] list@[j], j as nat, order@[j]),
            forall|j: int|
                0 <= j < i ==> fresh_slot(
                    #[trigger] slots@[j],
                    j as nat,
                    monitors@[order@[j] as int],
                ),
        decreases order@.len() - i,
    {
        let at: usize = order[i];
        let monitor = &monitors[at];
        let mut title = String::new();
        title.append("Wallpaper ");
        push_decimal(&mut title, i);
        assert(title@ =~= "Wallpaper "@ + decimal(i as nat));
        let camera_order: isize = -(i as isize) - 10;
        list.push(
            WallpaperPlan {
                tag: WallpaperFor(i),
                monitor: at,
                reuses_window: i == 0,
                title,
                layer: i + 1,
                camera_order,
            },
        );
        let monitor_name: Option<String> = match &monitor.name {
            Some(n) => Some(n.clone()),
            None => None,
        };
        slots.push(
            MediaSlot {
                monitor_index: i,
                monitor_entity: monitor.entity,
                monitor_name,
                target_physical: (monitor.physical_width, monitor.physical_height),
                media_path: None,
                fit_mode: FitMode::default(),
                dirty: false,
                video: None,
                handle: None,
                dims: None,
                background_color: Srgb::black(),
            },
        );
        i = i + 1;
    }
    (list, WallpaperMedia { slots })
}

proof fn lemma_first_primary<E>(monitors: Seq<MonitorInfo<E>>, from: nat)
    ensures
        match first_primary(monitors, from) {
            Some(p) => from <= p < monitors.len() && monitors[p as int].primary,
            None => forall|i: int|
                from <= i < monitors.len() ==> !(#[trigger] monitors[i]).primary,
        },
    decreases monitors.len() - from,
{
    if from < monitors.len() && !monitors[from as int].primary {
        lemma_first_primary(monitors, from + 1);
    }
}

/// The primary monitor gets the first wallpaper.
pub proof fn law_primary_comes_first<E>(monitors: Seq<MonitorInfo<E>>, primary: int)
    requires
        monitors.len() <= usize::MAX,
        0 <= primary < monitors.len(),
        monitors[primary].primary,
    ensures
        wallpaper_order(monitors).len() > 0,
        monitors[wallpaper_order(monitors)[0] as int].primary,
{
    lemma_first_primary(monitors, 0);
}

/// Where no two monitors are primary, each gets one wallpaper.
pub proof fn law_each_monitor_once<E>(monitors: Seq<MonitorInfo<E>>)
    requires
        monitors.len() <= usize::MAX,
        forall|i: int, j: int|
            0 <= i < monitors.len() && 0 <= j < monitors.len() && (#[trigger] monitors[i]).primary
                && (#[trigger] monitors[j]).primary ==> i == j,
    ensures
        wallpaper_order(monitors).no_duplicates(),
        forall|k: usize| #[trigger] wallpaper_order(monitors).contains(k) <==> k < monitors.len(),
{
    lemma_places(|i: int| !monitors[i].primary, monitors.len());
    lemma_first_primary(monitors, 0);
    let rest = secondary_among(monitors, monitors.len());
    match first_primary(monitors, 0) {
        Some(p) => {
            let list = seq![p as usize] + rest;
            assert(!rest.contains(p as usize));
            assert forall|k: usize| #[trigger] list.contains(k) <==> k < monitors.len() by {
                if k == p {
                    assert(list[0] == k);
                }
                if rest.contains(k) {
                    let at = choose|at: int| 0 <= at < rest.len() && rest[at] == k;
                    assert(list[at + 1] == k);
                }
                if list.contains(k) {
                    let at = choose|at: int| 0 <= at < list.len() && list[at] == k;
                    if at > 0 {
                        assert(rest[at - 1] == k);
                        assert(rest.contains(k));
                    }
                }
            }
            assert forall|i: int, j: int|
                0 <= i < list.len() && 0 <= j < list.len() && i != j implies list[i] != list[j] by {
                if i > 0 {
                    assert(list[i] == rest[i - 1]);
                    assert(rest.contains(list[i]));
                }
                if j > 0 {
                    assert(list[j] == rest[j - 1]);
                    assert(rest.contains(list[j]));
                }
            }
        },
        None => {},
    }
}

/// The size and place of a wallpaper's window: those of its monitor.
pub open spec fn window_fit<E, V, H>(
    slots: Seq<MediaSlot<E, V, H>>,
    tag: WallpaperFor,
    monitor_position: Option<(i32, i32)>,
) -> Option<WindowFit> {
    if tag.0 < slots.len() {
        Some(
            WindowFit {
                size: slots[tag.0 as int].target_physical,
                position: monitor_position,
            },
        )
    } else {
        None
    }
}

/// Fits a wallpaper's window to its monitor. The position is the monitor's, if it
/// is still connected; a window with no slot stays as it is.
pub fn fit_wallpaper_window<E, V, H>(
    media: &WallpaperMedia<E, V, H>,
    tag: WallpaperFor,
    monitor_position: Option<(i32, i32)>,
) -> (r: Option<WindowFit>)
    ensures
        r == window_fit(media.slots@, tag, monitor_position),
{
    if tag.0 < media.slots.len() {
        Some(
            WindowFit {
                size: media.slots[tag.0].target_physical,
                position: monitor_position,
            },
        )
    } else {
        None
    }
}

/// There are slots, and each has its window.
pub open spec fn all_windows_exist(slots: usize, created: usize) -> bool {
    slots > 0 && created >= slots
}

/// Whether windows were placed by hand.
#[derive(Clone, Copy, Debug, PartialEq, Eq, Structural)]
pub struct Placement {
    pub done: bool,
}

impl Placement {
    /// Before any window was placed.
    pub fn new() -> (r: Placement)
        ensures
            !r.done,
    {
        Placement { done: false }
    }

    /// Whether windows are to be placed by hand now: once, as soon as each slot has
    /// its window.
    pub fn poll(&mut self, slots: usize, created: usize) -> (r: bool)
        ensures
            r == (!old(self).done && all_windows_exist(slots, created)),
            final(self).done == (old(self).done || r),
    {
        if self.done || slots == 0 || created < slots {
            return false;
        }
        self.done = true;
        true
    }
}

/// Windows were placed before the `n`th of some calls, each of which finds a number
/// of slots and of windows.
pub open spec fn placed_before(calls: Seq<(usize, usize)>, n: nat) -> bool
    decreases n,
{
    n > 0 && (placed_before(calls, (n - 1) as nat) || all_windows_exist(
        calls[n - 1].0,
        calls[n - 1].1,
    ))
}

/// Windows are placed at the `n`th of some calls.
pub open spec fn places_at(calls: Seq<(usize, usize)>, n: nat) -> bool {
    !placed_before(calls, n) && all_windows_exist(calls[n as int].0, calls[n as int].1)
}

/// Windows are placed at the first call at which all of them exist, not before and
/// never again.
pub proof fn law_windows_are_placed_once(calls: Seq<(usize, usize)>, first: nat, n: nat)
    requires
        first < calls.len(),
        n < calls.len(),
        all_windows_exist(calls[first as int].0, calls[first as int].1),
        forall|i: int|
            0 <= i < first ==> !all_windows_exist((#[trigger] calls[i]).0, calls[i].1),
    ensures
        places_at(calls, n) <==> n == first,
{
    lemma_placed_before(calls, first, n);
}

proof fn lemma_placed_before(calls: Seq<(usize, usize)>, first: nat, n: nat)
    requires
        first < calls.len(),
        n <= calls.len(),
        all_windows_exist(calls[first as int].0, calls[first as int].1),
        forall|i: int|
            0 <= i < first ==> !all_windows_exist((#[trigger] calls[i]).0, calls[i].1),
    ensures
        placed_before(calls, n) <==> n > first,
    decreases n,
{
    if n > 0 {
        lemma_placed_before(calls, first, (n - 1) as nat);
    }
}

/// A poll is one of a row of calls: it places windows just when the calls before it
/// have not.
pub proof fn law_poll_follows_calls(calls: Seq<(usize, usize)>, n: nat, before: Placement)
    requires
        n < calls.len(),
        before.done == placed_before(calls, n),
    ensures
        places_at(calls, n) == (!before.done && all_windows_exist(
            calls[n as int].0,
            calls[n as int].1,
        )),
        placed_before(calls, n + 1) == (before.done || places_at(calls, n)),
{
}

/// The slot of a window that is placed by hand: any but the first.
pub fn slot_to_place<E, V, H>(media: &WallpaperMedia<E, V, H>, tag: WallpaperFor) -> (r: Option<
    usize,
>)
    ensures
        r == if 0 < tag.0 < media.slots@.len() {
            Some(tag.0)
        } else {
            None
        },
{
    if tag.0 != 0 && tag.0 < media.slots.len() {
        Some(tag.0)
    } else {
        None
    }
}

/// Where a window is placed by hand: over the whole of its monitor. The window of the
/// first wallpaper, and one with no slot or no monitor, is not placed.
pub open spec fn hand_fit<E, V, H, M>(
    slots: Seq<MediaSlot<E, V, H>>,
    tag: WallpaperFor,
    monitor: Option<MonitorInfo<M>>,
) -> Option<WindowFit> {
    match monitor {
        Some(m) => if 0 < tag.0 < slots.len() {
            Some(
                WindowFit {
                    size: (m.physical_width, m.physical_height),
                    position: Some(m.physical_position),
                },
            )
        } else {
            None
        },
        None => None,
    }
}

/// Decides where a window is placed by hand. `monitor` is the one of its slot, if it
/// is still connected.
pub fn fit_by_hand<E, V, H, M>(
    media: &WallpaperMedia<E, V, H>,
    tag: WallpaperFor,
    monitor: &Option<MonitorInfo<M>>,
) -> (r: Option<WindowFit>)
    ensures
        r == hand_fit(media.slots@, tag, *monitor),
{
    match (slot_to_place(media, tag), monitor) {
        (Some(_), Some(m)) => Some(
            WindowFit {
                size: (m.physical_width, m.physical_height),
                position: Some(m.physical_position),
            },
        ),
        _ => None,
    }
}

/// A screen, as the desktop describes it: bit patterns of its size in points and
/// of the pixels in a point, in double precision.
#[derive(Clone, Copy, Debug, PartialEq, Eq, Structural)]
pub struct ScreenInfo {
    pub width: u64,
    pub height: u64,
    pub backing_scale: u64,
}

/// A screen is there and has a size, in physical pixels.
pub open spec fn has_size(screen: Option<ScreenInfo>, size: (u32, u32)) -> bool {
    match screen {
        Some(s) => physical_side(s.width, s.backing_scale) == size.0 && physical_side(
            s.height,
            s.backing_scale,
        ) == size.1,
        None => false,
    }
}

/// The first screen of a size among those found, of which some may be gone.
pub open spec fn first_screen(
    screens: Seq<Option<ScreenInfo>>,
    size: (u32, u32),
    from: nat,
) -> Option<nat>
    decreases screens.len() - from,
{
    if from >= screens.len() {
        None
    } else if has_size(screens[from as int], size) {
        Some(from)
    } else {
        first_screen(screens, size, from + 1)
    }
}

/// What is said when no screen has a size.
pub open spec fn no_screen_text(size: (u32, u32)) -> Seq<char> {
    "no NSScreen matched "@ + decimal(size.0 as nat) + "x"@ + decimal(size.1 as nat) + " physical"@
}

/// Finds the first screen of a size, in physical pixels.
pub fn find_screen(screens: &Vec<Option<ScreenInfo>>, size: (u32, u32)) -> (r: Result<
    usize,
    String,
>)
    ensures
        match r {
            Ok(i) => first_screen(screens@, size, 0) == Some(i as nat) && i < screens@.len(),
            Err(e) => first_screen(screens@, size, 0) is None && e@ == no_screen_text(size),
        },
{
    let mut i: usize = 0;
    while i < screens.len()
        invariant
            i <= screens@.len(),
            first_screen(screens@, size, 0) == first_screen(screens@, size, i as nat),
        decreases screens@.len() - i,
    {
        if let Some(s) = screens[i] {
            let w: u32 = to_physical(s.width, s.backing_scale);
            let h: u32 = to_physical(s.height, s.backing_scale);
            if w == size.0 && h == size.1 {
                return Ok(i);
            }
        }
        i = i + 1;
    }
    let mut text = String::new();
    text.append("no NSScreen matched ");
    push_decimal(&mut text, size.0 as usize);
    text.append("x");
    push_decimal(&mut text, size.1 as usize);
    text.append(" physical");
    assert(text@ =~= no_screen_text(size));
    Err(text)
}

/// Waits for windows to settle before it lets their sizes be logged, once.
#[derive(Clone, Copy, Debug, PartialEq, Eq, Structural)]
pub struct Diagnosis {
    pub done: bool,
    pub ticks: u32,
}

/// How many frames windows are given to settle.
pub const SETTLING_TICKS: u32 = 30;

impl Diagnosis {
    /// It is either waiting or done.
    pub open spec fn valid(self) -> bool {
        if self.done {
            self.ticks == SETTLING_TICKS
        } else {
            self.ticks < SETTLING_TICKS
        }
    }

    /// Before the first frame.
    pub fn new() -> (r: Diagnosis)
        ensures
            r.valid(),
            !r.done,
            r.ticks == 0,
    {
        Diagnosis { done: false, ticks: 0 }
    }

    /// Counts a frame. The result says whether the sizes are logged now.
    pub fn tick(&mut self) -> (r: bool)
        requires
            old(self).valid(),
        ensures
            final(self).valid(),
            old(self).done ==> *final(self) == *old(self),
            !old(self).done ==> final(self).ticks == old(self).ticks + 1,
            r == (!old(self).done && final(self).done),
    {
        if self.done {
            return false;
        }
        self.ticks = self.ticks + 1;
        if self.ticks < SETTLING_TICKS {
            return false;
        }
        self.done = true;
        true
    }
}

/// Wallpapers have render layers of their own, none of which is the one that
/// everything else is drawn on, and their cameras draw one after the other, before
/// the one of the controls, whose place is one.
pub proof fn law_wallpapers_are_drawn_apart(
    first: WallpaperPlan,
    second: WallpaperPlan,
    i: nat,
    j: nat,
    a: usize,
    b: usize,
)
    requires
        plans(first, i, a),
        plans(second, j, b),
        i != j,
    ensures
        first.layer != second.layer,
        first.layer != 0,
        first.camera_order != second.camera_order,
        first.camera_order < 1,
{
}

/// The main monitor is the first primary one, or the first of all where none is
/// primary; there is one as soon as there is any monitor.
pub proof fn law_main_monitor<E>(monitors: Seq<MonitorInfo<E>>)
    ensures
        main_monitor(monitors) is None <==> monitors.len() == 0,
        main_monitor(monitors) matches Some(m) ==> {
            &&& m < monitors.len()
            &&& forall|j: int| 0 <= j < m ==> !(#[trigger] monitors[j]).primary
            &&& monitors[m as int].primary || m == 0 && forall|j: int|
                0 <= j < monitors.len() ==> !(#[trigger] monitors[j]).primary
        },
{
    lemma_first_primary(monitors, 0);
    lemma_none_before_first_primary(monitors, 0);
}

proof fn lemma_none_before_first_primary<E>(monitors: Seq<MonitorInfo<E>>, from: nat)
    ensures
        first_primary(monitors, from) matches Some(p) ==> forall|j: int|
            from <= j < p ==> !(#[trigger] monitors[j]).primary,
    decreases monitors.len() - from,
{
    if from < monitors.len() && !monitors[from as int].primary {
        lemma_none_before_first_primary(monitors, from + 1);
    }
}

/// Behind the first wallpaper monitors come in the order in which they are listed,
/// and none of them is primary. Where no monitor is primary, that holds of all.
pub proof fn law_wallpapers_keep_the_order<E>(monitors: Seq<MonitorInfo<E>>, i: int, j: int)
    requires
        monitors.len() <= usize::MAX,
        0 <= i < j < wallpaper_order(monitors).len(),
    ensures
        wallpaper_order(monitors)[j] < monitors.len(),
        !monitors[wallpaper_order(monitors)[j] as int].primary,
        i > 0 || !monitors[wallpaper_order(monitors)[0] as int].primary ==> wallpaper_order(
            monitors,
        )[i] < wallpaper_order(monitors)[j],
{
    lemma_places(|k: int| !monitors[k].primary, monitors.len());
    lemma_first_primary(monitors, 0);
    let rest = secondary_among(monitors, monitors.len());
    match first_primary(monitors, 0) {
        Some(p) => {
            assert(wallpaper_order(monitors)[j] == rest[j - 1]);
            assert(rest.contains(rest[j - 1]));
            if i > 0 {
                assert(wallpaper_order(monitors)[i] == rest[i - 1]);
            }
        },
        None => {
            assert(rest.contains(rest[j]));
        },
    }
}

/// The window of a wallpaper gets the size of its slot and just the position that its
/// monitor has, on whichever side of the others that stands. Windows of monitors at
/// different positions get different ones.
pub proof fn law_window_covers_its_monitor<E, V, H>(
    slots: Seq<MediaSlot<E, V, H>>,
    index: usize,
    position: Option<(i32, i32)>,
    other: Option<(i32, i32)>,
)
    ensures
        window_fit(slots, WallpaperFor(index), position) is Some <==> index < slots.len(),
        window_fit(slots, WallpaperFor(index), position) matches Some(fit) ==> {
            &&& fit.size.0 == slots[index as int].target_physical.0
            &&& fit.size.1 == slots[index as int].target_physical.1
            &&& fit.position == position
            &&& position != other ==> window_fit(slots, WallpaperFor(index), other)->0.position
                != fit.position
        },
{
}

/// Once wallpapers are planned, the rectangle of each window is the one of its
/// monitor.
pub proof fn law_planned_window_covers_its_monitor<E, V, H>(
    monitors: Seq<MonitorInfo<E>>,
    slots: Seq<MediaSlot<E, V, H>>,
    plan: WallpaperPlan,
    i: nat,
    at: usize,
)
    requires
        at < monitors.len(),
        i < slots.len(),
        plans(plan, i, at),
        fresh_slot(slots[i as int], i, monitors[at as int]),
    ensures
        ({
            let monitor = monitors[at as int];
            let fit = window_fit(slots, plan.tag, Some(monitor.physical_position));
            &&& fit is Some
            &&& fit->0.size == (monitor.physical_width, monitor.physical_height)
            &&& fit->0.position == Some(monitor.physical_position)
        }),
{
}

/// The plan and the slot of a wallpaper carry its number, and the slot is the one of
/// the monitor of the plan, with nothing to show yet.
pub proof fn law_plans_and_slots_belong_together<E, V, H>(
    plan: WallpaperPlan,
    slot: MediaSlot<E, V, H>,
    i: nat,
    at: usize,
    monitor: MonitorInfo<E>,
)
    requires
        plans(plan, i, at),
        fresh_slot(slot, i, monitor),
    ensures
        plan.tag.0 == slot.monitor_index == i,
        plan.monitor == at,
        plan.reuses_window <==> i == 0,
        plan.title@.len() == 10 + decimal(i).len(),
        plan.title@.subrange(0, 10) == "Wallpaper "@,
        plan.title@.subrange(10, plan.title@.len() as int) == decimal(i),
        plan.layer == i + 1,
        plan.camera_order + i == -10,
        slot.monitor_entity == monitor.entity,
        slot.monitor_name is Some == monitor.name is Some,
        slot.monitor_name is Some ==> slot.monitor_name->0@ == monitor.name->0@,
        slot.target_physical.0 == monitor.physical_width,
        slot.target_physical.1 == monitor.physical_height,
        slot.media_path is None && !slot.dirty && slot.video is None,
        slot.handle is None && slot.dims is None,
        slot.fit_mode is Contain,
        slot.background_color == (Srgb { r: 0, g: 0, b: 0 }),
{
    reveal_strlit("Wallpaper ");
    assert(plan.title@.subrange(0, 10) =~= "Wallpaper "@);
    assert(plan.title@.subrange(10, plan.title@.len() as int) =~= decimal(i));
}

/// A window that is placed by hand covers its monitor, on whichever side of the
/// others that stands. The window of the first wallpaper is never placed by hand.
pub proof fn law_hand_placed_window_covers_its_monitor<E, V, H, M>(
    slots: Seq<MediaSlot<E, V, H>>,
    index: usize,
    monitor: Option<MonitorInfo<M>>,
)
    ensures
        hand_fit(slots, WallpaperFor(index), monitor) is Some <==> index > 0 && index < slots.len()
            && monitor is Some,
        hand_fit(slots, WallpaperFor(index), monitor) matches Some(fit) ==> {
            &&& fit.size.0 == monitor->0.physical_width
            &&& fit.size.1 == monitor->0.physical_height
            &&& fit.position == Some(monitor->0.physical_position)
        },
{
}

/// All windows exist just when there are slots, and no fewer windows.
pub proof fn law_all_windows_exist(slots: usize, created: usize)
    ensures
        all_windows_exist(slots, created) <==> slots != 0 && slots <= created,
{
}

/// The screen that is found is there and has the size, and no screen before it has.
/// Where none is found no screen has it.
pub proof fn law_first_screen_of_the_size(
    screens: Seq<Option<ScreenInfo>>,
    size: (u32, u32),
    from: nat,
)
    ensures
        match first_screen(screens, size, from) {
            Some(found) => {
                &&& from <= found < screens.len()
                &&& screens[found as int] matches Some(s) && physical_side(s.width, s.backing_scale)
                    == size.0 && physical_side(s.height, s.backing_scale) == size.1
                &&& forall|i: int|
                    from <= i < found ==> !((#[trigger] screens[i]) matches Some(s)
                        && physical_side(s.width, s.backing_scale) == size.0 && physical_side(
                        s.height,
                        s.backing_scale,
                    ) == size.1)
            },
            None => forall|i: int|
                from <= i < screens.len() ==> !((#[trigger] screens[i]) matches Some(s)
                    && physical_side(s.width, s.backing_scale) == size.0 && physical_side(
                    s.height,
                    s.backing_scale,
                ) == size.1),
        },
    decreases screens.len() - from,
{
    if from < screens.len() {
        law_first_screen_of_the_size(screens, size, from + 1);
    }
}

/// What is said when no screen has a size names the size.
pub proof fn law_missing_screen_is_named(size: (u32, u32))
    ensures
        ({
            let text = no_screen_text(size);
            let w = decimal(size.0 as nat);
            let h = decimal(size.1 as nat);
            let (m, n) = (w.len() as int, h.len() as int);
            &&& text.len() == 30 + m + n
            &&& text.subrange(0, 20) == "no NSScreen matched "@
            &&& text.subrange(20, 20 + m) == w
            &&& text[20 + m] == 'x'
            &&& text.subrange(21 + m, 21 + m + n) == h
            &&& text.subrange(21 + m + n, text.len() as int) == " physical"@
        }),
{
    reveal_strlit("no NSScreen matched ");
    reveal_strlit("x");
    reveal_strlit(" physical");
    let text = no_screen_text(size);
    let w = decimal(size.0 as nat);
    let h = decimal(size.1 as nat);
    let (m, n) = (w.len() as int, h.len() as int);
    assert(text.subrange(0, 20) =~= "no NSScreen matched "@);
    assert(text.subrange(20, 20 + m) =~= w);
    assert(text.subrange(21 + m, 21 + m + n) =~= h);
    assert(text.subrange(21 + m + n, text.len() as int) =~= " physical"@);
}

/// Windows are given thirty frames to settle, and are looked at once.
pub proof fn law_windows_settle_for_thirty_frames(diagnosis: Diagnosis)
    requires
        diagnosis.valid(),
    ensures
        diagnosis.ticks <= 30,
        diagnosis.done <==> diagnosis.ticks == 30,
{
}

/// The first window covers the first primary monitor, or the first one where none is
/// primary, and has nowhere to go where there is none.
pub proof fn law_first_window_covers_the_main_monitor<E>(
    monitors: Vec<MonitorInfo<E>>,
    fit: Option<WindowFit>,
    at: int,
)
    requires
        call_ensures(fit_to_primary_monitor::<E>, (&monitors,), fit),
        0 <= at < monitors@.len(),
        forall|i: int| 0 <= i < at ==> !(#[trigger] monitors@[i]).primary,
        monitors@[at].primary || at == 0 && forall|i: int|
            0 <= i < monitors@.len() ==> !(#[trigger] monitors@[i]).primary,
    ensures
        fit is Some,
        fit->0.position == Some(monitors@[at].physical_position),
        fit->0.size == (monitors@[at].physical_width, monitors@[at].physical_height),
{
    lemma_first_primary(monitors@, 0);
    lemma_none_before_first_primary(monitors@, 0);
}

/// Without a monitor the first window has nowhere to go.
pub proof fn law_no_monitor_no_window<E>(monitors: Vec<MonitorInfo<E>>, fit: Option<WindowFit>)
    requires
        call_ensures(fit_to_primary_monitor::<E>, (&monitors,), fit),
        monitors@.len() == 0,
    ensures
        fit is None,
{
}

/// A window that is placed by hand is placed for its own slot, and the first one is left
/// alone.
pub proof fn law_all_but_the_first_are_placed<E, V, H>(
    media: WallpaperMedia<E, V, H>,
    tag: WallpaperFor,
    slot: Option<usize>,
)
    requires
        call_ensures(slot_to_place::<E, V, H>, (&media, tag), slot),
    ensures
        slot is Some ==> slot == Some(tag.0) && tag.0 < media.slots@.len(),
        slot is None <==> tag.0 == 0 || tag.0 >= media.slots@.len(),
{
}

/// Of two polls in a row at most one places windows. One does so only when there are
/// slots and each has its window, and then windows count as placed.
pub proof fn law_polls_place_windows_once(
    first: &mut Placement,
    second: &mut Placement,
    slots: (usize, usize),
    created: (usize, usize),
    places: (bool, bool),
)
    requires
        call_ensures(Placement::poll, (first, slots.0, created.0), places.0),
        call_ensures(Placement::poll, (second, slots.1, created.1), places.1),
        *old(second) == *final(first),
    ensures
        !(places.0 && places.1),
        places.0 ==> 0 < slots.0 <= created.0 && !old(first).done && final(first).done,
        0 < slots.0 <= created.0 ==> final(first).done,
        old(first).done ==> final(first).done,
        !places.0 ==> *final(first) == *old(first),
{
}

/// A frame is counted until windows have settled. Of two frames in a row at most one
/// lets their sizes be logged: the thirtieth.
pub proof fn law_sizes_are_logged_once(
    first: &mut Diagnosis,
    second: &mut Diagnosis,
    logs: (bool, bool),
)
    requires
        old(first).valid(),
        call_ensures(Diagnosis::tick, (first,), logs.0),
        call_ensures(Diagnosis::tick, (second,), logs.1),
        *old(second) == *final(first),
    ensures
        !(logs.0 && logs.1),
        logs.0 <==> old(first).ticks == 29,
        final(first).ticks == if old(first).ticks < 30 {
            old(first).ticks + 1
        } else {
            30
        },
        final(second).ticks >= final(first).ticks,
{
}

/// What tags the wallpaper of a monitor tags that of no other one.
pub proof fn law_tags_tell_monitors_apart(tag: WallpaperFor, a: usize, b: usize)
    requires
        call_ensures(WallpaperFor::is_for, (tag, a), true),
        call_ensures(WallpaperFor::is_for, (tag, b), true),
    ensures
        a == b,
        a == tag.0,
{
}

/// The screen that is found is the first one of the size, and where none has it the
/// answer says so.
pub proof fn law_screen_is_found_or_named(
    screens: Vec<Option<ScreenInfo>>,
    size: (u32, u32),
    found: Result<usize, String>,
    i: int,
)
    requires
        call_ensures(find_screen, (&screens, size), found),
        0 <= i < screens@.len(),
        screens@[i] is Some,
        physical_side(screens@[i]->0.width, screens@[i]->0.backing_scale) == size.0,
        physical_side(screens@[i]->0.height, screens@[i]->0.backing_scale) == size.1,
    ensures
        found is Ok,
        found->Ok_0 <= i,
        screens@[found->Ok_0 as int] is Some,
{
    law_first_screen_of_the_size(screens@, size, 0);
}

/// The window that is fitted for a planned wallpaper covers the monitor of the plan,
/// wherever that stands, and there are as many slots as plans.
pub proof fn law_each_planned_window_is_fitted<E: Copy, V, H>(
    monitors: Vec<MonitorInfo<E>>,
    planned: (Vec<WallpaperPlan>, WallpaperMedia<E, V, H>),
    i: int,
    fit: Option<WindowFit>,
)
    requires
        call_ensures(plan_wallpapers::<E, V, H>, (&monitors,), planned),
        0 <= i < planned.0@.len(),
        planned.0@[i].monitor < monitors@.len(),
        call_ensures(
            fit_wallpaper_window::<E, V, H>,
            (
                &planned.1,
                planned.0@[i].tag,
                Some(monitors@[planned.0@[i].monitor as int].physical_position),
            ),
            fit,
        ),
    ensures
        planned.1.slots@.len() == planned.0@.len(),
        fit is Some,
        ({
            let monitor = monitors@[planned.0@[i].monitor as int];
            &&& fit->0.size == (monitor.physical_width, monitor.physical_height)
            &&& fit->0.position == Some(monitor.physical_position)
        }),
{
    let order = wallpaper_order(monitors@);
    assert(plans(planned.0@[i], i as nat, order[i]));
    assert(fresh_slot(planned.1.slots@[i], i as nat, monitors@[order[i] as int]));
}

/// Every monitor that is not primary has its wallpaper, and so has a primary one with no
/// other primary one before it.
pub proof fn law_each_monitor_has_its_wallpaper<E: Copy, V, H>(
    monitors: Vec<MonitorInfo<E>>,
    planned: (Vec<WallpaperPlan>, WallpaperMedia<E, V, H>),
    at: int,
)
    requires
        call_ensures(plan_wallpapers::<E, V, H>, (&monitors,), planned),
        0 <= at < monitors@.len() <= usize::MAX,
        monitors@[at].primary ==> forall|i: int| 0 <= i < at ==> !(#[trigger] monitors@[i]).primary,
    ensures
        exists|i: int|
            0 <= i < planned.0@.len() && (#[trigger] planned.0@[i]).monitor == at && (
            monitors@[at].primary ==> i == 0),
{
    let order = wallpaper_order(monitors@);
    let rest = secondary_among(monitors@, monitors@.len());
    lemma_places(|k: int| !monitors@[k].primary, monitors@.len());
    lemma_first_primary(monitors@, 0);
    lemma_none_before_first_primary(monitors@, 0);
    if monitors@[at].primary {
        assert(first_primary(monitors@, 0) == Some(at as nat));
        assert(order[0] == at);
        assert(plans(planned.0@[0], 0, order[0]));
    } else {
        assert(rest.contains(at as usize));
        let j = choose|j: int| 0 <= j < rest.len() && rest[j] == at as usize;
        let i = if first_primary(monitors@, 0) is Some {
            j + 1
        } else {
            j
        };
        assert(order[i] == at);
        assert(plans(planned.0@[i], i as nat, order[i]));
    }
}

/// The monitor that is picked is the first primary one, or the first one where none is,
/// and it goes first among the wallpapers where it is primary.
pub proof fn law_picked_monitor_goes_first<E>(
    monitors: Vec<MonitorInfo<E>>,
    picked: Option<usize>,
    order: Vec<usize>,
)
    requires
        monitors@.len() <= usize::MAX,
        call_ensures(pick_monitor::<E>, (&monitors,), picked),
        call_ensures(order_monitors::<E>, (&monitors,), order),
    ensures
        picked is None <==> monitors@.len() == 0,
        picked is Some ==> {
            &&& picked->0 < monitors@.len()
            &&& forall|j: int| 0 <= j < picked->0 ==> !(#[trigger] monitors@[j]).primary
            &&& monitors@[picked->0 as int].primary || picked->0 == 0
            &&& monitors@[picked->0 as int].primary ==> order@.len() > 0 && order@[0] == picked->0
        },
        forall|i: int| 0 <= i < order@.len() ==> #[trigger] order@[i] < monitors@.len(),
        forall|i: int| 0 < i < order@.len() ==> !monitors@[#[trigger] order@[i] as int].primary,
{
    law_main_monitor(monitors@);
    lemma_first_primary(monitors@, 0);
    assert forall|i: int| 0 < i < order@.len() implies !monitors@[#[trigger] order@[i] as int].primary
        by {
        law_wallpapers_keep_the_order(monitors@, 0, i);
    }
}

/// A window that is placed by hand covers its monitor, as long as that is connected, and
/// the first one is not placed.
pub proof fn law_window_is_placed_over_its_monitor<E, V, H, M>(
    media: WallpaperMedia<E, V, H>,
    tag: WallpaperFor,
    monitor: Option<MonitorInfo<M>>,
    fit: Option<WindowFit>,
)
    requires
        call_ensures(fit_by_hand::<E, V, H, M>, (&media, tag, &monitor), fit),
    ensures
        fit is Some <==> monitor is Some && tag.0 > 0 && tag.0 < media.slots@.len(),
        fit is Some ==> {
            &&& fit->0.size == (monitor->0.physical_width, monitor->0.physical_height)
            &&& fit->0.position == Some(monitor->0.physical_position)
        },
{
}

/// Where no screen has the size the answer names the size.
pub proof fn law_missing_screen_is_reported(
    screens: Vec<Option<ScreenInfo>>,
    size: (u32, u32),
    found: Result<usize, String>,
)
    requires
        call_ensures(find_screen, (&screens, size), found),
        forall|i: int|
            0 <= i < screens@.len() && (#[trigger] screens@[i]) is Some ==> physical_side(
                screens@[i]->0.width,
                screens@[i]->0.backing_scale,
            ) != size.0 || physical_side(screens@[i]->0.height, screens@[i]->0.backing_scale)
                != size.1,
    ensures
        found is Err,
        found->Err_0@ == "no NSScreen matched "@ + decimal(size.0 as nat) + "x"@ + decimal(
            size.1 as nat,
        ) + " physical"@,
{
    law_first_screen_of_the_size(screens@, size, 0);
}

/// Windows are neither placed nor counted before the first call.
pub proof fn law_nothing_is_placed_at_first(placement: Placement, diagnosis: Diagnosis)
    requires
        call_ensures(Placement::new, (), placement),
        call_ensures(Diagnosis::new, (), diagnosis),
    ensures
        !placement.done,
        !diagnosis.done,
        diagnosis.ticks == 0,
{
}

} // verus!
