//! The settings, the window that shows them and what its buttons do.

use std::path::PathBuf;

use vstd::prelude::*;
use vstd::string::*;

use crate::double::{scale_pixels, scaled_pixels};
use crate::media::{label_text, FitMode, MediaSlot, WallpaperMedia};
use crate::monitors::{main_monitor, pick_monitor, MonitorInfo};
use crate::platform::{WallpaperAttached, WallpaperVisible};

verus! {

/// What the user has set.
#[derive(Clone, Copy, Debug, PartialEq, Eq, Structural)]
pub struct WallpaperSettings {
    pub show_settings: bool,
    pub selected_monitor: usize,
}

impl Default for WallpaperSettings {
    fn default() -> (r: Self)
        ensures
            r.show_settings,
            r.selected_monitor == 0,
    {
        WallpaperSettings { show_settings: true, selected_monitor: 0 }
    }
}

impl WallpaperSettings {
    /// Shows the panel, or hides it.
    pub fn toggle_panel(&mut self)
        ensures
            final(self).show_settings == !old(self).show_settings,
            final(self).selected_monitor == old(self).selected_monitor,
    {
        self.show_settings = !self.show_settings;
    }

    /// Selects the last monitor where the selected one is gone.
    pub fn clamp_selection(&mut self, monitors: usize)
        ensures
            final(self).show_settings == old(self).show_settings,
            final(self).selected_monitor == if monitors == 0 {
                0
            } else if old(self).selected_monitor >= monitors {
                monitors - 1
            } else {
                old(self).selected_monitor as int
            },
            monitors > 0 ==> final(self).selected_monitor < monitors,
    {
        if monitors == 0 {
            self.selected_monitor = 0;
        } else if self.selected_monitor >= monitors {
            self.selected_monitor = monitors - 1;
        }
    }
}

/// All slots are to show nothing from now on.
pub open spec fn all_emptied<E, V, H>(
    before: Seq<MediaSlot<E, V, H>>,
    after: Seq<MediaSlot<E, V, H>>,
) -> bool {
    &&& after.len() == before.len()
    &&& forall|i: int| 0 <= i < before.len() ==> #[trigger] after[i] == before[i].emptied()
}

/// Takes the media of all monitors away, lets go of the desktop and shows the
/// panel. The selected monitor and the fits stay.
pub fn reset_state<E, V, H>(
    attached: &mut WallpaperAttached,
    settings: &mut WallpaperSettings,
    media: &mut WallpaperMedia<E, V, H>,
)
    ensures
        !final(attached).0,
        final(settings).show_settings,
        final(settings).selected_monitor == old(settings).selected_monitor,
        all_emptied(old(media).slots@, final(media).slots@),
{
    attached.0 = false;
    settings.show_settings = true;
    let count: usize = media.slots.len();
    let mut i: usize = 0;
    while i < count
        invariant
            i <= count,
            count == old(media).slots@.len(),
            media.slots@.len() == count,
            forall|j: int|
                0 <= j < i ==> #[trigger] media.slots@[j] == old(media).slots@[j].emptied(),
            forall|j: int| i <= j < count ==> #[trigger] media.slots@[j] == old(media).slots@[j],
        decreases count - i,
    {
        media.slots[i].clear_media();
        i = i + 1;
    }
}

/// How the controls window looks.
#[derive(Clone, Copy, Debug, PartialEq, Eq, Structural)]
pub struct ControlsLayout {
    pub width: u32,
    pub height: u32,
    /// It stays above other windows, or else below them.
    pub on_top: bool,
}

/// How the controls window looks: small and out of the way while the wallpaper
/// is attached to the desktop.
pub open spec fn layout_for(attached: bool) -> ControlsLayout {
    if attached {
        ControlsLayout { width: 180, height: 48, on_top: false }
    } else {
        ControlsLayout { width: 340, height: 340, on_top: true }
    }
}

/// How the controls window looks.
pub fn controls_layout(attached: bool) -> (r: ControlsLayout)
    ensures
        r == layout_for(attached),
{
    if attached {
        ControlsLayout { width: 180, height: 48, on_top: false }
    } else {
        ControlsLayout { width: 340, height: 340, on_top: true }
    }
}

/// The distance of the controls window from the edges of its monitor.
pub const CONTROLS_MARGIN: i32 = 40;

/// A number of pixels, read as a signed number of as many bits.
pub open spec fn as_signed(pixels: u32) -> int {
    if pixels <= i32::MAX {
        pixels as int
    } else {
        pixels - 0x1_0000_0000
    }
}

/// A number can be a coordinate.
pub open spec fn is_coordinate(x: int) -> bool {
    i32::MIN <= x <= i32::MAX
}

/// Where the controls window goes: to the upper right corner of a monitor, for a
/// window of `scaled_width` physical pixels. There is no place where a coordinate
/// on the way to it is out of range.
pub open spec fn controls_place(
    position: (i32, i32),
    monitor_width: u32,
    scaled_width: i32,
) -> Option<(int, int)> {
    let right = position.0 + as_signed(monitor_width);
    let left = right - scaled_width;
    let x = left - CONTROLS_MARGIN;
    let y = position.1 + CONTROLS_MARGIN;
    if is_coordinate(right) && is_coordinate(left) && is_coordinate(x) && is_coordinate(y) {
        Some((x, y))
    } else {
        None
    }
}

fn controls_position(position: (i32, i32), monitor_width: u32, scaled_width: i32) -> (r: Option<
    (i32, i32),
>)
    ensures
        match r {
            Some((x, y)) => controls_place(position, monitor_width, scaled_width) == Some(
                (x as int, y as int),
            ),
            None => controls_place(position, monitor_width, scaled_width) is None,
        },
{
    let width: i64 = if monitor_width <= 0x7fff_ffff {
        monitor_width as i64
    } else {
        monitor_width as i64 - 0x1_0000_0000
    };
    let right: i64 = position.0 as i64 + width;
    let left: i64 = right - scaled_width as i64;
    let x: i64 = left - CONTROLS_MARGIN as i64;
    let y: i64 = position.1 as i64 + CONTROLS_MARGIN as i64;
    if in_range(right) && in_range(left) && in_range(x) && in_range(y) {
        Some((x as i32, y as i32))
    } else {
        None
    }
}

/// Where the controls window is put.
#[derive(Clone, Copy, Debug, PartialEq, Eq, Structural)]
pub enum ControlsPlace {
    /// Anywhere: there is no monitor.
    Automatic,
    /// At a place, in physical pixels.
    At { x: i32, y: i32 },
    /// Nowhere: a coordinate on the way to its place is out of range.
    OutOfRange,
}

/// Where the controls window is put, on the main monitor.
pub open spec fn controls_target<E>(
    monitors: Seq<MonitorInfo<E>>,
    attached: bool,
) -> ControlsPlace {
    match main_monitor(monitors) {
        None => ControlsPlace::Automatic,
        Some(i) => {
            let monitor = monitors[i as int];
            let width = scaled_pixels(layout_for(attached).width, monitor.scale_factor);
            match controls_place(monitor.physical_position, monitor.physical_width, width as i32) {
                Some((x, y)) => ControlsPlace::At { x: x as i32, y: y as i32 },
                None => ControlsPlace::OutOfRange,
            }
        },
    }
}

/// Decides where the controls window is put, when it is opened and whenever the
/// wallpaper is attached to the desktop or let go.
pub fn place_controls<E>(monitors: &Vec<MonitorInfo<E>>, attached: bool) -> (r: ControlsPlace)
    ensures
        r == controls_target(monitors@, attached),
{
    match pick_monitor(monitors) {
        None => ControlsPlace::Automatic,
        Some(i) => {
            let monitor = &monitors[i];
            let width: i32 = scale_pixels(controls_layout(attached).width, monitor.scale_factor);
            match controls_position(monitor.physical_position, monitor.physical_width, width) {
                Some((x, y)) => ControlsPlace::At { x, y },
                None => ControlsPlace::OutOfRange,
            }
        },
    }
}

/// The look and the place of the controls window.
#[derive(Clone, Copy, Debug, PartialEq, Eq, Structural)]
pub struct ControlsLook {
    pub layout: ControlsLayout,
    pub place: ControlsPlace,
}

/// The controls window as it is opened.
pub open spec fn opened_look<E>(monitors: Seq<MonitorInfo<E>>) -> ControlsLook {
    ControlsLook { layout: layout_for(false), place: controls_target(monitors, false) }
}

/// Opens the controls window.
pub fn open_controls<E>(monitors: &Vec<MonitorInfo<E>>) -> (r: ControlsLook)
    ensures
        r == opened_look(monitors@),
{
    ControlsLook { layout: controls_layout(false), place: place_controls(monitors, false) }
}

/// The controls window once it was told whether the wallpaper is attached. Without a
/// monitor it stays where it is, and where that is no news it stays as it is.
pub open spec fn look_after<E>(
    look: ControlsLook,
    changed: bool,
    monitors: Seq<MonitorInfo<E>>,
    attached: bool,
) -> ControlsLook {
    if !changed {
        look
    } else {
        ControlsLook {
            layout: layout_for(attached),
            place: if main_monitor(monitors) is None {
                look.place
            } else {
                controls_target(monitors, attached)
            },
        }
    }
}

impl ControlsLook {
    /// Follows the wallpaper. `changed` says that it was set whether it is attached.
    pub fn follow<E>(&mut self, changed: bool, monitors: &Vec<MonitorInfo<E>>, attached: bool)
        ensures
            *final(self) == look_after(*old(self), changed, monitors@, attached),
    {
        if !changed {
            return;
        }
        self.layout = controls_layout(attached);
        match place_controls(monitors, attached) {
            ControlsPlace::Automatic => {},
            place => {
                self.place = place;
            },
        }
    }
}

fn in_range(x: i64) -> (r: bool)
    ensures
        r == is_coordinate(x as int),
{
    i32::MIN as i64 <= x && x <= i32::MAX as i64
}

/// Whether the controls window is to be shown or hidden now, once the settings
/// have changed.
pub fn visibility_change(settings_changed: bool, show_settings: bool, visible: bool) -> (r: Option<
    bool,
>)
    ensures
        r == if settings_changed && visible != show_settings {
            Some(show_settings)
        } else {
            None
        },
{
    if settings_changed && visible != show_settings {
        Some(show_settings)
    } else {
        None
    }
}

/// What the controls window shows.
#[derive(Clone, Copy, Debug, PartialEq, Eq, Structural)]
pub enum PanelKind {
    /// Nothing.
    Hidden,
    /// That the wallpaper is attached, and a button to let go.
    Locked,
    /// All settings.
    Full,
}

/// What the controls window shows.
pub fn panel_kind(settings: &WallpaperSettings, attached: &WallpaperAttached) -> (r: PanelKind)
    ensures
        r == if !settings.show_settings {
            PanelKind::Hidden
        } else if attached.0 {
            PanelKind::Locked
        } else {
            PanelKind::Full
        },
{
    if !settings.show_settings {
        PanelKind::Hidden
    } else if attached.0 {
        PanelKind::Locked
    } else {
        PanelKind::Full
    }
}

/// Says whether videos play.
pub fn play_label(visible: &WallpaperVisible) -> (r: &'static str)
    ensures
        r@ == if visible.0 {
            "▶ playing"@
        } else {
            "⏸ paused (occluded)"@
        },
{
    if visible.0 {
        "▶ playing"
    } else {
        "⏸ paused (occluded)"
    }
}

/// Says whether the wallpaper is attached to the desktop.
pub fn attach_label(attached: &WallpaperAttached) -> (r: &'static str)
    ensures
        r@ == if attached.0 {
            "🔒 desktop layer"@
        } else {
            "🔓 interactive"@
        },
{
    if attached.0 {
        "🔒 desktop layer"
    } else {
        "🔓 interactive"
    }
}

/// What the button for the file dialog says.
pub fn pick_label(picking: bool) -> (r: &'static str)
    ensures
        r@ == if picking {
            "Opening…"@
        } else {
            "Load Image/Video…"@
        },
{
    if picking {
        "Opening…"
    } else {
        "Load Image/Video…"
    }
}

/// Names the media of a monitor by their file name.
pub fn media_label(file_name: Option<String>) -> (r: String)
    ensures
        r@ == media_text(file_name),
{
    match file_name {
        Some(name) => name,
        None => "(none)".to_owned(),
    }
}

/// Calls `Path::file_name` and takes the file name as text, with a stand-in for what
/// is not text. Which part of a path that is is not stated: it depends on the syntax
/// of paths on the machine.
#[verifier::external_body]
pub(crate) fn file_name_of(path: &PathBuf) -> (r: Option<String>) {
    Some(path.file_name()?.to_string_lossy().into_owned())
}

/// `file_name` is what `Path::file_name` may answer about a path.
pub closed spec fn file_name_answer(path: PathBuf, file_name: Option<String>) -> bool {
    call_ensures(file_name_of, (&path,), file_name)
}

/// What media are named by their file name, if they have one.
pub open spec fn media_text(file_name: Option<String>) -> Seq<char> {
    match file_name {
        Some(name) => name@,
        None => "(none)"@,
    }
}

/// Names the media of a monitor by their path.
pub fn media_label_of(path: &Option<PathBuf>) -> (r: String)
    ensures
        match *path {
            Some(p) => exists|file_name: Option<String>| #[trigger]
                file_name_answer(p, file_name) && r@ == media_text(file_name),
            None => r@ == media_text(None),
        },
{
    match path {
        Some(p) => {
            let file_name = file_name_of(p);
            assert(file_name_answer(*p, file_name));
            media_label(file_name)
        },
        None => media_label(None),
    }
}

/// How the panel lets the user choose among monitors.
pub enum MonitorChoice {
    /// There are none.
    Nothing,
    /// There is one, of this label.
    Single(String),
    /// There are several, of these labels, one of which is current.
    List { current: String, labels: Vec<String> },
}

/// The label of the monitor that is selected, or a dash.
pub open spec fn current_label<E, V, H>(
    slots: Seq<MediaSlot<E, V, H>>,
    selected: usize,
) -> Seq<char> {
    if selected < slots.len() {
        label_text(slots[selected as int].monitor_index, slots[selected as int].monitor_name)
    } else {
        "-"@
    }
}

/// `choice` is how the panel lets the user choose among monitors.
pub open spec fn offers<E, V, H>(
    choice: MonitorChoice,
    slots: Seq<MediaSlot<E, V, H>>,
    selected: usize,
) -> bool {
    match choice {
        MonitorChoice::Nothing => slots.len() == 0,
        MonitorChoice::Single(label) => slots.len() == 1 && label@ == label_text(
            slots[0].monitor_index,
            slots[0].monitor_name,
        ),
        MonitorChoice::List { current, labels } => {
            &&& slots.len() > 1
            &&& current@ == current_label(slots, selected)
            &&& labels@.len() == slots.len()
            &&& forall|i: int|
                0 <= i < slots.len() ==> (#[trigger] labels@[i])@ == label_text(
                    slots[i].monitor_index,
                    slots[i].monitor_name,
                )
        },
    }
}

/// How the panel lets the user choose among monitors.
pub fn monitor_choice<E, V, H>(
    media: &WallpaperMedia<E, V, H>,
    settings: &WallpaperSettings,
) -> (r: MonitorChoice)
    ensures
        offers(r, media.slots@, settings.selected_monitor),
{
    let count: usize = media.slots.len();
    if count == 0 {
        return MonitorChoice::Nothing;
    }
    if count == 1 {
        return MonitorChoice::Single(media.slots[0].label());
    }
    let current = if settings.selected_monitor < count {
        media.slots[settings.selected_monitor].label()
    } else {
        "-".to_owned()
    };
    let mut labels: Vec<String> = Vec::new();
    let mut i: usize = 0;
    while i < count
        invariant
            i <= count,
            count == media.slots@.len(),
            labels@.len() == i,
            forall|j: int|
                0 <= j < i ==> (#[trigger] labels@[j])@ == label_text(
                    media.slots@[j].monitor_index,
                    media.slots@[j].monitor_name,
                ),
        decreases count - i,
    {
        labels.push(media.slots[i].label());
        i = i + 1;
    }
    MonitorChoice::List { current, labels }
}

/// What the user did in the panel.
#[derive(Clone, Copy, Debug, PartialEq, Eq, Structural)]
pub enum PanelEvent {
    /// Let go of the desktop.
    Unlock,
    /// Attached the wallpaper to the desktop, or not.
    Attach(bool),
    /// Selected a monitor.
    Select(usize),
    /// Asked for the file dialog.
    Pick,
    /// Took the media of the selected monitor away.
    Clear,
    /// Chose how the selected monitor fits its media.
    Fit(FitMode),
    /// Went back to the initial state.
    Reset,
}

/// The slot of the selected monitor after an event of the panel.
pub open spec fn slot_after<E, V, H>(slot: MediaSlot<E, V, H>, event: PanelEvent) -> MediaSlot<
    E,
    V,
    H,
> {
    match event {
        PanelEvent::Clear => slot.emptied(),
        PanelEvent::Fit(fit_mode) => MediaSlot { fit_mode, ..slot },
        _ => slot,
    }
}

/// What follows from an event of the panel.
#[derive(Clone, Copy, Debug, PartialEq, Eq, Structural)]
pub struct PanelOutcome {
    /// The file dialog is to be opened.
    pub open_dialog: bool,
    /// It was set whether the wallpaper is attached, be it to what it was.
    pub attached_set: bool,
    /// The settings were set, be it to what they were.
    pub settings_set: bool,
}

/// What follows from an event of the panel, where `picking` says that the file
/// dialog is open.
pub open spec fn outcome_of(event: PanelEvent, picking: bool) -> PanelOutcome {
    PanelOutcome {
        open_dialog: event is Pick && !picking,
        attached_set: event is Unlock || event is Attach || event is Reset,
        settings_set: event is Select || event is Reset,
    }
}

/// Does what the user asked for. `picking` says that the file dialog is open.
pub fn handle_panel_event<E, V, H>(
    event: PanelEvent,
    picking: bool,
    attached: &mut WallpaperAttached,
    settings: &mut WallpaperSettings,
    media: &mut WallpaperMedia<E, V, H>,
) -> (r: PanelOutcome)
    ensures
        r == outcome_of(event, picking),
        final(attached).0 == match event {
            PanelEvent::Unlock | PanelEvent::Reset => false,
            PanelEvent::Attach(value) => value,
            _ => old(attached).0,
        },
        final(settings).selected_monitor == match event {
            PanelEvent::Select(i) => i,
            _ => old(settings).selected_monitor,
        },
        final(settings).show_settings == (old(settings).show_settings || event is Reset),
        event is Reset ==> all_emptied(old(media).slots@, final(media).slots@),
        !(event is Reset) ==> final(media).slots@ == if old(settings).selected_monitor < old(
            media,
        ).slots@.len() {
            let at = old(settings).selected_monitor as int;
            old(media).slots@.update(at, slot_after(old(media).slots@[at], event))
        } else {
            old(media).slots@
        },
{
    let at: usize = settings.selected_monitor;
    match event {
        PanelEvent::Unlock => {
            attached.0 = false;
        },
        PanelEvent::Attach(value) => {
            attached.0 = value;
        },
        PanelEvent::Select(i) => {
            settings.selected_monitor = i;
        },
        PanelEvent::Pick => {},
        PanelEvent::Clear => {
            if at < media.slots.len() {
                media.slots[at].clear_media();
            }
        },
        PanelEvent::Fit(fit_mode) => {
            if at < media.slots.len() {
                media.slots[at].fit_mode = fit_mode;
            }
        },
        PanelEvent::Reset => {
            reset_state(attached, settings, media);
        },
    }
    assert(!(event is Reset) && at < old(media).slots@.len() ==> media.slots@ =~= old(
        media,
    ).slots@.update(at as int, slot_after(old(media).slots@[at as int], event)));
    let (open_dialog, attached_set, settings_set): (bool, bool, bool) = match event {
        PanelEvent::Unlock | PanelEvent::Attach(_) => (false, true, false),
        PanelEvent::Select(_) => (false, false, true),
        PanelEvent::Pick => (!picking, false, false),
        PanelEvent::Clear | PanelEvent::Fit(_) => (false, false, false),
        PanelEvent::Reset => (false, true, true),
    };
    PanelOutcome { open_dialog, attached_set, settings_set }
}

/// After a reset every slot is loaded again, asks for nothing and so shows
/// nothing; it keeps its monitor and its fit.
pub proof fn law_reset_shows_nothing<E, V, H>(
    before: Seq<MediaSlot<E, V, H>>,
    after: Seq<MediaSlot<E, V, H>>,
    i: int,
    extension: Option<Seq<char>>,
)
    requires
        all_emptied(before, after),
        0 <= i < before.len(),
    ensures
        after[i].dirty,
        after[i].request(extension) is Nothing,
        after[i].cleared().video is None,
        after[i].cleared().handle is None,
        after[i].monitor_index == before[i].monitor_index,
        after[i].monitor_name == before[i].monitor_name,
        after[i].fit_mode == before[i].fit_mode,
{
    assert(after[i] == before[i].emptied());
}

/// Resetting twice is the same as resetting once.
pub proof fn law_reset_twice_is_once<E, V, H>(
    before: Seq<MediaSlot<E, V, H>>,
    once: Seq<MediaSlot<E, V, H>>,
    twice: Seq<MediaSlot<E, V, H>>,
)
    requires
        all_emptied(before, once),
        all_emptied(once, twice),
    ensures
        twice == once,
{
    assert forall|i: int| 0 <= i < once.len() implies twice[i] == once[i] by {
        assert(once[i] == before[i].emptied());
        assert(twice[i] == once[i].emptied());
    }
    assert(twice =~= once);
}

/// The controls window keeps its distance from the right and the upper edge of the
/// main monitor, whatever its scale.
pub proof fn law_controls_in_corner<E>(monitors: Seq<MonitorInfo<E>>, attached: bool, i: nat)
    requires
        main_monitor(monitors) == Some(i),
        monitors[i as int].physical_width <= i32::MAX,
    ensures
        controls_target(monitors, attached) matches ControlsPlace::At { x, y } ==> {
            let monitor = monitors[i as int];
            let width = scaled_pixels(layout_for(attached).width, monitor.scale_factor);
            &&& x + width + CONTROLS_MARGIN == monitor.physical_position.0 + monitor.physical_width
            &&& y == monitor.physical_position.1 + CONTROLS_MARGIN
        },
{
}

/// Letting go of the desktop brings the controls window back to the look and the
/// place with which it was opened, and while nothing changes it is left alone.
pub proof fn law_controls_come_back<E>(monitors: Seq<MonitorInfo<E>>, look: ControlsLook)
    ensures
        ({
            let opened = opened_look(monitors);
            let small = look_after(opened, true, monitors, true);
            &&& small.layout == layout_for(true)
            &&& look_after(small, true, monitors, false) == opened
        }),
        look_after(look, false, monitors, true) == look,
        look_after(look, false, monitors, false) == look,
{
}

/// Whatever the user does to the selected monitor, its slot stays on it.
pub proof fn law_panel_keeps_monitors<E, V, H>(slot: MediaSlot<E, V, H>, event: PanelEvent)
    ensures
        slot_after(slot, event).monitor_index == slot.monitor_index,
        slot_after(slot, event).monitor_name == slot.monitor_name,
        slot_after(slot, event).target_physical == slot.target_physical,
{
}

/// While the wallpaper is attached the controls window is 180 by 48 pixels and lies
/// below other windows; else it is 340 by 340 and stays above them.
pub proof fn law_controls_layout(attached: bool)
    ensures
        layout_for(attached).width == 340 - if attached {
            160int
        } else {
            0
        },
        layout_for(attached).height == 340 - if attached {
            292int
        } else {
            0
        },
        layout_for(attached).on_top != attached,
{
}

/// The controls window goes to the main monitor as soon as there is a monitor. Its
/// right edge is forty pixels from the monitor's right edge and its upper edge forty
/// pixels below the monitor's, unless a coordinate on the way there does not fit.
pub proof fn law_controls_keep_forty_pixels<E>(
    monitors: Seq<MonitorInfo<E>>,
    attached: bool,
    i: nat,
)
    requires
        main_monitor(monitors) == Some(i),
    ensures
        ({
            let monitor = monitors[i as int];
            let width = scaled_pixels(
                if attached {
                    180u32
                } else {
                    340u32
                },
                monitor.scale_factor,
            );
            let across = if monitor.physical_width <= 0x7fff_ffff {
                monitor.physical_width as int
            } else {
                monitor.physical_width - 0x1_0000_0000
            };
            let right = monitor.physical_position.0 + across;
            let down = monitor.physical_position.1 + 40;
            let fits = {
                &&& -0x8000_0000 <= right <= 0x7fff_ffff
                &&& -0x8000_0000 <= right - width <= 0x7fff_ffff
                &&& -0x8000_0000 <= right - width - 40 <= 0x7fff_ffff
                &&& down <= 0x7fff_ffff
            };
            match controls_target(monitors, attached) {
                ControlsPlace::At { x, y } => fits && x + width + 40 == right && y == down,
                ControlsPlace::OutOfRange => !fits,
                ControlsPlace::Automatic => false,
            }
        }),
{
}

/// Without a monitor the controls window goes anywhere.
pub proof fn law_controls_without_monitor<E>(monitors: Seq<MonitorInfo<E>>, attached: bool)
    ensures
        controls_target(monitors, attached) is Automatic <==> main_monitor(monitors) is None,
{
}

/// When the wallpaper is attached or let go, the controls window gets the look and the
/// place for that; without a monitor it stays where it is.
pub proof fn law_controls_follow_the_wallpaper<E>(
    look: ControlsLook,
    monitors: Seq<MonitorInfo<E>>,
    attached: bool,
)
    ensures
        ({
            let next = look_after(look, true, monitors, attached);
            &&& next.layout == layout_for(attached)
            &&& main_monitor(monitors) is None ==> next.place == look.place
            &&& main_monitor(monitors) is Some ==> next.place == controls_target(monitors, attached)
        }),
        opened_look(monitors).layout == layout_for(false),
        opened_look(monitors).place == controls_target(monitors, false),
{
}

/// A reset takes the media of each slot and has it loaded; everything else of a slot
/// stays.
pub proof fn law_reset_keeps_slots<E, V, H>(
    before: Seq<MediaSlot<E, V, H>>,
    after: Seq<MediaSlot<E, V, H>>,
    i: int,
)
    requires
        all_emptied(before, after),
        0 <= i < before.len(),
    ensures
        after.len() == before.len(),
        after[i].media_path is None,
        after[i].dirty,
        (MediaSlot { media_path: before[i].media_path, dirty: before[i].dirty, ..after[i] })
            == before[i],
{
    assert(after[i] == before[i].emptied());
}

/// In the panel only Clear takes the media of the selected monitor, only Fit sets its
/// fit, and nothing else of its slot changes.
pub proof fn law_panel_changes_one_thing<E, V, H>(slot: MediaSlot<E, V, H>, event: PanelEvent)
    ensures
        ({
            let after = slot_after(slot, event);
            &&& after.fit_mode == match event {
                PanelEvent::Fit(mode) => mode,
                _ => slot.fit_mode,
            }
            &&& event is Clear ==> after.media_path is None && after.dirty
            &&& !(event is Clear) ==> after.media_path == slot.media_path && after.dirty
                == slot.dirty
            &&& (MediaSlot {
                fit_mode: slot.fit_mode,
                media_path: slot.media_path,
                dirty: slot.dirty,
                ..after
            }) == slot
        }),
{
}

/// The file dialog is opened by Pick alone, and never twice. It is set whether the
/// wallpaper is attached by Unlock, Attach and Reset, and the settings by Select and
/// Reset.
pub proof fn law_panel_outcomes(event: PanelEvent, picking: bool)
    ensures
        picking ==> !outcome_of(event, picking).open_dialog,
        !picking ==> (outcome_of(event, picking).open_dialog <==> event is Pick),
        outcome_of(event, picking).attached_set == match event {
            PanelEvent::Unlock | PanelEvent::Attach(_) | PanelEvent::Reset => true,
            _ => false,
        },
        outcome_of(event, picking).settings_set == match event {
            PanelEvent::Select(_) | PanelEvent::Reset => true,
            _ => false,
        },
{
}

/// Several monitors are offered by their labels, in order, with the selected one as
/// the current; a single one is shown by its label.
pub proof fn law_monitors_are_offered_in_order<E, V, H>(
    choice: MonitorChoice,
    slots: Seq<MediaSlot<E, V, H>>,
    selected: usize,
    i: int,
)
    requires
        offers(choice, slots, selected),
        0 <= i < slots.len(),
    ensures
        match choice {
            MonitorChoice::Nothing => false,
            MonitorChoice::Single(label) => slots.len() == 1 && label@ == label_text(
                slots[i].monitor_index,
                slots[i].monitor_name,
            ),
            MonitorChoice::List { current, labels } => {
                &&& slots.len() >= 2
                &&& labels@.len() == slots.len()
                &&& labels@[i]@ == label_text(slots[i].monitor_index, slots[i].monitor_name)
                &&& selected == i ==> current@ == labels@[i]@
                &&& selected >= slots.len() ==> current@ == "-"@
            },
        },
{
    if choice is List {
        assert(choice->labels@[i]@ == label_text(slots[i].monitor_index, slots[i].monitor_name));
    }
}

/// Media are named by their file name, and by a word in brackets where they have
/// none.
pub proof fn law_media_are_named(file_name: Option<String>)
    ensures
        file_name is Some ==> media_text(file_name) == file_name->0@,
        file_name is None ==> media_text(file_name) == "(none)"@,
{
}

/// The panel is shown or hidden in turn, and nothing else of the settings changes.
pub proof fn law_panel_is_toggled(once: &mut WallpaperSettings, again: &mut WallpaperSettings)
    requires
        call_ensures(WallpaperSettings::toggle_panel, (once,), ()),
        call_ensures(WallpaperSettings::toggle_panel, (again,), ()),
        *old(again) == *final(once),
    ensures
        final(once).show_settings != old(once).show_settings,
        final(once).selected_monitor == old(once).selected_monitor,
        *final(again) == *old(once),
{
}

/// A monitor that is there stays selected. Where the selected one is gone, the last one
/// is selected, so that with any monitors at all one of them is.
pub proof fn law_selection_is_a_monitor(settings: &mut WallpaperSettings, monitors: usize)
    requires
        call_ensures(WallpaperSettings::clamp_selection, (settings, monitors), ()),
    ensures
        old(settings).selected_monitor < monitors ==> *final(settings) == *old(settings),
        0 < monitors <= old(settings).selected_monitor ==> final(settings).selected_monitor + 1
            == monitors,
        monitors == 0 ==> final(settings).selected_monitor == 0,
        final(settings).show_settings == old(settings).show_settings,
{
}

/// A reset lets go of the desktop, shows the panel, keeps the selection, and takes the
/// media of each monitor away, of which fit and place stay.
pub proof fn law_reset_starts_over<E, V, H>(
    attached: &mut WallpaperAttached,
    settings: &mut WallpaperSettings,
    media: &mut WallpaperMedia<E, V, H>,
    i: int,
)
    requires
        call_ensures(reset_state::<E, V, H>, (attached, settings, media), ()),
        0 <= i < old(media).slots@.len(),
    ensures
        *final(attached) == WallpaperAttached(false),
        *final(settings) == (WallpaperSettings {
            show_settings: true,
            selected_monitor: old(settings).selected_monitor,
        }),
        final(media).slots@.len() == old(media).slots@.len(),
        final(media).slots@[i].media_path is None,
        final(media).slots@[i].dirty,
        final(media).slots@[i].fit_mode == old(media).slots@[i].fit_mode,
        final(media).slots@[i].monitor_index == old(media).slots@[i].monitor_index,
        final(media).slots@[i].monitor_name == old(media).slots@[i].monitor_name,
{
    assert(final(media).slots@[i] == old(media).slots@[i].emptied());
}

/// The controls window is shown or hidden only once the settings have changed, and only
/// where it is not so already. After that it is as the settings say.
pub proof fn law_visibility_follows_the_settings(
    changed: bool,
    show_settings: bool,
    visible: bool,
    change: Option<bool>,
)
    requires
        call_ensures(visibility_change, (changed, show_settings, visible), change),
    ensures
        !changed ==> change is None,
        change is Some ==> change->0 == show_settings && change->0 != visible,
        changed && change is None ==> visible == show_settings,
{
}

/// The panel is hidden just when the settings say so. Shown, it holds all settings just
/// while the wallpaper is not attached.
pub proof fn law_panel_shows_what_can_be_set(
    settings: WallpaperSettings,
    attached: WallpaperAttached,
    kind: PanelKind,
)
    requires
        call_ensures(panel_kind, (&settings, &attached), kind),
    ensures
        kind is Hidden <==> !settings.show_settings,
        kind is Locked <==> settings.show_settings && attached.0,
        kind is Full <==> settings.show_settings && !attached.0,
{
}

/// Each label says which of two states holds.
pub proof fn law_labels_tell_the_state(
    visible: WallpaperVisible,
    attached: WallpaperAttached,
    picking: bool,
    play: &'static str,
    attach: &'static str,
    pick: &'static str,
)
    requires
        call_ensures(play_label, (&visible,), play),
        call_ensures(attach_label, (&attached,), attach),
        call_ensures(pick_label, (picking,), pick),
    ensures
        visible.0 <==> play@ == "▶ playing"@,
        !visible.0 <==> play@ == "⏸ paused (occluded)"@,
        attached.0 <==> attach@ == "🔒 desktop layer"@,
        !attached.0 <==> attach@ == "🔓 interactive"@,
        picking <==> pick@ == "Opening…"@,
        !picking <==> pick@ == "Load Image/Video…"@,
{
    reveal_strlit("▶ playing");
    reveal_strlit("⏸ paused (occluded)");
    reveal_strlit("🔒 desktop layer");
    reveal_strlit("🔓 interactive");
    reveal_strlit("Opening…");
    reveal_strlit("Load Image/Video…");
    assert("▶ playing"@.len() != "⏸ paused (occluded)"@.len());
    assert("🔒 desktop layer"@.len() != "🔓 interactive"@.len());
    assert("Opening…"@.len() != "Load Image/Video…"@.len());
}

/// Media without a path are named by a stand-in, and others by the file name that was
/// found in their path, or the stand-in where none was.
pub proof fn law_media_are_named_by_their_path(path: Option<PathBuf>, label: String)
    requires
        call_ensures(media_label_of, (&path,), label),
    ensures
        path is None ==> label@ == "(none)"@,
        path is Some ==> exists|file_name: Option<String>| #[trigger]
            file_name_answer(path->0, file_name) && match file_name {
                Some(name) => label@ == name@,
                None => label@ == "(none)"@,
            },
{
}

/// What the user did in the panel reaches the monitor that was selected before, and no
/// other one, but for a reset.
pub proof fn law_panel_reaches_the_selected_monitor<E, V, H>(
    event: PanelEvent,
    picking: bool,
    attached: &mut WallpaperAttached,
    settings: &mut WallpaperSettings,
    media: &mut WallpaperMedia<E, V, H>,
    outcome: PanelOutcome,
    i: int,
)
    requires
        call_ensures(
            handle_panel_event::<E, V, H>,
            (event, picking, attached, settings, media),
            outcome,
        ),
        0 <= i < old(media).slots@.len(),
    ensures
        final(media).slots@.len() == old(media).slots@.len(),
        !(event is Reset) && i != old(settings).selected_monitor ==> final(media).slots@[i] == old(
            media,
        ).slots@[i],
        i == old(settings).selected_monitor ==> match event {
            PanelEvent::Clear => final(media).slots@[i].media_path is None && final(media).slots@[i].dirty,
            PanelEvent::Fit(mode) => final(media).slots@[i].fit_mode == mode && final(media).slots@[i].media_path == old(media).slots@[i].media_path,
            PanelEvent::Reset => final(media).slots@[i].media_path is None,
            _ => final(media).slots@[i] == old(media).slots@[i],
        },
        event is Unlock ==> !final(attached).0,
        event matches PanelEvent::Attach(value) ==> final(attached).0 == value,
        event matches PanelEvent::Select(n) ==> final(settings).selected_monitor == n,
        event is Reset ==> !final(attached).0 && final(settings).show_settings,
        !outcome.attached_set ==> *final(attached) == *old(attached),
        !outcome.settings_set ==> *final(settings) == *old(settings),
        outcome.open_dialog <==> event is Pick && !picking,
{
    if event is Reset {
        assert(final(media).slots@[i] == old(media).slots@[i].emptied());
    }
}

/// The controls window looks small and lies below other windows just while the wallpaper
/// is attached. It opens as for one that is not.
pub proof fn law_controls_look_by_the_lock<E>(
    attached: bool,
    layout: ControlsLayout,
    monitors: Vec<MonitorInfo<E>>,
    opened: ControlsLook,
    place: ControlsPlace,
)
    requires
        call_ensures(controls_layout, (attached,), layout),
        call_ensures(open_controls::<E>, (&monitors,), opened),
        call_ensures(place_controls::<E>, (&monitors, false), place),
    ensures
        attached ==> layout.width == 180 && layout.height == 48 && !layout.on_top,
        !attached ==> layout.width == 340 && layout.height == 340 && layout.on_top,
        opened.layout.width == 340 && opened.layout.height == 340 && opened.layout.on_top,
        opened.place == place,
{
}

/// The controls window keeps forty pixels from the right and the upper edge of the main
/// monitor, wherever that stands, as long as each coordinate on the way fits.
pub proof fn law_controls_are_placed_in_the_corner<E>(
    monitors: Vec<MonitorInfo<E>>,
    attached: bool,
    place: ControlsPlace,
    at: usize,
)
    requires
        call_ensures(place_controls::<E>, (&monitors, attached), place),
        call_ensures(pick_monitor::<E>, (&monitors,), Some(at)),
        monitors@[at as int].physical_width <= 0x7fff_ffff,
    ensures
        !(place is Automatic),
        place matches ControlsPlace::At { x, y } ==> {
            let monitor = monitors@[at as int];
            let width = scaled_pixels(
                if attached {
                    180u32
                } else {
                    340u32
                },
                monitor.scale_factor,
            );
            &&& x + width + 40 == monitor.physical_position.0 + monitor.physical_width
            &&& y == monitor.physical_position.1 + 40
        },
{
    law_controls_keep_forty_pixels(monitors@, attached, at as nat);
}

/// The controls window follows only what is news. Then it looks as it does while the
/// wallpaper is so, and goes to the place for that; without a monitor it stays where it
/// is.
pub proof fn law_controls_follow_only_news<E>(
    look: &mut ControlsLook,
    changed: bool,
    monitors: Vec<MonitorInfo<E>>,
    attached: bool,
    layout: ControlsLayout,
    place: ControlsPlace,
)
    requires
        call_ensures(ControlsLook::follow::<E>, (look, changed, &monitors, attached), ()),
        call_ensures(controls_layout, (attached,), layout),
        call_ensures(place_controls::<E>, (&monitors, attached), place),
    ensures
        !changed ==> *final(look) == *old(look),
        changed ==> final(look).layout == layout,
        changed && !(place is Automatic) ==> final(look).place == place,
        place is Automatic ==> final(look).place == old(look).place,
{
    law_controls_without_monitor(monitors@, attached);
}

/// The panel offers each monitor by its label, with the selected one as the current. One
/// that is alone is shown, and where there is none nothing is.
pub proof fn law_panel_offers_each_monitor<E, V, H>(
    media: WallpaperMedia<E, V, H>,
    settings: WallpaperSettings,
    choice: MonitorChoice,
    i: int,
)
    requires
        call_ensures(monitor_choice::<E, V, H>, (&media, &settings), choice),
    ensures
        choice is Nothing <==> media.slots@.len() == 0,
        choice is Single <==> media.slots@.len() == 1,
        choice is List <==> media.slots@.len() >= 2,
        0 <= i < media.slots@.len() && choice is List ==> {
            let slot = media.slots@[i];
            &&& choice->labels@.len() == media.slots@.len()
            &&& choice->labels@[i]@ == label_text(slot.monitor_index, slot.monitor_name)
            &&& settings.selected_monitor == i ==> choice->current@ == choice->labels@[i]@
        },
{
    if 0 <= i < media.slots@.len() {
        law_monitors_are_offered_in_order(choice, media.slots@, settings.selected_monitor, i);
    }
}

/// Media are labelled by their file name, or by a stand-in.
pub proof fn law_label_is_the_file_name(file_name: Option<String>, label: String)
    requires
        call_ensures(media_label, (file_name,), label),
    ensures
        file_name is Some ==> label@ == file_name->0@,
        file_name is None ==> label@ == "(none)"@,
{
}

/// At first the panel is shown for the first monitor, the wallpaper is not attached and
/// counts as seen, and pictures are contained.
pub proof fn law_first_state(
    settings: WallpaperSettings,
    attached: WallpaperAttached,
    visible: WallpaperVisible,
    fit: FitMode,
)
    requires
        call_ensures(<WallpaperSettings as Default>::default, (), settings),
        call_ensures(<WallpaperAttached as Default>::default, (), attached),
        call_ensures(<WallpaperVisible as Default>::default, (), visible),
        call_ensures(<FitMode as Default>::default, (), fit),
    ensures
        settings.show_settings && settings.selected_monitor == 0,
        !attached.0,
        visible.0,
        fit is Contain,
{
}

} // verus!
