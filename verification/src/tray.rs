//! The icon in the menu bar and its menu.

use vstd::prelude::*;

use crate::controls::{all_emptied, reset_state, WallpaperSettings};
use crate::media::WallpaperMedia;
use crate::platform::WallpaperAttached;

verus! {

/// What an item of the menu does.
#[derive(Clone, Copy, Debug, PartialEq, Eq, Structural)]
pub enum TrayCommand {
    /// Attaches the wallpaper to the desktop, or lets go.
    ToggleLock,
    /// Shows the settings panel, or hides it.
    ToggleSettings,
    /// Goes back to the initial state.
    Reset,
    /// Ends the program.
    Quit,
}

/// A line of the menu.
#[derive(Clone, Copy, Debug)]
pub enum MenuEntry {
    /// An item to click on.
    Item { command: TrayCommand, label: &'static str },
    /// A line between items.
    Separator,
}

/// What an item of the menu says.
pub open spec fn command_label(command: TrayCommand) -> Seq<char> {
    match command {
        TrayCommand::ToggleLock => "Toggle wallpaper lock"@,
        TrayCommand::ToggleSettings => "Toggle settings panel"@,
        TrayCommand::Reset => "Reset to initial state"@,
        TrayCommand::Quit => "Quit"@,
    }
}

/// The items of the menu, with `None` for a line between them.
pub open spec fn menu_layout() -> Seq<Option<TrayCommand>> {
    seq![
        Some(TrayCommand::ToggleLock),
        Some(TrayCommand::ToggleSettings),
        None,
        Some(TrayCommand::Reset),
        None,
        Some(TrayCommand::Quit),
    ]
}

/// A line of the menu is the one for a command, or a line between items.
pub open spec fn is_entry(entry: MenuEntry, line: Option<TrayCommand>) -> bool {
    match entry {
        MenuEntry::Item { command, label } => line == Some(command) && label@ == command_label(
            command,
        ),
        MenuEntry::Separator => line is None,
    }
}

/// The menu, from the top.
pub fn tray_menu() -> (r: Vec<MenuEntry>)
    ensures
        r@.len() == menu_layout().len(),
        forall|i: int| 0 <= i < r@.len() ==> is_entry(#[trigger] r@[i], menu_layout()[i]),
{
    vec![
        MenuEntry::Item { command: TrayCommand::ToggleLock, label: "Toggle wallpaper lock" },
        MenuEntry::Item { command: TrayCommand::ToggleSettings, label: "Toggle settings panel" },
        MenuEntry::Separator,
        MenuEntry::Item { command: TrayCommand::Reset, label: "Reset to initial state" },
        MenuEntry::Separator,
        MenuEntry::Item { command: TrayCommand::Quit, label: "Quit" },
    ]
}

/// By what the items of the menu are known when one is clicked on.
pub struct TrayIds {
    pub toggle_lock_id: String,
    pub toggle_settings_id: String,
    pub reset_id: String,
    pub quit_id: String,
}

/// The command of the item that was clicked on, if it is one of the menu's.
pub open spec fn command_of(ids: TrayIds, event: Seq<char>) -> Option<TrayCommand> {
    if event == ids.toggle_lock_id@ {
        Some(TrayCommand::ToggleLock)
    } else if event == ids.toggle_settings_id@ {
        Some(TrayCommand::ToggleSettings)
    } else if event == ids.reset_id@ {
        Some(TrayCommand::Reset)
    } else if event == ids.quit_id@ {
        Some(TrayCommand::Quit)
    } else {
        None
    }
}

/// Tells which item was clicked on.
pub fn find_command(ids: &TrayIds, event: &String) -> (r: Option<TrayCommand>)
    ensures
        r == command_of(*ids, event@),
{
    if event.eq(&ids.toggle_lock_id) {
        Some(TrayCommand::ToggleLock)
    } else if event.eq(&ids.toggle_settings_id) {
        Some(TrayCommand::ToggleSettings)
    } else if event.eq(&ids.reset_id) {
        Some(TrayCommand::Reset)
    } else if event.eq(&ids.quit_id) {
        Some(TrayCommand::Quit)
    } else {
        None
    }
}

/// What commands have led to.
pub struct TrayState {
    pub attached: bool,
    pub show_settings: bool,
    pub attached_set: bool,
    pub settings_set: bool,
    pub was_reset: bool,
    pub quits: nat,
}

/// The state after one more command.
pub open spec fn state_after(state: TrayState, command: Option<TrayCommand>) -> TrayState {
    match command {
        Some(TrayCommand::ToggleLock) => TrayState {
            attached: !state.attached,
            attached_set: true,
            ..state
        },
        Some(TrayCommand::ToggleSettings) => TrayState {
            show_settings: !state.show_settings,
            settings_set: true,
            ..state
        },
        Some(TrayCommand::Reset) => TrayState {
            attached: false,
            show_settings: true,
            attached_set: true,
            settings_set: true,
            was_reset: true,
            ..state
        },
        Some(TrayCommand::Quit) => TrayState { quits: state.quits + 1, ..state },
        None => state,
    }
}

/// The state after the first `n` clicks.
pub open spec fn state_after_clicks(
    ids: TrayIds,
    start: TrayState,
    clicks: Seq<String>,
    n: nat,
) -> TrayState
    decreases n,
{
    if n == 0 {
        start
    } else {
        state_after(
            state_after_clicks(ids, start, clicks, (n - 1) as nat),
            command_of(ids, clicks[n - 1]@),
        )
    }
}

/// What follows from clicks on the menu.
#[derive(Clone, Copy, Debug, PartialEq, Eq, Structural)]
pub struct TrayOutcome {
    /// How many times the program was asked to end.
    pub quits: usize,
    /// It was set whether the wallpaper is attached, be it to what it was.
    pub attached_set: bool,
    /// The settings were set, be it to what they were.
    pub settings_set: bool,
}

/// Does what the clicks on the menu ask for, in order.
pub fn handle_tray_events<E, V, H>(
    ids: &TrayIds,
    clicks: &Vec<String>,
    attached: &mut WallpaperAttached,
    settings: &mut WallpaperSettings,
    media: &mut WallpaperMedia<E, V, H>,
) -> (r: TrayOutcome)
    ensures
        ({
            let start = TrayState {
                attached: old(attached).0,
                show_settings: old(settings).show_settings,
                attached_set: false,
                settings_set: false,
                was_reset: false,
                quits: 0,
            };
            let end = state_after_clicks(*ids, start, clicks@, clicks@.len());
            &&& r.quits == end.quits
            &&& r.attached_set == end.attached_set
            &&& r.settings_set == end.settings_set
            &&& final(attached).0 == end.attached
            &&& final(settings).show_settings == end.show_settings
            &&& final(settings).selected_monitor == old(settings).selected_monitor
            &&& end.was_reset ==> all_emptied(old(media).slots@, final(media).slots@)
            &&& !end.was_reset ==> final(media).slots@ == old(media).slots@
        }),
{
    let ghost start = TrayState {
        attached: attached.0,
        show_settings: settings.show_settings,
        attached_set: false,
        settings_set: false,
        was_reset: false,
        quits: 0,
    };
    let mut quits: usize = 0;
    let mut attached_set: bool = false;
    let mut settings_set: bool = false;
    let mut i: usize = 0;
    while i < clicks.len()
        invariant
            i <= clicks@.len(),
            ({
                let end = state_after_clicks(*ids, start, clicks@, i as nat);
                &&& quits == end.quits
                &&& quits <= i
                &&& attached_set == end.attached_set
                &&& settings_set == end.settings_set
                &&& attached.0 == end.attached
                &&& settings.show_settings == end.show_settings
                &&& settings.selected_monitor == old(settings).selected_monitor
                &&& end.was_reset ==> all_emptied(old(media).slots@, media.slots@)
                &&& !end.was_reset ==> media.slots@ == old(media).slots@
            }),
        decreases clicks@.len() - i,
    {
        match find_command(ids, &clicks[i]) {
            Some(TrayCommand::ToggleLock) => {
                attached.toggle();
                attached_set = true;
            },
            Some(TrayCommand::ToggleSettings) => {
                settings.toggle_panel();
                settings_set = true;
            },
            Some(TrayCommand::Reset) => {
                reset_state(attached, settings, media);
                attached_set = true;
                settings_set = true;
            },
            Some(TrayCommand::Quit) => {
                quits = quits + 1;
            },
            None => {},
        }
        i = i + 1;
    }
    TrayOutcome { quits, attached_set, settings_set }
}

/// The side of the icon, in pixels.
pub const ICON_SIZE: u32 = 22;

/// Twice the distance of a row or column from the middle of the icon.
pub open spec fn off_middle(x: int) -> int {
    if 2 * x >= 21 {
        2 * x - 21
    } else {
        21 - 2 * x
    }
}

/// Twice how far a row or column is outside the inner square, which reaches five
/// pixels from the middle.
pub open spec fn outside(x: int) -> int {
    if off_middle(x) >= 10 {
        off_middle(x) - 10
    } else {
        0
    }
}

/// Four times the square of a pixel's distance from the inner square of the icon.
pub open spec fn distance_squared(x: int, y: int) -> int {
    outside(x) * outside(x) + outside(y) * outside(y)
}

/// A pixel is at least so opaque: it is so many parts of 255 of a pixel, or more,
/// inside the line that runs four pixels around the inner square.
pub open spec fn opaque_by(alpha: int, x: int, y: int) -> bool {
    255 * 255 * distance_squared(x, y) <= (2 * (1020 - alpha)) * (2 * (1020 - alpha))
}

/// The opacity of a pixel of the icon: a filled square that reaches nine pixels from
/// the middle, with corners rounded by four pixels and an edge that fades over one.
pub open spec fn is_opacity(alpha: u8, x: int, y: int) -> bool {
    &&& alpha > 0 ==> opaque_by(alpha as int, x, y)
    &&& alpha < 255 ==> !opaque_by(alpha + 1, x, y)
}

/// The bytes of a pixel of the icon: black, of its opacity.
pub open spec fn is_icon_pixel(rgba: Seq<u8>, x: int, y: int) -> bool {
    let i = (y * 22 + x) * 4;
    &&& rgba[i] == 0
    &&& rgba[i + 1] == 0
    &&& rgba[i + 2] == 0
    &&& is_opacity(rgba[i + 3], x, y)
}

fn outside_by(x: u32) -> (r: i64)
    requires
        x < 22,
    ensures
        r == outside(x as int),
        0 <= r <= 11,
{
    let off: i64 = if 2 * x >= 21 {
        2 * x as i64 - 21
    } else {
        21 - 2 * x as i64
    };
    if off >= 10 {
        off - 10
    } else {
        0
    }
}

fn icon_alpha(x: u32, y: u32) -> (r: u8)
    requires
        x < 22,
        y < 22,
    ensures
        is_opacity(r, x as int, y as int),
{
    let dx: i64 = outside_by(x);
    let dy: i64 = outside_by(y);
    proof {
        assert(0 <= dx * dx <= 121 && 0 <= dy * dy <= 121) by (nonlinear_arith)
            requires
                0 <= dx <= 11,
                0 <= dy <= 11,
        ;
    }
    let far: i64 = 65025 * (dx * dx + dy * dy);
    let mut alpha: i64 = 255;
    while alpha > 0
        invariant_except_break
            0 <= alpha <= 255,
            alpha < 255 ==> !opaque_by(alpha + 1, x as int, y as int),
        invariant
            far == 65025 * distance_squared(x as int, y as int),
        ensures
            0 <= alpha <= 255,
            alpha > 0 ==> opaque_by(alpha as int, x as int, y as int),
            alpha < 255 ==> !opaque_by(alpha + 1, x as int, y as int),
        decreases alpha,
    {
        let reach: i64 = 2 * (1020 - alpha);
        proof {
            assert(0 <= reach * reach <= 2040 * 2040) by (nonlinear_arith)
                requires
                    0 <= reach <= 2040,
            ;
        }
        if far <= reach * reach {
            break;
        }
        alpha = alpha - 1;
    }
    alpha as u8
}

/// The pixels of the icon, row by row, four bytes each.
pub fn icon_rgba() -> (r: Vec<u8>)
    ensures
        r@.len() == 22 * 22 * 4,
        forall|x: int, y: int|
            0 <= x < 22 && 0 <= y < 22 ==> #[trigger] is_icon_pixel(r@, x, y),
{
    let mut rgba: Vec<u8> = Vec::new();
    let mut y: u32 = 0;
    while y < ICON_SIZE
        invariant
            y <= 22,
            rgba@.len() == y * 88,
            forall|px: int, py: int|
                0 <= px < 22 && 0 <= py < y ==> #[trigger] is_icon_pixel(rgba@, px, py),
        decreases 22 - y,
    {
        let mut x: u32 = 0;
        while x < ICON_SIZE
            invariant
                y < 22,
                x <= 22,
                rgba@.len() == y * 88 + x * 4,
                forall|px: int, py: int|
                    0 <= px < 22 && 0 <= py < 22 && (py < y || py == y && px < x)
                        ==> #[trigger] is_icon_pixel(rgba@, px, py),
            decreases 22 - x,
        {
            let alpha: u8 = icon_alpha(x, y);
            let ghost before = rgba@;
            rgba.push(0);
            rgba.push(0);
            rgba.push(0);
            rgba.push(alpha);
            proof {
                assert forall|px: int, py: int|
                    0 <= px < 22 && 0 <= py < 22 && (py < y || py == y && px
                        <= x) implies #[trigger] is_icon_pixel(rgba@, px, py) by {
                    if py < y || px < x {
                        assert(is_icon_pixel(before, px, py));
                        let i = (py * 22 + px) * 4;
                        assert(0 <= i && i + 3 < before.len());
                    }
                }
            }
            x = x + 1;
        }
        y = y + 1;
    }
    rgba
}

/// Toggling twice leaves everything as it was, but set.
pub proof fn law_toggles_undo_themselves(state: TrayState)
    ensures
        ({
            let lock = Some(TrayCommand::ToggleLock);
            let panel = Some(TrayCommand::ToggleSettings);
            &&& state_after(state_after(state, lock), lock) == (TrayState {
                attached_set: true,
                ..state
            })
            &&& state_after(state_after(state, panel), panel) == (TrayState {
                settings_set: true,
                ..state
            })
        }),
{
}

/// No later click takes back that the program is to end, or that all media are
/// gone.
pub proof fn law_quit_and_reset_last(
    ids: TrayIds,
    start: TrayState,
    clicks: Seq<String>,
    n: nat,
    m: nat,
)
    requires
        n <= m <= clicks.len(),
    ensures
        ({
            let early = state_after_clicks(ids, start, clicks, n);
            let late = state_after_clicks(ids, start, clicks, m);
            &&& early.quits <= late.quits
            &&& early.was_reset ==> late.was_reset
        }),
    decreases m - n,
{
    if n < m {
        law_quit_and_reset_last(ids, start, clicks, n, (m - 1) as nat);
    }
}

/// A pixel that is no farther from the inner square is no less opaque.
proof fn lemma_nearer_is_no_less_opaque(
    alpha: int,
    x: int,
    y: int,
    more: int,
    nx: int,
    ny: int,
)
    requires
        opaque_by(alpha, x, y),
        0 < more <= alpha <= 255,
        outside(nx) <= outside(x),
        outside(ny) <= outside(y),
    ensures
        opaque_by(more, nx, ny),
{
    let far = distance_squared(x, y);
    let near = distance_squared(nx, ny);
    let (a, b, c, d) = (outside(x), outside(y), outside(nx), outside(ny));
    assert(c * c + d * d <= a * a + b * b) by (nonlinear_arith)
        requires
            0 <= c <= a,
            0 <= d <= b,
    ;
    assert(near <= far);
    assert(255 * 255 * near <= (2 * (1020 - more)) * (2 * (1020 - more))) by (nonlinear_arith)
        requires
            near <= far,
            255 * 255 * far <= (2 * (1020 - alpha)) * (2 * (1020 - alpha)),
            0 < more <= alpha <= 255,
    ;
}

/// The icon is filled: a pixel that is no farther from the middle than another one,
/// across and down, is no less opaque.
pub proof fn law_icon_is_filled(x: int, y: int, alpha: u8, nx: int, ny: int, near: u8)
    requires
        is_opacity(alpha, x, y),
        is_opacity(near, nx, ny),
        off_middle(nx) <= off_middle(x),
        off_middle(ny) <= off_middle(y),
    ensures
        alpha <= near,
{
    if near < alpha {
        lemma_nearer_is_no_less_opaque(alpha as int, x, y, near + 1, nx, ny);
    }
}

/// The icon is a square of straight sides and rounded corners: a pixel beside the
/// inner square is black as long as it is within eight pixels of the middle, nothing
/// is seen from nine pixels on, and nothing from eight where that is so both across
/// and down.
pub proof fn law_icon_is_square(x: int, y: int, alpha: u8)
    requires
        is_opacity(alpha, x, y),
    ensures
        off_middle(x) <= 10 && off_middle(y) <= 16 ==> alpha == 255,
        off_middle(x) <= 16 && off_middle(y) <= 10 ==> alpha == 255,
        off_middle(x) >= 18 || off_middle(y) >= 18 ==> alpha == 0,
        off_middle(x) >= 16 && off_middle(y) >= 16 ==> alpha == 0,
{
    let far = distance_squared(x, y);
    let (a, b) = (outside(x), outside(y));
    if off_middle(x) <= 10 && off_middle(y) <= 16 || off_middle(x) <= 16 && off_middle(y) <= 10 {
        assert(a * a + b * b <= 36) by (nonlinear_arith)
            requires
                a == 0 && 0 <= b <= 6 || b == 0 && 0 <= a <= 6,
        ;
        if alpha < 255 {
            let more = alpha + 1;
            assert(255 * 255 * far <= (2 * (1020 - more)) * (2 * (1020 - more)))
                by (nonlinear_arith)
                requires
                    far <= 36,
                    more <= 255,
            ;
            assert(opaque_by(more, x, y));
        }
    }
    if off_middle(x) >= 18 || off_middle(y) >= 18 || off_middle(x) >= 16 && off_middle(y) >= 16 {
        assert(a * a + b * b >= 64) by (nonlinear_arith)
            requires
                a >= 8 && b >= 0 || b >= 8 && a >= 0 || a >= 6 && b >= 6,
        ;
        if alpha > 0 {
            let some = alpha as int;
            assert(255 * 255 * far > (2 * (1020 - some)) * (2 * (1020 - some)))
                by (nonlinear_arith)
                requires
                    far >= 64,
                    0 < some <= 255,
            ;
            assert(!opaque_by(some, x, y));
        }
    }
}

/// The menu has its four commands from the top, with a line before Reset and one
/// before Quit, and says what each does.
pub proof fn law_menu_from_the_top()
    ensures
        menu_layout().len() == 6,
        menu_layout()[0] == Some(TrayCommand::ToggleLock),
        menu_layout()[1] == Some(TrayCommand::ToggleSettings),
        menu_layout()[2] is None,
        menu_layout()[3] == Some(TrayCommand::Reset),
        menu_layout()[4] is None,
        menu_layout()[5] == Some(TrayCommand::Quit),
        command_label(TrayCommand::ToggleLock) == "Toggle wallpaper lock"@,
        command_label(TrayCommand::ToggleSettings) == "Toggle settings panel"@,
        command_label(TrayCommand::Reset) == "Reset to initial state"@,
        command_label(TrayCommand::Quit) == "Quit"@,
{
}

/// A line of the menu stands for its command and carries its label.
pub proof fn law_menu_entries(entry: MenuEntry, line: Option<TrayCommand>)
    requires
        is_entry(entry, line),
    ensures
        line is None <==> entry is Separator,
        line matches Some(command) ==> entry->command == command && entry->label@ == command_label(
            command,
        ),
{
}

/// A click has the command of the first item that it names, and none where it names
/// no item.
pub proof fn law_clicks_name_their_item(ids: TrayIds, event: Seq<char>)
    ensures
        match command_of(ids, event) {
            Some(TrayCommand::ToggleLock) => event == ids.toggle_lock_id@,
            Some(TrayCommand::ToggleSettings) => event == ids.toggle_settings_id@ && event
                != ids.toggle_lock_id@,
            Some(TrayCommand::Reset) => event == ids.reset_id@ && event != ids.toggle_settings_id@
                && event != ids.toggle_lock_id@,
            Some(TrayCommand::Quit) => event == ids.quit_id@ && event != ids.reset_id@ && event
                != ids.toggle_settings_id@ && event != ids.toggle_lock_id@,
            None => event != ids.quit_id@ && event != ids.reset_id@ && event
                != ids.toggle_settings_id@ && event != ids.toggle_lock_id@,
        },
{
}

/// Each command changes what it is for: the lock, the panel, the media with both, or
/// the number of times that the program was asked to end. Another click changes
/// nothing.
pub proof fn law_commands_change_their_own(state: TrayState, command: Option<TrayCommand>)
    ensures
        ({
            let after = state_after(state, command);
            let locks = command == Some(TrayCommand::ToggleLock);
            let panels = command == Some(TrayCommand::ToggleSettings);
            let resets = command == Some(TrayCommand::Reset);
            let quits = command == Some(TrayCommand::Quit);
            &&& after.attached == if resets {
                false
            } else {
                state.attached != locks
            }
            &&& after.show_settings == if resets {
                true
            } else {
                state.show_settings != panels
            }
            &&& after.attached_set == (state.attached_set || locks || resets)
            &&& after.settings_set == (state.settings_set || panels || resets)
            &&& after.was_reset == (state.was_reset || resets)
            &&& after.quits == state.quits + if quits {
                1int
            } else {
                0
            }
        }),
{
}

/// No click, no change; and each click is done after the ones before it.
pub proof fn law_clicks_are_done_in_order(
    ids: TrayIds,
    start: TrayState,
    clicks: Seq<String>,
    n: nat,
)
    ensures
        state_after_clicks(ids, start, clicks, 0) == start,
        state_after_clicks(ids, start, clicks, n + 1) == state_after(
            state_after_clicks(ids, start, clicks, n),
            command_of(ids, clicks[n as int]@),
        ),
{
}

/// The icon is black all over, and each pixel has its opacity in the last of its four
/// bytes.
pub proof fn law_icon_is_black(rgba: Seq<u8>, x: int, y: int)
    requires
        is_icon_pixel(rgba, x, y),
    ensures
        rgba[88 * y + 4 * x] == 0,
        rgba[88 * y + 4 * x + 1] == 0,
        rgba[88 * y + 4 * x + 2] == 0,
        is_opacity(rgba[88 * y + 4 * x + 3], x, y),
{
}

/// The straight edges of the icon fade to just under a half on their last pixel, and
/// the opacity of a pixel is settled by its place.
pub proof fn law_icon_edge_fades(x: int, y: int, alpha: u8, again: u8)
    requires
        is_opacity(alpha, x, y),
        is_opacity(again, x, y),
    ensures
        off_middle(x) == 17 && off_middle(y) <= 10 ==> alpha == 127,
        off_middle(x) <= 10 && off_middle(y) == 17 ==> alpha == 127,
        alpha == again,
        off_middle(x) == if x <= 10 {
            21 - 2 * x
        } else {
            2 * x - 21
        },
{
    law_icon_is_filled(x, y, alpha, x, y, again);
    law_icon_is_filled(x, y, again, x, y, alpha);
    if off_middle(x) == 17 && off_middle(y) <= 10 || off_middle(x) <= 10 && off_middle(y) == 17 {
        let far = distance_squared(x, y);
        let (a, b) = (outside(x), outside(y));
        assert(a * a + b * b == 49) by (nonlinear_arith)
            requires
                a == 7 && b == 0 || a == 0 && b == 7,
        ;
        if alpha > 127 {
            let some = alpha as int;
            assert(255 * 255 * far > (2 * (1020 - some)) * (2 * (1020 - some)))
                by (nonlinear_arith)
                requires
                    far == 49,
                    128 <= some <= 255,
            ;
            assert(!opaque_by(some, x, y));
        }
        if alpha < 127 {
            let more = alpha + 1;
            assert(255 * 255 * far <= (2 * (1020 - more)) * (2 * (1020 - more)))
                by (nonlinear_arith)
                requires
                    far == 49,
                    0 <= more <= 127,
            ;
            assert(opaque_by(more, x, y));
        }
    }
}

/// Without clicks nothing happens. A click on one item does what the item says and
/// nothing else, and one that is on none of them does nothing.
pub proof fn law_one_click_does_one_thing<E, V, H>(
    ids: TrayIds,
    clicks: Vec<String>,
    attached: &mut WallpaperAttached,
    settings: &mut WallpaperSettings,
    media: &mut WallpaperMedia<E, V, H>,
    outcome: TrayOutcome,
)
    requires
        call_ensures(
            handle_tray_events::<E, V, H>,
            (&ids, &clicks, attached, settings, media),
            outcome,
        ),
        clicks@.len() <= 1,
    ensures
        final(settings).selected_monitor == old(settings).selected_monitor,
        ({
            let command = if clicks@.len() == 0 {
                None
            } else {
                command_of(ids, clicks@[0]@)
            };
            &&& outcome.quits == if command == Some(TrayCommand::Quit) {
                1int
            } else {
                0
            }
            &&& outcome.attached_set <==> command == Some(TrayCommand::ToggleLock) || command
                == Some(TrayCommand::Reset)
            &&& outcome.settings_set <==> command == Some(TrayCommand::ToggleSettings) || command
                == Some(TrayCommand::Reset)
            &&& final(attached).0 == match command {
                Some(TrayCommand::ToggleLock) => !old(attached).0,
                Some(TrayCommand::Reset) => false,
                _ => old(attached).0,
            }
            &&& final(settings).show_settings == match command {
                Some(TrayCommand::ToggleSettings) => !old(settings).show_settings,
                Some(TrayCommand::Reset) => true,
                _ => old(settings).show_settings,
            }
            &&& command != Some(TrayCommand::Reset) ==> final(media).slots@ == old(media).slots@
            &&& command == Some(TrayCommand::Reset) ==> final(media).slots@.len() == old(
                media,
            ).slots@.len() && forall|i: int|
                0 <= i < old(media).slots@.len() ==> (#[trigger] final(media).slots@[i]).media_path is None
        }),
{
    reveal_with_fuel(state_after_clicks, 2);
}

/// Clicks none of which is on the reset item leave the media alone, however many there
/// are, and with the reset item among them every monitor loses its media.
pub proof fn law_only_reset_takes_media_away<E, V, H>(
    ids: TrayIds,
    clicks: Vec<String>,
    attached: &mut WallpaperAttached,
    settings: &mut WallpaperSettings,
    media: &mut WallpaperMedia<E, V, H>,
    outcome: TrayOutcome,
    i: int,
)
    requires
        call_ensures(
            handle_tray_events::<E, V, H>,
            (&ids, &clicks, attached, settings, media),
            outcome,
        ),
        0 <= i < old(media).slots@.len(),
    ensures
        final(settings).selected_monitor == old(settings).selected_monitor,
        (forall|j: int|
            0 <= j < clicks@.len() ==> command_of(ids, (#[trigger] clicks@[j])@) != Some(
                TrayCommand::Reset,
            )) ==> final(media).slots@ == old(media).slots@,
        (exists|j: int|
            0 <= j < clicks@.len() && command_of(ids, (#[trigger] clicks@[j])@) == Some(
                TrayCommand::Reset,
            )) ==> final(media).slots@[i].media_path is None,
{
    let start = TrayState {
        attached: old(attached).0,
        show_settings: old(settings).show_settings,
        attached_set: false,
        settings_set: false,
        was_reset: false,
        quits: 0,
    };
    lemma_reset_among(ids, start, clicks@, clicks@.len());
    if state_after_clicks(ids, start, clicks@, clicks@.len()).was_reset {
        assert(final(media).slots@[i] == old(media).slots@[i].emptied());
    }
}

proof fn lemma_reset_among(ids: TrayIds, start: TrayState, clicks: Seq<String>, n: nat)
    requires
        n <= clicks.len(),
        !start.was_reset,
    ensures
        state_after_clicks(ids, start, clicks, n).was_reset <==> exists|j: int|
            0 <= j < n && command_of(ids, (#[trigger] clicks[j])@) == Some(TrayCommand::Reset),
    decreases n,
{
    if n > 0 {
        let less = (n - 1) as nat;
        lemma_reset_among(ids, start, clicks, less);
        assert(0 <= less < n);
        if command_of(ids, clicks[less as int]@) == Some(TrayCommand::Reset) {
            assert(exists|j: int|
                0 <= j < n && command_of(ids, (#[trigger] clicks[j])@) == Some(TrayCommand::Reset));
        }
    }
}

/// The menu shows its four items from the top, each with what it says, and a line before
/// Reset and before Quit.
pub proof fn law_menu_is_shown(menu: Vec<MenuEntry>)
    requires
        call_ensures(tray_menu, (), menu),
    ensures
        menu@.len() == 6,
        menu@[0] is Item && menu@[0]->command == TrayCommand::ToggleLock && menu@[0]->label@
            == "Toggle wallpaper lock"@,
        menu@[1] is Item && menu@[1]->command == TrayCommand::ToggleSettings && menu@[1]->label@
            == "Toggle settings panel"@,
        menu@[2] is Separator,
        menu@[3] is Item && menu@[3]->command == TrayCommand::Reset && menu@[3]->label@
            == "Reset to initial state"@,
        menu@[4] is Separator,
        menu@[5] is Item && menu@[5]->command == TrayCommand::Quit && menu@[5]->label@ == "Quit"@,
{
    assert(is_entry(menu@[0], menu_layout()[0]));
    assert(is_entry(menu@[1], menu_layout()[1]));
    assert(is_entry(menu@[2], menu_layout()[2]));
    assert(is_entry(menu@[3], menu_layout()[3]));
    assert(is_entry(menu@[4], menu_layout()[4]));
    assert(is_entry(menu@[5], menu_layout()[5]));
}

/// A click on an item whose name no item above it has gives the command of that item, and
/// a click on none gives none.
pub proof fn law_click_gives_its_command(
    ids: TrayIds,
    event: String,
    command: Option<TrayCommand>,
)
    requires
        call_ensures(find_command, (&ids, &event), command),
    ensures
        command == Some(TrayCommand::ToggleLock) <==> event@ == ids.toggle_lock_id@,
        command == Some(TrayCommand::ToggleSettings) <==> event@ == ids.toggle_settings_id@
            && event@ != ids.toggle_lock_id@,
        command == Some(TrayCommand::Reset) <==> event@ == ids.reset_id@ && event@
            != ids.toggle_settings_id@ && event@ != ids.toggle_lock_id@,
        command is None ==> event@ != ids.quit_id@,
        command == Some(TrayCommand::Quit) ==> event@ == ids.quit_id@,
{
}

/// The icon that is drawn is black and has its opacity in the last byte of each pixel:
/// full in the middle, just under a half on the last pixel of a straight edge, and none in
/// the corners.
pub proof fn law_icon_is_drawn(rgba: Vec<u8>, x: int, y: int)
    requires
        call_ensures(icon_rgba, (), rgba),
        0 <= x < 22,
        0 <= y < 22,
    ensures
        rgba@.len() == 1936,
        rgba@[88 * y + 4 * x] == 0,
        rgba@[88 * y + 4 * x + 1] == 0,
        rgba@[88 * y + 4 * x + 2] == 0,
        3 <= x <= 18 && 6 <= y <= 15 ==> rgba@[88 * y + 4 * x + 3] == 255,
        6 <= x <= 15 && 3 <= y <= 18 ==> rgba@[88 * y + 4 * x + 3] == 255,
        (x == 2 || x == 19) && 6 <= y <= 15 ==> rgba@[88 * y + 4 * x + 3] == 127,
        (y == 2 || y == 19) && 6 <= x <= 15 ==> rgba@[88 * y + 4 * x + 3] == 127,
        x < 2 || x > 19 || y < 2 || y > 19 ==> rgba@[88 * y + 4 * x + 3] == 0,
        (x <= 2 || x >= 19) && (y <= 3 || y >= 18) ==> rgba@[88 * y + 4 * x + 3] == 0,
        (x <= 3 || x >= 18) && (y <= 2 || y >= 19) ==> rgba@[88 * y + 4 * x + 3] == 0,
{
    assert(is_icon_pixel(rgba@, x, y));
    let alpha = rgba@[88 * y + 4 * x + 3];
    let (a, b) = (outside(x), outside(y));
    let far = a * a + b * b;
    assert(far >= 0) by (nonlinear_arith)
        requires
            far == a * a + b * b,
    ;
    lemma_opacity_by_distance(x, y, alpha, far);
    assert(a == 0 ==> far == b * b) by (nonlinear_arith)
        requires
            far == a * a + b * b,
    ;
    assert(b == 0 ==> far == a * a) by (nonlinear_arith)
        requires
            far == a * a + b * b,
    ;
    assert(a <= 5 && b == 0 || a == 0 && b <= 5 ==> far <= 25) by (nonlinear_arith)
        requires
            far == a * a + b * b,
            a >= 0,
            b >= 0,
    ;
    assert(a == 7 && b == 0 || a == 0 && b == 7 ==> far == 49) by (nonlinear_arith)
        requires
            far == a * a + b * b,
    ;
    assert(a >= 9 || b >= 9 || a >= 7 && b >= 5 || a >= 5 && b >= 7 ==> far >= 74)
        by (nonlinear_arith)
        requires
            far == a * a + b * b,
            a >= 0,
            b >= 0,
    ;
}

proof fn lemma_opacity_by_distance(x: int, y: int, alpha: u8, far: int)
    requires
        is_opacity(alpha, x, y),
        far == distance_squared(x, y),
        far >= 0,
    ensures
        far <= 36 ==> alpha == 255,
        far == 49 ==> alpha == 127,
        far >= 64 ==> alpha == 0,
{
    if far <= 36 && alpha < 255 {
        let more = alpha + 1;
        assert(255 * 255 * far <= (2 * (1020 - more)) * (2 * (1020 - more))) by (nonlinear_arith)
            requires
                0 <= far <= 36,
                0 <= more <= 255,
        ;
    }
    if far == 49 && alpha > 127 {
        let some = alpha as int;
        assert(255 * 255 * far > (2 * (1020 - some)) * (2 * (1020 - some))) by (nonlinear_arith)
            requires
                far == 49,
                128 <= some <= 255,
        ;
    }
    if far == 49 && alpha < 127 {
        let more = alpha + 1;
        assert(255 * 255 * far <= (2 * (1020 - more)) * (2 * (1020 - more))) by (nonlinear_arith)
            requires
                far == 49,
                0 <= more <= 127,
        ;
    }
    if far >= 64 && alpha > 0 {
        let some = alpha as int;
        assert(255 * 255 * far > (2 * (1020 - some)) * (2 * (1020 - some))) by (nonlinear_arith)
            requires
                far >= 64,
                1 <= some <= 255,
        ;
    }
}

proof fn lemma_same_clicks(
    ids: TrayIds,
    start: TrayState,
    clicks: Seq<String>,
    more: Seq<String>,
    n: nat,
)
    requires
        n <= clicks.len(),
        n <= more.len(),
        forall|i: int| 0 <= i < n ==> clicks[i] == more[i],
    ensures
        state_after_clicks(ids, start, clicks, n) == state_after_clicks(ids, start, more, n),
    decreases n,
{
    if n > 0 {
        lemma_same_clicks(ids, start, clicks, more, (n - 1) as nat);
    }
}

/// One more click is done after the others: it does what its item says to the state that
/// they led to, and counts once more where it asks the program to end.
pub proof fn law_one_more_click<E, V, H>(
    ids: TrayIds,
    clicks: Vec<String>,
    more: Vec<String>,
    click: String,
    attached: &mut WallpaperAttached,
    settings: &mut WallpaperSettings,
    media: &mut WallpaperMedia<E, V, H>,
    outcome: TrayOutcome,
    attached_more: &mut WallpaperAttached,
    settings_more: &mut WallpaperSettings,
    media_more: &mut WallpaperMedia<E, V, H>,
    outcome_more: TrayOutcome,
)
    requires
        more@ == clicks@.push(click),
        call_ensures(
            handle_tray_events::<E, V, H>,
            (&ids, &clicks, attached, settings, media),
            outcome,
        ),
        call_ensures(
            handle_tray_events::<E, V, H>,
            (&ids, &more, attached_more, settings_more, media_more),
            outcome_more,
        ),
        *old(attached) == *old(attached_more),
        *old(settings) == *old(settings_more),
    ensures
        ({
            let command = command_of(ids, click@);
            let locks = command == Some(TrayCommand::ToggleLock);
            let panels = command == Some(TrayCommand::ToggleSettings);
            let resets = command == Some(TrayCommand::Reset);
            let quits = command == Some(TrayCommand::Quit);
            &&& outcome_more.quits == outcome.quits + if quits {
                1int
            } else {
                0
            }
            &&& outcome_more.attached_set <==> outcome.attached_set || locks || resets
            &&& outcome_more.settings_set <==> outcome.settings_set || panels || resets
            &&& final(attached_more).0 == if resets {
                false
            } else {
                final(attached).0 != locks
            }
            &&& final(settings_more).show_settings == if resets {
                true
            } else {
                final(settings).show_settings != panels
            }
        }),
{
    let start = TrayState {
        attached: old(attached).0,
        show_settings: old(settings).show_settings,
        attached_set: false,
        settings_set: false,
        was_reset: false,
        quits: 0,
    };
    let n = clicks@.len();
    lemma_same_clicks(ids, start, clicks@, more@, n);
    law_clicks_are_done_in_order(ids, start, more@, n);
    law_commands_change_their_own(
        state_after_clicks(ids, start, clicks@, n),
        command_of(ids, click@),
    );
    assert(more@[n as int] == click);
}

} // verus!
