//! How wallpaper windows are put behind other windows and watched there.

use vstd::prelude::*;

verus! {

/// Whether wallpaper windows sit at the desktop layer, or act as ordinary
/// windows.
#[derive(Clone, Copy, Debug, PartialEq, Eq, Structural)]
pub struct WallpaperAttached(pub bool);

impl Default for WallpaperAttached {
    fn default() -> (r: Self)
        ensures
            !r.0,
    {
        WallpaperAttached(false)
    }
}

impl WallpaperAttached {
    /// Attaches the windows to the desktop, or lets go.
    pub fn toggle(&mut self)
        ensures
            final(self).0 == !old(self).0,
    {
        self.0 = !self.0;
    }
}

/// Whether any wallpaper window can be seen. Nothing plays while none can.
#[derive(Clone, Copy, Debug, PartialEq, Eq, Structural)]
pub struct WallpaperVisible(pub bool);

impl Default for WallpaperVisible {
    /// Visible, so that nothing pauses before the windows were looked at.
    fn default() -> (r: Self)
        ensures
            r.0,
    {
        WallpaperVisible(true)
    }
}

/// Some window is known to be on screen. `None` says that a window could not be
/// asked.
pub open spec fn some_on_screen(windows: Seq<Option<bool>>) -> bool {
    exists|i: int| 0 <= i < windows.len() && #[trigger] windows[i] == Some(true)
}

/// Whether some window is known to be on screen.
pub fn any_on_screen(windows: &Vec<Option<bool>>) -> (r: bool)
    ensures
        r == some_on_screen(windows@),
{
    let mut i: usize = 0;
    while i < windows.len()
        invariant
            i <= windows@.len(),
            forall|j: int| 0 <= j < i ==> #[trigger] windows@[j] != Some(true),
        decreases windows@.len() - i,
    {
        if let Some(on_screen) = windows[i] {
            if on_screen {
                assert(windows@[i as int] == Some(true));
                return true;
            }
        }
        i = i + 1;
    }
    false
}

impl WallpaperVisible {
    /// Takes note of what can be seen. The result says whether that is news.
    pub fn update(&mut self, any_visible: bool) -> (r: bool)
        ensures
            final(self).0 == any_visible,
            r == (old(self).0 != any_visible),
    {
        let news: bool = self.0 != any_visible;
        self.0 = any_visible;
        news
    }
}

/// The bit of a window's occlusion state that says that some of it can be seen.
pub const VISIBLE_BIT: usize = 2;

/// Whether a window can be seen, by its occlusion state.
pub fn is_visible_state(state: usize) -> (r: bool)
    ensures
        r == (state as nat / 2 % 2 == 1),
{
    proof {
        assert((state & 2usize != 0) == ((state / 2) % 2 == 1)) by (bit_vector);
    }
    (state & VISIBLE_BIT) != 0
}

/// What is done to wallpaper windows.
#[derive(Clone, Copy, Debug, PartialEq, Eq, Structural)]
pub enum DesktopAction {
    /// They go to the desktop layer.
    Attach,
    /// They become ordinary windows again.
    Detach,
}

/// What is done to wallpaper windows, once the user has changed whether they are
/// attached.
pub fn desktop_action(changed: bool, attached: &WallpaperAttached) -> (r: Option<DesktopAction>)
    ensures
        r == if !changed {
            None
        } else if attached.0 {
            Some(DesktopAction::Attach)
        } else {
            Some(DesktopAction::Detach)
        },
{
    if !changed {
        None
    } else if attached.0 {
        Some(DesktopAction::Attach)
    } else {
        Some(DesktopAction::Detach)
    }
}

/// The window level between the desktop's picture and its icons.
pub const DESKTOP_WINDOW_LEVEL: isize = -2_147_483_623;

/// The window level of ordinary windows.
pub const NORMAL_WINDOW_LEVEL: isize = 0;

/// The window level that an action takes windows to.
pub fn window_level(action: DesktopAction) -> (r: isize)
    ensures
        r == match action {
            DesktopAction::Attach => DESKTOP_WINDOW_LEVEL,
            DesktopAction::Detach => NORMAL_WINDOW_LEVEL,
        },
{
    match action {
        DesktopAction::Attach => DESKTOP_WINDOW_LEVEL,
        DesktopAction::Detach => NORMAL_WINDOW_LEVEL,
    }
}

/// The search for the window behind the desktop's icons. `W` names a window, and
/// is never the one that stands for none.
pub enum WorkerSearch<W> {
    /// To look for the next icon view behind `after`, or for the first one.
    FindView { after: Option<W> },
    /// To look for the worker window next to an icon view.
    FindSibling { view: W },
    /// The worker window was found.
    Found(W),
    /// There is none.
    NotFound,
}

impl<W: Copy> WorkerSearch<W> {
    /// The search after a window was looked for.
    pub open spec fn after(self, answer: Option<W>) -> Self {
        match self {
            WorkerSearch::FindView { .. } => match answer {
                Some(view) => WorkerSearch::FindSibling { view },
                None => WorkerSearch::NotFound,
            },
            WorkerSearch::FindSibling { view } => match answer {
                Some(worker) => WorkerSearch::Found(worker),
                None => WorkerSearch::FindView { after: Some(view) },
            },
            WorkerSearch::Found(worker) => WorkerSearch::Found(worker),
            WorkerSearch::NotFound => WorkerSearch::NotFound,
        }
    }

    /// Before anything was looked for.
    pub fn new() -> (r: Self)
        ensures
            r == (WorkerSearch::FindView { after: None::<W> }),
    {
        WorkerSearch::FindView { after: None }
    }

    /// Goes on with what was found, if anything was.
    pub fn next(self, answer: Option<W>) -> (r: Self)
        ensures
            r == self.after(answer),
    {
        match self {
            WorkerSearch::FindView { after: _ } => match answer {
                Some(view) => WorkerSearch::FindSibling { view },
                None => WorkerSearch::NotFound,
            },
            WorkerSearch::FindSibling { view } => match answer {
                Some(worker) => WorkerSearch::Found(worker),
                None => WorkerSearch::FindView { after: Some(view) },
            },
            WorkerSearch::Found(worker) => WorkerSearch::Found(worker),
            WorkerSearch::NotFound => WorkerSearch::NotFound,
        }
    }
}

/// A worker window is found only next to an icon view, and once the search has
/// ended nothing changes its outcome.
pub proof fn law_worker_stands_next_to_icons<W: Copy>(search: WorkerSearch<W>, answer: Option<W>)
    ensures
        search.after(answer) is Found && !(search is Found) ==> search is FindSibling
            && answer is Some && search.after(answer) == WorkerSearch::Found(answer->0),
        search.after(answer) is NotFound && !(search is NotFound) ==> search is FindView
            && answer is None,
        search is Found || search is NotFound ==> search.after(answer) == search,
{
}

/// Some window is on screen as soon as one is known to be, and not where none is.
pub proof fn law_one_window_is_enough(windows: Seq<Option<bool>>, i: int)
    requires
        0 <= i < windows.len(),
    ensures
        windows[i] == Some(true) ==> some_on_screen(windows),
        some_on_screen(windows) ==> exists|j: int|
            0 <= j < windows.len() && (#[trigger] windows[j]) is Some && windows[j]->0,
{
}

/// A search looks for the worker window next to the view that it found, and behind
/// that view for the next one where there is none.
pub proof fn law_search_goes_on_behind_the_view<W: Copy>(view: W, after: Option<W>)
    ensures
        ({
            let start: WorkerSearch<W> = WorkerSearch::FindView { after };
            let beside = start.after(Some(view));
            &&& beside is FindSibling && beside->view == view
            &&& beside.after(None) matches WorkerSearch::FindView { after: Some(last) } && last
                == view
            &&& start.after(None) is NotFound
        }),
{
}

/// Windows that are attached lie under ordinary ones, at the level of the desktop.
pub proof fn law_window_levels()
    ensures
        DESKTOP_WINDOW_LEVEL == -2_147_483_623,
        NORMAL_WINDOW_LEVEL == 0,
{
}

/// Toggling changes whether windows are attached, and toggling once more changes it
/// back.
pub proof fn law_toggling_twice_changes_nothing(
    once: &mut WallpaperAttached,
    again: &mut WallpaperAttached,
)
    requires
        call_ensures(WallpaperAttached::toggle, (once,), ()),
        call_ensures(WallpaperAttached::toggle, (again,), ()),
        *old(again) == *final(once),
    ensures
        *final(once) != *old(once),
        *final(again) == *old(once),
{
}

/// What can be seen is remembered as it was told, and is news just when it was
/// remembered otherwise: to be told the same once more is none.
pub proof fn law_same_visibility_is_no_news(
    first: &mut WallpaperVisible,
    second: &mut WallpaperVisible,
    told: bool,
    news: bool,
    again: bool,
)
    requires
        call_ensures(WallpaperVisible::update, (first, told), news),
        call_ensures(WallpaperVisible::update, (second, told), again),
        *old(second) == *final(first),
    ensures
        news <==> *final(first) != *old(first),
        !again,
        *final(second) == WallpaperVisible(told),
{
}

/// A window can be seen just when its state leaves two or three over when it is divided
/// by four.
pub proof fn law_second_bit_tells_what_is_seen(state: usize, seen: bool)
    requires
        call_ensures(is_visible_state, (state,), seen),
    ensures
        seen <==> state as int % 4 == 2 || state as int % 4 == 3,
{
}

/// Windows go to a level only once the user has changed whether they are attached: below
/// all others where they are, and to the level of ordinary windows where they are not.
pub proof fn law_attached_windows_lie_at_the_desktop(
    changed: bool,
    attached: WallpaperAttached,
    action: Option<DesktopAction>,
    level: isize,
)
    requires
        call_ensures(desktop_action, (changed, &attached), action),
        action is Some ==> call_ensures(window_level, (action->0,), level),
    ensures
        action is Some <==> changed,
        changed && attached.0 ==> level == -2_147_483_623,
        changed && !attached.0 ==> level == 0,
{
}

/// Without windows none is on screen, and one window more makes a difference only where
/// it is known to be on screen.
pub proof fn law_each_window_counts(
    windows: Vec<Option<bool>>,
    more: Vec<Option<bool>>,
    window: Option<bool>,
    seen: bool,
    also_seen: bool,
)
    requires
        more@ == windows@.push(window),
        call_ensures(any_on_screen, (&windows,), seen),
        call_ensures(any_on_screen, (&more,), also_seen),
    ensures
        also_seen <==> seen || window == Some(true),
        windows@.len() == 0 ==> !seen,
{
    if also_seen {
        let i = choose|i: int| 0 <= i < more@.len() && #[trigger] more@[i] == Some(true);
        if i < windows@.len() {
            assert(windows@[i] == Some(true));
        }
    }
    if seen {
        let i = choose|i: int| 0 <= i < windows@.len() && #[trigger] windows@[i] == Some(true);
        assert(more@[i] == Some(true));
    }
    assert(more@[windows@.len() as int] == window);
}

/// A search starts with the first icon view.
pub proof fn law_search_starts_at_the_first_view<W: Copy>(
    start: WorkerSearch<W>,
    view: W,
    next: WorkerSearch<W>,
)
    requires
        call_ensures(WorkerSearch::<W>::new, (), start),
        call_ensures(WorkerSearch::<W>::next, (start, Some(view)), next),
    ensures
        start matches WorkerSearch::FindView { after: None },
        next matches WorkerSearch::FindSibling { view: found } && found == view,
{
}

} // verus!
