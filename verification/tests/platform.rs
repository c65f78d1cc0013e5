use wallpaper_poc::platform::{
    any_on_screen, desktop_action, is_visible_state, window_level, DesktopAction,
    WallpaperAttached, WallpaperVisible, WorkerSearch, DESKTOP_WINDOW_LEVEL, NORMAL_WINDOW_LEVEL,
    VISIBLE_BIT,
};

#[test]
fn windows_start_detached_and_visible() {
    assert!(!WallpaperAttached::default().0);
    assert!(WallpaperVisible::default().0);
}

#[test]
fn attaching_is_toggled() {
    let mut attached = WallpaperAttached::default();
    attached.toggle();
    assert!(attached.0);
    attached.toggle();
    assert!(!attached.0);
}

#[test]
fn one_window_on_screen_is_enough() {
    assert!(!any_on_screen(&vec![]));
    assert!(!any_on_screen(&vec![None, Some(false)]));
    assert!(any_on_screen(&vec![Some(false), None, Some(true)]));
}

#[test]
fn visibility_is_news_when_it_changes() {
    let mut visible = WallpaperVisible::default();
    assert!(!visible.update(true));
    assert!(visible.update(false));
    assert!(!visible.0);
    assert!(!visible.update(false));
    assert!(visible.update(true));
}

#[test]
fn the_occlusion_state_has_a_visible_bit() {
    assert_eq!(VISIBLE_BIT, 1 << 1);
    assert!(is_visible_state(0b10));
    assert!(is_visible_state(0b1111));
    assert!(!is_visible_state(0b1101));
    assert!(!is_visible_state(0));
}

#[test]
fn windows_follow_what_was_set() {
    assert_eq!(desktop_action(false, &WallpaperAttached(true)), None);
    assert_eq!(desktop_action(true, &WallpaperAttached(true)), Some(DesktopAction::Attach));
    assert_eq!(desktop_action(true, &WallpaperAttached(false)), Some(DesktopAction::Detach));
}

#[test]
fn window_levels_are_those_of_the_desktop() {
    assert_eq!(window_level(DesktopAction::Attach), DESKTOP_WINDOW_LEVEL);
    assert_eq!(window_level(DesktopAction::Detach), NORMAL_WINDOW_LEVEL);
    assert_eq!(DESKTOP_WINDOW_LEVEL, -2_147_483_623);
    assert_eq!(NORMAL_WINDOW_LEVEL, 0);
}

#[test]
fn the_worker_window_is_found_next_to_the_icons() {
    let mut search = WorkerSearch::new();
    assert!(matches!(search, WorkerSearch::FindView { after: None }));
    search = search.next(Some(10));
    assert!(matches!(search, WorkerSearch::FindSibling { view: 10 }));
    search = search.next(None);
    assert!(matches!(search, WorkerSearch::FindView { after: Some(10) }));
    search = search.next(Some(11));
    search = search.next(Some(99));
    assert!(matches!(search, WorkerSearch::Found(99)));
    search = search.next(None);
    assert!(matches!(search, WorkerSearch::Found(99)));
}

#[test]
fn the_worker_window_may_be_missing() {
    let mut search: WorkerSearch<u64> = WorkerSearch::new();
    search = search.next(None);
    assert!(matches!(search, WorkerSearch::NotFound));
    search = search.next(Some(1));
    assert!(matches!(search, WorkerSearch::NotFound));
}
