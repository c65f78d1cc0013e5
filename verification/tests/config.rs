use std::path::PathBuf;
use wallpaper_poc::color::Srgb;
use wallpaper_poc::config::{
    config_differs, config_of, find_entry, loaded_or_default, persist_config_on_change, restore_config,
    PersistedConfig, PersistedMonitorConfig,
};
use wallpaper_poc::media::{FitMode, MediaSlot, WallpaperMedia};

type Media = WallpaperMedia<u32, (), ()>;

fn bare_slot(index: usize, name: Option<&str>) -> MediaSlot<u32, (), ()> {
    MediaSlot {
        monitor_index: index,
        monitor_entity: index as u32,
        monitor_name: name.map(|n| n.to_string()),
        target_physical: (800, 600),
        media_path: None,
        fit_mode: FitMode::Contain,
        dirty: false,
        video: None,
        handle: None,
        dims: None,
        background_color: Srgb::black(),
    }
}

fn entry(name: Option<&str>, path: Option<&str>, fit_mode: FitMode) -> PersistedMonitorConfig {
    PersistedMonitorConfig {
        name: name.map(|n| n.to_string()),
        media_path: path.map(PathBuf::from),
        fit_mode,
    }
}

#[test]
fn nothing_is_remembered_at_first() {
    assert!(PersistedConfig::default().monitors.is_empty());
    let monitor = PersistedMonitorConfig::default();
    assert!(monitor.name.is_none());
    assert!(monitor.media_path.is_none());
    assert_eq!(monitor.fit_mode, FitMode::Contain);
    assert!(loaded_or_default(None).monitors.is_empty());
    let cfg = PersistedConfig { monitors: vec![entry(Some("A"), None, FitMode::Cover)] };
    assert_eq!(loaded_or_default(Some(cfg)).monitors.len(), 1);
}

#[test]
fn entries_are_found_by_name_and_then_by_number() {
    let cfg = PersistedConfig {
        monitors: vec![
            entry(None, None, FitMode::Cover),
            entry(Some("B"), None, FitMode::Cover),
            entry(Some("A"), None, FitMode::Cover),
            entry(Some("A"), None, FitMode::Stretch),
        ],
    };
    assert_eq!(find_entry(&cfg, &Some("A".to_string()), 0), Some(2));
    assert_eq!(find_entry(&cfg, &Some("B".to_string()), 3), Some(1));
    assert_eq!(find_entry(&cfg, &Some("C".to_string()), 3), Some(3));
    assert_eq!(find_entry(&cfg, &Some("C".to_string()), 4), None);
    assert_eq!(find_entry(&cfg, &None, 1), Some(1));
    assert_eq!(find_entry(&cfg, &None, 9), None);
}

#[test]
fn a_remembered_monitor_gets_its_media_back() {
    let cfg = PersistedConfig {
        monitors: vec![
            entry(Some("B"), Some("b.mp4"), FitMode::Stretch),
            entry(Some("A"), Some("a.png"), FitMode::Cover),
            entry(None, None, FitMode::Cover),
        ],
    };
    let mut media: Media = WallpaperMedia {
        slots: vec![
            bare_slot(0, Some("A")),
            bare_slot(1, Some("B")),
            bare_slot(2, Some("C")),
            bare_slot(3, None),
        ],
    };
    restore_config(&mut media, &cfg, &vec![false, true, true]);
    assert_eq!(media.slots[0].media_path, Some(PathBuf::from("a.png")));
    assert_eq!(media.slots[0].fit_mode, FitMode::Cover);
    assert!(media.slots[0].dirty);
    assert_eq!(media.slots[1].media_path, None);
    assert_eq!(media.slots[1].fit_mode, FitMode::Stretch);
    assert!(!media.slots[1].dirty);
    assert_eq!(media.slots[2].media_path, None);
    assert_eq!(media.slots[2].fit_mode, FitMode::Cover);
    assert!(!media.slots[2].dirty);
    assert_eq!(media.slots[3].fit_mode, FitMode::Contain);
    assert_eq!(media.slots[3].monitor_index, 3);
}

#[test]
fn a_saved_configuration_is_restored() {
    let mut saved: Media =
        WallpaperMedia { slots: vec![bare_slot(0, Some("A")), bare_slot(1, None)] };
    saved.slots[0].media_path = Some(PathBuf::from("a.png"));
    saved.slots[1].media_path = Some(PathBuf::from("b.mkv"));
    saved.slots[1].fit_mode = FitMode::Stretch;
    let cfg = config_of(&saved.slots);
    let mut fresh: Media =
        WallpaperMedia { slots: vec![bare_slot(0, Some("A")), bare_slot(1, None)] };
    restore_config(&mut fresh, &cfg, &vec![true, true]);
    for i in 0..2 {
        assert_eq!(fresh.slots[i].media_path, saved.slots[i].media_path);
        assert_eq!(fresh.slots[i].fit_mode, saved.slots[i].fit_mode);
        assert!(fresh.slots[i].dirty);
    }
}

#[test]
fn a_monitor_keeps_its_media_when_its_number_changes() {
    let mut saved: Media =
        WallpaperMedia { slots: vec![bare_slot(0, Some("A")), bare_slot(1, Some("B"))] };
    saved.slots[0].media_path = Some(PathBuf::from("a.png"));
    saved.slots[1].media_path = Some(PathBuf::from("b.mkv"));
    let cfg = config_of(&saved.slots);
    let mut fresh: Media =
        WallpaperMedia { slots: vec![bare_slot(0, Some("B")), bare_slot(1, Some("A"))] };
    restore_config(&mut fresh, &cfg, &vec![true, true]);
    assert_eq!(fresh.slots[0].media_path, Some(PathBuf::from("b.mkv")));
    assert_eq!(fresh.slots[1].media_path, Some(PathBuf::from("a.png")));
}

#[test]
fn namesakes_share_the_first_entry() {
    let mut saved: Media =
        WallpaperMedia { slots: vec![bare_slot(0, Some("A")), bare_slot(1, Some("A"))] };
    saved.slots[0].fit_mode = FitMode::Cover;
    saved.slots[1].fit_mode = FitMode::Stretch;
    let cfg = config_of(&saved.slots);
    let mut fresh: Media =
        WallpaperMedia { slots: vec![bare_slot(0, Some("A")), bare_slot(1, Some("A"))] };
    restore_config(&mut fresh, &cfg, &vec![true, true]);
    assert_eq!(fresh.slots[0].fit_mode, FitMode::Cover);
    assert_eq!(fresh.slots[1].fit_mode, FitMode::Cover);
}

#[test]
fn a_configuration_describes_the_slots() {
    let mut s = bare_slot(0, Some("A"));
    s.media_path = Some(PathBuf::from("x/y.webm"));
    s.fit_mode = FitMode::Cover;
    let cfg = config_of(&vec![s, bare_slot(1, None)]);
    assert_eq!(cfg.monitors.len(), 2);
    assert_eq!(cfg.monitors[0].name.as_deref(), Some("A"));
    assert_eq!(cfg.monitors[0].media_path, Some(PathBuf::from("x/y.webm")));
    assert_eq!(cfg.monitors[0].fit_mode, FitMode::Cover);
    assert!(cfg.monitors[1].name.is_none());
    assert!(cfg.monitors[1].media_path.is_none());
}

#[test]
fn answers_about_paths_decide() {
    let one = |path: Option<&str>| PersistedConfig {
        monitors: vec![entry(Some("A"), path, FitMode::Cover)],
    };
    assert!(!config_differs(&one(Some("a")), &one(Some("b")), &vec![true]));
    assert!(config_differs(&one(Some("a")), &one(Some("a")), &vec![false]));
    assert!(config_differs(&one(None), &one(Some("a")), &vec![true]));
    assert!(config_differs(&one(Some("a")), &one(None), &vec![true]));
    assert!(!config_differs(&one(None), &one(None), &vec![false]));
    let none = PersistedConfig { monitors: Vec::new() };
    assert!(config_differs(&none, &one(None), &vec![true]));
    assert!(config_differs(&one(None), &none, &Vec::new()));
    assert!(!config_differs(&none, &none, &Vec::new()));
}

#[test]
fn only_changes_are_saved() {
    let mut media: Media =
        WallpaperMedia { slots: vec![bare_slot(0, Some("A")), bare_slot(1, None)] };
    let mut last = None;
    assert!(persist_config_on_change(&media, &mut last));
    assert!(!persist_config_on_change(&media, &mut last));
    media.slots[1].dirty = true;
    assert!(!persist_config_on_change(&media, &mut last));
    media.slots[1].media_path = Some(PathBuf::from("a.png"));
    assert!(persist_config_on_change(&media, &mut last));
    assert_eq!(last.as_ref().unwrap().monitors[1].media_path, Some(PathBuf::from("a.png")));
    assert!(!persist_config_on_change(&media, &mut last));
    media.slots[1].media_path = Some(PathBuf::from("b.png"));
    assert!(persist_config_on_change(&media, &mut last));
    media.slots[0].fit_mode = FitMode::Cover;
    assert!(persist_config_on_change(&media, &mut last));
    media.slots[0].monitor_name = None;
    assert!(persist_config_on_change(&media, &mut last));
    media.slots[0].monitor_name = Some("B".to_string());
    assert!(persist_config_on_change(&media, &mut last));
    media.slots.pop();
    assert!(persist_config_on_change(&media, &mut last));
    assert_eq!(last.as_ref().unwrap().monitors.len(), 1);
    assert!(!persist_config_on_change(&media, &mut last));
}
