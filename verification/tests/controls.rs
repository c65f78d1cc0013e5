use std::path::PathBuf;
use wallpaper_poc::color::Srgb;
use wallpaper_poc::controls::{
    attach_label, controls_layout, handle_panel_event, media_label, media_label_of, monitor_choice, open_controls,
    panel_kind, pick_label, place_controls, play_label, reset_state, visibility_change, ControlsLayout,
    ControlsPlace, MonitorChoice, PanelEvent, PanelKind, PanelOutcome, WallpaperSettings,
};
use wallpaper_poc::media::{FitMode, LoadRequest, MediaSlot, WallpaperMedia};
use wallpaper_poc::monitors::MonitorInfo;
use wallpaper_poc::platform::{WallpaperAttached, WallpaperVisible};

type Media = WallpaperMedia<u32, &'static str, u64>;

fn panel_slot(index: usize) -> MediaSlot<u32, &'static str, u64> {
    MediaSlot {
        monitor_index: index,
        monitor_entity: 0,
        monitor_name: None,
        target_physical: (1, 1),
        media_path: Some(PathBuf::from("a.mp4")),
        fit_mode: FitMode::Cover,
        dirty: false,
        video: Some("stream"),
        handle: Some(4),
        dims: Some((2, 2)),
        background_color: Srgb { r: 3, g: 3, b: 3 },
    }
}

fn two_slots() -> Media {
    WallpaperMedia { slots: vec![panel_slot(0), panel_slot(1)] }
}

fn on_monitor(position: (i32, i32), width: u32, scale: f64) -> Vec<MonitorInfo<u32>> {
    vec![MonitorInfo {
        entity: 0,
        name: None,
        physical_width: width,
        physical_height: 1080,
        physical_position: position,
        scale_factor: scale.to_bits(),
        primary: true,
    }]
}

#[test]
fn the_panel_is_shown_at_first() {
    let settings = WallpaperSettings::default();
    assert!(settings.show_settings);
    assert_eq!(settings.selected_monitor, 0);
}

#[test]
fn the_panel_is_toggled() {
    let mut settings = WallpaperSettings { show_settings: true, selected_monitor: 3 };
    settings.toggle_panel();
    assert!(!settings.show_settings);
    settings.toggle_panel();
    assert!(settings.show_settings);
    assert_eq!(settings.selected_monitor, 3);
}

#[test]
fn the_selection_is_clamped() {
    let mut settings = WallpaperSettings { show_settings: true, selected_monitor: 5 };
    settings.clamp_selection(9);
    assert_eq!(settings.selected_monitor, 5);
    settings.clamp_selection(5);
    assert_eq!(settings.selected_monitor, 4);
    settings.clamp_selection(0);
    assert_eq!(settings.selected_monitor, 0);
}

#[test]
fn a_reset_takes_all_media_away() {
    let mut attached = WallpaperAttached(true);
    let mut settings = WallpaperSettings { show_settings: false, selected_monitor: 1 };
    let mut media = two_slots();
    for _ in 0..2 {
        reset_state(&mut attached, &mut settings, &mut media);
        assert!(!attached.0);
        assert!(settings.show_settings);
        assert_eq!(settings.selected_monitor, 1);
        for slot in &media.slots {
            assert!(slot.media_path.is_none());
            assert!(slot.dirty);
            assert_eq!(slot.fit_mode, FitMode::Cover);
            assert_eq!(slot.video, Some("stream"));
        }
    }
    assert_eq!(media.slots[0].begin_load(Some("mp4")), LoadRequest::Nothing);
    assert!(media.slots[0].video.is_none());
}

#[test]
fn the_controls_shrink_while_attached() {
    assert_eq!(controls_layout(true), ControlsLayout { width: 180, height: 48, on_top: false });
    assert_eq!(controls_layout(false), ControlsLayout { width: 340, height: 340, on_top: true });
}

#[test]
fn the_controls_go_to_the_upper_right_corner() {
    let monitors = on_monitor((0, 0), 1920, 1.0);
    assert_eq!(place_controls(&monitors, false), ControlsPlace::At { x: 1540, y: 40 });
    assert_eq!(place_controls(&monitors, true), ControlsPlace::At { x: 1700, y: 40 });
    let monitors = on_monitor((-2560, 100), 2560, 1.25);
    assert_eq!(place_controls(&monitors, false), ControlsPlace::At { x: -465, y: 140 });
    let monitors = on_monitor((0, 0), 3456, 2.0);
    assert_eq!(place_controls(&monitors, true), ControlsPlace::At { x: 3056, y: 40 });
}

#[test]
fn the_controls_go_anywhere_without_a_monitor() {
    assert_eq!(place_controls::<u32>(&Vec::new(), false), ControlsPlace::Automatic);
}

#[test]
fn the_controls_may_be_out_of_range() {
    let far = on_monitor((i32::MAX, 0), 1920, 1.0);
    assert_eq!(place_controls(&far, false), ControlsPlace::OutOfRange);
    let low = on_monitor((0, i32::MAX), 1920, 1.0);
    assert_eq!(place_controls(&low, false), ControlsPlace::OutOfRange);
    let left = on_monitor((i32::MIN, 0), 100, 1.0);
    assert_eq!(place_controls(&left, false), ControlsPlace::OutOfRange);
    let wide = on_monitor((0, 0), u32::MAX, 1.0);
    assert_eq!(place_controls(&wide, false), ControlsPlace::At { x: -381, y: 40 });
}

#[test]
fn the_controls_come_back_when_the_desktop_is_let_go() {
    let monitors = on_monitor((-2560, 100), 2560, 1.25);
    let opened = open_controls(&monitors);
    assert_eq!(opened.layout, controls_layout(false));
    assert_eq!(opened.place, ControlsPlace::At { x: -465, y: 140 });
    let mut look = opened;
    look.follow(false, &monitors, true);
    assert_eq!(look, opened);
    look.follow(true, &monitors, true);
    assert_eq!(look.layout, controls_layout(true));
    assert_eq!(look.place, ControlsPlace::At { x: -265, y: 140 });
    look.follow(true, &monitors, false);
    assert_eq!(look, opened);
    look.follow(true, &Vec::<MonitorInfo<u32>>::new(), true);
    assert_eq!(look.layout, controls_layout(true));
    assert_eq!(look.place, opened.place);
}

#[test]
fn visibility_changes_with_the_settings() {
    assert_eq!(visibility_change(true, true, false), Some(true));
    assert_eq!(visibility_change(true, false, true), Some(false));
    assert_eq!(visibility_change(true, true, true), None);
    assert_eq!(visibility_change(false, true, false), None);
}

#[test]
fn the_panel_depends_on_the_state() {
    let shown = WallpaperSettings { show_settings: true, selected_monitor: 0 };
    let hidden = WallpaperSettings { show_settings: false, selected_monitor: 0 };
    assert_eq!(panel_kind(&hidden, &WallpaperAttached(false)), PanelKind::Hidden);
    assert_eq!(panel_kind(&hidden, &WallpaperAttached(true)), PanelKind::Hidden);
    assert_eq!(panel_kind(&shown, &WallpaperAttached(true)), PanelKind::Locked);
    assert_eq!(panel_kind(&shown, &WallpaperAttached(false)), PanelKind::Full);
}

#[test]
fn labels_say_what_is_going_on() {
    assert_eq!(play_label(&WallpaperVisible(true)), "▶ playing");
    assert_eq!(play_label(&WallpaperVisible(false)), "⏸ paused (occluded)");
    assert_eq!(attach_label(&WallpaperAttached(true)), "🔒 desktop layer");
    assert_eq!(attach_label(&WallpaperAttached(false)), "🔓 interactive");
    assert_eq!(pick_label(true), "Opening…");
    assert_eq!(pick_label(false), "Load Image/Video…");
    assert_eq!(media_label(Some("a.png".to_string())), "a.png");
    assert_eq!(media_label(None), "(none)");
    assert_eq!(media_label_of(&Some(PathBuf::from("films/a.clip.mp4"))), "a.clip.mp4");
    assert_eq!(media_label_of(&Some(PathBuf::from(".."))), "(none)");
    assert_eq!(media_label_of(&None), "(none)");
}

#[test]
fn monitors_are_offered_when_there_are_several() {
    let settings = WallpaperSettings { show_settings: true, selected_monitor: 1 };
    let none: Media = WallpaperMedia { slots: Vec::new() };
    assert!(matches!(monitor_choice(&none, &settings), MonitorChoice::Nothing));
    let one: Media = WallpaperMedia { slots: vec![panel_slot(0)] };
    match monitor_choice(&one, &settings) {
        MonitorChoice::Single(label) => assert_eq!(label, "Monitor 0"),
        _ => panic!("one monitor is a single choice"),
    }
    match monitor_choice(&two_slots(), &settings) {
        MonitorChoice::List { current, labels } => {
            assert_eq!(current, "Monitor 1");
            assert_eq!(labels, ["Monitor 0", "Monitor 1"]);
        }
        _ => panic!("two monitors are a list"),
    }
    let gone = WallpaperSettings { show_settings: true, selected_monitor: 2 };
    match monitor_choice(&two_slots(), &gone) {
        MonitorChoice::List { current, .. } => assert_eq!(current, "-"),
        _ => panic!("two monitors are a list"),
    }
}

#[test]
fn panel_events_do_what_they_say() {
    let mut attached = WallpaperAttached(true);
    let mut settings = WallpaperSettings { show_settings: true, selected_monitor: 0 };
    let mut media = two_slots();
    let mut send = |event: PanelEvent,
                    picking: bool,
                    attached: &mut WallpaperAttached,
                    settings: &mut WallpaperSettings| {
        handle_panel_event(event, picking, attached, settings, &mut media)
    };
    let nothing = PanelOutcome { open_dialog: false, attached_set: false, settings_set: false };
    let attaches = PanelOutcome { attached_set: true, ..nothing };
    let opens = PanelOutcome { open_dialog: true, ..nothing };
    let selects = PanelOutcome { settings_set: true, ..nothing };
    assert_eq!(send(PanelEvent::Unlock, false, &mut attached, &mut settings), attaches);
    assert!(!attached.0);
    assert_eq!(send(PanelEvent::Attach(true), false, &mut attached, &mut settings), attaches);
    assert!(attached.0);
    assert_eq!(send(PanelEvent::Pick, false, &mut attached, &mut settings), opens);
    assert_eq!(send(PanelEvent::Pick, true, &mut attached, &mut settings), nothing);
    assert_eq!(send(PanelEvent::Select(1), false, &mut attached, &mut settings), selects);
    assert_eq!(settings.selected_monitor, 1);
    let stretch = PanelEvent::Fit(FitMode::Stretch);
    assert_eq!(send(stretch, false, &mut attached, &mut settings), nothing);
    assert_eq!(send(PanelEvent::Clear, false, &mut attached, &mut settings), nothing);
    assert_eq!(media.slots[0].fit_mode, FitMode::Cover);
    assert!(!media.slots[0].dirty);
    assert_eq!(media.slots[1].fit_mode, FitMode::Stretch);
    assert!(media.slots[1].dirty);
    assert!(media.slots[1].media_path.is_none());
}

#[test]
fn the_panel_resets_everything() {
    let mut attached = WallpaperAttached(false);
    let mut settings = WallpaperSettings { show_settings: true, selected_monitor: 1 };
    let mut media = two_slots();
    let outcome =
        handle_panel_event(PanelEvent::Reset, false, &mut attached, &mut settings, &mut media);
    assert!(outcome.attached_set && outcome.settings_set && !outcome.open_dialog);
    assert!(media.slots.iter().all(|s| s.dirty && s.media_path.is_none()));
    assert_eq!(settings.selected_monitor, 1);
}

#[test]
fn events_for_a_monitor_that_is_gone_change_no_slot() {
    let mut attached = WallpaperAttached(false);
    let mut settings = WallpaperSettings { show_settings: true, selected_monitor: 7 };
    let mut media = two_slots();
    handle_panel_event(PanelEvent::Clear, false, &mut attached, &mut settings, &mut media);
    handle_panel_event(
        PanelEvent::Fit(FitMode::Contain),
        false,
        &mut attached,
        &mut settings,
        &mut media,
    );
    assert!(media.slots.iter().all(|s| !s.dirty && s.fit_mode == FitMode::Cover));
}
