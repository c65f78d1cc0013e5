use wallpaper_poc::color::Srgb;
use wallpaper_poc::controls::WallpaperSettings;
use wallpaper_poc::media::{FitMode, MediaSlot, WallpaperMedia};
use wallpaper_poc::platform::WallpaperAttached;
use wallpaper_poc::tray::{
    find_command, handle_tray_events, icon_rgba, tray_menu, MenuEntry, TrayCommand, TrayIds,
    ICON_SIZE,
};

fn ids() -> TrayIds {
    TrayIds {
        toggle_lock_id: "1".to_string(),
        toggle_settings_id: "2".to_string(),
        reset_id: "3".to_string(),
        quit_id: "4".to_string(),
    }
}

fn one_slot() -> WallpaperMedia<u32, (), ()> {
    WallpaperMedia {
        slots: vec![MediaSlot {
            monitor_index: 0,
            monitor_entity: 0,
            monitor_name: None,
            target_physical: (1, 1),
            media_path: Some("a.png".into()),
            fit_mode: FitMode::Cover,
            dirty: false,
            video: None,
            handle: None,
            dims: None,
            background_color: Srgb::black(),
        }],
    }
}

fn click(names: &[&str]) -> Vec<String> {
    names.iter().map(|n| n.to_string()).collect()
}

#[test]
fn the_menu_has_its_items_in_order() {
    let menu: Vec<Option<(TrayCommand, &str)>> = tray_menu()
        .iter()
        .map(|entry| match entry {
            MenuEntry::Item { command, label } => Some((*command, *label)),
            MenuEntry::Separator => None,
        })
        .collect();
    assert_eq!(
        menu,
        [
            Some((TrayCommand::ToggleLock, "Toggle wallpaper lock")),
            Some((TrayCommand::ToggleSettings, "Toggle settings panel")),
            None,
            Some((TrayCommand::Reset, "Reset to initial state")),
            None,
            Some((TrayCommand::Quit, "Quit")),
        ]
    );
}

#[test]
fn clicks_are_told_apart() {
    let ids = ids();
    assert_eq!(find_command(&ids, &"1".to_string()), Some(TrayCommand::ToggleLock));
    assert_eq!(find_command(&ids, &"2".to_string()), Some(TrayCommand::ToggleSettings));
    assert_eq!(find_command(&ids, &"3".to_string()), Some(TrayCommand::Reset));
    assert_eq!(find_command(&ids, &"4".to_string()), Some(TrayCommand::Quit));
    assert_eq!(find_command(&ids, &"5".to_string()), None);
}

#[test]
fn clicks_are_done_in_order() {
    let mut attached = WallpaperAttached(false);
    let mut settings = WallpaperSettings::default();
    let mut media = one_slot();
    let clicks = click(&["1", "2", "x"]);
    let outcome = handle_tray_events(&ids(), &clicks, &mut attached, &mut settings, &mut media);
    assert!(outcome.quits == 0 && outcome.attached_set && outcome.settings_set);
    assert!(attached.0);
    assert!(!settings.show_settings);
    assert!(!media.slots[0].dirty);
    let clicks = click(&["3", "1"]);
    let outcome = handle_tray_events(&ids(), &clicks, &mut attached, &mut settings, &mut media);
    assert_eq!(outcome.quits, 0);
    assert!(attached.0);
    assert!(settings.show_settings);
    assert!(media.slots[0].dirty);
    assert!(media.slots[0].media_path.is_none());
}

#[test]
fn two_clicks_on_a_toggle_change_nothing() {
    let mut attached = WallpaperAttached(true);
    let mut settings = WallpaperSettings { show_settings: false, selected_monitor: 2 };
    let mut media = one_slot();
    let clicks = click(&["1", "2", "1", "2"]);
    let outcome = handle_tray_events(&ids(), &clicks, &mut attached, &mut settings, &mut media);
    assert_eq!(outcome.quits, 0);
    assert!(attached.0);
    assert!(!settings.show_settings);
    assert_eq!(settings.selected_monitor, 2);
}

#[test]
fn a_toggle_sets_only_its_own() {
    let mut attached = WallpaperAttached(false);
    let mut settings = WallpaperSettings::default();
    let mut media = one_slot();
    let lock = click(&["1"]);
    let outcome = handle_tray_events(&ids(), &lock, &mut attached, &mut settings, &mut media);
    assert!(outcome.attached_set && !outcome.settings_set);
    let panel = click(&["2"]);
    let outcome = handle_tray_events(&ids(), &panel, &mut attached, &mut settings, &mut media);
    assert!(!outcome.attached_set && outcome.settings_set);
}

#[test]
fn each_click_on_quit_counts() {
    let mut attached = WallpaperAttached(false);
    let mut settings = WallpaperSettings::default();
    let mut media = one_slot();
    let clicks = click(&["4", "1", "4", "3"]);
    let outcome = handle_tray_events(&ids(), &clicks, &mut attached, &mut settings, &mut media);
    assert!(outcome.quits == 2 && outcome.attached_set && outcome.settings_set);
    let none = click(&[]);
    let outcome = handle_tray_events(&ids(), &none, &mut attached, &mut settings, &mut media);
    assert!(outcome.quits == 0 && !outcome.attached_set && !outcome.settings_set);
}

#[test]
fn the_icon_is_a_filled_rounded_square() {
    let rgba = icon_rgba();
    let size = ICON_SIZE as usize;
    assert_eq!(rgba.len(), 1936);
    let middle = (size as f32 - 1.0) / 2.0;
    let alpha_at = |x: usize, y: usize| rgba[(y * size + x) * 4 + 3];
    for y in 0..size {
        for x in 0..size {
            let dx = ((x as f32 - middle).abs() - 5.0).max(0.0);
            let dy = ((y as f32 - middle).abs() - 5.0).max(0.0);
            let dist = (dx * dx + dy * dy).sqrt();
            let alpha = ((4.0 - dist).clamp(0.0, 1.0) * 255.0) as u8;
            let i = (y * size + x) * 4;
            assert_eq!(&rgba[i..i + 4], &[0, 0, 0, alpha], "pixel {x},{y}");
        }
    }
    assert_eq!(alpha_at(10, 10), 255);
    assert_eq!(alpha_at(10, 3), 255);
    assert_eq!(alpha_at(10, 2), 127);
    assert_eq!(alpha_at(10, 1), 0);
    assert_eq!(alpha_at(2, 2), 0);
    assert_eq!(alpha_at(6, 3), 255);
}

#[test]
fn the_icon_has_no_holes() {
    let rgba = icon_rgba();
    let size = ICON_SIZE as i32;
    let off = |v: i32| (2 * v - 21).abs();
    for x in 0..size {
        for y in 0..size {
            let nearer = if off(x) > 1 { x + if 2 * x > 21 { -1 } else { 1 } } else { x };
            let at = |x: i32, y: i32| rgba[((y * size + x) * 4 + 3) as usize];
            assert!(at(nearer, y) >= at(x, y));
            assert_eq!(at(x, y), at(y, x));
        }
    }
}
