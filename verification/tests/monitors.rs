use wallpaper_poc::media::{FitMode, WallpaperFor, WallpaperMedia};
use wallpaper_poc::monitors::{
    find_screen, fit_by_hand, fit_to_primary_monitor, fit_wallpaper_window, order_monitors,
    pick_monitor, plan_wallpapers, slot_to_place, Diagnosis, MonitorInfo, Placement, ScreenInfo,
    WindowFit, SETTLING_TICKS,
};

fn monitor(entity: u32, x: i32, primary: bool) -> MonitorInfo<u32> {
    MonitorInfo {
        entity,
        name: Some(format!("M{entity}")),
        physical_width: 1000 + entity,
        physical_height: 500 + entity,
        physical_position: (x, -x),
        scale_factor: 1.0f64.to_bits(),
        primary,
    }
}

fn screen(width: f64, height: f64, scale: f64) -> Option<ScreenInfo> {
    Some(ScreenInfo {
        width: width.to_bits(),
        height: height.to_bits(),
        backing_scale: scale.to_bits(),
    })
}

#[test]
fn the_primary_monitor_is_picked() {
    let all = vec![monitor(1, 0, false), monitor(2, 10, true), monitor(3, 20, true)];
    assert_eq!(pick_monitor(&all), Some(1));
    assert_eq!(pick_monitor(&vec![monitor(1, 0, false), monitor(2, 1, false)]), Some(0));
    assert_eq!(pick_monitor::<u32>(&Vec::new()), None);
}

#[test]
fn the_first_window_covers_the_primary_monitor() {
    let all = vec![monitor(1, 0, false), monitor(2, 10, true)];
    assert_eq!(
        fit_to_primary_monitor(&all),
        Some(WindowFit { size: (1002, 502), position: Some((10, -10)) })
    );
    assert_eq!(fit_to_primary_monitor::<u32>(&Vec::new()), None);
}

#[test]
fn the_primary_monitor_comes_first() {
    let all = vec![monitor(1, 0, false), monitor(2, 0, true), monitor(3, 0, false)];
    assert_eq!(order_monitors(&all), [1, 0, 2]);
    let none = vec![monitor(1, 0, false), monitor(2, 0, false)];
    assert_eq!(order_monitors(&none), [0, 1]);
}

#[test]
fn a_second_primary_monitor_gets_no_wallpaper() {
    let all = vec![monitor(1, 0, true), monitor(2, 0, true), monitor(3, 0, false)];
    assert_eq!(order_monitors(&all), [0, 2]);
}

#[test]
fn each_monitor_gets_a_plan_and_a_slot() {
    let all = vec![monitor(1, 0, false), monitor(2, 0, true), monitor(3, 0, false)];
    let (plans, media): (_, WallpaperMedia<u32, (), ()>) = plan_wallpapers(&all);
    assert_eq!(plans.len(), 3);
    assert_eq!(media.slots.len(), 3);
    let order = [1usize, 0, 2];
    for i in 0..3 {
        assert_eq!(plans[i].tag, WallpaperFor(i));
        assert_eq!(plans[i].monitor, order[i]);
        assert_eq!(plans[i].reuses_window, i == 0);
        assert_eq!(plans[i].title, format!("Wallpaper {i}"));
        assert_eq!(plans[i].layer, i + 1);
        assert_eq!(plans[i].camera_order, -(i as isize) - 10);
        let from = &all[order[i]];
        assert_eq!(media.slots[i].monitor_index, i);
        assert_eq!(media.slots[i].monitor_entity, from.entity);
        assert_eq!(media.slots[i].monitor_name, from.name);
        assert_eq!(media.slots[i].target_physical, (from.physical_width, from.physical_height));
        assert_eq!(media.slots[i].fit_mode, FitMode::Contain);
        assert!(media.slots[i].media_path.is_none());
        assert!(!media.slots[i].dirty);
    }
}

#[test]
fn wallpapers_are_drawn_apart() {
    let all: Vec<MonitorInfo<u32>> = (0..4).map(|i| monitor(i, 0, i == 2)).collect();
    let (plans, _): (_, WallpaperMedia<u32, (), ()>) = plan_wallpapers(&all);
    for a in &plans {
        assert!(a.layer != 0 && a.camera_order < 1);
        for b in &plans {
            if a.tag != b.tag {
                assert!(a.layer != b.layer && a.camera_order != b.camera_order);
            }
        }
    }
}

#[test]
fn no_monitors_give_no_wallpapers() {
    let (plans, media): (_, WallpaperMedia<u32, (), ()>) = plan_wallpapers(&Vec::new());
    assert!(plans.is_empty());
    assert!(media.slots.is_empty());
}

#[test]
fn windows_take_the_size_of_their_monitor() {
    let all = vec![monitor(1, 0, true), monitor(2, 7, false)];
    let (_, media): (_, WallpaperMedia<u32, (), ()>) = plan_wallpapers(&all);
    assert_eq!(
        fit_wallpaper_window(&media, WallpaperFor(0), Some((3, 4))),
        Some(WindowFit { size: (1001, 501), position: Some((3, 4)) })
    );
    assert_eq!(
        fit_wallpaper_window(&media, WallpaperFor(1), Some((3, 4))),
        Some(WindowFit { size: (1002, 502), position: Some((3, 4)) })
    );
    assert_eq!(
        fit_wallpaper_window(&media, WallpaperFor(1), None),
        Some(WindowFit { size: (1002, 502), position: None })
    );
    assert_eq!(fit_wallpaper_window(&media, WallpaperFor(2), Some((3, 4))), None);
}

#[test]
fn windows_are_placed_once_all_are_there() {
    let mut placement = Placement::new();
    assert!(!placement.poll(0, 0));
    assert!(!placement.poll(2, 1));
    assert!(placement.poll(2, 3));
    assert!(placement.done);
    assert!(!placement.poll(2, 2));
    assert!(!placement.poll(1, 5));
}

#[test]
fn all_windows_but_the_first_are_placed() {
    let all = vec![monitor(1, 0, true), monitor(2, 7, false)];
    let (_, media): (_, WallpaperMedia<u32, (), ()>) = plan_wallpapers(&all);
    assert_eq!(slot_to_place(&media, WallpaperFor(0)), None);
    assert_eq!(slot_to_place(&media, WallpaperFor(1)), Some(1));
    assert_eq!(slot_to_place(&media, WallpaperFor(2)), None);
    let there = Some(monitor(9, 44, false));
    let fit = Some(WindowFit { size: (1009, 509), position: Some((44, -44)) });
    assert_eq!(fit_by_hand(&media, WallpaperFor(1), &there), fit);
    assert_eq!(fit_by_hand(&media, WallpaperFor(0), &there), None);
    assert_eq!(fit_by_hand(&media, WallpaperFor(2), &there), None);
    assert_eq!(fit_by_hand::<u32, (), (), u32>(&media, WallpaperFor(1), &None), None);
}

#[test]
fn a_screen_is_found_by_its_physical_size() {
    let screens = vec![
        screen(1728.0, 1117.0, 2.0),
        None,
        screen(1920.0, 1080.0, 1.0),
        screen(960.0, 540.0, 2.0),
    ];
    assert_eq!(find_screen(&screens, (3456, 2234)), Ok(0));
    assert_eq!(find_screen(&screens, (1920, 1080)), Ok(2));
}

#[test]
fn a_screen_may_be_missing() {
    let screens = vec![screen(1920.0, 1080.0, 1.0), None];
    assert_eq!(
        find_screen(&screens, (1920, 1200)),
        Err("no NSScreen matched 1920x1200 physical".to_string())
    );
    assert_eq!(
        find_screen(&Vec::new(), (1, 2)),
        Err("no NSScreen matched 1x2 physical".to_string())
    );
}

#[test]
fn sizes_are_logged_once_after_thirty_frames() {
    let mut diagnosis = Diagnosis::new();
    for _ in 1..SETTLING_TICKS {
        assert!(!diagnosis.tick());
    }
    assert_eq!(diagnosis.ticks, 29);
    assert!(diagnosis.tick());
    assert!(diagnosis.done);
    for _ in 0..100 {
        assert!(!diagnosis.tick());
    }
    assert_eq!(diagnosis.ticks, 30);
}
