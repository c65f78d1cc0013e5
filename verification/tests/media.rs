use std::path::PathBuf;
use wallpaper_poc::color::Srgb;
use wallpaper_poc::media::{
    dirty_slots, image_extensions, is_video, is_video_extension, media_extensions,
    take_picked_file, video_extensions, FitMode, FrameAction, LoadRequest, MediaSlot, Picked, WallpaperFor, WallpaperMedia,
};
use wallpaper_poc::picture::Picture;
use wallpaper_poc::platform::WallpaperVisible;
use wallpaper_poc::video::DecodedFrame;

type Slot = MediaSlot<u32, &'static str, u64>;

fn slot(index: usize, name: Option<&str>) -> Slot {
    MediaSlot {
        monitor_index: index,
        monitor_entity: 100 + index as u32,
        monitor_name: name.map(|n| n.to_string()),
        target_physical: (1920, 1080),
        media_path: None,
        fit_mode: FitMode::Contain,
        dirty: false,
        video: None,
        handle: None,
        dims: None,
        background_color: Srgb::black(),
    }
}

fn frame(width: u32, height: u32, pixel: [u8; 4]) -> DecodedFrame {
    DecodedFrame { width, height, rgba: pixel.repeat((width * height) as usize) }
}

#[test]
fn a_monitor_is_labelled_by_name_or_number() {
    assert_eq!(slot(0, Some("DELL U2720Q")).label(), "0 — DELL U2720Q");
    assert_eq!(slot(12, None).label(), "Monitor 12");
}

#[test]
fn containing_is_the_default_fit() {
    assert_eq!(FitMode::default(), FitMode::Contain);
}

#[test]
fn tags_match_their_monitor() {
    assert!(WallpaperFor(3).is_for(3));
    assert!(!WallpaperFor(3).is_for(0));
}

#[test]
fn extensions_are_listed() {
    assert_eq!(image_extensions(), ["png", "jpg", "jpeg", "webp"]);
    assert_eq!(video_extensions(), ["mp4", "mov", "m4v", "webm", "mkv"]);
    assert_eq!(
        media_extensions(),
        ["png", "jpg", "jpeg", "webp", "mp4", "mov", "m4v", "webm", "mkv"]
    );
}

#[test]
fn videos_are_told_by_their_extension() {
    for ext in ["mp4", "MP4", "Mov", "m4v", "WebM", "mkv"] {
        assert!(is_video_extension(Some(ext)), "{ext}");
        assert!(is_video(&PathBuf::from(format!("some.where/a.{ext}"))), "{ext}");
    }
    for ext in ["png", "jpg", "", "mp", "mp44", "avi"] {
        assert!(!is_video_extension(Some(ext)), "{ext}");
        assert!(!is_video(&PathBuf::from(format!("clip.mp4/a.{ext}"))), "{ext}");
    }
    assert!(!is_video_extension(None));
    assert!(!is_video(&PathBuf::from("mp4")));
    assert!(!is_video(&PathBuf::from(".mp4")));
    assert!(is_video(&PathBuf::from("a.png.mp4")));
    assert!(!is_video(&PathBuf::from("a.mp4.png")));
}

#[test]
fn loading_looks_at_the_path() {
    let mut s = slot(0, None);
    assert_eq!(s.start_load(), LoadRequest::Nothing);
    s.assign_media(PathBuf::from("films/clip.MKV"));
    s.handle = Some(7);
    assert_eq!(s.start_load(), LoadRequest::OpenVideo);
    assert!(!s.dirty && s.handle.is_none());
    s.assign_media(PathBuf::from("films/clip.jpeg"));
    assert_eq!(s.start_load(), LoadRequest::OpenPicture);
}

#[test]
fn slots_to_load_are_listed_in_order() {
    let mut slots: Vec<Slot> = (0..5).map(|i| slot(i, None)).collect();
    assert!(dirty_slots(&slots).is_empty());
    slots[4].dirty = true;
    slots[1].dirty = true;
    slots[2].dirty = true;
    assert_eq!(dirty_slots(&slots), [1, 2, 4]);
}

#[test]
fn clearing_and_assigning_mark_a_slot() {
    let mut s = slot(0, None);
    s.assign_media(PathBuf::from("a.png"));
    assert!(s.dirty);
    assert_eq!(s.media_path, Some(PathBuf::from("a.png")));
    s.dirty = false;
    s.clear_media();
    assert!(s.dirty);
    assert_eq!(s.media_path, None);
}

#[test]
fn loading_starts_clean() {
    let mut s = slot(0, None);
    s.assign_media(PathBuf::from("clip.mkv"));
    s.video = Some("old");
    s.handle = Some(7);
    s.dims = Some((3, 4));
    s.background_color = Srgb { r: 5, g: 5, b: 5 };
    s.fit_mode = FitMode::Cover;
    assert_eq!(s.begin_load(Some("mkv")), LoadRequest::OpenVideo);
    assert!(!s.dirty);
    assert!(s.video.is_none());
    assert!(s.handle.is_none());
    assert!(s.dims.is_none());
    assert_eq!(s.background_color, Srgb::black());
    assert_eq!(s.media_path, Some(PathBuf::from("clip.mkv")));
    assert_eq!(s.fit_mode, FitMode::Cover);
}

#[test]
fn a_slot_asks_for_what_its_path_names() {
    let mut s = slot(0, None);
    assert_eq!(s.begin_load(Some("mp4")), LoadRequest::Nothing);
    s.assign_media(PathBuf::from("a.png"));
    assert_eq!(s.begin_load(Some("png")), LoadRequest::OpenPicture);
    assert_eq!(s.begin_load(None), LoadRequest::OpenPicture);
    assert_eq!(s.begin_load(Some("MOV")), LoadRequest::OpenVideo);
}

#[test]
fn an_opened_video_is_taken() {
    let mut s = slot(0, None);
    s.finish_video(None);
    assert!(s.video.is_none());
    s.finish_video(Some("stream"));
    assert_eq!(s.video, Some("stream"));
}

#[test]
fn a_ready_picture_is_taken() {
    let mut s = slot(0, None);
    let picture = Picture {
        width: 40,
        height: 30,
        rgba: Vec::new(),
        background: Srgb { r: 9, g: 8, b: 7 },
        original: (20, 15),
    };
    s.finish_picture(&picture, 5);
    assert_eq!(s.handle, Some(5));
    assert_eq!(s.dims, Some((40, 30)));
    assert_eq!(s.background_color, Srgb { r: 9, g: 8, b: 7 });
}

#[test]
fn frames_are_taken_only_while_something_is_seen() {
    let mut s = slot(0, None);
    assert!(!s.wants_frame(&WallpaperVisible(true)));
    s.video = Some("stream");
    assert!(s.wants_frame(&WallpaperVisible(true)));
    assert!(!s.wants_frame(&WallpaperVisible(false)));
}

#[test]
fn frames_replace_their_like() {
    let mut s = slot(0, None);
    s.video = Some("stream");
    let red = Srgb { r: 31, g: 1, b: 1 };
    let green = Srgb { r: 1, g: 31, b: 1 };
    assert_eq!(s.take_frame(&frame(4, 2, [255, 0, 0, 255]), true), FrameAction::Create(red));
    s.finish_frame((4, 2), red, 1);
    assert_eq!(s.dims, Some((4, 2)));
    assert_eq!(s.handle, Some(1));
    assert_eq!(s.background_color, red);
    assert_eq!(s.take_frame(&frame(4, 2, [0, 255, 0, 255]), true), FrameAction::Replace);
    assert_eq!(s.take_frame(&frame(2, 2, [0, 255, 0, 255]), true), FrameAction::Create(green));
    s.finish_frame((2, 2), green, 2);
    assert_eq!(s.dims, Some((2, 2)));
    assert_eq!(s.background_color, green);
}

#[test]
fn a_picture_that_the_renderer_lost_is_made_anew() {
    let mut s = slot(0, None);
    let blue = Srgb { r: 1, g: 1, b: 31 };
    s.dims = Some((4, 2));
    s.handle = Some(1);
    assert_eq!(s.take_frame(&frame(4, 2, [0, 0, 255, 255]), false), FrameAction::Create(blue));
    s.handle = None;
    assert_eq!(s.take_frame(&frame(4, 2, [0, 0, 255, 255]), true), FrameAction::Create(blue));
}

#[test]
fn a_slot_has_a_picture_just_when_it_knows_a_size() {
    let mut s = slot(0, None);
    let in_step = |s: &Slot| s.handle.is_some() == s.dims.is_some();
    s.finish_frame((4, 2), Srgb::black(), 1);
    assert!(in_step(&s));
    s.assign_media(PathBuf::from("a.mp4"));
    assert!(in_step(&s) && s.handle.is_some());
    s.start_load();
    assert!(in_step(&s) && s.handle.is_none());
    s.finish_video(None);
    s.finish_video(Some("stream"));
    assert!(in_step(&s));
    s.clear_media();
    assert!(in_step(&s));
}

#[test]
fn a_picked_file_goes_to_the_selected_monitor() {
    let mut media: WallpaperMedia<u32, &'static str, u64> =
        WallpaperMedia { slots: vec![slot(0, None), slot(1, None)] };
    assert_eq!(take_picked_file(&mut media, 1, None), Picked::Cancelled);
    assert_eq!(
        take_picked_file(&mut media, 2, Some(PathBuf::from("a.png"))),
        Picked::OutOfRange
    );
    assert!(!media.slots[1].dirty);
    assert_eq!(take_picked_file(&mut media, 1, Some(PathBuf::from("a.png"))), Picked::Assigned);
    assert_eq!(media.slots[1].media_path, Some(PathBuf::from("a.png")));
    assert!(media.slots[1].dirty);
    assert!(!media.slots[0].dirty);
}
