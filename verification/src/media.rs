//! The media of each monitor, and what loads, shows and replaces it.

use std::path::PathBuf;

use vstd::prelude::*;
use vstd::string::*;

use crate::color::{black, dominant_color, is_dominant, Srgb};
use crate::config::name_text;
use crate::listing::{lemma_places, places};
use crate::picture::Picture;
use crate::platform::WallpaperVisible;
use crate::text::{
    decimal, equal_but_case, law_same_but_case_at_every_place, push_decimal, same_but_case,
    same_letter,
};
use crate::video::DecodedFrame;

verus! {

/// A path of the file system.
#[verifier::external_type_specification]
#[verifier::external_body]
pub struct ExPathBuf(std::path::PathBuf);

/// `PathBuf::clone` gives the same path again.
pub assume_specification[ <PathBuf as Clone>::clone ](path: &PathBuf) -> (r: PathBuf)
    ensures
        r == *path,
;

/// How a picture is fitted to its window.
#[derive(Clone, Copy, Debug, PartialEq, Eq, Structural)]
pub enum FitMode {
    /// It fills the window, and what stands out is cut off.
    Cover,
    /// All of it is inside the window.
    Contain,
    /// It has the size of the window.
    Stretch,
}

impl Default for FitMode {
    fn default() -> (r: Self)
        ensures
            r == FitMode::Contain,
    {
        FitMode::Contain
    }
}

/// The number of a wallpaper, on its window, its camera and its background.
#[derive(Clone, Copy, Debug, PartialEq, Eq, Structural)]
pub struct WallpaperFor(pub usize);

impl WallpaperFor {
    /// Whether it tags what belongs to the monitor of a number.
    pub fn is_for(self, monitor_index: usize) -> (r: bool)
        ensures
            r == (self.0 == monitor_index),
    {
        self.0 == monitor_index
    }
}

/// What one monitor shows. `E` identifies the monitor, `V` is a video stream and
/// `H` a picture that was handed to the renderer.
pub struct MediaSlot<E, V, H> {
    pub monitor_index: usize,
    pub monitor_entity: E,
    pub monitor_name: Option<String>,
    pub target_physical: (u32, u32),
    pub media_path: Option<PathBuf>,
    pub fit_mode: FitMode,
    pub dirty: bool,
    pub video: Option<V>,
    pub handle: Option<H>,
    pub dims: Option<(u32, u32)>,
    pub background_color: Srgb,
}

/// The slots of all monitors.
pub struct WallpaperMedia<E, V, H> {
    pub slots: Vec<MediaSlot<E, V, H>>,
}

impl<E, V, H> WallpaperMedia<E, V, H> {
    /// Each slot has the number of its place.
    pub open spec fn numbered(self) -> bool {
        forall|i: int| 0 <= i < self.slots.len() ==> (#[trigger] self.slots[i]).monitor_index == i
    }
}

/// What a monitor is called.
pub open spec fn label_text(index: usize, name: Option<String>) -> Seq<char> {
    match name {
        Some(n) => decimal(index as nat) + " — "@ + n@,
        None => "Monitor "@ + decimal(index as nat),
    }
}

impl<E, V, H> MediaSlot<E, V, H> {
    /// What the monitor is called.
    pub fn label(&self) -> (r: String)
        ensures
            r@ == label_text(self.monitor_index, self.monitor_name),
    {
        let mut out = String::new();
        match &self.monitor_name {
            Some(name) => {
                push_decimal(&mut out, self.monitor_index);
                out.append(" — ");
                out.append(name.as_str());
            },
            None => {
                out.append("Monitor ");
                push_decimal(&mut out, self.monitor_index);
            },
        }
        assert(out@ =~= label_text(self.monitor_index, self.monitor_name));
        out
    }

    /// The slot has nothing to show and nothing to load.
    pub open spec fn cleared(self) -> Self {
        MediaSlot {
            dirty: false,
            video: None,
            handle: None,
            dims: None,
            background_color: black(),
            ..self
        }
    }

    /// The slot is to show nothing from now on.
    pub open spec fn emptied(self) -> Self {
        MediaSlot { media_path: None, dirty: true, ..self }
    }

    /// The slot is to show other media from now on.
    pub open spec fn assigned(self, path: PathBuf) -> Self {
        MediaSlot { media_path: Some(path), dirty: true, ..self }
    }

    /// Takes the media away.
    pub fn clear_media(&mut self)
        ensures
            *final(self) == old(self).emptied(),
    {
        self.media_path = None;
        self.dirty = true;
    }

    /// Gives the slot other media.
    pub fn assign_media(&mut self, path: PathBuf)
        ensures
            *final(self) == old(self).assigned(path),
    {
        self.media_path = Some(path);
        self.dirty = true;
    }
}

/// The file name extensions of pictures.
pub open spec fn image_exts() -> Seq<Seq<char>> {
    seq!["png"@, "jpg"@, "jpeg"@, "webp"@]
}

/// The file name extensions of videos.
pub open spec fn video_exts() -> Seq<Seq<char>> {
    seq!["mp4"@, "mov"@, "m4v"@, "webm"@, "mkv"@]
}

/// The file name extensions of pictures.
pub fn image_extensions() -> (r: Vec<&'static str>)
    ensures
        r@.map_values(|s: &'static str| s@) == image_exts(),
{
    let r: Vec<&'static str> = vec!["png", "jpg", "jpeg", "webp"];
    assert(r@.map_values(|s: &'static str| s@) =~= image_exts());
    r
}

/// The file name extensions of videos.
pub fn video_extensions() -> (r: Vec<&'static str>)
    ensures
        r@.map_values(|s: &'static str| s@) == video_exts(),
{
    let r: Vec<&'static str> = vec!["mp4", "mov", "m4v", "webm", "mkv"];
    assert(r@.map_values(|s: &'static str| s@) =~= video_exts());
    r
}

/// The file name extensions of all media: pictures first.
pub fn media_extensions() -> (r: Vec<&'static str>)
    ensures
        r@.map_values(|s: &'static str| s@) == image_exts() + video_exts(),
{
    let r: Vec<&'static str> = vec![
        "png",
        "jpg",
        "jpeg",
        "webp",
        "mp4",
        "mov",
        "m4v",
        "webm",
        "mkv",
    ];
    assert(r@.map_values(|s: &'static str| s@) =~= image_exts() + video_exts());
    r
}

/// A file name extension is one of a video, whatever the case of its letters.
pub open spec fn names_video(extension: Seq<char>) -> bool {
    exists|i: int|
        0 <= i < video_exts().len() && same_but_case(#[trigger] video_exts()[i], extension)
}

/// A file name extension, if there is one that is text, is one of a video.
pub open spec fn leads_to_video(extension: Option<Seq<char>>) -> bool {
    extension is Some && names_video(extension->0)
}

/// The characters of a text, if there is one.
pub open spec fn text_of(text: Option<&str>) -> Option<Seq<char>> {
    match text {
        Some(t) => Some(t@),
        None => None,
    }
}

/// Whether a file name extension is one of a video.
pub fn is_video_extension(extension: Option<&str>) -> (r: bool)
    ensures
        r == leads_to_video(text_of(extension)),
{
    let ext = match extension {
        Some(e) => e,
        None => return false,
    };
    let known = video_extensions();
    let ghost texts = known@.map_values(|s: &'static str| s@);
    let mut i: usize = 0;
    while i < known.len()
        invariant
            i <= known.len(),
            texts == known@.map_values(|s: &'static str| s@),
            texts == video_exts(),
            extension == Some(ext),
            forall|j: int| 0 <= j < i ==> !same_but_case(#[trigger] video_exts()[j], ext@),
        decreases known.len() - i,
    {
        assert(texts[i as int] == known[i as int]@);
        if equal_but_case(known[i], ext) {
            assert(same_but_case(video_exts()[i as int], ext@));
            return true;
        }
        i = i + 1;
    }
    false
}

/// Calls `Path::extension` and takes the extension as text, if it is text: what
/// stands in the file name after its last dot, and so without a dot. Which part of
/// a path is its file name is not stated: that depends on the syntax of paths on the
/// machine.
#[verifier::external_body]
pub(crate) fn extension_of(path: &PathBuf) -> (r: Option<String>)
    ensures
        r matches Some(e) ==> !e@.contains('.'),
{
    Some(path.extension()?.to_str()?.to_owned())
}

/// `extension` is what `Path::extension` may answer about a path.
pub closed spec fn extension_answer(path: PathBuf, extension: Option<Seq<char>>) -> bool {
    exists|e: Option<String>| #[trigger]
        call_ensures(extension_of, (&path,), e) && name_text(e) == extension
}

/// Asks for the extension of a path.
fn ask_extension(path: &PathBuf) -> (r: Option<String>)
    ensures
        extension_answer(*path, name_text(r)),
        r matches Some(e) ==> !e@.contains('.'),
{
    extension_of(path)
}

/// An optional text, borrowed.
fn borrowed(text: &Option<String>) -> (r: Option<&str>)
    ensures
        text_of(r) == name_text(*text),
{
    match text {
        Some(t) => Some(t.as_str()),
        None => None,
    }
}

/// Whether a path leads to a video, by the extension of its file name. A name
/// with no extension, or with one that is not text, does not.
pub fn is_video(path: &PathBuf) -> (r: bool)
    ensures
        exists|extension: Option<Seq<char>>| #[trigger]
            extension_answer(*path, extension) && r == leads_to_video(extension),
{
    let extension = ask_extension(path);
    is_video_extension(borrowed(&extension))
}

/// The numbers of the first `n` slots that are to be loaded, in order.
pub open spec fn dirty_among<E, V, H>(slots: Seq<MediaSlot<E, V, H>>, n: nat) -> Seq<usize> {
    places(|i: int| slots[i].dirty, n)
}

/// The slots that are to be loaded, in order.
pub fn dirty_slots<E, V, H>(slots: &Vec<MediaSlot<E, V, H>>) -> (r: Vec<usize>)
    ensures
        r@ == dirty_among(slots@, slots@.len()),
{
    let mut r: Vec<usize> = Vec::new();
    let mut i: usize = 0;
    while i < slots.len()
        invariant
            i <= slots.len(),
            r@ == dirty_among(slots@, i as nat),
        decreases slots.len() - i,
    {
        if slots[i].dirty {
            r.push(i);
        }
        i = i + 1;
    }
    r
}

/// What a slot asks for when its media are loaded.
#[derive(Clone, Copy, Debug, PartialEq, Eq, Structural)]
pub enum LoadRequest {
    /// Nothing: it has no media.
    Nothing,
    /// A video stream, scaled to the monitor.
    OpenVideo,
    /// A still picture.
    OpenPicture,
}

impl<E, V, H> MediaSlot<E, V, H> {
    /// What the slot asks for when its media are loaded.
    pub open spec fn request(self, extension: Option<Seq<char>>) -> LoadRequest {
        if self.media_path is None {
            LoadRequest::Nothing
        } else if leads_to_video(extension) {
            LoadRequest::OpenVideo
        } else {
            LoadRequest::OpenPicture
        }
    }

    /// Starts to load the media of the slot: whatever it showed is gone.
    /// `extension` is the one of the media's file name.
    pub fn begin_load(&mut self, extension: Option<&str>) -> (r: LoadRequest)
        ensures
            *final(self) == old(self).cleared(),
            r == old(self).request(text_of(extension)),
    {
        self.dirty = false;
        self.video = None;
        self.handle = None;
        self.dims = None;
        self.background_color = Srgb::black();
        if self.media_path.is_none() {
            LoadRequest::Nothing
        } else if is_video_extension(extension) {
            LoadRequest::OpenVideo
        } else {
            LoadRequest::OpenPicture
        }
    }

    /// Starts to load the media of the slot by the extension of their path.
    pub fn start_load(&mut self) -> (r: LoadRequest)
        ensures
            *final(self) == old(self).cleared(),
            match old(self).media_path {
                None => r is Nothing,
                Some(path) => exists|extension: Option<Seq<char>>| #[trigger]
                    extension_answer(path, extension) && r == old(self).request(extension),
            },
    {
        let extension: Option<String> = match &self.media_path {
            Some(path) => ask_extension(path),
            None => None,
        };
        self.begin_load(borrowed(&extension))
    }

    /// The slot has a picture at the renderer just when it knows the size of one.
    pub open spec fn in_step(self) -> bool {
        self.handle is Some <==> self.dims is Some
    }

    /// The slot with a video stream.
    pub open spec fn streaming(self, video: V) -> Self {
        MediaSlot { video: Some(video), ..self }
    }

    /// The slot with a picture that the renderer shows.
    pub open spec fn showing(self, dims: (u32, u32), color: Srgb, handle: H) -> Self {
        MediaSlot {
            background_color: color,
            dims: Some(dims),
            handle: Some(handle),
            ..self
        }
    }

    /// Takes a video stream that was opened, or nothing where that failed.
    pub fn finish_video(&mut self, opened: Option<V>)
        ensures
            *final(self) == match opened {
                Some(v) => old(self).streaming(v),
                None => *old(self),
            },
    {
        if opened.is_some() {
            self.video = opened;
        }
    }

    /// Takes a picture that was made ready and handed to the renderer.
    pub fn finish_picture(&mut self, picture: &Picture, handle: H)
        ensures
            *final(self) == old(self).showing(
                (picture.width, picture.height),
                picture.background,
                handle,
            ),
    {
        self.background_color = picture.background;
        self.handle = Some(handle);
        self.dims = Some((picture.width, picture.height));
    }
}

/// What becomes of a new frame.
#[derive(Clone, Copy, Debug, PartialEq, Eq, Structural)]
pub enum FrameAction {
    /// Its pixels replace those of the picture that is shown.
    Replace,
    /// It is handed to the renderer as a new picture, on a background of a colour.
    Create(Srgb),
}

impl<E, V, H> MediaSlot<E, V, H> {
    /// Whether the slot takes a frame of its video now: not while no wallpaper can
    /// be seen.
    pub fn wants_frame(&self, visible: &WallpaperVisible) -> (r: bool)
        ensures
            r == (visible.0 && self.video is Some),
    {
        visible.0 && self.video.is_some()
    }

    /// A frame takes the place of the picture that is shown.
    pub open spec fn can_replace(self, frame: DecodedFrame, alive: bool) -> bool {
        self.dims == Some((frame.width, frame.height)) && self.handle is Some && alive
    }

    /// Decides what becomes of the next frame of a video. `alive` says that the
    /// renderer still has the picture that is shown. The first frame, and one of
    /// another size, gives the background its colour.
    pub fn take_frame(&self, frame: &DecodedFrame, alive: bool) -> (r: FrameAction)
        ensures
            match r {
                FrameAction::Replace => self.can_replace(*frame, alive),
                FrameAction::Create(color) => !self.can_replace(*frame, alive) && is_dominant(
                    frame.rgba@,
                    frame.width,
                    frame.height,
                    color,
                ),
            },
    {
        let same: bool = match self.dims {
            Some((w, h)) => w == frame.width && h == frame.height,
            None => false,
        };
        if same && self.handle.is_some() && alive {
            return FrameAction::Replace;
        }
        FrameAction::Create(dominant_color(frame.rgba.as_slice(), frame.width, frame.height))
    }

    /// Takes the picture that the renderer made of a frame.
    pub fn finish_frame(&mut self, dims: (u32, u32), color: Srgb, handle: H)
        ensures
            *final(self) == old(self).showing(dims, color, handle),
    {
        self.background_color = color;
        self.dims = Some(dims);
        self.handle = Some(handle);
    }
}

/// What becomes of the answer of the file dialog.
#[derive(Clone, Copy, Debug, PartialEq, Eq, Structural)]
pub enum Picked {
    /// No file was chosen.
    Cancelled,
    /// The file goes to the selected monitor.
    Assigned,
    /// The selected monitor is not there.
    OutOfRange,
}

/// Hands the file that was chosen to the selected monitor.
pub fn take_picked_file<E, V, H>(
    media: &mut WallpaperMedia<E, V, H>,
    selected_monitor: usize,
    path: Option<PathBuf>,
) -> (r: Picked)
    ensures
        r == match path {
            None => Picked::Cancelled,
            Some(_) => if selected_monitor < old(media).slots.len() {
                Picked::Assigned
            } else {
                Picked::OutOfRange
            },
        },
        r is Assigned ==> final(media).slots@ == old(media).slots@.update(
            selected_monitor as int,
            old(media).slots@[selected_monitor as int].assigned(path->0),
        ),
        !(r is Assigned) ==> final(media).slots@ == old(media).slots@,
{
    match path {
        None => Picked::Cancelled,
        Some(path) => if selected_monitor < media.slots.len() {
            media.slots[selected_monitor].assign_media(path);
            Picked::Assigned
        } else {
            Picked::OutOfRange
        },
    }
}

/// The slots that are listed are just those that are to be loaded, each once.
pub proof fn law_dirty_slots_are_listed_once<E, V, H>(slots: Seq<MediaSlot<E, V, H>>, n: nat)
    requires
        n <= slots.len(),
        slots.len() <= usize::MAX,
    ensures
        forall|k: usize| #[trigger]
            dirty_among(slots, n).contains(k) <==> k < n && slots[k as int].dirty,
        forall|i: int, j: int|
            0 <= i < j < dirty_among(slots, n).len() ==> dirty_among(slots, n)[i] < dirty_among(
                slots,
                n,
            )[j],
{
    lemma_places(|i: int| slots[i].dirty, n);
}

/// Loading takes away what a slot showed and the wish to load it, and nothing
/// else.
pub proof fn law_loading_starts_clean<E, V, H>(slot: MediaSlot<E, V, H>)
    ensures
        !slot.cleared().dirty,
        slot.cleared().video is None,
        slot.cleared().handle is None,
        slot.cleared().dims is None,
        slot.cleared().background_color == black(),
        slot.cleared().media_path == slot.media_path,
        slot.cleared().fit_mode == slot.fit_mode,
        slot.cleared().monitor_index == slot.monitor_index,
        slot.cleared().monitor_name == slot.monitor_name,
        slot.cleared().cleared() == slot.cleared(),
{
}

/// The first frame after loading is a new picture, whatever its size. Once it was
/// handed over, the next frame of its size replaces it, and one of another size
/// does not.
pub proof fn law_frames_replace_their_like<E, V, H>(
    slot: MediaSlot<E, V, H>,
    first: DecodedFrame,
    next: DecodedFrame,
    color: Srgb,
    handle: H,
    alive: bool,
)
    ensures
        !slot.cleared().can_replace(first, alive),
        slot.showing((first.width, first.height), color, handle).can_replace(next, alive)
            <==> alive && next.width == first.width && next.height == first.height,
{
}

/// A slot has a picture at the renderer just when it knows the size of one, and
/// then it is the size of that picture: it is so when loading starts and after
/// each way in which loading ends, and frames, clicks and files that are picked keep
/// it so.
pub proof fn law_picture_and_size_go_together<E, V, H>(
    slot: MediaSlot<E, V, H>,
    video: V,
    dims: (u32, u32),
    color: Srgb,
    handle: H,
    path: PathBuf,
)
    ensures
        slot.cleared().in_step(),
        slot.cleared().streaming(video).in_step(),
        slot.cleared().showing(dims, color, handle).in_step(),
        slot.showing(dims, color, handle).in_step(),
        slot.showing(dims, color, handle).dims == Some(dims),
        slot.showing(dims, color, handle).handle == Some(handle),
        slot.in_step() ==> slot.streaming(video).in_step(),
        slot.in_step() ==> slot.emptied().in_step(),
        slot.in_step() ==> slot.assigned(path).in_step(),
{
}

/// A text spells a word, in capitals or small letters.
pub open spec fn spells(word: Seq<char>, text: Seq<char>) -> bool {
    &&& text.len() == word.len()
    &&& forall|i: int| 0 <= i < word.len() ==> same_letter(#[trigger] word[i], text[i])
}

/// A file name extension is one of a video just when it spells one of five words.
pub proof fn law_video_extensions(extension: Seq<char>)
    ensures
        names_video(extension) <==> {
            ||| spells("mp4"@, extension)
            ||| spells("mov"@, extension)
            ||| spells("m4v"@, extension)
            ||| spells("webm"@, extension)
            ||| spells("mkv"@, extension)
        },
        video_exts() == seq!["mp4"@, "mov"@, "m4v"@, "webm"@, "mkv"@],
{
    assert forall|word: Seq<char>| #[trigger] same_but_case(word, extension) <==> spells(
        word,
        extension,
    ) by {
        law_same_but_case_at_every_place(word, extension);
    }
    let known = video_exts();
    assert(known =~= seq!["mp4"@, "mov"@, "m4v"@, "webm"@, "mkv"@]);
    if names_video(extension) {
        let i = choose|i: int|
            0 <= i < known.len() && same_but_case(#[trigger] known[i], extension);
        assert(same_but_case(known[i], extension));
        assert(i == 0 || i == 1 || i == 2 || i == 3 || i == 4);
    }
    assert(known[0] == "mp4"@ && known[1] == "mov"@ && known[2] == "m4v"@ && known[3] == "webm"@
        && known[4] == "mkv"@);
    assert(spells("mp4"@, extension) ==> same_but_case(known[0], extension));
    assert(spells("mov"@, extension) ==> same_but_case(known[1], extension));
    assert(spells("m4v"@, extension) ==> same_but_case(known[2], extension));
    assert(spells("webm"@, extension) ==> same_but_case(known[3], extension));
    assert(spells("mkv"@, extension) ==> same_but_case(known[4], extension));
}

/// No spelling of a picture's extension leads to a video.
pub proof fn law_picture_extensions(extension: Seq<char>)
    requires
        spells("png"@, extension) || spells("jpg"@, extension) || spells("jpeg"@, extension)
            || spells("webp"@, extension),
    ensures
        !names_video(extension),
        image_exts() == seq!["png"@, "jpg"@, "jpeg"@, "webp"@],
{
    reveal_strlit("png");
    reveal_strlit("jpg");
    reveal_strlit("jpeg");
    reveal_strlit("webp");
    reveal_strlit("mp4");
    reveal_strlit("mov");
    reveal_strlit("m4v");
    reveal_strlit("webm");
    reveal_strlit("mkv");
    law_video_extensions(extension);
    assert(image_exts() =~= seq!["png"@, "jpg"@, "jpeg"@, "webp"@]);
    if spells("webp"@, extension) {
        assert(same_letter("webp"@[3], extension[3]));
        assert(spells("webm"@, extension) ==> same_letter("webm"@[3], extension[3]));
    }
    if spells("jpeg"@, extension) {
        assert(same_letter("jpeg"@[0], extension[0]));
        assert(spells("webm"@, extension) ==> same_letter("webm"@[0], extension[0]));
    }
    if spells("png"@, extension) {
        assert(same_letter("png"@[0], extension[0]));
    }
    if spells("jpg"@, extension) {
        assert(same_letter("jpg"@[0], extension[0]));
    }
    assert(spells("mp4"@, extension) ==> same_letter("mp4"@[0], extension[0]));
    assert(spells("mov"@, extension) ==> same_letter("mov"@[0], extension[0]));
    assert(spells("m4v"@, extension) ==> same_letter("m4v"@[0], extension[0]));
    assert(spells("mkv"@, extension) ==> same_letter("mkv"@[0], extension[0]));
}

/// A slot without media asks for nothing, one whose extension spells a video's for a
/// video stream, and any other for a picture.
pub proof fn law_requests_follow_the_media<E, V, H>(
    slot: MediaSlot<E, V, H>,
    extension: Option<Seq<char>>,
)
    ensures
        slot.request(extension) is Nothing <==> slot.media_path is None,
        slot.request(extension) is OpenVideo <==> slot.media_path is Some && extension is Some && {
            ||| spells("mp4"@, extension->0)
            ||| spells("mov"@, extension->0)
            ||| spells("m4v"@, extension->0)
            ||| spells("webm"@, extension->0)
            ||| spells("mkv"@, extension->0)
        },
{
    if extension is Some {
        law_video_extensions(extension->0);
    }
}

/// The extension that decides is an answer of the call about the path.
pub(crate) proof fn law_extension_is_asked_for(path: PathBuf, extension: Option<Seq<char>>)
    requires
        extension_answer(path, extension),
    ensures
        exists|e: Option<String>| #[trigger]
            call_ensures(extension_of, (&path,), e) && match e {
                Some(text) => extension == Some(text@),
                None => extension is None,
            },
{
}

/// Taking media away and giving others changes which media a slot has and that they
/// are to be loaded, and nothing else.
pub proof fn law_assigning_changes_the_media<E, V, H>(slot: MediaSlot<E, V, H>, path: PathBuf)
    ensures
        slot.emptied().media_path is None,
        slot.emptied().dirty,
        slot.assigned(path).media_path == Some(path),
        slot.assigned(path).dirty,
        slot.emptied().assigned(path) == slot.assigned(path),
        slot.assigned(path).emptied() == slot.emptied(),
        (MediaSlot { media_path: slot.media_path, dirty: slot.dirty, ..slot.emptied() }) == slot,
        (MediaSlot { media_path: slot.media_path, dirty: slot.dirty, ..slot.assigned(path) })
            == slot,
{
}

/// What a slot shows takes the place of what it showed, and the slot stays what it
/// is otherwise.
pub proof fn law_showing_changes_what_is_seen<E, V, H>(
    slot: MediaSlot<E, V, H>,
    dims: (u32, u32),
    color: Srgb,
    handle: H,
    video: V,
)
    ensures
        slot.showing(dims, color, handle).dims == Some(dims),
        slot.showing(dims, color, handle).background_color == color,
        slot.showing(dims, color, handle).handle == Some(handle),
        (MediaSlot {
            dims: slot.dims,
            background_color: slot.background_color,
            handle: slot.handle,
            ..slot.showing(dims, color, handle)
        }) == slot,
        slot.streaming(video).video == Some(video),
        (MediaSlot { video: slot.video, ..slot.streaming(video) }) == slot,
        slot.cleared().background_color == (Srgb { r: 0, g: 0, b: 0 }),
        slot.cleared().dims is None && slot.cleared().handle is None,
        slot.cleared().video is None && !slot.cleared().dirty,
        (MediaSlot {
            dims: slot.dims,
            background_color: slot.background_color,
            handle: slot.handle,
            video: slot.video,
            dirty: slot.dirty,
            ..slot.cleared()
        }) == slot,
{
}

/// A frame takes the place of the picture that is shown just when the renderer has
/// that picture, and it has the size of the frame.
pub proof fn law_frames_need_a_picture_of_their_size<E, V, H>(
    slot: MediaSlot<E, V, H>,
    frame: DecodedFrame,
    alive: bool,
)
    ensures
        slot.can_replace(frame, alive) <==> {
            &&& alive
            &&& slot.handle is Some
            &&& slot.dims matches Some((w, h)) && w == frame.width && h == frame.height
        },
{
}

/// The label of a monitor starts with its number and ends with its name; one without
/// a name is called by its number alone.
pub proof fn law_labels_hold_number_and_name(index: usize, name: Option<String>)
    ensures
        ({
            let label = label_text(index, name);
            let number = decimal(index as nat);
            let n0 = number.len() as int;
            match name {
                Some(n) => {
                    &&& label.len() == n0 + 3 + n@.len()
                    &&& label.subrange(0, n0) == number
                    &&& label.subrange(n0, n0 + 3) == " — "@
                    &&& label.subrange(n0 + 3, label.len() as int) == n@
                },
                None => {
                    &&& label.len() == 8 + n0
                    &&& label.subrange(0, 8) == "Monitor "@
                    &&& label.subrange(8, label.len() as int) == number
                },
            }
        }),
{
    reveal_strlit(" — ");
    reveal_strlit("Monitor ");
    let label = label_text(index, name);
    let number = decimal(index as nat);
    let n0 = number.len() as int;
    match name {
        Some(n) => {
            assert(label.subrange(0, n0) =~= number);
            assert(label.subrange(n0, n0 + 3) =~= " — "@);
            assert(label.subrange(n0 + 3, label.len() as int) =~= n@);
        },
        None => {
            assert(label.subrange(0, 8) =~= "Monitor "@);
            assert(label.subrange(8, label.len() as int) =~= number);
        },
    }
}

/// A slot takes frames just when it has a video and some wallpaper can be seen.
pub proof fn law_unseen_videos_pause<E, V, H>(
    slot: MediaSlot<E, V, H>,
    visible: WallpaperVisible,
    wants: bool,
)
    requires
        call_ensures(MediaSlot::<E, V, H>::wants_frame, (&slot, &visible), wants),
    ensures
        !visible.0 ==> !wants,
        slot.video is None ==> !wants,
        visible.0 && slot.video is Some ==> wants,
{
}

/// A video that was opened becomes the one of the slot, and one that was not leaves the
/// slot as it is. Nothing else of the slot changes either way.
pub proof fn law_opened_video_is_kept<E, V, H>(slot: &mut MediaSlot<E, V, H>, opened: Option<V>)
    requires
        call_ensures(MediaSlot::<E, V, H>::finish_video, (slot, opened), ()),
    ensures
        opened is Some ==> final(slot).video == opened,
        opened is None ==> final(slot).video == old(slot).video,
        (MediaSlot { video: old(slot).video, ..*final(slot) }) == *old(slot),
{
}

/// A picture that was made ready is shown at its size, on the colour found for it.
/// Nothing else of the slot changes.
pub proof fn law_ready_picture_is_shown<E, V, H>(
    slot: &mut MediaSlot<E, V, H>,
    picture: Picture,
    handle: H,
)
    requires
        call_ensures(MediaSlot::<E, V, H>::finish_picture, (slot, &picture, handle), ()),
    ensures
        final(slot).dims == Some((picture.width, picture.height)),
        final(slot).background_color == picture.background,
        final(slot).handle == Some(handle),
        (MediaSlot {
            dims: old(slot).dims,
            background_color: old(slot).background_color,
            handle: old(slot).handle,
            ..*final(slot)
        }) == *old(slot),
{
}

/// A frame replaces the picture that is shown just when the renderer still has that
/// picture and it has the size of the frame. Any other frame is a new picture, on the
/// dominant colour of the frame.
pub proof fn law_frame_is_replaced_or_new<E, V, H>(
    slot: MediaSlot<E, V, H>,
    frame: DecodedFrame,
    alive: bool,
    action: FrameAction,
)
    requires
        call_ensures(MediaSlot::<E, V, H>::take_frame, (&slot, &frame, alive), action),
    ensures
        action is Replace <==> alive && slot.handle is Some && slot.dims == Some(
            (frame.width, frame.height),
        ),
        action is Create ==> is_dominant(frame.rgba@, frame.width, frame.height, action->0),
{
}

/// A file that was chosen becomes the media of the selected monitor, which are then to be
/// loaded, and of no other one. Nothing changes where none was chosen or the monitor is
/// not there.
pub proof fn law_picked_file_goes_to_the_selected_monitor<E, V, H>(
    media: &mut WallpaperMedia<E, V, H>,
    selected: usize,
    path: Option<PathBuf>,
    picked: Picked,
    i: int,
)
    requires
        call_ensures(take_picked_file::<E, V, H>, (media, selected, path), picked),
        0 <= i < old(media).slots@.len(),
    ensures
        picked is Cancelled <==> path is None,
        picked is OutOfRange <==> path is Some && selected >= old(media).slots@.len(),
        final(media).slots@.len() == old(media).slots@.len(),
        i == selected && path is Some ==> {
            &&& final(media).slots@[i].media_path == path
            &&& final(media).slots@[i].dirty
            &&& final(media).slots@[i].fit_mode == old(media).slots@[i].fit_mode
        },
        i != selected || path is None ==> final(media).slots@[i] == old(media).slots@[i],
{
}

/// A path leads to a video just when the extension that was found in it spells one of a
/// video.
pub proof fn law_path_leads_to_video(path: PathBuf, video: bool)
    requires
        call_ensures(is_video, (&path,), video),
    ensures
        exists|extension: Option<Seq<char>>| #[trigger]
            extension_answer(path, extension) && (video <==> extension is Some && {
                ||| spells("mp4"@, extension->0)
                ||| spells("mov"@, extension->0)
                ||| spells("m4v"@, extension->0)
                ||| spells("webm"@, extension->0)
                ||| spells("mkv"@, extension->0)
            }),
{
    let extension = choose|extension: Option<Seq<char>>| #[trigger]
        extension_answer(path, extension) && video == leads_to_video(extension);
    if extension is Some {
        law_video_extensions(extension->0);
    }
}

/// Loading starts with the media that the slot has: with nothing where it has none, and
/// else with a video stream just when the extension found in the path spells one of a
/// video. What the slot showed before is gone.
pub proof fn law_loading_starts_with_the_media<E, V, H>(
    slot: &mut MediaSlot<E, V, H>,
    request: LoadRequest,
)
    requires
        call_ensures(MediaSlot::<E, V, H>::start_load, (slot,), request),
    ensures
        request is Nothing <==> old(slot).media_path is None,
        old(slot).media_path is Some ==> exists|extension: Option<Seq<char>>| #[trigger]
            extension_answer(old(slot).media_path->0, extension) && (request is OpenVideo
                <==> extension is Some && {
                ||| spells("mp4"@, extension->0)
                ||| spells("mov"@, extension->0)
                ||| spells("m4v"@, extension->0)
                ||| spells("webm"@, extension->0)
                ||| spells("mkv"@, extension->0)
            }),
        !final(slot).dirty,
        final(slot).video is None,
        final(slot).handle is None,
        final(slot).dims is None,
        final(slot).media_path == old(slot).media_path,
        final(slot).fit_mode == old(slot).fit_mode,
{
    if old(slot).media_path is Some {
        let path = old(slot).media_path->0;
        let extension = choose|extension: Option<Seq<char>>| #[trigger]
            extension_answer(path, extension) && request == old(slot).request(extension);
        law_requests_follow_the_media(*old(slot), extension);
        assert(extension_answer(path, extension));
    }
}

/// The file dialog offers pictures of four extensions and videos of five, which are all
/// different, and all media are the pictures followed by the videos.
pub proof fn law_dialog_offers_all_media(
    pictures: Vec<&'static str>,
    videos: Vec<&'static str>,
    media: Vec<&'static str>,
)
    requires
        call_ensures(image_extensions, (), pictures),
        call_ensures(video_extensions, (), videos),
        call_ensures(media_extensions, (), media),
    ensures
        pictures@.len() == 4,
        videos@.len() == 5,
        media@.len() == 9,
        forall|i: int| 0 <= i < 4 ==> (#[trigger] media@[i])@ == pictures@[i]@,
        forall|i: int| 0 <= i < 5 ==> (#[trigger] videos@[i])@ == media@[4 + i]@,
        pictures@[0]@ == "png"@ && pictures@[1]@ == "jpg"@,
        pictures@[2]@ == "jpeg"@ && pictures@[3]@ == "webp"@,
        videos@[0]@ == "mp4"@ && videos@[1]@ == "mov"@ && videos@[2]@ == "m4v"@,
        videos@[3]@ == "webm"@ && videos@[4]@ == "mkv"@,
{
    let p = pictures@.map_values(|s: &'static str| s@);
    let v = videos@.map_values(|s: &'static str| s@);
    let m = media@.map_values(|s: &'static str| s@);
    assert(p.len() == 4 && v.len() == 5 && m.len() == 9);
    assert forall|i: int| 0 <= i < 4 implies (#[trigger] media@[i])@ == pictures@[i]@ by {
        assert(m[i] == p[i]);
    }
    assert forall|i: int| 0 <= i < 5 implies (#[trigger] videos@[i])@ == media@[4 + i]@ by {
        assert(m[4 + i] == v[i]);
    }
    assert(p[0] == "png"@ && p[1] == "jpg"@ && p[2] == "jpeg"@ && p[3] == "webp"@);
    assert(v[0] == "mp4"@ && v[1] == "mov"@ && v[2] == "m4v"@ && v[3] == "webm"@ && v[4] == "mkv"@);
}

/// The slots that are found to be loaded are just those that are marked, each once and
/// in order.
pub proof fn law_marked_slots_are_found<E, V, H>(
    slots: Vec<MediaSlot<E, V, H>>,
    found: Vec<usize>,
    k: usize,
    i: int,
    j: int,
)
    requires
        slots@.len() <= usize::MAX,
        call_ensures(dirty_slots::<E, V, H>, (&slots,), found),
    ensures
        found@.contains(k) <==> k < slots@.len() && slots@[k as int].dirty,
        0 <= i < j < found@.len() ==> found@[i] < found@[j],
{
    law_dirty_slots_are_listed_once(slots@, slots@.len());
}

/// An extension is found to be one of a video just when it spells one.
pub proof fn law_extension_of_a_video_is_found(extension: Option<&str>, video: bool)
    requires
        call_ensures(is_video_extension, (extension,), video),
    ensures
        video <==> extension is Some && {
            ||| spells("mp4"@, extension->0@)
            ||| spells("mov"@, extension->0@)
            ||| spells("m4v"@, extension->0@)
            ||| spells("webm"@, extension->0@)
            ||| spells("mkv"@, extension->0@)
        },
{
    if extension is Some {
        law_video_extensions(extension->0@);
    }
}

/// Loading starts with what the extension at hand says, and takes away what the slot
/// showed and the wish to load it, but nothing else.
pub proof fn law_loading_follows_the_extension<E, V, H>(
    slot: &mut MediaSlot<E, V, H>,
    extension: Option<&str>,
    request: LoadRequest,
)
    requires
        call_ensures(MediaSlot::<E, V, H>::begin_load, (slot, extension), request),
    ensures
        request is Nothing <==> old(slot).media_path is None,
        request is OpenVideo <==> old(slot).media_path is Some && extension is Some && {
            ||| spells("mp4"@, extension->0@)
            ||| spells("mov"@, extension->0@)
            ||| spells("m4v"@, extension->0@)
            ||| spells("webm"@, extension->0@)
            ||| spells("mkv"@, extension->0@)
        },
        final(slot).background_color == (Srgb { r: 0, g: 0, b: 0 }),
        (MediaSlot {
            dims: old(slot).dims,
            background_color: old(slot).background_color,
            handle: old(slot).handle,
            video: old(slot).video,
            dirty: old(slot).dirty,
            ..*final(slot)
        }) == *old(slot),
        !final(slot).dirty && final(slot).video is None,
        final(slot).handle is None && final(slot).dims is None,
{
    law_requests_follow_the_media(*old(slot), text_of(extension));
}

/// Media that are given to a slot or taken from it are to be loaded, and what is made of
/// a frame is shown. The rest of the slot stays.
pub proof fn law_slot_takes_what_it_is_given<E, V, H>(
    given: &mut MediaSlot<E, V, H>,
    taken: &mut MediaSlot<E, V, H>,
    shown: &mut MediaSlot<E, V, H>,
    path: PathBuf,
    dims: (u32, u32),
    color: Srgb,
    handle: H,
)
    requires
        call_ensures(MediaSlot::<E, V, H>::assign_media, (given, path), ()),
        call_ensures(MediaSlot::<E, V, H>::clear_media, (taken,), ()),
        call_ensures(MediaSlot::<E, V, H>::finish_frame, (shown, dims, color, handle), ()),
    ensures
        *final(given) == (MediaSlot { media_path: Some(path), dirty: true, ..*old(given) }),
        *final(taken) == (MediaSlot { media_path: None, dirty: true, ..*old(taken) }),
        *final(shown) == (MediaSlot {
            dims: Some(dims),
            background_color: color,
            handle: Some(handle),
            ..*old(shown)
        }),
{
}

/// A monitor is called by its number and its name, or by its number alone.
pub proof fn law_monitors_are_called_by_number_and_name<E, V, H>(
    slot: MediaSlot<E, V, H>,
    label: String,
)
    requires
        call_ensures(MediaSlot::<E, V, H>::label, (&slot,), label),
    ensures
        slot.monitor_name is Some ==> label@ == decimal(slot.monitor_index as nat) + " — "@
            + slot.monitor_name->0@,
        slot.monitor_name is None ==> label@ == "Monitor "@ + decimal(slot.monitor_index as nat),
{
}

} // verus!
