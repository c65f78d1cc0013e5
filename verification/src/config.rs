//! What is remembered from one run to the next.

use std::path::PathBuf;

use vstd::prelude::*;

use crate::media::{FitMode, MediaSlot, WallpaperMedia};

verus! {

/// What is remembered of one monitor.
pub struct PersistedMonitorConfig {
    pub name: Option<String>,
    pub media_path: Option<PathBuf>,
    pub fit_mode: FitMode,
}

impl Default for PersistedMonitorConfig {
    fn default() -> (r: Self)
        ensures
            r.name is None,
            r.media_path is None,
            r.fit_mode == FitMode::Contain,
    {
        PersistedMonitorConfig { name: None, media_path: None, fit_mode: FitMode::Contain }
    }
}

/// What is remembered of all monitors.
pub struct PersistedConfig {
    pub monitors: Vec<PersistedMonitorConfig>,
}

impl Default for PersistedConfig {
    fn default() -> (r: Self)
        ensures
            r.monitors@.len() == 0,
    {
        PersistedConfig { monitors: Vec::new() }
    }
}

/// What was read and understood, or nothing to remember where that failed.
pub fn loaded_or_default(parsed: Option<PersistedConfig>) -> (r: PersistedConfig)
    ensures
        match parsed {
            Some(cfg) => r == cfg,
            None => r.monitors@.len() == 0,
        },
{
    match parsed {
        Some(cfg) => cfg,
        None => PersistedConfig::default(),
    }
}

/// The characters of a name, if there is one.
pub open spec fn name_text(name: Option<String>) -> Option<Seq<char>> {
    match name {
        Some(n) => Some(n@),
        None => None,
    }
}

/// The first entry from `from` on that has a name.
pub open spec fn find_named(
    monitors: Seq<PersistedMonitorConfig>,
    name: Seq<char>,
    from: nat,
) -> Option<nat>
    decreases monitors.len() - from,
{
    if from >= monitors.len() {
        None
    } else if name_text(monitors[from as int].name) == Some(name) {
        Some(from)
    } else {
        find_named(monitors, name, from + 1)
    }
}

/// The entry for a monitor: the first one of its name, or else the one at its
/// number.
pub open spec fn entry_for(
    monitors: Seq<PersistedMonitorConfig>,
    name: Option<String>,
    index: usize,
) -> Option<nat> {
    let named = match name_text(name) {
        Some(n) => find_named(monitors, n, 0),
        None => None,
    };
    if named is Some {
        named
    } else if index < monitors.len() {
        Some(index as nat)
    } else {
        None
    }
}

/// Finds the entry for a monitor.
pub fn find_entry(cfg: &PersistedConfig, name: &Option<String>, index: usize) -> (r: Option<usize>)
    ensures
        match r {
            Some(i) => entry_for(cfg.monitors@, *name, index) == Some(i as nat),
            None => entry_for(cfg.monitors@, *name, index) is None,
        },
        r matches Some(i) ==> i < cfg.monitors@.len(),
{
    if let Some(wanted) = name {
        let mut i: usize = 0;
        while i < cfg.monitors.len()
            invariant
                i <= cfg.monitors@.len(),
                find_named(cfg.monitors@, wanted@, 0) == find_named(
                    cfg.monitors@,
                    wanted@,
                    i as nat,
                ),
                name_text(*name) == Some(wanted@),
            decreases cfg.monitors@.len() - i,
        {
            if let Some(known) = &cfg.monitors[i].name {
                if known.eq(wanted) {
                    return Some(i);
                }
            }
            i = i + 1;
        }
    }
    if index < cfg.monitors.len() {
        Some(index)
    } else {
        None
    }
}

/// A slot after its entry was taken over. `present` says of each entry whether its
/// media are still there.
pub open spec fn restored<E, V, H>(
    slot: MediaSlot<E, V, H>,
    monitors: Seq<PersistedMonitorConfig>,
    present: Seq<bool>,
) -> MediaSlot<E, V, H> {
    match entry_for(monitors, slot.monitor_name, slot.monitor_index) {
        None => slot,
        Some(i) => {
            let entry = monitors[i as int];
            if entry.media_path is Some && present[i as int] {
                MediaSlot {
                    fit_mode: entry.fit_mode,
                    media_path: entry.media_path,
                    dirty: true,
                    ..slot
                }
            } else {
                MediaSlot { fit_mode: entry.fit_mode, ..slot }
            }
        },
    }
}

/// Takes over what is remembered of each monitor.
pub fn restore_config<E, V, H>(
    media: &mut WallpaperMedia<E, V, H>,
    cfg: &PersistedConfig,
    present: &Vec<bool>,
)
    requires
        present@.len() == cfg.monitors@.len(),
    ensures
        final(media).slots@.len() == old(media).slots@.len(),
        forall|i: int|
            0 <= i < old(media).slots@.len() ==> #[trigger] final(media).slots@[i] == restored(
                old(media).slots@[i],
                cfg.monitors@,
                present@,
            ),
{
    let count: usize = media.slots.len();
    let mut i: usize = 0;
    while i < count
        invariant
            i <= count,
            count == old(media).slots@.len(),
            media.slots@.len() == count,
            present@.len() == cfg.monitors@.len(),
            forall|j: int|
                0 <= j < i ==> #[trigger] media.slots@[j] == restored(
                    old(media).slots@[j],
                    cfg.monitors@,
                    present@,
                ),
            forall|j: int| i <= j < count ==> #[trigger] media.slots@[j] == old(media).slots@[j],
        decreases count - i,
    {
        let found = find_entry(cfg, &media.slots[i].monitor_name, media.slots[i].monitor_index);
        if let Some(at) = found {
            let entry = &cfg.monitors[at];
            media.slots[i].fit_mode = entry.fit_mode;
            if let Some(path) = &entry.media_path {
                if present[at] {
                    media.slots[i].media_path = Some(path.clone());
                    media.slots[i].dirty = true;
                }
            }
        }
        i = i + 1;
    }
}

/// `PathBuf::eq` finds a path equal to itself. Whether it finds two spellings
/// equal is not stated: that depends on the syntax of paths on the machine.
pub assume_specification[ <PathBuf as PartialEq>::eq ](a: &PathBuf, b: &PathBuf) -> (r: bool)
    ensures
        *a == *b ==> r,
;

/// A configuration says of each monitor what its slot holds.
pub open spec fn describes<E, V, H>(
    cfg: PersistedConfig,
    slots: Seq<MediaSlot<E, V, H>>,
) -> bool {
    &&& cfg.monitors@.len() == slots.len()
    &&& forall|i: int|
        0 <= i < slots.len() ==> {
            &&& name_text((#[trigger] cfg.monitors@[i]).name) == name_text(slots[i].monitor_name)
            &&& cfg.monitors@[i].media_path == slots[i].media_path
            &&& cfg.monitors@[i].fit_mode == slots[i].fit_mode
        }
}

/// What is to be remembered of the slots.
pub fn config_of<E, V, H>(slots: &Vec<MediaSlot<E, V, H>>) -> (r: PersistedConfig)
    ensures
        describes(r, slots@),
{
    let mut monitors: Vec<PersistedMonitorConfig> = Vec::new();
    let mut i: usize = 0;
    while i < slots.len()
        invariant
            i <= slots@.len(),
            monitors@.len() == i,
            forall|j: int|
                0 <= j < i ==> {
                    &&& name_text((#[trigger] monitors@[j]).name) == name_text(
                        slots@[j].monitor_name,
                    )
                    &&& monitors@[j].media_path == slots@[j].media_path
                    &&& monitors@[j].fit_mode == slots@[j].fit_mode
                },
        decreases slots@.len() - i,
    {
        let slot = &slots[i];
        let name: Option<String> = match &slot.monitor_name {
            Some(n) => Some(n.clone()),
            None => None,
        };
        let media_path: Option<PathBuf> = match &slot.media_path {
            Some(path) => Some(path.clone()),
            None => None,
        };
        monitors.push(PersistedMonitorConfig { name, media_path, fit_mode: slot.fit_mode });
        i = i + 1;
    }
    PersistedConfig { monitors }
}

/// What `PathBuf::eq` may answer about two paths.
pub open spec fn path_answer(a: PathBuf, b: PathBuf, same: bool) -> bool {
    call_ensures(<PathBuf as PartialEq>::eq, (&a, &b), same)
}

/// Two entries are the same. `same_path` is the answer about their two paths; where
/// either has none, it does not matter.
pub open spec fn same_entry(
    a: PersistedMonitorConfig,
    b: PersistedMonitorConfig,
    same_path: bool,
) -> bool {
    &&& name_text(a.name) == name_text(b.name)
    &&& a.fit_mode == b.fit_mode
    &&& match (a.media_path, b.media_path) {
        (Some(_), Some(_)) => same_path,
        (None, None) => true,
        _ => false,
    }
}

/// Two configurations are the same. `same_paths` holds the answer about the two
/// paths of each monitor.
pub open spec fn same_config(
    a: PersistedConfig,
    b: PersistedConfig,
    same_paths: Seq<bool>,
) -> bool {
    &&& a.monitors@.len() == b.monitors@.len()
    &&& forall|i: int|
        0 <= i < b.monitors@.len() ==> same_entry(
            #[trigger] a.monitors@[i],
            b.monitors@[i],
            same_paths[i],
        )
}

/// `same_paths` holds, for each monitor of `b` with a path in both configurations,
/// what `PathBuf::eq` answered about just these two paths.
pub open spec fn answers_about(
    a: PersistedConfig,
    b: PersistedConfig,
    same_paths: Seq<bool>,
) -> bool {
    &&& same_paths.len() == b.monitors@.len()
    &&& forall|i: int|
        #![trigger same_paths[i]]
        0 <= i < b.monitors@.len() && i < a.monitors@.len() ==> match (
            a.monitors@[i].media_path,
            b.monitors@[i].media_path,
        ) {
            (Some(x), Some(y)) => path_answer(x, y, same_paths[i]),
            _ => true,
        }
}

fn equal_names(a: &Option<String>, b: &Option<String>) -> (r: bool)
    ensures
        r == (name_text(*a) == name_text(*b)),
{
    match (a, b) {
        (Some(x), Some(y)) => x.eq(y),
        (None, None) => true,
        _ => false,
    }
}

/// Whether what is to be remembered has changed. `same_paths` says of each monitor
/// whether its two paths are the same.
pub fn config_differs(
    before: &PersistedConfig,
    now: &PersistedConfig,
    same_paths: &Vec<bool>,
) -> (r: bool)
    requires
        same_paths@.len() == now.monitors@.len(),
    ensures
        r == !same_config(*before, *now, same_paths@),
{
    let count: usize = now.monitors.len();
    if before.monitors.len() != count {
        return true;
    }
    let mut i: usize = 0;
    while i < count
        invariant
            i <= count,
            count == before.monitors@.len(),
            count == now.monitors@.len(),
            count == same_paths@.len(),
            forall|j: int|
                0 <= j < i ==> same_entry(
                    #[trigger] before.monitors@[j],
                    now.monitors@[j],
                    same_paths@[j],
                ),
        decreases count - i,
    {
        let a = &before.monitors[i];
        let b = &now.monitors[i];
        let same_media: bool = match (&a.media_path, &b.media_path) {
            (Some(_), Some(_)) => same_paths[i],
            (None, None) => true,
            _ => false,
        };
        if !(equal_names(&a.name, &b.name) && a.fit_mode == b.fit_mode && same_media) {
            assert(!same_entry(
                before.monitors@[i as int],
                now.monitors@[i as int],
                same_paths@[i as int],
            ));
            return true;
        }
        i = i + 1;
    }
    false
}

/// Asks of each monitor whether its two paths are the same.
fn compare_paths(a: &PersistedConfig, b: &PersistedConfig) -> (r: Vec<bool>)
    ensures
        answers_about(*a, *b, r@),
{
    let mut r: Vec<bool> = Vec::new();
    let mut i: usize = 0;
    while i < b.monitors.len()
        invariant
            i <= b.monitors@.len(),
            r@.len() == i,
            forall|j: int|
                #![trigger r@[j]]
                0 <= j < i && j < a.monitors@.len() ==> match (
                    a.monitors@[j].media_path,
                    b.monitors@[j].media_path,
                ) {
                    (Some(x), Some(y)) => path_answer(x, y, r@[j]),
                    _ => true,
                },
        decreases b.monitors@.len() - i,
    {
        let mut same: bool = false;
        if i < a.monitors.len() {
            if let (Some(x), Some(y)) = (&a.monitors[i].media_path, &b.monitors[i].media_path) {
                same = x.eq(y);
            }
        }
        r.push(same);
        i = i + 1;
    }
    r
}

/// Notes what the slots hold. The result says whether that is news, and so is to
/// be written down: it is not where `last` held the same already.
///
/// Paths are compared by `PathBuf::eq`. What it answers about two spellings is not
/// stated, but its answers about the paths before and now decide.
pub fn persist_config_on_change<E, V, H>(
    media: &WallpaperMedia<E, V, H>,
    last: &mut Option<PersistedConfig>,
) -> (r: bool)
    ensures
        *old(last) is None ==> r,
        r ==> (*final(last) matches Some(now) && describes(now, media.slots@)),
        !r ==> *final(last) == *old(last),
        *old(last) matches Some(before) ==> exists|now: PersistedConfig, same_paths: Seq<bool>|
            #![trigger same_config(before, now, same_paths)]
            {
                &&& describes(now, media.slots@)
                &&& answers_about(before, now, same_paths)
                &&& r == !same_config(before, now, same_paths)
            },
{
    let now = config_of(&media.slots);
    let news: bool = match last {
        Some(before) => {
            let same_paths = compare_paths(before, &now);
            config_differs(before, &now, &same_paths)
        },
        None => true,
    };
    if news {
        *last = Some(now);
    }
    news
}

/// No monitor before `i` has the name of the one at `i`, if that has one.
pub open spec fn first_of_its_name<E, V, H>(slots: Seq<MediaSlot<E, V, H>>, i: int) -> bool {
    slots[i].monitor_name is Some ==> forall|j: int|
        0 <= j < i ==> name_text((#[trigger] slots[j]).monitor_name) != name_text(
            slots[i].monitor_name,
        )
}

/// Where some entry has a name, the first one that has it is found.
proof fn lemma_find_named(
    monitors: Seq<PersistedMonitorConfig>,
    name: Seq<char>,
    from: nat,
    at: nat,
)
    requires
        from <= at < monitors.len(),
        name_text(monitors[at as int].name) == Some(name),
    ensures
        find_named(monitors, name, from) matches Some(found) && {
            &&& from <= found <= at
            &&& name_text(monitors[found as int].name) == Some(name)
            &&& forall|i: int|
                from <= i < found ==> name_text((#[trigger] monitors[i]).name) != Some(name)
        },
    decreases at - from,
{
    if name_text(monitors[from as int].name) != Some(name) {
        lemma_find_named(monitors, name, from + 1, at);
    }
}

/// What is written down on one run is found again on the next: a monitor that was
/// the first of its name, or had none and still has its number, gets back its fit
/// and its media, if the media are still there.
pub proof fn law_saved_config_is_restored<E, V, H>(
    saved: Seq<MediaSlot<E, V, H>>,
    cfg: PersistedConfig,
    fresh: MediaSlot<E, V, H>,
    present: Seq<bool>,
    i: int,
)
    requires
        describes(cfg, saved),
        0 <= i < saved.len(),
        first_of_its_name(saved, i),
        name_text(fresh.monitor_name) == name_text(saved[i].monitor_name),
        fresh.monitor_name is None ==> fresh.monitor_index == i,
        present.len() == saved.len(),
    ensures
        ({
            let back = restored(fresh, cfg.monitors@, present);
            &&& back.fit_mode == saved[i].fit_mode
            &&& if saved[i].media_path is Some && present[i] {
                back.media_path == saved[i].media_path && back.dirty
            } else {
                back.media_path == fresh.media_path && back.dirty == fresh.dirty
            }
        }),
{
    let monitors = cfg.monitors@;
    assert(monitors[i].fit_mode == saved[i].fit_mode);
    match name_text(fresh.monitor_name) {
        Some(name) => {
            assert forall|j: int| 0 <= j < i implies name_text((#[trigger] monitors[j]).name)
                != Some(name) by {
                assert(name_text(saved[j].monitor_name) == name_text(monitors[j].name));
            }
            lemma_find_named(monitors, name, 0, i as nat);
        },
        None => {},
    }
    assert(entry_for(monitors, fresh.monitor_name, fresh.monitor_index) == Some(i as nat));
}

/// A monitor keeps what is remembered of its name when its number changes.
pub proof fn law_names_go_before_numbers(
    monitors: Seq<PersistedMonitorConfig>,
    name: Option<String>,
    index: usize,
    other_index: usize,
    at: int,
)
    requires
        name is Some,
        0 <= at < monitors.len(),
        name_text(monitors[at].name) == name_text(name),
    ensures
        entry_for(monitors, name, index) == entry_for(monitors, name, other_index),
        entry_for(monitors, name, index) matches Some(found) && name_text(
            monitors[found as int].name,
        ) == name_text(name),
{
    lemma_find_named(monitors, name_text(name)->0, 0, at as nat);
}

/// Restoring keeps each slot on its monitor, and what it shows.
pub proof fn law_restoring_keeps_monitors<E, V, H>(
    slot: MediaSlot<E, V, H>,
    monitors: Seq<PersistedMonitorConfig>,
    present: Seq<bool>,
)
    ensures
        restored(slot, monitors, present).monitor_index == slot.monitor_index,
        restored(slot, monitors, present).monitor_name == slot.monitor_name,
        restored(slot, monitors, present).target_physical == slot.target_physical,
        restored(slot, monitors, present).handle == slot.handle,
        restored(slot, monitors, present).dims == slot.dims,
{
}

/// Slots that have not changed since they were written down are not written down
/// again.
pub proof fn law_unchanged_slots_are_not_saved_again<E, V, H>(
    slots: Seq<MediaSlot<E, V, H>>,
    before: PersistedConfig,
    now: PersistedConfig,
    same_paths: Seq<bool>,
)
    requires
        describes(before, slots),
        describes(now, slots),
        answers_about(before, now, same_paths),
    ensures
        same_config(before, now, same_paths),
{
    assert forall|i: int| 0 <= i < slots.len() implies same_entry(
        #[trigger] before.monitors@[i],
        now.monitors@[i],
        same_paths[i],
    ) by {
        assert(now.monitors@[i].fit_mode == slots[i].fit_mode);
    }
}

/// A monitor that comes, goes, is renamed or is fitted otherwise is news, and so is
/// one that gets media, loses them, or gets media whose path is found to be another
/// one.
pub proof fn law_changes_are_saved(
    before: PersistedConfig,
    now: PersistedConfig,
    same_paths: Seq<bool>,
    i: int,
)
    requires
        before.monitors@.len() != now.monitors@.len() || {
            let a = before.monitors@[i];
            let b = now.monitors@[i];
            &&& 0 <= i < now.monitors@.len()
            &&& {
                ||| name_text(a.name) != name_text(b.name)
                ||| a.fit_mode != b.fit_mode
                ||| a.media_path is Some != b.media_path is Some
                ||| a.media_path is Some && b.media_path is Some && !same_paths[i]
            }
        },
    ensures
        !same_config(before, now, same_paths),
{
    if before.monitors@.len() == now.monitors@.len() {
        assert(!same_entry(before.monitors@[i], now.monitors@[i], same_paths[i]));
    }
}

/// A name is the same as another one just when they have the same characters, or
/// when both are missing.
pub proof fn law_names_are_their_characters(a: Option<String>, b: Option<String>)
    ensures
        name_text(a) is Some <==> a is Some,
        name_text(a) == name_text(b) <==> match (a, b) {
            (Some(x), Some(y)) => x@ == y@,
            (None, None) => true,
            _ => false,
        },
{
}

/// The entry of a monitor is the first one that has its name. Where none has, or it
/// has no name, it is the one at its number, if there is one.
pub proof fn law_entry_of_a_monitor(
    monitors: Seq<PersistedMonitorConfig>,
    name: Option<String>,
    index: usize,
)
    ensures
        match entry_for(monitors, name, index) {
            Some(found) => {
                let has_name = name is Some && exists|j: int|
                    0 <= j < monitors.len() && (#[trigger] monitors[j]).name is Some
                        && monitors[j].name->0@ == name->0@;
                &&& found < monitors.len()
                &&& !has_name ==> found == index
                &&& has_name ==> monitors[found as int].name is Some
                    && monitors[found as int].name->0@ == name->0@
                &&& has_name ==> forall|j: int|
                    0 <= j < found && (#[trigger] monitors[j]).name is Some
                        ==> monitors[j].name->0@ != name->0@
            },
            None => {
                &&& index >= monitors.len()
                &&& name is Some ==> forall|j: int|
                    0 <= j < monitors.len() && (#[trigger] monitors[j]).name is Some
                        ==> monitors[j].name->0@ != name->0@
            },
        },
{
    if let Some(text) = name_text(name) {
        if exists|j: int|
            0 <= j < monitors.len() && (#[trigger] monitors[j]).name is Some
                && monitors[j].name->0@ == text {
            let j = choose|j: int|
                0 <= j < monitors.len() && (#[trigger] monitors[j]).name is Some
                    && monitors[j].name->0@ == text;
            lemma_find_named(monitors, text, 0, j as nat);
            assert forall|k: int|
                0 <= k < find_named(monitors, text, 0)->0 && (#[trigger] monitors[k]).name is Some
                implies monitors[k].name->0@ != text by {
                assert(name_text(monitors[k].name) != Some(text));
            }
        } else {
            lemma_find_nothing(monitors, text, 0);
        }
    }
}

proof fn lemma_find_nothing(monitors: Seq<PersistedMonitorConfig>, name: Seq<char>, from: nat)
    requires
        forall|j: int|
            0 <= j < monitors.len() && (#[trigger] monitors[j]).name is Some
                ==> monitors[j].name->0@ != name,
    ensures
        find_named(monitors, name, from) is None,
    decreases monitors.len() - from,
{
    if from < monitors.len() {
        assert(name_text(monitors[from as int].name) != Some(name));
        lemma_find_nothing(monitors, name, from + 1);
    }
}

/// Restoring takes the fit of the entry, and its media where they are still there. A
/// monitor without an entry, and everything else of a slot, stays as it was.
pub proof fn law_restoring_takes_fit_and_media<E, V, H>(
    slot: MediaSlot<E, V, H>,
    monitors: Seq<PersistedMonitorConfig>,
    present: Seq<bool>,
)
    ensures
        ({
            let back = restored(slot, monitors, present);
            &&& (MediaSlot {
                fit_mode: slot.fit_mode,
                media_path: slot.media_path,
                dirty: slot.dirty,
                ..back
            }) == slot
            &&& match entry_for(monitors, slot.monitor_name, slot.monitor_index) {
                None => back == slot,
                Some(i) => {
                    let entry = monitors[i as int];
                    &&& back.fit_mode == entry.fit_mode
                    &&& entry.media_path is Some && present[i as int] ==> back.media_path
                        == entry.media_path && back.dirty
                    &&& !(entry.media_path is Some && present[i as int]) ==> back.media_path
                        == slot.media_path && back.dirty == slot.dirty
                },
            }
        }),
{
}

/// What is written down has an entry for each slot, in order, with its name, its media
/// and its fit.
pub proof fn law_config_describes_each_slot<E, V, H>(
    cfg: PersistedConfig,
    slots: Seq<MediaSlot<E, V, H>>,
    i: int,
)
    requires
        describes(cfg, slots),
    ensures
        cfg.monitors@.len() == slots.len(),
        0 <= i < slots.len() ==> {
            &&& cfg.monitors@[i].name is Some == slots[i].monitor_name is Some
            &&& slots[i].monitor_name is Some ==> cfg.monitors@[i].name->0@
                == slots[i].monitor_name->0@
            &&& cfg.monitors@[i].media_path == slots[i].media_path
            &&& cfg.monitors@[i].fit_mode == slots[i].fit_mode
        },
{
}

/// Where a monitor has a path before and now, what is known of them is an answer of
/// the comparison about these two.
pub proof fn law_paths_are_compared(
    before: PersistedConfig,
    now: PersistedConfig,
    same_paths: Seq<bool>,
    i: int,
)
    requires
        answers_about(before, now, same_paths),
        0 <= i < before.monitors@.len(),
        i < now.monitors@.len(),
        before.monitors@[i].media_path is Some,
        now.monitors@[i].media_path is Some,
    ensures
        call_ensures(
            <PathBuf as PartialEq>::eq,
            (&before.monitors@[i].media_path->0, &now.monitors@[i].media_path->0),
            same_paths[i],
        ),
{
    let same = same_paths[i];
}

/// What was read is remembered as it was, and where nothing could be read there is
/// nothing to remember.
pub proof fn law_loading_falls_back_to_nothing(
    parsed: Option<PersistedConfig>,
    loaded: PersistedConfig,
)
    requires
        call_ensures(loaded_or_default, (parsed,), loaded),
    ensures
        parsed is Some ==> loaded == parsed->0,
        parsed is None ==> loaded.monitors@.len() == 0,
{
}

/// News is written down: name, media and fit of each slot, and nothing else. Without
/// news what was written down stays, and it has the names and the fits of the slots
/// already. What was never written down is news.
pub proof fn law_news_is_written_down<E, V, H>(
    media: WallpaperMedia<E, V, H>,
    last: &mut Option<PersistedConfig>,
    news: bool,
    i: int,
)
    requires
        call_ensures(persist_config_on_change::<E, V, H>, (&media, last), news),
        0 <= i < media.slots@.len(),
    ensures
        *old(last) is None ==> news,
        !news ==> *final(last) == *old(last),
        *final(last) is Some,
        ({
            let entries = (*final(last))->0.monitors@;
            let slot = media.slots@[i];
            &&& entries.len() == media.slots@.len()
            &&& entries[i].fit_mode == slot.fit_mode
            &&& entries[i].name is Some <==> slot.monitor_name is Some
            &&& slot.monitor_name is Some ==> entries[i].name->0@ == slot.monitor_name->0@
            &&& entries[i].media_path is Some <==> slot.media_path is Some
            &&& news ==> entries[i].media_path == slot.media_path
        }),
{
    if news {
        let now = (*final(last))->0;
        assert(describes(now, media.slots@));
        assert(name_text(now.monitors@[i].name) == name_text(media.slots@[i].monitor_name));
    } else {
        let before = (*old(last))->0;
        let (now, same_paths): (PersistedConfig, Seq<bool>) = choose|
            now: PersistedConfig,
            same_paths: Seq<bool>,
        |
            #![trigger same_config(before, now, same_paths)]
            {
                &&& describes(now, media.slots@)
                &&& answers_about(before, now, same_paths)
                &&& news == !same_config(before, now, same_paths)
            };
        assert(same_entry(before.monitors@[i], now.monitors@[i], same_paths[i]));
        assert(name_text(now.monitors@[i].name) == name_text(media.slots@[i].monitor_name));
    }
}

/// To look again at slots that have not changed is no news.
pub proof fn law_second_look_is_no_news<E, V, H>(
    media: WallpaperMedia<E, V, H>,
    first: &mut Option<PersistedConfig>,
    second: &mut Option<PersistedConfig>,
    news: bool,
    again: bool,
)
    requires
        call_ensures(persist_config_on_change::<E, V, H>, (&media, first), news),
        call_ensures(persist_config_on_change::<E, V, H>, (&media, second), again),
        news,
        *old(second) == *final(first),
    ensures
        !again,
        *final(second) == *final(first),
{
    let before = (*final(first))->0;
    let (now, same_paths): (PersistedConfig, Seq<bool>) = choose|
        now: PersistedConfig,
        same_paths: Seq<bool>,
    |
        #![trigger same_config(before, now, same_paths)]
        {
            &&& describes(now, media.slots@)
            &&& answers_about(before, now, same_paths)
            &&& again == !same_config(before, now, same_paths)
        };
    law_unchanged_slots_are_not_saved_again(media.slots@, before, now, same_paths);
}

/// Restoring takes, for each slot, the fit of its entry, and the media of the entry where
/// they are still there.
pub proof fn law_each_slot_is_restored<E, V, H>(
    media: &mut WallpaperMedia<E, V, H>,
    cfg: PersistedConfig,
    present: Vec<bool>,
    i: int,
    at: nat,
)
    requires
        present@.len() == cfg.monitors@.len(),
        call_ensures(restore_config::<E, V, H>, (media, &cfg, &present), ()),
        0 <= i < old(media).slots@.len(),
        entry_for(
            cfg.monitors@,
            old(media).slots@[i].monitor_name,
            old(media).slots@[i].monitor_index,
        ) == Some(at),
    ensures
        final(media).slots@.len() == old(media).slots@.len(),
        final(media).slots@[i].fit_mode == cfg.monitors@[at as int].fit_mode,
        cfg.monitors@[at as int].media_path is Some && present@[at as int] ==> {
            &&& final(media).slots@[i].media_path == cfg.monitors@[at as int].media_path
            &&& final(media).slots@[i].dirty
        },
        cfg.monitors@[at as int].media_path is None || !present@[at as int] ==> {
            &&& final(media).slots@[i].media_path == old(media).slots@[i].media_path
            &&& final(media).slots@[i].dirty == old(media).slots@[i].dirty
        },
        final(media).slots@[i].monitor_index == old(media).slots@[i].monitor_index,
        final(media).slots@[i].monitor_name == old(media).slots@[i].monitor_name,
{
    law_restoring_takes_fit_and_media(old(media).slots@[i], cfg.monitors@, present@);
}

/// The entry that is found for a monitor is the first one of its name, or else the one at
/// its number.
pub proof fn law_entry_is_found_by_name_or_number(
    cfg: PersistedConfig,
    name: Option<String>,
    index: usize,
    found: Option<usize>,
    j: int,
)
    requires
        call_ensures(find_entry, (&cfg, &name, index), found),
        0 <= j < cfg.monitors@.len(),
        name is Some,
        cfg.monitors@[j].name is Some,
        cfg.monitors@[j].name->0@ == name->0@,
    ensures
        found is Some,
        found->0 <= j,
        cfg.monitors@[found->0 as int].name is Some,
        cfg.monitors@[found->0 as int].name->0@ == name->0@,
{
    law_entry_of_a_monitor(cfg.monitors@, name, index);
    lemma_find_named(cfg.monitors@, name->0@, 0, j as nat);
}

/// A monitor whose name no entry has gets the entry at its number, if there is one.
pub proof fn law_unknown_name_falls_back_to_the_number(
    cfg: PersistedConfig,
    name: Option<String>,
    index: usize,
    found: Option<usize>,
)
    requires
        call_ensures(find_entry, (&cfg, &name, index), found),
        name is None || forall|j: int|
            0 <= j < cfg.monitors@.len() && (#[trigger] cfg.monitors@[j]).name is Some
                ==> cfg.monitors@[j].name->0@ != name->0@,
    ensures
        found == if index < cfg.monitors@.len() {
            Some(index)
        } else {
            None
        },
{
    law_entry_of_a_monitor(cfg.monitors@, name, index);
}

/// What is written down of slots has an entry for each of them, and differs from what was
/// written down before where their number, a name, a fit, the lack of media or the answer
/// about a path does.
pub proof fn law_what_is_written_down_differs<E, V, H>(
    slots: Vec<MediaSlot<E, V, H>>,
    now: PersistedConfig,
    before: PersistedConfig,
    same_paths: Vec<bool>,
    differs: bool,
    i: int,
)
    requires
        call_ensures(config_of::<E, V, H>, (&slots,), now),
        same_paths@.len() == now.monitors@.len(),
        call_ensures(config_differs, (&before, &now, &same_paths), differs),
        0 <= i < slots@.len(),
    ensures
        now.monitors@.len() == slots@.len(),
        now.monitors@[i].media_path == slots@[i].media_path,
        now.monitors@[i].fit_mode == slots@[i].fit_mode,
        now.monitors@[i].name is Some == slots@[i].monitor_name is Some,
        slots@[i].monitor_name is Some ==> now.monitors@[i].name->0@ == slots@[i].monitor_name->0@,
        before.monitors@.len() != slots@.len() ==> differs,
        !differs ==> {
            let entry = before.monitors@[i];
            &&& entry.fit_mode == slots@[i].fit_mode
            &&& entry.name is Some == slots@[i].monitor_name is Some
            &&& entry.name is Some ==> entry.name->0@ == slots@[i].monitor_name->0@
            &&& entry.media_path is Some == slots@[i].media_path is Some
            &&& entry.media_path is Some ==> same_paths@[i]
        },
{
    law_config_describes_each_slot(now, slots@, i);
    if !differs {
        assert(same_entry(before.monitors@[i], now.monitors@[i], same_paths@[i]));
    }
}

/// What was written down is found the same where every entry has its name, its fit and
/// its media, and the answer about each path says so.
pub proof fn law_same_entries_make_no_difference(
    before: PersistedConfig,
    now: PersistedConfig,
    same_paths: Vec<bool>,
    differs: bool,
)
    requires
        same_paths@.len() == now.monitors@.len(),
        call_ensures(config_differs, (&before, &now, &same_paths), differs),
        before.monitors@.len() == now.monitors@.len(),
        forall|i: int|
            0 <= i < now.monitors@.len() ==> {
                let entry = #[trigger] before.monitors@[i];
                &&& entry.fit_mode == now.monitors@[i].fit_mode
                &&& entry.name is Some == now.monitors@[i].name is Some
                &&& entry.name is Some ==> entry.name->0@ == now.monitors@[i].name->0@
                &&& entry.media_path is Some == now.monitors@[i].media_path is Some
                &&& entry.media_path is Some ==> same_paths@[i]
            },
    ensures
        !differs,
{
    assert forall|i: int| 0 <= i < now.monitors@.len() implies same_entry(
        #[trigger] before.monitors@[i],
        now.monitors@[i],
        same_paths@[i],
    ) by {
        law_names_are_their_characters(before.monitors@[i].name, now.monitors@[i].name);
    }
}

/// Media whose path is found to be another one than the path written down are news.
pub proof fn law_other_path_is_news<E, V, H>(
    media: WallpaperMedia<E, V, H>,
    last: &mut Option<PersistedConfig>,
    news: bool,
    i: int,
)
    requires
        call_ensures(persist_config_on_change::<E, V, H>, (&media, last), news),
        *old(last) is Some,
        0 <= i < media.slots@.len(),
        i < (*old(last))->0.monitors@.len(),
        (*old(last))->0.monitors@[i].media_path is Some,
        media.slots@[i].media_path is Some,
        forall|same: bool|
            call_ensures(
                <PathBuf as PartialEq>::eq,
                (&(*old(last))->0.monitors@[i].media_path->0, &media.slots@[i].media_path->0),
                same,
            ) ==> !same,
    ensures
        news,
{
    let before = (*old(last))->0;
    let (now, same_paths): (PersistedConfig, Seq<bool>) = choose|
        now: PersistedConfig,
        same_paths: Seq<bool>,
    |
        #![trigger same_config(before, now, same_paths)]
        {
            &&& describes(now, media.slots@)
            &&& answers_about(before, now, same_paths)
            &&& news == !same_config(before, now, same_paths)
        };
    assert(now.monitors@[i].media_path == media.slots@[i].media_path);
    law_paths_are_compared(before, now, same_paths, i);
    if !news {
        assert(same_entry(before.monitors@[i], now.monitors@[i], same_paths[i]));
    }
}

} // verus!
