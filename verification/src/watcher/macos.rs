//! The watcher of the platform whose notifications only say that a
//! directory changed: the directory is listed again and the listing is held
//! against the one before.

use super::{
    after_listing, after_watch, change_views, watches_path, well_kept, Change, ChangeView,
    WatchError, WatchTable, Watched,
};
use crate::utils::mac::{is_bundle_at, MacAppPath};
use crate::disk::Disk;
use crate::paths::{extension, extension_chars, PathStyle};
use crate::text::{chars_of, contains_text, same_text, texts};
use vstd::prelude::*;

verus! {

/// The watched directory was deleted.
pub const NOTE_DELETE: u32 = 0x0000_0001;

/// The watched directory was written to: an entry came or went.
pub const NOTE_WRITE: u32 = 0x0000_0002;

/// The watched directory was renamed.
pub const NOTE_RENAME: u32 = 0x0000_0020;

/// The flags with which every directory is registered.
pub fn watch_flag() -> (flags: u32)
    ensures
        flags == 0x0000_0023,
        flags & NOTE_WRITE != 0,
        flags & NOTE_DELETE != 0,
        flags & NOTE_RENAME != 0,
{
    let flags: u32 = NOTE_WRITE | NOTE_DELETE | NOTE_RENAME;
    assert(0x0000_0002u32 | 0x0000_0001u32 | 0x0000_0020u32 == 0x0000_0023u32) by (bit_vector);
    assert(0x0000_0023u32 & 0x0000_0002u32 != 0 && 0x0000_0023u32 & 0x0000_0001u32 != 0
        && 0x0000_0023u32 & 0x0000_0020u32 != 0) by (bit_vector);
    flags
}

/// A raw notification.
#[derive(Debug)]
pub struct KernelEvent {
    /// The handle of the watched directory.
    pub ident: u64,
    /// What happened, as a set of flags.
    pub fflags: u32,
}

/// Whether entry `i` of the disk is a bundle directly in `dir`: a directory
/// named `*.app` that holds an application by the rule of the enumeration.
pub open spec fn is_bundle_in(disk: Disk, dir: Seq<char>, i: int) -> bool {
    &&& disk.is_child(i, dir, PathStyle::Unix)
    &&& disk.is_dir(disk.entries[i].path@)
    &&& extension(disk.entries[i].path@, PathStyle::Unix) == Some("app"@)
    &&& is_bundle_at(disk.entries[i].path@, disk)
}

/// The bundles directly in `dir` among the first `upto` entries of the disk,
/// each once.
pub open spec fn current_apps(disk: Disk, dir: Seq<char>, upto: int) -> Seq<Seq<char>>
    decreases upto,
{
    if upto <= 0 {
        Seq::empty()
    } else {
        let before = current_apps(disk, dir, upto - 1);
        if is_bundle_in(disk, dir, upto - 1) && !before.contains(disk.entries[upto - 1].path@) {
            before.push(disk.entries[upto - 1].path@)
        } else {
            before
        }
    }
}

/// The bundles directly in `dir`.
pub open spec fn listing(disk: Disk, dir: Seq<char>) -> Seq<Seq<char>> {
    current_apps(disk, dir, disk.entries@.len() as int)
}

/// The bundles directly in the directory `path`; computes `listing`.
pub fn get_current_apps(path: &str, disk: &Disk) -> (out: Vec<String>)
    ensures
        texts(out@) == listing(*disk, path@),
{
    let dir = chars_of(path);
    let wanted = chars_of("app");
    let mut list: Vec<String> = Vec::new();
    let mut i: usize = 0;
    assert(texts(list@) =~= current_apps(*disk, path@, 0));
    while i < disk.entries.len()
        invariant
            i <= disk.entries.len(),
            dir@ == path@,
            wanted@ == "app"@,
            texts(list@) == current_apps(*disk, path@, i as int),
        decreases disk.entries.len() - i,
    {
        let entry = disk.entries[i].path.as_str();
        let is_bundle = match extension_chars(&chars_of(entry), PathStyle::Unix) {
            Some(ext) => same_text(&ext, &wanted),
            None => false,
        };
        if disk.child_of(i, &dir, PathStyle::Unix) && disk.has_dir(entry) && is_bundle
            && MacAppPath::new(disk.entries[i].path.clone()).is_app(disk) {
            if !contains_text(&list, entry) {
                let ghost before = texts(list@);
                list.push(disk.entries[i].path.clone());
                assert(texts(list@) =~= before.push(entry@));
            }
        }
        i += 1;
    }
    list
}

/// The first `upto` items of `a` that `b` does not hold, in order.
pub open spec fn missing_from(a: Seq<Seq<char>>, b: Seq<Seq<char>>, upto: int) -> Seq<Seq<char>>
    decreases upto,
{
    if upto <= 0 {
        Seq::empty()
    } else {
        let before = missing_from(a, b, upto - 1);
        if b.contains(a[upto - 1]) {
            before
        } else {
            before.push(a[upto - 1])
        }
    }
}

/// What left: the paths of the listing before that the listing now does not
/// hold.
pub open spec fn removed(before: Seq<Seq<char>>, now: Seq<Seq<char>>) -> Seq<Seq<char>> {
    missing_from(before, now, before.len() as int)
}

/// What came: the paths of the listing now that the listing before does not
/// hold.
pub open spec fn added(before: Seq<Seq<char>>, now: Seq<Seq<char>>) -> Seq<Seq<char>> {
    missing_from(now, before, now.len() as int)
}

/// A deletion for each path.
pub open spec fn deletions(paths: Seq<Seq<char>>) -> Seq<ChangeView> {
    Seq::new(paths.len(), |i: int| ChangeView::AppDeleted { app_path: paths[i] })
}

/// An install for each path.
pub open spec fn installs(paths: Seq<Seq<char>>) -> Seq<ChangeView> {
    Seq::new(paths.len(), |i: int| ChangeView::AppInstalled { app_path: paths[i] })
}

/// The changes between two listings of a directory: a deletion for each
/// path that left, then an install for each path that came.
pub open spec fn listing_changes(before: Seq<Seq<char>>, now: Seq<Seq<char>>) -> Seq<ChangeView> {
    deletions(removed(before, now)) + installs(added(before, now))
}

/// Computes `missing_from` for the whole of `a`.
fn difference(a: &Vec<String>, b: &Vec<String>) -> (out: Vec<String>)
    ensures
        texts(out@) == missing_from(texts(a@), texts(b@), a@.len() as int),
{
    let mut out: Vec<String> = Vec::new();
    let mut i: usize = 0;
    assert(texts(out@) =~= missing_from(texts(a@), texts(b@), 0));
    while i < a.len()
        invariant
            i <= a.len(),
            texts(out@) == missing_from(texts(a@), texts(b@), i as int),
        decreases a.len() - i,
    {
        if !contains_text(b, a[i].as_str()) {
            let ghost before = texts(out@);
            out.push(a[i].clone());
            assert(texts(out@) =~= before.push(a[i as int]@));
        }
        i += 1;
    }
    out
}

/// The changes between two listings of a directory; computes
/// `listing_changes`.
pub fn diff_listings(before: &Vec<String>, now: &Vec<String>) -> (out: Vec<Change>)
    ensures
        change_views(out@) == listing_changes(texts(before@), texts(now@)),
{
    let apps_deleted = difference(before, now);
    let apps_added = difference(now, before);
    let mut changes: Vec<Change> = Vec::new();
    let mut i: usize = 0;
    while i < apps_deleted.len()
        invariant
            i <= apps_deleted.len(),
            changes.len() == i,
            forall|k: int|
                0 <= k < i ==> #[trigger] changes[k]@ == (ChangeView::AppDeleted {
                    app_path: apps_deleted[k]@,
                }),
        decreases apps_deleted.len() - i,
    {
        changes.push(Change::AppDeleted { app_path: apps_deleted[i].clone() });
        i += 1;
    }
    let mut j: usize = 0;
    while j < apps_added.len()
        invariant
            j <= apps_added.len(),
            changes.len() == apps_deleted.len() + j,
            forall|k: int|
                0 <= k < apps_deleted.len() ==> #[trigger] changes[k]@ == (ChangeView::AppDeleted {
                    app_path: apps_deleted[k]@,
                }),
            forall|k: int|
                0 <= k < j ==> #[trigger] changes[apps_deleted.len() + k]@
                    == (ChangeView::AppInstalled { app_path: apps_added[k]@ }),
        decreases apps_added.len() - j,
    {
        changes.push(Change::AppInstalled { app_path: apps_added[j].clone() });
        j += 1;
    }
    proof {
        let gone = deletions(removed(texts(before@), texts(now@)));
        let come = installs(added(texts(before@), texts(now@)));
        assert(gone.len() == apps_deleted.len());
        assert(come.len() == apps_added.len());
        assert forall|k: int| 0 <= k < changes.len() implies change_views(changes@)[k] == (gone
            + come)[k] by {
            if k < gone.len() {
                assert(texts(apps_deleted@)[k] == apps_deleted[k]@);
                assert(changes[k]@ == gone[k]);
            } else {
                let m = k - gone.len();
                assert(texts(apps_added@)[m] == apps_added[m]@);
                assert(changes[apps_deleted.len() + m]@ == come[m]);
            }
        }
        assert(change_views(changes@) =~= gone + come);
    }
    changes
}

/// Whether the event tells that entries came or went.
pub open spec fn tells_write(event: KernelEvent) -> bool {
    event.fflags & NOTE_WRITE != 0
}

/// Whether the event makes the watcher list a directory again: it tells of a
/// write to a directory that is watched.  Any other event is passed over.
pub open spec fn concerns(table: Map<u64, Watched>, event: KernelEvent) -> bool {
    tells_write(event) && table.contains_key(event.ident)
}

/// The changes that one event tells of: those between the listing that the
/// table holds and the listing of the disk.
pub open spec fn event_changes(table: Map<u64, Watched>, event: KernelEvent, disk: Disk) -> Seq<
    ChangeView,
> {
    if concerns(table, event) {
        listing_changes(table[event.ident].listing, listing(disk, table[event.ident].path))
    } else {
        Seq::empty()
    }
}

/// The table after one event: the listing of the directory is replaced by
/// that of the disk.
pub open spec fn after_event(table: Map<u64, Watched>, event: KernelEvent, disk: Disk) -> Map<
    u64,
    Watched,
> {
    if concerns(table, event) {
        after_listing(table, event.ident, listing(disk, table[event.ident].path))
    } else {
        table
    }
}

/// The table after the first `upto` events.
pub open spec fn after_batch(
    table: Map<u64, Watched>,
    events: Seq<KernelEvent>,
    disk: Disk,
    upto: int,
) -> Map<u64, Watched>
    decreases upto,
{
    if upto <= 0 {
        table
    } else {
        after_event(after_batch(table, events, disk, upto - 1), events[upto - 1], disk)
    }
}

/// The changes that the first `upto` events tell of.
pub open spec fn batch_changes(
    table: Map<u64, Watched>,
    events: Seq<KernelEvent>,
    disk: Disk,
    upto: int,
) -> Seq<ChangeView>
    decreases upto,
{
    if upto <= 0 {
        Seq::empty()
    } else {
        batch_changes(table, events, disk, upto - 1) + event_changes(
            after_batch(table, events, disk, upto - 1),
            events[upto - 1],
            disk,
        )
    }
}

/// What a registration of `path` stands for in the table: the directory
/// with the listing of the disk.
pub open spec fn registration(path: Seq<char>, disk: Disk) -> Watched {
    Watched { path, listing: listing(disk, path) }
}

/// The table after `path` was registered under `handle`: the failure where
/// the path is no directory or is watched under another handle.
pub open spec fn after_registration(
    table: Map<u64, Watched>,
    handle: u64,
    path: Seq<char>,
    disk: Disk,
) -> Result<Map<u64, Watched>, WatchError> {
    if !disk.is_dir(path) {
        Err(WatchError::NotADirectory)
    } else {
        after_watch(table, handle, registration(path, disk))
    }
}

/// The table after the first `upto` registrations; the failure of the first
/// registration that fails.
pub open spec fn registered(registrations: Seq<(u64, String)>, disk: Disk, upto: int) -> Result<
    Map<u64, Watched>,
    WatchError,
>
    decreases upto,
{
    if upto <= 0 {
        Ok(Map::empty())
    } else {
        match registered(registrations, disk, upto - 1) {
            Ok(table) => after_registration(
                table,
                registrations[upto - 1].0,
                registrations[upto - 1].1@,
                disk,
            ),
            Err(e) => Err(e),
        }
    }
}

/// A failure among the first registrations is the failure of all.
pub proof fn lemma_registered_error(
    registrations: Seq<(u64, String)>,
    disk: Disk,
    at: int,
    upto: int,
)
    requires
        0 <= at <= upto,
        registered(registrations, disk, at) is Err,
    ensures
        registered(registrations, disk, upto) == registered(registrations, disk, at),
    decreases upto - at,
{
    if at < upto {
        lemma_registered_error(registrations, disk, at, upto - 1);
    }
}

/// The watcher's record of the directories that are watched, each with the
/// bundles that were last listed in it.
#[derive(Debug)]
pub struct Watcher {
    search_paths: WatchTable,
}

impl View for Watcher {
    type V = Map<u64, Watched>;

    closed spec fn view(&self) -> Map<u64, Watched> {
        self.search_paths@
    }
}

impl Watcher {
    /// A watcher of the directories that were registered, each with the
    /// handle that the system gave for it.  Fails where a path is no
    /// directory, or where two registrations name one directory under
    /// different handles.
    pub fn new(registrations: &Vec<(u64, String)>, disk: &Disk) -> (out: Result<
        Watcher,
        WatchError,
    >)
        ensures
            match registered(registrations@, *disk, registrations@.len() as int) {
                Ok(table) => out is Ok && out->Ok_0@ == table,
                Err(e) => out is Err && out->Err_0 == e,
            },
            out is Ok ==> well_kept(out->Ok_0@),
    {
        let mut table = WatchTable::new();
        let mut i: usize = 0;
        while i < registrations.len()
            invariant
                i <= registrations.len(),
                registered(registrations@, *disk, i as int) == Ok::<
                    Map<u64, Watched>,
                    WatchError,
                >(table@),
            decreases registrations.len() - i,
        {
            let search_path = registrations[i].1.as_str();
            if !disk.has_dir(search_path) {
                proof {
                    lemma_registered_error(
                        registrations@,
                        *disk,
                        i + 1,
                        registrations@.len() as int,
                    );
                }
                return Err(WatchError::NotADirectory);
            }
            let apps = get_current_apps(search_path, disk);
            proof {
                lemma_listing_distinct(*disk, search_path@, disk.entries@.len() as int);
            }
            match table.watch(registrations[i].0, registrations[i].1.clone(), apps) {
                Ok(()) => {},
                Err(e) => {
                    proof {
                        lemma_registered_error(
                            registrations@,
                            *disk,
                            i + 1,
                            registrations@.len() as int,
                        );
                    }
                    return Err(e);
                },
            }
            i += 1;
        }
        table.well_kept_holds();
        Ok(Watcher { search_paths: table })
    }

    /// Whether `search_path` is watched.
    pub open spec fn watching(self, search_path: Seq<char>) -> bool {
        watches_path(self@, search_path)
    }

    /// The directory that is watched under `handle`.
    pub fn path_of(&self, handle: u64) -> (out: Option<&String>)
        ensures
            out is Some == self@.contains_key(handle),
            out is Some ==> out->0@ == self@[handle].path,
            well_kept(self@),
    {
        self.search_paths.well_kept_holds();
        self.search_paths.path_of(handle)
    }

    /// The handle under which `search_path` is watched.
    pub fn handle_of(&self, search_path: &str) -> (out: Option<u64>)
        ensures
            out is Some == self.watching(search_path@),
            out is Some ==> self@.contains_key(out->0) && self@[out->0].path == search_path@,
            well_kept(self@),
    {
        self.search_paths.well_kept_holds();
        self.search_paths.handle_of(search_path)
    }

    /// Whether a directory is watched under `handle`.
    pub fn is_registered(&self, handle: u64) -> (r: bool)
        ensures
            r == self@.contains_key(handle),
    {
        self.search_paths.path_of(handle).is_some()
    }

    /// The changes that a batch of raw events tells of.  After it the watcher
    /// holds, for each directory that an event told of, the listing of the
    /// disk.  An event that tells of no write, or of a directory that is not
    /// watched, is passed over.
    pub fn recv(&mut self, events: &Vec<KernelEvent>, disk: &Disk) -> (out: Vec<Change>)
        ensures
            change_views(out@) == batch_changes(old(self)@, events@, *disk, events@.len() as int),
            final(self)@ == after_batch(old(self)@, events@, *disk, events@.len() as int),
            well_kept(final(self)@),
    {
        let mut changes: Vec<Change> = Vec::new();
        let mut i: usize = 0;
        assert(change_views(changes@) =~= batch_changes(old(self)@, events@, *disk, 0));
        self.search_paths.well_kept_holds();
        while i < events.len()
            invariant
                i <= events.len(),
                well_kept(self@),
                self@ == after_batch(old(self)@, events@, *disk, i as int),
                change_views(changes@) == batch_changes(old(self)@, events@, *disk, i as int),
            decreases events.len() - i,
        {
            let raw_fd = events[i].ident;
            let fflag = events[i].fflags;
            let watched = match self.search_paths.path_of(raw_fd) {
                Some(path) => Some(path.clone()),
                None => None,
            };
            match watched {
                Some(search_path_name) => {
                    if fflag & NOTE_WRITE != 0 {
                        let current_app_list = get_current_apps(search_path_name.as_str(), disk);
                        proof {
                            lemma_listing_distinct(
                                *disk,
                                search_path_name@,
                                disk.entries@.len() as int,
                            );
                        }
                        let mut more = {
                            let prev_app_list = self.search_paths.listing_of(raw_fd).unwrap();
                            diff_listings(prev_app_list, &current_app_list)
                        };
                        let ghost before = change_views(changes@);
                        let ghost found = change_views(more@);
                        changes.append(&mut more);
                        assert(change_views(changes@) =~= before + found);
                        self.search_paths.relist(raw_fd, current_app_list);
                    } else {
                        assert(change_views(changes@) + Seq::<ChangeView>::empty() =~= change_views(
                            changes@,
                        ));
                    }
                },
                None => {
                    assert(change_views(changes@) + Seq::<ChangeView>::empty() =~= change_views(
                        changes@,
                    ));
                },
            }
            i += 1;
        }
        changes
    }

    /// Forgets `search_path` and returns the handle under which it was
    /// watched, which the caller releases.
    pub fn unwatch(&mut self, search_path: &str) -> (handle: u64)
        requires
            old(self).watching(search_path@),
        ensures
            old(self)@.contains_key(handle),
            old(self)@[handle].path == search_path@,
            final(self)@ == old(self)@.remove(handle),
            !final(self).watching(search_path@),
            well_kept(final(self)@),
    {
        self.search_paths.well_kept_holds();
        let fd = self.search_paths.handle_of(search_path).unwrap();
        self.search_paths.remove(fd);
        assert(!watches_path(self@, search_path@)) by {
            if watches_path(self@, search_path@) {
                let other = choose|other: u64|
                    #[trigger] self@.contains_key(other) && self@[other].path == search_path@;
                assert(old(self)@.contains_key(other) && old(self)@.contains_key(fd));
            }
        }
        fd
    }

    /// Records that `search_path` was registered under `handle`, with the
    /// listing of the directory.  Fails, and changes nothing, where the path
    /// is no directory or is watched under another handle; the caller then
    /// releases the handle it got.
    pub fn watch(&mut self, handle: u64, search_path: String, disk: &Disk) -> (out: Result<
        (),
        WatchError,
    >)
        ensures
            match after_registration(old(self)@, handle, search_path@, *disk) {
                Ok(table) => out is Ok && final(self)@ == table,
                Err(e) => out == Err::<(), WatchError>(e) && final(self)@ == old(self)@,
            },
            well_kept(final(self)@),
    {
        self.search_paths.well_kept_holds();
        if !disk.has_dir(search_path.as_str()) {
            return Err(WatchError::NotADirectory);
        }
        let apps = get_current_apps(search_path.as_str(), disk);
        proof {
            lemma_listing_distinct(*disk, search_path@, disk.entries@.len() as int);
        }
        self.search_paths.watch(handle, search_path, apps)
    }

    /// Whether nothing is watched.
    pub fn watch_list_is_empty(&self) -> (r: bool)
        ensures
            r == (self@ == Map::<u64, Watched>::empty()),
    {
        self.search_paths.is_empty()
    }
}

/// `missing_from` holds, each once, the items of the part of `a` that `b`
/// does not hold.
pub proof fn lemma_missing_from(a: Seq<Seq<char>>, b: Seq<Seq<char>>, upto: int)
    requires
        0 <= upto <= a.len(),
        a.no_duplicates(),
    ensures
        missing_from(a, b, upto).no_duplicates(),
        forall|x: Seq<char>| #[trigger]
            missing_from(a, b, upto).contains(x) <==> a.take(upto).contains(x) && !b.contains(x),
    decreases upto,
{
    if upto > 0 {
        lemma_missing_from(a, b, upto - 1);
        let before = missing_from(a, b, upto - 1);
        let whole = missing_from(a, b, upto);
        let item = a[upto - 1];
        let shorter = a.take(upto - 1);
        let longer = a.take(upto);
        assert(!shorter.contains(item)) by {
            if shorter.contains(item) {
                let k = choose|k: int| 0 <= k < shorter.len() && shorter[k] == item;
                assert(a[k] == a[upto - 1]);
            }
        }
        assert forall|x: Seq<char>| #[trigger]
            whole.contains(x) <==> longer.contains(x) && !b.contains(x) by {
            if whole.contains(x) {
                let k = choose|k: int| 0 <= k < whole.len() && whole[k] == x;
                if k < before.len() {
                    assert(before[k] == x);
                    assert(before.contains(x));
                    let m = choose|m: int| 0 <= m < shorter.len() && shorter[m] == x;
                    assert(longer[m] == x);
                } else {
                    assert(longer[upto - 1] == x);
                }
            }
            if longer.contains(x) && !b.contains(x) {
                let m = choose|m: int| 0 <= m < longer.len() && longer[m] == x;
                if m < upto - 1 {
                    assert(shorter[m] == x);
                    assert(before.contains(x));
                    let k = choose|k: int| 0 <= k < before.len() && before[k] == x;
                    assert(whole[k] == x);
                } else {
                    assert(whole[before.len() as int] == x);
                }
            }
        }
        assert(whole.no_duplicates()) by {
            if !b.contains(item) {
                assert(!before.contains(item));
                assert forall|i: int, j: int|
                    0 <= i < whole.len() && 0 <= j < whole.len() && i != j implies whole[i]
                    != whole[j] by {
                    if i < before.len() && j < before.len() {
                    } else if i < before.len() {
                        assert(before[i] == whole[i]);
                        assert(before.contains(whole[i]));
                    } else {
                        assert(before[j] == whole[j]);
                        assert(before.contains(whole[j]));
                    }
                }
            }
        }
    }
}

/// A listing of the disk names no bundle twice.
pub proof fn lemma_listing_distinct(disk: Disk, dir: Seq<char>, upto: int)
    ensures
        current_apps(disk, dir, upto).no_duplicates(),
    decreases upto,
{
    if upto > 0 {
        lemma_listing_distinct(disk, dir, upto - 1);
        let before = current_apps(disk, dir, upto - 1);
        let whole = current_apps(disk, dir, upto);
        let item = disk.entries[upto - 1].path@;
        if is_bundle_in(disk, dir, upto - 1) && !before.contains(item) {
            assert forall|i: int, j: int|
                0 <= i < whole.len() && 0 <= j < whole.len() && i != j implies whole[i]
                != whole[j] by {
                if i < before.len() && j < before.len() {
                } else if i < before.len() {
                    assert(before[i] == whole[i]);
                    assert(before.contains(whole[i]));
                } else {
                    assert(before[j] == whole[j]);
                    assert(before.contains(whole[j]));
                }
            }
        }
    }
}

/// The changes between two listings are exact.  Where bundles `gone` left a
/// directory and bundles `come`, none of which was there, came into it, the
/// changes hold a deletion for each bundle of `gone` and for nothing else,
/// an install for each bundle of `come` and for nothing else, and no change
/// twice; so there are as many deletions as bundles left and as many
/// installs as bundles came.  This holds in whatever order the directory is
/// listed.
pub proof fn lemma_listing_changes_are_exact(
    before: Seq<Seq<char>>,
    now: Seq<Seq<char>>,
    gone: Set<Seq<char>>,
    come: Set<Seq<char>>,
)
    requires
        before.no_duplicates(),
        now.no_duplicates(),
        gone.subset_of(before.to_set()),
        come.disjoint(before.to_set()),
        now.to_set() == before.to_set().difference(gone).union(come),
    ensures
        removed(before, now).to_set() == gone,
        added(before, now).to_set() == come,
        removed(before, now).len() == gone.len(),
        added(before, now).len() == come.len(),
        listing_changes(before, now) == deletions(removed(before, now)) + installs(
            added(before, now),
        ),
        listing_changes(before, now).no_duplicates(),
{
    let left = removed(before, now);
    let new = added(before, now);
    lemma_missing_from(before, now, before.len() as int);
    lemma_missing_from(now, before, now.len() as int);
    assert(before.take(before.len() as int) == before);
    assert(now.take(now.len() as int) == now);
    assert forall|x: Seq<char>| left.to_set().contains(x) == gone.contains(x) by {
        if gone.contains(x) {
            assert(before.to_set().contains(x));
            assert(!come.contains(x));
            assert(!now.to_set().contains(x));
        }
        if left.contains(x) {
            assert(before.to_set().contains(x));
            assert(!now.to_set().contains(x));
        }
    }
    assert(left.to_set() =~= gone);
    assert forall|x: Seq<char>| new.to_set().contains(x) == come.contains(x) by {
        if come.contains(x) {
            assert(now.to_set().contains(x));
            assert(!before.to_set().contains(x));
        }
        if new.contains(x) {
            assert(now.to_set().contains(x));
            assert(!before.to_set().contains(x));
        }
    }
    assert(new.to_set() =~= come);
    left.unique_seq_to_set();
    new.unique_seq_to_set();
    let changes = listing_changes(before, now);
    assert forall|i: int, j: int|
        0 <= i < changes.len() && 0 <= j < changes.len() && i != j implies changes[i]
        != changes[j] by {
        if i < left.len() && j < left.len() {
            assert(left[i] != left[j]);
        } else if i >= left.len() && j >= left.len() {
            assert(new[i - left.len()] != new[j - left.len()]);
        }
    }
}

/// Every path of a listing is a bundle directly in the directory that
/// holds an application.
pub proof fn lemma_listing_holds_applications(
    disk: Disk,
    dir: Seq<char>,
    upto: int,
    path: Seq<char>,
)
    requires
        current_apps(disk, dir, upto).contains(path),
    ensures
        is_bundle_at(path, disk),
        exists|i: int|
            0 <= i < upto && is_bundle_in(disk, dir, i) && #[trigger] disk.entries[i].path@
                == path,
    decreases upto,
{
    if upto > 0 {
        let before = current_apps(disk, dir, upto - 1);
        let whole = current_apps(disk, dir, upto);
        let k = choose|k: int| 0 <= k < whole.len() && whole[k] == path;
        if k < before.len() {
            assert(before[k] == path);
            lemma_listing_holds_applications(disk, dir, upto - 1, path);
            let i = choose|i: int|
                0 <= i < upto - 1 && is_bundle_in(disk, dir, i) && #[trigger] disk.entries[i].path@
                    == path;
            assert(is_bundle_in(disk, dir, i) && disk.entries[i].path@ == path);
        } else {
            assert(is_bundle_in(disk, dir, upto - 1) && disk.entries[upto - 1].path@ == path);
        }
    }
}

/// An install is reported only for what is valid when it is reported: every
/// install among the changes of an event names a bundle that stands directly
/// in the watched directory and holds an application on the disk, by the rule
/// of the enumeration.
pub proof fn lemma_installs_are_valid(
    table: Map<u64, Watched>,
    event: KernelEvent,
    disk: Disk,
    path: Seq<char>,
)
    requires
        event_changes(table, event, disk).contains(ChangeView::AppInstalled { app_path: path }),
    ensures
        concerns(table, event),
        is_bundle_at(path, disk),
        listing(disk, table[event.ident].path).contains(path),
        !table[event.ident].listing.contains(path),
{
    let changes = event_changes(table, event, disk);
    let before = table[event.ident].listing;
    let now = listing(disk, table[event.ident].path);
    let gone = deletions(removed(before, now));
    let come = installs(added(before, now));
    let k = choose|k: int|
        0 <= k < changes.len() && changes[k] == (ChangeView::AppInstalled { app_path: path });
    assert(concerns(table, event));
    assert(changes == gone + come);
    assert(k >= gone.len()) by {
        if k < gone.len() {
            assert(changes[k] == gone[k]);
        }
    }
    let m = k - gone.len();
    assert(changes[k] == come[m]);
    assert(added(before, now)[m] == path);
    assert(added(before, now).contains(path));
    lemma_listing_distinct(disk, table[event.ident].path, disk.entries@.len() as int);
    lemma_missing_from(now, before, now.len() as int);
    assert(now.take(now.len() as int) == now);
    lemma_listing_holds_applications(
        disk,
        table[event.ident].path,
        disk.entries@.len() as int,
        path,
    );
}

} // verus!
