//! The watcher of the platform whose notifications name one entry each.

use super::{
    after_watch, change_views, watches_path, well_kept, Change, ChangeView, WatchError, WatchTable,
    Watched,
};
use crate::disk::Disk;
use crate::paths::{extension, extension_of, join, joined, PathStyle};
use crate::platforms::linux::{application_in, is_application, read_text, text_at};
use crate::text::{str_eq, texts};
use vstd::prelude::*;

verus! {

/// An entry was created in the directory.
pub const IN_CREATE: u32 = 0x0000_0100;

/// An entry was deleted from the directory.
pub const IN_DELETE: u32 = 0x0000_0200;

/// An entry was moved out of the directory.
pub const IN_MOVED_FROM: u32 = 0x0000_0040;

/// An entry was moved into the directory.
pub const IN_MOVED_TO: u32 = 0x0000_0080;

/// The directory itself was deleted.
pub const IN_DELETE_SELF: u32 = 0x0000_0400;

/// The directory itself was moved.
pub const IN_MOVE_SELF: u32 = 0x0000_0800;

/// Watch the path only if it is a directory.
pub const IN_ONLYDIR: u32 = 0x0100_0000;

/// The flags with which every directory is registered: entries created,
/// deleted and moved in or out, the directory itself deleted or moved, and
/// directories only.
pub fn watch_flag() -> (flags: u32)
    ensures
        flags == 0x0100_0FC0,
        flags & IN_CREATE != 0,
        flags & IN_DELETE != 0,
        flags & IN_MOVED_FROM != 0,
        flags & IN_MOVED_TO != 0,
        flags & IN_DELETE_SELF != 0,
        flags & IN_MOVE_SELF != 0,
        flags & IN_ONLYDIR != 0,
{
    let flags: u32 = IN_CREATE | IN_DELETE | IN_MOVED_FROM | IN_MOVED_TO | IN_DELETE_SELF
        | IN_MOVE_SELF | IN_ONLYDIR;
    assert(0x0000_0100u32 | 0x0000_0200u32 | 0x0000_0040u32 | 0x0000_0080u32 | 0x0000_0400u32
        | 0x0000_0800u32 | 0x0100_0000u32 == 0x0100_0FC0u32) by (bit_vector);
    assert(0x0100_0FC0u32 & 0x0000_0100u32 != 0 && 0x0100_0FC0u32 & 0x0000_0200u32 != 0
        && 0x0100_0FC0u32 & 0x0000_0040u32 != 0 && 0x0100_0FC0u32 & 0x0000_0080u32 != 0
        && 0x0100_0FC0u32 & 0x0000_0400u32 != 0 && 0x0100_0FC0u32 & 0x0000_0800u32 != 0
        && 0x0100_0FC0u32 & 0x0100_0000u32 != 0) by (bit_vector);
    flags
}

/// A raw notification.
#[derive(Debug)]
pub struct RawEvent {
    /// The handle of the watched directory.
    pub handle: u64,
    /// What happened, as a set of flags.
    pub mask: u32,
    /// The name of the entry that it happened to.
    pub name: Option<String>,
}

/// Whether the event tells of an entry that came into the directory.
pub open spec fn tells_arrival(mask: u32) -> bool {
    mask & IN_CREATE != 0 || mask & IN_MOVED_TO != 0
}

/// Whether the event tells of an entry that left the directory.
pub open spec fn tells_departure(mask: u32) -> bool {
    mask & IN_DELETE != 0 || mask & IN_MOVED_FROM != 0
}

/// Whether `path` is named like a descriptor.
pub open spec fn is_descriptor_name(path: Seq<char>) -> bool {
    extension(path, PathStyle::Unix) == Some("desktop"@)
}

/// Whether the file at `path` is a descriptor that counts as an application
/// by the rule of the enumeration.
pub open spec fn is_valid_descriptor(disk: Disk, path: Seq<char>) -> bool {
    &&& disk.is_file(path)
    &&& text_at(disk, path) is Some
    &&& application_in(text_at(disk, path)->0) is Some
}

/// The changes that one event tells of, for an entry named `name` in the
/// directory `dir`: an install where a descriptor arrived that is valid, and
/// a deletion where a descriptor left.
pub open spec fn entry_changes(dir: Seq<char>, mask: u32, name: Seq<char>, disk: Disk) -> Seq<
    ChangeView,
> {
    let path = joined(dir, name, PathStyle::Unix);
    let installed = if tells_arrival(mask) && is_descriptor_name(path) && is_valid_descriptor(
        disk,
        path,
    ) {
        seq![ChangeView::AppInstalled { app_path: path }]
    } else {
        Seq::empty()
    };
    let deleted = if tells_departure(mask) && is_descriptor_name(path) {
        seq![ChangeView::AppDeleted { app_path: path }]
    } else {
        Seq::empty()
    };
    installed + deleted
}

/// The changes that one event tells of.  An event that names no entry, or
/// whose directory is not watched, such as one that was still queued for a
/// directory that is no longer watched, tells of none.
pub open spec fn event_changes(table: Map<u64, Watched>, event: RawEvent, disk: Disk) -> Seq<
    ChangeView,
> {
    match event.name {
        Some(name) => if table.contains_key(event.handle) {
            entry_changes(table[event.handle].path, event.mask, name@, disk)
        } else {
            Seq::empty()
        },
        None => Seq::empty(),
    }
}

/// The changes that the first `upto` events tell of, in the order of the
/// events.
pub open spec fn batch_changes(
    table: Map<u64, Watched>,
    events: Seq<RawEvent>,
    disk: Disk,
    upto: int,
) -> Seq<ChangeView>
    decreases upto,
{
    if upto <= 0 {
        Seq::empty()
    } else {
        batch_changes(table, events, disk, upto - 1) + event_changes(
            table,
            events[upto - 1],
            disk,
        )
    }
}

/// The watcher's record of the directories that are watched.
#[derive(Debug)]
pub struct Watcher {
    search_paths: WatchTable,
}

impl View for Watcher {
    type V = Map<u64, Watched>;

    closed spec fn view(&self) -> Map<u64, Watched> {
        self.search_paths@
    }
}

/// What a registration of `path` stands for in the table.
pub open spec fn registration(path: Seq<char>) -> Watched {
    Watched { path, listing: Seq::empty() }
}

/// The table after the first `upto` registrations; the failure of the first
/// registration that names a directory watched already under another handle.
pub open spec fn registered(registrations: Seq<(u64, String)>, upto: int) -> Result<
    Map<u64, Watched>,
    WatchError,
>
    decreases upto,
{
    if upto <= 0 {
        Ok(Map::empty())
    } else {
        match registered(registrations, upto - 1) {
            Ok(table) => after_watch(
                table,
                registrations[upto - 1].0,
                registration(registrations[upto - 1].1@),
            ),
            Err(e) => Err(e),
        }
    }
}

/// A failure among the first registrations is the failure of all.
pub proof fn lemma_registered_error(registrations: Seq<(u64, String)>, at: int, upto: int)
    requires
        0 <= at <= upto,
        registered(registrations, at) is Err,
    ensures
        registered(registrations, upto) == registered(registrations, at),
    decreases upto - at,
{
    if at < upto {
        lemma_registered_error(registrations, at, upto - 1);
    }
}

impl Watcher {
    /// A watcher of the directories that were registered, each with the
    /// handle that the system gave for it.  Fails where two registrations
    /// name one directory under different handles.
    pub fn new(registrations: &Vec<(u64, String)>) -> (out: Result<Watcher, WatchError>)
        ensures
            match registered(registrations@, registrations@.len() as int) {
                Ok(table) => out is Ok && out->Ok_0@ == table,
                Err(e) => out is Err && out->Err_0 == e,
            },
            out is Ok ==> well_kept(out->Ok_0@),
    {
        let mut table = WatchTable::new();
        let mut i: usize = 0;
        while i < registrations.len()
            invariant
                i <= registrations.len(),
                registered(registrations@, i as int) == Ok::<Map<u64, Watched>, WatchError>(table@),
            decreases registrations.len() - i,
        {
            let listing: Vec<String> = Vec::new();
            assert(texts(listing@) =~= Seq::<Seq<char>>::empty());
            match table.watch(registrations[i].0, registrations[i].1.clone(), listing) {
                Ok(()) => {},
                Err(e) => {
                    proof {
                        lemma_registered_error(
                            registrations@,
                            i + 1,
                            registrations@.len() as int,
                        );
                    }
                    return Err(e);
                },
            }
            i += 1;
        }
        table.well_kept_holds();
        Ok(Watcher { search_paths: table })
    }

    /// Whether `search_path` is watched.
    pub open spec fn watching(self, search_path: Seq<char>) -> bool {
        watches_path(self@, search_path)
    }

    /// The directory that is watched under `handle`.
    pub fn path_of(&self, handle: u64) -> (out: Option<&String>)
        ensures
            out is Some == self@.contains_key(handle),
            out is Some ==> out->0@ == self@[handle].path,
            well_kept(self@),
    {
        self.search_paths.well_kept_holds();
        self.search_paths.path_of(handle)
    }

    /// The handle under which `search_path` is watched.
    pub fn handle_of(&self, search_path: &str) -> (out: Option<u64>)
        ensures
            out is Some == self.watching(search_path@),
            out is Some ==> self@.contains_key(out->0) && self@[out->0].path == search_path@,
            well_kept(self@),
    {
        self.search_paths.well_kept_holds();
        self.search_paths.handle_of(search_path)
    }

    /// Records that `search_path` was registered under `handle`.  Fails, and
    /// changes nothing, where the directory is watched under another handle;
    /// the caller then releases the handle it got.
    pub fn watch(&mut self, handle: u64, search_path: String) -> (out: Result<(), WatchError>)
        ensures
            match after_watch(old(self)@, handle, registration(search_path@)) {
                Ok(table) => out is Ok && final(self)@ == table,
                Err(e) => out == Err::<(), WatchError>(e) && final(self)@ == old(self)@,
            },
            well_kept(final(self)@),
    {
        let listing: Vec<String> = Vec::new();
        assert(texts(listing@) =~= Seq::<Seq<char>>::empty());
        self.search_paths.watch(handle, search_path, listing)
    }

    /// Forgets `search_path` and returns the handle under which it was
    /// watched, which the caller releases.
    pub fn unwatch(&mut self, search_path: &str) -> (handle: u64)
        requires
            old(self).watching(search_path@),
        ensures
            old(self)@.contains_key(handle),
            old(self)@[handle].path == search_path@,
            final(self)@ == old(self)@.remove(handle),
            !final(self).watching(search_path@),
            well_kept(final(self)@),
    {
        self.search_paths.well_kept_holds();
        let handle = self.search_paths.handle_of(search_path).unwrap();
        self.search_paths.remove(handle);
        assert(!watches_path(self@, search_path@)) by {
            if watches_path(self@, search_path@) {
                let other = choose|other: u64|
                    #[trigger] self@.contains_key(other) && self@[other].path == search_path@;
                assert(old(self)@.contains_key(other) && old(self)@.contains_key(handle));
            }
        }
        handle
    }

    /// The changes that one raw event tells of; computes `event_changes`.
    pub fn decode(&self, event: &RawEvent, disk: &Disk) -> (out: Vec<Change>)
        ensures
            change_views(out@) == event_changes(self@, *event, *disk),
    {
        let mut changes: Vec<Change> = Vec::new();
        assert(change_views(changes@) =~= Seq::<ChangeView>::empty());
        let search_path = match self.search_paths.path_of(event.handle) {
            Some(path) => path,
            None => {
                return changes;
            },
        };
        let mask = event.mask;
        let file_name = match &event.name {
            Some(name) => name,
            None => {
                return changes;
            },
        };
        let file_path = join(search_path.as_str(), file_name.as_str(), PathStyle::Unix);
        let is_descriptor = match extension_of(file_path.as_str(), PathStyle::Unix) {
            Some(ext) => str_eq(ext.as_str(), "desktop"),
            None => false,
        };
        if (mask & IN_CREATE != 0 || mask & IN_MOVED_TO != 0) && is_descriptor && disk.has_file(
            file_path.as_str(),
        ) {
            let valid = match read_text(disk, file_path.as_str()) {
                Some(desktop_file_content) => is_application(desktop_file_content.as_str()),
                None => false,
            };
            if valid {
                changes.push(Change::AppInstalled { app_path: file_path.clone() });
                assert(change_views(changes@) =~= seq![
                    ChangeView::AppInstalled { app_path: file_path@ },
                ]);
            }
        }
        if (mask & IN_DELETE != 0 || mask & IN_MOVED_FROM != 0) && is_descriptor {
            let ghost before = change_views(changes@);
            changes.push(Change::AppDeleted { app_path: file_path });
            assert(change_views(changes@) =~= before + seq![
                ChangeView::AppDeleted { app_path: file_path@ },
            ]);
        }
        changes
    }

    /// The changes that a batch of raw events tells of, in the order of the
    /// events.  An event of a directory that is not watched is passed over.
    pub fn recv(&self, events: &Vec<RawEvent>, disk: &Disk) -> (out: Vec<Change>)
        ensures
            change_views(out@) == batch_changes(self@, events@, *disk, events@.len() as int),
    {
        let mut changes: Vec<Change> = Vec::new();
        let mut i: usize = 0;
        assert(change_views(changes@) =~= batch_changes(self@, events@, *disk, 0));
        while i < events.len()
            invariant
                i <= events.len(),
                change_views(changes@) == batch_changes(self@, events@, *disk, i as int),
            decreases events.len() - i,
        {
            let mut more = self.decode(&events[i], disk);
            let ghost before = change_views(changes@);
            let ghost added = change_views(more@);
            changes.append(&mut more);
            assert(change_views(changes@) =~= before + added);
            i += 1;
        }
        changes
    }
}

/// A valid descriptor that arrives in a watched directory gives exactly one
/// change: an install for the path of the descriptor.
pub proof fn lemma_arrival_gives_one_install(table: Map<u64, Watched>, event: RawEvent, disk: Disk)
    requires
        table.contains_key(event.handle),
        event.name is Some,
        tells_arrival(event.mask),
        !tells_departure(event.mask),
        is_descriptor_name(joined(table[event.handle].path, event.name->0@, PathStyle::Unix)),
        is_valid_descriptor(
            disk,
            joined(table[event.handle].path, event.name->0@, PathStyle::Unix),
        ),
    ensures
        batch_changes(table, seq![event], disk, 1) == seq![
            ChangeView::AppInstalled {
                app_path: joined(table[event.handle].path, event.name->0@, PathStyle::Unix),
            },
        ],
{
    assert(batch_changes(table, seq![event], disk, 0) == Seq::<ChangeView>::empty());
    assert(batch_changes(table, seq![event], disk, 1) =~= event_changes(table, event, disk));
    assert(event_changes(table, event, disk) =~= seq![
        ChangeView::AppInstalled {
            app_path: joined(table[event.handle].path, event.name->0@, PathStyle::Unix),
        },
    ]);
}

/// A descriptor that leaves a watched directory gives exactly one change: a
/// deletion for the path of the descriptor.  This holds whatever is on the
/// disk, so also when the file is gone.
pub proof fn lemma_departure_gives_one_deletion(
    table: Map<u64, Watched>,
    event: RawEvent,
    disk: Disk,
)
    requires
        table.contains_key(event.handle),
        event.name is Some,
        tells_departure(event.mask),
        !tells_arrival(event.mask),
        is_descriptor_name(joined(table[event.handle].path, event.name->0@, PathStyle::Unix)),
    ensures
        batch_changes(table, seq![event], disk, 1) == seq![
            ChangeView::AppDeleted {
                app_path: joined(table[event.handle].path, event.name->0@, PathStyle::Unix),
            },
        ],
{
    assert(batch_changes(table, seq![event], disk, 0) == Seq::<ChangeView>::empty());
    assert(batch_changes(table, seq![event], disk, 1) =~= event_changes(table, event, disk));
    assert(event_changes(table, event, disk) =~= seq![
        ChangeView::AppDeleted {
            app_path: joined(table[event.handle].path, event.name->0@, PathStyle::Unix),
        },
    ]);
}

/// An arrival that is no valid descriptor gives no change.
pub proof fn lemma_invalid_arrival_gives_nothing(
    table: Map<u64, Watched>,
    event: RawEvent,
    disk: Disk,
)
    requires
        table.contains_key(event.handle),
        event.name is Some,
        !tells_departure(event.mask),
        !is_valid_descriptor(
            disk,
            joined(table[event.handle].path, event.name->0@, PathStyle::Unix),
        ),
    ensures
        event_changes(table, event, disk) == Seq::<ChangeView>::empty(),
{
}

/// An event on a handle under which nothing is watched gives no change.
pub proof fn lemma_unwatched_event_gives_nothing(
    table: Map<u64, Watched>,
    event: RawEvent,
    disk: Disk,
)
    requires
        !table.contains_key(event.handle),
    ensures
        event_changes(table, event, disk) == Seq::<ChangeView>::empty(),
{
}

} // verus!
