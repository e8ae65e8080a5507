//! Watching for installs and removals: the state of a watcher and the rules
//! that turn raw notifications into `Change`s.
//!
//! A watcher here owns no handle of the operating system.  The caller
//! registers a directory with the system and tells the watcher the handle it
//! got; it waits for raw events, hands them in together with a snapshot of
//! the disk, and gets the changes back.
//!
//! The table of a watcher is `well_kept` at all times: each watched directory
//! has exactly one handle, and no stored listing names an entry twice.

pub mod linux;
pub mod macos;
pub mod windows;

use crate::text::{str_eq, texts};
use std::collections::HashMap;
use vstd::prelude::*;

verus! {

/// A change to the set of installed applications.
#[derive(Debug)]
pub enum Change {
    /// The descriptor at `app_path` was checked and is an application.
    AppInstalled { app_path: String },
    /// Something was removed at `app_path`.  It is gone, so nothing could be
    /// checked: it may never have been an application.
    AppDeleted { app_path: String },
}

/// What a `Change` holds.
pub enum ChangeView {
    AppInstalled { app_path: Seq<char> },
    AppDeleted { app_path: Seq<char> },
}

impl View for Change {
    type V = ChangeView;

    open spec fn view(&self) -> ChangeView {
        match *self {
            Change::AppInstalled { app_path } => ChangeView::AppInstalled { app_path: app_path@ },
            Change::AppDeleted { app_path } => ChangeView::AppDeleted { app_path: app_path@ },
        }
    }
}

/// The views of the changes of `changes`, in order.
pub open spec fn change_views(changes: Seq<Change>) -> Seq<ChangeView> {
    Seq::new(changes.len(), |i: int| changes[i]@)
}

/// Why a directory could not be watched or unwatched.
#[derive(Clone, Copy, Debug, PartialEq, Eq, Structural)]
pub enum WatchError {
    /// The path is no directory.
    NotADirectory,
    /// The path is not being watched.
    NotWatched,
    /// The path is being watched already, under another handle.
    AlreadyWatched,
}

/// A watched directory: its path and what was last listed in it.
pub struct Watched {
    pub path: Seq<char>,
    pub listing: Seq<Seq<char>>,
}

/// One registration.
#[derive(Debug)]
pub struct WatchEntry {
    pub path: String,
    pub listing: Vec<String>,
}

impl View for WatchEntry {
    type V = Watched;

    open spec fn view(&self) -> Watched {
        Watched { path: self.path@, listing: texts(self.listing@) }
    }
}

/// Whether `path` is watched under some handle.
pub open spec fn watches_path(table: Map<u64, Watched>, path: Seq<char>) -> bool {
    exists|handle: u64| #[trigger] table.contains_key(handle) && table[handle].path == path
}

/// Whether `path` is watched under another handle than `handle`.
pub open spec fn watched_elsewhere(table: Map<u64, Watched>, handle: u64, path: Seq<char>) -> bool {
    exists|other: u64|
        #[trigger] table.contains_key(other) && other != handle && table[other].path == path
}

/// Whether every watched directory has exactly one handle.
pub open spec fn one_handle_each(table: Map<u64, Watched>) -> bool {
    forall|a: u64, b: u64|
        #[trigger] table.contains_key(a) && #[trigger] table.contains_key(b) && table[a].path
            == table[b].path ==> a == b
}

/// Whether no listing names an entry twice.
pub open spec fn listings_distinct(table: Map<u64, Watched>) -> bool {
    forall|handle: u64| #[trigger]
        table.contains_key(handle) ==> table[handle].listing.no_duplicates()
}

/// What holds of the table of every watcher: each watched directory has one
/// handle, and no listing names an entry twice.
pub open spec fn well_kept(table: Map<u64, Watched>) -> bool {
    one_handle_each(table) && listings_distinct(table)
}

/// The table after `path` was registered under `handle`.  A directory that
/// is watched under another handle is not registered again: the caller has to
/// release the handle it got.  A registration under the handle itself is
/// replaced.
pub open spec fn after_watch(table: Map<u64, Watched>, handle: u64, watched: Watched) -> Result<
    Map<u64, Watched>,
    WatchError,
> {
    if watched_elsewhere(table, handle, watched.path) {
        Err(WatchError::AlreadyWatched)
    } else {
        Ok(table.insert(handle, watched))
    }
}

/// The table after the directory under `handle` was listed again.
pub open spec fn after_listing(
    table: Map<u64, Watched>,
    handle: u64,
    listing: Seq<Seq<char>>,
) -> Map<u64, Watched> {
    if table.contains_key(handle) {
        table.insert(handle, Watched { path: table[handle].path, listing })
    } else {
        table
    }
}

/// The directories that are watched, by the handle that the system gave for
/// each.  The table is `well_kept` at all times.
#[derive(Debug)]
pub struct WatchTable {
    entries: HashMap<u64, WatchEntry>,
}

impl View for WatchTable {
    type V = Map<u64, Watched>;

    closed spec fn view(&self) -> Map<u64, Watched> {
        table_of(self.entries@)
    }
}

/// The table that a map of registrations stands for.
pub open spec fn table_of(entries: Map<u64, WatchEntry>) -> Map<u64, Watched> {
    Map::new(|handle: u64| entries.contains_key(handle), |handle: u64| entries[handle]@)
}

impl WatchTable {
    #[verifier::type_invariant]
    spec fn kept(self) -> bool {
        well_kept(self@)
    }

    /// Takes the registrations out, to change them; they are put back by an
    /// assignment, which is where the invariant is held to.
    fn take(&mut self) -> (out: HashMap<u64, WatchEntry>)
        ensures
            out@ == old(self).entries@,
            final(self).entries@ == Map::<u64, WatchEntry>::empty(),
    {
        broadcast use vstd::std_specs::hash::group_hash_axioms;

        let mut entries: HashMap<u64, WatchEntry> = HashMap::new();
        assert(table_of(entries@) =~= Map::<u64, Watched>::empty());
        core::mem::swap(&mut entries, &mut self.entries);
        assert(table_of(self.entries@) =~= Map::<u64, Watched>::empty());
        entries
    }

    /// Nothing is watched.
    pub fn new() -> (out: WatchTable)
        ensures
            out@ == Map::<u64, Watched>::empty(),
            well_kept(out@),
    {
        broadcast use vstd::std_specs::hash::group_hash_axioms;

        let entries: HashMap<u64, WatchEntry> = HashMap::new();
        assert(table_of(entries@) =~= Map::<u64, Watched>::empty());
        WatchTable { entries }
    }

    /// Does nothing; its contract says that the table is `well_kept`, which
    /// holds of every table.
    pub fn well_kept_holds(&self)
        ensures
            well_kept(self@),
    {
        proof {
            use_type_invariant(self);
        }
    }

    /// Registers `path` under `handle`, with what was listed in it, unless it
    /// is watched under another handle.
    pub fn watch(&mut self, handle: u64, path: String, listing: Vec<String>) -> (out: Result<
        (),
        WatchError,
    >)
        requires
            texts(listing@).no_duplicates(),
        ensures
            match after_watch(
                old(self)@,
                handle,
                (Watched { path: path@, listing: texts(listing@) }),
            ) {
                Ok(table) => out is Ok && final(self)@ == table,
                Err(e) => out == Err::<(), WatchError>(e) && final(self)@ == old(self)@,
            },
            well_kept(final(self)@),
    {
        broadcast use vstd::std_specs::hash::group_hash_axioms;

        proof {
            use_type_invariant(&*self);
        }
        if let Some(other) = self.handle_of(path.as_str()) {
            if other != handle {
                return Err(WatchError::AlreadyWatched);
            }
        }
        let ghost before = self@;
        let ghost watched = Watched { path: path@, listing: texts(listing@) };
        assert(!watched_elsewhere(before, handle, path@));
        let mut entries = self.take();
        entries.insert(handle, WatchEntry { path, listing });
        assert(table_of(entries@) =~= before.insert(handle, watched));
        assert(one_handle_each(table_of(entries@))) by {
            assert forall|a: u64, b: u64|
                #[trigger] table_of(entries@).contains_key(a) && #[trigger] table_of(
                    entries@,
                ).contains_key(b) && table_of(entries@)[a].path == table_of(entries@)[b].path
                implies a == b by {
                if a != b {
                    if a == handle {
                        assert(before.contains_key(b));
                    } else if b == handle {
                        assert(before.contains_key(a));
                    } else {
                        assert(before.contains_key(a) && before.contains_key(b));
                    }
                }
            }
        }
        self.entries = entries;
        Ok(())
    }

    /// Replaces what was listed in the directory watched under `handle`.
    pub fn relist(&mut self, handle: u64, listing: Vec<String>)
        requires
            texts(listing@).no_duplicates(),
        ensures
            final(self)@ == after_listing(old(self)@, handle, texts(listing@)),
            well_kept(final(self)@),
    {
        broadcast use vstd::std_specs::hash::group_hash_axioms;

        proof {
            use_type_invariant(&*self);
        }
        let path = match self.entries.get(&handle) {
            Some(entry) => entry.path.clone(),
            None => {
                return ;
            },
        };
        let ghost before = self@;
        let ghost watched = Watched { path: path@, listing: texts(listing@) };
        let mut entries = self.take();
        entries.insert(handle, WatchEntry { path, listing });
        assert(table_of(entries@) =~= before.insert(handle, watched));
        assert(one_handle_each(table_of(entries@))) by {
            assert forall|a: u64, b: u64|
                #[trigger] table_of(entries@).contains_key(a) && #[trigger] table_of(
                    entries@,
                ).contains_key(b) && table_of(entries@)[a].path == table_of(entries@)[b].path
                implies a == b by {
                assert(before.contains_key(a) && before.contains_key(b));
                assert(before[a].path == table_of(entries@)[a].path);
                assert(before[b].path == table_of(entries@)[b].path);
            }
        }
        self.entries = entries;
    }

    /// Ends the registration under `handle`, if there is one.
    pub fn remove(&mut self, handle: u64)
        ensures
            final(self)@ == old(self)@.remove(handle),
            well_kept(final(self)@),
    {
        broadcast use vstd::std_specs::hash::group_hash_axioms;

        proof {
            use_type_invariant(&*self);
        }
        let ghost before = self@;
        let mut entries = self.take();
        entries.remove(&handle);
        assert(table_of(entries@) =~= before.remove(handle));
        assert(one_handle_each(table_of(entries@))) by {
            assert forall|a: u64, b: u64|
                #[trigger] table_of(entries@).contains_key(a) && #[trigger] table_of(
                    entries@,
                ).contains_key(b) && table_of(entries@)[a].path == table_of(entries@)[b].path
                implies a == b by {
                assert(before.contains_key(a) && before.contains_key(b));
            }
        }
        self.entries = entries;
    }

    /// The path that is watched under `handle`.
    pub fn path_of(&self, handle: u64) -> (out: Option<&String>)
        ensures
            out is Some == self@.contains_key(handle),
            out is Some ==> out->0@ == self@[handle].path,
    {
        broadcast use vstd::std_specs::hash::group_hash_axioms;

        match self.entries.get(&handle) {
            Some(entry) => Some(&entry.path),
            None => None,
        }
    }

    /// What was last listed in the directory watched under `handle`.
    pub fn listing_of(&self, handle: u64) -> (out: Option<&Vec<String>>)
        ensures
            out is Some == self@.contains_key(handle),
            out is Some ==> texts(out->0@) == self@[handle].listing,
    {
        broadcast use vstd::std_specs::hash::group_hash_axioms;

        match self.entries.get(&handle) {
            Some(entry) => Some(&entry.listing),
            None => None,
        }
    }

    /// The handle under which `path` is watched.
    pub fn handle_of(&self, path: &str) -> (out: Option<u64>)
        ensures
            out is Some == watches_path(self@, path@),
            out is Some ==> self@.contains_key(out->0) && self@[out->0].path == path@,
    {
        broadcast use vstd::std_specs::hash::group_hash_axioms;

        for pair in it: self.entries.iter()
            invariant
                forall|i: int| 0 <= i < it.index() ==> (#[trigger] it.seq()[i]).1.path@ != path@,
        {
            if str_eq(pair.1.path.as_str(), path) {
                assert(self@.contains_key(*pair.0) && self@[*pair.0].path == path@);
                return Some(*pair.0);
            }
        }
        None
    }

    /// Whether nothing is watched.
    pub fn is_empty(&self) -> (r: bool)
        ensures
            r == (self@ == Map::<u64, Watched>::empty()),
    {
        broadcast use vstd::std_specs::hash::group_hash_axioms;

        let r = self.entries.is_empty();
        proof {
            if r {
                assert(self@ =~= Map::<u64, Watched>::empty());
            } else {
                let handle = self.entries@.dom().choose();
                assert(self.entries@.contains_key(handle));
                assert(self@.contains_key(handle));
            }
        }
        r
    }
}

} // verus!
