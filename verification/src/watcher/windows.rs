//! The watcher of the platform whose notifications carry full paths and
//! reach into subdirectories.

use super::{change_views, Change, ChangeView, WatchError};
use crate::common::TextMap;
use crate::disk::Disk;
use crate::paths::{extension, extension_chars, PathStyle};
use crate::platforms::windows::{
    decoded_shortcut, find_shortcut, from_path, path_app, ShortcutRecord,
};
use crate::text::{chars_of, contains_text, same_text, str_eq, texts};
use vstd::prelude::*;

verus! {

/// What a raw notification tells of.
#[derive(Clone, Copy, Debug, PartialEq, Eq, Structural)]
pub enum EventKind {
    /// Files were created.
    CreateFile,
    /// Files were removed.
    RemoveFile,
    /// Anything else.
    Other,
}

/// A raw notification.
#[derive(Debug)]
pub struct FileEvent {
    pub kind: EventKind,
    /// The paths that it happened to.
    pub paths: Vec<String>,
}

/// Whether `path` is named like a shortcut file.
pub open spec fn is_shortcut_name(path: Seq<char>) -> bool {
    extension(path, PathStyle::Windows) == Some("lnk"@)
}

/// Whether the file at `path` is a shortcut that gives a record by the rule
/// of the enumeration: it could be decoded, and its target is on the disk.
pub open spec fn is_valid_shortcut(
    path: Seq<char>,
    shortcuts: Seq<(String, ShortcutRecord)>,
    env: Map<Seq<char>, Seq<char>>,
    disk: Disk,
) -> bool {
    disk.is_file(path) && path_app(path, decoded_shortcut(shortcuts, path), env, disk) is Some
}

/// An install for each of the first `upto` created paths that is a valid
/// shortcut.
pub open spec fn created_changes(
    paths: Seq<Seq<char>>,
    shortcuts: Seq<(String, ShortcutRecord)>,
    env: Map<Seq<char>, Seq<char>>,
    disk: Disk,
    upto: int,
) -> Seq<ChangeView>
    decreases upto,
{
    if upto <= 0 {
        Seq::empty()
    } else {
        let before = created_changes(paths, shortcuts, env, disk, upto - 1);
        if is_shortcut_name(paths[upto - 1]) && is_valid_shortcut(
            paths[upto - 1],
            shortcuts,
            env,
            disk,
        ) {
            before.push(ChangeView::AppInstalled { app_path: paths[upto - 1] })
        } else {
            before
        }
    }
}

/// A deletion for each of the first `upto` removed paths that is named like
/// a shortcut file.
pub open spec fn removed_changes(paths: Seq<Seq<char>>, upto: int) -> Seq<ChangeView>
    decreases upto,
{
    if upto <= 0 {
        Seq::empty()
    } else {
        let before = removed_changes(paths, upto - 1);
        if is_shortcut_name(paths[upto - 1]) {
            before.push(ChangeView::AppDeleted { app_path: paths[upto - 1] })
        } else {
            before
        }
    }
}

/// The changes that one event tells of.
pub open spec fn event_changes(
    event: FileEvent,
    shortcuts: Seq<(String, ShortcutRecord)>,
    env: Map<Seq<char>, Seq<char>>,
    disk: Disk,
) -> Seq<ChangeView> {
    match event.kind {
        EventKind::CreateFile => created_changes(
            texts(event.paths@),
            shortcuts,
            env,
            disk,
            event.paths@.len() as int,
        ),
        EventKind::RemoveFile => removed_changes(texts(event.paths@), event.paths@.len() as int),
        EventKind::Other => Seq::empty(),
    }
}

/// Tests `is_shortcut_name`.
fn shortcut_name(path: &str) -> (r: bool)
    ensures
        r == is_shortcut_name(path@),
{
    match extension_chars(&chars_of(path), PathStyle::Windows) {
        Some(ext) => same_text(&ext, &chars_of("lnk")),
        None => false,
    }
}

/// The watcher's record of the directories that are watched.
#[derive(Debug)]
pub struct Watcher {
    watched: Vec<String>,
}

impl View for Watcher {
    type V = Set<Seq<char>>;

    closed spec fn view(&self) -> Set<Seq<char>> {
        texts(self.watched@).to_set()
    }
}

impl Watcher {
    /// A watcher of `search_paths`.
    pub fn new(search_paths: &Vec<String>) -> (out: Watcher)
        ensures
            out@ == texts(search_paths@).to_set(),
    {
        let mut watched: Vec<String> = Vec::new();
        let mut i: usize = 0;
        while i < search_paths.len()
            invariant
                i <= search_paths.len(),
                watched.len() == i,
                forall|k: int| 0 <= k < i ==> #[trigger] watched[k]@ == search_paths[k]@,
            decreases search_paths.len() - i,
        {
            watched.push(search_paths[i].clone());
            i += 1;
        }
        assert(texts(watched@) =~= texts(search_paths@));
        Watcher { watched }
    }

    /// Whether `search_path` is watched.
    pub fn is_watching(&self, search_path: &str) -> (r: bool)
        ensures
            r == self@.contains(search_path@),
    {
        contains_text(&self.watched, search_path)
    }

    /// Records that `search_path` is watched.
    pub fn watch(&mut self, search_path: String)
        ensures
            final(self)@ == old(self)@.insert(search_path@),
    {
        let ghost before = texts(self.watched@);
        self.watched.push(search_path);
        assert(texts(self.watched@) =~= before.push(search_path@));
        assert(before.push(search_path@).to_set() =~= before.to_set().insert(search_path@)) by {
            assert forall|t: Seq<char>|
                before.push(search_path@).to_set().contains(t) <==> before.to_set().insert(
                    search_path@,
                ).contains(t) by {
                if before.push(search_path@).contains(t) {
                    let k = choose|k: int|
                        0 <= k < before.push(search_path@).len() && before.push(search_path@)[k]
                            == t;
                    if k < before.len() {
                        assert(before[k] == t);
                    }
                }
                if before.contains(t) {
                    let k = choose|k: int| 0 <= k < before.len() && before[k] == t;
                    assert(before.push(search_path@)[k] == t);
                }
                if t == search_path@ {
                    assert(before.push(search_path@)[before.len() as int] == t);
                }
            }
        }
    }

    /// Forgets `search_path`.  Fails, and changes nothing, where it is not
    /// watched.
    pub fn unwatch(&mut self, search_path: &str) -> (out: Result<(), WatchError>)
        ensures
            out is Ok == old(self)@.contains(search_path@),
            out is Ok ==> final(self)@ == old(self)@.remove(search_path@),
            out is Err ==> out->Err_0 == WatchError::NotWatched && final(self)@ == old(self)@,
    {
        if !contains_text(&self.watched, search_path) {
            return Err(WatchError::NotWatched);
        }
        let ghost before = texts(self.watched@);
        let mut kept: Vec<String> = Vec::new();
        let mut i: usize = 0;
        while i < self.watched.len()
            invariant
                i <= self.watched.len(),
                before == texts(self.watched@),
                forall|t: Seq<char>| #[trigger]
                    texts(kept@).contains(t) <==> t != search_path@ && before.take(
                        i as int,
                    ).contains(t),
            decreases self.watched.len() - i,
        {
            let ghost sofar = texts(kept@);
            let keep = !str_eq(self.watched[i].as_str(), search_path);
            if keep {
                kept.push(self.watched[i].clone());
                assert(texts(kept@) =~= sofar.push(self.watched[i as int]@));
            }
            proof {
                let item = before[i as int];
                assert(before.take(i + 1) =~= before.take(i as int).push(item));
                assert forall|t: Seq<char>| #[trigger]
                    texts(kept@).contains(t) <==> t != search_path@ && before.take(
                        i + 1,
                    ).contains(t) by {
                    let longer = before.take(i + 1);
                    let shorter = before.take(i as int);
                    if texts(kept@).contains(t) {
                        let k = choose|k: int| 0 <= k < texts(kept@).len() && texts(kept@)[k] == t;
                        if k < sofar.len() {
                            assert(sofar[k] == t);
                            assert(sofar.contains(t));
                            let m = choose|m: int| 0 <= m < shorter.len() && shorter[m] == t;
                            assert(longer[m] == t);
                        } else {
                            assert(longer[i as int] == t);
                        }
                    }
                    if t != search_path@ && longer.contains(t) {
                        let m = choose|m: int| 0 <= m < longer.len() && longer[m] == t;
                        if m < i {
                            assert(shorter[m] == t);
                            assert(sofar.contains(t));
                            let k = choose|k: int| 0 <= k < sofar.len() && sofar[k] == t;
                            assert(texts(kept@)[k] == t);
                        } else {
                            assert(texts(kept@)[sofar.len() as int] == t);
                        }
                    }
                }
            }
            i += 1;
        }
        proof {
            assert(before.take(self.watched.len() as int) == before);
            assert(texts(kept@).to_set() =~= before.to_set().remove(search_path@));
        }
        self.watched = kept;
        Ok(())
    }

    /// The changes that one raw event tells of: an install for each created
    /// shortcut that is valid, a deletion for each removed path that is named
    /// like a shortcut.
    pub fn recv(
        &self,
        event: &FileEvent,
        shortcuts: &Vec<(String, ShortcutRecord)>,
        env: &TextMap,
        disk: &Disk,
    ) -> (out: Vec<Change>)
        ensures
            change_views(out@) == event_changes(*event, shortcuts@, env@, *disk),
    {
        let mut changes: Vec<Change> = Vec::new();
        assert(change_views(changes@) =~= Seq::<ChangeView>::empty());
        match event.kind {
            EventKind::CreateFile => {
                let mut i: usize = 0;
                while i < event.paths.len()
                    invariant
                        i <= event.paths.len(),
                        change_views(changes@) == created_changes(
                            texts(event.paths@),
                            shortcuts@,
                            env@,
                            *disk,
                            i as int,
                        ),
                    decreases event.paths.len() - i,
                {
                    let path = event.paths[i].as_str();
                    if shortcut_name(path) && disk.has_file(path) {
                        let lnk = find_shortcut(shortcuts, path);
                        if from_path(path, lnk, env, disk).is_some() {
                            let ghost before = change_views(changes@);
                            changes.push(Change::AppInstalled { app_path: event.paths[i].clone() });
                            assert(change_views(changes@) =~= before.push(
                                ChangeView::AppInstalled { app_path: path@ },
                            ));
                        }
                    }
                    i += 1;
                }
            },
            EventKind::RemoveFile => {
                let mut i: usize = 0;
                while i < event.paths.len()
                    invariant
                        i <= event.paths.len(),
                        change_views(changes@) == removed_changes(texts(event.paths@), i as int),
                    decreases event.paths.len() - i,
                {
                    let path = event.paths[i].as_str();
                    if shortcut_name(path) {
                        let ghost before = change_views(changes@);
                        changes.push(Change::AppDeleted { app_path: event.paths[i].clone() });
                        assert(change_views(changes@) =~= before.push(
                            ChangeView::AppDeleted { app_path: path@ },
                        ));
                    }
                    i += 1;
                }
            },
            EventKind::Other => {},
        }
        changes
    }
}

/// A valid shortcut that is created gives exactly one change: an install
/// for its path.
pub proof fn lemma_creation_gives_one_install(
    event: FileEvent,
    shortcuts: Seq<(String, ShortcutRecord)>,
    env: Map<Seq<char>, Seq<char>>,
    disk: Disk,
)
    requires
        event.kind == EventKind::CreateFile,
        event.paths@.len() == 1,
        is_shortcut_name(event.paths@[0]@),
        is_valid_shortcut(event.paths@[0]@, shortcuts, env, disk),
    ensures
        event_changes(event, shortcuts, env, disk) == seq![
            ChangeView::AppInstalled { app_path: event.paths@[0]@ },
        ],
{
    let paths = texts(event.paths@);
    assert(paths[0] == event.paths@[0]@);
    assert(created_changes(paths, shortcuts, env, disk, 0) == Seq::<ChangeView>::empty());
    assert(created_changes(paths, shortcuts, env, disk, 1) =~= seq![
        ChangeView::AppInstalled { app_path: event.paths@[0]@ },
    ]);
}

/// A shortcut that is removed gives exactly one change: a deletion for its
/// path.  This holds whatever is on the disk, so also when the file is gone.
pub proof fn lemma_removal_gives_one_deletion(
    event: FileEvent,
    shortcuts: Seq<(String, ShortcutRecord)>,
    env: Map<Seq<char>, Seq<char>>,
    disk: Disk,
)
    requires
        event.kind == EventKind::RemoveFile,
        event.paths@.len() == 1,
        is_shortcut_name(event.paths@[0]@),
    ensures
        event_changes(event, shortcuts, env, disk) == seq![
            ChangeView::AppDeleted { app_path: event.paths@[0]@ },
        ],
{
    let paths = texts(event.paths@);
    assert(paths[0] == event.paths@[0]@);
    assert(removed_changes(paths, 0) == Seq::<ChangeView>::empty());
    assert(removed_changes(paths, 1) =~= seq![
        ChangeView::AppDeleted { app_path: event.paths@[0]@ },
    ]);
}

} // verus!
