//! A snapshot of the part of a file system that the catalog rules read.
//!
//! The caller lists what it observed: for each path whether it is a directory
//! or a file and, where it read them, a file's bytes and the canonical form of
//! the path.  The rules then run on the snapshot alone, so they see one
//! consistent state.  Where a path is listed twice, the first entry counts.

use crate::paths::{file_name, file_name_chars, join, join_chars, joined, PathStyle};
use crate::text::{
    chars_of, ends_with, has_prefix, has_suffix, opt_text, same_text, starts_with, texts,
};
use vstd::prelude::*;

verus! {

/// What stands at a path.
#[derive(Clone, Copy, Debug, PartialEq, Eq, Structural)]
pub enum EntryKind {
    Directory,
    File,
}

/// One observed path.
#[derive(Debug)]
pub struct DiskEntry {
    pub path: String,
    pub kind: EntryKind,
    /// The bytes of a file that was read; absent for a directory and for a
    /// file that was not or could not be read.
    pub content: Option<Vec<u8>>,
    /// The canonical absolute form of the path, where it was resolved.
    pub canonical: Option<String>,
}

/// The observed paths, in the order in which a listing returns them.
#[derive(Debug)]
pub struct Disk {
    pub entries: Vec<DiskEntry>,
    /// The icon names that were looked up in the icon theme, each with the
    /// file that was found for it.
    pub themed_icons: Vec<(String, String)>,
}

impl Disk {
    /// The index of the first entry at or after `from` whose path is `path`,
    /// or the number of entries.
    pub open spec fn slot_from(self, path: Seq<char>, from: int) -> int
        decreases self.entries.len() - from,
    {
        if from >= self.entries.len() {
            self.entries.len() as int
        } else if self.entries[from].path@ == path {
            from
        } else {
            self.slot_from(path, from + 1)
        }
    }

    /// The index of the entry that describes `path`, or the number of
    /// entries.
    pub open spec fn slot(self, path: Seq<char>) -> int {
        self.slot_from(path, 0)
    }

    /// Whether anything stands at `path`.
    pub open spec fn present(self, path: Seq<char>) -> bool {
        self.slot(path) < self.entries.len()
    }

    /// Whether a directory stands at `path`.
    pub open spec fn is_dir(self, path: Seq<char>) -> bool {
        self.present(path) && self.entries[self.slot(path)].kind == EntryKind::Directory
    }

    /// Whether a file stands at `path`.
    pub open spec fn is_file(self, path: Seq<char>) -> bool {
        self.present(path) && self.entries[self.slot(path)].kind == EntryKind::File
    }

    /// The bytes read at `path`.
    pub open spec fn content(self, path: Seq<char>) -> Option<Seq<u8>> {
        if self.is_file(path) {
            match self.entries[self.slot(path)].content {
                Some(bytes) => Some(bytes@),
                None => None,
            }
        } else {
            None
        }
    }

    /// The canonical form of `path`.
    pub open spec fn canonical(self, path: Seq<char>) -> Option<Seq<char>> {
        if self.present(path) {
            match self.entries[self.slot(path)].canonical {
                Some(p) => Some(p@),
                None => None,
            }
        } else {
            None
        }
    }

    /// Whether entry `i` stands directly in `dir`: its path is `dir` joined
    /// with its own last component.
    pub open spec fn is_child(self, i: int, dir: Seq<char>, style: PathStyle) -> bool {
        match file_name(self.entries[i].path@, style) {
            Some(name) => self.entries[i].path@ == joined(dir, name, style),
            None => false,
        }
    }

    /// The last component of the path of entry `i`.
    pub open spec fn name_at(self, i: int, style: PathStyle) -> Seq<char> {
        file_name(self.entries[i].path@, style)->0
    }

    /// Whether entry `i` stands directly in `dir`, has a name that fits, and
    /// is a file where only files are asked for.
    pub open spec fn fits(
        self,
        i: int,
        dir: Seq<char>,
        style: PathStyle,
        prefix: Seq<char>,
        suffix: Seq<char>,
        files_only: bool,
    ) -> bool {
        &&& self.is_child(i, dir, style)
        &&& name_fits(self.name_at(i, style), prefix, suffix)
        &&& files_only ==> self.entries[i].kind == EntryKind::File
    }

    /// The index of the first entry at or after `from` that `fits`.
    pub open spec fn first_fit_from(
        self,
        dir: Seq<char>,
        style: PathStyle,
        prefix: Seq<char>,
        suffix: Seq<char>,
        files_only: bool,
        from: int,
    ) -> Option<int>
        decreases self.entries.len() - from,
    {
        if from >= self.entries.len() || from < 0 {
            None
        } else if self.fits(from, dir, style, prefix, suffix, files_only) {
            Some(from)
        } else {
            self.first_fit_from(dir, style, prefix, suffix, files_only, from + 1)
        }
    }

    /// The path of the first entry directly in `dir` whose name begins with
    /// `prefix` and ends with `suffix`, the two not overlapping.
    pub open spec fn first_fit(
        self,
        dir: Seq<char>,
        style: PathStyle,
        prefix: Seq<char>,
        suffix: Seq<char>,
        files_only: bool,
    ) -> Option<Seq<char>> {
        match self.first_fit_from(dir, style, prefix, suffix, files_only, 0) {
            Some(i) => Some(self.entries[i].path@),
            None => None,
        }
    }

    /// An empty snapshot: nothing exists.
    pub fn new() -> (out: Disk)
        ensures
            out.entries@.len() == 0,
            out.themed_icons@.len() == 0,
    {
        Disk { entries: Vec::new(), themed_icons: Vec::new() }
    }

    /// Records a directory.
    pub fn add_dir(&mut self, path: &str)
        ensures
            final(self).entries@.len() == old(self).entries@.len() + 1,
            final(self).entries@.drop_last() == old(self).entries@,
            final(self).entries@.last().path@ == path@,
            final(self).entries@.last().kind == EntryKind::Directory,
            final(self).entries@.last().content is None,
            final(self).entries@.last().canonical is None,
            final(self).themed_icons == old(self).themed_icons,
    {
        self.entries.push(
            DiskEntry {
                path: path.to_owned(),
                kind: EntryKind::Directory,
                content: None,
                canonical: None,
            },
        );
    }

    /// Records a file with the bytes read from it.
    pub fn add_file(&mut self, path: &str, content: Vec<u8>)
        ensures
            final(self).entries@.len() == old(self).entries@.len() + 1,
            final(self).entries@.drop_last() == old(self).entries@,
            final(self).entries@.last().path@ == path@,
            final(self).entries@.last().kind == EntryKind::File,
            final(self).entries@.last().content == Some(content),
            final(self).entries@.last().canonical is None,
            final(self).themed_icons == old(self).themed_icons,
    {
        self.entries.push(
            DiskEntry {
                path: path.to_owned(),
                kind: EntryKind::File,
                content: Some(content),
                canonical: None,
            },
        );
    }

    /// The index of the first looked-up icon at or after `from` whose name is
    /// `name`, or the number of looked-up icons.
    pub open spec fn icon_slot_from(self, name: Seq<char>, from: int) -> int
        decreases self.themed_icons.len() - from,
    {
        if from >= self.themed_icons.len() {
            self.themed_icons.len() as int
        } else if self.themed_icons[from].0@ == name {
            from
        } else {
            self.icon_slot_from(name, from + 1)
        }
    }

    /// The file that the icon theme gave for `name`.
    pub open spec fn icon(self, name: Seq<char>) -> Option<Seq<char>> {
        if self.icon_slot_from(name, 0) < self.themed_icons.len() {
            Some(self.themed_icons[self.icon_slot_from(name, 0)].1@)
        } else {
            None
        }
    }

    /// Records the file that the icon theme gave for `name`.
    pub fn add_icon(&mut self, name: &str, path: &str)
        ensures
            final(self).entries == old(self).entries,
            final(self).themed_icons@.len() == old(self).themed_icons@.len() + 1,
            final(self).themed_icons@.drop_last() == old(self).themed_icons@,
            final(self).themed_icons@.last().0@ == name@,
            final(self).themed_icons@.last().1@ == path@,
    {
        self.themed_icons.push((name.to_owned(), path.to_owned()));
    }

    /// Computes `icon`.
    pub fn find_icon(&self, name: &str) -> (out: Option<String>)
        ensures
            out is Some == self.icon(name@) is Some,
            out is Some ==> out->0@ == self.icon(name@)->0,
    {
        let wanted = chars_of(name);
        let mut i: usize = 0;
        while i < self.themed_icons.len()
            invariant
                i <= self.themed_icons.len(),
                wanted@ == name@,
                self.icon_slot_from(name@, i as int) == self.icon_slot_from(name@, 0),
            decreases self.themed_icons.len() - i,
        {
            if same_text(&chars_of(self.themed_icons[i].0.as_str()), &wanted) {
                return Some(self.themed_icons[i].1.clone());
            }
            i += 1;
        }
        None
    }

    /// Computes `slot`.
    pub fn find(&self, path: &str) -> (r: usize)
        ensures
            r == self.slot(path@),
            r <= self.entries.len(),
            r < self.entries.len() ==> self.entries[r as int].path@ == path@,
    {
        let wanted = chars_of(path);
        let mut i: usize = 0;
        while i < self.entries.len()
            invariant
                i <= self.entries.len(),
                wanted@ == path@,
                self.slot_from(path@, i as int) == self.slot(path@),
            decreases self.entries.len() - i,
        {
            if same_text(&chars_of(self.entries[i].path.as_str()), &wanted) {
                return i;
            }
            i += 1;
        }
        i
    }

    /// Tests `present`.
    pub fn has(&self, path: &str) -> (r: bool)
        ensures
            r == self.present(path@),
    {
        self.find(path) < self.entries.len()
    }

    /// Tests `is_dir`.
    pub fn has_dir(&self, path: &str) -> (r: bool)
        ensures
            r == self.is_dir(path@),
    {
        let i = self.find(path);
        i < self.entries.len() && self.entries[i].kind == EntryKind::Directory
    }

    /// Tests `is_file`.
    pub fn has_file(&self, path: &str) -> (r: bool)
        ensures
            r == self.is_file(path@),
    {
        let i = self.find(path);
        i < self.entries.len() && self.entries[i].kind == EntryKind::File
    }

    /// The bytes read at `path`, as `content` gives them.
    pub fn read(&self, path: &str) -> (out: Option<&Vec<u8>>)
        ensures
            out is Some == self.content(path@) is Some,
            out is Some ==> out->0@ == self.content(path@)->0,
    {
        let i = self.find(path);
        if i < self.entries.len() && self.entries[i].kind == EntryKind::File {
            match &self.entries[i].content {
                Some(bytes) => Some(bytes),
                None => None,
            }
        } else {
            None
        }
    }

    /// The canonical form of `path`, as `canonical` gives it.
    pub fn canonicalize(&self, path: &str) -> (out: Option<String>)
        ensures
            out is Some == self.canonical(path@) is Some,
            out is Some ==> out->0@ == self.canonical(path@)->0,
    {
        let i = self.find(path);
        if i < self.entries.len() {
            match &self.entries[i].canonical {
                Some(p) => Some(p.clone()),
                None => None,
            }
        } else {
            None
        }
    }

    /// Tests `is_child`.
    pub fn child_of(&self, i: usize, dir: &Vec<char>, style: PathStyle) -> (r: bool)
        requires
            i < self.entries.len(),
        ensures
            r == self.is_child(i as int, dir@, style),
    {
        let path = chars_of(self.entries[i].path.as_str());
        match file_name_chars(&path, style) {
            Some(name) => same_text(&path, &join_chars(dir, &name, style)),
            None => false,
        }
    }

    /// Computes `first_fit`.
    pub fn find_fit(
        &self,
        dir: &str,
        style: PathStyle,
        prefix: &str,
        suffix: &str,
        files_only: bool,
    ) -> (out: Option<String>)
        ensures
            out is Some == self.first_fit(dir@, style, prefix@, suffix@, files_only) is Some,
            out is Some ==> out->0@ == self.first_fit(dir@, style, prefix@, suffix@, files_only)->0,
    {
        let base = chars_of(dir);
        let head = chars_of(prefix);
        let tail = chars_of(suffix);
        let mut i: usize = 0;
        while i < self.entries.len()
            invariant
                i <= self.entries.len(),
                base@ == dir@,
                head@ == prefix@,
                tail@ == suffix@,
                self.first_fit_from(dir@, style, prefix@, suffix@, files_only, i as int)
                    == self.first_fit_from(dir@, style, prefix@, suffix@, files_only, 0),
            decreases self.entries.len() - i,
        {
            let path = chars_of(self.entries[i].path.as_str());
            let fits = match file_name_chars(&path, style) {
                Some(name) => same_text(&path, &join_chars(&base, &name, style)) && head.len()
                    <= name.len() && tail.len() <= name.len() - head.len() && starts_with(
                    &name,
                    &head,
                ) && ends_with(&name, &tail) && (!files_only || self.entries[i].kind
                    == EntryKind::File),
                None => false,
            };
            if fits {
                return Some(self.entries[i].path.clone());
            }
            i += 1;
        }
        None
    }
}

/// Whether `name` begins with `prefix` and ends with `suffix`, the two not
/// overlapping.
pub open spec fn name_fits(name: Seq<char>, prefix: Seq<char>, suffix: Seq<char>) -> bool {
    &&& name.len() >= prefix.len() + suffix.len()
    &&& has_prefix(name, prefix)
    &&& has_suffix(name, suffix)
}

/// The first of `names` from `from` on that, joined to `dir`, is on the disk.
pub open spec fn first_present(
    disk: Disk,
    dir: Seq<char>,
    names: Seq<Seq<char>>,
    style: PathStyle,
    from: int,
) -> Option<Seq<char>>
    decreases names.len() - from,
{
    if from >= names.len() || from < 0 {
        None
    } else if disk.present(joined(dir, names[from], style)) {
        Some(joined(dir, names[from], style))
    } else {
        first_present(disk, dir, names, style, from + 1)
    }
}

/// Computes `first_present`.
pub fn find_present(disk: &Disk, dir: &str, names: &Vec<String>, style: PathStyle) -> (out: Option<
    String,
>)
    ensures
        opt_text(out) == first_present(*disk, dir@, texts(names@), style, 0),
{
    let mut i: usize = 0;
    while i < names.len()
        invariant
            i <= names.len(),
            first_present(*disk, dir@, texts(names@), style, i as int) == first_present(
                *disk,
                dir@,
                texts(names@),
                style,
                0,
            ),
        decreases names.len() - i,
    {
        let candidate = join(dir, names[i].as_str(), style);
        if disk.has(candidate.as_str()) {
            return Some(candidate);
        }
        i += 1;
    }
    None
}

/// Where exactly one entry fits, it is the first that fits.
pub proof fn lemma_only_fit_is_first(
    disk: Disk,
    dir: Seq<char>,
    style: PathStyle,
    prefix: Seq<char>,
    suffix: Seq<char>,
    files_only: bool,
    i: int,
    from: int,
)
    requires
        0 <= from <= i < disk.entries.len(),
        disk.fits(i, dir, style, prefix, suffix, files_only),
        forall|j: int|
            0 <= j < disk.entries.len() && disk.fits(j, dir, style, prefix, suffix, files_only)
                ==> j == i,
    ensures
        disk.first_fit_from(dir, style, prefix, suffix, files_only, from) == Some(i),
    decreases i - from,
{
    if from < i {
        lemma_only_fit_is_first(disk, dir, style, prefix, suffix, files_only, i, from + 1);
    }
}

/// What `first_present` finds is one of the names, joined to the directory,
/// and is on the disk.
pub proof fn lemma_first_present_source(
    disk: Disk,
    dir: Seq<char>,
    names: Seq<Seq<char>>,
    style: PathStyle,
    from: int,
)
    requires
        0 <= from,
        first_present(disk, dir, names, style, from) is Some,
    ensures
        exists|k: int|
            from <= k < names.len() && first_present(disk, dir, names, style, from) == Some(
                joined(dir, #[trigger] names[k], style),
            ) && disk.present(joined(dir, names[k], style)),
    decreases names.len() - from,
{
    if from < names.len() {
        if disk.present(joined(dir, names[from], style)) {
            assert(first_present(disk, dir, names, style, from) == Some(
                joined(dir, names[from], style),
            ));
        } else {
            lemma_first_present_source(disk, dir, names, style, from + 1);
            let k = choose|k: int|
                from + 1 <= k < names.len() && first_present(disk, dir, names, style, from + 1)
                    == Some(joined(dir, #[trigger] names[k], style)) && disk.present(
                    joined(dir, names[k], style),
                );
            assert(from <= k < names.len() && first_present(disk, dir, names, style, from) == Some(
                joined(dir, names[k], style),
            ));
        }
    }
}

/// The entry that describes a path that is on the disk has that path.
pub proof fn lemma_slot(disk: Disk, path: Seq<char>, from: int)
    requires
        0 <= from,
    ensures
        from <= disk.slot_from(path, from) || disk.slot_from(path, from) == disk.entries.len(),
        disk.slot_from(path, from) <= disk.entries.len(),
        disk.slot_from(path, from) < disk.entries.len() ==> disk.entries[disk.slot_from(
            path,
            from,
        )].path@ == path,
    decreases disk.entries.len() - from,
{
    if from < disk.entries.len() && disk.entries[from].path@ != path {
        lemma_slot(disk, path, from + 1);
    }
}

/// What `first_fit_from` finds is an entry that fits.
pub proof fn lemma_first_fit_fits(
    disk: Disk,
    dir: Seq<char>,
    style: PathStyle,
    prefix: Seq<char>,
    suffix: Seq<char>,
    files_only: bool,
    from: int,
)
    requires
        0 <= from,
        disk.first_fit_from(dir, style, prefix, suffix, files_only, from) is Some,
    ensures
        from <= disk.first_fit_from(dir, style, prefix, suffix, files_only, from)->0
            < disk.entries.len(),
        disk.fits(
            disk.first_fit_from(dir, style, prefix, suffix, files_only, from)->0,
            dir,
            style,
            prefix,
            suffix,
            files_only,
        ),
    decreases disk.entries.len() - from,
{
    if from < disk.entries.len() && !disk.fits(from, dir, style, prefix, suffix, files_only) {
        lemma_first_fit_fits(disk, dir, style, prefix, suffix, files_only, from + 1);
    }
}

} // verus!
