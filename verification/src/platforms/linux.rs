//! Enumeration of desktop-entry files.
//!
//! A descriptor is read by the `freedesktop_file_parser` crate; which
//! descriptors count as applications, and what record each gives, is decided
//! here.

use crate::common::{app_views, App, AppView, TextMap};
use crate::disk::Disk;
use crate::paths::{extension, extension_chars, join, joined, PathStyle};
use crate::text::{
    chars_of, concat, distinct, has_prefix, lemma_distinct, opt_text, same_text, starts_with,
    std_utf8, string_of, texts,
};
use vstd::prelude::*;
use vstd::utf8::{decode_utf8, valid_utf8};

verus! {

/// An icon of an application.
#[derive(Debug)]
pub struct AppIcon {
    pub name: String,
    pub path: String,
    pub dimensions: Option<u16>,
}

/// The type of a desktop entry, with the launch command of an application.
#[derive(Debug)]
pub enum DesktopEntryKind {
    Application { command: Option<String> },
    Link,
    Directory,
    Unknown,
}

/// What is read of a desktop entry.
#[derive(Debug)]
pub struct DesktopEntry {
    pub kind: DesktopEntryKind,
    /// The name in no particular language.
    pub name: String,
    /// The `NoDisplay` flag, where the entry sets it.
    pub no_display: Option<bool>,
    /// The icon reference: a path, or a name of the icon theme.
    pub icon: Option<String>,
}

/// What a `DesktopEntryKind` holds.
pub enum DesktopEntryKindView {
    Application { command: Option<Seq<char>> },
    Link,
    Directory,
    Unknown,
}

/// What a `DesktopEntry` holds.
pub struct DesktopEntryView {
    pub kind: DesktopEntryKindView,
    pub name: Seq<char>,
    pub no_display: Option<bool>,
    pub icon: Option<Seq<char>>,
}

impl View for DesktopEntryKind {
    type V = DesktopEntryKindView;

    open spec fn view(&self) -> DesktopEntryKindView {
        match *self {
            DesktopEntryKind::Application { command } => DesktopEntryKindView::Application {
                command: opt_text(command),
            },
            DesktopEntryKind::Link => DesktopEntryKindView::Link,
            DesktopEntryKind::Directory => DesktopEntryKindView::Directory,
            DesktopEntryKind::Unknown => DesktopEntryKindView::Unknown,
        }
    }
}

impl View for DesktopEntry {
    type V = DesktopEntryView;

    open spec fn view(&self) -> DesktopEntryView {
        DesktopEntryView {
            kind: self.kind@,
            name: self.name@,
            no_display: self.no_display,
            icon: opt_text(self.icon),
        }
    }
}

/// What `freedesktop_file_parser::parse` reads from a descriptor's text; none
/// where it reports an error.
pub uninterp spec fn parsed_entry(content: Seq<char>) -> Option<DesktopEntryView>;

/// Calls `freedesktop_file_parser::parse` and keeps, of the entry it returns,
/// the type with the launch command, the default name, the `NoDisplay` flag
/// and the icon reference.  The result depends on the text alone and is named
/// `parsed_entry`.
#[verifier::external_body]
pub(crate) fn parse_entry(content: &str) -> (out: Option<DesktopEntry>)
    ensures
        match out {
            Some(entry) => parsed_entry(content@) == Some(entry@),
            None => parsed_entry(content@) is None,
        },
{
    let entry = freedesktop_file_parser::parse(content).ok()?.entry;
    Some(DesktopEntry {
        kind: match entry.entry_type {
            freedesktop_file_parser::EntryType::Application(fields) => {
                DesktopEntryKind::Application { command: fields.exec }
            },
            freedesktop_file_parser::EntryType::Link(_) => DesktopEntryKind::Link,
            freedesktop_file_parser::EntryType::Directory => DesktopEntryKind::Directory,
            freedesktop_file_parser::EntryType::Unknown => DesktopEntryKind::Unknown,
        },
        name: entry.name.default,
        no_display: entry.no_display,
        icon: entry.icon.map(|icon| icon.content),
    })
}

/// The name and the icon reference of an entry that counts as an
/// application: its type is `Application`, it is not marked `NoDisplay`, it
/// has a launch command and it has an icon reference.
pub open spec fn accepted(entry: DesktopEntryView) -> Option<(Seq<char>, Seq<char>)> {
    match entry.kind {
        DesktopEntryKindView::Application { command: Some(_) } => if entry.no_display != Some(true)
            && entry.icon is Some {
            Some((entry.name, entry.icon->0))
        } else {
            None
        },
        _ => None,
    }
}

/// The acceptance rule: the name and the icon reference of an entry that
/// counts as an application.  Computes `accepted`.
pub fn accept(entry: DesktopEntry) -> (out: Option<(String, String)>)
    ensures
        match (out, accepted(entry@)) {
            (Some(found), Some(wanted)) => found.0@ == wanted.0 && found.1@ == wanted.1,
            (None, None) => true,
            _ => false,
        },
{
    let DesktopEntry { kind, name, no_display, icon } = entry;
    match kind {
        DesktopEntryKind::Application { command } => {
            if no_display == Some(true) {
                return None;
            }
            if command.is_none() {
                return None;
            }
            match icon {
                Some(icon) => Some((name, icon)),
                None => None,
            }
        },
        _ => None,
    }
}

/// The name and the icon reference that a descriptor's text gives, where it
/// counts as an application.
pub open spec fn application_in(content: Seq<char>) -> Option<(Seq<char>, Seq<char>)> {
    match parsed_entry(content) {
        Some(entry) => accepted(entry),
        None => None,
    }
}

/// Whether a descriptor's text counts as an application.
pub fn is_application(content: &str) -> (r: bool)
    ensures
        r == application_in(content@) is Some,
{
    match parse_entry(content) {
        Some(entry) => accept(entry).is_some(),
        None => false,
    }
}

/// The icon reference of a descriptor's text that counts as an application:
/// what is to be looked up in the icon theme before the snapshot is complete.
pub fn declared_icon(content: &str) -> (out: Option<String>)
    ensures
        match (out, application_in(content@)) {
            (Some(icon), Some(wanted)) => icon@ == wanted.1,
            (None, None) => true,
            _ => false,
        },
{
    match parse_entry(content) {
        Some(entry) => match accept(entry) {
            Some((_, icon)) => Some(icon),
            None => None,
        },
        None => None,
    }
}

/// The name and the icon file of a descriptor's text, where it counts as an
/// application; the icon file is the one that the snapshot holds for the icon
/// reference.
pub open spec fn descriptor(content: Seq<char>, disk: Disk) -> Option<
    (Seq<char>, Option<Seq<char>>),
> {
    match application_in(content) {
        Some((name, icon)) => Some((name, disk.icon(icon))),
        None => None,
    }
}

/// The name and the icon file of a descriptor's text, where it counts as an
/// application; a text that the parser rejects gives none.  Computes
/// `descriptor`.
pub fn parse_desktop_file_content(content: &str, disk: &Disk) -> (out: Option<
    (String, Option<String>),
>)
    ensures
        match (out, descriptor(content@, *disk)) {
            (Some(found), Some(wanted)) => found.0@ == wanted.0 && opt_text(found.1) == wanted.1,
            (None, None) => true,
            _ => false,
        },
{
    let desktop_file_entry = match parse_entry(content) {
        Some(entry) => entry,
        None => {
            return None;
        },
    };
    match accept(desktop_file_entry) {
        Some((name, icon)) => {
            let icon_path = disk.find_icon(icon.as_str());
            Some((name, icon_path))
        },
        None => None,
    }
}

/// The record of the descriptor at `path`: none where no bytes were read
/// there, they are not UTF-8, or the text does not count as an application.
pub open spec fn descriptor_app(disk: Disk, path: Seq<char>) -> Option<AppView> {
    match disk.content(path) {
        Some(bytes) => if valid_utf8(bytes) {
            match descriptor(decode_utf8(bytes), disk) {
                Some((name, icon)) => Some(
                    AppView {
                        name,
                        localized_app_names: Map::empty(),
                        icon_path: icon,
                        app_path_exe: None,
                        app_desktop_path: path,
                    },
                ),
                None => None,
            }
        } else {
            None
        },
        None => None,
    }
}

/// Why a path gave no record.
#[derive(Clone, Copy, Debug, PartialEq, Eq, Structural)]
pub enum DescriptorError {
    /// No text was read at the path.
    Unreadable,
    /// The text does not count as an application.
    Invalid,
}

/// The text read at `path`, where there is one.
pub open spec fn text_at(disk: Disk, path: Seq<char>) -> Option<Seq<char>> {
    match disk.content(path) {
        Some(bytes) => if valid_utf8(bytes) {
            Some(decode_utf8(bytes))
        } else {
            None
        },
        None => None,
    }
}

/// Computes `text_at`.
pub fn read_text(disk: &Disk, path: &str) -> (out: Option<String>)
    ensures
        opt_text(out) == text_at(*disk, path@),
{
    match disk.read(path) {
        Some(bytes) => std_utf8(bytes),
        None => None,
    }
}

/// The record of the descriptor at `path`.
pub fn from_path(path: &str, disk: &Disk) -> (out: Result<App, DescriptorError>)
    ensures
        match out {
            Ok(app) => descriptor_app(*disk, path@) == Some(app@),
            Err(DescriptorError::Unreadable) => text_at(*disk, path@) is None,
            Err(DescriptorError::Invalid) => text_at(*disk, path@) is Some && descriptor_app(
                *disk,
                path@,
            ) is None,
        },
{
    let desktop_file_content = match read_text(disk, path) {
        Some(text) => text,
        None => {
            return Err(DescriptorError::Unreadable);
        },
    };
    match parse_desktop_file_content(desktop_file_content.as_str(), disk) {
        Some((app_name, opt_icon_path)) => Ok(
            App {
                name: app_name,
                localized_app_names: TextMap::new(),
                icon_path: opt_icon_path,
                app_path_exe: None,
                app_desktop_path: path.to_owned(),
            },
        ),
        None => Err(DescriptorError::Invalid),
    }
}

/// Where the system keeps the applications of the sandboxing package
/// manager.
pub open spec fn sandbox_system_root() -> Seq<char> {
    "/var/lib/flatpak/app"@
}

/// Where a user keeps the applications of the sandboxing package manager.
pub open spec fn sandbox_user_root(home: Seq<char>) -> Seq<char> {
    joined(home, ".local/share/flatpak/app"@, PathStyle::Unix)
}

/// The directories that are searched when the caller names none.
pub open spec fn default_search_paths(home: Seq<char>) -> Seq<Seq<char>> {
    seq![
        "/usr/share/applications"@,
        joined(home, ".local/share/applications"@, PathStyle::Unix),
        "/var/lib/snapd/desktop/applications"@,
        sandbox_system_root(),
        sandbox_user_root(home),
    ]
}

/// The directories that are searched when the caller names none, for the
/// home directory `home`; computes `default_search_paths`.
pub fn get_default_search_paths(home: &str) -> (out: Vec<String>)
    ensures
        texts(out@) == default_search_paths(home@),
{
    let mut out: Vec<String> = Vec::new();
    out.push("/usr/share/applications".to_owned());
    out.push(join(home, ".local/share/applications", PathStyle::Unix));
    out.push("/var/lib/snapd/desktop/applications".to_owned());
    out.push("/var/lib/flatpak/app".to_owned());
    out.push(join(home, ".local/share/flatpak/app", PathStyle::Unix));
    assert(texts(out@) =~= default_search_paths(home@));
    out
}

/// Where the descriptor of the sandboxed application `id` stands under the
/// directory `dir` that is named after it.
pub open spec fn sandbox_descriptor(dir: Seq<char>, id: Seq<char>) -> Seq<char> {
    joined(
        joined(dir, "current/active/files/share/applications"@, PathStyle::Unix),
        id + ".desktop"@,
        PathStyle::Unix,
    )
}

/// Computes `sandbox_descriptor`.
pub fn sandbox_descriptor_path(dir: &str, id: &str) -> (out: String)
    ensures
        out@ == sandbox_descriptor(dir@, id@),
{
    let inner = join(dir, "current/active/files/share/applications", PathStyle::Unix);
    let file = string_of(&concat(&chars_of(id), &chars_of(".desktop")));
    join(inner.as_str(), file.as_str(), PathStyle::Unix)
}

/// The record that entry `i` of the disk adds to those of the sandbox root
/// `root`: that of its descriptor, where the entry stands directly in `root`
/// and the descriptor is on the disk.
pub open spec fn sandbox_app(disk: Disk, root: Seq<char>, i: int) -> Option<AppView> {
    let place = sandbox_descriptor(disk.entries[i].path@, disk.name_at(i, PathStyle::Unix));
    if disk.is_child(i, root, PathStyle::Unix) && disk.present(place) {
        descriptor_app(disk, place)
    } else {
        None
    }
}

/// Whether `path` is `dir` or stands below it.
pub open spec fn is_within(path: Seq<char>, dir: Seq<char>) -> bool {
    ||| path == dir
    ||| has_prefix(path, dir) && path.len() > dir.len() && (path[dir.len() as int] == '/' || (
    dir.len() > 0 && dir.last() == '/'))
}

/// The record that entry `i` of the disk adds to those of the directory
/// `dir`: that of the entry, where it is a file `*.desktop` in or below
/// `dir`.
pub open spec fn walked_app(disk: Disk, dir: Seq<char>, i: int) -> Option<AppView> {
    let path = disk.entries[i].path@;
    if is_within(path, dir) && extension(path, PathStyle::Unix) == Some("desktop"@) && disk.is_file(
        path,
    ) {
        descriptor_app(disk, path)
    } else {
        None
    }
}

/// The record that entry `i` adds to those of `dir`, which is searched as a
/// sandbox root where `sandbox` holds.
pub open spec fn found_app(disk: Disk, dir: Seq<char>, sandbox: bool, i: int) -> Option<AppView> {
    if sandbox {
        sandbox_app(disk, dir, i)
    } else {
        walked_app(disk, dir, i)
    }
}

/// The records that the first `upto` entries of the disk add to those of
/// `dir`.
pub open spec fn directory_apps(disk: Disk, dir: Seq<char>, sandbox: bool, upto: int) -> Seq<
    AppView,
>
    decreases upto,
{
    if upto <= 0 {
        Seq::empty()
    } else {
        let before = directory_apps(disk, dir, sandbox, upto - 1);
        match found_app(disk, dir, sandbox, upto - 1) {
            Some(app) => before.push(app),
            None => before,
        }
    }
}

/// Whether `dir` is searched as a sandbox root.
pub open spec fn is_sandbox_root(dir: Seq<char>, home: Seq<char>) -> bool {
    dir == sandbox_system_root() || dir == sandbox_user_root(home)
}

/// The records of the first `upto` of `dirs`, directory after directory; a
/// directory that is not on the disk adds none.
pub open spec fn gathered_apps(disk: Disk, dirs: Seq<Seq<char>>, home: Seq<char>, upto: int) -> Seq<
    AppView,
>
    decreases upto,
{
    if upto <= 0 {
        Seq::empty()
    } else {
        let before = gathered_apps(disk, dirs, home, upto - 1);
        let dir = dirs[upto - 1];
        if disk.present(dir) {
            before + directory_apps(
                disk,
                dir,
                is_sandbox_root(dir, home),
                disk.entries@.len() as int,
            )
        } else {
            before
        }
    }
}

/// The applications of the search paths: the records of every accepted
/// descriptor, each record once.
pub open spec fn enumerated(disk: Disk, search_paths: Seq<Seq<char>>, home: Seq<char>) -> Seq<
    AppView,
> {
    let all = gathered_apps(disk, search_paths, home, search_paths.len() as int);
    distinct(all, all.len() as int)
}

/// The record of the descriptor at `path`, as `descriptor_app` gives it.
fn app_of_descriptor(disk: &Disk, path: &str) -> (out: Option<App>)
    ensures
        out is Some == descriptor_app(*disk, path@) is Some,
        out is Some ==> out->0@ == descriptor_app(*disk, path@)->0,
{
    match from_path(path, disk) {
        Ok(app) => Some(app),
        Err(_) => None,
    }
}

/// Tests `is_within`.
fn within(path: &Vec<char>, dir: &Vec<char>) -> (r: bool)
    ensures
        r == is_within(path@, dir@),
{
    if same_text(path, dir) {
        return true;
    }
    starts_with(path, dir) && path.len() > dir.len() && (path[dir.len()] == '/' || (dir.len() > 0
        && dir[dir.len() - 1] == '/'))
}

/// The applications of the sandbox root `flatpak_app_path`: for each
/// directory `<id>` in it, the descriptor
/// `<id>/current/active/files/share/applications/<id>.desktop`.
pub fn get_flatpak_applications(flatpak_app_path: &str, disk: &Disk) -> (out: Vec<App>)
    ensures
        app_views(out@) == directory_apps(
            *disk,
            flatpak_app_path@,
            true,
            disk.entries@.len() as int,
        ),
{
    let root = chars_of(flatpak_app_path);
    let mut apps: Vec<App> = Vec::new();
    let mut i: usize = 0;
    assert(app_views(apps@) =~= directory_apps(*disk, flatpak_app_path@, true, 0));
    while i < disk.entries.len()
        invariant
            i <= disk.entries.len(),
            root@ == flatpak_app_path@,
            app_views(apps@) == directory_apps(*disk, flatpak_app_path@, true, i as int),
        decreases disk.entries.len() - i,
    {
        let ghost before = app_views(apps@);
        if disk.child_of(i, &root, PathStyle::Unix) {
            let entry_path = disk.entries[i].path.as_str();
            let name = crate::paths::file_name_chars(&chars_of(entry_path), PathStyle::Unix);
            match name {
                Some(app_identifier) => {
                    let app_desktop_file_path = sandbox_descriptor_path(
                        entry_path,
                        string_of(&app_identifier).as_str(),
                    );
                    if disk.has(app_desktop_file_path.as_str()) {
                        if let Some(app) = app_of_descriptor(disk, app_desktop_file_path.as_str()) {
                            apps.push(app);
                            assert(app_views(apps@) =~= before.push(app@));
                        }
                    }
                },
                None => {},
            }
        }
        i += 1;
    }
    apps
}

/// The applications in and below `dir`: every file `*.desktop` that counts
/// as an application.
pub fn walk_applications(dir: &str, disk: &Disk) -> (out: Vec<App>)
    ensures
        app_views(out@) == directory_apps(*disk, dir@, false, disk.entries@.len() as int),
{
    let root = chars_of(dir);
    let wanted = chars_of("desktop");
    let mut apps: Vec<App> = Vec::new();
    let mut i: usize = 0;
    assert(app_views(apps@) =~= directory_apps(*disk, dir@, false, 0));
    while i < disk.entries.len()
        invariant
            i <= disk.entries.len(),
            root@ == dir@,
            wanted@ == "desktop"@,
            app_views(apps@) == directory_apps(*disk, dir@, false, i as int),
        decreases disk.entries.len() - i,
    {
        let ghost before = app_views(apps@);
        let path = disk.entries[i].path.as_str();
        let chars = chars_of(path);
        if within(&chars, &root) {
            let is_descriptor = match extension_chars(&chars, PathStyle::Unix) {
                Some(ext) => same_text(&ext, &wanted),
                None => false,
            };
            if is_descriptor && disk.has_file(path) {
                if let Some(app) = app_of_descriptor(disk, path) {
                    apps.push(app);
                    assert(app_views(apps@) =~= before.push(app@));
                }
            }
        }
        i += 1;
    }
    apps
}

/// Whether some record of `apps` agrees with `app` in every field.
fn holds_app(apps: &Vec<App>, app: &App) -> (r: bool)
    ensures
        r == app_views(apps@).contains(app@),
{
    let mut i: usize = 0;
    while i < apps.len()
        invariant
            i <= apps.len(),
            forall|j: int| 0 <= j < i ==> apps[j]@ != app@,
        decreases apps.len() - i,
    {
        if apps[i].same(app) {
            assert(app_views(apps@)[i as int] == app@);
            return true;
        }
        i += 1;
    }
    assert forall|j: int| 0 <= j < app_views(apps@).len() implies app_views(apps@)[j] != app@ by {
        assert(apps[j]@ != app@);
    }
    false
}

/// The records of `apps`, each once: of records that agree in every field
/// the first stays.
pub fn dedup_apps(apps: Vec<App>) -> (out: Vec<App>)
    ensures
        app_views(out@) == distinct(app_views(apps@), apps@.len() as int),
{
    let mut out: Vec<App> = Vec::new();
    let mut i: usize = 0;
    assert(app_views(out@) =~= distinct(app_views(apps@), 0));
    while i < apps.len()
        invariant
            i <= apps.len(),
            app_views(out@) == distinct(app_views(apps@), i as int),
        decreases apps.len() - i,
    {
        let ghost before = app_views(out@);
        if !holds_app(&out, &apps[i]) {
            out.push(apps[i].clone());
            assert(app_views(out@) =~= before.push(apps[i as int]@));
        }
        i += 1;
    }
    out
}

/// The applications of the search paths.  A search path that is not on the
/// disk is passed over, a sandbox root is searched by its fixed layout and
/// every other directory is walked; a descriptor that cannot be read or does
/// not count as an application is passed over.  Records that agree in every
/// field are returned once.
pub fn get_all_apps(search_paths: &Vec<String>, home: &str, disk: &Disk) -> (out: Vec<App>)
    ensures
        app_views(out@) == enumerated(*disk, texts(search_paths@), home@),
{
    let global = chars_of("/var/lib/flatpak/app");
    let personal = chars_of(join(home, ".local/share/flatpak/app", PathStyle::Unix).as_str());
    let mut apps: Vec<App> = Vec::new();
    let mut i: usize = 0;
    assert(app_views(apps@) =~= gathered_apps(*disk, texts(search_paths@), home@, 0));
    while i < search_paths.len()
        invariant
            i <= search_paths.len(),
            global@ == sandbox_system_root(),
            personal@ == sandbox_user_root(home@),
            app_views(apps@) == gathered_apps(*disk, texts(search_paths@), home@, i as int),
        decreases search_paths.len() - i,
    {
        let dir = search_paths[i].as_str();
        if disk.has(dir) {
            let chars = chars_of(dir);
            let mut found = if same_text(&chars, &global) || same_text(&chars, &personal) {
                get_flatpak_applications(dir, disk)
            } else {
                walk_applications(dir, disk)
            };
            let ghost before = app_views(apps@);
            let ghost more = app_views(found@);
            apps.append(&mut found);
            assert(app_views(apps@) =~= before + more);
        }
        i += 1;
    }
    dedup_apps(apps)
}

/// Whether `app` is the record of the descriptor that it names.
pub open spec fn from_descriptor(disk: Disk, app: AppView) -> bool {
    descriptor_app(disk, app.app_desktop_path) == Some(app)
}

/// Every record that a directory adds is the record of the descriptor that
/// it names.
pub proof fn lemma_directory_apps_from_descriptors(
    disk: Disk,
    dir: Seq<char>,
    sandbox: bool,
    upto: int,
)
    ensures
        forall|k: int|
            0 <= k < directory_apps(disk, dir, sandbox, upto).len() ==> from_descriptor(
                disk,
                #[trigger] directory_apps(disk, dir, sandbox, upto)[k],
            ),
    decreases upto,
{
    if upto > 0 {
        lemma_directory_apps_from_descriptors(disk, dir, sandbox, upto - 1);
        let before = directory_apps(disk, dir, sandbox, upto - 1);
        let whole = directory_apps(disk, dir, sandbox, upto);
        match found_app(disk, dir, sandbox, upto - 1) {
            Some(app) => {
                assert(from_descriptor(disk, app));
                assert forall|k: int| 0 <= k < whole.len() implies from_descriptor(
                    disk,
                    #[trigger] whole[k],
                ) by {
                    if k < before.len() {
                        assert(whole[k] == before[k]);
                    } else {
                        assert(whole[k] == app);
                    }
                }
            },
            None => {},
        }
    }
}

/// Every gathered record is the record of the descriptor that it names.
pub proof fn lemma_gathered_apps_from_descriptors(
    disk: Disk,
    dirs: Seq<Seq<char>>,
    home: Seq<char>,
    upto: int,
)
    requires
        0 <= upto <= dirs.len(),
    ensures
        forall|k: int|
            0 <= k < gathered_apps(disk, dirs, home, upto).len() ==> from_descriptor(
                disk,
                #[trigger] gathered_apps(disk, dirs, home, upto)[k],
            ),
    decreases upto,
{
    if upto > 0 {
        lemma_gathered_apps_from_descriptors(disk, dirs, home, upto - 1);
        let dir = dirs[upto - 1];
        lemma_directory_apps_from_descriptors(
            disk,
            dir,
            is_sandbox_root(dir, home),
            disk.entries@.len() as int,
        );
        let before = gathered_apps(disk, dirs, home, upto - 1);
        let more = directory_apps(
            disk,
            dir,
            is_sandbox_root(dir, home),
            disk.entries@.len() as int,
        );
        let whole = gathered_apps(disk, dirs, home, upto);
        assert forall|k: int| 0 <= k < whole.len() implies from_descriptor(
            disk,
            #[trigger] whole[k],
        ) by {
            if k < before.len() {
                assert(whole[k] == before[k]);
            } else {
                assert(whole[k] == more[k - before.len()]);
            }
        }
    }
}

/// The acceptance rule holds of everything that is enumerated: each record
/// is that of a descriptor whose text the parser reads as an entry of type
/// `Application` that has a launch command and an icon reference and is not
/// marked `NoDisplay`.
pub proof fn lemma_enumerated_are_accepted(
    disk: Disk,
    search_paths: Seq<Seq<char>>,
    home: Seq<char>,
    app: AppView,
)
    requires
        enumerated(disk, search_paths, home).contains(app),
    ensures
        from_descriptor(disk, app),
        text_at(disk, app.app_desktop_path) is Some,
        parsed_entry(text_at(disk, app.app_desktop_path)->0) matches Some(entry) && {
            &&& entry.kind matches DesktopEntryKindView::Application { command: Some(_) }
            &&& entry.icon is Some
            &&& entry.no_display != Some(true)
        },
{
    let all = gathered_apps(disk, search_paths, home, search_paths.len() as int);
    lemma_distinct(all, all.len() as int);
    assert(all.take(all.len() as int) == all);
    assert(all.contains(app));
    let k = choose|k: int| 0 <= k < all.len() && all[k] == app;
    lemma_gathered_apps_from_descriptors(disk, search_paths, home, search_paths.len() as int);
    assert(from_descriptor(disk, all[k]));
}

/// A descriptor without a launch command, without an icon reference or
/// marked `NoDisplay` is left out: no enumerated record names it.
pub proof fn lemma_rejected_descriptor_is_excluded(
    disk: Disk,
    search_paths: Seq<Seq<char>>,
    home: Seq<char>,
    path: Seq<char>,
    entry: DesktopEntryView,
)
    requires
        text_at(disk, path) is Some,
        parsed_entry(text_at(disk, path)->0) == Some(entry),
        ({
            ||| !(entry.kind matches DesktopEntryKindView::Application { command: Some(_) })
            ||| entry.icon is None
            ||| entry.no_display == Some(true)
        }),
    ensures
        forall|app: AppView| #[trigger]
            enumerated(disk, search_paths, home).contains(app) ==> app.app_desktop_path != path,
{
    assert forall|app: AppView| #[trigger]
        enumerated(disk, search_paths, home).contains(app) implies app.app_desktop_path
        != path by {
        lemma_enumerated_are_accepted(disk, search_paths, home, app);
    }
}

/// What an entry adds to the records of a directory is among them.
pub proof fn lemma_directory_apps_hold_found(
    disk: Disk,
    dir: Seq<char>,
    sandbox: bool,
    upto: int,
    i: int,
)
    requires
        0 <= i < upto,
        found_app(disk, dir, sandbox, i) is Some,
    ensures
        directory_apps(disk, dir, sandbox, upto).contains(found_app(disk, dir, sandbox, i)->0),
    decreases upto,
{
    let app = found_app(disk, dir, sandbox, i)->0;
    let before = directory_apps(disk, dir, sandbox, upto - 1);
    let whole = directory_apps(disk, dir, sandbox, upto);
    if i < upto - 1 {
        lemma_directory_apps_hold_found(disk, dir, sandbox, upto - 1, i);
        let k = choose|k: int| 0 <= k < before.len() && before[k] == app;
        assert(whole[k] == app);
    } else {
        assert(whole[before.len() as int] == app);
    }
}

/// Nothing that counts is left out: the record of a descriptor that a walk
/// of a search path comes by, or that stands where the layout of a sandbox
/// root puts it, is enumerated.
pub proof fn lemma_found_descriptor_is_enumerated(
    disk: Disk,
    search_paths: Seq<Seq<char>>,
    home: Seq<char>,
    k: int,
    i: int,
)
    requires
        0 <= k < search_paths.len(),
        disk.present(search_paths[k]),
        0 <= i < disk.entries@.len(),
        found_app(disk, search_paths[k], is_sandbox_root(search_paths[k], home), i) is Some,
    ensures
        enumerated(disk, search_paths, home).contains(
            found_app(disk, search_paths[k], is_sandbox_root(search_paths[k], home), i)->0,
        ),
{
    let dir = search_paths[k];
    let app = found_app(disk, dir, is_sandbox_root(dir, home), i)->0;
    let all = gathered_apps(disk, search_paths, home, search_paths.len() as int);
    lemma_directory_apps_hold_found(
        disk,
        dir,
        is_sandbox_root(dir, home),
        disk.entries@.len() as int,
        i,
    );
    assert(added_by(disk, search_paths, home, search_paths.len() as int, app));
    lemma_gathered_apps_members(disk, search_paths, home, search_paths.len() as int, app);
    lemma_distinct(all, all.len() as int);
    assert(all.take(all.len() as int) == all);
}

/// Whether some directory among the first `upto` of `dirs` that is on the
/// disk adds `app`.
pub open spec fn added_by(
    disk: Disk,
    dirs: Seq<Seq<char>>,
    home: Seq<char>,
    upto: int,
    app: AppView,
) -> bool {
    exists|k: int|
        0 <= k < upto && disk.present(#[trigger] dirs[k]) && directory_apps(
            disk,
            dirs[k],
            is_sandbox_root(dirs[k], home),
            disk.entries@.len() as int,
        ).contains(app)
}

/// The gathered records are those that some directory adds.
pub proof fn lemma_gathered_apps_members(
    disk: Disk,
    dirs: Seq<Seq<char>>,
    home: Seq<char>,
    upto: int,
    app: AppView,
)
    requires
        0 <= upto <= dirs.len(),
    ensures
        gathered_apps(disk, dirs, home, upto).contains(app) == added_by(
            disk,
            dirs,
            home,
            upto,
            app,
        ),
    decreases upto,
{
    if upto > 0 {
        lemma_gathered_apps_members(disk, dirs, home, upto - 1, app);
        let before = gathered_apps(disk, dirs, home, upto - 1);
        let dir = dirs[upto - 1];
        let more = directory_apps(
            disk,
            dir,
            is_sandbox_root(dir, home),
            disk.entries@.len() as int,
        );
        let whole = gathered_apps(disk, dirs, home, upto);
        if whole.contains(app) {
            let k = choose|k: int| 0 <= k < whole.len() && whole[k] == app;
            if k < before.len() {
                assert(before[k] == app);
                assert(added_by(disk, dirs, home, upto - 1, app));
                let d = choose|d: int|
                    0 <= d < upto - 1 && disk.present(#[trigger] dirs[d]) && directory_apps(
                        disk,
                        dirs[d],
                        is_sandbox_root(dirs[d], home),
                        disk.entries@.len() as int,
                    ).contains(app);
                assert(disk.present(dirs[d]));
            } else {
                assert(disk.present(dir));
                assert(more[k - before.len()] == app);
                assert(disk.present(dirs[upto - 1]));
            }
        }
        if added_by(disk, dirs, home, upto, app) {
            let d = choose|d: int|
                0 <= d < upto && disk.present(#[trigger] dirs[d]) && directory_apps(
                    disk,
                    dirs[d],
                    is_sandbox_root(dirs[d], home),
                    disk.entries@.len() as int,
                ).contains(app);
            if d < upto - 1 {
                assert(disk.present(dirs[d]));
                assert(added_by(disk, dirs, home, upto - 1, app));
                let k = choose|k: int| 0 <= k < before.len() && before[k] == app;
                assert(whole[k] == app);
            } else {
                let k = choose|k: int| 0 <= k < more.len() && more[k] == app;
                assert(whole[before.len() + k] == app);
            }
        }
    } else {
        assert(!added_by(disk, dirs, home, upto, app));
    }
}

/// Enumerating again gives the same applications, whatever the order in
/// which the search paths are named and however often each is named: two
/// lists of search paths that name the same directories give the same set of
/// records, each record once, so also the same number of records.
pub proof fn lemma_enumeration_ignores_order(
    disk: Disk,
    first: Seq<Seq<char>>,
    second: Seq<Seq<char>>,
    home: Seq<char>,
)
    requires
        first.to_set() == second.to_set(),
    ensures
        enumerated(disk, first, home).no_duplicates(),
        enumerated(disk, second, home).no_duplicates(),
        enumerated(disk, first, home).to_set() == enumerated(disk, second, home).to_set(),
        enumerated(disk, first, home).len() == enumerated(disk, second, home).len(),
{
    let a = gathered_apps(disk, first, home, first.len() as int);
    let b = gathered_apps(disk, second, home, second.len() as int);
    lemma_distinct(a, a.len() as int);
    lemma_distinct(b, b.len() as int);
    assert(a.take(a.len() as int) == a);
    assert(b.take(b.len() as int) == b);
    assert forall|app: AppView| a.contains(app) == b.contains(app) by {
        lemma_gathered_apps_members(disk, first, home, first.len() as int, app);
        lemma_gathered_apps_members(disk, second, home, second.len() as int, app);
        if added_by(disk, first, home, first.len() as int, app) {
            let d = choose|d: int|
                0 <= d < first.len() && disk.present(#[trigger] first[d]) && directory_apps(
                    disk,
                    first[d],
                    is_sandbox_root(first[d], home),
                    disk.entries@.len() as int,
                ).contains(app);
            assert(first.to_set().contains(first[d]));
            assert(second.contains(first[d]));
            let e = choose|e: int| 0 <= e < second.len() && second[e] == first[d];
            assert(disk.present(second[e]));
        }
        if added_by(disk, second, home, second.len() as int, app) {
            let d = choose|d: int|
                0 <= d < second.len() && disk.present(#[trigger] second[d]) && directory_apps(
                    disk,
                    second[d],
                    is_sandbox_root(second[d], home),
                    disk.entries@.len() as int,
                ).contains(app);
            assert(second.to_set().contains(second[d]));
            assert(first.contains(second[d]));
            let e = choose|e: int| 0 <= e < first.len() && first[e] == second[d];
            assert(disk.present(first[e]));
        }
    }
    assert(enumerated(disk, first, home).to_set() =~= enumerated(disk, second, home).to_set());
    enumerated(disk, first, home).unique_seq_to_set();
    enumerated(disk, second, home).unique_seq_to_set();
}

} // verus!
