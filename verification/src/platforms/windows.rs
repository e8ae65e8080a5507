//! Enumeration from shortcut files, registry keys, the executables of the
//! search path and installed packages.
//!
//! Shortcut files, the registry, the process environment and the package
//! list are handed in as records; the rules that turn them into application
//! records, merge them and order them are here.

use crate::common::{app_views, App, AppView, ProcessOutput, TextMap};
use crate::disk::{find_present, first_present, Disk};
use crate::paths::{
    extension, extension_chars, file_stem, file_stem_of, join, joined, parent, parent_of,
    PathStyle,
};
use crate::text::{
    chars_of, comes_before, concat, copy_opt, count_in, count_set, distinct, eq_ignore_ascii_case,
    has_prefix, lemma_nothing_replaced, lemma_text_before_asymmetric, lemma_text_before_between,
    lowercase_of, matches_at, opt_text, or_else, push_new, replace, replaced, replaced_from,
    same_ignoring_ascii_case, same_text,
    slice_of, split, split_on, starts_with, std_lowercase, std_utf8_lossy, str_eq, string_of,
    text_before, texts, trim, trimmed, utf8_lossy, Trim,
};
use vstd::prelude::*;

verus! {

/// What the shell reports of a shortcut file.
#[derive(Debug, Clone, PartialEq)]
pub struct PowerShellLnkParseResult {
    pub icon_location: String,
    pub description: String,
    pub working_directory: String,
    pub arguments: String,
    pub hotkey: String,
    pub window_style: i64,
    pub target_path: String,
}

/// What is read of a decoded shortcut file.
#[derive(Debug)]
pub struct ShortcutRecord {
    /// Where the icon is, possibly with a variable placeholder in front.
    pub icon_location: Option<String>,
    /// The target as an absolute local path.
    pub local_base_path: Option<String>,
    /// The target relative to the shortcut file.
    pub relative_path: Option<String>,
    /// The directory in which the target is started.
    pub working_dir: Option<String>,
}

/// What a `ShortcutRecord` holds.
pub struct ShortcutView {
    pub icon_location: Option<Seq<char>>,
    pub local_base_path: Option<Seq<char>>,
    pub relative_path: Option<Seq<char>>,
    pub working_dir: Option<Seq<char>>,
}

impl View for ShortcutRecord {
    type V = ShortcutView;

    open spec fn view(&self) -> ShortcutView {
        ShortcutView {
            icon_location: opt_text(self.icon_location),
            local_base_path: opt_text(self.local_base_path),
            relative_path: opt_text(self.relative_path),
            working_dir: opt_text(self.working_dir),
        }
    }
}

/// The placeholders that stand for a directory, in lower case, each with the
/// name of the environment variable that holds the directory.
pub open spec fn alias_table() -> Seq<(Seq<char>, Seq<char>)> {
    seq![
        ("%windir%"@, "WINDIR"@),
        ("%systemroot%"@, "SYSTEMROOT"@),
        ("%programfiles%"@, "PROGRAMFILES"@),
        ("%programfiles(x86)%"@, "PROGRAMFILES(X86)"@),
        ("%programdata%"@, "PROGRAMDATA"@),
        ("%userprofile%"@, "USERPROFILE"@),
        ("%appdata%"@, "APPDATA"@),
        ("%localappdata%"@, "LOCALAPPDATA"@),
        ("%public%"@, "PUBLIC"@),
        ("%systemdrive%"@, "SYSTEMDRIVE"@),
    ]
}

/// The views of a list of pairs of strings.
pub open spec fn pair_texts(v: Seq<(String, String)>) -> Seq<(Seq<char>, Seq<char>)> {
    Seq::new(v.len(), |i: int| (v[i].0@, v[i].1@))
}

/// `alias_table` as strings.
fn alias_list() -> (out: Vec<(String, String)>)
    ensures
        pair_texts(out@) == alias_table(),
{
    let mut out: Vec<(String, String)> = Vec::new();
    out.push(("%windir%".to_owned(), "WINDIR".to_owned()));
    out.push(("%systemroot%".to_owned(), "SYSTEMROOT".to_owned()));
    out.push(("%programfiles%".to_owned(), "PROGRAMFILES".to_owned()));
    out.push(("%programfiles(x86)%".to_owned(), "PROGRAMFILES(X86)".to_owned()));
    out.push(("%programdata%".to_owned(), "PROGRAMDATA".to_owned()));
    out.push(("%userprofile%".to_owned(), "USERPROFILE".to_owned()));
    out.push(("%appdata%".to_owned(), "APPDATA".to_owned()));
    out.push(("%localappdata%".to_owned(), "LOCALAPPDATA".to_owned()));
    out.push(("%public%".to_owned(), "PUBLIC".to_owned()));
    out.push(("%systemdrive%".to_owned(), "SYSTEMDRIVE".to_owned()));
    assert(pair_texts(out@) =~= alias_table());
    out
}

/// `lowered` with the first placeholder of the table from `from` on that it
/// begins with and that `env` has a value for replaced, wherever it occurs,
/// by that value; `given` where there is no such placeholder.
pub open spec fn expanded_from(
    lowered: Seq<char>,
    given: Seq<char>,
    env: Map<Seq<char>, Seq<char>>,
    from: int,
) -> Seq<char>
    decreases alias_table().len() - from,
{
    if from >= alias_table().len() || from < 0 {
        given
    } else if has_prefix(lowered, alias_table()[from].0) && env.contains_key(
        alias_table()[from].1,
    ) {
        replaced(lowered, alias_table()[from].0, env[alias_table()[from].1])
    } else {
        expanded_from(lowered, given, env, from + 1)
    }
}

/// The path `given`, whose lower-case form is `lowered`, with a leading
/// placeholder resolved against `env`.
pub open spec fn expanded(
    lowered: Seq<char>,
    given: Seq<char>,
    env: Map<Seq<char>, Seq<char>>,
) -> Seq<
    char,
> {
    expanded_from(lowered, given, env, 0)
}

/// The path with a leading placeholder resolved against `env`: in lower case
/// where one was resolved, unchanged where none was.
pub open spec fn translated(path: Seq<char>, env: Map<Seq<char>, Seq<char>>) -> Seq<char> {
    expanded(lowercase_of(path), path, env)
}

/// A text that begins with a pattern holds the characters of the pattern.
pub proof fn lemma_prefix_characters(s: Seq<char>, pat: Seq<char>)
    requires
        has_prefix(s, pat),
    ensures
        pat.len() <= s.len(),
        forall|i: int| 0 <= i < pat.len() ==> s[i] == #[trigger] pat[i],
{
    assert forall|i: int| 0 <= i < pat.len() implies s[i] == #[trigger] pat[i] by {
        assert(s.subrange(0, pat.len() as int)[i] == s[i]);
    }
}

/// No text begins with two of the placeholders.
pub proof fn lemma_placeholders_exclude_each_other(s: Seq<char>, j: int, k: int)
    requires
        0 <= j < alias_table().len(),
        0 <= k < alias_table().len(),
        j != k,
        has_prefix(s, alias_table()[j].0),
    ensures
        !has_prefix(s, alias_table()[k].0),
{
    reveal_strlit("%windir%");
    reveal_strlit("%systemroot%");
    reveal_strlit("%programfiles%");
    reveal_strlit("%programfiles(x86)%");
    reveal_strlit("%programdata%");
    reveal_strlit("%userprofile%");
    reveal_strlit("%appdata%");
    reveal_strlit("%localappdata%");
    reveal_strlit("%public%");
    reveal_strlit("%systemdrive%");
    let table = alias_table();
    assert(table[0].0 == "%windir%"@ && table[1].0 == "%systemroot%"@ && table[2].0
        == "%programfiles%"@ && table[3].0 == "%programfiles(x86)%"@ && table[4].0
        == "%programdata%"@ && table[5].0 == "%userprofile%"@ && table[6].0 == "%appdata%"@
        && table[7].0 == "%localappdata%"@ && table[8].0 == "%public%"@ && table[9].0
        == "%systemdrive%"@);
    let first = table[j].0;
    let second = table[k].0;
    lemma_prefix_characters(s, first);
    if has_prefix(s, second) {
        lemma_prefix_characters(s, second);
        // Two placeholders differ in one of these places, which both have.
        assert(first.len() >= 8 && second.len() >= 8);
        assert(s[1] == first[1] && s[1] == second[1]);
        assert(s[2] == first[2] && s[2] == second[2]);
        assert(s[7] == first[7] && s[7] == second[7]);
        if first.len() > 13 && second.len() > 13 {
            assert(s[8] == first[8] && s[8] == second[8]);
            assert(s[13] == first[13] && s[13] == second[13]);
        } else if first.len() > 8 && second.len() > 8 {
            assert(s[8] == first[8] && s[8] == second[8]);
        }
    }
}

/// A path that begins, in whatever case, with one of the ten placeholders,
/// for which the environment has a value, resolves to that value followed by
/// the rest of the path in lower case, in which further occurrences of the
/// placeholder are resolved too.
pub proof fn lemma_placeholder_is_resolved(path: Seq<char>, env: Map<Seq<char>, Seq<char>>, k: int)
    requires
        0 <= k < alias_table().len(),
        has_prefix(lowercase_of(path), alias_table()[k].0),
        env.contains_key(alias_table()[k].1),
    ensures
        translated(path, env) == env[alias_table()[k].1] + replaced_from(
            lowercase_of(path),
            alias_table()[k].0,
            env[alias_table()[k].1],
            alias_table()[k].0.len() as int,
        ),
        has_prefix(translated(path, env), env[alias_table()[k].1]),
{
    let lowered = lowercase_of(path);
    let var = alias_table()[k].0;
    let value = env[alias_table()[k].1];
    let rest = replaced_from(lowered, var, value, var.len() as int);
    lemma_expansion_passes_over(lowered, path, env, k, 0);
    lemma_prefix_characters(lowered, var);
    assert(var.len() > 0) by {
        reveal_strlit("%windir%");
        reveal_strlit("%systemroot%");
        reveal_strlit("%programfiles%");
        reveal_strlit("%programfiles(x86)%");
        reveal_strlit("%programdata%");
        reveal_strlit("%userprofile%");
        reveal_strlit("%appdata%");
        reveal_strlit("%localappdata%");
        reveal_strlit("%public%");
        reveal_strlit("%systemdrive%");
    }
    assert((value + rest).subrange(0, value.len() as int) =~= value);
}

/// A path that begins, in whatever case, with one of the ten placeholders,
/// for which the environment has a value, and whose lower-case form does not
/// hold the placeholder a second time, resolves to that value followed by
/// the rest of the lower-case form.
pub proof fn lemma_single_placeholder_is_resolved(
    path: Seq<char>,
    env: Map<Seq<char>, Seq<char>>,
    k: int,
)
    requires
        0 <= k < alias_table().len(),
        has_prefix(lowercase_of(path), alias_table()[k].0),
        env.contains_key(alias_table()[k].1),
        forall|i: int|
            alias_table()[k].0.len() <= i ==> !#[trigger] matches_at(
                lowercase_of(path),
                alias_table()[k].0,
                i,
            ),
    ensures
        translated(path, env) == env[alias_table()[k].1] + lowercase_of(path).subrange(
            alias_table()[k].0.len() as int,
            lowercase_of(path).len() as int,
        ),
{
    lemma_placeholder_is_resolved(path, env, k);
    lemma_nothing_replaced(
        lowercase_of(path),
        alias_table()[k].0,
        env[alias_table()[k].1],
        alias_table()[k].0.len() as int,
    );
}

/// The search for a placeholder passes over those that the text does not
/// begin with.
pub proof fn lemma_expansion_passes_over(
    lowered: Seq<char>,
    given: Seq<char>,
    env: Map<Seq<char>, Seq<char>>,
    k: int,
    from: int,
)
    requires
        0 <= from <= k < alias_table().len(),
        has_prefix(lowered, alias_table()[k].0),
    ensures
        expanded_from(lowered, given, env, from) == expanded_from(lowered, given, env, k),
    decreases k - from,
{
    if from < k {
        lemma_placeholders_exclude_each_other(lowered, k, from);
        lemma_expansion_passes_over(lowered, given, env, k, from + 1);
    }
}

/// A path that begins, in whatever case, with the placeholder of the system
/// directory resolves to the value of `WINDIR` followed by the rest of the
/// path in lower case.
pub proof fn lemma_system_directory_is_resolved(path: Seq<char>, env: Map<Seq<char>, Seq<char>>)
    requires
        has_prefix(lowercase_of(path), "%windir%"@),
        env.contains_key("WINDIR"@),
    ensures
        translated(path, env) == env["WINDIR"@] + replaced_from(
            lowercase_of(path),
            "%windir%"@,
            env["WINDIR"@],
            8,
        ),
        has_prefix(translated(path, env), env["WINDIR"@]),
{
    reveal_strlit("%windir%");
    assert(alias_table()[0] == ("%windir%"@, "WINDIR"@));
    lemma_placeholder_is_resolved(path, env, 0);
}

/// Resolves a leading placeholder of the path `given`, whose lower-case
/// form is `lowered`; computes `expanded`.
pub fn expand_alias(lowered: &str, given: &str, env: &TextMap) -> (out: String)
    ensures
        out@ == expanded(lowered@, given@, env@),
{
    let table = alias_list();
    let path_str = chars_of(lowered);
    let mut i: usize = 0;
    while i < table.len()
        invariant
            i <= table.len(),
            pair_texts(table@) == alias_table(),
            path_str@ == lowered@,
            expanded_from(lowered@, given@, env@, i as int) == expanded(
                lowered@,
                given@,
                env@,
            ),
        decreases table.len() - i,
    {
        assert(pair_texts(table@)[i as int] == (table[i as int].0@, table[i as int].1@));
        let var = chars_of(table[i].0.as_str());
        if starts_with(&path_str, &var) {
            if let Some(value) = env.get(table[i].1.as_str()) {
                return string_of(&replace(&path_str, &var, &chars_of(value.as_str())));
            }
        }
        i += 1;
    }
    given.to_owned()
}

/// Resolves a leading placeholder such as `%windir%` against `env`: the path
/// comes back in lower case with the value in place of the placeholder, or
/// unchanged where no placeholder is resolved.  Computes `translated`, with
/// `str::to_lowercase` for the lower-case form.
pub fn translate_path_alias(path: &str, env: &TextMap) -> (out: String)
    ensures
        out@ == translated(path@, env@),
{
    let lowered = std_lowercase(path);
    expand_alias(lowered.as_str(), path, env)
}

/// `path` without a leading `\\?\`.
pub open spec fn without_extended_prefix(path: Seq<char>) -> Seq<char> {
    if has_prefix(path, "\\\\?\\"@) {
        path.subrange(4, path.len() as int)
    } else {
        path
    }
}

/// Takes a leading `\\?\` off a path; computes `without_extended_prefix`.
pub fn strip_extended_prefix(path: &str) -> (out: String)
    ensures
        out@ == without_extended_prefix(path@),
{
    let chars = chars_of(path);
    let prefix = chars_of("\\\\?\\");
    proof {
        reveal_strlit("\\\\?\\");
    }
    if starts_with(&chars, &prefix) {
        string_of(&slice_of(&chars, 4, chars.len()))
    } else {
        path.to_owned()
    }
}

/// `path` translated where it begins with `%`.
pub open spec fn placeholder_resolved(path: Seq<char>, env: Map<Seq<char>, Seq<char>>) -> Seq<
    char,
> {
    if has_prefix(path, "%"@) {
        translated(path, env)
    } else {
        path
    }
}

/// Computes `placeholder_resolved`.
fn resolve_placeholder(path: &str, env: &TextMap) -> (out: String)
    ensures
        out@ == placeholder_resolved(path@, env@),
{
    if starts_with(&chars_of(path), &chars_of("%")) {
        translate_path_alias(path, env)
    } else {
        path.to_owned()
    }
}

/// The icon of a shortcut.
pub open spec fn shortcut_icon(lnk: ShortcutView, env: Map<Seq<char>, Seq<char>>) -> Option<
    Seq<char>,
> {
    match lnk.icon_location {
        Some(icon) => Some(placeholder_resolved(icon, env)),
        None => None,
    }
}

/// The target that a shortcut names: its absolute local path, else its
/// relative path, else its icon where that is an `exe` file.
pub open spec fn shortcut_target(lnk: ShortcutView, env: Map<Seq<char>, Seq<char>>) -> Option<
    Seq<char>,
> {
    match (lnk.local_base_path, lnk.relative_path, shortcut_icon(lnk, env)) {
        (Some(p), _, _) => Some(p),
        (None, Some(p), _) => Some(p),
        (None, None, Some(icon)) => if extension(icon, PathStyle::Windows) == Some("exe"@) {
            Some(translated(icon, env))
        } else {
            None
        },
        (None, None, None) => None,
    }
}

/// Where the target of the shortcut at `path` is looked for: the translated
/// target itself where it is on the disk, else the target taken relative to
/// the directory of the shortcut.
pub open spec fn shortcut_place(path: Seq<char>, target: Seq<char>, disk: Disk) -> Option<
    Seq<char>,
> {
    if disk.present(target) {
        Some(target)
    } else {
        match parent(path, PathStyle::Windows) {
            Some(dir) => Some(joined(dir, target, PathStyle::Windows)),
            None => None,
        }
    }
}

/// The places at which the target of the shortcut at `path` is looked for:
/// the translated target itself, and the target taken relative to the
/// directory of the shortcut.  None where the shortcut names no target.
pub open spec fn shortcut_places(
    path: Seq<char>,
    lnk: ShortcutView,
    env: Map<Seq<char>, Seq<char>>,
) -> Seq<
    Seq<char>,
> {
    match shortcut_target(lnk, env) {
        Some(target) => match parent(path, PathStyle::Windows) {
            Some(dir) => seq![
                translated(target, env),
                joined(dir, translated(target, env), PathStyle::Windows),
            ],
            None => seq![translated(target, env)],
        },
        None => Seq::empty(),
    }
}

/// The executable of the shortcut at `path`: the canonical form of the place
/// where its target is on the disk, without the extended-length prefix.
pub open spec fn shortcut_executable(
    path: Seq<char>,
    lnk: ShortcutView,
    env: Map<Seq<char>, Seq<char>>,
    disk: Disk,
) -> Option<Seq<char>> {
    match shortcut_target(lnk, env) {
        Some(target) => match shortcut_place(path, translated(target, env), disk) {
            Some(place) => match disk.canonical(place) {
                Some(canonical) => Some(without_extended_prefix(canonical)),
                None => None,
            },
            None => None,
        },
        None => None,
    }
}

/// The record of the shortcut at `path`: none where the target cannot be
/// resolved to something on the disk, or where the shortcut's file name has
/// no stem to take the name from.
pub open spec fn shortcut_app(
    path: Seq<char>,
    lnk: ShortcutView,
    env: Map<Seq<char>, Seq<char>>,
    disk: Disk,
) -> Option<AppView> {
    match shortcut_executable(path, lnk, env, disk) {
        Some(exe) => {
            let work_dir = match lnk.working_dir {
                Some(dir) => Some(placeholder_resolved(dir, env)),
                None => parent(exe, PathStyle::Windows),
            };
            match (work_dir, file_stem(path, PathStyle::Windows)) {
                (Some(dir), Some(name)) => Some(
                    AppView {
                        name,
                        localized_app_names: Map::empty(),
                        icon_path: shortcut_icon(lnk, env),
                        app_path_exe: Some(exe),
                        app_desktop_path: dir,
                    },
                ),
                _ => None,
            }
        },
        None => None,
    }
}

/// Computes `shortcut_target`.
fn target_of(lnk: &ShortcutRecord, env: &TextMap) -> (out: Option<String>)
    ensures
        opt_text(out) == shortcut_target(lnk@, env@),
{
    match (&lnk.local_base_path, &lnk.relative_path, &lnk.icon_location) {
        (Some(path), _, _) => Some(path.clone()),
        (None, Some(path), _) => Some(path.clone()),
        (None, None, Some(icon)) => {
            let icon_path = resolve_placeholder(icon.as_str(), env);
            match extension_chars(&chars_of(icon_path.as_str()), PathStyle::Windows) {
                Some(ext) => {
                    if same_text(&ext, &chars_of("exe")) {
                        Some(translate_path_alias(icon_path.as_str(), env))
                    } else {
                        None
                    }
                },
                None => None,
            }
        },
        (None, None, None) => None,
    }
}

/// Computes `shortcut_places`: what a snapshot has to hold of the disk for
/// the shortcut at `path` to be resolved.
pub fn places_of_shortcut(path: &str, lnk: &ShortcutRecord, env: &TextMap) -> (out: Vec<String>)
    ensures
        texts(out@) == shortcut_places(path@, lnk@, env@),
{
    let mut out: Vec<String> = Vec::new();
    match target_of(lnk, env) {
        Some(target) => {
            let translated = translate_path_alias(target.as_str(), env);
            match parent_of(path, PathStyle::Windows) {
                Some(dir) => {
                    out.push(translated.clone());
                    out.push(join(dir.as_str(), translated.as_str(), PathStyle::Windows));
                    assert(texts(out@) =~= shortcut_places(path@, lnk@, env@));
                },
                None => {
                    out.push(translated);
                    assert(texts(out@) =~= shortcut_places(path@, lnk@, env@));
                },
            }
        },
        None => {
            assert(texts(out@) =~= shortcut_places(path@, lnk@, env@));
        },
    }
    out
}

/// The record of the shortcut file at `path`, of which `lnk` is the decoded
/// content; none where its target cannot be resolved to something on the
/// disk.  Computes `shortcut_app`.
pub fn parse_lnk2(
    path: &str,
    lnk: &ShortcutRecord,
    env: &TextMap,
    disk: &Disk,
) -> (out: Option<App>)
    ensures
        out is Some == shortcut_app(path@, lnk@, env@, *disk) is Some,
        out is Some ==> out->0@ == shortcut_app(path@, lnk@, env@, *disk)->0,
{
    let icon = match &lnk.icon_location {
        Some(icon) => Some(resolve_placeholder(icon.as_str(), env)),
        None => None,
    };
    let app_exe_path = match target_of(lnk, env) {
        Some(p) => p,
        None => {
            return None;
        },
    };
    let app_exe_path = translate_path_alias(app_exe_path.as_str(), env);
    let exe_abs_path = if disk.has(app_exe_path.as_str()) {
        app_exe_path
    } else {
        match parent_of(path, PathStyle::Windows) {
            Some(dir) => join(dir.as_str(), app_exe_path.as_str(), PathStyle::Windows),
            None => {
                return None;
            },
        }
    };
    if !disk.has(exe_abs_path.as_str()) {
        return None;
    }
    let exe_path = match disk.canonicalize(exe_abs_path.as_str()) {
        Some(canonical) => strip_extended_prefix(canonical.as_str()),
        None => {
            return None;
        },
    };
    let work_dir = match &lnk.working_dir {
        Some(dir) => resolve_placeholder(dir.as_str(), env),
        None => match parent_of(exe_path.as_str(), PathStyle::Windows) {
            Some(dir) => dir,
            None => {
                return None;
            },
        },
    };
    let name = match file_stem_of(path, PathStyle::Windows) {
        Some(stem) => stem,
        None => {
            return None;
        },
    };
    Some(
        App {
            name,
            localized_app_names: TextMap::new(),
            icon_path: icon,
            app_path_exe: Some(exe_path),
            app_desktop_path: work_dir,
        },
    )
}

/// The record of a shortcut file as its decoded fields alone give it: the
/// executable is the absolute local path, the directory is the working
/// directory or else the directory of the executable, the name is the stem of
/// the shortcut's file name.
pub open spec fn plain_shortcut_app(path: Seq<char>, lnk: ShortcutView) -> Option<AppView> {
    let work_dir = match (lnk.working_dir, lnk.local_base_path) {
        (Some(dir), _) => Some(dir),
        (None, Some(exe)) => parent(exe, PathStyle::Windows),
        (None, None) => None,
    };
    match (work_dir, file_stem(path, PathStyle::Windows)) {
        (Some(dir), Some(name)) => Some(
            AppView {
                name,
                localized_app_names: Map::empty(),
                icon_path: lnk.icon_location,
                app_path_exe: lnk.local_base_path,
                app_desktop_path: dir,
            },
        ),
        _ => None,
    }
}

/// The record of the shortcut file at `path` as its decoded fields alone
/// give it; computes `plain_shortcut_app`.
pub fn parse_lnk(path: &str, shortcut: &ShortcutRecord) -> (out: Option<App>)
    ensures
        out is Some == plain_shortcut_app(path@, shortcut@) is Some,
        out is Some ==> out->0@ == plain_shortcut_app(path@, shortcut@)->0,
{
    let exe = copy_opt(&shortcut.local_base_path);
    let work_dir = match &shortcut.working_dir {
        Some(dir) => dir.clone(),
        None => match &exe {
            Some(exe) => match parent_of(exe.as_str(), PathStyle::Windows) {
                Some(dir) => dir,
                None => {
                    return None;
                },
            },
            None => {
                return None;
            },
        },
    };
    let icon_path = copy_opt(&shortcut.icon_location);
    let name = match file_stem_of(path, PathStyle::Windows) {
        Some(stem) => stem,
        None => {
            return None;
        },
    };
    Some(
        App {
            name,
            localized_app_names: TextMap::new(),
            icon_path,
            app_path_exe: exe,
            app_desktop_path: work_dir,
        },
    )
}

/// The view of an optional shortcut record.
pub open spec fn opt_shortcut(lnk: Option<&ShortcutRecord>) -> Option<ShortcutView> {
    match lnk {
        Some(l) => Some(l@),
        None => None,
    }
}

/// The record of the file at `path`, of which `lnk` is the decoded content
/// where it could be decoded: that of the shortcut, where the file is named
/// `*.lnk`.
pub open spec fn path_app(
    path: Seq<char>,
    lnk: Option<ShortcutView>,
    env: Map<Seq<char>, Seq<char>>,
    disk: Disk,
) -> Option<AppView> {
    match lnk {
        Some(l) => if extension(path, PathStyle::Windows) == Some("lnk"@) {
            shortcut_app(path, l, env, disk)
        } else {
            None
        },
        None => None,
    }
}

/// The record of the file at `path`, which must be named `*.lnk`; computes
/// `path_app`.
pub fn from_path(path: &str, lnk: Option<&ShortcutRecord>, env: &TextMap, disk: &Disk) -> (out:
    Option<App>)
    ensures
        out is Some == path_app(path@, opt_shortcut(lnk), env@, *disk) is Some,
        out is Some ==> out->0@ == path_app(path@, opt_shortcut(lnk), env@, *disk)->0,
{
    match extension_chars(&chars_of(path), PathStyle::Windows) {
        Some(extension) => {
            if same_text(&extension, &chars_of("lnk")) {
                match lnk {
                    Some(l) => parse_lnk2(path, l, env, disk),
                    None => None,
                }
            } else {
                None
            }
        },
        None => None,
    }
}

/// Whether the file name of `path` ends in `.exe`, in any case.
pub open spec fn is_executable_name(path: Seq<char>) -> bool {
    match extension(path, PathStyle::Windows) {
        Some(e) => same_ignoring_ascii_case(e, "exe"@),
        None => false,
    }
}

/// Tests `is_executable_name`.
fn executable_name(path: &str) -> (r: bool)
    ensures
        r == is_executable_name(path@),
{
    match extension_chars(&chars_of(path), PathStyle::Windows) {
        Some(e) => eq_ignore_ascii_case(&e, &chars_of("exe")),
        None => false,
    }
}

/// The icon files that are looked for beside an application with the file
/// stem `stem`.
pub open spec fn icons_beside(stem: Seq<char>) -> Seq<Seq<char>> {
    seq![stem + ".ico"@, "app.ico"@, "icon.ico"@, "application.ico"@]
}

/// Where the icon of the application at `app_path` is taken from: an `exe`
/// file itself; else the first of the common icon files beside it; else the
/// file itself.  None where the file is not on the disk, or has no directory
/// or no stem.
pub open spec fn icon_source(app_path: Seq<char>, disk: Disk) -> Option<Seq<char>> {
    if !disk.present(app_path) {
        None
    } else if is_executable_name(app_path) {
        Some(app_path)
    } else {
        match (parent(app_path, PathStyle::Windows), file_stem(app_path, PathStyle::Windows)) {
            (Some(dir), Some(stem)) => match first_present(
                disk,
                dir,
                icons_beside(stem),
                PathStyle::Windows,
                0,
            ) {
                Some(icon) => Some(icon),
                None => Some(app_path),
            },
            _ => None,
        }
    }
}

/// Where the icon of the application at `app_path` is taken from; computes
/// `icon_source`.
pub fn extract_icon_path(app_path: &str, disk: &Disk) -> (out: Option<String>)
    ensures
        opt_text(out) == icon_source(app_path@, *disk),
{
    if !disk.has(app_path) {
        return None;
    }
    if executable_name(app_path) {
        return Some(app_path.to_owned());
    }
    let parent_dir = match parent_of(app_path, PathStyle::Windows) {
        Some(dir) => dir,
        None => {
            return None;
        },
    };
    let stem = match file_stem_of(app_path, PathStyle::Windows) {
        Some(stem) => stem,
        None => {
            return None;
        },
    };
    let mut icon_names: Vec<String> = Vec::new();
    icon_names.push(string_of(&concat(&chars_of(stem.as_str()), &chars_of(".ico"))));
    icon_names.push("app.ico".to_owned());
    icon_names.push("icon.ico".to_owned());
    icon_names.push("application.ico".to_owned());
    assert(texts(icon_names@) =~= icons_beside(stem@));
    match find_present(disk, parent_dir.as_str(), &icon_names, PathStyle::Windows) {
        Some(icon) => Some(icon),
        None => Some(app_path.to_owned()),
    }
}

/// `path` where a file stands there.
pub open spec fn file_at(disk: Disk, path: Seq<char>) -> Option<Seq<char>> {
    if disk.is_file(path) {
        Some(path)
    } else {
        None
    }
}

/// The icon of the package installed at `install_path`: the first file among
/// `Assets\*.png`, `Assets\*.ico`, `*.png`, `Images\*.png` and three common
/// logo files.  None where the directory is not on the disk.
pub open spec fn package_icon(install_path: Seq<char>, disk: Disk) -> Option<Seq<char>> {
    let assets = joined(install_path, "Assets"@, PathStyle::Windows);
    let images = joined(install_path, "Images"@, PathStyle::Windows);
    if !disk.present(install_path) {
        None
    } else {
        or_else(
            disk.first_fit(assets, PathStyle::Windows, Seq::empty(), ".png"@, true),
            or_else(
                disk.first_fit(assets, PathStyle::Windows, Seq::empty(), ".ico"@, true),
                or_else(
                    disk.first_fit(install_path, PathStyle::Windows, Seq::empty(), ".png"@, true),
                    or_else(
                        disk.first_fit(images, PathStyle::Windows, Seq::empty(), ".png"@, true),
                        or_else(
                            file_at(
                                disk,
                                joined(assets, "Square44x44Logo.png"@, PathStyle::Windows),
                            ),
                            or_else(
                                file_at(
                                    disk,
                                    joined(assets, "Square150x150Logo.png"@, PathStyle::Windows),
                                ),
                                file_at(disk, joined(assets, "Logo.png"@, PathStyle::Windows)),
                            ),
                        ),
                    ),
                ),
            ),
        )
    }
}

/// Computes `file_at`.
fn find_file(disk: &Disk, dir: &str, name: &str) -> (out: Option<String>)
    ensures
        opt_text(out) == file_at(*disk, joined(dir@, name@, PathStyle::Windows)),
{
    let path = join(dir, name, PathStyle::Windows);
    if disk.has_file(path.as_str()) {
        Some(path)
    } else {
        None
    }
}

/// The icon of the package installed at `install_path`; computes
/// `package_icon`.
pub fn find_uwp_icon(install_path: &str, disk: &Disk) -> (out: Option<String>)
    ensures
        opt_text(out) == package_icon(install_path@, *disk),
{
    if !disk.has(install_path) {
        return None;
    }
    proof {
        reveal_strlit("");
        assert(""@ == Seq::<char>::empty());
    }
    let assets = join(install_path, "Assets", PathStyle::Windows);
    let images = join(install_path, "Images", PathStyle::Windows);
    let found = disk.find_fit(assets.as_str(), PathStyle::Windows, "", ".png", true);
    if found.is_some() {
        return found;
    }
    let found = disk.find_fit(assets.as_str(), PathStyle::Windows, "", ".ico", true);
    if found.is_some() {
        return found;
    }
    let found = disk.find_fit(install_path, PathStyle::Windows, "", ".png", true);
    if found.is_some() {
        return found;
    }
    let found = disk.find_fit(images.as_str(), PathStyle::Windows, "", ".png", true);
    if found.is_some() {
        return found;
    }
    let found = find_file(disk, assets.as_str(), "Square44x44Logo.png");
    if found.is_some() {
        return found;
    }
    let found = find_file(disk, assets.as_str(), "Square150x150Logo.png");
    if found.is_some() {
        return found;
    }
    find_file(disk, assets.as_str(), "Logo.png")
}

/// What the registry holds under one application-path key.
#[derive(Debug)]
pub struct RegistryAppPath {
    /// The name of the key.
    pub subkey_name: String,
    /// The key's default value: the path of the executable.
    pub path: Option<String>,
    /// The value `DefaultIcon`.
    pub default_icon: Option<String>,
    /// The value `Icon`.
    pub icon: Option<String>,
}

/// What a `RegistryAppPath` holds.
pub struct RegistryView {
    pub subkey_name: Seq<char>,
    pub path: Option<Seq<char>>,
    pub default_icon: Option<Seq<char>>,
    pub icon: Option<Seq<char>>,
}

impl View for RegistryAppPath {
    type V = RegistryView;

    open spec fn view(&self) -> RegistryView {
        RegistryView {
            subkey_name: self.subkey_name@,
            path: opt_text(self.path),
            default_icon: opt_text(self.default_icon),
            icon: opt_text(self.icon),
        }
    }
}

/// The views of the keys of `keys`, in order.
pub open spec fn registry_views(keys: Seq<RegistryAppPath>) -> Seq<RegistryView> {
    Seq::new(keys.len(), |i: int| keys[i]@)
}

/// `text` without quotes at either end.
pub open spec fn unquoted(text: Seq<char>) -> Seq<char> {
    trimmed(text, Trim::Exactly('"'))
}

/// The icon of a registry key: the value `DefaultIcon`, else the value
/// `Icon`, without quotes and with a placeholder resolved; else what
/// `icon_source` gives for the executable.
pub open spec fn registry_icon(
    key: RegistryView,
    executable: Seq<char>,
    env: Map<Seq<char>, Seq<char>>,
    disk: Disk,
) -> Option<Seq<char>> {
    match (key.default_icon, key.icon) {
        (Some(icon), _) => Some(translated(unquoted(icon), env)),
        (None, Some(icon)) => Some(translated(unquoted(icon), env)),
        (None, None) => icon_source(executable, disk),
    }
}

/// The record of a registry key whose executable is on the disk; the name is
/// the stem of the executable's file name, else the key's name.
pub open spec fn registry_app(
    key: RegistryView,
    env: Map<Seq<char>, Seq<char>>,
    disk: Disk,
) -> Option<
    AppView,
> {
    match key.path {
        Some(raw) => match parent(unquoted(raw), PathStyle::Windows) {
            Some(dir) => if disk.present(unquoted(raw)) {
                Some(
                    AppView {
                        name: match file_stem(unquoted(raw), PathStyle::Windows) {
                            Some(stem) => stem,
                            None => key.subkey_name,
                        },
                        localized_app_names: Map::empty(),
                        icon_path: registry_icon(key, unquoted(raw), env, disk),
                        app_path_exe: Some(unquoted(raw)),
                        app_desktop_path: dir,
                    },
                )
            } else {
                None
            },
            None => None,
        },
        None => None,
    }
}

/// The records of the first `upto` keys.
pub open spec fn registry_apps(
    keys: Seq<RegistryView>,
    env: Map<Seq<char>, Seq<char>>,
    disk: Disk,
    upto: int,
) -> Seq<AppView>
    decreases upto,
{
    if upto <= 0 {
        Seq::empty()
    } else {
        let before = registry_apps(keys, env, disk, upto - 1);
        match registry_app(keys[upto - 1], env, disk) {
            Some(app) => before.push(app),
            None => before,
        }
    }
}

/// Computes `registry_app`.
fn app_of_registry_key(key: &RegistryAppPath, env: &TextMap, disk: &Disk) -> (out: Option<App>)
    ensures
        out is Some == registry_app(key@, env@, *disk) is Some,
        out is Some ==> out->0@ == registry_app(key@, env@, *disk)->0,
{
    let path = match &key.path {
        Some(path) => path,
        None => {
            return None;
        },
    };
    let clean_path = string_of(&trim(&chars_of(path.as_str()), Trim::Exactly('"')));
    if !disk.has(clean_path.as_str()) {
        return None;
    }
    let name = match file_stem_of(clean_path.as_str(), PathStyle::Windows) {
        Some(stem) => stem,
        None => key.subkey_name.clone(),
    };
    let declared = match &key.default_icon {
        Some(icon) => Some(icon),
        None => match &key.icon {
            Some(icon) => Some(icon),
            None => None,
        },
    };
    let icon_path = match declared {
        Some(icon) => {
            let clean_icon = string_of(&trim(&chars_of(icon.as_str()), Trim::Exactly('"')));
            Some(translate_path_alias(clean_icon.as_str(), env))
        },
        None => extract_icon_path(clean_path.as_str(), disk),
    };
    let dir = match parent_of(clean_path.as_str(), PathStyle::Windows) {
        Some(dir) => dir,
        None => {
            return None;
        },
    };
    Some(
        App {
            name,
            localized_app_names: TextMap::new(),
            icon_path,
            app_path_exe: Some(clean_path),
            app_desktop_path: dir,
        },
    )
}

/// The applications of the registry's application-path keys, those of the
/// machine first: one record for each key whose executable is on the disk.
pub fn get_apps_from_registry(keys: &Vec<RegistryAppPath>, env: &TextMap, disk: &Disk) -> (out: Vec<
    App,
>)
    ensures
        app_views(out@) == registry_apps(registry_views(keys@), env@, *disk, keys@.len() as int),
{
    let mut apps: Vec<App> = Vec::new();
    let mut i: usize = 0;
    assert(app_views(apps@) =~= registry_apps(registry_views(keys@), env@, *disk, 0));
    while i < keys.len()
        invariant
            i <= keys.len(),
            app_views(apps@) == registry_apps(registry_views(keys@), env@, *disk, i as int),
        decreases keys.len() - i,
    {
        let ghost before = app_views(apps@);
        assert(registry_views(keys@)[i as int] == keys[i as int]@);
        if let Some(app) = app_of_registry_key(&keys[i], env, disk) {
            apps.push(app);
            assert(app_views(apps@) =~= before.push(app@));
        }
        i += 1;
    }
    apps
}

/// The record that entry `i` of the disk adds to those of the directory
/// `dir` of the search path: that of an `exe` file that stands directly in
/// `dir`.
pub open spec fn executable_app(disk: Disk, dir: Seq<char>, i: int) -> Option<AppView> {
    let path = disk.entries[i].path@;
    if disk.is_child(i, dir, PathStyle::Windows) && disk.is_file(path) && is_executable_name(path) {
        Some(
            AppView {
                name: match file_stem(path, PathStyle::Windows) {
                    Some(stem) => stem,
                    None => "Unknown"@,
                },
                localized_app_names: Map::empty(),
                icon_path: Some(path),
                app_path_exe: Some(path),
                app_desktop_path: dir,
            },
        )
    } else {
        None
    }
}

/// The records that the first `upto` entries of the disk add to those of
/// `dir`.
pub open spec fn directory_executables(disk: Disk, dir: Seq<char>, upto: int) -> Seq<AppView>
    decreases upto,
{
    if upto <= 0 {
        Seq::empty()
    } else {
        let before = directory_executables(disk, dir, upto - 1);
        match executable_app(disk, dir, upto - 1) {
            Some(app) => before.push(app),
            None => before,
        }
    }
}

/// The records of the first `upto` directories of the search path; a
/// directory that is not on the disk adds none.
pub open spec fn search_path_apps(disk: Disk, dirs: Seq<Seq<char>>, upto: int) -> Seq<AppView>
    decreases upto,
{
    if upto <= 0 {
        Seq::empty()
    } else {
        let before = search_path_apps(disk, dirs, upto - 1);
        if disk.present(dirs[upto - 1]) {
            before + directory_executables(disk, dirs[upto - 1], disk.entries@.len() as int)
        } else {
            before
        }
    }
}

/// The records of the executables on the search path `path_var`, whose
/// directories are separated by `;`.
pub open spec fn path_env_apps(path_var: Option<Seq<char>>, disk: Disk) -> Seq<AppView> {
    match path_var {
        Some(value) => search_path_apps(
            disk,
            split_on(value, ';'),
            split_on(value, ';').len() as int,
        ),
        None => Seq::empty(),
    }
}

/// Computes `directory_executables`.
fn executables_in(dir: &str, disk: &Disk) -> (out: Vec<App>)
    ensures
        app_views(out@) == directory_executables(*disk, dir@, disk.entries@.len() as int),
{
    let base = chars_of(dir);
    let mut apps: Vec<App> = Vec::new();
    let mut i: usize = 0;
    assert(app_views(apps@) =~= directory_executables(*disk, dir@, 0));
    while i < disk.entries.len()
        invariant
            i <= disk.entries.len(),
            base@ == dir@,
            app_views(apps@) == directory_executables(*disk, dir@, i as int),
        decreases disk.entries.len() - i,
    {
        let ghost before = app_views(apps@);
        let file_path = disk.entries[i].path.as_str();
        if disk.child_of(i, &base, PathStyle::Windows) && disk.has_file(file_path)
            && executable_name(file_path) {
            let name = match file_stem_of(file_path, PathStyle::Windows) {
                Some(stem) => stem,
                None => "Unknown".to_owned(),
            };
            let app = App {
                name,
                localized_app_names: TextMap::new(),
                icon_path: Some(file_path.to_owned()),
                app_path_exe: Some(file_path.to_owned()),
                app_desktop_path: dir.to_owned(),
            };
            apps.push(app);
            assert(app_views(apps@) =~= before.push(app@));
        }
        i += 1;
    }
    apps
}

/// The applications on the search path: one record for each `exe` file that
/// stands directly in one of its directories.
pub fn get_apps_from_path_env(path_var: &Option<String>, disk: &Disk) -> (out: Vec<App>)
    ensures
        app_views(out@) == path_env_apps(opt_text(*path_var), *disk),
{
    let mut apps: Vec<App> = Vec::new();
    let value = match path_var {
        Some(value) => value,
        None => {
            assert(app_views(apps@) =~= Seq::<AppView>::empty());
            return apps;
        },
    };
    let dirs = split(&chars_of(value.as_str()), ';');
    let ghost all = split_on(value@, ';');
    let mut i: usize = 0;
    assert(app_views(apps@) =~= search_path_apps(*disk, all, 0));
    while i < dirs.len()
        invariant
            i <= dirs.len(),
            dirs.len() == all.len(),
            forall|k: int| 0 <= k < dirs.len() ==> #[trigger] dirs[k]@ == all[k],
            app_views(apps@) == search_path_apps(*disk, all, i as int),
        decreases dirs.len() - i,
    {
        let path = string_of(&dirs[i]);
        if disk.has(path.as_str()) {
            let mut found = executables_in(path.as_str(), disk);
            let ghost before = app_views(apps@);
            let ghost more = app_views(found@);
            apps.append(&mut found);
            assert(app_views(apps@) =~= before + more);
        }
        i += 1;
    }
    apps
}

/// What a `PowerShellLnkParseResult` holds.
pub struct ShellReportView {
    pub icon_location: Seq<char>,
    pub description: Seq<char>,
    pub working_directory: Seq<char>,
    pub arguments: Seq<char>,
    pub hotkey: Seq<char>,
    pub window_style: i64,
    pub target_path: Seq<char>,
}

impl View for PowerShellLnkParseResult {
    type V = ShellReportView;

    open spec fn view(&self) -> ShellReportView {
        ShellReportView {
            icon_location: self.icon_location@,
            description: self.description@,
            working_directory: self.working_directory@,
            arguments: self.arguments@,
            hotkey: self.hotkey@,
            window_style: self.window_style,
            target_path: self.target_path@,
        }
    }
}

impl Default for PowerShellLnkParseResult {
    /// The report with every text empty and window style zero.
    fn default() -> (out: PowerShellLnkParseResult)
        ensures
            out@ == (ShellReportView {
                icon_location: Seq::empty(),
                description: Seq::empty(),
                working_directory: Seq::empty(),
                arguments: Seq::empty(),
                hotkey: Seq::empty(),
                window_style: 0,
                target_path: Seq::empty(),
            }),
    {
        PowerShellLnkParseResult {
            icon_location: String::new(),
            description: String::new(),
            working_directory: String::new(),
            arguments: String::new(),
            hotkey: String::new(),
            window_style: 0,
            target_path: String::new(),
        }
    }
}

/// The name in the shell's report: the description, without a leading
/// `Runs `; where there is none, the stem of the name of the target's
/// directory.
pub open spec fn reported_name(report: ShellReportView) -> Option<Seq<char>> {
    if report.description.len() == 0 {
        match parent(report.target_path, PathStyle::Windows) {
            Some(dir) => file_stem(dir, PathStyle::Windows),
            None => None,
        }
    } else if has_prefix(report.description, "Runs "@) {
        Some(report.description.subrange(5, report.description.len() as int))
    } else {
        Some(report.description)
    }
}

/// The record of the shell's report.  The directory is empty where the
/// report names no working directory, else it is the directory of the
/// target.  None where a directory or a name is needed that the target does
/// not have.
pub open spec fn reported_app(report: ShellReportView) -> Option<AppView> {
    let dir = if report.working_directory.len() == 0 {
        Some(report.working_directory)
    } else {
        parent(report.target_path, PathStyle::Windows)
    };
    match (dir, reported_name(report)) {
        (Some(dir), Some(name)) => Some(
            AppView {
                name,
                localized_app_names: Map::empty(),
                icon_path: if report.icon_location.len() == 0 {
                    None
                } else {
                    Some(report.icon_location)
                },
                app_path_exe: Some(report.target_path),
                app_desktop_path: dir,
            },
        ),
        _ => None,
    }
}

/// The record of what the shell reports of a shortcut file; computes
/// `reported_app`.
pub fn parse_lnk_with_powershell_2(parsed_json: &PowerShellLnkParseResult) -> (out: Option<App>)
    ensures
        out is Some == reported_app(parsed_json@) is Some,
        out is Some ==> out->0@ == reported_app(parsed_json@)->0,
{
    let target_path = parsed_json.target_path.as_str();
    let working_directory = chars_of(parsed_json.working_directory.as_str());
    let desktop_path = if working_directory.len() == 0 {
        parsed_json.working_directory.clone()
    } else {
        match parent_of(target_path, PathStyle::Windows) {
            Some(dir) => dir,
            None => {
                return None;
            },
        }
    };
    let icon_location = chars_of(parsed_json.icon_location.as_str());
    let icon_path = if icon_location.len() == 0 {
        None
    } else {
        Some(parsed_json.icon_location.clone())
    };
    let desc = chars_of(parsed_json.description.as_str());
    let name = if desc.len() == 0 {
        match parent_of(target_path, PathStyle::Windows) {
            Some(dir) => match file_stem_of(dir.as_str(), PathStyle::Windows) {
                Some(stem) => stem,
                None => {
                    return None;
                },
            },
            None => {
                return None;
            },
        }
    } else {
        let prefix = chars_of("Runs ");
        proof {
            reveal_strlit("Runs ");
        }
        if starts_with(&desc, &prefix) {
            string_of(&slice_of(&desc, 5, desc.len()))
        } else {
            parsed_json.description.clone()
        }
    };
    Some(
        App {
            name,
            localized_app_names: TextMap::new(),
            icon_path,
            app_path_exe: Some(parsed_json.target_path.clone()),
            app_desktop_path: desktop_path,
        },
    )
}

/// The directories that are searched whatever the caller names: the start
/// menu of the user, whose application data are in `appdata`, and that of
/// the machine.
pub open spec fn default_search_paths(appdata: Seq<char>) -> Seq<Seq<char>> {
    seq![
        appdata + "\\Microsoft\\Windows\\Start Menu\\Programs"@,
        "C:\\ProgramData\\Microsoft\\Windows\\Start Menu\\Programs"@,
    ]
}

/// The start-menu directories of the user and of the machine; computes
/// `default_search_paths`.
pub fn get_default_search_paths(appdata: &str) -> (out: Vec<String>)
    ensures
        texts(out@) == default_search_paths(appdata@),
{
    let mut out: Vec<String> = Vec::new();
    out.push(
        string_of(
            &concat(&chars_of(appdata), &chars_of("\\Microsoft\\Windows\\Start Menu\\Programs")),
        ),
    );
    out.push("C:\\ProgramData\\Microsoft\\Windows\\Start Menu\\Programs".to_owned());
    assert(texts(out@) =~= default_search_paths(appdata@));
    out
}

/// What `serde_json::from_str` makes of a text as a list of values: for
/// each value, the string that it holds under each of `keys`, none where it
/// holds no string there.  None where the text is no list of values.
pub uninterp spec fn json_rows(json: Seq<char>, keys: Seq<Seq<char>>) -> Option<
    Seq<Seq<Option<Seq<char>>>>,
>;

/// The views of rows of optional strings.
pub open spec fn row_views(rows: Seq<Vec<Option<String>>>) -> Seq<Seq<Option<Seq<char>>>> {
    Seq::new(rows.len(), |i: int| Seq::new(rows[i]@.len(), |j: int| opt_text(rows[i]@[j])))
}

/// Calls `serde_json::from_str` for a list of values and reads each value
/// under each of `keys` with `Value::as_str`.  The result depends on the text
/// and the keys alone and is named `json_rows`; each row has one place for
/// each key.
#[verifier::external_body]
pub(crate) fn parse_json_rows(json: &str, keys: &Vec<String>) -> (out: Option<
    Vec<Vec<Option<String>>>,
>)
    ensures
        match out {
            Some(rows) => json_rows(json@, texts(keys@)) == Some(row_views(rows@)),
            None => json_rows(json@, texts(keys@)) is None,
        },
        out is Some ==> forall|i: int|
            0 <= i < out->0@.len() ==> (#[trigger] out->0@[i])@.len() == keys@.len(),
{
    let items = serde_json::from_str::<Vec<serde_json::Value>>(json).ok()?;
    Some(
        items.iter().map(
            |item| keys.iter().map(|key| item[key.as_str()].as_str().map(String::from)).collect(),
        ).collect(),
    )
}

/// The keys that are read of each installed package.
pub open spec fn package_keys() -> Seq<Seq<char>> {
    seq!["Name"@, "AppUserModelId"@, "InstallLocation"@]
}

/// The record of an installed package that has a name and an application
/// identifier.  It has no executable: such an application is started by its
/// identifier.
pub open spec fn package_app(row: Seq<Option<Seq<char>>>, disk: Disk) -> Option<AppView> {
    let install = match row[2] {
        Some(location) => location,
        None => Seq::empty(),
    };
    if row.len() == 3 && row[0] is Some && row[1] is Some {
        Some(
            AppView {
                name: row[0]->0,
                localized_app_names: Map::empty(),
                icon_path: package_icon(install, disk),
                app_path_exe: None,
                app_desktop_path: install,
            },
        )
    } else {
        None
    }
}

/// The records of the first `upto` packages.
pub open spec fn package_apps(rows: Seq<Seq<Option<Seq<char>>>>, disk: Disk, upto: int) -> Seq<
    AppView,
>
    decreases upto,
{
    if upto <= 0 {
        Seq::empty()
    } else {
        let before = package_apps(rows, disk, upto - 1);
        match package_app(rows[upto - 1], disk) {
            Some(app) => before.push(app),
            None => before,
        }
    }
}

/// Why the installed packages could not be had.
#[derive(Clone, Copy, Debug, PartialEq, Eq, Structural)]
pub enum PackageError {
    /// The package query did not run or ended without success.
    QueryFailed,
    /// The package query wrote what is no list of values.
    Unreadable,
}

/// The rows that the output of the package query holds, one for each value
/// of the list with the strings under `package_keys`; the failure where the
/// query did not run, ended without success, or wrote what is no list.
pub open spec fn package_rows(output: Option<ProcessOutput>) -> Result<
    Seq<Seq<Option<Seq<char>>>>,
    PackageError,
> {
    match output {
        Some(o) => if o.success {
            match json_rows(utf8_lossy(o.stdout@), package_keys()) {
                Some(rows) => Ok(rows),
                None => Err(PackageError::Unreadable),
            }
        } else {
            Err(PackageError::QueryFailed)
        },
        None => Err(PackageError::QueryFailed),
    }
}

/// The records of the installed packages, or why they could not be had.
pub open spec fn package_outcome(output: Option<ProcessOutput>, disk: Disk) -> Result<
    Seq<AppView>,
    PackageError,
> {
    match package_rows(output) {
        Ok(rows) => Ok(package_apps(rows, disk, rows.len() as int)),
        Err(e) => Err(e),
    }
}

/// The records that the installed packages add to an enumeration: none where
/// they could not be had, so that the other sources are not affected.
pub open spec fn store_apps(output: Option<ProcessOutput>, disk: Disk) -> Seq<AppView> {
    match package_outcome(output, disk) {
        Ok(apps) => apps,
        Err(_) => Seq::empty(),
    }
}

/// The directories in which the first `upto` packages of `rows` are
/// installed, for the packages that name one.
pub open spec fn install_locations(rows: Seq<Seq<Option<Seq<char>>>>, upto: int) -> Seq<Seq<char>>
    decreases upto,
{
    if upto <= 0 {
        Seq::empty()
    } else {
        let before = install_locations(rows, upto - 1);
        if rows[upto - 1].len() == 3 && rows[upto - 1][2] is Some {
            before.push(rows[upto - 1][2]->0)
        } else {
            before
        }
    }
}

/// The directories in which the packages of the query's output are
/// installed: what a snapshot has to hold of the disk for the icons of the
/// packages to be found.  None where the packages could not be had.
pub open spec fn package_locations(output: Option<ProcessOutput>) -> Seq<Seq<char>> {
    match package_rows(output) {
        Ok(rows) => install_locations(rows, rows.len() as int),
        Err(_) => Seq::empty(),
    }
}

/// The records of the rows that the package list was read into.
pub fn apps_of_packages(rows: &Vec<Vec<Option<String>>>, disk: &Disk) -> (out: Vec<App>)
    ensures
        app_views(out@) == package_apps(row_views(rows@), *disk, rows@.len() as int),
{
    let mut apps: Vec<App> = Vec::new();
    let mut i: usize = 0;
    assert(app_views(apps@) =~= package_apps(row_views(rows@), *disk, 0));
    while i < rows.len()
        invariant
            i <= rows.len(),
            app_views(apps@) == package_apps(row_views(rows@), *disk, i as int),
        decreases rows.len() - i,
    {
        let ghost before = app_views(apps@);
        let row = &rows[i];
        assert(row_views(rows@)[i as int] == Seq::new(
            row@.len(),
            |j: int| opt_text(row@[j]),
        ));
        if row.len() == 3 {
            if let (Some(name), Some(_)) = (&row[0], &row[1]) {
                let install_location = match &row[2] {
                    Some(location) => location.clone(),
                    None => String::new(),
                };
                let icon_path = find_uwp_icon(install_location.as_str(), disk);
                let app = App {
                    name: name.clone(),
                    localized_app_names: TextMap::new(),
                    icon_path,
                    app_path_exe: None,
                    app_desktop_path: install_location,
                };
                apps.push(app);
                assert(app_views(apps@) =~= before.push(app@));
            }
        }
        i += 1;
    }
    apps
}

/// Reads the output of the package query into rows; computes
/// `package_rows`.
pub fn read_packages(output: &Option<ProcessOutput>) -> (out: Result<
    Vec<Vec<Option<String>>>,
    PackageError,
>)
    ensures
        match (out, package_rows(*output)) {
            (Ok(rows), Ok(wanted)) => row_views(rows@) == wanted && forall|i: int|
                0 <= i < rows@.len() ==> (#[trigger] rows@[i])@.len() == 3,
            (Err(e), Err(f)) => e == f,
            _ => false,
        },
{
    match output {
        Some(o) => {
            if !o.success {
                return Err(PackageError::QueryFailed);
            }
            let json_output = std_utf8_lossy(&o.stdout);
            let mut keys: Vec<String> = Vec::new();
            keys.push("Name".to_owned());
            keys.push("AppUserModelId".to_owned());
            keys.push("InstallLocation".to_owned());
            assert(texts(keys@) =~= package_keys());
            match parse_json_rows(json_output.as_str(), &keys) {
                Some(rows) => Ok(rows),
                None => Err(PackageError::Unreadable),
            }
        },
        None => Err(PackageError::QueryFailed),
    }
}

/// The applications among the installed packages, or the failure of the
/// package query; computes `package_outcome`.
pub fn get_uwp_apps_powershell(output: &Option<ProcessOutput>, disk: &Disk) -> (out: Result<
    Vec<App>,
    PackageError,
>)
    ensures
        match (out, package_outcome(*output, *disk)) {
            (Ok(apps), Ok(wanted)) => app_views(apps@) == wanted,
            (Err(e), Err(f)) => e == f,
            _ => false,
        },
{
    match read_packages(output) {
        Ok(rows) => Ok(apps_of_packages(&rows, disk)),
        Err(e) => Err(e),
    }
}

/// Computes `package_locations`.
pub fn locations_of_packages(output: &Option<ProcessOutput>) -> (out: Vec<String>)
    ensures
        texts(out@) == package_locations(*output),
{
    let mut out: Vec<String> = Vec::new();
    let rows = match read_packages(output) {
        Ok(rows) => rows,
        Err(_) => {
            assert(texts(out@) =~= Seq::<Seq<char>>::empty());
            return out;
        },
    };
    let mut i: usize = 0;
    assert(texts(out@) =~= install_locations(row_views(rows@), 0));
    while i < rows.len()
        invariant
            i <= rows.len(),
            texts(out@) == install_locations(row_views(rows@), i as int),
        decreases rows.len() - i,
    {
        let ghost before = texts(out@);
        let row = &rows[i];
        assert(row_views(rows@)[i as int] == Seq::new(row@.len(), |j: int| opt_text(row@[j])));
        if row.len() == 3 {
            if let Some(location) = &row[2] {
                out.push(location.clone());
                assert(texts(out@) =~= before.push(location@));
            }
        }
        i += 1;
    }
    out
}

/// How deep `path` stands below `dir`: 0 for `dir` itself, 1 for what stands
/// directly in it.  None where `path` is not `dir` and not below it.
pub open spec fn depth_below(path: Seq<char>, dir: Seq<char>) -> Option<nat> {
    let seps = PathStyle::Windows.separators();
    if path == dir {
        Some(0)
    } else if !has_prefix(path, dir) || path.len() <= dir.len() {
        None
    } else if dir.len() > 0 && seps.holds(dir.last()) {
        Some(1 + count_in(path, seps, dir.len() as int, path.len() as int))
    } else if seps.holds(path[dir.len() as int]) {
        Some(1 + count_in(path, seps, (dir.len() + 1) as int, path.len() as int))
    } else {
        None
    }
}

/// Whether `path` is `dir` or stands at most three levels below it.
pub open spec fn is_near(path: Seq<char>, dir: Seq<char>) -> bool {
    depth_below(path, dir) is Some && depth_below(path, dir)->0 <= 3
}

/// Tests `is_near`.
fn near(path: &Vec<char>, dir: &Vec<char>) -> (r: bool)
    ensures
        r == is_near(path@, dir@),
{
    let seps = PathStyle::Windows.seps();
    if same_text(path, dir) {
        return true;
    }
    if !starts_with(path, dir) || path.len() <= dir.len() {
        return false;
    }
    if dir.len() > 0 && seps.test(dir[dir.len() - 1]) {
        count_set(path, seps, dir.len(), path.len()) <= 2
    } else if seps.test(path[dir.len()]) {
        count_set(path, seps, dir.len() + 1, path.len()) <= 2
    } else {
        false
    }
}

/// What the caller hands in of the machine's state, besides the snapshot of
/// the disk.
#[derive(Debug)]
pub struct Sources {
    /// The directory of the user's application data.
    pub appdata: String,
    /// The shortcut files that could be decoded, by path.
    pub shortcuts: Vec<(String, ShortcutRecord)>,
    /// The application-path keys of the registry, those of the machine first.
    pub registry: Vec<RegistryAppPath>,
    /// The search path for executables, if it is set.
    pub path_var: Option<String>,
    /// What the package query returned, if it ran.
    pub packages: Option<ProcessOutput>,
    /// The environment variables that placeholders are resolved against.
    pub env: TextMap,
}

/// The index of the first decoded shortcut at or after `from` whose path is
/// `path`, or the number of decoded shortcuts.
pub open spec fn shortcut_slot_from(
    shortcuts: Seq<(String, ShortcutRecord)>,
    path: Seq<char>,
    from: int,
) -> int
    decreases shortcuts.len() - from,
{
    if from >= shortcuts.len() {
        shortcuts.len() as int
    } else if shortcuts[from].0@ == path {
        from
    } else {
        shortcut_slot_from(shortcuts, path, from + 1)
    }
}

/// The decoded shortcut at `path`.
pub open spec fn decoded_shortcut(
    shortcuts: Seq<(String, ShortcutRecord)>,
    path: Seq<char>,
) -> Option<
    ShortcutView,
> {
    if shortcut_slot_from(shortcuts, path, 0) < shortcuts.len() {
        Some(shortcuts[shortcut_slot_from(shortcuts, path, 0)].1@)
    } else {
        None
    }
}

/// Computes `decoded_shortcut`.
pub fn find_shortcut<'a>(shortcuts: &'a Vec<(String, ShortcutRecord)>, path: &str) -> (out: Option<
    &'a ShortcutRecord,
>)
    ensures
        opt_shortcut(out) == decoded_shortcut(shortcuts@, path@),
{
    let mut i: usize = 0;
    while i < shortcuts.len()
        invariant
            i <= shortcuts.len(),
            shortcut_slot_from(shortcuts@, path@, i as int) == shortcut_slot_from(
                shortcuts@,
                path@,
                0,
            ),
        decreases shortcuts.len() - i,
    {
        if str_eq(shortcuts[i].0.as_str(), path) {
            return Some(&shortcuts[i].1);
        }
        i += 1;
    }
    None
}

/// The record that entry `i` of the disk adds to those of the directory
/// `dir`: that of a shortcut file at most three levels below `dir`.
pub open spec fn walked_shortcut(sources: Sources, disk: Disk, dir: Seq<char>, i: int) -> Option<
    AppView,
> {
    let path = disk.entries[i].path@;
    if is_near(path, dir) && disk.is_file(path) {
        path_app(path, decoded_shortcut(sources.shortcuts@, path), sources.env@, disk)
    } else {
        None
    }
}

/// The records that the first `upto` entries of the disk add to those of
/// `dir`.
pub open spec fn directory_shortcuts(
    sources: Sources,
    disk: Disk,
    dir: Seq<char>,
    upto: int,
) -> Seq<
    AppView,
>
    decreases upto,
{
    if upto <= 0 {
        Seq::empty()
    } else {
        let before = directory_shortcuts(sources, disk, dir, upto - 1);
        match walked_shortcut(sources, disk, dir, upto - 1) {
            Some(app) => before.push(app),
            None => before,
        }
    }
}

/// The records of the shortcuts of the first `upto` of `dirs`; a directory
/// that is not on the disk adds none.
pub open spec fn shortcut_apps(
    sources: Sources,
    disk: Disk,
    dirs: Seq<Seq<char>>,
    upto: int,
) -> Seq<
    AppView,
>
    decreases upto,
{
    if upto <= 0 {
        Seq::empty()
    } else {
        let before = shortcut_apps(sources, disk, dirs, upto - 1);
        if disk.present(dirs[upto - 1]) {
            before + directory_shortcuts(sources, disk, dirs[upto - 1], disk.entries@.len() as int)
        } else {
            before
        }
    }
}

/// The directories in which shortcuts are looked for: the default ones, then
/// those that the caller names, each once.
pub open spec fn shortcut_dirs(search_paths: Seq<Seq<char>>, appdata: Seq<char>) -> Seq<Seq<char>> {
    let all = default_search_paths(appdata) + search_paths;
    distinct(all, all.len() as int)
}

/// All records before they are merged: those of the shortcuts, of the
/// registry, of the search path and of the installed packages, in this
/// order.
pub open spec fn all_candidates(search_paths: Seq<Seq<char>>, sources: Sources, disk: Disk) -> Seq<
    AppView,
> {
    let dirs = shortcut_dirs(search_paths, sources.appdata@);
    shortcut_apps(sources, disk, dirs, dirs.len() as int) + registry_apps(
        registry_views(sources.registry@),
        sources.env@,
        disk,
        sources.registry@.len() as int,
    ) + path_env_apps(opt_text(sources.path_var), disk) + store_apps(sources.packages, disk)
}

/// Whether a record of `apps` has the executable `exe`.
pub open spec fn has_executable(apps: Seq<AppView>, exe: Seq<char>) -> bool {
    exists|i: int| 0 <= i < apps.len() && #[trigger] apps[i].app_path_exe == Some(exe)
}

/// The first `upto` records merged by executable: of records with one
/// executable the first stays.  A record without an executable, such as
/// that of a package that is started by its identifier, always stays.
pub open spec fn merged(apps: Seq<AppView>, upto: int) -> Seq<AppView>
    decreases upto,
{
    if upto <= 0 {
        Seq::empty()
    } else {
        let before = merged(apps, upto - 1);
        match apps[upto - 1].app_path_exe {
            Some(exe) => if has_executable(before, exe) {
                before
            } else {
                before.push(apps[upto - 1])
            },
            None => before.push(apps[upto - 1]),
        }
    }
}

/// Whether no executable is named by two records.
pub open spec fn executables_differ(apps: Seq<AppView>) -> bool {
    forall|i: int, j: int|
        0 <= i < apps.len() && 0 <= j < apps.len() && i != j && (#[trigger] apps[i]).app_path_exe
            is Some ==> apps[i].app_path_exe != (#[trigger] apps[j]).app_path_exe
}

/// The text by which records are ordered: the name in lower case.
pub open spec fn order_key(app: AppView) -> Seq<char> {
    lowercase_of(app.name)
}

/// Where `app` is placed among the first `upto` of the ordered records
/// `sorted`: behind the last record whose key does not come after its own.
pub open spec fn place_of(sorted: Seq<AppView>, app: AppView, upto: int) -> int
    decreases upto,
{
    if upto > 0 && text_before(order_key(app), order_key(sorted[upto - 1])) {
        place_of(sorted, app, upto - 1)
    } else if upto > 0 {
        upto
    } else {
        0
    }
}

/// The first `upto` records ordered by `order_key`; records with equal keys
/// keep their order.
pub open spec fn ordered(apps: Seq<AppView>, upto: int) -> Seq<AppView>
    decreases upto,
{
    if upto <= 0 {
        Seq::empty()
    } else {
        let before = ordered(apps, upto - 1);
        before.insert(place_of(before, apps[upto - 1], before.len() as int), apps[upto - 1])
    }
}

/// What an enumeration returns.
pub open spec fn enumerated(search_paths: Seq<Seq<char>>, sources: Sources, disk: Disk) -> Seq<
    AppView,
> {
    let all = all_candidates(search_paths, sources, disk);
    let kept = merged(all, all.len() as int);
    ordered(kept, kept.len() as int)
}

/// Tests `has_executable`.
fn holds_executable(apps: &Vec<App>, exe: &str) -> (r: bool)
    ensures
        r == has_executable(app_views(apps@), exe@),
{
    let mut i: usize = 0;
    while i < apps.len()
        invariant
            i <= apps.len(),
            forall|j: int| 0 <= j < i ==> app_views(apps@)[j].app_path_exe != Some(exe@),
        decreases apps.len() - i,
    {
        let same = match &apps[i].app_path_exe {
            Some(other) => str_eq(other.as_str(), exe),
            None => false,
        };
        if same {
            assert(app_views(apps@)[i as int].app_path_exe == Some(exe@));
            return true;
        }
        i += 1;
    }
    false
}

/// Merges records by executable: of records with one executable the first
/// stays, and a record without an executable always stays.  Computes
/// `merged`.
pub fn merge_by_executable(apps: &Vec<App>) -> (out: Vec<App>)
    ensures
        app_views(out@) == merged(app_views(apps@), apps@.len() as int),
{
    let mut all_apps: Vec<App> = Vec::new();
    let mut i: usize = 0;
    assert(app_views(all_apps@) =~= merged(app_views(apps@), 0));
    while i < apps.len()
        invariant
            i <= apps.len(),
            app_views(all_apps@) == merged(app_views(apps@), i as int),
        decreases apps.len() - i,
    {
        let ghost before = app_views(all_apps@);
        let stays = match &apps[i].app_path_exe {
            Some(app_path) => !holds_executable(&all_apps, app_path.as_str()),
            None => true,
        };
        if stays {
            all_apps.push(apps[i].clone());
            assert(app_views(all_apps@) =~= before.push(apps[i as int]@));
        }
        i += 1;
    }
    all_apps
}

/// Whether the key of `a` comes before that of `b`.
fn key_before(a: &App, b: &App) -> (r: bool)
    ensures
        r == text_before(order_key(a@), order_key(b@)),
{
    comes_before(
        &chars_of(std_lowercase(a.name.as_str()).as_str()),
        &chars_of(std_lowercase(b.name.as_str()).as_str()),
    )
}

/// Orders records by name in lower case; records with equal keys keep their
/// order.  Computes `ordered`.
pub fn sort_by_name(apps: &Vec<App>) -> (out: Vec<App>)
    ensures
        app_views(out@) == ordered(app_views(apps@), apps@.len() as int),
{
    let mut sorted: Vec<App> = Vec::new();
    let mut i: usize = 0;
    assert(app_views(sorted@) =~= ordered(app_views(apps@), 0));
    while i < apps.len()
        invariant
            i <= apps.len(),
            app_views(sorted@) == ordered(app_views(apps@), i as int),
        decreases apps.len() - i,
    {
        let ghost before = app_views(sorted@);
        let app = apps[i].clone();
        let mut pos: usize = sorted.len();
        while pos > 0 && key_before(&app, &sorted[pos - 1])
            invariant
                pos <= sorted.len(),
                before == app_views(sorted@),
                place_of(before, app@, pos as int) == place_of(before, app@, before.len() as int),
            decreases pos,
        {
            pos -= 1;
        }
        sorted.insert(pos, app);
        assert(app_views(sorted@) =~= before.insert(pos as int, apps[i as int]@));
        i += 1;
    }
    sorted
}

/// Computes `directory_shortcuts`.
fn shortcuts_in(dir: &str, sources: &Sources, disk: &Disk) -> (out: Vec<App>)
    ensures
        app_views(out@) == directory_shortcuts(*sources, *disk, dir@, disk.entries@.len() as int),
{
    let base = chars_of(dir);
    let mut apps: Vec<App> = Vec::new();
    let mut i: usize = 0;
    assert(app_views(apps@) =~= directory_shortcuts(*sources, *disk, dir@, 0));
    while i < disk.entries.len()
        invariant
            i <= disk.entries.len(),
            base@ == dir@,
            app_views(apps@) == directory_shortcuts(*sources, *disk, dir@, i as int),
        decreases disk.entries.len() - i,
    {
        let ghost before = app_views(apps@);
        let path = disk.entries[i].path.as_str();
        if near(&chars_of(path), &base) && disk.has_file(path) {
            let lnk = find_shortcut(&sources.shortcuts, path);
            if let Some(app) = from_path(path, lnk, &sources.env, disk) {
                apps.push(app);
                assert(app_views(apps@) =~= before.push(app@));
            }
        }
        i += 1;
    }
    apps
}

/// All applications: those of the shortcuts of the start-menu directories
/// and of `search_paths`, of the registry, of the search path for executables
/// and of the installed packages; merged by executable, so that of records
/// with one executable the first stays, while a record without an executable
/// always stays; ordered by name in lower case.
pub fn get_all_apps(search_paths: &Vec<String>, sources: &Sources, disk: &Disk) -> (out: Vec<App>)
    ensures
        app_views(out@) == enumerated(texts(search_paths@), *sources, *disk),
{
    let mut path_set: Vec<String> = Vec::new();
    let defaults = get_default_search_paths(sources.appdata.as_str());
    let ghost all_dirs = default_search_paths(sources.appdata@) + texts(search_paths@);
    assert(texts(path_set@) =~= distinct(all_dirs, 0));
    let mut i: usize = 0;
    while i < defaults.len()
        invariant
            i <= defaults.len(),
            all_dirs == default_search_paths(sources.appdata@) + texts(search_paths@),
            texts(defaults@) == default_search_paths(sources.appdata@),
            texts(path_set@) == distinct(all_dirs, i as int),
        decreases defaults.len() - i,
    {
        assert(all_dirs[i as int] == texts(defaults@)[i as int]);
        push_new(&mut path_set, defaults[i].clone());
        i += 1;
    }
    let mut j: usize = 0;
    while j < search_paths.len()
        invariant
            j <= search_paths.len(),
            all_dirs == default_search_paths(sources.appdata@) + texts(search_paths@),
            texts(defaults@) == default_search_paths(sources.appdata@),
            texts(path_set@) == distinct(all_dirs, defaults.len() + j),
        decreases search_paths.len() - j,
    {
        assert(all_dirs[defaults.len() + j] == texts(search_paths@)[j as int]);
        push_new(&mut path_set, search_paths[j].clone());
        j += 1;
    }
    let ghost dirs = shortcut_dirs(texts(search_paths@), sources.appdata@);
    assert(texts(path_set@) == dirs);
    let mut all_apps: Vec<App> = Vec::new();
    let mut k: usize = 0;
    assert(app_views(all_apps@) =~= shortcut_apps(*sources, *disk, dirs, 0));
    while k < path_set.len()
        invariant
            k <= path_set.len(),
            texts(path_set@) == dirs,
            app_views(all_apps@) == shortcut_apps(*sources, *disk, dirs, k as int),
        decreases path_set.len() - k,
    {
        assert(dirs[k as int] == path_set[k as int]@);
        if disk.has(path_set[k].as_str()) {
            let mut found = shortcuts_in(path_set[k].as_str(), sources, disk);
            let ghost before = app_views(all_apps@);
            let ghost more = app_views(found@);
            all_apps.append(&mut found);
            assert(app_views(all_apps@) =~= before + more);
        }
        k += 1;
    }
    let mut registry_apps = get_apps_from_registry(&sources.registry, &sources.env, disk);
    let mut path_apps = get_apps_from_path_env(&sources.path_var, disk);
    let mut uwp_apps = match get_uwp_apps_powershell(&sources.packages, disk) {
        Ok(apps) => apps,
        Err(_) => Vec::new(),
    };
    let ghost a = app_views(all_apps@);
    let ghost b = app_views(registry_apps@);
    let ghost c = app_views(path_apps@);
    let ghost d = app_views(uwp_apps@);
    all_apps.append(&mut registry_apps);
    assert(app_views(all_apps@) =~= a + b);
    all_apps.append(&mut path_apps);
    assert(app_views(all_apps@) =~= a + b + c);
    all_apps.append(&mut uwp_apps);
    assert(app_views(all_apps@) =~= a + b + c + d);
    let kept = merge_by_executable(&all_apps);
    sort_by_name(&kept)
}

/// Whether no record comes after a record whose key comes after its own.
pub open spec fn in_order(apps: Seq<AppView>) -> bool {
    forall|i: int, j: int|
        0 <= i < j < apps.len() ==> !text_before(
            order_key(#[trigger] apps[j]),
            order_key(#[trigger] apps[i]),
        )
}

/// The key of `app` comes before the key of every record from its place on,
/// and not before the key of the record in front of its place.
pub proof fn lemma_place_of(sorted: Seq<AppView>, app: AppView, upto: int)
    requires
        0 <= upto <= sorted.len(),
    ensures
        0 <= place_of(sorted, app, upto) <= upto,
        forall|k: int|
            place_of(sorted, app, upto) <= k < upto ==> text_before(
                order_key(app),
                order_key(#[trigger] sorted[k]),
            ),
        place_of(sorted, app, upto) > 0 ==> !text_before(
            order_key(app),
            order_key(sorted[place_of(sorted, app, upto) - 1]),
        ),
    decreases upto,
{
    if upto > 0 && text_before(order_key(app), order_key(sorted[upto - 1])) {
        lemma_place_of(sorted, app, upto - 1);
    }
}

/// The records come out ordered by name in lower case, and they are the
/// records that went in: each as often as it went in.
pub proof fn lemma_ordered(apps: Seq<AppView>, upto: int)
    requires
        0 <= upto <= apps.len(),
    ensures
        in_order(ordered(apps, upto)),
        ordered(apps, upto).len() == upto,
        ordered(apps, upto).to_multiset() == apps.take(upto).to_multiset(),
    decreases upto,
{
    broadcast use vstd::seq_lib::group_to_multiset_ensures;

    if upto > 0 {
        lemma_ordered(apps, upto - 1);
        let before = ordered(apps, upto - 1);
        let app = apps[upto - 1];
        let pos = place_of(before, app, before.len() as int);
        lemma_place_of(before, app, before.len() as int);
        let after = ordered(apps, upto);
        assert(after == before.insert(pos, app));
        assert forall|i: int, j: int| 0 <= i < j < after.len() implies !text_before(
            order_key(#[trigger] after[j]),
            order_key(#[trigger] after[i]),
        ) by {
            if j < pos {
                assert(after[i] == before[i] && after[j] == before[j]);
            } else if j == pos {
                assert(after[i] == before[i]);
                if i < pos - 1 {
                    if text_before(order_key(app), order_key(before[i])) {
                        lemma_text_before_between(
                            order_key(app),
                            order_key(before[pos - 1]),
                            order_key(before[i]),
                        );
                    }
                }
            } else if i < pos {
                assert(after[i] == before[i] && after[j] == before[j - 1]);
            } else if i == pos {
                assert(after[j] == before[j - 1]);
                lemma_text_before_asymmetric(order_key(app), order_key(before[j - 1]));
            } else {
                assert(after[i] == before[i - 1] && after[j] == before[j - 1]);
            }
        }
        assert(apps.take(upto) =~= apps.take(upto - 1).push(app));
    } else {
        assert(apps.take(0) =~= Seq::<AppView>::empty());
    }
}

/// After merging no executable is named by two records, the executables
/// are those of the records that went in, and every record without an
/// executable is still there.
pub proof fn lemma_merged(apps: Seq<AppView>, upto: int)
    requires
        0 <= upto <= apps.len(),
    ensures
        executables_differ(merged(apps, upto)),
        forall|exe: Seq<char>| #[trigger]
            has_executable(merged(apps, upto), exe) <==> has_executable(apps.take(upto), exe),
        forall|k: int|
            0 <= k < upto && (#[trigger] apps[k]).app_path_exe is None ==> merged(
                apps,
                upto,
            ).contains(apps[k]),
    decreases upto,
{
    if upto > 0 {
        lemma_merged(apps, upto - 1);
        let before = merged(apps, upto - 1);
        let after = merged(apps, upto);
        let app = apps[upto - 1];
        let shorter = apps.take(upto - 1);
        let longer = apps.take(upto);
        let stays = app.app_path_exe is None || !has_executable(before, app.app_path_exe->0);
        assert(after == if stays {
            before.push(app)
        } else {
            before
        });
        assert forall|exe: Seq<char>| #[trigger]
            has_executable(after, exe) <==> has_executable(longer, exe) by {
            if has_executable(after, exe) {
                let i = choose|i: int|
                    0 <= i < after.len() && #[trigger] after[i].app_path_exe == Some(exe);
                if i < before.len() {
                    assert(before[i].app_path_exe == Some(exe));
                    assert(has_executable(before, exe));
                    assert(has_executable(shorter, exe));
                    let k = choose|k: int|
                        0 <= k < shorter.len() && #[trigger] shorter[k].app_path_exe == Some(exe);
                    assert(longer[k].app_path_exe == Some(exe));
                } else {
                    assert(longer[upto - 1].app_path_exe == Some(exe));
                }
            }
            if has_executable(longer, exe) {
                let k = choose|k: int|
                    0 <= k < longer.len() && #[trigger] longer[k].app_path_exe == Some(exe);
                if k < upto - 1 {
                    assert(shorter[k].app_path_exe == Some(exe));
                    assert(has_executable(before, exe));
                    let i = choose|i: int|
                        0 <= i < before.len() && #[trigger] before[i].app_path_exe == Some(exe);
                    assert(after[i].app_path_exe == Some(exe));
                } else if has_executable(before, exe) {
                    let i = choose|i: int|
                        0 <= i < before.len() && #[trigger] before[i].app_path_exe == Some(exe);
                    assert(after[i].app_path_exe == Some(exe));
                } else {
                    assert(after[before.len() as int].app_path_exe == Some(exe));
                }
            }
        }
        assert forall|i: int, j: int|
            0 <= i < after.len() && 0 <= j < after.len() && i != j && (#[trigger] after[i])
                .app_path_exe is Some implies after[i].app_path_exe != (#[trigger] after[j])
            .app_path_exe by {
            if i < before.len() && j < before.len() {
                assert(before[i].app_path_exe is Some);
            } else if i < before.len() {
                if before[i].app_path_exe == app.app_path_exe {
                    assert(has_executable(before, app.app_path_exe->0));
                }
            } else {
                if before[j].app_path_exe == app.app_path_exe {
                    assert(has_executable(before, app.app_path_exe->0));
                }
            }
        }
        assert forall|k: int|
            0 <= k < upto && (#[trigger] apps[k]).app_path_exe is None implies after.contains(
            apps[k],
        ) by {
            if k < upto - 1 {
                assert(before.contains(apps[k]));
                let m = choose|m: int| 0 <= m < before.len() && before[m] == apps[k];
                assert(after[m] == apps[k]);
            } else {
                assert(after[before.len() as int] == apps[k]);
            }
        }
    } else {
        assert forall|exe: Seq<char>| #[trigger]
            has_executable(merged(apps, upto), exe) <==> has_executable(apps.take(upto), exe) by {
            assert(!has_executable(apps.take(0), exe));
        }
    }
}

/// Ordering keeps apart what merging has set apart: where no executable is
/// named by two of the records that go in, none is named by two of those
/// that come out, and every executable that comes out went in.
pub proof fn lemma_ordered_keeps_executables(apps: Seq<AppView>, upto: int)
    requires
        0 <= upto <= apps.len(),
        executables_differ(apps),
    ensures
        executables_differ(ordered(apps, upto)),
        forall|exe: Seq<char>| #[trigger]
            has_executable(ordered(apps, upto), exe) ==> has_executable(apps.take(upto), exe),
    decreases upto,
{
    if upto > 0 {
        lemma_ordered_keeps_executables(apps, upto - 1);
        let before = ordered(apps, upto - 1);
        let app = apps[upto - 1];
        let pos = place_of(before, app, before.len() as int);
        lemma_place_of(before, app, before.len() as int);
        let after = ordered(apps, upto);
        let shorter = apps.take(upto - 1);
        let longer = apps.take(upto);
        assert(after == before.insert(pos, app));
        assert forall|exe: Seq<char>| #[trigger] has_executable(after, exe) implies has_executable(
            longer,
            exe,
        ) by {
            let i = choose|i: int|
                0 <= i < after.len() && #[trigger] after[i].app_path_exe == Some(exe);
            if i == pos {
                assert(longer[upto - 1].app_path_exe == Some(exe));
            } else {
                let m = if i < pos {
                    i
                } else {
                    i - 1
                };
                assert(before[m].app_path_exe == Some(exe));
                assert(has_executable(before, exe));
                assert(has_executable(shorter, exe));
                let k = choose|k: int|
                    0 <= k < shorter.len() && #[trigger] shorter[k].app_path_exe == Some(exe);
                assert(longer[k].app_path_exe == Some(exe));
            }
        }
        assert forall|i: int, j: int|
            0 <= i < after.len() && 0 <= j < after.len() && i != j && (#[trigger] after[i])
                .app_path_exe is Some implies after[i].app_path_exe != (#[trigger] after[j])
            .app_path_exe by {
            let m = if i < pos {
                i
            } else {
                i - 1
            };
            let n = if j < pos {
                j
            } else {
                j - 1
            };
            if i != pos && j != pos {
                assert(after[i] == before[m] && after[j] == before[n]);
                assert(before[m].app_path_exe is Some);
            } else {
                // One of the two is the record that was placed; the other was there before.
                let other = if i == pos {
                    n
                } else {
                    m
                };
                assert(after[if i == pos {
                    j
                } else {
                    i
                }] == before[other]);
                if before[other].app_path_exe == app.app_path_exe {
                    assert(has_executable(before, app.app_path_exe->0));
                    assert(has_executable(shorter, app.app_path_exe->0));
                    let k = choose|k: int|
                        0 <= k < shorter.len() && #[trigger] shorter[k].app_path_exe
                            == app.app_path_exe;
                    assert(apps[k].app_path_exe is Some);
                    assert(apps[k].app_path_exe != apps[upto - 1].app_path_exe);
                }
            }
        }
    } else {
        assert forall|exe: Seq<char>| #[trigger]
            has_executable(ordered(apps, upto), exe) implies has_executable(
            apps.take(upto),
            exe,
        ) by {
            assert(ordered(apps, upto).len() == 0);
        }
    }
}

/// What is enumerated is ordered by name in lower case and names no
/// executable twice.
pub proof fn lemma_enumerated_is_ordered_and_merged(
    search_paths: Seq<Seq<char>>,
    sources: Sources,
    disk: Disk,
)
    ensures
        in_order(enumerated(search_paths, sources, disk)),
        executables_differ(enumerated(search_paths, sources, disk)),
{
    let all = all_candidates(search_paths, sources, disk);
    let kept = merged(all, all.len() as int);
    lemma_merged(all, all.len() as int);
    lemma_ordered(kept, kept.len() as int);
    lemma_ordered_keeps_executables(kept, kept.len() as int);
}

/// The record of a package names no executable.
pub proof fn lemma_package_apps_name_no_executable(
    rows: Seq<Seq<Option<Seq<char>>>>,
    disk: Disk,
    upto: int,
)
    ensures
        forall|k: int|
            0 <= k < package_apps(rows, disk, upto).len() ==> (#[trigger] package_apps(
                rows,
                disk,
                upto,
            )[k]).app_path_exe is None,
    decreases upto,
{
    if upto > 0 {
        lemma_package_apps_name_no_executable(rows, disk, upto - 1);
    }
}

/// A package that is installed is enumerated: the record of every package
/// of the query's output that has a name and an application identifier is
/// among the records, though it names no executable.
pub proof fn lemma_packages_are_enumerated(
    search_paths: Seq<Seq<char>>,
    sources: Sources,
    disk: Disk,
    app: AppView,
)
    requires
        store_apps(sources.packages, disk).contains(app),
    ensures
        enumerated(search_paths, sources, disk).contains(app),
        app.app_path_exe is None,
{
    broadcast use vstd::seq_lib::group_to_multiset_ensures;

    let rows = package_rows(sources.packages);
    if rows is Ok {
        lemma_package_apps_name_no_executable(rows->Ok_0, disk, rows->Ok_0.len() as int);
    }

    let all = all_candidates(search_paths, sources, disk);
    let kept = merged(all, all.len() as int);
    let sorted = ordered(kept, kept.len() as int);
    let packages = store_apps(sources.packages, disk);
    let k = choose|k: int| 0 <= k < packages.len() && packages[k] == app;
    let at = all.len() - packages.len() + k;
    assert(all[at] == app);
    lemma_merged(all, all.len() as int);
    assert(kept.contains(all[at]));
    lemma_ordered(kept, kept.len() as int);
    assert(kept.take(kept.len() as int) == kept);
    assert(kept.to_multiset().count(app) > 0);
    assert(sorted.to_multiset().count(app) > 0);
}

} // verus!
