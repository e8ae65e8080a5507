//! The application record that every platform produces.

use crate::text::{contains_text, copy_opt, has_text, opt_eq, opt_text, str_eq};
use vstd::prelude::*;

verus! {

/// A map from text to text, such as display names by locale identifier.
///
/// Kept as a list of entries in which a later entry for a key replaces an
/// earlier one; its view is the resulting map.
#[derive(Debug)]
pub struct TextMap {
    entries: Vec<(String, String)>,
}

/// The map that a list of entries stands for.
pub open spec fn map_of(entries: Seq<(String, String)>) -> Map<Seq<char>, Seq<char>>
    decreases entries.len(),
{
    if entries.len() == 0 {
        Map::empty()
    } else {
        map_of(entries.drop_last()).insert(entries.last().0@, entries.last().1@)
    }
}

/// The value that a list of entries gives for `key`.
pub open spec fn lookup(entries: Seq<(String, String)>, key: Seq<char>) -> Option<
    Seq<char>,
>
    decreases entries.len(),
{
    if entries.len() == 0 {
        None
    } else if entries.last().0@ == key {
        Some(entries.last().1@)
    } else {
        lookup(entries.drop_last(), key)
    }
}

/// `lookup` reads `map_of`.
pub proof fn lemma_lookup(entries: Seq<(String, String)>, key: Seq<char>)
    ensures
        map_of(entries).dom().finite(),
        map_of(entries).contains_key(key) == lookup(entries, key) is Some,
        map_of(entries).contains_key(key) ==> map_of(entries)[key] == lookup(entries, key)->0,
    decreases entries.len(),
{
    if entries.len() > 0 {
        lemma_lookup(entries.drop_last(), key);
    }
}

/// The key of every entry is a key of the map.
pub proof fn lemma_keys(entries: Seq<(String, String)>, i: int)
    requires
        0 <= i < entries.len(),
    ensures
        map_of(entries).contains_key(entries[i].0@),
    decreases entries.len(),
{
    if i < entries.len() - 1 {
        lemma_keys(entries.drop_last(), i);
    }
}

/// Every key of the map is the key of some entry.
pub proof fn lemma_key_source(entries: Seq<(String, String)>, key: Seq<char>)
    requires
        map_of(entries).contains_key(key),
    ensures
        exists|i: int| 0 <= i < entries.len() && #[trigger] entries[i].0@ == key,
    decreases entries.len(),
{
    if entries.len() > 0 {
        if entries.last().0@ == key {
            assert(entries[entries.len() - 1].0@ == key);
        } else {
            lemma_key_source(entries.drop_last(), key);
            let i = choose|i: int|
                0 <= i < entries.drop_last().len() && #[trigger] entries.drop_last()[i].0@
                    == key;
            assert(entries[i].0@ == key);
        }
    }
}

impl View for TextMap {
    type V = Map<Seq<char>, Seq<char>>;

    closed spec fn view(&self) -> Map<Seq<char>, Seq<char>> {
        map_of(self.entries@)
    }
}

impl TextMap {
    /// The empty map.
    pub fn new() -> (out: TextMap)
        ensures
            out@ == Map::<Seq<char>, Seq<char>>::empty(),
    {
        TextMap { entries: Vec::new() }
    }

    /// Sets the value for `key`, replacing an earlier one.
    pub fn insert(&mut self, key: String, value: String)
        ensures
            final(self)@ == old(self)@.insert(key@, value@),
    {
        let ghost before = self.entries@;
        self.entries.push((key, value));
        assert(self.entries@.drop_last() == before);
    }

    /// The value for `key`.
    pub fn get(&self, key: &str) -> (out: Option<String>)
        ensures
            out is Some == self@.contains_key(key@),
            out is Some ==> out->0@ == self@[key@],
    {
        let mut i: usize = self.entries.len();
        assert(self.entries@.take(i as int) == self.entries@);
        while i > 0
            invariant
                i <= self.entries.len(),
                lookup(self.entries@.take(i as int), key@) == lookup(
                    self.entries@,
                    key@,
                ),
            decreases i,
        {
            assert(self.entries@.take(i as int).drop_last() == self.entries@.take(i - 1));
            if str_eq(self.entries[i - 1].0.as_str(), key) {
                proof {
                    lemma_lookup(self.entries@, key@);
                }
                return Some(self.entries[i - 1].1.clone());
            }
            i -= 1;
        }
        proof {
            assert(self.entries@.take(0).len() == 0);
            lemma_lookup(self.entries@, key@);
        }
        None
    }

    /// Whether the map is empty.
    pub fn is_empty(&self) -> (r: bool)
        ensures
            r == (self@ == Map::<Seq<char>, Seq<char>>::empty()),
    {
        if self.entries.len() == 0 {
            true
        } else {
            proof {
                lemma_keys(self.entries@, 0);
            }
            false
        }
    }

    /// The keys, each once, in the order in which they were first set.
    pub fn keys(&self) -> (out: Vec<String>)
        ensures
            forall|k: Seq<char>| #[trigger] has_text(out@, k) <==> self@.contains_key(k),
            forall|i: int, j: int| 0 <= i < j < out.len() ==> out[i]@ != out[j]@,
    {
        let mut out: Vec<String> = Vec::new();
        let mut i: usize = 0;
        while i < self.entries.len()
            invariant
                i <= self.entries.len(),
                forall|k: Seq<char>| #[trigger]
                    has_text(out@, k) <==> lookup(self.entries@.take(i as int), k) is Some,
                forall|a: int, b: int| 0 <= a < b < out.len() ==> out[a]@ != out[b]@,
            decreases self.entries.len() - i,
        {
            let key = self.entries[i].0.clone();
            let seen = contains_text(&out, key.as_str());
            let ghost before = out@;
            if !seen {
                out.push(key);
            }
            proof {
                assert(self.entries@.take(i + 1).drop_last() == self.entries@.take(i as int));
                assert forall|k: Seq<char>| #[trigger]
                    has_text(out@, k) <==> lookup(
                        self.entries@.take(i + 1),
                        k,
                    ) is Some by {
                    if has_text(out@, k) {
                        let m = choose|m: int| 0 <= m < out.len() && out[m]@ == k;
                        if m < before.len() {
                            assert(before[m]@ == k);
                            assert(has_text(before, k));
                        }
                    }
                    if has_text(before, k) {
                        let m = choose|m: int| 0 <= m < before.len() && before[m]@ == k;
                        assert(out[m]@ == k);
                    }
                    if !seen && k == key@ {
                        assert(out[out.len() - 1]@ == k);
                    }
                }
            }
            i += 1;
        }
        proof {
            assert(self.entries@.take(self.entries.len() as int) == self.entries@);
            assert forall|k: Seq<char>| #[trigger]
                has_text(out@, k) <==> self@.contains_key(k) by {
                lemma_lookup(self.entries@, k);
            }
        }
        out
    }

    /// Whether `other` holds every entry of `self`.
    fn within(&self, other: &TextMap) -> (r: bool)
        ensures
            r == forall|k: Seq<char>| #[trigger]
                self@.contains_key(k) ==> other@.contains_key(k) && other@[k] == self@[k],
    {
        let mut i: usize = 0;
        while i < self.entries.len()
            invariant
                i <= self.entries.len(),
                forall|j: int|
                    0 <= j < i ==> other@.contains_key(#[trigger] self.entries[j].0@)
                        && other@[self.entries[j].0@] == self@[self.entries[j].0@],
            decreases self.entries.len() - i,
        {
            let key = self.entries[i].0.as_str();
            proof {
                lemma_keys(self.entries@, i as int);
            }
            let mine = self.get(key);
            let theirs = other.get(key);
            if !opt_eq(&mine, &theirs) {
                return false;
            }
            i += 1;
        }
        proof {
            assert forall|k: Seq<char>| #[trigger]
                self@.contains_key(k) implies other@.contains_key(k) && other@[k] == self@[k] by {
                lemma_key_source(self.entries@, k);
            }
        }
        true
    }

    /// Whether two maps hold the same entries.
    pub fn same(&self, other: &TextMap) -> (r: bool)
        ensures
            r == (self@ == other@),
    {
        let r = self.within(other) && other.within(self);
        proof {
            if r {
                assert(self@ =~= other@);
            }
        }
        r
    }

    /// A copy.
    pub fn copy(&self) -> (out: TextMap)
        ensures
            out@ == self@,
    {
        let mut out = TextMap::new();
        let mut i: usize = 0;
        while i < self.entries.len()
            invariant
                i <= self.entries.len(),
                out@ == map_of(self.entries@.take(i as int)),
            decreases self.entries.len() - i,
        {
            assert(self.entries@.take(i + 1).drop_last() == self.entries@.take(i as int));
            out.insert(self.entries[i].0.clone(), self.entries[i].1.clone());
            i += 1;
        }
        assert(self.entries@.take(self.entries.len() as int) == self.entries@);
        out
    }
}

/// What a helper program returned.
#[derive(Debug)]
pub struct ProcessOutput {
    /// Whether it ended with success.
    pub success: bool,
    /// What it wrote to its standard output.
    pub stdout: Vec<u8>,
}

/// A discovered application.
#[derive(Debug)]
pub struct App {
    /// Display name in no particular language; falls back to the stem of the
    /// descriptor's file name.
    pub name: String,
    /// Display names by locale.
    pub localized_app_names: TextMap,
    /// Where the icon is, if one was found.  The file is not decoded here.
    pub icon_path: Option<String>,
    /// The executable, where the platform launches by path.
    pub app_path_exe: Option<String>,
    /// The descriptor that this record was made from: the key by which a
    /// deletion is matched to a record.
    pub app_desktop_path: String,
}

/// What an `App` holds, as mathematical values.
pub struct AppView {
    pub name: Seq<char>,
    pub localized_app_names: Map<Seq<char>, Seq<char>>,
    pub icon_path: Option<Seq<char>>,
    pub app_path_exe: Option<Seq<char>>,
    pub app_desktop_path: Seq<char>,
}

impl View for App {
    type V = AppView;

    open spec fn view(&self) -> AppView {
        AppView {
            name: self.name@,
            localized_app_names: self.localized_app_names@,
            icon_path: opt_text(self.icon_path),
            app_path_exe: opt_text(self.app_path_exe),
            app_desktop_path: self.app_desktop_path@,
        }
    }
}

impl App {
    /// Whether two records agree in every field.
    pub fn same(&self, other: &App) -> (r: bool)
        ensures
            r == (self@ == other@),
    {
        str_eq(self.name.as_str(), other.name.as_str()) && self.localized_app_names.same(
            &other.localized_app_names,
        ) && opt_eq(&self.icon_path, &other.icon_path) && opt_eq(
            &self.app_path_exe,
            &other.app_path_exe,
        ) && str_eq(self.app_desktop_path.as_str(), other.app_desktop_path.as_str())
    }
}

impl Clone for TextMap {
    fn clone(&self) -> (out: TextMap)
        ensures
            out@ == self@,
    {
        self.copy()
    }
}

impl Clone for App {
    fn clone(&self) -> (out: App)
        ensures
            out@ == self@,
    {
        App {
            name: self.name.clone(),
            localized_app_names: self.localized_app_names.copy(),
            icon_path: copy_opt(&self.icon_path),
            app_path_exe: copy_opt(&self.app_path_exe),
            app_desktop_path: self.app_desktop_path.clone(),
        }
    }
}

/// The views of the records of `apps`, in order.
pub open spec fn app_views(apps: Seq<App>) -> Seq<AppView> {
    Seq::new(apps.len(), |i: int| apps[i]@)
}

} // verus!
