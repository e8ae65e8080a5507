//! Paths as texts.
//!
//! A path is a text cut into components by separators.  The two styles differ
//! in which characters separate and in how a drive prefix is kept; nothing
//! here looks at a file system.

use crate::text::{
    chars_of, concat, last_in_set, rfind_char, rfind_set, rfind_upto, skip_trailing, slice_of,
    string_of, trailing_start, Trim,
};
use vstd::prelude::*;

verus! {

/// How paths are written.
#[derive(Clone, Copy, Debug, PartialEq, Eq, Structural)]
pub enum PathStyle {
    /// Components are separated by `/`.
    Unix,
    /// Components are separated by `\` or `/`, and `\` is written.
    Windows,
}

impl PathStyle {
    /// The characters that separate components.
    pub open spec fn separators(self) -> Trim {
        match self {
            PathStyle::Unix => Trim::Exactly('/'),
            PathStyle::Windows => Trim::Either('\\', '/'),
        }
    }

    /// The separator that `joined` writes.
    pub open spec fn separator(self) -> char {
        match self {
            PathStyle::Unix => '/',
            PathStyle::Windows => '\\',
        }
    }

    /// Computes `separators`.
    pub fn seps(self) -> (r: Trim)
        ensures
            r == self.separators(),
    {
        match self {
            PathStyle::Unix => Trim::Exactly('/'),
            PathStyle::Windows => Trim::Either('\\', '/'),
        }
    }

    /// Computes `separator`.
    pub fn sep(self) -> (r: char)
        ensures
            r == self.separator(),
    {
        match self {
            PathStyle::Unix => '/',
            PathStyle::Windows => '\\',
        }
    }
}

/// Whether `p` names a place by itself, so that joining it to a base gives
/// `p`: it starts with a separator or, in the Windows style, with a drive.
pub open spec fn is_rooted(p: Seq<char>, style: PathStyle) -> bool {
    ||| p.len() > 0 && style.separators().holds(p[0])
    ||| style == PathStyle::Windows && p.len() >= 2 && p[1] == ':'
}

/// `rel` taken relative to `base`.
pub open spec fn joined(base: Seq<char>, rel: Seq<char>, style: PathStyle) -> Seq<char> {
    if is_rooted(rel, style) || base.len() == 0 {
        rel
    } else if style.separators().holds(base.last()) {
        base + rel
    } else {
        base.push(style.separator()) + rel
    }
}

/// Where the last component of `p` ends: `p`'s length without trailing
/// separators.
pub open spec fn name_end(p: Seq<char>, style: PathStyle) -> int {
    skip_trailing(p, style.separators(), 0, p.len() as int)
}

/// Where the last component of `p` starts.
pub open spec fn name_start(p: Seq<char>, style: PathStyle) -> int {
    last_in_set(p, style.separators(), name_end(p, style))
}

/// Whether the last component of `p` is all of `p` and is a drive, such as
/// `C:`, in the Windows style.
pub open spec fn is_drive(p: Seq<char>, style: PathStyle) -> bool {
    &&& style == PathStyle::Windows
    &&& name_start(p, style) == 0
    &&& name_end(p, style) == 2
    &&& p[1] == ':'
}

/// The last component of `p`; none where `p` is empty, a root or a drive, or
/// ends in `..`.
pub open spec fn file_name(p: Seq<char>, style: PathStyle) -> Option<Seq<char>> {
    let name = p.subrange(name_start(p, style), name_end(p, style));
    if name.len() == 0 || name == seq!['.', '.'] || is_drive(p, style) {
        None
    } else {
        Some(name)
    }
}

/// One more than the index of the dot that starts the extension of the file
/// name `name`, or 0 or 1 where it has none (a leading dot starts none).
pub open spec fn extension_dot(name: Seq<char>) -> int {
    rfind_upto(name, '.', name.len() as int)
}

/// What follows the last dot of the last component of `p`.
pub open spec fn extension(p: Seq<char>, style: PathStyle) -> Option<Seq<char>> {
    match file_name(p, style) {
        None => None,
        Some(name) => if extension_dot(name) <= 1 {
            None
        } else {
            Some(name.subrange(extension_dot(name), name.len() as int))
        },
    }
}

/// The last component of `p` without its extension.
pub open spec fn file_stem(p: Seq<char>, style: PathStyle) -> Option<Seq<char>> {
    match file_name(p, style) {
        None => None,
        Some(name) => if extension_dot(name) <= 1 {
            Some(name)
        } else {
            Some(name.subrange(0, extension_dot(name) - 1))
        },
    }
}

/// `p` without its last component; none where `p` is empty, a root or a
/// drive.  In what is returned a root, and in the Windows style a drive with
/// its separator, is kept whole.
pub open spec fn parent(p: Seq<char>, style: PathStyle) -> Option<Seq<char>> {
    let end = name_end(p, style);
    let start = name_start(p, style);
    let cut = skip_trailing(p, style.separators(), 0, start);
    if end == 0 || is_drive(p, style) {
        None
    } else if start == 0 {
        Some(Seq::empty())
    } else if cut == 0 {
        Some(p.subrange(0, 1))
    } else if style == PathStyle::Windows && cut == 2 && p[1] == ':' {
        Some(p.subrange(0, 3))
    } else {
        Some(p.subrange(0, cut))
    }
}

/// `last_in_set` stays within `0..=upto`.
pub proof fn lemma_last_in_set_bounds(s: Seq<char>, set: Trim, upto: int)
    requires
        0 <= upto <= s.len(),
    ensures
        0 <= last_in_set(s, set, upto) <= upto,
        last_in_set(s, set, upto) > 0 ==> set.holds(s[last_in_set(s, set, upto) - 1]),
        forall|j: int| last_in_set(s, set, upto) <= j < upto ==> !set.holds(s[j]),
    decreases upto,
{
    if upto > 0 && !set.holds(s[upto - 1]) {
        lemma_last_in_set_bounds(s, set, upto - 1);
    }
}

/// `skip_trailing` stays within `floor..=upto`.
pub proof fn lemma_skip_trailing_bounds(s: Seq<char>, set: Trim, floor: int, upto: int)
    requires
        0 <= floor <= upto <= s.len(),
    ensures
        floor <= skip_trailing(s, set, floor, upto) <= upto,
        skip_trailing(s, set, floor, upto) > floor ==> !set.holds(
            s[skip_trailing(s, set, floor, upto) - 1],
        ),
        forall|j: int| skip_trailing(s, set, floor, upto) <= j < upto ==> set.holds(s[j]),
    decreases upto - floor,
{
    if upto > floor && set.holds(s[upto - 1]) {
        lemma_skip_trailing_bounds(s, set, floor, upto - 1);
    }
}

/// Tests `is_rooted`.
pub fn rooted(p: &Vec<char>, style: PathStyle) -> (r: bool)
    ensures
        r == is_rooted(p@, style),
{
    if p.len() > 0 && style.seps().test(p[0]) {
        return true;
    }
    match style {
        PathStyle::Windows => p.len() >= 2 && p[1] == ':',
        PathStyle::Unix => false,
    }
}

/// Computes `joined`.
pub fn join_chars(base: &Vec<char>, rel: &Vec<char>, style: PathStyle) -> (out: Vec<char>)
    ensures
        out@ == joined(base@, rel@, style),
{
    if rooted(rel, style) || base.len() == 0 {
        return slice_of(rel, 0, rel.len());
    }
    if style.seps().test(base[base.len() - 1]) {
        return concat(base, rel);
    }
    let mut head = slice_of(base, 0, base.len());
    head.push(style.sep());
    concat(&head, rel)
}

/// Computes `file_name`.
pub fn file_name_chars(p: &Vec<char>, style: PathStyle) -> (out: Option<Vec<char>>)
    ensures
        out is Some == file_name(p@, style) is Some,
        out is Some ==> out->0@ == file_name(p@, style)->0,
{
    let end = trailing_start(p, style.seps(), 0, p.len());
    let start = rfind_set(p, style.seps(), end);
    let name = slice_of(p, start, end);
    if name.len() == 0 {
        return None;
    }
    let drive = match style {
        PathStyle::Windows => start == 0 && end == 2 && p[1] == ':',
        PathStyle::Unix => false,
    };
    if drive {
        return None;
    }
    if name.len() == 2 && name[0] == '.' && name[1] == '.' {
        assert(name@ =~= seq!['.', '.']);
        return None;
    }
    assert(name@ != seq!['.', '.']) by {
        if name@ == seq!['.', '.'] {
            assert(name@.len() == 2);
            assert(name@[0] == '.');
            assert(name@[1] == '.');
        }
    }
    Some(name)
}

/// Computes `extension`.
pub fn extension_chars(p: &Vec<char>, style: PathStyle) -> (out: Option<Vec<char>>)
    ensures
        out is Some == extension(p@, style) is Some,
        out is Some ==> out->0@ == extension(p@, style)->0,
{
    match file_name_chars(p, style) {
        None => None,
        Some(name) => {
            let dot = rfind_char(&name, '.', name.len());
            if dot <= 1 {
                None
            } else {
                Some(slice_of(&name, dot, name.len()))
            }
        },
    }
}

/// Computes `file_stem`.
pub fn file_stem_chars(p: &Vec<char>, style: PathStyle) -> (out: Option<Vec<char>>)
    ensures
        out is Some == file_stem(p@, style) is Some,
        out is Some ==> out->0@ == file_stem(p@, style)->0,
{
    match file_name_chars(p, style) {
        None => None,
        Some(name) => {
            let dot = rfind_char(&name, '.', name.len());
            if dot <= 1 {
                Some(name)
            } else {
                Some(slice_of(&name, 0, dot - 1))
            }
        },
    }
}

/// Computes `parent`.
pub fn parent_chars(p: &Vec<char>, style: PathStyle) -> (out: Option<Vec<char>>)
    ensures
        out is Some == parent(p@, style) is Some,
        out is Some ==> out->0@ == parent(p@, style)->0,
{
    let end = trailing_start(p, style.seps(), 0, p.len());
    let start = rfind_set(p, style.seps(), end);
    let cut = trailing_start(p, style.seps(), 0, start);
    let whole_drive = match style {
        PathStyle::Windows => start == 0 && end == 2 && p[1] == ':',
        PathStyle::Unix => false,
    };
    if end == 0 || whole_drive {
        None
    } else if start == 0 {
        Some(Vec::new())
    } else if cut == 0 {
        Some(slice_of(p, 0, 1))
    } else {
        let drive = match style {
            PathStyle::Windows => cut == 2 && p[1] == ':',
            PathStyle::Unix => false,
        };
        if drive {
            proof {
                lemma_last_in_set_bounds(p@, style.separators(), end as int);
                lemma_skip_trailing_bounds(p@, style.separators(), 0, start - 1);
            }
            Some(slice_of(p, 0, 3))
        } else {
            Some(slice_of(p, 0, cut))
        }
    }
}

/// `joined` on strings.
pub fn join(base: &str, rel: &str, style: PathStyle) -> (out: String)
    ensures
        out@ == joined(base@, rel@, style),
{
    string_of(&join_chars(&chars_of(base), &chars_of(rel), style))
}

/// `file_name` on strings.
pub fn file_name_of(p: &str, style: PathStyle) -> (out: Option<String>)
    ensures
        out is Some == file_name(p@, style) is Some,
        out is Some ==> out->0@ == file_name(p@, style)->0,
{
    match file_name_chars(&chars_of(p), style) {
        None => None,
        Some(name) => Some(string_of(&name)),
    }
}

/// `extension` on strings.
pub fn extension_of(p: &str, style: PathStyle) -> (out: Option<String>)
    ensures
        out is Some == extension(p@, style) is Some,
        out is Some ==> out->0@ == extension(p@, style)->0,
{
    match extension_chars(&chars_of(p), style) {
        None => None,
        Some(ext) => Some(string_of(&ext)),
    }
}

/// `file_stem` on strings.
pub fn file_stem_of(p: &str, style: PathStyle) -> (out: Option<String>)
    ensures
        out is Some == file_stem(p@, style) is Some,
        out is Some ==> out->0@ == file_stem(p@, style)->0,
{
    match file_stem_chars(&chars_of(p), style) {
        None => None,
        Some(stem) => Some(string_of(&stem)),
    }
}

/// `parent` on strings.
pub fn parent_of(p: &str, style: PathStyle) -> (out: Option<String>)
    ensures
        out is Some == parent(p@, style) is Some,
        out is Some ==> out->0@ == parent(p@, style)->0,
{
    match parent_chars(&chars_of(p), style) {
        None => None,
        Some(dir) => Some(string_of(&dir)),
    }
}

/// Whether `name` is one component: not empty, not `..`, without a
/// separator and not rooted.
pub open spec fn is_plain_name(name: Seq<char>, style: PathStyle) -> bool {
    &&& name.len() > 0
    &&& name != seq!['.', '.']
    &&& !is_rooted(name, style)
    &&& forall|k: int| 0 <= k < name.len() ==> !style.separators().holds(#[trigger] name[k])
}

/// The last component of a directory joined with a plain name is the name.
pub proof fn lemma_file_name_of_joined(dir: Seq<char>, name: Seq<char>, style: PathStyle)
    requires
        is_plain_name(name, style),
    ensures
        file_name(joined(dir, name, style), style) == Some(name),
{
    let p = joined(dir, name, style);
    let n = p.len() as int;
    let start = n - name.len();
    let seps = style.separators();
    assert(p.subrange(start, n) =~= name);
    assert forall|j: int| start <= j < n implies !seps.holds(#[trigger] p[j]) by {
        assert(p[j] == name[j - start]);
    }
    lemma_skip_trailing_bounds(p, seps, 0, n);
    let e = skip_trailing(p, seps, 0, n);
    assert(e == n) by {
        if e < n {
            assert(seps.holds(p[n - 1]));
        }
    }
    lemma_last_in_set_bounds(p, seps, n);
    let r = last_in_set(p, seps, n);
    assert(r == start) by {
        if r > start {
            assert(!seps.holds(p[r - 1]));
        }
        if r < start {
            assert(seps.holds(p[start - 1]));
        }
    }
}

} // verus!
