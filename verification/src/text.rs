//! Character sequences: the conversions between `String` and `Vec<char>`
//! and the searches that the catalog rules are written with.
//!
//! Every executable function here has a specification function of the same
//! purpose over `Seq<char>`; the scanning ones carry an explicit cursor so
//! that a caller can reason about a scan that starts in the middle.

use vstd::prelude::*;

verus! {

/// `String::push` appends one character.
pub assume_specification[ String::push ](s: &mut String, c: char)
    ensures
        final(s)@ == old(s)@.push(c),
;

/// What `str::to_lowercase` returns for a text.
pub uninterp spec fn lowercase_of(s: Seq<char>) -> Seq<char>;

/// Calls `str::to_lowercase`, whose result depends on the text alone and is
/// named `lowercase_of`.
#[verifier::external_body]
pub(crate) fn std_lowercase(s: &str) -> (out: String)
    ensures
        out@ == lowercase_of(s@),
{
    s.to_lowercase()
}

/// What `String::from_utf8_lossy` makes of bytes.
pub uninterp spec fn utf8_lossy(bytes: Seq<u8>) -> Seq<char>;

/// What `String::from_utf16_lossy` makes of 16-bit units.
pub uninterp spec fn utf16_lossy(units: Seq<u16>) -> Seq<char>;

/// Calls `String::from_utf8_lossy`, which decodes UTF-8 and puts the
/// replacement character for what is invalid.  The result depends on the
/// bytes alone and is named `utf8_lossy`.
#[verifier::external_body]
pub(crate) fn std_utf8_lossy(bytes: &Vec<u8>) -> (out: String)
    ensures
        out@ == utf8_lossy(bytes@),
{
    String::from_utf8_lossy(bytes.as_slice()).into_owned()
}

/// Calls `String::from_utf16_lossy`, which decodes UTF-16 and puts the
/// replacement character for what is invalid.  The result depends on the
/// units alone and is named `utf16_lossy`.
#[verifier::external_body]
pub(crate) fn std_utf16_lossy(units: &Vec<u16>) -> (out: String)
    ensures
        out@ == utf16_lossy(units@),
{
    String::from_utf16_lossy(units.as_slice())
}

/// Calls `String::from_utf8`, which gives the text that the bytes encode and
/// fails where they are not valid UTF-8.
#[verifier::external_body]
pub(crate) fn std_utf8(bytes: &Vec<u8>) -> (out: Option<String>)
    ensures
        out is Some == vstd::utf8::valid_utf8(bytes@),
        out is Some ==> out->0@ == vstd::utf8::decode_utf8(bytes@),
{
    String::from_utf8(bytes.clone()).ok()
}

/// The views of the strings of `v`, in order.
pub open spec fn texts(v: Seq<String>) -> Seq<Seq<char>> {
    Seq::new(v.len(), |i: int| v[i]@)
}

/// The characters of `s`, in order.
pub fn chars_of(s: &str) -> (out: Vec<char>)
    ensures
        out@ == s@,
{
    broadcast use vstd::string::axiom_spec_iter;

    let mut out: Vec<char> = Vec::new();
    for c in it: s.chars()
        invariant
            it.seq() == s@,
            out@ == s@.take(it.index()),
    {
        out.push(c);
    }
    out
}

/// The string made of the characters of `chars`, in order.
pub fn string_of(chars: &Vec<char>) -> (out: String)
    ensures
        out@ == chars@,
{
    let mut out = String::new();
    let mut i: usize = 0;
    while i < chars.len()
        invariant
            i <= chars.len(),
            out@ == chars@.take(i as int),
        decreases chars.len() - i,
    {
        out.push(chars[i]);
        i += 1;
    }
    out
}

/// The characters of `s` from `from` up to, not including, `to`.
pub fn slice_of(s: &Vec<char>, from: usize, to: usize) -> (out: Vec<char>)
    requires
        from <= to <= s.len(),
    ensures
        out@ == s@.subrange(from as int, to as int),
{
    let mut out: Vec<char> = Vec::new();
    let mut i: usize = from;
    while i < to
        invariant
            from <= i <= to <= s.len(),
            out@ == s@.subrange(from as int, i as int),
        decreases to - i,
    {
        out.push(s[i]);
        i += 1;
    }
    out
}

/// `a` followed by `b`.
pub fn concat(a: &Vec<char>, b: &Vec<char>) -> (out: Vec<char>)
    ensures
        out@ == a@ + b@,
{
    let mut out: Vec<char> = Vec::new();
    let mut i: usize = 0;
    while i < a.len()
        invariant
            i <= a.len(),
            out@ == a@.take(i as int),
        decreases a.len() - i,
    {
        out.push(a[i]);
        i += 1;
    }
    let mut j: usize = 0;
    while j < b.len()
        invariant
            j <= b.len(),
            out@ == a@ + b@.take(j as int),
        decreases b.len() - j,
    {
        out.push(b[j]);
        j += 1;
    }
    assert(b@.take(b.len() as int) == b@);
    out
}

/// Whether two texts hold the same characters.
pub fn same_text(a: &Vec<char>, b: &Vec<char>) -> (r: bool)
    ensures
        r == (a@ == b@),
{
    if a.len() != b.len() {
        return false;
    }
    let mut i: usize = 0;
    while i < a.len()
        invariant
            i <= a.len(),
            a.len() == b.len(),
            forall|j: int| 0 <= j < i ==> a@[j] == b@[j],
        decreases a.len() - i,
    {
        if a[i] != b[i] {
            return false;
        }
        i += 1;
    }
    assert(a@ =~= b@);
    true
}

/// Whether `pat` stands in `s` at index `at`.
pub open spec fn matches_at(s: Seq<char>, pat: Seq<char>, at: int) -> bool {
    &&& 0 <= at
    &&& at + pat.len() <= s.len()
    &&& s.subrange(at, at + pat.len()) == pat
}

/// Tests `matches_at`.
pub fn has_at(s: &Vec<char>, pat: &Vec<char>, at: usize) -> (r: bool)
    ensures
        r == matches_at(s@, pat@, at as int),
{
    if at > s.len() || pat.len() > s.len() - at {
        return false;
    }
    let mut i: usize = 0;
    while i < pat.len()
        invariant
            i <= pat.len(),
            at + pat.len() <= s.len(),
            forall|j: int| 0 <= j < i ==> s@[at + j] == pat@[j],
        decreases pat.len() - i,
    {
        if s[at + i] != pat[i] {
            assert(s@.subrange(at as int, at + pat.len())[i as int] == s@[at + i]);
            return false;
        }
        i += 1;
    }
    assert(s@.subrange(at as int, at + pat.len()) =~= pat@);
    true
}

/// Whether `s` begins with `pat`.
pub open spec fn has_prefix(s: Seq<char>, pat: Seq<char>) -> bool {
    matches_at(s, pat, 0)
}

/// Whether `s` ends with `pat`.
pub open spec fn has_suffix(s: Seq<char>, pat: Seq<char>) -> bool {
    pat.len() <= s.len() && matches_at(s, pat, s.len() - pat.len())
}

/// Tests `has_prefix`.
pub fn starts_with(s: &Vec<char>, pat: &Vec<char>) -> (r: bool)
    ensures
        r == has_prefix(s@, pat@),
{
    has_at(s, pat, 0)
}

/// Tests `has_suffix`.
pub fn ends_with(s: &Vec<char>, pat: &Vec<char>) -> (r: bool)
    ensures
        r == has_suffix(s@, pat@),
{
    if pat.len() > s.len() {
        return false;
    }
    has_at(s, pat, s.len() - pat.len())
}

/// The index of the first `c` in `s` at or after `from`, or `s.len()` where
/// there is none.
pub open spec fn find_from(s: Seq<char>, c: char, from: int) -> int
    decreases s.len() - from,
{
    if from >= s.len() {
        s.len() as int
    } else if s[from] == c {
        from
    } else {
        find_from(s, c, from + 1)
    }
}

/// Computes `find_from`.
pub fn find_char(s: &Vec<char>, c: char, from: usize) -> (r: usize)
    ensures
        r == find_from(s@, c, from as int),
        from <= s.len() ==> from <= r <= s.len(),
        r < s.len() ==> s@[r as int] == c,
{
    if from >= s.len() {
        return s.len();
    }
    let mut i: usize = from;
    while i < s.len()
        invariant
            from <= i <= s.len(),
            find_from(s@, c, i as int) == find_from(s@, c, from as int),
        decreases s.len() - i,
    {
        if s[i] == c {
            return i;
        }
        i += 1;
    }
    i
}

/// One more than the index of the last `c` in `s` before `upto`, or 0 where
/// there is none.
pub open spec fn rfind_upto(s: Seq<char>, c: char, upto: int) -> int
    decreases upto,
{
    if upto <= 0 {
        0
    } else if s[upto - 1] == c {
        upto
    } else {
        rfind_upto(s, c, upto - 1)
    }
}

/// Computes `rfind_upto`.
pub fn rfind_char(s: &Vec<char>, c: char, upto: usize) -> (r: usize)
    requires
        upto <= s.len(),
    ensures
        r == rfind_upto(s@, c, upto as int),
        r <= upto,
        r > 0 ==> s@[r - 1] == c,
{
    let mut i: usize = upto;
    while i > 0
        invariant
            i <= upto <= s.len(),
            rfind_upto(s@, c, i as int) == rfind_upto(s@, c, upto as int),
        decreases i,
    {
        if s[i - 1] == c {
            return i;
        }
        i -= 1;
    }
    0
}

/// The characters that `str::trim` removes: the Unicode property
/// `White_Space`.
pub open spec fn is_space(c: char) -> bool {
    let n = c as u32;
    ||| 0x09 <= n <= 0x0D
    ||| n == 0x20
    ||| n == 0x85
    ||| n == 0xA0
    ||| n == 0x1680
    ||| 0x2000 <= n <= 0x200A
    ||| n == 0x2028
    ||| n == 0x2029
    ||| n == 0x202F
    ||| n == 0x205F
    ||| n == 0x3000
}

/// Tests `is_space`.
pub fn char_is_space(c: char) -> (r: bool)
    ensures
        r == is_space(c),
{
    let n: u32 = c as u32;
    (0x09 <= n && n <= 0x0D) || n == 0x20 || n == 0x85 || n == 0xA0 || n == 0x1680 || (0x2000 <= n
        && n <= 0x200A) || n == 0x2028 || n == 0x2029 || n == 0x202F || n == 0x205F || n == 0x3000
}

/// A set of characters: one character, one of two, or all white space.
#[derive(Clone, Copy, Debug)]
pub enum Trim {
    Exactly(char),
    Either(char, char),
    Space,
}

impl Trim {
    /// Whether `c` belongs to the set.
    pub open spec fn holds(self, c: char) -> bool {
        match self {
            Trim::Exactly(d) => c == d,
            Trim::Either(d, e) => c == d || c == e,
            Trim::Space => is_space(c),
        }
    }

    /// Tests `holds`.
    pub fn test(self, c: char) -> (r: bool)
        ensures
            r == self.holds(c),
    {
        match self {
            Trim::Exactly(d) => c == d,
            Trim::Either(d, e) => c == d || c == e,
            Trim::Space => char_is_space(c),
        }
    }
}

/// One more than the index of the last character of `s` before `upto` that
/// is in `set`, or 0 where there is none.
pub open spec fn last_in_set(s: Seq<char>, set: Trim, upto: int) -> int
    decreases upto,
{
    if upto <= 0 {
        0
    } else if set.holds(s[upto - 1]) {
        upto
    } else {
        last_in_set(s, set, upto - 1)
    }
}

/// Computes `last_in_set`.
pub fn rfind_set(s: &Vec<char>, set: Trim, upto: usize) -> (r: usize)
    requires
        upto <= s.len(),
    ensures
        r == last_in_set(s@, set, upto as int),
        r <= upto,
{
    let mut i: usize = upto;
    while i > 0
        invariant
            i <= upto <= s.len(),
            last_in_set(s@, set, i as int) == last_in_set(s@, set, upto as int),
        decreases i,
    {
        if set.test(s[i - 1]) {
            return i;
        }
        i -= 1;
    }
    0
}

/// The index of the first character of `s` at or after `from` that is not in
/// `set`, or `s.len()`.
pub open spec fn skip_leading(s: Seq<char>, set: Trim, from: int) -> int
    decreases s.len() - from,
{
    if from >= s.len() {
        s.len() as int
    } else if !set.holds(s[from]) {
        from
    } else {
        skip_leading(s, set, from + 1)
    }
}

/// The end of `s` once the characters of `set` are taken off its end, never
/// going below `floor`.
pub open spec fn skip_trailing(s: Seq<char>, set: Trim, floor: int, upto: int) -> int
    decreases upto - floor,
{
    if upto <= floor {
        floor
    } else if !set.holds(s[upto - 1]) {
        upto
    } else {
        skip_trailing(s, set, floor, upto - 1)
    }
}

/// `s` without the characters of `set` at its end.
pub open spec fn trimmed_end(s: Seq<char>, set: Trim) -> Seq<char> {
    s.subrange(0, skip_trailing(s, set, 0, s.len() as int))
}

/// `s` without the characters of `set` at either end.
pub open spec fn trimmed(s: Seq<char>, set: Trim) -> Seq<char> {
    let a = skip_leading(s, set, 0);
    s.subrange(a, skip_trailing(s, set, a, s.len() as int))
}

/// Computes `skip_leading` from the start of `s`.
pub fn leading_end(s: &Vec<char>, set: Trim) -> (r: usize)
    ensures
        r == skip_leading(s@, set, 0),
        r <= s.len(),
{
    let mut i: usize = 0;
    while i < s.len()
        invariant
            i <= s.len(),
            skip_leading(s@, set, i as int) == skip_leading(s@, set, 0),
        decreases s.len() - i,
    {
        if !set.test(s[i]) {
            return i;
        }
        i += 1;
    }
    i
}

/// Computes `skip_trailing`.
pub fn trailing_start(s: &Vec<char>, set: Trim, floor: usize, upto: usize) -> (r: usize)
    requires
        floor <= upto <= s.len(),
    ensures
        r == skip_trailing(s@, set, floor as int, upto as int),
        floor <= r <= upto,
{
    let mut i: usize = upto;
    while i > floor
        invariant
            floor <= i <= upto <= s.len(),
            skip_trailing(s@, set, floor as int, i as int) == skip_trailing(
                s@,
                set,
                floor as int,
                upto as int,
            ),
        decreases i,
    {
        if !set.test(s[i - 1]) {
            return i;
        }
        i -= 1;
    }
    i
}

/// Computes `trimmed_end`.
pub fn trim_end(s: &Vec<char>, set: Trim) -> (out: Vec<char>)
    ensures
        out@ == trimmed_end(s@, set),
{
    let b = trailing_start(s, set, 0, s.len());
    slice_of(s, 0, b)
}

/// Computes `trimmed`.
pub fn trim(s: &Vec<char>, set: Trim) -> (out: Vec<char>)
    ensures
        out@ == trimmed(s@, set),
{
    let a = leading_end(s, set);
    let b = trailing_start(s, set, a, s.len());
    slice_of(s, a, b)
}

/// The pieces of `s` from `from` on, cut at every `c`; the `c`s themselves
/// belong to no piece.  There is always at least one piece.
pub open spec fn split_from(s: Seq<char>, c: char, from: int) -> Seq<Seq<char>>
    decreases s.len() - from,
{
    let k = find_from(s, c, from);
    if from > s.len() {
        seq![Seq::<char>::empty()]
    } else if k >= s.len() {
        seq![s.subrange(from, s.len() as int)]
    } else if k < from {
        seq![Seq::<char>::empty()]
    } else {
        seq![s.subrange(from, k)] + split_from(s, c, k + 1)
    }
}

/// The pieces of `s`, cut at every `c`.
pub open spec fn split_on(s: Seq<char>, c: char) -> Seq<Seq<char>> {
    split_from(s, c, 0)
}

/// `find_from` never goes back and never passes the end.
pub proof fn lemma_find_from_bounds(s: Seq<char>, c: char, from: int)
    requires
        0 <= from <= s.len(),
    ensures
        from <= find_from(s, c, from) <= s.len(),
        find_from(s, c, from) < s.len() ==> s[find_from(s, c, from)] == c,
        forall|j: int| from <= j < find_from(s, c, from) ==> s[j] != c,
    decreases s.len() - from,
{
    if from < s.len() && s[from] != c {
        lemma_find_from_bounds(s, c, from + 1);
    }
}

/// Computes `split_on`.
pub fn split(s: &Vec<char>, c: char) -> (out: Vec<Vec<char>>)
    ensures
        out.len() >= 1,
        out.len() == split_on(s@, c).len(),
        forall|i: int| 0 <= i < out.len() ==> #[trigger] out[i]@ == split_on(s@, c)[i],
{
    let mut out: Vec<Vec<char>> = Vec::new();
    let mut start: usize = 0;
    let ghost mut done: Seq<Seq<char>> = Seq::empty();
    loop
        invariant
            start <= s.len(),
            done.len() == out.len(),
            forall|i: int| 0 <= i < out.len() ==> #[trigger] out[i]@ == done[i],
            done + split_from(s@, c, start as int) == split_on(s@, c),
        decreases s.len() - start,
    {
        let k = find_char(s, c, start);
        let piece = slice_of(s, start, k);
        proof {
            lemma_find_from_bounds(s@, c, start as int);
        }
        if k >= s.len() {
            proof {
                let ghost whole = done.push(piece@);
                assert(split_from(s@, c, start as int) == seq![piece@]);
                assert(whole == done + seq![piece@]);
                done = whole;
            }
            out.push(piece);
            return out;
        }
        proof {
            let ghost rest = split_from(s@, c, k + 1);
            assert(split_from(s@, c, start as int) == seq![piece@] + rest);
            assert(done.push(piece@) + rest == done + (seq![piece@] + rest));
            done = done.push(piece@);
        }
        out.push(piece);
        start = k + 1;
    }
}

/// `s` from `from` on, with every occurrence of `pat` replaced by `with`,
/// scanning from the left; an empty `pat` occurs nowhere.
pub open spec fn replaced_from(s: Seq<char>, pat: Seq<char>, with: Seq<char>, from: int) -> Seq<
    char,
>
    decreases s.len() - from,
{
    if from >= s.len() || from < 0 {
        Seq::empty()
    } else if pat.len() > 0 && matches_at(s, pat, from) {
        with + replaced_from(s, pat, with, from + pat.len())
    } else {
        seq![s[from]] + replaced_from(s, pat, with, from + 1)
    }
}

/// Where `pat` occurs nowhere from `from` on, nothing is replaced there.
pub proof fn lemma_nothing_replaced(s: Seq<char>, pat: Seq<char>, with: Seq<char>, from: int)
    requires
        0 <= from <= s.len(),
        forall|i: int| from <= i ==> !#[trigger] matches_at(s, pat, i),
    ensures
        replaced_from(s, pat, with, from) == s.subrange(from, s.len() as int),
    decreases s.len() - from,
{
    if from < s.len() {
        lemma_nothing_replaced(s, pat, with, from + 1);
        assert(seq![s[from]] + s.subrange(from + 1, s.len() as int) =~= s.subrange(
            from,
            s.len() as int,
        ));
    } else {
        assert(s.subrange(from, s.len() as int) =~= Seq::<char>::empty());
    }
}

/// `s` with every occurrence of `pat` replaced by `with`.
pub open spec fn replaced(s: Seq<char>, pat: Seq<char>, with: Seq<char>) -> Seq<char> {
    replaced_from(s, pat, with, 0)
}

/// Computes `replaced`.
pub fn replace(s: &Vec<char>, pat: &Vec<char>, with: &Vec<char>) -> (out: Vec<char>)
    ensures
        out@ == replaced(s@, pat@, with@),
{
    let mut out: Vec<char> = Vec::new();
    let mut i: usize = 0;
    while i < s.len()
        invariant
            i <= s.len(),
            out@ + replaced_from(s@, pat@, with@, i as int) == replaced(s@, pat@, with@),
        decreases s.len() - i,
    {
        if pat.len() > 0 && has_at(s, pat, i) {
            let ghost before = out@;
            let mut j: usize = 0;
            while j < with.len()
                invariant
                    j <= with.len(),
                    out@ == before + with@.take(j as int),
                decreases with.len() - j,
            {
                out.push(with[j]);
                j += 1;
            }
            proof {
                assert(with@.take(with.len() as int) == with@);
                let ghost rest = replaced_from(s@, pat@, with@, i + pat.len());
                assert((before + with@) + rest == before + (with@ + rest));
            }
            i += pat.len();
        } else {
            proof {
                let ghost rest = replaced_from(s@, pat@, with@, i + 1);
                assert(out@.push(s@[i as int]) + rest == out@ + (seq![s@[i as int]] + rest));
            }
            out.push(s[i]);
            i += 1;
        }
    }
    out
}

/// The ASCII lower-case form of `c`; other characters stay.
pub open spec fn ascii_lower(c: char) -> char {
    if 'A' <= c <= 'Z' {
        ((c as u8) + 32) as char
    } else {
        c
    }
}

/// Computes `ascii_lower`.
pub fn to_ascii_lower(c: char) -> (r: char)
    ensures
        r == ascii_lower(c),
{
    if 'A' <= c && c <= 'Z' {
        ((c as u8) + 32) as char
    } else {
        c
    }
}

/// Whether two texts are equal once ASCII letters are folded to lower case.
pub open spec fn same_ignoring_ascii_case(a: Seq<char>, b: Seq<char>) -> bool {
    &&& a.len() == b.len()
    &&& forall|i: int| 0 <= i < a.len() ==> ascii_lower(#[trigger] a[i]) == ascii_lower(b[i])
}

/// Tests `same_ignoring_ascii_case`.
pub fn eq_ignore_ascii_case(a: &Vec<char>, b: &Vec<char>) -> (r: bool)
    ensures
        r == same_ignoring_ascii_case(a@, b@),
{
    if a.len() != b.len() {
        return false;
    }
    let mut i: usize = 0;
    while i < a.len()
        invariant
            i <= a.len(),
            a.len() == b.len(),
            forall|j: int| 0 <= j < i ==> ascii_lower(#[trigger] a@[j]) == ascii_lower(b@[j]),
        decreases a.len() - i,
    {
        if to_ascii_lower(a[i]) != to_ascii_lower(b[i]) {
            return false;
        }
        i += 1;
    }
    true
}

/// Whether `a` comes strictly before `b` in the order of `str`: character by
/// character, a proper prefix first.
pub open spec fn text_before(a: Seq<char>, b: Seq<char>) -> bool
    decreases a.len(),
{
    if b.len() == 0 {
        false
    } else if a.len() == 0 {
        true
    } else if a[0] != b[0] {
        a[0] < b[0]
    } else {
        text_before(a.drop_first(), b.drop_first())
    }
}

/// `text_before` seen from a common prefix of length `k`.
pub proof fn lemma_text_before_skip(a: Seq<char>, b: Seq<char>, k: int)
    requires
        0 <= k <= a.len(),
        k <= b.len(),
        forall|j: int| 0 <= j < k ==> a[j] == b[j],
    ensures
        text_before(a, b) == text_before(a.skip(k), b.skip(k)),
    decreases k,
{
    if k > 0 {
        assert(a.drop_first().skip(k - 1) == a.skip(k));
        assert(b.drop_first().skip(k - 1) == b.skip(k));
        lemma_text_before_skip(a.drop_first(), b.drop_first(), k - 1);
    } else {
        assert(a.skip(0) == a);
        assert(b.skip(0) == b);
    }
}

/// Tests `text_before`.
pub fn comes_before(a: &Vec<char>, b: &Vec<char>) -> (r: bool)
    ensures
        r == text_before(a@, b@),
{
    let mut i: usize = 0;
    while i < a.len() && i < b.len()
        invariant
            i <= a.len(),
            i <= b.len(),
            forall|j: int| 0 <= j < i ==> a@[j] == b@[j],
        decreases a.len() - i,
    {
        if a[i] != b[i] {
            proof {
                lemma_text_before_skip(a@, b@, i as int);
            }
            return a[i] < b[i];
        }
        i += 1;
    }
    proof {
        lemma_text_before_skip(a@, b@, i as int);
    }
    i < b.len()
}

/// Whether two strings hold the same text.
pub fn str_eq(a: &str, b: &str) -> (r: bool)
    ensures
        r == (a@ == b@),
{
    same_text(&chars_of(a), &chars_of(b))
}

/// A copy of an optional string.
pub fn copy_opt(s: &Option<String>) -> (out: Option<String>)
    ensures
        opt_text(out) == opt_text(*s),
{
    match s {
        None => None,
        Some(t) => Some(t.clone()),
    }
}

/// The view of an optional string.
pub open spec fn opt_text(s: Option<String>) -> Option<Seq<char>> {
    match s {
        None => None,
        Some(t) => Some(t@),
    }
}

/// `a` where it is some text, else `b`.
pub open spec fn or_else(a: Option<Seq<char>>, b: Option<Seq<char>>) -> Option<Seq<char>> {
    if a is Some {
        a
    } else {
        b
    }
}

/// Whether two optional strings hold the same text, or are both absent.
pub fn opt_eq(a: &Option<String>, b: &Option<String>) -> (r: bool)
    ensures
        r == (opt_text(*a) == opt_text(*b)),
{
    match (a, b) {
        (None, None) => true,
        (Some(x), Some(y)) => str_eq(x.as_str(), y.as_str()),
        _ => false,
    }
}

/// Whether some string of `v` holds the text `k`.
pub open spec fn has_text(v: Seq<String>, k: Seq<char>) -> bool {
    exists|i: int| 0 <= i < v.len() && v[i]@ == k
}

/// `has_text` is membership in `texts`.
pub proof fn lemma_has_text(v: Seq<String>, k: Seq<char>)
    ensures
        has_text(v, k) == texts(v).contains(k),
{
    if has_text(v, k) {
        let i = choose|i: int| 0 <= i < v.len() && v[i]@ == k;
        assert(texts(v)[i] == k);
    }
    if texts(v).contains(k) {
        let i = choose|i: int| 0 <= i < texts(v).len() && texts(v)[i] == k;
        assert(v[i]@ == k);
    }
}

/// Tests `has_text`.
pub fn contains_text(v: &Vec<String>, k: &str) -> (r: bool)
    ensures
        r == has_text(v@, k@),
        r == texts(v@).contains(k@),
{
    proof {
        lemma_has_text(v@, k@);
    }
    let mut i: usize = 0;
    while i < v.len()
        invariant
            i <= v.len(),
            forall|j: int| 0 <= j < i ==> v[j]@ != k@,
        decreases v.len() - i,
    {
        if str_eq(v[i].as_str(), k) {
            assert(texts(v@)[i as int] == k@);
            return true;
        }
        i += 1;
    }
    false
}

/// The first `upto` items of `s` without repetitions: of equal items the
/// first stays, and the order is kept.
pub open spec fn distinct<T>(s: Seq<T>, upto: int) -> Seq<T>
    decreases upto,
{
    if upto <= 0 {
        Seq::empty()
    } else {
        let before = distinct(s, upto - 1);
        if before.contains(s[upto - 1]) {
            before
        } else {
            before.push(s[upto - 1])
        }
    }
}

/// `distinct` holds each item of the part it was made from, once.
pub proof fn lemma_distinct<T>(s: Seq<T>, upto: int)
    requires
        0 <= upto <= s.len(),
    ensures
        distinct(s, upto).no_duplicates(),
        forall|x: T| #[trigger] distinct(s, upto).contains(x) <==> s.take(upto).contains(x),
    decreases upto,
{
    if upto > 0 {
        lemma_distinct(s, upto - 1);
        let before = distinct(s, upto - 1);
        let last = s[upto - 1];
        assert forall|x: T| #[trigger]
            distinct(s, upto).contains(x) <==> s.take(upto).contains(x) by {
            if distinct(s, upto).contains(x) {
                if before.contains(x) {
                    let t = s.take(upto - 1);
                    let j = choose|j: int| 0 <= j < t.len() && t[j] == x;
                    assert(s.take(upto)[j] == x);
                } else {
                    assert(x == last);
                    assert(s.take(upto)[upto - 1] == x);
                }
            }
            if s.take(upto).contains(x) {
                let t = s.take(upto);
                let j = choose|j: int| 0 <= j < t.len() && t[j] == x;
                if j < upto - 1 {
                    assert(s.take(upto - 1)[j] == x);
                    assert(before.contains(x));
                    let k = choose|k: int| 0 <= k < before.len() && before[k] == x;
                    assert(distinct(s, upto)[k] == x);
                } else {
                    if before.contains(x) {
                    } else {
                        assert(distinct(s, upto)[before.len() as int] == x);
                    }
                }
            }
        }
    }
}

/// Adds `s` to `v` unless `v` holds its text already.
pub fn push_new(v: &mut Vec<String>, s: String)
    ensures
        texts(final(v)@) == if texts(old(v)@).contains(s@) {
            texts(old(v)@)
        } else {
            texts(old(v)@).push(s@)
        },
{
    if !contains_text(v, s.as_str()) {
        v.push(s);
        assert(texts(v@) =~= texts(old(v)@).push(s@));
    }
}

/// `s` with `pat` taken off its end as often as it stands there; an empty
/// `pat` is never taken off.
pub open spec fn without_suffixes(s: Seq<char>, pat: Seq<char>) -> Seq<char>
    decreases s.len(),
{
    if pat.len() > 0 && has_suffix(s, pat) {
        without_suffixes(s.subrange(0, s.len() - pat.len()), pat)
    } else {
        s
    }
}

/// Computes `without_suffixes`.
pub fn strip_suffixes(s: &Vec<char>, pat: &Vec<char>) -> (out: Vec<char>)
    ensures
        out@ == without_suffixes(s@, pat@),
{
    let mut end: usize = s.len();
    if pat.len() == 0 {
        return slice_of(s, 0, end);
    }
    assert(s@.subrange(0, end as int) == s@);
    loop
        invariant
            end <= s.len(),
            pat.len() > 0,
            without_suffixes(s@.subrange(0, end as int), pat@) == without_suffixes(s@, pat@),
        decreases end,
    {
        let head = slice_of(s, 0, end);
        if !ends_with(&head, pat) {
            return head;
        }
        assert(head@.subrange(0, head@.len() - pat@.len()) == s@.subrange(
            0,
            end - pat@.len(),
        ));
        end -= pat.len();
    }
}

/// How many characters of `s` from `floor` up to, not including, `upto` are
/// in `set`.
pub open spec fn count_in(s: Seq<char>, set: Trim, floor: int, upto: int) -> nat
    decreases upto - floor,
{
    if upto <= floor {
        0
    } else if set.holds(s[upto - 1]) {
        1 + count_in(s, set, floor, upto - 1)
    } else {
        count_in(s, set, floor, upto - 1)
    }
}

/// Computes `count_in`.
pub fn count_set(s: &Vec<char>, set: Trim, floor: usize, upto: usize) -> (r: usize)
    requires
        floor <= upto <= s.len(),
    ensures
        r == count_in(s@, set, floor as int, upto as int),
        r <= upto - floor,
{
    let mut n: usize = 0;
    let mut i: usize = floor;
    while i < upto
        invariant
            floor <= i <= upto <= s.len(),
            n == count_in(s@, set, floor as int, i as int),
            n <= i - floor,
        decreases upto - i,
    {
        if set.test(s[i]) {
            n += 1;
        }
        i += 1;
    }
    n
}

/// Of two texts at most one comes before the other.
pub proof fn lemma_text_before_asymmetric(a: Seq<char>, b: Seq<char>)
    ensures
        !(text_before(a, b) && text_before(b, a)),
    decreases a.len(),
{
    if a.len() > 0 && b.len() > 0 && a[0] == b[0] {
        lemma_text_before_asymmetric(a.drop_first(), b.drop_first());
    }
}

/// Where `c` comes before `a`, every text comes after `c` or before `a`.
pub proof fn lemma_text_before_between(c: Seq<char>, b: Seq<char>, a: Seq<char>)
    requires
        text_before(c, a),
    ensures
        text_before(c, b) || text_before(b, a),
    decreases a.len(),
{
    if b.len() == 0 {
        assert(text_before(b, a));
    } else if c.len() == 0 {
        assert(text_before(c, b));
    } else if c[0] != b[0] && b[0] != a[0] {
        if c[0] < b[0] {
            assert(text_before(c, b));
        } else {
            assert(b[0] < a[0]);
            assert(text_before(b, a));
        }
    } else if c[0] != b[0] {
        assert(b[0] == a[0]);
        assert(text_before(c, b));
    } else if b[0] != a[0] {
        assert(text_before(b, a));
    } else {
        lemma_text_before_between(c.drop_first(), b.drop_first(), a.drop_first());
    }
}

} // verus!
