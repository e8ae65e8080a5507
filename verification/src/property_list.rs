//! Property lists, decoded by the `plist` crate and held as a tree of the
//! library's own.

use crate::text::str_eq;
use vstd::prelude::*;

verus! {

/// The decoder's value type.
#[verifier::external_type_specification]
#[verifier::external_body]
pub struct ExPlistValue(plist::Value);

/// A decoded property list, as far as the catalog rules read one: texts,
/// lists and dictionaries.  Numbers, dates and data are `Other`.
#[derive(Debug)]
pub enum PlistNode {
    Text(String),
    List(Vec<PlistNode>),
    Dict(Vec<(String, PlistNode)>),
    Other,
}

/// The most collections that a property list may open and still be decoded.
pub const MOST_COLLECTIONS: usize = 512;

/// Whether the bytes begin with `bplist00`, the mark of the binary encoding.
pub open spec fn is_binary(bytes: Seq<u8>) -> bool {
    bytes.len() >= 8 && bytes[0] == 98 && bytes[1] == 112 && bytes[2] == 108 && bytes[3] == 105
        && bytes[4] == 115 && bytes[5] == 116 && bytes[6] == 48 && bytes[7] == 48
}

/// Whether the local name of a markup element may begin at `i`: the byte
/// before is `<` or `:`.
pub open spec fn name_begins(bytes: Seq<u8>, i: int) -> bool {
    1 <= i < bytes.len() && (bytes[i - 1] == 60 || bytes[i - 1] == 58)
}

/// Whether the name `date` stands at `i`.
pub open spec fn date_at(bytes: Seq<u8>, i: int) -> bool {
    name_begins(bytes, i) && i + 4 <= bytes.len() && bytes[i] == 100 && bytes[i + 1] == 97
        && bytes[i + 2] == 116 && bytes[i + 3] == 101
}

/// Whether the name `dict` stands at `i`.
pub open spec fn dict_at(bytes: Seq<u8>, i: int) -> bool {
    name_begins(bytes, i) && i + 4 <= bytes.len() && bytes[i] == 100 && bytes[i + 1] == 105
        && bytes[i + 2] == 99 && bytes[i + 3] == 116
}

/// Whether the name `array` stands at `i`.
pub open spec fn array_at(bytes: Seq<u8>, i: int) -> bool {
    name_begins(bytes, i) && i + 5 <= bytes.len() && bytes[i] == 97 && bytes[i + 1] == 114
        && bytes[i + 2] == 114 && bytes[i + 3] == 97 && bytes[i + 4] == 121
}

/// Whether the bytes hold an element named `date`.
pub open spec fn holds_date(bytes: Seq<u8>) -> bool {
    exists|i: int| #[trigger] date_at(bytes, i)
}

/// Whether a collection may open at `i`.  In the binary encoding: a byte
/// whose upper half is that of an array or a dictionary.  In the others: `(`,
/// `{`, or the name `dict` or `array`.
pub open spec fn opens_at(bytes: Seq<u8>, i: int) -> bool {
    0 <= i < bytes.len() && if is_binary(bytes) {
        bytes[i] / 16 == 10 || bytes[i] / 16 == 13
    } else {
        bytes[i] == 40 || bytes[i] == 123 || dict_at(bytes, i) || array_at(bytes, i)
    }
}

/// The number of places before `n` at which a collection may open.
pub open spec fn openers_upto(bytes: Seq<u8>, n: int) -> nat
    decreases n,
{
    if n <= 0 {
        0
    } else if opens_at(bytes, n - 1) {
        openers_upto(bytes, n - 1) + 1
    } else {
        openers_upto(bytes, n - 1)
    }
}

/// The bytes that are handed to the decoder: those that open at most
/// `MOST_COLLECTIONS` collections and, unless they are in the binary
/// encoding, hold no element named `date`.
///
/// This leaves out more than it must.  A property list with a date in markup
/// is not decoded, whatever the date; nor is one with more than
/// `MOST_COLLECTIONS` collections, however shallow, or with as many brackets
/// in its texts.
pub open spec fn decodable(bytes: Seq<u8>) -> bool {
    openers_upto(bytes, bytes.len() as int) <= MOST_COLLECTIONS && (is_binary(bytes)
        || !holds_date(bytes))
}

/// The count of openers does not fall.
pub proof fn lemma_openers_grow(bytes: Seq<u8>, m: int, n: int)
    requires
        m <= n,
    ensures
        openers_upto(bytes, m) <= openers_upto(bytes, n),
    decreases n - m,
{
    if m < n {
        lemma_openers_grow(bytes, m, n - 1);
    }
}

/// Computes `is_binary`.
pub fn starts_binary(bytes: &Vec<u8>) -> (out: bool)
    ensures
        out == is_binary(bytes@),
{
    bytes.len() >= 8 && bytes[0] == 98 && bytes[1] == 112 && bytes[2] == 108 && bytes[3] == 105
        && bytes[4] == 115 && bytes[5] == 116 && bytes[6] == 48 && bytes[7] == 48
}

/// Computes `name_begins`.
fn name_begins_at(bytes: &Vec<u8>, i: usize) -> (out: bool)
    requires
        i < bytes.len(),
    ensures
        out == name_begins(bytes@, i as int),
{
    i >= 1 && (bytes[i - 1] == 60 || bytes[i - 1] == 58)
}

/// Computes `date_at`.
fn date_here(bytes: &Vec<u8>, i: usize) -> (out: bool)
    requires
        i < bytes.len(),
    ensures
        out == date_at(bytes@, i as int),
{
    name_begins_at(bytes, i) && bytes.len() - i >= 4 && bytes[i] == 100 && bytes[i + 1] == 97
        && bytes[i + 2] == 116 && bytes[i + 3] == 101
}

/// Computes `opens_at`.
fn opens_here(bytes: &Vec<u8>, binary: bool, i: usize) -> (out: bool)
    requires
        i < bytes.len(),
        binary == is_binary(bytes@),
    ensures
        out == opens_at(bytes@, i as int),
{
    if binary {
        bytes[i] / 16 == 10 || bytes[i] / 16 == 13
    } else if bytes[i] == 40 || bytes[i] == 123 {
        true
    } else if !name_begins_at(bytes, i) {
        false
    } else {
        let left: usize = bytes.len() - i;
        (left >= 4 && bytes[i] == 100 && bytes[i + 1] == 105 && bytes[i + 2] == 99 && bytes[i + 3]
            == 116) || (left >= 5 && bytes[i] == 97 && bytes[i + 1] == 114 && bytes[i + 2] == 114
            && bytes[i + 3] == 97 && bytes[i + 4] == 121)
    }
}

/// Whether the bytes may be handed to the decoder; computes `decodable`.
pub fn safe_to_decode(bytes: &Vec<u8>) -> (out: bool)
    ensures
        out == decodable(bytes@),
{
    let binary = starts_binary(bytes);
    let mut count: usize = 0;
    let mut i: usize = 0;
    while i < bytes.len()
        invariant
            i <= bytes.len(),
            binary == is_binary(bytes@),
            count == openers_upto(bytes@, i as int),
            count <= MOST_COLLECTIONS,
            binary || forall|j: int| 0 <= j < i ==> !date_at(bytes@, j),
        decreases bytes.len() - i,
    {
        if !binary && date_here(bytes, i) {
            return false;
        }
        if opens_here(bytes, binary, i) {
            if count == MOST_COLLECTIONS {
                proof {
                    lemma_openers_grow(bytes@, i + 1, bytes@.len() as int);
                }
                return false;
            }
            count += 1;
        }
        i += 1;
    }
    true
}

/// What `plist::Value::from_reader` makes of a file's bytes, converted by
/// `node_of`; none where it reports an error.
pub uninterp spec fn decoded_plist(bytes: Seq<u8>) -> Option<PlistNode>;

/// Converts a `plist::Value`, variant by variant: a string, an array and a
/// dictionary keep their contents, in the dictionary's own order; every other
/// variant becomes `Other`.  It calls itself once for each level of nesting.
/// Nothing is stated of the result.
#[verifier::external_body]
fn node_of(value: &plist::Value) -> (out: PlistNode) {
    match value {
        plist::Value::String(text) => PlistNode::Text(text.clone()),
        plist::Value::Array(items) => PlistNode::List(items.iter().map(node_of).collect()),
        plist::Value::Dictionary(dict) => PlistNode::Dict(
            dict.iter().map(|(key, item)| (key.clone(), node_of(item))).collect(),
        ),
        _ => PlistNode::Other,
    }
}

/// Calls `plist::Value::from_reader` on the bytes, which reads a property
/// list in any of its encodings: the binary one where the bytes begin with
/// its mark, else markup, else the bracketed text form.  The result depends
/// on the bytes alone and is named `decoded_plist`.
///
/// Two kinds of input are left out.  The markup reader converts the text of
/// an element whose local name is `date` to universal time, and that
/// conversion fails for a date past the last year it can hold; it reads the
/// bytes as UTF-8, so such a name stands in them as it is, after `<` or
/// after the `:` of a prefix.  And a value
/// is converted, and freed, by a function that calls itself once for each
/// level of nesting, so the nesting has to be bounded; it is at most the
/// number of places at which a collection opens.  The size of the value is
/// not bounded by this: in the binary encoding one object may be a member of
/// many collections, and the decoder writes it out for each.
#[verifier::external_body]
pub(crate) fn decode_plist(bytes: &Vec<u8>) -> (out: Option<PlistNode>)
    requires
        decodable(bytes@),
    ensures
        out == decoded_plist(bytes@),
{
    match plist::Value::from_reader(std::io::Cursor::new(bytes.as_slice())) {
        Ok(value) => Some(node_of(&value)),
        Err(_) => None,
    }
}

/// The property list in a file's bytes: what the decoder makes of them where
/// they are `decodable`, else none.
pub open spec fn plist_of(bytes: Seq<u8>) -> Option<PlistNode> {
    if decodable(bytes) {
        decoded_plist(bytes)
    } else {
        None
    }
}

/// Decodes a property list; computes `plist_of`.  Bytes that are not
/// `decodable` are not handed to the decoder and count as undecodable.
pub fn decode(bytes: &Vec<u8>) -> (out: Option<PlistNode>)
    ensures
        out == plist_of(bytes@),
{
    if safe_to_decode(bytes) {
        decode_plist(bytes)
    } else {
        None
    }
}

/// The index of the first entry at or after `from` whose key is `key`, or the
/// number of entries.
pub open spec fn key_slot_from(entries: Seq<(String, PlistNode)>, key: Seq<char>, from: int) -> int
    decreases entries.len() - from,
{
    if from >= entries.len() {
        entries.len() as int
    } else if entries[from].0@ == key {
        from
    } else {
        key_slot_from(entries, key, from + 1)
    }
}

/// What a dictionary holds under a key, read as a text.
pub enum TextField {
    /// The key is not there, or the node is no dictionary.
    Absent,
    /// The key holds this text.
    Present(Seq<char>),
    /// The key holds something that is no text.
    Mistyped,
}

impl PlistNode {
    /// The index of the entry under `key` where `self` is a dictionary that
    /// has one.
    pub open spec fn slot(self, key: Seq<char>) -> Option<int> {
        match self {
            PlistNode::Dict(entries) => if key_slot_from(entries@, key, 0) < entries.len() {
                Some(key_slot_from(entries@, key, 0))
            } else {
                None
            },
            _ => None,
        }
    }

    /// The node under `key`.
    pub open spec fn child(self, key: Seq<char>) -> Option<PlistNode> {
        match self.slot(key) {
            Some(i) => Some(self->Dict_0[i].1),
            None => None,
        }
    }

    /// The text under `key`.
    pub open spec fn text_at(self, key: Seq<char>) -> TextField {
        match self.child(key) {
            None => TextField::Absent,
            Some(PlistNode::Text(t)) => TextField::Present(t@),
            Some(_) => TextField::Mistyped,
        }
    }

    /// Computes `child`.
    pub fn get(&self, key: &str) -> (out: Option<&PlistNode>)
        ensures
            out is Some == self.child(key@) is Some,
            out is Some ==> *out->0 == self.child(key@)->0,
    {
        match self {
            PlistNode::Dict(entries) => {
                let mut i: usize = 0;
                while i < entries.len()
                    invariant
                        i <= entries.len(),
                        self is Dict,
                        self->Dict_0 == *entries,
                        key_slot_from(entries@, key@, i as int) == key_slot_from(
                            entries@,
                            key@,
                            0,
                        ),
                    decreases entries.len() - i,
                {
                    if str_eq(entries[i].0.as_str(), key) {
                        return Some(&entries[i].1);
                    }
                    i += 1;
                }
                None
            },
            _ => None,
        }
    }

    /// The text of a text node.
    pub fn as_text(&self) -> (out: Option<&String>)
        ensures
            out is Some == self is Text,
            out is Some ==> *out->0 == self->Text_0,
    {
        match self {
            PlistNode::Text(t) => Some(t),
            _ => None,
        }
    }
}

} // verus!
