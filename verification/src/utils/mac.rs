//! Application bundles: the manifest, the layout on disk, and how the name,
//! the executable, the icon and the localized names of a bundle are found.

use crate::common::{App, AppView, ProcessOutput, TextMap};
use crate::disk::{
    find_present, first_present, lemma_first_fit_fits, lemma_first_present_source,
    lemma_only_fit_is_first, lemma_slot,
    name_fits, Disk,
};
use crate::paths::{
    file_name, file_stem, file_stem_of, is_plain_name, join, joined, lemma_file_name_of_joined,
    PathStyle,
};
use crate::property_list::{decode, plist_of, PlistNode, TextField};
use crate::text::{
    chars_of, concat, distinct, ends_with, find_char, find_from, has_prefix, has_suffix, opt_text,
    or_else, push_new, replace, replaced, slice_of, split, split_on, starts_with, std_utf16_lossy,
    std_utf8, std_utf8_lossy, string_of, strip_suffixes, texts, trim, trim_end, trimmed,
    trimmed_end, utf16_lossy, utf8_lossy, without_suffixes, Trim,
};
use vstd::prelude::*;
use vstd::utf8::{decode_utf8, valid_utf8};

verus! {

/// One application as the system profiler reports it.
#[derive(Debug, Clone, PartialEq)]
pub struct MacSystemProfilterAppInfo {
    pub name: String,
    pub arch_kind: String,
    pub last_modified: String,
    pub obtained_from: String,
    pub path: String,
    pub signed_by: Option<Vec<String>>,
    pub version: Option<String>,
    pub info: Option<String>,
}

/// The system profiler's list of applications.
#[derive(Debug, Clone, PartialEq)]
pub struct MacSystemProfilerAppList {
    pub spapplications_data_type: Vec<MacSystemProfilterAppInfo>,
}

/// The primary icon of a mobile bundle.
#[derive(Debug, Clone, PartialEq)]
pub struct CFBundlePrimaryIcon {
    pub cf_bundle_icon_name: Option<String>,
    pub cf_bundle_icon_files: Option<Vec<String>>,
}

/// The icons of a mobile bundle.
#[derive(Debug, Clone, PartialEq)]
pub struct CFBundleIcons {
    pub cf_bundle_primary_icon: Option<CFBundlePrimaryIcon>,
}

/// The fields of a bundle's manifest that are read here.
#[derive(Debug, Clone, PartialEq)]
pub struct InfoPlist {
    pub cf_bundle_icon_file: Option<String>,
    pub cf_bundle_icons: Option<CFBundleIcons>,
    pub cf_bundle_icons_ipad: Option<CFBundleIcons>,
    pub cf_bundle_executable: Option<String>,
    pub cf_bundle_icon_name: Option<String>,
    pub cf_bundle_identifier: Option<String>,
    pub cf_bundle_info_dictionary_version: Option<String>,
    pub cf_bundle_name: Option<String>,
    pub cf_bundle_package_type: Option<String>,
    pub cf_bundle_short_version_string: Option<String>,
    pub cf_bundle_version: Option<String>,
    pub cf_bundle_display_name: Option<String>,
}

/// Why a manifest could not be had.
#[derive(Clone, Copy, Debug, PartialEq, Eq, Structural)]
pub enum ManifestError {
    /// No bytes were read at the path.
    Unreadable,
    /// The bytes are no property list, or one that is not handed to the
    /// decoder (see `decodable`).
    Undecodable,
    /// The property list is no dictionary, or a known key holds a value of
    /// another type than the manifest gives it.
    Mistyped,
}

/// The text under `key`, none where the key is absent.
pub open spec fn text_under(node: PlistNode, key: Seq<char>) -> Option<Seq<char>> {
    match node.text_at(key) {
        TextField::Present(t) => Some(t),
        _ => None,
    }
}

/// Whether every node of a list is a text.
pub open spec fn all_texts(items: Seq<PlistNode>) -> bool {
    forall|i: int| 0 <= i < items.len() ==> #[trigger] items[i] is Text
}

/// The texts of a list of text nodes.
pub open spec fn list_texts(items: Seq<PlistNode>) -> Seq<Seq<char>> {
    Seq::new(items.len(), |i: int| items[i]->Text_0@)
}

/// Whether `node` has the shape of a primary icon.
pub open spec fn primary_icon_shaped(node: PlistNode) -> bool {
    &&& node is Dict
    &&& !(node.text_at("CFBundleIconName"@) is Mistyped)
    &&& match node.child("CFBundleIconFiles"@) {
        None => true,
        Some(PlistNode::List(items)) => all_texts(items@),
        Some(_) => false,
    }
}

/// Whether `node` has the shape of an icons dictionary.
pub open spec fn icons_shaped(node: PlistNode) -> bool {
    &&& node is Dict
    &&& match node.child("CFBundlePrimaryIcon"@) {
        None => true,
        Some(primary) => primary_icon_shaped(primary),
    }
}

/// Whether what `node` holds under `key`, if anything, has the shape of an
/// icons dictionary.
pub open spec fn icons_field_shaped(node: PlistNode, key: Seq<char>) -> bool {
    match node.child(key) {
        None => true,
        Some(icons) => icons_shaped(icons),
    }
}

/// Whether `node` has the shape of a manifest: a dictionary in which every
/// known key, where present, holds a value of the key's type.
pub open spec fn manifest_shaped(node: PlistNode) -> bool {
    &&& node is Dict
    &&& !(node.text_at("CFBundleIconFile"@) is Mistyped)
    &&& icons_field_shaped(node, "CFBundleIcons"@)
    &&& icons_field_shaped(node, "CFBundleIcons~ipad"@)
    &&& !(node.text_at("CFBundleExecutable"@) is Mistyped)
    &&& !(node.text_at("CFBundleIconName"@) is Mistyped)
    &&& !(node.text_at("CFBundleIdentifier"@) is Mistyped)
    &&& !(node.text_at("CFBundleInfoDictionaryVersion"@) is Mistyped)
    &&& !(node.text_at("CFBundleName"@) is Mistyped)
    &&& !(node.text_at("CFBundlePackageType"@) is Mistyped)
    &&& !(node.text_at("CFBundleShortVersionString"@) is Mistyped)
    &&& !(node.text_at("CFBundleVersion"@) is Mistyped)
    &&& !(node.text_at("CFBundleDisplayName"@) is Mistyped)
}

/// What a `CFBundlePrimaryIcon` holds.
pub struct PrimaryIconView {
    pub icon_name: Option<Seq<char>>,
    pub icon_files: Option<Seq<Seq<char>>>,
}

/// What a `CFBundleIcons` holds.
pub struct IconsView {
    pub primary_icon: Option<PrimaryIconView>,
}

/// What an `InfoPlist` holds.
pub struct InfoView {
    pub icon_file: Option<Seq<char>>,
    pub icons: Option<IconsView>,
    pub icons_ipad: Option<IconsView>,
    pub executable: Option<Seq<char>>,
    pub icon_name: Option<Seq<char>>,
    pub identifier: Option<Seq<char>>,
    pub info_dictionary_version: Option<Seq<char>>,
    pub name: Option<Seq<char>>,
    pub package_type: Option<Seq<char>>,
    pub short_version_string: Option<Seq<char>>,
    pub version: Option<Seq<char>>,
    pub display_name: Option<Seq<char>>,
}

impl View for CFBundlePrimaryIcon {
    type V = PrimaryIconView;

    open spec fn view(&self) -> PrimaryIconView {
        PrimaryIconView {
            icon_name: opt_text(self.cf_bundle_icon_name),
            icon_files: match self.cf_bundle_icon_files {
                Some(files) => Some(texts(files@)),
                None => None,
            },
        }
    }
}

impl View for CFBundleIcons {
    type V = IconsView;

    open spec fn view(&self) -> IconsView {
        IconsView {
            primary_icon: match self.cf_bundle_primary_icon {
                Some(primary) => Some(primary@),
                None => None,
            },
        }
    }
}

/// The view of an optional icons dictionary.
pub open spec fn opt_icons(icons: Option<CFBundleIcons>) -> Option<IconsView> {
    match icons {
        Some(i) => Some(i@),
        None => None,
    }
}

impl View for InfoPlist {
    type V = InfoView;

    open spec fn view(&self) -> InfoView {
        InfoView {
            icon_file: opt_text(self.cf_bundle_icon_file),
            icons: opt_icons(self.cf_bundle_icons),
            icons_ipad: opt_icons(self.cf_bundle_icons_ipad),
            executable: opt_text(self.cf_bundle_executable),
            icon_name: opt_text(self.cf_bundle_icon_name),
            identifier: opt_text(self.cf_bundle_identifier),
            info_dictionary_version: opt_text(self.cf_bundle_info_dictionary_version),
            name: opt_text(self.cf_bundle_name),
            package_type: opt_text(self.cf_bundle_package_type),
            short_version_string: opt_text(self.cf_bundle_short_version_string),
            version: opt_text(self.cf_bundle_version),
            display_name: opt_text(self.cf_bundle_display_name),
        }
    }
}

/// The manifest that declares nothing.
pub open spec fn blank_manifest() -> InfoView {
    InfoView {
        icon_file: None,
        icons: None,
        icons_ipad: None,
        executable: None,
        icon_name: None,
        identifier: None,
        info_dictionary_version: None,
        name: None,
        package_type: None,
        short_version_string: None,
        version: None,
        display_name: None,
    }
}

impl Default for MacSystemProfilterAppInfo {
    /// A report with every text empty and nothing optional given.
    fn default() -> (out: MacSystemProfilterAppInfo)
        ensures
            out.name@.len() == 0,
            out.arch_kind@.len() == 0,
            out.last_modified@.len() == 0,
            out.obtained_from@.len() == 0,
            out.path@.len() == 0,
            out.signed_by is None,
            out.version is None,
            out.info is None,
    {
        MacSystemProfilterAppInfo {
            name: String::new(),
            arch_kind: String::new(),
            last_modified: String::new(),
            obtained_from: String::new(),
            path: String::new(),
            signed_by: None,
            version: None,
            info: None,
        }
    }
}

impl Default for MacSystemProfilerAppList {
    /// The list without applications.
    fn default() -> (out: MacSystemProfilerAppList)
        ensures
            out.spapplications_data_type@.len() == 0,
    {
        MacSystemProfilerAppList { spapplications_data_type: Vec::new() }
    }
}

impl Default for CFBundlePrimaryIcon {
    /// The primary icon that names nothing.
    fn default() -> (out: CFBundlePrimaryIcon)
        ensures
            out@ == (PrimaryIconView { icon_name: None, icon_files: None }),
    {
        CFBundlePrimaryIcon { cf_bundle_icon_name: None, cf_bundle_icon_files: None }
    }
}

impl Default for CFBundleIcons {
    /// The icons without a primary icon.
    fn default() -> (out: CFBundleIcons)
        ensures
            out@ == (IconsView { primary_icon: None }),
    {
        CFBundleIcons { cf_bundle_primary_icon: None }
    }
}

impl Default for InfoPlist {
    /// The manifest that declares nothing.
    fn default() -> (out: InfoPlist)
        ensures
            out@ == blank_manifest(),
    {
        InfoPlist {
            cf_bundle_icon_file: None,
            cf_bundle_icons: None,
            cf_bundle_icons_ipad: None,
            cf_bundle_executable: None,
            cf_bundle_icon_name: None,
            cf_bundle_identifier: None,
            cf_bundle_info_dictionary_version: None,
            cf_bundle_name: None,
            cf_bundle_package_type: None,
            cf_bundle_short_version_string: None,
            cf_bundle_version: None,
            cf_bundle_display_name: None,
        }
    }
}

/// The primary icon that a dictionary of that shape holds.
pub open spec fn primary_icon_in(node: PlistNode) -> PrimaryIconView {
    PrimaryIconView {
        icon_name: text_under(node, "CFBundleIconName"@),
        icon_files: match node.child("CFBundleIconFiles"@) {
            Some(PlistNode::List(items)) => Some(list_texts(items@)),
            _ => None,
        },
    }
}

/// The icons that a dictionary of that shape holds.
pub open spec fn icons_in(node: PlistNode) -> IconsView {
    IconsView {
        primary_icon: match node.child("CFBundlePrimaryIcon"@) {
            Some(primary) => Some(primary_icon_in(primary)),
            None => None,
        },
    }
}

/// The icons that `node` holds under `key`.
pub open spec fn icons_under(node: PlistNode, key: Seq<char>) -> Option<IconsView> {
    match node.child(key) {
        Some(icons) => Some(icons_in(icons)),
        None => None,
    }
}

/// The manifest that a dictionary of that shape holds.
pub open spec fn manifest_in(node: PlistNode) -> InfoView {
    InfoView {
        icon_file: text_under(node, "CFBundleIconFile"@),
        icons: icons_under(node, "CFBundleIcons"@),
        icons_ipad: icons_under(node, "CFBundleIcons~ipad"@),
        executable: text_under(node, "CFBundleExecutable"@),
        icon_name: text_under(node, "CFBundleIconName"@),
        identifier: text_under(node, "CFBundleIdentifier"@),
        info_dictionary_version: text_under(node, "CFBundleInfoDictionaryVersion"@),
        name: text_under(node, "CFBundleName"@),
        package_type: text_under(node, "CFBundlePackageType"@),
        short_version_string: text_under(node, "CFBundleShortVersionString"@),
        version: text_under(node, "CFBundleVersion"@),
        display_name: text_under(node, "CFBundleDisplayName"@),
    }
}

/// Reads the text under `key`; fails where the key holds no text.
fn read_text(node: &PlistNode, key: &str) -> (out: Result<Option<String>, ManifestError>)
    ensures
        out is Ok == !(node.text_at(key@) is Mistyped),
        out is Ok ==> opt_text(out->Ok_0) == text_under(*node, key@),
        out is Err ==> out->Err_0 == ManifestError::Mistyped,
{
    match node.get(key) {
        None => Ok(None),
        Some(child) => match child.as_text() {
            Some(t) => Ok(Some(t.clone())),
            None => Err(ManifestError::Mistyped),
        },
    }
}

/// Reads a list of texts; fails where an item is no text.
fn read_texts(items: &Vec<PlistNode>) -> (out: Result<Vec<String>, ManifestError>)
    ensures
        out is Ok == all_texts(items@),
        out is Ok ==> texts(out->Ok_0@) == list_texts(items@),
        out is Err ==> out->Err_0 == ManifestError::Mistyped,
{
    let mut out: Vec<String> = Vec::new();
    let mut i: usize = 0;
    while i < items.len()
        invariant
            i <= items.len(),
            out.len() == i,
            forall|j: int| 0 <= j < i ==> #[trigger] items[j] is Text,
            forall|j: int| 0 <= j < i ==> #[trigger] out[j]@ == items[j]->Text_0@,
        decreases items.len() - i,
    {
        match items[i].as_text() {
            Some(t) => out.push(t.clone()),
            None => {
                return Err(ManifestError::Mistyped);
            },
        }
        i += 1;
    }
    assert(texts(out@) =~= list_texts(items@));
    Ok(out)
}

/// Reads a primary icon.
fn read_primary_icon(node: &PlistNode) -> (out: Result<CFBundlePrimaryIcon, ManifestError>)
    ensures
        out is Ok == primary_icon_shaped(*node),
        out is Ok ==> out->Ok_0@ == primary_icon_in(*node),
        out is Err ==> out->Err_0 == ManifestError::Mistyped,
{
    match node {
        PlistNode::Dict(_) => {},
        _ => {
            return Err(ManifestError::Mistyped);
        },
    }
    let name = match read_text(node, "CFBundleIconName") {
        Ok(v) => v,
        Err(e) => {
            return Err(e);
        },
    };
    let files = match node.get("CFBundleIconFiles") {
        None => None,
        Some(PlistNode::List(items)) => match read_texts(items) {
            Ok(v) => Some(v),
            Err(e) => {
                return Err(e);
            },
        },
        Some(_) => {
            return Err(ManifestError::Mistyped);
        },
    };
    Ok(CFBundlePrimaryIcon { cf_bundle_icon_name: name, cf_bundle_icon_files: files })
}

/// Reads an icons dictionary.
fn read_icons(node: &PlistNode) -> (out: Result<CFBundleIcons, ManifestError>)
    ensures
        out is Ok == icons_shaped(*node),
        out is Ok ==> out->Ok_0@ == icons_in(*node),
        out is Err ==> out->Err_0 == ManifestError::Mistyped,
{
    match node {
        PlistNode::Dict(_) => {},
        _ => {
            return Err(ManifestError::Mistyped);
        },
    }
    let primary = match node.get("CFBundlePrimaryIcon") {
        None => None,
        Some(p) => match read_primary_icon(p) {
            Ok(v) => Some(v),
            Err(e) => {
                return Err(e);
            },
        },
    };
    Ok(CFBundleIcons { cf_bundle_primary_icon: primary })
}

/// Reads the icons dictionary under `key`, if there is one.
fn read_icons_field(node: &PlistNode, key: &str) -> (out: Result<
    Option<CFBundleIcons>,
    ManifestError,
>)
    ensures
        out is Ok == icons_field_shaped(*node, key@),
        out is Ok ==> opt_icons(out->Ok_0) == icons_under(*node, key@),
        out is Err ==> out->Err_0 == ManifestError::Mistyped,
{
    match node.get(key) {
        None => Ok(None),
        Some(c) => match read_icons(c) {
            Ok(v) => Ok(Some(v)),
            Err(e) => Err(e),
        },
    }
}

impl InfoPlist {
    /// Reads a manifest from a decoded property list.  Keys that the manifest
    /// does not know are passed over.
    pub fn from_value(value: &PlistNode) -> (out: Result<InfoPlist, ManifestError>)
        ensures
            out is Ok == manifest_shaped(*value),
            out is Ok ==> out->Ok_0@ == manifest_in(*value),
            out is Err ==> out->Err_0 == ManifestError::Mistyped,
    {
        match value {
            PlistNode::Dict(_) => {},
            _ => {
                return Err(ManifestError::Mistyped);
            },
        }
        let icon_file = match read_text(value, "CFBundleIconFile") {
            Ok(v) => v,
            Err(e) => {
                return Err(e);
            },
        };
        let icons = match read_icons_field(value, "CFBundleIcons") {
            Ok(v) => v,
            Err(e) => {
                return Err(e);
            },
        };
        let icons_ipad = match read_icons_field(value, "CFBundleIcons~ipad") {
            Ok(v) => v,
            Err(e) => {
                return Err(e);
            },
        };
        let executable = match read_text(value, "CFBundleExecutable") {
            Ok(v) => v,
            Err(e) => {
                return Err(e);
            },
        };
        let icon_name = match read_text(value, "CFBundleIconName") {
            Ok(v) => v,
            Err(e) => {
                return Err(e);
            },
        };
        let identifier = match read_text(value, "CFBundleIdentifier") {
            Ok(v) => v,
            Err(e) => {
                return Err(e);
            },
        };
        let dictionary_version = match read_text(value, "CFBundleInfoDictionaryVersion") {
            Ok(v) => v,
            Err(e) => {
                return Err(e);
            },
        };
        let name = match read_text(value, "CFBundleName") {
            Ok(v) => v,
            Err(e) => {
                return Err(e);
            },
        };
        let package_type = match read_text(value, "CFBundlePackageType") {
            Ok(v) => v,
            Err(e) => {
                return Err(e);
            },
        };
        let short_version = match read_text(value, "CFBundleShortVersionString") {
            Ok(v) => v,
            Err(e) => {
                return Err(e);
            },
        };
        let version = match read_text(value, "CFBundleVersion") {
            Ok(v) => v,
            Err(e) => {
                return Err(e);
            },
        };
        let display_name = match read_text(value, "CFBundleDisplayName") {
            Ok(v) => v,
            Err(e) => {
                return Err(e);
            },
        };
        Ok(
            InfoPlist {
                cf_bundle_icon_file: icon_file,
                cf_bundle_icons: icons,
                cf_bundle_icons_ipad: icons_ipad,
                cf_bundle_executable: executable,
                cf_bundle_icon_name: icon_name,
                cf_bundle_identifier: identifier,
                cf_bundle_info_dictionary_version: dictionary_version,
                cf_bundle_name: name,
                cf_bundle_package_type: package_type,
                cf_bundle_short_version_string: short_version,
                cf_bundle_version: version,
                cf_bundle_display_name: display_name,
            },
        )
    }

    /// What `from_file` returns for the bytes read at a path, if any.
    pub open spec fn file_outcome(content: Option<Seq<u8>>) -> Result<PlistNode, ManifestError> {
        match content {
            None => Err(ManifestError::Unreadable),
            Some(bytes) => match plist_of(bytes) {
                None => Err(ManifestError::Undecodable),
                Some(node) => if manifest_shaped(node) {
                    Ok(node)
                } else {
                    Err(ManifestError::Mistyped)
                },
            },
        }
    }

    /// Reads the manifest that the snapshot holds at `path`.
    pub fn from_file(path: &str, disk: &Disk) -> (out: Result<InfoPlist, ManifestError>)
        ensures
            out is Ok == Self::file_outcome(disk.content(path@)) is Ok,
            out is Ok ==> out->Ok_0@ == manifest_in(Self::file_outcome(disk.content(path@))->Ok_0),
            out is Err ==> Self::file_outcome(disk.content(path@)) == Err::<
                PlistNode,
                ManifestError,
            >(out->Err_0),
    {
        match disk.read(path) {
            None => Err(ManifestError::Unreadable),
            Some(bytes) => Self::from_decoded(decode(bytes)),
        }
    }

    /// What is made of a decoder's result.
    pub fn from_decoded(decoded: Option<PlistNode>) -> (out: Result<InfoPlist, ManifestError>)
        ensures
            out is Ok == (decoded is Some && manifest_shaped(decoded->0)),
            out is Ok ==> out->Ok_0@ == manifest_in(decoded->0),
            decoded is None ==> out == Err::<InfoPlist, ManifestError>(ManifestError::Undecodable),
            decoded is Some && !manifest_shaped(decoded->0) ==> out == Err::<
                InfoPlist,
                ManifestError,
            >(ManifestError::Mistyped),
    {
        match decoded {
            None => Err(ManifestError::Undecodable),
            Some(node) => InfoPlist::from_value(&node),
        }
    }
}

/// Each of `files` with each of `scales` behind it: all scales of the first
/// file, then all of the second, and so on.
pub open spec fn scaled(files: Seq<Seq<char>>, scales: Seq<Seq<char>>) -> Seq<Seq<char>>
    decreases files.len(),
{
    if files.len() == 0 {
        Seq::empty()
    } else {
        scaled(files.drop_last(), scales) + Seq::new(
            scales.len(),
            |j: int| files.last() + scales[j],
        )
    }
}

/// Computes `scaled`.
pub fn scale_names(files: &Vec<String>, scales: &Vec<String>) -> (out: Vec<String>)
    ensures
        texts(out@) == scaled(texts(files@), texts(scales@)),
{
    let mut out: Vec<String> = Vec::new();
    let mut i: usize = 0;
    assert(texts(files@).take(0) == Seq::<Seq<char>>::empty());
    assert(texts(out@) == Seq::<Seq<char>>::empty());
    while i < files.len()
        invariant
            i <= files.len(),
            texts(out@) == scaled(texts(files@).take(i as int), texts(scales@)),
        decreases files.len() - i,
    {
        let ghost before = texts(out@);
        let ghost file = files[i as int]@;
        let mut j: usize = 0;
        while j < scales.len()
            invariant
                j <= scales.len(),
                i < files.len(),
                file == files[i as int]@,
                texts(out@) == before + Seq::new(j as nat, |k: int| file + texts(scales@)[k]),
            decreases scales.len() - j,
        {
            let ghost sofar = texts(out@);
            let name = concat(&chars_of(files[i].as_str()), &chars_of(scales[j].as_str()));
            out.push(string_of(&name));
            assert(texts(out@) == sofar.push(file + texts(scales@)[j as int]));
            assert(Seq::new((j + 1) as nat, |k: int| file + texts(scales@)[k]) == Seq::new(
                j as nat,
                |k: int| file + texts(scales@)[k],
            ).push(file + texts(scales@)[j as int]));
            j += 1;
        }
        proof {
            let ghost upto = texts(files@).take(i + 1);
            assert(upto.drop_last() == texts(files@).take(i as int));
            assert(upto.last() == file);
            assert(Seq::new(scales.len() as nat, |k: int| file + texts(scales@)[k]) == Seq::new(
                texts(scales@).len(),
                |k: int| upto.last() + texts(scales@)[k],
            ));
        }
        i += 1;
    }
    assert(texts(files@).take(files.len() as int) == texts(files@));
    out
}

/// The suffixes tried behind an icon file name of a phone bundle.
pub open spec fn phone_scales() -> Seq<Seq<char>> {
    seq![".png"@, "@2x.png"@, "@3x.png"@]
}

/// The suffixes tried behind an icon file name of a tablet bundle.
pub open spec fn tablet_scales() -> Seq<Seq<char>> {
    seq![".png"@, "@2x.png"@]
}

/// The icon file names that mobile bundles commonly use.
pub open spec fn common_mobile_icons() -> Seq<Seq<char>> {
    seq![
        "AppIcon60x60@2x.png"@,
        "AppIcon60x60@3x.png"@,
        "AppIcon76x76@2x~ipad.png"@,
        "AppIcon83.5x83.5@2x~ipad.png"@,
        "AppIcon29x29@2x.png"@,
        "AppIcon40x40@2x.png"@,
        "AppIcon57x57@2x.png"@,
        "AppIcon72x72@2x~ipad.png"@,
    ]
}

/// The icon file names that desktop bundles commonly use.
pub open spec fn common_icons() -> Seq<Seq<char>> {
    seq!["AppIcon.icns"@, "app.icns"@, "icon.icns"@, "application.icns"@]
}

/// The list of one name.
fn one_name(name: &str) -> (out: Vec<String>)
    ensures
        texts(out@) == seq![name@],
{
    let mut out: Vec<String> = Vec::new();
    out.push(name.to_owned());
    assert(texts(out@) =~= seq![name@]);
    out
}

/// `phone_scales` as strings.
fn phone_scale_list() -> (out: Vec<String>)
    ensures
        texts(out@) == phone_scales(),
{
    let mut out: Vec<String> = Vec::new();
    out.push(".png".to_owned());
    out.push("@2x.png".to_owned());
    out.push("@3x.png".to_owned());
    assert(texts(out@) =~= phone_scales());
    out
}

/// `tablet_scales` as strings.
fn tablet_scale_list() -> (out: Vec<String>)
    ensures
        texts(out@) == tablet_scales(),
{
    let mut out: Vec<String> = Vec::new();
    out.push(".png".to_owned());
    out.push("@2x.png".to_owned());
    assert(texts(out@) =~= tablet_scales());
    out
}

/// `common_mobile_icons` as strings.
fn common_mobile_icon_list() -> (out: Vec<String>)
    ensures
        texts(out@) == common_mobile_icons(),
{
    let mut out: Vec<String> = Vec::new();
    out.push("AppIcon60x60@2x.png".to_owned());
    out.push("AppIcon60x60@3x.png".to_owned());
    out.push("AppIcon76x76@2x~ipad.png".to_owned());
    out.push("AppIcon83.5x83.5@2x~ipad.png".to_owned());
    out.push("AppIcon29x29@2x.png".to_owned());
    out.push("AppIcon40x40@2x.png".to_owned());
    out.push("AppIcon57x57@2x.png".to_owned());
    out.push("AppIcon72x72@2x~ipad.png".to_owned());
    assert(texts(out@) =~= common_mobile_icons());
    out
}

/// `common_icons` as strings.
fn common_icon_list() -> (out: Vec<String>)
    ensures
        texts(out@) == common_icons(),
{
    let mut out: Vec<String> = Vec::new();
    out.push("AppIcon.icns".to_owned());
    out.push("app.icns".to_owned());
    out.push("icon.icns".to_owned());
    out.push("application.icns".to_owned());
    assert(texts(out@) =~= common_icons());
    out
}

/// The icon file names of an optional icons dictionary; none where a level is
/// absent.
pub open spec fn icon_files(icons: Option<IconsView>) -> Seq<Seq<char>> {
    match icons {
        Some(
            IconsView { primary_icon: Some(PrimaryIconView { icon_files: Some(files), .. }) },
        ) => files,
        _ => Seq::empty(),
    }
}

/// `name`, with `.icns` behind it unless it ends so already.
pub open spec fn with_icns(name: Seq<char>) -> Seq<char> {
    if has_suffix(name, ".icns"@) {
        name
    } else {
        name + ".icns"@
    }
}

/// The icon of a mobile bundle whose files stand in `root`: the first hit of
/// the manifest's icon files at the phone scales, its tablet icon files at the
/// tablet scales, the common names, the asset catalog, any `AppIcon*.png`, any
/// `Icon*.png`.
pub open spec fn mobile_icon(info: InfoView, root: Seq<char>, disk: Disk) -> Option<Seq<char>> {
    or_else(
        first_present(
            disk,
            root,
            scaled(icon_files(info.icons), phone_scales()),
            PathStyle::Unix,
            0,
        ),
        or_else(
            first_present(
                disk,
                root,
                scaled(icon_files(info.icons_ipad), tablet_scales()),
                PathStyle::Unix,
                0,
            ),
            or_else(
                first_present(disk, root, common_mobile_icons(), PathStyle::Unix, 0),
                or_else(
                    first_present(disk, root, seq!["Assets.car"@], PathStyle::Unix, 0),
                    or_else(
                        disk.first_fit(root, PathStyle::Unix, "AppIcon"@, ".png"@, false),
                        disk.first_fit(root, PathStyle::Unix, "Icon"@, ".png"@, false),
                    ),
                ),
            ),
        ),
    )
}

/// The icon of a desktop bundle whose resources stand in `resources`: the
/// first hit of the manifest's icon file, its icon name, the common names, any
/// `*.icns`, the asset catalog.
pub open spec fn desktop_icon(info: InfoView, resources: Seq<char>, disk: Disk) -> Option<
    Seq<char>,
> {
    or_else(
        match info.icon_file {
            Some(f) => first_present(disk, resources, seq![with_icns(f)], PathStyle::Unix, 0),
            None => None,
        },
        or_else(
            match info.icon_name {
                Some(n) => first_present(disk, resources, seq![n + ".icns"@], PathStyle::Unix, 0),
                None => None,
            },
            or_else(
                first_present(disk, resources, common_icons(), PathStyle::Unix, 0),
                or_else(
                    disk.first_fit(resources, PathStyle::Unix, Seq::empty(), ".icns"@, false),
                    first_present(disk, resources, seq!["Assets.car"@], PathStyle::Unix, 0),
                ),
            ),
        ),
    )
}

/// The icon of a bundle.
pub open spec fn icon_choice(
    info: InfoView,
    resources: Seq<char>,
    mobile: bool,
    disk: Disk,
) -> Option<
    Seq<char>,
> {
    if mobile {
        mobile_icon(info, resources, disk)
    } else {
        desktop_icon(info, resources, disk)
    }
}

/// The icon file names of an optional icons dictionary, as strings.
fn icon_file_list(icons: &Option<CFBundleIcons>) -> (out: Vec<String>)
    ensures
        texts(out@) == icon_files(opt_icons(*icons)),
{
    let mut out: Vec<String> = Vec::new();
    if let Some(i) = icons {
        if let Some(primary) = &i.cf_bundle_primary_icon {
            if let Some(files) = &primary.cf_bundle_icon_files {
                let mut k: usize = 0;
                while k < files.len()
                    invariant
                        k <= files.len(),
                        out.len() == k,
                        forall|j: int| 0 <= j < k ==> #[trigger] out[j]@ == files[j]@,
                    decreases files.len() - k,
                {
                    out.push(files[k].clone());
                    k += 1;
                }
                assert(texts(out@) =~= texts(files@));
                return out;
            }
        }
    }
    assert(texts(out@) =~= Seq::<Seq<char>>::empty());
    out
}

/// Where the wrapper directory of a mobile bundle stands.
pub open spec fn wrapper_of(path: Seq<char>) -> Seq<char> {
    joined(path, "Wrapper"@, PathStyle::Unix)
}

/// Whether the bundle wraps a mobile bundle.
pub open spec fn is_wrapped(path: Seq<char>, disk: Disk) -> bool {
    disk.present(wrapper_of(path))
}

/// The first `*.app` in the wrapper directory.
pub open spec fn inner_bundle_of(path: Seq<char>, disk: Disk) -> Option<Seq<char>> {
    if is_wrapped(path, disk) {
        disk.first_fit(wrapper_of(path), PathStyle::Unix, Seq::empty(), ".app"@, false)
    } else {
        None
    }
}

/// Where the manifest stands, if it is on the disk: in the inner bundle of
/// a mobile bundle, else under `Contents`.
pub open spec fn manifest_path_of(path: Seq<char>, disk: Disk) -> Option<Seq<char>> {
    let place = if is_wrapped(path, disk) {
        match inner_bundle_of(path, disk) {
            Some(inner) => Some(joined(inner, "Info.plist"@, PathStyle::Unix)),
            None => None,
        }
    } else {
        Some(
            joined(
                joined(path, "Contents"@, PathStyle::Unix),
                "Info.plist"@,
                PathStyle::Unix,
            ),
        )
    };
    match place {
        Some(p) => if disk.present(p) {
            Some(p)
        } else {
            None
        },
        None => None,
    }
}

/// Whether the path holds an application: it exists and has a manifest,
/// and a desktop bundle also has a resources directory.
pub open spec fn is_bundle_at(path: Seq<char>, disk: Disk) -> bool {
    &&& disk.present(path)
    &&& manifest_path_of(path, disk) is Some
    &&& !is_wrapped(path, disk) ==> disk.present(
        joined(path, "Contents/Resources"@, PathStyle::Unix),
    )
}

/// The directory of a desktop bundle's resources.
pub open spec fn resources_of(path: Seq<char>) -> Seq<char> {
    joined(path, "Contents/Resources"@, PathStyle::Unix)
}

/// The localized display names of the bundle: those of the table of
/// locales, then those of the `*.lproj` directories.  A mobile bundle has
/// none.
pub open spec fn localized_names_of(path: Seq<char>, disk: Disk) -> Map<Seq<char>, Seq<char>> {
    let table = joined(resources_of(path), "InfoPlist.loctable"@, PathStyle::Unix);
    let base = match disk.content(table) {
        Some(bytes) => match plist_of(bytes) {
            Some(node) => loctable_names(node, Map::empty()),
            None => Map::empty(),
        },
        None => Map::empty(),
    };
    if is_wrapped(path, disk) {
        Map::empty()
    } else {
        lproj_names(disk, resources_of(path), base, disk.entries@.len() as int)
    }
}

/// The executable of a bundle whose binaries stand in `dir`: the one that
/// the manifest names, where it is on the disk.  A manifest that names none,
/// or one that is not there, gives none.
pub open spec fn executable_in(dir: Seq<char>, info: InfoView, disk: Disk) -> Option<Seq<char>> {
    match info.executable {
        Some(e) => if disk.present(joined(dir, e, PathStyle::Unix)) {
            Some(joined(dir, e, PathStyle::Unix))
        } else {
            None
        },
        None => None,
    }
}

/// Computes `executable_in`.
pub fn find_executable(dir: &str, info_plist: &InfoPlist, disk: &Disk) -> (out: Option<String>)
    ensures
        opt_text(out) == executable_in(dir@, info_plist@, *disk),
{
    match &info_plist.cf_bundle_executable {
        Some(executable) => {
            let app_path_exe = join(dir, executable.as_str(), PathStyle::Unix);
            if disk.has(app_path_exe.as_str()) {
                Some(app_path_exe)
            } else {
                None
            }
        },
        None => None,
    }
}

/// The record of the bundle, given its manifest.  The binaries of a mobile
/// bundle stand in its inner bundle, those of a desktop bundle under
/// `Contents/MacOS`; the record names an executable only where it is on the
/// disk.
pub open spec fn app_with_manifest(
    path: Seq<char>,
    info: InfoView,
    disk: Disk,
) -> Option<AppView> {
    let contents = joined(path, "Contents"@, PathStyle::Unix);
    if bundle_name(info, path) is None {
        None
    } else if is_wrapped(path, disk) {
        match inner_bundle_of(path, disk) {
            Some(inner) => Some(
                AppView {
                    name: bundle_name(info, path)->0,
                    localized_app_names: localized_names_of(path, disk),
                    icon_path: icon_choice(info, inner, true, disk),
                    app_path_exe: executable_in(inner, info, disk),
                    app_desktop_path: path,
                },
            ),
            None => None,
        }
    } else {
        Some(
            AppView {
                name: bundle_name(info, path)->0,
                localized_app_names: localized_names_of(path, disk),
                icon_path: icon_choice(
                    info,
                    joined(contents, "Resources"@, PathStyle::Unix),
                    false,
                    disk,
                ),
                app_path_exe: executable_in(
                    joined(contents, "MacOS"@, PathStyle::Unix),
                    info,
                    disk,
                ),
                app_desktop_path: path,
            },
        )
    }
}

/// The record of the bundle: none where the path holds no application or
/// its manifest cannot be read.
pub open spec fn app_at(path: Seq<char>, disk: Disk) -> Option<AppView> {
    if !is_bundle_at(path, disk) {
        None
    } else {
        match InfoPlist::file_outcome(disk.content(manifest_path_of(path, disk)->0)) {
            Ok(node) => app_with_manifest(path, manifest_in(node), disk),
            Err(_) => None,
        }
    }
}

/// The directories of a bundle whose entries the rules look at: `Contents`,
/// `Contents/MacOS`, `Contents/Resources` and `Wrapper`.
pub open spec fn layout_of(path: Seq<char>) -> Seq<Seq<char>> {
    seq![
        joined(path, "Contents"@, PathStyle::Unix),
        joined(joined(path, "Contents"@, PathStyle::Unix), "MacOS"@, PathStyle::Unix),
        resources_of(path),
        wrapper_of(path),
    ]
}

/// A bundle directory, by its path.
#[derive(Debug)]
pub struct MacAppPath(String);

impl View for MacAppPath {
    type V = Seq<char>;

    closed spec fn view(&self) -> Seq<char> {
        self.0@
    }
}

impl MacAppPath {
    /// The bundle at `path`.
    pub fn new(path: String) -> (out: MacAppPath)
        ensures
            out@ == path@,
    {
        MacAppPath(path)
    }

    /// Computes `layout_of`.
    pub fn layout(&self) -> (out: Vec<String>)
        ensures
            texts(out@) == layout_of(self@),
    {
        let contents = join(self.0.as_str(), "Contents", PathStyle::Unix);
        let mut out: Vec<String> = Vec::new();
        out.push(contents.clone());
        out.push(join(contents.as_str(), "MacOS", PathStyle::Unix));
        out.push(join(self.0.as_str(), "Contents/Resources", PathStyle::Unix));
        out.push(join(self.0.as_str(), "Wrapper", PathStyle::Unix));
        assert(texts(out@) =~= layout_of(self@));
        out
    }

    /// Whether the path holds an application; tests `is_bundle_at`.
    pub fn is_app(&self, disk: &Disk) -> (r: bool)
        ensures
            r == is_bundle_at(self@, *disk),
    {
        if !disk.has(self.0.as_str()) {
            return false;
        }
        if self.has_wrapper(disk) {
            self.has_info_plist(disk)
        } else {
            let has_info_plist = self.has_info_plist(disk);
            let resources = join(self.0.as_str(), "Contents/Resources", PathStyle::Unix);
            has_info_plist && disk.has(resources.as_str())
        }
    }

    /// Whether the bundle wraps a mobile bundle; tests `is_wrapped`.
    pub fn has_wrapper(&self, disk: &Disk) -> (r: bool)
        ensures
            r == is_wrapped(self@, *disk),
    {
        match self.get_wrapper_path(disk) {
            Some(path) => disk.has(path.as_str()),
            None => false,
        }
    }

    /// The wrapper directory, where it is on the disk.
    pub fn get_wrapper_path(&self, disk: &Disk) -> (out: Option<String>)
        ensures
            out is Some == is_wrapped(self@, *disk),
            out is Some ==> out->0@ == wrapper_of(self@),
    {
        let path = join(self.0.as_str(), "Wrapper", PathStyle::Unix);
        if disk.has(path.as_str()) {
            Some(path)
        } else {
            None
        }
    }

    /// The first `*.app` in the wrapper directory; computes `inner_bundle_of`.
    pub fn get_app_path_in_wrapper(&self, disk: &Disk) -> (out: Option<String>)
        ensures
            opt_text(out) == inner_bundle_of(self@, *disk),
    {
        proof {
            reveal_strlit("");
            assert(""@ == Seq::<char>::empty());
        }
        match self.get_wrapper_path(disk) {
            None => None,
            Some(wrapper) => disk.find_fit(wrapper.as_str(), PathStyle::Unix, "", ".app", false),
        }
    }

    /// Whether the manifest is on the disk.
    pub fn has_info_plist(&self, disk: &Disk) -> (r: bool)
        ensures
            r == manifest_path_of(self@, *disk) is Some,
    {
        self.get_info_plist_path(disk).is_some()
    }

    /// Where the manifest stands, if it is on the disk; computes
    /// `manifest_path_of`.
    pub fn get_info_plist_path(&self, disk: &Disk) -> (out: Option<String>)
        ensures
            opt_text(out) == manifest_path_of(self@, *disk),
    {
        if self.has_wrapper(disk) {
            match self.get_app_path_in_wrapper(disk) {
                None => None,
                Some(inner) => {
                    let path = join(inner.as_str(), "Info.plist", PathStyle::Unix);
                    if disk.has(path.as_str()) {
                        Some(path)
                    } else {
                        None
                    }
                },
            }
        } else {
            let contents = join(self.0.as_str(), "Contents", PathStyle::Unix);
            let path = join(contents.as_str(), "Info.plist", PathStyle::Unix);
            if disk.has(path.as_str()) {
                Some(path)
            } else {
                None
            }
        }
    }

    /// The icon of the bundle: an ordered list of places is tried, of which
    /// the first that is on the disk is taken.  Computes `icon_choice`.
    pub fn find_icon_path(
        &self,
        info_plist: &InfoPlist,
        resources_path: &str,
        is_ios_app: bool,
        disk: &Disk,
    ) -> (out: Option<String>)
        ensures
            opt_text(out) == icon_choice(info_plist@, resources_path@, is_ios_app, *disk),
    {
        if is_ios_app {
            let files = icon_file_list(&info_plist.cf_bundle_icons);
            let found = find_present(
                disk,
                resources_path,
                &scale_names(&files, &phone_scale_list()),
                PathStyle::Unix,
            );
            if found.is_some() {
                return found;
            }
            let files = icon_file_list(&info_plist.cf_bundle_icons_ipad);
            let found = find_present(
                disk,
                resources_path,
                &scale_names(&files, &tablet_scale_list()),
                PathStyle::Unix,
            );
            if found.is_some() {
                return found;
            }
            let found = find_present(
                disk,
                resources_path,
                &common_mobile_icon_list(),
                PathStyle::Unix,
            );
            if found.is_some() {
                return found;
            }
            let found = find_present(
                disk,
                resources_path,
                &one_name("Assets.car"),
                PathStyle::Unix,
            );
            if found.is_some() {
                return found;
            }
            let found = disk.find_fit(resources_path, PathStyle::Unix, "AppIcon", ".png", false);
            if found.is_some() {
                return found;
            }
            disk.find_fit(resources_path, PathStyle::Unix, "Icon", ".png", false)
        } else {
            if let Some(icon_file_name) = &info_plist.cf_bundle_icon_file {
                let name = chars_of(icon_file_name.as_str());
                let suffix = chars_of(".icns");
                let file = if ends_with(&name, &suffix) {
                    name
                } else {
                    concat(&name, &suffix)
                };
                let found = find_present(
                    disk,
                    resources_path,
                    &one_name(string_of(&file).as_str()),
                    PathStyle::Unix,
                );
                if found.is_some() {
                    return found;
                }
            }
            if let Some(icon_name) = &info_plist.cf_bundle_icon_name {
                let file = concat(&chars_of(icon_name.as_str()), &chars_of(".icns"));
                let found = find_present(
                    disk,
                    resources_path,
                    &one_name(string_of(&file).as_str()),
                    PathStyle::Unix,
                );
                if found.is_some() {
                    return found;
                }
            }
            let found = find_present(disk, resources_path, &common_icon_list(), PathStyle::Unix);
            if found.is_some() {
                return found;
            }
            proof {
                reveal_strlit("");
                assert(""@ == Seq::<char>::empty());
            }
            let found = disk.find_fit(resources_path, PathStyle::Unix, "", ".icns", false);
            if found.is_some() {
                return found;
            }
            find_present(disk, resources_path, &one_name("Assets.car"), PathStyle::Unix)
        }
    }
}

/// The texts of a dictionary's first `upto` entries, by key; entries that
/// hold no text are passed over.
pub open spec fn dict_texts(entries: Seq<(String, PlistNode)>, upto: int) -> Map<
    Seq<char>,
    Seq<char>,
>
    decreases upto,
{
    if upto <= 0 {
        Map::empty()
    } else {
        let before = dict_texts(entries, upto - 1);
        match entries[upto - 1].1 {
            PlistNode::Text(t) => before.insert(entries[upto - 1].0@, t@),
            _ => before,
        }
    }
}

/// Whether a trimmed line of a strings file holds no entry: it is empty or
/// part of a comment.
pub open spec fn is_comment(line: Seq<char>) -> bool {
    ||| line.len() == 0
    ||| has_prefix(line, "/*"@)
    ||| has_prefix(line, "//"@)
    ||| has_suffix(line, "*/"@)
}

/// The key and the value of a line `key = "value";` of a strings file.  The
/// quotes round either and the semicolon are optional; a line without `=`
/// holds no entry.
pub open spec fn line_entry(line: Seq<char>) -> Option<(Seq<char>, Seq<char>)> {
    let t = trimmed(line, Trim::Space);
    let eq = find_from(t, '=', 0);
    if is_comment(t) || eq >= t.len() {
        None
    } else {
        Some(
            (
                trimmed(trimmed(t.subrange(0, eq), Trim::Space), Trim::Exactly('"')),
                trimmed(
                    trimmed_end(
                        trimmed(t.subrange(eq + 1, t.len() as int), Trim::Space),
                        Trim::Exactly(';'),
                    ),
                    Trim::Exactly('"'),
                ),
            ),
        )
    }
}

/// The entries of the first `upto` lines.
pub open spec fn lines_map(lines: Seq<Seq<char>>, upto: int) -> Map<Seq<char>, Seq<char>>
    decreases upto,
{
    if upto <= 0 {
        Map::empty()
    } else {
        let before = lines_map(lines, upto - 1);
        match line_entry(lines[upto - 1]) {
            Some((key, value)) => before.insert(key, value),
            None => before,
        }
    }
}

/// The 16-bit units of a little-endian UTF-16 text behind its two-byte mark;
/// an odd last byte is dropped.
pub open spec fn little_endian_units(bytes: Seq<u8>) -> Seq<u16> {
    if bytes.len() < 2 {
        Seq::empty()
    } else {
        Seq::new(
            ((bytes.len() - 2) / 2) as nat,
            |i: int| (bytes[2 + 2 * i] as int + 256 * (bytes[3 + 2 * i] as int)) as u16,
        )
    }
}

/// The text of a strings file: UTF-16 where it starts with the little-endian
/// byte order mark, else UTF-8.
pub open spec fn strings_text(bytes: Seq<u8>) -> Seq<char> {
    if bytes.len() >= 2 && bytes[0] == 0xFF && bytes[1] == 0xFE {
        utf16_lossy(little_endian_units(bytes))
    } else {
        utf8_lossy(bytes)
    }
}

/// The entries of a strings file: those of the dictionary where the bytes
/// decode to one, else those of the lines of its text.
pub open spec fn strings_entries(bytes: Seq<u8>) -> Map<Seq<char>, Seq<char>> {
    match plist_of(bytes) {
        Some(PlistNode::Dict(entries)) => dict_texts(entries@, entries@.len() as int),
        _ => text_entries(strings_text(bytes)),
    }
}

/// The entries of the strings file at `path`; none where no bytes were read
/// there.
pub open spec fn strings_at(disk: Disk, path: Seq<char>) -> Map<Seq<char>, Seq<char>> {
    match disk.content(path) {
        Some(bytes) => strings_entries(bytes),
        None => Map::empty(),
    }
}

/// The key and the value of one line of a strings file; computes
/// `line_entry`.
pub fn parse_strings_line(line: &Vec<char>) -> (out: Option<(String, String)>)
    ensures
        match (out, line_entry(line@)) {
            (Some(found), Some(entry)) => found.0@ == entry.0 && found.1@ == entry.1,
            (None, None) => true,
            _ => false,
        },
{
    let t = trim(line, Trim::Space);
    if t.len() == 0 || starts_with(&t, &chars_of("/*")) || starts_with(&t, &chars_of("//"))
        || ends_with(&t, &chars_of("*/")) {
        return None;
    }
    let eq = find_char(&t, '=', 0);
    if eq >= t.len() {
        return None;
    }
    let key = trim(&trim(&slice_of(&t, 0, eq), Trim::Space), Trim::Exactly('"'));
    let value = trim(
        &trim_end(&trim(&slice_of(&t, eq + 1, t.len()), Trim::Space), Trim::Exactly(';')),
        Trim::Exactly('"'),
    );
    Some((string_of(&key), string_of(&value)))
}

/// Computes `little_endian_units`.
pub fn units_of(bytes: &Vec<u8>) -> (out: Vec<u16>)
    ensures
        out@ == little_endian_units(bytes@),
{
    let mut out: Vec<u16> = Vec::new();
    if bytes.len() < 2 {
        return out;
    }
    let mut i: usize = 2;
    while i < bytes.len() && bytes.len() - i >= 2
        invariant
            2 <= i <= bytes.len(),
            i == 2 + 2 * out.len(),
            forall|k: int|
                0 <= k < out.len() ==> #[trigger] out[k] == (bytes[2 + 2 * k] as int + 256 * (
                bytes[3 + 2 * k] as int)) as u16,
        decreases bytes.len() - i,
    {
        let lo: u16 = bytes[i] as u16;
        let hi: u16 = bytes[i + 1] as u16;
        out.push(lo + hi * 256);
        i += 2;
    }
    assert(out@ =~= little_endian_units(bytes@));
    out
}

/// The entries of the text of a strings file: those of its lines.
pub open spec fn text_entries(text: Seq<char>) -> Map<Seq<char>, Seq<char>> {
    lines_map(split_on(text, '\n'), split_on(text, '\n').len() as int)
}

/// The entries of the text of a strings file, line by line; computes
/// `text_entries`.
pub fn strings_of_text(text: &str) -> (out: TextMap)
    ensures
        out@ == text_entries(text@),
{
    let mut result = TextMap::new();
    let lines = split(&chars_of(text), '\n');
    let ghost all = split_on(text@, '\n');
    let mut i: usize = 0;
    while i < lines.len()
        invariant
            i <= lines.len(),
            lines.len() == all.len(),
            forall|k: int| 0 <= k < lines.len() ==> #[trigger] lines[k]@ == all[k],
            result@ == lines_map(all, i as int),
        decreases lines.len() - i,
    {
        if let Some((key, value)) = parse_strings_line(&lines[i]) {
            result.insert(key, value);
        }
        i += 1;
    }
    result
}

/// The texts of a decoded dictionary, by key; computes `dict_texts`.
pub fn strings_of_dictionary(entries: &Vec<(String, PlistNode)>) -> (out: TextMap)
    ensures
        out@ == dict_texts(entries@, entries@.len() as int),
{
    let mut result = TextMap::new();
    let mut i: usize = 0;
    while i < entries.len()
        invariant
            i <= entries.len(),
            result@ == dict_texts(entries@, i as int),
        decreases entries.len() - i,
    {
        if let PlistNode::Text(t) = &entries[i].1 {
            result.insert(entries[i].0.clone(), t.clone());
        }
        i += 1;
    }
    result
}

/// Computes `strings_entries` from the bytes of a strings file and from what
/// the decoder made of them.
pub fn strings_from(bytes: &Vec<u8>, decoded: &Option<PlistNode>) -> (out: TextMap)
    ensures
        out@ == match *decoded {
            Some(PlistNode::Dict(entries)) => dict_texts(entries@, entries@.len() as int),
            _ => text_entries(strings_text(bytes@)),
        },
{
    if let Some(PlistNode::Dict(entries)) = decoded {
        return strings_of_dictionary(entries);
    }
    let content = if bytes.len() >= 2 && bytes[0] == 0xFF && bytes[1] == 0xFE {
        std_utf16_lossy(&units_of(bytes))
    } else {
        std_utf8_lossy(bytes)
    };
    strings_of_text(content.as_str())
}

/// Reads the strings file at `path`: a property list in any encoding, or
/// lines of `key = "value";` in UTF-16 or UTF-8.
pub fn infoplist_strings_parser(path: &str, disk: &Disk) -> (out: TextMap)
    ensures
        out@ == strings_at(*disk, path@),
{
    match disk.read(path) {
        None => TextMap::new(),
        Some(bytes) => strings_from(bytes, &decode(bytes)),
    }
}

/// The display name in a dictionary of one locale: the text under
/// `CFBundleDisplayName` where the key is there, else the text under
/// `CFBundleName`.
pub open spec fn locale_name(node: PlistNode) -> Option<Seq<char>> {
    match node.child("CFBundleDisplayName"@) {
        Some(PlistNode::Text(t)) => Some(t@),
        Some(_) => None,
        None => match node.child("CFBundleName"@) {
            Some(PlistNode::Text(t)) => Some(t@),
            _ => None,
        },
    }
}

/// A locale identifier with `_` for every `-`, as it is written in every
/// key of the localized names.
pub open spec fn normalized_locale(locale: Seq<char>) -> Seq<char> {
    replaced(locale, seq!['-'], seq!['_'])
}

/// Computes `normalized_locale`.
pub fn normalize_locale(locale: &Vec<char>) -> (out: String)
    ensures
        out@ == normalized_locale(locale@),
{
    let dash: Vec<char> = vec!['-'];
    let underscore: Vec<char> = vec!['_'];
    assert(dash@ =~= seq!['-']);
    assert(underscore@ =~= seq!['_']);
    string_of(&replace(locale, &dash, &underscore))
}

/// `base` with the names of the first `upto` locales of a table, each under
/// its normalized locale.
pub open spec fn table_names(
    entries: Seq<(String, PlistNode)>,
    base: Map<Seq<char>, Seq<char>>,
    upto: int,
) -> Map<Seq<char>, Seq<char>>
    decreases upto,
{
    if upto <= 0 {
        base
    } else {
        let before = table_names(entries, base, upto - 1);
        match locale_name(entries[upto - 1].1) {
            Some(name) => before.insert(normalized_locale(entries[upto - 1].0@), name),
            None => before,
        }
    }
}

/// `base` with the names of a table of locales.
pub open spec fn loctable_names(table: PlistNode, base: Map<Seq<char>, Seq<char>>) -> Map<
    Seq<char>,
    Seq<char>,
> {
    match table {
        PlistNode::Dict(entries) => table_names(entries@, base, entries@.len() as int),
        _ => base,
    }
}

/// Computes `locale_name`.
fn name_in_locale(node: &PlistNode) -> (out: Option<String>)
    ensures
        opt_text(out) == locale_name(*node),
{
    match node.get("CFBundleDisplayName") {
        Some(value) => match value.as_text() {
            Some(t) => Some(t.clone()),
            None => None,
        },
        None => match node.get("CFBundleName") {
            Some(value) => match value.as_text() {
                Some(t) => Some(t.clone()),
                None => None,
            },
            None => None,
        },
    }
}

/// Adds the display names of a table of locales to `names`.
pub fn extract_names_from_loctable(loctable: &PlistNode, names: &mut TextMap)
    ensures
        final(names)@ == loctable_names(*loctable, old(names)@),
{
    if let PlistNode::Dict(entries) = loctable {
        let mut i: usize = 0;
        while i < entries.len()
            invariant
                i <= entries.len(),
                names@ == table_names(entries@, old(names)@, i as int),
            decreases entries.len() - i,
        {
            if let Some(name) = name_in_locale(&entries[i].1) {
                names.insert(normalize_locale(&chars_of(entries[i].0.as_str())), name);
            }
            i += 1;
        }
    }
}

/// The locale that a directory `<locale>.lproj` stands for, with `_` for
/// `-`.
pub open spec fn locale_of(dir_name: Seq<char>) -> Seq<char> {
    normalized_locale(without_suffixes(dir_name, ".lproj"@))
}

/// The display name in the entries of a strings file.
pub open spec fn strings_name(entries: Map<Seq<char>, Seq<char>>) -> Option<Seq<char>> {
    if entries.contains_key("CFBundleDisplayName"@) {
        Some(entries["CFBundleDisplayName"@])
    } else if entries.contains_key("CFBundleName"@) {
        Some(entries["CFBundleName"@])
    } else {
        None
    }
}

/// The locale and the display name that entry `i` of the disk adds, where it
/// is a directory `*.lproj` directly in `resources` with a strings file that
/// names the bundle.
pub open spec fn lproj_name(disk: Disk, resources: Seq<char>, i: int) -> Option<
    (Seq<char>, Seq<char>),
> {
    let path = disk.entries[i].path@;
    let strings = joined(path, "InfoPlist.strings"@, PathStyle::Unix);
    if disk.is_child(i, resources, PathStyle::Unix) && disk.is_dir(path) && has_suffix(
        disk.name_at(i, PathStyle::Unix),
        ".lproj"@,
    ) && disk.present(strings) {
        match strings_name(strings_at(disk, strings)) {
            Some(name) => Some((locale_of(disk.name_at(i, PathStyle::Unix)), name)),
            None => None,
        }
    } else {
        None
    }
}

/// `base` with the names that the first `upto` entries of the disk add.
pub open spec fn lproj_names(
    disk: Disk,
    resources: Seq<char>,
    base: Map<Seq<char>, Seq<char>>,
    upto: int,
) -> Map<Seq<char>, Seq<char>>
    decreases upto,
{
    if upto <= 0 {
        base
    } else {
        let before = lproj_names(disk, resources, base, upto - 1);
        match lproj_name(disk, resources, upto - 1) {
            Some((locale, name)) => before.insert(locale, name),
            None => before,
        }
    }
}

/// Adds to `names` the display names of every `*.lproj` directory of
/// `resources_path`.
pub fn extract_from_all_lproj_dirs(resources_path: &str, disk: &Disk, names: &mut TextMap)
    ensures
        final(names)@ == lproj_names(
            *disk,
            resources_path@,
            old(names)@,
            disk.entries@.len() as int,
        ),
{
    let base = chars_of(resources_path);
    let mut i: usize = 0;
    while i < disk.entries.len()
        invariant
            i <= disk.entries.len(),
            base@ == resources_path@,
            names@ == lproj_names(*disk, resources_path@, old(names)@, i as int),
        decreases disk.entries.len() - i,
    {
        let file_path = disk.entries[i].path.as_str();
        if disk.child_of(i, &base, PathStyle::Unix) && disk.has_dir(file_path) {
            let file_name = crate::paths::file_name_chars(&chars_of(file_path), PathStyle::Unix);
            match file_name {
                Some(name) => {
                    if ends_with(&name, &chars_of(".lproj")) {
                        let strings = join(file_path, "InfoPlist.strings", PathStyle::Unix);
                        if disk.has(strings.as_str()) {
                            let entries = infoplist_strings_parser(strings.as_str(), disk);
                            let locale = normalize_locale(
                                &strip_suffixes(&name, &chars_of(".lproj")),
                            );
                            match entries.get("CFBundleDisplayName") {
                                Some(display_name) => {
                                    names.insert(locale.clone(), display_name);
                                },
                                None => match entries.get("CFBundleName") {
                                    Some(display_name) => {
                                        names.insert(locale.clone(), display_name);
                                    },
                                    None => {},
                                },
                            }
                        }
                    }
                },
                None => {},
            }
        }
        i += 1;
    }
}

/// The name of a bundle: the manifest's display name, else its short name,
/// else the stem of the bundle's directory name.
pub open spec fn bundle_name(info: InfoView, path: Seq<char>) -> Option<Seq<char>> {
    match info.display_name {
        Some(name) => Some(name),
        None => match info.name {
            Some(name) => Some(name),
            None => file_stem(path, PathStyle::Unix),
        },
    }
}

impl MacAppPath {
    /// The localized display names of the bundle; computes
    /// `localized_names_of`.
    pub fn get_localized_app_names(&self, disk: &Disk) -> (out: TextMap)
        ensures
            out@ == localized_names_of(self@, *disk),
    {
        if self.has_wrapper(disk) {
            return TextMap::new();
        }
        let mut names = TextMap::new();
        let resources_path = join(self.0.as_str(), "Contents/Resources", PathStyle::Unix);
        let infoplist_path = join(resources_path.as_str(), "InfoPlist.loctable", PathStyle::Unix);
        if let Some(bytes) = disk.read(infoplist_path.as_str()) {
            if let Some(loctable) = decode(bytes) {
                extract_names_from_loctable(&loctable, &mut names);
            }
        }
        extract_from_all_lproj_dirs(resources_path.as_str(), disk, &mut names);
        names
    }

    /// The record of the bundle, given its manifest; computes
    /// `app_with_manifest`.
    pub fn to_app_with(&self, info_plist: &InfoPlist, disk: &Disk) -> (out: Option<App>)
        ensures
            out is Some == app_with_manifest(self@, info_plist@, *disk) is Some,
            out is Some ==> out->0@ == app_with_manifest(self@, info_plist@, *disk)->0,
    {
        let name = match &info_plist.cf_bundle_display_name {
            Some(display_name) => display_name.clone(),
            None => match &info_plist.cf_bundle_name {
                Some(name) => name.clone(),
                None => match file_stem_of(self.0.as_str(), PathStyle::Unix) {
                    Some(stem) => stem,
                    None => {
                        return None;
                    },
                },
            },
        };
        let localized_app_names = self.get_localized_app_names(disk);
        let is_ios_app = self.has_wrapper(disk);
        if is_ios_app {
            let inner_app_path = match self.get_app_path_in_wrapper(disk) {
                Some(p) => p,
                None => {
                    return None;
                },
            };
            let app_path_exe = find_executable(inner_app_path.as_str(), info_plist, disk);
            let icon_path = self.find_icon_path(info_plist, inner_app_path.as_str(), true, disk);
            Some(
                App {
                    name,
                    localized_app_names,
                    icon_path,
                    app_path_exe,
                    app_desktop_path: self.0.clone(),
                },
            )
        } else {
            let contents_path = join(self.0.as_str(), "Contents", PathStyle::Unix);
            let resources_path = join(contents_path.as_str(), "Resources", PathStyle::Unix);
            let macos_path = join(contents_path.as_str(), "MacOS", PathStyle::Unix);
            let app_path_exe = find_executable(macos_path.as_str(), info_plist, disk);
            let icon_path = self.find_icon_path(info_plist, resources_path.as_str(), false, disk);
            Some(
                App {
                    name,
                    localized_app_names,
                    icon_path,
                    app_path_exe,
                    app_desktop_path: self.0.clone(),
                },
            )
        }
    }

    /// The record of the bundle; none where the path holds no application or
    /// its manifest cannot be read.  Computes `app_at`.
    pub fn to_app(&self, disk: &Disk) -> (out: Option<App>)
        ensures
            out is Some == app_at(self@, *disk) is Some,
            out is Some ==> out->0@ == app_at(self@, *disk)->0,
    {
        if !self.is_app(disk) {
            return None;
        }
        let info_plist_path = match self.get_info_plist_path(disk) {
            Some(p) => p,
            None => {
                return None;
            },
        };
        match InfoPlist::from_file(info_plist_path.as_str(), disk) {
            Ok(info_plist) => self.to_app_with(&info_plist, disk),
            Err(_) => None,
        }
    }
}

/// Why a metadata search gave no list.
#[derive(Clone, Copy, Debug, PartialEq, Eq, Structural)]
pub enum SearchError {
    /// A query ended without success.
    QueryFailed,
    /// A query's output is not UTF-8.
    NotUtf8,
}

/// The lines of a query's output; the output is cut at every line feed, so a
/// final line feed leaves an empty last line.
pub open spec fn query_lines(query: ProcessOutput) -> Result<Seq<Seq<char>>, SearchError> {
    if !query.success {
        Err(SearchError::QueryFailed)
    } else if !valid_utf8(query.stdout@) {
        Err(SearchError::NotUtf8)
    } else {
        Ok(split_on(decode_utf8(query.stdout@), '\n'))
    }
}

/// The lines of the two queries that are made for one directory, those of
/// the first query first.
pub open spec fn directory_lines(queries: (ProcessOutput, ProcessOutput)) -> Result<
    Seq<Seq<char>>,
    SearchError,
> {
    match query_lines(queries.0) {
        Err(e) => Err(e),
        Ok(first) => match query_lines(queries.1) {
            Err(e) => Err(e),
            Ok(second) => Ok(first + second),
        },
    }
}

/// The lines of the queries of the first `upto` directories; the error of the
/// first query that has one.
pub open spec fn gathered_lines(outputs: Seq<(ProcessOutput, ProcessOutput)>, upto: int) -> Result<
    Seq<Seq<char>>,
    SearchError,
>
    decreases upto,
{
    if upto <= 0 {
        Ok(Seq::empty())
    } else {
        match gathered_lines(outputs, upto - 1) {
            Err(e) => Err(e),
            Ok(before) => match directory_lines(outputs[upto - 1]) {
                Err(e) => Err(e),
                Ok(lines) => Ok(before + lines),
            },
        }
    }
}

/// The candidates of a list of lines: each line once, in the order of first
/// occurrence.
pub open spec fn candidates(lines: Result<Seq<Seq<char>>, SearchError>) -> Result<
    Seq<Seq<char>>,
    SearchError,
> {
    match lines {
        Err(e) => Err(e),
        Ok(l) => Ok(distinct(l, l.len() as int)),
    }
}

/// Whether `out` is the result `wanted`.
pub open spec fn is_list(out: Result<Vec<String>, SearchError>, wanted: Result<
    Seq<Seq<char>>,
    SearchError,
>) -> bool {
    match (out, wanted) {
        (Ok(list), Ok(lines)) => texts(list@) == lines,
        (Err(e), Err(f)) => e == f,
        _ => false,
    }
}

/// Computes `query_lines`.
fn lines_of_query(query: &ProcessOutput) -> (out: Result<Vec<String>, SearchError>)
    ensures
        is_list(out, query_lines(*query)),
{
    if !query.success {
        return Err(SearchError::QueryFailed);
    }
    let stdout = match std_utf8(&query.stdout) {
        Some(text) => text,
        None => {
            return Err(SearchError::NotUtf8);
        },
    };
    let pieces = split(&chars_of(stdout.as_str()), '\n');
    let mut out: Vec<String> = Vec::new();
    let mut i: usize = 0;
    while i < pieces.len()
        invariant
            i <= pieces.len(),
            out.len() == i,
            forall|k: int| 0 <= k < i ==> #[trigger] out[k]@ == pieces[k]@,
        decreases pieces.len() - i,
    {
        out.push(string_of(&pieces[i]));
        i += 1;
    }
    assert(texts(out@) =~= split_on(decode_utf8(query.stdout@), '\n'));
    Ok(out)
}

/// Adds the texts of `more` to `set`, each unless it is there already.
fn extend_new(set: &mut Vec<String>, more: &Vec<String>, Ghost(seen): Ghost<Seq<Seq<char>>>)
    requires
        texts(old(set)@) == distinct(seen, seen.len() as int),
    ensures
        texts(final(set)@) == distinct(seen + texts(more@), seen.len() + more.len()),
{
    let ghost all = seen + texts(more@);
    let mut i: usize = 0;
    assert(distinct(all, seen.len() as int) == distinct(seen, seen.len() as int)) by {
        lemma_distinct_prefix(seen, texts(more@), seen.len() as int);
    }
    while i < more.len()
        invariant
            i <= more.len(),
            all == seen + texts(more@),
            texts(set@) == distinct(all, seen.len() + i),
        decreases more.len() - i,
    {
        assert(all[seen.len() + i] == more[i as int]@);
        push_new(set, more[i].clone());
        i += 1;
    }
}

/// `distinct` of a prefix does not depend on what follows.
pub proof fn lemma_distinct_prefix<T>(a: Seq<T>, b: Seq<T>, upto: int)
    requires
        0 <= upto <= a.len(),
    ensures
        distinct(a + b, upto) == distinct(a, upto),
    decreases upto,
{
    if upto > 0 {
        lemma_distinct_prefix(a, b, upto - 1);
        assert((a + b)[upto - 1] == a[upto - 1]);
    }
}

/// The candidate bundle paths of one directory, from the outputs of the two
/// queries made for it: the lines of both, each once.
pub fn run_mdfind_only_in(first: &ProcessOutput, second: &ProcessOutput) -> (out: Result<
    Vec<String>,
    SearchError,
>)
    ensures
        is_list(out, candidates(directory_lines((*first, *second)))),
{
    let lines1 = match lines_of_query(first) {
        Ok(lines) => lines,
        Err(e) => {
            return Err(e);
        },
    };
    let lines2 = match lines_of_query(second) {
        Ok(lines) => lines,
        Err(e) => {
            return Err(e);
        },
    };
    let mut set: Vec<String> = Vec::new();
    assert(texts(set@) =~= distinct(Seq::<Seq<char>>::empty(), 0));
    extend_new(&mut set, &lines1, Ghost(Seq::empty()));
    assert(Seq::<Seq<char>>::empty() + texts(lines1@) == texts(lines1@));
    extend_new(&mut set, &lines2, Ghost(texts(lines1@)));
    Ok(set)
}

/// The candidate bundle paths of all directories, from the outputs of the
/// queries made for each: the lines of all, each once.
pub fn run_mdfind_to_get_app_list(outputs: &Vec<(ProcessOutput, ProcessOutput)>) -> (out: Result<
    Vec<String>,
    SearchError,
>)
    ensures
        is_list(out, candidates(gathered_lines(outputs@, outputs@.len() as int))),
{
    let mut set: Vec<String> = Vec::new();
    let ghost mut seen: Seq<Seq<char>> = Seq::empty();
    assert(texts(set@) =~= distinct(seen, 0));
    let mut i: usize = 0;
    while i < outputs.len()
        invariant
            i <= outputs.len(),
            gathered_lines(outputs@, i as int) == Ok::<Seq<Seq<char>>, SearchError>(seen),
            texts(set@) == distinct(seen, seen.len() as int),
        decreases outputs.len() - i,
    {
        let lines1 = match lines_of_query(&outputs[i].0) {
            Ok(lines) => lines,
            Err(e) => {
                proof {
                    lemma_gathered_error(outputs@, i + 1, outputs@.len() as int);
                }
                return Err(e);
            },
        };
        let lines2 = match lines_of_query(&outputs[i].1) {
            Ok(lines) => lines,
            Err(e) => {
                proof {
                    lemma_gathered_error(outputs@, i + 1, outputs@.len() as int);
                }
                return Err(e);
            },
        };
        extend_new(&mut set, &lines1, Ghost(seen));
        extend_new(&mut set, &lines2, Ghost(seen + texts(lines1@)));
        proof {
            assert((seen + texts(lines1@)) + texts(lines2@) == seen + (texts(lines1@) + texts(
                lines2@,
            )));
            seen = seen + (texts(lines1@) + texts(lines2@));
        }
        i += 1;
    }
    Ok(set)
}

/// An error among the first directories is the error of the whole.
pub proof fn lemma_gathered_error(outputs: Seq<(ProcessOutput, ProcessOutput)>, at: int, upto: int)
    requires
        0 <= at <= upto,
        gathered_lines(outputs, at) is Err,
    ensures
        gathered_lines(outputs, upto) == gathered_lines(outputs, at),
    decreases upto - at,
{
    if at < upto {
        lemma_gathered_error(outputs, at, upto - 1);
    }
}

/// Each of the common icon names is a plain name that ends in `.icns`.
pub proof fn lemma_common_icons_are_icon_files(k: int)
    requires
        0 <= k < common_icons().len(),
    ensures
        is_plain_name(common_icons()[k], PathStyle::Unix),
        name_fits(common_icons()[k], Seq::empty(), ".icns"@),
{
    reveal_strlit(".icns");
    reveal_strlit("AppIcon.icns");
    reveal_strlit("app.icns");
    reveal_strlit("icon.icns");
    reveal_strlit("application.icns");
    let name = common_icons()[k];
    let suffix = ".icns"@;
    assert(name.subrange(name.len() - suffix.len(), name.len() as int) =~= suffix);
    assert(name.subrange(0, 0) =~= Seq::<char>::empty());
    assert(name != seq!['.', '.']);
    assert forall|j: int| 0 <= j < name.len() implies !PathStyle::Unix.separators().holds(
        #[trigger] name[j],
    ) by {
        if k == 0 {
            assert(name == "AppIcon.icns"@);
        } else if k == 1 {
            assert(name == "app.icns"@);
        } else if k == 2 {
            assert(name == "icon.icns"@);
        } else {
            assert(name == "application.icns"@);
        }
    }
}

/// The icon falls back to the one icon file that there is.  Where the
/// manifest of a desktop bundle names no icon and exactly one entry directly
/// in the resources directory has a name that ends in `.icns`, that entry is
/// the icon.
pub proof fn lemma_single_icon_file_is_chosen(
    info: InfoView,
    resources: Seq<char>,
    disk: Disk,
    i: int,
)
    requires
        info.icon_file is None,
        info.icon_name is None,
        0 <= i < disk.entries.len(),
        disk.fits(i, resources, PathStyle::Unix, Seq::empty(), ".icns"@, false),
        forall|j: int|
            0 <= j < disk.entries.len() && disk.fits(
                j,
                resources,
                PathStyle::Unix,
                Seq::empty(),
                ".icns"@,
                false,
            ) ==> j == i,
    ensures
        icon_choice(info, resources, false, disk) == Some(disk.entries[i].path@),
{
    let common = first_present(disk, resources, common_icons(), PathStyle::Unix, 0);
    if common is Some {
        lemma_first_present_source(disk, resources, common_icons(), PathStyle::Unix, 0);
        let k = choose|k: int|
            0 <= k < common_icons().len() && common == Some(
                joined(resources, #[trigger] common_icons()[k], PathStyle::Unix),
            ) && disk.present(joined(resources, common_icons()[k], PathStyle::Unix));
        let name = common_icons()[k];
        let path = joined(resources, name, PathStyle::Unix);
        lemma_common_icons_are_icon_files(k);
        lemma_file_name_of_joined(resources, name, PathStyle::Unix);
        lemma_slot(disk, path, 0);
        let j = disk.slot(path);
        assert(disk.fits(j, resources, PathStyle::Unix, Seq::empty(), ".icns"@, false));
    } else {
        lemma_only_fit_is_first(
            disk,
            resources,
            PathStyle::Unix,
            Seq::empty(),
            ".icns"@,
            false,
            i,
            0,
        );
    }
}

/// Whether `path` stands directly in `dir`: it is `dir` joined with its own
/// last component.
pub open spec fn stands_in(path: Seq<char>, dir: Seq<char>) -> bool {
    match file_name(path, PathStyle::Unix) {
        Some(name) => path == joined(dir, name, PathStyle::Unix),
        None => false,
    }
}

/// What is found for a single plain name stands directly in the directory.
pub proof fn lemma_single_name_stands_in(disk: Disk, dir: Seq<char>, name: Seq<char>)
    requires
        is_plain_name(name, PathStyle::Unix),
    ensures
        first_present(disk, dir, seq![name], PathStyle::Unix, 0) matches Some(p) ==> stands_in(
            p,
            dir,
        ),
{
    if first_present(disk, dir, seq![name], PathStyle::Unix, 0) is Some {
        lemma_first_present_source(disk, dir, seq![name], PathStyle::Unix, 0);
        lemma_file_name_of_joined(dir, name, PathStyle::Unix);
    }
}

/// The icon of a desktop bundle stands directly in its resources directory,
/// where the icon names of the manifest are plain names.  A name that is
/// rooted or holds a separator is joined as it stands, and so may lead out of
/// the directory.
pub proof fn lemma_desktop_icon_stands_in_resources(
    info: InfoView,
    resources: Seq<char>,
    disk: Disk,
)
    requires
        info.icon_file matches Some(f) ==> is_plain_name(with_icns(f), PathStyle::Unix),
        info.icon_name matches Some(n) ==> is_plain_name(n + ".icns"@, PathStyle::Unix),
    ensures
        desktop_icon(info, resources, disk) matches Some(p) ==> stands_in(p, resources),
{
    reveal_strlit("Assets.car");
    let catalog = "Assets.car"@;
    assert(catalog != seq!['.', '.']);
    assert(is_plain_name(catalog, PathStyle::Unix));
    lemma_single_name_stands_in(disk, resources, catalog);
    if info.icon_file is Some {
        lemma_single_name_stands_in(disk, resources, with_icns(info.icon_file->0));
    }
    if info.icon_name is Some {
        lemma_single_name_stands_in(disk, resources, info.icon_name->0 + ".icns"@);
    }
    let common = first_present(disk, resources, common_icons(), PathStyle::Unix, 0);
    if common is Some {
        lemma_first_present_source(disk, resources, common_icons(), PathStyle::Unix, 0);
        let k = choose|k: int|
            0 <= k < common_icons().len() && common == Some(
                joined(resources, #[trigger] common_icons()[k], PathStyle::Unix),
            ) && disk.present(joined(resources, common_icons()[k], PathStyle::Unix));
        lemma_common_icons_are_icon_files(k);
        lemma_file_name_of_joined(resources, common_icons()[k], PathStyle::Unix);
    }
    if disk.first_fit_from(resources, PathStyle::Unix, Seq::empty(), ".icns"@, false, 0) is Some {
        lemma_first_fit_fits(disk, resources, PathStyle::Unix, Seq::empty(), ".icns"@, false, 0);
    }
}

} // verus!
