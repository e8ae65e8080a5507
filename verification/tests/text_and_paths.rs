use applications::common::{App, TextMap};
use applications::disk::{find_present, Disk, DiskEntry, EntryKind};
use applications::paths::{
    extension_of, file_name_of, file_stem_of, join, parent_of, PathStyle,
};
use applications::text::{
    chars_of, comes_before, contains_text, count_set, ends_with, eq_ignore_ascii_case, find_char,
    push_new, replace, rfind_char, split, starts_with, string_of, strip_suffixes, trim, trim_end,
    Trim,
};

fn chars(text: &str) -> Vec<char> {
    text.chars().collect()
}

fn text(chars: Vec<char>) -> String {
    chars.into_iter().collect()
}

#[test]
fn strings_and_characters_convert_both_ways() {
    assert_eq!(chars_of("a访b"), vec!['a', '访', 'b']);
    assert_eq!(string_of(&vec!['a', '访', 'b']), "a访b");
    assert_eq!(chars_of(""), Vec::<char>::new());
}

#[test]
fn prefix_and_suffix() {
    assert!(starts_with(&chars("%windir%\\x"), &chars("%windir%")));
    assert!(!starts_with(&chars("%win"), &chars("%windir%")));
    assert!(starts_with(&chars("abc"), &chars("")));
    assert!(ends_with(&chars("icon.icns"), &chars(".icns")));
    assert!(!ends_with(&chars("icns"), &chars(".icns")));
    assert!(ends_with(&chars(""), &chars("")));
}

#[test]
fn searching_for_a_character() {
    assert_eq!(find_char(&chars("a=b=c"), '=', 0), 1);
    assert_eq!(find_char(&chars("a=b=c"), '=', 2), 3);
    assert_eq!(find_char(&chars("a=b=c"), '=', 4), 5);
    assert_eq!(find_char(&chars("abc"), '=', 9), 3);
    assert_eq!(rfind_char(&chars("a.b.c"), '.', 5), 4);
    assert_eq!(rfind_char(&chars("a.b.c"), '.', 3), 2);
    assert_eq!(rfind_char(&chars("abc"), '.', 3), 0);
    assert_eq!(count_set(&chars("a\\b/c\\d"), Trim::Either('\\', '/'), 0, 7), 3);
    assert_eq!(count_set(&chars("a\\b/c\\d"), Trim::Either('\\', '/'), 2, 5), 1);
}

#[test]
fn trimming() {
    assert_eq!(text(trim(&chars(" \t x y\u{3000}\r\n"), Trim::Space)), "x y");
    assert_eq!(text(trim(&chars("   "), Trim::Space)), "");
    assert_eq!(text(trim(&chars("\"\"a\"b\"\""), Trim::Exactly('"'))), "a\"b");
    assert_eq!(text(trim_end(&chars("v;;"), Trim::Exactly(';'))), "v");
    assert_eq!(text(strip_suffixes(&chars("pt.lproj.lproj"), &chars(".lproj"))), "pt");
    assert_eq!(text(strip_suffixes(&chars(".lproj"), &chars(".lproj"))), "");
    assert_eq!(text(strip_suffixes(&chars("abc"), &chars(""))), "abc");
}

#[test]
fn splitting_keeps_empty_pieces() {
    let pieces = |s: &str, c: char| split(&chars(s), c).into_iter().map(text).collect::<Vec<_>>();
    assert_eq!(pieces("a\nb\n", '\n'), vec!["a", "b", ""]);
    assert_eq!(pieces("", '\n'), vec![""]);
    assert_eq!(pieces(";a;;b", ';'), vec!["", "a", "", "b"]);
    assert_eq!(pieces("abc", ';'), vec!["abc"]);
}

#[test]
fn replacing_goes_from_the_left() {
    assert_eq!(text(replace(&chars("aaa"), &chars("aa"), &chars("b"))), "ba");
    assert_eq!(text(replace(&chars("zh-Hant-TW"), &chars("-"), &chars("_"))), "zh_Hant_TW");
    assert_eq!(text(replace(&chars("abc"), &chars(""), &chars("x"))), "abc");
    assert_eq!(text(replace(&chars("abc"), &chars("abcd"), &chars("x"))), "abc");
    assert_eq!(text(replace(&chars("abab"), &chars("ab"), &chars(""))), "");
}

#[test]
fn comparing_texts() {
    assert!(eq_ignore_ascii_case(&chars("EXE"), &chars("exe")));
    assert!(eq_ignore_ascii_case(&chars("Exe"), &chars("eXE")));
    assert!(!eq_ignore_ascii_case(&chars("exe"), &chars("exes")));
    assert!(!eq_ignore_ascii_case(&chars("É"), &chars("é")));
    assert!(comes_before(&chars("a"), &chars("b")));
    assert!(comes_before(&chars("ab"), &chars("abc")));
    assert!(comes_before(&chars(""), &chars("a")));
    assert!(!comes_before(&chars("abc"), &chars("abc")));
    assert!(!comes_before(&chars("b"), &chars("a")));
    assert!(comes_before(&chars("Z"), &chars("a")));
    assert!(comes_before(&chars("z"), &chars("é")));
}

#[test]
fn lists_of_texts() {
    let mut list = vec!["a".to_string()];
    push_new(&mut list, "b".to_string());
    push_new(&mut list, "a".to_string());
    assert_eq!(list, vec!["a".to_string(), "b".to_string()]);
    assert!(contains_text(&list, "b"));
    assert!(!contains_text(&list, "c"));
}

#[test]
fn joining_paths() {
    assert_eq!(join("/a", "b", PathStyle::Unix), "/a/b");
    assert_eq!(join("/a/", "b", PathStyle::Unix), "/a/b");
    assert_eq!(join("/a", "/b", PathStyle::Unix), "/b");
    assert_eq!(join("", "b", PathStyle::Unix), "b");
    assert_eq!(join("/a", "", PathStyle::Unix), "/a/");
    assert_eq!(join("/a", "Contents/Resources", PathStyle::Unix), "/a/Contents/Resources");
    assert_eq!(join("C:\\a", "b", PathStyle::Windows), "C:\\a\\b");
    assert_eq!(join("C:\\a/", "b", PathStyle::Windows), "C:\\a/b");
    assert_eq!(join("C:\\a", "D:\\b", PathStyle::Windows), "D:\\b");
    assert_eq!(join("C:\\a", "\\b", PathStyle::Windows), "\\b");
    assert_eq!(join("/a", "C:b", PathStyle::Unix), "/a/C:b");
}

#[test]
fn last_components() {
    let name = |p: &str| file_name_of(p, PathStyle::Unix);
    assert_eq!(name("/usr/share/zed.desktop"), Some("zed.desktop".to_string()));
    assert_eq!(name("/usr/share/"), Some("share".to_string()));
    assert_eq!(name("zed"), Some("zed".to_string()));
    assert_eq!(name("/"), None);
    assert_eq!(name(""), None);
    assert_eq!(name("/a/.."), None);
    assert_eq!(name("a\\b"), Some("a\\b".to_string()));
    assert_eq!(file_name_of("C:\\a\\b.lnk", PathStyle::Windows), Some("b.lnk".to_string()));
    assert_eq!(file_name_of("C:/a/b.lnk", PathStyle::Windows), Some("b.lnk".to_string()));
    assert_eq!(file_name_of("C:\\", PathStyle::Windows), None);
    assert_eq!(file_name_of("C:", PathStyle::Unix), Some("C:".to_string()));
}

#[test]
fn extensions_and_stems() {
    let ext = |p: &str| extension_of(p, PathStyle::Unix);
    let stem = |p: &str| file_stem_of(p, PathStyle::Unix);
    assert_eq!(ext("/a/zed.desktop"), Some("desktop".to_string()));
    assert_eq!(ext("/a/archive.tar.gz"), Some("gz".to_string()));
    assert_eq!(ext("/a/.hidden"), None);
    assert_eq!(ext("/a/plain"), None);
    assert_eq!(ext("/a/dot."), Some("".to_string()));
    assert_eq!(ext("/a.b/plain"), None);
    assert_eq!(ext("/a/Finder.app/"), Some("app".to_string()));
    assert_eq!(stem("/a/Finder.app"), Some("Finder".to_string()));
    assert_eq!(stem("/a/archive.tar.gz"), Some("archive.tar".to_string()));
    assert_eq!(stem("/a/.hidden"), Some(".hidden".to_string()));
    assert_eq!(stem("/a/plain"), Some("plain".to_string()));
    assert_eq!(stem("/"), None);
    assert_eq!(file_stem_of("C:\\Menu\\My Tool.lnk", PathStyle::Windows), Some("My Tool".to_string()));
}

#[test]
fn parents() {
    let up = |p: &str| parent_of(p, PathStyle::Unix);
    assert_eq!(up("/a/b"), Some("/a".to_string()));
    assert_eq!(up("/a/b/"), Some("/a".to_string()));
    assert_eq!(up("/a//b"), Some("/a".to_string()));
    assert_eq!(up("/a"), Some("/".to_string()));
    assert_eq!(up("a"), Some("".to_string()));
    assert_eq!(up("/"), None);
    assert_eq!(up(""), None);
    assert_eq!(parent_of("C:\\a\\b.exe", PathStyle::Windows), Some("C:\\a".to_string()));
    assert_eq!(parent_of("C:\\b.exe", PathStyle::Windows), Some("C:\\".to_string()));
    assert_eq!(parent_of("C:\\", PathStyle::Windows), None);
    assert_eq!(parent_of("C:", PathStyle::Windows), None);
    assert_eq!(parent_of("C:", PathStyle::Unix), Some("".to_string()));
    assert_eq!(parent_of("\\b.exe", PathStyle::Windows), Some("\\".to_string()));
}

#[test]
fn the_first_entry_of_a_path_counts() {
    let mut disk = Disk::new();
    disk.add_file("/a", b"first".to_vec());
    disk.add_dir("/a");
    disk.add_dir("/d");
    disk.entries.push(DiskEntry {
        path: "/link".to_string(),
        kind: EntryKind::File,
        content: None,
        canonical: Some("/target".to_string()),
    });
    assert!(disk.has("/a"));
    assert!(disk.has_file("/a"));
    assert!(!disk.has_dir("/a"));
    assert_eq!(disk.read("/a"), Some(&b"first".to_vec()));
    assert_eq!(disk.read("/d"), None);
    assert_eq!(disk.read("/link"), None);
    assert_eq!(disk.read("/x"), None);
    assert_eq!(disk.canonicalize("/link"), Some("/target".to_string()));
    assert_eq!(disk.canonicalize("/a"), None);
    assert_eq!(disk.find("/d"), 2);
    assert_eq!(disk.find("/x"), 4);
}

#[test]
fn children_and_fitting_names() {
    let mut disk = Disk::new();
    disk.add_dir("/r");
    disk.add_file("/r/b.icns", Vec::new());
    disk.add_dir("/r/a.icns");
    disk.add_file("/r/sub/c.icns", Vec::new());
    disk.add_file("/r/.icns", Vec::new());
    disk.add_file("/rx/d.icns", Vec::new());
    let dir: Vec<char> = "/r".chars().collect();
    let with_separator: Vec<char> = "/r/".chars().collect();
    let children: Vec<bool> = (0..6).map(|i| disk.child_of(i, &dir, PathStyle::Unix)).collect();
    assert_eq!(children, vec![false, true, true, false, true, false]);
    assert!(disk.child_of(4, &with_separator, PathStyle::Unix));
    assert!(!disk.child_of(3, &with_separator, PathStyle::Unix));
    assert_eq!(
        disk.find_fit("/r", PathStyle::Unix, "", ".icns", false),
        Some("/r/b.icns".to_string())
    );
    assert_eq!(
        disk.find_fit("/r", PathStyle::Unix, "a", ".icns", false),
        Some("/r/a.icns".to_string())
    );
    assert_eq!(disk.find_fit("/r", PathStyle::Unix, "a", ".icns", true), None);
    assert_eq!(disk.find_fit("/r", PathStyle::Unix, ".icns", ".icns", false), None);
    assert_eq!(
        find_present(&disk, "/r", &vec!["x".to_string(), "sub/c.icns".to_string()], PathStyle::Unix),
        Some("/r/sub/c.icns".to_string())
    );
}

#[test]
fn theme_icons_are_looked_up_by_name() {
    let mut disk = Disk::new();
    disk.add_icon("zed", "/icons/zed.png");
    disk.add_icon("zed", "/icons/other.png");
    assert_eq!(disk.find_icon("zed"), Some("/icons/zed.png".to_string()));
    assert_eq!(disk.find_icon("Zed"), None);
}

#[test]
fn text_map_keeps_the_last_value_of_a_key() {
    let mut map = TextMap::new();
    assert!(map.is_empty());
    map.insert("en".to_string(), "Finder".to_string());
    map.insert("zh_CN".to_string(), "访达".to_string());
    map.insert("en".to_string(), "Files".to_string());
    assert_eq!(map.get("en"), Some("Files".to_string()));
    assert_eq!(map.get("zh_CN"), Some("访达".to_string()));
    assert_eq!(map.get("de"), None);
    assert_eq!(map.keys(), vec!["en".to_string(), "zh_CN".to_string()]);
    let mut other = TextMap::new();
    other.insert("zh_CN".to_string(), "访达".to_string());
    other.insert("en".to_string(), "Files".to_string());
    assert!(map.same(&other));
    assert!(map.clone().same(&map));
    other.insert("de".to_string(), "Dateien".to_string());
    assert!(!map.same(&other));
    assert!(!other.same(&map));
}

#[test]
fn records_are_compared_field_by_field() {
    let make = || App {
        name: "A".to_string(),
        localized_app_names: TextMap::new(),
        icon_path: Some("/i".to_string()),
        app_path_exe: None,
        app_desktop_path: "/a".to_string(),
    };
    assert!(make().same(&make()));
    assert!(make().clone().same(&make()));
    let mut other = make();
    other.icon_path = None;
    assert!(!make().same(&other));
    let mut other = make();
    other.app_path_exe = Some("/x".to_string());
    assert!(!make().same(&other));
    let mut other = make();
    other.localized_app_names.insert("en".to_string(), "A".to_string());
    assert!(!make().same(&other));
    let mut other = make();
    other.app_desktop_path = "/b".to_string();
    assert!(!make().same(&other));
    let mut other = make();
    other.name = "B".to_string();
    assert!(!make().same(&other));
}
