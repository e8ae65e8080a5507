use applications::common::{ProcessOutput, TextMap};
use applications::disk::Disk;
use applications::platforms::mac::{
    app_of_profiler_info, from_path, get_all_apps, get_all_apps_mdfind, get_default_search_paths,
    largest_icon,
};
use applications::property_list::{decode, safe_to_decode, PlistNode, MOST_COLLECTIONS};
use applications::utils::mac::{
    extract_from_all_lproj_dirs, extract_names_from_loctable, infoplist_strings_parser,
    parse_strings_line, run_mdfind_only_in, run_mdfind_to_get_app_list, scale_names,
    strings_of_text, units_of,
    CFBundleIcons, CFBundlePrimaryIcon, InfoPlist, MacAppPath, MacSystemProfilerAppList, MacSystemProfilterAppInfo, ManifestError, SearchError,
};

fn plist_xml(body: &str) -> Vec<u8> {
    format!(
        "<?xml version=\"1.0\" encoding=\"UTF-8\"?>\n<!DOCTYPE plist PUBLIC \"-//Apple//DTD PLIST 1.0//EN\" \"http://www.apple.com/DTDs/PropertyList-1.0.dtd\">\n<plist version=\"1.0\">\n{body}\n</plist>\n"
    )
    .into_bytes()
}

fn manifest(pairs: &[(&str, &str)]) -> Vec<u8> {
    let mut body = String::from("<dict>");
    for (key, value) in pairs {
        body.push_str(&format!("<key>{key}</key><string>{value}</string>"));
    }
    body.push_str("</dict>");
    plist_xml(&body)
}

fn add_bundle(disk: &mut Disk, path: &str, pairs: &[(&str, &str)]) {
    disk.add_dir(path);
    disk.add_dir(&format!("{path}/Contents"));
    disk.add_file(&format!("{path}/Contents/Info.plist"), manifest(pairs));
    disk.add_dir(&format!("{path}/Contents/Resources"));
}

fn query(lines: &[&str]) -> ProcessOutput {
    let mut text = String::new();
    for line in lines {
        text.push_str(line);
        text.push('\n');
    }
    ProcessOutput { success: true, stdout: text.into_bytes() }
}

fn system_disk() -> (Disk, Vec<(ProcessOutput, ProcessOutput)>) {
    let names = [
        "Finder", "Spotlight", "App Store", "Maps", "Mail", "FaceTime", "Weather", "Stocks",
        "Books", "Preview",
    ];
    let mut disk = Disk::new();
    let mut paths: Vec<String> = Vec::new();
    for name in names {
        let path = format!("/System/Applications/{name}.app");
        add_bundle(&mut disk, &path, &[("CFBundleName", name), ("CFBundleExecutable", name)]);
        paths.push(path);
    }
    let lines: Vec<&str> = paths.iter().map(|p| p.as_str()).collect();
    let outputs = vec![
        (query(&lines[..6]), query(&lines[4..])),
        (query(&[]), query(&[])),
    ];
    (disk, outputs)
}

#[test]
fn find_info_plist() {
    let (disk, _) = system_disk();
    let apps = get_all_apps(&Vec::new(), &disk).unwrap();
    for app in apps {
        let path = app.app_desktop_path;
        let mac_app_path = MacAppPath::new(path.clone());
        let info_plist_path = mac_app_path.get_info_plist_path(&disk);
        if info_plist_path.is_none() {
            println!("Info.plist not found: {:?}", path);
        }
    }
}

#[test]
fn mac_test_get_all_apps() {
    // The outputs of the queries for the search paths "/" and "/Users/home/steve".
    let (disk, outputs) = system_disk();
    let apps = get_all_apps(&outputs, &disk).unwrap();
    assert!(apps.iter().any(|app| app.name == "Finder"));
    assert!(apps.iter().any(|app| app.name == "Spotlight"));
    assert!(apps.iter().any(|app| app.name == "App Store"));
    assert!(apps.iter().any(|app| app.name == "Maps"));
    assert!(apps.iter().any(|app| app.name == "Mail"));
    assert!(apps.iter().any(|app| app.name == "FaceTime"));
    assert!(apps.iter().any(|app| app.name == "Weather"));
    assert!(apps.iter().any(|app| app.name == "Stocks"));
    assert!(apps.iter().any(|app| app.name == "Books"));
    assert!(apps.iter().any(|app| app.name == "Preview"));
}

#[test]
fn enumeration_lists_each_candidate_once_in_order() {
    let (disk, outputs) = system_disk();
    let apps = get_all_apps_mdfind(&outputs, &disk).unwrap();
    let names: Vec<&str> = apps.iter().map(|app| app.name.as_str()).collect();
    assert_eq!(
        names,
        vec![
            "Finder", "Spotlight", "App Store", "Maps", "Mail", "FaceTime", "Weather", "Stocks",
            "Books", "Preview",
        ]
    );
}

#[test]
fn no_default_search_paths() {
    assert!(get_default_search_paths().is_empty());
}

#[test]
fn query_outputs_are_cut_into_lines_and_united() {
    let first = ProcessOutput { success: true, stdout: b"/A.app\n/B.app\n".to_vec() };
    let second = ProcessOutput { success: true, stdout: b"/B.app\n/C.app".to_vec() };
    assert_eq!(
        run_mdfind_only_in(&first, &second).unwrap(),
        vec!["/A.app".to_string(), "/B.app".to_string(), "".to_string(), "/C.app".to_string()]
    );
    let all = run_mdfind_to_get_app_list(&vec![
        (
            ProcessOutput { success: true, stdout: b"/A.app".to_vec() },
            ProcessOutput { success: true, stdout: b"/B.app".to_vec() },
        ),
        (
            ProcessOutput { success: true, stdout: b"/B.app".to_vec() },
            ProcessOutput { success: true, stdout: b"/D.app".to_vec() },
        ),
    ])
    .unwrap();
    assert_eq!(all, vec!["/A.app".to_string(), "/B.app".to_string(), "/D.app".to_string()]);
    assert_eq!(run_mdfind_to_get_app_list(&Vec::new()).unwrap(), Vec::<String>::new());
}

#[test]
fn a_failed_query_fails_the_search() {
    let good = || ProcessOutput { success: true, stdout: b"/A.app".to_vec() };
    let failed = || ProcessOutput { success: false, stdout: b"/A.app".to_vec() };
    let binary = || ProcessOutput { success: true, stdout: vec![0xc3, 0x28] };
    assert_eq!(run_mdfind_only_in(&failed(), &good()).unwrap_err(), SearchError::QueryFailed);
    assert_eq!(run_mdfind_only_in(&good(), &failed()).unwrap_err(), SearchError::QueryFailed);
    assert_eq!(run_mdfind_only_in(&binary(), &failed()).unwrap_err(), SearchError::NotUtf8);
    assert_eq!(run_mdfind_only_in(&good(), &binary()).unwrap_err(), SearchError::NotUtf8);
    let outputs = vec![(good(), good()), (good(), binary()), (failed(), good())];
    assert_eq!(run_mdfind_to_get_app_list(&outputs).unwrap_err(), SearchError::NotUtf8);
    assert_eq!(
        get_all_apps(&outputs, &Disk::new()).unwrap_err(),
        SearchError::NotUtf8
    );
}

#[test]
fn name_prefers_display_name_then_name_then_stem() {
    let mut disk = Disk::new();
    add_bundle(
        &mut disk,
        "/Applications/One.app",
        &[("CFBundleDisplayName", "Shown"), ("CFBundleName", "Short")],
    );
    add_bundle(&mut disk, "/Applications/Two.app", &[("CFBundleName", "Short")]);
    add_bundle(&mut disk, "/Applications/Three.app", &[("CFBundleIdentifier", "org.three")]);
    assert_eq!(from_path("/Applications/One.app", &disk).unwrap().name, "Shown");
    assert_eq!(from_path("/Applications/Two.app", &disk).unwrap().name, "Short");
    assert_eq!(from_path("/Applications/Three.app", &disk).unwrap().name, "Three");
}

#[test]
fn executable_is_kept_only_where_it_is_on_the_disk() {
    let mut disk = Disk::new();
    add_bundle(&mut disk, "/Applications/Has.app", &[("CFBundleExecutable", "has")]);
    disk.add_file("/Applications/Has.app/Contents/MacOS/has", Vec::new());
    add_bundle(&mut disk, "/Applications/Lacks.app", &[("CFBundleExecutable", "lacks")]);
    let has = from_path("/Applications/Has.app", &disk).unwrap();
    assert_eq!(has.app_path_exe, Some("/Applications/Has.app/Contents/MacOS/has".to_string()));
    assert_eq!(has.app_desktop_path, "/Applications/Has.app");
    assert_eq!(from_path("/Applications/Lacks.app", &disk).unwrap().app_path_exe, None);
}

#[test]
fn a_bundle_needs_manifest_and_resources() {
    let mut disk = Disk::new();
    disk.add_dir("/A.app");
    disk.add_file("/A.app/Contents/Info.plist", manifest(&[("CFBundleName", "A")]));
    disk.add_dir("/B.app");
    disk.add_dir("/B.app/Contents/Resources");
    add_bundle(&mut disk, "/C.app", &[("CFBundleName", "C")]);
    disk.add_file("/D.app/Contents/Info.plist", manifest(&[("CFBundleName", "D")]));
    disk.add_dir("/D.app/Contents/Resources");
    assert!(!MacAppPath::new("/A.app".to_string()).is_app(&disk));
    assert!(MacAppPath::new("/A.app".to_string()).has_info_plist(&disk));
    assert!(!MacAppPath::new("/B.app".to_string()).is_app(&disk));
    assert!(!MacAppPath::new("/B.app".to_string()).has_info_plist(&disk));
    assert!(MacAppPath::new("/C.app".to_string()).is_app(&disk));
    assert!(!MacAppPath::new("/D.app".to_string()).is_app(&disk));
    assert!(!MacAppPath::new("/E.app".to_string()).is_app(&disk));
    assert!(from_path("/A.app", &disk).is_none());
    assert!(from_path("/C.app", &disk).is_some());
}

#[test]
fn an_unreadable_manifest_is_no_application() {
    let mut disk = Disk::new();
    disk.add_dir("/A.app");
    disk.add_file("/A.app/Contents/Info.plist", b"not a property list".to_vec());
    disk.add_dir("/A.app/Contents/Resources");
    assert!(MacAppPath::new("/A.app".to_string()).is_app(&disk));
    assert!(from_path("/A.app", &disk).is_none());
}

#[test]
fn manifest_errors() {
    let mut disk = Disk::new();
    disk.add_dir("/dir");
    disk.add_file("/garbage", b"\x00\x01\x02 nothing".to_vec());
    disk.add_file("/list", plist_xml("<array><string>a</string></array>"));
    disk.add_file(
        "/number",
        plist_xml("<dict><key>CFBundleName</key><integer>3</integer></dict>"),
    );
    disk.add_file(
        "/icons",
        plist_xml("<dict><key>CFBundleIcons</key><string>x</string></dict>"),
    );
    disk.add_file(
        "/files",
        plist_xml("<dict><key>CFBundleIcons</key><dict><key>CFBundlePrimaryIcon</key><dict><key>CFBundleIconFiles</key><array><integer>1</integer></array></dict></dict></dict>"),
    );
    disk.add_file(
        "/good",
        plist_xml("<dict><key>CFBundleName</key><string>Good</string><key>Other</key><integer>3</integer></dict>"),
    );
    assert_eq!(InfoPlist::from_file("/absent", &disk).unwrap_err(), ManifestError::Unreadable);
    assert_eq!(InfoPlist::from_file("/dir", &disk).unwrap_err(), ManifestError::Unreadable);
    assert_eq!(InfoPlist::from_file("/garbage", &disk).unwrap_err(), ManifestError::Undecodable);
    assert_eq!(InfoPlist::from_file("/list", &disk).unwrap_err(), ManifestError::Mistyped);
    assert_eq!(InfoPlist::from_file("/number", &disk).unwrap_err(), ManifestError::Mistyped);
    assert_eq!(InfoPlist::from_file("/icons", &disk).unwrap_err(), ManifestError::Mistyped);
    assert_eq!(InfoPlist::from_file("/files", &disk).unwrap_err(), ManifestError::Mistyped);
    let good = InfoPlist::from_file("/good", &disk).unwrap();
    assert_eq!(good.cf_bundle_name, Some("Good".to_string()));
    assert_eq!(good.cf_bundle_display_name, None);
    assert!(good.cf_bundle_icons.is_none());
}

#[test]
fn manifest_reads_nested_icons() {
    let node = PlistNode::Dict(vec![
        ("CFBundleIconFile".to_string(), PlistNode::Text("Main".to_string())),
        (
            "CFBundleIcons".to_string(),
            PlistNode::Dict(vec![(
                "CFBundlePrimaryIcon".to_string(),
                PlistNode::Dict(vec![
                    ("CFBundleIconName".to_string(), PlistNode::Text("AppIcon".to_string())),
                    (
                        "CFBundleIconFiles".to_string(),
                        PlistNode::List(vec![
                            PlistNode::Text("AppIcon60x60".to_string()),
                            PlistNode::Text("AppIcon76x76".to_string()),
                        ]),
                    ),
                ]),
            )]),
        ),
        ("CFBundleIcons~ipad".to_string(), PlistNode::Dict(Vec::new())),
    ]);
    let info = InfoPlist::from_value(&node).unwrap();
    assert_eq!(info.cf_bundle_icon_file, Some("Main".to_string()));
    let primary = info.cf_bundle_icons.unwrap().cf_bundle_primary_icon.unwrap();
    assert_eq!(primary.cf_bundle_icon_name, Some("AppIcon".to_string()));
    assert_eq!(
        primary.cf_bundle_icon_files,
        Some(vec!["AppIcon60x60".to_string(), "AppIcon76x76".to_string()])
    );
    assert!(info.cf_bundle_icons_ipad.unwrap().cf_bundle_primary_icon.is_none());
    assert_eq!(InfoPlist::from_value(&PlistNode::Other).unwrap_err(), ManifestError::Mistyped);
}

fn icon_of(disk: &Disk, path: &str) -> Option<String> {
    from_path(path, disk).unwrap().icon_path
}

#[test]
fn icon_single_file_in_resources_is_chosen() {
    let mut disk = Disk::new();
    add_bundle(&mut disk, "/A.app", &[("CFBundleName", "A")]);
    disk.add_file("/A.app/Contents/Resources/readme.txt", Vec::new());
    disk.add_file("/A.app/Contents/Resources/Strange.icns", Vec::new());
    disk.add_file("/A.app/Contents/Resources/Assets.car", Vec::new());
    assert_eq!(icon_of(&disk, "/A.app"), Some("/A.app/Contents/Resources/Strange.icns".to_string()));
}

#[test]
fn icon_strategies_are_tried_in_order() {
    let all = |disk: &mut Disk| {
        add_bundle(
            disk,
            "/A.app",
            &[("CFBundleIconFile", "Declared"), ("CFBundleIconName", "Named")],
        );
    };
    let resources = "/A.app/Contents/Resources";
    let mut disk = Disk::new();
    all(&mut disk);
    for file in ["Assets.car", "Zebra.icns", "app.icns", "Named.icns", "Declared.icns"] {
        disk.add_file(&format!("{resources}/{file}"), Vec::new());
    }
    assert_eq!(icon_of(&disk, "/A.app"), Some(format!("{resources}/Declared.icns")));

    let mut disk = Disk::new();
    all(&mut disk);
    for file in ["Assets.car", "Zebra.icns", "app.icns", "Named.icns"] {
        disk.add_file(&format!("{resources}/{file}"), Vec::new());
    }
    assert_eq!(icon_of(&disk, "/A.app"), Some(format!("{resources}/Named.icns")));

    let mut disk = Disk::new();
    all(&mut disk);
    for file in ["Assets.car", "Zebra.icns", "app.icns"] {
        disk.add_file(&format!("{resources}/{file}"), Vec::new());
    }
    assert_eq!(icon_of(&disk, "/A.app"), Some(format!("{resources}/app.icns")));

    let mut disk = Disk::new();
    all(&mut disk);
    for file in ["Assets.car", "Zebra.icns", "Yak.icns"] {
        disk.add_file(&format!("{resources}/{file}"), Vec::new());
    }
    assert_eq!(icon_of(&disk, "/A.app"), Some(format!("{resources}/Zebra.icns")));

    let mut disk = Disk::new();
    all(&mut disk);
    disk.add_file(&format!("{resources}/Assets.car"), Vec::new());
    assert_eq!(icon_of(&disk, "/A.app"), Some(format!("{resources}/Assets.car")));

    let mut disk = Disk::new();
    all(&mut disk);
    assert_eq!(icon_of(&disk, "/A.app"), None);
}

#[test]
fn icon_file_name_keeps_its_extension() {
    let mut disk = Disk::new();
    add_bundle(&mut disk, "/A.app", &[("CFBundleIconFile", "Main.icns")]);
    disk.add_file("/A.app/Contents/Resources/Main.icns", Vec::new());
    disk.add_file("/A.app/Contents/Resources/Main.icns.icns", Vec::new());
    assert_eq!(icon_of(&disk, "/A.app"), Some("/A.app/Contents/Resources/Main.icns".to_string()));
}

fn mobile_bundle(disk: &mut Disk, manifest_body: &str) {
    disk.add_dir("/Phone.app");
    disk.add_dir("/Phone.app/Wrapper");
    disk.add_dir("/Phone.app/Wrapper/Inner.app");
    disk.add_file("/Phone.app/Wrapper/Inner.app/Info.plist", plist_xml(manifest_body));
}

#[test]
fn mobile_bundle_is_read_from_its_wrapper() {
    let mut disk = Disk::new();
    mobile_bundle(
        &mut disk,
        "<dict><key>CFBundleName</key><string>Phone</string><key>CFBundleExecutable</key><string>run</string><key>CFBundleIcons</key><dict><key>CFBundlePrimaryIcon</key><dict><key>CFBundleIconFiles</key><array><string>First</string><string>Second</string></array></dict></dict></dict>",
    );
    disk.add_file("/Phone.app/Wrapper/Inner.app/Second.png", Vec::new());
    disk.add_file("/Phone.app/Wrapper/Inner.app/First@3x.png", Vec::new());
    disk.add_file("/Phone.app/Wrapper/Inner.app/AppIcon60x60@2x.png", Vec::new());
    disk.add_file("/Phone.app/Wrapper/Inner.app/run", Vec::new());
    let path = MacAppPath::new("/Phone.app".to_string());
    assert!(path.has_wrapper(&disk));
    assert_eq!(path.get_wrapper_path(&disk), Some("/Phone.app/Wrapper".to_string()));
    assert_eq!(
        path.get_app_path_in_wrapper(&disk),
        Some("/Phone.app/Wrapper/Inner.app".to_string())
    );
    assert_eq!(
        path.get_info_plist_path(&disk),
        Some("/Phone.app/Wrapper/Inner.app/Info.plist".to_string())
    );
    assert!(path.is_app(&disk));
    let app = path.to_app(&disk).unwrap();
    assert_eq!(app.name, "Phone");
    assert_eq!(app.app_path_exe, Some("/Phone.app/Wrapper/Inner.app/run".to_string()));
    assert_eq!(app.icon_path, Some("/Phone.app/Wrapper/Inner.app/First@3x.png".to_string()));
    assert!(app.localized_app_names.is_empty());
}

#[test]
fn mobile_bundle_names_its_executable_only_where_it_is_on_the_disk() {
    let with = "<dict><key>CFBundleName</key><string>Phone</string><key>CFBundleExecutable</key><string>run</string></dict>";
    let mut disk = Disk::new();
    mobile_bundle(&mut disk, with);
    assert_eq!(from_path("/Phone.app", &disk).unwrap().app_path_exe, None);
    disk.add_file("/Phone.app/Wrapper/Inner.app/run", Vec::new());
    assert_eq!(
        from_path("/Phone.app", &disk).unwrap().app_path_exe,
        Some("/Phone.app/Wrapper/Inner.app/run".to_string())
    );
    let mut disk = Disk::new();
    mobile_bundle(&mut disk, "<dict><key>CFBundleName</key><string>Phone</string></dict>");
    assert!(MacAppPath::new("/Phone.app".to_string()).is_app(&disk));
    let app = from_path("/Phone.app", &disk).unwrap();
    assert_eq!(app.name, "Phone");
    assert_eq!(app.app_path_exe, None);
}

#[test]
fn mobile_icon_falls_back_to_common_names_catalog_and_patterns() {
    let body = "<dict><key>CFBundleExecutable</key><string>run</string></dict>";
    let inner = "/Phone.app/Wrapper/Inner.app";
    let mut disk = Disk::new();
    mobile_bundle(&mut disk, body);
    for file in ["IconSmall.png", "AppIconLarge.png", "Assets.car", "AppIcon40x40@2x.png"] {
        disk.add_file(&format!("{inner}/{file}"), Vec::new());
    }
    assert_eq!(icon_of(&disk, "/Phone.app"), Some(format!("{inner}/AppIcon40x40@2x.png")));

    let mut disk = Disk::new();
    mobile_bundle(&mut disk, body);
    for file in ["IconSmall.png", "AppIconLarge.png", "Assets.car"] {
        disk.add_file(&format!("{inner}/{file}"), Vec::new());
    }
    assert_eq!(icon_of(&disk, "/Phone.app"), Some(format!("{inner}/Assets.car")));

    let mut disk = Disk::new();
    mobile_bundle(&mut disk, body);
    for file in ["IconSmall.png", "AppIconLarge.png"] {
        disk.add_file(&format!("{inner}/{file}"), Vec::new());
    }
    assert_eq!(icon_of(&disk, "/Phone.app"), Some(format!("{inner}/AppIconLarge.png")));

    let mut disk = Disk::new();
    mobile_bundle(&mut disk, body);
    disk.add_file(&format!("{inner}/IconSmall.png"), Vec::new());
    disk.add_file(&format!("{inner}/MyIcon.png"), Vec::new());
    assert_eq!(icon_of(&disk, "/Phone.app"), Some(format!("{inner}/IconSmall.png")));
}

#[test]
fn scaled_names_go_file_by_file() {
    let files = vec!["a".to_string(), "b".to_string()];
    let scales = vec![".png".to_string(), "@2x.png".to_string()];
    assert_eq!(
        scale_names(&files, &scales),
        vec![
            "a.png".to_string(),
            "a@2x.png".to_string(),
            "b.png".to_string(),
            "b@2x.png".to_string()
        ]
    );
    assert!(scale_names(&Vec::new(), &scales).is_empty());
}

#[test]
fn strings_line_is_cut_at_the_first_equals_sign() {
    let line = |text: &str| parse_strings_line(&text.chars().collect());
    assert_eq!(
        line("  \"CFBundleName\" = \"Finder\";  "),
        Some(("CFBundleName".to_string(), "Finder".to_string()))
    );
    assert_eq!(line("key=value"), Some(("key".to_string(), "value".to_string())));
    assert_eq!(line("a = \"b = c\";;"), Some(("a".to_string(), "b = c".to_string())));
    assert_eq!(line("/* comment = 1 */"), None);
    assert_eq!(line("// comment = 1"), None);
    assert_eq!(line("tail = 1 */"), None);
    assert_eq!(line("   "), None);
    assert_eq!(line("no equals sign"), None);
    assert_eq!(line("= \"only value\""), Some(("".to_string(), "only value".to_string())));
}

#[test]
fn strings_file_in_three_encodings() {
    let mut disk = Disk::new();
    disk.add_file(
        "/utf8.strings",
        "/* names */\r\n\"CFBundleName\" = \"访达\";\r\nCFBundleDisplayName = \"Finder\";\n".as_bytes().to_vec(),
    );
    let mut utf16: Vec<u8> = vec![0xff, 0xfe];
    for unit in "\"CFBundleName\" = \"Täst\";\n".encode_utf16() {
        utf16.extend_from_slice(&unit.to_le_bytes());
    }
    utf16.push(0x41);
    disk.add_file("/utf16.strings", utf16);
    disk.add_file(
        "/plist.strings",
        plist_xml("<dict><key>CFBundleName</key><string>Plist</string><key>Count</key><integer>2</integer></dict>"),
    );
    disk.add_file("/list.strings", plist_xml("<array><string>x = 1</string></array>"));
    let utf8 = infoplist_strings_parser("/utf8.strings", &disk);
    assert_eq!(utf8.get("CFBundleName"), Some("访达".to_string()));
    assert_eq!(utf8.get("CFBundleDisplayName"), Some("Finder".to_string()));
    assert_eq!(utf8.keys().len(), 2);
    let utf16 = infoplist_strings_parser("/utf16.strings", &disk);
    assert_eq!(utf16.get("CFBundleName"), Some("Täst".to_string()));
    let plist = infoplist_strings_parser("/plist.strings", &disk);
    assert_eq!(plist.get("CFBundleName"), Some("Plist".to_string()));
    assert_eq!(plist.get("Count"), None);
    assert!(infoplist_strings_parser("/absent.strings", &disk).is_empty());
    // A property list that is no dictionary is read as lines of text.
    let list = infoplist_strings_parser("/list.strings", &disk);
    assert_eq!(list.get("<array><string>x"), Some("1</string></array>".to_string()));
}

#[test]
fn units_are_little_endian_and_drop_an_odd_byte() {
    assert_eq!(units_of(&vec![0xff, 0xfe, 0x34, 0x12, 0x01, 0x00, 0x99]), vec![0x1234, 0x0001]);
    assert_eq!(units_of(&vec![0xff, 0xfe]), Vec::<u16>::new());
    assert_eq!(units_of(&vec![0xff, 0xfe, 0xff, 0xff]), vec![0xffff]);
}

#[test]
fn loctable_names_prefer_the_display_name() {
    let locale = |entries: Vec<(&str, PlistNode)>| {
        PlistNode::Dict(entries.into_iter().map(|(k, v)| (k.to_string(), v)).collect())
    };
    let text = |s: &str| PlistNode::Text(s.to_string());
    let table = PlistNode::Dict(vec![
        ("en".to_string(), locale(vec![("CFBundleName", text("Short")), ("CFBundleDisplayName", text("Shown"))])),
        ("de".to_string(), locale(vec![("CFBundleName", text("Kurz"))])),
        ("fr".to_string(), locale(vec![("CFBundleDisplayName", PlistNode::Other), ("CFBundleName", text("Court"))])),
        ("it".to_string(), text("no dictionary")),
        ("es".to_string(), locale(vec![("Other", text("x"))])),
        ("de-CH".to_string(), locale(vec![("CFBundleName", text("Rechner"))])),
        ("zh-Hant-TW".to_string(), locale(vec![("CFBundleDisplayName", text("計算機"))])),
    ]);
    let mut names = TextMap::new();
    names.insert("xx".to_string(), "kept".to_string());
    extract_names_from_loctable(&table, &mut names);
    assert_eq!(names.get("en"), Some("Shown".to_string()));
    assert_eq!(names.get("de"), Some("Kurz".to_string()));
    assert_eq!(names.get("fr"), None);
    assert_eq!(names.get("it"), None);
    assert_eq!(names.get("es"), None);
    assert_eq!(names.get("xx"), Some("kept".to_string()));
    assert_eq!(names.get("de_CH"), Some("Rechner".to_string()));
    assert_eq!(names.get("de-CH"), None);
    assert_eq!(names.get("zh_Hant_TW"), Some("計算機".to_string()));
    assert!(names.keys().iter().all(|key| !key.contains('-')));
    let mut untouched = TextMap::new();
    extract_names_from_loctable(&text("x"), &mut untouched);
    assert!(untouched.is_empty());
}

#[test]
fn localized_names_come_from_table_and_directories() {
    let mut disk = Disk::new();
    add_bundle(&mut disk, "/Finder.app", &[("CFBundleName", "Finder")]);
    let resources = "/Finder.app/Contents/Resources";
    disk.add_file(
        &format!("{resources}/InfoPlist.loctable"),
        plist_xml("<dict><key>en</key><dict><key>CFBundleName</key><string>Finder</string></dict><key>zh_CN</key><dict><key>CFBundleName</key><string>old</string></dict></dict>"),
    );
    disk.add_dir(&format!("{resources}/zh-CN.lproj"));
    disk.add_file(
        &format!("{resources}/zh-CN.lproj/InfoPlist.strings"),
        "\"CFBundleName\" = \"访达\";".as_bytes().to_vec(),
    );
    disk.add_dir(&format!("{resources}/ja.lproj"));
    disk.add_file(
        &format!("{resources}/ja.lproj/InfoPlist.strings"),
        "\"Other\" = \"x\";".as_bytes().to_vec(),
    );
    disk.add_dir(&format!("{resources}/ko.lproj"));
    disk.add_file(&format!("{resources}/fr.lproj"), Vec::new());
    disk.add_dir(&format!("{resources}/pt.lproj.lproj"));
    disk.add_file(
        &format!("{resources}/pt.lproj.lproj/InfoPlist.strings"),
        "CFBundleDisplayName = Localizador;".as_bytes().to_vec(),
    );
    let app = from_path("/Finder.app", &disk).unwrap();
    let names = &app.localized_app_names;
    assert_eq!(names.get("en"), Some("Finder".to_string()));
    assert_eq!(names.get("zh_CN"), Some("访达".to_string()));
    assert_eq!(names.get("zh-CN"), None);
    assert_eq!(names.get("ja"), None);
    assert_eq!(names.get("ko"), None);
    assert_eq!(names.get("fr"), None);
    assert_eq!(names.get("pt"), Some("Localizador".to_string()));
    let mut direct = TextMap::new();
    extract_from_all_lproj_dirs(resources, &disk, &mut direct);
    let mut locales = direct.keys();
    locales.sort();
    assert_eq!(locales, vec!["pt".to_string(), "zh_CN".to_string()]);
}

#[test]
fn profiler_info_gives_the_record_of_its_path() {
    let mut disk = Disk::new();
    add_bundle(&mut disk, "/A.app", &[("CFBundleName", "A")]);
    let info = |path: &str| MacSystemProfilterAppInfo {
        name: "ignored".to_string(),
        arch_kind: String::new(),
        last_modified: String::new(),
        obtained_from: String::new(),
        path: path.to_string(),
        signed_by: None,
        version: None,
        info: None,
    };
    assert_eq!(app_of_profiler_info(&info("/A.app"), &disk).unwrap().name, "A");
    assert!(app_of_profiler_info(&info("/B.app"), &disk).is_none());
}

#[test]
fn largest_icon_stops_at_the_first_wide_one() {
    assert_eq!(largest_icon(&vec![16, 32, 48]), Some(2));
    assert_eq!(largest_icon(&vec![16, 128, 64, 512]), Some(1));
    assert_eq!(largest_icon(&vec![32, 16, 32]), Some(0));
    assert_eq!(largest_icon(&vec![64]), Some(0));
    assert_eq!(largest_icon(&vec![0, 0]), None);
    assert_eq!(largest_icon(&Vec::new()), None);
    assert_eq!(largest_icon(&vec![0, 63, 63, 64, 1024]), Some(3));
}

#[test]
fn hyphenated_locales_are_normalized_whichever_source_names_them() {
    let mut from_directory = Disk::new();
    add_bundle(&mut from_directory, "/Calc.app", &[("CFBundleName", "Calculator")]);
    from_directory.add_dir("/Calc.app/Contents/Resources/de-CH.lproj");
    from_directory.add_file(
        "/Calc.app/Contents/Resources/de-CH.lproj/InfoPlist.strings",
        "\"CFBundleDisplayName\" = \"Rechner\";".as_bytes().to_vec(),
    );
    let mut from_table = Disk::new();
    add_bundle(&mut from_table, "/Calc.app", &[("CFBundleName", "Calculator")]);
    from_table.add_file(
        "/Calc.app/Contents/Resources/InfoPlist.loctable",
        plist_xml("<dict><key>de-CH</key><dict><key>CFBundleDisplayName</key><string>Rechner</string></dict></dict>"),
    );
    for disk in [from_directory, from_table] {
        let names = MacAppPath::new("/Calc.app".to_string()).get_localized_app_names(&disk);
        assert_eq!(names.get("de_CH"), Some("Rechner".to_string()));
        assert!(names.keys().iter().all(|key| !key.contains('-')));
    }
}

#[test]
fn strings_text_is_read_line_by_line() {
    let entries = strings_of_text("/* names */\n\"CFBundleName\" = \"One\";\r\nB = two\n\nno entry\nB = three;");
    assert_eq!(entries.get("CFBundleName"), Some("One".to_string()));
    assert_eq!(entries.get("B"), Some("three".to_string()));
    assert_eq!(entries.keys(), vec!["CFBundleName".to_string(), "B".to_string()]);
    assert!(strings_of_text("").is_empty());
}

fn depth_of(node: &PlistNode) -> usize {
    let mut depth = 0;
    let mut at = node;
    while let PlistNode::List(items) = at {
        depth += 1;
        match items.first() {
            Some(inner) => at = inner,
            None => break,
        }
    }
    depth
}

fn nested_arrays(depth: usize) -> Vec<u8> {
    plist_xml(&format!("{}{}", "<array>".repeat(depth), "</array>".repeat(depth)))
}

#[test]
fn a_date_in_markup_is_not_decoded() {
    let dated = [
        plist_xml("<dict><key>When</key><date>2020-01-01T00:00:00Z</date></dict>"),
        plist_xml("<dict><key>When</key><date>9999-12-31T23:59:59-01:00</date></dict>"),
        plist_xml("<dict><key>When</key><x:date>9999-12-31T23:59:59-01:00</x:date></dict>"),
        plist_xml("<date>2020-01-01T00:00:00Z</date>"),
    ];
    let mut disk = Disk::new();
    for bytes in dated {
        assert!(!safe_to_decode(&bytes));
        assert!(decode(&bytes).is_none());
        disk.add_file("/Info.plist", bytes);
        assert_eq!(
            InfoPlist::from_file("/Info.plist", &disk).unwrap_err(),
            ManifestError::Undecodable
        );
        disk = Disk::new();
    }
}

#[test]
fn the_word_date_in_a_key_or_a_text_is_decoded() {
    let bytes = manifest(&[
        ("SUAutomaticallyUpdate", "no date"),
        ("CFBundleName", "Update date"),
        ("date", "<date"),
    ]);
    assert!(!safe_to_decode(&bytes));
    let bytes = manifest(&[
        ("SUAutomaticallyUpdate", "no date"),
        ("CFBundleName", "Update date"),
        ("date", "to date"),
    ]);
    assert!(safe_to_decode(&bytes));
    let mut disk = Disk::new();
    disk.add_file("/Info.plist", bytes);
    let info = InfoPlist::from_file("/Info.plist", &disk).unwrap();
    assert_eq!(info.cf_bundle_name, Some("Update date".to_string()));
}

#[test]
fn collections_are_decoded_up_to_the_bound() {
    let most = nested_arrays(MOST_COLLECTIONS);
    assert!(safe_to_decode(&most));
    let node = decode(&most).unwrap();
    assert_eq!(depth_of(&node), MOST_COLLECTIONS);
    let one_more = nested_arrays(MOST_COLLECTIONS + 1);
    assert!(!safe_to_decode(&one_more));
    assert!(decode(&one_more).is_none());
    let flat = plist_xml(&format!("<array>{}</array>", "<dict/>".repeat(MOST_COLLECTIONS)));
    assert!(!safe_to_decode(&flat));
    assert!(decode(&flat).is_none());
    let flat = plist_xml(&format!("<array>{}</array>", "<dict/>".repeat(MOST_COLLECTIONS - 1)));
    match decode(&flat).unwrap() {
        PlistNode::List(items) => assert_eq!(items.len(), MOST_COLLECTIONS - 1),
        other => panic!("{other:?}"),
    }
}

#[test]
fn brackets_count_as_collections_outside_the_binary_encoding() {
    let text = format!("{}{}", "(".repeat(MOST_COLLECTIONS), ")".repeat(MOST_COLLECTIONS));
    assert!(safe_to_decode(&text.clone().into_bytes()));
    let _ = decode(&text.into_bytes());
    let text = format!("{}{}", "{".repeat(MOST_COLLECTIONS + 1), "}".repeat(MOST_COLLECTIONS + 1));
    assert!(!safe_to_decode(&text.clone().into_bytes()));
    assert!(decode(&text.into_bytes()).is_none());
    let bytes = manifest(&[("CFBundleName", &"(".repeat(MOST_COLLECTIONS + 1))]);
    assert!(!safe_to_decode(&bytes));
    let bytes = manifest(&[("CFBundleName", &"\u{434}".repeat(MOST_COLLECTIONS + 1))]);
    assert!(safe_to_decode(&bytes));
    match decode(&bytes).unwrap() {
        PlistNode::Dict(entries) => assert_eq!(entries.len(), 1),
        other => panic!("{other:?}"),
    }
}

#[test]
fn the_binary_encoding_is_known_by_its_mark() {
    let mut bytes = b"bplist00".to_vec();
    bytes.extend_from_slice(b"<date>9999-12-31T23:59:59-01:00</date>((((");
    assert!(safe_to_decode(&bytes));
    assert!(decode(&bytes).is_none());
    let mut bytes = b"bplist00".to_vec();
    bytes.extend(std::iter::repeat(0xa1u8).take(MOST_COLLECTIONS));
    assert!(safe_to_decode(&bytes));
    assert!(decode(&bytes).is_none());
    bytes.push(0xd3);
    assert!(!safe_to_decode(&bytes));
    assert!(decode(&bytes).is_none());
    let mut short = b"bplist0".to_vec();
    short.extend(std::iter::repeat(0xa1u8).take(MOST_COLLECTIONS + 1));
    assert!(safe_to_decode(&short));
    // One array holding one text, in the binary encoding.
    let mut bytes = b"bplist00".to_vec();
    bytes.extend_from_slice(&[0xa1, 0x01, 0x51, b'a']);
    bytes.extend_from_slice(&[0x08, 0x0a]);
    bytes.extend_from_slice(&[0, 0, 0, 0, 0, 0, 1, 1]);
    bytes.extend_from_slice(&[0, 0, 0, 0, 0, 0, 0, 2]);
    bytes.extend_from_slice(&[0, 0, 0, 0, 0, 0, 0, 0]);
    bytes.extend_from_slice(&[0, 0, 0, 0, 0, 0, 0, 12]);
    match decode(&bytes).unwrap() {
        PlistNode::List(items) => {
            assert_eq!(items.len(), 1);
            assert!(matches!(&items[0], PlistNode::Text(t) if t == "a"));
        }
        other => panic!("{other:?}"),
    }
}

#[test]
fn defaults_declare_nothing() {
    let info = InfoPlist::default();
    assert_eq!(info.cf_bundle_name, None);
    assert_eq!(info.cf_bundle_executable, None);
    assert_eq!(info.cf_bundle_icon_file, None);
    assert_eq!(info.cf_bundle_icons, None);
    assert_eq!(info.cf_bundle_icons_ipad, None);
    assert_eq!(info.cf_bundle_display_name, None);
    assert_eq!(info.clone(), info);
    let icons = CFBundleIcons::default();
    assert_eq!(icons.cf_bundle_primary_icon, None);
    let primary = CFBundlePrimaryIcon::default();
    assert_eq!(primary.cf_bundle_icon_name, None);
    assert_eq!(primary.cf_bundle_icon_files, None);
    assert_ne!(
        CFBundleIcons { cf_bundle_primary_icon: Some(primary.clone()) },
        icons
    );
    let report = MacSystemProfilterAppInfo::default();
    assert_eq!(report.name, "");
    assert_eq!(report.path, "");
    assert_eq!(report.signed_by, None);
    assert_eq!(report.version, None);
    let list = MacSystemProfilerAppList::default();
    assert!(list.spapplications_data_type.is_empty());
    assert_eq!(
        MacSystemProfilerAppList { spapplications_data_type: vec![report.clone()] }
            .spapplications_data_type[0],
        report
    );
}
