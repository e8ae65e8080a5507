use applications::common::{App, ProcessOutput, TextMap};
use applications::disk::{Disk, DiskEntry, EntryKind};
use applications::platforms::windows::{
    apps_of_packages, expand_alias, extract_icon_path, find_shortcut, find_uwp_icon, from_path,
    get_all_apps, get_apps_from_path_env, get_apps_from_registry, get_default_search_paths,
    get_uwp_apps_powershell, locations_of_packages, merge_by_executable, parse_lnk, parse_lnk2,
    parse_lnk_with_powershell_2, sort_by_name, strip_extended_prefix, translate_path_alias,
    PackageError, PowerShellLnkParseResult, RegistryAppPath, ShortcutRecord, Sources,
};

fn env(pairs: &[(&str, &str)]) -> TextMap {
    let mut env = TextMap::new();
    for (name, value) in pairs {
        env.insert(name.to_string(), value.to_string());
    }
    env
}

fn resolved(disk: &mut Disk, path: &str, canonical: &str) {
    disk.entries.push(DiskEntry {
        path: path.to_string(),
        kind: EntryKind::File,
        content: None,
        canonical: Some(canonical.to_string()),
    });
}

fn shortcut(
    icon: Option<&str>,
    base: Option<&str>,
    relative: Option<&str>,
    working_dir: Option<&str>,
) -> ShortcutRecord {
    ShortcutRecord {
        icon_location: icon.map(String::from),
        local_base_path: base.map(String::from),
        relative_path: relative.map(String::from),
        working_dir: working_dir.map(String::from),
    }
}

fn app(name: &str, exe: Option<&str>) -> App {
    App {
        name: name.to_string(),
        localized_app_names: TextMap::new(),
        icon_path: None,
        app_path_exe: exe.map(String::from),
        app_desktop_path: String::new(),
    }
}

fn sources() -> Sources {
    Sources {
        appdata: "C:\\Users\\me\\AppData\\Roaming".to_string(),
        shortcuts: Vec::new(),
        registry: Vec::new(),
        path_var: None,
        packages: None,
        env: TextMap::new(),
    }
}

#[test]
fn windows_test_get_all_apps() {
    let search_paths = vec!["C:\\ProgramData\\Microsoft\\Windows\\Start Menu\\Programs".to_string()];
    let mut disk = Disk::new();
    disk.add_dir("C:\\ProgramData\\Microsoft\\Windows\\Start Menu\\Programs");
    disk.add_file(
        "C:\\ProgramData\\Microsoft\\Windows\\Start Menu\\Programs\\Google Chrome.lnk",
        Vec::new(),
    );
    resolved(
        &mut disk,
        "C:\\Program Files\\Google\\Chrome\\Application\\chrome.exe",
        "\\\\?\\C:\\Program Files\\Google\\Chrome\\Application\\chrome.exe",
    );
    let mut sources = sources();
    sources.shortcuts.push((
        "C:\\ProgramData\\Microsoft\\Windows\\Start Menu\\Programs\\Google Chrome.lnk".to_string(),
        shortcut(None, Some("C:\\Program Files\\Google\\Chrome\\Application\\chrome.exe"), None, None),
    ));
    let apps = get_all_apps(&search_paths, &sources, &disk);
    println!(
        "DBG: {:?}",
        apps.into_iter()
            .filter(|app| app.name.contains("Chrome"))
            .collect::<Vec<_>>()
    );
}

#[test]
fn test_path_alias() {
    let path = "%windir%\\system32\\mstsc.exe";
    let path = translate_path_alias(path, &env(&[("WINDIR", "C:\\Windows")]));
    assert_eq!(path.to_lowercase(), "c:\\windows\\system32\\mstsc.exe");
}

#[test]
fn alias_is_found_in_any_case_and_the_rest_is_lowered() {
    let env = env(&[("WINDIR", "C:\\Windows"), ("PROGRAMFILES(X86)", "D:\\Programs (x86)")]);
    assert_eq!(
        translate_path_alias("%WinDir%\\System32\\MSTSC.exe", &env),
        "C:\\Windows\\system32\\mstsc.exe"
    );
    assert_eq!(
        translate_path_alias("%ProgramFiles(x86)%\\Tool\\Tool.exe", &env),
        "D:\\Programs (x86)\\tool\\tool.exe"
    );
}

#[test]
fn alias_without_value_or_not_in_front_leaves_the_path() {
    let env = env(&[("WINDIR", "C:\\Windows")]);
    assert_eq!(
        translate_path_alias("%ProgramFiles%\\Tool\\Tool.exe", &env),
        "%ProgramFiles%\\Tool\\Tool.exe"
    );
    assert_eq!(translate_path_alias("C:\\%WINDIR%\\X", &env), "C:\\%WINDIR%\\X");
    assert_eq!(translate_path_alias("%unknown%\\X", &env), "%unknown%\\X");
    assert_eq!(translate_path_alias("", &env), "");
}

#[test]
fn alias_is_replaced_wherever_it_occurs() {
    let env = env(&[("PUBLIC", "C:\\Users\\Public")]);
    assert_eq!(
        expand_alias("%public%\\a\\%public%", "%PUBLIC%\\A\\%PUBLIC%", &env),
        "C:\\Users\\Public\\a\\C:\\Users\\Public"
    );
    assert_eq!(expand_alias("%public%", "kept", &TextMap::new()), "kept");
}

#[test]
fn extended_prefix_is_taken_off() {
    assert_eq!(strip_extended_prefix("\\\\?\\C:\\Windows\\notepad.exe"), "C:\\Windows\\notepad.exe");
    assert_eq!(strip_extended_prefix("C:\\Windows\\notepad.exe"), "C:\\Windows\\notepad.exe");
    assert_eq!(strip_extended_prefix("\\\\?\\"), "");
    assert_eq!(strip_extended_prefix("\\\\?"), "\\\\?");
}

#[test]
fn shortcut_with_absolute_target() {
    let mut disk = Disk::new();
    resolved(&mut disk, "C:\\Tools\\tool.exe", "\\\\?\\C:\\Tools\\tool.exe");
    let lnk = shortcut(Some("%windir%\\icons\\Tool.ico"), Some("C:\\Tools\\tool.exe"), Some("..\\x.exe"), None);
    let env = env(&[("WINDIR", "C:\\Windows")]);
    let app = parse_lnk2("C:\\Menu\\My Tool.lnk", &lnk, &env, &disk).unwrap();
    assert_eq!(app.name, "My Tool");
    assert_eq!(app.app_path_exe, Some("C:\\Tools\\tool.exe".to_string()));
    assert_eq!(app.app_desktop_path, "C:\\Tools");
    assert_eq!(app.icon_path, Some("C:\\Windows\\icons\\tool.ico".to_string()));
    assert!(app.localized_app_names.is_empty());
}

#[test]
fn shortcut_with_relative_target_is_resolved_beside_the_shortcut() {
    let mut disk = Disk::new();
    resolved(&mut disk, "C:\\Menu\\bin\\tool.exe", "C:\\Menu\\bin\\tool.exe");
    let lnk = shortcut(None, None, Some("bin\\tool.exe"), Some("%userprofile%\\Work"));
    let env = env(&[("USERPROFILE", "C:\\Users\\me")]);
    let app = parse_lnk2("C:\\Menu\\Tool.lnk", &lnk, &env, &disk).unwrap();
    assert_eq!(app.app_path_exe, Some("C:\\Menu\\bin\\tool.exe".to_string()));
    assert_eq!(app.app_desktop_path, "C:\\Users\\me\\work");
    assert_eq!(app.icon_path, None);
}

#[test]
fn shortcut_falls_back_to_an_executable_icon() {
    let mut disk = Disk::new();
    resolved(&mut disk, "C:\\Tools\\tool.exe", "C:\\Tools\\tool.exe");
    let env = TextMap::new();
    let exe_icon = shortcut(Some("C:\\Tools\\tool.exe"), None, None, None);
    let app = parse_lnk2("C:\\Menu\\Tool.lnk", &exe_icon, &env, &disk).unwrap();
    assert_eq!(app.app_path_exe, Some("C:\\Tools\\tool.exe".to_string()));
    let other_icon = shortcut(Some("C:\\Tools\\tool.ico"), None, None, None);
    assert!(parse_lnk2("C:\\Menu\\Tool.lnk", &other_icon, &env, &disk).is_none());
    let bare_icon = shortcut(Some("C:\\Tools\\tool"), None, None, None);
    assert!(parse_lnk2("C:\\Menu\\Tool.lnk", &bare_icon, &env, &disk).is_none());
    let nothing = shortcut(None, None, None, None);
    assert!(parse_lnk2("C:\\Menu\\Tool.lnk", &nothing, &env, &disk).is_none());
}

#[test]
fn shortcut_whose_target_is_missing_is_dropped() {
    let mut disk = Disk::new();
    disk.add_file("C:\\Tools\\unresolved.exe", Vec::new());
    let env = TextMap::new();
    let missing = shortcut(None, Some("C:\\Tools\\gone.exe"), None, None);
    assert!(parse_lnk2("C:\\Menu\\Tool.lnk", &missing, &env, &disk).is_none());
    let unresolved = shortcut(None, Some("C:\\Tools\\unresolved.exe"), None, None);
    assert!(parse_lnk2("C:\\Menu\\Tool.lnk", &unresolved, &env, &disk).is_none());
}

#[test]
fn from_path_needs_the_shortcut_extension_and_a_decoded_shortcut() {
    let mut disk = Disk::new();
    resolved(&mut disk, "C:\\Tools\\tool.exe", "C:\\Tools\\tool.exe");
    let lnk = shortcut(None, Some("C:\\Tools\\tool.exe"), None, None);
    let env = TextMap::new();
    assert!(from_path("C:\\Menu\\Tool.lnk", Some(&lnk), &env, &disk).is_some());
    assert!(from_path("C:\\Menu\\Tool.url", Some(&lnk), &env, &disk).is_none());
    assert!(from_path("C:\\Menu\\Tool.LNK", Some(&lnk), &env, &disk).is_none());
    assert!(from_path("C:\\Menu\\Tool", Some(&lnk), &env, &disk).is_none());
    assert!(from_path("C:\\Menu\\Tool.lnk", None, &env, &disk).is_none());
}

#[test]
fn plain_shortcut_record() {
    let with_dir = shortcut(Some("icon.ico"), Some("C:\\Tools\\tool.exe"), None, Some("D:\\Work"));
    let app = parse_lnk("C:\\Menu\\Tool.lnk", &with_dir).unwrap();
    assert_eq!(app.name, "Tool");
    assert_eq!(app.app_desktop_path, "D:\\Work");
    assert_eq!(app.app_path_exe, Some("C:\\Tools\\tool.exe".to_string()));
    assert_eq!(app.icon_path, Some("icon.ico".to_string()));
    let without_dir = shortcut(None, Some("C:\\Tools\\tool.exe"), None, None);
    assert_eq!(parse_lnk("C:\\Menu\\Tool.lnk", &without_dir).unwrap().app_desktop_path, "C:\\Tools");
    assert!(parse_lnk("C:\\Menu\\Tool.lnk", &shortcut(None, None, None, None)).is_none());
    let only_dir = shortcut(None, None, None, Some("D:\\Work"));
    assert_eq!(parse_lnk("C:\\Menu\\Tool.lnk", &only_dir).unwrap().app_path_exe, None);
}

#[test]
fn icon_source_order() {
    let mut disk = Disk::new();
    disk.add_file("C:\\Tools\\Tool.EXE", Vec::new());
    disk.add_file("C:\\Tools\\run.bat", Vec::new());
    disk.add_file("C:\\Tools\\icon.ico", Vec::new());
    disk.add_file("C:\\Other\\run.bat", Vec::new());
    disk.add_file("C:\\Other\\application.ico", Vec::new());
    disk.add_file("C:\\Other\\run.ico", Vec::new());
    disk.add_file("C:\\Bare\\run.bat", Vec::new());
    assert_eq!(extract_icon_path("C:\\Tools\\Tool.EXE", &disk), Some("C:\\Tools\\Tool.EXE".to_string()));
    assert_eq!(extract_icon_path("C:\\Tools\\run.bat", &disk), Some("C:\\Tools\\icon.ico".to_string()));
    assert_eq!(extract_icon_path("C:\\Other\\run.bat", &disk), Some("C:\\Other\\run.ico".to_string()));
    assert_eq!(extract_icon_path("C:\\Bare\\run.bat", &disk), Some("C:\\Bare\\run.bat".to_string()));
    assert_eq!(extract_icon_path("C:\\Gone\\run.bat", &disk), None);
}

#[test]
fn package_icon_order() {
    let mut disk = Disk::new();
    disk.add_dir("C:\\Pkg");
    disk.add_dir("C:\\Pkg\\Assets\\Folder.png");
    disk.add_file("C:\\Pkg\\top.png", Vec::new());
    disk.add_file("C:\\Pkg\\Images\\image.png", Vec::new());
    disk.add_file("C:\\Pkg\\Assets\\logo.ico", Vec::new());
    assert_eq!(find_uwp_icon("C:\\Pkg", &disk), Some("C:\\Pkg\\Assets\\logo.ico".to_string()));
    disk.add_file("C:\\Pkg\\Assets\\Square44x44Logo.png", Vec::new());
    assert_eq!(
        find_uwp_icon("C:\\Pkg", &disk),
        Some("C:\\Pkg\\Assets\\Square44x44Logo.png".to_string())
    );
    let mut disk = Disk::new();
    disk.add_dir("C:\\Pkg");
    disk.add_file("C:\\Pkg\\Images\\image.png", Vec::new());
    assert_eq!(find_uwp_icon("C:\\Pkg", &disk), Some("C:\\Pkg\\Images\\image.png".to_string()));
    disk.add_file("C:\\Pkg\\top.png", Vec::new());
    assert_eq!(find_uwp_icon("C:\\Pkg", &disk), Some("C:\\Pkg\\top.png".to_string()));
    let mut disk = Disk::new();
    disk.add_dir("C:\\Pkg");
    assert_eq!(find_uwp_icon("C:\\Pkg", &disk), None);
    assert_eq!(find_uwp_icon("C:\\Absent", &disk), None);
}

#[test]
fn registry_keys_give_records() {
    let mut disk = Disk::new();
    disk.add_file("C:\\Tools\\tool.exe", Vec::new());
    disk.add_file("C:\\Tools\\script.cmd", Vec::new());
    disk.add_file("C:\\Tools\\app.ico", Vec::new());
    let key = |name: &str, path: Option<&str>, default_icon: Option<&str>, icon: Option<&str>| {
        RegistryAppPath {
            subkey_name: name.to_string(),
            path: path.map(String::from),
            default_icon: default_icon.map(String::from),
            icon: icon.map(String::from),
        }
    };
    let keys = vec![
        key("tool.exe", Some("\"C:\\Tools\\tool.exe\""), None, None),
        key("gone.exe", Some("C:\\Tools\\gone.exe"), None, None),
        key("empty", None, None, None),
        key("script", Some("C:\\Tools\\script.cmd"), None, Some("\"%WINDIR%\\Second.ico\"")),
        key("both", Some("C:\\Tools\\script.cmd"), Some("First.ico"), Some("Second.ico")),
        key("beside", Some("C:\\Tools\\script.cmd"), None, None),
    ];
    let env = env(&[("WINDIR", "C:\\Windows")]);
    let apps = get_apps_from_registry(&keys, &env, &disk);
    assert_eq!(apps.len(), 4);
    assert_eq!(apps[0].name, "tool");
    assert_eq!(apps[0].app_path_exe, Some("C:\\Tools\\tool.exe".to_string()));
    assert_eq!(apps[0].app_desktop_path, "C:\\Tools");
    assert_eq!(apps[0].icon_path, Some("C:\\Tools\\tool.exe".to_string()));
    assert_eq!(apps[1].name, "script");
    assert_eq!(apps[1].icon_path, Some("C:\\Windows\\second.ico".to_string()));
    assert_eq!(apps[2].icon_path, Some("First.ico".to_string()));
    assert_eq!(apps[3].icon_path, Some("C:\\Tools\\app.ico".to_string()));
}

#[test]
fn executables_of_the_search_path() {
    let mut disk = Disk::new();
    disk.add_dir("C:\\Bin");
    disk.add_file("C:\\Bin\\one.exe", Vec::new());
    disk.add_file("C:\\Bin\\two.EXE", Vec::new());
    disk.add_file("C:\\Bin\\three.dll", Vec::new());
    disk.add_dir("C:\\Bin\\dir.exe");
    disk.add_file("C:\\Bin\\sub\\deep.exe", Vec::new());
    disk.add_dir("D:\\Bin");
    disk.add_file("D:\\Bin\\four.exe", Vec::new());
    disk.add_file("E:\\Absent\\five.exe", Vec::new());
    let apps = get_apps_from_path_env(&Some("C:\\Bin;;D:\\Bin;E:\\Absent".to_string()), &disk);
    let names: Vec<&str> = apps.iter().map(|app| app.name.as_str()).collect();
    assert_eq!(names, vec!["one", "two", "four"]);
    assert_eq!(apps[1].app_path_exe, Some("C:\\Bin\\two.EXE".to_string()));
    assert_eq!(apps[1].icon_path, Some("C:\\Bin\\two.EXE".to_string()));
    assert_eq!(apps[1].app_desktop_path, "C:\\Bin");
    assert!(get_apps_from_path_env(&None, &disk).is_empty());
}

#[test]
fn packages_are_read_from_the_query_output() {
    let json = r#"[
        {"Name": "Calculator", "AppUserModelId": "Microsoft.Calc!App", "InstallLocation": "C:\\Apps\\Calc", "Description": "x"},
        {"Name": "No Id", "InstallLocation": "C:\\Apps\\NoId"},
        {"AppUserModelId": "NoName!App"},
        {"Name": 3, "AppUserModelId": "Number!App"},
        {"Name": "Nowhere", "AppUserModelId": "Nowhere!App", "InstallLocation": null},
        "text"
    ]"#;
    let mut disk = Disk::new();
    disk.add_dir("C:\\Apps\\Calc");
    disk.add_file("C:\\Apps\\Calc\\Assets\\logo.png", Vec::new());
    let output = |success: bool, text: &str| {
        Some(ProcessOutput { success, stdout: text.as_bytes().to_vec() })
    };
    let apps = get_uwp_apps_powershell(&output(true, json), &disk).unwrap();
    assert_eq!(apps.len(), 2);
    assert_eq!(apps[0].name, "Calculator");
    assert_eq!(apps[0].app_path_exe, None);
    assert_eq!(apps[0].app_desktop_path, "C:\\Apps\\Calc");
    assert_eq!(apps[0].icon_path, Some("C:\\Apps\\Calc\\Assets\\logo.png".to_string()));
    assert_eq!(apps[1].name, "Nowhere");
    assert_eq!(apps[1].app_desktop_path, "");
    assert_eq!(apps[1].icon_path, None);
    assert!(get_uwp_apps_powershell(&output(true, "[]"), &disk).unwrap().is_empty());
    assert_eq!(
        locations_of_packages(&output(true, json)),
        vec!["C:\\Apps\\Calc".to_string(), "C:\\Apps\\NoId".to_string()]
    );
}

#[test]
fn a_failed_package_query_is_reported() {
    let disk = Disk::new();
    let output = |success: bool, text: &str| {
        Some(ProcessOutput { success, stdout: text.as_bytes().to_vec() })
    };
    assert_eq!(
        get_uwp_apps_powershell(&output(false, "[]"), &disk).unwrap_err(),
        PackageError::QueryFailed
    );
    assert_eq!(get_uwp_apps_powershell(&None, &disk).unwrap_err(), PackageError::QueryFailed);
    assert_eq!(
        get_uwp_apps_powershell(&output(true, "{\"Name\": \"single\"}"), &disk).unwrap_err(),
        PackageError::Unreadable
    );
    assert_eq!(
        get_uwp_apps_powershell(&output(true, "not json"), &disk).unwrap_err(),
        PackageError::Unreadable
    );
    assert!(locations_of_packages(&output(false, "[]")).is_empty());
    // The other sources are not affected.
    let mut sources = sources();
    sources.packages = output(false, "[]");
    sources.path_var = Some("C:\\Bin".to_string());
    let mut disk = Disk::new();
    disk.add_dir("C:\\Bin");
    disk.add_file("C:\\Bin\\tool.exe", Vec::new());
    assert_eq!(get_all_apps(&Vec::new(), &sources, &disk).len(), 1);
}

#[test]
fn package_rows_need_name_and_identifier() {
    let row = |name: Option<&str>, id: Option<&str>, location: Option<&str>| {
        vec![name.map(String::from), id.map(String::from), location.map(String::from)]
    };
    let rows = vec![
        row(Some("A"), Some("a"), Some("C:\\A")),
        row(Some("B"), None, Some("C:\\B")),
        row(None, Some("c"), Some("C:\\C")),
        vec![Some("short".to_string())],
    ];
    let apps = apps_of_packages(&rows, &Disk::new());
    assert_eq!(apps.len(), 1);
    assert_eq!(apps[0].name, "A");
}

#[test]
fn shell_report_gives_a_record() {
    let report = |description: &str, working_directory: &str, icon: &str| PowerShellLnkParseResult {
        icon_location: icon.to_string(),
        description: description.to_string(),
        working_directory: working_directory.to_string(),
        arguments: String::new(),
        hotkey: String::new(),
        window_style: 1,
        target_path: "C:\\Program Files\\Docker\\Docker Desktop.exe".to_string(),
    };
    let app = parse_lnk_with_powershell_2(&report("Runs Docker Desktop", "C:\\Work", "C:\\i.ico,0")).unwrap();
    assert_eq!(app.name, "Docker Desktop");
    assert_eq!(app.app_desktop_path, "C:\\Program Files\\Docker");
    assert_eq!(app.icon_path, Some("C:\\i.ico,0".to_string()));
    assert_eq!(app.app_path_exe, Some("C:\\Program Files\\Docker\\Docker Desktop.exe".to_string()));
    let app = parse_lnk_with_powershell_2(&report("Container tool", "", "")).unwrap();
    assert_eq!(app.name, "Container tool");
    assert_eq!(app.app_desktop_path, "");
    assert_eq!(app.icon_path, None);
    let app = parse_lnk_with_powershell_2(&report("", "", "")).unwrap();
    assert_eq!(app.name, "Docker");
    let mut rootless = report("", "C:\\Work", "");
    rootless.target_path = String::new();
    assert!(parse_lnk_with_powershell_2(&rootless).is_none());
}

#[test]
fn default_search_paths_are_the_two_start_menus() {
    assert_eq!(
        get_default_search_paths("C:\\Users\\me\\AppData\\Roaming"),
        vec![
            "C:\\Users\\me\\AppData\\Roaming\\Microsoft\\Windows\\Start Menu\\Programs".to_string(),
            "C:\\ProgramData\\Microsoft\\Windows\\Start Menu\\Programs".to_string(),
        ]
    );
}

#[test]
fn merge_keeps_the_first_record_of_each_executable() {
    let apps = vec![
        app("first", Some("C:\\a.exe")),
        app("no executable", None),
        app("second", Some("C:\\b.exe")),
        app("again", Some("C:\\a.exe")),
        app("case differs", Some("C:\\A.exe")),
    ];
    let kept = merge_by_executable(&apps);
    let names: Vec<&str> = kept.iter().map(|app| app.name.as_str()).collect();
    assert_eq!(names, vec!["first", "no executable", "second", "case differs"]);
    let packages = vec![app("store", None), app("store", None), app("other", None)];
    assert_eq!(merge_by_executable(&packages).len(), 3);
    assert!(merge_by_executable(&Vec::new()).is_empty());
}

#[test]
fn order_is_by_lower_case_name_and_keeps_equal_names_in_place() {
    let apps = vec![
        app("zeta", Some("1")),
        app("Alpha", Some("2")),
        app("alpha", Some("3")),
        app("Beta", Some("4")),
        app("ALPHA", Some("5")),
        app("", Some("6")),
        app("alphabet", Some("7")),
    ];
    let sorted = sort_by_name(&apps);
    let order: Vec<&str> = sorted.iter().map(|app| app.app_path_exe.as_deref().unwrap()).collect();
    assert_eq!(order, vec!["6", "2", "3", "5", "7", "4", "1"]);
}

#[test]
fn all_sources_are_merged_in_order_and_sorted() {
    let menu = "C:\\ProgramData\\Microsoft\\Windows\\Start Menu\\Programs";
    let mut disk = Disk::new();
    disk.add_dir(menu);
    disk.add_file(&format!("{menu}\\Zed.lnk"), Vec::new());
    disk.add_file(&format!("{menu}\\a\\b\\Deep.lnk"), Vec::new());
    disk.add_file(&format!("{menu}\\a\\b\\c\\Too Deep.lnk"), Vec::new());
    disk.add_file(&format!("{menu}\\Broken.lnk"), Vec::new());
    resolved(&mut disk, "C:\\Tools\\zed.exe", "C:\\Tools\\zed.exe");
    resolved(&mut disk, "C:\\Tools\\deep.exe", "C:\\Tools\\deep.exe");
    disk.add_dir("C:\\Tools");
    let mut sources = sources();
    let target = |exe: &str| shortcut(None, Some(exe), None, None);
    sources.shortcuts.push((format!("{menu}\\Zed.lnk"), target("C:\\Tools\\zed.exe")));
    sources.shortcuts.push((format!("{menu}\\a\\b\\Deep.lnk"), target("C:\\Tools\\deep.exe")));
    sources.shortcuts.push((format!("{menu}\\a\\b\\c\\Too Deep.lnk"), target("C:\\Tools\\deep.exe")));
    sources.registry.push(RegistryAppPath {
        subkey_name: "zed.exe".to_string(),
        path: Some("C:\\Tools\\zed.exe".to_string()),
        default_icon: None,
        icon: None,
    });
    sources.path_var = Some("C:\\Tools".to_string());
    sources.packages = Some(ProcessOutput {
        success: true,
        stdout: br#"[{"Name": "Store App", "AppUserModelId": "Store!App", "InstallLocation": "C:\\Apps"}]"#.to_vec(),
    });
    let apps = get_all_apps(&vec![menu.to_string()], &sources, &disk);
    let names: Vec<(&str, Option<&str>)> =
        apps.iter().map(|app| (app.name.as_str(), app.app_path_exe.as_deref())).collect();
    assert_eq!(
        names,
        vec![
            ("Deep", Some("C:\\Tools\\deep.exe")),
            ("Store App", None),
            ("Zed", Some("C:\\Tools\\zed.exe")),
        ]
    );
    assert_eq!(apps[1].app_desktop_path, "C:\\Apps");
    assert_eq!(apps[2].app_desktop_path, "C:\\Tools");
    assert!(find_shortcut(&sources.shortcuts, &format!("{menu}\\Zed.lnk")).is_some());
    assert!(find_shortcut(&sources.shortcuts, &format!("{menu}\\Broken.lnk")).is_none());
}

#[test]
fn every_placeholder_is_resolved() {
    let table = [
        ("%windir%", "WINDIR"),
        ("%systemroot%", "SYSTEMROOT"),
        ("%programfiles%", "PROGRAMFILES"),
        ("%programfiles(x86)%", "PROGRAMFILES(X86)"),
        ("%programdata%", "PROGRAMDATA"),
        ("%userprofile%", "USERPROFILE"),
        ("%appdata%", "APPDATA"),
        ("%localappdata%", "LOCALAPPDATA"),
        ("%public%", "PUBLIC"),
        ("%systemdrive%", "SYSTEMDRIVE"),
    ];
    let mut all = TextMap::new();
    for (index, (_, name)) in table.iter().enumerate() {
        all.insert(name.to_string(), format!("V{index}:"));
    }
    for (index, (placeholder, _)) in table.iter().enumerate() {
        let path = format!("{}\\Dir\\File.EXE", placeholder.to_uppercase());
        assert_eq!(translate_path_alias(&path, &all), format!("V{index}:\\dir\\file.exe"));
    }
}

#[test]
fn the_default_shell_report_is_empty() {
    let report = PowerShellLnkParseResult::default();
    assert_eq!(report.icon_location, "");
    assert_eq!(report.description, "");
    assert_eq!(report.working_directory, "");
    assert_eq!(report.arguments, "");
    assert_eq!(report.hotkey, "");
    assert_eq!(report.window_style, 0);
    assert_eq!(report.target_path, "");
    assert_eq!(report.clone(), report);
    let mut other = report.clone();
    other.window_style = 1;
    assert_ne!(other, report);
}
