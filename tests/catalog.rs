use launchdock::apps::{extract_icon, icon_format, AppInfo, IconFormat, Platform};
use launchdock::linux;
use launchdock::logs::{log_entry, log_too_large, tail_start};
use launchdock::macos;
use launchdock::model::{build_catalog, merge_apps, parse_desktop_entry, sort_by_name, App};
use launchdock::numeral::trim;
use launchdock::windows;

fn app(name: &str, path: &str) -> App {
    App { name: name.to_string(), path: path.to_string(), description: None, icon: None }
}

fn names(apps: &[App]) -> Vec<&str> {
    apps.iter().map(|a| a.name.as_str()).collect()
}

#[test]
fn richer_source_replaces_a_scanned_target() {
    let scanned = vec![app("gimp", "/usr/bin/gimp"), app("xterm", "/usr/bin/xterm")];
    let mut rich = app("GIMP", "/usr/bin/gimp-2.10");
    rich.description = Some("Image editor".to_string());
    let catalog = build_catalog(scanned, vec![rich]);
    assert_eq!(names(&catalog), vec!["GIMP", "xterm"]);
    assert_eq!(catalog[0].path, "/usr/bin/gimp-2.10");
    assert_eq!(catalog[0].description.as_deref(), Some("Image editor"));
}

#[test]
fn first_scanned_target_of_a_key_is_kept() {
    let merged = merge_apps(
        vec![app("vim", "/usr/bin/vim"), app("Vim", "/opt/vim"), app("nano", "/bin/nano")],
        vec![],
    );
    assert_eq!(merged.len(), 2);
    assert_eq!(merged[0].path, "/usr/bin/vim");
    assert_eq!(merged[1].name, "nano");
}

#[test]
fn last_rich_target_of_a_key_wins_and_new_keys_are_added() {
    let merged = merge_apps(
        vec![app("b", "/1")],
        vec![app("B", "/2"), app("c", "/3"), app("b", "/4")],
    );
    assert_eq!(names(&merged), vec!["b", "c"]);
    assert_eq!(merged[0].path, "/4");
}

#[test]
fn catalog_is_sorted_by_code_point() {
    let catalog = build_catalog(
        vec![app("b", "/b"), app("Zed", "/z"), app("a", "/a"), app("éclair", "/e"), app("ab", "/ab")],
        vec![],
    );
    assert_eq!(names(&catalog), vec!["Zed", "a", "ab", "b", "éclair"]);
    assert!(build_catalog(vec![], vec![]).is_empty());
    assert_eq!(names(&sort_by_name(vec![app("b", "1"), app("a", "2")])), vec!["a", "b"]);
}

#[test]
fn desktop_entry_fields() {
    let content = "[Desktop Entry]\r\nName=Text Editor\r\nComment=Edit text\nExec=\"/usr/bin/gedit\" %U\nIcon=gedit\nName=Gedit\n";
    let entry = parse_desktop_entry(content).unwrap();
    assert_eq!(entry.name, "Gedit");
    assert_eq!(entry.path, "/usr/bin/gedit");
    assert_eq!(entry.description.as_deref(), Some("Edit text"));
    assert_eq!(entry.icon.as_deref(), Some("gedit"));
}

#[test]
fn hidden_or_incomplete_entries_are_rejected() {
    assert!(parse_desktop_entry("Name=A\nExec=a\nNoDisplay=true\n").is_none());
    assert!(parse_desktop_entry("Name=A\nExec=a\nNoDisplay=false").is_some());
    assert!(parse_desktop_entry("Exec=a\n").is_none());
    assert!(parse_desktop_entry("Name=A\n").is_none());
    assert!(parse_desktop_entry("Name=A\nExec=   \n").is_none());
    let bare = parse_desktop_entry("Name=Files\nExec=nautilus --new-window\n").unwrap();
    assert_eq!(bare.path, "nautilus");
    assert_eq!(bare.description, None);
}

#[test]
fn icon_formats_by_extension() {
    let linux = Platform::Linux;
    assert_eq!(icon_format(linux, "/usr/share/icons/a.svg"), Some(IconFormat::Svg));
    assert_eq!(icon_format(linux, "/x/y.png"), Some(IconFormat::Raster));
    assert_eq!(icon_format(linux, "y.jpeg"), Some(IconFormat::Raster));
    assert_eq!(icon_format(linux, "/x/y.xpm"), Some(IconFormat::Raster));
    assert_eq!(icon_format(linux, "/x/App.icns"), None);
    assert_eq!(icon_format(linux, "/x/y.PNG"), None);
    assert_eq!(icon_format(linux, "/x/.svg"), None);
    assert_eq!(icon_format(linux, "/x.svg/readme"), None);
    assert_eq!(icon_format(linux, "/x/y.tar.gz"), None);
    assert_eq!(icon_format(Platform::MacOs, "/x/App.icns"), Some(IconFormat::Icns));
    assert_eq!(icon_format(Platform::MacOs, "/x/a.png"), None);
    assert_eq!(icon_format(Platform::Windows, "C:\\a.exe"), Some(IconFormat::Placeholder));
    let with_icon = AppInfo { name: "a".into(), exe_path: "/a".into(), icon_path: Some("/i/a.svg".into()) };
    assert_eq!(extract_icon(linux, &with_icon), Some(("/i/a.svg".to_string(), IconFormat::Svg)));
    assert_eq!(extract_icon(Platform::MacOs, &with_icon), None);
    let without = AppInfo { name: "a".into(), exe_path: "/a".into(), icon_path: None };
    assert_eq!(extract_icon(linux, &without), None);
}

fn info(name: &str, exe: &str) -> AppInfo {
    AppInfo { name: name.to_string(), exe_path: exe.to_string(), icon_path: None }
}

#[test]
fn linux_targets_keep_the_first_of_each_executable() {
    let entries = vec![info("Firefox", "/usr/bin/firefox"), info("Firefox (copy)", "/usr/bin/firefox"), info("Gimp", "/usr/bin/gimp")];
    let actions = linux::special_commands(None, Some("ada".to_string()));
    let all = linux::discover_applications(entries, actions);
    let got: Vec<&str> = all.iter().map(|a| a.name.as_str()).collect();
    assert_eq!(got, vec!["Firefox", "Gimp", "Lock Screen", "Logout", "Restart", "Shutdown"]);
    assert_eq!(all[0].exe_path, "/usr/bin/firefox");
}

#[test]
fn linux_session_actions() {
    let icon = Some("/usr/share/pixmaps/system-shutdown.png".to_string());
    let acts = linux::special_commands(icon.clone(), Some("ada".to_string()));
    assert_eq!(acts.len(), 4);
    assert_eq!(acts[0].exe_path, "systemctl poweroff");
    assert_eq!(acts[3].exe_path, "loginctl terminate-user ada");
    assert!(acts.iter().all(|a| a.icon_path == icon));
    assert_eq!(linux::special_commands(None, None).len(), 3);
}

#[test]
fn linux_exec_commands() {
    assert_eq!(linux::executable_command("\"/opt/app/bin/app\" --flag %U"), "/opt/app/bin/app");
    assert_eq!(linux::executable_command("  code --new-window"), "code");
    assert_eq!(linux::executable_command("\"\""), "");
}

#[test]
fn macos_bundles_and_icons() {
    assert_eq!(macos::bundle_name("/Applications/Safari.app"), "Safari");
    assert_eq!(macos::bundle_name("/Applications/Odd.app.app"), "Odd");
    assert_eq!(macos::bundle_name("Plain"), "Plain");
    let b = macos::parse_app_bundle("/Applications/Notes.app", true, None).unwrap();
    assert_eq!(b.name, "Notes");
    assert_eq!(b.exe_path, "/Applications/Notes.app");
    assert!(macos::parse_app_bundle("/Applications/Broken.app", false, None).is_none());
    let pats = macos::find_icon_by_patterns("Ärger");
    assert_eq!(pats, vec!["Ärger.icns", "ärger.icns", "ÄRGER.icns", "AppIcon.icns", "appicon.icns", "app.icns", "icon.icns"]);
    assert_eq!(macos::icon_file_name("Icon"), "Icon.icns");
    assert_eq!(macos::icon_file_name("Icon.icns"), "Icon.icns");
    assert_eq!(macos::special_commands().len(), 4);
    let all = macos::discover_applications(vec![info("Notes", "/Applications/Notes.app")], macos::special_commands());
    let got: Vec<&str> = all.iter().map(|a| a.name.as_str()).collect();
    assert_eq!(got, vec!["Lock Screen", "Logout", "Notes", "Restart", "Shutdown"]);
}

#[test]
fn windows_registry_entries() {
    let e = windows::parse_registry_entry(Some("Tool".into()), Some("C:\\Tool".into()), None, Some("C:\\Tool\\t.ico".into())).unwrap();
    assert_eq!(e.exe_path, "C:\\Tool");
    assert_eq!(e.icon_path.as_deref(), Some("C:\\Tool\\t.ico"));
    let u = windows::parse_registry_entry(Some("Tool".into()), None, Some("C:\\u.exe".into()), None).unwrap();
    assert_eq!(u.exe_path, "C:\\u.exe");
    assert!(windows::parse_registry_entry(Some("Tool".into()), Some(String::new()), Some("C:\\u.exe".into()), None).is_none());
    assert!(windows::parse_registry_entry(None, Some("C:\\Tool".into()), None, None).is_none());
    let acts = windows::special_commands();
    assert_eq!(acts.len(), 5);
    assert_eq!(acts[3].name, "Sleep");
    let all = windows::discover_applications(vec![e], vec![u], acts);
    assert_eq!(all.len(), 7);
    assert_eq!(all[0].name, "Lock Screen");
    assert_eq!(all[6].name, "Tool");
}

#[test]
fn log_lines_and_limits() {
    assert_eq!(log_entry("2024-01-02 03:04:05", "INFO", "Daemon started"), "[2024-01-02 03:04:05] INFO: Daemon started\n");
    assert!(!log_too_large(5 * 1024 * 1024));
    assert!(log_too_large(5 * 1024 * 1024 + 1));
    assert_eq!(tail_start(100, 50), 50);
    assert_eq!(tail_start(10, 50), 0);
}

#[test]
fn trimming_white_space() {
    assert_eq!(trim(" \t a b \n"), "a b");
    assert_eq!(trim("\u{3000}x\u{2028}"), "x");
    assert_eq!(trim("   "), "");
}

#[test]
fn targets_without_a_name_are_dropped() {
    let entries = vec![info("", "/usr/bin/ghost"), info("b", "/usr/bin/b"), info("a", "/usr/bin/ghost")];
    let all = linux::discover_applications(entries, vec![]);
    let got: Vec<&str> = all.iter().map(|a| a.name.as_str()).collect();
    assert_eq!(got, vec!["a", "b"]);
    assert_eq!(macos::discover_applications(vec![info("", "/x.app")], vec![]).len(), 0);
    assert!(parse_desktop_entry("Name=\nExec=a\n").is_none());
    assert!(parse_desktop_entry("Name=A\nExec=a\nHidden=true\n").is_none());
    assert!(parse_desktop_entry("Name=A\nExec=a\nHidden=false\n").is_some());
    assert!(linux::is_application_entry(true, true, false, false));
    assert!(!linux::is_application_entry(true, true, false, true));
    assert!(!linux::is_application_entry(true, true, true, false));
    assert!(!linux::is_application_entry(false, true, false, false));
}
