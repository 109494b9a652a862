use launchdock::apps::get_app_name;
use launchdock::icons::{pick_valid_icon, valid_icon};
use launchdock::linux::{find_in_path, resolve_icon_path};
use launchdock::macos::{get_icon_from_plist, validate_icns};
use launchdock::model::{bundle_icon_names, discover_comprehensive_icon, extract_bundle_icon_name, get_app_paths};

#[test]
fn absolute_icon_names_are_tried_as_they_are() {
    let bases = vec!["/usr/share/icons".to_string()];
    assert_eq!(resolve_icon_path(&bases, "/opt/app/icon.png"), vec!["/opt/app/icon.png".to_string()]);
}

#[test]
fn themed_then_pixmap_candidates() {
    let bases = vec![
        "/usr/share/icons".to_string(),
        "/usr/share/pixmaps".to_string(),
        "/home/ada/.icons".to_string(),
    ];
    let c = resolve_icon_path(&bases, "gimp");
    assert_eq!(c.len(), 648 * 2 + 3);
    assert_eq!(c[0], "/usr/share/icons/hicolor/scalable/apps/gimp.svg");
    assert_eq!(c[1], "/usr/share/icons/hicolor/scalable/apps/gimp.png");
    assert_eq!(c[3], "/usr/share/icons/hicolor/scalable/places/gimp.svg");
    assert_eq!(c[12], "/usr/share/icons/hicolor/48x48/apps/gimp.svg");
    assert_eq!(c[72], "/usr/share/icons/Adwaita/scalable/apps/gimp.svg");
    assert_eq!(c[647], "/usr/share/icons/elementary-xfce/16x16/categories/gimp.xpm");
    assert_eq!(c[648], "/home/ada/.icons/hicolor/scalable/apps/gimp.svg");
    assert_eq!(c[1296], "/usr/share/pixmaps/gimp.svg");
    assert_eq!(c[1298], "/usr/share/pixmaps/gimp.xpm");
    assert!(resolve_icon_path(&Vec::new(), "gimp").is_empty());
}

#[test]
fn icon_search_for_targets_without_icon() {
    let c = discover_comprehensive_icon("ada", "GIMP");
    assert_eq!(c.len(), 30);
    assert_eq!(c[0], "/usr/share/icons/hicolor/48x48/apps/gimp.png");
    assert_eq!(c[1], "/usr/share/icons/hicolor/48x48/apps/GIMP.png");
    assert_eq!(c[2], "/usr/share/icons/hicolor/48x48/apps/gimp.svg");
    assert_eq!(c[18], "/usr/share/pixmaps/gimp.png");
    assert_eq!(c[29], "/home/ada/.local/share/icons/hicolor/48x48/apps/GIMP.xpm");
}

#[test]
fn bundle_icon_name_candidates() {
    assert_eq!(
        bundle_icon_names("safari"),
        vec!["AppIcon.icns", "safari.icns", "safari.icns", "app.icns", "icon.icns", "SAFARI.icns", "Safari.icns"]
    );
    assert_eq!(bundle_icon_names("")[6], ".icns");
}

#[test]
fn bundle_icon_name_from_plist_text() {
    let text = "<dict>\n<key>CFBundleName</key><string>X</string>\n<key>CFBundleIconFile</key>\n<string>AppIcon</string>\n</dict>";
    assert_eq!(extract_bundle_icon_name(text), Some("AppIcon".to_string()));
    assert_eq!(extract_bundle_icon_name("<key>CFBundleName</key><string>X</string>"), None);
    assert_eq!(extract_bundle_icon_name("<key>CFBundleIconFile</key><string>open"), None);
}

#[test]
fn icns_containers_are_checked() {
    assert!(validate_icns(b"icns\x00\x00\x00\x08"));
    assert!(validate_icns(b"icns\x00\x00\x00\x10ic08\x00\x00\x00\x08"));
    assert!(!validate_icns(b"icns\x00\x00\x00\x10ic08\x00\x00\x00\x04"));
    assert!(!validate_icns(b""));
    assert!(!validate_icns(b"\x89PNG\r\n\x1a\n"));
    assert!(!validate_icns(b"icns\x00\x00\x00\x10ic08\x00\x00\x00\x20"));
}

#[test]
fn plist_icon_names() {
    let xml = r#"<?xml version="1.0" encoding="UTF-8"?>
<!DOCTYPE plist PUBLIC "-//Apple//DTD PLIST 1.0//EN" "http://www.apple.com/DTDs/PropertyList-1.0.dtd">
<plist version="1.0"><dict>
<key>CFBundleIconFile</key><string>AppIcon</string>
<key>CFBundleIconName</key><string>Named.icns</string>
</dict></plist>"#;
    assert_eq!(get_icon_from_plist(xml.as_bytes()), vec!["Named.icns".to_string(), "AppIcon.icns".to_string()]);
    assert!(get_icon_from_plist(b"not a plist").is_empty());
}

#[test]
fn search_path_candidates() {
    assert_eq!(
        find_in_path("/usr/bin:/bin/::/opt/x", "code"),
        vec!["/usr/bin/code", "/bin/code", "code", "/opt/x/code"]
    );
    assert_eq!(find_in_path("", "code"), vec!["code"]);
}

#[test]
fn scanned_names_and_directories() {
    assert_eq!(get_app_name("/usr/bin/firefox"), "firefox");
    assert_eq!(get_app_name("/Applications/Safari.app"), "Safari");
    assert_eq!(get_app_name("/x/.hidden"), ".hidden");
    assert_eq!(get_app_name("/x/a.tar.gz"), "a.tar");
    let linux = get_app_paths(false, "ada");
    assert_eq!(linux.len(), 5);
    assert_eq!(linux[2], "/home/ada/.local/share/applications/");
    let mac = get_app_paths(true, "ada");
    assert_eq!(mac, vec!["/Applications/", "/Users/ada/Applications/", "/System/Applications/", "/System/Library/CoreServices/"]);
}

#[test]
fn platform_directories() {
    assert_eq!(
        launchdock::macos::app_directories(Some("/Users/ada")),
        vec!["/Applications", "/Applications/Utilities", "/System/Applications", "/System/Applications/Utilities", "/Users/ada/Applications"]
    );
    assert_eq!(launchdock::macos::app_directories(None).len(), 4);
    assert_eq!(
        launchdock::linux::get_icon_base_directories(None, Some("/home/ada"), None),
        vec!["/usr/local/share/icons", "/usr/share/icons", "/usr/share/pixmaps", "/home/ada/.local/share/icons", "/home/ada/.icons"]
    );
    assert_eq!(
        launchdock::linux::get_icon_base_directories(Some("/a::/b/"), None, Some("/x")),
        vec!["/a/icons", "/b//icons", "/usr/share/pixmaps"]
    );
    assert_eq!(
        launchdock::linux::get_icon_base_directories(None, Some("/h"), Some("/data")),
        vec!["/usr/local/share/icons", "/usr/share/icons", "/usr/share/pixmaps", "/data/icons", "/h/.icons"]
    );
}

#[test]
fn standard_bundle_icon() {
    assert_eq!(
        launchdock::macos::get_macos_app_icon("/Applications/Notes.app"),
        Some("/Applications/Notes.app/Contents/Resources/AppIcon.icns".to_string())
    );
    assert_eq!(launchdock::macos::get_macos_app_icon("/usr/bin/vim"), None);
    assert_eq!(launchdock::linux::split_colon_parts("a::b"), vec!["a", "", "b"]);
}

fn tiny_png() -> Vec<u8> {
    let img = image::RgbImage::new(1, 1);
    let mut out = std::io::Cursor::new(Vec::new());
    img.write_to(&mut out, image::ImageFormat::Png).unwrap();
    out.into_inner()
}

const SVG: &[u8] = b"<svg xmlns='http://www.w3.org/2000/svg' width='4' height='4'/>";

#[test]
fn icon_files_must_parse() {
    let png = tiny_png();
    assert!(valid_icon("/i/a.png", &png));
    assert!(!valid_icon("/i/a.png", b""));
    assert!(!valid_icon("/i/a.png", b"not a png"));
    assert!(!valid_icon("/i/a.png", SVG));
    assert!(valid_icon("/i/a.svg", SVG));
    assert!(!valid_icon("/i/a.svg", b"<html"));
    assert!(!valid_icon("/i/a.xpm", b"/* XPM */"));
    assert!(!valid_icon("/i/a.jpg", &png));
}

#[test]
fn first_usable_candidate_wins() {
    let png = tiny_png();
    let candidates = vec![
        ("/a/missing.png".to_string(), None),
        ("/a/empty.png".to_string(), Some(Vec::new())),
        ("/a/corrupt.svg".to_string(), Some(b"garbage".to_vec())),
        ("/a/good.png".to_string(), Some(png.clone())),
        ("/a/later.svg".to_string(), Some(SVG.to_vec())),
    ];
    assert_eq!(pick_valid_icon(&candidates), Some("/a/good.png".to_string()));
    assert_eq!(pick_valid_icon(&candidates[..3].to_vec()), None);
    assert_eq!(pick_valid_icon(&Vec::new()), None);
}
