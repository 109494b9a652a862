//! Discovery on macOS: application bundles and the session's system actions.
use vstd::prelude::*;
use vstd::string::*;

use crate::apps::{extension_of, file_name_of, infos_sorted, keep_named, lower_of, named, sort_infos_by_name, str_eq, to_lower, to_upper, upper_of, AppInfo};
use crate::linux::{join_path, joined};

verus! {

/// Icon shared by the system actions.
pub const SYSTEM_ICON: &'static str =
    "/System/Library/CoreServices/CoreTypes.bundle/Contents/Resources/ToolbarAdvanced.icns";

/// The targets that have a name, from the bundles and the system actions,
/// sorted by name.
pub fn discover_applications(bundles: Vec<AppInfo>, actions: Vec<AppInfo>) -> (r: Vec<AppInfo>)
    ensures
        infos_sorted(r@),
        r@.to_multiset() == named(bundles@ + actions@).to_multiset(),
{
    let mut bundles = bundles;
    let mut actions = actions;
    bundles.append(&mut actions);
    sort_infos_by_name(keep_named(bundles))
}

fn action(name: &str, command: &str) -> (r: AppInfo)
    ensures
        r.name@ == name@,
        r.exe_path@ == command@,
        r.icon_path matches Some(p) && p@ == SYSTEM_ICON@,
{
    AppInfo {
        name: name.to_owned(),
        exe_path: command.to_owned(),
        icon_path: Some(SYSTEM_ICON.to_owned()),
    }
}

/// The system actions: shutdown, logout, restart and lock, run through AppleScript.
pub fn special_commands() -> (r: Vec<AppInfo>)
    ensures
        r@.len() == 4,
        r@[0].name@ == "Shutdown"@ && r@[0].exe_path@
            == "osascript -e 'tell app \"System Events\" to shut down'"@,
        r@[1].name@ == "Logout"@ && r@[1].exe_path@
            == "osascript -e 'tell app \"System Events\" to log out'"@,
        r@[2].name@ == "Restart"@ && r@[2].exe_path@
            == "osascript -e 'tell app \"System Events\" to restart'"@,
        r@[3].name@ == "Lock Screen"@ && r@[3].exe_path@
            == "osascript -e 'tell application \"System Events\" to keystroke \"q\" using {command down, control down}'"@,
        forall|i: int| 0 <= i < 4 ==> ((#[trigger] r@[i]).icon_path matches Some(p) && p@ == SYSTEM_ICON@),
{
    let mut out: Vec<AppInfo> = Vec::new();
    out.push(action("Shutdown", "osascript -e 'tell app \"System Events\" to shut down'"));
    out.push(action("Logout", "osascript -e 'tell app \"System Events\" to log out'"));
    out.push(action("Restart", "osascript -e 'tell app \"System Events\" to restart'"));
    out.push(
        action(
            "Lock Screen",
            "osascript -e 'tell application \"System Events\" to keystroke \"q\" using {command down, control down}'",
        ),
    );
    out
}

/// `s` without any number of trailing `.app`.
pub open spec fn strip_app(s: Seq<char>) -> Seq<char>
    decreases s.len(),
{
    if s.len() >= 4 && s.subrange(s.len() - 4, s.len() as int) == ".app"@ {
        strip_app(s.subrange(0, s.len() - 4))
    } else {
        s
    }
}

/// Whether `s` ends with `suffix`.
pub fn ends_with(s: &str, suffix: &str) -> (r: bool)
    ensures
        r == (s@.len() >= suffix@.len() && s@.subrange(s@.len() - suffix@.len(), s@.len() as int)
            == suffix@),
{
    let n = s.unicode_len();
    let m = suffix.unicode_len();
    if n < m {
        return false;
    }
    str_eq(s.substring_char(n - m, n), suffix)
}

/// The display name of a bundle: its file name without the `.app` suffix.
pub fn bundle_name(app_path: &str) -> (r: String)
    ensures
        r@ == strip_app(file_name_of(app_path@)),
{
    let name = crate::apps::file_name(app_path);
    let mut end = name.unicode_len();
    proof {
        reveal_strlit(".app");
    }
    assert(name@.subrange(0, end as int) =~= name@);
    while end >= 4 && ends_with(name.substring_char(0, end), ".app")
        invariant
            end <= name@.len(),
            strip_app(name@) == strip_app(name@.subrange(0, end as int)),
        decreases end,
    {
        let ghost t = name@.subrange(0, end as int);
        proof {
            reveal_strlit(".app");
        }
        assert(t.subrange(0, end - 4) =~= name@.subrange(0, end - 4));
        assert(t.len() >= 4 && t.subrange(t.len() - 4, t.len() as int) == ".app"@);
        assert(strip_app(t) == strip_app(t.subrange(0, t.len() - 4)));
        end = end - 4;
    }
    name.substring_char(0, end).to_owned()
}

/// Reads a bundle: `None` when it has no `Contents/Info.plist`; else a target
/// named after the bundle, launched by opening the bundle itself.
pub fn parse_app_bundle(app_path: &str, has_info_plist: bool, icon_path: Option<String>) -> (r:
    Option<AppInfo>)
    ensures
        !has_info_plist ==> r is None,
        has_info_plist ==> (r matches Some(a) && a.name@ == strip_app(file_name_of(app_path@))
            && a.exe_path@ == app_path@ && a.icon_path == icon_path),
{
    if !has_info_plist {
        return None;
    }
    Some(AppInfo { name: bundle_name(app_path), exe_path: app_path.to_owned(), icon_path })
}

/// The icon file names tried in a bundle's `Contents/Resources`, in order.
pub open spec fn icon_patterns_spec(app_name: Seq<char>) -> Seq<Seq<char>> {
    seq![
        app_name + ".icns"@,
        lower_of(app_name) + ".icns"@,
        upper_of(app_name) + ".icns"@,
        "AppIcon.icns"@,
        "appicon.icns"@,
        "app.icns"@,
        "icon.icns"@,
    ]
}

/// The icon file names tried in a bundle's `Contents/Resources`, in order: the
/// app's name as it is, in lower and in upper case, then the usual names.
pub fn find_icon_by_patterns(app_name: &str) -> (r: Vec<String>)
    ensures
        r@.len() == 7,
        forall|i: int| 0 <= i < 7 ==> (#[trigger] r@[i])@ == icon_patterns_spec(app_name@)[i],
{
    let mut out: Vec<String> = Vec::new();
    out.push(String::from_str(app_name).concat(".icns"));
    out.push(to_lower(app_name).concat(".icns"));
    out.push(to_upper(app_name).concat(".icns"));
    out.push(String::from_str("AppIcon.icns"));
    out.push(String::from_str("appicon.icns"));
    out.push(String::from_str("app.icns"));
    out.push(String::from_str("icon.icns"));
    out
}

/// The icon file that a bundle's `CFBundleIconName` or `CFBundleIconFile`
/// names: the name itself when it ends with `.icns`, else with that added.
pub open spec fn icon_file_spec(icon_name: Seq<char>) -> Seq<char> {
    if icon_name.len() >= 5 && icon_name.subrange(icon_name.len() - 5, icon_name.len() as int)
        == ".icns"@ {
        icon_name
    } else {
        icon_name + ".icns"@
    }
}

pub fn icon_file_name(icon_name: &str) -> (r: String)
    ensures
        r@ == icon_file_spec(icon_name@),
{
    proof {
        reveal_strlit(".icns");
    }
    if ends_with(icon_name, ".icns") {
        icon_name.to_owned()
    } else {
        String::from_str(icon_name).concat(".icns")
    }
}

/// The big-endian 32-bit number at `i` of `b`.
pub open spec fn be32(b: Seq<u8>, i: int) -> int {
    b[i] as int * 0x100_0000 + b[i + 1] as int * 0x1_0000 + b[i + 2] as int * 0x100 + b[i + 3] as int
}

/// From offset `at` until the declared length `end` is reached, the bytes hold
/// whole elements: a 4-byte type, a big-endian length of at least 8 that
/// counts this 8-byte header, and that many bytes in all.
pub open spec fn icns_elements(b: Seq<u8>, at: int, end: int) -> bool
    decreases b.len() - at,
{
    if at >= end {
        true
    } else if at < 0 || at + 8 > b.len() {
        false
    } else {
        let len = be32(b, at + 4);
        len >= 8 && at + len <= b.len() && icns_elements(b, at + len, end)
    }
}

/// The bytes parse as an Apple icon container: the magic `icns`, a big-endian
/// file length, then elements up to that length.
pub open spec fn icns_parses(b: Seq<u8>) -> bool {
    b.len() >= 8 && b[0] == 0x69 && b[1] == 0x63 && b[2] == 0x6e && b[3] == 0x73
        && icns_elements(b, 8, be32(b, 4))
}

/// Relies on `icns::IconFamily::read`, which reads the magic and the file
/// length, then elements while its position is below that length, each a type,
/// a length of at least 8 and that many bytes. It sums element lengths in a
/// `u32`, so the input stays under 4 GiB.
#[verifier::external_body]
fn read_icns(b: &[u8]) -> (r: bool)
    requires
        b@.len() < 0xffff_0000,
    ensures
        r == icns_parses(b@),
{
    icns::IconFamily::read(std::io::Cursor::new(b)).is_ok()
}

/// Accepts an icon file's contents only when they are not empty (nor 4 GiB or
/// more) and parse as an icon container.
pub fn validate_icns(contents: &[u8]) -> (r: bool)
    ensures
        r == (0 < contents@.len() < 0xffff_0000 && icns_parses(contents@)),
{
    let n = contents.len();
    if n == 0 || n >= 0xffff_0000 {
        return false;
    }
    read_icns(contents)
}

/// The string value of `key` in the top-level dictionary of the property list
/// held by `b`, when it parses and has one.
pub uninterp spec fn plist_string_of(b: Seq<u8>, key: Seq<char>) -> Option<Seq<char>>;

/// Relies on `plist::Value::from_reader`, `Value::as_dictionary`,
/// `Dictionary::get` and `Value::as_string`: the string stored under `key` in
/// the top-level dictionary, which depends on the bytes and the key alone.
#[verifier::external_body]
fn plist_string(b: &[u8], key: &str) -> (r: Option<String>)
    ensures
        match r {
            Some(v) => plist_string_of(b@, key@) == Some(v@),
            None => plist_string_of(b@, key@) is None,
        },
{
    let value = plist::Value::from_reader(std::io::Cursor::new(b)).ok()?;
    value.as_dictionary()?.get(key)?.as_string().map(|v| v.to_string())
}

/// The icon files named by a bundle's `Info.plist` (its bytes), in order:
/// `CFBundleIconName`, then `CFBundleIconFile`, each as `icon_file_name` makes it.
pub fn get_icon_from_plist(plist: &[u8]) -> (r: Vec<String>)
    ensures
        ({
            let named = plist_string_of(plist@, "CFBundleIconName"@);
            let file = plist_string_of(plist@, "CFBundleIconFile"@);
            let first = match named {
                Some(v) => seq![icon_file_spec(v)],
                None => Seq::empty(),
            };
            let second = match file {
                Some(v) => seq![icon_file_spec(v)],
                None => Seq::empty(),
            };
            r@.map_values(|s: String| s@) == first + second
        }),
{
    let mut out: Vec<String> = Vec::new();
    if let Some(v) = plist_string(plist, "CFBundleIconName") {
        out.push(icon_file_name(v.as_str()));
    }
    let ghost mid = out@;
    if let Some(v) = plist_string(plist, "CFBundleIconFile") {
        out.push(icon_file_name(v.as_str()));
    }
    proof {
        let named = plist_string_of(plist@, "CFBundleIconName"@);
        let file = plist_string_of(plist@, "CFBundleIconFile"@);
        let first = match named {
            Some(v) => seq![icon_file_spec(v)],
            None => Seq::empty(),
        };
        let second = match file {
            Some(v) => seq![icon_file_spec(v)],
            None => Seq::empty(),
        };
        assert(mid.map_values(|s: String| s@) =~= first);
        assert(out@.map_values(|s: String| s@) =~= first + second);
    }
    out
}

/// The folders searched for bundles, in order; the last one in the user's
/// home folder, when `home` is known.
pub fn app_directories(home: Option<&str>) -> (r: Vec<String>)
    ensures
        r@.len() == if home is Some {
            5int
        } else {
            4int
        },
        r@[0]@ == "/Applications"@,
        r@[1]@ == "/Applications/Utilities"@,
        r@[2]@ == "/System/Applications"@,
        r@[3]@ == "/System/Applications/Utilities"@,
        home matches Some(h) ==> r@[4]@ == h@ + "/Applications"@,
{
    let mut out: Vec<String> = Vec::new();
    out.push(String::from_str("/Applications"));
    out.push(String::from_str("/Applications/Utilities"));
    out.push(String::from_str("/System/Applications"));
    out.push(String::from_str("/System/Applications/Utilities"));
    if let Some(h) = home {
        out.push(String::from_str(h).concat("/Applications"));
    }
    out
}

/// The standard icon of a bundle, `Contents/Resources/AppIcon.icns`, for a
/// path with the `app` extension; the caller checks that the file exists.
pub fn get_macos_app_icon(app_path: &str) -> (r: Option<String>)
    ensures
        extension_of(app_path@) == Some("app"@) ==> (r matches Some(p) && p@ == joined(
            app_path@,
            "Contents/Resources/AppIcon.icns"@,
        )),
        extension_of(app_path@) != Some("app"@) ==> r is None,
{
    if crate::apps::has_extension(app_path, "app") {
        Some(join_path(app_path, "Contents/Resources/AppIcon.icns"))
    } else {
        None
    }
}

} // verus!
