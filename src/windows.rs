//! Discovery on Windows: the uninstall registry, program folders and the
//! session's system actions.
use vstd::prelude::*;
use vstd::string::*;

use crate::apps::{infos_sorted, keep_named, named, sort_infos_by_name, AppInfo};

verus! {

/// Icon shared by the system actions.
pub const SYSTEM_ICON: &'static str = "C:\\Windows\\System32\\shell32.dll";

/// The targets that have a name, from registry entries, program folders and
/// system actions, sorted by name.
pub fn discover_applications(
    registry: Vec<AppInfo>,
    program_files: Vec<AppInfo>,
    actions: Vec<AppInfo>,
) -> (r: Vec<AppInfo>)
    ensures
        infos_sorted(r@),
        r@.to_multiset() == named(registry@ + program_files@ + actions@).to_multiset(),
{
    let mut registry = registry;
    let mut program_files = program_files;
    let mut actions = actions;
    registry.append(&mut program_files);
    registry.append(&mut actions);
    sort_infos_by_name(keep_named(registry))
}

fn action(name: &str, command: &str) -> (r: AppInfo)
    ensures
        r.name@ == name@,
        r.exe_path@ == command@,
        r.icon_path matches Some(p) && p@ == SYSTEM_ICON@,
{
    AppInfo {
        name: name.to_owned(),
        exe_path: command.to_owned(),
        icon_path: Some(SYSTEM_ICON.to_owned()),
    }
}

/// The system actions: shutdown, logout, restart, sleep and lock.
pub fn special_commands() -> (r: Vec<AppInfo>)
    ensures
        r@.len() == 5,
        r@[0].name@ == "Shutdown"@ && r@[0].exe_path@ == "shutdown /s /t 0"@,
        r@[1].name@ == "Logout"@ && r@[1].exe_path@ == "shutdown /l"@,
        r@[2].name@ == "Restart"@ && r@[2].exe_path@ == "shutdown /r /t 0"@,
        r@[3].name@ == "Sleep"@ && r@[3].exe_path@
            == "rundll32.exe powrprof.dll,SetSuspendState 0,1,0"@,
        r@[4].name@ == "Lock Screen"@ && r@[4].exe_path@
            == "rundll32.exe user32.dll,LockWorkStation"@,
        forall|i: int| 0 <= i < 5 ==> ((#[trigger] r@[i]).icon_path matches Some(p) && p@ == SYSTEM_ICON@),
{
    let mut out: Vec<AppInfo> = Vec::new();
    out.push(action("Shutdown", "shutdown /s /t 0"));
    out.push(action("Logout", "shutdown /l"));
    out.push(action("Restart", "shutdown /r /t 0"));
    out.push(action("Sleep", "rundll32.exe powrprof.dll,SetSuspendState 0,1,0"));
    out.push(action("Lock Screen", "rundll32.exe user32.dll,LockWorkStation"));
    out
}

/// Reads an uninstall registry key from its values (`None` where a value
/// could not be read): a target when it has a display name and a non-empty
/// location, the install location or, when that value is absent, the uninstall
/// command. Its icon is the `DisplayIcon` value.
pub fn parse_registry_entry(
    display_name: Option<String>,
    install_location: Option<String>,
    uninstall_string: Option<String>,
    display_icon: Option<String>,
) -> (r: Option<AppInfo>)
    ensures
        ({
            let location = match install_location {
                Some(l) => Some(l),
                None => uninstall_string,
            };
            match (display_name, location) {
                (Some(n), Some(l)) => if l@.len() > 0 {
                    r matches Some(a) && a.name == n && a.exe_path == l && a.icon_path == display_icon
                } else {
                    r is None
                },
                _ => r is None,
            }
        }),
{
    let location = match install_location {
        Some(l) => Some(l),
        None => uninstall_string,
    };
    match (display_name, location) {
        (Some(name), Some(loc)) => {
            if loc.as_str().unicode_len() > 0 {
                Some(AppInfo { name, exe_path: loc, icon_path: display_icon })
            } else {
                None
            }
        },
        _ => None,
    }
}

} // verus!
