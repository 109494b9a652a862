//! Discovery on Linux: desktop entries and the session's system actions.
use vstd::prelude::*;
use vstd::string::*;

use crate::apps::{infos_sorted, sort_infos_by_name, str_eq, AppInfo};
use crate::macos::ends_with;
use crate::model::find_from;
use crate::numeral::chars_of;
use crate::numeral::{first_word, first_word_exec, strip_char, strip_char_exec};

verus! {

/// Whether some target of `apps` has executable `exe`.
pub open spec fn has_exe(apps: Seq<AppInfo>, exe: Seq<char>) -> bool {
    exists|i: int| 0 <= i < apps.len() && (#[trigger] apps[i]).exe_path@ == exe
}

/// The targets of `found` that have a name, keeping the first one of each
/// executable.
pub open spec fn first_per_exe(found: Seq<AppInfo>) -> Seq<AppInfo>
    decreases found.len(),
{
    if found.len() == 0 {
        Seq::empty()
    } else {
        let prev = first_per_exe(found.drop_last());
        if found.last().name@.len() == 0 || has_exe(prev, found.last().exe_path@) {
            prev
        } else {
            prev.push(found.last())
        }
    }
}

/// The launch targets that have a name, from the desktop entries, then the
/// system actions, keeping the first target of each executable (an
/// application listed in several data directories appears once, from the
/// directory searched first), sorted by name.
pub fn discover_applications(entries: Vec<AppInfo>, actions: Vec<AppInfo>) -> (r: Vec<AppInfo>)
    ensures
        infos_sorted(r@),
        r@.to_multiset() == first_per_exe(entries@ + actions@).to_multiset(),
{
    sort_infos_by_name(first_per_executable(entries, actions))
}

/// The targets that have a name, from `entries` then `actions`, keeping the
/// first one of each executable.
fn first_per_executable(entries: Vec<AppInfo>, actions: Vec<AppInfo>) -> (r: Vec<AppInfo>)
    ensures
        r@ == first_per_exe(entries@ + actions@),
{
    let ghost all = entries@ + actions@;
    let mut entries = entries;
    let mut actions = actions;
    entries.append(&mut actions);
    let total = entries.len();
    let mut out: Vec<AppInfo> = Vec::new();
    let mut i: usize = 0;
    assert(entries@ == all);
    while entries.len() > 0
        invariant
            total == all.len(),
            i + entries@.len() == all.len(),
            entries@ == all.subrange(i as int, all.len() as int),
            out@ == first_per_exe(all.subrange(0, i as int)),
        decreases entries@.len(),
    {
        let a = entries.remove(0);
        assert(all.subrange(0, i + 1 as int).drop_last() =~= all.subrange(0, i as int));
        let mut seen = false;
        let mut j: usize = 0;
        while j < out.len()
            invariant
                j <= out@.len(),
                seen == exists|k: int| 0 <= k < j && (#[trigger] out@[k]).exe_path@ == a.exe_path@,
            decreases out@.len() - j,
        {
            if str_eq(out[j].exe_path.as_str(), a.exe_path.as_str()) {
                seen = true;
            }
            j = j + 1;
        }
        if !seen && a.name.as_str().unicode_len() > 0 {
            out.push(a);
        }
        i = i + 1;
        assert(entries@ =~= all.subrange(i as int, all.len() as int));
    }
    assert(all.subrange(0, i as int) =~= all);
    out
}

/// The scan keeps one target per executable, each with a name and taken from
/// `found`; for each executable, the first target of `found` that has a name
/// and runs it is the one kept (desktop entries come before system actions).
pub proof fn lemma_first_per_exe(found: Seq<AppInfo>)
    ensures
        forall|i: int, j: int|
            0 <= i < j < first_per_exe(found).len() ==> (#[trigger] first_per_exe(found)[i]).exe_path@
                != (#[trigger] first_per_exe(found)[j]).exe_path@,
        forall|i: int|
            0 <= i < first_per_exe(found).len() ==> exists|j: int|
                0 <= j < found.len() && found[j] == #[trigger] first_per_exe(found)[i]
                    && found[j].name@.len() > 0,
        forall|k: int|
            0 <= k < found.len() && (#[trigger] found[k]).name@.len() > 0 && (forall|j: int|
                0 <= j < k ==> found[j].name@.len() == 0 || found[j].exe_path@
                    != found[k].exe_path@) ==> first_per_exe(found).contains(found[k]),
    decreases found.len(),
{
    if found.len() > 0 {
        let d = found.drop_last();
        let a = found.last();
        let prev = first_per_exe(d);
        lemma_first_per_exe(d);
        let r = first_per_exe(found);
        assert forall|i: int| 0 <= i < r.len() implies exists|j: int|
            0 <= j < found.len() && found[j] == #[trigger] r[i] && found[j].name@.len() > 0 by {
            if i < prev.len() {
                assert(r[i] == prev[i]);
                let j = choose|j: int| 0 <= j < d.len() && d[j] == prev[i] && d[j].name@.len() > 0;
                assert(found[j] == d[j]);
            } else {
                assert(r[i] == a);
                assert(found[found.len() - 1] == a);
            }
        }
        assert forall|k: int|
            0 <= k < found.len() && (#[trigger] found[k]).name@.len() > 0 && (forall|j: int|
                0 <= j < k ==> found[j].name@.len() == 0 || found[j].exe_path@
                    != found[k].exe_path@) implies r.contains(found[k]) by {
            if k < d.len() {
                assert(d[k] == found[k]);
                assert forall|j: int| 0 <= j < k implies d[j].name@.len() == 0 || d[j].exe_path@
                    != d[k].exe_path@ by {
                    assert(d[j] == found[j]);
                }
                assert(prev.contains(d[k]));
                let i = choose|i: int| 0 <= i < prev.len() && prev[i] == d[k];
                assert(r[i] == prev[i]);
            } else {
                assert(found[k] == a);
                if has_exe(prev, a.exe_path@) {
                    let i = choose|i: int| 0 <= i < prev.len() && (#[trigger] prev[i]).exe_path@ == a.exe_path@;
                    let j = choose|j: int| 0 <= j < d.len() && d[j] == prev[i] && d[j].name@.len() > 0;
                    assert(found[j] == d[j]);
                    assert(false);
                }
                assert(r[prev.len() as int] == a);
            }
        }
    }
}

/// The command that runs a target: the first word of its `Exec` line (the
/// whole line when it has none), without surrounding quotes.
pub open spec fn command_of(exec: Seq<char>) -> Seq<char> {
    match first_word(exec) {
        Some(w) => strip_char(w, '"'),
        None => strip_char(exec, '"'),
    }
}

/// The command that runs a target, from its `Exec` line. A command that does
/// not start with `/` is a bare name, for the caller to look up on the search path.
pub fn executable_command(exec: &str) -> (r: &str)
    ensures
        r@ == command_of(exec@),
{
    match first_word_exec(exec) {
        Some(w) => strip_char_exec(w, '"'),
        None => strip_char_exec(exec, '"'),
    }
}

fn action(name: &str, command: String, icon: &Option<String>) -> (r: AppInfo)
    ensures
        r.name@ == name@,
        r.exe_path@ == command@,
        match (r.icon_path, *icon) {
            (Some(a), Some(b)) => a@ == b@,
            (None, None) => true,
            _ => false,
        },
{
    AppInfo {
        name: name.to_owned(),
        exe_path: command,
        icon_path: match icon {
            Some(p) => Some(p.clone()),
            None => None,
        },
    }
}

/// The system actions of a session: shutdown, restart and lock, and logout
/// when the user's name is known; all with the same icon.
pub fn special_commands(icon_path: Option<String>, username: Option<String>) -> (r: Vec<AppInfo>)
    ensures
        r@.len() == if username is Some {
            4int
        } else {
            3int
        },
        r@[0].name@ == "Shutdown"@ && r@[0].exe_path@ == "systemctl poweroff"@,
        r@[1].name@ == "Restart"@ && r@[1].exe_path@ == "systemctl reboot"@,
        r@[2].name@ == "Lock Screen"@ && r@[2].exe_path@ == "loginctl lock-session"@,
        username matches Some(u) ==> r@[3].name@ == "Logout"@ && r@[3].exe_path@
            == "loginctl terminate-user "@ + u@,
        forall|i: int|
            0 <= i < r@.len() ==> match ((#[trigger] r@[i]).icon_path, icon_path) {
                (Some(a), Some(b)) => a@ == b@,
                (None, None) => true,
                _ => false,
            },
{
    let mut out: Vec<AppInfo> = Vec::new();
    out.push(action("Shutdown", String::from_str("systemctl poweroff"), &icon_path));
    out.push(action("Restart", String::from_str("systemctl reboot"), &icon_path));
    out.push(action("Lock Screen", String::from_str("loginctl lock-session"), &icon_path));
    if let Some(user) = &username {
        out.push(
            action(
                "Logout",
                String::from_str("loginctl terminate-user ").concat(user.as_str()),
                &icon_path,
            ),
        );
    }
    out
}

/// Icon themes searched, in order.
pub open spec fn theme_of(i: int) -> Seq<char> {
    if i == 0 {
        "hicolor"@
    } else if i == 1 {
        "Adwaita"@
    } else if i == 2 {
        "breeze"@
    } else if i == 3 {
        "breeze-dark"@
    } else if i == 4 {
        "Yaru"@
    } else if i == 5 {
        "Papirus"@
    } else if i == 6 {
        "Pop"@
    } else if i == 7 {
        "Mint-Y"@
    } else {
        "elementary-xfce"@
    }
}

/// Icon sizes searched, in order: scalable first.
pub open spec fn size_of(i: int) -> Seq<char> {
    if i == 0 {
        "scalable"@
    } else if i == 1 {
        "48x48"@
    } else if i == 2 {
        "64x64"@
    } else if i == 3 {
        "32x32"@
    } else if i == 4 {
        "24x24"@
    } else {
        "16x16"@
    }
}

/// Icon categories searched, in order.
pub open spec fn category_of(i: int) -> Seq<char> {
    if i == 0 {
        "apps"@
    } else if i == 1 {
        "places"@
    } else if i == 2 {
        "actions"@
    } else {
        "categories"@
    }
}

/// Icon file extensions tried, in order.
pub open spec fn ext_of(i: int) -> Seq<char> {
    if i == 0 {
        "svg"@
    } else if i == 1 {
        "png"@
    } else {
        "xpm"@
    }
}

fn theme_str(i: usize) -> (r: &'static str)
    ensures
        r@ == theme_of(i as int),
{
    if i == 0 {
        "hicolor"
    } else if i == 1 {
        "Adwaita"
    } else if i == 2 {
        "breeze"
    } else if i == 3 {
        "breeze-dark"
    } else if i == 4 {
        "Yaru"
    } else if i == 5 {
        "Papirus"
    } else if i == 6 {
        "Pop"
    } else if i == 7 {
        "Mint-Y"
    } else {
        "elementary-xfce"
    }
}

fn size_str(i: usize) -> (r: &'static str)
    ensures
        r@ == size_of(i as int),
{
    if i == 0 {
        "scalable"
    } else if i == 1 {
        "48x48"
    } else if i == 2 {
        "64x64"
    } else if i == 3 {
        "32x32"
    } else if i == 4 {
        "24x24"
    } else {
        "16x16"
    }
}

fn category_str(i: usize) -> (r: &'static str)
    ensures
        r@ == category_of(i as int),
{
    if i == 0 {
        "apps"
    } else if i == 1 {
        "places"
    } else if i == 2 {
        "actions"
    } else {
        "categories"
    }
}

fn ext_str(i: usize) -> (r: &'static str)
    ensures
        r@ == ext_of(i as int),
{
    if i == 0 {
        "svg"
    } else if i == 1 {
        "png"
    } else {
        "xpm"
    }
}

/// Number of themed candidates under one base directory: themes, sizes,
/// categories and extensions.
pub const THEMED_PER_BASE: usize = 648;

/// The `i`-th themed candidate under `base`: `base/theme/size/category/name.ext`,
/// extensions varying fastest, then categories, sizes and themes.
pub open spec fn themed_path(base: Seq<char>, name: Seq<char>, i: int) -> Seq<char> {
    base + "/"@ + theme_of(i / 72) + "/"@ + size_of((i / 12) % 6) + "/"@ + category_of((i / 3) % 4)
        + "/"@ + name + "."@ + ext_of(i % 3)
}

pub open spec fn is_pixmaps(base: Seq<char>) -> bool {
    base.len() >= 7 && base.subrange(base.len() - 7, base.len() as int) == "pixmaps"@
}

/// Themed candidates of all base directories but the pixmap ones, in order.
pub open spec fn themed_all(bases: Seq<Seq<char>>, name: Seq<char>) -> Seq<Seq<char>>
    decreases bases.len(),
{
    if bases.len() == 0 {
        Seq::empty()
    } else {
        themed_all(bases.drop_last(), name) + if is_pixmaps(bases.last()) {
            Seq::empty()
        } else {
            Seq::new(THEMED_PER_BASE as nat, |i: int| themed_path(bases.last(), name, i))
        }
    }
}

/// Candidates directly in the pixmap directories: `base/name.ext`.
pub open spec fn pixmaps_all(bases: Seq<Seq<char>>, name: Seq<char>) -> Seq<Seq<char>>
    decreases bases.len(),
{
    if bases.len() == 0 {
        Seq::empty()
    } else {
        pixmaps_all(bases.drop_last(), name) + if is_pixmaps(bases.last()) {
            Seq::new(3, |e: int| bases.last() + "/"@ + name + "."@ + ext_of(e))
        } else {
            Seq::empty()
        }
    }
}

pub open spec fn views(v: Seq<String>) -> Seq<Seq<char>> {
    v.map_values(|s: String| s@)
}

/// The files tried, in order, for the icon `icon_name` of a desktop entry. An
/// absolute name is tried as it is. Otherwise: in each base directory that is
/// not a pixmap directory, every theme, size, category and extension; then in
/// each pixmap directory, the name with each extension. `base_dirs` are the
/// existing icon base directories, in order of preference.
pub fn resolve_icon_path(base_dirs: &Vec<String>, icon_name: &str) -> (r: Vec<String>)
    ensures
        icon_name@.len() > 0 && icon_name@[0] == '/' ==> views(r@) == seq![icon_name@],
        !(icon_name@.len() > 0 && icon_name@[0] == '/') ==> views(r@) == themed_all(
            views(base_dirs@),
            icon_name@,
        ) + pixmaps_all(views(base_dirs@), icon_name@),
{
    let mut out: Vec<String> = Vec::new();
    if icon_name.unicode_len() > 0 && icon_name.get_char(0) == '/' {
        out.push(icon_name.to_owned());
        assert(views(out@) =~= seq![icon_name@]);
        return out;
    }
    let ghost bases = views(base_dirs@);
    let ghost name = icon_name@;
    let mut b: usize = 0;
    while b < base_dirs.len()
        invariant
            bases == views(base_dirs@),
            name == icon_name@,
            b <= base_dirs@.len(),
            views(out@) == themed_all(bases.subrange(0, b as int), name),
        decreases base_dirs@.len() - b,
    {
        let base = base_dirs[b].as_str();
        let ghost prefix = views(out@);
        assert(bases.subrange(0, b + 1 as int).drop_last() =~= bases.subrange(0, b as int));
        proof {
            reveal_strlit("pixmaps");
        }
        if !ends_with(base, "pixmaps") {
            let mut i: usize = 0;
            while i < THEMED_PER_BASE
                invariant
                    i <= THEMED_PER_BASE,
                    base@ == bases[b as int],
                    name == icon_name@,
                    views(out@) == prefix + Seq::new(i as nat, |k: int| themed_path(base@, name, k)),
                decreases THEMED_PER_BASE - i,
            {
                let path = String::from_str(base).concat("/").concat(theme_str(i / 72)).concat(
                    "/",
                ).concat(size_str((i / 12) % 6)).concat("/").concat(category_str((i / 3) % 4)).concat(
                    "/",
                ).concat(icon_name).concat(".").concat(ext_str(i % 3));
                assert(path@ == themed_path(base@, name, i as int));
                let ghost before = out@;
                out.push(path);
                assert(views(out@) =~= views(before).push(path@));
                i = i + 1;
                assert(views(out@) =~= prefix + Seq::new(i as nat, |k: int| themed_path(base@, name, k)));
            }
        } else {
            assert(views(out@) =~= prefix + Seq::<Seq<char>>::empty());
        }
        b = b + 1;
    }
    assert(bases.subrange(0, b as int) =~= bases);
    let ghost themed = views(out@);
    let mut b: usize = 0;
    while b < base_dirs.len()
        invariant
            bases == views(base_dirs@),
            name == icon_name@,
            b <= base_dirs@.len(),
            views(out@) == themed + pixmaps_all(bases.subrange(0, b as int), name),
        decreases base_dirs@.len() - b,
    {
        let base = base_dirs[b].as_str();
        let ghost prefix = views(out@);
        assert(bases.subrange(0, b + 1 as int).drop_last() =~= bases.subrange(0, b as int));
        proof {
            reveal_strlit("pixmaps");
        }
        if ends_with(base, "pixmaps") {
            let mut e: usize = 0;
            while e < 3
                invariant
                    e <= 3,
                    base@ == bases[b as int],
                    name == icon_name@,
                    views(out@) == prefix + Seq::new(e as nat, |k: int| base@ + "/"@ + name + "."@ + ext_of(k)),
                decreases 3 - e,
            {
                let path = String::from_str(base).concat("/").concat(icon_name).concat(".").concat(ext_str(e));
                assert(path@ == base@ + "/"@ + name + "."@ + ext_of(e as int));
                let ghost before = out@;
                out.push(path);
                assert(views(out@) =~= views(before).push(path@));
                e = e + 1;
                assert(views(out@) =~= prefix + Seq::new(e as nat, |k: int| base@ + "/"@ + name + "."@ + ext_of(k)));
            }
            assert(themed + pixmaps_all(bases.subrange(0, b + 1 as int), name) =~= prefix + Seq::new(3, |k: int| base@ + "/"@ + name + "."@ + ext_of(k)));
        } else {
            assert(themed + pixmaps_all(bases.subrange(0, b + 1 as int), name) =~= prefix);
        }
        b = b + 1;
    }
    assert(bases.subrange(0, b as int) =~= bases);
    out
}

/// The parts of a search path, split at each `:` as `str::split` splits.
pub open spec fn split_colons(s: Seq<char>) -> Seq<Seq<char>>
    decreases s.len(),
{
    let i = find_from(s, ':', 0);
    if 0 <= i < s.len() {
        seq![s.subrange(0, i)] + split_colons(s.subrange(i + 1, s.len() as int))
    } else {
        seq![s]
    }
}

/// `dir` joined with a relative `name`, as `PathBuf::join` joins them.
pub open spec fn joined(dir: Seq<char>, name: Seq<char>) -> Seq<char> {
    if dir.len() == 0 {
        name
    } else if dir.last() == '/' {
        dir + name
    } else {
        dir + "/"@ + name
    }
}

pub fn join_path(dir: &str, name: &str) -> (r: String)
    ensures
        r@ == joined(dir@, name@),
{
    let n = dir.unicode_len();
    if n == 0 {
        name.to_owned()
    } else if dir.get_char(n - 1) == '/' {
        String::from_str(dir).concat(name)
    } else {
        String::from_str(dir).concat("/").concat(name)
    }
}

/// The parts of `s` between its `:`s.
pub fn split_colon_parts(s: &str) -> (r: Vec<String>)
    ensures
        views(r@) == split_colons(s@),
{
    let cs = chars_of(s);
    let n = cs.len();
    let ghost parts = split_colons(s@);
    let mut out: Vec<String> = Vec::new();
    let mut start: usize = 0;
    assert(cs@.subrange(0, n as int) =~= cs@);
    assert(views(out@) =~= Seq::<Seq<char>>::empty());
    loop
        invariant
            cs@ == s@,
            n == cs@.len(),
            start <= n,
            parts == split_colons(s@),
            parts == views(out@) + split_colons(cs@.subrange(start as int, n as int)),
        decreases n - start,
    {
        let ghost rest = cs@.subrange(start as int, n as int);
        let mut e: usize = start;
        while e < n && cs[e] != ':'
            invariant
                n == cs@.len(),
                start <= e <= n,
                rest == cs@.subrange(start as int, n as int),
                find_from(rest, ':', 0) == find_from(rest, ':', e - start),
            decreases n - e,
        {
            e = e + 1;
        }
        let part = s.substring_char(start, e).to_owned();
        let ghost before = out@;
        assert(part@ =~= rest.subrange(0, e - start));
        out.push(part);
        assert(views(out@) =~= views(before).push(part@));
        if e == n {
            assert(find_from(rest, ':', 0) == -1);
            assert(split_colons(rest) == seq![rest]);
            assert(parts =~= views(out@));
            return out;
        }
        assert(find_from(rest, ':', 0) == e - start);
        assert(rest.subrange(e - start + 1, rest.len() as int) =~= cs@.subrange(e + 1, n as int));
        assert(parts =~= views(out@) + split_colons(cs@.subrange(e + 1, n as int)));
        start = e + 1;
    }
}

/// The files tried, in order, for a bare command name: the name in each
/// directory of the search path `path_var`.
pub fn find_in_path(path_var: &str, command: &str) -> (r: Vec<String>)
    ensures
        views(r@) == split_colons(path_var@).map_values(|d: Seq<char>| joined(d, command@)),
{
    let dirs = split_colon_parts(path_var);
    let mut out: Vec<String> = Vec::new();
    let mut i: usize = 0;
    while i < dirs.len()
        invariant
            i <= dirs@.len(),
            views(dirs@) == split_colons(path_var@),
            out@.len() == i,
            forall|k: int| 0 <= k < i ==> (#[trigger] out@[k])@ == joined(dirs@[k]@, command@),
        decreases dirs@.len() - i,
    {
        out.push(join_path(dirs[i].as_str(), command));
        i = i + 1;
    }
    assert(views(out@) =~= split_colons(path_var@).map_values(|d: Seq<char>| joined(d, command@)));
    out
}

/// `icons` under each non-empty directory of `dirs`, in order.
pub open spec fn icon_dirs_of(dirs: Seq<Seq<char>>) -> Seq<Seq<char>>
    decreases dirs.len(),
{
    if dirs.len() == 0 {
        Seq::empty()
    } else {
        icon_dirs_of(dirs.drop_last()) + if dirs.last().len() > 0 {
            seq![dirs.last() + "/icons"@]
        } else {
            Seq::empty()
        }
    }
}

pub open spec fn opt_seq(o: Option<&str>) -> Option<Seq<char>> {
    match o {
        Some(s) => Some(s@),
        None => None,
    }
}

/// The icon base directories, in order: `icons` under each entry of the data
/// directories (`/usr/local/share:/usr/share` when unset; empty entries
/// skipped), the pixmap directory, then, when the home directory is known,
/// `icons` under the user's data directory (`~/.local/share` when unset) and
/// `~/.icons`.
pub open spec fn icon_bases(
    data_dirs: Option<Seq<char>>,
    home: Option<Seq<char>>,
    data_home: Option<Seq<char>>,
) -> Seq<Seq<char>> {
    let dirs = match data_dirs {
        Some(d) => d,
        None => "/usr/local/share:/usr/share"@,
    };
    let user = match home {
        Some(h) => {
            let dh = match data_home {
                Some(x) => x,
                None => h + "/.local/share"@,
            };
            seq![dh + "/icons"@, h + "/.icons"@]
        },
        None => Seq::empty(),
    };
    icon_dirs_of(split_colons(dirs)) + seq!["/usr/share/pixmaps"@] + user
}

/// The icon base directories from the values of `XDG_DATA_DIRS`, `HOME` and
/// `XDG_DATA_HOME` (`None` when unset).
pub fn get_icon_base_directories(
    data_dirs: Option<&str>,
    home: Option<&str>,
    data_home: Option<&str>,
) -> (r: Vec<String>)
    ensures
        views(r@) == icon_bases(opt_seq(data_dirs), opt_seq(home), opt_seq(data_home)),
{
    let dirs = match data_dirs {
        Some(d) => d,
        None => "/usr/local/share:/usr/share",
    };
    let parts = split_colon_parts(dirs);
    let mut out: Vec<String> = Vec::new();
    let mut i: usize = 0;
    while i < parts.len()
        invariant
            i <= parts@.len(),
            views(out@) == icon_dirs_of(views(parts@).subrange(0, i as int)),
        decreases parts@.len() - i,
    {
        let ghost before = out@;
        let part = parts[i].as_str();
        assert(views(parts@).subrange(0, i + 1 as int).drop_last() =~= views(parts@).subrange(0, i as int));
        if part.unicode_len() > 0 {
            out.push(String::from_str(part).concat("/icons"));
            assert(views(out@) =~= views(before).push(part@ + "/icons"@));
        } else {
            assert(views(out@) =~= views(before) + Seq::<Seq<char>>::empty());
        }
        i = i + 1;
    }
    assert(views(parts@).subrange(0, i as int) =~= views(parts@));
    let ghost system = views(out@);
    out.push(String::from_str("/usr/share/pixmaps"));
    if let Some(h) = home {
        let dh = match data_home {
            Some(x) => String::from_str(x),
            None => String::from_str(h).concat("/.local/share"),
        };
        out.push(dh.concat("/icons"));
        out.push(String::from_str(h).concat("/.icons"));
    }
    assert(views(out@) =~= icon_bases(opt_seq(data_dirs), opt_seq(home), opt_seq(data_home)));
    out
}

/// A desktop entry is listed when it has a name and a command and is marked
/// neither as hidden from menus nor as deleted.
pub fn is_application_entry(has_name: bool, has_exec: bool, no_display: bool, hidden: bool) -> (r:
    bool)
    ensures
        r == (has_name && has_exec && !no_display && !hidden),
{
    has_name && has_exec && !no_display && !hidden
}

} // verus!
