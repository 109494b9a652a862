//! Launch targets as the platform scanners report them, and how an icon file
//! is to be turned into image bytes.
use vstd::prelude::*;
use vstd::seq_lib::*;

use crate::model::{lemma_name_le_total, lemma_name_le_trans, name_le, name_le_exec};

verus! {

broadcast use group_to_multiset_ensures;

/// One launch target: an application or a system action.
#[derive(Debug, Clone)]
pub struct AppInfo {
    /// Display name.
    pub name: String,
    /// Absolute path of the executable, or a shell command for a system action.
    pub exe_path: String,
    /// Path of an icon file, when one was found.
    pub icon_path: Option<String>,
}

/// How an icon file becomes image bytes, chosen by its extension.
#[derive(Debug, Clone, Copy, PartialEq, Eq, Structural)]
pub enum IconFormat {
    /// A vector image, rendered to PNG.
    Svg,
    /// A raster image (`png`, `jpg`, `jpeg`, `xpm`), read as it is.
    Raster,
    /// An Apple icon container, from which one bitmap is taken.
    Icns,
    /// No image is drawn from the file: an empty one stands for it.
    Placeholder,
}

/// The platform whose rules choose how icons are read.
#[derive(Debug, Clone, Copy, PartialEq, Eq, Structural)]
pub enum Platform {
    Linux,
    MacOs,
    Windows,
}

/// Position of the last occurrence of `c` in `s`, or -1.
pub open spec fn last_index_of(s: Seq<char>, c: char) -> int
    decreases s.len(),
{
    if s.len() == 0 {
        -1
    } else if s.last() == c {
        s.len() - 1
    } else {
        last_index_of(s.drop_last(), c)
    }
}

/// The last component of a path: what follows its last `/`.
pub open spec fn file_name_of(path: Seq<char>) -> Seq<char> {
    path.subrange(last_index_of(path, '/') + 1, path.len() as int)
}

/// The extension of a path: what follows the last `.` of its file name, when
/// that dot is not the name's first character.
pub open spec fn extension_of(path: Seq<char>) -> Option<Seq<char>> {
    let name = file_name_of(path);
    let dot = last_index_of(name, '.');
    if dot <= 0 {
        None
    } else {
        Some(name.subrange(dot + 1, name.len() as int))
    }
}

/// How `platform` reads an icon file with extension `ext` (case matters):
/// Linux renders `svg` and reads `png`, `jpg`, `jpeg` and `xpm`; macOS reads
/// `icns`; Windows draws no image from the file.
pub open spec fn format_of_extension(platform: Platform, ext: Option<Seq<char>>) -> Option<IconFormat> {
    match platform {
        Platform::Linux => match ext {
            Some(e) => if e == "svg"@ {
                Some(IconFormat::Svg)
            } else if e == "png"@ || e == "jpg"@ || e == "jpeg"@ || e == "xpm"@ {
                Some(IconFormat::Raster)
            } else {
                None
            },
            None => None,
        },
        Platform::MacOs => if ext == Some("icns"@) {
            Some(IconFormat::Icns)
        } else {
            None
        },
        Platform::Windows => Some(IconFormat::Placeholder),
    }
}

pub open spec fn icon_format_spec(platform: Platform, path: Seq<char>) -> Option<IconFormat> {
    format_of_extension(platform, extension_of(path))
}

proof fn lemma_last_index_bounds(s: Seq<char>, c: char)
    ensures
        -1 <= last_index_of(s, c) < s.len(),
        last_index_of(s, c) >= 0 ==> s[last_index_of(s, c)] == c,
        forall|j: int| last_index_of(s, c) < j < s.len() ==> s[j] != c,
    decreases s.len(),
{
    if s.len() > 0 && s.last() != c {
        lemma_last_index_bounds(s.drop_last(), c);
        assert forall|j: int| last_index_of(s, c) < j < s.len() implies s[j] != c by {
            if j < s.len() - 1 {
                assert(s.drop_last()[j] == s[j]);
            }
        }
    }
}

/// Position of the last `c` in `s`.
fn find_last(s: &str, c: char) -> (r: Option<usize>)
    ensures
        r matches Some(k) ==> k == last_index_of(s@, c),
        r is None ==> last_index_of(s@, c) == -1,
{
    let n = s.unicode_len();
    let mut i: usize = n;
    proof {
        lemma_last_index_bounds(s@, c);
    }
    while i > 0
        invariant
            n == s@.len(),
            i <= n,
            forall|j: int| i <= j < n ==> s@[j] != c,
        decreases i,
    {
        if s.get_char(i - 1) == c {
            proof {
                lemma_last_index_tail(s@, c, (i - 1) as int);
            }
            return Some(i - 1);
        }
        i = i - 1;
    }
    proof {
        lemma_last_index_tail(s@, c, -1);
    }
    None
}

/// The last occurrence is at `k` when `s[k] == c` (or `k == -1`) and nothing after `k` is `c`.
proof fn lemma_last_index_tail(s: Seq<char>, c: char, k: int)
    requires
        -1 <= k < s.len(),
        k >= 0 ==> s[k] == c,
        forall|j: int| k < j < s.len() ==> s[j] != c,
    ensures
        last_index_of(s, c) == k,
    decreases s.len(),
{
    if s.len() > 0 && s.last() != c {
        assert forall|j: int| k < j < s.len() - 1 implies s.drop_last()[j] != c by {
            assert(s.drop_last()[j] == s[j]);
        }
        lemma_last_index_tail(s.drop_last(), c, k);
    }
}

/// The last component of `path`.
pub fn file_name(path: &str) -> (r: &str)
    ensures
        r@ == file_name_of(path@),
{
    proof {
        lemma_last_index_bounds(path@, '/');
    }
    let n = path.unicode_len();
    let start: usize = match find_last(path, '/') {
        Some(k) => k + 1,
        None => 0,
    };
    path.substring_char(start, n)
}

/// How the icon at `path` is to be read on `platform`, by its extension;
/// `None` for a file that the platform does not read.
pub fn icon_format(platform: Platform, path: &str) -> (r: Option<IconFormat>)
    ensures
        r == icon_format_spec(platform, path@),
{
    match platform {
        Platform::Linux => {
            if has_extension(path, "svg") {
                Some(IconFormat::Svg)
            } else if has_extension(path, "png") || has_extension(path, "jpg") || has_extension(
                path,
                "jpeg",
            ) || has_extension(path, "xpm") {
                Some(IconFormat::Raster)
            } else {
                None
            }
        },
        Platform::MacOs => {
            if has_extension(path, "icns") {
                Some(IconFormat::Icns)
            } else {
                None
            }
        },
        Platform::Windows => Some(IconFormat::Placeholder),
    }
}

/// Whether the extension of `path` is `ext`.
pub fn has_extension(path: &str, ext: &str) -> (r: bool)
    ensures
        r == (extension_of(path@) == Some(ext@)),
{
    proof {
        lemma_last_index_bounds(path@, '/');
    }
    let n = path.unicode_len();
    let start: usize = match find_last(path, '/') {
        Some(k) => k + 1,
        None => 0,
    };
    let name = path.substring_char(start, n);
    assert(name@ == file_name_of(path@));
    proof {
        lemma_last_index_bounds(name@, '.');
    }
    let dot: usize = match find_last(name, '.') {
        Some(k) => k,
        None => 0,
    };
    if dot == 0 {
        return false;
    }
    let found = name.substring_char(dot + 1, name.unicode_len());
    assert(extension_of(path@) == Some(found@));
    str_eq(found, ext)
}

/// Character-wise equality of two strings.
pub fn str_eq(a: &str, b: &str) -> (r: bool)
    ensures
        r == (a@ == b@),
{
    let n = a.unicode_len();
    if n != b.unicode_len() {
        return false;
    }
    let mut i: usize = 0;
    while i < n
        invariant
            n == a@.len(),
            n == b@.len(),
            i <= n,
            forall|j: int| 0 <= j < i ==> a@[j] == b@[j],
        decreases n - i,
    {
        if a.get_char(i) != b.get_char(i) {
            return false;
        }
        i = i + 1;
    }
    assert(a@ =~= b@);
    true
}

/// How to extract the icon of `app` on `platform`: the icon's path and its
/// format, or `None` when the record names no icon or one that the platform
/// does not read. The caller gives no image for a file that does not exist.
pub fn extract_icon(platform: Platform, app: &AppInfo) -> (r: Option<(String, IconFormat)>)
    ensures
        match app.icon_path {
            None => r.is_none(),
            Some(p) => match icon_format_spec(platform, p@) {
                None => r.is_none(),
                Some(f) => r matches Some((q, g)) && q@ == p@ && g == f,
            },
        },
{
    match &app.icon_path {
        None => None,
        Some(p) => match icon_format(platform, p.as_str()) {
            None => None,
            Some(f) => Some((p.clone(), f)),
        },
    }
}

/// The lower-case form of a text, by Unicode's full case mapping.
pub uninterp spec fn lower_of(s: Seq<char>) -> Seq<char>;

/// The upper-case form of a text, by Unicode's full case mapping.
pub uninterp spec fn upper_of(s: Seq<char>) -> Seq<char>;

/// Relies on `str::to_lowercase`, whose result depends on the text alone and
/// is empty for an empty text.
#[verifier::external_body]
pub(crate) fn to_lower(s: &str) -> (r: String)
    ensures
        r@ == lower_of(s@),
        s@.len() == 0 ==> r@.len() == 0,
{
    s.to_lowercase()
}

/// Relies on `str::to_uppercase`, whose result depends on the text alone and
/// is empty for an empty text.
#[verifier::external_body]
pub(crate) fn to_upper(s: &str) -> (r: String)
    ensures
        r@ == upper_of(s@),
        s@.len() == 0 ==> r@.len() == 0,
{
    s.to_uppercase()
}

/// The stem of a path's file name: the name without its extension (see
/// `extension_of`); the whole name when it has none.
pub open spec fn file_stem_of(path: Seq<char>) -> Seq<char> {
    let name = file_name_of(path);
    let dot = last_index_of(name, '.');
    if dot <= 0 {
        name
    } else {
        name.subrange(0, dot)
    }
}

/// The display name of a scanned file: the stem of its file name.
pub fn get_app_name(path: &str) -> (r: String)
    ensures
        r@ == file_stem_of(path@),
{
    let name = file_name(path);
    proof {
        lemma_last_index_bounds(name@, '.');
    }
    match find_last(name, '.') {
        Some(dot) => if dot == 0 {
            name.to_owned()
        } else {
            name.substring_char(0, dot).to_owned()
        },
        None => name.to_owned(),
    }
}

/// The targets are in code-point order of their names (the byte order of
/// their UTF-8 forms).
pub open spec fn infos_sorted(apps: Seq<AppInfo>) -> bool {
    forall|j: int, k: int|
        0 <= j < k < apps.len() ==> name_le(#[trigger] apps[j].name@, #[trigger] apps[k].name@)
}

/// The targets of `s` that have a name, in order.
pub open spec fn named(s: Seq<AppInfo>) -> Seq<AppInfo>
    decreases s.len(),
{
    if s.len() == 0 {
        Seq::empty()
    } else if s.last().name@.len() > 0 {
        named(s.drop_last()).push(s.last())
    } else {
        named(s.drop_last())
    }
}

/// Keeps the targets that have a name, in order.
pub fn keep_named(apps: Vec<AppInfo>) -> (r: Vec<AppInfo>)
    ensures
        r@ == named(apps@),
{
    let ghost a0 = apps@;
    let total = apps.len();
    let mut rest = apps;
    let mut out: Vec<AppInfo> = Vec::new();
    let mut i: usize = 0;
    assert(a0.subrange(0, 0) =~= Seq::<AppInfo>::empty());
    while rest.len() > 0
        invariant
            total == a0.len(),
            i + rest@.len() == a0.len(),
            rest@ == a0.subrange(i as int, a0.len() as int),
            out@ == named(a0.subrange(0, i as int)),
        decreases rest@.len(),
    {
        let a = rest.remove(0);
        assert(a0.subrange(0, i + 1 as int).drop_last() =~= a0.subrange(0, i as int));
        if a.name.as_str().unicode_len() > 0 {
            out.push(a);
        }
        i = i + 1;
        assert(rest@ =~= a0.subrange(i as int, a0.len() as int));
    }
    assert(a0.subrange(0, i as int) =~= a0);
    out
}

/// Sorts targets by name, in code-point order; equal names keep their order.
pub fn sort_infos_by_name(apps: Vec<AppInfo>) -> (r: Vec<AppInfo>)
    ensures
        infos_sorted(r@),
        r@.to_multiset() == apps@.to_multiset(),
{
    let ghost a0 = apps@;
    let total = apps.len();
    let mut rest = apps;
    let mut out: Vec<AppInfo> = Vec::new();
    let mut i: usize = 0;
    assert(a0.subrange(0, 0) =~= Seq::<AppInfo>::empty());
    while rest.len() > 0
        invariant
            total == a0.len(),
            i + rest@.len() == a0.len(),
            rest@ == a0.subrange(i as int, a0.len() as int),
            infos_sorted(out@),
            out@.to_multiset() == a0.subrange(0, i as int).to_multiset(),
        decreases rest@.len(),
    {
        let a = rest.remove(0);
        assert(a0.subrange(0, i + 1 as int) =~= a0.subrange(0, i as int).push(a));
        let mut p = out.len();
        while p > 0 && !name_le_exec(out[p - 1].name.as_str(), a.name.as_str())
            invariant
                p <= out@.len(),
                forall|k: int| p <= k < out@.len() ==> !name_le((#[trigger] out@[k]).name@, a.name@),
            decreases p,
        {
            p = p - 1;
        }
        let ghost before = out@;
        out.insert(p, a);
        proof {
            before.insert_ensures(p as int, a);
            assert forall|j: int, k: int| 0 <= j < k < out@.len() implies name_le(
                #[trigger] out@[j].name@,
                #[trigger] out@[k].name@,
            ) by {
                if k == p {
                    if j < p - 1 {
                        assert(name_le(before[j].name@, before[p - 1].name@));
                        lemma_name_le_trans(before[j].name@, before[p - 1].name@, a.name@);
                    }
                } else if j == p {
                    lemma_name_le_total(a.name@, before[k - 1].name@);
                } else if j < p && k > p {
                    assert(name_le(before[j].name@, before[k - 1].name@));
                } else if j > p {
                    assert(name_le(before[j - 1].name@, before[k - 1].name@));
                }
            }
        }
        i = i + 1;
        assert(rest@ =~= a0.subrange(i as int, a0.len() as int));
    }
    assert(a0.subrange(0, i as int) =~= a0);
    out
}

} // verus!
