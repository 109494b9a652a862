//! The catalog: launch targets from several scanners, merged under one key
//! per target and sorted by name.
use vstd::prelude::*;
use vstd::seq_lib::*;

use crate::apps::{lower_of, str_eq, to_lower, to_upper, upper_of};
use vstd::string::*;
use crate::matcher::{fold_chars, fold_seq};
use crate::numeral::{chars_of, first_word, first_word_exec, strip_char, strip_char_exec};

verus! {

broadcast use group_to_multiset_ensures;

/// One launch target of the catalog.
#[derive(Debug, Clone)]
pub struct App {
    /// Display name; its ASCII-lower-cased form is the target's key in the catalog.
    pub name: String,
    /// Absolute path of the executable, or a shell command for a system action.
    pub path: String,
    pub description: Option<String>,
    /// Path of an icon file, when one was found.
    pub icon: Option<String>,
}

/// The catalog and the window's visibility.
#[derive(Debug, Clone, Default)]
pub struct AppModel {
    pub all_apps: Vec<App>,
    pub ui_visible: bool,
}

/// The key under which the catalog holds a target: its name, ASCII case ignored.
pub open spec fn key_of(a: App) -> Seq<u32> {
    fold_seq(a.name@)
}

/// First position of a target with key `k`, or -1.
pub open spec fn index_of_key(apps: Seq<App>, k: Seq<u32>) -> int
    decreases apps.len(),
{
    if apps.len() == 0 {
        -1
    } else {
        let i = index_of_key(apps.drop_last(), k);
        if i >= 0 {
            i
        } else if key_of(apps.last()) == k {
            apps.len() - 1
        } else {
            -1
        }
    }
}

/// Adds the targets of a plain scanner: a key already present keeps its target.
pub open spec fn merge_first(acc: Seq<App>, found: Seq<App>) -> Seq<App>
    decreases found.len(),
{
    if found.len() == 0 {
        acc
    } else {
        let prev = merge_first(acc, found.drop_last());
        let a = found.last();
        if index_of_key(prev, key_of(a)) >= 0 {
            prev
        } else {
            prev.push(a)
        }
    }
}

/// Adds the targets of a source with richer metadata: a key already present
/// gets the new target in its place.
pub open spec fn merge_rich(acc: Seq<App>, found: Seq<App>) -> Seq<App>
    decreases found.len(),
{
    if found.len() == 0 {
        acc
    } else {
        let prev = merge_rich(acc, found.drop_last());
        let a = found.last();
        let i = index_of_key(prev, key_of(a));
        if i >= 0 {
            prev.update(i, a)
        } else {
            prev.push(a)
        }
    }
}

/// The merged targets of a plain scan and of a richer source, before sorting.
pub open spec fn merged(scanned: Seq<App>, rich: Seq<App>) -> Seq<App> {
    merge_rich(merge_first(Seq::empty(), scanned), rich)
}

/// Code-point order of names: `a` sorts at or before `b`.
pub open spec fn name_le(a: Seq<char>, b: Seq<char>) -> bool
    decreases a.len(),
{
    if a.len() == 0 {
        true
    } else if b.len() == 0 {
        false
    } else if (a[0] as u32) != (b[0] as u32) {
        (a[0] as u32) < (b[0] as u32)
    } else {
        name_le(a.drop_first(), b.drop_first())
    }
}

pub open spec fn sorted_by_name(apps: Seq<App>) -> bool {
    forall|j: int, k: int| 0 <= j < k < apps.len() ==> name_le(#[trigger] apps[j].name@, #[trigger] apps[k].name@)
}

pub open spec fn keys_unique(apps: Seq<App>) -> bool {
    forall|j: int, k: int| 0 <= j < k < apps.len() ==> key_of(#[trigger] apps[j]) != key_of(#[trigger] apps[k])
}

pub(crate) proof fn lemma_name_le_total(a: Seq<char>, b: Seq<char>)
    ensures
        name_le(a, b) || name_le(b, a),
    decreases a.len(),
{
    if a.len() > 0 && b.len() > 0 && (a[0] as u32) == (b[0] as u32) {
        lemma_name_le_total(a.drop_first(), b.drop_first());
    }
}

pub(crate) proof fn lemma_name_le_trans(a: Seq<char>, b: Seq<char>, c: Seq<char>)
    requires
        name_le(a, b),
        name_le(b, c),
    ensures
        name_le(a, c),
    decreases a.len(),
{
    if a.len() > 0 && b.len() > 0 && c.len() > 0 && (a[0] as u32) == (b[0] as u32) && (b[0] as u32) == (c[0] as u32) {
        lemma_name_le_trans(a.drop_first(), b.drop_first(), c.drop_first());
    }
}

proof fn lemma_index_of_key(apps: Seq<App>, k: Seq<u32>)
    ensures
        -1 <= index_of_key(apps, k) < apps.len(),
        index_of_key(apps, k) >= 0 ==> key_of(apps[index_of_key(apps, k)]) == k,
        index_of_key(apps, k) == -1 ==> forall|j: int| 0 <= j < apps.len() ==> key_of(#[trigger] apps[j]) != k,
        index_of_key(apps, k) >= 0 ==> forall|j: int| 0 <= j < index_of_key(apps, k) ==> key_of(#[trigger] apps[j]) != k,
    decreases apps.len(),
{
    if apps.len() > 0 {
        let p = apps.drop_last();
        lemma_index_of_key(p, k);
        assert forall|j: int| 0 <= j < p.len() implies p[j] == apps[j] by {}
    }
}

/// Position of the first target of `apps` with key `k`.
fn find_key(apps: &Vec<App>, k: &Vec<u32>) -> (r: Option<usize>)
    ensures
        match r {
            Some(i) => i as int == index_of_key(apps@, k@),
            None => index_of_key(apps@, k@) == -1,
        },
{
    proof {
        lemma_index_of_key(apps@, k@);
    }
    let mut i: usize = 0;
    while i < apps.len()
        invariant
            i <= apps@.len(),
            forall|j: int| 0 <= j < i ==> key_of(#[trigger] apps@[j]) != k@,
            -1 <= index_of_key(apps@, k@) < apps@.len(),
            index_of_key(apps@, k@) >= 0 ==> key_of(apps@[index_of_key(apps@, k@)]) == k@,
            index_of_key(apps@, k@) == -1 ==> forall|j: int| 0 <= j < apps@.len() ==> key_of(#[trigger] apps@[j]) != k@,
            index_of_key(apps@, k@) >= 0 ==> forall|j: int| 0 <= j < index_of_key(apps@, k@) ==> key_of(#[trigger] apps@[j]) != k@,
        decreases apps@.len() - i,
    {
        let key = fold_chars(apps[i].name.as_str());
        if vec_eq(&key, k) {
            return Some(i);
        }
        i = i + 1;
    }
    None
}

fn vec_eq(a: &Vec<u32>, b: &Vec<u32>) -> (r: bool)
    ensures
        r == (a@ == b@),
{
    if a.len() != b.len() {
        return false;
    }
    let mut i: usize = 0;
    while i < a.len()
        invariant
            a@.len() == b@.len(),
            i <= a@.len(),
            forall|j: int| 0 <= j < i ==> a@[j] == b@[j],
        decreases a@.len() - i,
    {
        if a[i] != b[i] {
            return false;
        }
        i = i + 1;
    }
    assert(a@ =~= b@);
    true
}

/// Merges the targets of a plain scan with those of a richer source: the
/// first scanned target of each key is kept, unless the richer source has that
/// key, whose (last) target then takes its place. Order of first appearance.
pub fn merge_apps(scanned: Vec<App>, rich: Vec<App>) -> (r: Vec<App>)
    ensures
        r@ == merged(scanned@, rich@),
{
    let ghost s0 = scanned@;
    let ghost r0 = rich@;
    let mut scanned = scanned;
    let mut rich = rich;
    let mut acc: Vec<App> = Vec::new();
    let total = scanned.len();
    let mut i: usize = 0;
    while scanned.len() > 0
        invariant
            total == s0.len(),
            i + scanned@.len() == s0.len(),
            scanned@ == s0.subrange(i as int, s0.len() as int),
            acc@ == merge_first(Seq::empty(), s0.subrange(0, i as int)),
        decreases scanned@.len(),
    {
        let a = scanned.remove(0);
        assert(s0.subrange(0, i + 1 as int).drop_last() =~= s0.subrange(0, i as int));
        let key = fold_chars(a.name.as_str());
        if find_key(&acc, &key).is_none() {
            acc.push(a);
        }
        i = i + 1;
        assert(scanned@ =~= s0.subrange(i as int, s0.len() as int));
    }
    assert(s0.subrange(0, i as int) =~= s0);
    let ghost base = acc@;
    let total = rich.len();
    let mut j: usize = 0;
    while rich.len() > 0
        invariant
            total == r0.len(),
            j + rich@.len() == r0.len(),
            rich@ == r0.subrange(j as int, r0.len() as int),
            acc@ == merge_rich(base, r0.subrange(0, j as int)),
        decreases rich@.len(),
    {
        let a = rich.remove(0);
        assert(r0.subrange(0, j + 1 as int).drop_last() =~= r0.subrange(0, j as int));
        let key = fold_chars(a.name.as_str());
        match find_key(&acc, &key) {
            Some(p) => {
                proof {
                    lemma_index_of_key(acc@, key@);
                }
                acc.set(p, a);
            },
            None => {
                acc.push(a);
            },
        }
        j = j + 1;
        assert(rich@ =~= r0.subrange(j as int, r0.len() as int));
    }
    assert(r0.subrange(0, j as int) =~= r0);
    acc
}

/// Whether `a` sorts at or before `b`, by code point.
pub(crate) fn name_le_exec(a: &str, b: &str) -> (r: bool)
    ensures
        r == name_le(a@, b@),
{
    let n = a.unicode_len();
    let m = b.unicode_len();
    let mut i: usize = 0;
    assert(a@.subrange(0, n as int) =~= a@ && b@.subrange(0, m as int) =~= b@);
    while i < n && i < m && (a.get_char(i) as u32) == (b.get_char(i) as u32)
        invariant
            n == a@.len(),
            m == b@.len(),
            i <= n,
            i <= m,
            name_le(a@, b@) == name_le(a@.subrange(i as int, n as int), b@.subrange(i as int, m as int)),
        decreases n - i,
    {
        assert(a@.subrange(i as int, n as int).drop_first() =~= a@.subrange(i + 1, n as int));
        assert(b@.subrange(i as int, m as int).drop_first() =~= b@.subrange(i + 1, m as int));
        i = i + 1;
    }
    if i == n {
        true
    } else if i == m {
        false
    } else {
        (a.get_char(i) as u32) < (b.get_char(i) as u32)
    }
}

/// Sorts the targets by name, in code-point order; equal names keep their order.
pub fn sort_by_name(apps: Vec<App>) -> (r: Vec<App>)
    ensures
        sorted_by_name(r@),
        r@.to_multiset() == apps@.to_multiset(),
{
    let ghost a0 = apps@;
    let mut rest = apps;
    let mut out: Vec<App> = Vec::new();
    let total = rest.len();
    let mut i: usize = 0;
    assert(a0.subrange(0, 0) =~= Seq::<App>::empty());
    while rest.len() > 0
        invariant
            total == a0.len(),
            i + rest@.len() == a0.len(),
            rest@ == a0.subrange(i as int, a0.len() as int),
            sorted_by_name(out@),
            out@.to_multiset() == a0.subrange(0, i as int).to_multiset(),
        decreases rest@.len(),
    {
        let a = rest.remove(0);
        assert(a0.subrange(0, i + 1 as int) =~= a0.subrange(0, i as int).push(a));
        let mut p = out.len();
        while p > 0 && !name_le_exec(out[p - 1].name.as_str(), a.name.as_str())
            invariant
                p <= out@.len(),
                forall|k: int| p <= k < out@.len() ==> !name_le((#[trigger] out@[k]).name@, a.name@),
            decreases p,
        {
            p = p - 1;
        }
        let ghost before = out@;
        out.insert(p, a);
        proof {
            before.insert_ensures(p as int, a);
            assert forall|j: int, k: int| 0 <= j < k < out@.len() implies name_le(
                #[trigger] out@[j].name@,
                #[trigger] out@[k].name@,
            ) by {
                if k == p {
                    if j < p - 1 {
                        assert(name_le(before[j].name@, before[p - 1].name@));
                        lemma_name_le_trans(before[j].name@, before[p - 1].name@, a.name@);
                    }
                } else if j == p {
                    lemma_name_le_total(a.name@, before[k - 1].name@);
                } else if j < p && k > p {
                    assert(name_le(before[j].name@, before[k - 1].name@));
                } else if j > p {
                    assert(name_le(before[j - 1].name@, before[k - 1].name@));
                }
            }
        }
        i = i + 1;
        assert(rest@ =~= a0.subrange(i as int, a0.len() as int));
    }
    assert(a0.subrange(0, i as int) =~= a0);
    out
}

/// Builds the catalog from a plain scan and a richer source: merged as
/// `merge_apps` does, then sorted by name.
pub fn build_catalog(scanned: Vec<App>, rich: Vec<App>) -> (r: Vec<App>)
    ensures
        sorted_by_name(r@),
        r@.to_multiset() == merged(scanned@, rich@).to_multiset(),
{
    sort_by_name(merge_apps(scanned, rich))
}

proof fn lemma_merge_first_unique(acc: Seq<App>, found: Seq<App>)
    requires
        keys_unique(acc),
    ensures
        keys_unique(merge_first(acc, found)),
    decreases found.len(),
{
    if found.len() > 0 {
        let prev = merge_first(acc, found.drop_last());
        lemma_merge_first_unique(acc, found.drop_last());
        lemma_index_of_key(prev, key_of(found.last()));
    }
}

proof fn lemma_merge_rich_unique(acc: Seq<App>, found: Seq<App>)
    requires
        keys_unique(acc),
    ensures
        keys_unique(merge_rich(acc, found)),
    decreases found.len(),
{
    if found.len() > 0 {
        let prev = merge_rich(acc, found.drop_last());
        let a = found.last();
        lemma_merge_rich_unique(acc, found.drop_last());
        lemma_index_of_key(prev, key_of(a));
        let i = index_of_key(prev, key_of(a));
        if i >= 0 {
            let next = prev.update(i, a);
            assert forall|j: int, k: int| 0 <= j < k < next.len() implies key_of(#[trigger] next[j])
                != key_of(#[trigger] next[k]) by {
                assert(key_of(next[j]) == key_of(prev[j]));
                assert(key_of(next[k]) == key_of(prev[k]));
            }
        }
    }
}

proof fn lemma_merge_rich_keeps(acc: Seq<App>, found: Seq<App>, k: int)
    requires
        keys_unique(acc),
        0 <= k < found.len(),
        forall|m: int| k < m < found.len() ==> key_of(#[trigger] found[m]) != key_of(found[k]),
    ensures
        merge_rich(acc, found).contains(found[k]),
    decreases found.len(),
{
    let prev = merge_rich(acc, found.drop_last());
    let a = found.last();
    lemma_index_of_key(prev, key_of(a));
    let i = index_of_key(prev, key_of(a));
    if k == found.len() - 1 {
        if i >= 0 {
            assert(prev.update(i, a)[i] == a);
        } else {
            assert(prev.push(a)[prev.len() as int] == a);
        }
    } else {
        let d = found.drop_last();
        assert forall|m: int| k < m < d.len() implies key_of(#[trigger] d[m]) != key_of(d[k]) by {
            assert(d[m] == found[m]);
        }
        lemma_merge_rich_keeps(acc, d, k);
        lemma_merge_rich_unique(acc, d);
        let i0 = choose|i0: int| 0 <= i0 < prev.len() && prev[i0] == found[k];
        if i >= 0 {
            assert(key_of(prev[i]) == key_of(a));
            assert(i != i0);
            assert(prev.update(i, a)[i0] == found[k]);
        } else {
            assert(prev.push(a)[i0] == found[k]);
        }
    }
}

/// The catalog holds each key once; a target of the richer source stands in
/// it in place of any scanned target with its key (of several richer targets
/// with one key, the last).
pub proof fn lemma_rich_source_wins(scanned: Seq<App>, rich: Seq<App>, k: int)
    requires
        0 <= k < rich.len(),
        forall|m: int| k < m < rich.len() ==> key_of(#[trigger] rich[m]) != key_of(rich[k]),
    ensures
        keys_unique(merged(scanned, rich)),
        merged(scanned, rich).contains(rich[k]),
        forall|i: int|
            0 <= i < merged(scanned, rich).len() && key_of(#[trigger] merged(scanned, rich)[i])
                == key_of(rich[k]) ==> merged(scanned, rich)[i] == rich[k],
{
    let base = merge_first(Seq::empty(), scanned);
    lemma_merge_first_unique(Seq::empty(), scanned);
    lemma_merge_rich_unique(base, rich);
    lemma_merge_rich_keeps(base, rich, k);
}

/// Of scanned targets that share a key, the catalog keeps one.
pub proof fn lemma_scanned_keys_unique(scanned: Seq<App>)
    ensures
        keys_unique(merged(scanned, Seq::empty())),
{
    lemma_merge_first_unique(Seq::empty(), scanned);
}

/// Position of the first `c` in `s` at or after `from`, or -1.
pub open spec fn find_from(s: Seq<char>, c: char, from: int) -> int
    decreases s.len() - from,
{
    if from >= s.len() {
        -1
    } else if s[from] == c {
        from
    } else {
        find_from(s, c, from + 1)
    }
}

/// `l` without one trailing carriage return.
pub open spec fn strip_cr(l: Seq<char>) -> Seq<char> {
    if l.len() > 0 && l.last() == '\r' {
        l.drop_last()
    } else {
        l
    }
}

/// The lines of `s`, as `str::lines` yields them: split at each line feed, a
/// carriage return before it dropped, no empty line after a final line feed.
pub open spec fn lines_of(s: Seq<char>) -> Seq<Seq<char>>
    decreases s.len(),
{
    let i = find_from(s, '\n', 0);
    if 0 <= i < s.len() {
        seq![strip_cr(s.subrange(0, i))] + lines_of(s.subrange(i + 1, s.len() as int))
    } else if s.len() == 0 {
        Seq::empty()
    } else {
        seq![s]
    }
}

/// The key and value of a `key=value` line, split at its first `=`.
pub open spec fn line_entry(l: Seq<char>) -> Option<(Seq<char>, Seq<char>)> {
    let e = find_from(l, '=', 0);
    if 0 <= e < l.len() {
        Some((l.subrange(0, e), l.subrange(e + 1, l.len() as int)))
    } else {
        None
    }
}

/// The value that the last line with key `key` gives it.
pub open spec fn entry_value(lines: Seq<Seq<char>>, key: Seq<char>) -> Option<Seq<char>>
    decreases lines.len(),
{
    if lines.len() == 0 {
        None
    } else {
        match line_entry(lines.last()) {
            Some((k, v)) => if k == key {
                Some(v)
            } else {
                entry_value(lines.drop_last(), key)
            },
            None => entry_value(lines.drop_last(), key),
        }
    }
}

pub open spec fn opt_view(o: Option<String>) -> Option<Seq<char>> {
    match o {
        Some(s) => Some(s@),
        None => None,
    }
}

/// What a value found so far is: `None`, or its bounds in `cs`.
pub open spec fn tracks(
    cs: Seq<char>,
    found: Option<(usize, usize)>,
    lines: Seq<Seq<char>>,
    key: Seq<char>,
) -> bool {
    match found {
        None => entry_value(lines, key) is None,
        Some((a, b)) => a <= b <= cs.len() && entry_value(lines, key) == Some(
            cs.subrange(a as int, b as int),
        ),
    }
}

/// `cs[a..b]` equals `lit`.
fn range_eq(cs: &Vec<char>, a: usize, b: usize, lit: &str) -> (r: bool)
    requires
        a <= b <= cs@.len(),
    ensures
        r == (cs@.subrange(a as int, b as int) == lit@),
{
    let n = lit.unicode_len();
    if b - a != n {
        return false;
    }
    let mut i: usize = 0;
    while i < n
        invariant
            n == lit@.len(),
            b - a == n,
            a <= b <= cs@.len(),
            i <= n,
            forall|j: int| 0 <= j < i ==> cs@[a + j] == lit@[j],
        decreases n - i,
    {
        if cs[a + i] != lit.get_char(i) {
            assert(cs@.subrange(a as int, b as int)[i as int] != lit@[i as int]);
            return false;
        }
        i = i + 1;
    }
    assert(cs@.subrange(a as int, b as int) =~= lit@);
    true
}

/// Follows a value through one more line whose entry is `entry`.
fn track(
    cs: &Vec<char>,
    found: Option<(usize, usize)>,
    entry: Option<(usize, usize, usize)>,
    key: &str,
    Ghost(lines): Ghost<Seq<Seq<char>>>,
    Ghost(line): Ghost<Seq<char>>,
) -> (r: Option<(usize, usize)>)
    requires
        tracks(cs@, found, lines, key@),
        match entry {
            None => line_entry(line) is None,
            Some((a, eq, b)) => a <= eq < b <= cs@.len() && line_entry(line) == Some(
                (cs@.subrange(a as int, eq as int), cs@.subrange(eq + 1, b as int)),
            ),
        },
    ensures
        tracks(cs@, r, lines.push(line), key@),
{
    assert(lines.push(line).drop_last() =~= lines);
    match entry {
        None => found,
        Some((a, eq, b)) => if range_eq(cs, a, eq, key) {
            Some((eq + 1, b))
        } else {
            found
        },
    }
}

/// Reads a desktop entry: a `key=value` file with `Name`, `Exec`, `Comment`,
/// `Icon`, `NoDisplay` and `Hidden` keys, the last line of a key giving its
/// value. An entry marked `NoDisplay=true` or `Hidden=true`, or one without a
/// name (or with an empty one), or without a command in `Exec`, gives `None`. The path of the target is the first word of `Exec`
/// without surrounding quotes; a bare command name is left for the caller to
/// look up on the search path.
pub fn parse_desktop_entry(content: &str) -> (r: Option<App>)
    ensures
        ({
            let ls = lines_of(content@);
            let name = entry_value(ls, "Name"@);
            let exec = entry_value(ls, "Exec"@);
            if entry_value(ls, "NoDisplay"@) == Some("true"@) || entry_value(ls, "Hidden"@) == Some(
                "true"@,
            ) || name is None || name->0.len() == 0 || exec is None || first_word(exec->0) is None {
                r is None
            } else {
                r matches Some(app) && app.name@ == name->0 && app.path@ == strip_char(
                    first_word(exec->0)->0,
                    '"',
                ) && opt_view(app.description) == entry_value(ls, "Comment"@) && opt_view(
                    app.icon,
                ) == entry_value(ls, "Icon"@)
            }
        }),
{
    let cs = chars_of(content);
    let n = cs.len();
    let mut pos: usize = 0;
    let ghost mut done: Seq<Seq<char>> = Seq::empty();
    let mut name: Option<(usize, usize)> = None;
    let mut exec: Option<(usize, usize)> = None;
    let mut comment: Option<(usize, usize)> = None;
    let mut icon: Option<(usize, usize)> = None;
    let mut no_display: Option<(usize, usize)> = None;
    let mut hidden: Option<(usize, usize)> = None;
    assert(cs@.subrange(0, n as int) =~= cs@);
    while pos < n
        invariant
            cs@ == content@,
            n == cs@.len(),
            pos <= n,
            lines_of(cs@) == done + lines_of(cs@.subrange(pos as int, n as int)),
            tracks(cs@, name, done, "Name"@),
            tracks(cs@, exec, done, "Exec"@),
            tracks(cs@, comment, done, "Comment"@),
            tracks(cs@, icon, done, "Icon"@),
            tracks(cs@, no_display, done, "NoDisplay"@),
            tracks(cs@, hidden, done, "Hidden"@),
        decreases n - pos,
    {
        let ghost rest = cs@.subrange(pos as int, n as int);
        let mut e: usize = pos;
        while e < n && cs[e] != '\n'
            invariant
                n == cs@.len(),
                pos <= e <= n,
                rest == cs@.subrange(pos as int, n as int),
                find_from(rest, '\n', 0) == find_from(rest, '\n', e - pos),
            decreases n - e,
        {
            e = e + 1;
        }
        let lend: usize = if e < n && e > pos && cs[e - 1] == '\r' {
            e - 1
        } else {
            e
        };
        let ghost line = cs@.subrange(pos as int, lend as int);
        proof {
            if e < n {
                assert(find_from(rest, '\n', 0) == e - pos);
                assert(rest.subrange(0, e - pos) =~= cs@.subrange(pos as int, e as int));
                assert(rest.subrange(e - pos + 1, rest.len() as int) =~= cs@.subrange(e + 1, n as int));
                assert(strip_cr(cs@.subrange(pos as int, e as int)) =~= line);
            } else {
                assert(find_from(rest, '\n', 0) == -1);
                assert(line =~= rest);
            }
        }
        let mut q: usize = pos;
        while q < lend && cs[q] != '='
            invariant
                n == cs@.len(),
                pos <= q <= lend <= n,
                line == cs@.subrange(pos as int, lend as int),
                find_from(line, '=', 0) == find_from(line, '=', q - pos),
            decreases lend - q,
        {
            q = q + 1;
        }
        let entry: Option<(usize, usize, usize)> = if q < lend {
            assert(find_from(line, '=', 0) == q - pos);
            assert(line.subrange(0, q - pos) =~= cs@.subrange(pos as int, q as int));
            assert(line.subrange(q - pos + 1, line.len() as int) =~= cs@.subrange(q + 1, lend as int));
            Some((pos, q, lend))
        } else {
            assert(find_from(line, '=', 0) == -1);
            None
        };
        name = track(&cs, name, entry, "Name", Ghost(done), Ghost(line));
        exec = track(&cs, exec, entry, "Exec", Ghost(done), Ghost(line));
        comment = track(&cs, comment, entry, "Comment", Ghost(done), Ghost(line));
        icon = track(&cs, icon, entry, "Icon", Ghost(done), Ghost(line));
        no_display = track(&cs, no_display, entry, "NoDisplay", Ghost(done), Ghost(line));
        hidden = track(&cs, hidden, entry, "Hidden", Ghost(done), Ghost(line));
        proof {
            done = done.push(line);
        }
        pos = if e < n {
            e + 1
        } else {
            n
        };
        assert(lines_of(cs@) == done + lines_of(cs@.subrange(pos as int, n as int))) by {
            if e < n {
                assert(lines_of(rest) == seq![line] + lines_of(cs@.subrange(pos as int, n as int)));
            } else {
                assert(lines_of(cs@.subrange(pos as int, n as int)) =~= Seq::<Seq<char>>::empty());
            }
            assert(done + lines_of(cs@.subrange(pos as int, n as int)) =~= done.drop_last() + lines_of(rest));
        }
    }
    assert(cs@.subrange(n as int, n as int) =~= Seq::<char>::empty());
    assert(done + Seq::<Seq<char>>::empty() =~= done);
    if let Some((a, b)) = no_display {
        if range_eq(&cs, a, b, "true") {
            return None;
        }
    }
    if let Some((a, b)) = hidden {
        if range_eq(&cs, a, b, "true") {
            return None;
        }
    }
    let (na, nb) = match name {
        Some(x) => x,
        None => return None,
    };
    if na == nb {
        return None;
    }
    let (ea, eb) = match exec {
        Some(x) => x,
        None => return None,
    };
    let command = content.substring_char(ea, eb);
    let word = match first_word_exec(command) {
        Some(w) => w,
        None => return None,
    };
    let path = strip_char_exec(word, '"').to_owned();
    let description = match comment {
        Some((a, b)) => Some(content.substring_char(a, b).to_owned()),
        None => None,
    };
    let icon_name = match icon {
        Some((a, b)) => Some(content.substring_char(a, b).to_owned()),
        None => None,
    };
    Some(App { name: content.substring_char(na, nb).to_owned(), path, description, icon: icon_name })
}

/// `pat` occurs in `s` at `i`.
pub open spec fn occurs_at(s: Seq<char>, pat: Seq<char>, i: int) -> bool {
    0 <= i && i + pat.len() <= s.len() && s.subrange(i, i + pat.len()) == pat
}

/// First position at or after `from` where `pat` occurs in `s`, or -1.
pub open spec fn find_sub(s: Seq<char>, pat: Seq<char>, from: int) -> int
    decreases s.len() + 1 - from,
{
    if from < 0 || from + pat.len() > s.len() {
        -1
    } else if occurs_at(s, pat, from) {
        from
    } else {
        find_sub(s, pat, from + 1)
    }
}

proof fn lemma_find_sub(s: Seq<char>, pat: Seq<char>, from: int)
    requires
        from >= 0,
    ensures
        find_sub(s, pat, from) == -1 || (from <= find_sub(s, pat, from) && occurs_at(
            s,
            pat,
            find_sub(s, pat, from),
        )),
    decreases s.len() + 1 - from,
{
    if from + pat.len() <= s.len() && !occurs_at(s, pat, from) {
        lemma_find_sub(s, pat, from + 1);
    }
}

/// First position at or after `from` where `pat` occurs in `cs`.
fn find_sub_exec(cs: &Vec<char>, pat: &str, from: usize) -> (r: Option<usize>)
    requires
        from <= cs@.len(),
    ensures
        match r {
            Some(i) => i as int == find_sub(cs@, pat@, from as int) && i + pat@.len() <= cs@.len(),
            None => find_sub(cs@, pat@, from as int) == -1,
        },
{
    let m = pat.unicode_len();
    let n = cs.len();
    if m == 0 {
        assert(cs@.subrange(from as int, from as int) =~= pat@);
        return Some(from);
    }
    if m > n || from > n - m {
        return None;
    }
    let mut i = from;
    while i <= n - m
        invariant
            n == cs@.len(),
            m == pat@.len(),
            1 <= m <= n,
            from <= i,
            i <= n - m + 1,
            find_sub(cs@, pat@, from as int) == find_sub(cs@, pat@, i as int),
        decreases n + 1 - i,
    {
        if range_eq(cs, i, i + m, pat) {
            return Some(i);
        }
        i = i + 1;
    }
    None
}

/// The value of `CFBundleIconFile` in the text of an `Info.plist`: the text
/// between the first `<string>` after the key and the next `</string>`.
pub open spec fn bundle_icon_name_spec(content: Seq<char>) -> Option<Seq<char>> {
    let key = find_sub(content, "<key>CFBundleIconFile</key>"@, 0);
    if key < 0 {
        None
    } else {
        let open = find_sub(content, "<string>"@, key);
        if open < 0 {
            None
        } else {
            let close = find_sub(content, "</string>"@, open + 8);
            if close < 0 {
                None
            } else {
                Some(content.subrange(open + 8, close))
            }
        }
    }
}

/// The value of `CFBundleIconFile` in the text of an `Info.plist`, found by a
/// plain text search.
pub fn extract_bundle_icon_name(plist_content: &str) -> (r: Option<String>)
    ensures
        match bundle_icon_name_spec(plist_content@) {
            None => r is None,
            Some(v) => r matches Some(x) && x@ == v,
        },
{
    proof {
        reveal_strlit("<string>");
    }
    let cs = chars_of(plist_content);
    let n = cs.len();
    let key = match find_sub_exec(&cs, "<key>CFBundleIconFile</key>", 0) {
        Some(k) => k,
        None => return None,
    };
    let open = match find_sub_exec(&cs, "<string>", key) {
        Some(o) => o,
        None => return None,
    };
    proof {
        lemma_find_sub(cs@, "<string>"@, key as int);
    }
    let close = match find_sub_exec(&cs, "</string>", open + 8) {
        Some(c) => c,
        None => return None,
    };
    proof {
        lemma_find_sub(cs@, "</string>"@, open + 8);
    }
    Some(plist_content.substring_char(open + 8, close).to_owned())
}

/// Directory `d` of the icon search for a target without an icon.
pub open spec fn icon_dir_of(user: Seq<char>, d: int) -> Seq<char> {
    if d == 0 {
        "/usr/share/icons/hicolor/48x48/apps/"@
    } else if d == 1 {
        "/usr/share/icons/hicolor/64x64/apps/"@
    } else if d == 2 {
        "/usr/share/icons/hicolor/128x128/apps/"@
    } else if d == 3 {
        "/usr/share/pixmaps/"@
    } else {
        "/home/"@ + user + "/.local/share/icons/hicolor/48x48/apps/"@
    }
}

pub open spec fn raster_ext_of(e: int) -> Seq<char> {
    if e == 0 {
        "png"@
    } else if e == 1 {
        "svg"@
    } else {
        "xpm"@
    }
}

/// Candidate `k` of the icon search: directories vary slowest, then
/// extensions; the name in lower case comes before the name as it is.
pub open spec fn icon_search_path(user: Seq<char>, name: Seq<char>, k: int) -> Seq<char> {
    icon_dir_of(user, k / 6) + (if k % 2 == 0 {
        lower_of(name)
    } else {
        name
    }) + "."@ + raster_ext_of((k / 2) % 3)
}

/// The files tried, in order, for the icon of a target that has none: five
/// icon directories (the last in the user's home), three extensions, the name
/// in lower case and as it is.
pub fn discover_comprehensive_icon(username: &str, app_name: &str) -> (r: Vec<String>)
    ensures
        r@.len() == 30,
        forall|k: int| 0 <= k < 30 ==> (#[trigger] r@[k])@ == icon_search_path(username@, app_name@, k),
{
    let lower = to_lower(app_name);
    let user_dir = String::from_str("/home/").concat(username).concat(
        "/.local/share/icons/hicolor/48x48/apps/",
    );
    let mut out: Vec<String> = Vec::new();
    let mut k: usize = 0;
    while k < 30
        invariant
            k <= 30,
            out@.len() == k,
            lower@ == lower_of(app_name@),
            user_dir@ == icon_dir_of(username@, 4),
            forall|j: int| 0 <= j < k ==> (#[trigger] out@[j])@ == icon_search_path(username@, app_name@, j),
        decreases 30 - k,
    {
        let d = k / 6;
        let dir: &str = if d == 0 {
            "/usr/share/icons/hicolor/48x48/apps/"
        } else if d == 1 {
            "/usr/share/icons/hicolor/64x64/apps/"
        } else if d == 2 {
            "/usr/share/icons/hicolor/128x128/apps/"
        } else if d == 3 {
            "/usr/share/pixmaps/"
        } else {
            user_dir.as_str()
        };
        let e = (k / 2) % 3;
        let ext: &str = if e == 0 {
            "png"
        } else if e == 1 {
            "svg"
        } else {
            "xpm"
        };
        let stem: &str = if k % 2 == 0 {
            lower.as_str()
        } else {
            app_name
        };
        out.push(String::from_str(dir).concat(stem).concat(".").concat(ext));
        k = k + 1;
    }
    out
}

/// The first character of `s` in upper case, the rest as it is.
pub open spec fn capitalized(s: Seq<char>) -> Seq<char> {
    if s.len() == 0 {
        s
    } else {
        upper_of(s.subrange(0, 1)) + s.subrange(1, s.len() as int)
    }
}

/// The icon file names tried, in order, in the resources of a bundle whose
/// icon was not found: the usual name, the app's name as it is, in lower case,
/// two common names, then in upper case and capitalized.
pub open spec fn bundle_icon_names_spec(name: Seq<char>) -> Seq<Seq<char>> {
    seq![
        "AppIcon.icns"@,
        name + ".icns"@,
        lower_of(name) + ".icns"@,
        "app.icns"@,
        "icon.icns"@,
        upper_of(name) + ".icns"@,
        capitalized(name) + ".icns"@,
    ]
}

pub fn bundle_icon_names(app_name: &str) -> (r: Vec<String>)
    ensures
        r@.len() == 7,
        forall|i: int| 0 <= i < 7 ==> (#[trigger] r@[i])@ == bundle_icon_names_spec(app_name@)[i],
{
    let n = app_name.unicode_len();
    let capital = if n == 0 {
        String::new()
    } else {
        to_upper(app_name.substring_char(0, 1)).concat(app_name.substring_char(1, n))
    };
    let mut out: Vec<String> = Vec::new();
    out.push(String::from_str("AppIcon.icns"));
    out.push(String::from_str(app_name).concat(".icns"));
    out.push(to_lower(app_name).concat(".icns"));
    out.push(String::from_str("app.icns"));
    out.push(String::from_str("icon.icns"));
    out.push(to_upper(app_name).concat(".icns"));
    out.push(capital.concat(".icns"));
    out
}

/// `s` with each `{username}`, left to right, replaced by `user`, as
/// `str::replace` does.
pub open spec fn with_user(s: Seq<char>, user: Seq<char>) -> Seq<char>
    decreases s.len(),
{
    let pat = "{username}"@;
    let i = find_sub(s, pat, 0);
    if pat.len() > 0 && 0 <= i && i + pat.len() <= s.len() {
        s.subrange(0, i) + user + with_user(s.subrange(i + pat.len(), s.len() as int), user)
    } else {
        s
    }
}

proof fn lemma_find_sub_shift(s: Seq<char>, pat: Seq<char>, a: int, k: int)
    requires
        0 <= a <= k,
        a <= s.len(),
    ensures
        find_sub(s.subrange(a, s.len() as int), pat, k - a) == if find_sub(s, pat, k) < 0 {
            -1
        } else {
            find_sub(s, pat, k) - a
        },
    decreases s.len() + 1 - k,
{
    let t = s.subrange(a, s.len() as int);
    if k + pat.len() <= s.len() {
        assert(t.subrange(k - a, k - a + pat.len()) =~= s.subrange(k, k + pat.len()));
        if !occurs_at(s, pat, k) {
            lemma_find_sub_shift(s, pat, a, k + 1);
        }
    }
}

/// `template` with each `{username}` replaced by `user`.
pub fn expand_user(template: &str, user: &str) -> (r: String)
    ensures
        r@ == with_user(template@, user@),
{
    proof {
        reveal_strlit("{username}");
    }
    let cs = chars_of(template);
    let n = cs.len();
    let mut out = String::new();
    let mut pos: usize = 0;
    assert(cs@.subrange(0, n as int) =~= cs@);
    loop
        invariant
            cs@ == template@,
            n == cs@.len(),
            pos <= n,
            "{username}"@.len() == 10,
            with_user(template@, user@) == out@ + with_user(cs@.subrange(pos as int, n as int), user@),
        decreases n - pos,
    {
        let ghost rest = cs@.subrange(pos as int, n as int);
        proof {
            lemma_find_sub_shift(cs@, "{username}"@, pos as int, pos as int);
            lemma_find_sub(cs@, "{username}"@, pos as int);
        }
        match find_sub_exec(&cs, "{username}", pos) {
            None => {
                assert(find_sub(rest, "{username}"@, 0) == -1);
                let tail = template.substring_char(pos, n);
                out = out.concat(tail);
                return out;
            },
            Some(i) => {
                assert(find_sub(rest, "{username}"@, 0) == i - pos);
                assert(rest.subrange(0, i - pos) =~= cs@.subrange(pos as int, i as int));
                assert(rest.subrange(i - pos + 10, rest.len() as int) =~= cs@.subrange(i + 10, n as int));
                let head = template.substring_char(pos, i);
                out = out.concat(head).concat(user);
                pos = i + 10;
            },
        }
    }
}

/// Directories scanned for executables: on macOS the application folders,
/// elsewhere the desktop-entry folders; `{username}` stands for the user.
pub open spec fn app_path_template(macos: bool, i: int) -> Seq<char> {
    if macos {
        if i == 0 {
            "/Applications/"@
        } else if i == 1 {
            "/Users/{username}/Applications/"@
        } else if i == 2 {
            "/System/Applications/"@
        } else {
            "/System/Library/CoreServices/"@
        }
    } else {
        if i == 0 {
            "/usr/share/applications/"@
        } else if i == 1 {
            "/usr/local/share/applications/"@
        } else if i == 2 {
            "/home/{username}/.local/share/applications/"@
        } else if i == 3 {
            "/var/lib/snapd/desktop/applications/"@
        } else {
            "/var/lib/flatpak/exports/share/applications/"@
        }
    }
}

fn app_path_template_exec(macos: bool, i: usize) -> (r: &'static str)
    ensures
        r@ == app_path_template(macos, i as int),
{
    if macos {
        if i == 0 {
            "/Applications/"
        } else if i == 1 {
            "/Users/{username}/Applications/"
        } else if i == 2 {
            "/System/Applications/"
        } else {
            "/System/Library/CoreServices/"
        }
    } else {
        if i == 0 {
            "/usr/share/applications/"
        } else if i == 1 {
            "/usr/local/share/applications/"
        } else if i == 2 {
            "/home/{username}/.local/share/applications/"
        } else if i == 3 {
            "/var/lib/snapd/desktop/applications/"
        } else {
            "/var/lib/flatpak/exports/share/applications/"
        }
    }
}

/// The directories to scan, in order, for `username`; the caller keeps those
/// that exist.
pub fn get_app_paths(macos: bool, username: &str) -> (r: Vec<String>)
    ensures
        r@.len() == (if macos {
            4int
        } else {
            5int
        }),
        forall|i: int|
            0 <= i < r@.len() ==> (#[trigger] r@[i])@ == with_user(
                app_path_template(macos, i),
                username@,
            ),
{
    let count: usize = if macos {
        4
    } else {
        5
    };
    let mut out: Vec<String> = Vec::new();
    let mut i: usize = 0;
    while i < count
        invariant
            count == (if macos {
                4usize
            } else {
                5usize
            }),
            i <= count,
            out@.len() == i,
            forall|j: int|
                0 <= j < i ==> (#[trigger] out@[j])@ == with_user(
                    app_path_template(macos, j),
                    username@,
                ),
        decreases count - i,
    {
        out.push(expand_user(app_path_template_exec(macos, i), username));
        i = i + 1;
    }
    out
}

} // verus!
