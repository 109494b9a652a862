//! Fuzzy matching: a query selects the names that contain its characters, in
//! order, ignoring ASCII case; the selected names are ranked by an exact score.
use vstd::prelude::*;
use vstd::string::*;
use vstd::utf8::encode_utf8;

use crate::natural::{from_u64, less, mul_small, plus, value};

verus! {

/// The code point of `c` with ASCII upper case letters taken to lower case.
pub open spec fn fold_code(c: char) -> u32 {
    if 65 <= (c as u32) && (c as u32) <= 90 {
        ((c as u32) + 32) as u32
    } else {
        c as u32
    }
}

pub open spec fn fold_seq(s: Seq<char>) -> Seq<u32> {
    s.map_values(|c: char| fold_code(c))
}

/// `p` places each element of `q` at a strictly increasing position of `t`.
pub open spec fn is_embedding(q: Seq<u32>, t: Seq<u32>, p: Seq<int>) -> bool {
    &&& p.len() == q.len()
    &&& forall|k: int| 0 <= k < p.len() ==> 0 <= #[trigger] p[k] < t.len() && t[p[k]] == q[k]
    &&& forall|j: int, k: int| 0 <= j < k < p.len() ==> #[trigger] p[j] < #[trigger] p[k]
}

/// `q` occurs in `t` as an ordered, not necessarily contiguous, subsequence.
pub open spec fn is_subsequence(q: Seq<u32>, t: Seq<u32>) -> bool {
    exists|p: Seq<int>| is_embedding(q, t, p)
}

/// First position at or after `i` that holds `c`, or `t.len()` when there is none.
pub open spec fn next_at(t: Seq<u32>, c: u32, i: int) -> int
    decreases t.len() - i,
{
    if i >= t.len() {
        t.len() as int
    } else if t[i] == c {
        i
    } else {
        next_at(t, c, i + 1)
    }
}

/// Where the greedy scan stands after the first `k` query elements: one past
/// the position of the `k`-th one, or `t.len() + 1` once an element was missing.
pub open spec fn cursor(t: Seq<u32>, q: Seq<u32>, k: nat) -> int
    decreases k,
{
    if k == 0 {
        0
    } else {
        let p = cursor(t, q, (k - 1) as nat);
        if p > t.len() {
            p
        } else {
            let m = next_at(t, q[k - 1], p);
            if m < t.len() {
                m + 1
            } else {
                t.len() + 1 as int
            }
        }
    }
}

pub open spec fn greedy_matches(t: Seq<u32>, q: Seq<u32>) -> bool {
    cursor(t, q, q.len()) <= t.len()
}

/// Position that the greedy scan gives to the `k`-th query element.
pub open spec fn greedy_pos(t: Seq<u32>, q: Seq<u32>, k: int) -> int {
    cursor(t, q, (k + 1) as nat) - 1
}

/// Number of `j` in `1..k` whose greedy position directly follows that of `j - 1`.
pub open spec fn adjacent_pairs(t: Seq<u32>, q: Seq<u32>, k: nat) -> nat
    decreases k,
{
    if k <= 1 {
        0
    } else {
        adjacent_pairs(t, q, (k - 1) as nat) + if greedy_pos(t, q, k - 1) == greedy_pos(t, q, k - 2)
            + 1 {
            1nat
        } else {
            0nat
        }
    }
}

pub open spec fn max1(x: int) -> int {
    if x < 1 {
        1
    } else {
        x
    }
}

/// The score of a name for a query, as an exact fraction `(numerator, denominator)`:
/// `1000 / L + 1000 / S + 200 * A + 50 / F`, where `L` is the name's length in UTF-8 bytes, `S`
/// the span from the first to the last matched position (a term present only
/// for queries of two or more characters), `A` the number of adjacent matched
/// pairs and `F` one past the first matched position. `L` and `S` count at least 1.
pub open spec fn score(name: Seq<char>, query: Seq<char>) -> (int, int) {
    let t = fold_seq(name);
    let q = fold_seq(query);
    let n = q.len() as int;
    let l = max1(encode_utf8(name).len() as int);
    let first = greedy_pos(t, q, 0);
    let s = if n >= 2 {
        max1(greedy_pos(t, q, n - 1) - first + 1)
    } else {
        1
    };
    let f = first + 1;
    let a = adjacent_pairs(t, q, q.len()) as int;
    let compact = if n >= 2 {
        1000 * l * f
    } else {
        0
    };
    (1000 * s * f + compact + 200 * a * l * s * f + 50 * l * s, l * s * f)
}

/// Score `x` is strictly higher than score `y` (both with positive denominators).
pub open spec fn outscores(x: (int, int), y: (int, int)) -> bool {
    x.0 * y.1 > y.0 * x.1
}

/// The query selects the name: it is not empty, and occurs in the name as an
/// ordered subsequence, ASCII case ignored.
pub open spec fn selected(name: Seq<char>, query: Seq<char>) -> bool {
    query.len() > 0 && is_subsequence(fold_seq(query), fold_seq(name))
}

/// Entry `a` comes before entry `b`: a higher score, or an equal one and an
/// earlier place in the catalog.
pub open spec fn precedes(names: Seq<Seq<char>>, query: Seq<char>, a: int, b: int) -> bool {
    let x = score(names[a], query);
    let y = score(names[b], query);
    outscores(x, y) || (x.0 * y.1 == y.0 * x.1 && a < b)
}

/// `r` lists the indices of exactly the selected names, best first.
pub open spec fn is_ranking(names: Seq<Seq<char>>, query: Seq<char>, r: Seq<usize>) -> bool {
    &&& forall|j: int| 0 <= j < r.len() ==> #[trigger] r[j] < names.len() && selected(
        names[r[j] as int],
        query,
    )
    &&& forall|i: int|
        0 <= i < names.len() && selected(#[trigger] names[i], query) ==> exists|j: int|
            0 <= j < r.len() && r[j] == i
    &&& forall|j: int, k: int|
        0 <= j < k < r.len() ==> precedes(names, query, #[trigger] r[j] as int, #[trigger] r[k] as int)
}

pub open spec fn views_of(names: Seq<&str>) -> Seq<Seq<char>> {
    names.map_values(|s: &str| s@)
}

proof fn lemma_next_at(t: Seq<u32>, c: u32, i: int)
    requires
        0 <= i <= t.len(),
    ensures
        i <= next_at(t, c, i) <= t.len(),
        next_at(t, c, i) < t.len() ==> t[next_at(t, c, i)] == c,
        forall|j: int| i <= j < next_at(t, c, i) ==> t[j] != c,
    decreases t.len() - i,
{
    if i < t.len() && t[i] != c {
        lemma_next_at(t, c, i + 1);
    }
}

proof fn lemma_cursor_bounds(t: Seq<u32>, q: Seq<u32>, k: nat)
    ensures
        cursor(t, q, k) >= 0,
        k > 0 ==> cursor(t, q, k) >= 1,
        cursor(t, q, k) <= t.len() ==> cursor(t, q, k) >= k,
    decreases k,
{
    if k > 0 {
        lemma_cursor_bounds(t, q, (k - 1) as nat);
        let p = cursor(t, q, (k - 1) as nat);
        if p <= t.len() {
            lemma_next_at(t, q[k - 1], p);
        }
    }
}

/// Once an element is missing, the scan stays failed.
proof fn lemma_cursor_fail(t: Seq<u32>, q: Seq<u32>, k: nat, n: nat)
    requires
        k <= n,
        cursor(t, q, k) > t.len(),
    ensures
        cursor(t, q, n) > t.len(),
    decreases n - k,
{
    if k < n {
        assert(cursor(t, q, k + 1) > t.len());
        lemma_cursor_fail(t, q, k + 1, n);
    }
}

/// What one successful step of the scan gives.
proof fn lemma_cursor_step(t: Seq<u32>, q: Seq<u32>, k: nat)
    requires
        cursor(t, q, k + 1) <= t.len(),
    ensures
        0 <= cursor(t, q, k) <= t.len(),
        cursor(t, q, k) <= cursor(t, q, k + 1) - 1 < t.len(),
        cursor(t, q, k + 1) - 1 == next_at(t, q[k as int], cursor(t, q, k)),
        t[cursor(t, q, k + 1) - 1] == q[k as int],
{
    lemma_cursor_bounds(t, q, k);
    let p = cursor(t, q, k);
    if p <= t.len() {
        lemma_next_at(t, q[k as int], p);
    }
}

proof fn lemma_cursor_mono(t: Seq<u32>, q: Seq<u32>, a: nat, b: nat)
    requires
        a <= b,
        cursor(t, q, b) <= t.len(),
    ensures
        cursor(t, q, a) <= cursor(t, q, b),
    decreases b - a,
{
    if a < b {
        lemma_cursor_step(t, q, (b - 1) as nat);
        lemma_cursor_mono(t, q, a, (b - 1) as nat);
    }
}

/// A successful greedy scan is an embedding.
proof fn lemma_greedy_embeds(t: Seq<u32>, q: Seq<u32>)
    requires
        greedy_matches(t, q),
    ensures
        is_embedding(q, t, Seq::new(q.len(), |k: int| greedy_pos(t, q, k))),
{
    let p = Seq::new(q.len(), |k: int| greedy_pos(t, q, k));
    assert forall|k: int| 0 <= k < p.len() implies 0 <= #[trigger] p[k] < t.len() && t[p[k]]
        == q[k] by {
        lemma_cursor_mono(t, q, (k + 1) as nat, q.len());
        lemma_cursor_step(t, q, k as nat);
    }
    assert forall|j: int, k: int| 0 <= j < k < p.len() implies #[trigger] p[j] < #[trigger] p[k] by {
        lemma_cursor_mono(t, q, (k + 1) as nat, q.len());
        lemma_cursor_step(t, q, k as nat);
        lemma_cursor_mono(t, q, (j + 1) as nat, k as nat);
    }
}

proof fn lemma_embedding_scan(t: Seq<u32>, q: Seq<u32>, p: Seq<int>, k: nat)
    requires
        is_embedding(q, t, p),
        k <= q.len(),
    ensures
        cursor(t, q, k) <= t.len(),
        k > 0 ==> cursor(t, q, k) <= p[k - 1] + 1,
    decreases k,
{
    if k > 0 {
        let i = (k - 1) as int;
        lemma_embedding_scan(t, q, p, (k - 1) as nat);
        lemma_cursor_bounds(t, q, (k - 1) as nat);
        let c = cursor(t, q, (k - 1) as nat);
        if k > 1 {
            assert(p[i - 1] < p[i]);
        }
        assert(c <= p[i]);
        assert(0 <= p[i] < t.len() && t[p[i]] == q[i]);
        lemma_next_at(t, q[i], c);
    }
}

/// The greedy scan succeeds exactly on subsequences.
pub proof fn lemma_greedy_iff_subsequence(t: Seq<u32>, q: Seq<u32>)
    ensures
        greedy_matches(t, q) <==> is_subsequence(q, t),
{
    if greedy_matches(t, q) {
        lemma_greedy_embeds(t, q);
    }
    if is_subsequence(q, t) {
        let p = choose|p: Seq<int>| is_embedding(q, t, p);
        lemma_embedding_scan(t, q, p, q.len());
    }
}

proof fn lemma_score_den_positive(name: Seq<char>, query: Seq<char>)
    ensures
        score(name, query).1 > 0,
{
    let t = fold_seq(name);
    let q = fold_seq(query);
    lemma_cursor_bounds(t, q, 1);
    let l = max1(encode_utf8(name).len() as int);
    let first = greedy_pos(t, q, 0);
    let s = if q.len() >= 2 {
        max1(greedy_pos(t, q, q.len() - 1) - first + 1)
    } else {
        1
    };
    let f = first + 1;
    assert(l * s * f > 0) by (nonlinear_arith)
        requires
            l >= 1,
            s >= 1,
            f >= 1,
    ;
}

proof fn lemma_outscores_trans(x: (int, int), y: (int, int), z: (int, int))
    requires
        x.1 > 0,
        y.1 > 0,
        z.1 > 0,
        x.0 * y.1 >= y.0 * x.1,
        y.0 * z.1 >= z.0 * y.1,
    ensures
        x.0 * z.1 >= z.0 * x.1,
        (x.0 * y.1 > y.0 * x.1 || y.0 * z.1 > z.0 * y.1) ==> x.0 * z.1 > z.0 * x.1,
{
    let (a, b) = x;
    let (c, d) = y;
    let (e, f) = z;
    assert(a * d * f >= c * b * f) by (nonlinear_arith)
        requires
            a * d >= c * b,
            f > 0,
    ;
    assert(c * f * b >= e * d * b) by (nonlinear_arith)
        requires
            c * f >= e * d,
            b > 0,
    ;
    assert(a * f >= e * b) by (nonlinear_arith)
        requires
            a * d * f >= c * b * f,
            c * f * b >= e * d * b,
            d > 0,
    ;
    if a * d > c * b {
        assert(a * f > e * b) by (nonlinear_arith)
            requires
                a * d > c * b,
                c * f >= e * d,
                b > 0,
                d > 0,
                f > 0,
        ;
    }
    if c * f > e * d {
        assert(a * f > e * b) by (nonlinear_arith)
            requires
                a * d >= c * b,
                c * f > e * d,
                b > 0,
                d > 0,
                f > 0,
        ;
    }
}

/// `precedes` is transitive.
proof fn lemma_precedes_trans(names: Seq<Seq<char>>, query: Seq<char>, a: int, b: int, c: int)
    requires
        precedes(names, query, a, b),
        precedes(names, query, b, c),
    ensures
        precedes(names, query, a, c),
{
    lemma_score_den_positive(names[a], query);
    lemma_score_den_positive(names[b], query);
    lemma_score_den_positive(names[c], query);
    lemma_outscores_trans(score(names[a], query), score(names[b], query), score(names[c], query));
}

proof fn lemma_ranking_prefix(
    names: Seq<Seq<char>>,
    query: Seq<char>,
    r1: Seq<usize>,
    r2: Seq<usize>,
    j: int,
)
    requires
        is_ranking(names, query, r1),
        is_ranking(names, query, r2),
        0 <= j <= r1.len(),
        j <= r2.len(),
    ensures
        forall|m: int| 0 <= m < j ==> r1[m] == r2[m],
    decreases j,
{
    if j > 0 {
        let i = j - 1;
        lemma_ranking_prefix(names, query, r1, r2, i);
        let x = r1[i] as int;
        let y = r2[i] as int;
        assert(selected(names[x], query));
        let k = choose|k: int| 0 <= k < r2.len() && r2[k] == x;
        assert(selected(names[y], query));
        let m = choose|m: int| 0 <= m < r1.len() && r1[m] == y;
        if k < i {
            assert(precedes(names, query, r1[k] as int, r1[i] as int));
        }
        if m < i {
            assert(precedes(names, query, r2[m] as int, r2[i] as int));
        }
        if k > i {
            assert(precedes(names, query, y, x));
            if m == i {
                assert(precedes(names, query, r2[i] as int, r2[k] as int));
            } else if m > i {
                assert(precedes(names, query, x, y));
            }
        }
    }
}

/// Ranking is deterministic: two rankings of the same names for the same query
/// are the same sequence.
pub proof fn lemma_ranking_unique(
    names: Seq<Seq<char>>,
    query: Seq<char>,
    r1: Seq<usize>,
    r2: Seq<usize>,
)
    requires
        is_ranking(names, query, r1),
        is_ranking(names, query, r2),
    ensures
        r1 == r2,
{
    let n = if r1.len() < r2.len() {
        r1.len() as int
    } else {
        r2.len() as int
    };
    lemma_ranking_prefix(names, query, r1, r2, n);
    if r1.len() > n {
        let x = r1[n] as int;
        assert(selected(names[x], query));
        let k = choose|k: int| 0 <= k < r2.len() && r2[k] == x;
        assert(precedes(names, query, r1[k] as int, r1[n] as int));
    }
    if r2.len() > n {
        let y = r2[n] as int;
        assert(selected(names[y], query));
        let k = choose|k: int| 0 <= k < r1.len() && r1[k] == y;
        assert(precedes(names, query, r2[k] as int, r2[n] as int));
    }
    assert(r1 =~= r2);
}

/// The code points of `s`, ASCII upper case taken to lower case.
pub fn fold_chars(s: &str) -> (r: Vec<u32>)
    ensures
        r@ == fold_seq(s@),
{
    let n = s.unicode_len();
    let mut out: Vec<u32> = Vec::new();
    let mut i: usize = 0;
    while i < n
        invariant
            n == s@.len(),
            i <= n,
            out@ == fold_seq(s@).subrange(0, i as int),
        decreases n - i,
    {
        let c = s.get_char(i);
        let code = c as u32;
        let folded: u32 = if 65 <= code && code <= 90 {
            code + 32
        } else {
            code
        };
        out.push(folded);
        i = i + 1;
        assert(out@ =~= fold_seq(s@).subrange(0, i as int));
    }
    assert(out@ =~= fold_seq(s@));
    out
}

/// Runs the greedy scan of `q` over `t`: on success, the first and last
/// matched positions and the number of adjacent matched pairs.
fn scan(t: &Vec<u32>, q: &Vec<u32>) -> (r: Option<(usize, usize, usize)>)
    requires
        q@.len() > 0,
    ensures
        r.is_none() <==> !greedy_matches(t@, q@),
        r matches Some((first, last, adj)) ==> {
            &&& first == greedy_pos(t@, q@, 0)
            &&& last == greedy_pos(t@, q@, q@.len() - 1)
            &&& adj == adjacent_pairs(t@, q@, q@.len())
            &&& first <= last < t@.len()
            &&& adj < q@.len() <= t@.len()
        },
{
    let ghost tv = t@;
    let ghost qv = q@;
    let mut idx: usize = 0;
    let mut k: usize = 0;
    let mut first: usize = 0;
    let mut prev: usize = 0;
    let mut adj: usize = 0;
    while k < q.len()
        invariant
            tv == t@,
            qv == q@,
            qv.len() > 0,
            k <= qv.len(),
            idx == cursor(tv, qv, k as nat),
            k <= idx <= tv.len(),
            k > 0 ==> first == greedy_pos(tv, qv, 0) && prev == greedy_pos(tv, qv, k - 1),
            k > 0 ==> first <= prev && prev + 1 == idx,
            adj == adjacent_pairs(tv, qv, k as nat),
            k > 0 ==> adj < k,
        decreases qv.len() - k,
    {
        let c = q[k];
        let ghost start = idx as int;
        proof {
            lemma_next_at(tv, c, start);
        }
        while idx < t.len() && t[idx] != c
            invariant
                tv == t@,
                start <= idx <= tv.len(),
                next_at(tv, c, idx as int) == next_at(tv, c, start),
            decreases tv.len() - idx,
        {
            idx = idx + 1;
        }
        if idx >= t.len() {
            proof {
                assert(cursor(tv, qv, (k + 1) as nat) > tv.len());
                lemma_cursor_fail(tv, qv, (k + 1) as nat, qv.len());
            }
            return None;
        }
        assert(cursor(tv, qv, (k + 1) as nat) == idx + 1);
        if k > 0 && idx == prev + 1 {
            adj = adj + 1;
        }
        if k == 0 {
            first = idx;
        }
        prev = idx;
        idx = idx + 1;
        k = k + 1;
    }
    Some((first, prev, adj))
}

/// The numerator of a score from its parts (see `score`).
pub open spec fn numerator(l: int, s: int, f: int, a: int, two: bool) -> int {
    1000 * s * f + (if two {
        1000 * l * f
    } else {
        0
    }) + 200 * a * l * s * f + 50 * l * s
}

/// The parts `(L, S, F, A)` of the score of a name that the query matched,
/// from the scan's results.
fn score_parts(
    Ghost(name): Ghost<Seq<char>>,
    Ghost(query): Ghost<Seq<char>>,
    len: usize,
    chars: usize,
    n: usize,
    first: usize,
    last: usize,
    adj: usize,
) -> (r: (u64, u64, u64, u64))
    requires
        len == encode_utf8(name).len(),
        n == query.len(),
        first == greedy_pos(fold_seq(name), fold_seq(query), 0),
        last == greedy_pos(fold_seq(name), fold_seq(query), n - 1),
        adj == adjacent_pairs(fold_seq(name), fold_seq(query), n as nat),
        chars == name.len(),
        first <= last < chars,
    ensures
        r.0 >= 1 && r.1 >= 1 && r.2 >= 1,
        score(name, query) == (numerator(r.0 as int, r.1 as int, r.2 as int, r.3 as int, n >= 2), r.0 * r.1 * r.2),
{
    let s: u64 = if n >= 2 {
        (last - first + 1) as u64
    } else {
        1
    };
    let l: u64 = if len == 0 {
        1
    } else {
        len as u64
    };
    (l, s, (first + 1) as u64, adj as u64)
}

/// The numerator of a score, from its parts.
fn numerator_exec(p: (u64, u64, u64, u64), two: bool) -> (r: Vec<u64>)
    ensures
        value(r@) == numerator(p.0 as int, p.1 as int, p.2 as int, p.3 as int, two),
{
    let (l, s, f, a) = p;
    let t1 = mul_small(&mul_small(&from_u64(1000), s), f);
    let t2 = if two {
        mul_small(&mul_small(&from_u64(1000), l), f)
    } else {
        from_u64(0)
    };
    let t3 = mul_small(&mul_small(&mul_small(&mul_small(&from_u64(200), a), l), s), f);
    let t4 = mul_small(&mul_small(&from_u64(50), l), s);
    plus(&plus(&plus(&t1, &t2), &t3), &t4)
}

/// Whether the score with parts `p` is strictly above the score with parts `q`.
fn beats(p: (u64, u64, u64, u64), q: (u64, u64, u64, u64), two: bool) -> (r: bool)
    ensures
        r == (numerator(p.0 as int, p.1 as int, p.2 as int, p.3 as int, two) * (q.0 * q.1 * q.2)
            > numerator(q.0 as int, q.1 as int, q.2 as int, q.3 as int, two) * (p.0 * p.1 * p.2)),
{
    let np = numerator_exec(p, two);
    let nq = numerator_exec(q, two);
    let lhs = mul_small(&mul_small(&mul_small(&np, q.0), q.1), q.2);
    let rhs = mul_small(&mul_small(&mul_small(&nq, p.0), p.1), p.2);
    proof {
        let x = value(np@);
        let y = value(nq@);
        assert(x * q.0 * q.1 * q.2 == x * (q.0 * q.1 * q.2)) by (nonlinear_arith);
        assert(y * p.0 * p.1 * p.2 == y * (p.0 * p.1 * p.2)) by (nonlinear_arith);
    }
    less(&rhs, &lhs)
}

/// The parts of a ranked entry describe the score of its name.
pub open spec fn entry_scores(
    nv: Seq<Seq<char>>,
    qv: Seq<char>,
    e: (usize, u64, u64, u64, u64),
) -> bool {
    &&& e.1 >= 1 && e.2 >= 1 && e.3 >= 1
    &&& score(nv[e.0 as int], qv) == (
        numerator(e.1 as int, e.2 as int, e.3 as int, e.4 as int, qv.len() >= 2),
        e.1 * e.2 * e.3,
    )
}

/// Ranks the names for the query: the indices of the names that the query
/// selects, by descending score, equal scores in catalog order. An empty
/// query selects nothing.
pub fn rank(names: &Vec<&str>, query: &str) -> (r: Vec<usize>)
    ensures
        is_ranking(views_of(names@), query@, r@),
        query@.len() == 0 ==> r@.len() == 0,
{
    let ghost nv = views_of(names@);
    let ghost qv = query@;
    if query.is_empty() {
        return Vec::new();
    }
    let q = fold_chars(query);
    let two = q.len() >= 2;
    let mut ranked: Vec<(usize, u64, u64, u64, u64)> = Vec::new();
    let mut i: usize = 0;
    while i < names.len()
        invariant
            i <= names.len(),
            nv == views_of(names@),
            qv == query@,
            qv.len() > 0,
            q@ == fold_seq(qv),
            two == (qv.len() >= 2),
            forall|j: int|
                0 <= j < ranked@.len() ==> {
                    let e = #[trigger] ranked@[j];
                    &&& e.0 < i
                    &&& selected(nv[e.0 as int], qv)
                    &&& entry_scores(nv, qv, e)
                },
            forall|m: int|
                0 <= m < i && selected(#[trigger] nv[m], qv) ==> exists|j: int|
                    0 <= j < ranked@.len() && ranked@[j].0 == m,
            forall|j: int, k: int|
                0 <= j < k < ranked@.len() ==> precedes(
                    nv,
                    qv,
                    #[trigger] ranked@[j].0 as int,
                    #[trigger] ranked@[k].0 as int,
                ),
        decreases names.len() - i,
    {
        let name: &str = names[i];
        assert(nv[i as int] == name@);
        let t = fold_chars(name);
        proof {
            lemma_greedy_iff_subsequence(t@, q@);
        }
        match scan(&t, &q) {
            None => {},
            Some((first, last, adj)) => {
                let parts = score_parts(
                    Ghost(name@),
                    Ghost(qv),
                    name.as_bytes().len(),
                    t.len(),
                    q.len(),
                    first,
                    last,
                    adj,
                );
                let ghost entry = (i, parts.0, parts.1, parts.2, parts.3);
                assert(entry_scores(nv, qv, entry));
                let mut pos = ranked.len();
                while pos > 0 && beats(
                    parts,
                    (ranked[pos - 1].1, ranked[pos - 1].2, ranked[pos - 1].3, ranked[pos - 1].4),
                    two,
                )
                    invariant
                        pos <= ranked@.len(),
                        forall|k: int|
                            pos <= k < ranked@.len() ==> {
                                let e = #[trigger] ranked@[k];
                                numerator(
                                    parts.0 as int,
                                    parts.1 as int,
                                    parts.2 as int,
                                    parts.3 as int,
                                    two,
                                ) * (e.1 * e.2 * e.3) > numerator(
                                    e.1 as int,
                                    e.2 as int,
                                    e.3 as int,
                                    e.4 as int,
                                    two,
                                ) * (parts.0 * parts.1 * parts.2)
                            },
                    decreases pos,
                {
                    pos = pos - 1;
                }
                let ghost old_ranked = ranked@;
                ranked.insert(pos, (i, parts.0, parts.1, parts.2, parts.3));
                proof {
                    old_ranked.insert_ensures(pos as int, entry);
                    assert(selected(nv[i as int], qv));
                    assert forall|j: int, k: int| 0 <= j < k < ranked@.len() implies precedes(
                        nv,
                        qv,
                        #[trigger] ranked@[j].0 as int,
                        #[trigger] ranked@[k].0 as int,
                    ) by {
                        if k == pos {
                            let p = old_ranked[pos - 1];
                            assert(entry_scores(nv, qv, p));
                            assert(precedes(nv, qv, p.0 as int, i as int));
                            if j < pos - 1 {
                                assert(precedes(nv, qv, old_ranked[j].0 as int, p.0 as int));
                                lemma_precedes_trans(nv, qv, old_ranked[j].0 as int, p.0 as int, i as int);
                            }
                        } else if j == pos {
                            assert(old_ranked[k - 1] == ranked@[k]);
                            assert(entry_scores(nv, qv, old_ranked[k - 1]));
                        } else if j < pos && k > pos {
                            assert(precedes(nv, qv, old_ranked[j].0 as int, old_ranked[k - 1].0 as int));
                        } else if j > pos {
                            assert(precedes(nv, qv, old_ranked[j - 1].0 as int, old_ranked[k - 1].0 as int));
                        }
                    }
                    assert forall|m: int| 0 <= m < i + 1 && selected(#[trigger] nv[m], qv) implies exists|j: int|
                        0 <= j < ranked@.len() && ranked@[j].0 == m by {
                        if m == i {
                            assert(ranked@[pos as int].0 == m);
                        } else {
                            let j = choose|j: int| 0 <= j < old_ranked.len() && old_ranked[j].0 == m;
                            if j < pos {
                                assert(ranked@[j].0 == m);
                            } else {
                                assert(ranked@[j + 1].0 == m);
                            }
                        }
                    }
                }
            },
        }
        i = i + 1;
    }
    let mut out: Vec<usize> = Vec::new();
    let mut j: usize = 0;
    while j < ranked.len()
        invariant
            j <= ranked@.len(),
            out@.len() == j,
            forall|m: int| 0 <= m < j ==> out@[m] == ranked@[m].0,
        decreases ranked@.len() - j,
    {
        out.push(ranked[j].0);
        j = j + 1;
    }
    proof {
        assert forall|m: int|
            0 <= m < names@.len() && selected(#[trigger] nv[m], qv) implies exists|j: int|
                0 <= j < out@.len() && out@[j] == m by {
            let j = choose|j: int| 0 <= j < ranked@.len() && ranked@[j].0 == m;
            assert(out@[j] == m);
        }
        assert forall|j: int, k: int| 0 <= j < k < out@.len() implies precedes(
            nv,
            qv,
            #[trigger] out@[j] as int,
            #[trigger] out@[k] as int,
        ) by {
            assert(precedes(nv, qv, ranked@[j].0 as int, ranked@[k].0 as int));
        }
    }
    out
}

/// Ranking ignores ASCII case in the query: two queries that differ only in
/// the case of ASCII letters have the same rankings.
pub proof fn lemma_case_insensitive(
    names: Seq<Seq<char>>,
    q1: Seq<char>,
    q2: Seq<char>,
    r: Seq<usize>,
)
    requires
        fold_seq(q1) == fold_seq(q2),
    ensures
        is_ranking(names, q1, r) <==> is_ranking(names, q2, r),
{
    assert(q1.len() == fold_seq(q1).len() && q2.len() == fold_seq(q2).len());
    assert forall|i: int| 0 <= i < names.len() implies score(names[i], q1) == score(names[i], q2)
        && (selected(names[i], q1) <==> selected(names[i], q2)) by {}
}

} // verus!
