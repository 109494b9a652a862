//! Natural numbers of any size, as little-endian 64-bit limbs: just enough
//! (products by a machine word, sums, comparison) to compare scores exactly.
use vstd::prelude::*;

verus! {

/// The base of a limb.
pub open spec fn base() -> int {
    0x1_0000_0000_0000_0000
}

/// The weight of limb `i`: `base()` to the power `i`.
pub open spec fn place(i: nat) -> int
    decreases i,
{
    if i == 0 {
        1
    } else {
        base() * place((i - 1) as nat)
    }
}

/// The number that limbs `s` stand for.
pub open spec fn value(s: Seq<u64>) -> int
    decreases s.len(),
{
    if s.len() == 0 {
        0
    } else {
        value(s.drop_last()) + s.last() * place((s.len() - 1) as nat)
    }
}

proof fn lemma_place_positive(i: nat)
    ensures
        place(i) >= 1,
    decreases i,
{
    if i > 0 {
        lemma_place_positive((i - 1) as nat);
        assert(base() * place((i - 1) as nat) >= 1) by (nonlinear_arith)
            requires
                place((i - 1) as nat) >= 1,
                base() == 0x1_0000_0000_0000_0000,
        ;
    }
}

proof fn lemma_value_bounds(s: Seq<u64>)
    ensures
        0 <= value(s) < place(s.len()),
    decreases s.len(),
{
    if s.len() > 0 {
        let p = s.drop_last();
        lemma_value_bounds(p);
        lemma_place_positive(p.len());
        let x = s.last() as int;
        let w = place(p.len());
        assert(value(p) + x * w < base() * w && value(p) + x * w >= 0) by (nonlinear_arith)
            requires
                0 <= value(p) < w,
                0 <= x < base(),
                w >= 1,
        ;
    }
}

proof fn lemma_value_push(s: Seq<u64>, x: u64)
    ensures
        value(s.push(x)) == value(s) + x * place(s.len()),
{
    assert(s.push(x).drop_last() =~= s);
}

/// The limbs of `x`.
pub fn from_u64(x: u64) -> (r: Vec<u64>)
    ensures
        value(r@) == x,
{
    let mut r: Vec<u64> = Vec::new();
    r.push(x);
    proof {
        lemma_value_push(Seq::empty(), x);
    }
    r
}

/// `a * m`.
pub fn mul_small(a: &Vec<u64>, m: u64) -> (r: Vec<u64>)
    ensures
        value(r@) == value(a@) * m,
{
    let mut out: Vec<u64> = Vec::new();
    let mut carry: u64 = 0;
    let mut i: usize = 0;
    while i < a.len()
        invariant
            i <= a@.len(),
            out@.len() == i,
            value(out@) + carry * place(i as nat) == value(a@.subrange(0, i as int)) * m,
        decreases a@.len() - i,
    {
        let x = a[i];
        assert((x as int) * (m as int) + carry <= 0xffff_ffff_ffff_ffff_ffff_ffff_ffff_ffff)
            by (nonlinear_arith)
            requires
                x < 0x1_0000_0000_0000_0000,
                m < 0x1_0000_0000_0000_0000,
                carry < 0x1_0000_0000_0000_0000,
        ;
        let t: u128 = (x as u128) * (m as u128) + (carry as u128);
        let lo = (t % 0x1_0000_0000_0000_0000) as u64;
        let hi = (t / 0x1_0000_0000_0000_0000) as u64;
        let ghost prev = out@;
        let ghost w = place(i as nat);
        out.push(lo);
        proof {
            lemma_value_push(prev, lo);
            let pre = a@.subrange(0, i as int);
            let pre1 = a@.subrange(0, i + 1 as int);
            assert(pre1.drop_last() =~= pre);
            assert(value(pre1) == value(pre) + x * w);
            assert(place((i + 1) as nat) == base() * w);
            assert(value(out@) + hi * place((i + 1) as nat) == value(pre1) * m) by (nonlinear_arith)
                requires
                    value(out@) == value(prev) + lo * w,
                    place((i + 1) as nat) == base() * w,
                    t == lo + hi * base(),
                    t == x * m + carry,
                    value(prev) + carry * w == value(pre) * m,
                    value(pre1) == value(pre) + x * w,
            ;
        }
        carry = hi;
        i = i + 1;
    }
    let ghost prev = out@;
    out.push(carry);
    proof {
        lemma_value_push(prev, carry);
        assert(a@.subrange(0, a@.len() as int) =~= a@);
    }
    out
}

/// `a` with zero limbs added on top, to `n` limbs.
fn padded(a: &Vec<u64>, n: usize) -> (r: Vec<u64>)
    ensures
        value(r@) == value(a@),
        r@.len() == if a@.len() < n {
            n as nat
        } else {
            a@.len()
        },
{
    let mut out: Vec<u64> = Vec::new();
    let mut i: usize = 0;
    while i < a.len()
        invariant
            i <= a@.len(),
            out@ == a@.subrange(0, i as int),
        decreases a@.len() - i,
    {
        out.push(a[i]);
        i = i + 1;
        assert(out@ =~= a@.subrange(0, i as int));
    }
    assert(a@.subrange(0, a@.len() as int) =~= a@);
    while out.len() < n
        invariant
            value(out@) == value(a@),
            out@.len() >= a@.len(),
            a@.len() >= n ==> out@.len() == a@.len(),
            out@.len() <= n || out@.len() == a@.len(),
        decreases n - out@.len(),
    {
        let ghost prev = out@;
        out.push(0);
        proof {
            lemma_value_push(prev, 0);
        }
    }
    out
}

/// `a + b`.
pub fn plus(a: &Vec<u64>, b: &Vec<u64>) -> (r: Vec<u64>)
    ensures
        value(r@) == value(a@) + value(b@),
{
    let n = if a.len() < b.len() {
        b.len()
    } else {
        a.len()
    };
    let x = padded(a, n);
    let y = padded(b, n);
    let mut out: Vec<u64> = Vec::new();
    let mut carry: u64 = 0;
    let mut i: usize = 0;
    while i < n
        invariant
            x@.len() == n,
            y@.len() == n,
            i <= n,
            out@.len() == i,
            carry <= 1,
            value(out@) + carry * place(i as nat) == value(x@.subrange(0, i as int)) + value(
                y@.subrange(0, i as int),
            ),
        decreases n - i,
    {
        let t: u128 = (x[i] as u128) + (y[i] as u128) + (carry as u128);
        let lo = (t % 0x1_0000_0000_0000_0000) as u64;
        let hi = (t / 0x1_0000_0000_0000_0000) as u64;
        let ghost prev = out@;
        let ghost w = place(i as nat);
        out.push(lo);
        proof {
            lemma_value_push(prev, lo);
            let px = x@.subrange(0, i as int);
            let py = y@.subrange(0, i as int);
            assert(x@.subrange(0, i + 1 as int).drop_last() =~= px);
            assert(y@.subrange(0, i + 1 as int).drop_last() =~= py);
            assert(place((i + 1) as nat) == base() * w);
            assert(value(out@) + hi * place((i + 1) as nat) == value(x@.subrange(0, i + 1 as int))
                + value(y@.subrange(0, i + 1 as int))) by (nonlinear_arith)
                requires
                    value(out@) == value(prev) + lo * w,
                    place((i + 1) as nat) == base() * w,
                    t == lo + hi * base(),
                    t == x@[i as int] + y@[i as int] + carry,
                    value(prev) + carry * w == value(px) + value(py),
                    value(x@.subrange(0, i + 1 as int)) == value(px) + x@[i as int] * w,
                    value(y@.subrange(0, i + 1 as int)) == value(py) + y@[i as int] * w,
            ;
        }
        carry = hi;
        i = i + 1;
    }
    let ghost prev = out@;
    out.push(carry);
    proof {
        lemma_value_push(prev, carry);
        assert(x@.subrange(0, n as int) =~= x@);
        assert(y@.subrange(0, n as int) =~= y@);
    }
    out
}

/// Limbs above `k` agree: the difference of the values is that of the parts up to `k`.
proof fn lemma_value_top_equal(a: Seq<u64>, b: Seq<u64>, k: int)
    requires
        a.len() == b.len(),
        0 <= k <= a.len(),
        forall|j: int| k <= j < a.len() ==> a[j] == b[j],
    ensures
        value(a) - value(b) == value(a.subrange(0, k)) - value(b.subrange(0, k)),
    decreases a.len() - k,
{
    if k < a.len() {
        let n = a.len() as int;
        assert(a.drop_last().len() == b.drop_last().len());
        lemma_value_top_equal(a.drop_last(), b.drop_last(), k);
        assert(a.drop_last().subrange(0, k) =~= a.subrange(0, k));
        assert(b.drop_last().subrange(0, k) =~= b.subrange(0, k));
    } else {
        assert(a.subrange(0, k) =~= a);
        assert(b.subrange(0, k) =~= b);
    }
}

/// Whether `a < b`.
pub fn less(a: &Vec<u64>, b: &Vec<u64>) -> (r: bool)
    ensures
        r == (value(a@) < value(b@)),
{
    let n = if a.len() < b.len() {
        b.len()
    } else {
        a.len()
    };
    let x = padded(a, n);
    let y = padded(b, n);
    let mut i: usize = n;
    while i > 0
        invariant
            x@.len() == n,
            y@.len() == n,
            i <= n,
            value(x@) == value(a@),
            value(y@) == value(b@),
            forall|j: int| i <= j < n ==> x@[j] == y@[j],
        decreases i,
    {
        if x[i - 1] != y[i - 1] {
            proof {
                let k = (i - 1) as int;
                lemma_value_top_equal(x@, y@, k + 1);
                let px = x@.subrange(0, k);
                let py = y@.subrange(0, k);
                assert(x@.subrange(0, k + 1).drop_last() =~= px);
                assert(y@.subrange(0, k + 1).drop_last() =~= py);
                lemma_value_bounds(px);
                lemma_value_bounds(py);
                let w = place(k as nat);
                let xk = x@[k] as int;
                let yk = y@[k] as int;
                assert(value(x@.subrange(0, k + 1)) == value(px) + xk * w);
                assert(value(y@.subrange(0, k + 1)) == value(py) + yk * w);
                if xk < yk {
                    assert(value(px) + xk * w < value(py) + yk * w) by (nonlinear_arith)
                        requires
                            0 <= value(px) < w,
                            0 <= value(py),
                            xk + 1 <= yk,
                    ;
                } else {
                    assert(value(py) + yk * w < value(px) + xk * w) by (nonlinear_arith)
                        requires
                            0 <= value(py) < w,
                            0 <= value(px),
                            yk + 1 <= xk,
                    ;
                }
            }
            return x[i - 1] < y[i - 1];
        }
        i = i - 1;
    }
    proof {
        lemma_value_top_equal(x@, y@, 0);
        assert(x@.subrange(0, 0) =~= Seq::<u64>::empty());
        assert(y@.subrange(0, 0) =~= Seq::<u64>::empty());
    }
    false
}

} // verus!
