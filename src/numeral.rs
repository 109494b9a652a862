//! Decimal numerals and the trimming of white space, as `str::trim` and the
//! integer `FromStr` impls read them.
use vstd::prelude::*;
use vstd::std_specs::iter::IteratorSpec;

verus! {

pub open spec fn is_digit(c: char) -> bool {
    '0' <= c && c <= '9'
}

/// Value of a sequence of decimal digits.
pub open spec fn digits_value(s: Seq<char>) -> int
    decreases s.len(),
{
    if s.len() == 0 {
        0
    } else {
        digits_value(s.drop_last()) * 10 + (s.last() as int - '0' as int)
    }
}

/// The digits of an unsigned decimal numeral: an optional `+`, then at least one digit.
pub open spec fn all_digits(s: Seq<char>) -> bool {
    forall|i: int| 0 <= i < s.len() ==> is_digit(#[trigger] s[i])
}

/// `s` without a leading `+`.
pub open spec fn unsigned_body(s: Seq<char>) -> Seq<char> {
    if s.len() > 0 && s[0] == '+' {
        s.drop_first()
    } else {
        s
    }
}

pub open spec fn unsigned_digits(s: Seq<char>) -> Option<Seq<char>> {
    let body = unsigned_body(s);
    if body.len() > 0 && all_digits(body) {
        Some(body)
    } else {
        None
    }
}

/// A signed numeral's value: an optional sign, then at least one digit.
pub open spec fn signed_value(s: Seq<char>) -> Option<int> {
    if s.len() > 0 && s[0] == '-' {
        let body = s.drop_first();
        if body.len() > 0 && all_digits(body) {
            Some(-digits_value(body))
        } else {
            None
        }
    } else {
        match unsigned_digits(s) {
            Some(d) => Some(digits_value(d)),
            None => None,
        }
    }
}

pub open spec fn min_int(a: int, b: int) -> int {
    if a < b {
        a
    } else {
        b
    }
}

proof fn lemma_digits_value_nonneg(s: Seq<char>)
    requires
        all_digits(s),
    ensures
        digits_value(s) >= 0,
    decreases s.len(),
{
    if s.len() > 0 {
        assert forall|i: int| 0 <= i < s.drop_last().len() implies is_digit(
            #[trigger] s.drop_last()[i],
        ) by {
            assert(s.drop_last()[i] == s[i]);
        }
        lemma_digits_value_nonneg(s.drop_last());
    }
}

/// The value of the digits `s[start..]`, capped at `cap`; `None` when that
/// part is empty or holds anything but ASCII digits.
pub fn capped_digits(s: &str, start: usize, cap: u64) -> (r: Option<u64>)
    requires
        start <= s@.len(),
        cap <= 0xffff_ffff_ffff,
    ensures
        ({
            let body = s@.subrange(start as int, s@.len() as int);
            if body.len() > 0 && all_digits(body) {
                r matches Some(v) && v == min_int(digits_value(body), cap as int)
            } else {
                r is None
            }
        }),
{
    let n = s.unicode_len();
    let ghost body = s@.subrange(start as int, n as int);
    if start >= n {
        return None;
    }
    let mut value: u64 = 0;
    let mut i: usize = start;
    while i < n
        invariant
            n == s@.len(),
            start < n,
            start <= i <= n,
            cap <= 0xffff_ffff_ffff,
            body == s@.subrange(start as int, n as int),
            forall|j: int| start <= j < i ==> is_digit(#[trigger] s@[j]),
            value == min_int(digits_value(s@.subrange(start as int, i as int)), cap as int),
        decreases n - i,
    {
        let c = s.get_char(i);
        if !('0' <= c && c <= '9') {
            assert(body[i - start] == s@[i as int]);
            assert(!is_digit(body[i - start]));
            return None;
        }
        let ghost prefix = s@.subrange(start as int, i as int);
        let ghost next = s@.subrange(start as int, i + 1 as int);
        assert(next.drop_last() =~= prefix);
        proof {
            assert forall|j: int| 0 <= j < prefix.len() implies is_digit(#[trigger] prefix[j]) by {
                assert(prefix[j] == s@[start + j]);
            }
            lemma_digits_value_nonneg(prefix);
        }
        let d = (c as u32 - 48) as u64;
        if value >= cap {
            value = cap;
        } else {
            value = value * 10 + d;
            if value > cap {
                value = cap;
            }
        }
        i = i + 1;
    }
    assert(forall|j: int| 0 <= j < body.len() ==> body[j] == s@[start + j]);
    Some(value)
}

/// The value of the unsigned numeral `s`, capped at `cap`; `None` when `s` is none.
pub fn capped_unsigned(s: &str, cap: u64) -> (r: Option<u64>)
    requires
        cap <= 0xffff_ffff_ffff,
    ensures
        match unsigned_digits(s@) {
            None => r is None,
            Some(d) => r matches Some(v) && v == min_int(digits_value(d), cap as int),
        },
{
    let n = s.unicode_len();
    let start: usize = if n > 0 && s.get_char(0) == '+' {
        1
    } else {
        0
    };
    assert(unsigned_body(s@) =~= s@.subrange(start as int, n as int));
    capped_digits(s, start, cap)
}

/// The value of the signed numeral `s` when it is an `i32`.
pub fn parse_i32(s: &str) -> (r: Option<i32>)
    ensures
        match signed_value(s@) {
            Some(v) => if i32::MIN <= v <= i32::MAX {
                r == Some(v as i32)
            } else {
                r is None
            },
            None => r is None,
        },
{
    let n = s.unicode_len();
    if n > 0 && s.get_char(0) == '-' {
        assert(s@.drop_first() =~= s@.subrange(1, n as int));
        match capped_digits(s, 1, 0x1_0000_0000) {
            None => None,
            Some(m) => if m <= 0x8000_0000 {
                Some((0 - (m as i64)) as i32)
            } else {
                None
            },
        }
    } else {
        match capped_unsigned(s, 0x1_0000_0000) {
            None => None,
            Some(m) => if m <= 0x7fff_ffff {
                Some(m as i32)
            } else {
                None
            },
        }
    }
}

/// White space as `char::is_whitespace` has it (the Unicode `White_Space` property).
pub open spec fn is_white(c: char) -> bool {
    let u = c as u32;
    (9 <= u <= 13) || u == 32 || u == 0x85 || u == 0xa0 || u == 0x1680 || (0x2000 <= u <= 0x200a)
        || u == 0x2028 || u == 0x2029 || u == 0x202f || u == 0x205f || u == 0x3000
}

pub open spec fn trim_front(s: Seq<char>) -> Seq<char>
    decreases s.len(),
{
    if s.len() > 0 && is_white(s[0]) {
        trim_front(s.drop_first())
    } else {
        s
    }
}

pub open spec fn trim_back(s: Seq<char>) -> Seq<char>
    decreases s.len(),
{
    if s.len() > 0 && is_white(s.last()) {
        trim_back(s.drop_last())
    } else {
        s
    }
}

/// `s` without leading and trailing white space.
pub open spec fn trimmed(s: Seq<char>) -> Seq<char> {
    trim_back(trim_front(s))
}

fn is_white_exec(c: char) -> (r: bool)
    ensures
        r == is_white(c),
{
    let u = c as u32;
    (9 <= u && u <= 13) || u == 32 || u == 0x85 || u == 0xa0 || u == 0x1680 || (0x2000 <= u && u
        <= 0x200a) || u == 0x2028 || u == 0x2029 || u == 0x202f || u == 0x205f || u == 0x3000
}

/// `s` without leading and trailing white space.
pub fn trim(s: &str) -> (r: &str)
    ensures
        r@ == trimmed(s@),
{
    let (a, b) = trimmed_bounds(s, true, ' ');
    s.substring_char(a, b)
}

/// The characters of `s`, in one pass.
pub fn chars_of(s: &str) -> (r: Vec<char>)
    ensures
        r@ == s@,
{
    broadcast use vstd::string::axiom_spec_iter, vstd::string::next_postcondition;

    let mut it = s.chars();
    let mut out: Vec<char> = Vec::new();
    loop
        invariant
            it.obeys_prophetic_iter_laws(),
            out@ + it.remaining() == s@,
        decreases s@.len() - out@.len(),
    {
        match it.next() {
            Some(c) => {
                out.push(c);
            },
            None => {
                assert(out@ =~= s@);
                return out;
            },
        }
        assert(out@ + it.remaining() =~= s@);
    }
}

/// Position of the first white space in `s` at or after `from`, or `s.len()`.
pub open spec fn white_from(s: Seq<char>, from: int) -> int
    decreases s.len() - from,
{
    if from >= s.len() {
        s.len() as int
    } else if is_white(s[from]) {
        from
    } else {
        white_from(s, from + 1)
    }
}

/// The first white-space-separated word of `s`, as `split_whitespace` yields it.
pub open spec fn first_word(s: Seq<char>) -> Option<Seq<char>> {
    let t = trim_front(s);
    if t.len() == 0 {
        None
    } else {
        Some(t.subrange(0, white_from(t, 0)))
    }
}

pub open spec fn strip_front(s: Seq<char>, c: char) -> Seq<char>
    decreases s.len(),
{
    if s.len() > 0 && s[0] == c {
        strip_front(s.drop_first(), c)
    } else {
        s
    }
}

pub open spec fn strip_back(s: Seq<char>, c: char) -> Seq<char>
    decreases s.len(),
{
    if s.len() > 0 && s.last() == c {
        strip_back(s.drop_last(), c)
    } else {
        s
    }
}

/// `s` without any leading or trailing `c`, as `trim_matches(c)` gives it.
pub open spec fn strip_char(s: Seq<char>, c: char) -> Seq<char> {
    strip_back(strip_front(s, c), c)
}

fn trimmable(x: char, white: bool, c: char) -> (r: bool)
    ensures
        r == (if white {
            is_white(x)
        } else {
            x == c
        }),
{
    if white {
        is_white_exec(x)
    } else {
        x == c
    }
}

/// Bounds `(a, b)` of `s` with a leading run of characters that satisfy
/// `white` (when `white`) or equal `c` (otherwise) skipped from the front, and
/// the same from the back.
fn trimmed_bounds(s: &str, white: bool, c: char) -> (r: (usize, usize))
    ensures
        r.0 <= r.1 <= s@.len(),
        white ==> s@.subrange(r.0 as int, r.1 as int) == trimmed(s@),
        !white ==> s@.subrange(r.0 as int, r.1 as int) == strip_char(s@, c),
{
    let n = s.unicode_len();
    let mut a: usize = 0;
    assert(s@.subrange(0, n as int) =~= s@);
    while a < n && trimmable(s.get_char(a), white, c)
        invariant
            n == s@.len(),
            a <= n,
            white ==> trim_front(s@) == trim_front(s@.subrange(a as int, n as int)),
            !white ==> strip_front(s@, c) == strip_front(s@.subrange(a as int, n as int), c),
        decreases n - a,
    {
        assert(s@.subrange(a as int, n as int).drop_first() =~= s@.subrange(a + 1, n as int));
        a = a + 1;
    }
    let ghost front = s@.subrange(a as int, n as int);
    assert(white ==> trim_front(s@) == front);
    assert(!white ==> strip_front(s@, c) == front);
    let mut b: usize = n;
    while b > a && trimmable(s.get_char(b - 1), white, c)
        invariant
            n == s@.len(),
            a <= b <= n,
            front == s@.subrange(a as int, n as int),
            white ==> trim_back(front) == trim_back(s@.subrange(a as int, b as int)),
            !white ==> strip_back(front, c) == strip_back(s@.subrange(a as int, b as int), c),
        decreases b,
    {
        assert(s@.subrange(a as int, b as int).drop_last() =~= s@.subrange(a as int, b - 1));
        b = b - 1;
    }
    (a, b)
}

/// `s` without any leading or trailing `c`.
pub fn strip_char_exec(s: &str, c: char) -> (r: &str)
    ensures
        r@ == strip_char(s@, c),
{
    let (a, b) = trimmed_bounds(s, false, c);
    s.substring_char(a, b)
}

/// The first white-space-separated word of `s`.
pub fn first_word_exec(s: &str) -> (r: Option<&str>)
    ensures
        match first_word(s@) {
            None => r is None,
            Some(w) => r matches Some(x) && x@ == w,
        },
{
    let n = s.unicode_len();
    let mut a: usize = 0;
    assert(s@.subrange(0, n as int) =~= s@);
    while a < n && is_white_exec(s.get_char(a))
        invariant
            n == s@.len(),
            a <= n,
            trim_front(s@) == trim_front(s@.subrange(a as int, n as int)),
        decreases n - a,
    {
        assert(s@.subrange(a as int, n as int).drop_first() =~= s@.subrange(a + 1, n as int));
        a = a + 1;
    }
    let ghost t = s@.subrange(a as int, n as int);
    assert(trim_front(s@) == t);
    if a == n {
        return None;
    }
    let mut b: usize = a;
    while b < n && !is_white_exec(s.get_char(b))
        invariant
            n == s@.len(),
            a <= b <= n,
            t == s@.subrange(a as int, n as int),
            white_from(t, 0) == white_from(t, b - a),
        decreases n - b,
    {
        b = b + 1;
    }
    assert(white_from(t, b - a) == b - a);
    assert(s@.subrange(a as int, b as int) =~= t.subrange(0, b - a));
    Some(s.substring_char(a, b))
}

} // verus!
