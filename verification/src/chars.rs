//! Character-level string helpers shared by the parsers: Unicode
//! whitespace and trimming, UTF-8 widths, and substring search over `char`
//! sequences.

use vstd::prelude::*;

verus! {

/// `x` capped at `usize::MAX`.
pub open spec fn sat_usize(x: int) -> int {
    if x > usize::MAX { usize::MAX as int } else { x }
}

/// Whether `c` has the Unicode `White_Space` property (what
/// `char::is_whitespace` tests).
pub open spec fn is_white_space(c: char) -> bool {
    let u = c as u32;
    ||| 0x09 <= u <= 0x0D
    ||| u == 0x20
    ||| u == 0x85
    ||| u == 0xA0
    ||| u == 0x1680
    ||| 0x2000 <= u <= 0x200A
    ||| u == 0x2028
    ||| u == 0x2029
    ||| u == 0x202F
    ||| u == 0x205F
    ||| u == 0x3000
}

pub fn white_space(c: char) -> (b: bool)
    ensures
        b == is_white_space(c),
{
    let u = c as u32;
    (0x09 <= u && u <= 0x0D) || u == 0x20 || u == 0x85 || u == 0xA0 || u == 0x1680 || (0x2000 <= u && u
        <= 0x200A) || u == 0x2028 || u == 0x2029 || u == 0x202F || u == 0x205F || u == 0x3000
}

/// Index of the first non-whitespace character at or after `i`.
pub open spec fn lead_end(s: Seq<char>, i: int) -> int
    decreases s.len() - i,
{
    if i >= s.len() {
        s.len() as int
    } else if is_white_space(s[i]) {
        lead_end(s, i + 1)
    } else {
        i
    }
}

/// One past the last non-whitespace character before `j`.
pub open spec fn trail_start(s: Seq<char>, j: int) -> int
    decreases j,
{
    if j <= 0 {
        0
    } else if is_white_space(s[j - 1]) {
        trail_start(s, j - 1)
    } else {
        j
    }
}

/// `s` without leading and trailing whitespace (`str::trim`).
pub open spec fn trim_ws(s: Seq<char>) -> Seq<char> {
    let a = lead_end(s, 0);
    let b = trail_start(s, s.len() as int);
    if a < b {
        s.subrange(a, b)
    } else {
        seq![]
    }
}

/// Bytes in the UTF-8 encoding of `c`.
pub open spec fn utf8_width(c: char) -> int {
    let u = c as u32;
    if u < 0x80 {
        1
    } else if u < 0x800 {
        2
    } else if u < 0x10000 {
        3
    } else {
        4
    }
}

/// Bytes in the UTF-8 encoding of `s`.
pub open spec fn utf8_len(s: Seq<char>) -> int
    decreases s.len(),
{
    if s.len() == 0 {
        0
    } else {
        utf8_len(s.drop_last()) + utf8_width(s.last())
    }
}

/// The first index at or after `i` where `q` occurs in `c`.
pub open spec fn find_from(c: Seq<char>, q: Seq<char>, i: int) -> Option<int>
    decreases c.len() - i,
{
    if i < 0 || i + q.len() > c.len() {
        None
    } else if q.len() == 0 || c.subrange(i, i + q.len()) == q {
        Some(i)
    } else {
        find_from(c, q, i + 1)
    }
}

pub fn utf8_char_width(c: char) -> (n: usize)
    ensures
        n == utf8_width(c),
{
    let u = c as u32;
    if u < 0x80 {
        1
    } else if u < 0x800 {
        2
    } else if u < 0x10000 {
        3
    } else {
        4
    }
}

pub fn trim_chars(cs: &Vec<char>) -> (t: Vec<char>)
    ensures
        t@ == trim_ws(cs@),
{
    let mut a: usize = 0;
    while a < cs.len() && white_space(cs[a])
        invariant
            a <= cs@.len(),
            lead_end(cs@, 0) == lead_end(cs@, a as int),
        decreases cs@.len() - a,
    {
        a = a + 1;
    }
    let mut b: usize = cs.len();
    while b > 0 && white_space(cs[b - 1])
        invariant
            b <= cs@.len(),
            trail_start(cs@, cs@.len() as int) == trail_start(cs@, b as int),
        decreases b,
    {
        b = b - 1;
    }
    let mut t: Vec<char> = Vec::new();
    if a < b {
        let mut k: usize = a;
        while k < b
            invariant
                a <= k <= b,
                b <= cs@.len(),
                t@ == cs@.subrange(a as int, k as int),
            decreases b - k,
        {
            t.push(cs[k]);
            proof {
                assert(t@ =~= cs@.subrange(a as int, k + 1));
            }
            k = k + 1;
        }
    }
    t
}

pub fn same_chars(x: &Vec<char>, y: &Vec<char>) -> (b: bool)
    ensures
        b == (x@ == y@),
{
    if x.len() != y.len() {
        return false;
    }
    let mut i: usize = 0;
    while i < x.len()
        invariant
            i <= x@.len(),
            x@.len() == y@.len(),
            x@.take(i as int) == y@.take(i as int),
        decreases x@.len() - i,
    {
        if x[i] != y[i] {
            return false;
        }
        proof {
            assert(x@.take(i + 1) =~= x@.take(i as int).push(x@[i as int]));
            assert(y@.take(i + 1) =~= y@.take(i as int).push(y@[i as int]));
        }
        i = i + 1;
    }
    proof {
        assert(x@ =~= x@.take(i as int));
        assert(y@ =~= y@.take(i as int));
    }
    true
}

/// Whether `q` occurs in `c` at `i`.
pub fn occurs_at(c: &Vec<char>, q: &Vec<char>, i: usize) -> (b: bool)
    requires
        i + q@.len() <= c@.len(),
    ensures
        b == (c@.subrange(i as int, i + q@.len()) == q@),
{
    let mut k: usize = 0;
    while k < q.len()
        invariant
            k <= q@.len(),
            i + q@.len() <= c@.len(),
            i + k <= c.len(),
            c@.subrange(i as int, i + k) == q@.take(k as int),
        decreases q@.len() - k,
    {
        if c[i + k] != q[k] {
            proof {
                assert(c@.subrange(i as int, i + q@.len())[k as int] != q@[k as int]);
            }
            return false;
        }
        proof {
            assert(c@.subrange(i as int, i + k + 1) =~= c@.subrange(i as int, i + k).push(c@[i + k]));
            assert(q@.take(k + 1) =~= q@.take(k as int).push(q@[k as int]));
        }
        k = k + 1;
    }
    proof {
        assert(q@ =~= q@.take(k as int));
    }
    true
}

pub proof fn lemma_find_from_none(c: Seq<char>, q: Seq<char>, i: int)
    requires
        i >= 0,
        i + q.len() > c.len(),
    ensures
        find_from(c, q, i).is_none(),
{
}

pub proof fn lemma_utf8_len_nonneg(s: Seq<char>)
    ensures
        utf8_len(s) >= 0,
    decreases s.len(),
{
    if s.len() > 0 {
        lemma_utf8_len_nonneg(s.drop_last());
    }
}

/// A found occurrence lies inside `c`, matches `q`, and is the first at or
/// after `i`.
pub proof fn lemma_find_from_found(c: Seq<char>, q: Seq<char>, i: int)
    requires
        i >= 0,
    ensures
        find_from(c, q, i) matches Some(j) ==> i <= j && j + q.len() <= c.len() && c.subrange(j, j + q.len()) == q,
    decreases c.len() - i,
{
    if i + q.len() <= c.len() && !(q.len() == 0 || c.subrange(i, i + q.len()) == q) {
        lemma_find_from_found(c, q, i + 1);
    }
    if q.len() == 0 && i <= c.len() {
        assert(c.subrange(i, i) =~= q);
    }
}


/// The first index at or after `i` where `q` occurs in `c`.
pub fn find_chars(c: &Vec<char>, q: &Vec<char>, i: usize) -> (r: Option<usize>)
    ensures
        match find_from(c@, q@, i as int) {
            Some(j) => r == Some(j as usize),
            None => r is None,
        },
{
    if q.len() > c.len() || i > c.len() - q.len() {
        proof {
            lemma_find_from_none(c@, q@, i as int);
        }
        return None;
    }
    let mut k = i;
    while k <= c.len() - q.len()
        invariant
            i <= k,
            q@.len() <= c@.len(),
            find_from(c@, q@, i as int) == find_from(c@, q@, k as int),
        decreases c@.len() - k,
    {
        if q.len() == 0 || occurs_at(c, q, k) {
            return Some(k);
        }
        k = k + 1;
    }
    proof {
        lemma_find_from_none(c@, q@, k as int);
    }
    None
}

/// The characters `c[a..b]` as a string.
pub fn sub_string(c: &Vec<char>, a: usize, b: usize) -> (s: String)
    requires
        a <= b <= c@.len(),
    ensures
        s@ == c@.subrange(a as int, b as int),
{
    let mut s = String::new();
    let mut k = a;
    while k < b
        invariant
            a <= k <= b,
            b <= c@.len(),
            s@ == c@.subrange(a as int, k as int),
        decreases b - k,
    {
        crate::graphemes::push_char(&mut s, c[k]);
        proof {
            assert(s@ =~= c@.subrange(a as int, k + 1));
        }
        k = k + 1;
    }
    s
}

} // verus!
