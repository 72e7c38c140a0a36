//! Character-level helpers: conversion between strings and character
//! vectors, whitespace, trimming and the two-space field separator.
use vstd::prelude::*;

verus! {

/// Unicode `White_Space`, the set that `str::trim` removes.
pub open spec fn is_ws(c: char) -> bool {
    ||| c == ' '
    ||| ('\t' <= c && c <= '\r')
    ||| c == '\u{85}'
    ||| c == '\u{A0}'
    ||| c == '\u{1680}'
    ||| ('\u{2000}' <= c && c <= '\u{200A}')
    ||| c == '\u{2028}'
    ||| c == '\u{2029}'
    ||| c == '\u{202F}'
    ||| c == '\u{205F}'
    ||| c == '\u{3000}'
}

pub fn is_whitespace(c: char) -> (r: bool)
    ensures
        r == is_ws(c),
{
    c == ' ' || ('\t' <= c && c <= '\r') || c == '\u{85}' || c == '\u{A0}' || c == '\u{1680}'
        || ('\u{2000}' <= c && c <= '\u{200A}') || c == '\u{2028}' || c == '\u{2029}'
        || c == '\u{202F}' || c == '\u{205F}' || c == '\u{3000}'
}

/// The characters of a string slice, in order.
pub fn chars_of(s: &str) -> (r: Vec<char>)
    ensures
        r@ == s@,
{
    let mut r: Vec<char> = Vec::new();
    for c in it: s.chars()
        invariant
            r@ == it.seq().take(it.index() as int),
    {
        r.push(c);
    }
    r
}

} // verus!

verus! {

/// Relies on `String::push`: appends one character at the end.
#[verifier::external_body]
fn push_char(s: &mut String, c: char)
    ensures
        final(s)@ == old(s)@.push(c),
{
    s.push(c);
}

/// A string holding exactly the given characters.
pub fn string_of(cs: &Vec<char>) -> (r: String)
    ensures
        r@ == cs@,
{
    let mut r = String::new();
    let mut i: usize = 0;
    while i < cs.len()
        invariant
            i <= cs.len(),
            r@ == cs@.take(i as int),
        decreases cs.len() - i,
    {
        push_char(&mut r, cs[i]);
        i += 1;
        assert(r@ =~= cs@.take(i as int));
    }
    assert(cs@.take(i as int) =~= cs@);
    r
}

/// `s` with leading whitespace removed.
pub open spec fn trim_start(s: Seq<char>) -> Seq<char>
    decreases s.len(),
{
    if s.len() > 0 && is_ws(s[0]) {
        trim_start(s.drop_first())
    } else {
        s
    }
}

/// `s` with trailing whitespace removed.
pub open spec fn trim_end(s: Seq<char>) -> Seq<char>
    decreases s.len(),
{
    if s.len() > 0 && is_ws(s.last()) {
        trim_end(s.drop_last())
    } else {
        s
    }
}

/// `s` with whitespace removed at both ends.
pub open spec fn trim(s: Seq<char>) -> Seq<char> {
    trim_end(trim_start(s))
}

/// The bounds of `s[lo..hi]` once trimmed.
pub fn trim_bounds(s: &Vec<char>, lo: usize, hi: usize) -> (r: (usize, usize))
    requires
        lo <= hi <= s.len(),
    ensures
        lo <= r.0 <= r.1 <= hi,
        s@.subrange(r.0 as int, r.1 as int) == trim(s@.subrange(lo as int, hi as int)),
{
    let mut a = lo;
    while a < hi && is_whitespace(s[a])
        invariant
            lo <= a <= hi <= s.len(),
            trim_start(s@.subrange(lo as int, hi as int)) == trim_start(
                s@.subrange(a as int, hi as int),
            ),
        decreases hi - a,
    {
        assert(s@.subrange(a as int, hi as int).drop_first() =~= s@.subrange(
            a + 1,
            hi as int,
        ));
        a += 1;
    }
    let mut b = hi;
    while b > a && is_whitespace(s[b - 1])
        invariant
            lo <= a <= b <= hi <= s.len(),
            trim_end(s@.subrange(a as int, hi as int)) == trim_end(
                s@.subrange(a as int, b as int),
            ),
        decreases b - a,
    {
        assert(s@.subrange(a as int, b as int).drop_last() =~= s@.subrange(
            a as int,
            b - 1,
        ));
        b -= 1;
    }
    (a, b)
}

/// A two-space field separator starts at index `i` of `s`.
pub open spec fn sep_at(s: Seq<char>, i: int) -> bool {
    0 <= i && i + 1 < s.len() && s[i] == ' ' && s[i + 1] == ' '
}

pub open spec fn has_sep(s: Seq<char>) -> bool {
    exists|i: int| sep_at(s, i)
}

pub open spec fn is_first_sep(s: Seq<char>, i: int) -> bool {
    sep_at(s, i) && forall|j: int| 0 <= j < i ==> !sep_at(s, j)
}

pub open spec fn is_last_sep(s: Seq<char>, i: int) -> bool {
    sep_at(s, i) && forall|j: int| i < j ==> !sep_at(s, j)
}

/// Index of the leftmost separator.
pub open spec fn first_sep(s: Seq<char>) -> int {
    choose|i: int| is_first_sep(s, i)
}

/// Index of the rightmost separator.
pub open spec fn last_sep(s: Seq<char>) -> int {
    choose|i: int| is_last_sep(s, i)
}

pub proof fn lemma_first_sep(s: Seq<char>, i: int)
    requires
        is_first_sep(s, i),
    ensures
        first_sep(s) == i,
{
    let f = first_sep(s);
    assert(is_first_sep(s, f));
    if f < i {
        assert(!sep_at(s, f));
    } else if i < f {
        assert(!sep_at(s, i));
    }
}

pub proof fn lemma_last_sep(s: Seq<char>, i: int)
    requires
        is_last_sep(s, i),
    ensures
        last_sep(s) == i,
{
    let l = last_sep(s);
    assert(is_last_sep(s, l));
    if l < i {
        assert(!sep_at(s, i));
    } else if i < l {
        assert(!sep_at(s, l));
    }
}

/// The leftmost and rightmost separators of `s`, if it has any.
pub fn find_seps(s: &Vec<char>) -> (r: Option<(usize, usize)>)
    ensures
        r is None <==> !has_sep(s@),
        r matches Some((f, l)) ==> f == first_sep(s@) && l == last_sep(s@) && f <= l && l + 2
            <= s.len(),
{
    let n = s.len();
    let mut f: usize = 0;
    while f < n && f + 1 < n && !(s[f] == ' ' && s[f + 1] == ' ')
        invariant
            n == s.len(),
            f <= n,
            forall|j: int| 0 <= j < f ==> !sep_at(s@, j),
        decreases n - f,
    {
        f += 1;
    }
    if f >= n || f + 1 >= n {
        assert forall|j: int| !sep_at(s@, j) by {
            if 0 <= j < f {
            }
        }
        return None;
    }
    assert(is_first_sep(s@, f as int));
    proof {
        lemma_first_sep(s@, f as int);
    }
    let mut l: usize = n - 2;
    while !(s[l] == ' ' && s[l + 1] == ' ')
        invariant
            n == s.len(),
            f <= l,
            l + 2 <= n,
            sep_at(s@, f as int),
            forall|j: int| l < j ==> !sep_at(s@, j),
        decreases l,
    {
        if l == f {
            assert(false);
        }
        l -= 1;
    }
    assert(is_last_sep(s@, l as int));
    proof {
        lemma_last_sep(s@, l as int);
    }
    Some((f, l))
}

} // verus!
