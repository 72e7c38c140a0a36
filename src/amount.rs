//! Money amounts: signed integers counted in cents, read from and written
//! to decimal text with exact integer arithmetic.
use vstd::prelude::*;
use crate::text::is_ws;

verus! {

pub open spec fn is_digit(c: char) -> bool {
    '0' <= c && c <= '9'
}

pub open spec fn digit_val(c: char) -> int {
    c as int - '0' as int
}

pub open spec fn all_digits(s: Seq<char>) -> bool {
    forall|i: int| 0 <= i < s.len() ==> is_digit(#[trigger] s[i])
}

/// The number that a string of decimal digits denotes.
pub open spec fn digits_value(s: Seq<char>) -> nat
    decreases s.len(),
{
    if s.len() == 0 {
        0
    } else {
        (digits_value(s.drop_last()) * 10 + digit_val(s.last())) as nat
    }
}

/// Whether the text starts with a sign, and the text after it.
pub open spec fn sign_split(s: Seq<char>) -> (bool, Seq<char>) {
    if s.len() > 0 && (s[0] == '-' || s[0] == '+') {
        (s[0] == '-', s.drop_first())
    } else {
        (false, s)
    }
}

pub open spec fn signed(neg: bool, m: int) -> int {
    if neg {
        -m
    } else {
        m
    }
}

pub open spec fn in_i64(v: int) -> bool {
    i64::MIN <= v <= i64::MAX
}

/// An optionally signed integer written in decimal digits, such as `-250`.
pub open spec fn integer_text_value(s: Seq<char>) -> Option<int> {
    let (neg, body) = sign_split(s);
    if body.len() > 0 && all_digits(body) {
        Some(signed(neg, digits_value(body) as int))
    } else {
        None
    }
}

/// Index of a decimal point in `s`.
pub open spec fn dot_index(s: Seq<char>) -> int {
    choose|p: int| 0 <= p < s.len() && s[p] == '.'
}

pub open spec fn has_dot(s: Seq<char>) -> bool {
    exists|p: int| 0 <= p < s.len() && s[p] == '.'
}

/// Whole part and fractional part of an unsigned decimal.
#[verifier::opaque]
pub open spec fn decimal_parts(body: Seq<char>) -> (Seq<char>, Seq<char>) {
    if has_dot(body) {
        let p = dot_index(body);
        (body.take(p), body.skip(p + 1))
    } else {
        (body, Seq::empty())
    }
}

pub open spec fn frac_digit(f: Seq<char>, i: int) -> int {
    if i < f.len() {
        digit_val(f[i])
    } else {
        0
    }
}

/// Cents of a fraction's digits, rounded half away from zero.
pub open spec fn frac_cents(f: Seq<char>) -> int {
    frac_digit(f, 0) * 10 + frac_digit(f, 1) + if f.len() > 2 && f[2] >= '5' {
        1int
    } else {
        0int
    }
}

/// A decimal amount such as `-12.345`, in cents rounded to the nearest
/// cent, half away from zero.
pub open spec fn decimal_text_cents(s: Seq<char>) -> Option<int> {
    let (neg, body) = sign_split(s);
    let (w, f) = decimal_parts(body);
    if all_digits(w) && all_digits(f) && w.len() + f.len() > 0 {
        Some(signed(neg, digits_value(w) * 100 + frac_cents(f)))
    } else {
        None
    }
}

proof fn lemma_digits_value_take(s: Seq<char>, j: int, k: int)
    requires
        0 <= j <= k <= s.len(),
        all_digits(s),
    ensures
        digits_value(s.take(j)) <= digits_value(s.take(k)),
    decreases k - j,
{
    if j < k {
        lemma_digits_value_take(s, j, k - 1);
        assert(s.take(k).drop_last() =~= s.take(k - 1));
        assert(is_digit(s[k - 1]));
    }
}

/// The value of the digits `s[lo..hi]`, if it fits in a `u64`.
fn digits_u64(s: &Vec<char>, lo: usize, hi: usize) -> (r: Option<u64>)
    requires
        lo <= hi <= s.len(),
        all_digits(s@.subrange(lo as int, hi as int)),
    ensures
        r is Some <==> digits_value(s@.subrange(lo as int, hi as int)) <= u64::MAX,
        r matches Some(v) ==> v == digits_value(s@.subrange(lo as int, hi as int)),
{
    let ghost d = s@.subrange(lo as int, hi as int);
    let mut acc: u64 = 0;
    let mut i = lo;
    while i < hi
        invariant
            lo <= i <= hi <= s.len(),
            d == s@.subrange(lo as int, hi as int),
            all_digits(d),
            acc == digits_value(d.take(i - lo)),
        decreases hi - i,
    {
        assert(is_digit(d[i - lo]));
        let c = s[i];
        let dv = (c as u32 - '0' as u32) as u64;
        assert(d.take(i - lo + 1).drop_last() =~= d.take(i - lo));
        if acc > (u64::MAX - dv) / 10 {
            proof {
                lemma_digits_value_take(d, i - lo + 1, d.len() as int);
                assert(d.take(d.len() as int) =~= d);
            }
            return None;
        }
        acc = acc * 10 + dv;
        i += 1;
    }
    assert(d.take(i - lo) =~= d);
    Some(acc)
}

/// The signed value `neg ? -m : m`, if it fits in an `i64`.
fn signed_i64(neg: bool, m: u64) -> (r: Option<i64>)
    ensures
        r is Some <==> in_i64(signed(neg, m as int)),
        r matches Some(v) ==> v == signed(neg, m as int),
{
    if m <= i64::MAX as u64 {
        if neg {
            Some(-(m as i64))
        } else {
            Some(m as i64)
        }
    } else if neg && m == 9223372036854775808u64 {
        Some(i64::MIN)
    } else {
        None
    }
}

fn all_digits_in(s: &Vec<char>, lo: usize, hi: usize) -> (r: bool)
    requires
        lo <= hi <= s.len(),
    ensures
        r == all_digits(s@.subrange(lo as int, hi as int)),
{
    let mut i = lo;
    while i < hi
        invariant
            lo <= i <= hi <= s.len(),
            all_digits(s@.subrange(lo as int, i as int)),
        decreases hi - i,
    {
        if !('0' <= s[i] && s[i] <= '9') {
            assert(!is_digit(s@.subrange(lo as int, hi as int)[i - lo]));
            return false;
        }
        assert forall|k: int| 0 <= k < i + 1 - lo implies is_digit(
            #[trigger] s@.subrange(lo as int, i + 1)[k],
        ) by {
            if k < i - lo {
                assert(s@.subrange(lo as int, i + 1)[k] == s@.subrange(lo as int, i as int)[k]);
            }
        }
        i += 1;
    }
    true
}

/// Reads an optionally signed decimal integer, such as `-2550`.
pub fn parse_integer(s: &Vec<char>) -> (r: Option<i64>)
    ensures
        r is Some <==> (integer_text_value(s@) matches Some(v) && in_i64(v)),
        r matches Some(v) ==> integer_text_value(s@) == Some(v as int),
{
    let n = s.len();
    let neg = n > 0 && s[0] == '-';
    let start: usize = if n > 0 && (s[0] == '-' || s[0] == '+') {
        1
    } else {
        0
    };
    assert(sign_split(s@).1 =~= s@.subrange(start as int, n as int));
    if start == n || !all_digits_in(s, start, n) {
        return None;
    }
    match digits_u64(s, start, n) {
        None => None,
        Some(m) => signed_i64(neg, m),
    }
}

/// Digit `k` of the fraction `s[lo..hi]`, zero past its end.
fn frac_digit_at(s: &Vec<char>, lo: usize, k: usize, hi: usize) -> (r: u64)
    requires
        lo <= hi <= s.len(),
        all_digits(s@.subrange(lo as int, hi as int)),
    ensures
        r == frac_digit(s@.subrange(lo as int, hi as int), k as int),
{
    if k < hi - lo {
        assert(is_digit(s@.subrange(lo as int, hi as int)[k as int]));
        (s[lo + k] as u32 - '0' as u32) as u64
    } else {
        0
    }
}

proof fn lemma_decimal_split(s: Seq<char>, start: int, p: int, ok: bool)
    requires
        0 <= start <= p <= s.len(),
        forall|q: int| start <= q < p ==> s[q] != '.',
        p < s.len() ==> s[p] == '.',
        ok == (all_digits(s.subrange(start, if p < s.len() { p } else { s.len() as int }))
            && all_digits(s.subrange(if p < s.len() { p + 1 } else { s.len() as int }, s.len() as int))),
    ensures
        ok ==> decimal_parts(s.subrange(start, s.len() as int)) == (
            s.subrange(start, if p < s.len() { p } else { s.len() as int }),
            s.subrange(if p < s.len() { p + 1 } else { s.len() as int }, s.len() as int),
        ),
        !ok ==> !(all_digits(decimal_parts(s.subrange(start, s.len() as int)).0)
            && all_digits(decimal_parts(s.subrange(start, s.len() as int)).1)),
{
    let n = s.len() as int;
    let body = s.subrange(start, n);
    let wend = if p < n { p } else { n };
    let fstart = if p < n { p + 1 } else { n };
    let w = s.subrange(start, wend);
    let f = s.subrange(fstart, n);
    reveal(decimal_parts);
    if p < n {
        assert(body[p - start] == '.');
        assert(has_dot(body));
        let q = dot_index(body);
        assert(0 <= q < body.len() && body[q] == '.');
        if ok {
            if q > p - start {
                assert(f[q - (p - start) - 1] == body[q]);
                assert(is_digit(f[q - (p - start) - 1]));
            }
            assert(q == p - start);
            assert(body.take(q) =~= w);
            assert(body.skip(q + 1) =~= f);
        } else if q != p - start {
            assert(q > p - start);
            assert(body.take(q)[p - start] == '.');
            assert(!is_digit(body.take(q)[p - start]));
        } else {
            assert(body.take(q) =~= w);
            assert(body.skip(q + 1) =~= f);
        }
    } else {
        assert(!has_dot(body));
        assert(w =~= body);
        assert(f =~= Seq::<char>::empty());
        assert(decimal_parts(body) == (w, f));
    }
}

/// Reads a decimal amount such as `12.345` or `-.5` as cents, rounded to
/// the nearest cent, half away from zero.
#[verifier::rlimit(40)]
pub fn parse_decimal_cents(s: &Vec<char>) -> (r: Option<i64>)
    ensures
        r is Some <==> (decimal_text_cents(s@) matches Some(v) && in_i64(v)),
        r matches Some(v) ==> decimal_text_cents(s@) == Some(v as int),
{
    let n = s.len();
    let neg = n > 0 && s[0] == '-';
    let start: usize = if n > 0 && (s[0] == '-' || s[0] == '+') {
        1
    } else {
        0
    };
    let ghost body = s@.subrange(start as int, n as int);
    assert(sign_split(s@).1 =~= body);
    let mut p = start;
    while p < n && s[p] != '.'
        invariant
            start <= p <= n == s.len(),
            forall|q: int| start <= q < p ==> s@[q] != '.',
        decreases n - p,
    {
        p += 1;
    }
    let (wend, fstart) = if p < n {
        (p, p + 1)
    } else {
        (n, n)
    };
    let ghost w = s@.subrange(start as int, wend as int);
    let ghost f = s@.subrange(fstart as int, n as int);
    let ok = all_digits_in(s, start, wend) && all_digits_in(s, fstart, n);
    proof {
        lemma_decimal_split(s@, start as int, p as int, ok);
    }
    if !ok || (start == wend && fstart == n) {
        assert(decimal_text_cents(s@) is None);
        return None;
    }
    assert(decimal_parts(body) == (w, f));
    let whole = match digits_u64(s, start, wend) {
        None => {
            assert(digits_value(w) * 100 + frac_cents(f) > i64::MAX + 1);
            return None;
        },
        Some(v) => v,
    };
    let d0 = frac_digit_at(s, fstart, 0, n);
    let d1 = frac_digit_at(s, fstart, 1, n);
    let up: u64 = if n - fstart > 2 && s[fstart + 2] >= '5' {
        1
    } else {
        0
    };
    let fc = d0 * 10 + d1 + up;
    assert(fc == frac_cents(f));
    if whole > (u64::MAX - fc) / 100 {
        assert(digits_value(w) * 100 + frac_cents(f) > i64::MAX + 1) by (nonlinear_arith)
            requires
                whole == digits_value(w),
                whole > (u64::MAX - fc) / 100,
                fc == frac_cents(f),
                fc <= 100,
        ;
        return None;
    }
    signed_i64(neg, whole * 100 + fc)
}

/// The character of a decimal digit `d < 10`.
pub open spec fn digit_char(d: int) -> char {
    if d == 0 { '0' }
    else if d == 1 { '1' }
    else if d == 2 { '2' }
    else if d == 3 { '3' }
    else if d == 4 { '4' }
    else if d == 5 { '5' }
    else if d == 6 { '6' }
    else if d == 7 { '7' }
    else if d == 8 { '8' }
    else { '9' }
}

/// The decimal digits of `n`, without leading zeros.
pub open spec fn nat_digits(n: nat) -> Seq<char>
    decreases n,
{
    if n < 10 {
        seq![digit_char(n as int)]
    } else {
        nat_digits(n / 10).push(digit_char((n % 10) as int))
    }
}

pub open spec fn abs(v: int) -> nat {
    if v < 0 {
        (-v) as nat
    } else {
        v as nat
    }
}

/// An amount of cents as text with exactly two decimals: `-12.30`.
pub open spec fn cents_text(v: int) -> Seq<char> {
    let a = abs(v);
    let sign = if v < 0 {
        seq!['-']
    } else {
        Seq::empty()
    };
    sign + nat_digits(a / 100) + seq!['.', digit_char((a % 100 / 10) as int), digit_char((a % 10) as int)]
}

pub fn digit_char_of(d: u64) -> (c: char)
    requires
        d < 10,
    ensures
        c == digit_char(d as int),
{
    if d == 0 { '0' }
    else if d == 1 { '1' }
    else if d == 2 { '2' }
    else if d == 3 { '3' }
    else if d == 4 { '4' }
    else if d == 5 { '5' }
    else if d == 6 { '6' }
    else if d == 7 { '7' }
    else if d == 8 { '8' }
    else { '9' }
}

pub fn push_nat_digits(out: &mut Vec<char>, n: u64)
    ensures
        final(out)@ == old(out)@ + nat_digits(n as nat),
    decreases n,
{
    if n >= 10 {
        push_nat_digits(out, n / 10);
    }
    out.push(digit_char_of(n % 10));
    assert(final(out)@ =~= old(out)@ + nat_digits(n as nat));
}

/// Writes an amount of cents with exactly two decimals, such as `-12.30`.
pub fn format_cents(v: i64) -> (r: Vec<char>)
    ensures
        r@ == cents_text(v as int),
{
    let a: u64 = if v < 0 {
        (-(v as i128)) as u64
    } else {
        v as u64
    };
    let mut r: Vec<char> = Vec::new();
    if v < 0 {
        r.push('-');
    }
    push_nat_digits(&mut r, a / 100);
    r.push('.');
    r.push(digit_char_of(a % 100 / 10));
    r.push(digit_char_of(a % 10));
    assert(r@ =~= cents_text(v as int));
    r
}

proof fn lemma_digit_char(d: int)
    requires
        0 <= d < 10,
    ensures
        is_digit(digit_char(d)),
        digit_val(digit_char(d)) == d,
{
}

proof fn lemma_nat_digits(n: nat)
    ensures
        all_digits(nat_digits(n)),
        nat_digits(n).len() > 0,
        digits_value(nat_digits(n)) == n,
        !is_ws(nat_digits(n)[0]) && !is_ws(nat_digits(n).last()),
    decreases n,
{
    lemma_digit_char((n % 10) as int);
    if n < 10 {
        assert(nat_digits(n).drop_last() =~= Seq::<char>::empty());
        assert(digits_value(Seq::<char>::empty()) == 0);
        assert(digits_value(nat_digits(n)) == digits_value(nat_digits(n).drop_last()) * 10
            + digit_val(nat_digits(n).last()));
    } else {
        lemma_nat_digits(n / 10);
        let d = nat_digits(n);
        assert(d.drop_last() =~= nat_digits(n / 10));
        assert(n == (n / 10) * 10 + n % 10);
        assert(d.last() == digit_char((n % 10) as int));
        assert(digits_value(d) == digits_value(d.drop_last()) * 10 + digit_val(d.last()));
        assert forall|i: int| 0 <= i < d.len() implies is_digit(#[trigger] d[i]) by {
            if i < d.len() - 1 {
                assert(d[i] == nat_digits(n / 10)[i]);
            }
        }
    }
}

/// Reading back the text of an amount gives the amount.
pub proof fn lemma_cents_text_round_trip(v: int)
    ensures
        decimal_text_cents(cents_text(v)) == Some(v),
        cents_text(v).len() > 0,
        !is_ws(cents_text(v)[0]) && !is_ws(cents_text(v).last()),
        forall|i: int| 0 <= i < cents_text(v).len() ==> #[trigger] cents_text(v)[i] != ' '
            && cents_text(v)[i] != '$',
{
    let a = abs(v);
    let t = cents_text(v);
    let w = nat_digits(a / 100);
    let f = seq![digit_char((a % 100 / 10) as int), digit_char((a % 10) as int)];
    let body = w + seq!['.'] + f;
    lemma_nat_digits(a / 100);
    if v < 0 {
        assert(t =~= seq!['-'] + body);
        assert(sign_split(t).1 =~= body);
    } else {
        assert(t =~= body);
        assert(is_digit(w[0]));
    }
    assert(sign_split(t) == (v < 0, body));
    reveal(decimal_parts);
    let p = w.len() as int;
    assert(body[p] == '.');
    assert(has_dot(body));
    let q = dot_index(body);
    if q < p {
        assert(body[q] == w[q]);
        assert(is_digit(w[q]));
    }
    if q > p {
        assert(body[q] == f[q - p - 1]);
    }
    assert(q == p);
    assert(body.take(q) =~= w);
    assert(body.skip(q + 1) =~= f);
    assert(all_digits(f));
    assert(frac_cents(f) == a % 100);
    assert(digits_value(w) * 100 + frac_cents(f) == a);
    assert forall|i: int| 0 <= i < t.len() implies #[trigger] t[i] != ' ' && t[i] != '$' by {
        if v < 0 {
            if i > 0 {
                assert(t[i] == body[i - 1]);
                if i - 1 < p {
                    assert(is_digit(w[i - 1]));
                }
            }
        } else {
            if i < p {
                assert(is_digit(w[i]));
            }
        }
    }
}

} // verus!
