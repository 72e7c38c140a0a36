//! Line items: one posting of an amount of cents to an account, on the real
//! or on the virtual ledger, with its one-line text form.
use vstd::prelude::*;
use crate::amount::{
    cents_text, decimal_text_cents, format_cents, in_i64, integer_text_value,
    lemma_cents_text_round_trip, parse_decimal_cents, parse_integer,
};
use crate::text::{
    chars_of, find_seps, first_sep, has_sep, is_first_sep, is_last_sep, is_ws, last_sep,
    lemma_first_sep, lemma_last_sep, sep_at, string_of, trim, trim_bounds,
    trim_start,
};

verus! {

/// A posting: `value` cents to `account`. A virtual posting (`is_real`
/// false) is written with the account in square brackets; the brackets are
/// never part of `account`.
#[derive(Debug)]
pub struct LineItem {
    pub account: String,
    pub value: i64,
    pub is_real: bool,
}

/// The mathematical content of a [`LineItem`].
pub struct LineItemView {
    pub account: Seq<char>,
    pub value: int,
    pub is_real: bool,
}

impl View for LineItem {
    type V = LineItemView;

    open spec fn view(&self) -> LineItemView {
        LineItemView { account: self.account@, value: self.value as int, is_real: self.is_real }
    }
}

#[derive(Debug, Clone, Copy, PartialEq, Eq, Structural)]
pub enum LineItemBuilderError {
    MissingAccount,
    MissingValue,
    MissingIsReal,
}

/// Collects the three fields of a [`LineItem`] in any order.
#[derive(Debug)]
pub struct LineItemBuilder {
    account: Option<String>,
    value: Option<i64>,
    is_real: Option<bool>,
}

impl LineItemBuilder {
    pub closed spec fn account_spec(&self) -> Option<Seq<char>> {
        match self.account {
            Some(a) => Some(a@),
            None => None,
        }
    }

    pub closed spec fn value_spec(&self) -> Option<i64> {
        self.value
    }

    pub closed spec fn is_real_spec(&self) -> Option<bool> {
        self.is_real
    }

    pub fn new() -> (r: Self)
        ensures
            r.account_spec() is None,
            r.value_spec() is None,
            r.is_real_spec() is None,
    {
        LineItemBuilder { account: None, value: None, is_real: None }
    }

    pub fn account(self, name: &str) -> (r: Self)
        ensures
            r.account_spec() == Some(name@),
            r.value_spec() == self.value_spec(),
            r.is_real_spec() == self.is_real_spec(),
    {
        LineItemBuilder { account: Some(String::from_str(name)), ..self }
    }

    pub fn value(self, value: i64) -> (r: Self)
        ensures
            r.account_spec() == self.account_spec(),
            r.value_spec() == Some(value),
            r.is_real_spec() == self.is_real_spec(),
    {
        LineItemBuilder { value: Some(value), ..self }
    }

    pub fn is_real(self, is_real: bool) -> (r: Self)
        ensures
            r.account_spec() == self.account_spec(),
            r.value_spec() == self.value_spec(),
            r.is_real_spec() == Some(is_real),
    {
        LineItemBuilder { is_real: Some(is_real), ..self }
    }

    /// The item, or the first field that was never set (account, then
    /// value, then reality).
    pub fn try_build(self) -> (r: Result<LineItem, LineItemBuilderError>)
        ensures
            self.account_spec() is None ==> r == Err::<LineItem, _>(
                LineItemBuilderError::MissingAccount,
            ),
            self.account_spec() is Some && self.value_spec() is None ==> r == Err::<LineItem, _>(
                LineItemBuilderError::MissingValue,
            ),
            self.account_spec() is Some && self.value_spec() is Some && self.is_real_spec() is None
                ==> r == Err::<LineItem, _>(LineItemBuilderError::MissingIsReal),
            r matches Ok(x) ==> (self.account_spec() == Some(x.account@) && self.value_spec()
                == Some(x.value) && self.is_real_spec() == Some(x.is_real)),
            (self.account_spec() is Some && self.value_spec() is Some
                && self.is_real_spec() is Some) ==> r is Ok,
    {
        let account = match self.account {
            Some(a) => a,
            None => {
                return Err(LineItemBuilderError::MissingAccount);
            },
        };
        let value = match self.value {
            Some(v) => v,
            None => {
                return Err(LineItemBuilderError::MissingValue);
            },
        };
        let is_real = match self.is_real {
            Some(b) => b,
            None => {
                return Err(LineItemBuilderError::MissingIsReal);
            },
        };
        Ok(LineItem { account, value, is_real })
    }
}

/// `t` without its `$` characters.
pub open spec fn strip_dollars(t: Seq<char>) -> Seq<char>
    decreases t.len(),
{
    if t.len() == 0 {
        t
    } else if t.last() == '$' {
        strip_dollars(t.drop_last())
    } else {
        strip_dollars(t.drop_last()).push(t.last())
    }
}

/// The amount of an amount field once its `$` signs are gone: exact
/// integer cents when `cents_mode`, else a decimal rounded to the cent.
pub open spec fn amount_value(t: Seq<char>, cents_mode: bool) -> Option<int> {
    if cents_mode {
        integer_text_value(strip_dollars(t))
    } else {
        decimal_text_cents(strip_dollars(t))
    }
}

/// What reading one line gives. The account field is the text before the
/// first two-space separator, the amount field the text after the last one;
/// both are trimmed.
pub open spec fn parse_line_spec(s: Seq<char>, cents_mode: bool) -> Result<
    LineItemView,
    LineItemBuilderError,
> {
    if !has_sep(s) {
        Err(LineItemBuilderError::MissingValue)
    } else {
        let lhs = trim(s.take(first_sep(s)));
        let rhs = trim(s.skip(last_sep(s) + 2));
        if lhs.len() == 0 {
            Err(LineItemBuilderError::MissingAccount)
        } else if (lhs[0] == '[') != (lhs.last() == ']') {
            Err(LineItemBuilderError::MissingIsReal)
        } else {
            let is_real = lhs[0] != '[';
            let account = if is_real {
                lhs
            } else {
                lhs.subrange(1, lhs.len() - 1)
            };
            if account.len() == 0 {
                Err(LineItemBuilderError::MissingAccount)
            } else {
                match amount_value(rhs, cents_mode) {
                    Some(v) => if in_i64(v) {
                        Ok(LineItemView { account, value: v, is_real })
                    } else {
                        Err(LineItemBuilderError::MissingValue)
                    },
                    None => Err(LineItemBuilderError::MissingValue),
                }
            }
        }
    }
}

/// The account as written: in brackets when virtual.
pub open spec fn account_text(x: LineItemView) -> Seq<char> {
    if x.is_real {
        x.account
    } else {
        seq!['['] + x.account + seq![']']
    }
}

/// The one-line text of an item: `Assets:Cash  \t$-12.30`.
pub open spec fn line_text(x: LineItemView) -> Seq<char> {
    account_text(x) + seq![' ', ' ', '\t', '$'] + cents_text(x.value)
}

pub open spec fn result_view(r: Result<LineItem, LineItemBuilderError>) -> Result<
    LineItemView,
    LineItemBuilderError,
> {
    match r {
        Ok(x) => Ok(x@),
        Err(e) => Err(e),
    }
}

fn copy_range(cs: &Vec<char>, lo: usize, hi: usize) -> (r: Vec<char>)
    requires
        lo <= hi <= cs.len(),
    ensures
        r@ == cs@.subrange(lo as int, hi as int),
{
    let mut r: Vec<char> = Vec::new();
    let mut i = lo;
    while i < hi
        invariant
            lo <= i <= hi <= cs.len(),
            r@ == cs@.subrange(lo as int, i as int),
        decreases hi - i,
    {
        r.push(cs[i]);
        i += 1;
        assert(r@ =~= cs@.subrange(lo as int, i as int));
    }
    r
}

fn copy_without_dollars(cs: &Vec<char>, lo: usize, hi: usize) -> (r: Vec<char>)
    requires
        lo <= hi <= cs.len(),
    ensures
        r@ == strip_dollars(cs@.subrange(lo as int, hi as int)),
{
    let mut r: Vec<char> = Vec::new();
    let mut i = lo;
    while i < hi
        invariant
            lo <= i <= hi <= cs.len(),
            r@ == strip_dollars(cs@.subrange(lo as int, i as int)),
        decreases hi - i,
    {
        assert(cs@.subrange(lo as int, i + 1).drop_last() =~= cs@.subrange(lo as int, i as int));
        if cs[i] != '$' {
            r.push(cs[i]);
        }
        i += 1;
    }
    r
}

impl LineItem {
    /// Reads one line given as characters; see [`parse_line_spec`].
    pub fn parse_chars(cs: &Vec<char>, cents_mode: bool) -> (r: Result<LineItem, LineItemBuilderError>)
        ensures
            result_view(r) == parse_line_spec(cs@, cents_mode),
    {
        let ghost s = cs@;
        let n = cs.len();
        let (f, l) = match find_seps(cs) {
            None => {
                return Err(LineItemBuilderError::MissingValue);
            },
            Some(p) => p,
        };
        assert(s.take(f as int) =~= cs@.subrange(0, f as int));
        assert(s.skip(l + 2) =~= cs@.subrange(l + 2, n as int));
        let (a, b) = trim_bounds(cs, 0, f);
        let (c, d) = trim_bounds(cs, l + 2, n);
        let ghost lhs = cs@.subrange(a as int, b as int);
        if a == b {
            return Err(LineItemBuilderError::MissingAccount);
        }
        let open = cs[a] == '[';
        let close = cs[b - 1] == ']';
        assert(lhs[0] == cs@[a as int] && lhs.last() == cs@[b - 1]);
        if open != close {
            return Err(LineItemBuilderError::MissingIsReal);
        }
        let (lo, hi) = if open {
            (a + 1, b - 1)
        } else {
            (a, b)
        };
        if hi <= lo {
            return Err(LineItemBuilderError::MissingAccount);
        }
        assert(cs@.subrange(lo as int, hi as int) =~= if open {
            lhs.subrange(1, lhs.len() - 1)
        } else {
            lhs
        });
        let amount = copy_without_dollars(cs, c, d);
        let value = if cents_mode {
            parse_integer(&amount)
        } else {
            parse_decimal_cents(&amount)
        };
        match value {
            None => Err(LineItemBuilderError::MissingValue),
            Some(v) => {
                let account = string_of(&copy_range(cs, lo, hi));
                Ok(LineItem { account, value: v, is_real: !open })
            },
        }
    }

    /// Reads one line such as `[Budget:Food]  $-25.50`; the amount is a
    /// decimal, rounded to the nearest cent.
    pub fn parse(s: &str) -> (r: Result<LineItem, LineItemBuilderError>)
        ensures
            result_view(r) == parse_line_spec(s@, false),
    {
        LineItem::parse_chars(&chars_of(s), false)
    }

    /// Reads one line whose amount is a whole number of cents, such as
    /// `[Budget:Food]  $-2550`.
    pub fn parse_cents(s: &str) -> (r: Result<LineItem, LineItemBuilderError>)
        ensures
            result_view(r) == parse_line_spec(s@, true),
    {
        LineItem::parse_chars(&chars_of(s), true)
    }

    /// The one-line text of the item, as [`LineItem::parse`] reads it.
    pub fn to_text(&self) -> (r: String)
        ensures
            r@ == line_text(self@),
    {
        let mut cs: Vec<char> = Vec::new();
        if !self.is_real {
            cs.push('[');
        }
        let mut acc = chars_of(self.account.as_str());
        cs.append(&mut acc);
        if !self.is_real {
            cs.push(']');
        }
        cs.push(' ');
        cs.push(' ');
        cs.push('\t');
        cs.push('$');
        let mut amount = format_cents(self.value);
        cs.append(&mut amount);
        assert(cs@ =~= line_text(self@));
        string_of(&cs)
    }
}

/// An item whose text reads back as itself: a non-empty account without a
/// two-space separator; a real account also neither starts nor ends with
/// whitespace, does not start with `[` and does not end with `]`.
pub open spec fn writable(x: LineItemView) -> bool {
    let a = x.account;
    &&& a.len() > 0
    &&& in_i64(x.value)
    &&& forall|i: int| !sep_at(a, i)
    &&& x.is_real ==> (!is_ws(a[0]) && !is_ws(a.last()) && a[0] != '[' && a.last() != ']')
}

proof fn lemma_strip_dollars_lead(u: Seq<char>)
    requires
        forall|i: int| 0 <= i < u.len() ==> u[i] != '$',
    ensures
        strip_dollars(seq!['$'] + u) == u,
    decreases u.len(),
{
    if u.len() == 0 {
        let t = seq!['$'];
        assert(seq!['$'] + u =~= t);
        assert(t.drop_last() =~= Seq::<char>::empty());
        assert(strip_dollars(t.drop_last()) == Seq::<char>::empty());
    } else {
        lemma_strip_dollars_lead(u.drop_last());
        assert((seq!['$'] + u).drop_last() =~= seq!['$'] + u.drop_last());
        assert(u.drop_last().push(u.last()) =~= u);
        assert((seq!['$'] + u).last() == u.last());
    }
}

proof fn lemma_trim_unchanged(u: Seq<char>)
    requires
        u.len() > 0,
        !is_ws(u[0]),
        !is_ws(u.last()),
    ensures
        trim(u) == u,
{
}

/// Writing an item and reading the line back gives the same account,
/// value and reality.
pub proof fn lemma_line_round_trip(x: LineItemView)
    requires
        writable(x),
    ensures
        parse_line_spec(line_text(x), false) == Ok::<LineItemView, LineItemBuilderError>(x),
{
    let at = account_text(x);
    let ct = cents_text(x.value);
    let tail = seq![' ', ' ', '\t', '$'] + ct;
    let t = line_text(x);
    let k = at.len() as int;
    lemma_cents_text_round_trip(x.value);
    assert(t =~= at + tail);
    if !x.is_real {
        assert forall|i: int| !sep_at(at, i) by {
            if sep_at(at, i) {
                assert(at[i] == x.account[i - 1]);
                assert(at[i + 1] == x.account[i]);
                assert(sep_at(x.account, i - 1));
            }
        }
    }
    assert(at[k - 1] != ' ');
    assert forall|i: int| i != k implies !sep_at(t, i) by {
        if sep_at(t, i) {
            if i < k - 1 {
                assert(sep_at(at, i));
            } else if i > k {
                if i >= k + 4 {
                    assert(t[i] == ct[i - k - 4]);
                } else {
                    assert(t[i] == tail[i - k]);
                    assert(t[i + 1] == tail[i + 1 - k]);
                }
            }
        }
    }
    assert(sep_at(t, k));
    assert(is_first_sep(t, k));
    assert(is_last_sep(t, k));
    lemma_first_sep(t, k);
    lemma_last_sep(t, k);
    assert(t.take(k) =~= at);
    lemma_trim_unchanged(at);
    let rest = seq!['$'] + ct;
    assert(t.skip(k + 2) =~= seq!['\t'] + rest);
    assert((seq!['\t'] + rest).drop_first() =~= rest);
    assert(trim_start(rest) == rest);
    assert(trim_start(seq!['\t'] + rest) == rest);
    assert(rest.last() == ct.last());
    lemma_trim_unchanged(rest);
    assert(trim(seq!['\t'] + rest) == rest);
    lemma_strip_dollars_lead(ct);
    if !x.is_real {
        assert(at.subrange(1, at.len() - 1) =~= x.account);
    }
}

} // verus!
