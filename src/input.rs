//! Turning rendered template text into line items, and reading an account
//! balance out of the report of a ledger tool.
use vstd::prelude::*;
use crate::amount::{decimal_text_cents, digit_char, digit_char_of, in_i64, parse_decimal_cents};
use crate::line_item::{parse_line_spec, LineItem, LineItemBuilderError, LineItemView};
use crate::merge::views;
use crate::text::{chars_of, trim, trim_bounds};

verus! {

/// Index of the first newline of `s` at or after `i`, or `s.len()`.
pub open spec fn next_newline(s: Seq<char>, i: int) -> int
    decreases s.len() - i,
{
    if i < 0 || i >= s.len() {
        s.len() as int
    } else if s[i] == '\n' {
        i
    } else {
        next_newline(s, i + 1)
    }
}

/// The lines of `s[i..]`: split at each `\n`, a `\r` before it dropped;
/// no empty line after a final newline.
pub open spec fn lines_from(s: Seq<char>, i: int) -> Seq<Seq<char>>
    decreases s.len() + 1 - i
    via lines_from_decreases
{
    if i < 0 || i >= s.len() {
        Seq::empty()
    } else {
        let e = next_newline(s, i);
        let raw = s.subrange(i, e);
        let line = if e < s.len() && raw.len() > 0 && raw.last() == '\r' {
            raw.drop_last()
        } else {
            raw
        };
        seq![line] + lines_from(s, e + 1)
    }
}

proof fn lemma_next_newline(s: Seq<char>, i: int)
    requires
        0 <= i,
    ensures
        i <= next_newline(s, i) <= s.len() || i > s.len(),
    decreases s.len() - i,
{
    if i < s.len() && s[i] != '\n' {
        lemma_next_newline(s, i + 1);
    }
}

#[via_fn]
proof fn lines_from_decreases(s: Seq<char>, i: int) {
    if 0 <= i < s.len() {
        lemma_next_newline(s, i);
    }
}

/// Reading every line that is not blank, stopping at the first error.
pub open spec fn parse_lines_spec(ls: Seq<Seq<char>>) -> Result<Seq<LineItemView>, LineItemBuilderError>
    decreases ls.len(),
{
    if ls.len() == 0 {
        Ok(Seq::empty())
    } else if trim(ls[0]).len() == 0 {
        parse_lines_spec(ls.drop_first())
    } else {
        match parse_line_spec(ls[0], false) {
            Err(e) => Err(e),
            Ok(x) => match parse_lines_spec(ls.drop_first()) {
                Err(e) => Err(e),
                Ok(rest) => Ok(seq![x] + rest),
            },
        }
    }
}

pub open spec fn prepend(
    acc: Seq<LineItemView>,
    r: Result<Seq<LineItemView>, LineItemBuilderError>,
) -> Result<Seq<LineItemView>, LineItemBuilderError> {
    match r {
        Ok(rest) => Ok(acc + rest),
        Err(e) => Err(e),
    }
}

pub open spec fn items_view(r: Result<Vec<LineItem>, LineItemBuilderError>) -> Result<
    Seq<LineItemView>,
    LineItemBuilderError,
> {
    match r {
        Ok(v) => Ok(views(v@)),
        Err(e) => Err(e),
    }
}

/// The line items of rendered template text, one per line; blank lines are
/// skipped, and the first line that does not read stops it with its error.
pub fn parse_lines(text: &str) -> (r: Result<Vec<LineItem>, LineItemBuilderError>)
    ensures
        items_view(r) == parse_lines_spec(lines_from(text@, 0)),
{
    let cs = chars_of(text);
    let n = cs.len();
    let mut out: Vec<LineItem> = Vec::new();
    let mut i: usize = 0;
    assert(views(out@) =~= Seq::<LineItemView>::empty());
    while i < n
        invariant
            n == cs.len(),
            cs@ == text@,
            i <= n,
            parse_lines_spec(lines_from(cs@, 0)) == prepend(
                views(out@),
                parse_lines_spec(lines_from(cs@, i as int)),
            ),
        decreases n - i,
    {
        let mut e = i;
        while e < n && cs[e] != '\n'
            invariant
                i <= e <= n == cs.len(),
                next_newline(cs@, i as int) == next_newline(cs@, e as int),
            decreases n - e,
        {
            e += 1;
        }
        let end = if e < n && e > i && cs[e - 1] == '\r' {
            e - 1
        } else {
            e
        };
        let mut line: Vec<char> = Vec::new();
        let mut k = i;
        while k < end
            invariant
                i <= k <= end <= n == cs.len(),
                line@ == cs@.subrange(i as int, k as int),
            decreases end - k,
        {
            line.push(cs[k]);
            k += 1;
            assert(line@ =~= cs@.subrange(i as int, k as int));
        }
        let ghost ls = lines_from(cs@, i as int);
        assert(ls[0] =~= line@);
        assert(ls.drop_first() =~= lines_from(cs@, e + 1));
        let (a, b) = trim_bounds(&line, 0, line.len());
        assert(line@.subrange(0, line.len() as int) =~= line@);
        if a < b {
            match LineItem::parse_chars(&line, false) {
                Err(err) => {
                    return Err(err);
                },
                Ok(x) => {
                    let ghost before = views(out@);
                    out.push(x);
                    assert(views(out@) =~= before.push(x@));
                    proof {
                        match parse_lines_spec(ls.drop_first()) {
                            Ok(rest) => {
                                assert(before + (seq![x@] + rest) =~= views(out@) + rest);
                            },
                            Err(_) => {},
                        }
                    }
                },
            }
        }
        i = if e < n {
            e + 1
        } else {
            n
        };
    }
    proof {
        assert(lines_from(cs@, i as int) =~= Seq::<Seq<char>>::empty());
        assert(views(out@) + Seq::<LineItemView>::empty() =~= views(out@));
    }
    Ok(out)
}

} // verus!

verus! {

/// Index of the last newline byte of `s[..k]`, or -1.
pub open spec fn last_newline_before(s: Seq<u8>, k: int) -> int
    decreases k,
{
    if k <= 0 || k > s.len() {
        -1
    } else if s[k - 1] == 10 {
        k - 1
    } else {
        last_newline_before(s, k - 1)
    }
}

/// The last complete line of a report: the text between its last two
/// newlines (or its start and its last newline).
pub open spec fn last_full_line(s: Seq<u8>) -> Option<Seq<u8>> {
    let l = last_newline_before(s, s.len() as int);
    if l < 0 {
        None
    } else {
        Some(s.subrange(last_newline_before(s, l) + 1, l))
    }
}

/// The digits, minus signs and points of `s`, in order.
pub open spec fn numeric_chars(s: Seq<u8>) -> Seq<char>
    decreases s.len(),
{
    if s.len() == 0 {
        Seq::empty()
    } else {
        let b = s.last();
        let rest = numeric_chars(s.drop_last());
        if 48 <= b <= 57 {
            rest.push(digit_char(b - 48))
        } else if b == 45 {
            rest.push('-')
        } else if b == 46 {
            rest.push('.')
        } else {
            rest
        }
    }
}

/// The balance in cents that a report states on its last complete line,
/// reading only its digits, minus signs and points.
pub open spec fn report_balance(s: Seq<u8>) -> Option<int> {
    match last_full_line(s) {
        None => None,
        Some(line) => match decimal_text_cents(numeric_chars(line)) {
            Some(v) => if in_i64(v) {
                Some(v)
            } else {
                None
            },
            None => None,
        },
    }
}

fn last_newline_in(s: &Vec<u8>, k: usize) -> (r: Option<usize>)
    requires
        k <= s.len(),
    ensures
        r is None <==> last_newline_before(s@, k as int) < 0,
        r is None ==> last_newline_before(s@, k as int) == -1,
        r matches Some(l) ==> l == last_newline_before(s@, k as int) && l < k,
{
    let mut i = k;
    while i > 0 && s[i - 1] != 10
        invariant
            i <= k <= s.len(),
            last_newline_before(s@, k as int) == last_newline_before(s@, i as int),
        decreases i,
    {
        i -= 1;
    }
    if i == 0 {
        None
    } else {
        Some(i - 1)
    }
}

/// The balance in cents on the last complete line of a ledger tool's
/// balance report, such as `$-1,234.56`, rounded to the cent.
pub fn balance_from_report(out: &Vec<u8>) -> (r: Option<i64>)
    ensures
        match r {
            Some(v) => report_balance(out@) == Some(v as int),
            None => report_balance(out@) is None,
        },
{
    let l = match last_newline_in(out, out.len()) {
        None => {
            return None;
        },
        Some(l) => l,
    };
    let start = match last_newline_in(out, l) {
        None => 0,
        Some(p) => p + 1,
    };
    let ghost line = out@.subrange(start as int, l as int);
    let mut cs: Vec<char> = Vec::new();
    let mut i = start;
    while i < l
        invariant
            start <= i <= l < out.len(),
            line == out@.subrange(start as int, l as int),
            cs@ == numeric_chars(out@.subrange(start as int, i as int)),
        decreases l - i,
    {
        assert(out@.subrange(start as int, i + 1).drop_last() =~= out@.subrange(
            start as int,
            i as int,
        ));
        let b = out[i];
        if 48 <= b && b <= 57 {
            cs.push(digit_char_of((b - 48) as u64));
        } else if b == 45 {
            cs.push('-');
        } else if b == 46 {
            cs.push('.');
        }
        i += 1;
    }
    parse_decimal_cents(&cs)
}

} // verus!
