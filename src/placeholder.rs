//! Account balances in templates: a placeholder `<<account>>` in the raw
//! template text stands for that account's balance in cents, written in
//! before the template is rendered.
use vstd::prelude::*;
use crate::amount::{abs, nat_digits, push_nat_digits};
use crate::text::{chars_of, string_of};

verus! {

#[verifier::external_type_specification]
#[verifier::external_body]
pub struct ExRegexError(regex::Error);

/// The texts of the successive non-overlapping matches of a pattern in a
/// text, as the `regex` crate finds them.
pub uninterp spec fn regex_matches(pattern: Seq<char>, text: Seq<char>) -> Seq<Seq<char>>;

pub open spec fn string_views(v: Seq<String>) -> Seq<Seq<char>> {
    v.map_values(|s: String| s@)
}

/// Relies on `regex::Regex::new`, which fails only on a pattern of invalid
/// syntax or one whose compiled form exceeds the default size limit (neither
/// holds of the placeholder pattern), and on `Regex::find_iter` with
/// `Match::as_str`: the texts of the successive matches, in order.
#[verifier::external_body]
fn find_all(pattern: &str, text: &str) -> (r: Result<Vec<String>, regex::Error>)
    ensures
        pattern@ == placeholder_pattern() ==> r is Ok,
        r matches Ok(v) ==> string_views(v@) == regex_matches(pattern@, text@),
{
    regex::Regex::new(pattern).map(|re| re.find_iter(text).map(|m| m.as_str().to_string()).collect())
}

/// The account names inside matched placeholders: each match without its
/// first two and last two characters; a match shorter than four characters
/// gives none.
pub open spec fn names_of(ms: Seq<Seq<char>>) -> Seq<Seq<char>>
    decreases ms.len(),
{
    if ms.len() == 0 {
        Seq::empty()
    } else {
        let m = ms.last();
        let rest = names_of(ms.drop_last());
        if m.len() >= 4 {
            rest.push(m.subrange(2, m.len() - 2))
        } else {
            rest
        }
    }
}

/// The pattern of a placeholder: `<<`, then as few characters of one line
/// as possible, then `>>`.
pub open spec fn placeholder_pattern() -> Seq<char> {
    seq!['<', '<', '.', '*', '?', '>', '>']
}

/// The accounts named by the placeholders of a template, in order, as
/// matched by the pattern `<<.*?>>`.
pub fn placeholder_accounts(template: &str) -> (r: Vec<String>)
    ensures
        string_views(r@) == names_of(regex_matches(placeholder_pattern(), template@)),
{
    let pattern = string_of(&vec!['<', '<', '.', '*', '?', '>', '>']);
    assert(pattern@ =~= placeholder_pattern());
    match find_all(pattern.as_str(), template) {
        Ok(ms) => names_from_matches(&ms),
        Err(_) => Vec::new(),
    }
}

/// The account names inside matched placeholder texts.
pub fn names_from_matches(ms: &Vec<String>) -> (r: Vec<String>)
    ensures
        string_views(r@) == names_of(string_views(ms@)),
{
    let ghost mv = string_views(ms@);
    let mut r: Vec<String> = Vec::new();
    let mut i: usize = 0;
    assert(string_views(r@) =~= names_of(mv.take(0)));
    while i < ms.len()
        invariant
            i <= ms.len(),
            mv == string_views(ms@),
            string_views(r@) == names_of(mv.take(i as int)),
        decreases ms.len() - i,
    {
        let cs = chars_of(ms[i].as_str());
        assert(mv.take(i + 1).drop_last() =~= mv.take(i as int));
        assert(mv.take(i + 1).last() == cs@);
        let ghost before = string_views(r@);
        if cs.len() >= 4 {
            let mut name: Vec<char> = Vec::new();
            let mut k: usize = 2;
            while k < cs.len() - 2
                invariant
                    2 <= k <= cs.len() - 2,
                    name@ == cs@.subrange(2, k as int),
                decreases cs.len() - 2 - k,
            {
                name.push(cs[k]);
                k += 1;
                assert(name@ =~= cs@.subrange(2, k as int));
            }
            r.push(string_of(&name));
            assert(string_views(r@) =~= before.push(cs@.subrange(2, cs.len() - 2)));
        }
        i += 1;
    }
    assert(mv.take(i as int) =~= mv);
    r
}

/// `s` with each occurrence of `from` replaced by `to`, left to right,
/// occurrences not overlapping.
pub open spec fn replace_all(s: Seq<char>, from: Seq<char>, to: Seq<char>) -> Seq<char>
    decreases s.len(),
{
    if from.len() == 0 || s.len() == 0 {
        s
    } else if s.len() >= from.len() && s.take(from.len() as int) == from {
        to + replace_all(s.skip(from.len() as int), from, to)
    } else {
        seq![s[0]] + replace_all(s.drop_first(), from, to)
    }
}

/// The placeholder of an account: `<<account>>`.
pub open spec fn placeholder_of(account: Seq<char>) -> Seq<char> {
    seq!['<', '<'] + account + seq!['>', '>']
}

/// An integer in decimal: `-2550`.
pub open spec fn int_text(v: int) -> Seq<char> {
    if v < 0 {
        seq!['-'] + nat_digits(abs(v))
    } else {
        nat_digits(abs(v))
    }
}

/// The template with each account's placeholders replaced by its balance,
/// one account after the other.
pub open spec fn substituted(t: Seq<char>, accounts: Seq<Seq<char>>, balances: Seq<i64>) -> Seq<char>
    decreases accounts.len(),
{
    if accounts.len() == 0 || balances.len() == 0 {
        t
    } else {
        substituted(
            replace_all(t, placeholder_of(accounts[0]), int_text(balances[0] as int)),
            accounts.drop_first(),
            balances.drop_first(),
        )
    }
}

fn matches_at(s: &Vec<char>, i: usize, from: &Vec<char>) -> (r: bool)
    requires
        i <= s.len(),
    ensures
        r == (from.len() <= s.len() - i && s@.subrange(i as int, i + from.len()) == from@),
{
    if from.len() > s.len() - i {
        return false;
    }
    let mut k: usize = 0;
    while k < from.len()
        invariant
            k <= from.len() <= s.len() - i,
            forall|q: int| 0 <= q < k ==> s@[i + q] == from@[q],
        decreases from.len() - k,
    {
        if s[i + k] != from[k] {
            assert(s@.subrange(i as int, i + from.len())[k as int] != from@[k as int]);
            return false;
        }
        k += 1;
    }
    assert(s@.subrange(i as int, i + from.len()) =~= from@);
    true
}

fn replace_chars(s: &Vec<char>, from: &Vec<char>, to: &Vec<char>) -> (r: Vec<char>)
    requires
        from.len() > 0,
    ensures
        r@ == replace_all(s@, from@, to@),
{
    let mut out: Vec<char> = Vec::new();
    let mut i: usize = 0;
    assert(s@.skip(0) =~= s@);
    while i < s.len()
        invariant
            i <= s.len(),
            from.len() > 0,
            replace_all(s@, from@, to@) == out@ + replace_all(s@.skip(i as int), from@, to@),
        decreases s.len() - i,
    {
        let ghost rest = s@.skip(i as int);
        let ghost before = out@;
        if matches_at(s, i, from) {
            assert(rest.take(from.len() as int) =~= s@.subrange(i as int, i + from.len()));
            assert(rest.skip(from.len() as int) =~= s@.skip(i + from.len()));
            let mut k: usize = 0;
            while k < to.len()
                invariant
                    k <= to.len(),
                    out@ == before + to@.take(k as int),
                decreases to.len() - k,
            {
                out.push(to[k]);
                k += 1;
                assert(out@ =~= before + to@.take(k as int));
            }
            assert(to@.take(k as int) =~= to@);
            i += from.len();
            assert(before + (to@ + replace_all(s@.skip(i as int), from@, to@)) =~= out@
                + replace_all(s@.skip(i as int), from@, to@));
        } else {
            proof {
                if rest.len() >= from.len() {
                    assert(rest.take(from.len() as int) =~= s@.subrange(i as int, i + from.len()));
                }
            }
            assert(rest.drop_first() =~= s@.skip(i + 1));
            out.push(s[i]);
            i += 1;
            assert(before + (seq![rest[0]] + replace_all(s@.skip(i as int), from@, to@)) =~= out@
                + replace_all(s@.skip(i as int), from@, to@));
        }
    }
    assert(s@.skip(i as int) =~= Seq::<char>::empty());
    assert(out@ + Seq::<char>::empty() =~= out@);
    out
}

fn int_chars(v: i64) -> (r: Vec<char>)
    ensures
        r@ == int_text(v as int),
{
    let mut r: Vec<char> = Vec::new();
    let a: u64 = if v < 0 {
        r.push('-');
        (-(v as i128)) as u64
    } else {
        v as u64
    };
    push_nat_digits(&mut r, a);
    assert(r@ =~= int_text(v as int));
    r
}

/// The template with each `<<account>>` replaced by the balance in cents of
/// that account, taking the accounts in order.
pub fn substitute_balances(template: &str, accounts: &Vec<String>, balances: &Vec<i64>) -> (r: String)
    requires
        accounts.len() == balances.len(),
    ensures
        r@ == substituted(template@, string_views(accounts@), balances@),
{
    let ghost av = string_views(accounts@);
    let mut cur = chars_of(template);
    let mut k: usize = 0;
    assert(av.skip(0) =~= av);
    assert(balances@.skip(0) =~= balances@);
    while k < accounts.len()
        invariant
            k <= accounts.len() == balances.len(),
            av == string_views(accounts@),
            substituted(template@, av, balances@) == substituted(
                cur@,
                av.skip(k as int),
                balances@.skip(k as int),
            ),
        decreases accounts.len() - k,
    {
        let mut from: Vec<char> = vec!['<', '<'];
        let mut name = chars_of(accounts[k].as_str());
        from.append(&mut name);
        from.push('>');
        from.push('>');
        assert(from@ =~= placeholder_of(av[k as int]));
        let to = int_chars(balances[k]);
        assert(av.skip(k as int).drop_first() =~= av.skip(k + 1));
        assert(balances@.skip(k as int).drop_first() =~= balances@.skip(k + 1));
        cur = replace_chars(&cur, &from, &to);
        k += 1;
    }
    assert(av.skip(k as int) =~= Seq::<Seq<char>>::empty());
    string_of(&cur)
}

} // verus!
