//! The order of line items: real items before virtual ones, then by
//! account, character by character. The value takes no part in it.
use vstd::prelude::*;
use core::cmp::Ordering;
use crate::line_item::{LineItem, LineItemView};
use crate::text::chars_of;

verus! {

/// Lexicographic comparison of two character sequences.
pub open spec fn lex_cmp(a: Seq<char>, b: Seq<char>) -> Ordering
    decreases a.len(),
{
    if a.len() == 0 && b.len() == 0 {
        Ordering::Equal
    } else if a.len() == 0 {
        Ordering::Less
    } else if b.len() == 0 {
        Ordering::Greater
    } else if a[0] < b[0] {
        Ordering::Less
    } else if a[0] > b[0] {
        Ordering::Greater
    } else {
        lex_cmp(a.drop_first(), b.drop_first())
    }
}

pub open spec fn flip(o: Ordering) -> Ordering {
    match o {
        Ordering::Less => Ordering::Greater,
        Ordering::Greater => Ordering::Less,
        Ordering::Equal => Ordering::Equal,
    }
}

/// The order on line items: reality first (real before virtual), then the
/// account.
pub open spec fn key_cmp(x: LineItemView, y: LineItemView) -> Ordering {
    if x.is_real && !y.is_real {
        Ordering::Less
    } else if !x.is_real && y.is_real {
        Ordering::Greater
    } else {
        lex_cmp(x.account, y.account)
    }
}

/// Two items share a merge key: same reality and same account.
pub open spec fn same_key(x: LineItemView, y: LineItemView) -> bool {
    x.is_real == y.is_real && x.account == y.account
}

pub open spec fn key_le(x: LineItemView, y: LineItemView) -> bool {
    key_cmp(x, y) != Ordering::Greater
}

pub open spec fn key_lt(x: LineItemView, y: LineItemView) -> bool {
    key_cmp(x, y) == Ordering::Less
}

pub proof fn lemma_lex_cmp_flip(a: Seq<char>, b: Seq<char>)
    ensures
        lex_cmp(b, a) == flip(lex_cmp(a, b)),
        lex_cmp(a, b) == Ordering::Equal <==> a == b,
    decreases a.len(),
{
    if a.len() > 0 && b.len() > 0 && a[0] == b[0] {
        lemma_lex_cmp_flip(a.drop_first(), b.drop_first());
        if a.drop_first() == b.drop_first() {
            assert(a =~= seq![a[0]] + a.drop_first());
            assert(b =~= seq![b[0]] + b.drop_first());
        }
    }
    if a.len() == 0 && b.len() == 0 {
        assert(a =~= b);
    }
    if a == b && a.len() > 0 {
        assert(a.drop_first() == b.drop_first());
    }
}

pub proof fn lemma_lex_cmp_trans(a: Seq<char>, b: Seq<char>, c: Seq<char>)
    requires
        lex_cmp(a, b) != Ordering::Greater,
        lex_cmp(b, c) != Ordering::Greater,
    ensures
        lex_cmp(a, c) != Ordering::Greater,
        (lex_cmp(a, b) == Ordering::Less || lex_cmp(b, c) == Ordering::Less) ==> lex_cmp(a, c)
            == Ordering::Less,
    decreases a.len(),
{
    if a.len() > 0 && b.len() > 0 && c.len() > 0 && a[0] == b[0] && b[0] == c[0] {
        lemma_lex_cmp_trans(a.drop_first(), b.drop_first(), c.drop_first());
    }
}

/// The order on line items is a total preorder whose ties are exactly the
/// items that share a merge key.
pub proof fn lemma_key_order(x: LineItemView, y: LineItemView, z: LineItemView)
    ensures
        x.is_real && !y.is_real ==> key_cmp(x, y) == Ordering::Less,
        x.is_real == y.is_real ==> key_cmp(x, y) == lex_cmp(x.account, y.account),
        key_cmp(y, x) == flip(key_cmp(x, y)),
        key_cmp(x, y) == Ordering::Equal <==> same_key(x, y),
        key_le(x, y) || key_le(y, x),
        key_le(x, y) && key_le(y, z) ==> key_le(x, z),
        key_lt(x, y) && key_le(y, z) ==> key_lt(x, z),
        key_le(x, y) && key_lt(y, z) ==> key_lt(x, z),
{
    lemma_lex_cmp_flip(x.account, y.account);
    if x.is_real == y.is_real && y.is_real == z.is_real && key_le(x, y) && key_le(y, z) {
        lemma_lex_cmp_trans(x.account, y.account, z.account);
    }
}

/// Lexicographic comparison of two character vectors.
pub fn lex_compare(a: &Vec<char>, b: &Vec<char>) -> (r: Ordering)
    ensures
        r == lex_cmp(a@, b@),
{
    let mut i: usize = 0;
    assert(a@.skip(0) =~= a@);
    assert(b@.skip(0) =~= b@);
    while i < a.len() && i < b.len()
        invariant
            i <= a.len(),
            i <= b.len(),
            lex_cmp(a@, b@) == lex_cmp(a@.skip(i as int), b@.skip(i as int)),
        decreases a.len() - i,
    {
        assert(a@.skip(i as int).drop_first() =~= a@.skip(i + 1));
        assert(b@.skip(i as int).drop_first() =~= b@.skip(i + 1));
        if a[i] < b[i] {
            return Ordering::Less;
        }
        if a[i] > b[i] {
            return Ordering::Greater;
        }
        i += 1;
    }
    if i == a.len() && i == b.len() {
        Ordering::Equal
    } else if i == a.len() {
        Ordering::Less
    } else {
        Ordering::Greater
    }
}

impl LineItem {
    /// Where the item sorts relative to `other`.
    pub fn compare(&self, other: &LineItem) -> (r: Ordering)
        ensures
            r == key_cmp(self@, other@),
    {
        if self.is_real && !other.is_real {
            Ordering::Less
        } else if !self.is_real && other.is_real {
            Ordering::Greater
        } else {
            lex_compare(&chars_of(self.account.as_str()), &chars_of(other.account.as_str()))
        }
    }

    /// A copy of the item.
    pub fn to_owned(&self) -> (r: LineItem)
        ensures
            r@ == self@,
    {
        LineItem {
            account: String::from_str(self.account.as_str()),
            value: self.value,
            is_real: self.is_real,
        }
    }

    /// Overwrites `target` with a copy of the item.
    pub fn clone_into(&self, target: &mut LineItem)
        ensures
            final(target)@ == self@,
    {
        target.account = String::from_str(self.account.as_str());
        target.value = self.value;
        target.is_real = self.is_real;
    }
}

impl PartialEq for LineItem {
    fn eq(&self, other: &LineItem) -> (r: bool) {
        self.is_real == other.is_real && self.value == other.value && self.account == other.account
    }
}

impl vstd::std_specs::cmp::PartialEqSpecImpl for LineItem {
    open spec fn obeys_eq_spec() -> bool {
        true
    }

    open spec fn eq_spec(&self, other: &LineItem) -> bool {
        self@ == other@
    }
}

impl PartialOrd for LineItem {
    fn partial_cmp(&self, other: &LineItem) -> (r: Option<Ordering>) {
        Some(self.compare(other))
    }
}

impl vstd::std_specs::cmp::PartialOrdSpecImpl for LineItem {
    open spec fn obeys_partial_cmp_spec() -> bool {
        true
    }

    open spec fn partial_cmp_spec(&self, other: &LineItem) -> Option<Ordering> {
        Some(key_cmp(self@, other@))
    }
}

} // verus!
