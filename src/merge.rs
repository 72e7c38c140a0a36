//! Merging a set of default line items with a set of overriding ones: both
//! are sorted, then walked side by side; an override replaces the default
//! with its merge key.
use vstd::prelude::*;
use vstd::multiset::Multiset;
use vstd::std_specs::cmp::PartialOrdSpec;
use core::cmp::Ordering;
use crate::line_item::{LineItem, LineItemView};
use crate::order::{key_le, key_lt, lemma_key_order, same_key};

verus! {

broadcast use vstd::seq_lib::group_to_multiset_ensures;

pub open spec fn views(s: Seq<LineItem>) -> Seq<LineItemView> {
    s.map_values(|x: LineItem| x@)
}

/// Each item is at most the next one.
pub open spec fn sorted(s: Seq<LineItemView>) -> bool {
    forall|i: int, j: int| 0 <= i < j < s.len() ==> key_le(#[trigger] s[i], #[trigger] s[j])
}

/// Each item is below the next one.
pub open spec fn strictly_sorted(s: Seq<LineItemView>) -> bool {
    forall|i: int, j: int| 0 <= i < j < s.len() ==> key_lt(#[trigger] s[i], #[trigger] s[j])
}

/// No two items share a merge key.
pub open spec fn unique_keys(s: Seq<LineItemView>) -> bool {
    forall|i: int, j: int| 0 <= i < j < s.len() ==> !same_key(#[trigger] s[i], #[trigger] s[j])
}

/// Some item of `s` has the merge key of `x`.
pub open spec fn has_key(s: Seq<LineItemView>, x: LineItemView) -> bool {
    exists|i: int| 0 <= i < s.len() && same_key(#[trigger] s[i], x)
}

proof fn lemma_sorted_insert(s: Seq<LineItemView>, pos: int, x: LineItemView)
    requires
        sorted(s),
        0 <= pos <= s.len(),
        forall|k: int| 0 <= k < pos ==> key_le(#[trigger] s[k], x),
        pos < s.len() ==> key_lt(x, s[pos]),
    ensures
        sorted(s.insert(pos, x)),
{
    let t = s.insert(pos, x);
    assert forall|i: int, j: int| 0 <= i < j < t.len() implies key_le(#[trigger] t[i], #[trigger] t[j]) by {
        if j == pos {
            assert(t[i] == s[i]);
        } else if i == pos {
            assert(t[j] == s[j - 1]);
            lemma_key_order(x, s[pos], s[j - 1]);
        } else {
            let a = if i < pos { i } else { i - 1 };
            let b = if j < pos { j } else { j - 1 };
            assert(t[i] == s[a] && t[j] == s[b]);
        }
    }
}

/// The items of `v`, sorted.
pub fn sort_items(v: Vec<LineItem>) -> (r: Vec<LineItem>)
    ensures
        sorted(views(r@)),
        views(r@).to_multiset() == views(v@).to_multiset(),
{
    let ghost orig = views(v@);
    let mut v = v;
    let mut r: Vec<LineItem> = Vec::new();
    assert(views(r@).to_multiset() =~= Multiset::empty());
    while v.len() > 0
        invariant
            sorted(views(r@)),
            views(r@).to_multiset().add(views(v@).to_multiset()) == orig.to_multiset(),
        decreases v.len(),
    {
        let ghost before = views(v@);
        let x = v.pop().unwrap();
        assert(before =~= views(v@).push(x@));
        let mut pos: usize = 0;
        while pos < r.len() && !matches!(r[pos].partial_cmp(&x), Some(Ordering::Greater))
            invariant
                pos <= r.len(),
                forall|k: int| 0 <= k < pos ==> key_le(#[trigger] views(r@)[k], x@),
            decreases r.len() - pos,
        {
            pos += 1;
        }
        proof {
            if pos < r.len() {
                lemma_key_order(views(r@)[pos as int], x@, x@);
            }
            lemma_sorted_insert(views(r@), pos as int, x@);
        }
        let ghost rv = views(r@);
        r.insert(pos, x);
        assert(views(r@) =~= rv.insert(pos as int, x@));
    }
    assert(views(v@).to_multiset() =~= Multiset::empty());
    assert(views(r@).to_multiset() =~= orig.to_multiset());
    r
}

/// `r` is the merge of `d` and `o`: in strict order, it holds every
/// override and every default whose merge key no override has, and nothing
/// else.
pub open spec fn merge_result(
    d: Seq<LineItemView>,
    o: Seq<LineItemView>,
    r: Seq<LineItemView>,
) -> bool {
    &&& strictly_sorted(r)
    &&& unique_keys(r)
    &&& forall|x: LineItemView| #[trigger] r.contains(x) <==> (o.contains(x) || (d.contains(x)
        && !has_key(o, x)))
}

proof fn lemma_unique_keys_transfer(s: Seq<LineItemView>, t: Seq<LineItemView>)
    requires
        unique_keys(s),
        s.to_multiset() == t.to_multiset(),
    ensures
        unique_keys(t),
{
    assert(s.no_duplicates()) by {
        assert forall|i: int, j: int| 0 <= i < s.len() && 0 <= j < s.len() && i != j implies s[i]
            != s[j] by {
            if i < j {
                assert(!same_key(s[i], s[j]));
            } else {
                assert(!same_key(s[j], s[i]));
            }
        }
    }
    s.lemma_multiset_has_no_duplicates();
    t.lemma_multiset_has_no_duplicates_conv();
    assert forall|i: int, j: int| 0 <= i < j < t.len() implies !same_key(
        #[trigger] t[i],
        #[trigger] t[j],
    ) by {
        if same_key(t[i], t[j]) {
            assert(t.contains(t[i]));
            assert(t.contains(t[j]));
            assert(t.to_multiset().count(t[i]) > 0);
            assert(t.to_multiset().count(t[j]) > 0);
            assert(s.to_multiset().count(t[i]) > 0);
            assert(s.to_multiset().count(t[j]) > 0);
            assert(s.contains(t[i]));
            assert(s.contains(t[j]));
            let a = choose|a: int| 0 <= a < s.len() && s[a] == t[i];
            let b = choose|b: int| 0 <= b < s.len() && s[b] == t[j];
            assert(t[i] != t[j]);
            if a < b {
                assert(!same_key(s[a], s[b]));
            } else {
                assert(!same_key(s[b], s[a]));
            }
        }
    }
}

proof fn lemma_strict(s: Seq<LineItemView>)
    requires
        sorted(s),
        unique_keys(s),
    ensures
        strictly_sorted(s),
{
    assert forall|i: int, j: int| 0 <= i < j < s.len() implies key_lt(#[trigger] s[i], #[trigger] s[j]) by {
        lemma_key_order(s[i], s[j], s[j]);
    }
}

/// Every item of `s` is at most its last item.
proof fn lemma_below_last(s: Seq<LineItemView>, x: LineItemView)
    requires
        sorted(s),
        s.contains(x),
    ensures
        key_le(x, s.last()),
{
    let k = choose|k: int| 0 <= k < s.len() && s[k] == x;
    if k < s.len() - 1 {
        assert(key_le(s[k], s[s.len() - 1]));
    } else {
        lemma_key_order(x, x, x);
    }
}

/// The merged items: all of the overrides, and each default whose merge key
/// no override has, in the order of items. Where neither input repeats a
/// merge key, the result holds exactly those items, once each.
pub fn merge_line_items(defaults: Vec<LineItem>, overrides: Vec<LineItem>) -> (r: Vec<LineItem>)
    ensures
        sorted(views(r@)),
        forall|a: int, b: int| 0 <= a < b < r.len() ==> #[trigger] r@[a].partial_cmp_spec(
            &#[trigger] r@[b],
        ) != Some(Ordering::Greater),
        views(r@).to_multiset().subset_of(
            views(defaults@).to_multiset().add(views(overrides@).to_multiset()),
        ),
        forall|k: int| 0 <= k < r.len() ==> views(defaults@).contains(#[trigger] views(r@)[k])
            || views(overrides@).contains(views(r@)[k]),
        forall|x: LineItemView| #[trigger] views(overrides@).contains(x) ==> views(r@).contains(x),
        forall|x: LineItemView| #[trigger] views(defaults@).contains(x) && !has_key(views(overrides@), x)
            ==> views(r@).contains(x),
        unique_keys(views(defaults@)) && unique_keys(views(overrides@)) ==> merge_result(
            views(defaults@),
            views(overrides@),
            views(r@),
        ),
{
    let ghost dv = views(defaults@);
    let ghost ov = views(overrides@);
    let sd = sort_items(defaults);
    let so = sort_items(overrides);
    let ghost d = views(sd@);
    let ghost o = views(so@);
    let ghost uniq = unique_keys(dv) && unique_keys(ov);
    proof {
        assert forall|x: LineItemView| d.contains(x) <==> dv.contains(x) by {
            assert(d.to_multiset().count(x) == dv.to_multiset().count(x));
        }
        assert forall|x: LineItemView| o.contains(x) <==> ov.contains(x) by {
            assert(o.to_multiset().count(x) == ov.to_multiset().count(x));
        }
        assert forall|x: LineItemView| has_key(o, x) <==> has_key(ov, x) by {
            if has_key(o, x) {
                let i = choose|i: int| 0 <= i < o.len() && same_key(#[trigger] o[i], x);
                assert(o.contains(o[i]));
                let k = choose|k: int| 0 <= k < ov.len() && ov[k] == o[i];
                assert(same_key(ov[k], x));
            }
            if has_key(ov, x) {
                let i = choose|i: int| 0 <= i < ov.len() && same_key(#[trigger] ov[i], x);
                assert(ov.contains(ov[i]));
                let k = choose|k: int| 0 <= k < o.len() && o[k] == ov[i];
                assert(same_key(o[k], x));
            }
        }
        if uniq {
            lemma_unique_keys_transfer(dv, d);
            lemma_unique_keys_transfer(ov, o);
            lemma_strict(d);
            lemma_strict(o);
        }
    }
    let mut out: Vec<LineItem> = Vec::new();
    let mut i: usize = 0;
    let mut j: usize = 0;
    while i < sd.len() || j < so.len()
        invariant
            d == views(sd@),
            o == views(so@),
            sorted(d),
            sorted(o),
            uniq ==> strictly_sorted(d) && strictly_sorted(o),
            i <= sd.len(),
            j <= so.len(),
            sorted(views(out@)),
            views(out@).to_multiset().subset_of(
                d.take(i as int).to_multiset().add(o.take(j as int).to_multiset()),
            ),
            out.len() > 0 ==> (i < d.len() ==> key_le(views(out@).last(), d[i as int])) && (j
                < o.len() ==> key_le(views(out@).last(), o[j as int])),
            uniq ==> strictly_sorted(views(out@)),
            uniq && out.len() > 0 ==> (i < d.len() ==> key_lt(views(out@).last(), d[i as int]))
                && (j < o.len() ==> key_lt(views(out@).last(), o[j as int])),
            forall|k: int| 0 <= k < out.len() ==> d.contains(#[trigger] views(out@)[k])
                || o.contains(views(out@)[k]),
            forall|m: int| 0 <= m < j ==> views(out@).contains(#[trigger] o[m]),
            forall|m: int| 0 <= m < i && !has_key(o, #[trigger] d[m]) ==> views(out@).contains(d[m]),
            uniq ==> forall|k: int| 0 <= k < out.len() ==> o.contains(#[trigger] views(out@)[k])
                || !has_key(o, views(out@)[k]),
        decreases sd.len() + so.len() - i - j,
    {
        let ghost ov0 = views(out@);
        let ghost i0 = i;
        let ghost j0 = j;
        let take_o: bool;
        let take_d: bool;
        if i < sd.len() && j < so.len() {
            match so[j].partial_cmp(&sd[i]) {
                Some(Ordering::Less) => {
                    take_o = true;
                    take_d = false;
                },
                Some(Ordering::Equal) => {
                    take_o = true;
                    take_d = true;
                },
                _ => {
                    take_o = false;
                    take_d = true;
                },
            }
        } else if i < sd.len() {
            take_o = false;
            take_d = true;
        } else {
            take_o = true;
            take_d = false;
        }
        let y = if take_o {
            so[j].to_owned()
        } else {
            sd[i].to_owned()
        };
        proof {
            if i0 < d.len() && j0 < o.len() {
                lemma_key_order(o[j0 as int], d[i0 as int], d[i0 as int]);
            }
            assert(take_o ==> y@ == o[j0 as int]);
            assert(!take_o ==> y@ == d[i0 as int]);
            // the new item is at least every item already out
            if out.len() > 0 {
                assert forall|k: int| 0 <= k < ov0.len() implies key_le(#[trigger] ov0[k], y@) by {
                    lemma_key_order(ov0[k], ov0.last(), y@);
                    if k < ov0.len() - 1 {
                        assert(key_le(ov0[k], ov0[ov0.len() - 1]));
                    }
                }
                if uniq {
                    assert forall|k: int| 0 <= k < ov0.len() implies key_lt(#[trigger] ov0[k], y@) by {
                        lemma_key_order(ov0[k], ov0.last(), y@);
                        if k < ov0.len() - 1 {
                            assert(key_lt(ov0[k], ov0[ov0.len() - 1]));
                        }
                    }
                }
            }
            // a default that goes out has no override with its key
            if uniq && !take_o {
                assert forall|m: int| 0 <= m < o.len() implies !same_key(#[trigger] o[m], y@) by {
                    if m >= j0 {
                        if m > j0 {
                            lemma_key_order(y@, o[j0 as int], o[m]);
                        }
                        lemma_key_order(y@, o[m], o[m]);
                    } else {
                        assert(ov0.contains(o[m]));
                        lemma_below_last(ov0, o[m]);
                        lemma_key_order(o[m], ov0.last(), y@);
                        lemma_key_order(o[m], y@, y@);
                    }
                }
            }
        }
        out.push(y);
        if take_o {
            j += 1;
        }
        if take_d {
            i += 1;
        }
        proof {
            let nv = views(out@);
            assert(nv =~= ov0.push(y@));
            broadcast use vstd::multiset::group_multiset_axioms;
            let a0 = d.take(i0 as int).to_multiset();
            let b0 = o.take(j0 as int).to_multiset();
            if take_d {
                assert(d.take(i as int) =~= d.take(i0 as int).push(d[i0 as int]));
            } else {
                assert(d.take(i as int) =~= d.take(i0 as int));
            }
            if take_o {
                assert(o.take(j as int) =~= o.take(j0 as int).push(o[j0 as int]));
            } else {
                assert(o.take(j as int) =~= o.take(j0 as int));
            }
            let a1 = d.take(i as int).to_multiset();
            let b1 = o.take(j as int).to_multiset();
            assert forall|x: LineItemView| nv.to_multiset().count(x) <= a1.add(b1).count(x) by {
                assert(ov0.to_multiset().count(x) <= a0.add(b0).count(x));
            }
            assert forall|k: int| 0 <= k < ov0.len() implies #[trigger] nv[k] == ov0[k] by {}
            assert(nv.contains(y@)) by {
                assert(nv[ov0.len() as int] == y@);
            }
            assert forall|m: int| 0 <= m < j implies nv.contains(#[trigger] o[m]) by {
                if m < j0 {
                    let k = choose|k: int| 0 <= k < ov0.len() && ov0[k] == o[m];
                    assert(nv[k] == o[m]);
                }
            }
            assert forall|m: int| 0 <= m < i && !has_key(o, #[trigger] d[m]) implies nv.contains(d[m]) by {
                if m < i0 {
                    let k = choose|k: int| 0 <= k < ov0.len() && ov0[k] == d[m];
                    assert(nv[k] == d[m]);
                } else if take_o {
                    assert(same_key(o[j0 as int], d[m]));
                }
            }
            if i < d.len() {
                if take_d {
                    lemma_key_order(y@, d[i0 as int], d[i as int]);
                } else {
                    lemma_key_order(y@, d[i as int], d[i as int]);
                }
            }
            if j < o.len() {
                if take_o {
                    lemma_key_order(y@, o[j0 as int], o[j as int]);
                } else {
                    lemma_key_order(y@, o[j as int], o[j as int]);
                }
            }
            if uniq {
                assert(take_o ==> o.contains(y@));
                assert(!take_o ==> !has_key(o, y@));
            }
        }
    }
    proof {
        let rv = views(out@);
        assert forall|a: int, b: int| 0 <= a < b < out.len() implies #[trigger] out@[a].partial_cmp_spec(
            &#[trigger] out@[b],
        ) != Some(Ordering::Greater) by {
            assert(key_le(rv[a], rv[b]));
        }
        assert(d.take(i as int) =~= d);
        assert(o.take(j as int) =~= o);
        if uniq {
            assert forall|a: int, b: int| 0 <= a < b < rv.len() implies !same_key(#[trigger] rv[a], #[trigger] rv[b]) by {
                lemma_key_order(rv[a], rv[b], rv[b]);
            }
        }
        assert forall|x: LineItemView| #[trigger] ov.contains(x) implies rv.contains(x) by {
            assert(o.contains(x));
            let m = choose|m: int| 0 <= m < o.len() && o[m] == x;
            assert(rv.contains(o[m]));
        }
        assert forall|x: LineItemView| #[trigger] dv.contains(x) && !has_key(ov, x) implies rv.contains(x) by {
            assert(d.contains(x));
            let m = choose|m: int| 0 <= m < d.len() && d[m] == x;
            assert(!has_key(o, d[m]));
        }
        if uniq {
            assert forall|x: LineItemView| #[trigger] rv.contains(x) implies (ov.contains(x) || (
            dv.contains(x) && !has_key(ov, x))) by {
                let k = choose|k: int| 0 <= k < rv.len() && rv[k] == x;
                assert(d.contains(rv[k]) || o.contains(rv[k]));
            }
        }
    }
    out
}

/// An override wins over the default with its merge key: the merge holds
/// the override, no other item with that key, and so not the default
/// unless the two are equal.
pub proof fn lemma_merge_precedence(
    d: Seq<LineItemView>,
    o: Seq<LineItemView>,
    r: Seq<LineItemView>,
    x: LineItemView,
    y: LineItemView,
)
    requires
        unique_keys(d),
        unique_keys(o),
        merge_result(d, o, r),
        o.contains(x),
        d.contains(y),
        same_key(x, y),
    ensures
        r.contains(x),
        forall|k: int| 0 <= k < r.len() && same_key(#[trigger] r[k], x) ==> r[k] == x,
        x != y ==> !r.contains(y),
{
    assert(r.contains(x));
    let kx = choose|k: int| 0 <= k < r.len() && r[k] == x;
    assert forall|k: int| 0 <= k < r.len() && same_key(#[trigger] r[k], x) implies r[k] == x by {
        if k < kx {
            assert(!same_key(r[k], r[kx]));
        } else if k > kx {
            assert(!same_key(r[kx], r[k]));
        }
    }
    if x != y && r.contains(y) {
        let ky = choose|k: int| 0 <= k < r.len() && r[k] == y;
        assert(same_key(r[ky], x));
    }
}

/// An item whose merge key only one side has comes through unchanged, and
/// the merge is in strict order.
pub proof fn lemma_merge_pass_through(
    d: Seq<LineItemView>,
    o: Seq<LineItemView>,
    r: Seq<LineItemView>,
    x: LineItemView,
)
    requires
        unique_keys(d),
        unique_keys(o),
        merge_result(d, o, r),
        (d.contains(x) && !has_key(o, x)) || (o.contains(x) && !has_key(d, x)),
    ensures
        r.contains(x),
        strictly_sorted(r),
        sorted(r),
{
    assert(r.contains(x));
    assert forall|i: int, j: int| 0 <= i < j < r.len() implies key_le(#[trigger] r[i], #[trigger] r[j]) by {
        assert(key_lt(r[i], r[j]));
    }
}

} // verus!
