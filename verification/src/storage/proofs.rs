//! Lemmas about the history's row sequences: filtering keeps the table
//! constraints, and the listing order is a sorted permutation.

use vstd::prelude::*;
use super::models::{ClipboardItem, ItemView};
use super::{
    items_view, rows_consistent, precedes, insert_pos_from, sorted_insert, sort_items,
    is_listing_order,
};

verus! {

pub proof fn lemma_items_view_push(v: Seq<ClipboardItem>, x: ClipboardItem)
    ensures
        items_view(v.push(x)) == items_view(v).push(x@),
{
    assert(items_view(v.push(x)) =~= items_view(v).push(x@));
}

pub proof fn lemma_items_view_insert(v: Seq<ClipboardItem>, k: int, x: ClipboardItem)
    requires
        0 <= k <= v.len(),
    ensures
        items_view(v.insert(k, x)) == items_view(v).insert(k, x@),
{
    assert(items_view(v.insert(k, x)) =~= items_view(v).insert(k, x@));
}

pub proof fn lemma_items_view_update(v: Seq<ClipboardItem>, k: int, x: ClipboardItem)
    requires
        0 <= k < v.len(),
    ensures
        items_view(v.update(k, x)) == items_view(v).update(k, x@),
{
    assert(items_view(v.update(k, x)) =~= items_view(v).update(k, x@));
}

/// One more element of `s` through the filter.
pub proof fn lemma_filter_take_step<A>(s: Seq<A>, i: int, p: spec_fn(A) -> bool)
    requires
        0 <= i < s.len(),
    ensures
        s.take(i + 1).filter(p) == if p(s[i]) {
            s.take(i).filter(p).push(s[i])
        } else {
            s.take(i).filter(p)
        },
{
    assert(s.take(i + 1) =~= s.take(i).push(s[i]));
    s.take(i).lemma_filter_push(s[i], p);
}

/// Filtering rows keeps the table constraints.
pub proof fn lemma_filter_keeps_consistent(
    items: Seq<ItemView>,
    p: spec_fn(ItemView) -> bool,
    last_id: i64,
)
    requires
        rows_consistent(items, last_id),
    ensures
        rows_consistent(items.filter(p), last_id),
    decreases items.len(),
{
    reveal(Seq::filter);
    if items.len() > 0 {
        let d = items.drop_last();
        let x = items.last();
        assert(rows_consistent(d, last_id));
        lemma_filter_keeps_consistent(d, p, last_id);
        let f = d.filter(p);
        if p(x) {
            assert forall|k: int| 0 <= k < f.len() implies f[k].id < x.id && f[k].hash
                != x.hash by {
                assert(f.contains(f[k]));
                d.lemma_filter_contains_rev(p, f[k]);
                let j = choose|j: int| 0 <= j < d.len() && d[j] == f[k];
                assert(items[j] == d[j]);
            }
            let g = f.push(x);
            assert(items.filter(p) == g);
            assert forall|a: int, b: int| 0 <= a < b < g.len() implies g[a].id < g[b].id by {
                if b == g.len() - 1 {
                    assert(g[a] == f[a]);
                } else {
                    assert(g[a] == f[a] && g[b] == f[b]);
                }
            }
            assert forall|a: int, b: int|
                0 <= a < g.len() && 0 <= b < g.len() && a != b implies g[a].hash
                != g[b].hash by {
                if a == g.len() - 1 {
                    assert(g[b] == f[b]);
                } else if b == g.len() - 1 {
                    assert(g[a] == f[a]);
                } else {
                    assert(g[a] == f[a] && g[b] == f[b]);
                }
            }
            assert forall|a: int| 0 <= a < g.len() implies 0 < #[trigger] g[a].id <= last_id by {
                if a < g.len() - 1 {
                    assert(g[a] == f[a]);
                }
            }
        } else {
            assert(items.filter(p) == f);
        }
    }
}

/// Where `sorted_insert` places a row: after every row it is not listed
/// before, in front of the first row it is listed before.
pub proof fn lemma_insert_pos(s: Seq<ItemView>, x: ItemView, k: int)
    requires
        0 <= k <= s.len(),
    ensures
        k <= insert_pos_from(s, x, k) <= s.len(),
        forall|j: int| k <= j < insert_pos_from(s, x, k) ==> !precedes(x, #[trigger] s[j]),
        insert_pos_from(s, x, k) < s.len() ==> precedes(x, s[insert_pos_from(s, x, k)]),
    decreases s.len() - k,
{
    if k < s.len() && !precedes(x, s[k]) {
        lemma_insert_pos(s, x, k + 1);
    }
}

/// Inserting into a sorted sequence keeps it sorted.
pub proof fn lemma_sorted_insert_sorted(s: Seq<ItemView>, x: ItemView)
    requires
        is_listing_order(s),
    ensures
        is_listing_order(sorted_insert(s, x)),
{
    let pos = insert_pos_from(s, x, 0);
    lemma_insert_pos(s, x, 0);
    let r = sorted_insert(s, x);
    assert(r.len() == s.len() + 1);
    assert forall|i: int, j: int| 0 <= i < j < r.len() implies !precedes(
        #[trigger] r[j],
        #[trigger] r[i],
    ) by {
        if j < pos {
            assert(r[i] == s[i] && r[j] == s[j]);
        } else if j == pos {
            assert(r[i] == s[i] && r[j] == x);
        } else if i < pos {
            assert(r[i] == s[i] && r[j] == s[j - 1]);
        } else if i == pos {
            assert(r[i] == x && r[j] == s[j - 1]);
            assert(precedes(x, s[pos]));
            if j - 1 > pos {
                assert(!precedes(s[j - 1], s[pos]));
            }
        } else {
            assert(r[i] == s[i - 1] && r[j] == s[j - 1]);
        }
    }
}

/// The listing order is sorted.
pub proof fn lemma_sort_items_sorted(s: Seq<ItemView>)
    ensures
        is_listing_order(sort_items(s)),
    decreases s.len(),
{
    if s.len() > 0 {
        lemma_sort_items_sorted(s.drop_last());
        lemma_sorted_insert_sorted(sort_items(s.drop_last()), s.last());
    }
}

/// The listing order holds the same rows, as often as the sequence does.
pub proof fn lemma_sort_items_multiset(s: Seq<ItemView>)
    ensures
        sort_items(s).to_multiset() == s.to_multiset(),
        sort_items(s).len() == s.len(),
    decreases s.len(),
{
    broadcast use vstd::seq_lib::group_seq_properties;
    broadcast use vstd::multiset::group_multiset_axioms;
    broadcast use Seq::to_multiset_ensures;

    if s.len() > 0 {
        let d = s.drop_last();
        let x = s.last();
        lemma_sort_items_multiset(d);
        let t = sort_items(d);
        let pos = insert_pos_from(t, x, 0);
        lemma_insert_pos(t, x, 0);
        let r = t.insert(pos, x);
        assert(r.remove(pos) =~= t);
        assert(r[pos] == x);
        assert(r.remove(pos).to_multiset() =~= r.to_multiset().remove(x));
        assert(r.contains(x));
        assert(r.to_multiset() =~= t.to_multiset().insert(x));
        assert(d.push(x) =~= s);
        assert(s.to_multiset() =~= d.to_multiset().insert(x));
    }
}

/// Every row of the listing order is a row of the sequence, and back.
pub proof fn lemma_sort_items_contains(s: Seq<ItemView>, x: ItemView)
    ensures
        sort_items(s).contains(x) <==> s.contains(x),
{
    lemma_sort_items_multiset(s);
    sort_items(s).to_multiset_ensures();
    s.to_multiset_ensures();
    assert(sort_items(s).to_multiset().count(x) == s.to_multiset().count(x));
}

} // verus!
