//! Properties of the clipboard history that span several operations.

use vstd::prelude::*;
use crate::storage::models::ItemView;
use crate::storage::{
    DbState, DbError, rows_consistent, setting_value, has_hash, hash_index, has_id, id_index,
    item_with_id, toggled, pinned_row, other_id, unpinned_row, pinned_or_among, kept_ids,
    sort_items, precedes, listing, passing, passes_filters, page, blob_stripped,
    row_id,
};
use crate::storage::proofs::{lemma_sort_items_sorted, lemma_sort_items_contains, lemma_sort_items_multiset};
use crate::text::{
    like_from, like_match, contains_pattern, decimal, digit_char, digits_value, all_digits, is_digit,
    parse_u32_spec, u32_digits,
};
use crate::storage::{text_hash, bytes_hash};
use crate::capture::text_preview_spec;
use crate::clipboard::detect::{MonitorState, Reaction, image_signature_of, le_bytes};
use crate::clipboard::{ClipboardContent, ClipboardImage};
use crate::paste::{PasteContent, paste_ok, rgba_decoding, image_holds};
use crate::storage::cleanup_limit;
use crate::storage::models::opt_chars;
use crate::text::like_fold;
use crate::capture::{text_item_spec, image_item_spec};

verus! {

/// Reading a setting right after writing it gives the written value, and
/// writing one key leaves every other key as it was.
pub proof fn law_setting_read_after_write(
    s: DbState,
    key: Seq<char>,
    value: Seq<char>,
    other: Seq<char>,
)
    ensures
        setting_value(s.after_set_setting(key, value).settings, key) == Some(value),
        other != key ==> setting_value(s.after_set_setting(key, value).settings, other)
            == setting_value(s.settings, other),
{
}

/// Capturing content that is already in the history adds no row: the row that
/// holds it is answered and gets the new timestamp, and nothing else changes.
pub proof fn law_insert_existing_content_moves_row(s: DbState, item: ItemView)
    requires
        rows_consistent(s.items, s.last_id),
        has_hash(s.items, item.hash),
    ensures
        ({
            let i = hash_index(s.items, item.hash);
            let after = s.after_insert(item);
            &&& s.insert_result(item) == Ok::<i64, DbError>(s.items[i].id)
            &&& after.items.len() == s.items.len()
            &&& after.last_id == s.last_id
            &&& after.items[i].created_at == item.created_at
            &&& after.items[i].id == s.items[i].id
            &&& after.items[i].pinned == s.items[i].pinned
            &&& after.items[i].hash == item.hash
            &&& after.items[i] == ItemView { created_at: item.created_at, ..s.items[i] }
            &&& forall|j: int| 0 <= j < s.items.len() && j != i ==> after.items[j] == s.items[j]
            &&& after.settings == s.settings
        }),
{
}

/// New content gets a fresh row id, and looking that id up finds the item.
pub proof fn law_insert_new_content_is_found(s: DbState, item: ItemView)
    requires
        rows_consistent(s.items, s.last_id),
        !has_hash(s.items, item.hash),
        s.last_id < i64::MAX,
    ensures
        ({
            let id = (s.last_id + 1) as i64;
            let after = s.after_insert(item);
            &&& s.insert_result(item) == Ok::<i64, DbError>(id)
            &&& !has_id(s.items, id)
            &&& item_with_id(after.items, id) == Some(item.with_id(id))
            &&& item.with_id(id) == ItemView { id: id, ..item }
            &&& after.items.len() == s.items.len() + 1
            &&& after.items.last() == ItemView { id: id, ..item }
            &&& forall|j: int| 0 <= j < s.items.len() ==> after.items[j] == s.items[j]
            &&& after.last_id == id
            &&& after.settings == s.settings
            &&& rows_consistent(after.items, after.last_id)
        }),
{
    let id = (s.last_id + 1) as i64;
    let after = s.after_insert(item);
    let n = s.items.len() as int;
    assert(after.items[n].id == id);
    assert(has_id(after.items, id));
    let k = id_index(after.items, id);
    if k != n {
        assert(after.items[k] == s.items[k]);
    }
    assert forall|a: int, b: int|
        0 <= a < after.items.len() && 0 <= b < after.items.len() && a != b implies after.items[a].hash
        != after.items[b].hash by {
        if a < n && b < n {
            assert(after.items[a] == s.items[a] && after.items[b] == s.items[b]);
        } else if a < n {
            assert(after.items[a] == s.items[a]);
        } else {
            assert(after.items[b] == s.items[b]);
        }
    }
    assert forall|a: int, b: int| 0 <= a < b < after.items.len() implies after.items[a].id
        < after.items[b].id by {
        assert(after.items[a] == s.items[a]);
    }
    assert forall|a: int| 0 <= a < after.items.len() implies 0 < #[trigger] after.items[a].id
        <= after.last_id by {
        if a < n {
            assert(after.items[a] == s.items[a]);
        }
    }
}

/// Capturing the same content twice keeps one row for it, answered both
/// times, with the second timestamp.
pub proof fn law_same_content_twice_one_row(s: DbState, first: ItemView, second: ItemView)
    requires
        rows_consistent(s.items, s.last_id),
        !has_hash(s.items, first.hash),
        s.last_id < i64::MAX,
        second.hash == first.hash,
    ensures
        ({
            let once = s.after_insert(first);
            let twice = once.after_insert(second);
            &&& twice.items.len() == s.items.len() + 1
            &&& once.insert_result(second) == s.insert_result(first)
            &&& twice.items.last().created_at == second.created_at
            &&& twice.items.last().hash == first.hash
        }),
{
    law_insert_new_content_is_found(s, first);
    let once = s.after_insert(first);
    let n = s.items.len() as int;
    assert(once.items[n].hash == second.hash);
    assert(has_hash(once.items, second.hash));
    let i = hash_index(once.items, second.hash);
    if i != n {
        assert(once.items[i].hash != once.items[n].hash);
    }
}

/// Flipping a pin twice restores the history.
pub proof fn law_toggle_pin_twice_restores(s: DbState, id: i64)
    ensures
        s.after_toggle_pin(id).after_toggle_pin(id) == s,
{
    let once = s.after_toggle_pin(id);
    let twice = once.after_toggle_pin(id);
    assert forall|i: int| 0 <= i < s.items.len() implies twice.items[i] == s.items[i] by {
        assert(once.items[i] == toggled(id)(s.items[i]));
    }
    assert(twice.items =~= s.items);
}

/// Deleting a row removes exactly the row with that id.
pub proof fn law_delete_removes_exactly_that_row(s: DbState, id: i64, x: ItemView)
    ensures
        item_with_id(s.after_delete(id).items, id) is None,
        s.after_delete(id).items.contains(x) <==> (s.items.contains(x) && x.id != id),
{
    let f = s.after_delete(id).items;
    reveal(Seq::filter);
    if has_id(f, id) {
        let k = id_index(f, id);
        assert(f.contains(f[k]));
        s.items.lemma_filter_contains_rev(other_id(id), f[k]);
        assert(other_id(id)(f[k])) by {
            s.items.lemma_filter_pred(other_id(id), k);
        }
    }
    if f.contains(x) {
        s.items.lemma_filter_contains_rev(other_id(id), x);
        let k = choose|k: int| 0 <= k < f.len() && f[k] == x;
        s.items.lemma_filter_pred(other_id(id), k);
    }
    if s.items.contains(x) && x.id != id {
        let k = choose|k: int| 0 <= k < s.items.len() && s.items[k] == x;
        s.items.lemma_filter_contains(other_id(id), k);
    }
}

/// Clearing the history keeps exactly the pinned rows, and clearing twice is
/// clearing once.
pub proof fn law_clear_keeps_exactly_pinned(s: DbState, x: ItemView)
    ensures
        s.after_clear().items.contains(x) <==> (s.items.contains(x) && x.pinned),
        s.after_clear().after_clear() == s.after_clear(),
{
    let f = s.after_clear().items;
    if f.contains(x) {
        s.items.lemma_filter_contains_rev(pinned_row(), x);
        let k = choose|k: int| 0 <= k < f.len() && f[k] == x;
        s.items.lemma_filter_pred(pinned_row(), k);
    }
    if s.items.contains(x) && x.pinned {
        let k = choose|k: int| 0 <= k < s.items.len() && s.items[k] == x;
        s.items.lemma_filter_contains(pinned_row(), k);
    }
    assert forall|i: int| 0 <= i < f.len() implies pinned_row()(#[trigger] f[i]) by {
        s.items.lemma_filter_pred(pinned_row(), i);
    }
    lemma_filter_all_pass(f, pinned_row());
    assert(s.after_clear().after_clear().items == f.filter(pinned_row()));
}

/// Filtering a sequence whose every element passes changes nothing.
pub proof fn lemma_filter_all_pass<A>(s: Seq<A>, p: spec_fn(A) -> bool)
    requires
        forall|i: int| 0 <= i < s.len() ==> p(#[trigger] s[i]),
    ensures
        s.filter(p) == s,
    decreases s.len(),
{
    reveal(Seq::filter);
    if s.len() > 0 {
        lemma_filter_all_pass(s.drop_last(), p);
        assert(s.drop_last().push(s.last()) =~= s);
    }
}

/// Two rows of a consistent table with the same id are the same row.
proof fn lemma_ids_identify_rows(items: Seq<ItemView>, last_id: i64, a: ItemView, b: ItemView)
    requires
        rows_consistent(items, last_id),
        items.contains(a),
        items.contains(b),
        a.id == b.id,
    ensures
        a == b,
{
    let i = choose|i: int| 0 <= i < items.len() && items[i] == a;
    let j = choose|j: int| 0 <= j < items.len() && items[j] == b;
    if i < j {
        assert(items[i].id < items[j].id);
    } else if j < i {
        assert(items[j].id < items[i].id);
    }
}

/// The history limit keeps every pinned row, keeps only rows that were there,
/// keeps at most `limit` unpinned rows, and never drops an unpinned row that
/// is newer than one it keeps.
pub proof fn law_limit_keeps_pinned_and_most_recent(
    s: DbState,
    limit: u32,
    x: ItemView,
    kept: ItemView,
    dropped: ItemView,
)
    requires
        rows_consistent(s.items, s.last_id),
    ensures
        s.items.contains(x) && x.pinned ==> s.after_limit(limit).items.contains(x),
        s.after_limit(limit).items.contains(x) ==> s.items.contains(x),
        ({
            let after = s.after_limit(limit).items;
            (after.contains(kept) && !kept.pinned && s.items.contains(dropped) && !dropped.pinned
                && !after.contains(dropped)) ==> dropped.created_at <= kept.created_at
        }),
{
    let u = s.items.filter(unpinned_row());
    let srt = sort_items(u);
    let ids = kept_ids(s.items, limit);
    let n = ids.len() as int;
    let after = s.items.filter(pinned_or_among(ids));
    assert(after == s.after_limit(limit).items);
    if s.items.contains(x) && x.pinned {
        let k = choose|k: int| 0 <= k < s.items.len() && s.items[k] == x;
        s.items.lemma_filter_contains(pinned_or_among(ids), k);
    }
    if after.contains(x) {
        s.items.lemma_filter_contains_rev(pinned_or_among(ids), x);
    }
    if after.contains(kept) && !kept.pinned && s.items.contains(dropped) && !dropped.pinned
        && !after.contains(dropped) {
        // `kept` is one of the first `n` rows in listing order.
        let ka = choose|ka: int| 0 <= ka < after.len() && after[ka] == kept;
        s.items.lemma_filter_pred(pinned_or_among(ids), ka);
        assert(ids.contains(kept.id));
        let i = choose|i: int| 0 <= i < ids.len() && ids[i] == kept.id;
        assert(srt.take(n)[i] == srt[i]);
        assert(srt[i].id == kept.id);
        assert(srt.contains(srt[i]));
        lemma_sort_items_contains(u, srt[i]);
        s.items.lemma_filter_contains_rev(unpinned_row(), srt[i]);
        s.items.lemma_filter_contains_rev(pinned_or_among(ids), kept);
        lemma_ids_identify_rows(s.items, s.last_id, srt[i], kept);
        // `dropped` comes at or after position `n`.
        let da = choose|da: int| 0 <= da < s.items.len() && s.items[da] == dropped;
        s.items.lemma_filter_contains(unpinned_row(), da);
        lemma_sort_items_contains(u, dropped);
        let j = choose|j: int| 0 <= j < srt.len() && srt[j] == dropped;
        if j < n {
            assert(ids[j] == dropped.id);
            assert(ids.contains(dropped.id));
            s.items.lemma_filter_contains(pinned_or_among(ids), da);
        }
        lemma_sort_items_sorted(u);
        assert(!precedes(srt[j], srt[i]));
    }
}

/// The ids of a consistent table's rows are distinct.
proof fn lemma_consistent_ids_distinct(items: Seq<ItemView>, last_id: i64)
    requires
        rows_consistent(items, last_id),
    ensures
        items.map_values(row_id()).no_duplicates(),
        items.no_duplicates(),
{
    let m = items.map_values(row_id());
    assert forall|i: int, j: int| 0 <= i < m.len() && 0 <= j < m.len() && i != j implies m[i]
        != m[j] by {
        if i < j {
            assert(items[i].id < items[j].id);
        } else {
            assert(items[j].id < items[i].id);
        }
    }
    assert forall|i: int, j: int| 0 <= i < items.len() && 0 <= j < items.len() && i != j implies items[i]
        != items[j] by {
        assert(m[i] != m[j]);
    }
}

/// After the history limit, exactly `min(limit, unpinned rows)` unpinned rows
/// remain.
pub proof fn law_limit_unpinned_count(s: DbState, limit: u32)
    requires
        rows_consistent(s.items, s.last_id),
    ensures
        ({
            let unpinned = s.items.filter(unpinned_row()).len();
            let remaining = s.after_limit(limit).items.filter(unpinned_row()).len();
            remaining == if limit <= unpinned { limit as int } else { unpinned as int }
        }),
{
    broadcast use vstd::set::group_set_axioms;

    let u = s.items.filter(unpinned_row());
    let srt = sort_items(u);
    let ids = kept_ids(s.items, limit);
    let n = ids.len() as int;
    let after = s.items.filter(pinned_or_among(ids));
    let a = after.filter(unpinned_row());
    lemma_sort_items_multiset(u);
    crate::storage::proofs::lemma_filter_keeps_consistent(s.items, unpinned_row(), s.last_id);
    crate::storage::proofs::lemma_filter_keeps_consistent(s.items, pinned_or_among(ids), s.last_id);
    crate::storage::proofs::lemma_filter_keeps_consistent(after, unpinned_row(), s.last_id);
    lemma_consistent_ids_distinct(u, s.last_id);
    lemma_consistent_ids_distinct(a, s.last_id);
    // The rows in listing order are distinct, and so are their ids.
    u.lemma_multiset_has_no_duplicates();
    assert forall|x: ItemView| srt.to_multiset().contains(x) implies srt.to_multiset().count(x)
        == 1 by {
        assert(u.to_multiset().contains(x));
    }
    srt.lemma_multiset_has_no_duplicates_conv();
    assert forall|i: int, j: int| 0 <= i < ids.len() && 0 <= j < ids.len() && i != j implies ids[i]
        != ids[j] by {
        if ids[i] == ids[j] {
            assert(srt.take(n)[i] == srt[i] && srt.take(n)[j] == srt[j]);
            assert(srt.contains(srt[i]) && srt.contains(srt[j]));
            lemma_sort_items_contains(u, srt[i]);
            lemma_sort_items_contains(u, srt[j]);
            lemma_ids_identify_rows(u, s.last_id, srt[i], srt[j]);
        }
    }
    // The remaining unpinned rows carry exactly the kept ids.
    let am = a.map_values(row_id());
    assert forall|x: i64| am.to_set().contains(x) <==> ids.to_set().contains(x) by {
        if am.contains(x) {
            let k = choose|k: int| 0 <= k < am.len() && am[k] == x;
            assert(a.contains(a[k]));
            after.lemma_filter_contains_rev(unpinned_row(), a[k]);
            after.lemma_filter_pred(unpinned_row(), k);
            let ka = choose|ka: int| 0 <= ka < after.len() && after[ka] == a[k];
            s.items.lemma_filter_pred(pinned_or_among(ids), ka);
        }
        if ids.contains(x) {
            let i = choose|i: int| 0 <= i < ids.len() && ids[i] == x;
            assert(srt.take(n)[i] == srt[i]);
            let r = srt[i];
            assert(srt.contains(r));
            lemma_sort_items_contains(u, r);
            s.items.lemma_filter_contains_rev(unpinned_row(), r);
            let ku = choose|ku: int| 0 <= ku < u.len() && u[ku] == r;
            s.items.lemma_filter_pred(unpinned_row(), ku);
            let ks = choose|ks: int| 0 <= ks < s.items.len() && s.items[ks] == r;
            s.items.lemma_filter_contains(pinned_or_among(ids), ks);
            let kf = choose|kf: int| 0 <= kf < after.len() && after[kf] == r;
            after.lemma_filter_contains(unpinned_row(), kf);
            let ka = choose|ka: int| 0 <= ka < a.len() && a[ka] == r;
            assert(am[ka] == x);
        }
    }
    assert(am.to_set() =~= ids.to_set());
    am.unique_seq_to_set();
    ids.unique_seq_to_set();
    assert(srt.len() == u.len());
}

/// A listing holds at most `limit` rows, none with its full-size blob, each a
/// row of the history that passes the filters, in listing order: pinned rows
/// first, then newer before older.
pub proof fn law_listing_shape(
    items: Seq<ItemView>,
    limit: u32,
    offset: u32,
    search: Option<Seq<char>>,
    content_type: Option<Seq<char>>,
)
    ensures
        ({
            let l = listing(items, limit, offset, search, content_type);
            &&& l.len() <= limit
            &&& forall|i: int| 0 <= i < l.len() ==> (#[trigger] l[i]).blob_content is None
            &&& forall|i: int|
                0 <= i < l.len() ==> exists|e: ItemView|
                    items.contains(e) && passes_filters(e, search, content_type) && #[trigger] l[i]
                        == e.without_blob()
            &&& forall|i: int, j: int| 0 <= i < j < l.len() ==> !precedes(#[trigger] l[j], #[trigger] l[i])
        }),
{
    let sel = items.filter(passing(search, content_type));
    let srt = sort_items(sel);
    let pg = page(srt, offset, limit);
    let l = listing(items, limit, offset, search, content_type);
    let start = if offset <= srt.len() { offset as int } else { srt.len() as int };
    lemma_sort_items_sorted(sel);
    assert forall|i: int| 0 <= i < l.len() implies exists|e: ItemView|
        items.contains(e) && passes_filters(e, search, content_type) && #[trigger] l[i]
            == e.without_blob() by {
        let e = pg[i];
        assert(e == srt[start + i]);
        assert(srt.contains(e));
        lemma_sort_items_contains(sel, e);
        items.lemma_filter_contains_rev(passing(search, content_type), e);
        let k = choose|k: int| 0 <= k < sel.len() && sel[k] == e;
        items.lemma_filter_pred(passing(search, content_type), k);
        assert(l[i] == e.without_blob());
    }
    assert forall|i: int, j: int| 0 <= i < j < l.len() implies !precedes(
        #[trigger] l[j],
        #[trigger] l[i],
    ) by {
        assert(pg[i] == srt[start + i] && pg[j] == srt[start + j]);
        assert(!precedes(srt[start + j], srt[start + i]));
    }
}

/// Consecutive pages of a listing, taken one after the other, are the
/// listing's rows in order: the page at `offset` of `first` rows followed by
/// the page right after it is the page at `offset` of `first + second` rows.
pub proof fn law_pages_concatenate(
    items: Seq<ItemView>,
    offset: u32,
    first: u32,
    second: u32,
    search: Option<Seq<char>>,
    content_type: Option<Seq<char>>,
)
    requires
        offset + first + second <= u32::MAX,
    ensures
        listing(items, first, offset, search, content_type) + listing(
            items,
            second,
            (offset + first) as u32,
            search,
            content_type,
        ) == listing(items, (first + second) as u32, offset, search, content_type),
{
    let srt = sort_items(items.filter(passing(search, content_type)));
    let a = page(srt, offset, first);
    let b = page(srt, (offset + first) as u32, second);
    let c = page(srt, offset, (first + second) as u32);
    assert(a + b =~= c);
    assert((a + b).map_values(blob_stripped()) =~= a.map_values(blob_stripped()) + b.map_values(
        blob_stripped(),
    ));
}

/// A first page at least as long as the history lists every row that passes
/// the filters.
pub proof fn law_listing_first_page_complete(
    items: Seq<ItemView>,
    limit: u32,
    search: Option<Seq<char>>,
    content_type: Option<Seq<char>>,
    e: ItemView,
)
    requires
        items.len() <= limit,
        items.contains(e),
        passes_filters(e, search, content_type),
    ensures
        listing(items, limit, 0, search, content_type).contains(e.without_blob()),
{
    let sel = items.filter(passing(search, content_type));
    let srt = sort_items(sel);
    let k = choose|k: int| 0 <= k < items.len() && items[k] == e;
    items.lemma_filter_contains(passing(search, content_type), k);
    lemma_sort_items_contains(sel, e);
    lemma_sort_items_multiset(sel);
    sel.lemma_filter_len(passing(search, content_type));
    items.lemma_filter_len(passing(search, content_type));
    let j = choose|j: int| 0 <= j < srt.len() && srt[j] == e;
    let pg = page(srt, 0, limit);
    assert(pg =~= srt);
    let l = listing(items, limit, 0, search, content_type);
    assert(l[j] == e.without_blob());
}

proof fn lemma_like_trailing_percent(t: Seq<char>, p: Seq<char>, i: int)
    requires
        p.len() >= 1,
        p[p.len() - 1] == '%',
        0 <= i <= t.len(),
    ensures
        like_from(t, p, i, p.len() - 1),
    decreases t.len() - i,
{
    assert(like_from(t, p, i, p.len() as int) == (i >= t.len()));
    if i < t.len() {
        lemma_like_trailing_percent(t, p, i + 1);
    }
}

proof fn lemma_like_literal(t: Seq<char>, p: Seq<char>, i: int, j: int, m: int)
    requires
        0 <= m,
        0 <= i,
        0 <= j,
        i + m <= t.len(),
        j + m <= p.len(),
        forall|q: int|
            0 <= q < m ==> p[j + q] != '%' && p[j + q] != '_' && #[trigger] p[j + q] == t[i + q],
        like_from(t, p, i + m, j + m),
    ensures
        like_from(t, p, i, j),
    decreases m,
{
    if m > 0 {
        assert(p[j + 0] == t[i + 0]);
        assert forall|q: int| 0 <= q < m - 1 implies p[(j + 1) + q] != '%' && p[(j + 1) + q] != '_'
            && #[trigger] p[(j + 1) + q] == t[(i + 1) + q] by {
            assert(p[j + (q + 1)] == t[i + (q + 1)]);
        }
        lemma_like_literal(t, p, i + 1, j + 1, m - 1);
    }
}

proof fn lemma_like_percent_skip(t: Seq<char>, p: Seq<char>, i: int, j: int, k: int)
    requires
        0 <= j < p.len(),
        p[j] == '%',
        0 <= i <= k <= t.len(),
        like_from(t, p, k, j + 1),
    ensures
        like_from(t, p, i, j),
    decreases k - i,
{
    if i < k {
        lemma_like_percent_skip(t, p, i + 1, j, k);
    }
}

/// Searching finds every preview that contains the search text, when the
/// search text holds no `LIKE` wildcard.
pub proof fn law_search_finds_substring(t: Seq<char>, s: Seq<char>, k: int)
    requires
        0 <= k,
        k + s.len() <= t.len(),
        t.subrange(k, k + s.len()) == s,
        forall|q: int| 0 <= q < s.len() ==> #[trigger] s[q] != '%' && s[q] != '_',
    ensures
        like_match(t, contains_pattern(s)),
{
    let p = contains_pattern(s);
    let m = s.len() as int;
    assert(p.len() == m + 2);
    assert(p[m + 1] == '%');
    lemma_like_trailing_percent(t, p, k + m);
    assert forall|q: int| 0 <= q < m implies p[1 + q] != '%' && p[1 + q] != '_' && #[trigger] p[1
        + q] == t[k + q] by {
        assert(p[1 + q] == s[q]);
        assert(t.subrange(k, k + m)[q] == t[k + q]);
    }
    lemma_like_literal(t, p, k, 1, m);
    lemma_like_percent_skip(t, p, 0, 0, k);
}

/// A preview is at most 203 characters long; a text of at most 200
/// characters is its own preview, and a longer one's preview starts with its
/// first 200 characters.
pub proof fn law_preview_bounded(text: Seq<char>)
    ensures
        text_preview_spec(text).len() <= 203,
        text.len() <= 200 ==> text_preview_spec(text) == text,
        text.len() > 200 ==> text_preview_spec(text).take(200) == text.take(200),
        text.len() > 200 ==> text_preview_spec(text) == text.take(200) + "..."@,
{
    reveal_strlit("...");
    if text.len() > 200 {
        assert(text_preview_spec(text).take(200) =~= text.take(200));
    }
}

/// A monitor does not report the same text twice in a row.
pub proof fn law_text_not_reported_twice(s: MonitorState, t: Seq<char>)
    requires
        s.reaction(None, Some(t)) == Reaction::ReportText,
    ensures
        s.after(None, Some(t)).reaction(None, Some(t)) == Reaction::Nothing,
{
}

/// A monitor does not report the same image twice in a row.
pub proof fn law_image_not_reported_twice(
    s: MonitorState,
    sig: Seq<u8>,
    t1: Option<Seq<char>>,
    t2: Option<Seq<char>>,
)
    requires
        s.reaction(Some(sig), t1) == Reaction::ReportImage,
    ensures
        s.after(Some(sig), t1).reaction(Some(sig), t2) != Reaction::ReportImage,
{
}

/// A text copied again after an image was reported is reported again, and
/// so is an image copied again after a text was reported.
pub proof fn law_other_kind_resets_memory(
    s: MonitorState,
    sig: Seq<u8>,
    t: Seq<char>,
)
    requires
        !s.paused,
        t.len() > 0,
        sig.len() > 0,
    ensures
        s.reaction(Some(sig), None) == Reaction::ReportImage ==> s.after(Some(sig), None).reaction(
            None,
            Some(t),
        ) == Reaction::ReportText,
        s.reaction(None, Some(t)) == Reaction::ReportText ==> s.after(None, Some(t)).reaction(
            Some(sig),
            None,
        ) == Reaction::ReportImage,
{
}

/// A paused monitor reports nothing and keeps its state.
pub proof fn law_paused_monitor_ignores_readings(
    m: MonitorState,
    sig: Option<Seq<u8>>,
    t: Option<Seq<char>>,
)
    requires
        m.paused,
    ensures
        m.reaction(sig, t) == Reaction::Nothing,
        m.after(sig, t) == m,
{
}

/// Pausing and resuming keeps what the monitor last reported: after resuming,
/// a reading is judged as it would have been before the pause.
pub proof fn law_pause_resume_keeps_memory(
    m: MonitorState,
    sig: Option<Seq<u8>>,
    t: Option<Seq<char>>,
)
    requires
        !m.paused,
    ensures
        ({
            let resumed = MonitorState { paused: false, ..MonitorState { paused: true, ..m } };
            &&& resumed == m
            &&& resumed.reaction(sig, t) == m.reaction(sig, t)
        }),
{
}

/// The hash of a text is the hash of its UTF-8 bytes: the same content
/// copied as text or as bytes is recognised as the same.
pub proof fn law_text_hash_is_utf8_bytes_hash(t: Seq<char>)
    ensures
        text_hash(t) == bytes_hash(vstd::utf8::encode_utf8(t)),
{
}

proof fn lemma_decimal_digits(n: nat)
    ensures
        decimal(n).len() > 0,
        all_digits(decimal(n)),
        digits_value(decimal(n)) == n,
    decreases n,
{
    let d = (n % 10) as int;
    assert(digit_char(d) as u32 == d + 48) by {
        assert(0 <= d < 10);
    }
    if n >= 10 {
        lemma_decimal_digits(n / 10);
        let s = decimal(n / 10);
        assert(decimal(n).drop_last() =~= s);
        assert(decimal(n).last() == digit_char(d));
        assert(digits_value(decimal(n)) == digits_value(s) * 10 + d);
        assert((n / 10) * 10 + d == n);
        assert forall|i: int| 0 <= i < decimal(n).len() implies is_digit(#[trigger] decimal(n)[i]) by {
            if i < s.len() {
                assert(decimal(n)[i] == s[i]);
            }
        }
    } else {
        assert(decimal(n).drop_last() =~= Seq::<char>::empty());
        assert(decimal(n).last() == digit_char(d));
        assert(digits_value(decimal(n)) == digits_value(Seq::<char>::empty()) * 10 + d);
    }
}

/// A limit written as a decimal numeral reads back as the same number.
pub proof fn law_decimal_parses_back(n: u32)
    ensures
        parse_u32_spec(decimal(n as nat)) == Some(n),
{
    lemma_decimal_digits(n as nat);
    assert(is_digit(decimal(n as nat)[0]));
    assert(u32_digits(decimal(n as nat)) == decimal(n as nat));
}

// ---------------------------------------------------------------- pasting

/// Pasting a row that is not an image writes the row's whole text (an empty
/// text when it has none), whatever its preview holds.
pub proof fn law_paste_text_row_writes_its_text(item: ItemView, res: Result<PasteContent, String>)
    requires
        paste_ok(item, res),
        item.content_type != "image"@,
    ensures
        res matches Ok(PasteContent::Text(x)) && (item.text_content matches Some(t) ==> x@ == t)
            && (item.text_content is None ==> x@.len() == 0),
{
}

/// Pasting an image row never writes text: it writes the decoded pixels of
/// the stored image, and fails exactly when there is no stored image or it
/// does not decode.
pub proof fn law_paste_image_row_writes_its_pixels(item: ItemView, res: Result<PasteContent, String>)
    requires
        paste_ok(item, res),
        item.content_type == "image"@,
    ensures
        !(res matches Ok(PasteContent::Text(_))),
        (res is Ok) <==> (item.blob_content matches Some(b) && rgba_decoding(b) is Some),
        res matches Ok(PasteContent::Image(img)) ==> image_holds(
            img,
            rgba_decoding(item.blob_content->Some_0)->Some_0,
        ),
{
}

/// A captured text pastes back as exactly that text.
pub proof fn law_captured_text_pastes_back(
    t: Seq<char>,
    app: Option<Seq<char>>,
    at: i64,
    res: Result<PasteContent, String>,
)
    requires
        paste_ok(text_item_spec(t, app, at), res),
    ensures
        res matches Ok(PasteContent::Text(x)) && x@ == t,
{
    reveal_strlit("text");
    reveal_strlit("image");
    assert(("text"@)[0] != ("image"@)[0]);
}

// ---------------------------------------------------------------- searching

/// The case folding of the search compares letters `A`-`Z` with `a`-`z` and
/// every other character only with itself.
pub proof fn law_search_folds_only_ascii_case(a: char, b: char)
    ensures
        like_fold(a) == like_fold(b) <==> (a == b || ('A' <= a <= 'Z' && b as u32
            == a as u32 + 32) || ('A' <= b <= 'Z' && a as u32 == b as u32 + 32)),
{
}

proof fn lemma_like_literal_run(t: Seq<char>, p: Seq<char>, i: int, j: int, m: int)
    requires
        0 <= i <= t.len(),
        0 <= j,
        0 <= m,
        j + m <= p.len(),
        forall|q: int| 0 <= q < m ==> #[trigger] p[j + q] != '%' && p[j + q] != '_',
        like_from(t, p, i, j),
    ensures
        i + m <= t.len(),
        forall|q: int| 0 <= q < m ==> like_fold(#[trigger] p[j + q]) == like_fold(t[i + q]),
        like_from(t, p, i + m, j + m),
    decreases m,
{
    if m > 0 {
        assert(p[j + 0] != '%' && p[j + 0] != '_');
        assert forall|q: int| 0 <= q < m - 1 implies #[trigger] p[(j + 1) + q] != '%' && p[(j + 1)
            + q] != '_' by {
            assert(p[j + (q + 1)] != '%');
        }
        lemma_like_literal_run(t, p, i + 1, j + 1, m - 1);
        assert forall|q: int| 0 <= q < m implies like_fold(#[trigger] p[j + q]) == like_fold(
            t[i + q],
        ) by {
            if q > 0 {
                assert(p[(j + 1) + (q - 1)] == p[j + q]);
                assert(t[(i + 1) + (q - 1)] == t[i + q]);
            }
        }
    }
}

proof fn lemma_like_leading_percent(t: Seq<char>, p: Seq<char>, i: int)
    requires
        p.len() >= 1,
        p[0] == '%',
        0 <= i <= t.len(),
        like_from(t, p, i, 0),
    ensures
        exists|k: int| i <= k <= t.len() && like_from(t, p, k, 1),
    decreases t.len() - i,
{
    if !like_from(t, p, i, 1) {
        lemma_like_leading_percent(t, p, i + 1);
    }
}

/// `s` occurs in `t` from position `k` on, letter case aside.
pub open spec fn occurs_folded_at(t: Seq<char>, s: Seq<char>, k: int) -> bool {
    &&& 0 <= k
    &&& k + s.len() <= t.len()
    &&& forall|q: int| 0 <= q < s.len() ==> like_fold(#[trigger] s[q]) == like_fold(t[k + q])
}

/// A search text without `LIKE` wildcards matches only previews in which it
/// occurs as a contiguous run, up to ASCII case.
pub proof fn law_search_match_is_substring(t: Seq<char>, s: Seq<char>)
    requires
        forall|q: int| 0 <= q < s.len() ==> #[trigger] s[q] != '%' && s[q] != '_',
        like_match(t, contains_pattern(s)),
    ensures
        exists|k: int| #[trigger] occurs_folded_at(t, s, k),
{
    let p = contains_pattern(s);
    let m = s.len() as int;
    assert(p[0] == '%');
    lemma_like_leading_percent(t, p, 0);
    let k = choose|k: int| 0 <= k <= t.len() && like_from(t, p, k, 1);
    assert forall|q: int| 0 <= q < m implies #[trigger] p[1 + q] != '%' && p[1 + q] != '_' by {
        assert(p[1 + q] == s[q]);
    }
    lemma_like_literal_run(t, p, k, 1, m);
    assert forall|q: int| 0 <= q < m implies like_fold(#[trigger] s[q]) == like_fold(t[k + q]) by {
        assert(p[1 + q] == s[q]);
    }
    assert(occurs_folded_at(t, s, k));
}

/// Every row that a search lists has the search text in its preview (up to
/// ASCII case, for a search text without wildcards) and, when a content type
/// is asked for, that content type.
pub proof fn law_listed_rows_match_filters(
    items: Seq<ItemView>,
    limit: u32,
    offset: u32,
    search: Option<Seq<char>>,
    content_type: Option<Seq<char>>,
    i: int,
)
    requires
        0 <= i < listing(items, limit, offset, search, content_type).len(),
        search matches Some(s) ==> forall|q: int| 0 <= q < s.len() ==> #[trigger] s[q] != '%' && s[q] != '_',
    ensures
        ({
            let r = listing(items, limit, offset, search, content_type)[i];
            &&& content_type matches Some(c) ==> r.content_type == c
            &&& search matches Some(s) ==> exists|k: int| #[trigger] occurs_folded_at(r.preview, s, k)
        }),
{
    law_listing_shape(items, limit, offset, search, content_type);
    let l = listing(items, limit, offset, search, content_type);
    let e = choose|e: ItemView|
        items.contains(e) && passes_filters(e, search, content_type) && #[trigger] l[i]
            == e.without_blob();
    let r = l[i];
    assert(r.preview == e.preview && r.content_type == e.content_type);
    if let Some(s) = search {
        assert(like_match(e.preview, contains_pattern(s)));
        law_search_match_is_substring(e.preview, s);
        let k = choose|k: int| #[trigger] occurs_folded_at(e.preview, s, k);
        assert(occurs_folded_at(r.preview, s, k));
    }
}

// ---------------------------------------------------------------- cleanup

/// The automatic cleanup runs only in `auto` mode: in any other mode
/// (`never`, `manual`, or none stored) a capture only inserts, and a capture
/// whose insert fails changes nothing. In `auto` mode the limit is the
/// stored `history_limit` when it is a decimal number, and 500 when none is
/// stored.
pub proof fn law_cleanup_only_in_auto_mode(s: DbState, item: ItemView, n: u32)
    ensures
        setting_value(s.settings, "history_mode"@) != Some("auto"@) ==> cleanup_limit(s.settings) is None
            && s.after_capture(item) == s.after_insert(item),
        s.insert_result(item) is Err ==> s.after_capture(item) == s,
        setting_value(s.settings, "history_mode"@) == Some("auto"@) && setting_value(
            s.settings,
            "history_limit"@,
        ) is None ==> cleanup_limit(s.settings) == Some(500u32),
        setting_value(s.settings, "history_mode"@) == Some("auto"@) && setting_value(
            s.settings,
            "history_limit"@,
        ) == Some(decimal(n as nat)) ==> cleanup_limit(s.settings) == Some(n),
{
    law_decimal_parses_back(n);
}

// ---------------------------------------------------------------- monitoring

/// 256 to the power `n`.
pub open spec fn pow256(n: nat) -> nat
    decreases n,
{
    if n == 0 {
        1
    } else {
        256 * pow256((n - 1) as nat)
    }
}

proof fn lemma_le_bytes_len(x: nat, n: nat)
    ensures
        le_bytes(x, n).len() == n,
    decreases n,
{
    if n > 0 {
        lemma_le_bytes_len(x / 256, (n - 1) as nat);
    }
}

proof fn lemma_le_bytes_injective(x: nat, y: nat, n: nat)
    requires
        x < pow256(n),
        y < pow256(n),
        le_bytes(x, n) == le_bytes(y, n),
    ensures
        x == y,
    decreases n,
{
    if n > 0 {
        let p = pow256((n - 1) as nat);
        assert(le_bytes(x, n) == seq![(x % 256) as u8] + le_bytes(x / 256, (n - 1) as nat));
        assert(le_bytes(y, n) == seq![(y % 256) as u8] + le_bytes(y / 256, (n - 1) as nat));
        assert(le_bytes(x, n)[0] == (x % 256) as u8);
        assert(le_bytes(y, n)[0] == (y % 256) as u8);
        assert(x % 256 < 256 && y % 256 < 256);
        assert(x % 256 == y % 256);
        lemma_le_bytes_len(x / 256, (n - 1) as nat);
        assert(le_bytes(x / 256, (n - 1) as nat) =~= le_bytes(x, n).subrange(1, n as int));
        assert(le_bytes(y / 256, (n - 1) as nat) =~= le_bytes(y, n).subrange(1, n as int));
        assert(x / 256 < p) by (nonlinear_arith)
            requires x < 256 * p;
        assert(y / 256 < p) by (nonlinear_arith)
            requires y < 256 * p;
        lemma_le_bytes_injective(x / 256, y / 256, (n - 1) as nat);
        assert(x == 256 * (x / 256) + x % 256);
        assert(y == 256 * (y / 256) + y % 256);
    }
}

proof fn lemma_usize_fits_8_bytes(x: usize)
    ensures
        (x as nat) < pow256(8),
{
    assert(pow256(0) == 1);
    assert(pow256(1) == 256);
    assert(pow256(2) == 0x1_0000);
    assert(pow256(3) == 0x100_0000);
    assert(pow256(4) == 0x1_0000_0000);
    assert(pow256(5) == 0x100_0000_0000);
    assert(pow256(6) == 0x1_0000_0000_0000);
    assert(pow256(7) == 0x100_0000_0000_0000);
    assert(pow256(8) == 0x1_0000_0000_0000_0000nat);
    assert(x as nat <= 0xffff_ffff_ffff_ffffnat);
}

/// `x` and `y` agree at position `q`: both end before it, or both hold the
/// same byte there.
pub open spec fn same_byte_at(x: Seq<u8>, y: Seq<u8>, q: int) -> bool {
    &&& (q < x.len() <==> q < y.len())
    &&& (q < x.len() ==> x[q] == y[q])
}

/// Two images have the same fingerprint exactly when they have the same
/// width, the same height, and the same first 64 bytes of pixels (the same
/// bytes, where there are fewer).
pub proof fn law_signature_tells_images_apart(a: ClipboardImage, b: ClipboardImage)
    ensures
        image_signature_of(a) == image_signature_of(b) <==> (a.width == b.width && a.height
            == b.height && forall|q: int| 0 <= q < 64 ==> #[trigger] same_byte_at(a.bytes@, b.bytes@, q)),
{
    let ab = a.bytes@;
    let bb = b.bytes@;
    let ta = if ab.len() <= 64 { ab.len() as int } else { 64 };
    let tb = if bb.len() <= 64 { bb.len() as int } else { 64 };
    let wa = le_bytes(a.width as nat, 8);
    let ha = le_bytes(a.height as nat, 8);
    let wb = le_bytes(b.width as nat, 8);
    let hb = le_bytes(b.height as nat, 8);
    lemma_le_bytes_len(a.width as nat, 8);
    lemma_le_bytes_len(a.height as nat, 8);
    lemma_le_bytes_len(b.width as nat, 8);
    lemma_le_bytes_len(b.height as nat, 8);
    let sa = image_signature_of(a);
    let sb = image_signature_of(b);
    assert(sa == wa + ha + ab.take(ta));
    assert(sb == wb + hb + bb.take(tb));
    if sa == sb {
        assert(sa.subrange(0, 8) =~= wa);
        assert(sb.subrange(0, 8) =~= wb);
        assert(sa.subrange(8, 16) =~= ha);
        assert(sb.subrange(8, 16) =~= hb);
        assert(sa.subrange(16, sa.len() as int) =~= ab.take(ta));
        assert(sb.subrange(16, sb.len() as int) =~= bb.take(tb));
        lemma_usize_fits_8_bytes(a.width);
        lemma_usize_fits_8_bytes(b.width);
        lemma_usize_fits_8_bytes(a.height);
        lemma_usize_fits_8_bytes(b.height);
        lemma_le_bytes_injective(a.width as nat, b.width as nat, 8);
        lemma_le_bytes_injective(a.height as nat, b.height as nat, 8);
        assert(ta == tb);
        assert forall|q: int| 0 <= q < 64 implies #[trigger] same_byte_at(ab, bb, q) by {
            if q < ta {
                assert(ab.take(ta)[q] == bb.take(tb)[q]);
            }
        }
    }
    if a.width == b.width && a.height == b.height && forall|q: int|
        0 <= q < 64 ==> #[trigger] same_byte_at(ab, bb, q) {
        if ta < tb {
            assert(same_byte_at(ab, bb, ta));
        }
        if tb < ta {
            assert(same_byte_at(ab, bb, tb));
        }
        assert forall|q: int| 0 <= q < ta implies ab.take(ta)[q] == bb.take(tb)[q] by {
            assert(same_byte_at(ab, bb, q));
        }
        assert(ab.take(ta) =~= bb.take(tb));
    }
}

/// An unpaused monitor reports an image whose fingerprint differs from the
/// last reported one, as read, and remembers that fingerprint.
pub proof fn law_new_image_is_reported(
    s: MonitorState,
    img: ClipboardImage,
    text: Option<String>,
    res: Option<ClipboardContent>,
)
    requires
        !s.paused,
        image_signature_of(img) != s.last_image,
        s.report(Some(img), text, res),
    ensures
        res == Some(ClipboardContent::Image(img)),
        s.after(Some(image_signature_of(img)), opt_chars(text)).last_image == image_signature_of(img),
{
}

/// When an unpaused monitor reads no new image, it reports a non-empty text
/// that differs from the last one, as read, and remembers it; an empty text
/// or the last text again is not reported.
pub proof fn law_new_text_is_reported(
    s: MonitorState,
    image: Option<ClipboardImage>,
    t: String,
    res: Option<ClipboardContent>,
)
    requires
        !s.paused,
        image matches Some(img) ==> image_signature_of(img) == s.last_image,
        s.report(image, Some(t), res),
    ensures
        t@.len() > 0 && t@ != s.last_text ==> res == Some(ClipboardContent::Text(t)) && s.after(
            match image {
                Some(img) => Some(image_signature_of(img)),
                None => None,
            },
            Some(t@),
        ).last_text == t@,
        !(t@.len() > 0 && t@ != s.last_text) ==> res is None,
{
}

/// A monitor only ever reports what it read: the image it was given, or
/// else the text it was given.
pub proof fn law_reports_come_from_the_reading(
    s: MonitorState,
    image: Option<ClipboardImage>,
    text: Option<String>,
    res: Option<ClipboardContent>,
)
    requires
        s.report(image, text, res),
    ensures
        res matches Some(ClipboardContent::Image(i)) ==> image == Some(i),
        res matches Some(ClipboardContent::Text(x)) ==> text == Some(x) && x@.len() > 0 && x@
            != s.last_text,
        image is None && text is None ==> res is None,
{
}

/// After polling starts, the text that was on the clipboard then is not
/// reported, while a different non-empty text is.
pub proof fn law_primed_text_not_reported(s: MonitorState, current: Seq<char>, t: Seq<char>)
    requires
        !s.paused,
    ensures
        s.primed(Some(current)).reaction(None, Some(current)) == Reaction::Nothing,
        t.len() > 0 && t != current ==> s.primed(Some(current)).reaction(None, Some(t))
            == Reaction::ReportText,
{
}

// ---------------------------------------------------------------- capturing

/// A captured text becomes an unpinned text row that holds the whole text,
/// its content hash, the given source and timestamp, and no image.
pub proof fn law_text_record(t: Seq<char>, app: Option<Seq<char>>, at: i64)
    ensures
        ({
            let r = text_item_spec(t, app, at);
            &&& r.content_type == "text"@
            &&& r.text_content == Some(t)
            &&& r.blob_content is None
            &&& r.hash == text_hash(t)
            &&& r.app_source == app
            &&& r.created_at == at
            &&& !r.pinned
        }),
{
}

/// A captured image becomes an unpinned image row that holds the PNG bytes,
/// their content hash, the given source and timestamp, and no text.
pub proof fn law_image_record(
    width: usize,
    height: usize,
    png: Seq<u8>,
    app: Option<Seq<char>>,
    at: i64,
)
    ensures
        ({
            let r = image_item_spec(width, height, png, app, at);
            &&& r.content_type == "image"@
            &&& r.text_content is None
            &&& r.blob_content == Some(png)
            &&& r.hash == bytes_hash(png)
            &&& r.app_source == app
            &&& r.created_at == at
            &&& !r.pinned
        }),
{
}

} // verus!
