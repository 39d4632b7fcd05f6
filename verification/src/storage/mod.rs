//! The clipboard history and the settings table.
//!
//! `Database` holds the rows of the `clipboard_items` table (in row-id order)
//! and of the `settings` table. Its view, `DbState`, is what every contract is
//! stated over; the open spec functions below say what each query and update
//! does to it.

pub mod models;
pub mod proofs;

use vstd::prelude::*;
use sha2::Digest;
use crate::text::{hex_lower, lemma_hex_lower_len, like_match, contains_pattern, to_hex_lower};
use self::models::{ClipboardItem, ItemView, opt_chars};
use self::proofs::{
    lemma_items_view_push, lemma_items_view_insert, lemma_items_view_update, lemma_filter_take_step,
    lemma_filter_keeps_consistent,
};
use crate::text::{make_contains_pattern, like, parse_u32, parse_u32_spec};

verus! {

/// Why the history refused a request.
#[derive(Debug, Clone, Copy, PartialEq, Eq)]
pub enum DbError {
    /// Every row id up to `i64::MAX` has been handed out: no new row can be added.
    IdSpaceExhausted,
    /// Rows offered to `Database::from_rows` break a table constraint.
    InconsistentRows,
}

/// The abstract content of the database.
pub struct DbState {
    /// The history rows, in row-id order.
    pub items: Seq<ItemView>,
    /// The settings table, by key.
    pub settings: Map<Seq<char>, Seq<char>>,
    /// The largest row id ever handed out (zero before the first row).
    pub last_id: i64,
}

// ---------------------------------------------------------------- orders

/// `a` is listed before `b`: pinned rows first, then newer before older.
pub open spec fn precedes(a: ItemView, b: ItemView) -> bool {
    (a.pinned && !b.pinned) || (a.pinned == b.pinned && a.created_at > b.created_at)
}

/// The first position in `s`, from `k` on, whose row `x` is listed before.
pub open spec fn insert_pos_from(s: Seq<ItemView>, x: ItemView, k: int) -> int
    decreases s.len() - k,
{
    if k >= s.len() {
        s.len() as int
    } else if precedes(x, s[k]) {
        k
    } else {
        insert_pos_from(s, x, k + 1)
    }
}

/// `s` with `x` placed before the first row it is listed before.
pub open spec fn sorted_insert(s: Seq<ItemView>, x: ItemView) -> Seq<ItemView> {
    s.insert(insert_pos_from(s, x, 0), x)
}

/// The rows of `s` in listing order; rows that tie keep their order in `s`.
pub open spec fn sort_items(s: Seq<ItemView>) -> Seq<ItemView>
    decreases s.len(),
{
    if s.len() == 0 {
        s
    } else {
        sorted_insert(sort_items(s.drop_last()), s.last())
    }
}

/// No row of `s` is listed before a row in front of it.
pub open spec fn is_listing_order(s: Seq<ItemView>) -> bool {
    forall|i: int, j: int| 0 <= i < j < s.len() ==> !precedes(#[trigger] s[j], #[trigger] s[i])
}

/// The rows `offset .. offset + limit` of `s` (`LIMIT limit OFFSET offset`).
pub open spec fn page(s: Seq<ItemView>, offset: u32, limit: u32) -> Seq<ItemView> {
    let start = if offset <= s.len() { offset as int } else { s.len() as int };
    let end = if offset + limit <= s.len() { offset + limit } else { s.len() as int };
    s.subrange(start, end)
}

// ---------------------------------------------------------------- row predicates

/// Rows whose id is not `id`.
pub open spec fn other_id(id: i64) -> spec_fn(ItemView) -> bool {
    |e: ItemView| e.id != id
}

/// Pinned rows.
pub open spec fn pinned_row() -> spec_fn(ItemView) -> bool {
    |e: ItemView| e.pinned
}

/// Unpinned rows.
pub open spec fn unpinned_row() -> spec_fn(ItemView) -> bool {
    |e: ItemView| !e.pinned
}

/// Rows that are pinned or whose id is among `ids`.
pub open spec fn pinned_or_among(ids: Seq<i64>) -> spec_fn(ItemView) -> bool {
    |e: ItemView| e.pinned || ids.contains(e.id)
}

/// Rows that pass the listing's filters.
pub open spec fn passing(search: Option<Seq<char>>, content_type: Option<Seq<char>>) -> spec_fn(
    ItemView,
) -> bool {
    |e: ItemView| passes_filters(e, search, content_type)
}

/// A row with its pin flipped when its id is `id`.
pub open spec fn toggled(id: i64) -> spec_fn(ItemView) -> ItemView {
    |e: ItemView| if e.id == id { ItemView { pinned: !e.pinned, ..e } } else { e }
}

/// A row without its full-size blob.
pub open spec fn blob_stripped() -> spec_fn(ItemView) -> ItemView {
    |e: ItemView| e.without_blob()
}

/// A row's id.
pub open spec fn row_id() -> spec_fn(ItemView) -> i64 {
    |e: ItemView| e.id
}

/// Ids that no row of `items` has.
pub open spec fn absent_from(items: Seq<ItemView>) -> spec_fn(i64) -> bool {
    |id: i64| !has_id(items, id)
}

/// The largest row id handed out, as a stored table tells it: the larger of
/// the recorded sequence value (zero when none is recorded) and the last
/// row's id (zero when there are no rows).
pub open spec fn recovered_last_id_spec(sequence: Option<i64>, rows: Seq<ItemView>) -> i64 {
    let s = match sequence {
        Some(v) => v,
        None => 0,
    };
    let m = if rows.len() > 0 { rows.last().id } else { 0 };
    if s >= m { s } else { m }
}

// ---------------------------------------------------------------- queries

/// Whether the row passes the listing's filters: the content type equals
/// `content_type`, and the preview is `LIKE '%search%'`.
pub open spec fn passes_filters(
    e: ItemView,
    search: Option<Seq<char>>,
    content_type: Option<Seq<char>>,
) -> bool {
    &&& (content_type matches Some(ct) ==> e.content_type == ct)
    &&& (search matches Some(s) ==> like_match(e.preview, contains_pattern(s)))
}

/// The listing `get_items` answers: the rows passing the filters, in listing
/// order, paged, without their full-size blobs.
pub open spec fn listing(
    items: Seq<ItemView>,
    limit: u32,
    offset: u32,
    search: Option<Seq<char>>,
    content_type: Option<Seq<char>>,
) -> Seq<ItemView> {
    let selected = items.filter(passing(search, content_type));
    page(sort_items(selected), offset, limit).map_values(blob_stripped())
}

pub open spec fn has_hash(items: Seq<ItemView>, h: Seq<char>) -> bool {
    exists|i: int| 0 <= i < items.len() && items[i].hash == h
}

pub open spec fn hash_index(items: Seq<ItemView>, h: Seq<char>) -> int {
    choose|i: int| 0 <= i < items.len() && items[i].hash == h
}

pub open spec fn has_id(items: Seq<ItemView>, id: i64) -> bool {
    exists|i: int| 0 <= i < items.len() && items[i].id == id
}

pub open spec fn id_index(items: Seq<ItemView>, id: i64) -> int {
    choose|i: int| 0 <= i < items.len() && items[i].id == id
}

/// The row with id `id`, if there is one.
pub open spec fn item_with_id(items: Seq<ItemView>, id: i64) -> Option<ItemView> {
    if has_id(items, id) {
        Some(items[id_index(items, id)])
    } else {
        None
    }
}

/// The value stored under `key`, if any.
pub open spec fn setting_value(settings: Map<Seq<char>, Seq<char>>, key: Seq<char>) -> Option<
    Seq<char>,
> {
    if settings.contains_key(key) {
        Some(settings[key])
    } else {
        None
    }
}

// ---------------------------------------------------------------- updates

impl DbState {
    /// What `insert_item` answers: the id of the row that holds the content.
    pub open spec fn insert_result(self, item: ItemView) -> Result<i64, DbError> {
        if has_hash(self.items, item.hash) {
            Ok(self.items[hash_index(self.items, item.hash)].id)
        } else if self.last_id == i64::MAX {
            Err(DbError::IdSpaceExhausted)
        } else {
            Ok((self.last_id + 1) as i64)
        }
    }

    /// The state after `insert_item`: a row with the same hash gets the new
    /// timestamp; otherwise the item is appended under the next row id.
    pub open spec fn after_insert(self, item: ItemView) -> DbState {
        if has_hash(self.items, item.hash) {
            let i = hash_index(self.items, item.hash);
            DbState {
                items: self.items.update(i, ItemView { created_at: item.created_at, ..self.items[i] }),
                ..self
            }
        } else if self.last_id == i64::MAX {
            self
        } else {
            let id = (self.last_id + 1) as i64;
            DbState { items: self.items.push(item.with_id(id)), last_id: id, ..self }
        }
    }

    /// The state after `delete_item(id)`.
    pub open spec fn after_delete(self, id: i64) -> DbState {
        DbState { items: self.items.filter(other_id(id)), ..self }
    }

    /// The state after `toggle_pin(id)`.
    pub open spec fn after_toggle_pin(self, id: i64) -> DbState {
        DbState {
            items: self.items.map_values(toggled(id)),
            ..self
        }
    }

    /// The state after `clear_history`: the pinned rows only.
    pub open spec fn after_clear(self) -> DbState {
        DbState { items: self.items.filter(pinned_row()), ..self }
    }

    /// The state after `enforce_history_limit(limit)`.
    pub open spec fn after_limit(self, limit: u32) -> DbState {
        DbState { items: retained(self.items, limit), ..self }
    }

    /// The state after `set_setting(key, value)`.
    pub open spec fn after_set_setting(self, key: Seq<char>, value: Seq<char>) -> DbState {
        DbState { settings: self.settings.insert(key, value), ..self }
    }
}

/// The ids of the `limit` unpinned rows that come first in listing order.
pub open spec fn kept_ids(items: Seq<ItemView>, limit: u32) -> Seq<i64> {
    let unpinned = sort_items(items.filter(unpinned_row()));
    let n = if limit <= unpinned.len() { limit as int } else { unpinned.len() as int };
    unpinned.take(n).map_values(row_id())
}

/// The rows that `enforce_history_limit(limit)` keeps: the pinned ones and
/// the `limit` most recent unpinned ones.
pub open spec fn retained(items: Seq<ItemView>, limit: u32) -> Seq<ItemView> {
    let ids = kept_ids(items, limit);
    items.filter(pinned_or_among(ids))
}


// ---------------------------------------------------------------- settings the app reads

/// The setting keys the settings window edits, in the order it lists them.
pub open spec fn known_setting_keys() -> Seq<Seq<char>> {
    seq![
        "theme"@,
        "window_width"@,
        "window_height"@,
        "show_source"@,
        "history_mode"@,
        "history_limit"@,
        "autostart"@,
        "shortcut"@,
    ]
}

/// Keys that have a stored value.
pub open spec fn stored_in(settings: Map<Seq<char>, Seq<char>>) -> spec_fn(Seq<char>) -> bool {
    |k: Seq<char>| settings.contains_key(k)
}

/// A key with its stored value.
pub open spec fn with_value(settings: Map<Seq<char>, Seq<char>>) -> spec_fn(Seq<char>) -> (
    Seq<char>,
    Seq<char>,
) {
    |k: Seq<char>| (k, settings[k])
}

/// The known settings that have a value, with their values.
pub open spec fn settings_snapshot(settings: Map<Seq<char>, Seq<char>>) -> Seq<
    (Seq<char>, Seq<char>),
> {
    known_setting_keys().filter(stored_in(settings)).map_values(with_value(settings))
}

pub open spec fn pairs_view(v: Seq<(String, String)>) -> Seq<(Seq<char>, Seq<char>)> {
    v.map_values(|p: (String, String)| (p.0@, p.1@))
}

/// The shortcut that opens the history window when none is stored.
pub open spec fn default_shortcut_spec(macos: bool) -> Seq<char> {
    if macos {
        "CommandOrControl+Shift+V"@
    } else {
        "Control+Shift+V"@
    }
}

/// The row limit the automatic cleanup applies after a capture: none unless
/// `history_mode` is `auto`; then `history_limit` when it parses as a `u32`,
/// else 500.
pub open spec fn cleanup_limit(settings: Map<Seq<char>, Seq<char>>) -> Option<u32> {
    if setting_value(settings, "history_mode"@) == Some("auto"@) {
        match setting_value(settings, "history_limit"@) {
            Some(v) => match parse_u32_spec(v) {
                Some(n) => Some(n),
                None => Some(500u32),
            },
            None => Some(500u32),
        }
    } else {
        None
    }
}

impl DbState {
    /// The state after a capture is recorded: the insert, then, when the
    /// insert succeeded and the automatic cleanup is switched on, the
    /// history limit.
    pub open spec fn after_capture(self, item: ItemView) -> DbState {
        let inserted = self.after_insert(item);
        if self.insert_result(item) is Ok {
            match cleanup_limit(inserted.settings) {
                Some(limit) => inserted.after_limit(limit),
                None => inserted,
            }
        } else {
            inserted
        }
    }
}

/// The shortcut that opens the history window when none is stored:
/// `CommandOrControl+Shift+V` on macOS, `Control+Shift+V` elsewhere.
pub fn default_shortcut(macos: bool) -> (res: &'static str)
    ensures
        res@ == default_shortcut_spec(macos),
{
    if macos {
        "CommandOrControl+Shift+V"
    } else {
        "Control+Shift+V"
    }
}

fn strings_equal(a: &String, b: &str) -> (res: bool)
    ensures
        res == (a@ == b@),
{
    let owned = b.to_owned();
    *a == owned
}

// ---------------------------------------------------------------- hashing

/// SHA-256 of `data` (32 bytes).
pub uninterp spec fn sha256(data: Seq<u8>) -> Seq<u8>;

/// Trusted: calls `sha2::Sha256::digest`. Claims that the digest is the
/// function `sha256` of the input bytes, and that it is 32 bytes long
/// (`Sha256`'s output size is `U32`).
#[verifier::external_body]
fn sha256_digest(data: &[u8]) -> (res: Vec<u8>)
    ensures
        res@ == sha256(data@),
        res@.len() == 32,
{
    sha2::Sha256::digest(data).to_vec()
}

/// The content hash of a text: lower-case hex of the SHA-256 of its UTF-8 bytes.
pub open spec fn text_hash(content: Seq<char>) -> Seq<char> {
    hex_lower(sha256(vstd::utf8::encode_utf8(content)))
}

/// The content hash of bytes: lower-case hex of their SHA-256.
pub open spec fn bytes_hash(bytes: Seq<u8>) -> Seq<char> {
    hex_lower(sha256(bytes))
}


fn vec_contains_i64(v: &Vec<i64>, x: i64) -> (res: bool)
    ensures
        res == v@.contains(x),
{
    let n = v.len();
    for i in 0..n
        invariant
            n == v@.len(),
            forall|j: int| 0 <= j < i ==> v@[j] != x,
    {
        if v[i] == x {
            return true;
        }
    }
    false
}

fn precedes_exec(a: &ClipboardItem, b: &ClipboardItem) -> (res: bool)
    ensures
        res == precedes(a@, b@),
{
    (a.pinned && !b.pinned) || (a.pinned == b.pinned && a.created_at > b.created_at)
}

/// The rows of `rows` in listing order (`sort_items`).
fn sort_rows(rows: &Vec<ClipboardItem>) -> (res: Vec<ClipboardItem>)
    ensures
        items_view(res@) == sort_items(items_view(rows@)),
{
    let ghost rv = items_view(rows@);
    let n = rows.len();
    let mut out: Vec<ClipboardItem> = Vec::new();
    assert(rv.take(0) =~= Seq::<ItemView>::empty());
    for i in 0..n
        invariant
            n == rows@.len(),
            rv == items_view(rows@),
            items_view(out@) == sort_items(rv.take(i as int)),
    {
        let x = rows[i].clone();
        let ghost ov = items_view(out@);
        let mut k: usize = 0;
        while k < out.len() && !precedes_exec(&x, &out[k])
            invariant
                k <= out@.len(),
                ov == items_view(out@),
                insert_pos_from(ov, x@, 0) == insert_pos_from(ov, x@, k as int),
            decreases out@.len() - k,
        {
            k = k + 1;
        }
        assert(insert_pos_from(ov, x@, k as int) == k);
        let ghost before = out@;
        out.insert(k, x);
        proof {
            lemma_items_view_insert(before, k as int, x);
            let t = rv.take(i + 1);
            assert(t.drop_last() =~= rv.take(i as int));
            assert(t.last() == x@);
        }
    }
    assert(rv.take(n as int) =~= rv);
    out
}


/// The largest row id handed out, recovered from a stored table: its recorded
/// sequence value and its rows in row-id order.
pub fn recovered_last_id(sequence: Option<i64>, rows: &Vec<ClipboardItem>) -> (res: i64)
    ensures
        res == recovered_last_id_spec(sequence, items_view(rows@)),
{
    let s = match sequence {
        Some(v) => v,
        None => 0,
    };
    let m = if rows.len() > 0 { rows[rows.len() - 1].id } else { 0 };
    if s >= m { s } else { m }
}

// ---------------------------------------------------------------- the database

/// The clipboard history and the settings table.
pub struct Database {
    items: Vec<ClipboardItem>,
    settings: Vec<(String, String)>,
    last_id: i64,
}

pub open spec fn items_view(v: Seq<ClipboardItem>) -> Seq<ItemView> {
    v.map_values(|e: ClipboardItem| e@)
}

pub open spec fn settings_view(s: Seq<(String, String)>) -> Map<Seq<char>, Seq<char>> {
    Map::new(
        |k: Seq<char>| exists|i: int| 0 <= i < s.len() && s[i].0@ == k,
        |k: Seq<char>| s[choose|i: int| 0 <= i < s.len() && s[i].0@ == k].1@,
    )
}

/// The table constraints: row ids increase along the table, are positive and
/// at most `last_id`; hashes are unique; setting keys are unique.
pub open spec fn rows_consistent(items: Seq<ItemView>, last_id: i64) -> bool {
    &&& last_id >= 0
    &&& forall|i: int, j: int| 0 <= i < j < items.len() ==> items[i].id < items[j].id
    &&& forall|i: int| 0 <= i < items.len() ==> 0 < #[trigger] items[i].id <= last_id
    &&& forall|i: int, j: int|
        0 <= i < items.len() && 0 <= j < items.len() && i != j ==> items[i].hash != items[j].hash
}

pub open spec fn keys_unique(s: Seq<(String, String)>) -> bool {
    forall|i: int, j: int| 0 <= i < s.len() && 0 <= j < s.len() && i != j ==> s[i].0@ != s[j].0@
}

impl View for Database {
    type V = DbState;

    closed spec fn view(&self) -> DbState {
        DbState {
            items: items_view(self.items@),
            settings: settings_view(self.settings@),
            last_id: self.last_id,
        }
    }
}

impl Database {
    /// The table constraints, kept by every database at all times: every
    /// constructor establishes them and every method preserves them.
    #[verifier::type_invariant]
    pub closed spec fn wf(&self) -> bool {
        &&& rows_consistent(items_view(self.items@), self.last_id)
        &&& keys_unique(self.settings@)
    }

    /// An empty history and settings table.
    pub fn new() -> (db: Database)
        ensures
            db@.items == Seq::<ItemView>::empty(),
            db@.settings == Map::<Seq<char>, Seq<char>>::empty(),
            db@.last_id == 0,
    {
        let db = Database { items: Vec::new(), settings: Vec::new(), last_id: 0 };
        assert(db@.items =~= Seq::<ItemView>::empty());
        assert(db@.settings =~= Map::<Seq<char>, Seq<char>>::empty());
        db
    }

    // ------------------------------------------------------------ settings

    fn setting_index(&self, key: &String) -> (res: Option<usize>)
        ensures
            match res {
                Some(i) => i < self.settings@.len() && self.settings@[i as int].0@ == key@,
                None => forall|i: int|
                    0 <= i < self.settings@.len() ==> self.settings@[i].0@ != key@,
            },
    {
        proof {
            use_type_invariant(&*self);
        }
        let n = self.settings.len();
        for i in 0..n
            invariant
                n == self.settings@.len(),
                forall|j: int| 0 <= j < i ==> self.settings@[j].0@ != key@,
        {
            if self.settings[i].0 == *key {
                return Some(i);
            }
        }
        None
    }

    /// The value stored under `key`, if any.
    pub fn get_setting(&self, key: &str) -> (res: Result<Option<String>, DbError>)
        ensures
            res matches Ok(v) && opt_chars(v) == setting_value(self@.settings, key@),
    {
        proof {
            use_type_invariant(&*self);
        }
        let k = key.to_owned();
        match self.setting_index(&k) {
            Some(i) => {
                let v = self.settings[i].1.clone();
                proof {
                    let s = self.settings@;
                    assert(settings_view(s).contains_key(key@));
                    let c = choose|j: int| 0 <= j < s.len() && s[j].0@ == key@;
                    assert(c == i);
                }
                Ok(Some(v))
            },
            None => Ok(None),
        }
    }

    /// Stores `value` under `key`, replacing what was there.
    pub fn set_setting(&mut self, key: &str, value: &str) -> (res: Result<(), DbError>)
        ensures
            res is Ok,
            final(self)@ == old(self)@.after_set_setting(key@, value@),
    {
        proof {
            use_type_invariant(&*self);
        }
        let k = key.to_owned();
        let v = value.to_owned();
        let ghost old_s = self.settings@;
        let idx = self.setting_index(&k);
        let mut settings: Vec<(String, String)> = Vec::new();
        std::mem::swap(&mut settings, &mut self.settings);
        match idx {
            Some(i) => {
                settings.set(i, (k, v));
                proof {
                    let s = settings@;
                    assert(keys_unique(s));
                    assert forall|kk: Seq<char>| #![auto]
                        settings_view(s).contains_key(kk) <==> settings_view(old_s).insert(
                            key@,
                            value@,
                        ).contains_key(kk) by {
                        if kk != key@ {
                            if settings_view(old_s).contains_key(kk) {
                                let j = choose|j: int| 0 <= j < old_s.len() && old_s[j].0@ == kk;
                                assert(s[j].0@ == kk);
                            }
                            if settings_view(s).contains_key(kk) {
                                let j = choose|j: int| 0 <= j < s.len() && s[j].0@ == kk;
                                assert(old_s[j].0@ == kk);
                            }
                        } else {
                            assert(s[i as int].0@ == kk);
                        }
                    }
                    assert forall|kk: Seq<char>| #[trigger]
                        settings_view(s).contains_key(kk) implies settings_view(s)[kk]
                        == settings_view(old_s).insert(key@, value@)[kk] by {
                        let j = choose|j: int| 0 <= j < s.len() && s[j].0@ == kk;
                        if kk == key@ {
                            assert(j == i);
                        } else {
                            assert(settings_view(old_s).contains_key(kk));
                            let j2 = choose|j2: int| 0 <= j2 < old_s.len() && old_s[j2].0@ == kk;
                            assert(j2 != i);
                            assert(s[j2].0@ == kk);
                            assert(j == j2);
                        }
                    }
                    assert(settings_view(s) =~= settings_view(old_s).insert(key@, value@));
                }
            },
            None => {
                settings.push((k, v));
                proof {
                    let s = settings@;
                    let n = old_s.len() as int;
                    assert(keys_unique(s));
                    assert forall|kk: Seq<char>| #![auto]
                        settings_view(s).contains_key(kk) <==> settings_view(old_s).insert(
                            key@,
                            value@,
                        ).contains_key(kk) by {
                        if kk != key@ {
                            if settings_view(old_s).contains_key(kk) {
                                let j = choose|j: int| 0 <= j < old_s.len() && old_s[j].0@ == kk;
                                assert(s[j].0@ == kk);
                            }
                            if settings_view(s).contains_key(kk) {
                                let j = choose|j: int| 0 <= j < s.len() && s[j].0@ == kk;
                                assert(old_s[j].0@ == kk);
                            }
                        } else {
                            assert(s[n].0@ == kk);
                        }
                    }
                    assert forall|kk: Seq<char>| #[trigger]
                        settings_view(s).contains_key(kk) implies settings_view(s)[kk]
                        == settings_view(old_s).insert(key@, value@)[kk] by {
                        let j = choose|j: int| 0 <= j < s.len() && s[j].0@ == kk;
                        if kk == key@ {
                            assert(j == n);
                        } else {
                            assert(settings_view(old_s).contains_key(kk));
                            let j2 = choose|j2: int| 0 <= j2 < old_s.len() && old_s[j2].0@ == kk;
                            assert(s[j2].0@ == kk);
                            assert(j == j2);
                        }
                    }
                    assert(settings_view(s) =~= settings_view(old_s).insert(key@, value@));
                }
            },
        }
        self.settings = settings;
        proof {
            assert(items_view(self.items@) == items_view(old(self).items@));
        }
        Ok(())
    }


    // ------------------------------------------------------------ rows

    fn hash_position(&self, h: &String) -> (res: Option<usize>)
        ensures
            match res {
                Some(i) => i < self.items@.len() && self@.items[i as int].hash == h@,
                None => !has_hash(self@.items, h@),
            },
    {
        proof {
            use_type_invariant(&*self);
        }
        let n = self.items.len();
        for i in 0..n
            invariant
                n == self.items@.len(),
                forall|j: int| 0 <= j < i ==> self@.items[j].hash != h@,
        {
            if self.items[i].hash == *h {
                return Some(i);
            }
        }
        None
    }

    fn id_position(&self, id: i64) -> (res: Option<usize>)
        ensures
            match res {
                Some(i) => i < self.items@.len() && self@.items[i as int].id == id,
                None => !has_id(self@.items, id),
            },
    {
        proof {
            use_type_invariant(&*self);
        }
        let n = self.items.len();
        for i in 0..n
            invariant
                n == self.items@.len(),
                forall|j: int| 0 <= j < i ==> self@.items[j].id != id,
        {
            if self.items[i].id == id {
                return Some(i);
            }
        }
        None
    }

    /// Adds a captured item. When a row with the same content hash exists, the
    /// row gets the item's timestamp instead and keeps everything else.
    /// Answers the id of the row that holds the content.
    pub fn insert_item(&mut self, item: &ClipboardItem) -> (res: Result<i64, DbError>)
        ensures
            res == old(self)@.insert_result(item@),
            final(self)@ == old(self)@.after_insert(item@),
    {
        proof {
            use_type_invariant(&*self);
        }
        let ghost old_items = self@.items;
        match self.hash_position(&item.hash) {
            Some(i) => {
                let mut row = self.items[i].clone();
                row.created_at = item.created_at;
                let id = row.id;
                let mut items: Vec<ClipboardItem> = Vec::new();
                std::mem::swap(&mut items, &mut self.items);
                items.set(i, row);
                proof {
                    lemma_items_view_update(old(self).items@, i as int, row);
                    let j = hash_index(old_items, item@.hash);
                    assert(old_items[j].hash == old_items[i as int].hash);
                    assert(j == i);
                    let ni = items_view(items@);
                    assert forall|a: int, b: int|
                        0 <= a < ni.len() && 0 <= b < ni.len() && a != b implies ni[a].hash
                        != ni[b].hash by {
                        assert(ni[a].hash == old_items[a].hash);
                        assert(ni[b].hash == old_items[b].hash);
                    }
                    assert forall|a: int, b: int| 0 <= a < b < ni.len() implies ni[a].id
                        < ni[b].id by {
                        assert(ni[a].id == old_items[a].id);
                        assert(ni[b].id == old_items[b].id);
                    }
                    assert forall|a: int| 0 <= a < ni.len() implies 0 < #[trigger] ni[a].id
                        <= self.last_id by {
                        assert(ni[a].id == old_items[a].id);
                    }
                    assert(ni =~= old_items.update(
                        j,
                        ItemView { created_at: item@.created_at, ..old_items[j] },
                    ));
                }
                self.items = items;
                Ok(id)
            },
            None => {
                if self.last_id == i64::MAX {
                    return Err(DbError::IdSpaceExhausted);
                }
                let id = self.last_id + 1;
                let mut row = item.clone();
                row.id = id;
                let mut items: Vec<ClipboardItem> = Vec::new();
                std::mem::swap(&mut items, &mut self.items);
                items.push(row);
                proof {
                    lemma_items_view_push(old(self).items@, row);
                    let ni = items_view(items@);
                    assert(row@ == item@.with_id(id));
                    assert forall|a: int, b: int|
                        0 <= a < ni.len() && 0 <= b < ni.len() && a != b implies ni[a].hash
                        != ni[b].hash by {
                        if a < old_items.len() && b < old_items.len() {
                            assert(ni[a] == old_items[a] && ni[b] == old_items[b]);
                        } else if a < old_items.len() {
                            assert(ni[a] == old_items[a]);
                        } else {
                            assert(ni[b] == old_items[b]);
                        }
                    }
                    assert forall|a: int, b: int| 0 <= a < b < ni.len() implies ni[a].id
                        < ni[b].id by {
                        assert(ni[a] == old_items[a]);
                    }
                    assert forall|a: int| 0 <= a < ni.len() implies 0 < #[trigger] ni[a].id
                        <= id by {
                        if a < old_items.len() {
                            assert(ni[a] == old_items[a]);
                        }
                    }
                }
                self.last_id = id;
                self.items = items;
                Ok(id)
            },
        }
    }

    /// Removes the row with id `id`, if there is one.
    pub fn delete_item(&mut self, id: i64) -> (res: Result<(), DbError>)
        ensures
            res is Ok,
            final(self)@ == old(self)@.after_delete(id),
    {
        proof {
            use_type_invariant(&*self);
        }
        let ghost all = self@.items;
        let n = self.items.len();
        let mut out: Vec<ClipboardItem> = Vec::new();
        for i in 0..n
            invariant
                n == self.items@.len(),
                all == items_view(self.items@),
                items_view(out@) == all.take(i as int).filter(other_id(id)),
        {
            let ghost before = out@;
            if self.items[i].id != id {
                out.push(self.items[i].clone());
                proof {
                    lemma_items_view_push(before, out@.last());
                }
            }
            proof {
                lemma_filter_take_step(all, i as int, other_id(id));
            }
        }
        assert(all.take(n as int) =~= all);
        proof {
            lemma_filter_keeps_consistent(all, other_id(id), self.last_id);
        }
        self.items = out;
        Ok(())
    }

    /// Flips the pin of the row with id `id`, if there is one.
    pub fn toggle_pin(&mut self, id: i64) -> (res: Result<(), DbError>)
        ensures
            res is Ok,
            final(self)@ == old(self)@.after_toggle_pin(id),
    {
        proof {
            use_type_invariant(&*self);
        }
        let ghost old_items = self@.items;
        match self.id_position(id) {
            Some(i) => {
                let mut row = self.items[i].clone();
                row.pinned = !row.pinned;
                let mut items: Vec<ClipboardItem> = Vec::new();
                std::mem::swap(&mut items, &mut self.items);
                items.set(i, row);
                proof {
                    lemma_items_view_update(old(self).items@, i as int, row);
                    let ni = items_view(items@);
                    assert forall|a: int| 0 <= a < ni.len() implies #[trigger] ni[a] == toggled(
                        id,
                    )(old_items[a]) by {
                        if a != i {
                            assert(old_items[a].id != old_items[i as int].id);
                        }
                    }
                    assert(ni =~= old_items.map_values(toggled(id)));
                    assert forall|a: int, b: int|
                        0 <= a < ni.len() && 0 <= b < ni.len() && a != b implies ni[a].hash
                        != ni[b].hash by {
                        assert(ni[a].hash == old_items[a].hash);
                        assert(ni[b].hash == old_items[b].hash);
                    }
                    assert forall|a: int, b: int| 0 <= a < b < ni.len() implies ni[a].id
                        < ni[b].id by {
                        assert(ni[a].id == old_items[a].id);
                        assert(ni[b].id == old_items[b].id);
                    }
                    assert forall|a: int| 0 <= a < ni.len() implies 0 < #[trigger] ni[a].id
                        <= self.last_id by {
                        assert(ni[a].id == old_items[a].id);
                    }
                }
                self.items = items;
            },
            None => {
                proof {
                    assert forall|a: int| 0 <= a < old_items.len() implies #[trigger] old_items[a]
                        == toggled(id)(old_items[a]) by {
                        assert(old_items[a].id != id);
                    }
                    assert(old_items =~= old_items.map_values(toggled(id)));
                }
            },
        }
        Ok(())
    }

    /// The row with id `id`, blob included.
    pub fn get_item_by_id(&self, id: i64) -> (res: Result<Option<ClipboardItem>, DbError>)
        ensures
            res matches Ok(r) && match r {
                Some(it) => item_with_id(self@.items, id) == Some(it@),
                None => item_with_id(self@.items, id) is None,
            },
    {
        proof {
            use_type_invariant(&*self);
        }
        match self.id_position(id) {
            Some(i) => {
                let it = self.items[i].clone();
                proof {
                    let j = id_index(self@.items, id);
                    assert(self@.items[j].id == self@.items[i as int].id);
                    assert(j == i);
                }
                Ok(Some(it))
            },
            None => Ok(None),
        }
    }

    /// Removes every unpinned row.
    pub fn clear_history(&mut self) -> (res: Result<(), DbError>)
        ensures
            res is Ok,
            final(self)@ == old(self)@.after_clear(),
    {
        proof {
            use_type_invariant(&*self);
        }
        let ghost all = self@.items;
        let n = self.items.len();
        let mut out: Vec<ClipboardItem> = Vec::new();
        for i in 0..n
            invariant
                n == self.items@.len(),
                all == items_view(self.items@),
                items_view(out@) == all.take(i as int).filter(pinned_row()),
        {
            let ghost before = out@;
            if self.items[i].pinned {
                out.push(self.items[i].clone());
                proof {
                    lemma_items_view_push(before, out@.last());
                }
            }
            proof {
                lemma_filter_take_step(all, i as int, pinned_row());
            }
        }
        assert(all.take(n as int) =~= all);
        proof {
            lemma_filter_keeps_consistent(all, pinned_row(), self.last_id);
        }
        self.items = out;
        Ok(())
    }


    // ------------------------------------------------------------ listing

    /// Lists the rows that pass the filters — `content_type` equal to the
    /// given one, preview `LIKE '%search%'` — pinned rows first, then newer
    /// before older, skipping `offset` rows and answering at most `limit`.
    /// Listed rows carry no full-size blob.
    pub fn get_items(
        &self,
        limit: u32,
        offset: u32,
        search: Option<String>,
        content_type: Option<String>,
    ) -> (res: Result<Vec<ClipboardItem>, DbError>)
        ensures
            res matches Ok(v) && items_view(v@) == listing(
                self@.items,
                limit,
                offset,
                opt_chars(search),
                opt_chars(content_type),
            ),
    {
        proof {
            use_type_invariant(&*self);
        }
        let ghost all = self@.items;
        let ghost pred = passing(opt_chars(search), opt_chars(content_type));
        let pattern: Vec<char> = match &search {
            Some(s) => make_contains_pattern(s.as_str()),
            None => Vec::new(),
        };
        let n = self.items.len();
        let mut selected: Vec<ClipboardItem> = Vec::new();
        for i in 0..n
            invariant
                n == self.items@.len(),
                all == items_view(self.items@),
                pred == passing(opt_chars(search), opt_chars(content_type)),
                search matches Some(s) ==> pattern@ == contains_pattern(s@),
                items_view(selected@) == all.take(i as int).filter(pred),
        {
            let row = &self.items[i];
            let type_ok = match &content_type {
                Some(ct) => row.content_type == *ct,
                None => true,
            };
            let text_ok = match &search {
                Some(_) => like(row.preview.as_str(), &pattern),
                None => true,
            };
            let ghost before = selected@;
            if type_ok && text_ok {
                selected.push(row.clone());
                proof {
                    lemma_items_view_push(before, selected@.last());
                }
            }
            proof {
                assert(pred(all[i as int]) == (type_ok && text_ok));
                lemma_filter_take_step(all, i as int, pred);
            }
        }
        assert(all.take(n as int) =~= all);
        let sorted = sort_rows(&selected);
        let len = sorted.len();
        let start: usize = if (offset as u64) <= (len as u64) { offset as usize } else { len };
        let end: usize = if (offset as u64) + (limit as u64) <= (len as u64) {
            ((offset as u64) + (limit as u64)) as usize
        } else {
            len
        };
        let ghost sv = items_view(sorted@);
        let mut out: Vec<ClipboardItem> = Vec::new();
        let mut k = start;
        while k < end
            invariant
                start <= k <= end <= len,
                len == sorted@.len(),
                sv == items_view(sorted@),
                items_view(out@) == sv.subrange(start as int, k as int).map_values(blob_stripped()),
            decreases end - k,
        {
            let mut row = sorted[k].clone();
            row.blob_content = None;
            let ghost before = out@;
            out.push(row);
            proof {
                lemma_items_view_push(before, row);
                assert(sv.subrange(start as int, k + 1) =~= sv.subrange(start as int, k as int).push(
                    sv[k as int],
                ));
                assert(items_view(out@) =~= sv.subrange(start as int, k + 1).map_values(
                    blob_stripped(),
                ));
            }
            k = k + 1;
        }
        Ok(out)
    }

    /// Keeps the pinned rows and the `limit` most recent unpinned rows
    /// (most recent by `created_at`; among equal timestamps, earlier rows
    /// first), and removes every other row.
    pub fn enforce_history_limit(&mut self, limit: u32) -> (res: Result<(), DbError>)
        ensures
            res is Ok,
            final(self)@ == old(self)@.after_limit(limit),
    {
        proof {
            use_type_invariant(&*self);
        }
        let ghost all = self@.items;
        let n = self.items.len();
        let mut unpinned: Vec<ClipboardItem> = Vec::new();
        for i in 0..n
            invariant
                n == self.items@.len(),
                all == items_view(self.items@),
                items_view(unpinned@) == all.take(i as int).filter(unpinned_row()),
        {
            let ghost before = unpinned@;
            if !self.items[i].pinned {
                unpinned.push(self.items[i].clone());
                proof {
                    lemma_items_view_push(before, unpinned@.last());
                }
            }
            proof {
                lemma_filter_take_step(all, i as int, unpinned_row());
            }
        }
        assert(all.take(n as int) =~= all);
        let sorted = sort_rows(&unpinned);
        let ghost sv = items_view(sorted@);
        let keep: usize = if (limit as u64) <= (sorted.len() as u64) {
            limit as usize
        } else {
            sorted.len()
        };
        let mut ids: Vec<i64> = Vec::new();
        for k in 0..keep
            invariant
                keep <= sorted@.len(),
                sv == items_view(sorted@),
                ids@ == sv.take(k as int).map_values(row_id()),
        {
            ids.push(sorted[k].id);
            assert(sv.take(k + 1) =~= sv.take(k as int).push(sv[k as int]));
            assert(ids@ =~= sv.take(k + 1).map_values(row_id()));
        }
        let ghost idsv = ids@;
        assert(idsv == kept_ids(all, limit));
        let mut out: Vec<ClipboardItem> = Vec::new();
        for i in 0..n
            invariant
                n == self.items@.len(),
                all == items_view(self.items@),
                idsv == ids@,
                items_view(out@) == all.take(i as int).filter(pinned_or_among(idsv)),
        {
            let keep_row = self.items[i].pinned || vec_contains_i64(&ids, self.items[i].id);
            let ghost before = out@;
            if keep_row {
                out.push(self.items[i].clone());
                proof {
                    lemma_items_view_push(before, out@.last());
                }
            }
            proof {
                lemma_filter_take_step(all, i as int, pinned_or_among(idsv));
            }
        }
        assert(all.take(n as int) =~= all);
        proof {
            lemma_filter_keeps_consistent(all, pinned_or_among(idsv), self.last_id);
        }
        self.items = out;
        Ok(())
    }


    // ------------------------------------------------------------ what the app reads

    /// The known settings that have a value, in the settings window's order.
    pub fn get_settings(&self) -> (res: Vec<(String, String)>)
        ensures
            pairs_view(res@) == settings_snapshot(self@.settings),
    {
        proof {
            use_type_invariant(&*self);
        }
        let keys: Vec<&str> = vec![
            "theme",
            "window_width",
            "window_height",
            "show_source",
            "history_mode",
            "history_limit",
            "autostart",
            "shortcut",
        ];
        let ghost kv = keys@.map_values(|k: &str| k@);
        assert(kv =~= known_setting_keys());
        let ghost st = self@.settings;
        let mut out: Vec<(String, String)> = Vec::new();
        for i in 0..keys.len()
            invariant
                self.wf(),
                st == self@.settings,
                kv == keys@.map_values(|k: &str| k@),
                pairs_view(out@) == kv.take(i as int).filter(stored_in(st)).map_values(
                    with_value(st),
                ),
        {
            let k = keys[i];
            let ghost before = out@;
            match self.get_setting(k) {
                Ok(Some(v)) => {
                    out.push((k.to_owned(), v));
                },
                _ => {},
            }
            proof {
                assert(kv[i as int] == k@);
                lemma_filter_take_step(kv, i as int, stored_in(st));
                let f = kv.take(i as int).filter(stored_in(st));
                if st.contains_key(k@) {
                    assert(f.push(k@).map_values(with_value(st)) =~= f.map_values(with_value(st)).push(
                        (k@, st[k@]),
                    ));
                    assert(pairs_view(out@) =~= pairs_view(before).push((k@, st[k@])));
                }
            }
        }
        assert(kv.take(kv.len() as int) =~= kv);
        out
    }

    /// The stored shortcut, or the platform's default when none is stored.
    pub fn shortcut_or_default(&self, macos: bool) -> (res: String)
        ensures
            res@ == match setting_value(self@.settings, "shortcut"@) {
                Some(v) => v,
                None => default_shortcut_spec(macos),
            },
    {
        proof {
            use_type_invariant(&*self);
        }
        match self.get_setting("shortcut") {
            Ok(Some(v)) => v,
            _ => default_shortcut(macos).to_owned(),
        }
    }

    /// The row limit of the automatic cleanup, when it is switched on.
    pub fn history_cleanup_limit(&self) -> (res: Option<u32>)
        ensures
            res == cleanup_limit(self@.settings),
    {
        proof {
            use_type_invariant(&*self);
        }
        let mode = match self.get_setting("history_mode") {
            Ok(Some(m)) => m,
            _ => "never".to_owned(),
        };
        if !strings_equal(&mode, "auto") {
            proof {
                if setting_value(self@.settings, "history_mode"@) == Some("auto"@) {
                    assert(mode@ == "auto"@);
                }
            }
            return None;
        }
        proof {
            reveal_strlit("never");
            reveal_strlit("auto");
            if setting_value(self@.settings, "history_mode"@) is None {
                assert(mode@ == "never"@);
                assert(mode@[0] != "auto"@[0]);
            }
        }
        match self.get_setting("history_limit") {
            Ok(Some(v)) => match parse_u32(v.as_str()) {
                Some(n) => Some(n),
                None => Some(500),
            },
            _ => Some(500),
        }
    }

    /// Records a captured item: inserts it, then, when the insert succeeded
    /// and the automatic cleanup is switched on, applies the history limit.
    /// Answers what the insert answered.
    pub fn record_capture(&mut self, item: &ClipboardItem) -> (res: Result<i64, DbError>)
        ensures
            res == old(self)@.insert_result(item@),
            final(self)@ == old(self)@.after_capture(item@),
    {
        proof {
            use_type_invariant(&*self);
        }
        let res = self.insert_item(item);
        if res.is_ok() {
            match self.history_cleanup_limit() {
                Some(limit) => {
                    let _ = self.enforce_history_limit(limit);
                },
                None => {},
            }
        }
        res
    }

    // ------------------------------------------------------------ persistence

    /// A database holding the given rows, when they uphold the table
    /// constraints (ids increasing, positive and at most `last_id`, hashes
    /// unique, setting keys unique).
    pub fn from_rows(
        items: Vec<ClipboardItem>,
        settings: Vec<(String, String)>,
        last_id: i64,
    ) -> (res: Result<Database, DbError>)
        ensures
            match res {
                Ok(db) => {
                    &&& db@.items == items_view(items@)
                    &&& db@.settings == settings_view(settings@)
                    &&& db@.last_id == last_id
                },
                Err(e) => {
                    &&& e == DbError::InconsistentRows
                    &&& !(rows_consistent(items_view(items@), last_id) && keys_unique(settings@))
                },
            },
    {
        let ghost iv = items_view(items@);
        if last_id < 0 {
            return Err(DbError::InconsistentRows);
        }
        let n = items.len();
        for i in 0..n
            invariant
                n == items@.len(),
                iv == items_view(items@),
                last_id >= 0,
                forall|a: int, b: int| 0 <= a < b < i ==> iv[a].id < iv[b].id,
                forall|a: int| 0 <= a < i ==> 0 < #[trigger] iv[a].id <= last_id,
                forall|a: int, b: int|
                    0 <= a < i && 0 <= b < i && a != b ==> iv[a].hash != iv[b].hash,
        {
            let id = items[i].id;
            if id <= 0 || id > last_id {
                assert(iv[i as int].id == id);
                return Err(DbError::InconsistentRows);
            }
            if i > 0 && items[i - 1].id >= id {
                assert(iv[i - 1].id == items@[i - 1].id);
                return Err(DbError::InconsistentRows);
            }
            for j in 0..i
                invariant
                    i < n,
                    n == items@.len(),
                    iv == items_view(items@),
                    forall|b: int| 0 <= b < j ==> iv[b].hash != iv[i as int].hash,
            {
                if items[j].hash == items[i].hash {
                    assert(iv[j as int].hash == iv[i as int].hash);
                    return Err(DbError::InconsistentRows);
                }
            }
            proof {
                assert forall|a: int, b: int| 0 <= a < b < i + 1 implies iv[a].id < iv[b].id by {
                    if b == i && a < i - 1 {
                        assert(iv[a].id < iv[i - 1].id);
                    }
                }
            }
        }
        let m = settings.len();
        for i in 0..m
            invariant
                m == settings@.len(),
                forall|a: int, b: int|
                    0 <= a < i && 0 <= b < i && a != b ==> settings@[a].0@ != settings@[b].0@,
        {
            for j in 0..i
                invariant
                    i < m,
                    m == settings@.len(),
                    forall|b: int| 0 <= b < j ==> settings@[b].0@ != settings@[i as int].0@,
            {
                if settings[j].0 == settings[i].0 {
                    assert(!keys_unique(settings@));
                    return Err(DbError::InconsistentRows);
                }
            }
        }
        Ok(Database { items, settings, last_id })
    }

    /// The history rows, in row-id order, blobs included.
    pub fn rows(&self) -> (res: &Vec<ClipboardItem>)
        ensures
            items_view(res@) == self@.items,
    {
        &self.items
    }

    /// What `wf` says of the rows: ids strictly increasing, positive and at
    /// most `last_id`, hashes pairwise distinct. Every database meets `wf`,
    /// which `use_type_invariant` on it gives.
    pub proof fn lemma_wf(&self)
        requires
            self.wf(),
        ensures
            rows_consistent(self@.items, self@.last_id),
    {
    }

    /// The ids of the rows, in row-id order.
    pub fn row_ids(&self) -> (res: Vec<i64>)
        ensures
            res@ == self@.items.map_values(row_id()),
    {
        let ghost all = self@.items;
        let n = self.items.len();
        let mut ids: Vec<i64> = Vec::new();
        for i in 0..n
            invariant
                n == self.items@.len(),
                all == items_view(self.items@),
                ids@ == all.take(i as int).map_values(row_id()),
        {
            ids.push(self.items[i].id);
            assert(all.take(i + 1) =~= all.take(i as int).push(all[i as int]));
            assert(ids@ =~= all.take(i + 1).map_values(row_id()));
        }
        assert(all.take(n as int) =~= all);
        ids
    }

    /// Of the ids `before`, those that no row has any more: the rows a change
    /// removed, to be removed from the stored table too.
    pub fn removed_ids(&self, before: &Vec<i64>) -> (res: Vec<i64>)
        ensures
            res@ == before@.filter(absent_from(self@.items)),
    {
        proof {
            use_type_invariant(&*self);
        }
        let n = before.len();
        let mut out: Vec<i64> = Vec::new();
        for i in 0..n
            invariant
                self.wf(),
                n == before@.len(),
                out@ == before@.take(i as int).filter(absent_from(self@.items)),
        {
            let id = before[i];
            let present = self.id_position(id);
            if present.is_none() {
                out.push(id);
            }
            proof {
                lemma_filter_take_step(before@, i as int, absent_from(self@.items));
            }
        }
        assert(before@.take(n as int) =~= before@);
        out
    }

    /// The largest row id handed out so far.
    pub fn last_id(&self) -> (res: i64)
        ensures
            res == self@.last_id,
    {
        self.last_id
    }

    // ------------------------------------------------------------ hashing

    /// The content hash of a text: lower-case hex SHA-256 of its UTF-8 bytes.
    pub fn compute_hash(content: &str) -> (res: String)
        ensures
            res@ == text_hash(content@),
            res@.len() == 64,
    {
        let digest = sha256_digest(content.as_bytes());
        proof {
            lemma_hex_lower_len(digest@);
        }
        to_hex_lower(digest.as_slice())
    }

    /// The content hash of bytes: lower-case hex SHA-256.
    pub fn compute_hash_bytes(bytes: &[u8]) -> (res: String)
        ensures
            res@ == bytes_hash(bytes@),
            res@.len() == 64,
    {
        let digest = sha256_digest(bytes);
        proof {
            lemma_hex_lower_len(digest@);
        }
        to_hex_lower(digest.as_slice())
    }
}

} // verus!
