use clipboard_manager::storage::models::ClipboardItem;
use clipboard_manager::storage::{recovered_last_id, Database, DbError};

fn tmp_db() -> Database {
    Database::new()
}

fn text_item(preview: &str, ts: i64) -> ClipboardItem {
    ClipboardItem {
        id: 0,
        content_type: "text".into(),
        text_content: Some(preview.into()),
        html_content: None,
        blob_content: None,
        thumb_content: None,
        file_path: None,
        preview: preview.into(),
        app_source: None,
        pinned: false,
        created_at: ts,
        hash: Database::compute_hash(preview),
    }
}

#[test]
fn settings_roundtrip() {
    let mut db = tmp_db();
    assert_eq!(db.get_setting("theme").unwrap(), None);
    db.set_setting("theme", "dark").unwrap();
    assert_eq!(db.get_setting("theme").unwrap(), Some("dark".into()));
    db.set_setting("theme", "light").unwrap();
    assert_eq!(db.get_setting("theme").unwrap(), Some("light".into()));
}

#[test]
fn thumb_content_roundtrips() {
    let mut db = tmp_db();
    let mut it = text_item("img", 1);
    it.thumb_content = Some(vec![1, 2, 3, 4]);
    db.insert_item(&it).unwrap();
    let items = db.get_items(100, 0, None, None).unwrap();
    assert_eq!(items[0].thumb_content, Some(vec![1, 2, 3, 4]));
}

#[test]
fn enforce_history_limit_keeps_pinned_and_recent() {
    let mut db = tmp_db();
    let mut pinned = text_item("pinned", 1);
    pinned.pinned = true;
    db.insert_item(&pinned).unwrap();
    for i in 0..6 {
        let mut it = text_item(&format!("t{}", i), 100 + i);
        it.hash = Database::compute_hash(&format!("t{}", i));
        db.insert_item(&it).unwrap();
    }
    db.enforce_history_limit(3).unwrap();
    let items = db.get_items(100, 0, None, None).unwrap();
    // pinned + the 3 most recent unpinned = 4
    assert_eq!(items.len(), 4);
    assert!(items.iter().any(|i| i.preview == "pinned" && i.pinned));
}

#[test]
fn clear_history_keeps_pinned() {
    let mut db = tmp_db();
    let mut pinned = text_item("pinned", 1);
    pinned.pinned = true;
    db.insert_item(&pinned).unwrap();
    db.insert_item(&text_item("a", 2)).unwrap();
    db.clear_history().unwrap();
    let items = db.get_items(100, 0, None, None).unwrap();
    assert_eq!(items.len(), 1);
    assert_eq!(items[0].preview, "pinned");
}

#[test]
fn get_item_by_id_returns_blob() {
    let mut db = tmp_db();
    let mut it = text_item("hello", 5);
    it.blob_content = Some(vec![1, 2, 3]);
    let id = db.insert_item(&it).unwrap();
    let got = db.get_item_by_id(id).unwrap().unwrap();
    assert_eq!(got.blob_content, Some(vec![1, 2, 3]));
    assert_eq!(got.text_content.as_deref(), Some("hello"));
}

#[test]
fn get_items_omits_blob() {
    let mut db = tmp_db();
    let mut it = text_item("hello", 5);
    it.blob_content = Some(vec![9, 9, 9]);
    db.insert_item(&it).unwrap();
    let items = db.get_items(100, 0, None, None).unwrap();
    assert_eq!(items[0].blob_content, None);
}

// ---------------------------------------------------------------- more

#[test]
fn compute_hash_is_lower_hex_sha256() {
    assert_eq!(
        Database::compute_hash("hello"),
        "2cf24dba5fb0a30e26e83b2ac5b9e29e1b161e5c1fa7425e73043362938b9824"
    );
    assert_eq!(
        Database::compute_hash(""),
        "e3b0c44298fc1c149afbf4c8996fb92427ae41e4649b934ca495991b7852b855"
    );
    assert_eq!(Database::compute_hash_bytes(b"hello"), Database::compute_hash("hello"));
    assert_eq!(Database::compute_hash("héllo"), Database::compute_hash_bytes("héllo".as_bytes()));
}

#[test]
fn insert_assigns_increasing_ids() {
    let mut db = tmp_db();
    assert_eq!(db.insert_item(&text_item("a", 1)).unwrap(), 1);
    assert_eq!(db.insert_item(&text_item("b", 2)).unwrap(), 2);
    db.delete_item(2).unwrap();
    // ids are never reused
    assert_eq!(db.insert_item(&text_item("c", 3)).unwrap(), 3);
    assert_eq!(db.last_id(), 3);
}

#[test]
fn insert_same_content_moves_row_to_top() {
    let mut db = tmp_db();
    let first = db.insert_item(&text_item("same", 1)).unwrap();
    db.insert_item(&text_item("other", 2)).unwrap();
    let again = db.insert_item(&text_item("same", 10)).unwrap();
    assert_eq!(first, again);
    let items = db.get_items(100, 0, None, None).unwrap();
    assert_eq!(items.len(), 2);
    assert_eq!(items[0].preview, "same");
    assert_eq!(items[0].created_at, 10);
}

#[test]
fn insert_keeps_pin_of_existing_row() {
    let mut db = tmp_db();
    let id = db.insert_item(&text_item("x", 1)).unwrap();
    db.toggle_pin(id).unwrap();
    db.insert_item(&text_item("x", 5)).unwrap();
    let got = db.get_item_by_id(id).unwrap().unwrap();
    assert!(got.pinned);
    assert_eq!(got.created_at, 5);
}

#[test]
fn listing_order_pinned_then_newest() {
    let mut db = tmp_db();
    db.insert_item(&text_item("old", 1)).unwrap();
    db.insert_item(&text_item("new", 3)).unwrap();
    let mid = db.insert_item(&text_item("mid", 2)).unwrap();
    let older_pin = db.insert_item(&text_item("pinned-old", 0)).unwrap();
    db.toggle_pin(older_pin).unwrap();
    let previews: Vec<String> =
        db.get_items(100, 0, None, None).unwrap().into_iter().map(|i| i.preview).collect();
    assert_eq!(previews, vec!["pinned-old", "new", "mid", "old"]);
    let page: Vec<String> =
        db.get_items(2, 1, None, None).unwrap().into_iter().map(|i| i.preview).collect();
    assert_eq!(page, vec!["new", "mid"]);
    assert!(db.get_items(10, 10, None, None).unwrap().is_empty());
    assert!(db.get_items(0, 0, None, None).unwrap().is_empty());
    let _ = mid;
}

#[test]
fn equal_timestamps_keep_row_order() {
    let mut db = tmp_db();
    db.insert_item(&text_item("first", 7)).unwrap();
    db.insert_item(&text_item("second", 7)).unwrap();
    let previews: Vec<String> =
        db.get_items(100, 0, None, None).unwrap().into_iter().map(|i| i.preview).collect();
    assert_eq!(previews, vec!["first", "second"]);
}

#[test]
fn search_and_type_filters() {
    let mut db = tmp_db();
    db.insert_item(&text_item("Hello World", 1)).unwrap();
    db.insert_item(&text_item("goodbye", 2)).unwrap();
    let mut img = text_item("图片 2×2", 3);
    img.content_type = "image".into();
    db.insert_item(&img).unwrap();
    let hits = db.get_items(100, 0, Some("hello".into()), None).unwrap();
    assert_eq!(hits.len(), 1);
    assert_eq!(hits[0].preview, "Hello World");
    // `_` matches any one character, `%` any run
    assert_eq!(db.get_items(100, 0, Some("g_odb".into()), None).unwrap().len(), 1);
    assert_eq!(db.get_items(100, 0, Some("H%W".into()), None).unwrap().len(), 1);
    assert_eq!(db.get_items(100, 0, Some("xyz".into()), None).unwrap().len(), 0);
    assert_eq!(db.get_items(100, 0, Some("".into()), None).unwrap().len(), 3);
    let images = db.get_items(100, 0, None, Some("image".into())).unwrap();
    assert_eq!(images.len(), 1);
    assert_eq!(images[0].content_type, "image");
    assert_eq!(db.get_items(100, 0, Some("图片".into()), Some("text".into())).unwrap().len(), 0);
}

#[test]
fn toggle_pin_twice_restores() {
    let mut db = tmp_db();
    let id = db.insert_item(&text_item("a", 1)).unwrap();
    db.toggle_pin(id).unwrap();
    assert!(db.get_item_by_id(id).unwrap().unwrap().pinned);
    db.toggle_pin(id).unwrap();
    assert!(!db.get_item_by_id(id).unwrap().unwrap().pinned);
    // an unknown id changes nothing
    db.toggle_pin(99).unwrap();
    assert_eq!(db.get_items(10, 0, None, None).unwrap().len(), 1);
}

#[test]
fn delete_removes_only_that_row() {
    let mut db = tmp_db();
    let a = db.insert_item(&text_item("a", 1)).unwrap();
    let b = db.insert_item(&text_item("b", 2)).unwrap();
    db.delete_item(a).unwrap();
    assert!(db.get_item_by_id(a).unwrap().is_none());
    assert!(db.get_item_by_id(b).unwrap().is_some());
    db.delete_item(12345).unwrap();
    assert_eq!(db.rows().len(), 1);
}

#[test]
fn enforce_history_limit_drops_oldest() {
    let mut db = tmp_db();
    for i in 0..5 {
        db.insert_item(&text_item(&format!("n{}", i), i)).unwrap();
    }
    db.enforce_history_limit(2).unwrap();
    let previews: Vec<String> =
        db.get_items(100, 0, None, None).unwrap().into_iter().map(|i| i.preview).collect();
    assert_eq!(previews, vec!["n4", "n3"]);
    db.enforce_history_limit(0).unwrap();
    assert!(db.get_items(100, 0, None, None).unwrap().is_empty());
}

#[test]
fn id_space_exhausted() {
    let mut full = Database::from_rows(Vec::new(), Vec::new(), i64::MAX).unwrap();
    assert_eq!(full.insert_item(&text_item("a", 1)), Err(DbError::IdSpaceExhausted));
    assert!(full.rows().is_empty());
}

#[test]
fn from_rows_checks_constraints() {
    let mut a = text_item("a", 1);
    a.id = 2;
    let mut b = text_item("b", 2);
    b.id = 1;
    assert!(matches!(
        Database::from_rows(vec![a.clone(), b.clone()], Vec::new(), 5),
        Err(DbError::InconsistentRows)
    ));
    assert!(matches!(Database::from_rows(vec![b.clone(), a.clone()], Vec::new(), 1), Err(DbError::InconsistentRows)));
    let mut dup = text_item("a", 3);
    dup.id = 3;
    assert!(matches!(Database::from_rows(vec![a.clone(), dup], Vec::new(), 5), Err(DbError::InconsistentRows)));
    let keys = vec![("k".to_string(), "1".to_string()), ("k".to_string(), "2".to_string())];
    assert!(matches!(Database::from_rows(Vec::new(), keys, 0), Err(DbError::InconsistentRows)));
    let db = Database::from_rows(vec![b, a], vec![("theme".into(), "dark".into())], 2).unwrap();
    assert_eq!(db.rows().len(), 2);
    assert_eq!(db.get_setting("theme").unwrap(), Some("dark".into()));
}

#[test]
fn settings_snapshot_lists_known_keys_in_order() {
    let mut db = tmp_db();
    db.set_setting("shortcut", "Alt+V").unwrap();
    db.set_setting("theme", "dark").unwrap();
    db.set_setting("unrelated", "x").unwrap();
    assert_eq!(
        db.get_settings(),
        vec![("theme".to_string(), "dark".to_string()), ("shortcut".to_string(), "Alt+V".to_string())]
    );
}

#[test]
fn shortcut_defaults_per_platform() {
    let mut db = tmp_db();
    assert_eq!(db.shortcut_or_default(true), "CommandOrControl+Shift+V");
    assert_eq!(db.shortcut_or_default(false), "Control+Shift+V");
    db.set_setting("shortcut", "Alt+Shift+C").unwrap();
    assert_eq!(db.shortcut_or_default(true), "Alt+Shift+C");
}

#[test]
fn cleanup_limit_follows_settings() {
    let mut db = tmp_db();
    assert_eq!(db.history_cleanup_limit(), None);
    db.set_setting("history_mode", "manual").unwrap();
    assert_eq!(db.history_cleanup_limit(), None);
    db.set_setting("history_mode", "auto").unwrap();
    assert_eq!(db.history_cleanup_limit(), Some(500));
    db.set_setting("history_limit", "abc").unwrap();
    assert_eq!(db.history_cleanup_limit(), Some(500));
    db.set_setting("history_limit", "3").unwrap();
    assert_eq!(db.history_cleanup_limit(), Some(3));
}

#[test]
fn record_capture_applies_auto_cleanup() {
    let mut db = tmp_db();
    db.set_setting("history_mode", "auto").unwrap();
    db.set_setting("history_limit", "2").unwrap();
    for i in 0..4 {
        let id = db.record_capture(&text_item(&format!("c{}", i), i)).unwrap();
        assert_eq!(id, i + 1);
    }
    let previews: Vec<String> =
        db.get_items(100, 0, None, None).unwrap().into_iter().map(|i| i.preview).collect();
    assert_eq!(previews, vec!["c3", "c2"]);
    // without auto mode nothing is dropped
    let mut keep = tmp_db();
    for i in 0..4 {
        keep.record_capture(&text_item(&format!("c{}", i), i)).unwrap();
    }
    assert_eq!(keep.rows().len(), 4);
}

#[test]
fn clear_history_twice_is_clear_once() {
    let mut db = tmp_db();
    let p = db.insert_item(&text_item("keep", 1)).unwrap();
    db.toggle_pin(p).unwrap();
    db.insert_item(&text_item("drop", 2)).unwrap();
    db.clear_history().unwrap();
    let once: Vec<i64> = db.rows().iter().map(|r| r.id).collect();
    db.clear_history().unwrap();
    let twice: Vec<i64> = db.rows().iter().map(|r| r.id).collect();
    assert_eq!(once, vec![p]);
    assert_eq!(once, twice);
}

#[test]
fn first_page_lists_every_match() {
    let mut db = tmp_db();
    for i in 0..5 {
        db.insert_item(&text_item(&format!("row {}", i), i)).unwrap();
    }
    let all = db.get_items(5, 0, Some("row".into()), None).unwrap();
    assert_eq!(all.len(), 5);
    let ids: Vec<i64> = all.iter().map(|r| r.id).collect();
    assert_eq!(ids, vec![5, 4, 3, 2, 1]);
}

#[test]
fn consecutive_pages_make_the_listing() {
    let mut db = tmp_db();
    for i in 0..7 {
        db.insert_item(&text_item(&format!("p{}", i), i)).unwrap();
    }
    let ids = |v: Vec<ClipboardItem>| v.into_iter().map(|r| r.id).collect::<Vec<i64>>();
    let mut joined = ids(db.get_items(3, 1, None, None).unwrap());
    joined.extend(ids(db.get_items(2, 4, None, None).unwrap()));
    assert_eq!(joined, ids(db.get_items(5, 1, None, None).unwrap()));
}

#[test]
fn failed_capture_runs_no_cleanup() {
    let mut a = text_item("a", 1);
    a.id = 1;
    let mut b = text_item("b", 2);
    b.id = 2;
    let mut db = Database::from_rows(vec![a, b], Vec::new(), i64::MAX).unwrap();
    db.set_setting("history_mode", "auto").unwrap();
    db.set_setting("history_limit", "1").unwrap();
    assert_eq!(db.record_capture(&text_item("c", 3)), Err(DbError::IdSpaceExhausted));
    assert_eq!(db.rows().len(), 2);
    // a capture of content already stored succeeds, and then the cleanup runs
    assert_eq!(db.record_capture(&text_item("a", 9)), Ok(1));
    assert_eq!(db.row_ids(), vec![1]);
}

#[test]
fn write_through_planning() {
    let mut db = tmp_db();
    for i in 0..4 {
        db.insert_item(&text_item(&format!("w{}", i), i)).unwrap();
    }
    let before = db.row_ids();
    assert_eq!(before, vec![1, 2, 3, 4]);
    db.delete_item(2).unwrap();
    db.enforce_history_limit(2).unwrap();
    assert_eq!(db.removed_ids(&before), vec![1, 2]);
    assert_eq!(recovered_last_id(None, db.rows()), 4);
    assert_eq!(recovered_last_id(Some(9), db.rows()), 9);
    assert_eq!(recovered_last_id(None, &Vec::new()), 0);
}
