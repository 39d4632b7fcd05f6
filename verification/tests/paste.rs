use clipboard_manager::capture::{encode_png, image_item, text_item};
use clipboard_manager::clipboard::ClipboardImage;
use clipboard_manager::paste::{paste_content, PasteContent};
use clipboard_manager::storage::Database;

#[test]
fn text_row_pastes_its_text() {
    let item = text_item("paste me".into(), None, 1);
    match paste_content(&item) {
        Ok(PasteContent::Text(t)) => assert_eq!(t, "paste me"),
        other => panic!("unexpected {:?}", other),
    }
    let mut empty = item.clone();
    empty.text_content = None;
    empty.content_type = "file_path".into();
    assert!(matches!(paste_content(&empty), Ok(PasteContent::Text(ref t)) if t.is_empty()));
}

#[test]
fn image_row_pastes_decoded_pixels() {
    let img = ClipboardImage { width: 2, height: 1, bytes: vec![10, 20, 30, 255, 40, 50, 60, 128] };
    let png = encode_png(&img).unwrap();
    let item = image_item(2, 1, png, None, 1).unwrap();
    match paste_content(&item) {
        Ok(PasteContent::Image(got)) => {
            assert_eq!((got.width, got.height), (2, 1));
            assert_eq!(got.bytes, img.bytes);
        }
        other => panic!("unexpected {:?}", other),
    }
}

#[test]
fn image_row_without_blob_is_refused() {
    let mut item = image_item(1, 1, vec![1, 2, 3], None, 1).unwrap();
    assert!(paste_content(&item).is_err());
    item.blob_content = None;
    assert_eq!(paste_content(&item).unwrap_err(), "Image item has no blob");
}

#[test]
fn paste_unknown_id_is_not_found() {
    let mut db = Database::new();
    assert_eq!(db.paste_content_for(1).unwrap_err(), "Item not found");
    let id = db.insert_item(&text_item("x".into(), None, 1)).unwrap();
    assert!(matches!(db.paste_content_for(id), Ok(PasteContent::Text(ref t)) if t == "x"));
}
