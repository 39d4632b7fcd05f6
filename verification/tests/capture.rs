use clipboard_manager::capture::{
    encode_png, image_item, image_preview, text_item, text_preview, MAX_IMAGE_BYTES,
};
use clipboard_manager::clipboard::ClipboardImage;
use clipboard_manager::storage::models::ContentType;
use clipboard_manager::storage::Database;
use clipboard_manager::text::{parse_u32, to_hex_lower};

#[test]
fn short_text_is_its_own_preview() {
    assert_eq!(text_preview("hello"), "hello");
    let exactly = "a".repeat(200);
    assert_eq!(text_preview(&exactly), exactly);
}

#[test]
fn long_text_preview_is_truncated() {
    let long = "a".repeat(250);
    let p = text_preview(&long);
    assert_eq!(p, format!("{}...", "a".repeat(200)));
    // the cut counts characters, not bytes
    let cjk = "字".repeat(100);
    assert_eq!(text_preview(&cjk), cjk);
    let long_cjk = "字".repeat(201);
    assert_eq!(text_preview(&long_cjk), format!("{}...", "字".repeat(200)));
}

#[test]
fn text_item_fields() {
    let it = text_item("copy me".to_string(), Some("Notes".to_string()), 42);
    assert_eq!(it.id, 0);
    assert_eq!(it.content_type, "text");
    assert_eq!(it.text_content.as_deref(), Some("copy me"));
    assert_eq!(it.preview, "copy me");
    assert_eq!(it.app_source.as_deref(), Some("Notes"));
    assert!(!it.pinned);
    assert_eq!(it.created_at, 42);
    assert_eq!(it.hash, Database::compute_hash("copy me"));
    assert!(it.blob_content.is_none() && it.thumb_content.is_none());
}

#[test]
fn image_preview_names_size() {
    assert_eq!(image_preview(1920, 1080), "图片 1920×1080");
    assert_eq!(image_preview(0, 7), "图片 0×7");
}

#[test]
fn image_item_fields_and_limit() {
    let png = vec![1u8, 2, 3];
    let it = image_item(4, 5, png.clone(), None, 9).unwrap();
    assert_eq!(it.content_type, "image");
    assert_eq!(it.blob_content, Some(png.clone()));
    assert_eq!(it.preview, "图片 4×5");
    assert_eq!(it.hash, Database::compute_hash_bytes(&png));
    assert!(it.text_content.is_none() && it.thumb_content.is_none());
    let too_big = vec![0u8; MAX_IMAGE_BYTES + 1];
    assert!(image_item(1, 1, too_big, None, 1).is_none());
    assert!(image_item(1, 1, vec![0u8; MAX_IMAGE_BYTES], None, 1).is_some());
}

#[test]
fn encode_png_makes_png() {
    let img = ClipboardImage { width: 2, height: 1, bytes: vec![255, 0, 0, 255, 0, 255, 0, 255] };
    let png = encode_png(&img).unwrap();
    assert_eq!(&png[..8], &[0x89, b'P', b'N', b'G', 0x0d, 0x0a, 0x1a, 0x0a]);
    assert_ne!(png, img.bytes);
    let short = ClipboardImage { width: 2, height: 2, bytes: vec![0; 15] };
    assert!(encode_png(&short).is_none());
    // surplus bytes are refused too
    let long = ClipboardImage { width: 2, height: 2, bytes: vec![0; 17] };
    assert!(encode_png(&long).is_none());
}

#[test]
fn parse_u32_like_std() {
    for s in ["0", "500", "+7", "4294967295", "007", "-1", "", "+", "4294967296", "1a", " 5", "99999999999999999999"] {
        assert_eq!(parse_u32(s), s.parse::<u32>().ok(), "input {:?}", s);
    }
}

#[test]
fn hex_is_lower_case() {
    assert_eq!(to_hex_lower(&[0x00, 0x0f, 0xab, 0xff]), "000fabff");
    assert_eq!(to_hex_lower(&[]), "");
}

#[test]
fn content_type_names() {
    assert_eq!(ContentType::Text.as_str(), "text");
    assert_eq!(ContentType::RichText.as_str(), "rich_text");
    assert_eq!(ContentType::Image.as_str(), "image");
    assert_eq!(ContentType::FilePath.as_str(), "file_path");
}

#[test]
fn decimal_limits_parse_back() {
    for n in [0u32, 7, 10, 500, 10000, u32::MAX] {
        assert_eq!(parse_u32(&n.to_string()), Some(n));
    }
}
