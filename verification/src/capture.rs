//! How a captured clipboard value becomes a history record: the preview, the
//! content hash, the PNG form of an image and the image size limit.

use vstd::prelude::*;
use crate::clipboard::ClipboardImage;
use crate::storage::models::{ClipboardItem, ItemView, opt_chars, opt_bytes};
use crate::storage::{Database, text_hash, bytes_hash};
use crate::text::{chars_of, string_from_chars, decimal, push_decimal};

verus! {

/// How many characters of a long text the preview keeps.
pub const PREVIEW_CHARS: usize = 200;

/// Encoded images larger than this many bytes are not recorded.
pub const MAX_IMAGE_BYTES: usize = 5 * 1024 * 1024;

/// The preview of a text: the text itself when it has at most 200
/// characters, else its first 200 characters followed by `...`.
pub open spec fn text_preview_spec(text: Seq<char>) -> Seq<char> {
    if text.len() > 200 {
        text.take(200) + "..."@
    } else {
        text
    }
}

/// The preview of a `width`×`height` image: `图片 {width}×{height}`.
pub open spec fn image_preview_spec(width: usize, height: usize) -> Seq<char> {
    seq!['图', '片', ' '] + decimal(width as nat) + seq!['×'] + decimal(height as nat)
}

/// The record a captured text becomes.
pub open spec fn text_item_spec(
    text: Seq<char>,
    app_source: Option<Seq<char>>,
    created_at: i64,
) -> ItemView {
    ItemView {
        id: 0,
        content_type: "text"@,
        text_content: Some(text),
        html_content: None,
        blob_content: None,
        thumb_content: None,
        file_path: None,
        preview: text_preview_spec(text),
        app_source: app_source,
        pinned: false,
        created_at: created_at,
        hash: text_hash(text),
    }
}

/// The record a captured image becomes, given its PNG encoding; the thumbnail
/// is added by the caller.
pub open spec fn image_item_spec(
    width: usize,
    height: usize,
    png: Seq<u8>,
    app_source: Option<Seq<char>>,
    created_at: i64,
) -> ItemView {
    ItemView {
        id: 0,
        content_type: "image"@,
        text_content: None,
        html_content: None,
        blob_content: Some(png),
        thumb_content: None,
        file_path: None,
        preview: image_preview_spec(width, height),
        app_source: app_source,
        pinned: false,
        created_at: created_at,
        hash: bytes_hash(png),
    }
}

/// The preview of a captured text.
pub fn text_preview(text: &str) -> (res: String)
    ensures
        res@ == text_preview_spec(text@),
{
    let cs = chars_of(text);
    if cs.len() > PREVIEW_CHARS {
        let n = PREVIEW_CHARS;
        let mut out: Vec<char> = Vec::new();
        for i in 0..n
            invariant
                n <= cs@.len(),
                out@ == cs@.take(i as int),
        {
            out.push(cs[i]);
            assert(cs@.take(i + 1) =~= cs@.take(i as int).push(cs@[i as int]));
        }
        out.push('.');
        out.push('.');
        out.push('.');
        proof {
            reveal_strlit("...");
            assert(out@ =~= text@.take(n as int) + "..."@);
        }
        string_from_chars(out.as_slice())
    } else {
        text.to_owned()
    }
}

/// The record a captured text becomes (its id is assigned when it is stored).
pub fn text_item(text: String, app_source: Option<String>, created_at: i64) -> (res: ClipboardItem)
    ensures
        res@ == text_item_spec(text@, opt_chars(app_source), created_at),
{
    let preview = text_preview(text.as_str());
    let hash = Database::compute_hash(text.as_str());
    ClipboardItem {
        id: 0,
        content_type: "text".to_owned(),
        text_content: Some(text),
        html_content: None,
        blob_content: None,
        thumb_content: None,
        file_path: None,
        preview,
        app_source,
        pinned: false,
        created_at,
        hash,
    }
}

/// The PNG encoding of a `width`×`height` RGBA image whose pixels are
/// `rgba`; nothing when the encoder refuses the image.
pub uninterp spec fn png_encoding(width: u32, height: u32, rgba: Seq<u8>) -> Option<Seq<u8>>;

/// Trusted: calls `image::RgbaImage::from_raw` and encodes the result with
/// `DynamicImage::write_to(.., ImageFormat::Png)` into memory. Claims that the
/// result is the function `png_encoding` of the arguments. The buffer must
/// hold exactly `4 * width * height` bytes: the PNG encoder asserts that
/// length and panics on a longer buffer, which `from_raw` lets through.
#[verifier::external_body]
fn rgba_to_png(width: u32, height: u32, rgba: Vec<u8>) -> (res: Option<Vec<u8>>)
    requires
        rgba@.len() == 4 * width * height,
    ensures
        opt_bytes(res) == png_encoding(width, height, rgba@),
{
    let img = image::RgbaImage::from_raw(width, height, rgba)?;
    let mut buf = std::io::Cursor::new(Vec::new());
    image::DynamicImage::ImageRgba8(img).write_to(&mut buf, image::ImageFormat::Png).ok()?;
    Some(buf.into_inner())
}

/// The number of bytes of a `width`×`height` RGBA image.
pub open spec fn rgba_len(width: u32, height: u32) -> int {
    4 * width * height
}

/// The PNG encoding of a captured image, its dimensions taken as `u32`:
/// nothing when its pixels are not exactly `4 * width * height` bytes.
pub fn encode_png(img: &ClipboardImage) -> (res: Option<Vec<u8>>)
    ensures
        img.bytes@.len() == rgba_len(img.width as u32, img.height as u32)
            ==> opt_bytes(res)
            == png_encoding(img.width as u32, img.height as u32, img.bytes@),
        img.bytes@.len() != rgba_len(img.width as u32, img.height as u32) ==> res is None,
{
    let w = #[verifier::truncate] (img.width as u32);
    let h = #[verifier::truncate] (img.height as u32);
    let row: u64 = 4 * (w as u64);
    assert(row * h == rgba_len(w, h)) by (nonlinear_arith)
        requires
            row == 4 * w,
    ;
    let len = img.bytes.len();
    let need = row.checked_mul(h as u64);
    match need {
        Some(n) => {
            if (len as u64) != n {
                return None;
            }
        },
        None => {
            assert(len <= u64::MAX);
            return None;
        },
    }
    let bytes = img.bytes.clone();
    assert(bytes@ =~= img.bytes@);
    rgba_to_png(w, h, bytes)
}

/// The preview of a `width`×`height` image.
pub fn image_preview(width: usize, height: usize) -> (res: String)
    ensures
        res@ == image_preview_spec(width, height),
{
    let mut out: Vec<char> = Vec::new();
    out.push('图');
    out.push('片');
    out.push(' ');
    push_decimal(width, &mut out);
    out.push('×');
    push_decimal(height, &mut out);
    assert(out@ =~= image_preview_spec(width, height));
    string_from_chars(out.as_slice())
}

/// The record a captured image becomes, given its PNG encoding: nothing when
/// the encoding is larger than `MAX_IMAGE_BYTES`. The record has no thumbnail
/// yet.
pub fn image_item(
    width: usize,
    height: usize,
    png: Vec<u8>,
    app_source: Option<String>,
    created_at: i64,
) -> (res: Option<ClipboardItem>)
    ensures
        match res {
            Some(it) => {
                &&& png@.len() <= MAX_IMAGE_BYTES
                &&& it@ == image_item_spec(width, height, png@, opt_chars(app_source), created_at)
            },
            None => png@.len() > MAX_IMAGE_BYTES,
        },
        res is Some <==> png@.len() <= 5 * 1024 * 1024,
{
    if png.len() > MAX_IMAGE_BYTES {
        return None;
    }
    let hash = Database::compute_hash_bytes(png.as_slice());
    let preview = image_preview(width, height);
    Some(
        ClipboardItem {
            id: 0,
            content_type: "image".to_owned(),
            text_content: None,
            html_content: None,
            blob_content: Some(png),
            thumb_content: None,
            file_path: None,
            preview,
            app_source,
            pinned: false,
            created_at,
            hash,
        },
    )
}

} // verus!
