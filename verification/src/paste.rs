//! What pasting a history row writes to the clipboard.

use vstd::prelude::*;
use crate::clipboard::ClipboardImage;
use crate::storage::models::{ClipboardItem, ItemView};
use crate::storage::{Database, item_with_id};

verus! {

/// The value a paste writes to the clipboard.
#[derive(Debug)]
pub enum PasteContent {
    Text(String),
    Image(ClipboardImage),
}

/// The RGBA pixels (width, height, bytes) of an encoded image, when the
/// bytes decode as an image of a format the decoder recognises.
pub uninterp spec fn rgba_decoding(bytes: Seq<u8>) -> Option<(u32, u32, Seq<u8>)>;

/// `img` holds the pixels `d`.
pub open spec fn image_holds(img: ClipboardImage, d: (u32, u32, Seq<u8>)) -> bool {
    &&& img.width == d.0 as usize
    &&& img.height == d.1 as usize
    &&& img.bytes@ == d.2
}

/// Trusted: calls `image::load_from_memory` and converts the image with
/// `DynamicImage::to_rgba8`. Claims that decoding succeeds exactly when
/// `rgba_decoding` of the bytes is something, and then gives its pixels.
/// The error text is the decoder's message; nothing is stated of it.
#[verifier::external_body]
fn decode_to_rgba(bytes: &[u8]) -> (res: Result<ClipboardImage, String>)
    ensures
        match res {
            Ok(img) => rgba_decoding(bytes@) is Some && image_holds(
                img,
                rgba_decoding(bytes@)->Some_0,
            ),
            Err(_) => rgba_decoding(bytes@) is None,
        },
{
    match image::load_from_memory(bytes) {
        Ok(decoded) => {
            let rgba = decoded.to_rgba8();
            Ok(
                ClipboardImage {
                    width: rgba.width() as usize,
                    height: rgba.height() as usize,
                    bytes: rgba.into_raw(),
                },
            )
        },
        Err(e) => Err(e.to_string()),
    }
}

/// What pasting the row `item` writes: for an image row, its stored image
/// decoded to RGBA (an error when it has none or it does not decode); for
/// any other row, its text (empty when it has none).
pub open spec fn paste_ok(item: ItemView, res: Result<PasteContent, String>) -> bool {
    if item.content_type == "image"@ {
        match item.blob_content {
            Some(b) => match res {
                Ok(PasteContent::Image(img)) => rgba_decoding(b) is Some && image_holds(
                    img,
                    rgba_decoding(b)->Some_0,
                ),
                Ok(PasteContent::Text(_)) => false,
                Err(_) => rgba_decoding(b) is None,
            },
            None => res matches Err(e) && e@ == "Image item has no blob"@,
        }
    } else {
        res matches Ok(PasteContent::Text(t)) && t@ == match item.text_content {
            Some(t) => t,
            None => Seq::empty(),
        }
    }
}

fn is_image_type(item: &ClipboardItem) -> (res: bool)
    ensures
        res == (item.content_type@ == "image"@),
{
    let image = "image".to_owned();
    item.content_type == image
}

/// The value pasting `item` writes to the clipboard.
pub fn paste_content(item: &ClipboardItem) -> (res: Result<PasteContent, String>)
    ensures
        paste_ok(item@, res),
{
    if is_image_type(item) {
        match &item.blob_content {
            Some(blob) => match decode_to_rgba(blob.as_slice()) {
                Ok(img) => Ok(PasteContent::Image(img)),
                Err(e) => Err(e),
            },
            None => Err("Image item has no blob".to_owned()),
        }
    } else {
        match &item.text_content {
            Some(t) => Ok(PasteContent::Text(t.clone())),
            None => Ok(PasteContent::Text(String::new())),
        }
    }
}

impl Database {
    /// What pasting the row with id `id` writes: `Item not found` when there
    /// is no such row, else as `paste_content` says.
    pub fn paste_content_for(&self, id: i64) -> (res: Result<PasteContent, String>)
        ensures
            match item_with_id(self@.items, id) {
                Some(it) => paste_ok(it, res),
                None => res matches Err(e) && e@ == "Item not found"@,
            },
    {
        match self.get_item_by_id(id) {
            Ok(Some(item)) => paste_content(&item),
            _ => Err("Item not found".to_owned()),
        }
    }
}

} // verus!
