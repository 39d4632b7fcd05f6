use vstd::prelude::*;

verus! {

/// One record of the clipboard history.
#[derive(Debug)]
pub struct ClipboardItem {
    pub id: i64,
    pub content_type: String,
    pub text_content: Option<String>,
    pub html_content: Option<String>,
    pub blob_content: Option<Vec<u8>>,
    pub thumb_content: Option<Vec<u8>>,
    pub file_path: Option<String>,
    pub preview: String,
    pub app_source: Option<String>,
    pub pinned: bool,
    pub created_at: i64,
    pub hash: String,
}

/// The mathematical value of a `ClipboardItem`: its fields, with strings as
/// character sequences and byte buffers as byte sequences.
pub struct ItemView {
    pub id: i64,
    pub content_type: Seq<char>,
    pub text_content: Option<Seq<char>>,
    pub html_content: Option<Seq<char>>,
    pub blob_content: Option<Seq<u8>>,
    pub thumb_content: Option<Seq<u8>>,
    pub file_path: Option<Seq<char>>,
    pub preview: Seq<char>,
    pub app_source: Option<Seq<char>>,
    pub pinned: bool,
    pub created_at: i64,
    pub hash: Seq<char>,
}

pub open spec fn opt_chars(o: Option<String>) -> Option<Seq<char>> {
    match o {
        Some(s) => Some(s@),
        None => None,
    }
}

pub open spec fn opt_bytes(o: Option<Vec<u8>>) -> Option<Seq<u8>> {
    match o {
        Some(v) => Some(v@),
        None => None,
    }
}

impl View for ClipboardItem {
    type V = ItemView;

    open spec fn view(&self) -> ItemView {
        ItemView {
            id: self.id,
            content_type: self.content_type@,
            text_content: opt_chars(self.text_content),
            html_content: opt_chars(self.html_content),
            blob_content: opt_bytes(self.blob_content),
            thumb_content: opt_bytes(self.thumb_content),
            file_path: opt_chars(self.file_path),
            preview: self.preview@,
            app_source: opt_chars(self.app_source),
            pinned: self.pinned,
            created_at: self.created_at,
            hash: self.hash@,
        }
    }
}

impl ItemView {
    /// The record as a history listing shows it: without the full-size blob.
    pub open spec fn without_blob(self) -> ItemView {
        ItemView { blob_content: None, ..self }
    }

    /// The record with another id.
    pub open spec fn with_id(self, id: i64) -> ItemView {
        ItemView { id: id, ..self }
    }
}

pub fn clone_opt_string(o: &Option<String>) -> (res: Option<String>)
    ensures
        opt_chars(res) == opt_chars(*o),
{
    match o {
        Some(s) => Some(s.clone()),
        None => None,
    }
}

pub fn clone_opt_bytes(o: &Option<Vec<u8>>) -> (res: Option<Vec<u8>>)
    ensures
        opt_bytes(res) == opt_bytes(*o),
{
    match o {
        Some(v) => {
            let c = v.clone();
            assert(c@ =~= v@);
            Some(c)
        },
        None => None,
    }
}

impl Clone for ClipboardItem {
    fn clone(&self) -> (res: Self)
        ensures
            res@ == self@,
    {
        ClipboardItem {
            id: self.id,
            content_type: self.content_type.clone(),
            text_content: clone_opt_string(&self.text_content),
            html_content: clone_opt_string(&self.html_content),
            blob_content: clone_opt_bytes(&self.blob_content),
            thumb_content: clone_opt_bytes(&self.thumb_content),
            file_path: clone_opt_string(&self.file_path),
            preview: self.preview.clone(),
            app_source: clone_opt_string(&self.app_source),
            pinned: self.pinned,
            created_at: self.created_at,
            hash: self.hash.clone(),
        }
    }
}

/// The kind of content a history record holds.
#[derive(Debug, Clone, Copy, PartialEq, Eq)]
pub enum ContentType {
    Text,
    RichText,
    Image,
    FilePath,
}

impl ContentType {
    /// The name under which the kind is stored in `ClipboardItem::content_type`.
    pub open spec fn spec_name(self) -> Seq<char> {
        match self {
            ContentType::Text => "text"@,
            ContentType::RichText => "rich_text"@,
            ContentType::Image => "image"@,
            ContentType::FilePath => "file_path"@,
        }
    }

    pub fn as_str(&self) -> (s: &'static str)
        ensures
            s@ == self.spec_name(),
    {
        match self {
            ContentType::Text => "text",
            ContentType::RichText => "rich_text",
            ContentType::Image => "image",
            ContentType::FilePath => "file_path",
        }
    }
}

} // verus!
