use vstd::prelude::*;

verus! {

/// What a history entry holds.
#[derive(Debug, Clone, Copy, PartialEq, Eq, Structural)]
pub enum EntryKind {
    Text,
    Image,
}

impl EntryKind {
    /// The name shown for the kind.
    pub open spec fn spec_label(self) -> &'static str {
        match self {
            EntryKind::Text => "Text",
            EntryKind::Image => "Image",
        }
    }

    pub fn label(self) -> (label: &'static str)
        ensures
            label == self.spec_label(),
    {
        match self {
            EntryKind::Text => "Text",
            EntryKind::Image => "Image",
        }
    }
}

/// The pixels of an image in RGBA order, with its size.
#[derive(Debug, PartialEq, Eq)]
pub struct StoredImage {
    pub rgba: Vec<u8>,
    pub width: i64,
    pub height: i64,
}

/// What a stored image is, as values.
pub struct ImageView {
    pub rgba: Seq<u8>,
    pub width: i64,
    pub height: i64,
}

impl View for StoredImage {
    type V = ImageView;

    open spec fn view(&self) -> ImageView {
        ImageView { rgba: self.rgba@, width: self.width, height: self.height }
    }
}

impl Clone for StoredImage {
    fn clone(&self) -> (copy: Self)
        ensures
            copy@ == self@,
    {
        let rgba = self.rgba.clone();
        assert(rgba@ =~= self.rgba@);
        StoredImage { rgba, width: self.width, height: self.height }
    }
}

/// One entry of the clipboard history.
#[derive(Debug, PartialEq, Eq)]
pub struct ClipboardEntry {
    pub id: i64,
    pub kind: EntryKind,
    pub text: Option<String>,
    pub image: Option<StoredImage>,
    pub content_hash: String,
    pub pinned: bool,
    pub created_at: i64,
}

/// What a history entry is, as values.
pub struct EntryView {
    pub id: i64,
    pub kind: EntryKind,
    pub text: Option<Seq<char>>,
    pub image: Option<ImageView>,
    pub content_hash: Seq<char>,
    pub pinned: bool,
    pub created_at: i64,
}

pub open spec fn text_view(text: Option<String>) -> Option<Seq<char>> {
    match text {
        Some(t) => Some(t@),
        None => None,
    }
}

pub open spec fn image_view(image: Option<StoredImage>) -> Option<ImageView> {
    match image {
        Some(i) => Some(i@),
        None => None,
    }
}

impl View for ClipboardEntry {
    type V = EntryView;

    open spec fn view(&self) -> EntryView {
        EntryView {
            id: self.id,
            kind: self.kind,
            text: text_view(self.text),
            image: image_view(self.image),
            content_hash: self.content_hash@,
            pinned: self.pinned,
            created_at: self.created_at,
        }
    }
}

impl Clone for ClipboardEntry {
    fn clone(&self) -> (copy: Self)
        ensures
            copy@ == self@,
    {
        let text = match &self.text {
            Some(t) => Some(t.clone()),
            None => None,
        };
        let image = match &self.image {
            Some(i) => Some(i.clone()),
            None => None,
        };
        ClipboardEntry {
            id: self.id,
            kind: self.kind,
            text,
            image,
            content_hash: self.content_hash.clone(),
            pinned: self.pinned,
            created_at: self.created_at,
        }
    }
}

/// Why a stored row cannot be read as an entry.
#[derive(Debug, Clone, Copy, PartialEq, Eq, Structural)]
pub enum RowError {
    /// The `content_type` column is neither `text` nor `image`.
    UnknownContentType,
}

/// The kind that a `content_type` column names, if any.
pub open spec fn kind_named(content_type: Seq<char>) -> Option<EntryKind> {
    if content_type == "text"@ {
        Some(EntryKind::Text)
    } else if content_type == "image"@ {
        Some(EntryKind::Image)
    } else {
        None
    }
}

/// The image that the three image columns describe: there is one only when all
/// three are present and both sides are positive.
pub open spec fn image_from_columns(
    rgba: Option<Seq<u8>>,
    width: Option<i64>,
    height: Option<i64>,
) -> Option<ImageView> {
    match (rgba, width, height) {
        (Some(rgba), Some(width), Some(height)) => if width > 0 && height > 0 {
            Some(ImageView { rgba, width, height })
        } else {
            None
        },
        _ => None,
    }
}

pub open spec fn bytes_view(bytes: Option<Vec<u8>>) -> Option<Seq<u8>> {
    match bytes {
        Some(b) => Some(b@),
        None => None,
    }
}

impl ClipboardEntry {
    /// Reads an entry from the columns of a stored row: `id`, `content_type`,
    /// `text_content`, `image_blob`, `image_width`, `image_height`,
    /// `content_hash`, `pinned`, `created_at`.
    pub fn from_columns(
        id: i64,
        content_type: &str,
        text: Option<String>,
        image_blob: Option<Vec<u8>>,
        image_width: Option<i64>,
        image_height: Option<i64>,
        content_hash: String,
        pinned: i64,
        created_at: i64,
    ) -> (entry: Result<ClipboardEntry, RowError>)
        ensures
            match entry {
                Ok(e) => {
                    &&& kind_named(content_type@) == Some(e.kind)
                    &&& e@ == (EntryView {
                        id,
                        kind: e.kind,
                        text: text_view(text),
                        image: image_from_columns(
                            bytes_view(image_blob),
                            image_width,
                            image_height,
                        ),
                        content_hash: content_hash@,
                        pinned: pinned != 0,
                        created_at,
                    })
                },
                Err(RowError::UnknownContentType) => kind_named(content_type@) is None,
            },
            entry matches Ok(e) ==> match e.image {
                Some(img) => {
                    &&& image_blob matches Some(b) && img.rgba@ == b@
                    &&& image_width == Some(img.width)
                    &&& image_height == Some(img.height)
                    &&& img.width > 0 && img.height > 0
                },
                None => image_blob is None || image_width is None || image_height is None
                    || image_width->0 <= 0 || image_height->0 <= 0,
            },
    {
        let kind = if crate::text::same_text(content_type, "text") {
            EntryKind::Text
        } else if crate::text::same_text(content_type, "image") {
            EntryKind::Image
        } else {
            return Err(RowError::UnknownContentType);
        };
        let image = match (image_blob, image_width, image_height) {
            (Some(rgba), Some(width), Some(height)) => {
                if width > 0 && height > 0 {
                    Some(StoredImage { rgba, width, height })
                } else {
                    None
                }
            },
            _ => None,
        };
        Ok(
            ClipboardEntry {
                id,
                kind,
                text,
                image,
                content_hash,
                pinned: pinned != 0,
                created_at,
            },
        )
    }
}

/// The image columns are read as they are named: the blob gives the pixels,
/// `image_width` the width and `image_height` the height, and there is an image
/// exactly when all three are there and both sides are positive.
pub proof fn lemma_image_columns_keep_their_meaning(
    rgba: Option<Seq<u8>>,
    width: Option<i64>,
    height: Option<i64>,
)
    ensures
        image_from_columns(rgba, width, height) matches Some(img) ==> {
            &&& rgba == Some(img.rgba)
            &&& width == Some(img.width)
            &&& height == Some(img.height)
            &&& img.width > 0 && img.height > 0
        },
        rgba is Some && width is Some && height is Some && width->0 > 0 && height->0 > 0
            ==> image_from_columns(rgba, width, height) is Some,
{
}

} // verus!
