use crate::domain::ClipboardEntry;
use crate::domain::EntryView;
use crate::hashing::{
    content_hash, hex_lower, image_hash_bytes, image_hash_input, le_bytes, sha256, spec_content_hash,
};
use crate::history::model::{
    after_insert, evicted_by_insert, has_hash, history_ok, image_entry, most_recent,
    pinned_only, text_entry, views, with_pin_toggled, without_id, has_id, ids_of, unpinned_only,
};
use crate::history::{ClipboardHistory, HistoryError, Inserted};
use crate::text::{trim, trimmed};
use vstd::prelude::*;
use vstd::utf8::encode_utf8;

verus! {

/// Why recording did not happen.
#[derive(Debug, Clone, Copy, PartialEq, Eq, Structural)]
pub enum ServiceError {
    /// The history refused the operation.
    History(HistoryError),
    /// Width × height × 4 does not fit in a `usize`.
    ImageTooLarge,
    /// The pixel buffer is not width × height × 4 bytes long.
    ImageSizeMismatch,
}

impl ServiceError {
    /// A sentence that says what went wrong.
    pub fn message(&self) -> (text: &'static str)
        ensures
            text == match *self {
                ServiceError::History(HistoryError::IdsExhausted) => "no clipboard entry id is left",
                ServiceError::History(HistoryError::LimitTooLarge) => "limit is too large for SQLite",
                ServiceError::History(HistoryError::DuplicateId) => "two clipboard entries share an id",
                ServiceError::ImageTooLarge => "clipboard image dimensions are too large",
                ServiceError::ImageSizeMismatch => "clipboard image dimensions do not match its pixels",
            },
    {
        match self {
            ServiceError::History(HistoryError::IdsExhausted) => "no clipboard entry id is left",
            ServiceError::History(HistoryError::LimitTooLarge) => "limit is too large for SQLite",
            ServiceError::History(HistoryError::DuplicateId) => "two clipboard entries share an id",
            ServiceError::ImageTooLarge => "clipboard image dimensions are too large",
            ServiceError::ImageSizeMismatch => "clipboard image dimensions do not match its pixels",
        }
    }
}

/// The content hash of a text: that of its UTF-8 bytes.
pub open spec fn text_hash(text: Seq<char>) -> Seq<char> {
    spec_content_hash(encode_utf8(text))
}

/// The content hash of an image: that of its width and height in little-endian
/// bytes followed by its pixels.
pub open spec fn image_hash(rgba: Seq<u8>, width: u32, height: u32) -> Seq<char> {
    spec_content_hash(image_hash_input(rgba, width, height))
}

/// Records what is copied into the clipboard history.
pub struct ClipboardService {
    history: ClipboardHistory,
}

impl View for ClipboardService {
    type V = Seq<EntryView>;

    closed spec fn view(&self) -> Seq<EntryView> {
        self.history@
    }
}

impl ClipboardService {
    /// The last id handed out.
    pub closed spec fn last_id(&self) -> i64 {
        self.history.last_id()
    }

    pub open spec fn wf(&self) -> bool {
        history_ok(self@, self.last_id())
    }

    /// A service over `history`.
    pub fn new(history: ClipboardHistory) -> (service: Self)
        requires
            history.wf(),
        ensures
            service.wf(),
            service@ == history@,
            service.last_id() == history.last_id(),
    {
        ClipboardService { history }
    }

    /// The history the service keeps.
    pub fn history(&self) -> (history: &ClipboardHistory)
        ensures
            history@ == self@,
            history.last_id() == self.last_id(),
    {
        &self.history
    }

    /// Records a copied text. Surrounding white space is dropped; a text that
    /// is empty then, or whose content hash is already in the history, is not
    /// recorded again.
    pub fn record_text(&mut self, text: &str, now: i64) -> (recorded: Result<
        Option<Inserted>,
        ServiceError,
    >)
        requires
            old(self).wf(),
        ensures
            final(self).wf(),
            ({
                let t = trimmed(text@);
                let h = spec_content_hash(encode_utf8(t));
                let fresh = t.len() > 0 && !has_hash(old(self)@, h);
                match recorded {
                    Ok(None) => {
                        &&& !fresh
                        &&& final(self)@ == old(self)@
                        &&& final(self).last_id() == old(self).last_id()
                    },
                    Ok(Some(ins)) => {
                        &&& fresh
                        &&& ins.id == old(self).last_id() + 1
                        &&& final(self).last_id() == ins.id
                        &&& final(self)@ == after_insert(
                            old(self)@,
                            text_entry(ins.id, t, h, now),
                        )
                        &&& ins.evicted@ == evicted_by_insert(
                            old(self)@,
                            text_entry(ins.id, t, h, now),
                        )
                    },
                    Err(e) => {
                        &&& fresh
                        &&& e == ServiceError::History(HistoryError::IdsExhausted)
                        &&& old(self).last_id() == i64::MAX
                        &&& final(self)@ == old(self)@
                        &&& final(self).last_id() == old(self).last_id()
                    },
                }
            }),
    {
        let text = trim(text);
        if text.is_empty() {
            return Ok(None);
        }
        let hash = content_hash(text.as_bytes());
        if self.history.contains_hash(hash.as_str()) {
            return Ok(None);
        }
        match self.history.insert_text(text, hash.as_str(), now) {
            Ok(inserted) => Ok(Some(inserted)),
            Err(e) => Err(ServiceError::History(e)),
        }
    }

    /// The `limit` most recent entries, newest first.
    pub fn recent_entries(&self, limit: usize) -> (recent: Result<Vec<ClipboardEntry>, ServiceError>)
        ensures
            match recent {
                Ok(entries) => limit <= i64::MAX && views(entries@) == most_recent(self@, limit as nat),
                Err(e) => limit > i64::MAX && e == ServiceError::History(HistoryError::LimitTooLarge),
            },
    {
        match self.history.list_recent(limit) {
            Ok(entries) => Ok(entries),
            Err(e) => Err(ServiceError::History(e)),
        }
    }

    /// Records a copied image of `width` × `height` RGBA pixels. An image whose
    /// content hash is already in the history is not recorded again; otherwise
    /// the pixels must be exactly width × height × 4 bytes.
    pub fn record_rgba_image(&mut self, rgba: Vec<u8>, width: u32, height: u32, now: i64) -> (recorded: Result<
        Option<Inserted>,
        ServiceError,
    >)
        requires
            old(self).wf(),
        ensures
            final(self).wf(),
            ({
                let hash = spec_content_hash(le_bytes(width) + le_bytes(height) + rgba@);
                let known = has_hash(old(self)@, hash);
                let expected = width as int * height as int * 4;
                let entry = |id: i64| image_entry(id, rgba@, width as i64, height as i64, hash, now);
                match recorded {
                    Ok(None) => {
                        &&& known
                        &&& final(self)@ == old(self)@
                        &&& final(self).last_id() == old(self).last_id()
                    },
                    Ok(Some(ins)) => {
                        &&& !known
                        &&& expected <= usize::MAX
                        &&& rgba@.len() == expected
                        &&& ins.id == old(self).last_id() + 1
                        &&& final(self).last_id() == ins.id
                        &&& final(self)@ == after_insert(old(self)@, entry(ins.id))
                        &&& ins.evicted@ == evicted_by_insert(old(self)@, entry(ins.id))
                    },
                    Err(e) => {
                        &&& !known
                        &&& final(self)@ == old(self)@
                        &&& final(self).last_id() == old(self).last_id()
                        &&& match e {
                            ServiceError::ImageTooLarge => expected > usize::MAX,
                            ServiceError::ImageSizeMismatch => expected <= usize::MAX
                                && rgba@.len() != expected,
                            ServiceError::History(h) => expected <= usize::MAX
                                && rgba@.len() == expected && h == HistoryError::IdsExhausted
                                && old(self).last_id() == i64::MAX,
                        }
                    },
                }
            }),
    {
        let input = image_hash_bytes(rgba.as_slice(), width, height);
        let hash = content_hash(input.as_slice());
        if self.history.contains_hash(hash.as_str()) {
            return Ok(None);
        }
        let pixels = match (width as usize).checked_mul(height as usize) {
            Some(p) => p,
            None => {
                assert(width as int * height as int * 4 > usize::MAX) by (nonlinear_arith)
                    requires width as int * height as int > usize::MAX;
                return Err(ServiceError::ImageTooLarge);
            },
        };
        let expected = match pixels.checked_mul(4) {
            Some(n) => n,
            None => {
                return Err(ServiceError::ImageTooLarge);
            },
        };
        if rgba.len() != expected {
            return Err(ServiceError::ImageSizeMismatch);
        }
        match self.history.insert_image(rgba.as_slice(), width as i64, height as i64, hash.as_str(), now) {
            Ok(inserted) => Ok(Some(inserted)),
            Err(e) => Err(ServiceError::History(e)),
        }
    }

    /// Removes the entry with id `id`, if there is one; says whether there was.
    pub fn delete_entry(&mut self, id: i64) -> (found: bool)
        requires
            old(self).wf(),
        ensures
            final(self).wf(),
            final(self).last_id() == old(self).last_id(),
            final(self)@ == without_id(old(self)@, id),
            found == has_id(old(self)@, id),
    {
        self.history.delete_entry(id)
    }

    /// Flips the pin of the entry with id `id`, if there is one; returns
    /// whether it is pinned now.
    pub fn toggle_pinned(&mut self, id: i64) -> (pinned: Option<bool>)
        requires
            old(self).wf(),
        ensures
            final(self).wf(),
            final(self).last_id() == old(self).last_id(),
            final(self)@ == with_pin_toggled(old(self)@, id),
            match pinned {
                Some(p) => {
                    &&& has_id(old(self)@, id)
                    &&& forall|k: int| 0 <= k < old(self)@.len() && #[trigger] old(self)@[k].id == id
                        ==> p == !old(self)@[k].pinned
                },
                None => !has_id(old(self)@, id),
            },
    {
        self.history.toggle_pinned(id)
    }

    /// Removes every entry that is not pinned; returns their ids.
    pub fn clear_unpinned(&mut self) -> (removed: Vec<i64>)
        requires
            old(self).wf(),
        ensures
            final(self).wf(),
            final(self).last_id() == old(self).last_id(),
            final(self)@ == pinned_only(old(self)@),
            removed@ == ids_of(unpinned_only(old(self)@)),
    {
        self.history.clear_unpinned()
    }
}

/// Once a text is recorded at a time no earlier than any entry's, its content
/// hash is in the history, so recording the same text again changes nothing.
pub proof fn lemma_recorded_text_is_known(
    s: Seq<EntryView>,
    last_id: i64,
    id: i64,
    text: Seq<char>,
    now: i64,
)
    requires
        history_ok(s, last_id),
        last_id < id,
        forall|k: int| 0 <= k < s.len() ==> #[trigger] s[k].created_at <= now,
    ensures
        has_hash(after_insert(s, text_entry(id, text, text_hash(text), now)), text_hash(text)),
{
    let e = text_entry(id, text, text_hash(text), now);
    crate::history::laws::lemma_latest_insert_comes_first(s, e, last_id);
    assert(after_insert(s, e)[0].content_hash == text_hash(text));
}

/// Once an image is recorded at a time no earlier than any entry's, its content
/// hash is in the history, so recording the same image again changes nothing.
pub proof fn lemma_recorded_image_is_known(
    s: Seq<EntryView>,
    last_id: i64,
    id: i64,
    rgba: Seq<u8>,
    width: u32,
    height: u32,
    now: i64,
)
    requires
        history_ok(s, last_id),
        last_id < id,
        forall|k: int| 0 <= k < s.len() ==> #[trigger] s[k].created_at <= now,
    ensures
        has_hash(
            after_insert(s, image_entry(id, rgba, width as i64, height as i64, image_hash(rgba, width, height), now)),
            image_hash(rgba, width, height),
        ),
{
    let e = image_entry(id, rgba, width as i64, height as i64, image_hash(rgba, width, height), now);
    crate::history::laws::lemma_latest_insert_comes_first(s, e, last_id);
    assert(after_insert(s, e)[0].content_hash == image_hash(rgba, width, height));
}

/// The content hash of a text is the hex SHA-256 digest of exactly its UTF-8
/// bytes, nothing else: two texts get one hash only when the digests of their
/// bytes are equal.
pub proof fn lemma_text_hash_is_digest_of_bytes(a: Seq<char>, b: Seq<char>)
    ensures
        text_hash(a) == hex_lower(sha256(encode_utf8(a))),
        text_hash(a) == text_hash(b) ==> sha256(encode_utf8(a)) == sha256(encode_utf8(b)),
{
    if text_hash(a) == text_hash(b) {
        crate::hashing::lemma_hex_lower_injective(sha256(encode_utf8(a)), sha256(encode_utf8(b)));
    }
}

/// The content hash of an image is the hex SHA-256 digest of its width and
/// height in little-endian bytes followed by its pixels: two images get one
/// hash only when the digests of those bytes are equal.
pub proof fn lemma_image_hash_is_digest_of_bytes(
    a: Seq<u8>,
    aw: u32,
    ah: u32,
    b: Seq<u8>,
    bw: u32,
    bh: u32,
)
    ensures
        image_hash(a, aw, ah) == hex_lower(sha256(le_bytes(aw) + le_bytes(ah) + a)),
        image_hash(a, aw, ah) == image_hash(b, bw, bh) ==> sha256(le_bytes(aw) + le_bytes(ah) + a)
            == sha256(le_bytes(bw) + le_bytes(bh) + b),
{
    if image_hash(a, aw, ah) == image_hash(b, bw, bh) {
        crate::hashing::lemma_hex_lower_injective(
            sha256(image_hash_input(a, aw, ah)),
            sha256(image_hash_input(b, bw, bh)),
        );
    }
}

} // verus!
