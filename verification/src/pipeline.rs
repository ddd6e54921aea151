use vstd::prelude::*;
use crate::errors::CbError;
use crate::fingerprint::side_file_name;
use crate::models::{Clip, ContentType, NewClip, view_opt_str};
use crate::store::{ClipRowV, ClipStore};
use crate::text::str_eq;

verus! {

/// Mathematical model of one clipboard snapshot.
pub ghost struct ClipboardContentV {
    pub content_type: ContentType,
    pub text: Option<Seq<char>>,
    pub image_data: Option<Seq<u8>>,
    pub width: Option<int>,
    pub height: Option<int>,
    pub hash: Seq<char>,
    pub size_bytes: int,
}

/// One snapshot of the clipboard as handed to the capture pipeline: the
/// payload (text, or raw image pixels with their dimensions), its
/// fingerprint, and its size in bytes.
#[derive(Debug)]
pub struct ClipboardContent {
    pub content_type: ContentType,
    pub text: Option<String>,
    pub image_data: Option<Vec<u8>>,
    pub width: Option<i32>,
    pub height: Option<i32>,
    pub hash: String,
    pub size_bytes: i64,
}

impl View for ClipboardContent {
    type V = ClipboardContentV;

    open spec fn view(&self) -> ClipboardContentV {
        ClipboardContentV {
            content_type: self.content_type,
            text: view_opt_str(self.text),
            image_data: match self.image_data {
                Some(d) => Some(d@),
                None => None,
            },
            width: match self.width {
                Some(w) => Some(w as int),
                None => None,
            },
            height: match self.height {
                Some(h) => Some(h as int),
                None => None,
            },
            hash: self.hash@,
            size_bytes: self.size_bytes as int,
        }
    }
}

/// Project a clipboard snapshot onto the store's write-side row, attaching
/// the side-file path an image was stored under.
pub fn clipboard_content_to_new_clip(content: ClipboardContent, image_path: Option<String>) -> (r:
    NewClip)
    ensures
        r@.content_type == content@.content_type,
        r@.text_content == content@.text,
        r@.image_path == view_opt_str(image_path),
        r@.image_width == content@.width,
        r@.image_height == content@.height,
        r@.hash == content@.hash,
        r@.size_bytes == content@.size_bytes,
{
    NewClip {
        content_type: content.content_type,
        text_content: content.text,
        image_path,
        image_width: content.width,
        image_height: content.height,
        hash: content.hash,
        size_bytes: content.size_bytes,
    }
}

/// What one pipeline tick did.
#[derive(Debug)]
pub enum PollOutcome {
    /// Nothing readable was on the clipboard this tick.
    NoContent,
    /// The fingerprint equals the last one seen: nothing to do.
    Unchanged,
    /// The store already holds this fingerprint: only the last-seen
    /// fingerprint was refreshed; the existing row is untouched.
    AlreadyStored,
    /// A new clip was inserted.
    Inserted(Clip),
    /// New image content: the caller must first write the encoded image to
    /// the carried side-file path, then hand the snapshot to `record_image`.
    NeedsSideFile(String),
}

/// The last-seen fingerprint equals `h`.
pub open spec fn same_hash(last: Option<Seq<char>>, h: Seq<char>) -> bool {
    last matches Some(x) && x == h
}

/// The row that inserting snapshot `c` under `image_path` at instant `now`
/// appends, when the store's next id is `id`.
pub open spec fn inserted_row(
    c: ClipboardContentV,
    image_path: Option<Seq<char>>,
    id: int,
    now: int,
) -> ClipRowV {
    ClipRowV {
        id: id,
        content_type: c.content_type,
        text_content: c.text,
        image_path: image_path,
        image_width: c.width,
        image_height: c.height,
        hash: c.hash,
        size_bytes: c.size_bytes,
        pinned: false,
        created_at: now,
        updated_at: now,
    }
}

/// One tick of the capture pipeline over an already-read snapshot: the
/// two-tier dedup. No readable content does nothing; a fingerprint equal to
/// the last seen one does nothing (the in-memory fast path); a fingerprint
/// the store knows only refreshes the last-seen state (no new row, no
/// mutation of the existing row); genuinely new text is inserted; genuinely
/// new image content is reported back so the caller can write the side file
/// first. The last-seen fingerprint is updated exactly on the branches that
/// reached the store with new knowledge.
pub fn poll_once(
    store: &mut ClipStore,
    images_dir: &str,
    last_hash: &mut Option<String>,
    content: Option<ClipboardContent>,
    now: i64,
) -> (r: Result<PollOutcome, CbError>)
    requires
        old(store).wf(),
        content matches Some(c) ==> c.size_bytes >= 0 && (c.image_data is Some ==> c.hash@.len()
            >= 16),
    ensures
        final(store).wf(),
        ({
            let lastv = view_opt_str(*old(last_hash));
            let lastv2 = view_opt_str(*final(last_hash));
            match content {
                None => (r matches Ok(PollOutcome::NoContent)) && final(store)@ == old(store)@
                    && lastv2 == lastv,
                Some(c) => if same_hash(lastv, c.hash@) {
                    (r matches Ok(PollOutcome::Unchanged)) && final(store)@ == old(store)@
                        && lastv2 == lastv
                } else if old(store)@.has_hash(c.hash@) {
                    (r matches Ok(PollOutcome::AlreadyStored)) && final(store)@ == old(store)@
                        && lastv2 == Some(c.hash@)
                } else if c.image_data is Some {
                    (r matches Ok(PollOutcome::NeedsSideFile(p)) ==> p@ == images_dir@ + "/"@
                        + c.hash@.subrange(0, 16) + ".png"@) && (r matches Ok(
                        PollOutcome::NeedsSideFile(p),
                    )) && final(store)@ == old(store)@ && lastv2 == lastv
                } else if old(store)@.next_id == i64::MAX {
                    (r is Err) && (r->Err_0 matches CbError::Storage(_)) && final(store)@ == old(
                        store,
                    )@ && lastv2 == lastv
                } else {
                    (r matches Ok(PollOutcome::Inserted(cl)) ==> cl@ == final(store)@.clip_of(
                        final(store)@.rows.last(),
                    ) && cl@.hash == c.hash@ && cl@.id == old(store)@.next_id && cl@.tags.len()
                        == 0) && (r matches Ok(
                        PollOutcome::Inserted(cl),
                    )) && final(store)@.rows == old(store)@.rows.push(
                        inserted_row(c@, None, old(store)@.next_id, now as int),
                    ) && final(store)@.tags == old(store)@.tags && final(store)@.next_id == old(
                        store,
                    )@.next_id + 1 && lastv2 == Some(c.hash@)
                },
            }
        }),
{
    let c = match content {
        Some(c) => c,
        None => {
            return Ok(PollOutcome::NoContent);
        },
    };
    let unchanged = match &*last_hash {
        Some(h) => str_eq(h.as_str(), c.hash.as_str()),
        None => false,
    };
    if unchanged {
        return Ok(PollOutcome::Unchanged);
    }
    let found = match store.find_by_hash(c.hash.as_str()) {
        Ok(f) => f,
        Err(e) => {
            return Err(e);
        },
    };
    if found.is_some() {
        *last_hash = Some(c.hash.clone());
        return Ok(PollOutcome::AlreadyStored);
    }
    if c.image_data.is_some() {
        let name = side_file_name(c.hash.as_str());
        let mut path = images_dir.to_owned();
        path.append("/");
        path.append(name.as_str());
        return Ok(PollOutcome::NeedsSideFile(path));
    }
    let h = c.hash.clone();
    let new_clip = clipboard_content_to_new_clip(c, None);
    match store.insert(new_clip, now) {
        Ok(cl) => {
            *last_hash = Some(h);
            Ok(PollOutcome::Inserted(cl))
        },
        Err(e) => Err(e),
    }
}

/// Persist new image content once its side file has been written: build the
/// row from the snapshot and the side-file path, insert it, and remember the
/// fingerprint. Fails (leaving everything unchanged) exactly when the
/// fingerprint is already stored or the id space is exhausted.
pub fn record_image(
    store: &mut ClipStore,
    last_hash: &mut Option<String>,
    content: ClipboardContent,
    image_path: String,
    now: i64,
) -> (r: Result<Clip, CbError>)
    requires
        old(store).wf(),
        content.size_bytes >= 0,
    ensures
        final(store).wf(),
        r is Err <==> (old(store)@.has_hash(content.hash@) || old(store)@.next_id == i64::MAX),
        r is Err ==> final(store)@ == old(store)@ && view_opt_str(*final(last_hash))
            == view_opt_str(*old(last_hash)) && (r->Err_0 matches CbError::Storage(_)),
        r is Ok ==> final(store)@.rows == old(store)@.rows.push(
            inserted_row(content@, Some(image_path@), old(store)@.next_id, now as int),
        ) && final(store)@.tags == old(store)@.tags && final(store)@.next_id == old(store)@.next_id
            + 1 && view_opt_str(*final(last_hash)) == Some(content.hash@),
        r matches Ok(cl) ==> cl@ == final(store)@.clip_of(final(store)@.rows.last()) && cl@.hash
            == content.hash@ && cl@.id == old(store)@.next_id && cl@.tags.len() == 0,
{
    let h = content.hash.clone();
    let new_clip = clipboard_content_to_new_clip(content, Some(image_path));
    match store.insert(new_clip, now) {
        Ok(cl) => {
            *last_hash = Some(h);
            Ok(cl)
        },
        Err(e) => Err(e),
    }
}

} // verus!
