use vstd::prelude::*;
use crate::text::str_eq;

verus! {

/// Closed set of content kinds a clip can hold. Serialized as the lowercase
/// tokens `"text"`, `"image"` and `"fileref"`; unknown tokens are rejected by
/// `parse` and readers fall back to `Text` (lenient decode).
#[derive(Debug, Clone, Copy, PartialEq, Eq, Structural)]
pub enum ContentType {
    Text,
    Image,
    FileRef,
}

impl ContentType {
    /// The lowercase token this kind serializes to.
    pub open spec fn token(self) -> Seq<char> {
        match self {
            ContentType::Text => "text"@,
            ContentType::Image => "image"@,
            ContentType::FileRef => "fileref"@,
        }
    }

    pub fn as_str(&self) -> (r: &'static str)
        ensures
            r@ == self.token(),
    {
        match self {
            ContentType::Text => "text",
            ContentType::Image => "image",
            ContentType::FileRef => "fileref",
        }
    }

    pub open spec fn spec_parse(s: Seq<char>) -> Option<ContentType> {
        if s == "text"@ {
            Some(ContentType::Text)
        } else if s == "image"@ {
            Some(ContentType::Image)
        } else if s == "fileref"@ {
            Some(ContentType::FileRef)
        } else {
            None
        }
    }

    /// Inverse of `as_str`: recognizes exactly the three lowercase tokens.
    pub fn parse(s: &str) -> (r: Option<ContentType>)
        ensures
            r == Self::spec_parse(s@),
    {
        if str_eq(s, "text") {
            Some(ContentType::Text)
        } else if str_eq(s, "image") {
            Some(ContentType::Image)
        } else if str_eq(s, "fileref") {
            Some(ContentType::FileRef)
        } else {
            None
        }
    }

    /// Lenient decode for reads from storage: an unknown token falls back
    /// to `Text` rather than being dropped.
    pub fn parse_lenient(s: &str) -> (r: ContentType)
        ensures
            r == (match Self::spec_parse(s@) {
                Some(ct) => ct,
                None => ContentType::Text,
            }),
    {
        match Self::parse(s) {
            Some(ct) => ct,
            None => ContentType::Text,
        }
    }
}

/// The model of an optional string: the character sequence, if present.
pub open spec fn view_opt_str(o: Option<String>) -> Option<Seq<char>> {
    match o {
        Some(s) => Some(s@),
        None => None,
    }
}

/// The model of an optional machine integer.
pub open spec fn view_opt_i32(o: Option<i32>) -> Option<int> {
    match o {
        Some(v) => Some(v as int),
        None => None,
    }
}

/// The model of an optional machine integer.
pub open spec fn view_opt_i64(o: Option<i64>) -> Option<int> {
    match o {
        Some(v) => Some(v as int),
        None => None,
    }
}

/// Mathematical model of a persisted clip: strings as character sequences,
/// timestamps as instants on an integer timeline (milliseconds).
pub ghost struct ClipV {
    pub id: int,
    pub content_type: ContentType,
    pub text_content: Option<Seq<char>>,
    pub image_path: Option<Seq<char>>,
    pub image_width: Option<int>,
    pub image_height: Option<int>,
    pub hash: Seq<char>,
    pub size_bytes: int,
    pub pinned: bool,
    pub created_at: int,
    pub updated_at: int,
    pub tags: Seq<Seq<char>>,
}

/// A persisted history entry. `text_content` is present for `Text` (the raw
/// text) and `FileRef` (the path string); the image fields are present only
/// for `Image`. Timestamps are timeline instants in milliseconds.
#[derive(Debug)]
pub struct Clip {
    pub id: i64,
    pub content_type: ContentType,
    pub text_content: Option<String>,
    pub image_path: Option<String>,
    pub image_width: Option<i32>,
    pub image_height: Option<i32>,
    pub hash: String,
    pub size_bytes: i64,
    pub pinned: bool,
    pub created_at: i64,
    pub updated_at: i64,
    pub tags: Vec<String>,
}

impl View for Clip {
    type V = ClipV;

    open spec fn view(&self) -> ClipV {
        ClipV {
            id: self.id as int,
            content_type: self.content_type,
            text_content: view_opt_str(self.text_content),
            image_path: view_opt_str(self.image_path),
            image_width: view_opt_i32(self.image_width),
            image_height: view_opt_i32(self.image_height),
            hash: self.hash@,
            size_bytes: self.size_bytes as int,
            pinned: self.pinned,
            created_at: self.created_at as int,
            updated_at: self.updated_at as int,
            tags: self.tags@.map_values(|t: String| t@),
        }
    }
}

impl Clone for Clip {
    fn clone(&self) -> (r: Self)
        ensures
            r@ == self@,
    {
        let mut tags: Vec<String> = Vec::new();
        let mut i: usize = 0;
        while i < self.tags.len()
            invariant
                i <= self.tags.len(),
                tags@.len() == i,
                forall|j: int| 0 <= j < i ==> tags@[j]@ == self.tags@[j]@,
            decreases self.tags.len() - i,
        {
            tags.push(self.tags[i].clone());
            i = i + 1;
        }
        proof {
            assert(tags@.map_values(|t: String| t@) =~= self.tags@.map_values(|t: String| t@));
        }
        let r = Clip {
            id: self.id,
            content_type: self.content_type,
            text_content: match &self.text_content {
                Some(s) => Some(s.clone()),
                None => None,
            },
            image_path: match &self.image_path {
                Some(s) => Some(s.clone()),
                None => None,
            },
            image_width: self.image_width,
            image_height: self.image_height,
            hash: self.hash.clone(),
            size_bytes: self.size_bytes,
            pinned: self.pinned,
            created_at: self.created_at,
            updated_at: self.updated_at,
            tags,
        };
        r
    }
}

/// Mathematical model of the write-side projection of a clip.
pub ghost struct NewClipV {
    pub content_type: ContentType,
    pub text_content: Option<Seq<char>>,
    pub image_path: Option<Seq<char>>,
    pub image_width: Option<int>,
    pub image_height: Option<int>,
    pub hash: Seq<char>,
    pub size_bytes: int,
}

/// The write-side projection of `Clip`: no id, pin flag, timestamps or tags.
/// The store assigns those at insert time (pin defaults to false, timestamps
/// to the caller-supplied "now", tags start empty).
#[derive(Debug)]
pub struct NewClip {
    pub content_type: ContentType,
    pub text_content: Option<String>,
    pub image_path: Option<String>,
    pub image_width: Option<i32>,
    pub image_height: Option<i32>,
    pub hash: String,
    pub size_bytes: i64,
}

impl View for NewClip {
    type V = NewClipV;

    open spec fn view(&self) -> NewClipV {
        NewClipV {
            content_type: self.content_type,
            text_content: view_opt_str(self.text_content),
            image_path: view_opt_str(self.image_path),
            image_width: view_opt_i32(self.image_width),
            image_height: view_opt_i32(self.image_height),
            hash: self.hash@,
            size_bytes: self.size_bytes as int,
        }
    }
}

/// Aggregate projection over the whole store; `oldest`/`newest` are absent
/// exactly when the store is empty.
#[derive(Debug, Clone, Copy)]
pub struct StorageStats {
    pub total_clips: i64,
    pub text_clips: i64,
    pub image_clips: i64,
    pub fileref_clips: i64,
    pub total_size: i64,
    pub oldest: Option<i64>,
    pub newest: Option<i64>,
}

/// Mathematical model of a query specification.
pub ghost struct ClipFilterV {
    pub content_type: Option<ContentType>,
    pub pinned: Option<bool>,
    pub tag: Option<Seq<char>>,
    pub limit: int,
    pub offset: int,
}

/// Query specification for listing: each optional field, when present,
/// contributes one conjunctive constraint; a limit at most zero normalizes
/// to the default of 50.
#[derive(Debug)]
pub struct ClipFilter {
    pub content_type: Option<ContentType>,
    pub pinned: Option<bool>,
    pub tag: Option<String>,
    pub limit: i64,
    pub offset: i64,
}

impl View for ClipFilter {
    type V = ClipFilterV;

    open spec fn view(&self) -> ClipFilterV {
        ClipFilterV {
            content_type: self.content_type,
            pinned: self.pinned,
            tag: match self.tag {
                Some(t) => Some(t@),
                None => None,
            },
            limit: self.limit as int,
            offset: self.offset as int,
        }
    }
}

impl ClipFilterV {
    /// A non-positive limit falls back to the default page size of 50.
    pub open spec fn spec_effective_limit(self) -> int {
        if self.limit <= 0 {
            50
        } else {
            self.limit
        }
    }
}

impl Default for ClipFilter {
    /// The empty filter: no constraints, default limit, no offset.
    fn default() -> (r: Self)
        ensures
            r.content_type is None,
            r.pinned is None,
            r.tag is None,
            r.limit == 0,
            r.offset == 0,
    {
        ClipFilter { content_type: None, pinned: None, tag: None, limit: 0, offset: 0 }
    }
}

impl ClipFilter {
    pub fn effective_limit(&self) -> (r: i64)
        ensures
            r as int == self@.spec_effective_limit(),
    {
        if self.limit <= 0 {
            50
        } else {
            self.limit
        }
    }
}

} // verus!
