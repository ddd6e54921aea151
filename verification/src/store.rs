use vstd::prelude::*;
use crate::errors::CbError;
use crate::models::{
    Clip, ClipFilter, ClipFilterV, ClipV, ContentType, NewClip, StorageStats, view_opt_i32,
    view_opt_i64, view_opt_str,
};
use crate::text::{contains_chars, contains_seq, lower, lower_chars, str_eq};

verus! {

/// Mathematical model of one stored clip row (no tag associations).
pub ghost struct ClipRowV {
    pub id: int,
    pub content_type: ContentType,
    pub text_content: Option<Seq<char>>,
    pub image_path: Option<Seq<char>>,
    pub image_width: Option<int>,
    pub image_height: Option<int>,
    pub hash: Seq<char>,
    pub size_bytes: int,
    pub pinned: bool,
    pub created_at: int,
    pub updated_at: int,
}

/// Mathematical model of one tag association: a (clip id, tag) pair.
pub ghost struct TagRowV {
    pub clip_id: int,
    pub tag: Seq<char>,
}

/// Mathematical model of the whole store: the clip relation in insertion
/// order, the tag-association relation, and the next id to assign.
pub ghost struct StoreV {
    pub rows: Seq<ClipRowV>,
    pub tags: Seq<TagRowV>,
    pub next_id: int,
}

struct ClipRow {
    id: i64,
    content_type: ContentType,
    text_content: Option<String>,
    image_path: Option<String>,
    image_width: Option<i32>,
    image_height: Option<i32>,
    hash: String,
    size_bytes: i64,
    pinned: bool,
    created_at: i64,
    updated_at: i64,
}

impl View for ClipRow {
    type V = ClipRowV;

    closed spec fn view(&self) -> ClipRowV {
        ClipRowV {
            id: self.id as int,
            content_type: self.content_type,
            text_content: view_opt_str(self.text_content),
            image_path: view_opt_str(self.image_path),
            image_width: view_opt_i32(self.image_width),
            image_height: view_opt_i32(self.image_height),
            hash: self.hash@,
            size_bytes: self.size_bytes as int,
            pinned: self.pinned,
            created_at: self.created_at as int,
            updated_at: self.updated_at as int,
        }
    }
}

struct TagRow {
    clip_id: i64,
    tag: String,
}

impl View for TagRow {
    type V = TagRowV;

    closed spec fn view(&self) -> TagRowV {
        TagRowV { clip_id: self.clip_id as int, tag: self.tag@ }
    }
}

impl StoreV {
    /// Some row carries this id.
    pub open spec fn has_id(self, id: int) -> bool {
        exists|k: int| 0 <= k < self.rows.len() && (#[trigger] self.rows[k]).id == id
    }

    /// Some row carries this content fingerprint.
    pub open spec fn has_hash(self, h: Seq<char>) -> bool {
        exists|k: int| 0 <= k < self.rows.len() && (#[trigger] self.rows[k]).hash == h
    }

    /// The association (id, t) is present.
    pub open spec fn has_tag(self, id: int, t: Seq<char>) -> bool {
        exists|k: int|
            0 <= k < self.tags.len() && (#[trigger] self.tags[k]).clip_id == id
                && self.tags[k].tag == t
    }

    /// The tags of clip `id` among the first `n` association rows, in
    /// association order.
    pub open spec fn tags_upto(self, id: int, n: int) -> Seq<Seq<char>>
        decreases n,
    {
        if n <= 0 {
            Seq::empty()
        } else if self.tags[n - 1].clip_id == id {
            self.tags_upto(id, n - 1).push(self.tags[n - 1].tag)
        } else {
            self.tags_upto(id, n - 1)
        }
    }

    /// All tags of clip `id`, in association order.
    pub open spec fn tags_of(self, id: int) -> Seq<Seq<char>> {
        self.tags_upto(id, self.tags.len() as int)
    }

    /// The fully materialized clip for a row: the row together with all of
    /// its tags (independent of any filter).
    pub open spec fn clip_of(self, r: ClipRowV) -> ClipV {
        ClipV {
            id: r.id,
            content_type: r.content_type,
            text_content: r.text_content,
            image_path: r.image_path,
            image_width: r.image_width,
            image_height: r.image_height,
            hash: r.hash,
            size_bytes: r.size_bytes,
            pinned: r.pinned,
            created_at: r.created_at,
            updated_at: r.updated_at,
            tags: self.tags_of(r.id),
        }
    }

    /// A row satisfies the filter: every supplied field constrains the row,
    /// conjunctively; absent fields impose no constraint. The tag constraint
    /// is membership in the tag relation, independent of the tag aggregation
    /// done when rows are materialized.
    pub open spec fn row_matches(self, r: ClipRowV, f: ClipFilterV) -> bool {
        &&& (f.content_type matches Some(ct) ==> r.content_type == ct)
        &&& (f.pinned matches Some(p) ==> r.pinned == p)
        &&& (f.tag matches Some(t) ==> self.has_tag(r.id, t))
    }

    /// The rows among the first `n` that satisfy the filter, in insertion
    /// (ascending id) order.
    pub open spec fn matching_upto(self, f: ClipFilterV, n: int) -> Seq<ClipRowV>
        decreases n,
    {
        if n <= 0 {
            Seq::empty()
        } else if self.row_matches(self.rows[n - 1], f) {
            self.matching_upto(f, n - 1).push(self.rows[n - 1])
        } else {
            self.matching_upto(f, n - 1)
        }
    }

    /// All rows satisfying the filter, in insertion order.
    pub open spec fn matching_rows(self, f: ClipFilterV) -> Seq<ClipRowV> {
        self.matching_upto(f, self.rows.len() as int)
    }

    /// Materialization of a whole row sequence, each row with all its tags.
    pub open spec fn clips_of(self, rows: Seq<ClipRowV>) -> Seq<ClipV> {
        rows.map_values(|r: ClipRowV| self.clip_of(r))
    }

    /// The rows found at a sequence of indices.
    pub open spec fn rows_at(self, idxs: Seq<usize>) -> Seq<ClipRowV> {
        idxs.map_values(|ix: usize| self.rows[ix as int])
    }

    /// What `list` returns: the matching rows ordered most-recent-id-first,
    /// from `offset` on (a negative offset skips nothing), capped at the
    /// effective limit, each row materialized with all of its tags.
    pub open spec fn spec_list(self, f: ClipFilterV) -> Seq<ClipV> {
        let desc = self.matching_rows(f).reverse();
        let off = if f.offset < 0 {
            0
        } else {
            f.offset
        };
        let lim = f.spec_effective_limit();
        let start = if off <= desc.len() {
            off
        } else {
            desc.len() as int
        };
        let end = if off + lim <= desc.len() {
            off + lim
        } else {
            desc.len() as int
        };
        self.clips_of(desc.subrange(start, end))
    }

    /// The rows among the first `n` whose text matches the query, in
    /// insertion order.
    pub open spec fn search_upto(self, q: Seq<char>, n: int) -> Seq<ClipRowV>
        decreases n,
    {
        if n <= 0 {
            Seq::empty()
        } else if search_hit(self.rows[n - 1], q) {
            self.search_upto(q, n - 1).push(self.rows[n - 1])
        } else {
            self.search_upto(q, n - 1)
        }
    }

    /// All rows whose text matches the query, in insertion order.
    pub open spec fn search_rows(self, q: Seq<char>) -> Seq<ClipRowV> {
        self.search_upto(q, self.rows.len() as int)
    }

    /// What `search` returns: the matching rows ordered most-recent-id-first,
    /// capped at `limit` (a negative limit caps nothing), materialized.
    pub open spec fn spec_search(self, q: Seq<char>, limit: int) -> Seq<ClipV> {
        let desc = self.search_rows(q).reverse();
        let end = if limit < 0 || limit > desc.len() {
            desc.len() as int
        } else {
            limit
        };
        self.clips_of(desc.subrange(0, end))
    }

    /// Well-formedness of the store:
    /// ids are positive, strictly increasing with insertion order and below
    /// `next_id` (so ids are unique and never reused); hashes are unique;
    /// sizes are byte counts; tag pairs are unique and reference a live row.
    pub open spec fn wf(self) -> bool {
        &&& 1 <= self.next_id <= i64::MAX
        &&& forall|i: int|
            0 <= i < self.rows.len() ==> 1 <= (#[trigger] self.rows[i]).id < self.next_id
        &&& forall|i: int, j: int|
            0 <= i < j < self.rows.len() ==> (#[trigger] self.rows[i]).id < (
            #[trigger] self.rows[j]).id
        &&& forall|i: int, j: int|
            0 <= i < j < self.rows.len() ==> (#[trigger] self.rows[i]).hash != (
            #[trigger] self.rows[j]).hash
        &&& forall|i: int| 0 <= i < self.rows.len() ==> (#[trigger] self.rows[i]).size_bytes >= 0
        &&& forall|i: int, j: int|
            0 <= i < j < self.tags.len() ==> !((#[trigger] self.tags[i]).clip_id == (
            #[trigger] self.tags[j]).clip_id && self.tags[i].tag == self.tags[j].tag)
        &&& forall|i: int| 0 <= i < self.tags.len() ==> self.has_id((#[trigger] self.tags[i]).clip_id)
    }
}

/// The views of a materialized clip vector.
pub open spec fn views_of_clips(cs: Seq<Clip>) -> Seq<ClipV> {
    cs.map_values(|c: Clip| c@)
}

/// A row is a search hit: it has text content (pure image entries never
/// match) and the case-folded query occurs in the case-folded text.
pub open spec fn search_hit(r: ClipRowV, q: Seq<char>) -> bool {
    r.text_content matches Some(t) && contains_seq(lower(t), lower(q))
}

/// Some row of the sequence carries this id.
pub open spec fn seq_has_id(rows: Seq<ClipRowV>, id: int) -> bool {
    exists|k: int| 0 <= k < rows.len() && (#[trigger] rows[k]).id == id
}

/// The first `n` tag rows with every occurrence of the pair (`id`, `t`)
/// removed.
pub open spec fn tags_without_pair_upto(tags: Seq<TagRowV>, id: int, t: Seq<char>, n: int) -> Seq<
    TagRowV,
>
    decreases n,
{
    if n <= 0 {
        Seq::empty()
    } else if tags[n - 1].clip_id == id && tags[n - 1].tag == t {
        tags_without_pair_upto(tags, id, t, n - 1)
    } else {
        tags_without_pair_upto(tags, id, t, n - 1).push(tags[n - 1])
    }
}

/// The tag relation with every occurrence of the pair (`id`, `t`) removed.
pub open spec fn tags_without_pair(tags: Seq<TagRowV>, id: int, t: Seq<char>) -> Seq<TagRowV> {
    tags_without_pair_upto(tags, id, t, tags.len() as int)
}

/// The first `n` tag rows with every association of clip `id` removed.
pub open spec fn tags_without_id_upto(tags: Seq<TagRowV>, id: int, n: int) -> Seq<TagRowV>
    decreases n,
{
    if n <= 0 {
        Seq::empty()
    } else if tags[n - 1].clip_id == id {
        tags_without_id_upto(tags, id, n - 1)
    } else {
        tags_without_id_upto(tags, id, n - 1).push(tags[n - 1])
    }
}

/// The tag relation with every association of clip `id` removed.
pub open spec fn tags_without_id(tags: Seq<TagRowV>, id: int) -> Seq<TagRowV> {
    tags_without_id_upto(tags, id, tags.len() as int)
}

/// The first `n` clip rows with the row carrying `id` removed.
pub open spec fn rows_without_id_upto(rows: Seq<ClipRowV>, id: int, n: int) -> Seq<ClipRowV>
    decreases n,
{
    if n <= 0 {
        Seq::empty()
    } else if rows[n - 1].id == id {
        rows_without_id_upto(rows, id, n - 1)
    } else {
        rows_without_id_upto(rows, id, n - 1).push(rows[n - 1])
    }
}

/// The clip relation with the row carrying `id` removed.
pub open spec fn rows_without_id(rows: Seq<ClipRowV>, id: int) -> Seq<ClipRowV> {
    rows_without_id_upto(rows, id, rows.len() as int)
}

/// How many of the first `n` rows have the given content kind.
pub open spec fn count_type_upto(rows: Seq<ClipRowV>, ct: ContentType, n: int) -> int
    decreases n,
{
    if n <= 0 {
        0
    } else if rows[n - 1].content_type == ct {
        count_type_upto(rows, ct, n - 1) + 1
    } else {
        count_type_upto(rows, ct, n - 1)
    }
}

/// How many rows have the given content kind.
pub open spec fn count_type(rows: Seq<ClipRowV>, ct: ContentType) -> int {
    count_type_upto(rows, ct, rows.len() as int)
}

/// The total size in bytes of the first `n` rows.
pub open spec fn sum_sizes_upto(rows: Seq<ClipRowV>, n: int) -> int
    decreases n,
{
    if n <= 0 {
        0
    } else {
        sum_sizes_upto(rows, n - 1) + rows[n - 1].size_bytes
    }
}

/// The total size in bytes of all rows.
pub open spec fn sum_sizes(rows: Seq<ClipRowV>) -> int {
    sum_sizes_upto(rows, rows.len() as int)
}

/// The earliest `created_at` among the first `n` rows, if any.
pub open spec fn min_created_upto(rows: Seq<ClipRowV>, n: int) -> Option<int>
    decreases n,
{
    if n <= 0 {
        None
    } else {
        match min_created_upto(rows, n - 1) {
            None => Some(rows[n - 1].created_at),
            Some(m) => Some(
                if rows[n - 1].created_at < m {
                    rows[n - 1].created_at
                } else {
                    m
                },
            ),
        }
    }
}

/// The earliest `created_at` in the store, absent when empty.
pub open spec fn min_created(rows: Seq<ClipRowV>) -> Option<int> {
    min_created_upto(rows, rows.len() as int)
}

/// The latest `created_at` among the first `n` rows, if any.
pub open spec fn max_created_upto(rows: Seq<ClipRowV>, n: int) -> Option<int>
    decreases n,
{
    if n <= 0 {
        None
    } else {
        match max_created_upto(rows, n - 1) {
            None => Some(rows[n - 1].created_at),
            Some(m) => Some(
                if rows[n - 1].created_at > m {
                    rows[n - 1].created_at
                } else {
                    m
                },
            ),
        }
    }
}

/// The latest `created_at` in the store, absent when empty.
pub open spec fn max_created(rows: Seq<ClipRowV>) -> Option<int> {
    max_created_upto(rows, rows.len() as int)
}

/// The first `n` rows that retention keeps: the pinned ones, and those not
/// older than the cutoff.
pub open spec fn rows_retained_upto(rows: Seq<ClipRowV>, cutoff: int, n: int) -> Seq<ClipRowV>
    decreases n,
{
    if n <= 0 {
        Seq::empty()
    } else if rows[n - 1].pinned || rows[n - 1].updated_at >= cutoff {
        rows_retained_upto(rows, cutoff, n - 1).push(rows[n - 1])
    } else {
        rows_retained_upto(rows, cutoff, n - 1)
    }
}

/// The rows that retention keeps.
pub open spec fn rows_retained(rows: Seq<ClipRowV>, cutoff: int) -> Seq<ClipRowV> {
    rows_retained_upto(rows, cutoff, rows.len() as int)
}

/// The first `n` tag rows whose clip survives in `kept`.
pub open spec fn tags_live_upto(tags: Seq<TagRowV>, kept: Seq<ClipRowV>, n: int) -> Seq<TagRowV>
    decreases n,
{
    if n <= 0 {
        Seq::empty()
    } else if seq_has_id(kept, tags[n - 1].clip_id) {
        tags_live_upto(tags, kept, n - 1).push(tags[n - 1])
    } else {
        tags_live_upto(tags, kept, n - 1)
    }
}

/// The tag rows whose clip survives in `kept`.
pub open spec fn tags_live(tags: Seq<TagRowV>, kept: Seq<ClipRowV>) -> Seq<TagRowV> {
    tags_live_upto(tags, kept, tags.len() as int)
}

/// Removing a pair that is not present leaves the tag relation unchanged.
proof fn lemma_without_pair_absent_noop(tags: Seq<TagRowV>, id: int, t: Seq<char>, n: int)
    requires
        0 <= n <= tags.len(),
        forall|k: int|
            0 <= k < tags.len() ==> !((#[trigger] tags[k]).clip_id == id && tags[k].tag == t),
    ensures
        tags_without_pair_upto(tags, id, t, n) == tags.subrange(0, n),
    decreases n,
{
    if n > 0 {
        lemma_without_pair_absent_noop(tags, id, t, n - 1);
        assert(tags_without_pair_upto(tags, id, t, n) =~= tags.subrange(0, n));
    } else {
        assert(tags_without_pair_upto(tags, id, t, 0) =~= tags.subrange(0, 0));
    }
}

/// With non-negative sizes the running total only grows.
proof fn lemma_sum_sizes_mono(rows: Seq<ClipRowV>, a: int, b: int)
    requires
        0 <= a <= b <= rows.len(),
        forall|k: int| 0 <= k < rows.len() ==> (#[trigger] rows[k]).size_bytes >= 0,
    ensures
        sum_sizes_upto(rows, a) <= sum_sizes_upto(rows, b),
    decreases b,
{
    if a < b {
        lemma_sum_sizes_mono(rows, a, b - 1);
    }
}

/// Law (pin exemption): every pinned row survives retention pruning,
/// regardless of age.
pub proof fn lemma_retention_keeps_pinned(rows: Seq<ClipRowV>, cutoff: int, n: int, w: int)
    requires
        0 <= w < n <= rows.len(),
        rows[w].pinned || rows[w].updated_at >= cutoff,
    ensures
        rows_retained_upto(rows, cutoff, n).contains(rows[w]),
    decreases n,
{
    if w == n - 1 {
        let s = rows_retained_upto(rows, cutoff, n);
        assert(s[s.len() - 1] == rows[w]);
    } else {
        lemma_retention_keeps_pinned(rows, cutoff, n - 1, w);
        let s0 = rows_retained_upto(rows, cutoff, n - 1);
        let k = choose|k: int| 0 <= k < s0.len() && s0[k] == rows[w];
        let s = rows_retained_upto(rows, cutoff, n);
        assert(s[k] == rows[w]);
    }
}

/// Law: a well-formed store never holds two rows with the same fingerprint.
pub proof fn lemma_hash_unique(s: StoreV, i: int, j: int)
    requires
        s.wf(),
        0 <= i < s.rows.len(),
        0 <= j < s.rows.len(),
        i != j,
    ensures
        s.rows[i].hash != s.rows[j].hash,
{
}

/// Law: once a (clip id, tag) pair has been associated, the association is
/// present, so a repeated `add_tag` of the same pair leaves the relation
/// unchanged under `add_tag`'s contract.
pub proof fn lemma_tag_present_after_push(s: StoreV, id: int, t: Seq<char>)
    ensures
        (StoreV { tags: s.tags.push(TagRowV { clip_id: id, tag: t }), ..s }).has_tag(id, t),
{
    let s2 = (StoreV { tags: s.tags.push(TagRowV { clip_id: id, tag: t }), ..s });
    assert(s2.tags[s.tags.len() as int].clip_id == id);
}

proof fn lemma_tags_upto_absent(s: StoreV, id: int, n: int)
    requires
        0 <= n <= s.tags.len(),
        forall|k: int| 0 <= k < s.tags.len() ==> (#[trigger] s.tags[k]).clip_id != id,
    ensures
        s.tags_upto(id, n).len() == 0,
    decreases n,
{
    if n > 0 {
        lemma_tags_upto_absent(s, id, n - 1);
    }
}

proof fn lemma_ids_grow(s: StoreV, k: int)
    requires
        s.wf(),
        0 <= k < s.rows.len(),
    ensures
        s.rows[k].id >= 1 + k,
    decreases k,
{
    if k > 0 {
        lemma_ids_grow(s, k - 1);
    }
}

/// A well-formed store holds fewer than `i64::MAX` rows: each row's id is a
/// distinct positive machine integer below `next_id`.
pub proof fn lemma_row_count_bound(s: StoreV)
    requires
        s.wf(),
    ensures
        s.rows.len() < i64::MAX,
{
    if s.rows.len() > 0 {
        lemma_ids_grow(s, s.rows.len() - 1);
    }
}

fn clone_opt_string(o: &Option<String>) -> (r: Option<String>)
    ensures
        view_opt_str(r) == view_opt_str(*o),
{
    match o {
        Some(s) => Some(s.clone()),
        None => None,
    }
}

/// The clip store: the persistence and query engine. Rows live in the clip
/// relation in insertion order; tag associations live in their own relation
/// and are aggregated onto clips on every read.
pub struct ClipStore {
    rows: Vec<ClipRow>,
    tags: Vec<TagRow>,
    next_id: i64,
}

impl View for ClipStore {
    type V = StoreV;

    closed spec fn view(&self) -> StoreV {
        StoreV {
            rows: self.rows@.map_values(|r: ClipRow| r@),
            tags: self.tags@.map_values(|t: TagRow| t@),
            next_id: self.next_id as int,
        }
    }
}

impl ClipStore {
    /// The store is well-formed.
    pub open spec fn wf(&self) -> bool {
        self@.wf()
    }

    /// An empty store; the first assigned id is 1.
    pub fn new() -> (s: Self)
        ensures
            s.wf(),
            s@.rows.len() == 0,
            s@.tags.len() == 0,
            s@.next_id == 1,
    {
        let s = ClipStore { rows: Vec::new(), tags: Vec::new(), next_id: 1 };
        proof {
            assert(s@.rows =~= Seq::<ClipRowV>::empty());
            assert(s@.tags =~= Seq::<TagRowV>::empty());
        }
        s
    }

    fn find_idx_by_id(&self, id: i64) -> (r: Option<usize>)
        ensures
            match r {
                Some(i) => i < self@.rows.len() && self@.rows[i as int].id == id as int,
                None => !self@.has_id(id as int),
            },
    {
        let mut i: usize = 0;
        while i < self.rows.len()
            invariant
                i <= self@.rows.len(),
                self@.rows.len() == self.rows@.len(),
                forall|j: int| 0 <= j < i ==> (#[trigger] self@.rows[j]).id != id as int,
            decreases self.rows@.len() - i,
        {
            if self.rows[i].id == id {
                assert(self@.rows[i as int].id == id as int);
                return Some(i);
            }
            i = i + 1;
        }
        None
    }

    fn find_idx_by_hash(&self, hash: &str) -> (r: Option<usize>)
        ensures
            match r {
                Some(i) => i < self@.rows.len() && self@.rows[i as int].hash == hash@,
                None => !self@.has_hash(hash@),
            },
    {
        let mut i: usize = 0;
        while i < self.rows.len()
            invariant
                i <= self@.rows.len(),
                self@.rows.len() == self.rows@.len(),
                forall|j: int| 0 <= j < i ==> (#[trigger] self@.rows[j]).hash != hash@,
            decreases self.rows@.len() - i,
        {
            if str_eq(self.rows[i].hash.as_str(), hash) {
                assert(self@.rows[i as int].hash == hash@);
                return Some(i);
            }
            i = i + 1;
        }
        None
    }

    fn has_tag_exec(&self, clip_id: i64, tag: &str) -> (r: bool)
        ensures
            r == self@.has_tag(clip_id as int, tag@),
    {
        let mut i: usize = 0;
        while i < self.tags.len()
            invariant
                i <= self@.tags.len(),
                self@.tags.len() == self.tags@.len(),
                forall|j: int|
                    0 <= j < i ==> !((#[trigger] self@.tags[j]).clip_id == clip_id as int
                        && self@.tags[j].tag == tag@),
            decreases self.tags@.len() - i,
        {
            if self.tags[i].clip_id == clip_id && str_eq(self.tags[i].tag.as_str(), tag) {
                assert(self@.tags[i as int].clip_id == clip_id as int);
                return true;
            }
            i = i + 1;
        }
        false
    }

    /// All tags currently associated with the given clip id, in association
    /// order (empty when the id is unknown).
    pub fn tags_for(&self, id: i64) -> (r: Vec<String>)
        ensures
            r@.map_values(|t: String| t@) == self@.tags_of(id as int),
    {
        let mut out: Vec<String> = Vec::new();
        let mut i: usize = 0;
        while i < self.tags.len()
            invariant
                i <= self@.tags.len(),
                self@.tags.len() == self.tags@.len(),
                out@.map_values(|t: String| t@) == self@.tags_upto(id as int, i as int),
            decreases self.tags@.len() - i,
        {
            let ghost prev = out@;
            if self.tags[i].clip_id == id {
                out.push(self.tags[i].tag.clone());
                proof {
                    assert(self@.tags[i as int].clip_id == id as int);
                    assert(out@.map_values(|t: String| t@) =~= prev.map_values(
                        |t: String| t@,
                    ).push(self@.tags[i as int].tag));
                }
            } else {
                proof {
                    assert(self@.tags[i as int].clip_id != id as int);
                }
            }
            i = i + 1;
        }
        out
    }

    fn materialize(&self, i: usize) -> (c: Clip)
        requires
            i < self@.rows.len(),
        ensures
            c@ == self@.clip_of(self@.rows[i as int]),
    {
        let row = &self.rows[i];
        let tags = self.tags_for(row.id);
        let c = Clip {
            id: row.id,
            content_type: row.content_type,
            text_content: clone_opt_string(&row.text_content),
            image_path: clone_opt_string(&row.image_path),
            image_width: row.image_width,
            image_height: row.image_height,
            hash: row.hash.clone(),
            size_bytes: row.size_bytes,
            pinned: row.pinned,
            created_at: row.created_at,
            updated_at: row.updated_at,
            tags,
        };
        c
    }

    /// Insert a new clip: the store assigns the next id, stamps both
    /// timestamps with `now`, starts the row unpinned and tagless, and
    /// returns the materialized row. Fails with a `Storage` error exactly
    /// when the fingerprint is already present (the uniqueness constraint)
    /// or the id space is exhausted; a failed insert leaves no row.
    pub fn insert(&mut self, clip: NewClip, now: i64) -> (r: Result<Clip, CbError>)
        requires
            old(self).wf(),
            clip.size_bytes >= 0,
        ensures
            final(self).wf(),
            r is Err <==> (old(self)@.has_hash(clip@.hash) || old(self)@.next_id == i64::MAX),
            r is Err ==> final(self)@ == old(self)@ && (r->Err_0 matches CbError::Storage(_)),
            r is Ok ==> final(self)@.rows == old(self)@.rows.push(
                (ClipRowV {
                    id: old(self)@.next_id,
                    content_type: clip@.content_type,
                    text_content: clip@.text_content,
                    image_path: clip@.image_path,
                    image_width: clip@.image_width,
                    image_height: clip@.image_height,
                    hash: clip@.hash,
                    size_bytes: clip@.size_bytes,
                    pinned: false,
                    created_at: now as int,
                    updated_at: now as int,
                }),
            ) && final(self)@.tags == old(self)@.tags && final(self)@.next_id == old(self)@.next_id
                + 1,
            r matches Ok(c) ==> c@ == final(self)@.clip_of(
                final(self)@.rows.last(),
            ) && c@.tags.len() == 0 && c@.id == old(self)@.next_id,
    {
        if self.find_idx_by_hash(clip.hash.as_str()).is_some() {
            return Err(CbError::Storage(String::from_str("hash already exists")));
        }
        if self.next_id == i64::MAX {
            return Err(CbError::Storage(String::from_str("id space exhausted")));
        }
        let id = self.next_id;
        let row = ClipRow {
            id,
            content_type: clip.content_type,
            text_content: clip.text_content,
            image_path: clip.image_path,
            image_width: clip.image_width,
            image_height: clip.image_height,
            hash: clip.hash,
            size_bytes: clip.size_bytes,
            pinned: false,
            created_at: now,
            updated_at: now,
        };
        self.rows.push(row);
        self.next_id = self.next_id + 1;
        proof {
            assert(self@.rows =~= old(self)@.rows.push(self@.rows.last()));
            assert(self@.tags =~= old(self)@.tags);
            assert forall|k: int| 0 <= k < self@.tags.len() implies self@.has_id(
                (#[trigger] self@.tags[k]).clip_id,
            ) by {
                assert(old(self)@.has_id(old(self)@.tags[k].clip_id));
                let w = choose|w: int|
                    0 <= w < old(self)@.rows.len() && (#[trigger] old(self)@.rows[w]).id == old(
                        self,
                    )@.tags[k].clip_id;
                assert(self@.rows[w].id == self@.tags[k].clip_id);
            }
            assert(self.wf());
            assert forall|k: int| 0 <= k < self@.tags.len() implies (
            #[trigger] self@.tags[k]).clip_id != id as int by {
                assert(old(self)@.has_id(self@.tags[k].clip_id));
            }
            lemma_tags_upto_absent(self@, id as int, self@.tags.len() as int);
        }
        let c = self.materialize(self.rows.len() - 1);
        Ok(c)
    }

    /// Fetch one clip by id, with all its tags; `NotFound` exactly when no
    /// row carries the id.
    pub fn get_by_id(&self, id: i64) -> (r: Result<Clip, CbError>)
        ensures
            r is Ok <==> self@.has_id(id as int),
            r matches Ok(c) ==> exists|k: int|
                0 <= k < self@.rows.len() && (#[trigger] self@.rows[k]).id == id as int && c@
                    == self@.clip_of(self@.rows[k]),
            r is Err ==> r->Err_0 matches CbError::NotFound(_),
    {
        match self.find_idx_by_id(id) {
            Some(i) => {
                let c = self.materialize(i);
                assert(self@.rows[i as int].id == id as int);
                Ok(c)
            },
            None => Err(CbError::NotFound(String::from_str("no clip with that id"))),
        }
    }

    /// Existence check by fingerprint, used for dedup; an absent hash is not
    /// an error.
    pub fn find_by_hash(&self, hash: &str) -> (r: Result<Option<Clip>, CbError>)
        ensures
            r is Ok,
            (r->Ok_0 is Some) <==> self@.has_hash(hash@),
            r->Ok_0 matches Some(c) ==> exists|k: int|
                0 <= k < self@.rows.len() && (#[trigger] self@.rows[k]).hash == hash@ && c@
                    == self@.clip_of(self@.rows[k]),
    {
        match self.find_idx_by_hash(hash) {
            Some(i) => {
                let c = self.materialize(i);
                assert(self@.rows[i as int].hash == hash@);
                Ok(Some(c))
            },
            None => Ok(None),
        }
    }

    /// Associate a tag with a clip and bump the owning clip's `updated_at`
    /// (a tag mutation advances the timestamp). Adding a pair that is
    /// already present is a silent no-op: nothing changes, the timestamp
    /// included. Tagging an unknown id fails with a `Storage` error (the
    /// association must reference a live row).
    pub fn add_tag(&mut self, clip_id: i64, tag: &str, now: i64) -> (r: Result<(), CbError>)
        requires
            old(self).wf(),
        ensures
            final(self).wf(),
            r is Ok <==> old(self)@.has_id(clip_id as int),
            r is Err ==> final(self)@ == old(self)@ && (r->Err_0 matches CbError::Storage(_)),
            final(self)@.next_id == old(self)@.next_id,
            r is Ok && old(self)@.has_tag(clip_id as int, tag@) ==> final(self)@ == old(self)@,
            r is Ok && !old(self)@.has_tag(clip_id as int, tag@) ==> final(self)@.tags == old(
                self,
            )@.tags.push((TagRowV { clip_id: clip_id as int, tag: tag@ })) && exists|k: int|
                0 <= k < old(self)@.rows.len() && (#[trigger] old(self)@.rows[k]).id
                    == clip_id as int && final(self)@.rows == old(self)@.rows.update(
                    k,
                    (ClipRowV { updated_at: now as int, ..old(self)@.rows[k] }),
                ),
    {
        let idx = match self.find_idx_by_id(clip_id) {
            Some(i) => i,
            None => {
                return Err(CbError::Storage(String::from_str("tag references no clip")));
            },
        };
        if self.has_tag_exec(clip_id, tag) {
            return Ok(());
        }
        self.rows[idx].updated_at = now;
        self.tags.push(TagRow { clip_id, tag: tag.to_owned() });
        proof {
            let k = idx as int;
            assert(self@.rows =~= old(self)@.rows.update(
                k,
                (ClipRowV { updated_at: now as int, ..old(self)@.rows[k] }),
            ));
            assert(self@.tags =~= old(self)@.tags.push(
                (TagRowV { clip_id: clip_id as int, tag: tag@ }),
            ));
            assert forall|j: int| 0 <= j < self@.rows.len() implies (
            #[trigger] self@.rows[j]).id == old(self)@.rows[j].id && self@.rows[j].hash == old(
                self,
            )@.rows[j].hash && self@.rows[j].size_bytes == old(self)@.rows[j].size_bytes by {}
            assert forall|j: int| 0 <= j < self@.tags.len() implies self@.has_id(
                (#[trigger] self@.tags[j]).clip_id,
            ) by {
                if j < old(self)@.tags.len() {
                    assert(old(self)@.has_id(old(self)@.tags[j].clip_id));
                    let w = choose|w: int|
                        0 <= w < old(self)@.rows.len() && (#[trigger] old(self)@.rows[w]).id
                            == old(self)@.tags[j].clip_id;
                    assert(self@.rows[w].id == self@.tags[j].clip_id);
                } else {
                    assert(self@.rows[k].id == clip_id as int);
                }
            }
            assert(self.wf());
        }
        Ok(())
    }

    /// Remove a tag association and bump the owning clip's `updated_at`
    /// when a pair is actually removed (a tag mutation advances the
    /// timestamp). Removing an absent pair is a silent no-op: nothing
    /// changes, the timestamp included.
    pub fn remove_tag(&mut self, clip_id: i64, tag: &str, now: i64) -> (r: Result<(), CbError>)
        requires
            old(self).wf(),
        ensures
            final(self).wf(),
            r is Ok,
            final(self)@.next_id == old(self)@.next_id,
            final(self)@.tags == tags_without_pair(old(self)@.tags, clip_id as int, tag@),
            !final(self)@.has_tag(clip_id as int, tag@),
            !old(self)@.has_tag(clip_id as int, tag@) ==> final(self)@ == old(self)@,
            old(self)@.has_tag(clip_id as int, tag@) ==> exists|k: int|
                0 <= k < old(self)@.rows.len() && (#[trigger] old(self)@.rows[k]).id
                    == clip_id as int && final(self)@.rows == old(self)@.rows.update(
                    k,
                    (ClipRowV { updated_at: now as int, ..old(self)@.rows[k] }),
                ),
    {
        let ghost olds = self@;
        if !self.has_tag_exec(clip_id, tag) {
            proof {
                lemma_without_pair_absent_noop(
                    olds.tags,
                    clip_id as int,
                    tag@,
                    olds.tags.len() as int,
                );
                assert(olds.tags.subrange(0, olds.tags.len() as int) =~= olds.tags);
            }
            return Ok(());
        }
        let mut kept: Vec<TagRow> = Vec::new();
        let mut i: usize = 0;
        while i < self.tags.len()
            invariant
                old(self).wf(),
                i <= self@.tags.len(),
                self@.tags.len() == self.tags@.len(),
                self@ == olds,
                kept@.map_values(|t: TagRow| t@) == tags_without_pair_upto(
                    olds.tags,
                    clip_id as int,
                    tag@,
                    i as int,
                ),
                forall|j: int|
                    0 <= j < kept@.len() ==> !((#[trigger] kept@[j])@.clip_id == clip_id as int
                        && kept@[j]@.tag == tag@),
                forall|j: int|
                    0 <= j < kept@.len() ==> exists|k: int|
                        0 <= k < i && olds.tags[k] == (#[trigger] kept@[j])@,
                forall|a: int, b: int|
                    0 <= a < b < kept@.len() ==> !((#[trigger] kept@[a])@.clip_id == (
                    #[trigger] kept@[b])@.clip_id && kept@[a]@.tag == kept@[b]@.tag),
            decreases self.tags@.len() - i,
        {
            let ghost prev = kept@;
            let ghost prevm = kept@.map_values(|t: TagRow| t@);
            let keep = !(self.tags[i].clip_id == clip_id && str_eq(
                self.tags[i].tag.as_str(),
                tag,
            ));
            proof {
                assert(self.tags@[i as int]@ == olds.tags[i as int]);
                assert(keep == !(olds.tags[i as int].clip_id == clip_id as int
                    && olds.tags[i as int].tag == tag@));
            }
            if keep {
                kept.push(TagRow { clip_id: self.tags[i].clip_id, tag: self.tags[i].tag.clone() });
                proof {
                    assert(kept@[prev.len() as int]@ == olds.tags[i as int]);
                    assert(kept@.map_values(|t: TagRow| t@) =~= prevm.push(olds.tags[i as int]));
                    assert forall|a: int, b: int| 0 <= a < b < kept@.len() implies !((
                    #[trigger] kept@[a])@.clip_id == (#[trigger] kept@[b])@.clip_id
                        && kept@[a]@.tag == kept@[b]@.tag) by {
                        if b == kept@.len() - 1 {
                            let k = choose|k: int|
                                0 <= k < i && olds.tags[k] == (#[trigger] prev[a])@;
                            assert(!(olds.tags[k].clip_id == olds.tags[i as int].clip_id
                                && olds.tags[k].tag == olds.tags[i as int].tag));
                        }
                    }
                }
            }
            i = i + 1;
        }
        self.tags = kept;
        let ghost mids = self@;
        proof {
            assert(mids.rows =~= olds.rows);
            assert(mids.tags =~= tags_without_pair(olds.tags, clip_id as int, tag@));
        }
        match self.find_idx_by_id(clip_id) {
            Some(i) => {
                self.rows[i].updated_at = now;
                proof {
                    let k = i as int;
                    assert(self@.rows =~= olds.rows.update(
                        k,
                        (ClipRowV { updated_at: now as int, ..olds.rows[k] }),
                    ));
                    assert(self@.tags == mids.tags);
                    assert forall|j: int| 0 <= j < self@.rows.len() implies (
                    #[trigger] self@.rows[j]).id == olds.rows[j].id && self@.rows[j].hash
                        == olds.rows[j].hash && self@.rows[j].size_bytes
                        == olds.rows[j].size_bytes by {}
                    assert forall|x: int| 0 <= x < self@.tags.len() implies self@.has_id(
                        (#[trigger] self@.tags[x]).clip_id,
                    ) by {
                        let w = choose|w: int|
                            0 <= w < olds.tags.len() && olds.tags[w] == mids.tags[x];
                        assert(olds.has_id(olds.tags[w].clip_id));
                        let rw = choose|rw: int|
                            0 <= rw < olds.rows.len() && (#[trigger] olds.rows[rw]).id
                                == olds.tags[w].clip_id;
                        assert(self@.rows[rw].id == self@.tags[x].clip_id);
                    }
                    assert(self.wf());
                    assert(olds.rows[k].id == clip_id as int);
                    assert forall|x: int| 0 <= x < self@.tags.len() implies !((
                    #[trigger] self@.tags[x]).clip_id == clip_id as int && self@.tags[x].tag
                        == tag@) by {}
                }
                Ok(())
            },
            None => {
                proof {
                    assert(olds.has_tag(clip_id as int, tag@));
                    let w = choose|w: int|
                        0 <= w < olds.tags.len() && (#[trigger] olds.tags[w]).clip_id
                            == clip_id as int && olds.tags[w].tag == tag@;
                    assert(olds.has_id(clip_id as int));
                    let rw = choose|rw: int|
                        0 <= rw < olds.rows.len() && (#[trigger] olds.rows[rw]).id
                            == clip_id as int;
                    assert(self@.rows[rw].id == clip_id as int);
                    assert(self@.has_id(clip_id as int));
                    assert(false);
                }
                Ok(())
            },
        }
    }

    /// Update the pin flag and bump `updated_at`. Updating an unknown id is
    /// tolerated: zero rows are affected and no error is raised (deliberate
    /// leniency, in contrast with `touch`).
    pub fn set_pinned(&mut self, id: i64, pinned: bool, now: i64) -> (r: Result<(), CbError>)
        requires
            old(self).wf(),
        ensures
            final(self).wf(),
            r is Ok,
            final(self)@.tags == old(self)@.tags,
            final(self)@.next_id == old(self)@.next_id,
            !old(self)@.has_id(id as int) ==> final(self)@ == old(self)@,
            old(self)@.has_id(id as int) ==> exists|k: int|
                0 <= k < old(self)@.rows.len() && (#[trigger] old(self)@.rows[k]).id == id as int
                    && final(self)@.rows == old(self)@.rows.update(
                    k,
                    (ClipRowV { pinned: pinned, updated_at: now as int, ..old(self)@.rows[k] }),
                ),
    {
        match self.find_idx_by_id(id) {
            Some(i) => {
                self.rows[i].pinned = pinned;
                self.rows[i].updated_at = now;
                proof {
                    let k = i as int;
                    assert(self@.rows =~= old(self)@.rows.update(
                        k,
                        (ClipRowV {
                            pinned: pinned,
                            updated_at: now as int,
                            ..old(self)@.rows[k]
                        }),
                    ));
                    assert forall|j: int| 0 <= j < self@.rows.len() implies (
                    #[trigger] self@.rows[j]).id == old(self)@.rows[j].id && self@.rows[j].hash
                        == old(self)@.rows[j].hash && self@.rows[j].size_bytes == old(
                        self,
                    )@.rows[j].size_bytes by {}
                    assert forall|j: int| 0 <= j < self@.tags.len() implies self@.has_id(
                        (#[trigger] self@.tags[j]).clip_id,
                    ) by {
                        assert(old(self)@.has_id(old(self)@.tags[j].clip_id));
                        let w = choose|w: int|
                            0 <= w < old(self)@.rows.len() && (#[trigger] old(self)@.rows[w]).id
                                == old(self)@.tags[j].clip_id;
                        assert(self@.rows[w].id == self@.tags[j].clip_id);
                    }
                    assert(self.wf());
                }
                Ok(())
            },
            None => Ok(()),
        }
    }

    /// Refresh `updated_at` to `now`; `NotFound` exactly when the id is
    /// unknown (in contrast with `set_pinned`, silently touching nothing
    /// would mask a bug in the caller).
    pub fn touch(&mut self, id: i64, now: i64) -> (r: Result<(), CbError>)
        requires
            old(self).wf(),
        ensures
            final(self).wf(),
            r is Ok <==> old(self)@.has_id(id as int),
            r is Err ==> final(self)@ == old(self)@ && (r->Err_0 matches CbError::NotFound(_)),
            final(self)@.tags == old(self)@.tags,
            final(self)@.next_id == old(self)@.next_id,
            r is Ok ==> exists|k: int|
                0 <= k < old(self)@.rows.len() && (#[trigger] old(self)@.rows[k]).id == id as int
                    && final(self)@.rows == old(self)@.rows.update(
                    k,
                    (ClipRowV { updated_at: now as int, ..old(self)@.rows[k] }),
                ),
    {
        match self.find_idx_by_id(id) {
            Some(i) => {
                self.rows[i].updated_at = now;
                proof {
                    let k = i as int;
                    assert(self@.rows =~= old(self)@.rows.update(
                        k,
                        (ClipRowV { updated_at: now as int, ..old(self)@.rows[k] }),
                    ));
                    assert forall|j: int| 0 <= j < self@.rows.len() implies (
                    #[trigger] self@.rows[j]).id == old(self)@.rows[j].id && self@.rows[j].hash
                        == old(self)@.rows[j].hash && self@.rows[j].size_bytes == old(
                        self,
                    )@.rows[j].size_bytes by {}
                    assert forall|j: int| 0 <= j < self@.tags.len() implies self@.has_id(
                        (#[trigger] self@.tags[j]).clip_id,
                    ) by {
                        assert(old(self)@.has_id(old(self)@.tags[j].clip_id));
                        let w = choose|w: int|
                            0 <= w < old(self)@.rows.len() && (#[trigger] old(self)@.rows[w]).id
                                == old(self)@.tags[j].clip_id;
                        assert(self@.rows[w].id == self@.tags[j].clip_id);
                    }
                    assert(self.wf());
                }
                Ok(())
            },
            None => Err(CbError::NotFound(String::from_str("no clip with that id"))),
        }
    }

    /// Delete a clip and, with it, all of its tag associations (the cascade).
    /// Returns whether a row was removed; an unknown id is not an error.
    pub fn delete(&mut self, id: i64) -> (r: Result<bool, CbError>)
        requires
            old(self).wf(),
        ensures
            final(self).wf(),
            r is Ok,
            r->Ok_0 == old(self)@.has_id(id as int),
            final(self)@.next_id == old(self)@.next_id,
            final(self)@.rows == rows_without_id(old(self)@.rows, id as int),
            final(self)@.tags == tags_without_id(old(self)@.tags, id as int),
            forall|k: int|
                0 <= k < final(self)@.tags.len() ==> (#[trigger] final(self)@.tags[k]).clip_id
                    != id as int,
            !final(self)@.has_id(id as int),
    {
        let ghost olds = self@;
        let existed = self.find_idx_by_id(id).is_some();

        let mut kept_rows: Vec<ClipRow> = Vec::new();
        let mut i: usize = 0;
        while i < self.rows.len()
            invariant
                old(self).wf(),
                i <= self@.rows.len(),
                self@.rows.len() == self.rows@.len(),
                self@ == olds,
                kept_rows@.map_values(|x: ClipRow| x@) == rows_without_id_upto(
                    olds.rows,
                    id as int,
                    i as int,
                ),
                forall|j: int| 0 <= j < kept_rows@.len() ==> (#[trigger] kept_rows@[j])@.id != id as int,
                forall|j: int|
                    0 <= j < kept_rows@.len() ==> exists|k: int|
                        0 <= k < i && olds.rows[k] == (#[trigger] kept_rows@[j])@,
                forall|a: int, b: int|
                    0 <= a < b < kept_rows@.len() ==> (#[trigger] kept_rows@[a])@.id < (
                    #[trigger] kept_rows@[b])@.id,
            decreases self.rows@.len() - i,
        {
            let ghost prev = kept_rows@;
            let ghost prevm = kept_rows@.map_values(|x: ClipRow| x@);
            proof {
                assert(self.rows@[i as int]@ == olds.rows[i as int]);
            }
            if self.rows[i].id != id {
                let rr = &self.rows[i];
                kept_rows.push(
                    ClipRow {
                        id: rr.id,
                        content_type: rr.content_type,
                        text_content: clone_opt_string(&rr.text_content),
                        image_path: clone_opt_string(&rr.image_path),
                        image_width: rr.image_width,
                        image_height: rr.image_height,
                        hash: rr.hash.clone(),
                        size_bytes: rr.size_bytes,
                        pinned: rr.pinned,
                        created_at: rr.created_at,
                        updated_at: rr.updated_at,
                    },
                );
                proof {
                    assert(kept_rows@[prev.len() as int]@ == olds.rows[i as int]);
                    assert(kept_rows@.map_values(|x: ClipRow| x@) =~= prevm.push(
                        olds.rows[i as int],
                    ));
                    assert forall|a: int, b: int| 0 <= a < b < kept_rows@.len() implies (
                    #[trigger] kept_rows@[a])@.id < (#[trigger] kept_rows@[b])@.id by {
                        if b == kept_rows@.len() - 1 {
                            let k = choose|k: int|
                                0 <= k < i && olds.rows[k] == (#[trigger] prev[a])@;
                            assert(olds.rows[k].id < olds.rows[i as int].id);
                        }
                    }
                }
            }
            i = i + 1;
        }
        self.rows = kept_rows;

        let ghost midtags = self@.tags;
        proof {
            assert(midtags =~= olds.tags);
        }
        let mut kept_tags: Vec<TagRow> = Vec::new();
        let mut j: usize = 0;
        while j < self.tags.len()
            invariant
                olds.wf(),
                j <= self@.tags.len(),
                self@.tags.len() == self.tags@.len(),
                self@.tags == olds.tags,
                kept_tags@.map_values(|t: TagRow| t@) == tags_without_id_upto(
                    olds.tags,
                    id as int,
                    j as int,
                ),
                forall|x: int| 0 <= x < kept_tags@.len() ==> (#[trigger] kept_tags@[x])@.clip_id != id as int,
                forall|x: int|
                    0 <= x < kept_tags@.len() ==> exists|k: int|
                        0 <= k < j && olds.tags[k] == (#[trigger] kept_tags@[x])@,
                forall|a: int, b: int|
                    0 <= a < b < kept_tags@.len() ==> !((#[trigger] kept_tags@[a])@.clip_id == (
                    #[trigger] kept_tags@[b])@.clip_id && kept_tags@[a]@.tag == kept_tags@[b]@.tag),
            decreases self.tags@.len() - j,
        {
            let ghost prev = kept_tags@;
            let ghost prevm = kept_tags@.map_values(|t: TagRow| t@);
            proof {
                assert(self.tags@[j as int]@ == olds.tags[j as int]);
            }
            if self.tags[j].clip_id != id {
                kept_tags.push(
                    TagRow { clip_id: self.tags[j].clip_id, tag: self.tags[j].tag.clone() },
                );
                proof {
                    assert(kept_tags@[prev.len() as int]@ == olds.tags[j as int]);
                    assert(kept_tags@.map_values(|t: TagRow| t@) =~= prevm.push(
                        olds.tags[j as int],
                    ));
                    assert forall|a: int, b: int| 0 <= a < b < kept_tags@.len() implies !((
                    #[trigger] kept_tags@[a])@.clip_id == (#[trigger] kept_tags@[b])@.clip_id
                        && kept_tags@[a]@.tag == kept_tags@[b]@.tag) by {
                        if b == kept_tags@.len() - 1 {
                            let k = choose|k: int|
                                0 <= k < j && olds.tags[k] == (#[trigger] prev[a])@;
                            assert(!(olds.tags[k].clip_id == olds.tags[j as int].clip_id
                                && olds.tags[k].tag == olds.tags[j as int].tag));
                        }
                    }
                }
            }
            j = j + 1;
        }
        self.tags = kept_tags;

        proof {
            let news = self@;
            assert(news.rows =~= rows_without_id(olds.rows, id as int));
            assert(news.tags =~= tags_without_id(olds.tags, id as int));
            assert forall|k: int| 0 <= k < news.tags.len() implies news.has_id(
                (#[trigger] news.tags[k]).clip_id,
            ) by {
                let w = choose|w: int| 0 <= w < olds.tags.len() && olds.tags[w] == news.tags[k];
                assert(olds.has_id(olds.tags[w].clip_id));
                let rw = choose|rw: int|
                    0 <= rw < olds.rows.len() && (#[trigger] olds.rows[rw]).id
                        == olds.tags[w].clip_id;
                assert(olds.rows[rw].id != id as int);
                lemma_without_id_keeps(olds.rows, id as int, olds.rows.len() as int, rw);
                let nw = choose|nw: int|
                    0 <= nw < news.rows.len() && news.rows[nw] == olds.rows[rw];
                assert(news.rows[nw].id == news.tags[k].clip_id);
            }
            assert(news.wf());
        }
        Ok(existed)
    }

    fn row_matches_exec(&self, i: usize, f: &ClipFilter) -> (r: bool)
        requires
            i < self@.rows.len(),
        ensures
            r == self@.row_matches(self@.rows[i as int], f@),
    {
        let row = &self.rows[i];
        proof {
            assert(self@.rows[i as int] == self.rows@[i as int]@);
        }
        let ct_ok = match &f.content_type {
            None => true,
            Some(ct) => row.content_type == *ct,
        };
        let pin_ok = match f.pinned {
            None => true,
            Some(p) => row.pinned == p,
        };
        let tag_ok = match &f.tag {
            None => true,
            Some(t) => self.has_tag_exec(row.id, t.as_str()),
        };
        ct_ok && pin_ok && tag_ok
    }

    /// List clips under a filter: the optional constraints apply
    /// conjunctively, results are ordered by descending id, then `offset`
    /// matching rows are skipped and at most the effective limit returned.
    /// Each returned clip carries all of its tags (not only a filtered one),
    /// and each matching row appears exactly once however many tags it has.
    /// An empty result is not an error.
    pub fn list(&self, filter: ClipFilter) -> (r: Result<Vec<Clip>, CbError>)
        requires
            self.wf(),
        ensures
            r is Ok,
            views_of_clips(r->Ok_0@) == self@.spec_list(filter@),
    {
        let mut asc: Vec<usize> = Vec::new();
        let mut i: usize = 0;
        while i < self.rows.len()
            invariant
                i <= self@.rows.len(),
                self@.rows.len() == self.rows@.len(),
                forall|j: int| 0 <= j < asc@.len() ==> (#[trigger] asc@[j]) < self@.rows.len(),
                self@.rows_at(asc@) == self@.matching_upto(filter@, i as int),
            decreases self.rows@.len() - i,
        {
            let ghost prev = asc@;
            if self.row_matches_exec(i, &filter) {
                asc.push(i);
                proof {
                    assert(self@.rows_at(asc@) =~= self@.rows_at(prev).push(
                        self@.rows[i as int],
                    ));
                }
            }
            i = i + 1;
        }
        let ghost m = self@.matching_rows(filter@);
        let ghost desc = m.reverse();
        proof {
            assert(self@.rows_at(asc@).len() == asc@.len());
        }
        let off: i64 = if filter.offset < 0 {
            0
        } else {
            filter.offset
        };
        let lim: i64 = filter.effective_limit();
        let n = asc.len();
        let mut out: Vec<Clip> = Vec::new();
        let mut skipped: i64 = 0;
        let mut taken: i64 = 0;
        let mut p: usize = 0;
        while p < n && taken < lim
            invariant
                self.wf(),
                n == asc@.len(),
                m == self@.matching_rows(filter@),
                desc == m.reverse(),
                m.len() == n,
                forall|j: int| 0 <= j < asc@.len() ==> (#[trigger] asc@[j]) < self@.rows.len(),
                self@.rows_at(asc@) == m,
                p <= n,
                off >= 0,
                off as int == (if filter@.offset < 0 {
                    0
                } else {
                    filter@.offset
                }),
                lim >= 1,
                lim as int == filter@.spec_effective_limit(),
                skipped as int == (if p as int <= off as int {
                    p as int
                } else {
                    off as int
                }),
                taken as int == out@.len(),
                taken <= lim,
                views_of_clips(out@) == self@.clips_of(
                    desc.subrange(
                        if p as int <= off as int {
                            p as int
                        } else {
                            off as int
                        },
                        if p as int <= off as int + lim as int {
                            p as int
                        } else {
                            off as int + lim as int
                        },
                    ),
                ),
            decreases n - p,
        {
            let ix = asc[n - 1 - p];
            let ghost prevout = out@;
            if skipped < off {
                skipped = skipped + 1;
                proof {
                    assert(desc.subrange(p as int, p as int) =~= desc.subrange(p + 1, p + 1));
                }
            } else {
                let c = self.materialize(ix);
                out.push(c);
                taken = taken + 1;
                proof {
                    let pi = p as int;
                    let st = off as int;
                    let limi = lim as int;
                    let start_old = if pi <= st {
                        pi
                    } else {
                        st
                    };
                    let end_old = if pi <= st + limi {
                        pi
                    } else {
                        st + limi
                    };
                    assert(pi >= st);
                    assert(views_of_clips(prevout).len() == prevout.len());
                    assert(self@.clips_of(desc.subrange(start_old, end_old)).len() == end_old
                        - start_old);
                    assert(prevout.len() == end_old - start_old);
                    assert(pi <= st + limi);
                    assert(start_old == st);
                    assert(end_old == pi);
                    assert(views_of_clips(prevout) == self@.clips_of(desc.subrange(st, pi)));
                    assert(self@.rows_at(asc@)[n - 1 - pi] == self@.rows[asc@[n - 1 - pi] as int]);
                    assert(desc[pi] == m[n - 1 - pi]);
                    assert(c@ == self@.clip_of(desc[pi]));
                    assert(desc.subrange(st, pi + 1) =~= desc.subrange(st, pi).push(desc[pi]));
                    assert forall|j: int| 0 <= j < out@.len() implies views_of_clips(out@)[j]
                        == self@.clips_of(desc.subrange(st, pi + 1))[j] by {
                        assert(views_of_clips(out@)[j] == out@[j]@);
                        assert(self@.clips_of(desc.subrange(st, pi + 1))[j] == self@.clip_of(
                            desc.subrange(st, pi + 1)[j],
                        ));
                        assert(desc.subrange(st, pi + 1)[j] == desc[st + j]);
                        if j < out@.len() - 1 {
                            assert(out@[j] == prevout[j]);
                            assert(views_of_clips(prevout)[j] == prevout[j]@);
                            assert(self@.clips_of(desc.subrange(st, pi))[j] == self@.clip_of(
                                desc.subrange(st, pi)[j],
                            ));
                            assert(desc.subrange(st, pi)[j] == desc[st + j]);
                        } else {
                            assert(out@[j] == c);
                            assert(st + j == pi);
                        }
                    }
                    assert(views_of_clips(out@) =~= self@.clips_of(desc.subrange(st, pi + 1)));
                }
            }
            p = p + 1;
        }
        proof {
            let dl = desc.len() as int;
            let offi = off as int;
            let limi = lim as int;
            let start_inv = if p as int <= offi {
                p as int
            } else {
                offi
            };
            let end_inv = if p as int <= offi + limi {
                p as int
            } else {
                offi + limi
            };
            assert(out@.len() == end_inv - start_inv);
            if (p as int) < n {
                assert(taken == lim);
                assert(start_inv == offi);
                assert(end_inv == offi + limi);
                assert(offi + limi <= dl);
            }
            assert(views_of_clips(out@) == self@.spec_list(filter@));
        }
        Ok(out)
    }

    fn search_hit_exec(&self, i: usize, q: &Vec<char>, Ghost(qs): Ghost<Seq<char>>) -> (r: bool)
        requires
            i < self@.rows.len(),
            q@ == lower(qs),
        ensures
            r == search_hit(self@.rows[i as int], qs),
    {
        proof {
            assert(self@.rows[i as int] == self.rows@[i as int]@);
        }
        match &self.rows[i].text_content {
            Some(s) => {
                let tl = lower_chars(s.as_str());
                contains_chars(&tl, q)
            },
            None => false,
        }
    }

    /// Case-insensitive substring search over text content, ordered by
    /// descending id and capped at `limit` (a negative limit caps nothing).
    /// Clips without text content never match; an empty query matches every
    /// clip that has text.
    pub fn search(&self, query: &str, limit: i64) -> (r: Result<Vec<Clip>, CbError>)
        requires
            self.wf(),
        ensures
            r is Ok,
            views_of_clips(r->Ok_0@) == self@.spec_search(query@, limit as int),
    {
        let q = lower_chars(query);
        let mut asc: Vec<usize> = Vec::new();
        let mut i: usize = 0;
        while i < self.rows.len()
            invariant
                self.wf(),
                q@ == lower(query@),
                i <= self@.rows.len(),
                self@.rows.len() == self.rows@.len(),
                asc@.len() <= i,
                forall|j: int| 0 <= j < asc@.len() ==> (#[trigger] asc@[j]) < self@.rows.len(),
                self@.rows_at(asc@) == self@.search_upto(query@, i as int),
            decreases self.rows@.len() - i,
        {
            let ghost prev = asc@;
            if self.search_hit_exec(i, &q, Ghost(query@)) {
                asc.push(i);
                proof {
                    assert(self@.rows_at(asc@) =~= self@.rows_at(prev).push(
                        self@.rows[i as int],
                    ));
                }
            }
            i = i + 1;
        }
        let ghost m = self@.search_rows(query@);
        let ghost desc = m.reverse();
        proof {
            assert(self@.rows_at(asc@).len() == asc@.len());
            lemma_row_count_bound(self@);
        }
        let n = asc.len();
        let mut out: Vec<Clip> = Vec::new();
        let mut taken: i64 = 0;
        let mut p: usize = 0;
        while p < n && (limit < 0 || taken < limit)
            invariant
                self.wf(),
                n == asc@.len(),
                m == self@.search_rows(query@),
                desc == m.reverse(),
                m.len() == n,
                n <= self@.rows.len(),
                self@.rows.len() < i64::MAX,
                forall|j: int| 0 <= j < asc@.len() ==> (#[trigger] asc@[j]) < self@.rows.len(),
                self@.rows_at(asc@) == m,
                p <= n,
                taken as int == p as int,
                out@.len() == p,
                limit >= 0 ==> p as int <= limit as int,
                views_of_clips(out@) == self@.clips_of(desc.subrange(0, p as int)),
            decreases n - p,
        {
            let ix = asc[n - 1 - p];
            let ghost prevout = out@;
            let c = self.materialize(ix);
            out.push(c);
            taken = taken + 1;
            proof {
                let pi = p as int;
                assert(self@.rows_at(asc@)[n - 1 - pi] == self@.rows[asc@[n - 1 - pi] as int]);
                assert(desc[pi] == m[n - 1 - pi]);
                assert(c@ == self@.clip_of(desc[pi]));
                assert(desc.subrange(0, pi + 1) =~= desc.subrange(0, pi).push(desc[pi]));
                assert forall|j: int| 0 <= j < out@.len() implies views_of_clips(out@)[j]
                    == self@.clips_of(desc.subrange(0, pi + 1))[j] by {
                    assert(views_of_clips(out@)[j] == out@[j]@);
                    assert(self@.clips_of(desc.subrange(0, pi + 1))[j] == self@.clip_of(
                        desc.subrange(0, pi + 1)[j],
                    ));
                    assert(desc.subrange(0, pi + 1)[j] == desc[j]);
                    if j < out@.len() - 1 {
                        assert(out@[j] == prevout[j]);
                        assert(views_of_clips(prevout)[j] == prevout[j]@);
                        assert(self@.clips_of(desc.subrange(0, pi))[j] == self@.clip_of(
                            desc.subrange(0, pi)[j],
                        ));
                        assert(desc.subrange(0, pi)[j] == desc[j]);
                    } else {
                        assert(out@[j] == c);
                    }
                }
                assert(views_of_clips(out@) =~= self@.clips_of(desc.subrange(0, pi + 1)));
            }
            p = p + 1;
        }
        proof {
            let limi = limit as int;
            let e = if limi < 0 || limi > desc.len() {
                desc.len() as int
            } else {
                limi
            };
            assert(views_of_clips(out@) == self@.clips_of(desc.subrange(0, e)));
        }
        Ok(out)
    }

    /// One aggregate pass over the store: totals by kind, total size, and
    /// the age span; the timestamps are absent exactly when the store is
    /// empty. Fails with a `Storage` error exactly when the size total
    /// overflows the machine integer.
    pub fn stats(&self) -> (r: Result<StorageStats, CbError>)
        requires
            self.wf(),
        ensures
            r is Ok <==> sum_sizes(self@.rows) <= i64::MAX,
            r is Err ==> r->Err_0 matches CbError::Storage(_),
            r matches Ok(st) ==> ({
                &&& st.total_clips as int == self@.rows.len()
                &&& st.text_clips as int == count_type(self@.rows, ContentType::Text)
                &&& st.image_clips as int == count_type(self@.rows, ContentType::Image)
                &&& st.fileref_clips as int == count_type(self@.rows, ContentType::FileRef)
                &&& st.total_size as int == sum_sizes(self@.rows)
                &&& view_opt_i64(st.oldest) == min_created(self@.rows)
                &&& view_opt_i64(st.newest) == max_created(self@.rows)
            }),
    {
        proof {
            lemma_row_count_bound(self@);
        }
        let mut text: i64 = 0;
        let mut image: i64 = 0;
        let mut fileref: i64 = 0;
        let mut total: i64 = 0;
        let mut oldest: Option<i64> = None;
        let mut newest: Option<i64> = None;
        let mut i: usize = 0;
        while i < self.rows.len()
            invariant
                self.wf(),
                self@.rows.len() < i64::MAX,
                self@.rows.len() == self.rows@.len(),
                i <= self@.rows.len(),
                text as int == count_type_upto(self@.rows, ContentType::Text, i as int),
                image as int == count_type_upto(self@.rows, ContentType::Image, i as int),
                fileref as int == count_type_upto(self@.rows, ContentType::FileRef, i as int),
                text as int <= i,
                image as int <= i,
                fileref as int <= i,
                total as int == sum_sizes_upto(self@.rows, i as int),
                total >= 0,
                view_opt_i64(oldest) == min_created_upto(self@.rows, i as int),
                view_opt_i64(newest) == max_created_upto(self@.rows, i as int),
            decreases self.rows@.len() - i,
        {
            let row = &self.rows[i];
            proof {
                assert(self@.rows[i as int] == self.rows@[i as int]@);
            }
            match row.content_type {
                ContentType::Text => {
                    text = text + 1;
                },
                ContentType::Image => {
                    image = image + 1;
                },
                ContentType::FileRef => {
                    fileref = fileref + 1;
                },
            }
            if row.size_bytes > i64::MAX - total {
                proof {
                    assert(sum_sizes_upto(self@.rows, i + 1) > i64::MAX);
                    lemma_sum_sizes_mono(self@.rows, i + 1, self@.rows.len() as int);
                }
                return Err(CbError::Storage(String::from_str("size total overflows")));
            }
            total = total + row.size_bytes;
            oldest = match oldest {
                None => Some(row.created_at),
                Some(m) => if row.created_at < m {
                    Some(row.created_at)
                } else {
                    Some(m)
                },
            };
            newest = match newest {
                None => Some(row.created_at),
                Some(m) => if row.created_at > m {
                    Some(row.created_at)
                } else {
                    Some(m)
                },
            };
            i = i + 1;
        }
        let total_clips = self.rows.len() as i64;
        Ok(
            StorageStats {
                total_clips,
                text_clips: text,
                image_clips: image,
                fileref_clips: fileref,
                total_size: total,
                oldest,
                newest,
            },
        )
    }

    /// Retention pruning: delete every non-pinned clip strictly older than
    /// the cutoff (by `updated_at`), cascade their tag associations away,
    /// and report how many clips were removed. Pinned clips are always kept,
    /// regardless of age.
    pub fn clear_older_than(&mut self, cutoff: i64) -> (r: Result<i64, CbError>)
        requires
            old(self).wf(),
        ensures
            final(self).wf(),
            r is Ok,
            final(self)@.rows == rows_retained(old(self)@.rows, cutoff as int),
            final(self)@.tags == tags_live(old(self)@.tags, final(self)@.rows),
            final(self)@.next_id == old(self)@.next_id,
            r->Ok_0 as int == old(self)@.rows.len() - final(self)@.rows.len(),
            forall|k: int|
                0 <= k < old(self)@.rows.len() && (#[trigger] old(self)@.rows[k]).pinned
                    ==> final(self)@.rows.contains(old(self)@.rows[k]),
            forall|k: int|
                0 <= k < final(self)@.rows.len() ==> ((#[trigger] final(self)@.rows[k]).pinned
                    || final(self)@.rows[k].updated_at >= cutoff as int),
    {
        let ghost olds = self@;
        proof {
            lemma_row_count_bound(olds);
        }
        let mut kept_rows: Vec<ClipRow> = Vec::new();
        let mut i: usize = 0;
        while i < self.rows.len()
            invariant
                olds.wf(),
                i <= self@.rows.len(),
                self@.rows.len() == self.rows@.len(),
                self@ == olds,
                kept_rows@.len() <= i,
                kept_rows@.map_values(|x: ClipRow| x@) == rows_retained_upto(
                    olds.rows,
                    cutoff as int,
                    i as int,
                ),
                forall|j: int|
                    0 <= j < kept_rows@.len() ==> ((#[trigger] kept_rows@[j])@.pinned || kept_rows@[j]@.updated_at
                        >= cutoff as int),
                forall|j: int|
                    0 <= j < kept_rows@.len() ==> exists|k: int|
                        0 <= k < i && olds.rows[k] == (#[trigger] kept_rows@[j])@,
                forall|a: int, b: int|
                    0 <= a < b < kept_rows@.len() ==> (#[trigger] kept_rows@[a])@.id < (
                    #[trigger] kept_rows@[b])@.id,
            decreases self.rows@.len() - i,
        {
            let ghost prev = kept_rows@;
            let ghost prevm = kept_rows@.map_values(|x: ClipRow| x@);
            proof {
                assert(self.rows@[i as int]@ == olds.rows[i as int]);
            }
            if self.rows[i].pinned || self.rows[i].updated_at >= cutoff {
                let rr = &self.rows[i];
                kept_rows.push(
                    ClipRow {
                        id: rr.id,
                        content_type: rr.content_type,
                        text_content: clone_opt_string(&rr.text_content),
                        image_path: clone_opt_string(&rr.image_path),
                        image_width: rr.image_width,
                        image_height: rr.image_height,
                        hash: rr.hash.clone(),
                        size_bytes: rr.size_bytes,
                        pinned: rr.pinned,
                        created_at: rr.created_at,
                        updated_at: rr.updated_at,
                    },
                );
                proof {
                    assert(kept_rows@[prev.len() as int]@ == olds.rows[i as int]);
                    assert(kept_rows@.map_values(|x: ClipRow| x@) =~= prevm.push(
                        olds.rows[i as int],
                    ));
                    assert forall|a: int, b: int| 0 <= a < b < kept_rows@.len() implies (
                    #[trigger] kept_rows@[a])@.id < (#[trigger] kept_rows@[b])@.id by {
                        if b == kept_rows@.len() - 1 {
                            let k = choose|k: int|
                                0 <= k < i && olds.rows[k] == (#[trigger] prev[a])@;
                            assert(olds.rows[k].id < olds.rows[i as int].id);
                        }
                    }
                }
            }
            i = i + 1;
        }
        let removed = (self.rows.len() - kept_rows.len()) as i64;
        let ghost keptv = kept_rows@.map_values(|x: ClipRow| x@);

        let mut kept_tags: Vec<TagRow> = Vec::new();
        let mut j: usize = 0;
        while j < self.tags.len()
            invariant
                olds.wf(),
                j <= self@.tags.len(),
                self@.tags.len() == self.tags@.len(),
                self@.tags == olds.tags,
                keptv == kept_rows@.map_values(|x: ClipRow| x@),
                kept_tags@.map_values(|t: TagRow| t@) == tags_live_upto(
                    olds.tags,
                    keptv,
                    j as int,
                ),
                forall|x: int|
                    0 <= x < kept_tags@.len() ==> seq_has_id(
                        keptv,
                        (#[trigger] kept_tags@[x])@.clip_id,
                    ),
                forall|x: int|
                    0 <= x < kept_tags@.len() ==> exists|k: int|
                        0 <= k < j && olds.tags[k] == (#[trigger] kept_tags@[x])@,
                forall|a: int, b: int|
                    0 <= a < b < kept_tags@.len() ==> !((#[trigger] kept_tags@[a])@.clip_id == (
                    #[trigger] kept_tags@[b])@.clip_id && kept_tags@[a]@.tag == kept_tags@[b]@.tag),
            decreases self.tags@.len() - j,
        {
            let ghost prev = kept_tags@;
            let ghost prevm = kept_tags@.map_values(|t: TagRow| t@);
            proof {
                assert(self.tags@[j as int]@ == olds.tags[j as int]);
            }
            let alive = vec_has_id(&kept_rows, self.tags[j].clip_id);
            proof {
                if alive {
                    let k = choose|k: int|
                        0 <= k < kept_rows@.len() && (#[trigger] kept_rows@[k])@.id
                            == self.tags[j as int].clip_id as int;
                    assert(keptv[k].id == olds.tags[j as int].clip_id);
                } else {
                    if seq_has_id(keptv, olds.tags[j as int].clip_id) {
                        let k = choose|k: int|
                            0 <= k < keptv.len() && (#[trigger] keptv[k]).id
                                == olds.tags[j as int].clip_id;
                        assert(kept_rows@[k]@.id as int == self.tags[j as int].clip_id as int);
                    }
                }
                assert(alive == seq_has_id(keptv, olds.tags[j as int].clip_id));
            }
            if alive {
                kept_tags.push(
                    TagRow { clip_id: self.tags[j].clip_id, tag: self.tags[j].tag.clone() },
                );
                proof {
                    assert(kept_tags@[prev.len() as int]@ == olds.tags[j as int]);
                    assert(kept_tags@.map_values(|t: TagRow| t@) =~= prevm.push(
                        olds.tags[j as int],
                    ));
                    assert forall|a: int, b: int| 0 <= a < b < kept_tags@.len() implies !((
                    #[trigger] kept_tags@[a])@.clip_id == (#[trigger] kept_tags@[b])@.clip_id
                        && kept_tags@[a]@.tag == kept_tags@[b]@.tag) by {
                        if b == kept_tags@.len() - 1 {
                            let k = choose|k: int|
                                0 <= k < j && olds.tags[k] == (#[trigger] prev[a])@;
                            assert(!(olds.tags[k].clip_id == olds.tags[j as int].clip_id
                                && olds.tags[k].tag == olds.tags[j as int].tag));
                        }
                    }
                }
            }
            j = j + 1;
        }
        self.rows = kept_rows;
        self.tags = kept_tags;
        proof {
            let news = self@;
            assert(news.rows =~= keptv);
            assert(news.rows =~= rows_retained(olds.rows, cutoff as int));
            assert(news.tags =~= tags_live(olds.tags, keptv));
            assert(tags_live(olds.tags, news.rows) == tags_live(olds.tags, keptv));
            assert forall|k: int| 0 <= k < news.tags.len() implies news.has_id(
                (#[trigger] news.tags[k]).clip_id,
            ) by {
                assert(seq_has_id(keptv, news.tags[k].clip_id));
                let w = choose|w: int|
                    0 <= w < keptv.len() && (#[trigger] keptv[w]).id == news.tags[k].clip_id;
                assert(news.rows[w].id == news.tags[k].clip_id);
            }
            assert forall|k: int|
                0 <= k < news.rows.len() implies 1 <= (#[trigger] news.rows[k]).id
                < news.next_id by {
                let w = choose|w: int|
                    0 <= w < olds.rows.len() && olds.rows[w] == (#[trigger] keptv[k]);
                assert(1 <= olds.rows[w].id < olds.next_id);
            }
            assert forall|a: int, b: int|
                0 <= a < b < news.rows.len() implies (#[trigger] news.rows[a]).hash != (
            #[trigger] news.rows[b]).hash by {
                let ka = choose|k: int| 0 <= k < olds.rows.len() && olds.rows[k] == keptv[a];
                let kb = choose|k: int| 0 <= k < olds.rows.len() && olds.rows[k] == keptv[b];
                assert(news.rows[a].id != news.rows[b].id);
                assert(ka != kb);
            }
            assert forall|k: int|
                0 <= k < news.rows.len() implies (#[trigger] news.rows[k]).size_bytes >= 0 by {
                let w = choose|w: int|
                    0 <= w < olds.rows.len() && olds.rows[w] == (#[trigger] keptv[k]);
            }
            assert(news.wf());
            assert forall|k: int|
                0 <= k < olds.rows.len() && (#[trigger] olds.rows[k]).pinned implies news.rows.contains(
                olds.rows[k],
            ) by {
                lemma_retention_keeps_pinned(olds.rows, cutoff as int, olds.rows.len() as int, k);
            }
        }
        Ok(removed)
    }
}

fn vec_has_id(rows: &Vec<ClipRow>, id: i64) -> (r: bool)
    ensures
        r == exists|k: int| 0 <= k < rows@.len() && (#[trigger] rows@[k])@.id == id as int,
{
    let mut i: usize = 0;
    while i < rows.len()
        invariant
            i <= rows@.len(),
            forall|j: int| 0 <= j < i ==> (#[trigger] rows@[j])@.id != id as int,
        decreases rows@.len() - i,
    {
        if rows[i].id == id {
            assert(rows@[i as int]@.id == id as int);
            return true;
        }
        i = i + 1;
    }
    false
}

/// Every row whose id differs from the removed one survives the removal.
proof fn lemma_without_id_keeps(rows: Seq<ClipRowV>, id: int, n: int, w: int)
    requires
        0 <= w < n <= rows.len(),
        rows[w].id != id,
    ensures
        rows_without_id_upto(rows, id, n).contains(rows[w]),
    decreases n,
{
    if w == n - 1 {
        let s = rows_without_id_upto(rows, id, n);
        assert(s[s.len() - 1] == rows[w]);
    } else {
        lemma_without_id_keeps(rows, id, n - 1, w);
        let s0 = rows_without_id_upto(rows, id, n - 1);
        let k = choose|k: int| 0 <= k < s0.len() && s0[k] == rows[w];
        let s = rows_without_id_upto(rows, id, n);
        assert(s[k] == rows[w]);
    }
}

} // verus!
