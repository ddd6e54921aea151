use cb::errors::CbError;
use cb::fingerprint::hash_content;
use cb::models::{ClipFilter, ContentType, NewClip};
use cb::store::ClipStore;

const NOW: i64 = 1_000_000;

fn test_storage() -> ClipStore {
    ClipStore::new()
}

fn text_clip(content: &str) -> NewClip {
    NewClip {
        content_type: ContentType::Text,
        text_content: Some(content.to_string()),
        image_path: None,
        image_width: None,
        image_height: None,
        hash: hash_content(content.as_bytes()),
        size_bytes: content.len() as i64,
    }
}

fn image_clip(path: &str, w: i32, h: i32) -> NewClip {
    let hash_input = format!("{}:{}x{}", path, w, h);
    NewClip {
        content_type: ContentType::Image,
        text_content: None,
        image_path: Some(path.to_string()),
        image_width: Some(w),
        image_height: Some(h),
        hash: hash_content(hash_input.as_bytes()),
        size_bytes: 1024,
    }
}

// --- Insert ---

#[test]
fn test_insert_text_clip() {
    let mut storage = test_storage();
    let clip = storage.insert(text_clip("hello world"), NOW).unwrap();
    assert_eq!(clip.content_type, ContentType::Text);
    assert_eq!(clip.text_content.as_deref(), Some("hello world"));
    assert_eq!(clip.size_bytes, 11);
    assert!(!clip.pinned);
    assert!(clip.tags.is_empty());
}

#[test]
fn test_insert_image_clip() {
    let mut storage = test_storage();
    let clip = storage.insert(image_clip("/tmp/img.png", 800, 600), NOW).unwrap();
    assert_eq!(clip.content_type, ContentType::Image);
    assert_eq!(clip.image_path.as_deref(), Some("/tmp/img.png"));
    assert_eq!(clip.image_width, Some(800));
    assert_eq!(clip.image_height, Some(600));
}

#[test]
fn test_insert_returns_incrementing_ids() {
    let mut storage = test_storage();
    let c1 = storage.insert(text_clip("first"), NOW).unwrap();
    let c2 = storage.insert(text_clip("second"), NOW).unwrap();
    let c3 = storage.insert(text_clip("third"), NOW).unwrap();
    assert_eq!(c1.id, 1);
    assert_eq!(c2.id, 2);
    assert_eq!(c3.id, 3);
}

// --- Get ---

#[test]
fn test_get_by_id() {
    let mut storage = test_storage();
    let inserted = storage.insert(text_clip("find me"), NOW).unwrap();
    let found = storage.get_by_id(inserted.id).unwrap();
    assert_eq!(found.id, inserted.id);
    assert_eq!(found.text_content.as_deref(), Some("find me"));
}

#[test]
fn test_get_by_id_not_found() {
    let storage = test_storage();
    let result = storage.get_by_id(999);
    assert!(matches!(result, Err(CbError::NotFound(_))));
}

// --- List ---

#[test]
fn test_list_empty() {
    let storage = test_storage();
    let clips = storage.list(ClipFilter::default()).unwrap();
    assert!(clips.is_empty());
}

#[test]
fn test_list_returns_clips() {
    let mut storage = test_storage();
    storage.insert(text_clip("one"), NOW).unwrap();
    storage.insert(text_clip("two"), NOW).unwrap();
    let clips = storage.list(ClipFilter::default()).unwrap();
    assert_eq!(clips.len(), 2);
}

#[test]
fn test_list_with_limit() {
    let mut storage = test_storage();
    for i in 0..5 {
        storage.insert(text_clip(&format!("clip {}", i)), NOW).unwrap();
    }
    let clips = storage
        .list(ClipFilter { limit: 3, ..Default::default() })
        .unwrap();
    assert_eq!(clips.len(), 3);
}

#[test]
fn test_list_with_offset() {
    let mut storage = test_storage();
    for i in 0..5 {
        storage.insert(text_clip(&format!("clip {}", i)), NOW).unwrap();
    }
    let clips = storage
        .list(ClipFilter { limit: 2, offset: 3, ..Default::default() })
        .unwrap();
    assert_eq!(clips.len(), 2);
}

#[test]
fn test_list_filter_by_type() {
    let mut storage = test_storage();
    storage.insert(text_clip("text"), NOW).unwrap();
    storage.insert(image_clip("/img.png", 100, 100), NOW).unwrap();
    let clips = storage
        .list(ClipFilter { content_type: Some(ContentType::Text), ..Default::default() })
        .unwrap();
    assert_eq!(clips.len(), 1);
    assert_eq!(clips[0].content_type, ContentType::Text);
}

#[test]
fn test_list_filter_by_pinned() {
    let mut storage = test_storage();
    let c1 = storage.insert(text_clip("pinned"), NOW).unwrap();
    storage.insert(text_clip("not pinned"), NOW).unwrap();
    storage.set_pinned(c1.id, true, NOW).unwrap();
    let clips = storage
        .list(ClipFilter { pinned: Some(true), ..Default::default() })
        .unwrap();
    assert_eq!(clips.len(), 1);
    assert!(clips[0].pinned);
}

#[test]
fn test_list_filter_by_tag() {
    let mut storage = test_storage();
    let c1 = storage.insert(text_clip("tagged"), NOW).unwrap();
    storage.insert(text_clip("untagged"), NOW).unwrap();
    storage.add_tag(c1.id, "important", NOW).unwrap();
    let clips = storage
        .list(ClipFilter { tag: Some("important".to_string()), ..Default::default() })
        .unwrap();
    assert_eq!(clips.len(), 1);
    assert_eq!(clips[0].text_content.as_deref(), Some("tagged"));
}

#[test]
fn test_list_order_desc() {
    let mut storage = test_storage();
    storage.insert(text_clip("first"), NOW).unwrap();
    storage.insert(text_clip("second"), NOW).unwrap();
    let clips = storage.list(ClipFilter::default()).unwrap();
    assert!(clips[0].id > clips[1].id);
}

// --- Search ---

#[test]
fn test_search_finds_match() {
    let mut storage = test_storage();
    storage.insert(text_clip("hello world"), NOW).unwrap();
    storage.insert(text_clip("goodbye world"), NOW).unwrap();
    let results = storage.search("hello", 50).unwrap();
    assert_eq!(results.len(), 1);
    assert_eq!(results[0].text_content.as_deref(), Some("hello world"));
}

#[test]
fn test_search_no_results() {
    let mut storage = test_storage();
    storage.insert(text_clip("hello"), NOW).unwrap();
    let results = storage.search("xyz", 50).unwrap();
    assert!(results.is_empty());
}

#[test]
fn test_search_case_insensitive() {
    let mut storage = test_storage();
    storage.insert(text_clip("Hello World"), NOW).unwrap();
    let results = storage.search("hello", 50).unwrap();
    assert_eq!(results.len(), 1);
}

#[test]
fn test_search_respects_limit() {
    let mut storage = test_storage();
    for i in 0..5 {
        storage.insert(text_clip(&format!("match {}", i)), NOW).unwrap();
    }
    let results = storage.search("match", 3).unwrap();
    assert_eq!(results.len(), 3);
}

// --- Delete ---

#[test]
fn test_delete_existing() {
    let mut storage = test_storage();
    let clip = storage.insert(text_clip("delete me"), NOW).unwrap();
    let deleted = storage.delete(clip.id).unwrap();
    assert!(deleted);
    assert!(matches!(storage.get_by_id(clip.id), Err(CbError::NotFound(_))));
}

#[test]
fn test_delete_nonexistent() {
    let mut storage = test_storage();
    let deleted = storage.delete(999).unwrap();
    assert!(!deleted);
}

#[test]
fn test_delete_cascades_tags() {
    let mut storage = test_storage();
    let clip = storage.insert(text_clip("tagged"), NOW).unwrap();
    storage.add_tag(clip.id, "tag1", NOW).unwrap();
    storage.delete(clip.id).unwrap();
    let tag_count = storage.tags_for(clip.id).len();
    assert_eq!(tag_count, 0);
}

// --- Hash ---

#[test]
fn test_find_by_hash_found() {
    let mut storage = test_storage();
    let clip = storage.insert(text_clip("unique"), NOW).unwrap();
    let found = storage.find_by_hash(&clip.hash).unwrap();
    assert!(found.is_some());
    assert_eq!(found.unwrap().id, clip.id);
}

#[test]
fn test_find_by_hash_not_found() {
    let storage = test_storage();
    let found = storage.find_by_hash("nonexistent_hash").unwrap();
    assert!(found.is_none());
}

// --- Tags ---

#[test]
fn test_add_tag() {
    let mut storage = test_storage();
    let clip = storage.insert(text_clip("taggable"), NOW).unwrap();
    storage.add_tag(clip.id, "work", NOW).unwrap();
    let fetched = storage.get_by_id(clip.id).unwrap();
    assert_eq!(fetched.tags, vec!["work"]);
}

#[test]
fn test_add_multiple_tags() {
    let mut storage = test_storage();
    let clip = storage.insert(text_clip("multi-tag"), NOW).unwrap();
    storage.add_tag(clip.id, "alpha", NOW).unwrap();
    storage.add_tag(clip.id, "beta", NOW).unwrap();
    let fetched = storage.get_by_id(clip.id).unwrap();
    let mut tags = fetched.tags.clone();
    tags.sort();
    assert_eq!(tags, vec!["alpha", "beta"]);
}

#[test]
fn test_add_duplicate_tag() {
    let mut storage = test_storage();
    let clip = storage.insert(text_clip("dup tag"), NOW).unwrap();
    storage.add_tag(clip.id, "same", NOW).unwrap();
    storage.add_tag(clip.id, "same", NOW).unwrap();
    let fetched = storage.get_by_id(clip.id).unwrap();
    assert_eq!(fetched.tags, vec!["same"]);
}

#[test]
fn test_remove_tag() {
    let mut storage = test_storage();
    let clip = storage.insert(text_clip("removable tag"), NOW).unwrap();
    storage.add_tag(clip.id, "temp", NOW).unwrap();
    storage.remove_tag(clip.id, "temp", NOW).unwrap();
    let fetched = storage.get_by_id(clip.id).unwrap();
    assert!(fetched.tags.is_empty());
}

#[test]
fn test_remove_nonexistent_tag() {
    let mut storage = test_storage();
    let clip = storage.insert(text_clip("no tags"), NOW).unwrap();
    let result = storage.remove_tag(clip.id, "ghost", NOW);
    assert!(result.is_ok());
}

// --- Pin ---

#[test]
fn test_set_pinned_true() {
    let mut storage = test_storage();
    let clip = storage.insert(text_clip("pin me"), NOW).unwrap();
    storage.set_pinned(clip.id, true, NOW).unwrap();
    let fetched = storage.get_by_id(clip.id).unwrap();
    assert!(fetched.pinned);
}

#[test]
fn test_set_pinned_false() {
    let mut storage = test_storage();
    let clip = storage.insert(text_clip("unpin me"), NOW).unwrap();
    storage.set_pinned(clip.id, true, NOW).unwrap();
    storage.set_pinned(clip.id, false, NOW).unwrap();
    let fetched = storage.get_by_id(clip.id).unwrap();
    assert!(!fetched.pinned);
}

// --- Clear ---

#[test]
fn test_clear_older_than() {
    let mut storage = test_storage();
    storage.insert(text_clip("old"), NOW).unwrap();
    storage.insert(text_clip("also old"), NOW).unwrap();
    let cutoff = NOW + 1;
    let removed = storage.clear_older_than(cutoff).unwrap();
    assert_eq!(removed, 2);
    let clips = storage.list(ClipFilter::default()).unwrap();
    assert!(clips.is_empty());
}

#[test]
fn test_clear_older_than_skips_pinned() {
    let mut storage = test_storage();
    let clip = storage.insert(text_clip("pinned old"), NOW).unwrap();
    storage.set_pinned(clip.id, true, NOW).unwrap();
    storage.insert(text_clip("unpinned old"), NOW).unwrap();
    let cutoff = NOW + 1;
    let removed = storage.clear_older_than(cutoff).unwrap();
    assert_eq!(removed, 1);
    let clips = storage.list(ClipFilter::default()).unwrap();
    assert_eq!(clips.len(), 1);
    assert!(clips[0].pinned);
}

// --- Stats ---

#[test]
fn test_stats_empty() {
    let storage = test_storage();
    let stats = storage.stats().unwrap();
    assert_eq!(stats.total_clips, 0);
    assert_eq!(stats.text_clips, 0);
    assert_eq!(stats.image_clips, 0);
    assert_eq!(stats.total_size, 0);
    assert!(stats.oldest.is_none());
    assert!(stats.newest.is_none());
}

#[test]
fn test_stats_counts() {
    let mut storage = test_storage();
    storage.insert(text_clip("text1"), NOW).unwrap();
    storage.insert(text_clip("text2"), NOW).unwrap();
    storage.insert(image_clip("/img.png", 100, 100), NOW).unwrap();
    let stats = storage.stats().unwrap();
    assert_eq!(stats.total_clips, 3);
    assert_eq!(stats.text_clips, 2);
    assert_eq!(stats.image_clips, 1);
    assert!(stats.oldest.is_some());
    assert!(stats.newest.is_some());
}

// --- Touch ---

#[test]
fn test_touch_updates_timestamp() {
    let mut storage = test_storage();
    let clip = storage.insert(text_clip("touch me"), NOW).unwrap();
    let original_updated = clip.updated_at;
    storage.touch(clip.id, NOW + 10).unwrap();
    let fetched = storage.get_by_id(clip.id).unwrap();
    assert!(fetched.updated_at >= original_updated);
}

#[test]
fn test_touch_nonexistent() {
    let mut storage = test_storage();
    let result = storage.touch(999, NOW);
    assert!(matches!(result, Err(CbError::NotFound(_))));
}
