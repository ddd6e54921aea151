use cb::errors::CbError;
use cb::fingerprint::hash_content;
use cb::models::{ClipFilter, ContentType, NewClip};
use cb::store::ClipStore;

const NOW: i64 = 1_000_000;

fn text_clip(content: &str) -> NewClip {
    NewClip {
        content_type: ContentType::Text,
        text_content: Some(content.to_string()),
        image_path: None,
        image_width: None,
        image_height: None,
        hash: hash_content(content.as_bytes()),
        size_bytes: content.len() as i64,
    }
}

#[test]
fn duplicate_hash_is_rejected() {
    let mut storage = ClipStore::new();
    storage.insert(text_clip("same"), NOW).unwrap();
    let second = storage.insert(text_clip("same"), NOW + 1);
    assert!(matches!(second, Err(CbError::Storage(_))));
    // Exactly one row carries the hash.
    let clips = storage.list(ClipFilter::default()).unwrap();
    assert_eq!(clips.len(), 1);
    assert_eq!(clips[0].hash, hash_content(b"same"));
}

#[test]
fn pin_exemption_scenario() {
    let mut storage = ClipStore::new();
    let a = storage.insert(text_clip("keep me"), NOW - 500).unwrap();
    let b = storage.insert(text_clip("drop me"), NOW - 500).unwrap();
    storage.set_pinned(a.id, true, NOW - 400).unwrap();

    let removed = storage.clear_older_than(NOW).unwrap();
    assert_eq!(removed, 1);

    let stats = storage.stats().unwrap();
    assert_eq!(stats.total_clips, 1);

    let clips = storage.list(ClipFilter::default()).unwrap();
    assert_eq!(clips.len(), 1);
    assert_eq!(clips[0].id, a.id);
    assert!(clips[0].pinned);
    assert!(matches!(storage.get_by_id(b.id), Err(CbError::NotFound(_))));
}

#[test]
fn three_records_filter_composition() {
    let mut storage = ClipStore::new();
    let x = storage.insert(text_clip("the one"), NOW).unwrap();
    let y = storage.insert(text_clip("text but unpinned"), NOW).unwrap();
    let z = storage
        .insert(
            NewClip {
                content_type: ContentType::Image,
                text_content: None,
                image_path: Some("/img.png".to_string()),
                image_width: Some(8),
                image_height: Some(8),
                hash: hash_content(b"an image"),
                size_bytes: 64,
            },
            NOW,
        )
        .unwrap();
    storage.set_pinned(x.id, true, NOW).unwrap();
    storage.add_tag(x.id, "work", NOW).unwrap();
    storage.add_tag(x.id, "extra", NOW).unwrap();
    storage.add_tag(y.id, "work", NOW).unwrap();
    storage.add_tag(z.id, "work", NOW).unwrap();
    storage.set_pinned(z.id, true, NOW).unwrap();

    let clips = storage
        .list(ClipFilter {
            content_type: Some(ContentType::Text),
            pinned: Some(true),
            tag: Some("work".to_string()),
            ..Default::default()
        })
        .unwrap();
    assert_eq!(clips.len(), 1);
    assert_eq!(clips[0].id, x.id);
    // The returned tag list reflects all of X's tags, not only the filtered one.
    let mut tags = clips[0].tags.clone();
    tags.sort();
    assert_eq!(tags, vec!["extra", "work"]);
}

#[test]
fn idempotent_tagging() {
    let mut storage = ClipStore::new();
    let clip = storage.insert(text_clip("tag twice"), NOW).unwrap();
    storage.add_tag(clip.id, "x", NOW).unwrap();
    storage.add_tag(clip.id, "x", NOW).unwrap();
    assert_eq!(storage.get_by_id(clip.id).unwrap().tags, vec!["x"]);
    assert!(storage.remove_tag(clip.id, "absent", NOW).is_ok());
    assert_eq!(storage.get_by_id(clip.id).unwrap().tags, vec!["x"]);
}

#[test]
fn tag_mutation_bumps_updated_at() {
    let mut storage = ClipStore::new();
    let clip = storage.insert(text_clip("age me"), NOW).unwrap();
    assert_eq!(clip.updated_at, NOW);

    // A new association advances the owning clip's timestamp.
    storage.add_tag(clip.id, "x", NOW + 10).unwrap();
    assert_eq!(storage.get_by_id(clip.id).unwrap().updated_at, NOW + 10);

    // The idempotent no-op changes nothing, the timestamp included.
    storage.add_tag(clip.id, "x", NOW + 20).unwrap();
    assert_eq!(storage.get_by_id(clip.id).unwrap().updated_at, NOW + 10);

    // An actual removal advances it again.
    storage.remove_tag(clip.id, "x", NOW + 30).unwrap();
    assert_eq!(storage.get_by_id(clip.id).unwrap().updated_at, NOW + 30);

    // Removing an absent pair changes nothing.
    storage.remove_tag(clip.id, "x", NOW + 40).unwrap();
    assert_eq!(storage.get_by_id(clip.id).unwrap().updated_at, NOW + 30);
}

#[test]
fn tagging_keeps_freshly_tagged_clips_from_pruning() {
    let mut storage = ClipStore::new();
    let clip = storage.insert(text_clip("old but just tagged"), NOW - 500).unwrap();
    storage.add_tag(clip.id, "keep", NOW).unwrap();
    // The tag mutation refreshed the clip, so pruning by the old cutoff
    // leaves it alone.
    let removed = storage.clear_older_than(NOW).unwrap();
    assert_eq!(removed, 0);
    assert!(storage.get_by_id(clip.id).is_ok());
}

#[test]
fn tagging_unknown_id_is_storage_error() {
    let mut storage = ClipStore::new();
    let r = storage.add_tag(42, "orphan", NOW);
    assert!(matches!(r, Err(CbError::Storage(_))));
}

#[test]
fn search_skips_pure_images() {
    let mut storage = ClipStore::new();
    storage
        .insert(
            NewClip {
                content_type: ContentType::Image,
                text_content: None,
                image_path: Some("/png.png".to_string()),
                image_width: Some(2),
                image_height: Some(2),
                hash: hash_content(b"png"),
                size_bytes: 16,
            },
            NOW,
        )
        .unwrap();
    let results = storage.search("png", 50).unwrap();
    assert!(results.is_empty());
}

#[test]
fn negative_search_limit_returns_everything() {
    let mut storage = ClipStore::new();
    for i in 0..4 {
        storage.insert(text_clip(&format!("note {}", i)), NOW).unwrap();
    }
    let results = storage.search("note", -1).unwrap();
    assert_eq!(results.len(), 4);
}

#[test]
fn stats_totals_and_span() {
    let mut storage = ClipStore::new();
    storage.insert(text_clip("aa"), 100).unwrap();
    storage.insert(text_clip("bbbb"), 300).unwrap();
    storage.insert(text_clip("c"), 200).unwrap();
    let stats = storage.stats().unwrap();
    assert_eq!(stats.total_clips, 3);
    assert_eq!(stats.text_clips, 3);
    assert_eq!(stats.image_clips, 0);
    assert_eq!(stats.fileref_clips, 0);
    assert_eq!(stats.total_size, 7);
    assert_eq!(stats.oldest, Some(100));
    assert_eq!(stats.newest, Some(300));
}

#[test]
fn stats_size_overflow_is_storage_error() {
    let mut storage = ClipStore::new();
    let mut huge = text_clip("huge");
    huge.size_bytes = i64::MAX;
    storage.insert(huge, NOW).unwrap();
    let mut more = text_clip("more");
    more.size_bytes = 2;
    storage.insert(more, NOW).unwrap();
    assert!(matches!(storage.stats(), Err(CbError::Storage(_))));
}

#[test]
fn list_offset_beyond_end_is_empty() {
    let mut storage = ClipStore::new();
    storage.insert(text_clip("only"), NOW).unwrap();
    let clips = storage
        .list(ClipFilter { offset: 5, ..Default::default() })
        .unwrap();
    assert!(clips.is_empty());
}
