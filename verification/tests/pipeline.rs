use cb::fingerprint::hash_content;
use cb::models::{ClipFilter, ContentType};
use cb::pipeline::{poll_once, record_image, PollOutcome};
use cb::store::ClipStore;

const NOW: i64 = 1_000_000;

fn text_snapshot(text: &str) -> cb::pipeline::ClipboardContent {
    cb::pipeline::ClipboardContent {
        content_type: ContentType::Text,
        text: Some(text.to_string()),
        image_data: None,
        width: None,
        height: None,
        hash: hash_content(text.as_bytes()),
        size_bytes: text.len() as i64,
    }
}

fn image_snapshot(bytes: Vec<u8>, w: i32, h: i32) -> cb::pipeline::ClipboardContent {
    let hash = hash_content(&bytes);
    let size = bytes.len() as i64;
    cb::pipeline::ClipboardContent {
        content_type: ContentType::Image,
        text: None,
        image_data: Some(bytes),
        width: Some(w),
        height: Some(h),
        hash,
        size_bytes: size,
    }
}

#[test]
fn dedup_pipeline_scenario() {
    let mut store = ClipStore::new();
    let mut last_hash: Option<String> = None;

    // Tick 1: "hello" is new content and becomes one clip.
    let r1 = poll_once(&mut store, "/imgs", &mut last_hash, Some(text_snapshot("hello")), NOW)
        .unwrap();
    let clip = match r1 {
        PollOutcome::Inserted(c) => c,
        other => panic!("expected an insert, got {:?}", other),
    };
    assert_eq!(clip.size_bytes, 5);
    assert_eq!(clip.hash, hash_content(b"hello"));
    assert_eq!(store.list(ClipFilter::default()).unwrap().len(), 1);

    // Tick 2: "hello" again; the in-memory fast path skips it.
    let r2 = poll_once(&mut store, "/imgs", &mut last_hash, Some(text_snapshot("hello")), NOW + 1)
        .unwrap();
    assert!(matches!(r2, PollOutcome::Unchanged));
    assert_eq!(store.list(ClipFilter::default()).unwrap().len(), 1);

    // Tick 3: "world" is new again and becomes a second clip.
    let r3 = poll_once(&mut store, "/imgs", &mut last_hash, Some(text_snapshot("world")), NOW + 2)
        .unwrap();
    assert!(matches!(r3, PollOutcome::Inserted(_)));
    assert_eq!(store.list(ClipFilter::default()).unwrap().len(), 2);
}

#[test]
fn empty_clipboard_does_nothing() {
    let mut store = ClipStore::new();
    let mut last_hash: Option<String> = None;
    let r = poll_once(&mut store, "/imgs", &mut last_hash, None, NOW).unwrap();
    assert!(matches!(r, PollOutcome::NoContent));
    assert!(last_hash.is_none());
    assert_eq!(store.list(ClipFilter::default()).unwrap().len(), 0);
}

#[test]
fn known_content_only_refreshes_state() {
    let mut store = ClipStore::new();
    let mut last_hash: Option<String> = None;
    poll_once(&mut store, "/imgs", &mut last_hash, Some(text_snapshot("hello")), NOW).unwrap();

    // A fresh pipeline (after a restart) sees the same content: the store
    // check catches it, no new row appears, the existing row is untouched.
    let mut restarted: Option<String> = None;
    let r = poll_once(&mut store, "/imgs", &mut restarted, Some(text_snapshot("hello")), NOW + 5)
        .unwrap();
    assert!(matches!(r, PollOutcome::AlreadyStored));
    assert_eq!(restarted, Some(hash_content(b"hello")));
    let clips = store.list(ClipFilter::default()).unwrap();
    assert_eq!(clips.len(), 1);
    assert_eq!(clips[0].updated_at, NOW);
}

#[test]
fn image_side_file_then_insert() {
    let mut store = ClipStore::new();
    let mut last_hash: Option<String> = None;
    let snap = image_snapshot(vec![7u8; 64], 4, 4);
    let hash = snap.hash.clone();

    let r = poll_once(&mut store, "/imgs", &mut last_hash, Some(snap), NOW).unwrap();
    let path = match r {
        PollOutcome::NeedsSideFile(p) => p,
        other => panic!("expected a side-file request, got {:?}", other),
    };
    assert_eq!(path, format!("/imgs/{}.png", &hash[..16]));
    // Nothing is persisted until the side file exists.
    assert_eq!(store.list(ClipFilter::default()).unwrap().len(), 0);
    assert!(last_hash.is_none());

    let snap = image_snapshot(vec![7u8; 64], 4, 4);
    let clip = record_image(&mut store, &mut last_hash, snap, path.clone(), NOW).unwrap();
    assert_eq!(clip.content_type, ContentType::Image);
    assert_eq!(clip.image_path.as_deref(), Some(path.as_str()));
    assert_eq!(clip.image_width, Some(4));
    assert_eq!(last_hash, Some(hash));
    assert_eq!(store.list(ClipFilter::default()).unwrap().len(), 1);
}
