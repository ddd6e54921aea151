use cb::config::AppPaths;
use cb::daemon::{parse_pid, pid_file_status, DaemonState};
use cb::models::{ClipFilter, ContentType};
use cb::pipeline::{clipboard_content_to_new_clip, ClipboardContent};
use cb::text::truncate_chars;

#[test]
fn test_clipboard_content_to_new_clip_text() {
    let content = ClipboardContent {
        content_type: ContentType::Text,
        text: Some("hello".to_string()),
        image_data: None,
        width: None,
        height: None,
        hash: "abc123".to_string(),
        size_bytes: 5,
    };
    let clip = clipboard_content_to_new_clip(content, None);
    assert_eq!(clip.content_type, ContentType::Text);
    assert_eq!(clip.text_content.as_deref(), Some("hello"));
    assert_eq!(clip.hash, "abc123");
    assert!(clip.image_path.is_none());
}

#[test]
fn test_clipboard_content_to_new_clip_image() {
    let content = ClipboardContent {
        content_type: ContentType::Image,
        text: None,
        image_data: Some(vec![0u8; 100]),
        width: Some(10),
        height: Some(10),
        hash: "img_hash".to_string(),
        size_bytes: 100,
    };
    let clip = clipboard_content_to_new_clip(content, Some("/images/test.png".to_string()));
    assert_eq!(clip.content_type, ContentType::Image);
    assert_eq!(clip.image_path.as_deref(), Some("/images/test.png"));
    assert_eq!(clip.image_width, Some(10));
}

#[test]
fn test_from_base() {
    let paths = AppPaths::from_base("/tmp/test-cb".to_string());
    assert_eq!(paths.base_dir, "/tmp/test-cb");
    assert_eq!(paths.db_path, "/tmp/test-cb/cb.db");
    assert_eq!(paths.images_dir, "/tmp/test-cb/images");
    assert_eq!(paths.pid_file, "/tmp/test-cb/cb.pid");
    assert_eq!(paths.log_file, "/tmp/test-cb/cb.log");
}

#[test]
fn content_type_tokens_round_trip() {
    assert_eq!(ContentType::Text.as_str(), "text");
    assert_eq!(ContentType::Image.as_str(), "image");
    assert_eq!(ContentType::FileRef.as_str(), "fileref");
    assert_eq!(ContentType::parse("text"), Some(ContentType::Text));
    assert_eq!(ContentType::parse("image"), Some(ContentType::Image));
    assert_eq!(ContentType::parse("fileref"), Some(ContentType::FileRef));
    assert_eq!(ContentType::parse("TEXT"), None);
    assert_eq!(ContentType::parse(""), None);
    assert_eq!(ContentType::parse("gif"), None);
}

#[test]
fn effective_limit_normalizes() {
    assert_eq!(ClipFilter { limit: 0, ..Default::default() }.effective_limit(), 50);
    assert_eq!(ClipFilter { limit: -5, ..Default::default() }.effective_limit(), 50);
    assert_eq!(ClipFilter { limit: 7, ..Default::default() }.effective_limit(), 7);
}

#[test]
fn content_type_lenient_decode_falls_back_to_text() {
    assert_eq!(ContentType::parse_lenient("image"), ContentType::Image);
    assert_eq!(ContentType::parse_lenient("fileref"), ContentType::FileRef);
    assert_eq!(ContentType::parse_lenient("gif"), ContentType::Text);
    assert_eq!(ContentType::parse_lenient(""), ContentType::Text);
}

#[test]
fn parse_pid_reads_pid_file_text() {
    assert_eq!(parse_pid("1234"), Some(1234));
    assert_eq!(parse_pid("  1234\n"), Some(1234));
    assert_eq!(parse_pid("+7"), Some(7));
    assert_eq!(parse_pid("0"), Some(0));
    assert_eq!(parse_pid("4294967295"), Some(u32::MAX));
    assert_eq!(parse_pid("4294967296"), None);
    assert_eq!(parse_pid("99999999999999999999"), None);
    assert_eq!(parse_pid(""), None);
    assert_eq!(parse_pid("   "), None);
    assert_eq!(parse_pid("+"), None);
    assert_eq!(parse_pid("12a4"), None);
    assert_eq!(parse_pid("-5"), None);
}

#[test]
fn pid_file_status_decision() {
    assert_eq!(pid_file_status(Some(42), true), DaemonState::Running(42));
    assert_eq!(pid_file_status(Some(42), false), DaemonState::Stale);
    assert_eq!(pid_file_status(None, false), DaemonState::Absent);
}

#[test]
fn truncate_chars_cuts_with_ellipsis() {
    assert_eq!(truncate_chars("short", 10), "short");
    assert_eq!(truncate_chars("exactly", 7), "exactly");
    assert_eq!(truncate_chars("a longer line", 6), "a long…");
    assert_eq!(truncate_chars("", 0), "");
}
