use cb::models::{ClipFilter, ContentType};
use cb::query::{list_query, SqlParam};

#[test]
fn list_query_binds_tag_before_where_params() {
    let q = list_query(&ClipFilter {
        content_type: Some(ContentType::Text),
        pinned: Some(true),
        tag: Some("work".to_string()),
        limit: 7,
        offset: 2,
    });
    assert!(q.sql.contains("INNER JOIN tags t1 ON t1.clip_id = clips.id AND t1.tag = ?"));
    assert!(q.sql.contains(" WHERE clips.content_type = ? AND clips.pinned = ?"));
    assert_eq!(q.params.len(), 5);
    assert!(matches!(&q.params[0], SqlParam::Text(t) if t == "work"));
    assert!(matches!(&q.params[1], SqlParam::Text(t) if t == "text"));
    assert!(matches!(q.params[2], SqlParam::Int(1)));
    assert!(matches!(q.params[3], SqlParam::Int(7)));
    assert!(matches!(q.params[4], SqlParam::Int(2)));
}

#[test]
fn list_query_without_constraints() {
    let q = list_query(&ClipFilter::default());
    assert!(q.sql.starts_with("SELECT clips.id"));
    assert!(!q.sql.contains("WHERE"));
    assert!(q.sql.ends_with(" GROUP BY clips.id ORDER BY clips.id DESC LIMIT ? OFFSET ?"));
    assert_eq!(q.params.len(), 2);
    assert!(matches!(q.params[0], SqlParam::Int(50)));
    assert!(matches!(q.params[1], SqlParam::Int(0)));
}
