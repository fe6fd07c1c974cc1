use cross_platform_clipboard::domain::{ClipboardEntry, EntryKind, RowError};
use rusqlite::Connection;

fn entry_from_sql(select: &str) -> Result<ClipboardEntry, RowError> {
    let connection = Connection::open_in_memory().unwrap();
    connection
        .query_row(select, [], |row| {
            Ok(ClipboardEntry::from_columns(
                row.get(0)?,
                &row.get::<_, String>(1)?,
                row.get(2)?,
                row.get(3)?,
                row.get(4)?,
                row.get(5)?,
                row.get(6)?,
                row.get(7)?,
                row.get(8)?,
            ))
        })
        .unwrap()
}

#[test]
fn parses_a_text_entry_from_sqlite() {
    let entry =
        entry_from_sql("SELECT 1, 'text', 'bonjour', NULL, NULL, NULL, 'hash', 0, 123").unwrap();

    assert_eq!(entry.kind, EntryKind::Text);
    assert_eq!(entry.text.as_deref(), Some("bonjour"));
    assert!(!entry.pinned);
}

#[test]
fn parses_an_image_entry_only_with_positive_sides() {
    let entry = ClipboardEntry::from_columns(
        7,
        "image",
        None,
        Some(vec![1, 2, 3, 4]),
        Some(1),
        Some(1),
        "h".to_string(),
        5,
        9,
    )
    .unwrap();
    assert_eq!(entry.kind, EntryKind::Image);
    assert_eq!(entry.image.as_ref().unwrap().rgba, vec![1, 2, 3, 4]);
    assert!(entry.pinned);
    assert_eq!((entry.id, entry.created_at), (7, 9));

    let flat = ClipboardEntry::from_columns(
        8,
        "image",
        None,
        Some(vec![1, 2, 3, 4]),
        Some(0),
        Some(1),
        "h".to_string(),
        0,
        9,
    )
    .unwrap();
    assert!(flat.image.is_none());

    let missing =
        ClipboardEntry::from_columns(9, "image", None, None, Some(1), Some(1), "h".to_string(), 0, 9)
            .unwrap();
    assert!(missing.image.is_none());
}

#[test]
fn refuses_an_unknown_content_type() {
    assert_eq!(
        entry_from_sql("SELECT 1, 'file', NULL, NULL, NULL, NULL, 'hash', 0, 1").unwrap_err(),
        RowError::UnknownContentType
    );
}

#[test]
fn kinds_have_labels() {
    assert_eq!(EntryKind::Text.label(), "Text");
    assert_eq!(EntryKind::Image.label(), "Image");
}
