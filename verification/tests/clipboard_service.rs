use cross_platform_clipboard::application::{ClipboardService, ServiceError};
use cross_platform_clipboard::hashing::content_hash;
use cross_platform_clipboard::history::{ClipboardHistory, HistoryError};

fn service() -> ClipboardService {
    ClipboardService::new(ClipboardHistory::new())
}

/// The history as it is read back after the application restarts.
fn reopen(service: &ClipboardService) -> ClipboardHistory {
    let history = service.history();
    ClipboardHistory::from_entries(history.list_recent(1000).unwrap(), history.last_assigned_id())
        .unwrap()
}

#[test]
fn copied_text_reaches_the_history_and_whitespace_is_ignored() {
    let mut service = service();

    service.record_text("  texte utile  ", 1).unwrap();
    service.record_text("   \n\t", 2).unwrap();

    let entries = service.recent_entries(10).unwrap();
    assert_eq!(entries.len(), 1);
    assert_eq!(entries[0].text.as_deref(), Some("texte utile"));
}

#[test]
fn user_can_find_a_copied_text_after_restarting_the_application() {
    let mut service = service();
    service.record_text("adresse à conserver", 1).unwrap();

    let reopened = reopen(&service);
    let entries = reopened.list_recent(10).unwrap();
    assert_eq!(entries[0].text.as_deref(), Some("adresse à conserver"));
}

#[test]
fn user_can_find_a_copied_image_after_restarting_the_application() {
    let mut service = service();
    service.record_rgba_image(vec![10, 20, 30, 255], 1, 1, 1).unwrap();

    let reopened = reopen(&service);
    let image = reopened.list_recent(10).unwrap()[0].image.clone().unwrap();
    assert_eq!(image.rgba, vec![10, 20, 30, 255]);
}

#[test]
fn the_same_text_is_recorded_once() {
    let mut service = service();
    let first = service.record_text("bonjour", 1).unwrap();
    assert!(first.is_some());
    let again = service.record_text("  bonjour\n", 2).unwrap();
    assert!(again.is_none());
    let entries = service.recent_entries(10).unwrap();
    assert_eq!(entries.len(), 1);
    assert_eq!(entries[0].content_hash, content_hash(b"bonjour"));
}

#[test]
fn a_recorded_text_comes_first() {
    let mut service = service();
    service.record_text("un", 1).unwrap();
    let inserted = service.record_text("deux", 2).unwrap().unwrap();
    let first = &service.recent_entries(1).unwrap()[0];
    assert_eq!(first.id, inserted.id);
    assert_eq!(first.text.as_deref(), Some("deux"));
    assert!(!first.pinned);
}

#[test]
fn image_sizes_are_checked_after_the_duplicate_check() {
    let mut service = service();
    assert_eq!(
        service.record_rgba_image(vec![1, 2, 3], 1, 1, 1).unwrap_err(),
        ServiceError::ImageSizeMismatch
    );
    assert_eq!(
        service.record_rgba_image(vec![], u32::MAX, u32::MAX, 1).unwrap_err(),
        ServiceError::ImageTooLarge
    );
    assert!(service.record_rgba_image(vec![1, 2, 3, 4], 1, 1, 1).unwrap().is_some());
    assert!(service.record_rgba_image(vec![1, 2, 3, 4], 1, 1, 2).unwrap().is_none());
    assert!(service.record_rgba_image(vec![1, 2, 3, 4, 5, 6, 7, 8], 2, 1, 3).unwrap().is_some());
    assert_eq!(service.recent_entries(10).unwrap().len(), 2);
}

#[test]
fn pins_deletes_and_clears_go_through_the_service() {
    let mut service = service();
    service.record_text("a", 1).unwrap();
    service.record_text("b", 2).unwrap();
    service.record_text("c", 3).unwrap();
    service.toggle_pinned(1);
    service.delete_entry(3);
    service.clear_unpinned();
    let entries = service.recent_entries(10).unwrap();
    assert_eq!(entries.len(), 1);
    assert_eq!(entries[0].text.as_deref(), Some("a"));
}

#[test]
fn errors_have_messages() {
    assert_eq!(
        ServiceError::ImageTooLarge.message(),
        "clipboard image dimensions are too large"
    );
    assert_eq!(
        ServiceError::ImageSizeMismatch.message(),
        "clipboard image dimensions do not match its pixels"
    );
    assert_eq!(
        ServiceError::History(HistoryError::LimitTooLarge).message(),
        "limit is too large for SQLite"
    );
}
