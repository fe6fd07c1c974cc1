use cross_platform_clipboard::history::ClipboardHistory;
use cross_platform_clipboard::settings::{default_start_at_login, Settings};
use cross_platform_clipboard::ui::{
    autostart_saved_message, empty_message, heading, nav_aria_current, nav_class, pin_label,
    visible_entries, Notifications, Page,
};

#[test]
fn the_pinned_page_lists_pinned_entries_only() {
    let mut history = ClipboardHistory::new();
    history.insert_text("a", "ha", 1).unwrap();
    history.insert_text("b", "hb", 2).unwrap();
    history.toggle_pinned(1);
    let entries = history.list_recent(10).unwrap();
    let pinned = visible_entries(Page::Pinned, &entries);
    assert_eq!(pinned.len(), 1);
    assert_eq!(pinned[0].text.as_deref(), Some("a"));
    assert_eq!(visible_entries(Page::History, &entries).len(), 2);
}

#[test]
fn page_texts() {
    assert_eq!(heading(Page::Pinned), "Pinned items");
    assert_eq!(heading(Page::History), "History");
    assert_eq!(empty_message(Page::Pinned), "No pinned items yet.");
    assert_eq!(empty_message(Page::History), "Just copy with Ctrl + C or Cmd + C");
    assert_eq!(nav_class(Page::Settings, Page::Settings), "nav-button active");
    assert_eq!(nav_class(Page::History, Page::Settings), "nav-button");
    assert_eq!(nav_aria_current(Page::History, Page::History), "page");
    assert_eq!(nav_aria_current(Page::Pinned, Page::History), "false");
    assert_eq!(pin_label(true), "Unpin");
    assert_eq!(pin_label(false), "Pin");
    assert_eq!(autostart_saved_message(true), "Autostart enabled");
    assert_eq!(autostart_saved_message(false), "Autostart disabled");
}

#[test]
fn a_notification_is_cleared_only_by_its_own_timer() {
    let mut notes = Notifications::new();
    let first = notes.show("Text copied".to_string());
    let second = notes.show("Pin updated".to_string());
    assert_eq!((first, second), (1, 2));
    notes.expire(first);
    assert_eq!(notes.status_text(), "Pin updated");
    notes.expire(second);
    assert_eq!(notes.status_text(), "");
}

#[test]
fn start_at_login_is_on_by_default() {
    assert!(default_start_at_login());
    assert!(Settings::default().start_at_login);
}
