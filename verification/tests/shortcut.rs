use cross_platform_clipboard::shortcut::{
    gnome_item_schema, gnome_keybinding_list, gnome_shortcut_command, hide_window,
    is_gnome_desktop, is_show_request, show_window, uses_x11_shortcuts, WindowCommand,
    GNOME_SHORTCUT_PATH,
};

#[test]
fn x11_is_recognised_in_any_case() {
    assert!(uses_x11_shortcuts(Some("x11")));
    assert!(uses_x11_shortcuts(Some("X11")));
    assert!(!uses_x11_shortcuts(Some("wayland")));
    assert!(!uses_x11_shortcuts(Some("x11 ")));
    assert!(!uses_x11_shortcuts(None));
}

#[test]
fn gnome_desktops_are_recognised() {
    assert!(is_gnome_desktop("ubuntu:GNOME"));
    assert!(is_gnome_desktop("gnome"));
    assert!(!is_gnome_desktop("KDE"));
    assert!(!is_gnome_desktop(""));
}

#[test]
fn keybinding_is_added_once() {
    let path = GNOME_SHORTCUT_PATH;
    assert_eq!(gnome_keybinding_list("@as []\n"), format!("[@as [, '{path}']"));
    assert_eq!(gnome_keybinding_list("[]"), format!("['{path}']"));
    assert_eq!(
        gnome_keybinding_list("['/a/']\n"),
        format!("['/a/', '{path}']")
    );
    let with = format!("  ['/a/', '{path}']\n");
    assert_eq!(gnome_keybinding_list(&with), with.trim());
}

#[test]
fn shortcut_command_quotes_the_executable() {
    assert_eq!(gnome_shortcut_command("/opt/clip"), "'/opt/clip' --show");
    assert_eq!(gnome_shortcut_command("/opt/it's"), "'/opt/it'\\''s' --show");
    assert_eq!(
        gnome_item_schema(),
        format!("org.gnome.settings-daemon.plugins.media-keys.custom-keybinding:{GNOME_SHORTCUT_PATH}")
    );
}

#[test]
fn show_and_hide_commands() {
    assert_eq!(
        show_window(true),
        vec![
            WindowCommand::SetMinimized(false),
            WindowCommand::SetVisible(true),
            WindowCommand::SetFocus
        ]
    );
    assert!(show_window(false).is_empty());
    assert_eq!(hide_window(true), vec![WindowCommand::SetVisible(false)]);
    assert!(hide_window(false).is_empty());
}

#[test]
fn only_show_is_a_show_request() {
    assert!(is_show_request(*b"show"));
    assert!(!is_show_request(*b"shoW"));
    assert!(!is_show_request([0; 4]));
}
