use cross_platform_clipboard::autostart::{
    desktop_entry, run_value_removed, sync, windows_startup_command, AutostartStep, TargetOs,
};

#[test]
fn autostart_entry_uses_background_mode() {
    assert!(desktop_entry("/opt/Clipboard App/clipboard").contains("--background"));
}

#[test]
fn desktop_entry_escapes_quotes() {
    assert_eq!(
        desktop_entry("/opt/a\"b"),
        "[Desktop Entry]\nType=Application\nName=Clipboard\nIcon=com.evan.clipboard\nExec=\"/opt/a\\\"b\" --background\nTerminal=false\nStartupNotify=false\nX-GNOME-Autostart-enabled=true\n"
    );
}

#[test]
fn windows_command_quotes_the_executable() {
    assert_eq!(
        windows_startup_command("C:\\Program Files\\clip.exe"),
        "\"C:\\Program Files\\clip.exe\" --background"
    );
}

#[test]
fn sync_steps_follow_the_setting() {
    assert_eq!(
        sync(true, TargetOs::Linux),
        vec![AutostartStep::RemoveUserLauncher, AutostartStep::WriteDesktopEntry, AutostartStep::RemoveLegacyDesktopEntry]
    );
    assert_eq!(
        sync(false, TargetOs::Linux),
        vec![AutostartStep::RemoveUserLauncher, AutostartStep::RemoveLegacyDesktopEntry, AutostartStep::RemoveDesktopEntry]
    );
    assert_eq!(sync(true, TargetOs::Windows), vec![AutostartStep::AddRunValue]);
    assert_eq!(sync(false, TargetOs::Windows), vec![AutostartStep::DeleteRunValue]);
    assert!(sync(true, TargetOs::Other).is_empty());
}

#[test]
fn a_missing_run_value_counts_as_removed() {
    assert!(run_value_removed(true, "anything"));
    assert!(run_value_removed(false, "ERROR: The system was Unable to find the specified registry key"));
    assert!(!run_value_removed(false, "ERROR: Access is denied."));
}
