use crate::text::{chars_of, occurs_in, push_chars, replace_char, replace_char_with};
use vstd::prelude::*;

verus! {

/// The application id that the desktop entry names as its icon.
pub const APP_ID: &'static str = "com.evan.clipboard";

/// The file name of the autostart desktop entry.
pub const DESKTOP_FILE: &'static str = "com.evan.clipboard.desktop";

/// The file name that earlier versions gave the autostart desktop entry.
pub const LEGACY_DESKTOP_FILE: &'static str = "cross-platform-clipboard.desktop";

/// The registry key under which Windows starts programs at login.
pub const RUN_KEY: &'static str = "HKCU\\Software\\Microsoft\\Windows\\CurrentVersion\\Run";

/// The registry value that holds the startup command.
pub const VALUE_NAME: &'static str = "ClipboardHistory";

/// The system the program runs on, as far as starting at login goes.
#[derive(Debug, Clone, Copy, PartialEq, Eq, Structural)]
pub enum TargetOs {
    Linux,
    Windows,
    Other,
}

/// One step of bringing the start-at-login setup in line with the setting.
#[derive(Debug, Clone, Copy, PartialEq, Eq, Structural)]
pub enum AutostartStep {
    /// Remove the per-user launcher file, if it exists.
    RemoveUserLauncher,
    /// Write the autostart desktop entry (creating its directory).
    WriteDesktopEntry,
    /// Remove the desktop entry under its legacy name, if it exists.
    RemoveLegacyDesktopEntry,
    /// Remove the autostart desktop entry, if it exists.
    RemoveDesktopEntry,
    /// Set the registry run value to the startup command.
    AddRunValue,
    /// Delete the registry run value.
    DeleteRunValue,
}

/// The steps, in order, that make the system start the program at login
/// exactly when `enabled`.
pub open spec fn sync_steps(enabled: bool, os: TargetOs) -> Seq<AutostartStep> {
    match os {
        TargetOs::Linux => seq![AutostartStep::RemoveUserLauncher] + (if enabled {
            seq![AutostartStep::WriteDesktopEntry]
        } else {
            Seq::empty()
        }) + seq![AutostartStep::RemoveLegacyDesktopEntry] + (if enabled {
            Seq::empty()
        } else {
            seq![AutostartStep::RemoveDesktopEntry]
        }),
        TargetOs::Windows => if enabled {
            seq![AutostartStep::AddRunValue]
        } else {
            seq![AutostartStep::DeleteRunValue]
        },
        TargetOs::Other => Seq::empty(),
    }
}

/// The steps that make the system start the program at login exactly when
/// `enabled`.
pub fn sync(enabled: bool, os: TargetOs) -> (steps: Vec<AutostartStep>)
    ensures
        steps@ == sync_steps(enabled, os),
{
    let mut steps: Vec<AutostartStep> = Vec::new();
    match os {
        TargetOs::Linux => {
            steps.push(AutostartStep::RemoveUserLauncher);
            if enabled {
                steps.push(AutostartStep::WriteDesktopEntry);
            }
            steps.push(AutostartStep::RemoveLegacyDesktopEntry);
            if !enabled {
                steps.push(AutostartStep::RemoveDesktopEntry);
            }
        },
        TargetOs::Windows => {
            if enabled {
                steps.push(AutostartStep::AddRunValue);
            } else {
                steps.push(AutostartStep::DeleteRunValue);
            }
        },
        TargetOs::Other => {},
    }
    assert(steps@ =~= sync_steps(enabled, os));
    steps
}

/// Whether deleting the registry run value went as wanted: it succeeded, or
/// there was no such value.
pub open spec fn run_value_gone(success: bool, stderr: Seq<char>) -> bool {
    success || occurs_in(stderr, "Unable to find"@)
}

/// Whether deleting the registry run value went as wanted, from the exit
/// status and error output of `reg delete`.
pub fn run_value_removed(success: bool, stderr: &str) -> (gone: bool)
    ensures
        gone == run_value_gone(success, stderr@),
{
    if success {
        return true;
    }
    let err = chars_of(stderr);
    let pattern = chars_of("Unable to find");
    crate::text::contains_chars(&err, &pattern)
}

/// The startup command for Windows: the quoted executable in background mode.
pub open spec fn startup_command(executable: Seq<char>) -> Seq<char> {
    "\""@ + executable + "\" --background"@
}

pub fn windows_startup_command(executable: &str) -> (command: String)
    ensures
        command@ == startup_command(executable@),
{
    let mut command = String::from_str("\"");
    command.append(executable);
    command.append("\" --background");
    command
}

/// The executable path as written in a desktop entry: double quotes escaped.
pub open spec fn escaped_exec(executable: Seq<char>) -> Seq<char> {
    replace_char(executable, '"', "\\\""@)
}

/// The beginning of the autostart desktop entry, up to the executable.
pub open spec fn entry_head() -> Seq<char> {
    "[Desktop Entry]\nType=Application\nName=Clipboard\nIcon=com.evan.clipboard\nExec=\""@
}

/// The end of the autostart desktop entry, after the executable.
pub open spec fn entry_tail() -> Seq<char> {
    "\" --background\nTerminal=false\nStartupNotify=false\nX-GNOME-Autostart-enabled=true\n"@
}

/// The autostart desktop entry that starts `executable` in background mode.
pub open spec fn desktop_entry_text(executable: Seq<char>) -> Seq<char> {
    entry_head() + escaped_exec(executable) + entry_tail()
}

pub fn desktop_entry(executable: &str) -> (entry: String)
    ensures
        entry@ == desktop_entry_text(executable@),
{
    let exe = chars_of(executable);
    let quote_escape = chars_of("\\\"");
    let escaped = replace_char_with(&exe, '"', &quote_escape);
    let mut entry = String::from_str(
        "[Desktop Entry]\nType=Application\nName=Clipboard\nIcon=com.evan.clipboard\nExec=\"",
    );
    push_chars(&mut entry, escaped.as_slice());
    entry.append("\" --background\nTerminal=false\nStartupNotify=false\nX-GNOME-Autostart-enabled=true\n");
    entry
}

/// The autostart desktop entry starts the program in background mode.
pub proof fn lemma_desktop_entry_runs_in_background(executable: Seq<char>)
    ensures
        occurs_in(desktop_entry_text(executable), "--background"@),
{
    reveal_strlit("\" --background\nTerminal=false\nStartupNotify=false\nX-GNOME-Autostart-enabled=true\n");
    reveal_strlit("--background");
    let s = desktop_entry_text(executable);
    let at: int = (entry_head().len() + escaped_exec(executable).len() + 2) as int;
    let tail = entry_tail();
    assert(s.subrange(at, at + 12) =~= tail.subrange(2, 14));
    assert(tail.subrange(2, 14) =~= "--background"@);
    assert(crate::text::occurs_at(s, "--background"@, at));
}

/// The Windows startup command starts the program in background mode.
pub proof fn lemma_startup_command_runs_in_background(executable: Seq<char>)
    ensures
        occurs_in(startup_command(executable), "--background"@),
{
    reveal_strlit("\"");
    reveal_strlit("\" --background");
    reveal_strlit("--background");
    let s = startup_command(executable);
    let at: int = (1 + executable.len() + 2) as int;
    assert(s.subrange(at, at + 12) =~= "--background"@);
    assert(crate::text::occurs_at(s, "--background"@, at));
}

} // verus!
