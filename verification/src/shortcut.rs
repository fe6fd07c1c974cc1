use crate::text::{
    ascii_lowered, chars_of, same_chars, contains_chars, occurs_in, push_chars, replace_char,
    replace_char_with, string_of, strip_chars, strip_leading, strip_trailing, to_ascii_lowered,
    trim_chars, trimmed, is_white_space,
};
use vstd::prelude::*;

verus! {

/// The shortcut that shows the window, as shown to the user.
pub const GNOME_SHORTCUT_LABEL: &'static str = "Ctrl + Alt + C";

/// The GNOME custom keybinding that this program adds.
pub const GNOME_SHORTCUT_PATH: &'static str = "/org/gnome/settings-daemon/plugins/media-keys/custom-keybindings/com-evan-clipboard/";

/// The GNOME settings schema that lists custom keybindings.
pub const GNOME_MEDIA_KEYS_SCHEMA: &'static str = "org.gnome.settings-daemon.plugins.media-keys";

/// The key binding, in GNOME's notation.
pub const GNOME_BINDING: &'static str = "<Control><Alt>c";

/// The name of the keybinding.
pub const GNOME_SHORTCUT_NAME: &'static str = "Clipboard";

/// The message that asks a running instance to show its window.
pub open spec fn show_request() -> Seq<u8> {
    seq![115u8, 104u8, 111u8, 119u8]
}

/// Whether the four bytes read from the socket ask to show the window (`show`).
pub fn is_show_request(command: [u8; 4]) -> (show: bool)
    ensures
        show == (command@ == show_request()),
{
    let r = command[0] == 115u8 && command[1] == 104u8 && command[2] == 111u8 && command[3]
        == 119u8;
    if r {
        assert(command@ =~= show_request());
    }
    r
}

/// Two texts that are equal once ASCII letters are lower-cased
/// (`str::eq_ignore_ascii_case`).
pub open spec fn equal_ignoring_ascii_case(a: Seq<char>, b: Seq<char>) -> bool {
    ascii_lowered(a) == ascii_lowered(b)
}

/// Whether the session type (`XDG_SESSION_TYPE`) says X11, in any case.
pub fn uses_x11_shortcuts(session_type: Option<&str>) -> (x11: bool)
    ensures
        x11 == match session_type {
            Some(s) => equal_ignoring_ascii_case(s@, "x11"@),
            None => false,
        },
{
    match session_type {
        Some(session) => {
            let a = to_ascii_lowered(&chars_of(session));
            let b = to_ascii_lowered(&chars_of("x11"));
            same_chars(&a, &b)
        },
        None => false,
    }
}

/// What is done to the window.
#[derive(Debug, Clone, Copy, PartialEq, Eq, Structural)]
pub enum WindowCommand {
    SetMinimized(bool),
    SetVisible(bool),
    SetFocus,
}

/// What showing the window does: when there is a window, un-minimize it, make
/// it visible and focus it.
pub fn show_window(has_window: bool) -> (commands: Vec<WindowCommand>)
    ensures
        commands@ == if has_window {
            seq![
                WindowCommand::SetMinimized(false),
                WindowCommand::SetVisible(true),
                WindowCommand::SetFocus,
            ]
        } else {
            Seq::<WindowCommand>::empty()
        },
{
    let mut commands: Vec<WindowCommand> = Vec::new();
    if has_window {
        commands.push(WindowCommand::SetMinimized(false));
        commands.push(WindowCommand::SetVisible(true));
        commands.push(WindowCommand::SetFocus);
    }
    assert(commands@ =~= if has_window {
        seq![
            WindowCommand::SetMinimized(false),
            WindowCommand::SetVisible(true),
            WindowCommand::SetFocus,
        ]
    } else {
        Seq::<WindowCommand>::empty()
    });
    commands
}

/// What hiding the window does: when there is a window, make it invisible.
pub fn hide_window(has_window: bool) -> (commands: Vec<WindowCommand>)
    ensures
        commands@ == if has_window {
            seq![WindowCommand::SetVisible(false)]
        } else {
            Seq::<WindowCommand>::empty()
        },
{
    let mut commands: Vec<WindowCommand> = Vec::new();
    if has_window {
        commands.push(WindowCommand::SetVisible(false));
    }
    assert(commands@ =~= if has_window {
        seq![WindowCommand::SetVisible(false)]
    } else {
        Seq::<WindowCommand>::empty()
    });
    commands
}

/// Whether the desktop (`XDG_CURRENT_DESKTOP`) is GNOME: its name, lower-cased,
/// contains `gnome`.
pub fn is_gnome_desktop(current_desktop: &str) -> (gnome: bool)
    ensures
        gnome == occurs_in(ascii_lowered(current_desktop@), "gnome"@),
{
    let lowered = to_ascii_lowered(&chars_of(current_desktop));
    contains_chars(&lowered, &chars_of("gnome"))
}

/// The custom keybinding list with this program's keybinding in it, from the
/// list that `gsettings get` printed: unchanged (trimmed) when it is already
/// there, else added at the end of the bracketed list.
pub open spec fn keybinding_list(existing: Seq<char>) -> Seq<char> {
    let path = "/org/gnome/settings-daemon/plugins/media-keys/custom-keybindings/com-evan-clipboard/"@;
    if occurs_in(existing, path) {
        trimmed(existing)
    } else {
        let entries = strip_trailing(
            strip_leading(trimmed(existing), |c: char| c == '['),
            |c: char| c == ']',
        );
        "["@ + (if trimmed(entries).len() == 0 {
            Seq::<char>::empty()
        } else {
            entries + ", "@
        }) + "'"@ + path + "']"@
    }
}

/// The keybinding path as characters.
pub open spec fn shortcut_path() -> Seq<char> {
    "/org/gnome/settings-daemon/plugins/media-keys/custom-keybindings/com-evan-clipboard/"@
}

pub fn gnome_keybinding_list(existing: &str) -> (list: String)
    ensures
        list@ == keybinding_list(existing@),
        occurs_in(list@, shortcut_path()),
        occurs_in(existing@, shortcut_path()) ==> list@ == trimmed(existing@),
{
    proof {
        lemma_keybinding_added_once(existing@);
    }
    let chars = chars_of(existing);
    let path = chars_of(GNOME_SHORTCUT_PATH);
    if contains_chars(&chars, &path) {
        let t = trim_chars(&chars);
        return string_of(t.as_slice());
    }
    let entries = strip_chars(&trim_chars(&chars), '[', ']');
    let mut list = String::from_str("[");
    if trim_chars(&entries).len() > 0 {
        push_chars(&mut list, entries.as_slice());
        list.append(", ");
    }
    list.append("'");
    list.append(GNOME_SHORTCUT_PATH);
    list.append("']");
    list
}

/// The settings schema of this program's keybinding.
pub open spec fn item_schema() -> Seq<char> {
    "org.gnome.settings-daemon.plugins.media-keys.custom-keybinding:"@
        + "/org/gnome/settings-daemon/plugins/media-keys/custom-keybindings/com-evan-clipboard/"@
}

pub fn gnome_item_schema() -> (schema: String)
    ensures
        schema@ == item_schema(),
{
    let mut schema = String::from_str("org.gnome.settings-daemon.plugins.media-keys.custom-keybinding:");
    schema.append(GNOME_SHORTCUT_PATH);
    schema
}

/// The command the keybinding runs: the executable in single quotes (each
/// single quote in it written `'\''`), in show mode.
pub open spec fn shortcut_command(executable: Seq<char>) -> Seq<char> {
    "'"@ + replace_char(executable, '\'', "'\\''"@) + "' --show"@
}

pub fn gnome_shortcut_command(executable: &str) -> (command: String)
    ensures
        command@ == shortcut_command(executable@),
{
    let exe = chars_of(executable);
    let escape = chars_of("'\\''");
    let quoted = replace_char_with(&exe, '\'', &escape);
    let mut command = String::from_str("'");
    push_chars(&mut command, quoted.as_slice());
    command.append("' --show");
    command
}

/// Adding the keybinding is idempotent: the resulting list always holds this
/// program's keybinding path; when the path is anywhere in the existing list
/// already, the list is kept as it is (trimmed); and adding again to the result
/// changes nothing but trimming.
pub proof fn lemma_keybinding_added_once(existing: Seq<char>)
    ensures
        occurs_in(keybinding_list(existing), shortcut_path()),
        occurs_in(existing, shortcut_path()) ==> keybinding_list(existing) == trimmed(existing),
        keybinding_list(keybinding_list(existing)) == trimmed(keybinding_list(existing)),
{
    let path = shortcut_path();
    reveal_strlit("/org/gnome/settings-daemon/plugins/media-keys/custom-keybindings/com-evan-clipboard/");
    reveal_strlit("[");
    reveal_strlit("'");
    reveal_strlit("']");
    reveal_strlit(", ");
    assert(path[0] == '/' && path.last() == '/');
    assert(!is_white_space('/'));
    if occurs_in(existing, path) {
        crate::text::lemma_occurs_after_trim(existing, path);
    } else {
        let entries = strip_trailing(
            strip_leading(trimmed(existing), |c: char| c == '['),
            |c: char| c == ']',
        );
        let mid = if trimmed(entries).len() == 0 {
            Seq::<char>::empty()
        } else {
            entries + ", "@
        };
        let r = "["@ + mid + "'"@ + path + "']"@;
        assert(r == keybinding_list(existing));
        let at: int = (1 + mid.len() + 1) as int;
        assert(r.subrange(at, at + path.len()) =~= path);
        assert(crate::text::occurs_at(r, path, at));
    }
}

} // verus!
