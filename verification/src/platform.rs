use vstd::prelude::*;

verus! {

/// How the global shortcut is provided on each system.
#[derive(Debug, Clone, Copy, PartialEq, Eq, Structural)]
pub enum ShortcutBackend {
    WaylandPortal,
    X11,
    Windows,
    Macos,
}

} // verus!
