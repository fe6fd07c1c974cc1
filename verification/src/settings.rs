use vstd::prelude::*;

verus! {

/// The user's settings.
#[derive(Debug, Clone, Copy)]
pub struct Settings {
    /// Start in the background when the user logs in.
    pub start_at_login: bool,
}

/// Whether to start at login when nothing says otherwise: yes.
pub fn default_start_at_login() -> (start: bool)
    ensures
        start,
{
    true
}

impl Default for Settings {
    fn default() -> (settings: Self)
        ensures
            settings.start_at_login,
    {
        Settings { start_at_login: default_start_at_login() }
    }
}

} // verus!
