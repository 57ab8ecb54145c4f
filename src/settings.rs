//! The window settings of the application and the decisions taken from them.
use crate::text::{chars_of, range_equals, trim, trim_bounds};
use vstd::prelude::*;
use vstd::string::StringExecFns;

verus! {

/// Window behaviour chosen by the user.
pub struct AppSettings {
    /// Closing the window hides it in the tray instead of quitting.
    pub minimize_to_tray: bool,
    /// The window stays hidden when the application starts.
    pub start_minimized: bool,
}

impl AppSettings {
    /// The settings in force before the user's choices are loaded.
    pub fn new() -> (r: AppSettings)
        ensures
            r.minimize_to_tray,
            !r.start_minimized,
    {
        AppSettings { minimize_to_tray: true, start_minimized: false }
    }

    pub fn set_minimize_to_tray(&mut self, enabled: bool)
        ensures
            final(self).minimize_to_tray == enabled,
            final(self).start_minimized == old(self).start_minimized,
    {
        self.minimize_to_tray = enabled;
    }

    /// Sets whether the window starts hidden, and returns the text under
    /// which that choice is saved.
    pub fn set_start_minimized(&mut self, enabled: bool) -> (saved: String)
        ensures
            final(self).start_minimized == enabled,
            final(self).minimize_to_tray == old(self).minimize_to_tray,
            saved@ == flag_text(enabled),
    {
        self.start_minimized = enabled;
        saved_flag(enabled)
    }

    /// Takes both choices at once, and returns the text under which the
    /// start choice is saved.
    pub fn initialize_settings(&mut self, minimize_to_tray: bool, start_minimized: bool) -> (saved:
        String)
        ensures
            final(self).minimize_to_tray == minimize_to_tray,
            final(self).start_minimized == start_minimized,
            saved@ == flag_text(start_minimized),
    {
        self.minimize_to_tray = minimize_to_tray;
        self.start_minimized = start_minimized;
        saved_flag(start_minimized)
    }
}

/// The saved form of a choice.
pub open spec fn flag_text(enabled: bool) -> Seq<char> {
    if enabled {
        "true"@
    } else {
        "false"@
    }
}

/// The saved form of a choice: `true` or `false`.
pub fn saved_flag(enabled: bool) -> (r: String)
    ensures
        r@ == flag_text(enabled),
{
    if enabled {
        String::from_str("true")
    } else {
        String::from_str("false")
    }
}

/// Whether the window is shown at start, given the saved start choice where
/// it could be read: it stays hidden only where that text, trimmed, is `true`.
pub fn shows_window_at_start(saved: Option<&str>) -> (r: bool)
    ensures
        r == match saved {
            Some(c) => trim(c@) != "true"@,
            None => true,
        },
{
    match saved {
        Some(c) => {
            let v = chars_of(c);
            let (a, b) = trim_bounds(&v, 0, v.len());
            assert(v@.subrange(0, v@.len() as int) =~= v@);
            !range_equals(&v, a, b, &chars_of("true"))
        },
        None => true,
    }
}

/// What an item of the tray menu does.
pub enum MenuAction {
    ShowWindow,
    Quit,
    Nothing,
}

/// The action of the tray menu item `id`: `show` shows the window, `quit`
/// ends the application, anything else does nothing.
pub fn menu_action(id: &str) -> (r: MenuAction)
    ensures
        id@ == "show"@ ==> r is ShowWindow,
        id@ == "quit"@ ==> r is Quit,
        id@ != "show"@ && id@ != "quit"@ ==> r is Nothing,
{
    let v = chars_of(id);
    assert(v@.subrange(0, v@.len() as int) =~= v@);
    proof {
        reveal_strlit("show");
        reveal_strlit("quit");
        assert("show"@[0] != "quit"@[0]);
    }
    if range_equals(&v, 0, v.len(), &chars_of("show")) {
        MenuAction::ShowWindow
    } else if range_equals(&v, 0, v.len(), &chars_of("quit")) {
        MenuAction::Quit
    } else {
        MenuAction::Nothing
    }
}

} // verus!
