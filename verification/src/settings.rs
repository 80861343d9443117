//! GUI-local settings (window and tray preferences), stored as JSON next to
//! the daemon's local config.

use vstd::prelude::*;

use crate::common::{path_join, path_join_spec};

verus! {

#[derive(Debug, Clone, Copy, PartialEq, Eq, Structural)]
pub struct GuiSettings {
    /// Start the app hidden in the system tray instead of opening the window.
    pub start_in_tray: bool,
    /// Closing the window hides to the tray instead of quitting.
    pub minimize_to_tray: bool,
}

impl Default for GuiSettings {
    fn default() -> (s: GuiSettings)
        ensures
            !s.start_in_tray,
            !s.minimize_to_tray,
    {
        GuiSettings { start_in_tray: false, minimize_to_tray: false }
    }
}

/// The settings file inside the local config dir.
pub fn settings_path(config_dir: &str) -> (r: String)
    ensures
        r@ == path_join_spec(config_dir@, "gui-settings.json"@),
{
    path_join(config_dir, "gui-settings.json")
}

} // verus!
