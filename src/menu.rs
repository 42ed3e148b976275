use vstd::prelude::*;
use crate::settings::Settings;

verus! {

/// Buttons of the main menu.
#[derive(Clone, Copy, Debug, PartialEq, Eq, Structural)]
pub enum MainMenuAction {
    Start,
    Settings,
    Quit,
}

/// What the main menu hands back once a choice is made.
#[derive(Clone, Debug)]
pub enum MenuResult {
    Start { host: String, name: String },
    SettingsChange(Settings),
    Quit,
}

/// What a menu without a settings dialog hands back.
#[derive(Clone, Debug)]
pub enum MainMenuResult {
    Start { host: String, name: String },
    Quit,
}

} // verus!
