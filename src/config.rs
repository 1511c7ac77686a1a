//! Launcher settings as already-parsed values, with their defaults.
use vstd::prelude::*;

use std::collections::HashMap;

use crate::text::string_of;

verus! {

/// The launcher's settings.
#[derive(Debug)]
pub struct Config {
    /// The global shortcut that toggles the launcher window.
    pub hotkey: String,
    pub theme: String,
    /// Whether the launcher starts on login.
    pub autostart: bool,
    /// Colour overrides by name.
    pub colors: HashMap<String, String>,
}

/// The theme handed to the user interface.
#[derive(Debug, Clone)]
pub struct ThemeConfig {
    pub theme: String,
    pub colors: HashMap<String, String>,
}

pub fn default_hotkey() -> (r: String)
    ensures
        r@ == "Alt+Space"@,
{
    string_of("Alt+Space")
}

pub fn default_theme() -> (r: String)
    ensures
        r@ == "gruvbox"@,
{
    string_of("gruvbox")
}

pub fn default_autostart() -> (r: bool)
    ensures
        r,
{
    true
}

impl Config {
    /// The settings used when none are given: `Alt+Space`, the `gruvbox`
    /// theme, start on login, no colour overrides.
    pub fn defaults() -> (r: Config)
        ensures
            r.hotkey@ == "Alt+Space"@,
            r.theme@ == "gruvbox"@,
            r.autostart,
            r.colors@ == Map::<String, String>::empty(),
    {
        Config {
            hotkey: default_hotkey(),
            theme: default_theme(),
            autostart: default_autostart(),
            colors: HashMap::new(),
        }
    }

    /// The theme part of the settings.
    pub fn theme_config(self) -> (r: ThemeConfig)
        ensures
            r.theme == self.theme,
            r.colors == self.colors,
    {
        ThemeConfig { theme: self.theme, colors: self.colors }
    }
}

impl Default for Config {
    fn default() -> (r: Config)
        ensures
            r.hotkey@ == "Alt+Space"@,
            r.theme@ == "gruvbox"@,
            r.autostart,
            r.colors@ == Map::<String, String>::empty(),
    {
        Config::defaults()
    }
}

} // verus!
