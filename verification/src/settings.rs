//! What the user can set.
use vstd::prelude::*;

verus! {

/// The settings: how opaque the cards are, whether a double click hides them, whether items are
/// sorted by kind, whether a list shows icons, how many columns a layout has, the colour of the cards
/// as `0xRRGGBB`, and whether the program starts with the system.
#[derive(Clone, Copy, Debug, PartialEq, Eq, Structural)]
pub struct Settings {
    pub alpha: u8,
    pub double_click_hide: bool,
    pub auto_classify: bool,
    pub show_icons: bool,
    pub card_cols: u32,
    pub bg_color: u32,
    pub autostart: bool,
}

/// The colour of the cards before one is chosen, which also stands in where none is stored.
pub fn default_bg() -> (r: u32)
    ensures
        r == 0x262A36,
{
    0x262A36
}

/// The settings before anything is set.
pub open spec fn default_settings() -> Settings {
    Settings {
        alpha: 200,
        double_click_hide: true,
        auto_classify: true,
        show_icons: false,
        card_cols: 3,
        bg_color: 0x262A36,
        autostart: false,
    }
}

impl Default for Settings {
    fn default() -> (r: Self)
        ensures
            r == default_settings(),
    {
        Settings {
            alpha: 200,
            double_click_hide: true,
            auto_classify: true,
            show_icons: false,
            card_cols: 3,
            bg_color: 0x262A36,
            autostart: false,
        }
    }
}

/// The settings that were stored, or the default where none could be read.
pub open spec fn loaded(stored: Option<Settings>) -> Settings {
    match stored {
        Some(s) => s,
        None => default_settings(),
    }
}

/// The settings that were stored, or the default where none could be read.
pub fn load_settings(stored: Option<Settings>) -> (r: Settings)
    ensures
        r == loaded(stored),
{
    match stored {
        Some(s) => s,
        None => Settings::default(),
    }
}

} // verus!
