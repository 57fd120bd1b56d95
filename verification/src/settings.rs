//! Application settings: a single small record persisted beside the
//! index, with defaults for a fresh or unreadable settings file.

use vstd::prelude::*;

verus! {

/// Behavioural settings.
pub struct GeneralSettings {
    pub auto_launch: bool,
    pub hotkey: String,
    pub editor_always_on_top: bool,
    pub welcome_screen_dismissed: bool,
}

/// Presentation settings.
pub struct AppearanceSettings {
    pub theme: String,
    pub accent_color: String,
}

/// The settings aggregate as persisted.
pub struct AppSettings {
    pub general: GeneralSettings,
    pub appearance: AppearanceSettings,
}

impl Default for AppSettings {
    /// The settings of a fresh installation.
    fn default() -> (r: Self)
        ensures
            r.general.auto_launch == false,
            r.general.hotkey@ == "CommandOrControl+8"@,
            r.general.editor_always_on_top == true,
            r.general.welcome_screen_dismissed == false,
            r.appearance.theme@ == "dark"@,
            r.appearance.accent_color@ == "avocado"@,
    {
        AppSettings {
            general: GeneralSettings {
                auto_launch: false,
                hotkey: String::from_str("CommandOrControl+8"),
                editor_always_on_top: true,
                welcome_screen_dismissed: false,
            },
            appearance: AppearanceSettings {
                theme: String::from_str("dark"),
                accent_color: String::from_str("avocado"),
            },
        }
    }
}

} // verus!
