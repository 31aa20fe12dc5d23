//! Application-wide settings, as persisted in the root settings file.

use vstd::prelude::*;

verus! {

/// Marks a value that persists as the plain JSON of its fields; profiles
/// are not such values — they persist in their own disk shape.
pub trait NotProfile {

}

impl NotProfile for Settings {

}

/// The application's own settings.
pub struct Settings {
    pub language: String,
    pub background: bool,
    pub autolaunch: bool,
    pub darktheme: bool,
    pub brightness: u8,
    pub developer: bool,
}

/// Mathematical image of the settings.
pub ghost struct SettingsV {
    pub language: Seq<char>,
    pub background: bool,
    pub autolaunch: bool,
    pub darktheme: bool,
    pub brightness: u8,
    pub developer: bool,
}

impl View for Settings {
    type V = SettingsV;

    open spec fn view(&self) -> SettingsV {
        SettingsV {
            language: self.language@,
            background: self.background,
            autolaunch: self.autolaunch,
            darktheme: self.darktheme,
            brightness: self.brightness,
            developer: self.developer,
        }
    }
}

/// The settings a fresh installation starts from: English, staying in the
/// background, dark theme, half brightness.
pub open spec fn default_settings() -> SettingsV {
    SettingsV {
        language: "en"@,
        background: true,
        autolaunch: false,
        darktheme: true,
        brightness: 50,
        developer: false,
    }
}

impl Default for Settings {
    fn default() -> (r: Self)
        ensures
            r@ == default_settings(),
    {
        Settings {
            language: "en".to_owned(),
            background: true,
            autolaunch: false,
            darktheme: true,
            brightness: 50,
            developer: false,
        }
    }
}

} // verus!
