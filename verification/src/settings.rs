//! User-facing configuration: display languages, the welcome-animation
//! mode and the persisted settings record. Reading and writing the
//! settings file is the caller's concern; this module holds the values
//! and the code/name mappings.

use vstd::prelude::*;

use crate::text::str_eq;

verus! {

/// The display languages offered.
#[derive(Debug, Clone, Copy, PartialEq, Eq, Structural)]
pub enum Language {
    /// English.
    English,
    /// French.
    French,
    /// Japanese.
    Japanese,
    /// Spanish.
    Spanish,
    /// Korean.
    Korean,
    /// Chinese.
    Chinese,
}

impl Language {
    /// The language's two-letter code.
    pub fn code(&self) -> (r: &'static str)
        ensures
            r@ == match self {
                Language::English => "en"@,
                Language::French => "fr"@,
                Language::Japanese => "ja"@,
                Language::Spanish => "es"@,
                Language::Korean => "ko"@,
                Language::Chinese => "zh"@,
            },
    {
        match self {
            Language::English => "en",
            Language::French => "fr",
            Language::Japanese => "ja",
            Language::Spanish => "es",
            Language::Korean => "ko",
            Language::Chinese => "zh",
        }
    }

    /// The language's name, written in itself.
    pub fn name(&self) -> (r: &'static str)
        ensures
            r@ == match self {
                Language::English => "English"@,
                Language::French => "Fran\u{e7}ais"@,
                Language::Japanese => "\u{65e5}\u{672c}\u{8a9e}"@,
                Language::Spanish => "Espa\u{f1}ol"@,
                Language::Korean => "\u{d55c}\u{ad6d}\u{c5b4}"@,
                Language::Chinese => "\u{4e2d}\u{6587}"@,
            },
    {
        match self {
            Language::English => "English",
            Language::French => "Fran\u{e7}ais",
            Language::Japanese => "\u{65e5}\u{672c}\u{8a9e}",
            Language::Spanish => "Espa\u{f1}ol",
            Language::Korean => "\u{d55c}\u{ad6d}\u{c5b4}",
            Language::Chinese => "\u{4e2d}\u{6587}",
        }
    }

    /// Every language, in display order.
    pub fn all() -> (r: Vec<Language>)
        ensures
            r@ == seq![
                Language::English,
                Language::French,
                Language::Japanese,
                Language::Spanish,
                Language::Korean,
                Language::Chinese,
            ],
    {
        let mut v: Vec<Language> = Vec::new();
        v.push(Language::English);
        v.push(Language::French);
        v.push(Language::Japanese);
        v.push(Language::Spanish);
        v.push(Language::Korean);
        v.push(Language::Chinese);
        proof {
            assert(v@ =~= seq![
                Language::English,
                Language::French,
                Language::Japanese,
                Language::Spanish,
                Language::Korean,
                Language::Chinese,
            ]);
        }
        v
    }

    /// The language a two-letter code names, if any.
    pub open spec fn spec_from_code(code: Seq<char>) -> Option<Language> {
        if code == "en"@ {
            Some(Language::English)
        } else if code == "fr"@ {
            Some(Language::French)
        } else if code == "ja"@ {
            Some(Language::Japanese)
        } else if code == "es"@ {
            Some(Language::Spanish)
        } else if code == "ko"@ {
            Some(Language::Korean)
        } else if code == "zh"@ {
            Some(Language::Chinese)
        } else {
            None
        }
    }

    /// The language a two-letter code names, if any.
    pub fn from_code(code: &str) -> (r: Option<Language>)
        ensures
            r == Language::spec_from_code(code@),
    {
        if str_eq(code, "en") {
            Some(Language::English)
        } else if str_eq(code, "fr") {
            Some(Language::French)
        } else if str_eq(code, "ja") {
            Some(Language::Japanese)
        } else if str_eq(code, "es") {
            Some(Language::Spanish)
        } else if str_eq(code, "ko") {
            Some(Language::Korean)
        } else if str_eq(code, "zh") {
            Some(Language::Chinese)
        } else {
            None
        }
    }
}

/// The welcome-screen animation modes.
#[derive(Debug, Clone, Copy, PartialEq, Eq, Structural)]
pub enum WelcomeAnimationMode {
    /// Full motion.
    Normal,
    /// A calmer pace.
    Slow,
    /// No background animation.
    Off,
}

impl WelcomeAnimationMode {
    /// Every mode, in display order.
    pub fn modes() -> (r: Vec<WelcomeAnimationMode>)
        ensures
            r@ == seq![
                WelcomeAnimationMode::Normal,
                WelcomeAnimationMode::Slow,
                WelcomeAnimationMode::Off,
            ],
    {
        let mut v: Vec<WelcomeAnimationMode> = Vec::new();
        v.push(WelcomeAnimationMode::Normal);
        v.push(WelcomeAnimationMode::Slow);
        v.push(WelcomeAnimationMode::Off);
        proof {
            assert(v@ =~= seq![
                WelcomeAnimationMode::Normal,
                WelcomeAnimationMode::Slow,
                WelcomeAnimationMode::Off,
            ]);
        }
        v
    }

    /// The mode's display label.
    pub fn label(&self) -> (r: &'static str)
        ensures
            r@ == match self {
                WelcomeAnimationMode::Normal => "Normal"@,
                WelcomeAnimationMode::Slow => "Slow"@,
                WelcomeAnimationMode::Off => "Off"@,
            },
    {
        match self {
            WelcomeAnimationMode::Normal => "Normal",
            WelcomeAnimationMode::Slow => "Slow",
            WelcomeAnimationMode::Off => "Off",
        }
    }

    /// The mode's one-line description.
    pub fn description(&self) -> (r: &'static str)
        ensures
            r@ == match self {
                WelcomeAnimationMode::Normal => "Sequence snake with full motion"@,
                WelcomeAnimationMode::Slow => "Sequence snake at a calmer pace"@,
                WelcomeAnimationMode::Off => "Disable background animation"@,
            },
    {
        match self {
            WelcomeAnimationMode::Normal => "Sequence snake with full motion",
            WelcomeAnimationMode::Slow => "Sequence snake at a calmer pace",
            WelcomeAnimationMode::Off => "Disable background animation",
        }
    }

    /// The mode's settings key.
    pub fn key(&self) -> (r: &'static str)
        ensures
            r@ == match self {
                WelcomeAnimationMode::Normal => "normal"@,
                WelcomeAnimationMode::Slow => "slow"@,
                WelcomeAnimationMode::Off => "off"@,
            },
    {
        match self {
            WelcomeAnimationMode::Normal => "normal",
            WelcomeAnimationMode::Slow => "slow",
            WelcomeAnimationMode::Off => "off",
        }
    }

    /// The mode a settings key names, if any.
    pub open spec fn spec_from_key(key: Seq<char>) -> Option<WelcomeAnimationMode> {
        if key == "normal"@ {
            Some(WelcomeAnimationMode::Normal)
        } else if key == "slow"@ {
            Some(WelcomeAnimationMode::Slow)
        } else if key == "off"@ {
            Some(WelcomeAnimationMode::Off)
        } else {
            None
        }
    }

    /// The mode a settings key names, if any.
    pub fn from_key(key: &str) -> (r: Option<WelcomeAnimationMode>)
        ensures
            r == WelcomeAnimationMode::spec_from_key(key@),
    {
        if str_eq(key, "normal") {
            Some(WelcomeAnimationMode::Normal)
        } else if str_eq(key, "slow") {
            Some(WelcomeAnimationMode::Slow)
        } else if str_eq(key, "off") {
            Some(WelcomeAnimationMode::Off)
        } else {
            None
        }
    }
}

/// User-editable key bindings, kept as the strings of the settings
/// file; resolving them against a terminal's key events is the front
/// end's concern.
pub struct KeyBindingsConfig {
    /// Keys bound to quitting.
    pub quit: Option<Vec<String>>,
    /// Keys bound to the help screen.
    pub help: Option<Vec<String>>,
    /// Keys bound to the about screen.
    pub about: Option<Vec<String>>,
    /// Keys bound to cycling the theme.
    pub cycle_theme: Option<Vec<String>>,
    /// Keys bound to switching the binding preset.
    pub toggle_keybindings_preset: Option<Vec<String>>,
    /// The name of the preset the bindings start from.
    pub preset: Option<String>,
}

/// The persisted user settings; every field optional, so older files
/// and missing keys read cleanly.
pub struct UserSettings {
    /// The chosen language's code.
    pub language: Option<String>,
    /// The index of the chosen theme.
    pub theme: Option<usize>,
    /// The chosen welcome-animation mode's key.
    pub welcome_animation: Option<String>,
    /// Whether the welcome animation has already played once.
    pub welcome_animation_played: Option<bool>,
    /// Custom key bindings, if any.
    pub keybindings: Option<KeyBindingsConfig>,
    /// The chosen key-binding preset's name.
    pub keybindings_preset: Option<String>,
}

impl UserSettings {
    /// Settings with nothing chosen.
    pub fn new() -> (r: UserSettings)
        ensures
            r.language is None,
            r.theme is None,
            r.welcome_animation is None,
            r.welcome_animation_played is None,
            r.keybindings is None,
            r.keybindings_preset is None,
    {
        UserSettings {
            language: None,
            theme: None,
            welcome_animation: None,
            welcome_animation_played: None,
            keybindings: None,
            keybindings_preset: None,
        }
    }

    /// The chosen language, when the stored code names one.
    pub fn language(&self) -> (r: Option<Language>)
        ensures
            r == match self.language {
                Some(ref code) => Language::spec_from_code(code@),
                None => None::<Language>,
            },
    {
        match &self.language {
            Some(code) => Language::from_code(code.as_str()),
            None => None,
        }
    }

    /// The chosen animation mode, when the stored key names one.
    pub fn welcome_animation_mode(&self) -> (r: Option<WelcomeAnimationMode>)
        ensures
            r == match self.welcome_animation {
                Some(ref key) => WelcomeAnimationMode::spec_from_key(key@),
                None => None::<WelcomeAnimationMode>,
            },
    {
        match &self.welcome_animation {
            Some(key) => WelcomeAnimationMode::from_key(key.as_str()),
            None => None,
        }
    }
}

} // verus!
