//! The desktop shell's settings, as stored in `config.json` beside the index,
//! and the in-process copy that the setters update. Reading and writing the
//! file is the shell's business; here the values and their defaults live.

use vstd::prelude::*;
use vstd::string::*;
use crate::window_fx::TransparencyTier;

verus! {

/// The shell's settings.
#[derive(Debug)]
pub struct AppConfig {
    /// The last directory indexed from scratch, reused by "rebuild".
    pub target_dir: Option<String>,
    /// The glass effect switch.
    pub transparency_enabled: bool,
    /// The transparency tier, kept even while the effect is off.
    pub transparency_tier: TransparencyTier,
    /// Whether the user turned launching at startup off.
    pub autostart_user_disabled: bool,
    /// The global hotkey, in the shortcut plugin's notation.
    pub hotkey: String,
    /// Hide the window when it loses focus.
    pub auto_hide_on_blur: bool,
    /// Interface language override: "auto", "zh" or "en".
    pub lang: String,
}

/// The mathematical content of an [`AppConfig`].
pub struct ConfigView {
    pub target_dir: Option<Seq<char>>,
    pub transparency_enabled: bool,
    pub transparency_tier: TransparencyTier,
    pub autostart_user_disabled: bool,
    pub hotkey: Seq<char>,
    pub auto_hide_on_blur: bool,
    pub lang: Seq<char>,
}

impl View for AppConfig {
    type V = ConfigView;

    open spec fn view(&self) -> ConfigView {
        ConfigView {
            target_dir: match self.target_dir {
                Some(d) => Some(d@),
                None => None,
            },
            transparency_enabled: self.transparency_enabled,
            transparency_tier: self.transparency_tier,
            autostart_user_disabled: self.autostart_user_disabled,
            hotkey: self.hotkey@,
            auto_hide_on_blur: self.auto_hide_on_blur,
            lang: self.lang@,
        }
    }
}

/// The default hotkey: Alt and the back-quote key.
pub const DEFAULT_HOTKEY: &'static str = "Alt+Backquote";
/// The default language setting: follow the system.
pub const DEFAULT_LANG: &'static str = "auto";

/// The settings of a fresh installation: no target, glass on at the middle
/// tier, startup launch not refused, Alt+` as hotkey, no hiding on blur, the
/// system's language.
pub open spec fn default_config() -> ConfigView {
    ConfigView {
        target_dir: None,
        transparency_enabled: true,
        transparency_tier: TransparencyTier::Mid,
        autostart_user_disabled: false,
        hotkey: DEFAULT_HOTKEY@,
        auto_hide_on_blur: false,
        lang: DEFAULT_LANG@,
    }
}

impl Default for AppConfig {
    fn default() -> (c: AppConfig)
        ensures
            c@ == default_config(),
    {
        AppConfig {
            target_dir: None,
            transparency_enabled: true,
            transparency_tier: TransparencyTier::Mid,
            autostart_user_disabled: false,
            hotkey: String::from_str(DEFAULT_HOTKEY),
            auto_hide_on_blur: false,
            lang: String::from_str(DEFAULT_LANG),
        }
    }
}

fn copy_opt(s: &Option<String>) -> (r: Option<String>)
    ensures
        match (r, *s) {
            (Some(a), Some(b)) => a@ == b@,
            (None, None) => true,
            _ => false,
        },
{
    match s {
        Some(d) => Some(d.clone()),
        None => None,
    }
}

impl AppConfig {
    /// A field-by-field copy.
    pub fn copy(&self) -> (c: AppConfig)
        ensures
            c@ == self@,
    {
        AppConfig {
            target_dir: copy_opt(&self.target_dir),
            transparency_enabled: self.transparency_enabled,
            transparency_tier: self.transparency_tier,
            autostart_user_disabled: self.autostart_user_disabled,
            hotkey: self.hotkey.clone(),
            auto_hide_on_blur: self.auto_hide_on_blur,
            lang: self.lang.clone(),
        }
    }
}

/// The settings read back from disk, or the defaults when there are none or
/// they cannot be read.
pub fn config_or_default(stored: Option<AppConfig>) -> (c: AppConfig)
    ensures
        match stored {
            Some(s) => c@ == s@,
            None => c@ == default_config(),
        },
{
    match stored {
        Some(s) => s,
        None => AppConfig::default(),
    }
}

/// The in-process copy of the settings; each setter changes one field and
/// leaves the others alone (the shell writes the file after each change).
pub struct ConfigState {
    cfg: AppConfig,
}

impl View for ConfigState {
    type V = ConfigView;

    closed spec fn view(&self) -> ConfigView {
        self.cfg@
    }
}

impl ConfigState {
    /// Starts from the settings that were loaded.
    pub fn new(loaded: AppConfig) -> (s: ConfigState)
        ensures
            s@ == loaded@,
    {
        ConfigState { cfg: loaded }
    }

    /// A copy of the current settings.
    pub fn get(&self) -> (c: AppConfig)
        ensures
            c@ == self@,
    {
        self.cfg.copy()
    }

    /// The current settings, to be written out.
    pub fn current(&self) -> (c: &AppConfig)
        ensures
            c@ == self@,
    {
        &self.cfg
    }

    pub fn set_target_dir(&mut self, dir: String)
        ensures
            final(self)@ == (ConfigView { target_dir: Some(dir@), ..old(self)@ }),
    {
        self.cfg.target_dir = Some(dir);
    }

    pub fn set_transparency_enabled(&mut self, enabled: bool)
        ensures
            final(self)@ == (ConfigView { transparency_enabled: enabled, ..old(self)@ }),
    {
        self.cfg.transparency_enabled = enabled;
    }

    pub fn set_transparency_tier(&mut self, tier: TransparencyTier)
        ensures
            final(self)@ == (ConfigView { transparency_tier: tier, ..old(self)@ }),
    {
        self.cfg.transparency_tier = tier;
    }

    pub fn set_autostart_user_disabled(&mut self, disabled: bool)
        ensures
            final(self)@ == (ConfigView { autostart_user_disabled: disabled, ..old(self)@ }),
    {
        self.cfg.autostart_user_disabled = disabled;
    }

    /// Stores a hotkey that the caller has already parsed and registered.
    pub fn set_hotkey(&mut self, hotkey: String)
        ensures
            final(self)@ == (ConfigView { hotkey: hotkey@, ..old(self)@ }),
    {
        self.cfg.hotkey = hotkey;
    }

    pub fn set_auto_hide_on_blur(&mut self, enabled: bool)
        ensures
            final(self)@ == (ConfigView { auto_hide_on_blur: enabled, ..old(self)@ }),
    {
        self.cfg.auto_hide_on_blur = enabled;
    }

    /// Stores a language setting that the caller has already checked.
    pub fn set_lang(&mut self, lang: String)
        ensures
            final(self)@ == (ConfigView { lang: lang@, ..old(self)@ }),
    {
        self.cfg.lang = lang;
    }
}

} // verus!
