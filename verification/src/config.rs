//! The settings of PassTUI: what a configuration file says, with defaults for what it
//! leaves out, and the repairs made to settings that cannot be used.
use crate::text::{contains, is_control, is_ctrl, opt_view, push_char, to_chars};
use vstd::prelude::*;
use vstd::string::StringExecFns;

verus! {

/// Which colors the interface uses: a built-in or custom theme by name, or a theme file.
#[derive(Debug, Clone)]
pub struct ThemeConfig {
    pub name: String,
    pub file: Option<String>,
}

#[derive(Debug, Clone)]
pub struct BehaviorConfig {
    pub auto_clear_clipboard_seconds: u64,
    pub idle_lock_seconds: u64,
    pub default_reveal_passwords: bool,
}

#[derive(Debug, Clone)]
pub struct KeybindingsConfig {
    pub copy_password: char,
}

/// The whole configuration, and a warning to show when something in it was repaired.
#[derive(Debug, Clone)]
pub struct Config {
    pub theme: ThemeConfig,
    pub behavior: BehaviorConfig,
    pub keybindings: KeybindingsConfig,
    pub warning: Option<String>,
}

pub open spec fn default_theme_name() -> Seq<char> {
    "catppuccin-mocha"@
}

impl Default for ThemeConfig {
    fn default() -> (r: Self)
        ensures
            r.name@ == default_theme_name(),
            r.file is None,
    {
        ThemeConfig { name: "catppuccin-mocha".to_owned(), file: None }
    }
}

impl BehaviorConfig {
    /// Whether a session idle for `idle_secs` whole seconds is to be cleared now: only
    /// an open session, and never when the idle limit is 0.
    pub fn idle_lock_due(&self, locked: bool, idle_secs: u64) -> (r: bool)
        ensures
            r == (!locked && self.idle_lock_seconds > 0 && idle_secs >= self.idle_lock_seconds),
    {
        !locked && self.idle_lock_seconds > 0 && idle_secs >= self.idle_lock_seconds
    }
}

impl Default for BehaviorConfig {
    fn default() -> (r: Self)
        ensures
            r.auto_clear_clipboard_seconds == 45,
            r.idle_lock_seconds == 300,
            !r.default_reveal_passwords,
    {
        BehaviorConfig {
            auto_clear_clipboard_seconds: 45,
            idle_lock_seconds: 300,
            default_reveal_passwords: false,
        }
    }
}

impl Default for KeybindingsConfig {
    fn default() -> (r: Self)
        ensures
            r.copy_password == 'y',
    {
        KeybindingsConfig { copy_password: 'y' }
    }
}

/// Whether `c` holds the documented defaults.
pub open spec fn is_default(c: Config) -> bool {
    &&& c.theme.name@ == default_theme_name()
    &&& c.theme.file is None
    &&& c.behavior.auto_clear_clipboard_seconds == 45
    &&& c.behavior.idle_lock_seconds == 300
    &&& !c.behavior.default_reveal_passwords
    &&& c.keybindings.copy_password == 'y'
}

impl Default for Config {
    fn default() -> (r: Self)
        ensures
            is_default(r),
            r.warning is None,
    {
        Config {
            theme: ThemeConfig::default(),
            behavior: BehaviorConfig::default(),
            keybindings: KeybindingsConfig::default(),
            warning: None,
        }
    }
}

/// The keys that other actions of the interface use.
pub open spec fn reserved_keys() -> Seq<char> {
    "qQ?jkg0lhpdaeiGPU/ruwfFvHtR"@
}

/// Whether `c` cannot be the copy shortcut: another action uses it, or it is a control
/// character.
pub open spec fn copy_key_conflicts(c: char) -> bool {
    reserved_keys().contains(c) || is_ctrl(c)
}

pub open spec fn copy_key_warning() -> Seq<char> {
    "Copy shortcut conflicts with another action; using y."@
}

pub open spec fn timeout_warning() -> Seq<char> {
    "Clipboard timeout must be 1–86400 seconds; using 45 seconds."@
}

/// The warning about the settings of `c` that had to be repaired, if any.
pub open spec fn repair_warning(c: Config) -> Option<Seq<char>> {
    let key = copy_key_conflicts(c.keybindings.copy_password);
    let time = !(1 <= c.behavior.auto_clear_clipboard_seconds <= 86400);
    if key && time {
        Some(copy_key_warning() + " "@ + timeout_warning())
    } else if key {
        Some(copy_key_warning())
    } else if time {
        Some(timeout_warning())
    } else {
        None
    }
}

impl Config {
    /// The configuration with unusable settings replaced by their defaults: a copy
    /// shortcut that another action uses, or a clipboard timeout outside 1 to 86400
    /// seconds. A warning names each repair; without repairs the warning is kept.
    pub fn repaired(self) -> (r: Config)
        ensures
            r.theme == self.theme,
            r.behavior.idle_lock_seconds == self.behavior.idle_lock_seconds,
            r.behavior.default_reveal_passwords == self.behavior.default_reveal_passwords,
            r.keybindings.copy_password == if copy_key_conflicts(self.keybindings.copy_password) {
                'y'
            } else {
                self.keybindings.copy_password
            },
            r.behavior.auto_clear_clipboard_seconds == if 1
                <= self.behavior.auto_clear_clipboard_seconds <= 86400 {
                self.behavior.auto_clear_clipboard_seconds
            } else {
                45
            },
            opt_view(r.warning) == match repair_warning(self) {
                Some(w) => Some(w),
                None => opt_view(self.warning),
            },
            !copy_key_conflicts(r.keybindings.copy_password),
            1 <= r.behavior.auto_clear_clipboard_seconds <= 86400,
    {
        proof {
            reveal_strlit("qQ?jkg0lhpdaeiGPU/ruwfFvHtR");
            assert(!reserved_keys().contains('y'));
        }
        let mut config = self;
        let reserved = to_chars("qQ?jkg0lhpdaeiGPU/ruwfFvHtR");
        let key = config.keybindings.copy_password;
        let key_bad = contains(&reserved, key) || is_control(key);
        let seconds = config.behavior.auto_clear_clipboard_seconds;
        let time_bad = !(1 <= seconds && seconds <= 86400);
        if key_bad {
            config.keybindings.copy_password = 'y';
        }
        if time_bad {
            config.behavior.auto_clear_clipboard_seconds = 45;
        }
        if key_bad && time_bad {
            let mut w = "Copy shortcut conflicts with another action; using y.".to_owned();
            push_char(&mut w, ' ');
            w.append("Clipboard timeout must be 1–86400 seconds; using 45 seconds.");
            proof {
                reveal_strlit(" ");
                assert(w@ =~= copy_key_warning() + " "@ + timeout_warning());
            }
            config.warning = Some(w);
        } else if key_bad {
            config.warning = Some("Copy shortcut conflicts with another action; using y.".to_owned());
        } else if time_bad {
            config.warning = Some(
                "Clipboard timeout must be 1–86400 seconds; using 45 seconds.".to_owned(),
            );
        }
        config
    }

    /// The defaults, with a warning that the configuration file could not be read as
    /// one (`error` says why).
    pub fn invalid(error: &str) -> (r: Config)
        ensures
            is_default(r),
            opt_view(r.warning) == Some("Invalid config: "@ + error@ + ". Using defaults."@),
    {
        let mut w = "Invalid config: ".to_owned();
        w.append(error);
        w.append(". Using defaults.");
        let mut config = Config::default();
        config.warning = Some(w);
        config
    }

    /// The defaults, with a warning that the configuration file could not be read
    /// (`error` says why).
    pub fn unreadable(error: &str) -> (r: Config)
        ensures
            is_default(r),
            opt_view(r.warning) == Some("Cannot read config: "@ + error@ + ". Using defaults."@),
    {
        let mut w = "Cannot read config: ".to_owned();
        w.append(error);
        w.append(". Using defaults.");
        let mut config = Config::default();
        config.warning = Some(w);
        config
    }

    /// Adds `warning` after any warning that the configuration already carries.
    pub fn add_warning(&mut self, warning: &str)
        ensures
            final(self).theme == old(self).theme,
            final(self).behavior == old(self).behavior,
            final(self).keybindings == old(self).keybindings,
            opt_view(final(self).warning) == Some(
                match opt_view(old(self).warning) {
                    Some(w) => w + " "@ + warning@,
                    None => warning@,
                },
            ),
    {
        let merged = match &self.warning {
            Some(existing) => {
                let mut m = existing.clone();
                push_char(&mut m, ' ');
                m.append(warning);
                proof {
                    reveal_strlit(" ");
                    assert(m@ =~= existing@ + " "@ + warning@);
                }
                m
            },
            None => warning.to_owned(),
        };
        self.warning = Some(merged);
    }
}

} // verus!
