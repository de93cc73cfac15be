use passtui::config::{BehaviorConfig, Config, KeybindingsConfig, ThemeConfig};

#[test]
fn defaults_match_documented_configuration() {
    let config = Config::default();
    assert_eq!(config.theme.name, "catppuccin-mocha");
    assert_eq!(config.behavior.auto_clear_clipboard_seconds, 45);
    assert_eq!(config.keybindings.copy_password, 'y');
    assert_eq!(config.behavior.idle_lock_seconds, 300);
}

fn settings(copy: char, clear: u64, idle: u64) -> Config {
    Config {
        theme: ThemeConfig::default(),
        behavior: BehaviorConfig {
            auto_clear_clipboard_seconds: clear,
            idle_lock_seconds: idle,
            default_reveal_passwords: false,
        },
        keybindings: KeybindingsConfig { copy_password: copy },
        warning: None,
    }
}

#[test]
fn conflicts_and_invalid_settings_are_visible_and_repaired() {
    // copy_password = "e", auto_clear_clipboard_seconds = 0
    let config = settings('e', 0, 300).repaired();
    assert_eq!(config.keybindings.copy_password, 'y');
    assert_eq!(config.behavior.auto_clear_clipboard_seconds, 45);
    assert!(config.warning.is_some());
    let malformed = Config::invalid("expected `]`");
    assert!(malformed.warning.is_some());
}

#[test]
fn idle_timeout_can_be_disabled_and_totp_shortcut_is_reserved() {
    // idle_lock_seconds = 0, copy_password = 't'
    let config = settings('t', 45, 0).repaired();
    assert_eq!(config.behavior.idle_lock_seconds, 0);
    assert_eq!(config.keybindings.copy_password, 'y');
    assert!(config.warning.is_some());
}

#[test]
fn custom_theme_names_and_files_survive_configuration_parsing() {
    // name = 'ocean', auto_clear_clipboard_seconds = 12
    let mut named = settings('y', 12, 300);
    named.theme.name = "ocean".into();
    let named = named.repaired();
    assert_eq!(named.theme.name, "ocean");
    assert!(named.theme.file.is_none());
    assert!(named.warning.is_none());
    assert_eq!(named.behavior.auto_clear_clipboard_seconds, 12);
    let mut file = Config::default();
    file.theme.file = Some("themes/ocean.toml".into());
    let file = file.repaired();
    assert_eq!(file.theme.file.as_deref(), Some("themes/ocean.toml"));
}

#[test]
fn repair_warnings_name_every_repair() {
    let both = settings('q', 86401, 300).repaired();
    assert_eq!(
        both.warning.as_deref(),
        Some("Copy shortcut conflicts with another action; using y. Clipboard timeout must be 1–86400 seconds; using 45 seconds.")
    );
    let control = settings('\u{7}', 86400, 300).repaired();
    assert_eq!(
        control.warning.as_deref(),
        Some("Copy shortcut conflicts with another action; using y.")
    );
    assert_eq!(control.behavior.auto_clear_clipboard_seconds, 86400);
    let mut kept = settings('c', 30, 300);
    kept.warning = Some("earlier".into());
    let kept = kept.repaired();
    assert_eq!(kept.warning.as_deref(), Some("earlier"));
    assert_eq!(kept.keybindings.copy_password, 'c');
    let mut merged = Config::default();
    merged.add_warning("first");
    merged.add_warning("second");
    assert_eq!(merged.warning.as_deref(), Some("first second"));
    assert_eq!(
        Config::unreadable("denied").warning.as_deref(),
        Some("Cannot read config: denied. Using defaults.")
    );
}

#[test]
fn idle_lock_waits_for_the_limit_and_zero_disables_it() {
    let mut behavior = BehaviorConfig::default();
    assert!(!behavior.idle_lock_due(false, 299));
    assert!(behavior.idle_lock_due(false, 300));
    assert!(!behavior.idle_lock_due(true, 900));
    behavior.idle_lock_seconds = 0;
    assert!(!behavior.idle_lock_due(false, 100_000));
}
