use passtui::config::{Config, ThemeConfig};
use passtui::theme::{
    build_theme, catppuccin_mocha, default_base, palette_for, strength_color, theme_failed,
    theme_path, theme_source, Color, ThemeColor, ThemeSource,
};

#[test]
fn paths_resolve_relative_to_config_not_working_directory() {
    let root = "/tmp/passtui-theme-config";
    let mut config = ThemeConfig { name: "my-theme".into(), file: None };
    assert_eq!(
        std::path::PathBuf::from(theme_path(&config, Some(root)).unwrap()),
        std::path::Path::new(root).join("themes/my-theme.toml")
    );
    config.file = Some("themes/custom.toml".into());
    assert_eq!(
        std::path::PathBuf::from(theme_path(&config, Some(root)).unwrap()),
        std::path::Path::new(root).join("themes/custom.toml")
    );
    config.file = Some("/tmp/shared-theme.toml".into());
    assert_eq!(
        std::path::PathBuf::from(theme_path(&config, None).unwrap()),
        std::path::Path::new("/tmp/shared-theme.toml")
    );
    config.file = None;
    config.name = "../escape".into();
    assert!(theme_path(&config, Some(root)).is_err());
}

#[test]
fn supports_all_bundled_presets() {
    for name in [
        "catppuccin-mocha",
        "catppuccin-latte",
        "tokyo-night",
        "gruvbox",
        "nord",
        "dracula",
    ] {
        let palette = palette_for(name).expect("bundled preset");
        assert!(matches!(palette.text, Color::Rgb(_, _, _)));
    }
    assert_eq!(palette_for("Tokyo_Night"), palette_for("tokyo-night"));
    assert!(palette_for("ocean").is_none());
}

#[test]
fn partial_theme_inherits_omitted_colors() {
    // base = 'nord'; primary = '#012aEF', background = 'default', accent = 208
    let theme = build_theme(
        "nord",
        &vec![
            ("accent".to_string(), ThemeColor::Indexed(208)),
            ("background".to_string(), ThemeColor::Text("default".into())),
            ("primary".to_string(), ThemeColor::Text("#012aEF".into())),
        ],
    )
    .unwrap();
    let base = palette_for("nord").unwrap();
    assert_eq!(theme.primary, Color::Rgb(1, 42, 239));
    assert_eq!(theme.background, Color::Reset);
    assert_eq!(theme.accent, Color::Indexed(208));
    assert_eq!(theme.selection_bg, base.selection_bg);
    assert_eq!(theme.text, base.text);
}

#[test]
fn malformed_and_misspelled_colors_are_rejected() {
    for value in ["#123", "#gggggg", "#ééé", "red"] {
        assert!(
            build_theme(&default_base(), &vec![("primary".to_string(), ThemeColor::Text(value.into()))])
                .is_err(),
            "accepted {value}"
        );
    }
    assert!(
        build_theme(&default_base(), &vec![("primry".to_string(), ThemeColor::Text("#123456".into()))])
            .unwrap_err()
            .contains("primry")
    );
    assert!(build_theme("missing", &vec![]).is_err());
}

#[test]
fn named_presets_need_no_file_and_failures_keep_other_warnings() {
    let default = ThemeConfig::default();
    assert!(matches!(theme_source(&default, None), Ok(ThemeSource::Preset(p)) if p == catppuccin_mocha()));
    let named = ThemeConfig { name: "my-theme".into(), file: None };
    assert!(matches!(theme_source(&named, Some("/cfg")), Ok(ThemeSource::File(p)) if p == "/cfg/themes/my-theme.toml"));
    let empty = ThemeConfig { name: "nord".into(), file: Some(String::new()) };
    assert_eq!(theme_path(&empty, None).unwrap_err(), "Theme file path cannot be empty");
    let mut config = Config::default();
    config.warning = Some("Existing configuration warning.".into());
    config.behavior.auto_clear_clipboard_seconds = 12;
    theme_failed(&mut config, "Theme file path cannot be empty");
    let warning = config.warning.unwrap();
    assert!(warning.contains("Existing configuration warning."));
    assert!(warning.contains("empty"));
    assert!(warning.ends_with(". Using catppuccin-mocha."));
    assert_eq!(config.behavior.auto_clear_clipboard_seconds, 12);
    let p = catppuccin_mocha();
    assert_eq!(strength_color(&p, 1), p.error);
    assert_eq!(strength_color(&p, 2), p.warning);
    assert_eq!(strength_color(&p, 4), p.success);
}
