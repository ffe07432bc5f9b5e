use melon::config::Config;
use melon::ui::render::Theme;

#[test]
fn test_config_default_keeps_theme_defaults() {
    let config = Config::default();
    let theme = config.theme();
    assert_eq!(theme.max_visible, 8);
    assert_eq!(theme.min_width, 20);
    assert_eq!(theme.max_width, 60);
    assert!(!theme.show_description_panel);
    assert_eq!(config.max_visible_or(&theme), 8);
}

#[test]
fn test_config_overrides_panel_and_rows() {
    let config = Config {
        max_visible: Some(12),
        specs_dir: None,
        show_description_panel: Some(true),
    };
    let theme = config.theme();
    assert!(theme.show_description_panel);
    assert_eq!(theme.max_visible, 8);
    assert_eq!(config.max_visible_or(&theme), 12);

    let off = Config { max_visible: None, specs_dir: None, show_description_panel: Some(false) };
    assert!(!off.theme().show_description_panel);
    let custom = Theme { max_visible: 5, min_width: 20, max_width: 60, show_description_panel: false };
    assert_eq!(off.max_visible_or(&custom), 5);
}

#[test]
fn test_config_specs_dir_configured() {
    let config = Config {
        max_visible: None,
        specs_dir: Some("/opt/specs".to_string()),
        show_description_panel: None,
    };
    assert_eq!(config.specs_dir(Some("/home/u/.local/share".to_string())), "/opt/specs");
}

#[test]
fn test_config_specs_dir_default_locations() {
    let config = Config::default();
    assert_eq!(
        config.specs_dir(Some("/home/u/.local/share".to_string())),
        "/home/u/.local/share/melon/specs"
    );
    assert_eq!(config.specs_dir(Some("/data/".to_string())), "/data/melon/specs");
    assert_eq!(config.specs_dir(None), "./melon/specs");
    assert_eq!(config.specs_dir(Some(String::new())), "melon/specs");
}
