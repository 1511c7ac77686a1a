use cheru::config::{default_autostart, default_hotkey, default_theme, Config};

#[test]
fn defaults() {
    assert_eq!(default_hotkey(), "Alt+Space");
    assert_eq!(default_theme(), "gruvbox");
    assert!(default_autostart());
    let c = Config::default();
    assert_eq!(c.hotkey, "Alt+Space");
    assert!(c.colors.is_empty());
    let t = c.theme_config();
    assert_eq!(t.theme, "gruvbox");
}
