use cosmic_wanderer::config::default_config;

#[test]
fn default_config_holds_the_documented_values() {
    let c = default_config();
    assert_eq!(c.theme.window_background.red, 24);
    assert_eq!(c.theme.window_background.green, 24);
    assert_eq!(c.theme.window_background.blue, 37);
    assert_eq!(c.theme.window_background.alpha, 204);
    assert_eq!(c.theme.selected_item_background.red, 203);
    assert_eq!(c.theme.item_height, 65);
    assert_eq!(c.theme.icon_size, 48);
    assert_eq!(c.theme.font_family, "JetBrainsMono NF SemiBold");
    assert_eq!(c.theme.font_weight, 650);
    assert_eq!(c.theme.window_width, 400);
    assert_eq!(c.theme.window_height, 580);
    assert_eq!(c.general.icon_theme, "Papirus-Dark");
    assert_eq!(c.general.socket_path, "/tmp/comsic-wanderer.sock");
}
