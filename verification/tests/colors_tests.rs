use world_core::colors::{
    get_log_level_color, parse_to_console_godot, parse_to_terminal_colors, Color, LogLevel,
};

#[test]
fn test_terminal_colors() {
    let r = parse_to_terminal_colors(&"&5magenta_blue-&1_skeep-\\&2_gold-&6_red-&4_test".to_string());
    assert_eq!(
        r,
        "\u{1b}[0;38;2;170;0;170mmagenta_blue-\u{1b}[0;38;2;0;0;170m_skeep-&2_gold-\u{1b}[0;38;2;255;170;0m_red-\u{1b}[0;38;2;170;0;0m_test\u{1b}[0;0m"
            .to_string()
    );
}

#[test]
fn test_to_godot() {
    let r = parse_to_console_godot(&"time: &8main &aINFO&r: text".to_string());
    assert_eq!(
        r,
        "time: [color=#787878]main [color=#55FF55]INFO[/color]: text[/color]".to_string()
    );
}

#[test]
fn godot_output_without_tags_is_left_unclosed() {
    let r = parse_to_console_godot(&"plain text".to_string());
    assert_eq!(r, "plain text".to_string());
}

#[test]
fn color_codes_parse_and_render() {
    assert_eq!(Color::from_str("&c"), Some(Color::Red));
    assert_eq!(Color::from_str("&r"), Some(Color::Reset));
    assert_eq!(Color::from_str("&z"), None);
    assert_eq!(Color::from_str("c"), None);
    assert_eq!(Color::from_str("&cc"), None);
    assert_eq!(Color::Red.to_terminal_code(), "38;2;255;85;85");
    assert_eq!(Color::Reset.to_terminal(), "\u{1b}[0;0m");
    assert_eq!(Color::Green.to_godot_tag(), "[color=#55FF55]");
}

#[test]
fn log_levels_have_their_colors() {
    assert_eq!(get_log_level_color(&LogLevel::Error), "&c");
    assert_eq!(get_log_level_color(&LogLevel::Warn), "&6");
    assert_eq!(get_log_level_color(&LogLevel::Info), "&a");
    assert_eq!(get_log_level_color(&LogLevel::Debug), "&e");
    assert_eq!(get_log_level_color(&LogLevel::Trace), "&8");
}
