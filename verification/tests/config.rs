use ink::config::{
    apply, config_path, config_path_string, parse_color, parse_theme, theme_setting_valid,
    update_config_text, Color, Theme,
};

#[test]
fn colors_in_hex_and_by_name() {
    assert_eq!(parse_color("#ff8000"), Some(Color::Rgb { r: 255, g: 128, b: 0 }));
    assert_eq!(parse_color("#FFffFF"), Some(Color::Rgb { r: 255, g: 255, b: 255 }));
    assert_eq!(parse_color("#+f+f+f"), Some(Color::Rgb { r: 15, g: 15, b: 15 }));
    assert_eq!(parse_color("#12345"), None);
    assert_eq!(parse_color("#12345g"), None);
    assert_eq!(parse_color("Red"), Some(Color::Red));
    assert_eq!(parse_color("DARKGRAY"), Some(Color::DarkGrey));
    assert_eq!(parse_color("darkgrey"), Some(Color::DarkGrey));
    assert_eq!(parse_color("gray"), Some(Color::Grey));
    assert_eq!(parse_color("purple"), None);
    assert_eq!(parse_color(""), None);
}

#[test]
fn hex_with_a_multibyte_character_is_no_colour() {
    // '#', 'a', then a two-byte character straddling byte 2 of the hex part.
    assert_eq!(parse_color("#aé123"), None);
    assert_eq!(parse_color("#aéaaa"), None);
    assert_eq!(parse_color("#12aé1"), None);
    assert_eq!(parse_color("#é1234"), None);
    assert_eq!(parse_color("#ff0080"), Some(Color::Rgb { r: 255, g: 0, b: 128 }));
    assert_eq!(parse_color("GREY"), Some(Color::Grey));
    assert_eq!(parse_color("#fff"), None);
    assert_eq!(parse_color("teal"), None);
}

#[test]
fn default_theme_is_terminal_default() {
    let t = Theme::default();
    assert_eq!(t.text, Color::Reset);
    assert_eq!(t.warning_foreground, Color::Reset);
}

#[test]
fn apply_sets_known_keys() {
    let mut t = Theme::default();
    let mut errors = Vec::new();
    apply(&mut t, "tilde", Color::Blue, 3, &mut errors);
    assert_eq!(t.tilde, Color::Blue);
    assert!(errors.is_empty());
    apply(&mut t, "nope", Color::Blue, 7, &mut errors);
    assert_eq!(errors, vec!["line 7: unknown setting 'nope'".to_string()]);
}

#[test]
fn theme_file_applies_good_lines_and_reports_bad_ones() {
    let text = "# comment\n\ntext = red\nbogus\nstatus_background=#000010\nwho = blue\ntilde = mauve\n";
    let (t, w) = parse_theme(text);
    assert_eq!(t.text, Color::Red);
    assert_eq!(t.status_background, Color::Rgb { r: 0, g: 0, b: 16 });
    assert_eq!(t.tilde, Color::Reset);
    assert_eq!(
        w,
        Some(
            "~/.inkrc: line 4: expected 'key = value'; line 6: unknown setting 'who'; line 7: unknown color 'mauve'"
                .to_string()
        )
    );
}

#[test]
fn empty_theme_file_means_defaults() {
    let (t, w) = parse_theme("");
    assert_eq!(t, Theme::default());
    assert_eq!(w, None);
    let (t, w) = parse_theme("  # only a comment\n\n");
    assert_eq!(t, Theme::default());
    assert_eq!(w, None);
}

#[test]
fn multibyte_hex_values_are_reported_as_unknown_colours() {
    let (t, w) = parse_theme("text = #aé123\ntilde = red\n");
    assert_eq!(t.text, Color::Reset);
    assert_eq!(t.tilde, Color::Red);
    assert_eq!(w, Some("~/.inkrc: line 1: unknown color '#aé123'".to_string()));
    assert!(!theme_setting_valid("text", "#aé123"));
}

#[test]
fn settings_are_validated_like_the_loader() {
    assert!(theme_setting_valid("text", "red"));
    assert!(!theme_setting_valid("text", "mauve"));
    assert!(!theme_setting_valid("texture", "red"));
}

#[test]
fn update_replaces_first_setting_or_appends() {
    assert_eq!(update_config_text("", "text", "red"), "text = red\n");
    assert_eq!(
        update_config_text("# text = blue\ntext=blue\ntilde = red", "text", "green"),
        "# text = blue\ntext = green\ntilde = red\n"
    );
    assert_eq!(update_config_text("tilde = red\n", "text", "green"), "tilde = red\ntext = green\n");
}

#[test]
fn set_then_load_gives_the_new_value() {
    let text = update_config_text("text = blue\ntilde = red\n", "text", "#102030");
    let (t, w) = parse_theme(&text);
    assert_eq!(t.text, Color::Rgb { r: 16, g: 32, b: 48 });
    assert_eq!(t.tilde, Color::Red);
    assert_eq!(w, None);
}

#[test]
fn config_path_prefers_ink_config_then_home() {
    let s = |x: &str| Some(x.to_string());
    assert_eq!(config_path(s("/etc/ink"), s("/home/u"), None), s("/etc/ink"));
    assert_eq!(config_path(None, s("/home/u"), s("C:/u")), s("/home/u/.inkrc"));
    assert_eq!(config_path(None, s("/home/u/"), None), s("/home/u/.inkrc"));
    assert_eq!(config_path(None, None, s("C:/u")), s("C:/u/.inkrc"));
    assert_eq!(config_path(None, None, None), None);
    assert_eq!(config_path_string(None, None, None), "");
    assert_eq!(config_path_string(None, s("/h"), None), "/h/.inkrc");
}
