//! Themes.
use termmd::markdown::AlertKind;
use termmd::term::{Color, Style};
use termmd::theme::{parse_style, StyleError, Theme, ThemeError, ThemeFile};

#[test]
fn builtins_exist_and_differ() {
    let d = Theme::dark();
    let l = Theme::light();
    assert!(d.dark && !l.dark);
    assert_ne!(d.headings[0], l.headings[0]);
    for name in Theme::builtin_names() {
        assert!(
            Theme::builtin(name).is_some(),
            "{name} should be a built-in"
        );
    }
    assert!(Theme::builtin("nope").is_none());
}

#[test]
fn parses_style_specs() {
    assert_eq!(parse_style("bold").unwrap(), Style::plain().bold());
    assert_eq!(
        parse_style("#ff8800").unwrap(),
        Style::plain().fg(Color::rgb(255, 136, 0))
    );
    assert_eq!(
        parse_style("#fff on #000 italic").unwrap(),
        Style::plain()
            .fg(Color::rgb(255, 255, 255))
            .bg(Color::rgb(0, 0, 0))
            .italic()
    );
    assert_eq!(
        parse_style("red").unwrap(),
        Style::plain().fg(Color::Indexed(1))
    );
    assert_eq!(
        parse_style("@42").unwrap(),
        Style::plain().fg(Color::Indexed(42))
    );
    assert_eq!(parse_style("none").unwrap(), Style::plain());
}

#[test]
fn rejects_nonsense_specs() {
    assert!(parse_style("chartreuse").is_err());
    assert!(parse_style("bold on").is_err());
}

/// A theme file with nothing in it but the given entries.
fn file(base: Option<&str>, styles: &[(&str, &str)]) -> ThemeFile {
    ThemeFile {
        name: None,
        base: base.map(str::to_string),
        dark: None,
        syntax_theme: None,
        code_block_bg: None,
        styles: styles
            .iter()
            .map(|(k, v)| (k.to_string(), v.to_string()))
            .collect(),
    }
}

#[test]
fn theme_files_layer_over_a_base() {
    let t = Theme::layered(&ThemeFile {
        name: Some("custom".to_string()),
        ..file(
            Some("light"),
            &[
                ("h1", "#ff0000 bold underline"),
                ("inline_code", "bold"),
                ("table_stripe", "none"),
            ],
        )
    })
    .unwrap();
    assert_eq!(t.name, "custom");
    assert!(!t.dark, "should inherit light from the base");
    assert_eq!(
        t.headings[0],
        Style::plain().fg(Color::rgb(255, 0, 0)).bold().underline()
    );
    assert_eq!(t.inline_code, Style::plain().bold());
    // Untouched roles keep the base values.
    assert_eq!(t.headings[1], Theme::light().headings[1]);
}

#[test]
fn unknown_base_is_an_error() {
    assert!(Theme::layered(&file(Some("neon"), &[])).is_err());
}

#[test]
fn unknown_roles_are_rejected_with_a_hint() {
    let err = Theme::layered(&file(None, &[("headline", "bold")]))
        .unwrap_err()
        .message();
    assert!(err.contains("headline"), "{err}");
    assert!(
        err.contains("h1"),
        "should list the roles that do exist: {err}"
    );
}

#[test]
fn roles_accept_hyphens_or_underscores() {
    let a = Theme::layered(&file(None, &[("link-text", "bold")])).unwrap();
    let b = Theme::layered(&file(None, &[("link_text", "bold")])).unwrap();
    assert_eq!(a.link_text, Style::plain().bold());
    assert_eq!(a.link_text, b.link_text);
}

#[test]
fn a_bad_style_spec_names_the_key() {
    let err = Theme::layered(&file(None, &[("h1", "chartreuse")]))
        .unwrap_err()
        .message();
    assert!(err.contains("h1"), "{err}");
}

#[test]
fn every_error_says_what_is_wrong() {
    let dangling = parse_style("bold on").unwrap_err();
    assert_eq!(dangling, StyleError::DanglingOn("bold on".to_string()));
    assert_eq!(
        dangling.message(),
        "`on` must be followed by a colour in \"bold on\""
    );
    assert_eq!(
        parse_style("@300").unwrap_err().message(),
        "bad palette index \"@300\""
    );
    assert_eq!(
        parse_style("chartreuse").unwrap_err().message(),
        "unknown colour \"chartreuse\""
    );
    assert_eq!(
        Theme::layered(&file(Some("neon"), &[])).unwrap_err().message(),
        "unknown base theme \"neon\"; try one of [\"dark\", \"light\", \"mono\"]"
    );
    let bad = ThemeFile {
        code_block_bg: Some("#12".to_string()),
        ..file(None, &[])
    };
    assert_eq!(
        Theme::layered(&bad).unwrap_err(),
        ThemeError::BadColor("#12".to_string())
    );
}

#[test]
fn alert_and_heading_lookups_are_in_range() {
    let t = Theme::dark();
    assert_eq!(t.heading(0), t.headings[0], "level 0 clamps to h1");
    assert_eq!(t.heading(9), t.headings[5], "level 9 clamps to h6");
    assert_eq!(t.alert(AlertKind::Caution), t.alerts[4]);
}

#[test]
fn the_words_of_a_style_come_in_any_order() {
    let style = parse_style("#fff on #333 bold italic").unwrap();
    assert_eq!(parse_style("italic on #333 bold #fff").unwrap(), style);
    assert_eq!(parse_style("bold #fff italic on #333").unwrap(), style);
    assert_eq!(parse_style("none").unwrap(), Style::plain());
    assert_eq!(parse_style("").unwrap(), Style::plain());
    assert!(parse_style("bold wibble").is_err());
    assert!(parse_style("wibble bold").is_err());
}

#[test]
fn a_palette_index_is_a_number_up_to_255() {
    assert!(matches!(parse_style("@-5"), Err(StyleError::BadIndex(_))));
    assert!(matches!(parse_style("@256"), Err(StyleError::BadIndex(_))));
    assert_eq!(
        parse_style("@+5").unwrap(),
        Style::plain().fg(Color::Indexed(5))
    );
    assert_eq!(
        parse_style("@255").unwrap(),
        Style::plain().fg(Color::Indexed(255))
    );
}
