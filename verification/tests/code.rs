//! Syntax highlighting.
use termmd::render::code::{convert_color, Shade};
use termmd::render::Highlighter;
use termmd::term::Color;

fn hl() -> Highlighter {
    Highlighter::new("base16-ocean.dark")
}

#[test]
fn highlights_rust_with_more_than_one_colour() {
    let h = hl();
    let lines = h.highlight("fn main() { let x = 1; }", Some("rust"));
    assert_eq!(lines.len(), 1);
    let colours: std::collections::HashSet<_> = lines[0]
        .iter()
        .map(|(s, _)| format!("{:?}", s.fg))
        .collect();
    assert!(
        colours.len() > 1,
        "expected several colours, got {colours:?}"
    );
}

#[test]
fn round_trips_the_source_text() {
    let h = hl();
    let src = "def f(x):\n    return x * 2\n";
    let lines = h.highlight(src, Some("python"));
    let joined: String = lines
        .iter()
        .map(|l| l.iter().map(|(_, t)| t.as_str()).collect::<String>())
        .collect::<Vec<_>>()
        .join("\n");
    assert_eq!(joined.trim_end(), src.trim_end());
}

#[test]
fn resolves_common_language_aliases() {
    let h = hl();
    for lang in [
        "rs", "py", "js", "ts", "yml", "sh", "zsh", "console", "golang",
    ] {
        assert!(
            h.can_highlight(Some(lang), ""),
            "{lang} should resolve to a grammar"
        );
    }
}

#[test]
fn unknown_languages_fall_back_to_plain_text() {
    let h = hl();
    let lines = h.highlight("some text\nmore", Some("no-such-language-xyz"));
    assert_eq!(lines.len(), 2);
    assert_eq!(lines[0][0].1, "some text");
}

#[test]
fn sniffs_shebangs_when_no_language_is_given() {
    let h = hl();
    assert!(h.can_highlight(None, "#!/bin/bash\necho hi"));
}

#[test]
fn falls_back_when_the_theme_is_unknown() {
    let h = Highlighter::new("no-such-theme");
    assert!(!h.theme_name().is_empty());
    assert!(
        h.theme_names().len() > 5,
        "the extended theme set should be loaded"
    );
}

#[test]
fn plain_highlighter_never_panics() {
    let h = Highlighter::plain();
    let lines = h.highlight("anything", Some("rust"));
    assert_eq!(lines[0][0].1, "anything");
}

#[test]
fn honours_the_ansi_palette_convention() {
    assert_eq!(
        convert_color(Shade {
            r: 4,
            g: 0,
            b: 0,
            a: 0,
            font: 0,
        }),
        Color::Indexed(4)
    );
    assert_eq!(
        convert_color(Shade {
            r: 0,
            g: 0,
            b: 0,
            a: 1,
            font: 0,
        }),
        Color::Default
    );
    assert_eq!(
        convert_color(Shade {
            r: 1,
            g: 2,
            b: 3,
            a: 255,
            font: 0,
        }),
        Color::rgb(1, 2, 3)
    );
}

#[test]
fn empty_code_produces_no_lines() {
    // An empty block has nothing to highlight; the renderer draws the
    // surrounding panel and this returns nothing to put in it.
    assert!(hl().highlight("", Some("rust")).is_empty());
}

#[test]
fn a_blank_line_is_preserved() {
    let lines = hl().highlight("a\n\nb", Some("text"));
    assert_eq!(lines.len(), 3, "the blank line must survive: {lines:?}");
}

#[test]
fn the_embedded_themes_are_those_listed() {
    let names = hl().theme_names();
    assert_eq!(names.len(), 29);
    assert_eq!(names[0], "1337");
    assert_eq!(names[24], "base16-ocean.dark");
    assert_eq!(names[28], "zenburn");
    for fallback in ["base16-ocean.dark", "Monokai Extended", "InspiredGitHub"] {
        assert!(names.iter().any(|n| n == fallback));
    }
}

#[test]
fn common_languages_have_a_grammar() {
    let h = hl();
    for lang in [
        "bash", "c", "css", "dockerfile", "go", "html", "java", "javascript", "json", "markdown",
        "python", "ruby", "rust", "sql", "terraform", "toml", "typescript", "xml", "yaml",
    ] {
        assert!(h.can_highlight(Some(lang), ""), "{lang}");
    }
    let languages = h.language_names();
    for name in ["TOML", "TypeScript", "Dockerfile"] {
        assert!(languages.iter().any(|l| l == name), "{name}");
    }
}
