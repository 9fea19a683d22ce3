//! Laying out block-level elements.
use termmd::markdown::{parse, ParseOptions};
use termmd::render::blocks::expand_tabs;
use termmd::render::document::render_document;
use termmd::render::inline::display_width;
use termmd::render::{glyphs, Highlighter, NoImages, RenderOptions};
use termmd::term::Capabilities;
use termmd::theme::Theme;

/// Renders to plain text at a fixed width, which is how most layout
/// assertions in this crate are written.
fn text_at(src: &str, width: usize) -> String {
    let doc = parse(src, ParseOptions::default());
    let opts = RenderOptions {
        width,
        margin: 0,
        images: false,
        glyphs: glyphs::ascii(),
        ..Default::default()
    };
    let caps = Capabilities::default();
    let hl = Highlighter::plain();
    let screen = render_document(&doc, &opts, &Theme::mono(), &caps, &mut NoImages, &hl);
    screen.plain_text()
}

fn text(src: &str) -> String {
    text_at(src, 40)
}

#[test]
fn renders_a_heading_with_marks_and_a_rule() {
    let out = text("# Title\n");
    let lines: Vec<&str> = out.lines().collect();
    assert_eq!(lines[0], "# Title");
    assert!(
        lines[1].starts_with('='),
        "expected a rule, got {:?}",
        lines[1]
    );
}

#[test]
fn wraps_paragraphs_to_the_width() {
    let out = text_at("one two three four five six seven eight nine ten", 20);
    for line in out.lines() {
        assert!(display_width(line) <= 20, "{line:?} is too wide");
    }
    assert!(out.lines().count() >= 3);
}

#[test]
fn nests_lists_with_increasing_indent() {
    let out = text("- one\n  - two\n    - three\n");
    let lines: Vec<&str> = out.lines().collect();
    let indent_of = |s: &str| s.len() - s.trim_start().len();
    assert!(indent_of(lines[1]) > indent_of(lines[0]));
    assert!(indent_of(lines[2]) > indent_of(lines[1]));
}

#[test]
fn aligns_ordered_list_numbers() {
    let src: String = (1..=10).map(|i| format!("{i}. item\n")).collect();
    let out = text(&src);
    let lines: Vec<&str> = out.lines().collect();
    // "9. item" is padded so its text starts in the same column as "10. item".
    let col = |s: &str| s.find("item").unwrap();
    assert_eq!(col(lines[8]), col(lines[9]));
}

#[test]
fn continuation_lines_align_under_item_text() {
    let out = text_at("- a very long list item that needs to wrap somewhere", 24);
    let lines: Vec<&str> = out.lines().collect();
    assert!(lines.len() >= 2);
    assert!(
        lines[1].starts_with("  "),
        "continuation should be indented: {:?}",
        lines[1]
    );
}

#[test]
fn renders_task_lists() {
    let out = text("- [x] done\n- [ ] todo\n");
    assert!(out.contains("[x] done"));
    assert!(out.contains("[ ] todo"));
}

#[test]
fn prefixes_quotes_with_a_bar() {
    let out = text("> quoted text\n");
    assert!(out.starts_with("| quoted"), "got {out:?}");
}

#[test]
fn labels_github_alerts() {
    let out = text("> [!WARNING]\n> Mind the gap.\n");
    assert!(out.contains("WARNING"));
    assert!(out.contains("Mind the gap"));
}

#[test]
fn nested_quotes_stack_bars() {
    let out = text("> outer\n>\n> > inner\n");
    assert!(out.lines().any(|l| l.starts_with("| | ")), "got {out:?}");
}

#[test]
fn shows_link_urls_when_hyperlinks_are_unavailable() {
    let out = text("[text](https://example.com)\n");
    assert!(out.contains("text"));
    assert!(out.contains("(https://example.com)"));
}

#[test]
fn does_not_repeat_autolink_destinations() {
    let out = text("<https://example.com>\n");
    assert_eq!(out.matches("example.com").count(), 1, "got {out:?}");
}

#[test]
fn numbers_footnotes_and_lists_them_at_the_end() {
    let out = text("Body[^a] text.\n\n[^a]: The note.\n");
    assert!(out.contains("Body[1] text."), "got {out:?}");
    assert!(out.contains("[1] The note."));
}

#[test]
fn images_without_a_provider_become_placeholders() {
    let out = text("![A cat](cat.png)\n");
    assert!(out.contains("A cat"), "got {out:?}");
}

#[test]
fn code_blocks_keep_their_indentation() {
    let out = text("```\n  indented\n```\n");
    assert!(out.lines().any(|l| l.contains("  indented")), "got {out:?}");
}

#[test]
fn expands_tabs_in_code() {
    assert_eq!(expand_tabs("a\tb", 4), "a   b");
    assert_eq!(expand_tabs("\tx", 4), "    x");
    assert_eq!(expand_tabs("no tabs", 4), "no tabs");
}

#[test]
fn horizontal_rules_span_the_width() {
    let out = text_at("---\n", 20);
    assert_eq!(display_width(out.trim_end()), 20);
}

#[test]
fn headings_record_anchors() {
    let doc = parse("# One\n\ntext\n\n## Two\n", ParseOptions::default());
    let opts = RenderOptions {
        width: 40,
        margin: 0,
        images: false,
        glyphs: glyphs::ascii(),
        ..Default::default()
    };
    let screen = render_document(
        &doc,
        &opts,
        &Theme::mono(),
        &Capabilities::default(),
        &mut NoImages,
        &Highlighter::plain(),
    );
    assert_eq!(screen.headings.len(), 2);
    assert_eq!(screen.anchor("one"), Some(0));
    let two = screen.anchor("two").expect("second anchor");
    assert!(two > 0);
    assert!(screen.lines[two].text().contains("Two"));
}

#[test]
fn a_narrow_terminal_still_produces_output() {
    // Pathological width: everything must still lay out without panicking.
    for width in [1usize, 2, 3, 5, 10] {
        let out = text_at(
            "# Heading\n\n- list item\n\n> quote\n\n| a | b |\n|---|---|\n| 1 | 2 |\n",
            width,
        );
        assert!(!out.is_empty(), "width {width} produced nothing");
    }
}

#[test]
fn empty_document_renders_nothing() {
    assert_eq!(text(""), "");
}
