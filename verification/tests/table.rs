//! Tables.
use termmd::markdown::{parse, ParseOptions};
use termmd::render::inline::display_width;
use termmd::render::{glyphs, render, Highlighter, LinkMode, NoImages, RenderOptions};
use termmd::term::Capabilities;
use termmd::theme::Theme;

fn table_text(src: &str, width: usize) -> String {
    let doc = parse(src, ParseOptions::default());
    let opts = RenderOptions {
        width,
        margin: 0,
        images: false,
        glyphs: glyphs::ascii(),
        ..Default::default()
    };
    render(
        &doc,
        &opts,
        &Theme::mono(),
        &Capabilities::default(),
        &mut NoImages,
        &Highlighter::plain(),
    )
    .plain_text()
}

const SIMPLE: &str = "| Name | Qty |\n|------|----:|\n| Apple | 3 |\n| Banana | 12 |\n";

#[test]
fn draws_a_grid() {
    let out = table_text(SIMPLE, 40);
    let lines: Vec<&str> = out.lines().collect();
    assert!(
        lines[0].starts_with('+'),
        "expected a top border: {:?}",
        lines[0]
    );
    assert!(lines.iter().any(|l| l.contains("Apple")));
    assert!(lines.last().unwrap().starts_with('+'));
}

#[test]
fn every_row_has_the_same_width() {
    let out = table_text(SIMPLE, 40);
    let widths: Vec<usize> = out.lines().map(display_width).collect();
    assert!(
        widths.windows(2).all(|w| w[0] == w[1]),
        "ragged table: {widths:?}"
    );
}

#[test]
fn never_exceeds_the_available_width() {
    let long = "| Column | Description |\n|---|---|\n| x | a very long description that must be wrapped inside its cell |\n";
    for width in [30usize, 40, 60, 100] {
        let out = table_text(long, width);
        for line in out.lines() {
            assert!(display_width(line) <= width, "width {width}: {line:?}");
        }
    }
}

#[test]
fn wraps_the_prose_column_and_keeps_narrow_ones_intact() {
    let src = "| Ver | Notes |\n|---|---|\n| 1.2.0 | a long note that will need to wrap across lines |\n";
    let out = table_text(src, 40);
    assert!(
        out.contains("1.2.0"),
        "narrow column should not wrap: {out}"
    );
    let body_rows = out.lines().filter(|l| l.starts_with('|')).count();
    assert!(
        body_rows >= 3,
        "the prose column should have wrapped: {out}"
    );
}

#[test]
fn respects_explicit_alignment() {
    let src = "| L | C | R |\n|:--|:-:|--:|\n| a | b | c |\n";
    let out = table_text(src, 30);
    let row = out.lines().find(|l| l.contains('a')).unwrap();
    let cells: Vec<&str> = row.split('|').filter(|s| !s.trim().is_empty()).collect();
    assert!(cells[0].starts_with(" a"), "left: {:?}", cells[0]);
    assert!(cells[2].ends_with("c "), "right: {:?}", cells[2]);
}

#[test]
fn right_aligns_numeric_columns_automatically() {
    let src = "| Item | Count |\n|---|---|\n| a | 5 |\n| b | 1000 |\n";
    let out = table_text(src, 30);
    let row = out.lines().find(|l| l.contains(" 5 ")).unwrap();
    assert!(row.contains("   5 "), "expected a right-aligned 5: {row:?}");
}

#[test]
fn falls_back_to_records_when_too_narrow() {
    let out = table_text("| A | B | C |\n|---|---|---|\n| 1 | 2 | 3 |\n", 12);
    assert!(!out.contains('+'), "should not draw a grid: {out}");
    assert!(out.contains("A: 1"), "got {out}");
    assert!(out.contains("C: 3"));
}

#[test]
fn handles_ragged_rows() {
    let out = table_text("| A | B |\n|---|---|\n| 1 |\n| 1 | 2 |\n", 30);
    let widths: Vec<usize> = out.lines().map(display_width).collect();
    assert!(
        widths.windows(2).all(|w| w[0] == w[1]),
        "ragged: {widths:?}"
    );
}

#[test]
fn handles_wide_characters_in_cells() {
    let out = table_text("| Name | 説明 |\n|---|---|\n| x | 日本語のテキスト |\n", 40);
    let widths: Vec<usize> = out.lines().map(display_width).collect();
    assert!(
        widths.windows(2).all(|w| w[0] == w[1]),
        "CJK broke alignment: {out}"
    );
}

#[test]
fn table_with_no_body_rows_still_renders() {
    let out = table_text("| A | B |\n|---|---|\n", 30);
    assert!(out.contains('A') && out.contains('B'));
}

#[test]
fn a_link_in_a_table_is_listed_once() {
    let doc = parse(
        "| A |\n|---|\n| [one](https://example.com/1) |\n",
        ParseOptions::default(),
    );
    let opts = RenderOptions {
        width: 60,
        margin: 0,
        images: false,
        links: LinkMode::Reference,
        glyphs: glyphs::ascii(),
        ..Default::default()
    };
    let out = render(
        &doc,
        &opts,
        &Theme::mono(),
        &Capabilities::default(),
        &mut NoImages,
        &Highlighter::plain(),
    )
    .plain_text();
    assert_eq!(out.matches("https://example.com/1").count(), 1, "{out}");
    assert!(out.contains("[1]") && !out.contains("[2]"), "{out}");
}
