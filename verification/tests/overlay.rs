//! Panels over a document.
use termmd::pager::overlay::{draw, help, Item, Panel};
use termmd::render::glyphs;
use termmd::term::{ColorDepth, StyleWriter};
use termmd::theme::Theme;

fn render(items: &Vec<Item>, selection: usize, cols: u16, rows: u16) -> String {
    let theme = Theme::mono();
    let panel = Panel {
        title: "Contents",
        items,
        selection,
        cols,
        rows,
        theme: &theme,
        glyphs: glyphs::ascii(),
    };
    let mut out = String::new();
    let mut writer = StyleWriter::new(ColorDepth::Mono);
    draw(&mut out, &mut writer, &panel);
    out
}

fn items(names: &[&str]) -> Vec<Item> {
    names
        .iter()
        .map(|n| Item {
            text: (*n).into(),
            detail: String::new(),
        })
        .collect()
}

#[test]
fn draws_a_bordered_box_with_a_title() {
    let out = render(&items(&["one", "two"]), 0, 60, 20);
    assert!(out.contains("Contents"));
    assert!(out.contains('+'), "expected ASCII corners: {out:?}");
    assert!(out.contains("one") && out.contains("two"));
}

#[test]
fn marks_the_selection() {
    let out = render(&items(&["one", "two"]), 1, 60, 20);
    assert!(
        out.contains(">two"),
        "selected row should be marked: {out:?}"
    );
    assert!(!out.contains(">one"));
}

#[test]
fn scrolls_to_keep_the_selection_visible() {
    let many: Vec<String> = (0..50).map(|i| format!("item{i}")).collect();
    let refs: Vec<&str> = many.iter().map(String::as_str).collect();
    let out = render(&items(&refs), 49, 60, 12);
    assert!(out.contains("item49"), "the selection must be on screen");
    assert!(
        !out.contains("item0 "),
        "the top of the list should have scrolled away"
    );
}

#[test]
fn truncates_long_entries_to_the_box() {
    let long = "x".repeat(200);
    let out = render(&items(&[&long]), 0, 40, 20);
    for line in out.split("\x1b[").filter(|s| s.contains('x')) {
        assert!(line.len() < 60, "row was not truncated: {line:?}");
    }
}

#[test]
fn survives_a_tiny_terminal() {
    let out = render(&items(&["a", "b", "c"]), 0, 10, 5);
    assert!(!out.is_empty());
}

#[test]
fn empty_panels_still_draw_a_box() {
    let out = render(&Vec::new(), 0, 40, 20);
    assert!(out.contains('+'));
}

#[test]
fn help_entries_are_two_columns() {
    let entries: Vec<Item> = help()
        .iter()
        .map(|(k, d)| Item {
            text: (*k).into(),
            detail: (*d).into(),
        })
        .collect();
    let out = render(&entries, 0, 70, 30);
    assert!(
        out.contains("quit"),
        "descriptions should be drawn: {out:?}"
    );
}
