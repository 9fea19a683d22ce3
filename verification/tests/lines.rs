//! Spans, lines and hyperlinks.
use termmd::render::inline::{display_width, Align};
use termmd::render::{hyperlink_uri, hyperlink_uri_on, merge_spans, Line, Span};
use termmd::term::Style;

#[test]
fn merges_adjacent_spans_with_equal_style() {
    let spans = vec![
        Span::plain("a".into()),
        Span::plain("b".into()),
        Span::new("c".into(), Style::plain().bold(), None),
    ];
    let merged = merge_spans(spans);
    assert_eq!(merged.len(), 2);
    assert_eq!(merged[0].text, "ab");
}

#[test]
fn drops_empty_spans() {
    assert_eq!(
        merge_spans(vec![Span::plain("".into()), Span::plain("x".into())]).len(),
        1
    );
}

#[test]
fn slices_columns_for_horizontal_scrolling() {
    let line = Line::from_spans(vec![
        Span::plain("abcdef".into()),
        Span::new("ghij".into(), Style::plain().bold(), None),
    ]);
    let spans = line.slice_columns(4, 8);
    let text: String = spans.iter().map(|s| s.text.as_str()).collect();
    assert_eq!(text, "efgh");
}

#[test]
fn slicing_keeps_width_exact_across_wide_chars() {
    let line = Line::from_spans(vec![Span::plain("あいう".into())]);
    // Cutting through the middle of a double-width cell yields a space.
    let spans = line.slice_columns(1, 4);
    let text: String = spans.iter().map(|s| s.text.as_str()).collect();
    assert_eq!(display_width(&text), 3);
    assert!(text.starts_with(' '));
}

#[test]
fn local_paths_become_file_uris_for_hyperlinks() {
    assert_eq!(hyperlink_uri("https://example.com"), "https://example.com");
    assert_eq!(hyperlink_uri("#anchor"), "#anchor");
    assert_eq!(hyperlink_uri("relative.md"), "relative.md");

    // Built for whatever platform this is, rather than assuming a leading
    // slash: on Windows an absolute path starts with a drive letter.
    let absolute = std::path::absolute("notes.md").unwrap();
    let uri = hyperlink_uri(absolute.to_str().unwrap());
    assert!(uri.starts_with("file:///"), "got {uri}");
    assert!(!uri.contains('\\'), "a URI uses forward slashes: {uri}");
    assert!(uri.ends_with("notes.md"), "got {uri}");
}

#[test]
fn file_uris_encode_awkward_characters() {
    assert_eq!(hyperlink_uri("/docs/notes.md"), "file:///docs/notes.md");
    assert_eq!(
        hyperlink_uri("/docs/my notes.md"),
        "file:///docs/my%20notes.md"
    );
}

#[test]
fn windows_paths_become_well_formed_file_uris() {
    assert_eq!(
        hyperlink_uri_on(r"C:\docs\notes.md", true),
        "file:///C:/docs/notes.md"
    );
    assert_eq!(
        hyperlink_uri_on(r"C:\docs\my notes.md", true),
        "file:///C:/docs/my%20notes.md"
    );
}

#[test]
fn alignment_pads_the_left() {
    let mut line = Line::from_spans(vec![Span::plain("ab".into())]);
    line.align(6, Align::Right);
    assert_eq!(line.text(), "    ab");
}
