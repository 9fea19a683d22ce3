//! Searching a screen.
use termmd::pager::search::{highlight, Match, Search};
use termmd::render::{Line, Screen, Span};
use termmd::term::Style;

fn screen_of(lines: &[&str]) -> Screen {
    Screen {
        lines: lines
            .iter()
            .map(|t| Line::from_spans(vec![Span::plain(t.to_string())]))
            .collect(),
        ..Default::default()
    }
}

#[test]
fn finds_every_occurrence() {
    let s = Search::new(
        "the",
        &screen_of(&["the cat", "sat on the mat", "no match here"]),
    );
    assert_eq!(s.len(), 2);
    assert_eq!(
        s.matches[0],
        Match {
            line: 0,
            start: 0,
            end: 3
        }
    );
    assert_eq!(
        s.matches[1],
        Match {
            line: 1,
            start: 7,
            end: 10
        }
    );
}

#[test]
fn finds_repeats_on_one_line() {
    let s = Search::new("ab", &screen_of(&["ababab"]));
    assert_eq!(s.len(), 3);
    assert_eq!(s.matches[2].start, 4);
}

#[test]
fn smart_case_matches_any_case_when_the_query_is_lowercase() {
    let s = Search::new("cat", &screen_of(&["Cat", "CAT", "cat"]));
    assert_eq!(s.len(), 3);
}

#[test]
fn an_uppercase_query_is_taken_literally() {
    let s = Search::new("Cat", &screen_of(&["Cat", "CAT", "cat"]));
    assert_eq!(s.len(), 1);
    assert_eq!(s.matches[0].line, 0);
}

#[test]
fn only_capitals_make_a_query_literal() {
    let page = screen_of(&["a_B-9", "A_b-9"]);
    assert_eq!(Search::new("a_b-9", &page).len(), 2);
    assert_eq!(Search::new("a_B-9", &page).len(), 1);
    assert_eq!(Search::new("Ä", &screen_of(&["ä", "Ä"])).len(), 1);
    assert_eq!(Search::new("ä", &screen_of(&["ä", "Ä"])).len(), 2);
}

#[test]
fn positions_are_display_columns_not_bytes() {
    // Each CJK character is two columns wide and three bytes long.
    let s = Search::new("x", &screen_of(&["日本語x"]));
    assert_eq!(
        s.matches[0].start, 6,
        "should be columns, not the byte offset 9"
    );
}

#[test]
fn navigation_wraps_in_both_directions() {
    let mut s = Search::new("a", &screen_of(&["a", "a", "a"]));
    assert_eq!(s.focused().unwrap().line, 0);
    s.advance();
    s.advance();
    assert_eq!(s.focused().unwrap().line, 2);
    assert_eq!(s.advance().unwrap().line, 0, "should wrap to the start");
    assert_eq!(s.retreat().unwrap().line, 2, "should wrap to the end");
}

#[test]
fn focus_from_finds_the_next_match_below() {
    let mut s = Search::new("a", &screen_of(&["a", "b", "a"]));
    assert_eq!(s.focus_from(1).unwrap().line, 2);
    assert_eq!(s.focus_from(99).unwrap().line, 0, "wraps when past the end");
}

#[test]
fn handles_text_whose_case_changes_length() {
    // 'İ' lowercases to two code points, so byte offsets shift.
    let s = Search::new("x", &screen_of(&["İx"]));
    assert_eq!(s.len(), 1, "should still find the match");
    assert!(s.matches[0].start <= 2, "column should stay in range");
}

#[test]
fn overlapping_candidates_do_not_double_count() {
    let s = Search::new("aa", &screen_of(&["aaaa"]));
    assert_eq!(s.len(), 2, "matches must not overlap");
}

#[test]
fn empty_queries_match_nothing() {
    let s = Search::new("", &screen_of(&["anything"]));
    assert!(s.is_empty());
    assert_eq!(s.focused(), None);
}

#[test]
fn highlighting_splits_spans_at_match_boundaries() {
    let spans = vec![Span::plain("hello world".into())];
    let m = Match {
        line: 0,
        start: 6,
        end: 11,
    };
    let out = highlight(
        spans,
        0,
        &vec![(m, true)],
        Style::plain().reverse(),
        Style::plain().bold(),
    );
    let text: String = out.iter().map(|s| s.text.as_str()).collect();
    assert_eq!(text, "hello world", "text must survive unchanged");
    assert_eq!(out.len(), 2);
    assert_eq!(out[1].text, "world");
    assert!(
        out[1].style.bold,
        "the focused match takes the focused style"
    );
}

#[test]
fn highlighting_accounts_for_horizontal_scrolling() {
    // The viewport starts at column 6, so the visible text is "world".
    let spans = vec![Span::plain("world".into())];
    let m = Match {
        line: 0,
        start: 6,
        end: 11,
    };
    let out = highlight(
        spans,
        6,
        &vec![(m, false)],
        Style::plain().reverse(),
        Style::plain().bold(),
    );
    assert_eq!(out.len(), 1);
    assert!(out[0].style.reverse);
}

#[test]
fn highlighting_without_matches_is_a_no_op() {
    let spans = vec![Span::plain("unchanged".into())];
    let out = highlight(
        vec![Span::plain("unchanged".into())],
        0,
        &Vec::new(),
        Style::plain(),
        Style::plain(),
    );
    assert_eq!(out, spans);
}

#[test]
fn the_lines_share_the_matches_out() {
    let screen = screen_of(&["ab ab", "none", "ab"]);
    let mut s = Search::new("ab", &screen);
    s.advance();
    let marks: Vec<(Match, bool)> = (0..screen.len()).flat_map(|l| s.on_line(l)).collect();
    assert_eq!(marks.iter().map(|m| m.0).collect::<Vec<_>>(), s.matches);
    assert_eq!(
        marks.iter().map(|m| m.1).collect::<Vec<_>>(),
        [false, true, false]
    );
}
