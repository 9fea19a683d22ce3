//! Tokenising, measuring and line breaking.
use termmd::render::inline::{
    display_width, is_wide, pad_to, split_to_width, tokenize_text, truncate, wrap, Align, Token,
};
use termmd::render::Line;
use termmd::term::Style;

fn words(text: &str) -> Vec<Token> {
    let mut v = Vec::new();
    tokenize_text(text, Style::plain(), None, &mut v);
    v
}

fn rendered(lines: &[Line]) -> Vec<String> {
    lines.iter().map(|l| l.text()).collect()
}

#[test]
fn wide_characters_take_more_than_one_cell() {
    assert!(is_wide('日'));
    assert!(!is_wide('a'));
    assert!(!is_wide('\u{1b}'));
}

#[test]
fn measures_in_display_columns() {
    assert_eq!(display_width("hello"), 5);
    assert_eq!(display_width("日本語"), 6, "CJK is double width");
    assert_eq!(
        display_width("café"),
        4,
        "combining accents do not add width"
    );
}

#[test]
fn wraps_on_word_boundaries() {
    let lines = wrap(&words("the quick brown fox jumps"), 10, Align::Left);
    assert_eq!(rendered(&lines), vec!["the quick", "brown fox", "jumps"]);
}

#[test]
fn never_exceeds_the_width_with_cjk() {
    let lines = wrap(&words("日本語のテキストです"), 8, Align::Left);
    for l in &lines {
        assert!(l.width() <= 8, "line {:?} is {} wide", l.text(), l.width());
    }
    assert_eq!(rendered(&lines).concat(), "日本語のテキストです");
}

#[test]
fn breaks_words_longer_than_the_line() {
    let lines = wrap(
        &words("https://example.com/a/very/long/path/indeed"),
        12,
        Align::Left,
    );
    assert!(lines.len() > 1);
    for l in &lines {
        assert!(l.width() <= 12);
    }
    assert_eq!(
        rendered(&lines).concat(),
        "https://example.com/a/very/long/path/indeed"
    );
}

#[test]
fn collapses_whitespace_runs() {
    let lines = wrap(&words("a    b\n\tc"), 40, Align::Left);
    assert_eq!(rendered(&lines), vec!["a b c"]);
}

#[test]
fn drops_trailing_and_leading_spaces() {
    let lines = wrap(&words("  padded  "), 40, Align::Left);
    assert_eq!(rendered(&lines), vec!["padded"]);
}

#[test]
fn hard_breaks_split_lines() {
    let mut t = words("one");
    t.push(Token::hard_break());
    t.extend(words("two"));
    assert_eq!(rendered(&wrap(&t, 40, Align::Left)), vec!["one", "two"]);
}

#[test]
fn centers_and_right_aligns() {
    let lines = wrap(&words("hi"), 6, Align::Center);
    assert_eq!(lines[0].text(), "  hi");
    let lines = wrap(&words("hi"), 6, Align::Right);
    assert_eq!(lines[0].text(), "    hi");
}

#[test]
fn truncates_with_an_ellipsis() {
    assert_eq!(truncate("hello world", 8, "…"), "hello w…");
    assert_eq!(truncate("short", 8, "…"), "short");
    assert_eq!(truncate("日本語です", 5, "…"), "日本…");
}

#[test]
fn pads_to_exact_width() {
    assert_eq!(display_width(&pad_to("日本", 6)), 6);
    assert_eq!(pad_to("abc", 2), "abc", "never truncates");
}

#[test]
fn empty_input_still_produces_a_line() {
    assert_eq!(wrap(&Vec::new(), 10, Align::Left).len(), 1);
}

#[test]
fn padding_and_truncating_twice_changes_nothing() {
    for text in ["abc", "日本語", "a longer text than fits"] {
        let padded = pad_to(text, 8);
        assert_eq!(display_width(&padded), display_width(text).max(8));
        assert_eq!(pad_to(&padded, 8), padded);
        let cut = truncate(text, 5, "…");
        assert!(display_width(&cut) <= 5);
        assert_eq!(truncate(&cut, 5, "…"), cut);
    }
    assert_eq!(truncate("日本語", 5, "…"), "日本…");
}

fn plain_characters() -> Vec<(char, usize)> {
    let narrow = (' '..='~')
        .chain('\u{c0}'..='\u{24f}')
        .chain('\u{391}'..='\u{3c9}')
        .chain('\u{400}'..='\u{481}')
        .chain('\u{2010}'..='\u{2027}')
        .chain('\u{2500}'..='\u{259f}');
    let wide = ('\u{3041}'..='\u{3096}')
        .chain('\u{30a1}'..='\u{30fa}')
        .chain('\u{4e00}'..='\u{9fff}')
        .chain('\u{ac00}'..='\u{d7a3}');
    narrow
        .map(|c| (c, 1))
        .chain(wide.map(|c| (c, 2)))
        .collect()
}

#[test]
fn plain_characters_have_their_columns() {
    let mut all = String::new();
    let mut columns = 0;
    for (c, w) in plain_characters() {
        assert_eq!(display_width(&c.to_string()), w, "{c:?}");
        assert_eq!(is_wide(c), w == 2, "{c:?}");
        for before in ["e\u{301}", "👩\u{200d}", "ل", "🇫", "\r", "日"] {
            assert_eq!(
                display_width(&format!("{before}{c}")),
                display_width(before) + w,
                "{c:?} behind {before:?}"
            );
        }
        all.push(c);
        columns += w;
    }
    assert_eq!(display_width(&all), columns);
    // In a single column each character is a piece of its own.
    assert_eq!(split_to_width(&all, 1).len(), all.chars().count());
}

#[test]
fn control_characters_stand_apart() {
    let text = "a\tb\u{7f}c\rd\ne\n\rf";
    assert_eq!(split_to_width(text, 1).len(), text.chars().count());
    assert_eq!(split_to_width("a\r\nb", 1).len(), 3);
}

#[test]
fn pieces_fill_their_lines() {
    assert_eq!(split_to_width("a日b本c", 3), ["a日", "b本", "c"]);
    assert_eq!(split_to_width("日本", 3), ["日", "本"]);
    assert_eq!(split_to_width("", 3), Vec::<String>::new());
}

#[test]
fn plain_text_is_cut_to_fit() {
    let text = "naïve 日本語 text";
    for width in 1..20 {
        for ellipsis in ["…", "...", ""] {
            let cut = truncate(text, width, ellipsis);
            assert!(display_width(&cut) <= width, "{cut:?} in {width}");
            assert_eq!(truncate(&cut, width, ellipsis), cut);
        }
    }
    assert_eq!(truncate(text, 9, "…"), "naïve 日…");
    assert_eq!(truncate(text, 10, "…"), "naïve 日…");
    assert_eq!(truncate("日本語", 2, "..."), "..");
}
