//! What tmux says about its client.
use termmd::term::tmux::{parse, parse_answer, Features};

#[test]
fn reads_the_features_we_care_about() {
    // A real reply, from tmux 3.6 attached to a terminal with both.
    let f = parse("bpaste,ccolour,clipboard,hyperlinks,cstyle,focus,RGB,sixel,title\n");
    assert_eq!(
        f,
        Features {
            sixel: true,
            hyperlinks: true
        }
    );
}

#[test]
fn the_answer_is_read_from_bytes() {
    let f = parse_answer(&b"bpaste,sixel,\xff\n".to_vec());
    assert!(f.sixel);
    assert!(!f.hyperlinks);
}

#[test]
fn a_terminal_without_them_is_not_promoted() {
    // The same tmux, attached to a terminal that has neither.
    let f = parse("bpaste,ccolour,clipboard,cstyle,focus,RGB,title\n");
    assert_eq!(f, Features::default());
}

#[test]
fn nothing_at_all_is_not_a_yes() {
    // An old tmux answers an unknown format with the empty string, and a
    // failed lookup gives us nothing to split.
    assert_eq!(parse(""), Features::default());
    assert_eq!(parse("\n"), Features::default());
}

#[test]
fn a_feature_is_matched_whole() {
    // Not "sixel" -- a substring match would take this for one.
    assert_eq!(parse("nosixel,hyperlinksextra"), Features::default());
}
