//! Drawing characters.
use termmd::render::glyphs::{ascii, unicode};
use termmd::render::inline::display_width;
use termmd::render::Glyphs;
use termmd::term::UnicodeLevel;

#[test]
fn ascii_glyphs_are_ascii() {
    let g = ascii();
    for s in [
        g.quote_bar,
        g.rule,
        g.task_done,
        g.v,
        g.top_left,
        g.bullets[0],
    ] {
        assert!(s.is_ascii(), "{s:?} should be ASCII");
    }
}

#[test]
fn bullets_cycle_with_depth() {
    let g = unicode();
    assert_eq!(g.bullet(0), "•");
    assert_eq!(g.bullet(3), g.bullet(0));
}

#[test]
fn extended_avoids_emoji() {
    assert_eq!(
        Glyphs::for_level(UnicodeLevel::Extended).image_marker,
        "[image]"
    );
}

#[test]
fn borders_take_one_column() {
    for level in [
        UnicodeLevel::Ascii,
        UnicodeLevel::Extended,
        UnicodeLevel::Full,
    ] {
        let g = Glyphs::for_level(level);
        for s in [
            g.quote_bar,
            g.rule,
            g.heading_rule,
            g.h,
            g.v,
            g.top_left,
            g.top_mid,
            g.top_right,
            g.mid_left,
            g.mid_mid,
            g.mid_right,
            g.bottom_left,
            g.bottom_mid,
            g.bottom_right,
        ] {
            assert_eq!(display_width(s), 1, "{s:?}");
        }
    }
}
