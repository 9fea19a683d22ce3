//! Pictures made of half blocks.
use termmd::images::blocks::{cell, encode, encode_with_depth};
use termmd::images::picture::Picture;
use termmd::term::{Color, ColorDepth, Rgb, Style};

/// A picture of one colour.
fn solid(w: u32, h: u32, color: [u8; 4]) -> Picture {
    let pixels = (0..w * h).flat_map(|_| color).collect();
    Picture::from_rgba(w, h, pixels).unwrap()
}

fn put_pixel(img: &mut Picture, x: u32, y: u32, color: [u8; 4]) {
    let at = ((y * img.width + x) * 4) as usize;
    img.pixels[at..at + 4].copy_from_slice(&color);
}

/// Counts the visible cells, ignoring escape sequences.
fn visible(s: &str) -> String {
    let mut out = String::new();
    let mut chars = s.chars();
    while let Some(c) = chars.next() {
        if c == '\x1b' {
            for c in chars.by_ref() {
                if c == 'm' || c == '\\' {
                    break;
                }
            }
        } else {
            out.push(c);
        }
    }
    out
}

#[test]
fn packs_two_pixel_rows_into_one_line() {
    let img = solid(4, 4, [255, 0, 0, 255]);
    let out = encode(&img, 0);
    assert_eq!(
        visible(&out).lines().count(),
        2,
        "4 pixel rows make 2 text rows"
    );
    assert_eq!(visible(&out).lines().next().unwrap().chars().count(), 4);
}

#[test]
fn uses_foreground_and_background_for_the_two_halves() {
    let mut img = solid(1, 2, [255, 0, 0, 255]);
    put_pixel(&mut img, 0, 1, [0, 0, 255, 255]);
    let out = encode(&img, 0);
    assert!(
        out.contains("38;2;255;0;0"),
        "top half is the foreground: {out:?}"
    );
    assert!(
        out.contains("48;2;0;0;255"),
        "bottom half is the background: {out:?}"
    );
    assert!(out.contains('\u{2580}'));
}

#[test]
fn an_odd_number_of_rows_leaves_the_last_half_transparent() {
    let img = solid(2, 3, [10, 20, 30, 255]);
    let out = encode(&img, 0);
    let shown = visible(&out);
    assert_eq!(shown.lines().count(), 2);
    // The final row has no bottom pixel, so no background is set for it.
    assert!(out.lines().next_back().unwrap().contains('\u{2580}'));
}

#[test]
fn transparent_pixels_produce_no_colour() {
    let img = solid(2, 2, [0, 0, 0, 0]);
    let out = encode(&img, 0);
    assert_eq!(visible(&out), "  ", "transparent cells are spaces");
    assert!(!out.contains("38;2;"), "nothing should be painted: {out:?}");
}

#[test]
fn a_transparent_top_half_draws_the_lower_block() {
    let mut img = solid(1, 2, [0, 0, 0, 0]);
    put_pixel(&mut img, 0, 1, [1, 2, 3, 255]);
    let out = encode(&img, 0);
    assert!(
        out.contains('\u{2584}'),
        "expected a lower half block: {out:?}"
    );
}

#[test]
fn indents_continuation_rows() {
    let img = solid(2, 4, [255, 255, 255, 255]);
    let out = encode(&img, 3);
    let second = visible(&out).lines().nth(1).unwrap().to_string();
    assert!(
        second.starts_with("   "),
        "second row should be indented: {second:?}"
    );
}

#[test]
fn degrades_to_the_available_colour_depth() {
    let img = solid(1, 2, [255, 255, 255, 255]);
    let out = encode_with_depth(&img, 0, ColorDepth::Ansi256);
    assert!(out.contains("38;5;"), "should use palette colours: {out:?}");
    assert!(!out.contains("38;2;"));
}

#[test]
fn resets_style_at_the_end() {
    let out = encode(&solid(1, 2, [1, 2, 3, 255]), 0);
    assert!(
        out.ends_with("\x1b[0m"),
        "must not leak style into later text"
    );
}

#[test]
fn empty_images_produce_nothing() {
    assert_eq!(encode(&solid(0, 0, [0, 0, 0, 0]), 0), "");
}

#[test]
fn rows_return_to_the_first_column() {
    // In raw mode a line feed alone does not, and the picture turned into a staircase.
    let out = encode(&solid(2, 4, [1, 2, 3, 255]), 1);
    assert!(out.contains("\x1b[0m\r\n "), "{out:?}");
}

#[test]
fn a_cell_takes_its_two_pixels() {
    let (t, b) = (Rgb(1, 2, 3), Rgb(4, 5, 6));
    assert_eq!(
        cell(Some(t), Some(b)),
        ("\u{2580}", Style::plain().fg(Color::Rgb(t)).bg(Color::Rgb(b)))
    );
    assert_eq!(cell(Some(t), None), ("\u{2580}", Style::plain().fg(Color::Rgb(t))));
    assert_eq!(cell(None, Some(b)), ("\u{2584}", Style::plain().fg(Color::Rgb(b))));
    assert_eq!(cell(None, None), (" ", Style::plain()));
}
