//! Sixel encoding and colour quantisation.
use termmd::images::picture::Picture;
use termmd::images::sixel::{encode, median_cut, quantize, widest_channel, Entry};
use termmd::term::Rgb;

/// A picture of one colour.
fn solid(w: u32, h: u32, color: [u8; 4]) -> Picture {
    let pixels = (0..w * h).flat_map(|_| color).collect();
    Picture::from_rgba(w, h, pixels).unwrap()
}

fn put_pixel(img: &mut Picture, x: u32, y: u32, color: [u8; 4]) {
    let at = ((y * img.width + x) * 4) as usize;
    img.pixels[at..at + 4].copy_from_slice(&color);
}

fn gradient(w: u32, h: u32) -> Picture {
    let mut img = solid(w, h, [0, 0, 0, 0]);
    for y in 0..h {
        for x in 0..w {
            put_pixel(
                &mut img,
                x,
                y,
                [
                    (x * 255 / w.max(1)) as u8,
                    (y * 255 / h.max(1)) as u8,
                    90,
                    255,
                ],
            );
        }
    }
    img
}

#[test]
fn produces_a_well_formed_sequence() {
    let out = encode(&gradient(12, 12)).unwrap();
    assert!(out.starts_with("\x1bP"), "must open with a DCS");
    assert!(out.ends_with("\x1b\\"), "must close with ST");
    assert!(
        out.contains("\"1;1;12;12"),
        "raster attributes should state the size"
    );
    assert!(
        out.contains("#0;2;"),
        "at least one colour register must be defined"
    );
}

#[test]
fn colour_components_are_percentages() {
    let img = solid(2, 2, [255, 0, 0, 255]);
    let out = encode(&img).unwrap();
    assert!(out.contains(";2;100;0;0"), "255 should become 100%: {out}");
}

#[test]
fn every_data_byte_is_a_legal_sixel_character() {
    let out = encode(&gradient(20, 14)).unwrap();
    // Strip the header and terminator, then check the payload alphabet.
    let body = out
        .trim_start_matches("\x1bP0;1;0q")
        .trim_end_matches("\x1b\\");
    let body = &body[body.find('#').unwrap_or(0)..];
    for c in body.chars() {
        let ok = ('?'..='~').contains(&c)
            || c == '#'
            || c == '$'
            || c == '-'
            || c == '!'
            || c == ';'
            || c == '"'
            || c.is_ascii_digit();
        assert!(ok, "illegal sixel byte {c:?} in output");
    }
}

#[test]
fn bands_are_separated_by_newlines() {
    // 13 rows spans three bands of six, so there should be two separators.
    let out = encode(&gradient(4, 13)).unwrap();
    assert_eq!(out.matches('-').count(), 2, "expected two band separators");
}

#[test]
fn run_length_encodes_long_runs() {
    let img = solid(200, 6, [10, 200, 30, 255]);
    let out = encode(&img).unwrap();
    assert!(
        out.contains("!200"),
        "a uniform row should compress to one run: {out}"
    );
    assert!(
        out.len() < 400,
        "output should be compact, got {} bytes",
        out.len()
    );
}

#[test]
fn transparent_pixels_are_left_undrawn() {
    let mut img = solid(8, 6, [255, 255, 255, 255]);
    for x in 0..4 {
        for y in 0..6 {
            put_pixel(&mut img, x, y, [0, 0, 0, 0]);
        }
    }
    let out = encode(&img).unwrap();
    // The left half contributes no set bits, so it appears as empty sixels.
    assert!(
        out.contains('?'),
        "expected empty sixels for the transparent half: {out}"
    );
}

#[test]
fn quantisation_stays_within_the_palette_limit() {
    let img = gradient(64, 64);
    let q = quantize(&img, 16);
    assert!(q.palette.len() <= 16, "got {} colours", q.palette.len());
    assert!(
        q.indices
            .iter()
            .flatten()
            .all(|&i| (i as usize) < q.palette.len())
    );
}

#[test]
fn a_small_palette_is_preserved_exactly() {
    let mut img = solid(4, 1, [0, 0, 0, 0]);
    put_pixel(&mut img, 0, 0, [255, 0, 0, 255]);
    put_pixel(&mut img, 1, 0, [0, 255, 0, 255]);
    put_pixel(&mut img, 2, 0, [0, 0, 255, 255]);
    put_pixel(&mut img, 3, 0, [255, 0, 0, 255]);
    let q = quantize(&img, 256);
    assert_eq!(
        q.palette.len(),
        3,
        "three distinct colours, three registers"
    );
}

#[test]
fn quantisation_keeps_colours_close_to_the_original() {
    let img = gradient(48, 48);
    let q = quantize(&img, 256);
    let mut worst = 0i32;
    for (i, px) in img.pixels.chunks(4).enumerate() {
        let chosen = q.palette[q.indices[i].unwrap() as usize];
        for (actual, want) in [chosen.0, chosen.1, chosen.2].iter().zip(px.iter()) {
            worst = worst.max((*want as i32 - *actual as i32).abs());
        }
    }
    // Dithering trades per-pixel accuracy for perceived accuracy, so this is
    // a sanity bound rather than a tight one.
    assert!(worst < 96, "quantisation drifted too far: {worst}");
}

#[test]
fn handles_a_single_pixel() {
    let img = solid(1, 1, [1, 2, 3, 255]);
    assert!(encode(&img).is_some());
}

#[test]
fn handles_a_fully_transparent_image() {
    let img = solid(4, 4, [0, 0, 0, 0]);
    let out = encode(&img).unwrap();
    assert!(out.starts_with("\x1bP") && out.ends_with("\x1b\\"));
}

#[test]
fn empty_images_encode_to_nothing() {
    assert!(encode(&solid(0, 0, [0, 0, 0, 0])).is_none());
}

#[test]
fn a_small_picture_encodes_exactly() {
    let mut img = solid(5, 2, [255, 255, 255, 255]);
    put_pixel(&mut img, 0, 0, [0, 0, 0, 0]);
    // Bits for the second row only in the first column, then four of both rows.
    assert_eq!(
        encode(&img).unwrap(),
        "\x1bP0;1;0q\"1;1;5;2#0;2;100;100;100#0A!4B\x1b\\"
    );
}

#[test]
fn the_widest_channel_is_split_first() {
    let entry = |r: u64, g: u64, b: u64, n: u64| Entry {
        count: n,
        red: r * n,
        green: g * n,
        blue: b * n,
    };
    let entries = vec![entry(10, 0, 5, 2), entry(10, 200, 5, 1), entry(20, 90, 5, 1)];
    assert_eq!(widest_channel(&entries), (1, 200));
    // The first colour alone holds half of the pixels.
    assert_eq!(
        median_cut(entries, 2),
        vec![Rgb(10, 0, 5), Rgb(15, 145, 5)]
    );
}
