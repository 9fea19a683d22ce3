//! What colours and styles come to.
use vstd::prelude::*;

use super::style::{cube_level, nearest_level, Color, Rgb, Style};
use crate::text;

verus! {

// --- layers and palettes ----------------------------------------------------------------

/// The upper layer wins: its colours show where it has any, those below where it has
/// none, and what either of the two turns on is on.
pub proof fn the_upper_layer_wins(a: Style, over: Style)
    ensures
        over.fg != Color::Default ==> a.merged(over).fg == over.fg,
        over.fg == Color::Default ==> a.merged(over).fg == a.fg,
        over.bg != Color::Default ==> a.merged(over).bg == over.bg,
        over.bg == Color::Default ==> a.merged(over).bg == a.bg,
        a.merged(over).bold <==> a.bold || over.bold,
        a.merged(over).dim <==> a.dim || over.dim,
        a.merged(over).italic <==> a.italic || over.italic,
        a.merged(over).underline <==> a.underline || over.underline,
        a.merged(over).strike <==> a.strike || over.strike,
        a.merged(over).reverse <==> a.reverse || over.reverse,
{
}

/// The colour of an entry of the 256-colour palette behind the first sixteen: a cube of
/// six intensities of red, green and blue, the last of which goes up first, and a ramp of
/// greys.
pub open spec fn palette_color(n: int) -> Rgb {
    if n < 232 {
        Rgb(
            cube_level((n - 16) / 36) as u8,
            cube_level((n - 16) / 6 % 6) as u8,
            cube_level((n - 16) % 6) as u8,
        )
    } else {
        let v = (8 + 10 * (n - 232)) as u8;
        Rgb(v, v, v)
    }
}

/// The entry of the palette that stands for a colour is the nearer of two: the grey of
/// the same brightness, and the colour of the cube whose channels are each the nearest.
pub proof fn palette_entries_are_near(c: Rgb)
    ensures
        16 <= c.xterm256() <= 255,
        c.gap(palette_color(c.xterm256())) <= c.gap(c.ramp_color()),
        c.gap(palette_color(c.xterm256())) <= c.gap(c.cube_color()),
        palette_color(c.xterm256()) == c.ramp_color() || palette_color(c.xterm256())
            == c.cube_color(),
{
    let r = nearest_level(c.0 as int);
    let g = nearest_level(c.1 as int);
    let b = nearest_level(c.2 as int);
    let n = 36 * r + 6 * g + b;
    assert(n / 36 == r && n / 6 % 6 == g && n % 6 == b);
}

/// A hexadecimal digit.
pub open spec fn hex_char(n: int) -> char {
    if n < 10 {
        ('0' as int + n) as char
    } else {
        ('a' as int + n - 10) as char
    }
}

/// A colour in six digits is read as what it was written as, with a number sign or
/// without; one in three digits has each of them twice.
pub proof fn colours_are_read_back(c: Rgb, r: int, g: int, b: int)
    requires
        0 <= r < 16,
        0 <= g < 16,
        0 <= b < 16,
    ensures
        ({
            let six = seq![
                hex_char(c.0 as int / 16),
                hex_char(c.0 as int % 16),
                hex_char(c.1 as int / 16),
                hex_char(c.1 as int % 16),
                hex_char(c.2 as int / 16),
                hex_char(c.2 as int % 16),
            ];
            let three = seq![hex_char(r), hex_char(g), hex_char(b)];
            &&& Rgb::parsed(six) == Some(c)
            &&& Rgb::parsed(seq!['#'] + six) == Some(c)
            &&& Rgb::parsed(seq!['#'] + three) == Rgb::parsed(
                seq![hex_char(r), hex_char(r), hex_char(g), hex_char(g), hex_char(b), hex_char(b)],
            )
        }),
{
    let six = seq![
        hex_char(c.0 as int / 16),
        hex_char(c.0 as int % 16),
        hex_char(c.1 as int / 16),
        hex_char(c.1 as int % 16),
        hex_char(c.2 as int / 16),
        hex_char(c.2 as int % 16),
    ];
    let three = seq![hex_char(r), hex_char(g), hex_char(b)];
    let twice = seq![hex_char(r), hex_char(r), hex_char(g), hex_char(g), hex_char(b), hex_char(b)];
    assert((seq!['#'] + six).drop_first() =~= six);
    assert((seq!['#'] + three).drop_first() =~= three);
    assert forall|n: int| 0 <= n < 16 implies text::digit_value(#[trigger] hex_char(n)) == n
        && hex_char(n) != '#' by {}
    assert(text::all_digits(six, 16));
    assert(text::all_digits(three, 16));
    assert(text::all_digits(twice, 16));
    assert(r * 17 == r * 16 + r && g * 17 == g * 16 + g && b * 17 == b * 16 + b);
}

} // verus!
