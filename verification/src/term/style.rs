//! Colours, text attributes, and the SGR encoder that turns them into bytes.
//!
//! Styles are authored once in truecolor and degraded on the way out, so a theme
//! never has to be written twice for a 256-colour terminal.
use vstd::prelude::*;

use super::caps::ColorDepth;
use crate::text;

verus! {

/// A 24-bit colour.
#[derive(Debug, Clone, Copy, PartialEq, Eq, Hash, Structural)]
pub struct Rgb(pub u8, pub u8, pub u8);

/// The six intensities of the xterm colour cube.
pub open spec fn cube_level(i: int) -> int {
    if i == 0 {
        0
    } else {
        55 + 40 * i
    }
}

/// The cube intensity nearest to `c`; the lower of two that are equally near.
pub open spec fn nearest_level(c: int) -> int {
    if c <= 47 {
        0
    } else if c <= 115 {
        1
    } else if c <= 155 {
        2
    } else if c <= 195 {
        3
    } else if c <= 235 {
        4
    } else {
        5
    }
}

/// No intensity of the cube is nearer to a channel than the one chosen for it.
pub proof fn nearest_level_is_nearest(c: int, i: int)
    requires
        0 <= c <= 255,
        0 <= i < 6,
    ensures
        abs(cube_level(nearest_level(c)) - c) <= abs(cube_level(i) - c),
        abs(cube_level(nearest_level(c)) - c) == abs(cube_level(i) - c) ==> nearest_level(c) <= i,
{
}

pub open spec fn abs(n: int) -> int {
    if n < 0 {
        -n
    } else {
        n
    }
}

/// The step of the 24-step grey ramp nearest to an average intensity, halves
/// rounded up.
pub open spec fn grey_step(avg: int) -> int {
    let above = if avg < 8 {
        0
    } else {
        avg - 8
    };
    let step = (above + 5) / 10;
    if step > 23 {
        23
    } else {
        step
    }
}

/// The sixteen ANSI colours of a conventional palette.
pub open spec fn ansi_color(i: int) -> Rgb {
    if i == 0 {
        Rgb(0, 0, 0)
    } else if i == 1 {
        Rgb(170, 0, 0)
    } else if i == 2 {
        Rgb(0, 170, 0)
    } else if i == 3 {
        Rgb(170, 85, 0)
    } else if i == 4 {
        Rgb(0, 0, 170)
    } else if i == 5 {
        Rgb(170, 0, 170)
    } else if i == 6 {
        Rgb(0, 170, 170)
    } else if i == 7 {
        Rgb(170, 170, 170)
    } else if i == 8 {
        Rgb(85, 85, 85)
    } else if i == 9 {
        Rgb(255, 85, 85)
    } else if i == 10 {
        Rgb(85, 255, 85)
    } else if i == 11 {
        Rgb(255, 255, 85)
    } else if i == 12 {
        Rgb(85, 85, 255)
    } else if i == 13 {
        Rgb(255, 85, 255)
    } else if i == 14 {
        Rgb(85, 255, 255)
    } else {
        Rgb(255, 255, 255)
    }
}

impl Rgb {
    /// The squared distance between two colours, weighted to approximate what an
    /// eye makes of it.
    pub open spec fn gap(self, other: Rgb) -> int {
        let dr = self.0 - other.0;
        let dg = self.1 - other.1;
        let db = self.2 - other.2;
        2 * (dr * dr) + 4 * (dg * dg) + 3 * (db * db)
    }

    /// The colour of the cube entry that `to_xterm256` considers.
    pub open spec fn cube_color(self) -> Rgb {
        Rgb(
            cube_level(nearest_level(self.0 as int)) as u8,
            cube_level(nearest_level(self.1 as int)) as u8,
            cube_level(nearest_level(self.2 as int)) as u8,
        )
    }

    pub open spec fn ramp_step(self) -> int {
        grey_step((self.0 + self.1 + self.2) / 3)
    }

    /// The grey of the ramp that `to_xterm256` considers.
    pub open spec fn ramp_color(self) -> Rgb {
        let v = (8 + 10 * self.ramp_step()) as u8;
        Rgb(v, v, v)
    }

    /// The index in the 256-colour palette: the ramp where it is strictly closer,
    /// the cube otherwise.
    pub open spec fn xterm256(self) -> int {
        if self.gap(self.ramp_color()) < self.gap(self.cube_color()) {
            232 + self.ramp_step()
        } else {
            16 + 36 * nearest_level(self.0 as int) + 6 * nearest_level(self.1 as int)
                + nearest_level(self.2 as int)
        }
    }

    /// The first of the palette entries below `n` that is nearest to this colour.
    pub open spec fn nearest_ansi(self, n: int) -> int
        decreases n,
    {
        if n <= 1 {
            0
        } else {
            let best = self.nearest_ansi(n - 1);
            if self.gap(ansi_color(n - 1)) < self.gap(ansi_color(best)) {
                n - 1
            } else {
                best
            }
        }
    }

    /// The colour that a hexadecimal notation names: three digits, or six, after
    /// an optional `#`.
    pub open spec fn parsed(s: Seq<char>) -> Option<Rgb> {
        let h = if s.len() > 0 && s[0] == '#' {
            s.drop_first()
        } else {
            s
        };
        if !text::all_digits(h, 16) {
            None
        } else if h.len() == 3 {
            Some(
                Rgb(
                    (text::digit_value(h[0]) * 17) as u8,
                    (text::digit_value(h[1]) * 17) as u8,
                    (text::digit_value(h[2]) * 17) as u8,
                ),
            )
        } else if h.len() == 6 {
            Some(
                Rgb(
                    (text::digit_value(h[0]) * 16 + text::digit_value(h[1])) as u8,
                    (text::digit_value(h[2]) * 16 + text::digit_value(h[3])) as u8,
                    (text::digit_value(h[4]) * 16 + text::digit_value(h[5])) as u8,
                ),
            )
        } else {
            None
        }
    }

    /// Parses `#rgb`, `#rrggbb`, or either without the `#`.
    pub fn parse(s: &str) -> (r: Option<Rgb>)
        ensures
            r == Rgb::parsed(s@),
    {
        let v = text::chars_of(s);
        let skip: usize = if v.len() > 0 && v[0] == '#' {
            1
        } else {
            0
        };
        let h = text::chars_range(&v, skip, v.len());
        assert(h@ =~= if s@.len() > 0 && s@[0] == '#' {
            s@.drop_first()
        } else {
            s@
        });
        let mut values: Vec<u8> = Vec::new();
        for k in 0..h.len()
            invariant
                h@ == (if s@.len() > 0 && s@[0] == '#' {
                    s@.drop_first()
                } else {
                    s@
                }),
                values.len() == k,
                forall|j: int|
                    0 <= j < k ==> (#[trigger] values@[j]) == text::digit_value(h@[j]) && values@[j]
                        < 16,
        {
            let d = text::hex_digit(h[k]);
            if d >= 16 {
                assert(!text::all_digits(h@, 16)) by {
                    assert(text::digit_value(h@[k as int]) < 0);
                }
                return None;
            }
            values.push(d as u8);
        }
        assert(text::all_digits(h@, 16)) by {
            assert forall|j: int| 0 <= j < h@.len() implies 0 <= text::digit_value(
                #[trigger] h@[j],
            ) < 16 by {
                assert(values@[j] < 16);
            }
        }
        if values.len() == 3 {
            Some(Rgb(values[0] * 17, values[1] * 17, values[2] * 17))
        } else if values.len() == 6 {
            Some(
                Rgb(
                    values[0] * 16 + values[1],
                    values[2] * 16 + values[3],
                    values[4] * 16 + values[5],
                ),
            )
        } else {
            None
        }
    }

    /// Nearest index in the xterm 256-colour palette.
    ///
    /// The palette is a 6x6x6 cube plus a 24-step grey ramp. Greys in the cube
    /// are coarse, so the ramp is considered too and whichever is closer is kept:
    /// this is what stops dark greys from snapping to pure black.
    pub fn to_xterm256(self) -> (r: u8)
        ensures
            r == self.xterm256(),
            16 <= r,
    {
        let ri = level_index(self.0);
        let gi = level_index(self.1);
        let bi = level_index(self.2);
        let cube = Rgb(level_value(ri), level_value(gi), level_value(bi));
        let cube_idx: u8 = 16 + 36 * ri + 6 * gi + bi;

        let avg: u32 = (self.0 as u32 + self.1 as u32 + self.2 as u32) / 3;
        let above: u32 = if avg < 8 {
            0
        } else {
            avg - 8
        };
        let half_up: u32 = (above + 5) / 10;
        let step: u8 = if half_up > 23 {
            23
        } else {
            half_up as u8
        };
        let grey_val: u8 = 8 + step * 10;
        let grey = Rgb(grey_val, grey_val, grey_val);

        if self.distance2(grey) < self.distance2(cube) {
            232 + step
        } else {
            cube_idx
        }
    }

    /// Nearest of the 16 ANSI colours, assuming a conventional palette.
    pub fn to_ansi16(self) -> (r: u8)
        ensures
            r == self.nearest_ansi(16),
            r < 16,
    {
        let mut best: u8 = 0;
        let mut best_gap: u32 = self.distance2(ansi_palette(0));
        let mut i: u8 = 1;
        while i < 16
            invariant
                1 <= i <= 16,
                best < i,
                best == self.nearest_ansi(i as int),
                best_gap == self.gap(ansi_color(best as int)),
            decreases 16 - i,
        {
            let gap = self.distance2(ansi_palette(i));
            if gap < best_gap {
                best = i;
                best_gap = gap;
            }
            i = i + 1;
        }
        best
    }

    /// Weighted to approximate perceived difference; cheap and good enough for
    /// palette snapping.
    pub fn distance2(self, other: Rgb) -> (r: u32)
        ensures
            r == self.gap(other),
    {
        let dr = channel_gap(self.0, other.0);
        let dg = channel_gap(self.1, other.1);
        let db = channel_gap(self.2, other.2);
        2 * dr + 4 * dg + 3 * db
    }
}

/// The sixteen-colour degradation picks a nearest entry of the palette.
pub proof fn nearest_ansi_is_nearest(c: Rgb, i: int)
    requires
        0 <= i < 16,
    ensures
        0 <= c.nearest_ansi(16) < 16,
        c.gap(ansi_color(c.nearest_ansi(16))) <= c.gap(ansi_color(i)),
{
    lemma_nearest_ansi(c, 16, i);
}

proof fn lemma_nearest_ansi(c: Rgb, n: int, i: int)
    requires
        0 <= i < n,
    ensures
        0 <= c.nearest_ansi(n) < n,
        c.gap(ansi_color(c.nearest_ansi(n))) <= c.gap(ansi_color(i)),
    decreases n,
{
    if n > 1 {
        lemma_nearest_ansi(c, n - 1, if i < n - 1 {
            i
        } else {
            0
        });
    }
}

fn channel_gap(a: u8, b: u8) -> (r: u32)
    ensures
        r == (a - b) * (a - b),
        r <= 65025,
{
    let d: u32 = if a >= b {
        (a - b) as u32
    } else {
        (b - a) as u32
    };
    assert(d * d <= 255 * 255) by (nonlinear_arith)
        requires
            d <= 255,
    ;
    assert(d * d == (a - b) * (a - b)) by (nonlinear_arith)
        requires
            d == a - b || d == b - a,
    ;
    d * d
}

fn level_index(c: u8) -> (r: u8)
    ensures
        r == nearest_level(c as int),
        r < 6,
{
    if c <= 47 {
        0
    } else if c <= 115 {
        1
    } else if c <= 155 {
        2
    } else if c <= 195 {
        3
    } else if c <= 235 {
        4
    } else {
        5
    }
}

fn level_value(i: u8) -> (r: u8)
    requires
        i < 6,
    ensures
        r == cube_level(i as int),
{
    if i == 0 {
        0
    } else {
        55 + 40 * i
    }
}

fn ansi_palette(i: u8) -> (r: Rgb)
    requires
        i < 16,
    ensures
        r == ansi_color(i as int),
{
    match i {
        0 => Rgb(0, 0, 0),
        1 => Rgb(170, 0, 0),
        2 => Rgb(0, 170, 0),
        3 => Rgb(170, 85, 0),
        4 => Rgb(0, 0, 170),
        5 => Rgb(170, 0, 170),
        6 => Rgb(0, 170, 170),
        7 => Rgb(170, 170, 170),
        8 => Rgb(85, 85, 85),
        9 => Rgb(255, 85, 85),
        10 => Rgb(85, 255, 85),
        11 => Rgb(255, 255, 85),
        12 => Rgb(85, 85, 255),
        13 => Rgb(255, 85, 255),
        14 => Rgb(85, 255, 255),
        _ => Rgb(255, 255, 255),
    }
}

/// A colour slot in a style: either the terminal default or a concrete colour.
#[derive(Debug, Clone, Copy, PartialEq, Eq, Hash, Structural)]
pub enum Color {
    Default,
    Rgb(Rgb),
    /// An explicit palette index, used when a theme wants the user's own colours.
    Indexed(u8),
}

impl Color {
    pub fn rgb(r: u8, g: u8, b: u8) -> (c: Color)
        ensures
            c == Color::Rgb(Rgb(r, g, b)),
    {
        Color::Rgb(Rgb(r, g, b))
    }
}

impl Default for Color {
    fn default() -> (r: Color)
        ensures
            r == Color::Default,
    {
        Color::Default
    }
}

/// Text attributes plus foreground and background.
#[derive(Debug, Clone, Copy, PartialEq, Eq, Hash, Structural)]
pub struct Style {
    pub fg: Color,
    pub bg: Color,
    pub bold: bool,
    pub dim: bool,
    pub italic: bool,
    pub underline: bool,
    pub strike: bool,
    pub reverse: bool,
}

/// No colour and no attribute.
pub open spec fn plain_style() -> Style {
    Style {
        fg: Color::Default,
        bg: Color::Default,
        bold: false,
        dim: false,
        italic: false,
        underline: false,
        strike: false,
        reverse: false,
    }
}

impl Default for Style {
    fn default() -> (r: Style)
        ensures
            r == plain_style(),
    {
        Style::plain()
    }
}

impl Style {
    /// The style without any colour or attribute.
    pub fn plain() -> (r: Style)
        ensures
            r == plain_style(),
    {
        Style {
            fg: Color::Default,
            bg: Color::Default,
            bold: false,
            dim: false,
            italic: false,
            underline: false,
            strike: false,
            reverse: false,
        }
    }

    pub fn fg(self, c: Color) -> (r: Style)
        ensures
            r == (Style { fg: c, ..self }),
    {
        Style { fg: c, ..self }
    }

    pub fn bg(self, c: Color) -> (r: Style)
        ensures
            r == (Style { bg: c, ..self }),
    {
        Style { bg: c, ..self }
    }

    pub fn bold(self) -> (r: Style)
        ensures
            r == (Style { bold: true, ..self }),
    {
        Style { bold: true, ..self }
    }

    pub fn dim(self) -> (r: Style)
        ensures
            r == (Style { dim: true, ..self }),
    {
        Style { dim: true, ..self }
    }

    pub fn italic(self) -> (r: Style)
        ensures
            r == (Style { italic: true, ..self }),
    {
        Style { italic: true, ..self }
    }

    pub fn underline(self) -> (r: Style)
        ensures
            r == (Style { underline: true, ..self }),
    {
        Style { underline: true, ..self }
    }

    pub fn strike(self) -> (r: Style)
        ensures
            r == (Style { strike: true, ..self }),
    {
        Style { strike: true, ..self }
    }

    pub fn reverse(self) -> (r: Style)
        ensures
            r == (Style { reverse: true, ..self }),
    {
        Style { reverse: true, ..self }
    }

    /// `over` laid on top of `self`: set attributes win, colours override.
    pub open spec fn merged(self, over: Style) -> Style {
        Style {
            fg: if over.fg == Color::Default {
                self.fg
            } else {
                over.fg
            },
            bg: if over.bg == Color::Default {
                self.bg
            } else {
                over.bg
            },
            bold: self.bold || over.bold,
            dim: self.dim || over.dim,
            italic: self.italic || over.italic,
            underline: self.underline || over.underline,
            strike: self.strike || over.strike,
            reverse: self.reverse || over.reverse,
        }
    }

    /// Layers `over` on top of `self`; set attributes win, colours override.
    pub fn merge(self, over: Style) -> (r: Style)
        ensures
            r == self.merged(over),
    {
        Style {
            fg: if over.fg == Color::Default {
                self.fg
            } else {
                over.fg
            },
            bg: if over.bg == Color::Default {
                self.bg
            } else {
                over.bg
            },
            bold: self.bold || over.bold,
            dim: self.dim || over.dim,
            italic: self.italic || over.italic,
            underline: self.underline || over.underline,
            strike: self.strike || over.strike,
            reverse: self.reverse || over.reverse,
        }
    }

    pub fn is_plain(&self) -> (r: bool)
        ensures
            r == (*self == plain_style()),
    {
        *self == Style::plain()
    }
}

/// Layering is associative, and the plain style is neutral on either side.
pub proof fn merging_layers(a: Style, b: Style, c: Style)
    ensures
        a.merged(b).merged(c) == a.merged(b.merged(c)),
        a.merged(plain_style()) == a,
        plain_style().merged(a) == a,
{
}

/// One parameter of an SGR sequence.
#[derive(Debug, Clone, Copy, PartialEq, Eq, Structural)]
pub enum Sgr {
    Reset,
    Bold,
    Dim,
    Italic,
    Underline,
    Reverse,
    Strike,
    Foreground(Color),
    Background(Color),
}

/// What a terminal showing `s` shows after one more parameter.
pub open spec fn apply(s: Style, code: Sgr) -> Style {
    match code {
        Sgr::Reset => plain_style(),
        Sgr::Bold => Style { bold: true, ..s },
        Sgr::Dim => Style { dim: true, ..s },
        Sgr::Italic => Style { italic: true, ..s },
        Sgr::Underline => Style { underline: true, ..s },
        Sgr::Reverse => Style { reverse: true, ..s },
        Sgr::Strike => Style { strike: true, ..s },
        Sgr::Foreground(c) => Style { fg: c, ..s },
        Sgr::Background(c) => Style { bg: c, ..s },
    }
}

/// What a terminal showing `s` shows after a run of parameters.
#[verifier::opaque]
pub open spec fn apply_all(s: Style, codes: Seq<Sgr>) -> Style
    decreases codes.len(),
{
    if codes.len() == 0 {
        s
    } else {
        apply(apply_all(s, codes.drop_last()), codes.last())
    }
}

/// True when going from `from` to `to` turns something off, which only a reset can.
pub open spec fn drops(from: Style, to: Style) -> bool {
    ||| from.bold && !to.bold
    ||| from.dim && !to.dim
    ||| from.italic && !to.italic
    ||| from.underline && !to.underline
    ||| from.strike && !to.strike
    ||| from.reverse && !to.reverse
    ||| from.fg != Color::Default && to.fg == Color::Default
    ||| from.bg != Color::Default && to.bg == Color::Default
}

/// `code` alone when `yes`, nothing otherwise.
#[verifier::opaque]
pub open spec fn given(yes: bool, code: Sgr) -> Seq<Sgr> {
    if yes {
        seq![code]
    } else {
        Seq::empty()
    }
}

/// The parameters that take a terminal from `from` to `to`, in the order they are
/// written.
#[verifier::opaque]
pub open spec fn codes(from: Style, to: Style) -> Seq<Sgr> {
    let base = if drops(from, to) {
        plain_style()
    } else {
        from
    };
    given(drops(from, to), Sgr::Reset) + given(to.bold && !base.bold, Sgr::Bold) + given(
        to.dim && !base.dim,
        Sgr::Dim,
    ) + given(to.italic && !base.italic, Sgr::Italic) + given(
        to.underline && !base.underline,
        Sgr::Underline,
    ) + given(to.reverse && !base.reverse, Sgr::Reverse) + given(
        to.strike && !base.strike,
        Sgr::Strike,
    ) + given(to.fg != base.fg, Sgr::Foreground(to.fg)) + given(
        to.bg != base.bg,
        Sgr::Background(to.bg),
    )
}

proof fn lemma_apply_given(s: Style, codes: Seq<Sgr>, yes: bool, code: Sgr, before: Style)
    requires
        apply_all(s, codes) == before,
    ensures
        apply_all(s, codes + given(yes, code)) == if yes {
            apply(before, code)
        } else {
            before
        },
{
    reveal(apply_all);
    reveal(given);
    let all = codes + given(yes, code);
    if yes {
        assert(all.drop_last() =~= codes);
        assert(all.last() == code);
    } else {
        assert(all =~= codes);
    }
}

/// What is written after the reset, or instead of it, adds what is missing.
#[verifier::spinoff_prover]
proof fn lemma_codes_add(from: Style, to: Style, c1: Seq<Sgr>, base: Style)
    requires
        apply_all(from, c1) == base,
        base.bold ==> to.bold,
        base.dim ==> to.dim,
        base.italic ==> to.italic,
        base.underline ==> to.underline,
        base.reverse ==> to.reverse,
        base.strike ==> to.strike,
    ensures
        apply_all(
            from,
            c1 + given(to.bold && !base.bold, Sgr::Bold) + given(to.dim && !base.dim, Sgr::Dim)
                + given(to.italic && !base.italic, Sgr::Italic) + given(
                to.underline && !base.underline,
                Sgr::Underline,
            ) + given(to.reverse && !base.reverse, Sgr::Reverse) + given(
                to.strike && !base.strike,
                Sgr::Strike,
            ) + given(to.fg != base.fg, Sgr::Foreground(to.fg)) + given(
                to.bg != base.bg,
                Sgr::Background(to.bg),
            ),
        ) == to,
{
    lemma_apply_given(from, c1, to.bold && !base.bold, Sgr::Bold, base);
    let s2 = Style { bold: to.bold, ..base };
    let c2 = c1 + given(to.bold && !base.bold, Sgr::Bold);
    lemma_apply_given(from, c2, to.dim && !base.dim, Sgr::Dim, s2);
    let s3 = Style { dim: to.dim, ..s2 };
    let c3 = c2 + given(to.dim && !base.dim, Sgr::Dim);
    lemma_apply_given(from, c3, to.italic && !base.italic, Sgr::Italic, s3);
    let s4 = Style { italic: to.italic, ..s3 };
    let c4 = c3 + given(to.italic && !base.italic, Sgr::Italic);
    lemma_apply_given(from, c4, to.underline && !base.underline, Sgr::Underline, s4);
    let s5 = Style { underline: to.underline, ..s4 };
    let c5 = c4 + given(to.underline && !base.underline, Sgr::Underline);
    lemma_apply_given(from, c5, to.reverse && !base.reverse, Sgr::Reverse, s5);
    let s6 = Style { reverse: to.reverse, ..s5 };
    let c6 = c5 + given(to.reverse && !base.reverse, Sgr::Reverse);
    lemma_apply_given(from, c6, to.strike && !base.strike, Sgr::Strike, s6);
    let s7 = Style { strike: to.strike, ..s6 };
    let c7 = c6 + given(to.strike && !base.strike, Sgr::Strike);
    lemma_apply_given(from, c7, to.fg != base.fg, Sgr::Foreground(to.fg), s7);
    let s8 = Style { fg: to.fg, ..s7 };
    let c8 = c7 + given(to.fg != base.fg, Sgr::Foreground(to.fg));
    lemma_apply_given(from, c8, to.bg != base.bg, Sgr::Background(to.bg), s8);
}

/// The parameters written for a transition take a terminal that shows the old
/// style to exactly the new one.
pub proof fn codes_reach_the_style(from: Style, to: Style)
    ensures
        apply_all(from, codes(from, to)) == to,
{
    reveal(codes);
    let d = drops(from, to);
    let base = if d {
        plain_style()
    } else {
        from
    };
    assert(Seq::<Sgr>::empty() + given(d, Sgr::Reset) =~= given(d, Sgr::Reset));
    assert(apply_all(from, Seq::empty()) == from) by {
        reveal(apply_all);
    }
    lemma_apply_given(from, Seq::empty(), d, Sgr::Reset, from);
    lemma_codes_add(from, to, given(d, Sgr::Reset), base);
}

/// True when a run of parameters holds no reset.
pub open spec fn resetless(codes: Seq<Sgr>) -> bool {
    forall|i: int| 0 <= i < codes.len() ==> #[trigger] codes[i] != Sgr::Reset
}

proof fn lemma_resetless(codes: Seq<Sgr>, yes: bool, code: Sgr)
    requires
        resetless(codes),
        code != Sgr::Reset,
    ensures
        resetless(codes + given(yes, code)),
{
    reveal(given);
}

/// Adding to a style, without turning anything off, needs no reset.
pub proof fn additive_transitions_do_not_reset(from: Style, to: Style)
    requires
        !drops(from, to),
    ensures
        resetless(codes(from, to)),
{
    reveal(codes);
    let c1 = given(drops(from, to), Sgr::Reset);
    assert(resetless(c1)) by {
        reveal(given);
    }
    let c2 = c1 + given(to.bold && !from.bold, Sgr::Bold);
    lemma_resetless(c1, to.bold && !from.bold, Sgr::Bold);
    let c3 = c2 + given(to.dim && !from.dim, Sgr::Dim);
    lemma_resetless(c2, to.dim && !from.dim, Sgr::Dim);
    let c4 = c3 + given(to.italic && !from.italic, Sgr::Italic);
    lemma_resetless(c3, to.italic && !from.italic, Sgr::Italic);
    let c5 = c4 + given(to.underline && !from.underline, Sgr::Underline);
    lemma_resetless(c4, to.underline && !from.underline, Sgr::Underline);
    let c6 = c5 + given(to.reverse && !from.reverse, Sgr::Reverse);
    lemma_resetless(c5, to.reverse && !from.reverse, Sgr::Reverse);
    let c7 = c6 + given(to.strike && !from.strike, Sgr::Strike);
    lemma_resetless(c6, to.strike && !from.strike, Sgr::Strike);
    let c8 = c7 + given(to.fg != from.fg, Sgr::Foreground(to.fg));
    lemma_resetless(c7, to.fg != from.fg, Sgr::Foreground(to.fg));
    lemma_resetless(c8, to.bg != from.bg, Sgr::Background(to.bg));
}

/// The parameters for a palette index. The first sixteen have short codes of their
/// own, which respect the user's own palette more reliably.
pub open spec fn indexed_text(i: u8, background: bool) -> Seq<char> {
    if i < 8 {
        text::decimal((if background {
            40 + i
        } else {
            30 + i
        }) as nat)
    } else if i < 16 {
        text::decimal((if background {
            100 + (i - 8)
        } else {
            90 + (i - 8)
        }) as nat)
    } else if background {
        "48;5;"@ + text::decimal(i as nat)
    } else {
        "38;5;"@ + text::decimal(i as nat)
    }
}

/// The parameters for one colour, at the depth the terminal can show.
pub open spec fn color_text(depth: ColorDepth, c: Color, background: bool) -> Seq<char> {
    let default = if background {
        "49"@
    } else {
        "39"@
    };
    let base = if background {
        "48"@
    } else {
        "38"@
    };
    match c {
        Color::Default => default,
        Color::Indexed(i) => indexed_text(i, background),
        Color::Rgb(rgb) => match depth {
            ColorDepth::TrueColor => base + ";2;"@ + text::decimal(rgb.0 as nat) + ";"@
                + text::decimal(rgb.1 as nat) + ";"@ + text::decimal(rgb.2 as nat),
            ColorDepth::Ansi256 => base + ";5;"@ + text::decimal(rgb.xterm256() as nat),
            ColorDepth::Ansi16 => indexed_text(rgb.nearest_ansi(16) as u8, background),
            ColorDepth::Mono => default,
        },
    }
}

/// One parameter as it is written.
pub open spec fn code_text(depth: ColorDepth, code: Sgr) -> Seq<char> {
    match code {
        Sgr::Reset => "0"@,
        Sgr::Bold => "1"@,
        Sgr::Dim => "2"@,
        Sgr::Italic => "3"@,
        Sgr::Underline => "4"@,
        Sgr::Reverse => "7"@,
        Sgr::Strike => "9"@,
        Sgr::Foreground(c) => color_text(depth, c, false),
        Sgr::Background(c) => color_text(depth, c, true),
    }
}

/// A run of parameters, each as it is written.
pub open spec fn code_texts(depth: ColorDepth, codes: Seq<Sgr>) -> Seq<Seq<char>> {
    codes.map_values(|c: Sgr| code_text(depth, c))
}

/// The escape sequence that takes a terminal from `from` to `to`.
pub open spec fn sgr(depth: ColorDepth, from: Style, to: Style) -> Seq<char> {
    if from == to {
        Seq::empty()
    } else if to == plain_style() {
        "\x1b[0m"@
    } else {
        "\x1b["@ + text::join(code_texts(depth, codes(from, to)), ";"@) + "m"@
    }
}

/// Emits SGR sequences, degrading colour and attributes to fit the terminal.
///
/// The writer remembers the style it last emitted so that a run of identically
/// styled spans costs one escape sequence rather than one per span.
#[derive(Debug, Clone, Copy, PartialEq, Eq, Structural)]
pub struct StyleWriter {
    pub depth: ColorDepth,
    pub current: Style,
    /// Terminals that ignore SGR 3 (italic) get underline instead, which reads
    /// closer to the author's intent than silently dropping the emphasis.
    pub italic_as_underline: bool,
}

impl StyleWriter {
    /// What this terminal can render of a style.
    pub open spec fn normal(self, s: Style) -> Style {
        let colored = if self.depth == ColorDepth::Mono {
            Style { fg: Color::Default, bg: Color::Default, ..s }
        } else {
            s
        };
        if self.italic_as_underline && colored.italic {
            Style { italic: false, underline: true, ..colored }
        } else {
            colored
        }
    }

    /// The writer after a transition to `next`.
    pub open spec fn moved(self, next: Style) -> StyleWriter {
        StyleWriter { current: self.normal(next), ..self }
    }

    /// What a transition to `next` writes.
    pub open spec fn written(self, next: Style) -> Seq<char> {
        sgr(self.depth, self.current, self.normal(next))
    }

    /// The writer with nothing set.
    pub open spec fn at_rest(self) -> StyleWriter {
        StyleWriter { current: plain_style(), ..self }
    }

    /// What a reset writes: nothing when nothing is set.
    pub open spec fn reset_text(self) -> Seq<char> {
        if self.current == plain_style() {
            Seq::empty()
        } else {
            "\x1b[0m"@
        }
    }

    pub fn new(depth: ColorDepth) -> (r: StyleWriter)
        ensures
            r == (StyleWriter { depth, current: plain_style(), italic_as_underline: false }),
    {
        StyleWriter { depth, current: Style::plain(), italic_as_underline: false }
    }

    pub fn with_italic_fallback(self, on: bool) -> (r: StyleWriter)
        ensures
            r == (StyleWriter { italic_as_underline: on, ..self }),
    {
        StyleWriter { italic_as_underline: on, ..self }
    }

    pub fn depth(&self) -> (r: ColorDepth)
        ensures
            r == self.depth,
    {
        self.depth
    }

    /// Resets internal bookkeeping; call when the caller has emitted its own reset.
    pub fn forget(&mut self)
        ensures
            *final(self) == old(self).at_rest(),
    {
        self.current = Style::plain();
    }

    /// Appends the escape sequence that moves from the current style to `next`.
    ///
    /// Turning an attribute off requires a full reset on most terminals, so the
    /// incremental path is only taken when the new style is strictly additive.
    pub fn transition(&mut self, next: Style, out: &mut String)
        ensures
            *final(self) == old(self).moved(next),
            final(out)@ == old(out)@ + old(self).written(next),
    {
        let next = self.normalize(next);
        let ghost start = out@;
        if next == self.current {
            assert(out@ =~= start + Seq::<char>::empty());
            return;
        }
        if next.is_plain() {
            out.push_str("\x1b[0m");
            self.current = next;
            return;
        }
        let list = style_codes(self.current, next);
        let mut params: Vec<String> = Vec::new();
        let n: usize = list.len();
        for i in 0..n
            invariant
                n == list@.len(),
                text::views(params@) == code_texts(self.depth, list@.take(i as int)),
        {
            let ghost before = text::views(params@);
            params.push(self.code_params(list[i]));
            assert(text::views(params@) =~= before.push(code_text(self.depth, list@[i as int])));
            assert(text::views(params@) =~= code_texts(self.depth, list@.take(i + 1)));
        }
        assert(list@.take(n as int) =~= list@);
        out.push_str("\x1b[");
        out.push_str(&text::joined(&params, ";"));
        out.push_str("m");
        assert(out@ =~= start + sgr(self.depth, self.current, next));
        self.current = next;
    }

    /// Writes a reset if anything is currently set.
    pub fn reset(&mut self, out: &mut String)
        ensures
            *final(self) == old(self).at_rest(),
            final(out)@ == old(out)@ + old(self).reset_text(),
    {
        if !self.current.is_plain() {
            out.push_str("\x1b[0m");
            self.current = Style::plain();
        } else {
            assert(out@ =~= old(out)@ + Seq::<char>::empty());
        }
    }

    /// Strips what this terminal cannot render, so comparisons stay meaningful.
    pub fn normalize(&self, s: Style) -> (r: Style)
        ensures
            r == self.normal(s),
    {
        let colored = if self.depth == ColorDepth::Mono {
            Style { fg: Color::Default, bg: Color::Default, ..s }
        } else {
            s
        };
        if self.italic_as_underline && colored.italic {
            Style { italic: false, underline: true, ..colored }
        } else {
            colored
        }
    }

    fn code_params(&self, code: Sgr) -> (r: String)
        ensures
            r@ == code_text(self.depth, code),
    {
        match code {
            Sgr::Reset => text::owned("0"),
            Sgr::Bold => text::owned("1"),
            Sgr::Dim => text::owned("2"),
            Sgr::Italic => text::owned("3"),
            Sgr::Underline => text::owned("4"),
            Sgr::Reverse => text::owned("7"),
            Sgr::Strike => text::owned("9"),
            Sgr::Foreground(c) => self.color_params(c, false),
            Sgr::Background(c) => self.color_params(c, true),
        }
    }

    pub fn color_params(&self, c: Color, background: bool) -> (r: String)
        ensures
            r@ == color_text(self.depth, c, background),
    {
        let default = if background {
            "49"
        } else {
            "39"
        };
        match c {
            Color::Default => text::owned(default),
            Color::Indexed(i) => Self::indexed_params(i, background),
            Color::Rgb(rgb) => match self.depth {
                ColorDepth::TrueColor => {
                    let mut out = text::owned(
                        if background {
                            "48"
                        } else {
                            "38"
                        },
                    );
                    out.push_str(";2;");
                    text::push_decimal(&mut out, rgb.0 as u64);
                    out.push_str(";");
                    text::push_decimal(&mut out, rgb.1 as u64);
                    out.push_str(";");
                    text::push_decimal(&mut out, rgb.2 as u64);
                    out
                },
                ColorDepth::Ansi256 => {
                    let mut out = text::owned(
                        if background {
                            "48"
                        } else {
                            "38"
                        },
                    );
                    out.push_str(";5;");
                    text::push_decimal(&mut out, rgb.to_xterm256() as u64);
                    out
                },
                ColorDepth::Ansi16 => Self::indexed_params(rgb.to_ansi16(), background),
                ColorDepth::Mono => text::owned(default),
            },
        }
    }

    pub fn indexed_params(i: u8, background: bool) -> (r: String)
        ensures
            r@ == indexed_text(i, background),
    {
        let mut out: String = String::new();
        if i < 8 {
            let base: u64 = if background {
                40
            } else {
                30
            };
            text::push_decimal(&mut out, base + i as u64);
        } else if i < 16 {
            let base: u64 = if background {
                100
            } else {
                90
            };
            text::push_decimal(&mut out, base + (i - 8) as u64);
        } else {
            out.push_str(
                if background {
                    "48;5;"
                } else {
                    "38;5;"
                },
            );
            text::push_decimal(&mut out, i as u64);
        }
        assert(out@ =~= indexed_text(i, background));
        out
    }
}

/// The parameters that take a terminal from one style to another.
pub fn style_codes(from: Style, to: Style) -> (r: Vec<Sgr>)
    ensures
        r@ == codes(from, to),
{
    proof {
        reveal(codes);
    }
    let drops_something = (from.bold && !to.bold) || (from.dim && !to.dim) || (from.italic
        && !to.italic) || (from.underline && !to.underline) || (from.strike && !to.strike) || (
    from.reverse && !to.reverse) || (from.fg != Color::Default && to.fg == Color::Default) || (
    from.bg != Color::Default && to.bg == Color::Default);
    let base = if drops_something {
        Style::plain()
    } else {
        from
    };
    let mut out: Vec<Sgr> = Vec::new();
    push_given(&mut out, drops_something, Sgr::Reset);
    push_given(&mut out, to.bold && !base.bold, Sgr::Bold);
    push_given(&mut out, to.dim && !base.dim, Sgr::Dim);
    push_given(&mut out, to.italic && !base.italic, Sgr::Italic);
    push_given(&mut out, to.underline && !base.underline, Sgr::Underline);
    push_given(&mut out, to.reverse && !base.reverse, Sgr::Reverse);
    push_given(&mut out, to.strike && !base.strike, Sgr::Strike);
    push_given(&mut out, to.fg != base.fg, Sgr::Foreground(to.fg));
    push_given(&mut out, to.bg != base.bg, Sgr::Background(to.bg));
    assert(Seq::<Sgr>::empty() + given(drops(from, to), Sgr::Reset) =~= given(
        drops(from, to),
        Sgr::Reset,
    ));
    out
}

fn push_given(out: &mut Vec<Sgr>, yes: bool, code: Sgr)
    ensures
        final(out)@ == old(out)@ + given(yes, code),
{
    proof {
        reveal(given);
    }
    if yes {
        out.push(code);
    }
    assert(out@ =~= old(out)@ + given(yes, code));
}

/// After a transition the writer's style is the one asked for, as far as the
/// terminal can show it, and asking for it again writes nothing.
pub proof fn transitions_are_remembered(w: StyleWriter, next: Style)
    ensures
        w.moved(next).current == w.normal(next),
        w.moved(next).moved(next) == w.moved(next),
        w.moved(next).written(next) == Seq::<char>::empty(),
{
}

/// A terminal without colour is never sent any.
pub proof fn no_colour_without_depth(w: StyleWriter, next: Style)
    requires
        w.depth == ColorDepth::Mono,
    ensures
        w.normal(next).fg == Color::Default,
        w.normal(next).bg == Color::Default,
{
}

// --- what a terminal makes of it ----------------------------------------------------

/// The numbers of a colour parameter, at full depth.
pub open spec fn color_params(c: Color, background: bool) -> Seq<nat> {
    let add: nat = if background {
        10
    } else {
        0
    };
    match c {
        Color::Default => seq![39 + add],
        Color::Indexed(i) => if i < 8 {
            seq![30 + add + i as nat]
        } else if i < 16 {
            seq![82 + add + i as nat]
        } else {
            seq![38 + add, 5, i as nat]
        },
        Color::Rgb(rgb) => seq![38 + add, 2, rgb.0 as nat, rgb.1 as nat, rgb.2 as nat],
    }
}

/// The numbers of one parameter.
pub open spec fn code_params(code: Sgr) -> Seq<nat> {
    match code {
        Sgr::Reset => seq![0nat],
        Sgr::Bold => seq![1nat],
        Sgr::Dim => seq![2nat],
        Sgr::Italic => seq![3nat],
        Sgr::Underline => seq![4nat],
        Sgr::Reverse => seq![7nat],
        Sgr::Strike => seq![9nat],
        Sgr::Foreground(c) => color_params(c, false),
        Sgr::Background(c) => color_params(c, true),
    }
}

/// The numbers of a run of parameters.
pub open spec fn params_of(codes: Seq<Sgr>) -> Seq<nat>
    decreases codes.len(),
{
    if codes.len() == 0 {
        Seq::empty()
    } else {
        params_of(codes.drop_last()) + code_params(codes.last())
    }
}

/// Numbers as they are written.
pub open spec fn decimals(p: Seq<nat>) -> Seq<Seq<char>> {
    p.map_values(|n: nat| text::decimal(n))
}

/// The escape sequence that carries some numbers.
pub open spec fn sequence(p: Seq<nat>) -> Seq<char> {
    "\x1b["@ + text::join(decimals(p), ";"@) + "m"@
}

/// What a terminal showing `s` shows after it has read the numbers from `k` on.
pub open spec fn read_params(s: Style, p: Seq<nat>, k: int) -> Style
    decreases p.len() - k,
{
    if k < 0 || k >= p.len() {
        s
    } else {
        let n = p[k];
        if n == 0 {
            read_params(plain_style(), p, k + 1)
        } else if n == 1 {
            read_params(Style { bold: true, ..s }, p, k + 1)
        } else if n == 2 {
            read_params(Style { dim: true, ..s }, p, k + 1)
        } else if n == 3 {
            read_params(Style { italic: true, ..s }, p, k + 1)
        } else if n == 4 {
            read_params(Style { underline: true, ..s }, p, k + 1)
        } else if n == 7 {
            read_params(Style { reverse: true, ..s }, p, k + 1)
        } else if n == 9 {
            read_params(Style { strike: true, ..s }, p, k + 1)
        } else if 30 <= n < 38 {
            read_params(Style { fg: Color::Indexed((n - 30) as u8), ..s }, p, k + 1)
        } else if 40 <= n < 48 {
            read_params(Style { bg: Color::Indexed((n - 40) as u8), ..s }, p, k + 1)
        } else if 90 <= n < 98 {
            read_params(Style { fg: Color::Indexed((n - 82) as u8), ..s }, p, k + 1)
        } else if 100 <= n < 108 {
            read_params(Style { bg: Color::Indexed((n - 92) as u8), ..s }, p, k + 1)
        } else if n == 39 {
            read_params(Style { fg: Color::Default, ..s }, p, k + 1)
        } else if n == 49 {
            read_params(Style { bg: Color::Default, ..s }, p, k + 1)
        } else if (n == 38 || n == 48) && k + 2 < p.len() && p[k + 1] == 5 {
            let c = Color::Indexed(p[k + 2] as u8);
            read_params(
                if n == 38 {
                    Style { fg: c, ..s }
                } else {
                    Style { bg: c, ..s }
                },
                p,
                k + 3,
            )
        } else if (n == 38 || n == 48) && k + 4 < p.len() && p[k + 1] == 2 {
            let c = Color::Rgb(Rgb(p[k + 2] as u8, p[k + 3] as u8, p[k + 4] as u8));
            read_params(
                if n == 38 {
                    Style { fg: c, ..s }
                } else {
                    Style { bg: c, ..s }
                },
                p,
                k + 5,
            )
        } else {
            read_params(s, p, k + 1)
        }
    }
}

proof fn lemma_read_code(s: Style, p: Seq<nat>, k: int, code: Sgr)
    requires
        0 <= k,
        k + code_params(code).len() <= p.len(),
        forall|j: int|
            0 <= j < code_params(code).len() ==> p[k + j] == #[trigger] code_params(code)[j],
    ensures
        read_params(s, p, k) == read_params(apply(s, code), p, k + code_params(code).len()),
{
    let c = code_params(code);
    assert(p[k + 0] == c[0]);
    if c.len() == 3 {
        assert(p[k + 1] == c[1] && p[k + 2] == c[2]);
    } else if c.len() == 5 {
        assert(p[k + 1] == c[1] && p[k + 2] == c[2] && p[k + 3] == c[3] && p[k + 4] == c[4]);
    }
}

proof fn lemma_params_at(codes: Seq<Sgr>, k: int)
    requires
        0 <= k < codes.len(),
    ensures
        params_of(codes.take(k)).len() + code_params(codes[k]).len() == params_of(
            codes.take(k + 1),
        ).len(),
        params_of(codes.take(k + 1)).len() <= params_of(codes).len(),
        forall|j: int|
            0 <= j < code_params(codes[k]).len() ==> params_of(codes)[params_of(codes.take(k)).len()
                + j] == #[trigger] code_params(codes[k])[j],
    decreases codes.len(),
{
    assert(codes.take(k + 1).drop_last() =~= codes.take(k));
    if k + 1 < codes.len() {
        let short = codes.drop_last();
        lemma_params_at(short, k);
        assert(short.take(k) =~= codes.take(k));
        assert(short.take(k + 1) =~= codes.take(k + 1));
        assert(short[k] == codes[k]);
        assert forall|j: int| 0 <= j < code_params(codes[k]).len() implies params_of(
            codes,
        )[params_of(codes.take(k)).len() + j] == #[trigger] code_params(codes[k])[j] by {
            assert(params_of(short)[params_of(short.take(k)).len() + j] == code_params(short[k])[j]);
        }
    } else {
        assert(codes.take(k + 1) =~= codes);
    }
}

proof fn lemma_read_codes(s: Style, codes: Seq<Sgr>, k: int)
    requires
        0 <= k <= codes.len(),
    ensures
        read_params(
            apply_all(s, codes.take(k)),
            params_of(codes),
            params_of(codes.take(k)).len() as int,
        ) == apply_all(s, codes),
    decreases codes.len() - k,
{
    let p = params_of(codes);
    if k < codes.len() {
        lemma_read_codes(s, codes, k + 1);
        lemma_params_at(codes, k);
        let shown = apply_all(s, codes.take(k));
        assert(codes.take(k + 1).drop_last() =~= codes.take(k));
        assert(apply_all(s, codes.take(k + 1)) == apply(shown, codes[k])) by {
            reveal(apply_all);
        }
        lemma_read_code(shown, p, params_of(codes.take(k)).len() as int, codes[k]);
    } else {
        assert(codes.take(k) =~= codes);
    }
}

proof fn lemma_join_more(a: Seq<Seq<char>>, b: Seq<Seq<char>>, sep: Seq<char>)
    requires
        a.len() > 0,
        b.len() > 0,
    ensures
        text::join(a + b, sep) == text::join(a, sep) + sep + text::join(b, sep),
    decreases b.len(),
{
    let all = a + b;
    assert(all.drop_last() =~= a + b.drop_last());
    if b.len() == 1 {
        assert(a + b.drop_last() =~= a);
    } else {
        lemma_join_more(a, b.drop_last(), sep);
        assert((text::join(a, sep) + sep + text::join(b.drop_last(), sep)) + sep + b.last() =~= text::join(
            a,
            sep,
        ) + sep + (text::join(b.drop_last(), sep) + sep + b.last()));
    }
}

#[verifier::spinoff_prover]
proof fn lemma_code_text(code: Sgr)
    ensures
        code_params(code).len() > 0,
        code_text(ColorDepth::TrueColor, code) == text::join(decimals(code_params(code)), ";"@),
{
    reveal_with_fuel(text::join, 6);
    reveal_with_fuel(text::decimal, 3);
    let p = code_params(code);
    let d = decimals(p);
    reveal_strlit("0");
    reveal_strlit("1");
    reveal_strlit("2");
    reveal_strlit("3");
    reveal_strlit("4");
    reveal_strlit("7");
    reveal_strlit("9");
    reveal_strlit("39");
    reveal_strlit("49");
    reveal_strlit("38");
    reveal_strlit("48");
    reveal_strlit("38;5;");
    reveal_strlit("48;5;");
    reveal_strlit(";2;");
    reveal_strlit(";");
    lemma_small_decimals();
    if p.len() == 1 {
        assert(d[0] == text::decimal(p[0]));
        assert(code_text(ColorDepth::TrueColor, code) =~= d[0]);
    } else if p.len() == 3 {
        assert(d.drop_last() =~= seq![d[0], d[1]]);
        assert(seq![d[0], d[1]].drop_last() =~= seq![d[0]]);
        assert(code_text(ColorDepth::TrueColor, code) =~= text::join(d, ";"@));
    } else {
        assert(d.drop_last() =~= seq![d[0], d[1], d[2], d[3]]);
        assert(seq![d[0], d[1], d[2], d[3]].drop_last() =~= seq![d[0], d[1], d[2]]);
        assert(seq![d[0], d[1], d[2]].drop_last() =~= seq![d[0], d[1]]);
        assert(seq![d[0], d[1]].drop_last() =~= seq![d[0]]);
        assert(code_text(ColorDepth::TrueColor, code) =~= text::join(d, ";"@));
    }
}

proof fn lemma_small_decimals()
    ensures
        text::decimal(0) == seq!['0'],
        text::decimal(1) == seq!['1'],
        text::decimal(2) == seq!['2'],
        text::decimal(3) == seq!['3'],
        text::decimal(4) == seq!['4'],
        text::decimal(5) == seq!['5'],
        text::decimal(7) == seq!['7'],
        text::decimal(9) == seq!['9'],
        text::decimal(38) == seq!['3', '8'],
        text::decimal(39) == seq!['3', '9'],
        text::decimal(48) == seq!['4', '8'],
        text::decimal(49) == seq!['4', '9'],
{
    reveal_with_fuel(text::decimal, 3);
    assert(text::decimal(38) =~= seq!['3', '8']);
    assert(text::decimal(39) =~= seq!['3', '9']);
    assert(text::decimal(48) =~= seq!['4', '8']);
    assert(text::decimal(49) =~= seq!['4', '9']);
}

proof fn lemma_codes_text(codes: Seq<Sgr>)
    ensures
        codes.len() > 0 ==> params_of(codes).len() > 0,
        text::join(code_texts(ColorDepth::TrueColor, codes), ";"@) == text::join(
            decimals(params_of(codes)),
            ";"@,
        ),
    decreases codes.len(),
{
    let texts = code_texts(ColorDepth::TrueColor, codes);
    if codes.len() > 0 {
        let short = codes.drop_last();
        lemma_codes_text(short);
        lemma_code_text(codes.last());
        let a = decimals(params_of(short));
        let b = decimals(code_params(codes.last()));
        assert(decimals(params_of(codes)) =~= a + b);
        assert(texts.drop_last() =~= code_texts(ColorDepth::TrueColor, short));
        assert(texts.last() == code_text(ColorDepth::TrueColor, codes.last()));
        if short.len() > 0 {
            lemma_join_more(a, b, ";"@);
        } else {
            assert(a =~= Seq::empty());
            assert(a + b =~= b);
        }
    } else {
        assert(texts =~= Seq::empty());
        assert(decimals(params_of(codes)) =~= Seq::empty());
    }
}

impl StyleWriter {
    /// The numbers that a transition writes, where it writes anything.
    pub open spec fn params(self, next: Style) -> Seq<nat> {
        if self.normal(next) == plain_style() {
            seq![0nat]
        } else {
            params_of(codes(self.current, self.normal(next)))
        }
    }

    /// The writer after the first `k` of a run of transitions.
    pub open spec fn after(self, styles: Seq<Style>, k: int) -> StyleWriter
        decreases k,
    {
        if k <= 0 {
            self
        } else {
            self.after(styles, k - 1).moved(styles[k - 1])
        }
    }

    /// What the first `k` of a run of transitions write.
    pub open spec fn text_after(self, styles: Seq<Style>, k: int) -> Seq<char>
        decreases k,
    {
        if k <= 0 {
            Seq::empty()
        } else {
            self.text_after(styles, k - 1) + self.after(styles, k - 1).written(styles[k - 1])
        }
    }
}

/// A transition writes nothing where the style is shown already, and one sequence
/// otherwise, which takes a terminal from the one style to the other. It starts with a
/// reset exactly where something has to go off.
pub proof fn transitions_are_read_back(w: StyleWriter, next: Style)
    requires
        w.depth == ColorDepth::TrueColor,
    ensures
        w.normal(next) == w.current ==> w.written(next) == Seq::<char>::empty(),
        w.normal(next) != w.current ==> {
            &&& w.written(next) == sequence(w.params(next))
            &&& read_params(w.current, w.params(next), 0) == w.normal(next)
            &&& w.params(next).len() > 0
            &&& (w.params(next)[0] == 0) == drops(w.current, w.normal(next))
        },
{
    let to = w.normal(next);
    if to != w.current {
        if to == plain_style() {
            reveal_with_fuel(read_params, 2);
            lemma_small_decimals();
            reveal_strlit("\x1b[0m");
            reveal_strlit("\x1b[");
            reveal_strlit("m");
            assert(decimals(seq![0nat]) =~= seq![text::decimal(0)]);
            assert(w.written(next) =~= sequence(seq![0nat]));
        } else {
            let list = codes(w.current, to);
            codes_reach_the_style(w.current, to);
            lemma_codes_text(list);
            lemma_read_codes(w.current, list, 0);
            assert(list.take(0) =~= Seq::empty());
            assert(apply_all(w.current, Seq::empty()) == w.current) by {
                reveal(apply_all);
            }
            if list.len() == 0 {
                assert(list =~= Seq::empty());
                assert(false);
            }
            lemma_params_at(list, 0);
            assert(params_of(list.take(0)).len() == 0);
            lemma_code_text(list[0]);
            assert(params_of(list)[params_of(list.take(0)).len() + 0int] == code_params(list[0])[0]);
            lemma_first_code(w.current, to);
        }
    }
}

proof fn lemma_first_code(from: Style, to: Style)
    requires
        codes(from, to).len() > 0,
    ensures
        (codes(from, to)[0] == Sgr::Reset) == drops(from, to),
{
    if drops(from, to) {
        reveal(codes);
        reveal(given);
    } else {
        additive_transitions_do_not_reset(from, to);
    }
}

/// What a terminal shows after a run of escape sequences.
pub open spec fn read_all(s: Style, sequences: Seq<Seq<nat>>) -> Style
    decreases sequences.len(),
{
    if sequences.len() == 0 {
        s
    } else {
        read_params(read_all(s, sequences.drop_last()), sequences.last(), 0)
    }
}

/// A run of escape sequences as it is written.
pub open spec fn all_sequences(sequences: Seq<Seq<nat>>) -> Seq<char>
    decreases sequences.len(),
{
    if sequences.len() == 0 {
        Seq::empty()
    } else {
        all_sequences(sequences.drop_last()) + sequence(sequences.last())
    }
}

/// True of text that takes a terminal from one style to another.
pub open spec fn takes(text: Seq<char>, from: Style, to: Style) -> bool {
    exists|sequences: Seq<Seq<nat>>|
        text == #[trigger] all_sequences(sequences) && read_all(from, sequences) == to
}

/// However many transitions are written, a terminal that reads them all ends up showing
/// exactly the last style, with nothing left over from those before it.
pub proof fn runs_reach_the_last_style(w: StyleWriter, styles: Seq<Style>, k: int)
    requires
        w.depth == ColorDepth::TrueColor,
        0 <= k <= styles.len(),
    ensures
        w.after(styles, k).depth == ColorDepth::TrueColor,
        w.after(styles, k).italic_as_underline == w.italic_as_underline,
        k > 0 ==> w.after(styles, k).current == w.normal(styles[k - 1]),
        takes(w.text_after(styles, k), w.current, w.after(styles, k).current),
    decreases k,
{
    if k <= 0 {
        let none = Seq::<Seq<nat>>::empty();
        assert(all_sequences(none) == w.text_after(styles, k));
        assert(read_all(w.current, none) == w.current);
    } else {
        runs_reach_the_last_style(w, styles, k - 1);
        let before = w.after(styles, k - 1);
        let next = styles[k - 1];
        transitions_are_read_back(before, next);
        let list = choose|sequences: Seq<Seq<nat>>|
            w.text_after(styles, k - 1) == #[trigger] all_sequences(sequences) && read_all(
                w.current,
                sequences,
            ) == before.current;
        if before.normal(next) == before.current {
            assert(w.text_after(styles, k) =~= all_sequences(list));
        } else {
            let more = list.push(before.params(next));
            assert(more.drop_last() =~= list);
            assert(w.text_after(styles, k) == all_sequences(more));
            assert(read_all(w.current, more) == before.normal(next));
        }
    }
}

// --- at every depth -------------------------------------------------------------------

/// A colour as a terminal of a given depth shows it.
pub open spec fn faded_color(depth: ColorDepth, c: Color) -> Color {
    match c {
        Color::Rgb(rgb) => match depth {
            ColorDepth::TrueColor => c,
            ColorDepth::Ansi256 => Color::Indexed(rgb.xterm256() as u8),
            ColorDepth::Ansi16 => Color::Indexed(rgb.nearest_ansi(16) as u8),
            ColorDepth::Mono => Color::Default,
        },
        _ => c,
    }
}

/// A style as a terminal of a given depth shows it.
pub open spec fn faded(depth: ColorDepth, s: Style) -> Style {
    Style { fg: faded_color(depth, s.fg), bg: faded_color(depth, s.bg), ..s }
}

/// A parameter as a terminal of a given depth is sent it.
pub open spec fn faded_code(depth: ColorDepth, code: Sgr) -> Sgr {
    match code {
        Sgr::Foreground(c) => Sgr::Foreground(faded_color(depth, c)),
        Sgr::Background(c) => Sgr::Background(faded_color(depth, c)),
        _ => code,
    }
}

pub open spec fn faded_codes(depth: ColorDepth, list: Seq<Sgr>) -> Seq<Sgr> {
    list.map_values(|c: Sgr| faded_code(depth, c))
}

proof fn lemma_faded_apply(depth: ColorDepth, s: Style, list: Seq<Sgr>)
    ensures
        apply_all(faded(depth, s), faded_codes(depth, list)) == faded(depth, apply_all(s, list)),
    decreases list.len(),
{
    let sent = faded_codes(depth, list);
    if list.len() > 0 {
        lemma_faded_apply(depth, s, list.drop_last());
        assert(sent.drop_last() =~= faded_codes(depth, list.drop_last()));
        assert(sent.last() == faded_code(depth, list.last()));
        lemma_faded_one(depth, apply_all(s, list.drop_last()), list.last());
        lemma_apply_last(s, list);
        lemma_apply_last(faded(depth, s), sent);
    } else {
        assert(sent =~= Seq::empty());
        reveal(apply_all);
    }
}

proof fn lemma_apply_last(s: Style, list: Seq<Sgr>)
    requires
        list.len() > 0,
    ensures
        apply_all(s, list) == apply(apply_all(s, list.drop_last()), list.last()),
{
    reveal(apply_all);
}

proof fn lemma_faded_one(depth: ColorDepth, s: Style, code: Sgr)
    ensures
        apply(faded(depth, s), faded_code(depth, code)) == faded(depth, apply(s, code)),
{
}

proof fn lemma_xterm_index(c: Rgb)
    ensures
        16 <= c.xterm256() <= 255,
{
}

proof fn lemma_faded_color_text(depth: ColorDepth, c: Color, background: bool)
    ensures
        color_text(depth, c, background) == color_text(
            ColorDepth::TrueColor,
            faded_color(depth, c),
            background,
        ),
{
    match c {
        Color::Rgb(rgb) => {
            lemma_xterm_index(rgb);
            if depth == ColorDepth::Ansi256 {
                reveal_strlit("38");
                reveal_strlit("48");
                reveal_strlit(";5;");
                reveal_strlit("38;5;");
                reveal_strlit("48;5;");
                assert("38"@ + ";5;"@ =~= "38;5;"@);
                assert("48"@ + ";5;"@ =~= "48;5;"@);
            }
        },
        _ => {},
    }
}

proof fn lemma_faded_texts(depth: ColorDepth, list: Seq<Sgr>)
    ensures
        code_texts(depth, list) == code_texts(ColorDepth::TrueColor, faded_codes(depth, list)),
{
    let a = code_texts(depth, list);
    let b = code_texts(ColorDepth::TrueColor, faded_codes(depth, list));
    assert forall|k: int| 0 <= k < list.len() implies a[k] == b[k] by {
        match list[k] {
            Sgr::Foreground(c) => lemma_faded_color_text(depth, c, false),
            Sgr::Background(c) => lemma_faded_color_text(depth, c, true),
            _ => {},
        }
    }
    assert(a =~= b);
}

impl StyleWriter {
    /// The numbers that a transition sends to a terminal of the writer's depth.
    pub open spec fn sent(self, next: Style) -> Seq<nat> {
        if self.normal(next) == plain_style() {
            seq![0nat]
        } else {
            params_of(faded_codes(self.depth, codes(self.current, self.normal(next))))
        }
    }
}

/// At every depth a transition writes nothing or one sequence of numbers, and those take
/// a terminal from what it shows of the one style to what it shows of the other.
pub proof fn transitions_reach_every_depth(w: StyleWriter, next: Style)
    ensures
        w.normal(next) == w.current ==> w.written(next) == Seq::<char>::empty(),
        w.normal(next) != w.current ==> {
            &&& w.written(next) == sequence(w.sent(next))
            &&& w.sent(next).len() > 0
            &&& read_params(faded(w.depth, w.current), w.sent(next), 0) == faded(
                w.depth,
                w.normal(next),
            )
        },
{
    let to = w.normal(next);
    if to != w.current {
        if to == plain_style() {
            reveal_with_fuel(read_params, 2);
            lemma_small_decimals();
            reveal_strlit("\x1b[0m");
            reveal_strlit("\x1b[");
            reveal_strlit("m");
            assert(decimals(seq![0nat]) =~= seq![text::decimal(0)]);
            assert(w.written(next) =~= sequence(seq![0nat]));
        } else {
            let list = codes(w.current, to);
            let sent = faded_codes(w.depth, list);
            codes_reach_the_style(w.current, to);
            lemma_faded_texts(w.depth, list);
            lemma_codes_text(sent);
            lemma_faded_apply(w.depth, w.current, list);
            lemma_read_codes(faded(w.depth, w.current), sent, 0);
            assert(sent.take(0) =~= Seq::empty());
            assert(apply_all(faded(w.depth, w.current), Seq::empty()) == faded(
                w.depth,
                w.current,
            )) by {
                reveal(apply_all);
            }
            if list.len() == 0 {
                assert(list =~= Seq::empty());
                assert(apply_all(w.current, list) == w.current) by {
                    reveal(apply_all);
                }
                assert(false);
            }
        }
    }
}

} // verus!
