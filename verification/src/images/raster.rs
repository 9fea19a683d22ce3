//! What a terminal draws of sixel data.
//!
//! The reader here follows one point of the screen through the data. It knows the pen of
//! a sixel terminal, which moves right as columns are drawn, goes back at `$` and down a
//! band at `-`, and the colour registers that `#` fills and selects. It knows nothing of
//! how the data was made.
use vstd::arithmetic::div_mod::{
    lemma_div_multiples_vanish, lemma_mod_add_multiples_vanish, lemma_mod_multiples_basic,
};
use vstd::prelude::*;

use super::picture::PictureV;
use super::sixel::{
    apart, band_count, band_rows, band_sixels, band_text, bands_text, bucket, colors_text, diffused,
    dithered, encoded, expanded, looked_up, nearest_index, occupied, only_empty_sixels_are_dropped,
    palette_of, percent, quantized_indices, quantized_palette, register_text, registers_text,
    run_text, runs_from, runs_stand_for_the_sixels, runs_text, sixel_at, sixel_char, sixel_text,
    spread_error, tallied, the_nearest_is_chosen, used_in, without_tail, Entry, Wanted, BUCKETS,
    EMPTY,
};
use crate::term::display::{lemma_numbers_decimal, numbers};
use crate::term::style::Rgb;
use crate::text;

verus! {

/// A colour in percent of red, green and blue.
pub type Tint = (nat, nat, nat);

/// The pen of a terminal, and what it has drawn at the point that is followed.
pub struct Pen {
    pub x: int,
    pub band: int,
    pub register: nat,
    pub registers: Map<nat, Tint>,
    /// The width and the height that were announced.
    pub size: (nat, nat),
    pub point: Option<Tint>,
}

/// A pen at the start of an image.
pub open spec fn fresh_pen() -> Pen {
    Pen {
        x: 0,
        band: 0,
        register: 0,
        registers: Map::empty(),
        size: (0, 0),
        point: None,
    }
}

/// True where a sixel sets the point in one of its six rows, of which the first is the
/// lowest bit.
pub open spec fn sets(v: int, row: int) -> bool {
    if row == 0 {
        v % 2 == 1
    } else if row == 1 {
        v / 2 % 2 == 1
    } else if row == 2 {
        v / 4 % 2 == 1
    } else if row == 3 {
        v / 8 % 2 == 1
    } else if row == 4 {
        v / 16 % 2 == 1
    } else if row == 5 {
        v / 32 % 2 == 1
    } else {
        false
    }
}

/// The pen after it drew one sixel `n` times, one column after the other.
pub open spec fn struck(pen: Pen, v: int, n: nat, px: int, py: int) -> Pen {
    Pen {
        x: pen.x + n,
        point: if pen.x <= px < pen.x + n && sets(v, py - 6 * pen.band) {
            Some(pen.registers[pen.register])
        } else {
            pen.point
        },
        ..pen
    }
}

/// How many digits and semicolons a text starts with.
pub open spec fn params_len(t: Seq<char>) -> int
    decreases t.len(),
{
    if t.len() > 0 && ('0' <= t[0] <= '9' || t[0] == ';') {
        1 + params_len(t.skip(1))
    } else {
        0
    }
}

/// The pen after `#` and its numbers: one selects a register, five fill it as well.
pub open spec fn colored(pen: Pen, p: Seq<nat>) -> Pen {
    if p.len() == 5 {
        Pen {
            register: p[0],
            registers: pen.registers.insert(p[0], (p[2], p[3], p[4])),
            ..pen
        }
    } else {
        Pen { register: p[0], ..pen }
    }
}

/// The pen after it has read some data, with what it drew at `(px, py)`.
pub open spec fn plotted(t: Seq<char>, pen: Pen, px: int, py: int) -> Pen
    decreases t.len(),
{
    if t.len() == 0 {
        pen
    } else {
        let rest = t.skip(1);
        let n = params_len(rest);
        if t[0] == '$' {
            plotted(rest, Pen { x: 0, ..pen }, px, py)
        } else if t[0] == '-' {
            plotted(rest, Pen { x: 0, band: pen.band + 1, ..pen }, px, py)
        } else if (t[0] == '#' || t[0] == '"' || t[0] == '!') && 0 <= n <= rest.len() {
            let p = numbers(rest.take(n), 0);
            let after = rest.skip(n);
            if t[0] == '#' {
                plotted(after, colored(pen, p), px, py)
            } else if t[0] == '"' {
                plotted(
                    after,
                    if p.len() == 4 {
                        Pen { size: (p[2], p[3]), ..pen }
                    } else {
                        pen
                    },
                    px,
                    py,
                )
            } else if after.len() > 0 {
                plotted(
                    after.skip(1),
                    struck(pen, after[0] as int - 0x3f, p[0], px, py),
                    px,
                    py,
                )
            } else {
                pen
            }
        } else {
            plotted(rest, struck(pen, t[0] as int - 0x3f, 1, px, py), px, py)
        }
    }
}

// --- reading numbers ------------------------------------------------------------------------

/// True of text that a number before it ends at.
spec fn ends_number(t: Seq<char>) -> bool {
    t.len() == 0 || !('0' <= t[0] <= '9' || t[0] == ';')
}

/// True of digits and semicolons.
spec fn is_params(s: Seq<char>) -> bool {
    forall|k: int| 0 <= k < s.len() ==> ('0' <= #[trigger] s[k] <= '9' || s[k] == ';')
}

proof fn lemma_params_len(s: Seq<char>, rest: Seq<char>)
    requires
        is_params(s),
        ends_number(rest),
    ensures
        params_len(s + rest) == s.len(),
        (s + rest).take(s.len() as int) == s,
        (s + rest).skip(s.len() as int) == rest,
    decreases s.len(),
{
    let t = s + rest;
    assert(t.take(s.len() as int) =~= s);
    assert(t.skip(s.len() as int) =~= rest);
    if s.len() > 0 {
        assert(t[0] == s[0]);
        assert(t.skip(1) =~= s.skip(1) + rest);
        assert forall|k: int| 0 <= k < s.skip(1).len() implies ('0' <= #[trigger] s.skip(1)[k]
            <= '9' || s.skip(1)[k] == ';') by {
            assert(s.skip(1)[k] == s[k + 1]);
        }
        lemma_params_len(s.skip(1), rest);
    } else {
        assert(t =~= rest);
    }
}

proof fn lemma_decimal_params(n: nat)
    ensures
        is_params(text::decimal(n)),
        text::decimal(n).len() > 0,
    decreases n,
{
    if n >= 10 {
        lemma_decimal_params(n / 10);
    }
}

proof fn lemma_number(n: nat)
    ensures
        numbers(text::decimal(n), 0) == seq![n],
{
    lemma_numbers_decimal(n, Seq::empty());
    assert(text::decimal(n) + Seq::<char>::empty() =~= text::decimal(n));
    assert(numbers(Seq::empty(), n) =~= seq![n]);
}

/// Numbers behind one that has been read.
proof fn lemma_numbers_more(n: nat, m: nat, rest: Seq<char>)
    ensures
        numbers(seq![';'] + text::decimal(m) + rest, n) == seq![n] + numbers(rest, m),
{
    let t = seq![';'] + text::decimal(m) + rest;
    assert(t[0] == ';');
    assert(t.skip(1) =~= text::decimal(m) + rest);
    lemma_numbers_decimal(m, rest);
}

// --- drawing one colour across a band ----------------------------------------------------------

/// The pen after the first `k` of some sixels.
spec fn struck_all(s: Seq<u8>, k: int, pen: Pen, px: int, py: int) -> Pen
    decreases k,
{
    if k <= 0 {
        pen
    } else {
        struck(struck_all(s, k - 1, pen, px, py), s[k - 1] as int, 1, px, py)
    }
}

/// Drawing sixels one after the other is drawing each in its column.
proof fn lemma_struck_all(s: Seq<u8>, k: int, pen: Pen, px: int, py: int)
    requires
        0 <= k <= s.len(),
    ensures
        struck_all(s, k, pen, px, py) == (Pen {
            x: pen.x + k,
            point: if pen.x <= px < pen.x + k && sets(
                s[px - pen.x] as int,
                py - 6 * pen.band,
            ) {
                Some(pen.registers[pen.register])
            } else {
                pen.point
            },
            ..pen
        }),
    decreases k,
{
    if k > 0 {
        lemma_struck_all(s, k - 1, pen, px, py);
    }
}

/// A run of equal sixels is drawn like each of them.
proof fn lemma_struck_run(v: u8, n: nat, pen: Pen, px: int, py: int)
    ensures
        struck_all(Seq::new(n, |k: int| v), n as int, pen, px, py) == struck(
            pen,
            v as int,
            n,
            px,
            py,
        ),
{
    let s = Seq::new(n, |k: int| v);
    lemma_struck_all(s, n as int, pen, px, py);
}

proof fn lemma_struck_both(a: Seq<u8>, b: Seq<u8>, k: int, pen: Pen, px: int, py: int)
    requires
        0 <= k <= b.len(),
    ensures
        struck_all(a + b, a.len() + k, pen, px, py) == struck_all(
            b,
            k,
            struck_all(a, a.len() as int, pen, px, py),
            px,
            py,
        ),
    decreases k,
{
    if k > 0 {
        lemma_struck_both(a, b, k - 1, pen, px, py);
        assert((a + b)[a.len() + k - 1] == b[k - 1]);
    } else {
        lemma_struck_prefix(a + b, a, a.len() as int, pen, px, py);
    }
}

proof fn lemma_struck_prefix(a: Seq<u8>, b: Seq<u8>, k: int, pen: Pen, px: int, py: int)
    requires
        0 <= k <= a.len(),
        k <= b.len(),
        forall|i: int| 0 <= i < k ==> a[i] == b[i],
    ensures
        struck_all(a, k, pen, px, py) == struck_all(b, k, pen, px, py),
    decreases k,
{
    if k > 0 {
        lemma_struck_prefix(a, b, k - 1, pen, px, py);
        assert(a[k - 1] == b[k - 1]);
    }
}

proof fn lemma_singles_plotted(v: u8, n: nat, rest: Seq<char>, pen: Pen, px: int, py: int)
    requires
        v < 64,
    ensures
        plotted(Seq::new(n, |k: int| sixel_char(v)) + rest, pen, px, py) == plotted(
            rest,
            struck(pen, v as int, n, px, py),
            px,
            py,
        ),
    decreases n,
{
    let t = Seq::new(n, |k: int| sixel_char(v)) + rest;
    if n == 0 {
        assert(t =~= rest);
        assert(struck(pen, v as int, 0, px, py) == pen);
    } else {
        let m = (n - 1) as nat;
        assert(t[0] == sixel_char(v));
        assert(t[0] as int == 0x3f + v);
        assert(t.skip(1) =~= Seq::new(m, |k: int| sixel_char(v)) + rest);
        let one = struck(pen, v as int, 1, px, py);
        lemma_singles_plotted(v, m, rest, one, px, py);
        assert(struck(one, v as int, m, px, py) == struck(pen, v as int, n, px, py));
    }
}

proof fn lemma_run_plotted(v: u8, n: nat, rest: Seq<char>, pen: Pen, px: int, py: int)
    requires
        v < 64,
    ensures
        plotted(run_text(v, n) + rest, pen, px, py) == plotted(
            rest,
            struck(pen, v as int, n, px, py),
            px,
            py,
        ),
{
    if run_text(v, n) == Seq::new(n, |k: int| sixel_char(v)) {
        lemma_singles_plotted(v, n, rest, pen, px, py);
    } else {
        reveal_strlit("!");
        let t = run_text(v, n) + rest;
        let tail = seq![sixel_char(v)] + rest;
        assert(t[0] == '!');
        assert(t.skip(1) =~= text::decimal(n) + tail);
        lemma_decimal_params(n);
        assert(tail[0] == sixel_char(v) && tail[0] as int == 0x3f + v);
        lemma_params_len(text::decimal(n), tail);
        lemma_number(n);
        assert(tail.skip(1) =~= rest);
    }
}

proof fn lemma_runs_first(runs: Seq<(u8, nat)>)
    requires
        runs.len() > 0,
    ensures
        runs_text(runs) == run_text(runs[0].0, runs[0].1) + runs_text(runs.skip(1)),
    decreases runs.len(),
{
    let none = Seq::<char>::empty();
    if runs.len() == 1 {
        assert(runs.drop_last() =~= Seq::empty());
        assert(runs.skip(1) =~= Seq::empty());
        assert(runs_text(runs.drop_last()) =~= none);
        assert(runs_text(runs.skip(1)) =~= none);
        assert(runs_text(runs) =~= run_text(runs[0].0, runs[0].1) + none);
    } else {
        let d = runs.drop_last();
        lemma_runs_first(d);
        assert(d.skip(1) =~= runs.skip(1).drop_last());
        assert(runs.skip(1).last() == runs.last());
        let last = run_text(runs.last().0, runs.last().1);
        assert(runs_text(runs) =~= run_text(runs[0].0, runs[0].1) + (runs_text(d.skip(1)) + last));
    }
}

proof fn lemma_runs_plotted(runs: Seq<(u8, nat)>, rest: Seq<char>, pen: Pen, px: int, py: int)
    requires
        forall|k: int| 0 <= k < runs.len() ==> (#[trigger] runs[k]).0 < 64,
    ensures
        plotted(runs_text(runs) + rest, pen, px, py) == plotted(
            rest,
            struck_all(expanded(runs), expanded(runs).len() as int, pen, px, py),
            px,
            py,
        ),
    decreases runs.len(),
{
    if runs.len() == 0 {
        assert(runs_text(runs) + rest =~= rest);
    } else {
        let v = runs[0].0;
        let n = runs[0].1;
        let more = runs.skip(1);
        assert(more =~= runs.drop_first());
        lemma_runs_first(runs);
        assert(runs_text(runs) + rest =~= run_text(v, n) + (runs_text(more) + rest));
        assert(runs[0].0 < 64);
        lemma_run_plotted(v, n, runs_text(more) + rest, pen, px, py);
        let next = struck(pen, v as int, n, px, py);
        assert forall|k: int| 0 <= k < more.len() implies (#[trigger] more[k]).0 < 64 by {
            assert(more[k] == runs[k + 1]);
        }
        lemma_runs_plotted(more, rest, next, px, py);
        let own = Seq::new(n, |k: int| v);
        lemma_struck_run(v, n, pen, px, py);
        assert(expanded(runs) =~= own + expanded(more));
        lemma_struck_both(own, expanded(more), expanded(more).len() as int, pen, px, py);
    }
}

proof fn lemma_runs_small(s: Seq<u8>, i: int)
    requires
        0 <= i <= s.len(),
        forall|k: int| 0 <= k < s.len() ==> #[trigger] s[k] < 64,
    ensures
        forall|k: int| 0 <= k < runs_from(s, i).len() ==> (#[trigger] runs_from(s, i)[k]).0 < 64,
        i < s.len() ==> runs_from(s, i).len() > 0 && runs_from(s, i)[0].1 > 0,
    decreases s.len() - i,
{
    if i < s.len() {
        super::sixel::lemma_run_end(s, s[i], i + 1);
        let end = super::sixel::run_end(s, s[i], i + 1);
        lemma_runs_small(s, end);
        let runs = runs_from(s, i);
        assert forall|k: int| 0 <= k < runs.len() implies (#[trigger] runs[k]).0 < 64 by {
            if k > 0 {
                assert(runs[k] == runs_from(s, end)[k - 1]);
            }
        }
    }
}

/// The bits of a sixel are the rows in which the pixel has the colour.
proof fn lemma_bits(
    indices: Seq<Option<u8>>,
    base: int,
    w: int,
    x: int,
    rows: int,
    color: u8,
    r: int,
)
    requires
        0 <= rows <= 6,
    ensures
        0 <= sixel_at(indices, base, w, x, rows, color) < 64,
        sets(sixel_at(indices, base, w, x, rows, color), r) == (0 <= r < rows && indices[base + r * w
            + x] == Some(color)),
{
    super::sixel::lemma_sixel_at(indices, base, w, x, rows, color);
    reveal_with_fuel(sixel_at, 7);
}

/// One colour is drawn across a band where the picture has it, and nowhere else.
proof fn lemma_band_plotted(
    indices: Seq<Option<u8>>,
    base: int,
    w: int,
    rows: int,
    color: u8,
    rest: Seq<char>,
    pen: Pen,
    px: int,
    py: int,
) -> (x: int)
    requires
        0 <= rows <= 6,
        0 <= w,
        pen.x == 0,
        0 <= px < w,
    ensures
        plotted(band_text(indices, base, w, rows, color) + rest, pen, px, py) == plotted(
            rest,
            (Pen {
                x,
                point: if 0 <= py - 6 * pen.band < rows && indices[base + (py - 6 * pen.band) * w
                    + px] == Some(color) {
                    Some(pen.registers[pen.register])
                } else {
                    pen.point
                },
                ..pen
            }),
            px,
            py,
        ),
{
    let all = band_sixels(indices, base, w, rows, color);
    let s = without_tail(all);
    only_empty_sixels_are_dropped(all);
    assert forall|k: int| 0 <= k < s.len() implies #[trigger] s[k] < 64 by {
        assert(s[k] == all[k]);
        lemma_bits(indices, base, w, k, rows, color, 0);
    }
    lemma_runs_small(s, 0);
    runs_stand_for_the_sixels(s, 0);
    assert(s.subrange(0, s.len() as int) =~= s);
    lemma_runs_plotted(runs_from(s, 0), rest, pen, px, py);
    lemma_struck_all(s, s.len() as int, pen, px, py);
    let r = py - 6 * pen.band;
    lemma_bits(indices, base, w, px, rows, color, r);
    if px < s.len() {
        assert(s[px] == all[px]);
    } else {
        assert(all[px] == 0);
        assert(!sets(0, r));
    }
    s.len() as int
}

/// A band's data goes on with no digit.
proof fn lemma_band_start(
    indices: Seq<Option<u8>>,
    base: int,
    w: int,
    rows: int,
    color: u8,
    rest: Seq<char>,
)
    requires
        0 <= rows <= 6,
        ends_number(rest),
    ensures
        ends_number(band_text(indices, base, w, rows, color) + rest),
{
    let all = band_sixels(indices, base, w, rows, color);
    let s = without_tail(all);
    only_empty_sixels_are_dropped(all);
    assert forall|k: int| 0 <= k < s.len() implies #[trigger] s[k] < 64 by {
        assert(s[k] == all[k]);
        lemma_bits(indices, base, w, k, rows, color, 0);
    }
    lemma_runs_small(s, 0);
    let runs = runs_from(s, 0);
    let t = band_text(indices, base, w, rows, color);
    if s.len() > 0 {
        lemma_runs_first(runs);
        let first = run_text(runs[0].0, runs[0].1);
        reveal_strlit("!");
        assert(first.len() > 0);
        assert((t + rest)[0] == first[0]);
        assert(first[0] == '!' || first[0] == sixel_char(runs[0].0));
    } else {
        assert(s =~= Seq::empty());
        assert(runs =~= Seq::empty());
        assert(t + rest =~= rest);
    }
}

// --- all colours of a band -----------------------------------------------------------------------

/// What the point has once the first `k` colours of its band are drawn.
spec fn colored_point(
    indices: Seq<Option<u8>>,
    registers: Map<nat, Tint>,
    at: int,
    k: int,
    before: Option<Tint>,
) -> Option<Tint> {
    match indices[at] {
        Some(c) => if (c as int) < k {
            Some(registers[c as nat])
        } else {
            before
        },
        None => before,
    }
}

/// Text that selects a register and goes on.
proof fn lemma_select(n: nat, rest: Seq<char>, pen: Pen, px: int, py: int)
    requires
        ends_number(rest),
    ensures
        plotted(seq!['#'] + text::decimal(n) + rest, pen, px, py) == plotted(
            rest,
            (Pen { register: n, ..pen }),
            px,
            py,
        ),
{
    let t = seq!['#'] + text::decimal(n) + rest;
    assert(t[0] == '#');
    assert(t.skip(1) =~= text::decimal(n) + rest);
    lemma_decimal_params(n);
    lemma_params_len(text::decimal(n), rest);
    lemma_number(n);
}

/// The colours of a band, before other data, draw the point as the picture has it, where
/// it lies in the band, and leave it alone where it does not.
proof fn lemma_colors_plotted(
    indices: Seq<Option<u8>>,
    base: int,
    w: int,
    rows: int,
    k: int,
    rest: Seq<char>,
    pen: Pen,
    px: int,
    py: int,
) -> (after: Pen)
    requires
        0 <= rows <= 6,
        0 <= k <= 256,
        0 <= base,
        base + rows * w <= indices.len(),
        pen.x == 0,
        0 <= px < w,
        ends_number(rest),
    ensures
        plotted(colors_text(indices, base, w, rows, k) + rest, pen, px, py) == plotted(
            rest,
            after,
            px,
            py,
        ),
        colors_text(indices, base, w, rows, k).len() == 0 ==> after.x == 0,
        after.band == pen.band,
        after.registers == pen.registers,
        after.size == pen.size,
        ({
            let r = py - 6 * pen.band;
            after.point == if 0 <= r < rows {
                colored_point(indices, pen.registers, base + r * w + px, k, pen.point)
            } else {
                pen.point
            }
        }),
    decreases k,
{
    let r = py - 6 * pen.band;
    let at = base + r * w + px;
    if k <= 0 {
        assert(colors_text(indices, base, w, rows, k) + rest =~= rest);
        pen
    } else {
        let c = (k - 1) as u8;
        let before = colors_text(indices, base, w, rows, k - 1);
        if 0 <= r < rows {
            assert(base <= at < base + rows * w) by (nonlinear_arith)
                requires
                    at == base + r * w + px,
                    0 <= r < rows,
                    0 <= px < w,
            ;
        }
        if used_in(indices, base, base + rows * w, k - 1) {
            reveal_strlit("$");
            reveal_strlit("#");
            let own = band_text(indices, base, w, rows, c);
            let select = seq!['#'] + text::decimal((k - 1) as nat) + (own + rest);
            let back = if before.len() > 0 {
                "$"@
            } else {
                Seq::empty()
            };
            let tail = back + select;
            assert(colors_text(indices, base, w, rows, k) + rest =~= before + tail);
            assert(ends_number(tail)) by {
                if before.len() > 0 {
                    assert(tail[0] == '$');
                } else {
                    assert(tail =~= select);
                    assert(tail[0] == '#');
                }
            }
            let mid = lemma_colors_plotted(indices, base, w, rows, k - 1, tail, pen, px, py);
            let home = Pen { x: 0, ..mid };
            assert(plotted(tail, mid, px, py) == plotted(select, home, px, py)) by {
                if before.len() > 0 {
                    assert(tail[0] == '$');
                    assert(tail.skip(1) =~= select);
                } else {
                    assert(tail =~= select);
                }
            }
            lemma_band_start(indices, base, w, rows, c, rest);
            lemma_select((k - 1) as nat, own + rest, home, px, py);
            let chosen = Pen { register: (k - 1) as nat, ..home };
            let x = lemma_band_plotted(indices, base, w, rows, c, rest, chosen, px, py);
            let after = Pen {
                x,
                point: if 0 <= r < rows && indices[at] == Some(c) {
                    Some(chosen.registers[chosen.register])
                } else {
                    chosen.point
                },
                ..chosen
            };
            after
        } else {
            let after = lemma_colors_plotted(indices, base, w, rows, k - 1, rest, pen, px, py);
            if 0 <= r < rows && indices[at] == Some(c) {
                assert(indices[at] == Some((k - 1) as u8));
                assert(false);
            }
            after
        }
    }
}

// --- all bands -------------------------------------------------------------------------------------

proof fn lemma_band_bounds(w: int, h: int, k: int)
    requires
        0 <= k < band_count(h),
        0 <= w,
        0 <= h,
    ensures
        0 <= band_rows(h, k) <= 6,
        0 <= k * 6 * w,
        k * 6 * w + band_rows(h, k) * w <= w * h,
{
    let rows = band_rows(h, k);
    assert(k * 6 + rows <= h);
    assert(0 <= k * 6 * w) by (nonlinear_arith)
        requires
            0 <= k,
            0 <= w,
    ;
    assert(k * 6 * w + rows * w <= w * h) by (nonlinear_arith)
        requires
            k * 6 + rows <= h,
            0 <= w,
    ;
}

/// The first `k` bands draw the point as the picture has it, where it lies in one of
/// them.
proof fn lemma_bands_plotted(
    indices: Seq<Option<u8>>,
    colors: int,
    w: int,
    h: int,
    k: int,
    rest: Seq<char>,
    pen: Pen,
    px: int,
    py: int,
) -> (after: Pen)
    requires
        0 <= k <= band_count(h),
        0 <= colors <= 256,
        indices.len() == w * h,
        pen.x == 0,
        pen.band == 0,
        pen.point is None,
        0 <= px < w,
        0 <= py < h,
        ends_number(rest),
        forall|i: int|
            0 <= i < indices.len() ==> (#[trigger] indices[i] matches Some(c) ==> (c as int)
                < colors),
    ensures
        plotted(bands_text(indices, colors, w, h, k) + rest, pen, px, py) == plotted(
            rest,
            after,
            px,
            py,
        ),
        k < band_count(h) ==> after.x == 0 && after.band == k,
        after.registers == pen.registers,
        after.size == pen.size,
        after.point == (if py < 6 * k {
            match indices[py * w + px] {
                Some(c) => Some(pen.registers[c as nat]),
                None => None,
            }
        } else {
            None
        }),
    decreases k,
{
    if k <= 0 {
        assert(bands_text(indices, colors, w, h, k) + rest =~= rest);
        pen
    } else {
        lemma_band_bounds(w, h, k - 1);
        let base = (k - 1) * 6 * w;
        let rows = band_rows(h, k - 1);
        reveal_strlit("-");
        let down = if k < band_count(h) {
            "-"@
        } else {
            Seq::empty()
        };
        let own = colors_text(indices, base, w, rows, colors);
        let below = down + rest;
        let tail = own + below;
        assert(bands_text(indices, colors, w, h, k) + rest =~= bands_text(
            indices,
            colors,
            w,
            h,
            k - 1,
        ) + tail);
        assert(ends_number(below)) by {
            if k < band_count(h) {
                assert(below[0] == '-');
            } else {
                assert(below =~= rest);
            }
        }
        lemma_colors_start(indices, base, w, rows, colors, below);
        let mid = lemma_bands_plotted(indices, colors, w, h, k - 1, tail, pen, px, py);
        let drawn = lemma_colors_plotted(
            indices,
            base,
            w,
            rows,
            colors,
            below,
            mid,
            px,
            py,
        );
        let r = py - 6 * (k - 1);
        assert(base + r * w + px == py * w + px) by (nonlinear_arith)
            requires
                base == (k - 1) * 6 * w,
                r == py - 6 * (k - 1),
        ;
        assert(0 <= py * w + px < w * h) by (nonlinear_arith)
            requires
                0 <= px < w,
                0 <= py < h,
        ;
        if k < band_count(h) {
            assert(below[0] == '-');
            assert(below.skip(1) =~= rest);
            Pen { x: 0, band: drawn.band + 1, ..drawn }
        } else {
            assert(below =~= rest);
            drawn
        }
    }
}

proof fn lemma_colors_start(
    indices: Seq<Option<u8>>,
    base: int,
    w: int,
    rows: int,
    k: int,
    rest: Seq<char>,
)
    requires
        ends_number(rest),
    ensures
        ends_number(colors_text(indices, base, w, rows, k) + rest),
        colors_text(indices, base, w, rows, k).len() > 0 ==> colors_text(
            indices,
            base,
            w,
            rows,
            k,
        )[0] == '#',
    decreases k,
{
    let t = colors_text(indices, base, w, rows, k);
    if k > 0 {
        lemma_colors_start(indices, base, w, rows, k - 1, rest);
        let before = colors_text(indices, base, w, rows, k - 1);
        reveal_strlit("$");
        reveal_strlit("#");
        if used_in(indices, base, base + rows * w, k - 1) {
            if before.len() > 0 {
                assert(t[0] == before[0]);
            } else {
                assert(t[0] == '#');
            }
        }
    }
    if t.len() > 0 {
        assert((t + rest)[0] == t[0]);
    } else {
        assert(t + rest =~= rest);
    }
}

// --- the whole image -------------------------------------------------------------------------------

/// A colour in percent.
pub open spec fn tint_of(c: Rgb) -> Tint {
    (percent(c.0 as int) as nat, percent(c.1 as int) as nat, percent(c.2 as int) as nat)
}

proof fn lemma_register(i: nat, c: Rgb, rest: Seq<char>, pen: Pen, px: int, py: int)
    requires
        ends_number(rest),
    ensures
        plotted(register_text(i, c) + rest, pen, px, py) == plotted(
            rest,
            (Pen { register: i, registers: pen.registers.insert(i, tint_of(c)), ..pen }),
            px,
            py,
        ),
{
    reveal_strlit("#");
    reveal_strlit(";2;");
    reveal_strlit(";");
    let (r, g, b) = tint_of(c);
    let none = Seq::<char>::empty();
    let semi = seq![';'];
    lemma_decimal_params(i);
    lemma_decimal_params(r);
    lemma_decimal_params(g);
    lemma_decimal_params(b);
    lemma_decimal_params(2);
    reveal_with_fuel(text::decimal, 2);
    assert(text::decimal(2) =~= seq!['2']);
    let p4 = semi + text::decimal(b) + none;
    let p3 = semi + text::decimal(g) + p4;
    let p2 = semi + text::decimal(r) + p3;
    let p1 = semi + text::decimal(2) + p2;
    let params = text::decimal(i) + p1;
    lemma_numbers_more(g, b, none);
    lemma_numbers_more(r, g, p4);
    lemma_numbers_more(2, r, p3);
    lemma_numbers_more(i, 2, p2);
    lemma_numbers_decimal(i, p1);
    assert(numbers(none, b) =~= seq![b]);
    assert(numbers(params, 0) =~= seq![i, 2nat, r, g, b]);
    assert(is_params(params)) by {
        assert(is_params(p4));
        assert(is_params(p3));
        assert(is_params(p2));
        assert(is_params(p1));
    }
    let t = register_text(i, c) + rest;
    assert(t[0] == '#');
    assert(t.skip(1) =~= params + rest);
    lemma_params_len(params, rest);
}

/// The registers of a palette hold its colours.
proof fn lemma_registers(
    palette: Seq<Rgb>,
    rest: Seq<char>,
    pen: Pen,
    px: int,
    py: int,
) -> (after: Pen)
    requires
        ends_number(rest),
    ensures
        plotted(registers_text(palette) + rest, pen, px, py) == plotted(rest, after, px, py),
        forall|i: int|
            0 <= i < palette.len() ==> #[trigger] after.registers[i as nat] == tint_of(palette[i]),
        after.x == pen.x,
        after.band == pen.band,
        after.size == pen.size,
        after.point == pen.point,
    decreases palette.len(),
{
    if palette.len() == 0 {
        assert(registers_text(palette) + rest =~= rest);
        pen
    } else {
        let d = palette.drop_last();
        let i = (palette.len() - 1) as nat;
        let own = register_text(i, palette.last());
        let tail = own + rest;
        reveal_strlit("#");
        assert(tail[0] == '#');
        assert(registers_text(palette) + rest =~= registers_text(d) + tail);
        let before = lemma_registers(d, tail, pen, px, py);
        lemma_register(i, palette.last(), rest, before, px, py);
        let after = Pen {
            register: i,
            registers: before.registers.insert(i, tint_of(palette.last())),
            ..before
        };
        assert forall|j: int| 0 <= j < palette.len() implies #[trigger] after.registers[j as nat]
            == tint_of(palette[j]) by {
            if j < d.len() {
                assert(before.registers[j as nat] == tint_of(d[j]));
            }
        }
        after
    }
}

proof fn lemma_header(w: nat, h: nat, rest: Seq<char>, pen: Pen, px: int, py: int)
    requires
        ends_number(rest),
    ensures
        plotted("\"1;1;"@ + text::decimal(w) + ";"@ + text::decimal(h) + rest, pen, px, py)
            == plotted(rest, (Pen { size: (w, h), ..pen }), px, py),
{
    reveal_strlit("\"1;1;");
    reveal_strlit(";");
    let none = Seq::<char>::empty();
    let semi = seq![';'];
    lemma_decimal_params(w);
    lemma_decimal_params(h);
    lemma_decimal_params(1);
    reveal_with_fuel(text::decimal, 2);
    assert(text::decimal(1) =~= seq!['1']);
    let p3 = semi + text::decimal(h) + none;
    let p2 = semi + text::decimal(w) + p3;
    let p1 = semi + text::decimal(1) + p2;
    let params = text::decimal(1) + p1;
    lemma_numbers_more(w, h, none);
    lemma_numbers_more(1, w, p3);
    lemma_numbers_more(1, 1, p2);
    lemma_numbers_decimal(1, p1);
    assert(numbers(none, h) =~= seq![h]);
    assert(numbers(params, 0) =~= seq![1nat, 1nat, w, h]);
    assert(is_params(params)) by {
        assert(is_params(p3));
        assert(is_params(p2));
        assert(is_params(p1));
    }
    let t = "\"1;1;"@ + text::decimal(w) + ";"@ + text::decimal(h) + rest;
    assert(t[0] == '"');
    assert(t.skip(1) =~= params + rest);
    lemma_params_len(params, rest);
}

/// The image is drawn where it was. Between its introduction and its end an image is data
/// that announces its size; a terminal that reads all of it has drawn every point in the
/// colour of the picture's pixel there, as the palette has it in percent, and has left
/// the points alone at which the picture is transparent.
pub proof fn the_image_is_drawn(
    palette: Seq<Rgb>,
    indices: Seq<Option<u8>>,
    w: nat,
    h: nat,
    x: int,
    y: int,
) -> (data: Seq<char>)
    requires
        palette.len() <= 256,
        indices.len() == w * h,
        0 <= x < w,
        0 <= y < h,
        forall|i: int|
            0 <= i < indices.len() ==> (#[trigger] indices[i] matches Some(c) ==> (c as int)
                < palette.len()),
    ensures
        sixel_text(palette, indices, w, h) == seq![
            '\x1b',
            'P',
            '0',
            ';',
            '1',
            ';',
            '0',
            'q',
        ] + data + seq!['\x1b', '\\'],
        plotted(data, fresh_pen(), x, y).size == (w, h),
        plotted(data, fresh_pen(), x, y).point == (match indices[y * w + x] {
            Some(c) => Some(
                (
                    percent(palette[c as int].0 as int) as nat,
                    percent(palette[c as int].1 as int) as nat,
                    percent(palette[c as int].2 as int) as nat,
                ),
            ),
            None => None,
        }),
{
    reveal_strlit("\x1bP0;1;0q");
    reveal_strlit("\x1b\\");
    reveal_strlit("\"1;1;");
    reveal_strlit(";");
    let n = band_count(h as int);
    let none = Seq::<char>::empty();
    let bands = bands_text(indices, palette.len() as int, w as int, h as int, n);
    let head = "\"1;1;"@ + text::decimal(w) + ";"@ + text::decimal(h);
    let inner = registers_text(palette) + (bands + none);
    let data = head + inner;
    assert(sixel_text(palette, indices, w, h) =~= seq![
        '\x1b',
        'P',
        '0',
        ';',
        '1',
        ';',
        '0',
        'q',
    ] + data + seq!['\x1b', '\\']);
    lemma_bands_start(indices, palette.len() as int, w as int, h as int, n);
    assert(bands + none =~= bands);
    assert(ends_number(inner)) by {
        reveal_strlit("#");
        if palette.len() > 0 {
            lemma_registers_start(palette);
            assert(inner[0] == registers_text(palette)[0]);
        } else {
            assert(inner =~= bands);
        }
    }
    lemma_header(w, h, inner, fresh_pen(), x, y);
    let sized = Pen { size: (w, h), ..fresh_pen() };
    let filled = lemma_registers(palette, bands + none, sized, x, y);
    let last = lemma_bands_plotted(
        indices,
        palette.len() as int,
        w as int,
        h as int,
        n,
        none,
        filled,
        x,
        y,
    );
    assert(plotted(none, last, x, y) == last);
    assert(0 <= y * w + x < w * h) by (nonlinear_arith)
        requires
            0 <= x < w,
            0 <= y < h,
    ;
    match indices[y * w + x] {
        Some(c) => {
            assert((c as int) < palette.len());
            let i = c as int;
            assert(filled.registers[i as nat] == tint_of(palette[i]));
        },
        None => {},
    }
    data
}

proof fn lemma_registers_start(palette: Seq<Rgb>)
    requires
        palette.len() > 0,
    ensures
        registers_text(palette).len() > 0,
        registers_text(palette)[0] == '#',
    decreases palette.len(),
{
    reveal_strlit("#");
    let d = palette.drop_last();
    if d.len() > 0 {
        lemma_registers_start(d);
        assert(registers_text(palette)[0] == registers_text(d)[0]);
    } else {
        assert(registers_text(d) =~= Seq::empty());
        let own = register_text((palette.len() - 1) as nat, palette.last());
        assert(registers_text(palette) =~= own);
        assert(own[0] == '#');
    }
}

proof fn lemma_bands_start(indices: Seq<Option<u8>>, colors: int, w: int, h: int, k: int)
    ensures
        ends_number(bands_text(indices, colors, w, h, k)),
    decreases k,
{
    let t = bands_text(indices, colors, w, h, k);
    if k > 0 {
        lemma_bands_start(indices, colors, w, h, k - 1);
        let before = bands_text(indices, colors, w, h, k - 1);
        let own = colors_text(indices, (k - 1) * 6 * w, w, band_rows(h, k - 1), colors);
        lemma_colors_start(
            indices,
            (k - 1) * 6 * w,
            w,
            band_rows(h, k - 1),
            colors,
            Seq::empty(),
        );
        reveal_strlit("-");
        if before.len() > 0 {
            assert(t[0] == before[0]);
        } else if own.len() > 0 {
            assert(t[0] == own[0]);
        } else if t.len() > 0 {
            assert(t[0] == '-');
        }
    }
}

// --- from pixels to colours of the palette -------------------------------------------------------

/// The colour of the `i`th pixel of a picture.
pub open spec fn pixel(p: PictureV, i: int) -> Rgb {
    Rgb(p.pixels[4 * i], p.pixels[4 * i + 1], p.pixels[4 * i + 2])
}

/// True of a pixel that is to be seen.
pub open spec fn is_seen(p: PictureV, i: int) -> bool {
    p.pixels[4 * i + 3] >= 128
}

/// A pixel gets a colour exactly where it is to be seen.
pub proof fn transparency_is_kept(p: PictureV, palette: Seq<Rgb>, k: int)
    requires
        0 <= k <= p.count(),
    ensures
        dithered(p, palette, k).out.len() == k,
        forall|i: int|
            0 <= i < k ==> (#[trigger] dithered(p, palette, k).out[i] is Some) == is_seen(p, i),
    decreases k,
{
    if k > 0 {
        transparency_is_kept(p, palette, k - 1);
        let d = dithered(p, palette, k - 1);
        let out = dithered(p, palette, k).out;
        assert forall|i: int| 0 <= i < k implies (#[trigger] out[i] is Some) == is_seen(p, i) by {
            if i < k - 1 {
                assert(out[i] == d.out[i]);
            }
        }
    }
}

/// True of a picture whose colours are all in a palette, and far enough apart to be told
/// from each other.
pub open spec fn has_its_colours(p: PictureV, palette: Seq<Rgb>) -> bool {
    &&& forall|i: int| 0 <= i < p.count() && is_seen(p, i) ==> palette.contains(#[trigger] pixel(p, i))
    &&& forall|i: int, j: int|
        0 <= i < p.count() && 0 <= j < p.count() && is_seen(p, i) && is_seen(p, j) && bucket(
            #[trigger] pixel(p, i),
        ) == bucket(#[trigger] pixel(p, j)) ==> pixel(p, i) == pixel(p, j)
}

proof fn lemma_apart(a: Rgb, b: Rgb)
    ensures
        0 <= apart(a, b),
        apart(a, b) == 0 ==> a == b,
        apart(a, a) == 0,
{
    let x = a.0 - b.0;
    let y = a.1 - b.1;
    let z = a.2 - b.2;
    assert(2 * x * x >= 0 && 4 * y * y >= 0 && 3 * z * z >= 0) by (nonlinear_arith);
    assert(2 * x * x == 0 ==> x == 0) by (nonlinear_arith);
    assert(4 * y * y == 0 ==> y == 0) by (nonlinear_arith);
    assert(3 * z * z == 0 ==> z == 0) by (nonlinear_arith);
}

/// A colour of the palette is its own nearest.
proof fn lemma_exact(palette: Seq<Rgb>, c: Rgb)
    requires
        palette.contains(c),
    ensures
        0 <= nearest_index(palette, c) < palette.len(),
        palette[nearest_index(palette, c)] == c,
{
    let j = choose|j: int| 0 <= j < palette.len() && palette[j] == c;
    the_nearest_is_chosen(palette, c, palette.len() as int);
    lemma_apart(c, c);
    lemma_apart(c, palette[nearest_index(palette, c)]);
    assert(apart(c, palette[nearest_index(palette, c)]) <= apart(c, palette[j]));
}

/// No error is spread where there is none.
proof fn lemma_no_error(buf: Seq<Wanted>, there: bool, j: int, want: Wanted, chosen: Rgb, num: int)
    requires
        want.red == chosen.0,
        want.green == chosen.1,
        want.blue == chosen.2,
        there ==> 0 <= j < buf.len(),
    ensures
        diffused(buf, there, j, want, chosen, num) == buf,
{
    assert(0 * num / 16 == 0) by (nonlinear_arith);
    if there {
        assert(diffused(buf, there, j, want, chosen, num) =~= buf);
    }
}

proof fn lemma_dithered_exactly(p: PictureV, palette: Seq<Rgb>, k: int)
    requires
        has_its_colours(p, palette),
        palette.len() <= 256,
        0 <= k <= p.count(),
    ensures
        ({
            let d = dithered(p, palette, k);
            &&& d.out.len() == k
            &&& d.table.len() == BUCKETS
            &&& d.buf.len() == p.count()
            &&& forall|i: int|
                0 <= i < p.count() ==> (#[trigger] d.buf[i]) == (Wanted {
                    red: pixel(p, i).0 as i32,
                    green: pixel(p, i).1 as i32,
                    blue: pixel(p, i).2 as i32,
                })
            &&& forall|i: int|
                0 <= i < k && is_seen(p, i) ==> (#[trigger] d.out[i] matches Some(c) && (c as int)
                    < palette.len() && palette[c as int] == pixel(p, i))
            &&& forall|b: int|
                0 <= b < BUCKETS && #[trigger] d.table[b] != EMPTY ==> d.table[b] < palette.len()
                    && exists|i: int|
                    0 <= i < k && is_seen(p, i) && bucket(#[trigger] pixel(p, i)) == b
                        && palette[d.table[b] as int] == pixel(p, i)
        }),
    decreases k,
{
    if k > 0 {
        lemma_dithered_exactly(p, palette, k - 1);
        let i = k - 1;
        let d = dithered(p, palette, i);
        let e = dithered(p, palette, k);
        if is_seen(p, i) {
            let c = pixel(p, i);
            let want = d.buf[i];
            let b = bucket(c);
            assert(0 <= b < BUCKETS);
            lemma_exact(palette, c);
            let (index, table) = looked_up(d.table, palette, c);
            assert(0 <= index < palette.len() && palette[index] == c) by {
                if d.table[b] != EMPTY {
                    let j = choose|j: int|
                        0 <= j < i && is_seen(p, j) && bucket(#[trigger] pixel(p, j)) == b
                            && palette[d.table[b] as int] == pixel(p, j);
                    assert(pixel(p, j) == pixel(p, i));
                }
            }
            let w = p.width as int;
            let n = p.count();
            assert(w > 0) by (nonlinear_arith)
                requires
                    w == p.width,
                    0 < p.width * p.height,
            ;
            let right = (i + 1) % w != 0;
            let left = i % w != 0;
            let down = i + w < n;
            lemma_mod_multiples_basic(p.height as int, w);
            lemma_mod_add_multiples_vanish(i + 1, w);
            assert(n == p.height * w) by (nonlinear_arith)
                requires
                    n == p.width * p.height,
                    w == p.width,
            ;
            lemma_no_error(d.buf, right, i + 1, want, c, 7);
            lemma_no_error(d.buf, left && down, i + w - 1, want, c, 3);
            lemma_no_error(d.buf, down, i + w, want, c, 5);
            lemma_no_error(d.buf, right && down, i + w + 1, want, c, 1);
            assert(spread_error(d.buf, i, w, n, want, c) == d.buf);
            assert(e.buf == d.buf);
            assert(e.out == d.out.push(Some(index as u8)));
            assert(e.table == table);
            assert forall|a: int| 0 <= a < BUCKETS && #[trigger] e.table[a] != EMPTY implies e.table[a]
                < palette.len() && exists|j: int|
                0 <= j < k && is_seen(p, j) && bucket(#[trigger] pixel(p, j)) == a
                    && palette[e.table[a] as int] == pixel(p, j) by {
                if a == b {
                    assert(bucket(pixel(p, i)) == a);
                } else {
                    assert(e.table[a] == d.table[a]);
                    let j = choose|j: int|
                        0 <= j < i && is_seen(p, j) && bucket(#[trigger] pixel(p, j)) == a
                            && palette[d.table[a] as int] == pixel(p, j);
                    assert(bucket(pixel(p, j)) == a);
                }
            }
        } else {
            assert(e.out == d.out.push(None));
            assert forall|a: int| 0 <= a < BUCKETS && #[trigger] e.table[a] != EMPTY implies e.table[a]
                < palette.len() && exists|j: int|
                0 <= j < k && is_seen(p, j) && bucket(#[trigger] pixel(p, j)) == a
                    && palette[e.table[a] as int] == pixel(p, j) by {
                assert(e.table[a] == d.table[a]);
                let j = choose|j: int|
                    0 <= j < i && is_seen(p, j) && bucket(#[trigger] pixel(p, j)) == a
                        && palette[d.table[a] as int] == pixel(p, j);
                assert(bucket(pixel(p, j)) == a);
            }
        }
        assert forall|j: int| 0 <= j < k && is_seen(p, j) implies (#[trigger] e.out[j] matches Some(
            c,
        ) && (c as int) < palette.len() && palette[c as int] == pixel(p, j)) by {
            if j < i {
                assert(e.out[j] == d.out[j]);
            }
        }
    }
}

/// A picture whose colours the palette has is drawn in exactly those: each pixel gets the
/// entry that holds its own colour, whatever its neighbours are.
pub proof fn colours_of_the_palette_are_kept(p: PictureV, palette: Seq<Rgb>, i: int)
    requires
        has_its_colours(p, palette),
        palette.len() <= 256,
        0 <= i < p.count(),
        is_seen(p, i),
    ensures
        dithered(p, palette, p.count()).out[i] matches Some(c) && (c as int) < palette.len()
            && palette[c as int] == pixel(p, i),
{
    lemma_dithered_exactly(p, palette, p.count());
}

/// Percentages go up with the channel, and each is the nearest there is.
pub proof fn percentages_follow_the_channel(a: u8, b: u8)
    ensures
        a <= b ==> percent(a as int) <= percent(b as int),
        100 * a - 127 <= 255 * percent(a as int) <= 100 * a + 127,
{
}

// --- pictures of few colours ---------------------------------------------------------------------

/// True of a picture whose colours are far enough apart to be told from each other.
pub open spec fn colours_are_apart(p: PictureV) -> bool {
    forall|i: int, j: int|
        0 <= i < p.count() && 0 <= j < p.count() && is_seen(p, i) && is_seen(p, j) && bucket(
            #[trigger] pixel(p, i),
        ) == bucket(#[trigger] pixel(p, j)) ==> pixel(p, i) == pixel(p, j)
}

/// True of a bucket that holds pixels of one colour.
spec fn is_tally(e: Entry, c: Rgb) -> bool {
    &&& e.red == e.count * c.0
    &&& e.green == e.count * c.1
    &&& e.blue == e.count * c.2
}

spec fn tally_holds(p: PictureV, k: int, t: Seq<Entry>) -> bool {
    &&& t.len() == BUCKETS
    &&& forall|b: int| 0 <= b < BUCKETS ==> (#[trigger] t[b]).count <= k
    &&& forall|b: int|
        0 <= b < BUCKETS && (#[trigger] t[b]).count == 0 ==> t[b].red == 0 && t[b].green == 0
            && t[b].blue == 0
    &&& forall|i: int|
        0 <= i < k && is_seen(p, i) ==> t[bucket(#[trigger] pixel(p, i))].count > 0 && is_tally(
            t[bucket(pixel(p, i))],
            pixel(p, i),
        )
    &&& forall|b: int|
        0 <= b < BUCKETS && (#[trigger] t[b]).count > 0 ==> exists|i: int|
            0 <= i < k && is_seen(p, i) && bucket(#[trigger] pixel(p, i)) == b
}

proof fn lemma_tallied(p: PictureV, k: int)
    requires
        p.wf(),
        colours_are_apart(p),
        0 <= k <= p.count(),
    ensures
        tally_holds(p, k, tallied(p, k)),
    decreases k,
{
    if k > 0 {
        lemma_tallied(p, k - 1);
        let i = k - 1;
        let s = tallied(p, i);
        let t = tallied(p, k);
        assert(p.count() <= 0x003f_ffff_ffff_ffff);
        if is_seen(p, i) {
            let c = pixel(p, i);
            let b = bucket(c);
            assert(0 <= b < BUCKETS);
            let n = s[b].count;
            assert(s[b].count <= i);
            if n > 0 {
                let j = choose|j: int|
                    0 <= j < i && is_seen(p, j) && bucket(#[trigger] pixel(p, j)) == b;
                assert(pixel(p, j) == pixel(p, i));
                assert(is_tally(s[b], c));
            }
            assert(n * c.0 <= n * 255 && n * c.1 <= n * 255 && n * c.2 <= n * 255)
                by (nonlinear_arith)
                requires
                    0 <= n,
                    c.0 <= 255,
                    c.1 <= 255,
                    c.2 <= 255,
            ;
            assert((n + 1) * c.0 == n * c.0 + c.0) by (nonlinear_arith);
            assert((n + 1) * c.1 == n * c.1 + c.1) by (nonlinear_arith);
            assert((n + 1) * c.2 == n * c.2 + c.2) by (nonlinear_arith);
            assert(t[b].count == n + 1);
            assert(is_tally(t[b], c));
            assert forall|j: int| 0 <= j < k && is_seen(p, j) implies t[bucket(
                #[trigger] pixel(p, j),
            )].count > 0 && is_tally(t[bucket(pixel(p, j))], pixel(p, j)) by {
                if bucket(pixel(p, j)) == b {
                    assert(pixel(p, j) == pixel(p, i));
                } else {
                    assert(j < i);
                    assert(t[bucket(pixel(p, j))] == s[bucket(pixel(p, j))]);
                }
            }
            assert forall|a: int| 0 <= a < BUCKETS && (#[trigger] t[a]).count > 0 implies exists|j: int|
                0 <= j < k && is_seen(p, j) && bucket(#[trigger] pixel(p, j)) == a by {
                if a == b {
                    assert(bucket(pixel(p, i)) == a);
                } else {
                    assert(t[a] == s[a]);
                    let j = choose|j: int|
                        0 <= j < i && is_seen(p, j) && bucket(#[trigger] pixel(p, j)) == a;
                    assert(bucket(pixel(p, j)) == a);
                }
            }
        } else {
            assert(t == s);
            assert forall|a: int| 0 <= a < BUCKETS && (#[trigger] t[a]).count > 0 implies exists|j: int|
                0 <= j < k && is_seen(p, j) && bucket(#[trigger] pixel(p, j)) == a by {
                let j = choose|j: int|
                    0 <= j < i && is_seen(p, j) && bucket(#[trigger] pixel(p, j)) == a;
                assert(bucket(pixel(p, j)) == a);
            }
        }
    }
}

proof fn lemma_occupied(t: Seq<Entry>, b: int)
    requires
        0 <= b < t.len(),
        t[b].count > 0,
    ensures
        occupied(t).contains(t[b]),
    decreases t.len(),
{
    let d = t.drop_last();
    if b < d.len() {
        lemma_occupied(d, b);
        assert(d[b] == t[b]);
        let j = choose|j: int| 0 <= j < occupied(d).len() && occupied(d)[j] == t[b];
        assert(occupied(t)[j] == t[b]);
    } else {
        assert(occupied(t)[occupied(t).len() - 1] == t[b]);
    }
}

/// The palette has the colour of every pixel, where there are registers enough.
proof fn lemma_palette_has(p: PictureV, i: int)
    requires
        p.wf(),
        colours_are_apart(p),
        0 <= i < p.count(),
        is_seen(p, i),
        occupied(tallied(p, p.count())).len() <= 256,
    ensures
        quantized_palette(p, 256).contains(pixel(p, i)),
        quantized_palette(p, 256).len() <= 256,
        occupied(tallied(p, p.count())).len() > 0,
{
    let t = tallied(p, p.count());
    let c = pixel(p, i);
    let b = bucket(c);
    lemma_tallied(p, p.count());
    assert(0 <= b < BUCKETS);
    assert(t[b].count > 0 && is_tally(t[b], c));
    lemma_occupied(t, b);
    let entries = occupied(t);
    let j = choose|j: int| 0 <= j < entries.len() && entries[j] == t[b];
    let n = t[b].count as int;
    assert(n * c.0 / n == c.0 && n * c.1 / n == c.1 && n * c.2 / n == c.2) by {
        lemma_div_multiples_vanish(c.0 as int, n);
        lemma_div_multiples_vanish(c.1 as int, n);
        lemma_div_multiples_vanish(c.2 as int, n);
    }
    assert(entries[j].level(0) == c.0);
    assert(entries[j].level(1) == c.1);
    assert(entries[j].level(2) == c.2);
    let palette = quantized_palette(p, 256);
    assert(palette == palette_of(entries, 256));
    assert(palette[j] == c);
}

/// A picture of few colours is drawn exactly: every point that is to be seen has the
/// colour of its pixel, in percent, and no other point is drawn. Few are as many as there
/// are registers, and they have to be far enough apart to be told from each other.
pub proof fn few_colours_are_drawn_exactly(p: PictureV, x: int, y: int) -> (data: Seq<char>)
    requires
        p.wf(),
        0 <= x < p.width,
        0 <= y < p.height,
        colours_are_apart(p),
        occupied(tallied(p, p.count())).len() <= 256,
    ensures
        encoded(p) == Some(
            seq!['\x1b', 'P', '0', ';', '1', ';', '0', 'q'] + data + seq!['\x1b', '\\'],
        ),
        plotted(data, fresh_pen(), x, y).size == (p.width as nat, p.height as nat),
        ({
            let i = y * p.width + x;
            plotted(data, fresh_pen(), x, y).point == if p.pixels[4 * i + 3] >= 128 {
                Some(
                    (
                        percent(p.pixels[4 * i] as int) as nat,
                        percent(p.pixels[4 * i + 1] as int) as nat,
                        percent(p.pixels[4 * i + 2] as int) as nat,
                    ),
                )
            } else {
                None
            }
        }),
{
    let n = p.count();
    let i = y * p.width + x;
    assert(0 <= i < n) by (nonlinear_arith)
        requires
            i == y * p.width + x,
            n == p.width * p.height,
            0 <= x < p.width,
            0 <= y < p.height,
    ;
    let palette = quantized_palette(p, 256);
    let indices = quantized_indices(p, 256);
    let entries = occupied(tallied(p, n));
    lemma_tallied(p, n);
    if entries.len() == 0 {
        assert forall|j: int| 0 <= j < n implies !is_seen(p, j) by {
            if is_seen(p, j) {
                lemma_palette_has(p, j);
            }
        }
        assert(indices =~= Seq::new(n as nat, |k: int| None));
        assert(palette.len() == 1);
    } else {
        assert(palette == palette_of(entries, 256));
        assert(palette.len() <= 256);
        assert forall|j: int| 0 <= j < n && is_seen(p, j) implies palette.contains(
            #[trigger] pixel(p, j),
        ) by {
            lemma_palette_has(p, j);
        }
        assert(has_its_colours(p, palette));
        lemma_dithered_exactly(p, palette, n);
        transparency_is_kept(p, palette, n);
        assert(indices == dithered(p, palette, n).out);
    }
    assert forall|j: int| 0 <= j < indices.len() implies (#[trigger] indices[j] matches Some(c)
        ==> (c as int) < palette.len()) by {
        if entries.len() > 0 {
            assert(indices[j] is Some == is_seen(p, j));
        }
    }
    let data = the_image_is_drawn(palette, indices, p.width as nat, p.height as nat, x, y);
    if entries.len() > 0 {
        assert(indices[i] is Some == is_seen(p, i));
    } else {
        assert(!is_seen(p, i));
        assert(indices[i] is None);
    }
    data
}

} // verus!
