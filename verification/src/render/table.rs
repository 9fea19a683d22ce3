//! Table layout.
//!
//! Tables are the thing terminal Markdown viewers most often skip, because the hard
//! part is not drawing the box -- it is deciding column widths when the content does
//! not fit. The approach here: measure each column's natural and minimum width,
//! spend any spare room on the natural widths, and when there is not enough, take
//! columns down one cell at a time starting with the widest. That keeps narrow
//! columns (`Yes`, `1.2.0`) intact and makes the prose column absorb the wrapping,
//! which is what a person would do by hand.
//!
//! Below a certain width a grid stops being readable at all, so the layout switches
//! to records instead of emitting a mangled box.
use vstd::prelude::*;

use super::blocks::{
    at_least, at_most, inline_tokens, minus, tokens_of, Env, EnvV, State, StateV, TokensV,
};
use super::inline::{
    display_width, text_width, tokens_view, wrap, wrapped, Align, Token, TokenV,
};
use super::{
    blank_line, line_of, lines_view, one_span, plain_span, prefix_all, prefixed_all, push_line,
    push_lines, push_span, push_spans, sat, spans_view, spans_width, Line, LineV, Span, SpanV,
};
use crate::binary64;
use crate::binary64::{floored, of_int, product, quotient};
use crate::markdown::ir::{
    cells_view, inlines_view, plain, plain_text, table_view, Alignment, Inline, InlineV, Table,
    TableV,
};
use crate::term::style::{plain_style, Style};
use crate::text;

verus! {

// --- measuring --------------------------------------------------------------------

/// Natural and minimum width of one column.
#[derive(Debug, Clone, Copy, PartialEq, Eq, Structural)]
pub struct Measure {
    pub natural: usize,
    pub minimum: usize,
}

/// The columns of a run of tokens, as far as they can be counted.
pub open spec fn tokens_width(t: Seq<TokenV>) -> int
    decreases t.len(),
{
    if t.len() == 0 {
        0
    } else {
        sat(tokens_width(t.drop_last()) + text_width(t.last().text))
    }
}

/// The columns of the widest token.
pub open spec fn widest_token(t: Seq<TokenV>) -> int
    decreases t.len(),
{
    if t.len() == 0 {
        0
    } else {
        at_least(widest_token(t.drop_last()), text_width(t.last().text) as int)
    }
}

/// Measures, and the state after taking them.
pub struct MeasuresV {
    pub ms: Seq<Measure>,
    pub st: StateV,
}

/// A column's measure once a cell with those tokens is in it.
pub open spec fn with_cell(m: Measure, t: Seq<TokenV>) -> Measure {
    Measure {
        natural: at_least(m.natural as int, tokens_width(t)) as usize,
        minimum: at_least(m.minimum as int, widest_token(t)) as usize,
    }
}

/// The measures after the first `k` cells of a row.
pub open spec fn with_cells(e: EnvV, cells: Seq<Seq<InlineV>>, k: int, m: MeasuresV) -> MeasuresV
    decreases k,
{
    if k <= 0 {
        m
    } else {
        let before = with_cells(e, cells, k - 1, m);
        let t = tokens_of(e, cells[k - 1], plain_style(), before.st);
        MeasuresV {
            ms: if k - 1 < before.ms.len() {
                before.ms.update(k - 1, with_cell(before.ms[k - 1], t.out))
            } else {
                before.ms
            },
            st: t.st,
        }
    }
}

/// The measures after the first `k` rows.
pub open spec fn with_rows(e: EnvV, rows: Seq<Seq<Seq<InlineV>>>, k: int, m: MeasuresV) -> MeasuresV
    decreases k,
{
    if k <= 0 {
        m
    } else {
        with_cells(e, rows[k - 1], rows[k - 1].len() as int, with_rows(e, rows, k - 1, m))
    }
}

/// A measure within reason: at least one column, and a minimum no larger than the
/// natural width.
pub open spec fn settled(m: Measure) -> Measure {
    let natural = at_least(m.natural as int, 1);
    Measure {
        natural: natural as usize,
        minimum: at_most(at_least(m.minimum as int, 1), natural) as usize,
    }
}

/// Natural and minimum width for each column.
pub open spec fn measured(e: EnvV, t: TableV, columns: nat, st: StateV) -> MeasuresV {
    let zero = MeasuresV {
        ms: Seq::new(columns, |i: int| Measure { natural: 0, minimum: 0 }),
        st,
    };
    let m = with_rows(
        e,
        t.rows,
        t.rows.len() as int,
        with_cells(e, t.head, t.head.len() as int, zero),
    );
    MeasuresV { ms: m.ms.map_values(|x: Measure| settled(x)), ..m }
}

/// The longest row, of the first `k`.
pub open spec fn longest_row(rows: Seq<Seq<Seq<InlineV>>>, k: int) -> int
    decreases k,
{
    if k <= 0 {
        0
    } else {
        at_least(longest_row(rows, k - 1), rows[k - 1].len() as int)
    }
}

/// How many columns a table has.
pub open spec fn column_count(t: TableV) -> int {
    at_least(t.head.len() as int, longest_row(t.rows, t.rows.len() as int))
}

fn token_widths(tokens: &Vec<Token>) -> (r: (usize, usize))
    ensures
        r.0 == tokens_width(tokens_view(tokens@)),
        r.1 == widest_token(tokens_view(tokens@)),
{
    let ghost v = tokens_view(tokens@);
    let mut natural: usize = 0;
    let mut widest: usize = 0;
    assert(v.take(0) =~= Seq::empty());
    for i in 0..tokens.len()
        invariant
            v == tokens_view(tokens@),
            natural == tokens_width(v.take(i as int)),
            widest == widest_token(v.take(i as int)),
    {
        assert(v.take(i + 1).drop_last() =~= v.take(i as int));
        assert(v.take(i + 1).last() == tokens@[i as int]@);
        let w = tokens[i].width();
        natural = natural.saturating_add(w);
        if widest < w {
            widest = w;
        }
    }
    assert(v.take(tokens@.len() as int) =~= v);
    (natural, widest)
}

fn visit(cells: &Vec<Vec<Inline>>, env: &Env<'_>, st: &mut State, ms: &mut Vec<Measure>)
    ensures
        (MeasuresV { ms: final(ms)@, st: final(st)@ }) == with_cells(
            env@,
            cells_view(*cells),
            cells@.len() as int,
            MeasuresV { ms: old(ms)@, st: old(st)@ },
        ),
        final(ms)@.len() == old(ms)@.len(),
{
    let ghost v = cells_view(*cells);
    let ghost start = MeasuresV { ms: ms@, st: st@ };
    for i in 0..cells.len()
        invariant
            v == cells_view(*cells),
            ms@.len() == old(ms)@.len(),
            (MeasuresV { ms: ms@, st: st@ }) == with_cells(env@, v, i as int, start),
    {
        assert(v[i as int] == inlines_view(cells@[i as int]));
        let tokens = inline_tokens(&cells[i], env, st, Style::plain());
        if i < ms.len() {
            let (natural, widest) = token_widths(&tokens);
            let m = ms[i];
            let updated = Measure {
                natural: if m.natural < natural {
                    natural
                } else {
                    m.natural
                },
                minimum: if m.minimum < widest {
                    widest
                } else {
                    m.minimum
                },
            };
            ms.set(i, updated);
        }
    }
}

fn measure_columns(table: &Table, env: &Env<'_>, st: &mut State, columns: usize) -> (r: Vec<
    Measure,
>)
    ensures
        (MeasuresV { ms: r@, st: final(st)@ }) == measured(
            env@,
            table_view(*table),
            columns as nat,
            old(st)@,
        ),
        r@.len() == columns,
        forall|i: int|
            0 <= i < r@.len() ==> 1 <= (#[trigger] r@[i]).minimum <= r@[i].natural,
{
    let ghost t = table_view(*table);
    let mut ms: Vec<Measure> = Vec::new();
    for i in 0..columns
        invariant
            ms@ =~= Seq::new(i as nat, |k: int| Measure { natural: 0, minimum: 0 }),
    {
        ms.push(Measure { natural: 0, minimum: 0 });
    }
    let ghost zero = MeasuresV { ms: ms@, st: st@ };
    visit(&table.head, env, st, &mut ms);
    let ghost head = MeasuresV { ms: ms@, st: st@ };
    for k in 0..table.rows.len()
        invariant
            t == table_view(*table),
            ms@.len() == columns,
            (MeasuresV { ms: ms@, st: st@ }) == with_rows(env@, t.rows, k as int, head),
    {
        assert(t.rows[k as int] == cells_view(table.rows@[k as int]));
        visit(&table.rows[k], env, st, &mut ms);
    }
    let ghost raw = ms@;
    for i in 0..columns
        invariant
            ms@.len() == columns,
            raw.len() == columns,
            forall|k: int| 0 <= k < i ==> #[trigger] ms@[k] == settled(raw[k]),
            forall|k: int| i <= k < columns ==> #[trigger] ms@[k] == raw[k],
    {
        let m = ms[i];
        let natural: usize = if m.natural < 1 {
            1
        } else {
            m.natural
        };
        let low: usize = if m.minimum < 1 {
            1
        } else {
            m.minimum
        };
        let minimum: usize = if low > natural {
            natural
        } else {
            low
        };
        ms.set(i, Measure { natural, minimum });
    }
    assert(ms@ =~= raw.map_values(|x: Measure| settled(x)));
    ms
}

fn count_columns(table: &Table) -> (r: usize)
    ensures
        r == column_count(table_view(*table)),
{
    let ghost t = table_view(*table);
    let mut longest: usize = 0;
    for k in 0..table.rows.len()
        invariant
            t == table_view(*table),
            longest == longest_row(t.rows, k as int),
    {
        assert(t.rows[k as int] == cells_view(table.rows@[k as int]));
        if longest < table.rows[k].len() {
            longest = table.rows[k].len();
        }
    }
    if table.head.len() < longest {
        longest
    } else {
        table.head.len()
    }
}

// --- fitting ------------------------------------------------------------------------

/// The sum of a run of widths.
pub open spec fn total(w: Seq<usize>) -> int
    decreases w.len(),
{
    if w.len() == 0 {
        0
    } else {
        total(w.drop_last()) + w.last()
    }
}

/// The last of the widest columns among the first `k` that are above their minimum,
/// or -1.
pub open spec fn widest_above(w: Seq<usize>, ms: Seq<Measure>, k: int) -> int
    decreases k,
{
    if k <= 0 {
        -1
    } else {
        let best = widest_above(w, ms, k - 1);
        if w[k - 1] > ms[k - 1].minimum && (best < 0 || w[k - 1] >= w[best]) {
            k - 1
        } else {
            best
        }
    }
}

/// The last of the widest columns among the first `k`, or -1.
pub open spec fn widest_of(w: Seq<usize>, k: int) -> int
    decreases k,
{
    if k <= 0 {
        -1
    } else {
        let best = widest_of(w, k - 1);
        if best < 0 || w[k - 1] >= w[best] {
            k - 1
        } else {
            best
        }
    }
}

pub proof fn lemma_widest_above(w: Seq<usize>, ms: Seq<Measure>, k: int)
    requires
        0 <= k <= w.len(),
        ms.len() == w.len(),
    ensures
        -1 <= widest_above(w, ms, k) < k,
        widest_above(w, ms, k) >= 0 ==> w[widest_above(w, ms, k)] > ms[widest_above(
            w,
            ms,
            k,
        )].minimum,
        widest_above(w, ms, k) < 0 ==> forall|i: int|
            0 <= i < k ==> (#[trigger] w[i]) <= ms[i].minimum,
    decreases k,
{
    if k > 0 {
        lemma_widest_above(w, ms, k - 1);
    }
}

pub proof fn lemma_widest_of(w: Seq<usize>, k: int)
    requires
        0 <= k <= w.len(),
    ensures
        -1 <= widest_of(w, k) < k,
        k > 0 ==> widest_of(w, k) >= 0,
        widest_of(w, k) >= 0 ==> forall|i: int|
            0 <= i < k ==> #[trigger] w[i] <= w[widest_of(w, k)],
    decreases k,
{
    if k > 0 {
        lemma_widest_of(w, k - 1);
    }
}

/// The widths with one cell less in one column.
pub open spec fn shaved(w: Seq<usize>, i: int) -> Seq<usize> {
    w.update(i, (w[i] - 1) as usize)
}

pub proof fn lemma_total_update(w: Seq<usize>, i: int, x: usize)
    requires
        0 <= i < w.len(),
    ensures
        total(w.update(i, x)) == total(w) - w[i] + x,
    decreases w.len(),
{
    if i == w.len() - 1 {
        assert(w.update(i, x).drop_last() =~= w.drop_last());
    } else {
        lemma_total_update(w.drop_last(), i, x);
        assert(w.update(i, x).drop_last() =~= w.drop_last().update(i, x));
    }
}

pub proof fn lemma_total_at_least(w: Seq<usize>, low: int)
    requires
        forall|i: int| 0 <= i < w.len() ==> (#[trigger] w[i]) >= low,
    ensures
        total(w) >= low * w.len(),
    decreases w.len(),
{
    if w.len() > 0 {
        let d = w.drop_last();
        assert forall|i: int| 0 <= i < d.len() implies (#[trigger] d[i]) >= low by {
            assert(d[i] == w[i]);
        }
        lemma_total_at_least(d, low);
        assert(w[w.len() - 1] >= low);
        assert(low * w.len() == low * d.len() + low) by (nonlinear_arith)
            requires
                w.len() == d.len() + 1,
        ;
    }
}

pub proof fn lemma_total_at_most(w: Seq<usize>, high: int)
    requires
        forall|i: int| 0 <= i < w.len() ==> (#[trigger] w[i]) <= high,
    ensures
        total(w) <= high * w.len(),
    decreases w.len(),
{
    if w.len() > 0 {
        let d = w.drop_last();
        assert forall|i: int| 0 <= i < d.len() implies (#[trigger] d[i]) <= high by {
            assert(d[i] == w[i]);
        }
        lemma_total_at_most(d, high);
        assert(w[w.len() - 1] <= high);
        assert(high * w.len() == high * d.len() + high) by (nonlinear_arith)
            requires
                w.len() == d.len() + 1,
        ;
    }
}

/// The widths with the widest column that is still above its minimum taken down, over
/// and over, until they fit or every column sits at its minimum.
pub open spec fn shaved_to(w: Seq<usize>, ms: Seq<Measure>, available: int) -> Seq<usize>
    decreases total(w),
    when ms.len() == w.len()
    via shaved_to_decreases
{
    if total(w) <= available {
        w
    } else {
        let i = widest_above(w, ms, w.len() as int);
        if i < 0 {
            w
        } else {
            shaved_to(shaved(w, i), ms, available)
        }
    }
}

#[via_fn]
proof fn shaved_to_decreases(w: Seq<usize>, ms: Seq<Measure>, available: int) {
    if total(w) > available {
        lemma_widest_above(w, ms, w.len() as int);
        let i = widest_above(w, ms, w.len() as int);
        if i >= 0 {
            lemma_total_update(w, i, (w[i] - 1) as usize);
            lemma_total_at_least(shaved(w, i), 0);
        }
    }
}

/// A column's share of the space, in proportion to its width; at least one cell.
pub open spec fn share(w: usize, sum: int, available: int) -> usize {
    at_least(
        floored(
            product(quotient(of_int(w as int), of_int(sum)), of_int(available)),
            usize::MAX as int,
        ),
        1,
    ) as usize
}

/// Cells handed out one by one, starting at column `i` and going round, until the space
/// is used.
pub open spec fn handed_out(w: Seq<usize>, i: int, available: int) -> Seq<usize>
    decreases available - total(w),
    when w.len() > 0 && 0 <= i < w.len()
    via handed_out_decreases
{
    if total(w) >= available || w[i] == usize::MAX {
        w
    } else {
        handed_out(w.update(i, (w[i] + 1) as usize), (i + 1) % (w.len() as int), available)
    }
}

#[via_fn]
proof fn handed_out_decreases(w: Seq<usize>, i: int, available: int) {
    if total(w) < available && w[i] < usize::MAX {
        lemma_total_update(w, i, (w[i] + 1) as usize);
    }
}

/// Cells taken back from the widest column, one by one, while too many are used.
pub open spec fn taken_back(w: Seq<usize>, available: int) -> Seq<usize>
    decreases total(w),
    via taken_back_decreases
{
    if total(w) <= available || w.len() == 0 {
        w
    } else {
        let j = widest_of(w, w.len() as int);
        if w[j] <= 1 {
            w
        } else {
            taken_back(shaved(w, j), available)
        }
    }
}

#[via_fn]
proof fn taken_back_decreases(w: Seq<usize>, available: int) {
    if total(w) > available && w.len() > 0 {
        lemma_widest_of(w, w.len() as int);
        let j = widest_of(w, w.len() as int);
        lemma_total_update(w, j, (w[j] - 1) as usize);
        lemma_total_at_least(shaved(w, j), 0);
    }
}

/// The natural widths of a run of measures.
pub open spec fn naturals(ms: Seq<Measure>) -> Seq<usize> {
    ms.map_values(|m: Measure| m.natural)
}

/// The columns' shares when not even the minimums fit.
pub open spec fn shared_out(w: Seq<usize>, available: int) -> Seq<usize> {
    let sum = sat(total(w));
    let scaled = w.map_values(|x: usize| share(x, sum, available));
    taken_back(handed_out(scaled, 0, available), available)
}

/// The widths that `available` columns of space are distributed in.
pub open spec fn fitted(ms: Seq<Measure>, available: int) -> Seq<usize> {
    let w = shaved_to(naturals(ms), ms, available);
    if total(w) <= available {
        w
    } else {
        shared_out(w, available)
    }
}

fn sum_of(w: &Vec<usize>) -> (r: u128)
    ensures
        r == total(w@),
{
    let mut sum: u128 = 0;
    let n: usize = w.len();
    assert(w@.take(0) =~= Seq::empty());
    for i in 0..n
        invariant
            n == w.len(),
            sum == total(w@.take(i as int)),
            sum <= i * usize::MAX,
    {
        assert(w@.take(i + 1).drop_last() =~= w@.take(i as int));
        assert(i * usize::MAX + usize::MAX == (i + 1) * usize::MAX) by (nonlinear_arith);
        assert((i + 1) * usize::MAX <= usize::MAX * usize::MAX) by (nonlinear_arith)
            requires
                i + 1 <= usize::MAX,
        ;
        assert(usize::MAX * usize::MAX <= u128::MAX) by (nonlinear_arith)
            requires
                usize::MAX <= 0xffff_ffff_ffff_ffff,
        ;
        sum = sum + w[i] as u128;
    }
    assert(w@.take(n as int) =~= w@);
    sum
}

fn pick_above(w: &Vec<usize>, ms: &Vec<Measure>) -> (r: Option<usize>)
    requires
        ms.len() == w.len(),
    ensures
        match r {
            Some(i) => i == widest_above(w@, ms@, w@.len() as int) && i < w.len() && w@[i as int]
                > ms@[i as int].minimum,
            None => widest_above(w@, ms@, w@.len() as int) < 0,
        },
{
    let mut best: Option<usize> = None;
    for k in 0..w.len()
        invariant
            ms.len() == w.len(),
            match best {
                Some(i) => i == widest_above(w@, ms@, k as int) && i < k && w@[i as int]
                    > ms@[i as int].minimum,
                None => widest_above(w@, ms@, k as int) < 0,
            },
    {
        if w[k] > ms[k].minimum {
            match best {
                Some(i) => {
                    if w[k] >= w[i] {
                        best = Some(k);
                    }
                },
                None => {
                    best = Some(k);
                },
            }
        }
    }
    best
}

fn pick_widest(w: &Vec<usize>) -> (r: usize)
    requires
        w.len() > 0,
    ensures
        r == widest_of(w@, w@.len() as int),
        r < w.len(),
{
    let mut best: usize = 0;
    assert(widest_of(w@, 0) == -1);
    assert(widest_of(w@, 1) == 0);
    for k in 1..w.len()
        invariant
            1 <= k <= w.len(),
            best < k,
            best == widest_of(w@, k as int),
    {
        if w[k] >= w[best] {
            best = k;
        }
    }
    best
}

fn share_of(w: usize, sum: usize, available: usize) -> (r: usize)
    requires
        w > 0,
        sum > 0,
        available > 0,
    ensures
        r == share(w, sum as int, available as int),
        r >= 1,
{
    let q = binary64::div(binary64::from_int(w as u64), binary64::from_int(sum as u64));
    let p = binary64::times(q, binary64::from_int(available as u64));
    let n = binary64::floor(p, usize::MAX as u64);
    if n < 1 {
        1
    } else {
        n as usize
    }
}

/// Distributes `available` columns of space across the table's columns.
pub fn fit_columns(ms: &Vec<Measure>, available: usize) -> (r: Vec<usize>)
    requires
        available > 0,
        ms.len() <= available,
        forall|i: int|
            0 <= i < ms@.len() ==> 1 <= (#[trigger] ms@[i]).minimum <= ms@[i].natural,
    ensures
        r@ == fitted(ms@, available as int),
        r@.len() == ms@.len(),
        total(r@) <= available,
        forall|i: int| 0 <= i < r@.len() ==> #[trigger] r@[i] >= 1,
{
    let n: usize = ms.len();
    let mut widths: Vec<usize> = Vec::new();
    for i in 0..n
        invariant
            n == ms.len(),
            widths@ =~= naturals(ms@).take(i as int),
            forall|k: int|
                0 <= k < ms@.len() ==> 1 <= (#[trigger] ms@[k]).minimum <= ms@[k].natural,
    {
        widths.push(ms[i].natural);
    }
    assert(naturals(ms@).take(n as int) =~= naturals(ms@));
    let ghost wide = naturals(ms@);
    let mut sum = sum_of(&widths);
    // Shave the widest column that is still above its minimum, repeatedly. This
    // converges on every column sitting at its minimum, at worst.
    let mut stuck: bool = false;
    while sum > available as u128 && !stuck
        invariant
            n == ms.len(),
            widths.len() == n,
            forall|k: int|
                0 <= k < ms@.len() ==> 1 <= (#[trigger] ms@[k]).minimum <= ms@[k].natural,
            forall|k: int| 0 <= k < n ==> #[trigger] widths@[k] >= ms@[k].minimum,
            sum == total(widths@),
            shaved_to(widths@, ms@, available as int) == shaved_to(wide, ms@, available as int),
            stuck ==> shaved_to(widths@, ms@, available as int) == widths@,
        decreases
                sum,
                (if stuck {
                    0int
                } else {
                    1int
                }),
    {
        match pick_above(&widths, ms) {
            Some(i) => {
                let ghost before = widths@;
                proof {
                    lemma_total_update(before, i as int, (before[i as int] - 1) as usize);
                    lemma_total_at_least(shaved(before, i as int), 0);
                }
                let w = widths[i];
                widths.set(i, w - 1);
                assert(widths@ =~= shaved(before, i as int));
                sum = sum - 1;
            },
            None => {
                stuck = true;
            },
        }
    }
    if sum <= available as u128 {
        return widths;
    }
    // Even the minimums do not fit: share the space out proportionally and accept that
    // some words will be broken.
    let sum_cap: usize = if sum > usize::MAX as u128 {
        usize::MAX
    } else {
        sum as usize
    };
    let ghost shaved_widths = widths@;
    let mut scaled: Vec<usize> = Vec::new();
    for i in 0..n
        invariant
            n == widths.len(),
            n == ms.len(),
            sum_cap > 0,
            available > 0,
            forall|k: int|
                0 <= k < ms@.len() ==> 1 <= (#[trigger] ms@[k]).minimum <= ms@[k].natural,
            forall|k: int| 0 <= k < n ==> #[trigger] widths@[k] >= ms@[k].minimum,
            scaled@ =~= widths@.take(i as int).map_values(
                |x: usize| share(x, sum_cap as int, available as int),
            ),
            forall|k: int| 0 <= k < scaled@.len() ==> #[trigger] scaled@[k] >= 1,
    {
        assert(widths@[i as int] >= ms@[i as int].minimum);
        scaled.push(share_of(widths[i], sum_cap, available));
    }
    assert(widths@.take(n as int) =~= widths@);
    let ghost sc = widths@.map_values(|x: usize| share(x, sum_cap as int, available as int));
    assert(scaled@ =~= sc);
    hand_out(&mut scaled, available);
    take_back(&mut scaled, available);
    scaled
}

/// Hands out any rounding remainder left to right.
fn hand_out(w: &mut Vec<usize>, available: usize)
    requires
        forall|k: int| 0 <= k < old(w)@.len() ==> #[trigger] old(w)@[k] >= 1,
        old(w)@.len() > 0,
    ensures
        final(w)@ == handed_out(old(w)@, 0, available as int),
        final(w)@.len() == old(w)@.len(),
        forall|k: int| 0 <= k < final(w)@.len() ==> #[trigger] final(w)@[k] >= 1,
{
    let n: usize = w.len();
    let mut used = sum_of(w);
    let mut i: usize = 0;
    while used < available as u128
        invariant
            n == w.len(),
            n > 0,
            n == old(w)@.len(),
            i < n,
            used == total(w@),
            forall|k: int| 0 <= k < w@.len() ==> #[trigger] w@[k] >= 1,
            handed_out(w@, i as int, available as int) == handed_out(
                old(w)@,
                0,
                available as int,
            ),
        decreases available - used,
    {
        let ghost before = w@;
        proof {
            lemma_total_entry(before, i as int);
        }
        let x = w[i];
        proof {
            lemma_total_update(before, i as int, (x + 1) as usize);
        }
        w.set(i, x + 1);
        used = used + 1;
        let ghost at = i as int;
        assert(at + 1 < n ==> (at + 1) % (n as int) == at + 1) by (nonlinear_arith)
            requires
                0 <= at,
        ;
        assert(at + 1 == n ==> (at + 1) % (n as int) == 0) by (nonlinear_arith)
            requires
                0 < n,
        ;
        i = if i + 1 == n {
            0
        } else {
            i + 1
        };
    }
}

/// One width is at most the sum of all.
proof fn lemma_total_entry(w: Seq<usize>, i: int)
    requires
        0 <= i < w.len(),
    ensures
        w[i] <= total(w),
    decreases w.len(),
{
    lemma_total_at_least(w.drop_last(), 0);
    if i < w.len() - 1 {
        lemma_total_entry(w.drop_last(), i);
    }
}

/// Takes cells back from the widest column while too many are used.
fn take_back(w: &mut Vec<usize>, available: usize)
    requires
        forall|k: int| 0 <= k < old(w)@.len() ==> #[trigger] old(w)@[k] >= 1,
        0 < old(w)@.len() <= available,
    ensures
        final(w)@ == taken_back(old(w)@, available as int),
        final(w)@.len() == old(w)@.len(),
        total(final(w)@) <= available,
        forall|k: int| 0 <= k < final(w)@.len() ==> #[trigger] final(w)@[k] >= 1,
{
    let mut used = sum_of(w);
    while used > available as u128
        invariant
            0 < w@.len() <= available,
            w@.len() == old(w)@.len(),
            used == total(w@),
            forall|k: int| 0 <= k < w@.len() ==> #[trigger] w@[k] >= 1,
            taken_back(w@, available as int) == taken_back(old(w)@, available as int),
        decreases used,
    {
        let j = pick_widest(w);
        let ghost before = w@;
        proof {
            lemma_widest_of(before, before.len() as int);
            if before[j as int] <= 1 {
                assert forall|k: int| 0 <= k < before.len() implies #[trigger] before[k] <= 1 by {
                    assert(before[k] <= before[j as int]);
                }
                lemma_total_at_most(before, 1);
                assert(false);
            }
            lemma_total_update(before, j as int, (before[j as int] - 1) as usize);
        }
        let x = w[j];
        w.set(j, x - 1);
        assert(w@ =~= shaved(before, j as int));
        used = used - 1;
    }
}

// --- alignment ------------------------------------------------------------------------

/// The first position in `i..` that is not a decimal digit.
pub open spec fn past_digits(s: Seq<char>, i: int) -> int
    decreases s.len() - i,
{
    if 0 <= i < s.len() && text::is_digit(s[i]) {
        past_digits(s, i + 1)
    } else {
        i
    }
}

/// An exponent that ends the text: `e`, a sign if there is one, and digits.
pub open spec fn is_exponent(s: Seq<char>, i: int) -> bool {
    let j = if i + 1 < s.len() && (s[i + 1] == '+' || s[i + 1] == '-') {
        i + 2
    } else {
        i + 1
    };
    i < s.len() && (s[i] == 'e' || s[i] == 'E') && past_digits(s, j) > j && past_digits(s, j)
        == s.len()
}

/// A number: digits with a point among them or not, and an exponent or none.
pub open spec fn is_decimal(s: Seq<char>, i: int) -> bool {
    let a = past_digits(s, i);
    let pointed = a < s.len() && s[a] == '.';
    let b = if pointed {
        past_digits(s, a + 1)
    } else {
        a
    };
    (a > i || (pointed && b > a + 1)) && (b == s.len() || is_exponent(s, b))
}

/// The notation of a floating-point number, as the standard library reads it.
pub open spec fn is_float(s: Seq<char>) -> bool {
    let i = if s.len() > 0 && (s[0] == '+' || s[0] == '-') {
        1
    } else {
        0
    };
    let word = text::lower(s.subrange(i, s.len() as int));
    word == "inf"@ || word == "infinity"@ || word == "nan"@ || is_decimal(s, i)
}

fn skip_digits(v: &Vec<char>, from: usize) -> (r: usize)
    requires
        from <= v.len(),
    ensures
        r == past_digits(v@, from as int),
        from <= r <= v.len(),
{
    let mut i: usize = from;
    while i < v.len() && text::char_is_digit(v[i])
        invariant
            from <= i <= v.len(),
            past_digits(v@, i as int) == past_digits(v@, from as int),
        decreases v.len() - i,
    {
        i = i + 1;
    }
    i
}

fn reads_exponent(v: &Vec<char>, i: usize) -> (r: bool)
    requires
        i < v.len(),
    ensures
        r == is_exponent(v@, i as int),
{
    let n: usize = v.len();
    if !(v[i] == 'e' || v[i] == 'E') {
        return false;
    }
    let j: usize = if i + 1 < n && (v[i + 1] == '+' || v[i + 1] == '-') {
        i + 2
    } else {
        i + 1
    };
    let k = skip_digits(v, j);
    k > j && k == n
}

fn reads_decimal(v: &Vec<char>, i: usize) -> (r: bool)
    requires
        i <= v.len(),
    ensures
        r == is_decimal(v@, i as int),
{
    let n: usize = v.len();
    let a = skip_digits(v, i);
    let pointed = a < n && v[a] == '.';
    let b: usize = if pointed {
        skip_digits(v, a + 1)
    } else {
        a
    };
    if !(a > i || (pointed && b > a + 1)) {
        return false;
    }
    b == n || reads_exponent(v, b)
}

/// True of text that reads as a floating-point number, so that version strings like
/// `1.2.0` and identifiers like `3a` stay labels.
pub fn reads_as_float(s: &str) -> (r: bool)
    ensures
        r == is_float(s@),
{
    let v = text::chars_of(s);
    let i: usize = if v.len() > 0 && (v[0] == '+' || v[0] == '-') {
        1
    } else {
        0
    };
    let word = text::string_of(&text::lowered(&text::chars_range(&v, i, v.len())));
    text::same(&word, "inf") || text::same(&word, "infinity") || text::same(&word, "nan")
        || reads_decimal(&v, i)
}

/// True of the signs that may stand before an amount.
pub open spec fn is_currency(c: char) -> bool {
    c == '$' || c == '£' || c == '€'
}

pub open spec fn without_currency(s: Seq<char>) -> Seq<char>
    decreases s.len(),
{
    if s.len() > 0 && is_currency(s.first()) {
        without_currency(s.drop_first())
    } else {
        s
    }
}

/// A text without its commas.
pub open spec fn without_commas(s: Seq<char>) -> Seq<char>
    decreases s.len(),
{
    if s.len() == 0 {
        s
    } else if s.last() == ',' {
        without_commas(s.drop_last())
    } else {
        without_commas(s.drop_last()).push(s.last())
    }
}

/// The number in a cell, without what people write around numbers.
pub open spec fn amount(s: Seq<char>) -> Seq<char> {
    without_commas(text::trim_end_char(without_currency(text::trim(s)), '%'))
}

/// The amounts in the first `k` cells of a column, those that are there and not empty.
pub open spec fn amounts(rows: Seq<Seq<Seq<InlineV>>>, index: int, k: int) -> Seq<Seq<char>>
    decreases k,
{
    if k <= 0 {
        Seq::empty()
    } else {
        let before = amounts(rows, index, k - 1);
        if index < rows[k - 1].len() && amount(plain(rows[k - 1][index])).len() > 0 {
            before.push(amount(plain(rows[k - 1][index])))
        } else {
            before
        }
    }
}

pub open spec fn all_floats(s: Seq<Seq<char>>) -> bool {
    forall|i: int| 0 <= i < s.len() ==> is_float(#[trigger] s[i])
}

/// True of a column that holds numbers and nothing else.
pub open spec fn is_numeric(t: TableV, index: int) -> bool {
    let all = amounts(t.rows, index, t.rows.len() as int);
    all.len() > 0 && all_floats(all)
}

proof fn lemma_all_floats_push(s: Seq<Seq<char>>, x: Seq<char>)
    ensures
        all_floats(s.push(x)) == (all_floats(s) && is_float(x)),
{
    let t = s.push(x);
    assert(t[s.len() as int] == x);
    if all_floats(t) {
        assert forall|i: int| 0 <= i < s.len() implies is_float(#[trigger] s[i]) by {
            assert(t[i] == s[i]);
        }
    }
}

fn amount_of(s: &str) -> (r: String)
    ensures
        r@ == amount(s@),
{
    let v = text::chars_of(s);
    let n: usize = v.len();
    assert(v@.subrange(0, n as int) =~= v@);
    let a = text::trim_start_at(&v, 0, n);
    let b = text::trim_end_at(&v, a, n);
    let mut c: usize = a;
    let ghost t = v@.subrange(a as int, b as int);
    while c < b && (v[c] == '$' || v[c] == '£' || v[c] == '€')
        invariant
            a <= c <= b <= v.len(),
            without_currency(v@.subrange(c as int, b as int)) == without_currency(t),
        decreases b - c,
    {
        assert(v@.subrange(c as int, b as int).drop_first() =~= v@.subrange(c + 1, b as int));
        c = c + 1;
    }
    let d = text::skip_char_back(&v, c, b, '%');
    let mut out: String = String::new();
    assert(v@.subrange(c as int, c as int) =~= Seq::empty());
    assert(out@ =~= without_commas(Seq::empty()));
    for i in c..d
        invariant
            c <= i <= d <= v.len(),
            out@ == without_commas(v@.subrange(c as int, i as int)),
    {
        assert(v@.subrange(c as int, i + 1).drop_last() =~= v@.subrange(c as int, i as int));
        if v[i] != ',' {
            out.push(v[i]);
        }
    }
    out
}

fn is_numeric_column(table: &Table, index: usize) -> (r: bool)
    ensures
        r == is_numeric(table_view(*table), index as int),
{
    let ghost t = table_view(*table);
    let mut seen: bool = false;
    let mut good: bool = true;
    for k in 0..table.rows.len()
        invariant
            t == table_view(*table),
            seen == (amounts(t.rows, index as int, k as int).len() > 0),
            good == all_floats(amounts(t.rows, index as int, k as int)),
    {
        assert(t.rows[k as int] == cells_view(table.rows@[k as int]));
        let row = &table.rows[k];
        if index < row.len() {
            assert(t.rows[k as int][index as int] == inlines_view(row@[index as int]));
            let a = amount_of(&plain_text(&row[index]));
            if !a.as_str().is_empty() {
                proof {
                    lemma_all_floats_push(amounts(t.rows, index as int, k as int), a@);
                }
                seen = true;
                good = good && reads_as_float(&a);
            }
        }
    }
    seen && good
}

/// The alignment of a column: the one written, or right for numbers and left for
/// everything else.
pub open spec fn column_align(t: TableV, i: int) -> Align {
    let written = if i < t.alignments.len() {
        t.alignments[i]
    } else {
        Alignment::Unset
    };
    match written {
        Alignment::Left => Align::Left,
        Alignment::Center => Align::Center,
        Alignment::Right => Align::Right,
        Alignment::Unset => if is_numeric(t, i) {
            Align::Right
        } else {
            Align::Left
        },
    }
}

/// Column alignments, inferring right alignment for numeric columns.
pub fn resolve_alignments(table: &Table, columns: usize) -> (r: Vec<Align>)
    ensures
        r@ == Seq::new(columns as nat, |i: int| column_align(table_view(*table), i)),
{
    let ghost t = table_view(*table);
    let mut out: Vec<Align> = Vec::new();
    for i in 0..columns
        invariant
            t == table_view(*table),
            out@ =~= Seq::new(i as nat, |k: int| column_align(t, k)),
    {
        let written = if i < table.alignments.len() {
            table.alignments[i]
        } else {
            Alignment::Unset
        };
        let align = match written {
            Alignment::Left => Align::Left,
            Alignment::Center => Align::Center,
            Alignment::Right => Align::Right,
            // Numbers read better right aligned, and a column of them is unambiguous
            // enough to detect.
            Alignment::Unset => {
                if is_numeric_column(table, i) {
                    Align::Right
                } else {
                    Align::Left
                }
            },
        };
        out.push(align);
    }
    out
}

// --- drawing ----------------------------------------------------------------------------

/// Lines, and the state after drawing them.
pub struct DrawnV {
    pub lines: Seq<LineV>,
    pub st: StateV,
}

/// The wrapped cells of a row, and the state after wrapping them.
pub struct CellsV {
    pub cells: Seq<Seq<LineV>>,
    pub st: StateV,
}

/// The first `k` cells of a row, each wrapped to its column.
pub open spec fn cells_wrapped(
    e: EnvV,
    cells: Seq<Seq<InlineV>>,
    widths: Seq<usize>,
    aligns: Seq<Align>,
    style: Style,
    k: int,
    st: StateV,
) -> CellsV
    decreases k,
{
    if k <= 0 {
        CellsV { cells: Seq::empty(), st }
    } else {
        let before = cells_wrapped(e, cells, widths, aligns, style, k - 1, st);
        if k - 1 < cells.len() {
            let t = tokens_of(e, cells[k - 1], style, before.st);
            CellsV {
                cells: before.cells.push(wrapped(t.out, widths[k - 1] as int, aligns[k - 1])),
                st: t.st,
            }
        } else {
            CellsV { cells: before.cells.push(seq![blank_line()]), ..before }
        }
    }
}

/// The height of the tallest of the first `k` cells.
pub open spec fn tallest(cells: Seq<Seq<LineV>>, k: int) -> int
    decreases k,
{
    if k <= 0 {
        0
    } else {
        at_least(tallest(cells, k - 1), cells[k - 1].len() as int)
    }
}

pub open spec fn span_of(t: Seq<char>, style: Style) -> SpanV {
    SpanV { text: t, style, link: None }
}

/// One line of a cell, padded to its column.
pub open spec fn cell_spans(cell: Seq<LineV>, row: int, width: int, style: Style) -> Seq<SpanV> {
    if row < cell.len() {
        let used = sat(spans_width(cell[row].spans));
        if used < width {
            cell[row].spans.push(span_of(text::spaces((width - used) as nat), style))
        } else {
            cell[row].spans
        }
    } else {
        seq![span_of(text::spaces(width as nat), style)]
    }
}

/// The spans of one line of a row, through its first `k` columns.
pub open spec fn row_spans(
    e: EnvV,
    cells: Seq<Seq<LineV>>,
    widths: Seq<usize>,
    row: int,
    style: Style,
    k: int,
) -> Seq<SpanV>
    decreases k,
{
    if k <= 0 {
        seq![span_of(e.opts.glyphs.v@, e.theme.table_border)]
    } else {
        (row_spans(e, cells, widths, row, style, k - 1).push(span_of(" "@, style)) + cell_spans(
            cells[k - 1],
            row,
            widths[k - 1] as int,
            style,
        )).push(span_of(" "@, style)).push(span_of(e.opts.glyphs.v@, e.theme.table_border))
    }
}

/// A row of the table. It is as tall as its tallest cell.
pub open spec fn row_drawn(
    e: EnvV,
    cells: Seq<Seq<InlineV>>,
    widths: Seq<usize>,
    aligns: Seq<Align>,
    style: Style,
    st: StateV,
) -> DrawnV {
    let n = widths.len() as int;
    let c = cells_wrapped(e, cells, widths, aligns, style, n, st);
    DrawnV {
        lines: Seq::new(
            tallest(c.cells, n) as nat,
            |row: int| line_of(row_spans(e, c.cells, widths, row, style, n)),
        ),
        st: c.st,
    }
}

/// A horizontal rule of the table, through its first `k` columns.
pub open spec fn rule_text(
    widths: Seq<usize>,
    left: Seq<char>,
    mid: Seq<char>,
    right: Seq<char>,
    h: Seq<char>,
    k: int,
) -> Seq<char>
    decreases k,
{
    if k <= 0 {
        left
    } else {
        rule_text(widths, left, mid, right, h, k - 1) + text::repeated(
            h,
            sat(widths[k - 1] + 2) as nat,
        ) + (if k == widths.len() {
            right
        } else {
            mid
        })
    }
}

pub open spec fn rule_of(
    widths: Seq<usize>,
    style: Style,
    left: &str,
    mid: &str,
    right: &str,
    h: &str,
) -> LineV {
    line_of(
        seq![
            span_of(
                rule_text(widths, left@, mid@, right@, h@, widths.len() as int),
                style,
            ),
        ],
    )
}

/// The style of a body row, with the stripe on every second one.
pub open spec fn stripe_style(e: EnvV, i: int) -> Style {
    match e.theme.table_stripe {
        Some(stripe) => if i % 2 == 1 {
            e.theme.text.merged(stripe)
        } else {
            e.theme.text
        },
        None => e.theme.text,
    }
}

/// The first `k` body rows of the table.
pub open spec fn body_drawn(
    e: EnvV,
    rows: Seq<Seq<Seq<InlineV>>>,
    widths: Seq<usize>,
    aligns: Seq<Align>,
    k: int,
    d: DrawnV,
) -> DrawnV
    decreases k,
{
    if k <= 0 {
        d
    } else {
        let before = body_drawn(e, rows, widths, aligns, k - 1, d);
        let r = row_drawn(
            e,
            rows[k - 1],
            widths,
            aligns,
            stripe_style(e, k - 1),
            before.st,
        );
        DrawnV { lines: before.lines + r.lines, st: r.st }
    }
}

/// A table as a grid. Measuring leaves no trace: its links are recorded when it is drawn.
pub open spec fn grid_drawn(e: EnvV, t: TableV, available: int, st: StateV) -> DrawnV {
    let columns = column_count(t);
    let m = measured(e, t, columns as nat, st);
    let widths = fitted(m.ms, available);
    let aligns = Seq::new(columns as nat, |i: int| column_align(t, i));
    let g = e.opts.glyphs;
    let border = e.theme.table_border;
    let top = DrawnV {
        lines: seq![rule_of(widths, border, g.top_left, g.top_mid, g.top_right, g.h)],
        st,
    };
    let headed = if t.head.len() > 0 {
        let r = row_drawn(e, t.head, widths, aligns, e.theme.table_header, top.st);
        DrawnV {
            lines: (top.lines + r.lines).push(
                rule_of(widths, border, g.mid_left, g.mid_mid, g.mid_right, g.h),
            ),
            st: r.st,
        }
    } else {
        top
    };
    let body = body_drawn(e, t.rows, widths, aligns, t.rows.len() as int, headed);
    DrawnV {
        lines: body.lines.push(
            rule_of(widths, border, g.bottom_left, g.bottom_mid, g.bottom_right, g.h),
        ),
        ..body
    }
}

/// The label of a column in a record.
pub open spec fn record_label(t: TableV, i: int) -> Seq<char> {
    (if i < t.head.len() {
        plain(t.head[i])
    } else {
        text::decimal((i + 1) as nat)
    }) + ": "@
}

/// The first `k` fields of a record.
pub open spec fn fields_drawn(
    e: EnvV,
    t: TableV,
    row: Seq<Seq<InlineV>>,
    width: int,
    k: int,
    d: DrawnV,
) -> DrawnV
    decreases k,
{
    if k <= 0 {
        d
    } else {
        let before = fields_drawn(e, t, row, width, k - 1, d);
        let label = record_label(t, k - 1);
        let label_width = text_width(label) as int;
        let tokens = if k - 1 < row.len() {
            tokens_of(e, row[k - 1], e.theme.text, before.st)
        } else {
            TokensV { out: Seq::empty(), st: before.st }
        };
        let lines = wrapped(tokens.out, at_least(minus(width, label_width), 4), Align::Left);
        DrawnV {
            lines: before.lines + prefixed_all(
                lines,
                seq![span_of(label, e.theme.table_header)],
                seq![plain_span(text::spaces(label_width as nat))],
            ),
            st: tokens.st,
        }
    }
}

/// The first `k` records, with a blank line between each two.
pub open spec fn records_drawn(
    e: EnvV,
    t: TableV,
    width: int,
    columns: int,
    k: int,
    st: StateV,
) -> DrawnV
    decreases k,
{
    if k <= 0 {
        DrawnV { lines: Seq::empty(), st }
    } else {
        let before = records_drawn(e, t, width, columns, k - 1, st);
        fields_drawn(
            e,
            t,
            t.rows[k - 1],
            width,
            columns,
            DrawnV {
                lines: if k > 1 {
                    before.lines.push(blank_line())
                } else {
                    before.lines
                },
                ..before
            },
        )
    }
}

/// The space that the borders leave: a grid costs three cells per column plus one.
pub open spec fn grid_space(columns: int, width: int) -> int {
    minus(width, columns * 3 + 1)
}

/// A table, as a grid where every column can have two cells of content, as records
/// where it cannot.
#[verifier::opaque]
pub open spec fn table_drawn(e: EnvV, t: TableV, width: int, st: StateV) -> DrawnV {
    let columns = column_count(t);
    if columns == 0 {
        DrawnV { lines: Seq::empty(), st }
    } else if grid_space(columns, width) < columns * 2 {
        records_drawn(e, t, width, columns, t.rows.len() as int, st)
    } else {
        grid_drawn(e, t, grid_space(columns, width), st)
    }
}

pub open spec fn cells_lines(v: Seq<Vec<Line>>) -> Seq<Seq<LineV>> {
    v.map_values(|c: Vec<Line>| lines_view(c@))
}

fn render_row(
    cells: &Vec<Vec<Inline>>,
    widths: &Vec<usize>,
    aligns: &Vec<Align>,
    env: &Env<'_>,
    st: &mut State,
    style: Style,
) -> (r: Vec<Line>)
    requires
        aligns@.len() == widths@.len(),
    ensures
        (DrawnV { lines: lines_view(r@), st: final(st)@ }) == row_drawn(
            env@,
            cells_view(*cells),
            widths@,
            aligns@,
            style,
            old(st)@,
        ),
{
    let ghost v = cells_view(*cells);
    let columns: usize = widths.len();
    // Wrap every cell first: the row is as tall as its tallest cell.
    let mut all: Vec<Vec<Line>> = Vec::new();
    let mut height: usize = 0;
    assert(cells_lines(all@) =~= Seq::empty());
    for i in 0..columns
        invariant
            v == cells_view(*cells),
            columns == widths.len(),
            columns == aligns.len(),
            (CellsV { cells: cells_lines(all@), st: st@ }) == cells_wrapped(
                env@,
                v,
                widths@,
                aligns@,
                style,
                i as int,
                old(st)@,
            ),
            all.len() == i,
            height == tallest(cells_lines(all@), i as int),
    {
        let ghost was = cells_lines(all@);
        let lines = if i < cells.len() {
            assert(v[i as int] == inlines_view(cells@[i as int]));
            let tokens = inline_tokens(&cells[i], env, st, style);
            wrap(&tokens, widths[i], aligns[i])
        } else {
            let mut one: Vec<Line> = Vec::new();
            push_line(&mut one, Line::default());
            assert(lines_view(one@) =~= seq![blank_line()]);
            one
        };
        let ghost lv = lines_view(lines@);
        if height < lines.len() {
            height = lines.len();
        }
        all.push(lines);
        assert(cells_lines(all@) =~= was.push(lv));
        proof {
            lemma_tallest_prefix(was, cells_lines(all@), i as int);
        }
    }
    let ghost c = cells_lines(all@);
    let mut out: Vec<Line> = Vec::new();
    assert(lines_view(out@) =~= Seq::empty());
    for row in 0..height
        invariant
            columns == widths.len(),
            columns == all.len(),
            c == cells_lines(all@),
            lines_view(out@) =~= Seq::new(
                row as nat,
                |k: int| line_of(row_spans(env@, c, widths@, k, style, columns as int)),
            ),
    {
        let spans = row_line(&all, widths, row, env, style);
        push_line(&mut out, Line::from_spans(spans));
    }
    out
}

proof fn lemma_tallest_prefix(a: Seq<Seq<LineV>>, b: Seq<Seq<LineV>>, k: int)
    requires
        0 <= k <= a.len(),
        a.len() <= b.len(),
        forall|i: int| 0 <= i < a.len() ==> a[i] == #[trigger] b[i],
    ensures
        tallest(a, k) == tallest(b, k),
    decreases k,
{
    if k > 0 {
        lemma_tallest_prefix(a, b, k - 1);
        assert(a[k - 1] == b[k - 1]);
    }
}

fn row_line(
    cells: &Vec<Vec<Line>>,
    widths: &Vec<usize>,
    row: usize,
    env: &Env<'_>,
    style: Style,
) -> (r: Vec<Span>)
    requires
        cells@.len() == widths@.len(),
    ensures
        spans_view(r@) == row_spans(
            env@,
            cells_lines(cells@),
            widths@,
            row as int,
            style,
            widths@.len() as int,
        ),
{
    let ghost c = cells_lines(cells@);
    let v = env.opts.glyphs.v;
    let border = env.theme.table_border;
    let mut spans = one_span(Span::new(text::owned(v), border, None));
    for i in 0..widths.len()
        invariant
            cells@.len() == widths@.len(),
            c == cells_lines(cells@),
            v == env@.opts.glyphs.v,
            border == env@.theme.table_border,
            spans_view(spans@) == row_spans(env@, c, widths@, row as int, style, i as int),
    {
        let ghost start = spans_view(spans@);
        push_span(&mut spans, Span::new(text::owned(" "), style, None));
        let ghost opened = spans_view(spans@);
        let width = widths[i];
        let cell = &cells[i];
        assert(c[i as int] == lines_view(cell@));
        if row < cell.len() {
            let line = &cell[row];
            assert(c[i as int][row as int] == line@);
            let used = line.width();
            push_spans(&mut spans, &line.spans);
            if used < width {
                push_span(&mut spans, Span::new(text::spaces_string(width - used), style, None));
            }
        } else {
            push_span(&mut spans, Span::new(text::spaces_string(width), style, None));
        }
        assert(spans_view(spans@) =~= opened + cell_spans(
            c[i as int],
            row as int,
            width as int,
            style,
        ));
        push_span(&mut spans, Span::new(text::owned(" "), style, None));
        push_span(&mut spans, Span::new(text::owned(v), border, None));
    }
    spans
}

fn rule_line(
    widths: &Vec<usize>,
    style: Style,
    left: &str,
    mid: &str,
    right: &str,
    h: &str,
) -> (r: Line)
    ensures
        r@ == rule_of(widths@, style, left, mid, right, h),
{
    let mut s = text::owned(left);
    for k in 0..widths.len()
        invariant
            s@ == rule_text(widths@, left@, mid@, right@, h@, k as int),
    {
        text::push_repeated(&mut s, h, widths[k].saturating_add(2));
        s.push_str(
            if k + 1 == widths.len() {
                right
            } else {
                mid
            },
        );
    }
    Line::from_spans(one_span(Span::new(s, style, None)))
}

/// The narrow-terminal fallback: one record per row, `header: value` per line.
///
/// A three-column table squeezed into 30 columns is unreadable as a grid but
/// perfectly readable as records, and no content has to be dropped.
fn render_as_records(table: &Table, env: &Env<'_>, st: &mut State, width: usize, columns: usize)
    -> (r: Vec<Line>)
    requires
        columns == column_count(table_view(*table)),
    ensures
        (DrawnV { lines: lines_view(r@), st: final(st)@ }) == records_drawn(
            env@,
            table_view(*table),
            width as int,
            columns as int,
            table_view(*table).rows.len() as int,
            old(st)@,
        ),
{
    let ghost t = table_view(*table);
    let mut out: Vec<Line> = Vec::new();
    assert(lines_view(out@) =~= Seq::empty());
    for k in 0..table.rows.len()
        invariant
            t == table_view(*table),
            (DrawnV { lines: lines_view(out@), st: st@ }) == records_drawn(
                env@,
                t,
                width as int,
                columns as int,
                k as int,
                old(st)@,
            ),
    {
        assert(t.rows[k as int] == cells_view(table.rows@[k as int]));
        if k > 0 {
            push_line(&mut out, Line::default());
        }
        let ghost d = DrawnV { lines: lines_view(out@), st: st@ };
        let row = &table.rows[k];
        for i in 0..columns
            invariant
                t == table_view(*table),
                k < table.rows.len(),
                *row == table.rows@[k as int],
                t.rows[k as int] == cells_view(*row),
                (DrawnV { lines: lines_view(out@), st: st@ }) == fields_drawn(
                    env@,
                    t,
                    t.rows[k as int],
                    width as int,
                    i as int,
                    d,
                ),
        {
            let mut label = if i < table.head.len() {
                assert(t.head[i as int] == inlines_view(table.head@[i as int]));
                plain_text(&table.head[i])
            } else {
                let mut n: String = String::new();
                text::push_decimal(&mut n, i as u64 + 1);
                assert(n@ =~= text::decimal((i + 1) as nat));
                n
            };
            label.push_str(": ");
            let label_width = display_width(&label);
            let body = width.saturating_sub(label_width);
            let body_width: usize = if body < 4 {
                4
            } else {
                body
            };
            let tokens = if i < row.len() {
                assert(t.rows[k as int][i as int] == inlines_view(row@[i as int]));
                inline_tokens(&row[i], env, st, env.theme.text)
            } else {
                let none: Vec<Token> = Vec::new();
                assert(tokens_view(none@) =~= Seq::empty());
                none
            };
            let mut lines = wrap(&tokens, body_width, Align::Left);
            let first = one_span(Span::new(label, env.theme.table_header, None));
            let rest = one_span(Span::plain(text::spaces_string(label_width)));
            prefix_all(&mut lines, &first, &rest);
            push_lines(&mut out, lines);
        }
    }
    out
}

/// Draws a table.
pub fn render(table: &Table, env: &Env<'_>, st: &mut State, width: usize) -> (r: Vec<Line>)
    ensures
        (DrawnV { lines: lines_view(r@), st: final(st)@ }) == table_drawn(
            env@,
            table_view(*table),
            width as int,
            old(st)@,
        ),
{
    proof {
        reveal(table_drawn);
    }
    let ghost t = table_view(*table);
    let columns = count_columns(table);
    if columns == 0 {
        let none: Vec<Line> = Vec::new();
        assert(lines_view(none@) =~= Seq::empty());
        return none;
    }
    let overhead: u128 = columns as u128 * 3 + 1;
    let available: usize = if width as u128 > overhead {
        (width as u128 - overhead) as usize
    } else {
        0
    };
    // Two cells of content per column is the floor for anything grid-shaped.
    if (available as u128) < columns as u128 * 2 {
        return render_as_records(table, env, st, width, columns);
    }
    // Measuring sets the cells once already, which must not record their links twice.
    let mut scratch = st.copy();
    let measures = measure_columns(table, env, &mut scratch, columns);
    let widths = fit_columns(&measures, available);
    let alignments = resolve_alignments(table, columns);
    let g = env.opts.glyphs;
    let border = env.theme.table_border;
    let mut out: Vec<Line> = Vec::new();
    push_line(&mut out, rule_line(&widths, border, g.top_left, g.top_mid, g.top_right, g.h));
    assert(lines_view(out@) =~= seq![
        rule_of(widths@, border, g.top_left, g.top_mid, g.top_right, g.h),
    ]);
    if table.head.len() > 0 {
        let rows = render_row(
            &table.head,
            &widths,
            &alignments,
            env,
            st,
            env.theme.table_header,
        );
        push_lines(&mut out, rows);
        push_line(&mut out, rule_line(&widths, border, g.mid_left, g.mid_mid, g.mid_right, g.h));
    }
    let ghost headed = DrawnV { lines: lines_view(out@), st: st@ };
    for k in 0..table.rows.len()
        invariant
            t == table_view(*table),
            alignments@.len() == widths@.len(),
            (DrawnV { lines: lines_view(out@), st: st@ }) == body_drawn(
                env@,
                t.rows,
                widths@,
                alignments@,
                k as int,
                headed,
            ),
    {
        assert(t.rows[k as int] == cells_view(table.rows@[k as int]));
        let style = match env.theme.table_stripe {
            Some(stripe) => {
                if k % 2 == 1 {
                    env.theme.text.merge(stripe)
                } else {
                    env.theme.text
                }
            },
            None => env.theme.text,
        };
        let rows = render_row(&table.rows[k], &widths, &alignments, env, st, style);
        push_lines(&mut out, rows);
    }
    push_line(
        &mut out,
        rule_line(&widths, border, g.bottom_left, g.bottom_mid, g.bottom_right, g.h),
    );
    out
}

// --- laws ---------------------------------------------------------------------------

/// The columns that a grid takes: each of its own, two cells of padding around it, and
/// the borders between and at both ends.
pub open spec fn grid_width(widths: Seq<usize>) -> int {
    total(widths) + 3 * widths.len() + 1
}

/// True when a run of spaces takes a column for each of them.
pub open spec fn spaces_are_narrow() -> bool {
    forall|n: nat| n <= usize::MAX ==> #[trigger] text_width(text::spaces(n)) == n
}

/// True of a line made of spans that take `width` columns between them.
pub open spec fn spans(l: LineV, width: int) -> bool {
    exists|parts: Seq<SpanV>| l == #[trigger] line_of(parts) && spans_width(parts) == width
}

proof fn lemma_taken_back(w: Seq<usize>, available: int)
    requires
        w.len() <= available,
    ensures
        total(taken_back(w, available)) <= available,
    decreases total(w),
{
    if total(w) > available && w.len() > 0 {
        lemma_widest_of(w, w.len() as int);
        let j = widest_of(w, w.len() as int);
        if w[j] <= 1 {
            lemma_total_at_most(w, 1);
        } else {
            lemma_total_update(w, j, (w[j] - 1) as usize);
            lemma_total_at_least(shaved(w, j), 0);
            lemma_taken_back(shaved(w, j), available);
        }
    }
}

pub(crate) proof fn lemma_shaved_to(w: Seq<usize>, ms: Seq<Measure>, available: int)
    requires
        ms.len() == w.len(),
    ensures
        shaved_to(w, ms, available).len() == w.len(),
    decreases total(w),
{
    if total(w) > available {
        lemma_widest_above(w, ms, w.len() as int);
        let i = widest_above(w, ms, w.len() as int);
        if i >= 0 {
            lemma_total_update(w, i, (w[i] - 1) as usize);
            lemma_total_at_least(shaved(w, i), 0);
            lemma_shaved_to(shaved(w, i), ms, available);
        }
    }
}

pub(crate) proof fn lemma_handed_out(w: Seq<usize>, i: int, available: int)
    requires
        0 <= i < w.len(),
    ensures
        handed_out(w, i, available).len() == w.len(),
    decreases available - total(w),
{
    if total(w) < available && w[i] < usize::MAX {
        lemma_total_update(w, i, (w[i] + 1) as usize);
        lemma_handed_out(w.update(i, (w[i] + 1) as usize), (i + 1) % (w.len() as int), available);
    }
}

/// A table that is drawn as a grid never exceeds the width it is given, whatever its
/// cells hold.
pub proof fn grids_keep_to_the_width(ms: Seq<Measure>, width: int)
    requires
        ms.len() > 0,
        grid_space(ms.len() as int, width) >= ms.len() * 2,
    ensures
        total(fitted(ms, grid_space(ms.len() as int, width))) + 3 * ms.len() + 1 <= width,
{
    let available = grid_space(ms.len() as int, width);
    let wide = naturals(ms);
    lemma_shaved_to(wide, ms, available);
    let w = shaved_to(wide, ms, available);
    if total(w) > available {
        let scaled = w.map_values(|x: usize| share(x, sat(total(w)), available));
        lemma_handed_out(scaled, 0, available);
        lemma_taken_back(handed_out(scaled, 0, available), available);
    }
}

proof fn lemma_repeated_len(s: Seq<char>, n: nat)
    requires
        s.len() == 1,
    ensures
        text::repeated(s, n).len() == n,
    decreases n,
{
    if n > 0 {
        lemma_repeated_len(s, (n - 1) as nat);
    }
}

proof fn lemma_rule_len(
    widths: Seq<usize>,
    left: Seq<char>,
    mid: Seq<char>,
    right: Seq<char>,
    h: Seq<char>,
    k: int,
)
    requires
        0 <= k <= widths.len(),
        left.len() == 1,
        mid.len() == 1,
        right.len() == 1,
        h.len() == 1,
        forall|i: int| 0 <= i < widths.len() ==> #[trigger] widths[i] <= usize::MAX - 2,
    ensures
        rule_text(widths, left, mid, right, h, k).len() == total(widths.take(k)) + 3 * k + 1,
    decreases k,
{
    if k > 0 {
        lemma_rule_len(widths, left, mid, right, h, k - 1);
        lemma_repeated_len(h, sat(widths[k - 1] + 2) as nat);
        assert(widths.take(k).drop_last() =~= widths.take(k - 1));
    } else {
        assert(widths.take(0) =~= Seq::empty());
    }
}

/// A rule has a character for each column of its grid, where it is drawn with single
/// characters.
pub proof fn rules_span_the_grid(
    widths: Seq<usize>,
    left: Seq<char>,
    mid: Seq<char>,
    right: Seq<char>,
    h: Seq<char>,
)
    requires
        left.len() == 1,
        mid.len() == 1,
        right.len() == 1,
        h.len() == 1,
        forall|i: int| 0 <= i < widths.len() ==> #[trigger] widths[i] <= usize::MAX - 2,
    ensures
        rule_text(widths, left, mid, right, h, widths.len() as int).len() == grid_width(widths),
{
    lemma_rule_len(widths, left, mid, right, h, widths.len() as int);
    assert(widths.take(widths.len() as int) =~= widths);
}

proof fn lemma_spans_width_add(a: Seq<SpanV>, b: Seq<SpanV>)
    ensures
        spans_width(a + b) == spans_width(a) + spans_width(b),
    decreases b.len(),
{
    if b.len() == 0 {
        assert(a + b =~= a);
    } else {
        assert((a + b).drop_last() =~= a + b.drop_last());
        lemma_spans_width_add(a, b.drop_last());
    }
}

proof fn lemma_spans_width_push(a: Seq<SpanV>, s: SpanV)
    ensures
        spans_width(a.push(s)) == spans_width(a) + text_width(s.text),
{
    assert(a.push(s).drop_last() =~= a);
}

proof fn lemma_cell_width(cell: Seq<LineV>, row: int, width: usize, style: Style)
    requires
        spaces_are_narrow(),
        0 <= row,
        row < cell.len() ==> spans_width(cell[row].spans) <= width,
    ensures
        spans_width(cell_spans(cell, row, width as int, style)) == width,
{
    if row < cell.len() {
        let own = cell[row].spans;
        super::lemma_spans_width(own);
        let used = spans_width(own);
        let n = (width - used) as nat;
        assert(text_width(text::spaces(n)) == n);
        lemma_spans_width_push(own, span_of(text::spaces(n), style));
    } else {
        let pad = span_of(text::spaces(width as nat), style);
        assert(text_width(text::spaces(width as nat)) == width);
        assert(seq![pad] =~= Seq::<SpanV>::empty().push(pad));
        lemma_spans_width_push(Seq::empty(), pad);
    }
}

/// The columns of a row's line, through its first `k` columns.
proof fn lemma_row_width(
    e: EnvV,
    cells: Seq<Seq<LineV>>,
    widths: Seq<usize>,
    row: int,
    style: Style,
    k: int,
)
    requires
        spaces_are_narrow(),
        text_width(e.opts.glyphs.v@) == 1,
        cells.len() == widths.len(),
        0 <= row,
        0 <= k <= widths.len(),
        forall|i: int|
            0 <= i < cells.len() && row < (#[trigger] cells[i]).len() ==> spans_width(
                cells[i][row].spans,
            ) <= widths[i],
    ensures
        spans_width(row_spans(e, cells, widths, row, style, k)) == total(widths.take(k)) + 3 * k
            + 1,
    decreases k,
{
    let bar = span_of(e.opts.glyphs.v@, e.theme.table_border);
    if k <= 0 {
        assert(widths.take(0) =~= Seq::empty());
        assert(seq![bar] =~= Seq::<SpanV>::empty().push(bar));
        lemma_spans_width_push(Seq::empty(), bar);
    } else {
        let gap = span_of(" "@, style);
        assert(text_width(" "@) == 1) by {
            reveal_strlit(" ");
            assert(" "@ =~= text::spaces(1));
        }
        let before = row_spans(e, cells, widths, row, style, k - 1);
        let cell = cell_spans(cells[k - 1], row, widths[k - 1] as int, style);
        lemma_row_width(e, cells, widths, row, style, k - 1);
        lemma_cell_width(cells[k - 1], row, widths[k - 1], style);
        lemma_spans_width_push(before, gap);
        lemma_spans_width_add(before.push(gap), cell);
        lemma_spans_width_push(before.push(gap) + cell, gap);
        lemma_spans_width_push((before.push(gap) + cell).push(gap), bar);
        assert(widths.take(k).drop_last() =~= widths.take(k - 1));
    }
}

proof fn lemma_cells_wrapped_len(
    e: EnvV,
    cells: Seq<Seq<InlineV>>,
    widths: Seq<usize>,
    aligns: Seq<Align>,
    style: Style,
    k: int,
    st: StateV,
)
    requires
        0 <= k,
    ensures
        cells_wrapped(e, cells, widths, aligns, style, k, st).cells.len() == k,
    decreases k,
{
    if k > 0 {
        lemma_cells_wrapped_len(e, cells, widths, aligns, style, k - 1, st);
    }
}

/// Every line of every row is exactly as wide as its grid, so that the borders line up:
/// each cell is padded to its column. Left out are cells with a line that runs over
/// their column.
pub proof fn rows_line_up(
    e: EnvV,
    cells: Seq<Seq<InlineV>>,
    widths: Seq<usize>,
    aligns: Seq<Align>,
    style: Style,
    st: StateV,
)
    requires
        spaces_are_narrow(),
        text_width(e.opts.glyphs.v@) == 1,
        forall|i: int, row: int|
            0 <= i < widths.len() && 0 <= row < cells_wrapped(
                e,
                cells,
                widths,
                aligns,
                style,
                widths.len() as int,
                st,
            ).cells[i].len() ==> spans_width(
                #[trigger] cells_wrapped(
                    e,
                    cells,
                    widths,
                    aligns,
                    style,
                    widths.len() as int,
                    st,
                ).cells[i][row].spans,
            ) <= widths[i],
    ensures
        forall|k: int|
            0 <= k < row_drawn(e, cells, widths, aligns, style, st).lines.len() ==> spans(
                #[trigger] row_drawn(e, cells, widths, aligns, style, st).lines[k],
                grid_width(widths),
            ),
{
    let n = widths.len() as int;
    let c = cells_wrapped(e, cells, widths, aligns, style, n, st);
    let d = row_drawn(e, cells, widths, aligns, style, st);
    lemma_cells_wrapped_len(e, cells, widths, aligns, style, n, st);
    assert(widths.take(n) =~= widths);
    assert forall|k: int| 0 <= k < d.lines.len() implies spans(
        #[trigger] d.lines[k],
        grid_width(widths),
    ) by {
        assert forall|i: int| 0 <= i < c.cells.len() && k < (#[trigger] c.cells[i]).len() implies
            spans_width(c.cells[i][k].spans) <= widths[i] by {
            assert(spans_width(c.cells[i][k].spans) <= widths[i]);
        }
        lemma_row_width(e, c.cells, widths, k, style, n);
        let parts = row_spans(e, c.cells, widths, k, style, n);
        assert(d.lines[k] == line_of(parts));
    }
}

} // verus!
