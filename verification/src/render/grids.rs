//! What is read in a table.
//!
//! A table is read row by row: the rows stand below each other in their order, and in
//! each of them the cells stand beside each other in theirs, whatever the widths are and
//! however often a cell had to be broken.
use vstd::prelude::*;

use super::blocks::{tokens_of, EnvV, StateV};
use super::inline::{inked, lemma_inked_append, text_on, text_width, wrapped, Align};
use super::page::{lemma_prefixed_all, lemma_spaces, lemma_text_on_add};
use super::reading::{
    clusters_are_the_text, inline_content_is_read, lemma_inked_blank, lemma_spans_text_add,
    lemma_spans_text_one, lemma_spans_text_push, lemma_wrapped_read, read_inlines, read_line,
};
use super::table::{
    body_drawn, cell_spans, cells_wrapped, column_align, column_count, fields_drawn, fitted,
    grid_drawn, handed_out, lemma_handed_out, lemma_shaved_to, lemma_total_at_least,
    lemma_total_update, lemma_widest_above, lemma_widest_of, longest_row, measured, naturals,
    record_label, records_drawn, row_drawn, row_spans, rule_of, share, shaved, shaved_to, span_of,
    stripe_style, table_drawn, taken_back, tallest, total, widest_above, widest_of, with_cells,
    with_rows, DrawnV, Measure, MeasuresV,
};
use super::{
    aligned, blank_line, merging_keeps_the_text, plain_span, sat, spans_text, spans_width, LineV,
    LinkMode,
};
use crate::markdown::ir::{plain, Alignment, InlineV, TableV};
use crate::term::style::Style;
use crate::text;

verus! {

// --- every cell has a column -----------------------------------------------------------------

proof fn lemma_longest_row(rows: Seq<Seq<Seq<InlineV>>>, k: int, i: int)
    requires
        0 <= i < k <= rows.len(),
    ensures
        rows[i].len() <= longest_row(rows, k),
    decreases k,
{
    if i < k - 1 {
        lemma_longest_row(rows, k - 1, i);
    }
}

proof fn lemma_taken_back_len(w: Seq<usize>, available: int)
    ensures
        taken_back(w, available).len() == w.len(),
    decreases total(w),
{
    if total(w) > available && w.len() > 0 {
        lemma_widest_of(w, w.len() as int);
        let j = widest_of(w, w.len() as int);
        if w[j] > 1 {
            lemma_total_update(w, j, (w[j] - 1) as usize);
            lemma_total_at_least(shaved(w, j), 0);
            lemma_taken_back_len(shaved(w, j), available);
        }
    }
}

proof fn lemma_fitted_len(ms: Seq<Measure>, available: int)
    requires
        ms.len() > 0,
    ensures
        fitted(ms, available).len() == ms.len(),
{
    lemma_shaved_to(naturals(ms), ms, available);
    let w = shaved_to(naturals(ms), ms, available);
    if total(w) > available {
        let scaled = w.map_values(|x: usize| share(x, sat(total(w)), available));
        lemma_handed_out(scaled, 0, available);
        lemma_taken_back_len(handed_out(scaled, 0, available), available);
    }
}

proof fn lemma_with_cells_len(e: EnvV, cells: Seq<Seq<InlineV>>, k: int, m: MeasuresV)
    ensures
        with_cells(e, cells, k, m).ms.len() == m.ms.len(),
    decreases k,
{
    if k > 0 {
        lemma_with_cells_len(e, cells, k - 1, m);
    }
}

proof fn lemma_with_rows_len(e: EnvV, rows: Seq<Seq<Seq<InlineV>>>, k: int, m: MeasuresV)
    ensures
        with_rows(e, rows, k, m).ms.len() == m.ms.len(),
    decreases k,
{
    if k > 0 {
        lemma_with_rows_len(e, rows, k - 1, m);
        lemma_with_cells_len(
            e,
            rows[k - 1],
            rows[k - 1].len() as int,
            with_rows(e, rows, k - 1, m),
        );
    }
}

proof fn lemma_measured_len(e: EnvV, t: TableV, columns: nat, st: StateV)
    ensures
        measured(e, t, columns, st).ms.len() == columns,
{
    let zero = MeasuresV {
        ms: Seq::new(columns, |i: int| Measure { natural: 0, minimum: 0 }),
        st,
    };
    lemma_with_cells_len(e, t.head, t.head.len() as int, zero);
    lemma_with_rows_len(
        e,
        t.rows,
        t.rows.len() as int,
        with_cells(e, t.head, t.head.len() as int, zero),
    );
}

// --- one row ----------------------------------------------------------------------------------

/// A line of a grid: its fields between borders, with a space on either side of each.
pub open spec fn bordered(v: Seq<char>, fields: Seq<Seq<char>>) -> Seq<char>
    decreases fields.len(),
{
    if fields.len() == 0 {
        v
    } else {
        bordered(v, fields.drop_last()) + seq![' '] + fields.last() + seq![' '] + v
    }
}

/// What stands in column `c` of the lines from `from` to `to`, from top to bottom.
pub open spec fn column_text(fields: Seq<Seq<Seq<char>>>, c: int, from: int, to: int) -> Seq<char>
    decreases to - from,
{
    if to <= from {
        Seq::empty()
    } else {
        column_text(fields, c, from, to - 1) + fields[to - 1][c]
    }
}

/// What is to be read in a cell: nothing where the row ends before it.
pub open spec fn read_cell(e: EnvV, row: Seq<Seq<InlineV>>, c: int) -> Seq<char> {
    if 0 <= c < row.len() {
        read_inlines(e, row[c])
    } else {
        Seq::empty()
    }
}

/// True of lines `from..to` that show one row of a table: each of them has a field for
/// each column, and down a column is read what its cell holds.
pub open spec fn shows_row(
    e: EnvV,
    lines: Seq<LineV>,
    fields: Seq<Seq<Seq<char>>>,
    from: int,
    to: int,
    row: Seq<Seq<InlineV>>,
    columns: int,
) -> bool {
    &&& 0 <= from <= to <= lines.len()
    &&& fields.len() == lines.len()
    &&& forall|l: int|
        from <= l < to ==> (#[trigger] fields[l]).len() == columns && read_line(lines[l])
            == bordered(e.opts.glyphs.v@, fields[l])
    &&& forall|c: int|
        0 <= c < columns ==> inked(#[trigger] column_text(fields, c, from, to)) == inked(
            read_cell(e, row, c),
        )
}

/// The fields of one line of a row.
spec fn line_fields(
    cells: Seq<Seq<LineV>>,
    widths: Seq<usize>,
    r: int,
    style: Style,
    k: int,
) -> Seq<Seq<char>> {
    Seq::new(k as nat, |c: int| spans_text(cell_spans(cells[c], r, widths[c] as int, style)))
}

proof fn lemma_row_text(
    e: EnvV,
    cells: Seq<Seq<LineV>>,
    widths: Seq<usize>,
    r: int,
    style: Style,
    k: int,
)
    requires
        0 <= k <= widths.len(),
    ensures
        spans_text(row_spans(e, cells, widths, r, style, k)) == bordered(
            e.opts.glyphs.v@,
            line_fields(cells, widths, r, style, k),
        ),
    decreases k,
{
    let v = e.opts.glyphs.v@;
    let bar = span_of(v, e.theme.table_border);
    let fields = line_fields(cells, widths, r, style, k);
    if k <= 0 {
        lemma_spans_text_one(bar);
    } else {
        lemma_row_text(e, cells, widths, r, style, k - 1);
        reveal_strlit(" ");
        assert(" "@ =~= seq![' ']);
        let gap = span_of(" "@, style);
        let before = row_spans(e, cells, widths, r, style, k - 1);
        let cell = cell_spans(cells[k - 1], r, widths[k - 1] as int, style);
        lemma_spans_text_push(before, gap);
        lemma_spans_text_add(before.push(gap), cell);
        lemma_spans_text_push(before.push(gap) + cell, gap);
        lemma_spans_text_push((before.push(gap) + cell).push(gap), bar);
        assert(fields.drop_last() =~= line_fields(cells, widths, r, style, k - 1));
        assert(fields.last() == spans_text(cell));
    }
}

proof fn lemma_cell_line(cell: Seq<LineV>, r: int, width: int, style: Style)
    requires
        0 <= r,
    ensures
        inked(spans_text(cell_spans(cell, r, width, style))) == (if r < cell.len() {
            inked(read_line(cell[r]))
        } else {
            Seq::empty()
        }),
{
    let none = Seq::<char>::empty();
    if r < cell.len() {
        let used = sat(super::spans_width(cell[r].spans));
        if used < width {
            let blank = text::spaces((width - used) as nat);
            lemma_spans_text_push(cell[r].spans, span_of(blank, style));
            lemma_inked_append(read_line(cell[r]), blank);
            lemma_inked_blank(blank);
            assert(inked(read_line(cell[r])) + none =~= inked(read_line(cell[r])));
        }
    } else {
        let blank = text::spaces(width as nat);
        lemma_spans_text_one(span_of(blank, style));
        lemma_inked_blank(blank);
    }
}

proof fn lemma_tallest(cells: Seq<Seq<LineV>>, k: int, c: int)
    requires
        0 <= c < k <= cells.len(),
    ensures
        cells[c].len() <= tallest(cells, k),
    decreases k,
{
    if c < k - 1 {
        lemma_tallest(cells, k - 1, c);
    }
}

proof fn lemma_tallest_positive(cells: Seq<Seq<LineV>>, k: int)
    ensures
        0 <= tallest(cells, k),
    decreases k,
{
    if k > 0 {
        lemma_tallest_positive(cells, k - 1);
    }
}

/// True of the fields of a line whose field `c` is line `r` of a cell.
spec fn is_field(
    fields: Seq<Seq<char>>,
    c: int,
    cell: Seq<LineV>,
    r: int,
    width: int,
    style: Style,
) -> bool {
    c < fields.len() && fields[c] == spans_text(cell_spans(cell, r, width, style))
}

/// The lines of one cell, from the first to line `h`, are what stands down its column.
proof fn lemma_column(
    fields: Seq<Seq<Seq<char>>>,
    cell: Seq<LineV>,
    width: int,
    style: Style,
    c: int,
    from: int,
    h: int,
)
    requires
        0 <= h,
        0 <= from,
        from + h <= fields.len(),
        0 <= c,
        forall|l: int|
            from <= l < from + h ==> is_field(#[trigger] fields[l], c, cell, l - from, width, style),
    ensures
        inked(column_text(fields, c, from, from + h)) == inked(
            text_on(
                cell.take(
                    if h < cell.len() {
                        h
                    } else {
                        cell.len() as int
                    },
                ),
            ),
        ),
    decreases h,
{
    let none = Seq::<char>::empty();
    if h <= 0 {
        assert(cell.take(0) =~= Seq::empty());
    } else {
        lemma_column(fields, cell, width, style, c, from, h - 1);
        assert(is_field(fields[from + h - 1], c, cell, h - 1, width, style));
        let last = fields[from + h - 1][c];
        let above = column_text(fields, c, from, from + h - 1);
        lemma_inked_append(above, last);
        lemma_cell_line(cell, h - 1, width, style);
        if h - 1 < cell.len() {
            let part = cell.take(h);
            assert(part.drop_last() =~= cell.take(h - 1));
            assert(part.last() == cell[h - 1]);
            lemma_inked_append(text_on(cell.take(h - 1)), read_line(cell[h - 1]));
        } else {
            assert(inked(above) + none =~= inked(above));
        }
    }
}

/// What a cell of a row is broken into.
proof fn lemma_cells(
    e: EnvV,
    cells: Seq<Seq<InlineV>>,
    widths: Seq<usize>,
    aligns: Seq<Align>,
    style: Style,
    k: int,
    st: StateV,
    c: int,
)
    requires
        clusters_are_the_text(),
        e.opts.links != LinkMode::Reference,
        0 <= c < k <= widths.len(),
    ensures
        cells_wrapped(e, cells, widths, aligns, style, k, st).cells.len() == k,
        inked(text_on(cells_wrapped(e, cells, widths, aligns, style, k, st).cells[c])) == inked(
            read_cell(e, cells, c),
        ),
    decreases k,
{
    let before = cells_wrapped(e, cells, widths, aligns, style, k - 1, st);
    if k - 1 > 0 {
        lemma_cells(
            e,
            cells,
            widths,
            aligns,
            style,
            k - 1,
            st,
            if c < k - 1 {
                c
            } else {
                0
            },
        );
    }
    if c == k - 1 {
        if c < cells.len() {
            let t = tokens_of(e, cells[c], style, before.st);
            inline_content_is_read(e, cells[c], style, before.st);
            lemma_wrapped_read(t.out, widths[c] as int, aligns[c]);
        } else {
            let blank = seq![blank_line()];
            assert(blank.drop_last() =~= Seq::empty());
            assert(text_on(blank.drop_last()) =~= Seq::empty());
            assert(spans_text(blank.last().spans) =~= Seq::empty());
            assert(text_on(blank) =~= Seq::empty());
        }
    }
}

/// The lines of a row, put behind others, show that row.
proof fn lemma_row_shown(
    e: EnvV,
    row: Seq<Seq<InlineV>>,
    widths: Seq<usize>,
    aligns: Seq<Align>,
    style: Style,
    st: StateV,
    lines: Seq<LineV>,
    fields: Seq<Seq<Seq<char>>>,
) -> (more: Seq<Seq<Seq<char>>>)
    requires
        clusters_are_the_text(),
        e.opts.links != LinkMode::Reference,
        fields.len() == lines.len(),
    ensures
        ({
            let all = lines + row_drawn(e, row, widths, aligns, style, st).lines;
            &&& fields.is_prefix_of(more)
            &&& shows_row(
                e,
                all,
                more,
                lines.len() as int,
                all.len() as int,
                row,
                widths.len() as int,
            )
        }),
{
    let n = widths.len() as int;
    let cw = cells_wrapped(e, row, widths, aligns, style, n, st);
    let d = row_drawn(e, row, widths, aligns, style, st);
    let all = lines + d.lines;
    let from = lines.len() as int;
    let h = d.lines.len() as int;
    lemma_tallest_positive(cw.cells, n);
    let own = Seq::new(h as nat, |r: int| line_fields(cw.cells, widths, r, style, n));
    let more = fields + own;
    assert forall|l: int| from <= l < from + h implies (#[trigger] more[l]).len() == n
        && read_line(all[l]) == bordered(e.opts.glyphs.v@, more[l]) by {
        let r = l - from;
        assert(more[l] == own[r]);
        assert(own[r] == line_fields(cw.cells, widths, r, style, n));
        let parts = row_spans(e, cw.cells, widths, r, style, n);
        assert(all[l] == d.lines[r]);
        merging_keeps_the_text(parts);
        lemma_row_text(e, cw.cells, widths, r, style, n);
    }
    assert forall|c: int| 0 <= c < n implies inked(
        #[trigger] column_text(more, c, from, from + h),
    ) == inked(read_cell(e, row, c)) by {
        lemma_cells(e, row, widths, aligns, style, n, st, c);
        lemma_tallest(cw.cells, n, c);
        assert forall|l: int| from <= l < from + h implies is_field(
            #[trigger] more[l],
            c,
            cw.cells[c],
            l - from,
            widths[c] as int,
            style,
        ) by {
            assert(more[l] == own[l - from]);
            assert(own[l - from] == line_fields(cw.cells, widths, l - from, style, n));
        }
        lemma_column(more, cw.cells[c], widths[c] as int, style, c, from, h);
        assert(cw.cells[c].take(cw.cells[c].len() as int) =~= cw.cells[c]);
    }
    assert(fields =~= more.take(fields.len() as int));
    more
}

proof fn lemma_column_prefix(
    a: Seq<Seq<Seq<char>>>,
    b: Seq<Seq<Seq<char>>>,
    c: int,
    from: int,
    to: int,
)
    requires
        a.is_prefix_of(b),
        0 <= from,
        to <= a.len(),
    ensures
        column_text(a, c, from, to) == column_text(b, c, from, to),
    decreases to - from,
{
    if from < to {
        lemma_column_prefix(a, b, c, from, to - 1);
        assert(a[to - 1] == b[to - 1]);
    }
}

/// A row that is shown stays shown when lines are added below it.
proof fn lemma_shown_above(
    e: EnvV,
    lines: Seq<LineV>,
    fields: Seq<Seq<Seq<char>>>,
    more_lines: Seq<LineV>,
    more: Seq<Seq<Seq<char>>>,
    from: int,
    to: int,
    row: Seq<Seq<InlineV>>,
    columns: int,
)
    requires
        shows_row(e, lines, fields, from, to, row, columns),
        lines.is_prefix_of(more_lines),
        fields.is_prefix_of(more),
        more.len() == more_lines.len(),
    ensures
        shows_row(e, more_lines, more, from, to, row, columns),
{
    assert forall|l: int| from <= l < to implies (#[trigger] more[l]).len() == columns && read_line(
        more_lines[l],
    ) == bordered(e.opts.glyphs.v@, more[l]) by {
        assert(more[l] == fields[l]);
        assert(more_lines[l] == lines[l]);
    }
    assert forall|c: int| 0 <= c < columns implies inked(
        #[trigger] column_text(more, c, from, to),
    ) == inked(read_cell(e, row, c)) by {
        lemma_column_prefix(fields, more, c, from, to);
        assert(inked(column_text(fields, c, from, to)) == inked(read_cell(e, row, c)));
    }
}

// --- all rows -----------------------------------------------------------------------------------

/// Where the rows of a grid begin and end, and the fields of its lines.
pub struct Layout {
    /// Row `i` is on the lines from `cuts[i]` to `cuts[i + 1]`.
    pub cuts: Seq<int>,
    pub fields: Seq<Seq<Seq<char>>>,
}

/// True of lines that show rows one below the other, in their order.
pub open spec fn shows_rows(
    e: EnvV,
    lines: Seq<LineV>,
    layout: Layout,
    rows: Seq<Seq<Seq<InlineV>>>,
    columns: int,
) -> bool {
    &&& layout.cuts.len() == rows.len() + 1
    &&& forall|i: int|
        0 <= i < rows.len() ==> shows_row(
            e,
            lines,
            layout.fields,
            layout.cuts[i],
            layout.cuts[i + 1],
            #[trigger] rows[i],
            columns,
        )
}

proof fn lemma_body_shown(
    e: EnvV,
    rows: Seq<Seq<Seq<InlineV>>>,
    widths: Seq<usize>,
    aligns: Seq<Align>,
    k: int,
    d: DrawnV,
    fields: Seq<Seq<Seq<char>>>,
) -> (layout: Layout)
    requires
        clusters_are_the_text(),
        e.opts.links != LinkMode::Reference,
        0 <= k <= rows.len(),
        fields.len() == d.lines.len(),
    ensures
        d.lines.is_prefix_of(body_drawn(e, rows, widths, aligns, k, d).lines),
        fields.is_prefix_of(layout.fields),
        layout.fields.len() == body_drawn(e, rows, widths, aligns, k, d).lines.len(),
        shows_rows(
            e,
            body_drawn(e, rows, widths, aligns, k, d).lines,
            layout,
            rows.take(k),
            widths.len() as int,
        ),
        layout.cuts[0] == d.lines.len(),
        layout.cuts[k] == body_drawn(e, rows, widths, aligns, k, d).lines.len(),
    decreases k,
{
    if k <= 0 {
        let layout = Layout { cuts: seq![d.lines.len() as int], fields };
        layout
    } else {
        let above = lemma_body_shown(e, rows, widths, aligns, k - 1, d, fields);
        let before = body_drawn(e, rows, widths, aligns, k - 1, d);
        let style = stripe_style(e, k - 1);
        let own = row_drawn(e, rows[k - 1], widths, aligns, style, before.st);
        let all = body_drawn(e, rows, widths, aligns, k, d);
        let more = lemma_row_shown(
            e,
            rows[k - 1],
            widths,
            aligns,
            style,
            before.st,
            before.lines,
            above.fields,
        );
        let layout = Layout { cuts: above.cuts.push(all.lines.len() as int), fields: more };
        let n = widths.len() as int;
        assert(before.lines =~= all.lines.take(before.lines.len() as int));
        assert(d.lines =~= all.lines.take(d.lines.len() as int));
        assert(fields =~= more.take(fields.len() as int));
        assert forall|i: int| 0 <= i < k implies shows_row(
            e,
            all.lines,
            layout.fields,
            layout.cuts[i],
            layout.cuts[i + 1],
            #[trigger] rows.take(k)[i],
            n,
        ) by {
            if i < k - 1 {
                assert(layout.cuts[i] == above.cuts[i]);
                assert(layout.cuts[i + 1] == above.cuts[i + 1]);
                assert(rows.take(k)[i] == rows.take(k - 1)[i]);
                lemma_shown_above(
                    e,
                    before.lines,
                    above.fields,
                    all.lines,
                    more,
                    above.cuts[i],
                    above.cuts[i + 1],
                    rows[i],
                    n,
                );
            } else {
                assert(layout.cuts[i] == before.lines.len());
            }
        }
        layout
    }
}

/// The rows of a grid stand below each other in their order. Below the rule at the top
/// comes the header, if there is one, and below its own rule the body: the lines of row
/// `i` end where those of row `i + 1` begin, the first begins where the header ends and
/// the last ends at the rule at the bottom. Each of these lines has a field for each
/// column, in the order of the columns, and down a column is read what the cell holds.
/// There is a column for every cell.
pub proof fn rows_stand_in_order(e: EnvV, t: TableV, available: int, st: StateV) -> (layout: Layout)
    requires
        clusters_are_the_text(),
        e.opts.links != LinkMode::Reference,
        column_count(t) > 0,
    ensures
        ({
            let lines = grid_drawn(e, t, available, st).lines;
            let columns = column_count(t);
            let first = layout.cuts[0];
            &&& shows_rows(e, lines, layout, t.rows, columns)
            &&& layout.cuts[t.rows.len() as int] == lines.len() - 1
            &&& t.head.len() == 0 ==> first == 1
            &&& t.head.len() > 0 ==> first >= 2 && shows_row(
                e,
                lines,
                layout.fields,
                1,
                first - 1,
                t.head,
                columns,
            )
            &&& t.head.len() <= columns
            &&& forall|i: int| 0 <= i < t.rows.len() ==> (#[trigger] t.rows[i]).len() <= columns
        }),
{
    let columns = column_count(t);
    let widths = fitted(measured(e, t, columns as nat, st).ms, available);
    lemma_longest_positive(t.rows, t.rows.len() as int);
    lemma_measured_len(e, t, columns as nat, st);
    lemma_fitted_len(measured(e, t, columns as nat, st).ms, available);
    let aligns = Seq::new(columns as nat, |i: int| column_align(t, i));
    let g = e.opts.glyphs;
    let border = e.theme.table_border;
    let top = DrawnV {
        lines: seq![rule_of(widths, border, g.top_left, g.top_mid, g.top_right, g.h)],
        st,
    };
    let none = Seq::<Seq<char>>::empty();
    let r = row_drawn(e, t.head, widths, aligns, e.theme.table_header, top.st);
    let mid = rule_of(widths, border, g.mid_left, g.mid_mid, g.mid_right, g.h);
    let headed = if t.head.len() > 0 {
        DrawnV { lines: (top.lines + r.lines).push(mid), st: r.st }
    } else {
        top
    };
    let head_fields = lemma_row_shown(
        e,
        t.head,
        widths,
        aligns,
        e.theme.table_header,
        top.st,
        top.lines,
        seq![none],
    );
    let fields = if t.head.len() > 0 {
        head_fields.push(none)
    } else {
        seq![none]
    };
    let body = body_drawn(e, t.rows, widths, aligns, t.rows.len() as int, headed);
    let inner = lemma_body_shown(
        e,
        t.rows,
        widths,
        aligns,
        t.rows.len() as int,
        headed,
        fields,
    );
    let lines = grid_drawn(e, t, available, st).lines;
    let layout = Layout { cuts: inner.cuts, fields: inner.fields.push(none) };
    assert(t.rows.take(t.rows.len() as int) =~= t.rows);
    assert(body.lines =~= lines.take(body.lines.len() as int));
    assert(inner.fields =~= layout.fields.take(inner.fields.len() as int));
    assert forall|i: int| 0 <= i < t.rows.len() implies shows_row(
        e,
        lines,
        layout.fields,
        layout.cuts[i],
        layout.cuts[i + 1],
        #[trigger] t.rows[i],
        columns,
    ) by {
        assert(inner.cuts[i] == layout.cuts[i]);
        lemma_shown_above(
            e,
            body.lines,
            inner.fields,
            lines,
            layout.fields,
            inner.cuts[i],
            inner.cuts[i + 1],
            t.rows[i],
            columns,
        );
    }
    if t.head.len() > 0 {
        let both = top.lines + r.lines;
        assert(both =~= lines.take(both.len() as int)) by {
            assert(both =~= headed.lines.take(both.len() as int));
            assert(headed.lines =~= body.lines.take(headed.lines.len() as int));
        }
        assert(head_fields =~= layout.fields.take(head_fields.len() as int)) by {
            assert(head_fields =~= fields.take(head_fields.len() as int));
            assert(fields =~= inner.fields.take(fields.len() as int));
        }
        lemma_shown_above(
            e,
            both,
            head_fields,
            lines,
            layout.fields,
            1,
            both.len() as int,
            t.head,
            columns,
        );
    }
    assert forall|i: int| 0 <= i < t.rows.len() implies (#[trigger] t.rows[i]).len()
        <= columns by {
        lemma_longest_row(t.rows, t.rows.len() as int, i);
    }
    layout
}

proof fn lemma_longest_positive(rows: Seq<Seq<Seq<InlineV>>>, k: int)
    ensures
        0 <= longest_row(rows, k),
    decreases k,
{
    if k > 0 {
        lemma_longest_positive(rows, k - 1);
    }
}

// --- records --------------------------------------------------------------------------------------

/// The label of a column: its heading, or its number where it has none.
pub open spec fn label_read(t: TableV, c: int) -> Seq<char> {
    (if c < t.head.len() {
        plain(t.head[c])
    } else {
        text::decimal((c + 1) as nat)
    }) + seq![':', ' ']
}

/// The first `k` fields of a record as they are read: each behind its label.
pub open spec fn fields_read(e: EnvV, t: TableV, row: Seq<Seq<InlineV>>, k: int) -> Seq<char>
    decreases k,
{
    if k <= 0 {
        Seq::empty()
    } else {
        fields_read(e, t, row, k - 1) + label_read(t, k - 1) + read_cell(e, row, k - 1)
    }
}

/// The first `k` records as they are read.
pub open spec fn records_read(e: EnvV, t: TableV, columns: int, k: int) -> Seq<char>
    decreases k,
{
    if k <= 0 {
        Seq::empty()
    } else {
        records_read(e, t, columns, k - 1) + fields_read(e, t, t.rows[k - 1], columns)
    }
}

proof fn lemma_fields(e: EnvV, t: TableV, row: Seq<Seq<InlineV>>, width: int, k: int, d: DrawnV)
    requires
        clusters_are_the_text(),
        e.opts.links != LinkMode::Reference,
        0 <= k,
    ensures
        inked(text_on(fields_drawn(e, t, row, width, k, d).lines)) == inked(text_on(d.lines))
            + inked(fields_read(e, t, row, k)),
    decreases k,
{
    let none = Seq::<char>::empty();
    assert(inked(none) =~= none);
    if k <= 0 {
        assert(inked(text_on(d.lines)) + none =~= inked(text_on(d.lines)));
    } else {
        lemma_fields(e, t, row, width, k - 1, d);
        reveal_strlit(": ");
        assert(": "@ =~= seq![':', ' ']);
        let before = fields_drawn(e, t, row, width, k - 1, d);
        let label = record_label(t, k - 1);
        assert(label =~= label_read(t, k - 1));
        let label_width = text_width(label) as int;
        let room = super::blocks::at_least(super::blocks::minus(width, label_width), 4);
        let tokens = if k - 1 < row.len() {
            tokens_of(e, row[k - 1], e.theme.text, before.st)
        } else {
            super::blocks::TokensV { out: Seq::empty(), st: before.st }
        };
        let lines = wrapped(tokens.out, room, Align::Left);
        lemma_wrapped_read(tokens.out, room, Align::Left);
        if k - 1 < row.len() {
            inline_content_is_read(e, row[k - 1], e.theme.text, before.st);
        } else {
            assert(super::reading::all_words(Seq::empty()) =~= none);
        }
        assert(inked(text_on(lines)) == inked(read_cell(e, row, k - 1)));
        let first = seq![span_of(label, e.theme.table_header)];
        let rest = seq![plain_span(text::spaces(label_width as nat))];
        lemma_spans_text_one(first[0]);
        lemma_spaces(label_width as nat);
        lemma_prefixed_all(lines, first, rest);
        let own = super::prefixed_all(lines, first, rest);
        lemma_text_on_add(before.lines, own);
        lemma_inked_append(text_on(before.lines), text_on(own));
        let sofar = fields_read(e, t, row, k - 1);
        lemma_inked_append(sofar + label, read_cell(e, row, k - 1));
        lemma_inked_append(sofar, label);
        assert(inked(text_on(d.lines)) + inked(sofar) + (inked(label) + inked(
            read_cell(e, row, k - 1),
        )) =~= inked(text_on(d.lines)) + (inked(sofar) + inked(label) + inked(
            read_cell(e, row, k - 1),
        )));
    }
}

/// A table too wide for a grid is read record by record, in the order of its rows, and
/// each record field by field, in the order of the columns: a field is the heading of its
/// column, or its number, and what the cell holds.
pub proof fn records_are_read(e: EnvV, t: TableV, width: int, columns: int, k: int, st: StateV)
    requires
        clusters_are_the_text(),
        e.opts.links != LinkMode::Reference,
        0 <= k <= t.rows.len(),
        0 <= columns,
    ensures
        inked(text_on(records_drawn(e, t, width, columns, k, st).lines)) == inked(
            records_read(e, t, columns, k),
        ),
    decreases k,
{
    let none = Seq::<char>::empty();
    if k > 0 {
        records_are_read(e, t, width, columns, k - 1, st);
        let before = records_drawn(e, t, width, columns, k - 1, st);
        let start = DrawnV {
            lines: if k > 1 {
                before.lines.push(blank_line())
            } else {
                before.lines
            },
            ..before
        };
        assert(before.lines.push(blank_line()).drop_last() =~= before.lines);
        assert(spans_text(blank_line().spans) =~= none);
        assert(text_on(before.lines) + none =~= text_on(before.lines));
        assert(text_on(start.lines) == text_on(before.lines));
        lemma_fields(e, t, t.rows[k - 1], width, columns, start);
        lemma_inked_append(
            records_read(e, t, columns, k - 1),
            fields_read(e, t, t.rows[k - 1], columns),
        );
    }
}

// --- alignment ------------------------------------------------------------------------------------

/// A line that is narrower than its room stands at the side it is told to: on the left
/// as it is, on the right behind as many blanks as there is room, and in the middle with
/// as many on either side, or one more behind it.
pub proof fn lines_stand_where_they_are_told(l: LineV, width: int)
    requires
        spans_width(l.spans) < width <= usize::MAX,
        0 <= spans_width(l.spans),
    ensures
        ({
            let free = width - spans_width(l.spans);
            &&& read_line(aligned(l, width, Align::Left)) == read_line(l)
            &&& read_line(aligned(l, width, Align::Right)) == text::spaces(free as nat)
                + read_line(l)
            &&& read_line(aligned(l, width, Align::Center)) == text::spaces((free / 2) as nat)
                + read_line(l)
        }),
{
    let free = width - spans_width(l.spans);
    lemma_spans_text_add(seq![plain_span(text::spaces(free as nat))], l.spans);
    lemma_spans_text_one(plain_span(text::spaces(free as nat)));
    lemma_spans_text_add(seq![plain_span(text::spaces((free / 2) as nat))], l.spans);
    lemma_spans_text_one(plain_span(text::spaces((free / 2) as nat)));
    if free / 2 == 0 {
        assert(text::spaces(0) =~= Seq::empty());
        assert(text::spaces(0) + read_line(l) =~= read_line(l));
    }
}

/// A column stands where it was told to. One that was told nothing stands on the right
/// where it holds numbers, and on the left where it does not.
pub proof fn columns_stand_where_they_are_told(t: TableV, i: int)
    requires
        0 <= i,
    ensures
        i < t.alignments.len() && t.alignments[i] == Alignment::Left ==> column_align(t, i)
            == Align::Left,
        i < t.alignments.len() && t.alignments[i] == Alignment::Center ==> column_align(t, i)
            == Align::Center,
        i < t.alignments.len() && t.alignments[i] == Alignment::Right ==> column_align(t, i)
            == Align::Right,
        i >= t.alignments.len() || t.alignments[i] == Alignment::Unset ==> (column_align(t, i)
            == Align::Right <==> super::table::is_numeric(t, i)) && (column_align(t, i)
            == Align::Left <==> !super::table::is_numeric(t, i)),
{
}

// --- widths ---------------------------------------------------------------------------------------

/// A table that has room has every column at its natural width.
pub proof fn roomy_columns_are_natural(ms: Seq<Measure>, available: int)
    requires
        total(naturals(ms)) <= available,
    ensures
        fitted(ms, available).len() == ms.len(),
        forall|i: int| 0 <= i < ms.len() ==> #[trigger] fitted(ms, available)[i] == ms[i].natural,
{
}

proof fn lemma_shaved_above(w: Seq<usize>, ms: Seq<Measure>, available: int, i: int)
    requires
        ms.len() == w.len(),
        0 <= i < w.len(),
        forall|k: int| 0 <= k < w.len() ==> (#[trigger] w[k]) >= ms[k].minimum,
    ensures
        shaved_to(w, ms, available).len() == w.len(),
        ms[i].minimum <= shaved_to(w, ms, available)[i] <= w[i],
        total(shaved_to(w, ms, available)) > available ==> shaved_to(w, ms, available)[i]
            == ms[i].minimum,
    decreases total(w),
{
    if total(w) > available {
        lemma_widest_above(w, ms, w.len() as int);
        let j = widest_above(w, ms, w.len() as int);
        if j >= 0 {
            lemma_total_update(w, j, (w[j] - 1) as usize);
            lemma_total_at_least(shaved(w, j), 0);
            let next = shaved(w, j);
            assert forall|k: int| 0 <= k < next.len() implies (#[trigger] next[k])
                >= ms[k].minimum by {
                if k != j {
                    assert(next[k] == w[k]);
                }
            }
            lemma_shaved_above(next, ms, available, i);
        } else {
            lemma_none_above(w, ms, w.len() as int, i);
        }
    }
}

proof fn lemma_none_above(w: Seq<usize>, ms: Seq<Measure>, k: int, i: int)
    requires
        ms.len() == w.len(),
        0 <= i < k <= w.len(),
        widest_above(w, ms, k) < 0,
    ensures
        w[i] <= ms[i].minimum,
    decreases k,
{
    if k > 0 {
        if i < k - 1 {
            lemma_none_above(w, ms, k - 1, i);
        }
    }
}

/// Columns are taken down no further than their longest word, where there is room for
/// all of those.
pub proof fn columns_keep_their_minimum(ms: Seq<Measure>, available: int, i: int)
    requires
        0 <= i < ms.len(),
        forall|k: int| 0 <= k < ms.len() ==> (#[trigger] ms[k]).natural >= ms[k].minimum,
        total(ms.map_values(|m: Measure| m.minimum)) <= available,
    ensures
        ms[i].minimum <= fitted(ms, available)[i] <= ms[i].natural,
        total(fitted(ms, available)) <= available,
{
    let least = ms.map_values(|m: Measure| m.minimum);
    let w = shaved_to(naturals(ms), ms, available);
    lemma_shaved_above(naturals(ms), ms, available, i);
    if total(w) > available {
        assert forall|k: int| 0 <= k < ms.len() implies w[k] == least[k] by {
            lemma_shaved_above(naturals(ms), ms, available, k);
        }
        assert(w =~= least);
    }
}

/// A table is a grid where each of its columns can have two cells beside the borders,
/// and a list of records where it cannot. Without columns it is nothing.
pub proof fn tables_choose_their_form(e: EnvV, t: TableV, width: int, st: StateV)
    ensures
        ({
            let c = column_count(t);
            let d = table_drawn(e, t, width, st);
            &&& c == 0 ==> d.lines.len() == 0 && d.st == st
            &&& c > 0 && width >= 5 * c + 1 ==> d == grid_drawn(e, t, width - (3 * c + 1), st)
            &&& c > 0 && width < 5 * c + 1 ==> d == records_drawn(
                e,
                t,
                width,
                c,
                t.rows.len() as int,
                st,
            )
        }),
{
    reveal(table_drawn);
}

} // verus!
