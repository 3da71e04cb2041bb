//! Table layout engine: computes final column widths for a matrix of display
//! cells (truncating by per-column caps, then expanding or shrinking columns
//! to a target terminal width by a fixed priority rule) and renders a
//! bordered grid of text.

use vstd::prelude::*;

use crate::text::{
    char_repeat, chars_to_string, chars_view, pad_right, pad_right_chars, push_all, repeat_chars,
    str_chars, str_matrix_view, strs_view, char_matrix_view,
};
use crate::wrap::{max_token_len, max_token_len_chars, truncate_cell, truncate_cell_chars,
    wrap_cell, wrap_cell_chars};

verus! {

/// Machine widths as mathematical widths.
pub open spec fn usizes(v: Seq<usize>) -> Seq<nat> {
    v.map_values(|w: usize| w as nat)
}

/// A hard truncation rule: every cell of `column` longer than `cap`
/// characters is cut to exactly `cap` characters, ellipsis included.
pub struct ColumnCap {
    pub column: usize,
    pub cap: usize,
}

/// The cap configured for a column: the first rule naming it, if any.
pub open spec fn cap_for(caps: Seq<ColumnCap>, col: int) -> Option<nat>
    decreases caps.len(),
{
    if caps.len() == 0 {
        None
    } else if caps[0].column == col {
        Some(caps[0].cap as nat)
    } else {
        cap_for(caps.drop_first(), col)
    }
}

/// One cell after truncation rules.
pub open spec fn capped_cell(caps: Seq<ColumnCap>, col: int, s: Seq<char>) -> Seq<char> {
    match cap_for(caps, col) {
        Option::Some(c) => truncate_cell(s, c),
        Option::None => s,
    }
}

/// One row after truncation rules.
pub open spec fn capped_row(caps: Seq<ColumnCap>, row: Seq<Seq<char>>) -> Seq<Seq<char>> {
    Seq::new(row.len(), |j: int| capped_cell(caps, j, row[j]))
}

/// All rows after truncation rules.
pub open spec fn capped_rows(caps: Seq<ColumnCap>, rows: Seq<Seq<Seq<char>>>) -> Seq<
    Seq<Seq<char>>,
> {
    Seq::new(rows.len(), |i: int| capped_row(caps, rows[i]))
}

/// The longest cell of column `j` over `rows` (0 when there are no rows).
pub open spec fn col_max_len(rows: Seq<Seq<Seq<char>>>, j: int) -> nat
    decreases rows.len(),
{
    if rows.len() == 0 {
        0
    } else {
        let rest = col_max_len(rows.drop_last(), j);
        let last = rows.last()[j].len();
        if last >= rest {
            last
        } else {
            rest
        }
    }
}

/// The longest unbreakable token of column `j` over `rows`.
pub open spec fn col_max_token(rows: Seq<Seq<Seq<char>>>, j: int) -> nat
    decreases rows.len(),
{
    if rows.len() == 0 {
        0
    } else {
        let rest = col_max_token(rows.drop_last(), j);
        let last = max_token_len(rows.last()[j]);
        if last >= rest {
            last
        } else {
            rest
        }
    }
}

/// Natural widths: per column, the longest cell (headers included when they
/// stand among `rows`).
pub open spec fn natural_widths(rows: Seq<Seq<Seq<char>>>, ncols: nat) -> Seq<nat> {
    Seq::new(ncols, |j: int| col_max_len(rows, j))
}

/// Minimum feasible widths: per column, the longest unbreakable token.
pub open spec fn min_widths(rows: Seq<Seq<Seq<char>>>, ncols: nat) -> Seq<nat> {
    Seq::new(ncols, |j: int| col_max_token(rows, j))
}

/// Width of the rendered grid after column `j`: per remaining column one
/// border character and two padding blanks beside the content.
pub open spec fn widths_total_from(ws: Seq<nat>, j: int) -> nat
    decreases ws.len() - j,
{
    if j < 0 || j >= ws.len() {
        0
    } else {
        ws[j] + 3 + widths_total_from(ws, j + 1)
    }
}

/// Width of the rendered grid: the leading border character, then per column
/// its content width, two padding blanks and one border character.
pub open spec fn widths_total(ws: Seq<nat>) -> nat {
    1 + widths_total_from(ws, 0)
}

/// The first index among `i..` holding the smallest width, starting from a
/// candidate `best`.
pub open spec fn min_idx_from(ws: Seq<nat>, i: int, best: int) -> int
    decreases ws.len() - i,
{
    if i < 0 || i >= ws.len() {
        best
    } else if 0 <= best < ws.len() && ws[i] < ws[best] {
        min_idx_from(ws, i + 1, i)
    } else {
        min_idx_from(ws, i + 1, best)
    }
}

/// The lowest index of the narrowest column.
pub open spec fn min_idx(ws: Seq<nat>) -> int {
    min_idx_from(ws, 1, 0)
}

/// Distributes `extra` single columns of width, each to the currently
/// narrowest column (ties to the lowest index), so the widest columns grow
/// last.
pub open spec fn expand(ws: Seq<nat>, extra: nat) -> Seq<nat>
    decreases extra,
{
    if extra == 0 || ws.len() == 0 {
        ws
    } else {
        let j = min_idx(ws);
        expand(ws.update(j, (ws[j] + 1) as nat), (extra - 1) as nat)
    }
}

/// The lowest index of the widest column still above its minimum, starting
/// from candidate `best` (`-1` when none found yet).
pub open spec fn shrink_idx_from(ws: Seq<nat>, mins: Seq<nat>, i: int, best: int) -> int
    decreases ws.len() - i,
{
    if i < 0 || i >= ws.len() {
        best
    } else {
        let better = if best == -1 {
            ws[i] > mins[i]
        } else {
            ws[i] > mins[i] && 0 <= best < ws.len() && ws[i] > ws[best]
        };
        shrink_idx_from(ws, mins, i + 1, if better {
            i
        } else {
            best
        })
    }
}

/// The column to shrink next: the widest still above its minimum, ties to
/// the lowest index; `-1` when every column is at its minimum.
pub open spec fn shrink_idx(ws: Seq<nat>, mins: Seq<nat>) -> int {
    shrink_idx_from(ws, mins, 0, -1)
}

/// Takes `over` single columns of width away, each from the currently widest
/// column that is still above its minimum; stops early when every column is
/// at its minimum.
pub open spec fn shrink(ws: Seq<nat>, mins: Seq<nat>, over: nat) -> Seq<nat>
    decreases over,
{
    if over == 0 {
        ws
    } else {
        let j = shrink_idx(ws, mins);
        if j == -1 {
            ws
        } else if !(0 <= j < ws.len()) {
            ws
        } else {
            shrink(ws.update(j, (ws[j] - 1) as nat), mins, (over - 1) as nat)
        }
    }
}

/// Final column widths: natural widths expanded to fill the terminal
/// exactly, or shrunk towards the per-column minima until the grid fits.
pub open spec fn fit_widths(nats: Seq<nat>, mins: Seq<nat>, t: nat) -> Seq<nat> {
    let total = widths_total(nats);
    if total <= t {
        expand(nats, (t - total) as nat)
    } else {
        shrink(nats, mins, (total - t) as nat)
    }
}

/// The chosen index of `min_idx_from` stays in bounds.
pub proof fn lemma_min_idx_bounds(ws: Seq<nat>, i: int, best: int)
    requires
        0 <= best < ws.len(),
    ensures
        0 <= min_idx_from(ws, i, best) < ws.len(),
    decreases ws.len() - i,
{
    if 0 <= i < ws.len() {
        if ws[i] < ws[best] {
            lemma_min_idx_bounds(ws, i + 1, i);
        } else {
            lemma_min_idx_bounds(ws, i + 1, best);
        }
    }
}

/// Updating one width moves the grid width by the same amount.
pub proof fn lemma_widths_total_from_update(ws: Seq<nat>, j: int, v: nat, k: int)
    requires
        0 <= j < ws.len(),
        0 <= k,
    ensures
        widths_total_from(ws.update(j, v), k) == if k <= j {
            widths_total_from(ws, k) - ws[j] + v
        } else {
            widths_total_from(ws, k) as int
        },
    decreases ws.len() - k,
{
    if k < ws.len() {
        lemma_widths_total_from_update(ws, j, v, k + 1);
    }
}

/// Expanding by `extra` grows the grid width by exactly `extra`.
pub proof fn lemma_expand_total(ws: Seq<nat>, extra: nat)
    requires
        ws.len() > 0,
    ensures
        widths_total(expand(ws, extra)) == widths_total(ws) + extra,
        expand(ws, extra).len() == ws.len(),
    decreases extra,
{
    if extra > 0 {
        lemma_min_idx_bounds(ws, 1, 0);
        let j = min_idx(ws);
        let ws2 = ws.update(j, (ws[j] + 1) as nat);
        lemma_widths_total_from_update(ws, j, (ws[j] + 1) as nat, 0);
        lemma_expand_total(ws2, (extra - 1) as nat);
    }
}

/// Expansion never narrows a column.
pub proof fn lemma_expand_ge(ws: Seq<nat>, extra: nat, j: int)
    requires
        0 <= j < ws.len(),
    ensures
        expand(ws, extra).len() == ws.len(),
        expand(ws, extra)[j] >= ws[j],
    decreases extra,
{
    if extra > 0 && ws.len() > 0 {
        let m = min_idx(ws);
        lemma_min_idx_bounds(ws, 1, 0);
        lemma_expand_ge(ws.update(m, (ws[m] + 1) as nat), (extra - 1) as nat, j);
    }
}

/// When no column can shrink, every width sits at its minimum.
pub proof fn lemma_shrink_idx_none(ws: Seq<nat>, mins: Seq<nat>, i: int, best: int)
    requires
        0 <= i,
        shrink_idx_from(ws, mins, i, best) == -1,
        best == -1,
    ensures
        forall|j: int| i <= j < ws.len() ==> !(#[trigger] ws[j] > mins[j]),
    decreases ws.len() - i,
{
    if 0 <= i < ws.len() {
        if ws[i] > mins[i] {
            assert(shrink_idx_from(ws, mins, i, best) == shrink_idx_from(ws, mins, i + 1, i));
            lemma_shrink_idx_some(ws, mins, i + 1, i);
            assert(false);
        } else {
            assert(shrink_idx_from(ws, mins, i, best) == shrink_idx_from(ws, mins, i + 1, -1));
            lemma_shrink_idx_none(ws, mins, i + 1, -1);
            assert forall|j: int| i <= j < ws.len() implies !(#[trigger] ws[j] > mins[j]) by {
                if j != i {
                    assert(i + 1 <= j < ws.len());
                }
            }
        }
    }
}

/// A candidate already found keeps the choice in bounds and above its
/// minimum.
pub proof fn lemma_shrink_idx_some(ws: Seq<nat>, mins: Seq<nat>, i: int, best: int)
    requires
        0 <= best < ws.len(),
        ws[best] > mins[best],
    ensures
        ({
            let r = shrink_idx_from(ws, mins, i, best);
            0 <= r < ws.len() && ws[r] > mins[r]
        }),
    decreases ws.len() - i,
{
    if 0 <= i < ws.len() {
        if ws[i] > mins[i] && ws[i] > ws[best] {
            lemma_shrink_idx_some(ws, mins, i + 1, i);
        } else {
            lemma_shrink_idx_some(ws, mins, i + 1, best);
        }
    }
}

/// The shrink choice is either `-1` with every column at its minimum, or a
/// column in bounds that is above its minimum.
pub proof fn lemma_shrink_idx(ws: Seq<nat>, mins: Seq<nat>)
    ensures
        ({
            let r = shrink_idx(ws, mins);
            (r == -1 && forall|j: int| 0 <= j < ws.len() ==> !(#[trigger] ws[j] > mins[j])) || (0
                <= r < ws.len() && ws[r] > mins[r])
        }),
    decreases ws.len(),
{
    let r = shrink_idx(ws, mins);
    if r == -1 {
        lemma_shrink_idx_none(ws, mins, 0, -1);
    } else {
        lemma_shrink_idx_helper(ws, mins, 0, -1);
    }
}

/// The choice of `shrink_idx_from` is `-1` or in bounds and above minimum.
pub proof fn lemma_shrink_idx_helper(ws: Seq<nat>, mins: Seq<nat>, i: int, best: int)
    requires
        best == -1 || (0 <= best < ws.len() && ws[best] > mins[best]),
    ensures
        ({
            let r = shrink_idx_from(ws, mins, i, best);
            r == -1 || (0 <= r < ws.len() && ws[r] > mins[r])
        }),
    decreases ws.len() - i,
{
    if 0 <= i < ws.len() {
        let better = if best == -1 {
            ws[i] > mins[i]
        } else {
            ws[i] > mins[i] && 0 <= best < ws.len() && ws[i] > ws[best]
        };
        if better {
            lemma_shrink_idx_helper(ws, mins, i + 1, i);
        } else {
            lemma_shrink_idx_helper(ws, mins, i + 1, best);
        }
    }
}

/// Shrinking stays between the minima and the starting widths, and either
/// removes exactly `over` columns of width or ends with every column at its
/// minimum.
pub proof fn lemma_shrink(ws: Seq<nat>, mins: Seq<nat>, over: nat)
    requires
        ws.len() == mins.len(),
        forall|j: int| 0 <= j < ws.len() ==> #[trigger] ws[j] >= mins[j],
    ensures
        ({
            let r = shrink(ws, mins, over);
            r.len() == ws.len() && (forall|j: int|
                0 <= j < r.len() ==> mins[j] <= #[trigger] r[j] <= ws[j]) && (widths_total(r)
                == widths_total(ws) - over || (forall|j: int|
                0 <= j < r.len() ==> #[trigger] r[j] == mins[j]))
        }),
    decreases over,
{
    if over > 0 {
        lemma_shrink_idx(ws, mins);
        let j = shrink_idx(ws, mins);
        if j == -1 {
            assert forall|k: int| 0 <= k < ws.len() implies #[trigger] ws[k] == mins[k] by {
                assert(!(ws[k] > mins[k]));
            }
        } else {
            let ws2 = ws.update(j, (ws[j] - 1) as nat);
            lemma_widths_total_from_update(ws, j, (ws[j] - 1) as nat, 0);
            lemma_shrink(ws2, mins, (over - 1) as nat);
        }
    }
}

/// The grid is always at least as wide as any one column plus its borders.
pub proof fn lemma_widths_total_from_ge(ws: Seq<nat>, k: int, j: int)
    requires
        k <= j < ws.len(),
        0 <= k,
    ensures
        widths_total_from(ws, k) >= ws[j] + 3,
    decreases j - k,
{
    if k < j {
        lemma_widths_total_from_ge(ws, k + 1, j);
    }
}

/// Line `k` of a wrapped cell: the wrapped line when there is one, an empty
/// continuation otherwise.
pub open spec fn cell_line(cell: Seq<char>, w: nat, k: int) -> Seq<char> {
    let lines = wrap_cell(cell, w);
    if 0 <= k < lines.len() {
        lines[k]
    } else {
        Seq::<char>::empty()
    }
}

/// The number of visual lines of the cells of `row` from column `j` on, at
/// least 1.
pub open spec fn row_height_from(row: Seq<Seq<char>>, ws: Seq<nat>, j: int) -> nat
    decreases row.len() - j,
{
    if j < 0 || j >= row.len() {
        1
    } else {
        let h = wrap_cell(row[j], ws[j]).len();
        let rest = row_height_from(row, ws, j + 1);
        if h >= rest {
            h
        } else {
            rest
        }
    }
}

/// The number of visual lines one logical row occupies.
pub open spec fn row_height(row: Seq<Seq<char>>, ws: Seq<nat>) -> nat {
    row_height_from(row, ws, 0)
}

/// The columns of visual line `k` of a row, from column `j` on: per column a
/// padding blank, the cell content padded to the column width, a padding
/// blank and a border character.
pub open spec fn line_cols(row: Seq<Seq<char>>, ws: Seq<nat>, k: int, j: int) -> Seq<char>
    decreases ws.len() - j,
{
    if j < 0 || j >= ws.len() {
        Seq::<char>::empty()
    } else {
        seq![' '] + pad_right(cell_line(row[j], ws[j], k), ws[j], ' ') + seq![' ', '|'] + line_cols(
            row,
            ws,
            k,
            j + 1,
        )
    }
}

/// Visual line `k` of one logical row.
pub open spec fn row_line(row: Seq<Seq<char>>, ws: Seq<nat>, k: int) -> Seq<char> {
    seq!['|'] + line_cols(row, ws, k, 0)
}

/// All visual lines of one logical row.
pub open spec fn row_lines(row: Seq<Seq<char>>, ws: Seq<nat>) -> Seq<Seq<char>> {
    Seq::new(row_height(row, ws), |k: int| row_line(row, ws, k))
}

/// The horizontal rule from column `j` on: per column a dash-filled segment
/// as wide as the padded content, closed by a corner character.
pub open spec fn rule_cols(ws: Seq<nat>, j: int) -> Seq<char>
    decreases ws.len() - j,
{
    if j < 0 || j >= ws.len() {
        Seq::<char>::empty()
    } else {
        char_repeat('-', (ws[j] + 2) as nat) + seq!['+'] + rule_cols(ws, j + 1)
    }
}

/// A full horizontal rule.
pub open spec fn rule_line(ws: Seq<nat>) -> Seq<char> {
    seq!['+'] + rule_cols(ws, 0)
}

/// The visual lines of all logical rows, in order.
pub open spec fn rows_lines(rows: Seq<Seq<Seq<char>>>, ws: Seq<nat>) -> Seq<Seq<char>>
    decreases rows.len(),
{
    if rows.len() == 0 {
        Seq::<Seq<char>>::empty()
    } else {
        row_lines(rows[0], ws) + rows_lines(rows.drop_first(), ws)
    }
}

/// Every line of the rendered table: a perimeter rule, the header lines, a
/// rule separating the header from the data rows, the data rows' lines, and
/// a closing perimeter rule.
pub open spec fn table_lines(header: Seq<Seq<char>>, rows: Seq<Seq<Seq<char>>>, ws: Seq<nat>) -> Seq<
    Seq<char>,
> {
    seq![rule_line(ws)] + row_lines(header, ws) + seq![rule_line(ws)] + rows_lines(rows, ws) + seq![
        rule_line(ws),
    ]
}

/// The lines joined into one text, each line closed by a newline.
pub open spec fn join_lines(lines: Seq<Seq<char>>) -> Seq<char>
    decreases lines.len(),
{
    if lines.len() == 0 {
        Seq::<char>::empty()
    } else {
        lines[0] + seq!['\n'] + join_lines(lines.drop_first())
    }
}

/// The final column widths the engine chooses for a table: truncation rules
/// first, then natural widths fitted to the terminal width against the
/// per-column minima.
pub open spec fn chosen_widths(
    header: Seq<Seq<char>>,
    rows: Seq<Seq<Seq<char>>>,
    t: nat,
    caps: Seq<ColumnCap>,
) -> Seq<nat> {
    let h2 = capped_row(caps, header);
    let rows2 = capped_rows(caps, rows);
    let all = seq![h2] + rows2;
    fit_widths(natural_widths(all, header.len()), min_widths(all, header.len()), t)
}

/// The rendered table for a header row, data rows, a terminal width and
/// truncation rules.
pub open spec fn render_spec(
    header: Seq<Seq<char>>,
    rows: Seq<Seq<Seq<char>>>,
    t: nat,
    caps: Seq<ColumnCap>,
) -> Seq<char> {
    let h2 = capped_row(caps, header);
    let rows2 = capped_rows(caps, rows);
    join_lines(table_lines(h2, rows2, chosen_widths(header, rows, t, caps)))
}

/// Fitting a grid that is too wide ends exactly at the terminal width, or at
/// the minima when unbreakable tokens force a wider grid.
pub proof fn lemma_fit_shrinks(nats: Seq<nat>, mins: Seq<nat>, t: nat)
    requires
        nats.len() == mins.len(),
        forall|j: int| 0 <= j < nats.len() ==> #[trigger] nats[j] >= mins[j],
        widths_total(nats) > t,
    ensures
        ({
            let r = fit_widths(nats, mins, t);
            r.len() == nats.len() && (forall|j: int|
                0 <= j < r.len() ==> mins[j] <= #[trigger] r[j] <= nats[j]) && (widths_total(r) == t
                || (forall|j: int| 0 <= j < r.len() ==> #[trigger] r[j] == mins[j]))
        }),
{
    lemma_shrink(nats, mins, (widths_total(nats) - t) as nat);
}

/// With every unbreakable token of the row at most its column's width, the
/// columns of a visual line are exactly as wide as the grid from `j` on.
pub proof fn lemma_line_cols_len(row: Seq<Seq<char>>, ws: Seq<nat>, k: int, j: int)
    requires
        row.len() == ws.len(),
        0 <= j,
        forall|j2: int| 0 <= j2 < row.len() ==> max_token_len(#[trigger] row[j2]) <= ws[j2],
    ensures
        line_cols(row, ws, k, j).len() == widths_total_from(ws, j),
    decreases ws.len() - j,
{
    if j < ws.len() {
        crate::wrap::lemma_wrap_cell_fits(row[j], ws[j]);
        assert(cell_line(row[j], ws[j], k).len() <= ws[j]);
        lemma_line_cols_len(row, ws, k, j + 1);
    }
}

/// The rule segments are exactly as wide as the grid from `j` on.
pub proof fn lemma_rule_cols_len(ws: Seq<nat>, j: int)
    requires
        0 <= j,
    ensures
        rule_cols(ws, j).len() == widths_total_from(ws, j),
    decreases ws.len() - j,
{
    if j < ws.len() {
        lemma_rule_cols_len(ws, j + 1);
    }
}

/// Every visual line of every data row is exactly as wide as the grid.
pub proof fn lemma_rows_lines_len(rows: Seq<Seq<Seq<char>>>, ws: Seq<nat>)
    requires
        forall|i: int| 0 <= i < rows.len() ==> (#[trigger] rows[i]).len() == ws.len(),
        forall|i: int, j: int|
            0 <= i < rows.len() && 0 <= j < ws.len() ==> max_token_len(#[trigger] rows[i][j])
                <= ws[j],
    ensures
        forall|k: int|
            0 <= k < rows_lines(rows, ws).len() ==> (#[trigger] rows_lines(rows, ws)[k]).len()
                == widths_total(ws),
    decreases rows.len(),
{
    if rows.len() > 0 {
        let first = rows[0];
        let rest = rows.drop_first();
        assert forall|i: int, j: int|
            0 <= i < rest.len() && 0 <= j < ws.len() implies max_token_len(#[trigger] rest[i][j])
            <= ws[j] by {
            assert(rest[i] == rows[i + 1]);
        }
        lemma_rows_lines_len(rest, ws);
        assert forall|k: int|
            0 <= k < rows_lines(rows, ws).len() implies (#[trigger] rows_lines(rows, ws)[k]).len()
            == widths_total(ws) by {
            let h = row_lines(first, ws).len();
            if k < h {
                assert(rows_lines(rows, ws)[k] == row_lines(first, ws)[k]);
                lemma_line_cols_len(first, ws, k, 0);
            } else {
                assert(rows_lines(rows, ws)[k] == rows_lines(rest, ws)[k - h]);
            }
        }
    }
}

/// Every line of the rendered table is exactly as wide as the grid, provided
/// every unbreakable token fits its column.
pub proof fn lemma_table_lines_len(header: Seq<Seq<char>>, rows: Seq<Seq<Seq<char>>>, ws: Seq<nat>)
    requires
        header.len() == ws.len(),
        forall|i: int| 0 <= i < rows.len() ==> (#[trigger] rows[i]).len() == ws.len(),
        forall|j: int| 0 <= j < ws.len() ==> max_token_len(#[trigger] header[j]) <= ws[j],
        forall|i: int, j: int|
            0 <= i < rows.len() && 0 <= j < ws.len() ==> max_token_len(#[trigger] rows[i][j])
                <= ws[j],
    ensures
        forall|k: int|
            0 <= k < table_lines(header, rows, ws).len() ==> (#[trigger] table_lines(
                header,
                rows,
                ws,
            )[k]).len() == widths_total(ws),
{
    lemma_rows_lines_len(rows, ws);
    lemma_rule_cols_len(ws, 0);
    let lines = table_lines(header, rows, ws);
    let hh = row_lines(header, ws).len();
    let dh = rows_lines(rows, ws).len();
    assert forall|k: int| 0 <= k < lines.len() implies (#[trigger] lines[k]).len() == widths_total(
        ws,
    ) by {
        if k == 0 {
            assert(lines[k] == rule_line(ws));
        } else if k < 1 + hh {
            assert(lines[k] == row_lines(header, ws)[k - 1]);
            lemma_line_cols_len(header, ws, k - 1, 0);
        } else if k == 1 + hh {
            assert(lines[k] == rule_line(ws));
        } else if k < 2 + hh + dh {
            assert(lines[k] == rows_lines(rows, ws)[k - 2 - hh]);
        } else {
            assert(lines[k] == rule_line(ws));
        }
    }
}

/// A column's longest token is never longer than its longest cell.
pub proof fn lemma_col_token_le_len(rows: Seq<Seq<Seq<char>>>, j: int)
    ensures
        col_max_token(rows, j) <= col_max_len(rows, j),
    decreases rows.len(),
{
    if rows.len() > 0 {
        crate::wrap::lemma_max_token_le_len(rows.last()[j]);
        lemma_col_token_le_len(rows.drop_last(), j);
    }
}

/// Every cell's longest token is bounded by the column's longest token.
pub proof fn lemma_col_token_ge(rows: Seq<Seq<Seq<char>>>, i: int, j: int)
    requires
        0 <= i < rows.len(),
    ensures
        max_token_len(rows[i][j]) <= col_max_token(rows, j),
    decreases rows.len(),
{
    if i < rows.len() - 1 {
        lemma_col_token_ge(rows.drop_last(), i, j);
        assert(rows.drop_last()[i] == rows[i]);
    }
}

/// Shape and token bounds that both terminal-width laws need: the chosen
/// widths sit above every column's longest token.
proof fn lemma_chosen_widths_dominate_tokens(
    header: Seq<Seq<char>>,
    rows: Seq<Seq<Seq<char>>>,
    ws: Seq<nat>,
)
    requires
        forall|i: int| 0 <= i < rows.len() ==> (#[trigger] rows[i]).len() == header.len(),
        ws.len() == header.len(),
        forall|j: int|
            0 <= j < ws.len() ==> min_widths(seq![header] + rows, header.len())[j] <= #[trigger] ws[j],
    ensures
        forall|j: int| 0 <= j < ws.len() ==> max_token_len(#[trigger] header[j]) <= ws[j],
        forall|i: int, j: int|
            0 <= i < rows.len() && 0 <= j < ws.len() ==> max_token_len(#[trigger] rows[i][j])
                <= ws[j],
{
    let all = seq![header] + rows;
    assert forall|j: int| 0 <= j < ws.len() implies max_token_len(#[trigger] header[j])
        <= ws[j] by {
        lemma_col_token_ge(all, 0, j);
        assert(all[0] == header);
    }
    assert forall|i: int, j: int|
        0 <= i < rows.len() && 0 <= j < ws.len() implies max_token_len(#[trigger] rows[i][j])
        <= ws[j] by {
        lemma_col_token_ge(all, i + 1, j);
        assert(all[i + 1] == rows[i]);
    }
}

/// A table whose natural grid already fits the terminal is expanded to fill
/// it exactly: every rendered line is exactly `t` characters wide.
pub proof fn lemma_render_fills_terminal(
    header: Seq<Seq<char>>,
    rows: Seq<Seq<Seq<char>>>,
    t: nat,
    caps: Seq<ColumnCap>,
)
    requires
        header.len() > 0,
        forall|i: int| 0 <= i < rows.len() ==> (#[trigger] rows[i]).len() == header.len(),
        ({
            let all = seq![capped_row(caps, header)] + capped_rows(caps, rows);
            widths_total(natural_widths(all, header.len())) <= t
        }),
    ensures
        ({
            let h2 = capped_row(caps, header);
            let rows2 = capped_rows(caps, rows);
            let lines = table_lines(h2, rows2, chosen_widths(header, rows, t, caps));
            forall|k: int| 0 <= k < lines.len() ==> (#[trigger] lines[k]).len() == t
        }),
{
    let h2 = capped_row(caps, header);
    let rows2 = capped_rows(caps, rows);
    let all = seq![h2] + rows2;
    let n = header.len();
    let nats = natural_widths(all, n);
    let mins = min_widths(all, n);
    let ws = chosen_widths(header, rows, t, caps);
    lemma_expand_total(nats, (t - widths_total(nats)) as nat);
    assert forall|j: int| 0 <= j < ws.len() implies mins[j] <= #[trigger] ws[j] by {
        lemma_expand_ge(nats, (t - widths_total(nats)) as nat, j);
        lemma_col_token_le_len(all, j);
    }
    assert forall|i: int| 0 <= i < rows2.len() implies (#[trigger] rows2[i]).len() == n by {
        assert(rows2[i] == capped_row(caps, rows[i]));
    }
    lemma_chosen_widths_dominate_tokens(h2, rows2, ws);
    lemma_table_lines_len(h2, rows2, ws);
}

/// A table whose natural grid is too wide is shrunk so that no rendered line
/// exceeds the terminal width, except when the columns' unbreakable tokens
/// force a wider grid; then every column sits at its minimum and the table
/// renders at its minimum feasible width.
pub proof fn lemma_render_respects_terminal(
    header: Seq<Seq<char>>,
    rows: Seq<Seq<Seq<char>>>,
    t: nat,
    caps: Seq<ColumnCap>,
)
    requires
        header.len() > 0,
        forall|i: int| 0 <= i < rows.len() ==> (#[trigger] rows[i]).len() == header.len(),
        ({
            let all = seq![capped_row(caps, header)] + capped_rows(caps, rows);
            widths_total(natural_widths(all, header.len())) > t
        }),
    ensures
        ({
            let h2 = capped_row(caps, header);
            let rows2 = capped_rows(caps, rows);
            let all = seq![h2] + rows2;
            let ws = chosen_widths(header, rows, t, caps);
            let lines = table_lines(h2, rows2, ws);
            (forall|k: int| 0 <= k < lines.len() ==> (#[trigger] lines[k]).len() <= t) || (forall|
                j: int,
            |
                0 <= j < ws.len() ==> #[trigger] ws[j] == min_widths(all, header.len())[j])
        }),
{
    let h2 = capped_row(caps, header);
    let rows2 = capped_rows(caps, rows);
    let all = seq![h2] + rows2;
    let n = header.len();
    let nats = natural_widths(all, n);
    let mins = min_widths(all, n);
    let ws = chosen_widths(header, rows, t, caps);
    assert forall|j: int| 0 <= j < nats.len() implies #[trigger] nats[j] >= mins[j] by {
        lemma_col_token_le_len(all, j);
    }
    lemma_fit_shrinks(nats, mins, t);
    assert forall|i: int| 0 <= i < rows2.len() implies (#[trigger] rows2[i]).len() == n by {
        assert(rows2[i] == capped_row(caps, rows[i]));
    }
    lemma_chosen_widths_dominate_tokens(h2, rows2, ws);
    lemma_table_lines_len(h2, rows2, ws);
}

/// The cap configured for a column: the first rule naming it.
fn find_cap(caps: &Vec<ColumnCap>, col: usize) -> (r: Option<usize>)
    ensures
        match r {
            Option::Some(c) => cap_for(caps@, col as int) == Option::Some(c as nat),
            Option::None => cap_for(caps@, col as int) is None,
        },
{
    let n = caps.len();
    proof {
        assert(caps@.subrange(0, n as int) =~= caps@);
    }
    let mut i: usize = 0;
    while i < n
        invariant
            n == caps@.len(),
            i <= n,
            cap_for(caps@, col as int) == cap_for(caps@.subrange(i as int, n as int), col as int),
        decreases n - i,
    {
        proof {
            assert(caps@.subrange(i as int, n as int)[0] == caps@[i as int]);
            assert(caps@.subrange(i as int, n as int).drop_first() =~= caps@.subrange(
                i + 1,
                n as int,
            ));
        }
        if caps[i].column == col {
            return Option::Some(caps[i].cap);
        }
        i = i + 1;
    }
    proof {
        assert(caps@.subrange(n as int, n as int) =~= Seq::<ColumnCap>::empty());
    }
    Option::None
}

/// One row of cells, as characters, with the truncation rules applied.
fn capped_cells_row(row: &Vec<String>, caps: &Vec<ColumnCap>) -> (r: Vec<Vec<char>>)
    ensures
        chars_view(r@) == capped_row(caps@, strs_view(row@)),
{
    let n = row.len();
    let mut r: Vec<Vec<char>> = Vec::new();
    let mut j: usize = 0;
    while j < n
        invariant
            n == row@.len(),
            j <= n,
            r@.len() == j,
            forall|j2: int|
                0 <= j2 < j ==> (#[trigger] r@[j2])@ == capped_row(caps@, strs_view(row@))[j2],
        decreases n - j,
    {
        let cell = str_chars(row[j].as_str());
        let capped = match find_cap(caps, j) {
            Option::Some(c) => truncate_cell_chars(&cell, c),
            Option::None => cell,
        };
        r.push(capped);
        j = j + 1;
    }
    proof {
        assert(chars_view(r@) =~= capped_row(caps@, strs_view(row@)));
    }
    r
}

/// All data rows, as characters, with the truncation rules applied.
fn capped_cells(rows: &Vec<Vec<String>>, caps: &Vec<ColumnCap>) -> (r: Vec<Vec<Vec<char>>>)
    ensures
        char_matrix_view(r@) == capped_rows(caps@, str_matrix_view(rows@)),
        r@.len() == rows@.len(),
        forall|i: int| 0 <= i < r@.len() ==> (#[trigger] r@[i])@.len() == rows@[i]@.len(),
{
    let n = rows.len();
    let mut r: Vec<Vec<Vec<char>>> = Vec::new();
    let mut i: usize = 0;
    while i < n
        invariant
            n == rows@.len(),
            i <= n,
            r@.len() == i,
            forall|i2: int|
                0 <= i2 < i ==> chars_view((#[trigger] r@[i2])@) == capped_rows(
                    caps@,
                    str_matrix_view(rows@),
                )[i2],
            forall|i2: int| 0 <= i2 < i ==> (#[trigger] r@[i2])@.len() == rows@[i2]@.len(),
        decreases n - i,
    {
        let row = capped_cells_row(&rows[i], caps);
        proof {
            assert(strs_view(rows@[i as int]@) == str_matrix_view(rows@)[i as int]);
            assert(chars_view(row@).len() == strs_view(rows@[i as int]@).len());
        }
        r.push(row);
        i = i + 1;
    }
    proof {
        assert(char_matrix_view(r@) =~= capped_rows(caps@, str_matrix_view(rows@)));
    }
    r
}

/// The natural and minimum width of every column over the header row and the
/// data rows.
fn column_widths(h2: &Vec<Vec<char>>, rows2: &Vec<Vec<Vec<char>>>) -> (r: (Vec<usize>, Vec<usize>))
    requires
        forall|i: int| 0 <= i < rows2@.len() ==> (#[trigger] rows2@[i])@.len() == h2@.len(),
    ensures
        ({
            let all = seq![chars_view(h2@)] + char_matrix_view(rows2@);
            let ncols = h2@.len();
            usizes(r.0@) == natural_widths(all, ncols) && usizes(r.1@) == min_widths(all, ncols)
        }),
{
    let ghost all = seq![chars_view(h2@)] + char_matrix_view(rows2@);
    let ncols = h2.len();
    let nrows = rows2.len();
    let mut nats: Vec<usize> = Vec::new();
    let mut mins: Vec<usize> = Vec::new();
    let mut j: usize = 0;
    while j < ncols
        invariant
            ncols == h2@.len(),
            nrows == rows2@.len(),
            forall|i: int| 0 <= i < rows2@.len() ==> (#[trigger] rows2@[i])@.len() == h2@.len(),
            all == seq![chars_view(h2@)] + char_matrix_view(rows2@),
            j <= ncols,
            nats@.len() == j,
            mins@.len() == j,
            forall|j2: int| 0 <= j2 < j ==> (#[trigger] nats@[j2]) as nat == col_max_len(all, j2),
            forall|j2: int| 0 <= j2 < j ==> (#[trigger] mins@[j2]) as nat == col_max_token(all, j2),
        decreases ncols - j,
    {
        proof {
            assert(all.subrange(0, 1).drop_last() =~= all.subrange(0, 0));
            assert(all.subrange(0, 0) =~= Seq::<Seq<Seq<char>>>::empty());
            assert(all.subrange(0, 1).last() == all[0]);
            assert(all[0] == chars_view(h2@));
            assert(all[0][j as int] == h2@[j as int]@);
            assert(col_max_len(all.subrange(0, 0), j as int) == 0);
            assert(col_max_len(all.subrange(0, 1), j as int) == h2@[j as int]@.len());
            assert(col_max_token(all.subrange(0, 0), j as int) == 0);
            assert(col_max_token(all.subrange(0, 1), j as int) == max_token_len(h2@[j as int]@));
        }
        let mut m: usize = h2[j].len();
        let mut t: usize = max_token_len_chars(&h2[j]);
        let mut i: usize = 0;
        while i < nrows
            invariant
                ncols == h2@.len(),
                nrows == rows2@.len(),
                forall|i2: int|
                    0 <= i2 < rows2@.len() ==> (#[trigger] rows2@[i2])@.len() == h2@.len(),
                all == seq![chars_view(h2@)] + char_matrix_view(rows2@),
                j < ncols,
                i <= nrows,
                m as nat == col_max_len(all.subrange(0, i + 1), j as int),
                t as nat == col_max_token(all.subrange(0, i + 1), j as int),
            decreases nrows - i,
        {
            proof {
                assert(all.subrange(0, i + 2).drop_last() =~= all.subrange(0, i + 1));
                assert(all.subrange(0, i + 2).last() == all[i + 1]);
                assert(all[i + 1] == char_matrix_view(rows2@)[i as int]);
                assert(all[i + 1][j as int] == rows2@[i as int]@[j as int]@);
            }
            let len = rows2[i][j].len();
            let tok = max_token_len_chars(&rows2[i][j]);
            if len > m {
                m = len;
            }
            if tok > t {
                t = tok;
            }
            i = i + 1;
        }
        proof {
            assert(all.subrange(0, nrows + 1) =~= all);
        }
        nats.push(m);
        mins.push(t);
        j = j + 1;
    }
    proof {
        assert(usizes(nats@) =~= natural_widths(all, ncols as nat));
        assert(usizes(mins@) =~= min_widths(all, ncols as nat));
    }
    (nats, mins)
}

/// The grid never narrows when columns are dropped from the front.
pub proof fn lemma_widths_total_from_mono(ws: Seq<nat>, k: int, j: int)
    requires
        0 <= k <= j,
    ensures
        widths_total_from(ws, j) <= widths_total_from(ws, k),
    decreases j - k,
{
    if k < j {
        lemma_widths_total_from_mono(ws, k + 1, j);
    }
}

/// The width of the rendered grid.
fn widths_total_exec(ws: &Vec<usize>) -> (r: usize)
    requires
        widths_total(usizes(ws@)) <= usize::MAX,
    ensures
        r as nat == widths_total(usizes(ws@)),
{
    let n = ws.len();
    let mut acc: usize = 0;
    let mut j: usize = n;
    while j > 0
        invariant
            n == ws@.len(),
            j <= n,
            widths_total(usizes(ws@)) <= usize::MAX,
            acc as nat == widths_total_from(usizes(ws@), j as int),
        decreases j,
    {
        j = j - 1;
        proof {
            lemma_widths_total_from_mono(usizes(ws@), 0, j as int);
            assert(widths_total_from(usizes(ws@), j as int) == usizes(ws@)[j as int] + 3
                + widths_total_from(usizes(ws@), j + 1));
            assert(usizes(ws@)[j as int] == ws@[j as int] as nat);
        }
        acc = ws[j] + 3 + acc;
    }
    acc + 1
}

/// A copy of a width vector.
fn copy_widths(ws: &Vec<usize>) -> (r: Vec<usize>)
    ensures
        r@ == ws@,
{
    let n = ws.len();
    let mut r: Vec<usize> = Vec::new();
    let mut i: usize = 0;
    while i < n
        invariant
            n == ws@.len(),
            i <= n,
            r@ == ws@.subrange(0, i as int),
        decreases n - i,
    {
        r.push(ws[i]);
        proof {
            assert(r@ =~= ws@.subrange(0, i + 1));
        }
        i = i + 1;
    }
    proof {
        assert(r@ =~= ws@);
    }
    r
}

/// The lowest index of the narrowest column.
fn min_index(ws: &Vec<usize>) -> (r: usize)
    requires
        ws@.len() > 0,
    ensures
        r < ws@.len(),
        r as int == min_idx(usizes(ws@)),
{
    let n = ws.len();
    let mut best: usize = 0;
    let mut i: usize = 1;
    while i < n
        invariant
            n == ws@.len(),
            1 <= i <= n,
            best < i,
            min_idx(usizes(ws@)) == min_idx_from(usizes(ws@), i as int, best as int),
        decreases n - i,
    {
        proof {
            assert(usizes(ws@)[i as int] == ws@[i as int] as nat);
            assert(usizes(ws@)[best as int] == ws@[best as int] as nat);
        }
        if ws[i] < ws[best] {
            best = i;
        }
        i = i + 1;
    }
    best
}

/// The column to shrink next: the widest still above its minimum, ties to
/// the lowest index.
fn shrink_index(ws: &Vec<usize>, mins: &Vec<usize>) -> (r: Option<usize>)
    requires
        ws@.len() == mins@.len(),
    ensures
        match r {
            Option::Some(j) => j < ws@.len() && shrink_idx(usizes(ws@), usizes(mins@)) == j as int,
            Option::None => shrink_idx(usizes(ws@), usizes(mins@)) == -1,
        },
{
    let n = ws.len();
    let mut best: Option<usize> = Option::None;
    let mut i: usize = 0;
    while i < n
        invariant
            n == ws@.len(),
            n == mins@.len(),
            i <= n,
            match best {
                Option::Some(b) => b < i && shrink_idx(usizes(ws@), usizes(mins@))
                    == shrink_idx_from(usizes(ws@), usizes(mins@), i as int, b as int),
                Option::None => shrink_idx(usizes(ws@), usizes(mins@)) == shrink_idx_from(
                    usizes(ws@),
                    usizes(mins@),
                    i as int,
                    -1,
                ),
            },
        decreases n - i,
    {
        proof {
            assert(usizes(ws@)[i as int] == ws@[i as int] as nat);
            assert(usizes(mins@)[i as int] == mins@[i as int] as nat);
        }
        let better = match best {
            Option::None => ws[i] > mins[i],
            Option::Some(b) => {
                proof {
                    assert(usizes(ws@)[b as int] == ws@[b as int] as nat);
                }
                ws[i] > mins[i] && ws[i] > ws[b]
            },
        };
        if better {
            best = Option::Some(i);
        }
        i = i + 1;
    }
    best
}

/// Final column widths: the natural widths expanded to fill the terminal, or
/// shrunk towards the minima until the grid fits.
fn fit_widths_exec(nats: &Vec<usize>, mins: &Vec<usize>, t: usize) -> (r: Vec<usize>)
    requires
        nats@.len() == mins@.len(),
        widths_total(usizes(nats@)) <= usize::MAX,
        forall|j: int| 0 <= j < nats@.len() ==> #[trigger] mins@[j] <= nats@[j],
    ensures
        usizes(r@) == fit_widths(usizes(nats@), usizes(mins@), t as nat),
        r@.len() == nats@.len(),
        widths_total(usizes(r@)) <= usize::MAX,
{
    let ghost nats0 = usizes(nats@);
    let ghost mins0 = usizes(mins@);
    let total = widths_total_exec(nats);
    let mut ws = copy_widths(nats);
    if nats.len() == 0 {
        return ws;
    }
    if total <= t {
        let extra = t - total;
        let mut k: usize = 0;
        while k < extra
            invariant
                ws@.len() == nats0.len() > 0,
                k <= extra,
                expand(nats0, extra as nat) == expand(usizes(ws@), (extra - k) as nat),
                widths_total(usizes(ws@)) == widths_total(nats0) + k,
                widths_total(nats0) + extra <= usize::MAX,
            decreases extra - k,
        {
            let j = min_index(&ws);
            proof {
                lemma_widths_total_from_ge(usizes(ws@), 0, j as int);
                assert(usizes(ws@)[j as int] == ws@[j as int] as nat);
                lemma_widths_total_from_update(
                    usizes(ws@),
                    j as int,
                    (ws@[j as int] + 1) as nat,
                    0,
                );
            }
            let ghost before = usizes(ws@);
            let v = ws[j];
            ws[j] = v + 1;
            proof {
                assert(usizes(ws@) =~= before.update(j as int, (v + 1) as nat));
            }
            k = k + 1;
        }
        proof {
            assert(expand(usizes(ws@), 0) == usizes(ws@));
        }
        ws
    } else {
        let over = total - t;
        let mut k: usize = 0;
        let mut done = false;
        while k < over && !done
            invariant
                ws@.len() == nats0.len(),
                mins@.len() == nats0.len(),
                mins0 == usizes(mins@),
                k <= over,
                shrink(nats0, mins0, over as nat) == if done {
                    usizes(ws@)
                } else {
                    shrink(usizes(ws@), mins0, (over - k) as nat)
                },
                forall|j: int| 0 <= j < ws@.len() ==> #[trigger] mins@[j] <= ws@[j],
                widths_total(usizes(ws@)) <= widths_total(nats0),
            decreases over - k, (if done { 0int } else { 1int }),
        {
            match shrink_index(&ws, mins) {
                Option::None => {
                    done = true;
                },
                Option::Some(j) => {
                    proof {
                        crate::table::lemma_shrink_idx(usizes(ws@), mins0);
                        assert(usizes(ws@)[j as int] == ws@[j as int] as nat);
                        assert(usizes(mins@)[j as int] == mins@[j as int] as nat);
                        lemma_widths_total_from_update(
                            usizes(ws@),
                            j as int,
                            (ws@[j as int] - 1) as nat,
                            0,
                        );
                    }
                    let ghost before = usizes(ws@);
                    let v = ws[j];
                    ws[j] = v - 1;
                    proof {
                        assert(usizes(ws@) =~= before.update(j as int, (v - 1) as nat));
                    }
                    k = k + 1;
                },
            }
        }
        proof {
            if !done {
                assert(shrink(usizes(ws@), mins0, 0) == usizes(ws@));
            }
        }
        ws
    }
}

/// Joining distributes over concatenation of line sequences.
pub proof fn lemma_join_lines_app(a: Seq<Seq<char>>, b: Seq<Seq<char>>)
    ensures
        join_lines(a + b) == join_lines(a) + join_lines(b),
    decreases a.len(),
{
    if a.len() == 0 {
        assert(a + b =~= b);
        assert(join_lines(a) + join_lines(b) =~= join_lines(b));
    } else {
        assert((a + b).drop_first() =~= a.drop_first() + b);
        assert((a + b)[0] == a[0]);
        lemma_join_lines_app(a.drop_first(), b);
        assert(a[0] + seq!['\n'] + (join_lines(a.drop_first()) + join_lines(b)) =~= (a[0]
            + seq!['\n'] + join_lines(a.drop_first())) + join_lines(b));
    }
}

/// Appending one logical row appends exactly its visual lines.
pub proof fn lemma_rows_lines_push(rows: Seq<Seq<Seq<char>>>, r: Seq<Seq<char>>, ws: Seq<nat>)
    ensures
        rows_lines(rows.push(r), ws) == rows_lines(rows, ws) + row_lines(r, ws),
    decreases rows.len(),
{
    if rows.len() == 0 {
        assert(rows.push(r)[0] == r);
        assert(rows.push(r).drop_first() =~= Seq::<Seq<Seq<char>>>::empty());
        assert(rows_lines(rows.push(r), ws) == row_lines(r, ws) + rows_lines(
            rows.push(r).drop_first(),
            ws,
        ));
        assert(rows_lines(Seq::<Seq<Seq<char>>>::empty(), ws) == Seq::<Seq<char>>::empty());
        assert(rows_lines(rows.push(r), ws) =~= rows_lines(rows, ws) + row_lines(r, ws));
    } else {
        assert(rows.push(r)[0] == rows[0]);
        assert(rows.push(r).drop_first() =~= rows.drop_first().push(r));
        lemma_rows_lines_push(rows.drop_first(), r, ws);
        assert(row_lines(rows[0], ws) + (rows_lines(rows.drop_first(), ws) + row_lines(r, ws)) =~= (
        row_lines(rows[0], ws) + rows_lines(rows.drop_first(), ws)) + row_lines(r, ws));
    }
}

/// Appends one line and its closing newline.
fn emit_line(out: &mut Vec<char>, line: &Vec<char>)
    ensures
        final(out)@ == old(out)@ + line@ + seq!['\n'],
{
    push_all(out, line);
    out.push('\n');
    proof {
        assert(out@ =~= old(out)@ + line@ + seq!['\n']);
    }
}

/// A full horizontal rule.
fn rule_line_exec(ws: &Vec<usize>) -> (r: Vec<char>)
    requires
        widths_total(usizes(ws@)) <= usize::MAX,
    ensures
        r@ == rule_line(usizes(ws@)),
{
    let n = ws.len();
    let mut r: Vec<char> = Vec::new();
    r.push('+');
    proof {
        assert(r@ =~= seq!['+']);
    }
    let mut j: usize = 0;
    while j < n
        invariant
            n == ws@.len(),
            j <= n,
            widths_total(usizes(ws@)) <= usize::MAX,
            r@ + rule_cols(usizes(ws@), j as int) == rule_line(usizes(ws@)),
        decreases n - j,
    {
        proof {
            lemma_widths_total_from_ge(usizes(ws@), 0, j as int);
            lemma_widths_total_from_mono(usizes(ws@), 0, j as int);
            assert(usizes(ws@)[j as int] == ws@[j as int] as nat);
        }
        let seg = repeat_chars('-', ws[j] + 2);
        push_all(&mut r, &seg);
        r.push('+');
        proof {
            assert(r@ + rule_cols(usizes(ws@), j + 1) =~= rule_line(usizes(ws@)));
        }
        j = j + 1;
    }
    proof {
        assert(r@ =~= rule_line(usizes(ws@)));
    }
    r
}

/// Every cell of one logical row, wrapped at its column's width.
fn wrap_row(row: &Vec<Vec<char>>, ws: &Vec<usize>) -> (r: Vec<Vec<Vec<char>>>)
    requires
        row@.len() == ws@.len(),
    ensures
        r@.len() == row@.len(),
        forall|j: int|
            0 <= j < r@.len() ==> chars_view((#[trigger] r@[j])@) == wrap_cell(
                row@[j]@,
                usizes(ws@)[j],
            ),
{
    let n = row.len();
    let mut r: Vec<Vec<Vec<char>>> = Vec::new();
    let mut j: usize = 0;
    while j < n
        invariant
            n == row@.len(),
            n == ws@.len(),
            j <= n,
            r@.len() == j,
            forall|j2: int|
                0 <= j2 < j ==> chars_view((#[trigger] r@[j2])@) == wrap_cell(
                    row@[j2]@,
                    usizes(ws@)[j2],
                ),
        decreases n - j,
    {
        proof {
            assert(usizes(ws@)[j as int] == ws@[j as int] as nat);
        }
        let lines = wrap_cell_chars(&row[j], ws[j]);
        r.push(lines);
        j = j + 1;
    }
    r
}

/// Visual line `k` of one logical row, from its wrapped cells.
fn build_row_line(
    wrapped: &Vec<Vec<Vec<char>>>,
    ws: &Vec<usize>,
    k: usize,
    Ghost(rowv): Ghost<Seq<Seq<char>>>,
) -> (r: Vec<char>)
    requires
        wrapped@.len() == ws@.len(),
        rowv.len() == ws@.len(),
        forall|j: int|
            0 <= j < wrapped@.len() ==> chars_view((#[trigger] wrapped@[j])@) == wrap_cell(
                rowv[j],
                usizes(ws@)[j],
            ),
    ensures
        r@ == row_line(rowv, usizes(ws@), k as int),
{
    let n = ws.len();
    let mut r: Vec<char> = Vec::new();
    r.push('|');
    proof {
        assert(r@ =~= seq!['|']);
    }
    let mut j: usize = 0;
    while j < n
        invariant
            n == ws@.len(),
            n == wrapped@.len(),
            rowv.len() == n,
            forall|j2: int|
                0 <= j2 < wrapped@.len() ==> chars_view((#[trigger] wrapped@[j2])@) == wrap_cell(
                    rowv[j2],
                    usizes(ws@)[j2],
                ),
            j <= n,
            r@ + line_cols(rowv, usizes(ws@), k as int, j as int) == row_line(
                rowv,
                usizes(ws@),
                k as int,
            ),
        decreases n - j,
    {
        proof {
            assert(usizes(ws@)[j as int] == ws@[j as int] as nat);
        }
        r.push(' ');
        let padded = if k < wrapped[j].len() {
            proof {
                assert(wrapped@[j as int]@[k as int]@ == chars_view(wrapped@[j as int]@)[k as int]);
                assert(cell_line(rowv[j as int], usizes(ws@)[j as int], k as int) == wrap_cell(
                    rowv[j as int],
                    usizes(ws@)[j as int],
                )[k as int]);
            }
            pad_right_chars(&wrapped[j][k], ws[j], ' ')
        } else {
            proof {
                assert(cell_line(rowv[j as int], usizes(ws@)[j as int], k as int)
                    =~= Seq::<char>::empty());
                assert(pad_right(Seq::<char>::empty(), ws@[j as int] as nat, ' ') =~= char_repeat(
                    ' ',
                    ws@[j as int] as nat,
                ));
            }
            repeat_chars(' ', ws[j])
        };
        push_all(&mut r, &padded);
        r.push(' ');
        r.push('|');
        proof {
            assert(r@ + line_cols(rowv, usizes(ws@), k as int, j + 1) =~= row_line(
                rowv,
                usizes(ws@),
                k as int,
            ));
        }
        j = j + 1;
    }
    proof {
        assert(r@ =~= row_line(rowv, usizes(ws@), k as int));
    }
    r
}

/// Appends every visual line of one logical row.
fn emit_row_lines(out: &mut Vec<char>, row: &Vec<Vec<char>>, ws: &Vec<usize>)
    requires
        row@.len() == ws@.len(),
    ensures
        final(out)@ == old(out)@ + join_lines(row_lines(chars_view(row@), usizes(ws@))),
{
    let ghost rowv = chars_view(row@);
    let ghost wsv = usizes(ws@);
    let wrapped = wrap_row(row, ws);
    proof {
        assert forall|j: int| 0 <= j < wrapped@.len() implies chars_view(
            (#[trigger] wrapped@[j])@,
        ) == wrap_cell(rowv[j], wsv[j]) by {
            assert(row@[j]@ == rowv[j]);
        }
    }
    let n = ws.len();
    let mut h: usize = 1;
    let mut j: usize = n;
    while j > 0
        invariant
            n == ws@.len(),
            n == wrapped@.len(),
            rowv.len() == n,
            wsv == usizes(ws@),
            forall|j2: int|
                0 <= j2 < wrapped@.len() ==> chars_view((#[trigger] wrapped@[j2])@) == wrap_cell(
                    rowv[j2],
                    wsv[j2],
                ),
            j <= n,
            h as nat == row_height_from(rowv, wsv, j as int),
        decreases j,
    {
        j = j - 1;
        let len = wrapped[j].len();
        proof {
            assert(wrap_cell(rowv[j as int], wsv[j as int]).len() == chars_view(
                wrapped@[j as int]@,
            ).len());
        }
        if len > h {
            h = len;
        }
    }
    let ghost lines = row_lines(rowv, wsv);
    proof {
        assert(h as nat == row_height(rowv, wsv));
        assert(lines.subrange(0, 0) =~= Seq::<Seq<char>>::empty());
    }
    let mut k: usize = 0;
    while k < h
        invariant
            n == ws@.len(),
            n == wrapped@.len(),
            rowv.len() == n,
            wsv == usizes(ws@),
            forall|j2: int|
                0 <= j2 < wrapped@.len() ==> chars_view((#[trigger] wrapped@[j2])@) == wrap_cell(
                    rowv[j2],
                    wsv[j2],
                ),
            k <= h,
            h as nat == row_height(rowv, wsv),
            lines == row_lines(rowv, wsv),
            out@ == old(out)@ + join_lines(lines.subrange(0, k as int)),
        decreases h - k,
    {
        let line = build_row_line(&wrapped, ws, k, Ghost(rowv));
        emit_line(out, &line);
        proof {
            assert(lines.subrange(0, k + 1) =~= lines.subrange(0, k as int) + seq![
                lines[k as int],
            ]);
            lemma_join_lines_app(lines.subrange(0, k as int), seq![lines[k as int]]);
            assert(seq![lines[k as int]].drop_first() =~= Seq::<Seq<char>>::empty());
            assert(join_lines(Seq::<Seq<char>>::empty()) == Seq::<char>::empty());
            assert(join_lines(seq![lines[k as int]]) =~= lines[k as int] + seq!['\n']);
            assert(lines[k as int] == line@);
            assert(out@ =~= old(out)@ + join_lines(lines.subrange(0, k + 1)));
        }
        k = k + 1;
    }
    proof {
        assert(lines.subrange(0, h as int) =~= lines);
    }
}

/// Lays out and renders a table: the header row, the data rows, the target
/// terminal width and the truncation rules give a bordered grid whose every
/// line closes with a newline. The result is a pure function of the
/// arguments: rendering the same table twice gives the same text.
pub fn render(
    header: &Vec<String>,
    rows: &Vec<Vec<String>>,
    terminal_width: usize,
    caps: &Vec<ColumnCap>,
) -> (r: String)
    requires
        rows_match_header(strs_view(header@), str_matrix_view(rows@)),
        layout_fits(strs_view(header@), str_matrix_view(rows@), caps@),
    ensures
        r@ == render_spec(strs_view(header@), str_matrix_view(rows@), terminal_width as nat, caps@),
{
    let ghost headerv = strs_view(header@);
    let ghost rowsv = str_matrix_view(rows@);
    let h2 = capped_cells_row(header, caps);
    let rows2 = capped_cells(rows, caps);
    let ghost h2v = capped_row(caps@, headerv);
    let ghost rows2v = capped_rows(caps@, rowsv);
    let ghost all = seq![h2v] + rows2v;
    proof {
        assert(chars_view(h2@).len() == h2@.len());
        assert(h2@.len() == headerv.len());
        assert forall|i: int| 0 <= i < rows2@.len() implies (#[trigger] rows2@[i])@.len()
            == h2@.len() by {
            assert(rowsv[i] == strs_view(rows@[i]@));
            assert(rowsv[i].len() == headerv.len());
            assert(rows@[i]@.len() == header@.len());
        }
    }
    let (nats, mins) = column_widths(&h2, &rows2);
    proof {
        assert(nats@.len() == usizes(nats@).len());
        assert(mins@.len() == usizes(mins@).len());
        assert(nats@.len() == h2@.len());
        assert(mins@.len() == h2@.len());
        assert forall|j: int| 0 <= j < nats@.len() implies #[trigger] mins@[j] <= nats@[j] by {
            lemma_col_token_le_len(all, j);
            assert(usizes(nats@)[j] == nats@[j] as nat);
            assert(usizes(mins@)[j] == mins@[j] as nat);
        }
    }
    let ws = fit_widths_exec(&nats, &mins, terminal_width);
    let ghost wsv = usizes(ws@);
    proof {
        assert(wsv == chosen_widths(headerv, rowsv, terminal_width as nat, caps@));
    }
    let ghost tlines = table_lines(h2v, rows2v, wsv);
    let mut out: Vec<char> = Vec::new();
    let rule = rule_line_exec(&ws);
    emit_line(&mut out, &rule);
    emit_row_lines(&mut out, &h2, &ws);
    emit_line(&mut out, &rule);
    let ghost pre = seq![rule_line(wsv)] + row_lines(h2v, wsv) + seq![rule_line(wsv)];
    proof {
        lemma_join_lines_app(seq![rule_line(wsv)], row_lines(h2v, wsv));
        lemma_join_lines_app(seq![rule_line(wsv)] + row_lines(h2v, wsv), seq![rule_line(wsv)]);
        assert(seq![rule_line(wsv)].drop_first() =~= Seq::<Seq<char>>::empty());
        assert(join_lines(Seq::<Seq<char>>::empty()) == Seq::<char>::empty());
        assert(join_lines(seq![rule_line(wsv)]) =~= rule_line(wsv) + seq!['\n']);
        assert(rows2v.subrange(0, 0) =~= Seq::<Seq<Seq<char>>>::empty());
        assert(out@ =~= join_lines(pre) + join_lines(rows_lines(rows2v.subrange(0, 0), wsv)));
    }
    let nr = rows2.len();
    let mut i: usize = 0;
    while i < nr
        invariant
            nr == rows2@.len(),
            rows2v == char_matrix_view(rows2@),
            wsv == usizes(ws@),
            pre == seq![rule_line(wsv)] + row_lines(h2v, wsv) + seq![rule_line(wsv)],
            forall|i2: int| 0 <= i2 < rows2@.len() ==> (#[trigger] rows2@[i2])@.len() == ws@.len(),
            i <= nr,
            out@ == join_lines(pre) + join_lines(rows_lines(rows2v.subrange(0, i as int), wsv)),
        decreases nr - i,
    {
        proof {
            assert(chars_view(rows2@[i as int]@) == rows2v[i as int]);
        }
        emit_row_lines(&mut out, &rows2[i], &ws);
        proof {
            assert(rows2v.subrange(0, i + 1) =~= rows2v.subrange(0, i as int).push(
                rows2v[i as int],
            ));
            lemma_rows_lines_push(rows2v.subrange(0, i as int), rows2v[i as int], wsv);
            lemma_join_lines_app(
                rows_lines(rows2v.subrange(0, i as int), wsv),
                row_lines(rows2v[i as int], wsv),
            );
            assert(out@ =~= join_lines(pre) + join_lines(
                rows_lines(rows2v.subrange(0, i + 1), wsv),
            ));
        }
        i = i + 1;
    }
    emit_line(&mut out, &rule);
    proof {
        assert(rows2v.subrange(0, nr as int) =~= rows2v);
        lemma_join_lines_app(pre, rows_lines(rows2v, wsv));
        lemma_join_lines_app(pre + rows_lines(rows2v, wsv), seq![rule_line(wsv)]);
        assert(pre + rows_lines(rows2v, wsv) + seq![rule_line(wsv)] =~= tlines);
        assert(seq![rule_line(wsv)].drop_first() =~= Seq::<Seq<char>>::empty());
        assert(join_lines(Seq::<Seq<char>>::empty()) == Seq::<char>::empty());
        assert(join_lines(seq![rule_line(wsv)]) =~= rule_line(wsv) + seq!['\n']);
        assert(out@ =~= join_lines(tlines));
    }
    chars_to_string(&out)
}

/// The grid width, or `None` when it does not fit the machine's size type.
fn try_widths_total(ws: &Vec<usize>) -> (r: Option<usize>)
    ensures
        match r {
            Option::Some(v) => widths_total(usizes(ws@)) <= usize::MAX && v as nat == widths_total(
                usizes(ws@),
            ),
            Option::None => widths_total(usizes(ws@)) > usize::MAX,
        },
{
    let n = ws.len();
    let mut acc: usize = 0;
    let mut j: usize = n;
    while j > 0
        invariant
            n == ws@.len(),
            j <= n,
            acc as nat == widths_total_from(usizes(ws@), j as int),
        decreases j,
    {
        j = j - 1;
        proof {
            assert(widths_total_from(usizes(ws@), j as int) == usizes(ws@)[j as int] + 3
                + widths_total_from(usizes(ws@), j + 1));
            assert(usizes(ws@)[j as int] == ws@[j as int] as nat);
            lemma_widths_total_from_mono(usizes(ws@), 0, j as int);
        }
        if acc > usize::MAX - 3 || ws[j] > usize::MAX - 3 - acc {
            return Option::None;
        }
        acc = acc + 3 + ws[j];
    }
    if acc == usize::MAX {
        return Option::None;
    }
    Option::Some(acc + 1)
}

/// Whether a cell matrix is rectangular: every row as long as the header.
pub open spec fn rows_match_header(header: Seq<Seq<char>>, rows: Seq<Seq<Seq<char>>>) -> bool {
    forall|i: int| 0 <= i < rows.len() ==> (#[trigger] rows[i]).len() == header.len()
}

/// Whether a table's truncated grid fits the machine's size type, so that it
/// can be laid out at all.
pub open spec fn layout_fits(
    header: Seq<Seq<char>>,
    rows: Seq<Seq<Seq<char>>>,
    caps: Seq<ColumnCap>,
) -> bool {
    let all = seq![capped_row(caps, header)] + capped_rows(caps, rows);
    widths_total(natural_widths(all, header.len())) <= usize::MAX
}

/// Lays out and renders a table, first checking the two machine-level
/// conditions rendering needs: that the rows are as long as the header row,
/// and that the truncated grid's width fits the machine's size type. Returns
/// `None` exactly when one of the two fails.
pub fn try_render(
    header: &Vec<String>,
    rows: &Vec<Vec<String>>,
    terminal_width: usize,
    caps: &Vec<ColumnCap>,
) -> (r: Option<String>)
    ensures
        match r {
            Option::Some(text) => rows_match_header(strs_view(header@), str_matrix_view(rows@))
                && layout_fits(strs_view(header@), str_matrix_view(rows@), caps@) && text@
                == render_spec(
                strs_view(header@),
                str_matrix_view(rows@),
                terminal_width as nat,
                caps@,
            ),
            Option::None => !rows_match_header(strs_view(header@), str_matrix_view(rows@))
                || !layout_fits(strs_view(header@), str_matrix_view(rows@), caps@),
        },
{
    let ghost headerv = strs_view(header@);
    let ghost rowsv = str_matrix_view(rows@);
    let ncols = header.len();
    let nrows = rows.len();
    let mut i: usize = 0;
    while i < nrows
        invariant
            nrows == rows@.len(),
            ncols == header@.len(),
            rowsv == str_matrix_view(rows@),
            headerv == strs_view(header@),
            i <= nrows,
            forall|i2: int| 0 <= i2 < i ==> (#[trigger] rows@[i2])@.len() == header@.len(),
        decreases nrows - i,
    {
        if rows[i].len() != ncols {
            proof {
                assert(rowsv[i as int] == strs_view(rows@[i as int]@));
                assert(rowsv[i as int].len() == rows@[i as int]@.len());
                assert(headerv.len() == header@.len());
                assert(!rows_match_header(headerv, rowsv));
            }
            return Option::None;
        }
        i = i + 1;
    }
    proof {
        assert forall|i2: int| 0 <= i2 < rowsv.len() implies (#[trigger] rowsv[i2]).len()
            == headerv.len() by {
            assert(rowsv[i2].len() == rows@[i2]@.len());
        }
    }
    let h2 = capped_cells_row(header, caps);
    let rows2 = capped_cells(rows, caps);
    let ghost all = seq![capped_row(caps@, headerv)] + capped_rows(caps@, rowsv);
    proof {
        assert(chars_view(h2@).len() == h2@.len());
        assert forall|i2: int| 0 <= i2 < rows2@.len() implies (#[trigger] rows2@[i2])@.len()
            == h2@.len() by {
            assert(rows@[i2]@.len() == header@.len());
        }
    }
    let (nats, _mins) = column_widths(&h2, &rows2);
    match try_widths_total(&nats) {
        Option::Some(_) => Option::Some(render(header, rows, terminal_width, caps)),
        Option::None => Option::None,
    }
}

/// Rendering is deterministic and pure: two renderings of equal tables are
/// byte-identical.
pub proof fn lemma_render_idempotent(
    header1: Seq<Seq<char>>,
    rows1: Seq<Seq<Seq<char>>>,
    t1: nat,
    caps1: Seq<ColumnCap>,
    header2: Seq<Seq<char>>,
    rows2: Seq<Seq<Seq<char>>>,
    t2: nat,
    caps2: Seq<ColumnCap>,
)
    requires
        header1 == header2,
        rows1 == rows2,
        t1 == t2,
        caps1 == caps2,
    ensures
        render_spec(header1, rows1, t1, caps1) == render_spec(header2, rows2, t2, caps2),
{
}

} // verus!
