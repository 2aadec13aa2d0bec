//! A table that is lifted into a grid reads back from it, and is written as the table itself is.

use vstd::prelude::*;
use crate::grid;
use crate::grid::{Fill, GridCellV, GridRowV};
use crate::para::ExportSpansV;
use crate::paragraph::Pen;
use crate::tables;
use crate::tables::Walk;
use crate::types::{ParagraphV, TableCellV, TableRowV, TableV};

verus! {

/// The columns that the first `n` cells of a row take.
pub open spec fn columns_s(cells: Seq<TableCellV>, n: nat) -> int
    decreases n,
{
    if n == 0 {
        0
    } else {
        columns_s(cells, (n - 1) as nat) + cells[n - 1].grid_span
    }
}

/// The paragraphs that the first `n` cells of a row take.
pub open spec fn count_s(cells: Seq<TableCellV>, n: nat) -> int
    decreases n,
{
    if n == 0 {
        0
    } else {
        count_s(cells, (n - 1) as nat) + cells[n - 1].para_count
    }
}

/// The paragraphs that the first `n` rows take.
pub open spec fn total_s(rows: Seq<TableRowV>, n: nat) -> int
    decreases n,
{
    if n == 0 {
        0
    } else {
        total_s(rows, (n - 1) as nat) + count_s(rows[n - 1].cells, rows[n - 1].cells.len())
    }
}

/// Whether a row fills `width` columns, each cell at least one.
pub open spec fn full_row_s(r: TableRowV, width: int) -> bool {
    &&& columns_s(r.cells, r.cells.len()) == width
    &&& forall|i: int|
        0 <= i < r.cells.len() ==> 1 <= (#[trigger] r.cells[i]).grid_span <= u32::MAX
    &&& r.height_exact ==> r.height is Some
}

/// Whether every row of a table fills its declared columns, and its cells take exactly the
/// paragraphs `paras`.
pub open spec fn full_s(t: TableV, paras: Seq<ParagraphV>) -> bool {
    &&& t.col_widths.len() <= usize::MAX
    &&& paras.len() <= usize::MAX
    &&& forall|i: int|
        0 <= i < t.rows.len() ==> full_row_s(#[trigger] t.rows[i], t.col_widths.len() as int)
    &&& total_s(t.rows, t.rows.len()) == paras.len()
}

proof fn lemma_columns(r: TableRowV, width: int, n: nat, m: nat)
    requires
        full_row_s(r, width),
        n <= m <= r.cells.len(),
    ensures
        0 <= columns_s(r.cells, n) <= columns_s(r.cells, m) - (m - n),
        columns_s(r.cells, m) <= width,
{
    lemma_columns_grow(r, width, m, r.cells.len());
    lemma_columns_grow(r, width, n, m);
    lemma_columns_grow(r, width, 0, n);
}

proof fn lemma_columns_grow(r: TableRowV, width: int, n: nat, m: nat)
    requires
        full_row_s(r, width),
        n <= m <= r.cells.len(),
    ensures
        columns_s(r.cells, n) <= columns_s(r.cells, m) - (m - n),
    decreases m,
{
    if n < m {
        lemma_columns_grow(r, width, n, (m - 1) as nat);
        assert(r.cells[m - 1].grid_span >= 1);
    }
}

pub(crate) proof fn lemma_counts(cells: Seq<TableCellV>, n: nat, m: nat)
    requires
        n <= m <= cells.len(),
    ensures
        0 <= count_s(cells, n) <= count_s(cells, m),
    decreases m,
{
    if n < m {
        lemma_counts(cells, n, (m - 1) as nat);
    } else if m > 0 {
        lemma_counts(cells, (n - 1) as nat, (m - 1) as nat);
    }
}

pub(crate) proof fn lemma_totals(rows: Seq<TableRowV>, n: nat, m: nat)
    requires
        n <= m <= rows.len(),
    ensures
        0 <= total_s(rows, n) <= total_s(rows, m),
    decreases m,
{
    if n < m {
        lemma_totals(rows, n, (m - 1) as nat);
        lemma_counts(rows[m - 1].cells, 0, rows[m - 1].cells.len());
    } else if m > 0 {
        lemma_totals(rows, (n - 1) as nat, (m - 1) as nat);
        lemma_counts(rows[m - 1].cells, 0, rows[m - 1].cells.len());
    }
}

proof fn lemma_width(r: TableRowV, width: int, n: nat)
    requires
        full_row_s(r, width),
        width <= usize::MAX,
        n <= r.cells.len(),
    ensures
        grid::row_width_s(r.cells, n) == columns_s(r.cells, n),
    decreases n,
{
    if n > 0 {
        lemma_width(r, width, (n - 1) as nat);
        lemma_columns(r, width, n, r.cells.len());
        assert(r.cells[n - 1].grid_span >= 1);
    }
}

proof fn lemma_widest(t: TableV, paras: Seq<ParagraphV>, n: nat)
    requires
        full_s(t, paras),
        n <= t.rows.len(),
    ensures
        grid::widest_s(t.rows, n) <= t.col_widths.len(),
    decreases n,
{
    if n > 0 {
        lemma_widest(t, paras, (n - 1) as nat);
        let r = t.rows[n - 1];
        assert(full_row_s(r, t.col_widths.len() as int));
        lemma_width(r, t.col_widths.len() as int, r.cells.len());
    }
}

/// The paragraphs of the cell at `j`, where those of the row begin at `pos`.
spec fn own_s(cells: Seq<TableCellV>, paras: Seq<ParagraphV>, pos: int, j: int) -> Seq<ParagraphV> {
    paras.subrange(pos + count_s(cells, j as nat), pos + count_s(cells, (j + 1) as nat))
}

/// Whether the first `k` cells of a row stand in their columns, and no other column is filled.
spec fn filled_s(
    f: Fill,
    cells: Seq<TableCellV>,
    paras: Seq<ParagraphV>,
    width: int,
    pos: int,
    k: nat,
) -> bool {
    &&& f.cells.len() == width
    &&& f.col == columns_s(cells, k)
    &&& f.pos == pos + count_s(cells, k)
    &&& forall|j: int|
        0 <= j < k ==> f.cells[#[trigger] columns_s(cells, j as nat)] == grid::grid_cell_s(
            cells[j],
            own_s(cells, paras, pos, j),
        )
    &&& forall|c: int|
        0 <= c < width && !(exists|j: int| 0 <= j < k && c == #[trigger] columns_s(cells, j as nat))
            ==> #[trigger] f.cells[c] == GridCellV::initial()
}

proof fn lemma_fill(r: TableRowV, paras: Seq<ParagraphV>, width: int, pos: int, k: nat)
    requires
        full_row_s(r, width),
        width <= usize::MAX,
        paras.len() <= usize::MAX,
        0 <= pos,
        pos + count_s(r.cells, r.cells.len()) <= paras.len(),
        k <= r.cells.len(),
    ensures
        filled_s(
            grid::fill_s(r.cells, paras, width, pos, k),
            r.cells,
            paras,
            width,
            pos,
            k,
        ),
    decreases k,
{
    let cells = r.cells;
    let f = grid::fill_s(cells, paras, width, pos, k);
    lemma_columns(r, width, k, cells.len());
    lemma_counts(cells, k, cells.len());
    if k > 0 {
        let b = grid::fill_s(cells, paras, width, pos, (k - 1) as nat);
        lemma_fill(r, paras, width, pos, (k - 1) as nat);
        lemma_columns(r, width, (k - 1) as nat, k);
        lemma_counts(cells, (k - 1) as nat, k);
        let c = cells[k - 1];
        assert(c.grid_span >= 1);
        assert(b.col < width);
        assert(grid::slice_s(paras, b.pos, c.para_count as int) =~= own_s(
            cells,
            paras,
            pos,
            k - 1,
        ));
        assert forall|j: int| 0 <= j < k implies f.cells[#[trigger] columns_s(cells, j as nat)]
            == grid::grid_cell_s(cells[j], own_s(cells, paras, pos, j)) by {
            if j < k - 1 {
                lemma_columns(r, width, j as nat, (k - 1) as nat);
            }
        }
        assert forall|x: int|
            0 <= x < width && !(exists|j: int|
                0 <= j < k && x == #[trigger] columns_s(cells, j as nat)) implies #[trigger] f.cells[x]
            == GridCellV::initial() by {
            assert(x != columns_s(cells, (k - 1) as nat));
            if exists|j: int| 0 <= j < k - 1 && x == #[trigger] columns_s(cells, j as nat) {
                let j = choose|j: int| 0 <= j < k - 1 && x == #[trigger] columns_s(cells, j as nat);
                assert(0 <= j < k && x == columns_s(cells, j as nat));
            }
            assert(b.cells[x] == GridCellV::initial());
        }
    }
}

/// The columns at which the cells from `j` on stand.
spec fn stands_s(cells: Seq<TableCellV>, j: int) -> Seq<int> {
    Seq::new((cells.len() - j) as nat, |i: int| columns_s(cells, (j + i) as nat))
}

proof fn lemma_visible(r: TableRowV, paras: Seq<ParagraphV>, width: int, pos: int, f: Fill, j: int)
    requires
        full_row_s(r, width),
        filled_s(f, r.cells, paras, width, pos, r.cells.len()),
        0 <= j <= r.cells.len(),
    ensures
        grid::visible_s(f.cells, columns_s(r.cells, j as nat)) == stands_s(r.cells, j),
    decreases r.cells.len() - j,
{
    let cells = r.cells;
    let at = columns_s(cells, j as nat);
    lemma_columns(r, width, j as nat, cells.len());
    if j == cells.len() {
        assert(stands_s(cells, j) =~= Seq::empty());
    } else {
        lemma_visible(r, paras, width, pos, f, j + 1);
        assert(f.cells[columns_s(cells, j as nat)] == grid::grid_cell_s(
            cells[j],
            own_s(cells, paras, pos, j),
        ));
        assert(1 <= cells[j].grid_span <= u32::MAX);
        assert(grid::span32_s(f.cells[at].grid_span) == cells[j].grid_span);
        assert(columns_s(cells, (j + 1) as nat) == at + cells[j].grid_span);
        assert(seq![at] + stands_s(cells, j + 1) =~= stands_s(cells, j));
    }
}

proof fn lemma_row_cells(r: TableRowV, paras: Seq<ParagraphV>, width: int, pos: int, f: Fill)
    requires
        full_row_s(r, width),
        paras.len() <= usize::MAX,
        0 <= pos,
        pos + count_s(r.cells, r.cells.len()) <= paras.len(),
        filled_s(f, r.cells, paras, width, pos, r.cells.len()),
    ensures
        grid::row_cells_s(f.cells) == r.cells,
{
    let cells = r.cells;
    lemma_visible(r, paras, width, pos, f, 0);
    assert(columns_s(cells, 0) == 0);
    let vis = grid::visible_s(f.cells, 0);
    assert(vis == stands_s(cells, 0));
    assert forall|i: int| 0 <= i < cells.len() implies grid::row_cells_s(f.cells)[i] == cells[i] by {
        assert(vis[i] == columns_s(cells, i as nat));
        lemma_counts(cells, i as nat, cells.len());
        lemma_counts(cells, (i + 1) as nat, cells.len());
        assert(f.cells[columns_s(cells, i as nat)] == grid::grid_cell_s(
            cells[i],
            own_s(cells, paras, pos, i),
        ));
        assert(own_s(cells, paras, pos, i).len() == cells[i].para_count);
        assert(1 <= cells[i].grid_span <= u32::MAX);
        assert(grid::table_cell_s(
            grid::grid_cell_s(cells[i], own_s(cells, paras, pos, i)),
        ) =~= cells[i]);
    }
    assert(grid::row_cells_s(f.cells) =~= cells);
}

proof fn lemma_row_paras(r: TableRowV, paras: Seq<ParagraphV>, width: int, pos: int, f: Fill, j: int)
    requires
        full_row_s(r, width),
        0 <= pos,
        pos + count_s(r.cells, r.cells.len()) <= paras.len(),
        filled_s(f, r.cells, paras, width, pos, r.cells.len()),
        0 <= j <= r.cells.len(),
    ensures
        grid::row_paras_s(f.cells, j as nat) == paras.subrange(
            pos,
            pos + count_s(r.cells, j as nat),
        ),
    decreases j,
{
    let cells = r.cells;
    if j == 0 {
        lemma_counts(cells, 0, cells.len());
        assert(paras.subrange(pos, pos) =~= Seq::empty());
    } else {
        lemma_row_paras(r, paras, width, pos, f, j - 1);
        lemma_visible(r, paras, width, pos, f, 0);
        assert(columns_s(cells, 0) == 0);
        lemma_counts(cells, (j - 1) as nat, j as nat);
        lemma_counts(cells, j as nat, cells.len());
        assert(grid::visible_s(f.cells, 0)[j - 1] == columns_s(cells, (j - 1) as nat));
        assert(f.cells[columns_s(cells, (j - 1) as nat)] == grid::grid_cell_s(
            cells[j - 1],
            own_s(cells, paras, pos, j - 1),
        ));
        assert(paras.subrange(pos, pos + count_s(cells, (j - 1) as nat)) + own_s(
            cells,
            paras,
            pos,
            j - 1,
        ) =~= paras.subrange(pos, pos + count_s(cells, j as nat)));
    }
}

/// Whether the first `n` rows of the grid are those of the table.
spec fn rows_back_s(
    t: TableV,
    paras: Seq<ParagraphV>,
    rows: Seq<GridRowV>,
    pos: int,
    n: nat,
) -> bool {
    &&& rows.len() == n
    &&& pos == total_s(t.rows, n)
    &&& forall|i: int| 0 <= i < n ==> grid::table_row_s(#[trigger] rows[i]) == t.rows[i]
    &&& grid::cell_paras_s(rows, n) == paras.subrange(0, pos)
}

proof fn lemma_same_paras(v: Seq<GridRowV>, w: Seq<GridRowV>, n: nat)
    requires
        n <= v.len(),
        n <= w.len(),
        forall|i: int| 0 <= i < n ==> v[i] == w[i],
    ensures
        grid::cell_paras_s(v, n) == grid::cell_paras_s(w, n),
    decreases n,
{
    if n > 0 {
        lemma_same_paras(v, w, (n - 1) as nat);
    }
}

/// A row put into the grid reads back.
proof fn lemma_row_back(r: TableRowV, paras: Seq<ParagraphV>, width: int, pos: int, i: nat)
    requires
        full_row_s(r, width),
        width <= usize::MAX,
        paras.len() <= usize::MAX,
        0 <= pos,
        pos + count_s(r.cells, r.cells.len()) <= paras.len(),
    ensures
        ({
            let f = grid::fill_s(r.cells, paras, width, pos, r.cells.len());
            let made = grid::grid_row_s(i, r, f.cells);
            &&& f.pos == pos + count_s(r.cells, r.cells.len())
            &&& grid::table_row_s(made) == r
            &&& grid::row_paras_s(made.cells, grid::visible_s(made.cells, 0).len())
                == paras.subrange(pos, f.pos)
        }),
{
    let f = grid::fill_s(r.cells, paras, width, pos, r.cells.len());
    lemma_fill(r, paras, width, pos, r.cells.len());
    lemma_row_cells(r, paras, width, pos, f);
    lemma_row_paras(r, paras, width, pos, f, r.cells.len() as int);
    lemma_visible(r, paras, width, pos, f, 0);
    assert(columns_s(r.cells, 0) == 0);
    assert(grid::visible_s(f.cells, 0).len() == r.cells.len());
    assert(grid::table_row_s(grid::grid_row_s(i, r, f.cells)) =~= r);
}

proof fn lemma_rows(t: TableV, paras: Seq<ParagraphV>, n: nat)
    requires
        full_s(t, paras),
        grid::ncols_s(t) == t.col_widths.len(),
        n <= t.rows.len(),
    ensures
        rows_back_s(
            t,
            paras,
            grid::rows_s(t, paras, n).0,
            grid::rows_s(t, paras, n).1,
            n,
        ),
    decreases n,
{
    lemma_totals(t.rows, n, t.rows.len());
    if n > 0 {
        lemma_rows(t, paras, (n - 1) as nat);
        lemma_totals(t.rows, (n - 1) as nat, n);
        let (before, pos) = grid::rows_s(t, paras, (n - 1) as nat);
        let r = t.rows[n - 1];
        let width = t.col_widths.len() as int;
        assert(full_row_s(r, width));
        lemma_row_back(r, paras, width, pos, (n - 1) as nat);
        let f = grid::fill_s(r.cells, paras, width, pos, r.cells.len());
        let made = grid::grid_row_s((n - 1) as nat, r, f.cells);
        let all = before.push(made);
        assert(grid::rows_s(t, paras, n) == (all, f.pos));
        lemma_same_paras(before, all, (n - 1) as nat);
        assert(all[n - 1] == made);
        assert(paras.subrange(0, pos) + paras.subrange(pos, f.pos) =~= paras.subrange(0, f.pos));
    } else {
        assert(paras.subrange(0, 0) =~= Seq::empty());
    }
}

/// A table lifted into a grid reads back: the table that the grid stands for is the table, and
/// the paragraphs of its cells are those it was given.
pub proof fn law_table_reads_back_from_grid(t: TableV, paras: Seq<ParagraphV>)
    requires
        full_s(t, paras),
    ensures
        grid::table_of_s(grid::grid_of_s(t, paras)) == t,
        grid::cell_paras_s(
            grid::grid_of_s(t, paras).rows,
            grid::grid_of_s(t, paras).rows.len(),
        ) == paras,
{
    let g = grid::grid_of_s(t, paras);
    lemma_widest(t, paras, t.rows.len());
    lemma_rows(t, paras, t.rows.len());
    assert(paras.subrange(0, paras.len() as int) =~= paras);
    let back = grid::table_of_s(g);
    assert(back.col_widths =~= t.col_widths);
    assert(back.rows =~= t.rows);
    assert(back =~= t);
}

/// A row whose height is exact only where it has one.
pub open spec fn even_row_s(r: TableRowV) -> TableRowV {
    TableRowV { height_exact: r.height is Some && r.height_exact, ..r }
}

/// A table whose row heights are exact only where there are any.
pub open spec fn even_s(t: TableV) -> TableV {
    TableV { rows: Seq::new(t.rows.len(), |i: int| even_row_s(t.rows[i])), ..t }
}

proof fn lemma_even_cols(t: TableV, n: nat)
    requires
        n <= t.rows.len(),
    ensures
        grid::widest_s(even_s(t).rows, n) == grid::widest_s(t.rows, n),
    decreases n,
{
    if n > 0 {
        lemma_even_cols(t, (n - 1) as nat);
        assert(even_s(t).rows[n - 1] == even_row_s(t.rows[n - 1]));
    }
}

proof fn lemma_even_rows(t: TableV, paras: Seq<ParagraphV>, n: nat)
    requires
        n <= t.rows.len(),
        grid::ncols_s(even_s(t)) == grid::ncols_s(t),
    ensures
        grid::rows_s(even_s(t), paras, n) == grid::rows_s(t, paras, n),
    decreases n,
{
    if n > 0 {
        lemma_even_rows(t, paras, (n - 1) as nat);
        assert(even_s(t).rows[n - 1] == even_row_s(t.rows[n - 1]));
    }
}

proof fn lemma_even_written(
    w: Walk,
    t: TableV,
    paras: Seq<ParagraphV>,
    base: int,
    sp: ExportSpansV,
    n: nat,
)
    requires
        n <= t.rows.len(),
    ensures
        tables::table_rows_s(w, even_s(t).rows, paras, base, sp, n) == tables::table_rows_s(
            w,
            t.rows,
            paras,
            base,
            sp,
            n,
        ),
    decreases n,
{
    if n > 0 {
        lemma_even_written(w, t, paras, base, sp, (n - 1) as nat);
        let r = t.rows[n - 1];
        assert(even_s(t).rows[n - 1] == even_row_s(r));
        assert(tables::trpr_s(even_row_s(r)) == tables::trpr_s(r));
    }
}

/// A table lifted into a grid is written as the table itself is. That a height is exact counts
/// only where there is one.
pub proof fn law_grid_is_written_as_its_table(
    pen: Pen,
    t: TableV,
    paras: Seq<ParagraphV>,
    base: int,
    sp: ExportSpansV,
)
    requires
        full_s(even_s(t), paras),
    ensures
        tables::grid_s(pen, grid::grid_of_s(t, paras), base, sp) == tables::tbl_s(
            Walk { pen, pos: 0 },
            t,
            paras,
            base,
            sp,
        ).pen,
{
    let e = even_s(t);
    law_table_reads_back_from_grid(e, paras);
    lemma_even_grid(t, paras);
    lemma_even_table(Walk { pen, pos: 0 }, t, paras, base, sp);
}

/// A table is lifted into a grid alike, whatever is said of heights that are not there.
pub(crate) proof fn lemma_even_grid(t: TableV, paras: Seq<ParagraphV>)
    ensures
        grid::grid_of_s(even_s(t), paras) == grid::grid_of_s(t, paras),
{
    lemma_even_cols(t, t.rows.len());
    assert(grid::ncols_s(even_s(t)) == grid::ncols_s(t));
    lemma_even_rows(t, paras, t.rows.len());
    assert(grid::grid_of_s(even_s(t), paras) =~= grid::grid_of_s(t, paras));
}

/// A table is written alike, whatever is said of heights that are not there.
pub(crate) proof fn lemma_even_table(
    w: Walk,
    t: TableV,
    paras: Seq<ParagraphV>,
    base: int,
    sp: ExportSpansV,
)
    ensures
        tables::tbl_s(w, even_s(t), paras, base, sp) == tables::tbl_s(w, t, paras, base, sp),
{
    let e = even_s(t);
    let begun = Walk {
        pen: w.pen.put("<w:tbl>"@).put(tables::tblpr_s(t)).put("<w:tblGrid>"@).put(
            tables::grid_cols_s(t.col_widths, t.col_widths.len()),
        ).put("</w:tblGrid>"@),
        pos: w.pos,
    };
    assert(tables::tblpr_s(e) == tables::tblpr_s(t));
    lemma_even_written(begun, t, paras, base, sp, t.rows.len());
}

/// Whether the covered cells of a row hold no paragraphs.
pub open spec fn row_covers_nothing_s(cells: Seq<GridCellV>) -> bool {
    forall|c: int|
        0 <= c < cells.len() && !grid::visible_s(cells, 0).contains(c) ==> (
        #[trigger] cells[c]).paras.len() == 0
}

proof fn lemma_row_covers(r: TableRowV, paras: Seq<ParagraphV>, width: int, pos: int, f: Fill)
    requires
        full_row_s(r, width),
        filled_s(f, r.cells, paras, width, pos, r.cells.len()),
    ensures
        row_covers_nothing_s(f.cells),
{
    lemma_visible(r, paras, width, pos, f, 0);
    assert(columns_s(r.cells, 0) == 0);
    let v = grid::visible_s(f.cells, 0);
    assert forall|c: int| 0 <= c < f.cells.len() && !v.contains(c) implies (
    #[trigger] f.cells[c]).paras.len() == 0 by {
        if exists|j: int| 0 <= j < r.cells.len() && c == #[trigger] columns_s(r.cells, j as nat) {
            let j = choose|j: int|
                0 <= j < r.cells.len() && c == #[trigger] columns_s(r.cells, j as nat);
            assert(v[j] == c);
        }
    }
}

proof fn lemma_rows_cover(t: TableV, paras: Seq<ParagraphV>, n: nat)
    requires
        full_s(t, paras),
        grid::ncols_s(t) == t.col_widths.len(),
        n <= t.rows.len(),
    ensures
        grid::rows_s(t, paras, n).0.len() == n,
        forall|i: int|
            0 <= i < n ==> (#[trigger] grid::rows_s(t, paras, n).0[i]).cells.len() <= usize::MAX
                && row_covers_nothing_s(grid::rows_s(t, paras, n).0[i].cells),
    decreases n,
{
    if n > 0 {
        lemma_rows_cover(t, paras, (n - 1) as nat);
        lemma_rows(t, paras, (n - 1) as nat);
        lemma_totals(t.rows, (n - 1) as nat, n);
        lemma_totals(t.rows, n, t.rows.len());
        let (before, pos) = grid::rows_s(t, paras, (n - 1) as nat);
        let r = t.rows[n - 1];
        let width = t.col_widths.len() as int;
        assert(full_row_s(r, width));
        let f = grid::fill_s(r.cells, paras, width, pos, r.cells.len());
        lemma_totals(t.rows, 0, (n - 1) as nat);
        lemma_fill(r, paras, width, pos, r.cells.len());
        lemma_row_covers(r, paras, width, pos, f);
        let made = grid::grid_row_s((n - 1) as nat, r, f.cells);
        assert(grid::rows_s(t, paras, n) == (before.push(made), f.pos));
    }
}

/// In a grid that a table was lifted into, only cells that show hold paragraphs.
pub proof fn law_lifted_grid_covers_nothing(t: TableV, paras: Seq<ParagraphV>)
    requires
        full_s(t, paras),
    ensures
        forall|r: int|
            0 <= r < t.rows.len() ==> row_covers_nothing_s(
                (#[trigger] grid::grid_of_s(t, paras).rows[r]).cells,
            ) && grid::grid_of_s(t, paras).rows[r].cells.len() <= usize::MAX,
        grid::grid_of_s(t, paras).rows.len() == t.rows.len(),
{
    lemma_widest(t, paras, t.rows.len());
    lemma_rows_cover(t, paras, t.rows.len());
}

} // verus!
