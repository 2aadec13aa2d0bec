//! The table grid: rows and columns with stable ids, and one cell per row and column.
//!
//! A cell that spans columns leaves the cells it covers empty. [`populate_grid_from_table`]
//! lifts a [`Table`] and its cell paragraphs into a grid, and [`grid_to_table`] reads the
//! table back.

use vstd::prelude::*;

use crate::strs;
use crate::strs::dec;
use crate::strs::opt_clone;
use crate::types;
use crate::types::clone_nested_block_vec;
use crate::types::clone_paragraph_vec;
use crate::types::clone_table_prop_change_opt;
use crate::types::clone_track_opt;
use crate::types::CellMargins;
use crate::types::EdgeBorders;
use crate::types::EdgeBordersV;
use crate::types::NestedBlock;
use crate::types::NestedBlockV;
use crate::types::Paragraph;
use crate::types::ParagraphV;
use crate::types::Table;
use crate::types::TableCell;
use crate::types::TableCellV;
use crate::types::TablePropChange;
use crate::types::TablePropChangeV;
use crate::types::TableRow;
use crate::types::TableRowV;
use crate::types::TableV;
use crate::types::Track;
use crate::types::TrackV;
use crate::types::VMerge;

verus! {

/// A cell of the grid: its paragraphs and its properties.
#[derive(Debug)]
pub struct GridCell {
    pub paras: Vec<Paragraph>,
    /// How many columns the cell takes.
    pub grid_span: u32,
    pub vmerge: VMerge,
    pub borders: EdgeBorders,
    pub margins: Option<CellMargins>,
    pub width: Option<u32>,
    pub shading: Option<String>,
    pub change: Option<Track>,
    pub prop_change: Option<TablePropChange>,
    pub nested: Vec<NestedBlock>,
}

/// The mathematical value of a [`GridCell`].
#[verifier::ext_equal]
pub struct GridCellV {
    pub paras: Seq<ParagraphV>,
    pub grid_span: u32,
    pub vmerge: VMerge,
    pub borders: EdgeBordersV,
    pub margins: Option<CellMargins>,
    pub width: Option<u32>,
    pub shading: Option<Seq<char>>,
    pub change: Option<TrackV>,
    pub prop_change: Option<TablePropChangeV>,
    pub nested: Seq<NestedBlockV>,
}

impl View for GridCell {
    type V = GridCellV;

    open spec fn view(&self) -> GridCellV {
        GridCellV {
            paras: types::paragraph_vs(self.paras@),
            grid_span: self.grid_span,
            vmerge: self.vmerge,
            borders: self.borders@,
            margins: self.margins,
            width: self.width,
            shading: strs::opt_s(self.shading),
            change: types::track_ov(self.change),
            prop_change: types::table_prop_change_ov(self.prop_change),
            nested: types::nested_block_vs(self.nested@),
        }
    }
}

pub open spec fn grid_cell_vs(s: Seq<GridCell>) -> Seq<GridCellV> {
    Seq::new(s.len(), |i: int| s[i]@)
}

impl Clone for GridCell {
    fn clone(&self) -> (r: Self)
        ensures
            r@ == self@,
    {
        GridCell {
            paras: clone_paragraph_vec(&self.paras),
            grid_span: self.grid_span,
            vmerge: self.vmerge,
            borders: self.borders.clone(),
            margins: self.margins,
            width: self.width,
            shading: opt_clone(&self.shading),
            change: clone_track_opt(&self.change),
            prop_change: clone_table_prop_change_opt(&self.prop_change),
            nested: clone_nested_block_vec(&self.nested),
        }
    }
}

pub(crate) fn clone_grid_cell_vec(v: &Vec<GridCell>) -> (r: Vec<GridCell>)
    ensures
        grid_cell_vs(r@) == grid_cell_vs(v@),
{
    let mut r: Vec<GridCell> = Vec::new();
    let mut i: usize = 0;
    while i < v.len()
        invariant
            i <= v@.len(),
            r@.len() == i,
            forall|j: int| 0 <= j < i ==> r@[j]@ == v@[j]@,
        decreases v@.len() - i,
    {
        r.push(v[i].clone());
        i = i + 1;
    }
    assert(grid_cell_vs(r@) =~= grid_cell_vs(v@));
    r
}

impl GridCellV {
    /// The value with nothing set.
    pub open spec fn initial() -> GridCellV {
        GridCellV {
            paras: Seq::empty(),
            grid_span: 1,
            vmerge: VMerge::Single,
            borders: EdgeBordersV::initial(),
            margins: None,
            width: None,
            shading: None,
            change: None,
            prop_change: None,
            nested: Seq::empty(),
        }
    }
}

impl Default for GridCell {
    fn default() -> (r: Self)
        ensures
            r@ == GridCellV::initial(),
    {
        GridCell {
            paras: Vec::new(),
            grid_span: 1,
            vmerge: VMerge::Single,
            borders: EdgeBorders::default(),
            margins: None,
            width: None,
            shading: None,
            change: None,
            prop_change: None,
            nested: Vec::new(),
        }
    }
}

/// A row of the grid.
#[derive(Debug)]
pub struct GridRow {
    pub id: String,
    /// One cell per column.
    pub cells: Vec<GridCell>,
    pub height: Option<u32>,
    pub height_exact: bool,
    pub cant_split: bool,
    pub justify: Option<String>,
    pub change: Option<Track>,
    pub prop_change: Option<TablePropChange>,
}

/// The mathematical value of a [`GridRow`].
#[verifier::ext_equal]
pub struct GridRowV {
    pub id: Seq<char>,
    pub cells: Seq<GridCellV>,
    pub height: Option<u32>,
    pub height_exact: bool,
    pub cant_split: bool,
    pub justify: Option<Seq<char>>,
    pub change: Option<TrackV>,
    pub prop_change: Option<TablePropChangeV>,
}

impl View for GridRow {
    type V = GridRowV;

    open spec fn view(&self) -> GridRowV {
        GridRowV {
            id: self.id@,
            cells: grid_cell_vs(self.cells@),
            height: self.height,
            height_exact: self.height_exact,
            cant_split: self.cant_split,
            justify: strs::opt_s(self.justify),
            change: types::track_ov(self.change),
            prop_change: types::table_prop_change_ov(self.prop_change),
        }
    }
}

pub open spec fn grid_row_vs(s: Seq<GridRow>) -> Seq<GridRowV> {
    Seq::new(s.len(), |i: int| s[i]@)
}

impl Clone for GridRow {
    fn clone(&self) -> (r: Self)
        ensures
            r@ == self@,
    {
        GridRow {
            id: self.id.clone(),
            cells: clone_grid_cell_vec(&self.cells),
            height: self.height,
            height_exact: self.height_exact,
            cant_split: self.cant_split,
            justify: opt_clone(&self.justify),
            change: clone_track_opt(&self.change),
            prop_change: clone_table_prop_change_opt(&self.prop_change),
        }
    }
}

pub(crate) fn clone_grid_row_vec(v: &Vec<GridRow>) -> (r: Vec<GridRow>)
    ensures
        grid_row_vs(r@) == grid_row_vs(v@),
{
    let mut r: Vec<GridRow> = Vec::new();
    let mut i: usize = 0;
    while i < v.len()
        invariant
            i <= v@.len(),
            r@.len() == i,
            forall|j: int| 0 <= j < i ==> r@[j]@ == v@[j]@,
        decreases v@.len() - i,
    {
        r.push(v[i].clone());
        i = i + 1;
    }
    assert(grid_row_vs(r@) =~= grid_row_vs(v@));
    r
}

/// A column of the grid.
#[derive(Debug)]
pub struct GridCol {
    pub id: String,
    pub width: Option<u32>,
}

/// The mathematical value of a [`GridCol`].
#[verifier::ext_equal]
pub struct GridColV {
    pub id: Seq<char>,
    pub width: Option<u32>,
}

impl View for GridCol {
    type V = GridColV;

    open spec fn view(&self) -> GridColV {
        GridColV {
            id: self.id@,
            width: self.width,
        }
    }
}

pub open spec fn grid_col_vs(s: Seq<GridCol>) -> Seq<GridColV> {
    Seq::new(s.len(), |i: int| s[i]@)
}

impl Clone for GridCol {
    fn clone(&self) -> (r: Self)
        ensures
            r@ == self@,
    {
        GridCol {
            id: self.id.clone(),
            width: self.width,
        }
    }
}

pub(crate) fn clone_grid_col_vec(v: &Vec<GridCol>) -> (r: Vec<GridCol>)
    ensures
        grid_col_vs(r@) == grid_col_vs(v@),
{
    let mut r: Vec<GridCol> = Vec::new();
    let mut i: usize = 0;
    while i < v.len()
        invariant
            i <= v@.len(),
            r@.len() == i,
            forall|j: int| 0 <= j < i ==> r@[j]@ == v@[j]@,
        decreases v@.len() - i,
    {
        r.push(v[i].clone());
        i = i + 1;
    }
    assert(grid_col_vs(r@) =~= grid_col_vs(v@));
    r
}

/// A table as rows and columns with stable ids.
#[derive(Debug)]
pub struct TableGrid {
    pub cols: Vec<GridCol>,
    pub rows: Vec<GridRow>,
    pub style: Option<String>,
    pub justify: Option<String>,
    pub borders: EdgeBorders,
    pub cell_margins: Option<CellMargins>,
    pub look: Option<String>,
    pub prop_change: Option<TablePropChange>,
}

/// The mathematical value of a [`TableGrid`].
#[verifier::ext_equal]
pub struct TableGridV {
    pub cols: Seq<GridColV>,
    pub rows: Seq<GridRowV>,
    pub style: Option<Seq<char>>,
    pub justify: Option<Seq<char>>,
    pub borders: EdgeBordersV,
    pub cell_margins: Option<CellMargins>,
    pub look: Option<Seq<char>>,
    pub prop_change: Option<TablePropChangeV>,
}

impl View for TableGrid {
    type V = TableGridV;

    open spec fn view(&self) -> TableGridV {
        TableGridV {
            cols: grid_col_vs(self.cols@),
            rows: grid_row_vs(self.rows@),
            style: strs::opt_s(self.style),
            justify: strs::opt_s(self.justify),
            borders: self.borders@,
            cell_margins: self.cell_margins,
            look: strs::opt_s(self.look),
            prop_change: types::table_prop_change_ov(self.prop_change),
        }
    }
}

pub open spec fn table_grid_ov(o: Option<TableGrid>) -> Option<TableGridV> {
    match o {
        Some(x) => Some(x@),
        None => None,
    }
}

impl Clone for TableGrid {
    fn clone(&self) -> (r: Self)
        ensures
            r@ == self@,
    {
        TableGrid {
            cols: clone_grid_col_vec(&self.cols),
            rows: clone_grid_row_vec(&self.rows),
            style: opt_clone(&self.style),
            justify: opt_clone(&self.justify),
            borders: self.borders.clone(),
            cell_margins: self.cell_margins,
            look: opt_clone(&self.look),
            prop_change: clone_table_prop_change_opt(&self.prop_change),
        }
    }
}

impl TableGridV {
    /// The value with nothing set.
    pub open spec fn initial() -> TableGridV {
        TableGridV {
            cols: Seq::empty(),
            rows: Seq::empty(),
            style: None,
            justify: None,
            borders: EdgeBordersV::initial(),
            cell_margins: None,
            look: None,
            prop_change: None,
        }
    }
}

impl Default for TableGrid {
    fn default() -> (r: Self)
        ensures
            r@ == TableGridV::initial(),
    {
        TableGrid {
            cols: Vec::new(),
            rows: Vec::new(),
            style: None,
            justify: None,
            borders: EdgeBorders::default(),
            cell_margins: None,
            look: None,
            prop_change: None,
        }
    }
}

// ── a table as a grid ───────────────────────────────────────────────────────

pub open spec fn span_s(n: usize) -> int {
    if n < 1 {
        1
    } else {
        n as int
    }
}

/// The columns that the first `n` cells of a row take, held at the machine limit.
pub open spec fn row_width_s(cells: Seq<TableCellV>, n: nat) -> int
    decreases n,
{
    if n == 0 {
        0
    } else {
        sat_s(row_width_s(cells, (n - 1) as nat) + span_s(cells[n - 1].grid_span))
    }
}

/// `n`, held at the largest `usize`.
pub open spec fn sat_s(n: int) -> int {
    if n > usize::MAX {
        usize::MAX as int
    } else {
        n
    }
}

fn sat_sum(a: usize, b: usize) -> (r: usize)
    ensures
        r == sat_s(a + b),
{
    if b > usize::MAX - a {
        usize::MAX
    } else {
        a + b
    }
}

fn span_of(n: usize) -> (r: usize)
    ensures
        r == span_s(n),
{
    if n < 1 {
        1
    } else {
        n
    }
}

/// The widest of the first `n` rows.
pub open spec fn widest_s(rows: Seq<TableRowV>, n: nat) -> int
    decreases n,
{
    if n == 0 {
        0
    } else {
        let w = row_width_s(rows[n - 1].cells, rows[n - 1].cells.len());
        let before = widest_s(rows, (n - 1) as nat);
        if w > before {
            w
        } else {
            before
        }
    }
}

/// The column count of a table: its declared columns, or its widest row.
pub open spec fn ncols_s(t: TableV) -> int {
    let w = widest_s(t.rows, t.rows.len());
    if w > t.col_widths.len() {
        w
    } else {
        t.col_widths.len() as int
    }
}

fn row_width(cells: &Vec<TableCell>) -> (r: usize)
    ensures
        r == row_width_s(types::table_cell_vs(cells@), cells@.len()),
{
    let mut w: usize = 0;
    let mut i: usize = 0;
    while i < cells.len()
        invariant
            i <= cells@.len(),
            w == row_width_s(types::table_cell_vs(cells@), i as nat),
        decreases cells@.len() - i,
    {
        w = sat_sum(w, span_of(cells[i].grid_span));
        i = i + 1;
    }
    w
}

fn column_count(t: &Table) -> (r: usize)
    ensures
        r == ncols_s(t@),
{
    let mut w: usize = 0;
    let mut i: usize = 0;
    while i < t.rows.len()
        invariant
            i <= t.rows@.len(),
            w == widest_s(t@.rows, i as nat),
        decreases t.rows@.len() - i,
    {
        let x: usize = row_width(&t.rows[i].cells);
        if x > w {
            w = x;
        }
        i = i + 1;
    }
    if w > t.col_widths.len() {
        w
    } else {
        t.col_widths.len()
    }
}

/// The paragraphs `from..from + count`, as far as there are any.
pub open spec fn slice_s(paras: Seq<ParagraphV>, from: int, count: int) -> Seq<ParagraphV> {
    let end = if sat_s(from + count) > paras.len() {
        paras.len() as int
    } else {
        sat_s(from + count)
    };
    if from <= end {
        paras.subrange(from, end)
    } else {
        Seq::empty()
    }
}

/// A table cell as a grid cell.
pub open spec fn grid_cell_s(c: TableCellV, paras: Seq<ParagraphV>) -> GridCellV {
    GridCellV {
        paras,
        grid_span: if c.grid_span > 1 {
            c.grid_span as u32
        } else {
            1
        },
        vmerge: c.vmerge,
        borders: c.borders,
        margins: c.margins,
        width: c.width,
        shading: c.shading,
        change: c.change,
        prop_change: c.prop_change,
        nested: c.nested,
    }
}

/// A row being filled: its cells, the next column, the next paragraph.
pub struct Fill {
    pub cells: Seq<GridCellV>,
    pub col: int,
    pub pos: int,
}

/// The row after its first `k` cells were put in place, each at the column after the ones
/// before it.
pub open spec fn fill_s(
    cells: Seq<TableCellV>,
    paras: Seq<ParagraphV>,
    ncols: int,
    pos: int,
    k: nat,
) -> Fill
    decreases k,
{
    if k == 0 {
        Fill { cells: Seq::new(ncols as nat, |i: int| GridCellV::initial()), col: 0, pos }
    } else {
        let f = fill_s(cells, paras, ncols, pos, (k - 1) as nat);
        let c = cells[k - 1];
        Fill {
            cells: if f.col < ncols {
                f.cells.update(f.col, grid_cell_s(c, slice_s(paras, f.pos, c.para_count as int)))
            } else {
                f.cells
            },
            col: sat_s(f.col + span_s(c.grid_span)),
            pos: sat_s(f.pos + c.para_count),
        }
    }
}

/// The id of the `n`-th column (`c`) or row (`r`).
pub open spec fn id_s(letter: Seq<char>, n: nat) -> Seq<char> {
    letter + strs::dec_s(n)
}

fn make_id(letter: &str, n: usize) -> (r: String)
    ensures
        r@ == id_s(letter@, n as nat),
{
    let mut s = letter.to_owned();
    s.append(dec(n as u128).as_str());
    s
}

pub open spec fn grid_row_s(i: nat, row: TableRowV, cells: Seq<GridCellV>) -> GridRowV {
    GridRowV {
        id: id_s("r"@, i),
        cells,
        height: row.height,
        height_exact: row.height is Some && row.height_exact,
        cant_split: row.cant_split,
        justify: row.justify,
        change: row.change,
        prop_change: row.prop_change,
    }
}

/// The first `n` rows of the grid, and the paragraph after them.
pub open spec fn rows_s(t: TableV, paras: Seq<ParagraphV>, n: nat) -> (Seq<GridRowV>, int)
    decreases n,
{
    if n == 0 {
        (Seq::empty(), 0)
    } else {
        let (rows, pos) = rows_s(t, paras, (n - 1) as nat);
        let row = t.rows[n - 1];
        let f = fill_s(row.cells, paras, ncols_s(t), pos, row.cells.len());
        (rows.push(grid_row_s((n - 1) as nat, row, f.cells)), f.pos)
    }
}

pub open spec fn grid_col_s(t: TableV, i: int) -> GridColV {
    GridColV {
        id: id_s("c"@, i as nat),
        width: if i < t.col_widths.len() {
            Some(t.col_widths[i])
        } else {
            None
        },
    }
}

/// The grid of a table whose cell paragraphs, row by row and cell by cell, are `paras`.
pub open spec fn grid_of_s(t: TableV, paras: Seq<ParagraphV>) -> TableGridV {
    TableGridV {
        cols: Seq::new(ncols_s(t) as nat, |i: int| grid_col_s(t, i)),
        rows: rows_s(t, paras, t.rows.len()).0,
        style: t.style,
        justify: t.justify,
        borders: t.borders,
        cell_margins: t.cell_margins,
        look: t.look,
        prop_change: t.prop_change,
    }
}

fn slice(paras: &Vec<Paragraph>, from: usize, count: usize) -> (r: Vec<Paragraph>)
    ensures
        types::paragraph_vs(r@) == slice_s(types::paragraph_vs(paras@), from as int, count as int),
{
    let mut end: usize = sat_sum(from, count);
    if end > paras.len() {
        end = paras.len();
    }
    let mut r: Vec<Paragraph> = Vec::new();
    if from > end {
        assert(types::paragraph_vs(r@) =~= Seq::empty());
        return r;
    }
    let mut i: usize = from;
    while i < end
        invariant
            from <= i <= end <= paras@.len(),
            r@.len() == i - from,
            forall|j: int| 0 <= j < i - from ==> (#[trigger] r@[j])@ == paras@[from + j]@,
        decreases end - i,
    {
        r.push(paras[i].clone());
        i = i + 1;
    }
    assert(types::paragraph_vs(r@) =~= types::paragraph_vs(paras@).subrange(from as int, end as int));
    r
}

fn grid_cell(c: &TableCell, paras: Vec<Paragraph>) -> (r: GridCell)
    ensures
        r@ == grid_cell_s(c@, types::paragraph_vs(paras@)),
{
    GridCell {
        paras,
        grid_span: if c.grid_span > 1 {
            c.grid_span as u32
        } else {
            1
        },
        vmerge: c.vmerge,
        borders: c.borders.clone(),
        margins: c.margins,
        width: c.width,
        shading: opt_clone(&c.shading),
        change: clone_track_opt(&c.change),
        prop_change: clone_table_prop_change_opt(&c.prop_change),
        nested: clone_nested_block_vec(&c.nested),
    }
}

fn empty_cells(n: usize) -> (r: Vec<GridCell>)
    ensures
        r@.len() == n,
        grid_cell_vs(r@) == Seq::new(n as nat, |i: int| GridCellV::initial()),
{
    let mut r: Vec<GridCell> = Vec::new();
    let mut i: usize = 0;
    while i < n
        invariant
            i <= n,
            r@.len() == i,
            forall|j: int| 0 <= j < i ==> (#[trigger] r@[j])@ == GridCellV::initial(),
        decreases n - i,
    {
        r.push(GridCell::default());
        i = i + 1;
    }
    assert(grid_cell_vs(r@) =~= Seq::new(n as nat, |i: int| GridCellV::initial()));
    r
}

/// The cells of a grid row, and the paragraph after them.
fn fill_row(row: &TableRow, paras: &Vec<Paragraph>, ncols: usize, from: usize) -> (r: (Vec<GridCell>, usize))
    ensures
        grid_cell_vs(r.0@) == fill_s(
            row@.cells,
            types::paragraph_vs(paras@),
            ncols as int,
            from as int,
            row@.cells.len(),
        ).cells,
        r.1 == fill_s(
            row@.cells,
            types::paragraph_vs(paras@),
            ncols as int,
            from as int,
            row@.cells.len(),
        ).pos,
{
    let ghost pv = types::paragraph_vs(paras@);
    let mut cells = empty_cells(ncols);
    let mut col: usize = 0;
    let mut pos: usize = from;
    let mut k: usize = 0;
    while k < row.cells.len()
        invariant
            k <= row.cells@.len(),
            pv == types::paragraph_vs(paras@),
            cells@.len() == ncols,
            grid_cell_vs(cells@) == fill_s(row@.cells, pv, ncols as int, from as int, k as nat).cells,
            col == fill_s(row@.cells, pv, ncols as int, from as int, k as nat).col,
            pos == fill_s(row@.cells, pv, ncols as int, from as int, k as nat).pos,
        decreases row.cells@.len() - k,
    {
        let c = &row.cells[k];
        if col < ncols {
            let ghost before = cells@;
            let made = grid_cell(c, slice(paras, pos, c.para_count));
            cells.set(col, made);
            assert(grid_cell_vs(cells@) =~= grid_cell_vs(before).update(col as int, made@));
        }
        col = sat_sum(col, span_of(c.grid_span));
        pos = sat_sum(pos, c.para_count);
        k = k + 1;
    }
    (cells, pos)
}

/// Make `grid` hold table `t` with the cell paragraphs `cell_paras`, given row by row and
/// cell by cell. Columns get the ids `c0`, `c1`, …, rows `r0`, `r1`, …; a spanning cell
/// stands at its first column.
pub fn populate_grid_from_table(grid: &mut TableGrid, t: &Table, cell_paras: &Vec<Paragraph>)
    ensures
        final(grid)@ == grid_of_s(t@, types::paragraph_vs(cell_paras@)),
{
    let ghost pv = types::paragraph_vs(cell_paras@);
    let ncols: usize = column_count(t);
    let mut cols: Vec<GridCol> = Vec::new();
    let mut i: usize = 0;
    while i < ncols
        invariant
            i <= ncols,
            cols@.len() == i,
            forall|j: int| 0 <= j < i ==> (#[trigger] cols@[j])@ == grid_col_s(t@, j),
        decreases ncols - i,
    {
        let width = if i < t.col_widths.len() {
            Some(t.col_widths[i])
        } else {
            None
        };
        cols.push(GridCol { id: make_id("c", i), width });
        i = i + 1;
    }
    let mut rows: Vec<GridRow> = Vec::new();
    let mut pos: usize = 0;
    let mut n: usize = 0;
    assert(grid_row_vs(rows@) =~= Seq::empty());
    while n < t.rows.len()
        invariant
            n <= t.rows@.len(),
            ncols == ncols_s(t@),
            pv == types::paragraph_vs(cell_paras@),
            rows_s(t@, pv, n as nat) == (grid_row_vs(rows@), pos as int),
        decreases t.rows@.len() - n,
    {
        let row = &t.rows[n];
        assert(t@.rows[n as int] == row@);
        let (cells, next) = fill_row(row, cell_paras, ncols, pos);
        let ghost before = rows@;
        let made = GridRow {
            id: make_id("r", n),
            cells,
            height: row.height,
            height_exact: row.height.is_some() && row.height_exact,
            cant_split: row.cant_split,
            justify: opt_clone(&row.justify),
            change: clone_track_opt(&row.change),
            prop_change: clone_table_prop_change_opt(&row.prop_change),
        };
        rows.push(made);
        pos = next;
        assert(grid_row_vs(rows@) =~= grid_row_vs(before).push(made@));
        n = n + 1;
    }
    assert(grid_col_vs(cols@) =~= Seq::new(ncols as nat, |i: int| grid_col_s(t@, i)));
    *grid = TableGrid {
        cols,
        rows,
        style: opt_clone(&t.style),
        justify: opt_clone(&t.justify),
        borders: t.borders.clone(),
        cell_margins: t.cell_margins,
        look: opt_clone(&t.look),
        prop_change: clone_table_prop_change_opt(&t.prop_change),
    };
}

// ── a grid as a table ───────────────────────────────────────────────────────

pub open spec fn span32_s(n: u32) -> int {
    if n < 1 {
        1
    } else {
        n as int
    }
}

/// A grid cell as a table cell.
pub open spec fn table_cell_s(c: GridCellV) -> TableCellV {
    TableCellV {
        para_count: c.paras.len() as usize,
        grid_span: span32_s(c.grid_span) as usize,
        vmerge: c.vmerge,
        borders: c.borders,
        margins: c.margins,
        width: c.width,
        shading: c.shading,
        change: c.change,
        prop_change: c.prop_change,
        nested: c.nested,
    }
}

/// The positions of the visible cells from column `at` on: each cell hides the columns that
/// it spans.
pub open spec fn visible_s(cells: Seq<GridCellV>, at: int) -> Seq<int>
    decreases
            if at < cells.len() {
                cells.len() - at
            } else {
                0
            },
{
    if at < 0 || at >= cells.len() {
        Seq::empty()
    } else {
        seq![at] + visible_s(cells, at + span32_s(cells[at].grid_span))
    }
}

pub open spec fn row_cells_s(cells: Seq<GridCellV>) -> Seq<TableCellV> {
    Seq::new(visible_s(cells, 0).len(), |i: int| table_cell_s(cells[visible_s(cells, 0)[i]]))
}

pub open spec fn table_row_s(r: GridRowV) -> TableRowV {
    TableRowV {
        cells: row_cells_s(r.cells),
        height: r.height,
        height_exact: r.height is Some && r.height_exact,
        cant_split: r.cant_split,
        justify: r.justify,
        change: r.change,
        prop_change: r.prop_change,
    }
}

pub open spec fn width_s(c: GridColV) -> u32 {
    match c.width {
        Some(w) => w,
        None => 0,
    }
}

/// The table that a grid stands for.
pub open spec fn table_of_s(g: TableGridV) -> TableV {
    TableV {
        col_widths: Seq::new(g.cols.len(), |i: int| width_s(g.cols[i])),
        rows: Seq::new(g.rows.len(), |i: int| table_row_s(g.rows[i])),
        style: g.style,
        justify: g.justify,
        borders: g.borders,
        cell_margins: g.cell_margins,
        look: g.look,
        prop_change: g.prop_change,
    }
}

fn table_cell(c: &GridCell) -> (r: TableCell)
    ensures
        r@ == table_cell_s(c@),
{
    TableCell {
        para_count: c.paras.len(),
        grid_span: if c.grid_span < 1 {
            1
        } else {
            c.grid_span as usize
        },
        vmerge: c.vmerge,
        borders: c.borders.clone(),
        margins: c.margins,
        width: c.width,
        shading: opt_clone(&c.shading),
        change: clone_track_opt(&c.change),
        prop_change: clone_table_prop_change_opt(&c.prop_change),
        nested: clone_nested_block_vec(&c.nested),
    }
}

/// The positions of the visible cells of a row.
fn visible(cells: &Vec<GridCell>) -> (r: Vec<usize>)
    ensures
        Seq::new(r@.len(), |i: int| r@[i] as int) == visible_s(grid_cell_vs(cells@), 0),
        forall|i: int| 0 <= i < r@.len() ==> r@[i] < cells@.len(),
{
    let ghost v = grid_cell_vs(cells@);
    let mut r: Vec<usize> = Vec::new();
    let mut at: usize = 0;
    assert(Seq::new(r@.len(), |i: int| r@[i] as int) + visible_s(v, 0) =~= visible_s(v, 0));
    while at < cells.len()
        invariant
            v == grid_cell_vs(cells@),
            Seq::new(r@.len(), |i: int| r@[i] as int) + visible_s(v, at as int) == visible_s(v, 0),
            forall|i: int| 0 <= i < r@.len() ==> r@[i] < cells@.len(),
        decreases cells@.len() - at,
    {
        let ghost before = r@;
        let span: usize = if cells[at].grid_span < 1 {
            1
        } else {
            cells[at].grid_span as usize
        };
        r.push(at);
        let ghost next = at + span;
        proof {
            assert(Seq::new(r@.len(), |i: int| r@[i] as int) + visible_s(v, next) =~= Seq::new(
                before.len(),
                |i: int| before[i] as int,
            ) + visible_s(v, at as int));
        }
        if span > cells.len() - at {
            at = cells.len();
        } else {
            at = at + span;
        }
    }
    assert(Seq::new(r@.len(), |i: int| r@[i] as int) + visible_s(v, at as int) =~= Seq::new(
        r@.len(),
        |i: int| r@[i] as int,
    ));
    r
}

/// Read a grid back into a [`Table`]: one cell per visible grid cell, skipping the columns
/// that a span covers, with the number of its paragraphs.
pub fn grid_to_table(grid: &TableGrid) -> (t: Table)
    ensures
        t@ == table_of_s(grid@),
{
    let mut col_widths: Vec<u32> = Vec::new();
    let mut i: usize = 0;
    while i < grid.cols.len()
        invariant
            i <= grid.cols@.len(),
            col_widths@.len() == i,
            forall|j: int| 0 <= j < i ==> #[trigger] col_widths@[j] == width_s(grid@.cols[j]),
        decreases grid.cols@.len() - i,
    {
        col_widths.push(
            match grid.cols[i].width {
                Some(w) => w,
                None => 0,
            },
        );
        i = i + 1;
    }
    let mut rows: Vec<TableRow> = Vec::new();
    let mut n: usize = 0;
    while n < grid.rows.len()
        invariant
            n <= grid.rows@.len(),
            rows@.len() == n,
            forall|j: int| 0 <= j < n ==> (#[trigger] rows@[j])@ == table_row_s(grid@.rows[j]),
        decreases grid.rows@.len() - n,
    {
        let r = &grid.rows[n];
        let cells = visible_cells(&r.cells);
        rows.push(
            TableRow {
                cells,
                height: r.height,
                height_exact: r.height.is_some() && r.height_exact,
                cant_split: r.cant_split,
                justify: opt_clone(&r.justify),
                change: clone_track_opt(&r.change),
                prop_change: clone_table_prop_change_opt(&r.prop_change),
            },
        );
        n = n + 1;
    }
    let t = Table {
        col_widths,
        rows,
        style: opt_clone(&grid.style),
        justify: opt_clone(&grid.justify),
        borders: grid.borders.clone(),
        cell_margins: grid.cell_margins,
        look: opt_clone(&grid.look),
        prop_change: clone_table_prop_change_opt(&grid.prop_change),
    };
    assert(t@.col_widths =~= table_of_s(grid@).col_widths);
    assert(t@.rows =~= table_of_s(grid@).rows);
    t
}

fn visible_cells(cells: &Vec<GridCell>) -> (r: Vec<TableCell>)
    ensures
        types::table_cell_vs(r@) == row_cells_s(grid_cell_vs(cells@)),
{
    let ghost v = grid_cell_vs(cells@);
    let at = visible(cells);
    let ghost vis = visible_s(v, 0);
    let mut r: Vec<TableCell> = Vec::new();
    let mut i: usize = 0;
    while i < at.len()
        invariant
            i <= at@.len(),
            v == grid_cell_vs(cells@),
            vis == visible_s(v, 0),
            vis == Seq::new(at@.len(), |i: int| at@[i] as int),
            forall|i: int| 0 <= i < at@.len() ==> at@[i] < cells@.len(),
            r@.len() == i,
            forall|j: int| 0 <= j < i ==> (#[trigger] r@[j])@ == table_cell_s(v[vis[j]]),
        decreases at@.len() - i,
    {
        assert(vis[i as int] == at@[i as int]);
        r.push(table_cell(&cells[at[i]]));
        i = i + 1;
    }
    assert(types::table_cell_vs(r@) =~= row_cells_s(v));
    r
}

// ── cell paragraphs ─────────────────────────────────────────────────────────

/// The paragraphs of the first `n` visible cells of a row.
pub open spec fn row_paras_s(cells: Seq<GridCellV>, n: nat) -> Seq<ParagraphV>
    decreases n,
{
    if n == 0 {
        Seq::empty()
    } else {
        row_paras_s(cells, (n - 1) as nat) + cells[visible_s(cells, 0)[n - 1]].paras
    }
}

/// The cell paragraphs of the first `n` rows.
pub open spec fn cell_paras_s(rows: Seq<GridRowV>, n: nat) -> Seq<ParagraphV>
    decreases n,
{
    if n == 0 {
        Seq::empty()
    } else {
        cell_paras_s(rows, (n - 1) as nat) + row_paras_s(
            rows[n - 1].cells,
            visible_s(rows[n - 1].cells, 0).len(),
        )
    }
}

fn push_all(out: &mut Vec<Paragraph>, more: &Vec<Paragraph>)
    ensures
        types::paragraph_vs(final(out)@) == types::paragraph_vs(old(out)@) + types::paragraph_vs(more@),
{
    let ghost start = out@;
    let mut i: usize = 0;
    assert(types::paragraph_vs(out@) =~= types::paragraph_vs(start) + types::paragraph_vs(more@).take(0));
    while i < more.len()
        invariant
            i <= more@.len(),
            types::paragraph_vs(out@) == types::paragraph_vs(start) + types::paragraph_vs(more@).take(
                i as int,
            ),
        decreases more@.len() - i,
    {
        let ghost before = out@;
        let p = more[i].clone();
        out.push(p);
        i = i + 1;
        assert(types::paragraph_vs(out@) =~= types::paragraph_vs(before).push(more@[i - 1]@));
        assert(types::paragraph_vs(more@).take(i as int) =~= types::paragraph_vs(more@).take(
            i - 1,
        ).push(more@[i - 1]@));
        assert(types::paragraph_vs(out@) =~= types::paragraph_vs(start) + types::paragraph_vs(
            more@,
        ).take(i as int));
    }
    assert(types::paragraph_vs(more@).take(i as int) =~= types::paragraph_vs(more@));
}

/// Every visible cell's paragraphs, row by row.
pub(crate) fn table_cell_paras(grid: &TableGrid) -> (r: Vec<Paragraph>)
    ensures
        types::paragraph_vs(r@) == cell_paras_s(grid@.rows, grid@.rows.len()),
{
    let mut out: Vec<Paragraph> = Vec::new();
    let mut n: usize = 0;
    assert(types::paragraph_vs(out@) =~= Seq::empty());
    while n < grid.rows.len()
        invariant
            n <= grid.rows@.len(),
            types::paragraph_vs(out@) == cell_paras_s(grid@.rows, n as nat),
        decreases grid.rows@.len() - n,
    {
        let row = row_paras(&grid.rows[n].cells);
        push_all(&mut out, &row);
        n = n + 1;
    }
    out
}

fn row_paras(cells: &Vec<GridCell>) -> (r: Vec<Paragraph>)
    ensures
        types::paragraph_vs(r@) == row_paras_s(
            grid_cell_vs(cells@),
            visible_s(grid_cell_vs(cells@), 0).len(),
        ),
{
    let ghost v = grid_cell_vs(cells@);
    let at = visible(cells);
    let ghost vis = visible_s(v, 0);
    let mut out: Vec<Paragraph> = Vec::new();
    let mut i: usize = 0;
    assert(types::paragraph_vs(out@) =~= Seq::empty());
    while i < at.len()
        invariant
            i <= at@.len(),
            v == grid_cell_vs(cells@),
            vis == visible_s(v, 0),
            vis == Seq::new(at@.len(), |i: int| at@[i] as int),
            forall|i: int| 0 <= i < at@.len() ==> at@[i] < cells@.len(),
            types::paragraph_vs(out@) == row_paras_s(v, i as nat),
        decreases at@.len() - i,
    {
        assert(vis[i as int] == at@[i as int]);
        push_all(&mut out, &cells[at[i]].paras);
        i = i + 1;
    }
    out
}

} // verus!
