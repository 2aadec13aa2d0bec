//! Whole tables read back from the markup that they are written as.

use vstd::prelude::*;
use crate::celltold;
use crate::celltold::with_tbl_s;
use crate::grid;
use crate::hearing;
use crate::import::{AnchorReaderV, DocReaderV, ImportItemV};
use crate::import_table;
use crate::import_table::TableReaderV;
use crate::markup;
use crate::markup::Piece;
use crate::names;
use crate::para;
use crate::para::ExportSpansV;
use crate::paragraph::Pen;
use crate::retelling;
use crate::retelling::goes_s;
use crate::tables;
use crate::tables::Walk;
use crate::tabletold;
use crate::types::{ImportStats, ParagraphV, TableCellV, TableRowV, TableV};
use crate::wholepara;
use crate::wholepara::{between_paras_s, kept_paragraph_s, no_ranges_s, simple_para_s};

verus! {

broadcast use vstd::string::group_string_axioms;

// ---------------------------------------------------------------- the paragraphs of a cell

/// Whether `e` is the reader `s` with its table read on.
pub open spec fn read_on_s(s: DocReaderV, e: DocReaderV) -> bool {
    &&& e == (DocReaderV {
        para: e.para,
        run: e.run,
        tbl: e.tbl,
        marks: AnchorReaderV { appended: e.marks.appended, ..s.marks },
        stats: ImportStats { table_paragraphs: e.stats.table_paragraphs, ..s.stats },
        ..s
    })
    &&& between_paras_s(e)
}

/// Paragraphs `from` up to `to` as they are kept.
pub open spec fn kept_range_s(paras: Seq<ParagraphV>, from: int, to: int) -> Seq<ParagraphV> {
    Seq::new((to - from) as nat, |i: int| kept_paragraph_s(paras[from + i]))
}

/// Whether every paragraph is simple and no range opens or closes in one.
pub open spec fn simple_paras_s(paras: Seq<ParagraphV>, base: int, sp: ExportSpansV) -> bool {
    forall|i: int|
        0 <= i < paras.len() ==> simple_para_s(#[trigger] paras[i]) && no_ranges_s(sp, base + i)
}

proof fn lemma_cell_para(pen: Pen, p: ParagraphV, at: int, sp: ExportSpansV, s: DocReaderV) -> (o: (
    Seq<Piece>,
    DocReaderV,
    Seq<char>,
))
    requires
        between_paras_s(s),
        s.tbl.depth == 1,
        s.tbl.cell is Some,
        simple_para_s(p),
        no_ranges_s(sp, at),
        wholepara::para_ids_fresh_s(pen, p, at, sp),
    ensures
        goes_s(s, o.0, o.1, o.2),
        read_on_s(s, o.1),
        o.1.tbl == import_table::cell_para_s(s.tbl, kept_paragraph_s(p)),
        para::para_s(pen, p, at, sp).text == pen.text + o.2,
{
    let (v, a, x) = wholepara::lemma_para_open(pen, p, at, sp, s);
    wholepara::lemma_para_lits();
    wholepara::lemma_close_para(a);
    let q = Piece::Close("w:p"@);
    let e = hearing::hear_s(a, q);
    retelling::lemma_goes_on(s, v, a, x, q, "</w:p>"@, e);
    (v + seq![q], e, x + "</w:p>"@)
}

/// The pen at the first paragraph of a cell.
pub open spec fn cell_start_s(pen: Pen, c: TableCellV) -> Pen {
    pen.put("<w:tc>"@).put(tables::tcpr_s(c))
}

/// Whether the id of each revision in a cell is not handed out before its element is written.
pub open spec fn cell_ids_fresh_s(
    pen: Pen,
    c: TableCellV,
    paras: Seq<ParagraphV>,
    pos: int,
    base: int,
    sp: ExportSpansV,
) -> bool {
    forall|i: int|
        0 <= i < c.para_count ==> wholepara::para_ids_fresh_s(
            #[trigger] tables::cell_paras_s(
                cell_start_s(pen, c),
                c,
                paras,
                pos,
                base,
                sp,
                i as nat,
            ),
            paras[pos + i],
            base + pos + i,
            sp,
        )
}

proof fn lemma_next_para(
    st: Pen,
    c: TableCellV,
    paras: Seq<ParagraphV>,
    pos: int,
    base: int,
    sp: ExportSpansV,
    m: nat,
)
    requires
        c.nested.len() == 0,
        0 <= pos,
        pos + m < paras.len(),
    ensures
        tables::cell_paras_s(st, c, paras, pos, base, sp, m + 1) == para::para_s(
            tables::cell_paras_s(st, c, paras, pos, base, sp, m),
            paras[pos + m],
            base + pos + m,
            sp,
        ),
{
    let mid = tables::cell_paras_s(st, c, paras, pos, base, sp, m);
    assert(tables::nested_s(c.nested, m as int, c.nested.len()) == Seq::<char>::empty());
    wholepara::lemma_put_nothing(mid);
}

proof fn lemma_kept_next(paras: Seq<ParagraphV>, a: Seq<ParagraphV>, pos: int, m: nat)
    ensures
        a + kept_range_s(paras, pos, pos + m + 1) == (a + kept_range_s(paras, pos, pos + m)).push(
            kept_paragraph_s(paras[pos + m]),
        ),
{
    assert(a + kept_range_s(paras, pos, pos + m + 1) =~= (a + kept_range_s(paras, pos, pos + m)).push(
        kept_paragraph_s(paras[pos + m]),
    ));
}

#[verifier::rlimit(60)]
#[verifier::spinoff_prover]
proof fn lemma_cell_paras(
    s: DocReaderV,
    pen: Pen,
    c: TableCellV,
    paras: Seq<ParagraphV>,
    pos: int,
    base: int,
    sp: ExportSpansV,
    n: nat,
) -> (o: (Seq<Piece>, DocReaderV, Seq<char>))
    requires
        between_paras_s(s),
        s.tbl.depth == 1,
        s.tbl.cell is Some,
        s.tbl.cell->0.para_count == 0,
        c.nested.len() == 0,
        n <= c.para_count,
        0 <= pos,
        pos + c.para_count <= paras.len(),
        simple_paras_s(paras, base, sp),
        cell_ids_fresh_s(pen, c, paras, pos, base, sp),
    ensures
        goes_s(s, o.0, o.1, o.2),
        read_on_s(s, o.1),
        o.1.tbl == (TableReaderV {
            paras: s.tbl.paras + kept_range_s(paras, pos, pos + n),
            cell: Some(TableCellV { para_count: n as usize, ..s.tbl.cell->0 }),
            ..s.tbl
        }),
        tables::cell_paras_s(cell_start_s(pen, c), c, paras, pos, base, sp, n).text == cell_start_s(
            pen,
            c,
        ).text + o.2,
    decreases n,
{
    let e = Seq::<char>::empty();
    let st = cell_start_s(pen, c);
    if n == 0 {
        retelling::lemma_goes_none(s);
        assert(st.text + e =~= st.text);
        assert(s.tbl.paras + kept_range_s(paras, pos, pos) =~= s.tbl.paras);
        assert(s.tbl.cell->0 == (TableCellV { para_count: 0usize, ..s.tbl.cell->0 }));
        (Seq::empty(), s, e)
    } else {
        let m = (n - 1) as nat;
        let (v, a, x) = lemma_cell_paras(s, pen, c, paras, pos, base, sp, m);
        let mid = tables::cell_paras_s(st, c, paras, pos, base, sp, m);
        let p = paras[pos + m];
        lemma_next_para(st, c, paras, pos, base, sp, m);
        assert(tables::cell_paras_s(st, c, paras, pos, base, sp, m as int as nat) == mid);
        assert(simple_para_s(p) && no_ranges_s(sp, base + (pos + m)));
        let (w, b, y) = lemma_cell_para(mid, p, base + pos + m, sp, a);
        retelling::lemma_goes_both(s, v, a, x, w, b, y);
        markup::lemma_assoc(st.text, x, y);
        lemma_kept_next(paras, s.tbl.paras, pos, m);
        (v + w, b, x + y)
    }
}

// ---------------------------------------------------------------- cells

proof fn lemma_cell_tags(s: DocReaderV)
    requires
        s.tbl.depth == 1,
    ensures
        hearing::hear_s(s, markup::open_s("w:tc"@)) == with_tbl_s(
            s,
            TableReaderV { cell: Some(import_table::new_cell_s()), cell_change: None, ..s.tbl },
        ),
        hearing::fits_s(s, markup::open_s("w:tc"@)),
        hearing::hear_s(s, Piece::Close("w:tc"@)) == with_tbl_s(s, import_table::tc_closed_s(s.tbl)),
        hearing::fits_s(s, Piece::Close("w:tc"@)),
{
    reveal(hearing::hear_s);
    names::lemma_codes();
}

/// Whether a cell is such as markup states: it holds a paragraph and no table.
pub open spec fn simple_cell_s(c: TableCellV) -> bool {
    &&& celltold::stated_cell_s(c)
    &&& celltold::of_cells_s(c.change)
    &&& c.prop_change is None
    &&& c.nested.len() == 0
    &&& c.para_count >= 1
}

/// Whether the reader stands in a row, between its cells.
pub open spec fn between_cells_s(s: DocReaderV) -> bool {
    &&& between_paras_s(s)
    &&& tabletold::in_row_s(s)
    &&& s.tbl.table is Some
    &&& s.tbl.cell_change is None
    &&& s.tbl.cell_prop_change is None
    &&& s.tbl.row_prop_change is None
    &&& s.tbl.table_prop_change is None
}

proof fn lemma_cell_text(
    pen: Pen,
    c: TableCellV,
    paras: Seq<ParagraphV>,
    pos: int,
    base: int,
    sp: ExportSpansV,
    x: Seq<char>,
)
    requires
        simple_cell_s(c),
        pos < paras.len(),
        tables::cell_paras_s(
            cell_start_s(pen, c),
            c,
            paras,
            pos,
            base,
            sp,
            c.para_count as nat,
        ).text == cell_start_s(pen, c).text + x,
    ensures
        tables::cell_s(pen, c, paras, pos, base, sp).text == pen.text + ("<w:tc>"@ + tables::tcpr_s(c) + x
            + "</w:tc>"@),
{
    let mid = tables::cell_paras_s(
        cell_start_s(pen, c),
        c,
        paras,
        pos,
        base,
        sp,
        c.para_count as nat,
    );
    let e = Seq::<char>::empty();
    assert(tables::nested_s(c.nested, c.para_count as int, c.nested.len()) == e);
    wholepara::lemma_put_nothing(mid);
    let a = pen.text;
    let b = "<w:tc>"@;
    let k = tables::tcpr_s(c);
    let d = "</w:tc>"@;
    markup::lemma_assoc(a, b, k);
    markup::lemma_assoc(a, b + k, x);
    markup::lemma_assoc(a, b + k + x, d);
}

proof fn lemma_cell(
    s: DocReaderV,
    pen: Pen,
    c: TableCellV,
    paras: Seq<ParagraphV>,
    pos: int,
    base: int,
    sp: ExportSpansV,
) -> (o: (Seq<Piece>, DocReaderV, Seq<char>))
    requires
        between_cells_s(s),
        !s.tbl.in_trpr,
        simple_cell_s(c),
        0 <= pos,
        pos + c.para_count <= paras.len(),
        simple_paras_s(paras, base, sp),
        cell_ids_fresh_s(pen, c, paras, pos, base, sp),
    ensures
        goes_s(s, o.0, o.1, o.2),
        read_on_s(s, o.1),
        o.1.tbl == (TableReaderV {
            paras: s.tbl.paras + kept_range_s(paras, pos, pos + c.para_count),
            row: Some(TableRowV { cells: s.tbl.row->0.cells.push(c), ..s.tbl.row->0 }),
            ..s.tbl
        }),
        tables::cell_s(pen, c, paras, pos, base, sp).text == pen.text + o.2,
{
    let e = Seq::<char>::empty();
    tabletold::lemma_table_lits();
    markup::lemma_open_text("w:tc"@, "<w:tc>"@);
    lemma_cell_tags(s);
    let q = markup::open_s("w:tc"@);
    let o1 = "<w:tc>"@;
    let s1 = hearing::hear_s(s, q);
    retelling::lemma_goes_none(s);
    retelling::lemma_goes_on(s, Seq::empty(), s, e, q, o1, s1);
    assert(e + o1 =~= o1);
    let v1 = Seq::<Piece>::empty() + seq![q];
    let w = celltold::lemma_tcpr(c, s1);
    let k = tables::tcpr_s(c);
    let s2 = celltold::cell_told_s(
        s1,
        celltold::with_cell_props_s(import_table::new_cell_s(), c),
        c.change,
    );
    assert(goes_s(s1, w, s2, k)) by {
        reveal(goes_s);
    }
    retelling::lemma_goes_both(s, v1, s1, o1, w, s2, k);
    let (u, s3, x) = lemma_cell_paras(s2, pen, c, paras, pos, base, sp, c.para_count as nat);
    retelling::lemma_goes_both(s, v1 + w, s2, o1 + k, u, s3, x);
    lemma_cell_tags(s3);
    let z = Piece::Close("w:tc"@);
    let s4 = hearing::hear_s(s3, z);
    retelling::lemma_goes_on(s, v1 + w + u, s3, o1 + k + x, z, "</w:tc>"@, s4);
    lemma_cell_text(pen, c, paras, pos, base, sp, x);
    assert(s3.tbl.cell->0.nested =~= c.nested);
    (v1 + w + u + seq![z], s4, o1 + k + x + "</w:tc>"@)
}

// ---------------------------------------------------------------- rows

/// Whether each cell of a row is simple, has its paragraphs, and has revision ids that are not
/// handed out before their elements are written.
pub open spec fn cells_fit_s(
    w: Walk,
    cells: Seq<TableCellV>,
    paras: Seq<ParagraphV>,
    base: int,
    sp: ExportSpansV,
) -> bool {
    forall|i: int|
        0 <= i < cells.len() ==> cell_fits_s(
            #[trigger] tables::cells_s(w, cells, paras, base, sp, i as nat),
            cells[i],
            paras,
            base,
            sp,
        )
}

pub open spec fn cell_fits_s(
    w: Walk,
    c: TableCellV,
    paras: Seq<ParagraphV>,
    base: int,
    sp: ExportSpansV,
) -> bool {
    &&& simple_cell_s(c)
    &&& w.pos + c.para_count <= paras.len()
    &&& cell_ids_fresh_s(w.pen, c, paras, w.pos, base, sp)
}

proof fn lemma_kept_both(paras: Seq<ParagraphV>, a: int, b: int, c: int)
    requires
        a <= b <= c,
    ensures
        kept_range_s(paras, a, b) + kept_range_s(paras, b, c) == kept_range_s(paras, a, c),
{
    assert(kept_range_s(paras, a, b) + kept_range_s(paras, b, c) =~= kept_range_s(paras, a, c));
}

proof fn lemma_three(a: Seq<ParagraphV>, b: Seq<ParagraphV>, c: Seq<ParagraphV>)
    ensures
        (a + b) + c == a + (b + c),
{
    assert((a + b) + c =~= a + (b + c));
}

proof fn lemma_cells(
    s: DocReaderV,
    w: Walk,
    cells: Seq<TableCellV>,
    paras: Seq<ParagraphV>,
    base: int,
    sp: ExportSpansV,
    n: nat,
) -> (o: (Seq<Piece>, DocReaderV, Seq<char>))
    requires
        between_cells_s(s),
        !s.tbl.in_trpr,
        n <= cells.len(),
        0 <= w.pos <= paras.len(),
        simple_paras_s(paras, base, sp),
        cells_fit_s(w, cells, paras, base, sp),
    ensures
        goes_s(s, o.0, o.1, o.2),
        read_on_s(s, o.1),
        w.pos <= tables::cells_s(w, cells, paras, base, sp, n).pos <= paras.len(),
        o.1.tbl == (TableReaderV {
            paras: s.tbl.paras + kept_range_s(
                paras,
                w.pos,
                tables::cells_s(w, cells, paras, base, sp, n).pos,
            ),
            row: Some(
                TableRowV {
                    cells: s.tbl.row->0.cells + cells.take(n as int),
                    ..s.tbl.row->0
                },
            ),
            ..s.tbl
        }),
        tables::cells_s(w, cells, paras, base, sp, n).pen.text == w.pen.text + o.2,
    decreases n,
{
    let e = Seq::<char>::empty();
    if n == 0 {
        retelling::lemma_goes_none(s);
        assert(w.pen.text + e =~= w.pen.text);
        assert(s.tbl.paras + kept_range_s(paras, w.pos, w.pos) =~= s.tbl.paras);
        assert(s.tbl.row->0.cells + cells.take(0) =~= s.tbl.row->0.cells);
        (Seq::empty(), s, e)
    } else {
        let m = (n - 1) as nat;
        let (v, a, x) = lemma_cells(s, w, cells, paras, base, sp, m);
        let mid = tables::cells_s(w, cells, paras, base, sp, m);
        let c = cells[m as int];
        assert(cell_fits_s(
            tables::cells_s(w, cells, paras, base, sp, m as int as nat),
            cells[m as int],
            paras,
            base,
            sp,
        ));
        let (u, b, y) = lemma_cell(a, mid.pen, c, paras, mid.pos, base, sp);
        retelling::lemma_goes_both(s, v, a, x, u, b, y);
        markup::lemma_assoc(w.pen.text, x, y);
        lemma_kept_both(paras, w.pos, mid.pos, mid.pos + c.para_count);
        lemma_three(
            s.tbl.paras,
            kept_range_s(paras, w.pos, mid.pos),
            kept_range_s(paras, mid.pos, mid.pos + c.para_count),
        );
        assert((s.tbl.row->0.cells + cells.take(m as int)).push(c) =~= s.tbl.row->0.cells + cells.take(
            n as int,
        ));
        (v + u, b, x + y)
    }
}

proof fn lemma_row_tags(s: DocReaderV)
    requires
        s.tbl.depth == 1,
    ensures
        hearing::hear_s(s, markup::open_s("w:tr"@)) == with_tbl_s(
            s,
            TableReaderV { row: Some(TableRowV::initial()), row_change: None, ..s.tbl },
        ),
        hearing::fits_s(s, markup::open_s("w:tr"@)),
        hearing::hear_s(s, Piece::Close("w:tr"@)) == with_tbl_s(s, import_table::tr_closed_s(s.tbl)),
        hearing::fits_s(s, Piece::Close("w:tr"@)),
{
    reveal(hearing::hear_s);
    names::lemma_codes();
}

/// Whether the reader stands in a table, between its rows.
pub open spec fn between_rows_s(s: DocReaderV) -> bool {
    &&& between_paras_s(s)
    &&& tabletold::in_table_s(s)
    &&& s.tbl.row_change is None
    &&& s.tbl.cell_change is None
    &&& s.tbl.cell_prop_change is None
    &&& s.tbl.row_prop_change is None
    &&& s.tbl.table_prop_change is None
}

/// Where the cells of a row start.
pub open spec fn row_start_s(w: Walk, r: TableRowV) -> Walk {
    Walk { pen: w.pen.put("<w:tr>"@).put(tables::trpr_s(r)), pos: w.pos }
}

pub open spec fn row_fits_s(
    w: Walk,
    r: TableRowV,
    paras: Seq<ParagraphV>,
    base: int,
    sp: ExportSpansV,
) -> bool {
    &&& tabletold::stated_row_s(r)
    &&& cells_fit_s(row_start_s(w, r), r.cells, paras, base, sp)
}

proof fn lemma_row_text(
    w: Walk,
    r: TableRowV,
    paras: Seq<ParagraphV>,
    base: int,
    sp: ExportSpansV,
    x: Seq<char>,
)
    requires
        tables::cells_s(row_start_s(w, r), r.cells, paras, base, sp, r.cells.len()).pen.text
            == row_start_s(w, r).pen.text + x,
    ensures
        tables::row_s(w, r, paras, base, sp).pen.text == w.pen.text + ("<w:tr>"@ + tables::trpr_s(r) + x
            + "</w:tr>"@),
        tables::row_s(w, r, paras, base, sp).pos == tables::cells_s(
            row_start_s(w, r),
            r.cells,
            paras,
            base,
            sp,
            r.cells.len(),
        ).pos,
{
    let a = w.pen.text;
    let b = "<w:tr>"@;
    let k = tables::trpr_s(r);
    let d = "</w:tr>"@;
    markup::lemma_assoc(a, b, k);
    markup::lemma_assoc(a, b + k, x);
    markup::lemma_assoc(a, b + k + x, d);
}

proof fn lemma_row(
    s: DocReaderV,
    w: Walk,
    r: TableRowV,
    paras: Seq<ParagraphV>,
    base: int,
    sp: ExportSpansV,
) -> (o: (Seq<Piece>, DocReaderV, Seq<char>))
    requires
        between_rows_s(s),
        0 <= w.pos <= paras.len(),
        simple_paras_s(paras, base, sp),
        row_fits_s(w, r, paras, base, sp),
    ensures
        goes_s(s, o.0, o.1, o.2),
        read_on_s(s, o.1),
        w.pos <= tables::row_s(w, r, paras, base, sp).pos <= paras.len(),
        o.1.tbl == (TableReaderV {
            paras: s.tbl.paras + kept_range_s(
                paras,
                w.pos,
                tables::row_s(w, r, paras, base, sp).pos,
            ),
            table: Some(TableV { rows: s.tbl.table->0.rows.push(r), ..s.tbl.table->0 }),
            ..s.tbl
        }),
        tables::row_s(w, r, paras, base, sp).pen.text == w.pen.text + o.2,
{
    let e = Seq::<char>::empty();
    tabletold::lemma_table_lits();
    markup::lemma_open_text("w:tr"@, "<w:tr>"@);
    lemma_row_tags(s);
    let q = markup::open_s("w:tr"@);
    let o1 = "<w:tr>"@;
    let s1 = hearing::hear_s(s, q);
    retelling::lemma_goes_none(s);
    retelling::lemma_goes_on(s, Seq::empty(), s, e, q, o1, s1);
    assert(e + o1 =~= o1);
    let v1 = Seq::<Piece>::empty() + seq![q];
    let k = tables::trpr_s(r);
    let u1 = tabletold::lemma_trpr(s1, r);
    let r1 = tabletold::with_row_props_s(TableRowV::initial(), r);
    let s2 = tabletold::row_told_s(s1, r1, r.change);
    retelling::lemma_goes_tags(s1, u1, s2, k);
    retelling::lemma_goes_both(s, v1, s1, o1, u1, s2, k);
    let st = row_start_s(w, r);
    let (u2, s3, x) = lemma_cells(s2, st, r.cells, paras, base, sp, r.cells.len());
    retelling::lemma_goes_both(s, v1 + u1, s2, o1 + k, u2, s3, x);
    lemma_row_tags(s3);
    let z = Piece::Close("w:tr"@);
    let s4 = hearing::hear_s(s3, z);
    retelling::lemma_goes_on(s, v1 + u1 + u2, s3, o1 + k + x, z, "</w:tr>"@, s4);
    lemma_row_text(w, r, paras, base, sp, x);
    assert(r1.cells + r.cells.take(r.cells.len() as int) =~= r.cells);
    (v1 + u1 + u2 + seq![z], s4, o1 + k + x + "</w:tr>"@)
}

// ---------------------------------------------------------------- tables

/// Whether each row of a table fits where it is written.
pub open spec fn rows_fit_s(
    w: Walk,
    rows: Seq<TableRowV>,
    paras: Seq<ParagraphV>,
    base: int,
    sp: ExportSpansV,
) -> bool {
    forall|i: int|
        0 <= i < rows.len() ==> row_fits_s(
            #[trigger] tables::table_rows_s(w, rows, paras, base, sp, i as nat),
            rows[i],
            paras,
            base,
            sp,
        )
}

proof fn lemma_rows(
    s: DocReaderV,
    w: Walk,
    rows: Seq<TableRowV>,
    paras: Seq<ParagraphV>,
    base: int,
    sp: ExportSpansV,
    n: nat,
) -> (o: (Seq<Piece>, DocReaderV, Seq<char>))
    requires
        between_rows_s(s),
        n <= rows.len(),
        0 <= w.pos <= paras.len(),
        simple_paras_s(paras, base, sp),
        rows_fit_s(w, rows, paras, base, sp),
    ensures
        goes_s(s, o.0, o.1, o.2),
        read_on_s(s, o.1),
        w.pos <= tables::table_rows_s(w, rows, paras, base, sp, n).pos <= paras.len(),
        o.1.tbl == (TableReaderV {
            paras: s.tbl.paras + kept_range_s(
                paras,
                w.pos,
                tables::table_rows_s(w, rows, paras, base, sp, n).pos,
            ),
            table: Some(
                TableV { rows: s.tbl.table->0.rows + rows.take(n as int), ..s.tbl.table->0 },
            ),
            ..s.tbl
        }),
        tables::table_rows_s(w, rows, paras, base, sp, n).pen.text == w.pen.text + o.2,
    decreases n,
{
    let e = Seq::<char>::empty();
    if n == 0 {
        retelling::lemma_goes_none(s);
        assert(w.pen.text + e =~= w.pen.text);
        assert(s.tbl.paras + kept_range_s(paras, w.pos, w.pos) =~= s.tbl.paras);
        assert(s.tbl.table->0.rows + rows.take(0) =~= s.tbl.table->0.rows);
        (Seq::empty(), s, e)
    } else {
        let m = (n - 1) as nat;
        let (v, a, x) = lemma_rows(s, w, rows, paras, base, sp, m);
        let mid = tables::table_rows_s(w, rows, paras, base, sp, m);
        let r = rows[m as int];
        assert(row_fits_s(
            tables::table_rows_s(w, rows, paras, base, sp, m as int as nat),
            rows[m as int],
            paras,
            base,
            sp,
        ));
        let (u, b, y) = lemma_row(a, mid, r, paras, base, sp);
        let end = tables::row_s(mid, r, paras, base, sp).pos;
        retelling::lemma_goes_both(s, v, a, x, u, b, y);
        markup::lemma_assoc(w.pen.text, x, y);
        lemma_kept_both(paras, w.pos, mid.pos, end);
        lemma_three(
            s.tbl.paras,
            kept_range_s(paras, w.pos, mid.pos),
            kept_range_s(paras, mid.pos, end),
        );
        assert((s.tbl.table->0.rows + rows.take(m as int)).push(r) =~= s.tbl.table->0.rows + rows.take(
            n as int,
        ));
        (v + u, b, x + y)
    }
}

proof fn lemma_table_open(s: DocReaderV)
    requires
        s.tbl.depth == 0,
    ensures
        hearing::hear_s(s, markup::open_s("w:tbl"@)) == with_tbl_s(
            s,
            TableReaderV {
                depth: 1,
                table: Some(TableV::initial()),
                paras: Seq::empty(),
                ..s.tbl
            },
        ),
        hearing::fits_s(s, markup::open_s("w:tbl"@)),
{
    reveal(hearing::hear_s);
    names::lemma_codes();
}

proof fn lemma_table_close(s: DocReaderV)
    requires
        s.tbl.depth == 1,
        s.tbl.table is Some,
    ensures
        hearing::hear_s(s, Piece::Close("w:tbl"@)) == (DocReaderV {
            tbl: TableReaderV {
                depth: 0,
                table: None,
                table_prop_change: None,
                paras: Seq::empty(),
                ..s.tbl
            },
            items: s.items.push(
                ImportItemV::Table(
                    grid::grid_of_s(
                        TableV { prop_change: s.tbl.table_prop_change, ..s.tbl.table->0 },
                        s.tbl.paras,
                    ),
                ),
            ),
            ..s
        }),
        hearing::fits_s(s, Piece::Close("w:tbl"@)),
{
    reveal(hearing::hear_s);
    names::lemma_codes();
}

/// Whether the reader stands in the body, outside any table.
pub open spec fn outside_tables_s(s: DocReaderV) -> bool {
    &&& between_paras_s(s)
    &&& s.tbl.depth == 0
    &&& s.tbl.table is None
    &&& s.tbl.row is None
    &&& s.tbl.cell is None
    &&& s.tbl.paras.len() == 0
    &&& !s.tbl.in_grid
    &&& !s.tbl.in_tbl_borders
    &&& !s.tbl.in_tc_borders
    &&& !s.tbl.in_tbl_cellmar
    &&& !s.tbl.in_tc_mar
    &&& s.tbl.row_change is None
    &&& s.tbl.cell_change is None
    &&& s.tbl.cell_prop_change is None
    &&& s.tbl.row_prop_change is None
    &&& s.tbl.table_prop_change is None
}

/// What stands before the rows of a table.
pub open spec fn table_head_s(t: TableV) -> Seq<char> {
    "<w:tbl>"@ + tables::tblpr_s(t) + ("<w:tblGrid>"@ + tables::grid_cols_s(
        t.col_widths,
        t.col_widths.len(),
    ) + "</w:tblGrid>"@)
}

/// Where the rows of a table start.
pub open spec fn table_start_s(w: Walk, t: TableV) -> Walk {
    Walk {
        pen: w.pen.put("<w:tbl>"@).put(tables::tblpr_s(t)).put("<w:tblGrid>"@).put(
            tables::grid_cols_s(t.col_widths, t.col_widths.len()),
        ).put("</w:tblGrid>"@),
        pos: w.pos,
    }
}

/// Whether a table is such as markup states, with its paragraphs in `paras`.
pub open spec fn table_fits_s(
    w: Walk,
    t: TableV,
    paras: Seq<ParagraphV>,
    base: int,
    sp: ExportSpansV,
) -> bool {
    &&& tabletold::stated_table_s(t)
    &&& rows_fit_s(table_start_s(w, t), t.rows, paras, base, sp)
}

proof fn lemma_head_text(w: Walk, t: TableV)
    ensures
        table_start_s(w, t).pen.text == w.pen.text + table_head_s(t),
{
    let a = w.pen.text;
    let b = "<w:tbl>"@;
    let c = tables::tblpr_s(t);
    let d = "<w:tblGrid>"@;
    let g = tables::grid_cols_s(t.col_widths, t.col_widths.len());
    let h = "</w:tblGrid>"@;
    markup::lemma_assoc(a, b, c);
    markup::lemma_assoc(a, b + c, d);
    markup::lemma_assoc(a, b + c + d, g);
    markup::lemma_assoc(a, b + c + d + g, h);
    markup::lemma_assoc(b + c, d, g);
    markup::lemma_assoc(b + c, d + g, h);
}

proof fn lemma_head(s: DocReaderV, t: TableV) -> (o: (Seq<Piece>, DocReaderV))
    requires
        outside_tables_s(s),
        tabletold::stated_table_s(t),
    ensures
        goes_s(s, o.0, o.1, table_head_s(t)),
        o.1 == with_tbl_s(
            s,
            TableReaderV {
                depth: 1,
                table: Some(TableV { rows: Seq::empty(), ..t }),
                paras: Seq::empty(),
                ..s.tbl
            },
        ),
{
    let e = Seq::<char>::empty();
    tabletold::lemma_table_lits();
    markup::lemma_open_text("w:tbl"@, "<w:tbl>"@);
    lemma_table_open(s);
    let q = markup::open_s("w:tbl"@);
    let o1 = "<w:tbl>"@;
    let s1 = hearing::hear_s(s, q);
    retelling::lemma_goes_none(s);
    retelling::lemma_goes_on(s, Seq::empty(), s, e, q, o1, s1);
    assert(e + o1 =~= o1);
    let v1 = Seq::<Piece>::empty() + seq![q];
    let k = tables::tblpr_s(t);
    let u1 = tabletold::lemma_tblpr(s1, t);
    let s2 = tabletold::with_table_s(s1, tabletold::with_table_props_s(TableV::initial(), t));
    retelling::lemma_goes_tags(s1, u1, s2, k);
    retelling::lemma_goes_both(s, v1, s1, o1, u1, s2, k);
    let g = "<w:tblGrid>"@ + tables::grid_cols_s(t.col_widths, t.col_widths.len()) + "</w:tblGrid>"@;
    let u2 = tabletold::lemma_grid(s2, t);
    let s3 = tabletold::with_table_s(s2, TableV { col_widths: t.col_widths, ..s2.tbl.table->0 });
    retelling::lemma_goes_tags(s2, u2, s3, g);
    retelling::lemma_goes_both(s, v1 + u1, s2, o1 + k, u2, s3, g);
    (v1 + u1 + u2, s3)
}

/// Whether `e` is the reader `s` with one more table of the body read.
pub open spec fn table_read_s(s: DocReaderV, e: DocReaderV, g: ImportItemV) -> bool {
    &&& e.items == s.items.push(g)
    &&& e == (DocReaderV {
        para: e.para,
        run: e.run,
        items: e.items,
        marks: AnchorReaderV { appended: e.marks.appended, ..s.marks },
        stats: ImportStats { table_paragraphs: e.stats.table_paragraphs, ..s.stats },
        ..s
    })
    &&& outside_tables_s(e)
}

/// The table with its paragraphs as they are kept, as an item of the body.
pub open spec fn table_item_s(w: Walk, t: TableV, paras: Seq<ParagraphV>, to: int) -> ImportItemV {
    ImportItemV::Table(grid::grid_of_s(t, kept_range_s(paras, w.pos, to)))
}

pub(crate) proof fn lemma_table(
    s: DocReaderV,
    w: Walk,
    t: TableV,
    paras: Seq<ParagraphV>,
    base: int,
    sp: ExportSpansV,
) -> (o: (Seq<Piece>, DocReaderV, Seq<char>))
    requires
        outside_tables_s(s),
        0 <= w.pos <= paras.len(),
        simple_paras_s(paras, base, sp),
        table_fits_s(w, t, paras, base, sp),
    ensures
        goes_s(s, o.0, o.1, o.2),
        table_read_s(
            s,
            o.1,
            table_item_s(w, t, paras, tables::tbl_s(w, t, paras, base, sp).pos),
        ),
        w.pos <= tables::tbl_s(w, t, paras, base, sp).pos <= paras.len(),
        tables::tbl_s(w, t, paras, base, sp).pen.text == w.pen.text + o.2,
{
    let (v1, s1) = lemma_head(s, t);
    let st = table_start_s(w, t);
    lemma_head_text(w, t);
    let h = table_head_s(t);
    let (v2, s2, x) = lemma_rows(s1, st, t.rows, paras, base, sp, t.rows.len());
    retelling::lemma_goes_both(s, v1, s1, h, v2, s2, x);
    tabletold::lemma_table_lits();
    lemma_table_close(s2);
    let z = Piece::Close("w:tbl"@);
    let d = "</w:tbl>"@;
    let s3 = hearing::hear_s(s2, z);
    retelling::lemma_goes_on(s, v1 + v2, s2, h + x, z, d, s3);
    markup::lemma_assoc(w.pen.text, h, x);
    markup::lemma_assoc(w.pen.text, h + x, d);
    let to = tables::tbl_s(w, t, paras, base, sp).pos;
    assert(Seq::<TableRowV>::empty() + t.rows.take(t.rows.len() as int) =~= t.rows);
    assert(Seq::<ParagraphV>::empty() + kept_range_s(paras, w.pos, to) =~= kept_range_s(
        paras,
        w.pos,
        to,
    ));
    assert(s3.tbl.paras =~= s.tbl.paras);
    (v1 + v2 + seq![z], s3, h + x + d)
}

/// Whether markup `v` is what is written of a table, and reading it takes the reader to `e`.
pub open spec fn whole_table_back_s(
    w: Walk,
    t: TableV,
    paras: Seq<ParagraphV>,
    base: int,
    sp: ExportSpansV,
    s: DocReaderV,
    v: Seq<Piece>,
    e: DocReaderV,
) -> bool {
    &&& tables::tbl_s(w, t, paras, base, sp).pen.text == w.pen.text + markup::text_s(v, v.len())
    &&& hearing::reads_s(s, v, e)
    &&& table_read_s(
        s,
        e,
        table_item_s(w, t, paras, tables::tbl_s(w, t, paras, base, sp).pos),
    )
}

/// What is written of a table reads back as that table: its properties and columns, its rows and
/// cells in order, each with its properties, and in each cell its paragraphs.
pub proof fn law_written_table_reads_back(
    w: Walk,
    t: TableV,
    paras: Seq<ParagraphV>,
    base: int,
    sp: ExportSpansV,
    s: DocReaderV,
)
    requires
        outside_tables_s(s),
        0 <= w.pos <= paras.len(),
        simple_paras_s(paras, base, sp),
        table_fits_s(w, t, paras, base, sp),
    ensures
        exists|v: Seq<Piece>, e: DocReaderV| #[trigger]
            whole_table_back_s(w, t, paras, base, sp, s, v, e),
{
    let (v, e, x) = lemma_table(s, w, t, paras, base, sp);
    reveal(goes_s);
    hearing::lemma_reads(s, v, e);
    assert(whole_table_back_s(w, t, paras, base, sp, s, v, e));
}

} // verus!
