//! Row and table properties read back from the markup that they are written as.

use vstd::prelude::*;
use crate::celltold;
use crate::celltold::{edge_tag_s, of_cells_s, stated_border_s, stated_margins_s, with_tbl_s};
use crate::events;
use crate::events::XmlTagV;
use crate::hearing;
use crate::import::DocReaderV;
use crate::import_table;
use crate::import_table::TableReaderV;
use crate::markup;
use crate::markup::Piece;
use crate::names;
use crate::strs;
use crate::style_parse;
use crate::tables;
use crate::telling;
use crate::telling::told_so_far_s;
use crate::types::{BorderV, CellMargins, EdgeBordersV, TableRowV, TableV, TrackKind, TrackV};
use crate::xml;

verus! {

broadcast use vstd::string::group_string_axioms;

// ---------------------------------------------------------------- rows

/// Whether the reader stands in a row, outside its cells.
pub open spec fn in_row_s(s: DocReaderV) -> bool {
    &&& s.skip is None
    &&& !s.para.in_para
    &&& !s.para.in_mark_rpr
    &&& !s.para.in_pbdr
    &&& !s.run.in_rpr
    &&& s.tbl.depth == 1
    &&& s.tbl.row is Some
    &&& s.tbl.cell is None
    &&& !s.tbl.in_tbl_borders
    &&& !s.tbl.in_tc_borders
    &&& !s.tbl.in_tbl_cellmar
    &&& !s.tbl.in_tc_mar
    &&& !s.tbl.in_grid
}

pub open spec fn with_row_s(s: DocReaderV, r: TableRowV) -> DocReaderV {
    with_tbl_s(s, TableReaderV { row: Some(r), ..s.tbl })
}

proof fn lemma_row_leaf(s: DocReaderV, t: XmlTagV)
    requires
        s.tbl.row is Some,
        t.name == "w:trHeight"@ || t.name == "w:cantSplit"@,
    ensures
        hearing::hear_s(s, Piece::Bare(t)) == with_row_s(
            s,
            import_table::row_leaf_s(s.tbl.row->0, t),
        ),
        hearing::fits_s(s, Piece::Bare(t)),
{
    reveal(hearing::hear_s);
    names::lemma_codes();
}

proof fn lemma_row_jc(s: DocReaderV, t: XmlTagV)
    requires
        s.tbl.row is Some,
        s.tbl.in_trpr,
        t.name == "w:jc"@,
    ensures
        hearing::hear_s(s, Piece::Bare(t)) == with_row_s(
            s,
            TableRowV { justify: events::attr_s(t, "w:val"@), ..s.tbl.row->0 },
        ),
        hearing::fits_s(s, Piece::Bare(t)),
{
    reveal(hearing::hear_s);
    names::lemma_codes();
}

proof fn lemma_row_change(s: DocReaderV, t: XmlTagV)
    requires
        s.tbl.in_trpr,
        !s.para.in_mark_rpr,
        t.name == "w:ins"@ || t.name == "w:del"@,
    ensures
        hearing::hear_s(s, Piece::Bare(t)) == with_tbl_s(
            s,
            TableReaderV {
                row_change: Some(
                    events::revision_track_s(
                        t,
                        if t.name == "w:ins"@ {
                            TrackKind::Ins
                        } else {
                            TrackKind::Del
                        },
                    ),
                ),
                ..s.tbl
            },
        ),
        hearing::fits_s(s, Piece::Bare(t)),
{
    reveal(hearing::hear_s);
    names::lemma_codes();
}

proof fn lemma_row_block(s: DocReaderV)
    requires
        s.tbl.row is Some,
        s.tbl.depth == 1,
        !s.para.in_para,
    ensures
        hearing::hear_s(s, markup::open_s("w:trPr"@)) == with_tbl_s(
            s,
            TableReaderV { in_trpr: true, ..s.tbl },
        ),
        hearing::fits_s(s, markup::open_s("w:trPr"@)),
        hearing::hear_s(s, Piece::Close("w:trPr"@)) == with_tbl_s(
            s,
            TableReaderV { in_trpr: false, ..s.tbl },
        ),
        hearing::fits_s(s, Piece::Close("w:trPr"@)),
{
    reveal(hearing::hear_s);
    names::lemma_codes();
}

/// Whether a row's properties are such as markup states.
pub open spec fn stated_row_s(r: TableRowV) -> bool {
    &&& r.height is None ==> !r.height_exact
    &&& of_cells_s(r.change)
    &&& r.prop_change is None
}

pub open spec fn height_tag_s(h: u32, exact: bool) -> XmlTagV {
    celltold::two_s(
        "w:trHeight"@,
        ("w:val"@, strs::dec_s(h as nat)),
        (
            "w:hRule"@,
            if exact {
                "exact"@
            } else {
                "atLeast"@
            },
        ),
    )
}

proof fn lemma_height(h: u32, exact: bool)
    ensures
        tables::height_s(Some(h), exact) == markup::piece_text_s(Piece::Bare(height_tag_s(h, exact))),
        events::attr_u32_s(height_tag_s(h, exact), "w:val"@) == Some(h),
        (events::attr_s(height_tag_s(h, exact), "w:hRule"@) == Some("exact"@)) == exact,
        height_tag_s(h, exact).name == "w:trHeight"@,
{
    names::lemma_codes();
    let d = strs::dec_s(h as nat);
    let r = if exact {
        "exact"@
    } else {
        "atLeast"@
    };
    celltold::lemma_two_text("w:trHeight"@, ("w:val"@, d), ("w:hRule"@, r));
    markup::lemma_esc_dec(h as nat);
    strs::lemma_dec_parses(h as nat, u32::MAX as nat);
    assert(xml::esc_s(r) == r && ((r == "exact"@) == exact)) by {
        reveal_strlit("exact");
        reveal_strlit("atLeast");
        markup::lemma_esc_word(r);
    }
    lemma_height_text(d, r);
}

proof fn lemma_height_text(d: Seq<char>, r: Seq<char>)
    ensures
        "<w:trHeight w:val=\""@ + d + "\" w:hRule=\""@ + r + "\"/>"@ == "<"@ + "w:trHeight"@ + (" "@
            + "w:val"@ + "=\""@ + d + "\""@) + (" "@ + "w:hRule"@ + "=\""@ + r + "\""@) + "/>"@,
{
    let x = "<"@ + "w:trHeight"@;
    let y = " "@ + "w:val"@ + "=\""@;
    let q = "\""@;
    let z = " "@ + "w:hRule"@ + "=\""@;
    let e = "/>"@;
    assert("<w:trHeight w:val=\""@ =~= x + y && "\" w:hRule=\""@ =~= q + z && "\"/>"@ =~= q + e) by {
        reveal_strlit("<w:trHeight w:val=\"");
        reveal_strlit("\" w:hRule=\"");
        reveal_strlit("\"/>");
        reveal_strlit("<");
        reveal_strlit("w:trHeight");
        reveal_strlit(" ");
        reveal_strlit("w:val");
        reveal_strlit("=\"");
        reveal_strlit("\"");
        reveal_strlit("w:hRule");
        reveal_strlit("/>");
    }
    assert((x + y) + d + (q + z) + r + (q + e) =~= x + (y + d + q) + (z + r + q) + e);
}

pub open spec fn row_change_tag_s(t: TrackV) -> XmlTagV {
    markup::tag_s(
        if t.kind == TrackKind::Del {
            "w:del"@
        } else {
            "w:ins"@
        },
        telling::revision_attrs_s(t.id as nat, t.author, t.date),
    )
}

proof fn lemma_row_change_text(t: TrackV)
    ensures
        tables::row_change_s(Some(t)) == markup::piece_text_s(Piece::Bare(row_change_tag_s(t))),
{
    let n = row_change_tag_s(t).name;
    telling::lemma_revision_tag(n, t.id as nat, t.author, t.date);
    reveal_strlit("<w:del");
    reveal_strlit("<w:ins");
    reveal_strlit("w:del");
    reveal_strlit("w:ins");
    reveal_strlit("<");
    assert("<w:del"@ =~= "<"@ + "w:del"@);
    assert("<w:ins"@ =~= "<"@ + "w:ins"@);
}

/// The row `c` with the properties of `d`.
pub open spec fn with_row_props_s(c: TableRowV, d: TableRowV) -> TableRowV {
    TableRowV {
        height: d.height,
        height_exact: d.height_exact,
        cant_split: d.cant_split,
        justify: d.justify,
        ..c
    }
}

/// The reader after the properties of a row.
pub open spec fn row_told_s(s: DocReaderV, c: TableRowV, o: Option<TrackV>) -> DocReaderV {
    with_tbl_s(s, TableReaderV { row: Some(c), row_change: o, ..s.tbl })
}

pub open spec fn fresh_row_s(c: TableRowV) -> bool {
    c.height is None && !c.height_exact && !c.cant_split && c.justify is None
}

proof fn lemma_row_inner(s: DocReaderV, d: TableRowV) -> (v: Seq<Piece>)
    requires
        in_row_s(s),
        s.tbl.in_trpr,
        s.tbl.row_change is None,
        fresh_row_s(s.tbl.row->0),
        stated_row_s(d),
    ensures
        told_so_far_s(
            s,
            v,
            row_told_s(s, with_row_props_s(s.tbl.row->0, d), d.change),
            strs::when_s(d.cant_split, "<w:cantSplit/>"@) + tables::height_s(d.height, d.height_exact)
                + xml::opt_esc_s("<w:jc w:val=\""@, d.justify, "\"/>"@) + tables::row_change_s(d.change),
        ),
{
    names::lemma_codes();
    let c0 = s.tbl.row->0;
    let e = Seq::<char>::empty();
    telling::lemma_told_none(s);
    assert("<w:cantSplit/>"@ =~= "<"@ + "w:cantSplit"@ + "/>"@ && "<w:jc w:val=\""@ =~= "<"@ + "w:jc"@
        + " "@ + "w:val"@ + "=\""@) by {
        reveal_strlit("<w:cantSplit/>");
        reveal_strlit("<w:jc w:val=\"");
        reveal_strlit("<");
        reveal_strlit("w:cantSplit");
        reveal_strlit("/>");
        reveal_strlit("w:jc");
        reveal_strlit(" ");
        reveal_strlit("w:val");
        reveal_strlit("=\"");
    }
    markup::lemma_bare_text("w:cantSplit"@, "<w:cantSplit/>"@);
    markup::lemma_no_attrs("w:cantSplit"@);
    let x1 = strs::when_s(d.cant_split, "<w:cantSplit/>"@);
    let c1 = TableRowV { cant_split: d.cant_split, ..c0 };
    let s1 = with_row_s(s, c1);
    let t1 = markup::tag_s("w:cantSplit"@, Seq::empty());
    lemma_row_leaf(s, t1);
    assert(d.cant_split ==> import_table::row_leaf_s(c0, t1) =~= c1);
    assert(!d.cant_split ==> s1 == s);
    let v1 = celltold::lemma_told_on(s, Seq::empty(), s, e, d.cant_split, Piece::Bare(t1), x1, s1);
    assert(e + x1 =~= x1);
    let h = match d.height {
        Some(h) => h,
        None => 0,
    };
    let x2 = tables::height_s(d.height, d.height_exact);
    let t2 = height_tag_s(h, d.height_exact);
    lemma_height(h, d.height_exact);
    let c2 = TableRowV { height: d.height, height_exact: d.height_exact, ..c1 };
    let s2 = with_row_s(s, c2);
    lemma_row_leaf(s1, t2);
    assert(d.height is Some ==> import_table::row_leaf_s(c1, t2) =~= c2);
    assert(d.height is None ==> s2 == s1);
    let v2 = celltold::lemma_told_on(s, v1, s1, x1, d.height is Some, Piece::Bare(t2), x2, s2);
    let x3 = xml::opt_esc_s("<w:jc w:val=\""@, d.justify, "\"/>"@);
    telling::lemma_opt_text("w:jc"@, d.justify, "<w:jc w:val=\""@);
    let t3 = telling::val_tag_s("w:jc"@, telling::some_s(d.justify));
    let c3 = TableRowV { justify: d.justify, ..c2 };
    let s3 = with_row_s(s, c3);
    lemma_row_jc(s2, t3);
    assert(d.justify is None ==> s3 == s2);
    let v3 = celltold::lemma_told_on(s, v2, s2, x1 + x2, d.justify is Some, Piece::Bare(t3), x3, s3);
    let k = match d.change {
        Some(t) => t,
        None => TrackV { kind: TrackKind::Ins, author: Seq::empty(), date: Seq::empty(), id: 0 },
    };
    let t4 = row_change_tag_s(k);
    lemma_row_change_text(k);
    telling::lemma_revision_read(t4.name, k);
    lemma_row_change(s3, t4);
    assert(c3 =~= with_row_props_s(c0, d));
    let s4 = row_told_s(s, with_row_props_s(c0, d), d.change);
    assert(d.change is None ==> s4 == s3);
    celltold::lemma_told_on(
        s,
        v3,
        s3,
        x1 + x2 + x3,
        d.change is Some,
        Piece::Bare(t4),
        tables::row_change_s(d.change),
        s4,
    )
}

/// The properties block of a row.
pub(crate) proof fn lemma_trpr(s: DocReaderV, d: TableRowV) -> (v: Seq<Piece>)
    requires
        in_row_s(s),
        !s.tbl.in_trpr,
        s.tbl.row_change is None,
        fresh_row_s(s.tbl.row->0),
        stated_row_s(d),
    ensures
        told_so_far_s(
            s,
            v,
            row_told_s(s, with_row_props_s(s.tbl.row->0, d), d.change),
            tables::trpr_s(d),
        ),
{
    let f = row_told_s(s, with_row_props_s(s.tbl.row->0, d), d.change);
    let x = strs::when_s(d.cant_split, "<w:cantSplit/>"@) + tables::height_s(d.height, d.height_exact)
        + xml::opt_esc_s("<w:jc w:val=\""@, d.justify, "\"/>"@) + tables::row_change_s(d.change);
    let e = Seq::<char>::empty();
    assert(x + tables::prop_change_s(d.prop_change) =~= x);
    telling::lemma_told_none(s);
    let s1 = with_tbl_s(s, TableReaderV { in_trpr: true, ..s.tbl });
    let w = lemma_row_inner(s1, d);
    let s2 = row_told_s(s1, with_row_props_s(s.tbl.row->0, d), d.change);
    if x.len() == 0 {
        assert(w.len() == 0 && s2 == s1) by {
            reveal(told_so_far_s);
            telling::lemma_tags_len(w, w.len());
        }
        assert(f == s);
        Seq::empty()
    } else {
        lemma_row_lits();
        markup::lemma_open_text("w:trPr"@, "<w:trPr>"@);
        let o = "<w:trPr>"@;
        let c = "</w:trPr>"@;
        lemma_row_block(s);
        lemma_row_block(s2);
        let v1 = celltold::lemma_told_on(s, Seq::empty(), s, e, true, markup::open_s("w:trPr"@), o, s1);
        assert(e + o =~= o);
        celltold::lemma_told_both(s, v1, s1, o, w, s2, x);
        assert(f == with_tbl_s(s2, TableReaderV { in_trpr: false, ..s2.tbl }));
        celltold::lemma_told_on(s, v1 + w, s2, o + x, true, Piece::Close("w:trPr"@), c, f)
    }
}

proof fn lemma_row_lits()
    ensures
        "<w:trPr>"@ == "<"@ + "w:trPr"@ + ">"@,
        "</w:trPr>"@ == "</"@ + "w:trPr"@ + ">"@,
{
    reveal_strlit("<w:trPr>");
    reveal_strlit("</w:trPr>");
    reveal_strlit("<");
    reveal_strlit("</");
    reveal_strlit(">");
    reveal_strlit("w:trPr");
    assert("<w:trPr>"@ =~= "<"@ + "w:trPr"@ + ">"@);
    assert("</w:trPr>"@ =~= "</"@ + "w:trPr"@ + ">"@);
}

/// Whether markup `v` is the properties block of a row, and reading it takes the reader to `e`.
pub open spec fn row_back_s(d: TableRowV, s: DocReaderV, v: Seq<Piece>, e: DocReaderV) -> bool {
    &&& markup::spells_s(v, tables::trpr_s(d))
    &&& hearing::reads_s(s, v, e)
    &&& e == row_told_s(s, with_row_props_s(s.tbl.row->0, d), d.change)
}

/// What is written of a row's properties reads back into a new row: its height and whether that is
/// exact, whether it may be split, its alignment, and whether it is inserted or deleted, by whom,
/// when and under which id.
pub proof fn law_row_properties_read_back(d: TableRowV, s: DocReaderV)
    requires
        in_row_s(s),
        !s.tbl.in_trpr,
        s.tbl.row_change is None,
        fresh_row_s(s.tbl.row->0),
        stated_row_s(d),
    ensures
        exists|v: Seq<Piece>, e: DocReaderV| #[trigger] row_back_s(d, s, v, e),
{
    let v = lemma_trpr(s, d);
    let e = row_told_s(s, with_row_props_s(s.tbl.row->0, d), d.change);
    reveal(told_so_far_s);
    hearing::lemma_reads(s, v, e);
    assert(row_back_s(d, s, v, e));
}

// ---------------------------------------------------------------- tables

/// Whether the reader stands in a table, outside its rows.
pub open spec fn in_table_s(s: DocReaderV) -> bool {
    &&& s.skip is None
    &&& !s.para.in_para
    &&& !s.para.in_mark_rpr
    &&& !s.para.in_pbdr
    &&& !s.run.in_rpr
    &&& s.tbl.depth == 1
    &&& s.tbl.table is Some
    &&& s.tbl.row is None
    &&& s.tbl.cell is None
    &&& !s.tbl.in_tbl_borders
    &&& !s.tbl.in_tc_borders
    &&& !s.tbl.in_tbl_cellmar
    &&& !s.tbl.in_tc_mar
    &&& !s.tbl.in_trpr
    &&& !s.tbl.in_grid
}

pub open spec fn with_table_s(s: DocReaderV, t: TableV) -> DocReaderV {
    with_tbl_s(s, TableReaderV { table: Some(t), ..s.tbl })
}

proof fn lemma_table_style(s: DocReaderV, t: XmlTagV)
    requires
        s.tbl.table is Some,
        s.tbl.depth == 1,
        t.name == "w:tblStyle"@,
    ensures
        hearing::hear_s(s, Piece::Bare(t)) == with_table_s(
            s,
            TableV { style: events::attr_s(t, "w:val"@), ..s.tbl.table->0 },
        ),
        hearing::fits_s(s, Piece::Bare(t)),
{
    reveal(hearing::hear_s);
    names::lemma_codes();
}

proof fn lemma_table_width(s: DocReaderV, t: XmlTagV)
    requires
        !s.run.in_rpr,
        t.name == "w:tblW"@,
    ensures
        hearing::hear_s(s, Piece::Bare(t)) == s,
        hearing::fits_s(s, Piece::Bare(t)),
{
    reveal(hearing::hear_s);
    names::lemma_codes();
}

proof fn lemma_table_jc(s: DocReaderV, t: XmlTagV)
    requires
        in_table_s(s),
        t.name == "w:jc"@,
    ensures
        hearing::hear_s(s, Piece::Bare(t)) == with_table_s(
            s,
            TableV { justify: events::attr_s(t, "w:val"@), ..s.tbl.table->0 },
        ),
        hearing::fits_s(s, Piece::Bare(t)),
{
    reveal(hearing::hear_s);
    names::lemma_codes();
}

proof fn lemma_grid_col(s: DocReaderV, t: XmlTagV)
    requires
        s.tbl.table is Some,
        s.tbl.in_grid,
        t.name == "w:gridCol"@,
        events::attr_u32_s(t, "w:w"@) is Some,
    ensures
        hearing::hear_s(s, Piece::Bare(t)) == with_table_s(
            s,
            TableV {
                col_widths: s.tbl.table->0.col_widths.push(events::attr_u32_s(t, "w:w"@)->0),
                ..s.tbl.table->0
            },
        ),
        hearing::fits_s(s, Piece::Bare(t)),
{
    reveal(hearing::hear_s);
    names::lemma_codes();
}

proof fn lemma_table_blocks(s: DocReaderV)
    requires
        s.tbl.depth == 1,
        !s.run.in_rpr,
    ensures
        hearing::hear_s(s, markup::open_s("w:tblBorders"@)) == with_tbl_s(
            s,
            TableReaderV { in_tbl_borders: true, ..s.tbl },
        ),
        hearing::fits_s(s, markup::open_s("w:tblBorders"@)),
        hearing::hear_s(s, Piece::Close("w:tblBorders"@)) == with_tbl_s(
            s,
            TableReaderV { in_tbl_borders: false, ..s.tbl },
        ),
        hearing::fits_s(s, Piece::Close("w:tblBorders"@)),
        hearing::hear_s(s, markup::open_s("w:tblCellMar"@)) == with_tbl_s(
            s,
            TableReaderV { in_tbl_cellmar: true, ..s.tbl },
        ),
        hearing::fits_s(s, markup::open_s("w:tblCellMar"@)),
        hearing::hear_s(s, Piece::Close("w:tblCellMar"@)) == with_tbl_s(
            s,
            TableReaderV { in_tbl_cellmar: false, ..s.tbl },
        ),
        hearing::fits_s(s, Piece::Close("w:tblCellMar"@)),
        hearing::hear_s(s, markup::open_s("w:tblGrid"@)) == with_tbl_s(
            s,
            TableReaderV { in_grid: true, ..s.tbl },
        ),
        hearing::fits_s(s, markup::open_s("w:tblGrid"@)),
        hearing::hear_s(s, Piece::Close("w:tblGrid"@)) == with_tbl_s(
            s,
            TableReaderV { in_grid: false, ..s.tbl },
        ),
        hearing::fits_s(s, Piece::Close("w:tblGrid"@)),
        hearing::hear_s(s, markup::open_s("w:tblPr"@)) == s,
        hearing::fits_s(s, markup::open_s("w:tblPr"@)),
        hearing::hear_s(s, Piece::Close("w:tblPr"@)) == s,
        hearing::fits_s(s, Piece::Close("w:tblPr"@)),
{
    reveal(hearing::hear_s);
    names::lemma_codes();
}

proof fn lemma_table_edge(s: DocReaderV, t: XmlTagV)
    requires
        s.tbl.table is Some,
        s.tbl.in_tbl_borders,
        !s.tbl.in_tc_borders,
        !s.para.in_pbdr,
        style_parse::is_edge_s(t.name),
    ensures
        hearing::hear_s(s, Piece::Bare(t)) == with_table_s(
            s,
            TableV {
                borders: style_parse::with_edge_s(
                    s.tbl.table->0.borders,
                    t.name,
                    style_parse::border_s(t),
                ),
                ..s.tbl.table->0
            },
        ),
        hearing::fits_s(s, Piece::Bare(t)),
{
    reveal(hearing::hear_s);
    names::lemma_codes();
}

proof fn lemma_table_margin(s: DocReaderV, t: XmlTagV)
    requires
        s.tbl.table is Some,
        s.tbl.in_tbl_cellmar,
        !s.tbl.in_tc_mar,
        !s.tbl.in_tc_borders,
        !s.tbl.in_tbl_borders,
        !s.para.in_pbdr,
        style_parse::is_side_s(t.name),
    ensures
        hearing::hear_s(s, Piece::Bare(t)) == with_table_s(
            s,
            TableV {
                cell_margins: Some(
                    style_parse::with_margin_s(
                        events::or_s(s.tbl.table->0.cell_margins, CellMargins::initial()),
                        t.name,
                        Some(events::or_s(events::attr_u32_s(t, "w:w"@), 0)),
                    ),
                ),
                ..s.tbl.table->0
            },
        ),
        hearing::fits_s(s, Piece::Bare(t)),
{
    reveal(hearing::hear_s);
    names::lemma_codes();
}

#[verifier::opaque]
spec fn at_table_s(s0: DocReaderV, v: Seq<Piece>, s: DocReaderV, t: TableV, a: Seq<char>) -> bool {
    told_so_far_s(s0, v, with_table_s(s, t), a)
}

proof fn lemma_put(
    s0: DocReaderV,
    v: Seq<Piece>,
    s: DocReaderV,
    c: TableV,
    a: Seq<char>,
    on: bool,
    p: Piece,
    x: Seq<char>,
    d: TableV,
) -> (w: Seq<Piece>)
    requires
        at_table_s(s0, v, s, c, a),
        !(p is Chars),
        on ==> hearing::fits_s(with_table_s(s, c), p) && x == markup::piece_text_s(p) && with_table_s(
            s,
            d,
        ) == hearing::hear_s(with_table_s(s, c), p),
        !on ==> x == Seq::<char>::empty() && d == c,
    ensures
        at_table_s(s0, w, s, d, a + x),
{
    reveal(at_table_s);
    celltold::lemma_told_on(s0, v, with_table_s(s, c), a, on, p, x, with_table_s(s, d))
}

proof fn lemma_block(
    s0: DocReaderV,
    v: Seq<Piece>,
    s: DocReaderV,
    c: TableV,
    a: Seq<char>,
    p: Piece,
    x: Seq<char>,
    t: TableReaderV,
) -> (w: Seq<Piece>)
    requires
        at_table_s(s0, v, s, c, a),
        !(p is Chars),
        x == markup::piece_text_s(p),
        hearing::fits_s(with_table_s(s, c), p),
        hearing::hear_s(with_table_s(s, c), p) == with_table_s(with_tbl_s(s, t), c),
    ensures
        at_table_s(s0, w, with_tbl_s(s, t), c, a + x),
{
    reveal(at_table_s);
    celltold::lemma_told_on(s0, v, with_table_s(s, c), a, true, p, x, with_table_s(with_tbl_s(s, t), c))
}

proof fn lemma_put_edge_top(
    s0: DocReaderV,
    v: Seq<Piece>,
    s: DocReaderV,
    c: TableV,
    a: Seq<char>,
    o: Option<BorderV>,
) -> (w: Seq<Piece>)
    requires
        at_table_s(s0, v, s, c, a),
        s.tbl.in_tbl_borders,
        !s.tbl.in_tc_borders,
        !s.para.in_pbdr,
        c.borders.top is None,
        stated_border_s(o),
    ensures
        at_table_s(
            s0,
            w,
            s,
            TableV { borders: EdgeBordersV { top: o, ..c.borders }, ..c },
            a + tables::edge_s("<w:top"@, o),
        ),
{
    names::lemma_codes();
    assert("<w:top"@ =~= "<"@ + "w:top"@) by {
        reveal_strlit("<w:top");
        reveal_strlit("<");
        reveal_strlit("w:top");
    }
    let d = TableV { borders: EdgeBordersV { top: o, ..c.borders }, ..c };
    let b = match o {
        Some(b) => b,
        None => BorderV { size_eighths: 0, color: Seq::empty() },
    };
    let t = edge_tag_s("w:top"@, b);
    if o is Some {
        celltold::lemma_edge("w:top"@, b);
        lemma_table_edge(with_table_s(s, c), t);
    }
    lemma_put(s0, v, s, c, a, o is Some, Piece::Bare(t), tables::edge_s("<w:top"@, o), d)
}

proof fn lemma_put_edge_left(
    s0: DocReaderV,
    v: Seq<Piece>,
    s: DocReaderV,
    c: TableV,
    a: Seq<char>,
    o: Option<BorderV>,
) -> (w: Seq<Piece>)
    requires
        at_table_s(s0, v, s, c, a),
        s.tbl.in_tbl_borders,
        !s.tbl.in_tc_borders,
        !s.para.in_pbdr,
        c.borders.left is None,
        stated_border_s(o),
    ensures
        at_table_s(
            s0,
            w,
            s,
            TableV { borders: EdgeBordersV { left: o, ..c.borders }, ..c },
            a + tables::edge_s("<w:left"@, o),
        ),
{
    names::lemma_codes();
    assert("<w:left"@ =~= "<"@ + "w:left"@) by {
        reveal_strlit("<w:left");
        reveal_strlit("<");
        reveal_strlit("w:left");
    }
    let d = TableV { borders: EdgeBordersV { left: o, ..c.borders }, ..c };
    let b = match o {
        Some(b) => b,
        None => BorderV { size_eighths: 0, color: Seq::empty() },
    };
    let t = edge_tag_s("w:left"@, b);
    if o is Some {
        celltold::lemma_edge("w:left"@, b);
        lemma_table_edge(with_table_s(s, c), t);
    }
    lemma_put(s0, v, s, c, a, o is Some, Piece::Bare(t), tables::edge_s("<w:left"@, o), d)
}

proof fn lemma_put_edge_bottom(
    s0: DocReaderV,
    v: Seq<Piece>,
    s: DocReaderV,
    c: TableV,
    a: Seq<char>,
    o: Option<BorderV>,
) -> (w: Seq<Piece>)
    requires
        at_table_s(s0, v, s, c, a),
        s.tbl.in_tbl_borders,
        !s.tbl.in_tc_borders,
        !s.para.in_pbdr,
        c.borders.bottom is None,
        stated_border_s(o),
    ensures
        at_table_s(
            s0,
            w,
            s,
            TableV { borders: EdgeBordersV { bottom: o, ..c.borders }, ..c },
            a + tables::edge_s("<w:bottom"@, o),
        ),
{
    names::lemma_codes();
    assert("<w:bottom"@ =~= "<"@ + "w:bottom"@) by {
        reveal_strlit("<w:bottom");
        reveal_strlit("<");
        reveal_strlit("w:bottom");
    }
    let d = TableV { borders: EdgeBordersV { bottom: o, ..c.borders }, ..c };
    let b = match o {
        Some(b) => b,
        None => BorderV { size_eighths: 0, color: Seq::empty() },
    };
    let t = edge_tag_s("w:bottom"@, b);
    if o is Some {
        celltold::lemma_edge("w:bottom"@, b);
        lemma_table_edge(with_table_s(s, c), t);
    }
    lemma_put(s0, v, s, c, a, o is Some, Piece::Bare(t), tables::edge_s("<w:bottom"@, o), d)
}

proof fn lemma_put_edge_right(
    s0: DocReaderV,
    v: Seq<Piece>,
    s: DocReaderV,
    c: TableV,
    a: Seq<char>,
    o: Option<BorderV>,
) -> (w: Seq<Piece>)
    requires
        at_table_s(s0, v, s, c, a),
        s.tbl.in_tbl_borders,
        !s.tbl.in_tc_borders,
        !s.para.in_pbdr,
        c.borders.right is None,
        stated_border_s(o),
    ensures
        at_table_s(
            s0,
            w,
            s,
            TableV { borders: EdgeBordersV { right: o, ..c.borders }, ..c },
            a + tables::edge_s("<w:right"@, o),
        ),
{
    names::lemma_codes();
    assert("<w:right"@ =~= "<"@ + "w:right"@) by {
        reveal_strlit("<w:right");
        reveal_strlit("<");
        reveal_strlit("w:right");
    }
    let d = TableV { borders: EdgeBordersV { right: o, ..c.borders }, ..c };
    let b = match o {
        Some(b) => b,
        None => BorderV { size_eighths: 0, color: Seq::empty() },
    };
    let t = edge_tag_s("w:right"@, b);
    if o is Some {
        celltold::lemma_edge("w:right"@, b);
        lemma_table_edge(with_table_s(s, c), t);
    }
    lemma_put(s0, v, s, c, a, o is Some, Piece::Bare(t), tables::edge_s("<w:right"@, o), d)
}

proof fn lemma_put_edge_inside_h(
    s0: DocReaderV,
    v: Seq<Piece>,
    s: DocReaderV,
    c: TableV,
    a: Seq<char>,
    o: Option<BorderV>,
) -> (w: Seq<Piece>)
    requires
        at_table_s(s0, v, s, c, a),
        s.tbl.in_tbl_borders,
        !s.tbl.in_tc_borders,
        !s.para.in_pbdr,
        c.borders.inside_h is None,
        stated_border_s(o),
    ensures
        at_table_s(
            s0,
            w,
            s,
            TableV { borders: EdgeBordersV { inside_h: o, ..c.borders }, ..c },
            a + tables::edge_s("<w:insideH"@, o),
        ),
{
    names::lemma_codes();
    assert("<w:insideH"@ =~= "<"@ + "w:insideH"@) by {
        reveal_strlit("<w:insideH");
        reveal_strlit("<");
        reveal_strlit("w:insideH");
    }
    let d = TableV { borders: EdgeBordersV { inside_h: o, ..c.borders }, ..c };
    let b = match o {
        Some(b) => b,
        None => BorderV { size_eighths: 0, color: Seq::empty() },
    };
    let t = edge_tag_s("w:insideH"@, b);
    if o is Some {
        celltold::lemma_edge("w:insideH"@, b);
        lemma_table_edge(with_table_s(s, c), t);
    }
    lemma_put(s0, v, s, c, a, o is Some, Piece::Bare(t), tables::edge_s("<w:insideH"@, o), d)
}

proof fn lemma_put_edge_inside_v(
    s0: DocReaderV,
    v: Seq<Piece>,
    s: DocReaderV,
    c: TableV,
    a: Seq<char>,
    o: Option<BorderV>,
) -> (w: Seq<Piece>)
    requires
        at_table_s(s0, v, s, c, a),
        s.tbl.in_tbl_borders,
        !s.tbl.in_tc_borders,
        !s.para.in_pbdr,
        c.borders.inside_v is None,
        stated_border_s(o),
    ensures
        at_table_s(
            s0,
            w,
            s,
            TableV { borders: EdgeBordersV { inside_v: o, ..c.borders }, ..c },
            a + tables::edge_s("<w:insideV"@, o),
        ),
{
    names::lemma_codes();
    assert("<w:insideV"@ =~= "<"@ + "w:insideV"@) by {
        reveal_strlit("<w:insideV");
        reveal_strlit("<");
        reveal_strlit("w:insideV");
    }
    let d = TableV { borders: EdgeBordersV { inside_v: o, ..c.borders }, ..c };
    let b = match o {
        Some(b) => b,
        None => BorderV { size_eighths: 0, color: Seq::empty() },
    };
    let t = edge_tag_s("w:insideV"@, b);
    if o is Some {
        celltold::lemma_edge("w:insideV"@, b);
        lemma_table_edge(with_table_s(s, c), t);
    }
    lemma_put(s0, v, s, c, a, o is Some, Piece::Bare(t), tables::edge_s("<w:insideV"@, o), d)
}

proof fn lemma_put_margin_top(
    s0: DocReaderV,
    v: Seq<Piece>,
    s: DocReaderV,
    c: TableV,
    a: Seq<char>,
    o: Option<u32>,
) -> (w: Seq<Piece>)
    requires
        at_table_s(s0, v, s, c, a),
        s.tbl.in_tbl_cellmar,
        !s.tbl.in_tc_mar,
        !s.tbl.in_tc_borders,
        !s.tbl.in_tbl_borders,
        !s.para.in_pbdr,
        events::or_s(c.cell_margins, CellMargins::initial()).top is None,
    ensures
        at_table_s(
            s0,
            w,
            s,
            TableV {
                cell_margins: if o is Some {
                    Some(
                        CellMargins { top: o, ..events::or_s(c.cell_margins, CellMargins::initial()) },
                    )
                } else {
                    c.cell_margins
                },
                ..c
            },
            a + xml::opt_dec_s("<w:top w:w=\""@, xml::int32_s(o), "\" w:type=\"dxa\"/>"@),
        ),
{
    names::lemma_codes();
    celltold::lemma_pre_top();
    celltold::lemma_width("w:top"@, o, "<w:top w:w=\""@);
    let n = match o {
        Some(n) => n as int,
        None => 0,
    };
    let t = celltold::width_tag_s("w:top"@, n);
    let d = TableV {
        cell_margins: if o is Some {
            Some(CellMargins { top: o, ..events::or_s(c.cell_margins, CellMargins::initial()) })
        } else {
            c.cell_margins
        },
        ..c
    };
    if o is Some {
        lemma_table_margin(with_table_s(s, c), t);
    }
    lemma_put(
        s0,
        v,
        s,
        c,
        a,
        o is Some,
        Piece::Bare(t),
        xml::opt_dec_s("<w:top w:w=\""@, xml::int32_s(o), "\" w:type=\"dxa\"/>"@),
        d,
    )
}

proof fn lemma_put_margin_left(
    s0: DocReaderV,
    v: Seq<Piece>,
    s: DocReaderV,
    c: TableV,
    a: Seq<char>,
    o: Option<u32>,
) -> (w: Seq<Piece>)
    requires
        at_table_s(s0, v, s, c, a),
        s.tbl.in_tbl_cellmar,
        !s.tbl.in_tc_mar,
        !s.tbl.in_tc_borders,
        !s.tbl.in_tbl_borders,
        !s.para.in_pbdr,
        events::or_s(c.cell_margins, CellMargins::initial()).left is None,
    ensures
        at_table_s(
            s0,
            w,
            s,
            TableV {
                cell_margins: if o is Some {
                    Some(
                        CellMargins { left: o, ..events::or_s(c.cell_margins, CellMargins::initial()) },
                    )
                } else {
                    c.cell_margins
                },
                ..c
            },
            a + xml::opt_dec_s("<w:left w:w=\""@, xml::int32_s(o), "\" w:type=\"dxa\"/>"@),
        ),
{
    names::lemma_codes();
    celltold::lemma_pre_left();
    celltold::lemma_width("w:left"@, o, "<w:left w:w=\""@);
    let n = match o {
        Some(n) => n as int,
        None => 0,
    };
    let t = celltold::width_tag_s("w:left"@, n);
    let d = TableV {
        cell_margins: if o is Some {
            Some(CellMargins { left: o, ..events::or_s(c.cell_margins, CellMargins::initial()) })
        } else {
            c.cell_margins
        },
        ..c
    };
    if o is Some {
        lemma_table_margin(with_table_s(s, c), t);
    }
    lemma_put(
        s0,
        v,
        s,
        c,
        a,
        o is Some,
        Piece::Bare(t),
        xml::opt_dec_s("<w:left w:w=\""@, xml::int32_s(o), "\" w:type=\"dxa\"/>"@),
        d,
    )
}

proof fn lemma_put_margin_bottom(
    s0: DocReaderV,
    v: Seq<Piece>,
    s: DocReaderV,
    c: TableV,
    a: Seq<char>,
    o: Option<u32>,
) -> (w: Seq<Piece>)
    requires
        at_table_s(s0, v, s, c, a),
        s.tbl.in_tbl_cellmar,
        !s.tbl.in_tc_mar,
        !s.tbl.in_tc_borders,
        !s.tbl.in_tbl_borders,
        !s.para.in_pbdr,
        events::or_s(c.cell_margins, CellMargins::initial()).bottom is None,
    ensures
        at_table_s(
            s0,
            w,
            s,
            TableV {
                cell_margins: if o is Some {
                    Some(
                        CellMargins { bottom: o, ..events::or_s(c.cell_margins, CellMargins::initial()) },
                    )
                } else {
                    c.cell_margins
                },
                ..c
            },
            a + xml::opt_dec_s("<w:bottom w:w=\""@, xml::int32_s(o), "\" w:type=\"dxa\"/>"@),
        ),
{
    names::lemma_codes();
    celltold::lemma_pre_bottom();
    celltold::lemma_width("w:bottom"@, o, "<w:bottom w:w=\""@);
    let n = match o {
        Some(n) => n as int,
        None => 0,
    };
    let t = celltold::width_tag_s("w:bottom"@, n);
    let d = TableV {
        cell_margins: if o is Some {
            Some(CellMargins { bottom: o, ..events::or_s(c.cell_margins, CellMargins::initial()) })
        } else {
            c.cell_margins
        },
        ..c
    };
    if o is Some {
        lemma_table_margin(with_table_s(s, c), t);
    }
    lemma_put(
        s0,
        v,
        s,
        c,
        a,
        o is Some,
        Piece::Bare(t),
        xml::opt_dec_s("<w:bottom w:w=\""@, xml::int32_s(o), "\" w:type=\"dxa\"/>"@),
        d,
    )
}

proof fn lemma_put_margin_right(
    s0: DocReaderV,
    v: Seq<Piece>,
    s: DocReaderV,
    c: TableV,
    a: Seq<char>,
    o: Option<u32>,
) -> (w: Seq<Piece>)
    requires
        at_table_s(s0, v, s, c, a),
        s.tbl.in_tbl_cellmar,
        !s.tbl.in_tc_mar,
        !s.tbl.in_tc_borders,
        !s.tbl.in_tbl_borders,
        !s.para.in_pbdr,
        events::or_s(c.cell_margins, CellMargins::initial()).right is None,
    ensures
        at_table_s(
            s0,
            w,
            s,
            TableV {
                cell_margins: if o is Some {
                    Some(
                        CellMargins { right: o, ..events::or_s(c.cell_margins, CellMargins::initial()) },
                    )
                } else {
                    c.cell_margins
                },
                ..c
            },
            a + xml::opt_dec_s("<w:right w:w=\""@, xml::int32_s(o), "\" w:type=\"dxa\"/>"@),
        ),
{
    names::lemma_codes();
    celltold::lemma_pre_right();
    celltold::lemma_width("w:right"@, o, "<w:right w:w=\""@);
    let n = match o {
        Some(n) => n as int,
        None => 0,
    };
    let t = celltold::width_tag_s("w:right"@, n);
    let d = TableV {
        cell_margins: if o is Some {
            Some(CellMargins { right: o, ..events::or_s(c.cell_margins, CellMargins::initial()) })
        } else {
            c.cell_margins
        },
        ..c
    };
    if o is Some {
        lemma_table_margin(with_table_s(s, c), t);
    }
    lemma_put(
        s0,
        v,
        s,
        c,
        a,
        o is Some,
        Piece::Bare(t),
        xml::opt_dec_s("<w:right w:w=\""@, xml::int32_s(o), "\" w:type=\"dxa\"/>"@),
        d,
    )
}

/// Whether a table's borders are such as markup states: no automatic colours.
pub open spec fn stated_edges_s(e: EdgeBordersV) -> bool {
    &&& stated_border_s(e.top)
    &&& stated_border_s(e.left)
    &&& stated_border_s(e.bottom)
    &&& stated_border_s(e.right)
    &&& stated_border_s(e.inside_h)
    &&& stated_border_s(e.inside_v)
}

pub open spec fn edges_text_s(b: EdgeBordersV) -> Seq<char> {
    tables::outer_edges_s(b) + tables::edge_s("<w:insideH"@, b.inside_h) + tables::edge_s(
        "<w:insideV"@,
        b.inside_v,
    )
}

proof fn lemma_edges(
    s0: DocReaderV,
    v: Seq<Piece>,
    s: DocReaderV,
    c: TableV,
    a: Seq<char>,
    b: EdgeBordersV,
) -> (w: Seq<Piece>)
    requires
        at_table_s(s0, v, s, c, a),
        s.tbl.in_tbl_borders,
        !s.tbl.in_tc_borders,
        !s.para.in_pbdr,
        c.borders == EdgeBordersV::initial(),
        stated_edges_s(b),
    ensures
        at_table_s(s0, w, s, TableV { borders: b, ..c }, a + edges_text_s(b)),
{
    let x1 = tables::edge_s("<w:top"@, b.top);
    let x2 = tables::edge_s("<w:left"@, b.left);
    let x3 = tables::edge_s("<w:bottom"@, b.bottom);
    let x4 = tables::edge_s("<w:right"@, b.right);
    let x5 = tables::edge_s("<w:insideH"@, b.inside_h);
    let x6 = tables::edge_s("<w:insideV"@, b.inside_v);
    let v1 = lemma_put_edge_top(s0, v, s, c, a, b.top);
    let c1 = TableV { borders: EdgeBordersV { top: b.top, ..c.borders }, ..c };
    let v2 = lemma_put_edge_left(s0, v1, s, c1, a + x1, b.left);
    let c2 = TableV { borders: EdgeBordersV { left: b.left, ..c1.borders }, ..c1 };
    let v3 = lemma_put_edge_bottom(s0, v2, s, c2, a + x1 + x2, b.bottom);
    let c3 = TableV { borders: EdgeBordersV { bottom: b.bottom, ..c2.borders }, ..c2 };
    let v4 = lemma_put_edge_right(s0, v3, s, c3, a + x1 + x2 + x3, b.right);
    let c4 = TableV { borders: EdgeBordersV { right: b.right, ..c3.borders }, ..c3 };
    let v5 = lemma_put_edge_inside_h(s0, v4, s, c4, a + x1 + x2 + x3 + x4, b.inside_h);
    let c5 = TableV { borders: EdgeBordersV { inside_h: b.inside_h, ..c4.borders }, ..c4 };
    let v6 = lemma_put_edge_inside_v(s0, v5, s, c5, a + x1 + x2 + x3 + x4 + x5, b.inside_v);
    let c6 = TableV { borders: EdgeBordersV { inside_v: b.inside_v, ..c5.borders }, ..c5 };
    assert(c6.borders =~= b);
    markup::lemma_assoc(a, x1, x2);
    markup::lemma_assoc(a, x1 + x2, x3);
    markup::lemma_assoc(a, x1 + x2 + x3, x4);
    markup::lemma_assoc(a, x1 + x2 + x3 + x4, x5);
    markup::lemma_assoc(a, x1 + x2 + x3 + x4 + x5, x6);
    v6
}

proof fn lemma_sides(
    s0: DocReaderV,
    v: Seq<Piece>,
    s: DocReaderV,
    c: TableV,
    a: Seq<char>,
    m: CellMargins,
) -> (w: Seq<Piece>)
    requires
        at_table_s(s0, v, s, c, a),
        s.tbl.in_tbl_cellmar,
        !s.tbl.in_tc_mar,
        !s.tbl.in_tc_borders,
        !s.tbl.in_tbl_borders,
        !s.para.in_pbdr,
        c.cell_margins is None,
        stated_margins_s(Some(m)),
    ensures
        at_table_s(
            s0,
            w,
            s,
            TableV { cell_margins: Some(m), ..c },
            a + xml::opt_dec_s("<w:top w:w=\""@, xml::int32_s(m.top), "\" w:type=\"dxa\"/>"@)
                + xml::opt_dec_s("<w:left w:w=\""@, xml::int32_s(m.left), "\" w:type=\"dxa\"/>"@)
                + xml::opt_dec_s("<w:bottom w:w=\""@, xml::int32_s(m.bottom), "\" w:type=\"dxa\"/>"@)
                + xml::opt_dec_s("<w:right w:w=\""@, xml::int32_s(m.right), "\" w:type=\"dxa\"/>"@),
        ),
{
    let x1 = xml::opt_dec_s("<w:top w:w=\""@, xml::int32_s(m.top), "\" w:type=\"dxa\"/>"@);
    let x2 = xml::opt_dec_s("<w:left w:w=\""@, xml::int32_s(m.left), "\" w:type=\"dxa\"/>"@);
    let x3 = xml::opt_dec_s("<w:bottom w:w=\""@, xml::int32_s(m.bottom), "\" w:type=\"dxa\"/>"@);
    let z = CellMargins::initial();
    let v1 = lemma_put_margin_top(s0, v, s, c, a, m.top);
    let m1 = if m.top is Some {
        Some(CellMargins { top: m.top, ..z })
    } else {
        None
    };
    let c1 = TableV { cell_margins: m1, ..c };
    let v2 = lemma_put_margin_left(s0, v1, s, c1, a + x1, m.left);
    let m2 = if m.left is Some {
        Some(CellMargins { left: m.left, ..events::or_s(m1, z) })
    } else {
        m1
    };
    let c2 = TableV { cell_margins: m2, ..c };
    let v3 = lemma_put_margin_bottom(s0, v2, s, c2, a + x1 + x2, m.bottom);
    let m3 = if m.bottom is Some {
        Some(CellMargins { bottom: m.bottom, ..events::or_s(m2, z) })
    } else {
        m2
    };
    let c3 = TableV { cell_margins: m3, ..c };
    let v4 = lemma_put_margin_right(s0, v3, s, c3, a + x1 + x2 + x3, m.right);
    v4
}

pub(crate) proof fn lemma_table_lits()
    ensures
        "<w:tblBorders>"@ == "<"@ + "w:tblBorders"@ + ">"@,
        "</w:tblBorders>"@ == "</"@ + "w:tblBorders"@ + ">"@,
        "<w:tblCellMar>"@ == "<"@ + "w:tblCellMar"@ + ">"@,
        "</w:tblCellMar>"@ == "</"@ + "w:tblCellMar"@ + ">"@,
        "<w:tblPr>"@ == "<"@ + "w:tblPr"@ + ">"@,
        "</w:tblPr>"@ == "</"@ + "w:tblPr"@ + ">"@,
        "<w:tblGrid>"@ == "<"@ + "w:tblGrid"@ + ">"@,
        "</w:tblGrid>"@ == "</"@ + "w:tblGrid"@ + ">"@,
        "<w:tbl>"@ == "<"@ + "w:tbl"@ + ">"@,
        "</w:tbl>"@ == "</"@ + "w:tbl"@ + ">"@,
        "<w:tr>"@ == "<"@ + "w:tr"@ + ">"@,
        "</w:tr>"@ == "</"@ + "w:tr"@ + ">"@,
        "<w:tc>"@ == "<"@ + "w:tc"@ + ">"@,
        "</w:tc>"@ == "</"@ + "w:tc"@ + ">"@,
{
    reveal_strlit("<");
    reveal_strlit("</");
    reveal_strlit(">");
    reveal_strlit("<w:tblBorders>");
    reveal_strlit("</w:tblBorders>");
    reveal_strlit("w:tblBorders");
    assert("<w:tblBorders>"@ =~= "<"@ + "w:tblBorders"@ + ">"@);
    assert("</w:tblBorders>"@ =~= "</"@ + "w:tblBorders"@ + ">"@);
    reveal_strlit("<w:tblCellMar>");
    reveal_strlit("</w:tblCellMar>");
    reveal_strlit("w:tblCellMar");
    assert("<w:tblCellMar>"@ =~= "<"@ + "w:tblCellMar"@ + ">"@);
    assert("</w:tblCellMar>"@ =~= "</"@ + "w:tblCellMar"@ + ">"@);
    reveal_strlit("<w:tblPr>");
    reveal_strlit("</w:tblPr>");
    reveal_strlit("w:tblPr");
    assert("<w:tblPr>"@ =~= "<"@ + "w:tblPr"@ + ">"@);
    assert("</w:tblPr>"@ =~= "</"@ + "w:tblPr"@ + ">"@);
    reveal_strlit("<w:tblGrid>");
    reveal_strlit("</w:tblGrid>");
    reveal_strlit("w:tblGrid");
    assert("<w:tblGrid>"@ =~= "<"@ + "w:tblGrid"@ + ">"@);
    assert("</w:tblGrid>"@ =~= "</"@ + "w:tblGrid"@ + ">"@);
    reveal_strlit("<w:tbl>");
    reveal_strlit("</w:tbl>");
    reveal_strlit("w:tbl");
    assert("<w:tbl>"@ =~= "<"@ + "w:tbl"@ + ">"@);
    assert("</w:tbl>"@ =~= "</"@ + "w:tbl"@ + ">"@);
    reveal_strlit("<w:tr>");
    reveal_strlit("</w:tr>");
    reveal_strlit("w:tr");
    assert("<w:tr>"@ =~= "<"@ + "w:tr"@ + ">"@);
    assert("</w:tr>"@ =~= "</"@ + "w:tr"@ + ">"@);
    reveal_strlit("<w:tc>");
    reveal_strlit("</w:tc>");
    reveal_strlit("w:tc");
    assert("<w:tc>"@ =~= "<"@ + "w:tc"@ + ">"@);
    assert("</w:tc>"@ =~= "</"@ + "w:tc"@ + ">"@);
}

proof fn lemma_borders(
    s0: DocReaderV,
    v: Seq<Piece>,
    s: DocReaderV,
    c: TableV,
    a: Seq<char>,
    b: EdgeBordersV,
) -> (w: Seq<Piece>)
    requires
        at_table_s(s0, v, s, c, a),
        in_table_s(s),
        c.borders == EdgeBordersV::initial(),
        stated_edges_s(b),
    ensures
        at_table_s(s0, w, s, TableV { borders: b, ..c }, a + tables::table_borders_s(b)),
{
    let x = edges_text_s(b);
    if x.len() == 0 {
        celltold::lemma_edge_len("<w:top"@, b.top);
        celltold::lemma_edge_len("<w:left"@, b.left);
        celltold::lemma_edge_len("<w:bottom"@, b.bottom);
        celltold::lemma_edge_len("<w:right"@, b.right);
        celltold::lemma_edge_len("<w:insideH"@, b.inside_h);
        celltold::lemma_edge_len("<w:insideV"@, b.inside_v);
        assert(b =~= c.borders);
        assert(a + tables::table_borders_s(b) =~= a);
        v
    } else {
        lemma_table_lits();
        markup::lemma_open_text("w:tblBorders"@, "<w:tblBorders>"@);
        let o1 = "<w:tblBorders>"@;
        let o2 = "</w:tblBorders>"@;
        let t = TableReaderV { in_tbl_borders: true, ..s.tbl };
        let d = TableV { borders: b, ..c };
        let m = with_tbl_s(s, t);
        lemma_table_blocks(with_table_s(s, c));
        lemma_table_blocks(with_table_s(m, d));
        let v1 = lemma_block(s0, v, s, c, a, markup::open_s("w:tblBorders"@), o1, t);
        let v2 = lemma_edges(s0, v1, m, c, a + o1, b);
        let q = Piece::Close("w:tblBorders"@);
        assert(with_table_s(with_tbl_s(m, s.tbl), d) == hearing::hear_s(with_table_s(m, d), q));
        let v3 = lemma_block(s0, v2, m, d, a + o1 + x, q, o2, s.tbl);
        assert(with_tbl_s(m, s.tbl) == s);
        markup::lemma_assoc(a, o1, x);
        markup::lemma_assoc(a, o1 + x, o2);
        v3
    }
}

proof fn lemma_margins(
    s0: DocReaderV,
    v: Seq<Piece>,
    s: DocReaderV,
    c: TableV,
    a: Seq<char>,
    o: Option<CellMargins>,
) -> (w: Seq<Piece>)
    requires
        at_table_s(s0, v, s, c, a),
        in_table_s(s),
        c.cell_margins is None,
        stated_margins_s(o),
    ensures
        at_table_s(s0, w, s, TableV { cell_margins: o, ..c }, a + tables::table_margins_s(o)),
{
    if o is None {
        assert(a + tables::table_margins_s(o) =~= a);
        v
    } else {
        let k = o->0;
        lemma_table_lits();
        markup::lemma_open_text("w:tblCellMar"@, "<w:tblCellMar>"@);
        let o1 = "<w:tblCellMar>"@;
        let o2 = "</w:tblCellMar>"@;
        let x1 = xml::opt_dec_s("<w:top w:w=\""@, xml::int32_s(k.top), "\" w:type=\"dxa\"/>"@);
        let x2 = xml::opt_dec_s("<w:left w:w=\""@, xml::int32_s(k.left), "\" w:type=\"dxa\"/>"@);
        let x3 = xml::opt_dec_s("<w:bottom w:w=\""@, xml::int32_s(k.bottom), "\" w:type=\"dxa\"/>"@);
        let x4 = xml::opt_dec_s("<w:right w:w=\""@, xml::int32_s(k.right), "\" w:type=\"dxa\"/>"@);
        let t = TableReaderV { in_tbl_cellmar: true, ..s.tbl };
        let d = TableV { cell_margins: o, ..c };
        let m = with_tbl_s(s, t);
        lemma_table_blocks(with_table_s(s, c));
        lemma_table_blocks(with_table_s(m, d));
        let v1 = lemma_block(s0, v, s, c, a, markup::open_s("w:tblCellMar"@), o1, t);
        let v2 = lemma_sides(s0, v1, m, c, a + o1, k);
        let q = Piece::Close("w:tblCellMar"@);
        assert(with_table_s(with_tbl_s(m, s.tbl), d) == hearing::hear_s(with_table_s(m, d), q));
        let v3 = lemma_block(s0, v2, m, d, a + o1 + x1 + x2 + x3 + x4, q, o2, s.tbl);
        assert(with_tbl_s(m, s.tbl) == s);
        markup::lemma_assoc(a, o1, x1);
        markup::lemma_assoc(a, o1 + x1, x2);
        markup::lemma_assoc(a, o1 + x1 + x2, x3);
        markup::lemma_assoc(a, o1 + x1 + x2 + x3, x4);
        markup::lemma_assoc(a, o1 + x1 + x2 + x3 + x4, o2);
        v3
    }
}

/// Whether a table's properties are such as markup states.
pub open spec fn stated_table_s(t: TableV) -> bool {
    &&& stated_edges_s(t.borders)
    &&& stated_margins_s(t.cell_margins)
    &&& t.look is None
    &&& t.prop_change is None
}

/// A table of which nothing is known yet.
pub open spec fn fresh_table_s(t: TableV) -> bool {
    &&& t.style is None
    &&& t.justify is None
    &&& t.borders == EdgeBordersV::initial()
    &&& t.cell_margins is None
    &&& t.col_widths.len() == 0
}

/// The table `c` with the properties of `d`.
pub open spec fn with_table_props_s(c: TableV, d: TableV) -> TableV {
    TableV {
        style: d.style,
        justify: d.justify,
        borders: d.borders,
        cell_margins: d.cell_margins,
        ..c
    }
}

pub open spec fn auto_width_s() -> XmlTagV {
    celltold::two_s("w:tblW"@, ("w:w"@, "0"@), ("w:type"@, "auto"@))
}

proof fn lemma_auto_width()
    ensures
        "<w:tblW w:w=\"0\" w:type=\"auto\"/>"@ == markup::piece_text_s(Piece::Bare(auto_width_s())),
        auto_width_s().name == "w:tblW"@,
{
    celltold::lemma_two_text("w:tblW"@, ("w:w"@, "0"@), ("w:type"@, "auto"@));
    assert(xml::esc_s("0"@) == "0"@ && xml::esc_s("auto"@) == "auto"@) by {
        reveal_strlit("0");
        reveal_strlit("auto");
        markup::lemma_esc_word("0"@);
        markup::lemma_esc_word("auto"@);
    }
    let x = "<"@ + "w:tblW"@;
    let y = " "@ + "w:w"@ + "=\""@ + "0"@ + "\""@;
    let z = " "@ + "w:type"@ + "=\""@ + "auto"@ + "\""@;
    assert("<w:tblW w:w=\"0\" w:type=\"auto\"/>"@ =~= x + y + z + "/>"@) by {
        reveal_strlit("<w:tblW w:w=\"0\" w:type=\"auto\"/>");
        reveal_strlit("<");
        reveal_strlit("w:tblW");
        reveal_strlit(" ");
        reveal_strlit("w:w");
        reveal_strlit("=\"");
        reveal_strlit("0");
        reveal_strlit("\"");
        reveal_strlit("w:type");
        reveal_strlit("auto");
        reveal_strlit("/>");
    }
}

proof fn lemma_heads(s: DocReaderV, d: TableV) -> (v: Seq<Piece>)
    requires
        in_table_s(s),
        s.tbl.table->0.style is None,
        s.tbl.table->0.justify is None,
    ensures
        at_table_s(
            s,
            v,
            s,
            TableV { style: d.style, justify: d.justify, ..s.tbl.table->0 },
            "<w:tblPr>"@ + xml::opt_esc_s("<w:tblStyle w:val=\""@, d.style, "\"/>"@)
                + "<w:tblW w:w=\"0\" w:type=\"auto\"/>"@ + xml::opt_esc_s(
                "<w:jc w:val=\""@,
                d.justify,
                "\"/>"@,
            ),
        ),
{
    names::lemma_codes();
    let c0 = s.tbl.table->0;
    let e = Seq::<char>::empty();
    assert("<w:tblStyle w:val=\""@ =~= "<"@ + "w:tblStyle"@ + " "@ + "w:val"@ + "=\""@ && "<w:jc w:val=\""@
        =~= "<"@ + "w:jc"@ + " "@ + "w:val"@ + "=\""@) by {
        reveal_strlit("<w:tblStyle w:val=\"");
        reveal_strlit("<w:jc w:val=\"");
        reveal_strlit("<");
        reveal_strlit("w:tblStyle");
        reveal_strlit("w:jc");
        reveal_strlit(" ");
        reveal_strlit("w:val");
        reveal_strlit("=\"");
    }
    telling::lemma_told_none(s);
    assert(with_table_s(s, c0) == s);
    assert(at_table_s(s, Seq::empty(), s, c0, e)) by {
        reveal(at_table_s);
    }
    lemma_table_lits();
    markup::lemma_open_text("w:tblPr"@, "<w:tblPr>"@);
    lemma_table_blocks(s);
    let o = "<w:tblPr>"@;
    let v0 = lemma_put(s, Seq::empty(), s, c0, e, true, markup::open_s("w:tblPr"@), o, c0);
    assert(e + o =~= o);
    let x1 = xml::opt_esc_s("<w:tblStyle w:val=\""@, d.style, "\"/>"@);
    telling::lemma_opt_text("w:tblStyle"@, d.style, "<w:tblStyle w:val=\""@);
    let t1 = telling::val_tag_s("w:tblStyle"@, telling::some_s(d.style));
    let c1 = TableV { style: d.style, ..c0 };
    lemma_table_style(with_table_s(s, c0), t1);
    let v1 = lemma_put(s, v0, s, c0, o, d.style is Some, Piece::Bare(t1), x1, c1);
    let x2 = "<w:tblW w:w=\"0\" w:type=\"auto\"/>"@;
    lemma_auto_width();
    lemma_table_width(with_table_s(s, c1), auto_width_s());
    let v2 = lemma_put(s, v1, s, c1, o + x1, true, Piece::Bare(auto_width_s()), x2, c1);
    let x3 = xml::opt_esc_s("<w:jc w:val=\""@, d.justify, "\"/>"@);
    telling::lemma_opt_text("w:jc"@, d.justify, "<w:jc w:val=\""@);
    let t3 = telling::val_tag_s("w:jc"@, telling::some_s(d.justify));
    let c3 = TableV { justify: d.justify, ..c1 };
    lemma_table_jc(with_table_s(s, c1), t3);
    lemma_put(s, v2, s, c1, o + x1 + x2, d.justify is Some, Piece::Bare(t3), x3, c3)
}

/// The properties block of a table.
pub(crate) proof fn lemma_tblpr(s: DocReaderV, d: TableV) -> (v: Seq<Piece>)
    requires
        in_table_s(s),
        fresh_table_s(s.tbl.table->0),
        stated_table_s(d),
    ensures
        told_so_far_s(s, v, with_table_s(s, with_table_props_s(s.tbl.table->0, d)), tables::tblpr_s(d)),
{
    let c0 = s.tbl.table->0;
    let v0 = lemma_heads(s, d);
    let a = "<w:tblPr>"@ + xml::opt_esc_s("<w:tblStyle w:val=\""@, d.style, "\"/>"@)
        + "<w:tblW w:w=\"0\" w:type=\"auto\"/>"@ + xml::opt_esc_s("<w:jc w:val=\""@, d.justify, "\"/>"@);
    let c1 = TableV { style: d.style, justify: d.justify, ..c0 };
    let x1 = tables::table_borders_s(d.borders);
    let x2 = tables::table_margins_s(d.cell_margins);
    let v1 = lemma_borders(s, v0, s, c1, a, d.borders);
    let c2 = TableV { borders: d.borders, ..c1 };
    let v2 = lemma_margins(s, v1, s, c2, a + x1, d.cell_margins);
    let c3 = TableV { cell_margins: d.cell_margins, ..c2 };
    lemma_table_lits();
    lemma_table_blocks(with_table_s(s, c3));
    let q = "</w:tblPr>"@;
    let v3 = lemma_put(s, v2, s, c3, a + x1 + x2, true, Piece::Close("w:tblPr"@), q, c3);
    assert(c3 == with_table_props_s(c0, d));
    let l = xml::opt_raw_s("<w:tblLook"@, d.look, "/>"@);
    let k = tables::prop_change_s(d.prop_change);
    assert(l.len() == 0 && k.len() == 0);
    assert(a + x1 + x2 + l =~= a + x1 + x2);
    assert(a + x1 + x2 + k =~= a + x1 + x2);
    assert(told_so_far_s(s, v3, with_table_s(s, c3), a + x1 + x2 + q)) by {
        reveal(at_table_s);
    }
    v3
}

/// Whether markup `v` is the properties block of a table, and reading it takes the reader to `e`.
pub open spec fn table_back_s(d: TableV, s: DocReaderV, v: Seq<Piece>, e: DocReaderV) -> bool {
    &&& markup::spells_s(v, tables::tblpr_s(d))
    &&& hearing::reads_s(s, v, e)
    &&& e == with_table_s(s, with_table_props_s(s.tbl.table->0, d))
}

/// What is written of a table's properties reads back into a new table: its style, its alignment,
/// each of its six borders and the margins of its cells.
pub proof fn law_table_properties_read_back(d: TableV, s: DocReaderV)
    requires
        in_table_s(s),
        fresh_table_s(s.tbl.table->0),
        stated_table_s(d),
    ensures
        exists|v: Seq<Piece>, e: DocReaderV| #[trigger] table_back_s(d, s, v, e),
{
    let v = lemma_tblpr(s, d);
    let e = with_table_s(s, with_table_props_s(s.tbl.table->0, d));
    reveal(told_so_far_s);
    hearing::lemma_reads(s, v, e);
    assert(table_back_s(d, s, v, e));
}

// ---------------------------------------------------------------- columns

pub open spec fn col_tag_s(w: u32) -> XmlTagV {
    markup::tag_s("w:gridCol"@, seq![("w:w"@, strs::dec_s(w as nat))])
}

proof fn lemma_col(w: u32)
    ensures
        xml::num_s("<w:gridCol w:w=\""@, w as nat, "\"/>"@) == markup::piece_text_s(
            Piece::Bare(col_tag_s(w)),
        ),
        events::attr_u32_s(col_tag_s(w), "w:w"@) == Some(w),
        col_tag_s(w).name == "w:gridCol"@,
{
    let d = strs::dec_s(w as nat);
    let e = Seq::<(Seq<char>, Seq<char>)>::empty();
    let n = "w:gridCol"@;
    markup::lemma_no_attrs(n);
    markup::lemma_attrs_push(n, e, "w:w"@, d);
    assert(e.push(("w:w"@, d)) =~= seq![("w:w"@, d)]);
    markup::lemma_attr(n, seq![("w:w"@, d)]);
    reveal_with_fuel(markup::value_s, 3);
    markup::lemma_esc_dec(w as nat);
    strs::lemma_dec_parses(w as nat, u32::MAX as nat);
    lemma_col_text(d);
    assert(markup::piece_text_s(Piece::Bare(col_tag_s(w))) =~= "<"@ + "w:gridCol"@ + (" "@ + "w:w"@ + "=\""@
        + d + "\""@) + "/>"@);
}

proof fn lemma_col_text(d: Seq<char>)
    ensures
        "<w:gridCol w:w=\""@ + d + "\"/>"@ == "<"@ + "w:gridCol"@ + (" "@ + "w:w"@ + "=\""@ + d + "\""@)
            + "/>"@,
{
    let x = "<"@ + "w:gridCol"@;
    let y = " "@ + "w:w"@ + "=\""@;
    let q = "\""@;
    assert("<w:gridCol w:w=\""@ =~= x + y && "\"/>"@ =~= q + "/>"@) by {
        reveal_strlit("<w:gridCol w:w=\"");
        reveal_strlit("\"/>");
        reveal_strlit("<");
        reveal_strlit("w:gridCol");
        reveal_strlit(" ");
        reveal_strlit("w:w");
        reveal_strlit("=\"");
        reveal_strlit("\"");
        reveal_strlit("/>");
    }
    assert((x + y) + d + (q + "/>"@) =~= x + (y + d + q) + "/>"@);
}

proof fn lemma_cols(
    s0: DocReaderV,
    v: Seq<Piece>,
    s: DocReaderV,
    c: TableV,
    a: Seq<char>,
    ws: Seq<u32>,
    n: nat,
) -> (w: Seq<Piece>)
    requires
        at_table_s(s0, v, s, c, a),
        s.tbl.in_grid,
        c.col_widths.len() == 0,
        n <= ws.len(),
    ensures
        at_table_s(s0, w, s, TableV { col_widths: ws.take(n as int), ..c }, a + tables::grid_cols_s(ws, n)),
    decreases n,
{
    if n == 0 {
        assert(ws.take(0) =~= c.col_widths);
        assert(a + tables::grid_cols_s(ws, n) =~= a);
        v
    } else {
        let m = (n - 1) as nat;
        let v1 = lemma_cols(s0, v, s, c, a, ws, m);
        let k = ws[n - 1];
        let x = xml::num_s("<w:gridCol w:w=\""@, k as nat, "\"/>"@);
        let c1 = TableV { col_widths: ws.take(m as int), ..c };
        let c2 = TableV { col_widths: ws.take(n as int), ..c };
        lemma_col(k);
        lemma_grid_col(with_table_s(s, c1), col_tag_s(k));
        assert(ws.take(n as int) =~= ws.take(m as int).push(k));
        markup::lemma_assoc(a, tables::grid_cols_s(ws, m), x);
        lemma_put(
            s0,
            v1,
            s,
            c1,
            a + tables::grid_cols_s(ws, m),
            true,
            Piece::Bare(col_tag_s(k)),
            x,
            c2,
        )
    }
}

/// The column widths of a table.
pub(crate) proof fn lemma_grid(s: DocReaderV, d: TableV) -> (v: Seq<Piece>)
    requires
        in_table_s(s),
        s.tbl.table->0.col_widths.len() == 0,
    ensures
        told_so_far_s(
            s,
            v,
            with_table_s(s, TableV { col_widths: d.col_widths, ..s.tbl.table->0 }),
            "<w:tblGrid>"@ + tables::grid_cols_s(d.col_widths, d.col_widths.len()) + "</w:tblGrid>"@,
        ),
{
    let c = s.tbl.table->0;
    let f = TableV { col_widths: d.col_widths, ..c };
    let e = Seq::<char>::empty();
    let n = d.col_widths.len();
    let x = tables::grid_cols_s(d.col_widths, n);
    telling::lemma_told_none(s);
    assert(with_table_s(s, c) == s);
    assert(at_table_s(s, Seq::empty(), s, c, e)) by {
        reveal(at_table_s);
    }
    lemma_table_lits();
    markup::lemma_open_text("w:tblGrid"@, "<w:tblGrid>"@);
    let o1 = "<w:tblGrid>"@;
    let o2 = "</w:tblGrid>"@;
    let t = TableReaderV { in_grid: true, ..s.tbl };
    let m = with_tbl_s(s, t);
    lemma_table_blocks(with_table_s(s, c));
    lemma_table_blocks(with_table_s(m, f));
    let v1 = lemma_block(s, Seq::empty(), s, c, e, markup::open_s("w:tblGrid"@), o1, t);
    assert(e + o1 =~= o1);
    let v2 = lemma_cols(s, v1, m, c, o1, d.col_widths, n);
    assert(d.col_widths.take(n as int) =~= d.col_widths);
    let q = Piece::Close("w:tblGrid"@);
    assert(with_table_s(with_tbl_s(m, s.tbl), f) == hearing::hear_s(with_table_s(m, f), q));
    let v3 = lemma_block(s, v2, m, f, o1 + x, q, o2, s.tbl);
    assert(with_tbl_s(m, s.tbl) == s);
    assert(told_so_far_s(s, v3, with_table_s(s, f), o1 + x + o2)) by {
        reveal(at_table_s);
    }
    v3
}

/// Whether markup `v` states the columns of a table, and reading it takes the reader to `e`.
pub open spec fn columns_back_s(d: TableV, s: DocReaderV, v: Seq<Piece>, e: DocReaderV) -> bool {
    &&& markup::spells_s(
        v,
        "<w:tblGrid>"@ + tables::grid_cols_s(d.col_widths, d.col_widths.len()) + "</w:tblGrid>"@,
    )
    &&& hearing::reads_s(s, v, e)
    &&& e == with_table_s(s, TableV { col_widths: d.col_widths, ..s.tbl.table->0 })
}

/// The columns that are written of a table read back with the same widths, in the same order.
pub proof fn law_columns_read_back(d: TableV, s: DocReaderV)
    requires
        in_table_s(s),
        s.tbl.table->0.col_widths.len() == 0,
    ensures
        exists|v: Seq<Piece>, e: DocReaderV| #[trigger] columns_back_s(d, s, v, e),
{
    let v = lemma_grid(s, d);
    let e = with_table_s(s, TableV { col_widths: d.col_widths, ..s.tbl.table->0 });
    reveal(told_so_far_s);
    hearing::lemma_reads(s, v, e);
    assert(columns_back_s(d, s, v, e));
}

} // verus!
