//! Cells, rows and tables read back from the markup that they are written as.

use vstd::prelude::*;
use crate::events;
use crate::events::XmlTagV;
use crate::hearing;
use crate::import::DocReaderV;
use crate::import_table;
use crate::import_table::TableReaderV;
use crate::markup;
use crate::markup::Piece;
use crate::names;
use crate::paragraph;
use crate::retelling;
use crate::strs;
use crate::style_parse;
use crate::tables;
use crate::telling;
use crate::telling::told_so_far_s;
use crate::types::{BorderV, CellMargins, EdgeBordersV, TableCellV, TrackKind, TrackV, VMerge};
use crate::xml;

verus! {

broadcast use vstd::string::group_string_axioms;

// ---------------------------------------------------------------- tags

pub(crate) proof fn lemma_told_on(
    s0: DocReaderV,
    v: Seq<Piece>,
    s: DocReaderV,
    a: Seq<char>,
    on: bool,
    p: Piece,
    x: Seq<char>,
    e: DocReaderV,
) -> (w: Seq<Piece>)
    requires
        told_so_far_s(s0, v, s, a),
        !(p is Chars),
        on ==> hearing::fits_s(s, p) && x == markup::piece_text_s(p) && e == hearing::hear_s(s, p),
        !on ==> x == Seq::<char>::empty() && e == s,
    ensures
        told_so_far_s(s0, w, e, a + x),
{
    reveal(told_so_far_s);
    hearing::lemma_takes_maybe(s, on, p);
    hearing::lemma_takes_both(s0, v, s, markup::maybe_s(on, p), e);
    markup::lemma_spell_maybe(on, p);
    markup::lemma_spell_both(v, a, markup::maybe_s(on, p), x);
    v + markup::maybe_s(on, p)
}

pub(crate) proof fn lemma_told_both(
    s0: DocReaderV,
    v: Seq<Piece>,
    s: DocReaderV,
    a: Seq<char>,
    w: Seq<Piece>,
    e: DocReaderV,
    x: Seq<char>,
)
    requires
        told_so_far_s(s0, v, s, a),
        told_so_far_s(s, w, e, x),
    ensures
        told_so_far_s(s0, v + w, e, a + x),
{
    reveal(told_so_far_s);
    hearing::lemma_takes_both(s0, v, s, w, e);
    markup::lemma_spell_both(v, a, w, x);
}

/// A tag with two attributes.
pub open spec fn two_s(name: Seq<char>, a: (Seq<char>, Seq<char>), b: (Seq<char>, Seq<char>)) -> XmlTagV {
    markup::tag_s(name, seq![a, b])
}

pub(crate) proof fn lemma_two_text(name: Seq<char>, a: (Seq<char>, Seq<char>), b: (Seq<char>, Seq<char>))
    ensures
        markup::piece_text_s(Piece::Bare(two_s(name, a, b))) == "<"@ + name + (" "@ + a.0 + "=\""@
            + xml::esc_s(a.1) + "\""@) + (" "@ + b.0 + "=\""@ + xml::esc_s(b.1) + "\""@) + "/>"@,
        events::attr_s(two_s(name, a, b), a.0) == Some(a.1),
        a.0 != b.0 ==> events::attr_s(two_s(name, a, b), b.0) == Some(b.1),
        two_s(name, a, b).name == name,
{
    let e = Seq::<(Seq<char>, Seq<char>)>::empty();
    let x = e.push(a);
    let y = x.push(b);
    markup::lemma_no_attrs(name);
    markup::lemma_attrs_push(name, e, a.0, a.1);
    markup::lemma_attrs_push(name, x, b.0, b.1);
    assert(y =~= seq![a, b]);
    assert(markup::piece_text_s(Piece::Bare(two_s(name, a, b))) =~= "<"@ + name + (" "@ + a.0 + "=\""@
        + xml::esc_s(a.1) + "\""@) + (" "@ + b.0 + "=\""@ + xml::esc_s(b.1) + "\""@) + "/>"@);
    markup::lemma_attr(name, seq![a, b]);
    reveal_with_fuel(markup::value_s, 4);
}

/// A width in twentieths of a point.
pub open spec fn width_tag_s(name: Seq<char>, n: int) -> XmlTagV {
    two_s(name, ("w:w"@, strs::dec_int_s(n)), ("w:type"@, "dxa"@))
}

/// The text of a width, as the writers put it together.
pub(crate) proof fn lemma_width(name: Seq<char>, o: Option<u32>, pre: Seq<char>)
    requires
        pre == "<"@ + name + " "@ + "w:w"@ + "=\""@,
    ensures
        xml::opt_dec_s(pre, xml::int32_s(o), "\" w:type=\"dxa\"/>"@) == (match o {
            Some(n) => markup::piece_text_s(Piece::Bare(width_tag_s(name, n as int))),
            None => Seq::empty(),
        }),
        o matches Some(n) ==> events::attr_u32_s(width_tag_s(name, n as int), "w:w"@) == o,
        o matches Some(n) ==> width_tag_s(name, n as int).name == name,
{
    if let Some(n) = o {
        lemma_two_text(name, ("w:w"@, strs::dec_int_s(n as int)), ("w:type"@, "dxa"@));
        markup::lemma_esc_dec_int(n as int);
        strs::lemma_dec_parses(n as nat, u32::MAX as nat);
        reveal_strlit("dxa");
        markup::lemma_esc_word("dxa"@);
        assert("\" w:type=\"dxa\"/>"@ =~= "\""@ + (" "@ + "w:type"@ + "=\""@ + "dxa"@ + "\""@) + "/>"@)
            by {
            reveal_strlit("\" w:type=\"dxa\"/>");
            reveal_strlit("\"");
            reveal_strlit(" ");
            reveal_strlit("w:type");
            reveal_strlit("=\"");
            reveal_strlit("dxa");
            reveal_strlit("/>");
        }
        let d = strs::dec_int_s(n as int);
        assert(xml::opt_dec_s(pre, xml::int32_s(o), "\" w:type=\"dxa\"/>"@) =~= markup::piece_text_s(
            Piece::Bare(width_tag_s(name, n as int)),
        ));
    }
}

pub(crate) proof fn lemma_pre_tcw()
    ensures
        "<w:tcW w:w=\""@ == "<"@ + "w:tcW"@ + " "@ + "w:w"@ + "=\""@,
{
    reveal_strlit("<w:tcW w:w=\"");
    reveal_strlit("<");
    reveal_strlit("w:tcW");
    reveal_strlit(" ");
    reveal_strlit("w:w");
    reveal_strlit("=\"");
    assert("<w:tcW w:w=\""@ =~= "<"@ + "w:tcW"@ + " "@ + "w:w"@ + "=\""@);
}

pub(crate) proof fn lemma_pre_top()
    ensures
        "<w:top w:w=\""@ == "<"@ + "w:top"@ + " "@ + "w:w"@ + "=\""@,
{
    reveal_strlit("<w:top w:w=\"");
    reveal_strlit("<");
    reveal_strlit("w:top");
    reveal_strlit(" ");
    reveal_strlit("w:w");
    reveal_strlit("=\"");
    assert("<w:top w:w=\""@ =~= "<"@ + "w:top"@ + " "@ + "w:w"@ + "=\""@);
}

pub(crate) proof fn lemma_pre_left()
    ensures
        "<w:left w:w=\""@ == "<"@ + "w:left"@ + " "@ + "w:w"@ + "=\""@,
{
    reveal_strlit("<w:left w:w=\"");
    reveal_strlit("<");
    reveal_strlit("w:left");
    reveal_strlit(" ");
    reveal_strlit("w:w");
    reveal_strlit("=\"");
    assert("<w:left w:w=\""@ =~= "<"@ + "w:left"@ + " "@ + "w:w"@ + "=\""@);
}

pub(crate) proof fn lemma_pre_bottom()
    ensures
        "<w:bottom w:w=\""@ == "<"@ + "w:bottom"@ + " "@ + "w:w"@ + "=\""@,
{
    reveal_strlit("<w:bottom w:w=\"");
    reveal_strlit("<");
    reveal_strlit("w:bottom");
    reveal_strlit(" ");
    reveal_strlit("w:w");
    reveal_strlit("=\"");
    assert("<w:bottom w:w=\""@ =~= "<"@ + "w:bottom"@ + " "@ + "w:w"@ + "=\""@);
}

pub(crate) proof fn lemma_pre_right()
    ensures
        "<w:right w:w=\""@ == "<"@ + "w:right"@ + " "@ + "w:w"@ + "=\""@,
{
    reveal_strlit("<w:right w:w=\"");
    reveal_strlit("<");
    reveal_strlit("w:right");
    reveal_strlit(" ");
    reveal_strlit("w:w");
    reveal_strlit("=\"");
    assert("<w:right w:w=\""@ =~= "<"@ + "w:right"@ + " "@ + "w:w"@ + "=\""@);
}

pub(crate) proof fn lemma_pre_span()
    ensures
        "<w:gridSpan w:val=\""@ == "<"@ + "w:gridSpan"@ + " "@ + "w:val"@ + "=\""@,
{
    reveal_strlit("<w:gridSpan w:val=\"");
    reveal_strlit("<");
    reveal_strlit("w:gridSpan");
    reveal_strlit(" ");
    reveal_strlit("w:val");
    reveal_strlit("=\"");
    assert("<w:gridSpan w:val=\""@ =~= "<"@ + "w:gridSpan"@ + " "@ + "w:val"@ + "=\""@);
}

pub(crate) proof fn lemma_pre_merge()
    ensures
        "<w:vMerge w:val=\""@ == "<"@ + "w:vMerge"@ + " "@ + "w:val"@ + "=\""@,
{
    reveal_strlit("<w:vMerge w:val=\"");
    reveal_strlit("<");
    reveal_strlit("w:vMerge");
    reveal_strlit(" ");
    reveal_strlit("w:val");
    reveal_strlit("=\"");
    assert("<w:vMerge w:val=\""@ =~= "<"@ + "w:vMerge"@ + " "@ + "w:val"@ + "=\""@);
}

/// A border edge.
pub open spec fn edge_tag_s(name: Seq<char>, b: BorderV) -> XmlTagV {
    markup::tag_s(
        name,
        seq![
            ("w:val"@, "single"@),
            ("w:sz"@, strs::dec_s(b.size_eighths as nat)),
            ("w:space"@, "0"@),
            ("w:color"@, b.color),
        ],
    )
}

/// Whether borders are such as markup states: a colour is not the automatic one.
pub open spec fn stated_border_s(o: Option<BorderV>) -> bool {
    o matches Some(b) ==> b.color != "auto"@
}

pub(crate) proof fn lemma_edge(name: Seq<char>, b: BorderV)
    requires
        b.color != "auto"@,
    ensures
        tables::edge_s("<"@ + name, Some(b)) == markup::piece_text_s(Piece::Bare(edge_tag_s(name, b))),
        style_parse::border_s(edge_tag_s(name, b)) == Some(b),
        edge_tag_s(name, b).name == name,
{
    let e = Seq::<(Seq<char>, Seq<char>)>::empty();
    let d = strs::dec_s(b.size_eighths as nat);
    let x = e.push(("w:val"@, "single"@));
    let y = x.push(("w:sz"@, d));
    let z = y.push(("w:space"@, "0"@));
    let k = z.push(("w:color"@, b.color));
    markup::lemma_no_attrs(name);
    markup::lemma_attrs_push(name, e, "w:val"@, "single"@);
    markup::lemma_attrs_push(name, x, "w:sz"@, d);
    markup::lemma_attrs_push(name, y, "w:space"@, "0"@);
    markup::lemma_attrs_push(name, z, "w:color"@, b.color);
    let all = seq![("w:val"@, "single"@), ("w:sz"@, d), ("w:space"@, "0"@), ("w:color"@, b.color)];
    assert(k =~= all);
    lemma_edge_text(name, b);
    markup::lemma_attr(name, all);
    names::lemma_codes();
    reveal_strlit("nil");
    reveal_strlit("single");
    reveal_with_fuel(markup::value_s, 6);
    strs::lemma_dec_parses(b.size_eighths as nat, u16::MAX as nat);
}

proof fn lemma_edge_text(name: Seq<char>, b: BorderV)
    ensures
        ({
            let d = strs::dec_s(b.size_eighths as nat);
            tables::edge_s("<"@ + name, Some(b)) == "<"@ + name + (Seq::<char>::empty() + (" "@ + "w:val"@
                + "=\""@ + xml::esc_s("single"@) + "\""@) + (" "@ + "w:sz"@ + "=\""@ + xml::esc_s(d)
                + "\""@) + (" "@ + "w:space"@ + "=\""@ + xml::esc_s("0"@) + "\""@) + (" "@ + "w:color"@
                + "=\""@ + xml::esc_s(b.color) + "\""@)) + "/>"@
        }),
{
    let d = strs::dec_s(b.size_eighths as nat);
    markup::lemma_esc_dec(b.size_eighths as nat);
    reveal_strlit("single");
    reveal_strlit("0");
    markup::lemma_esc_word("single"@);
    markup::lemma_esc_word("0"@);
    let l1 = " "@ + "w:val"@ + "=\""@ + "single"@ + "\""@;
    let l2 = " "@ + "w:sz"@ + "=\""@;
    let l3 = " "@ + "w:space"@ + "=\""@ + "0"@ + "\""@;
    let l4 = " "@ + "w:color"@ + "=\""@;
    assert(" w:val=\"single\" w:sz=\""@ =~= l1 + l2 && "\" w:space=\"0\""@ =~= "\""@ + l3
        && " w:color=\""@ =~= l4 && "\"/>"@ =~= "\""@ + "/>"@) by {
        reveal_strlit(" w:val=\"single\" w:sz=\"");
        reveal_strlit("\" w:space=\"0\"");
        reveal_strlit(" w:color=\"");
        reveal_strlit("\"/>");
        reveal_strlit(" ");
        reveal_strlit("w:val");
        reveal_strlit("w:sz");
        reveal_strlit("w:space");
        reveal_strlit("w:color");
        reveal_strlit("=\"");
        reveal_strlit("\"");
        reveal_strlit("/>");
    }
    let n = "<"@ + name;
    let c = xml::esc_s(b.color);
    assert(n + (l1 + l2 + d + ("\""@ + l3)) + (l4 + c + ("\""@ + "/>"@)) =~= n + (Seq::<char>::empty() + l1
        + (l2 + d + "\""@) + l3 + (l4 + c + "\""@)) + "/>"@);
}

// ---------------------------------------------------------------- where a cell's properties stand

/// Whether the reader stands among the properties of a cell.
pub open spec fn in_cell_s(s: DocReaderV) -> bool {
    &&& s.skip is None
    &&& !s.para.in_para
    &&& !s.para.in_mark_rpr
    &&& !s.para.in_pbdr
    &&& !s.run.in_rpr
    &&& s.tbl.depth == 1
    &&& s.tbl.row is Some
    &&& s.tbl.cell is Some
    &&& !s.tbl.in_tbl_borders
    &&& !s.tbl.in_tc_borders
    &&& !s.tbl.in_tbl_cellmar
    &&& !s.tbl.in_tc_mar
    &&& !s.tbl.in_trpr
}

/// The reader with another table reader.
pub open spec fn with_tbl_s(s: DocReaderV, t: TableReaderV) -> DocReaderV {
    DocReaderV { tbl: t, ..s }
}

pub open spec fn with_cell_s(s: DocReaderV, c: TableCellV) -> DocReaderV {
    with_tbl_s(s, TableReaderV { cell: Some(c), ..s.tbl })
}

proof fn lemma_cell_leaf(s: DocReaderV, t: XmlTagV)
    requires
        s.tbl.cell is Some,
        t.name == "w:tcW"@ || t.name == "w:gridSpan"@ || t.name == "w:vMerge"@,
    ensures
        hearing::hear_s(s, Piece::Bare(t)) == with_cell_s(
            s,
            import_table::cell_leaf_s(s.tbl.cell->0, t),
        ),
        hearing::fits_s(s, Piece::Bare(t)),
{
    reveal(hearing::hear_s);
    names::lemma_codes();
}

proof fn lemma_cell_fill(s: DocReaderV, t: XmlTagV)
    requires
        s.tbl.cell is Some,
        !s.run.in_rpr,
        !s.para.in_para,
        t.name == "w:shd"@,
    ensures
        hearing::hear_s(s, Piece::Bare(t)) == with_cell_s(
            s,
            TableCellV { shading: crate::import_text::fill_s(t), ..s.tbl.cell->0 },
        ),
        hearing::fits_s(s, Piece::Bare(t)),
{
    reveal(hearing::hear_s);
    names::lemma_codes();
}

proof fn lemma_cell_change(s: DocReaderV, t: XmlTagV)
    requires
        s.tbl.cell is Some,
        t.name == "w:cellIns"@ || t.name == "w:cellDel"@,
    ensures
        hearing::hear_s(s, Piece::Bare(t)) == with_tbl_s(
            s,
            TableReaderV {
                cell_change: Some(
                    events::revision_track_s(
                        t,
                        if t.name == "w:cellIns"@ {
                            TrackKind::Ins
                        } else {
                            TrackKind::Del
                        },
                    ),
                ),
                ..s.tbl
            },
        ),
        hearing::fits_s(s, Piece::Bare(t)),
{
    reveal(hearing::hear_s);
    names::lemma_codes();
}

proof fn lemma_open_borders(s: DocReaderV)
    requires
        s.tbl.cell is Some,
        s.tbl.depth == 1,
    ensures
        hearing::hear_s(s, markup::open_s("w:tcBorders"@)) == with_tbl_s(
            s,
            TableReaderV { in_tc_borders: true, ..s.tbl },
        ),
        hearing::fits_s(s, markup::open_s("w:tcBorders"@)),
        hearing::hear_s(s, Piece::Close("w:tcBorders"@)) == with_tbl_s(
            s,
            TableReaderV { in_tc_borders: false, ..s.tbl },
        ),
        hearing::fits_s(s, Piece::Close("w:tcBorders"@)),
{
    reveal(hearing::hear_s);
    names::lemma_codes();
}

proof fn lemma_open_margins(s: DocReaderV)
    requires
        s.tbl.cell is Some,
        s.tbl.depth == 1,
    ensures
        hearing::hear_s(s, markup::open_s("w:tcMar"@)) == with_tbl_s(
            s,
            TableReaderV { in_tc_mar: true, ..s.tbl },
        ),
        hearing::fits_s(s, markup::open_s("w:tcMar"@)),
        hearing::hear_s(s, Piece::Close("w:tcMar"@)) == with_tbl_s(
            s,
            TableReaderV { in_tc_mar: false, ..s.tbl },
        ),
        hearing::fits_s(s, Piece::Close("w:tcMar"@)),
{
    reveal(hearing::hear_s);
    names::lemma_codes();
}

proof fn lemma_cell_edge(s: DocReaderV, t: XmlTagV)
    requires
        s.tbl.cell is Some,
        s.tbl.in_tc_borders,
        !s.para.in_pbdr,
        t.name == "w:top"@ || t.name == "w:left"@ || t.name == "w:bottom"@ || t.name == "w:right"@,
    ensures
        hearing::hear_s(s, Piece::Bare(t)) == with_cell_s(
            s,
            TableCellV {
                borders: style_parse::with_edge_s(
                    s.tbl.cell->0.borders,
                    t.name,
                    style_parse::border_s(t),
                ),
                ..s.tbl.cell->0
            },
        ),
        hearing::fits_s(s, Piece::Bare(t)),
{
    reveal(hearing::hear_s);
    names::lemma_codes();
}

proof fn lemma_cell_margin(s: DocReaderV, t: XmlTagV)
    requires
        s.tbl.cell is Some,
        s.tbl.in_tc_mar,
        !s.tbl.in_tc_borders,
        !s.tbl.in_tbl_borders,
        !s.para.in_pbdr,
        t.name == "w:top"@ || t.name == "w:left"@ || t.name == "w:bottom"@ || t.name == "w:right"@,
    ensures
        hearing::hear_s(s, Piece::Bare(t)) == with_cell_s(
            s,
            TableCellV {
                margins: Some(
                    style_parse::with_margin_s(
                        events::or_s(s.tbl.cell->0.margins, CellMargins::initial()),
                        t.name,
                        Some(events::or_s(events::attr_u32_s(t, "w:w"@), 0)),
                    ),
                ),
                ..s.tbl.cell->0
            },
        ),
        hearing::fits_s(s, Piece::Bare(t)),
{
    reveal(hearing::hear_s);
    names::lemma_codes();
}

proof fn lemma_cell_block(s: DocReaderV)
    requires
        !s.run.in_rpr,
    ensures
        hearing::hear_s(s, markup::open_s("w:tcPr"@)) == s,
        hearing::fits_s(s, markup::open_s("w:tcPr"@)),
        hearing::hear_s(s, Piece::Close("w:tcPr"@)) == s,
        hearing::fits_s(s, Piece::Close("w:tcPr"@)),
{
    reveal(hearing::hear_s);
    names::lemma_codes();
}

// ---------------------------------------------------------------- the properties one by one

/// Whether tags that spell `a` take the reader from `s0` to `s` with the cell `c`.
#[verifier::opaque]
spec fn at_cell_s(s0: DocReaderV, v: Seq<Piece>, s: DocReaderV, c: TableCellV, a: Seq<char>) -> bool {
    told_so_far_s(s0, v, with_cell_s(s, c), a)
}

proof fn lemma_put(
    s0: DocReaderV,
    v: Seq<Piece>,
    s: DocReaderV,
    c: TableCellV,
    a: Seq<char>,
    on: bool,
    p: Piece,
    x: Seq<char>,
    d: TableCellV,
) -> (w: Seq<Piece>)
    requires
        at_cell_s(s0, v, s, c, a),
        !(p is Chars),
        on ==> hearing::fits_s(with_cell_s(s, c), p) && x == markup::piece_text_s(p) && with_cell_s(s, d)
            == hearing::hear_s(with_cell_s(s, c), p),
        !on ==> x == Seq::<char>::empty() && d == c,
    ensures
        at_cell_s(s0, w, s, d, a + x),
{
    reveal(at_cell_s);
    lemma_told_on(s0, v, with_cell_s(s, c), a, on, p, x, with_cell_s(s, d))
}

proof fn lemma_put_width(
    s0: DocReaderV,
    v: Seq<Piece>,
    s: DocReaderV,
    c: TableCellV,
    a: Seq<char>,
    o: Option<u32>,
) -> (w: Seq<Piece>)
    requires
        at_cell_s(s0, v, s, c, a),
        in_cell_s(s),
        c.width is None,
    ensures
        at_cell_s(
            s0,
            w,
            s,
            TableCellV { width: o, ..c },
            a + xml::opt_dec_s("<w:tcW w:w=\""@, xml::int32_s(o), "\" w:type=\"dxa\"/>"@),
        ),
{
    names::lemma_codes();
    lemma_pre_tcw();
    lemma_width("w:tcW"@, o, "<w:tcW w:w=\""@);
    let n = match o {
        Some(n) => n as int,
        None => 0,
    };
    let t = width_tag_s("w:tcW"@, n);
    let m = with_cell_s(s, c);
    let d = TableCellV { width: o, ..c };
    if o is Some {
        lemma_cell_leaf(m, t);
        assert(import_table::cell_leaf_s(c, t) =~= d);
    }
    lemma_put(
        s0,
        v,
        s,
        c,
        a,
        o is Some,
        Piece::Bare(t),
        xml::opt_dec_s("<w:tcW w:w=\""@, xml::int32_s(o), "\" w:type=\"dxa\"/>"@),
        d,
    )
}

proof fn lemma_put_span(
    s0: DocReaderV,
    v: Seq<Piece>,
    s: DocReaderV,
    c: TableCellV,
    a: Seq<char>,
    n: usize,
) -> (w: Seq<Piece>)
    requires
        at_cell_s(s0, v, s, c, a),
        in_cell_s(s),
        c.grid_span == 1,
        n >= 1,
    ensures
        at_cell_s(s0, w, s, TableCellV { grid_span: n, ..c }, a + tables::grid_span_s(n)),
{
    names::lemma_codes();
    lemma_pre_span();
    let x = strs::dec_s(n as nat);
    telling::lemma_val_text("w:gridSpan"@, x, "<w:gridSpan w:val=\""@);
    markup::lemma_esc_dec(n as nat);
    strs::lemma_dec_parses(n as nat, usize::MAX as nat);
    let t = telling::val_tag_s("w:gridSpan"@, x);
    let d = TableCellV { grid_span: n, ..c };
    lemma_cell_leaf(with_cell_s(s, c), t);
    assert(import_table::cell_leaf_s(c, t) =~= d);
    lemma_put(s0, v, s, c, a, n > 1, Piece::Bare(t), tables::grid_span_s(n), d)
}

proof fn lemma_merge_text(v: VMerge)
    ensures
        tables::vmerge_s(v) == (match v {
            VMerge::Restart => markup::piece_text_s(
                Piece::Bare(telling::val_tag_s("w:vMerge"@, "restart"@)),
            ),
            VMerge::Continue => markup::piece_text_s(markup::bare_s("w:vMerge"@)),
            VMerge::Single => Seq::empty(),
        }),
        events::attr_s(telling::val_tag_s("w:vMerge"@, "restart"@), "w:val"@) == Some("restart"@),
        telling::val_tag_s("w:vMerge"@, "restart"@).name == "w:vMerge"@,
{
    lemma_pre_merge();
    telling::lemma_val_text("w:vMerge"@, "restart"@, "<w:vMerge w:val=\""@);
    reveal_strlit("restart");
    markup::lemma_esc_word("restart"@);
    reveal_strlit("<w:vMerge w:val=\"restart\"/>");
    reveal_strlit("<w:vMerge w:val=\"");
    reveal_strlit("\"/>");
    assert("<w:vMerge w:val=\"restart\"/>"@ =~= "<w:vMerge w:val=\""@ + "restart"@ + "\"/>"@);
    reveal_strlit("<w:vMerge/>");
    reveal_strlit("<");
    reveal_strlit("w:vMerge");
    reveal_strlit("/>");
    assert("<w:vMerge/>"@ =~= "<"@ + "w:vMerge"@ + "/>"@);
    markup::lemma_bare_text("w:vMerge"@, "<w:vMerge/>"@);
}

proof fn lemma_put_merge(
    s0: DocReaderV,
    v: Seq<Piece>,
    s: DocReaderV,
    c: TableCellV,
    a: Seq<char>,
    m: VMerge,
) -> (w: Seq<Piece>)
    requires
        at_cell_s(s0, v, s, c, a),
        in_cell_s(s),
        c.vmerge == VMerge::Single,
    ensures
        at_cell_s(s0, w, s, TableCellV { vmerge: m, ..c }, a + tables::vmerge_s(m)),
{
    names::lemma_codes();
    lemma_merge_text(m);
    markup::lemma_no_attrs("w:vMerge"@);
    let t = if m == VMerge::Restart {
        telling::val_tag_s("w:vMerge"@, "restart"@)
    } else {
        markup::tag_s("w:vMerge"@, Seq::empty())
    };
    let d = TableCellV { vmerge: m, ..c };
    lemma_cell_leaf(with_cell_s(s, c), t);
    assert(m != VMerge::Single ==> import_table::cell_leaf_s(c, t) =~= d);
    lemma_put(s0, v, s, c, a, m != VMerge::Single, Piece::Bare(t), tables::vmerge_s(m), d)
}

proof fn lemma_put_fill(
    s0: DocReaderV,
    v: Seq<Piece>,
    s: DocReaderV,
    c: TableCellV,
    a: Seq<char>,
    o: Option<Seq<char>>,
) -> (w: Seq<Piece>)
    requires
        at_cell_s(s0, v, s, c, a),
        in_cell_s(s),
        c.shading is None,
        telling::stated_fill_s(o),
    ensures
        at_cell_s(
            s0,
            w,
            s,
            TableCellV { shading: o, ..c },
            a + xml::opt_esc_s("<w:shd w:val=\"clear\" w:color=\"auto\" w:fill=\""@, o, "\"/>"@),
        ),
{
    names::lemma_codes();
    telling::lemma_fill(o);
    let t = telling::fill_tag_s(telling::some_s(o));
    let d = TableCellV { shading: o, ..c };
    lemma_cell_fill(with_cell_s(s, c), t);
    assert(o is Some ==> crate::import_text::fill_s(t) == o);
    lemma_put(
        s0,
        v,
        s,
        c,
        a,
        o is Some,
        Piece::Bare(t),
        xml::opt_esc_s("<w:shd w:val=\"clear\" w:color=\"auto\" w:fill=\""@, o, "\"/>"@),
        d,
    )
}

proof fn lemma_put_edge_top(
    s0: DocReaderV,
    v: Seq<Piece>,
    s: DocReaderV,
    c: TableCellV,
    a: Seq<char>,
    o: Option<BorderV>,
) -> (w: Seq<Piece>)
    requires
        at_cell_s(s0, v, s, c, a),
        s.tbl.in_tc_borders,
        !s.para.in_pbdr,
        c.borders.top is None,
        stated_border_s(o),
    ensures
        at_cell_s(
            s0,
            w,
            s,
            TableCellV { borders: EdgeBordersV { top: o, ..c.borders }, ..c },
            a + tables::edge_s("<w:top"@, o),
        ),
{
    names::lemma_codes();
    assert("<w:top"@ =~= "<"@ + "w:top"@) by {
        reveal_strlit("<w:top");
        reveal_strlit("<");
        reveal_strlit("w:top");
    }
    let d = TableCellV { borders: EdgeBordersV { top: o, ..c.borders }, ..c };
    let b = match o {
        Some(b) => b,
        None => BorderV { size_eighths: 0, color: Seq::empty() },
    };
    let t = edge_tag_s("w:top"@, b);
    if o is Some {
        lemma_edge("w:top"@, b);
        lemma_cell_edge(with_cell_s(s, c), t);
    }
    lemma_put(s0, v, s, c, a, o is Some, Piece::Bare(t), tables::edge_s("<w:top"@, o), d)
}

proof fn lemma_put_margin_top(
    s0: DocReaderV,
    v: Seq<Piece>,
    s: DocReaderV,
    c: TableCellV,
    a: Seq<char>,
    o: Option<u32>,
) -> (w: Seq<Piece>)
    requires
        at_cell_s(s0, v, s, c, a),
        s.tbl.in_tc_mar,
        !s.tbl.in_tc_borders,
        !s.tbl.in_tbl_borders,
        !s.para.in_pbdr,
        events::or_s(c.margins, CellMargins::initial()).top is None,
    ensures
        at_cell_s(
            s0,
            w,
            s,
            TableCellV {
                margins: if o is Some {
                    Some(CellMargins { top: o, ..events::or_s(c.margins, CellMargins::initial()) })
                } else {
                    c.margins
                },
                ..c
            },
            a + xml::opt_dec_s("<w:top w:w=\""@, xml::int32_s(o), "\" w:type=\"dxa\"/>"@),
        ),
{
    names::lemma_codes();
    lemma_pre_top();
    lemma_width("w:top"@, o, "<w:top w:w=\""@);
    let n = match o {
        Some(n) => n as int,
        None => 0,
    };
    let t = width_tag_s("w:top"@, n);
    let d = TableCellV {
        margins: if o is Some {
            Some(CellMargins { top: o, ..events::or_s(c.margins, CellMargins::initial()) })
        } else {
            c.margins
        },
        ..c
    };
    if o is Some {
        lemma_cell_margin(with_cell_s(s, c), t);
    }
    lemma_put(
        s0,
        v,
        s,
        c,
        a,
        o is Some,
        Piece::Bare(t),
        xml::opt_dec_s("<w:top w:w=\""@, xml::int32_s(o), "\" w:type=\"dxa\"/>"@),
        d,
    )
}

proof fn lemma_put_edge_left(
    s0: DocReaderV,
    v: Seq<Piece>,
    s: DocReaderV,
    c: TableCellV,
    a: Seq<char>,
    o: Option<BorderV>,
) -> (w: Seq<Piece>)
    requires
        at_cell_s(s0, v, s, c, a),
        s.tbl.in_tc_borders,
        !s.para.in_pbdr,
        c.borders.left is None,
        stated_border_s(o),
    ensures
        at_cell_s(
            s0,
            w,
            s,
            TableCellV { borders: EdgeBordersV { left: o, ..c.borders }, ..c },
            a + tables::edge_s("<w:left"@, o),
        ),
{
    names::lemma_codes();
    assert("<w:left"@ =~= "<"@ + "w:left"@) by {
        reveal_strlit("<w:left");
        reveal_strlit("<");
        reveal_strlit("w:left");
    }
    let d = TableCellV { borders: EdgeBordersV { left: o, ..c.borders }, ..c };
    let b = match o {
        Some(b) => b,
        None => BorderV { size_eighths: 0, color: Seq::empty() },
    };
    let t = edge_tag_s("w:left"@, b);
    if o is Some {
        lemma_edge("w:left"@, b);
        lemma_cell_edge(with_cell_s(s, c), t);
    }
    lemma_put(s0, v, s, c, a, o is Some, Piece::Bare(t), tables::edge_s("<w:left"@, o), d)
}

proof fn lemma_put_margin_left(
    s0: DocReaderV,
    v: Seq<Piece>,
    s: DocReaderV,
    c: TableCellV,
    a: Seq<char>,
    o: Option<u32>,
) -> (w: Seq<Piece>)
    requires
        at_cell_s(s0, v, s, c, a),
        s.tbl.in_tc_mar,
        !s.tbl.in_tc_borders,
        !s.tbl.in_tbl_borders,
        !s.para.in_pbdr,
        events::or_s(c.margins, CellMargins::initial()).left is None,
    ensures
        at_cell_s(
            s0,
            w,
            s,
            TableCellV {
                margins: if o is Some {
                    Some(CellMargins { left: o, ..events::or_s(c.margins, CellMargins::initial()) })
                } else {
                    c.margins
                },
                ..c
            },
            a + xml::opt_dec_s("<w:left w:w=\""@, xml::int32_s(o), "\" w:type=\"dxa\"/>"@),
        ),
{
    names::lemma_codes();
    lemma_pre_left();
    lemma_width("w:left"@, o, "<w:left w:w=\""@);
    let n = match o {
        Some(n) => n as int,
        None => 0,
    };
    let t = width_tag_s("w:left"@, n);
    let d = TableCellV {
        margins: if o is Some {
            Some(CellMargins { left: o, ..events::or_s(c.margins, CellMargins::initial()) })
        } else {
            c.margins
        },
        ..c
    };
    if o is Some {
        lemma_cell_margin(with_cell_s(s, c), t);
    }
    lemma_put(
        s0,
        v,
        s,
        c,
        a,
        o is Some,
        Piece::Bare(t),
        xml::opt_dec_s("<w:left w:w=\""@, xml::int32_s(o), "\" w:type=\"dxa\"/>"@),
        d,
    )
}

proof fn lemma_put_edge_bottom(
    s0: DocReaderV,
    v: Seq<Piece>,
    s: DocReaderV,
    c: TableCellV,
    a: Seq<char>,
    o: Option<BorderV>,
) -> (w: Seq<Piece>)
    requires
        at_cell_s(s0, v, s, c, a),
        s.tbl.in_tc_borders,
        !s.para.in_pbdr,
        c.borders.bottom is None,
        stated_border_s(o),
    ensures
        at_cell_s(
            s0,
            w,
            s,
            TableCellV { borders: EdgeBordersV { bottom: o, ..c.borders }, ..c },
            a + tables::edge_s("<w:bottom"@, o),
        ),
{
    names::lemma_codes();
    assert("<w:bottom"@ =~= "<"@ + "w:bottom"@) by {
        reveal_strlit("<w:bottom");
        reveal_strlit("<");
        reveal_strlit("w:bottom");
    }
    let d = TableCellV { borders: EdgeBordersV { bottom: o, ..c.borders }, ..c };
    let b = match o {
        Some(b) => b,
        None => BorderV { size_eighths: 0, color: Seq::empty() },
    };
    let t = edge_tag_s("w:bottom"@, b);
    if o is Some {
        lemma_edge("w:bottom"@, b);
        lemma_cell_edge(with_cell_s(s, c), t);
    }
    lemma_put(s0, v, s, c, a, o is Some, Piece::Bare(t), tables::edge_s("<w:bottom"@, o), d)
}

proof fn lemma_put_margin_bottom(
    s0: DocReaderV,
    v: Seq<Piece>,
    s: DocReaderV,
    c: TableCellV,
    a: Seq<char>,
    o: Option<u32>,
) -> (w: Seq<Piece>)
    requires
        at_cell_s(s0, v, s, c, a),
        s.tbl.in_tc_mar,
        !s.tbl.in_tc_borders,
        !s.tbl.in_tbl_borders,
        !s.para.in_pbdr,
        events::or_s(c.margins, CellMargins::initial()).bottom is None,
    ensures
        at_cell_s(
            s0,
            w,
            s,
            TableCellV {
                margins: if o is Some {
                    Some(CellMargins { bottom: o, ..events::or_s(c.margins, CellMargins::initial()) })
                } else {
                    c.margins
                },
                ..c
            },
            a + xml::opt_dec_s("<w:bottom w:w=\""@, xml::int32_s(o), "\" w:type=\"dxa\"/>"@),
        ),
{
    names::lemma_codes();
    lemma_pre_bottom();
    lemma_width("w:bottom"@, o, "<w:bottom w:w=\""@);
    let n = match o {
        Some(n) => n as int,
        None => 0,
    };
    let t = width_tag_s("w:bottom"@, n);
    let d = TableCellV {
        margins: if o is Some {
            Some(CellMargins { bottom: o, ..events::or_s(c.margins, CellMargins::initial()) })
        } else {
            c.margins
        },
        ..c
    };
    if o is Some {
        lemma_cell_margin(with_cell_s(s, c), t);
    }
    lemma_put(
        s0,
        v,
        s,
        c,
        a,
        o is Some,
        Piece::Bare(t),
        xml::opt_dec_s("<w:bottom w:w=\""@, xml::int32_s(o), "\" w:type=\"dxa\"/>"@),
        d,
    )
}

proof fn lemma_put_edge_right(
    s0: DocReaderV,
    v: Seq<Piece>,
    s: DocReaderV,
    c: TableCellV,
    a: Seq<char>,
    o: Option<BorderV>,
) -> (w: Seq<Piece>)
    requires
        at_cell_s(s0, v, s, c, a),
        s.tbl.in_tc_borders,
        !s.para.in_pbdr,
        c.borders.right is None,
        stated_border_s(o),
    ensures
        at_cell_s(
            s0,
            w,
            s,
            TableCellV { borders: EdgeBordersV { right: o, ..c.borders }, ..c },
            a + tables::edge_s("<w:right"@, o),
        ),
{
    names::lemma_codes();
    assert("<w:right"@ =~= "<"@ + "w:right"@) by {
        reveal_strlit("<w:right");
        reveal_strlit("<");
        reveal_strlit("w:right");
    }
    let d = TableCellV { borders: EdgeBordersV { right: o, ..c.borders }, ..c };
    let b = match o {
        Some(b) => b,
        None => BorderV { size_eighths: 0, color: Seq::empty() },
    };
    let t = edge_tag_s("w:right"@, b);
    if o is Some {
        lemma_edge("w:right"@, b);
        lemma_cell_edge(with_cell_s(s, c), t);
    }
    lemma_put(s0, v, s, c, a, o is Some, Piece::Bare(t), tables::edge_s("<w:right"@, o), d)
}

proof fn lemma_put_margin_right(
    s0: DocReaderV,
    v: Seq<Piece>,
    s: DocReaderV,
    c: TableCellV,
    a: Seq<char>,
    o: Option<u32>,
) -> (w: Seq<Piece>)
    requires
        at_cell_s(s0, v, s, c, a),
        s.tbl.in_tc_mar,
        !s.tbl.in_tc_borders,
        !s.tbl.in_tbl_borders,
        !s.para.in_pbdr,
        events::or_s(c.margins, CellMargins::initial()).right is None,
    ensures
        at_cell_s(
            s0,
            w,
            s,
            TableCellV {
                margins: if o is Some {
                    Some(CellMargins { right: o, ..events::or_s(c.margins, CellMargins::initial()) })
                } else {
                    c.margins
                },
                ..c
            },
            a + xml::opt_dec_s("<w:right w:w=\""@, xml::int32_s(o), "\" w:type=\"dxa\"/>"@),
        ),
{
    names::lemma_codes();
    lemma_pre_right();
    lemma_width("w:right"@, o, "<w:right w:w=\""@);
    let n = match o {
        Some(n) => n as int,
        None => 0,
    };
    let t = width_tag_s("w:right"@, n);
    let d = TableCellV {
        margins: if o is Some {
            Some(CellMargins { right: o, ..events::or_s(c.margins, CellMargins::initial()) })
        } else {
            c.margins
        },
        ..c
    };
    if o is Some {
        lemma_cell_margin(with_cell_s(s, c), t);
    }
    lemma_put(
        s0,
        v,
        s,
        c,
        a,
        o is Some,
        Piece::Bare(t),
        xml::opt_dec_s("<w:right w:w=\""@, xml::int32_s(o), "\" w:type=\"dxa\"/>"@),
        d,
    )
}

// ---------------------------------------------------------------- borders and margins

/// Whether a cell's borders are such as markup states: no inside edges, no automatic colours.
pub open spec fn stated_borders_s(e: EdgeBordersV) -> bool {
    &&& stated_border_s(e.top)
    &&& stated_border_s(e.left)
    &&& stated_border_s(e.bottom)
    &&& stated_border_s(e.right)
    &&& e.inside_h is None
    &&& e.inside_v is None
}

/// Whether margins are such as markup states: at least one side is set.
pub open spec fn stated_margins_s(o: Option<CellMargins>) -> bool {
    o matches Some(m) ==> m.top is Some || m.left is Some || m.bottom is Some || m.right is Some
}

proof fn lemma_edges(
    s0: DocReaderV,
    v: Seq<Piece>,
    s: DocReaderV,
    c: TableCellV,
    a: Seq<char>,
    b: EdgeBordersV,
) -> (w: Seq<Piece>)
    requires
        at_cell_s(s0, v, s, c, a),
        s.tbl.in_tc_borders,
        !s.para.in_pbdr,
        c.borders == EdgeBordersV::initial(),
        stated_borders_s(b),
    ensures
        at_cell_s(s0, w, s, TableCellV { borders: b, ..c }, a + tables::outer_edges_s(b)),
{
    let x1 = tables::edge_s("<w:top"@, b.top);
    let x2 = tables::edge_s("<w:left"@, b.left);
    let x3 = tables::edge_s("<w:bottom"@, b.bottom);
    let x4 = tables::edge_s("<w:right"@, b.right);
    let v1 = lemma_put_edge_top(s0, v, s, c, a, b.top);
    let c1 = TableCellV { borders: EdgeBordersV { top: b.top, ..c.borders }, ..c };
    let v2 = lemma_put_edge_left(s0, v1, s, c1, a + x1, b.left);
    let c2 = TableCellV { borders: EdgeBordersV { left: b.left, ..c1.borders }, ..c1 };
    let v3 = lemma_put_edge_bottom(s0, v2, s, c2, a + x1 + x2, b.bottom);
    let c3 = TableCellV { borders: EdgeBordersV { bottom: b.bottom, ..c2.borders }, ..c2 };
    let v4 = lemma_put_edge_right(s0, v3, s, c3, a + x1 + x2 + x3, b.right);
    let c4 = TableCellV { borders: EdgeBordersV { right: b.right, ..c3.borders }, ..c3 };
    assert(c4.borders =~= b);
    markup::lemma_assoc(a, x1, x2);
    markup::lemma_assoc(a, x1 + x2, x3);
    markup::lemma_assoc(a, x1 + x2 + x3, x4);
    v4
}

proof fn lemma_sides(
    s0: DocReaderV,
    v: Seq<Piece>,
    s: DocReaderV,
    c: TableCellV,
    a: Seq<char>,
    m: CellMargins,
) -> (w: Seq<Piece>)
    requires
        at_cell_s(s0, v, s, c, a),
        s.tbl.in_tc_mar,
        !s.tbl.in_tc_borders,
        !s.tbl.in_tbl_borders,
        !s.para.in_pbdr,
        c.margins is None,
        stated_margins_s(Some(m)),
    ensures
        at_cell_s(
            s0,
            w,
            s,
            TableCellV { margins: Some(m), ..c },
            a + xml::opt_dec_s("<w:top w:w=\""@, xml::int32_s(m.top), "\" w:type=\"dxa\"/>"@)
                + xml::opt_dec_s("<w:left w:w=\""@, xml::int32_s(m.left), "\" w:type=\"dxa\"/>"@)
                + xml::opt_dec_s("<w:bottom w:w=\""@, xml::int32_s(m.bottom), "\" w:type=\"dxa\"/>"@)
                + xml::opt_dec_s("<w:right w:w=\""@, xml::int32_s(m.right), "\" w:type=\"dxa\"/>"@),
        ),
{
    let x1 = xml::opt_dec_s("<w:top w:w=\""@, xml::int32_s(m.top), "\" w:type=\"dxa\"/>"@);
    let x2 = xml::opt_dec_s("<w:left w:w=\""@, xml::int32_s(m.left), "\" w:type=\"dxa\"/>"@);
    let x3 = xml::opt_dec_s("<w:bottom w:w=\""@, xml::int32_s(m.bottom), "\" w:type=\"dxa\"/>"@);
    let z = CellMargins::initial();
    let v1 = lemma_put_margin_top(s0, v, s, c, a, m.top);
    let m1 = if m.top is Some {
        Some(CellMargins { top: m.top, ..z })
    } else {
        None
    };
    let c1 = TableCellV { margins: m1, ..c };
    let v2 = lemma_put_margin_left(s0, v1, s, c1, a + x1, m.left);
    let m2 = if m.left is Some {
        Some(CellMargins { left: m.left, ..events::or_s(m1, z) })
    } else {
        m1
    };
    let c2 = TableCellV { margins: m2, ..c };
    let v3 = lemma_put_margin_bottom(s0, v2, s, c2, a + x1 + x2, m.bottom);
    let m3 = if m.bottom is Some {
        Some(CellMargins { bottom: m.bottom, ..events::or_s(m2, z) })
    } else {
        m2
    };
    let c3 = TableCellV { margins: m3, ..c };
    let v4 = lemma_put_margin_right(s0, v3, s, c3, a + x1 + x2 + x3, m.right);
    v4
}

/// A block of tags inside a cell's properties: its start, what stands in it, its end.
proof fn lemma_block(
    s0: DocReaderV,
    v: Seq<Piece>,
    s: DocReaderV,
    c: TableCellV,
    a: Seq<char>,
    p: Piece,
    x: Seq<char>,
    t: TableReaderV,
) -> (w: Seq<Piece>)
    requires
        at_cell_s(s0, v, s, c, a),
        !(p is Chars),
        x == markup::piece_text_s(p),
        hearing::fits_s(with_cell_s(s, c), p),
        hearing::hear_s(with_cell_s(s, c), p) == with_cell_s(with_tbl_s(s, t), c),
    ensures
        at_cell_s(s0, w, with_tbl_s(s, t), c, a + x),
{
    reveal(at_cell_s);
    lemma_told_on(s0, v, with_cell_s(s, c), a, true, p, x, with_cell_s(with_tbl_s(s, t), c))
}

proof fn lemma_border_lits()
    ensures
        "<w:tcBorders>"@ == "<"@ + "w:tcBorders"@ + ">"@,
        "</w:tcBorders>"@ == "</"@ + "w:tcBorders"@ + ">"@,
        "<w:tcMar>"@ == "<"@ + "w:tcMar"@ + ">"@,
        "</w:tcMar>"@ == "</"@ + "w:tcMar"@ + ">"@,
        "<w:tcPr>"@ == "<"@ + "w:tcPr"@ + ">"@,
        "</w:tcPr>"@ == "</"@ + "w:tcPr"@ + ">"@,
{
    reveal_strlit("<w:tcBorders>");
    reveal_strlit("</w:tcBorders>");
    reveal_strlit("<w:tcMar>");
    reveal_strlit("</w:tcMar>");
    reveal_strlit("<w:tcPr>");
    reveal_strlit("</w:tcPr>");
    reveal_strlit("w:tcBorders");
    reveal_strlit("w:tcMar");
    reveal_strlit("w:tcPr");
    reveal_strlit("<");
    reveal_strlit("</");
    reveal_strlit(">");
    assert("<w:tcBorders>"@ =~= "<"@ + "w:tcBorders"@ + ">"@);
    assert("</w:tcBorders>"@ =~= "</"@ + "w:tcBorders"@ + ">"@);
    assert("<w:tcMar>"@ =~= "<"@ + "w:tcMar"@ + ">"@);
    assert("</w:tcMar>"@ =~= "</"@ + "w:tcMar"@ + ">"@);
    assert("<w:tcPr>"@ =~= "<"@ + "w:tcPr"@ + ">"@);
    assert("</w:tcPr>"@ =~= "</"@ + "w:tcPr"@ + ">"@);
}

pub(crate) proof fn lemma_edge_len(open: Seq<char>, b: Option<BorderV>)
    ensures
        tables::edge_s(open, b).len() == 0 ==> b is None,
{
    reveal_strlit(" w:val=\"single\" w:sz=\"");
}

proof fn lemma_borders(
    s0: DocReaderV,
    v: Seq<Piece>,
    s: DocReaderV,
    c: TableCellV,
    a: Seq<char>,
    b: EdgeBordersV,
) -> (w: Seq<Piece>)
    requires
        at_cell_s(s0, v, s, c, a),
        in_cell_s(s),
        c.borders == EdgeBordersV::initial(),
        stated_borders_s(b),
    ensures
        at_cell_s(s0, w, s, TableCellV { borders: b, ..c }, a + tables::cell_borders_s(b)),
{
    let x = tables::outer_edges_s(b);
    if x.len() == 0 {
        lemma_edge_len("<w:top"@, b.top);
        lemma_edge_len("<w:left"@, b.left);
        lemma_edge_len("<w:bottom"@, b.bottom);
        lemma_edge_len("<w:right"@, b.right);
        assert(b =~= c.borders);
        assert(a + tables::cell_borders_s(b) =~= a);
        v
    } else {
        lemma_border_lits();
        markup::lemma_open_text("w:tcBorders"@, "<w:tcBorders>"@);
        let o1 = "<w:tcBorders>"@;
        let o2 = "</w:tcBorders>"@;
        let t = TableReaderV { in_tc_borders: true, ..s.tbl };
        let d = TableCellV { borders: b, ..c };
        let m = with_tbl_s(s, t);
        lemma_open_borders(with_cell_s(s, c));
        lemma_open_borders(with_cell_s(m, d));
        let v1 = lemma_block(s0, v, s, c, a, markup::open_s("w:tcBorders"@), o1, t);
        let v2 = lemma_edges(s0, v1, m, c, a + o1, b);
        let q = Piece::Close("w:tcBorders"@);
        assert(with_cell_s(with_tbl_s(m, s.tbl), d) == hearing::hear_s(with_cell_s(m, d), q));
        let v3 = lemma_block(s0, v2, m, d, a + o1 + x, q, o2, s.tbl);
        assert(with_tbl_s(m, s.tbl) == s);
        markup::lemma_assoc(a, o1, x);
        markup::lemma_assoc(a, o1 + x, o2);
        v3
    }
}

proof fn lemma_margins(
    s0: DocReaderV,
    v: Seq<Piece>,
    s: DocReaderV,
    c: TableCellV,
    a: Seq<char>,
    o: Option<CellMargins>,
) -> (w: Seq<Piece>)
    requires
        at_cell_s(s0, v, s, c, a),
        in_cell_s(s),
        c.margins is None,
        stated_margins_s(o),
    ensures
        at_cell_s(s0, w, s, TableCellV { margins: o, ..c }, a + tables::cell_margins_s(o)),
{
    if o is None {
        assert(a + tables::cell_margins_s(o) =~= a);
        v
    } else {
        let k = o->0;
        lemma_border_lits();
        markup::lemma_open_text("w:tcMar"@, "<w:tcMar>"@);
        let o1 = "<w:tcMar>"@;
        let o2 = "</w:tcMar>"@;
        let x1 = xml::opt_dec_s("<w:top w:w=\""@, xml::int32_s(k.top), "\" w:type=\"dxa\"/>"@);
        let x2 = xml::opt_dec_s("<w:left w:w=\""@, xml::int32_s(k.left), "\" w:type=\"dxa\"/>"@);
        let x3 = xml::opt_dec_s("<w:bottom w:w=\""@, xml::int32_s(k.bottom), "\" w:type=\"dxa\"/>"@);
        let x4 = xml::opt_dec_s("<w:right w:w=\""@, xml::int32_s(k.right), "\" w:type=\"dxa\"/>"@);
        let t = TableReaderV { in_tc_mar: true, ..s.tbl };
        let d = TableCellV { margins: o, ..c };
        let m = with_tbl_s(s, t);
        lemma_open_margins(with_cell_s(s, c));
        lemma_open_margins(with_cell_s(m, d));
        let v1 = lemma_block(s0, v, s, c, a, markup::open_s("w:tcMar"@), o1, t);
        let v2 = lemma_sides(s0, v1, m, c, a + o1, k);
        let q = Piece::Close("w:tcMar"@);
        assert(with_cell_s(with_tbl_s(m, s.tbl), d) == hearing::hear_s(with_cell_s(m, d), q));
        let v3 = lemma_block(s0, v2, m, d, a + o1 + x1 + x2 + x3 + x4, q, o2, s.tbl);
        assert(with_tbl_s(m, s.tbl) == s);
        markup::lemma_assoc(a, o1, x1);
        markup::lemma_assoc(a, o1 + x1, x2);
        markup::lemma_assoc(a, o1 + x1 + x2, x3);
        markup::lemma_assoc(a, o1 + x1 + x2 + x3, x4);
        markup::lemma_assoc(a, o1 + x1 + x2 + x3 + x4, o2);
        v3
    }
}

// ---------------------------------------------------------------- a cell

/// Whether a cell's properties are such as markup states.
pub open spec fn stated_cell_s(c: TableCellV) -> bool {
    &&& c.grid_span >= 1
    &&& stated_borders_s(c.borders)
    &&& stated_margins_s(c.margins)
    &&& telling::stated_fill_s(c.shading)
}

/// A cell of which nothing is known yet.
pub open spec fn fresh_cell_s(c: TableCellV) -> bool {
    &&& c.width is None
    &&& c.grid_span == 1
    &&& c.vmerge == VMerge::Single
    &&& c.borders == EdgeBordersV::initial()
    &&& c.margins is None
    &&& c.shading is None
}

/// The cell `c` with the properties of `d`.
pub open spec fn with_cell_props_s(c: TableCellV, d: TableCellV) -> TableCellV {
    TableCellV {
        width: d.width,
        grid_span: d.grid_span,
        vmerge: d.vmerge,
        borders: d.borders,
        margins: d.margins,
        shading: d.shading,
        ..c
    }
}

proof fn lemma_cell_props(
    s0: DocReaderV,
    v: Seq<Piece>,
    s: DocReaderV,
    c: TableCellV,
    a: Seq<char>,
    d: TableCellV,
) -> (w: Seq<Piece>)
    requires
        at_cell_s(s0, v, s, c, a),
        in_cell_s(s),
        fresh_cell_s(c),
        stated_cell_s(d),
    ensures
        at_cell_s(
            s0,
            w,
            s,
            with_cell_props_s(c, d),
            a + tables::cell_props_s(d.width, d.grid_span, d.vmerge, d.borders, d.shading, d.margins),
        ),
{
    let x1 = xml::opt_dec_s("<w:tcW w:w=\""@, xml::int32_s(d.width), "\" w:type=\"dxa\"/>"@);
    let x2 = tables::grid_span_s(d.grid_span);
    let x3 = tables::vmerge_s(d.vmerge);
    let x4 = tables::cell_borders_s(d.borders);
    let x5 = xml::opt_esc_s(
        "<w:shd w:val=\"clear\" w:color=\"auto\" w:fill=\""@,
        d.shading,
        "\"/>"@,
    );
    let x6 = tables::cell_margins_s(d.margins);
    let v1 = lemma_put_width(s0, v, s, c, a, d.width);
    let c1 = TableCellV { width: d.width, ..c };
    let v2 = lemma_put_span(s0, v1, s, c1, a + x1, d.grid_span);
    let c2 = TableCellV { grid_span: d.grid_span, ..c1 };
    let v3 = lemma_put_merge(s0, v2, s, c2, a + x1 + x2, d.vmerge);
    let c3 = TableCellV { vmerge: d.vmerge, ..c2 };
    let v4 = lemma_borders(s0, v3, s, c3, a + x1 + x2 + x3, d.borders);
    let c4 = TableCellV { borders: d.borders, ..c3 };
    let v5 = lemma_put_fill(s0, v4, s, c4, a + x1 + x2 + x3 + x4, d.shading);
    let c5 = TableCellV { shading: d.shading, ..c4 };
    let v6 = lemma_margins(s0, v5, s, c5, a + x1 + x2 + x3 + x4 + x5, d.margins);
    let c6 = TableCellV { margins: d.margins, ..c5 };
    assert(c6 =~= with_cell_props_s(c, d));
    markup::lemma_assoc(a, x1, x2);
    markup::lemma_assoc(a, x1 + x2, x3);
    markup::lemma_assoc(a, x1 + x2 + x3, x4);
    markup::lemma_assoc(a, x1 + x2 + x3 + x4, x5);
    markup::lemma_assoc(a, x1 + x2 + x3 + x4 + x5, x6);
    v6
}

/// The markup of an insertion or deletion of a cell.
pub open spec fn cell_change_tag_s(t: TrackV) -> XmlTagV {
    markup::tag_s(
        if t.kind == TrackKind::Del {
            "w:cellDel"@
        } else {
            "w:cellIns"@
        },
        telling::revision_attrs_s(t.id as nat, t.author, t.date),
    )
}

pub open spec fn of_cells_s(o: Option<TrackV>) -> bool {
    o matches Some(t) ==> t.kind is Ins || t.kind is Del
}

proof fn lemma_cell_change_text(t: TrackV)
    ensures
        tables::cell_change_s(Some(t)) == markup::piece_text_s(Piece::Bare(cell_change_tag_s(t))),
{
    let n = cell_change_tag_s(t).name;
    telling::lemma_revision_tag(n, t.id as nat, t.author, t.date);
    reveal_strlit("<w:cellDel");
    reveal_strlit("<w:cellIns");
    reveal_strlit("w:cellDel");
    reveal_strlit("w:cellIns");
    reveal_strlit("<");
    assert("<w:cellDel"@ =~= "<"@ + "w:cellDel"@);
    assert("<w:cellIns"@ =~= "<"@ + "w:cellIns"@);
}

/// The reader with the cell `c` and the revision of the cell.
pub open spec fn cell_told_s(s: DocReaderV, c: TableCellV, o: Option<TrackV>) -> DocReaderV {
    with_tbl_s(s, TableReaderV { cell: Some(c), cell_change: o, ..s.tbl })
}

proof fn lemma_cell_told(
    s0: DocReaderV,
    v: Seq<Piece>,
    s: DocReaderV,
    c: TableCellV,
    a: Seq<char>,
    o: Option<TrackV>,
) -> (w: Seq<Piece>)
    requires
        at_cell_s(s0, v, s, c, a),
        s.tbl.cell_change is None,
        of_cells_s(o),
    ensures
        told_so_far_s(s0, w, cell_told_s(s, c, o), a + tables::cell_change_s(o)),
{
    reveal(at_cell_s);
    let m = with_cell_s(s, c);
    let t = match o {
        Some(t) => t,
        None => TrackV { kind: TrackKind::Ins, author: Seq::empty(), date: Seq::empty(), id: 0 },
    };
    let g = cell_change_tag_s(t);
    names::lemma_codes();
    lemma_cell_change_text(t);
    telling::lemma_revision_read(g.name, t);
    lemma_cell_change(m, g);
    assert(cell_told_s(s, c, None) == m);
    lemma_told_on(
        s0,
        v,
        m,
        a,
        o is Some,
        Piece::Bare(g),
        tables::cell_change_s(o),
        cell_told_s(s, c, o),
    )
}

/// Whether markup `v` is the properties block of a cell, and reading it takes the reader to `e`.
pub open spec fn cell_back_s(d: TableCellV, s: DocReaderV, v: Seq<Piece>, e: DocReaderV) -> bool {
    &&& markup::spells_s(v, tables::tcpr_s(d))
    &&& hearing::takes_s(s, v, e)
    &&& hearing::reads_s(s, v, e)
    &&& e == cell_told_s(s, with_cell_props_s(s.tbl.cell->0, d), d.change)
}

/// What is written of a cell's properties reads back into a new cell: its width, the columns that
/// it spans, whether it starts or goes on with a merge over rows or stands alone, its borders, its
/// shading and its margins, and whether it is inserted or deleted, by whom, when and under which id.
pub proof fn law_cell_properties_read_back(d: TableCellV, s: DocReaderV)
    requires
        in_cell_s(s),
        s.tbl.cell_change is None,
        fresh_cell_s(s.tbl.cell->0),
        stated_cell_s(d),
        of_cells_s(d.change),
        d.prop_change is None,
    ensures
        exists|v: Seq<Piece>, e: DocReaderV| #[trigger] cell_back_s(d, s, v, e),
{
    let v = lemma_tcpr(d, s);
    let e = cell_told_s(s, with_cell_props_s(s.tbl.cell->0, d), d.change);
    hearing::lemma_reads(s, v, e);
    assert(cell_back_s(d, s, v, e));
}

pub(crate) proof fn lemma_tcpr(d: TableCellV, s: DocReaderV) -> (v: Seq<Piece>)
    requires
        in_cell_s(s),
        s.tbl.cell_change is None,
        fresh_cell_s(s.tbl.cell->0),
        stated_cell_s(d),
        of_cells_s(d.change),
        d.prop_change is None,
    ensures
        markup::spells_s(v, tables::tcpr_s(d)),
        hearing::takes_s(
            s,
            v,
            cell_told_s(s, with_cell_props_s(s.tbl.cell->0, d), d.change),
        ),
{
    let c = s.tbl.cell->0;
    let e = Seq::<char>::empty();
    let f = cell_told_s(s, with_cell_props_s(c, d), d.change);
    let x = tables::cell_props_s(d.width, d.grid_span, d.vmerge, d.borders, d.shading, d.margins);
    let y = tables::cell_change_s(d.change);
    assert(with_cell_s(s, c) == s);
    telling::lemma_told_none(s);
    assert(at_cell_s(s, Seq::empty(), s, c, e)) by {
        reveal(at_cell_s);
    }
    let v1 = lemma_cell_props(s, Seq::empty(), s, c, e, d);
    let v2 = lemma_cell_told(s, v1, s, with_cell_props_s(c, d), e + x, d.change);
    assert(e + x =~= x);
    assert(x + y + tables::prop_change_s(d.prop_change) =~= x + y);
    reveal(told_so_far_s);
    telling::lemma_tags_len(v2, v2.len());
    if (x + y).len() == 0 {
        v2
    } else {
        lemma_border_lits();
        markup::lemma_open_text("w:tcPr"@, "<w:tcPr>"@);
        let p = markup::open_s("w:tcPr"@);
        let q = Piece::Close("w:tcPr"@);
        lemma_cell_block(s);
        lemma_cell_block(f);
        hearing::lemma_takes_one(s, p);
        hearing::lemma_takes_both(s, seq![p], s, v2, f);
        hearing::lemma_takes_one(f, q);
        hearing::lemma_takes_both(s, seq![p] + v2, f, seq![q], f);
        markup::lemma_spell_one(p);
        markup::lemma_spell_both(seq![p], "<w:tcPr>"@, v2, x + y);
        markup::lemma_spell_one(q);
        markup::lemma_spell_both(seq![p] + v2, "<w:tcPr>"@ + (x + y), seq![q], "</w:tcPr>"@);
        seq![p] + v2 + seq![q]
    }
}

/// A bare `w:vMerge` goes on with a merge, one that says so starts one, and a cell without one
/// stands alone.
pub proof fn law_vertical_merges_are_told_apart(s: DocReaderV, t: XmlTagV)
    requires
        s.tbl.cell is Some,
        t.name == "w:vMerge"@,
    ensures
        ({
            let e = hearing::hear_s(s, Piece::Bare(t));
            &&& e == with_cell_s(s, TableCellV { vmerge: e.tbl.cell->0.vmerge, ..s.tbl.cell->0 })
            &&& e.tbl.cell->0.vmerge == VMerge::Restart <==> events::attr_s(t, "w:val"@) == Some(
                "restart"@,
            )
            &&& e.tbl.cell->0.vmerge == VMerge::Continue <==> events::attr_s(t, "w:val"@) != Some(
                "restart"@,
            )
        }),
        import_table::new_cell_s().vmerge == VMerge::Single,
{
    names::lemma_codes();
    lemma_cell_leaf(s, t);
}

} // verus!
