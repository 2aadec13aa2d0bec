//! Table serialization.

use std::collections::HashMap;

use vstd::prelude::*;

use crate::grid;
use crate::grid::grid_to_table;
use crate::grid::table_cell_paras;
use crate::grid::TableGrid;
use crate::grid::TableGridV;
use crate::para;
use crate::para::para_xml;
use crate::para::ExportSpans;
use crate::para::ExportSpansV;
use crate::paragraph;
use crate::paragraph::revision_attrs;
use crate::paragraph::Pen;
use crate::spans;
use crate::spans::bookmark_spans;
use crate::spans::comment_spans;
use crate::spans::field_spans;
use crate::spans::IdAlloc;
use crate::spans::IdAllocV;
use crate::strs;
use crate::strs::only_if;
use crate::types;
use crate::types::Border;
use crate::types::BorderV;
use crate::types::CellMargins;
use crate::types::EdgeBorders;
use crate::types::EdgeBordersV;
use crate::types::ImagePlacement;
use crate::types::NestedBlock;
use crate::types::NestedBlockV;
use crate::types::Paragraph;
use crate::types::ParagraphV;
use crate::types::Table;
use crate::types::TableCell;
use crate::types::TableCellV;
use crate::types::TablePropChange;
use crate::types::TablePropChangeV;
use crate::types::TablePropSnapshot;
use crate::types::TablePropSnapshotV;
use crate::types::TableRow;
use crate::types::TableRowV;
use crate::types::TableV;
use crate::types::Track;
use crate::types::TrackKind;
use crate::types::TrackV;
use crate::types::VMerge;
use crate::xml;
use crate::xml::esc_piece;
use crate::xml::num;
use crate::xml::opt_dec;
use crate::xml::opt_esc;
use crate::xml::opt_raw;
use crate::xml::wide32;
use crate::xml::wrap;

verus! {

// ── borders and margins ─────────────────────────────────────────────────────

pub open spec fn edge_s(open: Seq<char>, b: Option<BorderV>) -> Seq<char> {
    match b {
        Some(b) => open + xml::num_s(
            " w:val=\"single\" w:sz=\""@,
            b.size_eighths as nat,
            "\" w:space=\"0\""@,
        ) + xml::esc_piece_s(" w:color=\""@, b.color, "\"/>"@),
        None => Seq::empty(),
    }
}

fn edge(open: &str, b: &Option<Border>) -> (r: String)
    ensures
        r@ == edge_s(open@, types::border_ov(*b)),
{
    match b {
        Some(b) => {
            let mut s = open.to_owned();
            s.append(
                num(" w:val=\"single\" w:sz=\"", b.size_eighths as u128, "\" w:space=\"0\"").as_str(),
            );
            s.append(esc_piece(" w:color=\"", b.color.as_str(), "\"/>").as_str());
            s
        },
        None => String::new(),
    }
}

/// The outer edges, in schema order.
pub open spec fn outer_edges_s(e: EdgeBordersV) -> Seq<char> {
    edge_s("<w:top"@, e.top) + edge_s("<w:left"@, e.left) + edge_s("<w:bottom"@, e.bottom) + edge_s(
        "<w:right"@,
        e.right,
    )
}

/// `<w:tblBorders>`: the outer and the inside edges; nothing when there is none.
pub open spec fn table_borders_s(e: EdgeBordersV) -> Seq<char> {
    xml::wrap_s(
        "<w:tblBorders>"@,
        outer_edges_s(e) + edge_s("<w:insideH"@, e.inside_h) + edge_s("<w:insideV"@, e.inside_v),
        "</w:tblBorders>"@,
    )
}

/// `<w:tcBorders>`: the outer edges; nothing when there is none.
pub open spec fn cell_borders_s(e: EdgeBordersV) -> Seq<char> {
    xml::wrap_s("<w:tcBorders>"@, outer_edges_s(e), "</w:tcBorders>"@)
}

fn outer_edges(e: &EdgeBorders) -> (r: String)
    ensures
        r@ == outer_edges_s(e@),
{
    let mut s = edge("<w:top", &e.top);
    s.append(edge("<w:left", &e.left).as_str());
    s.append(edge("<w:bottom", &e.bottom).as_str());
    s.append(edge("<w:right", &e.right).as_str());
    s
}

fn table_borders(e: &EdgeBorders) -> (r: String)
    ensures
        r@ == table_borders_s(e@),
{
    let mut s = outer_edges(e);
    s.append(edge("<w:insideH", &e.inside_h).as_str());
    s.append(edge("<w:insideV", &e.inside_v).as_str());
    wrap("<w:tblBorders>", s.as_str(), "</w:tblBorders>")
}

fn cell_borders(e: &EdgeBorders) -> (r: String)
    ensures
        r@ == cell_borders_s(e@),
{
    wrap("<w:tcBorders>", outer_edges(e).as_str(), "</w:tcBorders>")
}

/// Cell margins: only the sides that are set.
pub open spec fn margins_s(open: Seq<char>, m: Option<CellMargins>, close: Seq<char>) -> Seq<char> {
    match m {
        Some(m) => open + xml::opt_dec_s("<w:top w:w=\""@, xml::int32_s(m.top), "\" w:type=\"dxa\"/>"@)
            + xml::opt_dec_s("<w:left w:w=\""@, xml::int32_s(m.left), "\" w:type=\"dxa\"/>"@)
            + xml::opt_dec_s("<w:bottom w:w=\""@, xml::int32_s(m.bottom), "\" w:type=\"dxa\"/>"@)
            + xml::opt_dec_s("<w:right w:w=\""@, xml::int32_s(m.right), "\" w:type=\"dxa\"/>"@) + close,
        None => Seq::empty(),
    }
}

fn margins(open: &str, m: Option<CellMargins>, close: &str) -> (r: String)
    ensures
        r@ == margins_s(open@, m, close@),
{
    match m {
        Some(m) => {
            let mut s = open.to_owned();
            s.append(opt_dec("<w:top w:w=\"", wide32(m.top), "\" w:type=\"dxa\"/>").as_str());
            s.append(opt_dec("<w:left w:w=\"", wide32(m.left), "\" w:type=\"dxa\"/>").as_str());
            s.append(opt_dec("<w:bottom w:w=\"", wide32(m.bottom), "\" w:type=\"dxa\"/>").as_str());
            s.append(opt_dec("<w:right w:w=\"", wide32(m.right), "\" w:type=\"dxa\"/>").as_str());
            s.append(close);
            s
        },
        None => String::new(),
    }
}

pub open spec fn table_margins_s(m: Option<CellMargins>) -> Seq<char> {
    margins_s("<w:tblCellMar>"@, m, "</w:tblCellMar>"@)
}

pub open spec fn cell_margins_s(m: Option<CellMargins>) -> Seq<char> {
    margins_s("<w:tcMar>"@, m, "</w:tcMar>"@)
}

// ── tracked changes ─────────────────────────────────────────────────────────

/// The revision element of a row or a cell: `del` for a deletion, else `ins`.
pub open spec fn change_s(del: Seq<char>, ins: Seq<char>, c: Option<TrackV>) -> Seq<char> {
    match c {
        Some(c) => (if c.kind == TrackKind::Del {
            del
        } else {
            ins
        }) + paragraph::revision_s(c.id as nat, c.author, c.date) + "/>"@,
        None => Seq::empty(),
    }
}

fn change_xml(del: &str, ins: &str, c: &Option<Track>) -> (r: String)
    ensures
        r@ == change_s(del@, ins@, types::track_ov(*c)),
{
    match c {
        Some(c) => {
            let mut s = if c.kind == TrackKind::Del {
                del.to_owned()
            } else {
                ins.to_owned()
            };
            s.append(revision_attrs(c.id as u128, c.author.as_str(), c.date.as_str()).as_str());
            s.append("/>");
            s
        },
        None => String::new(),
    }
}

pub open spec fn row_change_s(c: Option<TrackV>) -> Seq<char> {
    change_s("<w:del"@, "<w:ins"@, c)
}

pub open spec fn cell_change_s(c: Option<TrackV>) -> Seq<char> {
    change_s("<w:cellDel"@, "<w:cellIns"@, c)
}

/// The height of a row.
pub open spec fn height_s(height: Option<u32>, exact: bool) -> Seq<char> {
    match height {
        Some(h) => xml::num_s("<w:trHeight w:val=\""@, h as nat, "\" w:hRule=\""@) + (if exact {
            "exact"@
        } else {
            "atLeast"@
        }) + "\"/>"@,
        None => Seq::empty(),
    }
}

fn height_xml(height: Option<u32>, exact: bool) -> (r: String)
    ensures
        r@ == height_s(height, exact),
{
    match height {
        Some(h) => {
            let mut s = num("<w:trHeight w:val=\"", h as u128, "\" w:hRule=\"");
            s.append(
                if exact {
                    "exact"
                } else {
                    "atLeast"
                },
            );
            s.append("\"/>");
            s
        },
        None => String::new(),
    }
}

pub open spec fn vmerge_s(v: VMerge) -> Seq<char> {
    match v {
        VMerge::Restart => "<w:vMerge w:val=\"restart\"/>"@,
        VMerge::Continue => "<w:vMerge/>"@,
        VMerge::Single => Seq::empty(),
    }
}

fn vmerge_xml(v: VMerge) -> (r: String)
    ensures
        r@ == vmerge_s(v),
{
    match v {
        VMerge::Restart => "<w:vMerge w:val=\"restart\"/>".to_owned(),
        VMerge::Continue => "<w:vMerge/>".to_owned(),
        VMerge::Single => String::new(),
    }
}

pub open spec fn grid_span_s(n: usize) -> Seq<char> {
    if n > 1 {
        xml::num_s("<w:gridSpan w:val=\""@, n as nat, "\"/>"@)
    } else {
        Seq::empty()
    }
}

fn grid_span_xml(n: usize) -> (r: String)
    ensures
        r@ == grid_span_s(n),
{
    if n > 1 {
        num("<w:gridSpan w:val=\"", n as u128, "\"/>")
    } else {
        String::new()
    }
}

/// The properties that a cell and a cell snapshot share.
pub open spec fn cell_props_s(
    width: Option<u32>,
    grid_span: usize,
    vmerge: VMerge,
    borders: EdgeBordersV,
    shading: Option<Seq<char>>,
    margins: Option<CellMargins>,
) -> Seq<char> {
    xml::opt_dec_s("<w:tcW w:w=\""@, xml::int32_s(width), "\" w:type=\"dxa\"/>"@) + grid_span_s(
        grid_span,
    ) + vmerge_s(vmerge) + cell_borders_s(borders) + xml::opt_esc_s(
        "<w:shd w:val=\"clear\" w:color=\"auto\" w:fill=\""@,
        shading,
        "\"/>"@,
    ) + cell_margins_s(margins)
}

fn cell_props(
    width: Option<u32>,
    grid_span: usize,
    vmerge: VMerge,
    borders: &EdgeBorders,
    shading: &Option<String>,
    mar: Option<CellMargins>,
) -> (r: String)
    ensures
        r@ == cell_props_s(width, grid_span, vmerge, borders@, strs::opt_s(*shading), mar),
{
    let mut s = opt_dec("<w:tcW w:w=\"", wide32(width), "\" w:type=\"dxa\"/>");
    s.append(grid_span_xml(grid_span).as_str());
    s.append(vmerge_xml(vmerge).as_str());
    s.append(cell_borders(borders).as_str());
    s.append(
        opt_esc("<w:shd w:val=\"clear\" w:color=\"auto\" w:fill=\"", shading, "\"/>").as_str(),
    );
    s.append(margins("<w:tcMar>", mar, "</w:tcMar>").as_str());
    s
}

/// The element of a property change.
pub open spec fn change_element_s(old: TablePropSnapshotV) -> Seq<char> {
    match old {
        TablePropSnapshotV::Table { .. } => "w:tblPrChange"@,
        TablePropSnapshotV::Row { .. } => "w:trPrChange"@,
        TablePropSnapshotV::Cell { .. } => "w:tcPrChange"@,
    }
}

/// The old properties of a property change, as the element they came in.
pub open spec fn snapshot_s(old: TablePropSnapshotV) -> Seq<char> {
    match old {
        TablePropSnapshotV::Table { style, borders, cell_margins } => "<w:tblPr>"@ + xml::opt_esc_s(
            "<w:tblStyle w:val=\""@,
            style,
            "\"/>"@,
        ) + "<w:tblW w:w=\"0\" w:type=\"auto\"/>"@ + table_borders_s(borders) + table_margins_s(
            cell_margins,
        ) + "</w:tblPr>"@,
        TablePropSnapshotV::Row { height, height_exact } => "<w:trPr>"@ + height_s(
            height,
            height_exact,
        ) + "</w:trPr>"@,
        TablePropSnapshotV::Cell { width, grid_span, vmerge, borders, margins, shading } => "<w:tcPr>"@
            + cell_props_s(width, grid_span, vmerge, borders, shading, margins) + "</w:tcPr>"@,
    }
}

/// A tracked property change: `w:tblPrChange`, `w:trPrChange` or `w:tcPrChange`.
pub open spec fn prop_change_s(c: Option<TablePropChangeV>) -> Seq<char> {
    match c {
        Some(c) => "<"@ + change_element_s(c.old) + paragraph::revision_s(c.id as nat, c.author, c.date)
            + ">"@ + snapshot_s(c.old) + "</"@ + change_element_s(c.old) + ">"@,
        None => Seq::empty(),
    }
}

fn snapshot_xml(old: &TablePropSnapshot) -> (r: String)
    ensures
        r@ == snapshot_s(old@),
{
    match old {
        TablePropSnapshot::Table { style, borders, cell_margins } => {
            let mut s = "<w:tblPr>".to_owned();
            s.append(opt_esc("<w:tblStyle w:val=\"", style, "\"/>").as_str());
            s.append("<w:tblW w:w=\"0\" w:type=\"auto\"/>");
            s.append(table_borders(borders).as_str());
            s.append(margins("<w:tblCellMar>", *cell_margins, "</w:tblCellMar>").as_str());
            s.append("</w:tblPr>");
            s
        },
        TablePropSnapshot::Row { height, height_exact } => {
            let mut s = "<w:trPr>".to_owned();
            s.append(height_xml(*height, *height_exact).as_str());
            s.append("</w:trPr>");
            s
        },
        TablePropSnapshot::Cell { width, grid_span, vmerge, borders, margins, shading } => {
            let mut s = "<w:tcPr>".to_owned();
            s.append(cell_props(*width, *grid_span, *vmerge, borders, shading, *margins).as_str());
            s.append("</w:tcPr>");
            s
        },
    }
}

fn prop_change(c: &Option<TablePropChange>) -> (r: String)
    ensures
        r@ == prop_change_s(types::table_prop_change_ov(*c)),
{
    match c {
        Some(c) => {
            let el = match &c.old {
                TablePropSnapshot::Table { .. } => "w:tblPrChange",
                TablePropSnapshot::Row { .. } => "w:trPrChange",
                TablePropSnapshot::Cell { .. } => "w:tcPrChange",
            };
            let mut s = "<".to_owned();
            s.append(el);
            s.append(revision_attrs(c.id as u128, c.author.as_str(), c.date.as_str()).as_str());
            s.append(">");
            s.append(snapshot_xml(&c.old).as_str());
            s.append("</");
            s.append(el);
            s.append(">");
            s
        },
        None => String::new(),
    }
}

// ── w:tblPr, w:trPr, w:tcPr ─────────────────────────────────────────────────

/// Table-level properties, in the order of `CT_TblPr`.
pub open spec fn tblpr_s(t: TableV) -> Seq<char> {
    "<w:tblPr>"@ + xml::opt_esc_s("<w:tblStyle w:val=\""@, t.style, "\"/>"@)
        + "<w:tblW w:w=\"0\" w:type=\"auto\"/>"@ + xml::opt_esc_s("<w:jc w:val=\""@, t.justify, "\"/>"@)
        + table_borders_s(t.borders) + table_margins_s(t.cell_margins) + xml::opt_raw_s(
        "<w:tblLook"@,
        t.look,
        "/>"@,
    ) + prop_change_s(t.prop_change) + "</w:tblPr>"@
}

fn tblpr_xml(t: &Table) -> (r: String)
    ensures
        r@ == tblpr_s(t@),
{
    let mut s = "<w:tblPr>".to_owned();
    s.append(opt_esc("<w:tblStyle w:val=\"", &t.style, "\"/>").as_str());
    s.append("<w:tblW w:w=\"0\" w:type=\"auto\"/>");
    s.append(opt_esc("<w:jc w:val=\"", &t.justify, "\"/>").as_str());
    s.append(table_borders(&t.borders).as_str());
    s.append(margins("<w:tblCellMar>", t.cell_margins, "</w:tblCellMar>").as_str());
    s.append(opt_raw("<w:tblLook", &t.look, "/>").as_str());
    s.append(prop_change(&t.prop_change).as_str());
    s.append("</w:tblPr>");
    s
}

/// Row-level properties, in the order of `CT_TrPr`; nothing when there is none.
pub open spec fn trpr_s(r: TableRowV) -> Seq<char> {
    xml::wrap_s(
        "<w:trPr>"@,
        strs::when_s(r.cant_split, "<w:cantSplit/>"@) + height_s(r.height, r.height_exact)
            + xml::opt_esc_s("<w:jc w:val=\""@, r.justify, "\"/>"@) + row_change_s(r.change)
            + prop_change_s(r.prop_change),
        "</w:trPr>"@,
    )
}

fn trpr_xml(r: &TableRow) -> (o: String)
    ensures
        o@ == trpr_s(r@),
{
    let mut s = only_if(r.cant_split, "<w:cantSplit/>");
    s.append(height_xml(r.height, r.height_exact).as_str());
    s.append(opt_esc("<w:jc w:val=\"", &r.justify, "\"/>").as_str());
    s.append(change_xml("<w:del", "<w:ins", &r.change).as_str());
    s.append(prop_change(&r.prop_change).as_str());
    wrap("<w:trPr>", s.as_str(), "</w:trPr>")
}

/// Cell-level properties, in the order of `CT_TcPr`; nothing when there is none.
pub open spec fn tcpr_s(c: TableCellV) -> Seq<char> {
    xml::wrap_s(
        "<w:tcPr>"@,
        cell_props_s(c.width, c.grid_span, c.vmerge, c.borders, c.shading, c.margins)
            + cell_change_s(c.change) + prop_change_s(c.prop_change),
        "</w:tcPr>"@,
    )
}

fn tcpr_xml(c: &TableCell) -> (r: String)
    ensures
        r@ == tcpr_s(c@),
{
    let mut s = cell_props(c.width, c.grid_span, c.vmerge, &c.borders, &c.shading, c.margins);
    s.append(change_xml("<w:cellDel", "<w:cellIns", &c.change).as_str());
    s.append(prop_change(&c.prop_change).as_str());
    wrap("<w:tcPr>", s.as_str(), "</w:tcPr>")
}

// ── w:tbl ───────────────────────────────────────────────────────────────────

/// The nested tables among the first `n` that sit after `at` paragraphs of their cell.
pub open spec fn nested_s(nested: Seq<NestedBlockV>, at: int, n: nat) -> Seq<char>
    decreases n,
{
    if n == 0 {
        Seq::empty()
    } else {
        nested_s(nested, at, (n - 1) as nat) + (if nested[n - 1].after_para == at {
            nested[n - 1].xml
        } else {
            Seq::empty()
        })
    }
}

fn nested_xml(nested: &Vec<NestedBlock>, at: usize) -> (r: String)
    ensures
        r@ == nested_s(types::nested_block_vs(nested@), at as int, nested@.len()),
{
    let mut s = String::new();
    let mut i: usize = 0;
    while i < nested.len()
        invariant
            i <= nested@.len(),
            s@ == nested_s(types::nested_block_vs(nested@), at as int, i as nat),
        decreases nested@.len() - i,
    {
        let piece = if nested[i].after_para == at {
            nested[i].xml.clone()
        } else {
            String::new()
        };
        s.append(piece.as_str());
        i = i + 1;
    }
    s
}

/// The first `n` paragraphs of a cell, from position `pos` of `paras`, with the nested
/// tables between them. Position `k` of `paras` is position `base + k` of the annotation
/// tables.
pub open spec fn cell_paras_s(
    pen: Pen,
    c: TableCellV,
    paras: Seq<ParagraphV>,
    pos: int,
    base: int,
    sp: ExportSpansV,
    n: nat,
) -> Pen
    decreases n,
{
    if n == 0 {
        pen
    } else {
        let a = cell_paras_s(pen, c, paras, pos, base, sp, (n - 1) as nat).put(
            nested_s(c.nested, n - 1, c.nested.len()),
        );
        if 0 <= pos + n - 1 < paras.len() {
            para::para_s(a, paras[pos + n - 1], base + pos + n - 1, sp)
        } else {
            a
        }
    }
}

/// A cell. One that holds neither a paragraph nor a nested table gets an empty paragraph.
pub open spec fn cell_s(
    pen: Pen,
    c: TableCellV,
    paras: Seq<ParagraphV>,
    pos: int,
    base: int,
    sp: ExportSpansV,
) -> Pen {
    cell_paras_s(
        pen.put("<w:tc>"@).put(tcpr_s(c)),
        c,
        paras,
        pos,
        base,
        sp,
        c.para_count as nat,
    ).put(nested_s(c.nested, c.para_count as int, c.nested.len())).put(
        strs::when_s(
            (c.para_count == 0 || pos >= paras.len()) && c.nested.len() == 0,
            "<w:p/>"@,
        ),
    ).put("</w:tc>"@)
}

fn cell_xml(
    out: &mut String,
    ids: &mut IdAlloc,
    c: &TableCell,
    paras: &Vec<Paragraph>,
    pos: usize,
    base: usize,
    sp: &ExportSpans,
)
    requires
        old(ids)@.wf(),
        base + paras@.len() <= usize::MAX,
        pos <= paras@.len(),
    ensures
        (Pen { text: final(out)@, ids: final(ids)@ }) == cell_s(
            Pen { text: old(out)@, ids: old(ids)@ },
            c@,
            types::paragraph_vs(paras@),
            pos as int,
            base as int,
            sp@,
        ),
        final(ids)@.wf(),
{
    let ghost pv = types::paragraph_vs(paras@);
    out.append("<w:tc>");
    out.append(tcpr_xml(c).as_str());
    let ghost start = Pen { text: out@, ids: ids@ };
    let mut i: usize = 0;
    while i < c.para_count
        invariant
            i <= c.para_count,
            ids@.wf(),
            pos <= paras@.len(),
            base + paras@.len() <= usize::MAX,
            pv == types::paragraph_vs(paras@),
            (Pen { text: out@, ids: ids@ }) == cell_paras_s(
                start,
                c@,
                pv,
                pos as int,
                base as int,
                sp@,
                i as nat,
            ),
        decreases c.para_count - i,
    {
        out.append(nested_xml(&c.nested, i).as_str());
        let ghost a = Pen { text: out@, ids: ids@ };
        assert(a == cell_paras_s(start, c@, pv, pos as int, base as int, sp@, i as nat).put(
            nested_s(c@.nested, i as int, c@.nested.len()),
        ));
        if i < paras.len() - pos {
            assert(pv[pos + i] == paras@[pos + i]@);
            para_xml(out, ids, &paras[pos + i], base + (pos + i), sp);
        }
        i = i + 1;
    }
    out.append(nested_xml(&c.nested, c.para_count).as_str());
    out.append(
        only_if(
            (c.para_count == 0 || pos >= paras.len()) && c.nested.len() == 0,
            "<w:p/>",
        ).as_str(),
    );
    out.append("</w:tc>");
}

/// A pen, and the next paragraph.
pub struct Walk {
    pub pen: Pen,
    pub pos: int,
}

/// `pos` after `n` more paragraphs, held at the end.
pub open spec fn advance_s(pos: int, n: int, len: int) -> int {
    if pos + n > len {
        len
    } else {
        pos + n
    }
}

/// The first `n` cells of a row.
pub open spec fn cells_s(
    w: Walk,
    cells: Seq<TableCellV>,
    paras: Seq<ParagraphV>,
    base: int,
    sp: ExportSpansV,
    n: nat,
) -> Walk
    decreases n,
{
    if n == 0 {
        w
    } else {
        let a = cells_s(w, cells, paras, base, sp, (n - 1) as nat);
        Walk {
            pen: cell_s(a.pen, cells[n - 1], paras, a.pos, base, sp),
            pos: advance_s(a.pos, cells[n - 1].para_count as int, paras.len() as int),
        }
    }
}

pub open spec fn row_s(w: Walk, r: TableRowV, paras: Seq<ParagraphV>, base: int, sp: ExportSpansV) -> Walk {
    let a = cells_s(
        Walk { pen: w.pen.put("<w:tr>"@).put(trpr_s(r)), pos: w.pos },
        r.cells,
        paras,
        base,
        sp,
        r.cells.len(),
    );
    Walk { pen: a.pen.put("</w:tr>"@), pos: a.pos }
}

pub open spec fn table_rows_s(
    w: Walk,
    rows: Seq<TableRowV>,
    paras: Seq<ParagraphV>,
    base: int,
    sp: ExportSpansV,
    n: nat,
) -> Walk
    decreases n,
{
    if n == 0 {
        w
    } else {
        row_s(table_rows_s(w, rows, paras, base, sp, (n - 1) as nat), rows[n - 1], paras, base, sp)
    }
}

/// The column widths of a table (`w:gridCol`).
pub open spec fn grid_cols_s(widths: Seq<u32>, n: nat) -> Seq<char>
    decreases n,
{
    if n == 0 {
        Seq::empty()
    } else {
        grid_cols_s(widths, (n - 1) as nat) + xml::num_s(
            "<w:gridCol w:w=\""@,
            widths[n - 1] as nat,
            "\"/>"@,
        )
    }
}

fn grid_cols(widths: &Vec<u32>) -> (r: String)
    ensures
        r@ == grid_cols_s(widths@, widths@.len()),
{
    let mut s = String::new();
    let mut i: usize = 0;
    while i < widths.len()
        invariant
            i <= widths@.len(),
            s@ == grid_cols_s(widths@, i as nat),
        decreases widths@.len() - i,
    {
        s.append(num("<w:gridCol w:w=\"", widths[i] as u128, "\"/>").as_str());
        i = i + 1;
    }
    s
}

/// A table. Its cells take their paragraphs from `paras` in order, from `w.pos` on.
pub open spec fn tbl_s(w: Walk, t: TableV, paras: Seq<ParagraphV>, base: int, sp: ExportSpansV) -> Walk {
    let a = table_rows_s(
        Walk {
            pen: w.pen.put("<w:tbl>"@).put(tblpr_s(t)).put("<w:tblGrid>"@).put(
                grid_cols_s(t.col_widths, t.col_widths.len()),
            ).put("</w:tblGrid>"@),
            pos: w.pos,
        },
        t.rows,
        paras,
        base,
        sp,
        t.rows.len(),
    );
    Walk { pen: a.pen.put("</w:tbl>"@), pos: a.pos }
}

fn row_xml(
    out: &mut String,
    ids: &mut IdAlloc,
    r: &TableRow,
    paras: &Vec<Paragraph>,
    pos: usize,
    base: usize,
    sp: &ExportSpans,
) -> (next: usize)
    requires
        old(ids)@.wf(),
        base + paras@.len() <= usize::MAX,
        pos <= paras@.len(),
    ensures
        (Walk { pen: Pen { text: final(out)@, ids: final(ids)@ }, pos: next as int }) == row_s(
            Walk { pen: Pen { text: old(out)@, ids: old(ids)@ }, pos: pos as int },
            r@,
            types::paragraph_vs(paras@),
            base as int,
            sp@,
        ),
        final(ids)@.wf(),
        next <= paras@.len(),
{
    let ghost pv = types::paragraph_vs(paras@);
    out.append("<w:tr>");
    out.append(trpr_xml(r).as_str());
    let ghost start = Walk { pen: Pen { text: out@, ids: ids@ }, pos: pos as int };
    let mut at: usize = pos;
    let mut i: usize = 0;
    while i < r.cells.len()
        invariant
            i <= r.cells@.len(),
            ids@.wf(),
            at <= paras@.len(),
            base + paras@.len() <= usize::MAX,
            pv == types::paragraph_vs(paras@),
            (Walk { pen: Pen { text: out@, ids: ids@ }, pos: at as int }) == cells_s(
                start,
                r@.cells,
                pv,
                base as int,
                sp@,
                i as nat,
            ),
        decreases r.cells@.len() - i,
    {
        let c = &r.cells[i];
        assert(r@.cells[i as int] == c@);
        cell_xml(out, ids, c, paras, at, base, sp);
        if c.para_count > paras.len() - at {
            at = paras.len();
        } else {
            at = at + c.para_count;
        }
        i = i + 1;
    }
    out.append("</w:tr>");
    at
}

/// Serialize a table onto `out`, its cell paragraphs taken from `paras` at `*cursor` on;
/// `cursor` moves past them. Position `k` of `paras` is position `base + k` of the
/// annotation tables.
pub fn tbl_xml(
    out: &mut String,
    ids: &mut IdAlloc,
    t: &Table,
    paras: &Vec<Paragraph>,
    cursor: &mut usize,
    base: usize,
    sp: &ExportSpans,
)
    requires
        old(ids)@.wf(),
        base + paras@.len() <= usize::MAX,
        *old(cursor) <= paras@.len(),
    ensures
        (Walk { pen: Pen { text: final(out)@, ids: final(ids)@ }, pos: *final(cursor) as int }) == tbl_s(
            Walk { pen: Pen { text: old(out)@, ids: old(ids)@ }, pos: *old(cursor) as int },
            t@,
            types::paragraph_vs(paras@),
            base as int,
            sp@,
        ),
        final(ids)@.wf(),
        *final(cursor) <= paras@.len(),
{
    let ghost pv = types::paragraph_vs(paras@);
    out.append("<w:tbl>");
    out.append(tblpr_xml(t).as_str());
    out.append("<w:tblGrid>");
    out.append(grid_cols(&t.col_widths).as_str());
    out.append("</w:tblGrid>");
    let ghost start = Walk { pen: Pen { text: out@, ids: ids@ }, pos: *cursor as int };
    let mut at: usize = *cursor;
    let mut i: usize = 0;
    while i < t.rows.len()
        invariant
            i <= t.rows@.len(),
            ids@.wf(),
            at <= paras@.len(),
            base + paras@.len() <= usize::MAX,
            pv == types::paragraph_vs(paras@),
            (Walk { pen: Pen { text: out@, ids: ids@ }, pos: at as int }) == table_rows_s(
                start,
                t@.rows,
                pv,
                base as int,
                sp@,
                i as nat,
            ),
        decreases t.rows@.len() - i,
    {
        assert(t@.rows[i as int] == t.rows@[i as int]@);
        at = row_xml(out, ids, &t.rows[i], paras, at, base, sp);
        i = i + 1;
    }
    out.append("</w:tbl>");
    *cursor = at;
}

// ── grids ───────────────────────────────────────────────────────────────────

/// A grid is written as the table that it stands for, with its own cell paragraphs, the
/// first of which is position `base` of the annotation tables.
pub open spec fn grid_s(pen: Pen, g: TableGridV, base: int, sp: ExportSpansV) -> Pen {
    tbl_s(
        Walk { pen, pos: 0 },
        grid::table_of_s(g),
        grid::cell_paras_s(g.rows, g.rows.len()),
        base,
        sp,
    ).pen
}

/// Serialize a grid onto `out` against the annotation tables of a whole document. A range
/// that spans cells, rows or the table boundary opens and closes where the tables say, once.
pub(crate) fn export_table_grid_anchored(
    out: &mut String,
    ids: &mut IdAlloc,
    g: &TableGrid,
    base: usize,
    sp: &ExportSpans,
)
    requires
        old(ids)@.wf(),
        base + grid::cell_paras_s(g@.rows, g@.rows.len()).len() <= usize::MAX,
    ensures
        (Pen { text: final(out)@, ids: final(ids)@ }) == grid_s(
            Pen { text: old(out)@, ids: old(ids)@ },
            g@,
            base as int,
            sp@,
        ),
        final(ids)@.wf(),
{
    let t = grid_to_table(g);
    let paras = table_cell_paras(g);
    let mut cursor: usize = 0;
    tbl_xml(out, ids, &t, &paras, &mut cursor, base, sp);
}

/// The annotation tables of a paragraph list, with no document-level maps.
pub open spec fn own_spans_s(ps: Seq<ParagraphV>) -> ExportSpansV {
    ExportSpansV {
        copens: spans::comment_opens_s(ps),
        ccloses: spans::comment_closes_s(ps),
        fopens: spans::field_opens_s(ps),
        fcloses: spans::field_closes_s(ps),
        bopens: spans::bookmark_opens_s(ps),
        bcloses: spans::bookmark_closes_s(ps),
        fields: Map::empty(),
        bookmarks: Map::empty(),
        links: Map::empty(),
        images: Map::empty(),
        raw: Map::empty(),
    }
}

pub open spec fn export_table_grid_s(g: TableGridV) -> Seq<char> {
    grid_s(
        Pen { text: Seq::empty(), ids: IdAllocV::initial() },
        g,
        0,
        own_spans_s(grid::cell_paras_s(g.rows, g.rows.len())),
    ).text
}

/// Serialize a grid as a table of its own: the ranges are those of its cell paragraphs, and
/// no field, bookmark, hyperlink or picture is known by name.
pub fn export_table_grid(g: &TableGrid) -> (r: String)
    ensures
        r@ == export_table_grid_s(g@),
{
    let paras = table_cell_paras(g);
    let (copens, ccloses) = comment_spans(&paras);
    let (fopens, fcloses) = field_spans(&paras);
    let (bopens, bcloses) = bookmark_spans(&paras);
    let images: HashMap<u64, ImagePlacement> = HashMap::new();
    let sp = ExportSpans {
        copens,
        ccloses,
        fopens,
        fcloses,
        bopens,
        bcloses,
        fields: HashMap::new(),
        bookmarks: HashMap::new(),
        links: HashMap::new(),
        images: &images,
        raw: HashMap::new(),
    };
    let n: usize = paras.len();
    let mut out = String::new();
    let mut ids = IdAlloc::new();
    export_table_grid_anchored(&mut out, &mut ids, g, 0, &sp);
    out
}

} // verus!
