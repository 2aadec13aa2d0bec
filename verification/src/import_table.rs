//! Reading a table: what the markup between `<w:tbl>` and `</w:tbl>` builds up.

use vstd::prelude::*;
use crate::drawings;
use crate::events;
use crate::events::{
    attr, attr_u32, attr_u64, attr_uint, bytes, is_tag, or_else, or_empty, revision_track,
    unescape, utf8, XmlTag, XmlTagV,
};
use crate::grid;
use crate::grid::{populate_grid_from_table, TableGrid, TableGridV};
use crate::strs;
use crate::strs::{opt_is, str_eq};
use crate::style_parse;
use crate::style_parse::{is_side, parse_border, with_edge, with_margin};
use crate::types;
use crate::types::{
    apply_cell_snapshot, apply_row_snapshot, apply_table_snapshot, cell_prop_snapshot,
    row_prop_snapshot, table_prop_snapshot, CellMargins, EdgeBorders, EdgeBordersV, NestedBlock,
    NestedBlockV, Paragraph, ParagraphV, Table, TableCell, TableCellV, TablePropChange,
    TablePropChangeV, TablePropSnapshot, TablePropSnapshotV, TableRow, TableRowV, TableV, Track,
    TrackKind, TrackV, VMerge,
};
use crate::xml;
use crate::xml::xml_escape;

verus! {

broadcast use vstd::string::group_string_axioms;

pub open spec fn snapshot_ov(o: Option<TablePropSnapshot>) -> Option<TablePropSnapshotV> {
    match o {
        Some(x) => Some(x@),
        None => None,
    }
}

/// The table being read, its open row and cell, and where in it the reader stands.
pub struct TableReader {
    /// How many tables are open.
    pub depth: usize,
    /// Where an open table inside a cell starts.
    pub nested: Option<usize>,
    /// The cell paragraphs read so far.
    pub paras: Vec<Paragraph>,
    pub table: Option<Table>,
    pub row: Option<TableRow>,
    pub cell: Option<TableCell>,
    pub in_grid: bool,
    pub in_tbl_borders: bool,
    pub in_tc_borders: bool,
    pub in_tbl_cellmar: bool,
    pub in_tc_mar: bool,
    pub in_trpr: bool,
    pub row_change: Option<Track>,
    pub cell_change: Option<Track>,
    pub table_prop_change: Option<TablePropChange>,
    pub row_prop_change: Option<TablePropChange>,
    pub cell_prop_change: Option<TablePropChange>,
    pub table_saved: Option<TablePropSnapshot>,
    pub row_saved: Option<TablePropSnapshot>,
    pub cell_saved: Option<TablePropSnapshot>,
    pub author: String,
    pub date: String,
    pub id: u64,
}

/// The mathematical value of a [`TableReader`].
#[verifier::ext_equal]
pub struct TableReaderV {
    pub depth: int,
    pub nested: Option<usize>,
    pub paras: Seq<ParagraphV>,
    pub table: Option<TableV>,
    pub row: Option<TableRowV>,
    pub cell: Option<TableCellV>,
    pub in_grid: bool,
    pub in_tbl_borders: bool,
    pub in_tc_borders: bool,
    pub in_tbl_cellmar: bool,
    pub in_tc_mar: bool,
    pub in_trpr: bool,
    pub row_change: Option<TrackV>,
    pub cell_change: Option<TrackV>,
    pub table_prop_change: Option<TablePropChangeV>,
    pub row_prop_change: Option<TablePropChangeV>,
    pub cell_prop_change: Option<TablePropChangeV>,
    pub table_saved: Option<TablePropSnapshotV>,
    pub row_saved: Option<TablePropSnapshotV>,
    pub cell_saved: Option<TablePropSnapshotV>,
    pub author: Seq<char>,
    pub date: Seq<char>,
    pub id: u64,
}

impl View for TableReader {
    type V = TableReaderV;

    open spec fn view(&self) -> TableReaderV {
        TableReaderV {
            depth: self.depth as int,
            nested: self.nested,
            paras: types::paragraph_vs(self.paras@),
            table: types::table_ov(self.table),
            row: types::table_row_ov(self.row),
            cell: types::table_cell_ov(self.cell),
            in_grid: self.in_grid,
            in_tbl_borders: self.in_tbl_borders,
            in_tc_borders: self.in_tc_borders,
            in_tbl_cellmar: self.in_tbl_cellmar,
            in_tc_mar: self.in_tc_mar,
            in_trpr: self.in_trpr,
            row_change: types::track_ov(self.row_change),
            cell_change: types::track_ov(self.cell_change),
            table_prop_change: types::table_prop_change_ov(self.table_prop_change),
            row_prop_change: types::table_prop_change_ov(self.row_prop_change),
            cell_prop_change: types::table_prop_change_ov(self.cell_prop_change),
            table_saved: snapshot_ov(self.table_saved),
            row_saved: snapshot_ov(self.row_saved),
            cell_saved: snapshot_ov(self.cell_saved),
            author: self.author@,
            date: self.date@,
            id: self.id,
        }
    }
}

impl TableReaderV {
    pub open spec fn initial() -> TableReaderV {
        TableReaderV {
            depth: 0,
            nested: None,
            paras: Seq::empty(),
            table: None,
            row: None,
            cell: None,
            in_grid: false,
            in_tbl_borders: false,
            in_tc_borders: false,
            in_tbl_cellmar: false,
            in_tc_mar: false,
            in_trpr: false,
            row_change: None,
            cell_change: None,
            table_prop_change: None,
            row_prop_change: None,
            cell_prop_change: None,
            table_saved: None,
            row_saved: None,
            cell_saved: None,
            author: Seq::empty(),
            date: Seq::empty(),
            id: 0,
        }
    }
}

// ---------------------------------------------------------------- what each tag means

/// A cell before anything of it is read.
pub open spec fn new_cell_s() -> TableCellV {
    TableCellV { grid_span: 1, ..TableCellV::initial() }
}

/// The reader with who and when of a tracked property change.
pub open spec fn stamped_s(s: TableReaderV, t: XmlTagV) -> TableReaderV {
    TableReaderV {
        author: events::or_empty_s(events::attr_s(t, "w:author"@)),
        date: events::or_empty_s(events::attr_s(t, "w:date"@)),
        id: events::or_s(events::attr_u64_s(t, "w:id"@), 0),
        ..s
    }
}

/// What `<w:tbl>` at byte `at` does: the outermost opens a table, one inside a cell is noted.
pub open spec fn tbl_opened_s(s: TableReaderV, at: int) -> TableReaderV {
    if s.depth == 0 {
        TableReaderV {
            depth: 1,
            table: Some(TableV::initial()),
            paras: Seq::empty(),
            ..s
        }
    } else if s.depth == 1 {
        TableReaderV { depth: 2, nested: Some(at as usize), ..s }
    } else {
        TableReaderV { depth: s.depth + 1, ..s }
    }
}

/// What the opening of a tracked property change does: the new properties are kept aside, and
/// the reader goes on with none, so that what follows fills in the old ones.
pub open spec fn change_opened_s(s: TableReaderV, t: XmlTagV) -> TableReaderV {
    let n = t.name;
    if n == "w:tblPrChange"@ && s.depth == 1 && s.table is Some && s.row is None {
        let x = s.table->0;
        stamped_s(
            TableReaderV {
                table_saved: Some(x.snapshot()),
                table: Some(
                    TableV {
                        style: None,
                        borders: EdgeBordersV::initial(),
                        cell_margins: None,
                        ..x
                    },
                ),
                ..s
            },
            t,
        )
    } else if n == "w:trPrChange"@ && s.depth == 1 && s.row is Some && s.cell is None {
        let x = s.row->0;
        stamped_s(
            TableReaderV {
                row_saved: Some(x.snapshot()),
                row: Some(TableRowV { height: None, height_exact: false, ..x }),
                ..s
            },
            t,
        )
    } else if n == "w:tcPrChange"@ && s.depth == 1 && s.cell is Some {
        let x = s.cell->0;
        stamped_s(
            TableReaderV {
                cell_saved: Some(x.snapshot()),
                cell: Some(
                    TableCellV {
                        width: None,
                        grid_span: 1,
                        vmerge: VMerge::Single,
                        borders: EdgeBordersV::initial(),
                        margins: None,
                        shading: None,
                        ..x
                    },
                ),
                ..s
            },
            t,
        )
    } else {
        s
    }
}

pub open spec fn is_change_s(n: Seq<char>) -> bool {
    n == "w:tblPrChange"@ || n == "w:trPrChange"@ || n == "w:tcPrChange"@
}

/// What the other opening tags of a table do.
pub open spec fn table_open_s(s: TableReaderV, t: XmlTagV, in_para: bool) -> TableReaderV {
    let n = t.name;
    if is_change_s(n) {
        change_opened_s(s, t)
    } else if n == "w:tblGrid"@ && s.depth == 1 {
        TableReaderV { in_grid: true, ..s }
    } else if n == "w:tblBorders"@ && s.depth == 1 {
        TableReaderV { in_tbl_borders: true, ..s }
    } else if n == "w:tblCellMar"@ && s.depth == 1 {
        TableReaderV { in_tbl_cellmar: true, ..s }
    } else if n == "w:tr"@ && s.depth == 1 {
        TableReaderV { row: Some(TableRowV::initial()), row_change: None, ..s }
    } else if n == "w:tc"@ && s.depth == 1 {
        TableReaderV { cell: Some(new_cell_s()), cell_change: None, ..s }
    } else if n == "w:trPr"@ && s.row is Some && !in_para {
        TableReaderV { in_trpr: true, ..s }
    } else if n == "w:tcBorders"@ && s.cell is Some {
        TableReaderV { in_tc_borders: true, ..s }
    } else if n == "w:tcMar"@ && s.cell is Some {
        TableReaderV { in_tc_mar: true, ..s }
    } else {
        s
    }
}

/// The attributes of a tag as markup, each value read and escaped again; one that does not
/// decode is left out.
pub open spec fn raw_attr_s(o: Option<events::XmlAttrV>) -> Seq<char> {
    match o {
        None => Seq::empty(),
        Some(a) => match events::utf8_s(a.raw) {
            None => Seq::empty(),
            Some(raw) => match events::unescape_s(raw) {
                None => Seq::empty(),
                Some(v) => " "@ + a.key + "=\""@ + xml::esc_s(v) + "\""@,
            },
        },
    }
}

pub open spec fn raw_attrs_list_s(v: Seq<Option<events::XmlAttrV>>, n: nat) -> Seq<char>
    decreases n,
{
    if n == 0 {
        Seq::empty()
    } else {
        raw_attrs_list_s(v, (n - 1) as nat) + raw_attr_s(v[n - 1])
    }
}

/// The attributes of a tag as markup; nothing where none is left.
pub open spec fn raw_attrs_s(t: XmlTagV) -> Option<Seq<char>> {
    let s = raw_attrs_list_s(t.attrs, t.attrs.len());
    if s.len() == 0 {
        None
    } else {
        Some(s)
    }
}

/// The cell with what a self-closing tag says of it.
pub open spec fn cell_leaf_s(c: TableCellV, t: XmlTagV) -> TableCellV {
    let n = t.name;
    if n == "w:gridSpan"@ {
        TableCellV {
            grid_span: match events::attr_uint_s(t, "w:val"@, usize::MAX as nat) {
                Some(v) => if v >= 1 {
                    v as usize
                } else {
                    1
                },
                None => 1,
            },
            ..c
        }
    } else if n == "w:vMerge"@ {
        TableCellV {
            vmerge: if events::attr_s(t, "w:val"@) == Some("restart"@) {
                VMerge::Restart
            } else {
                VMerge::Continue
            },
            ..c
        }
    } else {
        TableCellV { width: events::attr_u32_s(t, "w:w"@), ..c }
    }
}

/// The row with what a self-closing tag says of it.
pub open spec fn row_leaf_s(r: TableRowV, t: XmlTagV) -> TableRowV {
    if t.name == "w:trHeight"@ {
        TableRowV {
            height: events::attr_u32_s(t, "w:val"@),
            height_exact: events::attr_s(t, "w:hRule"@) == Some("exact"@),
            ..r
        }
    } else {
        let v = events::attr_s(t, "w:val"@);
        TableRowV { cant_split: !(v == Some("false"@) || v == Some("0"@)), ..r }
    }
}

/// The table with what a self-closing tag says of it.
pub open spec fn table_leaf_s(x: TableV, t: XmlTagV) -> TableV {
    if t.name == "w:gridCol"@ {
        match events::attr_u32_s(t, "w:w"@) {
            Some(w) => TableV { col_widths: x.col_widths.push(w), ..x },
            None => x,
        }
    } else if t.name == "w:tblStyle"@ {
        TableV { style: events::attr_s(t, "w:val"@), ..x }
    } else {
        TableV { look: raw_attrs_s(t), ..x }
    }
}

pub open spec fn is_cell_leaf_s(n: Seq<char>) -> bool {
    n == "w:gridSpan"@ || n == "w:vMerge"@ || n == "w:tcW"@
}

pub open spec fn is_row_leaf_s(n: Seq<char>) -> bool {
    n == "w:trHeight"@ || n == "w:cantSplit"@
}

/// What a self-closing tag that speaks of a table, row or cell alone does.
pub open spec fn table_empty_s(s: TableReaderV, t: XmlTagV) -> TableReaderV {
    let n = t.name;
    if is_cell_leaf_s(n) {
        match s.cell {
            Some(c) => TableReaderV { cell: Some(cell_leaf_s(c, t)), ..s },
            None => s,
        }
    } else if is_row_leaf_s(n) {
        match s.row {
            Some(r) => TableReaderV { row: Some(row_leaf_s(r, t)), ..s },
            None => s,
        }
    } else if (n == "w:gridCol"@ && s.in_grid) || ((n == "w:tblStyle"@ || n == "w:tblLook"@)
        && s.depth == 1) {
        match s.table {
            Some(x) => TableReaderV { table: Some(table_leaf_s(x, t)), ..s },
            None => s,
        }
    } else if n == "w:cellIns"@ && s.cell is Some {
        TableReaderV {
            cell_change: Some(events::revision_track_s(t, TrackKind::Ins)),
            ..s
        }
    } else if n == "w:cellDel"@ && s.cell is Some {
        TableReaderV {
            cell_change: Some(events::revision_track_s(t, TrackKind::Del)),
            ..s
        }
    } else {
        s
    }
}

/// What an alignment outside a paragraph does: it is the open row's, or the table's.
pub open spec fn table_jc_s(s: TableReaderV, t: XmlTagV) -> TableReaderV {
    let v = events::attr_s(t, "w:val"@);
    if s.in_trpr {
        match s.row {
            Some(r) => TableReaderV { row: Some(TableRowV { justify: v, ..r }), ..s },
            None => s,
        }
    } else {
        match s.table {
            Some(x) => TableReaderV { table: Some(TableV { justify: v, ..x }), ..s },
            None => s,
        }
    }
}

/// What a border or margin edge does, by the container it stands in.
pub open spec fn table_edge_s(s: TableReaderV, t: XmlTagV) -> TableReaderV {
    let n = t.name;
    if s.in_tbl_borders || s.in_tc_borders {
        let b = style_parse::border_s(t);
        if s.in_tc_borders {
            match s.cell {
                Some(c) => TableReaderV {
                    cell: Some(
                        TableCellV { borders: style_parse::with_edge_s(c.borders, n, b), ..c },
                    ),
                    ..s
                },
                None => s,
            }
        } else {
            match s.table {
                Some(x) => TableReaderV {
                    table: Some(
                        TableV { borders: style_parse::with_edge_s(x.borders, n, b), ..x },
                    ),
                    ..s
                },
                None => s,
            }
        }
    } else if style_parse::is_side_s(n) && (s.in_tbl_cellmar || s.in_tc_mar) {
        let w = Some(events::or_s(events::attr_u32_s(t, "w:w"@), 0));
        if s.in_tc_mar {
            match s.cell {
                Some(c) => TableReaderV {
                    cell: Some(
                        TableCellV {
                            margins: Some(
                                style_parse::with_margin_s(
                                    events::or_s(c.margins, CellMargins::initial()),
                                    n,
                                    w,
                                ),
                            ),
                            ..c
                        },
                    ),
                    ..s
                },
                None => s,
            }
        } else {
            match s.table {
                Some(x) => TableReaderV {
                    table: Some(
                        TableV {
                            cell_margins: Some(
                                style_parse::with_margin_s(
                                    events::or_s(x.cell_margins, CellMargins::initial()),
                                    n,
                                    w,
                                ),
                            ),
                            ..x
                        },
                    ),
                    ..s
                },
                None => s,
            }
        }
    } else {
        s
    }
}

/// The tracked change whose old properties were just read.
pub open spec fn prop_change_s(s: TableReaderV, old: TablePropSnapshotV) -> TablePropChangeV {
    TablePropChangeV { author: s.author, date: s.date, id: s.id, old }
}

/// What the end of a tracked property change does: the old properties go into the change, and
/// the new ones come back.
pub open spec fn change_closed_s(s: TableReaderV, n: Seq<char>) -> TableReaderV {
    let unstamped = TableReaderV { author: Seq::empty(), date: Seq::empty(), ..s };
    if n == "w:tblPrChange"@ && s.table_saved is Some && s.table is Some {
        TableReaderV {
            table_prop_change: Some(prop_change_s(s, s.table->0.snapshot())),
            table: Some(s.table->0.restored(s.table_saved->0)),
            table_saved: None,
            ..unstamped
        }
    } else if n == "w:trPrChange"@ && s.row_saved is Some && s.row is Some {
        TableReaderV {
            row_prop_change: Some(prop_change_s(s, s.row->0.snapshot())),
            row: Some(s.row->0.restored(s.row_saved->0)),
            row_saved: None,
            ..unstamped
        }
    } else if n == "w:tcPrChange"@ && s.cell_saved is Some && s.cell is Some {
        TableReaderV {
            cell_prop_change: Some(prop_change_s(s, s.cell->0.snapshot())),
            cell: Some(s.cell->0.restored(s.cell_saved->0)),
            cell_saved: None,
            ..unstamped
        }
    } else {
        s
    }
}

/// What the end of a cell does: it joins the open row.
pub open spec fn tc_closed_s(s: TableReaderV) -> TableReaderV {
    match (s.row, s.cell) {
        (Some(r), Some(c)) => TableReaderV {
            row: Some(
                TableRowV {
                    cells: r.cells.push(
                        TableCellV {
                            change: s.cell_change,
                            prop_change: s.cell_prop_change,
                            ..c
                        },
                    ),
                    ..r
                },
            ),
            cell: None,
            cell_change: None,
            cell_prop_change: None,
            ..s
        },
        _ => TableReaderV { cell: None, ..s },
    }
}

/// What the end of a row does: it joins the table.
pub open spec fn tr_closed_s(s: TableReaderV) -> TableReaderV {
    match (s.table, s.row) {
        (Some(x), Some(r)) => TableReaderV {
            table: Some(
                TableV {
                    rows: x.rows.push(
                        TableRowV { change: s.row_change, prop_change: s.row_prop_change, ..r },
                    ),
                    ..x
                },
            ),
            row: None,
            row_change: None,
            row_prop_change: None,
            ..s
        },
        _ => TableReaderV { row: None, ..s },
    }
}

/// What the other closing tags of a table do.
pub open spec fn table_close_s(s: TableReaderV, n: Seq<char>) -> TableReaderV {
    if is_change_s(n) {
        change_closed_s(s, n)
    } else if n == "w:tblGrid"@ {
        TableReaderV { in_grid: false, ..s }
    } else if n == "w:tblBorders"@ {
        TableReaderV { in_tbl_borders: false, ..s }
    } else if n == "w:tcBorders"@ {
        TableReaderV { in_tc_borders: false, ..s }
    } else if n == "w:tblCellMar"@ {
        TableReaderV { in_tbl_cellmar: false, ..s }
    } else if n == "w:tcMar"@ {
        TableReaderV { in_tc_mar: false, ..s }
    } else if n == "w:trPr"@ {
        TableReaderV { in_trpr: false, ..s }
    } else if n == "w:tc"@ && s.depth == 1 {
        tc_closed_s(s)
    } else if n == "w:tr"@ && s.depth == 1 {
        tr_closed_s(s)
    } else {
        s
    }
}

/// What the end of a table inside a cell does: its markup, up to byte `to`, is kept on the cell
/// after the paragraphs read so far.
pub open spec fn nested_closed_s(s: TableReaderV, xml: Seq<u8>, to: int) -> TableReaderV {
    let rest = TableReaderV { nested: None, ..s };
    match (s.nested, s.cell) {
        (Some(from), Some(c)) => match events::utf8_s(events::bytes_s(xml, from as int, to)) {
            Some(text) => TableReaderV {
                cell: Some(
                    TableCellV {
                        nested: c.nested.push(
                            NestedBlockV { after_para: c.para_count, xml: text },
                        ),
                        ..c
                    },
                ),
                ..rest
            },
            None => rest,
        },
        _ => rest,
    }
}

/// What `</w:tbl>` does to the reader.
pub open spec fn tbl_closed_s(s: TableReaderV, xml: Seq<u8>, to: int) -> TableReaderV {
    let d = drawings::shallower_s(s.depth);
    let up = TableReaderV { depth: d, ..s };
    if d == 1 {
        nested_closed_s(up, xml, to)
    } else if d == 0 && s.table is Some {
        TableReaderV { table: None, table_prop_change: None, paras: Seq::empty(), ..up }
    } else {
        up
    }
}

/// The table that `</w:tbl>` completes, if it closes an outermost one.
pub open spec fn completed_s(s: TableReaderV) -> Option<TableGridV> {
    if drawings::shallower_s(s.depth) == 0 && s.table is Some {
        Some(
            grid::grid_of_s(
                TableV { prop_change: s.table_prop_change, ..s.table->0 },
                s.paras,
            ),
        )
    } else {
        None
    }
}

/// The reader with one more paragraph in the open cell.
pub open spec fn cell_para_s(s: TableReaderV, p: ParagraphV) -> TableReaderV {
    match s.cell {
        Some(c) => TableReaderV {
            paras: s.paras.push(p),
            cell: Some(TableCellV { para_count: (c.para_count + 1) as usize, ..c }),
            ..s
        },
        None => s,
    }
}

// ---------------------------------------------------------------- the reader

/// The attributes of a tag as export-ready markup.
pub(crate) fn raw_attrs(t: &XmlTag) -> (r: Option<String>)
    ensures
        strs::opt_s(r) == raw_attrs_s(t@),
{
    let mut s = String::new();
    assert(s@ =~= Seq::empty());
    let ghost v = t@.attrs;
    let mut i: usize = 0;
    while i < t.attrs.len()
        invariant
            i <= t.attrs@.len(),
            v == t@.attrs,
            s@ == raw_attrs_list_s(v, i as nat),
        decreases t.attrs@.len() - i,
    {
        assert(v[i as int] == events::xml_attr_ov(t.attrs@[i as int]));
        let ghost was = s@;
        let ghost mut piece = Seq::<char>::empty();
        if let Some(a) = &t.attrs[i] {
            if let Some(raw) = utf8(a.raw.as_slice()) {
                if let Some(x) = unescape(raw.as_str()) {
                    let mut one = " ".to_string();
                    one.append(a.key.as_str());
                    one.append("=\"");
                    one.append(xml_escape(x.as_str()).as_str());
                    one.append("\"");
                    s.append(one.as_str());
                    proof {
                        piece = one@;
                    }
                }
            }
        }
        assert(piece =~= raw_attr_s(v[i as int]));
        assert(s@ =~= was + piece);
        i = i + 1;
    }
    if s.as_str().unicode_len() == 0 {
        None
    } else {
        Some(s)
    }
}

impl TableReader {
    /// The counters stay below the number of steps taken.
    pub open spec fn bounded(self, i: nat) -> bool {
        &&& self.depth <= i
        &&& self.cell matches Some(c) ==> c.para_count <= i
    }

    pub(crate) fn new() -> (r: Self)
        ensures
            r@ == TableReaderV::initial(),
            r.bounded(0),
    {
        let r = TableReader {
            depth: 0,
            nested: None,
            paras: Vec::new(),
            table: None,
            row: None,
            cell: None,
            in_grid: false,
            in_tbl_borders: false,
            in_tc_borders: false,
            in_tbl_cellmar: false,
            in_tc_mar: false,
            in_trpr: false,
            row_change: None,
            cell_change: None,
            table_prop_change: None,
            row_prop_change: None,
            cell_prop_change: None,
            table_saved: None,
            row_saved: None,
            cell_saved: None,
            author: String::new(),
            date: String::new(),
            id: 0,
        };
        assert(r@ =~= TableReaderV::initial());
        r
    }

    pub(crate) fn open_tbl(&mut self, at: usize, Ghost(i): Ghost<nat>)
        requires
            old(self).bounded(i),
            i < usize::MAX,
        ensures
            final(self)@ == tbl_opened_s(old(self)@, at as int),
            final(self).bounded(i + 1),
    {
        self.depth = self.depth + 1;
        if self.depth == 1 {
            self.table = Some(Table::default());
            self.paras = Vec::new();
            assert(types::paragraph_vs(self.paras@) =~= Seq::empty());
        } else if self.depth == 2 {
            self.nested = Some(at);
        }
    }

    fn stamp(&mut self, t: &XmlTag)
        ensures
            final(self)@ == stamped_s(old(self)@, t@),
            final(self).cell == old(self).cell,
            final(self).depth == old(self).depth,
    {
        self.author = or_empty(attr(t, "w:author"));
        self.date = or_empty(attr(t, "w:date"));
        self.id = or_else(attr_u64(t, "w:id"), 0);
    }

    fn open_change(&mut self, t: &XmlTag, Ghost(i): Ghost<nat>)
        requires
            old(self).bounded(i),
        ensures
            final(self)@ == change_opened_s(old(self)@, t@),
            final(self).bounded(i),
    {
        if self.depth != 1 {
            return;
        }
        if is_tag(t, "w:tblPrChange") && self.table.is_some() && self.row.is_none() {
            if let Some(mut x) = self.table.take() {
                self.table_saved = Some(table_prop_snapshot(&x));
                x.style = None;
                x.borders = EdgeBorders::default();
                x.cell_margins = None;
                self.table = Some(x);
            }
            self.stamp(t);
        } else if is_tag(t, "w:trPrChange") && self.row.is_some() && self.cell.is_none() {
            if let Some(mut x) = self.row.take() {
                self.row_saved = Some(row_prop_snapshot(&x));
                x.height = None;
                x.height_exact = false;
                self.row = Some(x);
            }
            self.stamp(t);
        } else if is_tag(t, "w:tcPrChange") && self.cell.is_some() {
            if let Some(mut x) = self.cell.take() {
                self.cell_saved = Some(cell_prop_snapshot(&x));
                x.width = None;
                x.grid_span = 1;
                x.vmerge = VMerge::Single;
                x.borders = EdgeBorders::default();
                x.margins = None;
                x.shading = None;
                self.cell = Some(x);
            }
            self.stamp(t);
        }
    }

    pub(crate) fn open(&mut self, t: &XmlTag, in_para: bool, Ghost(i): Ghost<nat>)
        requires
            old(self).bounded(i),
        ensures
            final(self)@ == table_open_s(old(self)@, t@, in_para),
            final(self).bounded(i),
    {
        if is_tag(t, "w:tblPrChange") || is_tag(t, "w:trPrChange") || is_tag(t, "w:tcPrChange") {
            self.open_change(t, Ghost(i));
        } else if is_tag(t, "w:tblGrid") && self.depth == 1 {
            self.in_grid = true;
        } else if is_tag(t, "w:tblBorders") && self.depth == 1 {
            self.in_tbl_borders = true;
        } else if is_tag(t, "w:tblCellMar") && self.depth == 1 {
            self.in_tbl_cellmar = true;
        } else if is_tag(t, "w:tr") && self.depth == 1 {
            self.row = Some(TableRow::default());
            self.row_change = None;
        } else if is_tag(t, "w:tc") && self.depth == 1 {
            let mut c = TableCell::default();
            c.grid_span = 1;
            self.cell = Some(c);
            self.cell_change = None;
        } else if is_tag(t, "w:trPr") && self.row.is_some() && !in_para {
            self.in_trpr = true;
        } else if is_tag(t, "w:tcBorders") && self.cell.is_some() {
            self.in_tc_borders = true;
        } else if is_tag(t, "w:tcMar") && self.cell.is_some() {
            self.in_tc_mar = true;
        }
    }

    pub(crate) fn empty(&mut self, t: &XmlTag, Ghost(i): Ghost<nat>)
        requires
            old(self).bounded(i),
        ensures
            final(self)@ == table_empty_s(old(self)@, t@),
            final(self).bounded(i),
    {
        if is_tag(t, "w:gridSpan") || is_tag(t, "w:vMerge") || is_tag(t, "w:tcW") {
            if let Some(mut c) = self.cell.take() {
                cell_leaf(&mut c, t);
                self.cell = Some(c);
            }
        } else if is_tag(t, "w:trHeight") || is_tag(t, "w:cantSplit") {
            if let Some(mut r) = self.row.take() {
                row_leaf(&mut r, t);
                self.row = Some(r);
            }
        } else if (is_tag(t, "w:gridCol") && self.in_grid) || ((is_tag(t, "w:tblStyle") || is_tag(
            t,
            "w:tblLook",
        )) && self.depth == 1) {
            if let Some(mut x) = self.table.take() {
                table_leaf(&mut x, t);
                self.table = Some(x);
            }
        } else if is_tag(t, "w:cellIns") && self.cell.is_some() {
            self.cell_change = Some(revision_track(t, TrackKind::Ins));
        } else if is_tag(t, "w:cellDel") && self.cell.is_some() {
            self.cell_change = Some(revision_track(t, TrackKind::Del));
        }
    }

    pub(crate) fn align(&mut self, t: &XmlTag)
        ensures
            final(self)@ == table_jc_s(old(self)@, t@),
            final(self).cell == old(self).cell,
            final(self).depth == old(self).depth,
    {
        let v = attr(t, "w:val");
        if self.in_trpr {
            if let Some(mut r) = self.row.take() {
                r.justify = v;
                self.row = Some(r);
            }
        } else {
            if let Some(mut x) = self.table.take() {
                x.justify = v;
                self.table = Some(x);
            }
        }
    }

    pub(crate) fn edge(&mut self, t: &XmlTag, Ghost(i): Ghost<nat>)
        requires
            old(self).bounded(i),
        ensures
            final(self)@ == table_edge_s(old(self)@, t@),
            final(self).bounded(i),
    {
        if self.in_tbl_borders || self.in_tc_borders {
            let b = parse_border(t);
            if self.in_tc_borders {
                if let Some(mut c) = self.cell.take() {
                    with_edge(&mut c.borders, t, b);
                    self.cell = Some(c);
                }
            } else {
                if let Some(mut x) = self.table.take() {
                    with_edge(&mut x.borders, t, b);
                    self.table = Some(x);
                }
            }
        } else if is_side(t) && (self.in_tbl_cellmar || self.in_tc_mar) {
            let w = Some(or_else(attr_u32(t, "w:w"), 0));
            if self.in_tc_mar {
                if let Some(mut c) = self.cell.take() {
                    let mut m = or_else(c.margins, CellMargins::default());
                    with_margin(&mut m, t, w);
                    c.margins = Some(m);
                    self.cell = Some(c);
                }
            } else {
                if let Some(mut x) = self.table.take() {
                    let mut m = or_else(x.cell_margins, CellMargins::default());
                    with_margin(&mut m, t, w);
                    x.cell_margins = Some(m);
                    self.table = Some(x);
                }
            }
        }
    }

    /// The background of the open cell.
    pub(crate) fn shade(&mut self, fill: Option<String>, Ghost(i): Ghost<nat>)
        requires
            old(self).bounded(i),
        ensures
            final(self)@ == (match old(self)@.cell {
                Some(c) => TableReaderV {
                    cell: Some(TableCellV { shading: strs::opt_s(fill), ..c }),
                    ..old(self)@
                },
                None => old(self)@,
            }),
            final(self).bounded(i),
    {
        if let Some(mut c) = self.cell.take() {
            c.shading = fill;
            self.cell = Some(c);
        }
    }

    fn take_stamp(&mut self, old_props: TablePropSnapshot) -> (r: TablePropChange)
        ensures
            r@ == prop_change_s(old(self)@, old_props@),
            final(self)@ == (TableReaderV {
                author: Seq::empty(),
                date: Seq::empty(),
                ..old(self)@
            }),
            final(self).cell == old(self).cell,
            final(self).depth == old(self).depth,
    {
        let author = self.author.clone();
        let date = self.date.clone();
        self.author = String::new();
        self.date = String::new();
        assert(self.author@ =~= Seq::empty());
        assert(self.date@ =~= Seq::empty());
        TablePropChange { author, date, id: self.id, old: old_props }
    }

    fn close_change(&mut self, n: &str, Ghost(i): Ghost<nat>)
        requires
            old(self).bounded(i),
        ensures
            final(self)@ == change_closed_s(old(self)@, n@),
            final(self).bounded(i),
    {
        if str_eq(n, "w:tblPrChange") && self.table_saved.is_some() && self.table.is_some() {
            if let Some(mut x) = self.table.take() {
                let c = self.take_stamp(table_prop_snapshot(&x));
                self.table_prop_change = Some(c);
                if let Some(saved) = self.table_saved.take() {
                    apply_table_snapshot(&mut x, &saved);
                }
                self.table = Some(x);
            }
        } else if str_eq(n, "w:trPrChange") && self.row_saved.is_some() && self.row.is_some() {
            if let Some(mut x) = self.row.take() {
                let c = self.take_stamp(row_prop_snapshot(&x));
                self.row_prop_change = Some(c);
                if let Some(saved) = self.row_saved.take() {
                    apply_row_snapshot(&mut x, &saved);
                }
                self.row = Some(x);
            }
        } else if str_eq(n, "w:tcPrChange") && self.cell_saved.is_some() && self.cell.is_some() {
            if let Some(mut x) = self.cell.take() {
                let ghost count = x.para_count;
                let c = self.take_stamp(cell_prop_snapshot(&x));
                self.cell_prop_change = Some(c);
                if let Some(saved) = self.cell_saved.take() {
                    apply_cell_snapshot(&mut x, &saved);
                }
                assert(x@.para_count == count);
                self.cell = Some(x);
            }
        }
    }

    fn close_tc(&mut self)
        ensures
            final(self)@ == tc_closed_s(old(self)@),
            final(self).cell is None,
            final(self).depth == old(self).depth,
    {
        if let Some(mut c) = self.cell.take() {
            if let Some(mut r) = self.row.take() {
                let ghost was = r.cells@;
                c.change = self.cell_change.take();
                c.prop_change = self.cell_prop_change.take();
                let ghost cv = c@;
                r.cells.push(c);
                assert(types::table_cell_vs(r.cells@) =~= types::table_cell_vs(was).push(cv));
                self.row = Some(r);
            }
        }
    }

    fn close_tr(&mut self)
        ensures
            final(self)@ == tr_closed_s(old(self)@),
            final(self).cell == old(self).cell,
            final(self).depth == old(self).depth,
    {
        if let Some(mut r) = self.row.take() {
            if let Some(mut x) = self.table.take() {
                let ghost was = x.rows@;
                r.change = self.row_change.take();
                r.prop_change = self.row_prop_change.take();
                let ghost rv = r@;
                x.rows.push(r);
                assert(types::table_row_vs(x.rows@) =~= types::table_row_vs(was).push(rv));
                self.table = Some(x);
            }
        }
    }

    pub(crate) fn close(&mut self, n: &str, Ghost(i): Ghost<nat>)
        requires
            old(self).bounded(i),
        ensures
            final(self)@ == table_close_s(old(self)@, n@),
            final(self).bounded(i),
    {
        if str_eq(n, "w:tblPrChange") || str_eq(n, "w:trPrChange") || str_eq(n, "w:tcPrChange") {
            self.close_change(n, Ghost(i));
        } else if str_eq(n, "w:tblGrid") {
            self.in_grid = false;
        } else if str_eq(n, "w:tblBorders") {
            self.in_tbl_borders = false;
        } else if str_eq(n, "w:tcBorders") {
            self.in_tc_borders = false;
        } else if str_eq(n, "w:tblCellMar") {
            self.in_tbl_cellmar = false;
        } else if str_eq(n, "w:tcMar") {
            self.in_tc_mar = false;
        } else if str_eq(n, "w:trPr") {
            self.in_trpr = false;
        } else if str_eq(n, "w:tc") && self.depth == 1 {
            self.close_tc();
        } else if str_eq(n, "w:tr") && self.depth == 1 {
            self.close_tr();
        }
    }

    fn close_nested(&mut self, xml: &[u8], to: usize, Ghost(i): Ghost<nat>)
        requires
            old(self).bounded(i),
        ensures
            final(self)@ == nested_closed_s(old(self)@, xml@, to as int),
            final(self).bounded(i),
    {
        if let Some(from) = self.nested.take() {
            if let Some(mut c) = self.cell.take() {
                if let Some(text) = utf8(bytes(xml, from, to).as_slice()) {
                    let ghost was = c.nested@;
                    let b = NestedBlock { after_para: c.para_count, xml: text };
                    let ghost bv = b@;
                    c.nested.push(b);
                    assert(types::nested_block_vs(c.nested@) =~= types::nested_block_vs(was).push(
                        bv,
                    ));
                }
                self.cell = Some(c);
            }
        }
    }

    pub(crate) fn close_tbl(&mut self, xml: &[u8], to: usize, Ghost(i): Ghost<nat>) -> (r: Option<
        TableGrid,
    >)
        requires
            old(self).bounded(i),
        ensures
            final(self)@ == tbl_closed_s(old(self)@, xml@, to as int),
            grid::table_grid_ov(r) == completed_s(old(self)@),
            final(self).bounded(i),
    {
        if self.depth > 0 {
            self.depth = self.depth - 1;
        }
        if self.depth == 1 {
            self.close_nested(xml, to, Ghost(i));
            None
        } else if self.depth == 0 {
            match self.table.take() {
                Some(mut x) => {
                    x.prop_change = self.table_prop_change.take();
                    let mut g = TableGrid::default();
                    populate_grid_from_table(&mut g, &x, &self.paras);
                    self.paras = Vec::new();
                    assert(types::paragraph_vs(self.paras@) =~= Seq::empty());
                    Some(g)
                },
                None => None,
            }
        } else {
            None
        }
    }

    /// Put a paragraph into the open cell; whether there is one.
    pub(crate) fn push_para(&mut self, p: Paragraph, Ghost(i): Ghost<nat>) -> (r: bool)
        requires
            old(self).bounded(i),
            i < usize::MAX,
        ensures
            final(self)@ == cell_para_s(old(self)@, p@),
            r == (old(self)@.cell is Some),
            final(self).bounded(i + 1),
    {
        match self.cell.take() {
            Some(mut c) => {
                let ghost was = self.paras@;
                let ghost pv = p@;
                self.paras.push(p);
                assert(types::paragraph_vs(self.paras@) =~= types::paragraph_vs(was).push(pv));
                c.para_count = c.para_count + 1;
                self.cell = Some(c);
                true
            },
            None => false,
        }
    }
}

fn cell_leaf(c: &mut TableCell, t: &XmlTag)
    ensures
        final(c)@ == cell_leaf_s(old(c)@, t@),
        is_cell_leaf_s(t@.name) ==> final(c).para_count == old(c).para_count,
{
    if is_tag(t, "w:gridSpan") {
        c.grid_span = match attr_uint(t, "w:val", usize::MAX as u64) {
            Some(v) => if v >= 1 {
                v as usize
            } else {
                1
            },
            None => 1,
        };
    } else if is_tag(t, "w:vMerge") {
        c.vmerge = if opt_is(&attr(t, "w:val"), "restart") {
            VMerge::Restart
        } else {
            VMerge::Continue
        };
    } else {
        c.width = attr_u32(t, "w:w");
    }
}

fn row_leaf(r: &mut TableRow, t: &XmlTag)
    ensures
        final(r)@ == row_leaf_s(old(r)@, t@),
{
    if is_tag(t, "w:trHeight") {
        r.height = attr_u32(t, "w:val");
        r.height_exact = opt_is(&attr(t, "w:hRule"), "exact");
    } else {
        let v = attr(t, "w:val");
        r.cant_split = !(opt_is(&v, "false") || opt_is(&v, "0"));
    }
}

fn table_leaf(x: &mut Table, t: &XmlTag)
    ensures
        final(x)@ == table_leaf_s(old(x)@, t@),
{
    if is_tag(t, "w:gridCol") {
        if let Some(w) = attr_u32(t, "w:w") {
            x.col_widths.push(w);
        }
    } else if is_tag(t, "w:tblStyle") {
        x.style = attr(t, "w:val");
    } else {
        x.look = raw_attrs(t);
    }
}

} // verus!
