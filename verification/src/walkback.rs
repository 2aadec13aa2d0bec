//! Walking the nodes of a document writes what walking its body items writes.

use vstd::prelude::*;
use crate::containers;
use crate::doc;
use crate::doc::{CellBlock, DocV, HostedTableV};
use crate::export;
use crate::grid;
use crate::grid::{GridCellV, GridRowV, TableGridV};
use crate::gridback;
use crate::host;
use crate::para;
use crate::para::ExportSpansV;
use crate::paragraph::Pen;
use crate::read;
use crate::read::BodyNode;
use crate::sections::{HfRefV, PageGeometry};
use crate::store;
use crate::store::BlockId;
use crate::tables;
use crate::tables::Walk;
use crate::types::{BodyItemV, ParagraphV, TableCellV, TableRowV, TableV};

verus! {

// ---------------------------------------------------------------- a table among other paragraphs

/// The cells of a table take the same paragraphs from a stretch of its own as from the whole.
proof fn lemma_shift_paras(
    pen: Pen,
    c: TableCellV,
    ps: Seq<ParagraphV>,
    b: int,
    n: int,
    pos: int,
    sp: ExportSpansV,
    m: nat,
)
    requires
        0 <= b,
        0 <= n,
        b + n <= ps.len(),
        0 <= pos,
        m <= c.para_count,
        pos + c.para_count <= n,
    ensures
        tables::cell_paras_s(pen, c, ps.subrange(b, b + n), pos, b, sp, m) == tables::cell_paras_s(
            pen,
            c,
            ps,
            b + pos,
            0,
            sp,
            m,
        ),
    decreases m,
{
    if m > 0 {
        lemma_shift_paras(pen, c, ps, b, n, pos, sp, (m - 1) as nat);
        assert(ps.subrange(b, b + n)[pos + m - 1] == ps[b + pos + m - 1]);
    }
}

spec fn moved_s(w: Walk, b: int) -> Walk {
    Walk { pen: w.pen, pos: b + w.pos }
}

proof fn lemma_shift_cells(
    w: Walk,
    cells: Seq<TableCellV>,
    ps: Seq<ParagraphV>,
    b: int,
    n: int,
    sp: ExportSpansV,
    k: nat,
)
    requires
        0 <= b,
        0 <= n,
        b + n <= ps.len(),
        0 <= w.pos,
        k <= cells.len(),
        w.pos + gridback::count_s(cells, cells.len()) <= n,
    ensures
        tables::cells_s(moved_s(w, b), cells, ps, 0, sp, k) == moved_s(
            tables::cells_s(w, cells, ps.subrange(b, b + n), b, sp, k),
            b,
        ),
        tables::cells_s(w, cells, ps.subrange(b, b + n), b, sp, k).pos == w.pos
            + gridback::count_s(cells, k),
    decreases k,
{
    if k > 0 {
        lemma_shift_cells(w, cells, ps, b, n, sp, (k - 1) as nat);
        gridback::lemma_counts(cells, (k - 1) as nat, k);
        gridback::lemma_counts(cells, k, cells.len());
        let own = ps.subrange(b, b + n);
        let a = tables::cells_s(w, cells, own, b, sp, (k - 1) as nat);
        let c = cells[k - 1];
        let pen = a.pen.put("<w:tc>"@).put(tables::tcpr_s(c));
        lemma_shift_paras(pen, c, ps, b, n, a.pos, sp, c.para_count as nat);
        assert(tables::cell_s(a.pen, c, own, a.pos, b, sp) == tables::cell_s(
            a.pen,
            c,
            ps,
            b + a.pos,
            0,
            sp,
        ));
    }
}

proof fn lemma_shift_rows(
    w: Walk,
    rows: Seq<TableRowV>,
    ps: Seq<ParagraphV>,
    b: int,
    n: int,
    sp: ExportSpansV,
    k: nat,
)
    requires
        0 <= b,
        0 <= n,
        b + n <= ps.len(),
        0 <= w.pos,
        k <= rows.len(),
        w.pos + gridback::total_s(rows, rows.len()) <= n,
    ensures
        tables::table_rows_s(moved_s(w, b), rows, ps, 0, sp, k) == moved_s(
            tables::table_rows_s(w, rows, ps.subrange(b, b + n), b, sp, k),
            b,
        ),
        tables::table_rows_s(w, rows, ps.subrange(b, b + n), b, sp, k).pos == w.pos
            + gridback::total_s(rows, k),
    decreases k,
{
    if k > 0 {
        lemma_shift_rows(w, rows, ps, b, n, sp, (k - 1) as nat);
        gridback::lemma_totals(rows, (k - 1) as nat, k);
        gridback::lemma_totals(rows, k, rows.len());
        let r = rows[k - 1];
        let a = tables::table_rows_s(w, rows, ps.subrange(b, b + n), b, sp, (k - 1) as nat);
        let v = Walk { pen: a.pen.put("<w:tr>"@).put(tables::trpr_s(r)), pos: a.pos };
        gridback::lemma_totals(rows, 0, (k - 1) as nat);
        lemma_shift_cells(v, r.cells, ps, b, n, sp, r.cells.len());
    }
}

proof fn lemma_shift_table(
    w: Walk,
    t: TableV,
    ps: Seq<ParagraphV>,
    n: int,
    sp: ExportSpansV,
)
    requires
        0 <= w.pos,
        0 <= n,
        w.pos + n <= ps.len(),
        gridback::total_s(t.rows, t.rows.len()) == n,
    ensures
        tables::tbl_s(w, t, ps, 0, sp) == (Walk {
            pen: tables::tbl_s(
                Walk { pen: w.pen, pos: 0 },
                t,
                ps.subrange(w.pos, w.pos + n),
                w.pos,
                sp,
            ).pen,
            pos: w.pos + n,
        }),
{
    let pen = w.pen.put("<w:tbl>"@).put(tables::tblpr_s(t)).put("<w:tblGrid>"@).put(
        tables::grid_cols_s(t.col_widths, t.col_widths.len()),
    ).put("</w:tblGrid>"@);
    lemma_shift_rows(Walk { pen, pos: 0 }, t.rows, ps, w.pos, n, sp, t.rows.len());
    assert(moved_s(Walk { pen, pos: 0 }, w.pos) == (Walk { pen, pos: w.pos }));
}

// ---------------------------------------------------------------- the paragraphs of a grid

proof fn lemma_row_count(cells: Seq<GridCellV>, n: nat)
    requires
        n <= grid::visible_s(cells, 0).len(),
        grid::row_paras_s(cells, n).len() <= usize::MAX,
    ensures
        gridback::count_s(grid::row_cells_s(cells), n) == grid::row_paras_s(cells, n).len(),
    decreases n,
{
    if n > 0 {
        lemma_row_count(cells, (n - 1) as nat);
    }
}

proof fn lemma_grid_count(g: TableGridV, n: nat)
    requires
        n <= g.rows.len(),
        grid::cell_paras_s(g.rows, n).len() <= usize::MAX,
    ensures
        gridback::total_s(grid::table_of_s(g).rows, n) == grid::cell_paras_s(g.rows, n).len(),
    decreases n,
{
    if n > 0 {
        lemma_grid_count(g, (n - 1) as nat);
        let r = g.rows[n - 1];
        lemma_row_count(r.cells, grid::visible_s(r.cells, 0).len());
        assert(grid::table_of_s(g).rows[n - 1] == grid::table_row_s(r));
    }
}

// ---------------------------------------------------------------- the walks

/// The paragraphs of a table node in document order.
pub open spec fn node_paras_s(d: DocV, id: BlockId) -> Seq<ParagraphV> {
    Seq::new(read::cells_s(d, id).len(), |k: int| read::paragraph_s(d, read::cells_s(d, id)[k].id))
}

/// Whether the paragraphs of a table node stand in the order in which its grid reads.
pub open spec fn in_order_s(d: DocV, id: BlockId) -> bool {
    let g = host::open_grid_s(d, id);
    node_paras_s(d, id) == grid::cell_paras_s(g.rows, g.rows.len())
}

/// Whether no wrapper opens or closes at a node.
pub open spec fn unwrapped_s(d: DocV, id: BlockId) -> bool {
    export::wrap_ids_s(d, id, "wrapopen"@).len() == 0 && export::wrap_ids_s(
        d,
        id,
        "wrapclose"@,
    ).len() == 0
}

/// Whether the nodes of a document read like body items: no wrappers, and each table in order.
pub open spec fn plain_s(d: DocV) -> bool {
    &&& d.s.roots.len() > 0
    &&& read::paragraphs_s(d).len() <= usize::MAX
    &&& forall|i: int|
        0 <= i < d.s.roots.len() ==> unwrapped_s(d, #[trigger] d.s.roots[i]) && (
        read::is_table_s(d.s.metas[d.s.roots[i]]) ==> in_order_s(d, d.s.roots[i]))
}

/// The body items of a document's nodes.
pub open spec fn node_items_s(d: DocV) -> Seq<BodyItemV> {
    Seq::new(
        read::body_nodes_s(d).len(),
        |i: int| export::node_item_s(d, read::body_nodes_s(d)[i]),
    )
}

proof fn lemma_refs_at(d: DocV, n: nat, m: nat, k: int)
    requires
        n <= m <= d.s.roots.len(),
        0 <= k < read::refs_n_s(d, n).len(),
    ensures
        k < read::refs_n_s(d, m).len(),
        read::refs_n_s(d, m)[k] == read::refs_n_s(d, n)[k],
    decreases m,
{
    if n < m {
        lemma_refs_at(d, n, (m - 1) as nat, k);
    }
}

proof fn lemma_refs_len(d: DocV, n: nat, m: nat)
    requires
        n <= m <= d.s.roots.len(),
    ensures
        read::refs_n_s(d, n).len() <= read::refs_n_s(d, m).len(),
    decreases m,
{
    if n < m {
        lemma_refs_len(d, n, (m - 1) as nat);
    }
}

/// The paragraphs of one root stand together.
proof fn lemma_node_at(d: DocV, i: int, k: int)
    requires
        0 <= i < d.s.roots.len(),
        0 <= k < read::node_refs_s(d, d.s.roots[i]).len(),
    ensures
        read::refs_n_s(d, i as nat).len() + k < read::paragraphs_s(d).len(),
        read::paragraphs_s(d)[read::refs_n_s(d, i as nat).len() + k] == read::paragraph_s(
            d,
            read::node_refs_s(d, d.s.roots[i])[k].id_s(),
        ),
{
    let at = read::refs_n_s(d, i as nat).len() + k;
    assert(read::refs_n_s(d, (i + 1) as nat)[at] == read::node_refs_s(d, d.s.roots[i])[k]);
    lemma_refs_at(d, (i + 1) as nat, d.s.roots.len(), at);
}

proof fn lemma_table_node(w: Walk, d: DocV, i: int, wraps: Map<u64, String>, sp: ExportSpansV)
    requires
        plain_s(d),
        0 <= i < d.s.roots.len(),
        read::is_table_s(d.s.metas[d.s.roots[i]]),
        w.pos == read::refs_n_s(d, i as nat).len(),
    ensures
        export::node_s(w, d, BodyNode::Table(d.s.roots[i]), wraps, sp) == export::item_s(
            w,
            export::node_item_s(d, BodyNode::Table(d.s.roots[i])),
            read::paragraphs_s(d),
            sp,
        ),
        export::node_s(w, d, BodyNode::Table(d.s.roots[i]), wraps, sp).pos == read::refs_n_s(
            d,
            (i + 1) as nat,
        ).len(),
{
    reveal(export::node_s);
    reveal(export::item_s);
    let id = d.s.roots[i];
    let ps = read::paragraphs_s(d);
    let g = host::open_grid_s(d, id);
    let own = grid::cell_paras_s(g.rows, g.rows.len());
    assert(unwrapped_s(d, id) && in_order_s(d, id));
    assert(own == node_paras_s(d, id));
    let n = own.len() as int;
    assert(read::node_refs_s(d, id).len() == n);
    lemma_refs_len(d, (i + 1) as nat, d.s.roots.len());
    assert(read::refs_n_s(d, (i + 1) as nat).len() == w.pos + n);
    assert forall|k: int| 0 <= k < n implies ps[w.pos + k] == own[k] by {
        lemma_node_at(d, i, k);
        assert(read::node_refs_s(d, id)[k] == read::cell_ref_s(id, read::cells_s(d, id)[k]));
    }
    assert(ps.subrange(w.pos, w.pos + n) =~= own);
    lemma_grid_count(g, g.rows.len());
    let t = grid::table_of_s(g);
    lemma_shift_table(w, t, ps, n, sp);
    assert(w.pen.text + export::opens_s(Seq::empty(), wraps, 0) =~= w.pen.text);
    lemma_no_wraps(d, id, wraps);
    let pen = tables::grid_s(w.pen, g, w.pos, sp);
    assert(pen.text + Seq::<char>::empty() =~= pen.text);
}

proof fn lemma_no_wraps(d: DocV, id: BlockId, wraps: Map<u64, String>)
    requires
        unwrapped_s(d, id),
    ensures
        ({
            let o = export::wrap_ids_s(d, id, "wrapopen"@);
            let c = export::wrap_ids_s(d, id, "wrapclose"@);
            export::opens_s(o, wraps, o.len()) == Seq::<char>::empty() && export::closes_s(
                c,
                wraps,
                c.len(),
            ) == Seq::<char>::empty()
        }),
{
}

proof fn lemma_para_node(w: Walk, d: DocV, i: int, wraps: Map<u64, String>, sp: ExportSpansV)
    requires
        plain_s(d),
        0 <= i < d.s.roots.len(),
        !read::is_table_s(d.s.metas[d.s.roots[i]]),
        w.pos == read::refs_n_s(d, i as nat).len(),
    ensures
        export::node_s(w, d, BodyNode::Paragraph(d.s.roots[i]), wraps, sp) == export::item_s(
            w,
            BodyItemV::Paragraph,
            read::paragraphs_s(d),
            sp,
        ),
        export::node_s(w, d, BodyNode::Paragraph(d.s.roots[i]), wraps, sp).pos == read::refs_n_s(
            d,
            (i + 1) as nat,
        ).len(),
{
    reveal(export::node_s);
    reveal(export::item_s);
    let id = d.s.roots[i];
    assert(unwrapped_s(d, id));
    lemma_no_wraps(d, id, wraps);
    lemma_node_at(d, i, 0);
    let none = Seq::<char>::empty();
    assert(w.pen.text + none =~= w.pen.text);
    let pen = para::para_s(w.pen, read::paragraphs_s(d)[w.pos], w.pos, sp);
    assert(pen.text + none =~= pen.text);
}

proof fn lemma_walks(d: DocV, wraps: Map<u64, String>, sp: ExportSpansV, n: nat)
    requires
        plain_s(d),
        n <= d.s.roots.len(),
    ensures
        ({
            let w = Walk { pen: export::start_s(), pos: 0 };
            let a = export::nodes_s(w, d, wraps, sp, n);
            a == export::items_s(w, node_items_s(d), read::paragraphs_s(d), sp, n) && a.pos
                == read::refs_n_s(d, n).len()
        }),
    decreases n,
{
    if n > 0 {
        lemma_walks(d, wraps, sp, (n - 1) as nat);
        let w = Walk { pen: export::start_s(), pos: 0 };
        let a = export::nodes_s(w, d, wraps, sp, (n - 1) as nat);
        let id = d.s.roots[n - 1];
        let node = read::body_nodes_s(d)[n - 1];
        assert(node == read::body_node_s(d, id));
        assert(node_items_s(d)[n - 1] == export::node_item_s(d, node));
        if read::is_table_s(d.s.metas[id]) {
            lemma_table_node(a, d, n - 1, wraps, sp);
        } else {
            lemma_para_node(a, d, n - 1, wraps, sp);
        }
    }
}

/// Walking the nodes of a document writes what walking its body items writes, where no wrapper
/// stands around a node and each table's paragraphs stand in order.
pub proof fn law_node_walk_is_body_walk(
    d: DocV,
    page: PageGeometry,
    hf: Seq<HfRefV>,
    title_pg: bool,
    wraps: Map<u64, String>,
    sp: ExportSpansV,
    out: Seq<char>,
)
    requires
        plain_s(d),
        containers::texts_by_id_s(d.s.maps[store::BLOCKWRAP@], wraps),
    ensures
        export::nodes_xml_s(d, page, hf, title_pg, wraps, sp, out) == export::document_xml_s(
            d,
            page,
            hf,
            node_items_s(d),
            title_pg,
            sp,
            out,
        ),
{
    lemma_walks(d, wraps, sp, d.s.roots.len());
    assert(node_items_s(d).len() == d.s.roots.len());
}

// ---------------------------------------------------------------- hosted grids

/// Whether a column of a row is not covered by a cell before it.
spec fn shows_s(cells: Seq<GridCellV>, c: int) -> bool {
    grid::visible_s(cells, 0).contains(c)
}

/// Whether the covered cells of a grid hold no paragraphs.
pub open spec fn covers_nothing_s(g: TableGridV) -> bool {
    &&& g.rows.len() <= usize::MAX
    &&& forall|r: int|
        0 <= r < g.rows.len() ==> (#[trigger] g.rows[r]).cells.len() <= usize::MAX
            && gridback::row_covers_nothing_s(g.rows[r].cells)
}

proof fn lemma_visible_order(cells: Seq<GridCellV>, at: int)
    requires
        0 <= at,
    ensures
        forall|i: int|
            0 <= i < grid::visible_s(cells, at).len() ==> at <= #[trigger] grid::visible_s(
                cells,
                at,
            )[i] < cells.len(),
        forall|i: int, j: int|
            0 <= i < j < grid::visible_s(cells, at).len() ==> #[trigger] grid::visible_s(
                cells,
                at,
            )[i] < #[trigger] grid::visible_s(cells, at)[j],
        at < cells.len() ==> grid::visible_s(cells, at).len() > 0 && grid::visible_s(cells, at)[0]
            == at,
    decreases
            if at < cells.len() {
                cells.len() - at
            } else {
                0
            },
{
    if at < cells.len() {
        let next = at + grid::span32_s(cells[at].grid_span);
        lemma_visible_order(cells, next);
        let v = grid::visible_s(cells, at);
        let w = grid::visible_s(cells, next);
        assert(v == seq![at] + w);
        assert forall|i: int| 0 <= i < v.len() implies at <= #[trigger] v[i] < cells.len() by {
            if i > 0 {
                assert(v[i] == w[i - 1]);
            }
        }
        assert forall|i: int, j: int| 0 <= i < j < v.len() implies #[trigger] v[i]
            < #[trigger] v[j] by {
            assert(v[j] == w[j - 1]);
            if i > 0 {
                assert(v[i] == w[i - 1]);
            }
        }
    }
}

/// Where the paragraphs of a cell begin.
spec fn begin_s(rows: Seq<GridRowV>, r: int, c: int) -> int {
    (host::slots_s(rows, r as nat).len() + host::row_slots_s(
        r as usize,
        rows[r].cells,
        c as nat,
    ).len()) as int
}

proof fn lemma_gap(row: usize, cells: Seq<GridCellV>, a: nat, b: nat)
    requires
        a <= b <= cells.len(),
        forall|c: int| a <= c < b ==> (#[trigger] cells[c]).paras.len() == 0,
    ensures
        host::row_slots_s(row, cells, b) == host::row_slots_s(row, cells, a),
    decreases b,
{
    if a < b {
        lemma_gap(row, cells, a, (b - 1) as nat);
        assert(cells[b - 1].paras.len() == 0);
        assert(host::row_slots_s(row, cells, b) =~= host::row_slots_s(row, cells, (b - 1) as nat));
    }
}

/// The paragraphs of a row up to a column belong to the columns before it.
proof fn lemma_row_slot(row: usize, cells: Seq<GridCellV>, n: nat, i: int)
    requires
        n <= cells.len() <= usize::MAX,
        0 <= i < host::row_slots_s(row, cells, n).len(),
    ensures
        host::row_slots_s(row, cells, n)[i].0 == row,
        host::row_slots_s(row, cells, n)[i].1 < n,
    decreases n,
{
    if n > 0 {
        let before = host::row_slots_s(row, cells, (n - 1) as nat);
        if i < before.len() {
            lemma_row_slot(row, cells, (n - 1) as nat, i);
        }
    }
}

proof fn lemma_row_slot_after(row: usize, cells: Seq<GridCellV>, n: nat, m: nat, i: int)
    requires
        n <= m <= cells.len() <= usize::MAX,
        host::row_slots_s(row, cells, n).len() <= i < host::row_slots_s(row, cells, m).len(),
    ensures
        host::row_slots_s(row, cells, m)[i].1 >= n,
    decreases m,
{
    let before = host::row_slots_s(row, cells, (m - 1) as nat);
    if i < before.len() {
        lemma_row_slot_after(row, cells, n, (m - 1) as nat, i);
    }
}

proof fn lemma_row_slot_same(row: usize, cells: Seq<GridCellV>, n: nat, m: nat, i: int)
    requires
        n <= m <= cells.len(),
        0 <= i < host::row_slots_s(row, cells, n).len(),
    ensures
        i < host::row_slots_s(row, cells, m).len(),
        host::row_slots_s(row, cells, m)[i] == host::row_slots_s(row, cells, n)[i],
    decreases m,
{
    if n < m {
        lemma_row_slot_same(row, cells, n, (m - 1) as nat, i);
    }
}

proof fn lemma_slot(rows: Seq<GridRowV>, n: nat, i: int)
    requires
        n <= rows.len() <= usize::MAX,
        forall|r: int| 0 <= r < rows.len() ==> (#[trigger] rows[r]).cells.len() <= usize::MAX,
        0 <= i < host::slots_s(rows, n).len(),
    ensures
        host::slots_s(rows, n)[i].0 < n,
    decreases n,
{
    if n > 0 {
        let before = host::slots_s(rows, (n - 1) as nat);
        if i < before.len() {
            lemma_slot(rows, (n - 1) as nat, i);
        } else {
            let cells = rows[n - 1].cells;
            lemma_row_slot((n - 1) as usize, cells, cells.len(), i - before.len());
        }
    }
}

proof fn lemma_slot_after(rows: Seq<GridRowV>, n: nat, m: nat, i: int)
    requires
        n <= m <= rows.len() <= usize::MAX,
        forall|r: int| 0 <= r < rows.len() ==> (#[trigger] rows[r]).cells.len() <= usize::MAX,
        host::slots_s(rows, n).len() <= i < host::slots_s(rows, m).len(),
    ensures
        host::slots_s(rows, m)[i].0 >= n,
    decreases m,
{
    let before = host::slots_s(rows, (m - 1) as nat);
    if i < before.len() {
        lemma_slot_after(rows, n, (m - 1) as nat, i);
    } else {
        let cells = rows[m - 1].cells;
        lemma_row_slot((m - 1) as usize, cells, cells.len(), i - before.len());
    }
}

proof fn lemma_slot_same(rows: Seq<GridRowV>, n: nat, m: nat, i: int)
    requires
        n <= m <= rows.len(),
        0 <= i < host::slots_s(rows, n).len(),
    ensures
        i < host::slots_s(rows, m).len(),
        host::slots_s(rows, m)[i] == host::slots_s(rows, n)[i],
    decreases m,
{
    if n < m {
        lemma_slot_same(rows, n, (m - 1) as nat, i);
    }
}

/// Which cell a paragraph of the grid belongs to.
proof fn lemma_slot_cell(g: TableGridV, r: int, c: int, i: int)
    requires
        covers_nothing_s(g),
        0 <= r < g.rows.len(),
        0 <= c < g.rows[r].cells.len(),
        0 <= i < host::slots_s(g.rows, g.rows.len()).len(),
    ensures
        ({
            let s = host::slots_s(g.rows, g.rows.len())[i];
            (s.0 == r && s.1 == c) == (begin_s(g.rows, r, c) <= i < begin_s(g.rows, r, c + 1))
        }),
        begin_s(g.rows, r, c + 1) == begin_s(g.rows, r, c) + g.rows[r].cells[c].paras.len(),
        begin_s(g.rows, r, c + 1) <= host::slots_s(g.rows, g.rows.len()).len(),
{
    let rows = g.rows;
    let cells = rows[r].cells;
    let row = r as usize;
    let all = host::slots_s(rows, rows.len());
    let upto = host::slots_s(rows, r as nat);
    let whole = host::slots_s(rows, (r + 1) as nat);
    let own = host::row_slots_s(row, cells, cells.len());
    assert(whole == upto + own);
    lemma_row_len(row, cells, (c + 1) as nat, cells.len());
    lemma_slots_len(rows, (r + 1) as nat, rows.len());
    if i < upto.len() {
        lemma_slot(rows, r as nat, i);
        lemma_slot_same(rows, r as nat, rows.len(), i);
    } else if i >= whole.len() {
        lemma_slot_after(rows, (r + 1) as nat, rows.len(), i);
    } else {
        lemma_slot_same(rows, (r + 1) as nat, rows.len(), i);
        let k = i - upto.len();
        assert(all[i] == own[k]);
        lemma_row_slot(row, cells, cells.len(), k);
        let before = host::row_slots_s(row, cells, c as nat);
        let with = host::row_slots_s(row, cells, (c + 1) as nat);
        if k < before.len() {
            lemma_row_slot(row, cells, c as nat, k);
            lemma_row_slot_same(row, cells, c as nat, cells.len(), k);
        } else if k < with.len() {
            lemma_row_slot_same(row, cells, (c + 1) as nat, cells.len(), k);
            assert(with[k] == host::cell_slots_s(row, c as usize, cells[c].paras)[k
                - before.len()]);
        } else {
            lemma_row_slot_after(row, cells, (c + 1) as nat, cells.len(), k);
        }
    }
}

proof fn lemma_row_len(row: usize, cells: Seq<GridCellV>, n: nat, m: nat)
    requires
        n <= m <= cells.len(),
    ensures
        host::row_slots_s(row, cells, n).len() <= host::row_slots_s(row, cells, m).len(),
    decreases m,
{
    if n < m {
        lemma_row_len(row, cells, n, (m - 1) as nat);
    }
}

proof fn lemma_slots_len(rows: Seq<GridRowV>, n: nat, m: nat)
    requires
        n <= m <= rows.len(),
    ensures
        host::slots_s(rows, n).len() <= host::slots_s(rows, m).len(),
    decreases m,
{
    if n < m {
        lemma_slots_len(rows, n, (m - 1) as nat);
    }
}

/// Whether the blocks of a table's paragraphs belong to the cells that the grid says.
spec fn placed_s(g: TableGridV, cells: Seq<CellBlock>) -> bool {
    let slots = host::slots_s(g.rows, g.rows.len());
    &&& cells.len() == slots.len()
    &&& forall|i: int|
        0 <= i < cells.len() ==> (#[trigger] cells[i]).row == slots[i].0 && cells[i].col
            == slots[i].1
}

spec fn ids_s(cells: Seq<CellBlock>, from: int, to: int) -> Seq<BlockId> {
    Seq::new((to - from) as nat, |i: int| cells[from + i].id)
}

/// The blocks of one cell stand together.
proof fn lemma_cell_ids(g: TableGridV, cells: Seq<CellBlock>, r: int, c: int, n: nat)
    requires
        covers_nothing_s(g),
        placed_s(g, cells),
        0 <= r < g.rows.len(),
        0 <= c < g.rows[r].cells.len(),
        n <= cells.len(),
    ensures
        ({
            let a = begin_s(g.rows, r, c);
            let b = begin_s(g.rows, r, c + 1);
            host::cell_ids_s(cells, r, c, n) == (if n <= a {
                Seq::empty()
            } else if n <= b {
                ids_s(cells, a, n as int)
            } else {
                ids_s(cells, a, b)
            })
        }),
    decreases n,
{
    let a = begin_s(g.rows, r, c);
    let b = begin_s(g.rows, r, c + 1);
    if n > 0 {
        lemma_cell_ids(g, cells, r, c, (n - 1) as nat);
        lemma_slot_cell(g, r, c, n - 1);
        assert(cells[n - 1].row == host::slots_s(g.rows, g.rows.len())[n - 1].0);
        if a <= n - 1 < b {
            if n - 1 == a {
                assert(ids_s(cells, a, n as int) =~= Seq::<BlockId>::empty().push(cells[n - 1].id));
            } else {
                assert(ids_s(cells, a, n as int) =~= ids_s(cells, a, n - 1).push(cells[n - 1].id));
            }
        } else if n - 1 >= b && b <= a {
            assert(ids_s(cells, a, b) =~= Seq::empty());
        }
    }
}

/// The paragraphs of the blocks.
spec fn held_s(e: DocV, cells: Seq<CellBlock>) -> Seq<ParagraphV> {
    Seq::new(cells.len(), |k: int| read::paragraph_s(e, cells[k].id))
}

proof fn lemma_cell_held(e: DocV, g: TableGridV, cells: Seq<CellBlock>, r: int, c: int)
    requires
        covers_nothing_s(g),
        placed_s(g, cells),
        0 <= r < g.rows.len(),
        0 <= c < g.rows[r].cells.len(),
    ensures
        0 <= begin_s(g.rows, r, c) <= begin_s(g.rows, r, c + 1) <= cells.len(),
        begin_s(g.rows, r, c + 1) == begin_s(g.rows, r, c) + g.rows[r].cells[c].paras.len(),
        host::cell_paras_s(e, cells, r, c) == held_s(e, cells).subrange(
            begin_s(g.rows, r, c),
            begin_s(g.rows, r, c + 1),
        ),
{
    let a = begin_s(g.rows, r, c);
    let b = begin_s(g.rows, r, c + 1);
    lemma_row_len(r as usize, g.rows[r].cells, (c + 1) as nat, g.rows[r].cells.len());
    lemma_slots_len(g.rows, (r + 1) as nat, g.rows.len());
    assert(host::slots_s(g.rows, (r + 1) as nat).len() == host::slots_s(g.rows, r as nat).len()
        + host::row_slots_s(r as usize, g.rows[r].cells, g.rows[r].cells.len()).len());
    assert(b <= cells.len());
    lemma_cell_ids(g, cells, r, c, cells.len());
    assert(host::cell_paras_s(e, cells, r, c) =~= held_s(e, cells).subrange(a, b));
}

proof fn lemma_same_visible(v: Seq<GridCellV>, w: Seq<GridCellV>, at: int)
    requires
        v.len() == w.len(),
        forall|i: int| 0 <= i < v.len() ==> (#[trigger] v[i]).grid_span == w[i].grid_span,
        0 <= at,
    ensures
        grid::visible_s(v, at) == grid::visible_s(w, at),
    decreases
            if at < v.len() {
                v.len() - at
            } else {
                0
            },
{
    if at < v.len() {
        assert(v[at].grid_span == w[at].grid_span);
        lemma_same_visible(v, w, at + grid::span32_s(v[at].grid_span));
    }
}

/// The column after the first `j` cells that show.
spec fn after_s(cells: Seq<GridCellV>, j: int) -> int {
    let v = grid::visible_s(cells, 0);
    if j < v.len() {
        v[j]
    } else {
        cells.len() as int
    }
}

proof fn lemma_row_held(
    e: DocV,
    g: TableGridV,
    cells: Seq<CellBlock>,
    r: int,
    row: GridRowV,
    j: nat,
)
    requires
        covers_nothing_s(g),
        placed_s(g, cells),
        0 <= r < g.rows.len(),
        row == host::filled_row_s(e, cells, r, host::bare_row_s(g.rows[r])),
        j <= grid::visible_s(row.cells, 0).len(),
    ensures
        begin_s(g.rows, r, 0) <= begin_s(g.rows, r, after_s(g.rows[r].cells, j as int))
            <= cells.len(),
        grid::row_paras_s(row.cells, j) == held_s(e, cells).subrange(
            begin_s(g.rows, r, 0),
            begin_s(g.rows, r, after_s(g.rows[r].cells, j as int)),
        ),
        grid::visible_s(row.cells, 0) == grid::visible_s(g.rows[r].cells, 0),
    decreases j,
{
    let own = g.rows[r].cells;
    let all = held_s(e, cells);
    assert(row.cells.len() == own.len());
    lemma_same_visible(row.cells, own, 0);
    lemma_visible_order(own, 0);
    let v = grid::visible_s(own, 0);
    let a = begin_s(g.rows, r, 0);
    lemma_slots_len(g.rows, (r + 1) as nat, g.rows.len());
    lemma_row_len(r as usize, own, 0, own.len());
    if j == 0 {
        assert(after_s(own, 0) == 0);
        assert(all.subrange(a, a) =~= Seq::empty());
    } else {
        lemma_row_held(e, g, cells, r, row, (j - 1) as nat);
        let c = v[j - 1];
        lemma_cell_held(e, g, cells, r, c);
        assert(after_s(own, j - 1) == c);
        let next = after_s(own, j as int);
        assert(c < next <= own.len());
        assert forall|x: int| c + 1 <= x < next implies (#[trigger] own[x]).paras.len() == 0 by {
            if shows_s(own, x) {
                let i = choose|i: int| 0 <= i < v.len() && v[i] == x;
                if i < j - 1 {
                    assert(v[i] < v[j - 1]);
                } else if i > j - 1 {
                    if i > j {
                        assert(v[j as int] < v[i]);
                    }
                }
            }
            assert(!shows_s(own, x));
        }
        lemma_gap(r as usize, own, (c + 1) as nat, next as nat);
        lemma_row_len(r as usize, own, next as nat, own.len());
        assert(row.cells[c].paras == host::cell_paras_s(e, cells, r, c));
        assert(all.subrange(a, begin_s(g.rows, r, c)) + all.subrange(
            begin_s(g.rows, r, c),
            begin_s(g.rows, r, c + 1),
        ) =~= all.subrange(a, begin_s(g.rows, r, next)));
    }
}

proof fn lemma_rows_held(e: DocV, g: TableGridV, cells: Seq<CellBlock>, rows: Seq<GridRowV>, n: nat)
    requires
        covers_nothing_s(g),
        placed_s(g, cells),
        rows.len() == g.rows.len(),
        forall|r: int|
            0 <= r < rows.len() ==> #[trigger] rows[r] == host::filled_row_s(
                e,
                cells,
                r,
                host::bare_row_s(g.rows[r]),
            ),
        n <= rows.len(),
    ensures
        host::slots_s(g.rows, n).len() <= cells.len(),
        grid::cell_paras_s(rows, n) == held_s(e, cells).subrange(
            0,
            host::slots_s(g.rows, n).len() as int,
        ),
    decreases n,
{
    let all = held_s(e, cells);
    lemma_slots_len(g.rows, n, g.rows.len());
    if n == 0 {
        assert(all.subrange(0, 0) =~= Seq::empty());
    } else {
        lemma_rows_held(e, g, cells, rows, (n - 1) as nat);
        let own = g.rows[n - 1].cells;
        let row = rows[n - 1];
        assert(row == host::filled_row_s(e, cells, n - 1, host::bare_row_s(g.rows[n - 1])));
        let k = grid::visible_s(row.cells, 0).len();
        lemma_row_held(e, g, cells, n - 1, row, k);
        let a = host::slots_s(g.rows, (n - 1) as nat).len() as int;
        let b = host::slots_s(g.rows, n).len() as int;
        assert(after_s(own, k as int) == own.len());
        assert(begin_s(g.rows, n - 1, 0) == a);
        assert(begin_s(g.rows, n - 1, own.len() as int) == b);
        assert(all.subrange(0, a) + all.subrange(a, b) =~= all.subrange(0, b));
    }
}

pub(crate) proof fn lemma_host(tables: Seq<HostedTableV>, node: BlockId, i: int)
    requires
        0 <= i,
    ensures
        read::host_s(tables, node, i) matches Some(k) ==> i <= k < tables.len() && tables[k].node
            == node && forall|j: int| i <= j < k ==> (#[trigger] tables[j]).node != node,
        read::host_s(tables, node, i) is None ==> forall|j: int|
            i <= j < tables.len() ==> (#[trigger] tables[j]).node != node,
    decreases tables.len() - i,
{
    if i < tables.len() && tables[i].node != node {
        lemma_host(tables, node, i + 1);
    }
}

pub(crate) proof fn lemma_hosted(tables: Seq<HostedTableV>, t: HostedTableV)
    ensures
        ({
            let all = host::hosted_s(tables, t);
            read::host_s(all, t.node, 0) matches Some(k) && 0 <= k < all.len() && all[k] == t
        }),
{
    let all = host::hosted_s(tables, t);
    lemma_host(tables, t.node, 0);
    lemma_host(all, t.node, 0);
    match read::host_s(tables, t.node, 0) {
        Some(i) => {
            assert(all[i].node == t.node);
            if read::host_s(all, t.node, 0) is Some {
                let k = read::host_s(all, t.node, 0)->0;
                if k < i {
                    assert(tables[k].node != t.node);
                } else if k > i {
                    assert(all[i].node != t.node);
                }
            }
        },
        None => {
            let n = tables.len() as int;
            assert(all[n].node == t.node);
            if read::host_s(all, t.node, 0) is Some {
                let k = read::host_s(all, t.node, 0)->0;
                if k < n {
                    assert(tables[k].node != t.node);
                }
            }
        },
    }
}

/// A grid that was hosted on a node keeps its structure, and the paragraphs of its cells stand in
/// the order in which it reads.
pub proof fn law_hosted_grid_is_in_order(d: DocV, node: BlockId, g: TableGridV, e: DocV)
    requires
        host::grid_hosted_s(d, node, g, e),
        covers_nothing_s(g),
    ensures
        host::bare_s(host::open_grid_s(e, node)) == host::bare_s(g),
        in_order_s(e, node),
{
    let slots = host::slots_s(g.rows, g.rows.len());
    let cells = choose|cells: Seq<CellBlock>| #[trigger]
        host::slots_stored_s(d, node, slots, cells, DocV { tables: d.tables, ..e }) && e.tables
            == host::hosted_s(d.tables, HostedTableV { node, grid: host::bare_s(g), cells });
    let t = HostedTableV { node, grid: host::bare_s(g), cells };
    lemma_hosted(d.tables, t);
    let open = host::open_grid_s(e, node);
    assert(open == host::filled_s(e, t));
    assert(placed_s(g, cells));
    assert forall|r: int| 0 <= r < open.rows.len() implies #[trigger] open.rows[r]
        == host::filled_row_s(e, cells, r, host::bare_row_s(g.rows[r])) by {
        assert(t.grid.rows[r] == host::bare_row_s(g.rows[r]));
    }
    lemma_rows_held(e, g, cells, open.rows, open.rows.len());
    assert(held_s(e, cells).subrange(0, cells.len() as int) =~= held_s(e, cells));
    assert(node_paras_s(e, node) =~= held_s(e, cells));
    let bare = host::bare_s(open);
    assert forall|r: int| 0 <= r < bare.rows.len() implies bare.rows[r] == host::bare_s(g).rows[r]
        by {
        assert(open.rows[r] == host::filled_row_s(e, cells, r, host::bare_row_s(g.rows[r])));
        assert(bare.rows[r].cells =~= host::bare_s(g).rows[r].cells);
    }
    assert(bare.rows =~= host::bare_s(g).rows);
}

// ---------------------------------------------------------------- what a hosted grid holds

/// The paragraphs, without the cells that they belong to.
spec fn paras_of_s(v: Seq<host::SlotV>) -> Seq<ParagraphV> {
    Seq::new(v.len(), |i: int| v[i].2)
}

/// The paragraphs of a row, column by column, are those of its cells that show.
proof fn lemma_row_slots(row: usize, own: Seq<GridCellV>, j: nat)
    requires
        gridback::row_covers_nothing_s(own),
        j <= grid::visible_s(own, 0).len(),
    ensures
        0 <= after_s(own, j as int) <= own.len(),
        paras_of_s(host::row_slots_s(row, own, after_s(own, j as int) as nat))
            == grid::row_paras_s(own, j),
    decreases j,
{
    let v = grid::visible_s(own, 0);
    lemma_visible_order(own, 0);
    if j == 0 {
        assert(after_s(own, 0) == 0);
        assert(paras_of_s(host::row_slots_s(row, own, 0)) =~= Seq::empty());
    } else {
        lemma_row_slots(row, own, (j - 1) as nat);
        let c = v[j - 1];
        assert(after_s(own, j - 1) == c);
        let next = after_s(own, j as int);
        assert(c < next <= own.len());
        assert forall|x: int| c + 1 <= x < next implies (#[trigger] own[x]).paras.len() == 0 by {
            if shows_s(own, x) {
                let i = choose|i: int| 0 <= i < v.len() && v[i] == x;
                if i < j - 1 {
                    assert(v[i] < v[j - 1]);
                } else if i > j {
                    assert(v[j as int] < v[i]);
                }
            }
            assert(!shows_s(own, x));
        }
        lemma_gap(row, own, (c + 1) as nat, next as nat);
        assert(paras_of_s(host::row_slots_s(row, own, (c + 1) as nat)) =~= paras_of_s(
            host::row_slots_s(row, own, c as nat),
        ) + own[c].paras);
    }
}

/// The paragraphs of a grid, row by row, are those of its cells that show.
proof fn lemma_slots_are_paras(g: TableGridV, n: nat)
    requires
        covers_nothing_s(g),
        n <= g.rows.len(),
    ensures
        paras_of_s(host::slots_s(g.rows, n)) == grid::cell_paras_s(g.rows, n),
    decreases n,
{
    if n == 0 {
        assert(paras_of_s(host::slots_s(g.rows, 0)) =~= Seq::empty());
    } else {
        lemma_slots_are_paras(g, (n - 1) as nat);
        let own = g.rows[n - 1].cells;
        let k = grid::visible_s(own, 0).len();
        lemma_row_slots((n - 1) as usize, own, k);
        assert(after_s(own, k as int) == own.len());
        assert(paras_of_s(host::slots_s(g.rows, n)) =~= paras_of_s(
            host::slots_s(g.rows, (n - 1) as nat),
        ) + paras_of_s(host::row_slots_s((n - 1) as usize, own, own.len())));
    }
}

/// A hosted grid stands for the table that the grid stands for, and its node holds the paragraphs
/// of the grid, one by one.
pub(crate) proof fn lemma_open_table(d: DocV, node: BlockId, g: TableGridV, e: DocV)
    requires
        host::grid_hosted_s(d, node, g, e),
        covers_nothing_s(g),
    ensures
        grid::table_of_s(host::open_grid_s(e, node)) == grid::table_of_s(g),
        read::cells_s(e, node).len() == grid::cell_paras_s(g.rows, g.rows.len()).len(),
        forall|k: int|
            0 <= k < read::cells_s(e, node).len() ==> host::holds_s(
                e,
                (#[trigger] read::cells_s(e, node)[k]).id,
                grid::cell_paras_s(g.rows, g.rows.len())[k],
            ) && doc::fresh_s(d, read::cells_s(e, node)[k].id),
        e.s.roots == d.s.roots,
        forall|b: BlockId|
            (forall|k: int|
                0 <= k < read::cells_s(e, node).len() ==> (#[trigger] read::cells_s(
                    e,
                    node,
                )[k]).id != b) ==> #[trigger] e.s.metas[b] == d.s.metas[b] && e.s.texts.contains_key(
                b,
            ) == d.s.texts.contains_key(b) && e.s.texts[b] == d.s.texts[b],
        e.s.maps == d.s.maps,
        e.s.nested == d.s.nested,
{
    let slots = host::slots_s(g.rows, g.rows.len());
    let cells = choose|cells: Seq<CellBlock>| #[trigger]
        host::slots_stored_s(d, node, slots, cells, DocV { tables: d.tables, ..e }) && e.tables
            == host::hosted_s(d.tables, HostedTableV { node, grid: host::bare_s(g), cells });
    let t = HostedTableV { node, grid: host::bare_s(g), cells };
    let f = DocV { tables: d.tables, ..e };
    lemma_hosted(d.tables, t);
    assert(read::cells_s(e, node) == cells);
    lemma_slots_are_paras(g, g.rows.len());
    let ps = grid::cell_paras_s(g.rows, g.rows.len());
    assert forall|k: int| 0 <= k < cells.len() implies host::holds_s(
        e,
        (#[trigger] cells[k]).id,
        ps[k],
    ) && doc::fresh_s(d, cells[k].id) by {
        assert(paras_of_s(slots)[k] == slots[k].2);
        assert(host::holds_s(f, cells[k].id, slots[k].2));
    }
    assert forall|b: BlockId|
        (forall|k: int| 0 <= k < cells.len() ==> (#[trigger] cells[k]).id != b) implies #[trigger] e.s.metas[b]
        == d.s.metas[b] && e.s.texts.contains_key(b) == d.s.texts.contains_key(b) && e.s.texts[b]
        == d.s.texts[b] by {
        assert(!host::among_s(cells, b));
        assert(f.s.metas[b] == d.s.metas[b]);
        assert(f.s.texts.contains_key(b) == d.s.texts.contains_key(b));
    }
    let open = host::open_grid_s(e, node);
    assert(open == host::filled_s(e, t));
    assert(placed_s(g, cells));
    assert forall|r: int| 0 <= r < g.rows.len() implies grid::table_row_s(#[trigger] open.rows[r])
        == grid::table_row_s(g.rows[r]) by {
        let row = open.rows[r];
        let own = g.rows[r];
        assert(t.grid.rows[r] == host::bare_row_s(own));
        assert(row == host::filled_row_s(e, cells, r, host::bare_row_s(own)));
        lemma_same_visible(row.cells, own.cells, 0);
        lemma_visible_order(own.cells, 0);
        assert(grid::row_cells_s(row.cells) =~= grid::row_cells_s(own.cells)) by {
            let v = grid::visible_s(own.cells, 0);
            assert forall|i: int| 0 <= i < v.len() implies grid::table_cell_s(row.cells[v[i]])
                == grid::table_cell_s(own.cells[v[i]]) by {
                lemma_cell_held(e, g, cells, r, v[i]);
                assert(row.cells[v[i]] == host::filled_cell_s(
                    e,
                    cells,
                    r,
                    v[i],
                    host::bare_cell_s(own.cells[v[i]]),
                ));
            }
        }
    }
    assert(grid::table_of_s(open).rows =~= grid::table_of_s(g).rows);
}

} // verus!
