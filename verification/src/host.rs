//! Tables hosted in the document: the structure of a grid beside the tree, its cell paragraphs as
//! blocks of the tree.

use vstd::prelude::*;
use crate::doc;
use crate::doc::{CellBlock, DocV, HostedTable, HostedTableV, TextDoc};
use crate::error::ModelError;
use crate::sequence;
use crate::grid;
use crate::grid::{GridCell, GridCellV, GridRow, GridRowV, TableGrid, TableGridV};
use crate::props;
use crate::read;
use crate::readback;
use crate::runback;
use crate::read::host_of;
use crate::store;
use crate::store::{BlockId, Scalar, ScalarV, StoreV};
use crate::types;
use crate::types::{Paragraph, ParagraphV};
use crate::writing;

verus! {

broadcast use vstd::string::group_string_axioms;

// ---------------------------------------------------------------- table nodes

/// Append an empty table to the body.
pub fn create_table_node(doc: &mut TextDoc) -> (r: Result<BlockId, ModelError>)
    ensures
        old(doc)@.s.editable ==> r is Ok,
        r matches Ok(id) ==> doc::fresh_s(old(doc)@, id) && final(doc)@ == doc::meta_set_s(
            doc::root_added_s(old(doc)@, old(doc)@.s.roots.len() as int, id),
            id,
            "type"@,
            ScalarV::Text("table"@),
        ),
        r matches Err(e) ==> e == ModelError::Store,
{
    let n = doc.roots().len();
    let id = match doc.add_root_at(n) {
        Ok(id) => id,
        Err(e) => {
            return Err(e);
        },
    };
    proof {
        props::lemma_change_keys();
        assert(doc@.s.roots[n as int] == id);
    }
    match doc.set_meta(id, "type", &Scalar::Text("table".to_string())) {
        Ok(()) => Ok(id),
        Err(e) => Err(e),
    }
}

// ---------------------------------------------------------------- a grid and its paragraphs

/// The blocks of a cell among the first `n`.
pub open spec fn cell_ids_s(cells: Seq<CellBlock>, row: int, col: int, n: nat) -> Seq<BlockId>
    decreases n,
{
    if n == 0 {
        Seq::empty()
    } else {
        let r = cell_ids_s(cells, row, col, (n - 1) as nat);
        if cells[n - 1].row == row && cells[n - 1].col == col {
            r.push(cells[n - 1].id)
        } else {
            r
        }
    }
}

/// The paragraphs of a cell.
pub open spec fn cell_paras_s(d: DocV, cells: Seq<CellBlock>, row: int, col: int) -> Seq<ParagraphV> {
    let ids = cell_ids_s(cells, row, col, cells.len());
    Seq::new(ids.len(), |i: int| read::paragraph_s(d, ids[i]))
}

pub open spec fn filled_cell_s(d: DocV, cells: Seq<CellBlock>, row: int, col: int, c: GridCellV) -> GridCellV {
    GridCellV { paras: cell_paras_s(d, cells, row, col), ..c }
}

pub open spec fn filled_row_s(d: DocV, cells: Seq<CellBlock>, row: int, g: GridRowV) -> GridRowV {
    GridRowV {
        cells: Seq::new(g.cells.len(), |c: int| filled_cell_s(d, cells, row, c, g.cells[c])),
        ..g
    }
}

/// The grid of a hosted table, with the paragraphs of its cells.
pub open spec fn filled_s(d: DocV, t: HostedTableV) -> TableGridV {
    TableGridV {
        rows: Seq::new(t.grid.rows.len(), |r: int| filled_row_s(d, t.cells, r, t.grid.rows[r])),
        ..t.grid
    }
}

/// The grid that a table node hosts; one without rows and columns where it hosts none.
pub open spec fn open_grid_s(d: DocV, node: BlockId) -> TableGridV {
    match read::host_s(d.tables, node, 0) {
        Some(i) => filled_s(d, d.tables[i]),
        None => TableGridV::initial(),
    }
}

fn cell_paras(doc: &TextDoc, cells: &Vec<CellBlock>, row: usize, col: usize) -> (r: Vec<Paragraph>)
    ensures
        types::paragraph_vs(r@) == cell_paras_s(doc@, cells@, row as int, col as int),
{
    let mut out: Vec<Paragraph> = Vec::new();
    let mut i: usize = 0;
    while i < cells.len()
        invariant
            i <= cells@.len(),
            out@.len() == cell_ids_s(cells@, row as int, col as int, i as nat).len(),
            forall|j: int| 0 <= j < out@.len() ==> (#[trigger] out@[j])@ == read::paragraph_s(
                doc@,
                cell_ids_s(cells@, row as int, col as int, i as nat)[j],
            ),
        decreases cells@.len() - i,
    {
        if cells[i].row == row && cells[i].col == col {
            out.push(doc.read_paragraph(cells[i].id));
        }
        i = i + 1;
    }
    assert(types::paragraph_vs(out@) =~= cell_paras_s(doc@, cells@, row as int, col as int));
    out
}

fn filled_row(doc: &TextDoc, cells: &Vec<CellBlock>, row: usize, g: &GridRow) -> (r: GridRow)
    ensures
        r@ == filled_row_s(doc@, cells@, row as int, g@),
{
    let mut out: Vec<GridCell> = Vec::new();
    let mut c: usize = 0;
    while c < g.cells.len()
        invariant
            c <= g.cells@.len(),
            out@.len() == c,
            forall|j: int| 0 <= j < c ==> (#[trigger] out@[j])@ == filled_cell_s(
                doc@,
                cells@,
                row as int,
                j,
                g.cells@[j]@,
            ),
        decreases g.cells@.len() - c,
    {
        let mut cell = g.cells[c].clone();
        cell.paras = cell_paras(doc, cells, row, c);
        out.push(cell);
        c = c + 1;
    }
    let mut r = g.clone();
    r.cells = out;
    assert(grid::grid_cell_vs(r.cells@) =~= filled_row_s(doc@, cells@, row as int, g@).cells);
    r
}

/// The grid that a table node hosts.
pub fn open_table_grid(doc: &TextDoc, node: BlockId) -> (r: TableGrid)
    ensures
        r@ == open_grid_s(doc@, node),
{
    let tables = doc.tables();
    let k = match host_of(tables, node) {
        Some(k) => k,
        None => {
            return TableGrid::default();
        },
    };
    let t = &tables[k];
    assert(doc@.tables[k as int] == t@);
    let mut rows: Vec<GridRow> = Vec::new();
    let mut i: usize = 0;
    while i < t.grid.rows.len()
        invariant
            i <= t.grid.rows@.len(),
            rows@.len() == i,
            forall|j: int| 0 <= j < i ==> (#[trigger] rows@[j])@ == filled_row_s(
                doc@,
                t.cells@,
                j,
                t.grid.rows@[j]@,
            ),
        decreases t.grid.rows@.len() - i,
    {
        rows.push(filled_row(doc, &t.cells, i, &t.grid.rows[i]));
        i = i + 1;
    }
    let mut g = t.grid.clone();
    g.rows = rows;
    assert(grid::grid_row_vs(g.rows@) =~= filled_s(doc@, t@).rows);
    g
}

// ---------------------------------------------------------------- hosting a grid

/// A paragraph and the cell it belongs to.
pub type SlotV = (usize, usize, ParagraphV);

pub open spec fn cell_slots_s(row: usize, col: usize, paras: Seq<ParagraphV>) -> Seq<SlotV> {
    Seq::new(paras.len(), |i: int| (row, col, paras[i]))
}

/// The paragraphs of the first `n` cells of a row.
pub open spec fn row_slots_s(row: usize, cells: Seq<GridCellV>, n: nat) -> Seq<SlotV>
    decreases n,
{
    if n == 0 {
        Seq::empty()
    } else {
        row_slots_s(row, cells, (n - 1) as nat) + cell_slots_s(
            row,
            (n - 1) as usize,
            cells[n - 1].paras,
        )
    }
}

/// The paragraphs of the first `n` rows.
pub open spec fn slots_s(rows: Seq<GridRowV>, n: nat) -> Seq<SlotV>
    decreases n,
{
    if n == 0 {
        Seq::empty()
    } else {
        slots_s(rows, (n - 1) as nat) + row_slots_s(
            (n - 1) as usize,
            rows[n - 1].cells,
            rows[n - 1].cells.len(),
        )
    }
}

pub open spec fn bare_cell_s(c: GridCellV) -> GridCellV {
    GridCellV { paras: Seq::empty(), ..c }
}

pub open spec fn bare_row_s(r: GridRowV) -> GridRowV {
    GridRowV { cells: Seq::new(r.cells.len(), |i: int| bare_cell_s(r.cells[i])), ..r }
}

/// The structure of a grid, without its paragraphs.
pub open spec fn bare_s(g: TableGridV) -> TableGridV {
    TableGridV { rows: Seq::new(g.rows.len(), |i: int| bare_row_s(g.rows[i])), ..g }
}

/// Whether `e` is `d` with a new block that holds a paragraph, under `node`, which stands in the
/// tree.
pub open spec fn child_filled_s(d: DocV, node: BlockId, id: BlockId, p: ParagraphV, e: DocV) -> bool {
    &&& doc::fresh_s(d, id)
    &&& store::live_s(d.s, node)
    &&& writing::markable_s(p)
    &&& writing::changes_read_s(p)
    &&& writing::block_filled_s(
        doc::child_added_s(d, node, id),
        id,
        writing::para_meta_s(store::no_props_s(), p),
        p.runs,
        e,
    )
}

/// Whether a block holds a paragraph as it was written.
pub open spec fn holds_s(e: DocV, id: BlockId, p: ParagraphV) -> bool {
    &&& e.s.metas[id] == writing::para_meta_s(store::no_props_s(), p)
    &&& e.s.texts.contains_key(id)
    &&& doc::text_s(e, id) == writing::written_s(p.runs)
    &&& writing::markable_s(p)
    &&& writing::changes_read_s(p)
    &&& writing::runs_read_s(p.runs, p.runs.len())
}

/// Whether a block is one of these.
pub open spec fn among_s(cells: Seq<CellBlock>, id: BlockId) -> bool {
    exists|i: int| 0 <= i < cells.len() && (#[trigger] cells[i]).id == id
}

/// Whether `e` is `d` with new blocks under `node`, one for each paragraph, and nothing else
/// changed; where there are any, `node` stands in the tree.
pub open spec fn slots_stored_s(
    d: DocV,
    node: BlockId,
    slots: Seq<SlotV>,
    cells: Seq<CellBlock>,
    e: DocV,
) -> bool {
    &&& e == doc::with_store_s(
        d,
        StoreV {
            metas: e.s.metas,
            texts: e.s.texts,
            plain: e.s.plain,
            typed: e.s.typed,
            anchors: e.s.anchors,
            parents: e.s.parents,
            ..d.s
        },
    )
    &&& cells.len() == slots.len()
    &&& slots.len() > 0 ==> store::live_s(d.s, node)
    &&& forall|i: int|
        0 <= i < cells.len() ==> (#[trigger] cells[i]).row == slots[i].0 && cells[i].col
            == slots[i].1 && doc::fresh_s(d, cells[i].id) && holds_s(e, cells[i].id, slots[i].2)
    &&& forall|i: int, j: int|
        0 <= i < j < cells.len() ==> (#[trigger] cells[i]).id != (#[trigger] cells[j]).id
    &&& forall|b: BlockId|
        !among_s(cells, b) ==> #[trigger] e.s.metas[b] == d.s.metas[b]
    &&& forall|b: BlockId|
        !among_s(cells, b) ==> #[trigger] e.s.texts.contains_key(b) == d.s.texts.contains_key(b)
            && e.s.texts[b] == d.s.texts[b]
    &&& forall|i: int|
        0 <= i < cells.len() ==> e.s.parents.contains_key((#[trigger] cells[i]).id)
            && e.s.parents[cells[i].id] == node
    &&& forall|b: BlockId|
        !among_s(cells, b) ==> #[trigger] e.s.parents.contains_key(b) == d.s.parents.contains_key(b)
            && e.s.parents[b] == d.s.parents[b]
}

proof fn lemma_slot_stored(
    d: DocV,
    node: BlockId,
    slots: Seq<SlotV>,
    cells: Seq<CellBlock>,
    e: DocV,
    slot: SlotV,
    c: CellBlock,
    f: DocV,
)
    requires
        slots_stored_s(d, node, slots, cells, e),
        child_filled_s(e, node, c.id, slot.2, f),
        c.row == slot.0,
        c.col == slot.1,
    ensures
        slots_stored_s(d, node, slots.push(slot), cells.push(c), f),
{
    let next = cells.push(c);
    assert(among_s(next, c.id)) by {
        assert(next[cells.len() as int].id == c.id);
    }
    assert forall|b: BlockId| #[trigger] among_s(cells, b) implies among_s(next, b) && b != c.id by {
        let i = choose|i: int| 0 <= i < cells.len() && (#[trigger] cells[i]).id == b;
        assert(next[i].id == b);
        assert(holds_s(e, cells[i].id, slots[i].2));
    }
    assert(store::live_s(d.s, node)) by {
        if cells.len() == 0 {
            assert(!among_s(cells, node));
            assert(e.s.parents.contains_key(node) == d.s.parents.contains_key(node));
        }
    }
    assert(doc::fresh_s(d, c.id)) by {
        assert(!among_s(cells, c.id));
        assert(e.s.texts.contains_key(c.id) == d.s.texts.contains_key(c.id));
        assert(e.s.parents.contains_key(c.id) == d.s.parents.contains_key(c.id));
    }
    assert forall|i: int| 0 <= i < next.len() implies (#[trigger] next[i]).row == slots.push(
        slot,
    )[i].0 && next[i].col == slots.push(slot)[i].1 && doc::fresh_s(d, next[i].id) && holds_s(
        f,
        next[i].id,
        slots.push(slot)[i].2,
    ) by {
        if i < cells.len() {
            assert(next[i] == cells[i]);
            assert(among_s(cells, cells[i].id));
            assert(f.s.metas[cells[i].id] == e.s.metas[cells[i].id]);
            assert(f.s.texts[cells[i].id] == e.s.texts[cells[i].id]);
        }
    }
    assert forall|i: int, j: int| 0 <= i < j < next.len() implies (#[trigger] next[i]).id != (
    #[trigger] next[j]).id by {
        assert(next[i] == cells[i]);
        assert(among_s(cells, cells[i].id));
        if j < cells.len() {
            assert(next[j] == cells[j]);
        }
    }
    assert forall|b: BlockId| !among_s(next, b) implies #[trigger] f.s.parents.contains_key(b)
        == d.s.parents.contains_key(b) && f.s.parents[b] == d.s.parents[b] by {
        assert(!among_s(cells, b));
        assert(f.s.parents.contains_key(b) == e.s.parents.contains_key(b));
    }
    assert forall|i: int| 0 <= i < next.len() implies f.s.parents.contains_key(
        (#[trigger] next[i]).id,
    ) && f.s.parents[next[i].id] == node by {
        if i < cells.len() {
            assert(next[i] == cells[i]);
        }
    }
    assert forall|b: BlockId| !among_s(next, b) implies #[trigger] f.s.metas[b] == d.s.metas[b] by {
        assert(!among_s(cells, b));
        assert(f.s.metas[b] == e.s.metas[b]);
    }
    assert forall|b: BlockId| !among_s(next, b) implies #[trigger] f.s.texts.contains_key(b)
        == d.s.texts.contains_key(b) && f.s.texts[b] == d.s.texts[b] by {
        assert(!among_s(cells, b));
        assert(f.s.texts.contains_key(b) == e.s.texts.contains_key(b));
    }
}

/// What stood in the tree still does.
proof fn lemma_still_live(
    d: DocV,
    node: BlockId,
    slots: Seq<SlotV>,
    cells: Seq<CellBlock>,
    e: DocV,
    x: BlockId,
)
    requires
        slots_stored_s(d, node, slots, cells, e),
        store::live_s(d.s, x),
    ensures
        store::live_s(e.s, x),
{
    if d.s.parents.contains_key(x) && !among_s(cells, x) {
        assert(e.s.parents.contains_key(x));
    }
}

/// Whether the mark of every cell paragraph can be written.
pub open spec fn all_markable_s(v: Seq<SlotV>) -> bool {
    forall|i: int| 0 <= i < v.len() ==> writing::markable_s((#[trigger] v[i]).2)
}

proof fn lemma_unmarkable_row(row: usize, cells: Seq<GridCellV>, c: int, n: nat)
    requires
        0 <= c < n <= cells.len(),
        !all_markable_s(cell_slots_s(row, c as usize, cells[c].paras)),
        n <= usize::MAX,
    ensures
        !all_markable_s(row_slots_s(row, cells, n)),
    decreases n,
{
    let before = row_slots_s(row, cells, (n - 1) as nat);
    let last = cell_slots_s(row, (n - 1) as usize, cells[n - 1].paras);
    if c == n - 1 {
        let i = choose|i: int| 0 <= i < last.len() && !writing::markable_s((#[trigger] last[i]).2);
        assert((before + last)[before.len() + i] == last[i]);
    } else {
        lemma_unmarkable_row(row, cells, c, (n - 1) as nat);
        let i = choose|i: int|
            0 <= i < before.len() && !writing::markable_s((#[trigger] before[i]).2);
        assert((before + last)[i] == before[i]);
    }
}

proof fn lemma_unmarkable(rows: Seq<GridRowV>, r: int, n: nat)
    requires
        0 <= r < n <= rows.len(),
        !all_markable_s(row_slots_s(r as usize, rows[r].cells, rows[r].cells.len())),
    ensures
        !all_markable_s(slots_s(rows, n)),
    decreases n,
{
    let before = slots_s(rows, (n - 1) as nat);
    let last = row_slots_s((n - 1) as usize, rows[n - 1].cells, rows[n - 1].cells.len());
    if r == n - 1 {
        let i = choose|i: int| 0 <= i < last.len() && !writing::markable_s((#[trigger] last[i]).2);
        assert((before + last)[before.len() + i] == last[i]);
    } else {
        lemma_unmarkable(rows, r, (n - 1) as nat);
        let i = choose|i: int|
            0 <= i < before.len() && !writing::markable_s((#[trigger] before[i]).2);
        assert((before + last)[i] == before[i]);
    }
}

/// Whether a paragraph can be written to a new block.
pub open spec fn para_ready_s(marks: Map<Seq<char>, bool>, p: ParagraphV) -> bool {
    writing::markable_s(p) && writing::insertable_s(marks, 0, p.runs)
}

/// Whether every cell paragraph can be written to a new block.
pub open spec fn all_ready_s(marks: Map<Seq<char>, bool>, v: Seq<SlotV>) -> bool {
    forall|i: int| 0 <= i < v.len() ==> para_ready_s(marks, (#[trigger] v[i]).2)
}

proof fn lemma_ready_row(
    marks: Map<Seq<char>, bool>,
    row: usize,
    cells: Seq<GridCellV>,
    c: int,
    n: nat,
)
    requires
        0 <= c < n <= cells.len(),
        all_ready_s(marks, row_slots_s(row, cells, n)),
        n <= usize::MAX,
    ensures
        all_ready_s(marks, cell_slots_s(row, c as usize, cells[c].paras)),
    decreases n,
{
    let before = row_slots_s(row, cells, (n - 1) as nat);
    let last = cell_slots_s(row, (n - 1) as usize, cells[n - 1].paras);
    assert forall|i: int| 0 <= i < last.len() implies para_ready_s(marks, (#[trigger] last[i]).2) by {
        assert((before + last)[before.len() + i] == last[i]);
    }
    assert forall|i: int| 0 <= i < before.len() implies para_ready_s(
        marks,
        (#[trigger] before[i]).2,
    ) by {
        assert((before + last)[i] == before[i]);
    }
    if c < n - 1 {
        lemma_ready_row(marks, row, cells, c, (n - 1) as nat);
    }
}

proof fn lemma_ready(marks: Map<Seq<char>, bool>, rows: Seq<GridRowV>, r: int, n: nat)
    requires
        0 <= r < n <= rows.len(),
        all_ready_s(marks, slots_s(rows, n)),
    ensures
        all_ready_s(marks, row_slots_s(r as usize, rows[r].cells, rows[r].cells.len())),
    decreases n,
{
    let before = slots_s(rows, (n - 1) as nat);
    let last = row_slots_s((n - 1) as usize, rows[n - 1].cells, rows[n - 1].cells.len());
    assert forall|i: int| 0 <= i < last.len() implies para_ready_s(marks, (#[trigger] last[i]).2) by {
        assert((before + last)[before.len() + i] == last[i]);
    }
    assert forall|i: int| 0 <= i < before.len() implies para_ready_s(
        marks,
        (#[trigger] before[i]).2,
    ) by {
        assert((before + last)[i] == before[i]);
    }
    if r < n - 1 {
        lemma_ready(marks, rows, r, (n - 1) as nat);
    }
}

proof fn lemma_nothing_stored(d: DocV, node: BlockId)
    ensures
        slots_stored_s(d, node, Seq::empty(), Seq::empty(), d),
{
}

impl TextDoc {
    /// A new block under a table's, with a paragraph.
    pub(crate) fn add_cell_block(&mut self, node: BlockId, p: &Paragraph) -> (r: Result<
        BlockId,
        ModelError,
    >)
        ensures
            old(self)@.s.editable && store::live_s(old(self)@.s, node) && writing::insertable_s(
                old(self)@.s.marks,
                0,
                p@.runs,
            ) && writing::markable_s(p@) ==> r is Ok,
            r matches Ok(id) ==> child_filled_s(old(self)@, node, id, p@, final(self)@),
            !writing::markable_s(p@) ==> r is Err,
            r matches Err(e) ==> e == ModelError::Store || (e == ModelError::BadMark
                && !writing::markable_s(p@)),
    {
        let id = match self.add_child(node) {
            Ok(id) => id,
            Err(e) => {
                return Err(e);
            },
        };
        match self.write_paragraph(id, p) {
            Ok(()) => Ok(id),
            Err(e) => Err(e),
        }
    }

    fn add_cell(
        &mut self,
        node: BlockId,
        row: usize,
        col: usize,
        paras: &Vec<Paragraph>,
        cells: &mut Vec<CellBlock>,
        Ghost(d): Ghost<DocV>,
        Ghost(slots): Ghost<Seq<SlotV>>,
    ) -> (r: Result<(), ModelError>)
        requires
            slots_stored_s(d, node, slots, old(cells)@, old(self)@),
        ensures
            d.s.editable && store::live_s(d.s, node) && all_ready_s(
                d.s.marks,
                cell_slots_s(row, col, types::paragraph_vs(paras@)),
            ) ==> r is Ok,
            r is Ok ==> slots_stored_s(
                d,
                node,
                slots + cell_slots_s(row, col, types::paragraph_vs(paras@)),
                final(cells)@,
                final(self)@,
            ),
            r matches Err(e) ==> e == ModelError::Store || (e == ModelError::BadMark
                && !all_markable_s(cell_slots_s(row, col, types::paragraph_vs(paras@)))),
    {
        let ghost v = types::paragraph_vs(paras@);
        let ghost all = cell_slots_s(row, col, v);
        assert(slots + all.take(0) =~= slots);
        let mut i: usize = 0;
        while i < paras.len()
            invariant
                i <= paras@.len(),
                v == types::paragraph_vs(paras@),
                all == cell_slots_s(row, col, v),
                slots_stored_s(d, node, slots + all.take(i as int), cells@, self@),
            decreases paras@.len() - i,
        {
            let ghost e = self@;
            let ghost was = cells@;
            proof {
                if store::live_s(d.s, node) {
                    lemma_still_live(d, node, slots + all.take(i as int), cells@, e, node);
                }
            }
            let id = match self.add_cell_block(node, &paras[i]) {
                Ok(id) => id,
                Err(e) => {
                    assert(all[i as int].2 == paras@[i as int]@);
                    return Err(e);
                },
            };
            let c = CellBlock { row, col, id };
            cells.push(c);
            proof {
                assert(v[i as int] == paras@[i as int]@);
                let done = slots + all.take(i as int);
                lemma_slot_stored(d, node, done, was, e, all[i as int], c, self@);
                assert(done.push(all[i as int]) =~= slots + all.take(i as int + 1));
            }
            i = i + 1;
        }
        assert(all.take(all.len() as int) =~= all);
        Ok(())
    }

    fn add_row(
        &mut self,
        node: BlockId,
        row: usize,
        g: &GridRow,
        cells: &mut Vec<CellBlock>,
        Ghost(d): Ghost<DocV>,
        Ghost(slots): Ghost<Seq<SlotV>>,
    ) -> (r: Result<(), ModelError>)
        requires
            slots_stored_s(d, node, slots, old(cells)@, old(self)@),
        ensures
            d.s.editable && store::live_s(d.s, node) && all_ready_s(
                d.s.marks,
                row_slots_s(row, g@.cells, g@.cells.len()),
            ) ==> r is Ok,
            r is Ok ==> slots_stored_s(
                d,
                node,
                slots + row_slots_s(row, g@.cells, g@.cells.len()),
                final(cells)@,
                final(self)@,
            ),
            r matches Err(e) ==> e == ModelError::Store || (e == ModelError::BadMark
                && !all_markable_s(row_slots_s(row, g@.cells, g@.cells.len()))),
    {
        let ghost v = g@.cells;
        assert(slots + row_slots_s(row, v, 0) =~= slots);
        let mut c: usize = 0;
        while c < g.cells.len()
            invariant
                c <= g.cells@.len(),
                v == g@.cells,
                slots_stored_s(d, node, slots + row_slots_s(row, v, c as nat), cells@, self@),
            decreases g.cells@.len() - c,
        {
            let ghost done = slots + row_slots_s(row, v, c as nat);
            assert(v[c as int] == g.cells@[c as int]@);
            match self.add_cell(node, row, c, &g.cells[c].paras, cells, Ghost(d), Ghost(done)) {
                Ok(()) => {},
                Err(e) => {
                    proof {
                        if e == ModelError::BadMark {
                            lemma_unmarkable_row(row, v, c as int, v.len());
                        }
                        if all_ready_s(d.s.marks, row_slots_s(row, v, v.len())) {
                            lemma_ready_row(d.s.marks, row, v, c as int, v.len());
                        }
                    }
                    return Err(e);
                },
            }
            assert(done + cell_slots_s(row, c, v[c as int].paras) =~= slots + row_slots_s(
                row,
                v,
                (c + 1) as nat,
            ));
            c = c + 1;
        }
        Ok(())
    }
}

fn bare_row(g: &GridRow) -> (r: GridRow)
    ensures
        r@ == bare_row_s(g@),
{
    let mut out: Vec<GridCell> = Vec::new();
    let mut c: usize = 0;
    while c < g.cells.len()
        invariant
            c <= g.cells@.len(),
            out@.len() == c,
            forall|j: int| 0 <= j < c ==> (#[trigger] out@[j])@ == bare_cell_s(g.cells@[j]@),
        decreases g.cells@.len() - c,
    {
        let mut cell = g.cells[c].clone();
        cell.paras = Vec::new();
        assert(types::paragraph_vs(cell.paras@) =~= Seq::empty());
        out.push(cell);
        c = c + 1;
    }
    let mut r = g.clone();
    r.cells = out;
    assert(grid::grid_cell_vs(r.cells@) =~= bare_row_s(g@).cells);
    r
}

fn bare(g: &TableGrid) -> (r: TableGrid)
    ensures
        r@ == bare_s(g@),
{
    let mut rows: Vec<GridRow> = Vec::new();
    let mut i: usize = 0;
    while i < g.rows.len()
        invariant
            i <= g.rows@.len(),
            rows@.len() == i,
            forall|j: int| 0 <= j < i ==> (#[trigger] rows@[j])@ == bare_row_s(g.rows@[j]@),
        decreases g.rows@.len() - i,
    {
        rows.push(bare_row(&g.rows[i]));
        i = i + 1;
    }
    let mut r = g.clone();
    r.rows = rows;
    assert(grid::grid_row_vs(r.rows@) =~= bare_s(g@).rows);
    r
}

/// The tables with one hosted: in the place of the one that its node hosted, or as the last.
pub open spec fn hosted_s(tables: Seq<HostedTableV>, t: HostedTableV) -> Seq<HostedTableV> {
    match read::host_s(tables, t.node, 0) {
        Some(i) => tables.update(i, t),
        None => tables.push(t),
    }
}

/// Whether `e` is `d` with a grid hosted on a node: its structure beside the tree, and a new
/// block for each of its paragraphs, row by row.
pub open spec fn grid_hosted_s(d: DocV, node: BlockId, g: TableGridV, e: DocV) -> bool {
    exists|cells: Seq<CellBlock>| #[trigger]
        slots_stored_s(d, node, slots_s(g.rows, g.rows.len()), cells, DocV { tables: d.tables, ..e })
            && e.tables == hosted_s(
            d.tables,
            HostedTableV { node, grid: bare_s(g), cells },
        )
}

impl TextDoc {
    /// Replace the table hosted on a node.
    fn put_host(&mut self, t: HostedTable)
        ensures
            final(self)@ == (DocV { tables: hosted_s(old(self)@.tables, t@), ..old(self)@ }),
    {
        let k = host_of(self.tables(), t.node);
        let ghost was = self@.tables;
        let mut all = self.take_tables();
        let ghost tv = t@;
        assert(doc::hosted_table_vs(all@) == was);
        match k {
            Some(k) => {
                let ghost before = all@;
                all.set(k, t);
                assert(doc::hosted_table_vs(all@) =~= was.update(k as int, tv));
            },
            None => {
                all.push(t);
                assert(doc::hosted_table_vs(all@) =~= was.push(tv));
            },
        }
        self.set_tables(all);
    }
}

/// Host a grid on a table node. On a block that does not stand in the tree a grid with paragraphs
/// is refused.
pub fn host_table_grid(doc: &mut TextDoc, node: BlockId, g: &TableGrid) -> (r: Result<
    (),
    ModelError,
>)
    ensures
        sequence::sound_s(old(doc)@) && old(doc)@.s.roots.contains(node) && read::is_table_s(
            old(doc)@.s.metas[node],
        ) && r is Ok ==> sequence::sound_s(final(doc)@),
        old(doc)@.s.editable && store::live_s(old(doc)@.s, node) && all_ready_s(
            old(doc)@.s.marks,
            slots_s(g@.rows, g@.rows.len()),
        ) ==> r is Ok,
        r is Ok ==> grid_hosted_s(old(doc)@, node, g@, final(doc)@),
        !store::live_s(old(doc)@.s, node) && slots_s(g@.rows, g@.rows.len()).len() > 0 ==> r is Err,
        !all_markable_s(slots_s(g@.rows, g@.rows.len())) ==> r is Err,
        r matches Err(e) ==> e == ModelError::Store || (e == ModelError::BadMark
            && !all_markable_s(slots_s(g@.rows, g@.rows.len()))),
{
    let ghost d = doc@;
    let ghost v = g@.rows;
    let mut cells: Vec<CellBlock> = Vec::new();
    proof {
        lemma_nothing_stored(d, node);
        assert(cells@ =~= Seq::empty());
    }
    let mut i: usize = 0;
    while i < g.rows.len()
        invariant
            i <= g.rows@.len(),
            v == g@.rows,
            d == old(doc)@,
            slots_stored_s(d, node, slots_s(v, i as nat), cells@, doc@),
        decreases g.rows@.len() - i,
    {
        assert(v[i as int] == g.rows@[i as int]@);
        match doc.add_row(
            node,
            i,
            &g.rows[i],
            &mut cells,
            Ghost(d),
            Ghost(slots_s(v, i as nat)),
        ) {
            Ok(()) => {},
            Err(e) => {
                proof {
                    if e == ModelError::BadMark {
                        lemma_unmarkable(v, i as int, v.len());
                    }
                    if all_ready_s(d.s.marks, slots_s(v, v.len())) {
                        lemma_ready(d.s.marks, v, i as int, v.len());
                    }
                }
                return Err(e);
            },
        }
        i = i + 1;
    }
    let ghost e = doc@;
    let ghost cs = cells@;
    doc.put_host(HostedTable { node, grid: bare(g), cells });
    proof {
        assert((DocV { tables: d.tables, ..doc@ }) == e);
        assert(slots_stored_s(d, node, slots_s(v, v.len()), cs, DocV { tables: d.tables, ..doc@ }));
        assert forall|k: int| 0 <= k < slots_s(v, v.len()).len() implies writing::markable_s(
            (#[trigger] slots_s(v, v.len())[k]).2,
        ) by {
            assert(holds_s(e, cs[k].id, slots_s(v, v.len())[k].2));
        }
    }
    proof {
        if sequence::sound_s(d) && d.s.roots.contains(node) && read::is_table_s(d.s.metas[node]) {
            sequence::law_hosted_grid_keeps_sound(d, node, g@, doc@);
        }
    }
    Ok(())
}

/// A paragraph that was written to a cell reads back: its style, its properties, its tracked
/// changes and, character by character, its runs.
pub proof fn law_cell_paragraph_reads_back(d: DocV, node: BlockId, id: BlockId, p: ParagraphV, e: DocV)
    requires
        child_filled_s(d, node, id, p, e),
        readback::tabs_paired_s(p.props),
        runback::all_of_text_s(p.runs),
    ensures
        ({
            let r = read::paragraph_s(e, id);
            &&& r.style == p.style
            &&& r.props == p.props
            &&& r.prop_change == readback::change_kept_s(p.prop_change)
            &&& r.mark_change == p.mark_change
            &&& runback::spread_s(r.runs, r.runs.len()) == runback::spread_s(
                runback::all_settled_s(p.runs),
                p.runs.len(),
            )
        }),
{
    let m = writing::para_meta_s(store::no_props_s(), p);
    readback::lemma_typed(ScalarV::Null);
    readback::law_paragraph_reads_back(store::no_props_s(), p);
    runback::law_written_runs_read_back(doc::child_added_s(d, node, id), id, m, p.runs, e);
    assert(e.s.metas[id] == m);
}

} // verus!
