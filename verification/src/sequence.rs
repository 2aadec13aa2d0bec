//! What structural edits make of the flat sequence of paragraphs.

use vstd::prelude::*;
use crate::doc;
use crate::doc::{CellBlock, DocV, HostedTableV};
use crate::edits;
use crate::grid;
use crate::host;
use crate::import::ImportItemV;
use crate::intake;
use crate::read;
use crate::readback;
use crate::read::BlockRef;
use crate::store;
use crate::store::BlockId;
use crate::structure;
use crate::types::RunV;
use crate::walkback;
use crate::writing;

verus! {

broadcast use vstd::string::group_string_axioms;

// ---------------------------------------------------------------- where a paragraph stands

/// Whether no block stands twice in a document, every cell paragraph is a block of its own, every
/// paragraph stands in the tree with a text and nothing below it, and what stands below a block
/// goes up to the root.
pub open spec fn sound_s(d: DocV) -> bool {
    &&& d.s.roots.no_duplicates()
    &&& forall|i: int, j: int|
        0 <= i < j < read::refs_s(d).len() ==> (#[trigger] read::refs_s(d)[i]).id_s() != (
        #[trigger] read::refs_s(d)[j]).id_s()
    &&& forall|i: int|
        0 <= i < read::refs_s(d).len() && (#[trigger] read::refs_s(d)[i]) is Cell
            ==> !d.s.roots.contains(read::refs_s(d)[i].id_s())
    &&& forall|i: int|
        0 <= i < read::refs_s(d).len() ==> settled_s(d, (#[trigger] read::refs_s(d)[i]).id_s())
    &&& forall|x: BlockId| #[trigger]
        d.s.parents.contains_key(x) ==> store::live_s(d.s, d.s.parents[x])
}

/// Whether a block stands in the tree with a text and nothing below it.
pub open spec fn settled_s(d: DocV, id: BlockId) -> bool {
    store::worded_s(d.s, id) && !d.s.parents.contains_value(id)
}

spec fn distinct_cells_s(cells: Seq<CellBlock>) -> bool {
    forall|i: int, j: int|
        0 <= i < j < cells.len() ==> (#[trigger] cells[i]).id != (#[trigger] cells[j]).id
}

/// The root that a paragraph of the flat sequence belongs to.
spec fn root_of_s(b: BlockRef) -> BlockId {
    match b {
        BlockRef::Top(id) => id,
        BlockRef::Cell { node, row, col, id } => node,
    }
}

/// Where the root at `k` begins in the flat sequence.
spec fn start_s(d: DocV, k: int) -> int {
    read::refs_n_s(d, k as nat).len() as int
}

/// A paragraph of the flat sequence is one of those of some root.
proof fn lemma_where(d: DocV, n: nat, i: int) -> (k: int)
    requires
        n <= d.s.roots.len(),
        0 <= i < read::refs_n_s(d, n).len(),
    ensures
        0 <= k < n,
        start_s(d, k) <= i < start_s(d, k) + read::node_refs_s(d, d.s.roots[k]).len(),
        read::refs_n_s(d, n)[i] == read::node_refs_s(d, d.s.roots[k])[i - start_s(d, k)],
        root_of_s(read::refs_n_s(d, n)[i]) == d.s.roots[k],
    decreases n,
{
    let before = read::refs_n_s(d, (n - 1) as nat);
    if i < before.len() {
        lemma_where(d, (n - 1) as nat, i)
    } else {
        let id = d.s.roots[n - 1];
        let more = read::node_refs_s(d, id);
        assert(read::refs_n_s(d, n)[i] == more[i - before.len()]);
        if read::is_table_s(d.s.metas[id]) {
            assert(more[i - before.len()] == read::cell_ref_s(
                id,
                read::cells_s(d, id)[i - before.len()],
            ));
        }
        n - 1
    }
}

proof fn lemma_root_pos(roots: Seq<BlockId>, k: int, i: int)
    requires
        roots.no_duplicates(),
        0 <= i <= k < roots.len(),
    ensures
        structure::root_pos_s(roots, roots[k], i) == k,
    decreases k - i,
{
    if i < k {
        assert(roots[i] != roots[k]);
        lemma_root_pos(roots, k, i + 1);
    }
}

proof fn lemma_cell_pos(cells: Seq<CellBlock>, k: int, i: int)
    requires
        distinct_cells_s(cells),
        0 <= i <= k < cells.len(),
    ensures
        structure::cell_pos_s(cells, cells[k].id, i) == k,
    decreases k - i,
{
    if i < k {
        assert(cells[i].id != cells[k].id);
        lemma_cell_pos(cells, k, i + 1);
    }
}

proof fn lemma_start_grows(d: DocV, n: nat, m: nat)
    requires
        n <= m <= d.s.roots.len(),
    ensures
        start_s(d, n as int) <= start_s(d, m as int),
    decreases m,
{
    if n < m {
        lemma_start_grows(d, n, (m - 1) as nat);
    }
}

/// A document that holds nothing is sound.
pub proof fn law_new_document_is_sound(d: DocV)
    requires
        store::empty_store_s(d.s),
    ensures
        sound_s(d),
{
    assert(read::refs_s(d) =~= Seq::empty());
}

/// An edit that leaves the tree alone, and which blocks are tables and which have a text, keeps a
/// document sound: every edit of properties, marks, texts and side maps is such a one.
pub proof fn law_sound_rests_on_the_tree(d: DocV, e: DocV)
    requires
        sound_s(d),
        read::same_shape_s(d, e),
        e.s.parents == d.s.parents,
        e.s.texts.dom() == d.s.texts.dom(),
    ensures
        sound_s(e),
        read::refs_s(e) == read::refs_s(d),
{
    read::lemma_same_refs(d, e);
    assert forall|i: int| 0 <= i < read::refs_s(e).len() implies settled_s(
        e,
        (#[trigger] read::refs_s(e)[i]).id_s(),
    ) by {
        let x = read::refs_s(d)[i].id_s();
        assert(settled_s(d, x));
        assert(d.s.texts.dom().contains(x));
    }
    assert forall|x: BlockId| #[trigger] e.s.parents.contains_key(x) implies store::live_s(
        e.s,
        e.s.parents[x],
    ) by {
        assert(store::live_s(d.s, d.s.parents[x]));
    }
}

/// A change of one block's text keeps a document sound.
pub proof fn law_text_edits_keep_sound(d: DocV, e: DocV, id: BlockId)
    requires
        sound_s(d),
        doc::only_text_s(d, e, id),
    ensures
        sound_s(e),
{
    read::lemma_text_keeps_shape(d, e, id);
    assert(e.s.texts.dom() =~= d.s.texts.dom());
    law_sound_rests_on_the_tree(d, e);
}

// ---------------------------------------------------------------- a new root

/// Whether each root other than `id` stands for the same paragraphs in both documents.
spec fn rest_same_s(d: DocV, e: DocV, id: BlockId) -> bool {
    forall|x: BlockId| x != id ==> #[trigger] read::node_refs_s(e, x) == read::node_refs_s(d, x)
}

proof fn lemma_roots_before(d: DocV, e: DocV, id: BlockId, n: nat)
    requires
        rest_same_s(d, e, id),
        n <= d.s.roots.len(),
        n <= e.s.roots.len(),
        forall|i: int|
            0 <= i < n ==> (#[trigger] e.s.roots[i]) == d.s.roots[i] && e.s.roots[i] != id,
    ensures
        read::refs_n_s(e, n) == read::refs_n_s(d, n),
    decreases n,
{
    if n > 0 {
        let m = (n - 1) as nat;
        assert forall|i: int| 0 <= i < m implies (#[trigger] e.s.roots[i]) == d.s.roots[i]
            && e.s.roots[i] != id by {}
        lemma_roots_before(d, e, id, m);
        assert(e.s.roots[n - 1] == d.s.roots[n - 1] && e.s.roots[n - 1] != id);
        assert(read::node_refs_s(e, d.s.roots[n - 1]) == read::node_refs_s(d, d.s.roots[n - 1]));
    }
}

proof fn lemma_root_inserted(d: DocV, e: DocV, at: nat, id: BlockId, b: BlockRef, m: nat)
    requires
        rest_same_s(d, e, id),
        !d.s.roots.contains(id),
        at <= m <= d.s.roots.len(),
        e.s.roots == d.s.roots.insert(at as int, id),
        read::node_refs_s(e, id) == seq![b],
    ensures
        read::refs_n_s(e, m + 1) == read::refs_n_s(d, m).insert(start_s(d, at as int), b),
    decreases m,
{
    lemma_start_grows(d, at, m);
    if m == at {
        assert forall|i: int| 0 <= i < at implies (#[trigger] e.s.roots[i]) == d.s.roots[i]
            && e.s.roots[i] != id by {
            assert(d.s.roots.contains(d.s.roots[i]));
        }
        lemma_roots_before(d, e, id, at);
        assert(e.s.roots[at as int] == id);
        assert(read::refs_n_s(e, m + 1) =~= read::refs_n_s(d, m).insert(start_s(d, at as int), b));
    } else {
        lemma_root_inserted(d, e, at, id, b, (m - 1) as nat);
        lemma_start_grows(d, at, (m - 1) as nat);
        let x = d.s.roots[m - 1];
        assert(d.s.roots.contains(x));
        assert(e.s.roots[m as int] == x);
        assert(read::refs_n_s(d, (m - 1) as nat).insert(start_s(d, at as int), b)
            + read::node_refs_s(d, x) =~= read::refs_n_s(d, m).insert(start_s(d, at as int), b));
    }
}

// ---------------------------------------------------------------- a new cell paragraph

/// Whether only the paragraphs of the root `node` differ.
spec fn only_node_s(d: DocV, e: DocV, node: BlockId) -> bool {
    &&& e.s.roots == d.s.roots
    &&& forall|i: int|
        0 <= i < d.s.roots.len() && #[trigger] d.s.roots[i] != node ==> read::node_refs_s(
            e,
            d.s.roots[i],
        ) == read::node_refs_s(d, d.s.roots[i])
}

/// The flat sequence where the paragraphs of one root became others.
proof fn lemma_node_changed(d: DocV, e: DocV, k: int, m: nat)
    requires
        d.s.roots.no_duplicates(),
        0 <= k < m <= d.s.roots.len(),
        only_node_s(d, e, d.s.roots[k]),
    ensures
        ({
            let a = start_s(d, k);
            let old = read::node_refs_s(d, d.s.roots[k]);
            let v = read::refs_n_s(d, m);
            &&& a + old.len() <= v.len()
            &&& read::refs_n_s(e, m) == v.take(a) + read::node_refs_s(e, d.s.roots[k]) + v.skip(
                (a + old.len()) as int,
            )
        }),
    decreases m,
{
    let node = d.s.roots[k];
    let a = start_s(d, k);
    let old = read::node_refs_s(d, node);
    let new = read::node_refs_s(e, node);
    if m == k + 1 {
        assert forall|i: int| 0 <= i < k implies #[trigger] d.s.roots[i] != node by {}
        lemma_same_upto(d, e, node, k as nat);
        let v = read::refs_n_s(d, m);
        assert(v == read::refs_n_s(d, k as nat) + old);
        assert(v.take(a) =~= read::refs_n_s(d, k as nat));
        assert(v.skip((a + old.len()) as int) =~= Seq::empty());
        assert(read::refs_n_s(e, m) =~= v.take(a) + new + v.skip((a + old.len()) as int));
    } else {
        lemma_node_changed(d, e, k, (m - 1) as nat);
        let x = d.s.roots[m - 1];
        assert(x != node);
        let w = read::refs_n_s(d, (m - 1) as nat);
        let more = read::node_refs_s(d, x);
        let v = read::refs_n_s(d, m);
        assert(v == w + more);
        assert(v.take(a) =~= w.take(a));
        assert(v.skip((a + old.len()) as int) =~= w.skip((a + old.len()) as int) + more);
        assert(read::refs_n_s(e, m) =~= v.take(a) + new + v.skip((a + old.len()) as int));
    }
}

proof fn lemma_same_upto(d: DocV, e: DocV, node: BlockId, n: nat)
    requires
        n <= d.s.roots.len(),
        only_node_s(d, e, node),
        forall|i: int| 0 <= i < n ==> #[trigger] d.s.roots[i] != node,
    ensures
        read::refs_n_s(e, n) == read::refs_n_s(d, n),
    decreases n,
{
    if n > 0 {
        lemma_same_upto(d, e, node, (n - 1) as nat);
        assert(d.s.roots[n - 1] != node);
    }
}

// ---------------------------------------------------------------- inserting

proof fn lemma_ref_at(d: DocV, k: int, m: nat, j: int)
    requires
        0 <= k < m <= d.s.roots.len(),
        0 <= j < read::node_refs_s(d, d.s.roots[k]).len(),
    ensures
        start_s(d, k) + j < read::refs_n_s(d, m).len(),
        read::refs_n_s(d, m)[start_s(d, k) + j] == read::node_refs_s(d, d.s.roots[k])[j],
    decreases m,
{
    if m > k + 1 {
        lemma_ref_at(d, k, (m - 1) as nat, j);
    }
}

/// The cell paragraphs of a table are blocks of their own.
proof fn lemma_cells_distinct(d: DocV, k: int)
    requires
        sound_s(d),
        0 <= k < d.s.roots.len(),
        read::is_table_s(d.s.metas[d.s.roots[k]]),
    ensures
        distinct_cells_s(read::cells_s(d, d.s.roots[k])),
{
    let node = d.s.roots[k];
    let cells = read::cells_s(d, node);
    let n = d.s.roots.len();
    assert forall|i: int, j: int| 0 <= i < j < cells.len() implies (#[trigger] cells[i]).id != (
    #[trigger] cells[j]).id by {
        lemma_ref_at(d, k, n, i);
        lemma_ref_at(d, k, n, j);
        let a = start_s(d, k);
        assert(read::refs_s(d)[a + i] == read::cell_ref_s(node, cells[i]));
        assert(read::refs_s(d)[a + j] == read::cell_ref_s(node, cells[j]));
        assert(read::refs_s(d)[a + i].id_s() != read::refs_s(d)[a + j].id_s());
    }
}

/// The paragraph that stands beside another.
pub open spec fn beside_ref_s(b: BlockRef, id: BlockId) -> BlockRef {
    match b {
        BlockRef::Top(_) => BlockRef::Top(id),
        BlockRef::Cell { node, row, col, id: _ } => BlockRef::Cell { node, row, col, id },
    }
}

proof fn lemma_beside_top(
    d: DocV,
    idx: int,
    after: int,
    style: Option<Seq<char>>,
    v: Seq<RunV>,
    id: BlockId,
    e: DocV,
)
    requires
        sound_s(d),
        0 <= idx < read::refs_s(d).len(),
        0 <= after <= 1,
        read::refs_s(d)[idx] is Top,
        structure::beside_s(d, read::refs_s(d)[idx], after, style, v, id, e),
    ensures
        read::refs_s(e) == read::refs_s(d).insert(idx + after, BlockRef::Top(id)),
        e.s.roots.no_duplicates(),
        forall|x: BlockId| e.s.roots.contains(x) ==> d.s.roots.contains(x) || x == id,
{
    let n = d.s.roots.len();
    let t = read::refs_s(d)[idx].id_s();
    let k = lemma_where(d, n, idx);
    lemma_root_pos(d.s.roots, k, 0);
    assert(structure::root_pos_s(d.s.roots, t, 0) == k);
    assert(!read::is_table_s(d.s.metas[d.s.roots[k]]));
    assert(start_s(d, k) == idx);
    assert(start_s(d, k + 1) == idx + 1);
    writing::lemma_body_meta(style);
    assert(e.s.metas[id] == writing::body_meta_s(style));
    assert forall|x: BlockId| x != id implies #[trigger] read::node_refs_s(e, x)
        == read::node_refs_s(d, x) by {
        assert(e.s.metas[x] == d.s.metas[x]);
        assert(read::node_refs_s(e, x) =~= read::node_refs_s(d, x));
    }
    assert(read::node_refs_s(e, id) =~= seq![BlockRef::Top(id)]);
    lemma_root_inserted(d, e, (k + after) as nat, id, BlockRef::Top(id), n);
    assert(e.s.roots.len() == n + 1);
    assert forall|i: int, j: int| 0 <= i < e.s.roots.len() && 0 <= j < e.s.roots.len() && i != j
        implies e.s.roots[i] != e.s.roots[j] by {
        assert forall|m: int| 0 <= m < n implies #[trigger] d.s.roots[m] != id by {
            assert(d.s.roots.contains(d.s.roots[m]));
        }
    }
    assert forall|x: BlockId| e.s.roots.contains(x) implies d.s.roots.contains(x) || x == id by {
        let i = choose|i: int| 0 <= i < e.s.roots.len() && e.s.roots[i] == x;
        if i < k + after {
            assert(d.s.roots[i] == x);
        } else if i > k + after {
            assert(d.s.roots[i - 1] == x);
        }
    }
}

/// Replacing what one table holds leaves the tables of other nodes alone.
proof fn lemma_host_kept(tables: Seq<HostedTableV>, k: int, t: HostedTableV, x: BlockId, i: int)
    requires
        0 <= k < tables.len(),
        t.node == tables[k].node,
        0 <= i,
    ensures
        read::host_s(tables.update(k, t), x, i) == read::host_s(tables, x, i),
    decreases tables.len() - i,
{
    let all = tables.update(k, t);
    if i < tables.len() {
        assert(all[i].node == tables[i].node);
        if tables[i].node != x {
            lemma_host_kept(tables, k, t, x, i + 1);
        }
    }
}

proof fn lemma_host_at(tables: Seq<HostedTableV>, x: BlockId, i: int)
    requires
        0 <= i,
    ensures
        read::host_s(tables, x, i) matches Some(k) ==> i <= k < tables.len() && tables[k].node == x,
    decreases tables.len() - i,
{
    if i < tables.len() && tables[i].node != x {
        lemma_host_at(tables, x, i + 1);
    }
}

/// What other cell paragraphs for one table make of the roots.
proof fn lemma_cells_replaced(d: DocV, e: DocV, node: BlockId, cells: Seq<CellBlock>)
    requires
        e.tables == structure::with_cells_s(d.tables, node, cells),
        read::host_s(d.tables, node, 0) is Some,
    ensures
        read::cells_s(e, node) == cells,
        forall|x: BlockId| x != node ==> #[trigger] read::cells_s(e, x) == read::cells_s(d, x),
{
    let k = read::host_s(d.tables, node, 0)->0;
    lemma_host_at(d.tables, node, 0);
    let t = HostedTableV { cells, ..d.tables[k] };
    lemma_host_kept(d.tables, k, t, node, 0);
    assert forall|x: BlockId| x != node implies #[trigger] read::cells_s(e, x) == read::cells_s(
        d,
        x,
    ) by {
        lemma_host_kept(d.tables, k, t, x, 0);
        lemma_host_at(d.tables, x, 0);
    }
}

/// What is known of a cell paragraph of the flat sequence.
proof fn lemma_cell_place(d: DocV, idx: int) -> (k: int)
    requires
        sound_s(d),
        0 <= idx < read::refs_s(d).len(),
        read::refs_s(d)[idx] is Cell,
    ensures
        0 <= k < d.s.roots.len(),
        d.s.roots[k] == root_of_s(read::refs_s(d)[idx]),
        read::is_table_s(d.s.metas[d.s.roots[k]]),
        read::host_s(d.tables, d.s.roots[k], 0) is Some,
        ({
            let cells = read::cells_s(d, d.s.roots[k]);
            let pos = structure::cell_pos_s(cells, read::refs_s(d)[idx].id_s(), 0);
            &&& 0 <= pos < cells.len()
            &&& idx == start_s(d, k) + pos
            &&& read::refs_s(d)[idx] == read::cell_ref_s(d.s.roots[k], cells[pos])
        }),
{
    let k = lemma_where(d, d.s.roots.len(), idx);
    let node = d.s.roots[k];
    let pos = idx - start_s(d, k);
    assert(read::is_table_s(d.s.metas[node])) by {
        if !read::is_table_s(d.s.metas[node]) {
            assert(read::node_refs_s(d, node)[pos] is Top);
        }
    }
    let cells = read::cells_s(d, node);
    assert(read::node_refs_s(d, node)[pos] == read::cell_ref_s(node, cells[pos]));
    lemma_cells_distinct(d, k);
    lemma_cell_pos(cells, pos, 0);
    k
}

proof fn lemma_beside_cell(
    d: DocV,
    idx: int,
    after: int,
    style: Option<Seq<char>>,
    v: Seq<RunV>,
    id: BlockId,
    e: DocV,
)
    requires
        sound_s(d),
        0 <= idx < read::refs_s(d).len(),
        0 <= after <= 1,
        read::refs_s(d)[idx] is Cell,
        structure::beside_s(d, read::refs_s(d)[idx], after, style, v, id, e),
    ensures
        read::refs_s(e) == read::refs_s(d).insert(
            idx + after,
            beside_ref_s(read::refs_s(d)[idx], id),
        ),
        e.s.roots == d.s.roots,
{
    let n = d.s.roots.len();
    let b = read::refs_s(d)[idx];
    let k = lemma_cell_place(d, idx);
    let node = d.s.roots[k];
    let cells = read::cells_s(d, node);
    let pos = structure::cell_pos_s(cells, b.id_s(), 0);
    let c = CellBlock { row: cells[pos].row, col: cells[pos].col, id };
    let more = cells.insert(pos + after, c);
    assert(e.tables == structure::with_cells_s(d.tables, node, more));
    lemma_cells_replaced(d, e, node, more);
    assert(d.s.roots.contains(node));
    let f = DocV { tables: d.tables, ..e };
    assert(f.s == e.s);
    assert(e.s.metas[node] == d.s.metas[node]);
    assert forall|i: int| 0 <= i < n && #[trigger] d.s.roots[i] != node implies read::node_refs_s(
        e,
        d.s.roots[i],
    ) == read::node_refs_s(d, d.s.roots[i]) by {
        let x = d.s.roots[i];
        assert(d.s.roots.contains(x));
        assert(e.s.metas[x] == d.s.metas[x]);
        assert(read::cells_s(e, x) == read::cells_s(d, x));
        assert(read::node_refs_s(e, x) =~= read::node_refs_s(d, x));
    }
    lemma_node_changed(d, e, k, n);
    let old = read::node_refs_s(d, node);
    let new = read::node_refs_s(e, node);
    assert(new =~= old.insert(pos + after, beside_ref_s(b, id)));
    let all = read::refs_s(d);
    let a = start_s(d, k);
    assert forall|j: int| 0 <= j < old.len() implies all[a + j] == old[j] by {
        lemma_ref_at(d, k, n, j);
    }
    assert(read::refs_s(e) =~= all.insert(idx + after, beside_ref_s(b, id)));
}

/// What a new paragraph does to the store.
pub(crate) proof fn lemma_beside_filled(
    d: DocV,
    b: BlockRef,
    after: int,
    style: Option<Seq<char>>,
    v: Seq<RunV>,
    id: BlockId,
    e: DocV,
)
    requires
        structure::beside_s(d, b, after, style, v, id, e),
    ensures
        doc::fresh_s(d, id),
        e.s.metas == d.s.metas.insert(id, e.s.metas[id]),
        e.s.texts == d.s.texts.insert(id, e.s.texts[id]),
        e.s.texts.contains_key(id),
{
    assert(e.s.metas =~= d.s.metas.insert(id, e.s.metas[id]));
    assert(e.s.texts =~= d.s.texts.insert(id, e.s.texts[id]));
}

/// A block without a place yet is none of the flat sequence.
pub(crate) proof fn lemma_fresh(d: DocV, id: BlockId, i: int)
    requires
        sound_s(d),
        doc::fresh_s(d, id),
        0 <= i < read::refs_s(d).len(),
    ensures
        read::refs_s(d)[i].id_s() != id,
{
    let k = lemma_where(d, d.s.roots.len(), i);
    if read::refs_s(d)[i] is Top {
        assert(d.s.roots.contains(d.s.roots[k]));
    }
}

/// The others stay as they are where one block is filled.
proof fn lemma_others_kept(d: DocV, id: BlockId, e: DocV, i: int)
    requires
        sound_s(d),
        doc::fresh_s(d, id),
        e.s.metas == d.s.metas.insert(id, e.s.metas[id]),
        e.s.texts == d.s.texts.insert(id, e.s.texts[id]),
        0 <= i < read::refs_s(d).len(),
    ensures
        read::paragraph_s(e, read::refs_s(d)[i].id_s()) == read::paragraph_s(
            d,
            read::refs_s(d)[i].id_s(),
        ),
{
    lemma_fresh(d, id, i);
    let x = read::refs_s(d)[i].id_s();
    assert(e.s.metas[x] == d.s.metas[x]);
    assert(e.s.texts.contains_key(x) == d.s.texts.contains_key(x));
    assert(e.s.texts[x] == d.s.texts[x]);
}

/// A table of the body is no paragraph.
proof fn lemma_table_is_none(d: DocV, node: BlockId, i: int)
    requires
        sound_s(d),
        d.s.roots.contains(node),
        read::is_table_s(d.s.metas[node]),
        0 <= i < read::refs_s(d).len(),
    ensures
        read::refs_s(d)[i].id_s() != node,
{
    let k = lemma_where(d, d.s.roots.len(), i);
}

/// No block stands below one that is not in the tree.
proof fn lemma_fresh_is_no_parent(d: DocV, id: BlockId)
    requires
        sound_s(d),
        doc::fresh_s(d, id),
    ensures
        !d.s.parents.contains_value(id),
{
    if d.s.parents.contains_value(id) {
        let x = choose|x: BlockId| d.s.parents.contains_key(x) && d.s.parents[x] == id;
        assert(store::live_s(d.s, d.s.parents[x]));
    }
}

/// The parents with one more block below a root, if there is a root.
spec fn with_parent_s(p: Map<BlockId, BlockId>, id: BlockId, o: Option<BlockId>) -> Map<BlockId, BlockId> {
    match o {
        Some(node) => p.insert(id, node),
        None => p,
    }
}

proof fn lemma_settled_after(d: DocV, id: BlockId, e: DocV, o: Option<BlockId>, x: BlockId)
    requires
        sound_s(d),
        doc::fresh_s(d, id),
        e.s.parents == with_parent_s(d.s.parents, id, o),
        o matches Some(node) ==> x != node && d.s.roots.contains(node),
        forall|y: BlockId| d.s.roots.contains(y) ==> e.s.roots.contains(y),
        forall|y: BlockId| d.s.texts.contains_key(y) ==> e.s.texts.contains_key(y),
        settled_s(d, x),
    ensures
        settled_s(e, x),
{
    if e.s.parents.contains_value(x) {
        let y = choose|y: BlockId| e.s.parents.contains_key(y) && e.s.parents[y] == x;
        assert(y != id);
        assert(d.s.parents.contains_key(y) && d.s.parents[y] == x);
    }
}

proof fn lemma_rooted_after(d: DocV, id: BlockId, e: DocV, o: Option<BlockId>)
    requires
        sound_s(d),
        doc::fresh_s(d, id),
        e.s.parents == with_parent_s(d.s.parents, id, o),
        o matches Some(node) ==> d.s.roots.contains(node),
        forall|y: BlockId| d.s.roots.contains(y) ==> e.s.roots.contains(y),
    ensures
        forall|x: BlockId| #[trigger]
            e.s.parents.contains_key(x) ==> store::live_s(e.s, e.s.parents[x]),
        !e.s.parents.contains_value(id),
{
    lemma_fresh_is_no_parent(d, id);
    assert forall|x: BlockId| #[trigger] e.s.parents.contains_key(x) implies store::live_s(
        e.s,
        e.s.parents[x],
    ) && e.s.parents[x] != id by {
        if d.s.parents.contains_key(x) && x != id {
            assert(store::live_s(d.s, d.s.parents[x]));
            assert(d.s.parents.contains_value(d.s.parents[x]));
        }
    }
}

proof fn lemma_sound_after(d: DocV, id: BlockId, e: DocV, at: int, new: BlockRef, o: Option<BlockId>)
    requires
        e.s.parents == with_parent_s(d.s.parents, id, o),
        o matches Some(node) ==> d.s.roots.contains(node) && read::is_table_s(d.s.metas[node]),
        o is None ==> e.s.roots.contains(id),
        forall|y: BlockId| d.s.roots.contains(y) ==> e.s.roots.contains(y),
        sound_s(d),
        doc::fresh_s(d, id),
        0 <= at <= read::refs_s(d).len(),
        read::refs_s(e) == read::refs_s(d).insert(at, new),
        new.id_s() == id,
        new is Cell ==> !e.s.roots.contains(id),
        e.s.roots.no_duplicates(),
        forall|x: BlockId| e.s.roots.contains(x) ==> d.s.roots.contains(x) || x == id,
        e.s.texts.contains_key(id),
        forall|x: BlockId| d.s.texts.contains_key(x) ==> e.s.texts.contains_key(x),
    ensures
        sound_s(e),
{
    let all = read::refs_s(d);
    let w = read::refs_s(e);
    assert forall|i: int| 0 <= i < all.len() implies (#[trigger] all[i]).id_s() != id by {
        lemma_fresh(d, id, i);
    }
    lemma_rooted_after(d, id, e, o);
    assert forall|i: int| 0 <= i < w.len() implies settled_s(e, (#[trigger] w[i]).id_s()) by {
        if i != at {
            let p = if i < at {
                i
            } else {
                i - 1
            };
            assert(w[i] == all[p]);
            assert(settled_s(d, all[p].id_s()));
            if o is Some {
                lemma_table_is_none(d, o->0, p);
            }
            lemma_settled_after(d, id, e, o, all[p].id_s());
        }
    }
    assert forall|i: int, j: int| 0 <= i < j < w.len() implies (#[trigger] w[i]).id_s() != (
    #[trigger] w[j]).id_s() by {
        let p = if i < at {
            i
        } else {
            i - 1
        };
        let q = if j < at {
            j
        } else {
            j - 1
        };
        if i == at {
            assert(w[j] == all[q]);
        } else if j == at {
            assert(w[i] == all[p]);
        } else {
            assert(w[i] == all[p] && w[j] == all[q]);
        }
    }
    assert forall|i: int| 0 <= i < w.len() && (#[trigger] w[i]) is Cell implies !e.s.roots.contains(
        w[i].id_s(),
    ) by {
        if i != at {
            let p = if i < at {
                i
            } else {
                i - 1
            };
            assert(w[i] == all[p]);
            assert(!d.s.roots.contains(all[p].id_s()));
        }
    }
}

proof fn lemma_sound_beside(
    d: DocV,
    idx: int,
    after: int,
    style: Option<Seq<char>>,
    v: Seq<RunV>,
    id: BlockId,
    e: DocV,
)
    requires
        sound_s(d),
        0 <= idx < read::refs_s(d).len(),
        0 <= after <= 1,
        structure::beside_s(d, read::refs_s(d)[idx], after, style, v, id, e),
        read::refs_s(e) == read::refs_s(d).insert(
            idx + after,
            beside_ref_s(read::refs_s(d)[idx], id),
        ),
        e.s.roots.no_duplicates(),
        read::refs_s(d)[idx] is Cell ==> !e.s.roots.contains(id),
        forall|x: BlockId| e.s.roots.contains(x) ==> d.s.roots.contains(x) || x == id,
    ensures
        sound_s(e),
{
    let b = read::refs_s(d)[idx];
    let at = idx + after;
    let new = beside_ref_s(b, id);
    lemma_beside_filled(d, b, after, style, v, id, e);
    let n = d.s.roots.len();
    let k = lemma_where(d, n, idx);
    assert(d.s.roots.contains(d.s.roots[k]));
    match b {
        BlockRef::Top(t) => {
            lemma_root_pos(d.s.roots, k, 0);
            let p = structure::root_pos_s(d.s.roots, t, 0) + after;
            assert(e.s.roots == d.s.roots.insert(p, id));
            lemma_inserted(d.s.roots, p, id);
            lemma_sound_after(d, id, e, at, new, None);
        },
        BlockRef::Cell { node, row, col, id: c } => {
            lemma_sound_after(d, id, e, at, new, Some(node));
        },
    }
}

/// A new paragraph beside another takes the place right before or after it in the flat sequence;
/// every other paragraph is as it was, and no block stands twice.
pub proof fn law_new_paragraph_takes_its_place(
    d: DocV,
    idx: int,
    after: int,
    style: Option<Seq<char>>,
    v: Seq<RunV>,
    id: BlockId,
    e: DocV,
)
    requires
        sound_s(d),
        0 <= idx < read::refs_s(d).len(),
        0 <= after <= 1,
        structure::beside_s(d, read::refs_s(d)[idx], after, style, v, id, e),
    ensures
        read::refs_s(e) == read::refs_s(d).insert(
            idx + after,
            beside_ref_s(read::refs_s(d)[idx], id),
        ),
        forall|i: int|
            0 <= i < read::refs_s(d).len() ==> read::paragraph_s(
                e,
                (#[trigger] read::refs_s(d)[i]).id_s(),
            ) == read::paragraph_s(d, read::refs_s(d)[i].id_s()),
        sound_s(e),
{
    let all = read::refs_s(d);
    let b = all[idx];
    let at = idx + after;
    let new = beside_ref_s(b, id);
    if b is Top {
        lemma_beside_top(d, idx, after, style, v, id, e);
    } else {
        lemma_beside_cell(d, idx, after, style, v, id, e);
    }
    lemma_beside_filled(d, b, after, style, v, id, e);
    assert forall|i: int| 0 <= i < all.len() implies read::paragraph_s(
        e,
        (#[trigger] all[i]).id_s(),
    ) == read::paragraph_s(d, all[i].id_s()) by {
        lemma_others_kept(d, id, e, i);
    }
    lemma_sound_beside(d, idx, after, style, v, id, e);
}

proof fn lemma_inserted(v: Seq<BlockId>, p: int, id: BlockId)
    requires
        0 <= p <= v.len(),
    ensures
        v.insert(p, id).contains(id),
        forall|y: BlockId| v.contains(y) ==> v.insert(p, id).contains(y),
{
    assert(v.insert(p, id)[p] == id);
    assert forall|y: BlockId| v.contains(y) implies v.insert(p, id).contains(y) by {
        let i = choose|i: int| 0 <= i < v.len() && v[i] == y;
        let j = if i < p {
            i
        } else {
            i + 1
        };
        assert(v.insert(p, id)[j] == y);
    }
}

/// A paragraph of a sound document can be edited where the document takes edits.
pub proof fn law_sound_paragraphs_can_be_edited(d: DocV, i: int)
    requires
        sound_s(d),
        d.s.editable,
        0 <= i < read::refs_s(d).len(),
    ensures
        doc::writable_s(d, read::block_s(d, i)),
        edits::text_block_s(d, i) == Some(read::block_s(d, i)),
{
    assert(settled_s(d, read::refs_s(d)[i].id_s()));
}

/// A paragraph that is appended to the body is the last of the flat sequence, the others are as
/// they were, and no block stands twice.
pub proof fn law_appended_paragraph_keeps_sound(
    d: DocV,
    id: BlockId,
    m: store::PropsV,
    v: Seq<RunV>,
    e: DocV,
)
    requires
        sound_s(d),
        writing::root_filled_s(d, d.s.roots.len() as int, id, m, v, e),
        !read::is_table_s(m),
    ensures
        read::refs_s(e) == read::refs_s(d).push(BlockRef::Top(id)),
        sound_s(e),
{
    let n = d.s.roots.len();
    assert(e.s.roots =~= d.s.roots.push(id));
    assert forall|i: int| 0 <= i < n implies e.s.metas[#[trigger] d.s.roots[i]]
        == d.s.metas[d.s.roots[i]] && d.s.roots[i] != id by {
        assert(d.s.roots.contains(d.s.roots[i]));
    }
    read::lemma_refs_prefix(d, e, n);
    assert(e.s.roots[n as int] == id);
    let new = BlockRef::Top(id);
    assert(read::refs_s(e) =~= read::refs_s(d).push(new));
    let all = read::refs_s(d);
    assert(all.push(new) =~= all.insert(all.len() as int, new));
    lemma_inserted(d.s.roots, n as int, id);
    assert(d.s.roots.insert(n as int, id) =~= e.s.roots);
    assert forall|x: BlockId| e.s.roots.contains(x) implies d.s.roots.contains(x) || x == id by {
        let i = choose|i: int| 0 <= i < e.s.roots.len() && e.s.roots[i] == x;
        if i < n {
            assert(d.s.roots[i] == x);
        }
    }
    assert(e.s.roots.no_duplicates()) by {
        assert forall|i: int, j: int| 0 <= i < e.s.roots.len() && 0 <= j < e.s.roots.len() && i
            != j implies e.s.roots[i] != e.s.roots[j] by {
            if i < n {
                assert(d.s.roots.contains(d.s.roots[i]));
            }
            if j < n {
                assert(d.s.roots.contains(d.s.roots[j]));
            }
        }
    }
    lemma_sound_after(d, id, e, all.len() as int, new, None);
}

// ---------------------------------------------------------------- hosting a table

/// Whether `e` is `d` with a table of these cell paragraphs on the root `node`, which `d` has or
/// which is its new last one.
spec fn table_on_s(d: DocV, node: BlockId, cells: Seq<CellBlock>, e: DocV) -> bool {
    &&& e.s.roots.no_duplicates()
    &&& e.s.roots.contains(node)
    &&& forall|r: BlockId| #[trigger] d.s.roots.contains(r) ==> e.s.roots.contains(r)
    &&& forall|r: BlockId| #[trigger] e.s.roots.contains(r) ==> r == node || d.s.roots.contains(r)
    &&& forall|r: BlockId|
        r != node && e.s.roots.contains(r) ==> #[trigger] read::node_refs_s(e, r)
            == read::node_refs_s(d, r)
    &&& read::node_refs_s(e, node) == Seq::new(
        cells.len(),
        |i: int| read::cell_ref_s(node, cells[i]),
    )
    &&& distinct_cells_s(cells)
    &&& forall|i: int|
        0 <= i < cells.len() ==> doc::fresh_s(d, (#[trigger] cells[i]).id) && cells[i].id != node
            && e.s.texts.contains_key(cells[i].id) && e.s.parents.contains_key(cells[i].id)
            && e.s.parents[cells[i].id] == node
    &&& forall|b: BlockId|
        !host::among_s(cells, b) ==> #[trigger] e.s.parents.contains_key(b)
            == d.s.parents.contains_key(b) && e.s.parents[b] == d.s.parents[b]
    &&& forall|b: BlockId| #[trigger] d.s.texts.contains_key(b) ==> e.s.texts.contains_key(b)
    &&& !d.s.parents.contains_key(node) || d.s.roots.contains(node)
    &&& forall|i: int| 0 <= i < read::refs_s(d).len() ==> (#[trigger] read::refs_s(d)[i]).id_s() != node
    &&& !d.s.parents.contains_value(node) || d.s.roots.contains(node)
}

/// The place in `d` of a paragraph that stands under another root than the table's.
proof fn lemma_place_before(d: DocV, node: BlockId, cells: Seq<CellBlock>, e: DocV, i: int) -> (r: (
    int,
    int,
    int,
))
    requires
        table_on_s(d, node, cells, e),
        0 <= i < read::refs_s(e).len(),
    ensures
        0 <= r.0 < e.s.roots.len(),
        r.1 == i - start_s(e, r.0),
        0 <= r.1 < read::node_refs_s(e, e.s.roots[r.0]).len(),
        read::refs_s(e)[i] == read::node_refs_s(e, e.s.roots[r.0])[r.1],
        e.s.roots[r.0] != node ==> 0 <= r.2 < d.s.roots.len() && d.s.roots[r.2] == e.s.roots[r.0]
            && start_s(d, r.2) + r.1 < read::refs_s(d).len() && read::refs_s(d)[start_s(d, r.2)
            + r.1] == read::refs_s(e)[i],
{
    let k = lemma_where(e, e.s.roots.len(), i);
    let off = i - start_s(e, k);
    let x = e.s.roots[k];
    if x != node {
        assert(e.s.roots.contains(x));
        let kd = choose|kd: int| 0 <= kd < d.s.roots.len() && d.s.roots[kd] == x;
        lemma_ref_at(d, kd, d.s.roots.len(), off);
        (k, off, kd)
    } else {
        (k, off, 0)
    }
}

/// Paragraphs of different roots, or at different places of one, stand at different places.
proof fn lemma_places_apart(d: DocV, k: int, a: int, l: int, b: int)
    requires
        0 <= k < d.s.roots.len(),
        0 <= l < d.s.roots.len(),
        0 <= a < read::node_refs_s(d, d.s.roots[k]).len(),
        0 <= b < read::node_refs_s(d, d.s.roots[l]).len(),
        k != l || a != b,
    ensures
        start_s(d, k) + a != start_s(d, l) + b,
{
    if k < l {
        lemma_start_grows(d, (k + 1) as nat, l as nat);
    } else if l < k {
        lemma_start_grows(d, (l + 1) as nat, k as nat);
    }
}

proof fn lemma_table_ids_apart(
    d: DocV,
    node: BlockId,
    cells: Seq<CellBlock>,
    e: DocV,
    i: int,
    j: int,
)
    requires
        sound_s(d),
        table_on_s(d, node, cells, e),
        0 <= i < j < read::refs_s(e).len(),
    ensures
        read::refs_s(e)[i].id_s() != read::refs_s(e)[j].id_s(),
{
    let (k, a, kd) = lemma_place_before(d, node, cells, e, i);
    let (l, b, ld) = lemma_place_before(d, node, cells, e, j);
    let x = e.s.roots[k];
    let y = e.s.roots[l];
    if x == node && y == node {
        assert(k == l);
        assert(cells[a].id != cells[b].id);
    } else if x == node {
        lemma_fresh(d, cells[a].id, start_s(d, ld) + b);
    } else if y == node {
        lemma_fresh(d, cells[b].id, start_s(d, kd) + a);
    } else {
        if kd == ld {
            assert(k == l);
        }
        lemma_places_apart(d, kd, a, ld, b);
        let p = start_s(d, kd) + a;
        let q = start_s(d, ld) + b;
        if p < q {
            assert(read::refs_s(d)[p].id_s() != read::refs_s(d)[q].id_s());
        } else {
            assert(read::refs_s(d)[q].id_s() != read::refs_s(d)[p].id_s());
        }
    }
}

proof fn lemma_table_settled(d: DocV, node: BlockId, cells: Seq<CellBlock>, e: DocV, x: BlockId)
    requires
        sound_s(d),
        table_on_s(d, node, cells, e),
        x != node,
        settled_s(d, x) || host::among_s(cells, x),
    ensures
        settled_s(e, x),
{
    if host::among_s(cells, x) {
        let i = choose|i: int| 0 <= i < cells.len() && (#[trigger] cells[i]).id == x;
        assert(e.s.parents.contains_key(cells[i].id));
        lemma_fresh_is_no_parent(d, x);
    } else {
        assert(e.s.parents.contains_key(x) == d.s.parents.contains_key(x));
    }
    if e.s.parents.contains_value(x) {
        let y = choose|y: BlockId| e.s.parents.contains_key(y) && e.s.parents[y] == x;
        if host::among_s(cells, y) {
            let i = choose|i: int| 0 <= i < cells.len() && (#[trigger] cells[i]).id == y;
            assert(e.s.parents[cells[i].id] == node);
        } else {
            assert(e.s.parents.contains_key(y) == d.s.parents.contains_key(y));
            assert(d.s.parents.contains_value(x));
        }
    }
}

proof fn lemma_table_sound(d: DocV, node: BlockId, cells: Seq<CellBlock>, e: DocV)
    requires
        sound_s(d),
        table_on_s(d, node, cells, e),
    ensures
        sound_s(e),
{
    let w = read::refs_s(e);
    assert forall|i: int, j: int| 0 <= i < j < w.len() implies (#[trigger] w[i]).id_s() != (
    #[trigger] w[j]).id_s() by {
        lemma_table_ids_apart(d, node, cells, e, i, j);
    }
    assert forall|i: int| 0 <= i < w.len() implies settled_s(e, (#[trigger] w[i]).id_s()) && (
    w[i] is Cell ==> !e.s.roots.contains(w[i].id_s())) by {
        let (k, a, kd) = lemma_place_before(d, node, cells, e, i);
        if e.s.roots[k] == node {
            assert(w[i] == read::cell_ref_s(node, cells[a]));
            assert(host::among_s(cells, cells[a].id));
            lemma_table_settled(d, node, cells, e, cells[a].id);
        } else {
            let p = start_s(d, kd) + a;
            assert(settled_s(d, read::refs_s(d)[p].id_s()));
            lemma_table_settled(d, node, cells, e, w[i].id_s());
        }
    }
    assert forall|x: BlockId| #[trigger] e.s.parents.contains_key(x) implies store::live_s(
        e.s,
        e.s.parents[x],
    ) by {
        if host::among_s(cells, x) {
            let i = choose|i: int| 0 <= i < cells.len() && (#[trigger] cells[i]).id == x;
            assert(e.s.parents[cells[i].id] == node);
        } else {
            assert(d.s.parents.contains_key(x));
            let p = d.s.parents[x];
            assert(store::live_s(d.s, p));
            if d.s.parents.contains_key(p) && !host::among_s(cells, p) {
                assert(e.s.parents.contains_key(p));
            }
            if host::among_s(cells, p) {
                let i = choose|i: int| 0 <= i < cells.len() && (#[trigger] cells[i]).id == p;
                assert(doc::fresh_s(d, cells[i].id));
            }
        }
    }
}

proof fn lemma_cells_elsewhere(tables: Seq<HostedTableV>, t: HostedTableV, x: BlockId)
    requires
        x != t.node,
    ensures
        read::host_s(host::hosted_s(tables, t), x, 0) == read::host_s(tables, x, 0),
        read::host_s(tables, x, 0) matches Some(k) ==> host::hosted_s(tables, t)[k] == tables[k],
{
    walkback::lemma_host(tables, t.node, 0);
    walkback::lemma_host(tables, x, 0);
    let all = host::hosted_s(tables, t);
    walkback::lemma_host(all, x, 0);
    let a = read::host_s(tables, x, 0);
    let b = read::host_s(all, x, 0);
    if a is Some {
        assert(all[a->0] == tables[a->0]);
        assert(all[a->0].node == x);
    }
    if b is Some {
        if b->0 < tables.len() {
            assert(all[b->0].node == x);
            assert(tables[b->0] == all[b->0]);
        }
    }
    if a is Some && b is Some {
        if a->0 < b->0 {
            assert(all[a->0].node != x);
        } else if b->0 < a->0 {
            assert(tables[b->0].node != x);
        }
    }
}

/// A grid that is hosted on a table of the body keeps a document sound.
pub proof fn law_hosted_grid_keeps_sound(d: DocV, node: BlockId, g: grid::TableGridV, e: DocV)
    requires
        sound_s(d),
        d.s.roots.contains(node),
        read::is_table_s(d.s.metas[node]),
        host::grid_hosted_s(d, node, g, e),
    ensures
        sound_s(e),
{
    assert forall|i: int| 0 <= i < read::refs_s(d).len() implies (#[trigger] read::refs_s(
        d,
    )[i]).id_s() != node by {
        lemma_table_is_none(d, node, i);
    }
    lemma_hosted_sound(d, d, node, g, e);
}

/// A table that is appended to the body with a grid keeps a document sound.
pub proof fn law_placed_table_keeps_sound(d: DocV, g: grid::TableGridV, id: BlockId, e: DocV)
    requires
        sound_s(d),
        intake::table_placed_s(d, g, id, e),
    ensures
        sound_s(e),
{
    reveal(intake::table_placed_s);
    let mid = intake::table_added_s(d, id);
    let n = d.s.roots.len() as int;
    lemma_inserted(d.s.roots, n, id);
    lemma_fresh_is_no_parent(d, id);
    assert(mid.s.roots == d.s.roots.insert(n, id));
    assert(mid.s.roots.no_duplicates()) by {
        assert forall|i: int, j: int| 0 <= i < mid.s.roots.len() && 0 <= j < mid.s.roots.len() && i
            != j implies mid.s.roots[i] != mid.s.roots[j] by {
            if i < n {
                assert(d.s.roots.contains(d.s.roots[i]));
            }
            if j < n {
                assert(d.s.roots.contains(d.s.roots[j]));
            }
        }
    }
    assert forall|x: BlockId| #[trigger] mid.s.roots.contains(x) implies x == id
        || d.s.roots.contains(x) by {
        let i = choose|i: int| 0 <= i < mid.s.roots.len() && mid.s.roots[i] == x;
        if i < n {
            assert(d.s.roots[i] == x);
        }
    }
    assert forall|i: int| 0 <= i < read::refs_s(d).len() implies (#[trigger] read::refs_s(
        d,
    )[i]).id_s() != id by {
        lemma_fresh(d, id, i);
    }
    lemma_hosted_sound(d, mid, id, g, e);
}

proof fn lemma_hosted_sound(d: DocV, mid: DocV, node: BlockId, g: grid::TableGridV, e: DocV)
    requires
        sound_s(d),
        host::grid_hosted_s(mid, node, g, e),
        mid.tables == d.tables,
        mid.s.roots.no_duplicates(),
        mid.s.roots.contains(node),
        read::is_table_s(mid.s.metas[node]),
        forall|r: BlockId| #[trigger] d.s.roots.contains(r) ==> mid.s.roots.contains(r),
        forall|r: BlockId| #[trigger] mid.s.roots.contains(r) ==> r == node || d.s.roots.contains(r),
        forall|r: BlockId| r != node ==> #[trigger] mid.s.metas[r] == d.s.metas[r],
        mid.s.parents == d.s.parents,
        mid.s.texts == d.s.texts,
        !d.s.parents.contains_key(node) || d.s.roots.contains(node),
        forall|i: int|
            0 <= i < read::refs_s(d).len() ==> (#[trigger] read::refs_s(d)[i]).id_s() != node,
        !d.s.parents.contains_value(node) || d.s.roots.contains(node),
    ensures
        sound_s(e),
{
    let slots = host::slots_s(g.rows, g.rows.len());
    let cells = choose|cells: Seq<CellBlock>| #[trigger]
        host::slots_stored_s(mid, node, slots, cells, DocV { tables: mid.tables, ..e }) && e.tables
            == host::hosted_s(mid.tables, HostedTableV { node, grid: host::bare_s(g), cells });
    let t = HostedTableV { node, grid: host::bare_s(g), cells };
    let f = DocV { tables: d.tables, ..e };
    assert(host::slots_stored_s(mid, node, slots, cells, f));
    walkback::lemma_hosted(d.tables, t);
    assert forall|r: BlockId| #[trigger] e.s.roots.contains(r) implies !host::among_s(cells, r) by {
        if host::among_s(cells, r) {
            let i = choose|i: int| 0 <= i < cells.len() && (#[trigger] cells[i]).id == r;
            assert(doc::fresh_s(mid, cells[i].id));
        }
    }
    assert forall|r: BlockId| r != node && e.s.roots.contains(r) implies #[trigger] read::node_refs_s(
        e,
        r,
    ) == read::node_refs_s(d, r) by {
        lemma_cells_elsewhere(d.tables, t, r);
        assert(f.s.metas[r] == mid.s.metas[r]);
        assert(mid.s.metas[r] == d.s.metas[r]);
        assert(read::node_refs_s(e, r) =~= read::node_refs_s(d, r));
    }
    assert(f.s.metas[node] == mid.s.metas[node]);
    assert(read::cells_s(e, node) == cells);
    assert forall|b: BlockId| #[trigger] d.s.texts.contains_key(b) implies e.s.texts.contains_key(b) by {
        if !host::among_s(cells, b) {
            assert(f.s.texts.contains_key(b));
        } else {
            let i = choose|i: int| 0 <= i < cells.len() && (#[trigger] cells[i]).id == b;
            assert(doc::fresh_s(mid, cells[i].id));
        }
    }
    assert forall|i: int| 0 <= i < cells.len() implies doc::fresh_s(d, (#[trigger] cells[i]).id)
        && cells[i].id != node && e.s.texts.contains_key(cells[i].id) && e.s.parents.contains_key(
        cells[i].id,
    ) && e.s.parents[cells[i].id] == node by {
        assert(doc::fresh_s(mid, cells[i].id));
        assert(host::holds_s(f, cells[i].id, slots[i].2));
    }
    assert forall|b: BlockId| !host::among_s(cells, b) implies #[trigger] e.s.parents.contains_key(b)
        == d.s.parents.contains_key(b) && e.s.parents[b] == d.s.parents[b] by {
        assert(f.s.parents.contains_key(b) == mid.s.parents.contains_key(b));
    }
    assert(table_on_s(d, node, cells, e));
    lemma_table_sound(d, node, cells, e);
}

/// A table that is appended to the body without a grid keeps a document sound, where nothing is
/// hosted on it yet.
pub proof fn law_new_table_keeps_sound(d: DocV, id: BlockId)
    requires
        sound_s(d),
        doc::fresh_s(d, id),
        read::host_s(d.tables, id, 0) is None,
    ensures
        sound_s(intake::table_added_s(d, id)),
{
    let e = intake::table_added_s(d, id);
    let n = d.s.roots.len() as int;
    let none = Seq::<CellBlock>::empty();
    lemma_inserted(d.s.roots, n, id);
    lemma_fresh_is_no_parent(d, id);
    assert(e.s.roots == d.s.roots.insert(n, id));
    assert(e.s.roots.no_duplicates()) by {
        assert forall|i: int, j: int| 0 <= i < e.s.roots.len() && 0 <= j < e.s.roots.len() && i
            != j implies e.s.roots[i] != e.s.roots[j] by {
            if i < n {
                assert(d.s.roots.contains(d.s.roots[i]));
            }
            if j < n {
                assert(d.s.roots.contains(d.s.roots[j]));
            }
        }
    }
    assert forall|x: BlockId| #[trigger] e.s.roots.contains(x) implies x == id
        || d.s.roots.contains(x) by {
        let i = choose|i: int| 0 <= i < e.s.roots.len() && e.s.roots[i] == x;
        if i < n {
            assert(d.s.roots[i] == x);
        }
    }
    assert forall|i: int| 0 <= i < read::refs_s(d).len() implies (#[trigger] read::refs_s(
        d,
    )[i]).id_s() != id by {
        lemma_fresh(d, id, i);
    }
    assert forall|r: BlockId| r != id && e.s.roots.contains(r) implies #[trigger] read::node_refs_s(
        e,
        r,
    ) == read::node_refs_s(d, r) by {
        assert(read::node_refs_s(e, r) =~= read::node_refs_s(d, r));
    }
    assert(read::node_refs_s(e, id) =~= Seq::new(
        none.len(),
        |i: int| read::cell_ref_s(id, none[i]),
    ));
    assert(table_on_s(d, id, none, e));
    lemma_table_sound(d, id, none, e);
}

// ---------------------------------------------------------------- importing

proof fn lemma_item_keeps_sound(d: DocV, item: ImportItemV, e: DocV)
    requires
        sound_s(d),
        intake::placed_s(d, item, e),
    ensures
        sound_s(e),
{
    match item {
        ImportItemV::Paragraph(p) => {
            let id = choose|id: BlockId| #[trigger] intake::paragraph_placed_s(d, p, id, e);
            reveal(intake::paragraph_placed_s);
            let m = writing::para_meta_s(intake::typed_s(), p);
            readback::lemma_type_kept(intake::typed_s(), p);
            reveal_strlit("p");
            reveal_strlit("table");
            assert("p"@.len() != "table"@.len());
            law_appended_paragraph_keeps_sound(d, id, m, p.runs, e);
        },
        ImportItemV::Table(g) => {
            let id = choose|id: BlockId| #[trigger] intake::table_placed_s(d, g, id, e);
            law_placed_table_keeps_sound(d, g, id, e);
        },
    }
}

proof fn lemma_items_keep_sound(states: Seq<DocV>, items: Seq<ImportItemV>, n: int)
    requires
        intake::all_placed_s(states, items),
        sound_s(states[0]),
        0 <= n <= items.len(),
    ensures
        sound_s(states[n]),
    decreases n,
{
    if n > 0 {
        lemma_items_keep_sound(states, items, n - 1);
        assert(intake::placed_s(states[n - 1], items[n - 1], states[n - 1 + 1]));
        lemma_item_keeps_sound(states[n - 1], items[n - 1], states[n]);
    }
}

/// What is imported keeps a document sound.
pub proof fn law_import_keeps_sound(d: DocV, items: Seq<ImportItemV>, e: DocV)
    requires
        sound_s(d),
        intake::items_placed_s(d, items, e),
    ensures
        sound_s(e),
{
    let states = choose|states: Seq<DocV>| #[trigger]
        intake::all_placed_s(states, items) && states.first() == d && states.last() == e;
    lemma_items_keep_sound(states, items, items.len() as int);
}

// ---------------------------------------------------------------- removing

proof fn lemma_without_absent(v: Seq<BlockId>, id: BlockId, n: nat)
    requires
        n <= v.len(),
        forall|i: int| 0 <= i < n ==> #[trigger] v[i] != id,
    ensures
        store::without_s(v, id, n) == v.take(n as int),
    decreases n,
{
    if n > 0 {
        lemma_without_absent(v, id, (n - 1) as nat);
        assert(v[n - 1] != id);
        assert(v.take(n - 1).push(v[n - 1]) =~= v.take(n as int));
    } else {
        assert(v.take(0) =~= Seq::empty());
    }
}

proof fn lemma_without(v: Seq<BlockId>, k: int, n: nat)
    requires
        v.no_duplicates(),
        0 <= k < n <= v.len(),
    ensures
        store::without_s(v, v[k], n) == v.take(n as int).remove(k),
    decreases n,
{
    if n == k + 1 {
        assert forall|i: int| 0 <= i < k implies #[trigger] v[i] != v[k] by {}
        lemma_without_absent(v, v[k], k as nat);
        assert(v.take(n as int).remove(k) =~= v.take(k));
    } else {
        lemma_without(v, k, (n - 1) as nat);
        assert(v[n - 1] != v[k]);
        assert(v.take(n - 1).remove(k).push(v[n - 1]) =~= v.take(n as int).remove(k));
    }
}

/// What is left of the store where a block goes.
pub(crate) proof fn lemma_dropped_rest(d: DocV, id: BlockId, e: DocV, x: BlockId)
    requires
        doc::block_dropped_s(d, id, DocV { tables: d.tables, ..e }),
        x != id,
    ensures
        e.s.metas[x] == d.s.metas[x],
        e.s.texts.contains_key(x) == d.s.texts.contains_key(x),
        d.s.texts.contains_key(x) ==> e.s.texts[x] == d.s.texts[x],
{
    let f = DocV { tables: d.tables, ..e };
    assert(e.s.metas.insert(id, d.s.metas[id])[x] == d.s.metas.insert(id, d.s.metas[id])[x]);
    assert(e.s.texts.remove(id).contains_key(x) == d.s.texts.remove(id).contains_key(x));
    if d.s.texts.contains_key(x) {
        assert(e.s.texts.remove(id)[x] == d.s.texts.remove(id)[x]);
    }
}

proof fn lemma_dropped_top(d: DocV, idx: int, e: DocV)
    requires
        sound_s(d),
        0 <= idx < read::refs_s(d).len(),
        read::refs_s(d)[idx] is Top,
        structure::paragraph_dropped_s(d, read::refs_s(d)[idx], e),
    ensures
        read::refs_s(e) == read::refs_s(d).remove(idx),
        e.s.roots.no_duplicates(),
        forall|x: BlockId| e.s.roots.contains(x) ==> d.s.roots.contains(x),
{
    let n = d.s.roots.len();
    let t = read::refs_s(d)[idx].id_s();
    let k = lemma_where(d, n, idx);
    assert(d.s.roots[k] == t);
    assert(!read::is_table_s(d.s.metas[t]));
    assert(start_s(d, k) == idx);
    lemma_without(d.s.roots, k, n);
    assert(d.s.roots.take(n as int) =~= d.s.roots);
    assert(e.s.roots == d.s.roots.remove(k));
    assert((DocV { tables: d.tables, ..e }) == e);
    assert forall|x: BlockId| x != t implies #[trigger] read::node_refs_s(d, x)
        == read::node_refs_s(e, x) by {
        lemma_dropped_rest(d, t, e, x);
        assert(read::node_refs_s(d, x) =~= read::node_refs_s(e, x));
    }
    assert(!e.s.roots.contains(t)) by {
        if e.s.roots.contains(t) {
            let i = choose|i: int| 0 <= i < e.s.roots.len() && e.s.roots[i] == t;
            if i < k {
                assert(d.s.roots[i] == t);
            } else {
                assert(d.s.roots[i + 1] == t);
            }
        }
    }
    assert(d.s.roots =~= e.s.roots.insert(k, t));
    assert(read::node_refs_s(d, t) =~= seq![BlockRef::Top(t)]);
    lemma_root_inserted(e, d, k as nat, t, BlockRef::Top(t), (n - 1) as nat);
    assert forall|i: int| 0 <= i < k implies (#[trigger] d.s.roots[i]) == e.s.roots[i]
        && d.s.roots[i] != t by {}
    lemma_roots_before(e, d, t, k as nat);
    assert(start_s(e, k) == idx);
    lemma_start_grows(e, k as nat, (n - 1) as nat);
    assert(read::refs_s(d) == read::refs_s(e).insert(idx, BlockRef::Top(t)));
    assert(read::refs_s(e) =~= read::refs_s(d).remove(idx));
    assert forall|i: int, j: int| 0 <= i < e.s.roots.len() && 0 <= j < e.s.roots.len() && i != j
        implies e.s.roots[i] != e.s.roots[j] by {}
    assert forall|x: BlockId| e.s.roots.contains(x) implies d.s.roots.contains(x) by {
        let i = choose|i: int| 0 <= i < e.s.roots.len() && e.s.roots[i] == x;
        if i < k {
            assert(d.s.roots[i] == x);
        } else {
            assert(d.s.roots[i + 1] == x);
        }
    }
}

proof fn lemma_dropped_cell(d: DocV, idx: int, e: DocV)
    requires
        sound_s(d),
        0 <= idx < read::refs_s(d).len(),
        read::refs_s(d)[idx] is Cell,
        structure::paragraph_dropped_s(d, read::refs_s(d)[idx], e),
    ensures
        read::refs_s(e) == read::refs_s(d).remove(idx),
        e.s.roots == d.s.roots,
{
    let n = d.s.roots.len();
    let all = read::refs_s(d);
    let id = all[idx].id_s();
    let k = lemma_cell_place(d, idx);
    let node = d.s.roots[k];
    let cells = read::cells_s(d, node);
    let pos = structure::cell_pos_s(cells, id, 0);
    assert forall|i: int| 0 <= i < n implies #[trigger] d.s.roots[i] != id by {
        assert(d.s.roots.contains(d.s.roots[i]));
    }
    lemma_without_absent(d.s.roots, id, n);
    assert(d.s.roots.take(n as int) =~= d.s.roots);
    lemma_cells_replaced(d, e, node, cells.remove(pos));
    lemma_dropped_rest(d, id, e, node);
    assert forall|i: int| 0 <= i < n && #[trigger] d.s.roots[i] != node implies read::node_refs_s(
        e,
        d.s.roots[i],
    ) == read::node_refs_s(d, d.s.roots[i]) by {
        let x = d.s.roots[i];
        lemma_dropped_rest(d, id, e, x);
        assert(read::cells_s(e, x) == read::cells_s(d, x));
        assert(read::node_refs_s(e, x) =~= read::node_refs_s(d, x));
    }
    lemma_node_changed(d, e, k, n);
    let old = read::node_refs_s(d, node);
    let new = read::node_refs_s(e, node);
    assert(new =~= old.remove(pos));
    let a = start_s(d, k);
    assert forall|j: int| 0 <= j < old.len() implies all[a + j] == old[j] by {
        lemma_ref_at(d, k, n, j);
    }
    assert(read::refs_s(e) =~= all.remove(idx));
}

pub(crate) proof fn lemma_is_dropped(d: DocV, b: BlockRef, e: DocV)
    requires
        structure::paragraph_dropped_s(d, b, e),
    ensures
        doc::block_dropped_s(d, b.id_s(), DocV { tables: d.tables, ..e }),
{
    if b is Top {
        assert((DocV { tables: d.tables, ..e }) == e);
    }
}

proof fn lemma_others_stay(d: DocV, idx: int, e: DocV, i: int)
    requires
        sound_s(d),
        0 <= idx < read::refs_s(d).len(),
        0 <= i < read::refs_s(d).len(),
        i != idx,
        structure::paragraph_dropped_s(d, read::refs_s(d)[idx], e),
    ensures
        ({
            let x = read::refs_s(d)[i].id_s();
            &&& read::paragraph_s(e, x) == read::paragraph_s(d, x)
            &&& e.s.texts.contains_key(x) == d.s.texts.contains_key(x)
        }),
{
    let all = read::refs_s(d);
    if i < idx {
        assert(all[i].id_s() != all[idx].id_s());
    } else {
        assert(all[idx].id_s() != all[i].id_s());
    }
    lemma_is_dropped(d, all[idx], e);
    lemma_dropped_rest(d, all[idx].id_s(), e, all[i].id_s());
}

proof fn lemma_sound_less(d: DocV, idx: int, e: DocV)
    requires
        sound_s(d),
        0 <= idx < read::refs_s(d).len(),
        structure::paragraph_dropped_s(d, read::refs_s(d)[idx], e),
        read::refs_s(e) == read::refs_s(d).remove(idx),
        e.s.roots.no_duplicates(),
        forall|x: BlockId| e.s.roots.contains(x) ==> d.s.roots.contains(x),
    ensures
        sound_s(e),
{
    let all = read::refs_s(d);
    let w = read::refs_s(e);
    assert forall|i: int, j: int| 0 <= i < j < w.len() implies (#[trigger] w[i]).id_s() != (
    #[trigger] w[j]).id_s() by {
        let p = if i < idx {
            i
        } else {
            i + 1
        };
        let q = if j < idx {
            j
        } else {
            j + 1
        };
        assert(w[i] == all[p] && w[j] == all[q]);
        assert(all[p].id_s() != all[q].id_s());
    }
    assert forall|i: int| 0 <= i < w.len() && (#[trigger] w[i]) is Cell implies !e.s.roots.contains(
        w[i].id_s(),
    ) by {
        let p = if i < idx {
            i
        } else {
            i + 1
        };
        assert(w[i] == all[p]);
        assert(!d.s.roots.contains(all[p].id_s()));
    }
    let id = all[idx].id_s();
    lemma_is_dropped(d, all[idx], e);
    assert(settled_s(d, id));
    assert(e.s.parents == d.s.parents.remove(id));
    assert forall|y: BlockId| d.s.roots.contains(y) && y != id implies e.s.roots.contains(y) by {
        assert(d.s.roots.take(d.s.roots.len() as int) =~= d.s.roots);
        lemma_without_keeps(d.s.roots, id, d.s.roots.len(), y);
    }
    assert forall|i: int| 0 <= i < w.len() implies settled_s(e, (#[trigger] w[i]).id_s()) by {
        let p = if i < idx {
            i
        } else {
            i + 1
        };
        assert(w[i] == all[p]);
        let x = all[p].id_s();
        assert(settled_s(d, x));
        lemma_others_stay(d, idx, e, p);
        if p < idx {
            assert(all[p].id_s() != all[idx].id_s());
        } else {
            assert(all[idx].id_s() != all[p].id_s());
        }
        if e.s.parents.contains_value(x) {
            let y = choose|y: BlockId| e.s.parents.contains_key(y) && e.s.parents[y] == x;
            assert(d.s.parents.contains_key(y) && d.s.parents[y] == x);
        }
    }
    assert forall|x: BlockId| #[trigger] e.s.parents.contains_key(x) implies store::live_s(
        e.s,
        e.s.parents[x],
    ) by {
        assert(d.s.parents.contains_key(x));
        assert(store::live_s(d.s, d.s.parents[x]));
        assert(d.s.parents.contains_value(d.s.parents[x]));
    }
}

proof fn lemma_without_keeps(v: Seq<BlockId>, id: BlockId, n: nat, y: BlockId)
    requires
        n <= v.len(),
        v.take(n as int).contains(y),
        y != id,
    ensures
        store::without_s(v, id, n).contains(y),
    decreases n,
{
    let i = choose|i: int| 0 <= i < v.take(n as int).len() && v.take(n as int)[i] == y;
    let r = store::without_s(v, id, (n - 1) as nat);
    if i < n - 1 {
        assert(v.take(n - 1)[i] == y);
        lemma_without_keeps(v, id, (n - 1) as nat, y);
        let j = choose|j: int| 0 <= j < r.len() && r[j] == y;
        assert(store::without_s(v, id, n)[j] == y);
    } else {
        assert(store::without_s(v, id, n)[r.len() as int] == y);
    }
}

/// A paragraph that is removed leaves the flat sequence; every other paragraph is as it was, and
/// no block stands twice.
pub proof fn law_dropped_paragraph_leaves_its_place(d: DocV, idx: int, e: DocV)
    requires
        sound_s(d),
        0 <= idx < read::refs_s(d).len(),
        structure::paragraph_dropped_s(d, read::refs_s(d)[idx], e),
    ensures
        read::refs_s(e) == read::refs_s(d).remove(idx),
        forall|i: int|
            0 <= i < read::refs_s(d).len() && i != idx ==> read::paragraph_s(
                e,
                (#[trigger] read::refs_s(d)[i]).id_s(),
            ) == read::paragraph_s(d, read::refs_s(d)[i].id_s()),
        sound_s(e),
{
    let all = read::refs_s(d);
    if all[idx] is Top {
        lemma_dropped_top(d, idx, e);
    } else {
        lemma_dropped_cell(d, idx, e);
    }
    assert forall|i: int| 0 <= i < all.len() && i != idx implies read::paragraph_s(
        e,
        (#[trigger] all[i]).id_s(),
    ) == read::paragraph_s(d, all[i].id_s()) by {
        lemma_others_stay(d, idx, e, i);
    }
    lemma_sound_less(d, idx, e);
}

/// Splitting a paragraph keeps a document sound.
pub proof fn law_split_keeps_sound(d: DocV, idx: int, pos: usize, mid: DocV, id: BlockId, e: DocV)
    requires
        sound_s(d),
        0 <= idx < read::refs_s(d).len(),
        structure::split_done_s(d, idx, pos, mid, id, e),
    ensures
        sound_s(e),
{
    let b = read::refs_s(d)[idx];
    let p = read::paragraph_s(d, b.id_s());
    let v = structure::runs_from_s(p.runs, pos, p.runs.len());
    if mid != d {
        law_text_edits_keep_sound(d, mid, b.id_s());
        read::lemma_text_keeps_shape(d, mid, b.id_s());
    }
    law_new_paragraph_takes_its_place(mid, idx, 1, p.style, v, id, e);
}

/// Joining a paragraph to the one before it keeps a document sound.
pub proof fn law_join_keeps_sound(d: DocV, idx: int, mid: DocV, e: DocV)
    requires
        sound_s(d),
        0 < idx < read::refs_s(d).len(),
        structure::join_done_s(d, idx, mid, e),
    ensures
        sound_s(e),
{
    let a = read::refs_s(d)[idx - 1].id_s();
    law_text_edits_keep_sound(d, mid, a);
    read::lemma_text_keeps_shape(d, mid, a);
    law_dropped_paragraph_leaves_its_place(mid, idx, e);
}

} // verus!
