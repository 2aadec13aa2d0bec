//! Reading the model out of the document: the flat sequence of paragraphs and the body nodes.

use vstd::prelude::*;
use crate::doc;
use crate::doc::{CellBlock, DocV, HostedTable, HostedTableV, TextDoc};
use crate::error::ModelError;
use crate::props;
use crate::runs;
use crate::runs::runs_from_delta;
use crate::store::{BlockId, PropsV, ScalarV};
use crate::strs::str_eq;
use crate::types;
use crate::types::{Paragraph, ParagraphV, Run, Track};

verus! {

broadcast use vstd::string::group_string_axioms;

/// One item of the document body: a paragraph, or a table that hosts a grid.
#[derive(Debug, Clone, Copy, PartialEq, Eq, Structural)]
pub enum BodyNode {
    Paragraph(BlockId),
    Table(BlockId),
}

/// One paragraph of the flat sequence: a block of the body, or a paragraph of a cell.
#[derive(Debug, Clone, Copy, PartialEq, Eq, Structural)]
pub enum BlockRef {
    Top(BlockId),
    Cell { node: BlockId, row: usize, col: usize, id: BlockId },
}

impl BlockRef {
    /// The block that holds the paragraph.
    pub open spec fn id_s(self) -> BlockId {
        match self {
            BlockRef::Top(id) => id,
            BlockRef::Cell { node, row, col, id } => id,
        }
    }

    pub fn id(&self) -> (r: BlockId)
        ensures
            r == self.id_s(),
    {
        match self {
            BlockRef::Top(id) => *id,
            BlockRef::Cell { node: _, row: _, col: _, id } => *id,
        }
    }
}

/// Whether the properties are those of a table's block.
pub open spec fn is_table_s(m: PropsV) -> bool {
    runs::text_prop_s(m, "type"@) == Some("table"@)
}

/// The place of the table that `node` hosts, from `i` on.
pub open spec fn host_s(tables: Seq<HostedTableV>, node: BlockId, i: int) -> Option<int>
    decreases tables.len() - i,
{
    if i < 0 || i >= tables.len() {
        None
    } else if tables[i].node == node {
        Some(i)
    } else {
        host_s(tables, node, i + 1)
    }
}

/// The cell paragraphs of the table that `node` hosts.
pub open spec fn cells_s(d: DocV, node: BlockId) -> Seq<CellBlock> {
    match host_s(d.tables, node, 0) {
        Some(i) => d.tables[i].cells,
        None => Seq::empty(),
    }
}

pub open spec fn cell_ref_s(node: BlockId, c: CellBlock) -> BlockRef {
    BlockRef::Cell { node, row: c.row, col: c.col, id: c.id }
}

/// The paragraphs that a root block stands for.
pub open spec fn node_refs_s(d: DocV, id: BlockId) -> Seq<BlockRef> {
    if is_table_s(d.s.metas[id]) {
        Seq::new(cells_s(d, id).len(), |i: int| cell_ref_s(id, cells_s(d, id)[i]))
    } else {
        seq![BlockRef::Top(id)]
    }
}

/// The paragraphs of the first `n` roots.
pub open spec fn refs_n_s(d: DocV, n: nat) -> Seq<BlockRef>
    decreases n,
{
    if n == 0 {
        Seq::empty()
    } else {
        refs_n_s(d, (n - 1) as nat) + node_refs_s(d, d.s.roots[n - 1])
    }
}

/// The paragraphs in document order, those of table cells included, row by row.
pub open spec fn refs_s(d: DocV) -> Seq<BlockRef> {
    refs_n_s(d, d.s.roots.len())
}

/// The block of the paragraph at a flat index.
pub open spec fn block_s(d: DocV, i: int) -> BlockId {
    refs_s(d)[i].id_s()
}

/// The paragraph that a block holds.
pub open spec fn paragraph_s(d: DocV, id: BlockId) -> ParagraphV {
    ParagraphV {
        style: runs::text_prop_s(d.s.metas[id], "style"@),
        props: props::para_props_s(d.s.metas[id]),
        runs: runs_of_s(d, id),
        prop_change: props::prop_change_s(d.s.metas[id]),
        mark_change: props::mark_change_s(d.s.metas[id]),
    }
}

/// The runs of a block; none where it has no text.
pub open spec fn runs_of_s(d: DocV, id: BlockId) -> Seq<types::RunV> {
    if d.s.texts.contains_key(id) {
        runs::runs_s(d.s.texts[id], d.s.texts[id].len())
    } else {
        Seq::empty()
    }
}

/// Every paragraph in document order.
pub open spec fn paragraphs_s(d: DocV) -> Seq<ParagraphV> {
    Seq::new(refs_s(d).len(), |i: int| paragraph_s(d, block_s(d, i)))
}

/// What a root block stands for.
pub open spec fn body_node_s(d: DocV, id: BlockId) -> BodyNode {
    if is_table_s(d.s.metas[id]) {
        BodyNode::Table(id)
    } else {
        BodyNode::Paragraph(id)
    }
}

/// The document body in order.
pub open spec fn body_nodes_s(d: DocV) -> Seq<BodyNode> {
    Seq::new(d.s.roots.len(), |i: int| body_node_s(d, d.s.roots[i]))
}

/// The paragraphs among the first `n` roots.
pub open spec fn para_roots_s(d: DocV, n: nat) -> Seq<BlockId>
    decreases n,
{
    if n == 0 {
        Seq::empty()
    } else {
        let r = para_roots_s(d, (n - 1) as nat);
        if is_table_s(d.s.metas[d.s.roots[n - 1]]) {
            r
        } else {
            r.push(d.s.roots[n - 1])
        }
    }
}

/// Whether two documents have the same roots and tables, with the same kind of blocks.
pub open spec fn same_shape_s(d: DocV, e: DocV) -> bool {
    &&& e.s.roots == d.s.roots
    &&& e.tables == d.tables
    &&& forall|id: BlockId| is_table_s(#[trigger] e.s.metas[id]) == is_table_s(d.s.metas[id])
}

proof fn lemma_same_refs_n(d: DocV, e: DocV, n: nat)
    requires
        same_shape_s(d, e),
        n <= d.s.roots.len(),
    ensures
        refs_n_s(e, n) == refs_n_s(d, n),
    decreases n,
{
    if n > 0 {
        lemma_same_refs_n(d, e, (n - 1) as nat);
        let id = d.s.roots[n - 1];
        assert(is_table_s(e.s.metas[id]) == is_table_s(d.s.metas[id]));
        assert(node_refs_s(e, id) =~= node_refs_s(d, id));
    }
}

/// Edits that leave the shape of the document alone leave the flat sequence alone.
pub proof fn lemma_same_refs(d: DocV, e: DocV)
    requires
        same_shape_s(d, e),
    ensures
        refs_s(e) == refs_s(d),
{
    lemma_same_refs_n(d, e, d.s.roots.len());
}

/// A change of one block's text leaves the shape alone.
pub proof fn lemma_text_keeps_shape(d: DocV, e: DocV, id: BlockId)
    requires
        doc::only_text_s(d, e, id),
    ensures
        same_shape_s(d, e),
        refs_s(e) == refs_s(d),
{
    lemma_same_refs(d, e);
}

/// The flat sequence of the first `n` roots rests on those roots alone.
pub proof fn lemma_refs_prefix(d: DocV, e: DocV, n: nat)
    requires
        n <= d.s.roots.len(),
        n <= e.s.roots.len(),
        e.tables == d.tables,
        forall|i: int| 0 <= i < n ==> #[trigger] e.s.roots[i] == d.s.roots[i],
        forall|i: int| 0 <= i < n ==> is_table_s(e.s.metas[#[trigger] d.s.roots[i]]) == is_table_s(
            d.s.metas[d.s.roots[i]],
        ),
    ensures
        refs_n_s(e, n) == refs_n_s(d, n),
    decreases n,
{
    if n > 0 {
        lemma_refs_prefix(d, e, (n - 1) as nat);
        let id = d.s.roots[n - 1];
        assert(e.s.roots[n - 1] == id);
        assert(node_refs_s(e, id) =~= node_refs_s(d, id));
    }
}

/// The place of the table that `node` hosts.
pub(crate) fn host_of(tables: &Vec<HostedTable>, node: BlockId) -> (r: Option<usize>)
    ensures
        (match r {
            Some(i) => Some(i as int),
            None => None,
        }) == host_s(doc::hosted_table_vs(tables@), node, 0),
        r matches Some(i) ==> i < tables@.len() && tables@[i as int].node == node,
{
    let ghost v = doc::hosted_table_vs(tables@);
    let mut i: usize = 0;
    while i < tables.len()
        invariant
            i <= tables@.len(),
            v == doc::hosted_table_vs(tables@),
            host_s(v, node, 0) == host_s(v, node, i as int),
        decreases tables@.len() - i,
    {
        assert(v[i as int].node == tables@[i as int].node);
        if tables[i].node == node {
            return Some(i);
        }
        i = i + 1;
    }
    None
}

impl TextDoc {
    /// Whether a block hosts a table.
    pub(crate) fn is_table(&self, id: BlockId) -> (r: bool)
        ensures
            r == is_table_s(self@.s.metas[id]),
    {
        match self.meta_string(id, "type") {
            Some(t) => str_eq(t.as_str(), "table"),
            None => false,
        }
    }

    /// The paragraphs in document order.
    pub(crate) fn block_seq(&self) -> (r: Vec<BlockRef>)
        ensures
            r@ == refs_s(self@),
    {
        let roots = self.roots();
        let mut out: Vec<BlockRef> = Vec::new();
        let mut i: usize = 0;
        while i < roots.len()
            invariant
                i <= roots@.len(),
                roots@ == self@.s.roots,
                out@ == refs_n_s(self@, i as nat),
            decreases roots@.len() - i,
        {
            let ghost was = out@;
            if self.is_table(roots[i]) {
                self.push_cells(roots[i], &mut out);
            } else {
                out.push(BlockRef::Top(roots[i]));
                assert(out@ =~= was + seq![BlockRef::Top(roots@[i as int])]);
            }
            i = i + 1;
        }
        out
    }

    fn push_cells(&self, node: BlockId, out: &mut Vec<BlockRef>)
        requires
            is_table_s(self@.s.metas[node]),
        ensures
            final(out)@ == old(out)@ + node_refs_s(self@, node),
    {
        let tables = self.tables();
        let ghost was = out@;
        match host_of(tables, node) {
            Some(k) => {
                let cells = &tables[k].cells;
                assert(cells@ == cells_s(self@, node)) by {
                    assert(doc::hosted_table_vs(tables@)[k as int].cells == tables@[k as int].cells@);
                }
                let mut i: usize = 0;
                while i < cells.len()
                    invariant
                        i <= cells@.len(),
                        out@ =~= was + Seq::new(i as nat, |j: int| cell_ref_s(node, cells@[j])),
                    decreases cells@.len() - i,
                {
                    let c = cells[i];
                    out.push(BlockRef::Cell { node, row: c.row, col: c.col, id: c.id });
                    i = i + 1;
                }
                assert(out@ =~= was + node_refs_s(self@, node));
            },
            None => {
                assert(out@ =~= was + node_refs_s(self@, node));
            },
        }
    }

    /// The paragraph at a flat index.
    pub(crate) fn block_ref_at(&self, idx: usize) -> (r: Option<BlockRef>)
        ensures
            r == (if idx < refs_s(self@).len() {
                Some(refs_s(self@)[idx as int])
            } else {
                None
            }),
    {
        let v = self.block_seq();
        if idx < v.len() {
            Some(v[idx])
        } else {
            None
        }
    }

    /// The block of the paragraph at a flat index.
    pub(crate) fn nth_block(&self, idx: usize) -> (r: Result<BlockId, ModelError>)
        ensures
            r == (if idx < refs_s(self@).len() {
                Ok(block_s(self@, idx as int))
            } else {
                Err(ModelError::NoBlock)
            }),
    {
        match self.block_ref_at(idx) {
            Some(b) => Ok(b.id()),
            None => Err(ModelError::NoBlock),
        }
    }

    /// The paragraph that a block holds.
    pub(crate) fn read_paragraph(&self, id: BlockId) -> (r: Paragraph)
        ensures
            r@ == paragraph_s(self@, id),
    {
        let runs = match self.segs(id) {
            Some(v) => runs_from_delta(&v),
            None => {
                let none: Vec<Run> = Vec::new();
                assert(types::run_vs(none@) =~= Seq::empty());
                none
            },
        };
        Paragraph {
            style: self.meta_string(id, "style"),
            props: self.read_para_props(id),
            runs,
            prop_change: self.read_para_prop_change(id),
            mark_change: self.read_para_mark(id),
        }
    }

    fn paragraph_roots(&self) -> (r: Vec<BlockId>)
        ensures
            r@ == para_roots_s(self@, self@.s.roots.len()),
    {
        let roots = self.roots();
        let mut out: Vec<BlockId> = Vec::new();
        let mut i: usize = 0;
        while i < roots.len()
            invariant
                i <= roots@.len(),
                roots@ == self@.s.roots,
                out@ == para_roots_s(self@, i as nat),
            decreases roots@.len() - i,
        {
            if !self.is_table(roots[i]) {
                out.push(roots[i]);
            }
            i = i + 1;
        }
        out
    }
}

/// Every paragraph in document order.
pub fn read_paragraphs(doc: &TextDoc) -> (r: Result<Vec<Paragraph>, ModelError>)
    ensures
        r matches Ok(v) && types::paragraph_vs(v@) == paragraphs_s(doc@),
{
    let refs = doc.block_seq();
    let mut out: Vec<Paragraph> = Vec::new();
    let mut i: usize = 0;
    while i < refs.len()
        invariant
            i <= refs@.len(),
            refs@ == refs_s(doc@),
            out@.len() == i,
            forall|j: int| 0 <= j < i ==> (#[trigger] out@[j])@ == paragraph_s(
                doc@,
                block_s(doc@, j),
            ),
        decreases refs@.len() - i,
    {
        out.push(doc.read_paragraph(refs[i].id()));
        i = i + 1;
    }
    assert(types::paragraph_vs(out@) =~= paragraphs_s(doc@));
    Ok(out)
}

/// The document body in order: paragraphs and tables.
pub fn body_nodes(doc: &TextDoc) -> (r: Vec<BodyNode>)
    ensures
        r@ == body_nodes_s(doc@),
{
    let roots = doc.roots();
    let mut out: Vec<BodyNode> = Vec::new();
    let mut i: usize = 0;
    while i < roots.len()
        invariant
            i <= roots@.len(),
            roots@ == doc@.s.roots,
            out@.len() == i,
            forall|j: int| 0 <= j < i ==> #[trigger] out@[j] == body_node_s(doc@, doc@.s.roots[j]),
        decreases roots@.len() - i,
    {
        if doc.is_table(roots[i]) {
            out.push(BodyNode::Table(roots[i]));
        } else {
            out.push(BodyNode::Paragraph(roots[i]));
        }
        i = i + 1;
    }
    assert(out@ =~= body_nodes_s(doc@));
    out
}

proof fn lemma_para_root(d: DocV, n: nat, i: int)
    requires
        n <= d.s.roots.len(),
        0 <= i < para_roots_s(d, n).len(),
    ensures
        d.s.roots.contains(para_roots_s(d, n)[i]),
    decreases n,
{
    let r = para_roots_s(d, (n - 1) as nat);
    if i < r.len() {
        lemma_para_root(d, (n - 1) as nat, i);
    } else {
        assert(d.s.roots[n - 1] == para_roots_s(d, n)[i]);
    }
}

/// Set the revision of the mark of the `idx`-th paragraph of the body, tables left out. A
/// format change is refused.
pub fn set_para_mark(doc: &mut TextDoc, idx: usize, m: &Track) -> (r: Result<(), ModelError>)
    ensures
        idx < para_roots_s(old(doc)@, old(doc)@.s.roots.len()).len() && !(m@.kind is Fmt) && old(
            doc,
        )@.s.editable ==> r is Ok,
        idx >= para_roots_s(old(doc)@, old(doc)@.s.roots.len()).len() ==> r == Err::<
            (),
            ModelError,
        >(ModelError::NoBlock) && final(doc)@ == old(doc)@,
        idx < para_roots_s(old(doc)@, old(doc)@.s.roots.len()).len() && m@.kind is Fmt ==> r == Err::<
            (),
            ModelError,
        >(ModelError::BadMark) && final(doc)@ == old(doc)@,
        idx < para_roots_s(old(doc)@, old(doc)@.s.roots.len()).len() && !(m@.kind is Fmt) ==> (
        r matches Err(e) ==> e == ModelError::Store),
        r is Ok ==> final(doc)@ == doc::meta_set_s(
            old(doc)@,
            para_roots_s(old(doc)@, old(doc)@.s.roots.len())[idx as int],
            "pmark"@,
            ScalarV::Text(props::mark_text_s(props::kind_name_s(m@.kind)->0, m@)),
        ),
{
    let roots = doc.paragraph_roots();
    if idx >= roots.len() {
        return Err(ModelError::NoBlock);
    }
    proof {
        lemma_para_root(doc@, doc@.s.roots.len(), idx as int);
    }
    doc.write_para_mark(roots[idx], m)
}

/// Clear the revision of the mark of the `idx`-th paragraph of the body, tables left out.
pub fn clear_para_mark(doc: &mut TextDoc, idx: usize) -> (r: Result<(), ModelError>)
    ensures
        idx < para_roots_s(old(doc)@, old(doc)@.s.roots.len()).len() && old(doc)@.s.editable
            ==> r is Ok,
        idx >= para_roots_s(old(doc)@, old(doc)@.s.roots.len()).len() ==> r == Err::<
            (),
            ModelError,
        >(ModelError::NoBlock) && final(doc)@ == old(doc)@,
        idx < para_roots_s(old(doc)@, old(doc)@.s.roots.len()).len() ==> (r matches Err(e) ==> e
            == ModelError::Store),
        r is Ok ==> final(doc)@ == doc::meta_cleared_s(
            old(doc)@,
            para_roots_s(old(doc)@, old(doc)@.s.roots.len())[idx as int],
            "pmark"@,
        ),
{
    let roots = doc.paragraph_roots();
    if idx >= roots.len() {
        return Err(ModelError::NoBlock);
    }
    proof {
        props::lemma_change_keys();
        lemma_para_root(doc@, doc@.s.roots.len(), idx as int);
    }
    doc.clear_meta(roots[idx], "pmark")
}

} // verus!
