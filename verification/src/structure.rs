//! Splitting, joining, inserting and deleting paragraphs.

use vstd::prelude::*;
use crate::doc;
use crate::doc::{CellBlock, DocV, HostedTable, HostedTableV, TextDoc};
use crate::edits;
use crate::edits::advance;
use crate::error::ModelError;
use crate::sequence;
use crate::grid;
use crate::host;
use crate::import;
use crate::import::chars;
use crate::read;
use crate::read::{host_of, BlockRef};
use crate::runs;
use crate::store;
use crate::store::{BlockId, SegV, StoreV};
use crate::strs;
use crate::strs::{chars_of, opt_clone, string_of};
use crate::types;
use crate::types::{clone_run_vec, ParaProps, ParaPropsV, Paragraph, ParagraphV, Run, RunV};
use crate::writing;

verus! {

broadcast use vstd::string::group_string_axioms;

// ---------------------------------------------------------------- the runs from a position on

/// The part of a run that begins at `at` from `pos` on.
pub open spec fn run_from_s(r: RunV, at: usize, pos: usize) -> RunV {
    if at >= pos {
        r
    } else {
        RunV { text: r.text.subrange(pos - at, r.text.len() as int), ..r }
    }
}

/// Whether a run that begins at `at` reaches to `pos` or past it.
pub open spec fn reaches_s(r: RunV, at: usize, pos: usize) -> bool {
    at >= pos || at + r.text.len() > pos
}

/// What the first `n` runs hold from `pos` on; the run across `pos` is cut.
pub open spec fn runs_from_s(v: Seq<RunV>, pos: usize, n: nat) -> Seq<RunV>
    decreases n,
{
    if n == 0 {
        Seq::empty()
    } else {
        let r = runs_from_s(v, pos, (n - 1) as nat);
        let at = edits::offset_s(v, (n - 1) as nat);
        if reaches_s(v[n - 1], at, pos) {
            r.push(run_from_s(v[n - 1], at, pos))
        } else {
            r
        }
    }
}

fn runs_from(v: &Vec<Run>, pos: usize) -> (r: Vec<Run>)
    ensures
        types::run_vs(r@) == runs_from_s(types::run_vs(v@), pos, v@.len()),
{
    let ghost w = types::run_vs(v@);
    let mut out: Vec<Run> = Vec::new();
    assert(types::run_vs(out@) =~= Seq::empty());
    let mut at: usize = 0;
    let mut i: usize = 0;
    while i < v.len()
        invariant
            i <= v@.len(),
            w == types::run_vs(v@),
            at == edits::offset_s(w, i as nat),
            types::run_vs(out@) == runs_from_s(w, pos, i as nat),
        decreases v@.len() - i,
    {
        assert(w[i as int] == v@[i as int]@);
        proof {
            edits::lemma_offset(w, i as nat);
        }
        let n = v[i].text.as_str().unicode_len();
        let ghost was = out@;
        if at >= pos {
            out.push(v[i].clone());
            assert(types::run_vs(out@) =~= types::run_vs(was).push(w[i as int]));
        } else if n > pos - at {
            let c = chars_of(v[i].text.as_str());
            let mut r = v[i].clone();
            r.text = string_of(&c, pos - at, c.len());
            out.push(r);
            assert(types::run_vs(out@) =~= types::run_vs(was).push(
                run_from_s(w[i as int], at, pos),
            ));
        }
        at = advance(at, n);
        i = i + 1;
    }
    out
}

// ---------------------------------------------------------------- runs and the text they come from

proof fn lemma_len_push(v: Seq<RunV>, r: RunV)
    ensures
        import::runs_len_s(v.push(r), v.len() + 1) == import::runs_len_s(v, v.len())
            + r.text.len(),
{
    lemma_len_prefix(v, v.push(r), v.len());
}

proof fn lemma_len_prefix(v: Seq<RunV>, w: Seq<RunV>, n: nat)
    requires
        n <= v.len(),
        n <= w.len(),
        forall|i: int| 0 <= i < n ==> v[i] == w[i],
    ensures
        import::runs_len_s(v, n) == import::runs_len_s(w, n),
    decreases n,
{
    if n > 0 {
        lemma_len_prefix(v, w, (n - 1) as nat);
    }
}

proof fn lemma_runs_len(v: Seq<SegV>, n: nat)
    requires
        n <= v.len(),
    ensures
        import::runs_len_s(runs::runs_s(v, n), runs::runs_s(v, n).len()) == store::flat_s(v, n).len(),
    decreases n,
{
    if n > 0 {
        lemma_runs_len(v, (n - 1) as nat);
        lemma_len_push(runs::runs_s(v, (n - 1) as nat), runs::run_s(v[n - 1]));
    }
}

/// A paragraph's runs hold as many characters as its text.
pub proof fn lemma_chars(d: DocV, id: BlockId)
    requires
        d.s.texts.contains_key(id),
    ensures
        import::chars_s(read::runs_of_s(d, id)) == grid::sat_s(doc::text_s(d, id).len() as int),
{
    lemma_runs_len(d.s.texts[id], d.s.texts[id].len());
}

// ---------------------------------------------------------------- places

/// The place of a root, from `i` on; the number of roots where it is none.
pub open spec fn root_pos_s(roots: Seq<BlockId>, id: BlockId, i: int) -> int
    decreases roots.len() - i,
{
    if i < 0 || i >= roots.len() {
        roots.len() as int
    } else if roots[i] == id {
        i
    } else {
        root_pos_s(roots, id, i + 1)
    }
}

/// The place of a block among the cell paragraphs of a table, from `i` on.
pub open spec fn cell_pos_s(cells: Seq<CellBlock>, id: BlockId, i: int) -> int
    decreases cells.len() - i,
{
    if i < 0 || i >= cells.len() {
        cells.len() as int
    } else if cells[i].id == id {
        i
    } else {
        cell_pos_s(cells, id, i + 1)
    }
}

fn cell_pos(cells: &Vec<CellBlock>, id: BlockId) -> (r: usize)
    ensures
        r == cell_pos_s(cells@, id, 0),
        r <= cells@.len(),
{
    let mut i: usize = 0;
    while i < cells.len()
        invariant
            i <= cells@.len(),
            cell_pos_s(cells@, id, 0) == cell_pos_s(cells@, id, i as int),
        decreases cells@.len() - i,
    {
        if cells[i].id == id {
            return i;
        }
        i = i + 1;
    }
    i
}

/// The tables with other cell paragraphs for the one that `node` hosts.
pub open spec fn with_cells_s(tables: Seq<HostedTableV>, node: BlockId, cells: Seq<CellBlock>) -> Seq<
    HostedTableV,
> {
    match read::host_s(tables, node, 0) {
        Some(k) => tables.update(k, HostedTableV { cells, ..tables[k] }),
        None => tables,
    }
}

/// The cell paragraphs with one more.
pub open spec fn cell_added_s(d: DocV, node: BlockId, at: int, c: CellBlock) -> Seq<HostedTableV> {
    with_cells_s(d.tables, node, read::cells_s(d, node).insert(at, c))
}

/// The cell paragraphs without one.
pub open spec fn cell_removed_s(d: DocV, node: BlockId, id: BlockId) -> Seq<HostedTableV> {
    let cells = read::cells_s(d, node);
    let at = cell_pos_s(cells, id, 0);
    if at < cells.len() {
        with_cells_s(d.tables, node, cells.remove(at))
    } else {
        d.tables
    }
}

/// A paragraph with a style and runs, and nothing else set.
pub open spec fn plain_paragraph_s(style: Option<Seq<char>>, v: Seq<RunV>) -> ParagraphV {
    ParagraphV {
        style,
        props: ParaPropsV::initial(),
        runs: v,
        prop_change: None,
        mark_change: None,
    }
}

/// Whether `e` is `d` with a new paragraph before (`after == 0`) or after (`after == 1`) another:
/// beside it at the root, or in the same cell.
pub open spec fn beside_s(
    d: DocV,
    b: BlockRef,
    after: int,
    style: Option<Seq<char>>,
    v: Seq<RunV>,
    id: BlockId,
    e: DocV,
) -> bool {
    match b {
        BlockRef::Top(t) => writing::root_filled_s(
            d,
            root_pos_s(d.s.roots, t, 0) + after,
            id,
            writing::body_meta_s(style),
            v,
            e,
        ),
        BlockRef::Cell { node, row, col, id: c } => {
            &&& host::child_filled_s(
                d,
                node,
                id,
                plain_paragraph_s(style, v),
                DocV { tables: d.tables, ..e },
            )
            &&& e.tables == cell_added_s(
                d,
                node,
                cell_pos_s(read::cells_s(d, node), c, 0) + after,
                CellBlock { row, col, id },
            )
        },
    }
}

/// Whether the root that a paragraph belongs to is one of the document's.
pub open spec fn standing_s(d: DocV, b: BlockRef) -> bool {
    match b {
        BlockRef::Top(t) => d.s.roots.contains(t),
        BlockRef::Cell { node, row, col, id } => d.s.roots.contains(node),
    }
}

/// Whether `e` is `d` without a paragraph; what its block held is left open.
pub open spec fn paragraph_dropped_s(d: DocV, b: BlockRef, e: DocV) -> bool {
    match b {
        BlockRef::Top(t) => doc::block_dropped_s(d, t, e),
        BlockRef::Cell { node, row, col, id } => {
            &&& doc::block_dropped_s(d, id, DocV { tables: d.tables, ..e })
            &&& e.tables == cell_removed_s(d, node, id)
        },
    }
}

impl TextDoc {
    fn root_pos(&self, id: BlockId) -> (r: usize)
        ensures
            r == root_pos_s(self@.s.roots, id, 0),
            self@.s.roots.len() <= usize::MAX,
    {
        let roots = self.roots();
        let mut i: usize = 0;
        while i < roots.len()
            invariant
                i <= roots@.len(),
                roots@ == self@.s.roots,
                root_pos_s(roots@, id, 0) == root_pos_s(roots@, id, i as int),
            decreases roots@.len() - i,
        {
            if roots[i] == id {
                return i;
            }
            i = i + 1;
        }
        i
    }

    /// List a block among the cell paragraphs of a table.
    fn list_cell(&mut self, node: BlockId, at: usize, c: CellBlock)
        requires
            read::host_s(old(self)@.tables, node, 0) is Some,
            at <= read::cells_s(old(self)@, node).len(),
        ensures
            final(self)@ == (DocV {
                tables: cell_added_s(old(self)@, node, at as int, c),
                ..old(self)@
            }),
    {
        let ghost was = self@.tables;
        let k = match host_of(self.tables(), node) {
            Some(k) => k,
            None => {
                return;
            },
        };
        let mut all = self.take_tables();
        assert(doc::hosted_table_vs(all@) == was);
        assert(was[k as int] == all@[k as int]@);
        let mut t = HostedTable {
            node,
            grid: grid::TableGrid::default(),
            cells: Vec::new(),
        };
        std::mem::swap(&mut all[k], &mut t);
        let ghost tv = t@;
        t.cells.insert(at, c);
        std::mem::swap(&mut all[k], &mut t);
        assert(doc::hosted_table_vs(all@) =~= was.update(
            k as int,
            HostedTableV { cells: tv.cells.insert(at as int, c), ..tv },
        ));
        self.set_tables(all);
    }

    /// Take a block off the cell paragraphs of a table.
    fn unlist_cell(&mut self, node: BlockId, id: BlockId)
        ensures
            final(self)@ == (DocV { tables: cell_removed_s(old(self)@, node, id), ..old(self)@ }),
    {
        let ghost was = self@.tables;
        let k = match host_of(self.tables(), node) {
            Some(k) => k,
            None => {
                return;
            },
        };
        let mut all = self.take_tables();
        assert(doc::hosted_table_vs(all@) == was);
        assert(was[k as int] == all@[k as int]@);
        let mut t = HostedTable {
            node,
            grid: grid::TableGrid::default(),
            cells: Vec::new(),
        };
        std::mem::swap(&mut all[k], &mut t);
        let ghost tv = t@;
        let at = cell_pos(&t.cells, id);
        if at < t.cells.len() {
            t.cells.remove(at);
        }
        let ghost after = t@;
        std::mem::swap(&mut all[k], &mut t);
        assert(doc::hosted_table_vs(all@) =~= was.update(k as int, after));
        assert(at >= tv.cells.len() ==> was.update(k as int, after) =~= was);
        self.set_tables(all);
    }

    /// Put a new paragraph beside another.
    fn put_beside(&mut self, b: BlockRef, after: usize, style: &Option<String>, v: &Vec<Run>) -> (r:
        Result<BlockId, ModelError>)
        requires
            after <= 1,
            b matches BlockRef::Cell { node, row, col, id } ==> read::host_s(
                old(self)@.tables,
                node,
                0,
            ) is Some && cell_pos_s(read::cells_s(old(self)@, node), id, 0) < read::cells_s(
                old(self)@,
                node,
            ).len(),
        ensures
            old(self)@.s.editable && standing_s(old(self)@, b) && writing::insertable_s(
                old(self)@.s.marks,
                0,
                types::run_vs(v@),
            ) ==> r is Ok,
            r matches Ok(id) ==> beside_s(
                old(self)@,
                b,
                after as int,
                strs::opt_s(*style),
                types::run_vs(v@),
                id,
                final(self)@,
            ),
            r matches Err(e) ==> e == ModelError::Store,
    {
        match b {
            BlockRef::Top(t) => {
                let at = self.root_pos(t);
                proof {
                    if self@.s.roots.contains(t) {
                        let k = choose|k: int| 0 <= k < self@.s.roots.len() && self@.s.roots[k] == t;
                        lemma_root_pos(self@.s.roots, t, 0, k);
                    }
                }
                let ghost roots = self@.s.roots;
                if after > usize::MAX - at {
                    return Err(ModelError::Store);
                }
                let id = match self.add_root_at(at + after) {
                    Ok(id) => id,
                    Err(e) => {
                        return Err(e);
                    },
                };
                assert(self@.s.roots[at + after] == id);
                match self.fill_body(id, v, style) {
                    Ok(()) => Ok(id),
                    Err(e) => Err(e),
                }
            },
            BlockRef::Cell { node, row, col, id: c } => {
                let ghost d = self@;
                let p = Paragraph {
                    style: opt_clone(style),
                    props: ParaProps::default(),
                    runs: clone_run_vec(v),
                    prop_change: None,
                    mark_change: None,
                };
                assert(p@ == plain_paragraph_s(strs::opt_s(*style), types::run_vs(v@)));
                let id = match self.add_cell_block(node, &p) {
                    Ok(id) => id,
                    Err(e) => {
                        return Err(e);
                    },
                };
                let at = self.cell_place(node, c);
                self.list_cell(node, at + after, CellBlock { row, col, id });
                Ok(id)
            },
        }
    }

    fn cell_place(&self, node: BlockId, id: BlockId) -> (r: usize)
        requires
            read::host_s(self@.tables, node, 0) is Some,
            cell_pos_s(read::cells_s(self@, node), id, 0) < read::cells_s(self@, node).len(),
        ensures
            r == cell_pos_s(read::cells_s(self@, node), id, 0),
            r < usize::MAX,
    {
        let tables = self.tables();
        match host_of(tables, node) {
            Some(k) => {
                assert(doc::hosted_table_vs(tables@)[k as int].cells == tables@[k as int].cells@);
                let n = tables[k].cells.len();
                cell_pos(&tables[k].cells, id)
            },
            None => 0,
        }
    }

    /// Cut a paragraph's text at `pos`.
    fn cut_tail(&mut self, id: BlockId, pos: usize, total: usize) -> (r: Result<(), ModelError>)
        requires
            total == import::chars_s(read::runs_of_s(old(self)@, id)),
        ensures
            doc::writable_s(old(self)@, id) ==> r is Ok,
            r is Ok ==> truncated_s(old(self)@, id, pos, final(self)@),
            r is Ok ==> final(self)@.s == (StoreV {
                texts: final(self)@.s.texts,
                plain: final(self)@.s.plain,
                typed: final(self)@.s.typed,
                anchors: final(self)@.s.anchors,
                ..old(self)@.s
            }) && final(self)@.tables == old(self)@.tables,
            r matches Err(e) ==> e == ModelError::Store,
    {
        proof {
            if self@.s.texts.contains_key(id) {
                lemma_chars(self@, id);
            }
        }
        if pos < total {
            self.cut_text(id, pos, total - pos)
        } else {
            Ok(())
        }
    }

    /// Remove a paragraph.
    fn drop_paragraph(&mut self, b: BlockRef) -> (r: Result<(), ModelError>)
        ensures
            old(self)@.s.editable && store::live_s(old(self)@.s, b.id_s()) ==> r is Ok,
            r is Ok ==> paragraph_dropped_s(old(self)@, b, final(self)@),
            r matches Err(e) ==> e == ModelError::Store,
    {
        match b {
            BlockRef::Top(t) => self.drop_block(t),
            BlockRef::Cell { node, row: _, col: _, id } => {
                let ghost d = self@;
                match self.drop_block(id) {
                    Ok(()) => {},
                    Err(e) => {
                        return Err(e);
                    },
                }
                self.unlist_cell(node, id);
                Ok(())
            },
        }
    }
}

// ---------------------------------------------------------------- a cell paragraph has its place

proof fn lemma_root_pos(roots: Seq<BlockId>, id: BlockId, i: int, k: int)
    requires
        0 <= i <= k < roots.len(),
        roots[k] == id,
    ensures
        root_pos_s(roots, id, i) <= k,
    decreases k - i,
{
    if i < k && roots[i] != id {
        lemma_root_pos(roots, id, i + 1, k);
    }
}

proof fn lemma_cell_pos(cells: Seq<CellBlock>, id: BlockId, i: int, k: int)
    requires
        0 <= i <= k < cells.len(),
        cells[k].id == id,
    ensures
        cell_pos_s(cells, id, i) <= k,
    decreases k - i,
{
    if i < k && cells[i].id != id {
        lemma_cell_pos(cells, id, i + 1, k);
    }
}

proof fn lemma_ref_place_n(d: DocV, n: nat, i: int)
    requires
        n <= d.s.roots.len(),
        0 <= i < read::refs_n_s(d, n).len(),
    ensures
        read::refs_n_s(d, n)[i] matches BlockRef::Cell { node, row, col, id } ==> read::host_s(
            d.tables,
            node,
            0,
        ) is Some && cell_pos_s(read::cells_s(d, node), id, 0) < read::cells_s(d, node).len(),
        standing_s(d, read::refs_n_s(d, n)[i]),
    decreases n,
{
    let before = read::refs_n_s(d, (n - 1) as nat);
    let node = d.s.roots[n - 1];
    if i < before.len() {
        lemma_ref_place_n(d, (n - 1) as nat, i);
    } else {
        let k = i - before.len();
        let more = read::node_refs_s(d, node);
        assert(read::refs_n_s(d, n)[i] == more[k]);
        assert(d.s.roots.contains(node));
        if read::is_table_s(d.s.metas[node]) {
            let cells = read::cells_s(d, node);
            assert(more[k] == read::cell_ref_s(node, cells[k]));
            lemma_cell_pos(cells, cells[k].id, 0, k);
        }
    }
}

/// A cell paragraph of the flat sequence is listed by the table that its node hosts.
pub proof fn lemma_ref_place(d: DocV, i: int)
    requires
        0 <= i < read::refs_s(d).len(),
    ensures
        read::refs_s(d)[i] matches BlockRef::Cell { node, row, col, id } ==> read::host_s(
            d.tables,
            node,
            0,
        ) is Some && cell_pos_s(read::cells_s(d, node), id, 0) < read::cells_s(d, node).len(),
        standing_s(d, read::refs_s(d)[i]),
{
    lemma_ref_place_n(d, d.s.roots.len(), i);
}

// ---------------------------------------------------------------- the operations

/// Whether `e` is `d` with a paragraph cut at `pos`.
pub open spec fn truncated_s(d: DocV, id: BlockId, pos: usize, e: DocV) -> bool {
    let total = import::chars_s(read::runs_of_s(d, id));
    if pos < total {
        doc::text_cut_s(d, id, pos as int, total - pos, e)
    } else {
        e == d
    }
}

/// Whether `e` is `d` with the paragraph at `idx` split at `pos`: it keeps what stands before
/// `pos`, and a new paragraph of the same style right after it holds the rest.
pub open spec fn split_done_s(d: DocV, idx: int, pos: usize, mid: DocV, id: BlockId, e: DocV) -> bool {
    let b = read::refs_s(d)[idx];
    let p = read::paragraph_s(d, b.id_s());
    &&& truncated_s(d, b.id_s(), pos, mid)
    &&& beside_s(mid, b, 1, p.style, runs_from_s(p.runs, pos, p.runs.len()), id, e)
}

/// Split a paragraph at a position. The new paragraph takes the style over; past the last
/// paragraph there is nothing to split.
#[verifier::rlimit(40)]
pub fn split_paragraph(doc: &mut TextDoc, idx: usize, pos: usize) -> (r: Result<(), ModelError>)
    ensures
        sequence::sound_s(old(doc)@) && r is Ok ==> sequence::sound_s(final(doc)@),
        idx < read::refs_s(old(doc)@).len() && doc::writable_s(
            old(doc)@,
            read::block_s(old(doc)@, idx as int),
        ) && writing::insertable_s(
            old(doc)@.s.marks,
            0,
            runs_from_s(
                read::runs_of_s(old(doc)@, read::block_s(old(doc)@, idx as int)),
                pos,
                read::runs_of_s(old(doc)@, read::block_s(old(doc)@, idx as int)).len(),
            ),
        ) ==> r is Ok,
        idx >= read::refs_s(old(doc)@).len() ==> r == Err::<(), ModelError>(ModelError::NoBlock)
            && final(doc)@ == old(doc)@,
        idx < read::refs_s(old(doc)@).len() ==> (r matches Err(e) ==> e == ModelError::Store),
        r is Ok ==> exists|mid: DocV, id: BlockId| #[trigger]
            split_done_s(old(doc)@, idx as int, pos, mid, id, final(doc)@),
{
    let ghost d = doc@;
    let b = match doc.block_ref_at(idx) {
        Some(b) => b,
        None => {
            return Err(ModelError::NoBlock);
        },
    };
    let para = doc.read_paragraph(b.id());
    let tail = runs_from(&para.runs, pos);
    let total = chars(&para.runs);
    proof {
        lemma_ref_place(d, idx as int);
    }
    match doc.cut_tail(b.id(), pos, total) {
        Ok(()) => {},
        Err(e) => {
            return Err(e);
        },
    }
    let ghost mid = doc@;
    match doc.put_beside(b, 1, &para.style, &tail) {
        Ok(id) => {
            proof {
                assert(split_done_s(d, idx as int, pos, mid, id, doc@));
                if sequence::sound_s(d) {
                    sequence::law_split_keeps_sound(d, idx as int, pos, mid, id, doc@);
                }
            }
            Ok(())
        },
        Err(e) => Err(e),
    }
}

/// Whether two paragraphs stand in one container: both in the body, or both in one cell.
pub open spec fn same_container_s(a: BlockRef, b: BlockRef) -> bool {
    match (a, b) {
        (BlockRef::Top(_), BlockRef::Top(_)) => true,
        (
            BlockRef::Cell { node: n1, row: r1, col: c1, id: _ },
            BlockRef::Cell { node: n2, row: r2, col: c2, id: _ },
        ) => n1 == n2 && r1 == r2 && c1 == c2,
        _ => false,
    }
}

fn same_container(a: &BlockRef, b: &BlockRef) -> (r: bool)
    ensures
        r == same_container_s(*a, *b),
{
    match a {
        BlockRef::Top(_) => match b {
            BlockRef::Top(_) => true,
            BlockRef::Cell { node: _, row: _, col: _, id: _ } => false,
        },
        BlockRef::Cell { node: n1, row: r1, col: c1, id: _ } => match b {
            BlockRef::Top(_) => false,
            BlockRef::Cell { node: n2, row: r2, col: c2, id: _ } => *n1 == *n2 && *r1 == *r2 && *c1
                == *c2,
        },
    }
}

/// Whether `e` is `d` with the paragraph at `idx` joined to the one before it: its runs written
/// at the end of that one's text, and the paragraph itself removed.
pub open spec fn join_done_s(d: DocV, idx: int, mid: DocV, e: DocV) -> bool {
    let a = read::refs_s(d)[idx - 1];
    let b = read::refs_s(d)[idx];
    &&& writing::runs_written_s(
        d,
        a.id_s(),
        import::chars_s(read::runs_of_s(d, a.id_s())) as int,
        read::runs_of_s(d, b.id_s()),
        mid,
    )
    &&& paragraph_dropped_s(mid, b, e)
}

/// Join a paragraph to the one before it. Answers how long that one was, which is where the
/// caret stands afterwards. The first paragraph has none before it, and nothing is joined across
/// the bounds of a cell.
#[verifier::rlimit(40)]
pub fn join_paragraph(doc: &mut TextDoc, idx: usize) -> (r: Result<usize, ModelError>)
    ensures
        sequence::sound_s(old(doc)@) && r is Ok ==> sequence::sound_s(final(doc)@),
        0 < idx < read::refs_s(old(doc)@).len() && same_container_s(
            read::refs_s(old(doc)@)[idx - 1],
            read::refs_s(old(doc)@)[idx as int],
        ) && doc::writable_s(old(doc)@, read::block_s(old(doc)@, idx - 1)) && store::live_s(
            old(doc)@.s,
            read::block_s(old(doc)@, idx as int),
        ) && writing::insertable_s(
            old(doc)@.s.marks,
            import::chars_s(read::runs_of_s(old(doc)@, read::block_s(old(doc)@, idx - 1))) as int,
            read::runs_of_s(old(doc)@, read::block_s(old(doc)@, idx as int)),
        ) ==> r is Ok,
        idx == 0 ==> r == Err::<usize, ModelError>(ModelError::FirstBlock) && final(doc)@ == old(
            doc,
        )@,
        idx > 0 && idx >= read::refs_s(old(doc)@).len() ==> r == Err::<usize, ModelError>(
            ModelError::NoBlock,
        ) && final(doc)@ == old(doc)@,
        0 < idx < read::refs_s(old(doc)@).len() && !same_container_s(
            read::refs_s(old(doc)@)[idx - 1],
            read::refs_s(old(doc)@)[idx as int],
        ) ==> r == Err::<usize, ModelError>(ModelError::CellBoundary) && final(doc)@ == old(doc)@,
        0 < idx < read::refs_s(old(doc)@).len() && same_container_s(
            read::refs_s(old(doc)@)[idx - 1],
            read::refs_s(old(doc)@)[idx as int],
        ) && edits::text_block_s(old(doc)@, idx - 1) is None ==> r == Err::<usize, ModelError>(
            ModelError::NoBlock,
        ) && final(doc)@ == old(doc)@,
        0 < idx < read::refs_s(old(doc)@).len() && same_container_s(
            read::refs_s(old(doc)@)[idx - 1],
            read::refs_s(old(doc)@)[idx as int],
        ) && edits::text_block_s(old(doc)@, idx - 1) is Some ==> (r matches Err(e) ==> e
            == ModelError::Store),
        r matches Ok(n) ==> n == import::chars_s(
            read::runs_of_s(old(doc)@, read::block_s(old(doc)@, idx - 1)),
        ) && exists|mid: DocV| #[trigger]
            join_done_s(old(doc)@, idx as int, mid, final(doc)@),
{
    if idx == 0 {
        return Err(ModelError::FirstBlock);
    }
    let ghost d = doc@;
    let refs = doc.block_seq();
    if idx >= refs.len() {
        return Err(ModelError::NoBlock);
    }
    let a = refs[idx - 1];
    let b = refs[idx];
    if !same_container(&a, &b) {
        return Err(ModelError::CellBoundary);
    }
    let into = match doc.text_block(idx - 1) {
        Ok(id) => id,
        Err(e) => {
            return Err(e);
        },
    };
    let prev = doc.read_paragraph(a.id());
    let cur = doc.read_paragraph(b.id());
    let len = chars(&prev.runs);
    proof {
        lemma_chars(d, into);
    }
    match doc.append_runs(into, len, &cur.runs) {
        Ok(()) => {},
        Err(e) => {
            return Err(e);
        },
    }
    let ghost mid = doc@;
    match doc.drop_paragraph(b) {
        Ok(()) => {
            proof {
                assert(join_done_s(d, idx as int, mid, doc@));
                if sequence::sound_s(d) {
                    sequence::law_join_keeps_sound(d, idx as int, mid, doc@);
                }
            }
            Ok(len)
        },
        Err(e) => Err(e),
    }
}

/// Whether `e` is `d` with an empty paragraph at `idx`: before the paragraph that stood there, or
/// at the end of the body.
pub open spec fn empty_inserted_s(d: DocV, idx: int, id: BlockId, e: DocV) -> bool {
    if idx < read::refs_s(d).len() {
        beside_s(d, read::refs_s(d)[idx], 0, None, Seq::empty(), id, e)
    } else {
        writing::root_filled_s(
            d,
            d.s.roots.len() as int,
            id,
            writing::body_meta_s(None),
            Seq::empty(),
            e,
        )
    }
}

/// Insert an empty paragraph as the `idx`-th.
pub fn insert_empty_paragraph(doc: &mut TextDoc, idx: usize) -> (r: Result<(), ModelError>)
    ensures
        sequence::sound_s(old(doc)@) && r is Ok ==> sequence::sound_s(final(doc)@),
        old(doc)@.s.editable ==> r is Ok,
        r is Ok ==> exists|id: BlockId| #[trigger]
            empty_inserted_s(old(doc)@, idx as int, id, final(doc)@),
        r matches Err(e) ==> e == ModelError::Store,
{
    let ghost d = doc@;
    let none: Vec<Run> = Vec::new();
    assert(types::run_vs(none@) =~= Seq::empty());
    proof {
        writing::lemma_nothing_insertable(d.s.marks);
    }
    match doc.block_ref_at(idx) {
        Some(b) => {
            proof {
                lemma_ref_place(d, idx as int);
            }
            match doc.put_beside(b, 0, &None, &none) {
                Ok(id) => {
                    proof {
                        if sequence::sound_s(d) {
                            sequence::law_new_paragraph_takes_its_place(
                                d,
                                idx as int,
                                0,
                                None,
                                Seq::empty(),
                                id,
                                doc@,
                            );
                        }
                    }
                    assert(empty_inserted_s(d, idx as int, id, doc@));
                    Ok(())
                },
                Err(e) => Err(e),
            }
        },
        None => {
            let n = doc.roots().len();
            let id = match doc.add_root_at(n) {
                Ok(id) => id,
                Err(e) => {
                    return Err(e);
                },
            };
            assert(doc@.s.roots[n as int] == id);
            match doc.fill_body(id, &none, &None) {
                Ok(()) => {
                    proof {
                        if sequence::sound_s(d) {
                            let m = writing::body_meta_s(None);
                            writing::lemma_body_meta(None);
                            sequence::law_appended_paragraph_keeps_sound(d, id, m, Seq::empty(), doc@);
                        }
                    }
                    assert(empty_inserted_s(d, idx as int, id, doc@));
                    Ok(())
                },
                Err(e) => Err(e),
            }
        },
    }
}

/// Delete a paragraph.
pub fn delete_paragraph(doc: &mut TextDoc, idx: usize) -> (r: Result<(), ModelError>)
    ensures
        sequence::sound_s(old(doc)@) && r is Ok ==> sequence::sound_s(final(doc)@),
        idx < read::refs_s(old(doc)@).len() && old(doc)@.s.editable && store::live_s(
            old(doc)@.s,
            read::block_s(old(doc)@, idx as int),
        ) ==> r is Ok,
        idx >= read::refs_s(old(doc)@).len() ==> r == Err::<(), ModelError>(ModelError::NoBlock)
            && final(doc)@ == old(doc)@,
        idx < read::refs_s(old(doc)@).len() ==> (r matches Err(e) ==> e == ModelError::Store),
        r is Ok ==> paragraph_dropped_s(
            old(doc)@,
            read::refs_s(old(doc)@)[idx as int],
            final(doc)@,
        ),
{
    let ghost d = doc@;
    match doc.block_ref_at(idx) {
        Some(b) => {
            let r = doc.drop_paragraph(b);
            proof {
                if r is Ok && sequence::sound_s(d) {
                    sequence::law_dropped_paragraph_leaves_its_place(d, idx as int, doc@);
                }
            }
            r
        },
        None => Err(ModelError::NoBlock),
    }
}

} // verus!
