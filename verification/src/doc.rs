//! The document: a store and the tables hosted in it.

use vstd::prelude::*;
use crate::error::ModelError;
use crate::sequence;
use crate::grid;
use crate::grid::{TableGrid, TableGridV};
use crate::store;
use crate::store::{
    commit_doc, config_marks, cursor_place, map_delete, map_put, map_values, meta_delete, meta_put, meta_value, meta_values,
    nested_make, nested_put, nested_values, new_doc, scalar_of, text_create, text_cursor, text_delete, text_mark, text_put,
    text_unmark, text_value, tree_create, tree_create_at, tree_delete, tree_entries, value_of,
    BlockId, PropsV, RawSeg, Scalar, ScalarV, SegV, Side, StoreV,
};
use crate::strs::str_eq;

verus! {

broadcast use vstd::string::group_string_axioms;

/// A paragraph of a cell: the cell's place in the grid and the block that holds the text.
#[derive(Debug, Clone, Copy, PartialEq, Eq, Structural)]
pub struct CellBlock {
    pub row: usize,
    pub col: usize,
    pub id: BlockId,
}

/// A table hosted in the document: its block, its structure (rows, columns and cells without
/// their paragraphs), and the blocks of the cells' paragraphs, row by row.
pub struct HostedTable {
    pub node: BlockId,
    pub grid: TableGrid,
    pub cells: Vec<CellBlock>,
}

/// The mathematical value of a [`HostedTable`].
#[verifier::ext_equal]
pub struct HostedTableV {
    pub node: BlockId,
    pub grid: TableGridV,
    pub cells: Seq<CellBlock>,
}

impl View for HostedTable {
    type V = HostedTableV;

    open spec fn view(&self) -> HostedTableV {
        HostedTableV { node: self.node, grid: self.grid@, cells: self.cells@ }
    }
}

pub open spec fn hosted_table_vs(s: Seq<HostedTable>) -> Seq<HostedTableV> {
    Seq::new(s.len(), |i: int| s[i]@)
}

/// A word-processing document.
pub struct TextDoc {
    doc: loro::LoroDoc,
    tables: Vec<HostedTable>,
}

/// The mathematical value of a [`TextDoc`].
#[verifier::ext_equal]
pub struct DocV {
    pub s: StoreV,
    pub tables: Seq<HostedTableV>,
}

impl View for TextDoc {
    type V = DocV;

    closed spec fn view(&self) -> DocV {
        DocV { s: store::store_s(self.doc), tables: hosted_table_vs(self.tables@) }
    }
}

/// Whether a block stands in the tree and has a text, in a document that takes edits.
pub open spec fn writable_s(d: DocV, id: BlockId) -> bool {
    d.s.editable && store::worded_s(d.s, id)
}

/// Every block has properties and every name a side map, if only empty ones.
pub open spec fn total_s(d: DocV) -> bool {
    &&& forall|id: BlockId| #[trigger] d.s.metas.contains_key(id)
    &&& forall|n: Seq<char>| #[trigger] d.s.maps.contains_key(n)
    &&& forall|n: Seq<char>| #[trigger] d.s.nested.contains_key(n)
}

impl TextDoc {
    pub proof fn lemma_total(&self)
        ensures
            total_s(self@),
    {
    }
}

/// One stretch of rich text under the same attributes.
pub struct Seg {
    pub text: String,
    pub attrs: Vec<(String, Scalar)>,
}

/// The properties that a list of distinct names and values makes.
pub open spec fn props_s(v: Seq<(String, Scalar)>, n: nat) -> PropsV
    decreases n,
{
    if n == 0 {
        Map::empty()
    } else {
        props_s(v, (n - 1) as nat).insert(v[n - 1].0@, v[n - 1].1@)
    }
}

pub open spec fn distinct_s(v: Seq<(String, Scalar)>) -> bool {
    forall|i: int, j: int| 0 <= i < j < v.len() ==> (#[trigger] v[i]).0@ != (#[trigger] v[j]).0@
}

impl View for Seg {
    type V = SegV;

    open spec fn view(&self) -> SegV {
        SegV { text: self.text@, attrs: props_s(self.attrs@, self.attrs@.len()) }
    }
}

pub open spec fn seg_vs(s: Seq<Seg>) -> Seq<SegV> {
    Seq::new(s.len(), |i: int| s[i]@)
}

/// A name is bound by the list exactly where it occurs, and to the value beside it.
pub proof fn lemma_props(v: Seq<(String, Scalar)>, n: nat)
    requires
        n <= v.len(),
        distinct_s(v),
    ensures
        forall|i: int| 0 <= i < n ==> props_s(v, n).contains_key((#[trigger] v[i]).0@)
            && props_s(v, n)[v[i].0@] == v[i].1@,
        forall|k: Seq<char>| #[trigger]
            props_s(v, n).contains_key(k) ==> exists|i: int| 0 <= i < n && (#[trigger] v[i]).0@ == k,
    decreases n,
{
    if n > 0 {
        lemma_props(v, (n - 1) as nat);
        assert forall|k: Seq<char>| #[trigger] props_s(v, n).contains_key(k) implies exists|i: int|
            0 <= i < n && (#[trigger] v[i]).0@ == k by {
            if k == v[n - 1].0@ {
                assert(v[n - 1].0@ == k);
            } else {
                assert(props_s(v, (n - 1) as nat).contains_key(k));
            }
        }
    }
}

/// The value under `key` in a list of distinct names.
pub(crate) fn prop<'a>(v: &'a Vec<(String, Scalar)>, key: &str) -> (r: Option<&'a Scalar>)
    requires
        distinct_s(v@),
    ensures
        (match r {
            Some(x) => Some(x@),
            None => None,
        }) == store::prop_s(props_s(v@, v@.len()), key@),
{
    proof {
        lemma_props(v@, v@.len());
    }
    let mut i: usize = 0;
    while i < v.len()
        invariant
            i <= v@.len(),
            forall|j: int| 0 <= j < i ==> (#[trigger] v@[j]).0@ != key@,
            forall|j: int| 0 <= j < v@.len() ==> props_s(v@, v@.len()).contains_key(
                (#[trigger] v@[j]).0@,
            ) && props_s(v@, v@.len())[v@[j].0@] == v@[j].1@,
        decreases v@.len() - i,
    {
        if str_eq(v[i].0.as_str(), key) {
            return Some(&v[i].1);
        }
        i = i + 1;
    }
    None
}

fn plain_values(v: Vec<(String, loro::LoroValue)>) -> (r: Vec<(String, Scalar)>)
    requires
        store::distinct_s(v@),
    ensures
        props_s(r@, r@.len()) == store::entries_s(v@, v@.len()),
        distinct_s(r@),
{
    let mut out: Vec<(String, Scalar)> = Vec::new();
    let mut i: usize = 0;
    while i < v.len()
        invariant
            i <= v@.len(),
            out@.len() == i,
            forall|j: int| 0 <= j < i ==> (#[trigger] out@[j]).0@ == v@[j].0@ && out@[j].1@
                == store::scalar_s(v@[j].1),
        decreases v@.len() - i,
    {
        out.push((v[i].0.clone(), scalar_of(&v[i].1)));
        i = i + 1;
    }
    proof {
        lemma_same_entries(out@, v@, v@.len());
    }
    out
}

proof fn lemma_same_entries(a: Seq<(String, Scalar)>, b: Seq<(String, loro::LoroValue)>, n: nat)
    requires
        n <= a.len(),
        n <= b.len(),
        forall|j: int| 0 <= j < n ==> (#[trigger] a[j]).0@ == b[j].0@ && a[j].1@ == store::scalar_s(
            b[j].1,
        ),
    ensures
        props_s(a, n) == store::entries_s(b, n),
    decreases n,
{
    if n > 0 {
        lemma_same_entries(a, b, (n - 1) as nat);
    }
}

fn stored<T>(r: Result<T, loro::LoroError>) -> (o: Result<T, ModelError>)
    ensures
        r matches Ok(x) ==> o == Ok::<T, ModelError>(x),
        r is Err ==> o == Err::<T, ModelError>(ModelError::Store),
{
    match r {
        Ok(x) => Ok(x),
        Err(_) => Err(ModelError::Store),
    }
}

// ---------------------------------------------------------------- what an edit makes of a document

pub open spec fn with_store_s(d: DocV, s: StoreV) -> DocV {
    DocV { s, ..d }
}

/// The document with one property of a block set.
pub open spec fn meta_set_s(d: DocV, id: BlockId, key: Seq<char>, v: ScalarV) -> DocV {
    with_store_s(
        d,
        StoreV { metas: d.s.metas.insert(id, d.s.metas[id].insert(key, v)), ..d.s },
    )
}

/// The document with one property of a block cleared.
pub open spec fn meta_cleared_s(d: DocV, id: BlockId, key: Seq<char>) -> DocV {
    with_store_s(d, StoreV { metas: d.s.metas.insert(id, d.s.metas[id].remove(key)), ..d.s })
}

/// The document with one entry of a side map set.
pub open spec fn entry_set_s(d: DocV, name: Seq<char>, key: Seq<char>, v: ScalarV) -> DocV {
    with_store_s(
        d,
        StoreV {
            maps: d.s.maps.insert(name, d.s.maps[name].insert(key, v)),
            nested: d.s.nested.insert(name, d.s.nested[name].remove(key)),
            ..d.s
        },
    )
}

/// The document with one entry of a side map cleared.
pub open spec fn entry_cleared_s(d: DocV, name: Seq<char>, key: Seq<char>) -> DocV {
    with_store_s(
        d,
        StoreV {
            maps: d.s.maps.insert(name, d.s.maps[name].remove(key)),
            nested: d.s.nested.insert(name, d.s.nested[name].remove(key)),
            ..d.s
        },
    )
}

/// The document with one entry of a map nested in a side map set.
pub open spec fn inner_set_s(
    d: DocV,
    name: Seq<char>,
    key: Seq<char>,
    field: Seq<char>,
    v: ScalarV,
) -> DocV {
    with_store_s(
        d,
        StoreV {
            maps: d.s.maps.insert(name, d.s.maps[name].insert(key, ScalarV::Other)),
            nested: d.s.nested.insert(
                name,
                d.s.nested[name].insert(
                    key,
                    store::inner_s(d.s.nested[name], key).insert(field, v),
                ),
            ),
            ..d.s
        },
    )
}

/// The document with these entries of a map nested in a side map.
pub open spec fn inner_kept_s(d: DocV, name: Seq<char>, key: Seq<char>, m: PropsV) -> DocV {
    with_store_s(
        d,
        StoreV {
            maps: d.s.maps.insert(name, d.s.maps[name].insert(key, ScalarV::Other)),
            nested: d.s.nested.insert(name, d.s.nested[name].insert(key, m)),
            ..d.s
        },
    )
}

/// The characters of a block's text.
pub open spec fn text_s(d: DocV, id: BlockId) -> Seq<store::CharV> {
    store::chars_s(d.s.texts[id])
}

/// Whether only the text of one block differs.
pub open spec fn only_text_s(d: DocV, e: DocV, id: BlockId) -> bool {
    e == with_store_s(d, e.s) && store::only_text_s(d.s, e.s, id)
}

/// Whether `e` is `d` with `text` inserted at `pos` in a block.
pub open spec fn text_inserted_s(d: DocV, id: BlockId, pos: int, text: Seq<char>, e: DocV) -> bool {
    &&& only_text_s(d, e, id)
    &&& pos <= text_s(d, id).len()
    &&& store::inserted_s(text_s(d, id), pos, text, d.s.typed[id][pos], text_s(e, id))
    &&& store::moved_on_s(d.s.anchors[id], pos, text.len() as int, e.s.anchors[id])
    &&& d.s.plain.contains(id) ==> e.s.plain.contains(id) && (text.len() > 0
        ==> d.s.typed[id][pos] == store::no_props_s())
}

/// The characters without `pos..pos + len`.
pub open spec fn cut_s(t: Seq<store::CharV>, pos: int, len: int) -> Seq<store::CharV> {
    if len > 0 {
        t.subrange(0, pos) + t.subrange(pos + len, t.len() as int)
    } else {
        t
    }
}

/// Whether `e` is `d` without the characters `pos..pos + len` of a block.
pub open spec fn text_cut_s(d: DocV, id: BlockId, pos: int, len: int, e: DocV) -> bool {
    &&& only_text_s(d, e, id)
    &&& len > 0 ==> pos + len <= text_s(d, id).len()
    &&& text_s(e, id) == cut_s(text_s(d, id), pos, len)
    &&& store::moved_up_s(d.s.anchors[id], pos, len, e.s.anchors[id])
}

/// Whether `e` is `d` with an attribute set over `start..end` of a block's text.
pub open spec fn text_marked_s(
    d: DocV,
    id: BlockId,
    start: int,
    end: int,
    key: Seq<char>,
    v: ScalarV,
    e: DocV,
) -> bool {
    &&& only_text_s(d, e, id)
    &&& start < end <= text_s(d, id).len()
    &&& text_s(e, id) == store::marked_s(text_s(d, id), start, end, key, v)
    &&& e.s.anchors[id] == d.s.anchors[id]
}

/// Whether `e` is `d` with an attribute cleared over `start..end` of a block's text.
pub open spec fn text_unmarked_s(
    d: DocV,
    id: BlockId,
    start: int,
    end: int,
    key: Seq<char>,
    e: DocV,
) -> bool {
    &&& only_text_s(d, e, id)
    &&& start < end <= text_s(d, id).len()
    &&& text_s(e, id) == store::unmarked_s(text_s(d, id), start, end, key)
    &&& e.s.anchors[id] == d.s.anchors[id]
}

/// Whether `id` is a block that `d` did not have.
pub open spec fn fresh_s(d: DocV, id: BlockId) -> bool {
    !store::live_s(d.s, id) && !d.s.texts.contains_key(id)
}

/// The document with a new block at `index` among the roots.
pub open spec fn root_added_s(d: DocV, index: int, id: BlockId) -> DocV {
    with_store_s(
        d,
        StoreV {
            roots: d.s.roots.insert(index, id),
            metas: d.s.metas.insert(id, store::no_props_s()),
            ..d.s
        },
    )
}

/// The document with a new block that stands under `parent`.
pub open spec fn child_added_s(d: DocV, parent: BlockId, id: BlockId) -> DocV {
    with_store_s(
        d,
        StoreV {
            metas: d.s.metas.insert(id, store::no_props_s()),
            parents: d.s.parents.insert(id, parent),
            ..d.s
        },
    )
}

/// Whether `e` is `d` without a root block; what that block held is left open.
pub open spec fn block_dropped_s(d: DocV, id: BlockId, e: DocV) -> bool {
    &&& e == with_store_s(
        d,
        StoreV {
            roots: store::without_s(d.s.roots, id, d.s.roots.len()),
            metas: e.s.metas,
            texts: e.s.texts,
            plain: e.s.plain,
            typed: e.s.typed,
            anchors: e.s.anchors,
            parents: e.s.parents,
            ..d.s
        },
    )
    &&& store::pruned_s(d.s.parents, id, e.s.parents)
    &&& e.s.metas.insert(id, d.s.metas[id]) == d.s.metas.insert(id, d.s.metas[id])
    &&& e.s.texts.remove(id) == d.s.texts.remove(id)
    &&& e.s.plain.insert(id) == d.s.plain.insert(id)
    &&& e.s.typed.insert(id, store::no_marks_s()) == d.s.typed.insert(id, store::no_marks_s())
    &&& forall|x: BlockId| #[trigger] store::live_s(e.s, x) ==> e.s.anchors[x] == d.s.anchors[x]
}

/// The document with an empty text for a block.
pub open spec fn text_added_s(d: DocV, id: BlockId) -> DocV {
    with_store_s(
        d,
        StoreV {
            metas: d.s.metas.insert(
                id,
                d.s.metas[id].insert(store::TEXT@, ScalarV::Other),
            ),
            texts: d.s.texts.insert(id, Seq::empty()),
            plain: d.s.plain.insert(id),
            typed: d.s.typed.insert(id, store::no_marks_s()),
            anchors: d.s.anchors.insert(id, Map::empty()),
            ..d.s
        },
    )
}

// ---------------------------------------------------------------- the document

/// A position in a block's text that holds through edits.
pub struct TextCursor {
    pub block: BlockId,
    pub at: loro::cursor::Cursor,
}

/// Whether a cursor is bound to the character at `i` of its block's text.
pub open spec fn bound_s(d: DocV, c: TextCursor, i: int) -> bool {
    d.s.anchors[c.block].contains_key(c.at) && d.s.anchors[c.block][c.at] == i
}

impl TextDoc {
    /// A document that holds nothing.
    pub fn new() -> (r: Self)
        ensures
            store::empty_store_s(r@.s),
            sequence::sound_s(r@),
            r@.tables == Seq::<HostedTableV>::empty(),
    {
        let r = TextDoc { doc: new_doc(), tables: Vec::new() };
        proof {
            assert(hosted_table_vs(r.tables@) =~= Seq::empty());
            sequence::law_new_document_is_sound(r@);
        }
        r
    }

    /// Close the pending transaction.
    pub fn commit(&mut self)
        ensures
            final(self)@ == old(self)@,
    {
        commit_doc(&mut self.doc);
    }

    /// Allow these marks and no others; those with `true` extend over text typed at their end.
    pub fn configure_text_styles(&mut self, keys: &Vec<(String, bool)>)
        requires
            forall|i: int| 0 <= i < keys@.len() ==> !(#[trigger] keys@[i]).0@.contains(':'),
        ensures
            final(self)@ == (DocV {
                s: StoreV { marks: store::allowed_s(keys@, keys@.len()), ..old(self)@.s },
                ..old(self)@
            }),
    {
        config_marks(&mut self.doc, keys);
    }

    /// The root blocks, in order.
    pub(crate) fn roots(&self) -> (r: Vec<BlockId>)
        ensures
            r@ == self@.s.roots,
    {
        let v = tree_entries(&self.doc);
        let ghost roots = self@.s.roots;
        let mut out: Vec<BlockId> = Vec::new();
        let mut i: usize = 0;
        while i < v.len()
            invariant
                i <= v@.len(),
                roots.len() <= v@.len(),
                forall|j: int| 0 <= j < roots.len() ==> (#[trigger] v@[j]).root && v@[j].id
                    == roots[j],
                forall|j: int| roots.len() <= j < v@.len() ==> !(#[trigger] v@[j]).root,
                out@ =~= (if i <= roots.len() {
                    roots.take(i as int)
                } else {
                    roots
                }),
            decreases v@.len() - i,
        {
            if v[i].root {
                out.push(v[i].id);
            }
            i = i + 1;
        }
        assert(roots.take(roots.len() as int) =~= roots);
        out
    }

    /// A property of a block.
    pub(crate) fn meta(&self, id: BlockId, key: &str) -> (r: Option<Scalar>)
        ensures
            store::scalar_ov(r) == store::prop_s(self@.s.metas[id], key@),
    {
        match meta_value(&self.doc, id, key) {
            Some(v) => Some(scalar_of(&v)),
            None => None,
        }
    }

    pub(crate) fn set_meta(&mut self, id: BlockId, key: &str, v: &Scalar) -> (r: Result<
        (),
        ModelError,
    >)
        requires
            key@ != store::TEXT@,
            !(v is Other),
            !(v is Bytes),
        ensures
            old(self)@.s.editable && store::live_s(old(self)@.s, id) ==> r is Ok,
            r is Ok ==> final(self)@ == meta_set_s(old(self)@, id, key@, v@),
            r matches Err(e) ==> e == ModelError::Store,
    {
        stored(meta_put(&mut self.doc, id, key, value_of(v)))
    }

    pub(crate) fn clear_meta(&mut self, id: BlockId, key: &str) -> (r: Result<(), ModelError>)
        requires
            key@ != store::TEXT@,
        ensures
            old(self)@.s.editable && store::live_s(old(self)@.s, id) ==> r is Ok,
            r is Ok ==> final(self)@ == meta_cleared_s(old(self)@, id, key@),
            r matches Err(e) ==> e == ModelError::Store,
    {
        stored(meta_delete(&mut self.doc, id, key))
    }

    /// A new last root block.
    pub(crate) fn add_root(&mut self) -> (r: Result<BlockId, ModelError>)
        ensures
            old(self)@.s.editable ==> r is Ok,
            r matches Ok(id) ==> fresh_s(old(self)@, id) && final(self)@ == root_added_s(
                old(self)@,
                old(self)@.s.roots.len() as int,
                id,
            ),
            r matches Err(e) ==> e == ModelError::Store,
    {
        let ghost roots = self@.s.roots;
        let r = stored(tree_create(&mut self.doc, None));
        proof {
            if let Ok(id) = r {
                assert(roots.insert(roots.len() as int, id) =~= roots.push(id));
            }
        }
        r
    }

    /// A new root block at `index`.
    pub(crate) fn add_root_at(&mut self, index: usize) -> (r: Result<BlockId, ModelError>)
        ensures
            old(self)@.s.editable && index <= old(self)@.s.roots.len() ==> r is Ok,
            r matches Ok(id) ==> fresh_s(old(self)@, id) && index <= old(self)@.s.roots.len()
                && final(self)@ == root_added_s(old(self)@, index as int, id),
            r matches Err(e) ==> e == ModelError::Store,
    {
        stored(tree_create_at(&mut self.doc, index))
    }

    /// A new block under `parent`. It stands in the tree where `parent` does.
    pub(crate) fn add_child(&mut self, parent: BlockId) -> (r: Result<BlockId, ModelError>)
        ensures
            old(self)@.s.editable && store::live_s(old(self)@.s, parent) ==> r is Ok,
            r matches Ok(id) ==> fresh_s(old(self)@, id),
            r matches Ok(id) ==> if store::live_s(old(self)@.s, parent) {
                final(self)@ == child_added_s(old(self)@, parent, id)
            } else {
                !store::live_s(final(self)@.s, id)
            },
            r matches Err(e) ==> e == ModelError::Store,
    {
        stored(tree_create(&mut self.doc, Some(parent)))
    }

    pub(crate) fn drop_block(&mut self, id: BlockId) -> (r: Result<(), ModelError>)
        ensures
            old(self)@.s.editable && store::live_s(old(self)@.s, id) ==> r is Ok,
            r is Ok ==> block_dropped_s(old(self)@, id, final(self)@),
            r matches Err(e) ==> e == ModelError::Store,
    {
        stored(tree_delete(&mut self.doc, id))
    }

    pub(crate) fn add_text(&mut self, id: BlockId) -> (r: Result<(), ModelError>)
        ensures
            old(self)@.s.editable && store::live_s(old(self)@.s, id) ==> r is Ok,
            r is Ok ==> store::live_s(old(self)@.s, id),
            r is Ok ==> final(self)@ == text_added_s(old(self)@, id),
            r matches Err(e) ==> e == ModelError::Store,
    {
        stored(text_create(&mut self.doc, id))
    }

    /// Where a cursor stands now, and whether the character it was put at is gone; nothing where
    /// its text is.
    pub closed spec fn cursor_s(&self, c: TextCursor) -> Option<(usize, bool)> {
        store::cursor_place_s(self.doc, c.at)
    }

    /// A cursor in a block's text.
    pub(crate) fn cursor(&self, id: BlockId, off: usize, side: Side) -> (r: Option<TextCursor>)
        ensures
            r is Some <==> self@.s.texts.contains_key(id),
            r matches Some(c) ==> (off < text_s(self@, id).len() ==> bound_s(self@, c, off as int)),
            r matches Some(c) ==> c.block == id && self.cursor_s(c)
                == Some(
                (
                    (if off < text_s(self@, id).len() {
                        off
                    } else {
                        text_s(self@, id).len() as usize
                    }),
                    false,
                ),
            ),
    {
        match text_cursor(&self.doc, id, off, side) {
            Some(at) => Some(TextCursor { block: id, at }),
            None => None,
        }
    }

    pub(crate) fn find_cursor(&self, c: &TextCursor) -> (r: Option<(usize, bool)>)
        ensures
            r == self.cursor_s(*c),
            forall|i: int| #[trigger] bound_s(self@, *c, i) ==> r == Some((i as usize, false)),
    {
        cursor_place(&self.doc, &c.at)
    }

    /// The rich text of a block, if it has one.
    pub(crate) fn segs(&self, id: BlockId) -> (r: Option<Vec<Seg>>)
        ensures
            r is None ==> !self@.s.texts.contains_key(id),
            r matches Some(v) ==> self@.s.texts.contains_key(id) && seg_vs(v@)
                == self@.s.texts[id],
            r matches Some(v) ==> forall|i: int| 0 <= i < v@.len() ==> distinct_s(
                (#[trigger] v@[i]).attrs@,
            ),
            r is Some ==> store::stretched_s(self@.s.texts[id]),
    {
        let raw = match text_value(&self.doc, id) {
            Some(v) => v,
            None => {
                return None;
            },
        };
        let ghost want = store::raw_segs_s(raw@);
        let mut raw = raw;
        let mut out: Vec<Seg> = Vec::new();
        let mut i: usize = 0;
        let n = raw.len();
        while i < n
            invariant
                i <= n == raw@.len(),
                n == want.len(),
                out@.len() == i,
                forall|j: int| i <= j < n ==> want[j] == (SegV {
                    text: (#[trigger] raw@[j]).text@,
                    attrs: store::entries_s(raw@[j].attrs@, raw@[j].attrs@.len()),
                }),
                forall|j: int| i <= j < n ==> store::distinct_s((#[trigger] raw@[j]).attrs@),
                forall|j: int| 0 <= j < i ==> (#[trigger] out@[j])@ == want[j] && distinct_s(
                    out@[j].attrs@,
                ),
            decreases n - i,
        {
            let mut taken = RawSeg { text: String::new(), attrs: Vec::new() };
            std::mem::swap(&mut raw[i], &mut taken);
            out.push(Seg { text: taken.text, attrs: plain_values(taken.attrs) });
            i = i + 1;
        }
        assert(seg_vs(out@) =~= want);
        Some(out)
    }

    pub(crate) fn put_text(&mut self, id: BlockId, pos: usize, text: &str) -> (r: Result<
        (),
        ModelError,
    >)
        ensures
            writable_s(old(self)@, id) && pos <= text_s(old(self)@, id).len() ==> r is Ok,
            r is Ok ==> text_inserted_s(old(self)@, id, pos as int, text@, final(self)@),
            r matches Err(e) ==> e == ModelError::Store,
    {
        stored(text_put(&mut self.doc, id, pos, text))
    }

    pub(crate) fn cut_text(&mut self, id: BlockId, pos: usize, len: usize) -> (r: Result<
        (),
        ModelError,
    >)
        ensures
            writable_s(old(self)@, id) && (len == 0 || pos + len <= text_s(old(self)@, id).len())
                ==> r is Ok,
            r is Ok ==> text_cut_s(old(self)@, id, pos as int, len as int, final(self)@),
            r matches Err(e) ==> e == ModelError::Store,
    {
        stored(text_delete(&mut self.doc, id, pos, len))
    }

    pub(crate) fn mark(&mut self, id: BlockId, start: usize, end: usize, key: &str, v: &Scalar) -> (r:
        Result<(), ModelError>)
        requires
            !(v is Other),
            !(v is Null),
        ensures
            writable_s(old(self)@, id) && start < end <= text_s(old(self)@, id).len()
                && old(self)@.s.marks.contains_key(key@) ==> r is Ok,
            r is Ok ==> text_marked_s(
                old(self)@,
                id,
                start as int,
                end as int,
                key@,
                v@,
                final(self)@,
            ),
            r matches Err(e) ==> e == ModelError::Store,
    {
        stored(text_mark(&mut self.doc, id, start, end, key, value_of(v)))
    }

    pub(crate) fn unmark(&mut self, id: BlockId, start: usize, end: usize, key: &str) -> (r: Result<
        (),
        ModelError,
    >)
        ensures
            writable_s(old(self)@, id) && start < end <= text_s(old(self)@, id).len()
                && old(self)@.s.marks.contains_key(key@) ==> r is Ok,
            r is Ok ==> text_unmarked_s(
                old(self)@,
                id,
                start as int,
                end as int,
                key@,
                final(self)@,
            ),
            r matches Err(e) ==> e == ModelError::Store,
    {
        stored(text_unmark(&mut self.doc, id, start, end, key))
    }

    /// The properties of a block, in no particular order.
    pub(crate) fn metas(&self, id: BlockId) -> (r: Vec<(String, Scalar)>)
        ensures
            props_s(r@, r@.len()) == self@.s.metas[id],
            distinct_s(r@),
    {
        plain_values(meta_values(&self.doc, id))
    }

    /// The entries of a side map, in no particular order.
    pub(crate) fn entries(&self, name: &str) -> (r: Vec<(String, Scalar)>)
        requires
            store::is_side_map_s(name@),
        ensures
            props_s(r@, r@.len()) == self@.s.maps[name@],
            distinct_s(r@),
    {
        plain_values(map_values(&self.doc, name))
    }

    pub(crate) fn put_entry(&mut self, name: &str, key: &str, v: &Scalar) -> (r: Result<
        (),
        ModelError,
    >)
        requires
            store::is_side_map_s(name@),
            !(v is Other),
        ensures
            old(self)@.s.editable ==> r is Ok,
            r is Ok && store::faithful_s(v@) ==> final(self)@ == entry_set_s(
                old(self)@,
                name@,
                key@,
                v@,
            ),
            r matches Err(e) ==> e == ModelError::Store,
    {
        stored(map_put(&mut self.doc, name, key, value_of(v)))
    }

    pub(crate) fn clear_entry(&mut self, name: &str, key: &str) -> (r: Result<(), ModelError>)
        requires
            store::is_side_map_s(name@),
        ensures
            old(self)@.s.editable ==> r is Ok,
            r is Ok ==> final(self)@ == entry_cleared_s(old(self)@, name@, key@),
            r matches Err(e) ==> e == ModelError::Store,
    {
        stored(map_delete(&mut self.doc, name, key))
    }

    /// The entries of a map nested in a side map.
    pub(crate) fn inner(&self, name: &str, key: &str) -> (r: Option<Vec<(String, Scalar)>>)
        requires
            store::is_side_map_s(name@),
        ensures
            r is None ==> !self@.s.nested[name@].contains_key(key@),
            r matches Some(v) ==> self@.s.nested[name@].contains_key(key@) && props_s(
                v@,
                v@.len(),
            ) == self@.s.nested[name@][key@] && distinct_s(v@),
    {
        match nested_values(&self.doc, name, key) {
            Some(v) => Some(plain_values(v)),
            None => None,
        }
    }

    pub(crate) fn put_inner(&mut self, name: &str, key: &str, field: &str, v: &Scalar) -> (r: Result<
        (),
        ModelError,
    >)
        requires
            store::is_side_map_s(name@),
            !(v is Other),
            !(v is Bytes),
        ensures
            old(self)@.s.editable && store::nestable_s(old(self)@.s, name@, key@) ==> r is Ok,
            r is Ok ==> final(self)@ == inner_set_s(old(self)@, name@, key@, field@, v@),
            r matches Err(e) ==> e == ModelError::Store,
    {
        stored(nested_put(&mut self.doc, name, key, field, value_of(v)))
    }

    /// Make sure that a map is nested in a side map.
    pub(crate) fn make_inner(&mut self, name: &str, key: &str) -> (r: Result<(), ModelError>)
        requires
            store::is_side_map_s(name@),
        ensures
            old(self)@.s.editable && store::nestable_s(old(self)@.s, name@, key@) ==> r is Ok,
            r is Ok ==> final(self)@ == inner_kept_s(
                old(self)@,
                name@,
                key@,
                store::inner_s(old(self)@.s.nested[name@], key@),
            ),
            r matches Err(e) ==> e == ModelError::Store,
    {
        stored(nested_make(&mut self.doc, name, key))
    }

    /// The tables hosted in the document.
    pub(crate) fn tables(&self) -> (r: &Vec<HostedTable>)
        ensures
            hosted_table_vs(r@) == self@.tables,
    {
        &self.tables
    }

    /// Take the tables out of the document.
    pub(crate) fn take_tables(&mut self) -> (r: Vec<HostedTable>)
        ensures
            hosted_table_vs(r@) == old(self)@.tables,
            final(self)@ == (DocV { tables: Seq::empty(), ..old(self)@ }),
    {
        let mut r: Vec<HostedTable> = Vec::new();
        std::mem::swap(&mut self.tables, &mut r);
        assert(hosted_table_vs(self.tables@) =~= Seq::empty());
        r
    }

    /// Replace the tables hosted in the document.
    pub(crate) fn set_tables(&mut self, tables: Vec<HostedTable>)
        ensures
            final(self)@ == (DocV { tables: hosted_table_vs(tables@), ..old(self)@ }),
    {
        self.tables = tables;
    }
}

} // verus!
