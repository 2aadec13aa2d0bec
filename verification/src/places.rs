//! Where blocks stand in the flat sequence of paragraphs.

use vstd::prelude::*;
use crate::doc;
use crate::doc::{DocV, TextCursor, TextDoc};
use crate::edits;
use crate::error::ModelError;
use crate::read;
use crate::read::BlockRef;
use crate::store;
use crate::store::{BlockId, Side};

verus! {

/// Whether a paragraph of the flat sequence is the block `id` of the body.
pub open spec fn is_top_s(b: BlockRef, id: BlockId) -> bool {
    b == BlockRef::Top(id)
}

/// Whether a paragraph of the flat sequence stands in the table hosted on `node`.
pub open spec fn in_table_s(b: BlockRef, table: BlockId) -> bool {
    b matches BlockRef::Cell { node, row, col, id } && node == table
}

/// Whether a paragraph of the flat sequence stands in one cell of a table.
pub open spec fn in_cell_s(b: BlockRef, table: BlockId, r: usize, c: usize) -> bool {
    b matches BlockRef::Cell { node, row, col, id } && node == table && row == r && col == c
}

/// Whether `k` is the first place of `v` at which `hit` holds; the end where it holds nowhere.
pub open spec fn first_place_s(v: Seq<BlockRef>, hit: spec_fn(BlockRef) -> bool, k: int) -> bool {
    &&& 0 <= k <= v.len()
    &&& k < v.len() ==> hit(v[k])
    &&& forall|i: int| 0 <= i < k ==> !hit(#[trigger] v[i])
}

/// Whether `r` is the first place of `v` at which `hit` holds; `None` where it holds nowhere.
pub open spec fn found_s(v: Seq<BlockRef>, hit: spec_fn(BlockRef) -> bool, r: Option<usize>) -> bool {
    match r {
        Some(k) => k < v.len() && first_place_s(v, hit, k as int),
        None => first_place_s(v, hit, v.len() as int),
    }
}

/// The flat index of a paragraph of the body; `None` where the block is none.
pub fn block_index_of(doc: &TextDoc, id: BlockId) -> (r: Option<usize>)
    ensures
        found_s(read::refs_s(doc@), |b: BlockRef| is_top_s(b, id), r),
{
    let v = doc.block_seq();
    let mut i: usize = 0;
    while i < v.len()
        invariant
            i <= v@.len(),
            v@ == read::refs_s(doc@),
            forall|j: int| 0 <= j < i ==> !is_top_s(#[trigger] v@[j], id),
        decreases v@.len() - i,
    {
        if let BlockRef::Top(t) = v[i] {
            if t == id {
                return Some(i);
            }
        }
        i += 1;
    }
    None
}

/// The flat index of the paragraph that a block holds, in the body or in a cell; `None` where
/// no paragraph with a text is held by it.
pub fn block_index_of_container(doc: &TextDoc, id: BlockId) -> (r: Option<usize>)
    ensures
        found_s(
            read::refs_s(doc@),
            |b: BlockRef| b.id_s() == id && doc@.s.texts.contains_key(id),
            r,
        ),
{
    if doc.segs(id).is_none() {
        return None;
    }
    let v = doc.block_seq();
    let mut i: usize = 0;
    while i < v.len()
        invariant
            i <= v@.len(),
            v@ == read::refs_s(doc@),
            doc@.s.texts.contains_key(id),
            forall|j: int| 0 <= j < i ==> (#[trigger] v@[j]).id_s() != id,
        decreases v@.len() - i,
    {
        if v[i].id() == id {
            return Some(i);
        }
        i += 1;
    }
    None
}

/// The flat index of the first paragraph of a cell; `None` where the table has no such cell.
pub fn cell_first_flat(doc: &TextDoc, table: BlockId, row: usize, col: usize) -> (r: Option<usize>)
    ensures
        found_s(read::refs_s(doc@), |b: BlockRef| in_cell_s(b, table, row, col), r),
{
    let v = doc.block_seq();
    let mut i: usize = 0;
    while i < v.len()
        invariant
            i <= v@.len(),
            v@ == read::refs_s(doc@),
            forall|j: int| 0 <= j < i ==> !in_cell_s(#[trigger] v@[j], table, row, col),
        decreases v@.len() - i,
    {
        if let BlockRef::Cell { node, row: at, col: over, id: _ } = v[i] {
            if node == table && at == row && over == col {
                return Some(i);
            }
        }
        i += 1;
    }
    None
}

/// The flat index at which the paragraphs of a table begin; the length of the sequence where
/// it has none.
pub fn table_first_flat(doc: &TextDoc, table: BlockId) -> (r: usize)
    ensures
        first_place_s(read::refs_s(doc@), |b: BlockRef| in_table_s(b, table), r as int),
{
    let v = doc.block_seq();
    let mut i: usize = 0;
    while i < v.len()
        invariant
            i <= v@.len(),
            v@ == read::refs_s(doc@),
            forall|j: int| 0 <= j < i ==> !in_table_s(#[trigger] v@[j], table),
        decreases v@.len() - i,
    {
        if let BlockRef::Cell { node, row: _, col: _, id: _ } = v[i] {
            if node == table {
                return i;
            }
        }
        i += 1;
    }
    i
}

/// Remove a block of the body, a paragraph or a table.
pub fn delete_block_node(doc: &mut TextDoc, id: BlockId) -> (r: Result<(), ModelError>)
    ensures
        old(doc)@.s.editable && store::live_s(old(doc)@.s, id) ==> r is Ok,
        r is Ok ==> doc::block_dropped_s(old(doc)@, id, final(doc)@),
        r matches Err(e) ==> e == ModelError::Store,
{
    doc.drop_block(id)
}

// ---------------------------------------------------------------- cursors

/// A cursor at the character `off` of a paragraph, or at its end where it is shorter. It stands
/// where it was put, and at a character it is bound to that.
pub fn cursor_at(doc: &TextDoc, para: usize, off: usize, side: Side) -> (r: Result<
    TextCursor,
    ModelError,
>)
    ensures
        edits::text_block_s(doc@, para as int) is None ==> (r matches Err(e) && e
            == ModelError::NoBlock),
        edits::text_block_s(doc@, para as int) matches Some(b) ==> (r matches Ok(c) && (off
            < doc::text_s(doc@, b).len() ==> doc::bound_s(doc@, c, off as int)) && c.block == b
            && doc.cursor_s(c) == Some(
            (
                (if off < doc::text_s(doc@, b).len() {
                    off
                } else {
                    doc::text_s(doc@, b).len() as usize
                }),
                false,
            ),
        )),
{
    match doc.text_block(para) {
        Ok(id) => match doc.cursor(id, off, side) {
            Some(c) => Ok(c),
            None => Err(ModelError::Store),
        },
        Err(e) => Err(e),
    }
}

/// Where a cursor stands: its paragraph, its place in it, and whether it was moved because its
/// character is gone. `found` is what the document says of the place.
pub open spec fn resolved_s(d: DocV, block: BlockId, found: Option<(usize, bool)>, r: Option<
    (usize, usize, bool),
>) -> bool {
    match (found, r) {
        (Some(f), Some(p)) => found_s(
            read::refs_s(d),
            |b: BlockRef| b.id_s() == block && d.s.texts.contains_key(block),
            Some(p.0),
        ) && p.1 == f.0 && p.2 == f.1,
        (Some(f), None) => found_s(
            read::refs_s(d),
            |b: BlockRef| b.id_s() == block && d.s.texts.contains_key(block),
            None,
        ),
        (None, _) => r is None,
    }
}

/// The place of a cursor in the flat sequence, given what the document says of it.
pub fn cursor_found(doc: &TextDoc, block: BlockId, found: Option<(usize, bool)>) -> (r: Option<
    (usize, usize, bool),
>)
    ensures
        resolved_s(doc@, block, found, r),
{
    match found {
        Some(f) => match block_index_of_container(doc, block) {
            Some(para) => Some((para, f.0, f.1)),
            None => None,
        },
        None => None,
    }
}

/// Where a cursor stands now: its paragraph, its place in it, and whether it was moved because
/// its character is gone; `None` where its paragraph is gone. A cursor that is bound to a character
/// stands at that.
pub fn resolve_cursor(doc: &TextDoc, c: &TextCursor) -> (r: Option<(usize, usize, bool)>)
    ensures
        resolved_s(doc@, c.block, doc.cursor_s(*c), r),
        forall|i: int| #[trigger]
            doc::bound_s(doc@, *c, i) ==> resolved_s(
                doc@,
                c.block,
                Some((i as usize, false)),
                r,
            ),
{
    let found = doc.find_cursor(c);
    cursor_found(doc, c.block, found)
}

/// A cursor keeps to its character where text is typed, before it or after it.
pub proof fn law_cursor_keeps_to_its_character(
    d: DocV,
    c: TextCursor,
    i: int,
    pos: int,
    text: Seq<char>,
    e: DocV,
)
    requires
        doc::bound_s(d, c, i),
        0 <= i < doc::text_s(d, c.block).len(),
        0 <= pos,
        doc::text_inserted_s(d, c.block, pos, text, e),
    ensures
        exists|j: int| #[trigger]
            doc::bound_s(e, c, j) && 0 <= j < doc::text_s(e, c.block).len() && doc::text_s(
                e,
                c.block,
            )[j] == doc::text_s(d, c.block)[i],
{
    let was = doc::text_s(d, c.block);
    let now = doc::text_s(e, c.block);
    let n = text.len();
    if i < pos {
        assert(now.subrange(0, pos)[i] == was.subrange(0, pos)[i]);
        assert(doc::bound_s(e, c, i));
    } else {
        assert(now.subrange(pos + n, now.len() as int)[i - pos] == was.subrange(
            pos,
            was.len() as int,
        )[i - pos]);
        assert(doc::bound_s(e, c, i + n));
    }
}

/// A cursor keeps to its character where other text is deleted.
pub proof fn law_cursor_outlives_a_deletion(
    d: DocV,
    c: TextCursor,
    i: int,
    pos: int,
    len: int,
    e: DocV,
)
    requires
        doc::bound_s(d, c, i),
        0 <= i < doc::text_s(d, c.block).len(),
        0 <= pos,
        0 <= len,
        !(pos <= i < pos + len),
        doc::text_cut_s(d, c.block, pos, len, e),
    ensures
        exists|j: int| #[trigger]
            doc::bound_s(e, c, j) && 0 <= j < doc::text_s(e, c.block).len() && doc::text_s(
                e,
                c.block,
            )[j] == doc::text_s(d, c.block)[i],
{
    if i < pos {
        assert(doc::bound_s(e, c, i));
    } else {
        assert(doc::bound_s(e, c, i - len));
    }
}

/// A cursor of one paragraph stays where the text of another changes.
pub proof fn law_cursor_stays_where_another_text_changes(
    d: DocV,
    c: TextCursor,
    i: int,
    id: BlockId,
    e: DocV,
)
    requires
        doc::bound_s(d, c, i),
        c.block != id,
        doc::only_text_s(d, e, id),
    ensures
        doc::bound_s(e, c, i),
        e.s.texts[c.block] == d.s.texts[c.block],
{
    let none = Map::<loro::cursor::Cursor, int>::empty();
    assert(e.s.anchors.insert(id, none)[c.block] == d.s.anchors.insert(id, none)[c.block]);
    assert(e.s.texts[c.block] == d.s.texts.insert(id, e.s.texts[id])[c.block]);
}

} // verus!
