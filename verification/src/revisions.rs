//! Tracked changes: recording suggestions, finding the regions they cover, and accepting or
//! rejecting them.

use std::ops::Range;
use vstd::prelude::*;
use crate::anchors::holds;
use crate::containers;
use crate::containers::read_comments;
use crate::doc;
use crate::doc::{DocV, TextDoc};
use crate::edits;
use crate::edits::{advance, TextOp, TextOpV};
use crate::error::ModelError;
use crate::sequence;
use crate::formatting;
use crate::formatting::{format_ops, push_op, RunFormat};
use crate::import;
use crate::import::chars;
use crate::props;
use crate::read;
use crate::read::{read_paragraphs, set_para_mark};
use crate::runs;
use crate::store;
use crate::store::{BlockId, CharV, PropsV, Scalar, ScalarV};
use crate::strs;
use crate::strs::{chars_of, str_eq, string_of};
use crate::structure;
use crate::structure::{insert_empty_paragraph, split_paragraph};
use crate::types;
use crate::types::{
    BodyItem, BodyItemV, FormatChange, FormatChangeV, ParaPropChange, ParaPropChangeV, Paragraph,
    ParagraphV, Run, RunProps, RunPropsV, RunV, Table, TableRowV, Track, TrackKind, TrackV,
};
use crate::writing;
use crate::writing::{fmt_value, track_value};

verus! {

broadcast use vstd::string::group_string_axioms;

// ---------------------------------------------------------------- revision ids

/// Whether a run carries revision `id`.
pub open spec fn run_uses_s(r: RunV, id: u64) -> bool {
    (r.track matches Some(t) && t.id == id) || (r.fmt_change matches Some(c) && c.id == id)
}

/// Whether a paragraph carries revision `id`.
pub open spec fn para_uses_s(p: ParagraphV, id: u64) -> bool {
    ||| exists|i: int| 0 <= i < p.runs.len() && run_uses_s(#[trigger] p.runs[i], id)
    ||| p.prop_change matches Some(c) && c.id == id
    ||| p.mark_change matches Some(m) && m.id == id
}

/// Whether `id` is taken, by a revision or by a comment.
pub open spec fn id_taken_s(d: DocV, id: u64) -> bool {
    ||| exists|i: int|
        0 <= i < read::paragraphs_s(d).len() && para_uses_s(#[trigger] read::paragraphs_s(d)[i], id)
    ||| exists|k: Seq<char>|
        containers::comment_at_s(d.s.maps[store::COMMENTS@], k) matches Some(c)
            && #[trigger] containers::comment_at_s(d.s.maps[store::COMMENTS@], k) is Some && c.id
            == id
}

fn larger(a: u64, b: u64) -> (r: u64)
    ensures
        r == (if a < b {
            b
        } else {
            a
        }),
{
    if a < b {
        b
    } else {
        a
    }
}

fn run_max(r: &Run, max: u64) -> (m: u64)
    ensures
        m >= max,
        forall|id: u64| run_uses_s(r@, id) ==> id <= m,
        m == max || run_uses_s(r@, m),
{
    let mut m = max;
    if let Some(t) = &r.track {
        m = larger(m, t.id);
    }
    if let Some(c) = &r.fmt_change {
        m = larger(m, c.id);
    }
    m
}

fn para_max(p: &Paragraph, max: u64) -> (m: u64)
    ensures
        m >= max,
        forall|id: u64| #[trigger] para_uses_s(p@, id) ==> id <= m,
        m == max || para_uses_s(p@, m),
{
    let ghost v = p@.runs;
    let mut m = max;
    let mut i: usize = 0;
    while i < p.runs.len()
        invariant
            i <= p.runs@.len(),
            v == p@.runs,
            m >= max,
            forall|j: int, id: u64| 0 <= j < i && #[trigger] run_uses_s(v[j], id) ==> id <= m,
            m == max || exists|j: int| 0 <= j < i && run_uses_s(#[trigger] v[j], m),
        decreases p.runs@.len() - i,
    {
        assert(v[i as int] == p.runs@[i as int]@);
        let ghost was = m;
        m = run_max(&p.runs[i], m);
        proof {
            if m != was {
                assert(run_uses_s(v[i as int], m));
            }
        }
        i = i + 1;
    }
    if let Some(c) = &p.prop_change {
        m = larger(m, c.id);
    }
    if let Some(t) = &p.mark_change {
        m = larger(m, t.id);
    }
    m
}

/// The largest id in use, 0 where there is none; the next revision takes the one after it.
/// Comments share the ids of revisions.
pub fn max_revision_id(doc: &TextDoc) -> (r: Result<u64, ModelError>)
    ensures
        r matches Ok(m) && (forall|id: u64| #[trigger] id_taken_s(doc@, id) ==> id <= m) && (m == 0
            || id_taken_s(doc@, m)),
{
    let paras = match read_paragraphs(doc) {
        Ok(v) => v,
        Err(e) => {
            return Err(e);
        },
    };
    let ghost v = read::paragraphs_s(doc@);
    let mut m: u64 = 0;
    let mut i: usize = 0;
    assert(types::paragraph_vs(paras@).len() == paras@.len());
    while i < paras.len()
        invariant
            i <= paras@.len() == v.len(),
            v == types::paragraph_vs(paras@),
            forall|j: int, id: u64| 0 <= j < i && #[trigger] para_uses_s(v[j], id) ==> id <= m,
            m == 0 || exists|j: int| 0 <= j < i && para_uses_s(#[trigger] v[j], m),
        decreases paras@.len() - i,
    {
        assert(v[i as int] == paras@[i as int]@);
        let ghost was = m;
        m = para_max(&paras[i], m);
        proof {
            if m != was {
                assert(para_uses_s(v[i as int], m));
            }
        }
        i = i + 1;
    }
    let comments = read_comments(doc);
    let ghost map = doc@.s.maps[store::COMMENTS@];
    let ghost c = types::comment_vs(comments@);
    let mut j: usize = 0;
    while j < comments.len()
        invariant
            j <= comments@.len(),
            c == types::comment_vs(comments@),
            map == doc@.s.maps[store::COMMENTS@],
            containers::comments_s(map, c),
            v == read::paragraphs_s(doc@),
            forall|x: int, id: u64|
                0 <= x < v.len() && #[trigger] para_uses_s(v[x], id) ==> id <= m,
            forall|x: int| 0 <= x < j ==> (#[trigger] c[x]).id <= m,
            m == 0 || id_taken_s(doc@, m),
        decreases comments@.len() - j,
    {
        assert(c[j as int] == comments@[j as int]@);
        let ghost was = m;
        m = larger(m, comments[j].id);
        proof {
            if m != was {
                let k = choose|k: Seq<char>| #[trigger]
                    containers::comment_at_s(map, k) == Some(c[j as int]);
                assert(containers::comment_at_s(map, k) is Some);
                assert(id_taken_s(doc@, m));
            }
        }
        j = j + 1;
    }
    proof {
        assert forall|id: u64| #[trigger] id_taken_s(doc@, id) implies id <= m by {
            if exists|i: int| 0 <= i < v.len() && para_uses_s(#[trigger] v[i], id) {
                let x = choose|i: int| 0 <= i < v.len() && para_uses_s(#[trigger] v[i], id);
                assert(para_uses_s(v[x], id));
            } else {
                let k = choose|k: Seq<char>|
                    containers::comment_at_s(map, k) matches Some(c)
                        && #[trigger] containers::comment_at_s(map, k) is Some && c.id == id;
                let q = c.index_of(containers::comment_at_s(map, k)->0);
                assert(c[q].id <= m);
            }
        }
    }
    Ok(m)
}

/// The ids with one more, unless it is there.
pub open spec fn note_s(ids: Seq<u64>, id: u64) -> Seq<u64> {
    if ids.contains(id) {
        ids
    } else {
        ids.push(id)
    }
}

fn note(ids: &mut Vec<u64>, id: u64)
    ensures
        final(ids)@ == note_s(old(ids)@, id),
{
    if !holds(ids, id) {
        ids.push(id);
    }
}

pub open spec fn note_track_s(ids: Seq<u64>, o: Option<TrackV>) -> Seq<u64> {
    match o {
        Some(t) => note_s(ids, t.id),
        None => ids,
    }
}

fn note_track(ids: &mut Vec<u64>, o: &Option<Track>)
    ensures
        final(ids)@ == note_track_s(old(ids)@, types::track_ov(*o)),
{
    if let Some(t) = o {
        note(ids, t.id);
    }
}

pub open spec fn note_prop_s(ids: Seq<u64>, o: Option<types::TablePropChangeV>) -> Seq<u64> {
    match o {
        Some(c) => note_s(ids, c.id),
        None => ids,
    }
}

fn note_prop(ids: &mut Vec<u64>, o: &Option<types::TablePropChange>)
    ensures
        final(ids)@ == note_prop_s(old(ids)@, types::table_prop_change_ov(*o)),
{
    if let Some(c) = o {
        note(ids, c.id);
    }
}

/// The ids of the changes of the first `n` cells.
pub open spec fn note_cells_s(ids: Seq<u64>, cells: Seq<types::TableCellV>, n: nat) -> Seq<u64>
    decreases n,
{
    if n == 0 {
        ids
    } else {
        note_track_s(note_cells_s(ids, cells, (n - 1) as nat), cells[n - 1].change)
    }
}

/// The ids of the property changes of the first `n` cells.
pub open spec fn note_cell_props_s(ids: Seq<u64>, cells: Seq<types::TableCellV>, n: nat) -> Seq<u64>
    decreases n,
{
    if n == 0 {
        ids
    } else {
        note_prop_s(note_cell_props_s(ids, cells, (n - 1) as nat), cells[n - 1].prop_change)
    }
}

/// The ids in a row: its own change, its cells' changes, its property change, its cells'.
pub open spec fn note_row_s(ids: Seq<u64>, r: TableRowV) -> Seq<u64> {
    let ids = note_cells_s(note_track_s(ids, r.change), r.cells, r.cells.len());
    note_cell_props_s(note_prop_s(ids, r.prop_change), r.cells, r.cells.len())
}

pub open spec fn note_rows_s(ids: Seq<u64>, rows: Seq<TableRowV>, n: nat) -> Seq<u64>
    decreases n,
{
    if n == 0 {
        ids
    } else {
        note_row_s(note_rows_s(ids, rows, (n - 1) as nat), rows[n - 1])
    }
}

/// The ids in the tables among the first `n` items, each once, in document order.
pub open spec fn table_ids_s(body: Seq<BodyItemV>, n: nat) -> Seq<u64>
    decreases n,
{
    if n == 0 {
        Seq::empty()
    } else {
        let ids = table_ids_s(body, (n - 1) as nat);
        match body[n - 1] {
            BodyItemV::Table(t) => note_rows_s(
                note_prop_s(ids, t.prop_change),
                t.rows,
                t.rows.len(),
            ),
            _ => ids,
        }
    }
}

fn note_row(ids: &mut Vec<u64>, r: &types::TableRow)
    ensures
        final(ids)@ == note_row_s(old(ids)@, r@),
{
    let ghost cells = r@.cells;
    note_track(ids, &r.change);
    let ghost a = ids@;
    let mut i: usize = 0;
    while i < r.cells.len()
        invariant
            i <= r.cells@.len(),
            cells == r@.cells,
            ids@ == note_cells_s(a, cells, i as nat),
        decreases r.cells@.len() - i,
    {
        assert(cells[i as int] == r.cells@[i as int]@);
        note_track(ids, &r.cells[i].change);
        i = i + 1;
    }
    note_prop(ids, &r.prop_change);
    let ghost b = ids@;
    let mut i: usize = 0;
    while i < r.cells.len()
        invariant
            i <= r.cells@.len(),
            cells == r@.cells,
            ids@ == note_cell_props_s(b, cells, i as nat),
        decreases r.cells@.len() - i,
    {
        assert(cells[i as int] == r.cells@[i as int]@);
        note_prop(ids, &r.cells[i].prop_change);
        i = i + 1;
    }
}

fn note_table(ids: &mut Vec<u64>, t: &Table)
    ensures
        final(ids)@ == note_rows_s(
            note_prop_s(old(ids)@, t@.prop_change),
            t@.rows,
            t@.rows.len(),
        ),
{
    let ghost rows = t@.rows;
    note_prop(ids, &t.prop_change);
    let ghost a = ids@;
    let mut i: usize = 0;
    while i < t.rows.len()
        invariant
            i <= t.rows@.len(),
            rows == t@.rows,
            ids@ == note_rows_s(a, rows, i as nat),
        decreases t.rows@.len() - i,
    {
        assert(rows[i as int] == t.rows@[i as int]@);
        note_row(ids, &t.rows[i]);
        i = i + 1;
    }
}

/// The ids of the changes to the structure of the tables in the body, each once, in document
/// order.
pub fn table_change_ids(body: &Vec<BodyItem>) -> (r: Vec<u64>)
    ensures
        r@ == table_ids_s(types::body_item_vs(body@), body@.len()),
{
    let ghost v = types::body_item_vs(body@);
    let mut ids: Vec<u64> = Vec::new();
    let mut i: usize = 0;
    while i < body.len()
        invariant
            i <= body@.len(),
            v == types::body_item_vs(body@),
            ids@ == table_ids_s(v, i as nat),
        decreases body@.len() - i,
    {
        assert(v[i as int] == body@[i as int]@);
        if let BodyItem::Table(t) = &body[i] {
            note_table(&mut ids, t);
        }
        i = i + 1;
    }
    ids
}

// ---------------------------------------------------------------- suggestions

/// Whether a revision reads back from the text that keeps it.
pub open spec fn track_reads_s(t: TrackV) -> bool {
    runs::track_text_s(t.kind, writing::track_value_s(t)) == Some(t)
}

/// Whether `e` is `d` with `from..to` of a block's text under a revision.
pub open spec fn tracked_s(d: DocV, id: BlockId, from: int, to: int, t: TrackV, e: DocV) -> bool {
    &&& doc::text_marked_s(
        d,
        id,
        from,
        to,
        t.kind.mark_key_s(),
        ScalarV::Text(writing::track_value_s(t)),
        e,
    )
    &&& track_reads_s(t)
}

/// Whether `e` is `d` with a text inserted at `pos` of a block under a revision.
pub open spec fn suggested_s(d: DocV, id: BlockId, pos: int, text: Seq<char>, t: TrackV, e: DocV) -> bool {
    &&& doc::only_text_s(d, e, id)
    &&& 0 <= pos <= doc::text_s(d, id).len()
    &&& text.len() > 0
    &&& track_reads_s(t)
    &&& exists|mid: Seq<CharV>| #[trigger]
        writing::laid_s(d, id, pos, text, mid) && doc::text_s(e, id) == store::marked_s(
            mid,
            pos,
            pos + text.len(),
            t.kind.mark_key_s(),
            ScalarV::Text(writing::track_value_s(t)),
        )
}

impl TextDoc {
    /// Mark a range of a block's text with a revision.
    pub(crate) fn mark_track(&mut self, id: BlockId, from: usize, to: usize, t: &Track) -> (r: Result<
        (),
        ModelError,
    >)
        ensures
            doc::writable_s(old(self)@, id) && from < to <= doc::text_s(old(self)@, id).len()
                && old(self)@.s.marks.contains_key(t@.kind.mark_key_s()) ==> r is Ok,
            r is Ok ==> tracked_s(old(self)@, id, from as int, to as int, t@, final(self)@),
            r matches Err(e) ==> e == ModelError::Store,
    {
        self.mark(id, from, to, t.kind.mark_key(), &Scalar::Text(track_value(t)))
    }
}

/// Insert a text at `pos` of a paragraph as a tracked insertion.
pub fn suggest_insertion(doc: &mut TextDoc, idx: usize, pos: usize, text: &str, track: &Track) -> (r:
    Result<(), ModelError>)
    ensures
        sequence::sound_s(old(doc)@) && r is Ok ==> sequence::sound_s(final(doc)@),
        edits::text_block_s(old(doc)@, idx as int) matches Some(b) ==> doc::writable_s(old(doc)@, b)
            && pos <= doc::text_s(old(doc)@, b).len() && 0 < text@.len() && pos + text@.len()
            <= usize::MAX && old(doc)@.s.marks.contains_key(track@.kind.mark_key_s()) ==> r is Ok,
        edits::text_block_s(old(doc)@, idx as int) is None ==> r == Err::<(), ModelError>(
            ModelError::NoBlock,
        ) && final(doc)@ == old(doc)@,
        edits::text_block_s(old(doc)@, idx as int) is Some ==> (r matches Err(e) ==> e
            == ModelError::Store),
        r is Ok ==> suggested_s(
            old(doc)@,
            edits::text_block_s(old(doc)@, idx as int)->0,
            pos as int,
            text@,
            track@,
            final(doc)@,
        ),
{
    let ghost d = doc@;
    let id = match doc.text_block(idx) {
        Ok(id) => id,
        Err(e) => {
            return Err(e);
        },
    };
    match doc.put_text(id, pos, text) {
        Ok(()) => {},
        Err(e) => {
            return Err(e);
        },
    }
    let ghost mid = doc@;
    let n = text.unicode_len();
    if n > usize::MAX - pos {
        return Err(ModelError::Store);
    }
    match doc.mark_track(id, pos, pos + n, track) {
        Ok(()) => {},
        Err(e) => {
            return Err(e);
        },
    }
    proof {
        writing::lemma_only_text_trans(d, mid, doc@, id);
        assert(writing::laid_s(d, id, pos as int, text@, doc::text_s(mid, id)));
        if sequence::sound_s(d) {
            sequence::law_text_edits_keep_sound(d, doc@, id);
        }
    }
    Ok(())
}

/// Mark a range of a paragraph as a tracked deletion; the text stays until it is accepted.
pub fn suggest_deletion(doc: &mut TextDoc, idx: usize, range: Range<usize>, track: &Track) -> (r:
    Result<(), ModelError>)
    ensures
        sequence::sound_s(old(doc)@) && r is Ok ==> sequence::sound_s(final(doc)@),
        edits::text_block_s(old(doc)@, idx as int) matches Some(b) ==> doc::writable_s(old(doc)@, b)
            && range.start < range.end <= doc::text_s(old(doc)@, b).len()
            && old(doc)@.s.marks.contains_key(track@.kind.mark_key_s()) ==> r is Ok,
        edits::text_block_s(old(doc)@, idx as int) is None ==> r == Err::<(), ModelError>(
            ModelError::NoBlock,
        ) && final(doc)@ == old(doc)@,
        edits::text_block_s(old(doc)@, idx as int) is Some ==> (r matches Err(e) ==> e
            == ModelError::Store),
        r is Ok ==> tracked_s(
            old(doc)@,
            edits::text_block_s(old(doc)@, idx as int)->0,
            range.start as int,
            range.end as int,
            track@,
            final(doc)@,
        ),
{
    match doc.text_block(idx) {
        Ok(id) => {
            let ghost d = doc@;
            let r = doc.mark_track(id, range.start, range.end, track);
            proof {
                if r is Ok && sequence::sound_s(d) {
                    sequence::law_text_edits_keep_sound(d, doc@, id);
                }
            }
            r
        },
        Err(e) => Err(e),
    }
}

/// Insert a text at `pos` of a paragraph, with no revision.
pub fn insert_text(doc: &mut TextDoc, idx: usize, pos: usize, text: &str) -> (r: Result<
    (),
    ModelError,
>)
    ensures
        sequence::sound_s(old(doc)@) && r is Ok ==> sequence::sound_s(final(doc)@),
        edits::text_block_s(old(doc)@, idx as int) matches Some(b) ==> doc::writable_s(old(doc)@, b)
            && pos <= doc::text_s(old(doc)@, b).len() ==> r is Ok,
        edits::text_block_s(old(doc)@, idx as int) is None ==> r == Err::<(), ModelError>(
            ModelError::NoBlock,
        ) && final(doc)@ == old(doc)@,
        edits::text_block_s(old(doc)@, idx as int) is Some ==> (r matches Err(e) ==> e
            == ModelError::Store),
        r is Ok ==> doc::text_inserted_s(
            old(doc)@,
            edits::text_block_s(old(doc)@, idx as int)->0,
            pos as int,
            text@,
            final(doc)@,
        ),
{
    match doc.text_block(idx) {
        Ok(id) => {
            let ghost d = doc@;
            let r = doc.put_text(id, pos, text);
            proof {
                if r is Ok && sequence::sound_s(d) {
                    sequence::law_text_edits_keep_sound(d, doc@, id);
                }
            }
            r
        },
        Err(e) => Err(e),
    }
}

/// Delete a range of a paragraph, with no revision.
pub fn delete_text(doc: &mut TextDoc, idx: usize, range: Range<usize>) -> (r: Result<
    (),
    ModelError,
>)
    requires
        range.start <= range.end,
    ensures
        sequence::sound_s(old(doc)@) && r is Ok ==> sequence::sound_s(final(doc)@),
        edits::text_block_s(old(doc)@, idx as int) matches Some(b) ==> doc::writable_s(old(doc)@, b) && (
            range.start == range.end || range.end <= doc::text_s(old(doc)@, b).len()) ==> r is Ok,
        edits::text_block_s(old(doc)@, idx as int) is None ==> r == Err::<(), ModelError>(
            ModelError::NoBlock,
        ) && final(doc)@ == old(doc)@,
        edits::text_block_s(old(doc)@, idx as int) is Some ==> (r matches Err(e) ==> e
            == ModelError::Store),
        r is Ok ==> doc::text_cut_s(
            old(doc)@,
            edits::text_block_s(old(doc)@, idx as int)->0,
            range.start as int,
            range.end - range.start,
            final(doc)@,
        ),
{
    match doc.text_block(idx) {
        Ok(id) => {
            let ghost d = doc@;
            let r = doc.cut_text(id, range.start, range.end - range.start);
            proof {
                if r is Ok && sequence::sound_s(d) {
                    sequence::law_text_edits_keep_sound(d, doc@, id);
                }
            }
            r
        },
        Err(e) => Err(e),
    }
}

// ---------------------------------------------------------------- formatting as a suggestion

/// The larger of two positions.
pub open spec fn max_s(a: usize, b: usize) -> usize {
    if a < b {
        b
    } else {
        a
    }
}

/// The smaller of two positions.
pub open spec fn min_s(a: usize, b: usize) -> usize {
    if a < b {
        a
    } else {
        b
    }
}

fn max_of(a: usize, b: usize) -> (r: usize)
    ensures
        r == max_s(a, b),
{
    if a < b {
        b
    } else {
        a
    }
}

fn min_of(a: usize, b: usize) -> (r: usize)
    ensures
        r == min_s(a, b),
{
    if a < b {
        a
    } else {
        b
    }
}

/// The edit that records the old formatting of a stretch.
pub open spec fn fmt_op_s(from: usize, to: usize, c: FormatChangeV) -> TextOpV {
    TextOpV::Put { from, to, key: "rfmt"@, value: ScalarV::Text(writing::fmt_value_s(c)) }
}

/// The edits that record the old formatting of the runs in a range. A run that is already part
/// of a revision, or of a formatting change, keeps what it has.
pub open spec fn record_ops_s(
    v: Seq<RunV>,
    start: usize,
    end: usize,
    author: Seq<char>,
    date: Seq<char>,
    id: u64,
    n: nat,
) -> Seq<TextOpV>
    decreases n,
{
    if n == 0 {
        Seq::empty()
    } else {
        let r = record_ops_s(v, start, end, author, date, id, (n - 1) as nat);
        let from = max_s(edits::offset_s(v, (n - 1) as nat), start);
        let to = min_s(edits::offset_s(v, n), end);
        if from < to && v[n - 1].track is None && v[n - 1].fmt_change is None {
            r.push(fmt_op_s(from, to, FormatChangeV { author, date, id, old: v[n - 1].props() }))
        } else {
            r
        }
    }
}

/// Whether the old formatting of a run is recorded over a range.
pub open spec fn recorded_at_s(v: Seq<RunV>, j: int, start: usize, end: usize) -> bool {
    &&& max_s(edits::offset_s(v, j as nat), start) < min_s(edits::offset_s(v, (j + 1) as nat), end)
    &&& v[j].track is None
    &&& v[j].fmt_change is None
}

/// The change that records the old formatting of a run.
pub open spec fn change_of_s(r: RunV, author: Seq<char>, date: Seq<char>, id: u64) -> FormatChangeV {
    FormatChangeV { author, date, id, old: r.props() }
}

/// Whether what is recorded of the first `n` runs reads back.
pub open spec fn records_read_s(
    v: Seq<RunV>,
    start: usize,
    end: usize,
    author: Seq<char>,
    date: Seq<char>,
    id: u64,
    n: nat,
) -> bool {
    forall|j: int|
        0 <= j < n && #[trigger] recorded_at_s(v, j, start, end) ==> runs::fmt_change_text_s(
            writing::fmt_value_s(change_of_s(v[j], author, date, id)),
        ) == Some(change_of_s(v[j], author, date, id))
}

fn record_ops(v: &Vec<Run>, start: usize, end: usize, author: &str, date: &str, id: u64) -> (r: Vec<
    TextOp,
>)
    ensures
        records_read_s(types::run_vs(v@), start, end, author@, date@, id, v@.len()),
        edits::text_op_vs(r@) == record_ops_s(
            types::run_vs(v@),
            start,
            end,
            author@,
            date@,
            id,
            v@.len(),
        ),
        edits::all_possible_s(edits::text_op_vs(r@)),
{
    let ghost w = types::run_vs(v@);
    let mut out: Vec<TextOp> = Vec::new();
    assert(edits::text_op_vs(out@) =~= Seq::empty());
    let mut pos: usize = 0;
    let mut i: usize = 0;
    while i < v.len()
        invariant
            i <= v@.len(),
            w == types::run_vs(v@),
            pos == edits::offset_s(w, i as nat),
            edits::text_op_vs(out@) == record_ops_s(w, start, end, author@, date@, id, i as nat),
            records_read_s(w, start, end, author@, date@, id, i as nat),
            edits::all_possible_s(edits::text_op_vs(out@)),
        decreases v@.len() - i,
    {
        assert(w[i as int] == v@[i as int]@);
        proof {
            edits::lemma_offset(w, i as nat);
        }
        let next = advance(pos, v[i].text.as_str().unicode_len());
        let from = max_of(pos, start);
        let to = min_of(next, end);
        if from < to && v[i].track.is_none() && v[i].fmt_change.is_none() {
            let c = FormatChange {
                author: author.to_string(),
                date: date.to_string(),
                id,
                old: RunProps::of(&v[i]),
            };
            let op = TextOp::Put {
                from,
                to,
                key: "rfmt".to_string(),
                value: Scalar::Text(fmt_value(&c)),
            };
            push_op(&mut out, Some(op));
        }
        pos = next;
        i = i + 1;
    }
    out
}

proof fn lemma_records_sit(
    marks: Map<Seq<char>, bool>,
    len: nat,
    v: Seq<RunV>,
    start: usize,
    end: usize,
    author: Seq<char>,
    date: Seq<char>,
    id: u64,
    n: nat,
)
    requires
        end <= len,
        n <= v.len(),
        marks.contains_key("rfmt"@),
    ensures
        edits::ops_sit_s(marks, len, record_ops_s(v, start, end, author, date, id, n)),
    decreases n,
{
    if n > 0 {
        lemma_records_sit(marks, len, v, start, end, author, date, id, (n - 1) as nat);
    }
}

/// Apply a formatting command over a range of a paragraph as a tracked change: the old formatting
/// of each run is recorded, except where a run is already part of a revision.
pub fn suggest_format(
    doc: &mut TextDoc,
    idx: usize,
    range: Range<usize>,
    fmt: &RunFormat,
    author: &str,
    date: &str,
    id: u64,
) -> (r: Result<(), ModelError>)
    ensures
        sequence::sound_s(old(doc)@) && r is Ok ==> sequence::sound_s(final(doc)@),
        edits::text_block_s(old(doc)@, idx as int) matches Some(b) ==> doc::writable_s(old(doc)@, b)
            && range.start < range.end <= doc::text_s(old(doc)@, b).len()
            && formatting::format_allowed_s(old(doc)@.s.marks, fmt@)
            && old(doc)@.s.marks.contains_key("rfmt"@) ==> r is Ok,
        edits::text_block_s(old(doc)@, idx as int) is None ==> r == Err::<(), ModelError>(
            ModelError::NoBlock,
        ) && final(doc)@ == old(doc)@,
        edits::text_block_s(old(doc)@, idx as int) is Some ==> (r matches Err(e) ==> e
            == ModelError::Store),
        r is Ok ==> edits::text_edited_s(
            old(doc)@,
            edits::text_block_s(old(doc)@, idx as int)->0,
            formatting::format_ops_s(range.start, range.end, fmt@) + record_ops_s(
                read::paragraphs_s(old(doc)@)[idx as int].runs,
                range.start,
                range.end,
                author@,
                date@,
                id,
                read::paragraphs_s(old(doc)@)[idx as int].runs.len(),
            ),
            final(doc)@,
        ),
        r is Ok ==> records_read_s(
            read::paragraphs_s(old(doc)@)[idx as int].runs,
            range.start,
            range.end,
            author@,
            date@,
            id,
            read::paragraphs_s(old(doc)@)[idx as int].runs.len(),
        ),
{
    let block = match doc.text_block(idx) {
        Ok(id) => id,
        Err(e) => {
            return Err(e);
        },
    };
    let para = doc.read_paragraph(block);
    let mut ops = format_ops(range.start, range.end, fmt);
    let mut more = record_ops(&para.runs, range.start, range.end, author, date, id);
    let ghost a = ops@;
    let ghost b = more@;
    ops.append(&mut more);
    proof {
        assert(edits::text_op_vs(ops@) =~= edits::text_op_vs(a) + edits::text_op_vs(b));
        assert forall|i: int| 0 <= i < edits::text_op_vs(ops@).len() implies edits::possible_s(
            #[trigger] edits::text_op_vs(ops@)[i],
        ) by {
            if i < a.len() {
                assert(edits::text_op_vs(ops@)[i] == edits::text_op_vs(a)[i]);
            } else {
                assert(edits::text_op_vs(ops@)[i] == edits::text_op_vs(b)[i - a.len()]);
            }
        }
    }
    proof {
        let t = doc::text_s(doc@, block);
        let m = doc@.s.marks;
        if range.start < range.end <= t.len() && formatting::format_allowed_s(m, fmt@)
            && m.contains_key("rfmt"@) {
            let v = edits::text_op_vs(ops@);
            let n = read::paragraphs_s(doc@)[idx as int].runs.len();
            formatting::lemma_format_sits(m, t.len(), range.start, range.end, fmt@);
            lemma_records_sit(
                m,
                t.len(),
                para@.runs,
                range.start,
                range.end,
                author@,
                date@,
                id,
                para@.runs.len(),
            );
            assert forall|i: int| 0 <= i < v.len() implies edits::op_sits_s(
                m,
                t.len(),
                #[trigger] v[i],
            ) by {
                if i < a.len() {
                    assert(v[i] == edits::text_op_vs(a)[i]);
                } else {
                    assert(v[i] == edits::text_op_vs(b)[i - a.len()]);
                }
            }
            edits::lemma_sitting_fits(m, t, v);
        }
    }
    let ghost d0 = doc@;
    let r = doc.run_ops(block, &ops);
    proof {
        if r is Ok && sequence::sound_s(d0) {
            sequence::law_text_edits_keep_sound(d0, doc@, block);
        }
    }
    r
}

// ---------------------------------------------------------------- moves

/// A run with the formatting of another and nothing else.
pub open spec fn clean_run_s(r: RunV, text: Seq<char>) -> RunV {
    RunV {
        text,
        track: None,
        fmt_change: None,
        comments: Seq::empty(),
        field: None,
        bookmarks: Seq::empty(),
        point_bookmarks: Seq::empty(),
        end_point_bookmarks: Seq::empty(),
        link: None,
        image: None,
        raw: None,
        ..r
    }
}

/// The runs of `start..end` among the first `n`, with their formatting alone.
pub open spec fn slice_s(v: Seq<RunV>, start: usize, end: usize, n: nat) -> Seq<RunV>
    decreases n,
{
    if n == 0 {
        Seq::empty()
    } else {
        let r = slice_s(v, start, end, (n - 1) as nat);
        let at = edits::offset_s(v, (n - 1) as nat);
        let from = max_s(at, start);
        let to = min_s(edits::offset_s(v, n), end);
        if from < to {
            r.push(clean_run_s(v[n - 1], v[n - 1].text.subrange(from - at, to - at)))
        } else {
            r
        }
    }
}

fn clean_run(r: &Run, from: usize, to: usize) -> (o: Run)
    requires
        from <= to <= r@.text.len(),
    ensures
        o@ == clean_run_s(r@, r@.text.subrange(from as int, to as int)),
{
    let c = chars_of(r.text.as_str());
    let mut o = r.clone();
    o.text = string_of(&c, from, to);
    o.track = None;
    o.fmt_change = None;
    o.comments = Vec::new();
    o.field = None;
    o.bookmarks = Vec::new();
    o.point_bookmarks = Vec::new();
    o.end_point_bookmarks = Vec::new();
    o.link = None;
    o.image = None;
    o.raw = None;
    assert(o@ =~= clean_run_s(r@, r@.text.subrange(from as int, to as int)));
    o
}

pub(crate) fn slice_runs(v: &Vec<Run>, start: usize, end: usize) -> (r: Vec<Run>)
    ensures
        types::run_vs(r@) == slice_s(types::run_vs(v@), start, end, v@.len()),
{
    let ghost w = types::run_vs(v@);
    let mut out: Vec<Run> = Vec::new();
    assert(types::run_vs(out@) =~= Seq::empty());
    let mut pos: usize = 0;
    let mut i: usize = 0;
    while i < v.len()
        invariant
            i <= v@.len(),
            w == types::run_vs(v@),
            pos == edits::offset_s(w, i as nat),
            types::run_vs(out@) == slice_s(w, start, end, i as nat),
        decreases v@.len() - i,
    {
        assert(w[i as int] == v@[i as int]@);
        proof {
            edits::lemma_offset(w, i as nat);
        }
        let next = advance(pos, v[i].text.as_str().unicode_len());
        let from = max_of(pos, start);
        let to = min_of(next, end);
        if from < to {
            let ghost was = out@;
            let o = clean_run(&v[i], from - pos, to - pos);
            let ghost ov = o@;
            out.push(o);
            assert(types::run_vs(out@) =~= types::run_vs(was).push(ov));
        }
        pos = next;
        i = i + 1;
    }
    out
}

/// The runs, all under one revision.
pub open spec fn tagged_s(v: Seq<RunV>, t: TrackV) -> Seq<RunV> {
    Seq::new(v.len(), |i: int| RunV { track: Some(t), ..v[i] })
}

fn tagged(v: &Vec<Run>, t: &Track) -> (r: Vec<Run>)
    ensures
        types::run_vs(r@) == tagged_s(types::run_vs(v@), t@),
{
    let ghost w = types::run_vs(v@);
    let mut out: Vec<Run> = Vec::new();
    let mut i: usize = 0;
    while i < v.len()
        invariant
            i <= v@.len(),
            w == types::run_vs(v@),
            out@.len() == i,
            forall|j: int| 0 <= j < i ==> (#[trigger] out@[j])@ == tagged_s(w, t@)[j],
        decreases v@.len() - i,
    {
        assert(w[i as int] == v@[i as int]@);
        let mut r = v[i].clone();
        r.track = Some(t.clone());
        assert(r@ =~= tagged_s(w, t@)[i as int]);
        out.push(r);
        i = i + 1;
    }
    assert(types::run_vs(out@) =~= tagged_s(w, t@));
    out
}

/// The revision of one half of a move.
pub open spec fn half_s(kind: TrackKind, author: Seq<char>, date: Seq<char>, id: u64) -> TrackV {
    TrackV { kind, author, date, id }
}

/// Whether `e` is `d` with a range marked as moved away and a copy of it written elsewhere.
pub open spec fn move_done_s(
    d: DocV,
    from: BlockId,
    start: usize,
    end: usize,
    v: Seq<RunV>,
    to: BlockId,
    to_pos: usize,
    author: Seq<char>,
    date: Seq<char>,
    id: u64,
    mid: DocV,
    e: DocV,
) -> bool {
    &&& tracked_s(
        d,
        from,
        start as int,
        end as int,
        half_s(TrackKind::MoveFrom, author, date, id),
        mid,
    )
    &&& writing::runs_written_s(
        mid,
        to,
        to_pos as int,
        tagged_s(
            slice_s(v, start, end, v.len()),
            half_s(TrackKind::MoveTo, author, date, id),
        ),
        e,
    )
}

/// Whether a range can be moved: it stands in a paragraph's text and is not empty, the place it
/// goes to is one of a paragraph's text, and the marks of both halves may be set.
pub open spec fn move_ready_s(
    d: DocV,
    from_idx: usize,
    start: usize,
    end: usize,
    to_idx: usize,
    to_pos: usize,
    author: Seq<char>,
    date: Seq<char>,
    id: u64,
) -> bool {
    let v = read::paragraphs_s(d)[from_idx as int].runs;
    &&& edits::text_block_s(d, from_idx as int) matches Some(b) && doc::writable_s(d, b) && start
        < end <= doc::text_s(d, b).len()
    &&& edits::text_block_s(d, to_idx as int) matches Some(b) && doc::writable_s(d, b) && to_pos
        <= doc::text_s(d, b).len()
    &&& d.s.marks.contains_key(TrackKind::MoveFrom.mark_key_s())
    &&& writing::insertable_s(
        d.s.marks,
        to_pos as int,
        tagged_s(slice_s(v, start, end, v.len()), half_s(TrackKind::MoveTo, author, date, id)),
    )
}

/// Marking a range leaves which paragraphs there are, how long they are and what may be written.
proof fn lemma_tracked_keeps_places(d: DocV, id: BlockId, from: int, to: int, t: TrackV, e: DocV)
    requires
        tracked_s(d, id, from, to, t, e),
    ensures
        forall|i: int| #[trigger] edits::text_block_s(e, i) == edits::text_block_s(d, i),
        forall|b: BlockId|
            d.s.texts.contains_key(b) ==> #[trigger] doc::text_s(e, b).len() == doc::text_s(
                d,
                b,
            ).len(),
        forall|b: BlockId| doc::writable_s(d, b) ==> #[trigger] doc::writable_s(e, b),
        e.s.marks == d.s.marks,
{
    read::lemma_text_keeps_shape(d, e, id);
}

/// Write runs at `pos` of a paragraph of the flat sequence.
fn put_copy(doc: &mut TextDoc, idx: usize, pos: usize, v: &Vec<Run>) -> (r: Result<(), ModelError>)
    ensures
        edits::text_block_s(old(doc)@, idx as int) is None ==> r == Err::<(), ModelError>(
            ModelError::NoBlock,
        ),
        edits::text_block_s(old(doc)@, idx as int) matches Some(b) ==> {
            &&& doc::writable_s(old(doc)@, b) && pos <= doc::text_s(old(doc)@, b).len()
                && writing::insertable_s(old(doc)@.s.marks, pos as int, types::run_vs(v@)) ==> r is Ok
            &&& r is Ok ==> writing::runs_written_s(
                old(doc)@,
                b,
                pos as int,
                types::run_vs(v@),
                final(doc)@,
            )
            &&& r matches Err(e) ==> e == ModelError::Store
        },
{
    let to = match doc.text_block(idx) {
        Ok(id) => id,
        Err(e) => {
            return Err(e);
        },
    };
    if pos > doc.text_len(to) {
        return Err(ModelError::Store);
    }
    doc.append_runs(to, pos, v)
}

/// Move a range as a tracked change: the range is marked as moved away and stays, and a copy
/// with its formatting is written at `to_pos` of a paragraph, marked as moved there. Both halves
/// share one id. A range is not moved into itself.
#[verifier::rlimit(60)]
pub fn suggest_move(
    doc: &mut TextDoc,
    from_idx: usize,
    from_range: Range<usize>,
    to_idx: usize,
    to_pos: usize,
    author: &str,
    date: &str,
    id: u64,
) -> (r: Result<(), ModelError>)
    ensures
        !(from_idx == to_idx && from_range.start < to_pos < from_range.end) && move_ready_s(
            old(doc)@,
            from_idx,
            from_range.start,
            from_range.end,
            to_idx,
            to_pos,
            author@,
            date@,
            id,
        ) ==> r is Ok,
        from_idx == to_idx && from_range.start < to_pos < from_range.end ==> r == Err::<
            (),
            ModelError,
        >(ModelError::MoveIntoItself) && final(doc)@ == old(doc)@,
        !(from_idx == to_idx && from_range.start < to_pos < from_range.end)
            && edits::text_block_s(old(doc)@, from_idx as int) is None ==> r == Err::<
            (),
            ModelError,
        >(ModelError::NoBlock) && final(doc)@ == old(doc)@,
        r matches Err(e) ==> e == ModelError::Store || e == ModelError::NoBlock || (e
            == ModelError::MoveIntoItself && from_idx == to_idx && from_range.start < to_pos
            < from_range.end),
        r == Err::<(), ModelError>(ModelError::NoBlock) ==> edits::text_block_s(
            old(doc)@,
            from_idx as int,
        ) is None || edits::text_block_s(old(doc)@, to_idx as int) is None,
        r is Ok ==> edits::text_block_s(old(doc)@, to_idx as int) is Some && exists|mid: DocV|
         #[trigger]
            move_done_s(
                old(doc)@,
                edits::text_block_s(old(doc)@, from_idx as int)->0,
                from_range.start,
                from_range.end,
                read::paragraphs_s(old(doc)@)[from_idx as int].runs,
                edits::text_block_s(old(doc)@, to_idx as int)->0,
                to_pos,
                author@,
                date@,
                id,
                mid,
                final(doc)@,
            ),
{
    if from_idx == to_idx && to_pos > from_range.start && to_pos < from_range.end {
        return Err(ModelError::MoveIntoItself);
    }
    let ghost d = doc@;
    let from = match doc.text_block(from_idx) {
        Ok(id) => id,
        Err(e) => {
            return Err(e);
        },
    };
    let src = doc.read_paragraph(from);
    let mv_to = Track {
        kind: TrackKind::MoveTo,
        author: author.to_string(),
        date: date.to_string(),
        id,
    };
    let mv_from = Track {
        kind: TrackKind::MoveFrom,
        author: author.to_string(),
        date: date.to_string(),
        id,
    };
    let moved = tagged(&slice_runs(&src.runs, from_range.start, from_range.end), &mv_to);
    match doc.mark_track(from, from_range.start, from_range.end, &mv_from) {
        Ok(()) => {},
        Err(e) => {
            return Err(e);
        },
    }
    let ghost mid = doc@;
    proof {
        lemma_tracked_keeps_places(
            d,
            from,
            from_range.start as int,
            from_range.end as int,
            mv_from@,
            mid,
        );
    }
    match put_copy(doc, to_idx, to_pos, &moved) {
        Ok(()) => {},
        Err(e) => {
            return Err(e);
        },
    }
    proof {
        assert(move_done_s(
            d,
            from,
            from_range.start,
            from_range.end,
            src@.runs,
            edits::text_block_s(d, to_idx as int)->0,
            to_pos,
            author@,
            date@,
            id,
            mid,
            doc@,
        ));
    }
    Ok(())
}

// ---------------------------------------------------------------- moves across paragraphs

/// One step of a move across paragraphs.
pub enum MoveStep {
    /// Mark a range of a paragraph as moved away.
    Source { para: usize, from: usize, to: usize },
    /// Mark the end of a paragraph as part of one half of the move.
    Mark { para: usize, kind: TrackKind },
    /// Split a paragraph.
    Split { para: usize, pos: usize },
    /// Insert an empty paragraph.
    Insert { para: usize },
    /// Write runs into a paragraph.
    Write { para: usize, pos: usize, runs: Vec<Run> },
}

/// The mathematical value of a [`MoveStep`].
#[verifier::ext_equal]
pub enum MoveStepV {
    Source { para: usize, from: usize, to: usize },
    Mark { para: usize, kind: TrackKind },
    Split { para: usize, pos: usize },
    Insert { para: usize },
    Write { para: usize, pos: usize, runs: Seq<RunV> },
}

impl View for MoveStep {
    type V = MoveStepV;

    open spec fn view(&self) -> MoveStepV {
        match self {
            MoveStep::Source { para, from, to } => MoveStepV::Source {
                para: *para,
                from: *from,
                to: *to,
            },
            MoveStep::Mark { para, kind } => MoveStepV::Mark { para: *para, kind: *kind },
            MoveStep::Split { para, pos } => MoveStepV::Split { para: *para, pos: *pos },
            MoveStep::Insert { para } => MoveStepV::Insert { para: *para },
            MoveStep::Write { para, pos, runs } => MoveStepV::Write {
                para: *para,
                pos: *pos,
                runs: types::run_vs(runs@),
            },
        }
    }
}

pub open spec fn move_step_vs(v: Seq<MoveStep>) -> Seq<MoveStepV> {
    Seq::new(v.len(), |i: int| v[i]@)
}

/// Who moves, and under which id.
pub struct MoveBy<'a> {
    pub author: &'a str,
    pub date: &'a str,
    pub id: u64,
}

/// The mathematical value of a [`MoveBy`].
pub struct MoveByV {
    pub author: Seq<char>,
    pub date: Seq<char>,
    pub id: u64,
}

impl<'a> View for MoveBy<'a> {
    type V = MoveByV;

    open spec fn view(&self) -> MoveByV {
        MoveByV { author: self.author@, date: self.date@, id: self.id }
    }
}

pub open spec fn by_half_s(by: MoveByV, kind: TrackKind) -> TrackV {
    half_s(kind, by.author, by.date, by.id)
}

/// Whether `e` is `d` with a paragraph split.
pub open spec fn split_step_s(d: DocV, para: usize, pos: usize, e: DocV) -> bool {
    para < read::refs_s(d).len() && exists|mid: DocV, id: BlockId| #[trigger]
        structure::split_done_s(d, para as int, pos, mid, id, e)
}

/// Whether `e` is `d` with an empty paragraph inserted.
pub open spec fn insert_step_s(d: DocV, para: usize, e: DocV) -> bool {
    exists|id: BlockId| #[trigger] structure::empty_inserted_s(d, para as int, id, e)
}

/// Whether `e` is `d` after one step.
pub open spec fn step_s(d: DocV, by: MoveByV, s: MoveStepV, e: DocV) -> bool {
    match s {
        MoveStepV::Source { para, from, to } => {
            &&& edits::text_block_s(d, para as int) matches Some(id)
            &&& doc::text_marked_s(
                d,
                id,
                from as int,
                to as int,
                TrackKind::MoveFrom.mark_key_s(),
                ScalarV::Text(writing::track_value_s(by_half_s(by, TrackKind::MoveFrom))),
                e,
            )
        },
        MoveStepV::Mark { para, kind } => {
            let roots = read::para_roots_s(d, d.s.roots.len());
            &&& para < roots.len()
            &&& !(kind is Fmt)
            &&& e == doc::meta_set_s(
                d,
                roots[para as int],
                "pmark"@,
                ScalarV::Text(
                    props::mark_text_s(props::kind_name_s(kind)->0, by_half_s(by, kind)),
                ),
            )
        },
        MoveStepV::Split { para, pos } => split_step_s(d, para, pos, e),
        MoveStepV::Insert { para } => insert_step_s(d, para, e),
        MoveStepV::Write { para, pos, runs } => {
            &&& edits::text_block_s(d, para as int) matches Some(id)
            &&& writing::runs_written_s(d, id, pos as int, runs, e)
        },
    }
}

/// Whether a step can be taken.
pub open spec fn step_ready_s(d: DocV, s: MoveStepV) -> bool {
    match s {
        MoveStepV::Source { para, from, to } => edits::text_block_s(d, para as int) matches Some(b)
            && doc::writable_s(d, b) && from < to <= doc::text_s(d, b).len()
            && d.s.marks.contains_key(TrackKind::MoveFrom.mark_key_s()),
        MoveStepV::Mark { para, kind } => d.s.editable && para < read::para_roots_s(
            d,
            d.s.roots.len(),
        ).len(),
        MoveStepV::Split { para, pos } => para < read::refs_s(d).len() && doc::writable_s(
            d,
            read::block_s(d, para as int),
        ) && writing::insertable_s(
            d.s.marks,
            0,
            structure::runs_from_s(
                read::runs_of_s(d, read::block_s(d, para as int)),
                pos,
                read::runs_of_s(d, read::block_s(d, para as int)).len(),
            ),
        ),
        MoveStepV::Insert { para } => d.s.editable,
        MoveStepV::Write { para, pos, runs } => edits::text_block_s(d, para as int) matches Some(b)
            && doc::writable_s(d, b) && pos <= doc::text_s(d, b).len() && writing::insertable_s(
            d.s.marks,
            pos as int,
            runs,
        ),
    }
}

/// Whether the states lead from `d` to one in which the next step cannot be taken.
pub open spec fn stuck_s(states: Seq<DocV>, d: DocV, by: MoveByV, steps: Seq<MoveStepV>) -> bool {
    &&& 0 < states.len() <= steps.len()
    &&& states[0] == d
    &&& forall|i: int|
        0 <= i < states.len() - 1 ==> step_s(#[trigger] states[i], by, steps[i], states[i + 1])
    &&& !step_ready_s(states.last(), steps[states.len() - 1])
}

/// Whether each state follows from the one before it by the step between them.
pub open spec fn steps_s(states: Seq<DocV>, by: MoveByV, steps: Seq<MoveStepV>) -> bool {
    &&& states.len() == steps.len() + 1
    &&& forall|i: int|
        0 <= i < steps.len() ==> step_s(
            #[trigger] states[i],
            by,
            steps[i],
            states[i + 1],
        )
}

/// The length of a paragraph, 0 past the last one.
pub open spec fn para_len_s(v: Seq<ParagraphV>, p: int) -> usize {
    if 0 <= p < v.len() {
        import::chars_s(v[p].runs)
    } else {
        0
    }
}

/// Marking the whole paragraphs from `p` up to `ep`.
pub open spec fn middle_steps_s(v: Seq<ParagraphV>, p: int, ep: int) -> Seq<MoveStepV>
    decreases ep - p,
{
    if p >= ep {
        Seq::empty()
    } else {
        let r = middle_steps_s(v, p + 1, ep);
        let len = para_len_s(v, p);
        if len > 0 {
            seq![MoveStepV::Source { para: p as usize, from: 0, to: len }] + r
        } else {
            r
        }
    }
}

/// Marking the end of a paragraph as moved away.
pub open spec fn left_mark_s(p: int) -> MoveStepV {
    MoveStepV::Mark { para: p as usize, kind: TrackKind::MoveFrom }
}

/// Marking what is moved away.
pub open spec fn source_steps_s(v: Seq<ParagraphV>, sp: usize, so: usize, ep: usize, eo: usize) -> Seq<
    MoveStepV,
> {
    let len = para_len_s(v, sp as int);
    let first = if so < len {
        seq![MoveStepV::Source { para: sp, from: so, to: len }]
    } else {
        Seq::empty()
    };
    let last = if eo > 0 {
        seq![MoveStepV::Source { para: ep, from: 0, to: eo }]
    } else {
        Seq::empty()
    };
    let marks = Seq::new((ep - sp) as nat, |i: int| left_mark_s(sp + i));
    first + middle_steps_s(v, sp + 1, ep as int) + last + marks
}

/// The moved runs of each paragraph: the end of the first, the whole of those between, and the
/// beginning of the last.
pub open spec fn moved_s(v: Seq<ParagraphV>, sp: usize, so: usize, ep: usize, eo: usize) -> Seq<Seq<RunV>> {
    let between = if ep > sp {
        ep - sp - 1
    } else {
        0
    };
    Seq::new(
        (between + 2) as nat,
        |i: int|
            if i == 0 {
                whole_slice_s(v, sp as int, so, para_len_s(v, sp as int))
            } else if i <= between {
                whole_slice_s(v, sp + i, 0, para_len_s(v, sp + i))
            } else {
                whole_slice_s(v, ep as int, 0, eo)
            },
    )
}

pub open spec fn whole_slice_s(v: Seq<ParagraphV>, p: int, from: usize, to: usize) -> Seq<RunV> {
    slice_s(v[p].runs, from, to, v[p].runs.len())
}

/// The step that writes moved runs.
pub open spec fn write_step_s(para: int, pos: usize, v: Seq<RunV>, by: MoveByV) -> MoveStepV {
    MoveStepV::Write {
        para: para as usize,
        pos,
        runs: tagged_s(v, by_half_s(by, TrackKind::MoveTo)),
    }
}

/// Writing the paragraphs between the first and the last, up to the `n`-th.
pub open spec fn inner_steps_s(moved: Seq<Seq<RunV>>, tp: usize, by: MoveByV, n: int) -> Seq<MoveStepV>
    decreases n,
{
    if n <= 1 {
        Seq::empty()
    } else {
        let p = tp + n - 1;
        inner_steps_s(moved, tp, by, n - 1) + seq![
            MoveStepV::Insert { para: p as usize },
            write_step_s(p, 0, moved[n - 1], by),
            MoveStepV::Mark { para: p as usize, kind: TrackKind::MoveTo },
        ]
    }
}

/// Writing what is moved: the paragraph at `tp` is split, the first piece goes to the end of its
/// head, those between become paragraphs of their own, and the last goes before its tail.
pub open spec fn target_steps_s(
    moved: Seq<Seq<RunV>>,
    k: int,
    tp: usize,
    to_pos: usize,
    by: MoveByV,
) -> Seq<MoveStepV> {
    seq![
        MoveStepV::Split { para: tp, pos: to_pos },
        MoveStepV::Mark { para: tp, kind: TrackKind::MoveTo },
        write_step_s(tp as int, to_pos, moved[0], by),
    ] + inner_steps_s(moved, tp, by, k - 1) + seq![write_step_s(tp + k - 1, 0, moved[k - 1], by)]
}

/// All steps of a move across paragraphs.
pub open spec fn move_steps_s(
    v: Seq<ParagraphV>,
    sp: usize,
    so: usize,
    ep: usize,
    eo: usize,
    tp: usize,
    to_pos: usize,
    by: MoveByV,
) -> Seq<MoveStepV> {
    source_steps_s(v, sp, so, ep, eo) + target_steps_s(
        moved_s(v, sp, so, ep, eo),
        ep - sp + 1,
        tp,
        to_pos,
        by,
    )
}

fn para_len(v: &Vec<Paragraph>, p: usize) -> (r: usize)
    ensures
        r == para_len_s(types::paragraph_vs(v@), p as int),
{
    if p < v.len() {
        assert(types::paragraph_vs(v@)[p as int] == v@[p as int]@);
        chars(&v[p].runs)
    } else {
        0
    }
}

fn source_steps(v: &Vec<Paragraph>, sp: usize, so: usize, ep: usize, eo: usize) -> (r: Vec<MoveStep>)
    requires
        sp <= ep,
        ep < v@.len(),
    ensures
        move_step_vs(r@) == source_steps_s(types::paragraph_vs(v@), sp, so, ep, eo),
{
    let ghost w = types::paragraph_vs(v@);
    let mut out: Vec<MoveStep> = Vec::new();
    let count = v.len();
    let len = para_len(v, sp);
    if so < len {
        out.push(MoveStep::Source { para: sp, from: so, to: len });
    }
    let ghost first = move_step_vs(out@);
    assert(first =~= (if so < len {
        seq![MoveStepV::Source { para: sp, from: so, to: len }]
    } else {
        Seq::empty()
    }));
    let mut p: usize = sp + 1;
    assert(first + middle_steps_s(w, sp + 1, ep as int) =~= move_step_vs(out@) + middle_steps_s(
        w,
        p as int,
        ep as int,
    ));
    while p < ep
        invariant
            sp < p,
            ep < v@.len(),
            w == types::paragraph_vs(v@),
            first + middle_steps_s(w, sp + 1, ep as int) == move_step_vs(out@) + middle_steps_s(
                w,
                p as int,
                ep as int,
            ),
        decreases ep - p,
    {
        let ghost was = move_step_vs(out@);
        let len = para_len(v, p);
        let ghost rest = middle_steps_s(w, p + 1, ep as int);
        if len > 0 {
            out.push(MoveStep::Source { para: p, from: 0, to: len });
            assert(was + middle_steps_s(w, p as int, ep as int) =~= move_step_vs(out@) + rest);
        }
        p = p + 1;
    }
    let ghost mid = move_step_vs(out@);
    assert(mid =~= first + middle_steps_s(w, sp + 1, ep as int));
    if eo > 0 {
        out.push(MoveStep::Source { para: ep, from: 0, to: eo });
    }
    let ghost last = if eo > 0 {
        seq![MoveStepV::Source { para: ep, from: 0, to: eo }]
    } else {
        Seq::empty()
    };
    assert(move_step_vs(out@) =~= mid + last);
    let ghost base = move_step_vs(out@);
    let mut p: usize = sp;
    while p < ep
        invariant
            sp <= p <= ep,
            move_step_vs(out@) =~= base + Seq::new((p - sp) as nat, |i: int| left_mark_s(sp + i)),
        decreases ep - p,
    {
        let ghost was = move_step_vs(out@);
        out.push(MoveStep::Mark { para: p, kind: TrackKind::MoveFrom });
        proof {
            let a = Seq::new((p - sp) as nat, |i: int| left_mark_s(sp + i));
            let b = Seq::new((p + 1 - sp) as nat, |i: int| left_mark_s(sp + i));
            assert(b =~= a.push(left_mark_s(p as int)));
            assert(move_step_vs(out@) =~= was.push(left_mark_s(p as int)));
            assert(move_step_vs(out@) =~= base + b);
        }
        p = p + 1;
    }
    out
}

fn write_step(para: usize, pos: usize, v: &Vec<Run>, t: &Track, Ghost(by): Ghost<MoveByV>) -> (r: MoveStep)
    requires
        t@ == by_half_s(by, TrackKind::MoveTo),
    ensures
        r@ == write_step_s(para as int, pos, types::run_vs(v@), by),
{
    MoveStep::Write { para, pos, runs: tagged(v, t) }
}

pub open spec fn lists_s(v: Seq<Vec<Run>>) -> Seq<Seq<RunV>> {
    Seq::new(v.len(), |i: int| types::run_vs(v[i]@))
}

fn moved_runs(v: &Vec<Paragraph>, sp: usize, so: usize, ep: usize, eo: usize) -> (r: Vec<Vec<Run>>)
    requires
        sp <= ep,
        ep < v@.len(),
    ensures
        lists_s(r@) == moved_s(types::paragraph_vs(v@), sp, so, ep, eo),
{
    let ghost w = types::paragraph_vs(v@);
    let ghost want = moved_s(w, sp, so, ep, eo);
    let mut out: Vec<Vec<Run>> = Vec::new();
    let count = v.len();
    assert(w[sp as int] == v@[sp as int]@);
    out.push(slice_runs(&v[sp].runs, so, para_len(v, sp)));
    let mut p: usize = sp + 1;
    while p < ep
        invariant
            sp < p <= ep || (p == sp + 1 && sp == ep),
            ep < v@.len(),
            w == types::paragraph_vs(v@),
            want == moved_s(w, sp, so, ep, eo),
            out@.len() == p - sp,
            forall|j: int| 0 <= j < out@.len() ==> types::run_vs((#[trigger] out@[j])@) == want[j],
        decreases ep - p,
    {
        assert(w[p as int] == v@[p as int]@);
        out.push(slice_runs(&v[p].runs, 0, para_len(v, p)));
        p = p + 1;
    }
    assert(w[ep as int] == v@[ep as int]@);
    out.push(slice_runs(&v[ep].runs, 0, eo));
    assert(lists_s(out@) =~= want);
    out
}

fn target_steps(moved: &Vec<Vec<Run>>, k: usize, tp: usize, to_pos: usize, t: &Track, Ghost(by): Ghost<
    MoveByV,
>) -> (r: Vec<MoveStep>)
    requires
        t@ == by_half_s(by, TrackKind::MoveTo),
        1 <= k <= moved@.len(),
        tp + k <= usize::MAX,
    ensures
        move_step_vs(r@) == target_steps_s(lists_s(moved@), k as int, tp, to_pos, by),
{
    let ghost w = lists_s(moved@);
    let mut out: Vec<MoveStep> = Vec::new();
    out.push(MoveStep::Split { para: tp, pos: to_pos });
    out.push(MoveStep::Mark { para: tp, kind: TrackKind::MoveTo });
    assert(w[0] == types::run_vs(moved@[0]@));
    out.push(write_step(tp, to_pos, &moved[0], t, Ghost(by)));
    let ghost head = move_step_vs(out@);
    assert(head =~= seq![
        MoveStepV::Split { para: tp, pos: to_pos },
        MoveStepV::Mark { para: tp, kind: TrackKind::MoveTo },
        write_step_s(tp as int, to_pos, w[0], by),
    ]);
    assert(head + inner_steps_s(w, tp, by, 1) =~= head);
    let mut i: usize = 1;
    while i < k - 1
        invariant
            1 <= i <= k,
            i <= k - 1 || k == 1,
            k <= moved@.len(),
            tp + k <= usize::MAX,
            w == lists_s(moved@),
            t@ == by_half_s(by, TrackKind::MoveTo),
            move_step_vs(out@) == head + inner_steps_s(w, tp, by, i as int),
        decreases k - i,
    {
        let ghost was = out@;
        assert(w[i as int] == types::run_vs(moved@[i as int]@));
        out.push(MoveStep::Insert { para: tp + i });
        out.push(write_step(tp + i, 0, &moved[i], t, Ghost(by)));
        out.push(MoveStep::Mark { para: tp + i, kind: TrackKind::MoveTo });
        proof {
            let more = seq![
                MoveStepV::Insert { para: (tp + i) as usize },
                write_step_s(tp + i, 0, w[i as int], by),
                MoveStepV::Mark { para: (tp + i) as usize, kind: TrackKind::MoveTo },
            ];
            assert(move_step_vs(out@) =~= move_step_vs(was) + more);
            assert(inner_steps_s(w, tp, by, i + 1) == inner_steps_s(w, tp, by, i as int) + more);
            assert(move_step_vs(out@) =~= head + inner_steps_s(w, tp, by, i + 1));
        }
        i = i + 1;
    }
    let ghost was = out@;
    assert(w[k - 1] == types::run_vs(moved@[k - 1]@));
    out.push(write_step(tp + (k - 1), 0, &moved[k - 1], t, Ghost(by)));
    assert(move_step_vs(out@) =~= move_step_vs(was) + seq![
        write_step_s(tp + k - 1, 0, w[k - 1], by),
    ]);
    out
}

impl TextDoc {
    fn split_step(&mut self, para: usize, pos: usize) -> (r: Result<(), ModelError>)
        ensures
            step_ready_s(old(self)@, (MoveStepV::Split { para, pos })) ==> r is Ok,
            r is Ok ==> split_step_s(old(self)@, para, pos, final(self)@),
            r matches Err(e) ==> e == ModelError::Store || e == ModelError::NoBlock,
    {
        split_paragraph(self, para, pos)
    }

    fn insert_step(&mut self, para: usize) -> (r: Result<(), ModelError>)
        ensures
            old(self)@.s.editable ==> r is Ok,
            r is Ok ==> insert_step_s(old(self)@, para, final(self)@),
            r matches Err(e) ==> e == ModelError::Store,
    {
        insert_empty_paragraph(self, para)
    }

    fn run_step(&mut self, by: &MoveBy, s: &MoveStep) -> (r: Result<(), ModelError>)
        requires
            s matches MoveStep::Mark { para, kind } ==> !(kind is Fmt),
        ensures
            step_ready_s(old(self)@, s@) ==> r is Ok,
            r is Ok ==> step_s(old(self)@, by@, s@, final(self)@),
            r matches Err(e) ==> e == ModelError::Store || e == ModelError::NoBlock,
    {
        let ghost d = self@;
        match s {
            MoveStep::Source { para, from, to } => {
                let t = by.half(TrackKind::MoveFrom);
                let r = match self.text_block(*para) {
                    Ok(id) => self.mark_track(id, *from, *to, &t),
                    Err(e) => Err(e),
                };
                assert(r is Ok ==> step_s(d, by@, s@, self@));
                r
            },
            MoveStep::Mark { para, kind } => {
                let t = by.half(*kind);
                let r = set_para_mark(self, *para, &t);
                assert(r is Ok ==> step_s(d, by@, s@, self@));
                r
            },
            MoveStep::Split { para, pos } => {
                self.split_step(*para, *pos)
            },
            MoveStep::Insert { para } => {
                self.insert_step(*para)
            },
            MoveStep::Write { para, pos, runs } => {
                let id = match self.text_block(*para) {
                    Ok(id) => id,
                    Err(e) => {
                        return Err(e);
                    },
                };
                if *pos > self.text_len(id) {
                    return Err(ModelError::Store);
                }
                let r = self.append_runs(id, *pos, runs);
                assert(r is Ok ==> step_s(d, by@, s@, self@));
                r
            },
        }
    }
}

impl<'a> MoveBy<'a> {
    fn half(&self, kind: TrackKind) -> (r: Track)
        ensures
            r@ == by_half_s(self@, kind),
    {
        Track {
            kind,
            author: self.author.to_string(),
            date: self.date.to_string(),
            id: self.id,
        }
    }
}

pub open spec fn no_fmt_s(v: Seq<MoveStepV>) -> bool {
    forall|i: int|
        0 <= i < v.len() ==> (#[trigger] v[i] matches MoveStepV::Mark { para, kind } ==> !(
        kind is Fmt))
}

proof fn lemma_middle_marks(v: Seq<ParagraphV>, p: int, ep: int)
    ensures
        no_fmt_s(middle_steps_s(v, p, ep)),
    decreases ep - p,
{
    if p < ep {
        lemma_middle_marks(v, p + 1, ep);
    }
}

proof fn lemma_inner_marks(moved: Seq<Seq<RunV>>, tp: usize, by: MoveByV, n: int)
    ensures
        no_fmt_s(inner_steps_s(moved, tp, by, n)),
    decreases n,
{
    if n > 1 {
        lemma_inner_marks(moved, tp, by, n - 1);
    }
}

proof fn lemma_move_marks(
    v: Seq<ParagraphV>,
    sp: usize,
    so: usize,
    ep: usize,
    eo: usize,
    tp: usize,
    to_pos: usize,
    by: MoveByV,
)
    requires
        sp <= ep,
    ensures
        no_fmt_s(move_steps_s(v, sp, so, ep, eo, tp, to_pos, by)),
{
    lemma_middle_marks(v, sp + 1, ep as int);
    lemma_inner_marks(moved_s(v, sp, so, ep, eo), tp, by, ep - sp);
}

/// Move the text from `so` of paragraph `sp` to `eo` of paragraph `ep` as a tracked change, to
/// `to_pos` of paragraph `tp`: what is moved away is marked, the ends of the paragraphs between
/// included, and a copy is written with its breaks. Answers how many paragraphs are new.
#[verifier::rlimit(40)]
pub fn suggest_move_multi(
    doc: &mut TextDoc,
    sp: usize,
    so: usize,
    ep: usize,
    eo: usize,
    tp: usize,
    to_pos: usize,
    author: &str,
    date: &str,
    id: u64,
) -> (r: Result<usize, ModelError>)
    requires
        sp <= ep,
        ep < read::refs_s(old(doc)@).len(),
        tp + (ep - sp) < usize::MAX,
    ensures
        r matches Ok(n) ==> n == ep - sp && exists|states: Seq<DocV>| #[trigger]
            steps_s(
                states,
                MoveByV { author: author@, date: date@, id },
                move_steps_s(
                    read::paragraphs_s(old(doc)@),
                    sp,
                    so,
                    ep,
                    eo,
                    tp,
                    to_pos,
                    MoveByV { author: author@, date: date@, id },
                ),
            ) && states.first() == old(doc)@ && states.last() == final(doc)@,
        r matches Err(e) ==> e == ModelError::Store || e == ModelError::NoBlock,
        r is Err ==> exists|states: Seq<DocV>| #[trigger]
            stuck_s(
                states,
                old(doc)@,
                MoveByV { author: author@, date: date@, id },
                move_steps_s(
                    read::paragraphs_s(old(doc)@),
                    sp,
                    so,
                    ep,
                    eo,
                    tp,
                    to_pos,
                    MoveByV { author: author@, date: date@, id },
                ),
            ),
{
    let ghost d = doc@;
    let by = MoveBy { author, date, id };
    let ghost byv = MoveByV { author: author@, date: date@, id };
    let paras = match read_paragraphs(doc) {
        Ok(v) => v,
        Err(_) => {
            return Err(ModelError::NoBlock);
        },
    };
    let ghost w = read::paragraphs_s(d);
    assert(types::paragraph_vs(paras@).len() == paras@.len());
    let mv_to = Track {
        kind: TrackKind::MoveTo,
        author: author.to_string(),
        date: date.to_string(),
        id,
    };
    let k = ep - sp + 1;
    let moved = moved_runs(&paras, sp, so, ep, eo);
    assert(lists_s(moved@).len() == moved@.len());
    let mut steps = source_steps(&paras, sp, so, ep, eo);
    let mut more = target_steps(&moved, k, tp, to_pos, &mv_to, Ghost(byv));
    let ghost a = steps@;
    let ghost b = more@;
    steps.append(&mut more);
    let ghost plan = move_steps_s(w, sp, so, ep, eo, tp, to_pos, byv);
    proof {
        assert(move_step_vs(steps@) =~= move_step_vs(a) + move_step_vs(b));
        assert(move_step_vs(steps@) == plan);
        lemma_move_marks(w, sp, so, ep, eo, tp, to_pos, byv);
    }
    let ghost mut states: Seq<DocV> = seq![d];
    let mut i: usize = 0;
    while i < steps.len()
        invariant
            i <= steps@.len(),
            plan == move_step_vs(steps@),
            no_fmt_s(plan),
            by@ == byv,
            byv == (MoveByV { author: author@, date: date@, id }),
            d == old(doc)@,
            plan == move_steps_s(read::paragraphs_s(d), sp, so, ep, eo, tp, to_pos, byv),
            states.len() == i + 1,
            states[0] == d,
            states[i as int] == doc@,
            forall|j: int| 0 <= j < i ==> step_s(#[trigger] states[j], byv, plan[j], states[j + 1]),
        decreases steps@.len() - i,
    {
        let ghost was = states;
        assert(plan[i as int] == steps@[i as int]@);
        match doc.run_step(&by, &steps[i]) {
            Ok(()) => {},
            Err(e) => {
                assert(stuck_s(states, d, byv, plan));
                return Err(e);
            },
        }
        proof {
            states = states.push(doc@);
            assert forall|j: int| 0 <= j < i + 1 implies step_s(
                #[trigger] states[j],
                byv,
                plan[j],
                states[j + 1],
            ) by {
                assert(states[j] == was[j]);
                if j < i {
                    assert(states[j + 1] == was[j + 1]);
                }
            }
        }
        i = i + 1;
    }
    assert(steps_s(states, byv, plan));
    Ok(k - 1)
}

// ---------------------------------------------------------------- regions

/// A stretch of a paragraph under one revision.
#[derive(Debug, PartialEq, Eq)]
pub struct TrackedRegion {
    pub track: Track,
    pub text: String,
    pub start: usize,
    pub end: usize,
}

/// The mathematical value of a [`TrackedRegion`].
#[verifier::ext_equal]
pub struct TrackedRegionV {
    pub track: TrackV,
    pub text: Seq<char>,
    pub start: usize,
    pub end: usize,
}

impl View for TrackedRegion {
    type V = TrackedRegionV;

    open spec fn view(&self) -> TrackedRegionV {
        TrackedRegionV {
            track: self.track@,
            text: self.text@,
            start: self.start,
            end: self.end,
        }
    }
}

pub open spec fn tracked_region_ov(o: Option<TrackedRegion>) -> Option<TrackedRegionV> {
    match o {
        Some(x) => Some(x@),
        None => None,
    }
}

pub open spec fn tracked_region_vs(s: Seq<TrackedRegion>) -> Seq<TrackedRegionV> {
    Seq::new(s.len(), |i: int| s[i]@)
}

impl Clone for TrackedRegion {
    fn clone(&self) -> (r: Self)
        ensures
            r@ == self@,
    {
        TrackedRegion {
            track: self.track.clone(),
            text: self.text.clone(),
            start: self.start,
            end: self.end,
        }
    }
}

/// The revision of a run: its insertion, deletion or move, or else its formatting change.
pub open spec fn aspect_s(r: RunV) -> Option<TrackV> {
    match r.track {
        Some(t) => Some(t),
        None => match r.fmt_change {
            Some(c) => Some(half_s(TrackKind::Fmt, c.author, c.date, c.id)),
            None => None,
        },
    }
}

fn aspect(r: &Run) -> (o: Option<Track>)
    ensures
        types::track_ov(o) == aspect_s(r@),
{
    match &r.track {
        Some(t) => Some(t.clone()),
        None => match &r.fmt_change {
            Some(c) => Some(
                Track {
                    kind: TrackKind::Fmt,
                    author: c.author.clone(),
                    date: c.date.clone(),
                    id: c.id,
                },
            ),
            None => None,
        },
    }
}

/// The regions with one more run, which extends the last region where it follows it under the
/// same revision.
pub open spec fn with_region_s(
    v: Seq<TrackedRegionV>,
    t: TrackV,
    text: Seq<char>,
    from: usize,
    to: usize,
) -> Seq<TrackedRegionV> {
    if v.len() > 0 && v.last().track.id == t.id && v.last().track.kind == t.kind && v.last().end
        == from {
        v.update(
            v.len() - 1,
            TrackedRegionV { end: to, text: v.last().text + text, ..v.last() },
        )
    } else {
        v.push(TrackedRegionV { track: t, text, start: from, end: to })
    }
}

/// The regions of the first `n` runs.
pub open spec fn regions_s(v: Seq<RunV>, n: nat) -> Seq<TrackedRegionV>
    decreases n,
{
    if n == 0 {
        Seq::empty()
    } else {
        let r = regions_s(v, (n - 1) as nat);
        match aspect_s(v[n - 1]) {
            Some(t) => with_region_s(
                r,
                t,
                v[n - 1].text,
                edits::offset_s(v, (n - 1) as nat),
                edits::offset_s(v, n),
            ),
            None => r,
        }
    }
}

fn add_region(v: &mut Vec<TrackedRegion>, t: Track, text: &str, from: usize, to: usize)
    ensures
        tracked_region_vs(final(v)@) == with_region_s(
            tracked_region_vs(old(v)@),
            t@,
            text@,
            from,
            to,
        ),
{
    let ghost was = v@;
    let ghost wv = tracked_region_vs(was);
    let n = v.len();
    if n > 0 {
        assert(wv.last() == was[n - 1]@);
        let last = &v[n - 1];
        if last.track.id == t.id && last.track.kind == t.kind && last.end == from {
            let mut s = last.text.clone();
            s.append(text);
            let grown = TrackedRegion {
                track: last.track.clone(),
                text: s,
                start: last.start,
                end: to,
            };
            let ghost gv = grown@;
            v.set(n - 1, grown);
            assert(tracked_region_vs(v@) =~= wv.update(n - 1, gv));
            return;
        }
    }
    let new = TrackedRegion { track: t, text: text.to_string(), start: from, end: to };
    let ghost nv = new@;
    v.push(new);
    assert(tracked_region_vs(v@) =~= wv.push(nv));
}

/// The regions that a paragraph's revisions cover, in order; neighbouring runs of one revision
/// make one region.
pub(crate) fn paragraph_regions(v: &Vec<Run>) -> (r: Vec<TrackedRegion>)
    ensures
        tracked_region_vs(r@) == regions_s(types::run_vs(v@), v@.len()),
{
    let ghost w = types::run_vs(v@);
    let mut out: Vec<TrackedRegion> = Vec::new();
    assert(tracked_region_vs(out@) =~= Seq::empty());
    let mut pos: usize = 0;
    let mut i: usize = 0;
    while i < v.len()
        invariant
            i <= v@.len(),
            w == types::run_vs(v@),
            pos == edits::offset_s(w, i as nat),
            tracked_region_vs(out@) == regions_s(w, i as nat),
        decreases v@.len() - i,
    {
        assert(w[i as int] == v@[i as int]@);
        proof {
            edits::lemma_offset(w, i as nat);
        }
        let next = advance(pos, v[i].text.as_str().unicode_len());
        if let Some(t) = aspect(&v[i]) {
            add_region(&mut out, t, v[i].text.as_str(), pos, next);
        }
        pos = next;
        i = i + 1;
    }
    out
}

/// Regions follow one another: each starts where the one before it ends, or later, and none
/// reaches past the paragraph.
pub proof fn law_regions_are_in_order(v: Seq<RunV>, n: nat)
    requires
        n <= v.len(),
    ensures
        forall|i: int| 0 <= i < regions_s(v, n).len() ==> (#[trigger] regions_s(v, n)[i]).start
            <= regions_s(v, n)[i].end <= edits::offset_s(v, n),
        forall|i: int, j: int|
            0 <= i < j < regions_s(v, n).len() ==> (#[trigger] regions_s(v, n)[i]).end <= (
            #[trigger] regions_s(v, n)[j]).start,
    decreases n,
{
    if n > 0 {
        law_regions_are_in_order(v, (n - 1) as nat);
        edits::lemma_offset(v, (n - 1) as nat);
    }
}

/// The ids in a paragraph: those of its regions, then of its property and its mark change.
pub open spec fn note_regions_s(ids: Seq<u64>, v: Seq<TrackedRegionV>, n: nat) -> Seq<u64>
    decreases n,
{
    if n == 0 {
        ids
    } else {
        note_s(note_regions_s(ids, v, (n - 1) as nat), v[n - 1].track.id)
    }
}

pub open spec fn note_para_s(ids: Seq<u64>, p: ParagraphV) -> Seq<u64> {
    let r = regions_s(p.runs, p.runs.len());
    let ids = note_regions_s(ids, r, r.len());
    let ids = match p.prop_change {
        Some(c) => note_s(ids, c.id),
        None => ids,
    };
    note_track_s(ids, p.mark_change)
}

/// The ids in the first `n` paragraphs, each once, in document order.
pub open spec fn revision_ids_s(v: Seq<ParagraphV>, n: nat) -> Seq<u64>
    decreases n,
{
    if n == 0 {
        Seq::empty()
    } else {
        note_para_s(revision_ids_s(v, (n - 1) as nat), v[n - 1])
    }
}

fn note_para(ids: &mut Vec<u64>, p: &Paragraph)
    ensures
        final(ids)@ == note_para_s(old(ids)@, p@),
{
    let regions = paragraph_regions(&p.runs);
    let ghost r = tracked_region_vs(regions@);
    let ghost was = ids@;
    assert(r.len() == regions@.len());
    let mut i: usize = 0;
    while i < regions.len()
        invariant
            i <= regions@.len(),
            r == tracked_region_vs(regions@),
            ids@ == note_regions_s(was, r, i as nat),
        decreases regions@.len() - i,
    {
        assert(r[i as int] == regions@[i as int]@);
        note(ids, regions[i].track.id);
        i = i + 1;
    }
    if let Some(c) = &p.prop_change {
        note(ids, c.id);
    }
    note_track(ids, &p.mark_change);
}

/// The id of every revision, each once, in document order.
pub fn all_revision_ids(doc: &TextDoc) -> (r: Result<Vec<u64>, ModelError>)
    ensures
        r matches Ok(v) && v@ == revision_ids_s(
            read::paragraphs_s(doc@),
            read::paragraphs_s(doc@).len(),
        ),
{
    let paras = match read_paragraphs(doc) {
        Ok(v) => v,
        Err(e) => {
            return Err(e);
        },
    };
    let ghost v = types::paragraph_vs(paras@);
    assert(v.len() == paras@.len());
    let mut ids: Vec<u64> = Vec::new();
    let mut i: usize = 0;
    while i < paras.len()
        invariant
            i <= paras@.len(),
            v == types::paragraph_vs(paras@),
            ids@ == revision_ids_s(v, i as nat),
        decreases paras@.len() - i,
    {
        assert(v[i as int] == paras@[i as int]@);
        note_para(&mut ids, &paras[i]);
        i = i + 1;
    }
    Ok(ids)
}

// ---------------------------------------------------------------- accepting and rejecting

/// An attribute set or cleared.
pub open spec fn flag_op_s(from: usize, to: usize, key: Seq<char>, on: bool) -> TextOpV {
    if on {
        TextOpV::Put { from, to, key, value: ScalarV::Bool(true) }
    } else {
        TextOpV::Clear { from, to, key }
    }
}

fn flag_op(from: usize, to: usize, key: &str, on: bool) -> (r: TextOp)
    ensures
        r@ == flag_op_s(from, to, key@, on),
        edits::possible_s(r@),
{
    if on {
        TextOp::Put { from, to, key: key.to_string(), value: Scalar::Bool(true) }
    } else {
        TextOp::Clear { from, to, key: key.to_string() }
    }
}

/// A text attribute set or cleared.
pub open spec fn exact_op_s(from: usize, to: usize, key: Seq<char>, o: Option<Seq<char>>) -> TextOpV {
    match o {
        Some(s) => TextOpV::Put { from, to, key, value: ScalarV::Text(s) },
        None => TextOpV::Clear { from, to, key },
    }
}

fn exact_op(from: usize, to: usize, key: &str, o: &Option<String>) -> (r: TextOp)
    ensures
        r@ == exact_op_s(from, to, key@, strs::opt_s(*o)),
        edits::possible_s(r@),
{
    match o {
        Some(s) => TextOp::Put {
            from,
            to,
            key: key.to_string(),
            value: Scalar::Text(s.clone()),
        },
        None => TextOp::Clear { from, to, key: key.to_string() },
    }
}

/// A size set or cleared.
pub open spec fn exact_size_s(from: usize, to: usize, o: Option<u16>) -> TextOpV {
    match o {
        Some(n) => TextOpV::Put { from, to, key: "sz"@, value: ScalarV::Int(n as i64) },
        None => TextOpV::Clear { from, to, key: "sz"@ },
    }
}

fn exact_size(from: usize, to: usize, o: Option<u16>) -> (r: TextOp)
    ensures
        r@ == exact_size_s(from, to, o),
        edits::possible_s(r@),
{
    match o {
        Some(n) => TextOp::Put {
            from,
            to,
            key: "sz".to_string(),
            value: Scalar::Int(n as i64),
        },
        None => TextOp::Clear { from, to, key: "sz".to_string() },
    }
}

/// The edits that make the formatting of a stretch exactly this.
pub open spec fn props_ops_s(from: usize, to: usize, p: RunPropsV) -> Seq<TextOpV> {
    seq![
        flag_op_s(from, to, "b"@, p.bold),
        flag_op_s(from, to, "i"@, p.italic),
        flag_op_s(from, to, "u"@, p.underline),
        flag_op_s(from, to, "strike"@, p.strike),
        exact_size_s(from, to, p.size),
        exact_op_s(from, to, "color"@, p.color),
        exact_op_s(from, to, "font"@, p.font),
        exact_op_s(from, to, "hl"@, p.highlight),
        exact_op_s(from, to, "va"@, p.vert_align),
        exact_op_s(from, to, "lang"@, p.lang),
    ]
}

fn apply_props(from: usize, to: usize, p: &RunProps) -> (v: Vec<TextOp>)
    ensures
        edits::text_op_vs(v@) == props_ops_s(from, to, p@),
        edits::all_possible_s(edits::text_op_vs(v@)),
{
    let mut v: Vec<TextOp> = Vec::new();
    v.push(flag_op(from, to, "b", p.bold));
    v.push(flag_op(from, to, "i", p.italic));
    v.push(flag_op(from, to, "u", p.underline));
    v.push(flag_op(from, to, "strike", p.strike));
    v.push(exact_size(from, to, p.size));
    v.push(exact_op(from, to, "color", &p.color));
    v.push(exact_op(from, to, "font", &p.font));
    v.push(exact_op(from, to, "hl", &p.highlight));
    v.push(exact_op(from, to, "va", &p.vert_align));
    v.push(exact_op(from, to, "lang", &p.lang));
    assert(edits::text_op_vs(v@) =~= props_ops_s(from, to, p@));
    assert forall|i: int| 0 <= i < edits::text_op_vs(v@).len() implies edits::possible_s(
        #[trigger] edits::text_op_vs(v@)[i],
    ) by {
        assert(edits::text_op_vs(v@)[i] == v@[i]@);
    }
    v
}

/// The edits that resolve a formatting change over the first `n` runs: a rejected one restores
/// the old formatting, and either way the record of it goes.
pub open spec fn resolve_fmt_s(v: Seq<RunV>, id: u64, accept: bool, n: nat) -> Seq<TextOpV>
    decreases n,
{
    if n == 0 {
        Seq::empty()
    } else {
        let r = resolve_fmt_s(v, id, accept, (n - 1) as nat);
        let from = edits::offset_s(v, (n - 1) as nat);
        let to = edits::offset_s(v, n);
        match v[n - 1].fmt_change {
            Some(c) => if c.id == id {
                let r = if accept {
                    r
                } else {
                    r + props_ops_s(from, to, c.old)
                };
                r.push(TextOpV::Clear { from, to, key: "rfmt"@ })
            } else {
                r
            },
            None => r,
        }
    }
}

proof fn lemma_possible_sum(a: Seq<TextOpV>, b: Seq<TextOpV>)
    requires
        edits::all_possible_s(a),
        edits::all_possible_s(b),
    ensures
        edits::all_possible_s(a + b),
{
    assert forall|i: int| 0 <= i < (a + b).len() implies edits::possible_s(
        #[trigger] (a + b)[i],
    ) by {
        if i < a.len() {
            assert((a + b)[i] == a[i]);
        } else {
            assert((a + b)[i] == b[i - a.len()]);
        }
    }
}

fn resolve_fmt(v: &Vec<Run>, id: u64, accept: bool) -> (r: Vec<TextOp>)
    ensures
        edits::text_op_vs(r@) == resolve_fmt_s(types::run_vs(v@), id, accept, v@.len()),
        edits::all_possible_s(edits::text_op_vs(r@)),
{
    let ghost w = types::run_vs(v@);
    let mut out: Vec<TextOp> = Vec::new();
    assert(edits::text_op_vs(out@) =~= Seq::empty());
    let mut pos: usize = 0;
    let mut i: usize = 0;
    while i < v.len()
        invariant
            i <= v@.len(),
            w == types::run_vs(v@),
            pos == edits::offset_s(w, i as nat),
            edits::text_op_vs(out@) == resolve_fmt_s(w, id, accept, i as nat),
            edits::all_possible_s(edits::text_op_vs(out@)),
        decreases v@.len() - i,
    {
        assert(w[i as int] == v@[i as int]@);
        proof {
            edits::lemma_offset(w, i as nat);
        }
        let next = advance(pos, v[i].text.as_str().unicode_len());
        if let Some(c) = &v[i].fmt_change {
            if c.id == id {
                if !accept {
                    let ghost a = out@;
                    let mut more = apply_props(pos, next, &c.old);
                    let ghost b = more@;
                    out.append(&mut more);
                    proof {
                        assert(edits::text_op_vs(out@) =~= edits::text_op_vs(a)
                            + edits::text_op_vs(b));
                        lemma_possible_sum(edits::text_op_vs(a), edits::text_op_vs(b));
                    }
                }
                push_op(
                    &mut out,
                    Some(TextOp::Clear { from: pos, to: next, key: "rfmt".to_string() }),
                );
            }
        }
        pos = next;
        i = i + 1;
    }
    out
}

/// Whether the text of a region goes: an insertion or the new half of a move that is rejected, a
/// deletion or the old half that is accepted.
pub open spec fn removes_s(kind: TrackKind, accept: bool) -> bool {
    match kind {
        TrackKind::Ins => !accept,
        TrackKind::MoveTo => !accept,
        TrackKind::Del => accept,
        TrackKind::MoveFrom => accept,
        TrackKind::Fmt => false,
    }
}

fn removes(kind: TrackKind, accept: bool) -> (r: bool)
    ensures
        r == removes_s(kind, accept),
{
    match kind {
        TrackKind::Ins => !accept,
        TrackKind::MoveTo => !accept,
        TrackKind::Del => accept,
        TrackKind::MoveFrom => accept,
        TrackKind::Fmt => false,
    }
}

/// The edit that resolves a region.
pub open spec fn region_op_s(g: TrackedRegionV, accept: bool) -> TextOpV {
    if removes_s(g.track.kind, accept) {
        TextOpV::Cut { from: g.start, to: g.end }
    } else {
        TextOpV::Clear { from: g.start, to: g.end, key: g.track.kind.mark_key_s() }
    }
}

/// The edits that resolve the regions of one revision from the `n`-th down, so that an earlier
/// one does not move a later one's place.
pub open spec fn region_ops_s(v: Seq<TrackedRegionV>, id: u64, accept: bool, n: nat) -> Seq<TextOpV>
    decreases n,
{
    if n == 0 {
        Seq::empty()
    } else if v[n - 1].track.id == id {
        seq![region_op_s(v[n - 1], accept)] + region_ops_s(v, id, accept, (n - 1) as nat)
    } else {
        region_ops_s(v, id, accept, (n - 1) as nat)
    }
}

fn region_ops(v: &Vec<TrackedRegion>, id: u64, accept: bool) -> (r: Vec<TextOp>)
    requires
        forall|i: int| 0 <= i < v@.len() ==> (#[trigger] v@[i])@.start <= v@[i]@.end,
    ensures
        edits::text_op_vs(r@) == region_ops_s(tracked_region_vs(v@), id, accept, v@.len()),
        edits::all_possible_s(edits::text_op_vs(r@)),
{
    let ghost w = tracked_region_vs(v@);
    let ghost all = region_ops_s(w, id, accept, w.len());
    let mut out: Vec<TextOp> = Vec::new();
    let mut i: usize = v.len();
    assert(edits::text_op_vs(out@) + all =~= all);
    while i > 0
        invariant
            i <= v@.len(),
            w == tracked_region_vs(v@),
            forall|j: int| 0 <= j < v@.len() ==> (#[trigger] v@[j])@.start <= v@[j]@.end,
            all == edits::text_op_vs(out@) + region_ops_s(w, id, accept, i as nat),
            edits::all_possible_s(edits::text_op_vs(out@)),
        decreases i,
    {
        i = i - 1;
        assert(w[i as int] == v@[i as int]@);
        let g = &v[i];
        if g.track.id == id {
            let ghost was = edits::text_op_vs(out@);
            let op = if removes(g.track.kind, accept) {
                TextOp::Cut { from: g.start, to: g.end }
            } else {
                TextOp::Clear {
                    from: g.start,
                    to: g.end,
                    key: g.track.kind.mark_key().to_string(),
                }
            };
            assert(op@ == region_op_s(w[i as int], accept));
            push_op(&mut out, Some(op));
            assert(was + (seq![region_op_s(w[i as int], accept)] + region_ops_s(
                w,
                id,
                accept,
                i as nat,
            )) =~= edits::text_op_vs(out@) + region_ops_s(w, id, accept, i as nat));
        }
    }
    assert(edits::text_op_vs(out@) + region_ops_s(w, id, accept, 0) =~= edits::text_op_vs(out@));
    out
}

/// The properties of a paragraph whose property change is resolved: a rejected one restores the
/// old style and properties, and either way the record of it goes.
pub open spec fn resolve_props_s(m: PropsV, c: ParaPropChangeV, accept: bool) -> PropsV {
    let m = if accept {
        m
    } else {
        props::with_para_props_s(formatting::styled_s(m, c.old_style), c.old, true)
    };
    m.remove("ppc"@)
}

/// Whether a run carries formatting change `id`.
pub open spec fn fmt_is_s(r: RunV, id: u64) -> bool {
    r.fmt_change matches Some(c) && c.id == id
}

/// Whether some run of a paragraph carries formatting change `id`.
pub open spec fn has_fmt_s(v: Seq<RunV>, id: u64) -> bool {
    exists|i: int| 0 <= i < v.len() && fmt_is_s(#[trigger] v[i], id)
}

fn has_fmt(v: &Vec<Run>, id: u64) -> (r: bool)
    ensures
        r == has_fmt_s(types::run_vs(v@), id),
{
    let ghost w = types::run_vs(v@);
    let mut i: usize = 0;
    while i < v.len()
        invariant
            i <= v@.len(),
            w == types::run_vs(v@),
            forall|j: int| 0 <= j < i ==> !fmt_is_s(#[trigger] w[j], id),
        decreases v@.len() - i,
    {
        assert(w[i as int] == v@[i as int]@);
        if let Some(c) = &v[i].fmt_change {
            if c.id == id {
                return true;
            }
        }
        i = i + 1;
    }
    false
}

/// Whether a paragraph's property change is revision `id`.
pub open spec fn prop_hit_s(p: ParagraphV, id: u64) -> bool {
    p.prop_change matches Some(c) && c.id == id
}

/// The edits of a paragraph's text that resolve revision `id`.
pub open spec fn text_ops_s(p: ParagraphV, id: u64, accept: bool) -> Seq<TextOpV> {
    if has_fmt_s(p.runs, id) {
        resolve_fmt_s(p.runs, id, accept, p.runs.len())
    } else {
        let g = regions_s(p.runs, p.runs.len());
        region_ops_s(g, id, accept, g.len())
    }
}

/// Whether a revision touches a paragraph.
pub open spec fn touched_s(p: ParagraphV, id: u64, accept: bool) -> bool {
    prop_hit_s(p, id) || text_ops_s(p, id, accept).len() > 0
}

/// Whether `e` is `d` with a revision of one paragraph resolved; its property change first, and
/// then nothing else of it.
pub open spec fn resolved_s(d: DocV, b: BlockId, p: ParagraphV, id: u64, accept: bool, e: DocV) -> bool {
    if prop_hit_s(p, id) {
        e == props::metas_set_s(
            d,
            b,
            resolve_props_s(d.s.metas[b], p.prop_change->0, accept),
        )
    } else if touched_s(p, id, accept) {
        edits::text_edited_s(d, b, text_ops_s(p, id, accept), e)
    } else {
        e == d
    }
}

/// Whether a revision of one paragraph can be resolved.
pub open spec fn para_resolvable_s(d: DocV, b: BlockId, p: ParagraphV, id: u64, accept: bool) -> bool {
    if prop_hit_s(p, id) {
        d.s.editable && store::live_s(d.s, b)
    } else {
        touched_s(p, id, accept) ==> doc::writable_s(d, b) && edits::ops_fit_s(
            d.s.marks,
            doc::text_s(d, b),
            text_ops_s(p, id, accept),
        )
    }
}

/// Whether a revision can be resolved throughout a document in which no block stands twice.
pub open spec fn resolvable_s(d: DocV, id: u64, accept: bool) -> bool {
    &&& forall|i: int, j: int|
        0 <= i < j < read::refs_s(d).len() ==> (#[trigger] read::refs_s(d)[i]).id_s() != (
        #[trigger] read::refs_s(d)[j]).id_s()
    &&& forall|i: int|
        0 <= i < read::refs_s(d).len() ==> para_resolvable_s(
            d,
            (#[trigger] read::refs_s(d)[i]).id_s(),
            read::paragraphs_s(d)[i],
            id,
            accept,
        )
}

/// Whether `e` takes what `d` takes, with the same tree and the same texts but for `b`.
spec fn apart_from_s(d: DocV, e: DocV, b: BlockId) -> bool {
    &&& e.s.roots == d.s.roots
    &&& e.s.parents == d.s.parents
    &&& e.s.editable == d.s.editable
    &&& e.s.marks == d.s.marks
    &&& forall|x: BlockId|
        x != b ==> #[trigger] e.s.texts.contains_key(x) == d.s.texts.contains_key(x)
            && e.s.texts[x] == d.s.texts[x]
}

proof fn lemma_resolved_apart(d: DocV, b: BlockId, p: ParagraphV, id: u64, accept: bool, e: DocV)
    requires
        resolved_s(d, b, p, id, accept, e),
    ensures
        apart_from_s(d, e, b),
{
}

/// Whether the paragraphs from `i` on are as they were for the resolution.
spec fn ahead_s(d: DocV, e: DocV, i: int) -> bool {
    &&& e.s.roots == d.s.roots
    &&& e.s.parents == d.s.parents
    &&& e.s.editable == d.s.editable
    &&& e.s.marks == d.s.marks
    &&& forall|j: int|
        i <= j < read::refs_s(d).len() ==> ({
            let x = (#[trigger] read::refs_s(d)[j]).id_s();
            e.s.texts.contains_key(x) == d.s.texts.contains_key(x) && e.s.texts[x] == d.s.texts[x]
        })
}

/// Whether the states lead from `d` through the resolution of one paragraph after the other.
pub open spec fn all_resolved_s(states: Seq<DocV>, d: DocV, id: u64, accept: bool, n: int) -> bool {
    &&& states.len() == n + 1
    &&& states[0] == d
    &&& forall|i: int|
        0 <= i < n ==> resolved_s(
            #[trigger] states[i],
            read::block_s(d, i),
            read::paragraphs_s(d)[i],
            id,
            accept,
            states[i + 1],
        )
}

proof fn lemma_no_runs_no_ops(p: ParagraphV, id: u64, accept: bool)
    requires
        p.runs.len() == 0,
    ensures
        text_ops_s(p, id, accept).len() == 0,
{
}

impl TextDoc {
    /// Resolve the property change of a block's paragraph.
    fn resolve_para_format(&mut self, id: BlockId, c: &ParaPropChange, accept: bool) -> (r: Result<
        (),
        ModelError,
    >)
        ensures
            old(self)@.s.editable && store::live_s(old(self)@.s, id) ==> r is Ok,
            r is Ok ==> final(self)@ == props::metas_set_s(
                old(self)@,
                id,
                resolve_props_s(old(self)@.s.metas[id], c@, accept),
            ),
            r matches Err(e) ==> e == ModelError::Store,
    {
        let ghost d = self@;
        if !accept {
            match self.restyle(id, &c.old_style) {
                Ok(()) => {},
                Err(e) => {
                    return Err(e);
                },
            }
            match self.set_para_props_exact(id, &c.old) {
                Ok(()) => {},
                Err(e) => {
                    return Err(e);
                },
            }
        }
        proof {
            props::lemma_change_keys();
        }
        match self.clear_meta(id, "ppc") {
            Ok(()) => {},
            Err(e) => {
                return Err(e);
            },
        }
        proof {
            let m = resolve_props_s(d.s.metas[id], c@, accept);
            assert(self@.s.metas =~= d.s.metas.insert(id, m));
        }
        Ok(())
    }

    /// Resolve a revision in one paragraph; answers whether there was anything to resolve.
    fn resolve_paragraph(&mut self, b: BlockId, p: &Paragraph, id: u64, accept: bool) -> (r: Result<
        bool,
        ModelError,
    >)
        requires
            p@.runs.len() > 0 ==> old(self)@.s.texts.contains_key(b),
        ensures
            para_resolvable_s(old(self)@, b, p@, id, accept) ==> r is Ok,
            r matches Ok(hit) ==> hit == touched_s(p@, id, accept) && resolved_s(
                old(self)@,
                b,
                p@,
                id,
                accept,
                final(self)@,
            ),
            r matches Err(e) ==> e == ModelError::Store,
    {
        if let Some(c) = &p.prop_change {
            if c.id == id {
                return match self.resolve_para_format(b, c, accept) {
                    Ok(()) => Ok(true),
                    Err(e) => Err(e),
                };
            }
        }
        let ghost v = p@.runs;
        let ops = if has_fmt(&p.runs, id) {
            resolve_fmt(&p.runs, id, accept)
        } else {
            let regions = paragraph_regions(&p.runs);
            proof {
                law_regions_are_in_order(v, v.len());
                assert(tracked_region_vs(regions@).len() == regions@.len());
                assert forall|i: int| 0 <= i < regions@.len() implies (#[trigger] regions@[i])@.start
                    <= regions@[i]@.end by {
                    assert(tracked_region_vs(regions@)[i] == regions@[i]@);
                }
            }
            region_ops(&regions, id, accept)
        };
        assert(edits::text_op_vs(ops@).len() == ops@.len());
        assert(edits::text_op_vs(ops@) == text_ops_s(p@, id, accept));
        if ops.len() == 0 {
            return Ok(false);
        }
        proof {
            if v.len() == 0 {
                lemma_no_runs_no_ops(p@, id, accept);
            }
        }
        match self.run_ops(b, &ops) {
            Ok(()) => Ok(true),
            Err(e) => Err(e),
        }
    }
}

/// Accept or reject a revision throughout the document; answers whether there was anything to
/// resolve. Accepting an insertion keeps its text and accepting a deletion removes it, and the
/// other way round; a move is resolved in both its halves.
#[verifier::rlimit(60)]
pub fn resolve_revision(doc: &mut TextDoc, id: u64, accept: bool) -> (r: Result<bool, ModelError>)
    ensures
        resolvable_s(old(doc)@, id, accept) ==> r is Ok,
        r matches Ok(hit) ==> hit == hit_s(
            read::paragraphs_s(old(doc)@),
            id,
            accept,
            read::paragraphs_s(old(doc)@).len() as int,
        ),
        r is Ok ==> exists|states: Seq<DocV>| #[trigger]
            all_resolved_s(
                states,
                old(doc)@,
                id,
                accept,
                read::refs_s(old(doc)@).len() as int,
            ) && states.last() == final(doc)@,
        r matches Err(e) ==> e == ModelError::Store,
{
    let ghost d = doc@;
    let refs = doc.block_seq();
    let paras = match read_paragraphs(doc) {
        Ok(v) => v,
        Err(_) => {
            return Err(ModelError::Store);
        },
    };
    let ghost v = read::paragraphs_s(d);
    assert(types::paragraph_vs(paras@).len() == paras@.len());
    let ghost mut states: Seq<DocV> = seq![d];
    let mut changed = false;
    let mut i: usize = 0;
    while i < refs.len()
        invariant
            i <= refs@.len() == paras@.len(),
            refs@ == read::refs_s(d),
            v == read::paragraphs_s(d),
            v == types::paragraph_vs(paras@),
            all_resolved_s(states, d, id, accept, i as int),
            states[i as int] == doc@,
            doc@.s.texts.dom() == d.s.texts.dom(),
            d == old(doc)@,
            resolvable_s(d, id, accept) ==> ahead_s(d, doc@, i as int),
            changed == hit_s(v, id, accept, i as int),
        decreases refs@.len() - i,
    {
        let ghost was = states;
        let ghost b = read::block_s(d, i as int);
        assert(v[i as int] == paras@[i as int]@);
        assert(v[i as int] == read::paragraph_s(d, b));
        assert(v[i as int].runs.len() > 0 ==> doc@.s.texts.dom().contains(b));
        let ghost before = doc@;
        let hit = match doc.resolve_paragraph(refs[i].id(), &paras[i], id, accept) {
            Ok(hit) => hit,
            Err(e) => {
                proof {
                    if resolvable_s(d, id, accept) {
                        assert(read::refs_s(d)[i as int].id_s() == b);
                        assert(para_resolvable_s(d, b, v[i as int], id, accept));
                        assert(para_resolvable_s(before, b, v[i as int], id, accept));
                    }
                }
                return Err(e);
            },
        };
        proof {
            states = states.push(doc@);
            lemma_resolved_apart(was[i as int], b, v[i as int], id, accept, doc@);
            if resolvable_s(d, id, accept) {
                lemma_ahead(d, was[i as int], i as int, doc@);
            }
            lemma_resolved_step(was, d, id, accept, i as int, doc@);
            lemma_hit_step(v, id, accept, i as int);
        }
        if hit {
            changed = true;
        }
        i = i + 1;
    }
    Ok(changed)
}

proof fn lemma_ahead(d: DocV, e: DocV, i: int, f: DocV)
    requires
        0 <= i < read::refs_s(d).len(),
        ahead_s(d, e, i),
        apart_from_s(e, f, read::refs_s(d)[i].id_s()),
        forall|i: int, j: int|
            0 <= i < j < read::refs_s(d).len() ==> (#[trigger] read::refs_s(d)[i]).id_s() != (
            #[trigger] read::refs_s(d)[j]).id_s(),
    ensures
        ahead_s(d, f, i + 1),
{
    assert forall|j: int| i + 1 <= j < read::refs_s(d).len() implies ({
        let x = (#[trigger] read::refs_s(d)[j]).id_s();
        f.s.texts.contains_key(x) == d.s.texts.contains_key(x) && f.s.texts[x] == d.s.texts[x]
    }) by {
        let x = read::refs_s(d)[j].id_s();
        assert(read::refs_s(d)[i].id_s() != x);
        assert(f.s.texts.contains_key(x) == e.s.texts.contains_key(x));
    }
}

/// Whether a revision touches one of the first `n` paragraphs.
pub open spec fn hit_s(v: Seq<ParagraphV>, id: u64, accept: bool, n: int) -> bool {
    exists|i: int| 0 <= i < n && touched_s(#[trigger] v[i], id, accept)
}

proof fn lemma_hit_step(v: Seq<ParagraphV>, id: u64, accept: bool, n: int)
    requires
        0 <= n < v.len(),
    ensures
        hit_s(v, id, accept, n + 1) == (hit_s(v, id, accept, n) || touched_s(v[n], id, accept)),
{
    if hit_s(v, id, accept, n) {
        let i = choose|i: int| 0 <= i < n && touched_s(#[trigger] v[i], id, accept);
        assert(0 <= i < n + 1 && touched_s(v[i], id, accept));
    }
    if touched_s(v[n], id, accept) {
        assert(0 <= n < n + 1 && touched_s(v[n], id, accept));
    }
}

proof fn lemma_resolved_step(states: Seq<DocV>, d: DocV, id: u64, accept: bool, n: int, e: DocV)
    requires
        0 <= n < read::refs_s(d).len(),
        all_resolved_s(states, d, id, accept, n),
        resolved_s(
            states[n],
            read::block_s(d, n),
            read::paragraphs_s(d)[n],
            id,
            accept,
            e,
        ),
    ensures
        all_resolved_s(states.push(e), d, id, accept, n + 1),
        e.s.texts.dom() == states[n].s.texts.dom(),
{
    let next = states.push(e);
    assert forall|i: int| 0 <= i < n + 1 implies resolved_s(
        #[trigger] next[i],
        read::block_s(d, i),
        read::paragraphs_s(d)[i],
        id,
        accept,
        next[i + 1],
    ) by {
        assert(next[i] == states[i]);
        if i < n {
            assert(next[i + 1] == states[i + 1]);
        }
    }
    assert(e.s.texts.dom() =~= states[n].s.texts.dom());
}

// ---------------------------------------------------------------- navigation

/// A place in the document: a paragraph and a position in it.
pub type Caret = (usize, usize);

/// Whether one place is before another.
pub open spec fn before_s(a: Caret, b: Caret) -> bool {
    a.0 < b.0 || (a.0 == b.0 && a.1 < b.1)
}

fn before(a: Caret, b: Caret) -> (r: bool)
    ensures
        r == before_s(a, b),
{
    a.0 < b.0 || (a.0 == b.0 && a.1 < b.1)
}

/// Whether a change of the paragraph is found at `off`: a region starts there, or it is the start
/// of a paragraph with a property change or the end of one whose mark is changed.
pub open spec fn change_at_s(p: ParagraphV, off: usize) -> bool {
    let g = regions_s(p.runs, p.runs.len());
    ||| exists|i: int| 0 <= i < g.len() && (#[trigger] g[i]).start == off
    ||| p.prop_change is Some && off == 0
    ||| p.mark_change is Some && off == import::chars_s(p.runs)
}

/// Whether a change is found at a place of the first `n` paragraphs.
pub open spec fn caret_s(v: Seq<ParagraphV>, n: int, c: Caret) -> bool {
    0 <= c.0 < n && change_at_s(v[c.0 as int], c.1)
}

/// Whether places are in order, each once.
pub open spec fn ordered_s(v: Seq<Caret>) -> bool {
    forall|i: int, j: int| 0 <= i < j < v.len() ==> before_s(v[i], v[j])
}

fn add_caret(v: &mut Vec<Caret>, c: Caret)
    requires
        ordered_s(old(v)@),
    ensures
        ordered_s(final(v)@),
        forall|x: Caret| #[trigger] final(v)@.contains(x) == (old(v)@.contains(x) || x == c),
{
    let ghost was = v@;
    let mut at: usize = 0;
    while at < v.len() && before(v[at], c)
        invariant
            at <= v@.len(),
            v@ == was,
            forall|i: int| 0 <= i < at ==> before_s(#[trigger] was[i], c),
        decreases v@.len() - at,
    {
        at = at + 1;
    }
    if at < v.len() && v[at].0 == c.0 && v[at].1 == c.1 {
        assert(was[at as int] == c);
        return;
    }
    v.insert(at, c);
    proof {
        let w = v@;
        assert(w == was.insert(at as int, c));
        assert(w[at as int] == c);
        assert forall|i: int, j: int| 0 <= i < j < w.len() implies before_s(w[i], w[j]) by {
            if i == at {
                assert(w[j] == was[j - 1]);
                assert(before_s(c, was[at as int]));
                if j - 1 > at {
                    assert(before_s(was[at as int], was[j - 1]));
                }
            } else if j == at {
                assert(w[i] == was[i]);
            } else {
                let a = if i < at { i } else { i - 1 };
                let b = if j < at { j } else { j - 1 };
                assert(w[i] == was[a] && w[j] == was[b]);
                assert(before_s(was[a], was[b]));
            }
        }
        assert forall|x: Caret| #[trigger] w.contains(x) == (was.contains(x) || x == c) by {
            if was.contains(x) {
                let q = was.index_of(x);
                assert(w[if q < at { q } else { q + 1 }] == x);
            }
            if w.contains(x) && x != c {
                let q = w.index_of(x);
                assert(was[if q < at { q } else { q - 1 }] == x);
            }
        }
    }
}

fn add_carets(v: &mut Vec<Caret>, pi: usize, p: &Paragraph)
    requires
        ordered_s(old(v)@),
    ensures
        ordered_s(final(v)@),
        forall|x: Caret| #[trigger]
            final(v)@.contains(x) == (old(v)@.contains(x) || (x.0 == pi && change_at_s(p@, x.1))),
{
    let ghost was = v@;
    let regions = paragraph_regions(&p.runs);
    let ghost g = tracked_region_vs(regions@);
    assert(g.len() == regions@.len());
    let mut i: usize = 0;
    while i < regions.len()
        invariant
            i <= regions@.len(),
            g == tracked_region_vs(regions@),
            ordered_s(v@),
            forall|x: Caret| #[trigger]
                v@.contains(x) == (was.contains(x) || (x.0 == pi && exists|j: int|
                    0 <= j < i && (#[trigger] g[j]).start == x.1)),
        decreases regions@.len() - i,
    {
        let ghost before = v@;
        assert(g[i as int] == regions@[i as int]@);
        add_caret(v, (pi, regions[i].start));
        proof {
            assert forall|x: Caret| #[trigger] v@.contains(x) == (was.contains(x) || (x.0 == pi
                && exists|j: int| 0 <= j < i + 1 && (#[trigger] g[j]).start == x.1)) by {
                assert(v@.contains(x) == (before.contains(x) || x == (pi, g[i as int].start)));
                if x.0 == pi && exists|j: int| 0 <= j < i && (#[trigger] g[j]).start == x.1 {
                    let j = choose|j: int| 0 <= j < i && (#[trigger] g[j]).start == x.1;
                    assert(0 <= j < i + 1 && g[j].start == x.1);
                }
                if x == (pi, g[i as int].start) {
                    assert(g[i as int].start == x.1);
                }
            }
        }
        i = i + 1;
    }
    if p.prop_change.is_some() {
        add_caret(v, (pi, 0));
    }
    if p.mark_change.is_some() {
        add_caret(v, (pi, chars(&p.runs)));
    }
}

/// Every place where a change is found, in order, each once.
pub fn change_carets(doc: &TextDoc) -> (r: Result<Vec<Caret>, ModelError>)
    ensures
        r matches Ok(v) && ordered_s(v@) && forall|c: Caret| #[trigger]
            v@.contains(c) == caret_s(
                read::paragraphs_s(doc@),
                read::paragraphs_s(doc@).len() as int,
                c,
            ),
{
    let paras = match read_paragraphs(doc) {
        Ok(v) => v,
        Err(e) => {
            return Err(e);
        },
    };
    let ghost v = read::paragraphs_s(doc@);
    assert(types::paragraph_vs(paras@).len() == paras@.len());
    let mut out: Vec<Caret> = Vec::new();
    let mut i: usize = 0;
    while i < paras.len()
        invariant
            i <= paras@.len(),
            v == types::paragraph_vs(paras@),
            ordered_s(out@),
            forall|c: Caret| #[trigger] out@.contains(c) == caret_s(v, i as int, c),
        decreases paras@.len() - i,
    {
        assert(v[i as int] == paras@[i as int]@);
        add_carets(&mut out, i, &paras[i]);
        i = i + 1;
    }
    Ok(out)
}

/// Whether `p` is the next change after `cur`, or the first of all where none follows.
pub open spec fn next_s(v: Seq<ParagraphV>, cur: Caret, p: Caret) -> bool {
    let n = v.len() as int;
    &&& caret_s(v, n, p)
    &&& if exists|q: Caret| caret_s(v, n, q) && before_s(cur, q) {
        before_s(cur, p) && forall|q: Caret| #[trigger]
            caret_s(v, n, q) && before_s(cur, q) ==> q == p || before_s(p, q)
    } else {
        forall|q: Caret| #[trigger] caret_s(v, n, q) ==> q == p || before_s(p, q)
    }
}

/// Whether `p` is the last change before `cur`, or the last of all where none precedes.
pub open spec fn previous_s(v: Seq<ParagraphV>, cur: Caret, p: Caret) -> bool {
    let n = v.len() as int;
    &&& caret_s(v, n, p)
    &&& if exists|q: Caret| caret_s(v, n, q) && before_s(q, cur) {
        before_s(p, cur) && forall|q: Caret| #[trigger]
            caret_s(v, n, q) && before_s(q, cur) ==> q == p || before_s(q, p)
    } else {
        forall|q: Caret| #[trigger] caret_s(v, n, q) ==> q == p || before_s(q, p)
    }
}

/// The first of the places after `cur`, or the first of all.
fn next_of(v: &Vec<Caret>, cur: Caret) -> (r: Caret)
    requires
        v@.len() > 0,
        ordered_s(v@),
    ensures
        v@.contains(r),
        before_s(cur, r) ==> forall|i: int|
            0 <= i < v@.len() && before_s(cur, #[trigger] v@[i]) ==> v@[i] == r || before_s(
                r,
                v@[i],
            ),
        !before_s(cur, r) ==> forall|i: int|
            0 <= i < v@.len() ==> !before_s(cur, #[trigger] v@[i]) && (v@[i] == r || before_s(
                r,
                v@[i],
            )),
{
    let mut i: usize = 0;
    while i < v.len()
        invariant
            i <= v@.len(),
            ordered_s(v@),
            forall|j: int| 0 <= j < i ==> !before_s(cur, #[trigger] v@[j]),
        decreases v@.len() - i,
    {
        if before(cur, v[i]) {
            assert(v@.contains(v@[i as int]));
            return v[i];
        }
        i = i + 1;
    }
    assert(v@.contains(v@[0]));
    v[0]
}

/// The last of the places before `cur`, or the last of all.
fn previous_of(v: &Vec<Caret>, cur: Caret) -> (r: Caret)
    requires
        v@.len() > 0,
        ordered_s(v@),
    ensures
        v@.contains(r),
        before_s(r, cur) ==> forall|i: int|
            0 <= i < v@.len() && before_s(#[trigger] v@[i], cur) ==> v@[i] == r || before_s(
                v@[i],
                r,
            ),
        !before_s(r, cur) ==> forall|i: int|
            0 <= i < v@.len() ==> !before_s(#[trigger] v@[i], cur) && (v@[i] == r || before_s(
                v@[i],
                r,
            )),
{
    let n = v.len();
    let mut i: usize = n;
    while i > 0
        invariant
            i <= n == v@.len(),
            ordered_s(v@),
            forall|j: int| i <= j < v@.len() ==> !before_s(#[trigger] v@[j], cur),
        decreases i,
    {
        if before(v[i - 1], cur) {
            assert(v@.contains(v@[i - 1]));
            return v[i - 1];
        }
        i = i - 1;
    }
    assert(v@.contains(v@[n - 1]));
    v[n - 1]
}

/// The next or previous change from a place, going round at the ends; nothing only where the
/// document has no change.
pub fn adjacent_change(doc: &TextDoc, from_para: usize, from_off: usize, forward: bool) -> (r: Result<
    Option<Caret>,
    ModelError,
>)
    ensures
        r matches Ok(o) && (match o {
            None => forall|c: Caret|
                !caret_s(
                    read::paragraphs_s(doc@),
                    read::paragraphs_s(doc@).len() as int,
                    c,
                ),
            Some(p) => if forward {
                next_s(read::paragraphs_s(doc@), (from_para, from_off), p)
            } else {
                previous_s(read::paragraphs_s(doc@), (from_para, from_off), p)
            },
        }),
{
    let v = match change_carets(doc) {
        Ok(v) => v,
        Err(e) => {
            return Err(e);
        },
    };
    let ghost w = read::paragraphs_s(doc@);
    let ghost n = w.len() as int;
    if v.len() == 0 {
        assert forall|c: Caret| !caret_s(w, n, c) by {
            assert(v@.contains(c) == caret_s(w, n, c));
        }
        return Ok(None);
    }
    let cur = (from_para, from_off);
    if forward {
        let p = next_of(&v, cur);
        proof {
            lemma_next(w, v@, cur, p);
        }
        Ok(Some(p))
    } else {
        let p = previous_of(&v, cur);
        proof {
            lemma_previous(w, v@, cur, p);
        }
        Ok(Some(p))
    }
}

proof fn lemma_next(w: Seq<ParagraphV>, v: Seq<Caret>, cur: Caret, p: Caret)
    requires
        forall|c: Caret| #[trigger] v.contains(c) == caret_s(w, w.len() as int, c),
        v.contains(p),
        before_s(cur, p) ==> forall|i: int|
            0 <= i < v.len() && before_s(cur, #[trigger] v[i]) ==> v[i] == p || before_s(p, v[i]),
        !before_s(cur, p) ==> forall|i: int|
            0 <= i < v.len() ==> !before_s(cur, #[trigger] v[i]) && (v[i] == p || before_s(
                p,
                v[i],
            )),
    ensures
        next_s(w, cur, p),
{
    let n = w.len() as int;
    assert(caret_s(w, n, p));
    assert forall|q: Caret| #[trigger] caret_s(w, n, q) implies v[v.index_of(q)] == q && 0
        <= v.index_of(q) < v.len() by {
        assert(v.contains(q));
    }
    if before_s(cur, p) {
        assert(caret_s(w, n, p) && before_s(cur, p));
    } else {
        assert forall|q: Caret| !(caret_s(w, n, q) && before_s(cur, q)) by {
            if caret_s(w, n, q) {
                assert(!before_s(cur, v[v.index_of(q)]));
            }
        }
    }
}

proof fn lemma_previous(w: Seq<ParagraphV>, v: Seq<Caret>, cur: Caret, p: Caret)
    requires
        forall|c: Caret| #[trigger] v.contains(c) == caret_s(w, w.len() as int, c),
        v.contains(p),
        before_s(p, cur) ==> forall|i: int|
            0 <= i < v.len() && before_s(#[trigger] v[i], cur) ==> v[i] == p || before_s(v[i], p),
        !before_s(p, cur) ==> forall|i: int|
            0 <= i < v.len() ==> !before_s(#[trigger] v[i], cur) && (v[i] == p || before_s(
                v[i],
                p,
            )),
    ensures
        previous_s(w, cur, p),
{
    let n = w.len() as int;
    assert(caret_s(w, n, p));
    assert forall|q: Caret| #[trigger] caret_s(w, n, q) implies v[v.index_of(q)] == q && 0
        <= v.index_of(q) < v.len() by {
        assert(v.contains(q));
    }
    if before_s(p, cur) {
        assert(caret_s(w, n, p) && before_s(p, cur));
    } else {
        assert forall|q: Caret| !(caret_s(w, n, q) && before_s(q, cur)) by {
            if caret_s(w, n, q) {
                assert(!before_s(v[v.index_of(q)], cur));
            }
        }
    }
}

/// The first region from `i` on that holds `off`.
pub open spec fn holding_s(g: Seq<TrackedRegionV>, off: usize, i: int) -> Option<TrackedRegionV>
    decreases g.len() - i,
{
    if i < 0 || i >= g.len() {
        None
    } else if g[i].start <= off < g[i].end {
        Some(g[i])
    } else {
        holding_s(g, off, i + 1)
    }
}

/// The first region from `i` on that ends at `off`.
pub open spec fn ending_s(g: Seq<TrackedRegionV>, off: usize, i: int) -> Option<TrackedRegionV>
    decreases g.len() - i,
{
    if i < 0 || i >= g.len() {
        None
    } else if off == g[i].end {
        Some(g[i])
    } else {
        ending_s(g, off, i + 1)
    }
}

/// What stands for the end of a paragraph.
pub const PILCROW: &'static str = "\u{b6}";

/// The change at a position of a paragraph: a region that holds it; at the end, the change of
/// the mark; a region that ends there; or else the paragraph's property change.
pub open spec fn track_at_s(p: ParagraphV, off: usize) -> Option<TrackedRegionV> {
    let g = regions_s(p.runs, p.runs.len());
    let len = import::chars_s(p.runs);
    match holding_s(g, off, 0) {
        Some(r) => Some(r),
        None => if off == len && p.mark_change is Some {
            Some(
                TrackedRegionV {
                    track: p.mark_change->0,
                    text: PILCROW@,
                    start: len,
                    end: len,
                },
            )
        } else {
            match ending_s(g, off, 0) {
                Some(r) => Some(r),
                None => match p.prop_change {
                    Some(c) => Some(
                        TrackedRegionV {
                            track: half_s(TrackKind::Fmt, c.author, c.date, c.id),
                            text: writing::run_text_s(p.runs),
                            start: 0,
                            end: len,
                        },
                    ),
                    None => None,
                },
            }
        },
    }
}

fn joined(v: &Vec<Run>) -> (r: String)
    ensures
        r@ == writing::run_text_s(types::run_vs(v@)),
{
    let ghost w = types::run_vs(v@);
    let mut s = String::new();
    assert(s@ =~= Seq::empty());
    let mut i: usize = 0;
    while i < v.len()
        invariant
            i <= v@.len(),
            w == types::run_vs(v@),
            s@ == writing::joined_s(w, i as nat),
        decreases v@.len() - i,
    {
        assert(w[i as int] == v@[i as int]@);
        s.append(v[i].text.as_str());
        i = i + 1;
    }
    s
}

fn holding(v: &Vec<TrackedRegion>, off: usize) -> (r: Option<TrackedRegion>)
    ensures
        tracked_region_ov(r) == holding_s(tracked_region_vs(v@), off, 0),
{
    let ghost g = tracked_region_vs(v@);
    let mut i: usize = 0;
    while i < v.len()
        invariant
            i <= v@.len(),
            g == tracked_region_vs(v@),
            holding_s(g, off, 0) == holding_s(g, off, i as int),
        decreases v@.len() - i,
    {
        assert(g[i as int] == v@[i as int]@);
        if off >= v[i].start && off < v[i].end {
            return Some(v[i].clone());
        }
        i = i + 1;
    }
    None
}

fn ending(v: &Vec<TrackedRegion>, off: usize) -> (r: Option<TrackedRegion>)
    ensures
        tracked_region_ov(r) == ending_s(tracked_region_vs(v@), off, 0),
{
    let ghost g = tracked_region_vs(v@);
    let mut i: usize = 0;
    while i < v.len()
        invariant
            i <= v@.len(),
            g == tracked_region_vs(v@),
            ending_s(g, off, 0) == ending_s(g, off, i as int),
        decreases v@.len() - i,
    {
        assert(g[i as int] == v@[i as int]@);
        if off == v[i].end {
            return Some(v[i].clone());
        }
        i = i + 1;
    }
    None
}

fn track_in(p: &Paragraph, off: usize) -> (r: Option<TrackedRegion>)
    ensures
        tracked_region_ov(r) == track_at_s(p@, off),
{
    let regions = paragraph_regions(&p.runs);
    let at = holding(&regions, off);
    if at.is_some() {
        return at;
    }
    let len = chars(&p.runs);
    if off == len {
        if let Some(m) = &p.mark_change {
            return Some(
                TrackedRegion {
                    track: m.clone(),
                    text: PILCROW.to_string(),
                    start: len,
                    end: len,
                },
            );
        }
    }
    let at = ending(&regions, off);
    if at.is_some() {
        return at;
    }
    match &p.prop_change {
        Some(c) => Some(
            TrackedRegion {
                track: Track {
                    kind: TrackKind::Fmt,
                    author: c.author.clone(),
                    date: c.date.clone(),
                    id: c.id,
                },
                text: joined(&p.runs),
                start: 0,
                end: len,
            },
        ),
        None => None,
    }
}

/// The change at a position of a paragraph; nothing past the last paragraph.
pub fn track_at(doc: &TextDoc, idx: usize, off: usize) -> (r: Result<
    Option<TrackedRegion>,
    ModelError,
>)
    ensures
        r matches Ok(o) && tracked_region_ov(o) == (if idx < read::refs_s(doc@).len() {
            track_at_s(read::paragraphs_s(doc@)[idx as int], off)
        } else {
            None
        }),
{
    match doc.nth_block(idx) {
        Ok(id) => {
            let p = doc.read_paragraph(id);
            Ok(track_in(&p, off))
        },
        Err(_) => Ok(None),
    }
}

/// Whether a run reaches into `start..end`.
pub open spec fn overlaps_s(v: Seq<RunV>, i: int, start: usize, end: usize) -> bool {
    edits::offset_s(v, i as nat) < end && edits::offset_s(v, (i + 1) as nat) > start
}

/// Whether a run is an insertion by `author`.
pub open spec fn own_s(r: RunV, author: Seq<char>) -> bool {
    r.track matches Some(t) && t.kind is Ins && t.author == author
}

/// Whether `start..end` lies within insertions by `author`.
pub open spec fn own_insertion_s(v: Seq<RunV>, start: usize, end: usize, author: Seq<char>) -> bool {
    &&& end > start
    &&& forall|i: int|
        0 <= i < v.len() && #[trigger] overlaps_s(v, i, start, end) ==> own_s(v[i], author)
    &&& exists|i: int| 0 <= i < v.len() && #[trigger] overlaps_s(v, i, start, end)
}

fn is_own(r: &Run, author: &str) -> (b: bool)
    ensures
        b == own_s(r@, author@),
{
    match &r.track {
        Some(t) => match t.kind {
            TrackKind::Ins => str_eq(t.author.as_str(), author),
            _ => false,
        },
        None => false,
    }
}

fn own_insertion(v: &Vec<Run>, start: usize, end: usize, author: &str) -> (r: bool)
    requires
        end > start,
    ensures
        r == own_insertion_s(types::run_vs(v@), start, end, author@),
{
    let ghost w = types::run_vs(v@);
    let mut pos: usize = 0;
    let mut covered = false;
    let mut i: usize = 0;
    while i < v.len()
        invariant
            i <= v@.len(),
            w == types::run_vs(v@),
            pos == edits::offset_s(w, i as nat),
            forall|j: int|
                0 <= j < i && #[trigger] overlaps_s(w, j, start, end) ==> own_s(w[j], author@),
            covered == exists|j: int| 0 <= j < i && #[trigger] overlaps_s(w, j, start, end),
        decreases v@.len() - i,
    {
        assert(w[i as int] == v@[i as int]@);
        proof {
            edits::lemma_offset(w, i as nat);
        }
        let next = advance(pos, v[i].text.as_str().unicode_len());
        let ghost was = covered;
        if pos < end && next > start {
            assert(overlaps_s(w, i as int, start, end));
            if !is_own(&v[i], author) {
                return false;
            }
            covered = true;
        }
        proof {
            if was {
                let j = choose|j: int| 0 <= j < i && #[trigger] overlaps_s(w, j, start, end);
                assert(0 <= j < i + 1 && overlaps_s(w, j, start, end));
            }
        }
        pos = next;
        i = i + 1;
    }
    covered
}

/// Whether a range of a paragraph lies within insertions by `author`, which are removed outright
/// rather than marked as deleted.
pub fn range_is_own_insertion(doc: &TextDoc, idx: usize, start: usize, end: usize, author: &str) -> (r:
    Result<bool, ModelError>)
    ensures
        r matches Ok(b) && b == (idx < read::refs_s(doc@).len() && own_insertion_s(
            read::paragraphs_s(doc@)[idx as int].runs,
            start,
            end,
            author@,
        )),
{
    if end <= start {
        return Ok(false);
    }
    match doc.nth_block(idx) {
        Ok(id) => {
            let p = doc.read_paragraph(id);
            Ok(own_insertion(&p.runs, start, end, author))
        },
        Err(_) => Ok(false),
    }
}

} // verus!
