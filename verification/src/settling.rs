//! A revision that was rejected is gone.

use vstd::prelude::*;
use crate::doc;
use crate::doc::DocV;
use crate::edits;
use crate::formatting::RunFormatV;
use crate::moving;
use crate::read;
use crate::readback;
use crate::resolving;
use crate::reverting;
use crate::revisions;
use crate::revisions::TrackedRegionV;
use crate::runback;
use crate::sequence;
use crate::store::BlockId;
use crate::types::{ParagraphV, RunV, TrackV};

verus! {

// ---------------------------------------------------------------- texts without the revision

/// Whether no character of a block's text is part of revision `id`.
pub open spec fn text_free_s(d: DocV, b: BlockId, id: u64) -> bool {
    forall|i: int|
        0 <= i < doc::text_s(d, b).len() ==> !revisions::run_uses_s(
            runback::read_s(#[trigger] doc::text_s(d, b)[i]),
            id,
        )
}

proof fn lemma_used_text_is_free(d: DocV, idx: int, id: u64)
    requires
        resolving::unused_s(d, id),
        0 <= idx < read::refs_s(d).len(),
        d.s.texts.contains_key(read::block_s(d, idx)),
    ensures
        text_free_s(d, read::block_s(d, idx), id),
{
    let b = read::block_s(d, idx);
    let segs = d.s.texts[b];
    let p = read::paragraphs_s(d)[idx];
    assert forall|i: int| 0 <= i < doc::text_s(d, b).len() implies !revisions::run_uses_s(
        runback::read_s(#[trigger] doc::text_s(d, b)[i]),
        id,
    ) by {
        resolving::lemma_char_run(segs, segs.len(), i);
        let c = doc::text_s(d, b)[i];
        let j = choose|j: int| 0 <= j < p.runs.len() && #[trigger] resolving::like_s(p.runs[j], c);
        assert(!revisions::run_uses_s(p.runs[j], id));
    }
}

proof fn lemma_free_text_is_unused(d: DocV, idx: int, f: DocV, id: u64)
    requires
        resolving::unused_s(d, id),
        0 <= idx < read::refs_s(d).len(),
        read::refs_s(f) == read::refs_s(d),
        f.s.metas == d.s.metas,
        f.s.texts.contains_key(read::block_s(d, idx)),
        text_free_s(f, read::block_s(d, idx), id),
    ensures
        !revisions::para_uses_s(read::paragraphs_s(f)[idx], id),
{
    let b = read::block_s(d, idx);
    let segs = f.s.texts[b];
    let p = read::paragraphs_s(f)[idx];
    let was = read::paragraphs_s(d)[idx];
    assert(!revisions::para_uses_s(was, id));
    assert(p.prop_change == was.prop_change);
    assert(p.mark_change == was.mark_change);
    if exists|j: int| 0 <= j < p.runs.len() && revisions::run_uses_s(#[trigger] p.runs[j], id) {
        let j = choose|j: int| 0 <= j < p.runs.len() && revisions::run_uses_s(#[trigger] p.runs[j], id);
        resolving::lemma_run_char(segs, segs.len(), j);
        let t = doc::text_s(f, b);
        let i = choose|i: int| 0 <= i < t.len() && #[trigger] resolving::like_s(p.runs[j], t[i]);
        assert(!revisions::run_uses_s(runback::read_s(t[i]), id));
    }
}

proof fn lemma_same_paragraph(d: DocV, idx: int, f: DocV, id: u64)
    requires
        resolving::unused_s(d, id),
        0 <= idx < read::refs_s(d).len(),
        read::refs_s(f) == read::refs_s(d),
        f.s.metas == d.s.metas,
        f.s.texts.dom() == d.s.texts.dom(),
        f.s.texts[read::block_s(d, idx)] == d.s.texts[read::block_s(d, idx)],
    ensures
        !revisions::para_uses_s(read::paragraphs_s(f)[idx], id),
{
    let b = read::block_s(d, idx);
    assert(f.s.texts.contains_key(b) == d.s.texts.dom().contains(b));
    assert(read::paragraphs_s(f)[idx] == read::paragraphs_s(d)[idx]);
}

/// A document in which only the texts of two paragraphs changed, and those are part of the revision
/// nowhere, has the revision no more than before.
proof fn lemma_two_free(d: DocV, p: int, q: int, f: DocV, id: u64)
    requires
        resolving::unused_s(d, id),
        0 <= p < read::refs_s(d).len(),
        0 <= q < read::refs_s(d).len(),
        d.s.texts.contains_key(read::block_s(d, p)),
        d.s.texts.contains_key(read::block_s(d, q)),
        read::refs_s(f) == read::refs_s(d),
        f.s.metas == d.s.metas,
        f.s.texts.dom() == d.s.texts.dom(),
        forall|z: BlockId|
            z != read::block_s(d, p) && z != read::block_s(d, q) ==> #[trigger] f.s.texts[z]
                == d.s.texts[z],
        text_free_s(f, read::block_s(d, p), id),
        text_free_s(f, read::block_s(d, q), id),
    ensures
        resolving::unused_s(f, id),
{
    assert forall|i: int| 0 <= i < read::refs_s(f).len() implies !revisions::para_uses_s(
        #[trigger] read::paragraphs_s(f)[i],
        id,
    ) by {
        let z = read::block_s(d, i);
        if z == read::block_s(d, p) || z == read::block_s(d, q) {
            assert(d.s.texts.dom().contains(z));
            lemma_free_text_is_unused(d, i, f, id);
        } else {
            lemma_same_paragraph(d, i, f, id);
        }
    }
}

// ---------------------------------------------------------------- a revision that is not there

proof fn lemma_not_noted(ids: Seq<u64>, v: Seq<TrackedRegionV>, n: nat, id: u64)
    requires
        n <= v.len(),
        !ids.contains(id),
        forall|i: int| 0 <= i < v.len() ==> (#[trigger] v[i]).track.id != id,
    ensures
        !revisions::note_regions_s(ids, v, n).contains(id),
    decreases n,
{
    if n > 0 {
        lemma_not_noted(ids, v, (n - 1) as nat, id);
        assert(v[n - 1].track.id != id);
    }
}

proof fn lemma_not_listed(v: Seq<ParagraphV>, n: nat, id: u64)
    requires
        n <= v.len(),
        forall|i: int| 0 <= i < v.len() ==> !revisions::para_uses_s(#[trigger] v[i], id),
    ensures
        !revisions::revision_ids_s(v, n).contains(id),
    decreases n,
{
    if n > 0 {
        lemma_not_listed(v, (n - 1) as nat, id);
        let p = v[n - 1];
        assert(!revisions::para_uses_s(p, id));
        assert forall|i: int| 0 <= i < p.runs.len() implies !revisions::run_uses_s(
            #[trigger] p.runs[i],
            id,
        ) by {}
        resolving::lemma_unused_regions(p.runs, id, p.runs.len());
        let g = revisions::regions_s(p.runs, p.runs.len());
        lemma_not_noted(revisions::revision_ids_s(v, (n - 1) as nat), g, g.len(), id);
    }
}

/// A revision that no paragraph carries is not listed, and resolving it finds nothing and changes
/// nothing.
pub proof fn law_absent_revision_resolves_to_nothing(d: DocV, id: u64, accept: bool, states: Seq<DocV>)
    requires
        resolving::unused_s(d, id),
        revisions::all_resolved_s(states, d, id, accept, read::refs_s(d).len() as int),
    ensures
        states.last() == d,
        !revisions::hit_s(
            read::paragraphs_s(d),
            id,
            accept,
            read::paragraphs_s(d).len() as int,
        ),
        !revisions::revision_ids_s(read::paragraphs_s(d), read::paragraphs_s(d).len()).contains(id),
{
    let v = read::paragraphs_s(d);
    resolving::lemma_steps(states, d, id, accept);
    resolving::lemma_quiet(states, resolving::blocks_s(d), v, id, accept, 0, v.len() as int);
    assert forall|i: int| 0 <= i < v.len() implies !revisions::touched_s(#[trigger] v[i], id, accept) by {
        resolving::lemma_untouched(v[i], id, accept);
    }
    lemma_not_listed(v, v.len(), id);
}

// ---------------------------------------------------------------- rejected suggestions

/// Whether resolving a revision finds something.
pub open spec fn found_s(e: DocV, id: u64, accept: bool) -> bool {
    revisions::hit_s(read::paragraphs_s(e), id, accept, read::paragraphs_s(e).len() as int)
}

/// Rejecting a suggested insertion finds it, and after that it is gone.
pub proof fn law_rejected_insertion_is_gone(
    d: DocV,
    idx: int,
    pos: usize,
    text: Seq<char>,
    t: TrackV,
    e: DocV,
    states: Seq<DocV>,
)
    requires
        sequence::sound_s(d),
        resolving::unused_s(d, t.id),
        0 <= idx < read::refs_s(d).len(),
        d.s.texts.contains_key(read::block_s(d, idx)),
        t.kind is Ins,
        revisions::suggested_s(d, read::block_s(d, idx), pos as int, text, t, e),
        doc::text_s(e, read::block_s(d, idx)).len() <= usize::MAX,
        !resolving::fmt_typed_s(d, read::block_s(d, idx), pos as int, t.id),
        revisions::all_resolved_s(states, e, t.id, false, read::refs_s(e).len() as int),
    ensures
        found_s(e, t.id, false),
        resolving::unused_s(states.last(), t.id),
{
    let b = read::block_s(d, idx);
    let f = states.last();
    resolving::law_rejected_insertion_is_undone(d, idx, pos, text, t, e, states);
    read::lemma_text_keeps_shape(d, f, b);
    lemma_used_text_is_free(d, idx, t.id);
    lemma_one_free(d, idx, f, t.id);
}

proof fn lemma_one_free(d: DocV, idx: int, f: DocV, id: u64)
    requires
        resolving::unused_s(d, id),
        0 <= idx < read::refs_s(d).len(),
        d.s.texts.contains_key(read::block_s(d, idx)),
        read::refs_s(f) == read::refs_s(d),
        doc::only_text_s(d, f, read::block_s(d, idx)),
        text_free_s(f, read::block_s(d, idx), id),
    ensures
        resolving::unused_s(f, id),
{
    let b = read::block_s(d, idx);
    assert(f.s.texts.dom() =~= d.s.texts.dom());
    assert forall|z: BlockId| z != b implies #[trigger] f.s.texts[z] == d.s.texts[z] by {
        assert(f.s.texts[z] == d.s.texts.insert(b, f.s.texts[b])[z]);
    }
    lemma_two_free(d, idx, idx, f, id);
}

/// Rejecting a suggested deletion of text that no insertion or deletion covers finds it, and after
/// that it is gone.
pub proof fn law_rejected_deletion_is_gone(
    d: DocV,
    idx: int,
    from: usize,
    to: usize,
    t: TrackV,
    e: DocV,
    states: Seq<DocV>,
)
    requires
        sequence::sound_s(d),
        resolving::unused_s(d, t.id),
        0 <= idx < read::refs_s(d).len(),
        d.s.texts.contains_key(read::block_s(d, idx)),
        doc::text_s(d, read::block_s(d, idx)).len() <= usize::MAX,
        t.kind is Del,
        resolving::free_s(doc::text_s(d, read::block_s(d, idx)), from as int, to as int),
        revisions::tracked_s(d, read::block_s(d, idx), from as int, to as int, t, e),
        revisions::all_resolved_s(states, e, t.id, false, read::refs_s(e).len() as int),
    ensures
        found_s(e, t.id, false),
        resolving::unused_s(states.last(), t.id),
{
    let b = read::block_s(d, idx);
    let f = states.last();
    resolving::law_rejected_deletion_is_undone(d, idx, from, to, t, e, states);
    read::lemma_text_keeps_shape(d, f, b);
    lemma_used_text_is_free(d, idx, t.id);
    lemma_one_free(d, idx, f, t.id);
}

/// Rejecting a suggested move between two paragraphs finds it, and after that it is gone.
pub proof fn law_rejected_move_is_gone(
    d: DocV,
    p: int,
    start: usize,
    end: usize,
    q: int,
    pos: usize,
    author: Seq<char>,
    date: Seq<char>,
    id: u64,
    mid: DocV,
    e: DocV,
    states: Seq<DocV>,
)
    requires
        moving::moved_s(d, p, start, end, q, pos, author, date, id, mid, e),
        revisions::all_resolved_s(states, e, id, false, read::refs_s(e).len() as int),
    ensures
        found_s(e, id, false),
        resolving::unused_s(states.last(), id),
{
    let f = states.last();
    moving::law_suggested_move_is_found(
        d,
        p,
        start,
        end,
        q,
        pos,
        author,
        date,
        id,
        mid,
        e,
        false,
        states,
    );
    moving::law_rejected_move_is_undone(d, p, start, end, q, pos, author, date, id, mid, e, states);
    lemma_used_text_is_free(d, p, id);
    lemma_used_text_is_free(d, q, id);
    read::lemma_same_refs(d, f);
    lemma_two_free(d, p, q, f, id);
}

/// Rejecting suggested formatting of text that was part of no revision finds it, and after that it
/// is gone.
pub proof fn law_rejected_format_is_gone(
    d: DocV,
    idx: int,
    start: usize,
    end: usize,
    f: RunFormatV,
    author: Seq<char>,
    date: Seq<char>,
    id: u64,
    e: DocV,
    states: Seq<DocV>,
)
    requires
        sequence::sound_s(d),
        resolving::unused_s(d, id),
        0 <= idx < read::refs_s(d).len(),
        d.s.texts.contains_key(read::block_s(d, idx)),
        doc::text_s(d, read::block_s(d, idx)).len() <= usize::MAX,
        revisions::records_read_s(
            read::runs_of_s(d, read::block_s(d, idx)),
            start,
            end,
            author,
            date,
            id,
            read::runs_of_s(d, read::block_s(d, idx)).len(),
        ),
        edits::text_edited_s(
            d,
            read::block_s(d, idx),
            reverting::suggestion_s(
                read::runs_of_s(d, read::block_s(d, idx)),
                start,
                end,
                f,
                author,
                date,
                id,
            ),
            e,
        ),
        start < end <= doc::text_s(d, read::block_s(d, idx)).len(),
        forall|k: int|
            start <= k < end ==> reverting::fresh_s(
                #[trigger] doc::text_s(d, read::block_s(d, idx))[k],
            ),
        revisions::all_resolved_s(states, e, id, false, read::refs_s(e).len() as int),
    ensures
        found_s(e, id, false),
        resolving::unused_s(states.last(), id),
{
    let b = read::block_s(d, idx);
    let g = states.last();
    assert(reverting::fresh_s(doc::text_s(d, b)[start as int]));
    reverting::law_rejected_format_is_undone(
        d,
        idx,
        start,
        end,
        f,
        author,
        date,
        id,
        e,
        start as int,
        states,
    );
    read::lemma_text_keeps_shape(d, g, b);
    lemma_used_text_is_free(d, idx, id);
    assert forall|i: int| 0 <= i < doc::text_s(g, b).len() implies !revisions::run_uses_s(
        runback::read_s(#[trigger] doc::text_s(g, b)[i]),
        id,
    ) by {
        let was = doc::text_s(d, b)[i];
        let now = doc::text_s(g, b)[i];
        assert(reverting::restored_s(was, now, start <= i < end));
        assert(!revisions::run_uses_s(runback::read_s(was), id));
    }
    lemma_one_free(d, idx, g, id);
}

// ---------------------------------------------------------------- sound documents

/// A suggested move keeps a document sound.
pub proof fn law_suggested_move_keeps_sound(
    d: DocV,
    from: BlockId,
    start: usize,
    end: usize,
    v: Seq<RunV>,
    to: BlockId,
    pos: usize,
    author: Seq<char>,
    date: Seq<char>,
    id: u64,
    mid: DocV,
    e: DocV,
)
    requires
        sequence::sound_s(d),
        revisions::move_done_s(d, from, start, end, v, to, pos, author, date, id, mid, e),
    ensures
        sequence::sound_s(e),
{
    sequence::law_text_edits_keep_sound(d, mid, from);
    sequence::law_text_edits_keep_sound(mid, e, to);
}

proof fn lemma_step_sound(d: DocV, b: BlockId, p: ParagraphV, id: u64, accept: bool, e: DocV)
    requires
        sequence::sound_s(d),
        revisions::resolved_s(d, b, p, id, accept, e),
    ensures
        sequence::sound_s(e),
{
    if revisions::prop_hit_s(p, id) {
        let c = p.prop_change->0;
        readback::lemma_kind_kept(d.s.metas[b], c, accept);
        assert forall|x: BlockId| read::is_table_s(#[trigger] e.s.metas[x]) == read::is_table_s(
            d.s.metas[x],
        ) by {}
        assert(e.s.texts.dom() =~= d.s.texts.dom());
        sequence::law_sound_rests_on_the_tree(d, e);
    } else if revisions::touched_s(p, id, accept) {
        sequence::law_text_edits_keep_sound(d, e, b);
    }
}

proof fn lemma_steps_sound(
    states: Seq<DocV>,
    blocks: Seq<BlockId>,
    v: Seq<ParagraphV>,
    id: u64,
    accept: bool,
    n: nat,
)
    requires
        resolving::steps_s(states, blocks, v, id, accept),
        n <= v.len(),
        sequence::sound_s(states[0]),
    ensures
        sequence::sound_s(states[n as int]),
    decreases n,
{
    if n > 0 {
        lemma_steps_sound(states, blocks, v, id, accept, (n - 1) as nat);
        resolving::lemma_one_step(states, blocks, v, id, accept, n - 1);
        lemma_step_sound(states[n - 1], blocks[n - 1], v[n - 1], id, accept, states[n as int]);
    }
}

/// Resolving a revision keeps a document sound.
pub proof fn law_resolved_revision_keeps_sound(d: DocV, id: u64, accept: bool, states: Seq<DocV>)
    requires
        sequence::sound_s(d),
        revisions::all_resolved_s(states, d, id, accept, read::refs_s(d).len() as int),
    ensures
        sequence::sound_s(states.last()),
{
    let v = read::paragraphs_s(d);
    resolving::lemma_steps(states, d, id, accept);
    lemma_steps_sound(states, resolving::blocks_s(d), v, id, accept, v.len());
}

} // verus!
