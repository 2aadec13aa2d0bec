//! Resolving a suggestion undoes it or carries it out.

use vstd::prelude::*;
use crate::doc;
use crate::doc::DocV;
use crate::edits;
use crate::edits::TextOpV;
use crate::import;
use crate::read;
use crate::revisions;
use crate::revisions::TrackedRegionV;
use crate::runback;
use crate::runs;
use crate::sequence;
use crate::store;
use crate::store::{BlockId, CharV, ScalarV, SegV};
use crate::types::{ParagraphV, RunV, TrackKind, TrackV};
use crate::writing;

verus! {

// ---------------------------------------------------------------- characters and runs

/// The revision of a character: its insertion, deletion or move, or else its formatting change.
pub open spec fn mark_s(c: CharV) -> Option<TrackV> {
    revisions::aspect_s(runback::read_s(c))
}

/// Whether a character carries revision `id`.
pub open spec fn carries_s(c: CharV, id: u64) -> bool {
    mark_s(c) matches Some(t) && t.id == id
}

/// The revision of a run rests on its attributes alone.
pub(crate) proof fn lemma_mark(s: SegV, c: char)
    ensures
        mark_s(store::char_s(c, s.attrs)) == revisions::aspect_s(runs::run_s(s)),
        runback::read_s(store::char_s(c, s.attrs)).fmt_change == runs::run_s(s).fmt_change,
        runback::read_s(store::char_s(c, s.attrs)).track == runs::run_s(s).track,
{
}

/// Each character has the revisions of some run.
pub(crate) proof fn lemma_char_run(v: Seq<SegV>, n: nat, i: int)
    requires
        n <= v.len(),
        0 <= i < store::flat_s(v, n).len(),
    ensures
        exists|j: int|
            0 <= j < runs::runs_s(v, n).len() && #[trigger] like_s(
                runs::runs_s(v, n)[j],
                store::flat_s(v, n)[i],
            ),
    decreases n,
{
    let s = v[n - 1];
    let before = store::flat_s(v, (n - 1) as nat);
    let had = runs::runs_s(v, (n - 1) as nat);
    let tail = Seq::new(s.text.len(), |k: int| store::char_s(s.text[k], s.attrs));
    assert(store::flat_s(v, n) =~= before + tail);
    if i < before.len() {
        lemma_char_run(v, (n - 1) as nat, i);
        let j = choose|j: int| 0 <= j < had.len() && #[trigger] like_s(had[j], before[i]);
        assert(runs::runs_s(v, n)[j] == had[j]);
        assert(like_s(runs::runs_s(v, n)[j], store::flat_s(v, n)[i]));
    } else {
        let k = i - before.len();
        lemma_mark(s, s.text[k]);
        assert(store::flat_s(v, n)[i] == store::char_s(s.text[k], s.attrs));
        let j = had.len() as int;
        assert(runs::runs_s(v, n)[j] == runs::run_s(s));
        assert(like_s(runs::runs_s(v, n)[j], store::flat_s(v, n)[i]));
    }
}

/// Whether a run has the revisions of a character.
pub open spec fn like_s(r: RunV, c: CharV) -> bool {
    r.track == runback::read_s(c).track && r.fmt_change == runback::read_s(c).fmt_change
}

// ---------------------------------------------------------------- regions

proof fn lemma_regions_prefix(v: Seq<RunV>, w: Seq<RunV>, n: nat)
    requires
        n <= v.len(),
        n <= w.len(),
        forall|i: int| 0 <= i < n ==> v[i] == w[i],
    ensures
        revisions::regions_s(v, n) == revisions::regions_s(w, n),
        import::runs_len_s(v, n) == import::runs_len_s(w, n),
    decreases n,
{
    if n > 0 {
        lemma_regions_prefix(v, w, (n - 1) as nat);
    }
}

/// Whether a region is that of `from..to` under a revision.
spec fn is_region_s(g: TrackedRegionV, from: int, to: int, id: u64, kind: TrackKind) -> bool {
    g.track.id == id && g.track.kind == kind && g.start == from && g.end == to
}

/// Whether the region at `k` is the only one of a revision.
spec fn only_s(g: Seq<TrackedRegionV>, k: int, id: u64) -> bool {
    &&& 0 <= k < g.len()
    &&& forall|i: int| 0 <= i < g.len() && i != k ==> (#[trigger] g[i]).track.id != id
}

/// Whether no region is of a revision.
pub open spec fn none_s(g: Seq<TrackedRegionV>, id: u64) -> bool {
    forall|i: int| 0 <= i < g.len() ==> (#[trigger] g[i]).track.id != id
}

spec fn least_s(a: int, b: int) -> int {
    if a < b {
        a
    } else {
        b
    }
}

/// Whether the regions of the characters before `o` show exactly the part of `from..to` that
/// lies before `o`; `k` is its place.
spec fn shown_s(g: Seq<TrackedRegionV>, k: int, o: int, from: int, to: int, id: u64, kind: TrackKind) -> bool {
    &&& o <= from ==> none_s(g, id)
    &&& o > from ==> only_s(g, k, id) && is_region_s(g[k], from, least_s(o, to), id, kind)
    &&& from < o <= to ==> k == g.len() - 1
}

/// Whether exactly the characters `from..to` carry revision `id`, all as one of `kind`.
pub open spec fn under_s(t: Seq<CharV>, from: int, to: int, id: u64, kind: TrackKind) -> bool {
    &&& 0 <= from < to <= t.len()
    &&& forall|i: int|
        0 <= i < t.len() ==> (carries_s(#[trigger] t[i], id) <==> from <= i < to)
    &&& forall|i: int| from <= i < to ==> mark_s(#[trigger] t[i])->0.kind == kind
}

proof fn lemma_grown(
    g: Seq<TrackedRegionV>,
    k: int,
    o: int,
    from: int,
    to: int,
    id: u64,
    t: TrackV,
    text: Seq<char>,
    p: usize,
    q: usize,
) -> (r: int)
    requires
        shown_s(g, k, o, from, to, id, t.kind),
        t.id == id,
        p == o,
        from <= o < q <= to,
    ensures
        shown_s(revisions::with_region_s(g, t, text, p, q), r, q as int, from, to, id, t.kind),
{
    let w = revisions::with_region_s(g, t, text, p, q);
    if o > from {
        assert(g.last() == g[k]);
        assert(w[k].track == g[k].track);
        assert forall|i: int| 0 <= i < w.len() && i != k implies (#[trigger] w[i]).track.id != id by {
            assert(w[i] == g[i]);
        }
        k
    } else {
        assert(w == g.push(TrackedRegionV { track: t, text, start: p, end: q }));
        assert forall|i: int| 0 <= i < w.len() && i != g.len() implies (#[trigger] w[i]).track.id
            != id by {
            assert(w[i] == g[i]);
        }
        g.len() as int
    }
}

proof fn lemma_other(
    g: Seq<TrackedRegionV>,
    k: int,
    o: int,
    from: int,
    to: int,
    id: u64,
    kind: TrackKind,
    t: TrackV,
    text: Seq<char>,
    p: usize,
    q: usize,
)
    requires
        shown_s(g, k, o, from, to, id, kind),
        t.id != id,
        from < to,
        q <= from || to <= o,
        o < q,
    ensures
        shown_s(revisions::with_region_s(g, t, text, p, q), k, q as int, from, to, id, kind),
{
    let w = revisions::with_region_s(g, t, text, p, q);
    assert forall|i: int| 0 <= i < w.len() && (i < g.len() - 1 || g.len() == 0) && i
        < g.len() implies #[trigger] w[i] == g[i] by {}
    assert forall|i: int| 0 <= i < w.len() && (i != k || o <= from) implies (
    #[trigger] w[i]).track.id != id by {
        if i < g.len() {
            assert(g[i].track.id != id || i == k);
        }
    }
    if o > from {
        assert(g[k].track.id == id);
        assert(w[k] == g[k]);
    }
}

/// The regions of a rich text of which exactly `from..to` carries a revision.
proof fn lemma_regions(v: Seq<SegV>, n: nat, from: int, to: int, id: u64, kind: TrackKind) -> (k: int)
    requires
        n <= v.len(),
        store::flat_s(v, n).len() <= usize::MAX,
        0 <= from < to,
        forall|i: int|
            0 <= i < store::flat_s(v, n).len() ==> (carries_s(#[trigger] store::flat_s(v, n)[i], id)
                <==> from <= i < to),
        forall|i: int|
            0 <= i < store::flat_s(v, n).len() && from <= i < to ==> mark_s(
                #[trigger] store::flat_s(v, n)[i],
            )->0.kind == kind,
    ensures
        import::runs_len_s(runs::runs_s(v, n), runs::runs_s(v, n).len()) == store::flat_s(
            v,
            n,
        ).len(),
        shown_s(
            revisions::regions_s(runs::runs_s(v, n), runs::runs_s(v, n).len()),
            k,
            store::flat_s(v, n).len() as int,
            from,
            to,
            id,
            kind,
        ),
    decreases n,
{
    if n == 0 {
        0
    } else {
        let s = v[n - 1];
        let before = store::flat_s(v, (n - 1) as nat);
        let all = store::flat_s(v, n);
        let tail = Seq::new(s.text.len(), |k: int| store::char_s(s.text[k], s.attrs));
        assert(all =~= before + tail);
        assert forall|i: int| 0 <= i < before.len() implies #[trigger] before[i] == all[i] by {}
        let k = lemma_regions(v, (n - 1) as nat, from, to, id, kind);
        let had = runs::runs_s(v, (n - 1) as nat);
        if s.text.len() == 0 {
            k
        } else {
            let r = runs::run_s(s);
            let now = had.push(r);
            let o = before.len() as int;
            lemma_regions_prefix(had, now, had.len());
            let g = revisions::regions_s(had, had.len());
            let p = edits::offset_s(now, had.len());
            let q = edits::offset_s(now, now.len());
            assert(import::runs_len_s(now, now.len()) == all.len());
            lemma_step(v, n, from, to, id, kind, g, k, r, p, q)
        }
    }
}

/// One more stretch of text.
proof fn lemma_step(
    v: Seq<SegV>,
    n: nat,
    from: int,
    to: int,
    id: u64,
    kind: TrackKind,
    g: Seq<TrackedRegionV>,
    k: int,
    r: RunV,
    p: usize,
    q: usize,
) -> (l: int)
    requires
        0 < n <= v.len(),
        v[n - 1].text.len() > 0,
        r == runs::run_s(v[n - 1]),
        0 <= from < to,
        forall|i: int|
            0 <= i < store::flat_s(v, n).len() ==> (carries_s(#[trigger] store::flat_s(v, n)[i], id)
                <==> from <= i < to),
        forall|i: int|
            0 <= i < store::flat_s(v, n).len() && from <= i < to ==> mark_s(
                #[trigger] store::flat_s(v, n)[i],
            )->0.kind == kind,
        p == store::flat_s(v, (n - 1) as nat).len(),
        q == store::flat_s(v, n).len(),
        q == p + v[n - 1].text.len(),
        shown_s(g, k, p as int, from, to, id, kind),
    ensures
        shown_s(
            (match revisions::aspect_s(r) {
                Some(t) => revisions::with_region_s(g, t, r.text, p, q),
                None => g,
            }),
            l,
            q as int,
            from,
            to,
            id,
            kind,
        ),
{
    let s = v[n - 1];
    let before = store::flat_s(v, (n - 1) as nat);
    let all = store::flat_s(v, n);
    let tail = Seq::new(s.text.len(), |k: int| store::char_s(s.text[k], s.attrs));
    assert(all =~= before + tail);
    assert forall|i: int| p <= i < q implies mark_s(#[trigger] all[i]) == revisions::aspect_s(r) by {
        assert(all[i] == store::char_s(s.text[i - p], s.attrs));
        lemma_mark(s, s.text[i - p]);
    }
    let first = all[p as int];
    let last = all[q - 1];
    assert(mark_s(first) == revisions::aspect_s(r));
    assert(mark_s(last) == revisions::aspect_s(r));
    if carries_s(first, id) {
        assert(carries_s(last, id));
        let t = revisions::aspect_s(r)->0;
        assert(t.kind == kind);
        lemma_grown(g, k, p as int, from, to, id, t, r.text, p, q)
    } else {
        assert(!carries_s(last, id));
        assert(q <= from || to <= p) by {
            if p < from && from < q {
                assert(mark_s(all[from]) == revisions::aspect_s(r));
                assert(carries_s(all[from], id));
            }
        }
        match revisions::aspect_s(r) {
            Some(t) => {
                lemma_other(g, k, p as int, from, to, id, kind, t, r.text, p, q);
            },
            None => {},
        }
        k
    }
}

proof fn lemma_no_ops(g: Seq<TrackedRegionV>, id: u64, accept: bool, n: nat)
    requires
        n <= g.len(),
        forall|i: int| 0 <= i < n ==> (#[trigger] g[i]).track.id != id,
    ensures
        revisions::region_ops_s(g, id, accept, n) == Seq::<TextOpV>::empty(),
    decreases n,
{
    if n > 0 {
        lemma_no_ops(g, id, accept, (n - 1) as nat);
    }
}

proof fn lemma_one_op(g: Seq<TrackedRegionV>, k: int, id: u64, accept: bool, n: nat)
    requires
        only_s(g, k, id),
        g[k].track.id == id,
        k < n <= g.len(),
    ensures
        revisions::region_ops_s(g, id, accept, n) == seq![revisions::region_op_s(g[k], accept)],
    decreases n,
{
    if n - 1 == k {
        lemma_no_ops(g, id, accept, k as nat);
        let op = revisions::region_op_s(g[k], accept);
        assert(seq![op] + Seq::<TextOpV>::empty() =~= seq![op]);
    } else {
        assert(g[n - 1].track.id != id);
        lemma_one_op(g, k, id, accept, (n - 1) as nat);
    }
}

/// The edit that resolves a revision of `kind` over `from..to`.
pub open spec fn settling_s(kind: TrackKind, accept: bool, from: usize, to: usize) -> TextOpV {
    if revisions::removes_s(kind, accept) {
        TextOpV::Cut { from, to }
    } else {
        TextOpV::Clear { from, to, key: kind.mark_key_s() }
    }
}

/// A block of which exactly `from..to` carries a revision is resolved by one edit.
pub(crate) proof fn lemma_ops(e: DocV, b: BlockId, from: usize, to: usize, id: u64, kind: TrackKind, accept: bool)
    requires
        e.s.texts.contains_key(b),
        doc::text_s(e, b).len() <= usize::MAX,
        under_s(doc::text_s(e, b), from as int, to as int, id, kind),
        !revisions::has_fmt_s(read::runs_of_s(e, b), id),
    ensures
        revisions::text_ops_s(read::paragraph_s(e, b), id, accept) == seq![
            settling_s(kind, accept, from, to),
        ],
{
    let segs = e.s.texts[b];
    let t = doc::text_s(e, b);
    assert(t == store::flat_s(segs, segs.len()));
    let k = lemma_regions(segs, segs.len(), from as int, to as int, id, kind);
    let v = read::runs_of_s(e, b);
    let g = revisions::regions_s(v, v.len());
    lemma_one_op(g, k, id, accept, g.len());
}

// ---------------------------------------------------------------- the other paragraphs

pub(crate) proof fn lemma_unused_regions(v: Seq<RunV>, id: u64, n: nat)
    requires
        n <= v.len(),
        forall|i: int| 0 <= i < v.len() ==> !revisions::run_uses_s(#[trigger] v[i], id),
    ensures
        none_s(revisions::regions_s(v, n), id),
    decreases n,
{
    if n > 0 {
        lemma_unused_regions(v, id, (n - 1) as nat);
        assert(!revisions::run_uses_s(v[n - 1], id));
    }
}

/// A paragraph without the revision is left alone.
pub(crate) proof fn lemma_untouched(p: ParagraphV, id: u64, accept: bool)
    requires
        !revisions::para_uses_s(p, id),
    ensures
        !revisions::touched_s(p, id, accept),
{
    assert forall|i: int| 0 <= i < p.runs.len() implies !revisions::run_uses_s(
        #[trigger] p.runs[i],
        id,
    ) by {}
    assert(!revisions::has_fmt_s(p.runs, id)) by {
        if revisions::has_fmt_s(p.runs, id) {
            let i = choose|i: int|
                0 <= i < p.runs.len() && revisions::fmt_is_s(#[trigger] p.runs[i], id);
            assert(revisions::run_uses_s(p.runs[i], id));
        }
    }
    lemma_unused_regions(p.runs, id, p.runs.len());
    let g = revisions::regions_s(p.runs, p.runs.len());
    lemma_no_ops(g, id, accept, g.len());
}

/// Whether no other paragraph than the one at `idx` carries revision `id`.
pub open spec fn only_here_s(d: DocV, idx: int, id: u64) -> bool {
    &&& forall|i: int|
        0 <= i < read::refs_s(d).len() && i != idx ==> !revisions::para_uses_s(
            #[trigger] read::paragraphs_s(d)[i],
            id,
        )
    &&& !revisions::prop_hit_s(read::paragraph_s(d, read::block_s(d, idx)), id)
}

/// A step over a paragraph without the revision changes nothing.
proof fn lemma_still(d: DocV, b: BlockId, p: ParagraphV, id: u64, accept: bool, e: DocV)
    requires
        !revisions::para_uses_s(p, id),
        revisions::resolved_s(d, b, p, id, accept, e),
    ensures
        e == d,
{
    lemma_untouched(p, id, accept);
}

/// A step over a paragraph that one edit resolves makes that edit.
pub(crate) proof fn lemma_edit(d: DocV, b: BlockId, p: ParagraphV, id: u64, accept: bool, op: TextOpV, e: DocV)
    requires
        !revisions::prop_hit_s(p, id),
        revisions::text_ops_s(p, id, accept) == seq![op],
        revisions::resolved_s(d, b, p, id, accept, e),
    ensures
        doc::only_text_s(d, e, b),
        doc::text_s(e, b) == edits::op_s(doc::text_s(d, b), op),
{
    let ops = seq![op];
    let t = doc::text_s(d, b);
    assert(edits::ops_s(t, ops, 0) == t);
    assert(edits::ops_s(t, ops, 1) == edits::op_s(edits::ops_s(t, ops, 0), ops[0]));
}

/// Whether the states lead from one to the next through the resolution of these paragraphs.
#[verifier::opaque]
pub open spec fn steps_s(states: Seq<DocV>, blocks: Seq<BlockId>, v: Seq<ParagraphV>, id: u64, accept: bool) -> bool {
    &&& states.len() == v.len() + 1
    &&& blocks.len() == v.len()
    &&& forall|i: int|
        0 <= i < v.len() ==> revisions::resolved_s(
            #[trigger] states[i],
            blocks[i],
            v[i],
            id,
            accept,
            states[i + 1],
        )
}

pub(crate) proof fn lemma_one_step(
    states: Seq<DocV>,
    blocks: Seq<BlockId>,
    v: Seq<ParagraphV>,
    id: u64,
    accept: bool,
    i: int,
)
    requires
        steps_s(states, blocks, v, id, accept),
        0 <= i < v.len(),
    ensures
        revisions::resolved_s(states[i], blocks[i], v[i], id, accept, states[i + 1]),
{
    reveal(steps_s);
}

/// Nothing changes from `from` to `to` where no paragraph between has the revision.
pub(crate) proof fn lemma_quiet(
    states: Seq<DocV>,
    blocks: Seq<BlockId>,
    v: Seq<ParagraphV>,
    id: u64,
    accept: bool,
    from: int,
    to: int,
)
    requires
        steps_s(states, blocks, v, id, accept),
        0 <= from <= to <= v.len(),
        forall|i: int| from <= i < to ==> !revisions::para_uses_s(#[trigger] v[i], id),
    ensures
        states[to] == states[from],
    decreases to - from,
{
    if from < to {
        lemma_quiet(states, blocks, v, id, accept, from, to - 1);
        lemma_one_step(states, blocks, v, id, accept, to - 1);
        lemma_still(states[to - 1], blocks[to - 1], v[to - 1], id, accept, states[to]);
    }
}

/// Where only the paragraph at `idx` has the revision, and one edit resolves it, that edit is
/// all that happens.
proof fn lemma_single(
    states: Seq<DocV>,
    blocks: Seq<BlockId>,
    v: Seq<ParagraphV>,
    id: u64,
    accept: bool,
    idx: int,
    op: TextOpV,
)
    requires
        steps_s(states, blocks, v, id, accept),
        0 <= idx < v.len(),
        forall|i: int|
            0 <= i < v.len() && i != idx ==> !revisions::para_uses_s(#[trigger] v[i], id),
        !revisions::prop_hit_s(v[idx], id),
        revisions::text_ops_s(v[idx], id, accept) == seq![op],
    ensures
        doc::only_text_s(states[0], states[v.len() as int], blocks[idx]),
        doc::text_s(states[v.len() as int], blocks[idx]) == edits::op_s(
            doc::text_s(states[0], blocks[idx]),
            op,
        ),
{
    lemma_quiet(states, blocks, v, id, accept, 0, idx);
    lemma_one_step(states, blocks, v, id, accept, idx);
    lemma_edit(states[idx], blocks[idx], v[idx], id, accept, op, states[idx + 1]);
    lemma_quiet(states, blocks, v, id, accept, idx + 1, v.len() as int);
}

pub open spec fn blocks_s(d: DocV) -> Seq<BlockId> {
    Seq::new(read::refs_s(d).len(), |i: int| read::block_s(d, i))
}

pub(crate) proof fn lemma_steps(states: Seq<DocV>, e: DocV, id: u64, accept: bool)
    requires
        revisions::all_resolved_s(states, e, id, accept, read::refs_s(e).len() as int),
    ensures
        steps_s(states, blocks_s(e), read::paragraphs_s(e), id, accept),
        states.len() == read::paragraphs_s(e).len() + 1,
        states[0] == e,
        states.last() == states[read::paragraphs_s(e).len() as int],
{
    reveal(steps_s);
    let v = read::paragraphs_s(e);
    assert forall|i: int| 0 <= i < v.len() implies revisions::resolved_s(
        #[trigger] states[i],
        blocks_s(e)[i],
        v[i],
        id,
        accept,
        states[i + 1],
    ) by {
        assert(blocks_s(e)[i] == read::block_s(e, i));
    }
}

/// Resolving a revision that exactly `from..to` of one paragraph carries makes one edit there.
proof fn lemma_settled(
    e: DocV,
    idx: int,
    from: usize,
    to: usize,
    id: u64,
    kind: TrackKind,
    accept: bool,
    states: Seq<DocV>,
)
    requires
        0 <= idx < read::refs_s(e).len(),
        e.s.texts.contains_key(read::block_s(e, idx)),
        doc::text_s(e, read::block_s(e, idx)).len() <= usize::MAX,
        under_s(doc::text_s(e, read::block_s(e, idx)), from as int, to as int, id, kind),
        !revisions::has_fmt_s(read::runs_of_s(e, read::block_s(e, idx)), id),
        only_here_s(e, idx, id),
        revisions::all_resolved_s(states, e, id, accept, read::refs_s(e).len() as int),
    ensures
        doc::only_text_s(e, states.last(), read::block_s(e, idx)),
        doc::text_s(states.last(), read::block_s(e, idx)) == edits::op_s(
            doc::text_s(e, read::block_s(e, idx)),
            settling_s(kind, accept, from, to),
        ),
        revisions::hit_s(
            read::paragraphs_s(e),
            id,
            accept,
            read::paragraphs_s(e).len() as int,
        ),
{
    let b = read::block_s(e, idx);
    let v = read::paragraphs_s(e);
    let op = settling_s(kind, accept, from, to);
    lemma_ops(e, b, from, to, id, kind, accept);
    lemma_steps(states, e, id, accept);
    assert(v[idx] == read::paragraph_s(e, b));
    assert(blocks_s(e)[idx] == b);
    lemma_single(states, blocks_s(e), v, id, accept, idx, op);
    assert(revisions::touched_s(v[idx], id, accept));
}

// ---------------------------------------------------------------- unused ids

/// Whether no paragraph carries revision `id`.
pub open spec fn unused_s(d: DocV, id: u64) -> bool {
    forall|i: int|
        0 <= i < read::refs_s(d).len() ==> !revisions::para_uses_s(
            #[trigger] read::paragraphs_s(d)[i],
            id,
        )
}

pub(crate) proof fn lemma_unused_char(d: DocV, idx: int, id: u64, i: int)
    requires
        unused_s(d, id),
        0 <= idx < read::refs_s(d).len(),
        d.s.texts.contains_key(read::block_s(d, idx)),
        0 <= i < doc::text_s(d, read::block_s(d, idx)).len(),
    ensures
        !carries_s(doc::text_s(d, read::block_s(d, idx))[i], id),
        !revisions::fmt_is_s(runback::read_s(doc::text_s(d, read::block_s(d, idx))[i]), id),
{
    let b = read::block_s(d, idx);
    let segs = d.s.texts[b];
    let p = read::paragraphs_s(d)[idx];
    lemma_char_run(segs, segs.len(), i);
    let c = doc::text_s(d, b)[i];
    let j = choose|j: int| 0 <= j < p.runs.len() && #[trigger] like_s(p.runs[j], c);
    assert(!revisions::run_uses_s(p.runs[j], id));
}

/// Another paragraph keeps what it holds where the text of one block changes.
pub(crate) proof fn lemma_only_here(d: DocV, idx: int, id: u64, e: DocV)
    requires
        sequence::sound_s(d),
        unused_s(d, id),
        0 <= idx < read::refs_s(d).len(),
        doc::only_text_s(d, e, read::block_s(d, idx)),
    ensures
        read::refs_s(e) == read::refs_s(d),
        only_here_s(e, idx, id),
{
    let b = read::block_s(d, idx);
    read::lemma_text_keeps_shape(d, e, b);
    let all = read::refs_s(d);
    assert forall|i: int| 0 <= i < all.len() && i != idx implies !revisions::para_uses_s(
        #[trigger] read::paragraphs_s(e)[i],
        id,
    ) by {
        if i < idx {
            assert(all[i].id_s() != all[idx].id_s());
        } else {
            assert(all[idx].id_s() != all[i].id_s());
        }
        let x = all[i].id_s();
        assert(e.s.metas[x] == d.s.metas[x]);
        assert(e.s.texts.contains_key(x) == d.s.texts.contains_key(x));
        assert(e.s.texts[x] == d.s.texts[x]);
        assert(read::paragraphs_s(e)[i] == read::paragraphs_s(d)[i]);
    }
    assert(e.s.metas[b] == d.s.metas[b]);
    assert(!revisions::para_uses_s(read::paragraphs_s(d)[idx], id));
    assert(read::paragraph_s(e, b).prop_change == read::paragraphs_s(d)[idx].prop_change);
}

// ---------------------------------------------------------------- the marks of revisions

proof fn lemma_keys()
    ensures
        "ins"@ != "del"@,
        "ins"@ != "rfmt"@,
        "del"@ != "rfmt"@,
{
    reveal_strlit("ins");
    reveal_strlit("del");
    reveal_strlit("rfmt");
    assert("ins"@.len() == 3);
    assert("del"@.len() == 3);
    assert("rfmt"@.len() == 4);
    assert("ins"@[0] == 'i');
    assert("del"@[0] == 'd');
}

/// The character with a revision set over it.
pub open spec fn put_s(c: CharV, t: TrackV) -> CharV {
    CharV {
        attrs: c.attrs.insert(
            t.kind.mark_key_s(),
            ScalarV::Text(writing::track_value_s(t)),
        ),
        ..c
    }
}

proof fn lemma_inserted_char(c: CharV, t: TrackV)
    requires
        t.kind is Ins,
        revisions::track_reads_s(t),
    ensures
        mark_s(put_s(c, t)) == Some(t),
{
    assert(runs::text_prop_s(put_s(c, t).attrs, "ins"@) == Some(writing::track_value_s(t)));
}

proof fn lemma_deleted_char(c: CharV, t: TrackV)
    requires
        t.kind is Del,
        revisions::track_reads_s(t),
        !c.attrs.contains_key("ins"@),
    ensures
        mark_s(put_s(c, t)) == Some(t),
        runback::read_s(put_s(c, t)).fmt_change == runback::read_s(c).fmt_change,
{
    lemma_keys();
    let a = put_s(c, t).attrs;
    assert(!a.contains_key("ins"@));
    assert(runs::text_prop_s(a, "ins"@) is None);
    assert(runs::text_prop_s(a, "del"@) == Some(writing::track_value_s(t)));
    assert(runs::text_prop_s(a, "rfmt"@) == runs::text_prop_s(c.attrs, "rfmt"@));
}

/// Each run has the revisions of some character.
pub(crate) proof fn lemma_run_char(v: Seq<SegV>, n: nat, j: int)
    requires
        n <= v.len(),
        0 <= j < runs::runs_s(v, n).len(),
    ensures
        exists|i: int|
            0 <= i < store::flat_s(v, n).len() && #[trigger] like_s(
                runs::runs_s(v, n)[j],
                store::flat_s(v, n)[i],
            ),
    decreases n,
{
    let s = v[n - 1];
    let before = store::flat_s(v, (n - 1) as nat);
    let all = store::flat_s(v, n);
    let had = runs::runs_s(v, (n - 1) as nat);
    let r = runs::runs_s(v, n)[j];
    let tail = Seq::new(s.text.len(), |k: int| store::char_s(s.text[k], s.attrs));
    assert(all =~= before + tail);
    if j < had.len() {
        lemma_run_char(v, (n - 1) as nat, j);
        let i = choose|i: int| 0 <= i < before.len() && #[trigger] like_s(had[j], before[i]);
        assert(all[i] == before[i]);
        assert(like_s(r, all[i]));
    } else {
        lemma_mark(s, s.text[0]);
        let i = before.len() as int;
        assert(all[i] == store::char_s(s.text[0], s.attrs));
        assert(like_s(r, all[i]));
    }
}

pub(crate) proof fn lemma_no_fmt(e: DocV, b: BlockId, id: u64)
    requires
        e.s.texts.contains_key(b),
        forall|i: int|
            0 <= i < doc::text_s(e, b).len() ==> !revisions::fmt_is_s(
                runback::read_s(#[trigger] doc::text_s(e, b)[i]),
                id,
            ),
    ensures
        !revisions::has_fmt_s(read::runs_of_s(e, b), id),
{
    let segs = e.s.texts[b];
    let v = read::runs_of_s(e, b);
    let t = doc::text_s(e, b);
    if revisions::has_fmt_s(v, id) {
        let j = choose|j: int| 0 <= j < v.len() && revisions::fmt_is_s(#[trigger] v[j], id);
        lemma_run_char(segs, segs.len(), j);
        let i = choose|i: int| 0 <= i < t.len() && #[trigger] like_s(v[j], t[i]);
        assert(!revisions::fmt_is_s(runback::read_s(t[i]), id));
    }
}

// ---------------------------------------------------------------- suggested insertions

/// Whether a text typed at a place of a block takes up a format change under `id` from the marks
/// around that place.
pub open spec fn fmt_typed_s(d: DocV, b: BlockId, pos: int, id: u64) -> bool {
    revisions::fmt_is_s(runback::read_s(store::char_s(' ', d.s.typed[b][pos])), id)
}

/// The format change of a character rests on one attribute.
pub(crate) proof fn lemma_fmt_rests(a: CharV, b: CharV)
    requires
        store::prop_s(a.attrs, "rfmt"@) == store::prop_s(b.attrs, "rfmt"@),
    ensures
        runback::read_s(a).fmt_change == runback::read_s(b).fmt_change,
{
    assert(runs::text_prop_s(a.attrs, "rfmt"@) == runs::text_prop_s(b.attrs, "rfmt"@));
}

/// What a suggested insertion leaves: the characters around it as they were, and exactly the new
/// ones under the revision.
proof fn lemma_suggested(d: DocV, idx: int, pos: usize, text: Seq<char>, t: TrackV, e: DocV) -> (mid: Seq<
    CharV,
>)
    requires
        unused_s(d, t.id),
        0 <= idx < read::refs_s(d).len(),
        d.s.texts.contains_key(read::block_s(d, idx)),
        t.kind is Ins,
        revisions::suggested_s(d, read::block_s(d, idx), pos as int, text, t, e),
    ensures
        store::inserted_s(
            doc::text_s(d, read::block_s(d, idx)),
            pos as int,
            text,
            d.s.typed[read::block_s(d, idx)][pos as int],
            mid,
        ),
        doc::text_s(e, read::block_s(d, idx)) == store::marked_s(
            mid,
            pos as int,
            pos + text.len(),
            "ins"@,
            ScalarV::Text(writing::track_value_s(t)),
        ),
        under_s(
            doc::text_s(e, read::block_s(d, idx)),
            pos as int,
            pos + text.len(),
            t.id,
            TrackKind::Ins,
        ),
        !fmt_typed_s(d, read::block_s(d, idx), pos as int, t.id) ==> !revisions::has_fmt_s(
            read::runs_of_s(e, read::block_s(d, idx)),
            t.id,
        ),
{
    let b = read::block_s(d, idx);
    let was = doc::text_s(d, b);
    let now = doc::text_s(e, b);
    let mid = choose|mid: Seq<CharV>| #[trigger]
        writing::laid_s(d, b, pos as int, text, mid) && now == store::marked_s(
            mid,
            pos as int,
            pos + text.len(),
            t.kind.mark_key_s(),
            ScalarV::Text(writing::track_value_s(t)),
        );
    assert(writing::laid_s(d, b, pos as int, text, mid));
    lemma_unused_text(d, idx, t.id);
    lemma_new_under(was, pos as int, text, mid, t, now);
    if !fmt_typed_s(d, b, pos as int, t.id) {
        assert forall|i: int| 0 <= i < was.len() implies !changed_s(#[trigger] was[i], t.id) by {
            reveal(changed_s);
            lemma_unused_char(d, idx, t.id, i);
        }
        let like = store::char_s(' ', d.s.typed[b][pos as int]);
        assert(!changed_s(like, t.id)) by {
            reveal(changed_s);
        }
        lemma_new_without_fmt(was, pos as int, text, like, mid, t, now);
        assert forall|i: int| 0 <= i < now.len() implies !revisions::fmt_is_s(
            runback::read_s(#[trigger] now[i]),
            t.id,
        ) by {
            reveal(changed_s);
            assert(!changed_s(now[i], t.id));
        }
        lemma_no_fmt(e, b, t.id);
    }
    mid
}

proof fn lemma_put_keeps_fmt(c: CharV, t: TrackV, like: CharV)
    requires
        c.attrs == like.attrs,
        t.kind is Ins,
    ensures
        changed_s(put_s(c, t), t.id) == changed_s(like, t.id),
{
    reveal(changed_s);
    lemma_keys();
    lemma_fmt_rests(put_s(c, t), like);
}

/// Whether a character records a format change under `id`.
#[verifier::opaque]
spec fn changed_s(c: CharV, id: u64) -> bool {
    revisions::fmt_is_s(runback::read_s(c), id)
}

spec fn unchanged_s(t: Seq<CharV>, id: u64) -> bool {
    forall|i: int| 0 <= i < t.len() ==> !changed_s(#[trigger] t[i], id)
}

/// Where a text typed at a place takes up no format change under an id, a suggestion there leaves
/// none.
proof fn lemma_new_without_fmt(
    was: Seq<CharV>,
    pos: int,
    text: Seq<char>,
    like: CharV,
    mid: Seq<CharV>,
    t: TrackV,
    now: Seq<CharV>,
)
    requires
        unchanged_s(was, t.id),
        0 <= pos <= was.len(),
        !changed_s(like, t.id),
        t.kind is Ins,
        store::inserted_s(was, pos, text, like.attrs, mid),
        now == store::marked_s(
            mid,
            pos,
            pos + text.len(),
            t.kind.mark_key_s(),
            ScalarV::Text(writing::track_value_s(t)),
        ),
    ensures
        unchanged_s(now, t.id),
{
    let end = pos + text.len();
    lemma_around(was, pos, text, mid);
    assert forall|i: int| 0 <= i < now.len() implies !changed_s(#[trigger] now[i], t.id) by {
        if pos <= i < end {
            assert(mid[pos + (i - pos)].attrs == like.attrs);
            assert(now[i] == put_s(mid[i], t));
            lemma_put_keeps_fmt(mid[i], t, like);
        } else {
            assert(now[i] == mid[i]);
            if i >= end {
                assert(now[i] == was[i - text.len()]);
            }
        }
    }
}

spec fn clean_s(t: Seq<CharV>, id: u64) -> bool {
    forall|i: int| 0 <= i < t.len() ==> !carries_s(#[trigger] t[i], id)
}

proof fn lemma_unused_text(d: DocV, idx: int, id: u64)
    requires
        unused_s(d, id),
        0 <= idx < read::refs_s(d).len(),
        d.s.texts.contains_key(read::block_s(d, idx)),
    ensures
        clean_s(doc::text_s(d, read::block_s(d, idx)), id),
{
    let t = doc::text_s(d, read::block_s(d, idx));
    assert forall|i: int| 0 <= i < t.len() implies !carries_s(#[trigger] t[i], id) by {
        lemma_unused_char(d, idx, id, i);
    }
}

/// The characters around an insertion.
pub(crate) proof fn lemma_around(was: Seq<CharV>, pos: int, text: Seq<char>, mid: Seq<CharV>)
    requires
        0 <= pos <= was.len(),
        store::spliced_s(was, pos, text, mid),
    ensures
        forall|i: int| 0 <= i < pos ==> #[trigger] mid[i] == was[i],
        forall|i: int|
            pos + text.len() <= i < mid.len() ==> #[trigger] mid[i] == was[i - text.len()],
{
    let end = pos + text.len();
    let n = mid.len() as int;
    assert forall|i: int| 0 <= i < pos implies #[trigger] mid[i] == was[i] by {
        assert(mid.subrange(0, pos)[i] == was.subrange(0, pos)[i]);
    }
    assert forall|i: int| end <= i < n implies #[trigger] mid[i] == was[i - text.len()] by {
        assert(mid.subrange(end, n)[i - end] == was.subrange(pos, was.len() as int)[i - end]);
    }
}

proof fn lemma_new_under(was: Seq<CharV>, pos: int, text: Seq<char>, mid: Seq<CharV>, t: TrackV, now: Seq<CharV>)
    requires
        clean_s(was, t.id),
        0 <= pos <= was.len(),
        text.len() > 0,
        t.kind is Ins,
        revisions::track_reads_s(t),
        store::spliced_s(was, pos, text, mid),
        now == store::marked_s(
            mid,
            pos,
            pos + text.len(),
            t.kind.mark_key_s(),
            ScalarV::Text(writing::track_value_s(t)),
        ),
    ensures
        under_s(now, pos, pos + text.len(), t.id, TrackKind::Ins),
{
    let end = pos + text.len();
    lemma_around(was, pos, text, mid);
    assert forall|i: int| pos <= i < end implies mark_s(#[trigger] now[i]) == Some(t) by {
        assert(now[i] == put_s(mid[i], t));
        lemma_inserted_char(mid[i], t);
    }
    assert forall|i: int| 0 <= i < now.len() && !(pos <= i < end) implies !carries_s(
        #[trigger] now[i],
        t.id,
    ) by {
        assert(now[i] == mid[i]);
        if i >= end {
            assert(now[i] == was[i - text.len()]);
        }
    }
}

/// Rejecting a suggested insertion takes it back: the text is what it was before, character by
/// character with its formatting, and nothing else has changed. The id of the suggestion is one
/// that no revision had, nor one that a text typed at that place takes up.
pub proof fn law_rejected_insertion_is_undone(
    d: DocV,
    idx: int,
    pos: usize,
    text: Seq<char>,
    t: TrackV,
    e: DocV,
    states: Seq<DocV>,
)
    requires
        sequence::sound_s(d),
        unused_s(d, t.id),
        0 <= idx < read::refs_s(d).len(),
        d.s.texts.contains_key(read::block_s(d, idx)),
        t.kind is Ins,
        revisions::suggested_s(d, read::block_s(d, idx), pos as int, text, t, e),
        doc::text_s(e, read::block_s(d, idx)).len() <= usize::MAX,
        !fmt_typed_s(d, read::block_s(d, idx), pos as int, t.id),
        revisions::all_resolved_s(states, e, t.id, false, read::refs_s(e).len() as int),
    ensures
        revisions::hit_s(
            read::paragraphs_s(e),
            t.id,
            false,
            read::paragraphs_s(e).len() as int,
        ),
        doc::only_text_s(d, states.last(), read::block_s(d, idx)),
        doc::text_s(states.last(), read::block_s(d, idx)) == doc::text_s(
            d,
            read::block_s(d, idx),
        ),
{
    let b = read::block_s(d, idx);
    let end = (pos + text.len()) as usize;
    let mid = lemma_suggested(d, idx, pos, text, t, e);
    lemma_only_here(d, idx, t.id, e);
    assert(read::block_s(e, idx) == b);
    lemma_settled(e, idx, pos, end, t.id, TrackKind::Ins, false, states);
    writing::lemma_only_text_trans(d, e, states.last(), b);
    lemma_cut_back(doc::text_s(d, b), pos as int, text, mid, doc::text_s(e, b), t);
}

proof fn lemma_cut_back(was: Seq<CharV>, pos: int, text: Seq<char>, mid: Seq<CharV>, now: Seq<CharV>, t: TrackV)
    requires
        0 <= pos <= was.len(),
        text.len() > 0,
        store::spliced_s(was, pos, text, mid),
        now == store::marked_s(
            mid,
            pos,
            pos + text.len(),
            "ins"@,
            ScalarV::Text(writing::track_value_s(t)),
        ),
    ensures
        doc::cut_s(now, pos, text.len() as int) == was,
{
    let end = pos + text.len();
    assert(now.subrange(0, pos) =~= mid.subrange(0, pos));
    assert(now.subrange(end, now.len() as int) =~= mid.subrange(end, mid.len() as int));
    assert(was.subrange(0, pos) + was.subrange(pos, was.len() as int) =~= was);
}

/// Accepting a suggested insertion keeps it: the new text stands where it was suggested, under
/// no insertion any more, and the characters around it are as they were.
pub proof fn law_accepted_insertion_stays(
    d: DocV,
    idx: int,
    pos: usize,
    text: Seq<char>,
    t: TrackV,
    e: DocV,
    states: Seq<DocV>,
)
    requires
        sequence::sound_s(d),
        unused_s(d, t.id),
        0 <= idx < read::refs_s(d).len(),
        d.s.texts.contains_key(read::block_s(d, idx)),
        t.kind is Ins,
        revisions::suggested_s(d, read::block_s(d, idx), pos as int, text, t, e),
        doc::text_s(e, read::block_s(d, idx)).len() <= usize::MAX,
        !fmt_typed_s(d, read::block_s(d, idx), pos as int, t.id),
        revisions::all_resolved_s(states, e, t.id, true, read::refs_s(e).len() as int),
    ensures
        doc::only_text_s(d, states.last(), read::block_s(d, idx)),
        store::inserted_s(
            doc::text_s(d, read::block_s(d, idx)),
            pos as int,
            text,
            d.s.typed[read::block_s(d, idx)][pos as int].remove("ins"@),
            doc::text_s(states.last(), read::block_s(d, idx)),
        ),
        forall|i: int|
            pos <= i < pos + text.len() ==> !(#[trigger] doc::text_s(
                states.last(),
                read::block_s(d, idx),
            )[i]).attrs.contains_key("ins"@),
{
    let b = read::block_s(d, idx);
    let end = (pos + text.len()) as usize;
    let mid = lemma_suggested(d, idx, pos, text, t, e);
    lemma_only_here(d, idx, t.id, e);
    assert(read::block_s(e, idx) == b);
    lemma_settled(e, idx, pos, end, t.id, TrackKind::Ins, true, states);
    writing::lemma_only_text_trans(d, e, states.last(), b);
    let now = doc::text_s(e, b);
    let f = doc::text_s(states.last(), b);
    assert(f == store::unmarked_s(now, pos as int, end as int, "ins"@));
    assert(f.subrange(0, pos as int) =~= mid.subrange(0, pos as int));
    assert(f.subrange(end as int, f.len() as int) =~= mid.subrange(end as int, mid.len() as int));
    let attrs = d.s.typed[b][pos as int];
    assert forall|i: int| 0 <= i < text.len() implies (#[trigger] f[pos + i]).c == text[i]
        && f[pos + i].attrs == attrs.remove("ins"@) by {
        assert(mid[pos + i].c == text[i] && mid[pos + i].attrs == attrs);
        assert(f[pos + i].attrs =~= attrs.remove("ins"@));
    }
}

// ---------------------------------------------------------------- suggested deletions

/// Whether no character of `from..to` is under an insertion or a deletion.
pub open spec fn free_s(t: Seq<CharV>, from: int, to: int) -> bool {
    forall|i: int|
        from <= i < to ==> !(#[trigger] t[i]).attrs.contains_key("ins"@) && !t[i].attrs.contains_key(
            "del"@,
        )
}

proof fn lemma_deletion(d: DocV, idx: int, from: usize, to: usize, t: TrackV, e: DocV)
    requires
        unused_s(d, t.id),
        0 <= idx < read::refs_s(d).len(),
        d.s.texts.contains_key(read::block_s(d, idx)),
        t.kind is Del,
        free_s(doc::text_s(d, read::block_s(d, idx)), from as int, to as int),
        revisions::tracked_s(d, read::block_s(d, idx), from as int, to as int, t, e),
    ensures
        under_s(
            doc::text_s(e, read::block_s(d, idx)),
            from as int,
            to as int,
            t.id,
            TrackKind::Del,
        ),
        !revisions::has_fmt_s(read::runs_of_s(e, read::block_s(d, idx)), t.id),
{
    let b = read::block_s(d, idx);
    let was = doc::text_s(d, b);
    let now = doc::text_s(e, b);
    assert forall|i: int| 0 <= i < now.len() implies (carries_s(#[trigger] now[i], t.id) <==> from <= i
        < to) && (from <= i < to ==> mark_s(now[i])->0.kind is Del) && !revisions::fmt_is_s(
        runback::read_s(now[i]),
        t.id,
    ) by {
        lemma_unused_char(d, idx, t.id, i);
        if from <= i < to {
            assert(now[i] == put_s(was[i], t));
            lemma_deleted_char(was[i], t);
        } else {
            assert(now[i] == was[i]);
        }
    }
    lemma_no_fmt(e, b, t.id);
}

/// Rejecting a suggested deletion of text that no insertion or deletion covers drops it: the
/// text is what it was before, and nothing else has changed.
pub proof fn law_rejected_deletion_is_undone(
    d: DocV,
    idx: int,
    from: usize,
    to: usize,
    t: TrackV,
    e: DocV,
    states: Seq<DocV>,
)
    requires
        sequence::sound_s(d),
        unused_s(d, t.id),
        0 <= idx < read::refs_s(d).len(),
        d.s.texts.contains_key(read::block_s(d, idx)),
        doc::text_s(d, read::block_s(d, idx)).len() <= usize::MAX,
        t.kind is Del,
        free_s(doc::text_s(d, read::block_s(d, idx)), from as int, to as int),
        revisions::tracked_s(d, read::block_s(d, idx), from as int, to as int, t, e),
        revisions::all_resolved_s(states, e, t.id, false, read::refs_s(e).len() as int),
    ensures
        revisions::hit_s(
            read::paragraphs_s(e),
            t.id,
            false,
            read::paragraphs_s(e).len() as int,
        ),
        doc::only_text_s(d, states.last(), read::block_s(d, idx)),
        doc::text_s(states.last(), read::block_s(d, idx)) == doc::text_s(
            d,
            read::block_s(d, idx),
        ),
{
    let b = read::block_s(d, idx);
    lemma_deletion(d, idx, from, to, t, e);
    lemma_only_here(d, idx, t.id, e);
    assert(read::block_s(e, idx) == b);
    lemma_settled(e, idx, from, to, t.id, TrackKind::Del, false, states);
    writing::lemma_only_text_trans(d, e, states.last(), b);
    lemma_cleared(doc::text_s(d, b), from as int, to as int, ScalarV::Text(writing::track_value_s(t)));
}

proof fn lemma_cleared(was: Seq<CharV>, from: int, to: int, v: ScalarV)
    requires
        free_s(was, from, to),
    ensures
        store::unmarked_s(store::marked_s(was, from, to, "del"@, v), from, to, "del"@) == was,
{
    let now = store::unmarked_s(store::marked_s(was, from, to, "del"@, v), from, to, "del"@);
    assert forall|i: int| 0 <= i < was.len() implies #[trigger] now[i] == was[i] by {
        if from <= i < to {
            assert(was[i].attrs.insert("del"@, v).remove("del"@) =~= was[i].attrs);
        }
    }
    assert(now =~= was);
}

/// Accepting a suggested deletion of text that no insertion or deletion covers carries it out:
/// that text goes, and the characters around it are as they were.
pub proof fn law_accepted_deletion_is_carried_out(
    d: DocV,
    idx: int,
    from: usize,
    to: usize,
    t: TrackV,
    e: DocV,
    states: Seq<DocV>,
)
    requires
        sequence::sound_s(d),
        unused_s(d, t.id),
        0 <= idx < read::refs_s(d).len(),
        d.s.texts.contains_key(read::block_s(d, idx)),
        doc::text_s(d, read::block_s(d, idx)).len() <= usize::MAX,
        t.kind is Del,
        free_s(doc::text_s(d, read::block_s(d, idx)), from as int, to as int),
        revisions::tracked_s(d, read::block_s(d, idx), from as int, to as int, t, e),
        revisions::all_resolved_s(states, e, t.id, true, read::refs_s(e).len() as int),
    ensures
        doc::only_text_s(d, states.last(), read::block_s(d, idx)),
        doc::text_s(states.last(), read::block_s(d, idx)) == doc::cut_s(
            doc::text_s(d, read::block_s(d, idx)),
            from as int,
            to - from,
        ),
{
    let b = read::block_s(d, idx);
    lemma_deletion(d, idx, from, to, t, e);
    lemma_only_here(d, idx, t.id, e);
    assert(read::block_s(e, idx) == b);
    lemma_settled(e, idx, from, to, t.id, TrackKind::Del, true, states);
    writing::lemma_only_text_trans(d, e, states.last(), b);
    let was = doc::text_s(d, b);
    let now = doc::text_s(e, b);
    assert(now.subrange(0, from as int) =~= was.subrange(0, from as int));
    assert(now.subrange(to as int, now.len() as int) =~= was.subrange(to as int, was.len() as int));
}

} // verus!
