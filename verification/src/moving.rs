//! Resolving a suggested move keeps one of its halves.

use vstd::prelude::*;
use crate::doc;
use crate::doc::DocV;
use crate::edits;
use crate::edits::TextOpV;
use crate::import;
use crate::read;
use crate::resolving;
use crate::reverting;
use crate::revisions;
use crate::runback;
use crate::runs;
use crate::sequence;
use crate::store;
use crate::store::{BlockId, CharV, ScalarV};
use crate::types::{ParagraphV, RunV, TrackKind, TrackV};
use crate::writing;

verus! {

// ---------------------------------------------------------------- the moved runs

/// Whether a run carries a revision and nothing else but formatting.
spec fn bare_s(r: RunV, t: TrackV) -> bool {
    &&& r.track == Some(t)
    &&& r.fmt_change is None
    &&& r.comments == Seq::<u64>::empty()
    &&& r.image is None
    &&& r.text.len() > 0
}

spec fn all_bare_s(v: Seq<RunV>, t: TrackV) -> bool {
    forall|i: int| 0 <= i < v.len() ==> bare_s(#[trigger] v[i], t)
}

/// The runs of a range that starts in a text are some, each with text.
proof fn lemma_slice(v: Seq<RunV>, start: usize, end: usize, n: nat)
    requires
        n <= v.len(),
        import::runs_len_s(v, n) <= usize::MAX,
        start < end,
    ensures
        start < import::runs_len_s(v, n) ==> revisions::slice_s(v, start, end, n).len() > 0,
        forall|i: int|
            0 <= i < revisions::slice_s(v, start, end, n).len() ==> plain_s(
                #[trigger] revisions::slice_s(v, start, end, n)[i],
            ),
    decreases n,
{
    if n > 0 {
        lemma_slice(v, start, end, (n - 1) as nat);
        let at = edits::offset_s(v, (n - 1) as nat);
        let from = revisions::max_s(at, start);
        let to = revisions::min_s(edits::offset_s(v, n), end);
        let had = revisions::slice_s(v, start, end, (n - 1) as nat);
        let now = revisions::slice_s(v, start, end, n);
        if from < to {
            let text = v[n - 1].text.subrange(from - at, to - at);
            assert(text.len() == to - from);
            assert(plain_s(revisions::clean_run_s(v[n - 1], text)));
        }
        assert forall|i: int| 0 <= i < now.len() implies plain_s(#[trigger] now[i]) by {
            if i < had.len() {
                assert(now[i] == had[i]);
            }
        }
    }
}

spec fn plain_s(r: RunV) -> bool {
    r.fmt_change is None && r.comments == Seq::<u64>::empty() && r.image is None && r.text.len() > 0
}

proof fn lemma_tagged(v: Seq<RunV>, start: usize, end: usize, t: TrackV)
    requires
        import::runs_len_s(v, v.len()) <= usize::MAX,
        start < end,
        start < import::runs_len_s(v, v.len()),
    ensures
        ({
            let w = revisions::tagged_s(revisions::slice_s(v, start, end, v.len()), t);
            w.len() > 0 && all_bare_s(w, t) && writing::run_text_s(w).len() > 0
        }),
{
    lemma_slice(v, start, end, v.len());
    let s = revisions::slice_s(v, start, end, v.len());
    let w = revisions::tagged_s(s, t);
    assert forall|i: int| 0 <= i < w.len() implies bare_s(#[trigger] w[i], t) by {
        assert(plain_s(s[i]));
    }
    let n = w.len();
    assert(bare_s(w[n - 1], t));
    assert(writing::joined_s(w, n) == writing::joined_s(w, (n - 1) as nat) + w[n - 1].text);
}

proof fn lemma_bare_marks(r: RunV, t: TrackV)
    requires
        bare_s(r, t),
    ensures
        writing::run_marks_s(r) == writing::format_marks_s(r).push(
            (t.kind.mark_key_s(), ScalarV::Text(writing::track_value_s(t))),
        ),
{
}

/// Whether two characters agree on the revisions that a move to their place does not set.
spec fn kept_s(a: store::PropsV, b: store::PropsV) -> bool {
    &&& store::prop_s(a, "ins"@) == store::prop_s(b, "ins"@)
    &&& store::prop_s(a, "del"@) == store::prop_s(b, "del"@)
    &&& store::prop_s(a, "mvf"@) == store::prop_s(b, "mvf"@)
    &&& store::prop_s(a, "rfmt"@) == store::prop_s(b, "rfmt"@)
}

proof fn lemma_kept(m: store::PropsV, r: RunV, t: TrackV)
    requires
        bare_s(r, t),
        t.kind is MoveTo,
    ensures
        kept_s(m, runback::with_marks_s(m, writing::run_marks_s(r), writing::run_marks_s(r).len())),
{
    lemma_bare_marks(r, t);
    lemma_keys();
    runback::lemma_format_keys(r);
    let marks = writing::run_marks_s(r);
    let f = writing::format_marks_s(r);
    assert forall|i: int| 0 <= i < marks.len() implies (#[trigger] marks[i]).0 != "ins"@ && marks[i].0
        != "del"@ && marks[i].0 != "mvf"@ && marks[i].0 != "rfmt"@ by {
        if i < f.len() {
            assert(marks[i] == f[i]);
        }
    }
    runback::lemma_marks_leave(m, marks, marks.len(), "ins"@);
    runback::lemma_marks_leave(m, marks, marks.len(), "del"@);
    runback::lemma_marks_leave(m, marks, marks.len(), "mvf"@);
    runback::lemma_marks_leave(m, marks, marks.len(), "rfmt"@);
}

/// Each character of the first `n` runs carries their revision; those around are as they were.
proof fn lemma_dressed(x: Seq<CharV>, start: int, v: Seq<RunV>, t: TrackV, n: nat)
    requires
        all_bare_s(v, t),
        n <= v.len(),
        0 <= start,
        start + writing::joined_s(v, n).len() <= x.len(),
    ensures
        ({
            let y = writing::dressed_s(x, start, v, n);
            let end = start + writing::joined_s(v, n).len();
            &&& y.len() == x.len()
            &&& forall|i: int| 0 <= i < x.len() ==> (#[trigger] y[i]).c == x[i].c
            &&& forall|i: int| 0 <= i < x.len() && !(start <= i < end) ==> #[trigger] y[i] == x[i]
            &&& forall|i: int|
                start <= i < end ==> store::prop_s((#[trigger] y[i]).attrs, t.kind.mark_key_s())
                    == Some(ScalarV::Text(writing::track_value_s(t)))
            &&& t.kind is MoveTo ==> forall|i: int|
                0 <= i < x.len() ==> kept_s(x[i].attrs, (#[trigger] y[i]).attrs)
        }),
    decreases n,
{
    if n > 0 {
        lemma_dressed(x, start, v, t, (n - 1) as nat);
        let r = v[n - 1];
        assert(bare_s(r, t));
        lemma_bare_marks(r, t);
        let y = writing::dressed_s(x, start, v, (n - 1) as nat);
        let from = start + writing::joined_s(v, (n - 1) as nat).len();
        let to = from + r.text.len();
        let marks = writing::run_marks_s(r);
        runback::lemma_marked(y, from, to, marks, marks.len());
        assert(marks.last() == (t.kind.mark_key_s(), ScalarV::Text(writing::track_value_s(t))));
        if t.kind is MoveTo {
            let z = writing::dressed_s(x, start, v, n);
            assert forall|i: int| 0 <= i < x.len() implies kept_s(x[i].attrs, (#[trigger] z[i]).attrs) by {
                assert(kept_s(x[i].attrs, y[i].attrs));
                if from <= i < to {
                    lemma_kept(y[i].attrs, r, t);
                }
            }
        }
        assert(writing::joined_s(v, n).len() == writing::joined_s(v, (n - 1) as nat).len()
            + r.text.len());
    }
}

// ---------------------------------------------------------------- the marks of a move

/// Whether no character of `from..to` is inserted, deleted or moved away.
pub open spec fn open_s(t: Seq<CharV>, from: int, to: int) -> bool {
    forall|i: int| from <= i < to ==> open_at_s(#[trigger] t[i])
}

pub open spec fn open_at_s(c: CharV) -> bool {
    !c.attrs.contains_key("ins"@) && !c.attrs.contains_key("del"@) && !c.attrs.contains_key("mvf"@)
}

proof fn lemma_keys()
    ensures
        "ins"@ != "mvf"@,
        "del"@ != "mvf"@,
        "ins"@ != "mvt"@,
        "del"@ != "mvt"@,
        "mvf"@ != "mvt"@,
        "mvf"@ != "rfmt"@,
        "mvt"@ != "rfmt"@,
{
    reveal_strlit("ins");
    reveal_strlit("del");
    reveal_strlit("mvf");
    reveal_strlit("mvt");
    reveal_strlit("rfmt");
    assert("ins"@.len() == 3 && "del"@.len() == 3 && "mvf"@.len() == 3 && "mvt"@.len() == 3);
    assert("rfmt"@.len() == 4);
    assert("ins"@[0] == 'i' && "del"@[0] == 'd' && "mvf"@[0] == 'm' && "mvt"@[0] == 'm');
    assert("mvf"@[2] == 'f' && "mvt"@[2] == 't');
}

proof fn lemma_source_char(c: CharV, t: TrackV)
    requires
        t.kind is MoveFrom,
        revisions::track_reads_s(t),
        !c.attrs.contains_key("ins"@),
        !c.attrs.contains_key("del"@),
    ensures
        resolving::mark_s(resolving::put_s(c, t)) == Some(t),
        runback::read_s(resolving::put_s(c, t)).fmt_change == runback::read_s(c).fmt_change,
{
    lemma_keys();
    let a = resolving::put_s(c, t).attrs;
    assert(runs::text_prop_s(a, "ins"@) is None);
    assert(runs::text_prop_s(a, "del"@) is None);
    assert(runs::text_prop_s(a, "mvf"@) == Some(writing::track_value_s(t)));
    assert(runs::text_prop_s(a, "rfmt"@) == runs::text_prop_s(c.attrs, "rfmt"@));
}

proof fn lemma_target_char(c: CharV, t: TrackV)
    requires
        t.kind is MoveTo,
        revisions::track_reads_s(t),
        store::prop_s(c.attrs, "mvt"@) == Some(ScalarV::Text(writing::track_value_s(t))),
        !c.attrs.contains_key("ins"@),
        !c.attrs.contains_key("del"@),
        !c.attrs.contains_key("mvf"@),
    ensures
        resolving::mark_s(c) == Some(t),
{
    assert(runs::text_prop_s(c.attrs, "ins"@) is None);
    assert(runs::text_prop_s(c.attrs, "del"@) is None);
    assert(runs::text_prop_s(c.attrs, "mvf"@) is None);
}

// ---------------------------------------------------------------- two edits

/// Where two paragraphs have the revision, and one edit resolves each, those edits are all that
/// happens.
proof fn lemma_double(
    states: Seq<DocV>,
    blocks: Seq<BlockId>,
    v: Seq<ParagraphV>,
    id: u64,
    accept: bool,
    p: int,
    a: TextOpV,
    q: int,
    b: TextOpV,
)
    requires
        resolving::steps_s(states, blocks, v, id, accept),
        0 <= p < q < v.len(),
        blocks[p] != blocks[q],
        forall|i: int|
            0 <= i < v.len() && i != p && i != q ==> !revisions::para_uses_s(#[trigger] v[i], id),
        !revisions::prop_hit_s(v[p], id),
        !revisions::prop_hit_s(v[q], id),
        revisions::text_ops_s(v[p], id, accept) == seq![a],
        revisions::text_ops_s(v[q], id, accept) == seq![b],
    ensures
        exists|mid: DocV| #[trigger]
            between_s(states[0], blocks[p], a, mid, blocks[q], b, states[v.len() as int]),
{
    let n = v.len() as int;
    resolving::lemma_quiet(states, blocks, v, id, accept, 0, p);
    resolving::lemma_one_step(states, blocks, v, id, accept, p);
    resolving::lemma_edit(states[p], blocks[p], v[p], id, accept, a, states[p + 1]);
    resolving::lemma_quiet(states, blocks, v, id, accept, p + 1, q);
    resolving::lemma_one_step(states, blocks, v, id, accept, q);
    resolving::lemma_edit(states[q], blocks[q], v[q], id, accept, b, states[q + 1]);
    resolving::lemma_quiet(states, blocks, v, id, accept, q + 1, n);
    assert(between_s(states[0], blocks[p], a, states[q], blocks[q], b, states[n]));
}

/// Whether an edit of the text of one block and then one of another lead from `d` to `f`.
spec fn between_s(
    d: DocV,
    x: BlockId,
    a: TextOpV,
    mid: DocV,
    y: BlockId,
    b: TextOpV,
    f: DocV,
) -> bool {
    &&& doc::only_text_s(d, mid, x)
    &&& doc::text_s(mid, x) == edits::op_s(doc::text_s(d, x), a)
    &&& doc::only_text_s(mid, f, y)
    &&& doc::text_s(f, y) == edits::op_s(doc::text_s(mid, y), b)
}

/// Whether only the texts of two blocks differ.
pub open spec fn only_two_s(d: DocV, f: DocV, x: BlockId, y: BlockId) -> bool {
    &&& f.s.roots == d.s.roots
    &&& f.tables == d.tables
    &&& f.s.metas == d.s.metas
    &&& f.s.maps == d.s.maps
    &&& f.s.nested == d.s.nested
    &&& f.s.texts.dom() == d.s.texts.dom()
    &&& forall|z: BlockId| z != x && z != y ==> #[trigger] f.s.texts[z] == d.s.texts[z]
}

proof fn lemma_between(d: DocV, x: BlockId, a: TextOpV, mid: DocV, y: BlockId, b: TextOpV, f: DocV)
    requires
        x != y,
        between_s(d, x, a, mid, y, b, f),
        d.s.texts.contains_key(x),
        d.s.texts.contains_key(y),
    ensures
        only_two_s(d, f, x, y),
        doc::text_s(f, x) == edits::op_s(doc::text_s(d, x), a),
        doc::text_s(f, y) == edits::op_s(doc::text_s(d, y), b),
{
    assert(mid.s.texts[y] == d.s.texts[y]);
    assert(f.s.texts[x] == mid.s.texts[x]);
    assert(f.s.texts.dom() =~= d.s.texts.dom());
    assert forall|z: BlockId| z != x && z != y implies #[trigger] f.s.texts[z] == d.s.texts[z] by {
        assert(f.s.texts[z] == mid.s.texts[z]);
        assert(mid.s.texts[z] == d.s.texts[z]);
    }
}

proof fn lemma_two(d: DocV, mid: DocV, f: DocV, x: BlockId, y: BlockId)
    requires
        x != y,
        d.s.texts.contains_key(x),
        d.s.texts.contains_key(y),
        doc::only_text_s(d, mid, x),
        doc::only_text_s(mid, f, y),
    ensures
        only_two_s(d, f, x, y),
        f.s.texts[x] == mid.s.texts[x],
        mid.s.texts[y] == d.s.texts[y],
{
    assert(f.s.texts.dom() =~= d.s.texts.dom());
    assert forall|z: BlockId| z != x && z != y implies #[trigger] f.s.texts[z] == d.s.texts[z] by {
        assert(f.s.texts[z] == mid.s.texts[z]);
        assert(mid.s.texts[z] == d.s.texts[z]);
    }
}

// ---------------------------------------------------------------- the two halves

/// The text that a move brings to its new place.
pub open spec fn moved_text_s(d: DocV, from: BlockId, start: usize, end: usize) -> Seq<char> {
    let v = read::runs_of_s(d, from);
    writing::run_text_s(revisions::slice_s(v, start, end, v.len()))
}

proof fn lemma_tagged_text(v: Seq<RunV>, t: TrackV, n: nat)
    requires
        n <= v.len(),
    ensures
        writing::joined_s(revisions::tagged_s(v, t), n) == writing::joined_s(v, n),
    decreases n,
{
    if n > 0 {
        lemma_tagged_text(v, t, (n - 1) as nat);
    }
}

/// The old half: exactly the range carries the move.
proof fn lemma_source(was: Seq<CharV>, from: int, to: int, t: TrackV, id: u64)
    requires
        0 <= from < to <= was.len(),
        t.kind is MoveFrom,
        t.id == id,
        revisions::track_reads_s(t),
        open_s(was, from, to),
        forall|i: int|
            0 <= i < was.len() ==> !resolving::carries_s(#[trigger] was[i], id)
                && !revisions::fmt_is_s(runback::read_s(was[i]), id),
    ensures
        ({
            let now = store::marked_s(
                was,
                from,
                to,
                "mvf"@,
                ScalarV::Text(writing::track_value_s(t)),
            );
            &&& resolving::under_s(now, from, to, id, TrackKind::MoveFrom)
            &&& forall|i: int|
                0 <= i < now.len() ==> !revisions::fmt_is_s(
                    runback::read_s(#[trigger] now[i]),
                    id,
                )
        }),
{
    let now = store::marked_s(was, from, to, "mvf"@, ScalarV::Text(writing::track_value_s(t)));
    assert forall|i: int| 0 <= i < now.len() implies (resolving::carries_s(#[trigger] now[i], id)
        <==> from <= i < to) && (from <= i < to ==> resolving::mark_s(now[i])->0.kind is MoveFrom)
        && !revisions::fmt_is_s(runback::read_s(now[i]), id) by {
        assert(!resolving::carries_s(was[i], id));
        if from <= i < to {
            assert(open_at_s(was[i]));
            assert(now[i] == resolving::put_s(was[i], t));
            lemma_source_char(was[i], t);
        } else {
            assert(now[i] == was[i]);
        }
    }
}

/// The new half: exactly what was written carries the move.
proof fn lemma_target(
    was: Seq<CharV>,
    pos: int,
    v: Seq<RunV>,
    t: TrackV,
    attrs: store::PropsV,
    laid: Seq<CharV>,
    now: Seq<CharV>,
    id: u64,
)
    requires
        0 <= pos <= was.len(),
        t.kind is MoveTo,
        t.id == id,
        revisions::track_reads_s(t),
        all_bare_s(v, t),
        writing::run_text_s(v).len() > 0,
        store::inserted_s(was, pos, writing::run_text_s(v), attrs, laid),
        open_at_s(store::char_s(' ', attrs)),
        !revisions::fmt_is_s(runback::read_s(store::char_s(' ', attrs)), id),
        now == writing::dressed_s(laid, pos, v, v.len()),
        forall|i: int|
            0 <= i < was.len() ==> !resolving::carries_s(#[trigger] was[i], id)
                && !revisions::fmt_is_s(runback::read_s(was[i]), id),
    ensures
        resolving::under_s(
            now,
            pos,
            pos + writing::run_text_s(v).len(),
            id,
            TrackKind::MoveTo,
        ),
        forall|i: int|
            0 <= i < now.len() ==> !revisions::fmt_is_s(runback::read_s(#[trigger] now[i]), id),
{
    let n = writing::run_text_s(v).len();
    let end = pos + n;
    lemma_dressed(laid, pos, v, t, v.len());
    resolving::lemma_around(was, pos, writing::run_text_s(v), laid);
    assert forall|i: int| 0 <= i < now.len() implies (resolving::carries_s(#[trigger] now[i], id)
        <==> pos <= i < end) && (pos <= i < end ==> resolving::mark_s(now[i])->0.kind is MoveTo)
        && !revisions::fmt_is_s(runback::read_s(now[i]), id) by {
        if pos <= i < end {
            assert(kept_s(laid[i].attrs, now[i].attrs));
            assert(laid[pos + (i - pos)].attrs == attrs);
            assert(store::prop_s(attrs, "ins"@) is None && store::prop_s(attrs, "del"@) is None
                && store::prop_s(attrs, "mvf"@) is None);
            lemma_target_char(now[i], t);
            resolving::lemma_fmt_rests(now[i], store::char_s(' ', attrs));
        } else {
            assert(now[i] == laid[i]);
            if i < pos {
                assert(laid[i] == was[i]);
            } else {
                assert(laid[i] == was[i - n]);
            }
        }
    }
}

/// What resolving a move does to the two texts.
spec fn settled_s(
    e: DocV,
    from: BlockId,
    start: usize,
    end: usize,
    to: BlockId,
    pos: usize,
    till: usize,
    accept: bool,
    f: DocV,
) -> bool {
    &&& only_two_s(e, f, from, to)
    &&& doc::text_s(f, from) == edits::op_s(
        doc::text_s(e, from),
        resolving::settling_s(TrackKind::MoveFrom, accept, start, end),
    )
    &&& doc::text_s(f, to) == edits::op_s(
        doc::text_s(e, to),
        resolving::settling_s(TrackKind::MoveTo, accept, pos, till),
    )
}

proof fn lemma_settled(
    e: DocV,
    p: int,
    start: usize,
    end: usize,
    q: int,
    pos: usize,
    till: usize,
    id: u64,
    accept: bool,
    states: Seq<DocV>,
)
    requires
        0 <= p < read::refs_s(e).len(),
        0 <= q < read::refs_s(e).len(),
        p != q,
        read::block_s(e, p) != read::block_s(e, q),
        e.s.texts.contains_key(read::block_s(e, p)),
        e.s.texts.contains_key(read::block_s(e, q)),
        doc::text_s(e, read::block_s(e, p)).len() <= usize::MAX,
        doc::text_s(e, read::block_s(e, q)).len() <= usize::MAX,
        resolving::under_s(
            doc::text_s(e, read::block_s(e, p)),
            start as int,
            end as int,
            id,
            TrackKind::MoveFrom,
        ),
        resolving::under_s(
            doc::text_s(e, read::block_s(e, q)),
            pos as int,
            till as int,
            id,
            TrackKind::MoveTo,
        ),
        !revisions::has_fmt_s(read::runs_of_s(e, read::block_s(e, p)), id),
        !revisions::has_fmt_s(read::runs_of_s(e, read::block_s(e, q)), id),
        !revisions::prop_hit_s(read::paragraphs_s(e)[p], id),
        !revisions::prop_hit_s(read::paragraphs_s(e)[q], id),
        forall|i: int|
            0 <= i < read::refs_s(e).len() && i != p && i != q ==> !revisions::para_uses_s(
                #[trigger] read::paragraphs_s(e)[i],
                id,
            ),
        revisions::all_resolved_s(states, e, id, accept, read::refs_s(e).len() as int),
    ensures
        revisions::hit_s(
            read::paragraphs_s(e),
            id,
            accept,
            read::paragraphs_s(e).len() as int,
        ),
        settled_s(
            e,
            read::block_s(e, p),
            start,
            end,
            read::block_s(e, q),
            pos,
            till,
            accept,
            states.last(),
        ),
{
    let x = read::block_s(e, p);
    let y = read::block_s(e, q);
    let v = read::paragraphs_s(e);
    let blocks = resolving::blocks_s(e);
    let a = resolving::settling_s(TrackKind::MoveFrom, accept, start, end);
    let b = resolving::settling_s(TrackKind::MoveTo, accept, pos, till);
    resolving::lemma_ops(e, x, start, end, id, TrackKind::MoveFrom, accept);
    resolving::lemma_ops(e, y, pos, till, id, TrackKind::MoveTo, accept);
    resolving::lemma_steps(states, e, id, accept);
    assert(v[p] == read::paragraph_s(e, x));
    assert(v[q] == read::paragraph_s(e, y));
    assert(blocks[p] == x);
    assert(blocks[q] == y);
    assert(revisions::touched_s(v[p], id, accept));
    let f = states.last();
    if p < q {
        lemma_double(states, blocks, v, id, accept, p, a, q, b);
        let mid = choose|mid: DocV| #[trigger] between_s(e, x, a, mid, y, b, f);
        lemma_between(e, x, a, mid, y, b, f);
    } else {
        lemma_double(states, blocks, v, id, accept, q, b, p, a);
        let mid = choose|mid: DocV| #[trigger] between_s(e, y, b, mid, x, a, f);
        lemma_between(e, y, b, mid, x, a, f);
    }
}

// ---------------------------------------------------------------- the laws

/// Whether `e` is `d` with a suggested move between two paragraphs, under an id that no revision
/// had, of text that is not inserted, deleted or moved away; a text typed at the new place takes
/// up no such mark, and no format change under the id, from the marks around it.
pub open spec fn moved_s(
    d: DocV,
    p: int,
    start: usize,
    end: usize,
    q: int,
    pos: usize,
    author: Seq<char>,
    date: Seq<char>,
    id: u64,
    mid: DocV,
    e: DocV,
) -> bool {
    let from = read::block_s(d, p);
    let to = read::block_s(d, q);
    &&& sequence::sound_s(d)
    &&& resolving::unused_s(d, id)
    &&& 0 <= p < read::refs_s(d).len()
    &&& 0 <= q < read::refs_s(d).len()
    &&& p != q
    &&& d.s.texts.contains_key(from)
    &&& d.s.texts.contains_key(to)
    &&& revisions::move_done_s(
        d,
        from,
        start,
        end,
        read::runs_of_s(d, from),
        to,
        pos,
        author,
        date,
        id,
        mid,
        e,
    )
    &&& doc::text_s(d, from).len() <= usize::MAX
    &&& doc::text_s(e, to).len() <= usize::MAX
    &&& open_s(doc::text_s(d, from), start as int, end as int)
    &&& open_at_s(store::char_s(' ', d.s.typed[to][pos as int]))
    &&& !resolving::fmt_typed_s(d, to, pos as int, id)
}

/// The runs that a move writes.
spec fn written_s(d: DocV, from: BlockId, start: usize, end: usize, t: TrackV) -> Seq<RunV> {
    let v = read::runs_of_s(d, from);
    revisions::tagged_s(revisions::slice_s(v, start, end, v.len()), t)
}

proof fn lemma_written(
    d: DocV,
    p: int,
    start: usize,
    end: usize,
    q: int,
    pos: usize,
    author: Seq<char>,
    date: Seq<char>,
    id: u64,
    mid: DocV,
    e: DocV,
)
    requires
        moved_s(d, p, start, end, q, pos, author, date, id, mid, e),
    ensures
        ({
            let from = read::block_s(d, p);
            let t = revisions::half_s(TrackKind::MoveTo, author, date, id);
            let w = written_s(d, from, start, end, t);
            &&& all_bare_s(w, t)
            &&& writing::run_text_s(w) == moved_text_s(d, from, start, end)
            &&& writing::run_text_s(w).len() > 0
            &&& revisions::track_reads_s(t)
        }),
{
    let from = read::block_s(d, p);
    let t = revisions::half_s(TrackKind::MoveTo, author, date, id);
    let v = read::runs_of_s(d, from);
    let w = written_s(d, from, start, end, t);
    let segs = d.s.texts[from];
    reverting::lemma_runs_len(segs, segs.len());
    lemma_tagged(v, start, end, t);
    let cut = revisions::slice_s(v, start, end, v.len());
    lemma_tagged_text(cut, t, cut.len());
    assert(writing::run_reads_s(w[0])) by {
        reveal(writing::runs_read_s);
        assert(bare_s(w[0], t));
        assert(writing::runs_read_s(w, w.len()));
    }
    assert(bare_s(w[0], t));
}

/// The texts after a suggested move.
proof fn lemma_halves(
    d: DocV,
    p: int,
    start: usize,
    end: usize,
    q: int,
    pos: usize,
    author: Seq<char>,
    date: Seq<char>,
    id: u64,
    mid: DocV,
    e: DocV,
) -> (laid: Seq<CharV>)
    requires
        moved_s(d, p, start, end, q, pos, author, date, id, mid, e),
    ensures
        ({
            let from = read::block_s(d, p);
            let to = read::block_s(d, q);
            let a = revisions::half_s(TrackKind::MoveFrom, author, date, id);
            let b = revisions::half_s(TrackKind::MoveTo, author, date, id);
            let w = written_s(d, from, start, end, b);
            &&& from != to
            &&& read::refs_s(e) == read::refs_s(d)
            &&& only_two_s(d, e, from, to)
            &&& 0 <= start < end <= doc::text_s(d, from).len()
            &&& pos <= doc::text_s(d, to).len()
            &&& revisions::track_reads_s(a)
            &&& doc::text_s(e, from) == store::marked_s(
                doc::text_s(d, from),
                start as int,
                end as int,
                "mvf"@,
                ScalarV::Text(writing::track_value_s(a)),
            )
            &&& store::inserted_s(
                doc::text_s(d, to),
                pos as int,
                writing::run_text_s(w),
                d.s.typed[to][pos as int],
                laid,
            )
            &&& doc::text_s(e, to) == writing::dressed_s(laid, pos as int, w, w.len())
        }),
{
    let from = read::block_s(d, p);
    let to = read::block_s(d, q);
    let b = revisions::half_s(TrackKind::MoveTo, author, date, id);
    let w = written_s(d, from, start, end, b);
    let all = read::refs_s(d);
    if p < q {
        assert(all[p].id_s() != all[q].id_s());
    } else {
        assert(all[q].id_s() != all[p].id_s());
    }
    read::lemma_text_keeps_shape(d, mid, from);
    read::lemma_text_keeps_shape(mid, e, to);
    lemma_two(d, mid, e, from, to);
    let text = writing::run_text_s(w);
    let laid = choose|x: Seq<CharV>| #[trigger]
        writing::laid_s(mid, to, pos as int, text, x) && doc::text_s(e, to) == writing::dressed_s(
            x,
            pos as int,
            w,
            w.len(),
        );
    assert(writing::laid_s(mid, to, pos as int, text, laid));
    assert(mid.s.typed[to] == d.s.typed[to]) by {
        let x = store::no_marks_s();
        assert(mid.s.typed.insert(from, x)[to] == d.s.typed.insert(from, x)[to]);
    }
    laid
}

/// A move leaves the paragraphs that it does not touch, and the properties of all.
proof fn lemma_rest(d: DocV, e: DocV, p: int, q: int, id: u64)
    requires
        sequence::sound_s(d),
        resolving::unused_s(d, id),
        0 <= p < read::refs_s(d).len(),
        0 <= q < read::refs_s(d).len(),
        read::refs_s(e) == read::refs_s(d),
        only_two_s(d, e, read::block_s(d, p), read::block_s(d, q)),
    ensures
        forall|i: int|
            0 <= i < read::refs_s(e).len() && i != p && i != q ==> !revisions::para_uses_s(
                #[trigger] read::paragraphs_s(e)[i],
                id,
            ),
        !revisions::prop_hit_s(read::paragraphs_s(e)[p], id),
        !revisions::prop_hit_s(read::paragraphs_s(e)[q], id),
{
    let all = read::refs_s(d);
    assert forall|i: int| 0 <= i < all.len() && i != p && i != q implies !revisions::para_uses_s(
        #[trigger] read::paragraphs_s(e)[i],
        id,
    ) by {
        lemma_apart(d, i, p);
        lemma_apart(d, i, q);
        let z = all[i].id_s();
        assert(e.s.texts.dom().contains(z) == d.s.texts.dom().contains(z));
        assert(e.s.texts[z] == d.s.texts[z]);
        assert(read::paragraphs_s(e)[i] == read::paragraphs_s(d)[i]);
    }
    assert(!revisions::para_uses_s(read::paragraphs_s(d)[p], id));
    assert(!revisions::para_uses_s(read::paragraphs_s(d)[q], id));
    assert(read::paragraphs_s(e)[p].prop_change == read::paragraphs_s(d)[p].prop_change);
    assert(read::paragraphs_s(e)[q].prop_change == read::paragraphs_s(d)[q].prop_change);
}

proof fn lemma_apart(d: DocV, i: int, j: int)
    requires
        sequence::sound_s(d),
        0 <= i < read::refs_s(d).len(),
        0 <= j < read::refs_s(d).len(),
        i != j,
    ensures
        read::refs_s(d)[i].id_s() != read::refs_s(d)[j].id_s(),
{
    let all = read::refs_s(d);
    if i < j {
        assert(all[i].id_s() != all[j].id_s());
    } else {
        assert(all[j].id_s() != all[i].id_s());
    }
}

/// What resolving a suggested move does, whichever way.
proof fn lemma_resolved(
    d: DocV,
    p: int,
    start: usize,
    end: usize,
    q: int,
    pos: usize,
    author: Seq<char>,
    date: Seq<char>,
    id: u64,
    mid: DocV,
    e: DocV,
    accept: bool,
    states: Seq<DocV>,
)
    requires
        moved_s(d, p, start, end, q, pos, author, date, id, mid, e),
        revisions::all_resolved_s(states, e, id, accept, read::refs_s(e).len() as int),
    ensures
        revisions::hit_s(
            read::paragraphs_s(e),
            id,
            accept,
            read::paragraphs_s(e).len() as int,
        ),
        settled_s(
            e,
            read::block_s(d, p),
            start,
            end,
            read::block_s(d, q),
            pos,
            (pos + moved_text_s(d, read::block_s(d, p), start, end).len()) as usize,
            accept,
            states.last(),
        ),
        pos + moved_text_s(d, read::block_s(d, p), start, end).len() <= usize::MAX,
{
    let from = read::block_s(d, p);
    let to = read::block_s(d, q);
    let a = revisions::half_s(TrackKind::MoveFrom, author, date, id);
    let b = revisions::half_s(TrackKind::MoveTo, author, date, id);
    let w = written_s(d, from, start, end, b);
    lemma_written(d, p, start, end, q, pos, author, date, id, mid, e);
    let laid = lemma_halves(d, p, start, end, q, pos, author, date, id, mid, e);
    let was = doc::text_s(d, from);
    let there = doc::text_s(d, to);
    assert forall|i: int| 0 <= i < was.len() implies !resolving::carries_s(#[trigger] was[i], id)
        && !revisions::fmt_is_s(runback::read_s(was[i]), id) by {
        resolving::lemma_unused_char(d, p, id, i);
    }
    assert forall|i: int| 0 <= i < there.len() implies !resolving::carries_s(
        #[trigger] there[i],
        id,
    ) && !revisions::fmt_is_s(runback::read_s(there[i]), id) by {
        resolving::lemma_unused_char(d, q, id, i);
    }
    lemma_source(was, start as int, end as int, a, id);
    lemma_target(
        there,
        pos as int,
        w,
        b,
        d.s.typed[to][pos as int],
        laid,
        doc::text_s(e, to),
        id,
    );
    assert(e.s.texts.dom().contains(from) && e.s.texts.dom().contains(to));
    resolving::lemma_no_fmt(e, from, id);
    resolving::lemma_no_fmt(e, to, id);
    lemma_rest(d, e, p, q, id);
    let till = (pos + writing::run_text_s(w).len()) as usize;
    lemma_settled(e, p, start, end, q, pos, till, id, accept, states);
}

proof fn lemma_both(d: DocV, e: DocV, f: DocV, x: BlockId, y: BlockId)
    requires
        only_two_s(d, e, x, y),
        only_two_s(e, f, x, y),
    ensures
        only_two_s(d, f, x, y),
{
    assert forall|z: BlockId| z != x && z != y implies #[trigger] f.s.texts[z] == d.s.texts[z] by {
        assert(e.s.texts[z] == d.s.texts[z]);
    }
}

proof fn lemma_cleared(was: Seq<CharV>, from: int, to: int, v: ScalarV)
    requires
        open_s(was, from, to),
    ensures
        store::unmarked_s(store::marked_s(was, from, to, "mvf"@, v), from, to, "mvf"@) == was,
{
    let now = store::unmarked_s(store::marked_s(was, from, to, "mvf"@, v), from, to, "mvf"@);
    assert forall|i: int| 0 <= i < was.len() implies #[trigger] now[i] == was[i] by {
        if from <= i < to {
            assert(open_at_s(was[i]));
            assert(was[i].attrs.insert("mvf"@, v).remove("mvf"@) =~= was[i].attrs);
        }
    }
    assert(now =~= was);
}

proof fn lemma_withdrawn(was: Seq<CharV>, pos: int, v: Seq<RunV>, t: TrackV, laid: Seq<CharV>)
    requires
        0 <= pos <= was.len(),
        all_bare_s(v, t),
        writing::run_text_s(v).len() > 0,
        store::spliced_s(was, pos, writing::run_text_s(v), laid),
    ensures
        doc::cut_s(
            writing::dressed_s(laid, pos, v, v.len()),
            pos,
            writing::run_text_s(v).len() as int,
        ) == was,
{
    let now = writing::dressed_s(laid, pos, v, v.len());
    let n = writing::run_text_s(v).len();
    lemma_dressed(laid, pos, v, t, v.len());
    resolving::lemma_around(was, pos, writing::run_text_s(v), laid);
    assert(now.subrange(0, pos) + now.subrange(pos + n, now.len() as int) =~= was);
}

/// A suggested move between two paragraphs is there to be resolved.
pub proof fn law_suggested_move_is_found(
    d: DocV,
    p: int,
    start: usize,
    end: usize,
    q: int,
    pos: usize,
    author: Seq<char>,
    date: Seq<char>,
    id: u64,
    mid: DocV,
    e: DocV,
    accept: bool,
    states: Seq<DocV>,
)
    requires
        moved_s(d, p, start, end, q, pos, author, date, id, mid, e),
        revisions::all_resolved_s(states, e, id, accept, read::refs_s(e).len() as int),
    ensures
        revisions::hit_s(
            read::paragraphs_s(e),
            id,
            accept,
            read::paragraphs_s(e).len() as int,
        ),
{
    lemma_resolved(d, p, start, end, q, pos, author, date, id, mid, e, accept, states);
}

/// Rejecting a suggested move between two paragraphs takes it back: both have the text that they
/// had, character by character with its formatting, and nothing else has changed.
pub proof fn law_rejected_move_is_undone(
    d: DocV,
    p: int,
    start: usize,
    end: usize,
    q: int,
    pos: usize,
    author: Seq<char>,
    date: Seq<char>,
    id: u64,
    mid: DocV,
    e: DocV,
    states: Seq<DocV>,
)
    requires
        moved_s(d, p, start, end, q, pos, author, date, id, mid, e),
        revisions::all_resolved_s(states, e, id, false, read::refs_s(e).len() as int),
    ensures
        only_two_s(d, states.last(), read::block_s(d, p), read::block_s(d, q)),
        doc::text_s(states.last(), read::block_s(d, p)) == doc::text_s(d, read::block_s(d, p)),
        doc::text_s(states.last(), read::block_s(d, q)) == doc::text_s(d, read::block_s(d, q)),
{
    let from = read::block_s(d, p);
    let to = read::block_s(d, q);
    let a = revisions::half_s(TrackKind::MoveFrom, author, date, id);
    let b = revisions::half_s(TrackKind::MoveTo, author, date, id);
    assert(settled_s(
        e,
        from,
        start,
        end,
        to,
        pos,
        (pos + moved_text_s(d, from, start, end).len()) as usize,
        false,
        states.last(),
    ) && pos + moved_text_s(d, from, start, end).len() <= usize::MAX) by {
        lemma_resolved(d, p, start, end, q, pos, author, date, id, mid, e, false, states);
    }
    lemma_written(d, p, start, end, q, pos, author, date, id, mid, e);
    let laid = lemma_halves(d, p, start, end, q, pos, author, date, id, mid, e);
    lemma_both(d, e, states.last(), from, to);
    lemma_cleared(
        doc::text_s(d, from),
        start as int,
        end as int,
        ScalarV::Text(writing::track_value_s(a)),
    );
    lemma_withdrawn(doc::text_s(d, to), pos as int, written_s(d, from, start, end, b), b, laid);
}

/// Accepting a suggested move between two paragraphs carries it out: the text goes from where it
/// was and stands where it was moved, and the characters around are as they were.
pub proof fn law_accepted_move_is_carried_out(
    d: DocV,
    p: int,
    start: usize,
    end: usize,
    q: int,
    pos: usize,
    author: Seq<char>,
    date: Seq<char>,
    id: u64,
    mid: DocV,
    e: DocV,
    states: Seq<DocV>,
)
    requires
        moved_s(d, p, start, end, q, pos, author, date, id, mid, e),
        revisions::all_resolved_s(states, e, id, true, read::refs_s(e).len() as int),
    ensures
        only_two_s(d, states.last(), read::block_s(d, p), read::block_s(d, q)),
        doc::text_s(states.last(), read::block_s(d, p)) == doc::cut_s(
            doc::text_s(d, read::block_s(d, p)),
            start as int,
            end - start,
        ),
        store::spliced_s(
            doc::text_s(d, read::block_s(d, q)),
            pos as int,
            moved_text_s(d, read::block_s(d, p), start, end),
            doc::text_s(states.last(), read::block_s(d, q)),
        ),
{
    let from = read::block_s(d, p);
    let to = read::block_s(d, q);
    let b = revisions::half_s(TrackKind::MoveTo, author, date, id);
    assert(settled_s(
        e,
        from,
        start,
        end,
        to,
        pos,
        (pos + moved_text_s(d, from, start, end).len()) as usize,
        true,
        states.last(),
    ) && pos + moved_text_s(d, from, start, end).len() <= usize::MAX) by {
        lemma_resolved(d, p, start, end, q, pos, author, date, id, mid, e, true, states);
    }
    lemma_written(d, p, start, end, q, pos, author, date, id, mid, e);
    let laid = lemma_halves(d, p, start, end, q, pos, author, date, id, mid, e);
    lemma_both(d, e, states.last(), from, to);
    let was = doc::text_s(d, from);
    let now = doc::text_s(e, from);
    assert(now.subrange(0, start as int) =~= was.subrange(0, start as int));
    assert(now.subrange(end as int, now.len() as int) =~= was.subrange(
        end as int,
        was.len() as int,
    ));
    let till = (pos + moved_text_s(d, from, start, end).len()) as usize;
    lemma_stays(
        doc::text_s(d, to),
        pos as int,
        written_s(d, from, start, end, b),
        b,
        laid,
        doc::text_s(states.last(), to),
        till as int,
    );
}

proof fn lemma_stays(
    was: Seq<CharV>,
    pos: int,
    v: Seq<RunV>,
    t: TrackV,
    laid: Seq<CharV>,
    f: Seq<CharV>,
    till: int,
)
    requires
        0 <= pos <= was.len(),
        all_bare_s(v, t),
        store::spliced_s(was, pos, writing::run_text_s(v), laid),
        till == pos + writing::run_text_s(v).len(),
        f == store::unmarked_s(
            writing::dressed_s(laid, pos, v, v.len()),
            pos,
            till,
            "mvt"@,
        ),
    ensures
        store::spliced_s(was, pos, writing::run_text_s(v), f),
{
    let text = writing::run_text_s(v);
    lemma_dressed(laid, pos, v, t, v.len());
    resolving::lemma_around(was, pos, text, laid);
    assert(f.subrange(0, pos) =~= was.subrange(0, pos));
    assert(f.subrange(till, f.len() as int) =~= was.subrange(pos, was.len() as int));
    assert forall|i: int| 0 <= i < text.len() implies (#[trigger] f[pos + i]).c == text[i] by {
        assert(laid[pos + i].c == text[i]);
    }
}

} // verus!
