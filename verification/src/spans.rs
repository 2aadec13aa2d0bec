//! Per-run annotation tables, computed once before serialization.
//!
//! Comments, fields and bookmarks are marks over a range, and OOXML wants them as
//! elements opened before a run and closed after it. The whole document is scanned up
//! front into open and close tables, and [`IdAlloc`] hands out the ids of the revision
//! elements, no id twice.

use vstd::prelude::*;

use crate::types::Paragraph;
use crate::types::ParagraphV;
use crate::types::Run;
use crate::types::RunV;
use crate::types::Track;
use crate::types::TrackV;
use crate::types;

verus! {

// ── first and last runs ─────────────────────────────────────────────────────

/// A kind of annotation that runs carry.
#[derive(Clone, Copy, PartialEq, Eq, Structural)]
pub enum Tag {
    Comment,
    Field,
    Bookmark,
}

/// The annotation ids that a run carries; a run is in at most one field.
pub open spec fn ids_s(run: RunV, tag: Tag) -> Seq<u64> {
    match tag {
        Tag::Comment => run.comments,
        Tag::Field => match run.field {
            Some(f) => seq![f],
            None => Seq::empty(),
        },
        Tag::Bookmark => run.bookmarks,
    }
}

pub(crate) fn has_id(v: &Vec<u64>, id: u64) -> (r: bool)
    ensures
        r == v@.contains(id),
{
    let mut i: usize = 0;
    while i < v.len()
        invariant
            i <= v@.len(),
            forall|j: int| 0 <= j < i ==> v@[j] != id,
        decreases v@.len() - i,
    {
        if v[i] == id {
            assert(v@[i as int] == id);
            return true;
        }
        i = i + 1;
    }
    false
}

fn carries(run: &Run, tag: Tag, id: u64) -> (b: bool)
    ensures
        b == ids_s(run@, tag).contains(id),
{
    match tag {
        Tag::Comment => has_id(&run.comments, id),
        Tag::Field => match run.field {
            Some(f) => {
                assert(ids_s(run@, tag)[0] == f);
                f == id
            },
            None => false,
        },
        Tag::Bookmark => has_id(&run.bookmarks, id),
    }
}

/// Whether run `(p, r)` carries annotation `id`.
pub open spec fn marked_s(ps: Seq<ParagraphV>, tag: Tag, p: int, r: int, id: u64) -> bool {
    0 <= p < ps.len() && 0 <= r < ps[p].runs.len() && ids_s(ps[p].runs[r], tag).contains(id)
}

/// Whether run `(p, r)` comes before run `(q, t)` in document order.
pub open spec fn before_s(p: int, r: int, q: int, t: int) -> bool {
    p < q || (p == q && r < t)
}

/// Whether run `(p, r)` is the first run that carries annotation `id`.
pub open spec fn first_marked_s(ps: Seq<ParagraphV>, tag: Tag, p: int, r: int, id: u64) -> bool {
    marked_s(ps, tag, p, r, id) && forall|q: int, t: int|
        before_s(q, t, p, r) ==> !#[trigger] marked_s(ps, tag, q, t, id)
}

/// Whether run `(p, r)` is the last run that carries annotation `id`.
pub open spec fn last_marked_s(ps: Seq<ParagraphV>, tag: Tag, p: int, r: int, id: u64) -> bool {
    marked_s(ps, tag, p, r, id) && forall|q: int, t: int|
        before_s(p, r, q, t) ==> !#[trigger] marked_s(ps, tag, q, t, id)
}

/// Whether a run in the half-open document range from `(p, r)` to `(q, t)` carries `id`.
fn any_marked(
    ps: &Vec<Paragraph>,
    tag: Tag,
    p: usize,
    r: usize,
    q: usize,
    t: usize,
    id: u64,
) -> (b: bool)
    requires
        q <= ps@.len(),
    ensures
        b == exists|i: int, j: int|
            !before_s(i, j, p as int, r as int) && before_s(i, j, q as int, t as int) && #[trigger] marked_s(
                types::paragraph_vs(ps@),
                tag,
                i,
                j,
                id,
            ),
{
    let ghost v = types::paragraph_vs(ps@);
    let mut i: usize = p;
    while i <= q && i < ps.len()
        invariant
            v == types::paragraph_vs(ps@),
            q <= ps@.len(),
            p <= i,
            forall|a: int, j: int|
                !before_s(a, j, p as int, r as int) && before_s(a, j, q as int, t as int) && a < i
                    ==> !#[trigger] marked_s(v, tag, a, j, id),
        decreases ps@.len() - i,
    {
        let from: usize = if i == p {
            r
        } else {
            0
        };
        let mut j: usize = from;
        while j < ps[i].runs.len() && (i < q || j < t)
            invariant
                v == types::paragraph_vs(ps@),
                i <= q,
                i < ps@.len(),
                p <= i,
                from == (if i == p {
                    r
                } else {
                    0usize
                }),
                from <= j,
                forall|a: int| from <= a < j ==> !#[trigger] marked_s(v, tag, i as int, a, id),
            decreases ps@[i as int].runs@.len() - j,
        {
            if carries(&ps[i].runs[j], tag, id) {
                assert(marked_s(v, tag, i as int, j as int, id));
                return true;
            }
            assert(!marked_s(v, tag, i as int, j as int, id));
            j = j + 1;
        }
        assert forall|a: int, b: int|
            !before_s(a, b, p as int, r as int) && before_s(a, b, q as int, t as int) && a < i + 1
            implies !#[trigger] marked_s(v, tag, a, b, id) by {
            if a == i {
                if b < j && b >= from {
                } else if b < from {
                }
            }
        }
        i = i + 1;
    }
    false
}

fn is_first(paras: &Vec<Paragraph>, tag: Tag, p: usize, r: usize, id: u64) -> (b: bool)
    requires
        marked_s(types::paragraph_vs(paras@), tag, p as int, r as int, id),
    ensures
        b == first_marked_s(types::paragraph_vs(paras@), tag, p as int, r as int, id),
{
    let ghost v = types::paragraph_vs(paras@);
    let earlier = any_marked(paras, tag, 0, 0, p, r, id);
    proof {
        if earlier {
            let (a, b) = choose|a: int, b: int|
                !before_s(a, b, 0, 0) && before_s(a, b, p as int, r as int) && #[trigger] marked_s(
                    v,
                    tag,
                    a,
                    b,
                    id,
                );
            assert(marked_s(v, tag, a, b, id));
        } else {
            assert forall|q: int, t: int| before_s(q, t, p as int, r as int) implies !#[trigger] marked_s(
                v,
                tag,
                q,
                t,
                id,
            ) by {
                if marked_s(v, tag, q, t, id) {
                    assert(!before_s(q, t, 0, 0));
                }
            }
        }
    }
    !earlier
}

fn is_last(paras: &Vec<Paragraph>, tag: Tag, p: usize, r: usize, id: u64) -> (b: bool)
    requires
        marked_s(types::paragraph_vs(paras@), tag, p as int, r as int, id),
    ensures
        b == last_marked_s(types::paragraph_vs(paras@), tag, p as int, r as int, id),
{
    let ghost v = types::paragraph_vs(paras@);
    let n: usize = paras[p].runs.len();
    assert(r < n);
    let later = any_marked(paras, tag, p, r + 1, paras.len(), 0, id);
    proof {
        if later {
            let (a, b) = choose|a: int, b: int|
                !before_s(a, b, p as int, r + 1) && before_s(a, b, paras@.len() as int, 0)
                    && #[trigger] marked_s(v, tag, a, b, id);
            assert(marked_s(v, tag, a, b, id));
            assert(before_s(p as int, r as int, a, b));
        } else {
            assert forall|q: int, t: int| before_s(p as int, r as int, q, t) implies !#[trigger] marked_s(
                v,
                tag,
                q,
                t,
                id,
            ) by {
                if marked_s(v, tag, q, t, id) {
                    assert(before_s(q, t, paras@.len() as int, 0));
                    assert(!before_s(q, t, p as int, r + 1));
                }
            }
        }
    }
    !later
}

/// An annotation has one first run and one last run.
pub proof fn law_first_and_last_runs_are_unique(
    ps: Seq<ParagraphV>,
    tag: Tag,
    p: int,
    r: int,
    q: int,
    t: int,
    id: u64,
)
    ensures
        first_marked_s(ps, tag, p, r, id) && first_marked_s(ps, tag, q, t, id) ==> p == q && r == t,
        last_marked_s(ps, tag, p, r, id) && last_marked_s(ps, tag, q, t, id) ==> p == q && r == t,
{
    assert(marked_s(ps, tag, p, r, id) == marked_s(ps, tag, p, r, id));
    assert(marked_s(ps, tag, q, t, id) == marked_s(ps, tag, q, t, id));
}

proof fn lemma_once(ps: Seq<ParagraphV>, tag: Tag, p: int, r: int, id: u64)
    ensures
        forall|q: int, t: int|
            first_marked_s(ps, tag, p, r, id) && #[trigger] first_marked_s(ps, tag, q, t, id) ==> p == q
                && r == t,
        forall|q: int, t: int|
            last_marked_s(ps, tag, p, r, id) && #[trigger] last_marked_s(ps, tag, q, t, id) ==> p == q
                && r == t,
{
    assert forall|q: int, t: int|
        first_marked_s(ps, tag, p, r, id) && #[trigger] first_marked_s(ps, tag, q, t, id) implies p == q
        && r == t by {
        law_first_and_last_runs_are_unique(ps, tag, p, r, q, t, id);
    }
    assert forall|q: int, t: int|
        last_marked_s(ps, tag, p, r, id) && #[trigger] last_marked_s(ps, tag, q, t, id) implies p == q
        && r == t by {
        law_first_and_last_runs_are_unique(ps, tag, p, r, q, t, id);
    }
}

// ── tables ──────────────────────────────────────────────────────────────────

/// Per paragraph and run, the annotation ids at that run.
pub type SpanGrid = Vec<Vec<Vec<u64>>>;

/// Per paragraph and run, the one annotation id at that run.
pub type OptSpanGrid = Vec<Vec<Option<u64>>>;

pub open spec fn row_v(row: Seq<Vec<u64>>) -> Seq<Seq<u64>> {
    Seq::new(row.len(), |r: int| row[r]@)
}

pub open spec fn grid_v(g: Seq<Vec<Vec<u64>>>) -> Seq<Seq<Seq<u64>>> {
    Seq::new(g.len(), |p: int| row_v(g[p]@))
}

pub open spec fn opt_grid_v(g: Seq<Vec<Option<u64>>>) -> Seq<Seq<Option<u64>>> {
    Seq::new(g.len(), |p: int| g[p]@)
}

// ── comments ────────────────────────────────────────────────────────────────

/// The ids of `s` for which `keep` holds, each once, in the order of their first places.
pub open spec fn kept_s(s: Seq<u64>, keep: spec_fn(u64) -> bool) -> Seq<u64>
    decreases s.len(),
{
    if s.len() == 0 {
        Seq::empty()
    } else {
        let head = kept_s(s.drop_last(), keep);
        if keep(s.last()) && !head.contains(s.last()) {
            head.push(s.last())
        } else {
            head
        }
    }
}

proof fn lemma_kept(s: Seq<u64>, keep: spec_fn(u64) -> bool)
    ensures
        kept_s(s, keep).no_duplicates(),
        forall|x: u64| #[trigger] kept_s(s, keep).contains(x) <==> s.contains(x) && keep(x),
    decreases s.len(),
{
    if s.len() > 0 {
        let head = s.drop_last();
        lemma_kept(head, keep);
        let h = kept_s(head, keep);
        assert forall|x: u64| #[trigger] kept_s(s, keep).contains(x) <==> s.contains(x) && keep(x) by {
            if s.contains(x) {
                let k = choose|k: int| 0 <= k < s.len() && s[k] == x;
                if k < head.len() {
                    assert(head[k] == x);
                }
            }
            if head.contains(x) {
                let k = choose|k: int| 0 <= k < head.len() && head[k] == x;
                assert(s[k] == x);
            }
            assert(s[s.len() - 1] == s.last());
            if h.contains(x) {
                let k = choose|k: int| 0 <= k < h.len() && h[k] == x;
                assert(kept_s(s, keep)[k] == x);
            }
            if keep(s.last()) && !h.contains(s.last()) {
                assert(kept_s(s, keep)[h.len() as int] == s.last());
            }
        }
    }
}

/// The comments that open before run `r` of paragraph `p`: those whose first run it is.
pub open spec fn comment_opens_at_s(ps: Seq<ParagraphV>, p: int, r: int) -> Seq<u64> {
    kept_s(ps[p].runs[r].comments, |id: u64| first_marked_s(ps, Tag::Comment, p, r, id))
}

/// The comments that close after run `r` of paragraph `p`: those whose last run it is.
pub open spec fn comment_closes_at_s(ps: Seq<ParagraphV>, p: int, r: int) -> Seq<u64> {
    kept_s(ps[p].runs[r].comments, |id: u64| last_marked_s(ps, Tag::Comment, p, r, id))
}

pub open spec fn comment_opens_s(ps: Seq<ParagraphV>) -> Seq<Seq<Seq<u64>>> {
    Seq::new(
        ps.len(),
        |p: int| Seq::new(ps[p].runs.len(), |r: int| comment_opens_at_s(ps, p, r)),
    )
}

pub open spec fn comment_closes_s(ps: Seq<ParagraphV>) -> Seq<Seq<Seq<u64>>> {
    Seq::new(
        ps.len(),
        |p: int| Seq::new(ps[p].runs.len(), |r: int| comment_closes_at_s(ps, p, r)),
    )
}

/// For every paragraph, the comments to open before each run and to close after each run.
/// The tables go by the whole run sequence: a comment opens once at its first run in document
/// order and closes once at its last, over any gap and any paragraph boundary between them.
pub fn comment_spans(paras: &Vec<Paragraph>) -> (g: (SpanGrid, SpanGrid))
    ensures
        grid_v(g.0@) == comment_opens_s(types::paragraph_vs(paras@)),
        grid_v(g.1@) == comment_closes_s(types::paragraph_vs(paras@)),
{
    let ghost v = types::paragraph_vs(paras@);
    let mut opens: SpanGrid = Vec::new();
    let mut closes: SpanGrid = Vec::new();
    let mut p: usize = 0;
    while p < paras.len()
        invariant
            p <= paras@.len(),
            v == types::paragraph_vs(paras@),
            opens@.len() == p,
            closes@.len() == p,
            forall|k: int| 0 <= k < p ==> row_v(#[trigger] opens@[k]@) == comment_opens_s(v)[k],
            forall|k: int| 0 <= k < p ==> row_v(#[trigger] closes@[k]@) == comment_closes_s(v)[k],
        decreases paras@.len() - p,
    {
        let mut orow: Vec<Vec<u64>> = Vec::new();
        let mut crow: Vec<Vec<u64>> = Vec::new();
        let mut r: usize = 0;
        while r < paras[p].runs.len()
            invariant
                p < paras@.len(),
                r <= paras@[p as int].runs@.len(),
                v == types::paragraph_vs(paras@),
                orow@.len() == r,
                crow@.len() == r,
                forall|k: int| 0 <= k < r ==> (#[trigger] orow@[k])@ == comment_opens_at_s(v, p as int, k),
                forall|k: int| 0 <= k < r ==> (#[trigger] crow@[k])@ == comment_closes_at_s(v, p as int, k),
            decreases paras@[p as int].runs@.len() - r,
        {
            let (o, c) = comments_at(paras, p, r);
            orow.push(o);
            crow.push(c);
            r = r + 1;
        }
        proof {
            assert(v[p as int].runs.len() == paras@[p as int].runs@.len());
            assert(row_v(orow@) =~= comment_opens_s(v)[p as int]);
            assert(row_v(crow@) =~= comment_closes_s(v)[p as int]);
        }
        opens.push(orow);
        closes.push(crow);
        p = p + 1;
    }
    proof {
        assert(grid_v(opens@) =~= comment_opens_s(v));
        assert(grid_v(closes@) =~= comment_closes_s(v));
    }
    (opens, closes)
}

/// The comments that open before, and close after, run `r` of paragraph `p`.
fn comments_at(paras: &Vec<Paragraph>, p: usize, r: usize) -> (g: (Vec<u64>, Vec<u64>))
    requires
        p < paras@.len(),
        r < paras@[p as int].runs@.len(),
    ensures
        g.0@ == comment_opens_at_s(types::paragraph_vs(paras@), p as int, r as int),
        g.1@ == comment_closes_at_s(types::paragraph_vs(paras@), p as int, r as int),
{
    let ghost v = types::paragraph_vs(paras@);
    let ghost opening = |id: u64| first_marked_s(v, Tag::Comment, p as int, r as int, id);
    let ghost closing = |id: u64| last_marked_s(v, Tag::Comment, p as int, r as int, id);
    let ids = &paras[p].runs[r].comments;
    assert(v[p as int].runs[r as int].comments == ids@);
    let mut o: Vec<u64> = Vec::new();
    let mut c: Vec<u64> = Vec::new();
    let mut i: usize = 0;
    assert(ids@.take(0) =~= Seq::<u64>::empty());
    while i < ids.len()
        invariant
            i <= ids@.len(),
            p < paras@.len(),
            r < paras@[p as int].runs@.len(),
            v == types::paragraph_vs(paras@),
            ids@ == v[p as int].runs[r as int].comments,
            opening == (|id: u64| first_marked_s(v, Tag::Comment, p as int, r as int, id)),
            closing == (|id: u64| last_marked_s(v, Tag::Comment, p as int, r as int, id)),
            o@ == kept_s(ids@.take(i as int), opening),
            c@ == kept_s(ids@.take(i as int), closing),
        decreases ids@.len() - i,
    {
        let id = ids[i];
        proof {
            assert(ids@.take(i + 1).drop_last() =~= ids@.take(i as int));
            assert(ids@.take(i + 1).last() == id);
            assert(ids@.contains(id));
            assert(v[p as int].runs.len() == paras@[p as int].runs@.len());
            assert(marked_s(v, Tag::Comment, p as int, r as int, id));
        }
        if is_first(paras, Tag::Comment, p, r, id) && !has_id(&o, id) {
            o.push(id);
        }
        if is_last(paras, Tag::Comment, p, r, id) && !has_id(&c, id) {
            c.push(id);
        }
        i = i + 1;
    }
    assert(ids@.take(i as int) =~= ids@);
    (o, c)
}

/// A comment opens before exactly the first run that carries it and closes after exactly the
/// last: one start and one end in the whole document.
pub proof fn law_comment_opens_and_closes_once(ps: Seq<ParagraphV>, p: int, r: int, id: u64)
    requires
        0 <= p < ps.len(),
        0 <= r < ps[p].runs.len(),
    ensures
        comment_opens_s(ps)[p][r].contains(id) <==> first_marked_s(ps, Tag::Comment, p, r, id),
        comment_closes_s(ps)[p][r].contains(id) <==> last_marked_s(ps, Tag::Comment, p, r, id),
        comment_opens_s(ps)[p][r].no_duplicates(),
        comment_closes_s(ps)[p][r].no_duplicates(),
        forall|q: int, t: int|
            first_marked_s(ps, Tag::Comment, p, r, id) && #[trigger] first_marked_s(
                ps,
                Tag::Comment,
                q,
                t,
                id,
            ) ==> p == q && r == t,
        forall|q: int, t: int|
            last_marked_s(ps, Tag::Comment, p, r, id) && #[trigger] last_marked_s(
                ps,
                Tag::Comment,
                q,
                t,
                id,
            ) ==> p == q && r == t,
{
    lemma_kept(ps[p].runs[r].comments, |i: u64| first_marked_s(ps, Tag::Comment, p, r, i));
    lemma_kept(ps[p].runs[r].comments, |i: u64| last_marked_s(ps, Tag::Comment, p, r, i));
    lemma_once(ps, Tag::Comment, p, r, id);
}

// ── fields ──────────────────────────────────────────────────────────────────

/// The field that opens before run `r` of paragraph `p`: the run's, where it is the first.
pub open spec fn field_opens_at_s(ps: Seq<ParagraphV>, p: int, r: int) -> Option<u64> {
    match ps[p].runs[r].field {
        Some(id) if first_marked_s(ps, Tag::Field, p, r, id) => Some(id),
        _ => None,
    }
}

/// The field that closes after run `r` of paragraph `p`: the run's, where it is the last.
pub open spec fn field_closes_at_s(ps: Seq<ParagraphV>, p: int, r: int) -> Option<u64> {
    match ps[p].runs[r].field {
        Some(id) if last_marked_s(ps, Tag::Field, p, r, id) => Some(id),
        _ => None,
    }
}

pub open spec fn field_opens_s(ps: Seq<ParagraphV>) -> Seq<Seq<Option<u64>>> {
    Seq::new(
        ps.len(),
        |p: int| Seq::new(ps[p].runs.len(), |r: int| field_opens_at_s(ps, p, r)),
    )
}

pub open spec fn field_closes_s(ps: Seq<ParagraphV>) -> Seq<Seq<Option<u64>>> {
    Seq::new(
        ps.len(),
        |p: int| Seq::new(ps[p].runs.len(), |r: int| field_closes_at_s(ps, p, r)),
    )
}

/// For every paragraph, the field that opens before each run and the one that closes after
/// it. A field opens once at its first run in document order and closes once at its last; a
/// run is in at most one field.
pub fn field_spans(paras: &Vec<Paragraph>) -> (g: (OptSpanGrid, OptSpanGrid))
    ensures
        opt_grid_v(g.0@) == field_opens_s(types::paragraph_vs(paras@)),
        opt_grid_v(g.1@) == field_closes_s(types::paragraph_vs(paras@)),
{
    let ghost v = types::paragraph_vs(paras@);
    let mut opens: OptSpanGrid = Vec::new();
    let mut closes: OptSpanGrid = Vec::new();
    let mut p: usize = 0;
    while p < paras.len()
        invariant
            p <= paras@.len(),
            v == types::paragraph_vs(paras@),
            opens@.len() == p,
            closes@.len() == p,
            forall|k: int| 0 <= k < p ==> (#[trigger] opens@[k])@ == field_opens_s(v)[k],
            forall|k: int| 0 <= k < p ==> (#[trigger] closes@[k])@ == field_closes_s(v)[k],
        decreases paras@.len() - p,
    {
        let mut orow: Vec<Option<u64>> = Vec::new();
        let mut crow: Vec<Option<u64>> = Vec::new();
        let mut r: usize = 0;
        while r < paras[p].runs.len()
            invariant
                p < paras@.len(),
                r <= paras@[p as int].runs@.len(),
                v == types::paragraph_vs(paras@),
                orow@.len() == r,
                crow@.len() == r,
                forall|k: int| 0 <= k < r ==> #[trigger] orow@[k] == field_opens_at_s(v, p as int, k),
                forall|k: int| 0 <= k < r ==> #[trigger] crow@[k] == field_closes_at_s(v, p as int, k),
            decreases paras@[p as int].runs@.len() - r,
        {
            let cur = paras[p].runs[r].field;
            match cur {
                Some(id) => {
                    proof {
                        assert(v[p as int].runs.len() == paras@[p as int].runs@.len());
                        assert(ids_s(v[p as int].runs[r as int], Tag::Field)[0] == id);
                        assert(marked_s(v, Tag::Field, p as int, r as int, id));
                    }
                    orow.push(if is_first(paras, Tag::Field, p, r, id) { cur } else { None });
                    crow.push(if is_last(paras, Tag::Field, p, r, id) { cur } else { None });
                },
                None => {
                    orow.push(None);
                    crow.push(None);
                },
            }
            r = r + 1;
        }
        proof {
            assert(v[p as int].runs.len() == paras@[p as int].runs@.len());
            assert(orow@ =~= field_opens_s(v)[p as int]);
            assert(crow@ =~= field_closes_s(v)[p as int]);
        }
        opens.push(orow);
        closes.push(crow);
        p = p + 1;
    }
    proof {
        assert(opt_grid_v(opens@) =~= field_opens_s(v));
        assert(opt_grid_v(closes@) =~= field_closes_s(v));
    }
    (opens, closes)
}

/// A field opens before exactly the first run in it and closes after exactly the last.
pub proof fn law_field_opens_and_closes_once(ps: Seq<ParagraphV>, p: int, r: int, id: u64)
    requires
        0 <= p < ps.len(),
        0 <= r < ps[p].runs.len(),
    ensures
        field_opens_s(ps)[p][r] == Some(id) <==> first_marked_s(ps, Tag::Field, p, r, id),
        field_closes_s(ps)[p][r] == Some(id) <==> last_marked_s(ps, Tag::Field, p, r, id),
        forall|q: int, t: int|
            first_marked_s(ps, Tag::Field, p, r, id) && #[trigger] first_marked_s(
                ps,
                Tag::Field,
                q,
                t,
                id,
            ) ==> p == q && r == t,
        forall|q: int, t: int|
            last_marked_s(ps, Tag::Field, p, r, id) && #[trigger] last_marked_s(
                ps,
                Tag::Field,
                q,
                t,
                id,
            ) ==> p == q && r == t,
{
    let ids = ids_s(ps[p].runs[r], Tag::Field);
    if ids.len() > 0 {
        assert(ids.contains(ids[0]));
    }
    lemma_once(ps, Tag::Field, p, r, id);
}

// ── bookmarks ───────────────────────────────────────────────────────────────

/// `ids` with `id` put in, ascending and without repetition.
pub open spec fn insert_asc_s(ids: Seq<u64>, id: u64) -> Seq<u64>
    decreases ids.len(),
{
    if ids.len() == 0 {
        seq![id]
    } else if ids.last() < id {
        ids.push(id)
    } else if ids.last() == id {
        ids
    } else {
        insert_asc_s(ids.drop_last(), id).push(ids.last())
    }
}

/// The ids of `s` for which `keep` holds, ascending and without repetition.
pub open spec fn asc_s(s: Seq<u64>, keep: spec_fn(u64) -> bool) -> Seq<u64>
    decreases s.len(),
{
    if s.len() == 0 {
        Seq::empty()
    } else if keep(s.last()) {
        insert_asc_s(asc_s(s.drop_last(), keep), s.last())
    } else {
        asc_s(s.drop_last(), keep)
    }
}

pub open spec fn ascending_s(s: Seq<u64>) -> bool {
    forall|i: int, j: int| 0 <= i < j < s.len() ==> s[i] < s[j]
}

pub proof fn lemma_insert_asc(ids: Seq<u64>, id: u64)
    requires
        ascending_s(ids),
    ensures
        ascending_s(insert_asc_s(ids, id)),
        forall|x: u64| #[trigger] insert_asc_s(ids, id).contains(x) <==> ids.contains(x) || x == id,
    decreases ids.len(),
{
    if ids.len() == 0 {
        assert(insert_asc_s(ids, id)[0] == id);
    } else if ids.last() < id {
        let r = ids.push(id);
        assert(r[ids.len() as int] == id);
        assert forall|x: u64| #[trigger] r.contains(x) <==> ids.contains(x) || x == id by {
            if ids.contains(x) {
                let k = choose|k: int| 0 <= k < ids.len() && ids[k] == x;
                assert(r[k] == x);
            }
        }
    } else if ids.last() == id {
        assert(ids[ids.len() - 1] == id);
    } else {
        let head = ids.drop_last();
        lemma_insert_asc(head, id);
        let h = insert_asc_s(head, id);
        let r = h.push(ids.last());
        assert forall|i: int| 0 <= i < h.len() implies h[i] < ids.last() by {
            assert(h.contains(h[i]));
            if head.contains(h[i]) {
                let k = choose|k: int| 0 <= k < head.len() && head[k] == h[i];
                assert(ids[k] == h[i]);
            }
        }
        assert forall|x: u64| #[trigger] r.contains(x) <==> ids.contains(x) || x == id by {
            if ids.contains(x) {
                let k = choose|k: int| 0 <= k < ids.len() && ids[k] == x;
                if k < head.len() {
                    assert(head[k] == x);
                    assert(h.contains(x));
                    let j = choose|j: int| 0 <= j < h.len() && h[j] == x;
                    assert(r[j] == x);
                } else {
                    assert(r[h.len() as int] == x);
                }
            }
            if x == id {
                assert(h.contains(x));
                let j = choose|j: int| 0 <= j < h.len() && h[j] == x;
                assert(r[j] == x);
            }
            if r.contains(x) {
                let j = choose|j: int| 0 <= j < r.len() && r[j] == x;
                if j < h.len() {
                    assert(h[j] == x);
                    assert(h.contains(x));
                    if head.contains(x) {
                        let k = choose|k: int| 0 <= k < head.len() && head[k] == x;
                        assert(ids[k] == x);
                    }
                } else {
                    assert(ids[ids.len() - 1] == x);
                }
            }
        }
    }
}

pub proof fn lemma_asc(s: Seq<u64>, keep: spec_fn(u64) -> bool)
    ensures
        ascending_s(asc_s(s, keep)),
        forall|x: u64| #[trigger] asc_s(s, keep).contains(x) <==> s.contains(x) && keep(x),
    decreases s.len(),
{
    if s.len() > 0 {
        let head = s.drop_last();
        lemma_asc(head, keep);
        if keep(s.last()) {
            lemma_insert_asc(asc_s(head, keep), s.last());
        }
        assert forall|x: u64| #[trigger] asc_s(s, keep).contains(x) <==> s.contains(x) && keep(x) by {
            if s.contains(x) {
                let k = choose|k: int| 0 <= k < s.len() && s[k] == x;
                if k < head.len() {
                    assert(head[k] == x);
                }
            }
            if head.contains(x) {
                let k = choose|k: int| 0 <= k < head.len() && head[k] == x;
                assert(s[k] == x);
            }
            assert(s[s.len() - 1] == s.last());
        }
    }
}

pub(crate) fn insert_asc(ids: &mut Vec<u64>, id: u64)
    ensures
        final(ids)@ == insert_asc_s(old(ids)@, id),
{
    let ghost all = ids@;
    let mut i: usize = ids.len();
    assert(all.take(i as int) =~= all);
    assert(all.skip(i as int) =~= Seq::<u64>::empty());
    assert(insert_asc_s(all, id) =~= insert_asc_s(all.take(i as int), id) + all.skip(i as int));
    while i > 0 && ids[i - 1] > id
        invariant
            i <= all.len(),
            ids@ == all,
            insert_asc_s(all, id) == insert_asc_s(all.take(i as int), id) + all.skip(i as int),
        decreases i,
    {
        proof {
            let t = all.take(i as int);
            assert(t.last() == all[i - 1]);
            assert(t.drop_last() =~= all.take(i - 1));
            assert(insert_asc_s(t, id) == insert_asc_s(all.take(i - 1), id).push(all[i - 1]));
            assert(insert_asc_s(all.take(i - 1), id).push(all[i - 1]) + all.skip(i as int)
                =~= insert_asc_s(all.take(i - 1), id) + all.skip(i - 1));
        }
        i = i - 1;
    }
    if i > 0 && ids[i - 1] == id {
        proof {
            let t = all.take(i as int);
            assert(t.last() == id);
            assert(t + all.skip(i as int) =~= all);
        }
        return;
    }
    ids.insert(i, id);
    proof {
        let t = all.take(i as int);
        if i > 0 {
            assert(t.last() == all[i - 1]);
        }
        assert(insert_asc_s(t, id) =~= t.push(id));
        assert(ids@ =~= t.push(id) + all.skip(i as int));
    }
}

pub open spec fn bookmark_opens_at_s(ps: Seq<ParagraphV>, p: int, r: int) -> Seq<u64> {
    asc_s(ps[p].runs[r].bookmarks, |id: u64| first_marked_s(ps, Tag::Bookmark, p, r, id))
}

pub open spec fn bookmark_closes_at_s(ps: Seq<ParagraphV>, p: int, r: int) -> Seq<u64> {
    asc_s(ps[p].runs[r].bookmarks, |id: u64| last_marked_s(ps, Tag::Bookmark, p, r, id))
}

pub open spec fn bookmark_opens_s(ps: Seq<ParagraphV>) -> Seq<Seq<Seq<u64>>> {
    Seq::new(
        ps.len(),
        |p: int| Seq::new(ps[p].runs.len(), |r: int| bookmark_opens_at_s(ps, p, r)),
    )
}

pub open spec fn bookmark_closes_s(ps: Seq<ParagraphV>) -> Seq<Seq<Seq<u64>>> {
    Seq::new(
        ps.len(),
        |p: int| Seq::new(ps[p].runs.len(), |r: int| bookmark_closes_at_s(ps, p, r)),
    )
}

/// Per-run open and close tables for bookmark ranges. A bookmark is one range: it opens at
/// its first run in document order and closes at its last, over any gap between them.
pub fn bookmark_spans(paras: &Vec<Paragraph>) -> (g: (SpanGrid, SpanGrid))
    ensures
        grid_v(g.0@) == bookmark_opens_s(types::paragraph_vs(paras@)),
        grid_v(g.1@) == bookmark_closes_s(types::paragraph_vs(paras@)),
{
    let ghost v = types::paragraph_vs(paras@);
    let mut opens: SpanGrid = Vec::new();
    let mut closes: SpanGrid = Vec::new();
    let mut p: usize = 0;
    while p < paras.len()
        invariant
            p <= paras@.len(),
            v == types::paragraph_vs(paras@),
            opens@.len() == p,
            closes@.len() == p,
            forall|k: int| 0 <= k < p ==> row_v(#[trigger] opens@[k]@) == bookmark_opens_s(v)[k],
            forall|k: int| 0 <= k < p ==> row_v(#[trigger] closes@[k]@) == bookmark_closes_s(v)[k],
        decreases paras@.len() - p,
    {
        let mut orow: Vec<Vec<u64>> = Vec::new();
        let mut crow: Vec<Vec<u64>> = Vec::new();
        let mut r: usize = 0;
        while r < paras[p].runs.len()
            invariant
                p < paras@.len(),
                r <= paras@[p as int].runs@.len(),
                v == types::paragraph_vs(paras@),
                orow@.len() == r,
                crow@.len() == r,
                forall|k: int| 0 <= k < r ==> (#[trigger] orow@[k])@ == bookmark_opens_at_s(v, p as int, k),
                forall|k: int| 0 <= k < r ==> (#[trigger] crow@[k])@ == bookmark_closes_at_s(v, p as int, k),
            decreases paras@[p as int].runs@.len() - r,
        {
            let (o, c) = bookmarks_at(paras, p, r);
            orow.push(o);
            crow.push(c);
            r = r + 1;
        }
        proof {
            assert(v[p as int].runs.len() == paras@[p as int].runs@.len());
            assert(row_v(orow@) =~= bookmark_opens_s(v)[p as int]);
            assert(row_v(crow@) =~= bookmark_closes_s(v)[p as int]);
        }
        opens.push(orow);
        closes.push(crow);
        p = p + 1;
    }
    proof {
        assert(grid_v(opens@) =~= bookmark_opens_s(v));
        assert(grid_v(closes@) =~= bookmark_closes_s(v));
    }
    (opens, closes)
}

/// The bookmarks that open before, and close after, run `r` of paragraph `p`.
fn bookmarks_at(paras: &Vec<Paragraph>, p: usize, r: usize) -> (g: (Vec<u64>, Vec<u64>))
    requires
        p < paras@.len(),
        r < paras@[p as int].runs@.len(),
    ensures
        g.0@ == bookmark_opens_at_s(types::paragraph_vs(paras@), p as int, r as int),
        g.1@ == bookmark_closes_at_s(types::paragraph_vs(paras@), p as int, r as int),
{
    let ghost v = types::paragraph_vs(paras@);
    let ghost opening = |id: u64| first_marked_s(v, Tag::Bookmark, p as int, r as int, id);
    let ghost closing = |id: u64| last_marked_s(v, Tag::Bookmark, p as int, r as int, id);
    let ids = &paras[p].runs[r].bookmarks;
    assert(v[p as int].runs[r as int].bookmarks == ids@);
    let mut o: Vec<u64> = Vec::new();
    let mut c: Vec<u64> = Vec::new();
    let mut i: usize = 0;
    assert(ids@.take(0) =~= Seq::<u64>::empty());
    while i < ids.len()
        invariant
            i <= ids@.len(),
            p < paras@.len(),
            r < paras@[p as int].runs@.len(),
            v == types::paragraph_vs(paras@),
            ids@ == v[p as int].runs[r as int].bookmarks,
            opening == (|id: u64| first_marked_s(v, Tag::Bookmark, p as int, r as int, id)),
            closing == (|id: u64| last_marked_s(v, Tag::Bookmark, p as int, r as int, id)),
            o@ == asc_s(ids@.take(i as int), opening),
            c@ == asc_s(ids@.take(i as int), closing),
        decreases ids@.len() - i,
    {
        let id = ids[i];
        proof {
            assert(ids@.take(i + 1).drop_last() =~= ids@.take(i as int));
            assert(ids@.take(i + 1).last() == id);
            assert(ids@.contains(id));
            assert(v[p as int].runs.len() == paras@[p as int].runs@.len());
            assert(marked_s(v, Tag::Bookmark, p as int, r as int, id));
        }
        if is_first(paras, Tag::Bookmark, p, r, id) {
            insert_asc(&mut o, id);
        }
        if is_last(paras, Tag::Bookmark, p, r, id) {
            insert_asc(&mut c, id);
        }
        i = i + 1;
    }
    assert(ids@.take(i as int) =~= ids@);
    (o, c)
}

/// A bookmark opens before exactly the first run that carries it and closes after exactly
/// the last: one start and one end in the whole document.
pub proof fn law_bookmark_opens_and_closes_once(ps: Seq<ParagraphV>, p: int, r: int, id: u64)
    requires
        0 <= p < ps.len(),
        0 <= r < ps[p].runs.len(),
    ensures
        bookmark_opens_s(ps)[p][r].contains(id) <==> first_marked_s(ps, Tag::Bookmark, p, r, id),
        bookmark_closes_s(ps)[p][r].contains(id) <==> last_marked_s(ps, Tag::Bookmark, p, r, id),
        forall|q: int, t: int|
            first_marked_s(ps, Tag::Bookmark, p, r, id) && #[trigger] first_marked_s(ps, Tag::Bookmark, q, t, id) ==> p == q && r == t,
        forall|q: int, t: int|
            last_marked_s(ps, Tag::Bookmark, p, r, id) && #[trigger] last_marked_s(ps, Tag::Bookmark, q, t, id) ==> p == q && r == t,
        ascending_s(bookmark_opens_s(ps)[p][r]),
        ascending_s(bookmark_closes_s(ps)[p][r]),
{
    lemma_asc(ps[p].runs[r].bookmarks, |i: u64| first_marked_s(ps, Tag::Bookmark, p, r, i));
    lemma_asc(ps[p].runs[r].bookmarks, |i: u64| last_marked_s(ps, Tag::Bookmark, p, r, i));
    lemma_once(ps, Tag::Bookmark, p, r, id);
}

// ── moves ───────────────────────────────────────────────────────────────────

/// The move track a run carries, if any.
pub open spec fn run_move_s(run: RunV) -> Option<TrackV> {
    match run.track {
        Some(t) if t.kind.is_move_s() => Some(t),
        _ => None,
    }
}

pub(crate) fn run_move<'a>(run: &'a Run) -> (r: Option<&'a Track>)
    ensures
        match r {
            Some(t) => run_move_s(run@) == Some(t@),
            None => run_move_s(run@) is None,
        },
{
    match &run.track {
        Some(t) => {
            if t.kind.is_move() {
                Some(t)
            } else {
                None
            }
        },
        None => None,
    }
}

// ── id allocation ───────────────────────────────────────────────────────────

/// The first synthesized id, far above any id that a document carries.
pub const SYNTH_MARK_ID_BASE: u128 = 900_000_000;

/// The export-wide id allocator: every id it hands out is handed out once.
pub struct IdAlloc {
    next: u128,
    seen: Vec<u128>,
}

/// The mathematical value of an [`IdAlloc`]: the next candidate, and the ids handed out.
pub struct IdAllocV {
    pub next: nat,
    pub seen: Seq<u128>,
}

impl View for IdAlloc {
    type V = IdAllocV;

    closed spec fn view(&self) -> IdAllocV {
        IdAllocV { next: self.next as nat, seen: self.seen@ }
    }
}

impl IdAllocV {
    pub open spec fn initial() -> IdAllocV {
        IdAllocV { next: SYNTH_MARK_ID_BASE as nat, seen: Seq::empty() }
    }

    /// Every candidate passed over was handed out.
    pub open spec fn wf(self) -> bool {
        &&& SYNTH_MARK_ID_BASE <= self.next <= SYNTH_MARK_ID_BASE + self.seen.len()
        &&& forall|n: u128| SYNTH_MARK_ID_BASE <= n < self.next ==> #[trigger] self.seen.contains(n)
    }

    /// Whether `n` is the first candidate that was not handed out.
    pub open spec fn is_free(self, n: u128) -> bool {
        &&& self.next <= n
        &&& !self.seen.contains(n)
        &&& forall|m: u128| self.next <= m < n ==> #[trigger] self.seen.contains(m)
    }

    /// A synthesized id, and the allocator after it.
    pub open spec fn fresh(self) -> (u128, IdAllocV) {
        let n = choose|n: u128| self.is_free(n);
        (n, IdAllocV { next: (n + 1) as nat, seen: self.seen.push(n) })
    }

    /// `id` itself the first time, a synthesized id after that.
    pub open spec fn wrapper(self, id: u64) -> (u128, IdAllocV) {
        if self.seen.contains(id as u128) {
            self.fresh()
        } else {
            (id as u128, IdAllocV { next: self.next, seen: self.seen.push(id as u128) })
        }
    }
}

/// Pigeonhole: a run of ids all of which occur in `seen` is no longer than `seen`.
proof fn lemma_run_fits(seen: Seq<u128>, lo: nat, hi: nat)
    requires
        lo <= hi,
        hi <= u128::MAX,
        forall|n: u128| lo <= n < hi ==> #[trigger] seen.contains(n),
    ensures
        hi - lo <= seen.len(),
    decreases hi - lo,
{
    if lo < hi {
        let top = (hi - 1) as u128;
        assert(seen.contains(top));
        let k = choose|k: int| 0 <= k < seen.len() && seen[k] == top;
        let rest = seen.remove(k);
        assert forall|n: u128| lo <= n < hi - 1 implies #[trigger] rest.contains(n) by {
            assert(seen.contains(n));
            let j = choose|j: int| 0 <= j < seen.len() && seen[j] == n;
            if j < k {
                assert(rest[j] == n);
            } else {
                assert(rest[j - 1] == n);
            }
        }
        lemma_run_fits(rest, lo, (hi - 1) as nat);
    }
}

proof fn lemma_push_keeps(s: Seq<u128>, x: u128)
    ensures
        forall|n: u128| #[trigger] s.push(x).contains(n) <==> s.contains(n) || n == x,
{
    assert forall|n: u128| #[trigger] s.push(x).contains(n) <==> s.contains(n) || n == x by {
        if s.contains(n) {
            let k = choose|k: int| 0 <= k < s.len() && s[k] == n;
            assert(s.push(x)[k] == n);
        }
        assert(s.push(x)[s.len() as int] == x);
    }
}

impl IdAlloc {
    pub fn new() -> (r: Self)
        ensures
            r@ == IdAllocV::initial(),
            r@.wf(),
    {
        let r = IdAlloc { next: SYNTH_MARK_ID_BASE, seen: Vec::new() };
        assert(r.seen@ =~= Seq::<u128>::empty());
        r
    }

    fn is_seen(&self, id: u128) -> (r: bool)
        ensures
            r == self@.seen.contains(id),
    {
        let mut i: usize = 0;
        while i < self.seen.len()
            invariant
                i <= self.seen@.len(),
                forall|j: int| 0 <= j < i ==> self.seen@[j] != id,
            decreases self.seen@.len() - i,
        {
            if self.seen[i] == id {
                assert(self.seen@[i as int] == id);
                return true;
            }
            i = i + 1;
        }
        false
    }

    /// A synthesized id that was not handed out before.
    pub(crate) fn fresh(&mut self) -> (r: u128)
        requires
            old(self)@.wf(),
        ensures
            (r, final(self)@) == old(self)@.fresh(),
            old(self)@.is_free(r),
            final(self)@.seen.contains(r),
            final(self)@.wf(),
    {
        let ghost start = self@;
        let len: usize = self.seen.len();
        while self.is_seen(self.next)
            invariant
                self@.seen == start.seen,
                start.wf(),
                len == start.seen.len(),
                start.next <= self.next <= SYNTH_MARK_ID_BASE + len,
                forall|m: u128| start.next <= m < self.next ==> #[trigger] start.seen.contains(m),
            decreases SYNTH_MARK_ID_BASE + len + 1 - self.next,
        {
            proof {
                let hi = (self.next + 1) as nat;
                assert forall|n: u128| SYNTH_MARK_ID_BASE <= n < hi implies #[trigger] start.seen.contains(n) by {}
                lemma_run_fits(start.seen, SYNTH_MARK_ID_BASE as nat, hi);
            }
            self.next = self.next + 1;
        }
        let n = self.next;
        proof {
            assert(start.is_free(n));
            let c = choose|c: u128| start.is_free(c);
            assert(start.is_free(c));
            assert(c == n) by {
                if c < n {
                    assert(start.seen.contains(c));
                }
                if n < c {
                    assert(start.seen.contains(n));
                }
            }
            lemma_push_keeps(start.seen, n);
            assert(n + 1 <= SYNTH_MARK_ID_BASE + len + 1);
        }
        self.seen.push(n);
        self.next = n + 1;
        n
    }

    /// The id of a revision element: the source id the first time, a synthesized one after.
    pub(crate) fn wrapper(&mut self, id: u64) -> (r: u128)
        requires
            old(self)@.wf(),
        ensures
            (r, final(self)@) == old(self)@.wrapper(id),
            !old(self)@.seen.contains(r),
            final(self)@.seen.contains(r),
            final(self)@.wf(),
    {
        if self.is_seen(id as u128) {
            self.fresh()
        } else {
            proof {
                lemma_push_keeps(self@.seen, id as u128);
            }
            self.seen.push(id as u128);
            id as u128
        }
    }
}

/// While a machine holds the ids that were given, there is a next one.
proof fn lemma_some_free(a: IdAllocV, c: u128)
    requires
        a.wf(),
        a.seen.len() <= usize::MAX,
        a.next <= c <= SYNTH_MARK_ID_BASE + a.seen.len(),
        forall|m: u128| a.next <= m < c ==> #[trigger] a.seen.contains(m),
    ensures
        exists|n: u128| a.is_free(n),
    decreases SYNTH_MARK_ID_BASE + a.seen.len() + 1 - c,
{
    if a.seen.contains(c) {
        let hi = (c + 1) as nat;
        assert forall|n: u128| SYNTH_MARK_ID_BASE <= n < hi implies #[trigger] a.seen.contains(n) by {}
        lemma_run_fits(a.seen, SYNTH_MARK_ID_BASE as nat, hi);
        lemma_some_free(a, (c + 1) as u128);
    } else {
        assert(a.is_free(c));
    }
}

/// An allocator never hands out an id twice: what it gives was not given before, and counts
/// as given from then on.
pub proof fn law_ids_are_handed_out_once(a: IdAllocV, id: u64)
    requires
        a.wf(),
        a.seen.len() <= usize::MAX,
    ensures
        !a.seen.contains(a.fresh().0),
        a.fresh().1.seen.contains(a.fresh().0),
        !a.seen.contains(a.wrapper(id).0),
        a.wrapper(id).1.seen.contains(a.wrapper(id).0),
        forall|x: u128| a.seen.contains(x) ==> #[trigger] a.wrapper(id).1.seen.contains(x),
{
    lemma_some_free(a, a.next as u128);
    let c = choose|c: u128| a.is_free(c);
    assert(a.is_free(c));
    lemma_push_keeps(a.seen, c);
    lemma_push_keeps(a.seen, id as u128);
    assert(a.fresh().1.seen.contains(c));
    assert(a.seen.push(id as u128).contains(id as u128));
}

} // verus!
