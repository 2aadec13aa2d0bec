//! The regions of tracked changes are where the tracked characters are.

use vstd::prelude::*;
use crate::edits;
use crate::import;
use crate::revisions;
use crate::revisions::TrackedRegionV;
use crate::selecting;
use crate::selecting::stands_in_s;
use crate::types::{ParagraphV, RunV, TrackKind};
use crate::writing;

verus! {

broadcast use vstd::string::group_string_axioms;

/// Whether a run is under a change: an insertion, a deletion or a move, or, where it is under none of
/// these, a change of its formatting.
pub open spec fn under_s(r: RunV, kind: TrackKind, id: u64) -> bool {
    match r.track {
        Some(t) => t.kind == kind && t.id == id,
        None => kind == TrackKind::Fmt && (r.fmt_change matches Some(c) && c.id == id),
    }
}

/// Whether character `k` of a paragraph is under a change.
pub open spec fn char_under_s(v: Seq<RunV>, k: int, kind: TrackKind, id: u64) -> bool {
    exists|i: int| #[trigger] stands_in_s(v, i, k) && under_s(v[i], kind, id)
}

/// Whether a region holds character `k`.
pub open spec fn holds_s(g: TrackedRegionV, k: int) -> bool {
    g.start <= k < g.end
}

/// Whether a region is of a change.
pub open spec fn of_s(g: TrackedRegionV, kind: TrackKind, id: u64) -> bool {
    g.track.kind == kind && g.track.id == id
}

spec fn found_s(v: Seq<RunV>, g: Seq<TrackedRegionV>, n: nat) -> bool {
    forall|i: int, k: int, kind: TrackKind, id: u64|
        i < n && #[trigger] stands_in_s(v, i, k) && #[trigger] under_s(v[i], kind, id) ==> exists|j: int|
            0 <= j < g.len() && #[trigger] holds_s(g[j], k) && of_s(g[j], kind, id)
}

spec fn sound_s(v: Seq<RunV>, g: Seq<TrackedRegionV>) -> bool {
    forall|j: int, k: int|
        0 <= j < g.len() && #[trigger] holds_s(g[j], k) ==> char_under_s(
            v,
            k,
            g[j].track.kind,
            g[j].track.id,
        )
}

spec fn spelled_s(v: Seq<RunV>, g: Seq<TrackedRegionV>, n: nat) -> bool {
    forall|j: int|
        0 <= j < g.len() ==> (#[trigger] g[j]).start <= g[j].end <= import::runs_len_s(v, n)
            && g[j].text == writing::joined_s(v, n).subrange(g[j].start as int, g[j].end as int)
}

proof fn lemma_joined_len(v: Seq<RunV>, n: nat)
    ensures
        writing::joined_s(v, n).len() == import::runs_len_s(v, n),
    decreases n,
{
    if n > 0 {
        lemma_joined_len(v, (n - 1) as nat);
    }
}

proof fn lemma_aspect(r: RunV)
    ensures
        revisions::aspect_s(r) is None ==> forall|kind: TrackKind, id: u64| !#[trigger] under_s(r, kind, id),
        revisions::aspect_s(r) matches Some(t) ==> forall|kind: TrackKind, id: u64| #[trigger]
            under_s(r, kind, id) == (t.kind == kind && t.id == id),
{
}

proof fn lemma_spelled(v: Seq<RunV>, n: nat)
    requires
        n <= v.len(),
        import::runs_len_s(v, v.len()) <= usize::MAX,
    ensures
        spelled_s(v, revisions::regions_s(v, n), n),
    decreases n,
{
    if n > 0 {
        let m = (n - 1) as nat;
        lemma_spelled(v, m);
        lemma_joined_len(v, m);
        lemma_joined_len(v, n);
        selecting::lemma_len_grows(v, m, v.len());
        selecting::lemma_len_grows(v, n, v.len());
        let a = revisions::regions_s(v, m);
        let g = revisions::regions_s(v, n);
        let x = writing::joined_s(v, m);
        let y = writing::joined_s(v, n);
        let w = v[m as int].text;
        assert(y == x + w);
        let from = x.len() as int;
        let to = y.len() as int;
        assert(edits::offset_s(v, m) == from && edits::offset_s(v, n) == to);
        assert forall|j: int| 0 <= j < g.len() implies (#[trigger] g[j]).start <= g[j].end
            <= import::runs_len_s(v, n) && g[j].text == y.subrange(g[j].start as int, g[j].end as int) by {
            if j < a.len() {
                let b = a[j];
                assert(b.text == x.subrange(b.start as int, b.end as int));
                assert(x.subrange(b.start as int, b.end as int) =~= y.subrange(
                    b.start as int,
                    b.end as int,
                ));
                if g[j] != b {
                    assert(b.text + w =~= y.subrange(b.start as int, to));
                }
            } else {
                assert(w =~= y.subrange(from, to));
            }
        }
    }
}

proof fn lemma_found(v: Seq<RunV>, n: nat)
    requires
        n <= v.len(),
        import::runs_len_s(v, v.len()) <= usize::MAX,
    ensures
        found_s(v, revisions::regions_s(v, n), n),
        sound_s(v, revisions::regions_s(v, n)),
    decreases n,
{
    if n > 0 {
        let m = (n - 1) as nat;
        lemma_found(v, m);
        lemma_spelled(v, m);
        selecting::lemma_len_grows(v, m, v.len());
        selecting::lemma_len_grows(v, n, v.len());
        let r = v[m as int];
        lemma_aspect(r);
        let a = revisions::regions_s(v, m);
        let g = revisions::regions_s(v, n);
        let from = import::runs_len_s(v, m) as int;
        let to = import::runs_len_s(v, n) as int;
        assert(edits::offset_s(v, m) == from && edits::offset_s(v, n) == to);
        assert forall|i: int, k: int, kind: TrackKind, id: u64|
            i < n && #[trigger] stands_in_s(v, i, k) && #[trigger] under_s(v[i], kind, id) implies exists|
            j: int,
        | 0 <= j < g.len() && #[trigger] holds_s(g[j], k) && of_s(g[j], kind, id) by {
            if i < m {
                let j = choose|j: int|
                    0 <= j < a.len() && #[trigger] holds_s(a[j], k) && of_s(a[j], kind, id);
                assert(a[j].end <= from);
                assert(holds_s(g[j], k) && of_s(g[j], kind, id));
            } else {
                let j = g.len() - 1;
                assert(holds_s(g[j], k) && of_s(g[j], kind, id));
            }
        }
        assert forall|j: int, k: int| 0 <= j < g.len() && #[trigger] holds_s(g[j], k) implies char_under_s(
            v,
            k,
            g[j].track.kind,
            g[j].track.id,
        ) by {
            if j < a.len() && holds_s(a[j], k) {
                assert(char_under_s(v, k, a[j].track.kind, a[j].track.id));
            } else {
                assert(from <= k < to);
                assert(stands_in_s(v, m as int, k) && under_s(r, g[j].track.kind, g[j].track.id));
            }
        }
    }
}

/// The tracked regions of a paragraph are where its tracked characters are: a character under a
/// change stands in a region of that change; each character of a region is under its change; and the
/// text of a region is that of the paragraph from its start to its end.
pub proof fn law_regions_hold_the_tracked_characters(v: Seq<RunV>)
    requires
        import::runs_len_s(v, v.len()) <= usize::MAX,
    ensures
        ({
            let g = revisions::regions_s(v, v.len());
            &&& forall|k: int, kind: TrackKind, id: u64| #[trigger]
                char_under_s(v, k, kind, id) ==> exists|j: int|
                    0 <= j < g.len() && #[trigger] holds_s(g[j], k) && of_s(g[j], kind, id)
            &&& forall|j: int, k: int|
                0 <= j < g.len() && #[trigger] holds_s(g[j], k) ==> char_under_s(
                    v,
                    k,
                    g[j].track.kind,
                    g[j].track.id,
                )
            &&& forall|j: int|
                0 <= j < g.len() ==> (#[trigger] g[j]).text == writing::run_text_s(v).subrange(
                    g[j].start as int,
                    g[j].end as int,
                )
        }),
{
    lemma_found(v, v.len());
    lemma_spelled(v, v.len());
}

proof fn lemma_holding(g: Seq<TrackedRegionV>, off: usize, from: int)
    requires
        0 <= from <= g.len(),
    ensures
        match revisions::holding_s(g, off, from) {
            Some(r) => exists|j: int| from <= j < g.len() && g[j] == r && #[trigger] holds_s(g[j], off as int),
            None => forall|j: int| from <= j < g.len() ==> !#[trigger] holds_s(g[j], off as int),
        },
    decreases g.len() - from,
{
    if from < g.len() {
        lemma_holding(g, off, from + 1);
        if g[from].start <= off < g[from].end {
            assert(holds_s(g[from], off as int));
        }
    }
}

/// Whether the characters of a region are under its change, and its text is theirs.
pub open spec fn region_of_s(v: Seq<RunV>, r: TrackedRegionV) -> bool {
    &&& forall|k: int| r.start <= k < r.end ==> #[trigger] char_under_s(v, k, r.track.kind, r.track.id)
    &&& r.text == writing::run_text_s(v).subrange(r.start as int, r.end as int)
}

/// At a character under a change, the change that is found is that one, with the characters that it
/// covers around it.
pub proof fn law_change_at_a_character_is_its_own(p: ParagraphV, off: usize, kind: TrackKind, id: u64)
    requires
        import::runs_len_s(p.runs, p.runs.len()) <= usize::MAX,
        char_under_s(p.runs, off as int, kind, id),
    ensures
        revisions::track_at_s(p, off) matches Some(r) && of_s(r, kind, id) && holds_s(r, off as int)
            && region_of_s(p.runs, r),
{
    let v = p.runs;
    law_regions_hold_the_tracked_characters(v);
    let g = revisions::regions_s(v, v.len());
    lemma_holding(g, off, 0);
    let j0 = choose|j: int| 0 <= j < g.len() && #[trigger] holds_s(g[j], off as int) && of_s(g[j], kind, id);
    let r = revisions::holding_s(g, off, 0)->0;
    let j = choose|j: int| 0 <= j < g.len() && g[j] == r && #[trigger] holds_s(g[j], off as int);
    lemma_one_change(v, off as int, kind, id, r.track.kind, r.track.id);
    assert forall|k: int| r.start <= k < r.end implies #[trigger] char_under_s(
        v,
        k,
        r.track.kind,
        r.track.id,
    ) by {
        assert(holds_s(g[j], k));
    }
}

/// A character is under one change at most.
proof fn lemma_one_change(v: Seq<RunV>, k: int, a: TrackKind, x: u64, b: TrackKind, y: u64)
    requires
        char_under_s(v, k, a, x),
        char_under_s(v, k, b, y),
    ensures
        a == b,
        x == y,
{
    let i = choose|i: int| #[trigger] stands_in_s(v, i, k) && under_s(v[i], a, x);
    let j = choose|j: int| #[trigger] stands_in_s(v, j, k) && under_s(v[j], b, y);
    if i < j {
        selecting::lemma_len_grows(v, (i + 1) as nat, j as nat);
    } else if j < i {
        selecting::lemma_len_grows(v, (j + 1) as nat, i as nat);
    }
}

} // verus!
