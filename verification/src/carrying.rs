//! What a move brings to its new place.

use vstd::prelude::*;
use crate::doc;
use crate::doc::DocV;
use crate::edits;
use crate::import;
use crate::moving;
use crate::read;
use crate::reverting;
use crate::revisions;
use crate::runback;
use crate::splitting;
use crate::store;
use crate::store::{BlockId, CharV};
use crate::types::{RunV, TrackKind, TrackV};
use crate::writing;

verus! {

// ---------------------------------------------------------------- a range of runs

/// Whether two characters, each as a run, are the same and look the same.
pub open spec fn same_look_s(a: RunV, b: RunV) -> bool {
    &&& a.text == b.text
    &&& a.bold == b.bold
    &&& a.italic == b.italic
    &&& a.underline == b.underline
    &&& a.strike == b.strike
    &&& a.size == b.size
    &&& a.color == b.color
    &&& a.font == b.font
    &&& a.highlight == b.highlight
    &&& a.vert_align == b.vert_align
    &&& a.lang == b.lang
    &&& a.char_style == b.char_style
    &&& a.shading == b.shading
}

/// Whether a run has nothing but its text and its look.
pub open spec fn only_look_s(r: RunV) -> bool {
    &&& r.track is None
    &&& r.fmt_change is None
    &&& r.comments.len() == 0
    &&& r.field is None
    &&& r.bookmarks.len() == 0
    &&& r.point_bookmarks.len() == 0
    &&& r.end_point_bookmarks.len() == 0
    &&& r.link is None
    &&& r.image is None
    &&& r.raw is None
}

spec fn least_s(a: int, b: int) -> int {
    if a < b {
        a
    } else {
        b
    }
}

proof fn lemma_spread_len(v: Seq<RunV>, n: nat)
    requires
        n <= v.len(),
    ensures
        runback::spread_s(v, n).len() == import::runs_len_s(v, n),
    decreases n,
{
    if n > 0 {
        lemma_spread_len(v, (n - 1) as nat);
    }
}

proof fn lemma_offsets(v: Seq<RunV>, n: nat, m: nat)
    requires
        n <= m <= v.len(),
    ensures
        import::runs_len_s(v, n) <= import::runs_len_s(v, m),
    decreases m,
{
    if n < m {
        lemma_offsets(v, n, (m - 1) as nat);
    }
}

proof fn lemma_spread_push(v: Seq<RunV>, r: RunV)
    ensures
        runback::spread_s(v.push(r), (v.len() + 1) as nat) == runback::spread_s(v, v.len())
            + Seq::new(r.text.len(), |i: int| runback::one_s(r, i)),
{
    runback::lemma_spread_prefix(v, v.push(r), v.len());
    assert(v.push(r)[v.len() as int] == r);
}

/// Whether the characters of `w` are the characters `from..to` of `v`, with their look alone.
pub open spec fn holds_range_s(w: Seq<RunV>, v: Seq<RunV>, from: int, to: int) -> bool {
    let a = runback::spread_s(w, w.len());
    let b = runback::spread_s(v, v.len());
    &&& a.len() == to - from
    &&& forall|i: int| 0 <= i < to - from ==> same_look_s(#[trigger] a[i], b[from + i])
    &&& forall|i: int| 0 <= i < a.len() ==> only_look_s(#[trigger] a[i])
}

proof fn lemma_slice(v: Seq<RunV>, start: usize, end: usize, n: nat)
    requires
        n <= v.len(),
        start <= end,
        import::runs_len_s(v, v.len()) <= usize::MAX,
    ensures
        ({
            let w = revisions::slice_s(v, start, end, n);
            let a = runback::spread_s(w, w.len());
            let b = runback::spread_s(v, n);
            let from = least_s(start as int, b.len() as int);
            let to = least_s(end as int, b.len() as int);
            &&& a.len() == to - from
            &&& forall|i: int| 0 <= i < to - from ==> same_look_s(#[trigger] a[i], b[from + i])
            &&& forall|i: int| 0 <= i < a.len() ==> only_look_s(#[trigger] a[i])
        }),
    decreases n,
{
    if n > 0 {
        let m = (n - 1) as nat;
        lemma_slice(v, start, end, m);
        lemma_spread_len(v, m);
        lemma_spread_len(v, n);
        lemma_offsets(v, n, v.len());
        let r = v[n - 1];
        let at = edits::offset_s(v, m);
        let from = revisions::max_s(at, start);
        let to = revisions::min_s(edits::offset_s(v, n), end);
        let had = revisions::slice_s(v, start, end, m);
        let now = revisions::slice_s(v, start, end, n);
        let a0 = runback::spread_s(had, had.len());
        let a = runback::spread_s(now, now.len());
        let b0 = runback::spread_s(v, m);
        let b = runback::spread_s(v, n);
        let lo = least_s(start as int, b.len() as int);
        let hi = least_s(end as int, b.len() as int);
        let lo0 = least_s(start as int, b0.len() as int);
        if from < to {
            let c = revisions::clean_run_s(r, r.text.subrange(from - at, to - at));
            lemma_spread_push(had, c);
            let ones = Seq::new(c.text.len(), |i: int| runback::one_s(c, i));
            assert(a == a0 + ones);
            assert forall|i: int| 0 <= i < a.len() implies only_look_s(#[trigger] a[i]) && same_look_s(
                a[i],
                b[lo + i],
            ) by {
                if i < a0.len() {
                    assert(a[i] == a0[i]);
                    assert(b[lo + i] == b0[lo0 + i]);
                } else {
                    let j = i - a0.len();
                    assert(a[i] == runback::one_s(c, j));
                    assert(b[lo + i] == runback::one_s(r, from - at + j));
                }
            }
        } else {
            assert forall|i: int| 0 <= i < a.len() implies same_look_s(#[trigger] a[i], b[lo + i]) by {
                assert(b[lo + i] == b0[lo0 + i]);
            }
        }
    }
}

/// A range cut from runs holds the characters of the range, each with the look it had and nothing
/// else of its run.
pub proof fn law_cut_runs_hold_the_range(v: Seq<RunV>, start: usize, end: usize)
    requires
        start <= end <= import::runs_len_s(v, v.len()) <= usize::MAX,
    ensures
        holds_range_s(revisions::slice_s(v, start, end, v.len()), v, start as int, end as int),
{
    lemma_slice(v, start, end, v.len());
    lemma_spread_len(v, v.len());
}

// ---------------------------------------------------------------- the text of a range

proof fn lemma_spread_text(v: Seq<RunV>, n: nat)
    requires
        n <= v.len(),
    ensures
        runback::spread_s(v, n).len() == writing::joined_s(v, n).len(),
        forall|i: int|
            0 <= i < writing::joined_s(v, n).len() ==> (#[trigger] runback::spread_s(v, n)[i]).text
                == seq![writing::joined_s(v, n)[i]],
    decreases n,
{
    if n > 0 {
        lemma_spread_text(v, (n - 1) as nat);
        let a = runback::spread_s(v, n);
        let m = writing::joined_s(v, (n - 1) as nat);
        assert forall|i: int| 0 <= i < writing::joined_s(v, n).len() implies (#[trigger] a[i]).text
            == seq![writing::joined_s(v, n)[i]] by {
            if i < m.len() {
                assert(a[i] == runback::spread_s(v, (n - 1) as nat)[i]);
            } else {
                assert(a[i] == runback::one_s(v[n - 1], i - m.len()));
            }
        }
    }
}

proof fn lemma_range_text(w: Seq<RunV>, v: Seq<RunV>, from: int, to: int)
    requires
        holds_range_s(w, v, from, to),
        0 <= from <= to <= writing::run_text_s(v).len(),
    ensures
        writing::run_text_s(w) == writing::run_text_s(v).subrange(from, to),
{
    lemma_spread_text(w, w.len());
    lemma_spread_text(v, v.len());
    let a = runback::spread_s(w, w.len());
    let b = runback::spread_s(v, v.len());
    let x = writing::run_text_s(w);
    let y = writing::run_text_s(v);
    assert forall|i: int| 0 <= i < x.len() implies #[trigger] x[i] == y.subrange(from, to)[i] by {
        assert(same_look_s(a[i], b[from + i]));
        assert(a[i].text == seq![x[i]]);
        assert(b[from + i].text == seq![y[from + i]]);
        assert(seq![x[i]][0] == seq![y[from + i]][0]);
    }
    assert(x =~= y.subrange(from, to));
}

proof fn lemma_tagged_spread(v: Seq<RunV>, t: TrackV, n: nat)
    requires
        n <= v.len(),
    ensures
        runback::spread_s(revisions::tagged_s(v, t), n).len() == runback::spread_s(v, n).len(),
        forall|i: int|
            0 <= i < runback::spread_s(v, n).len() ==> #[trigger] runback::spread_s(
                revisions::tagged_s(v, t),
                n,
            )[i] == (RunV { track: Some(t), ..runback::spread_s(v, n)[i] }),
    decreases n,
{
    if n > 0 {
        lemma_tagged_spread(v, t, (n - 1) as nat);
        let w = revisions::tagged_s(v, t);
        let a = runback::spread_s(w, n);
        let b = runback::spread_s(v, n);
        let m = runback::spread_s(v, (n - 1) as nat);
        assert forall|i: int| 0 <= i < b.len() implies #[trigger] a[i] == (RunV {
            track: Some(t),
            ..b[i]
        }) by {
            if i < m.len() {
                assert(a[i] == runback::spread_s(w, (n - 1) as nat)[i]);
                assert(b[i] == m[i]);
            } else {
                assert(a[i] == runback::one_s(w[n - 1], i - m.len()));
                assert(b[i] == runback::one_s(v[n - 1], i - m.len()));
            }
        }
    }
}

proof fn lemma_tagged_text(v: Seq<RunV>, t: TrackV, n: nat)
    requires
        n <= v.len(),
    ensures
        writing::joined_s(revisions::tagged_s(v, t), n) == writing::joined_s(v, n),
    decreases n,
{
    if n > 0 {
        lemma_tagged_text(v, t, (n - 1) as nat);
    }
}

// ---------------------------------------------------------------- runs written into a text

/// The text `t` holds what the runs spell from `start` on, with no attributes.
spec fn bare_at_s(t: Seq<CharV>, start: int, v: Seq<RunV>) -> bool {
    let w = writing::run_text_s(v);
    &&& 0 <= start
    &&& start + w.len() <= t.len()
    &&& forall|i: int|
        0 <= i < w.len() ==> #[trigger] t[start + i] == store::char_s(w[i], store::no_props_s())
}

proof fn lemma_dressed(t: Seq<CharV>, start: int, v: Seq<RunV>, n: nat)
    requires
        n <= v.len(),
        bare_at_s(t, start, v),
    ensures
        writing::dressed_s(t, start, v, n).len() == t.len(),
        forall|i: int|
            start + writing::joined_s(v, n).len() <= i < t.len() ==> #[trigger] writing::dressed_s(
                t,
                start,
                v,
                n,
            )[i] == t[i],
        forall|i: int| 0 <= i < t.len() ==> (#[trigger] writing::dressed_s(t, start, v, n)[i]).c
            == t[i].c,
        forall|i: int|
            0 <= i < start ==> #[trigger] writing::dressed_s(t, start, v, n)[i] == t[i],
    decreases n,
{
    if n > 0 {
        lemma_dressed(t, start, v, (n - 1) as nat);
        let r = writing::dressed_s(t, start, v, (n - 1) as nat);
        let from = start + writing::joined_s(v, (n - 1) as nat).len();
        let marks = writing::run_marks_s(v[n - 1]);
        runback::lemma_marked(r, from, from + v[n - 1].text.len(), marks, marks.len());
        let w = writing::dressed_s(t, start, v, n);
        assert forall|i: int| 0 <= i < t.len() implies (#[trigger] w[i]).c == t[i].c && (i < start
            || i >= start + writing::joined_s(v, n).len() ==> w[i] == t[i]) by {
            assert(r[i].c == t[i].c);
        }
    }
}

proof fn lemma_joined_at(v: Seq<RunV>, n: nat, m: nat, i: int)
    requires
        n <= m <= v.len(),
        0 <= i < writing::joined_s(v, n).len(),
    ensures
        i < writing::joined_s(v, m).len(),
        writing::joined_s(v, m)[i] == writing::joined_s(v, n)[i],
    decreases m,
{
    if n < m {
        lemma_joined_at(v, n, (m - 1) as nat, i);
    }
}

proof fn lemma_dressed_stays(t: Seq<CharV>, start: int, v: Seq<RunV>, n: nat, m: nat, i: int)
    requires
        n <= m <= v.len(),
        bare_at_s(t, start, v),
        0 <= i < writing::joined_s(v, n).len(),
    ensures
        writing::dressed_s(t, start, v, m)[start + i] == writing::dressed_s(t, start, v, n)[start
            + i],
    decreases m,
{
    if n < m {
        lemma_dressed_stays(t, start, v, n, (m - 1) as nat, i);
        lemma_dressed(t, start, v, (m - 1) as nat);
        lemma_joined_at(v, n, (m - 1) as nat, i);
        lemma_joined_at(v, (m - 1) as nat, v.len(), i);
        let r = writing::dressed_s(t, start, v, (m - 1) as nat);
        let from = start + writing::joined_s(v, (m - 1) as nat).len();
        let marks = writing::run_marks_s(v[m - 1]);
        runback::lemma_marked(r, from, from + v[m - 1].text.len(), marks, marks.len());
    }
}

/// The characters of runs that were written into a text read as those of the runs.
proof fn lemma_written(t: Seq<CharV>, start: int, v: Seq<RunV>, n: nat)
    requires
        n <= v.len(),
        bare_at_s(t, start, v),
        runback::all_of_text_s(v),
        writing::runs_read_s(v, v.len()),
    ensures
        runback::spread_s(runback::all_settled_s(v), n).len() == writing::joined_s(v, n).len(),
        forall|i: int|
            0 <= i < writing::joined_s(v, n).len() ==> #[trigger] runback::spread_s(
                runback::all_settled_s(v),
                n,
            )[i] == runback::read_s(writing::dressed_s(t, start, v, v.len())[start + i]),
    decreases n,
{
    if n > 0 {
        lemma_written(t, start, v, (n - 1) as nat);
        let w = runback::all_settled_s(v);
        let r = v[n - 1];
        let from = writing::joined_s(v, (n - 1) as nat).len() as int;
        assert(w[n - 1] == runback::settled_s(r));
        assert forall|i: int| 0 <= i < writing::joined_s(v, n).len() implies #[trigger] runback::spread_s(
            w,
            n,
        )[i] == runback::read_s(writing::dressed_s(t, start, v, v.len())[start + i]) by {
            if i >= from {
                lemma_joined_at(v, n, v.len(), i);
                lemma_dressed(t, start, v, (n - 1) as nat);
                lemma_dressed_stays(t, start, v, n, v.len(), i);
                let before = writing::dressed_s(t, start, v, (n - 1) as nat);
                let marks = writing::run_marks_s(r);
                runback::lemma_marked(
                    before,
                    start + from,
                    start + from + r.text.len(),
                    marks,
                    marks.len(),
                );
                let c = r.text[i - from];
                assert(writing::run_text_s(v)[i] == c);
                assert(before[start + i] == t[start + i]);
                assert(t[start + i] == store::char_s(c, store::no_props_s()));
                assert(writing::run_reads_s(r)) by {
                    reveal(writing::runs_read_s);
                    assert(v[n - 1].text.len() > 0);
                }
                assert(runback::of_text_s(v[n - 1].track));
                runback::lemma_run_reads(r, seq![c]);
                assert(runback::spread_s(w, n)[i] == runback::one_s(w[n - 1], i - from));
            } else {
                assert(runback::spread_s(w, n)[i] == runback::spread_s(w, (n - 1) as nat)[i]);
            }
        }
    }
}

// ---------------------------------------------------------------- moves

/// Whether `e` has the move of `start..end` of one block's text to `pos` of another's.
pub open spec fn brought_s(
    d: DocV,
    from: BlockId,
    start: usize,
    end: usize,
    to: BlockId,
    pos: usize,
    author: Seq<char>,
    date: Seq<char>,
    id: u64,
    mid: DocV,
    e: DocV,
) -> bool {
    &&& d.s.texts.contains_key(from)
    &&& d.s.texts.contains_key(to)
    &&& doc::text_s(d, from).len() <= usize::MAX
    &&& revisions::move_done_s(
        d,
        from,
        start,
        end,
        read::runs_of_s(d, from),
        to,
        pos,
        author,
        date,
        id,
        mid,
        e,
    )
}

/// The runs that a suggested move writes hold the range that is moved.
proof fn lemma_moved_runs(d: DocV, from: BlockId, start: usize, end: usize)
    requires
        d.s.texts.contains_key(from),
        start <= end <= doc::text_s(d, from).len() <= usize::MAX,
    ensures
        ({
            let v = read::runs_of_s(d, from);
            let w = revisions::slice_s(v, start, end, v.len());
            &&& holds_range_s(w, v, start as int, end as int)
            &&& writing::run_text_s(w) == splitting::words_s(d, from).subrange(
                start as int,
                end as int,
            )
            &&& runback::spread_s(v, v.len()) == runback::read_all_s(doc::text_s(d, from))
        }),
{
    let v = read::runs_of_s(d, from);
    let segs = d.s.texts[from];
    reverting::lemma_runs_len(segs, segs.len());
    law_cut_runs_hold_the_range(v, start, end);
    splitting::law_read_runs_spell_the_text(d, from);
    lemma_range_text(revisions::slice_s(v, start, end, v.len()), v, start as int, end as int);
    runback::lemma_spread_read(segs, segs.len());
}

/// The letters of a text with another spliced in.
proof fn lemma_spliced_letters(t: Seq<CharV>, pos: int, text: Seq<char>, u: Seq<CharV>)
    requires
        0 <= pos <= t.len(),
        store::spliced_s(t, pos, text, u),
    ensures
        splitting::letters_s(u) == splitting::letters_s(t).subrange(0, pos) + text
            + splitting::letters_s(t).skip(pos),
{
    let want = splitting::letters_s(t).subrange(0, pos) + text + splitting::letters_s(t).skip(pos);
    assert forall|i: int| 0 <= i < u.len() implies #[trigger] splitting::letters_s(u)[i] == want[i] by {
        if i < pos {
            assert(u.subrange(0, pos)[i] == t.subrange(0, pos)[i]);
        } else if i < pos + text.len() {
            assert(u[pos + (i - pos)].c == text[i - pos]);
        } else {
            let j = i - pos - text.len();
            assert(u.subrange(pos + text.len(), u.len() as int)[j] == t.subrange(
                pos,
                t.len() as int,
            )[j]);
        }
    }
    assert(splitting::letters_s(u) =~= want);
}

/// A suggested move brings exactly the characters of its range: the text at the new place is what
/// it was with the range of the old place's text put in, and the old place keeps its text.
pub proof fn law_move_brings_the_range(
    d: DocV,
    from: BlockId,
    start: usize,
    end: usize,
    to: BlockId,
    pos: usize,
    author: Seq<char>,
    date: Seq<char>,
    id: u64,
    mid: DocV,
    e: DocV,
)
    requires
        brought_s(d, from, start, end, to, pos, author, date, id, mid, e),
    ensures
        start < end <= splitting::words_s(d, from).len(),
        pos <= splitting::words_s(d, to).len(),
        splitting::words_s(e, to) == splitting::words_s(d, to).subrange(0, pos as int)
            + splitting::words_s(d, from).subrange(start as int, end as int) + splitting::words_s(
            d,
            to,
        ).skip(pos as int),
        from != to ==> splitting::words_s(e, from) == splitting::words_s(d, from),
{
    let v = read::runs_of_s(d, from);
    let w = revisions::slice_s(v, start, end, v.len());
    let t = revisions::half_s(TrackKind::MoveTo, author, date, id);
    let x = revisions::tagged_s(w, t);
    lemma_moved_runs(d, from, start, end);
    lemma_tagged_text(w, t, w.len());
    let text = writing::run_text_s(x);
    assert(text == splitting::words_s(d, from).subrange(start as int, end as int));
    let laid = choose|y: Seq<CharV>| #[trigger]
        writing::laid_s(mid, to, pos as int, text, y) && doc::text_s(e, to) == writing::dressed_s(
            y,
            pos as int,
            x,
            x.len(),
        );
    assert(writing::laid_s(mid, to, pos as int, text, laid));
    splitting::lemma_dressed_letters(laid, pos as int, x, x.len());
    assert(mid.s.texts.contains_key(to)) by {
        assert(mid.s.texts.insert(from, mid.s.texts[from]) =~= mid.s.texts);
    }
    assert(e.s.texts.contains_key(to));
    let was = splitting::words_s(d, to);
    let near = doc::text_s(mid, to);
    assert(splitting::letters_s(near) =~= was) by {
        if from != to {
            assert(mid.s.texts[to] == d.s.texts[to]);
        }
    }
    lemma_spliced_letters(near, pos as int, text, laid);
    assert(splitting::words_s(e, to) =~= splitting::letters_s(laid));
    if from != to {
        assert(e.s.texts[from] == mid.s.texts[from]);
        assert(splitting::words_s(e, from) =~= splitting::words_s(d, from));
    }
}

/// Where text typed at the new place takes up no marks, each moved character looks there as it did
/// at the old place, and is marked as moved there under the move's id.
pub proof fn law_moved_characters_keep_their_look(
    d: DocV,
    from: BlockId,
    start: usize,
    end: usize,
    to: BlockId,
    pos: usize,
    author: Seq<char>,
    date: Seq<char>,
    id: u64,
    mid: DocV,
    e: DocV,
)
    requires
        brought_s(d, from, start, end, to, pos, author, date, id, mid, e),
        from != to,
        d.s.typed[to][pos as int] == store::no_props_s(),
    ensures
        forall|i: int|
            0 <= i < end - start ==> {
                let c = runback::read_s(#[trigger] doc::text_s(e, to)[pos + i]);
                &&& same_look_s(c, runback::read_s(doc::text_s(d, from)[start + i]))
                &&& c.track matches Some(t) && t.kind is MoveTo && t.id == id && t.author == author
                    && t.date == date
            },
{
    let v = read::runs_of_s(d, from);
    let w = revisions::slice_s(v, start, end, v.len());
    let t = revisions::half_s(TrackKind::MoveTo, author, date, id);
    let x = revisions::tagged_s(w, t);
    lemma_moved_runs(d, from, start, end);
    lemma_tagged_text(w, t, w.len());
    lemma_tagged_spread(w, t, w.len());
    let text = writing::run_text_s(x);
    let laid = choose|y: Seq<CharV>| #[trigger]
        writing::laid_s(mid, to, pos as int, text, y) && doc::text_s(e, to) == writing::dressed_s(
            y,
            pos as int,
            x,
            x.len(),
        );
    assert(writing::laid_s(mid, to, pos as int, text, laid));
    assert(mid.s.typed[to] == d.s.typed[to]) by {
        let n = store::no_marks_s();
        assert(mid.s.typed.insert(from, n)[to] == d.s.typed.insert(from, n)[to]);
    }
    assert(bare_at_s(laid, pos as int, x)) by {
        assert forall|i: int| 0 <= i < text.len() implies #[trigger] laid[pos + i]
            == store::char_s(text[i], store::no_props_s()) by {
            assert(laid[pos + i].c == text[i]);
            assert(laid[pos + i].attrs == store::no_props_s());
        }
    }
    lemma_written(laid, pos as int, x, x.len());
    let a = runback::spread_s(w, w.len());
    let b = runback::spread_s(v, v.len());
    let z = runback::all_settled_s(x);
    lemma_settled_spread(x, x.len());
    assert forall|i: int| 0 <= i < end - start implies {
        let c = runback::read_s(#[trigger] doc::text_s(e, to)[pos + i]);
        &&& same_look_s(c, runback::read_s(doc::text_s(d, from)[start + i]))
        &&& c.track matches Some(t) && t.kind is MoveTo && t.id == id && t.author == author
            && t.date == date
    } by {
        assert(runback::spread_s(z, z.len())[i] == runback::read_s(doc::text_s(e, to)[pos + i]));
        assert(same_look_s(a[i], b[start + i]));
        assert(b[start + i] == runback::read_s(doc::text_s(d, from)[start + i]));
        let y = runback::spread_s(x, x.len());
        assert(y[i] == (RunV { track: Some(t), ..a[i] }));
    }
}

proof fn lemma_settled_spread(v: Seq<RunV>, n: nat)
    requires
        n <= v.len(),
    ensures
        runback::spread_s(runback::all_settled_s(v), n).len() == runback::spread_s(v, n).len(),
        forall|i: int|
            0 <= i < runback::spread_s(v, n).len() ==> #[trigger] runback::spread_s(
                runback::all_settled_s(v),
                n,
            )[i] == runback::settled_s(runback::spread_s(v, n)[i]),
    decreases n,
{
    if n > 0 {
        lemma_settled_spread(v, (n - 1) as nat);
        let w = runback::all_settled_s(v);
        let a = runback::spread_s(w, n);
        let b = runback::spread_s(v, n);
        let m = runback::spread_s(v, (n - 1) as nat);
        assert forall|i: int| 0 <= i < b.len() implies #[trigger] a[i] == runback::settled_s(b[i]) by {
            if i < m.len() {
                assert(a[i] == runback::spread_s(w, (n - 1) as nat)[i]);
                assert(b[i] == m[i]);
            } else {
                assert(a[i] == runback::one_s(w[n - 1], i - m.len()));
                assert(b[i] == runback::one_s(v[n - 1], i - m.len()));
                assert(a[i] =~= runback::settled_s(b[i]));
            }
        }
    }
}

proof fn lemma_carried(
    d: DocV,
    from: BlockId,
    start: usize,
    end: usize,
    to: BlockId,
    pos: usize,
    f: DocV,
)
    requires
        d.s.texts.contains_key(from),
        d.s.texts.contains_key(to),
        f.s.texts.contains_key(from),
        f.s.texts.contains_key(to),
        start < end <= doc::text_s(d, from).len() <= usize::MAX,
        pos <= doc::text_s(d, to).len(),
        doc::text_s(f, from) == doc::cut_s(doc::text_s(d, from), start as int, end - start),
        store::spliced_s(
            doc::text_s(d, to),
            pos as int,
            moving::moved_text_s(d, from, start, end),
            doc::text_s(f, to),
        ),
    ensures
        ({
            let was = splitting::words_s(d, from);
            let near = splitting::words_s(d, to);
            &&& splitting::words_s(f, from) == was.subrange(0, start as int) + was.skip(end as int)
            &&& splitting::words_s(f, to) == near.subrange(0, pos as int) + was.subrange(
                start as int,
                end as int,
            ) + near.skip(pos as int)
        }),
{
    let was = splitting::words_s(d, from);
    lemma_moved_runs(d, from, start, end);
    let text = moving::moved_text_s(d, from, start, end);
    assert(text == was.subrange(start as int, end as int));
    lemma_spliced_letters(doc::text_s(d, to), pos as int, text, doc::text_s(f, to));
    assert(splitting::words_s(f, from) =~= was.subrange(0, start as int) + was.skip(end as int));
}

/// After a suggested move between two paragraphs is accepted, the characters of its range stand at
/// the new place and no longer at the old one, and every other character stands where it stood.
pub proof fn law_accepted_move_takes_the_range_along(
    d: DocV,
    p: int,
    start: usize,
    end: usize,
    q: int,
    pos: usize,
    author: Seq<char>,
    date: Seq<char>,
    id: u64,
    mid: DocV,
    e: DocV,
    states: Seq<DocV>,
)
    requires
        moving::moved_s(d, p, start, end, q, pos, author, date, id, mid, e),
        revisions::all_resolved_s(states, e, id, true, read::refs_s(e).len() as int),
    ensures
        ({
            let from = read::block_s(d, p);
            let to = read::block_s(d, q);
            let was = splitting::words_s(d, from);
            let near = splitting::words_s(d, to);
            &&& start < end <= was.len()
            &&& pos <= near.len()
            &&& splitting::words_s(states.last(), from) == was.subrange(0, start as int) + was.skip(
                end as int,
            )
            &&& splitting::words_s(states.last(), to) == near.subrange(0, pos as int)
                + was.subrange(start as int, end as int) + near.skip(pos as int)
        }),
{
    let from = read::block_s(d, p);
    let to = read::block_s(d, q);
    let f = states.last();
    moving::law_accepted_move_is_carried_out(
        d,
        p,
        start,
        end,
        q,
        pos,
        author,
        date,
        id,
        mid,
        e,
        states,
    );
    assert(f.s.texts.contains_key(from) && f.s.texts.contains_key(to)) by {
        assert(f.s.texts.dom().contains(from) == d.s.texts.dom().contains(from));
        assert(f.s.texts.dom().contains(to) == d.s.texts.dom().contains(to));
    }
    assert(start < end <= doc::text_s(d, from).len() && pos <= doc::text_s(d, to).len()) by {
        law_move_brings_the_range(d, from, start, end, to, pos, author, date, id, mid, e);
    }
    lemma_carried(d, from, start, end, to, pos, f);
}

} // verus!
