//! Splitting and joining paragraphs keeps what they hold.

use vstd::prelude::*;
use crate::doc;
use crate::doc::DocV;
use crate::edits;
use crate::read;
use crate::runback;
use crate::runs;
use crate::sequence;
use crate::store;
use crate::store::{BlockId, CharV, SegV};
use crate::structure;
use crate::types::RunV;
use crate::writing;

verus! {

// ---------------------------------------------------------------- runs from a position on

proof fn lemma_offset(v: Seq<RunV>, n: nat)
    requires
        n <= v.len(),
        runback::spread_s(v, n).len() <= usize::MAX,
    ensures
        edits::offset_s(v, n) == runback::spread_s(v, n).len(),
    decreases n,
{
    if n > 0 {
        lemma_offset(v, (n - 1) as nat);
        edits::lemma_offset(v, (n - 1) as nat);
    }
}

spec fn least_s(a: int, b: int) -> int {
    if a < b {
        a
    } else {
        b
    }
}

/// The runs from a position on hold the characters from it on.
proof fn lemma_runs_from(v: Seq<RunV>, pos: usize, n: nat)
    requires
        n <= v.len(),
        runback::spread_s(v, n).len() <= usize::MAX,
    ensures
        ({
            let r = structure::runs_from_s(v, pos, n);
            let all = runback::spread_s(v, n);
            runback::spread_s(r, r.len()) == all.skip(least_s(pos as int, all.len() as int))
        }),
    decreases n,
{
    let all = runback::spread_s(v, n);
    if n == 0 {
        assert(all.skip(0) =~= Seq::empty());
    } else {
        let before = runback::spread_s(v, (n - 1) as nat);
        lemma_runs_from(v, pos, (n - 1) as nat);
        lemma_offset(v, (n - 1) as nat);
        let at = edits::offset_s(v, (n - 1) as nat);
        let r = v[n - 1];
        let ones = Seq::new(r.text.len(), |i: int| runback::one_s(r, i));
        assert(all == before + ones);
        let had = structure::runs_from_s(v, pos, (n - 1) as nat);
        if structure::reaches_s(r, at, pos) {
            let cut = structure::run_from_s(r, at, pos);
            let now = had.push(cut);
            runback::lemma_spread_prefix(had, now, had.len());
            let some = Seq::new(cut.text.len(), |i: int| runback::one_s(cut, i));
            assert(runback::spread_s(now, now.len()) == runback::spread_s(had, had.len()) + some);
            if at >= pos {
                assert(some =~= ones);
                assert(all.skip(pos as int) =~= before.skip(pos as int) + ones);
            } else {
                assert forall|i: int| 0 <= i < some.len() implies some[i] == ones[pos - at + i] by {
                    assert(runback::one_s(cut, i) =~= runback::one_s(r, pos - at + i));
                }
                assert(before.skip(before.len() as int) =~= Seq::empty());
                assert(all.skip(pos as int) =~= some);
                assert(Seq::<RunV>::empty() + some =~= some);
            }
        } else {
            assert(before.skip(before.len() as int) =~= Seq::empty());
            assert(all.skip(all.len() as int) =~= Seq::empty());
        }
    }
}

proof fn lemma_spread_settled(v: Seq<RunV>, n: nat)
    requires
        n <= v.len(),
    ensures
        runback::spread_s(runback::all_settled_s(v), n) == settled_all_s(runback::spread_s(v, n)),
    decreases n,
{
    if n > 0 {
        lemma_spread_settled(v, (n - 1) as nat);
        let r = v[n - 1];
        let w = runback::all_settled_s(v);
        assert(w[n - 1] == runback::settled_s(r));
        assert forall|i: int| 0 <= i < r.text.len() implies runback::one_s(w[n - 1], i)
            == runback::settled_s(runback::one_s(r, i)) by {
            assert(runback::one_s(w[n - 1], i) =~= runback::settled_s(runback::one_s(r, i)));
        }
        assert(runback::spread_s(w, n) =~= settled_all_s(runback::spread_s(v, n)));
    } else {
        assert(runback::spread_s(runback::all_settled_s(v), 0) =~= settled_all_s(
            runback::spread_s(v, 0),
        ));
    }
}

/// What is kept of characters where they are written again.
pub open spec fn settled_all_s(v: Seq<RunV>) -> Seq<RunV> {
    Seq::new(v.len(), |i: int| runback::settled_s(v[i]))
}

/// A run that was read has no revision that text cannot have.
proof fn lemma_read_of_text(v: Seq<SegV>, n: nat)
    requires
        n <= v.len(),
    ensures
        runback::all_of_text_s(runs::runs_s(v, n)),
    decreases n,
{
    if n > 0 {
        lemma_read_of_text(v, (n - 1) as nat);
        let before = runs::runs_s(v, (n - 1) as nat);
        let r = runs::run_s(v[n - 1]);
        assert(runback::of_text_s(r.track));
        let all = runs::runs_s(v, n);
        assert forall|i: int| 0 <= i < all.len() implies runback::of_text_s(
            (#[trigger] all[i]).track,
        ) by {
            if i < before.len() {
                assert(all[i] == before[i]);
            }
        }
    }
}

proof fn lemma_from_of_text(v: Seq<RunV>, pos: usize, n: nat)
    requires
        n <= v.len(),
        runback::all_of_text_s(v),
    ensures
        runback::all_of_text_s(structure::runs_from_s(v, pos, n)),
    decreases n,
{
    if n > 0 {
        lemma_from_of_text(v, pos, (n - 1) as nat);
        let before = structure::runs_from_s(v, pos, (n - 1) as nat);
        let all = structure::runs_from_s(v, pos, n);
        assert(runback::of_text_s(v[n - 1].track));
        assert forall|i: int| 0 <= i < all.len() implies runback::of_text_s(
            (#[trigger] all[i]).track,
        ) by {
            if i < before.len() {
                assert(all[i] == before[i]);
            }
        }
    }
}

// ---------------------------------------------------------------- splitting

/// The characters of a block, each as a run with its formatting.
pub open spec fn held_s(d: DocV, id: BlockId) -> Seq<RunV> {
    runback::spread_s(read::runs_of_s(d, id), read::runs_of_s(d, id).len())
}

proof fn lemma_held_len(d: DocV, id: BlockId)
    requires
        d.s.texts.contains_key(id),
    ensures
        held_s(d, id).len() == doc::text_s(d, id).len(),
{
    let segs = d.s.texts[id];
    lemma_read_len(segs, segs.len());
}

proof fn lemma_read_len(v: Seq<SegV>, n: nat)
    requires
        n <= v.len(),
    ensures
        runback::spread_s(runs::runs_s(v, n), runs::runs_s(v, n).len()).len() == store::flat_s(
            v,
            n,
        ).len(),
{
    runback::lemma_spread_read(v, n);
    assert(runback::read_all_s(store::flat_s(v, n)).len() == store::flat_s(v, n).len());
}

proof fn lemma_cut(t: Seq<CharV>, pos: int)
    requires
        0 <= pos < t.len(),
    ensures
        doc::cut_s(t, pos, t.len() - pos) == t.take(pos),
{
    assert(t.subrange(0, pos) + t.subrange(t.len() as int, t.len() as int) =~= t.take(pos));
}

proof fn lemma_truncated(d: DocV, id: BlockId, pos: usize, mid: DocV)
    requires
        structure::truncated_s(d, id, pos, mid),
        d.s.texts.contains_key(id),
        doc::text_s(d, id).len() <= usize::MAX,
        pos <= doc::text_s(d, id).len(),
    ensures
        doc::only_text_s(d, mid, id),
        doc::text_s(mid, id) == doc::text_s(d, id).take(pos as int),
{
    let text = doc::text_s(d, id);
    structure::lemma_chars(d, id);
    if pos < text.len() {
        lemma_cut(text, pos as int);
    } else {
        writing::lemma_only_text_refl(d, id);
        assert(text.take(pos as int) =~= text);
    }
}

/// Splitting a paragraph divides what it holds: it keeps the characters before the position, the
/// new paragraph right after it holds those from there on, and no other paragraph changes.
pub proof fn law_split_divides(d: DocV, idx: int, pos: usize, mid: DocV, id: BlockId, e: DocV)
    requires
        sequence::sound_s(d),
        0 <= idx < read::refs_s(d).len(),
        structure::split_done_s(d, idx, pos, mid, id, e),
        d.s.texts.contains_key(read::block_s(d, idx)),
        pos <= doc::text_s(d, read::block_s(d, idx)).len() <= usize::MAX,
    ensures
        read::refs_s(e) == read::refs_s(d).insert(
            idx + 1,
            sequence::beside_ref_s(read::refs_s(d)[idx], id),
        ),
        e.s.texts.contains_key(read::block_s(d, idx)),
        doc::text_s(e, read::block_s(d, idx)) == doc::text_s(d, read::block_s(d, idx)).take(
            pos as int,
        ),
        held_s(e, id) == settled_all_s(held_s(d, read::block_s(d, idx)).skip(pos as int)),
        forall|i: int|
            0 <= i < read::refs_s(d).len() && i != idx ==> read::paragraph_s(
                e,
                (#[trigger] read::refs_s(d)[i]).id_s(),
            ) == read::paragraph_s(d, read::refs_s(d)[i].id_s()),
        sequence::sound_s(e),
{
    let b = read::refs_s(d)[idx];
    let a = b.id_s();
    let p = read::paragraph_s(d, a);
    let v = structure::runs_from_s(p.runs, pos, p.runs.len());
    lemma_truncated(d, a, pos, mid);
    read::lemma_text_keeps_shape(d, mid, a);
    sequence::law_text_edits_keep_sound(d, mid, a);
    sequence::law_new_paragraph_takes_its_place(mid, idx, 1, p.style, v, id, e);
    sequence::lemma_beside_filled(mid, b, 1, p.style, v, id, e);
    sequence::lemma_fresh(mid, id, idx);
    assert(e.s.texts[a] == mid.s.texts[a]);
    lemma_split_rest(d, a, pos, mid, b, p.style, id, e);
    assert forall|i: int| 0 <= i < read::refs_s(d).len() && i != idx implies read::paragraph_s(
        e,
        (#[trigger] read::refs_s(d)[i]).id_s(),
    ) == read::paragraph_s(d, read::refs_s(d)[i].id_s()) by {
        let x = read::refs_s(d)[i].id_s();
        assert(read::refs_s(mid)[i] == read::refs_s(d)[i]);
        assert(read::paragraph_s(e, read::refs_s(mid)[i].id_s()) == read::paragraph_s(
            mid,
            read::refs_s(mid)[i].id_s(),
        ));
        if i < idx {
            assert(read::refs_s(d)[i].id_s() != read::refs_s(d)[idx].id_s());
        } else {
            assert(read::refs_s(d)[idx].id_s() != read::refs_s(d)[i].id_s());
        }
        assert(mid.s.metas[x] == d.s.metas[x]);
        assert(mid.s.texts.contains_key(x) == d.s.texts.contains_key(x));
        assert(mid.s.texts[x] == d.s.texts[x]);
    }
}

proof fn lemma_split_rest(
    d: DocV,
    a: BlockId,
    pos: usize,
    mid: DocV,
    b: read::BlockRef,
    style: Option<Seq<char>>,
    id: BlockId,
    e: DocV,
)
    requires
        d.s.texts.contains_key(a),
        pos <= doc::text_s(d, a).len() <= usize::MAX,
        structure::beside_s(
            mid,
            b,
            1,
            style,
            structure::runs_from_s(read::runs_of_s(d, a), pos, read::runs_of_s(d, a).len()),
            id,
            e,
        ),
    ensures
        held_s(e, id) == settled_all_s(held_s(d, a).skip(pos as int)),
{
    let all = read::runs_of_s(d, a);
    let v = structure::runs_from_s(all, pos, all.len());
    let segs = d.s.texts[a];
    lemma_read_of_text(segs, segs.len());
    lemma_from_of_text(all, pos, all.len());
    lemma_held_len(d, a);
    lemma_runs_from(all, pos, all.len());
    lemma_spread_settled(v, v.len());
    match b {
        read::BlockRef::Top(t) => {
            let at = structure::root_pos_s(mid.s.roots, t, 0) + 1;
            runback::law_written_runs_read_back(
                doc::root_added_s(mid, at, id),
                id,
                writing::body_meta_s(style),
                v,
                e,
            );
        },
        read::BlockRef::Cell { node, row, col, id: c } => {
            let f = DocV { tables: mid.tables, ..e };
            let p = structure::plain_paragraph_s(style, v);
            runback::law_written_runs_read_back(
                doc::child_added_s(mid, node, id),
                id,
                writing::para_meta_s(store::no_props_s(), p),
                v,
                f,
            );
            assert(held_s(f, id) == held_s(e, id));
        },
    }
}

// ---------------------------------------------------------------- joining

/// The characters of a rich text without their attributes.
pub open spec fn letters_s(t: Seq<CharV>) -> Seq<char> {
    Seq::new(t.len(), |i: int| t[i].c)
}

/// The text of a block; nothing where it has none.
pub open spec fn words_s(d: DocV, id: BlockId) -> Seq<char> {
    if d.s.texts.contains_key(id) {
        letters_s(doc::text_s(d, id))
    } else {
        Seq::empty()
    }
}

/// Marking characters leaves them and those outside the range alone.
pub(crate) proof fn lemma_dressed_letters(t: Seq<CharV>, start: int, v: Seq<RunV>, n: nat)
    requires
        n <= v.len(),
    ensures
        writing::dressed_s(t, start, v, n).len() == t.len(),
        forall|i: int| 0 <= i < t.len() ==> (#[trigger] writing::dressed_s(t, start, v, n)[i]).c
            == t[i].c,
        forall|i: int|
            0 <= i < t.len() && i < start ==> #[trigger] writing::dressed_s(t, start, v, n)[i]
                == t[i],
    decreases n,
{
    if n > 0 {
        lemma_dressed_letters(t, start, v, (n - 1) as nat);
        let r = writing::dressed_s(t, start, v, (n - 1) as nat);
        let from = start + writing::joined_s(v, (n - 1) as nat).len();
        let marks = writing::run_marks_s(v[n - 1]);
        runback::lemma_marked(r, from, from + v[n - 1].text.len(), marks, marks.len());
        let w = writing::dressed_s(t, start, v, n);
        assert forall|i: int| 0 <= i < t.len() implies (#[trigger] w[i]).c == t[i].c && (i < start
            ==> w[i] == t[i]) by {
            assert(r[i].c == t[i].c);
        }
    }
}

proof fn lemma_joined_push(v: Seq<RunV>, r: RunV)
    ensures
        writing::run_text_s(v.push(r)) == writing::run_text_s(v) + r.text,
{
    lemma_joined_prefix(v, v.push(r), v.len());
}

proof fn lemma_joined_prefix(v: Seq<RunV>, w: Seq<RunV>, n: nat)
    requires
        n <= v.len(),
        n <= w.len(),
        forall|i: int| 0 <= i < n ==> v[i] == w[i],
    ensures
        writing::joined_s(v, n) == writing::joined_s(w, n),
    decreases n,
{
    if n > 0 {
        lemma_joined_prefix(v, w, (n - 1) as nat);
    }
}

/// The runs of a rich text spell its characters.
proof fn lemma_read_text(v: Seq<SegV>, n: nat)
    requires
        n <= v.len(),
    ensures
        writing::run_text_s(runs::runs_s(v, n)) == letters_s(store::flat_s(v, n)),
    decreases n,
{
    if n > 0 {
        lemma_read_text(v, (n - 1) as nat);
        let s = v[n - 1];
        let flat = store::flat_s(v, (n - 1) as nat);
        let tail = Seq::new(s.text.len(), |i: int| store::char_s(s.text[i], s.attrs));
        assert(store::flat_s(v, n) =~= flat + tail);
        assert(letters_s(tail) =~= s.text);
        assert(letters_s(flat + tail) =~= letters_s(flat) + s.text);
        if s.text.len() == 0 {
            assert(letters_s(flat) + s.text =~= letters_s(flat));
        } else {
            lemma_joined_push(runs::runs_s(v, (n - 1) as nat), runs::run_s(s));
        }
    } else {
        assert(letters_s(store::flat_s(v, 0)) =~= Seq::empty());
    }
}

/// The runs read of a block spell its text.
pub proof fn law_read_runs_spell_the_text(d: DocV, id: BlockId)
    ensures
        writing::run_text_s(read::runs_of_s(d, id)) == words_s(d, id),
{
    if d.s.texts.contains_key(id) {
        lemma_read_text(d.s.texts[id], d.s.texts[id].len());
    }
}

/// Writing runs at the end of a text appends what they spell.
proof fn lemma_appended(d: DocV, a: BlockId, v: Seq<RunV>, mid: DocV)
    requires
        d.s.texts.contains_key(a),
        writing::runs_written_s(d, a, doc::text_s(d, a).len() as int, v, mid),
    ensures
        letters_s(doc::text_s(mid, a)) == letters_s(doc::text_s(d, a)) + writing::run_text_s(v),
        doc::text_s(mid, a).take(doc::text_s(d, a).len() as int) == doc::text_s(d, a),
{
    let t = doc::text_s(d, a);
    let n = t.len() as int;
    let text = writing::run_text_s(v);
    let laid = choose|m: Seq<CharV>| #[trigger]
        writing::laid_s(d, a, n, text, m) && doc::text_s(mid, a) == writing::dressed_s(
            m,
            n,
            v,
            v.len(),
        );
    assert(writing::laid_s(d, a, n, text, laid));
    lemma_dressed_letters(laid, n, v, v.len());
    let w = doc::text_s(mid, a);
    assert(laid.subrange(0, n) == t.subrange(0, n));
    assert forall|i: int| 0 <= i < n implies laid[i] == t[i] by {
        assert(laid.subrange(0, n)[i] == t.subrange(0, n)[i]);
    }
    assert forall|i: int| 0 <= i < w.len() implies #[trigger] letters_s(w)[i] == (letters_s(t)
        + text)[i] by {
        if i >= n {
            assert(laid[n + (i - n)].c == text[i - n]);
        }
    }
    assert(letters_s(w) =~= letters_s(t) + text);
    assert(w.take(n) =~= t);
}

/// Joining a paragraph to the one before it appends its text to that one's, whose own characters
/// stay as they are; the paragraph goes, and no other changes.
pub proof fn law_join_appends(d: DocV, idx: int, mid: DocV, e: DocV)
    requires
        sequence::sound_s(d),
        0 < idx < read::refs_s(d).len(),
        structure::join_done_s(d, idx, mid, e),
        d.s.texts.contains_key(read::block_s(d, idx - 1)),
        doc::text_s(d, read::block_s(d, idx - 1)).len() <= usize::MAX,
    ensures
        read::refs_s(e) == read::refs_s(d).remove(idx),
        words_s(e, read::block_s(d, idx - 1)) == words_s(d, read::block_s(d, idx - 1)) + words_s(
            d,
            read::block_s(d, idx),
        ),
        doc::text_s(e, read::block_s(d, idx - 1)).take(
            doc::text_s(d, read::block_s(d, idx - 1)).len() as int,
        ) == doc::text_s(d, read::block_s(d, idx - 1)),
        forall|i: int|
            0 <= i < read::refs_s(d).len() && i != idx && i != idx - 1 ==> read::paragraph_s(
                e,
                (#[trigger] read::refs_s(d)[i]).id_s(),
            ) == read::paragraph_s(d, read::refs_s(d)[i].id_s()),
        sequence::sound_s(e),
{
    let all = read::refs_s(d);
    let a = all[idx - 1].id_s();
    let b = all[idx].id_s();
    assert(all[idx - 1].id_s() != all[idx].id_s());
    structure::lemma_chars(d, a);
    law_read_runs_spell_the_text(d, b);
    lemma_appended(d, a, read::runs_of_s(d, b), mid);
    read::lemma_text_keeps_shape(d, mid, a);
    sequence::law_text_edits_keep_sound(d, mid, a);
    sequence::law_dropped_paragraph_leaves_its_place(mid, idx, e);
    assert(read::refs_s(mid) == all);
    sequence::lemma_is_dropped(mid, all[idx], e);
    sequence::lemma_dropped_rest(mid, b, e, a);
    assert(mid.s.texts.contains_key(a));
    assert forall|i: int| 0 <= i < all.len() && i != idx && i != idx - 1 implies read::paragraph_s(
        e,
        (#[trigger] all[i]).id_s(),
    ) == read::paragraph_s(d, all[i].id_s()) by {
        let x = all[i].id_s();
        if i < idx - 1 {
            assert(all[i].id_s() != all[idx - 1].id_s());
        } else {
            assert(all[idx - 1].id_s() != all[i].id_s());
        }
        assert(read::refs_s(mid)[i] == all[i]);
        assert(read::paragraph_s(e, read::refs_s(mid)[i].id_s()) == read::paragraph_s(
            mid,
            read::refs_s(mid)[i].id_s(),
        ));
        assert(mid.s.metas[x] == d.s.metas[x]);
        assert(mid.s.texts.contains_key(x) == d.s.texts.contains_key(x));
        assert(mid.s.texts[x] == d.s.texts[x]);
    }
}

/// Joining what was split restores the text and the sequence of paragraphs.
pub proof fn law_join_undoes_split(
    d: DocV,
    idx: int,
    pos: usize,
    cut: DocV,
    id: BlockId,
    e: DocV,
    mid: DocV,
    f: DocV,
)
    requires
        sequence::sound_s(d),
        0 <= idx < read::refs_s(d).len(),
        d.s.texts.contains_key(read::block_s(d, idx)),
        pos <= doc::text_s(d, read::block_s(d, idx)).len() <= usize::MAX,
        structure::split_done_s(d, idx, pos, cut, id, e),
        structure::join_done_s(e, idx + 1, mid, f),
    ensures
        read::refs_s(f) == read::refs_s(d),
        words_s(f, read::block_s(d, idx)) == words_s(d, read::block_s(d, idx)),
{
    let a = read::block_s(d, idx);
    law_split_divides(d, idx, pos, cut, id, e);
    let w = read::refs_s(e);
    assert(w[idx] == read::refs_s(d)[idx]);
    assert(w[idx + 1].id_s() == id);
    law_join_appends(e, idx + 1, mid, f);
    assert(w.remove(idx + 1) =~= read::refs_s(d));
    assert(words_s(f, a) == words_s(e, a) + words_s(e, id));
    lemma_parts(d, a, pos, e, id);
}

proof fn lemma_one_text(c: CharV)
    ensures
        runback::read_s(c).text == seq![c.c],
{
}

/// Whether characters, each as a run, spell a text.
#[verifier::opaque]
spec fn spells_s(h: Seq<RunV>, w: Seq<char>) -> bool {
    &&& h.len() == w.len()
    &&& forall|i: int| 0 <= i < w.len() ==> (#[trigger] h[i]).text == seq![w[i]]
}

proof fn lemma_spelled(d: DocV, id: BlockId)
    ensures
        spells_s(held_s(d, id), words_s(d, id)),
{
    reveal(spells_s);
    if d.s.texts.contains_key(id) {
        let segs = d.s.texts[id];
        runback::lemma_spread_read(segs, segs.len());
        let t = doc::text_s(d, id);
        assert(held_s(d, id) == runback::read_all_s(t));
        assert forall|i: int| 0 <= i < words_s(d, id).len() implies (#[trigger] held_s(d, id)[i]).text
            == seq![words_s(d, id)[i]] by {
            lemma_one_text(t[i]);
        }
    }
}

proof fn lemma_same_words(h: Seq<RunV>, k: Seq<RunV>, w: Seq<char>, x: Seq<char>, pos: int)
    requires
        spells_s(h, w),
        spells_s(k, x),
        0 <= pos <= w.len(),
        k == settled_all_s(h.skip(pos)),
    ensures
        x == w.skip(pos),
{
    reveal(spells_s);
    assert forall|i: int| 0 <= i < x.len() implies #[trigger] x[i] == w.skip(pos)[i] by {
        assert(k[i].text == seq![x[i]]);
        assert(k[i] == runback::settled_s(h.skip(pos)[i]));
        assert(h[pos + i].text == seq![w[pos + i]]);
        assert(seq![x[i]][0] == seq![w[pos + i]][0]);
    }
    assert(x =~= w.skip(pos));
}

proof fn lemma_words_taken(d: DocV, a: BlockId, pos: int, e: DocV)
    requires
        d.s.texts.contains_key(a),
        e.s.texts.contains_key(a),
        0 <= pos <= doc::text_s(d, a).len(),
        doc::text_s(e, a) == doc::text_s(d, a).take(pos),
    ensures
        words_s(e, a) == words_s(d, a).take(pos),
        words_s(d, a).len() == doc::text_s(d, a).len(),
{
    let t = doc::text_s(d, a);
    assert(letters_s(t.take(pos)) =~= letters_s(t).take(pos));
}

proof fn lemma_whole(w: Seq<char>, pos: int)
    requires
        0 <= pos <= w.len(),
    ensures
        w.take(pos) + w.skip(pos) == w,
{
    assert(w.take(pos) + w.skip(pos) =~= w);
}

proof fn lemma_parts(d: DocV, a: BlockId, pos: usize, e: DocV, id: BlockId)
    requires
        d.s.texts.contains_key(a),
        e.s.texts.contains_key(a),
        pos <= doc::text_s(d, a).len(),
        doc::text_s(e, a) == doc::text_s(d, a).take(pos as int),
        held_s(e, id) == settled_all_s(held_s(d, a).skip(pos as int)),
    ensures
        words_s(e, a) + words_s(e, id) == words_s(d, a),
{
    lemma_spelled(d, a);
    lemma_spelled(e, id);
    lemma_words_taken(d, a, pos as int, e);
    lemma_same_words(held_s(d, a), held_s(e, id), words_s(d, a), words_s(e, id), pos as int);
    lemma_whole(words_s(d, a), pos as int);
}

} // verus!
