//! What the reader of a document part makes of markup.

use vstd::prelude::*;
use crate::commentback;
use crate::events::{XmlStepV, XmlTagV};
use crate::import;
use crate::import::DocReaderV;
use crate::import_text::RunReaderV;
use crate::markup;
use crate::markup::Piece;

verus! {

broadcast use vstd::string::group_string_axioms;

/// The reader after `n` steps, from any place on.
pub open spec fn read_on_s(s: DocReaderV, xml: Seq<u8>, steps: Seq<XmlStepV>, n: nat) -> Option<DocReaderV>
    decreases n,
{
    if n == 0 {
        Some(s)
    } else {
        match read_on_s(s, xml, steps, (n - 1) as nat) {
            Some(x) => step_s(x, xml, steps[n - 1]),
            None => None,
        }
    }
}

/// What one step does.
#[verifier::opaque]
pub open spec fn step_s(s: DocReaderV, xml: Seq<u8>, x: XmlStepV) -> Option<DocReaderV> {
    import::doc_step_s(s, xml, x)
}

/// The reader after a text.
pub open spec fn hear_text_s(s: DocReaderV, x: Seq<char>) -> DocReaderV {
    if s.run.capturing_instr {
        DocReaderV { run: RunReaderV { instr: s.run.instr + x, ..s.run }, ..s }
    } else if s.run.capturing && s.para.in_para {
        DocReaderV { run: RunReaderV { text: s.run.text + x, ..s.run }, ..s }
    } else {
        s
    }
}

/// The reader after one piece of markup.
#[verifier::opaque]
pub open spec fn hear_s(s: DocReaderV, p: Piece) -> DocReaderV {
    match p {
        Piece::Open(t) => import::doc_start_s(s, t, 0),
        Piece::Bare(t) => import::doc_empty_s(s, t),
        Piece::Close(n) => import::doc_end_s(s, Seq::empty(), n, 0),
        Piece::Chars(x) => hear_text_s(s, x),
    }
}

/// The reader after the first `n` pieces.
pub open spec fn hear_all_s(s: DocReaderV, v: Seq<Piece>, n: nat) -> DocReaderV
    decreases n,
{
    if n == 0 {
        s
    } else {
        hear_s(hear_all_s(s, v, (n - 1) as nat), v[n - 1])
    }
}

/// Whether what the reader makes of a piece rests on the piece alone: it opens no text box, no
/// table inside another, whose markup is kept; and text does not stand in a field's instruction, where
/// references are passed over.
pub open spec fn fits_s(s: DocReaderV, p: Piece) -> bool {
    match p {
        Piece::Open(t) => t.name != "w:txbxContent"@ && (t.name == "w:tbl"@ ==> s.tbl.depth == 0),
        Piece::Bare(t) => true,
        Piece::Close(n) => n == "w:tbl"@ ==> s.tbl.depth == 1,
        Piece::Chars(x) => !s.run.capturing_instr,
    }
}

pub open spec fn all_fit_s(s: DocReaderV, v: Seq<Piece>) -> bool {
    forall|k: nat| k < v.len() ==> fits_s(#[trigger] hear_all_s(s, v, k), v[k as int])
}

proof fn lemma_step(s: DocReaderV, xml: Seq<u8>, x: XmlStepV, p: Piece)
    requires
        s.skip is None,
        markup::states_s(x.event, p),
        fits_s(s, p),
    ensures
        step_s(s, xml, x) == Some(hear_s(s, p)),
        hear_s(s, p).skip is None,
{
    reveal(step_s);
    reveal(hear_s);
    match p {
        Piece::Open(t) => {
            lemma_start(s, t, x.start);
        },
        Piece::Bare(t) => {
            lemma_empty(s, t);
        },
        Piece::Close(n) => {
            lemma_end(s, xml, n, x.end);
        },
        Piece::Chars(c) => {},
    }
}

proof fn lemma_start(s: DocReaderV, t: XmlTagV, at: int)
    requires
        s.skip is None,
        t.name != "w:txbxContent"@,
        t.name == "w:tbl"@ ==> s.tbl.depth == 0,
    ensures
        import::doc_start_s(s, t, at) == import::doc_start_s(s, t, 0),
        import::doc_start_s(s, t, 0).skip is None,
{
}

proof fn lemma_empty(s: DocReaderV, t: XmlTagV)
    requires
        s.skip is None,
    ensures
        import::doc_empty_s(s, t).skip is None,
{
}

proof fn lemma_end(s: DocReaderV, xml: Seq<u8>, n: Seq<char>, to: int)
    requires
        s.skip is None,
        n == "w:tbl"@ ==> s.tbl.depth == 1,
    ensures
        import::doc_end_s(s, xml, n, to) == import::doc_end_s(s, Seq::empty(), n, 0),
        import::doc_end_s(s, Seq::empty(), n, 0).skip is None,
{
}

proof fn lemma_step_text(s: DocReaderV, xml: Seq<u8>, x: XmlStepV)
    requires
        s.skip is None,
        !s.run.capturing_instr,
        commentback::piece_s(x.event) is Some,
    ensures
        step_s(s, xml, x) == Some(hear_text_s(s, commentback::piece_s(x.event)->0)),
{
    reveal(step_s);
}

pub(crate) proof fn lemma_hear_chars(s: DocReaderV, x: Seq<char>)
    ensures
        hear_s(s, Piece::Chars(x)) == hear_text_s(s, x),
{
    reveal(hear_s);
}

proof fn lemma_pieces(
    s: DocReaderV,
    xml: Seq<u8>,
    steps: Seq<XmlStepV>,
    k: nat,
    m: nat,
    x: DocReaderV,
)
    requires
        k <= m <= steps.len(),
        read_on_s(s, xml, steps, k) == Some(x),
        x.skip is None,
        !x.run.capturing_instr,
        forall|i: int|
            k <= i < m ==> commentback::piece_s((#[trigger] steps[i]).event) is Some,
    ensures
        read_on_s(s, xml, steps, m) == Some(
            hear_text_s(
                x,
                commentback::pieces_s(
                    commentback::events_of_s(steps).subrange(k as int, m as int),
                    (m - k) as nat,
                ),
            ),
        ),
    decreases m,
{
    let all = commentback::events_of_s(steps);
    let e = all.subrange(k as int, m as int);
    if k == m {
        assert(x.run.text + commentback::pieces_s(e, 0) =~= x.run.text);
        assert(hear_text_s(x, commentback::pieces_s(e, 0)) == x);
    } else {
        lemma_pieces(s, xml, steps, k, (m - 1) as nat, x);
        let d = all.subrange(k as int, m - 1);
        commentback::lemma_pieces_prefix(d, e, (m - 1 - k) as nat);
        let was = commentback::pieces_s(d, (m - 1 - k) as nat);
        assert(e[m - 1 - k] == steps[m - 1].event);
        let y = commentback::piece_s(steps[m - 1].event)->0;
        lemma_step_text(hear_text_s(x, was), xml, steps[m - 1]);
        assert(x.run.text + was + y =~= x.run.text + (was + y));
    }
}

/// Steps that state markup take the reader where the markup does.
proof fn lemma_heard(
    s: DocReaderV,
    xml: Seq<u8>,
    steps: Seq<XmlStepV>,
    v: Seq<Piece>,
    cuts: Seq<int>,
    n: nat,
)
    requires
        s.skip is None,
        all_fit_s(s, v),
        n <= v.len(),
        markup::told_at_s(v, commentback::events_of_s(steps), cuts),
    ensures
        0 <= cuts[n as int] <= steps.len(),
        read_on_s(s, xml, steps, cuts[n as int] as nat) == Some(hear_all_s(s, v, n)),
        hear_all_s(s, v, n).skip is None,
    decreases n,
{
    let e = commentback::events_of_s(steps);
    if n > 0 {
        let q = (n - 1) as nat;
        let p = v[q as int];
        lemma_heard(s, xml, steps, v, cuts, q);
        let k = cuts[q as int] as nat;
        let m = cuts[n as int] as nat;
        let r = hear_all_s(s, v, q);
        assert(fits_s(r, p));
        let w = e.subrange(k as int, m as int);
        assert(markup::told_one_s(p, w));
        match p {
            Piece::Chars(x) => {
                assert forall|i: int| k <= i < m implies commentback::piece_s(
                    (#[trigger] steps[i]).event,
                ) is Some by {
                    assert(commentback::piece_s(w[i - k]) is Some);
                }
                lemma_pieces(s, xml, steps, k, m, r);
                lemma_hear_chars(r, x);
            },
            _ => {
                let x = steps[k as int];
                assert(w[0] == x.event);
                lemma_step(r, xml, x, p);
            },
        }
    }
}

// ---------------------------------------------------------------- concatenation

proof fn lemma_hear_prefix(s: DocReaderV, v: Seq<Piece>, w: Seq<Piece>, n: nat)
    requires
        n <= v.len(),
    ensures
        hear_all_s(s, v + w, n) == hear_all_s(s, v, n),
    decreases n,
{
    if n > 0 {
        lemma_hear_prefix(s, v, w, (n - 1) as nat);
        assert((v + w)[n - 1] == v[n - 1]);
    }
}

proof fn lemma_hear_rest(s: DocReaderV, v: Seq<Piece>, w: Seq<Piece>, n: nat)
    requires
        n <= w.len(),
    ensures
        hear_all_s(s, v + w, v.len() + n) == hear_all_s(hear_all_s(s, v, v.len()), w, n),
    decreases n,
{
    if n == 0 {
        lemma_hear_prefix(s, v, w, v.len());
    } else {
        lemma_hear_rest(s, v, w, (n - 1) as nat);
        assert((v + w)[v.len() + n - 1] == w[n - 1]);
    }
}

/// Whether markup takes the reader from `s` to `e`, and each piece fits where it stands.
pub open spec fn takes_s(s: DocReaderV, v: Seq<Piece>, e: DocReaderV) -> bool {
    hear_all_s(s, v, v.len()) == e && all_fit_s(s, v)
}

/// Markup after markup.
pub(crate) proof fn lemma_takes_both(
    s: DocReaderV,
    v: Seq<Piece>,
    m: DocReaderV,
    w: Seq<Piece>,
    e: DocReaderV,
)
    requires
        takes_s(s, v, m),
        takes_s(m, w, e),
    ensures
        takes_s(s, v + w, e),
{
    lemma_hear_rest(s, v, w, w.len());
    assert forall|k: nat| k < (v + w).len() implies fits_s(
        #[trigger] hear_all_s(s, v + w, k),
        (v + w)[k as int],
    ) by {
        if k < v.len() {
            lemma_hear_prefix(s, v, w, k);
            assert(fits_s(hear_all_s(s, v, k), v[k as int]));
        } else {
            lemma_hear_rest(s, v, w, (k - v.len()) as nat);
            assert(fits_s(hear_all_s(m, w, (k - v.len()) as nat), w[k - v.len()]));
            assert((v + w)[k as int] == w[k - v.len()]);
        }
    }
}

pub(crate) proof fn lemma_takes_one(s: DocReaderV, p: Piece)
    requires
        fits_s(s, p),
    ensures
        takes_s(s, seq![p], hear_s(s, p)),
{
    reveal_with_fuel(hear_all_s, 2);
    assert forall|k: nat| k < seq![p].len() implies fits_s(
        #[trigger] hear_all_s(s, seq![p], k),
        seq![p][k as int],
    ) by {
        assert(k == 0);
    }
}

pub(crate) proof fn lemma_takes_none(s: DocReaderV)
    ensures
        takes_s(s, Seq::empty(), s),
{
}

pub(crate) proof fn lemma_takes_maybe(s: DocReaderV, on: bool, p: Piece)
    requires
        on ==> fits_s(s, p),
    ensures
        takes_s(
            s,
            markup::maybe_s(on, p),
            if on {
                hear_s(s, p)
            } else {
                s
            },
        ),
{
    if on {
        lemma_takes_one(s, p);
    } else {
        lemma_takes_none(s);
    }
}

/// Steps that state markup, read from `s` on, take the reader to `e`.
pub open spec fn reads_s(s: DocReaderV, v: Seq<Piece>, e: DocReaderV) -> bool {
    forall|xml: Seq<u8>, steps: Seq<XmlStepV>| #[trigger]
        markup::told_s(v, commentback::events_of_s(steps)) ==> #[trigger] read_on_s(
            s,
            xml,
            steps,
            steps.len(),
        ) == Some(e)
}

pub(crate) proof fn lemma_reads(s: DocReaderV, v: Seq<Piece>, e: DocReaderV)
    requires
        s.skip is None,
        takes_s(s, v, e),
    ensures
        reads_s(s, v, e),
{
    assert forall|xml: Seq<u8>, steps: Seq<XmlStepV>| #[trigger]
        markup::told_s(v, commentback::events_of_s(steps)) implies #[trigger] read_on_s(
        s,
        xml,
        steps,
        steps.len(),
    ) == Some(e) by {
        let cuts = choose|cuts: Seq<int>| #[trigger]
            markup::told_at_s(v, commentback::events_of_s(steps), cuts);
        lemma_heard(s, xml, steps, v, cuts, v.len());
    }
}

proof fn lemma_read_on_run(xml: Seq<u8>, steps: Seq<XmlStepV>, n: nat)
    ensures
        read_on_s(DocReaderV::initial(), xml, steps, n) == import::doc_run_s(xml, steps, n as int),
    decreases n,
{
    if n > 0 {
        lemma_read_on_run(xml, steps, (n - 1) as nat);
        reveal(step_s);
    }
}

/// A document part that states markup holds what the reader has at its end.
pub(crate) proof fn lemma_document(xml: Seq<u8>, steps: Seq<XmlStepV>, v: Seq<Piece>, e: DocReaderV)
    requires
        takes_s(DocReaderV::initial(), v, e),
        markup::told_s(v, commentback::events_of_s(steps)),
    ensures
        import::document_s(xml, steps) == Some(import::import_of_s(e)),
{
    let cuts = choose|cuts: Seq<int>| #[trigger]
        markup::told_at_s(v, commentback::events_of_s(steps), cuts);
    lemma_heard(DocReaderV::initial(), xml, steps, v, cuts, v.len());
    lemma_read_on_run(xml, steps, steps.len());
}

} // verus!
