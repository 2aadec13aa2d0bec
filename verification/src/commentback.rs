//! Comments read back from their elements.
//!
//! What the tokenizer makes of the bytes of a written part is its own affair. Here stands what the
//! reader makes of elements that state a list of comments, in the layout in which they are written.

use vstd::prelude::*;
use crate::comments;
use crate::comments::{CommentReaderV, ParsedCommentV};
use crate::events;
use crate::events::{XmlEventV, XmlStepV, XmlTagV};
use crate::search;
use crate::strs;
use crate::style_parse;
use crate::types::CommentV;

verus! {

broadcast use vstd::string::group_string_axioms;

// ---------------------------------------------------------------- the layout

/// The text of an event within a `w:t`; `None` for any other event.
pub open spec fn piece_s(e: XmlEventV) -> Option<Seq<char>> {
    match e {
        XmlEventV::Text(x) => x,
        XmlEventV::Ref(x) => x,
        _ => None,
    }
}

/// The text of the first `n` events, where each is one of text.
pub open spec fn pieces_s(v: Seq<XmlEventV>, n: nat) -> Seq<char>
    decreases n,
{
    if n == 0 {
        Seq::empty()
    } else {
        pieces_s(v, (n - 1) as nat) + events::or_empty_s(piece_s(v[n - 1]))
    }
}

pub(crate) proof fn lemma_pieces_prefix(v: Seq<XmlEventV>, w: Seq<XmlEventV>, n: nat)
    requires
        n <= v.len(),
        n <= w.len(),
        forall|i: int| 0 <= i < n ==> v[i] == w[i],
    ensures
        pieces_s(v, n) == pieces_s(w, n),
    decreases n,
{
    if n > 0 {
        lemma_pieces_prefix(v, w, (n - 1) as nat);
    }
}

/// Whether a list of events is all text and makes up `line`.
pub open spec fn text_stated_s(v: Seq<XmlEventV>, line: Seq<char>) -> bool {
    &&& forall|i: int| 0 <= i < v.len() ==> #[trigger] piece_s(v[i]) is Some
    &&& pieces_s(v, v.len()) == line
}

/// Whether the events are those of one body paragraph: the paragraph with its id, in it a run, in
/// that a text.
pub open spec fn line_laid_s(
    v: Seq<XmlEventV>,
    p: XmlTagV,
    r: XmlTagV,
    t: XmlTagV,
    mid: Seq<XmlEventV>,
    id: Seq<char>,
    line: Seq<char>,
) -> bool {
    &&& v == seq![XmlEventV::Start(p), XmlEventV::Start(r), XmlEventV::Start(t)] + mid + seq![
        XmlEventV::End("w:t"@),
        XmlEventV::End("w:r"@),
        XmlEventV::End("w:p"@),
    ]
    &&& p.name == "w:p"@
    &&& events::attr_s(p, "w14:paraId"@) == Some(id)
    &&& r.name == "w:r"@
    &&& t.name == "w:t"@
    &&& text_stated_s(mid, line)
}

/// Whether the events state one line of a body, in a paragraph with the id `id`.
pub open spec fn line_stated_s(v: Seq<XmlEventV>, id: Seq<char>, line: Seq<char>) -> bool {
    exists|p: XmlTagV, r: XmlTagV, t: XmlTagV, mid: Seq<XmlEventV>| #[trigger]
        line_laid_s(v, p, r, t, mid, id, line)
}

/// The first `n` parts, one after another.
pub open spec fn all_s(parts: Seq<Seq<XmlEventV>>, n: nat) -> Seq<XmlEventV>
    decreases n,
{
    if n == 0 {
        Seq::empty()
    } else {
        all_s(parts, (n - 1) as nat) + parts[n - 1]
    }
}

/// Whether the events are those of one comment: its tag, a paragraph for each line of its body, and
/// its end.
pub open spec fn comment_laid_s(
    v: Seq<XmlEventV>,
    t: XmlTagV,
    lines: Seq<Seq<XmlEventV>>,
    c: CommentV,
) -> bool {
    let w = comments::body_lines_s(c.text);
    &&& v == seq![XmlEventV::Start(t)] + all_s(lines, lines.len()) + seq![
        XmlEventV::End("w:comment"@),
    ]
    &&& t.name == "w:comment"@
    &&& events::attr_s(t, "w:id"@) == Some(strs::dec_s(c.id as nat))
    &&& events::attr_s(t, "w:author"@) == Some(c.author)
    &&& events::attr_s(t, "w:date"@) == Some(c.date)
    &&& events::attr_s(t, "w:initials"@) == Some(c.initials)
    &&& lines.len() == w.len()
    &&& forall|i: int|
        0 <= i < w.len() ==> line_stated_s(
            #[trigger] lines[i],
            comments::para_id_s(c.id, i as u64),
            w[i],
        )
}

/// Whether the events state one comment.
pub open spec fn comment_stated_s(v: Seq<XmlEventV>, c: CommentV) -> bool {
    exists|t: XmlTagV, lines: Seq<Seq<XmlEventV>>| #[trigger] comment_laid_s(v, t, lines, c)
}

/// Whether an event stands outside all comments: it opens and closes none, and no paragraph or text.
pub open spec fn aside_s(e: XmlEventV) -> bool {
    match e {
        XmlEventV::Start(t) => t.name != "w:comment"@ && t.name != "w:p"@ && t.name != "w:t"@,
        XmlEventV::End(n) => n != "w:comment"@ && n != "w:p"@ && n != "w:t"@,
        XmlEventV::Error => false,
        _ => true,
    }
}

/// Whether the events state the comments `cs`, one part for each, between a head and a tail.
pub open spec fn part_stated_s(
    v: Seq<XmlEventV>,
    head: Seq<XmlEventV>,
    parts: Seq<Seq<XmlEventV>>,
    tail: Seq<XmlEventV>,
    cs: Seq<CommentV>,
) -> bool {
    &&& v == head + all_s(parts, parts.len()) + tail
    &&& forall|i: int| 0 <= i < head.len() ==> aside_s(#[trigger] head[i])
    &&& forall|i: int| 0 <= i < tail.len() ==> aside_s(#[trigger] tail[i])
    &&& parts.len() == cs.len()
    &&& forall|i: int| 0 <= i < cs.len() ==> comment_stated_s(#[trigger] parts[i], cs[i])
}

// ---------------------------------------------------------------- reading events

spec fn react_s(s: CommentReaderV, e: XmlEventV) -> CommentReaderV {
    match e {
        XmlEventV::Start(t) => comments::comment_start_s(s, t),
        XmlEventV::Text(x) => comments::comment_text_s(s, x),
        XmlEventV::Ref(x) => comments::comment_text_s(s, x),
        XmlEventV::End(name) => comments::comment_end_s(s, name),
        _ => s,
    }
}

spec fn run_s(s: CommentReaderV, v: Seq<XmlEventV>, n: nat) -> CommentReaderV
    decreases n,
{
    if n == 0 {
        s
    } else {
        react_s(run_s(s, v, (n - 1) as nat), v[n - 1])
    }
}

spec fn no_error_s(v: Seq<XmlEventV>) -> bool {
    forall|i: int| 0 <= i < v.len() ==> !(#[trigger] v[i] is Error)
}

proof fn lemma_run_prefix(s: CommentReaderV, v: Seq<XmlEventV>, w: Seq<XmlEventV>, n: nat)
    requires
        n <= v.len(),
    ensures
        run_s(s, v + w, n) == run_s(s, v, n),
    decreases n,
{
    if n > 0 {
        lemma_run_prefix(s, v, w, (n - 1) as nat);
    }
}

proof fn lemma_run_rest(s: CommentReaderV, v: Seq<XmlEventV>, w: Seq<XmlEventV>, n: nat)
    requires
        n <= w.len(),
    ensures
        run_s(s, v + w, v.len() + n) == run_s(run_s(s, v, v.len()), w, n),
    decreases n,
{
    if n == 0 {
        lemma_run_prefix(s, v, w, v.len());
    } else {
        lemma_run_rest(s, v, w, (n - 1) as nat);
        assert((v + w)[v.len() + n - 1] == w[n - 1]);
    }
}

proof fn lemma_run_both(s: CommentReaderV, v: Seq<XmlEventV>, w: Seq<XmlEventV>)
    ensures
        run_s(s, v + w, (v + w).len()) == run_s(run_s(s, v, v.len()), w, w.len()),
{
    lemma_run_rest(s, v, w, w.len());
}

proof fn lemma_tags_apart()
    ensures
        "w:comment"@ != "w:p"@,
        "w:comment"@ != "w:t"@,
        "w:comment"@ != "w:r"@,
        "w:p"@ != "w:t"@,
        "w:p"@ != "w:r"@,
        "w:t"@ != "w:r"@,
{
    reveal_strlit("w:comment");
    reveal_strlit("w:p");
    reveal_strlit("w:t");
    reveal_strlit("w:r");
    assert("w:p"@[2] == 'p' && "w:t"@[2] == 't' && "w:r"@[2] == 'r' && "w:comment"@[2] == 'c');
}

proof fn lemma_pieces(s: CommentReaderV, v: Seq<XmlEventV>, n: nat)
    requires
        s.capturing,
        n <= v.len(),
        forall|i: int| 0 <= i < v.len() ==> #[trigger] piece_s(v[i]) is Some,
    ensures
        run_s(s, v, n) == (CommentReaderV { text: s.text + pieces_s(v, n), ..s }),
    decreases n,
{
    if n == 0 {
        assert(s.text + pieces_s(v, n) =~= s.text);
    } else {
        lemma_pieces(s, v, (n - 1) as nat);
        let was = pieces_s(v, (n - 1) as nat);
        assert(piece_s(v[n - 1]) is Some);
        let x = piece_s(v[n - 1])->0;
        assert(s.text + was + x =~= s.text + (was + x));
    }
}

/// The reader after one line.
spec fn line_read_s(s: CommentReaderV, id: Seq<char>, line: Seq<char>) -> CommentReaderV {
    CommentReaderV {
        para_ids: s.para_ids.push(id),
        lines: s.lines.push(line),
        line: Seq::empty(),
        text: Seq::empty(),
        in_para: false,
        capturing: false,
        ..s
    }
}

proof fn lemma_line(s: CommentReaderV, v: Seq<XmlEventV>, id: Seq<char>, line: Seq<char>)
    requires
        s.cur is Some,
        line_stated_s(v, id, line),
    ensures
        run_s(s, v, v.len()) == line_read_s(s, id, line),
        no_error_s(v),
{
    lemma_tags_apart();
    let (p, r, t, mid) = choose|p: XmlTagV, r: XmlTagV, t: XmlTagV, mid: Seq<XmlEventV>| #[trigger]
        line_laid_s(v, p, r, t, mid, id, line);
    let a = seq![XmlEventV::Start(p), XmlEventV::Start(r), XmlEventV::Start(t)];
    let b = seq![XmlEventV::End("w:t"@), XmlEventV::End("w:r"@), XmlEventV::End("w:p"@)];
    let s1 = CommentReaderV {
        in_para: true,
        line: Seq::empty(),
        para_ids: s.para_ids.push(id),
        capturing: true,
        text: Seq::empty(),
        ..s
    };
    assert(run_s(s, a, 3) == s1) by {
        reveal_with_fuel(run_s, 4);
    }
    let s2 = CommentReaderV { text: line, ..s1 };
    lemma_pieces(s1, mid, mid.len());
    assert(s1.text + line =~= line);
    assert(run_s(s2, b, 3) == line_read_s(s, id, line)) by {
        reveal_with_fuel(run_s, 4);
        assert(s2.line + line =~= line);
    }
    lemma_run_both(s, a, mid);
    lemma_run_both(s, a + mid, b);
    assert forall|i: int| 0 <= i < v.len() implies !(#[trigger] v[i] is Error) by {
        if i < 3 {
        } else if i < 3 + mid.len() {
            assert(v[i] == mid[i - 3]);
            assert(piece_s(mid[i - 3]) is Some);
        } else {
            assert(v[i] == b[i - 3 - mid.len()]);
        }
    }
}

/// The ids of the first `n` body paragraphs of a comment.
pub open spec fn para_ids_s(id: u64, n: nat) -> Seq<Seq<char>> {
    Seq::new(n, |i: int| comments::para_id_s(id, i as u64))
}

proof fn lemma_lines(
    s: CommentReaderV,
    parts: Seq<Seq<XmlEventV>>,
    id: u64,
    w: Seq<Seq<char>>,
    n: nat,
)
    requires
        s.cur is Some,
        !s.in_para,
        !s.capturing,
        s.para_ids.len() == 0,
        s.lines.len() == 0,
        n <= w.len(),
        parts.len() == w.len(),
        forall|i: int|
            0 <= i < w.len() ==> line_stated_s(
                #[trigger] parts[i],
                comments::para_id_s(id, i as u64),
                w[i],
            ),
    ensures
        ({
            let v = all_s(parts, n);
            let e = run_s(s, v, v.len());
            &&& no_error_s(v)
            &&& e.out == s.out
            &&& e.cur == s.cur
            &&& e.para_ids == para_ids_s(id, n)
            &&& e.lines == w.subrange(0, n as int)
            &&& !e.in_para
            &&& !e.capturing
        }),
    decreases n,
{
    if n == 0 {
        assert(s.para_ids =~= para_ids_s(id, 0));
        assert(s.lines =~= w.subrange(0, 0));
    } else {
        let m = (n - 1) as nat;
        lemma_lines(s, parts, id, w, m);
        let v = all_s(parts, m);
        let s1 = run_s(s, v, v.len());
        lemma_run_both(s, v, parts[n - 1]);
        lemma_line(s1, parts[n - 1], comments::para_id_s(id, m as u64), w[n - 1]);
        assert(para_ids_s(id, n) =~= para_ids_s(id, m).push(comments::para_id_s(id, m as u64)));
        assert(w.subrange(0, n as int) =~= w.subrange(0, m as int).push(w[n - 1]));
        lemma_no_error(v, parts[n - 1]);
    }
}

proof fn lemma_no_error(v: Seq<XmlEventV>, w: Seq<XmlEventV>)
    requires
        no_error_s(v),
        no_error_s(w),
    ensures
        no_error_s(v + w),
{
    assert forall|i: int| 0 <= i < (v + w).len() implies !(#[trigger] (v + w)[i] is Error) by {
        if i < v.len() {
            assert((v + w)[i] == v[i]);
        } else {
            assert((v + w)[i] == w[i - v.len()]);
        }
    }
}

// ---------------------------------------------------------------- the lines of a body

proof fn lemma_join_prefix(v: Seq<Seq<char>>, w: Seq<Seq<char>>, sep: Seq<char>, n: nat)
    requires
        n <= v.len(),
        n <= w.len(),
        forall|i: int| 0 <= i < n ==> #[trigger] v[i] == w[i],
    ensures
        style_parse::join_s(v, sep, n) == style_parse::join_s(w, sep, n),
    decreases n,
{
    if n > 1 {
        lemma_join_prefix(v, w, sep, (n - 1) as nat);
    }
}

/// The lines of a text, joined with line breaks, are the text.
pub proof fn law_lines_make_up_the_text(text: Seq<char>)
    ensures
        style_parse::join_s(
            comments::body_lines_s(text),
            "\n"@,
            comments::body_lines_s(text).len(),
        ) == text,
    decreases text.len(),
{
    reveal_strlit("\n");
    let v = comments::body_lines_s(text);
    if text.len() == 0 {
        assert(v =~= seq![Seq::<char>::empty()]);
    } else {
        let was = text.drop_last();
        let u = comments::body_lines_s(was);
        law_lines_make_up_the_text(was);
        search::lemma_split_nonempty(was, '\n');
        if text.last() == '\n' {
            lemma_join_prefix(v, u, "\n"@, u.len());
            assert(v[v.len() - 1] =~= Seq::<char>::empty());
            assert(was + "\n"@ + Seq::<char>::empty() =~= text);
        } else {
            let n = u.len();
            assert(v.len() == n);
            lemma_join_prefix(v, u, "\n"@, (n - 1) as nat);
            assert(v[n - 1] == u[n - 1].push(text.last()));
            if n == 1 {
                assert(v[0] =~= text);
            } else {
                let j = style_parse::join_s(u, "\n"@, (n - 1) as nat);
                assert(j + "\n"@ + u[n - 1].push(text.last()) =~= (j + "\n"@ + u[n - 1]).push(
                    text.last(),
                ));
                assert(was.push(text.last()) =~= text);
            }
        }
    }
}

// ---------------------------------------------------------------- whole parts

/// A comment as its own part states it: threads and their state stand in another part.
pub open spec fn alone_s(c: CommentV) -> ParsedCommentV {
    ParsedCommentV {
        comment: CommentV { parent: None, resolved: false, ..c },
        para_ids: para_ids_s(c.id, comments::body_lines_s(c.text).len()),
    }
}

proof fn lemma_comment(s: CommentReaderV, v: Seq<XmlEventV>, c: CommentV)
    requires
        !s.in_para,
        !s.capturing,
        comment_stated_s(v, c),
        c.initials.len() > 0,
    ensures
        ({
            let e = run_s(s, v, v.len());
            &&& e.out == s.out.push(alone_s(c))
            &&& !e.in_para
            &&& !e.capturing
        }),
        no_error_s(v),
{
    lemma_tags_apart();
    let (t, lines) = choose|t: XmlTagV, lines: Seq<Seq<XmlEventV>>| #[trigger]
        comment_laid_s(v, t, lines, c);
    let w = comments::body_lines_s(c.text);
    let a = seq![XmlEventV::Start(t)];
    let m = all_s(lines, lines.len());
    let b = seq![XmlEventV::End("w:comment"@)];
    strs::lemma_dec_parses(c.id as nat, u64::MAX as nat);
    let s1 = CommentReaderV {
        cur: Some(comments::opened_comment_s(t)),
        para_ids: Seq::empty(),
        lines: Seq::empty(),
        ..s
    };
    assert(run_s(s, a, 1) == s1) by {
        reveal_with_fuel(run_s, 2);
    }
    lemma_lines(s1, lines, c.id, w, w.len());
    let s2 = run_s(s1, m, m.len());
    assert(w.subrange(0, w.len() as int) =~= w);
    law_lines_make_up_the_text(c.text);
    let o = comments::opened_comment_s(t);
    assert(comments::closed_comment_s(o, w) == alone_s(c).comment);
    assert(run_s(s2, b, 1) == comments::comment_end_s(s2, "w:comment"@)) by {
        reveal_with_fuel(run_s, 2);
    }
    lemma_run_both(s, a, m);
    lemma_run_both(s, a + m, b);
    lemma_no_error(a, m);
    lemma_no_error(a + m, b);
}

proof fn lemma_comments(s: CommentReaderV, parts: Seq<Seq<XmlEventV>>, cs: Seq<CommentV>, n: nat)
    requires
        !s.in_para,
        !s.capturing,
        s.out.len() == 0,
        n <= cs.len(),
        parts.len() == cs.len(),
        forall|i: int| 0 <= i < cs.len() ==> comment_stated_s(#[trigger] parts[i], cs[i]),
        forall|i: int| 0 <= i < cs.len() ==> (#[trigger] cs[i]).initials.len() > 0,
    ensures
        ({
            let v = all_s(parts, n);
            let e = run_s(s, v, v.len());
            &&& e.out == Seq::new(n, |i: int| alone_s(cs[i]))
            &&& !e.in_para
            &&& !e.capturing
            &&& no_error_s(v)
        }),
    decreases n,
{
    if n == 0 {
        assert(s.out =~= Seq::new(0, |i: int| alone_s(cs[i])));
    } else {
        let m = (n - 1) as nat;
        lemma_comments(s, parts, cs, m);
        let v = all_s(parts, m);
        lemma_run_both(s, v, parts[n - 1]);
        lemma_comment(run_s(s, v, v.len()), parts[n - 1], cs[n - 1]);
        assert(Seq::new(n, |i: int| alone_s(cs[i])) =~= Seq::new(m, |i: int| alone_s(cs[i])).push(
            alone_s(cs[n - 1]),
        ));
        lemma_no_error(v, parts[n - 1]);
    }
}

proof fn lemma_aside(s: CommentReaderV, v: Seq<XmlEventV>, n: nat)
    requires
        !s.in_para,
        !s.capturing,
        n <= v.len(),
        forall|i: int| 0 <= i < v.len() ==> aside_s(#[trigger] v[i]),
    ensures
        run_s(s, v, n) == s,
    decreases n,
{
    if n > 0 {
        lemma_aside(s, v, (n - 1) as nat);
        assert(aside_s(v[n - 1]));
    }
}

/// The events of a list of steps.
pub open spec fn events_of_s(steps: Seq<XmlStepV>) -> Seq<XmlEventV> {
    Seq::new(steps.len(), |i: int| steps[i].event)
}

proof fn lemma_run_steps(steps: Seq<XmlStepV>, n: nat)
    requires
        n <= steps.len(),
    ensures
        comments::comments_run_s(steps, n as int) == run_s(
            CommentReaderV::initial(),
            events_of_s(steps),
            n,
        ),
    decreases n,
{
    if n > 0 {
        lemma_run_steps(steps, (n - 1) as nat);
    }
}

proof fn lemma_all_readable(steps: Seq<XmlStepV>, from: int)
    requires
        0 <= from <= steps.len(),
        no_error_s(events_of_s(steps)),
    ensures
        events::readable_s(steps, from) == steps.len(),
    decreases steps.len() - from,
{
    if from < steps.len() {
        assert(!(events_of_s(steps)[from] is Error));
        lemma_all_readable(steps, from + 1);
    }
}

/// Comments with initials are read back from the elements that state them, in their order, each
/// with its id, author, initials, date and text, and with the ids of its body paragraphs.
pub proof fn law_comments_read_back_from_their_elements(
    cs: Seq<CommentV>,
    steps: Seq<XmlStepV>,
    head: Seq<XmlEventV>,
    parts: Seq<Seq<XmlEventV>>,
    tail: Seq<XmlEventV>,
)
    requires
        part_stated_s(events_of_s(steps), head, parts, tail, cs),
        forall|i: int| 0 <= i < cs.len() ==> (#[trigger] cs[i]).initials.len() > 0,
    ensures
        comments::comments_s(steps) == Seq::new(cs.len(), |i: int| alone_s(cs[i])),
{
    let s = CommentReaderV::initial();
    let m = all_s(parts, parts.len());
    let v = events_of_s(steps);
    lemma_aside(s, head, head.len());
    lemma_comments(s, parts, cs, cs.len());
    let s1 = run_s(s, m, m.len());
    lemma_aside(s1, tail, tail.len());
    lemma_run_both(s, head, m);
    lemma_run_both(s, head + m, tail);
    assert(no_error_s(head)) by {
        assert forall|i: int| 0 <= i < head.len() implies !(#[trigger] head[i] is Error) by {
            assert(aside_s(head[i]));
        }
    }
    assert(no_error_s(tail)) by {
        assert forall|i: int| 0 <= i < tail.len() implies !(#[trigger] tail[i] is Error) by {
            assert(aside_s(tail[i]));
        }
    }
    lemma_no_error(head, m);
    lemma_no_error(head + m, tail);
    lemma_all_readable(steps, 0);
    lemma_run_steps(steps, steps.len());
}

} // verus!
