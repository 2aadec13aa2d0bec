//! What is written of a run reads back, and what each element of a run means.

use vstd::prelude::*;
use crate::events;
use crate::events::XmlTagV;
use crate::hearing;
use crate::import::DocReaderV;
use crate::import_text::{ParaReaderV, RunReaderV};
use crate::markup;
use crate::markup::Piece;
use crate::names;
use crate::paragraph;
use crate::paragraph::Pen;
use crate::retelling;
use crate::retelling::{goes_s, look_s, props_read_s, stated_look_s};
use crate::telling;
use crate::types::{RunV, TrackKind, TrackV};
use crate::xml;

verus! {

broadcast use vstd::string::group_string_axioms;

// ---------------------------------------------------------------- where a run can stand

/// Whether the reader stands between the runs of a paragraph, in no field.
pub open spec fn between_runs_s(s: DocReaderV) -> bool {
    &&& s.skip is None
    &&& s.para.in_para
    &&& !s.para.in_mark_rpr
    &&& !s.para.in_tabs
    &&& !s.run.in_run
    &&& !s.run.in_rpr
    &&& !s.run.capturing
    &&& !s.run.capturing_instr
    &&& !s.run.del_text
    &&& !s.run.field_active
    &&& s.run.text.len() == 0
    &&& telling::no_move_s(s)
}

/// Whether `e` is the reader `s` with one more run of the open paragraph read.
pub open spec fn run_read_s(s: DocReaderV, e: DocReaderV, r: RunV) -> bool {
    e == (DocReaderV {
        para: ParaReaderV { segs: s.para.segs.push(r), ..s.para },
        run: RunReaderV {
            cur: e.run.cur,
            author: e.run.author,
            date: e.run.date,
            id: e.run.id,
            saved: e.run.saved,
            ..s.run
        },
        ..s
    })
}

// ---------------------------------------------------------------- one run

proof fn lemma_run_lits()
    ensures
        "<w:r>"@ == "<"@ + "w:r"@ + ">"@,
        "</w:r>"@ == "</"@ + "w:r"@ + ">"@,
        "</w:t>"@ == "</"@ + "w:t"@ + ">"@,
        "</w:delText>"@ == "</"@ + "w:delText"@ + ">"@,
        "<w:tab/></w:r>"@ == ("<"@ + "w:tab"@ + "/>"@) + ("</"@ + "w:r"@ + ">"@),
{
    reveal_strlit("<w:r>");
    reveal_strlit("</w:r>");
    reveal_strlit("</w:t>");
    reveal_strlit("</w:delText>");
    reveal_strlit("<w:tab/></w:r>");
    reveal_strlit("<");
    reveal_strlit("</");
    reveal_strlit(">");
    reveal_strlit("/>");
    reveal_strlit("w:r");
    reveal_strlit("w:t");
    reveal_strlit("w:tab");
    reveal_strlit("w:delText");
    assert("<w:r>"@ =~= "<"@ + "w:r"@ + ">"@);
    assert("</w:r>"@ =~= "</"@ + "w:r"@ + ">"@);
    assert("</w:t>"@ =~= "</"@ + "w:t"@ + ">"@);
    assert("</w:delText>"@ =~= "</"@ + "w:delText"@ + ">"@);
    assert("<w:tab/></w:r>"@ =~= ("<"@ + "w:tab"@ + "/>"@) + ("</"@ + "w:r"@ + ">"@));
}

proof fn lemma_text_tag(del: bool)
    ensures
        markup::piece_text_s(Piece::Open(telling::text_tag_s(del))) == (if del {
            "<w:delText xml:space=\"preserve\">"@
        } else {
            "<w:t xml:space=\"preserve\">"@
        }),
{
    let n = telling::text_name_s(del);
    let e = Seq::<(Seq<char>, Seq<char>)>::empty();
    markup::lemma_no_attrs(n);
    markup::lemma_attrs_push(n, e, "xml:space"@, "preserve"@);
    assert(e.push(("xml:space"@, "preserve"@)) =~= seq![("xml:space"@, "preserve"@)]);
    reveal_strlit("preserve");
    markup::lemma_esc_word("preserve"@);
    reveal_strlit("<w:delText xml:space=\"preserve\">");
    reveal_strlit("<w:t xml:space=\"preserve\">");
    reveal_strlit("<");
    reveal_strlit(">");
    reveal_strlit(" ");
    reveal_strlit("w:t");
    reveal_strlit("w:delText");
    reveal_strlit("xml:space");
    reveal_strlit("=\"");
    reveal_strlit("\"");
    let x = markup::piece_text_s(Piece::Open(telling::text_tag_s(del)));
    if del {
        assert(x =~= "<w:delText xml:space=\"preserve\">"@);
    } else {
        assert(x =~= "<w:t xml:space=\"preserve\">"@);
    }
}

/// The places of the reader along a run of text, after its properties block at `b`.
spec fn text_places_s(b: DocReaderV, del: bool, text: Seq<char>) -> (
    DocReaderV,
    DocReaderV,
    DocReaderV,
    DocReaderV,
) {
    let s1 = hearing::hear_s(b, Piece::Open(telling::text_tag_s(del)));
    let s2 = hearing::hear_s(s1, Piece::Chars(text));
    let s3 = hearing::hear_s(s2, Piece::Close(telling::text_name_s(del)));
    let s4 = hearing::hear_s(s3, Piece::Close("w:r"@));
    (s1, s2, s3, s4)
}

proof fn lemma_text_places(s: DocReaderV, a: DocReaderV, b: DocReaderV, r: RunV, del: bool)
    requires
        between_runs_s(s),
        s.run.track is None ==> !del,
        r.text.len() > 0,
        a == (DocReaderV {
            run: RunReaderV { in_run: true, cur: RunV::plain(Seq::empty()), ..s.run },
            ..s
        }),
        props_read_s(a, b, look_s(r)),
        !b.run.in_rpr,
    ensures
        ({
            let (s1, s2, s3, s4) = text_places_s(b, del, r.text);
            &&& hearing::fits_s(b, Piece::Open(telling::text_tag_s(del)))
            &&& hearing::fits_s(s1, Piece::Chars(r.text))
            &&& hearing::fits_s(s2, Piece::Close(telling::text_name_s(del)))
            &&& hearing::fits_s(s3, Piece::Close("w:r"@))
            &&& run_read_s(s, s4, RunV { text: r.text, track: s.run.track, ..look_s(r) })
        }),
{
    let (s1, s2, s3, s4) = text_places_s(b, del, r.text);
    telling::lemma_open_text(b, del);
    hearing::lemma_hear_chars(s1, r.text);
    assert(s1.run.text + r.text =~= r.text);
    telling::lemma_close_text(s2, del);
    telling::lemma_close_run(s3);
    assert(s3.run.text =~= s.run.text);
}

proof fn lemma_six(
    e: Seq<char>,
    a: Seq<char>,
    b: Seq<char>,
    c: Seq<char>,
    d: Seq<char>,
    f: Seq<char>,
    g: Seq<char>,
)
    requires
        e.len() == 0,
    ensures
        e + a + b + c + d + f + g == a + b + c + d + f + g,
{
    assert(e + a =~= a);
}

/// A run of text reads back from its markup, inside whatever revision is open.
pub(crate) proof fn lemma_run(s: DocReaderV, r: RunV) -> (o: (Seq<Piece>, DocReaderV))
    requires
        between_runs_s(s),
        stated_look_s(r),
        r.text.len() > 0,
        s.run.track is None ==> !paragraph::is_del_s(r),
    ensures
        goes_s(s, o.0, o.1, paragraph::run_of_s(r, xml::esc_s(r.text))),
        run_read_s(s, o.1, RunV { text: r.text, track: s.run.track, ..look_s(r) }),
{
    let del = paragraph::is_del_s(r);
    lemma_run_lits();
    lemma_text_tag(del);
    markup::lemma_open_text("w:r"@, "<w:r>"@);
    let p = markup::open_s("w:r"@);
    telling::lemma_open_run(s);
    let a = hearing::hear_s(s, p);
    let (w, b) = retelling::lemma_rpr(a, r);
    lemma_text_places(s, a, b, r, del);
    let (s1, s2, s3, s4) = text_places_s(b, del, r.text);
    let e = Seq::<char>::empty();
    let x1 = "<w:r>"@;
    let x2 = paragraph::rpr_s(r);
    let x3 = paragraph::text_open_s(r);
    let x4 = xml::esc_s(r.text);
    let x5 = paragraph::text_close_s(r);
    let x6 = "</w:r>"@;
    retelling::lemma_goes_none(s);
    retelling::lemma_goes_on(s, Seq::empty(), s, e, p, x1, a);
    let u1 = Seq::<Piece>::empty() + seq![p];
    retelling::lemma_goes_both(s, u1, a, e + x1, w, b, x2);
    let u2 = u1 + w;
    let q3 = Piece::Open(telling::text_tag_s(del));
    retelling::lemma_goes_on(s, u2, b, e + x1 + x2, q3, x3, s1);
    let u3 = u2 + seq![q3];
    let q4 = Piece::Chars(r.text);
    retelling::lemma_goes_on(s, u3, s1, e + x1 + x2 + x3, q4, x4, s2);
    let u4 = u3 + seq![q4];
    let q5 = Piece::Close(telling::text_name_s(del));
    retelling::lemma_goes_on(s, u4, s2, e + x1 + x2 + x3 + x4, q5, x5, s3);
    let u5 = u4 + seq![q5];
    let q6 = Piece::Close("w:r"@);
    retelling::lemma_goes_on(s, u5, s3, e + x1 + x2 + x3 + x4 + x5, q6, x6, s4);
    lemma_six(e, x1, x2, x3, x4, x5, x6);
    (u5 + seq![q6], s4)
}

// ---------------------------------------------------------------- a run in its revision

/// Whether a revision is one that runs can have.
pub open spec fn of_runs_s(t: TrackV) -> bool {
    !(t.kind is Fmt)
}

pub open spec fn wrapper_tag_s(t: TrackV) -> XmlTagV {
    markup::tag_s(t.kind.wrapper_s(), telling::revision_attrs_s(t.id as nat, t.author, t.date))
}

pub open spec fn tracked_s(s: DocReaderV, o: Option<TrackV>) -> DocReaderV {
    DocReaderV { run: RunReaderV { track: o, ..s.run }, ..s }
}

/// The element around the runs of a revision says which revision it is.
pub(crate) proof fn lemma_wrapper(s: DocReaderV, t: TrackV)
    requires
        of_runs_s(t),
        s.para.in_para,
        telling::no_move_s(s),
    ensures
        hearing::fits_s(s, Piece::Open(wrapper_tag_s(t))),
        hearing::hear_s(s, Piece::Open(wrapper_tag_s(t))) == tracked_s(s, Some(t)),
        markup::piece_text_s(Piece::Open(wrapper_tag_s(t))) == "<"@ + t.kind.wrapper_s()
            + paragraph::revision_s(t.id as nat, t.author, t.date) + ">"@,
{
    let n = t.kind.wrapper_s();
    telling::lemma_revision_tag(n, t.id as nat, t.author, t.date);
    telling::lemma_revision_read(n, t);
    telling::lemma_open_wrapper(s, wrapper_tag_s(t), t.kind);
}

pub(crate) proof fn lemma_wrapper_end(s: DocReaderV, t: TrackV)
    requires
        of_runs_s(t),
    ensures
        hearing::fits_s(s, Piece::Close(t.kind.wrapper_s())),
        hearing::hear_s(s, Piece::Close(t.kind.wrapper_s())) == tracked_s(s, None),
{
    telling::lemma_close_wrapper(s, t.kind.wrapper_s(), t.kind);
}

/// What is kept of a run in markup of its own: its text, its look and its revision.
pub open spec fn kept_s(r: RunV) -> RunV {
    RunV { text: r.text, track: r.track, ..look_s(r) }
}

/// Whether a run is plain text in markup of its own.
pub open spec fn plain_text_s(r: RunV) -> bool {
    &&& stated_look_s(r)
    &&& r.text.len() > 0
    &&& r.text != "\t"@
    &&& !paragraph::has_field_s(r.text)
    &&& r.track matches Some(t) ==> of_runs_s(t)
}

/// Whether the id of a revision was not handed out before, so that it is written as it is.
pub open spec fn unused_id_s(pen: Pen, o: Option<TrackV>) -> bool {
    o matches Some(t) ==> !pen.ids.seen.contains(t.id as u128)
}

/// Whether markup `v` is what is written of a run, and reading it takes the reader to `e`, where
/// the run stands last.
pub open spec fn run_back_s(pen: Pen, r: RunV, s: DocReaderV, v: Seq<Piece>, e: DocReaderV) -> bool {
    &&& paragraph::run_s(pen, r).text == pen.text + markup::text_s(v, v.len())
    &&& hearing::reads_s(s, v, e)
    &&& run_read_s(s, e, kept_s(r))
}

proof fn lemma_fragment(
    s: DocReaderV,
    r: RunV,
    t: TrackV,
) -> (o: (Seq<Piece>, DocReaderV))
    requires
        between_runs_s(s),
        s.run.track is None,
        plain_text_s(r),
        r.track == Some(t),
    ensures
        goes_s(
            s,
            o.0,
            o.1,
            ("<"@ + t.kind.wrapper_s() + paragraph::revision_s(t.id as nat, t.author, t.date) + ">"@)
                + paragraph::run_of_s(r, xml::esc_s(r.text)) + ("</"@ + t.kind.wrapper_s() + ">"@),
        ),
        run_read_s(s, o.1, kept_s(r)),
{
    let e = Seq::<char>::empty();
    let x1 = "<"@ + t.kind.wrapper_s() + paragraph::revision_s(t.id as nat, t.author, t.date) + ">"@;
    let x2 = paragraph::run_of_s(r, xml::esc_s(r.text));
    let x3 = "</"@ + t.kind.wrapper_s() + ">"@;
    let p = Piece::Open(wrapper_tag_s(t));
    let q = Piece::Close(t.kind.wrapper_s());
    lemma_wrapper(s, t);
    let a = tracked_s(s, Some(t));
    let (w, b) = lemma_run(a, r);
    lemma_wrapper_end(b, t);
    let f = tracked_s(b, None);
    retelling::lemma_goes_none(s);
    retelling::lemma_goes_on(s, Seq::empty(), s, e, p, x1, a);
    let u = Seq::<Piece>::empty() + seq![p];
    retelling::lemma_goes_both(s, u, a, e + x1, w, b, x2);
    retelling::lemma_goes_on(s, u + w, b, e + x1 + x2, q, x3, f);
    assert(e + x1 =~= x1);
    (u + w + seq![q], f)
}

/// What is written of a run of text reads back: its text, whether it is bold, italic, underlined or
/// struck out, its size, colour, font, highlight, vertical alignment, language, style and shading,
/// its formatting change, and its revision with kind, author, date and id.
pub proof fn law_written_run_reads_back(pen: Pen, r: RunV, s: DocReaderV)
    requires
        between_runs_s(s),
        s.run.track is None,
        plain_text_s(r),
        unused_id_s(pen, r.track),
    ensures
        exists|v: Seq<Piece>, e: DocReaderV| #[trigger] run_back_s(pen, r, s, v, e),
{
    let x = paragraph::run_of_s(r, xml::esc_s(r.text));
    if r.track is Some {
        let t = r.track->0;
        let (v, e) = lemma_fragment(s, r, t);
        reveal(goes_s);
        hearing::lemma_reads(s, v, e);
        let a = "<"@ + t.kind.wrapper_s() + paragraph::revision_s(t.id as nat, t.author, t.date)
            + ">"@;
        let b = "</"@ + t.kind.wrapper_s() + ">"@;
        assert(pen.text + a + x + b =~= pen.text + (a + x + b));
        assert(paragraph::run_s(pen, r).text == pen.text + a + x + b);
        assert(run_back_s(pen, r, s, v, e));
    } else {
        let (v, e) = lemma_run(s, r);
        reveal(goes_s);
        hearing::lemma_reads(s, v, e);
        assert(kept_s(r) == (RunV { text: r.text, track: s.run.track, ..look_s(r) }));
        assert(run_back_s(pen, r, s, v, e));
    }
}

// ---------------------------------------------------------------- what elements mean

/// A run inside `w:ins` is inserted, one inside `w:del` deleted, one inside `w:moveFrom` moved away
/// and one inside `w:moveTo` moved there, by the author and at the date and under the id that the
/// element names; the end of the element ends the revision. (A range of a move has its own id.)
pub proof fn law_revision_elements_say_what_they_are(s: DocReaderV, t: XmlTagV)
    requires
        s.para.in_para,
        telling::no_move_s(s),
        t.name == "w:ins"@ || t.name == "w:del"@ || t.name == "w:moveFrom"@ || t.name == "w:moveTo"@,
    ensures
        ({
            let e = hearing::hear_s(s, Piece::Open(t));
            &&& e == tracked_s(s, e.run.track)
            &&& e.run.track matches Some(x) && {
                &&& t.name == "w:ins"@ <==> x.kind == TrackKind::Ins
                &&& t.name == "w:del"@ <==> x.kind == TrackKind::Del
                &&& t.name == "w:moveFrom"@ <==> x.kind == TrackKind::MoveFrom
                &&& t.name == "w:moveTo"@ <==> x.kind == TrackKind::MoveTo
                &&& events::attr_s(t, "w:author"@) matches Some(a) ==> x.author == a
                &&& events::attr_s(t, "w:date"@) matches Some(a) ==> x.date == a
                &&& events::attr_u64_s(t, "w:id"@) matches Some(n) ==> x.id == n
            }
        }),
        hearing::hear_s(s, Piece::Close(t.name)) == tracked_s(s, None),
{
    names::lemma_codes();
    let kind = if t.name == "w:ins"@ {
        TrackKind::Ins
    } else if t.name == "w:del"@ {
        TrackKind::Del
    } else if t.name == "w:moveFrom"@ {
        TrackKind::MoveFrom
    } else {
        TrackKind::MoveTo
    };
    telling::lemma_open_wrapper(s, t, kind);
    telling::lemma_close_wrapper(s, t.name, kind);
}

} // verus!
