//! Whole paragraphs read back from the markup that they are written as.

use vstd::prelude::*;
use crate::hearing;
use crate::import;
use crate::import::{AnchorReaderV, DocReaderV, ImportItemV};
use crate::import_table;
use crate::import_text;
use crate::import_text::{ParaReaderV, RunReaderV};
use crate::markup;
use crate::markup::Piece;
use crate::names;
use crate::para;
use crate::para::{ExportSpansV, MovePen};
use crate::paragraph;
use crate::paragraph::Pen;
use crate::pprtold;
use crate::rereading;
use crate::rereading::{between_runs_s, kept_s, run_read_s, tracked_s, wrapper_tag_s};
use crate::retelling;
use crate::retelling::{goes_s, look_s, props_read_s, stated_look_s};
use crate::strs;
use crate::telling;
use crate::types::{ImportStats, ParaPropsV, ParagraphV, RunV, TrackV};
use crate::xml;

verus! {

broadcast use vstd::string::group_string_axioms;

// ---------------------------------------------------------------- one run

/// The markup of a run, without its revision.
pub open spec fn inner_s(r: RunV) -> Seq<char> {
    if r.text == "\t"@ {
        "<w:r>"@ + paragraph::rpr_s(r) + "<w:tab/></w:r>"@
    } else {
        paragraph::run_of_s(r, xml::esc_s(r.text))
    }
}

proof fn lemma_tab(s: DocReaderV)
    requires
        s.run.in_run,
        !s.para.in_tabs,
    ensures
        hearing::hear_s(s, markup::bare_s("w:tab"@)) == (DocReaderV {
            para: ParaReaderV {
                segs: s.para.segs.push(RunV { text: "\t"@, track: s.run.track, ..s.run.cur }),
                ..s.para
            },
            ..s
        }),
        hearing::fits_s(s, markup::bare_s("w:tab"@)),
{
    reveal(hearing::hear_s);
    names::lemma_codes();
}

proof fn lemma_tab_lits()
    ensures
        "<w:r>"@ == "<"@ + "w:r"@ + ">"@,
        "<w:tab/></w:r>"@ == markup::piece_text_s(markup::bare_s("w:tab"@)) + markup::piece_text_s(
            Piece::Close("w:r"@),
        ),
{
    reveal_strlit("<w:r>");
    reveal_strlit("<w:tab/></w:r>");
    reveal_strlit("<");
    reveal_strlit("</");
    reveal_strlit(">");
    reveal_strlit("/>");
    reveal_strlit("w:r");
    reveal_strlit("w:tab");
    assert("<w:r>"@ =~= "<"@ + "w:r"@ + ">"@);
    markup::lemma_bare_text("w:tab"@, "<"@ + "w:tab"@ + "/>"@);
    assert("<w:tab/></w:r>"@ =~= ("<"@ + "w:tab"@ + "/>"@) + ("</"@ + "w:r"@ + ">"@));
}

proof fn lemma_tab_run(s: DocReaderV, r: RunV) -> (o: (Seq<Piece>, DocReaderV))
    requires
        between_runs_s(s),
        stated_look_s(r),
        r.text == "\t"@,
    ensures
        goes_s(s, o.0, o.1, inner_s(r)),
        run_read_s(s, o.1, RunV { text: r.text, track: s.run.track, ..look_s(r) }),
{
    lemma_tab_lits();
    markup::lemma_open_text("w:r"@, "<w:r>"@);
    let p = markup::open_s("w:r"@);
    telling::lemma_open_run(s);
    let a = hearing::hear_s(s, p);
    let (w, b) = retelling::lemma_rpr(a, r);
    lemma_tab(b);
    let t = markup::bare_s("w:tab"@);
    let s1 = hearing::hear_s(b, t);
    let q = Piece::Close("w:r"@);
    telling::lemma_close_run(s1);
    let s2 = hearing::hear_s(s1, q);
    let e = Seq::<char>::empty();
    let x1 = "<w:r>"@;
    let x2 = paragraph::rpr_s(r);
    let x3 = markup::piece_text_s(t);
    let x4 = markup::piece_text_s(q);
    retelling::lemma_goes_none(s);
    retelling::lemma_goes_on(s, Seq::empty(), s, e, p, x1, a);
    assert(e + x1 =~= x1);
    let u1 = Seq::<Piece>::empty() + seq![p];
    retelling::lemma_goes_both(s, u1, a, x1, w, b, x2);
    let u2 = u1 + w;
    retelling::lemma_goes_on(s, u2, b, x1 + x2, t, x3, s1);
    retelling::lemma_goes_on(s, u2 + seq![t], s1, x1 + x2 + x3, q, x4, s2);
    markup::lemma_assoc(x1 + x2, x3, x4);
    (u2 + seq![t] + seq![q], s2)
}

/// Whether a run is text or a tab, with nothing but its look and a revision that is no move.
pub open spec fn simple_run_s(r: RunV) -> bool {
    &&& stated_look_s(r)
    &&& r.text.len() > 0
    &&& !paragraph::has_field_s(r.text)
    &&& r.track matches Some(t) ==> rereading::of_runs_s(t) && !t.kind.is_move_s()
    &&& r.comments.len() == 0
    &&& r.field is None
    &&& r.bookmarks.len() == 0
    &&& r.point_bookmarks.len() == 0
    &&& r.end_point_bookmarks.len() == 0
    &&& r.link is None
    &&& r.image is None
    &&& r.raw is None
}

proof fn lemma_inner(s: DocReaderV, r: RunV) -> (o: (Seq<Piece>, DocReaderV))
    requires
        between_runs_s(s),
        simple_run_s(r),
        s.run.track == r.track,
    ensures
        goes_s(s, o.0, o.1, inner_s(r)),
        run_read_s(s, o.1, kept_s(r)),
{
    if r.text == "\t"@ {
        lemma_tab_run(s, r)
    } else {
        rereading::lemma_run(s, r)
    }
}

// ---------------------------------------------------------------- the runs of a paragraph

/// Whether no range opens or closes in a paragraph.
pub open spec fn no_ranges_s(sp: ExportSpansV, p: int) -> bool {
    forall|i: int|
        #![trigger para::ids_at_s(sp.copens, p, i)]
        #![trigger para::id_at_s(sp.fopens, p, i)]
        {
            &&& para::id_at_s(sp.fopens, p, i) is None
            &&& para::id_at_s(sp.fcloses, p, i) is None
            &&& para::ids_at_s(sp.copens, p, i).len() == 0
            &&& para::ids_at_s(sp.ccloses, p, i).len() == 0
            &&& para::ids_at_s(sp.bopens, p, i).len() == 0
            &&& para::ids_at_s(sp.bcloses, p, i).len() == 0
        }
}

pub open spec fn simple_runs_s(v: Seq<RunV>) -> bool {
    forall|i: int| 0 <= i < v.len() ==> simple_run_s(#[trigger] v[i])
}

/// Whether run `i` goes on with the revision element of the run before it.
pub open spec fn goes_on_s(v: Seq<RunV>, i: int) -> bool {
    0 < i < v.len() && v[i].track is Some && v[i - 1].track == v[i].track
}

/// What is written of run `i` of simple runs: its markup, with the revision element opened before it
/// and closed after it where the neighbours do not share it.
pub open spec fn simple_text_s(v: Seq<RunV>, i: int) -> Seq<char> {
    (match v[i].track {
        Some(t) if !goes_on_s(v, i) => "<"@ + t.kind.wrapper_s() + paragraph::revision_s(
            t.id as nat,
            t.author,
            t.date,
        ) + ">"@,
        _ => Seq::empty(),
    }) + inner_s(v[i]) + (match v[i].track {
        Some(t) if !goes_on_s(v, i + 1) => "</"@ + t.kind.wrapper_s() + ">"@,
        _ => Seq::empty(),
    })
}

/// Whether the id of each revision is not handed out before its element is written.
pub open spec fn fresh_ids_s(m: MovePen, v: Seq<RunV>, sp: ExportSpansV, p: int) -> bool {
    forall|i: int|
        0 <= i < v.len() && !goes_on_s(v, i) ==> rereading::unused_id_s(
            (#[trigger] para::runs_s(m, v, sp, p, i as nat)).pen,
            v[i].track,
        )
}

pub(crate) proof fn lemma_put_nothing(pen: Pen)
    ensures
        pen.put(Seq::empty()) == pen,
{
    assert(pen.text + Seq::<char>::empty() =~= pen.text);
}

proof fn lemma_no_marks(m: MovePen, v: Seq<RunV>, i: int, sp: ExportSpansV, p: int)
    requires
        0 <= i < v.len(),
        simple_runs_s(v),
        no_ranges_s(sp, p),
    ensures
        para::run_step_s(m, v, i, sp, p) == (MovePen {
            pen: para::body_s(m.pen, v, i, sp, p),
            mark: m.mark,
        }),
{
    let r = v[i];
    assert(simple_run_s(r));
    assert(para::id_at_s(sp.fopens, p, i) is None);
    assert(para::ids_at_s(sp.copens, p, i) =~= Seq::empty());
    assert(para::ids_at_s(sp.bopens, p, i) =~= Seq::empty());
    assert(para::ids_at_s(sp.bcloses, p, i) =~= Seq::empty());
    assert(para::ids_at_s(sp.ccloses, p, i) =~= Seq::empty());
    lemma_put_nothing(m.pen);
    lemma_put_nothing(para::body_s(m.pen, v, i, sp, p));
}

proof fn lemma_grouped(v: Seq<RunV>, sp: ExportSpansV, p: int, i: int)
    requires
        simple_runs_s(v),
        no_ranges_s(sp, p),
    ensures
        para::grouped_s(v, sp, p, i) == goes_on_s(v, i + 1),
{
    if 0 <= i && i + 1 < v.len() {
        assert(simple_run_s(v[i]));
        assert(simple_run_s(v[i + 1]));
        assert(para::ids_at_s(sp.copens, p, i).len() == 0);
        assert(para::ids_at_s(sp.copens, p, i + 1).len() == 0);
    }
}

proof fn lemma_body_text(pen: Pen, v: Seq<RunV>, i: int, sp: ExportSpansV, p: int)
    requires
        0 <= i < v.len(),
        simple_runs_s(v),
        no_ranges_s(sp, p),
        !goes_on_s(v, i) ==> rereading::unused_id_s(pen, v[i].track),
    ensures
        para::body_s(pen, v, i, sp, p).text == pen.text + simple_text_s(v, i),
{
    let r = v[i];
    assert(simple_run_s(r));
    lemma_grouped(v, sp, p, i);
    lemma_grouped(v, sp, p, i - 1);
    let e = Seq::<char>::empty();
    let x = inner_s(r);
    if let Some(t) = r.track {
        let a = if goes_on_s(v, i) {
            e
        } else {
            "<"@ + t.kind.wrapper_s() + paragraph::revision_s(t.id as nat, t.author, t.date) + ">"@
        };
        let c = if goes_on_s(v, i + 1) {
            e
        } else {
            "</"@ + t.kind.wrapper_s() + ">"@
        };
        assert(pen.text + e =~= pen.text);
        assert(pen.text + a + x + e =~= pen.text + a + x);
        markup::lemma_assoc(pen.text, a, x);
        markup::lemma_assoc(pen.text, a + x, c);
    } else {
        assert(e + x + e =~= x);
    }
}

/// Whether `e` is the reader `s` after runs, the last of which is still inside its revision where
/// `open` is one.
pub open spec fn runs_read_s(s: DocReaderV, e: DocReaderV, v: Seq<RunV>, open: Option<TrackV>) -> bool {
    e == (DocReaderV {
        para: ParaReaderV { segs: s.para.segs + v, ..s.para },
        run: RunReaderV {
            cur: e.run.cur,
            author: e.run.author,
            date: e.run.date,
            id: e.run.id,
            saved: e.run.saved,
            track: open,
            ..s.run
        },
        ..s
    })
}

pub open spec fn all_kept_s(v: Seq<RunV>, n: nat) -> Seq<RunV> {
    Seq::new(n, |i: int| kept_s(v[i]))
}

spec fn open_after_s(v: Seq<RunV>, n: nat) -> Option<TrackV> {
    if goes_on_s(v, n as int) {
        v[n - 1].track
    } else {
        None
    }
}

/// One run with the edges of its revision, from a place where the revision is open or not.
proof fn lemma_step(s: DocReaderV, v: Seq<RunV>, i: int) -> (o: (Seq<Piece>, DocReaderV))
    requires
        0 <= i < v.len(),
        simple_run_s(v[i]),
        between_runs_s(s),
        s.run.track == open_after_s(v, i as nat),
    ensures
        goes_s(s, o.0, o.1, simple_text_s(v, i)),
        runs_read_s(s, o.1, seq![kept_s(v[i])], open_after_s(v, (i + 1) as nat)),
{
    let r = v[i];
    let e = Seq::<char>::empty();
    retelling::lemma_goes_none(s);
    match r.track {
        Some(t) => {
            let a = if goes_on_s(v, i) {
                e
            } else {
                "<"@ + t.kind.wrapper_s() + paragraph::revision_s(t.id as nat, t.author, t.date)
                    + ">"@
            };
            let p = Piece::Open(wrapper_tag_s(t));
            let s1 = tracked_s(s, Some(t));
            rereading::lemma_wrapper(s, t);
            let v1 = if goes_on_s(v, i) {
                assert(s1 == s);
                Seq::<Piece>::empty()
            } else {
                retelling::lemma_goes_on(s, Seq::empty(), s, e, p, a, s1);
                assert(e + a =~= a);
                Seq::<Piece>::empty() + seq![p]
            };
            let (w, s2) = lemma_inner(s1, r);
            retelling::lemma_goes_both(s, v1, s1, a, w, s2, inner_s(r));
            let v2 = v1 + w;
            assert(s.para.segs.push(kept_s(r)) =~= s.para.segs + seq![kept_s(r)]);
            if goes_on_s(v, i + 1) {
                assert(a + inner_s(r) + e =~= a + inner_s(r));
                (v2, s2)
            } else {
                let q = Piece::Close(t.kind.wrapper_s());
                rereading::lemma_wrapper_end(s2, t);
                let s3 = tracked_s(s2, None);
                retelling::lemma_goes_on(
                    s,
                    v2,
                    s2,
                    a + inner_s(r),
                    q,
                    "</"@ + t.kind.wrapper_s() + ">"@,
                    s3,
                );
                (v2 + seq![q], s3)
            }
        },
        None => {
            let (w, s2) = lemma_inner(s, r);
            assert(e + inner_s(r) + e =~= inner_s(r));
            assert(s.para.segs.push(kept_s(r)) =~= s.para.segs + seq![kept_s(r)]);
            (w, s2)
        },
    }
}

proof fn lemma_runs(s: DocReaderV, m: MovePen, v: Seq<RunV>, sp: ExportSpansV, p: int, n: nat) -> (o: (
    Seq<Piece>,
    DocReaderV,
    Seq<char>,
))
    requires
        n <= v.len(),
        simple_runs_s(v),
        no_ranges_s(sp, p),
        fresh_ids_s(m, v, sp, p),
        between_runs_s(s),
        s.run.track is None,
    ensures
        goes_s(s, o.0, o.1, o.2),
        para::runs_s(m, v, sp, p, n).pen.text == m.pen.text + o.2,
        runs_read_s(s, o.1, all_kept_s(v, n), open_after_s(v, n)),
    decreases n,
{
    let e = Seq::<char>::empty();
    if n == 0 {
        retelling::lemma_goes_none(s);
        assert(m.pen.text + e =~= m.pen.text);
        assert(s.para.segs + all_kept_s(v, 0) =~= s.para.segs);
        (Seq::empty(), s, e)
    } else {
        let k = (n - 1) as nat;
        let (w, a, x) = lemma_runs(s, m, v, sp, p, k);
        let (u, b) = lemma_step(a, v, k as int);
        let y = simple_text_s(v, k as int);
        retelling::lemma_goes_both(s, w, a, x, u, b, y);
        let q = para::runs_s(m, v, sp, p, k);
        lemma_no_marks(q, v, k as int, sp, p);
        lemma_body_text(q.pen, v, k as int, sp, p);
        markup::lemma_assoc(m.pen.text, x, y);
        assert(a.para.segs + seq![kept_s(v[k as int])] =~= s.para.segs + all_kept_s(v, n));
        (w + u, b, x + y)
    }
}

// ---------------------------------------------------------------- the paragraph

/// Whether a paragraph is simple text with properties that markup states and no break after it.
pub open spec fn simple_para_s(p: ParagraphV) -> bool {
    &&& simple_runs_s(p.runs)
    &&& pprtold::stated_block_s(p)
    &&& !p.props.page_break_after
    &&& !p.props.column_break_after
}

/// What is kept of a simple paragraph.
pub open spec fn kept_paragraph_s(p: ParagraphV) -> ParagraphV {
    ParagraphV {
        style: p.style,
        props: pprtold::told_props_s(p.props),
        runs: all_kept_s(p.runs, p.runs.len()),
        prop_change: p.prop_change,
        mark_change: p.mark_change,
    }
}

/// Whether the reader stands between paragraphs.
pub open spec fn between_paras_s(s: DocReaderV) -> bool {
    &&& s.skip is None
    &&& !s.para.in_para
    &&& !s.para.in_mark_rpr
    &&& !s.para.in_pbdr
    &&& !s.para.in_tabs
    &&& !s.run.in_run
    &&& !s.run.in_rpr
    &&& !s.run.capturing
    &&& !s.run.capturing_instr
    &&& !s.run.del_text
    &&& !s.run.field_active
    &&& s.run.text.len() == 0
    &&& s.run.track is None
    &&& !s.tbl.in_trpr
    &&& !s.ends_section
    &&& telling::no_move_s(s)
}

proof fn lemma_open_para(s: DocReaderV)
    requires
        s.tbl.depth == 0 || (s.tbl.depth == 1 && s.tbl.cell is Some),
    ensures
        hearing::hear_s(s, markup::open_s("w:p"@)) == (DocReaderV {
            para: import_text::para_opened_s(s.para),
            ..s
        }),
        hearing::fits_s(s, markup::open_s("w:p"@)),
{
    reveal(hearing::hear_s);
    names::lemma_codes();
}

pub(crate) proof fn lemma_close_para(s: DocReaderV)
    ensures
        hearing::hear_s(s, Piece::Close("w:p"@)) == import::para_closed_s(s),
        hearing::fits_s(s, Piece::Close("w:p"@)),
{
    reveal(hearing::hear_s);
    names::lemma_codes();
}

pub(crate) proof fn lemma_para_lits()
    ensures
        "<w:p>"@ == "<"@ + "w:p"@ + ">"@,
        "</w:p>"@ == "</"@ + "w:p"@ + ">"@,
{
    reveal_strlit("<w:p>");
    reveal_strlit("</w:p>");
    reveal_strlit("<");
    reveal_strlit("</");
    reveal_strlit(">");
    reveal_strlit("w:p");
    assert("<w:p>"@ =~= "<"@ + "w:p"@ + ">"@);
    assert("</w:p>"@ =~= "</"@ + "w:p"@ + ">"@);
}

/// The reader at the end of a paragraph's runs.
pub open spec fn para_told_s(s: DocReaderV, e: DocReaderV, p: ParagraphV) -> bool {
    &&& e == (DocReaderV { para: e.para, run: e.run, ..s })
    &&& e.para.in_para
    &&& import_text::read_para_s(e.para) == kept_paragraph_s(p)
    &&& !e.para.in_mark_rpr
    &&& !e.para.in_pbdr
    &&& !e.para.in_tabs
    &&& e.run == (RunReaderV {
        cur: e.run.cur,
        author: e.run.author,
        date: e.run.date,
        id: e.run.id,
        saved: e.run.saved,
        ..s.run
    })
}

pub open spec fn para_ids_fresh_s(pen: Pen, p: ParagraphV, at: int, sp: ExportSpansV) -> bool {
    fresh_ids_s(
        MovePen { pen: pen.put("<w:p>"@).put(paragraph::ppr_s(p)), mark: None },
        p.runs,
        sp,
        at,
    )
}

proof fn lemma_para_text(pen: Pen, p: ParagraphV, at: int, sp: ExportSpansV, x: Seq<char>)
    requires
        simple_para_s(p),
        para::runs_s(
            MovePen { pen: pen.put("<w:p>"@).put(paragraph::ppr_s(p)), mark: None },
            p.runs,
            sp,
            at,
            p.runs.len(),
        ).pen.text == pen.text + "<w:p>"@ + paragraph::ppr_s(p) + x,
    ensures
        para::para_s(pen, p, at, sp).text == pen.text + ("<w:p>"@ + paragraph::ppr_s(p) + x
            + "</w:p>"@),
{
    reveal(para::para_s);
    let a = pen.text;
    let b = "<w:p>"@;
    let c = paragraph::ppr_s(p);
    let d = "</w:p>"@;
    let e = Seq::<char>::empty();
    assert(a + b + c + x + e =~= a + b + c + x);
    markup::lemma_assoc(a, b, c);
    markup::lemma_assoc(a, b + c, x);
    markup::lemma_assoc(a, b + c + x, d);
}

/// A paragraph's markup up to its end.
pub(crate) proof fn lemma_para_open(
    pen: Pen,
    p: ParagraphV,
    at: int,
    sp: ExportSpansV,
    s: DocReaderV,
) -> (o: (Seq<Piece>, DocReaderV, Seq<char>))
    requires
        between_paras_s(s),
        s.tbl.depth == 0 || (s.tbl.depth == 1 && s.tbl.cell is Some),
        simple_para_s(p),
        no_ranges_s(sp, at),
        para_ids_fresh_s(pen, p, at, sp),
    ensures
        goes_s(s, o.0, o.1, o.2),
        para_told_s(s, o.1, p),
        para::para_s(pen, p, at, sp).text == pen.text + (o.2 + "</w:p>"@),
{
    lemma_para_lits();
    markup::lemma_open_text("w:p"@, "<w:p>"@);
    lemma_open_para(s);
    let q = markup::open_s("w:p"@);
    let s1 = hearing::hear_s(s, q);
    let (w, s2) = pprtold::lemma_ppr(s1, p);
    retelling::lemma_goes_tags(s1, w, s2, paragraph::ppr_s(p));
    let m = MovePen { pen: pen.put("<w:p>"@).put(paragraph::ppr_s(p)), mark: None };
    let (u, s3, x) = lemma_runs(s2, m, p.runs, sp, at, p.runs.len());
    let e = Seq::<char>::empty();
    let o1 = "<w:p>"@;
    retelling::lemma_goes_none(s);
    retelling::lemma_goes_on(s, Seq::empty(), s, e, q, o1, s1);
    assert(e + o1 =~= o1);
    let v1 = Seq::<Piece>::empty() + seq![q];
    retelling::lemma_goes_both(s, v1, s1, o1, w, s2, paragraph::ppr_s(p));
    retelling::lemma_goes_both(s, v1 + w, s2, o1 + paragraph::ppr_s(p), u, s3, x);
    lemma_para_text(pen, p, at, sp, x);
    assert(s3.para.segs =~= all_kept_s(p.runs, p.runs.len()));
    (v1 + w + u, s3, o1 + paragraph::ppr_s(p) + x)
}

/// Whether `e` is the reader `s` with one more paragraph of the body read.
pub open spec fn para_read_s(s: DocReaderV, e: DocReaderV, p: ParagraphV) -> bool {
    &&& e == (DocReaderV {
        para: e.para,
        run: e.run,
        items: s.items.push(ImportItemV::Paragraph(p)),
        marks: AnchorReaderV { appended: (s.marks.appended + 1) as usize, ..s.marks },
        stats: ImportStats { paragraphs: (s.stats.paragraphs + 1) as usize, ..s.stats },
        ..s
    })
    &&& between_paras_s(e)
}

pub(crate) proof fn lemma_para(pen: Pen, p: ParagraphV, at: int, sp: ExportSpansV, s: DocReaderV) -> (o: (
    Seq<Piece>,
    DocReaderV,
    Seq<char>,
))
    requires
        between_paras_s(s),
        s.tbl.depth == 0,
        simple_para_s(p),
        no_ranges_s(sp, at),
        para_ids_fresh_s(pen, p, at, sp),
    ensures
        goes_s(s, o.0, o.1, o.2),
        para_read_s(s, o.1, kept_paragraph_s(p)),
        para::para_s(pen, p, at, sp).text == pen.text + o.2,
{
    let (v, a, x) = lemma_para_open(pen, p, at, sp, s);
    lemma_para_lits();
    lemma_close_para(a);
    let q = Piece::Close("w:p"@);
    let e = hearing::hear_s(a, q);
    retelling::lemma_goes_on(s, v, a, x, q, "</w:p>"@, e);
    (v + seq![q], e, x + "</w:p>"@)
}

/// Whether markup `v` is what is written of a paragraph, and reading it takes the reader to `e`.
pub open spec fn paragraph_back_s(
    pen: Pen,
    p: ParagraphV,
    at: int,
    sp: ExportSpansV,
    s: DocReaderV,
    v: Seq<Piece>,
    e: DocReaderV,
) -> bool {
    &&& para::para_s(pen, p, at, sp).text == pen.text + markup::text_s(v, v.len())
    &&& hearing::reads_s(s, v, e)
    &&& para_read_s(s, e, kept_paragraph_s(p))
}

/// What is written of a paragraph of text reads back as that paragraph: its properties, and its
/// runs in order, each with its text, its look and its revision.
pub proof fn law_written_paragraph_reads_back(
    pen: Pen,
    p: ParagraphV,
    at: int,
    sp: ExportSpansV,
    s: DocReaderV,
)
    requires
        between_paras_s(s),
        s.tbl.depth == 0,
        simple_para_s(p),
        no_ranges_s(sp, at),
        para_ids_fresh_s(pen, p, at, sp),
    ensures
        exists|v: Seq<Piece>, e: DocReaderV| #[trigger] paragraph_back_s(pen, p, at, sp, s, v, e),
{
    let (v, e, x) = lemma_para(pen, p, at, sp, s);
    reveal(goes_s);
    hearing::lemma_reads(s, v, e);
    assert(paragraph_back_s(pen, p, at, sp, s, v, e));
}

} // verus!
