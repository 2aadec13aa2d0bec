//! The items of a body read back, in order, from the markup that they are written as.

use vstd::prelude::*;
use crate::commentback;
use crate::events::XmlStepV;
use crate::export;
use crate::headers;
use crate::hearing;
use crate::import;
use crate::import::{AnchorReaderV, DocReaderV, ImportItemV};
use crate::markup;
use crate::markup::Piece;
use crate::para::ExportSpansV;
use crate::paragraph::Pen;
use crate::retelling;
use crate::retelling::goes_s;
use crate::tables;
use crate::tables::Walk;
use crate::types::{BodyItemV, ParagraphV};
use crate::wholepara;
use crate::wholepara::kept_paragraph_s;
use crate::wholetable;
use crate::wholetable::outside_tables_s;

verus! {

broadcast use vstd::string::group_string_axioms;

// ---------------------------------------------------------------- items

/// Whether an item of the body is such as markup states, where it is written.
pub open spec fn item_fits_s(w: Walk, item: BodyItemV, ps: Seq<ParagraphV>, sp: ExportSpansV) -> bool {
    match item {
        BodyItemV::Paragraph => {
            &&& w.pos < ps.len()
            &&& wholepara::para_ids_fresh_s(w.pen, ps[w.pos], w.pos, sp)
        },
        BodyItemV::Table(t) => wholetable::table_fits_s(w, t, ps, 0, sp),
    }
}

/// The item that is read where this one is written: the paragraph at the walk's place, or the table
/// with the paragraphs from there on.
pub open spec fn item_kept_s(
    w: Walk,
    item: BodyItemV,
    ps: Seq<ParagraphV>,
    sp: ExportSpansV,
) -> ImportItemV {
    match item {
        BodyItemV::Paragraph => ImportItemV::Paragraph(kept_paragraph_s(ps[w.pos])),
        BodyItemV::Table(t) => wholetable::table_item_s(
            w,
            t,
            ps,
            tables::tbl_s(w, t, ps, 0, sp).pos,
        ),
    }
}

/// Whether `e` is the reader `s` with these items read.
pub open spec fn items_read_s(s: DocReaderV, e: DocReaderV, v: Seq<ImportItemV>) -> bool {
    &&& e.items == s.items + v
    &&& e == (DocReaderV {
        para: e.para,
        run: e.run,
        items: e.items,
        marks: AnchorReaderV { appended: e.marks.appended, ..s.marks },
        stats: e.stats,
        ..s
    })
    &&& outside_tables_s(e)
}

proof fn lemma_item(s: DocReaderV, w: Walk, item: BodyItemV, ps: Seq<ParagraphV>, sp: ExportSpansV) -> (o: (
    Seq<Piece>,
    DocReaderV,
    Seq<char>,
))
    requires
        outside_tables_s(s),
        0 <= w.pos <= ps.len(),
        wholetable::simple_paras_s(ps, 0, sp),
        item_fits_s(w, item, ps, sp),
    ensures
        goes_s(s, o.0, o.1, o.2),
        items_read_s(s, o.1, seq![item_kept_s(w, item, ps, sp)]),
        0 <= export::item_s(w, item, ps, sp).pos <= ps.len(),
        export::item_s(w, item, ps, sp).pen.text == w.pen.text + o.2,
{
    reveal(export::item_s);
    let k = item_kept_s(w, item, ps, sp);
    match item {
        BodyItemV::Paragraph => {
            let p = ps[w.pos];
            assert(wholepara::simple_para_s(p) && wholepara::no_ranges_s(sp, 0 + w.pos));
            let (v, e, x) = wholepara::lemma_para(w.pen, p, w.pos, sp, s);
            assert(s.items + seq![k] =~= s.items.push(k));
            (v, e, x)
        },
        BodyItemV::Table(t) => {
            let (v, e, x) = wholetable::lemma_table(s, w, t, ps, 0, sp);
            assert(s.items + seq![k] =~= s.items.push(k));
            (v, e, x)
        },
    }
}

/// Whether each item of a body fits where it is written.
pub open spec fn items_fit_s(
    w: Walk,
    body: Seq<BodyItemV>,
    ps: Seq<ParagraphV>,
    sp: ExportSpansV,
) -> bool {
    forall|i: int|
        0 <= i < body.len() ==> item_fits_s(
            #[trigger] export::items_s(w, body, ps, sp, i as nat),
            body[i],
            ps,
            sp,
        )
}

/// The items that are read where these are written.
pub open spec fn items_kept_s(
    w: Walk,
    body: Seq<BodyItemV>,
    ps: Seq<ParagraphV>,
    sp: ExportSpansV,
    n: nat,
) -> Seq<ImportItemV> {
    Seq::new(
        n,
        |i: int| item_kept_s(export::items_s(w, body, ps, sp, i as nat), body[i], ps, sp),
    )
}

proof fn lemma_kept_item(
    a: Seq<ImportItemV>,
    w: Walk,
    body: Seq<BodyItemV>,
    ps: Seq<ParagraphV>,
    sp: ExportSpansV,
    m: nat,
)
    ensures
        a + items_kept_s(w, body, ps, sp, m + 1) == a + items_kept_s(w, body, ps, sp, m) + seq![
            item_kept_s(export::items_s(w, body, ps, sp, m), body[m as int], ps, sp),
        ],
{
    let k = item_kept_s(export::items_s(w, body, ps, sp, m), body[m as int], ps, sp);
    assert(a + items_kept_s(w, body, ps, sp, m + 1) =~= a + items_kept_s(w, body, ps, sp, m) + seq![k]);
}

#[verifier::rlimit(60)]
#[verifier::spinoff_prover]
proof fn lemma_items(
    s: DocReaderV,
    w: Walk,
    body: Seq<BodyItemV>,
    ps: Seq<ParagraphV>,
    sp: ExportSpansV,
    n: nat,
) -> (o: (Seq<Piece>, DocReaderV, Seq<char>))
    requires
        outside_tables_s(s),
        0 <= w.pos <= ps.len(),
        n <= body.len(),
        wholetable::simple_paras_s(ps, 0, sp),
        items_fit_s(w, body, ps, sp),
    ensures
        goes_s(s, o.0, o.1, o.2),
        items_read_s(s, o.1, items_kept_s(w, body, ps, sp, n)),
        0 <= export::items_s(w, body, ps, sp, n).pos <= ps.len(),
        export::items_s(w, body, ps, sp, n).pen.text == w.pen.text + o.2,
    decreases n,
{
    let e = Seq::<char>::empty();
    if n == 0 {
        retelling::lemma_goes_none(s);
        assert(w.pen.text + e =~= w.pen.text);
        assert(s.items + items_kept_s(w, body, ps, sp, 0) =~= s.items);
        (Seq::empty(), s, e)
    } else {
        let m = (n - 1) as nat;
        let (v, a, x) = lemma_items(s, w, body, ps, sp, m);
        let mid = export::items_s(w, body, ps, sp, m);
        let item = body[m as int];
        assert(item_fits_s(
            export::items_s(w, body, ps, sp, m as int as nat),
            body[m as int],
            ps,
            sp,
        ));
        let (u, b, y) = lemma_item(a, mid, item, ps, sp);
        retelling::lemma_goes_both(s, v, a, x, u, b, y);
        markup::lemma_assoc(w.pen.text, x, y);
        lemma_kept_item(s.items, w, body, ps, sp, m);
        (v + u, b, x + y)
    }
}

/// Whether markup `v` is what is written of a body's items, and reading it takes the reader to `e`.
pub open spec fn body_back_s(
    w: Walk,
    body: Seq<BodyItemV>,
    ps: Seq<ParagraphV>,
    sp: ExportSpansV,
    s: DocReaderV,
    v: Seq<Piece>,
    e: DocReaderV,
) -> bool {
    let n = body.len();
    &&& export::items_s(w, body, ps, sp, n).pen.text == w.pen.text + markup::text_s(v, v.len())
    &&& hearing::reads_s(s, v, e)
    &&& items_read_s(s, e, items_kept_s(w, body, ps, sp, n))
}

/// The items that are written of a body read back in order: for each paragraph that paragraph, and
/// for each table that table with the paragraphs of its cells.
pub proof fn law_written_body_reads_back(
    w: Walk,
    body: Seq<BodyItemV>,
    ps: Seq<ParagraphV>,
    sp: ExportSpansV,
    s: DocReaderV,
)
    requires
        outside_tables_s(s),
        0 <= w.pos <= ps.len(),
        wholetable::simple_paras_s(ps, 0, sp),
        items_fit_s(w, body, ps, sp),
    ensures
        exists|v: Seq<Piece>, e: DocReaderV| #[trigger] body_back_s(w, body, ps, sp, s, v, e),
{
    let (v, e, x) = lemma_items(s, w, body, ps, sp, body.len());
    reveal(goes_s);
    hearing::lemma_reads(s, v, e);
    assert(body_back_s(w, body, ps, sp, s, v, e));
}

// ---------------------------------------------------------------- paragraphs alone

/// Whether each paragraph's revision ids are not handed out before their elements are written.
pub open spec fn paras_fit_s(pen: Pen, ps: Seq<ParagraphV>, sp: ExportSpansV) -> bool {
    forall|i: int|
        0 <= i < ps.len() ==> wholepara::para_ids_fresh_s(
            #[trigger] headers::paras_s(pen, ps, sp, i as nat),
            ps[i],
            i,
            sp,
        )
}

/// The first `n` paragraphs as items that are read.
pub open spec fn paras_kept_s(ps: Seq<ParagraphV>, n: nat) -> Seq<ImportItemV> {
    Seq::new(n, |i: int| ImportItemV::Paragraph(kept_paragraph_s(ps[i])))
}

proof fn lemma_paras(s: DocReaderV, pen: Pen, ps: Seq<ParagraphV>, sp: ExportSpansV, n: nat) -> (o: (
    Seq<Piece>,
    DocReaderV,
    Seq<char>,
))
    requires
        outside_tables_s(s),
        n <= ps.len(),
        wholetable::simple_paras_s(ps, 0, sp),
        paras_fit_s(pen, ps, sp),
    ensures
        goes_s(s, o.0, o.1, o.2),
        items_read_s(s, o.1, paras_kept_s(ps, n)),
        headers::paras_s(pen, ps, sp, n).text == pen.text + o.2,
    decreases n,
{
    let e = Seq::<char>::empty();
    if n == 0 {
        retelling::lemma_goes_none(s);
        assert(pen.text + e =~= pen.text);
        assert(s.items + paras_kept_s(ps, 0) =~= s.items);
        (Seq::empty(), s, e)
    } else {
        let m = (n - 1) as nat;
        let (v, a, x) = lemma_paras(s, pen, ps, sp, m);
        let mid = headers::paras_s(pen, ps, sp, m);
        let p = ps[m as int];
        assert(wholepara::para_ids_fresh_s(
            headers::paras_s(pen, ps, sp, m as int as nat),
            ps[m as int],
            m as int,
            sp,
        ));
        assert(wholepara::simple_para_s(p) && wholepara::no_ranges_s(sp, 0 + m as int));
        let (u, b, y) = wholepara::lemma_para(mid, p, m as int, sp, a);
        retelling::lemma_goes_both(s, v, a, x, u, b, y);
        markup::lemma_assoc(pen.text, x, y);
        assert(s.items + paras_kept_s(ps, n) =~= (s.items + paras_kept_s(ps, m)).push(
            ImportItemV::Paragraph(kept_paragraph_s(p)),
        ));
        (v + u, b, x + y)
    }
}

/// Whether markup `v` is what is written of paragraphs, and a part that states it holds them.
pub open spec fn paragraphs_back_s(pen: Pen, ps: Seq<ParagraphV>, sp: ExportSpansV, v: Seq<Piece>) -> bool {
    &&& headers::paras_s(pen, ps, sp, ps.len()).text == pen.text + markup::text_s(v, v.len())
    &&& forall|xml: Seq<u8>, steps: Seq<XmlStepV>|
        markup::told_s(v, commentback::events_of_s(steps)) ==> #[trigger] holds_s(xml, steps, ps)
}

/// Whether a part holds these paragraphs, as they are kept, and nothing else.
pub open spec fn holds_s(xml: Seq<u8>, steps: Seq<XmlStepV>, ps: Seq<ParagraphV>) -> bool {
    match import::document_s(xml, steps) {
        Some(r) => r.items == paras_kept_s(ps, ps.len()),
        None => false,
    }
}

/// A part that states what is written of some paragraphs is read as those paragraphs, in order.
pub proof fn law_written_paragraphs_read_back(pen: Pen, ps: Seq<ParagraphV>, sp: ExportSpansV)
    requires
        wholetable::simple_paras_s(ps, 0, sp),
        paras_fit_s(pen, ps, sp),
    ensures
        exists|v: Seq<Piece>| #[trigger] paragraphs_back_s(pen, ps, sp, v),
{
    let s = DocReaderV::initial();
    let (v, e, x) = lemma_paras(s, pen, ps, sp, ps.len());
    reveal(goes_s);
    assert forall|xml: Seq<u8>, steps: Seq<XmlStepV>|
        markup::told_s(v, commentback::events_of_s(steps)) implies #[trigger] holds_s(xml, steps, ps) by {
        hearing::lemma_document(xml, steps, v, e);
        assert(s.items + paras_kept_s(ps, ps.len()) =~= paras_kept_s(ps, ps.len()));
    }
    assert(paragraphs_back_s(pen, ps, sp, v));
}

} // verus!
