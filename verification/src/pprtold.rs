//! The properties block of a paragraph reads back from its markup.

use vstd::prelude::*;
use crate::celltold;
use crate::events;
use crate::events::XmlTagV;
use crate::hearing;
use crate::import::DocReaderV;
use crate::import_text::{ParaReaderV, RunReaderV};
use crate::markup;
use crate::markup::Piece;
use crate::names;
use crate::paragraph;
use crate::paratold;
use crate::paratold::{in_props_s, kept_para_s, stated_para_s, styled_s, with_para_s};
use crate::rereading;
use crate::strs;
use crate::telling;
use crate::telling::told_so_far_s;
use crate::types::{ParaPropChangeV, ParaPropsV, ParagraphV, TrackKind, TrackV};
use crate::xml;

verus! {

broadcast use vstd::string::group_string_axioms;

// ---------------------------------------------------------------- the paragraph mark

/// Whether the reader stands among the run properties of a paragraph mark.
spec fn in_mark_s(s: DocReaderV) -> bool {
    s.para.in_para && s.para.in_mark_rpr && !s.run.in_run && !s.run.in_rpr
}

proof fn lemma_open_mark(s: DocReaderV)
    requires
        in_props_s(s),
    ensures
        hearing::hear_s(s, markup::open_s("w:rPr"@)) == with_para_s(
            s,
            ParaReaderV { in_mark_rpr: true, ..s.para },
        ),
        hearing::fits_s(s, markup::open_s("w:rPr"@)),
{
    reveal(hearing::hear_s);
    names::lemma_codes();
}

proof fn lemma_close_mark(s: DocReaderV)
    requires
        in_mark_s(s),
    ensures
        hearing::hear_s(s, Piece::Close("w:rPr"@)) == with_para_s(
            s,
            ParaReaderV { in_mark_rpr: false, ..s.para },
        ),
        hearing::fits_s(s, Piece::Close("w:rPr"@)),
{
    reveal(hearing::hear_s);
    names::lemma_codes();
}

proof fn lemma_mark_revision(s: DocReaderV, t: XmlTagV, kind: TrackKind)
    requires
        in_mark_s(s),
        telling::wraps_s(t.name, kind),
    ensures
        hearing::hear_s(s, Piece::Bare(t)) == with_para_s(
            s,
            ParaReaderV { mark: Some(events::revision_track_s(t, kind)), ..s.para },
        ),
        hearing::fits_s(s, Piece::Bare(t)),
{
    reveal(hearing::hear_s);
    names::lemma_codes();
}

proof fn lemma_mark_size(s: DocReaderV, t: XmlTagV)
    requires
        in_mark_s(s),
        t.name == "w:sz"@,
    ensures
        hearing::hear_s(s, Piece::Bare(t)) == with_para_s(
            s,
            ParaReaderV {
                props: ParaPropsV { mark_size: events::attr_u32_s(t, "w:val"@), ..s.para.props },
                ..s.para
            },
        ),
        hearing::fits_s(s, Piece::Bare(t)),
{
    reveal(hearing::hear_s);
    names::lemma_codes();
}

proof fn lemma_mark_size_cs(s: DocReaderV, t: XmlTagV)
    requires
        in_mark_s(s),
        t.name == "w:szCs"@,
    ensures
        hearing::hear_s(s, Piece::Bare(t)) == s,
        hearing::fits_s(s, Piece::Bare(t)),
{
    reveal(hearing::hear_s);
    names::lemma_codes();
}

/// The reader with the revision and the size of the open paragraph's mark.
pub open spec fn marked_s(s: DocReaderV, m: Option<TrackV>, n: Option<u32>) -> DocReaderV {
    with_para_s(
        s,
        ParaReaderV { mark: m, props: ParaPropsV { mark_size: n, ..s.para.props }, ..s.para },
    )
}

pub open spec fn of_marks_s(o: Option<TrackV>) -> bool {
    o matches Some(t) ==> rereading::of_runs_s(t)
}

proof fn lemma_mark_inner(
    s0: DocReaderV,
    v: Seq<Piece>,
    s: DocReaderV,
    a: Seq<char>,
    m: Option<TrackV>,
    n: Option<u32>,
) -> (w: Seq<Piece>)
    requires
        told_so_far_s(s0, v, s, a),
        in_mark_s(s),
        s.para.mark is None,
        s.para.props.mark_size is None,
        of_marks_s(m),
    ensures
        told_so_far_s(
            s0,
            w,
            marked_s(s, m, n),
            a + paragraph::mark_s(m) + paragraph::size_s(xml::int32_s(n)),
        ),
{
    names::lemma_codes();
    let t = match m {
        Some(t) => t,
        None => TrackV { kind: TrackKind::Ins, author: Seq::empty(), date: Seq::empty(), id: 0 },
    };
    let g = rereading::wrapper_tag_s(t);
    telling::lemma_revision_tag(t.kind.wrapper_s(), t.id as nat, t.author, t.date);
    telling::lemma_revision_read(t.kind.wrapper_s(), t);
    lemma_mark_revision(s, g, t.kind);
    let s1 = with_para_s(s, ParaReaderV { mark: m, ..s.para });
    assert(m is None ==> s1 == s);
    let x1 = paragraph::mark_s(m);
    let v1 = celltold::lemma_told_on(s0, v, s, a, m is Some, Piece::Bare(g), x1, s1);
    let k = xml::int32_s(n);
    telling::lemma_size_text(k);
    let y = xml::opt_dec_s("<w:sz w:val=\""@, k, "\"/>"@);
    let z = xml::opt_dec_s("<w:szCs w:val=\""@, k, "\"/>"@);
    let p = telling::val_tag_s("w:sz"@, telling::some_num_s(k));
    let q = telling::val_tag_s("w:szCs"@, telling::some_num_s(k));
    lemma_size_value(n);
    lemma_mark_size(s1, p);
    let s2 = marked_s(s, m, n);
    assert(n is None ==> s2 == s1);
    let v2 = celltold::lemma_told_on(s0, v1, s1, a + x1, n is Some, Piece::Bare(p), y, s2);
    lemma_mark_size_cs(s2, q);
    let v3 = celltold::lemma_told_on(s0, v2, s2, a + x1 + y, n is Some, Piece::Bare(q), z, s2);
    markup::lemma_assoc(a + x1, y, z);
    v3
}

proof fn lemma_size_value(n: Option<u32>)
    ensures
        n is Some ==> events::attr_u32_s(
            telling::val_tag_s("w:sz"@, telling::some_num_s(xml::int32_s(n))),
            "w:val"@,
        ) == n,
{
    let pre = "<"@ + "w:sz"@ + " "@ + "w:val"@ + "=\""@;
    telling::lemma_val_text("w:sz"@, telling::some_num_s(xml::int32_s(n)), pre);
    if let Some(k) = n {
        strs::lemma_dec_parses(k as nat, u32::MAX as nat);
    }
}

proof fn lemma_mark_lits()
    ensures
        "<w:rPr>"@ == "<"@ + "w:rPr"@ + ">"@,
        "</w:rPr>"@ == "</"@ + "w:rPr"@ + ">"@,
        "<w:pPr>"@ == "<"@ + "w:pPr"@ + ">"@,
        "</w:pPr>"@ == "</"@ + "w:pPr"@ + ">"@,
        "<w:pPrChange"@ == "<"@ + "w:pPrChange"@,
        "><w:pPr>"@ == ">"@ + ("<"@ + "w:pPr"@ + ">"@),
        "</w:pPr></w:pPrChange>"@ == ("</"@ + "w:pPr"@ + ">"@) + ("</"@ + "w:pPrChange"@ + ">"@),
{
    reveal_strlit("<w:rPr>");
    reveal_strlit("</w:rPr>");
    reveal_strlit("<w:pPr>");
    reveal_strlit("</w:pPr>");
    reveal_strlit("<w:pPrChange");
    reveal_strlit("><w:pPr>");
    reveal_strlit("</w:pPr></w:pPrChange>");
    reveal_strlit("<");
    reveal_strlit("</");
    reveal_strlit(">");
    reveal_strlit("w:rPr");
    reveal_strlit("w:pPr");
    reveal_strlit("w:pPrChange");
    assert("<w:rPr>"@ =~= "<"@ + "w:rPr"@ + ">"@);
    assert("</w:rPr>"@ =~= "</"@ + "w:rPr"@ + ">"@);
    assert("<w:pPr>"@ =~= "<"@ + "w:pPr"@ + ">"@);
    assert("</w:pPr>"@ =~= "</"@ + "w:pPr"@ + ">"@);
    assert("<w:pPrChange"@ =~= "<"@ + "w:pPrChange"@);
    assert("><w:pPr>"@ =~= ">"@ + ("<"@ + "w:pPr"@ + ">"@));
    assert("</w:pPr></w:pPrChange>"@ =~= ("</"@ + "w:pPr"@ + ">"@) + ("</"@ + "w:pPrChange"@ + ">"@));
}

proof fn lemma_mark(
    s0: DocReaderV,
    v: Seq<Piece>,
    s: DocReaderV,
    a: Seq<char>,
    m: Option<TrackV>,
    n: Option<u32>,
) -> (w: Seq<Piece>)
    requires
        told_so_far_s(s0, v, s, a),
        in_props_s(s),
        s.para.mark is None,
        s.para.props.mark_size is None,
        of_marks_s(m),
    ensures
        told_so_far_s(
            s0,
            w,
            marked_s(s, m, n),
            a + xml::wrap_s(
                "<w:rPr>"@,
                paragraph::mark_s(m) + paragraph::size_s(xml::int32_s(n)),
                "</w:rPr>"@,
            ),
        ),
{
    let x = paragraph::mark_s(m) + paragraph::size_s(xml::int32_s(n));
    if x.len() == 0 {
        reveal_strlit("<");
        reveal_strlit("<w:sz w:val=\"");
        assert(a + Seq::<char>::empty() =~= a);
        assert(m is None && n is None);
        assert(marked_s(s, m, n) == s);
        v
    } else {
        lemma_mark_lits();
        markup::lemma_open_text("w:rPr"@, "<w:rPr>"@);
        let o = "<w:rPr>"@;
        let c = "</w:rPr>"@;
        let s1 = with_para_s(s, ParaReaderV { in_mark_rpr: true, ..s.para });
        lemma_open_mark(s);
        let v1 = celltold::lemma_told_on(s0, v, s, a, true, markup::open_s("w:rPr"@), o, s1);
        let v2 = lemma_mark_inner(s0, v1, s1, a + o, m, n);
        let s2 = marked_s(s1, m, n);
        lemma_close_mark(s2);
        let y = paragraph::mark_s(m);
        let z = paragraph::size_s(xml::int32_s(n));
        assert(marked_s(s, m, n) == with_para_s(s2, ParaReaderV { in_mark_rpr: false, ..s2.para }));
        let v3 = celltold::lemma_told_on(
            s0,
            v2,
            s2,
            a + o + y + z,
            true,
            Piece::Close("w:rPr"@),
            c,
            marked_s(s, m, n),
        );
        markup::lemma_assoc(a + o, y, z);
        markup::lemma_assoc(a, o, x);
        markup::lemma_assoc(a, o + x, c);
        v3
    }
}

// ---------------------------------------------------------------- property changes

spec fn change_tag_s(c: ParaPropChangeV) -> XmlTagV {
    markup::tag_s("w:pPrChange"@, telling::revision_attrs_s(c.id as nat, c.author, c.date))
}

/// Whether a change of paragraph properties is such as markup states.
pub open spec fn stated_change_s(o: Option<ParaPropChangeV>) -> bool {
    o matches Some(c) ==> stated_para_s(c.old) && kept_para_s(c.old) == c.old
}

/// The reader with the change of the open paragraph's properties.
pub open spec fn changed_s(s: DocReaderV, c: ParaPropChangeV) -> DocReaderV {
    with_para_s(
        s,
        ParaReaderV {
            prop_change: Some(c),
            author: Seq::empty(),
            date: Seq::empty(),
            id: c.id,
            saved: None,
            saved_style: None,
            ..s.para
        },
    )
}

proof fn lemma_open_change(s: DocReaderV, t: XmlTagV)
    requires
        in_props_s(s),
        t.name == "w:pPrChange"@,
    ensures
        hearing::hear_s(s, Piece::Open(t)) == with_para_s(
            s,
            ParaReaderV {
                saved_style: s.para.style,
                saved: Some(s.para.props),
                author: events::or_empty_s(events::attr_s(t, "w:author"@)),
                date: events::or_empty_s(events::attr_s(t, "w:date"@)),
                id: events::or_s(events::attr_u64_s(t, "w:id"@), 0),
                style: None,
                props: ParaPropsV::initial(),
                ..s.para
            },
        ),
        hearing::fits_s(s, Piece::Open(t)),
{
    reveal(hearing::hear_s);
    names::lemma_codes();
}

proof fn lemma_close_change(s: DocReaderV)
    requires
        s.para.saved is Some,
    ensures
        hearing::hear_s(s, Piece::Close("w:pPrChange"@)) == with_para_s(
            s,
            ParaReaderV {
                prop_change: Some(
                    ParaPropChangeV {
                        author: s.para.author,
                        date: s.para.date,
                        id: s.para.id,
                        old_style: s.para.style,
                        old: s.para.props,
                    },
                ),
                author: Seq::empty(),
                date: Seq::empty(),
                saved: None,
                saved_style: None,
                style: s.para.saved_style,
                props: s.para.saved->0,
                ..s.para
            },
        ),
        hearing::fits_s(s, Piece::Close("w:pPrChange"@)),
{
    reveal(hearing::hear_s);
    names::lemma_codes();
}

proof fn lemma_change_text(c: ParaPropChangeV, b: Seq<char>)
    ensures
        "<w:pPrChange"@ + paragraph::revision_s(c.id as nat, c.author, c.date) + "><w:pPr>"@ + b
            + "</w:pPr></w:pPrChange>"@ == markup::piece_text_s(Piece::Open(change_tag_s(c)))
            + markup::piece_text_s(markup::open_s("w:pPr"@)) + b + markup::piece_text_s(
            Piece::Close("w:pPr"@),
        ) + markup::piece_text_s(Piece::Close("w:pPrChange"@)),
{
    lemma_mark_lits();
    telling::lemma_revision_tag("w:pPrChange"@, c.id as nat, c.author, c.date);
    markup::lemma_open_text("w:pPr"@, "<w:pPr>"@);
    let r = paragraph::revision_s(c.id as nat, c.author, c.date);
    let l = "<"@ + "w:pPrChange"@;
    let m = "<"@ + "w:pPr"@ + ">"@;
    let k = "</"@ + "w:pPr"@ + ">"@;
    let n = "</"@ + "w:pPrChange"@ + ">"@;
    assert(l + r + (">"@ + m) + b + (k + n) =~= (l + r + ">"@) + m + b + k + n);
}

proof fn lemma_change(
    s0: DocReaderV,
    v: Seq<Piece>,
    s: DocReaderV,
    a: Seq<char>,
    c: ParaPropChangeV,
) -> (w: Seq<Piece>)
    requires
        told_so_far_s(s0, v, s, a),
        in_props_s(s),
        stated_change_s(Some(c)),
    ensures
        told_so_far_s(s0, w, changed_s(s, c), a + paragraph::ppr_change_s(Some(c))),
{
    let t = change_tag_s(c);
    let tt = TrackV { kind: TrackKind::Ins, author: c.author, date: c.date, id: c.id };
    telling::lemma_revision_read("w:pPrChange"@, tt);
    telling::lemma_revision_tag("w:pPrChange"@, c.id as nat, c.author, c.date);
    let x1 = markup::piece_text_s(Piece::Open(t));
    let x2 = markup::piece_text_s(markup::open_s("w:pPr"@));
    let x3 = paragraph::ppr_body_s(c.old_style, c.old);
    let x4 = markup::piece_text_s(Piece::Close("w:pPr"@));
    let x5 = markup::piece_text_s(Piece::Close("w:pPrChange"@));
    lemma_open_change(s, t);
    let s1 = hearing::hear_s(s, Piece::Open(t));
    let v1 = celltold::lemma_told_on(s0, v, s, a, true, Piece::Open(t), x1, s1);
    paratold::lemma_holder(s1, "w:pPr"@);
    let v2 = celltold::lemma_told_on(s0, v1, s1, a + x1, true, markup::open_s("w:pPr"@), x2, s1);
    let v3 = paratold::lemma_body(s0, v2, s1, a + x1 + x2, c.old_style, c.old);
    let s3 = styled_s(s1, c.old_style, kept_para_s(c.old));
    paratold::lemma_holder(s3, "w:pPr"@);
    let v4 = celltold::lemma_told_on(
        s0,
        v3,
        s3,
        a + x1 + x2 + x3,
        true,
        Piece::Close("w:pPr"@),
        x4,
        s3,
    );
    lemma_close_change(s3);
    assert(changed_s(s, c) == hearing::hear_s(s3, Piece::Close("w:pPrChange"@)));
    let v5 = celltold::lemma_told_on(
        s0,
        v4,
        s3,
        a + x1 + x2 + x3 + x4,
        true,
        Piece::Close("w:pPrChange"@),
        x5,
        changed_s(s, c),
    );
    lemma_change_text(c, x3);
    markup::lemma_assoc(a, x1, x2);
    markup::lemma_assoc(a, x1 + x2, x3);
    markup::lemma_assoc(a, x1 + x2 + x3, x4);
    markup::lemma_assoc(a, x1 + x2 + x3 + x4, x5);
    v5
}

// ---------------------------------------------------------------- the block

/// Whether a paragraph's style, properties, mark and change are such as markup states.
pub open spec fn stated_block_s(p: ParagraphV) -> bool {
    &&& stated_para_s(p.props)
    &&& p.props.sect_pr is None
    &&& of_marks_s(p.mark_change)
    &&& stated_change_s(p.prop_change)
}

/// The properties that the markup of a paragraph states.
pub open spec fn told_props_s(p: ParaPropsV) -> ParaPropsV {
    ParaPropsV { mark_size: p.mark_size, ..kept_para_s(p) }
}

/// Whether `e` is the reader `s` after the properties block of the paragraph `p`.
pub open spec fn block_read_s(s: DocReaderV, e: DocReaderV, p: ParagraphV) -> bool {
    e == with_para_s(
        s,
        ParaReaderV {
            style: p.style,
            props: told_props_s(p.props),
            mark: p.mark_change,
            prop_change: p.prop_change,
            author: e.para.author,
            date: e.para.date,
            id: e.para.id,
            saved: e.para.saved,
            saved_style: e.para.saved_style,
            ..s.para
        },
    )
}

/// Whether nothing was read yet of the open paragraph.
pub open spec fn just_opened_s(s: DocReaderV) -> bool {
    &&& in_props_s(s)
    &&& s.para.style is None
    &&& s.para.props == ParaPropsV::initial()
    &&& s.para.mark is None
    &&& s.para.prop_change is None
}

proof fn lemma_inner(s: DocReaderV, p: ParagraphV) -> (o: (Seq<Piece>, DocReaderV))
    requires
        just_opened_s(s),
        stated_block_s(p),
    ensures
        told_so_far_s(
            s,
            o.0,
            o.1,
            paragraph::ppr_body_s(p.style, p.props) + xml::wrap_s(
                "<w:rPr>"@,
                paragraph::mark_s(p.mark_change) + paragraph::size_s(
                    xml::int32_s(p.props.mark_size),
                ),
                "</w:rPr>"@,
            ) + paragraph::ppr_change_s(p.prop_change),
        ),
        block_read_s(s, o.1, p),
{
    let e = Seq::<char>::empty();
    let x = paragraph::ppr_body_s(p.style, p.props);
    let y = xml::wrap_s(
        "<w:rPr>"@,
        paragraph::mark_s(p.mark_change) + paragraph::size_s(xml::int32_s(p.props.mark_size)),
        "</w:rPr>"@,
    );
    telling::lemma_told_none(s);
    let v1 = paratold::lemma_body(s, Seq::empty(), s, e, p.style, p.props);
    let s1 = styled_s(s, p.style, kept_para_s(p.props));
    assert(e + x =~= x);
    let v2 = lemma_mark(s, v1, s1, x, p.mark_change, p.props.mark_size);
    let s2 = marked_s(s1, p.mark_change, p.props.mark_size);
    if p.prop_change is Some {
        let c = p.prop_change->0;
        let v3 = lemma_change(s, v2, s2, x + y, c);
        (v3, changed_s(s2, c))
    } else {
        assert(x + y + Seq::<char>::empty() =~= x + y);
        (v2, s2)
    }
}

/// The properties block of a paragraph.
pub(crate) proof fn lemma_ppr(s: DocReaderV, p: ParagraphV) -> (o: (Seq<Piece>, DocReaderV))
    requires
        just_opened_s(s),
        stated_block_s(p),
    ensures
        told_so_far_s(s, o.0, o.1, paragraph::ppr_s(p)),
        block_read_s(s, o.1, p),
{
    let x = paragraph::ppr_body_s(p.style, p.props);
    let y = xml::wrap_s(
        "<w:rPr>"@,
        paragraph::mark_s(p.mark_change) + paragraph::size_s(xml::int32_s(p.props.mark_size)),
        "</w:rPr>"@,
    );
    let z = paragraph::ppr_change_s(p.prop_change);
    let (w, e) = lemma_inner(s, p);
    let all = x + y + z;
    assert(x + y + Seq::<char>::empty() =~= x + y);
    if all.len() == 0 {
        assert(all =~= Seq::empty());
        (w, e)
    } else {
        lemma_mark_lits();
        markup::lemma_open_text("w:pPr"@, "<w:pPr>"@);
        let o = "<w:pPr>"@;
        let c = "</w:pPr>"@;
        let n = Seq::<char>::empty();
        telling::lemma_told_none(s);
        paratold::lemma_holder(s, "w:pPr"@);
        let v1 = celltold::lemma_told_on(s, Seq::empty(), s, n, true, markup::open_s("w:pPr"@), o, s);
        assert(n + o =~= o);
        celltold::lemma_told_both(s, v1, s, o, w, e, all);
        paratold::lemma_holder(e, "w:pPr"@);
        let v3 = celltold::lemma_told_on(
            s,
            v1 + w,
            e,
            o + all,
            true,
            Piece::Close("w:pPr"@),
            c,
            e,
        );
        (v3, e)
    }
}

/// Whether markup `v` is the properties block of a paragraph, and reading it takes the reader to
/// `e`.
pub open spec fn block_back_s(p: ParagraphV, s: DocReaderV, v: Seq<Piece>, e: DocReaderV) -> bool {
    &&& markup::spells_s(v, paragraph::ppr_s(p))
    &&& hearing::reads_s(s, v, e)
    &&& block_read_s(s, e, p)
}

/// What is written of a paragraph's properties reads back: its style, alignment, indents, spacing
/// and line spacing with its rule, its place in a list, its shading, whether it is kept with the
/// next, spaced by context or starts a page, the size and the revision of its mark, and the change
/// of its properties with who, when and what they were.
pub proof fn law_written_paragraph_properties_read_back(p: ParagraphV, s: DocReaderV)
    requires
        just_opened_s(s),
        stated_block_s(p),
    ensures
        exists|v: Seq<Piece>, e: DocReaderV| #[trigger] block_back_s(p, s, v, e),
{
    let (v, e) = lemma_ppr(s, p);
    reveal(told_so_far_s);
    hearing::lemma_reads(s, v, e);
    assert(block_back_s(p, s, v, e));
}

} // verus!
