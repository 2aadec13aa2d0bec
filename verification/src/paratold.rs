//! Paragraph properties read back from the markup that they are written as.

use vstd::prelude::*;
use crate::celltold;
use crate::events;
use crate::events::XmlTagV;
use crate::hearing;
use crate::import::DocReaderV;
use crate::import_text;
use crate::import_text::ParaReaderV;
use crate::markup;
use crate::markup::Piece;
use crate::names;
use crate::paragraph;
use crate::strs;
use crate::telling;
use crate::telling::told_so_far_s;
use crate::types;
use crate::types::{Align, LineRule, ParaPropsV, ParagraphV, TrackKind, TrackV};
use crate::xml;

verus! {

broadcast use vstd::string::group_string_axioms;

// ---------------------------------------------------------------- tags with optional attributes

/// The attributes with one more, where it is there.
pub open spec fn with_s(
    v: Seq<(Seq<char>, Seq<char>)>,
    key: Seq<char>,
    o: Option<Seq<char>>,
) -> Seq<(Seq<char>, Seq<char>)> {
    match o {
        Some(x) => v.push((key, x)),
        None => v,
    }
}

proof fn lemma_value_push(
    v: Seq<(Seq<char>, Seq<char>)>,
    k: Seq<char>,
    x: Seq<char>,
    key: Seq<char>,
    from: int,
)
    requires
        0 <= from <= v.len(),
    ensures
        markup::value_s(v.push((k, x)), key, from) == (match markup::value_s(v, key, from) {
            Some(y) => Some(y),
            None => if k == key {
                Some(x)
            } else {
                None
            },
        }),
    decreases v.len() - from,
{
    if from < v.len() {
        lemma_value_push(v, k, x, key, from + 1);
    } else {
        reveal_with_fuel(markup::value_s, 3);
    }
}

pub open spec fn attrs_s(name: Seq<char>, v: Seq<(Seq<char>, Seq<char>)>) -> Seq<char> {
    markup::attrs_text_s(markup::tag_s(name, v).attrs, v.len())
}

pub(crate) proof fn lemma_with(
    name: Seq<char>,
    v: Seq<(Seq<char>, Seq<char>)>,
    key: Seq<char>,
    o: Option<Seq<char>>,
    pre: Seq<char>,
)
    requires
        pre == " "@ + key + "=\""@,
    ensures
        attrs_s(name, with_s(v, key, o)) == attrs_s(name, v) + (match o {
            Some(x) => pre + xml::esc_s(x) + "\""@,
            None => Seq::empty(),
        }),
        forall|k: Seq<char>| #[trigger]
            markup::value_s(with_s(v, key, o), k, 0) == (match markup::value_s(v, k, 0) {
                Some(y) => Some(y),
                None => if k == key {
                    o
                } else {
                    None
                },
            }),
{
    match o {
        Some(x) => {
            markup::lemma_attrs_push(name, v, key, x);
            assert forall|k: Seq<char>| #[trigger]
                markup::value_s(with_s(v, key, o), k, 0) == (match markup::value_s(v, k, 0) {
                    Some(y) => Some(y),
                    None => if k == key {
                        o
                    } else {
                        None
                    },
                }) by {
                lemma_value_push(v, key, x, k, 0);
            }
        },
        None => {
            assert(attrs_s(name, v) + Seq::<char>::empty() =~= attrs_s(name, v));
        },
    }
}

pub open spec fn num_of_s(o: Option<int>) -> Option<Seq<char>> {
    match o {
        Some(n) => Some(strs::dec_int_s(n)),
        None => None,
    }
}

proof fn lemma_num_attr(o: Option<int>, pre: Seq<char>)
    ensures
        xml::opt_dec_s(pre, o, "\""@) == (match num_of_s(o) {
            Some(x) => pre + xml::esc_s(x) + "\""@,
            None => Seq::empty(),
        }),
{
    if o is Some {
        markup::lemma_esc_dec_int(o->0);
    }
}

/// A whole number reads back from its digits.
pub(crate) proof fn lemma_int_parses(n: int, min: int, max: int)
    requires
        min <= n <= max,
    ensures
        strs::parse_int_s(strs::dec_int_s(n), min, max) == Some(n),
{
    if n < 0 {
        strs::lemma_dec_reads_back((-n) as nat);
        assert((seq!['-'] + strs::dec_s((-n) as nat)).drop_first() =~= strs::dec_s((-n) as nat));
    } else {
        strs::lemma_dec_reads_back(n as nat);
        assert(strs::is_digit_s(strs::dec_s(n as nat)[0]));
    }
}

proof fn lemma_attr_lits()
    ensures
        " w:before=\""@ == " "@ + "w:before"@ + "=\""@,
        " w:after=\""@ == " "@ + "w:after"@ + "=\""@,
        " w:line=\""@ == " "@ + "w:line"@ + "=\""@,
        " w:lineRule=\""@ == " "@ + "w:lineRule"@ + "=\""@,
        " w:left=\""@ == " "@ + "w:left"@ + "=\""@,
        " w:right=\""@ == " "@ + "w:right"@ + "=\""@,
        " w:firstLine=\""@ == " "@ + "w:firstLine"@ + "=\""@,
        " w:hanging=\""@ == " "@ + "w:hanging"@ + "=\""@,
{
    reveal_strlit(" ");
    reveal_strlit("=\"");
    reveal_strlit(" w:before=\"");
    reveal_strlit("w:before");
    assert(" w:before=\""@ =~= " "@ + "w:before"@ + "=\""@);
    reveal_strlit(" w:after=\"");
    reveal_strlit("w:after");
    assert(" w:after=\""@ =~= " "@ + "w:after"@ + "=\""@);
    reveal_strlit(" w:line=\"");
    reveal_strlit("w:line");
    assert(" w:line=\""@ =~= " "@ + "w:line"@ + "=\""@);
    reveal_strlit(" w:lineRule=\"");
    reveal_strlit("w:lineRule");
    assert(" w:lineRule=\""@ =~= " "@ + "w:lineRule"@ + "=\""@);
    reveal_strlit(" w:left=\"");
    reveal_strlit("w:left");
    assert(" w:left=\""@ =~= " "@ + "w:left"@ + "=\""@);
    reveal_strlit(" w:right=\"");
    reveal_strlit("w:right");
    assert(" w:right=\""@ =~= " "@ + "w:right"@ + "=\""@);
    reveal_strlit(" w:firstLine=\"");
    reveal_strlit("w:firstLine");
    assert(" w:firstLine=\""@ =~= " "@ + "w:firstLine"@ + "=\""@);
    reveal_strlit(" w:hanging=\"");
    reveal_strlit("w:hanging");
    assert(" w:hanging=\""@ =~= " "@ + "w:hanging"@ + "=\""@);
}

// ---------------------------------------------------------------- where paragraph properties stand

/// Whether the reader stands among the properties of a paragraph.
pub open spec fn in_props_s(s: DocReaderV) -> bool {
    &&& s.skip is None
    &&& s.para.in_para
    &&& !s.para.in_mark_rpr
    &&& !s.para.in_pbdr
    &&& !s.para.in_tabs
    &&& !s.run.in_run
    &&& !s.run.in_rpr
    &&& !s.tbl.in_trpr
}

pub open spec fn with_para_s(s: DocReaderV, p: ParaReaderV) -> DocReaderV {
    DocReaderV { para: p, ..s }
}

pub open spec fn with_props_s(s: DocReaderV, p: ParaPropsV) -> DocReaderV {
    with_para_s(s, ParaReaderV { props: p, ..s.para })
}

proof fn lemma_leaf(s: DocReaderV, t: XmlTagV)
    requires
        in_props_s(s),
        t.name == "w:jc"@ || t.name == "w:ilvl"@ || t.name == "w:numId"@ || t.name == "w:spacing"@
            || t.name == "w:ind"@ || t.name == "w:keepNext"@ || t.name == "w:contextualSpacing"@
            || t.name == "w:pageBreakBefore"@,
    ensures
        hearing::hear_s(s, Piece::Bare(t)) == with_props_s(
            s,
            import_text::para_prop_s(s.para.props, t),
        ),
        hearing::fits_s(s, Piece::Bare(t)),
{
    reveal(hearing::hear_s);
    names::lemma_codes();
}

proof fn lemma_style_leaf(s: DocReaderV, t: XmlTagV)
    requires
        in_props_s(s),
        t.name == "w:pStyle"@,
    ensures
        hearing::hear_s(s, Piece::Bare(t)) == with_para_s(
            s,
            ParaReaderV { style: events::attr_s(t, "w:val"@), ..s.para },
        ),
        hearing::fits_s(s, Piece::Bare(t)),
{
    reveal(hearing::hear_s);
    names::lemma_codes();
}

proof fn lemma_fill_leaf(s: DocReaderV, t: XmlTagV)
    requires
        in_props_s(s),
        t.name == "w:shd"@,
    ensures
        hearing::hear_s(s, Piece::Bare(t)) == with_props_s(
            s,
            ParaPropsV { shading: import_text::fill_s(t), ..s.para.props },
        ),
        hearing::fits_s(s, Piece::Bare(t)),
{
    reveal(hearing::hear_s);
    names::lemma_codes();
}

/// Elements that only hold others.
pub(crate) proof fn lemma_holder(s: DocReaderV, n: Seq<char>)
    requires
        in_props_s(s),
        n == "w:numPr"@ || n == "w:pPr"@,
    ensures
        hearing::hear_s(s, markup::open_s(n)) == s,
        hearing::fits_s(s, markup::open_s(n)),
        hearing::hear_s(s, Piece::Close(n)) == s,
        hearing::fits_s(s, Piece::Close(n)),
{
    reveal(hearing::hear_s);
    names::lemma_codes();
}

// ---------------------------------------------------------------- the properties one by one

#[verifier::opaque]
spec fn at_props_s(s0: DocReaderV, v: Seq<Piece>, s: DocReaderV, p: ParaPropsV, a: Seq<char>) -> bool {
    told_so_far_s(s0, v, with_props_s(s, p), a)
}

proof fn lemma_put(
    s0: DocReaderV,
    v: Seq<Piece>,
    s: DocReaderV,
    p: ParaPropsV,
    a: Seq<char>,
    on: bool,
    t: XmlTagV,
    x: Seq<char>,
    q: ParaPropsV,
) -> (w: Seq<Piece>)
    requires
        at_props_s(s0, v, s, p, a),
        on ==> hearing::fits_s(with_props_s(s, p), Piece::Bare(t)) && x == markup::piece_text_s(
            Piece::Bare(t),
        ) && with_props_s(s, q) == hearing::hear_s(with_props_s(s, p), Piece::Bare(t)),
        !on ==> x == Seq::<char>::empty() && q == p,
    ensures
        at_props_s(s0, w, s, q, a + x),
{
    reveal(at_props_s);
    celltold::lemma_told_on(s0, v, with_props_s(s, p), a, on, Piece::Bare(t), x, with_props_s(s, q))
}

proof fn lemma_put_leaf(
    s0: DocReaderV,
    v: Seq<Piece>,
    s: DocReaderV,
    p: ParaPropsV,
    a: Seq<char>,
    on: bool,
    t: XmlTagV,
    x: Seq<char>,
    q: ParaPropsV,
) -> (w: Seq<Piece>)
    requires
        at_props_s(s0, v, s, p, a),
        in_props_s(s),
        on ==> (t.name == "w:jc"@ || t.name == "w:ilvl"@ || t.name == "w:numId"@ || t.name
            == "w:spacing"@ || t.name == "w:ind"@ || t.name == "w:keepNext"@ || t.name
            == "w:contextualSpacing"@ || t.name == "w:pageBreakBefore"@),
        on ==> x == markup::piece_text_s(Piece::Bare(t)) && q == import_text::para_prop_s(p, t),
        !on ==> x == Seq::<char>::empty() && q == p,
    ensures
        at_props_s(s0, w, s, q, a + x),
{
    if on {
        lemma_leaf(with_props_s(s, p), t);
    }
    lemma_put(s0, v, s, p, a, on, t, x, q)
}

proof fn lemma_put_keep(
    s0: DocReaderV,
    v: Seq<Piece>,
    s: DocReaderV,
    p: ParaPropsV,
    a: Seq<char>,
    o: Option<bool>,
) -> (w: Seq<Piece>)
    requires
        at_props_s(s0, v, s, p, a),
        in_props_s(s),
        p.keep_next is None,
    ensures
        at_props_s(
            s0,
            w,
            s,
            ParaPropsV { keep_next: o, ..p },
            a + xml::tri_s(o, "<w:keepNext/>"@, "<w:keepNext w:val=\"false\"/>"@),
        ),
{
    names::lemma_codes();
    markup::lemma_no_attrs("w:keepNext"@);
    assert("<w:keepNext/>"@ =~= "<"@ + "w:keepNext"@ + "/>"@ && "<w:keepNext w:val=\""@ =~= "<"@ + "w:keepNext"@ + " "@
        + "w:val"@ + "=\""@ && "<w:keepNext w:val=\"false\"/>"@ =~= "<w:keepNext w:val=\""@ + "false"@ + "\"/>"@) by {
        reveal_strlit("<w:keepNext/>");
        reveal_strlit("<w:keepNext w:val=\"false\"/>");
        reveal_strlit("<w:keepNext w:val=\"");
        reveal_strlit("<");
        reveal_strlit("w:keepNext");
        reveal_strlit("/>");
        reveal_strlit(" ");
        reveal_strlit("w:val");
        reveal_strlit("=\"");
        reveal_strlit("false");
        reveal_strlit("\"/>");
    }
    markup::lemma_bare_text("w:keepNext"@, "<w:keepNext/>"@);
    telling::lemma_val_text("w:keepNext"@, "false"@, "<w:keepNext w:val=\""@);
    assert(xml::esc_s("false"@) == "false"@) by {
        reveal_strlit("false");
        markup::lemma_esc_word("false"@);
    }
    let t = if o == Some(true) {
        markup::tag_s("w:keepNext"@, Seq::empty())
    } else {
        telling::val_tag_s("w:keepNext"@, "false"@)
    };
    let q = ParaPropsV { keep_next: o, ..p };
    assert(o is Some ==> import_text::para_prop_s(p, t) =~= q);
    lemma_put_leaf(s0, v, s, p, a, o is Some, t, xml::tri_s(o, "<w:keepNext/>"@, "<w:keepNext w:val=\"false\"/>"@), q)
}

proof fn lemma_put_contextual(
    s0: DocReaderV,
    v: Seq<Piece>,
    s: DocReaderV,
    p: ParaPropsV,
    a: Seq<char>,
    o: Option<bool>,
) -> (w: Seq<Piece>)
    requires
        at_props_s(s0, v, s, p, a),
        in_props_s(s),
        p.contextual_spacing is None,
    ensures
        at_props_s(
            s0,
            w,
            s,
            ParaPropsV { contextual_spacing: o, ..p },
            a + xml::tri_s(o, "<w:contextualSpacing/>"@, "<w:contextualSpacing w:val=\"false\"/>"@),
        ),
{
    names::lemma_codes();
    markup::lemma_no_attrs("w:contextualSpacing"@);
    assert("<w:contextualSpacing/>"@ =~= "<"@ + "w:contextualSpacing"@ + "/>"@ && "<w:contextualSpacing w:val=\""@ =~= "<"@ + "w:contextualSpacing"@ + " "@
        + "w:val"@ + "=\""@ && "<w:contextualSpacing w:val=\"false\"/>"@ =~= "<w:contextualSpacing w:val=\""@ + "false"@ + "\"/>"@) by {
        reveal_strlit("<w:contextualSpacing/>");
        reveal_strlit("<w:contextualSpacing w:val=\"false\"/>");
        reveal_strlit("<w:contextualSpacing w:val=\"");
        reveal_strlit("<");
        reveal_strlit("w:contextualSpacing");
        reveal_strlit("/>");
        reveal_strlit(" ");
        reveal_strlit("w:val");
        reveal_strlit("=\"");
        reveal_strlit("false");
        reveal_strlit("\"/>");
    }
    markup::lemma_bare_text("w:contextualSpacing"@, "<w:contextualSpacing/>"@);
    telling::lemma_val_text("w:contextualSpacing"@, "false"@, "<w:contextualSpacing w:val=\""@);
    assert(xml::esc_s("false"@) == "false"@) by {
        reveal_strlit("false");
        markup::lemma_esc_word("false"@);
    }
    let t = if o == Some(true) {
        markup::tag_s("w:contextualSpacing"@, Seq::empty())
    } else {
        telling::val_tag_s("w:contextualSpacing"@, "false"@)
    };
    let q = ParaPropsV { contextual_spacing: o, ..p };
    assert(o is Some ==> import_text::para_prop_s(p, t) =~= q);
    lemma_put_leaf(s0, v, s, p, a, o is Some, t, xml::tri_s(o, "<w:contextualSpacing/>"@, "<w:contextualSpacing w:val=\"false\"/>"@), q)
}

proof fn lemma_put_page(
    s0: DocReaderV,
    v: Seq<Piece>,
    s: DocReaderV,
    p: ParaPropsV,
    a: Seq<char>,
    o: bool,
) -> (w: Seq<Piece>)
    requires
        at_props_s(s0, v, s, p, a),
        in_props_s(s),
        !p.page_break_before,
    ensures
        at_props_s(
            s0,
            w,
            s,
            ParaPropsV { page_break_before: o, ..p },
            a + strs::when_s(o, "<w:pageBreakBefore/>"@),
        ),
{
    names::lemma_codes();
    markup::lemma_no_attrs("w:pageBreakBefore"@);
    assert("<w:pageBreakBefore/>"@ =~= "<"@ + "w:pageBreakBefore"@ + "/>"@) by {
        reveal_strlit("<w:pageBreakBefore/>");
        reveal_strlit("<");
        reveal_strlit("w:pageBreakBefore");
        reveal_strlit("/>");
    }
    markup::lemma_bare_text("w:pageBreakBefore"@, "<w:pageBreakBefore/>"@);
    let t = markup::tag_s("w:pageBreakBefore"@, Seq::empty());
    let q = ParaPropsV { page_break_before: o, ..p };
    assert(o ==> import_text::para_prop_s(p, t) =~= q);
    lemma_put_leaf(s0, v, s, p, a, o, t, strs::when_s(o, "<w:pageBreakBefore/>"@), q)
}

proof fn lemma_put_fill(
    s0: DocReaderV,
    v: Seq<Piece>,
    s: DocReaderV,
    p: ParaPropsV,
    a: Seq<char>,
    o: Option<Seq<char>>,
) -> (w: Seq<Piece>)
    requires
        at_props_s(s0, v, s, p, a),
        in_props_s(s),
        p.shading is None,
        telling::stated_fill_s(o),
    ensures
        at_props_s(
            s0,
            w,
            s,
            ParaPropsV { shading: o, ..p },
            a + xml::opt_esc_s("<w:shd w:val=\"clear\" w:color=\"auto\" w:fill=\""@, o, "\"/>"@),
        ),
{
    names::lemma_codes();
    telling::lemma_fill(o);
    let t = telling::fill_tag_s(telling::some_s(o));
    lemma_fill_leaf(with_props_s(s, p), t);
    assert(o is Some ==> import_text::fill_s(t) == o);
    lemma_put(
        s0,
        v,
        s,
        p,
        a,
        o is Some,
        t,
        xml::opt_esc_s("<w:shd w:val=\"clear\" w:color=\"auto\" w:fill=\""@, o, "\"/>"@),
        ParaPropsV { shading: o, ..p },
    )
}

proof fn lemma_put_align(
    s0: DocReaderV,
    v: Seq<Piece>,
    s: DocReaderV,
    p: ParaPropsV,
    a: Seq<char>,
    o: Option<Align>,
) -> (w: Seq<Piece>)
    requires
        at_props_s(s0, v, s, p, a),
        in_props_s(s),
        p.align is None,
    ensures
        at_props_s(s0, w, s, ParaPropsV { align: o, ..p }, a + paragraph::align_s(o)),
{
    names::lemma_codes();
    assert("<w:jc w:val=\""@ =~= "<"@ + "w:jc"@ + " "@ + "w:val"@ + "=\""@) by {
        reveal_strlit("<w:jc w:val=\"");
        reveal_strlit("<");
        reveal_strlit("w:jc");
        reveal_strlit(" ");
        reveal_strlit("w:val");
        reveal_strlit("=\"");
    }
    let x = match o {
        Some(k) => k.to_ooxml_s(),
        None => Seq::empty(),
    };
    telling::lemma_val_text("w:jc"@, x, "<w:jc w:val=\""@);
    if o is Some {
        types::law_align_tokens_read_back(o->0);
        assert(xml::esc_s(x) == x) by {
            reveal_strlit("left");
            reveal_strlit("center");
            reveal_strlit("right");
            reveal_strlit("both");
            markup::lemma_esc_word(x);
        }
    }
    let t = telling::val_tag_s("w:jc"@, x);
    let q = ParaPropsV { align: o, ..p };
    assert(o is Some ==> import_text::para_prop_s(p, t) =~= q);
    lemma_put_leaf(s0, v, s, p, a, o is Some, t, paragraph::align_s(o), q)
}

// ---------------------------------------------------------------- spacing and indents

pub open spec fn rule_text_s(line: Option<u16>, rule: Option<LineRule>) -> Option<Seq<char>> {
    if line is Some {
        Some(paragraph::rule_s(rule))
    } else {
        None
    }
}

pub open spec fn spacing_attrs_s(p: ParaPropsV) -> Seq<(Seq<char>, Seq<char>)> {
    let a = with_s(Seq::empty(), "w:before"@, num_of_s(xml::int32_s(p.space_before)));
    let b = with_s(a, "w:after"@, num_of_s(xml::int32_s(p.space_after)));
    let c = with_s(b, "w:line"@, num_of_s(xml::int16_s(p.line_spacing)));
    with_s(c, "w:lineRule"@, rule_text_s(p.line_spacing, p.line_rule))
}

proof fn lemma_line_text(line: Option<u16>, rule: Option<LineRule>)
    ensures
        paragraph::line_s(line, rule) == (match num_of_s(xml::int16_s(line)) {
            Some(x) => " w:line=\""@ + xml::esc_s(x) + "\""@,
            None => Seq::empty(),
        }) + (match rule_text_s(line, rule) {
            Some(x) => " w:lineRule=\""@ + xml::esc_s(x) + "\""@,
            None => Seq::empty(),
        }),
{
    if let Some(l) = line {
        markup::lemma_esc_dec(l as nat);
        let r = paragraph::rule_s(rule);
        assert(xml::esc_s(r) == r) by {
            reveal_strlit("atLeast");
            reveal_strlit("exact");
            reveal_strlit("auto");
            markup::lemma_esc_word(r);
        }
        assert("\" w:lineRule=\""@ =~= "\""@ + " w:lineRule=\""@) by {
            reveal_strlit("\" w:lineRule=\"");
            reveal_strlit("\"");
            reveal_strlit(" w:lineRule=\"");
        }
        let d = strs::dec_s(l as nat);
        assert(" w:line=\""@ + d + ("\""@ + " w:lineRule=\""@) + r + "\""@ =~= (" w:line=\""@ + d + "\""@)
            + (" w:lineRule=\""@ + r + "\""@));
    } else {
        assert(paragraph::line_s(line, rule) =~= Seq::<char>::empty() + Seq::<char>::empty());
    }
}

proof fn lemma_spacing_tag(p: ParaPropsV)
    requires
        p.line_spacing is None ==> p.line_rule is None,
    ensures
        ({
            let t = markup::tag_s("w:spacing"@, spacing_attrs_s(p));
            &&& (p.line_spacing is Some || p.space_before is Some || p.space_after is Some)
                ==> paragraph::spacing_s(
                p.space_before,
                p.space_after,
                p.line_spacing,
                p.line_rule,
            ) == markup::piece_text_s(Piece::Bare(t))
            &&& events::attr_u32_s(t, "w:before"@) == p.space_before
            &&& events::attr_u32_s(t, "w:after"@) == p.space_after
            &&& events::attr_u16_s(t, "w:line"@) == p.line_spacing
            &&& crate::style_parse::line_rule_s(events::attr_s(t, "w:lineRule"@)) == p.line_rule
        }),
{
    names::lemma_codes();
    lemma_attr_lits();
    let n = "w:spacing"@;
    let e = Seq::<(Seq<char>, Seq<char>)>::empty();
    let ob = num_of_s(xml::int32_s(p.space_before));
    let oa = num_of_s(xml::int32_s(p.space_after));
    let ol = num_of_s(xml::int16_s(p.line_spacing));
    let or = rule_text_s(p.line_spacing, p.line_rule);
    let a = with_s(e, "w:before"@, ob);
    let b = with_s(a, "w:after"@, oa);
    let c = with_s(b, "w:line"@, ol);
    let d = with_s(c, "w:lineRule"@, or);
    markup::lemma_no_attrs(n);
    lemma_with(n, e, "w:before"@, ob, " w:before=\""@);
    lemma_with(n, a, "w:after"@, oa, " w:after=\""@);
    lemma_with(n, b, "w:line"@, ol, " w:line=\""@);
    lemma_with(n, c, "w:lineRule"@, or, " w:lineRule=\""@);
    lemma_num_attr(xml::int32_s(p.space_before), " w:before=\""@);
    lemma_num_attr(xml::int32_s(p.space_after), " w:after=\""@);
    lemma_line_text(p.line_spacing, p.line_rule);
    markup::lemma_attr(n, d);
    if let Some(k) = p.space_before {
        strs::lemma_dec_parses(k as nat, u32::MAX as nat);
    }
    if let Some(k) = p.space_after {
        strs::lemma_dec_parses(k as nat, u32::MAX as nat);
    }
    if let Some(k) = p.line_spacing {
        strs::lemma_dec_parses(k as nat, u16::MAX as nat);
        if let Some(r) = p.line_rule {
            types::law_line_rule_tokens_read_back(r);
        } else {
            assert(LineRule::from_ooxml_s("auto"@) is None) by {
                reveal_strlit("auto");
                reveal_strlit("exact");
                reveal_strlit("exactly");
                reveal_strlit("atLeast");
            }
        }
    }
    lemma_spacing_text(p, attrs_s(n, d));
}

proof fn lemma_spacing_text(p: ParaPropsV, x: Seq<char>)
    requires
        x == Seq::<char>::empty() + xml::opt_dec_s(
            " w:before=\""@,
            xml::int32_s(p.space_before),
            "\""@,
        ) + xml::opt_dec_s(" w:after=\""@, xml::int32_s(p.space_after), "\""@) + (match num_of_s(
            xml::int16_s(p.line_spacing),
        ) {
            Some(x) => " w:line=\""@ + xml::esc_s(x) + "\""@,
            None => Seq::empty(),
        }) + (match rule_text_s(p.line_spacing, p.line_rule) {
            Some(x) => " w:lineRule=\""@ + xml::esc_s(x) + "\""@,
            None => Seq::empty(),
        }),
    ensures
        (p.line_spacing is Some || p.space_before is Some || p.space_after is Some)
            ==> paragraph::spacing_s(p.space_before, p.space_after, p.line_spacing, p.line_rule)
            == "<"@ + "w:spacing"@ + x + "/>"@,
{
    lemma_line_text(p.line_spacing, p.line_rule);
    assert("<w:spacing"@ =~= "<"@ + "w:spacing"@) by {
        reveal_strlit("<w:spacing");
        reveal_strlit("<");
        reveal_strlit("w:spacing");
    }
    let b = xml::opt_dec_s(" w:before=\""@, xml::int32_s(p.space_before), "\""@);
    let c = xml::opt_dec_s(" w:after=\""@, xml::int32_s(p.space_after), "\""@);
    let l = match num_of_s(xml::int16_s(p.line_spacing)) {
        Some(x) => " w:line=\""@ + xml::esc_s(x) + "\""@,
        None => Seq::empty(),
    };
    let r = match rule_text_s(p.line_spacing, p.line_rule) {
        Some(x) => " w:lineRule=\""@ + xml::esc_s(x) + "\""@,
        None => Seq::empty(),
    };
    let w = "<"@ + "w:spacing"@;
    assert(w + b + c + (l + r) + "/>"@ =~= w + (Seq::<char>::empty() + b + c + l + r) + "/>"@);
}

proof fn lemma_put_spacing(
    s0: DocReaderV,
    v: Seq<Piece>,
    s: DocReaderV,
    p: ParaPropsV,
    a: Seq<char>,
    d: ParaPropsV,
) -> (w: Seq<Piece>)
    requires
        at_props_s(s0, v, s, p, a),
        in_props_s(s),
        p.space_before is None,
        p.space_after is None,
        p.line_spacing is None,
        p.line_rule is None,
        d.line_spacing is None ==> d.line_rule is None,
    ensures
        at_props_s(
            s0,
            w,
            s,
            ParaPropsV {
                space_before: d.space_before,
                space_after: d.space_after,
                line_spacing: d.line_spacing,
                line_rule: d.line_rule,
                ..p
            },
            a + paragraph::spacing_s(d.space_before, d.space_after, d.line_spacing, d.line_rule),
        ),
{
    names::lemma_codes();
    lemma_spacing_tag(d);
    let on = d.line_spacing is Some || d.space_before is Some || d.space_after is Some;
    let t = markup::tag_s("w:spacing"@, spacing_attrs_s(d));
    let q = ParaPropsV {
        space_before: d.space_before,
        space_after: d.space_after,
        line_spacing: d.line_spacing,
        line_rule: d.line_rule,
        ..p
    };
    assert(on ==> import_text::para_prop_s(p, t) =~= q);
    lemma_put_leaf(
        s0,
        v,
        s,
        p,
        a,
        on,
        t,
        paragraph::spacing_s(d.space_before, d.space_after, d.line_spacing, d.line_rule),
        q,
    )
}

pub open spec fn first_line_s(o: Option<i32>) -> Option<int> {
    match o {
        Some(f) => if f >= 0 {
            Some(f as int)
        } else {
            None
        },
        None => None,
    }
}

pub open spec fn hanging_of_s(o: Option<i32>) -> Option<int> {
    match o {
        Some(f) => if f >= 0 {
            None
        } else {
            Some(-(f as int))
        },
        None => None,
    }
}

pub open spec fn indent_attrs_s(p: ParaPropsV) -> Seq<(Seq<char>, Seq<char>)> {
    let a = with_s(Seq::empty(), "w:left"@, num_of_s(xml::sint32_s(p.indent_left)));
    let b = with_s(a, "w:right"@, num_of_s(xml::sint32_s(p.indent_right)));
    let c = with_s(b, "w:firstLine"@, num_of_s(first_line_s(p.indent_first)));
    with_s(c, "w:hanging"@, num_of_s(hanging_of_s(p.indent_first)))
}

proof fn lemma_indent_text(p: ParaPropsV, x: Seq<char>)
    requires
        x == Seq::<char>::empty() + xml::opt_dec_s(" w:left=\""@, xml::sint32_s(p.indent_left), "\""@)
            + xml::opt_dec_s(" w:right=\""@, xml::sint32_s(p.indent_right), "\""@) + xml::opt_dec_s(
            " w:firstLine=\""@,
            first_line_s(p.indent_first),
            "\""@,
        ) + xml::opt_dec_s(" w:hanging=\""@, hanging_of_s(p.indent_first), "\""@),
    ensures
        (p.indent_left is Some || p.indent_right is Some || p.indent_first is Some)
            ==> paragraph::indent_s(p) == "<"@ + "w:ind"@ + x + "/>"@,
{
    assert("<w:ind"@ =~= "<"@ + "w:ind"@) by {
        reveal_strlit("<w:ind");
        reveal_strlit("<");
        reveal_strlit("w:ind");
    }
    let b = xml::opt_dec_s(" w:left=\""@, xml::sint32_s(p.indent_left), "\""@);
    let c = xml::opt_dec_s(" w:right=\""@, xml::sint32_s(p.indent_right), "\""@);
    let f = xml::opt_dec_s(" w:firstLine=\""@, first_line_s(p.indent_first), "\""@);
    let h = xml::opt_dec_s(" w:hanging=\""@, hanging_of_s(p.indent_first), "\""@);
    assert(paragraph::first_indent_s(p.indent_first) =~= f + h);
    let w = "<"@ + "w:ind"@;
    assert(w + b + c + (f + h) + "/>"@ =~= w + (Seq::<char>::empty() + b + c + f + h) + "/>"@);
}

proof fn lemma_indent_tag(p: ParaPropsV)
    requires
        p.indent_first matches Some(f) ==> f != i32::MIN,
    ensures
        ({
            let t = markup::tag_s("w:ind"@, indent_attrs_s(p));
            &&& (p.indent_left is Some || p.indent_right is Some || p.indent_first is Some)
                ==> paragraph::indent_s(p) == markup::piece_text_s(Piece::Bare(t))
            &&& events::attr_i32_s(t, "w:left"@) == p.indent_left
            &&& events::attr_i32_s(t, "w:right"@) == p.indent_right
            &&& events::attr_i32_s(t, "w:firstLine"@) == (match first_line_s(p.indent_first) {
                Some(n) => Some(n as i32),
                None => None,
            })
            &&& events::attr_i32_s(t, "w:hanging"@) == (match hanging_of_s(p.indent_first) {
                Some(n) => Some(n as i32),
                None => None,
            })
        }),
{
    names::lemma_codes();
    lemma_attr_lits();
    let n = "w:ind"@;
    let e = Seq::<(Seq<char>, Seq<char>)>::empty();
    let ol = num_of_s(xml::sint32_s(p.indent_left));
    let or = num_of_s(xml::sint32_s(p.indent_right));
    let of = num_of_s(first_line_s(p.indent_first));
    let oh = num_of_s(hanging_of_s(p.indent_first));
    let a = with_s(e, "w:left"@, ol);
    let b = with_s(a, "w:right"@, or);
    let c = with_s(b, "w:firstLine"@, of);
    let d = with_s(c, "w:hanging"@, oh);
    markup::lemma_no_attrs(n);
    lemma_with(n, e, "w:left"@, ol, " w:left=\""@);
    lemma_with(n, a, "w:right"@, or, " w:right=\""@);
    lemma_with(n, b, "w:firstLine"@, of, " w:firstLine=\""@);
    lemma_with(n, c, "w:hanging"@, oh, " w:hanging=\""@);
    lemma_num_attr(xml::sint32_s(p.indent_left), " w:left=\""@);
    lemma_num_attr(xml::sint32_s(p.indent_right), " w:right=\""@);
    lemma_num_attr(first_line_s(p.indent_first), " w:firstLine=\""@);
    lemma_num_attr(hanging_of_s(p.indent_first), " w:hanging=\""@);
    markup::lemma_attr(n, d);
    let lo = i32::MIN as int;
    let hi = i32::MAX as int;
    if let Some(k) = p.indent_left {
        lemma_int_parses(k as int, lo, hi);
    }
    if let Some(k) = p.indent_right {
        lemma_int_parses(k as int, lo, hi);
    }
    if let Some(k) = p.indent_first {
        if k >= 0 {
            lemma_int_parses(k as int, lo, hi);
        } else {
            lemma_int_parses(-(k as int), lo, hi);
        }
    }
    lemma_indent_text(p, attrs_s(n, d));
}

proof fn lemma_put_indent(
    s0: DocReaderV,
    v: Seq<Piece>,
    s: DocReaderV,
    p: ParaPropsV,
    a: Seq<char>,
    d: ParaPropsV,
) -> (w: Seq<Piece>)
    requires
        at_props_s(s0, v, s, p, a),
        in_props_s(s),
        p.indent_left is None,
        p.indent_right is None,
        p.indent_first is None,
        d.indent_first matches Some(f) ==> f != i32::MIN,
    ensures
        at_props_s(
            s0,
            w,
            s,
            ParaPropsV {
                indent_left: d.indent_left,
                indent_right: d.indent_right,
                indent_first: d.indent_first,
                ..p
            },
            a + paragraph::indent_s(d),
        ),
{
    names::lemma_codes();
    lemma_indent_tag(d);
    let on = d.indent_left is Some || d.indent_right is Some || d.indent_first is Some;
    let t = markup::tag_s("w:ind"@, indent_attrs_s(d));
    let q = ParaPropsV {
        indent_left: d.indent_left,
        indent_right: d.indent_right,
        indent_first: d.indent_first,
        ..p
    };
    assert(on ==> import_text::para_prop_s(p, t) =~= q);
    lemma_put_leaf(s0, v, s, p, a, on, t, paragraph::indent_s(d), q)
}

// ---------------------------------------------------------------- lists

pub open spec fn int_tag_s(name: Seq<char>, n: int) -> XmlTagV {
    telling::val_tag_s(name, strs::dec_int_s(n))
}

proof fn lemma_list_lits()
    ensures
        "<w:numPr><w:ilvl w:val=\""@ == ("<"@ + "w:numPr"@ + ">"@) + ("<"@ + "w:ilvl"@ + " "@ + "w:val"@
            + "=\""@),
        "<w:numId w:val=\""@ == "<"@ + "w:numId"@ + " "@ + "w:val"@ + "=\""@,
        "\"/></w:numPr>"@ == "\"/>"@ + ("</"@ + "w:numPr"@ + ">"@),
{
    reveal_strlit("<w:numPr><w:ilvl w:val=\"");
    reveal_strlit("<w:numId w:val=\"");
    reveal_strlit("\"/></w:numPr>");
    reveal_strlit("<");
    reveal_strlit("</");
    reveal_strlit(">");
    reveal_strlit(" ");
    reveal_strlit("=\"");
    reveal_strlit("\"/>");
    reveal_strlit("w:numPr");
    reveal_strlit("w:ilvl");
    reveal_strlit("w:numId");
    reveal_strlit("w:val");
    assert("<w:numPr><w:ilvl w:val=\""@ =~= ("<"@ + "w:numPr"@ + ">"@) + ("<"@ + "w:ilvl"@ + " "@
        + "w:val"@ + "=\""@));
    assert("<w:numId w:val=\""@ =~= "<"@ + "w:numId"@ + " "@ + "w:val"@ + "=\""@);
    assert("\"/></w:numPr>"@ =~= "\"/>"@ + ("</"@ + "w:numPr"@ + ">"@));
}

proof fn lemma_list_text(p: ParaPropsV)
    requires
        p.num_id is Some,
        p.num_ilvl is Some,
    ensures
        paragraph::numpr_s(p) == markup::piece_text_s(markup::open_s("w:numPr"@))
            + markup::piece_text_s(Piece::Bare(int_tag_s("w:ilvl"@, p.num_ilvl->0 as int)))
            + markup::piece_text_s(Piece::Bare(int_tag_s("w:numId"@, p.num_id->0 as int)))
            + markup::piece_text_s(Piece::Close("w:numPr"@)),
{
    let l = p.num_ilvl->0 as int;
    let n = p.num_id->0 as int;
    lemma_list_lits();
    let pl = "<"@ + "w:ilvl"@ + " "@ + "w:val"@ + "=\""@;
    let pn = "<"@ + "w:numId"@ + " "@ + "w:val"@ + "=\""@;
    markup::lemma_esc_dec_int(l);
    markup::lemma_esc_dec_int(n);
    telling::lemma_val_text("w:ilvl"@, strs::dec_int_s(l), pl);
    telling::lemma_val_text("w:numId"@, strs::dec_int_s(n), pn);
    let o1 = "<"@ + "w:numPr"@ + ">"@;
    let c1 = "</"@ + "w:numPr"@ + ">"@;
    markup::lemma_open_text("w:numPr"@, o1);
    let dl = strs::dec_int_s(l);
    let dn = strs::dec_int_s(n);
    let q = "\"/>"@;
    assert((o1 + pl + dl + q) + (pn + dn + (q + c1)) =~= o1 + (pl + dl + q) + (pn + dn + q) + c1);
}

proof fn lemma_put_list(
    s0: DocReaderV,
    v: Seq<Piece>,
    s: DocReaderV,
    p: ParaPropsV,
    a: Seq<char>,
    d: ParaPropsV,
) -> (w: Seq<Piece>)
    requires
        at_props_s(s0, v, s, p, a),
        in_props_s(s),
        p.num_id is None,
        p.num_ilvl is None,
        d.num_id is Some == d.num_ilvl is Some,
    ensures
        at_props_s(
            s0,
            w,
            s,
            ParaPropsV { num_id: d.num_id, num_ilvl: d.num_ilvl, ..p },
            a + paragraph::numpr_s(d),
        ),
{
    if d.num_id is None {
        assert(a + paragraph::numpr_s(d) =~= a);
        v
    } else {
        let l = d.num_ilvl->0 as int;
        let n = d.num_id->0 as int;
        lemma_list_text(d);
        let x1 = markup::piece_text_s(markup::open_s("w:numPr"@));
        let x2 = markup::piece_text_s(Piece::Bare(int_tag_s("w:ilvl"@, l)));
        let x3 = markup::piece_text_s(Piece::Bare(int_tag_s("w:numId"@, n)));
        let x4 = markup::piece_text_s(Piece::Close("w:numPr"@));
        let m = with_props_s(s, p);
        lemma_holder(m, "w:numPr"@);
        assert(told_so_far_s(s0, v, m, a)) by {
            reveal(at_props_s);
        }
        let v1 = celltold::lemma_told_on(s0, v, m, a, true, markup::open_s("w:numPr"@), x1, m);
        assert(at_props_s(s0, v1, s, p, a + x1)) by {
            reveal(at_props_s);
        }
        lemma_list_read(p, l, n);
        let p2 = ParaPropsV { num_ilvl: d.num_ilvl, ..p };
        let v2 = lemma_put_leaf(s0, v1, s, p, a + x1, true, int_tag_s("w:ilvl"@, l), x2, p2);
        lemma_list_read(p2, l, n);
        let p3 = ParaPropsV { num_id: d.num_id, ..p2 };
        let v3 = lemma_put_leaf(s0, v2, s, p2, a + x1 + x2, true, int_tag_s("w:numId"@, n), x3, p3);
        let k = with_props_s(s, p3);
        lemma_holder(k, "w:numPr"@);
        assert(told_so_far_s(s0, v3, k, a + x1 + x2 + x3)) by {
            reveal(at_props_s);
        }
        let v4 = celltold::lemma_told_on(
            s0,
            v3,
            k,
            a + x1 + x2 + x3,
            true,
            Piece::Close("w:numPr"@),
            x4,
            k,
        );
        assert(at_props_s(s0, v4, s, p3, a + x1 + x2 + x3 + x4)) by {
            reveal(at_props_s);
        }
        markup::lemma_assoc(a, x1, x2);
        markup::lemma_assoc(a, x1 + x2, x3);
        markup::lemma_assoc(a, x1 + x2 + x3, x4);
        v4
    }
}

proof fn lemma_list_read(p: ParaPropsV, l: int, n: int)
    requires
        i32::MIN <= l <= i32::MAX,
        i32::MIN <= n <= i32::MAX,
    ensures
        import_text::para_prop_s(p, int_tag_s("w:ilvl"@, l)) == (ParaPropsV {
            num_ilvl: Some(l as i32),
            ..p
        }),
        import_text::para_prop_s(p, int_tag_s("w:numId"@, n)) == (ParaPropsV {
            num_id: Some(n as i32),
            ..p
        }),
        int_tag_s("w:ilvl"@, l).name == "w:ilvl"@,
        int_tag_s("w:numId"@, n).name == "w:numId"@,
{
    names::lemma_codes();
    let pl = "<"@ + "w:ilvl"@ + " "@ + "w:val"@ + "=\""@;
    let pn = "<"@ + "w:numId"@ + " "@ + "w:val"@ + "=\""@;
    telling::lemma_val_text("w:ilvl"@, strs::dec_int_s(l), pl);
    telling::lemma_val_text("w:numId"@, strs::dec_int_s(n), pn);
    lemma_int_parses(l, i32::MIN as int, i32::MAX as int);
    lemma_int_parses(n, i32::MIN as int, i32::MAX as int);
}

// ---------------------------------------------------------------- all of them

/// Whether paragraph properties are such as markup states: a list has a level, a line rule comes
/// with a line spacing, and there is neither a frame nor a border, which are kept in forms of
/// their own.
pub open spec fn stated_para_s(p: ParaPropsV) -> bool {
    &&& p.num_id is Some == p.num_ilvl is Some
    &&& p.line_spacing is None ==> p.line_rule is None
    &&& p.indent_first matches Some(f) ==> f != i32::MIN
    &&& telling::stated_fill_s(p.shading)
    &&& p.frame is None
    &&& p.border is None
}

/// The properties that the markup of paragraph properties states.
pub open spec fn kept_para_s(p: ParaPropsV) -> ParaPropsV {
    ParaPropsV {
        align: p.align,
        line_spacing: p.line_spacing,
        line_rule: p.line_rule,
        space_before: p.space_before,
        space_after: p.space_after,
        indent_left: p.indent_left,
        indent_right: p.indent_right,
        indent_first: p.indent_first,
        num_id: p.num_id,
        num_ilvl: p.num_ilvl,
        shading: p.shading,
        keep_next: p.keep_next,
        contextual_spacing: p.contextual_spacing,
        page_break_before: p.page_break_before,
        ..ParaPropsV::initial()
    }
}

proof fn lemma_props(
    s0: DocReaderV,
    v: Seq<Piece>,
    s: DocReaderV,
    a: Seq<char>,
    d: ParaPropsV,
) -> (w: Seq<Piece>)
    requires
        at_props_s(s0, v, s, ParaPropsV::initial(), a),
        in_props_s(s),
        stated_para_s(d),
    ensures
        at_props_s(
            s0,
            w,
            s,
            kept_para_s(d),
            a + xml::tri_s(d.keep_next, "<w:keepNext/>"@, "<w:keepNext w:val=\"false\"/>"@)
                + strs::when_s(d.page_break_before, "<w:pageBreakBefore/>"@) + paragraph::numpr_s(d)
                + xml::opt_esc_s(
                "<w:shd w:val=\"clear\" w:color=\"auto\" w:fill=\""@,
                d.shading,
                "\"/>"@,
            ) + paragraph::spacing_s(d.space_before, d.space_after, d.line_spacing, d.line_rule)
                + paragraph::indent_s(d) + xml::tri_s(
                d.contextual_spacing,
                "<w:contextualSpacing/>"@,
                "<w:contextualSpacing w:val=\"false\"/>"@,
            ) + paragraph::align_s(d.align),
        ),
{
    let p0 = ParaPropsV::initial();
    let x1 = xml::tri_s(d.keep_next, "<w:keepNext/>"@, "<w:keepNext w:val=\"false\"/>"@);
    let x2 = strs::when_s(d.page_break_before, "<w:pageBreakBefore/>"@);
    let x3 = paragraph::numpr_s(d);
    let x4 = xml::opt_esc_s(
        "<w:shd w:val=\"clear\" w:color=\"auto\" w:fill=\""@,
        d.shading,
        "\"/>"@,
    );
    let x5 = paragraph::spacing_s(d.space_before, d.space_after, d.line_spacing, d.line_rule);
    let x6 = paragraph::indent_s(d);
    let x7 = xml::tri_s(
        d.contextual_spacing,
        "<w:contextualSpacing/>"@,
        "<w:contextualSpacing w:val=\"false\"/>"@,
    );
    let v1 = lemma_put_keep(s0, v, s, p0, a, d.keep_next);
    let p1 = ParaPropsV { keep_next: d.keep_next, ..p0 };
    let v2 = lemma_put_page(s0, v1, s, p1, a + x1, d.page_break_before);
    let p2 = ParaPropsV { page_break_before: d.page_break_before, ..p1 };
    let v3 = lemma_put_list(s0, v2, s, p2, a + x1 + x2, d);
    let p3 = ParaPropsV { num_id: d.num_id, num_ilvl: d.num_ilvl, ..p2 };
    let v4 = lemma_put_fill(s0, v3, s, p3, a + x1 + x2 + x3, d.shading);
    let p4 = ParaPropsV { shading: d.shading, ..p3 };
    let v5 = lemma_put_spacing(s0, v4, s, p4, a + x1 + x2 + x3 + x4, d);
    let p5 = ParaPropsV {
        space_before: d.space_before,
        space_after: d.space_after,
        line_spacing: d.line_spacing,
        line_rule: d.line_rule,
        ..p4
    };
    let v6 = lemma_put_indent(s0, v5, s, p5, a + x1 + x2 + x3 + x4 + x5, d);
    let p6 = ParaPropsV {
        indent_left: d.indent_left,
        indent_right: d.indent_right,
        indent_first: d.indent_first,
        ..p5
    };
    let v7 = lemma_put_contextual(s0, v6, s, p6, a + x1 + x2 + x3 + x4 + x5 + x6, d.contextual_spacing);
    let p7 = ParaPropsV { contextual_spacing: d.contextual_spacing, ..p6 };
    let v8 = lemma_put_align(s0, v7, s, p7, a + x1 + x2 + x3 + x4 + x5 + x6 + x7, d.align);
    let p8 = ParaPropsV { align: d.align, ..p7 };
    assert(p8 =~= kept_para_s(d));
    v8
}

proof fn lemma_body_text(style: Option<Seq<char>>, d: ParaPropsV)
    requires
        stated_para_s(d),
    ensures
        paragraph::ppr_body_s(style, d) == xml::opt_esc_s("<w:pStyle w:val=\""@, style, "\"/>"@)
            + xml::tri_s(d.keep_next, "<w:keepNext/>"@, "<w:keepNext w:val=\"false\"/>"@)
            + strs::when_s(d.page_break_before, "<w:pageBreakBefore/>"@) + paragraph::numpr_s(d)
            + xml::opt_esc_s(
            "<w:shd w:val=\"clear\" w:color=\"auto\" w:fill=\""@,
            d.shading,
            "\"/>"@,
        ) + paragraph::spacing_s(d.space_before, d.space_after, d.line_spacing, d.line_rule)
            + paragraph::indent_s(d) + xml::tri_s(
            d.contextual_spacing,
            "<w:contextualSpacing/>"@,
            "<w:contextualSpacing w:val=\"false\"/>"@,
        ) + paragraph::align_s(d.align),
{
    let a = xml::opt_esc_s("<w:pStyle w:val=\""@, style, "\"/>"@) + xml::tri_s(
        d.keep_next,
        "<w:keepNext/>"@,
        "<w:keepNext w:val=\"false\"/>"@,
    ) + strs::when_s(d.page_break_before, "<w:pageBreakBefore/>"@);
    assert(a + Seq::<char>::empty() =~= a);
    let b = a + paragraph::numpr_s(d);
    assert(b + Seq::<char>::empty() =~= b);
}

/// The reader with a style and properties of the open paragraph.
pub open spec fn styled_s(s: DocReaderV, style: Option<Seq<char>>, p: ParaPropsV) -> DocReaderV {
    with_para_s(s, ParaReaderV { style, props: p, ..s.para })
}

/// The markup of a style and paragraph properties, read where there are none, gives them.
pub(crate) proof fn lemma_body(
    s0: DocReaderV,
    v: Seq<Piece>,
    s: DocReaderV,
    a: Seq<char>,
    style: Option<Seq<char>>,
    d: ParaPropsV,
) -> (w: Seq<Piece>)
    requires
        told_so_far_s(s0, v, s, a),
        in_props_s(s),
        s.para.style is None,
        s.para.props == ParaPropsV::initial(),
        stated_para_s(d),
    ensures
        told_so_far_s(s0, w, styled_s(s, style, kept_para_s(d)), a + paragraph::ppr_body_s(style, d)),
{
    names::lemma_codes();
    assert("<w:pStyle w:val=\""@ =~= "<"@ + "w:pStyle"@ + " "@ + "w:val"@ + "=\""@) by {
        reveal_strlit("<w:pStyle w:val=\"");
        reveal_strlit("<");
        reveal_strlit("w:pStyle");
        reveal_strlit(" ");
        reveal_strlit("w:val");
        reveal_strlit("=\"");
    }
    telling::lemma_opt_text("w:pStyle"@, style, "<w:pStyle w:val=\""@);
    let t = telling::val_tag_s("w:pStyle"@, telling::some_s(style));
    lemma_style_leaf(s, t);
    let x = xml::opt_esc_s("<w:pStyle w:val=\""@, style, "\"/>"@);
    let m = with_para_s(s, ParaReaderV { style, ..s.para });
    assert(style is None ==> m == s);
    let v1 = celltold::lemma_told_on(s0, v, s, a, style is Some, Piece::Bare(t), x, m);
    assert(with_props_s(m, ParaPropsV::initial()) == m);
    assert(at_props_s(s0, v1, m, ParaPropsV::initial(), a + x)) by {
        reveal(at_props_s);
    }
    let w = lemma_props(s0, v1, m, a + x, d);
    lemma_body_text(style, d);
    assert(with_props_s(m, kept_para_s(d)) == styled_s(s, style, kept_para_s(d)));
    reveal(at_props_s);
    lemma_body_assoc(a, style, d);
    w
}

proof fn lemma_body_assoc(a: Seq<char>, style: Option<Seq<char>>, d: ParaPropsV)
    requires
        stated_para_s(d),
    ensures
        a + paragraph::ppr_body_s(style, d) == a + xml::opt_esc_s("<w:pStyle w:val=\""@, style, "\"/>"@)
            + xml::tri_s(d.keep_next, "<w:keepNext/>"@, "<w:keepNext w:val=\"false\"/>"@)
            + strs::when_s(d.page_break_before, "<w:pageBreakBefore/>"@) + paragraph::numpr_s(d)
            + xml::opt_esc_s(
            "<w:shd w:val=\"clear\" w:color=\"auto\" w:fill=\""@,
            d.shading,
            "\"/>"@,
        ) + paragraph::spacing_s(d.space_before, d.space_after, d.line_spacing, d.line_rule)
            + paragraph::indent_s(d) + xml::tri_s(
            d.contextual_spacing,
            "<w:contextualSpacing/>"@,
            "<w:contextualSpacing w:val=\"false\"/>"@,
        ) + paragraph::align_s(d.align),
{
    lemma_body_text(style, d);
    let x0 = xml::opt_esc_s("<w:pStyle w:val=\""@, style, "\"/>"@);
    let x1 = xml::tri_s(d.keep_next, "<w:keepNext/>"@, "<w:keepNext w:val=\"false\"/>"@);
    let x2 = strs::when_s(d.page_break_before, "<w:pageBreakBefore/>"@);
    let x3 = paragraph::numpr_s(d);
    let x4 = xml::opt_esc_s(
        "<w:shd w:val=\"clear\" w:color=\"auto\" w:fill=\""@,
        d.shading,
        "\"/>"@,
    );
    let x5 = paragraph::spacing_s(d.space_before, d.space_after, d.line_spacing, d.line_rule);
    let x6 = paragraph::indent_s(d);
    let x7 = xml::tri_s(
        d.contextual_spacing,
        "<w:contextualSpacing/>"@,
        "<w:contextualSpacing w:val=\"false\"/>"@,
    );
    let x8 = paragraph::align_s(d.align);
    markup::lemma_assoc(a, x0, x1);
    markup::lemma_assoc(a, x0 + x1, x2);
    markup::lemma_assoc(a, x0 + x1 + x2, x3);
    markup::lemma_assoc(a, x0 + x1 + x2 + x3, x4);
    markup::lemma_assoc(a, x0 + x1 + x2 + x3 + x4, x5);
    markup::lemma_assoc(a, x0 + x1 + x2 + x3 + x4 + x5, x6);
    markup::lemma_assoc(a, x0 + x1 + x2 + x3 + x4 + x5 + x6, x7);
    markup::lemma_assoc(a, x0 + x1 + x2 + x3 + x4 + x5 + x6 + x7, x8);
}

} // verus!
