//! Section properties read back from the markup that they are written as.

use vstd::prelude::*;
use crate::commentback;
use crate::events;
use crate::events::{XmlEventV, XmlStepV, XmlTagV};
use crate::headers;
use crate::markup;
use crate::markup::Piece;
use crate::names::code_s;
use crate::paratold;
use crate::sections;
use crate::sections::{GeometryV, HfRefV, PageGeometry};
use crate::strs;
use crate::telling;
use crate::xml;

verus! {

broadcast use vstd::string::group_string_axioms;

// ---------------------------------------------------------------- the tags

proof fn lemma_page_codes()
    ensures
        code_s("w:pgSz"@) == 1029168934406,
        code_s("w:pgMar"@) == 1029168901639,
        code_s("w:cols"@) == 1029709970534,
        code_s("w:headerReference"@) == 1029023620369,
        code_s("w:footerReference"@) == 1029694708945,
        code_s("w:titlePg"@) == 1029309890185,
        code_s("w:sectPr"@) == 1029032586856,
        code_s("w:w"@) == 1022233116387,
        code_s("w:h"@) == 1022233054467,
        code_s("w:orient"@) == 1029908155880,
        code_s("w:top"@) == 1029712580229,
        code_s("w:right"@) == 1029304176199,
        code_s("w:bottom"@) == 1029712567368,
        code_s("w:left"@) == 1029033643398,
        code_s("w:header"@) == 1029031537928,
        code_s("w:footer"@) == 1029709966536,
        code_s("w:gutter"@) == 1030115241192,
        code_s("w:type"@) == 1030386245254,
        code_s("r:id"@) == 986018893092,
{
    reveal(code_s);
    reveal_strlit("w:pgSz");
    reveal_strlit("w:pgMar");
    reveal_strlit("w:cols");
    reveal_strlit("w:headerReference");
    reveal_strlit("w:footerReference");
    reveal_strlit("w:titlePg");
    reveal_strlit("w:sectPr");
    reveal_strlit("w:w");
    reveal_strlit("w:h");
    reveal_strlit("w:orient");
    reveal_strlit("w:top");
    reveal_strlit("w:right");
    reveal_strlit("w:bottom");
    reveal_strlit("w:left");
    reveal_strlit("w:header");
    reveal_strlit("w:footer");
    reveal_strlit("w:gutter");
    reveal_strlit("w:type");
    reveal_strlit("r:id");
}

/// The page size as attributes.
pub open spec fn size_attrs_s(p: PageGeometry) -> Seq<(Seq<char>, Seq<char>)> {
    let v = seq![("w:w"@, strs::dec_s(p.width as nat)), ("w:h"@, strs::dec_s(p.height as nat))];
    if p.width > p.height {
        v.push(("w:orient"@, "landscape"@))
    } else {
        v
    }
}

pub open spec fn size_tag_s(p: PageGeometry) -> XmlTagV {
    markup::tag_s("w:pgSz"@, size_attrs_s(p))
}

/// The margins as attributes.
pub open spec fn margin_attrs_s(p: PageGeometry) -> Seq<(Seq<char>, Seq<char>)> {
    seq![
        ("w:top"@, strs::dec_int_s(p.margin_top as int)),
        ("w:right"@, strs::dec_int_s(p.margin_right as int)),
        ("w:bottom"@, strs::dec_int_s(p.margin_bottom as int)),
        ("w:left"@, strs::dec_int_s(p.margin_left as int)),
        ("w:header"@, strs::dec_s(p.header_dist as nat)),
        ("w:footer"@, strs::dec_s(p.footer_dist as nat)),
        ("w:gutter"@, "0"@),
    ]
}

pub open spec fn margin_tag_s(p: PageGeometry) -> XmlTagV {
    markup::tag_s("w:pgMar"@, margin_attrs_s(p))
}

/// A header or footer reference.
pub open spec fn ref_tag_s(r: HfRefV) -> XmlTagV {
    markup::tag_s(
        if r.is_header {
            "w:headerReference"@
        } else {
            "w:footerReference"@
        },
        seq![("w:type"@, r.kind), ("r:id"@, r.r_id)],
    )
}

/// An attribute as text.
spec fn pair_s(k: Seq<char>, x: Seq<char>) -> Seq<char> {
    " "@ + k + "=\""@ + x + "\""@
}

proof fn lemma_size_attrs(p: PageGeometry)
    ensures
        events::attr_u32_s(size_tag_s(p), "w:w"@) == Some(p.width),
        events::attr_u32_s(size_tag_s(p), "w:h"@) == Some(p.height),
{
    lemma_page_codes();
    markup::lemma_attr("w:pgSz"@, size_attrs_s(p));
    reveal_with_fuel(markup::value_s, 4);
    strs::lemma_dec_parses(p.width as nat, u32::MAX as nat);
    strs::lemma_dec_parses(p.height as nat, u32::MAX as nat);
}

proof fn lemma_size_text(p: PageGeometry)
    ensures
        headers::pgsz_s(p) == markup::piece_text_s(Piece::Bare(size_tag_s(p))),
{
    let n = "w:pgSz"@;
    let e = Seq::<(Seq<char>, Seq<char>)>::empty();
    let w = strs::dec_s(p.width as nat);
    let h = strs::dec_s(p.height as nat);
    let a = e.push(("w:w"@, w));
    let b = a.push(("w:h"@, h));
    let c = b.push(("w:orient"@, "landscape"@));
    markup::lemma_no_attrs(n);
    markup::lemma_attrs_push(n, e, "w:w"@, w);
    markup::lemma_attrs_push(n, a, "w:h"@, h);
    markup::lemma_attrs_push(n, b, "w:orient"@, "landscape"@);
    markup::lemma_esc_dec(p.width as nat);
    markup::lemma_esc_dec(p.height as nat);
    assert(size_attrs_s(p) =~= (if p.width > p.height {
        c
    } else {
        b
    }));
    assert(xml::esc_s("landscape"@) == "landscape"@) by {
        reveal_strlit("landscape");
        markup::lemma_esc_word("landscape"@);
    }
    lemma_size_lits();
    let x = "<"@ + n;
    let y = " "@ + "w:w"@ + "=\""@;
    let z = " "@ + "w:h"@ + "=\""@;
    let q = "\""@;
    let l = strs::when_s(p.width > p.height, " w:orient=\"landscape\""@);
    let em = Seq::<char>::empty();
    assert(((x + y) + w + q) + (z + h + q) + l + "/>"@ =~= x + (em + (y + w + q) + (z + h + q) + l) + "/>"@);
    assert(em + (y + w + q) + (z + h + q) + em =~= em + (y + w + q) + (z + h + q));
}

proof fn lemma_size_lits()
    ensures
        "<w:pgSz w:w=\""@ == ("<"@ + "w:pgSz"@) + (" "@ + "w:w"@ + "=\""@),
        " w:h=\""@ == " "@ + "w:h"@ + "=\""@,
        " w:orient=\"landscape\""@ == " "@ + "w:orient"@ + "=\""@ + "landscape"@ + "\""@,
{
    reveal_strlit("<w:pgSz w:w=\"");
    reveal_strlit(" w:h=\"");
    reveal_strlit(" w:orient=\"landscape\"");
    reveal_strlit("<");
    reveal_strlit("w:pgSz");
    reveal_strlit(" ");
    reveal_strlit("w:w");
    reveal_strlit("=\"");
    reveal_strlit("w:h");
    reveal_strlit("w:orient");
    reveal_strlit("landscape");
    reveal_strlit("\"");
    assert("<w:pgSz w:w=\""@ =~= ("<"@ + "w:pgSz"@) + (" "@ + "w:w"@ + "=\""@));
    assert(" w:h=\""@ =~= " "@ + "w:h"@ + "=\""@);
    assert(" w:orient=\"landscape\""@ =~= " "@ + "w:orient"@ + "=\""@ + "landscape"@ + "\""@);
}

proof fn lemma_margin_attrs(p: PageGeometry)
    ensures
        events::attr_i32_s(margin_tag_s(p), "w:top"@) == Some(p.margin_top),
        events::attr_i32_s(margin_tag_s(p), "w:right"@) == Some(p.margin_right),
        events::attr_i32_s(margin_tag_s(p), "w:bottom"@) == Some(p.margin_bottom),
        events::attr_i32_s(margin_tag_s(p), "w:left"@) == Some(p.margin_left),
        events::attr_u32_s(margin_tag_s(p), "w:header"@) == Some(p.header_dist),
        events::attr_u32_s(margin_tag_s(p), "w:footer"@) == Some(p.footer_dist),
{
    lemma_page_codes();
    markup::lemma_attr("w:pgMar"@, margin_attrs_s(p));
    reveal_with_fuel(markup::value_s, 8);
    paratold::lemma_int_parses(p.margin_top as int, i32::MIN as int, i32::MAX as int);
    paratold::lemma_int_parses(p.margin_right as int, i32::MIN as int, i32::MAX as int);
    paratold::lemma_int_parses(p.margin_bottom as int, i32::MIN as int, i32::MAX as int);
    paratold::lemma_int_parses(p.margin_left as int, i32::MIN as int, i32::MAX as int);
    strs::lemma_dec_parses(p.header_dist as nat, u32::MAX as nat);
    strs::lemma_dec_parses(p.footer_dist as nat, u32::MAX as nat);
}

proof fn lemma_margin_text(p: PageGeometry)
    ensures
        headers::pgmar_s(p) == markup::piece_text_s(Piece::Bare(margin_tag_s(p))),
{
    let n = "w:pgMar"@;
    let v = margin_attrs_s(p);
    let e = Seq::<(Seq<char>, Seq<char>)>::empty();
    let x1 = strs::dec_int_s(p.margin_top as int);
    let x2 = strs::dec_int_s(p.margin_right as int);
    let x3 = strs::dec_int_s(p.margin_bottom as int);
    let x4 = strs::dec_int_s(p.margin_left as int);
    let x5 = strs::dec_s(p.header_dist as nat);
    let x6 = strs::dec_s(p.footer_dist as nat);
    let a1 = e.push(("w:top"@, x1));
    let a2 = a1.push(("w:right"@, x2));
    let a3 = a2.push(("w:bottom"@, x3));
    let a4 = a3.push(("w:left"@, x4));
    let a5 = a4.push(("w:header"@, x5));
    let a6 = a5.push(("w:footer"@, x6));
    let a7 = a6.push(("w:gutter"@, "0"@));
    markup::lemma_no_attrs(n);
    markup::lemma_attrs_push(n, e, "w:top"@, x1);
    markup::lemma_esc_dec_int(p.margin_top as int);
    markup::lemma_attrs_push(n, a1, "w:right"@, x2);
    markup::lemma_esc_dec_int(p.margin_right as int);
    markup::lemma_attrs_push(n, a2, "w:bottom"@, x3);
    markup::lemma_esc_dec_int(p.margin_bottom as int);
    markup::lemma_attrs_push(n, a3, "w:left"@, x4);
    markup::lemma_esc_dec_int(p.margin_left as int);
    markup::lemma_attrs_push(n, a4, "w:header"@, x5);
    markup::lemma_esc_dec(p.header_dist as nat);
    markup::lemma_attrs_push(n, a5, "w:footer"@, x6);
    markup::lemma_esc_dec(p.footer_dist as nat);
    markup::lemma_attrs_push(n, a6, "w:gutter"@, "0"@);
    assert(xml::esc_s("0"@) == "0"@) by {
        reveal_strlit("0");
        markup::lemma_esc_word("0"@);
    }
    assert(a7 =~= v);
    lemma_margin_lits();
    let p1 = pair_s("w:top"@, x1);
    let p2 = pair_s("w:right"@, x2);
    let p3 = pair_s("w:bottom"@, x3);
    let p4 = pair_s("w:left"@, x4);
    let p5 = pair_s("w:header"@, x5);
    let p6 = pair_s("w:footer"@, x6);
    let p7 = pair_s("w:gutter"@, "0"@);
    let em = Seq::<char>::empty();
    let t = margin_tag_s(p);
    let all = em + p1 + p2 + p3 + p4 + p5 + p6 + p7;
    assert(markup::attrs_text_s(t.attrs, t.attrs.len()) == all);
    let y = "<"@ + n;
    lemma_margin_join(y, p1, p2, p3, p4, p5, p6, p7);
    let b = " "@ + "w:top"@ + "=\""@;
    markup::lemma_assoc(y, b, x1);
    markup::lemma_assoc(y, b + x1, "\""@);
}

proof fn lemma_margin_join(
    y: Seq<char>,
    p1: Seq<char>,
    p2: Seq<char>,
    p3: Seq<char>,
    p4: Seq<char>,
    p5: Seq<char>,
    p6: Seq<char>,
    p7: Seq<char>,
)
    ensures
        (y + p1) + p2 + p3 + p4 + p5 + p6 + (p7 + "/>"@) == y + (Seq::<char>::empty() + p1 + p2 + p3 + p4 + p5
            + p6 + p7) + "/>"@,
{
    let em = Seq::<char>::empty();
    assert(em + p1 =~= p1);
    markup::lemma_assoc(y, p1, p2);
    markup::lemma_assoc(y, p1 + p2, p3);
    markup::lemma_assoc(y, p1 + p2 + p3, p4);
    markup::lemma_assoc(y, p1 + p2 + p3 + p4, p5);
    markup::lemma_assoc(y, p1 + p2 + p3 + p4 + p5, p6);
    markup::lemma_assoc(y, p1 + p2 + p3 + p4 + p5 + p6, p7);
    markup::lemma_assoc(y + (p1 + p2 + p3 + p4 + p5 + p6), p7, "/>"@);
}

proof fn lemma_margin_lits()
    ensures
        "<w:pgMar w:top=\""@ == ("<"@ + "w:pgMar"@) + (" "@ + "w:top"@ + "=\""@),
        " w:right=\""@ == " "@ + "w:right"@ + "=\""@,
        " w:bottom=\""@ == " "@ + "w:bottom"@ + "=\""@,
        " w:left=\""@ == " "@ + "w:left"@ + "=\""@,
        " w:header=\""@ == " "@ + "w:header"@ + "=\""@,
        " w:footer=\""@ == " "@ + "w:footer"@ + "=\""@,
        " w:gutter=\"0\"/>"@ == pair_s("w:gutter"@, "0"@) + "/>"@,
{
    reveal_strlit("<w:pgMar w:top=\"");
    reveal_strlit(" w:gutter=\"0\"/>");
    reveal_strlit("<");
    reveal_strlit("w:pgMar");
    reveal_strlit(" ");
    reveal_strlit("w:top");
    reveal_strlit("=\"");
    reveal_strlit("w:gutter");
    reveal_strlit("0");
    reveal_strlit("\"");
    reveal_strlit("/>");
    assert("<w:pgMar w:top=\""@ =~= ("<"@ + "w:pgMar"@) + (" "@ + "w:top"@ + "=\""@));
    assert(" w:gutter=\"0\"/>"@ =~= pair_s("w:gutter"@, "0"@) + "/>"@);
    reveal_strlit(" w:right=\"");
    reveal_strlit("w:right");
    assert(" w:right=\""@ =~= " "@ + "w:right"@ + "=\""@);
    reveal_strlit(" w:bottom=\"");
    reveal_strlit("w:bottom");
    assert(" w:bottom=\""@ =~= " "@ + "w:bottom"@ + "=\""@);
    reveal_strlit(" w:left=\"");
    reveal_strlit("w:left");
    assert(" w:left=\""@ =~= " "@ + "w:left"@ + "=\""@);
    reveal_strlit(" w:header=\"");
    reveal_strlit("w:header");
    assert(" w:header=\""@ =~= " "@ + "w:header"@ + "=\""@);
    reveal_strlit(" w:footer=\"");
    reveal_strlit("w:footer");
    assert(" w:footer=\""@ =~= " "@ + "w:footer"@ + "=\""@);
}

proof fn lemma_ref(r: HfRefV)
    ensures
        headers::ref_s(r) == markup::piece_text_s(Piece::Bare(ref_tag_s(r))),
        events::attr_s(ref_tag_s(r), "w:type"@) == Some(r.kind),
        events::attr_s(ref_tag_s(r), "r:id"@) == Some(r.r_id),
{
    lemma_page_codes();
    let n = ref_tag_s(r).name;
    let e = Seq::<(Seq<char>, Seq<char>)>::empty();
    let a = e.push(("w:type"@, r.kind));
    let v = seq![("w:type"@, r.kind), ("r:id"@, r.r_id)];
    markup::lemma_no_attrs(n);
    markup::lemma_attrs_push(n, e, "w:type"@, r.kind);
    markup::lemma_attrs_push(n, a, "r:id"@, r.r_id);
    assert(a.push(("r:id"@, r.r_id)) =~= v);
    markup::lemma_attr(n, v);
    reveal_with_fuel(markup::value_s, 3);
    lemma_ref_text(n, xml::esc_s(r.kind), xml::esc_s(r.r_id));
}

proof fn lemma_ref_text(n: Seq<char>, k: Seq<char>, i: Seq<char>)
    ensures
        "<w:headerReference w:type=\""@ == "<"@ + "w:headerReference"@ + (" "@ + "w:type"@ + "=\""@),
        "<w:footerReference w:type=\""@ == "<"@ + "w:footerReference"@ + (" "@ + "w:type"@ + "=\""@),
        ("<"@ + n + (" "@ + "w:type"@ + "=\""@)) + k + "\""@ + (" r:id=\""@ + i + "\"/>"@) == "<"@ + n + (
        Seq::<char>::empty() + pair_s("w:type"@, k) + pair_s("r:id"@, i)) + "/>"@,
{
    let x = "<"@ + n;
    let y = " "@ + "w:type"@ + "=\""@;
    let q = "\""@;
    let z = " "@ + "r:id"@ + "=\""@;
    assert(" r:id=\""@ =~= z && "\"/>"@ =~= q + "/>"@ && "<w:headerReference w:type=\""@ =~= "<"@
        + "w:headerReference"@ + y && "<w:footerReference w:type=\""@ =~= "<"@ + "w:footerReference"@ + y)
        by {
        reveal_strlit(" r:id=\"");
        reveal_strlit("\"/>");
        reveal_strlit("<w:headerReference w:type=\"");
        reveal_strlit("<w:footerReference w:type=\"");
        reveal_strlit("<");
        reveal_strlit("w:headerReference");
        reveal_strlit("w:footerReference");
        reveal_strlit(" ");
        reveal_strlit("w:type");
        reveal_strlit("r:id");
        reveal_strlit("=\"");
        reveal_strlit("\"");
        reveal_strlit("/>");
    }
    let em = Seq::<char>::empty();
    assert((x + y) + k + q + (z + i + (q + "/>"@)) =~= x + (em + (y + k + q) + (z + i + q)) + "/>"@);
}

// ---------------------------------------------------------------- the markup

pub open spec fn ref_pieces_s(hf: Seq<HfRefV>, n: nat) -> Seq<Piece> {
    Seq::new(n, |i: int| Piece::Bare(ref_tag_s(hf[i])))
}

pub open spec fn title_pieces_s(on: bool) -> Seq<Piece> {
    if on {
        seq![Piece::Bare(markup::tag_s("w:titlePg"@, Seq::empty()))]
    } else {
        Seq::empty()
    }
}

/// The markup of a section: its references, its page, and whether its first page is different.
pub open spec fn section_pieces_s(p: PageGeometry, hf: Seq<HfRefV>, title_pg: bool) -> Seq<Piece> {
    seq![markup::open_s("w:sectPr"@)] + ref_pieces_s(hf, hf.len()) + seq![
        Piece::Bare(size_tag_s(p)),
        Piece::Bare(margin_tag_s(p)),
    ] + title_pieces_s(title_pg) + seq![Piece::Close("w:sectPr"@)]
}

proof fn lemma_refs_spelled(hf: Seq<HfRefV>, n: nat)
    requires
        n <= hf.len(),
    ensures
        markup::spells_s(ref_pieces_s(hf, n), headers::refs_s(hf, n)),
    decreases n,
{
    if n == 0 {
        markup::lemma_spell_none();
        assert(ref_pieces_s(hf, 0) =~= Seq::empty());
    } else {
        let m = (n - 1) as nat;
        lemma_refs_spelled(hf, m);
        let q = Piece::Bare(ref_tag_s(hf[m as int]));
        lemma_ref(hf[m as int]);
        markup::lemma_spell_one(q);
        markup::lemma_spell_both(ref_pieces_s(hf, m), headers::refs_s(hf, m), seq![q], headers::ref_s(hf[m as int]));
        assert(ref_pieces_s(hf, n) =~= ref_pieces_s(hf, m) + seq![q]);
    }
}

proof fn lemma_section_spelled(p: PageGeometry, hf: Seq<HfRefV>, title_pg: bool)
    ensures
        markup::spells_s(section_pieces_s(p, hf, title_pg), headers::sectpr_s(p, hf, title_pg)),
{
    let o = "<w:sectPr>"@;
    let c = "</w:sectPr>"@;
    let tt = "<w:titlePg/>"@;
    assert(o =~= "<"@ + "w:sectPr"@ + ">"@ && c =~= "</"@ + "w:sectPr"@ + ">"@ && tt =~= "<"@
        + "w:titlePg"@ + "/>"@) by {
        reveal_strlit("<w:sectPr>");
        reveal_strlit("</w:sectPr>");
        reveal_strlit("<w:titlePg/>");
        reveal_strlit("<");
        reveal_strlit("</");
        reveal_strlit(">");
        reveal_strlit("/>");
        reveal_strlit("w:sectPr");
        reveal_strlit("w:titlePg");
    }
    markup::lemma_open_text("w:sectPr"@, o);
    markup::lemma_bare_text("w:titlePg"@, tt);
    let q1 = markup::open_s("w:sectPr"@);
    let q2 = Piece::Bare(size_tag_s(p));
    let q3 = Piece::Bare(margin_tag_s(p));
    let q5 = Piece::Close("w:sectPr"@);
    let r = ref_pieces_s(hf, hf.len());
    let t = title_pieces_s(title_pg);
    let x = headers::refs_s(hf, hf.len());
    let y = strs::when_s(title_pg, tt);
    lemma_refs_spelled(hf, hf.len());
    lemma_size_text(p);
    lemma_margin_text(p);
    markup::lemma_spell_one(q1);
    markup::lemma_spell_one(q2);
    markup::lemma_spell_one(q3);
    markup::lemma_spell_one(q5);
    markup::lemma_spell_none();
    markup::lemma_spell_one(Piece::Bare(markup::tag_s("w:titlePg"@, Seq::empty())));
    assert(markup::spells_s(t, y));
    let z = headers::pgsz_s(p);
    let g = headers::pgmar_s(p);
    markup::lemma_spell_both(seq![q1], o, r, x);
    markup::lemma_spell_both(seq![q1] + r, o + x, seq![q2], z);
    markup::lemma_spell_both(seq![q1] + r + seq![q2], o + x + z, seq![q3], g);
    markup::lemma_spell_both(seq![q1] + r + seq![q2] + seq![q3], o + x + z + g, t, y);
    markup::lemma_spell_both(seq![q1] + r + seq![q2] + seq![q3] + t, o + x + z + g + y, seq![q5], c);
    assert(section_pieces_s(p, hf, title_pg) =~= seq![q1] + r + seq![q2] + seq![q3] + t + seq![q5]);
}

// ---------------------------------------------------------------- read

proof fn lemma_cuts(v: Seq<Piece>, e: Seq<XmlEventV>, cuts: Seq<int>, n: nat)
    requires
        telling::all_tags_s(v),
        markup::told_at_s(v, e, cuts),
        n <= v.len(),
    ensures
        cuts[n as int] == n,
    decreases n,
{
    if n > 0 {
        let m = n - 1;
        lemma_cuts(v, e, cuts, m as nat);
        assert(0 <= cuts[m] <= cuts[m + 1] <= e.len());
        assert(!(v[m] is Chars));
    }
}

/// Events that state tags are those tags, one for one.
proof fn lemma_tags_told(v: Seq<Piece>, e: Seq<XmlEventV>)
    requires
        telling::all_tags_s(v),
        markup::told_s(v, e),
    ensures
        e.len() == v.len(),
        forall|i: int| 0 <= i < v.len() ==> markup::states_s(#[trigger] e[i], v[i]),
{
    let cuts = choose|cuts: Seq<int>| #[trigger] markup::told_at_s(v, e, cuts);
    lemma_cuts(v, e, cuts, v.len());
    assert forall|i: int| 0 <= i < v.len() implies markup::states_s(#[trigger] e[i], v[i]) by {
        lemma_cuts(v, e, cuts, i as nat);
        lemma_cuts(v, e, cuts, (i + 1) as nat);
        assert(0 <= cuts[i] <= cuts[i + 1] <= e.len());
        assert(!(v[i] is Chars));
        assert(e.subrange(cuts[i], cuts[i + 1])[0] == e[i]);
    }
}

proof fn lemma_readable_all(steps: Seq<XmlStepV>, from: int)
    requires
        0 <= from <= steps.len(),
        forall|i: int| 0 <= i < steps.len() ==> !((#[trigger] steps[i]).event is Error),
    ensures
        events::readable_s(steps, from) == steps.len(),
    decreases steps.len() - from,
{
    if from < steps.len() {
        lemma_readable_all(steps, from + 1);
    }
}

/// Whether the steps are the tags of a section, one for one.
spec fn section_steps_s(steps: Seq<XmlStepV>, p: PageGeometry, hf: Seq<HfRefV>, title_pg: bool) -> bool {
    let v = section_pieces_s(p, hf, title_pg);
    &&& steps.len() == v.len()
    &&& forall|i: int| 0 <= i < v.len() ==> markup::states_s((#[trigger] steps[i]).event, v[i])
}

proof fn lemma_places(steps: Seq<XmlStepV>, p: PageGeometry, hf: Seq<HfRefV>, title_pg: bool)
    requires
        section_steps_s(steps, p, hf, title_pg),
    ensures
        ({
            let n = hf.len() as int;
            &&& steps.len() == n + (if title_pg {
                5int
            } else {
                4int
            })
            &&& events::tag_of_s(steps[0].event) == Some(markup::tag_s("w:sectPr"@, Seq::empty()))
            &&& forall|i: int|
                1 <= i <= n ==> events::tag_of_s((#[trigger] steps[i]).event) == Some(
                    ref_tag_s(hf[i - 1]),
                )
            &&& events::tag_of_s(steps[n + 1].event) == Some(size_tag_s(p))
            &&& events::tag_of_s(steps[n + 2].event) == Some(margin_tag_s(p))
            &&& title_pg ==> events::tag_of_s(steps[n + 3].event) == Some(
                markup::tag_s("w:titlePg"@, Seq::empty()),
            )
            &&& events::tag_of_s(steps[steps.len() - 1].event) is None
            &&& forall|i: int| 0 <= i < steps.len() ==> !((#[trigger] steps[i]).event is Error)
        }),
{
    let v = section_pieces_s(p, hf, title_pg);
    let n = hf.len() as int;
    assert(v[0] == markup::open_s("w:sectPr"@));
    assert(v[n + 1] == Piece::Bare(size_tag_s(p)));
    assert(v[n + 2] == Piece::Bare(margin_tag_s(p)));
    assert(v[v.len() - 1] == Piece::Close("w:sectPr"@));
    assert(title_pg ==> v[n + 3] == Piece::Bare(markup::tag_s("w:titlePg"@, Seq::empty())));
    assert forall|i: int| 1 <= i <= n implies events::tag_of_s((#[trigger] steps[i]).event) == Some(
        ref_tag_s(hf[i - 1]),
    ) by {
        assert(v[i] == Piece::Bare(ref_tag_s(hf[i - 1])));
    }
}

proof fn lemma_refs_read(steps: Seq<XmlStepV>, p: PageGeometry, hf: Seq<HfRefV>, title_pg: bool, k: nat)
    requires
        section_steps_s(steps, p, hf, title_pg),
        k <= hf.len(),
    ensures
        sections::hf_refs_s(steps, k as int + 1) == hf.take(k as int),
        sections::geometry_s(steps, k as int + 1) == (GeometryV {
            g: PageGeometry::initial(),
            got_size: false,
            got_margins: false,
        }),
    decreases k,
{
    lemma_places(steps, p, hf, title_pg);
    lemma_page_codes();
    if k == 0 {
        assert(sections::hf_refs_s(steps, 0) =~= Seq::empty());
        assert(sections::hf_refs_s(steps, 1) =~= hf.take(0));
        reveal_with_fuel(sections::geometry_s, 2);
    } else {
        lemma_refs_read(steps, p, hf, title_pg, (k - 1) as nat);
        let r = hf[k - 1];
        lemma_ref(r);
        assert(events::tag_of_s(steps[k as int].event) == Some(ref_tag_s(r)));
        assert(sections::hf_ref_s(steps[k as int].event) =~= seq![r]);
        assert(hf.take(k as int) =~= hf.take(k - 1) + seq![r]);
    }
}

proof fn lemma_geometry_rest(steps: Seq<XmlStepV>, n: int, m: int)
    requires
        0 <= n <= m,
        sections::geometry_s(steps, n).got_size,
        sections::geometry_s(steps, n).got_margins,
    ensures
        sections::geometry_s(steps, m) == sections::geometry_s(steps, n),
    decreases m - n,
{
    if n < m {
        lemma_geometry_rest(steps, n, m - 1);
    }
}

/// Whether a section is read with this page, these references and this flag.
pub open spec fn section_held_s(
    steps: Seq<XmlStepV>,
    p: PageGeometry,
    hf: Seq<HfRefV>,
    title_pg: bool,
) -> bool {
    &&& sections::page_geometry_s(steps) == (PageGeometry { multi_column: false, ..p })
    &&& sections::hf_refs_s(steps, events::readable_s(steps, 0)) == hf
    &&& sections::has_element_s(steps, "w:titlePg"@) == title_pg
}

proof fn lemma_section_read(steps: Seq<XmlStepV>, p: PageGeometry, hf: Seq<HfRefV>, title_pg: bool)
    requires
        section_steps_s(steps, p, hf, title_pg),
    ensures
        section_held_s(steps, p, hf, title_pg),
{
    let n = hf.len() as int;
    let all = steps.len() as int;
    lemma_places(steps, p, hf, title_pg);
    lemma_readable_all(steps, 0);
    lemma_refs_read(steps, p, hf, title_pg, hf.len());
    lemma_page_codes();
    lemma_size_attrs(p);
    lemma_margin_attrs(p);
    let g1 = sections::geometry_s(steps, n + 2);
    assert(g1.g == sections::with_size_s(PageGeometry::initial(), size_tag_s(p)) && g1.got_size
        && !g1.got_margins);
    let g2 = sections::geometry_s(steps, n + 3);
    assert(g2.g == sections::with_margins_s(g1.g, margin_tag_s(p)) && g2.got_size && g2.got_margins);
    lemma_geometry_rest(steps, n + 3, all);
    assert forall|i: int| 0 <= i < all implies !#[trigger] sections::is_multi_s(steps[i].event) by {
        if 1 <= i <= n {
            assert(events::tag_of_s(steps[i].event) == Some(ref_tag_s(hf[i - 1])));
        }
    }
    assert(hf.take(n) =~= hf);
    assert(sections::hf_ref_s(steps[n + 1].event).len() == 0);
    assert(sections::hf_refs_s(steps, n + 2) =~= hf);
    assert(sections::hf_ref_s(steps[n + 2].event).len() == 0);
    assert(sections::hf_refs_s(steps, n + 3) =~= hf);
    assert(sections::hf_ref_s(steps[n + 3].event).len() == 0);
    assert(sections::hf_refs_s(steps, n + 4) =~= hf);
    if title_pg {
        assert(sections::hf_ref_s(steps[n + 4].event).len() == 0);
        assert(sections::hf_refs_s(steps, n + 5) =~= hf);
        assert(sections::opens_s(steps[n + 3].event, "w:titlePg"@));
    } else {
        assert forall|i: int| 0 <= i < all implies !#[trigger] sections::opens_s(
            steps[i].event,
            "w:titlePg"@,
        ) by {
            if 1 <= i <= n {
                assert(events::tag_of_s(steps[i].event) == Some(ref_tag_s(hf[i - 1])));
            }
        }
    }
}

/// Whether markup `v` is what is written of a section, and a part that states it is read with this
/// page, these references and this flag.
pub open spec fn section_back_s(p: PageGeometry, hf: Seq<HfRefV>, title_pg: bool, v: Seq<Piece>) -> bool {
    &&& markup::spells_s(v, headers::sectpr_s(p, hf, title_pg))
    &&& forall|steps: Seq<XmlStepV>|
        markup::told_s(v, commentback::events_of_s(steps)) ==> #[trigger] section_held_s(
            steps,
            p,
            hf,
            title_pg,
        )
}

/// What is written of a section reads back: the width and height of its page, its four margins and
/// the distances of header and footer; each header and footer reference, of its kind, in order; and
/// whether its first page is different.
pub proof fn law_written_section_reads_back(p: PageGeometry, hf: Seq<HfRefV>, title_pg: bool)
    ensures
        exists|v: Seq<Piece>| #[trigger] section_back_s(p, hf, title_pg, v),
{
    let v = section_pieces_s(p, hf, title_pg);
    lemma_section_spelled(p, hf, title_pg);
    assert(telling::all_tags_s(v));
    assert forall|steps: Seq<XmlStepV>|
        markup::told_s(v, commentback::events_of_s(steps)) implies #[trigger] section_held_s(
        steps,
        p,
        hf,
        title_pg,
    ) by {
        let e = commentback::events_of_s(steps);
        lemma_tags_told(v, e);
        assert forall|i: int| 0 <= i < v.len() implies markup::states_s(
            (#[trigger] steps[i]).event,
            v[i],
        ) by {
            assert(e[i] == steps[i].event);
        }
        lemma_section_read(steps, p, hf, title_pg);
    }
    assert(section_back_s(p, hf, title_pg, v));
}

} // verus!
