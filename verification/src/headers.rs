//! Header and footer parts, and the section properties that close a body.

use std::collections::HashMap;

use vstd::prelude::*;

use crate::events;
use crate::events::{bytes, lossy, read_xml, readable, XmlEvent, XmlEventV, XmlStep, XmlStepV};
use crate::para;
use crate::para::{para_xml, ExportSpans, ExportSpansV};
use crate::paragraph::Pen;
use crate::search;
use crate::search::find_chars;
use crate::sections::{HfRef, HfRefV, PageGeometry};
use crate::sections;
use crate::spans;
use crate::spans::{comment_spans, IdAlloc, IdAllocV};
use crate::strs;
use crate::strs::{chars_of, only_if, str_eq, string_of};
use crate::types;
use crate::types::{ImagePlacement, Paragraph, ParagraphV};
use crate::xml;
use crate::xml::{esc_piece, int_piece, num};

verus! {

broadcast use vstd::string::group_string_axioms;

/// The namespace declarations on every rebuilt root: the full set that Word declares, so that
/// text re-emitted verbatim finds its prefixes.
pub const WORD_NS_ATTRS: &'static str = "xmlns:wpc=\"http://schemas.microsoft.com/office/word/2010/wordprocessingCanvas\" xmlns:cx=\"http://schemas.microsoft.com/office/drawing/2014/chartex\" xmlns:mc=\"http://schemas.openxmlformats.org/markup-compatibility/2006\" xmlns:o=\"urn:schemas-microsoft-com:office:office\" xmlns:r=\"http://schemas.openxmlformats.org/officeDocument/2006/relationships\" xmlns:m=\"http://schemas.openxmlformats.org/officeDocument/2006/math\" xmlns:v=\"urn:schemas-microsoft-com:vml\" xmlns:wp14=\"http://schemas.microsoft.com/office/word/2010/wordprocessingDrawing\" xmlns:wp=\"http://schemas.openxmlformats.org/drawingml/2006/wordprocessingDrawing\" xmlns:w10=\"urn:schemas-microsoft-com:office:word\" xmlns:w=\"http://schemas.openxmlformats.org/wordprocessingml/2006/main\" xmlns:w14=\"http://schemas.microsoft.com/office/word/2010/wordml\" xmlns:w15=\"http://schemas.microsoft.com/office/word/2012/wordml\" xmlns:w16se=\"http://schemas.microsoft.com/office/word/2015/wordml/symex\" xmlns:w16cid=\"http://schemas.microsoft.com/office/word/2016/wordml/cid\" xmlns:w16=\"http://schemas.microsoft.com/office/word/2018/wordml\" xmlns:w16cex=\"http://schemas.microsoft.com/office/word/2018/wordml/cex\" xmlns:w16sdtdh=\"http://schemas.microsoft.com/office/word/2020/wordml/sdtdatahash\" xmlns:wpg=\"http://schemas.openxmlformats.org/drawingml/2006/wordprocessingGroup\" xmlns:wpi=\"http://schemas.microsoft.com/office/word/2010/wordprocessingInk\" xmlns:wne=\"http://schemas.microsoft.com/office/word/2006/wordml\" xmlns:wps=\"http://schemas.openxmlformats.org/drawingml/2006/wordprocessingShape\" xmlns:a=\"http://schemas.openxmlformats.org/drawingml/2006/main\" xmlns:pic=\"http://schemas.openxmlformats.org/drawingml/2006/picture\" xmlns:c=\"http://schemas.openxmlformats.org/drawingml/2006/chart\" xmlns:dgm=\"http://schemas.openxmlformats.org/drawingml/2006/diagram\" mc:Ignorable=\"w14 w15 w16se w16cid w16 w16cex w16sdtdh wp14\"";

// ---------------------------------------------------------------- header and footer parts

/// The annotation tables of a header or footer: comments and pictures, nothing else.
pub open spec fn hf_spans_s(ps: Seq<ParagraphV>, images: Map<u64, ImagePlacement>) -> ExportSpansV {
    ExportSpansV {
        copens: spans::comment_opens_s(ps),
        ccloses: spans::comment_closes_s(ps),
        fopens: Seq::empty(),
        fcloses: Seq::empty(),
        bopens: Seq::empty(),
        bcloses: Seq::empty(),
        fields: Map::empty(),
        bookmarks: Map::empty(),
        links: Map::empty(),
        images,
        raw: Map::empty(),
    }
}

/// The first `n` paragraphs, written one after the other.
pub open spec fn paras_s(pen: Pen, ps: Seq<ParagraphV>, sp: ExportSpansV, n: nat) -> Pen
    decreases n,
{
    if n == 0 {
        pen
    } else {
        para::para_s(paras_s(pen, ps, sp, (n - 1) as nat), ps[n - 1], n - 1, sp)
    }
}

/// Write all paragraphs in order.
pub(crate) fn paras_xml(out: &mut String, ids: &mut IdAlloc, paras: &Vec<Paragraph>, sp: &ExportSpans)
    requires
        old(ids)@.wf(),
    ensures
        (Pen { text: final(out)@, ids: final(ids)@ }) == paras_s(
            Pen { text: old(out)@, ids: old(ids)@ },
            types::paragraph_vs(paras@),
            sp@,
            paras@.len(),
        ),
        final(ids)@.wf(),
{
    let ghost start = Pen { text: out@, ids: ids@ };
    let ghost pv = types::paragraph_vs(paras@);
    let mut i: usize = 0;
    while i < paras.len()
        invariant
            i <= paras@.len(),
            ids@.wf(),
            pv == types::paragraph_vs(paras@),
            (Pen { text: out@, ids: ids@ }) == paras_s(start, pv, sp@, i as nat),
        decreases paras@.len() - i,
    {
        assert(pv[i as int] == paras@[i as int]@);
        para_xml(out, ids, &paras[i], i, sp);
        i = i + 1;
    }
}

/// A header or footer part.
pub open spec fn hdr_ftr_s(
    ps: Seq<ParagraphV>,
    is_header: bool,
    images: Map<u64, ImagePlacement>,
) -> Seq<char> {
    let tag = if is_header {
        "w:hdr"@
    } else {
        "w:ftr"@
    };
    let head = "<?xml version=\"1.0\" encoding=\"UTF-8\" standalone=\"yes\"?>\r\n<"@ + tag + " "@
        + WORD_NS_ATTRS@ + ">"@ + strs::when_s(ps.len() == 0, "<w:p/>"@);
    paras_s(
        Pen { text: head, ids: IdAllocV::initial() },
        ps,
        hf_spans_s(ps, images),
        ps.len(),
    ).text + "</"@ + tag + ">"@
}

/// Serialize a header or footer part from its paragraphs; an empty one gets one empty paragraph.
/// `images` maps each picture id to its placement.
pub fn export_hdr_ftr_xml(
    paras: &Vec<Paragraph>,
    is_header: bool,
    images: &HashMap<u64, ImagePlacement>,
) -> (r: String)
    ensures
        r@ == hdr_ftr_s(types::paragraph_vs(paras@), is_header, images@),
{
    let (copens, ccloses) = comment_spans(paras);
    let sp = ExportSpans {
        copens,
        ccloses,
        fopens: Vec::new(),
        fcloses: Vec::new(),
        bopens: Vec::new(),
        bcloses: Vec::new(),
        fields: HashMap::new(),
        bookmarks: HashMap::new(),
        links: HashMap::new(),
        images,
        raw: HashMap::new(),
    };
    proof {
        assert(sp@.fopens =~= Seq::empty());
        assert(sp@.fcloses =~= Seq::empty());
        assert(sp@.bopens =~= Seq::empty());
        assert(sp@.bcloses =~= Seq::empty());
        assert(sp@ == hf_spans_s(types::paragraph_vs(paras@), images@));
    }
    let tag = if is_header {
        "w:hdr"
    } else {
        "w:ftr"
    };
    let mut out = "<?xml version=\"1.0\" encoding=\"UTF-8\" standalone=\"yes\"?>\r\n<".to_string();
    out.append(tag);
    out.append(" ");
    out.append(WORD_NS_ATTRS);
    out.append(">");
    out.append(only_if(paras.len() == 0, "<w:p/>").as_str());
    let mut ids = IdAlloc::new();
    paras_xml(&mut out, &mut ids, paras, &sp);
    out.append("</");
    out.append(tag);
    out.append(">");
    out
}

// ---------------------------------------------------------------- section properties

/// `w:pgSz`; a page wider than it is high is landscape.
pub open spec fn pgsz_s(p: PageGeometry) -> Seq<char> {
    xml::num_s("<w:pgSz w:w=\""@, p.width as nat, "\""@) + xml::num_s(
        " w:h=\""@,
        p.height as nat,
        "\""@,
    ) + strs::when_s(p.width > p.height, " w:orient=\"landscape\""@) + "/>"@
}

fn pgsz_xml(p: &PageGeometry) -> (r: String)
    ensures
        r@ == pgsz_s(*p),
{
    let mut s = num("<w:pgSz w:w=\"", p.width as u128, "\"");
    s.append(num(" w:h=\"", p.height as u128, "\"").as_str());
    s.append(only_if(p.width > p.height, " w:orient=\"landscape\"").as_str());
    s.append("/>");
    s
}

/// `w:pgMar`.
pub open spec fn pgmar_s(p: PageGeometry) -> Seq<char> {
    xml::int_s("<w:pgMar w:top=\""@, p.margin_top as int, "\""@) + xml::int_s(
        " w:right=\""@,
        p.margin_right as int,
        "\""@,
    ) + xml::int_s(" w:bottom=\""@, p.margin_bottom as int, "\""@) + xml::int_s(
        " w:left=\""@,
        p.margin_left as int,
        "\""@,
    ) + xml::num_s(" w:header=\""@, p.header_dist as nat, "\""@) + xml::num_s(
        " w:footer=\""@,
        p.footer_dist as nat,
        "\""@,
    ) + " w:gutter=\"0\"/>"@
}

fn pgmar_xml(p: &PageGeometry) -> (r: String)
    ensures
        r@ == pgmar_s(*p),
{
    let mut s = int_piece("<w:pgMar w:top=\"", p.margin_top as i64, "\"");
    s.append(int_piece(" w:right=\"", p.margin_right as i64, "\"").as_str());
    s.append(int_piece(" w:bottom=\"", p.margin_bottom as i64, "\"").as_str());
    s.append(int_piece(" w:left=\"", p.margin_left as i64, "\"").as_str());
    s.append(num(" w:header=\"", p.header_dist as u128, "\"").as_str());
    s.append(num(" w:footer=\"", p.footer_dist as u128, "\"").as_str());
    s.append(" w:gutter=\"0\"/>");
    s
}

/// One header or footer reference.
pub open spec fn ref_s(r: HfRefV) -> Seq<char> {
    xml::esc_piece_s(
        if r.is_header {
            "<w:headerReference w:type=\""@
        } else {
            "<w:footerReference w:type=\""@
        },
        r.kind,
        "\""@,
    ) + xml::esc_piece_s(" r:id=\""@, r.r_id, "\"/>"@)
}

pub open spec fn refs_s(hf: Seq<HfRefV>, n: nat) -> Seq<char>
    decreases n,
{
    if n == 0 {
        Seq::empty()
    } else {
        refs_s(hf, (n - 1) as nat) + ref_s(hf[n - 1])
    }
}

fn refs_xml(hf: &Vec<HfRef>) -> (r: String)
    ensures
        r@ == refs_s(sections::hf_ref_vs(hf@), hf@.len()),
{
    let mut s = String::new();
    let ghost v = sections::hf_ref_vs(hf@);
    let mut i: usize = 0;
    assert(s@ =~= Seq::empty());
    while i < hf.len()
        invariant
            i <= hf@.len(),
            v == sections::hf_ref_vs(hf@),
            s@ == refs_s(v, i as nat),
        decreases hf@.len() - i,
    {
        assert(v[i as int] == hf@[i as int]@);
        let r = &hf[i];
        let head = if r.is_header {
            "<w:headerReference w:type=\""
        } else {
            "<w:footerReference w:type=\""
        };
        let mut one = esc_piece(head, r.kind.as_str(), "\"");
        one.append(esc_piece(" r:id=\"", r.r_id.as_str(), "\"/>").as_str());
        s.append(one.as_str());
        i = i + 1;
    }
    s
}

/// The section properties of a document created here: the references come first.
pub open spec fn sectpr_s(p: PageGeometry, hf: Seq<HfRefV>, title_pg: bool) -> Seq<char> {
    "<w:sectPr>"@ + refs_s(hf, hf.len()) + pgsz_s(p) + pgmar_s(p) + strs::when_s(
        title_pg,
        "<w:titlePg/>"@,
    ) + "</w:sectPr>"@
}

/// Serialize the section properties from scratch: header and footer references, page size,
/// margins, and the different-first-page flag.
pub fn sectpr_xml(p: &PageGeometry, hf: &Vec<HfRef>, title_pg: bool) -> (r: String)
    ensures
        r@ == sectpr_s(*p, sections::hf_ref_vs(hf@), title_pg),
{
    let mut s = "<w:sectPr>".to_string();
    s.append(refs_xml(hf).as_str());
    s.append(pgsz_xml(p).as_str());
    s.append(pgmar_xml(p).as_str());
    s.append(only_if(title_pg, "<w:titlePg/>").as_str());
    s.append("</w:sectPr>");
    s
}

// ---------------------------------------------------------------- the children of a sectPr

/// A child element of a `w:sectPr`: its name and its text.
pub struct Child {
    pub name: String,
    pub xml: String,
}

/// The mathematical value of a [`Child`].
#[verifier::ext_equal]
pub struct ChildV {
    pub name: Seq<char>,
    pub xml: Seq<char>,
}

impl View for Child {
    type V = ChildV;

    open spec fn view(&self) -> ChildV {
        ChildV { name: self.name@, xml: self.xml@ }
    }
}

pub open spec fn child_vs(s: Seq<Child>) -> Seq<ChildV> {
    Seq::new(s.len(), |i: int| s[i]@)
}

proof fn lemma_child_push(s: Seq<Child>, x: Child)
    ensures
        child_vs(s.push(x)) == child_vs(s).push(x@),
{
    assert(child_vs(s.push(x)) =~= child_vs(s).push(x@));
}

/// The children found so far, the depth, the child being read and where it starts, and whether a
/// `w:sectPr` was seen.
#[verifier::ext_equal]
pub struct ChildrenV {
    pub out: Seq<ChildV>,
    pub depth: int,
    pub open: Option<(Seq<char>, int)>,
    pub seen: bool,
}

/// What one step adds: an element directly inside the `w:sectPr` is a child, with all its bytes.
pub open spec fn children_step_s(s: ChildrenV, xml: Seq<u8>, x: XmlStepV) -> ChildrenV {
    match x.event {
        XmlEventV::Start(t) => if t.name == "w:sectPr"@ && s.depth == 0 {
            ChildrenV { seen: true, depth: 1, ..s }
        } else if s.depth == 1 {
            ChildrenV { open: Some((t.name, x.start)), depth: 2, ..s }
        } else if s.depth >= 2 {
            ChildrenV { depth: s.depth + 1, ..s }
        } else {
            s
        },
        XmlEventV::Empty(t) => if s.depth == 1 {
            ChildrenV {
                out: s.out.push(
                    ChildV {
                        name: t.name,
                        xml: events::lossy_s(events::bytes_s(xml, x.start, x.end)),
                    },
                ),
                ..s
            }
        } else {
            s
        },
        XmlEventV::End(n) => if n == "w:sectPr"@ && s.depth == 1 {
            ChildrenV { depth: 0, ..s }
        } else if s.depth == 2 {
            ChildrenV {
                out: match s.open {
                    Some(o) => s.out.push(
                        ChildV {
                            name: o.0,
                            xml: events::lossy_s(events::bytes_s(xml, o.1, x.end)),
                        },
                    ),
                    None => s.out,
                },
                open: None,
                depth: 1,
                ..s
            }
        } else if s.depth > 2 {
            ChildrenV { depth: s.depth - 1, ..s }
        } else {
            s
        },
        _ => s,
    }
}

pub open spec fn children_run_s(xml: Seq<u8>, steps: Seq<XmlStepV>, n: int) -> ChildrenV
    decreases n,
{
    if n <= 0 {
        ChildrenV { out: Seq::empty(), depth: 0, open: None, seen: false }
    } else {
        children_step_s(children_run_s(xml, steps, n - 1), xml, steps[n - 1])
    }
}

/// The children of a `w:sectPr`, in order; nothing where the text does not read through or holds
/// no `w:sectPr`.
pub open spec fn children_s(xml: Seq<u8>, steps: Seq<XmlStepV>) -> Option<Seq<ChildV>> {
    let end = children_run_s(xml, steps, steps.len() as int);
    if events::readable_s(steps, 0) == steps.len() && end.seen {
        Some(end.out)
    } else {
        None
    }
}

pub open spec fn child_vs_opt(o: Option<Vec<Child>>) -> Option<Seq<ChildV>> {
    match o {
        Some(v) => Some(child_vs(v@)),
        None => None,
    }
}

/// Split a tokenized `w:sectPr` into its children, sliced from its bytes.
pub fn sectpr_children_of(xml: &[u8], steps: &Vec<XmlStep>) -> (r: Option<Vec<Child>>)
    ensures
        child_vs_opt(r) == children_s(xml@, events::xml_step_vs(steps@)),
{
    let n = readable(steps);
    if n != steps.len() {
        return None;
    }
    let ghost v = events::xml_step_vs(steps@);
    let mut out: Vec<Child> = Vec::new();
    let mut depth: usize = 0;
    let mut open: Option<(String, usize)> = None;
    let mut seen = false;
    let mut i: usize = 0;
    assert(child_vs(out@) =~= Seq::empty());
    while i < n
        invariant
            i <= n == steps@.len(),
            v == events::xml_step_vs(steps@),
            children_run_s(xml@, v, i as int) == (ChildrenV {
                out: child_vs(out@),
                depth: depth as int,
                open: match open {
                    Some(o) => Some((o.0@, o.1 as int)),
                    None => None,
                },
                seen,
            }),
            depth <= i,
        decreases n - i,
    {
        assert(v[i as int] == steps@[i as int]@);
        let step = &steps[i];
        let ghost was = out@;
        match &step.event {
            XmlEvent::Start(t) => {
                if str_eq(t.name.as_str(), "w:sectPr") && depth == 0 {
                    seen = true;
                    depth = 1;
                } else if depth == 1 {
                    open = Some((t.name.clone(), step.start));
                    depth = 2;
                } else if depth >= 2 {
                    depth = depth + 1;
                }
            },
            XmlEvent::Empty(t) => {
                if depth == 1 {
                    let text = lossy(bytes(xml, step.start, step.end).as_slice());
                    let c = Child { name: t.name.clone(), xml: text };
                    proof {
                        lemma_child_push(was, c);
                    }
                    out.push(c);
                }
            },
            XmlEvent::End(name) => {
                if str_eq(name.as_str(), "w:sectPr") && depth == 1 {
                    depth = 0;
                } else if depth == 2 {
                    if let Some(o) = open {
                        let text = lossy(bytes(xml, o.1, step.end).as_slice());
                        let c = Child { name: o.0, xml: text };
                        proof {
                            lemma_child_push(was, c);
                        }
                        out.push(c);
                    }
                    open = None;
                    depth = 1;
                } else if depth > 2 {
                    depth = depth - 1;
                }
            },
            _ => {},
        }
        i = i + 1;
    }
    if seen {
        Some(out)
    } else {
        None
    }
}

/// Split a `w:sectPr` into its children, in document order.
fn sectpr_children(raw: &str) -> (r: Option<Vec<Child>>)
    ensures
        child_vs_opt(r) == ({
            let b = vstd::utf8::encode_utf8(raw@);
            children_s(b, events::doc_s(b))
        }),
{
    let b = raw.as_bytes();
    sectpr_children_of(b, &read_xml(b))
}

/// The `w:type` of a header or footer reference: what stands between the quotes.
pub open spec fn ref_kind_s(x: Seq<char>) -> Option<Seq<char>> {
    let key = "w:type=\""@;
    match search::find_s(x, key, 0) {
        Some(at) => {
            let rest = x.subrange(at + key.len(), x.len() as int);
            match search::find_s(rest, "\""@, 0) {
                Some(end) => Some(rest.subrange(0, end)),
                None => None,
            }
        },
        None => None,
    }
}

fn ref_kind(x: &str) -> (r: Option<String>)
    ensures
        strs::opt_s(r) == ref_kind_s(x@),
{
    let v = chars_of(x);
    let key = chars_of("w:type=\"");
    let quote = chars_of("\"");
    let len = v.len();
    match find_chars(&v, &key, 0) {
        Some(at) => {
            proof {
                search::lemma_find(v@, key@, 0);
            }
            let rest_s = string_of(&v, at + key.len(), len);
            let rest = chars_of(rest_s.as_str());
            match find_chars(&rest, &quote, 0) {
                Some(end) => {
                    proof {
                        search::lemma_find(rest@, quote@, 0);
                    }
                    Some(string_of(&rest, 0, end))
                },
                None => None,
            }
        },
        None => None,
    }
}

// ---------------------------------------------------------------- merging

/// The place of an element in the schema order of a `w:sectPr`.
pub open spec fn sectpr_rank_s(n: Seq<char>) -> Option<int> {
    if n == "w:headerReference"@ {
        Some(0)
    } else if n == "w:footerReference"@ {
        Some(1)
    } else if n == "w:footnotePr"@ {
        Some(2)
    } else if n == "w:endnotePr"@ {
        Some(3)
    } else if n == "w:type"@ {
        Some(4)
    } else if n == "w:pgSz"@ {
        Some(5)
    } else if n == "w:pgMar"@ {
        Some(6)
    } else if n == "w:paperSrc"@ {
        Some(7)
    } else if n == "w:pgBorders"@ {
        Some(8)
    } else if n == "w:lnNumType"@ {
        Some(9)
    } else if n == "w:pgNumType"@ {
        Some(10)
    } else if n == "w:cols"@ {
        Some(11)
    } else if n == "w:formProt"@ {
        Some(12)
    } else if n == "w:vAlign"@ {
        Some(13)
    } else if n == "w:noEndnote"@ {
        Some(14)
    } else if n == "w:titlePg"@ {
        Some(15)
    } else if n == "w:textDirection"@ {
        Some(16)
    } else if n == "w:bidi"@ {
        Some(17)
    } else if n == "w:rtlGutter"@ {
        Some(18)
    } else if n == "w:docGrid"@ {
        Some(19)
    } else if n == "w:printerSettings"@ {
        Some(20)
    } else if n == "w:sectPrChange"@ {
        Some(21)
    } else {
        None
    }
}

fn sectpr_rank(n: &str) -> (r: Option<u8>)
    ensures
        r matches Some(k) ==> sectpr_rank_s(n@) == Some(k as int),
        r is None ==> sectpr_rank_s(n@) is None,
{
    if str_eq(n, "w:headerReference") {
        Some(0)
    } else if str_eq(n, "w:footerReference") {
        Some(1)
    } else if str_eq(n, "w:footnotePr") {
        Some(2)
    } else if str_eq(n, "w:endnotePr") {
        Some(3)
    } else if str_eq(n, "w:type") {
        Some(4)
    } else if str_eq(n, "w:pgSz") {
        Some(5)
    } else if str_eq(n, "w:pgMar") {
        Some(6)
    } else if str_eq(n, "w:paperSrc") {
        Some(7)
    } else if str_eq(n, "w:pgBorders") {
        Some(8)
    } else if str_eq(n, "w:lnNumType") {
        Some(9)
    } else if str_eq(n, "w:pgNumType") {
        Some(10)
    } else if str_eq(n, "w:cols") {
        Some(11)
    } else if str_eq(n, "w:formProt") {
        Some(12)
    } else if str_eq(n, "w:vAlign") {
        Some(13)
    } else if str_eq(n, "w:noEndnote") {
        Some(14)
    } else if str_eq(n, "w:titlePg") {
        Some(15)
    } else if str_eq(n, "w:textDirection") {
        Some(16)
    } else if str_eq(n, "w:bidi") {
        Some(17)
    } else if str_eq(n, "w:rtlGutter") {
        Some(18)
    } else if str_eq(n, "w:docGrid") {
        Some(19)
    } else if str_eq(n, "w:printerSettings") {
        Some(20)
    } else if str_eq(n, "w:sectPrChange") {
        Some(21)
    } else {
        None
    }
}

/// Whether the child is a header or footer reference.
pub open spec fn is_ref_s(name: Seq<char>) -> bool {
    name == "w:headerReference"@ || name == "w:footerReference"@
}

/// A reference of a kind that is not modeled: neither `default` nor `first`.
pub open spec fn is_kept_ref_s(c: ChildV) -> bool {
    is_ref_s(c.name) && !(ref_kind_s(c.xml) == Some("default"@) || ref_kind_s(c.xml) == Some(
        "first"@,
    ))
}

/// The references of the first `n` children that are kept as they stand.
pub open spec fn kept_refs_s(cs: Seq<ChildV>, n: nat) -> Seq<char>
    decreases n,
{
    if n == 0 {
        Seq::empty()
    } else {
        kept_refs_s(cs, (n - 1) as nat) + strs::when_s(is_kept_ref_s(cs[n - 1]), cs[n - 1].xml)
    }
}

/// What one imported child becomes: size and margins come from the model, the first-page flag
/// stands if it is on, references are written elsewhere, and anything else is untouched.
pub open spec fn substitute_s(c: ChildV, p: PageGeometry, title_pg: bool) -> Seq<ChildV> {
    if is_ref_s(c.name) {
        Seq::empty()
    } else if c.name == "w:pgSz"@ {
        seq![ChildV { name: c.name, xml: pgsz_s(p) }]
    } else if c.name == "w:pgMar"@ {
        seq![ChildV { name: c.name, xml: pgmar_s(p) }]
    } else if c.name == "w:titlePg"@ {
        if title_pg {
            seq![ChildV { name: c.name, xml: "<w:titlePg/>"@ }]
        } else {
            Seq::empty()
        }
    } else {
        seq![c]
    }
}

pub open spec fn substituted_s(cs: Seq<ChildV>, p: PageGeometry, title_pg: bool, n: nat) -> Seq<
    ChildV,
>
    decreases n,
{
    if n == 0 {
        Seq::empty()
    } else {
        substituted_s(cs, p, title_pg, (n - 1) as nat) + substitute_s(cs[n - 1], p, title_pg)
    }
}

/// Whether one of the first `n` children is called `name`.
pub open spec fn has_child_s(cs: Seq<ChildV>, name: Seq<char>, n: int) -> bool {
    exists|i: int| 0 <= i < n && (#[trigger] cs[i]).name == name
}

/// The place of the first child, from `from` on, that comes after `rank` in schema order.
pub open spec fn slot_s(cs: Seq<ChildV>, rank: int, from: int) -> int
    decreases cs.len() - from,
{
    if 0 <= from < cs.len() {
        if sectpr_rank_s(cs[from].name) matches Some(r) && r > rank {
            from
        } else {
            slot_s(cs, rank, from + 1)
        }
    } else {
        cs.len() as int
    }
}

/// The children with one more, in its place in schema order.
pub open spec fn slotted_s(cs: Seq<ChildV>, name: Seq<char>, xml: Seq<char>) -> Seq<ChildV> {
    let rank = sectpr_rank_s(name)->0;
    cs.insert(slot_s(cs, rank, 0), ChildV { name, xml })
}

/// The children of the merged section: the imported ones with the model's substituted, and what
/// the model owns that was missing slotted in.
pub open spec fn merged_s(cs: Seq<ChildV>, p: PageGeometry, title_pg: bool) -> Seq<ChildV> {
    let n = cs.len();
    let a = substituted_s(cs, p, title_pg, n);
    let b = if has_child_s(cs, "w:pgSz"@, n as int) {
        a
    } else {
        slotted_s(a, "w:pgSz"@, pgsz_s(p))
    };
    let c = if has_child_s(cs, "w:pgMar"@, n as int) {
        b
    } else {
        slotted_s(b, "w:pgMar"@, pgmar_s(p))
    };
    if title_pg && !has_child_s(cs, "w:titlePg"@, n as int) {
        slotted_s(c, "w:titlePg"@, "<w:titlePg/>"@)
    } else {
        c
    }
}

pub open spec fn child_texts_s(cs: Seq<ChildV>, n: nat) -> Seq<char>
    decreases n,
{
    if n == 0 {
        Seq::empty()
    } else {
        child_texts_s(cs, (n - 1) as nat) + cs[n - 1].xml
    }
}

/// The merged section written out.
pub open spec fn merge_children_s(
    cs: Seq<ChildV>,
    p: PageGeometry,
    hf: Seq<HfRefV>,
    title_pg: bool,
) -> Seq<char> {
    let m = merged_s(cs, p, title_pg);
    "<w:sectPr>"@ + (refs_s(hf, hf.len()) + kept_refs_s(cs, cs.len())) + child_texts_s(m, m.len())
        + "</w:sectPr>"@
}

/// The imported section with the model's properties merged in; written from scratch where the
/// imported text holds no readable section.
pub open spec fn merge_sectpr_s(
    raw: Seq<char>,
    p: PageGeometry,
    hf: Seq<HfRefV>,
    title_pg: bool,
) -> Seq<char> {
    let b = vstd::utf8::encode_utf8(raw);
    match children_s(b, events::doc_s(b)) {
        Some(cs) => merge_children_s(cs, p, hf, title_pg),
        None => sectpr_s(p, hf, title_pg),
    }
}

fn kept_refs(cs: &Vec<Child>) -> (r: String)
    ensures
        r@ == kept_refs_s(child_vs(cs@), cs@.len()),
{
    let ghost v = child_vs(cs@);
    let mut s = String::new();
    let mut i: usize = 0;
    assert(s@ =~= Seq::empty());
    while i < cs.len()
        invariant
            i <= cs@.len(),
            v == child_vs(cs@),
            s@ == kept_refs_s(v, i as nat),
        decreases cs@.len() - i,
    {
        assert(v[i as int] == cs@[i as int]@);
        let c = &cs[i];
        let is_ref = str_eq(c.name.as_str(), "w:headerReference") || str_eq(
            c.name.as_str(),
            "w:footerReference",
        );
        let kind = ref_kind(c.xml.as_str());
        let keep = is_ref && !(strs::opt_is(&kind, "default") || strs::opt_is(&kind, "first"));
        s.append(only_if(keep, c.xml.as_str()).as_str());
        i = i + 1;
    }
    s
}

fn slot_in(cs: &mut Vec<Child>, name: &str, xml: String)
    requires
        sectpr_rank_s(name@) is Some,
    ensures
        child_vs(final(cs)@) == slotted_s(child_vs(old(cs)@), name@, xml@),
{
    let rank: u8 = match sectpr_rank(name) {
        Some(r) => r,
        None => 0,
    };
    let ghost v = child_vs(cs@);
    let mut at: usize = 0;
    let len = cs.len();
    while at < len
        invariant_except_break
            slot_s(v, rank as int, 0) == slot_s(v, rank as int, at as int),
        invariant
            at <= len == cs@.len(),
            v == child_vs(cs@),
        ensures
            slot_s(v, rank as int, 0) == at,
        decreases len - at,
    {
        assert(v[at as int] == cs@[at as int]@);
        let later = match sectpr_rank(cs[at].name.as_str()) {
            Some(r) => r > rank,
            None => false,
        };
        if later {
            break;
        }
        at = at + 1;
    }
    let ghost was = cs@;
    let c = Child { name: name.to_string(), xml };
    let ghost cv = c@;
    cs.insert(at, c);
    assert(child_vs(cs@) =~= child_vs(was).insert(at as int, cv));
}

fn child_texts(cs: &Vec<Child>) -> (r: String)
    ensures
        r@ == child_texts_s(child_vs(cs@), cs@.len()),
{
    let ghost v = child_vs(cs@);
    let mut s = String::new();
    let mut i: usize = 0;
    assert(s@ =~= Seq::empty());
    while i < cs.len()
        invariant
            i <= cs@.len(),
            v == child_vs(cs@),
            s@ == child_texts_s(v, i as nat),
        decreases cs@.len() - i,
    {
        assert(v[i as int] == cs@[i as int]@);
        s.append(cs[i].xml.as_str());
        i = i + 1;
    }
    s
}

proof fn lemma_has_child_step(cs: Seq<ChildV>, name: Seq<char>, n: int)
    requires
        0 <= n < cs.len(),
    ensures
        has_child_s(cs, name, n + 1) == (has_child_s(cs, name, n) || cs[n].name == name),
{
    if has_child_s(cs, name, n) {
        let i = choose|i: int| 0 <= i < n && (#[trigger] cs[i]).name == name;
        assert(cs[i].name == name);
    }
}

/// Merge the model's section properties into an imported section's children: the four that the
/// model owns are substituted, everything else passes through in place.
pub fn merge_children(cs: &Vec<Child>, p: &PageGeometry, hf: &Vec<HfRef>, title_pg: bool) -> (r: String)
    ensures
        r@ == merge_children_s(child_vs(cs@), *p, sections::hf_ref_vs(hf@), title_pg),
{
    let ghost v = child_vs(cs@);
    let mut out: Vec<Child> = Vec::new();
    let mut saw_size = false;
    let mut saw_margins = false;
    let mut saw_title = false;
    let mut i: usize = 0;
    assert(child_vs(out@) =~= Seq::empty());
    while i < cs.len()
        invariant
            i <= cs@.len(),
            v == child_vs(cs@),
            child_vs(out@) == substituted_s(v, *p, title_pg, i as nat),
            saw_size == has_child_s(v, "w:pgSz"@, i as int),
            saw_margins == has_child_s(v, "w:pgMar"@, i as int),
            saw_title == has_child_s(v, "w:titlePg"@, i as int),
        decreases cs@.len() - i,
    {
        assert(v[i as int] == cs@[i as int]@);
        proof {
            lemma_has_child_step(v, "w:pgSz"@, i as int);
            lemma_has_child_step(v, "w:pgMar"@, i as int);
            lemma_has_child_step(v, "w:titlePg"@, i as int);
            assert("w:pgSz"@ != "w:pgMar"@ && "w:pgSz"@ != "w:titlePg"@ && "w:pgMar"@ != "w:titlePg"@
                && !is_ref_s("w:pgSz"@) && !is_ref_s("w:pgMar"@) && !is_ref_s("w:titlePg"@)) by {
                lemma_names_differ();
            }
        }
        let c = &cs[i];
        let ghost was = out@;
        let name = c.name.as_str();
        if str_eq(name, "w:headerReference") || str_eq(name, "w:footerReference") {
        } else if str_eq(name, "w:pgSz") {
            saw_size = true;
            out.push(Child { name: c.name.clone(), xml: pgsz_xml(p) });
        } else if str_eq(name, "w:pgMar") {
            saw_margins = true;
            out.push(Child { name: c.name.clone(), xml: pgmar_xml(p) });
        } else if str_eq(name, "w:titlePg") {
            saw_title = true;
            if title_pg {
                out.push(Child { name: c.name.clone(), xml: "<w:titlePg/>".to_string() });
            }
        } else {
            out.push(Child { name: c.name.clone(), xml: c.xml.clone() });
        }
        assert(child_vs(out@) =~= child_vs(was) + substitute_s(v[i as int], *p, title_pg));
        i = i + 1;
    }
    proof {
        lemma_names_differ();
    }
    if !saw_size {
        slot_in(&mut out, "w:pgSz", pgsz_xml(p));
    }
    if !saw_margins {
        slot_in(&mut out, "w:pgMar", pgmar_xml(p));
    }
    if title_pg && !saw_title {
        slot_in(&mut out, "w:titlePg", "<w:titlePg/>".to_string());
    }
    let mut refs = refs_xml(hf);
    refs.append(kept_refs(cs).as_str());
    let mut s = "<w:sectPr>".to_string();
    s.append(refs.as_str());
    s.append(child_texts(&out).as_str());
    s.append("</w:sectPr>");
    s
}

/// The names that the model owns differ from each other, and have a place in schema order.
proof fn lemma_names_differ()
    ensures
        "w:pgSz"@ != "w:pgMar"@,
        "w:pgSz"@ != "w:titlePg"@,
        "w:pgMar"@ != "w:titlePg"@,
        !is_ref_s("w:pgSz"@),
        !is_ref_s("w:pgMar"@),
        !is_ref_s("w:titlePg"@),
        sectpr_rank_s("w:pgSz"@) is Some,
        sectpr_rank_s("w:pgMar"@) is Some,
        sectpr_rank_s("w:titlePg"@) is Some,
{
    reveal_strlit("w:pgSz");
    reveal_strlit("w:pgMar");
    reveal_strlit("w:titlePg");
    reveal_strlit("w:headerReference");
    reveal_strlit("w:footerReference");
    assert("w:pgSz"@.len() != "w:pgMar"@.len());
    assert("w:pgSz"@.len() != "w:titlePg"@.len());
    assert("w:pgMar"@.len() != "w:titlePg"@.len());
    assert("w:headerReference"@.len() == 17);
    assert("w:footerReference"@.len() == 17);
}

/// Merge the model's section properties into the `sectPr` as imported, keeping every child the
/// model does not represent.
pub fn merge_sectpr_xml(raw: &str, p: &PageGeometry, hf: &Vec<HfRef>, title_pg: bool) -> (r: String)
    ensures
        r@ == merge_sectpr_s(raw@, *p, sections::hf_ref_vs(hf@), title_pg),
{
    match sectpr_children(raw) {
        Some(cs) => merge_children(&cs, p, hf, title_pg),
        None => sectpr_xml(p, hf, title_pg),
    }
}

// ---------------------------------------------------------------- laws

/// Whether the model owns children of this name.
pub open spec fn modeled_s(name: Seq<char>) -> bool {
    is_ref_s(name) || name == "w:pgSz"@ || name == "w:pgMar"@ || name == "w:titlePg"@
}

/// The children that the model does not represent, in order.
pub open spec fn unmodeled_s(cs: Seq<ChildV>) -> Seq<ChildV>
    decreases cs.len(),
{
    if cs.len() == 0 {
        Seq::empty()
    } else {
        let rest = unmodeled_s(cs.drop_last());
        if modeled_s(cs.last().name) {
            rest
        } else {
            rest.push(cs.last())
        }
    }
}

proof fn lemma_unmodeled_concat(a: Seq<ChildV>, b: Seq<ChildV>)
    ensures
        unmodeled_s(a + b) == unmodeled_s(a) + unmodeled_s(b),
    decreases b.len(),
{
    if b.len() == 0 {
        assert(a + b =~= a);
        assert(unmodeled_s(a) + unmodeled_s(b) =~= unmodeled_s(a));
    } else {
        lemma_unmodeled_concat(a, b.drop_last());
        assert((a + b).drop_last() =~= a + b.drop_last());
        assert((a + b).last() == b.last());
        assert(unmodeled_s(a + b) =~= unmodeled_s(a) + unmodeled_s(b));
    }
}

proof fn lemma_unmodeled_one(c: ChildV)
    ensures
        modeled_s(c.name) ==> unmodeled_s(seq![c]) == Seq::<ChildV>::empty(),
        !modeled_s(c.name) ==> unmodeled_s(seq![c]) == seq![c],
{
    assert(seq![c].drop_last() =~= Seq::empty());
    assert(unmodeled_s(Seq::<ChildV>::empty()) == Seq::<ChildV>::empty());
    assert(seq![c].last() == c);
    assert(Seq::<ChildV>::empty().push(c) =~= seq![c]);
}

proof fn lemma_unmodeled_insert(cs: Seq<ChildV>, at: int, c: ChildV)
    requires
        0 <= at <= cs.len(),
        modeled_s(c.name),
    ensures
        unmodeled_s(cs.insert(at, c)) == unmodeled_s(cs),
{
    let a = cs.subrange(0, at);
    let b = cs.subrange(at, cs.len() as int);
    assert(cs =~= a + b);
    assert(cs.insert(at, c) =~= a + seq![c] + b);
    lemma_unmodeled_concat(a, b);
    lemma_unmodeled_concat(a, seq![c]);
    lemma_unmodeled_concat(a + seq![c], b);
    lemma_unmodeled_one(c);
    assert(unmodeled_s(a) + Seq::<ChildV>::empty() =~= unmodeled_s(a));
}

proof fn lemma_slot_range(cs: Seq<ChildV>, rank: int, from: int)
    requires
        0 <= from <= cs.len(),
    ensures
        from <= slot_s(cs, rank, from) <= cs.len(),
        forall|i: int| from <= i < slot_s(cs, rank, from) ==> !((#[trigger] sectpr_rank_s(
            cs[i].name,
        )) matches Some(r) && r > rank),
        slot_s(cs, rank, from) < cs.len() ==> (sectpr_rank_s(
            cs[slot_s(cs, rank, from)].name,
        ) matches Some(r) && r > rank),
    decreases cs.len() - from,
{
    if from < cs.len() && !(sectpr_rank_s(cs[from].name) matches Some(r) && r > rank) {
        lemma_slot_range(cs, rank, from + 1);
    }
}

proof fn lemma_unmodeled_substituted(cs: Seq<ChildV>, p: PageGeometry, title_pg: bool, n: nat)
    requires
        n <= cs.len(),
    ensures
        unmodeled_s(substituted_s(cs, p, title_pg, n)) == unmodeled_s(cs.subrange(0, n as int)),
    decreases n,
{
    if n == 0 {
        assert(cs.subrange(0, 0) =~= Seq::empty());
    } else {
        let m = (n - 1) as nat;
        lemma_unmodeled_substituted(cs, p, title_pg, m);
        let c = cs[m as int];
        let sub = substitute_s(c, p, title_pg);
        lemma_unmodeled_concat(substituted_s(cs, p, title_pg, m), sub);
        lemma_unmodeled_concat(cs.subrange(0, m as int), seq![c]);
        assert(cs.subrange(0, n as int) =~= cs.subrange(0, m as int) + seq![c]);
        lemma_unmodeled_one(c);
        lemma_unmodeled_one(ChildV { name: c.name, xml: pgsz_s(p) });
        lemma_unmodeled_one(ChildV { name: c.name, xml: pgmar_s(p) });
        lemma_unmodeled_one(ChildV { name: c.name, xml: "<w:titlePg/>"@ });
        assert(unmodeled_s(sub) == unmodeled_s(seq![c]));
    }
}

/// Merging keeps every child that the model does not represent, untouched and in order.
pub proof fn law_merge_keeps_unmodeled_children(cs: Seq<ChildV>, p: PageGeometry, title_pg: bool)
    ensures
        unmodeled_s(merged_s(cs, p, title_pg)) == unmodeled_s(cs),
{
    let n = cs.len();
    lemma_names_differ();
    lemma_unmodeled_substituted(cs, p, title_pg, n);
    assert(cs.subrange(0, n as int) =~= cs);
    let a = substituted_s(cs, p, title_pg, n);
    let b = if has_child_s(cs, "w:pgSz"@, n as int) {
        a
    } else {
        slotted_s(a, "w:pgSz"@, pgsz_s(p))
    };
    let c = if has_child_s(cs, "w:pgMar"@, n as int) {
        b
    } else {
        slotted_s(b, "w:pgMar"@, pgmar_s(p))
    };
    lemma_slotted_keeps(a, "w:pgSz"@, pgsz_s(p));
    lemma_slotted_keeps(b, "w:pgMar"@, pgmar_s(p));
    lemma_slotted_keeps(c, "w:titlePg"@, "<w:titlePg/>"@);
}

proof fn lemma_slotted_keeps(cs: Seq<ChildV>, name: Seq<char>, xml: Seq<char>)
    requires
        modeled_s(name),
    ensures
        unmodeled_s(slotted_s(cs, name, xml)) == unmodeled_s(cs),
{
    let rank = sectpr_rank_s(name)->0;
    lemma_slot_range(cs, rank, 0);
    lemma_unmodeled_insert(cs, slot_s(cs, rank, 0), ChildV { name, xml });
}

/// Whether every child has a place in schema order and none comes before an earlier one.
pub open spec fn in_order_s(cs: Seq<ChildV>) -> bool {
    &&& forall|i: int| 0 <= i < cs.len() ==> sectpr_rank_s((#[trigger] cs[i]).name) is Some
    &&& forall|i: int, j: int|
        0 <= i < j < cs.len() ==> sectpr_rank_s((#[trigger] cs[i]).name)->0 <= sectpr_rank_s(
            (#[trigger] cs[j]).name,
        )->0
}

proof fn lemma_slotted_in_order(cs: Seq<ChildV>, name: Seq<char>, xml: Seq<char>)
    requires
        in_order_s(cs),
        sectpr_rank_s(name) is Some,
    ensures
        in_order_s(slotted_s(cs, name, xml)),
{
    let rank = sectpr_rank_s(name)->0;
    lemma_slot_range(cs, rank, 0);
    let at = slot_s(cs, rank, 0);
    let out = slotted_s(cs, name, xml);
    let c = ChildV { name, xml };
    assert forall|i: int| 0 <= i < out.len() implies sectpr_rank_s((#[trigger] out[i]).name) is Some by {
        if i < at {
            assert(out[i] == cs[i]);
        } else if i > at {
            assert(out[i] == cs[i - 1]);
        }
    }
    assert forall|i: int, j: int| 0 <= i < j < out.len() implies sectpr_rank_s(
        (#[trigger] out[i]).name,
    )->0 <= sectpr_rank_s((#[trigger] out[j]).name)->0 by {
        if j < at {
            assert(out[i] == cs[i] && out[j] == cs[j]);
        } else if j == at {
            assert(out[i] == cs[i]);
            assert(sectpr_rank_s(cs[i].name) is Some);
        } else if i < at {
            assert(out[i] == cs[i] && out[j] == cs[j - 1]);
        } else if i == at {
            assert(out[j] == cs[j - 1]);
            assert(sectpr_rank_s(cs[at].name)->0 <= sectpr_rank_s(cs[j - 1].name)->0);
        } else {
            assert(out[i] == cs[i - 1] && out[j] == cs[j - 1]);
        }
    }
}

proof fn lemma_substituted_in_order(cs: Seq<ChildV>, p: PageGeometry, title_pg: bool, n: nat)
    requires
        n <= cs.len(),
        in_order_s(cs),
    ensures
        in_order_s(substituted_s(cs, p, title_pg, n)),
        forall|i: int|
            0 <= i < substituted_s(cs, p, title_pg, n).len() && n > 0 ==> sectpr_rank_s(
                (#[trigger] substituted_s(cs, p, title_pg, n)[i]).name,
            )->0 <= sectpr_rank_s(cs[n - 1].name)->0,
    decreases n,
{
    if n > 0 {
        let m = (n - 1) as nat;
        lemma_substituted_in_order(cs, p, title_pg, m);
        let a = substituted_s(cs, p, title_pg, m);
        let b = substitute_s(cs[m as int], p, title_pg);
        let out = a + b;
        assert(b.len() <= 1);
        assert(b.len() == 1 ==> b[0].name == cs[m as int].name);
        assert(sectpr_rank_s(cs[m as int].name) is Some);
        if m > 0 {
            assert(sectpr_rank_s(cs[m - 1].name)->0 <= sectpr_rank_s(cs[m as int].name)->0);
        }
        assert forall|i: int| 0 <= i < out.len() implies sectpr_rank_s((#[trigger] out[i]).name) is Some
            && sectpr_rank_s(out[i].name)->0 <= sectpr_rank_s(cs[m as int].name)->0 by {
            if i < a.len() {
                assert(out[i] == a[i]);
                assert(m > 0);
            } else {
                assert(out[i] == b[0]);
            }
        }
        assert forall|i: int, j: int| 0 <= i < j < out.len() implies sectpr_rank_s(
            (#[trigger] out[i]).name,
        )->0 <= sectpr_rank_s((#[trigger] out[j]).name)->0 by {
            if j < a.len() {
                assert(out[i] == a[i] && out[j] == a[j]);
            } else {
                assert(out[j].name == cs[m as int].name);
            }
        }
    }
}

/// Merging into a section whose children stand in schema order gives one whose children stand in
/// schema order.
pub proof fn law_merge_keeps_schema_order(cs: Seq<ChildV>, p: PageGeometry, title_pg: bool)
    requires
        in_order_s(cs),
    ensures
        in_order_s(merged_s(cs, p, title_pg)),
{
    let n = cs.len();
    lemma_names_differ();
    lemma_substituted_in_order(cs, p, title_pg, n);
    let a = substituted_s(cs, p, title_pg, n);
    let b = if has_child_s(cs, "w:pgSz"@, n as int) {
        a
    } else {
        slotted_s(a, "w:pgSz"@, pgsz_s(p))
    };
    let c = if has_child_s(cs, "w:pgMar"@, n as int) {
        b
    } else {
        slotted_s(b, "w:pgMar"@, pgmar_s(p))
    };
    lemma_slotted_in_order(a, "w:pgSz"@, pgsz_s(p));
    lemma_slotted_in_order(b, "w:pgMar"@, pgmar_s(p));
    lemma_slotted_in_order(c, "w:titlePg"@, "<w:titlePg/>"@);
}

} // verus!
