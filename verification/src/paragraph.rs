//! Paragraph and run properties: `w:pPr`, `w:r`, `w:rPr`.

use vstd::prelude::*;

use crate::search;
use crate::search::has_char;
use crate::search::split;
use crate::spans::IdAlloc;
use crate::spans::IdAllocV;
use crate::strs;
use crate::strs::chars_of;
use crate::strs::str_eq;
use crate::strs::only_if;
use crate::types;
use crate::types::ParaProps;
use crate::types::ParaPropsV;
use crate::types::Paragraph;
use crate::types::ParagraphV;
use crate::types::Run;
use crate::types::RunProps;
use crate::types::RunPropsV;
use crate::types::RunV;
use crate::types::Track;
use crate::types::TrackV;
use crate::types::FIELD_NUMPAGES;
use crate::types::FIELD_PAGE;
use crate::xml;
use crate::xml::date_attr;
use crate::xml::esc_piece;
use crate::xml::int_piece;
use crate::xml::num;
use crate::xml::opt_dec;
use crate::xml::opt_esc;
use crate::xml::opt_raw;
use crate::xml::tri;
use crate::xml::wide16;
use crate::xml::wide32;
use crate::xml::widei32;
use crate::xml::wrap;
use crate::xml::xml_escape;

verus! {

// ── w:pBdr ──────────────────────────────────────────────────────────────────

/// The element of a border edge key.
pub open spec fn edge_name_s(edge: Seq<char>) -> Option<Seq<char>> {
    if edge == "t"@ {
        Some("w:top"@)
    } else if edge == "l"@ {
        Some("w:left"@)
    } else if edge == "b"@ {
        Some("w:bottom"@)
    } else if edge == "r"@ {
        Some("w:right"@)
    } else {
        None
    }
}

/// The `i`-th piece, or a default when there is none.
pub open spec fn nth_or_s(parts: Seq<Seq<char>>, i: int, dflt: Seq<char>) -> Seq<char> {
    if i < parts.len() {
        parts[i]
    } else {
        dflt
    }
}

fn nth_or(parts: &Vec<String>, i: usize, dflt: &str) -> (r: String)
    ensures
        r@ == nth_or_s(search::texts_s(parts@), i as int, dflt@),
{
    if i < parts.len() {
        parts[i].clone()
    } else {
        dflt.to_owned()
    }
}

/// One `edge=val,sz,space,color` entry as an element; nothing for an entry of another form.
pub open spec fn edge_s(tok: Seq<char>) -> Seq<char> {
    match search::find_s(tok, "="@, 0) {
        Some(i) => match edge_name_s(tok.take(i)) {
            Some(name) => {
                let parts = search::split_s(tok.skip(i + "="@.len()), ',');
                "<"@ + name + xml::esc_piece_s(
                    " w:val=\""@,
                    nth_or_s(parts, 0, "single"@),
                    "\""@,
                ) + xml::esc_piece_s(" w:sz=\""@, nth_or_s(parts, 1, "4"@), "\""@) + xml::esc_piece_s(
                    " w:space=\""@,
                    nth_or_s(parts, 2, "0"@),
                    "\""@,
                ) + xml::esc_piece_s(" w:color=\""@, nth_or_s(parts, 3, "auto"@), "\"/>"@)
            },
            None => Seq::empty(),
        },
        None => Seq::empty(),
    }
}

fn edge_xml(tok: &str) -> (r: String)
    ensures
        r@ == edge_s(tok@),
{
    let v = chars_of(tok);
    match search::find_str(tok, "=") {
        Some(i) => {
            let eq = chars_of("=");
            let total: usize = v.len();
            let edge = strs::string_of(&v, 0, i);
            assert(edge@ =~= tok@.take(i as int));
            let name = if str_eq(edge.as_str(), "t") {
                "w:top"
            } else if str_eq(edge.as_str(), "l") {
                "w:left"
            } else if str_eq(edge.as_str(), "b") {
                "w:bottom"
            } else if str_eq(edge.as_str(), "r") {
                "w:right"
            } else {
                return String::new();
            };
            let rest = strs::string_of(&v, i + eq.len(), total);
            assert(rest@ =~= tok@.skip(i + "="@.len()));
            let parts = split(rest.as_str(), ',');
            let mut s = "<".to_owned();
            s.append(name);
            s.append(esc_piece(" w:val=\"", nth_or(&parts, 0, "single").as_str(), "\"").as_str());
            s.append(esc_piece(" w:sz=\"", nth_or(&parts, 1, "4").as_str(), "\"").as_str());
            s.append(esc_piece(" w:space=\"", nth_or(&parts, 2, "0").as_str(), "\"").as_str());
            s.append(esc_piece(" w:color=\"", nth_or(&parts, 3, "auto").as_str(), "\"/>").as_str());
            s
        },
        None => String::new(),
    }
}

/// The elements of the first `n` entries.
pub open spec fn edges_s(toks: Seq<Seq<char>>, n: nat) -> Seq<char>
    decreases n,
{
    if n == 0 {
        Seq::empty()
    } else {
        edges_s(toks, (n - 1) as nat) + edge_s(toks[n - 1])
    }
}

/// The `<w:pBdr>` of a compact border list; nothing when no edge renders.
pub open spec fn pbdr_s(compact: Seq<char>) -> Seq<char> {
    let toks = search::split_s(compact, '|');
    xml::wrap_s("<w:pBdr>"@, edges_s(toks, toks.len()), "</w:pBdr>"@)
}

fn pbdr_xml(compact: &str) -> (r: String)
    ensures
        r@ == pbdr_s(compact@),
{
    let toks = split(compact, '|');
    let ghost t = search::split_s(compact@, '|');
    let mut edges = String::new();
    let mut i: usize = 0;
    while i < toks.len()
        invariant
            i <= toks@.len(),
            search::texts_s(toks@) == t,
            edges@ == edges_s(t, i as nat),
        decreases toks@.len() - i,
    {
        assert(t[i as int] == toks@[i as int]@);
        edges.append(edge_xml(toks[i].as_str()).as_str());
        i = i + 1;
    }
    wrap("<w:pBdr>", edges.as_str(), "</w:pBdr>")
}

// ── w:pPr ───────────────────────────────────────────────────────────────────

pub open spec fn ilvl_s(o: Option<i32>) -> int {
    match o {
        Some(n) => n as int,
        None => 0,
    }
}

/// The list membership of a paragraph (`w:numPr`).
pub open spec fn numpr_s(p: ParaPropsV) -> Seq<char> {
    match p.num_id {
        Some(num) => xml::int_s("<w:numPr><w:ilvl w:val=\""@, ilvl_s(p.num_ilvl), "\"/>"@) + xml::int_s(
            "<w:numId w:val=\""@,
            num as int,
            "\"/></w:numPr>"@,
        ),
        None => Seq::empty(),
    }
}

fn numpr_xml(p: &ParaProps) -> (r: String)
    ensures
        r@ == numpr_s(p@),
{
    match p.num_id {
        Some(n) => {
            let ilvl: i32 = match p.num_ilvl {
                Some(l) => l,
                None => 0,
            };
            let mut s = int_piece("<w:numPr><w:ilvl w:val=\"", ilvl as i64, "\"/>");
            s.append(int_piece("<w:numId w:val=\"", n as i64, "\"/></w:numPr>").as_str());
            s
        },
        None => String::new(),
    }
}

pub open spec fn rule_s(r: Option<crate::types::LineRule>) -> Seq<char> {
    match r {
        Some(r) => r.as_str_s(),
        None => "auto"@,
    }
}

pub(crate) fn rule_token(r: Option<crate::types::LineRule>) -> (s: &'static str)
    ensures
        s@ == rule_s(r),
{
    match r {
        Some(r) => r.as_str(),
        None => "auto",
    }
}

/// The ` w:line` and ` w:lineRule` attributes of a line spacing.
pub open spec fn line_s(line: Option<u16>, rule: Option<crate::types::LineRule>) -> Seq<char> {
    match line {
        Some(l) => xml::num_s(" w:line=\""@, l as nat, "\" w:lineRule=\""@) + rule_s(rule) + "\""@,
        None => Seq::empty(),
    }
}

pub(crate) fn line_attrs(line: Option<u16>, rule: Option<crate::types::LineRule>) -> (r: String)
    ensures
        r@ == line_s(line, rule),
{
    match line {
        Some(l) => {
            let mut s = num(" w:line=\"", l as u128, "\" w:lineRule=\"");
            s.append(rule_token(rule));
            s.append("\"");
            s
        },
        None => String::new(),
    }
}

/// `<w:spacing …/>`; nothing when no spacing is set.
pub open spec fn spacing_s(
    before: Option<u32>,
    after: Option<u32>,
    line: Option<u16>,
    rule: Option<crate::types::LineRule>,
) -> Seq<char> {
    if line is Some || before is Some || after is Some {
        "<w:spacing"@ + xml::opt_dec_s(" w:before=\""@, xml::int32_s(before), "\""@) + xml::opt_dec_s(
            " w:after=\""@,
            xml::int32_s(after),
            "\""@,
        ) + line_s(line, rule) + "/>"@
    } else {
        Seq::empty()
    }
}

pub(crate) fn spacing_xml(
    before: Option<u32>,
    after: Option<u32>,
    line: Option<u16>,
    rule: Option<crate::types::LineRule>,
) -> (r: String)
    ensures
        r@ == spacing_s(before, after, line, rule),
{
    if line.is_some() || before.is_some() || after.is_some() {
        let mut s = "<w:spacing".to_owned();
        s.append(opt_dec(" w:before=\"", wide32(before), "\"").as_str());
        s.append(opt_dec(" w:after=\"", wide32(after), "\"").as_str());
        s.append(line_attrs(line, rule).as_str());
        s.append("/>");
        s
    } else {
        String::new()
    }
}

/// The first-line attribute of an indent: `w:firstLine` when not negative, else `w:hanging`.
pub open spec fn first_indent_s(first: Option<i32>) -> Seq<char> {
    match first {
        Some(f) => if f >= 0 {
            xml::int_s(" w:firstLine=\""@, f as int, "\""@)
        } else {
            xml::int_s(" w:hanging=\""@, -(f as int), "\""@)
        },
        None => Seq::empty(),
    }
}

fn first_indent(first: Option<i32>) -> (r: String)
    ensures
        r@ == first_indent_s(first),
{
    match first {
        Some(f) => {
            if f >= 0 {
                int_piece(" w:firstLine=\"", f as i64, "\"")
            } else {
                int_piece(" w:hanging=\"", -(f as i64), "\"")
            }
        },
        None => String::new(),
    }
}

pub open spec fn indent_s(p: ParaPropsV) -> Seq<char> {
    if p.indent_left is Some || p.indent_right is Some || p.indent_first is Some {
        "<w:ind"@ + xml::opt_dec_s(" w:left=\""@, xml::sint32_s(p.indent_left), "\""@) + xml::opt_dec_s(
            " w:right=\""@,
            xml::sint32_s(p.indent_right),
            "\""@,
        ) + first_indent_s(p.indent_first) + "/>"@
    } else {
        Seq::empty()
    }
}

fn indent_xml(p: &ParaProps) -> (r: String)
    ensures
        r@ == indent_s(p@),
{
    if p.indent_left.is_some() || p.indent_right.is_some() || p.indent_first.is_some() {
        let mut s = "<w:ind".to_owned();
        s.append(opt_dec(" w:left=\"", widei32(p.indent_left), "\"").as_str());
        s.append(opt_dec(" w:right=\"", widei32(p.indent_right), "\"").as_str());
        s.append(first_indent(p.indent_first).as_str());
        s.append("/>");
        s
    } else {
        String::new()
    }
}

pub open spec fn align_s(a: Option<crate::types::Align>) -> Seq<char> {
    match a {
        Some(a) => "<w:jc w:val=\""@ + a.to_ooxml_s() + "\"/>"@,
        None => Seq::empty(),
    }
}

pub(crate) fn align_xml(a: Option<crate::types::Align>) -> (r: String)
    ensures
        r@ == align_s(a),
{
    match a {
        Some(a) => {
            let mut s = "<w:jc w:val=\"".to_owned();
            s.append(a.to_ooxml());
            s.append("\"/>");
            s
        },
        None => String::new(),
    }
}

pub open spec fn border_s(b: Option<Seq<char>>) -> Seq<char> {
    match b {
        Some(b) => pbdr_s(b),
        None => Seq::empty(),
    }
}

/// The contents of a `w:pPr`, in the order of the `CT_PPr` sequence.
pub open spec fn ppr_body_s(style: Option<Seq<char>>, p: ParaPropsV) -> Seq<char> {
    xml::opt_esc_s("<w:pStyle w:val=\""@, style, "\"/>"@) + xml::tri_s(
        p.keep_next,
        "<w:keepNext/>"@,
        "<w:keepNext w:val=\"false\"/>"@,
    ) + strs::when_s(p.page_break_before, "<w:pageBreakBefore/>"@) + xml::opt_raw_s(
        "<w:framePr "@,
        p.frame,
        "/>"@,
    ) + numpr_s(p) + border_s(p.border) + xml::opt_esc_s(
        "<w:shd w:val=\"clear\" w:color=\"auto\" w:fill=\""@,
        p.shading,
        "\"/>"@,
    ) + spacing_s(p.space_before, p.space_after, p.line_spacing, p.line_rule) + indent_s(p) + xml::tri_s(
        p.contextual_spacing,
        "<w:contextualSpacing/>"@,
        "<w:contextualSpacing w:val=\"false\"/>"@,
    ) + align_s(p.align)
}

fn ppr_body(style: &Option<String>, p: &ParaProps) -> (r: String)
    ensures
        r@ == ppr_body_s(strs::opt_s(*style), p@),
{
    let mut s = opt_esc("<w:pStyle w:val=\"", style, "\"/>");
    s.append(tri(p.keep_next, "<w:keepNext/>", "<w:keepNext w:val=\"false\"/>").as_str());
    s.append(only_if(p.page_break_before, "<w:pageBreakBefore/>").as_str());
    s.append(opt_raw("<w:framePr ", &p.frame, "/>").as_str());
    s.append(numpr_xml(p).as_str());
    let border = match &p.border {
        Some(b) => pbdr_xml(b.as_str()),
        None => String::new(),
    };
    s.append(border.as_str());
    s.append(
        opt_esc("<w:shd w:val=\"clear\" w:color=\"auto\" w:fill=\"", &p.shading, "\"/>").as_str(),
    );
    s.append(spacing_xml(p.space_before, p.space_after, p.line_spacing, p.line_rule).as_str());
    s.append(indent_xml(p).as_str());
    s.append(
        tri(p.contextual_spacing, "<w:contextualSpacing/>", "<w:contextualSpacing w:val=\"false\"/>").as_str(),
    );
    s.append(align_xml(p.align).as_str());
    s
}

/// The attributes of a revision: id, author, date.
pub open spec fn revision_s(id: nat, author: Seq<char>, date: Seq<char>) -> Seq<char> {
    xml::num_s(" w:id=\""@, id, "\" w:author=\""@) + xml::esc_s(author) + "\""@ + xml::date_attr_s(date)
}

pub(crate) fn revision_attrs(id: u128, author: &str, date: &str) -> (r: String)
    ensures
        r@ == revision_s(id as nat, author@, date@),
{
    let mut s = num(" w:id=\"", id, "\" w:author=\"");
    s.append(xml_escape(author).as_str());
    s.append("\"");
    s.append(date_attr(date).as_str());
    s
}

/// The revision element of a paragraph mark.
pub open spec fn mark_s(m: Option<TrackV>) -> Seq<char> {
    match m {
        Some(m) => "<"@ + m.kind.wrapper_s() + revision_s(m.id as nat, m.author, m.date) + "/>"@,
        None => Seq::empty(),
    }
}

fn mark_xml(m: &Option<Track>) -> (r: String)
    ensures
        r@ == mark_s(types::track_ov(*m)),
{
    match m {
        Some(m) => {
            let mut s = "<".to_owned();
            s.append(m.kind.wrapper());
            s.append(revision_attrs(m.id as u128, m.author.as_str(), m.date.as_str()).as_str());
            s.append("/>");
            s
        },
        None => String::new(),
    }
}

/// `<w:sz/><w:szCs/>` of a size.
pub open spec fn size_s(n: Option<int>) -> Seq<char> {
    xml::opt_dec_s("<w:sz w:val=\""@, n, "\"/>"@) + xml::opt_dec_s("<w:szCs w:val=\""@, n, "\"/>"@)
}

pub(crate) fn size_xml(n: Option<i64>) -> (r: String)
    ensures
        r@ == size_s(
            match n {
                Some(n) => Some(n as int),
                None => None,
            },
        ),
{
    let mut s = opt_dec("<w:sz w:val=\"", n, "\"/>");
    s.append(opt_dec("<w:szCs w:val=\"", n, "\"/>").as_str());
    s
}

/// The tracked property change of a paragraph (`w:pPrChange`).
pub open spec fn ppr_change_s(c: Option<crate::types::ParaPropChangeV>) -> Seq<char> {
    match c {
        Some(c) => "<w:pPrChange"@ + revision_s(c.id as nat, c.author, c.date) + "><w:pPr>"@ + ppr_body_s(
            c.old_style,
            c.old,
        ) + "</w:pPr></w:pPrChange>"@,
        None => Seq::empty(),
    }
}

fn ppr_change(c: &Option<crate::types::ParaPropChange>) -> (r: String)
    ensures
        r@ == ppr_change_s(types::para_prop_change_ov(*c)),
{
    match c {
        Some(c) => {
            let mut s = "<w:pPrChange".to_owned();
            s.append(revision_attrs(c.id as u128, c.author.as_str(), c.date.as_str()).as_str());
            s.append("><w:pPr>");
            s.append(ppr_body(&c.old_style, &c.old).as_str());
            s.append("</w:pPr></w:pPrChange>");
            s
        },
        None => String::new(),
    }
}

/// A paragraph's properties block; nothing when there is nothing to say.
pub open spec fn ppr_s(p: ParagraphV) -> Seq<char> {
    xml::wrap_s(
        "<w:pPr>"@,
        ppr_body_s(p.style, p.props) + xml::wrap_s(
            "<w:rPr>"@,
            mark_s(p.mark_change) + size_s(xml::int32_s(p.props.mark_size)),
            "</w:rPr>"@,
        ) + xml::opt_raw_s(""@, p.props.sect_pr, ""@) + ppr_change_s(p.prop_change),
        "</w:pPr>"@,
    )
}

pub(crate) fn ppr_xml(p: &Paragraph) -> (r: String)
    ensures
        r@ == ppr_s(p@),
{
    let mut inner = ppr_body(&p.style, &p.props);
    let mut mark = mark_xml(&p.mark_change);
    mark.append(size_xml(wide32(p.props.mark_size)).as_str());
    inner.append(wrap("<w:rPr>", mark.as_str(), "</w:rPr>").as_str());
    inner.append(opt_raw("", &p.props.sect_pr, "").as_str());
    inner.append(ppr_change(&p.prop_change).as_str());
    wrap("<w:pPr>", inner.as_str(), "</w:pPr>")
}

// ── w:rPr ───────────────────────────────────────────────────────────────────

/// `<w:rFonts …/>` of a font family.
pub open spec fn fonts_s(font: Option<Seq<char>>) -> Seq<char> {
    match font {
        Some(f) => xml::esc_piece_s("<w:rFonts w:ascii=\""@, f, "\""@) + xml::esc_piece_s(
            " w:hAnsi=\""@,
            f,
            "\""@,
        ) + xml::esc_piece_s(" w:cs=\""@, f, "\"/>"@),
        None => Seq::empty(),
    }
}

pub(crate) fn fonts_xml(font: &Option<String>) -> (r: String)
    ensures
        r@ == fonts_s(strs::opt_s(*font)),
{
    match font {
        Some(f) => {
            let mut s = esc_piece("<w:rFonts w:ascii=\"", f.as_str(), "\"");
            s.append(esc_piece(" w:hAnsi=\"", f.as_str(), "\"").as_str());
            s.append(esc_piece(" w:cs=\"", f.as_str(), "\"/>").as_str());
            s
        },
        None => String::new(),
    }
}

/// Run properties in the order of the `CT_RPr` sequence.
pub open spec fn rpr_body_s(p: RunPropsV, shading: Option<Seq<char>>) -> Seq<char> {
    fonts_s(p.font) + strs::when_s(p.bold, "<w:b/>"@) + strs::when_s(p.italic, "<w:i/>"@) + strs::when_s(
        p.strike,
        "<w:strike/>"@,
    ) + xml::opt_esc_s("<w:color w:val=\""@, p.color, "\"/>"@) + size_s(xml::int16_s(p.size)) + xml::opt_esc_s(
        "<w:highlight w:val=\""@,
        p.highlight,
        "\"/>"@,
    ) + strs::when_s(p.underline, "<w:u w:val=\"single\"/>"@) + xml::opt_esc_s(
        "<w:shd w:val=\"clear\" w:color=\"auto\" w:fill=\""@,
        shading,
        "\"/>"@,
    ) + xml::opt_esc_s("<w:vertAlign w:val=\""@, p.vert_align, "\"/>"@) + xml::opt_esc_s(
        "<w:lang w:val=\""@,
        p.lang,
        "\"/>"@,
    )
}

fn rpr_body(p: &RunProps, shading: &Option<String>) -> (r: String)
    ensures
        r@ == rpr_body_s(p@, strs::opt_s(*shading)),
{
    let mut s = fonts_xml(&p.font);
    s.append(only_if(p.bold, "<w:b/>").as_str());
    s.append(only_if(p.italic, "<w:i/>").as_str());
    s.append(only_if(p.strike, "<w:strike/>").as_str());
    s.append(opt_esc("<w:color w:val=\"", &p.color, "\"/>").as_str());
    s.append(size_xml(wide16(p.size)).as_str());
    s.append(opt_esc("<w:highlight w:val=\"", &p.highlight, "\"/>").as_str());
    s.append(only_if(p.underline, "<w:u w:val=\"single\"/>").as_str());
    s.append(
        opt_esc("<w:shd w:val=\"clear\" w:color=\"auto\" w:fill=\"", shading, "\"/>").as_str(),
    );
    s.append(opt_esc("<w:vertAlign w:val=\"", &p.vert_align, "\"/>").as_str());
    s.append(opt_esc("<w:lang w:val=\"", &p.lang, "\"/>").as_str());
    s
}

/// The tracked formatting change of a run (`w:rPrChange`).
pub open spec fn rpr_change_s(c: Option<crate::types::FormatChangeV>) -> Seq<char> {
    match c {
        Some(c) => "<w:rPrChange"@ + revision_s(c.id as nat, c.author, c.date) + "><w:rPr>"@ + rpr_body_s(
            c.old,
            None,
        ) + "</w:rPr></w:rPrChange>"@,
        None => Seq::empty(),
    }
}

fn rpr_change(c: &Option<crate::types::FormatChange>) -> (r: String)
    ensures
        r@ == rpr_change_s(types::format_change_ov(*c)),
{
    match c {
        Some(c) => {
            let mut s = "<w:rPrChange".to_owned();
            s.append(revision_attrs(c.id as u128, c.author.as_str(), c.date.as_str()).as_str());
            s.append("><w:rPr>");
            s.append(rpr_body(&c.old, &None).as_str());
            s.append("</w:rPr></w:rPrChange>");
            s
        },
        None => String::new(),
    }
}

/// A run's properties block; nothing when there is nothing to say.
pub open spec fn rpr_s(run: RunV) -> Seq<char> {
    xml::wrap_s(
        "<w:rPr>"@,
        xml::opt_esc_s("<w:rStyle w:val=\""@, run.char_style, "\"/>"@) + rpr_body_s(
            run.props(),
            run.shading,
        ) + rpr_change_s(run.fmt_change),
        "</w:rPr>"@,
    )
}

fn rpr_xml(run: &Run) -> (r: String)
    ensures
        r@ == rpr_s(run@),
{
    let mut s = opt_esc("<w:rStyle w:val=\"", &run.char_style, "\"/>");
    s.append(rpr_body(&RunProps::of(run), &run.shading).as_str());
    s.append(rpr_change(&run.fmt_change).as_str());
    wrap("<w:rPr>", s.as_str(), "</w:rPr>")
}

// ── w:r ─────────────────────────────────────────────────────────────────────

/// What has been written so far, and the ids handed out so far.
pub struct Pen {
    pub text: Seq<char>,
    pub ids: IdAllocV,
}

impl Pen {
    pub open spec fn put(self, t: Seq<char>) -> Pen {
        Pen { text: self.text + t, ids: self.ids }
    }

    /// The start tag of a revision element, with the next id for its revision.
    pub open spec fn open_revision(self, t: TrackV) -> Pen {
        let (id, ids) = self.ids.wrapper(t.id);
        Pen { text: self.text, ids }.put(
            "<"@ + t.kind.wrapper_s() + revision_s(id as nat, t.author, t.date) + ">"@,
        )
    }

    pub open spec fn close_revision(self, t: TrackV) -> Pen {
        self.put("</"@ + t.kind.wrapper_s() + ">"@)
    }

    /// `inner`, inside the revision element of `wrap` when there is one.
    pub open spec fn fragment(self, wrap: Option<TrackV>, inner: Seq<char>) -> Pen {
        match wrap {
            Some(t) => self.open_revision(t).put(inner).close_revision(t),
            None => self.put(inner),
        }
    }
}

pub(crate) fn open_revision(out: &mut String, ids: &mut IdAlloc, t: &Track)
    requires
        old(ids)@.wf(),
    ensures
        (Pen { text: final(out)@, ids: final(ids)@ }) == (Pen { text: old(out)@, ids: old(ids)@ }).open_revision(t@),
        final(ids)@.wf(),
{
    let id: u128 = ids.wrapper(t.id);
    let mut s = "<".to_owned();
    s.append(t.kind.wrapper());
    s.append(revision_attrs(id, t.author.as_str(), t.date.as_str()).as_str());
    s.append(">");
    out.append(s.as_str());
}

pub(crate) fn close_revision(out: &mut String, t: &Track)
    ensures
        forall|ids: IdAllocV|
            (Pen { text: final(out)@, ids }) == #[trigger] (Pen { text: old(out)@, ids }).close_revision(t@),
{
    let mut s = "</".to_owned();
    s.append(t.kind.wrapper());
    s.append(">");
    out.append(s.as_str());
}

pub(crate) fn fragment(out: &mut String, ids: &mut IdAlloc, wrap: Option<&Track>, inner: &str)
    requires
        old(ids)@.wf(),
    ensures
        (Pen { text: final(out)@, ids: final(ids)@ }) == (Pen { text: old(out)@, ids: old(ids)@ }).fragment(
            match wrap {
                Some(t) => Some(t@),
                None => None,
            },
            inner@,
        ),
        final(ids)@.wf(),
{
    match wrap {
        Some(t) => {
            open_revision(out, ids, t);
            out.append(inner);
            let ghost p = (Pen { text: out@, ids: ids@ }).close_revision(t@);
            close_revision(out, t);
        },
        None => {
            out.append(inner);
        },
    }
}

/// The start tag of a run's text element.
pub open spec fn text_open_s(run: RunV) -> Seq<char> {
    if is_del_s(run) {
        "<w:delText xml:space=\"preserve\">"@
    } else {
        "<w:t xml:space=\"preserve\">"@
    }
}

pub open spec fn text_close_s(run: RunV) -> Seq<char> {
    if is_del_s(run) {
        "</w:delText>"@
    } else {
        "</w:t>"@
    }
}

pub open spec fn is_del_s(run: RunV) -> bool {
    match run.track {
        Some(t) => t.kind.is_del_text_s(),
        None => false,
    }
}

/// `<w:r>` with the run's properties around `text`, already escaped.
pub open spec fn run_of_s(run: RunV, text: Seq<char>) -> Seq<char> {
    "<w:r>"@ + rpr_s(run) + text_open_s(run) + text + text_close_s(run) + "</w:r>"@
}

fn run_of(run: &Run, text: &str) -> (r: String)
    ensures
        r@ == run_of_s(run@, text@),
{
    let del = match &run.track {
        Some(t) => t.kind.is_del_text(),
        None => false,
    };
    let mut s = "<w:r>".to_owned();
    s.append(rpr_xml(run).as_str());
    s.append(
        if del {
            "<w:delText xml:space=\"preserve\">"
        } else {
            "<w:t xml:space=\"preserve\">"
        },
    );
    s.append(text);
    s.append(
        if del {
            "</w:delText>"
        } else {
            "</w:t>"
        },
    );
    s.append("</w:r>");
    s
}

pub open spec fn is_field_char_s(c: char) -> bool {
    c == FIELD_PAGE || c == FIELD_NUMPAGES
}

pub open spec fn has_field_s(text: Seq<char>) -> bool {
    text.contains(FIELD_PAGE) || text.contains(FIELD_NUMPAGES)
}

/// Write the text gathered since the last field placeholder, if any.
pub open spec fn flush_s(pen: Pen, run: RunV, wrap: Option<TrackV>, seg: Seq<char>) -> Pen {
    if seg.len() == 0 {
        pen
    } else {
        pen.fragment(wrap, run_of_s(run, xml::esc_s(seg)))
    }
}

pub open spec fn field_simple_s(pen: Pen, run: RunV, wrap: Option<TrackV>, c: char) -> Pen {
    pen.put("<w:fldSimple w:instr=\" "@).put(
        if c == FIELD_PAGE {
            "PAGE"@
        } else {
            "NUMPAGES"@
        },
    ).put(" \" w:dirty=\"true\">"@).fragment(wrap, run_of_s(run, "1"@)).put("</w:fldSimple>"@)
}

/// The pen after the first `n` characters of a run that holds field placeholders, and the
/// text not yet written.
pub open spec fn placeholders_s(pen: Pen, run: RunV, wrap: Option<TrackV>, n: nat) -> (Pen, Seq<char>)
    decreases n,
{
    if n == 0 {
        (pen, Seq::empty())
    } else {
        let (p, seg) = placeholders_s(pen, run, wrap, (n - 1) as nat);
        let c = run.text[n - 1];
        if is_field_char_s(c) {
            (field_simple_s(flush_s(p, run, wrap, seg), run, wrap, c), Seq::empty())
        } else {
            (p, seg.push(c))
        }
    }
}

/// A run: a tab, text around field placeholders, or plain text, inside the revision element
/// of `wrap` when there is one.
pub open spec fn run_inner_s(pen: Pen, run: RunV, wrap: Option<TrackV>) -> Pen {
    if run.text == "\t"@ {
        pen.fragment(wrap, "<w:r>"@ + rpr_s(run) + "<w:tab/></w:r>"@)
    } else if has_field_s(run.text) {
        let (p, seg) = placeholders_s(pen, run, wrap, run.text.len());
        flush_s(p, run, wrap, seg)
    } else {
        pen.fragment(wrap, run_of_s(run, xml::esc_s(run.text)))
    }
}

pub open spec fn run_s(pen: Pen, run: RunV) -> Pen {
    run_inner_s(pen, run, run.track)
}

fn run_xml_inner(out: &mut String, ids: &mut IdAlloc, run: &Run, wrap: Option<&Track>)
    requires
        old(ids)@.wf(),
    ensures
        (Pen { text: final(out)@, ids: final(ids)@ }) == run_inner_s(
            Pen { text: old(out)@, ids: old(ids)@ },
            run@,
            match wrap {
                Some(t) => Some(t@),
                None => None,
            },
        ),
        final(ids)@.wf(),
{
    if str_eq(run.text.as_str(), "\t") {
        let mut s = "<w:r>".to_owned();
        s.append(rpr_xml(run).as_str());
        s.append("<w:tab/></w:r>");
        fragment(out, ids, wrap, s.as_str());
        return;
    }
    if has_char(run.text.as_str(), FIELD_PAGE) || has_char(run.text.as_str(), FIELD_NUMPAGES) {
        let ghost start = Pen { text: out@, ids: ids@ };
        let ghost w = match wrap {
            Some(t) => Some(t@),
            None => None,
        };
        let v = chars_of(run.text.as_str());
        let mut seg = String::new();
        let mut i: usize = 0;
        while i < v.len()
            invariant
                i <= v@.len(),
                v@ == run@.text,
                ids@.wf(),
                w == (match wrap {
                    Some(t) => Some(t@),
                    None => None,
                }),
                placeholders_s(start, run@, w, i as nat) == (Pen { text: out@, ids: ids@ }, seg@),
            decreases v@.len() - i,
        {
            let c = v[i];
            if c == FIELD_PAGE || c == FIELD_NUMPAGES {
                flush(out, ids, run, wrap, seg.as_str());
                out.append("<w:fldSimple w:instr=\" ");
                out.append(
                    if c == FIELD_PAGE {
                        "PAGE"
                    } else {
                        "NUMPAGES"
                    },
                );
                out.append(" \" w:dirty=\"true\">");
                fragment(out, ids, wrap, run_of(run, "1").as_str());
                out.append("</w:fldSimple>");
                seg = String::new();
            } else {
                seg.push(c);
            }
            i = i + 1;
        }
        flush(out, ids, run, wrap, seg.as_str());
        return;
    }
    fragment(out, ids, wrap, run_of(run, xml_escape(run.text.as_str()).as_str()).as_str());
}

fn flush(out: &mut String, ids: &mut IdAlloc, run: &Run, wrap: Option<&Track>, seg: &str)
    requires
        old(ids)@.wf(),
    ensures
        (Pen { text: final(out)@, ids: final(ids)@ }) == flush_s(
            Pen { text: old(out)@, ids: old(ids)@ },
            run@,
            match wrap {
                Some(t) => Some(t@),
                None => None,
            },
            seg@,
        ),
        final(ids)@.wf(),
{
    if !seg.is_empty() {
        fragment(out, ids, wrap, run_of(run, xml_escape(seg).as_str()).as_str());
    }
}

/// Serialize a run inside its own revision element if tracked.
pub(crate) fn run_xml(out: &mut String, ids: &mut IdAlloc, run: &Run)
    requires
        old(ids)@.wf(),
    ensures
        (Pen { text: final(out)@, ids: final(ids)@ }) == run_s(Pen { text: old(out)@, ids: old(ids)@ }, run@),
        final(ids)@.wf(),
{
    match &run.track {
        Some(t) => run_xml_inner(out, ids, run, Some(t)),
        None => run_xml_inner(out, ids, run, None),
    }
}

/// Serialize a run without its revision element, for a run inside a shared one.
pub(crate) fn run_xml_untracked(out: &mut String, ids: &mut IdAlloc, run: &Run)
    requires
        old(ids)@.wf(),
    ensures
        (Pen { text: final(out)@, ids: final(ids)@ }) == run_inner_s(
            Pen { text: old(out)@, ids: old(ids)@ },
            run@,
            None,
        ),
        final(ids)@.wf(),
{
    run_xml_inner(out, ids, run, None)
}

} // verus!
