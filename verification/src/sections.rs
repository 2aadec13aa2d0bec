//! Section properties: page geometry, columns, and header/footer references.
//!
//! Reads `w:sectPr` out of a document body - the page size and margins, the per-section column
//! count, the verbatim `sectPr` text the exporter re-emits, and which header/footer parts each
//! section references.

use vstd::prelude::*;
use crate::events::{
    attr, attr_i32, attr_u16, attr_u32, bytes, is_tag, or_else, read_xml, readable, strip_bom,
    tag_of, utf8, XmlEvent, XmlEventV, XmlStep, XmlStepV, XmlTag, XmlTagV,
};
use crate::events;
use crate::search;
use crate::strs::{opt_is, str_eq};

verus! {

broadcast use vstd::string::group_string_axioms;

// ---------------------------------------------------------------- page geometry

/// Page size and margins from the section properties, in twips (1/20 pt). Margins are signed:
/// a negative one enlarges the usable area past the physical margin.
#[derive(Debug, Clone, Copy, PartialEq, Eq)]
pub struct PageGeometry {
    pub width: u32,
    pub height: u32,
    pub margin_top: i32,
    pub margin_bottom: i32,
    pub margin_left: i32,
    pub margin_right: i32,
    /// Distance from the page top edge to the header, and from the bottom edge to the footer.
    pub header_dist: u32,
    pub footer_dist: u32,
    /// Whether any section declares more than one newspaper column.
    pub multi_column: bool,
}

impl PageGeometry {
    /// A4 with 1-inch margins and half-inch header and footer distances.
    pub open spec fn initial() -> PageGeometry {
        PageGeometry {
            width: 11906,
            height: 16838,
            margin_top: 1440,
            margin_bottom: 1440,
            margin_left: 1440,
            margin_right: 1440,
            header_dist: 720,
            footer_dist: 720,
            multi_column: false,
        }
    }
}

impl Default for PageGeometry {
    fn default() -> (r: Self)
        ensures
            r == PageGeometry::initial(),
    {
        PageGeometry {
            width: 11906,
            height: 16838,
            margin_top: 1440,
            margin_bottom: 1440,
            margin_left: 1440,
            margin_right: 1440,
            header_dist: 720,
            footer_dist: 720,
            multi_column: false,
        }
    }
}

/// The geometry with what a `w:pgSz` states.
pub open spec fn with_size_s(g: PageGeometry, t: XmlTagV) -> PageGeometry {
    PageGeometry {
        width: events::or_s(events::attr_u32_s(t, "w:w"@), g.width),
        height: events::or_s(events::attr_u32_s(t, "w:h"@), g.height),
        ..g
    }
}

/// The geometry with what a `w:pgMar` states.
pub open spec fn with_margins_s(g: PageGeometry, t: XmlTagV) -> PageGeometry {
    PageGeometry {
        margin_top: events::or_s(events::attr_i32_s(t, "w:top"@), g.margin_top),
        margin_bottom: events::or_s(events::attr_i32_s(t, "w:bottom"@), g.margin_bottom),
        margin_left: events::or_s(events::attr_i32_s(t, "w:left"@), g.margin_left),
        margin_right: events::or_s(events::attr_i32_s(t, "w:right"@), g.margin_right),
        header_dist: events::or_s(events::attr_u32_s(t, "w:header"@), g.header_dist),
        footer_dist: events::or_s(events::attr_u32_s(t, "w:footer"@), g.footer_dist),
        ..g
    }
}

/// What is known of the geometry, and whether a size and margins were seen.
pub struct GeometryV {
    pub g: PageGeometry,
    pub got_size: bool,
    pub got_margins: bool,
}

/// The geometry after the first `n` steps: sizes and margins are taken up as they come, until
/// both were seen.
pub open spec fn geometry_s(steps: Seq<XmlStepV>, n: int) -> GeometryV
    decreases n,
{
    if n <= 0 {
        GeometryV { g: PageGeometry::initial(), got_size: false, got_margins: false }
    } else {
        let s = geometry_s(steps, n - 1);
        if s.got_size && s.got_margins {
            s
        } else {
            match events::tag_of_s(steps[n - 1].event) {
                Some(t) => if t.name == "w:pgSz"@ {
                    GeometryV { g: with_size_s(s.g, t), got_size: true, ..s }
                } else if t.name == "w:pgMar"@ {
                    GeometryV { g: with_margins_s(s.g, t), got_margins: true, ..s }
                } else {
                    s
                },
                None => s,
            }
        }
    }
}

/// Whether the step is a `w:cols` of two or more columns.
pub open spec fn is_multi_s(e: XmlEventV) -> bool {
    match events::tag_of_s(e) {
        Some(t) => t.name == "w:cols"@ && (events::attr_u32_s(t, "w:num"@) matches Some(n) && n
            >= 2),
        None => false,
    }
}

/// The geometry that a document states.
pub open spec fn page_geometry_s(steps: Seq<XmlStepV>) -> PageGeometry {
    let n = events::readable_s(steps, 0);
    PageGeometry {
        multi_column: exists|i: int| 0 <= i < n && #[trigger] is_multi_s(steps[i].event),
        ..geometry_s(steps, n).g
    }
}

fn with_size(g: &mut PageGeometry, t: &XmlTag)
    ensures
        *final(g) == with_size_s(*old(g), t@),
{
    g.width = or_else(attr_u32(t, "w:w"), g.width);
    g.height = or_else(attr_u32(t, "w:h"), g.height);
}

fn with_margins(g: &mut PageGeometry, t: &XmlTag)
    ensures
        *final(g) == with_margins_s(*old(g), t@),
{
    g.margin_top = or_else(attr_i32(t, "w:top"), g.margin_top);
    g.margin_bottom = or_else(attr_i32(t, "w:bottom"), g.margin_bottom);
    g.margin_left = or_else(attr_i32(t, "w:left"), g.margin_left);
    g.margin_right = or_else(attr_i32(t, "w:right"), g.margin_right);
    g.header_dist = or_else(attr_u32(t, "w:header"), g.header_dist);
    g.footer_dist = or_else(attr_u32(t, "w:footer"), g.footer_dist);
}

fn is_multi(e: &XmlEvent) -> (r: bool)
    ensures
        r == is_multi_s(e@),
{
    match tag_of(e) {
        Some(t) => is_tag(t, "w:cols") && match attr_u32(t, "w:num") {
            Some(n) => n >= 2,
            None => false,
        },
        None => false,
    }
}

/// The page geometry of a tokenized document.
pub fn page_geometry_of(steps: &Vec<XmlStep>) -> (r: PageGeometry)
    ensures
        r == page_geometry_s(events::xml_step_vs(steps@)),
{
    let n = readable(steps);
    let ghost v = events::xml_step_vs(steps@);
    let mut g = PageGeometry::default();
    let mut got_size = false;
    let mut got_margins = false;
    let mut multi = false;
    let mut i: usize = 0;
    while i < n
        invariant
            i <= n <= steps@.len(),
            v == events::xml_step_vs(steps@),
            geometry_s(v, i as int) == (GeometryV { g, got_size, got_margins }),
            multi == exists|j: int| 0 <= j < i && #[trigger] is_multi_s(v[j].event),
        decreases n - i,
    {
        assert(v[i as int] == steps@[i as int]@);
        let e = &steps[i].event;
        let ghost was = multi;
        if is_multi(e) {
            multi = true;
        }
        assert(multi == (was || is_multi_s(v[i as int].event)));
        if !(got_size && got_margins) {
            if let Some(t) = tag_of(e) {
                if is_tag(t, "w:pgSz") {
                    with_size(&mut g, t);
                    got_size = true;
                } else if is_tag(t, "w:pgMar") {
                    with_margins(&mut g, t);
                    got_margins = true;
                }
            }
        }
        i = i + 1;
    }
    g.multi_column = multi;
    g
}

/// Read page size (`w:pgSz`) and margins (`w:pgMar`) from `word/document.xml`'s section
/// properties. Missing values keep their default (A4, 1 inch).
pub fn parse_page_geometry(xml: &[u8]) -> (r: PageGeometry)
    ensures
        r == page_geometry_s(events::doc_s(xml@)),
{
    page_geometry_of(&read_xml(xml))
}

// ---------------------------------------------------------------- columns

/// A section's newspaper-column geometry (`w:sectPr/w:cols`).
#[derive(Debug, PartialEq, Eq)]
pub struct SectionCols {
    /// Newspaper column count; 1 is the default.
    pub count: u16,
    /// Default gap between columns in twips; used when columns are equal-width.
    pub space: u32,
    /// When false, `widths` holds each column's explicit geometry.
    pub equal_width: bool,
    /// Per-column width and trailing space in twips, when not equal-width.
    pub widths: Vec<(u32, u32)>,
}

/// The mathematical value of a [`SectionCols`].
#[verifier::ext_equal]
pub struct SectionColsV {
    pub count: u16,
    pub space: u32,
    pub equal_width: bool,
    pub widths: Seq<(u32, u32)>,
}

impl View for SectionCols {
    type V = SectionColsV;

    open spec fn view(&self) -> SectionColsV {
        SectionColsV {
            count: self.count,
            space: self.space,
            equal_width: self.equal_width,
            widths: self.widths@,
        }
    }
}

pub open spec fn section_cols_vs(s: Seq<SectionCols>) -> Seq<SectionColsV> {
    Seq::new(s.len(), |i: int| s[i]@)
}

impl SectionColsV {
    /// One column.
    pub open spec fn initial() -> SectionColsV {
        SectionColsV { count: 1, space: 720, equal_width: true, widths: Seq::empty() }
    }
}

impl Default for SectionCols {
    fn default() -> (r: Self)
        ensures
            r@ == SectionColsV::initial(),
    {
        SectionCols { count: 1, space: 720, equal_width: true, widths: Vec::new() }
    }
}

impl Clone for SectionCols {
    fn clone(&self) -> (r: Self)
        ensures
            r@ == self@,
    {
        SectionCols {
            count: self.count,
            space: self.space,
            equal_width: self.equal_width,
            widths: crate::types::copy_vec(&self.widths),
        }
    }
}

/// The columns with what a `w:cols` states.
pub open spec fn with_cols_s(c: SectionColsV, t: XmlTagV) -> SectionColsV {
    SectionColsV {
        count: events::or_s(events::attr_u16_s(t, "w:num"@), c.count),
        space: events::or_s(events::attr_u32_s(t, "w:space"@), c.space),
        equal_width: {
            let v = events::attr_s(t, "w:equalWidth"@);
            !(v == Some("0"@) || v == Some("false"@))
        },
        ..c
    }
}

/// The columns with one more `w:col`.
pub open spec fn with_col_s(c: SectionColsV, t: XmlTagV) -> SectionColsV {
    SectionColsV {
        widths: c.widths.push(
            (
                events::or_s(events::attr_u32_s(t, "w:w"@), 0),
                events::or_s(events::attr_u32_s(t, "w:space"@), 0),
            ),
        ),
        ..c
    }
}

/// The sections closed so far, the depth inside section properties and inside a tracked change
/// of them, and the columns of the section being read.
#[verifier::ext_equal]
pub struct SectionsV {
    pub out: Seq<SectionColsV>,
    pub inside: int,
    pub change: int,
    pub cur: SectionColsV,
}

/// What one step adds: a `w:sectPr` opens a section and its end closes it; `w:cols` and `w:col`
/// count inside it. Nothing inside a `w:sectPrChange` counts.
pub open spec fn sections_step_s(s: SectionsV, e: XmlEventV) -> SectionsV {
    match e {
        XmlEventV::Start(t) => if t.name == "w:sectPrChange"@ {
            SectionsV { change: s.change + 1, ..s }
        } else if t.name == "w:sectPr"@ && s.change == 0 {
            SectionsV { inside: s.inside + 1, cur: SectionColsV::initial(), ..s }
        } else if t.name == "w:cols"@ && s.inside > 0 && s.change == 0 {
            SectionsV { cur: with_cols_s(s.cur, t), ..s }
        } else {
            s
        },
        XmlEventV::Empty(t) => if t.name == "w:cols"@ && s.inside > 0 && s.change == 0 {
            SectionsV { cur: with_cols_s(s.cur, t), ..s }
        } else if t.name == "w:col"@ && s.inside > 0 && s.change == 0 {
            SectionsV { cur: with_col_s(s.cur, t), ..s }
        } else {
            s
        },
        XmlEventV::End(n) => if n == "w:sectPrChange"@ && s.change > 0 {
            SectionsV { change: s.change - 1, ..s }
        } else if n == "w:sectPr"@ && s.inside > 0 && s.change == 0 {
            SectionsV {
                inside: s.inside - 1,
                out: s.out.push(s.cur),
                cur: SectionColsV::initial(),
                ..s
            }
        } else {
            s
        },
        _ => s,
    }
}

pub open spec fn sections_run_s(steps: Seq<XmlStepV>, n: int) -> SectionsV
    decreases n,
{
    if n <= 0 {
        SectionsV { out: Seq::empty(), inside: 0, change: 0, cur: SectionColsV::initial() }
    } else {
        sections_step_s(sections_run_s(steps, n - 1), steps[n - 1].event)
    }
}

/// The columns of every section of a document, in document order.
pub open spec fn sections_s(steps: Seq<XmlStepV>) -> Seq<SectionColsV> {
    sections_run_s(steps, events::readable_s(steps, 0)).out
}

fn with_cols(c: &mut SectionCols, t: &XmlTag)
    ensures
        final(c)@ == with_cols_s(old(c)@, t@),
{
    c.count = or_else(attr_u16(t, "w:num"), c.count);
    c.space = or_else(attr_u32(t, "w:space"), c.space);
    let v = attr(t, "w:equalWidth");
    c.equal_width = !(opt_is(&v, "0") || opt_is(&v, "false"));
}

/// The columns of every section of a tokenized document.
pub fn sections_of(steps: &Vec<XmlStep>) -> (r: Vec<SectionCols>)
    ensures
        section_cols_vs(r@) == sections_s(events::xml_step_vs(steps@)),
{
    let n = readable(steps);
    let ghost v = events::xml_step_vs(steps@);
    let mut out: Vec<SectionCols> = Vec::new();
    let mut inside: usize = 0;
    let mut change: usize = 0;
    let mut cur = SectionCols::default();
    let mut i: usize = 0;
    assert(section_cols_vs(out@) =~= Seq::empty());
    while i < n
        invariant
            i <= n <= steps@.len(),
            v == events::xml_step_vs(steps@),
            sections_run_s(v, i as int) == (SectionsV {
                out: section_cols_vs(out@),
                inside: inside as int,
                change: change as int,
                cur: cur@,
            }),
            inside <= i,
            change <= i,
        decreases n - i,
    {
        assert(v[i as int] == steps@[i as int]@);
        let live = change == 0;
        match &steps[i].event {
            XmlEvent::Start(t) => {
                if is_tag(t, "w:sectPrChange") {
                    change = change + 1;
                } else if is_tag(t, "w:sectPr") && live {
                    inside = inside + 1;
                    cur = SectionCols::default();
                } else if is_tag(t, "w:cols") && inside > 0 && live {
                    with_cols(&mut cur, t);
                }
            },
            XmlEvent::Empty(t) => {
                if is_tag(t, "w:cols") && inside > 0 && live {
                    with_cols(&mut cur, t);
                } else if is_tag(t, "w:col") && inside > 0 && live {
                    let w = or_else(attr_u32(t, "w:w"), 0);
                    let sp = or_else(attr_u32(t, "w:space"), 0);
                    cur.widths.push((w, sp));
                }
            },
            XmlEvent::End(name) => {
                if str_eq(name.as_str(), "w:sectPrChange") && change > 0 {
                    change = change - 1;
                } else if str_eq(name.as_str(), "w:sectPr") && inside > 0 && live {
                    inside = inside - 1;
                    let ghost was = out@;
                    let ghost closed = cur@;
                    out.push(cur);
                    cur = SectionCols::default();
                    assert(section_cols_vs(out@) =~= section_cols_vs(was).push(closed));
                }
            },
            _ => {},
        }
        i = i + 1;
    }
    out
}

/// Parse every section's newspaper-column geometry from `document.xml`, in document order: each
/// in-paragraph `sectPr` and then the body-final one. A section with no `w:cols` stays
/// single-column.
pub fn parse_sections(xml: &[u8]) -> (r: Vec<SectionCols>)
    ensures
        section_cols_vs(r@) == sections_s(events::doc_s(xml@)),
{
    sections_of(&read_xml(xml))
}

// ---------------------------------------------------------------- verbatim section properties

/// The texts captured so far, the depth inside a tracked change, and where the element being
/// captured starts.
#[verifier::ext_equal]
pub struct PropsV {
    pub out: Seq<Seq<char>>,
    pub skip: int,
    pub start: Option<int>,
}

/// The captured texts with the bytes `from..to`, where they are text.
pub open spec fn captured_s(out: Seq<Seq<char>>, xml: Seq<u8>, from: int, to: int) -> Seq<
    Seq<char>,
> {
    match events::utf8_s(events::bytes_s(xml, from, to)) {
        Some(t) => out.push(t),
        None => out,
    }
}

/// Whether the element holds an old copy of properties.
pub open spec fn is_change_s(name: Seq<char>) -> bool {
    name == "w:sectPrChange"@ || name == "w:pPrChange"@
}

/// What one step adds: the bytes of every `w:sectPr` element outside a tracked change.
pub open spec fn props_step_s(s: PropsV, xml: Seq<u8>, x: XmlStepV) -> PropsV {
    match x.event {
        XmlEventV::Start(t) => if is_change_s(t.name) {
            PropsV { skip: s.skip + 1, ..s }
        } else if t.name == "w:sectPr"@ && s.skip == 0 && s.start is None {
            PropsV { start: Some(x.start), ..s }
        } else {
            s
        },
        XmlEventV::Empty(t) => if t.name == "w:sectPr"@ && s.skip == 0 {
            PropsV { out: captured_s(s.out, xml, x.start, x.end), ..s }
        } else {
            s
        },
        XmlEventV::End(n) => if is_change_s(n) && s.skip > 0 {
            PropsV { skip: s.skip - 1, ..s }
        } else if n == "w:sectPr"@ && s.skip == 0 {
            match s.start {
                Some(from) => PropsV {
                    out: captured_s(s.out, xml, from, x.end),
                    start: None,
                    ..s
                },
                None => s,
            }
        } else {
            s
        },
        _ => s,
    }
}

pub open spec fn props_run_s(xml: Seq<u8>, steps: Seq<XmlStepV>, n: int) -> PropsV
    decreases n,
{
    if n <= 0 {
        PropsV { out: Seq::empty(), skip: 0, start: None }
    } else {
        props_step_s(props_run_s(xml, steps, n - 1), xml, steps[n - 1])
    }
}

/// The section properties of a document, verbatim.
pub open spec fn section_props_s(xml: Seq<u8>, steps: Seq<XmlStepV>) -> Seq<Seq<char>> {
    props_run_s(xml, steps, events::readable_s(steps, 0)).out
}

fn is_change(name: &str) -> (r: bool)
    ensures
        r == is_change_s(name@),
{
    str_eq(name, "w:sectPrChange") || str_eq(name, "w:pPrChange")
}

fn capture(out: &mut Vec<String>, xml: &[u8], from: usize, to: usize)
    ensures
        search::texts_s(final(out)@) == captured_s(
            search::texts_s(old(out)@),
            xml@,
            from as int,
            to as int,
        ),
{
    let b = bytes(xml, from, to);
    if let Some(t) = utf8(b.as_slice()) {
        out.push(t);
        assert(search::texts_s(out@) =~= search::texts_s(old(out)@).push(t@));
    }
}

/// The section properties of a tokenized document, sliced from its bytes.
pub fn section_props_of(xml: &[u8], steps: &Vec<XmlStep>) -> (r: Vec<String>)
    ensures
        search::texts_s(r@) == section_props_s(xml@, events::xml_step_vs(steps@)),
{
    let n = readable(steps);
    let ghost v = events::xml_step_vs(steps@);
    let mut out: Vec<String> = Vec::new();
    let mut skip: usize = 0;
    let mut start: Option<usize> = None;
    let mut i: usize = 0;
    assert(search::texts_s(out@) =~= Seq::empty());
    while i < n
        invariant
            i <= n <= steps@.len(),
            v == events::xml_step_vs(steps@),
            props_run_s(xml@, v, i as int) == (PropsV {
                out: search::texts_s(out@),
                skip: skip as int,
                start: match start {
                    Some(x) => Some(x as int),
                    None => None,
                },
            }),
            skip <= i,
        decreases n - i,
    {
        assert(v[i as int] == steps@[i as int]@);
        let step = &steps[i];
        match &step.event {
            XmlEvent::Start(t) => {
                if is_change(t.name.as_str()) {
                    skip = skip + 1;
                } else if is_tag(t, "w:sectPr") && skip == 0 && start.is_none() {
                    start = Some(step.start);
                }
            },
            XmlEvent::Empty(t) => {
                if is_tag(t, "w:sectPr") && skip == 0 {
                    capture(&mut out, xml, step.start, step.end);
                }
            },
            XmlEvent::End(name) => {
                if is_change(name.as_str()) && skip > 0 {
                    skip = skip - 1;
                } else if str_eq(name.as_str(), "w:sectPr") && skip == 0 {
                    if let Some(from) = start {
                        capture(&mut out, xml, from, step.end);
                        start = None;
                    }
                }
            },
            _ => {},
        }
        i = i + 1;
    }
    out
}

/// Byte-slice every `w:sectPr` element verbatim from `document.xml`, in document order. The old
/// copy inside a tracked change is not captured.
pub fn parse_section_props(xml: &[u8]) -> (r: Vec<String>)
    ensures
        search::texts_s(r@) == ({
            let body = events::strip_bom_s(xml@);
            section_props_s(body, events::doc_s(body))
        }),
{
    let body = strip_bom(xml);
    section_props_of(body, &read_xml(body))
}

// ---------------------------------------------------------------- headers and footers

/// A reference from the section properties to a header or footer part.
#[derive(Debug, PartialEq, Eq)]
pub struct HfRef {
    pub is_header: bool,
    /// `default`, `first` or `even`.
    pub kind: String,
    /// The relationship id.
    pub r_id: String,
}

/// The mathematical value of an [`HfRef`].
#[verifier::ext_equal]
pub struct HfRefV {
    pub is_header: bool,
    pub kind: Seq<char>,
    pub r_id: Seq<char>,
}

impl View for HfRef {
    type V = HfRefV;

    open spec fn view(&self) -> HfRefV {
        HfRefV { is_header: self.is_header, kind: self.kind@, r_id: self.r_id@ }
    }
}

impl Clone for HfRef {
    fn clone(&self) -> (r: Self)
        ensures
            r@ == self@,
    {
        HfRef { is_header: self.is_header, kind: self.kind.clone(), r_id: self.r_id.clone() }
    }
}

pub open spec fn hf_ref_vs(s: Seq<HfRef>) -> Seq<HfRefV> {
    Seq::new(s.len(), |i: int| s[i]@)
}

/// The references that an element adds: a `w:headerReference` or `w:footerReference` with an id.
pub open spec fn hf_ref_s(e: XmlEventV) -> Seq<HfRefV> {
    match events::tag_of_s(e) {
        Some(t) => if t.name == "w:headerReference"@ || t.name == "w:footerReference"@ {
            match events::attr_s(t, "r:id"@) {
                Some(r_id) => seq![
                    HfRefV {
                        is_header: t.name == "w:headerReference"@,
                        kind: events::or_s(events::attr_s(t, "w:type"@), "default"@),
                        r_id,
                    },
                ],
                None => Seq::empty(),
            }
        } else {
            Seq::empty()
        },
        None => Seq::empty(),
    }
}

pub open spec fn hf_refs_s(steps: Seq<XmlStepV>, n: int) -> Seq<HfRefV>
    decreases n,
{
    if n <= 0 {
        Seq::empty()
    } else {
        hf_refs_s(steps, n - 1) + hf_ref_s(steps[n - 1].event)
    }
}

/// The header and footer references of a tokenized document, in order.
pub fn hf_refs_of(steps: &Vec<XmlStep>) -> (r: Vec<HfRef>)
    ensures
        hf_ref_vs(r@) == ({
            let v = events::xml_step_vs(steps@);
            hf_refs_s(v, events::readable_s(v, 0))
        }),
{
    let n = readable(steps);
    let ghost v = events::xml_step_vs(steps@);
    let mut out: Vec<HfRef> = Vec::new();
    let mut i: usize = 0;
    assert(hf_ref_vs(out@) =~= Seq::empty());
    while i < n
        invariant
            i <= n <= steps@.len(),
            v == events::xml_step_vs(steps@),
            hf_ref_vs(out@) == hf_refs_s(v, i as int),
        decreases n - i,
    {
        assert(v[i as int] == steps@[i as int]@);
        let ghost was = out@;
        let ghost added = hf_ref_s(v[i as int].event);
        if let Some(t) = tag_of(&steps[i].event) {
            let is_header = is_tag(t, "w:headerReference");
            if is_header || is_tag(t, "w:footerReference") {
                let kind = match attr(t, "w:type") {
                    Some(k) => k,
                    None => "default".to_string(),
                };
                if let Some(r_id) = attr(t, "r:id") {
                    out.push(HfRef { is_header, kind, r_id });
                    assert(hf_ref_vs(out@) =~= hf_ref_vs(was) + added);
                }
            }
        }
        assert(hf_ref_vs(out@) =~= hf_ref_vs(was) + added);
        i = i + 1;
    }
    out
}

/// Read the header and footer references of `word/document.xml`.
pub fn header_footer_refs(document_xml: &[u8]) -> (r: Vec<HfRef>)
    ensures
        hf_ref_vs(r@) == ({
            let v = events::doc_s(document_xml@);
            hf_refs_s(v, events::readable_s(v, 0))
        }),
{
    hf_refs_of(&read_xml(document_xml))
}

/// Whether the event opens an element called `name`.
pub open spec fn opens_s(e: XmlEventV, name: Seq<char>) -> bool {
    match events::tag_of_s(e) {
        Some(t) => t.name == name,
        None => false,
    }
}

/// Whether a readable step opens an element called `name`.
pub open spec fn has_element_s(steps: Seq<XmlStepV>, name: Seq<char>) -> bool {
    exists|i: int|
        0 <= i < events::readable_s(steps, 0) && #[trigger] opens_s(steps[i].event, name)
}

/// Whether a tokenized document opens an element called `name` before it breaks off.
pub fn has_element(steps: &Vec<XmlStep>, name: &str) -> (r: bool)
    ensures
        r == has_element_s(events::xml_step_vs(steps@), name@),
{
    let n = readable(steps);
    let ghost v = events::xml_step_vs(steps@);
    let mut i: usize = 0;
    while i < n
        invariant
            i <= n <= steps@.len(),
            n == events::readable_s(v, 0),
            v == events::xml_step_vs(steps@),
            forall|j: int| 0 <= j < i ==> !#[trigger] opens_s(v[j].event, name@),
        decreases n - i,
    {
        assert(v[i as int] == steps@[i as int]@);
        if let Some(t) = tag_of(&steps[i].event) {
            if is_tag(t, name) {
                assert(opens_s(v[i as int].event, name@));
                return true;
            }
        }
        i = i + 1;
    }
    false
}

/// Whether the document has `w:titlePg`, so that page 1 uses the `first` header and footer.
pub fn title_page(document_xml: &[u8]) -> (r: bool)
    ensures
        r == has_element_s(events::doc_s(document_xml@), "w:titlePg"@),
{
    has_element(&read_xml(document_xml), "w:titlePg")
}

} // verus!
