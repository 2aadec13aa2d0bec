//! Verbatim capture of content that the model does not understand.
//!
//! Runs holding embedded objects, charts, shapes or unmodelled children are captured as raw XML
//! and re-emitted on export, and so are the openings of block-level content controls.

use vstd::prelude::*;
use crate::drawings;
use crate::drawings::{clone_draw_image_vec, parse_images, DrawImage, DrawImageV, VmlSize};
use crate::events;
use crate::events::{
    bytes, is_tag, lossy, read_xml, readable, revision_track, strip_bom, utf8, XmlEvent,
    XmlEventV, XmlStep, XmlStepV, XmlTag, XmlTagV,
};
use crate::strs;
use crate::strs::{chars_of, opt_clone, str_eq};
use crate::types;
use crate::types::{clone_track_opt, Track, TrackKind, TrackV};

verus! {

broadcast use vstd::string::group_string_axioms;

/// A captured run: its XML, where it stands, and the tracked change around it.
#[derive(Debug, PartialEq, Eq)]
pub struct RawItem {
    pub xml: String,
    /// Index of its body paragraph.
    pub para_index: usize,
    pub track: Option<Track>,
    /// Characters of modelled text before it in its paragraph.
    pub text_offset: usize,
}

/// The mathematical value of a [`RawItem`].
#[verifier::ext_equal]
pub struct RawItemV {
    pub xml: Seq<char>,
    pub para_index: usize,
    pub track: Option<TrackV>,
    pub text_offset: usize,
}

impl View for RawItem {
    type V = RawItemV;

    open spec fn view(&self) -> RawItemV {
        RawItemV {
            xml: self.xml@,
            para_index: self.para_index,
            track: types::track_ov(self.track),
            text_offset: self.text_offset,
        }
    }
}

pub open spec fn raw_item_vs(s: Seq<RawItem>) -> Seq<RawItemV> {
    Seq::new(s.len(), |i: int| s[i]@)
}

impl Clone for RawItem {
    fn clone(&self) -> (r: Self)
        ensures
            r@ == self@,
    {
        RawItem {
            xml: self.xml.clone(),
            para_index: self.para_index,
            track: clone_track_opt(&self.track),
            text_offset: self.text_offset,
        }
    }
}

/// A run to capture unless one of its VML pictures turns out to have an extent.
#[derive(Debug, PartialEq, Eq)]
pub struct RawCandidate {
    pub item: RawItem,
    /// VML pictures of the run outside text boxes, not measured yet.
    pub vml: Vec<DrawImage>,
}

/// The mathematical value of a [`RawCandidate`].
#[verifier::ext_equal]
pub struct RawCandidateV {
    pub item: RawItemV,
    pub vml: Seq<DrawImageV>,
}

impl View for RawCandidate {
    type V = RawCandidateV;

    open spec fn view(&self) -> RawCandidateV {
        RawCandidateV {
            item: self.item@,
            vml: drawings::draw_image_vs(self.vml@),
        }
    }
}

pub open spec fn raw_candidate_ov(o: Option<RawCandidate>) -> Option<RawCandidateV> {
    match o {
        Some(x) => Some(x@),
        None => None,
    }
}

pub open spec fn raw_candidate_vs(s: Seq<RawCandidate>) -> Seq<RawCandidateV> {
    Seq::new(s.len(), |i: int| s[i]@)
}

impl Clone for RawCandidate {
    fn clone(&self) -> (r: Self)
        ensures
            r@ == self@,
    {
        RawCandidate {
            item: self.item.clone(),
            vml: clone_draw_image_vec(&self.vml),
        }
    }
}


pub open spec fn opt_int_s(o: Option<usize>) -> Option<int> {
    match o {
        Some(x) => Some(x as int),
        None => None,
    }
}

// ---------------------------------------------------------------- run children

/// Whether the model reproduces a run child of this name (a break is judged by its kind).
pub open spec fn is_modeled_s(n: Seq<char>) -> bool {
    n == "w:rPr"@ || n == "w:t"@ || n == "w:delText"@ || n == "w:instrText"@ || n == "w:delInstrText"@ || n == "w:tab"@ || n == "w:fldChar"@ || n == "w:commentReference"@ || n == "w:drawing"@ || n == "w:object"@ || n == "w:pict"@ || n == "w:control"@ || n == "mc:AlternateContent"@ || n == "w:lastRenderedPageBreak"@
}

fn is_modeled(n: &str) -> (r: bool)
    ensures
        r == is_modeled_s(n@),
{
    str_eq(n, "w:rPr") || str_eq(n, "w:t") || str_eq(n, "w:delText") || str_eq(n, "w:instrText") || str_eq(n, "w:delInstrText") || str_eq(n, "w:tab") || str_eq(n, "w:fldChar") || str_eq(n, "w:commentReference") || str_eq(n, "w:drawing") || str_eq(n, "w:object") || str_eq(n, "w:pict") || str_eq(n, "w:control") || str_eq(n, "mc:AlternateContent") || str_eq(n, "w:lastRenderedPageBreak")
}

/// The bytes between the quotes of the first well-formed attribute called `key`.
pub open spec fn attr_raw_s(t: XmlTagV, key: Seq<char>) -> Option<Seq<u8>> {
    let at = events::attr_at_s(t.attrs, key, 0);
    if at < t.attrs.len() {
        Some(t.attrs[at]->0.raw)
    } else {
        None
    }
}

/// Whether a break is of a modelled kind: page or column.
pub open spec fn is_modeled_break_s(t: XmlTagV) -> bool {
    match attr_raw_s(t, "w:type"@) {
        Some(b) => events::lossy_s(b) == "page"@ || events::lossy_s(b) == "column"@,
        None => false,
    }
}

fn is_modeled_break(t: &XmlTag) -> (r: bool)
    ensures
        r == is_modeled_break_s(t@),
{
    let key = "w:type";
    let mut i: usize = 0;
    while i < t.attrs.len()
        invariant
            i <= t.attrs@.len(),
            key@ == "w:type"@,
            events::attr_at_s(t@.attrs, key@, 0) == events::attr_at_s(t@.attrs, key@, i as int),
        decreases t.attrs@.len() - i,
    {
        assert(t@.attrs[i as int] == events::xml_attr_ov(t.attrs@[i as int]));
        if let Some(a) = &t.attrs[i] {
            if str_eq(a.key.as_str(), key) {
                let kind = lossy(a.raw.as_slice());
                return str_eq(kind.as_str(), "page") || str_eq(kind.as_str(), "column");
            }
        }
        i = i + 1;
    }
    false
}

/// Whether a run child is content that the model would drop, given the depth inside run
/// properties.
pub open spec fn is_unmodeled_s(t: XmlTagV, rpr: int) -> bool {
    if t.name == "w:rPr"@ || rpr > 0 {
        false
    } else if t.name == "w:br"@ {
        !is_modeled_break_s(t)
    } else {
        !is_modeled_s(t.name)
    }
}

fn is_unmodeled(t: &XmlTag, rpr: usize) -> (r: bool)
    ensures
        r == is_unmodeled_s(t@, rpr as int),
{
    if is_tag(t, "w:rPr") || rpr > 0 {
        false
    } else if is_tag(t, "w:br") {
        !is_modeled_break(t)
    } else {
        !is_modeled(t.name.as_str())
    }
}

pub open spec fn is_object_s(n: Seq<char>) -> bool {
    n == "w:object"@ || n == "w:control"@
}

pub open spec fn is_drawing_s(n: Seq<char>) -> bool {
    n == "w:drawing"@ || n == "w:pict"@ || n == "mc:AlternateContent"@
}

fn is_object(t: &XmlTag) -> (r: bool)
    ensures
        r == is_object_s(t@.name),
{
    is_tag(t, "w:object") || is_tag(t, "w:control")
}

fn is_drawing(t: &XmlTag) -> (r: bool)
    ensures
        r == is_drawing_s(t@.name),
{
    is_tag(t, "w:drawing") || is_tag(t, "w:pict") || is_tag(t, "mc:AlternateContent")
}

// ---------------------------------------------------------------- runs

/// What scanning a body part for runs to capture has gathered.
pub struct RunReader {
    pub out: Vec<RawCandidate>,
    pub para_index: usize,
    pub txbx: usize,
    /// Open tables; a run of a nested table is kept with that table.
    pub tbl: usize,
    /// Where the open run starts.
    pub run_start: Option<usize>,
    pub has_object: bool,
    pub has_drawing: bool,
    pub has_unmodeled: bool,
    /// Depth inside run properties, which are no content.
    pub rpr: usize,
    pub track: Option<Track>,
    /// Characters of modelled text so far in the paragraph.
    pub para_text: usize,
    /// The same at the start of the open run.
    pub run_text: usize,
    pub in_text: bool,
}

/// The mathematical value of a [`RunReader`].
#[verifier::ext_equal]
pub struct RunReaderV {
    pub out: Seq<RawCandidateV>,
    pub para_index: usize,
    pub txbx: int,
    pub tbl: int,
    pub run_start: Option<int>,
    pub has_object: bool,
    pub has_drawing: bool,
    pub has_unmodeled: bool,
    pub rpr: int,
    pub track: Option<TrackV>,
    pub para_text: usize,
    pub run_text: usize,
    pub in_text: bool,
}

impl View for RunReader {
    type V = RunReaderV;

    open spec fn view(&self) -> RunReaderV {
        RunReaderV {
            out: raw_candidate_vs(self.out@),
            para_index: self.para_index,
            txbx: self.txbx as int,
            tbl: self.tbl as int,
            run_start: opt_int_s(self.run_start),
            has_object: self.has_object,
            has_drawing: self.has_drawing,
            has_unmodeled: self.has_unmodeled,
            rpr: self.rpr as int,
            track: types::track_ov(self.track),
            para_text: self.para_text,
            run_text: self.run_text,
            in_text: self.in_text,
        }
    }
}

impl RunReaderV {
    pub open spec fn initial() -> RunReaderV {
        RunReaderV {
            out: Seq::empty(),
            para_index: 0,
            txbx: 0,
            tbl: 0,
            run_start: None,
            has_object: false,
            has_drawing: false,
            has_unmodeled: false,
            rpr: 0,
            track: None,
            para_text: 0,
            run_text: 0,
            in_text: false,
        }
    }
}

/// A sum that stops at the largest index.
pub open spec fn capped_sum_s(a: usize, b: nat) -> usize {
    if a + b > usize::MAX {
        usize::MAX
    } else {
        (a + b) as usize
    }
}

/// Whether some picture belongs to the body flow and has its size.
pub open spec fn has_picture_s(images: Seq<DrawImageV>) -> bool {
    exists|i: int| 0 <= i < images.len() && !(#[trigger] images[i]).in_textbox && images[i].vml is None
}

/// The VML pictures of the body flow among the first `n`.
pub open spec fn flow_vml_s(images: Seq<DrawImageV>, n: nat) -> Seq<DrawImageV>
    decreases n,
{
    if n == 0 {
        Seq::empty()
    } else {
        let before = flow_vml_s(images, (n - 1) as nat);
        if !images[n - 1].in_textbox && images[n - 1].vml is Some {
            before.push(images[n - 1])
        } else {
            before
        }
    }
}

/// What an opening tag does.
pub open spec fn run_start_tag_s(s: RunReaderV, t: XmlTagV, at: int) -> RunReaderV {
    let n = t.name;
    let flow = s.txbx == 0;
    if n == "w:txbxContent"@ {
        RunReaderV { txbx: s.txbx + 1, ..s }
    } else if n == "w:tbl"@ {
        RunReaderV { tbl: s.tbl + 1, ..s }
    } else if !flow {
        s
    } else if n == "w:ins"@ {
        RunReaderV { track: Some(events::revision_track_s(t, TrackKind::Ins)), ..s }
    } else if n == "w:del"@ {
        RunReaderV { track: Some(events::revision_track_s(t, TrackKind::Del)), ..s }
    } else if n == "w:r"@ {
        RunReaderV {
            run_start: Some(at),
            has_object: false,
            has_drawing: false,
            has_unmodeled: false,
            rpr: 0,
            run_text: s.para_text,
            ..s
        }
    } else if n == "w:t"@ || n == "w:delText"@ {
        RunReaderV { in_text: true, ..s }
    } else if s.run_start is None {
        s
    } else if is_object_s(n) {
        RunReaderV { has_object: true, ..s }
    } else if is_drawing_s(n) {
        RunReaderV { has_drawing: true, ..s }
    } else {
        RunReaderV {
            has_unmodeled: s.has_unmodeled || is_unmodeled_s(t, s.rpr),
            rpr: if n == "w:rPr"@ {
                s.rpr + 1
            } else {
                s.rpr
            },
            ..s
        }
    }
}

/// What the end of a paragraph of the body flow does.
pub open spec fn para_ended_s(s: RunReaderV) -> RunReaderV {
    RunReaderV { para_index: (s.para_index + 1) as usize, para_text: 0, run_text: 0, ..s }
}

/// What a self-closing tag does; a paragraph may be one.
pub open spec fn run_empty_tag_s(s: RunReaderV, t: XmlTagV) -> RunReaderV {
    let n = t.name;
    if s.txbx != 0 {
        s
    } else if n == "w:p"@ {
        para_ended_s(s)
    } else if s.run_start is None {
        s
    } else if is_object_s(n) {
        RunReaderV { has_object: true, ..s }
    } else if is_drawing_s(n) {
        RunReaderV { has_drawing: true, ..s }
    } else if n == "w:tab"@ {
        RunReaderV { para_text: capped_sum_s(s.para_text, 1), ..s }
    } else {
        RunReaderV { has_unmodeled: s.has_unmodeled || is_unmodeled_s(t, s.rpr), ..s }
    }
}

/// Whether the run is captured whatever its pictures measure: it holds an object, or only
/// content that the model would drop and no text.
pub open spec fn always_captured_s(s: RunReaderV) -> bool {
    s.has_object || (s.has_unmodeled && !s.has_drawing && s.run_text == s.para_text)
}

/// The candidate that the run in the bytes `from..to` gives: a run of a nested table gives none,
/// and neither does a drawing that holds a picture of the body flow.
pub open spec fn candidate_s(s: RunReaderV, xml: Seq<u8>, from: int, to: int) -> Option<RawCandidateV> {
    let b = events::bytes_s(xml, from, to);
    let images = drawings::images_s(events::doc_s(b));
    let capture = s.tbl < 2 && (always_captured_s(s) || (s.has_drawing && !has_picture_s(images)));
    match events::utf8_s(b) {
        Some(text) => if capture {
            Some(
                RawCandidateV {
                    item: RawItemV {
                        xml: text,
                        para_index: s.para_index,
                        track: s.track,
                        text_offset: s.run_text,
                    },
                    vml: if always_captured_s(s) {
                        Seq::empty()
                    } else {
                        flow_vml_s(images, images.len())
                    },
                },
            )
        } else {
            None
        },
        None => None,
    }
}

/// What the end of a run does.
pub open spec fn run_end_s(s: RunReaderV, xml: Seq<u8>, end: int) -> RunReaderV {
    RunReaderV {
        out: match s.run_start {
            Some(from) => match candidate_s(s, xml, from, end) {
                Some(c) => s.out.push(c),
                None => s.out,
            },
            None => s.out,
        },
        run_start: None,
        has_object: false,
        has_drawing: false,
        has_unmodeled: false,
        rpr: 0,
        ..s
    }
}

/// What a closing tag does.
pub open spec fn run_end_tag_s(s: RunReaderV, xml: Seq<u8>, n: Seq<char>, end: int) -> RunReaderV {
    if n == "w:txbxContent"@ {
        RunReaderV { txbx: drawings::shallower_s(s.txbx), ..s }
    } else if n == "w:tbl"@ {
        RunReaderV { tbl: drawings::shallower_s(s.tbl), ..s }
    } else if s.txbx != 0 {
        s
    } else if n == "w:ins"@ || n == "w:del"@ {
        RunReaderV { track: None, ..s }
    } else if n == "w:t"@ || n == "w:delText"@ {
        RunReaderV { in_text: false, ..s }
    } else if n == "w:rPr"@ && s.run_start is Some {
        RunReaderV { rpr: drawings::shallower_s(s.rpr), ..s }
    } else if n == "w:r"@ {
        run_end_s(s, xml, end)
    } else if n == "w:p"@ {
        para_ended_s(s)
    } else {
        s
    }
}

/// What a text, or a reference that stands for text, does: modelled text is counted.
pub open spec fn run_text_s(s: RunReaderV, t: Option<Seq<char>>) -> RunReaderV {
    match t {
        Some(text) => if s.in_text && s.txbx == 0 {
            RunReaderV { para_text: capped_sum_s(s.para_text, text.len()), ..s }
        } else {
            s
        },
        None => s,
    }
}

pub open spec fn run_step_s(s: RunReaderV, xml: Seq<u8>, x: XmlStepV) -> RunReaderV {
    match x.event {
        XmlEventV::Start(t) => run_start_tag_s(s, t, x.start),
        XmlEventV::Empty(t) => run_empty_tag_s(s, t),
        XmlEventV::End(n) => run_end_tag_s(s, xml, n, x.end),
        XmlEventV::Text(t) => run_text_s(s, t),
        XmlEventV::Ref(t) => run_text_s(s, t),
        _ => s,
    }
}

pub open spec fn runs_run_s(xml: Seq<u8>, steps: Seq<XmlStepV>, n: int) -> RunReaderV
    decreases n,
{
    if n <= 0 {
        RunReaderV::initial()
    } else {
        run_step_s(runs_run_s(xml, steps, n - 1), xml, steps[n - 1])
    }
}

/// The candidates for capture of a body part.
pub open spec fn passthrough_s(xml: Seq<u8>, steps: Seq<XmlStepV>) -> Seq<RawCandidateV> {
    runs_run_s(xml, steps, events::readable_s(steps, 0)).out
}

/// Whether a run starts at byte `from`, by one of the first `n` steps.
pub open spec fn run_starts_s(steps: Seq<XmlStepV>, n: int, from: int) -> bool {
    exists|i: int|
        0 <= i < n && i < steps.len() && (#[trigger] steps[i]).start == from && (
        steps[i].event matches XmlEventV::Start(t) && t.name == "w:r"@)
}

/// Whether a run ends at byte `to`, by one of the first `n` steps.
pub open spec fn run_ends_s(steps: Seq<XmlStepV>, n: int, to: int) -> bool {
    exists|i: int|
        0 <= i < n && i < steps.len() && (#[trigger] steps[i]).end == to && steps[i].event
            == XmlEventV::End("w:r"@)
}

/// Whether a text is the bytes from the start of a run to the end of one.
pub open spec fn verbatim_s(xml: Seq<u8>, steps: Seq<XmlStepV>, n: int, text: Seq<char>) -> bool {
    exists|from: int, to: int| #[trigger]
        cut_from_s(xml, from, to, text) && run_starts_s(steps, n, from) && run_ends_s(steps, n, to)
}

/// Whether a text is that of the bytes `from..to`.
pub open spec fn cut_from_s(xml: Seq<u8>, from: int, to: int, text: Seq<char>) -> bool {
    events::utf8_s(events::bytes_s(xml, from, to)) == Some(text)
}

proof fn lemma_verbatim_grows(xml: Seq<u8>, steps: Seq<XmlStepV>, n: int, text: Seq<char>)
    requires
        verbatim_s(xml, steps, n, text),
    ensures
        verbatim_s(xml, steps, n + 1, text),
{
    let (from, to) = choose|from: int, to: int| #[trigger]
        cut_from_s(xml, from, to, text) && run_starts_s(steps, n, from) && run_ends_s(steps, n, to);
    lemma_run_marks_grow(steps, n, from);
    lemma_run_marks_grow(steps, n, to);
    assert(cut_from_s(xml, from, to, text));
}

proof fn lemma_run_marks_grow(steps: Seq<XmlStepV>, n: int, at: int)
    ensures
        run_starts_s(steps, n, at) ==> run_starts_s(steps, n + 1, at),
        run_ends_s(steps, n, at) ==> run_ends_s(steps, n + 1, at),
{
    if run_starts_s(steps, n, at) {
        let i = choose|i: int|
            0 <= i < n && i < steps.len() && (#[trigger] steps[i]).start == at && (
            steps[i].event matches XmlEventV::Start(t) && t.name == "w:r"@);
        assert(steps[i].start == at);
    }
    if run_ends_s(steps, n, at) {
        let i = choose|i: int|
            0 <= i < n && i < steps.len() && (#[trigger] steps[i]).end == at && steps[i].event
                == XmlEventV::End("w:r"@);
        assert(steps[i].end == at);
    }
}

proof fn lemma_captured(xml: Seq<u8>, steps: Seq<XmlStepV>, n: int)
    requires
        0 <= n <= steps.len(),
    ensures
        ({
            let s = runs_run_s(xml, steps, n);
            &&& s.run_start matches Some(from) ==> run_starts_s(steps, n, from)
            &&& forall|i: int|
                0 <= i < s.out.len() ==> verbatim_s(xml, steps, n, (#[trigger] s.out[i]).item.xml)
        }),
    decreases n,
{
    if n > 0 {
        lemma_captured(xml, steps, n - 1);
        let s = runs_run_s(xml, steps, n - 1);
        let x = steps[n - 1];
        let t = runs_run_s(xml, steps, n);
        if let Some(from) = s.run_start {
            lemma_run_marks_grow(steps, n - 1, from);
        }
        if let Some(from) = t.run_start {
            if t.run_start != s.run_start {
                assert(steps[n - 1].start == from);
            }
        }
        assert forall|i: int| 0 <= i < t.out.len() implies verbatim_s(
            xml,
            steps,
            n,
            (#[trigger] t.out[i]).item.xml,
        ) by {
            if i < s.out.len() {
                assert(t.out[i] == s.out[i]);
                lemma_verbatim_grows(xml, steps, n - 1, s.out[i].item.xml);
            } else {
                let from = s.run_start->0;
                assert(steps[n - 1].end == x.end);
                assert(run_ends_s(steps, n, x.end));
                assert(cut_from_s(xml, from, x.end, t.out[i].item.xml));
            }
        }
    }
}

/// Every captured text is a piece of the part, byte for byte, from the start of a run to the end
/// of one.
pub proof fn law_captured_runs_are_verbatim(xml: Seq<u8>, steps: Seq<XmlStepV>, i: int)
    requires
        0 <= i < passthrough_s(xml, steps).len(),
    ensures
        verbatim_s(xml, steps, steps.len() as int, passthrough_s(xml, steps)[i].item.xml),
{
    let n = events::readable_s(steps, 0);
    events::lemma_readable(steps, 0);
    lemma_captured(xml, steps, n);
    let text = passthrough_s(xml, steps)[i].item.xml;
    assert(verbatim_s(xml, steps, n, text));
    lemma_verbatim_upto(xml, steps, n, text);
}

proof fn lemma_verbatim_upto(xml: Seq<u8>, steps: Seq<XmlStepV>, n: int, text: Seq<char>)
    requires
        verbatim_s(xml, steps, n, text),
        n <= steps.len(),
    ensures
        verbatim_s(xml, steps, steps.len() as int, text),
    decreases steps.len() - n,
{
    if n < steps.len() {
        lemma_verbatim_grows(xml, steps, n, text);
        lemma_verbatim_upto(xml, steps, n + 1, text);
    }
}

fn capped_sum(a: usize, b: usize) -> (r: usize)
    ensures
        r == capped_sum_s(a, b as nat),
{
    if a > usize::MAX - b {
        usize::MAX
    } else {
        a + b
    }
}

fn has_picture(images: &Vec<DrawImage>) -> (r: bool)
    ensures
        r == has_picture_s(drawings::draw_image_vs(images@)),
{
    let ghost v = drawings::draw_image_vs(images@);
    let mut i: usize = 0;
    while i < images.len()
        invariant
            i <= images@.len(),
            v == drawings::draw_image_vs(images@),
            forall|j: int| 0 <= j < i ==> !(!(#[trigger] v[j]).in_textbox && v[j].vml is None),
        decreases images@.len() - i,
    {
        assert(v[i as int] == images@[i as int]@);
        if !images[i].in_textbox && images[i].vml.is_none() {
            return true;
        }
        i = i + 1;
    }
    false
}

fn flow_vml(images: &Vec<DrawImage>) -> (r: Vec<DrawImage>)
    ensures
        drawings::draw_image_vs(r@) == flow_vml_s(
            drawings::draw_image_vs(images@),
            images@.len(),
        ),
{
    let ghost v = drawings::draw_image_vs(images@);
    let mut out: Vec<DrawImage> = Vec::new();
    let mut i: usize = 0;
    assert(drawings::draw_image_vs(out@) =~= Seq::empty());
    while i < images.len()
        invariant
            i <= images@.len(),
            v == drawings::draw_image_vs(images@),
            drawings::draw_image_vs(out@) == flow_vml_s(v, i as nat),
        decreases images@.len() - i,
    {
        assert(v[i as int] == images@[i as int]@);
        if !images[i].in_textbox && images[i].vml.is_some() {
            let ghost was = out@;
            out.push(images[i].clone());
            assert(drawings::draw_image_vs(out@) =~= drawings::draw_image_vs(was).push(
                v[i as int],
            ));
        }
        i = i + 1;
    }
    out
}

impl RunReader {
    /// The counters stay below the number of steps taken.
    spec fn bounded(self, i: nat) -> bool {
        self.para_index <= i && self.txbx <= i && self.tbl <= i && self.rpr <= i
    }

    fn new() -> (r: Self)
        ensures
            r@ == RunReaderV::initial(),
            r.bounded(0),
    {
        let r = RunReader {
            out: Vec::new(),
            para_index: 0,
            txbx: 0,
            tbl: 0,
            run_start: None,
            has_object: false,
            has_drawing: false,
            has_unmodeled: false,
            rpr: 0,
            track: None,
            para_text: 0,
            run_text: 0,
            in_text: false,
        };
        assert(r@ =~= RunReaderV::initial());
        r
    }

    fn start(&mut self, t: &XmlTag, at: usize, Ghost(i): Ghost<nat>)
        requires
            old(self).bounded(i),
            i < usize::MAX,
        ensures
            final(self)@ == run_start_tag_s(old(self)@, t@, at as int),
            final(self).bounded(i + 1),
    {
        if is_tag(t, "w:txbxContent") {
            self.txbx = self.txbx + 1;
        } else if is_tag(t, "w:tbl") {
            self.tbl = self.tbl + 1;
        } else if self.txbx != 0 {
        } else if is_tag(t, "w:ins") {
            self.track = Some(revision_track(t, TrackKind::Ins));
        } else if is_tag(t, "w:del") {
            self.track = Some(revision_track(t, TrackKind::Del));
        } else if is_tag(t, "w:r") {
            self.run_start = Some(at);
            self.has_object = false;
            self.has_drawing = false;
            self.has_unmodeled = false;
            self.rpr = 0;
            self.run_text = self.para_text;
        } else if is_tag(t, "w:t") || is_tag(t, "w:delText") {
            self.in_text = true;
        } else if self.run_start.is_none() {
        } else if is_object(t) {
            self.has_object = true;
        } else if is_drawing(t) {
            self.has_drawing = true;
        } else {
            if is_unmodeled(t, self.rpr) {
                self.has_unmodeled = true;
            }
            if is_tag(t, "w:rPr") {
                self.rpr = self.rpr + 1;
            }
        }
    }

    fn empty(&mut self, t: &XmlTag, Ghost(i): Ghost<nat>)
        requires
            old(self).bounded(i),
            i < usize::MAX,
        ensures
            final(self)@ == run_empty_tag_s(old(self)@, t@),
            final(self).bounded(i + 1),
    {
        if self.txbx != 0 {
        } else if is_tag(t, "w:p") {
            self.para_index = self.para_index + 1;
            self.para_text = 0;
            self.run_text = 0;
        } else if self.run_start.is_none() {
        } else if is_object(t) {
            self.has_object = true;
        } else if is_drawing(t) {
            self.has_drawing = true;
        } else if is_tag(t, "w:tab") {
            self.para_text = capped_sum(self.para_text, 1);
        } else if is_unmodeled(t, self.rpr) {
            self.has_unmodeled = true;
        }
    }

    fn text(&mut self, t: &Option<String>, Ghost(i): Ghost<nat>)
        requires
            old(self).bounded(i),
        ensures
            final(self)@ == run_text_s(old(self)@, strs::opt_s(*t)),
            final(self).bounded(i + 1),
    {
        if let Some(text) = t {
            if self.in_text && self.txbx == 0 {
                let len = chars_of(text.as_str()).len();
                self.para_text = capped_sum(self.para_text, len);
            }
        }
    }

    fn candidate(&self, xml: &[u8], from: usize, to: usize) -> (r: Option<RawCandidate>)
        ensures
            raw_candidate_ov(r) == candidate_s(self@, xml@, from as int, to as int),
    {
        if self.tbl >= 2 {
            return None;
        }
        let always = self.has_object || (self.has_unmodeled && !self.has_drawing && self.run_text
            == self.para_text);
        let b = bytes(xml, from, to);
        let mut vml: Vec<DrawImage> = Vec::new();
        assert(drawings::draw_image_vs(vml@) =~= Seq::empty());
        if !always {
            if !self.has_drawing {
                return None;
            }
            let images = parse_images(b.as_slice());
            if has_picture(&images) {
                return None;
            }
            vml = flow_vml(&images);
        }
        match utf8(b.as_slice()) {
            Some(text) => Some(
                RawCandidate {
                    item: RawItem {
                        xml: text,
                        para_index: self.para_index,
                        track: clone_track_opt(&self.track),
                        text_offset: self.run_text,
                    },
                    vml,
                },
            ),
            None => None,
        }
    }

    fn close_run(&mut self, xml: &[u8], end: usize, Ghost(i): Ghost<nat>)
        requires
            old(self).bounded(i),
        ensures
            final(self)@ == run_end_s(old(self)@, xml@, end as int),
            final(self).bounded(i),
    {
        if let Some(from) = self.run_start {
            if let Some(c) = self.candidate(xml, from, end) {
                let ghost was = self.out@;
                let ghost cv = c@;
                self.out.push(c);
                assert(raw_candidate_vs(self.out@) =~= raw_candidate_vs(was).push(cv));
            }
        }
        self.run_start = None;
        self.has_object = false;
        self.has_drawing = false;
        self.has_unmodeled = false;
        self.rpr = 0;
    }

    fn end(&mut self, xml: &[u8], n: &str, end: usize, Ghost(i): Ghost<nat>)
        requires
            old(self).bounded(i),
            i < usize::MAX,
        ensures
            final(self)@ == run_end_tag_s(old(self)@, xml@, n@, end as int),
            final(self).bounded(i + 1),
    {
        if str_eq(n, "w:txbxContent") {
            if self.txbx > 0 {
                self.txbx = self.txbx - 1;
            }
        } else if str_eq(n, "w:tbl") {
            if self.tbl > 0 {
                self.tbl = self.tbl - 1;
            }
        } else if self.txbx != 0 {
        } else if str_eq(n, "w:ins") || str_eq(n, "w:del") {
            self.track = None;
        } else if str_eq(n, "w:t") || str_eq(n, "w:delText") {
            self.in_text = false;
        } else if str_eq(n, "w:rPr") && self.run_start.is_some() {
            if self.rpr > 0 {
                self.rpr = self.rpr - 1;
            }
        } else if str_eq(n, "w:r") {
            self.close_run(xml, end, Ghost(i));
        } else if str_eq(n, "w:p") {
            self.para_index = self.para_index + 1;
            self.para_text = 0;
            self.run_text = 0;
        }
    }
}

/// The candidates for capture of a tokenized body part, sliced from its bytes.
pub fn passthrough_of(xml: &[u8], steps: &Vec<XmlStep>) -> (r: Vec<RawCandidate>)
    ensures
        raw_candidate_vs(r@) == passthrough_s(xml@, events::xml_step_vs(steps@)),
{
    let n = readable(steps);
    let ghost v = events::xml_step_vs(steps@);
    let mut s = RunReader::new();
    let mut i: usize = 0;
    while i < n
        invariant
            i <= n <= steps@.len(),
            v == events::xml_step_vs(steps@),
            s@ == runs_run_s(xml@, v, i as int),
            s.bounded(i as nat),
        decreases n - i,
    {
        assert(v[i as int] == steps@[i as int]@);
        let x = &steps[i];
        match &x.event {
            XmlEvent::Start(t) => s.start(t, x.start, Ghost(i as nat)),
            XmlEvent::Empty(t) => s.empty(t, Ghost(i as nat)),
            XmlEvent::End(name) => s.end(xml, name.as_str(), x.end, Ghost(i as nat)),
            XmlEvent::Text(t) => s.text(t, Ghost(i as nat)),
            XmlEvent::Ref(t) => s.text(t, Ghost(i as nat)),
            _ => {},
        }
        i = i + 1;
    }
    s.out
}

/// Scan a body part for run content that the model would drop, and capture each such run
/// verbatim: embedded objects, drawings that yield no picture, and text-free runs of unmodelled
/// children. A drawing with VML pictures is a candidate until they are measured.
pub fn parse_passthrough(xml: &[u8]) -> (r: Vec<RawCandidate>)
    ensures
        raw_candidate_vs(r@) == ({
            let body = events::strip_bom_s(xml@);
            passthrough_s(body, events::doc_s(body))
        }),
{
    let body = strip_bom(xml);
    passthrough_of(body, &read_xml(body))
}

/// Whether no VML picture of a candidate has an extent; `sizes` measures them in order.
pub open spec fn no_extent_s(c: RawCandidateV, sizes: Seq<VmlSize>) -> bool {
    forall|j: int|
        0 <= j < c.vml.len() && j < sizes.len() ==> !((#[trigger] sizes[j]).w > 0 && sizes[j].h > 0)
}

pub open spec fn sizes_s(v: Seq<Vec<VmlSize>>, i: int) -> Seq<VmlSize> {
    if i < v.len() {
        v[i]@
    } else {
        Seq::empty()
    }
}

/// The captured runs among the first `n` candidates.
pub open spec fn settled_items_s(cs: Seq<RawCandidateV>, sizes: Seq<Vec<VmlSize>>, n: nat) -> Seq<
    RawItemV,
>
    decreases n,
{
    if n == 0 {
        Seq::empty()
    } else {
        let before = settled_items_s(cs, sizes, (n - 1) as nat);
        if no_extent_s(cs[n - 1], sizes_s(sizes, n - 1)) {
            before.push(cs[n - 1].item)
        } else {
            before
        }
    }
}

fn no_extent(c: &RawCandidate, sizes: &Vec<VmlSize>) -> (r: bool)
    ensures
        r == no_extent_s(c@, sizes@),
{
    let mut j: usize = 0;
    while j < c.vml.len() && j < sizes.len()
        invariant
            j <= c.vml@.len(),
            j <= sizes@.len(),
            forall|k: int| 0 <= k < j ==> !((#[trigger] sizes@[k]).w > 0 && sizes@[k].h > 0),
        decreases c.vml@.len() - j,
    {
        if sizes[j].w > 0 && sizes[j].h > 0 {
            return false;
        }
        j = j + 1;
    }
    true
}

/// Decide the candidates once their VML pictures are measured: a run whose pictures have an
/// extent is an ordinary picture run and is not captured.
pub fn settle_passthrough(cs: &Vec<RawCandidate>, sizes: &Vec<Vec<VmlSize>>) -> (r: Vec<RawItem>)
    ensures
        raw_item_vs(r@) == settled_items_s(raw_candidate_vs(cs@), sizes@, cs@.len()),
{
    let ghost v = raw_candidate_vs(cs@);
    let none: Vec<VmlSize> = Vec::new();
    let mut out: Vec<RawItem> = Vec::new();
    let mut i: usize = 0;
    assert(raw_item_vs(out@) =~= Seq::empty());
    while i < cs.len()
        invariant
            i <= cs@.len(),
            v == raw_candidate_vs(cs@),
            none@ == Seq::<VmlSize>::empty(),
            raw_item_vs(out@) == settled_items_s(v, sizes@, i as nat),
        decreases cs@.len() - i,
    {
        assert(v[i as int] == cs@[i as int]@);
        let keep = if i < sizes.len() {
            no_extent(&cs[i], &sizes[i])
        } else {
            no_extent(&cs[i], &none)
        };
        if keep {
            let ghost was = out@;
            out.push(cs[i].item.clone());
            assert(raw_item_vs(out@) =~= raw_item_vs(was).push(v[i as int].item));
        }
        i = i + 1;
    }
    out
}

// ---------------------------------------------------------------- block wrappers

/// A block-level wrapper: the verbatim opening, and the body blocks that it encloses.
#[derive(Debug, PartialEq, Eq)]
pub struct BlockWrap {
    /// Capture order; an outer wrapper has a lower id.
    pub id: u64,
    pub prefix: String,
    pub start_block: usize,
    pub end_block: usize,
}

/// The mathematical value of a [`BlockWrap`].
#[verifier::ext_equal]
pub struct BlockWrapV {
    pub id: u64,
    pub prefix: Seq<char>,
    pub start_block: usize,
    pub end_block: usize,
}

impl View for BlockWrap {
    type V = BlockWrapV;

    open spec fn view(&self) -> BlockWrapV {
        BlockWrapV {
            id: self.id,
            prefix: self.prefix@,
            start_block: self.start_block,
            end_block: self.end_block,
        }
    }
}

pub open spec fn block_wrap_vs(s: Seq<BlockWrap>) -> Seq<BlockWrapV> {
    Seq::new(s.len(), |i: int| s[i]@)
}

impl Clone for BlockWrap {
    fn clone(&self) -> (r: Self)
        ensures
            r@ == self@,
    {
        BlockWrap {
            id: self.id,
            prefix: self.prefix.clone(),
            start_block: self.start_block,
            end_block: self.end_block,
        }
    }
}

/// A wrapper whose end has not been met.
#[derive(Debug, PartialEq, Eq)]
pub struct PendingWrap {
    pub id: u64,
    pub start_byte: usize,
    pub prefix: Option<String>,
    pub start_block: Option<usize>,
    pub end_block: Option<usize>,
}

/// The mathematical value of a [`PendingWrap`].
#[verifier::ext_equal]
pub struct PendingWrapV {
    pub id: u64,
    pub start_byte: usize,
    pub prefix: Option<Seq<char>>,
    pub start_block: Option<usize>,
    pub end_block: Option<usize>,
}

impl View for PendingWrap {
    type V = PendingWrapV;

    open spec fn view(&self) -> PendingWrapV {
        PendingWrapV {
            id: self.id,
            start_byte: self.start_byte,
            prefix: strs::opt_s(self.prefix),
            start_block: self.start_block,
            end_block: self.end_block,
        }
    }
}

pub open spec fn pending_wrap_vs(s: Seq<PendingWrap>) -> Seq<PendingWrapV> {
    Seq::new(s.len(), |i: int| s[i]@)
}

impl Clone for PendingWrap {
    fn clone(&self) -> (r: Self)
        ensures
            r@ == self@,
    {
        PendingWrap {
            id: self.id,
            start_byte: self.start_byte,
            prefix: opt_clone(&self.prefix),
            start_block: self.start_block,
            end_block: self.end_block,
        }
    }
}

/// What scanning a body part for block wrappers has gathered.
pub struct WrapReader {
    pub out: Vec<BlockWrap>,
    pub stack: Vec<PendingWrap>,
    pub next_id: u64,
    /// Body blocks closed so far.
    pub blk: usize,
    pub tbl: usize,
    pub txbx: usize,
    pub in_para: bool,
}

/// The mathematical value of a [`WrapReader`].
#[verifier::ext_equal]
pub struct WrapReaderV {
    pub out: Seq<BlockWrapV>,
    pub stack: Seq<PendingWrapV>,
    pub next_id: u64,
    pub blk: usize,
    pub tbl: int,
    pub txbx: int,
    pub in_para: bool,
}

impl View for WrapReader {
    type V = WrapReaderV;

    open spec fn view(&self) -> WrapReaderV {
        WrapReaderV {
            out: block_wrap_vs(self.out@),
            stack: pending_wrap_vs(self.stack@),
            next_id: self.next_id,
            blk: self.blk,
            tbl: self.tbl as int,
            txbx: self.txbx as int,
            in_para: self.in_para,
        }
    }
}

impl WrapReaderV {
    pub open spec fn initial() -> WrapReaderV {
        WrapReaderV {
            out: Seq::empty(),
            stack: Seq::empty(),
            next_id: 0,
            blk: 0,
            tbl: 0,
            txbx: 0,
            in_para: false,
        }
    }
}

pub open spec fn is_wrapper_s(n: Seq<char>) -> bool {
    n == "w:sdt"@ || n == "w:customXml"@
}

/// The range markers, which the model re-emits at their own anchors.
pub open spec fn is_range_marker_s(n: Seq<char>) -> bool {
    n == "w:bookmarkStart"@ || n == "w:bookmarkEnd"@ || n == "w:commentRangeStart"@ || n == "w:commentRangeEnd"@ || n == "w:moveFromRangeStart"@ || n == "w:moveFromRangeEnd"@ || n == "w:moveToRangeStart"@ || n == "w:moveToRangeEnd"@
}

fn is_range_marker(n: &str) -> (r: bool)
    ensures
        r == is_range_marker_s(n@),
{
    str_eq(n, "w:bookmarkStart") || str_eq(n, "w:bookmarkEnd") || str_eq(n, "w:commentRangeStart") || str_eq(n, "w:commentRangeEnd") || str_eq(n, "w:moveFromRangeStart") || str_eq(n, "w:moveFromRangeEnd") || str_eq(n, "w:moveToRangeStart") || str_eq(n, "w:moveToRangeEnd")
}

/// Between paragraphs, outside any table or text box.
pub open spec fn at_body_level_s(s: WrapReaderV) -> bool {
    s.tbl == 0 && s.txbx == 0 && !s.in_para
}

/// The innermost wrapper with its opening closed at byte `at`, unless it is closed already.
pub open spec fn prefix_closed_s(s: WrapReaderV, xml: Seq<u8>, at: int) -> WrapReaderV {
    if s.stack.len() > 0 && s.stack.last().prefix is None {
        let top = s.stack.last();
        match events::utf8_s(events::bytes_s(xml, top.start_byte as int, at)) {
            Some(text) => WrapReaderV {
                stack: s.stack.drop_last().push(PendingWrapV { prefix: Some(text), ..top }),
                ..s
            },
            None => s,
        }
    } else {
        s
    }
}

/// What an opening tag does: block content closes the opening of the wrapper around it.
pub open spec fn wrap_start_s(s: WrapReaderV, xml: Seq<u8>, t: XmlTagV, at: int) -> WrapReaderV {
    let n = t.name;
    let level = at_body_level_s(s);
    let p = if level && (n == "w:p"@ || n == "w:tbl"@ || is_wrapper_s(n) || is_range_marker_s(n)) {
        prefix_closed_s(s, xml, at)
    } else {
        s
    };
    if is_wrapper_s(n) && level {
        WrapReaderV {
            stack: p.stack.push(
                PendingWrapV {
                    id: p.next_id,
                    start_byte: at as usize,
                    prefix: None,
                    start_block: None,
                    end_block: None,
                },
            ),
            next_id: (p.next_id + 1) as u64,
            ..p
        }
    } else if n == "w:p"@ && p.tbl == 0 && p.txbx == 0 {
        WrapReaderV { in_para: true, ..p }
    } else if n == "w:tbl"@ {
        WrapReaderV { tbl: p.tbl + 1, ..p }
    } else if n == "w:txbxContent"@ {
        WrapReaderV { txbx: p.txbx + 1, ..p }
    } else {
        p
    }
}

/// What a self-closing tag does; a paragraph without content is a body block as any other.
pub open spec fn wrap_empty_s(s: WrapReaderV, xml: Seq<u8>, t: XmlTagV, at: int) -> WrapReaderV {
    let n = t.name;
    let p = if at_body_level_s(s) && (n == "w:p"@ || is_range_marker_s(n)) {
        prefix_closed_s(s, xml, at)
    } else {
        s
    };
    if n == "w:p"@ && p.tbl == 0 && p.txbx == 0 {
        block_closed_s(WrapReaderV { in_para: false, ..p })
    } else {
        p
    }
}

/// The wrapper with one more block inside.
pub open spec fn enclosing_s(w: PendingWrapV, blk: usize) -> PendingWrapV {
    PendingWrapV {
        start_block: match w.start_block {
            Some(b) => Some(b),
            None => Some(blk),
        },
        end_block: Some(blk),
        ..w
    }
}

/// What the end of a body block does: every open wrapper encloses it.
pub open spec fn block_closed_s(s: WrapReaderV) -> WrapReaderV {
    WrapReaderV {
        stack: Seq::new(s.stack.len(), |i: int| enclosing_s(s.stack[i], s.blk)),
        blk: (s.blk + 1) as usize,
        ..s
    }
}

/// What the end of a wrapper does: one with an opening and a block inside is kept.
pub open spec fn wrapper_closed_s(s: WrapReaderV) -> WrapReaderV {
    if s.stack.len() > 0 {
        let w = s.stack.last();
        WrapReaderV {
            stack: s.stack.drop_last(),
            out: match (w.prefix, w.start_block, w.end_block) {
                (Some(prefix), Some(start_block), Some(end_block)) => s.out.push(
                    BlockWrapV { id: w.id, prefix, start_block, end_block },
                ),
                _ => s.out,
            },
            ..s
        }
    } else {
        s
    }
}

/// What a closing tag does.
pub open spec fn wrap_end_s(s: WrapReaderV, n: Seq<char>) -> WrapReaderV {
    if n == "w:txbxContent"@ {
        WrapReaderV { txbx: drawings::shallower_s(s.txbx), ..s }
    } else if n == "w:p"@ && s.tbl == 0 && s.txbx == 0 {
        block_closed_s(WrapReaderV { in_para: false, ..s })
    } else if n == "w:tbl"@ {
        let t = WrapReaderV { tbl: drawings::shallower_s(s.tbl), ..s };
        if t.tbl == 0 && t.txbx == 0 {
            block_closed_s(t)
        } else {
            t
        }
    } else if is_wrapper_s(n) && at_body_level_s(s) {
        wrapper_closed_s(s)
    } else {
        s
    }
}

pub open spec fn wraps_run_s(xml: Seq<u8>, steps: Seq<XmlStepV>, n: int) -> WrapReaderV
    decreases n,
{
    if n <= 0 {
        WrapReaderV::initial()
    } else {
        let s = wraps_run_s(xml, steps, n - 1);
        let x = steps[n - 1];
        match x.event {
            XmlEventV::Start(t) => wrap_start_s(s, xml, t, x.start),
            XmlEventV::Empty(t) => wrap_empty_s(s, xml, t, x.start),
            XmlEventV::End(name) => wrap_end_s(s, name),
            _ => s,
        }
    }
}

/// The block wrappers of a body part.
pub open spec fn wraps_s(xml: Seq<u8>, steps: Seq<XmlStepV>) -> Seq<BlockWrapV> {
    wraps_run_s(xml, steps, events::readable_s(steps, 0)).out
}

impl WrapReader {
    /// The counters stay below the number of steps taken.
    spec fn bounded(self, i: nat) -> bool {
        self.blk <= i && self.txbx <= i && self.tbl <= i && self.next_id <= i
    }

    fn new() -> (r: Self)
        ensures
            r@ == WrapReaderV::initial(),
            r.bounded(0),
    {
        let r = WrapReader {
            out: Vec::new(),
            stack: Vec::new(),
            next_id: 0,
            blk: 0,
            tbl: 0,
            txbx: 0,
            in_para: false,
        };
        assert(r@ =~= WrapReaderV::initial());
        r
    }

    fn close_prefix(&mut self, xml: &[u8], at: usize)
        ensures
            final(self)@ == prefix_closed_s(old(self)@, xml@, at as int),
            final(self).blk == old(self).blk,
            final(self).txbx == old(self).txbx,
            final(self).tbl == old(self).tbl,
            final(self).next_id == old(self).next_id,
    {
        let n = self.stack.len();
        if n > 0 {
            assert(pending_wrap_vs(self.stack@).last() == self.stack@[n - 1]@);
            if self.stack[n - 1].prefix.is_none() {
                let start = self.stack[n - 1].start_byte;
                if let Some(text) = utf8(bytes(xml, start, at).as_slice()) {
                    let ghost was = self.stack@;
                    let mut top = self.stack[n - 1].clone();
                    top.prefix = Some(text);
                    let ghost tv = top@;
                    self.stack.set(n - 1, top);
                    assert(pending_wrap_vs(self.stack@) =~= pending_wrap_vs(was).drop_last().push(
                        tv,
                    ));
                }
            }
        }
    }

    fn start(&mut self, xml: &[u8], t: &XmlTag, at: usize, Ghost(i): Ghost<nat>)
        requires
            old(self).bounded(i),
            i < usize::MAX,
            i < u64::MAX,
        ensures
            final(self)@ == wrap_start_s(old(self)@, xml@, t@, at as int),
            final(self).bounded(i + 1),
    {
        let level = self.tbl == 0 && self.txbx == 0 && !self.in_para;
        let wrapper = is_tag(t, "w:sdt") || is_tag(t, "w:customXml");
        if level && (is_tag(t, "w:p") || is_tag(t, "w:tbl") || wrapper || is_range_marker(
            t.name.as_str(),
        )) {
            self.close_prefix(xml, at);
        }
        if wrapper && level {
            let ghost was = self.stack@;
            let w = PendingWrap {
                id: self.next_id,
                start_byte: at,
                prefix: None,
                start_block: None,
                end_block: None,
            };
            let ghost wv = w@;
            self.stack.push(w);
            self.next_id = self.next_id + 1;
            assert(pending_wrap_vs(self.stack@) =~= pending_wrap_vs(was).push(wv));
        } else if is_tag(t, "w:p") && self.tbl == 0 && self.txbx == 0 {
            self.in_para = true;
        } else if is_tag(t, "w:tbl") {
            self.tbl = self.tbl + 1;
        } else if is_tag(t, "w:txbxContent") {
            self.txbx = self.txbx + 1;
        }
    }

    fn close_block(&mut self, Ghost(i): Ghost<nat>)
        requires
            old(self).bounded(i),
            i < usize::MAX,
        ensures
            final(self)@ == block_closed_s(old(self)@),
            final(self).bounded(i + 1),
    {
        let ghost was = pending_wrap_vs(self.stack@);
        let ghost s0 = self@;
        let blk = self.blk;
        let mut out: Vec<PendingWrap> = Vec::new();
        let mut k: usize = 0;
        while k < self.stack.len()
            invariant
                k <= self.stack@.len(),
                was == pending_wrap_vs(self.stack@),
                out@.len() == k,
                forall|j: int| 0 <= j < k ==> (#[trigger] out@[j])@ == enclosing_s(was[j], blk),
            decreases self.stack@.len() - k,
        {
            assert(was[k as int] == self.stack@[k as int]@);
            let mut w = self.stack[k].clone();
            if w.start_block.is_none() {
                w.start_block = Some(blk);
            }
            w.end_block = Some(blk);
            out.push(w);
            k = k + 1;
        }
        assert(pending_wrap_vs(out@) =~= block_closed_s(s0).stack);
        self.stack = out;
        self.blk = self.blk + 1;
    }

    fn empty(&mut self, xml: &[u8], t: &XmlTag, at: usize, Ghost(i): Ghost<nat>)
        requires
            old(self).bounded(i),
            i < usize::MAX,
        ensures
            final(self)@ == wrap_empty_s(old(self)@, xml@, t@, at as int),
            final(self).bounded(i + 1),
    {
        if self.tbl == 0 && self.txbx == 0 {
            let para = is_tag(t, "w:p");
            if !self.in_para && (para || is_range_marker(t.name.as_str())) {
                self.close_prefix(xml, at);
            }
            if para {
                self.in_para = false;
                self.close_block(Ghost(i));
            }
        }
    }

    fn close_wrapper(&mut self)
        ensures
            final(self)@ == wrapper_closed_s(old(self)@),
            final(self).blk == old(self).blk,
            final(self).txbx == old(self).txbx,
            final(self).tbl == old(self).tbl,
            final(self).next_id == old(self).next_id,
    {
        let ghost was = self.stack@;
        if let Some(w) = self.stack.pop() {
            assert(pending_wrap_vs(was).last() == w@);
            assert(pending_wrap_vs(self.stack@) =~= pending_wrap_vs(was).drop_last());
            if let Some(prefix) = w.prefix {
                if let Some(start_block) = w.start_block {
                    if let Some(end_block) = w.end_block {
                        let ghost o = self.out@;
                        let b = BlockWrap { id: w.id, prefix, start_block, end_block };
                        let ghost bv = b@;
                        self.out.push(b);
                        assert(block_wrap_vs(self.out@) =~= block_wrap_vs(o).push(bv));
                    }
                }
            }
        }
    }

    fn end(&mut self, n: &str, Ghost(i): Ghost<nat>)
        requires
            old(self).bounded(i),
            i < usize::MAX,
        ensures
            final(self)@ == wrap_end_s(old(self)@, n@),
            final(self).bounded(i + 1),
    {
        if str_eq(n, "w:txbxContent") {
            if self.txbx > 0 {
                self.txbx = self.txbx - 1;
            }
        } else if str_eq(n, "w:p") && self.tbl == 0 && self.txbx == 0 {
            self.in_para = false;
            self.close_block(Ghost(i));
        } else if str_eq(n, "w:tbl") {
            if self.tbl > 0 {
                self.tbl = self.tbl - 1;
            }
            if self.tbl == 0 && self.txbx == 0 {
                self.close_block(Ghost(i));
            }
        } else if (str_eq(n, "w:sdt") || str_eq(n, "w:customXml")) && self.tbl == 0 && self.txbx
            == 0 && !self.in_para {
            self.close_wrapper();
        }
    }
}

/// The block wrappers of a tokenized body part, sliced from its bytes.
pub fn wraps_of(xml: &[u8], steps: &Vec<XmlStep>) -> (r: Vec<BlockWrap>)
    ensures
        block_wrap_vs(r@) == wraps_s(xml@, events::xml_step_vs(steps@)),
{
    let n = readable(steps);
    let ghost v = events::xml_step_vs(steps@);
    let mut s = WrapReader::new();
    let mut i: usize = 0;
    while i < n
        invariant
            i <= n <= steps@.len(),
            v == events::xml_step_vs(steps@),
            s@ == wraps_run_s(xml@, v, i as int),
            s.bounded(i as nat),
        decreases n - i,
    {
        assert(v[i as int] == steps@[i as int]@);
        let x = &steps[i];
        match &x.event {
            XmlEvent::Start(t) => s.start(xml, t, x.start, Ghost(i as nat)),
            XmlEvent::Empty(t) => s.empty(xml, t, x.start, Ghost(i as nat)),
            XmlEvent::End(name) => s.end(name.as_str(), Ghost(i as nat)),
            _ => {},
        }
        i = i + 1;
    }
    s.out
}

/// Scan a body part for block-level content controls and custom-XML wrappers: each opening
/// verbatim, and the range of body blocks it encloses.
pub fn parse_block_wraps(xml: &[u8]) -> (r: Vec<BlockWrap>)
    ensures
        block_wrap_vs(r@) == ({
            let body = events::strip_bom_s(xml@);
            wraps_s(body, events::doc_s(body))
        }),
{
    let body = strip_bom(xml);
    wraps_of(body, &read_xml(body))
}

} // verus!
