//! Anchored text boxes (`wp:anchor` holding a `w:txbxContent`).
//!
//! Finds text boxes in a body part and reports their text, first-run formatting, vertical flow
//! and anchor geometry.

use vstd::prelude::*;
use crate::drawings;
use crate::drawings::{passed_over, skip_step, Skip, SkipV};
use crate::events;
use crate::events::{
    attr, attr_i64, attr_u32, is_tag, or_else, or_empty, read_xml, XmlEvent, XmlEventV, XmlStep,
    XmlStepV, XmlTag, XmlTagV,
};
use crate::search;
use crate::search::trim;
use crate::strs;
use crate::strs::{opt_clone, opt_is, parse_sint, str_eq};
use crate::style_parse;
use crate::style_parse::unless;

verus! {

broadcast use vstd::string::group_string_axioms;

/// An anchored text box: its plain text, the first run's formatting, the vertical flow, and the
/// anchor geometry in EMU.
#[derive(Debug, PartialEq, Eq)]
pub struct TextBoxInfo {
    pub text: String,
    /// First font seen in the box.
    pub font: Option<String>,
    /// First size seen in the box, 0 if none.
    pub size_half_points: u32,
    /// First colour seen in the box.
    pub color: Option<String>,
    /// 0 horizontal, 1 top to bottom, 2 bottom to top.
    pub vert: u8,
    pub x_emu: i64,
    pub y_emu: i64,
    pub w_emu: i64,
    pub h_emu: i64,
    pub h_from: String,
    pub v_from: String,
    /// Index of the body paragraph that carries the anchor.
    pub para_index: usize,
}

/// The mathematical value of a [`TextBoxInfo`].
#[verifier::ext_equal]
pub struct TextBoxInfoV {
    pub text: Seq<char>,
    pub font: Option<Seq<char>>,
    pub size_half_points: u32,
    pub color: Option<Seq<char>>,
    pub vert: u8,
    pub x_emu: i64,
    pub y_emu: i64,
    pub w_emu: i64,
    pub h_emu: i64,
    pub h_from: Seq<char>,
    pub v_from: Seq<char>,
    pub para_index: usize,
}

impl View for TextBoxInfo {
    type V = TextBoxInfoV;

    open spec fn view(&self) -> TextBoxInfoV {
        TextBoxInfoV {
            text: self.text@,
            font: strs::opt_s(self.font),
            size_half_points: self.size_half_points,
            color: strs::opt_s(self.color),
            vert: self.vert,
            x_emu: self.x_emu,
            y_emu: self.y_emu,
            w_emu: self.w_emu,
            h_emu: self.h_emu,
            h_from: self.h_from@,
            v_from: self.v_from@,
            para_index: self.para_index,
        }
    }
}

pub open spec fn text_box_info_ov(o: Option<TextBoxInfo>) -> Option<TextBoxInfoV> {
    match o {
        Some(x) => Some(x@),
        None => None,
    }
}

pub open spec fn text_box_info_vs(s: Seq<TextBoxInfo>) -> Seq<TextBoxInfoV> {
    Seq::new(s.len(), |i: int| s[i]@)
}

impl Clone for TextBoxInfo {
    fn clone(&self) -> (r: Self)
        ensures
            r@ == self@,
    {
        TextBoxInfo {
            text: self.text.clone(),
            font: opt_clone(&self.font),
            size_half_points: self.size_half_points,
            color: opt_clone(&self.color),
            vert: self.vert,
            x_emu: self.x_emu,
            y_emu: self.y_emu,
            w_emu: self.w_emu,
            h_emu: self.h_emu,
            h_from: self.h_from.clone(),
            v_from: self.v_from.clone(),
            para_index: self.para_index,
        }
    }
}

impl TextBoxInfoV {
    /// The value with nothing set.
    pub open spec fn initial() -> TextBoxInfoV {
        TextBoxInfoV {
            text: Seq::empty(),
            font: None,
            size_half_points: 0,
            color: None,
            vert: 0,
            x_emu: 0,
            y_emu: 0,
            w_emu: 0,
            h_emu: 0,
            h_from: Seq::empty(),
            v_from: Seq::empty(),
            para_index: 0,
        }
    }
}

impl Default for TextBoxInfo {
    fn default() -> (r: Self)
        ensures
            r@ == TextBoxInfoV::initial(),
    {
        TextBoxInfo {
            text: String::new(),
            font: None,
            size_half_points: 0,
            color: None,
            vert: 0,
            x_emu: 0,
            y_emu: 0,
            w_emu: 0,
            h_emu: 0,
            h_from: String::new(),
            v_from: String::new(),
            para_index: 0,
        }
    }
}

/// What scanning a body part for text boxes has gathered.
pub struct BoxReader {
    pub out: Vec<TextBoxInfo>,
    /// The anchor being read.
    pub cur: Option<TextBoxInfo>,
    pub txbx: usize,
    pub para_index: usize,
    pub in_posh: bool,
    pub in_posv: bool,
    pub in_offset: bool,
    pub in_text: bool,
    pub in_instr: bool,
    /// The subtree being passed over.
    pub skip: Option<Skip>,
    /// A step has failed.
    pub stopped: bool,
}

/// The mathematical value of a [`BoxReader`].
#[verifier::ext_equal]
pub struct BoxReaderV {
    pub out: Seq<TextBoxInfoV>,
    pub cur: Option<TextBoxInfoV>,
    pub txbx: int,
    pub para_index: usize,
    pub in_posh: bool,
    pub in_posv: bool,
    pub in_offset: bool,
    pub in_text: bool,
    pub in_instr: bool,
    pub skip: Option<SkipV>,
    pub stopped: bool,
}

impl View for BoxReader {
    type V = BoxReaderV;

    open spec fn view(&self) -> BoxReaderV {
        BoxReaderV {
            out: text_box_info_vs(self.out@),
            cur: text_box_info_ov(self.cur),
            txbx: self.txbx as int,
            para_index: self.para_index,
            in_posh: self.in_posh,
            in_posv: self.in_posv,
            in_offset: self.in_offset,
            in_text: self.in_text,
            in_instr: self.in_instr,
            skip: drawings::skip_ov(self.skip),
            stopped: self.stopped,
        }
    }
}

impl BoxReaderV {
    pub open spec fn initial() -> BoxReaderV {
        BoxReaderV {
            out: Seq::empty(),
            cur: None,
            txbx: 0,
            para_index: 0,
            in_posh: false,
            in_posv: false,
            in_offset: false,
            in_text: false,
            in_instr: false,
            skip: None,
            stopped: false,
        }
    }
}

/// The vertical flow that a shape's body properties name.
pub open spec fn vert_s(v: Option<Seq<char>>) -> u8 {
    if v == Some("vert"@) {
        1
    } else if v == Some("vert270"@) {
        2
    } else {
        0
    }
}

/// The box with what a tag states of it: extent and flow anywhere in the anchor, and inside the
/// box the first size, font and colour.
pub open spec fn box_tag_s(c: TextBoxInfoV, t: XmlTagV, inside: bool) -> TextBoxInfoV {
    let n = t.name;
    if n == "wp:extent"@ {
        TextBoxInfoV {
            w_emu: events::or_s(events::attr_i64_s(t, "cx"@), 0),
            h_emu: events::or_s(events::attr_i64_s(t, "cy"@), 0),
            ..c
        }
    } else if n == "wps:bodyPr"@ {
        TextBoxInfoV { vert: vert_s(events::attr_s(t, "vert"@)), ..c }
    } else if n == "w:sz"@ && inside && c.size_half_points == 0 {
        TextBoxInfoV { size_half_points: events::or_s(events::attr_u32_s(t, "w:val"@), 0), ..c }
    } else if n == "w:rFonts"@ && inside && c.font is None {
        TextBoxInfoV { font: events::attr_s(t, "w:ascii"@), ..c }
    } else if n == "w:color"@ && inside && c.color is None {
        TextBoxInfoV {
            color: style_parse::unless_s(events::attr_s(t, "w:val"@), "auto"@),
            ..c
        }
    } else {
        c
    }
}

/// What an opening or self-closing tag does.
pub open spec fn boxes_tag_s(s: BoxReaderV, t: XmlTagV) -> BoxReaderV {
    let n = t.name;
    if n == "wp:anchor"@ {
        BoxReaderV {
            cur: Some(TextBoxInfoV { para_index: s.para_index, ..TextBoxInfoV::initial() }),
            ..s
        }
    } else if n == "wp:positionH"@ {
        BoxReaderV {
            in_posh: true,
            cur: match s.cur {
                Some(c) => Some(
                    TextBoxInfoV {
                        h_from: events::or_empty_s(events::attr_s(t, "relativeFrom"@)),
                        ..c
                    },
                ),
                None => None,
            },
            ..s
        }
    } else if n == "wp:positionV"@ {
        BoxReaderV {
            in_posv: true,
            cur: match s.cur {
                Some(c) => Some(
                    TextBoxInfoV {
                        v_from: events::or_empty_s(events::attr_s(t, "relativeFrom"@)),
                        ..c
                    },
                ),
                None => None,
            },
            ..s
        }
    } else if n == "wp:posOffset"@ {
        BoxReaderV { in_offset: true, ..s }
    } else if n == "w:txbxContent"@ {
        BoxReaderV { txbx: s.txbx + 1, ..s }
    } else if n == "w:t"@ && s.txbx > 0 {
        BoxReaderV { in_text: true, ..s }
    } else if n == "w:instrText"@ {
        BoxReaderV { in_instr: true, ..s }
    } else {
        BoxReaderV {
            cur: match s.cur {
                Some(c) => Some(box_tag_s(c, t, s.txbx > 0)),
                None => None,
            },
            ..s
        }
    }
}

/// What a text does: an offset, or text of the box.
pub open spec fn boxes_text_s(s: BoxReaderV, x: Option<Seq<char>>) -> BoxReaderV {
    match (s.cur, x) {
        (Some(c), Some(text)) => if s.in_offset {
            let v = match strs::parse_int_s(
                search::trim_s(text),
                i64::MIN as int,
                i64::MAX as int,
            ) {
                Some(v) => v as i64,
                None => 0,
            };
            if s.in_posh {
                BoxReaderV { cur: Some(TextBoxInfoV { x_emu: v, ..c }), ..s }
            } else if s.in_posv {
                BoxReaderV { cur: Some(TextBoxInfoV { y_emu: v, ..c }), ..s }
            } else {
                s
            }
        } else if s.in_text && !s.in_instr {
            BoxReaderV { cur: Some(TextBoxInfoV { text: c.text + text, ..c }), ..s }
        } else {
            s
        },
        _ => s,
    }
}

/// What a reference does: text of the box.
pub open spec fn boxes_ref_s(s: BoxReaderV, x: Option<Seq<char>>) -> BoxReaderV {
    match (s.cur, x) {
        (Some(c), Some(text)) => if s.in_text && !s.in_instr {
            BoxReaderV { cur: Some(TextBoxInfoV { text: c.text + text, ..c }), ..s }
        } else {
            s
        },
        _ => s,
    }
}

/// What a closing tag does; an anchor whose box holds no text is no text box.
pub open spec fn boxes_end_s(s: BoxReaderV, n: Seq<char>) -> BoxReaderV {
    if n == "wp:positionH"@ {
        BoxReaderV { in_posh: false, ..s }
    } else if n == "wp:positionV"@ {
        BoxReaderV { in_posv: false, ..s }
    } else if n == "wp:posOffset"@ {
        BoxReaderV { in_offset: false, ..s }
    } else if n == "w:t"@ {
        BoxReaderV { in_text: false, ..s }
    } else if n == "w:instrText"@ {
        BoxReaderV { in_instr: false, ..s }
    } else if n == "w:txbxContent"@ {
        BoxReaderV { txbx: drawings::shallower_s(s.txbx), ..s }
    } else if n == "w:p"@ && s.txbx == 0 {
        BoxReaderV { para_index: (s.para_index + 1) as usize, ..s }
    } else if n == "wp:anchor"@ {
        BoxReaderV {
            out: match s.cur {
                Some(c) => if search::trim_s(c.text).len() > 0 {
                    s.out.push(c)
                } else {
                    s.out
                },
                None => s.out,
            },
            cur: None,
            ..s
        }
    } else {
        s
    }
}

/// What a self-closing tag does; a paragraph of the body flow may be one.
pub open spec fn boxes_empty_s(s: BoxReaderV, t: XmlTagV) -> BoxReaderV {
    if t.name == "w:p"@ {
        boxes_end_s(s, t.name)
    } else {
        boxes_tag_s(s, t)
    }
}

pub open spec fn boxes_step_s(s: BoxReaderV, e: XmlEventV) -> BoxReaderV {
    if s.stopped {
        s
    } else {
        match s.skip {
            Some(k) => BoxReaderV { skip: drawings::skip_step_s(k, e), ..s },
            None => match e {
                XmlEventV::Error => BoxReaderV { stopped: true, ..s },
                XmlEventV::Start(t) => if drawings::passed_over_s(t.name) {
                    BoxReaderV { skip: Some(SkipV { name: t.name, depth: 0 }), ..s }
                } else {
                    boxes_tag_s(s, t)
                },
                XmlEventV::Empty(t) => boxes_empty_s(s, t),
                XmlEventV::Text(x) => boxes_text_s(s, x),
                XmlEventV::Ref(x) => boxes_ref_s(s, x),
                XmlEventV::End(n) => boxes_end_s(s, n),
                _ => s,
            },
        }
    }
}

pub open spec fn boxes_run_s(steps: Seq<XmlStepV>, n: int) -> BoxReaderV
    decreases n,
{
    if n <= 0 {
        BoxReaderV::initial()
    } else {
        boxes_step_s(boxes_run_s(steps, n - 1), steps[n - 1].event)
    }
}

/// The anchored text boxes of a body part.
pub open spec fn boxes_s(steps: Seq<XmlStepV>) -> Seq<TextBoxInfoV> {
    boxes_run_s(steps, steps.len() as int).out
}

fn vert(v: &Option<String>) -> (r: u8)
    ensures
        r == vert_s(strs::opt_s(*v)),
{
    if opt_is(v, "vert") {
        1
    } else if opt_is(v, "vert270") {
        2
    } else {
        0
    }
}

fn box_tag(c: &mut TextBoxInfo, t: &XmlTag, inside: bool)
    ensures
        final(c)@ == box_tag_s(old(c)@, t@, inside),
{
    if is_tag(t, "wp:extent") {
        c.w_emu = or_else(attr_i64(t, "cx"), 0);
        c.h_emu = or_else(attr_i64(t, "cy"), 0);
    } else if is_tag(t, "wps:bodyPr") {
        c.vert = vert(&attr(t, "vert"));
    } else if is_tag(t, "w:sz") && inside && c.size_half_points == 0 {
        c.size_half_points = or_else(attr_u32(t, "w:val"), 0);
    } else if is_tag(t, "w:rFonts") && inside && c.font.is_none() {
        c.font = attr(t, "w:ascii");
    } else if is_tag(t, "w:color") && inside && c.color.is_none() {
        c.color = unless(attr(t, "w:val"), "auto");
    }
}

impl BoxReader {
    /// The counters stay below the number of steps taken.
    spec fn bounded(self, i: nat) -> bool {
        &&& self.para_index <= i
        &&& self.txbx <= i
        &&& self.skip matches Some(k) ==> k.depth <= i
    }

    fn new() -> (r: Self)
        ensures
            r@ == BoxReaderV::initial(),
            r.bounded(0),
    {
        let r = BoxReader {
            out: Vec::new(),
            cur: None,
            txbx: 0,
            para_index: 0,
            in_posh: false,
            in_posv: false,
            in_offset: false,
            in_text: false,
            in_instr: false,
            skip: None,
            stopped: false,
        };
        assert(r@ =~= BoxReaderV::initial());
        r
    }

    fn tag(&mut self, t: &XmlTag, Ghost(i): Ghost<nat>)
        requires
            old(self).bounded(i),
            i < usize::MAX,
        ensures
            final(self)@ == boxes_tag_s(old(self)@, t@),
            final(self).bounded(i + 1),
    {
        if is_tag(t, "wp:anchor") {
            let mut c = TextBoxInfo::default();
            c.para_index = self.para_index;
            self.cur = Some(c);
        } else if is_tag(t, "wp:positionH") {
            self.in_posh = true;
            if let Some(mut c) = self.cur.take() {
                c.h_from = or_empty(attr(t, "relativeFrom"));
                self.cur = Some(c);
            }
        } else if is_tag(t, "wp:positionV") {
            self.in_posv = true;
            if let Some(mut c) = self.cur.take() {
                c.v_from = or_empty(attr(t, "relativeFrom"));
                self.cur = Some(c);
            }
        } else if is_tag(t, "wp:posOffset") {
            self.in_offset = true;
        } else if is_tag(t, "w:txbxContent") {
            self.txbx = self.txbx + 1;
        } else if is_tag(t, "w:t") && self.txbx > 0 {
            self.in_text = true;
        } else if is_tag(t, "w:instrText") {
            self.in_instr = true;
        } else {
            if let Some(mut c) = self.cur.take() {
                box_tag(&mut c, t, self.txbx > 0);
                self.cur = Some(c);
            }
        }
    }

    fn text(&mut self, x: &Option<String>)
        ensures
            final(self)@ == boxes_text_s(old(self)@, strs::opt_s(*x)),
            final(self).para_index == old(self).para_index,
            final(self).txbx == old(self).txbx,
            final(self).skip == old(self).skip,
    {
        if let Some(text) = x {
            if let Some(mut c) = self.cur.take() {
                if self.in_offset {
                    let v: i64 = match parse_sint(
                        trim(text.as_str()).as_str(),
                        i64::MIN,
                        i64::MAX,
                    ) {
                        Some(v) => v,
                        None => 0,
                    };
                    if self.in_posh {
                        c.x_emu = v;
                    } else if self.in_posv {
                        c.y_emu = v;
                    }
                } else if self.in_text && !self.in_instr {
                    c.text.append(text.as_str());
                }
                self.cur = Some(c);
            }
        }
    }

    fn reference(&mut self, x: &Option<String>)
        ensures
            final(self)@ == boxes_ref_s(old(self)@, strs::opt_s(*x)),
            final(self).para_index == old(self).para_index,
            final(self).txbx == old(self).txbx,
            final(self).skip == old(self).skip,
    {
        if let Some(text) = x {
            if let Some(mut c) = self.cur.take() {
                if self.in_text && !self.in_instr {
                    c.text.append(text.as_str());
                }
                self.cur = Some(c);
            }
        }
    }

    fn end(&mut self, n: &str, Ghost(i): Ghost<nat>)
        requires
            old(self).bounded(i),
            i < usize::MAX,
        ensures
            final(self)@ == boxes_end_s(old(self)@, n@),
            final(self).bounded(i + 1),
    {
        if str_eq(n, "wp:positionH") {
            self.in_posh = false;
        } else if str_eq(n, "wp:positionV") {
            self.in_posv = false;
        } else if str_eq(n, "wp:posOffset") {
            self.in_offset = false;
        } else if str_eq(n, "w:t") {
            self.in_text = false;
        } else if str_eq(n, "w:instrText") {
            self.in_instr = false;
        } else if str_eq(n, "w:txbxContent") {
            if self.txbx > 0 {
                self.txbx = self.txbx - 1;
            }
        } else if str_eq(n, "w:p") && self.txbx == 0 {
            self.para_index = self.para_index + 1;
        } else if str_eq(n, "wp:anchor") {
            if let Some(c) = self.cur.take() {
                if trim(c.text.as_str()).as_str().unicode_len() > 0 {
                    let ghost was = self.out@;
                    let ghost cv = c@;
                    self.out.push(c);
                    assert(text_box_info_vs(self.out@) =~= text_box_info_vs(was).push(cv));
                }
            }
        }
    }

    fn step(&mut self, e: &XmlEvent, Ghost(i): Ghost<nat>)
        requires
            old(self).bounded(i),
            i < usize::MAX,
        ensures
            final(self)@ == boxes_step_s(old(self)@, e@),
            final(self).bounded(i + 1),
    {
        if !self.stopped {
            if let Some(k) = self.skip.take() {
                self.skip = skip_step(k, e);
            } else {
                match e {
                    XmlEvent::Error => {
                        self.stopped = true;
                    },
                    XmlEvent::Start(t) => {
                        if passed_over(t) {
                            self.skip = Some(Skip { name: t.name.clone(), depth: 0 });
                        } else {
                            self.tag(t, Ghost(i));
                        }
                    },
                    XmlEvent::Empty(t) => {
                        if is_tag(t, "w:p") {
                            self.end("w:p", Ghost(i));
                        } else {
                            self.tag(t, Ghost(i));
                        }
                    },
                    XmlEvent::Text(x) => self.text(x),
                    XmlEvent::Ref(x) => self.reference(x),
                    XmlEvent::End(n) => self.end(n.as_str(), Ghost(i)),
                    _ => {},
                }
            }
        }
    }
}

/// The anchored text boxes of a tokenized body part.
pub fn textboxes_of(steps: &Vec<XmlStep>) -> (r: Vec<TextBoxInfo>)
    ensures
        text_box_info_vs(r@) == boxes_s(events::xml_step_vs(steps@)),
{
    let ghost v = events::xml_step_vs(steps@);
    let mut s = BoxReader::new();
    let mut i: usize = 0;
    while i < steps.len()
        invariant
            i <= steps@.len(),
            v == events::xml_step_vs(steps@),
            s@ == boxes_run_s(v, i as int),
            s.bounded(i as nat),
        decreases steps@.len() - i,
    {
        assert(v[i as int] == steps@[i as int]@);
        s.step(&steps[i].event, Ghost(i as nat));
        i = i + 1;
    }
    s.out
}

/// Scan a body part for anchored text boxes that hold text.
pub fn parse_textboxes(xml: &[u8]) -> (r: Vec<TextBoxInfo>)
    ensures
        text_box_info_vs(r@) == boxes_s(events::doc_s(xml@)),
{
    textboxes_of(&read_xml(xml))
}

} // verus!
