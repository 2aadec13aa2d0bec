//! Reading a paragraph and its runs.

use vstd::prelude::*;
use crate::events;
use crate::events::{
    attr, attr_i32, attr_u16, attr_u32, attr_u64, is_tag, or_else, or_empty, toggle_on, u_on,
    XmlTag, XmlTagV,
};
use crate::search;
use crate::search::trim;
use crate::strs;
use crate::strs::{chars_of, opt_clone, opt_is, str_eq};
use crate::style_parse;
use crate::style_parse::{join, nonempty, pbdr_edge, tab_kind, unless};
use crate::types;
use crate::types::{
    clone_format_change_opt, clone_para_prop_change_opt, clone_run_vec, clone_track_opt, Align,
    FormatChange, FormatChangeV, LineRule, ParaPropChange, ParaPropChangeV, ParaProps, ParaPropsV,
    Paragraph, ParagraphV, Run, RunProps, RunPropsV, RunV, Track, TrackKind, TrackV,
    FIELD_NUMPAGES, FIELD_PAGE,
};
use crate::xml;
use crate::xml::xml_escape;

verus! {

broadcast use vstd::string::group_string_axioms;

/// The paragraph being read.
pub struct ParaReader {
    pub in_para: bool,
    pub style: Option<String>,
    pub props: ParaProps,
    /// The runs read so far; kept until the next paragraph opens.
    pub segs: Vec<Run>,
    pub prop_change: Option<ParaPropChange>,
    pub mark: Option<Track>,
    /// Inside the run properties of the paragraph mark.
    pub in_mark_rpr: bool,
    pub in_pbdr: bool,
    pub pbdr: Vec<String>,
    pub in_tabs: bool,
    pub saved_style: Option<String>,
    pub saved: Option<ParaProps>,
    pub author: String,
    pub date: String,
    pub id: u64,
}

/// The mathematical value of a [`ParaReader`].
#[verifier::ext_equal]
pub struct ParaReaderV {
    pub in_para: bool,
    pub style: Option<Seq<char>>,
    pub props: ParaPropsV,
    pub segs: Seq<RunV>,
    pub prop_change: Option<ParaPropChangeV>,
    pub mark: Option<TrackV>,
    pub in_mark_rpr: bool,
    pub in_pbdr: bool,
    pub pbdr: Seq<Seq<char>>,
    pub in_tabs: bool,
    pub saved_style: Option<Seq<char>>,
    pub saved: Option<ParaPropsV>,
    pub author: Seq<char>,
    pub date: Seq<char>,
    pub id: u64,
}

impl View for ParaReader {
    type V = ParaReaderV;

    open spec fn view(&self) -> ParaReaderV {
        ParaReaderV {
            in_para: self.in_para,
            style: strs::opt_s(self.style),
            props: self.props@,
            segs: types::run_vs(self.segs@),
            prop_change: types::para_prop_change_ov(self.prop_change),
            mark: types::track_ov(self.mark),
            in_mark_rpr: self.in_mark_rpr,
            in_pbdr: self.in_pbdr,
            pbdr: search::texts_s(self.pbdr@),
            in_tabs: self.in_tabs,
            saved_style: strs::opt_s(self.saved_style),
            saved: types::para_props_ov(self.saved),
            author: self.author@,
            date: self.date@,
            id: self.id,
        }
    }
}

/// The run being read, the revision around it, and the field it belongs to.
pub struct RunReader {
    pub in_run: bool,
    pub in_rpr: bool,
    /// The formatting of the open run; it has no text of its own.
    pub cur: Run,
    pub author: String,
    pub date: String,
    pub id: u64,
    pub saved: Option<RunProps>,
    pub track: Option<Track>,
    /// Whether the text being read is deleted text.
    pub del_text: bool,
    pub capturing: bool,
    pub text: String,
    pub field_active: bool,
    pub field_in_result: bool,
    pub field_char: Option<char>,
    /// How many result texts of a computed field were read.
    pub field_results: usize,
    pub capturing_instr: bool,
    pub instr: String,
}

/// The mathematical value of a [`RunReader`].
#[verifier::ext_equal]
pub struct RunReaderV {
    pub in_run: bool,
    pub in_rpr: bool,
    pub cur: RunV,
    pub author: Seq<char>,
    pub date: Seq<char>,
    pub id: u64,
    pub saved: Option<RunPropsV>,
    pub track: Option<TrackV>,
    pub del_text: bool,
    pub capturing: bool,
    pub text: Seq<char>,
    pub field_active: bool,
    pub field_in_result: bool,
    pub field_char: Option<char>,
    pub field_results: int,
    pub capturing_instr: bool,
    pub instr: Seq<char>,
}

impl View for RunReader {
    type V = RunReaderV;

    open spec fn view(&self) -> RunReaderV {
        RunReaderV {
            in_run: self.in_run,
            in_rpr: self.in_rpr,
            cur: self.cur@,
            author: self.author@,
            date: self.date@,
            id: self.id,
            saved: types::run_props_ov(self.saved),
            track: types::track_ov(self.track),
            del_text: self.del_text,
            capturing: self.capturing,
            text: self.text@,
            field_active: self.field_active,
            field_in_result: self.field_in_result,
            field_char: self.field_char,
            field_results: self.field_results as int,
            capturing_instr: self.capturing_instr,
            instr: self.instr@,
        }
    }
}

impl ParaReaderV {
    pub open spec fn initial() -> ParaReaderV {
        ParaReaderV {
            in_para: false,
            style: None,
            props: ParaPropsV::initial(),
            segs: Seq::empty(),
            prop_change: None,
            mark: None,
            in_mark_rpr: false,
            in_pbdr: false,
            pbdr: Seq::empty(),
            in_tabs: false,
            saved_style: None,
            saved: None,
            author: Seq::empty(),
            date: Seq::empty(),
            id: 0,
        }
    }
}

impl RunReaderV {
    pub open spec fn initial() -> RunReaderV {
        RunReaderV {
            in_run: false,
            in_rpr: false,
            cur: RunV::plain(Seq::empty()),
            author: Seq::empty(),
            date: Seq::empty(),
            id: 0,
            saved: None,
            track: None,
            del_text: false,
            capturing: false,
            text: Seq::empty(),
            field_active: false,
            field_in_result: false,
            field_char: None,
            field_results: 0,
            capturing_instr: false,
            instr: Seq::empty(),
        }
    }
}

// ---------------------------------------------------------------- paragraphs

/// What the opening of a paragraph does.
pub open spec fn para_opened_s(s: ParaReaderV) -> ParaReaderV {
    ParaReaderV {
        in_para: true,
        style: None,
        props: ParaPropsV::initial(),
        segs: Seq::empty(),
        prop_change: None,
        mark: None,
        ..s
    }
}

/// The paragraph that was read.
pub open spec fn read_para_s(s: ParaReaderV) -> ParagraphV {
    ParagraphV {
        style: s.style,
        props: s.props,
        runs: s.segs,
        prop_change: s.prop_change,
        mark_change: s.mark,
    }
}

/// A paragraph with nothing in it.
pub open spec fn blank_para_s() -> ParagraphV {
    ParagraphV {
        style: None,
        props: ParaPropsV::initial(),
        runs: Seq::empty(),
        prop_change: None,
        mark_change: None,
    }
}

/// What an opening tag among the paragraph properties does; `in_run` is whether a run is open.
pub open spec fn para_open_s(s: ParaReaderV, t: XmlTagV, in_run: bool) -> ParaReaderV {
    let n = t.name;
    if !s.in_para || in_run {
        s
    } else if n == "w:tabs"@ {
        ParaReaderV { in_tabs: true, ..s }
    } else if n == "w:pBdr"@ {
        ParaReaderV { in_pbdr: true, pbdr: Seq::empty(), ..s }
    } else if n == "w:pPrChange"@ {
        ParaReaderV {
            saved_style: s.style,
            saved: Some(s.props),
            author: events::or_empty_s(events::attr_s(t, "w:author"@)),
            date: events::or_empty_s(events::attr_s(t, "w:date"@)),
            id: events::or_s(events::attr_u64_s(t, "w:id"@), 0),
            style: None,
            props: ParaPropsV::initial(),
            ..s
        }
    } else {
        s
    }
}

/// The frame attribute that one attribute of a tag becomes.
pub open spec fn frame_attr_s(a: events::XmlAttrV) -> Seq<char> {
    a.key + "=\""@ + xml::esc_s(events::or_empty_s(a.value)) + "\""@
}

pub open spec fn frame_attrs_s(v: Seq<Option<events::XmlAttrV>>, n: nat) -> Seq<Seq<char>>
    decreases n,
{
    if n == 0 {
        Seq::empty()
    } else {
        let r = frame_attrs_s(v, (n - 1) as nat);
        match v[n - 1] {
            Some(a) => r.push(frame_attr_s(a)),
            None => r,
        }
    }
}

/// The negation of a hanging indent, which wraps at the smallest value.
pub open spec fn hanging_s(h: i32) -> i32 {
    if h == i32::MIN {
        h
    } else {
        (-h) as i32
    }
}

/// The properties with what a `w:ind` states: a first-line indent wins over a hanging one.
pub open spec fn indented_s(p: ParaPropsV, t: XmlTagV) -> ParaPropsV {
    ParaPropsV {
        indent_left: events::attr_i32_s(t, "w:left"@),
        indent_right: events::attr_i32_s(t, "w:right"@),
        indent_first: match events::attr_i32_s(t, "w:firstLine"@) {
            Some(x) => Some(x),
            None => match events::attr_i32_s(t, "w:hanging"@) {
                Some(h) => Some(hanging_s(h)),
                None => p.indent_first,
            },
        },
        ..p
    }
}

/// The alignment that an attribute names.
pub open spec fn align_s(o: Option<Seq<char>>) -> Option<Align> {
    match o {
        Some(x) => Align::from_ooxml_s(x),
        None => None,
    }
}

/// The properties with what a self-closing tag among them states.
pub open spec fn para_prop_s(p: ParaPropsV, t: XmlTagV) -> ParaPropsV {
    let n = t.name;
    if n == "w:jc"@ {
        ParaPropsV { align: align_s(events::attr_s(t, "w:val"@)), ..p }
    } else if n == "w:ilvl"@ {
        ParaPropsV { num_ilvl: events::attr_i32_s(t, "w:val"@), ..p }
    } else if n == "w:numId"@ {
        ParaPropsV { num_id: events::attr_i32_s(t, "w:val"@), ..p }
    } else if n == "w:spacing"@ {
        ParaPropsV {
            line_spacing: events::attr_u16_s(t, "w:line"@),
            line_rule: style_parse::line_rule_s(events::attr_s(t, "w:lineRule"@)),
            space_before: events::attr_u32_s(t, "w:before"@),
            space_after: events::attr_u32_s(t, "w:after"@),
            ..p
        }
    } else if n == "w:ind"@ {
        indented_s(p, t)
    } else if n == "w:keepNext"@ {
        ParaPropsV { keep_next: Some(events::toggle_on_s(t)), ..p }
    } else if n == "w:contextualSpacing"@ {
        ParaPropsV { contextual_spacing: Some(events::toggle_on_s(t)), ..p }
    } else if n == "w:pageBreakBefore"@ {
        ParaPropsV { page_break_before: events::toggle_on_s(t), ..p }
    } else if n == "w:framePr"@ {
        let v = frame_attrs_s(t.attrs, t.attrs.len());
        if v.len() == 0 {
            p
        } else {
            ParaPropsV { frame: Some(style_parse::join_s(v, " "@, v.len())), ..p }
        }
    } else {
        p
    }
}

/// What a self-closing tag among the paragraph properties does.
pub open spec fn para_empty_s(s: ParaReaderV, t: XmlTagV, in_run: bool) -> ParaReaderV {
    if !s.in_para || in_run {
        s
    } else if t.name == "w:pStyle"@ {
        ParaReaderV { style: events::attr_s(t, "w:val"@), ..s }
    } else {
        ParaReaderV { props: para_prop_s(s.props, t), ..s }
    }
}

/// The properties with the tab stop that a tag defines; a cleared stop and a bar are none.
pub open spec fn with_stop_s(p: ParaPropsV, t: XmlTagV) -> ParaPropsV {
    let val = events::or_empty_s(events::attr_s(t, "w:val"@));
    if val == "clear"@ {
        p
    } else {
        match (events::attr_u32_s(t, "w:pos"@), style_parse::tab_kind_s(val)) {
            (Some(x), Some(k)) => ParaPropsV {
                tab_stops: p.tab_stops.push(x),
                tab_kinds: p.tab_kinds.push(k),
                ..p
            },
            _ => p,
        }
    }
}

/// The paragraph with a manual break after it: of the page, or of the column.
pub open spec fn para_broken_s(s: ParaReaderV, page: bool) -> ParaReaderV {
    ParaReaderV {
        props: if page {
            ParaPropsV { page_break_after: true, ..s.props }
        } else {
            ParaPropsV { column_break_after: true, ..s.props }
        },
        ..s
    }
}

/// What an edge of the paragraph border does.
pub open spec fn para_edge_s(s: ParaReaderV, t: XmlTagV) -> ParaReaderV {
    match style_parse::pbdr_edge_s(t) {
        Some(e) => ParaReaderV { pbdr: s.pbdr.push(e), ..s },
        None => s,
    }
}

/// What a closing tag among the paragraph properties does.
pub open spec fn para_close_s(s: ParaReaderV, n: Seq<char>) -> ParaReaderV {
    if n == "w:tabs"@ {
        ParaReaderV { in_tabs: false, ..s }
    } else if n == "w:pBdr"@ {
        ParaReaderV {
            in_pbdr: false,
            props: if s.pbdr.len() == 0 {
                s.props
            } else {
                ParaPropsV {
                    border: Some(style_parse::join_s(s.pbdr, "|"@, s.pbdr.len())),
                    ..s.props
                }
            },
            ..s
        }
    } else if n == "w:pPrChange"@ {
        let change = ParaPropChangeV {
            author: s.author,
            date: s.date,
            id: s.id,
            old_style: s.style,
            old: s.props,
        };
        let rest = ParaReaderV {
            prop_change: Some(change),
            author: Seq::empty(),
            date: Seq::empty(),
            saved: None,
            saved_style: None,
            ..s
        };
        match s.saved {
            Some(p) => ParaReaderV { style: s.saved_style, props: p, ..rest },
            None => ParaReaderV { style: None, props: ParaPropsV::initial(), ..rest },
        }
    } else {
        s
    }
}

// ---------------------------------------------------------------- runs

/// The text up to the first white space.
pub open spec fn word_len_s(s: Seq<char>, from: int) -> int
    decreases s.len() - from,
{
    if 0 <= from < s.len() && !search::is_white_s(s[from]) {
        word_len_s(s, from + 1)
    } else {
        from
    }
}

/// The character that stands for the result of a computed field: a page number or a page count.
pub open spec fn field_placeholder_s(instr: Seq<char>) -> Option<char> {
    let word = instr.subrange(0, word_len_s(instr, 0));
    if word == "PAGE"@ {
        Some(FIELD_PAGE)
    } else if word == "NUMPAGES"@ {
        Some(FIELD_NUMPAGES)
    } else {
        None
    }
}

/// The run with a toggle or the font that a tag sets.
pub open spec fn toggled_s(r: RunV, t: XmlTagV) -> RunV {
    let n = t.name;
    if n == "w:b"@ {
        RunV { bold: events::toggle_on_s(t), ..r }
    } else if n == "w:i"@ {
        RunV { italic: events::toggle_on_s(t), ..r }
    } else if n == "w:u"@ {
        RunV { underline: events::u_on_s(t), ..r }
    } else if n == "w:strike"@ {
        RunV { strike: events::toggle_on_s(t), ..r }
    } else if n == "w:rFonts"@ {
        match events::attr_s(t, "w:ascii"@) {
            Some(f) => RunV { font: Some(f), ..r },
            None => r,
        }
    } else {
        r
    }
}

/// The value, where it names a vertical alignment.
pub open spec fn raised_s(o: Option<Seq<char>>) -> Option<Seq<char>> {
    if o == Some("superscript"@) || o == Some("subscript"@) {
        o
    } else {
        None
    }
}

/// A shading fill, unless it says there is none.
pub open spec fn fill_s(t: XmlTagV) -> Option<Seq<char>> {
    style_parse::unless_s(
        style_parse::unless_s(events::attr_s(t, "w:fill"@), "auto"@),
        "none"@,
    )
}

/// The run with what a self-closing tag among its properties states.
pub open spec fn run_prop_s(r: RunV, t: XmlTagV) -> RunV {
    let n = t.name;
    let v = events::attr_s(t, "w:val"@);
    if n == "w:rStyle"@ {
        RunV { char_style: v, ..r }
    } else if n == "w:sz"@ {
        RunV { size: events::attr_u16_s(t, "w:val"@), ..r }
    } else if n == "w:color"@ {
        RunV { color: style_parse::nonempty_s(v), ..r }
    } else if n == "w:highlight"@ {
        RunV { highlight: style_parse::nonempty_s(v), ..r }
    } else if n == "w:vertAlign"@ {
        RunV { vert_align: raised_s(v), ..r }
    } else if n == "w:lang"@ {
        RunV { lang: style_parse::nonempty_s(v), ..r }
    } else if n == "w:shd"@ {
        RunV { shading: fill_s(t), ..r }
    } else {
        toggled_s(r, t)
    }
}

/// The run with other formatting properties.
pub open spec fn with_props_s(r: RunV, p: RunPropsV) -> RunV {
    RunV {
        bold: p.bold,
        italic: p.italic,
        underline: p.underline,
        strike: p.strike,
        size: p.size,
        color: p.color,
        font: p.font,
        highlight: p.highlight,
        vert_align: p.vert_align,
        lang: p.lang,
        ..r
    }
}

/// What an opening tag inside a run does.
pub open spec fn run_open_s(s: RunReaderV, t: XmlTagV) -> RunReaderV {
    let n = t.name;
    if n == "w:rPrChange"@ && s.in_rpr {
        RunReaderV {
            saved: Some(s.cur.props()),
            author: events::or_empty_s(events::attr_s(t, "w:author"@)),
            date: events::or_empty_s(events::attr_s(t, "w:date"@)),
            id: events::or_s(events::attr_u64_s(t, "w:id"@), 0),
            cur: RunV { fmt_change: s.cur.fmt_change, ..RunV::plain(Seq::empty()) },
            ..s
        }
    } else if n == "w:t"@ && s.in_run {
        RunReaderV { capturing: true, del_text: false, ..s }
    } else if n == "w:delText"@ && s.in_run {
        RunReaderV { capturing: true, del_text: true, ..s }
    } else if (n == "w:instrText"@ || n == "w:delInstrText"@) && s.in_run {
        RunReaderV { capturing_instr: true, ..s }
    } else if s.in_rpr {
        RunReaderV { cur: toggled_s(s.cur, t), ..s }
    } else {
        s
    }
}

/// What the opening of a run does.
pub open spec fn run_opened_s(s: RunReaderV) -> RunReaderV {
    RunReaderV { in_run: true, cur: RunV::plain(Seq::empty()), ..s }
}

/// What the opening of a simple field does.
pub open spec fn simple_field_s(s: RunReaderV, t: XmlTagV) -> RunReaderV {
    RunReaderV {
        field_active: true,
        field_in_result: true,
        field_char: match events::attr_s(t, "w:instr"@) {
            Some(x) => field_placeholder_s(search::trim_s(x)),
            None => None,
        },
        field_results: 0,
        ..s
    }
}

/// The text that the end of a text element contributes: what was read, except that the first
/// result of a computed field is its character and the later ones are nothing.
pub open spec fn settled_text_s(s: RunReaderV) -> Seq<char> {
    if s.text.len() > 0 && s.field_active && s.field_in_result && s.field_char is Some {
        if s.field_results == 0 {
            seq![s.field_char->0]
        } else {
            Seq::empty()
        }
    } else {
        s.text
    }
}

/// The revision of a text that ends here: the one around it, and a bare deletion for deleted
/// text outside any.
pub open spec fn text_track_s(s: RunReaderV) -> Option<TrackV> {
    if s.track is None && s.del_text {
        Some(TrackV { kind: TrackKind::Del, author: Seq::empty(), date: Seq::empty(), id: 0 })
    } else {
        s.track
    }
}

/// The runs with the one that the end of a text element adds.
pub open spec fn segs_after_text_s(s: RunReaderV, segs: Seq<RunV>) -> Seq<RunV> {
    let text = settled_text_s(s);
    if text.len() == 0 {
        segs
    } else {
        segs.push(RunV { text, track: text_track_s(s), ..s.cur })
    }
}

/// What the end of a text element does to the reader.
pub open spec fn text_closed_s(s: RunReaderV) -> RunReaderV {
    RunReaderV {
        field_results: if s.text.len() > 0 && s.field_active && s.field_in_result
            && s.field_char is Some {
            s.field_results + 1
        } else {
            s.field_results
        },
        text: Seq::empty(),
        capturing: false,
        del_text: false,
        ..s
    }
}

/// What the end of a tracked formatting change does: the old properties go into the change, and
/// the new ones come back.
pub open spec fn format_change_closed_s(s: RunReaderV) -> RunReaderV {
    let change = FormatChangeV { author: s.author, date: s.date, id: s.id, old: s.cur.props() };
    let cur = RunV { fmt_change: Some(change), ..s.cur };
    RunReaderV {
        author: Seq::empty(),
        date: Seq::empty(),
        saved: None,
        cur: match s.saved {
            Some(p) => with_props_s(cur, p),
            None => cur,
        },
        ..s
    }
}

/// What a closing tag of a run does.
pub open spec fn run_close_s(s: RunReaderV, n: Seq<char>) -> RunReaderV {
    if n == "w:instrText"@ || n == "w:delInstrText"@ {
        RunReaderV { capturing_instr: false, ..s }
    } else if n == "w:fldSimple"@ {
        RunReaderV { field_active: false, field_in_result: false, field_char: None, ..s }
    } else if n == "w:rPrChange"@ {
        format_change_closed_s(s)
    } else if n == "w:rPr"@ {
        RunReaderV { in_rpr: false, ..s }
    } else if n == "w:r"@ {
        RunReaderV { in_run: false, cur: RunV { bold: false, italic: false, ..s.cur }, ..s }
    } else if n == "w:ins"@ || n == "w:del"@ || n == "w:moveFrom"@ || n == "w:moveTo"@ {
        RunReaderV { track: None, ..s }
    } else {
        s
    }
}

// ---------------------------------------------------------------- the paragraph reader

impl ParaReader {
    pub(crate) fn new() -> (r: Self)
        ensures
            r@ == ParaReaderV::initial(),
    {
        let r = ParaReader {
            in_para: false,
            style: None,
            props: ParaProps::default(),
            segs: Vec::new(),
            prop_change: None,
            mark: None,
            in_mark_rpr: false,
            in_pbdr: false,
            pbdr: Vec::new(),
            in_tabs: false,
            saved_style: None,
            saved: None,
            author: String::new(),
            date: String::new(),
            id: 0,
        };
        assert(r@ =~= ParaReaderV::initial());
        r
    }

    pub(crate) fn open_para(&mut self)
        ensures
            final(self)@ == para_opened_s(old(self)@),
    {
        self.in_para = true;
        self.style = None;
        self.props = ParaProps::default();
        self.segs = Vec::new();
        assert(types::run_vs(self.segs@) =~= Seq::empty());
        self.prop_change = None;
        self.mark = None;
    }

    pub(crate) fn read_para(&self) -> (r: Paragraph)
        ensures
            r@ == read_para_s(self@),
    {
        Paragraph {
            style: opt_clone(&self.style),
            props: self.props.clone(),
            runs: clone_run_vec(&self.segs),
            prop_change: clone_para_prop_change_opt(&self.prop_change),
            mark_change: clone_track_opt(&self.mark),
        }
    }

    pub(crate) fn open(&mut self, t: &XmlTag, in_run: bool)
        ensures
            final(self)@ == para_open_s(old(self)@, t@, in_run),
    {
        if !self.in_para || in_run {
            return;
        }
        if is_tag(t, "w:tabs") {
            self.in_tabs = true;
        } else if is_tag(t, "w:pBdr") {
            self.in_pbdr = true;
            self.pbdr = Vec::new();
            assert(search::texts_s(self.pbdr@) =~= Seq::empty());
        } else if is_tag(t, "w:pPrChange") {
            self.saved_style = opt_clone(&self.style);
            self.saved = Some(self.props.clone());
            self.author = or_empty(attr(t, "w:author"));
            self.date = or_empty(attr(t, "w:date"));
            self.id = or_else(attr_u64(t, "w:id"), 0);
            self.style = None;
            self.props = ParaProps::default();
        }
    }

    pub(crate) fn empty(&mut self, t: &XmlTag, in_run: bool)
        ensures
            final(self)@ == para_empty_s(old(self)@, t@, in_run),
    {
        if !self.in_para || in_run {
            return;
        }
        if is_tag(t, "w:pStyle") {
            self.style = attr(t, "w:val");
        } else {
            para_prop(&mut self.props, t);
        }
    }

    pub(crate) fn stop(&mut self, t: &XmlTag)
        ensures
            final(self)@ == (ParaReaderV {
                props: with_stop_s(old(self)@.props, t@),
                ..old(self)@
            }),
    {
        let val = or_empty(attr(t, "w:val"));
        if !str_eq(val.as_str(), "clear") {
            if let Some(x) = attr_u32(t, "w:pos") {
                if let Some(k) = tab_kind(val.as_str()) {
                    self.props.tab_stops.push(x);
                    self.props.tab_kinds.push(k);
                }
            }
        }
    }

    pub(crate) fn edge(&mut self, t: &XmlTag)
        ensures
            final(self)@ == para_edge_s(old(self)@, t@),
    {
        if let Some(e) = pbdr_edge(t) {
            let ghost was = self.pbdr@;
            let ghost ev = e@;
            self.pbdr.push(e);
            assert(search::texts_s(self.pbdr@) =~= search::texts_s(was).push(ev));
        }
    }

    pub(crate) fn close(&mut self, n: &str)
        ensures
            final(self)@ == para_close_s(old(self)@, n@),
    {
        if str_eq(n, "w:tabs") {
            self.in_tabs = false;
        } else if str_eq(n, "w:pBdr") {
            self.in_pbdr = false;
            if self.pbdr.len() > 0 {
                self.props.border = Some(join(&self.pbdr, "|"));
            }
        } else if str_eq(n, "w:pPrChange") {
            let c = ParaPropChange {
                author: self.author.clone(),
                date: self.date.clone(),
                id: self.id,
                old_style: opt_clone(&self.style),
                old: self.props.clone(),
            };
            self.prop_change = Some(c);
            self.author = String::new();
            self.date = String::new();
            assert(self.author@ =~= Seq::empty());
            assert(self.date@ =~= Seq::empty());
            let style = self.saved_style.take();
            match self.saved.take() {
                Some(p) => {
                    self.style = style;
                    self.props = p;
                },
                None => {
                    self.style = None;
                    self.props = ParaProps::default();
                },
            }
        }
    }

    /// Note a manual break after the paragraph: of the page, or of the column.
    pub(crate) fn manual_break(&mut self, page: bool)
        ensures
            final(self)@ == para_broken_s(old(self)@, page),
    {
        if page {
            self.props.page_break_after = true;
        } else {
            self.props.column_break_after = true;
        }
    }

    pub(crate) fn push(&mut self, r: Run)
        ensures
            final(self)@ == (ParaReaderV { segs: old(self)@.segs.push(r@), ..old(self)@ }),
    {
        let ghost was = self.segs@;
        let ghost rv = r@;
        self.segs.push(r);
        assert(types::run_vs(self.segs@) =~= types::run_vs(was).push(rv));
    }
}

fn frame_attrs(t: &XmlTag) -> (r: Vec<String>)
    ensures
        search::texts_s(r@) == frame_attrs_s(t@.attrs, t@.attrs.len()),
{
    let ghost v = t@.attrs;
    let mut out: Vec<String> = Vec::new();
    let mut i: usize = 0;
    assert(search::texts_s(out@) =~= Seq::empty());
    while i < t.attrs.len()
        invariant
            i <= t.attrs@.len(),
            v == t@.attrs,
            search::texts_s(out@) == frame_attrs_s(v, i as nat),
        decreases t.attrs@.len() - i,
    {
        assert(v[i as int] == events::xml_attr_ov(t.attrs@[i as int]));
        if let Some(a) = &t.attrs[i] {
            let ghost was = out@;
            let mut s = a.key.clone();
            s.append("=\"");
            let x = or_empty(opt_clone(&a.value));
            s.append(xml_escape(x.as_str()).as_str());
            s.append("\"");
            let ghost sv = s@;
            out.push(s);
            assert(search::texts_s(out@) =~= search::texts_s(was).push(sv));
        }
        i = i + 1;
    }
    out
}

fn indented(p: &mut ParaProps, t: &XmlTag)
    ensures
        final(p)@ == indented_s(old(p)@, t@),
{
    p.indent_left = attr_i32(t, "w:left");
    p.indent_right = attr_i32(t, "w:right");
    match attr_i32(t, "w:firstLine") {
        Some(x) => {
            p.indent_first = Some(x);
        },
        None => {
            if let Some(h) = attr_i32(t, "w:hanging") {
                p.indent_first = Some(
                    if h == i32::MIN {
                        h
                    } else {
                        -h
                    },
                );
            }
        },
    }
}

fn para_prop(p: &mut ParaProps, t: &XmlTag)
    ensures
        final(p)@ == para_prop_s(old(p)@, t@),
{
    if is_tag(t, "w:jc") {
        p.align = match attr(t, "w:val") {
            Some(x) => Align::from_ooxml(x.as_str()),
            None => None,
        };
    } else if is_tag(t, "w:ilvl") {
        p.num_ilvl = attr_i32(t, "w:val");
    } else if is_tag(t, "w:numId") {
        p.num_id = attr_i32(t, "w:val");
    } else if is_tag(t, "w:spacing") {
        p.line_spacing = attr_u16(t, "w:line");
        p.line_rule = match attr(t, "w:lineRule") {
            Some(x) => LineRule::from_ooxml(x.as_str()),
            None => None,
        };
        p.space_before = attr_u32(t, "w:before");
        p.space_after = attr_u32(t, "w:after");
    } else if is_tag(t, "w:ind") {
        indented(p, t);
    } else if is_tag(t, "w:keepNext") {
        p.keep_next = Some(toggle_on(t));
    } else if is_tag(t, "w:contextualSpacing") {
        p.contextual_spacing = Some(toggle_on(t));
    } else if is_tag(t, "w:pageBreakBefore") {
        p.page_break_before = toggle_on(t);
    } else if is_tag(t, "w:framePr") {
        let v = frame_attrs(t);
        if v.len() > 0 {
            p.frame = Some(join(&v, " "));
        }
    }
}

// ---------------------------------------------------------------- the run reader

/// The placeholder of a computed field's result, by the field's instruction.
pub(crate) fn field_placeholder(instr: &str) -> (r: Option<char>)
    ensures
        r == field_placeholder_s(instr@),
{
    let v = chars_of(instr);
    let mut n: usize = 0;
    while n < v.len() && !search::is_white(v[n])
        invariant
            n <= v@.len(),
            v@ == instr@,
            word_len_s(instr@, 0) == word_len_s(instr@, n as int),
        decreases v@.len() - n,
    {
        n = n + 1;
    }
    let word = strs::string_of(&v, 0, n);
    if str_eq(word.as_str(), "PAGE") {
        Some(FIELD_PAGE)
    } else if str_eq(word.as_str(), "NUMPAGES") {
        Some(FIELD_NUMPAGES)
    } else {
        None
    }
}

fn toggled(r: &mut Run, t: &XmlTag)
    ensures
        final(r)@ == toggled_s(old(r)@, t@),
{
    if is_tag(t, "w:b") {
        r.bold = toggle_on(t);
    } else if is_tag(t, "w:i") {
        r.italic = toggle_on(t);
    } else if is_tag(t, "w:u") {
        r.underline = u_on(t);
    } else if is_tag(t, "w:strike") {
        r.strike = toggle_on(t);
    } else if is_tag(t, "w:rFonts") {
        if let Some(f) = attr(t, "w:ascii") {
            r.font = Some(f);
        }
    }
}

pub(crate) fn fill(t: &XmlTag) -> (r: Option<String>)
    ensures
        strs::opt_s(r) == fill_s(t@),
{
    unless(unless(attr(t, "w:fill"), "auto"), "none")
}

fn run_prop(r: &mut Run, t: &XmlTag)
    ensures
        final(r)@ == run_prop_s(old(r)@, t@),
{
    if is_tag(t, "w:rStyle") {
        r.char_style = attr(t, "w:val");
    } else if is_tag(t, "w:sz") {
        r.size = attr_u16(t, "w:val");
    } else if is_tag(t, "w:color") {
        r.color = nonempty(attr(t, "w:val"));
    } else if is_tag(t, "w:highlight") {
        r.highlight = nonempty(attr(t, "w:val"));
    } else if is_tag(t, "w:vertAlign") {
        let v = attr(t, "w:val");
        r.vert_align = if opt_is(&v, "superscript") || opt_is(&v, "subscript") {
            v
        } else {
            None
        };
    } else if is_tag(t, "w:lang") {
        r.lang = nonempty(attr(t, "w:val"));
    } else if is_tag(t, "w:shd") {
        r.shading = fill(t);
    } else {
        toggled(r, t);
    }
}

fn with_props(r: &mut Run, p: RunProps)
    ensures
        final(r)@ == with_props_s(old(r)@, p@),
{
    r.bold = p.bold;
    r.italic = p.italic;
    r.underline = p.underline;
    r.strike = p.strike;
    r.size = p.size;
    r.color = p.color;
    r.font = p.font;
    r.highlight = p.highlight;
    r.vert_align = p.vert_align;
    r.lang = p.lang;
}

impl RunReader {
    pub(crate) fn new() -> (r: Self)
        ensures
            r@ == RunReaderV::initial(),
    {
        let r = RunReader {
            in_run: false,
            in_rpr: false,
            cur: Run::plain(""),
            author: String::new(),
            date: String::new(),
            id: 0,
            saved: None,
            track: None,
            del_text: false,
            capturing: false,
            text: String::new(),
            field_active: false,
            field_in_result: false,
            field_char: None,
            field_results: 0,
            capturing_instr: false,
            instr: String::new(),
        };
        proof {
            reveal_strlit("");
            assert(""@ =~= Seq::<char>::empty());
        }
        assert(r@ =~= RunReaderV::initial());
        r
    }

    pub(crate) fn leave_field(&mut self)
        ensures
            final(self)@ == (RunReaderV {
                field_active: false,
                field_in_result: false,
                field_char: None,
                ..old(self)@
            }),
            final(self).field_results == old(self).field_results,
    {
        self.field_active = false;
        self.field_in_result = false;
        self.field_char = None;
    }

    pub(crate) fn open_run(&mut self)
        ensures
            final(self)@ == run_opened_s(old(self)@),
    {
        self.in_run = true;
        self.cur = Run::plain("");
        proof {
            reveal_strlit("");
            assert(""@ =~= Seq::<char>::empty());
        }
    }

    pub(crate) fn open(&mut self, t: &XmlTag)
        ensures
            final(self)@ == run_open_s(old(self)@, t@),
    {
        if is_tag(t, "w:rPrChange") && self.in_rpr {
            self.saved = Some(RunProps::of(&self.cur));
            self.author = or_empty(attr(t, "w:author"));
            self.date = or_empty(attr(t, "w:date"));
            self.id = or_else(attr_u64(t, "w:id"), 0);
            let change = clone_format_change_opt(&self.cur.fmt_change);
            let mut cur = Run::plain("");
            cur.fmt_change = change;
            self.cur = cur;
            proof {
                reveal_strlit("");
                assert(""@ =~= Seq::<char>::empty());
            }
        } else if is_tag(t, "w:t") && self.in_run {
            self.capturing = true;
            self.del_text = false;
        } else if is_tag(t, "w:delText") && self.in_run {
            self.capturing = true;
            self.del_text = true;
        } else if (is_tag(t, "w:instrText") || is_tag(t, "w:delInstrText")) && self.in_run {
            self.capturing_instr = true;
        } else if self.in_rpr {
            toggled(&mut self.cur, t);
        }
    }

    pub(crate) fn empty(&mut self, t: &XmlTag)
        ensures
            final(self)@ == (RunReaderV { cur: run_prop_s(old(self)@.cur, t@), ..old(self)@ }),
    {
        run_prop(&mut self.cur, t);
    }

    pub(crate) fn open_simple_field(&mut self, t: &XmlTag)
        ensures
            final(self)@ == simple_field_s(old(self)@, t@),
    {
        self.field_active = true;
        self.field_in_result = true;
        self.field_char = match attr(t, "w:instr") {
            Some(x) => field_placeholder(trim(x.as_str()).as_str()),
            None => None,
        };
        self.field_results = 0;
    }

    /// The open run's formatting around a text.
    pub(crate) fn run_of(&self, text: String, track: Option<Track>) -> (r: Run)
        ensures
            r@ == (RunV { text: text@, track: types::track_ov(track), ..self@.cur }),
    {
        let mut r = self.cur.clone();
        r.text = text;
        r.track = track;
        r
    }

    /// Close a text element: the run it completes, if it holds any text.
    pub(crate) fn close_text(&mut self) -> (r: Option<Run>)
        requires
            old(self).field_results < usize::MAX,
        ensures
            final(self)@ == text_closed_s(old(self)@),
            forall|segs: Seq<RunV>| #[trigger]
                segs_after_text_s(old(self)@, segs) == (match r {
                    Some(x) => segs.push(x@),
                    None => segs,
                }),
    {
        let ghost s = self@;
        let mut text = self.text.clone();
        if self.text.as_str().unicode_len() > 0 && self.field_active && self.field_in_result {
            if let Some(c) = self.field_char {
                text = String::new();
                assert(text@ =~= Seq::empty());
                if self.field_results == 0 {
                    text.push(c);
                    assert(text@ =~= seq![c]);
                }
                self.field_results = self.field_results + 1;
            }
        }
        assert(text@ == settled_text_s(s));
        self.text = String::new();
        assert(self.text@ =~= Seq::empty());
        let del_text = self.del_text;
        self.capturing = false;
        self.del_text = false;
        if text.as_str().unicode_len() == 0 {
            return None;
        }
        let track = if self.track.is_none() && del_text {
            let author = String::new();
            let date = String::new();
            assert(author@ =~= Seq::empty());
            assert(date@ =~= Seq::empty());
            Some(Track { kind: TrackKind::Del, author, date, id: 0 })
        } else {
            clone_track_opt(&self.track)
        };
        Some(self.run_of(text, track))
    }

    fn close_format_change(&mut self)
        ensures
            final(self)@ == format_change_closed_s(old(self)@),
    {
        let old_props = RunProps::of(&self.cur);
        self.cur.fmt_change = Some(
            FormatChange {
                author: self.author.clone(),
                date: self.date.clone(),
                id: self.id,
                old: old_props,
            },
        );
        self.author = String::new();
        self.date = String::new();
        assert(self.author@ =~= Seq::empty());
        assert(self.date@ =~= Seq::empty());
        if let Some(p) = self.saved.take() {
            with_props(&mut self.cur, p);
        }
    }

    pub(crate) fn close(&mut self, n: &str)
        ensures
            final(self)@ == run_close_s(old(self)@, n@),
    {
        if str_eq(n, "w:instrText") || str_eq(n, "w:delInstrText") {
            self.capturing_instr = false;
        } else if str_eq(n, "w:fldSimple") {
            self.field_active = false;
            self.field_in_result = false;
            self.field_char = None;
        } else if str_eq(n, "w:rPrChange") {
            self.close_format_change();
        } else if str_eq(n, "w:rPr") {
            self.in_rpr = false;
        } else if str_eq(n, "w:r") {
            self.in_run = false;
            self.cur.bold = false;
            self.cur.italic = false;
        } else if str_eq(n, "w:ins") || str_eq(n, "w:del") || str_eq(n, "w:moveFrom") || str_eq(
            n,
            "w:moveTo",
        ) {
            self.track = None;
        }
    }
}

} // verus!
