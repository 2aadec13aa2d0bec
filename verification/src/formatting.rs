//! Formatting commands, and the formatting of a selection.

use std::ops::Range;
use vstd::prelude::*;
use crate::doc;
use crate::doc::TextDoc;
use crate::edits;
use crate::edits::{advance, TextOp, TextOpV};
use crate::error::ModelError;
use crate::sequence;
use crate::props;
use crate::read;
use crate::runs;
use crate::store;
use crate::store::{BlockId, PropsV, Scalar, ScalarV};
use crate::strs;
use crate::strs::{opt_clone, opt_eq, str_eq};
use crate::styles;
use crate::styles::{StyleProps, StylePropsV, StyleTable};
use crate::types;
use crate::types::{ParaPropChange, ParaPropChangeV, ParaProps, ParaPropsV, Run, RunV};

verus! {

broadcast use vstd::string::group_string_axioms;

// ---------------------------------------------------------------- commands

/// A command on run formatting: each field that is set is applied over a range, and the others
/// leave the attribute alone. A toggle that is off clears it.
#[derive(Debug, PartialEq, Eq)]
pub struct RunFormat {
    pub bold: Option<bool>,
    pub italic: Option<bool>,
    pub underline: Option<bool>,
    pub strike: Option<bool>,
    /// In half-points.
    pub size: Option<u16>,
    pub color: Option<String>,
    pub font: Option<String>,
    /// A colour name; empty clears it.
    pub highlight: Option<String>,
    /// `superscript` or `subscript`; empty clears it.
    pub vert_align: Option<String>,
}

/// The mathematical value of a [`RunFormat`].
#[verifier::ext_equal]
pub struct RunFormatV {
    pub bold: Option<bool>,
    pub italic: Option<bool>,
    pub underline: Option<bool>,
    pub strike: Option<bool>,
    pub size: Option<u16>,
    pub color: Option<Seq<char>>,
    pub font: Option<Seq<char>>,
    pub highlight: Option<Seq<char>>,
    pub vert_align: Option<Seq<char>>,
}

impl View for RunFormat {
    type V = RunFormatV;

    open spec fn view(&self) -> RunFormatV {
        RunFormatV {
            bold: self.bold,
            italic: self.italic,
            underline: self.underline,
            strike: self.strike,
            size: self.size,
            color: strs::opt_s(self.color),
            font: strs::opt_s(self.font),
            highlight: strs::opt_s(self.highlight),
            vert_align: strs::opt_s(self.vert_align),
        }
    }
}

impl Clone for RunFormat {
    fn clone(&self) -> (r: Self)
        ensures
            r@ == self@,
    {
        RunFormat {
            bold: self.bold,
            italic: self.italic,
            underline: self.underline,
            strike: self.strike,
            size: self.size,
            color: opt_clone(&self.color),
            font: opt_clone(&self.font),
            highlight: opt_clone(&self.highlight),
            vert_align: opt_clone(&self.vert_align),
        }
    }
}

impl RunFormatV {
    /// The value with nothing set.
    pub open spec fn initial() -> RunFormatV {
        RunFormatV {
            bold: None,
            italic: None,
            underline: None,
            strike: None,
            size: None,
            color: None,
            font: None,
            highlight: None,
            vert_align: None,
        }
    }
}

impl Default for RunFormat {
    fn default() -> (r: Self)
        ensures
            r@ == RunFormatV::initial(),
    {
        RunFormat {
            bold: None,
            italic: None,
            underline: None,
            strike: None,
            size: None,
            color: None,
            font: None,
            highlight: None,
            vert_align: None,
        }
    }
}

impl RunFormat {
    pub fn bold(on: bool) -> (r: Self)
        ensures
            r@ == (RunFormatV { bold: Some(on), ..RunFormatV::initial() }),
    {
        let mut r = RunFormat::default();
        r.bold = Some(on);
        r
    }

    pub fn italic(on: bool) -> (r: Self)
        ensures
            r@ == (RunFormatV { italic: Some(on), ..RunFormatV::initial() }),
    {
        let mut r = RunFormat::default();
        r.italic = Some(on);
        r
    }

    pub fn underline(on: bool) -> (r: Self)
        ensures
            r@ == (RunFormatV { underline: Some(on), ..RunFormatV::initial() }),
    {
        let mut r = RunFormat::default();
        r.underline = Some(on);
        r
    }

    pub fn strike(on: bool) -> (r: Self)
        ensures
            r@ == (RunFormatV { strike: Some(on), ..RunFormatV::initial() }),
    {
        let mut r = RunFormat::default();
        r.strike = Some(on);
        r
    }

    pub fn size(half_points: u16) -> (r: Self)
        ensures
            r@ == (RunFormatV { size: Some(half_points), ..RunFormatV::initial() }),
    {
        let mut r = RunFormat::default();
        r.size = Some(half_points);
        r
    }

    pub fn color(hex: &str) -> (r: Self)
        ensures
            r@ == (RunFormatV { color: Some(hex@), ..RunFormatV::initial() }),
    {
        let mut r = RunFormat::default();
        r.color = Some(hex.to_string());
        r
    }

    pub fn font(family: &str) -> (r: Self)
        ensures
            r@ == (RunFormatV { font: Some(family@), ..RunFormatV::initial() }),
    {
        let mut r = RunFormat::default();
        r.font = Some(family.to_string());
        r
    }

    pub fn highlight(value: &str) -> (r: Self)
        ensures
            r@ == (RunFormatV { highlight: Some(value@), ..RunFormatV::initial() }),
    {
        let mut r = RunFormat::default();
        r.highlight = Some(value.to_string());
        r
    }

    pub fn vert_align(value: &str) -> (r: Self)
        ensures
            r@ == (RunFormatV { vert_align: Some(value@), ..RunFormatV::initial() }),
    {
        let mut r = RunFormat::default();
        r.vert_align = Some(value.to_string());
        r
    }
}

/// A toggle as an edit.
pub open spec fn toggle_op_s(from: usize, to: usize, key: Seq<char>, o: Option<bool>) -> Option<TextOpV> {
    match o {
        Some(true) => Some(TextOpV::Put { from, to, key, value: ScalarV::Bool(true) }),
        Some(false) => Some(TextOpV::Clear { from, to, key }),
        None => None,
    }
}

fn toggle_op(from: usize, to: usize, key: &str, o: Option<bool>) -> (r: Option<TextOp>)
    ensures
        op_ov(r) == toggle_op_s(from, to, key@, o),
        r matches Some(x) ==> edits::possible_s(x@),
{
    match o {
        Some(true) => Some(
            TextOp::Put { from, to, key: key.to_string(), value: Scalar::Bool(true) },
        ),
        Some(false) => Some(TextOp::Clear { from, to, key: key.to_string() }),
        None => None,
    }
}

pub open spec fn op_ov(o: Option<TextOp>) -> Option<TextOpV> {
    match o {
        Some(x) => Some(x@),
        None => None,
    }
}

/// A text attribute as an edit.
pub open spec fn text_op_s(from: usize, to: usize, key: Seq<char>, o: Option<Seq<char>>) -> Option<TextOpV> {
    match o {
        Some(s) => Some(TextOpV::Put { from, to, key, value: ScalarV::Text(s) }),
        None => None,
    }
}

pub(crate) fn text_op(from: usize, to: usize, key: &str, o: &Option<String>) -> (r: Option<TextOp>)
    ensures
        op_ov(r) == text_op_s(from, to, key@, strs::opt_s(*o)),
        r matches Some(x) ==> edits::possible_s(x@),
{
    match o {
        Some(s) => Some(
            TextOp::Put { from, to, key: key.to_string(), value: Scalar::Text(s.clone()) },
        ),
        None => None,
    }
}

/// A text attribute as an edit; an empty text clears it.
pub open spec fn clearing_op_s(from: usize, to: usize, key: Seq<char>, o: Option<Seq<char>>) -> Option<
    TextOpV,
> {
    match o {
        Some(s) => if s.len() == 0 {
            Some(TextOpV::Clear { from, to, key })
        } else {
            Some(TextOpV::Put { from, to, key, value: ScalarV::Text(s) })
        },
        None => None,
    }
}

fn clearing_op(from: usize, to: usize, key: &str, o: &Option<String>) -> (r: Option<TextOp>)
    ensures
        op_ov(r) == clearing_op_s(from, to, key@, strs::opt_s(*o)),
        r matches Some(x) ==> edits::possible_s(x@),
{
    match o {
        Some(s) => if s.as_str().unicode_len() == 0 {
            Some(TextOp::Clear { from, to, key: key.to_string() })
        } else {
            text_op(from, to, key, o)
        },
        None => None,
    }
}

/// A size as an edit.
pub open spec fn size_op_s(from: usize, to: usize, o: Option<u16>) -> Option<TextOpV> {
    match o {
        Some(n) => Some(
            TextOpV::Put { from, to, key: "sz"@, value: ScalarV::Int(n as i64) },
        ),
        None => None,
    }
}

fn size_op(from: usize, to: usize, o: Option<u16>) -> (r: Option<TextOp>)
    ensures
        op_ov(r) == size_op_s(from, to, o),
        r matches Some(x) ==> edits::possible_s(x@),
{
    match o {
        Some(n) => Some(
            TextOp::Put { from, to, key: "sz".to_string(), value: Scalar::Int(n as i64) },
        ),
        None => None,
    }
}

/// The edits with one more, where there is one.
pub open spec fn with_op_s(v: Seq<TextOpV>, o: Option<TextOpV>) -> Seq<TextOpV> {
    match o {
        Some(x) => v.push(x),
        None => v,
    }
}

pub(crate) fn push_op(v: &mut Vec<TextOp>, o: Option<TextOp>)
    requires
        edits::all_possible_s(edits::text_op_vs(old(v)@)),
        o matches Some(x) ==> edits::possible_s(x@),
    ensures
        edits::text_op_vs(final(v)@) == with_op_s(edits::text_op_vs(old(v)@), op_ov(o)),
        edits::all_possible_s(edits::text_op_vs(final(v)@)),
{
    let ghost was = v@;
    if let Some(x) = o {
        v.push(x);
        assert(edits::text_op_vs(v@) =~= edits::text_op_vs(was).push(x@));
    }
}

/// The edits that a formatting command makes over a range.
pub open spec fn format_ops_s(from: usize, to: usize, f: RunFormatV) -> Seq<TextOpV> {
    let v = Seq::empty();
    let v = with_op_s(v, toggle_op_s(from, to, "b"@, f.bold));
    let v = with_op_s(v, toggle_op_s(from, to, "i"@, f.italic));
    let v = with_op_s(v, toggle_op_s(from, to, "u"@, f.underline));
    let v = with_op_s(v, toggle_op_s(from, to, "strike"@, f.strike));
    let v = with_op_s(v, size_op_s(from, to, f.size));
    let v = with_op_s(v, text_op_s(from, to, "color"@, f.color));
    let v = with_op_s(v, text_op_s(from, to, "font"@, f.font));
    let v = with_op_s(v, clearing_op_s(from, to, "hl"@, f.highlight));
    with_op_s(v, clearing_op_s(from, to, "va"@, f.vert_align))
}

pub(crate) fn format_ops(from: usize, to: usize, f: &RunFormat) -> (v: Vec<TextOp>)
    ensures
        edits::text_op_vs(v@) == format_ops_s(from, to, f@),
        edits::all_possible_s(edits::text_op_vs(v@)),
{
    let mut v: Vec<TextOp> = Vec::new();
    assert(edits::text_op_vs(v@) =~= Seq::empty());
    push_op(&mut v, toggle_op(from, to, "b", f.bold));
    push_op(&mut v, toggle_op(from, to, "i", f.italic));
    push_op(&mut v, toggle_op(from, to, "u", f.underline));
    push_op(&mut v, toggle_op(from, to, "strike", f.strike));
    push_op(&mut v, size_op(from, to, f.size));
    push_op(&mut v, text_op(from, to, "color", &f.color));
    push_op(&mut v, text_op(from, to, "font", &f.font));
    push_op(&mut v, clearing_op(from, to, "hl", &f.highlight));
    push_op(&mut v, clearing_op(from, to, "va", &f.vert_align));
    v
}

/// Whether the marks that a formatting command sets or clears may be set.
pub open spec fn format_allowed_s(marks: Map<Seq<char>, bool>, f: RunFormatV) -> bool {
    &&& f.bold is Some ==> marks.contains_key("b"@)
    &&& f.italic is Some ==> marks.contains_key("i"@)
    &&& f.underline is Some ==> marks.contains_key("u"@)
    &&& f.strike is Some ==> marks.contains_key("strike"@)
    &&& f.size is Some ==> marks.contains_key("sz"@)
    &&& f.color is Some ==> marks.contains_key("color"@)
    &&& f.font is Some ==> marks.contains_key("font"@)
    &&& f.highlight is Some ==> marks.contains_key("hl"@)
    &&& f.vert_align is Some ==> marks.contains_key("va"@)
}

proof fn lemma_op_sits(marks: Map<Seq<char>, bool>, len: nat, v: Seq<TextOpV>, o: Option<TextOpV>)
    requires
        edits::ops_sit_s(marks, len, v),
        o matches Some(op) ==> edits::op_sits_s(marks, len, op),
    ensures
        edits::ops_sit_s(marks, len, with_op_s(v, o)),
{
}

/// The edits of a formatting command stay within the range.
pub(crate) proof fn lemma_format_sits(
    marks: Map<Seq<char>, bool>,
    len: nat,
    from: usize,
    to: usize,
    f: RunFormatV,
)
    requires
        from < to <= len,
        format_allowed_s(marks, f),
    ensures
        edits::ops_sit_s(marks, len, format_ops_s(from, to, f)),
{
    let v = Seq::<TextOpV>::empty();
    lemma_op_sits(marks, len, v, toggle_op_s(from, to, "b"@, f.bold));
    let v = with_op_s(v, toggle_op_s(from, to, "b"@, f.bold));
    lemma_op_sits(marks, len, v, toggle_op_s(from, to, "i"@, f.italic));
    let v = with_op_s(v, toggle_op_s(from, to, "i"@, f.italic));
    lemma_op_sits(marks, len, v, toggle_op_s(from, to, "u"@, f.underline));
    let v = with_op_s(v, toggle_op_s(from, to, "u"@, f.underline));
    lemma_op_sits(marks, len, v, toggle_op_s(from, to, "strike"@, f.strike));
    let v = with_op_s(v, toggle_op_s(from, to, "strike"@, f.strike));
    lemma_op_sits(marks, len, v, size_op_s(from, to, f.size));
    let v = with_op_s(v, size_op_s(from, to, f.size));
    lemma_op_sits(marks, len, v, text_op_s(from, to, "color"@, f.color));
    let v = with_op_s(v, text_op_s(from, to, "color"@, f.color));
    lemma_op_sits(marks, len, v, text_op_s(from, to, "font"@, f.font));
    let v = with_op_s(v, text_op_s(from, to, "font"@, f.font));
    lemma_op_sits(marks, len, v, clearing_op_s(from, to, "hl"@, f.highlight));
    let v = with_op_s(v, clearing_op_s(from, to, "hl"@, f.highlight));
    lemma_op_sits(marks, len, v, clearing_op_s(from, to, "va"@, f.vert_align));
}

/// Apply a formatting command over a range of a paragraph.
pub fn apply_run_format(doc: &mut TextDoc, idx: usize, range: Range<usize>, fmt: &RunFormat) -> (r:
    Result<(), ModelError>)
    ensures
        sequence::sound_s(old(doc)@) && r is Ok ==> sequence::sound_s(final(doc)@),
        edits::text_block_s(old(doc)@, idx as int) matches Some(b) ==> doc::writable_s(old(doc)@, b)
            && range.start < range.end <= doc::text_s(old(doc)@, b).len() && format_allowed_s(
            old(doc)@.s.marks,
            fmt@,
        ) ==> r is Ok,
        edits::text_block_s(old(doc)@, idx as int) is None ==> r == Err::<(), ModelError>(
            ModelError::NoBlock,
        ) && final(doc)@ == old(doc)@,
        edits::text_block_s(old(doc)@, idx as int) is Some ==> (r matches Err(e) ==> e
            == ModelError::Store),
        r is Ok ==> edits::text_edited_s(
            old(doc)@,
            edits::text_block_s(old(doc)@, idx as int)->0,
            format_ops_s(range.start, range.end, fmt@),
            final(doc)@,
        ),
{
    let id = match doc.text_block(idx) {
        Ok(id) => id,
        Err(e) => {
            return Err(e);
        },
    };
    proof {
        let t = doc::text_s(doc@, id);
        if range.start < range.end <= t.len() && format_allowed_s(doc@.s.marks, fmt@) {
            lemma_format_sits(doc@.s.marks, t.len(), range.start, range.end, fmt@);
            edits::lemma_sitting_fits(doc@.s.marks, t, format_ops_s(range.start, range.end, fmt@));
        }
    }
    let ghost d0 = doc@;
    let r = doc.run_ops(id, &format_ops(range.start, range.end, fmt));
    proof {
        if r is Ok && sequence::sound_s(d0) {
            sequence::law_text_edits_keep_sound(d0, doc@, id);
        }
    }
    r
}

/// The edits that clear all direct formatting over a range.
pub open spec fn clear_ops_s(from: usize, to: usize) -> Seq<TextOpV> {
    seq![
        TextOpV::Clear { from, to, key: "b"@ },
        TextOpV::Clear { from, to, key: "i"@ },
        TextOpV::Clear { from, to, key: "u"@ },
        TextOpV::Clear { from, to, key: "strike"@ },
        TextOpV::Clear { from, to, key: "sz"@ },
        TextOpV::Clear { from, to, key: "color"@ },
        TextOpV::Clear { from, to, key: "font"@ },
        TextOpV::Clear { from, to, key: "hl"@ },
        TextOpV::Clear { from, to, key: "va"@ },
        TextOpV::Clear { from, to, key: "rstyle"@ },
        TextOpV::Clear { from, to, key: "rshd"@ },
    ]
}

/// Whether the marks of all direct formatting may be cleared.
pub open spec fn clear_allowed_s(marks: Map<Seq<char>, bool>) -> bool {
    &&& marks.contains_key("b"@)
    &&& marks.contains_key("i"@)
    &&& marks.contains_key("u"@)
    &&& marks.contains_key("strike"@)
    &&& marks.contains_key("sz"@)
    &&& marks.contains_key("color"@)
    &&& marks.contains_key("font"@)
    &&& marks.contains_key("hl"@)
    &&& marks.contains_key("va"@)
    &&& marks.contains_key("rstyle"@)
    &&& marks.contains_key("rshd"@)
}

fn clear_ops(from: usize, to: usize) -> (v: Vec<TextOp>)
    ensures
        edits::text_op_vs(v@) == clear_ops_s(from, to),
        edits::all_possible_s(edits::text_op_vs(v@)),
{
    let mut v: Vec<TextOp> = Vec::new();
    v.push(TextOp::Clear { from, to, key: "b".to_string() });
    v.push(TextOp::Clear { from, to, key: "i".to_string() });
    v.push(TextOp::Clear { from, to, key: "u".to_string() });
    v.push(TextOp::Clear { from, to, key: "strike".to_string() });
    v.push(TextOp::Clear { from, to, key: "sz".to_string() });
    v.push(TextOp::Clear { from, to, key: "color".to_string() });
    v.push(TextOp::Clear { from, to, key: "font".to_string() });
    v.push(TextOp::Clear { from, to, key: "hl".to_string() });
    v.push(TextOp::Clear { from, to, key: "va".to_string() });
    v.push(TextOp::Clear { from, to, key: "rstyle".to_string() });
    v.push(TextOp::Clear { from, to, key: "rshd".to_string() });
    assert(edits::text_op_vs(v@) =~= clear_ops_s(from, to));
    v
}

/// Clear all direct formatting over a range of a paragraph. Annotations and revisions stay.
pub fn clear_run_format(doc: &mut TextDoc, idx: usize, range: Range<usize>) -> (r: Result<
    (),
    ModelError,
>)
    ensures
        sequence::sound_s(old(doc)@) && r is Ok ==> sequence::sound_s(final(doc)@),
        edits::text_block_s(old(doc)@, idx as int) matches Some(b) ==> doc::writable_s(old(doc)@, b)
            && range.start < range.end <= doc::text_s(old(doc)@, b).len() && clear_allowed_s(
            old(doc)@.s.marks,
        ) ==> r is Ok,
        edits::text_block_s(old(doc)@, idx as int) is None ==> r == Err::<(), ModelError>(
            ModelError::NoBlock,
        ) && final(doc)@ == old(doc)@,
        edits::text_block_s(old(doc)@, idx as int) is Some ==> (r matches Err(e) ==> e
            == ModelError::Store),
        r is Ok ==> edits::text_edited_s(
            old(doc)@,
            edits::text_block_s(old(doc)@, idx as int)->0,
            clear_ops_s(range.start, range.end),
            final(doc)@,
        ),
{
    let id = match doc.text_block(idx) {
        Ok(id) => id,
        Err(e) => {
            return Err(e);
        },
    };
    proof {
        let t = doc::text_s(doc@, id);
        if range.start < range.end <= t.len() && clear_allowed_s(doc@.s.marks) {
            edits::lemma_sitting_fits(doc@.s.marks, t, clear_ops_s(range.start, range.end));
        }
    }
    let ghost d0 = doc@;
    let r = doc.run_ops(id, &clear_ops(range.start, range.end));
    proof {
        if r is Ok && sequence::sound_s(d0) {
            sequence::law_text_edits_keep_sound(d0, doc@, id);
        }
    }
    r
}

// ---------------------------------------------------------------- the selection

/// The formatting of a selection: a value where every run of it agrees, none where they differ.
#[derive(Debug, PartialEq, Eq)]
pub struct SelectionFormat {
    pub bold: Option<bool>,
    pub italic: Option<bool>,
    pub underline: Option<bool>,
    pub strike: Option<bool>,
    pub size: Option<u16>,
    pub color: Option<String>,
    pub font: Option<String>,
    pub highlight: Option<String>,
    pub vert_align: Option<String>,
}

/// The mathematical value of a [`SelectionFormat`].
#[verifier::ext_equal]
pub struct SelectionFormatV {
    pub bold: Option<bool>,
    pub italic: Option<bool>,
    pub underline: Option<bool>,
    pub strike: Option<bool>,
    pub size: Option<u16>,
    pub color: Option<Seq<char>>,
    pub font: Option<Seq<char>>,
    pub highlight: Option<Seq<char>>,
    pub vert_align: Option<Seq<char>>,
}

impl View for SelectionFormat {
    type V = SelectionFormatV;

    open spec fn view(&self) -> SelectionFormatV {
        SelectionFormatV {
            bold: self.bold,
            italic: self.italic,
            underline: self.underline,
            strike: self.strike,
            size: self.size,
            color: strs::opt_s(self.color),
            font: strs::opt_s(self.font),
            highlight: strs::opt_s(self.highlight),
            vert_align: strs::opt_s(self.vert_align),
        }
    }
}

impl Clone for SelectionFormat {
    fn clone(&self) -> (r: Self)
        ensures
            r@ == self@,
    {
        SelectionFormat {
            bold: self.bold,
            italic: self.italic,
            underline: self.underline,
            strike: self.strike,
            size: self.size,
            color: opt_clone(&self.color),
            font: opt_clone(&self.font),
            highlight: opt_clone(&self.highlight),
            vert_align: opt_clone(&self.vert_align),
        }
    }
}

impl SelectionFormatV {
    /// The value with nothing set.
    pub open spec fn initial() -> SelectionFormatV {
        SelectionFormatV {
            bold: None,
            italic: None,
            underline: None,
            strike: None,
            size: None,
            color: None,
            font: None,
            highlight: None,
            vert_align: None,
        }
    }
}

impl Default for SelectionFormat {
    fn default() -> (r: Self)
        ensures
            r@ == SelectionFormatV::initial(),
    {
        SelectionFormat {
            bold: None,
            italic: None,
            underline: None,
            strike: None,
            size: None,
            color: None,
            font: None,
            highlight: None,
            vert_align: None,
        }
    }
}

/// The size of text that nothing sets, in half-points.
pub const DEFAULT_HALFPT: u16 = 22;

/// The font of text that nothing sets.
pub const DEFAULT_FONT: &'static str = "Calibri";

/// Whether a run from `from` to `to` belongs to a selection; for a caret, the run that holds the
/// character before it.
pub open spec fn selected_s(from: usize, to: usize, start: usize, end: usize) -> bool {
    if start == end {
        start > from && start <= to
    } else {
        from < end && to > start
    }
}

/// The runs of a selection among the first `n`.
pub open spec fn selected_runs_s(v: Seq<RunV>, start: usize, end: usize, n: nat) -> Seq<RunV>
    decreases n,
{
    if n == 0 {
        Seq::empty()
    } else {
        let r = selected_runs_s(v, start, end, (n - 1) as nat);
        if selected_s(edits::offset_s(v, (n - 1) as nat), edits::offset_s(v, n), start, end) {
            r.push(v[n - 1])
        } else {
            r
        }
    }
}

/// The runs that a selection speaks of: those in it, or else the first of the paragraph.
pub open spec fn covered_s(v: Seq<RunV>, start: usize, end: usize) -> Seq<RunV> {
    let r = selected_runs_s(v, start, end, v.len());
    if r.len() == 0 && v.len() > 0 {
        seq![v[0]]
    } else {
        r
    }
}

/// The value that all agree on.
pub open spec fn agreed_s<T>(v: Seq<T>) -> Option<T> {
    if forall|i: int| 0 <= i < v.len() ==> #[trigger] v[i] == v[0] {
        Some(v[0])
    } else {
        None
    }
}

/// The text that all agree on; none also where they agree on having none.
pub open spec fn agreed_text_s(v: Seq<Option<Seq<char>>>) -> Option<Seq<char>> {
    match agreed_s(v) {
        Some(o) => o,
        None => None,
    }
}

/// The size of a run: its own, else the style's, else the default.
pub open spec fn size_s(r: RunV, base: StylePropsV) -> u16 {
    match r.size {
        Some(n) => n,
        None => match base.size {
            Some(n) => n,
            None => DEFAULT_HALFPT,
        },
    }
}

/// The font of a run: its own, else the style's, else the default.
pub open spec fn font_s(r: RunV, base: StylePropsV) -> Seq<char> {
    match r.font {
        Some(s) => s,
        None => match base.font {
            Some(s) => s,
            None => DEFAULT_FONT@,
        },
    }
}

/// What text typed into an empty paragraph of this style would look like.
pub open spec fn empty_format_s(base: StylePropsV) -> SelectionFormatV {
    SelectionFormatV {
        bold: Some(base.bold == Some(true)),
        italic: Some(base.italic == Some(true)),
        underline: Some(false),
        strike: Some(false),
        size: Some(
            match base.size {
                Some(n) => n,
                None => DEFAULT_HALFPT,
            },
        ),
        color: base.color,
        font: Some(
            match base.font {
                Some(s) => s,
                None => DEFAULT_FONT@,
            },
        ),
        highlight: None,
        vert_align: None,
    }
}

/// The formatting of a selection in a paragraph of these runs and this resolved style.
pub open spec fn selection_s(v: Seq<RunV>, base: StylePropsV, start: usize, end: usize) -> SelectionFormatV {
    let c = covered_s(v, start, end);
    if c.len() == 0 {
        empty_format_s(base)
    } else {
        SelectionFormatV {
            bold: agreed_s(Seq::new(c.len(), |i: int| c[i].bold)),
            italic: agreed_s(Seq::new(c.len(), |i: int| c[i].italic)),
            underline: agreed_s(Seq::new(c.len(), |i: int| c[i].underline)),
            strike: agreed_s(Seq::new(c.len(), |i: int| c[i].strike)),
            size: agreed_s(Seq::new(c.len(), |i: int| size_s(c[i], base))),
            color: agreed_text_s(Seq::new(c.len(), |i: int| c[i].color)),
            font: agreed_s(Seq::new(c.len(), |i: int| font_s(c[i], base))),
            highlight: agreed_text_s(Seq::new(c.len(), |i: int| c[i].highlight)),
            vert_align: agreed_text_s(Seq::new(c.len(), |i: int| c[i].vert_align)),
        }
    }
}

fn agreed_flag(v: &Vec<bool>) -> (r: Option<bool>)
    requires
        v@.len() > 0,
    ensures
        r == agreed_s(v@),
{
    let mut i: usize = 0;
    while i < v.len()
        invariant
            i <= v@.len(),
            v@.len() > 0,
            forall|j: int| 0 <= j < i ==> #[trigger] v@[j] == v@[0],
        decreases v@.len() - i,
    {
        if v[i] != v[0] {
            return None;
        }
        i = i + 1;
    }
    Some(v[0])
}

fn agreed_size(v: &Vec<u16>) -> (r: Option<u16>)
    requires
        v@.len() > 0,
    ensures
        r == agreed_s(v@),
{
    let mut i: usize = 0;
    while i < v.len()
        invariant
            i <= v@.len(),
            v@.len() > 0,
            forall|j: int| 0 <= j < i ==> #[trigger] v@[j] == v@[0],
        decreases v@.len() - i,
    {
        if v[i] != v[0] {
            return None;
        }
        i = i + 1;
    }
    Some(v[0])
}

pub open spec fn opts_s(v: Seq<Option<String>>) -> Seq<Option<Seq<char>>> {
    Seq::new(v.len(), |i: int| strs::opt_s(v[i]))
}

fn agreed_text(v: &Vec<Option<String>>) -> (r: Option<String>)
    requires
        v@.len() > 0,
    ensures
        strs::opt_s(r) == agreed_text_s(opts_s(v@)),
{
    let ghost w = opts_s(v@);
    let mut i: usize = 0;
    while i < v.len()
        invariant
            i <= v@.len(),
            v@.len() > 0,
            w == opts_s(v@),
            forall|j: int| 0 <= j < i ==> #[trigger] w[j] == w[0],
        decreases v@.len() - i,
    {
        assert(w[i as int] == strs::opt_s(v@[i as int]));
        assert(w[0] == strs::opt_s(v@[0]));
        if !opt_eq(&v[i], &v[0]) {
            assert(w[i as int] != w[0]);
            return None;
        }
        i = i + 1;
    }
    opt_clone(&v[0])
}

fn agreed_font(v: &Vec<String>) -> (r: Option<String>)
    requires
        v@.len() > 0,
    ensures
        strs::opt_s(r) == agreed_s(crate::search::texts_s(v@)),
{
    let ghost w = crate::search::texts_s(v@);
    let mut i: usize = 0;
    while i < v.len()
        invariant
            i <= v@.len(),
            v@.len() > 0,
            w == crate::search::texts_s(v@),
            forall|j: int| 0 <= j < i ==> #[trigger] w[j] == w[0],
        decreases v@.len() - i,
    {
        assert(w[i as int] == v@[i as int]@);
        assert(w[0] == v@[0]@);
        if !str_eq(v[i].as_str(), v[0].as_str()) {
            assert(w[i as int] != w[0]);
            return None;
        }
        i = i + 1;
    }
    Some(v[0].clone())
}

fn covered(v: &Vec<Run>, start: usize, end: usize) -> (r: Vec<usize>)
    ensures
        r@.len() == covered_s(types::run_vs(v@), start, end).len(),
        forall|i: int|
            0 <= i < r@.len() ==> (#[trigger] r@[i]) < v@.len() && v@[r@[i] as int]@ == covered_s(
                types::run_vs(v@),
                start,
                end,
            )[i],
{
    let ghost w = types::run_vs(v@);
    let mut out: Vec<usize> = Vec::new();
    let mut pos: usize = 0;
    let mut i: usize = 0;
    while i < v.len()
        invariant
            i <= v@.len(),
            w == types::run_vs(v@),
            pos == edits::offset_s(w, i as nat),
            out@.len() == selected_runs_s(w, start, end, i as nat).len(),
            forall|j: int|
                0 <= j < out@.len() ==> (#[trigger] out@[j]) < v@.len() && v@[out@[j] as int]@
                    == selected_runs_s(w, start, end, i as nat)[j],
        decreases v@.len() - i,
    {
        assert(w[i as int] == v@[i as int]@);
        proof {
            edits::lemma_offset(w, i as nat);
        }
        let to = advance(pos, v[i].text.as_str().unicode_len());
        let hit = if start == end {
            start > pos && start <= to
        } else {
            pos < end && to > start
        };
        if hit {
            out.push(i);
        }
        pos = to;
        i = i + 1;
    }
    if out.len() == 0 && v.len() > 0 {
        out.push(0);
        assert(w[0] == v@[0]@);
    }
    out
}

fn some_or(o: Option<u16>, d: u16) -> (r: u16)
    ensures
        r == (match o {
            Some(n) => n,
            None => d,
        }),
{
    match o {
        Some(n) => n,
        None => d,
    }
}

fn font_or(o: &Option<String>) -> (r: String)
    ensures
        r@ == (match strs::opt_s(*o) {
            Some(s) => s,
            None => DEFAULT_FONT@,
        }),
{
    match o {
        Some(s) => s.clone(),
        None => DEFAULT_FONT.to_string(),
    }
}

fn is_on(o: Option<bool>) -> (r: bool)
    ensures
        r == (o == Some(true)),
{
    match o {
        Some(b) => b,
        None => false,
    }
}

/// The formatting of a selection in a paragraph of these runs and this resolved style. The size
/// and the font are the ones in effect, so that text without its own shows what it inherits.
pub fn selection_of(v: &Vec<Run>, base: &StyleProps, start: usize, end: usize) -> (r: SelectionFormat)
    ensures
        r@ == selection_s(types::run_vs(v@), base@, start, end),
{
    let c = covered(v, start, end);
    let ghost cs = covered_s(types::run_vs(v@), start, end);
    if c.len() == 0 {
        return SelectionFormat {
            bold: Some(is_on(base.bold)),
            italic: Some(is_on(base.italic)),
            underline: Some(false),
            strike: Some(false),
            size: Some(some_or(base.size, DEFAULT_HALFPT)),
            color: opt_clone(&base.color),
            font: Some(font_or(&base.font)),
            highlight: None,
            vert_align: None,
        };
    }
    let mut bold: Vec<bool> = Vec::new();
    let mut italic: Vec<bool> = Vec::new();
    let mut underline: Vec<bool> = Vec::new();
    let mut strike: Vec<bool> = Vec::new();
    let mut size: Vec<u16> = Vec::new();
    let mut i: usize = 0;
    while i < c.len()
        invariant
            i <= c@.len() == cs.len(),
            forall|j: int| 0 <= j < c@.len() ==> (#[trigger] c@[j]) < v@.len() && v@[c@[j] as int]@
                == cs[j],
            bold@ =~= Seq::new(i as nat, |j: int| cs[j].bold),
            italic@ =~= Seq::new(i as nat, |j: int| cs[j].italic),
            underline@ =~= Seq::new(i as nat, |j: int| cs[j].underline),
            strike@ =~= Seq::new(i as nat, |j: int| cs[j].strike),
            size@ =~= Seq::new(i as nat, |j: int| size_s(cs[j], base@)),
        decreases c@.len() - i,
    {
        let run = &v[c[i]];
        assert(run@ == cs[i as int]);
        bold.push(run.bold);
        italic.push(run.italic);
        underline.push(run.underline);
        strike.push(run.strike);
        size.push(
            match run.size {
                Some(n) => n,
                None => some_or(base.size, DEFAULT_HALFPT),
            },
        );
        i = i + 1;
    }
    let texts = selected_texts(v, base, &c, Ghost(cs));
    SelectionFormat {
        bold: agreed_flag(&bold),
        italic: agreed_flag(&italic),
        underline: agreed_flag(&underline),
        strike: agreed_flag(&strike),
        size: agreed_size(&size),
        color: texts.0,
        font: texts.1,
        highlight: texts.2,
        vert_align: texts.3,
    }
}

fn selected_texts(v: &Vec<Run>, base: &StyleProps, c: &Vec<usize>, Ghost(cs): Ghost<Seq<RunV>>) -> (r:
    (Option<String>, Option<String>, Option<String>, Option<String>))
    requires
        c@.len() == cs.len(),
        c@.len() > 0,
        forall|j: int| 0 <= j < c@.len() ==> (#[trigger] c@[j]) < v@.len() && v@[c@[j] as int]@
            == cs[j],
    ensures
        strs::opt_s(r.0) == agreed_text_s(Seq::new(cs.len(), |i: int| cs[i].color)),
        strs::opt_s(r.1) == agreed_s(Seq::new(cs.len(), |i: int| font_s(cs[i], base@))),
        strs::opt_s(r.2) == agreed_text_s(Seq::new(cs.len(), |i: int| cs[i].highlight)),
        strs::opt_s(r.3) == agreed_text_s(Seq::new(cs.len(), |i: int| cs[i].vert_align)),
{
    let mut color: Vec<Option<String>> = Vec::new();
    let mut font: Vec<String> = Vec::new();
    let mut highlight: Vec<Option<String>> = Vec::new();
    let mut vert: Vec<Option<String>> = Vec::new();
    let mut i: usize = 0;
    while i < c.len()
        invariant
            i <= c@.len() == cs.len(),
            forall|j: int| 0 <= j < c@.len() ==> (#[trigger] c@[j]) < v@.len() && v@[c@[j] as int]@
                == cs[j],
            color@.len() == i,
            font@.len() == i,
            highlight@.len() == i,
            vert@.len() == i,
            forall|j: int| 0 <= j < i ==> strs::opt_s(#[trigger] color@[j]) == cs[j].color,
            forall|j: int| 0 <= j < i ==> (#[trigger] font@[j])@ == font_s(cs[j], base@),
            forall|j: int| 0 <= j < i ==> strs::opt_s(#[trigger] highlight@[j]) == cs[j].highlight,
            forall|j: int| 0 <= j < i ==> strs::opt_s(#[trigger] vert@[j]) == cs[j].vert_align,
        decreases c@.len() - i,
    {
        let run = &v[c[i]];
        assert(run@ == cs[i as int]);
        color.push(opt_clone(&run.color));
        font.push(
            match &run.font {
                Some(s) => s.clone(),
                None => font_or(&base.font),
            },
        );
        highlight.push(opt_clone(&run.highlight));
        vert.push(opt_clone(&run.vert_align));
        i = i + 1;
    }
    assert(opts_s(color@) =~= Seq::new(cs.len(), |i: int| cs[i].color));
    assert(crate::search::texts_s(font@) =~= Seq::new(cs.len(), |i: int| font_s(cs[i], base@)));
    assert(opts_s(highlight@) =~= Seq::new(cs.len(), |i: int| cs[i].highlight));
    assert(opts_s(vert@) =~= Seq::new(cs.len(), |i: int| cs[i].vert_align));
    (agreed_text(&color), agreed_font(&font), agreed_text(&highlight), agreed_text(&vert))
}

/// The formatting of the selection `start..end` of a paragraph; nothing past the last one.
pub fn selection_format(
    doc: &TextDoc,
    styles: &StyleTable,
    idx: usize,
    start: usize,
    end: usize,
) -> (r: Result<SelectionFormat, ModelError>)
    ensures
        r matches Ok(f) && f@ == (if idx < read::refs_s(doc@).len() {
            let p = read::paragraphs_s(doc@)[idx as int];
            selection_s(p.runs, styles::resolve_s(styles@, p.style), start, end)
        } else {
            SelectionFormatV::initial()
        }),
{
    let id = match doc.nth_block(idx) {
        Ok(id) => id,
        Err(_) => {
            return Ok(SelectionFormat::default());
        },
    };
    let para = doc.read_paragraph(id);
    let base = match &para.style {
        Some(s) => styles.resolve(Some(s.as_str())),
        None => styles.resolve(None),
    };
    Ok(selection_of(&para.runs, &base, start, end))
}

// ---------------------------------------------------------------- paragraph formatting

/// Apply paragraph formatting: each property that is set is written.
pub fn apply_paragraph_format(doc: &mut TextDoc, idx: usize, p: &ParaProps) -> (r: Result<
    (),
    ModelError,
>)
    ensures
        idx < read::refs_s(old(doc)@).len() && old(doc)@.s.editable && store::live_s(
            old(doc)@.s,
            read::block_s(old(doc)@, idx as int),
        ) ==> r is Ok,
        idx >= read::refs_s(old(doc)@).len() ==> r == Err::<(), ModelError>(ModelError::NoBlock)
            && final(doc)@ == old(doc)@,
        idx < read::refs_s(old(doc)@).len() ==> (r matches Err(e) ==> e == ModelError::Store),
        r is Ok ==> final(doc)@ == props::metas_set_s(
            old(doc)@,
            read::block_s(old(doc)@, idx as int),
            props::with_para_props_s(
                old(doc)@.s.metas[read::block_s(old(doc)@, idx as int)],
                p@,
                false,
            ),
        ),
{
    match doc.nth_block(idx) {
        Ok(id) => doc.write_para_props(id, p),
        Err(e) => Err(e),
    }
}

/// The properties with a style, or without one.
pub open spec fn styled_s(m: PropsV, style: Option<Seq<char>>) -> PropsV {
    match style {
        Some(s) => m.insert("style"@, ScalarV::Text(s)),
        None => m.remove("style"@),
    }
}

/// The properties with a list and a level, or without them. A level below zero is zero.
pub open spec fn numbered_s(m: PropsV, num_id: Option<i32>, ilvl: Option<i32>) -> PropsV {
    match num_id {
        Some(n) => m.insert("numId"@, ScalarV::Int(n as i64)).insert(
            "ilvl"@,
            ScalarV::Int(level_s(ilvl) as i64),
        ),
        None => m.remove("numId"@).remove("ilvl"@),
    }
}

pub open spec fn level_s(ilvl: Option<i32>) -> int {
    match ilvl {
        Some(l) => if l > 0 {
            l as int
        } else {
            0
        },
        None => 0,
    }
}

/// The tracked change that keeps how a paragraph was.
pub open spec fn before_s(m: PropsV, author: Seq<char>, date: Seq<char>, id: u64) -> ParaPropChangeV {
    ParaPropChangeV {
        author,
        date,
        id,
        old_style: runs::text_prop_s(m, "style"@),
        old: props::para_props_s(m),
    }
}

/// The properties `n` that `m` became, with the change recorded; a change that was already
/// recorded stays.
pub open spec fn recorded_s(
    m: PropsV,
    n: PropsV,
    author: Seq<char>,
    date: Seq<char>,
    id: u64,
) -> PropsV {
    if runs::text_prop_s(m, "ppc"@) is Some {
        n
    } else {
        n.insert("ppc"@, ScalarV::Text(props::prop_change_text_s(before_s(m, author, date, id))))
    }
}

/// Whether what is recorded of a paragraph, where no change of it was, reads back.
pub open spec fn record_reads_s(m: PropsV, author: Seq<char>, date: Seq<char>, id: u64) -> bool {
    runs::text_prop_s(m, "ppc"@) is None ==> props::change_reads_s(before_s(m, author, date, id))
}

impl TextDoc {
    /// Set or clear a block's style.
    pub(crate) fn restyle(&mut self, id: BlockId, style: &Option<String>) -> (r: Result<
        (),
        ModelError,
    >)
        ensures
            old(self)@.s.editable && store::live_s(old(self)@.s, id) ==> r is Ok,
            r is Ok ==> final(self)@ == props::metas_set_s(
                old(self)@,
                id,
                styled_s(old(self)@.s.metas[id], strs::opt_s(*style)),
            ),
            r matches Err(e) ==> e == ModelError::Store,
    {
        proof {
            props::lemma_change_keys();
        }
        match style {
            Some(s) => self.set_meta(id, "style", &Scalar::Text(s.clone())),
            None => self.clear_meta(id, "style"),
        }
    }

    /// Put a block into a list, or take it out of one.
    fn renumber(&mut self, id: BlockId, num_id: Option<i32>, ilvl: Option<i32>) -> (r: Result<
        (),
        ModelError,
    >)
        ensures
            old(self)@.s.editable && store::live_s(old(self)@.s, id) ==> r is Ok,
            r is Ok ==> final(self)@ == props::metas_set_s(
                old(self)@,
                id,
                numbered_s(old(self)@.s.metas[id], num_id, ilvl),
            ),
            r matches Err(e) ==> e == ModelError::Store,
    {
        let ghost d = self@;
        proof {
            props::lemma_para_keys();
        }
        let done = match num_id {
            Some(n) => {
                let level: i64 = match ilvl {
                    Some(l) => if l > 0 {
                        l as i64
                    } else {
                        0
                    },
                    None => 0,
                };
                match self.set_meta(id, "numId", &Scalar::Int(n as i64)) {
                    Ok(()) => self.set_meta(id, "ilvl", &Scalar::Int(level)),
                    Err(e) => Err(e),
                }
            },
            None => match self.clear_meta(id, "numId") {
                Ok(()) => self.clear_meta(id, "ilvl"),
                Err(e) => Err(e),
            },
        };
        proof {
            if done is Ok {
                let m = numbered_s(d.s.metas[id], num_id, ilvl);
                assert(self@.s.metas =~= d.s.metas.insert(id, m));
            }
        }
        done
    }

    /// How a block's paragraph is now, unless a change of it is already recorded.
    fn before(&self, id: BlockId, author: &str, date: &str, rev: u64) -> (r: Option<ParaPropChange>)
        ensures
            types::para_prop_change_ov(r) == (if runs::text_prop_s(
                self@.s.metas[id],
                "ppc"@,
            ) is Some {
                None
            } else {
                Some(before_s(self@.s.metas[id], author@, date@, rev))
            }),
    {
        match self.meta_string(id, "ppc") {
            Some(_) => None,
            None => Some(
                ParaPropChange {
                    author: author.to_string(),
                    date: date.to_string(),
                    id: rev,
                    old_style: self.meta_string(id, "style"),
                    old: self.read_para_props(id),
                },
            ),
        }
    }

    /// Record how a block's paragraph was.
    fn record(&mut self, id: BlockId, c: &Option<ParaPropChange>) -> (r: Result<(), ModelError>)
        ensures
            old(self)@.s.editable && store::live_s(old(self)@.s, id) ==> r is Ok,
            r is Ok ==> final(self)@ == (match types::para_prop_change_ov(*c) {
                Some(x) => doc::meta_set_s(
                    old(self)@,
                    id,
                    "ppc"@,
                    ScalarV::Text(props::prop_change_text_s(x)),
                ),
                None => old(self)@,
            }),
            r is Ok ==> (types::para_prop_change_ov(*c) matches Some(x) ==> props::change_reads_s(x)),
            r matches Err(e) ==> e == ModelError::Store,
    {
        match c {
            Some(c) => self.write_para_prop_change(id, c),
            None => Ok(()),
        }
    }
}

/// Set a paragraph's style, or clear it.
pub fn set_paragraph_style(doc: &mut TextDoc, idx: usize, style: &Option<String>) -> (r: Result<
    (),
    ModelError,
>)
    ensures
        idx < read::refs_s(old(doc)@).len() && old(doc)@.s.editable && store::live_s(
            old(doc)@.s,
            read::block_s(old(doc)@, idx as int),
        ) ==> r is Ok,
        idx >= read::refs_s(old(doc)@).len() ==> r == Err::<(), ModelError>(ModelError::NoBlock)
            && final(doc)@ == old(doc)@,
        idx < read::refs_s(old(doc)@).len() ==> (r matches Err(e) ==> e == ModelError::Store),
        r is Ok ==> final(doc)@ == props::metas_set_s(
            old(doc)@,
            read::block_s(old(doc)@, idx as int),
            styled_s(
                old(doc)@.s.metas[read::block_s(old(doc)@, idx as int)],
                strs::opt_s(*style),
            ),
        ),
{
    match doc.nth_block(idx) {
        Ok(id) => doc.restyle(id, style),
        Err(e) => Err(e),
    }
}

/// Put a paragraph into a list, or take it out of one.
pub fn set_numbering(doc: &mut TextDoc, idx: usize, num_id: Option<i32>, ilvl: Option<i32>) -> (r:
    Result<(), ModelError>)
    ensures
        idx < read::refs_s(old(doc)@).len() && old(doc)@.s.editable && store::live_s(
            old(doc)@.s,
            read::block_s(old(doc)@, idx as int),
        ) ==> r is Ok,
        idx >= read::refs_s(old(doc)@).len() ==> r == Err::<(), ModelError>(ModelError::NoBlock)
            && final(doc)@ == old(doc)@,
        idx < read::refs_s(old(doc)@).len() ==> (r matches Err(e) ==> e == ModelError::Store),
        r is Ok ==> final(doc)@ == props::metas_set_s(
            old(doc)@,
            read::block_s(old(doc)@, idx as int),
            numbered_s(
                old(doc)@.s.metas[read::block_s(old(doc)@, idx as int)],
                num_id,
                ilvl,
            ),
        ),
{
    match doc.nth_block(idx) {
        Ok(id) => doc.renumber(id, num_id, ilvl),
        Err(e) => Err(e),
    }
}

/// Set or clear a paragraph's style as a tracked change, recording how the paragraph was.
pub fn suggest_paragraph_style(
    doc: &mut TextDoc,
    idx: usize,
    style: &Option<String>,
    author: &str,
    date: &str,
    id: u64,
) -> (r: Result<(), ModelError>)
    ensures
        idx < read::refs_s(old(doc)@).len() && old(doc)@.s.editable && store::live_s(
            old(doc)@.s,
            read::block_s(old(doc)@, idx as int),
        ) ==> r is Ok,
        idx >= read::refs_s(old(doc)@).len() ==> r == Err::<(), ModelError>(ModelError::NoBlock)
            && final(doc)@ == old(doc)@,
        idx < read::refs_s(old(doc)@).len() ==> (r matches Err(e) ==> e == ModelError::Store),
        r is Ok ==> final(doc)@ == props::metas_set_s(
            old(doc)@,
            read::block_s(old(doc)@, idx as int),
            recorded_s(
                old(doc)@.s.metas[read::block_s(old(doc)@, idx as int)],
                styled_s(
                    old(doc)@.s.metas[read::block_s(old(doc)@, idx as int)],
                    strs::opt_s(*style),
                ),
                author@,
                date@,
                id,
            ),
        ),
        r is Ok ==> record_reads_s(
            old(doc)@.s.metas[read::block_s(old(doc)@, idx as int)],
            author@,
            date@,
            id,
        ),
{
    let ghost d = doc@;
    let block = match doc.nth_block(idx) {
        Ok(id) => id,
        Err(e) => {
            return Err(e);
        },
    };
    let before = doc.before(block, author, date, id);
    match doc.restyle(block, style) {
        Ok(()) => {},
        Err(e) => {
            return Err(e);
        },
    }
    let r = doc.record(block, &before);
    proof {
        if r is Ok {
            assert(doc@.s.metas =~= d.s.metas.insert(block, doc@.s.metas[block]));
        }
    }
    r
}

/// Apply paragraph formatting as a tracked change, recording how the paragraph was.
pub fn suggest_paragraph_format(
    doc: &mut TextDoc,
    idx: usize,
    p: &ParaProps,
    author: &str,
    date: &str,
    id: u64,
) -> (r: Result<(), ModelError>)
    ensures
        idx < read::refs_s(old(doc)@).len() && old(doc)@.s.editable && store::live_s(
            old(doc)@.s,
            read::block_s(old(doc)@, idx as int),
        ) ==> r is Ok,
        idx >= read::refs_s(old(doc)@).len() ==> r == Err::<(), ModelError>(ModelError::NoBlock)
            && final(doc)@ == old(doc)@,
        idx < read::refs_s(old(doc)@).len() ==> (r matches Err(e) ==> e == ModelError::Store),
        r is Ok ==> final(doc)@ == props::metas_set_s(
            old(doc)@,
            read::block_s(old(doc)@, idx as int),
            recorded_s(
                old(doc)@.s.metas[read::block_s(old(doc)@, idx as int)],
                props::with_para_props_s(
                    old(doc)@.s.metas[read::block_s(old(doc)@, idx as int)],
                    p@,
                    false,
                ),
                author@,
                date@,
                id,
            ),
        ),
        r is Ok ==> record_reads_s(
            old(doc)@.s.metas[read::block_s(old(doc)@, idx as int)],
            author@,
            date@,
            id,
        ),
{
    let ghost d = doc@;
    let block = match doc.nth_block(idx) {
        Ok(id) => id,
        Err(e) => {
            return Err(e);
        },
    };
    let before = doc.before(block, author, date, id);
    match doc.write_para_props(block, p) {
        Ok(()) => {},
        Err(e) => {
            return Err(e);
        },
    }
    let r = doc.record(block, &before);
    proof {
        if r is Ok {
            assert(doc@.s.metas =~= d.s.metas.insert(block, doc@.s.metas[block]));
        }
    }
    r
}

/// Put a paragraph into a list, or take it out of one, as a tracked change, recording how the
/// paragraph was.
pub fn suggest_numbering(
    doc: &mut TextDoc,
    idx: usize,
    num_id: Option<i32>,
    ilvl: Option<i32>,
    author: &str,
    date: &str,
    id: u64,
) -> (r: Result<(), ModelError>)
    ensures
        idx < read::refs_s(old(doc)@).len() && old(doc)@.s.editable && store::live_s(
            old(doc)@.s,
            read::block_s(old(doc)@, idx as int),
        ) ==> r is Ok,
        idx >= read::refs_s(old(doc)@).len() ==> r == Err::<(), ModelError>(ModelError::NoBlock)
            && final(doc)@ == old(doc)@,
        idx < read::refs_s(old(doc)@).len() ==> (r matches Err(e) ==> e == ModelError::Store),
        r is Ok ==> final(doc)@ == props::metas_set_s(
            old(doc)@,
            read::block_s(old(doc)@, idx as int),
            recorded_s(
                old(doc)@.s.metas[read::block_s(old(doc)@, idx as int)],
                numbered_s(
                    old(doc)@.s.metas[read::block_s(old(doc)@, idx as int)],
                    num_id,
                    ilvl,
                ),
                author@,
                date@,
                id,
            ),
        ),
        r is Ok ==> record_reads_s(
            old(doc)@.s.metas[read::block_s(old(doc)@, idx as int)],
            author@,
            date@,
            id,
        ),
{
    let ghost d = doc@;
    let block = match doc.nth_block(idx) {
        Ok(id) => id,
        Err(e) => {
            return Err(e);
        },
    };
    let before = doc.before(block, author, date, id);
    match doc.renumber(block, num_id, ilvl) {
        Ok(()) => {},
        Err(e) => {
            return Err(e);
        },
    }
    let r = doc.record(block, &before);
    proof {
        if r is Ok {
            assert(doc@.s.metas =~= d.s.metas.insert(block, doc@.s.metas[block]));
        }
    }
    r
}

/// The paragraph formatting of a paragraph; nothing set past the last one.
pub fn paragraph_format(doc: &TextDoc, idx: usize) -> (r: Result<ParaProps, ModelError>)
    ensures
        r matches Ok(p) && p@ == (if idx < read::refs_s(doc@).len() {
            props::para_props_s(doc@.s.metas[read::block_s(doc@, idx as int)])
        } else {
            ParaPropsV::initial()
        }),
{
    match doc.nth_block(idx) {
        Ok(id) => Ok(doc.read_para_props(id)),
        Err(_) => Ok(ParaProps::default()),
    }
}

/// The style of a paragraph.
pub fn paragraph_style(doc: &TextDoc, idx: usize) -> (r: Option<String>)
    ensures
        strs::opt_s(r) == (if idx < read::refs_s(doc@).len() {
            runs::text_prop_s(doc@.s.metas[read::block_s(doc@, idx as int)], "style"@)
        } else {
            None
        }),
{
    match doc.nth_block(idx) {
        Ok(id) => doc.meta_string(id, "style"),
        Err(_) => None,
    }
}

} // verus!
