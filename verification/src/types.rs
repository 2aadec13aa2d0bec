//! The document value types.
//!
//! Paragraphs, runs and their properties, the table structure, and the tracked-change
//! records attached to them. Each type has a mathematical value, its view, over which
//! the contracts of the other modules are written.

use vstd::prelude::*;

use crate::strs;
use crate::strs::opt_clone;
use crate::strs::str_eq;

verus! {


/// Which kind of tracked change a run carries.
#[derive(Debug, Clone, Copy, PartialEq, Eq, Structural)]
pub enum TrackKind {
    /// A suggested insertion (`w:ins`).
    Ins,
    /// A suggested deletion (`w:del`); the text is retained and marked, not removed.
    Del,
    /// A suggested run-property change (`w:rPrChange`). It labels a region; a run carries
    /// the change itself in `fmt_change`.
    Fmt,
    /// The source half of a move (`w:moveFrom`): resolves like a deletion.
    MoveFrom,
    /// The destination half of a move (`w:moveTo`): resolves like an insertion.
    MoveTo,
}

impl TrackKind {
    /// The mark key of this kind on run text.
    pub open spec fn mark_key_s(self) -> Seq<char> {
        match self {
            TrackKind::Ins => "ins"@,
            TrackKind::Del => "del"@,
            TrackKind::Fmt => "rfmt"@,
            TrackKind::MoveFrom => "mvf"@,
            TrackKind::MoveTo => "mvt"@,
        }
    }

    pub(crate) fn mark_key(self) -> (r: &'static str)
        ensures
            r@ == self.mark_key_s(),
    {
        match self {
            TrackKind::Ins => "ins",
            TrackKind::Del => "del",
            TrackKind::Fmt => "rfmt",
            TrackKind::MoveFrom => "mvf",
            TrackKind::MoveTo => "mvt",
        }
    }

    /// The OOXML revision element of this kind.
    pub open spec fn wrapper_s(self) -> Seq<char> {
        match self {
            TrackKind::Ins | TrackKind::Fmt => "w:ins"@,
            TrackKind::Del => "w:del"@,
            TrackKind::MoveFrom => "w:moveFrom"@,
            TrackKind::MoveTo => "w:moveTo"@,
        }
    }

    pub(crate) fn wrapper(self) -> (r: &'static str)
        ensures
            r@ == self.wrapper_s(),
    {
        match self {
            TrackKind::Ins | TrackKind::Fmt => "w:ins",
            TrackKind::Del => "w:del",
            TrackKind::MoveFrom => "w:moveFrom",
            TrackKind::MoveTo => "w:moveTo",
        }
    }

    /// Whether run text of this kind is written as `w:delText` rather than `w:t`.
    pub open spec fn is_del_text_s(self) -> bool {
        self == TrackKind::Del
    }

    pub(crate) fn is_del_text(self) -> (r: bool)
        ensures
            r == self.is_del_text_s(),
    {
        matches!(self, TrackKind::Del)
    }

    /// Whether this kind is a move half (`w:moveFrom` / `w:moveTo`).
    pub open spec fn is_move_s(self) -> bool {
        self == TrackKind::MoveFrom || self == TrackKind::MoveTo
    }

    /// Whether this kind is a move half (`w:moveFrom` / `w:moveTo`).
    pub fn is_move(self) -> (r: bool)
        ensures
            r == self.is_move_s(),
    {
        matches!(self, TrackKind::MoveFrom | TrackKind::MoveTo)
    }
}

pub(crate) fn copy_vec<T: Copy>(v: &Vec<T>) -> (r: Vec<T>)
    ensures
        r@ == v@,
{
    let mut r: Vec<T> = Vec::new();
    let mut i: usize = 0;
    while i < v.len()
        invariant
            i <= v@.len(),
            r@ == v@.take(i as int),
        decreases v@.len() - i,
    {
        r.push(v[i]);
        i = i + 1;
        assert(r@ =~= v@.take(i as int));
    }
    assert(r@ =~= v@);
    r
}





/// A snapshot of a run's formatting: the before-state of a tracked run-property change.
#[derive(Debug, PartialEq, Eq)]
pub struct RunProps {
    pub bold: bool,
    pub italic: bool,
    pub underline: bool,
    pub strike: bool,
    pub size: Option<u16>,
    pub color: Option<String>,
    pub font: Option<String>,
    pub highlight: Option<String>,
    /// "superscript" / "subscript", or `None` for the baseline.
    pub vert_align: Option<String>,
    /// Proofing language.
    pub lang: Option<String>,
}

/// The mathematical value of a [`RunProps`].
#[verifier::ext_equal]
pub struct RunPropsV {
    pub bold: bool,
    pub italic: bool,
    pub underline: bool,
    pub strike: bool,
    pub size: Option<u16>,
    pub color: Option<Seq<char>>,
    pub font: Option<Seq<char>>,
    pub highlight: Option<Seq<char>>,
    pub vert_align: Option<Seq<char>>,
    pub lang: Option<Seq<char>>,
}

impl View for RunProps {
    type V = RunPropsV;

    open spec fn view(&self) -> RunPropsV {
        RunPropsV {
            bold: self.bold,
            italic: self.italic,
            underline: self.underline,
            strike: self.strike,
            size: self.size,
            color: strs::opt_s(self.color),
            font: strs::opt_s(self.font),
            highlight: strs::opt_s(self.highlight),
            vert_align: strs::opt_s(self.vert_align),
            lang: strs::opt_s(self.lang),
        }
    }
}

pub open spec fn run_props_ov(o: Option<RunProps>) -> Option<RunPropsV> {
    match o {
        Some(x) => Some(x@),
        None => None,
    }
}

impl Clone for RunProps {
    fn clone(&self) -> (r: Self)
        ensures
            r@ == self@,
    {
        RunProps {
            bold: self.bold,
            italic: self.italic,
            underline: self.underline,
            strike: self.strike,
            size: self.size,
            color: opt_clone(&self.color),
            font: opt_clone(&self.font),
            highlight: opt_clone(&self.highlight),
            vert_align: opt_clone(&self.vert_align),
            lang: opt_clone(&self.lang),
        }
    }
}

impl RunPropsV {
    /// The value with nothing set.
    pub open spec fn initial() -> RunPropsV {
        RunPropsV {
            bold: false,
            italic: false,
            underline: false,
            strike: false,
            size: None,
            color: None,
            font: None,
            highlight: None,
            vert_align: None,
            lang: None,
        }
    }
}

impl Default for RunProps {
    fn default() -> (r: Self)
        ensures
            r@ == RunPropsV::initial(),
    {
        RunProps {
            bold: false,
            italic: false,
            underline: false,
            strike: false,
            size: None,
            color: None,
            font: None,
            highlight: None,
            vert_align: None,
            lang: None,
        }
    }
}

/// A tracked run-property change (`w:rPrChange`): who, when, the revision id, and the
/// formatting before the change.
#[derive(Debug, PartialEq, Eq)]
pub struct FormatChange {
    pub author: String,
    pub date: String,
    pub id: u64,
    pub old: RunProps,
}

/// The mathematical value of a [`FormatChange`].
#[verifier::ext_equal]
pub struct FormatChangeV {
    pub author: Seq<char>,
    pub date: Seq<char>,
    pub id: u64,
    pub old: RunPropsV,
}

impl View for FormatChange {
    type V = FormatChangeV;

    open spec fn view(&self) -> FormatChangeV {
        FormatChangeV {
            author: self.author@,
            date: self.date@,
            id: self.id,
            old: self.old@,
        }
    }
}

pub open spec fn format_change_ov(o: Option<FormatChange>) -> Option<FormatChangeV> {
    match o {
        Some(x) => Some(x@),
        None => None,
    }
}

impl Clone for FormatChange {
    fn clone(&self) -> (r: Self)
        ensures
            r@ == self@,
    {
        FormatChange {
            author: self.author.clone(),
            date: self.date.clone(),
            id: self.id,
            old: self.old.clone(),
        }
    }
}

pub(crate) fn clone_format_change_opt(o: &Option<FormatChange>) -> (r: Option<FormatChange>)
    ensures
        format_change_ov(r) == format_change_ov(*o),
{
    match o {
        Some(x) => Some(x.clone()),
        None => None,
    }
}

/// A tracked change: its kind, who, when, and the OOXML revision id.
#[derive(Debug, PartialEq, Eq)]
pub struct Track {
    pub kind: TrackKind,
    pub author: String,
    pub date: String,
    pub id: u64,
}

/// The mathematical value of a [`Track`].
#[verifier::ext_equal]
pub struct TrackV {
    pub kind: TrackKind,
    pub author: Seq<char>,
    pub date: Seq<char>,
    pub id: u64,
}

impl View for Track {
    type V = TrackV;

    open spec fn view(&self) -> TrackV {
        TrackV {
            kind: self.kind,
            author: self.author@,
            date: self.date@,
            id: self.id,
        }
    }
}

pub open spec fn track_ov(o: Option<Track>) -> Option<TrackV> {
    match o {
        Some(x) => Some(x@),
        None => None,
    }
}

impl Clone for Track {
    fn clone(&self) -> (r: Self)
        ensures
            r@ == self@,
    {
        Track {
            kind: self.kind,
            author: self.author.clone(),
            date: self.date.clone(),
            id: self.id,
        }
    }
}

pub(crate) fn clone_track_opt(o: &Option<Track>) -> (r: Option<Track>)
    ensures
        track_ov(r) == track_ov(*o),
{
    match o {
        Some(x) => Some(x.clone()),
        None => None,
    }
}

pub(crate) fn track_eq(a: &Track, b: &Track) -> (r: bool)
    ensures
        r == (a@ == b@),
{
    a.kind == b.kind
        && str_eq(a.author.as_str(), b.author.as_str())
        && str_eq(a.date.as_str(), b.date.as_str())
        && a.id == b.id
}

pub(crate) fn track_opt_eq(a: &Option<Track>, b: &Option<Track>) -> (r: bool)
    ensures
        r == (track_ov(*a) == track_ov(*b)),
{
    match (a, b) {
        (Some(x), Some(y)) => track_eq(x, y),
        (None, None) => true,
        _ => false,
    }
}

/// One run of text with uniform formatting and an optional tracked change.
#[derive(Debug, PartialEq, Eq)]
pub struct Run {
    pub text: String,
    pub bold: bool,
    pub italic: bool,
    pub underline: bool,
    pub strike: bool,
    /// Font size in half-points (`w:sz`), or `None` to inherit.
    pub size: Option<u16>,
    /// RGB hex, `auto`, or `None` to inherit.
    pub color: Option<String>,
    pub font: Option<String>,
    pub highlight: Option<String>,
    pub vert_align: Option<String>,
    pub lang: Option<String>,
    /// Character style id (`w:rStyle`).
    pub char_style: Option<String>,
    /// Run shading fill (`w:rPr/w:shd`), RGB hex.
    pub shading: Option<String>,
    pub track: Option<Track>,
    pub fmt_change: Option<FormatChange>,
    /// The comments whose range covers this run, ascending.
    pub comments: Vec<u64>,
    /// The field whose cached result this run is part of.
    pub field: Option<u64>,
    /// The bookmarks whose range covers this run, ascending.
    pub bookmarks: Vec<u64>,
    /// Collapsed bookmarks immediately before this run, ascending.
    pub point_bookmarks: Vec<u64>,
    /// Collapsed bookmarks immediately after this run, ascending.
    pub end_point_bookmarks: Vec<u64>,
    /// The hyperlink whose range covers this run.
    pub link: Option<u64>,
    /// The picture this run carries.
    pub image: Option<u64>,
    /// The verbatim passthrough content this run carries.
    pub raw: Option<u64>,
}

/// The mathematical value of a [`Run`].
#[verifier::ext_equal]
pub struct RunV {
    pub text: Seq<char>,
    pub bold: bool,
    pub italic: bool,
    pub underline: bool,
    pub strike: bool,
    pub size: Option<u16>,
    pub color: Option<Seq<char>>,
    pub font: Option<Seq<char>>,
    pub highlight: Option<Seq<char>>,
    pub vert_align: Option<Seq<char>>,
    pub lang: Option<Seq<char>>,
    pub char_style: Option<Seq<char>>,
    pub shading: Option<Seq<char>>,
    pub track: Option<TrackV>,
    pub fmt_change: Option<FormatChangeV>,
    pub comments: Seq<u64>,
    pub field: Option<u64>,
    pub bookmarks: Seq<u64>,
    pub point_bookmarks: Seq<u64>,
    pub end_point_bookmarks: Seq<u64>,
    pub link: Option<u64>,
    pub image: Option<u64>,
    pub raw: Option<u64>,
}

impl View for Run {
    type V = RunV;

    open spec fn view(&self) -> RunV {
        RunV {
            text: self.text@,
            bold: self.bold,
            italic: self.italic,
            underline: self.underline,
            strike: self.strike,
            size: self.size,
            color: strs::opt_s(self.color),
            font: strs::opt_s(self.font),
            highlight: strs::opt_s(self.highlight),
            vert_align: strs::opt_s(self.vert_align),
            lang: strs::opt_s(self.lang),
            char_style: strs::opt_s(self.char_style),
            shading: strs::opt_s(self.shading),
            track: track_ov(self.track),
            fmt_change: format_change_ov(self.fmt_change),
            comments: self.comments@,
            field: self.field,
            bookmarks: self.bookmarks@,
            point_bookmarks: self.point_bookmarks@,
            end_point_bookmarks: self.end_point_bookmarks@,
            link: self.link,
            image: self.image,
            raw: self.raw,
        }
    }
}

pub open spec fn run_vs(s: Seq<Run>) -> Seq<RunV> {
    Seq::new(s.len(), |i: int| s[i]@)
}

impl Clone for Run {
    fn clone(&self) -> (r: Self)
        ensures
            r@ == self@,
    {
        Run {
            text: self.text.clone(),
            bold: self.bold,
            italic: self.italic,
            underline: self.underline,
            strike: self.strike,
            size: self.size,
            color: opt_clone(&self.color),
            font: opt_clone(&self.font),
            highlight: opt_clone(&self.highlight),
            vert_align: opt_clone(&self.vert_align),
            lang: opt_clone(&self.lang),
            char_style: opt_clone(&self.char_style),
            shading: opt_clone(&self.shading),
            track: clone_track_opt(&self.track),
            fmt_change: clone_format_change_opt(&self.fmt_change),
            comments: copy_vec(&self.comments),
            field: self.field,
            bookmarks: copy_vec(&self.bookmarks),
            point_bookmarks: copy_vec(&self.point_bookmarks),
            end_point_bookmarks: copy_vec(&self.end_point_bookmarks),
            link: self.link,
            image: self.image,
            raw: self.raw,
        }
    }
}

pub(crate) fn clone_run_vec(v: &Vec<Run>) -> (r: Vec<Run>)
    ensures
        run_vs(r@) == run_vs(v@),
{
    let mut r: Vec<Run> = Vec::new();
    let mut i: usize = 0;
    while i < v.len()
        invariant
            i <= v@.len(),
            r@.len() == i,
            forall|j: int| 0 <= j < i ==> r@[j]@ == v@[j]@,
        decreases v@.len() - i,
    {
        r.push(v[i].clone());
        i = i + 1;
    }
    assert(run_vs(r@) =~= run_vs(v@));
    r
}

impl RunV {
    /// A run of `text` with no formatting and no tracked change.
    pub open spec fn plain(text: Seq<char>) -> RunV {
        RunV {
            text,
            bold: false,
            italic: false,
            underline: false,
            strike: false,
            size: None,
            color: None,
            font: None,
            highlight: None,
            vert_align: None,
            lang: None,
            char_style: None,
            shading: None,
            track: None,
            fmt_change: None,
            comments: Seq::empty(),
            field: None,
            bookmarks: Seq::empty(),
            point_bookmarks: Seq::empty(),
            end_point_bookmarks: Seq::empty(),
            link: None,
            image: None,
            raw: None,
        }
    }

    /// The formatting of a run.
    pub open spec fn props(self) -> RunPropsV {
        RunPropsV {
            bold: self.bold,
            italic: self.italic,
            underline: self.underline,
            strike: self.strike,
            size: self.size,
            color: self.color,
            font: self.font,
            highlight: self.highlight,
            vert_align: self.vert_align,
            lang: self.lang,
        }
    }
}

impl Run {
    /// A plain run with no formatting and no tracked change.
    pub fn plain(text: &str) -> (r: Self)
        ensures
            r@ == RunV::plain(text@),
    {
        Run {
            text: text.to_owned(),
            bold: false,
            italic: false,
            underline: false,
            strike: false,
            size: None,
            color: None,
            font: None,
            highlight: None,
            vert_align: None,
            lang: None,
            char_style: None,
            shading: None,
            track: None,
            fmt_change: None,
            comments: Vec::new(),
            field: None,
            bookmarks: Vec::new(),
            point_bookmarks: Vec::new(),
            end_point_bookmarks: Vec::new(),
            link: None,
            image: None,
            raw: None,
        }
    }
}

impl RunProps {
    /// The current formatting of a run.
    pub(crate) fn of(run: &Run) -> (r: Self)
        ensures
            r@ == run@.props(),
    {
        RunProps {
            bold: run.bold,
            italic: run.italic,
            underline: run.underline,
            strike: run.strike,
            size: run.size,
            color: opt_clone(&run.color),
            font: opt_clone(&run.font),
            highlight: opt_clone(&run.highlight),
            vert_align: opt_clone(&run.vert_align),
            lang: opt_clone(&run.lang),
        }
    }
}

/// A comment of `word/comments.xml`: identity, body (one `\n`-separated line per `w:p`) and
/// thread state.
#[derive(Debug, PartialEq, Eq)]
pub struct Comment {
    pub id: u64,
    pub author: String,
    pub initials: String,
    pub date: String,
    pub parent: Option<u64>,
    pub resolved: bool,
    pub text: String,
}

/// The mathematical value of a [`Comment`].
#[verifier::ext_equal]
pub struct CommentV {
    pub id: u64,
    pub author: Seq<char>,
    pub initials: Seq<char>,
    pub date: Seq<char>,
    pub parent: Option<u64>,
    pub resolved: bool,
    pub text: Seq<char>,
}

impl View for Comment {
    type V = CommentV;

    open spec fn view(&self) -> CommentV {
        CommentV {
            id: self.id,
            author: self.author@,
            initials: self.initials@,
            date: self.date@,
            parent: self.parent,
            resolved: self.resolved,
            text: self.text@,
        }
    }
}

pub open spec fn comment_ov(o: Option<Comment>) -> Option<CommentV> {
    match o {
        Some(x) => Some(x@),
        None => None,
    }
}

pub open spec fn comment_vs(s: Seq<Comment>) -> Seq<CommentV> {
    Seq::new(s.len(), |i: int| s[i]@)
}

impl Clone for Comment {
    fn clone(&self) -> (r: Self)
        ensures
            r@ == self@,
    {
        Comment {
            id: self.id,
            author: self.author.clone(),
            initials: self.initials.clone(),
            date: self.date.clone(),
            parent: self.parent,
            resolved: self.resolved,
            text: self.text.clone(),
        }
    }
}

/// Line-spacing rule (`w:lineRule`); no rule is `auto`, a multiplier in 240ths of a line.
#[derive(Debug, Clone, Copy, PartialEq, Eq, Structural)]
pub enum LineRule {
    AtLeast,
    Exact,
}

impl LineRule {
    pub open spec fn from_ooxml_s(v: Seq<char>) -> Option<LineRule> {
        if v == "atLeast"@ {
            Some(LineRule::AtLeast)
        } else if v == "exact"@ || v == "exactly"@ {
            Some(LineRule::Exact)
        } else {
            None
        }
    }

    /// Read a `w:lineRule` value.
    pub(crate) fn from_ooxml(v: &str) -> (r: Option<LineRule>)
        ensures
            r == LineRule::from_ooxml_s(v@),
    {
        if str_eq(v, "atLeast") {
            Some(LineRule::AtLeast)
        } else if str_eq(v, "exact") || str_eq(v, "exactly") {
            Some(LineRule::Exact)
        } else {
            None
        }
    }

    pub open spec fn as_str_s(self) -> Seq<char> {
        match self {
            LineRule::AtLeast => "atLeast"@,
            LineRule::Exact => "exact"@,
        }
    }

    /// The OOXML token.
    pub fn as_str(self) -> (r: &'static str)
        ensures
            r@ == self.as_str_s(),
    {
        match self {
            LineRule::AtLeast => "atLeast",
            LineRule::Exact => "exact",
        }
    }

}

/// Paragraph alignment (`w:jc`).
#[derive(Debug, Clone, Copy, PartialEq, Eq, Structural)]
pub enum Align {
    Left,
    Center,
    Right,
    Justify,
}

impl Align {
    pub open spec fn from_ooxml_s(v: Seq<char>) -> Option<Align> {
        if v == "left"@ || v == "start"@ {
            Some(Align::Left)
        } else if v == "center"@ {
            Some(Align::Center)
        } else if v == "right"@ || v == "end"@ {
            Some(Align::Right)
        } else if v == "both"@ || v == "distribute"@ || v == "justify"@ {
            Some(Align::Justify)
        } else {
            None
        }
    }

    /// Read a `w:jc` value.
    pub(crate) fn from_ooxml(v: &str) -> (r: Option<Align>)
        ensures
            r == Align::from_ooxml_s(v@),
    {
        if str_eq(v, "left") || str_eq(v, "start") {
            Some(Align::Left)
        } else if str_eq(v, "center") {
            Some(Align::Center)
        } else if str_eq(v, "right") || str_eq(v, "end") {
            Some(Align::Right)
        } else if str_eq(v, "both") || str_eq(v, "distribute") || str_eq(v, "justify") {
            Some(Align::Justify)
        } else {
            None
        }
    }

    pub open spec fn to_ooxml_s(self) -> Seq<char> {
        match self {
            Align::Left => "left"@,
            Align::Center => "center"@,
            Align::Right => "right"@,
            Align::Justify => "both"@,
        }
    }

    /// The `w:jc` value.
    pub(crate) fn to_ooxml(self) -> (r: &'static str)
        ensures
            r@ == self.to_ooxml_s(),
    {
        match self {
            Align::Left => "left",
            Align::Center => "center",
            Align::Right => "right",
            Align::Justify => "both",
        }
    }

    pub open spec fn as_str_s(self) -> Seq<char> {
        match self {
            Align::Left => "left"@,
            Align::Center => "center"@,
            Align::Right => "right"@,
            Align::Justify => "justify"@,
        }
    }

    /// A stable lowercase token.
    pub fn as_str(self) -> (r: &'static str)
        ensures
            r@ == self.as_str_s(),
    {
        match self {
            Align::Left => "left",
            Align::Center => "center",
            Align::Right => "right",
            Align::Justify => "justify",
        }
    }

    pub open spec fn parse_s(v: Seq<char>) -> Option<Align> {
        if v == "left"@ {
            Some(Align::Left)
        } else if v == "center"@ {
            Some(Align::Center)
        } else if v == "right"@ {
            Some(Align::Right)
        } else if v == "justify"@ {
            Some(Align::Justify)
        } else {
            None
        }
    }

    /// Read the token of `as_str`.
    pub fn parse(v: &str) -> (r: Option<Align>)
        ensures
            r == Align::parse_s(v@),
    {
        if str_eq(v, "left") {
            Some(Align::Left)
        } else if str_eq(v, "center") {
            Some(Align::Center)
        } else if str_eq(v, "right") {
            Some(Align::Right)
        } else if str_eq(v, "justify") {
            Some(Align::Justify)
        } else {
            None
        }
    }

}

/// Paragraph-level formatting. `None` is unset.
#[derive(Debug, PartialEq, Eq)]
pub struct ParaProps {
    pub align: Option<Align>,
    /// `w:line`: 240ths of a line, or twips with a `line_rule`.
    pub line_spacing: Option<u16>,
    pub line_rule: Option<LineRule>,
    pub space_before: Option<u32>,
    pub space_after: Option<u32>,
    pub indent_left: Option<i32>,
    pub indent_right: Option<i32>,
    /// Positive for a first-line indent, negative for hanging.
    pub indent_first: Option<i32>,
    pub num_id: Option<i32>,
    pub num_ilvl: Option<i32>,
    pub shading: Option<String>,
    /// Tab-stop positions in twips.
    pub tab_stops: Vec<u32>,
    /// Alignment per stop: 0 left, 1 center, 2 right, 3 decimal; missing entries are left.
    pub tab_kinds: Vec<u8>,
    pub keep_next: Option<bool>,
    pub contextual_spacing: Option<bool>,
    pub page_break_before: bool,
    /// A manual page break: the content after this paragraph starts a new page.
    pub page_break_after: bool,
    /// This paragraph ends a section whose successor starts a new page.
    pub section_end: bool,
    /// This paragraph ends a section whose successor starts on the same page.
    pub continuous_break: bool,
    pub column_break_after: bool,
    /// The raw attributes of `w:framePr`.
    pub frame: Option<String>,
    /// The border box: `edge=val,sz,space,color` entries joined by `|`.
    pub border: Option<String>,
    /// Size of the paragraph mark in half-points.
    pub mark_size: Option<u32>,
    /// The verbatim `<w:sectPr>` this paragraph carries.
    pub sect_pr: Option<String>,
}

/// The mathematical value of a [`ParaProps`].
#[verifier::ext_equal]
pub struct ParaPropsV {
    pub align: Option<Align>,
    pub line_spacing: Option<u16>,
    pub line_rule: Option<LineRule>,
    pub space_before: Option<u32>,
    pub space_after: Option<u32>,
    pub indent_left: Option<i32>,
    pub indent_right: Option<i32>,
    pub indent_first: Option<i32>,
    pub num_id: Option<i32>,
    pub num_ilvl: Option<i32>,
    pub shading: Option<Seq<char>>,
    pub tab_stops: Seq<u32>,
    pub tab_kinds: Seq<u8>,
    pub keep_next: Option<bool>,
    pub contextual_spacing: Option<bool>,
    pub page_break_before: bool,
    pub page_break_after: bool,
    pub section_end: bool,
    pub continuous_break: bool,
    pub column_break_after: bool,
    pub frame: Option<Seq<char>>,
    pub border: Option<Seq<char>>,
    pub mark_size: Option<u32>,
    pub sect_pr: Option<Seq<char>>,
}

impl View for ParaProps {
    type V = ParaPropsV;

    open spec fn view(&self) -> ParaPropsV {
        ParaPropsV {
            align: self.align,
            line_spacing: self.line_spacing,
            line_rule: self.line_rule,
            space_before: self.space_before,
            space_after: self.space_after,
            indent_left: self.indent_left,
            indent_right: self.indent_right,
            indent_first: self.indent_first,
            num_id: self.num_id,
            num_ilvl: self.num_ilvl,
            shading: strs::opt_s(self.shading),
            tab_stops: self.tab_stops@,
            tab_kinds: self.tab_kinds@,
            keep_next: self.keep_next,
            contextual_spacing: self.contextual_spacing,
            page_break_before: self.page_break_before,
            page_break_after: self.page_break_after,
            section_end: self.section_end,
            continuous_break: self.continuous_break,
            column_break_after: self.column_break_after,
            frame: strs::opt_s(self.frame),
            border: strs::opt_s(self.border),
            mark_size: self.mark_size,
            sect_pr: strs::opt_s(self.sect_pr),
        }
    }
}

pub open spec fn para_props_ov(o: Option<ParaProps>) -> Option<ParaPropsV> {
    match o {
        Some(x) => Some(x@),
        None => None,
    }
}

impl Clone for ParaProps {
    fn clone(&self) -> (r: Self)
        ensures
            r@ == self@,
    {
        ParaProps {
            align: self.align,
            line_spacing: self.line_spacing,
            line_rule: self.line_rule,
            space_before: self.space_before,
            space_after: self.space_after,
            indent_left: self.indent_left,
            indent_right: self.indent_right,
            indent_first: self.indent_first,
            num_id: self.num_id,
            num_ilvl: self.num_ilvl,
            shading: opt_clone(&self.shading),
            tab_stops: copy_vec(&self.tab_stops),
            tab_kinds: copy_vec(&self.tab_kinds),
            keep_next: self.keep_next,
            contextual_spacing: self.contextual_spacing,
            page_break_before: self.page_break_before,
            page_break_after: self.page_break_after,
            section_end: self.section_end,
            continuous_break: self.continuous_break,
            column_break_after: self.column_break_after,
            frame: opt_clone(&self.frame),
            border: opt_clone(&self.border),
            mark_size: self.mark_size,
            sect_pr: opt_clone(&self.sect_pr),
        }
    }
}

impl ParaPropsV {
    /// The value with nothing set.
    pub open spec fn initial() -> ParaPropsV {
        ParaPropsV {
            align: None,
            line_spacing: None,
            line_rule: None,
            space_before: None,
            space_after: None,
            indent_left: None,
            indent_right: None,
            indent_first: None,
            num_id: None,
            num_ilvl: None,
            shading: None,
            tab_stops: Seq::empty(),
            tab_kinds: Seq::empty(),
            keep_next: None,
            contextual_spacing: None,
            page_break_before: false,
            page_break_after: false,
            section_end: false,
            continuous_break: false,
            column_break_after: false,
            frame: None,
            border: None,
            mark_size: None,
            sect_pr: None,
        }
    }
}

impl Default for ParaProps {
    fn default() -> (r: Self)
        ensures
            r@ == ParaPropsV::initial(),
    {
        ParaProps {
            align: None,
            line_spacing: None,
            line_rule: None,
            space_before: None,
            space_after: None,
            indent_left: None,
            indent_right: None,
            indent_first: None,
            num_id: None,
            num_ilvl: None,
            shading: None,
            tab_stops: Vec::new(),
            tab_kinds: Vec::new(),
            keep_next: None,
            contextual_spacing: None,
            page_break_before: false,
            page_break_after: false,
            section_end: false,
            continuous_break: false,
            column_break_after: false,
            frame: None,
            border: None,
            mark_size: None,
            sect_pr: None,
        }
    }
}

/// A tracked paragraph-property change (`w:pPrChange`): who, when, the revision id, and the
/// style and properties before the change.
#[derive(Debug, PartialEq, Eq)]
pub struct ParaPropChange {
    pub author: String,
    pub date: String,
    pub id: u64,
    pub old_style: Option<String>,
    pub old: ParaProps,
}

/// The mathematical value of a [`ParaPropChange`].
#[verifier::ext_equal]
pub struct ParaPropChangeV {
    pub author: Seq<char>,
    pub date: Seq<char>,
    pub id: u64,
    pub old_style: Option<Seq<char>>,
    pub old: ParaPropsV,
}

impl View for ParaPropChange {
    type V = ParaPropChangeV;

    open spec fn view(&self) -> ParaPropChangeV {
        ParaPropChangeV {
            author: self.author@,
            date: self.date@,
            id: self.id,
            old_style: strs::opt_s(self.old_style),
            old: self.old@,
        }
    }
}

pub open spec fn para_prop_change_ov(o: Option<ParaPropChange>) -> Option<ParaPropChangeV> {
    match o {
        Some(x) => Some(x@),
        None => None,
    }
}

impl Clone for ParaPropChange {
    fn clone(&self) -> (r: Self)
        ensures
            r@ == self@,
    {
        ParaPropChange {
            author: self.author.clone(),
            date: self.date.clone(),
            id: self.id,
            old_style: opt_clone(&self.old_style),
            old: self.old.clone(),
        }
    }
}

pub(crate) fn clone_para_prop_change_opt(o: &Option<ParaPropChange>) -> (r: Option<ParaPropChange>)
    ensures
        para_prop_change_ov(r) == para_prop_change_ov(*o),
{
    match o {
        Some(x) => Some(x.clone()),
        None => None,
    }
}

/// A paragraph: style, properties, runs, and the tracked changes of its properties and mark.
#[derive(Debug, PartialEq, Eq)]
pub struct Paragraph {
    pub style: Option<String>,
    pub props: ParaProps,
    pub runs: Vec<Run>,
    pub prop_change: Option<ParaPropChange>,
    pub mark_change: Option<Track>,
}

/// The mathematical value of a [`Paragraph`].
#[verifier::ext_equal]
pub struct ParagraphV {
    pub style: Option<Seq<char>>,
    pub props: ParaPropsV,
    pub runs: Seq<RunV>,
    pub prop_change: Option<ParaPropChangeV>,
    pub mark_change: Option<TrackV>,
}

impl View for Paragraph {
    type V = ParagraphV;

    open spec fn view(&self) -> ParagraphV {
        ParagraphV {
            style: strs::opt_s(self.style),
            props: self.props@,
            runs: run_vs(self.runs@),
            prop_change: para_prop_change_ov(self.prop_change),
            mark_change: track_ov(self.mark_change),
        }
    }
}

pub open spec fn paragraph_vs(s: Seq<Paragraph>) -> Seq<ParagraphV> {
    Seq::new(s.len(), |i: int| s[i]@)
}

impl Clone for Paragraph {
    fn clone(&self) -> (r: Self)
        ensures
            r@ == self@,
    {
        Paragraph {
            style: opt_clone(&self.style),
            props: self.props.clone(),
            runs: clone_run_vec(&self.runs),
            prop_change: clone_para_prop_change_opt(&self.prop_change),
            mark_change: clone_track_opt(&self.mark_change),
        }
    }
}

pub(crate) fn clone_paragraph_vec(v: &Vec<Paragraph>) -> (r: Vec<Paragraph>)
    ensures
        paragraph_vs(r@) == paragraph_vs(v@),
{
    let mut r: Vec<Paragraph> = Vec::new();
    let mut i: usize = 0;
    while i < v.len()
        invariant
            i <= v@.len(),
            r@.len() == i,
            forall|j: int| 0 <= j < i ==> r@[j]@ == v@[j]@,
        decreases v@.len() - i,
    {
        r.push(v[i].clone());
        i = i + 1;
    }
    assert(paragraph_vs(r@) =~= paragraph_vs(v@));
    r
}

/// One border edge: line weight in eighths of a point and RGB hex color.
#[derive(Debug, PartialEq, Eq)]
pub struct Border {
    pub size_eighths: u16,
    pub color: String,
}

/// The mathematical value of a [`Border`].
#[verifier::ext_equal]
pub struct BorderV {
    pub size_eighths: u16,
    pub color: Seq<char>,
}

impl View for Border {
    type V = BorderV;

    open spec fn view(&self) -> BorderV {
        BorderV {
            size_eighths: self.size_eighths,
            color: self.color@,
        }
    }
}

pub open spec fn border_ov(o: Option<Border>) -> Option<BorderV> {
    match o {
        Some(x) => Some(x@),
        None => None,
    }
}

impl Clone for Border {
    fn clone(&self) -> (r: Self)
        ensures
            r@ == self@,
    {
        Border {
            size_eighths: self.size_eighths,
            color: self.color.clone(),
        }
    }
}

pub(crate) fn clone_border_opt(o: &Option<Border>) -> (r: Option<Border>)
    ensures
        border_ov(r) == border_ov(*o),
{
    match o {
        Some(x) => Some(x.clone()),
        None => None,
    }
}

/// The border edges of a table or cell; the inside edges apply at table level only.
#[derive(Debug)]
pub struct EdgeBorders {
    pub top: Option<Border>,
    pub left: Option<Border>,
    pub bottom: Option<Border>,
    pub right: Option<Border>,
    pub inside_h: Option<Border>,
    pub inside_v: Option<Border>,
}

/// The mathematical value of a [`EdgeBorders`].
#[verifier::ext_equal]
pub struct EdgeBordersV {
    pub top: Option<BorderV>,
    pub left: Option<BorderV>,
    pub bottom: Option<BorderV>,
    pub right: Option<BorderV>,
    pub inside_h: Option<BorderV>,
    pub inside_v: Option<BorderV>,
}

impl View for EdgeBorders {
    type V = EdgeBordersV;

    open spec fn view(&self) -> EdgeBordersV {
        EdgeBordersV {
            top: border_ov(self.top),
            left: border_ov(self.left),
            bottom: border_ov(self.bottom),
            right: border_ov(self.right),
            inside_h: border_ov(self.inside_h),
            inside_v: border_ov(self.inside_v),
        }
    }
}

impl Clone for EdgeBorders {
    fn clone(&self) -> (r: Self)
        ensures
            r@ == self@,
    {
        EdgeBorders {
            top: clone_border_opt(&self.top),
            left: clone_border_opt(&self.left),
            bottom: clone_border_opt(&self.bottom),
            right: clone_border_opt(&self.right),
            inside_h: clone_border_opt(&self.inside_h),
            inside_v: clone_border_opt(&self.inside_v),
        }
    }
}

impl EdgeBordersV {
    /// The value with nothing set.
    pub open spec fn initial() -> EdgeBordersV {
        EdgeBordersV {
            top: None,
            left: None,
            bottom: None,
            right: None,
            inside_h: None,
            inside_v: None,
        }
    }
}

impl Default for EdgeBorders {
    fn default() -> (r: Self)
        ensures
            r@ == EdgeBordersV::initial(),
    {
        EdgeBorders {
            top: None,
            left: None,
            bottom: None,
            right: None,
            inside_h: None,
            inside_v: None,
        }
    }
}

/// Cell content margins (twips), each side set independently.
#[derive(Debug, Clone, Copy, PartialEq, Eq, Structural)]
pub struct CellMargins {
    pub top: Option<u32>,
    pub left: Option<u32>,
    pub bottom: Option<u32>,
    pub right: Option<u32>,
}

impl CellMargins {
    pub open spec fn initial() -> CellMargins {
        CellMargins { top: None, left: None, bottom: None, right: None }
    }
}

impl Default for CellMargins {
    fn default() -> (r: Self)
        ensures
            r == CellMargins::initial(),
    {
        CellMargins { top: None, left: None, bottom: None, right: None }
    }
}

/// Vertical-merge state of a cell (`w:vMerge`).
#[derive(Debug, Clone, Copy, PartialEq, Eq, Structural)]
pub enum VMerge {
    /// Not merged.
    Single,
    Restart,
    Continue,
}

impl Default for VMerge {
    fn default() -> (r: Self)
        ensures
            r == VMerge::Single,
    {
        VMerge::Single
    }
}

/// Which level of a table a [`TablePropChange`] sits on.
#[derive(Debug, Clone, Copy, PartialEq, Eq, Structural)]
pub enum TablePropLevel {
    Table,
    Row,
    Cell,
}

/// The properties of a table, row or cell before a tracked property change.
#[derive(Debug)]
pub enum TablePropSnapshot {
    Table { style: Option<String>, borders: EdgeBorders, cell_margins: Option<CellMargins> },
    Row { height: Option<u32>, height_exact: bool },
    Cell {
        width: Option<u32>,
        grid_span: usize,
        vmerge: VMerge,
        borders: EdgeBorders,
        margins: Option<CellMargins>,
        shading: Option<String>,
    },
}

/// The mathematical value of a [`TablePropSnapshot`].
#[verifier::ext_equal]
pub enum TablePropSnapshotV {
    Table { style: Option<Seq<char>>, borders: EdgeBordersV, cell_margins: Option<CellMargins> },
    Row { height: Option<u32>, height_exact: bool },
    Cell {
        width: Option<u32>,
        grid_span: usize,
        vmerge: VMerge,
        borders: EdgeBordersV,
        margins: Option<CellMargins>,
        shading: Option<Seq<char>>,
    },
}

impl View for TablePropSnapshot {
    type V = TablePropSnapshotV;

    open spec fn view(&self) -> TablePropSnapshotV {
        match *self {
            TablePropSnapshot::Table { style, borders, cell_margins } => TablePropSnapshotV::Table {
                style: strs::opt_s(style),
                borders: borders@,
                cell_margins,
            },
            TablePropSnapshot::Row { height, height_exact } => TablePropSnapshotV::Row {
                height,
                height_exact,
            },
            TablePropSnapshot::Cell { width, grid_span, vmerge, borders, margins, shading } => TablePropSnapshotV::Cell {
                width,
                grid_span,
                vmerge,
                borders: borders@,
                margins,
                shading: strs::opt_s(shading),
            },
        }
    }
}

impl Clone for TablePropSnapshot {
    fn clone(&self) -> (r: Self)
        ensures
            r@ == self@,
    {
        match self {
            TablePropSnapshot::Table { style, borders, cell_margins } => TablePropSnapshot::Table {
                style: opt_clone(style),
                borders: borders.clone(),
                cell_margins: *cell_margins,
            },
            TablePropSnapshot::Row { height, height_exact } => TablePropSnapshot::Row {
                height: *height,
                height_exact: *height_exact,
            },
            TablePropSnapshot::Cell { width, grid_span, vmerge, borders, margins, shading } => TablePropSnapshot::Cell {
                width: *width,
                grid_span: *grid_span,
                vmerge: *vmerge,
                borders: borders.clone(),
                margins: *margins,
                shading: opt_clone(shading),
            },
        }
    }
}


/// A tracked table-property change: who, when, the revision id, and the old properties.
#[derive(Debug)]
pub struct TablePropChange {
    pub author: String,
    pub date: String,
    pub id: u64,
    pub old: TablePropSnapshot,
}

/// The mathematical value of a [`TablePropChange`].
#[verifier::ext_equal]
pub struct TablePropChangeV {
    pub author: Seq<char>,
    pub date: Seq<char>,
    pub id: u64,
    pub old: TablePropSnapshotV,
}

impl View for TablePropChange {
    type V = TablePropChangeV;

    open spec fn view(&self) -> TablePropChangeV {
        TablePropChangeV {
            author: self.author@,
            date: self.date@,
            id: self.id,
            old: self.old@,
        }
    }
}

pub open spec fn table_prop_change_ov(o: Option<TablePropChange>) -> Option<TablePropChangeV> {
    match o {
        Some(x) => Some(x@),
        None => None,
    }
}

impl Clone for TablePropChange {
    fn clone(&self) -> (r: Self)
        ensures
            r@ == self@,
    {
        TablePropChange {
            author: self.author.clone(),
            date: self.date.clone(),
            id: self.id,
            old: self.old.clone(),
        }
    }
}

pub(crate) fn clone_table_prop_change_opt(o: &Option<TablePropChange>) -> (r: Option<TablePropChange>)
    ensures
        table_prop_change_ov(r) == table_prop_change_ov(*o),
{
    match o {
        Some(x) => Some(x.clone()),
        None => None,
    }
}

/// A block inside a table cell that is kept as raw XML.
#[derive(Debug, PartialEq, Eq)]
pub struct NestedBlock {
    /// How many of the cell's own paragraphs precede it.
    pub after_para: usize,
    pub xml: String,
}

/// The mathematical value of a [`NestedBlock`].
#[verifier::ext_equal]
pub struct NestedBlockV {
    pub after_para: usize,
    pub xml: Seq<char>,
}

impl View for NestedBlock {
    type V = NestedBlockV;

    open spec fn view(&self) -> NestedBlockV {
        NestedBlockV {
            after_para: self.after_para,
            xml: self.xml@,
        }
    }
}

pub open spec fn nested_block_vs(s: Seq<NestedBlock>) -> Seq<NestedBlockV> {
    Seq::new(s.len(), |i: int| s[i]@)
}

impl Clone for NestedBlock {
    fn clone(&self) -> (r: Self)
        ensures
            r@ == self@,
    {
        NestedBlock {
            after_para: self.after_para,
            xml: self.xml.clone(),
        }
    }
}

pub(crate) fn clone_nested_block_vec(v: &Vec<NestedBlock>) -> (r: Vec<NestedBlock>)
    ensures
        nested_block_vs(r@) == nested_block_vs(v@),
{
    let mut r: Vec<NestedBlock> = Vec::new();
    let mut i: usize = 0;
    while i < v.len()
        invariant
            i <= v@.len(),
            r@.len() == i,
            forall|j: int| 0 <= j < i ==> r@[j]@ == v@[j]@,
        decreases v@.len() - i,
    {
        r.push(v[i].clone());
        i = i + 1;
    }
    assert(nested_block_vs(r@) =~= nested_block_vs(v@));
    r
}

/// A table cell: how many flow paragraphs it owns, its span and merge state, its
/// properties, and the tables nested in it.
#[derive(Debug)]
pub struct TableCell {
    pub para_count: usize,
    pub grid_span: usize,
    pub vmerge: VMerge,
    pub borders: EdgeBorders,
    pub margins: Option<CellMargins>,
    pub width: Option<u32>,
    pub shading: Option<String>,
    pub change: Option<Track>,
    pub prop_change: Option<TablePropChange>,
    pub nested: Vec<NestedBlock>,
}

/// The mathematical value of a [`TableCell`].
#[verifier::ext_equal]
pub struct TableCellV {
    pub para_count: usize,
    pub grid_span: usize,
    pub vmerge: VMerge,
    pub borders: EdgeBordersV,
    pub margins: Option<CellMargins>,
    pub width: Option<u32>,
    pub shading: Option<Seq<char>>,
    pub change: Option<TrackV>,
    pub prop_change: Option<TablePropChangeV>,
    pub nested: Seq<NestedBlockV>,
}

impl View for TableCell {
    type V = TableCellV;

    open spec fn view(&self) -> TableCellV {
        TableCellV {
            para_count: self.para_count,
            grid_span: self.grid_span,
            vmerge: self.vmerge,
            borders: self.borders@,
            margins: self.margins,
            width: self.width,
            shading: strs::opt_s(self.shading),
            change: track_ov(self.change),
            prop_change: table_prop_change_ov(self.prop_change),
            nested: nested_block_vs(self.nested@),
        }
    }
}

pub open spec fn table_cell_ov(o: Option<TableCell>) -> Option<TableCellV> {
    match o {
        Some(x) => Some(x@),
        None => None,
    }
}

pub open spec fn table_cell_vs(s: Seq<TableCell>) -> Seq<TableCellV> {
    Seq::new(s.len(), |i: int| s[i]@)
}

impl Clone for TableCell {
    fn clone(&self) -> (r: Self)
        ensures
            r@ == self@,
    {
        TableCell {
            para_count: self.para_count,
            grid_span: self.grid_span,
            vmerge: self.vmerge,
            borders: self.borders.clone(),
            margins: self.margins,
            width: self.width,
            shading: opt_clone(&self.shading),
            change: clone_track_opt(&self.change),
            prop_change: clone_table_prop_change_opt(&self.prop_change),
            nested: clone_nested_block_vec(&self.nested),
        }
    }
}

pub(crate) fn clone_table_cell_vec(v: &Vec<TableCell>) -> (r: Vec<TableCell>)
    ensures
        table_cell_vs(r@) == table_cell_vs(v@),
{
    let mut r: Vec<TableCell> = Vec::new();
    let mut i: usize = 0;
    while i < v.len()
        invariant
            i <= v@.len(),
            r@.len() == i,
            forall|j: int| 0 <= j < i ==> r@[j]@ == v@[j]@,
        decreases v@.len() - i,
    {
        r.push(v[i].clone());
        i = i + 1;
    }
    assert(table_cell_vs(r@) =~= table_cell_vs(v@));
    r
}

impl TableCellV {
    /// The value with nothing set.
    pub open spec fn initial() -> TableCellV {
        TableCellV {
            para_count: 0,
            grid_span: 0,
            vmerge: VMerge::Single,
            borders: EdgeBordersV::initial(),
            margins: None,
            width: None,
            shading: None,
            change: None,
            prop_change: None,
            nested: Seq::empty(),
        }
    }
}

impl Default for TableCell {
    fn default() -> (r: Self)
        ensures
            r@ == TableCellV::initial(),
    {
        TableCell {
            para_count: 0,
            grid_span: 0,
            vmerge: VMerge::Single,
            borders: EdgeBorders::default(),
            margins: None,
            width: None,
            shading: None,
            change: None,
            prop_change: None,
            nested: Vec::new(),
        }
    }
}

/// A table row.
#[derive(Debug)]
pub struct TableRow {
    pub cells: Vec<TableCell>,
    pub height: Option<u32>,
    pub height_exact: bool,
    pub cant_split: bool,
    pub justify: Option<String>,
    pub change: Option<Track>,
    pub prop_change: Option<TablePropChange>,
}

/// The mathematical value of a [`TableRow`].
#[verifier::ext_equal]
pub struct TableRowV {
    pub cells: Seq<TableCellV>,
    pub height: Option<u32>,
    pub height_exact: bool,
    pub cant_split: bool,
    pub justify: Option<Seq<char>>,
    pub change: Option<TrackV>,
    pub prop_change: Option<TablePropChangeV>,
}

impl View for TableRow {
    type V = TableRowV;

    open spec fn view(&self) -> TableRowV {
        TableRowV {
            cells: table_cell_vs(self.cells@),
            height: self.height,
            height_exact: self.height_exact,
            cant_split: self.cant_split,
            justify: strs::opt_s(self.justify),
            change: track_ov(self.change),
            prop_change: table_prop_change_ov(self.prop_change),
        }
    }
}

pub open spec fn table_row_ov(o: Option<TableRow>) -> Option<TableRowV> {
    match o {
        Some(x) => Some(x@),
        None => None,
    }
}

pub open spec fn table_row_vs(s: Seq<TableRow>) -> Seq<TableRowV> {
    Seq::new(s.len(), |i: int| s[i]@)
}

impl Clone for TableRow {
    fn clone(&self) -> (r: Self)
        ensures
            r@ == self@,
    {
        TableRow {
            cells: clone_table_cell_vec(&self.cells),
            height: self.height,
            height_exact: self.height_exact,
            cant_split: self.cant_split,
            justify: opt_clone(&self.justify),
            change: clone_track_opt(&self.change),
            prop_change: clone_table_prop_change_opt(&self.prop_change),
        }
    }
}

pub(crate) fn clone_table_row_vec(v: &Vec<TableRow>) -> (r: Vec<TableRow>)
    ensures
        table_row_vs(r@) == table_row_vs(v@),
{
    let mut r: Vec<TableRow> = Vec::new();
    let mut i: usize = 0;
    while i < v.len()
        invariant
            i <= v@.len(),
            r@.len() == i,
            forall|j: int| 0 <= j < i ==> r@[j]@ == v@[j]@,
        decreases v@.len() - i,
    {
        r.push(v[i].clone());
        i = i + 1;
    }
    assert(table_row_vs(r@) =~= table_row_vs(v@));
    r
}

impl TableRowV {
    /// The value with nothing set.
    pub open spec fn initial() -> TableRowV {
        TableRowV {
            cells: Seq::empty(),
            height: None,
            height_exact: false,
            cant_split: false,
            justify: None,
            change: None,
            prop_change: None,
        }
    }
}

impl Default for TableRow {
    fn default() -> (r: Self)
        ensures
            r@ == TableRowV::initial(),
    {
        TableRow {
            cells: Vec::new(),
            height: None,
            height_exact: false,
            cant_split: false,
            justify: None,
            change: None,
            prop_change: None,
        }
    }
}

/// A single-level table.
#[derive(Debug)]
pub struct Table {
    pub col_widths: Vec<u32>,
    pub rows: Vec<TableRow>,
    pub style: Option<String>,
    pub justify: Option<String>,
    pub borders: EdgeBorders,
    pub cell_margins: Option<CellMargins>,
    /// The raw attributes of `<w:tblLook .../>`.
    pub look: Option<String>,
    pub prop_change: Option<TablePropChange>,
}

/// The mathematical value of a [`Table`].
#[verifier::ext_equal]
pub struct TableV {
    pub col_widths: Seq<u32>,
    pub rows: Seq<TableRowV>,
    pub style: Option<Seq<char>>,
    pub justify: Option<Seq<char>>,
    pub borders: EdgeBordersV,
    pub cell_margins: Option<CellMargins>,
    pub look: Option<Seq<char>>,
    pub prop_change: Option<TablePropChangeV>,
}

impl View for Table {
    type V = TableV;

    open spec fn view(&self) -> TableV {
        TableV {
            col_widths: self.col_widths@,
            rows: table_row_vs(self.rows@),
            style: strs::opt_s(self.style),
            justify: strs::opt_s(self.justify),
            borders: self.borders@,
            cell_margins: self.cell_margins,
            look: strs::opt_s(self.look),
            prop_change: table_prop_change_ov(self.prop_change),
        }
    }
}

pub open spec fn table_ov(o: Option<Table>) -> Option<TableV> {
    match o {
        Some(x) => Some(x@),
        None => None,
    }
}

impl Clone for Table {
    fn clone(&self) -> (r: Self)
        ensures
            r@ == self@,
    {
        Table {
            col_widths: copy_vec(&self.col_widths),
            rows: clone_table_row_vec(&self.rows),
            style: opt_clone(&self.style),
            justify: opt_clone(&self.justify),
            borders: self.borders.clone(),
            cell_margins: self.cell_margins,
            look: opt_clone(&self.look),
            prop_change: clone_table_prop_change_opt(&self.prop_change),
        }
    }
}

impl TableV {
    /// The value with nothing set.
    pub open spec fn initial() -> TableV {
        TableV {
            col_widths: Seq::empty(),
            rows: Seq::empty(),
            style: None,
            justify: None,
            borders: EdgeBordersV::initial(),
            cell_margins: None,
            look: None,
            prop_change: None,
        }
    }
}

impl Default for Table {
    fn default() -> (r: Self)
        ensures
            r@ == TableV::initial(),
    {
        Table {
            col_widths: Vec::new(),
            rows: Vec::new(),
            style: None,
            justify: None,
            borders: EdgeBorders::default(),
            cell_margins: None,
            look: None,
            prop_change: None,
        }
    }
}

/// A picture: media reference, size, crop and placement. Sizes and offsets are EMU, the
/// crop is in thousandths of a percent.
#[derive(Debug, PartialEq, Eq)]
pub struct ImagePlacement {
    /// The media part key.
    pub media: String,
    pub w_emu: i64,
    pub h_emu: i64,
    pub crop_l: i64,
    pub crop_t: i64,
    pub crop_r: i64,
    pub crop_b: i64,
    /// Positioned (`wp:anchor`) rather than in the text flow (`wp:inline`).
    pub floating: bool,
    /// Painted under the text.
    pub behind: bool,
    pub h_from: String,
    pub v_from: String,
    pub x_emu: i64,
    pub y_emu: i64,
    pub h_align: String,
    pub v_align: String,
    /// `square` / `tight` / `topAndBottom` / `through` / `none`.
    pub wrap: String,
}

/// The mathematical value of a [`ImagePlacement`].
#[verifier::ext_equal]
pub struct ImagePlacementV {
    pub media: Seq<char>,
    pub w_emu: i64,
    pub h_emu: i64,
    pub crop_l: i64,
    pub crop_t: i64,
    pub crop_r: i64,
    pub crop_b: i64,
    pub floating: bool,
    pub behind: bool,
    pub h_from: Seq<char>,
    pub v_from: Seq<char>,
    pub x_emu: i64,
    pub y_emu: i64,
    pub h_align: Seq<char>,
    pub v_align: Seq<char>,
    pub wrap: Seq<char>,
}

impl View for ImagePlacement {
    type V = ImagePlacementV;

    open spec fn view(&self) -> ImagePlacementV {
        ImagePlacementV {
            media: self.media@,
            w_emu: self.w_emu,
            h_emu: self.h_emu,
            crop_l: self.crop_l,
            crop_t: self.crop_t,
            crop_r: self.crop_r,
            crop_b: self.crop_b,
            floating: self.floating,
            behind: self.behind,
            h_from: self.h_from@,
            v_from: self.v_from@,
            x_emu: self.x_emu,
            y_emu: self.y_emu,
            h_align: self.h_align@,
            v_align: self.v_align@,
            wrap: self.wrap@,
        }
    }
}

impl Clone for ImagePlacement {
    fn clone(&self) -> (r: Self)
        ensures
            r@ == self@,
    {
        ImagePlacement {
            media: self.media.clone(),
            w_emu: self.w_emu,
            h_emu: self.h_emu,
            crop_l: self.crop_l,
            crop_t: self.crop_t,
            crop_r: self.crop_r,
            crop_b: self.crop_b,
            floating: self.floating,
            behind: self.behind,
            h_from: self.h_from.clone(),
            v_from: self.v_from.clone(),
            x_emu: self.x_emu,
            y_emu: self.y_emu,
            h_align: self.h_align.clone(),
            v_align: self.v_align.clone(),
            wrap: self.wrap.clone(),
        }
    }
}

impl ImagePlacementV {
    /// The value with nothing set.
    pub open spec fn initial() -> ImagePlacementV {
        ImagePlacementV {
            media: Seq::empty(),
            w_emu: 0,
            h_emu: 0,
            crop_l: 0,
            crop_t: 0,
            crop_r: 0,
            crop_b: 0,
            floating: false,
            behind: false,
            h_from: Seq::empty(),
            v_from: Seq::empty(),
            x_emu: 0,
            y_emu: 0,
            h_align: Seq::empty(),
            v_align: Seq::empty(),
            wrap: Seq::empty(),
        }
    }
}

impl Default for ImagePlacement {
    fn default() -> (r: Self)
        ensures
            r@ == ImagePlacementV::initial(),
    {
        ImagePlacement {
            media: String::new(),
            w_emu: 0,
            h_emu: 0,
            crop_l: 0,
            crop_t: 0,
            crop_r: 0,
            crop_b: 0,
            floating: false,
            behind: false,
            h_from: String::new(),
            v_from: String::new(),
            x_emu: 0,
            y_emu: 0,
            h_align: String::new(),
            v_align: String::new(),
            wrap: String::new(),
        }
    }
}

/// The single character that stands for a picture or an embedded object in run text.
pub const IMAGE_PLACEHOLDER: char = '\u{FFFC}';

/// The character that stands for a `PAGE` field in run text.
pub const FIELD_PAGE: char = '\u{E000}';

/// The character that stands for a `NUMPAGES` field in run text.
pub const FIELD_NUMPAGES: char = '\u{E001}';


impl TablePropChange {
    /// The level a change with these old properties belongs to.
    pub open spec fn level_s(old: TablePropSnapshotV) -> TablePropLevel {
        match old {
            TablePropSnapshotV::Table { .. } => TablePropLevel::Table,
            TablePropSnapshotV::Row { .. } => TablePropLevel::Row,
            TablePropSnapshotV::Cell { .. } => TablePropLevel::Cell,
        }
    }

    /// The level (and OOXML element) this change belongs to.
    pub fn level(&self) -> (r: TablePropLevel)
        ensures
            r == TablePropChange::level_s(self@.old),
    {
        match &self.old {
            TablePropSnapshot::Table { .. } => TablePropLevel::Table,
            TablePropSnapshot::Row { .. } => TablePropLevel::Row,
            TablePropSnapshot::Cell { .. } => TablePropLevel::Cell,
        }
    }
}

impl TableV {
    pub open spec fn snapshot(self) -> TablePropSnapshotV {
        TablePropSnapshotV::Table {
            style: self.style,
            borders: self.borders,
            cell_margins: self.cell_margins,
        }
    }

    /// The table with the properties of a table snapshot; other snapshots change nothing.
    pub open spec fn restored(self, s: TablePropSnapshotV) -> TableV {
        match s {
            TablePropSnapshotV::Table { style, borders, cell_margins } => TableV {
                style,
                borders,
                cell_margins,
                ..self
            },
            _ => self,
        }
    }
}

impl TableRowV {
    pub open spec fn snapshot(self) -> TablePropSnapshotV {
        TablePropSnapshotV::Row { height: self.height, height_exact: self.height_exact }
    }

    pub open spec fn restored(self, s: TablePropSnapshotV) -> TableRowV {
        match s {
            TablePropSnapshotV::Row { height, height_exact } => TableRowV {
                height,
                height_exact,
                ..self
            },
            _ => self,
        }
    }
}

impl TableCellV {
    pub open spec fn snapshot(self) -> TablePropSnapshotV {
        TablePropSnapshotV::Cell {
            width: self.width,
            grid_span: self.grid_span,
            vmerge: self.vmerge,
            borders: self.borders,
            margins: self.margins,
            shading: self.shading,
        }
    }

    pub open spec fn restored(self, s: TablePropSnapshotV) -> TableCellV {
        match s {
            TablePropSnapshotV::Cell { width, grid_span, vmerge, borders, margins, shading } => TableCellV {
                width,
                grid_span,
                vmerge,
                borders,
                margins,
                shading,
                ..self
            },
            _ => self,
        }
    }
}

/// Snapshot a table's tracked properties (style, borders, cell margins).
pub fn table_prop_snapshot(t: &Table) -> (r: TablePropSnapshot)
    ensures
        r@ == t@.snapshot(),
{
    TablePropSnapshot::Table {
        style: opt_clone(&t.style),
        borders: t.borders.clone(),
        cell_margins: t.cell_margins,
    }
}

/// Snapshot a row's tracked properties (height).
pub fn row_prop_snapshot(r: &TableRow) -> (s: TablePropSnapshot)
    ensures
        s@ == r@.snapshot(),
{
    TablePropSnapshot::Row { height: r.height, height_exact: r.height_exact }
}

/// Snapshot a cell's tracked properties.
pub fn cell_prop_snapshot(c: &TableCell) -> (r: TablePropSnapshot)
    ensures
        r@ == c@.snapshot(),
{
    TablePropSnapshot::Cell {
        width: c.width,
        grid_span: c.grid_span,
        vmerge: c.vmerge,
        borders: c.borders.clone(),
        margins: c.margins,
        shading: opt_clone(&c.shading),
    }
}

/// Write a table snapshot back onto a table; a snapshot of another level changes nothing.
pub fn apply_table_snapshot(t: &mut Table, s: &TablePropSnapshot)
    ensures
        final(t)@ == old(t)@.restored(s@),
{
    if let TablePropSnapshot::Table { style, borders, cell_margins } = s {
        t.style = opt_clone(style);
        t.borders = borders.clone();
        t.cell_margins = *cell_margins;
    }
}

/// Write a row snapshot back onto a row; a snapshot of another level changes nothing.
pub fn apply_row_snapshot(r: &mut TableRow, s: &TablePropSnapshot)
    ensures
        final(r)@ == old(r)@.restored(s@),
{
    if let TablePropSnapshot::Row { height, height_exact } = s {
        r.height = *height;
        r.height_exact = *height_exact;
    }
}

/// Write a cell snapshot back onto a cell; a snapshot of another level changes nothing.
pub fn apply_cell_snapshot(c: &mut TableCell, s: &TablePropSnapshot)
    ensures
        final(c)@ == old(c)@.restored(s@),
{
    if let TablePropSnapshot::Cell { width, grid_span, vmerge, borders, margins, shading } = s {
        c.width = *width;
        c.grid_span = *grid_span;
        c.vmerge = *vmerge;
        c.borders = borders.clone();
        c.margins = *margins;
        c.shading = opt_clone(shading);
    }
}

/// One item in document order: a top-level paragraph, or a table.
#[derive(Debug)]
pub enum BodyItem {
    Paragraph,
    Table(Box<Table>),
}

/// The mathematical value of a [`BodyItem`].
#[verifier::ext_equal]
pub enum BodyItemV {
    Paragraph,
    Table(TableV),
}

impl View for BodyItem {
    type V = BodyItemV;

    open spec fn view(&self) -> BodyItemV {
        match self {
            BodyItem::Paragraph => BodyItemV::Paragraph,
            BodyItem::Table(t) => BodyItemV::Table((**t)@),
        }
    }
}

pub open spec fn body_item_vs(s: Seq<BodyItem>) -> Seq<BodyItemV> {
    Seq::new(s.len(), |i: int| s[i]@)
}

/// Counts from an import pass.
#[derive(Debug, Clone, Copy, PartialEq, Eq, Structural)]
pub struct ImportStats {
    /// Top-level (body) paragraphs.
    pub paragraphs: usize,
    /// Paragraphs inside table cells; those of nested tables are not counted.
    pub table_paragraphs: usize,
}

impl Default for ImportStats {
    fn default() -> (r: Self)
        ensures
            r.paragraphs == 0,
            r.table_paragraphs == 0,
    {
        ImportStats { paragraphs: 0, table_paragraphs: 0 }
    }
}

// ── laws of the value types ─────────────────────────────────────────────────

/// Reading back the token of an alignment gives that alignment, and so does reading its
/// `w:jc` value.
pub proof fn law_align_tokens_read_back(a: Align)
    ensures
        Align::parse_s(a.as_str_s()) == Some(a),
        Align::from_ooxml_s(a.to_ooxml_s()) == Some(a),
{
    reveal_strlit("left");
    reveal_strlit("center");
    reveal_strlit("right");
    reveal_strlit("justify");
    reveal_strlit("both");
    reveal_strlit("start");
    reveal_strlit("end");
    reveal_strlit("distribute");
    assert("center"@[0] != "left"@[0]);
    assert("right"@[0] != "left"@[0]);
    assert("justify"@[0] != "left"@[0]);
    assert("center"@[0] != "right"@[0]);
    assert("justify"@[0] != "center"@[0]);
    assert("justify"@[0] != "right"@[0]);
    assert("both"@[0] != "left"@[0] && "both"@[0] != "start"@[0] && "both"@[0] != "center"@[0]);
    assert("both"@[0] != "right"@[0] && "both"@[0] != "end"@[0]);
    assert("center"@[0] != "start"@[0]);
    assert("right"@[0] != "start"@[0] && "right"@[0] != "center"@[0]);
}

/// Reading back the token of a line rule gives that rule.
pub proof fn law_line_rule_tokens_read_back(r: LineRule)
    ensures
        LineRule::from_ooxml_s(r.as_str_s()) == Some(r),
{
    reveal_strlit("atLeast");
    reveal_strlit("exact");
    assert("exact"@[0] != "atLeast"@[0]);
}

/// Restoring a snapshot of a table, row or cell onto it changes nothing, whatever was
/// written over the tracked properties in between is undone, and a snapshot of another
/// level is no change.
pub proof fn law_snapshot_restores(t: TableV, t2: TableV, r: TableRowV, r2: TableRowV, c: TableCellV, c2: TableCellV)
    ensures
        t.restored(t.snapshot()) == t,
        t2.restored(t.snapshot()).snapshot() == t.snapshot(),
        r.restored(r.snapshot()) == r,
        r2.restored(r.snapshot()).snapshot() == r.snapshot(),
        c.restored(c.snapshot()) == c,
        c2.restored(c.snapshot()).snapshot() == c.snapshot(),
        t.restored(r.snapshot()) == t,
        t.restored(c.snapshot()) == t,
        r.restored(t.snapshot()) == r,
        r.restored(c.snapshot()) == r,
        c.restored(t.snapshot()) == c,
        c.restored(r.snapshot()) == c,
{
}

} // verus!
