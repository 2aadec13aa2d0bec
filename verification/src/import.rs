//! Reading `word/document.xml`.
//!
//! One pass over the body: paragraphs and runs, tables, section breaks, tracked changes, fields,
//! bookmarks, hyperlinks and comments, in document order. Positions are recorded as character
//! offsets into the flat paragraph list.

use vstd::prelude::*;
use crate::drawings;
use crate::drawings::{skip_step, Skip, SkipV};
use crate::error::ModelError;
use crate::events;
use crate::events::{
    attr, attr_u32, attr_u64, is_tag, or_else, or_empty, read_xml, revision_track, strip_bom,
    XmlEvent, XmlEventV, XmlStep, XmlStepV, XmlTag, XmlTagV,
};
use crate::grid;
use crate::grid::{TableGrid, TableGridV};
use crate::import_table;
use crate::import_table::{TableReader, TableReaderV};
use crate::import_text;
use crate::import_text::{field_placeholder, fill, ParaReader, ParaReaderV, RunReader, RunReaderV};
use crate::search;
use crate::search::trim;
use crate::strmap;
use crate::strmap::StrMap;
use crate::strs;
use crate::strs::{opt_is, str_eq};
use crate::style_parse;
use crate::style_parse::{is_edge, is_side};
use crate::types;
use crate::types::{
    clone_track_opt, ImportStats, ParaProps, ParaPropsV, Paragraph, ParagraphV, Run, RunV,
    TrackKind, TrackV,
};

verus! {

broadcast use vstd::string::group_string_axioms;

/// The range of a comment over the flat paragraph list, in characters.
#[derive(Debug, Clone, Copy, PartialEq, Eq, Structural)]
pub struct CommentAnchor {
    pub id: u64,
    pub start_para: usize,
    pub start_off: usize,
    pub end_para: usize,
    pub end_off: usize,
}

/// One end of a range: the id it carries and where it stands.
#[derive(Debug, Clone, Copy, PartialEq, Eq, Structural)]
pub struct Mark {
    pub id: u64,
    pub para: usize,
    pub off: usize,
}

/// The range of a field's cached result, and its instruction.
#[derive(Debug, Clone)]
pub struct FieldAnchor {
    pub id: u64,
    pub instr: String,
    pub start_para: usize,
    pub start_off: usize,
    pub end_para: usize,
    pub end_off: usize,
}

/// The mathematical value of a [`FieldAnchor`].
#[verifier::ext_equal]
pub struct FieldAnchorV {
    pub id: u64,
    pub instr: Seq<char>,
    pub start_para: usize,
    pub start_off: usize,
    pub end_para: usize,
    pub end_off: usize,
}

impl View for FieldAnchor {
    type V = FieldAnchorV;

    open spec fn view(&self) -> FieldAnchorV {
        FieldAnchorV {
            id: self.id,
            instr: self.instr@,
            start_para: self.start_para,
            start_off: self.start_off,
            end_para: self.end_para,
            end_off: self.end_off,
        }
    }
}

pub open spec fn field_anchor_vs(s: Seq<FieldAnchor>) -> Seq<FieldAnchorV> {
    Seq::new(s.len(), |i: int| s[i]@)
}

pub open spec fn field_anchor_ov(o: Option<FieldAnchor>) -> Option<FieldAnchorV> {
    match o {
        Some(x) => Some(x@),
        None => None,
    }
}

/// The range of a bookmark, and its name.
#[derive(Debug, Clone)]
pub struct BookmarkAnchor {
    pub id: u64,
    pub name: String,
    pub start_para: usize,
    pub start_off: usize,
    pub end_para: usize,
    pub end_off: usize,
}

/// The mathematical value of a [`BookmarkAnchor`].
#[verifier::ext_equal]
pub struct BookmarkAnchorV {
    pub id: u64,
    pub name: Seq<char>,
    pub start_para: usize,
    pub start_off: usize,
    pub end_para: usize,
    pub end_off: usize,
}

impl View for BookmarkAnchor {
    type V = BookmarkAnchorV;

    open spec fn view(&self) -> BookmarkAnchorV {
        BookmarkAnchorV {
            id: self.id,
            name: self.name@,
            start_para: self.start_para,
            start_off: self.start_off,
            end_para: self.end_para,
            end_off: self.end_off,
        }
    }
}

pub open spec fn bookmark_anchor_vs(s: Seq<BookmarkAnchor>) -> Seq<BookmarkAnchorV> {
    Seq::new(s.len(), |i: int| s[i]@)
}

/// The range of a hyperlink, and its target: `#name` for a bookmark, `rid:id` for a relationship.
#[derive(Debug, Clone)]
pub struct HyperlinkAnchor {
    pub id: u64,
    pub target: String,
    pub start_para: usize,
    pub start_off: usize,
    pub end_para: usize,
    pub end_off: usize,
}

/// The mathematical value of a [`HyperlinkAnchor`].
#[verifier::ext_equal]
pub struct HyperlinkAnchorV {
    pub id: u64,
    pub target: Seq<char>,
    pub start_para: usize,
    pub start_off: usize,
    pub end_para: usize,
    pub end_off: usize,
}

impl View for HyperlinkAnchor {
    type V = HyperlinkAnchorV;

    open spec fn view(&self) -> HyperlinkAnchorV {
        HyperlinkAnchorV {
            id: self.id,
            target: self.target@,
            start_para: self.start_para,
            start_off: self.start_off,
            end_para: self.end_para,
            end_off: self.end_off,
        }
    }
}

pub open spec fn hyperlink_anchor_vs(s: Seq<HyperlinkAnchor>) -> Seq<HyperlinkAnchorV> {
    Seq::new(s.len(), |i: int| s[i]@)
}

pub open spec fn hyperlink_anchor_ov(o: Option<HyperlinkAnchor>) -> Option<HyperlinkAnchorV> {
    match o {
        Some(x) => Some(x@),
        None => None,
    }
}

/// The ranges that a document part marks, each with its data.
#[derive(Debug)]
pub struct ImportAnchors {
    pub comments: Vec<CommentAnchor>,
    pub fields: Vec<FieldAnchor>,
    pub bookmarks: Vec<BookmarkAnchor>,
    pub hyperlinks: Vec<HyperlinkAnchor>,
}

/// The mathematical value of a [`ImportAnchors`].
#[verifier::ext_equal]
pub struct ImportAnchorsV {
    pub comments: Seq<CommentAnchor>,
    pub fields: Seq<FieldAnchorV>,
    pub bookmarks: Seq<BookmarkAnchorV>,
    pub hyperlinks: Seq<HyperlinkAnchorV>,
}

impl View for ImportAnchors {
    type V = ImportAnchorsV;

    open spec fn view(&self) -> ImportAnchorsV {
        ImportAnchorsV {
            comments: self.comments@,
            fields: field_anchor_vs(self.fields@),
            bookmarks: bookmark_anchor_vs(self.bookmarks@),
            hyperlinks: hyperlink_anchor_vs(self.hyperlinks@),
        }
    }
}

/// One item of the body: a paragraph, or a table with its cells' paragraphs.
pub enum ImportItem {
    Paragraph(Paragraph),
    Table(TableGrid),
}

/// The mathematical value of an [`ImportItem`].
#[verifier::ext_equal]
pub enum ImportItemV {
    Paragraph(ParagraphV),
    Table(TableGridV),
}

impl View for ImportItem {
    type V = ImportItemV;

    open spec fn view(&self) -> ImportItemV {
        match self {
            ImportItem::Paragraph(p) => ImportItemV::Paragraph(p@),
            ImportItem::Table(g) => ImportItemV::Table(g@),
        }
    }
}

pub open spec fn import_item_vs(s: Seq<ImportItem>) -> Seq<ImportItemV> {
    Seq::new(s.len(), |i: int| s[i]@)
}

/// What a document part holds: the body in document order, the counts, and the marked ranges.
pub struct DocumentImport {
    pub items: Vec<ImportItem>,
    pub stats: ImportStats,
    pub anchors: ImportAnchors,
}

/// The mathematical value of a [`DocumentImport`].
#[verifier::ext_equal]
pub struct DocumentImportV {
    pub items: Seq<ImportItemV>,
    pub stats: ImportStats,
    pub anchors: ImportAnchorsV,
}

impl View for DocumentImport {
    type V = DocumentImportV;

    open spec fn view(&self) -> DocumentImportV {
        DocumentImportV {
            items: import_item_vs(self.items@),
            stats: self.stats,
            anchors: self.anchors@,
        }
    }
}

/// The ranges opened and closed so far.
pub struct AnchorReader {
    /// How many paragraphs of the flat list are complete.
    pub appended: usize,
    pub comment_starts: Vec<Mark>,
    pub comment_ends: Vec<Mark>,
    pub field_depth: usize,
    pub next_field: u64,
    pub open_field: Option<FieldAnchor>,
    pub fields: Vec<FieldAnchor>,
    pub bookmark_starts: Vec<BookmarkAnchor>,
    pub bookmark_ends: Vec<Mark>,
    pub next_link: u64,
    pub open_link: Option<HyperlinkAnchor>,
    pub links: Vec<HyperlinkAnchor>,
    /// The revision id that both halves of a named move share.
    pub move_names: StrMap<u64>,
    pub move_from: Option<u64>,
    pub move_to: Option<u64>,
}

/// The mathematical value of a [`AnchorReader`].
#[verifier::ext_equal]
pub struct AnchorReaderV {
    pub appended: usize,
    pub comment_starts: Seq<Mark>,
    pub comment_ends: Seq<Mark>,
    pub field_depth: int,
    pub next_field: u64,
    pub open_field: Option<FieldAnchorV>,
    pub fields: Seq<FieldAnchorV>,
    pub bookmark_starts: Seq<BookmarkAnchorV>,
    pub bookmark_ends: Seq<Mark>,
    pub next_link: u64,
    pub open_link: Option<HyperlinkAnchorV>,
    pub links: Seq<HyperlinkAnchorV>,
    pub move_names: Seq<(Seq<char>, u64)>,
    pub move_from: Option<u64>,
    pub move_to: Option<u64>,
}

impl View for AnchorReader {
    type V = AnchorReaderV;

    open spec fn view(&self) -> AnchorReaderV {
        AnchorReaderV {
            appended: self.appended,
            comment_starts: self.comment_starts@,
            comment_ends: self.comment_ends@,
            field_depth: self.field_depth as int,
            next_field: self.next_field,
            open_field: field_anchor_ov(self.open_field),
            fields: field_anchor_vs(self.fields@),
            bookmark_starts: bookmark_anchor_vs(self.bookmark_starts@),
            bookmark_ends: self.bookmark_ends@,
            next_link: self.next_link,
            open_link: hyperlink_anchor_ov(self.open_link),
            links: hyperlink_anchor_vs(self.links@),
            move_names: self.move_names@,
            move_from: self.move_from,
            move_to: self.move_to,
        }
    }
}

/// Where the reader of a document part stands.
pub struct DocReader {
    /// A text box being passed over.
    pub skip: Option<Skip>,
    pub tbl: TableReader,
    pub para: ParaReader,
    pub run: RunReader,
    pub marks: AnchorReader,
    pub in_sectpr: bool,
    pub sect_type: Option<String>,
    /// Whether the open paragraph carries section properties.
    pub ends_section: bool,
    /// The item that ended the last section.
    pub last_section: Option<usize>,
    pub items: Vec<ImportItem>,
    pub stats: ImportStats,
}

/// The mathematical value of a [`DocReader`].
#[verifier::ext_equal]
pub struct DocReaderV {
    pub skip: Option<SkipV>,
    pub tbl: TableReaderV,
    pub para: ParaReaderV,
    pub run: RunReaderV,
    pub marks: AnchorReaderV,
    pub in_sectpr: bool,
    pub sect_type: Option<Seq<char>>,
    pub ends_section: bool,
    pub last_section: Option<usize>,
    pub items: Seq<ImportItemV>,
    pub stats: ImportStats,
}

impl View for DocReader {
    type V = DocReaderV;

    open spec fn view(&self) -> DocReaderV {
        DocReaderV {
            skip: drawings::skip_ov(self.skip),
            tbl: self.tbl@,
            para: self.para@,
            run: self.run@,
            marks: self.marks@,
            in_sectpr: self.in_sectpr,
            sect_type: strs::opt_s(self.sect_type),
            ends_section: self.ends_section,
            last_section: self.last_section,
            items: import_item_vs(self.items@),
            stats: self.stats,
        }
    }
}

impl AnchorReaderV {
    pub open spec fn initial() -> AnchorReaderV {
        AnchorReaderV {
            appended: 0,
            comment_starts: Seq::empty(),
            comment_ends: Seq::empty(),
            field_depth: 0,
            next_field: 0,
            open_field: None,
            fields: Seq::empty(),
            bookmark_starts: Seq::empty(),
            bookmark_ends: Seq::empty(),
            next_link: 0,
            open_link: None,
            links: Seq::empty(),
            move_names: Seq::empty(),
            move_from: None,
            move_to: None,
        }
    }
}

impl DocReaderV {
    pub open spec fn initial() -> DocReaderV {
        DocReaderV {
            skip: None,
            tbl: TableReaderV::initial(),
            para: ParaReaderV::initial(),
            run: RunReaderV::initial(),
            marks: AnchorReaderV::initial(),
            in_sectpr: false,
            sect_type: None,
            ends_section: false,
            last_section: None,
            items: Seq::empty(),
            stats: ImportStats { paragraphs: 0, table_paragraphs: 0 },
        }
    }
}

// ---------------------------------------------------------------- positions

/// How many characters the first `n` runs hold.
pub open spec fn runs_len_s(runs: Seq<RunV>, n: nat) -> nat
    decreases n,
{
    if n == 0 {
        0
    } else {
        runs_len_s(runs, (n - 1) as nat) + runs[n - 1].text.len()
    }
}

/// How many characters the runs hold.
pub open spec fn chars_s(runs: Seq<RunV>) -> usize {
    grid::sat_s(runs_len_s(runs, runs.len()) as int) as usize
}

pub(crate) fn chars(runs: &Vec<Run>) -> (r: usize)
    ensures
        r == chars_s(types::run_vs(runs@)),
{
    let ghost v = types::run_vs(runs@);
    let mut n: usize = 0;
    let mut i: usize = 0;
    while i < runs.len()
        invariant
            i <= runs@.len(),
            v == types::run_vs(runs@),
            n == grid::sat_s(runs_len_s(v, i as nat) as int),
        decreases runs@.len() - i,
    {
        assert(v[i as int] == runs@[i as int]@);
        let k = runs[i].text.as_str().unicode_len();
        n = if k > usize::MAX - n {
            usize::MAX
        } else {
            n + k
        };
        i = i + 1;
    }
    n
}

/// The paragraph a mark between paragraphs belongs to: the one that just ended, if any.
pub open spec fn milestone_para_s(s: DocReaderV) -> usize {
    if s.para.in_para || s.marks.appended == 0 {
        s.marks.appended
    } else {
        (s.marks.appended - 1) as usize
    }
}

/// The mark with id `id` at the reader's place.
pub open spec fn here_s(s: DocReaderV, id: u64, para: usize) -> Mark {
    Mark { id, para, off: chars_s(s.para.segs) }
}

// ---------------------------------------------------------------- ranges

/// The target that a hyperlink names.
pub open spec fn link_target_s(t: XmlTagV) -> Option<Seq<char>> {
    match events::attr_s(t, "w:anchor"@) {
        Some(a) => Some("#"@ + a),
        None => match events::attr_s(t, "r:id"@) {
            Some(r) => Some("rid:"@ + r),
            None => None,
        },
    }
}

/// What the opening of a hyperlink does.
pub open spec fn link_opened_s(s: DocReaderV, t: XmlTagV) -> AnchorReaderV {
    let m = s.marks;
    match link_target_s(t) {
        Some(target) => AnchorReaderV {
            open_link: Some(
                HyperlinkAnchorV {
                    id: m.next_link,
                    target,
                    start_para: m.appended,
                    start_off: chars_s(s.para.segs),
                    end_para: 0,
                    end_off: 0,
                },
            ),
            next_link: (m.next_link + 1) as u64,
            ..m
        },
        None => m,
    }
}

/// What the end of a hyperlink does.
pub open spec fn link_closed_s(s: DocReaderV) -> AnchorReaderV {
    let m = s.marks;
    match m.open_link {
        Some(a) => AnchorReaderV {
            open_link: None,
            links: m.links.push(
                HyperlinkAnchorV {
                    end_para: m.appended,
                    end_off: chars_s(s.para.segs),
                    ..a
                },
            ),
            ..m
        },
        None => m,
    }
}

/// The revision id of the move with this name: that of the first half seen.
pub open spec fn move_id_s(m: AnchorReaderV, t: XmlTagV) -> u64 {
    events::or_s(
        strmap::get_s(m.move_names, events::or_empty_s(events::attr_s(t, "w:name"@))),
        events::or_s(events::attr_u64_s(t, "w:id"@), 0),
    )
}

pub open spec fn moves_s(m: AnchorReaderV, t: XmlTagV) -> Seq<(Seq<char>, u64)> {
    strmap::put_new_s(
        m.move_names,
        events::or_empty_s(events::attr_s(t, "w:name"@)),
        events::or_s(events::attr_u64_s(t, "w:id"@), 0),
    )
}

pub open spec fn is_milestone_s(n: Seq<char>) -> bool {
    n == "w:commentRangeStart"@ || n == "w:commentRangeEnd"@ || n == "w:moveFromRangeStart"@ || n
        == "w:moveFromRangeEnd"@ || n == "w:moveToRangeStart"@ || n == "w:moveToRangeEnd"@ || n
        == "w:bookmarkStart"@ || n == "w:bookmarkEnd"@
}

/// What the start of a bookmark does; `_GoBack` is the word processor's own.
pub open spec fn bookmark_started_s(s: DocReaderV, t: XmlTagV, id: u64) -> AnchorReaderV {
    let m = s.marks;
    let name = events::or_empty_s(events::attr_s(t, "w:name"@));
    if name == "_GoBack"@ {
        m
    } else {
        AnchorReaderV {
            bookmark_starts: m.bookmark_starts.push(
                BookmarkAnchorV {
                    id,
                    name,
                    start_para: milestone_para_s(s),
                    start_off: chars_s(s.para.segs),
                    end_para: 0,
                    end_off: 0,
                },
            ),
            ..m
        }
    }
}

/// What one end of a range does.
pub open spec fn milestone_s(s: DocReaderV, t: XmlTagV) -> AnchorReaderV {
    let n = t.name;
    let m = s.marks;
    let id = events::attr_u64_s(t, "w:id"@);
    if n == "w:moveFromRangeStart"@ {
        AnchorReaderV { move_from: Some(move_id_s(m, t)), move_names: moves_s(m, t), ..m }
    } else if n == "w:moveFromRangeEnd"@ {
        AnchorReaderV { move_from: None, ..m }
    } else if n == "w:moveToRangeStart"@ {
        AnchorReaderV { move_to: Some(move_id_s(m, t)), move_names: moves_s(m, t), ..m }
    } else if n == "w:moveToRangeEnd"@ {
        AnchorReaderV { move_to: None, ..m }
    } else if id is None {
        m
    } else if n == "w:commentRangeStart"@ {
        if s.para.in_para {
            AnchorReaderV {
                comment_starts: m.comment_starts.push(here_s(s, id->0, m.appended)),
                ..m
            }
        } else {
            m
        }
    } else if n == "w:commentRangeEnd"@ {
        if s.para.in_para {
            AnchorReaderV {
                comment_ends: m.comment_ends.push(here_s(s, id->0, m.appended)),
                ..m
            }
        } else {
            m
        }
    } else if n == "w:bookmarkStart"@ {
        bookmark_started_s(s, t, id->0)
    } else {
        AnchorReaderV {
            bookmark_ends: m.bookmark_ends.push(here_s(s, id->0, milestone_para_s(s))),
            ..m
        }
    }
}

/// What the part of a field that says so begins: only an outermost field is followed.
pub open spec fn field_begun_s(s: DocReaderV) -> DocReaderV {
    let t = DocReaderV {
        marks: AnchorReaderV { field_depth: s.marks.field_depth + 1, ..s.marks },
        ..s
    };
    if t.marks.field_depth == 1 {
        DocReaderV {
            run: RunReaderV {
                field_active: true,
                field_in_result: false,
                field_char: None,
                field_results: 0,
                instr: Seq::empty(),
                ..s.run
            },
            ..t
        }
    } else {
        t
    }
}

/// What the separator between a field's instruction and its result does: the range of a result
/// that is not computed begins.
pub open spec fn field_separated_s(s: DocReaderV) -> DocReaderV {
    if s.marks.field_depth == 1 {
        let c = import_text::field_placeholder_s(search::trim_s(s.run.instr));
        let m = s.marks;
        DocReaderV {
            run: RunReaderV { field_in_result: true, field_char: c, ..s.run },
            marks: if c is None {
                AnchorReaderV {
                    open_field: Some(
                        FieldAnchorV {
                            id: m.next_field,
                            instr: s.run.instr,
                            start_para: m.appended,
                            start_off: chars_s(s.para.segs),
                            end_para: 0,
                            end_off: 0,
                        },
                    ),
                    next_field: (m.next_field + 1) as u64,
                    ..m
                }
            } else {
                m
            },
            ..s
        }
    } else {
        s
    }
}

/// What the end of a field does to the ranges: that of an outermost one is complete.
pub open spec fn field_closed_s(m: AnchorReaderV, off: usize) -> AnchorReaderV {
    let up = AnchorReaderV { field_depth: drawings::shallower_s(m.field_depth), ..m };
    match m.open_field {
        Some(a) => if m.field_depth == 1 {
            AnchorReaderV {
                open_field: None,
                fields: m.fields.push(
                    FieldAnchorV { end_para: m.appended, end_off: off, ..a },
                ),
                ..up
            }
        } else {
            up
        },
        None => up,
    }
}

/// What the end of a field does.
pub open spec fn field_ended_s(s: DocReaderV) -> DocReaderV {
    DocReaderV {
        run: if s.marks.field_depth == 1 {
            RunReaderV {
                field_active: false,
                field_in_result: false,
                field_char: None,
                ..s.run
            }
        } else {
            s.run
        },
        marks: field_closed_s(s.marks, chars_s(s.para.segs)),
        ..s
    }
}

/// What a part of a field does.
pub open spec fn field_char_s(s: DocReaderV, t: XmlTagV) -> DocReaderV {
    let v = events::attr_s(t, "w:fldCharType"@);
    if v == Some("begin"@) {
        field_begun_s(s)
    } else if v == Some("separate"@) {
        field_separated_s(s)
    } else if v == Some("end"@) {
        field_ended_s(s)
    } else {
        s
    }
}

// ---------------------------------------------------------------- the body

/// The paragraph as the end of a section: what follows starts a page of its own, or goes on.
pub open spec fn section_ended_s(item: ImportItemV, page: bool) -> ImportItemV {
    match item {
        ImportItemV::Paragraph(p) => ImportItemV::Paragraph(
            ParagraphV {
                props: if page {
                    ParaPropsV { page_break_after: true, section_end: true, ..p.props }
                } else {
                    ParaPropsV { continuous_break: true, ..p.props }
                },
                ..p
            },
        ),
        ImportItemV::Table(g) => ImportItemV::Table(g),
    }
}

/// What the end of section properties does: their type says how the section before them ends.
pub open spec fn sect_closed_s(s: DocReaderV) -> DocReaderV {
    let page = !(s.sect_type == Some("continuous"@) || s.sect_type == Some("nextColumn"@));
    DocReaderV {
        in_sectpr: false,
        items: match s.last_section {
            Some(i) => if i < s.items.len() {
                s.items.update(i as int, section_ended_s(s.items[i as int], page))
            } else {
                s.items
            },
            None => s.items,
        },
        ..s
    }
}

/// The reader with one more paragraph of the body.
pub open spec fn body_para_s(s: DocReaderV, p: ParagraphV) -> DocReaderV {
    DocReaderV {
        items: s.items.push(ImportItemV::Paragraph(p)),
        para: ParaReaderV { in_para: false, ..s.para },
        marks: AnchorReaderV { appended: (s.marks.appended + 1) as usize, ..s.marks },
        stats: ImportStats { paragraphs: (s.stats.paragraphs + 1) as usize, ..s.stats },
        ..s
    }
}

/// The reader with one more paragraph of the open cell.
pub open spec fn table_para_s(s: DocReaderV, p: ParagraphV) -> DocReaderV {
    DocReaderV {
        tbl: import_table::cell_para_s(s.tbl, p),
        marks: if s.tbl.cell is Some {
            AnchorReaderV { appended: (s.marks.appended + 1) as usize, ..s.marks }
        } else {
            s.marks
        },
        stats: ImportStats {
            table_paragraphs: (s.stats.table_paragraphs + 1) as usize,
            ..s.stats
        },
        ..s
    }
}

/// What `</w:p>` does.
pub open spec fn para_closed_s(s: DocReaderV) -> DocReaderV {
    let p = import_text::read_para_s(s.para);
    if !s.para.in_para {
        s
    } else if s.tbl.depth == 0 {
        let last = if s.ends_section {
            Some(s.items.len() as usize)
        } else {
            s.last_section
        };
        body_para_s(DocReaderV { last_section: last, ends_section: false, ..s }, p)
    } else {
        let t = table_para_s(s, p);
        DocReaderV { para: ParaReaderV { in_para: false, ..t.para }, ..t }
    }
}

/// What `<w:p/>` does: it is a paragraph with nothing in it.
pub open spec fn blank_para_read_s(s: DocReaderV) -> DocReaderV {
    let p = import_text::blank_para_s();
    if s.tbl.depth == 0 {
        body_para_s(s, p)
    } else if s.tbl.depth == 1 && s.tbl.cell is Some {
        table_para_s(s, p)
    } else {
        s
    }
}

// ---------------------------------------------------------------- opening tags

pub open spec fn is_table_tag_s(n: Seq<char>) -> bool {
    n == "w:tblGrid"@ || n == "w:tblBorders"@ || n == "w:tblCellMar"@ || n == "w:tr"@ || n
        == "w:tc"@ || n == "w:trPr"@ || n == "w:tcBorders"@ || n == "w:tcMar"@
        || import_table::is_change_s(n)
}

pub open spec fn is_para_tag_s(n: Seq<char>) -> bool {
    n == "w:tabs"@ || n == "w:pBdr"@ || n == "w:pPrChange"@
}

pub open spec fn revision_kind_s(n: Seq<char>) -> Option<TrackKind> {
    if n == "w:ins"@ {
        Some(TrackKind::Ins)
    } else if n == "w:del"@ {
        Some(TrackKind::Del)
    } else if n == "w:moveFrom"@ {
        Some(TrackKind::MoveFrom)
    } else if n == "w:moveTo"@ {
        Some(TrackKind::MoveTo)
    } else {
        None
    }
}

/// The revision that a wrapper around runs opens: both halves of a move share the id of their
/// range.
pub open spec fn wrapper_track_s(m: AnchorReaderV, t: XmlTagV, kind: TrackKind) -> TrackV {
    let x = events::revision_track_s(t, kind);
    match kind {
        TrackKind::MoveFrom => TrackV { id: events::or_s(m.move_from, x.id), ..x },
        TrackKind::MoveTo => TrackV { id: events::or_s(m.move_to, x.id), ..x },
        _ => x,
    }
}

/// What an opening tag at byte `at` does.
pub open spec fn doc_start_s(s: DocReaderV, t: XmlTagV, at: int) -> DocReaderV {
    let n = t.name;
    if n == "w:txbxContent"@ {
        DocReaderV { skip: Some(SkipV { name: n, depth: 0 }), ..s }
    } else if n == "w:tbl"@ {
        DocReaderV { tbl: import_table::tbl_opened_s(s.tbl, at), ..s }
    } else if is_table_tag_s(n) {
        DocReaderV { tbl: import_table::table_open_s(s.tbl, t, s.para.in_para), ..s }
    } else if n == "w:hyperlink"@ {
        DocReaderV { marks: link_opened_s(s, t), ..s }
    } else if n == "w:sectPr"@ {
        DocReaderV {
            in_sectpr: true,
            sect_type: None,
            ends_section: s.ends_section || s.para.in_para,
            ..s
        }
    } else if n == "w:p"@ {
        if s.tbl.depth == 0 || (s.tbl.depth == 1 && s.tbl.cell is Some) {
            DocReaderV { para: import_text::para_opened_s(s.para), ..s }
        } else {
            s
        }
    } else if is_para_tag_s(n) {
        DocReaderV { para: import_text::para_open_s(s.para, t, s.run.in_run), ..s }
    } else if n == "w:rPr"@ {
        if s.run.in_run {
            DocReaderV { run: RunReaderV { in_rpr: true, ..s.run }, ..s }
        } else if s.para.in_para {
            DocReaderV { para: ParaReaderV { in_mark_rpr: true, ..s.para }, ..s }
        } else {
            s
        }
    } else {
        run_start_s(s, t)
    }
}

/// What an opening tag among the runs does.
pub open spec fn run_start_s(s: DocReaderV, t: XmlTagV) -> DocReaderV {
    let n = t.name;
    if n == "w:r"@ {
        if s.para.in_para {
            DocReaderV { run: import_text::run_opened_s(s.run), ..s }
        } else {
            s
        }
    } else if n == "w:fldSimple"@ {
        if s.para.in_para {
            DocReaderV { run: import_text::simple_field_s(s.run, t), ..s }
        } else {
            s
        }
    } else {
        match revision_kind_s(n) {
            Some(k) => if s.para.in_para {
                DocReaderV {
                    run: RunReaderV { track: Some(wrapper_track_s(s.marks, t, k)), ..s.run },
                    ..s
                }
            } else {
                s
            },
            None => DocReaderV { run: import_text::run_open_s(s.run, t), ..s },
        }
    }
}

// ---------------------------------------------------------------- self-closing tags

/// What an alignment does, by where it stands.
pub open spec fn jc_s(s: DocReaderV, t: XmlTagV) -> DocReaderV {
    if s.tbl.in_trpr || (s.tbl.depth == 1 && !s.para.in_para && s.tbl.row is None) {
        DocReaderV { tbl: import_table::table_jc_s(s.tbl, t), ..s }
    } else {
        DocReaderV { para: import_text::para_empty_s(s.para, t, s.run.in_run), ..s }
    }
}

/// What a tab does: a stop among the tab definitions, a character in a run.
pub open spec fn tab_s(s: DocReaderV, t: XmlTagV) -> DocReaderV {
    if s.para.in_tabs {
        DocReaderV {
            para: ParaReaderV {
                props: import_text::with_stop_s(s.para.props, t),
                ..s.para
            },
            ..s
        }
    } else if s.run.in_run {
        DocReaderV {
            para: ParaReaderV {
                segs: s.para.segs.push(
                    RunV { text: "\t"@, track: s.run.track, ..s.run.cur },
                ),
                ..s.para
            },
            ..s
        }
    } else {
        s
    }
}

/// What a shading does, by where it stands.
pub open spec fn shd_s(s: DocReaderV, t: XmlTagV) -> DocReaderV {
    let fill = import_text::fill_s(t);
    if s.run.in_rpr {
        DocReaderV {
            run: RunReaderV { cur: import_text::run_prop_s(s.run.cur, t), ..s.run },
            ..s
        }
    } else if s.para.in_para {
        DocReaderV {
            para: ParaReaderV {
                props: ParaPropsV { shading: fill, ..s.para.props },
                ..s.para
            },
            ..s
        }
    } else {
        match s.tbl.cell {
            Some(c) => DocReaderV {
                tbl: TableReaderV {
                    cell: Some(types::TableCellV { shading: fill, ..c }),
                    ..s.tbl
                },
                ..s
            },
            None => s,
        }
    }
}

/// What a border or margin edge does, by the container it stands in.
pub open spec fn edge_s(s: DocReaderV, t: XmlTagV) -> DocReaderV {
    if s.para.in_pbdr && style_parse::is_side_s(t.name) {
        DocReaderV { para: import_text::para_edge_s(s.para, t), ..s }
    } else {
        DocReaderV { tbl: import_table::table_edge_s(s.tbl, t), ..s }
    }
}

/// What a break in a run does.
pub open spec fn br_s(s: DocReaderV, t: XmlTagV) -> DocReaderV {
    let v = events::attr_s(t, "w:type"@);
    if s.run.in_run && v == Some("page"@) {
        DocReaderV { para: import_text::para_broken_s(s.para, true), ..s }
    } else if s.run.in_run && v == Some("column"@) {
        DocReaderV { para: import_text::para_broken_s(s.para, false), ..s }
    } else {
        s
    }
}

/// What a font size does, by where it stands.
pub open spec fn sz_s(s: DocReaderV, t: XmlTagV) -> DocReaderV {
    if s.run.in_rpr {
        DocReaderV {
            run: RunReaderV { cur: import_text::run_prop_s(s.run.cur, t), ..s.run },
            ..s
        }
    } else if s.para.in_mark_rpr {
        DocReaderV {
            para: ParaReaderV {
                props: ParaPropsV {
                    mark_size: events::attr_u32_s(t, "w:val"@),
                    ..s.para.props
                },
                ..s.para
            },
            ..s
        }
    } else {
        s
    }
}

/// What a bare revision does: it is the paragraph mark's, or the row's.
pub open spec fn bare_revision_s(s: DocReaderV, t: XmlTagV, k: TrackKind) -> DocReaderV {
    let x = events::revision_track_s(t, k);
    if s.para.in_mark_rpr {
        DocReaderV { para: ParaReaderV { mark: Some(x), ..s.para }, ..s }
    } else if s.tbl.in_trpr && !k.is_move_s() {
        DocReaderV { tbl: TableReaderV { row_change: Some(x), ..s.tbl }, ..s }
    } else {
        s
    }
}

pub open spec fn is_table_leaf_s(n: Seq<char>) -> bool {
    import_table::is_cell_leaf_s(n) || import_table::is_row_leaf_s(n) || n == "w:gridCol"@ || n
        == "w:tblStyle"@ || n == "w:tblLook"@ || n == "w:cellIns"@ || n == "w:cellDel"@
}

pub open spec fn is_para_leaf_s(n: Seq<char>) -> bool {
    n == "w:pStyle"@ || n == "w:ilvl"@ || n == "w:numId"@ || n == "w:spacing"@ || n == "w:ind"@
        || n == "w:keepNext"@ || n == "w:contextualSpacing"@ || n == "w:pageBreakBefore"@ || n
        == "w:framePr"@
}

/// What a self-closing tag does.
pub open spec fn doc_empty_s(s: DocReaderV, t: XmlTagV) -> DocReaderV {
    let n = t.name;
    if n == "w:type"@ {
        if s.in_sectpr {
            DocReaderV { sect_type: events::attr_s(t, "w:val"@), ..s }
        } else {
            s
        }
    } else if n == "w:jc"@ {
        jc_s(s, t)
    } else if n == "w:tab"@ {
        tab_s(s, t)
    } else if n == "w:shd"@ {
        shd_s(s, t)
    } else if style_parse::is_edge_s(n) {
        edge_s(s, t)
    } else if n == "w:br"@ {
        br_s(s, t)
    } else if n == "w:sz"@ {
        sz_s(s, t)
    } else if is_milestone_s(n) {
        DocReaderV { marks: milestone_s(s, t), ..s }
    } else if n == "w:fldChar"@ {
        if s.run.in_run {
            field_char_s(s, t)
        } else {
            s
        }
    } else if n == "w:p"@ {
        blank_para_read_s(s)
    } else {
        leaf_s(s, t)
    }
}

/// What the other self-closing tags do.
pub open spec fn leaf_s(s: DocReaderV, t: XmlTagV) -> DocReaderV {
    let n = t.name;
    match revision_kind_s(n) {
        Some(k) => bare_revision_s(s, t, k),
        None => if is_table_leaf_s(n) {
            DocReaderV { tbl: import_table::table_empty_s(s.tbl, t), ..s }
        } else if is_para_leaf_s(n) {
            DocReaderV { para: import_text::para_empty_s(s.para, t, s.run.in_run), ..s }
        } else if s.run.in_rpr {
            DocReaderV {
                run: RunReaderV { cur: import_text::run_prop_s(s.run.cur, t), ..s.run },
                ..s
            }
        } else {
            s
        },
    }
}

// ---------------------------------------------------------------- text and closing tags

/// What text does; nothing where it is wanted and does not decode.
pub open spec fn doc_text_s(s: DocReaderV, o: Option<Seq<char>>) -> Option<DocReaderV> {
    if s.run.capturing_instr {
        match o {
            Some(x) => Some(
                DocReaderV { run: RunReaderV { instr: s.run.instr + x, ..s.run }, ..s },
            ),
            None => None,
        }
    } else {
        doc_ref_s(s, o)
    }
}

/// What a reference does; nothing where it is wanted and does not resolve.
pub open spec fn doc_ref_s(s: DocReaderV, o: Option<Seq<char>>) -> Option<DocReaderV> {
    if s.run.capturing && s.para.in_para {
        match o {
            Some(x) => Some(
                DocReaderV { run: RunReaderV { text: s.run.text + x, ..s.run }, ..s },
            ),
            None => None,
        }
    } else {
        Some(s)
    }
}

/// What the end of a table does: an outermost one joins the body.
pub open spec fn table_ended_s(s: DocReaderV, xml: Seq<u8>, to: int) -> DocReaderV {
    DocReaderV {
        tbl: import_table::tbl_closed_s(s.tbl, xml, to),
        items: match import_table::completed_s(s.tbl) {
            Some(g) => s.items.push(ImportItemV::Table(g)),
            None => s.items,
        },
        ..s
    }
}

/// What the end of a text element does.
pub open spec fn text_ended_s(s: DocReaderV) -> DocReaderV {
    DocReaderV {
        para: ParaReaderV {
            segs: import_text::segs_after_text_s(s.run, s.para.segs),
            ..s.para
        },
        run: import_text::text_closed_s(s.run),
        ..s
    }
}

/// What a closing tag inside a paragraph does.
pub open spec fn para_end_s(s: DocReaderV, n: Seq<char>) -> DocReaderV {
    if is_para_tag_s(n) {
        DocReaderV { para: import_text::para_close_s(s.para, n), ..s }
    } else if n == "w:rPr"@ {
        DocReaderV {
            run: RunReaderV { in_rpr: false, ..s.run },
            para: ParaReaderV { in_mark_rpr: false, ..s.para },
            ..s
        }
    } else if n == "w:t"@ || n == "w:delText"@ {
        text_ended_s(s)
    } else {
        DocReaderV { run: import_text::run_close_s(s.run, n), ..s }
    }
}

/// What a closing tag that ends at byte `to` does.
pub open spec fn doc_end_s(s: DocReaderV, xml: Seq<u8>, n: Seq<char>, to: int) -> DocReaderV {
    if n == "w:tbl"@ {
        table_ended_s(s, xml, to)
    } else if is_table_tag_s(n) {
        DocReaderV { tbl: import_table::table_close_s(s.tbl, n), ..s }
    } else if n == "w:hyperlink"@ {
        DocReaderV { marks: link_closed_s(s), ..s }
    } else if n == "w:sectPr"@ {
        sect_closed_s(s)
    } else if n == "w:p"@ {
        para_closed_s(s)
    } else {
        para_end_s(s, n)
    }
}

// ---------------------------------------------------------------- the document

/// What one step does; nothing where the document cannot be read further.
pub open spec fn doc_step_s(s: DocReaderV, xml: Seq<u8>, x: XmlStepV) -> Option<DocReaderV> {
    match x.event {
        XmlEventV::Error => None,
        e => match s.skip {
            Some(k) => Some(DocReaderV { skip: drawings::skip_step_s(k, e), ..s }),
            None => match e {
                XmlEventV::Start(t) => Some(doc_start_s(s, t, x.start)),
                XmlEventV::Empty(t) => Some(doc_empty_s(s, t)),
                XmlEventV::End(n) => Some(doc_end_s(s, xml, n, x.end)),
                XmlEventV::Text(o) => doc_text_s(s, o),
                XmlEventV::Ref(o) => doc_ref_s(s, o),
                _ => Some(s),
            },
        },
    }
}

pub open spec fn doc_run_s(xml: Seq<u8>, steps: Seq<XmlStepV>, n: int) -> Option<DocReaderV>
    decreases n,
{
    if n <= 0 {
        Some(DocReaderV::initial())
    } else {
        match doc_run_s(xml, steps, n - 1) {
            Some(s) => doc_step_s(s, xml, steps[n - 1]),
            None => None,
        }
    }
}

/// The first of the marks from `from` on that carries `id`.
pub open spec fn mark_of_s(ends: Seq<Mark>, id: u64, from: int) -> Option<Mark>
    decreases ends.len() - from,
{
    if 0 <= from < ends.len() {
        if ends[from].id == id {
            Some(ends[from])
        } else {
            mark_of_s(ends, id, from + 1)
        }
    } else {
        None
    }
}

/// The comment ranges: each start with the first end of the same id.
pub open spec fn comment_anchors_s(starts: Seq<Mark>, ends: Seq<Mark>, n: nat) -> Seq<CommentAnchor>
    decreases n,
{
    if n == 0 {
        Seq::empty()
    } else {
        let r = comment_anchors_s(starts, ends, (n - 1) as nat);
        let a = starts[n - 1];
        match mark_of_s(ends, a.id, 0) {
            Some(e) => r.push(
                CommentAnchor {
                    id: a.id,
                    start_para: a.para,
                    start_off: a.off,
                    end_para: e.para,
                    end_off: e.off,
                },
            ),
            None => r,
        }
    }
}

/// The bookmark ranges: each start with the first end of the same id.
pub open spec fn bookmark_anchors_s(
    starts: Seq<BookmarkAnchorV>,
    ends: Seq<Mark>,
    n: nat,
) -> Seq<BookmarkAnchorV>
    decreases n,
{
    if n == 0 {
        Seq::empty()
    } else {
        let r = bookmark_anchors_s(starts, ends, (n - 1) as nat);
        let a = starts[n - 1];
        match mark_of_s(ends, a.id, 0) {
            Some(e) => r.push(BookmarkAnchorV { end_para: e.para, end_off: e.off, ..a }),
            None => r,
        }
    }
}

/// What the reader has at the end.
pub open spec fn import_of_s(s: DocReaderV) -> DocumentImportV {
    let m = s.marks;
    DocumentImportV {
        items: s.items,
        stats: s.stats,
        anchors: ImportAnchorsV {
            comments: comment_anchors_s(m.comment_starts, m.comment_ends, m.comment_starts.len()),
            fields: m.fields,
            bookmarks: bookmark_anchors_s(
                m.bookmark_starts,
                m.bookmark_ends,
                m.bookmark_starts.len(),
            ),
            hyperlinks: m.links,
        },
    }
}

/// What a document part holds; nothing where it is malformed.
pub open spec fn document_s(xml: Seq<u8>, steps: Seq<XmlStepV>) -> Option<DocumentImportV> {
    match doc_run_s(xml, steps, steps.len() as int) {
        Some(s) => if s.skip is None {
            Some(import_of_s(s))
        } else {
            None
        },
        None => None,
    }
}

/// A document that cannot be read up to one step cannot be read further.
proof fn lemma_failed(xml: Seq<u8>, steps: Seq<XmlStepV>, n: int, m: int)
    requires
        0 <= n <= m,
        doc_run_s(xml, steps, n) is None,
    ensures
        doc_run_s(xml, steps, m) is None,
    decreases m - n,
{
    if n < m {
        lemma_failed(xml, steps, n, m - 1);
    }
}

// ---------------------------------------------------------------- the reader

impl AnchorReader {
    pub open spec fn bounded(self, i: nat) -> bool {
        self.appended <= i && self.field_depth <= i && self.next_field <= i && self.next_link <= i
    }

    fn new() -> (r: Self)
        ensures
            r@ == AnchorReaderV::initial(),
            r.bounded(0),
    {
        let r = AnchorReader {
            appended: 0,
            comment_starts: Vec::new(),
            comment_ends: Vec::new(),
            field_depth: 0,
            next_field: 0,
            open_field: None,
            fields: Vec::new(),
            bookmark_starts: Vec::new(),
            bookmark_ends: Vec::new(),
            next_link: 0,
            open_link: None,
            links: Vec::new(),
            move_names: StrMap::new(),
            move_from: None,
            move_to: None,
        };
        assert(r@ =~= AnchorReaderV::initial());
        r
    }

    fn close_field(&mut self, off: usize)
        ensures
            final(self)@ == field_closed_s(old(self)@, off),
            forall|i: nat| old(self).bounded(i) ==> #[trigger] final(self).bounded(i),
    {
        if self.field_depth == 1 {
            if let Some(mut a) = self.open_field.take() {
                let ghost was = self.fields@;
                a.end_para = self.appended;
                a.end_off = off;
                let ghost av = a@;
                self.fields.push(a);
                assert(field_anchor_vs(self.fields@) =~= field_anchor_vs(was).push(av));
            }
        }
        if self.field_depth > 0 {
            self.field_depth = self.field_depth - 1;
        }
    }

    /// The revision id of the move that a range marker names.
    fn move_id(&mut self, t: &XmlTag) -> (r: u64)
        ensures
            r == move_id_s(old(self)@, t@),
            final(self)@ == (AnchorReaderV {
                move_names: moves_s(old(self)@, t@),
                ..old(self)@
            }),
            forall|i: nat| old(self).bounded(i) ==> #[trigger] final(self).bounded(i),
    {
        let name = or_empty(attr(t, "w:name"));
        let id = or_else(attr_u64(t, "w:id"), 0);
        let r = match self.move_names.get(name.as_str()) {
            Some(x) => *x,
            None => id,
        };
        self.move_names.insert_new(name.as_str(), id);
        r
    }
}

fn link_target(t: &XmlTag) -> (r: Option<String>)
    ensures
        strs::opt_s(r) == link_target_s(t@),
{
    match attr(t, "w:anchor") {
        Some(a) => {
            let mut s = "#".to_string();
            s.append(a.as_str());
            Some(s)
        },
        None => match attr(t, "r:id") {
            Some(a) => {
                let mut s = "rid:".to_string();
                s.append(a.as_str());
                Some(s)
            },
            None => None,
        },
    }
}

fn revision_kind(n: &str) -> (r: Option<TrackKind>)
    ensures
        r == revision_kind_s(n@),
{
    if str_eq(n, "w:ins") {
        Some(TrackKind::Ins)
    } else if str_eq(n, "w:del") {
        Some(TrackKind::Del)
    } else if str_eq(n, "w:moveFrom") {
        Some(TrackKind::MoveFrom)
    } else if str_eq(n, "w:moveTo") {
        Some(TrackKind::MoveTo)
    } else {
        None
    }
}

fn is_table_tag(n: &str) -> (r: bool)
    ensures
        r == is_table_tag_s(n@),
{
    str_eq(n, "w:tblGrid") || str_eq(n, "w:tblBorders") || str_eq(n, "w:tblCellMar") || str_eq(
        n,
        "w:tr",
    ) || str_eq(n, "w:tc") || str_eq(n, "w:trPr") || str_eq(n, "w:tcBorders") || str_eq(
        n,
        "w:tcMar",
    ) || str_eq(n, "w:tblPrChange") || str_eq(n, "w:trPrChange") || str_eq(n, "w:tcPrChange")
}

fn is_para_tag(n: &str) -> (r: bool)
    ensures
        r == is_para_tag_s(n@),
{
    str_eq(n, "w:tabs") || str_eq(n, "w:pBdr") || str_eq(n, "w:pPrChange")
}

fn is_milestone(n: &str) -> (r: bool)
    ensures
        r == is_milestone_s(n@),
{
    str_eq(n, "w:commentRangeStart") || str_eq(n, "w:commentRangeEnd") || str_eq(
        n,
        "w:moveFromRangeStart",
    ) || str_eq(n, "w:moveFromRangeEnd") || str_eq(n, "w:moveToRangeStart") || str_eq(
        n,
        "w:moveToRangeEnd",
    ) || str_eq(n, "w:bookmarkStart") || str_eq(n, "w:bookmarkEnd")
}

fn is_table_leaf(n: &str) -> (r: bool)
    ensures
        r == is_table_leaf_s(n@),
{
    str_eq(n, "w:gridSpan") || str_eq(n, "w:vMerge") || str_eq(n, "w:tcW") || str_eq(
        n,
        "w:trHeight",
    ) || str_eq(n, "w:cantSplit") || str_eq(n, "w:gridCol") || str_eq(n, "w:tblStyle") || str_eq(
        n,
        "w:tblLook",
    ) || str_eq(n, "w:cellIns") || str_eq(n, "w:cellDel")
}

fn is_para_leaf(n: &str) -> (r: bool)
    ensures
        r == is_para_leaf_s(n@),
{
    str_eq(n, "w:pStyle") || str_eq(n, "w:ilvl") || str_eq(n, "w:numId") || str_eq(n, "w:spacing")
        || str_eq(n, "w:ind") || str_eq(n, "w:keepNext") || str_eq(n, "w:contextualSpacing")
        || str_eq(n, "w:pageBreakBefore") || str_eq(n, "w:framePr")
}

/// A paragraph without style, properties or text.
pub fn empty_paragraph() -> (r: Paragraph)
    ensures
        r@ == import_text::blank_para_s(),
{
    let runs: Vec<Run> = Vec::new();
    assert(types::run_vs(runs@) =~= Seq::empty());
    Paragraph {
        style: None,
        props: ParaProps::default(),
        runs,
        prop_change: None,
        mark_change: None,
    }
}

impl DocReader {
    /// The counters stay below the number of steps taken.
    pub open spec fn bounded(self, i: nat) -> bool {
        &&& self.tbl.bounded(i)
        &&& self.marks.bounded(i)
        &&& self.run.field_results <= i
        &&& self.stats.paragraphs <= i
        &&& self.stats.table_paragraphs <= i
        &&& self.skip matches Some(k) ==> k.depth <= i
    }

    fn new() -> (r: Self)
        ensures
            r@ == DocReaderV::initial(),
            r.bounded(0),
    {
        let r = DocReader {
            skip: None,
            tbl: TableReader::new(),
            para: ParaReader::new(),
            run: RunReader::new(),
            marks: AnchorReader::new(),
            in_sectpr: false,
            sect_type: None,
            ends_section: false,
            last_section: None,
            items: Vec::new(),
            stats: ImportStats::default(),
        };
        assert(r@ =~= DocReaderV::initial());
        r
    }

    /// The mark with id `id` at the reader's place.
    fn here(&self, id: u64, para: usize) -> (r: Mark)
        ensures
            r == here_s(self@, id, para),
    {
        Mark { id, para, off: chars(&self.para.segs) }
    }

    fn milestone_para(&self) -> (r: usize)
        ensures
            r == milestone_para_s(self@),
    {
        if self.para.in_para || self.marks.appended == 0 {
            self.marks.appended
        } else {
            self.marks.appended - 1
        }
    }

    fn open_link(&mut self, t: &XmlTag, Ghost(i): Ghost<nat>)
        requires
            old(self).bounded(i),
            i < usize::MAX,
        ensures
            final(self)@ == (DocReaderV { marks: link_opened_s(old(self)@, t@), ..old(self)@ }),
            final(self).bounded(i + 1),
    {
        if let Some(target) = link_target(t) {
            let off = chars(&self.para.segs);
            self.marks.open_link = Some(
                HyperlinkAnchor {
                    id: self.marks.next_link,
                    target,
                    start_para: self.marks.appended,
                    start_off: off,
                    end_para: 0,
                    end_off: 0,
                },
            );
            self.marks.next_link = self.marks.next_link + 1;
        }
    }

    fn close_link(&mut self, Ghost(i): Ghost<nat>)
        requires
            old(self).bounded(i),
        ensures
            final(self)@ == (DocReaderV { marks: link_closed_s(old(self)@), ..old(self)@ }),
            final(self).bounded(i),
    {
        if let Some(mut a) = self.marks.open_link.take() {
            let ghost was = self.marks.links@;
            a.end_para = self.marks.appended;
            a.end_off = chars(&self.para.segs);
            let ghost av = a@;
            self.marks.links.push(a);
            assert(hyperlink_anchor_vs(self.marks.links@) =~= hyperlink_anchor_vs(was).push(av));
        }
    }

    fn start_bookmark(&mut self, t: &XmlTag, id: u64)
        ensures
            final(self)@ == (DocReaderV {
                marks: bookmark_started_s(old(self)@, t@, id),
                ..old(self)@
            }),
            forall|i: nat| old(self).bounded(i) ==> #[trigger] final(self).bounded(i),
    {
        let name = or_empty(attr(t, "w:name"));
        if !str_eq(name.as_str(), "_GoBack") {
            let ghost was = self.marks.bookmark_starts@;
            let a = BookmarkAnchor {
                id,
                name,
                start_para: self.milestone_para(),
                start_off: chars(&self.para.segs),
                end_para: 0,
                end_off: 0,
            };
            let ghost av = a@;
            self.marks.bookmark_starts.push(a);
            assert(bookmark_anchor_vs(self.marks.bookmark_starts@) =~= bookmark_anchor_vs(
                was,
            ).push(av));
        }
    }

    fn milestone(&mut self, t: &XmlTag, Ghost(i): Ghost<nat>)
        requires
            old(self).bounded(i),
            is_milestone_s(t@.name),
        ensures
            final(self)@ == (DocReaderV { marks: milestone_s(old(self)@, t@), ..old(self)@ }),
            final(self).bounded(i),
    {
        if is_tag(t, "w:moveFromRangeStart") {
            let id = self.marks.move_id(t);
            assert(self.marks.bounded(i));
            self.marks.move_from = Some(id);
        } else if is_tag(t, "w:moveFromRangeEnd") {
            self.marks.move_from = None;
        } else if is_tag(t, "w:moveToRangeStart") {
            let id = self.marks.move_id(t);
            assert(self.marks.bounded(i));
            self.marks.move_to = Some(id);
        } else if is_tag(t, "w:moveToRangeEnd") {
            self.marks.move_to = None;
        } else if let Some(id) = attr_u64(t, "w:id") {
            if is_tag(t, "w:commentRangeStart") {
                if self.para.in_para {
                    let m = self.here(id, self.marks.appended);
                    self.marks.comment_starts.push(m);
                }
            } else if is_tag(t, "w:commentRangeEnd") {
                if self.para.in_para {
                    let m = self.here(id, self.marks.appended);
                    self.marks.comment_ends.push(m);
                }
            } else if is_tag(t, "w:bookmarkStart") {
                self.start_bookmark(t, id);
            } else {
                let m = self.here(id, self.milestone_para());
                self.marks.bookmark_ends.push(m);
            }
        }
    }

    fn begin_field(&mut self, Ghost(i): Ghost<nat>)
        requires
            old(self).bounded(i),
            i < usize::MAX,
        ensures
            final(self)@ == field_begun_s(old(self)@),
            final(self).bounded(i + 1),
    {
        self.marks.field_depth = self.marks.field_depth + 1;
        if self.marks.field_depth == 1 {
            self.run.field_active = true;
            self.run.field_in_result = false;
            self.run.field_char = None;
            self.run.field_results = 0;
            self.run.instr = String::new();
            assert(self.run.instr@ =~= Seq::empty());
        }
    }

    fn separate_field(&mut self, Ghost(i): Ghost<nat>)
        requires
            old(self).bounded(i),
            i < usize::MAX,
        ensures
            final(self)@ == field_separated_s(old(self)@),
            final(self).bounded(i + 1),
    {
        if self.marks.field_depth == 1 {
            let c = field_placeholder(trim(self.run.instr.as_str()).as_str());
            self.run.field_in_result = true;
            self.run.field_char = c;
            if c.is_none() {
                let a = FieldAnchor {
                    id: self.marks.next_field,
                    instr: self.run.instr.clone(),
                    start_para: self.marks.appended,
                    start_off: chars(&self.para.segs),
                    end_para: 0,
                    end_off: 0,
                };
                self.marks.open_field = Some(a);
                self.marks.next_field = self.marks.next_field + 1;
            }
        }
    }

    fn end_field(&mut self, Ghost(i): Ghost<nat>)
        requires
            old(self).bounded(i),
        ensures
            final(self)@ == field_ended_s(old(self)@),
            final(self).bounded(i),
    {
        let outermost = self.marks.field_depth == 1;
        let off = chars(&self.para.segs);
        self.marks.close_field(off);
        assert(self.marks.bounded(i));
        if outermost {
            self.run.leave_field();
        }
    }

    fn field_part(&mut self, t: &XmlTag, Ghost(i): Ghost<nat>)
        requires
            old(self).bounded(i),
            i < usize::MAX,
        ensures
            final(self)@ == field_char_s(old(self)@, t@),
            final(self).bounded(i + 1),
    {
        let v = attr(t, "w:fldCharType");
        if opt_is(&v, "begin") {
            self.begin_field(Ghost(i));
        } else if opt_is(&v, "separate") {
            self.separate_field(Ghost(i));
        } else if opt_is(&v, "end") {
            self.end_field(Ghost(i));
        }
    }

    fn close_sect(&mut self, Ghost(i): Ghost<nat>)
        requires
            old(self).bounded(i),
        ensures
            final(self)@ == sect_closed_s(old(self)@),
            final(self).bounded(i),
    {
        let page = !(opt_is(&self.sect_type, "continuous") || opt_is(
            &self.sect_type,
            "nextColumn",
        ));
        self.in_sectpr = false;
        if let Some(k) = self.last_section {
            if k < self.items.len() {
                let ghost was = import_item_vs(self.items@);
                assert(was[k as int] == self.items@[k as int]@);
                if let ImportItem::Paragraph(p) = &self.items[k] {
                    let mut q = p.clone();
                    if page {
                        q.props.page_break_after = true;
                        q.props.section_end = true;
                    } else {
                        q.props.continuous_break = true;
                    }
                    self.items.set(k, ImportItem::Paragraph(q));
                }
                assert(import_item_vs(self.items@) =~= was.update(
                    k as int,
                    section_ended_s(was[k as int], page),
                ));
            }
        }
    }

    fn push_item(&mut self, item: ImportItem)
        ensures
            final(self)@ == (DocReaderV { items: old(self)@.items.push(item@), ..old(self)@ }),
            forall|i: nat| old(self).bounded(i) ==> #[trigger] final(self).bounded(i),
    {
        let ghost was = self.items@;
        let ghost iv = item@;
        self.items.push(item);
        assert(import_item_vs(self.items@) =~= import_item_vs(was).push(iv));
    }

    fn body_para(&mut self, p: Paragraph, Ghost(i): Ghost<nat>)
        requires
            old(self).bounded(i),
            i < usize::MAX,
        ensures
            final(self)@ == body_para_s(old(self)@, p@),
            final(self).bounded(i + 1),
    {
        self.push_item(ImportItem::Paragraph(p));
        assert(self.bounded(i));
        self.para.in_para = false;
        self.marks.appended = self.marks.appended + 1;
        self.stats.paragraphs = self.stats.paragraphs + 1;
    }

    fn table_para(&mut self, p: Paragraph, Ghost(i): Ghost<nat>)
        requires
            old(self).bounded(i),
            i < usize::MAX,
        ensures
            final(self)@ == table_para_s(old(self)@, p@),
            final(self).bounded(i + 1),
    {
        if self.tbl.push_para(p, Ghost(i)) {
            self.marks.appended = self.marks.appended + 1;
        }
        self.stats.table_paragraphs = self.stats.table_paragraphs + 1;
    }

    fn close_para(&mut self, Ghost(i): Ghost<nat>)
        requires
            old(self).bounded(i),
            i < usize::MAX,
        ensures
            final(self)@ == para_closed_s(old(self)@),
            final(self).bounded(i + 1),
    {
        if self.para.in_para {
            let p = self.para.read_para();
            if self.tbl.depth == 0 {
                if self.ends_section {
                    self.last_section = Some(self.items.len());
                }
                self.ends_section = false;
                self.body_para(p, Ghost(i));
            } else {
                self.table_para(p, Ghost(i));
                self.para.in_para = false;
            }
        }
    }

    fn blank(&mut self, Ghost(i): Ghost<nat>)
        requires
            old(self).bounded(i),
            i < usize::MAX,
        ensures
            final(self)@ == blank_para_read_s(old(self)@),
            final(self).bounded(i + 1),
    {
        if self.tbl.depth == 0 {
            self.body_para(empty_paragraph(), Ghost(i));
        } else if self.tbl.depth == 1 && self.tbl.cell.is_some() {
            self.table_para(empty_paragraph(), Ghost(i));
        }
    }

    fn start(&mut self, t: &XmlTag, at: usize, Ghost(i): Ghost<nat>)
        requires
            old(self).bounded(i),
            i < usize::MAX,
        ensures
            final(self)@ == doc_start_s(old(self)@, t@, at as int),
            final(self).bounded(i + 1),
    {
        if is_tag(t, "w:txbxContent") {
            self.skip = Some(Skip { name: t.name.clone(), depth: 0 });
        } else if is_tag(t, "w:tbl") {
            self.tbl.open_tbl(at, Ghost(i));
        } else if is_table_tag(t.name.as_str()) {
            self.tbl.open(t, self.para.in_para, Ghost(i));
        } else if is_tag(t, "w:hyperlink") {
            self.open_link(t, Ghost(i));
        } else if is_tag(t, "w:sectPr") {
            self.in_sectpr = true;
            self.sect_type = None;
            if self.para.in_para {
                self.ends_section = true;
            }
        } else if is_tag(t, "w:p") {
            if self.tbl.depth == 0 || (self.tbl.depth == 1 && self.tbl.cell.is_some()) {
                self.para.open_para();
            }
        } else if is_para_tag(t.name.as_str()) {
            self.para.open(t, self.run.in_run);
        } else if is_tag(t, "w:rPr") {
            if self.run.in_run {
                self.run.in_rpr = true;
            } else if self.para.in_para {
                self.para.in_mark_rpr = true;
            }
        } else {
            self.start_in_run(t, Ghost(i));
        }
    }

    fn start_in_run(&mut self, t: &XmlTag, Ghost(i): Ghost<nat>)
        requires
            old(self).bounded(i),
        ensures
            final(self)@ == run_start_s(old(self)@, t@),
            final(self).bounded(i),
    {
        if is_tag(t, "w:r") {
            if self.para.in_para {
                self.run.open_run();
            }
        } else if is_tag(t, "w:fldSimple") {
            if self.para.in_para {
                self.run.open_simple_field(t);
            }
        } else {
            match revision_kind(t.name.as_str()) {
                Some(k) => {
                    if self.para.in_para {
                        let mut x = revision_track(t, k);
                        match k {
                            TrackKind::MoveFrom => {
                                x.id = or_else(self.marks.move_from, x.id);
                            },
                            TrackKind::MoveTo => {
                                x.id = or_else(self.marks.move_to, x.id);
                            },
                            _ => {},
                        }
                        self.run.track = Some(x);
                    }
                },
                None => {
                    self.run.open(t);
                },
            }
        }
    }

    fn align(&mut self, t: &XmlTag, Ghost(i): Ghost<nat>)
        requires
            old(self).bounded(i),
        ensures
            final(self)@ == jc_s(old(self)@, t@),
            final(self).bounded(i),
    {
        if self.tbl.in_trpr || (self.tbl.depth == 1 && !self.para.in_para
            && self.tbl.row.is_none()) {
            self.tbl.align(t);
        } else {
            self.para.empty(t, self.run.in_run);
        }
    }

    fn tab(&mut self, t: &XmlTag, Ghost(i): Ghost<nat>)
        requires
            old(self).bounded(i),
        ensures
            final(self)@ == tab_s(old(self)@, t@),
            final(self).bounded(i),
    {
        if self.para.in_tabs {
            self.para.stop(t);
        } else if self.run.in_run {
            let r = self.run.run_of("\t".to_string(), clone_track_opt(&self.run.track));
            self.para.push(r);
        }
    }

    fn shade(&mut self, t: &XmlTag, Ghost(i): Ghost<nat>)
        requires
            old(self).bounded(i),
        ensures
            final(self)@ == shd_s(old(self)@, t@),
            final(self).bounded(i),
    {
        if self.run.in_rpr {
            self.run.empty(t);
        } else if self.para.in_para {
            self.para.props.shading = fill(t);
        } else {
            self.tbl.shade(fill(t), Ghost(i));
        }
    }

    fn edge(&mut self, t: &XmlTag, Ghost(i): Ghost<nat>)
        requires
            old(self).bounded(i),
        ensures
            final(self)@ == edge_s(old(self)@, t@),
            final(self).bounded(i),
    {
        if self.para.in_pbdr && is_side(t) {
            self.para.edge(t);
        } else {
            self.tbl.edge(t, Ghost(i));
        }
    }

    fn line_break(&mut self, t: &XmlTag, Ghost(i): Ghost<nat>)
        requires
            old(self).bounded(i),
        ensures
            final(self)@ == br_s(old(self)@, t@),
            final(self).bounded(i),
    {
        if self.run.in_run {
            let v = attr(t, "w:type");
            if opt_is(&v, "page") {
                self.para.manual_break(true);
            } else if opt_is(&v, "column") {
                self.para.manual_break(false);
            }
        }
    }

    fn size(&mut self, t: &XmlTag, Ghost(i): Ghost<nat>)
        requires
            old(self).bounded(i),
        ensures
            final(self)@ == sz_s(old(self)@, t@),
            final(self).bounded(i),
    {
        if self.run.in_rpr {
            self.run.empty(t);
        } else if self.para.in_mark_rpr {
            self.para.props.mark_size = attr_u32(t, "w:val");
        }
    }

    fn bare_revision(&mut self, t: &XmlTag, k: TrackKind, Ghost(i): Ghost<nat>)
        requires
            old(self).bounded(i),
        ensures
            final(self)@ == bare_revision_s(old(self)@, t@, k),
            final(self).bounded(i),
    {
        if self.para.in_mark_rpr {
            self.para.mark = Some(revision_track(t, k));
        } else if self.tbl.in_trpr && !k.is_move() {
            self.tbl.row_change = Some(revision_track(t, k));
        }
    }

    fn leaf(&mut self, t: &XmlTag, Ghost(i): Ghost<nat>)
        requires
            old(self).bounded(i),
        ensures
            final(self)@ == leaf_s(old(self)@, t@),
            final(self).bounded(i),
    {
        match revision_kind(t.name.as_str()) {
            Some(k) => self.bare_revision(t, k, Ghost(i)),
            None => {
                if is_table_leaf(t.name.as_str()) {
                    self.tbl.empty(t, Ghost(i));
                } else if is_para_leaf(t.name.as_str()) {
                    self.para.empty(t, self.run.in_run);
                } else if self.run.in_rpr {
                    self.run.empty(t);
                }
            },
        }
    }

    fn empty(&mut self, t: &XmlTag, Ghost(i): Ghost<nat>)
        requires
            old(self).bounded(i),
            i < usize::MAX,
        ensures
            final(self)@ == doc_empty_s(old(self)@, t@),
            final(self).bounded(i + 1),
    {
        if is_tag(t, "w:type") {
            if self.in_sectpr {
                self.sect_type = attr(t, "w:val");
            }
        } else if is_tag(t, "w:jc") {
            self.align(t, Ghost(i));
        } else if is_tag(t, "w:tab") {
            self.tab(t, Ghost(i));
        } else if is_tag(t, "w:shd") {
            self.shade(t, Ghost(i));
        } else if is_edge(t) {
            self.edge(t, Ghost(i));
        } else if is_tag(t, "w:br") {
            self.line_break(t, Ghost(i));
        } else if is_tag(t, "w:sz") {
            self.size(t, Ghost(i));
        } else if is_milestone(t.name.as_str()) {
            self.milestone(t, Ghost(i));
        } else if is_tag(t, "w:fldChar") {
            if self.run.in_run {
                self.field_part(t, Ghost(i));
            }
        } else if is_tag(t, "w:p") {
            self.blank(Ghost(i));
        } else {
            self.leaf(t, Ghost(i));
        }
    }

    /// Take in a text or a resolved reference; whether the document can be read further.
    fn text(&mut self, o: &Option<String>, plain: bool, Ghost(i): Ghost<nat>) -> (r: bool)
        requires
            old(self).bounded(i),
        ensures
            (if r {
                Some(final(self)@)
            } else {
                None
            }) == (if plain {
                doc_text_s(old(self)@, strs::opt_s(*o))
            } else {
                doc_ref_s(old(self)@, strs::opt_s(*o))
            }),
            final(self).bounded(i),
    {
        if plain && self.run.capturing_instr {
            match o {
                Some(x) => {
                    self.run.instr.append(x.as_str());
                    true
                },
                None => false,
            }
        } else if self.run.capturing && self.para.in_para {
            match o {
                Some(x) => {
                    self.run.text.append(x.as_str());
                    true
                },
                None => false,
            }
        } else {
            true
        }
    }

    fn end(&mut self, xml: &[u8], n: &str, to: usize, Ghost(i): Ghost<nat>)
        requires
            old(self).bounded(i),
            i < usize::MAX,
        ensures
            final(self)@ == doc_end_s(old(self)@, xml@, n@, to as int),
            final(self).bounded(i + 1),
    {
        if str_eq(n, "w:tbl") {
            self.close_table(xml, to, Ghost(i));
        } else if is_table_tag(n) {
            self.tbl.close(n, Ghost(i));
        } else if str_eq(n, "w:hyperlink") {
            self.close_link(Ghost(i));
        } else if str_eq(n, "w:sectPr") {
            self.close_sect(Ghost(i));
        } else if str_eq(n, "w:p") {
            self.close_para(Ghost(i));
        } else {
            self.end_in_para(n, Ghost(i));
        }
    }

    fn close_table(&mut self, xml: &[u8], to: usize, Ghost(i): Ghost<nat>)
        requires
            old(self).bounded(i),
        ensures
            final(self)@ == table_ended_s(old(self)@, xml@, to as int),
            final(self).bounded(i),
    {
        if let Some(g) = self.tbl.close_tbl(xml, to, Ghost(i)) {
            assert(self.bounded(i));
            self.push_item(ImportItem::Table(g));
            assert(self.bounded(i));
        }
    }

    fn close_text(&mut self, Ghost(i): Ghost<nat>)
        requires
            old(self).bounded(i),
            i < usize::MAX,
        ensures
            final(self)@ == text_ended_s(old(self)@),
            final(self).bounded(i + 1),
    {
        let ghost s = self@;
        let r = self.run.close_text();
        assert(import_text::segs_after_text_s(s.run, s.para.segs) == (match r {
            Some(x) => s.para.segs.push(x@),
            None => s.para.segs,
        }));
        if let Some(x) = r {
            self.para.push(x);
        }
    }

    fn end_in_para(&mut self, n: &str, Ghost(i): Ghost<nat>)
        requires
            old(self).bounded(i),
            i < usize::MAX,
        ensures
            final(self)@ == para_end_s(old(self)@, n@),
            final(self).bounded(i + 1),
    {
        if is_para_tag(n) {
            self.para.close(n);
        } else if str_eq(n, "w:rPr") {
            self.run.in_rpr = false;
            self.para.in_mark_rpr = false;
        } else if str_eq(n, "w:t") || str_eq(n, "w:delText") {
            self.close_text(Ghost(i));
        } else {
            self.run.close(n);
        }
    }

    /// Take one step; whether the document can be read further.
    fn step(&mut self, xml: &[u8], x: &XmlStep, Ghost(i): Ghost<nat>) -> (r: bool)
        requires
            old(self).bounded(i),
            i < usize::MAX,
        ensures
            (if r {
                Some(final(self)@)
            } else {
                None
            }) == doc_step_s(old(self)@, xml@, x@),
            final(self).bounded(i + 1),
    {
        if let XmlEvent::Error = &x.event {
            return false;
        }
        if let Some(k) = self.skip.take() {
            self.skip = skip_step(k, &x.event);
            return true;
        }
        match &x.event {
            XmlEvent::Start(t) => {
                self.start(t, x.start, Ghost(i));
                true
            },
            XmlEvent::Empty(t) => {
                self.empty(t, Ghost(i));
                true
            },
            XmlEvent::End(n) => {
                self.end(xml, n.as_str(), x.end, Ghost(i));
                true
            },
            XmlEvent::Text(o) => self.text(o, true, Ghost(i)),
            XmlEvent::Ref(o) => self.text(o, false, Ghost(i)),
            _ => true,
        }
    }
}

fn mark_of(ends: &Vec<Mark>, id: u64) -> (r: Option<Mark>)
    ensures
        r == mark_of_s(ends@, id, 0),
{
    let mut i: usize = 0;
    while i < ends.len()
        invariant
            i <= ends@.len(),
            mark_of_s(ends@, id, 0) == mark_of_s(ends@, id, i as int),
        decreases ends@.len() - i,
    {
        if ends[i].id == id {
            return Some(ends[i]);
        }
        i = i + 1;
    }
    None
}

fn comment_anchors(starts: &Vec<Mark>, ends: &Vec<Mark>) -> (r: Vec<CommentAnchor>)
    ensures
        r@ == comment_anchors_s(starts@, ends@, starts@.len()),
{
    let mut out: Vec<CommentAnchor> = Vec::new();
    let mut i: usize = 0;
    while i < starts.len()
        invariant
            i <= starts@.len(),
            out@ == comment_anchors_s(starts@, ends@, i as nat),
        decreases starts@.len() - i,
    {
        let a = starts[i];
        if let Some(e) = mark_of(ends, a.id) {
            out.push(
                CommentAnchor {
                    id: a.id,
                    start_para: a.para,
                    start_off: a.off,
                    end_para: e.para,
                    end_off: e.off,
                },
            );
        }
        i = i + 1;
    }
    out
}

fn bookmark_anchors(starts: &Vec<BookmarkAnchor>, ends: &Vec<Mark>) -> (r: Vec<BookmarkAnchor>)
    ensures
        bookmark_anchor_vs(r@) == bookmark_anchors_s(
            bookmark_anchor_vs(starts@),
            ends@,
            starts@.len(),
        ),
{
    let ghost v = bookmark_anchor_vs(starts@);
    let mut out: Vec<BookmarkAnchor> = Vec::new();
    assert(bookmark_anchor_vs(out@) =~= Seq::empty());
    let mut i: usize = 0;
    while i < starts.len()
        invariant
            i <= starts@.len(),
            v == bookmark_anchor_vs(starts@),
            bookmark_anchor_vs(out@) == bookmark_anchors_s(v, ends@, i as nat),
        decreases starts@.len() - i,
    {
        assert(v[i as int] == starts@[i as int]@);
        let a = &starts[i];
        if let Some(e) = mark_of(ends, a.id) {
            let ghost was = out@;
            let b = BookmarkAnchor {
                id: a.id,
                name: a.name.clone(),
                start_para: a.start_para,
                start_off: a.start_off,
                end_para: e.para,
                end_off: e.off,
            };
            let ghost bv = b@;
            out.push(b);
            assert(bookmark_anchor_vs(out@) =~= bookmark_anchor_vs(was).push(bv));
        }
        i = i + 1;
    }
    out
}

pub open spec fn import_result_s(r: Result<DocumentImport, ModelError>) -> Option<DocumentImportV> {
    match r {
        Ok(x) => Some(x@),
        Err(_) => None,
    }
}

/// What a tokenized document part holds; an error exactly where it is malformed.
pub fn document_of(xml: &[u8], steps: &Vec<XmlStep>) -> (r: Result<DocumentImport, ModelError>)
    ensures
        import_result_s(r) == document_s(xml@, events::xml_step_vs(steps@)),
        r matches Err(e) ==> e == ModelError::Xml,
{
    let ghost v = events::xml_step_vs(steps@);
    let mut s = DocReader::new();
    let mut i: usize = 0;
    while i < steps.len()
        invariant
            i <= steps@.len(),
            v == events::xml_step_vs(steps@),
            doc_run_s(xml@, v, i as int) == Some(s@),
            s.bounded(i as nat),
        decreases steps@.len() - i,
    {
        assert(v[i as int] == steps@[i as int]@);
        let ghost was = s@;
        if !s.step(xml, &steps[i], Ghost(i as nat)) {
            proof {
                assert(doc_run_s(xml@, v, i as int + 1) is None);
                lemma_failed(xml@, v, i as int + 1, v.len() as int);
            }
            return Err(ModelError::Xml);
        }
        i = i + 1;
    }
    if s.skip.is_some() {
        return Err(ModelError::Xml);
    }
    let comments = comment_anchors(&s.marks.comment_starts, &s.marks.comment_ends);
    let bookmarks = bookmark_anchors(&s.marks.bookmark_starts, &s.marks.bookmark_ends);
    Ok(
        DocumentImport {
            items: s.items,
            stats: s.stats,
            anchors: ImportAnchors {
                comments,
                fields: s.marks.fields,
                bookmarks,
                hyperlinks: s.marks.links,
            },
        },
    )
}

/// Read a document part: the body items in order, the counts, and the marked ranges. An error
/// exactly where the markup is malformed, a wanted text does not decode, or a text box is never
/// closed.
pub fn parse_document_xml(xml: &[u8]) -> (r: Result<DocumentImport, ModelError>)
    ensures
        import_result_s(r) == ({
            let body = events::strip_bom_s(xml@);
            document_s(body, events::doc_s(body))
        }),
        r matches Err(e) ==> e == ModelError::Xml,
{
    let body = strip_bom(xml);
    document_of(body, &read_xml(body))
}

} // verus!
