//! A whole paragraph: `w:p` with its runs and every range marker around them.

use std::collections::HashMap;

use vstd::prelude::*;

use crate::drawing;
use crate::drawing::drawing_xml;
use crate::paragraph;
use crate::paragraph::close_revision;
use crate::paragraph::fragment;
use crate::paragraph::open_revision;
use crate::paragraph::ppr_xml;
use crate::paragraph::run_xml;
use crate::paragraph::run_xml_untracked;
use crate::paragraph::Pen;
use crate::search;
use crate::search::has_char;
use crate::spans;
use crate::spans::run_move;
use crate::spans::IdAlloc;
use crate::spans::IdAllocV;
use crate::spans::OptSpanGrid;
use crate::spans::SpanGrid;
use crate::strs;
use crate::types;
use crate::types::track_opt_eq;
use crate::types::ImagePlacement;
use crate::types::Paragraph;
use crate::types::ParagraphV;
use crate::types::Run;
use crate::types::RunV;
use crate::types::Track;
use crate::types::TrackKind;
use crate::types::TrackV;
use crate::types::FIELD_NUMPAGES;
use crate::types::FIELD_PAGE;
use crate::xml;
use crate::xml::esc_piece;
use crate::xml::num;

verus! {

broadcast use vstd::std_specs::hash::group_hash_axioms;

/// The annotation tables and the document-level maps that the writers consult.
pub struct ExportSpans<'a> {
    /// Comments to open before, and to close after, each run.
    pub copens: SpanGrid,
    pub ccloses: SpanGrid,
    /// Fields to open before, and to close after, each run.
    pub fopens: OptSpanGrid,
    pub fcloses: OptSpanGrid,
    /// Bookmarks to open before, and to close after, each run.
    pub bopens: SpanGrid,
    pub bcloses: SpanGrid,
    /// Field instructions by id.
    pub fields: HashMap<u64, String>,
    /// Bookmark names by id.
    pub bookmarks: HashMap<u64, String>,
    /// Hyperlink targets by id: `#anchor`, or an external target.
    pub links: HashMap<u64, String>,
    /// Picture placements by id.
    pub images: &'a HashMap<u64, ImagePlacement>,
    /// Verbatim passthrough XML by id.
    pub raw: HashMap<u64, String>,
}

/// The mathematical value of [`ExportSpans`].
pub struct ExportSpansV {
    pub copens: Seq<Seq<Seq<u64>>>,
    pub ccloses: Seq<Seq<Seq<u64>>>,
    pub fopens: Seq<Seq<Option<u64>>>,
    pub fcloses: Seq<Seq<Option<u64>>>,
    pub bopens: Seq<Seq<Seq<u64>>>,
    pub bcloses: Seq<Seq<Seq<u64>>>,
    pub fields: Map<u64, String>,
    pub bookmarks: Map<u64, String>,
    pub links: Map<u64, String>,
    pub images: Map<u64, ImagePlacement>,
    pub raw: Map<u64, String>,
}

impl<'a> View for ExportSpans<'a> {
    type V = ExportSpansV;

    open spec fn view(&self) -> ExportSpansV {
        ExportSpansV {
            copens: spans::grid_v(self.copens@),
            ccloses: spans::grid_v(self.ccloses@),
            fopens: spans::opt_grid_v(self.fopens@),
            fcloses: spans::opt_grid_v(self.fcloses@),
            bopens: spans::grid_v(self.bopens@),
            bcloses: spans::grid_v(self.bcloses@),
            fields: self.fields@,
            bookmarks: self.bookmarks@,
            links: self.links@,
            images: self.images@,
            raw: self.raw@,
        }
    }
}

/// The ids at run `r` of paragraph `p`; none outside the table.
pub open spec fn ids_at_s(g: Seq<Seq<Seq<u64>>>, p: int, r: int) -> Seq<u64> {
    if 0 <= p < g.len() && 0 <= r < g[p].len() {
        g[p][r]
    } else {
        Seq::empty()
    }
}

/// The id at run `r` of paragraph `p`; none outside the table.
pub open spec fn id_at_s(g: Seq<Seq<Option<u64>>>, p: int, r: int) -> Option<u64> {
    if 0 <= p < g.len() && 0 <= r < g[p].len() {
        g[p][r]
    } else {
        None
    }
}

fn ids_at(g: &SpanGrid, p: usize, r: usize) -> (v: Vec<u64>)
    ensures
        v@ == ids_at_s(spans::grid_v(g@), p as int, r as int),
{
    if p < g.len() && r < g[p].len() {
        types::copy_vec(&g[p][r])
    } else {
        Vec::new()
    }
}

fn id_at(g: &OptSpanGrid, p: usize, r: usize) -> (o: Option<u64>)
    ensures
        o == id_at_s(spans::opt_grid_v(g@), p as int, r as int),
{
    if p < g.len() && r < g[p].len() {
        g[p][r]
    } else {
        None
    }
}

/// The text under `id`; empty when there is none.
pub open spec fn text_of_s(m: Map<u64, String>, id: u64) -> Seq<char> {
    if m.dom().contains(id) {
        m[id]@
    } else {
        Seq::empty()
    }
}

fn text_of(m: &HashMap<u64, String>, id: u64) -> (r: String)
    ensures
        r@ == text_of_s(m@, id),
{
    match m.get(&id) {
        Some(s) => s.clone(),
        None => String::new(),
    }
}

// ── markers ─────────────────────────────────────────────────────────────────

/// One `pre` + id + `post` per id.
pub open spec fn id_list_s(pre: Seq<char>, ids: Seq<u64>, post: Seq<char>, n: nat) -> Seq<char>
    decreases n,
{
    if n == 0 {
        Seq::empty()
    } else {
        id_list_s(pre, ids, post, (n - 1) as nat) + xml::num_s(pre, ids[n - 1] as nat, post)
    }
}

fn id_list(pre: &str, ids: &Vec<u64>, post: &str) -> (r: String)
    ensures
        r@ == id_list_s(pre@, ids@, post@, ids@.len()),
{
    let mut s = String::new();
    let mut i: usize = 0;
    while i < ids.len()
        invariant
            i <= ids@.len(),
            s@ == id_list_s(pre@, ids@, post@, i as nat),
        decreases ids@.len() - i,
    {
        s.append(num(pre, ids[i] as u128, post).as_str());
        i = i + 1;
    }
    s
}

/// The start of a bookmark, with its name.
pub open spec fn bookmark_start_s(id: u64, names: Map<u64, String>) -> Seq<char> {
    xml::num_s("<w:bookmarkStart w:id=\""@, id as nat, "\""@) + xml::esc_piece_s(
        " w:name=\""@,
        text_of_s(names, id),
        "\"/>"@,
    )
}

fn bookmark_start(id: u64, names: &HashMap<u64, String>) -> (r: String)
    ensures
        r@ == bookmark_start_s(id, names@),
{
    let mut s = num("<w:bookmarkStart w:id=\"", id as u128, "\"");
    s.append(esc_piece(" w:name=\"", text_of(names, id).as_str(), "\"/>").as_str());
    s
}

/// The starts of bookmarks, each followed at once by its end when `collapsed`.
pub open spec fn bookmark_starts_s(
    ids: Seq<u64>,
    names: Map<u64, String>,
    collapsed: bool,
    n: nat,
) -> Seq<char>
    decreases n,
{
    if n == 0 {
        Seq::empty()
    } else {
        bookmark_starts_s(ids, names, collapsed, (n - 1) as nat) + bookmark_start_s(ids[n - 1], names)
            + (if collapsed {
            xml::num_s("<w:bookmarkEnd w:id=\""@, ids[n - 1] as nat, "\"/>"@)
        } else {
            Seq::empty()
        })
    }
}

fn bookmark_starts(ids: &Vec<u64>, names: &HashMap<u64, String>, collapsed: bool) -> (r: String)
    ensures
        r@ == bookmark_starts_s(ids@, names@, collapsed, ids@.len()),
{
    let mut s = String::new();
    let mut i: usize = 0;
    while i < ids.len()
        invariant
            i <= ids@.len(),
            s@ == bookmark_starts_s(ids@, names@, collapsed, i as nat),
        decreases ids@.len() - i,
    {
        s.append(bookmark_start(ids[i], names).as_str());
        let end = if collapsed {
            num("<w:bookmarkEnd w:id=\"", ids[i] as u128, "\"/>")
        } else {
            String::new()
        };
        s.append(end.as_str());
        i = i + 1;
    }
    s
}

/// The end of each comment range and its reference run.
pub open spec fn comment_ends_s(ids: Seq<u64>, n: nat) -> Seq<char>
    decreases n,
{
    if n == 0 {
        Seq::empty()
    } else {
        comment_ends_s(ids, (n - 1) as nat) + xml::num_s(
            "<w:commentRangeEnd w:id=\""@,
            ids[n - 1] as nat,
            "\"/>"@,
        ) + xml::num_s("<w:r><w:commentReference w:id=\""@, ids[n - 1] as nat, "\"/></w:r>"@)
    }
}

fn comment_ends(ids: &Vec<u64>) -> (r: String)
    ensures
        r@ == comment_ends_s(ids@, ids@.len()),
{
    let mut s = String::new();
    let mut i: usize = 0;
    while i < ids.len()
        invariant
            i <= ids@.len(),
            s@ == comment_ends_s(ids@, i as nat),
        decreases ids@.len() - i,
    {
        s.append(num("<w:commentRangeEnd w:id=\"", ids[i] as u128, "\"/>").as_str());
        s.append(num("<w:r><w:commentReference w:id=\"", ids[i] as u128, "\"/></w:r>").as_str());
        i = i + 1;
    }
    s
}

/// The markers that open a field: begin, instruction, separate.
pub open spec fn field_begin_s(element: Seq<char>, instr: Seq<char>) -> Seq<char> {
    "<w:r><w:fldChar w:fldCharType=\"begin\"/></w:r><w:r><"@ + element + " xml:space=\"preserve\">"@
        + xml::esc_s(instr) + "</"@ + element
        + "></w:r><w:r><w:fldChar w:fldCharType=\"separate\"/></w:r>"@
}

fn field_begin(element: &str, instr: &str) -> (r: String)
    ensures
        r@ == field_begin_s(element@, instr@),
{
    let mut s = "<w:r><w:fldChar w:fldCharType=\"begin\"/></w:r><w:r><".to_owned();
    s.append(element);
    s.append(" xml:space=\"preserve\">");
    s.append(xml::xml_escape(instr).as_str());
    s.append("</");
    s.append(element);
    s.append("></w:r><w:r><w:fldChar w:fldCharType=\"separate\"/></w:r>");
    s
}

/// The field that opens at a run: its markers, inside the revision of the run if it has one.
pub open spec fn field_open_s(pen: Pen, field: Option<u64>, run: RunV, sp: ExportSpansV) -> Pen {
    match field {
        Some(id) => pen.fragment(
            run.track,
            field_begin_s(
                if paragraph::is_del_s(run) {
                    "w:delInstrText"@
                } else {
                    "w:instrText"@
                },
                text_of_s(sp.fields, id),
            ),
        ),
        None => pen,
    }
}

pub open spec fn field_close_s(pen: Pen, field: Option<u64>, run: RunV) -> Pen {
    match field {
        Some(_) => pen.fragment(run.track, "<w:r><w:fldChar w:fldCharType=\"end\"/></w:r>"@),
        None => pen,
    }
}

fn field_open(out: &mut String, ids: &mut IdAlloc, field: Option<u64>, run: &Run, sp: &ExportSpans)
    requires
        old(ids)@.wf(),
    ensures
        (Pen { text: final(out)@, ids: final(ids)@ }) == field_open_s(
            Pen { text: old(out)@, ids: old(ids)@ },
            field,
            run@,
            sp@,
        ),
        final(ids)@.wf(),
{
    if let Some(id) = field {
        let instr = text_of(&sp.fields, id);
        match &run.track {
            Some(t) => {
                let el = if t.kind.is_del_text() {
                    "w:delInstrText"
                } else {
                    "w:instrText"
                };
                fragment(out, ids, Some(t), field_begin(el, instr.as_str()).as_str());
            },
            None => {
                fragment(out, ids, None, field_begin("w:instrText", instr.as_str()).as_str());
            },
        }
    }
}

fn field_close(out: &mut String, ids: &mut IdAlloc, field: Option<u64>, run: &Run)
    requires
        old(ids)@.wf(),
    ensures
        (Pen { text: final(out)@, ids: final(ids)@ }) == field_close_s(
            Pen { text: old(out)@, ids: old(ids)@ },
            field,
            run@,
        ),
        final(ids)@.wf(),
{
    if field.is_some() {
        match &run.track {
            Some(t) => fragment(out, ids, Some(t), "<w:r><w:fldChar w:fldCharType=\"end\"/></w:r>"),
            None => fragment(out, ids, None, "<w:r><w:fldChar w:fldCharType=\"end\"/></w:r>"),
        }
    }
}

/// The target attribute of a hyperlink: an anchor inside the document, or the relationship
/// `rIdLnk{id}`.
pub open spec fn link_target_s(links: Map<u64, String>, id: u64) -> Seq<char> {
    if !links.dom().contains(id) {
        Seq::empty()
    } else if search::starts_s(links[id]@, "#"@) {
        xml::esc_piece_s(" w:anchor=\""@, links[id]@.skip("#"@.len() as int), "\""@)
    } else {
        xml::num_s(" r:id=\"rIdLnk"@, id as nat, "\""@)
    }
}

fn link_target(links: &HashMap<u64, String>, id: u64) -> (r: String)
    ensures
        r@ == link_target_s(links@, id),
{
    match links.get(&id) {
        Some(t) => match search::strip_prefix(t.as_str(), "#") {
            Some(a) => esc_piece(" w:anchor=\"", a.as_str(), "\""),
            None => num(" r:id=\"rIdLnk", id as u128, "\""),
        },
        None => String::new(),
    }
}

pub open spec fn link_s(runs: Seq<RunV>, i: int) -> Option<u64> {
    if 0 <= i < runs.len() {
        runs[i].link
    } else {
        None
    }
}

/// The start of a hyperlink, at the first of the adjacent runs that share it.
pub open spec fn link_open_s(runs: Seq<RunV>, i: int, links: Map<u64, String>) -> Seq<char> {
    match runs[i].link {
        Some(id) => if link_s(runs, i - 1) == Some(id) {
            Seq::empty()
        } else {
            "<w:hyperlink"@ + link_target_s(links, id) + " w:history=\"1\">"@
        },
        None => Seq::empty(),
    }
}

/// The end of a hyperlink, at the last of the adjacent runs that share it.
pub open spec fn link_close_s(runs: Seq<RunV>, i: int) -> Seq<char> {
    match runs[i].link {
        Some(id) => if link_s(runs, i + 1) == Some(id) {
            Seq::empty()
        } else {
            "</w:hyperlink>"@
        },
        None => Seq::empty(),
    }
}

fn link_open(runs: &Vec<Run>, i: usize, links: &HashMap<u64, String>) -> (r: String)
    requires
        i < runs@.len(),
    ensures
        r@ == link_open_s(types::run_vs(runs@), i as int, links@),
{
    match runs[i].link {
        Some(id) => {
            if i > 0 && runs[i - 1].link == Some(id) {
                String::new()
            } else {
                let mut s = "<w:hyperlink".to_owned();
                s.append(link_target(links, id).as_str());
                s.append(" w:history=\"1\">");
                s
            }
        },
        None => String::new(),
    }
}

fn link_close(runs: &Vec<Run>, i: usize) -> (r: String)
    requires
        i < runs@.len(),
    ensures
        r@ == link_close_s(types::run_vs(runs@), i as int),
{
    match runs[i].link {
        Some(id) => {
            if i < runs.len() - 1 && runs[i + 1].link == Some(id) {
                String::new()
            } else {
                "</w:hyperlink>".to_owned()
            }
        },
        None => String::new(),
    }
}

// ── move ranges ─────────────────────────────────────────────────────────────

/// Whether run `i` carries the same half of the same move as `t`.
pub open spec fn same_move_s(runs: Seq<RunV>, i: int, t: TrackV) -> bool {
    0 <= i < runs.len() && match spans::run_move_s(runs[i]) {
        Some(m) => m.id == t.id && m.kind == t.kind,
        None => false,
    }
}

fn same_move(run: &Run, t: &Track) -> (r: bool)
    ensures
        r == match spans::run_move_s(run@) {
            Some(m) => m.id == t@.id && m.kind == t@.kind,
            None => false,
        },
{
    match run_move(run) {
        Some(m) => m.id == t.id && m.kind == t.kind,
        None => false,
    }
}

/// A pen, and the id of the move range that is open.
pub struct MovePen {
    pub pen: Pen,
    pub mark: Option<u128>,
}

/// The start of a move range, at the first of the adjacent runs of one move half. The range
/// has an id of its own; the halves pair by name.
pub open spec fn move_open_s(m: MovePen, runs: Seq<RunV>, i: int) -> MovePen {
    match spans::run_move_s(runs[i]) {
        Some(t) => if same_move_s(runs, i - 1, t) {
            m
        } else {
            let (id, ids) = m.pen.ids.fresh();
            MovePen {
                pen: Pen { text: m.pen.text, ids }.put(
                    (if t.kind == TrackKind::MoveFrom {
                        "<w:moveFromRangeStart"@
                    } else {
                        "<w:moveToRangeStart"@
                    }) + xml::num_s(" w:id=\""@, id as nat, "\""@) + xml::num_s(
                        " w:name=\"mv"@,
                        t.id as nat,
                        "\""@,
                    ) + xml::esc_piece_s(" w:author=\""@, t.author, "\""@) + xml::date_attr_s(t.date)
                        + "/>"@,
                ),
                mark: Some(id),
            }
        },
        None => m,
    }
}

/// The end of a move range, at the last of the adjacent runs of one move half.
pub open spec fn move_close_s(m: MovePen, runs: Seq<RunV>, i: int) -> MovePen {
    match spans::run_move_s(runs[i]) {
        Some(t) => if same_move_s(runs, i + 1, t) {
            m
        } else {
            let id = match m.mark {
                Some(id) => id,
                None => t.id as u128,
            };
            MovePen {
                pen: m.pen.put(
                    (if t.kind == TrackKind::MoveFrom {
                        "<w:moveFromRangeEnd"@
                    } else {
                        "<w:moveToRangeEnd"@
                    }) + xml::num_s(" w:id=\""@, id as nat, "\"/>"@),
                ),
                mark: None,
            }
        },
        None => m,
    }
}

fn move_open(
    out: &mut String,
    ids: &mut IdAlloc,
    mark: Option<u128>,
    runs: &Vec<Run>,
    i: usize,
) -> (r: Option<u128>)
    requires
        old(ids)@.wf(),
        i < runs@.len(),
    ensures
        (MovePen { pen: Pen { text: final(out)@, ids: final(ids)@ }, mark: r }) == move_open_s(
            MovePen { pen: Pen { text: old(out)@, ids: old(ids)@ }, mark },
            types::run_vs(runs@),
            i as int,
        ),
        final(ids)@.wf(),
{
    match run_move(&runs[i]) {
        Some(t) => {
            if i > 0 && same_move(&runs[i - 1], t) {
                return mark;
            }
            let id: u128 = ids.fresh();
            let mut s = if t.kind == TrackKind::MoveFrom {
                "<w:moveFromRangeStart".to_owned()
            } else {
                "<w:moveToRangeStart".to_owned()
            };
            s.append(num(" w:id=\"", id, "\"").as_str());
            s.append(num(" w:name=\"mv", t.id as u128, "\"").as_str());
            s.append(esc_piece(" w:author=\"", t.author.as_str(), "\"").as_str());
            s.append(xml::date_attr(t.date.as_str()).as_str());
            s.append("/>");
            out.append(s.as_str());
            Some(id)
        },
        None => mark,
    }
}

fn move_close(out: &mut String, mark: Option<u128>, runs: &Vec<Run>, i: usize) -> (r: Option<u128>)
    requires
        i < runs@.len(),
    ensures
        forall|ids: IdAllocV|
            (MovePen { pen: Pen { text: final(out)@, ids }, mark: r }) == #[trigger] move_close_s(
                MovePen { pen: Pen { text: old(out)@, ids }, mark },
                types::run_vs(runs@),
                i as int,
            ),
{
    match run_move(&runs[i]) {
        Some(t) => {
            if i < runs.len() - 1 && same_move(&runs[i + 1], t) {
                return mark;
            }
            let id: u128 = match mark {
                Some(id) => id,
                None => t.id as u128,
            };
            let mut s = if t.kind == TrackKind::MoveFrom {
                "<w:moveFromRangeEnd".to_owned()
            } else {
                "<w:moveToRangeEnd".to_owned()
            };
            s.append(num(" w:id=\"", id, "\"/>").as_str());
            out.append(s.as_str());
            None
        },
        None => mark,
    }
}

// ── the run itself ──────────────────────────────────────────────────────────

/// A run of text alone: no passthrough, no picture, no field placeholder.
pub open spec fn plain_run_s(r: RunV) -> bool {
    r.raw is None && r.image is None && !paragraph::has_field_s(r.text)
}

fn plain_run(r: &Run) -> (b: bool)
    ensures
        b == plain_run_s(r@),
{
    r.raw.is_none() && r.image.is_none() && !has_char(r.text.as_str(), FIELD_PAGE) && !has_char(
        r.text.as_str(),
        FIELD_NUMPAGES,
    )
}

/// Whether no range marker stands between run `i` and the next.
pub open spec fn no_marks_between_s(sp: ExportSpansV, p: int, i: int) -> bool {
    id_at_s(sp.fcloses, p, i) is None && ids_at_s(sp.bcloses, p, i).len() == 0 && ids_at_s(
        sp.ccloses,
        p,
        i,
    ).len() == 0 && id_at_s(sp.fopens, p, i + 1) is None && ids_at_s(sp.bopens, p, i + 1).len() == 0
        && ids_at_s(sp.copens, p, i + 1).len() == 0
}

/// Whether run `i` and the next share one revision element: the same change, the same link,
/// plain text on both sides, and no marker between them.
pub open spec fn grouped_s(runs: Seq<RunV>, sp: ExportSpansV, p: int, i: int) -> bool {
    0 <= i && i + 1 < runs.len() && runs[i].track is Some && runs[i].track == runs[i + 1].track
        && runs[i].link == runs[i + 1].link && plain_run_s(runs[i]) && plain_run_s(runs[i + 1])
        && no_marks_between_s(sp, p, i)
}

fn grouped(runs: &Vec<Run>, sp: &ExportSpans, p: usize, i: usize) -> (b: bool)
    requires
        i < runs@.len(),
    ensures
        b == grouped_s(types::run_vs(runs@), sp@, p as int, i as int),
{
    if i >= runs.len() - 1 {
        return false;
    }
    let a = &runs[i];
    let c = &runs[i + 1];
    assert(types::run_vs(runs@)[i as int] == a@);
    assert(types::run_vs(runs@)[i + 1] == c@);
    a.track.is_some() && track_opt_eq(&a.track, &c.track) && a.link == c.link && plain_run(a)
        && plain_run(c) && id_at(&sp.fcloses, p, i).is_none() && ids_at(&sp.bcloses, p, i).len() == 0
        && ids_at(&sp.ccloses, p, i).len() == 0 && id_at(&sp.fopens, p, i + 1).is_none() && ids_at(
        &sp.bopens,
        p,
        i + 1,
    ).len() == 0 && ids_at(&sp.copens, p, i + 1).len() == 0
}

/// What stands for the run between its markers: the passthrough XML, the drawing, or the
/// text, with adjacent plain runs of one revision inside one element.
pub open spec fn body_s(pen: Pen, runs: Seq<RunV>, i: int, sp: ExportSpansV, p: int) -> Pen {
    let run = runs[i];
    match run.raw {
        Some(id) => if sp.raw.dom().contains(id) {
            pen.fragment(run.track, sp.raw[id]@)
        } else {
            pen
        },
        None => match run.image {
            Some(id) => if sp.images.dom().contains(id) {
                pen.fragment(run.track, drawing::drawing_s(id, sp.images[id]@))
            } else {
                pen
            },
            None => match run.track {
                Some(t) if plain_run_s(run) => {
                    let a = if grouped_s(runs, sp, p, i - 1) {
                        pen
                    } else {
                        pen.open_revision(t)
                    };
                    let b = paragraph::run_inner_s(a, run, None);
                    if grouped_s(runs, sp, p, i) {
                        b
                    } else {
                        b.close_revision(t)
                    }
                },
                _ => paragraph::run_s(pen, run),
            },
        },
    }
}

fn body(out: &mut String, ids: &mut IdAlloc, runs: &Vec<Run>, i: usize, sp: &ExportSpans, p: usize)
    requires
        old(ids)@.wf(),
        i < runs@.len(),
    ensures
        (Pen { text: final(out)@, ids: final(ids)@ }) == body_s(
            Pen { text: old(out)@, ids: old(ids)@ },
            types::run_vs(runs@),
            i as int,
            sp@,
            p as int,
        ),
        final(ids)@.wf(),
{
    let run = &runs[i];
    assert(types::run_vs(runs@)[i as int] == run@);
    match run.raw {
        Some(id) => {
            match sp.raw.get(&id) {
                Some(x) => match &run.track {
                    Some(t) => fragment(out, ids, Some(t), x.as_str()),
                    None => fragment(out, ids, None, x.as_str()),
                },
                None => {},
            }
        },
        None => match run.image {
            Some(id) => {
                match sp.images.get(&id) {
                    Some(x) => match &run.track {
                        Some(t) => fragment(out, ids, Some(t), drawing_xml(id, x).as_str()),
                        None => fragment(out, ids, None, drawing_xml(id, x).as_str()),
                    },
                    None => {},
                }
            },
            None => {
                if plain_run(run) {
                    match &run.track {
                        Some(t) => {
                            let joined = i > 0 && grouped(runs, sp, p, i - 1);
                            if !joined {
                                open_revision(out, ids, t);
                            }
                            run_xml_untracked(out, ids, run);
                            if !grouped(runs, sp, p, i) {
                                let ghost q = (Pen { text: out@, ids: ids@ }).close_revision(t@);
                                close_revision(out, t);
                            }
                        },
                        None => run_xml(out, ids, run),
                    }
                } else {
                    run_xml(out, ids, run);
                }
            },
        },
    }
}

/// One run with everything that opens before it and closes after it.
pub open spec fn run_step_s(m: MovePen, runs: Seq<RunV>, i: int, sp: ExportSpansV, p: int) -> MovePen {
    let run = runs[i];
    let a = field_open_s(m.pen, id_at_s(sp.fopens, p, i), run, sp).put(
        link_open_s(runs, i, sp.links),
    ).put(
        id_list_s(
            "<w:commentRangeStart w:id=\""@,
            ids_at_s(sp.copens, p, i),
            "\"/>"@,
            ids_at_s(sp.copens, p, i).len(),
        ),
    ).put(
        bookmark_starts_s(run.point_bookmarks, sp.bookmarks, true, run.point_bookmarks.len()),
    ).put(
        bookmark_starts_s(
            ids_at_s(sp.bopens, p, i),
            sp.bookmarks,
            false,
            ids_at_s(sp.bopens, p, i).len(),
        ),
    );
    let b = move_open_s(MovePen { pen: a, mark: m.mark }, runs, i);
    let c = move_close_s(MovePen { pen: body_s(b.pen, runs, i, sp, p), mark: b.mark }, runs, i);
    let d = c.pen.put(
        id_list_s(
            "<w:bookmarkEnd w:id=\""@,
            ids_at_s(sp.bcloses, p, i),
            "\"/>"@,
            ids_at_s(sp.bcloses, p, i).len(),
        ),
    ).put(
        bookmark_starts_s(
            run.end_point_bookmarks,
            sp.bookmarks,
            true,
            run.end_point_bookmarks.len(),
        ),
    ).put(comment_ends_s(ids_at_s(sp.ccloses, p, i), ids_at_s(sp.ccloses, p, i).len())).put(
        link_close_s(runs, i),
    );
    MovePen { pen: field_close_s(d, id_at_s(sp.fcloses, p, i), run), mark: c.mark }
}

fn run_step(
    out: &mut String,
    ids: &mut IdAlloc,
    mark: Option<u128>,
    runs: &Vec<Run>,
    i: usize,
    sp: &ExportSpans,
    p: usize,
) -> (r: Option<u128>)
    requires
        old(ids)@.wf(),
        i < runs@.len(),
    ensures
        (MovePen { pen: Pen { text: final(out)@, ids: final(ids)@ }, mark: r }) == run_step_s(
            MovePen { pen: Pen { text: old(out)@, ids: old(ids)@ }, mark },
            types::run_vs(runs@),
            i as int,
            sp@,
            p as int,
        ),
        final(ids)@.wf(),
{
    let run = &runs[i];
    assert(types::run_vs(runs@)[i as int] == run@);
    field_open(out, ids, id_at(&sp.fopens, p, i), run, sp);
    out.append(link_open(runs, i, &sp.links).as_str());
    out.append(
        id_list("<w:commentRangeStart w:id=\"", &ids_at(&sp.copens, p, i), "\"/>").as_str(),
    );
    out.append(bookmark_starts(&run.point_bookmarks, &sp.bookmarks, true).as_str());
    out.append(bookmark_starts(&ids_at(&sp.bopens, p, i), &sp.bookmarks, false).as_str());
    let m1: Option<u128> = move_open(out, ids, mark, runs, i);
    body(out, ids, runs, i, sp, p);
    let ghost q = move_close_s(
        MovePen { pen: Pen { text: out@, ids: ids@ }, mark: m1 },
        types::run_vs(runs@),
        i as int,
    );
    let m2: Option<u128> = move_close(out, m1, runs, i);
    out.append(id_list("<w:bookmarkEnd w:id=\"", &ids_at(&sp.bcloses, p, i), "\"/>").as_str());
    out.append(bookmark_starts(&run.end_point_bookmarks, &sp.bookmarks, true).as_str());
    out.append(comment_ends(&ids_at(&sp.ccloses, p, i)).as_str());
    out.append(link_close(runs, i).as_str());
    field_close(out, ids, id_at(&sp.fcloses, p, i), run);
    m2
}

/// The first `n` runs of a paragraph.
pub open spec fn runs_s(m: MovePen, runs: Seq<RunV>, sp: ExportSpansV, p: int, n: nat) -> MovePen
    decreases n,
{
    if n == 0 {
        m
    } else {
        run_step_s(runs_s(m, runs, sp, p, (n - 1) as nat), runs, n - 1, sp, p)
    }
}

/// A paragraph: properties, runs, and the trailing page or column break. `p` is its position
/// in the annotation tables.
#[verifier::opaque]
pub open spec fn para_s(pen: Pen, para: ParagraphV, p: int, sp: ExportSpansV) -> Pen {
    runs_s(
        MovePen { pen: pen.put("<w:p>"@).put(paragraph::ppr_s(para)), mark: None },
        para.runs,
        sp,
        p,
        para.runs.len(),
    ).pen.put(
        strs::when_s(
            para.props.page_break_after && para.props.sect_pr is None,
            "<w:r><w:br w:type=\"page\"/></w:r>"@,
        ),
    ).put(
        strs::when_s(para.props.column_break_after, "<w:r><w:br w:type=\"column\"/></w:r>"@),
    ).put("</w:p>"@)
}

/// Serialize one paragraph onto `out`.
pub(crate) fn para_xml(out: &mut String, ids: &mut IdAlloc, para: &Paragraph, p: usize, sp: &ExportSpans)
    requires
        old(ids)@.wf(),
    ensures
        (Pen { text: final(out)@, ids: final(ids)@ }) == para_s(
            Pen { text: old(out)@, ids: old(ids)@ },
            para@,
            p as int,
            sp@,
        ),
        final(ids)@.wf(),
{
    reveal(para_s);
    out.append("<w:p>");
    out.append(ppr_xml(para).as_str());
    let ghost start = MovePen { pen: Pen { text: out@, ids: ids@ }, mark: None };
    let mut mark: Option<u128> = None;
    let mut i: usize = 0;
    while i < para.runs.len()
        invariant
            i <= para.runs@.len(),
            ids@.wf(),
            (MovePen { pen: Pen { text: out@, ids: ids@ }, mark }) == runs_s(
                start,
                para@.runs,
                sp@,
                p as int,
                i as nat,
            ),
        decreases para.runs@.len() - i,
    {
        mark = run_step(out, ids, mark, &para.runs, i, sp, p);
        i = i + 1;
    }
    out.append(
        strs::only_if(
            para.props.page_break_after && para.props.sect_pr.is_none(),
            "<w:r><w:br w:type=\"page\"/></w:r>",
        ).as_str(),
    );
    out.append(
        strs::only_if(
            para.props.column_break_after,
            "<w:r><w:br w:type=\"column\"/></w:r>",
        ).as_str(),
    );
    out.append("</w:p>");
}

} // verus!
