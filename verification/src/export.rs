//! The document part: the body walked block by block, and the section that closes it.

use std::collections::HashMap;
use vstd::prelude::*;
use crate::containers;
use crate::containers::{
    block_wrap_ids, block_wrap_suffix, read_block_wraps, read_bookmarks, read_fields,
    read_hyperlinks, read_images, read_raw,
};
use crate::doc;
use crate::doc::{DocV, TextDoc};
use crate::error::ModelError;
use crate::events;
use crate::grid;
use crate::grid::{grid_to_table, table_cell_paras};
use crate::headers;
use crate::headers::{merge_sectpr_xml, sectpr_xml, WORD_NS_ATTRS};
use crate::host;
use crate::host::open_table_grid;
use crate::para;
use crate::para::{para_xml, ExportSpans, ExportSpansV};
use crate::paragraph::Pen;
use crate::props;
use crate::read;
use crate::read::{body_nodes, read_paragraphs, BodyNode};
use crate::runs;
use crate::search;
use crate::sections;
use crate::sections::{parse_section_props, HfRef, HfRefV, PageGeometry};
use crate::spans;
use crate::spans::{bookmark_spans, comment_spans, field_spans, IdAlloc, IdAllocV};
use crate::store;
use crate::store::{BlockId, Scalar, ScalarV};
use crate::strs;
use crate::tables;
use crate::tables::{export_table_grid_anchored, tbl_xml, Walk};
use crate::types;
use crate::types::{BodyItem, BodyItemV, ImagePlacement, Paragraph, ParagraphV, Table};

verus! {

broadcast use {vstd::string::group_string_axioms, vstd::std_specs::hash::group_hash_axioms};

/// What a document part begins with, up to the namespace declarations.
pub const DOC_OPEN: &'static str =
    "<?xml version=\"1.0\" encoding=\"UTF-8\" standalone=\"yes\"?>\r\n<w:document ";

/// What a document part ends with.
pub const DOC_TAIL: &'static str = "</w:body></w:document>";

/// What a document part begins with.
pub open spec fn doc_head_s() -> Seq<char> {
    DOC_OPEN@ + WORD_NS_ATTRS@ + "><w:body>"@
}

fn doc_head() -> (r: String)
    ensures
        r@ == doc_head_s(),
{
    let mut s = DOC_OPEN.to_string();
    s.append(WORD_NS_ATTRS);
    s.append("><w:body>");
    s
}

// ---------------------------------------------------------------- what the writers consult

/// Whether `sp` holds the annotation tables of the document's paragraphs and its maps.
pub open spec fn sources_s(d: DocV, sp: ExportSpansV) -> bool {
    let ps = read::paragraphs_s(d);
    &&& sp.copens == spans::comment_opens_s(ps)
    &&& sp.ccloses == spans::comment_closes_s(ps)
    &&& sp.fopens == spans::field_opens_s(ps)
    &&& sp.fcloses == spans::field_closes_s(ps)
    &&& sp.bopens == spans::bookmark_opens_s(ps)
    &&& sp.bcloses == spans::bookmark_closes_s(ps)
    &&& containers::texts_by_id_s(d.s.maps[store::FIELDS@], sp.fields)
    &&& containers::texts_by_id_s(d.s.maps[store::BOOKMARKS@], sp.bookmarks)
    &&& containers::texts_by_id_s(d.s.maps[store::HYPERLINKS@], sp.links)
    &&& containers::images_s(d, sp.images)
    &&& containers::texts_by_id_s(d.s.maps[store::RAWXML@], sp.raw)
}

fn sources<'a>(doc: &TextDoc, paras: &Vec<Paragraph>, images: &'a HashMap<u64, ImagePlacement>) -> (r:
    ExportSpans<'a>)
    requires
        types::paragraph_vs(paras@) == read::paragraphs_s(doc@),
        containers::images_s(doc@, images@),
    ensures
        sources_s(doc@, r@),
{
    let (copens, ccloses) = comment_spans(paras);
    let (fopens, fcloses) = field_spans(paras);
    let (bopens, bcloses) = bookmark_spans(paras);
    ExportSpans {
        copens,
        ccloses,
        fopens,
        fcloses,
        bopens,
        bcloses,
        fields: read_fields(doc),
        bookmarks: read_bookmarks(doc),
        links: read_hyperlinks(doc),
        images,
        raw: read_raw(doc),
    }
}

// ---------------------------------------------------------------- the last section

/// The stored last section.
pub open spec fn final_sect_s(d: DocV) -> Option<Seq<char>> {
    runs::text_prop_s(d.s.maps[store::SECTPR@], "final"@)
}

fn read_final_sect(doc: &TextDoc) -> (r: Option<String>)
    ensures
        strs::opt_s(r) == final_sect_s(doc@),
{
    let v = doc.entries(store::SECTPR);
    runs::text_prop(&v, "final")
}

/// Whether a paragraph carries a section.
pub open spec fn multi_section_s(ps: Seq<ParagraphV>) -> bool {
    exists|i: int| 0 <= i < ps.len() && (#[trigger] ps[i]).props.sect_pr is Some
}

fn multi_section(paras: &Vec<Paragraph>) -> (r: bool)
    ensures
        r == multi_section_s(types::paragraph_vs(paras@)),
{
    let ghost v = types::paragraph_vs(paras@);
    let mut i: usize = 0;
    while i < paras.len()
        invariant
            i <= paras@.len(),
            v == types::paragraph_vs(paras@),
            forall|j: int| 0 <= j < i ==> (#[trigger] v[j]).props.sect_pr is None,
        decreases paras@.len() - i,
    {
        assert(v[i as int] == paras@[i as int]@);
        if paras[i].props.sect_pr.is_some() {
            return true;
        }
        i = i + 1;
    }
    false
}

/// The section that closes the body. Where other sections stand before it, the stored one is
/// kept as it was; alone, it is brought up to the page and the header and footer references;
/// where none is stored, one is made of these.
pub open spec fn closing_s(
    sect: Option<Seq<char>>,
    multi: bool,
    page: PageGeometry,
    hf: Seq<HfRefV>,
    title_pg: bool,
) -> Seq<char> {
    match sect {
        Some(s) => if multi {
            s
        } else {
            headers::merge_sectpr_s(s, page, hf, title_pg)
        },
        None => headers::sectpr_s(page, hf, title_pg),
    }
}

fn final_sectpr(
    sect: &Option<String>,
    multi: bool,
    page: &PageGeometry,
    hf: &Vec<HfRef>,
    title_pg: bool,
) -> (r: String)
    ensures
        r@ == closing_s(
            strs::opt_s(*sect),
            multi,
            *page,
            sections::hf_ref_vs(hf@),
            title_pg,
        ),
{
    match sect {
        Some(s) => if multi {
            s.clone()
        } else {
            merge_sectpr_xml(s.as_str(), page, hf, title_pg)
        },
        None => sectpr_xml(page, hf, title_pg),
    }
}

// ---------------------------------------------------------------- by body items

/// One item written. Past the last paragraph a paragraph item writes nothing.
#[verifier::opaque]
pub open spec fn item_s(w: Walk, item: BodyItemV, ps: Seq<ParagraphV>, sp: ExportSpansV) -> Walk {
    match item {
        BodyItemV::Paragraph => if w.pos < ps.len() {
            Walk { pen: para::para_s(w.pen, ps[w.pos], w.pos, sp), pos: w.pos + 1 }
        } else {
            w
        },
        BodyItemV::Table(t) => tables::tbl_s(w, t, ps, 0, sp),
    }
}

/// The first `n` items written.
pub open spec fn items_s(
    w: Walk,
    body: Seq<BodyItemV>,
    ps: Seq<ParagraphV>,
    sp: ExportSpansV,
    n: nat,
) -> Walk
    decreases n,
{
    if n == 0 {
        w
    } else {
        item_s(items_s(w, body, ps, sp, (n - 1) as nat), body[n - 1], ps, sp)
    }
}

/// The start of a document part.
pub open spec fn start_s() -> Pen {
    Pen { text: doc_head_s(), ids: IdAllocV::initial() }
}

/// The body of a document part: the items in order, or the paragraphs alone where there are none.
pub open spec fn body_s(ps: Seq<ParagraphV>, body: Seq<BodyItemV>, sp: ExportSpansV) -> Seq<char> {
    if body.len() == 0 {
        headers::paras_s(start_s(), ps, sp, ps.len()).text
    } else {
        items_s(Walk { pen: start_s(), pos: 0 }, body, ps, sp, body.len()).pen.text
    }
}

/// Whether `out` is the document part for these body items.
pub open spec fn document_xml_s(
    d: DocV,
    page: PageGeometry,
    hf: Seq<HfRefV>,
    body: Seq<BodyItemV>,
    title_pg: bool,
    sp: ExportSpansV,
    out: Seq<char>,
) -> bool {
    let ps = read::paragraphs_s(d);
    &&& sources_s(d, sp)
    &&& out == body_s(ps, body, sp) + closing_s(
        final_sect_s(d),
        multi_section_s(ps),
        page,
        hf,
        title_pg,
    ) + DOC_TAIL@
}

/// Whether `out` is the document part for these body items, whatever entry stands for an id that
/// is spelled more than once.
pub open spec fn is_document_s(
    d: DocV,
    page: PageGeometry,
    hf: Seq<HfRefV>,
    body: Seq<BodyItemV>,
    title_pg: bool,
    out: Seq<char>,
) -> bool {
    exists|sp: ExportSpansV| #[trigger] document_xml_s(d, page, hf, body, title_pg, sp, out)
}

fn write_item(
    out: &mut String,
    ids: &mut IdAlloc,
    item: &BodyItem,
    cursor: &mut usize,
    paras: &Vec<Paragraph>,
    sp: &ExportSpans,
)
    requires
        old(ids)@.wf(),
        *old(cursor) <= paras@.len(),
    ensures
        final(ids)@.wf(),
        *final(cursor) <= paras@.len(),
        (Walk { pen: Pen { text: final(out)@, ids: final(ids)@ }, pos: *final(cursor) as int })
            == item_s(
            Walk { pen: Pen { text: old(out)@, ids: old(ids)@ }, pos: *old(cursor) as int },
            item@,
            types::paragraph_vs(paras@),
            sp@,
        ),
{
    let ghost ps = types::paragraph_vs(paras@);
    let count = paras.len();
    proof {
        reveal(item_s);
    }
    match item {
        BodyItem::Paragraph => {
            if *cursor < paras.len() {
                assert(ps[*cursor as int] == paras@[*cursor as int]@);
                para_xml(out, ids, &paras[*cursor], *cursor, sp);
                *cursor = *cursor + 1;
            }
        },
        BodyItem::Table(t) => {
            tbl_xml(out, ids, t, paras, cursor, 0, sp);
        },
    }
}

fn write_items(
    out: &mut String,
    ids: &mut IdAlloc,
    body: &Vec<BodyItem>,
    paras: &Vec<Paragraph>,
    sp: &ExportSpans,
)
    requires
        old(ids)@.wf(),
    ensures
        final(out)@ == items_s(
            Walk { pen: Pen { text: old(out)@, ids: old(ids)@ }, pos: 0 },
            types::body_item_vs(body@),
            types::paragraph_vs(paras@),
            sp@,
            body@.len(),
        ).pen.text,
{
    let ghost ps = types::paragraph_vs(paras@);
    let ghost b = types::body_item_vs(body@);
    let ghost w = Walk { pen: Pen { text: out@, ids: ids@ }, pos: 0 };
    let mut cursor: usize = 0;
    let mut i: usize = 0;
    while i < body.len()
        invariant
            i <= body@.len(),
            b == types::body_item_vs(body@),
            ps == types::paragraph_vs(paras@),
            ids@.wf(),
            cursor <= paras@.len(),
            (Walk { pen: Pen { text: out@, ids: ids@ }, pos: cursor as int }) == items_s(
                w,
                b,
                ps,
                sp@,
                i as nat,
            ),
        decreases body@.len() - i,
    {
        assert(b[i as int] == body@[i as int]@);
        write_item(out, ids, &body[i], &mut cursor, paras, sp);
        i = i + 1;
    }
}

/// Write the document part for these body items; without any, the paragraphs alone.
pub fn export_document_xml(
    doc: &TextDoc,
    page: &PageGeometry,
    hf: &Vec<HfRef>,
    body: &Vec<BodyItem>,
    title_pg: bool,
) -> (r: Result<String, ModelError>)
    ensures
        r matches Ok(x) && is_document_s(
            doc@,
            *page,
            sections::hf_ref_vs(hf@),
            types::body_item_vs(body@),
            title_pg,
            x@,
        ),
{
    let paras = match read_paragraphs(doc) {
        Ok(v) => v,
        Err(e) => {
            return Err(e);
        },
    };
    let images = read_images(doc);
    let sp = sources(doc, &paras, &images);
    let mut out = doc_head();
    let mut ids = IdAlloc::new();
    assert(types::paragraph_vs(paras@).len() == paras@.len());
    if body.len() == 0 {
        headers::paras_xml(&mut out, &mut ids, &paras, &sp);
    } else {
        write_items(&mut out, &mut ids, body, &paras, &sp);
    }
    let close = final_sectpr(&read_final_sect(doc), multi_section(&paras), page, hf, title_pg);
    out.append(close.as_str());
    out.append(DOC_TAIL);
    proof {
        assert(document_xml_s(
            doc@,
            *page,
            sections::hf_ref_vs(hf@),
            types::body_item_vs(body@),
            title_pg,
            sp@,
            out@,
        ));
    }
    Ok(out)
}

// ---------------------------------------------------------------- by nodes

/// The openings of the first `n` wrappers.
pub open spec fn opens_s(ids: Seq<u64>, wraps: Map<u64, String>, n: nat) -> Seq<char>
    decreases n,
{
    if n == 0 {
        Seq::empty()
    } else {
        let r = opens_s(ids, wraps, (n - 1) as nat);
        if wraps.contains_key(ids[n - 1]) {
            r + wraps[ids[n - 1]]@
        } else {
            r
        }
    }
}

/// The closings of the first `n` wrappers.
pub open spec fn closes_s(ids: Seq<u64>, wraps: Map<u64, String>, n: nat) -> Seq<char>
    decreases n,
{
    if n == 0 {
        Seq::empty()
    } else {
        let r = closes_s(ids, wraps, (n - 1) as nat);
        if wraps.contains_key(ids[n - 1]) {
            r + containers::block_wrap_suffix_s(wraps[ids[n - 1]]@)
        } else {
            r
        }
    }
}

/// The wrappers listed under `key` at a node.
pub open spec fn wrap_ids_s(d: DocV, id: BlockId, key: Seq<char>) -> Seq<u64> {
    containers::text_ids_s(runs::text_prop_s(d.s.metas[id], key))
}

/// How many paragraphs the cells of a node's grid hold.
pub open spec fn cell_count_s(d: DocV, id: BlockId) -> int {
    let g = host::open_grid_s(d, id);
    grid::cell_paras_s(g.rows, g.rows.len()).len() as int
}

/// A paragraph or a grid written, between the wrappers that open and close at its node.
#[verifier::opaque]
pub open spec fn node_s(w: Walk, d: DocV, node: BodyNode, wraps: Map<u64, String>, sp: ExportSpansV) -> Walk {
    let ps = read::paragraphs_s(d);
    let id = containers::node_id_s(node);
    let opens = wrap_ids_s(d, id, "wrapopen"@);
    let closes = wrap_ids_s(d, id, "wrapclose"@);
    let pen = Pen { text: w.pen.text + opens_s(opens, wraps, opens.len()), ids: w.pen.ids };
    let end = closes_s(closes, wraps, closes.len());
    match node {
        BodyNode::Paragraph(_) => {
            let pen = if w.pos < ps.len() {
                para::para_s(pen, ps[w.pos], w.pos, sp)
            } else {
                pen
            };
            Walk { pen: Pen { text: pen.text + end, ids: pen.ids }, pos: w.pos + 1 }
        },
        BodyNode::Table(_) => {
            let pen = tables::grid_s(pen, host::open_grid_s(d, id), w.pos, sp);
            Walk {
                pen: Pen { text: pen.text + end, ids: pen.ids },
                pos: w.pos + cell_count_s(d, id),
            }
        },
    }
}

/// The first `n` nodes written.
pub open spec fn nodes_s(w: Walk, d: DocV, wraps: Map<u64, String>, sp: ExportSpansV, n: nat) -> Walk
    decreases n,
{
    if n == 0 {
        w
    } else {
        node_s(
            nodes_s(w, d, wraps, sp, (n - 1) as nat),
            d,
            read::body_nodes_s(d)[n - 1],
            wraps,
            sp,
        )
    }
}

/// All nodes written.
pub open spec fn all_nodes_s(d: DocV, wraps: Map<u64, String>, sp: ExportSpansV) -> Walk {
    nodes_s(Walk { pen: start_s(), pos: 0 }, d, wraps, sp, d.s.roots.len())
}

/// Whether `out` is the document part of the document's own nodes.
pub open spec fn nodes_xml_s(
    d: DocV,
    page: PageGeometry,
    hf: Seq<HfRefV>,
    title_pg: bool,
    wraps: Map<u64, String>,
    sp: ExportSpansV,
    out: Seq<char>,
) -> bool {
    &&& sources_s(d, sp)
    &&& containers::texts_by_id_s(d.s.maps[store::BLOCKWRAP@], wraps)
    &&& out == all_nodes_s(d, wraps, sp).pen.text + closing_s(
        final_sect_s(d),
        multi_section_s(read::paragraphs_s(d)),
        page,
        hf,
        title_pg,
    ) + DOC_TAIL@
}

/// Whether `out` is the document part of the document's own nodes, whatever entry stands for an
/// id that is spelled more than once.
pub open spec fn is_node_document_s(
    d: DocV,
    page: PageGeometry,
    hf: Seq<HfRefV>,
    title_pg: bool,
    out: Seq<char>,
) -> bool {
    exists|wraps: Map<u64, String>, sp: ExportSpansV| #[trigger]
        nodes_xml_s(d, page, hf, title_pg, wraps, sp, out)
}

fn write_opens(out: &mut String, ids: &Vec<u64>, wraps: &HashMap<u64, String>)
    ensures
        final(out)@ == old(out)@ + opens_s(ids@, wraps@, ids@.len()),
{
    let ghost was = out@;
    assert(was + opens_s(ids@, wraps@, 0) =~= was);
    let mut i: usize = 0;
    while i < ids.len()
        invariant
            i <= ids@.len(),
            out@ == was + opens_s(ids@, wraps@, i as nat),
        decreases ids@.len() - i,
    {
        if let Some(p) = wraps.get(&ids[i]) {
            out.append(p.as_str());
            assert(out@ =~= was + opens_s(ids@, wraps@, (i + 1) as nat));
        }
        i = i + 1;
    }
}

fn write_closes(out: &mut String, ids: &Vec<u64>, wraps: &HashMap<u64, String>)
    ensures
        final(out)@ == old(out)@ + closes_s(ids@, wraps@, ids@.len()),
{
    let ghost was = out@;
    assert(was + closes_s(ids@, wraps@, 0) =~= was);
    let mut i: usize = 0;
    while i < ids.len()
        invariant
            i <= ids@.len(),
            out@ == was + closes_s(ids@, wraps@, i as nat),
        decreases ids@.len() - i,
    {
        if let Some(p) = wraps.get(&ids[i]) {
            out.append(block_wrap_suffix(p.as_str()));
            assert(out@ =~= was + closes_s(ids@, wraps@, (i + 1) as nat));
        }
        i = i + 1;
    }
}

/// Write one node; nothing, where the positions run past what the machine holds.
fn write_node(
    out: &mut String,
    ids: &mut IdAlloc,
    doc: &TextDoc,
    node: &BodyNode,
    pos: usize,
    paras: &Vec<Paragraph>,
    wraps: &HashMap<u64, String>,
    sp: &ExportSpans,
) -> (r: Option<usize>)
    requires
        old(ids)@.wf(),
        types::paragraph_vs(paras@) == read::paragraphs_s(doc@),
    ensures
        r matches Some(next) ==> final(ids)@.wf() && (Walk {
            pen: Pen { text: final(out)@, ids: final(ids)@ },
            pos: next as int,
        }) == node_s(
            Walk { pen: Pen { text: old(out)@, ids: old(ids)@ }, pos: pos as int },
            doc@,
            *node,
            wraps@,
            sp@,
        ),
        r is None ==> node_s(
            Walk { pen: Pen { text: old(out)@, ids: old(ids)@ }, pos: pos as int },
            doc@,
            *node,
            wraps@,
            sp@,
        ).pos > usize::MAX,
{
    let ghost ps = read::paragraphs_s(doc@);
    proof {
        reveal(node_s);
    }
    assert(types::paragraph_vs(paras@).len() == paras@.len());
    let opens = block_wrap_ids(doc, node, "wrapopen");
    let closes = block_wrap_ids(doc, node, "wrapclose");
    write_opens(out, &opens, wraps);
    let next = match node {
        BodyNode::Paragraph(_) => {
            if pos < paras.len() {
                assert(ps[pos as int] == paras@[pos as int]@);
                para_xml(out, ids, &paras[pos], pos, sp);
            }
            if pos == usize::MAX {
                return None;
            }
            pos + 1
        },
        BodyNode::Table(id) => {
            let g = open_table_grid(doc, *id);
            let own = table_cell_paras(&g);
            let n = own.len();
            assert(types::paragraph_vs(own@).len() == n);
            if n > usize::MAX - pos {
                return None;
            }
            export_table_grid_anchored(out, ids, &g, pos, sp);
            pos + n
        },
    };
    write_closes(out, &closes, wraps);
    Some(next)
}

proof fn lemma_pos_grows(w: Walk, d: DocV, wraps: Map<u64, String>, sp: ExportSpansV, n: nat, m: nat)
    requires
        n <= m,
    ensures
        nodes_s(w, d, wraps, sp, n).pos <= nodes_s(w, d, wraps, sp, m).pos,
    decreases m,
{
    if n < m {
        reveal(node_s);
        lemma_pos_grows(w, d, wraps, sp, n, (m - 1) as nat);
    }
}

/// Write the document part of the document's own nodes: paragraphs, and tables from the grids
/// they host. The error comes only where there are more paragraphs than the machine counts.
pub fn export_document_xml_via_nodes(
    doc: &TextDoc,
    page: &PageGeometry,
    hf: &Vec<HfRef>,
    title_pg: bool,
) -> (r: Result<String, ModelError>)
    ensures
        r matches Ok(x) ==> is_node_document_s(
            doc@,
            *page,
            sections::hf_ref_vs(hf@),
            title_pg,
            x@,
        ),
        r is Err ==> exists|wraps: Map<u64, String>, sp: ExportSpansV|
            (#[trigger] all_nodes_s(doc@, wraps, sp)).pos > usize::MAX,
{
    let paras = match read_paragraphs(doc) {
        Ok(v) => v,
        Err(e) => {
            return Err(e);
        },
    };
    let images = read_images(doc);
    let sp = sources(doc, &paras, &images);
    let wraps = read_block_wraps(doc);
    let mut out = doc_head();
    let mut ids = IdAlloc::new();
    let nodes = body_nodes(doc);
    let ghost w = Walk { pen: start_s(), pos: 0 };
    let mut pos: usize = 0;
    let mut i: usize = 0;
    while i < nodes.len()
        invariant
            i <= nodes@.len(),
            nodes@ == read::body_nodes_s(doc@),
            nodes@.len() == doc@.s.roots.len(),
            w == (Walk { pen: start_s(), pos: 0 }),
            types::paragraph_vs(paras@) == read::paragraphs_s(doc@),
            ids@.wf(),
            (Walk { pen: Pen { text: out@, ids: ids@ }, pos: pos as int }) == nodes_s(
                w,
                doc@,
                wraps@,
                sp@,
                i as nat,
            ),
        decreases nodes@.len() - i,
    {
        match write_node(&mut out, &mut ids, doc, &nodes[i], pos, &paras, &wraps, &sp) {
            Some(next) => {
                pos = next;
            },
            None => {
                proof {
                    lemma_pos_grows(w, doc@, wraps@, sp@, (i + 1) as nat, doc@.s.roots.len());
                    assert(all_nodes_s(doc@, wraps@, sp@).pos > usize::MAX);
                }
                return Err(ModelError::Store);
            },
        }
        i = i + 1;
    }
    let close = final_sectpr(&read_final_sect(doc), multi_section(&paras), page, hf, title_pg);
    out.append(close.as_str());
    out.append(DOC_TAIL);
    proof {
        assert(nodes_xml_s(
            doc@,
            *page,
            sections::hf_ref_vs(hf@),
            title_pg,
            wraps@,
            sp@,
            out@,
        ));
    }
    Ok(out)
}

/// The body item of a node.
pub open spec fn node_item_s(d: DocV, node: BodyNode) -> BodyItemV {
    match node {
        BodyNode::Paragraph(_) => BodyItemV::Paragraph,
        BodyNode::Table(id) => BodyItemV::Table(grid::table_of_s(host::open_grid_s(d, id))),
    }
}

/// The document body as items: each paragraph, and each table as its grid reads.
pub fn node_body(doc: &TextDoc) -> (r: Vec<BodyItem>)
    ensures
        types::body_item_vs(r@) == Seq::new(
            read::body_nodes_s(doc@).len(),
            |i: int| node_item_s(doc@, read::body_nodes_s(doc@)[i]),
        ),
{
    let nodes = body_nodes(doc);
    let mut out: Vec<BodyItem> = Vec::new();
    let mut i: usize = 0;
    while i < nodes.len()
        invariant
            i <= nodes@.len(),
            nodes@ == read::body_nodes_s(doc@),
            out@.len() == i,
            forall|j: int| 0 <= j < i ==> (#[trigger] out@[j])@ == node_item_s(doc@, nodes@[j]),
        decreases nodes@.len() - i,
    {
        match nodes[i] {
            BodyNode::Paragraph(_) => {
                out.push(BodyItem::Paragraph);
            },
            BodyNode::Table(id) => {
                out.push(BodyItem::Table(Box::new(grid_to_table(&open_table_grid(doc, id)))));
            },
        }
        i = i + 1;
    }
    assert(types::body_item_vs(out@) =~= Seq::new(
        read::body_nodes_s(doc@).len(),
        |i: int| node_item_s(doc@, read::body_nodes_s(doc@)[i]),
    ));
    out
}

// ---------------------------------------------------------------- sections read from a part

/// Whether a root is a paragraph that ends a section.
pub open spec fn carries_s(d: DocV, id: BlockId) -> bool {
    &&& !read::is_table_s(d.s.metas[id])
    &&& runs::on_s(d.s.metas[id], "sectEnd"@) || runs::on_s(d.s.metas[id], "contSect"@)
}

/// The paragraphs that end a section among the first `n` roots.
pub open spec fn carriers_s(d: DocV, n: nat) -> Seq<BlockId>
    decreases n,
{
    if n == 0 {
        Seq::empty()
    } else {
        let r = carriers_s(d, (n - 1) as nat);
        if carries_s(d, d.s.roots[n - 1]) {
            r.push(d.s.roots[n - 1])
        } else {
            r
        }
    }
}

proof fn lemma_carrier(d: DocV, n: nat, i: int)
    requires
        n <= d.s.roots.len(),
        0 <= i < carriers_s(d, n).len(),
    ensures
        d.s.roots.contains(carriers_s(d, n)[i]),
    decreases n,
{
    let r = carriers_s(d, (n - 1) as nat);
    if i < r.len() {
        lemma_carrier(d, (n - 1) as nat, i);
    } else {
        assert(d.s.roots[n - 1] == carriers_s(d, n)[i]);
    }
}

/// The document with a section for each of the first `n` carriers.
pub open spec fn carried_s(d: DocV, ids: Seq<BlockId>, sects: Seq<Seq<char>>, n: nat) -> DocV
    decreases n,
{
    if n == 0 {
        d
    } else {
        doc::meta_set_s(
            carried_s(d, ids, sects, (n - 1) as nat),
            ids[n - 1],
            "sectPr"@,
            ScalarV::Text(sects[n - 1]),
        )
    }
}

/// The document with the sections of a part: the last one beside the tree, and the others on the
/// paragraphs that end them, where there are as many of these.
pub open spec fn sections_applied_s(d: DocV, sects: Seq<Seq<char>>) -> DocV {
    if sects.len() == 0 {
        d
    } else {
        let e = doc::entry_set_s(d, store::SECTPR@, "final"@, ScalarV::Text(sects.last()));
        let ids = carriers_s(e, e.s.roots.len());
        if ids.len() == sects.len() - 1 {
            carried_s(e, ids, sects, ids.len())
        } else {
            e
        }
    }
}

fn carriers(doc: &TextDoc) -> (r: Vec<BlockId>)
    ensures
        r@ == carriers_s(doc@, doc@.s.roots.len()),
{
    let roots = doc.roots();
    let mut out: Vec<BlockId> = Vec::new();
    let mut i: usize = 0;
    while i < roots.len()
        invariant
            i <= roots@.len(),
            roots@ == doc@.s.roots,
            out@ == carriers_s(doc@, i as nat),
        decreases roots@.len() - i,
    {
        let id = roots[i];
        let ends = match doc.meta_bool(id, "sectEnd") {
            Some(b) => b,
            None => false,
        };
        let flows = match doc.meta_bool(id, "contSect") {
            Some(b) => b,
            None => false,
        };
        if !doc.is_table(id) && (ends || flows) {
            out.push(id);
        }
        i = i + 1;
    }
    out
}

/// Keep the sections of a part, so that each is written back as it was.
pub fn apply_sections(doc: &mut TextDoc, sects: &Vec<String>) -> (r: Result<(), ModelError>)
    ensures
        old(doc)@.s.editable ==> r is Ok,
        r is Ok ==> final(doc)@ == sections_applied_s(old(doc)@, search::texts_s(sects@)),
        r matches Err(e) ==> e == ModelError::Store,
        sects@.len() == 0 ==> r is Ok,
{
    let ghost v = search::texts_s(sects@);
    if sects.len() == 0 {
        return Ok(());
    }
    let last = sects.len() - 1;
    assert(v.last() == sects@[last as int]@);
    match doc.put_entry(store::SECTPR, "final", &Scalar::Text(sects[last].clone())) {
        Ok(()) => {},
        Err(e) => {
            return Err(e);
        },
    }
    let ghost e = doc@;
    let ids = carriers(doc);
    if ids.len() != last {
        return Ok(());
    }
    proof {
        props::lemma_para_keys();
    }
    let mut i: usize = 0;
    while i < ids.len()
        invariant
            i <= ids@.len() == last,
            last < sects@.len(),
            v == search::texts_s(sects@),
            "sectPr"@ != store::TEXT@,
            ids@ == carriers_s(e, e.s.roots.len()),
            e.s.editable == old(doc)@.s.editable,
            doc@.s.editable == e.s.editable,
            doc@.s.roots == e.s.roots,
            doc@ == carried_s(e, ids@, v, i as nat),
        decreases ids@.len() - i,
    {
        assert(v[i as int] == sects@[i as int]@);
        proof {
            lemma_carrier(e, e.s.roots.len(), i as int);
        }
        match doc.set_meta(ids[i], "sectPr", &Scalar::Text(sects[i].clone())) {
            Ok(()) => {},
            Err(e) => {
                return Err(e);
            },
        }
        i = i + 1;
    }
    Ok(())
}

/// Keep the sections that a document part holds.
pub fn apply_section_props(doc: &mut TextDoc, xml: &[u8]) -> (r: Result<(), ModelError>)
    ensures
        old(doc)@.s.editable ==> r is Ok,
        r is Ok ==> final(doc)@ == sections_applied_s(
            old(doc)@,
            ({
                let body = events::strip_bom_s(xml@);
                sections::section_props_s(body, events::doc_s(body))
            }),
        ),
        r matches Err(e) ==> e == ModelError::Store,
{
    apply_sections(doc, &parse_section_props(xml))
}

} // verus!
