//! A document that hosts a table is written as the flat one.

use vstd::prelude::*;
use crate::containers;
use crate::doc;
use crate::doc::{CellBlock, DocV};
use crate::export;
use crate::grid;
use crate::gridback;
use crate::host;
use crate::intake;
use crate::para::ExportSpansV;
use crate::props;
use crate::read;
use crate::read::BlockRef;
use crate::readback;
use crate::runback;
use crate::sections::{HfRefV, PageGeometry};
use crate::store;
use crate::store::{BlockId, CharV, PropsV, ScalarV, SegV};
use crate::structure;
use crate::tables::Walk;
use crate::types;
use crate::types::{BodyItemV, ParaPropsV, ParagraphV, RunV, TableV};
use crate::walkback;
use crate::writing;

verus! {

// ---------------------------------------------------------------- the same text, the same runs

/// Whether the attributes of every character are plain values.
pub open spec fn settled_s(t: Seq<CharV>) -> bool {
    forall|i: int| 0 <= i < t.len() ==> !store::other_s((#[trigger] t[i]).attrs)
}

proof fn lemma_flat_len(v: Seq<SegV>, n: nat)
    requires
        0 < n <= v.len(),
    ensures
        store::flat_s(v, n).len() == store::flat_s(v, (n - 1) as nat).len() + v[n - 1].text.len(),
        forall|i: int|
            0 <= i < store::flat_s(v, (n - 1) as nat).len() ==> #[trigger] store::flat_s(v, n)[i]
                == store::flat_s(v, (n - 1) as nat)[i],
        forall|i: int|
            0 <= i < v[n - 1].text.len() ==> store::flat_s(v, n)[store::flat_s(
                v,
                (n - 1) as nat,
            ).len() + i] == store::char_s(#[trigger] v[n - 1].text[i], v[n - 1].attrs),
{
}

/// The last stretch is no shorter than any that the same characters could end in.
proof fn lemma_last_no_shorter(v: Seq<SegV>, n: nat, w: Seq<SegV>, m: nat)
    requires
        0 < n <= v.len(),
        0 < m <= w.len(),
        store::stretched_s(v),
        store::stretched_s(w),
        store::flat_s(v, n) == store::flat_s(w, m),
        settled_s(store::flat_s(v, n)),
    ensures
        v[n - 1].attrs == w[m - 1].attrs,
        w[m - 1].text.len() <= v[n - 1].text.len(),
{
    let t = store::flat_s(v, n);
    lemma_flat_len(v, n);
    lemma_flat_len(w, m);
    let a = v[n - 1];
    let b = w[m - 1];
    let last = t.len() - 1;
    assert(a.text.len() > 0 && b.text.len() > 0);
    assert(t[last] == store::char_s(a.text[a.text.len() - 1], a.attrs));
    assert(t[last] == store::char_s(b.text[b.text.len() - 1], b.attrs));
    if a.text.len() < b.text.len() {
        let at = store::flat_s(v, (n - 1) as nat).len() - 1;
        let k = b.text.len() - a.text.len() - 1;
        assert(t[at] == store::char_s(b.text[k], b.attrs));
        lemma_flat_len(v, (n - 1) as nat);
        let c = v[n - 2];
        assert(c.text.len() > 0);
        assert(t[at] == store::flat_s(v, (n - 1) as nat)[at]);
        assert(t[at] == store::char_s(c.text[c.text.len() - 1], c.attrs));
        assert(c.attrs == a.attrs);
        assert(!store::other_s(t[at].attrs));
    }
}

/// The same characters are reported in the same stretches.
proof fn lemma_same_stretches(v: Seq<SegV>, n: nat, w: Seq<SegV>, m: nat)
    requires
        n <= v.len(),
        m <= w.len(),
        store::stretched_s(v),
        store::stretched_s(w),
        store::flat_s(v, n) == store::flat_s(w, m),
        settled_s(store::flat_s(v, n)),
    ensures
        n == m,
        forall|i: int| 0 <= i < n ==> #[trigger] v[i] == w[i],
    decreases n,
{
    if n > 0 {
        lemma_flat_len(v, n);
    }
    if m > 0 {
        lemma_flat_len(w, m);
    }
    if n == 0 && m > 0 {
        assert(w[m - 1].text.len() > 0);
        assert(store::flat_s(w, m).len() == 0);
    } else if n > 0 && m == 0 {
        assert(v[n - 1].text.len() > 0);
        assert(store::flat_s(v, n).len() == 0);
    } else if n > 0 {
        lemma_last_no_shorter(v, n, w, m);
        lemma_last_no_shorter(w, m, v, n);
        let t = store::flat_s(v, n);
        let a = store::flat_s(v, (n - 1) as nat);
        let b = store::flat_s(w, (m - 1) as nat);
        assert(a =~= t.subrange(0, a.len() as int));
        assert(b =~= t.subrange(0, b.len() as int));
        let x = v[n - 1].text;
        let y = w[m - 1].text;
        assert forall|i: int| 0 <= i < x.len() implies #[trigger] x[i] == y[i] by {
            assert(t[a.len() + i] == store::char_s(x[i], v[n - 1].attrs));
            assert(t[b.len() + i] == store::char_s(y[i], w[m - 1].attrs));
        }
        assert(x =~= y);
        assert forall|i: int| 0 <= i < a.len() implies !store::other_s((#[trigger] a[i]).attrs) by {
            assert(a[i] == t[i]);
        }
        lemma_same_stretches(v, (n - 1) as nat, w, (m - 1) as nat);
    }
}

/// Whether a block has a text of these characters.
pub open spec fn spelled_s(d: DocV, id: BlockId, t: Seq<CharV>) -> bool {
    d.s.texts.contains_key(id) && doc::text_s(d, id) == t
}

/// Whether the texts of a document are reported in stretches as long as can be, as every text of a
/// store is.
pub open spec fn stretched_s(d: DocV) -> bool {
    forall|id: BlockId| #[trigger]
        d.s.texts.contains_key(id) ==> store::stretched_s(d.s.texts[id])
}

/// Blocks with the same characters have the same runs.
pub proof fn law_same_characters_read_alike(a: DocV, x: BlockId, b: DocV, y: BlockId, t: Seq<CharV>)
    requires
        settled_s(t),
        stretched_s(a),
        stretched_s(b),
        spelled_s(a, x, t),
        spelled_s(b, y, t),
    ensures
        read::runs_of_s(a, x) == read::runs_of_s(b, y),
{
    let v = a.s.texts[x];
    let w = b.s.texts[y];
    lemma_same_stretches(v, v.len(), w, w.len());
    assert(v =~= w);
}

// ---------------------------------------------------------------- written runs

/// Whether each of these marks is a plain value.
spec fn plain_marks_s(v: Seq<writing::MarkV>) -> bool {
    forall|i: int| 0 <= i < v.len() ==> !((#[trigger] v[i]).1 is Other)
}

proof fn lemma_comment_marks(v: Seq<writing::MarkV>, ids: Seq<u64>, n: nat)
    requires
        plain_marks_s(v),
        n <= ids.len(),
    ensures
        plain_marks_s(writing::mark_comments_s(v, ids, n)),
    decreases n,
{
    if n > 0 {
        lemma_comment_marks(v, ids, (n - 1) as nat);
    }
}

proof fn lemma_run_marks(r: RunV)
    ensures
        plain_marks_s(writing::run_marks_s(r)),
{
    let v = Seq::<writing::MarkV>::empty();
    let v = writing::mark_if_s(v, "b"@, r.bold);
    assert(plain_marks_s(v));
    let v = writing::mark_if_s(v, "i"@, r.italic);
    assert(plain_marks_s(v));
    let v = writing::mark_if_s(v, "u"@, r.underline);
    assert(plain_marks_s(v));
    let v = writing::mark_if_s(v, "strike"@, r.strike);
    assert(plain_marks_s(v));
    let v = writing::mark_size_s(v, r.size);
    assert(plain_marks_s(v));
    let v = writing::mark_text_s(v, "color"@, r.color);
    assert(plain_marks_s(v));
    let v = writing::mark_text_s(v, "font"@, r.font);
    assert(plain_marks_s(v));
    let v = writing::mark_text_s(v, "hl"@, r.highlight);
    assert(plain_marks_s(v));
    let v = writing::mark_text_s(v, "va"@, r.vert_align);
    assert(plain_marks_s(v));
    let v = writing::mark_text_s(v, "lang"@, r.lang);
    assert(plain_marks_s(v));
    let v = writing::mark_text_s(v, "rstyle"@, r.char_style);
    assert(plain_marks_s(v));
    let v = writing::mark_text_s(v, "rshd"@, r.shading);
    assert(plain_marks_s(v));
    let v = writing::mark_track_s(v, r.track);
    assert(plain_marks_s(v));
    let v = writing::mark_fmt_s(v, r.fmt_change);
    assert(plain_marks_s(v));
    lemma_comment_marks(v, r.comments, r.comments.len());
    let v = writing::mark_comments_s(v, r.comments, r.comments.len());
    let v = writing::mark_image_s(v, r.image);
    assert(plain_marks_s(v));
}

proof fn lemma_with_marks(m: PropsV, marks: Seq<writing::MarkV>, n: nat)
    requires
        n <= marks.len(),
        plain_marks_s(marks),
        !store::other_s(m),
    ensures
        !store::other_s(runback::with_marks_s(m, marks, n)),
    decreases n,
{
    if n > 0 {
        lemma_with_marks(m, marks, (n - 1) as nat);
        let r = runback::with_marks_s(m, marks, (n - 1) as nat);
        let w = runback::with_marks_s(m, marks, n);
        if store::other_s(w) {
            let k = choose|k: Seq<char>| w.contains_key(k) && #[trigger] w[k] is Other;
            if k != marks[n - 1].0 {
                assert(r.contains_key(k) && r[k] is Other);
            }
        }
    }
}

proof fn lemma_dressed_settled(t: Seq<CharV>, start: int, v: Seq<RunV>, n: nat)
    requires
        settled_s(t),
        n <= v.len(),
    ensures
        settled_s(writing::dressed_s(t, start, v, n)),
    decreases n,
{
    if n > 0 {
        lemma_dressed_settled(t, start, v, (n - 1) as nat);
        let r = writing::dressed_s(t, start, v, (n - 1) as nat);
        let from = start + writing::joined_s(v, (n - 1) as nat).len();
        let marks = writing::run_marks_s(v[n - 1]);
        lemma_run_marks(v[n - 1]);
        runback::lemma_marked(r, from, from + v[n - 1].text.len(), marks, marks.len());
        let w = writing::dressed_s(t, start, v, n);
        assert forall|i: int| 0 <= i < w.len() implies !store::other_s((#[trigger] w[i]).attrs) by {
            assert(!store::other_s(r[i].attrs));
            lemma_with_marks(r[i].attrs, marks, marks.len());
        }
    }
}

/// The characters of written runs have plain attributes.
proof fn lemma_written_settled(v: Seq<RunV>)
    ensures
        settled_s(writing::written_s(v)),
{
    lemma_dressed_settled(store::bare_s(writing::run_text_s(v)), 0, v, v.len());
}

// ---------------------------------------------------------------- the same paragraph

proof fn lemma_nothing_edited(m: PropsV, n: nat)
    requires
        n <= 23,
    ensures
        props::edited_s(m, props::para_edits_s(ParaPropsV::initial()), false, n) == m,
    decreases n,
{
    let e = props::para_edits_s(ParaPropsV::initial());
    if n > 0 {
        lemma_nothing_edited(m, (n - 1) as nat);
        assert(e[n - 1].1 is None);
    }
}

/// Whether a block holds a paragraph that was appended to the body.
pub open spec fn flat_at_s(d: DocV, id: BlockId, p: ParagraphV) -> bool {
    d.s.metas[id] == writing::body_meta_s(p.style) && spelled_s(d, id, writing::written_s(p.runs))
}

/// Whether a block holds a paragraph that was written to a cell.
pub open spec fn cell_at_s(d: DocV, id: BlockId, p: ParagraphV) -> bool {
    &&& d.s.metas[id] == writing::para_meta_s(store::no_props_s(), p)
    &&& spelled_s(d, id, writing::written_s(p.runs))
}

proof fn lemma_flat_meta(p: ParagraphV)
    requires
        p == structure::plain_paragraph_s(p.style, p.runs),
    ensures
        writing::body_meta_s(p.style) == writing::para_meta_s(
            store::no_props_s().insert("type"@, ScalarV::Text("p"@)),
            p,
        ),
{
    let m = writing::with_text_s(
        store::no_props_s().insert("type"@, ScalarV::Text("p"@)),
        "style"@,
        p.style,
    ).insert(store::TEXT@, ScalarV::Other);
    assert(props::para_edits_s(ParaPropsV::initial()).len() == 23);
    lemma_nothing_edited(m, 23);
}

/// What a block says of a plain paragraph beside its runs.
proof fn lemma_reads(d: DocV, id: BlockId, p: ParagraphV)
    requires
        p == structure::plain_paragraph_s(p.style, p.runs),
        flat_at_s(d, id, p) || cell_at_s(d, id, p),
    ensures
        read::paragraph_s(d, id) == (ParagraphV { runs: read::runs_of_s(d, id), ..p }),
{
    let kind = ScalarV::Text("p"@);
    readback::lemma_typed(kind);
    if flat_at_s(d, id, p) {
        lemma_flat_meta(p);
        readback::law_paragraph_reads_back(store::no_props_s().insert("type"@, kind), p);
    } else {
        readback::law_paragraph_reads_back(store::no_props_s(), p);
    }
}

/// A plain paragraph reads alike from the body of one document and from the body or a cell of
/// another.
pub proof fn law_paragraph_reads_alike(a: DocV, x: BlockId, b: DocV, y: BlockId, p: ParagraphV)
    requires
        p == structure::plain_paragraph_s(p.style, p.runs),
        stretched_s(a),
        stretched_s(b),
        flat_at_s(a, x, p),
        flat_at_s(b, y, p) || cell_at_s(b, y, p),
    ensures
        read::paragraph_s(a, x) == read::paragraph_s(b, y),
{
    lemma_reads(a, x, p);
    lemma_reads(b, y, p);
    lemma_written_settled(p.runs);
    law_same_characters_read_alike(a, x, b, y, writing::written_s(p.runs));
}

// ---------------------------------------------------------------- the same document part

/// The pictures rest on the side maps.
proof fn lemma_images(a: DocV, b: DocV, m: Map<u64, types::ImagePlacement>)
    requires
        a.s.maps == b.s.maps,
        a.s.nested == b.s.nested,
        containers::images_s(a, m),
    ensures
        containers::images_s(b, m),
{
    assert forall|k: Seq<char>, id: u64| #[trigger] containers::holds_image_s(b, k, id) implies m.contains_key(
    id) by {
        assert(containers::holds_image_s(a, k, id));
    }
    assert forall|id: u64| #[trigger] m.contains_key(id) implies exists|k: Seq<char>| #[trigger]
        containers::holds_image_s(b, k, id) && m[id]@ == containers::placement_s(
            b.s.nested[store::IMAGES@][k],
        ) by {
        let k = choose|k: Seq<char>| #[trigger]
            containers::holds_image_s(a, k, id) && m[id]@ == containers::placement_s(
                a.s.nested[store::IMAGES@][k],
            );
        assert(containers::holds_image_s(b, k, id));
    }
}

/// Documents whose paragraphs read alike and whose side maps agree are written alike: the one by
/// its nodes, the other by the body items of those nodes.
pub proof fn law_documents_that_read_alike_are_written_alike(
    a: DocV,
    b: DocV,
    page: PageGeometry,
    hf: Seq<HfRefV>,
    title_pg: bool,
    wraps: Map<u64, String>,
    sp: ExportSpansV,
    out: Seq<char>,
)
    requires
        walkback::plain_s(b),
        containers::texts_by_id_s(b.s.maps[store::BLOCKWRAP@], wraps),
        read::paragraphs_s(a) == read::paragraphs_s(b),
        a.s.maps == b.s.maps,
        a.s.nested == b.s.nested,
    ensures
        export::nodes_xml_s(b, page, hf, title_pg, wraps, sp, out) == export::document_xml_s(
            a,
            page,
            hf,
            walkback::node_items_s(b),
            title_pg,
            sp,
            out,
        ),
{
    walkback::law_node_walk_is_body_walk(b, page, hf, title_pg, wraps, sp, out);
    if containers::images_s(a, sp.images) {
        lemma_images(a, b, sp.images);
    }
    if containers::images_s(b, sp.images) {
        lemma_images(b, a, sp.images);
    }
}

// ---------------------------------------------------------------- flat documents

/// Whether a paragraph has a style and runs and nothing else.
pub open spec fn simple_s(p: ParagraphV) -> bool {
    p == structure::plain_paragraph_s(p.style, p.runs)
}

/// Whether a document holds these paragraphs at its root, appended one after the other.
pub open spec fn flat_s(d: DocV, ps: Seq<ParagraphV>) -> bool {
    &&& d.s.roots.len() == ps.len()
    &&& forall|i: int| 0 <= i < ps.len() ==> flat_at_s(d, #[trigger] d.s.roots[i], ps[i])
    &&& forall|i: int| 0 <= i < ps.len() ==> simple_s(#[trigger] ps[i])
}

proof fn lemma_names()
    ensures
        "type"@ != "style"@,
        "type"@ != store::TEXT@,
        "wrapopen"@ != "type"@,
        "wrapopen"@ != "style"@,
        "wrapopen"@ != store::TEXT@,
        "wrapclose"@ != "type"@,
        "wrapclose"@ != "style"@,
        "wrapclose"@ != store::TEXT@,
        "p"@ != "table"@,
{
    reveal_strlit("type");
    reveal_strlit("style");
    reveal_strlit("text");
    reveal_strlit("wrapopen");
    reveal_strlit("wrapclose");
    reveal_strlit("p");
    reveal_strlit("table");
    assert("type"@.len() == 4 && "style"@.len() == 5 && "text"@.len() == 4);
    assert("wrapopen"@.len() == 8 && "wrapclose"@.len() == 9);
    assert("p"@.len() == 1 && "table"@.len() == 5);
    assert("type"@[1] == 'y' && "text"@[1] == 'e');
}

/// The properties of a paragraph of the body name neither a table nor a wrapper.
proof fn lemma_body_meta(d: DocV, id: BlockId, style: Option<Seq<char>>)
    requires
        d.s.metas[id] == writing::body_meta_s(style),
    ensures
        !read::is_table_s(d.s.metas[id]),
        walkback::unwrapped_s(d, id),
{
    lemma_names();
    let m = d.s.metas[id];
    assert(m["type"@] == ScalarV::Text("p"@));
    assert(!m.contains_key("wrapopen"@) && !m.contains_key("wrapclose"@));
}

proof fn lemma_table_meta(d: DocV, id: BlockId)
    requires
        d.s.metas[id] == store::no_props_s().insert("type"@, ScalarV::Text("table"@)),
    ensures
        read::is_table_s(d.s.metas[id]),
        walkback::unwrapped_s(d, id),
{
    lemma_names();
    let m = d.s.metas[id];
    assert(!m.contains_key("wrapopen"@) && !m.contains_key("wrapclose"@));
}

/// The paragraphs of the first roots, where those are paragraphs.
proof fn lemma_top_refs(d: DocV, n: nat)
    requires
        n <= d.s.roots.len(),
        forall|i: int| 0 <= i < n ==> !read::is_table_s(d.s.metas[#[trigger] d.s.roots[i]]),
    ensures
        read::refs_n_s(d, n).len() == n,
        forall|i: int|
            0 <= i < n ==> #[trigger] read::refs_n_s(d, n)[i] == BlockRef::Top(d.s.roots[i]),
    decreases n,
{
    if n > 0 {
        lemma_top_refs(d, (n - 1) as nat);
        assert(!read::is_table_s(d.s.metas[d.s.roots[n - 1]]));
    }
}

/// The paragraphs of a flat document are those at its root.
proof fn lemma_flat_refs(d: DocV, ps: Seq<ParagraphV>)
    requires
        flat_s(d, ps),
    ensures
        read::refs_s(d).len() == ps.len(),
        forall|i: int|
            0 <= i < ps.len() ==> #[trigger] read::refs_s(d)[i] == BlockRef::Top(d.s.roots[i]),
{
    assert forall|i: int| 0 <= i < ps.len() implies !read::is_table_s(
        d.s.metas[#[trigger] d.s.roots[i]],
    ) by {
        assert(flat_at_s(d, d.s.roots[i], ps[i]));
        lemma_body_meta(d, d.s.roots[i], ps[i].style);
    }
    lemma_top_refs(d, d.s.roots.len());
}

/// A document that holds nothing is flat.
pub proof fn law_empty_document_is_flat(d: DocV)
    requires
        store::empty_store_s(d.s),
    ensures
        flat_s(d, Seq::empty()),
{
}

/// What a new block leaves of another.
proof fn lemma_left(d: DocV, index: int, id: BlockId, m: PropsV, v: Seq<RunV>, e: DocV, x: BlockId)
    requires
        writing::root_filled_s(d, index, id, m, v, e),
        x != id,
    ensures
        e.s.metas[x] == d.s.metas[x],
        e.s.texts.contains_key(x) == d.s.texts.contains_key(x),
        e.s.texts[x] == d.s.texts[x],
{
    assert(e.s.texts.contains_key(x) == d.s.texts.insert(id, e.s.texts[id]).contains_key(x));
    assert(e.s.texts[x] == d.s.texts.insert(id, e.s.texts[id])[x]);
}

/// A paragraph that is appended to a flat document is its last.
pub proof fn law_appended_paragraph_keeps_flat(
    d: DocV,
    ps: Seq<ParagraphV>,
    style: Option<Seq<char>>,
    v: Seq<RunV>,
    id: BlockId,
    e: DocV,
)
    requires
        flat_s(d, ps),
        writing::root_filled_s(d, d.s.roots.len() as int, id, writing::body_meta_s(style), v, e),
    ensures
        flat_s(e, ps.push(structure::plain_paragraph_s(style, v))),
{
    let n = d.s.roots.len() as int;
    let m = writing::body_meta_s(style);
    let all = ps.push(structure::plain_paragraph_s(style, v));
    assert(e.s.roots == d.s.roots.insert(n, id));
    assert forall|i: int| 0 <= i < all.len() implies flat_at_s(e, #[trigger] e.s.roots[i], all[i])
        && simple_s(all[i]) by {
        if i < n {
            let x = d.s.roots[i];
            assert(flat_at_s(d, x, ps[i]) && simple_s(ps[i]));
            assert(d.s.roots.contains(x));
            lemma_left(d, n, id, m, v, e, x);
        }
    }
}

// ---------------------------------------------------------------- documents with a table

/// Whether a document holds paragraphs, then a table with its cell paragraphs, then paragraphs,
/// appended one after the other.
pub open spec fn framed_s(
    d: DocV,
    before: Seq<ParagraphV>,
    t: TableV,
    cells: Seq<ParagraphV>,
    after: Seq<ParagraphV>,
) -> bool {
    let n = before.len() as int;
    let node = d.s.roots[n];
    &&& d.s.roots.len() == n + 1 + after.len()
    &&& forall|i: int|
        0 <= i < n ==> flat_at_s(d, d.s.roots[i], #[trigger] before[i]) && simple_s(before[i])
    &&& d.s.metas[node] == store::no_props_s().insert("type"@, ScalarV::Text("table"@))
    &&& walkback::in_order_s(d, node)
    &&& grid::table_of_s(host::open_grid_s(d, node)) == gridback::even_s(t)
    &&& read::cells_s(d, node).len() == cells.len()
    &&& forall|i: int|
        0 <= i < cells.len() ==> cell_at_s(d, read::cells_s(d, node)[i].id, #[trigger] cells[i])
            && simple_s(cells[i])
    &&& forall|i: int|
        0 <= i < after.len() ==> flat_at_s(d, d.s.roots[n + 1 + i], #[trigger] after[i])
            && simple_s(after[i])
}

/// A table that is appended to a flat document, with the grid that it is lifted into, follows its
/// paragraphs.
pub proof fn law_table_follows_the_paragraphs(
    d: DocV,
    before: Seq<ParagraphV>,
    t: TableV,
    cells: Seq<ParagraphV>,
    id: BlockId,
    e: DocV,
)
    requires
        flat_s(d, before),
        gridback::full_s(gridback::even_s(t), cells),
        t.rows.len() <= usize::MAX,
        forall|i: int| 0 <= i < cells.len() ==> simple_s(#[trigger] cells[i]),
        intake::table_placed_s(d, grid::grid_of_s(t, cells), id, e),
    ensures
        framed_s(e, before, t, cells, Seq::empty()),
{
    reveal(intake::table_placed_s);
    let g = grid::grid_of_s(t, cells);
    let mid = intake::table_added_s(d, id);
    let n = d.s.roots.len() as int;
    gridback::lemma_even_grid(t, cells);
    gridback::law_table_reads_back_from_grid(gridback::even_s(t), cells);
    gridback::law_lifted_grid_covers_nothing(gridback::even_s(t), cells);
    assert(walkback::covers_nothing_s(g));
    walkback::law_hosted_grid_is_in_order(mid, id, g, e);
    walkback::lemma_open_table(mid, id, g, e);
    let own = read::cells_s(e, id);
    assert(mid.s.roots == d.s.roots.insert(n, id));
    assert forall|x: BlockId| mid.s.roots.contains(x) implies #[trigger] e.s.metas[x]
        == mid.s.metas[x] && e.s.texts.contains_key(x) == mid.s.texts.contains_key(x)
        && e.s.texts[x] == mid.s.texts[x] by {
        assert forall|k: int| 0 <= k < own.len() implies (#[trigger] own[k]).id != x by {
            assert(doc::fresh_s(mid, own[k].id));
        }
    }
    assert(mid.s.roots[n] == id);
    assert(e.s.metas[id] == mid.s.metas[id]);
    assert forall|i: int| 0 <= i < n implies flat_at_s(e, e.s.roots[i], #[trigger] before[i])
        && simple_s(before[i]) by {
        let x = d.s.roots[i];
        assert(flat_at_s(d, x, before[i]));
        assert(d.s.roots.contains(x));
        assert(mid.s.roots[i] == x);
        assert(e.s.metas[x] == mid.s.metas[x]);
    }
    assert forall|i: int| 0 <= i < cells.len() implies cell_at_s(e, own[i].id, #[trigger] cells[i])
        && simple_s(cells[i]) by {
        assert(host::holds_s(e, own[i].id, cells[i]));
    }
}

proof fn lemma_cell_ids_among(cells: Seq<CellBlock>, row: int, col: int, n: nat, i: int)
    requires
        n <= cells.len(),
        0 <= i < host::cell_ids_s(cells, row, col, n).len(),
    ensures
        exists|j: int|
            0 <= j < cells.len() && (#[trigger] cells[j]).id == host::cell_ids_s(
                cells,
                row,
                col,
                n,
            )[i],
    decreases n,
{
    if n > 0 {
        let r = host::cell_ids_s(cells, row, col, (n - 1) as nat);
        if i < r.len() {
            lemma_cell_ids_among(cells, row, col, (n - 1) as nat, i);
        } else {
            assert(cells[n - 1].id == host::cell_ids_s(cells, row, col, n)[i]);
        }
    }
}

/// What a table node holds rests on the paragraphs of its cells.
proof fn lemma_open_same(d: DocV, e: DocV, node: BlockId)
    requires
        e.tables == d.tables,
        forall|j: int|
            0 <= j < read::cells_s(d, node).len() ==> read::paragraph_s(
                e,
                (#[trigger] read::cells_s(d, node)[j]).id,
            ) == read::paragraph_s(d, read::cells_s(d, node)[j].id),
    ensures
        host::open_grid_s(e, node) == host::open_grid_s(d, node),
        walkback::node_paras_s(e, node) == walkback::node_paras_s(d, node),
        read::cells_s(e, node) == read::cells_s(d, node),
{
    walkback::lemma_host(d.tables, node, 0);
    let cells = read::cells_s(d, node);
    assert forall|row: int, col: int| host::cell_paras_s(e, cells, row, col) == #[trigger]
        host::cell_paras_s(d, cells, row, col) by {
        let ids = host::cell_ids_s(cells, row, col, cells.len());
        assert forall|i: int| 0 <= i < ids.len() implies read::paragraph_s(e, #[trigger] ids[i])
            == read::paragraph_s(d, ids[i]) by {
            lemma_cell_ids_among(cells, row, col, cells.len(), i);
            let j = choose|j: int| 0 <= j < cells.len() && (#[trigger] cells[j]).id == ids[i];
            assert(read::paragraph_s(e, cells[j].id) == read::paragraph_s(d, cells[j].id));
        }
        assert(host::cell_paras_s(e, cells, row, col) =~= host::cell_paras_s(d, cells, row, col));
    }
    assert(walkback::node_paras_s(e, node) =~= walkback::node_paras_s(d, node));
    if read::host_s(d.tables, node, 0) is Some {
        let t = d.tables[read::host_s(d.tables, node, 0)->0];
        let x = host::filled_s(e, t);
        let y = host::filled_s(d, t);
        assert forall|r: int| 0 <= r < t.grid.rows.len() implies x.rows[r] == #[trigger] y.rows[r] by {
            assert forall|c: int| 0 <= c < t.grid.rows[r].cells.len() implies x.rows[r].cells[c]
                == #[trigger] y.rows[r].cells[c] by {
                assert(host::cell_paras_s(e, cells, r, c) == host::cell_paras_s(d, cells, r, c));
            }
            assert(x.rows[r].cells =~= y.rows[r].cells);
        }
        assert(x.rows =~= y.rows);
    }
}

/// A paragraph that is appended after a table follows what stood there.
pub proof fn law_paragraph_follows_the_table(
    d: DocV,
    before: Seq<ParagraphV>,
    t: TableV,
    cells: Seq<ParagraphV>,
    after: Seq<ParagraphV>,
    style: Option<Seq<char>>,
    v: Seq<RunV>,
    id: BlockId,
    e: DocV,
)
    requires
        framed_s(d, before, t, cells, after),
        writing::root_filled_s(d, d.s.roots.len() as int, id, writing::body_meta_s(style), v, e),
    ensures
        framed_s(e, before, t, cells, after.push(structure::plain_paragraph_s(style, v))),
{
    let n = before.len() as int;
    let len = d.s.roots.len() as int;
    let m = writing::body_meta_s(style);
    let node = d.s.roots[n];
    let own = read::cells_s(d, node);
    let all = after.push(structure::plain_paragraph_s(style, v));
    assert(e.s.roots == d.s.roots.insert(len, id));
    assert forall|i: int| 0 <= i < len implies #[trigger] e.s.roots[i] == d.s.roots[i] && d.s.roots[i]
        != id by {
        assert(d.s.roots.contains(d.s.roots[i]));
    }
    assert(e.s.roots[n] == node);
    lemma_left(d, len, id, m, v, e, node);
    assert forall|j: int| 0 <= j < own.len() implies read::paragraph_s(e, (#[trigger] own[j]).id)
        == read::paragraph_s(d, own[j].id) && own[j].id != id && cell_at_s(e, own[j].id, cells[j]) by {
        assert(cell_at_s(d, own[j].id, cells[j]));
        lemma_left(d, len, id, m, v, e, own[j].id);
    }
    lemma_open_same(d, e, node);
    assert forall|i: int| 0 <= i < n implies flat_at_s(e, e.s.roots[i], #[trigger] before[i])
        && simple_s(before[i]) by {
        assert(flat_at_s(d, d.s.roots[i], before[i]));
        lemma_left(d, len, id, m, v, e, d.s.roots[i]);
    }
    assert forall|i: int| 0 <= i < cells.len() implies cell_at_s(
        e,
        read::cells_s(e, node)[i].id,
        #[trigger] cells[i],
    ) && simple_s(cells[i]) by {
        assert(cell_at_s(e, own[i].id, cells[i]));
    }
    assert forall|i: int| 0 <= i < all.len() implies flat_at_s(
        e,
        e.s.roots[n + 1 + i],
        #[trigger] all[i],
    ) && simple_s(all[i]) by {
        if i < after.len() {
            assert(flat_at_s(d, d.s.roots[n + 1 + i], after[i]));
            lemma_left(d, len, id, m, v, e, d.s.roots[n + 1 + i]);
        } else {
            assert(e.s.roots[len] == id);
        }
    }
}

/// The paragraphs of a document with a table, up to `j` of those after it.
proof fn lemma_framed_refs(
    d: DocV,
    before: Seq<ParagraphV>,
    t: TableV,
    cells: Seq<ParagraphV>,
    after: Seq<ParagraphV>,
    j: nat,
)
    requires
        framed_s(d, before, t, cells, after),
        j <= after.len(),
    ensures
        ({
            let n = before.len() as int;
            let r = read::refs_n_s(d, (n + 1 + j) as nat);
            &&& r.len() == n + cells.len() + j
            &&& forall|i: int| 0 <= i < n ==> (#[trigger] r[i]).id_s() == d.s.roots[i]
            &&& forall|i: int|
                n <= i < n + cells.len() ==> (#[trigger] r[i]).id_s() == read::cells_s(
                    d,
                    d.s.roots[n],
                )[i - n].id
            &&& forall|i: int|
                n + cells.len() <= i < r.len() ==> (#[trigger] r[i]).id_s() == d.s.roots[i
                    - cells.len() + 1]
        }),
    decreases j,
{
    let n = before.len() as int;
    let node = d.s.roots[n];
    if j == 0 {
        assert forall|i: int| 0 <= i < n implies !read::is_table_s(
            d.s.metas[#[trigger] d.s.roots[i]],
        ) by {
            assert(flat_at_s(d, d.s.roots[i], before[i]));
            lemma_body_meta(d, d.s.roots[i], before[i].style);
        }
        lemma_top_refs(d, n as nat);
        lemma_table_meta(d, node);
        let more = read::node_refs_s(d, node);
        assert(read::refs_n_s(d, (n + 1) as nat) == read::refs_n_s(d, n as nat) + more);
        assert forall|i: int| 0 <= i < cells.len() implies (#[trigger] more[i]).id_s()
            == read::cells_s(d, node)[i].id by {
            assert(more[i] == read::cell_ref_s(node, read::cells_s(d, node)[i]));
        }
    } else {
        lemma_framed_refs(d, before, t, cells, after, (j - 1) as nat);
        let x = d.s.roots[n + j];
        assert(flat_at_s(d, d.s.roots[n + 1 + (j - 1)], after[j - 1]));
        lemma_body_meta(d, x, after[j - 1].style);
        assert(read::refs_n_s(d, (n + 1 + j) as nat) == read::refs_n_s(d, (n + j) as nat)
            + read::node_refs_s(d, x));
    }
}

/// The body of paragraphs, a table and paragraphs.
pub open spec fn body_of_s(n: nat, t: TableV, m: nat) -> Seq<BodyItemV> {
    Seq::new(
        n + 1 + m,
        |i: int|
            if i == n {
                BodyItemV::Table(t)
            } else {
                BodyItemV::Paragraph
            },
    )
}

proof fn lemma_even_items(
    w: Walk,
    n: nat,
    t: TableV,
    m: nat,
    ps: Seq<ParagraphV>,
    sp: ExportSpansV,
    k: nat,
)
    requires
        k <= n + 1 + m,
    ensures
        export::items_s(w, body_of_s(n, gridback::even_s(t), m), ps, sp, k) == export::items_s(
            w,
            body_of_s(n, t, m),
            ps,
            sp,
            k,
        ),
    decreases k,
{
    if k > 0 {
        lemma_even_items(w, n, t, m, ps, sp, (k - 1) as nat);
        let x = export::items_s(w, body_of_s(n, t, m), ps, sp, (k - 1) as nat);
        reveal(export::item_s);
        gridback::lemma_even_table(x, t, ps, 0, sp);
    }
}

/// A document that hosts a table among paragraphs is written, by its nodes, as the document in
/// which the paragraphs of the cells stand flat among the others is written by its body items.
pub proof fn law_hosted_table_is_written_as_in_the_flat_document(
    a: DocV,
    b: DocV,
    before: Seq<ParagraphV>,
    t: TableV,
    cells: Seq<ParagraphV>,
    after: Seq<ParagraphV>,
    page: PageGeometry,
    hf: Seq<HfRefV>,
    title_pg: bool,
    wraps: Map<u64, String>,
    sp: ExportSpansV,
    out: Seq<char>,
)
    requires
        flat_s(a, before + cells + after),
        framed_s(b, before, t, cells, after),
        stretched_s(a),
        stretched_s(b),
        a.s.maps == b.s.maps,
        a.s.nested == b.s.nested,
        (before + cells + after).len() <= usize::MAX,
        containers::texts_by_id_s(b.s.maps[store::BLOCKWRAP@], wraps),
    ensures
        export::nodes_xml_s(b, page, hf, title_pg, wraps, sp, out) == export::document_xml_s(
            a,
            page,
            hf,
            body_of_s(before.len(), t, after.len()),
            title_pg,
            sp,
            out,
        ),
{
    let n = before.len() as int;
    let all = before + cells + after;
    let node = b.s.roots[n];
    lemma_flat_refs(a, all);
    lemma_framed_refs(b, before, t, cells, after, after.len());
    assert(read::refs_s(b).len() == all.len());
    assert forall|i: int| 0 <= i < all.len() implies read::paragraph_s(a, read::block_s(a, i))
        == read::paragraph_s(b, #[trigger] read::block_s(b, i)) by {
        let x = read::block_s(a, i);
        let y = read::block_s(b, i);
        assert(read::refs_s(a)[i] == BlockRef::Top(a.s.roots[i]));
        assert(flat_at_s(a, a.s.roots[i], all[i]) && simple_s(all[i]));
        assert(read::refs_s(b)[i].id_s() == y);
        if i < n {
            assert(all[i] == before[i]);
            assert(flat_at_s(b, b.s.roots[i], before[i]));
        } else if i < n + cells.len() {
            assert(all[i] == cells[i - n]);
            assert(cell_at_s(b, read::cells_s(b, node)[i - n].id, cells[i - n]));
        } else {
            let j = i - n - cells.len();
            assert(all[i] == after[j]);
            assert(flat_at_s(b, b.s.roots[n + 1 + j], after[j]));
        }
        law_paragraph_reads_alike(a, x, b, y, all[i]);
    }
    assert(read::paragraphs_s(a) =~= read::paragraphs_s(b));
    let items = body_of_s(before.len(), gridback::even_s(t), after.len());
    lemma_table_meta(b, node);
    assert forall|i: int| 0 <= i < b.s.roots.len() implies walkback::unwrapped_s(
        b,
        #[trigger] b.s.roots[i],
    ) && (read::is_table_s(b.s.metas[b.s.roots[i]]) ==> walkback::in_order_s(b, b.s.roots[i]))
        && export::node_item_s(b, read::body_node_s(b, b.s.roots[i])) == items[i] by {
        if i < n {
            assert(flat_at_s(b, b.s.roots[i], before[i]));
            lemma_body_meta(b, b.s.roots[i], before[i].style);
        } else if i > n {
            let j = i - n - 1;
            assert(flat_at_s(b, b.s.roots[n + 1 + j], after[j]));
            lemma_body_meta(b, b.s.roots[i], after[j].style);
        }
    }
    assert(walkback::plain_s(b));
    assert(walkback::node_items_s(b) =~= items);
    law_documents_that_read_alike_are_written_alike(a, b, page, hf, title_pg, wraps, sp, out);
    let ps = read::paragraphs_s(a);
    lemma_even_items(
        Walk { pen: export::start_s(), pos: 0 },
        before.len(),
        t,
        after.len(),
        ps,
        sp,
        items.len(),
    );
}

} // verus!
