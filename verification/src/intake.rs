//! Taking the body of a document part in: its paragraphs and tables as blocks.

use vstd::prelude::*;
use crate::doc;
use crate::doc::{DocV, TextDoc};
use crate::error::ModelError;
use crate::sequence;
use crate::events;
use crate::grid::{TableGrid, TableGridV};
use crate::host;
use crate::host::{create_table_node, host_table_grid};
use crate::import;
use crate::import::{
    parse_document_xml, DocumentImportV, ImportAnchors, ImportItem, ImportItemV,
};
use crate::props;
use crate::read;
use crate::readback;
use crate::runback;
use crate::store;
use crate::store::{BlockId, PropsV, Scalar, ScalarV};
use crate::types::{ImportStats, Paragraph, ParagraphV};
use crate::writing;

verus! {

broadcast use vstd::string::group_string_axioms;

/// The properties that a block of the body starts with.
pub open spec fn typed_s() -> PropsV {
    store::no_props_s().insert("type"@, ScalarV::Text("p"@))
}

/// Whether `e` is `d` with a paragraph appended.
#[verifier::opaque]
pub open spec fn paragraph_placed_s(d: DocV, p: ParagraphV, id: BlockId, e: DocV) -> bool {
    &&& writing::changes_read_s(p)
    &&& writing::root_filled_s(
        d,
        d.s.roots.len() as int,
        id,
        writing::para_meta_s(typed_s(), p),
        p.runs,
        e,
    )
}

/// The document with an empty table appended.
pub open spec fn table_added_s(d: DocV, id: BlockId) -> DocV {
    doc::meta_set_s(
        doc::root_added_s(d, d.s.roots.len() as int, id),
        id,
        "type"@,
        ScalarV::Text("table"@),
    )
}

/// Whether `e` is `d` with a table appended.
#[verifier::opaque]
pub open spec fn table_placed_s(d: DocV, g: TableGridV, id: BlockId, e: DocV) -> bool {
    doc::fresh_s(d, id) && host::grid_hosted_s(table_added_s(d, id), id, g, e)
}

/// Whether `e` is `d` with an item appended.
pub open spec fn placed_s(d: DocV, item: ImportItemV, e: DocV) -> bool {
    match item {
        ImportItemV::Paragraph(p) => exists|id: BlockId| #[trigger]
            paragraph_placed_s(d, p, id, e),
        ImportItemV::Table(g) => exists|id: BlockId| #[trigger] table_placed_s(d, g, id, e),
    }
}

/// Whether the marks of an item's paragraphs can be written.
pub open spec fn item_markable_s(item: ImportItemV) -> bool {
    match item {
        ImportItemV::Paragraph(p) => writing::markable_s(p),
        ImportItemV::Table(g) => host::all_markable_s(host::slots_s(g.rows, g.rows.len())),
    }
}

/// Whether an item can be written: the marks of its paragraphs, and those over their text.
pub open spec fn item_ready_s(marks: Map<Seq<char>, bool>, item: ImportItemV) -> bool {
    match item {
        ImportItemV::Paragraph(p) => host::para_ready_s(marks, p),
        ImportItemV::Table(g) => host::all_ready_s(marks, host::slots_s(g.rows, g.rows.len())),
    }
}

pub open spec fn items_ready_s(marks: Map<Seq<char>, bool>, items: Seq<ImportItemV>, n: nat) -> bool {
    forall|i: int| 0 <= i < n ==> item_ready_s(marks, #[trigger] items[i])
}

pub open spec fn items_markable_s(items: Seq<ImportItemV>, n: nat) -> bool {
    forall|i: int| 0 <= i < n ==> item_markable_s(#[trigger] items[i])
}

/// Whether each state follows from the one before it by the item between them.
pub open spec fn all_placed_s(states: Seq<DocV>, items: Seq<ImportItemV>) -> bool {
    &&& states.len() == items.len() + 1
    &&& forall|i: int|
        0 <= i < items.len() ==> #[trigger] placed_s(states[i], items[i], states[i + 1])
}

/// Whether `e` is `d` with all of the items appended, one after the other.
pub open spec fn items_placed_s(d: DocV, items: Seq<ImportItemV>, e: DocV) -> bool {
    exists|states: Seq<DocV>| #[trigger]
        all_placed_s(states, items) && states.first() == d && states.last() == e
}

impl TextDoc {
    fn add_typed(&mut self) -> (r: Result<BlockId, ModelError>)
        ensures
            old(self)@.s.editable ==> r is Ok,
            r matches Ok(id) ==> doc::fresh_s(old(self)@, id) && final(self)@ == doc::meta_set_s(
                doc::root_added_s(old(self)@, old(self)@.s.roots.len() as int, id),
                id,
                "type"@,
                ScalarV::Text("p"@),
            ),
            r matches Err(e) ==> e == ModelError::Store,
    {
        let id = match self.add_root() {
            Ok(id) => id,
            Err(e) => {
                return Err(e);
            },
        };
        proof {
            props::lemma_change_keys();
            assert(self@.s.roots[self@.s.roots.len() - 1] == id);
        }
        match self.set_meta(id, "type", &Scalar::Text("p".to_string())) {
            Ok(()) => Ok(id),
            Err(e) => Err(e),
        }
    }

    fn place_paragraph(&mut self, p: &Paragraph) -> (r: Result<BlockId, ModelError>)
        ensures
            old(self)@.s.editable && host::para_ready_s(old(self)@.s.marks, p@) ==> r is Ok,
            r matches Ok(id) ==> paragraph_placed_s(old(self)@, p@, id, final(self)@),
            r matches Err(e) ==> e == ModelError::Store || (e == ModelError::BadMark
                && !writing::markable_s(p@)),
            !writing::markable_s(p@) ==> r is Err,
    {
        let ghost d = self@;
        let id = match self.add_typed() {
            Ok(id) => id,
            Err(e) => {
                return Err(e);
            },
        };
        let ghost b = self@;
        assert(b.s.roots[b.s.roots.len() - 1] == id);
        match self.write_paragraph(id, p) {
            Ok(()) => {},
            Err(e) => {
                return Err(e);
            },
        }
        proof {
            lemma_placed(d, p@, id, b, self@);
        }
        Ok(id)
    }

    fn place_table(&mut self, g: &TableGrid) -> (r: Result<BlockId, ModelError>)
        ensures
            old(self)@.s.editable && item_ready_s(old(self)@.s.marks, ImportItemV::Table(g@)) ==> r is Ok,
            r matches Ok(id) ==> table_placed_s(old(self)@, g@, id, final(self)@),
            !item_markable_s(ImportItemV::Table(g@)) ==> r is Err,
            r matches Err(e) ==> e == ModelError::Store || (e == ModelError::BadMark
                && !item_markable_s(ImportItemV::Table(g@))),
    {
        let id = match create_table_node(self) {
            Ok(id) => id,
            Err(e) => {
                return Err(e);
            },
        };
        assert(self@.s.roots[self@.s.roots.len() - 1] == id);
        match host_table_grid(self, id, g) {
            Ok(()) => {
                proof {
                    reveal(table_placed_s);
                }
                Ok(id)
            },
            Err(e) => Err(e),
        }
    }

    fn place_item(&mut self, item: &ImportItem) -> (r: Result<(), ModelError>)
        ensures
            old(self)@.s.editable && item_ready_s(old(self)@.s.marks, item@) ==> r is Ok,
            r is Ok ==> final(self)@.s.editable == old(self)@.s.editable && final(self)@.s.marks == old(
                self,
            )@.s.marks,
            r is Ok ==> placed_s(old(self)@, item@, final(self)@),
            !item_markable_s(item@) ==> r is Err,
            r matches Err(e) ==> e == ModelError::Store || (e == ModelError::BadMark
                && !item_markable_s(item@)),
    {
        proof {
            reveal(paragraph_placed_s);
            reveal(table_placed_s);
        }
        match item {
            ImportItem::Paragraph(p) => match self.place_paragraph(p) {
                Ok(id) => Ok(()),
                Err(e) => Err(e),
            },
            ImportItem::Table(g) => match self.place_table(g) {
                Ok(id) => Ok(()),
                Err(e) => Err(e),
            },
        }
    }
}

proof fn lemma_placed(d: DocV, p: ParagraphV, id: BlockId, b: DocV, e: DocV)
    requires
        doc::fresh_s(d, id),
        writing::changes_read_s(p),
        b == doc::meta_set_s(
            doc::root_added_s(d, d.s.roots.len() as int, id),
            id,
            "type"@,
            ScalarV::Text("p"@),
        ),
        writing::block_filled_s(b, id, writing::para_meta_s(b.s.metas[id], p), p.runs, e),
    ensures
        paragraph_placed_s(d, p, id, e),
{
    reveal(paragraph_placed_s);
    let a = doc::root_added_s(d, d.s.roots.len() as int, id);
    let m = writing::para_meta_s(b.s.metas[id], p);
    assert(b.s.metas[id] == typed_s());
    writing::lemma_filled_over(a, id, "type"@, ScalarV::Text("p"@), m, p.runs, e);
}

/// Append the items of a part to a document.
pub fn place_items(doc: &mut TextDoc, items: &Vec<ImportItem>) -> (r: Result<(), ModelError>)
    ensures
        sequence::sound_s(old(doc)@) && r is Ok ==> sequence::sound_s(final(doc)@),
        old(doc)@.s.editable && items_ready_s(
            old(doc)@.s.marks,
            import::import_item_vs(items@),
            items@.len(),
        ) ==> r is Ok,
        r is Ok ==> items_placed_s(old(doc)@, import::import_item_vs(items@), final(doc)@),
        !items_markable_s(import::import_item_vs(items@), items@.len()) ==> r is Err,
        r matches Err(e) ==> e == ModelError::Store || (e == ModelError::BadMark
            && !items_markable_s(import::import_item_vs(items@), items@.len())),
{
    let ghost v = import::import_item_vs(items@);
    let ghost mut states: Seq<DocV> = seq![doc@];
    let mut i: usize = 0;
    while i < items.len()
        invariant
            i <= items@.len(),
            v == import::import_item_vs(items@),
            items_markable_s(v, i as nat),
            states.len() == i + 1,
            states[0] == old(doc)@,
            states[i as int] == doc@,
            doc@.s.editable == old(doc)@.s.editable,
            doc@.s.marks == old(doc)@.s.marks,
            forall|j: int| 0 <= j < i ==> placed_s(#[trigger] states[j], v[j], states[j + 1]),
        decreases items@.len() - i,
    {
        let ghost was = states;
        assert(v[i as int] == items@[i as int]@);
        match doc.place_item(&items[i]) {
            Ok(()) => {},
            Err(e) => {
                return Err(e);
            },
        }
        proof {
            states = states.push(doc@);
            assert forall|j: int| 0 <= j < i + 1 implies placed_s(
                #[trigger] states[j],
                v[j],
                states[j + 1],
            ) by {
                assert(states[j] == was[j]);
                if j < i {
                    assert(states[j + 1] == was[j + 1]);
                }
            }
        }
        i = i + 1;
    }
    assert(all_placed_s(states, v));
    proof {
        if sequence::sound_s(old(doc)@) {
            sequence::law_import_keeps_sound(old(doc)@, v, doc@);
        }
    }
    Ok(())
}

/// What a document part holds; nothing where it is malformed.
#[verifier::opaque]
pub open spec fn part_s(xml: Seq<u8>) -> Option<DocumentImportV> {
    let body = events::strip_bom_s(xml);
    import::document_s(body, events::doc_s(body))
}

/// Append the body of a document part to a document. Answers the counts of the part and the
/// ranges that it marks, which are applied once their marks are configured. A malformed part
/// leaves the document as it was.
pub fn import_document_xml(doc: &mut TextDoc, xml: &[u8]) -> (r: Result<
    (ImportStats, ImportAnchors),
    ModelError,
>)
    ensures
        sequence::sound_s(old(doc)@) && r is Ok ==> sequence::sound_s(final(doc)@),
        part_s(xml@) matches Some(x) ==> old(doc)@.s.editable && items_ready_s(
            old(doc)@.s.marks,
            x.items,
            x.items.len(),
        ) ==> r is Ok,
        part_s(xml@) is None ==> r is Err && r->Err_0 == ModelError::Xml && final(doc)@ == old(
            doc,
        )@,
        part_s(xml@) matches Some(x) ==> (r matches Err(e) ==> e == ModelError::Store || (e
            == ModelError::BadMark && !items_markable_s(x.items, x.items.len()))),
        part_s(xml@) matches Some(x) ==> !items_markable_s(x.items, x.items.len()) ==> r is Err,
        r matches Ok(x) ==> part_s(xml@) is Some && x.0 == part_s(xml@)->0.stats && x.1@ == part_s(
            xml@,
        )->0.anchors,
        r is Ok ==> items_placed_s(old(doc)@, part_s(xml@)->0.items, final(doc)@),
{
    let parsed = parse_document_xml(xml);
    proof {
        reveal(part_s);
        assert(import::import_result_s(parsed) == part_s(xml@));
    }
    let part = match parsed {
        Ok(p) => p,
        Err(e) => {
            return Err(e);
        },
    };
    match place_items(doc, &part.items) {
        Ok(()) => {},
        Err(e) => {
            return Err(e);
        },
    }
    Ok((part.stats, part.anchors))
}

/// A paragraph that was appended reads back: its style, its properties, its tracked changes and,
/// character by character, its runs.
pub proof fn law_placed_paragraph_reads_back(d: DocV, p: ParagraphV, id: BlockId, e: DocV)
    requires
        paragraph_placed_s(d, p, id, e),
        readback::tabs_paired_s(p.props),
        runback::all_of_text_s(p.runs),
    ensures
        ({
            let r = read::paragraph_s(e, id);
            &&& r.style == p.style
            &&& r.props == p.props
            &&& r.prop_change == readback::change_kept_s(p.prop_change)
            &&& r.mark_change == p.mark_change
            &&& runback::spread_s(r.runs, r.runs.len()) == runback::spread_s(
                runback::all_settled_s(p.runs),
                p.runs.len(),
            )
        }),
{
    reveal(paragraph_placed_s);
    let a = doc::root_added_s(d, d.s.roots.len() as int, id);
    let m = writing::para_meta_s(typed_s(), p);
    readback::lemma_typed(ScalarV::Text("p"@));
    readback::law_paragraph_reads_back(typed_s(), p);
    runback::law_written_runs_read_back(a, id, m, p.runs, e);
    assert(e.s.metas[id] == m);
}

} // verus!
