//! Applying the anchors of a document part: its comments, fields, bookmarks and hyperlinks as
//! marks on the text.

use vstd::prelude::*;
use crate::anchors;
use crate::anchors::{
    mark_bookmark_point, mark_bookmark_range, mark_comment_range, mark_field_range,
    mark_link_range,
};
use crate::containers;
use crate::containers::{write_bookmark, write_field, write_hyperlink};
use crate::doc;
use crate::doc::{DocV, TextDoc};
use crate::edits;
use crate::error::ModelError;
use crate::import;
use crate::import::{
    chars, BookmarkAnchor, BookmarkAnchorV, CommentAnchor, FieldAnchor, FieldAnchorV,
    HyperlinkAnchor, HyperlinkAnchorV,
};
use crate::read;
use crate::read::read_paragraphs;
use crate::runs;
use crate::store;
use crate::store::{BlockId, ScalarV};
use crate::types;

verus! {

broadcast use vstd::string::group_string_axioms;

/// A kind of range that is marked in the text.
#[derive(Debug, Clone, Copy, PartialEq, Eq, Structural)]
pub enum RangeKind {
    Comment,
    Field,
    Bookmark,
    Link,
}

impl RangeKind {
    /// The attribute of the range `id`.
    pub open spec fn key_s(self, id: u64) -> Seq<char> {
        match self {
            RangeKind::Comment => runs::mark_key_s("cmt~"@, id),
            RangeKind::Field => runs::mark_key_s("fld~"@, id),
            RangeKind::Bookmark => runs::mark_key_s("bkm~"@, id),
            RangeKind::Link => runs::mark_key_s("lnk~"@, id),
        }
    }

    /// The map that holds what belongs to the range.
    pub open spec fn map_s(self) -> Seq<char> {
        match self {
            RangeKind::Comment => store::COMMENTS@,
            RangeKind::Field => store::FIELDS@,
            RangeKind::Bookmark => store::BOOKMARKS@,
            RangeKind::Link => store::HYPERLINKS@,
        }
    }
}

/// One step of applying an anchor.
pub enum AnchorStep {
    /// Store what belongs to the range.
    Note { id: u64, text: String },
    /// Mark a range of one paragraph.
    Range { id: u64, para: usize, from: usize, to: usize },
    /// Anchor a collapsed bookmark in a paragraph of `len` characters.
    Point { id: u64, para: usize, off: usize, len: usize },
}

/// The mathematical value of an [`AnchorStep`].
#[verifier::ext_equal]
pub enum AnchorStepV {
    Note { id: u64, text: Seq<char> },
    Range { id: u64, para: usize, from: usize, to: usize },
    Point { id: u64, para: usize, off: usize, len: usize },
}

impl View for AnchorStep {
    type V = AnchorStepV;

    open spec fn view(&self) -> AnchorStepV {
        match self {
            AnchorStep::Note { id, text } => AnchorStepV::Note { id: *id, text: text@ },
            AnchorStep::Range { id, para, from, to } => AnchorStepV::Range {
                id: *id,
                para: *para,
                from: *from,
                to: *to,
            },
            AnchorStep::Point { id, para, off, len } => AnchorStepV::Point {
                id: *id,
                para: *para,
                off: *off,
                len: *len,
            },
        }
    }
}

pub open spec fn anchor_step_vs(v: Seq<AnchorStep>) -> Seq<AnchorStepV> {
    Seq::new(v.len(), |i: int| v[i]@)
}

/// Whether `e` is `d` after one step.
pub open spec fn anchor_step_s(d: DocV, k: RangeKind, s: AnchorStepV, e: DocV) -> bool {
    match s {
        AnchorStepV::Note { id, text } => e == doc::entry_set_s(
            d,
            k.map_s(),
            containers::id_key_s(id),
            ScalarV::Text(text),
        ),
        AnchorStepV::Range { id, para, from, to } => anchors::range_marked_s(
            d,
            para,
            from,
            to,
            k.key_s(id),
            e,
        ),
        AnchorStepV::Point { id, para, off, len } => if len == 0 {
            e == d
        } else {
            anchors::point_marked_s(d, para, off, len, id, e)
        },
    }
}

/// Whether each state follows from the one before it by the step between them.
pub open spec fn anchors_applied_s(states: Seq<DocV>, k: RangeKind, steps: Seq<AnchorStepV>) -> bool {
    &&& states.len() == steps.len() + 1
    &&& forall|i: int|
        0 <= i < steps.len() ==> anchor_step_s(#[trigger] states[i], k, steps[i], states[i + 1])
}

/// Whether `e` is `d` after all of the steps.
pub open spec fn applied_s(d: DocV, k: RangeKind, steps: Seq<AnchorStepV>, e: DocV) -> bool {
    exists|states: Seq<DocV>| #[trigger]
        anchors_applied_s(states, k, steps) && states.first() == d && states.last() == e
}

/// The length of a paragraph, 0 where there is none.
pub open spec fn len_at_s(lengths: Seq<usize>, p: usize) -> usize {
    if p < lengths.len() {
        lengths[p as int]
    } else {
        0
    }
}

pub open spec fn range_step_s(id: u64, para: int, from: usize, to: usize) -> AnchorStepV {
    AnchorStepV::Range { id, para: para as usize, from, to }
}

/// Marking the whole paragraphs from `p` up to `ep`.
pub open spec fn whole_steps_s(lengths: Seq<usize>, id: u64, p: int, ep: int) -> Seq<AnchorStepV>
    decreases ep - p,
{
    if p >= ep {
        Seq::empty()
    } else {
        whole_steps_s(lengths, id, p, ep - 1).push(
            range_step_s(id, ep - 1, 0, len_at_s(lengths, (ep - 1) as usize)),
        )
    }
}

/// Marking a range that may span paragraphs: the end of the first, the whole of those between,
/// and the beginning of the last.
pub open spec fn span_steps_s(
    lengths: Seq<usize>,
    id: u64,
    sp: usize,
    so: usize,
    ep: usize,
    eo: usize,
) -> Seq<AnchorStepV> {
    if sp == ep {
        seq![range_step_s(id, sp as int, so, eo)]
    } else {
        seq![range_step_s(id, sp as int, so, len_at_s(lengths, sp))] + whole_steps_s(
            lengths,
            id,
            sp + 1,
            ep as int,
        ) + seq![range_step_s(id, ep as int, 0, eo)]
    }
}

pub open spec fn min_s(a: usize, b: usize) -> usize {
    if a < b {
        a
    } else {
        b
    }
}

/// Marking a range whose ends are first brought within their paragraphs.
pub open spec fn clamped_steps_s(
    lengths: Seq<usize>,
    id: u64,
    sp: usize,
    so: usize,
    ep: usize,
    eo: usize,
) -> Seq<AnchorStepV> {
    span_steps_s(
        lengths,
        id,
        sp,
        min_s(so, len_at_s(lengths, sp)),
        ep,
        min_s(eo, len_at_s(lengths, ep)),
    )
}

fn len_at(lengths: &Vec<usize>, p: usize) -> (r: usize)
    ensures
        r == len_at_s(lengths@, p),
{
    if p < lengths.len() {
        lengths[p]
    } else {
        0
    }
}

fn min_of(a: usize, b: usize) -> (r: usize)
    ensures
        r == min_s(a, b),
{
    if a < b {
        a
    } else {
        b
    }
}

fn span_steps(out: &mut Vec<AnchorStep>, lengths: &Vec<usize>, id: u64, sp: usize, so: usize, ep: usize, eo: usize)
    ensures
        anchor_step_vs(final(out)@) == anchor_step_vs(old(out)@) + span_steps_s(
            lengths@,
            id,
            sp,
            so,
            ep,
            eo,
        ),
{
    let ghost was = anchor_step_vs(out@);
    if sp == ep {
        out.push(AnchorStep::Range { id, para: sp, from: so, to: eo });
        assert(anchor_step_vs(out@) =~= was + span_steps_s(lengths@, id, sp, so, ep, eo));
        return;
    }
    out.push(AnchorStep::Range { id, para: sp, from: so, to: len_at(lengths, sp) });
    let ghost head = was + seq![range_step_s(id, sp as int, so, len_at_s(lengths@, sp))];
    assert(anchor_step_vs(out@) =~= head + whole_steps_s(lengths@, id, sp + 1, sp + 1));
    if sp < ep {
        let mut p: usize = sp + 1;
        while p < ep
            invariant
                sp < p <= ep,
                anchor_step_vs(out@) == head + whole_steps_s(lengths@, id, sp + 1, p as int),
            decreases ep - p,
        {
            let ghost before = anchor_step_vs(out@);
            out.push(AnchorStep::Range { id, para: p, from: 0, to: len_at(lengths, p) });
            proof {
                let x = range_step_s(id, p as int, 0, len_at_s(lengths@, p));
                assert(anchor_step_vs(out@) =~= before.push(x));
                assert(whole_steps_s(lengths@, id, sp + 1, p + 1) == whole_steps_s(
                    lengths@,
                    id,
                    sp + 1,
                    p as int,
                ).push(x));
                assert(anchor_step_vs(out@) =~= head + whole_steps_s(lengths@, id, sp + 1, p + 1));
            }
            p = p + 1;
        }
    } else {
        assert(whole_steps_s(lengths@, id, sp + 1, ep as int) =~= Seq::empty());
    }
    let ghost before = anchor_step_vs(out@);
    out.push(AnchorStep::Range { id, para: ep, from: 0, to: eo });
    assert(anchor_step_vs(out@) =~= before.push(range_step_s(id, ep as int, 0, eo)));
    assert(anchor_step_vs(out@) =~= was + span_steps_s(lengths@, id, sp, so, ep, eo));
}

fn clamped_steps(out: &mut Vec<AnchorStep>, lengths: &Vec<usize>, id: u64, sp: usize, so: usize, ep: usize, eo: usize)
    ensures
        anchor_step_vs(final(out)@) == anchor_step_vs(old(out)@) + clamped_steps_s(
            lengths@,
            id,
            sp,
            so,
            ep,
            eo,
        ),
{
    let so = min_of(so, len_at(lengths, sp));
    let eo = min_of(eo, len_at(lengths, ep));
    span_steps(out, lengths, id, sp, so, ep, eo);
}

/// The lengths of the document's paragraphs.
pub open spec fn lengths_s(d: DocV) -> Seq<usize> {
    Seq::new(
        read::paragraphs_s(d).len(),
        |i: int| import::chars_s(read::paragraphs_s(d)[i].runs),
    )
}

fn paragraph_lengths(doc: &TextDoc) -> (r: Vec<usize>)
    ensures
        r@ == lengths_s(doc@),
{
    let mut out: Vec<usize> = Vec::new();
    if let Ok(paras) = read_paragraphs(doc) {
        let ghost v = types::paragraph_vs(paras@);
        assert(v.len() == paras@.len());
        let mut i: usize = 0;
        while i < paras.len()
            invariant
                i <= paras@.len(),
                v == types::paragraph_vs(paras@),
                out@.len() == i,
                forall|j: int| 0 <= j < i ==> #[trigger] out@[j] == import::chars_s(v[j].runs),
            decreases paras@.len() - i,
        {
            assert(v[i as int] == paras@[i as int]@);
            out.push(chars(&paras[i].runs));
            i = i + 1;
        }
    }
    assert(out@ =~= lengths_s(doc@));
    out
}

/// Whether the paragraph that a step marks has a text, if the step marks anything.
pub open spec fn step_placed_s(d: DocV, s: AnchorStepV) -> bool {
    match s {
        AnchorStepV::Note { id, text } => true,
        AnchorStepV::Range { id, para, from, to } => to <= from || edits::text_block_s(
            d,
            para as int,
        ) is Some,
        AnchorStepV::Point { id, para, off, len } => len == 0 || edits::text_block_s(
            d,
            para as int,
        ) is Some,
    }
}

/// Whether every paragraph that the steps mark has a text.
pub open spec fn steps_placed_s(d: DocV, v: Seq<AnchorStepV>) -> bool {
    forall|i: int| 0 <= i < v.len() ==> step_placed_s(d, #[trigger] v[i])
}

/// Whether a step can be taken.
pub open spec fn step_ready_s(d: DocV, k: RangeKind, s: AnchorStepV) -> bool {
    match s {
        AnchorStepV::Note { id, text } => d.s.editable,
        AnchorStepV::Range { id, para, from, to } => anchors::range_ready_s(
            d,
            para,
            from,
            to,
            k.key_s(id),
        ),
        AnchorStepV::Point { id, para, off, len } => len == 0 || anchors::point_ready_s(
            d,
            para,
            off,
            len,
            id,
        ),
    }
}

/// Whether every step can be taken.
pub open spec fn steps_ready_s(d: DocV, k: RangeKind, v: Seq<AnchorStepV>) -> bool {
    forall|i: int| 0 <= i < v.len() ==> step_ready_s(d, k, #[trigger] v[i])
}

/// Whether `e` has the paragraphs of `d`, as long as they were, and takes what `d` takes.
spec fn steady_s(d: DocV, e: DocV) -> bool {
    &&& read::refs_s(e) == read::refs_s(d)
    &&& e.s.roots == d.s.roots
    &&& e.s.parents == d.s.parents
    &&& e.s.editable == d.s.editable
    &&& e.s.marks == d.s.marks
    &&& e.s.texts.dom() == d.s.texts.dom()
    &&& forall|b: BlockId| #[trigger]
        d.s.texts.contains_key(b) ==> doc::text_s(e, b).len() == doc::text_s(d, b).len()
}

proof fn lemma_marked_steady(d: DocV, id: BlockId, a: int, b: int, key: Seq<char>, v: ScalarV, e: DocV)
    requires
        doc::text_marked_s(d, id, a, b, key, v, e),
    ensures
        steady_s(d, e),
{
    read::lemma_text_keeps_shape(d, e, id);
    assert(e.s.texts.dom() =~= d.s.texts.dom());
    assert forall|x: BlockId| #[trigger] d.s.texts.contains_key(x) implies doc::text_s(e, x).len()
        == doc::text_s(d, x).len() by {
        if x != id {
            assert(e.s.texts[x] == d.s.texts[x]);
        }
    }
}

proof fn lemma_step_steady(d: DocV, k: RangeKind, s: AnchorStepV, e: DocV)
    requires
        anchor_step_s(d, k, s, e),
    ensures
        steady_s(d, e),
{
    match s {
        AnchorStepV::Note { id, text } => {
            read::lemma_same_refs(d, e);
        },
        AnchorStepV::Range { id, para, from, to } => {
            if to > from {
                let b = edits::text_block_s(d, para as int)->0;
                lemma_marked_steady(d, b, from as int, to as int, k.key_s(id), ScalarV::Bool(true), e);
            }
        },
        AnchorStepV::Point { id, para, off, len } => {
            if len > 0 {
                let b = edits::text_block_s(d, para as int)->0;
                if off >= len {
                    lemma_marked_steady(
                        d,
                        b,
                        len - 1,
                        len as int,
                        runs::mark_key_s("bkpe~"@, id),
                        ScalarV::Bool(true),
                        e,
                    );
                } else {
                    lemma_marked_steady(
                        d,
                        b,
                        off as int,
                        off + 1,
                        runs::mark_key_s("bkp~"@, id),
                        ScalarV::Bool(true),
                        e,
                    );
                }
            }
        },
    }
}

/// What a step asks for is there as long as the document is steady.
proof fn lemma_steady(d: DocV, e: DocV, k: RangeKind, s: AnchorStepV)
    requires
        steady_s(d, e),
    ensures
        step_placed_s(e, s) == step_placed_s(d, s),
        step_ready_s(d, k, s) ==> step_ready_s(e, k, s),
{
    assert(forall|i: int|
        edits::text_block_s(e, i) == edits::text_block_s(d, i)) by {
        assert forall|i: int| #[trigger] edits::text_block_s(e, i) == edits::text_block_s(d, i) by {
            if 0 <= i < read::refs_s(d).len() {
                let b = read::block_s(d, i);
                assert(e.s.texts.dom().contains(b) == d.s.texts.dom().contains(b));
            }
        }
    }
}

impl TextDoc {
    fn anchor_step(&mut self, k: RangeKind, s: &AnchorStep) -> (r: Result<(), ModelError>)
        requires
            k is Comment ==> !(s is Note),
        ensures
            r is Ok ==> anchor_step_s(old(self)@, k, s@, final(self)@),
            r matches Err(e) ==> e == ModelError::Store || (e == ModelError::NoBlock
                && !step_placed_s(old(self)@, s@)),
            !step_placed_s(old(self)@, s@) ==> r is Err,
            step_ready_s(old(self)@, k, s@) ==> r is Ok,
    {
        match s {
            AnchorStep::Note { id, text } => match k {
                RangeKind::Comment => Err(ModelError::Store),
                RangeKind::Field => write_field(self, *id, text.as_str()),
                RangeKind::Bookmark => write_bookmark(self, *id, text.as_str()),
                RangeKind::Link => write_hyperlink(self, *id, text.as_str()),
            },
            AnchorStep::Range { id, para, from, to } => self.range_step(k, *id, *para, *from, *to),
            AnchorStep::Point { id, para, off, len } => self.point_step(*id, *para, *off, *len),
        }
    }

    fn range_step(&mut self, k: RangeKind, id: u64, para: usize, from: usize, to: usize) -> (r: Result<
        (),
        ModelError,
    >)
        ensures
            r is Ok ==> anchors::range_marked_s(
                old(self)@,
                para,
                from,
                to,
                k.key_s(id),
                final(self)@,
            ),
            r matches Err(e) ==> e == ModelError::Store || (e == ModelError::NoBlock
                && !step_placed_s(old(self)@, (AnchorStepV::Range { id, para, from, to }))),
            !step_placed_s(old(self)@, (AnchorStepV::Range { id, para, from, to })) ==> r is Err,
            anchors::range_ready_s(old(self)@, para, from, to, k.key_s(id)) ==> r is Ok,
    {
        match k {
            RangeKind::Comment => mark_comment_range(self, id, para, from, to),
            RangeKind::Field => mark_field_range(self, id, para, from, to),
            RangeKind::Bookmark => mark_bookmark_range(self, id, para, from, to),
            RangeKind::Link => mark_link_range(self, id, para, from, to),
        }
    }

    fn point_step(&mut self, id: u64, para: usize, off: usize, len: usize) -> (r: Result<
        (),
        ModelError,
    >)
        ensures
            r is Ok ==> (if len == 0 {
                final(self)@ == old(self)@
            } else {
                anchors::point_marked_s(old(self)@, para, off, len, id, final(self)@)
            }),
            r matches Err(e) ==> e == ModelError::Store || (e == ModelError::NoBlock
                && !step_placed_s(old(self)@, (AnchorStepV::Point { id, para, off, len }))),
            !step_placed_s(old(self)@, (AnchorStepV::Point { id, para, off, len })) ==> r is Err,
            len == 0 || anchors::point_ready_s(old(self)@, para, off, len, id) ==> r is Ok,
    {
        match mark_bookmark_point(self, id, para, off, len) {
            Ok(_) => Ok(()),
            Err(e) => Err(e),
        }
    }

    fn run_anchor_steps(&mut self, k: RangeKind, steps: &Vec<AnchorStep>) -> (r: Result<
        (),
        ModelError,
    >)
        requires
            k is Comment ==> forall|i: int|
                0 <= i < steps@.len() ==> !((#[trigger] anchor_step_vs(steps@)[i]) is Note),
        ensures
            r is Ok ==> applied_s(old(self)@, k, anchor_step_vs(steps@), final(self)@),
            r matches Err(e) ==> e == ModelError::Store || (e == ModelError::NoBlock
                && !steps_placed_s(old(self)@, anchor_step_vs(steps@))),
            !steps_placed_s(old(self)@, anchor_step_vs(steps@)) ==> r is Err,
            steps_ready_s(old(self)@, k, anchor_step_vs(steps@)) ==> r is Ok,
            steps@.len() == 0 ==> r is Ok,
    {
        let ghost v = anchor_step_vs(steps@);
        let ghost mut states: Seq<DocV> = seq![self@];
        let mut i: usize = 0;
        while i < steps.len()
            invariant
                i <= steps@.len(),
                v == anchor_step_vs(steps@),
                k is Comment ==> forall|j: int|
                    0 <= j < steps@.len() ==> !((#[trigger] v[j]) is Note),
                states.len() == i + 1,
                states[0] == old(self)@,
                states[i as int] == self@,
                steady_s(old(self)@, self@),
                forall|j: int| 0 <= j < i ==> step_placed_s(old(self)@, #[trigger] v[j]),
                forall|j: int|
                    0 <= j < i ==> anchor_step_s(#[trigger] states[j], k, v[j], states[j + 1]),
            decreases steps@.len() - i,
        {
            let ghost was = states;
            let ghost before = self@;
            assert(v[i as int] == steps@[i as int]@);
            proof {
                lemma_steady(old(self)@, before, k, v[i as int]);
            }
            match self.anchor_step(k, &steps[i]) {
                Ok(()) => {},
                Err(e) => {
                    return Err(e);
                },
            }
            proof {
                lemma_step_steady(before, k, v[i as int], self@);
                states = states.push(self@);
                assert forall|j: int| 0 <= j < i + 1 implies anchor_step_s(
                    #[trigger] states[j],
                    k,
                    v[j],
                    states[j + 1],
                ) by {
                    assert(states[j] == was[j]);
                    if j < i {
                        assert(states[j + 1] == was[j + 1]);
                    }
                }
            }
            i = i + 1;
        }
        assert(anchors_applied_s(states, k, v));
        assert(steps_placed_s(old(self)@, v));
        Ok(())
    }
}

/// Marking the first `n` comments.
pub open spec fn comment_plan_s(lengths: Seq<usize>, v: Seq<CommentAnchor>, n: nat) -> Seq<AnchorStepV>
    decreases n,
{
    if n == 0 {
        Seq::empty()
    } else {
        let a = v[n - 1];
        comment_plan_s(lengths, v, (n - 1) as nat) + span_steps_s(
            lengths,
            a.id,
            a.start_para,
            a.start_off,
            a.end_para,
            a.end_off,
        )
    }
}

proof fn lemma_whole_plain(lengths: Seq<usize>, id: u64, p: int, ep: int)
    ensures
        forall|i: int|
            0 <= i < whole_steps_s(lengths, id, p, ep).len() ==> !((#[trigger] whole_steps_s(
                lengths,
                id,
                p,
                ep,
            )[i]) is Note),
    decreases ep - p,
{
    if p < ep {
        lemma_whole_plain(lengths, id, p, ep - 1);
    }
}

proof fn lemma_comment_plan(lengths: Seq<usize>, v: Seq<CommentAnchor>, n: nat)
    ensures
        forall|i: int|
            0 <= i < comment_plan_s(lengths, v, n).len() ==> !((#[trigger] comment_plan_s(
                lengths,
                v,
                n,
            )[i]) is Note),
    decreases n,
{
    if n > 0 {
        lemma_comment_plan(lengths, v, (n - 1) as nat);
        let a = v[n - 1];
        lemma_whole_plain(lengths, a.id, a.start_para + 1, a.end_para as int);
    }
}

/// Mark the ranges of comments.
pub fn apply_comment_anchors(doc: &mut TextDoc, v: &Vec<CommentAnchor>) -> (r: Result<
    (),
    ModelError,
>)
    ensures
        r is Ok ==> applied_s(
            old(doc)@,
            RangeKind::Comment,
            comment_plan_s(lengths_s(old(doc)@), v@, v@.len()),
            final(doc)@,
        ),
        r matches Err(e) ==> e == ModelError::Store || (e == ModelError::NoBlock
            && !steps_placed_s(
            old(doc)@,
            comment_plan_s(lengths_s(old(doc)@), v@, v@.len()),
        )),
        !steps_placed_s(
            old(doc)@,
            comment_plan_s(lengths_s(old(doc)@), v@, v@.len()),
        ) ==> r is Err,
        steps_ready_s(
            old(doc)@,
            RangeKind::Comment,
            comment_plan_s(lengths_s(old(doc)@), v@, v@.len()),
        ) ==> r is Ok,
        v@.len() == 0 ==> r is Ok,
{
    let lengths = paragraph_lengths(doc);
    let mut steps: Vec<AnchorStep> = Vec::new();
    assert(anchor_step_vs(steps@) =~= Seq::empty());
    let mut i: usize = 0;
    while i < v.len()
        invariant
            i <= v@.len(),
            anchor_step_vs(steps@) == comment_plan_s(lengths@, v@, i as nat),
        decreases v@.len() - i,
    {
        let a = &v[i];
        span_steps(
            &mut steps,
            &lengths,
            a.id,
            a.start_para,
            a.start_off,
            a.end_para,
            a.end_off,
        );
        i = i + 1;
    }
    proof {
        lemma_comment_plan(lengths@, v@, v@.len());
        assert(anchor_step_vs(steps@).len() == steps@.len());
    }
    doc.run_anchor_steps(RangeKind::Comment, &steps)
}

/// Storing and marking the first `n` fields.
pub open spec fn field_plan_s(lengths: Seq<usize>, v: Seq<FieldAnchorV>, n: nat) -> Seq<AnchorStepV>
    decreases n,
{
    if n == 0 {
        Seq::empty()
    } else {
        let a = v[n - 1];
        field_plan_s(lengths, v, (n - 1) as nat).push(
            AnchorStepV::Note { id: a.id, text: a.instr },
        ) + span_steps_s(
            lengths,
            a.id,
            a.start_para,
            a.start_off,
            a.end_para,
            a.end_off,
        )
    }
}

fn field_plan(lengths: &Vec<usize>, v: &Vec<FieldAnchor>) -> (r: Vec<AnchorStep>)
    ensures
        anchor_step_vs(r@) == field_plan_s(lengths@, import::field_anchor_vs(v@), v@.len()),
{
    let ghost w = import::field_anchor_vs(v@);
    let mut steps: Vec<AnchorStep> = Vec::new();
    assert(anchor_step_vs(steps@) =~= Seq::empty());
    let mut i: usize = 0;
    while i < v.len()
        invariant
            i <= v@.len(),
            w == import::field_anchor_vs(v@),
            anchor_step_vs(steps@) == field_plan_s(lengths@, w, i as nat),
        decreases v@.len() - i,
    {
        let ghost was = anchor_step_vs(steps@);
        let a = &v[i];
        assert(w[i as int] == a@);
        let ghost noted = AnchorStepV::Note { id: a.id, text: a.instr@ };
        steps.push(AnchorStep::Note { id: a.id, text: a.instr.clone() });
        assert(anchor_step_vs(steps@) =~= was.push(noted));
        span_steps(
            &mut steps,
            lengths,
            a.id,
            a.start_para,
            a.start_off,
            a.end_para,
            a.end_off,
        );
        i = i + 1;
    }
    steps
}

/// Store the instructions of fields and mark their cached results.
pub fn apply_field_anchors(doc: &mut TextDoc, v: &Vec<FieldAnchor>) -> (r: Result<(), ModelError>)
    ensures
        r is Ok ==> applied_s(
            old(doc)@,
            RangeKind::Field,
            field_plan_s(lengths_s(old(doc)@), import::field_anchor_vs(v@), v@.len()),
            final(doc)@,
        ),
        r matches Err(e) ==> e == ModelError::Store || (e == ModelError::NoBlock
            && !steps_placed_s(
            old(doc)@,
            field_plan_s(lengths_s(old(doc)@), import::field_anchor_vs(v@), v@.len()),
        )),
        !steps_placed_s(
            old(doc)@,
            field_plan_s(lengths_s(old(doc)@), import::field_anchor_vs(v@), v@.len()),
        ) ==> r is Err,
        steps_ready_s(
            old(doc)@,
            RangeKind::Field,
            field_plan_s(lengths_s(old(doc)@), import::field_anchor_vs(v@), v@.len()),
        ) ==> r is Ok,
        v@.len() == 0 ==> r is Ok,
{
    let lengths = paragraph_lengths(doc);
    let steps = field_plan(&lengths, v);
    assert(anchor_step_vs(steps@).len() == steps@.len());
    doc.run_anchor_steps(RangeKind::Field, &steps)
}

/// Marking a bookmark; a collapsed one is anchored to a character.
pub open spec fn bookmark_steps_s(lengths: Seq<usize>, a: BookmarkAnchorV) -> Seq<AnchorStepV> {
    if a.start_para == a.end_para && a.start_off == a.end_off {
        seq![
            AnchorStepV::Point {
                id: a.id,
                para: a.start_para,
                off: a.start_off,
                len: len_at_s(lengths, a.start_para),
            },
        ]
    } else {
        clamped_steps_s(
            lengths,
            a.id,
            a.start_para,
            a.start_off,
            a.end_para,
            a.end_off,
        )
    }
}

/// Storing and marking the first `n` bookmarks.
pub open spec fn bookmark_plan_s(lengths: Seq<usize>, v: Seq<BookmarkAnchorV>, n: nat) -> Seq<AnchorStepV>
    decreases n,
{
    if n == 0 {
        Seq::empty()
    } else {
        let a = v[n - 1];
        bookmark_plan_s(lengths, v, (n - 1) as nat).push(
            AnchorStepV::Note { id: a.id, text: a.name },
        ) + bookmark_steps_s(lengths, a)
    }
}

fn bookmark_steps(out: &mut Vec<AnchorStep>, lengths: &Vec<usize>, a: &BookmarkAnchor)
    ensures
        anchor_step_vs(final(out)@) == anchor_step_vs(old(out)@) + bookmark_steps_s(lengths@, a@),
{
    let ghost was = anchor_step_vs(out@);
    if a.start_para == a.end_para && a.start_off == a.end_off {
        out.push(
            AnchorStep::Point {
                id: a.id,
                para: a.start_para,
                off: a.start_off,
                len: len_at(lengths, a.start_para),
            },
        );
        assert(anchor_step_vs(out@) =~= was + bookmark_steps_s(lengths@, a@));
    } else {
        clamped_steps(
            out,
            lengths,
            a.id,
            a.start_para,
            a.start_off,
            a.end_para,
            a.end_off,
        );
    }
}

fn bookmark_plan(lengths: &Vec<usize>, v: &Vec<BookmarkAnchor>) -> (r: Vec<AnchorStep>)
    ensures
        anchor_step_vs(r@) == bookmark_plan_s(lengths@, import::bookmark_anchor_vs(v@), v@.len()),
{
    let ghost w = import::bookmark_anchor_vs(v@);
    let mut steps: Vec<AnchorStep> = Vec::new();
    assert(anchor_step_vs(steps@) =~= Seq::empty());
    let mut i: usize = 0;
    while i < v.len()
        invariant
            i <= v@.len(),
            w == import::bookmark_anchor_vs(v@),
            anchor_step_vs(steps@) == bookmark_plan_s(lengths@, w, i as nat),
        decreases v@.len() - i,
    {
        let ghost was = anchor_step_vs(steps@);
        let a = &v[i];
        assert(w[i as int] == a@);
        let ghost noted = AnchorStepV::Note { id: a.id, text: a.name@ };
        steps.push(AnchorStep::Note { id: a.id, text: a.name.clone() });
        assert(anchor_step_vs(steps@) =~= was.push(noted));
        bookmark_steps(&mut steps, lengths, a);
        i = i + 1;
    }
    steps
}

/// Store the names of bookmarks and mark their ranges.
pub fn apply_bookmark_anchors(doc: &mut TextDoc, v: &Vec<BookmarkAnchor>) -> (r: Result<(), ModelError>)
    ensures
        r is Ok ==> applied_s(
            old(doc)@,
            RangeKind::Bookmark,
            bookmark_plan_s(lengths_s(old(doc)@), import::bookmark_anchor_vs(v@), v@.len()),
            final(doc)@,
        ),
        r matches Err(e) ==> e == ModelError::Store || (e == ModelError::NoBlock
            && !steps_placed_s(
            old(doc)@,
            bookmark_plan_s(lengths_s(old(doc)@), import::bookmark_anchor_vs(v@), v@.len()),
        )),
        !steps_placed_s(
            old(doc)@,
            bookmark_plan_s(lengths_s(old(doc)@), import::bookmark_anchor_vs(v@), v@.len()),
        ) ==> r is Err,
        steps_ready_s(
            old(doc)@,
            RangeKind::Bookmark,
            bookmark_plan_s(lengths_s(old(doc)@), import::bookmark_anchor_vs(v@), v@.len()),
        ) ==> r is Ok,
        v@.len() == 0 ==> r is Ok,
{
    let lengths = paragraph_lengths(doc);
    let steps = bookmark_plan(&lengths, v);
    assert(anchor_step_vs(steps@).len() == steps@.len());
    doc.run_anchor_steps(RangeKind::Bookmark, &steps)
}

/// Storing and marking the first `n` hyperlinks.
pub open spec fn hyperlink_plan_s(lengths: Seq<usize>, v: Seq<HyperlinkAnchorV>, n: nat) -> Seq<AnchorStepV>
    decreases n,
{
    if n == 0 {
        Seq::empty()
    } else {
        let a = v[n - 1];
        hyperlink_plan_s(lengths, v, (n - 1) as nat).push(
            AnchorStepV::Note { id: a.id, text: a.target },
        ) + clamped_steps_s(
            lengths,
            a.id,
            a.start_para,
            a.start_off,
            a.end_para,
            a.end_off,
        )
    }
}

fn hyperlink_plan(lengths: &Vec<usize>, v: &Vec<HyperlinkAnchor>) -> (r: Vec<AnchorStep>)
    ensures
        anchor_step_vs(r@) == hyperlink_plan_s(lengths@, import::hyperlink_anchor_vs(v@), v@.len()),
{
    let ghost w = import::hyperlink_anchor_vs(v@);
    let mut steps: Vec<AnchorStep> = Vec::new();
    assert(anchor_step_vs(steps@) =~= Seq::empty());
    let mut i: usize = 0;
    while i < v.len()
        invariant
            i <= v@.len(),
            w == import::hyperlink_anchor_vs(v@),
            anchor_step_vs(steps@) == hyperlink_plan_s(lengths@, w, i as nat),
        decreases v@.len() - i,
    {
        let ghost was = anchor_step_vs(steps@);
        let a = &v[i];
        assert(w[i as int] == a@);
        let ghost noted = AnchorStepV::Note { id: a.id, text: a.target@ };
        steps.push(AnchorStep::Note { id: a.id, text: a.target.clone() });
        assert(anchor_step_vs(steps@) =~= was.push(noted));
        clamped_steps(
            &mut steps,
            lengths,
            a.id,
            a.start_para,
            a.start_off,
            a.end_para,
            a.end_off,
        );
        i = i + 1;
    }
    steps
}

/// Store the targets of hyperlinks and mark their ranges.
pub fn apply_hyperlink_anchors(doc: &mut TextDoc, v: &Vec<HyperlinkAnchor>) -> (r: Result<(), ModelError>)
    ensures
        r is Ok ==> applied_s(
            old(doc)@,
            RangeKind::Link,
            hyperlink_plan_s(lengths_s(old(doc)@), import::hyperlink_anchor_vs(v@), v@.len()),
            final(doc)@,
        ),
        r matches Err(e) ==> e == ModelError::Store || (e == ModelError::NoBlock
            && !steps_placed_s(
            old(doc)@,
            hyperlink_plan_s(lengths_s(old(doc)@), import::hyperlink_anchor_vs(v@), v@.len()),
        )),
        !steps_placed_s(
            old(doc)@,
            hyperlink_plan_s(lengths_s(old(doc)@), import::hyperlink_anchor_vs(v@), v@.len()),
        ) ==> r is Err,
        steps_ready_s(
            old(doc)@,
            RangeKind::Link,
            hyperlink_plan_s(lengths_s(old(doc)@), import::hyperlink_anchor_vs(v@), v@.len()),
        ) ==> r is Ok,
        v@.len() == 0 ==> r is Ok,
{
    let lengths = paragraph_lengths(doc);
    let steps = hyperlink_plan(&lengths, v);
    assert(anchor_step_vs(steps@).len() == steps@.len());
    doc.run_anchor_steps(RangeKind::Link, &steps)
}

} // verus!
