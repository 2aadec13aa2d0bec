//! Edits of one block's text: attributes set and cleared, and stretches cut.

use vstd::prelude::*;
use crate::doc;
use crate::doc::{DocV, TextDoc};
use crate::error::ModelError;
use crate::grid;
use crate::import;
use crate::read;
use crate::store;
use crate::store::{BlockId, CharV, Scalar, ScalarV};
use crate::types::RunV;
use crate::writing;

verus! {

broadcast use vstd::string::group_string_axioms;

/// One edit over the characters `from..to` of a text.
pub enum TextOp {
    /// Set an attribute.
    Put { from: usize, to: usize, key: String, value: Scalar },
    /// Clear an attribute.
    Clear { from: usize, to: usize, key: String },
    /// Remove the characters.
    Cut { from: usize, to: usize },
}

/// The mathematical value of a [`TextOp`].
#[verifier::ext_equal]
pub enum TextOpV {
    Put { from: usize, to: usize, key: Seq<char>, value: ScalarV },
    Clear { from: usize, to: usize, key: Seq<char> },
    Cut { from: usize, to: usize },
}

impl View for TextOp {
    type V = TextOpV;

    open spec fn view(&self) -> TextOpV {
        match self {
            TextOp::Put { from, to, key, value } => TextOpV::Put {
                from: *from,
                to: *to,
                key: key@,
                value: value@,
            },
            TextOp::Clear { from, to, key } => TextOpV::Clear { from: *from, to: *to, key: key@ },
            TextOp::Cut { from, to } => TextOpV::Cut { from: *from, to: *to },
        }
    }
}

pub open spec fn text_op_vs(v: Seq<TextOp>) -> Seq<TextOpV> {
    Seq::new(v.len(), |i: int| v[i]@)
}

/// The characters after one edit.
pub open spec fn op_s(t: Seq<CharV>, op: TextOpV) -> Seq<CharV> {
    match op {
        TextOpV::Put { from, to, key, value } => store::marked_s(
            t,
            from as int,
            to as int,
            key,
            value,
        ),
        TextOpV::Clear { from, to, key } => store::unmarked_s(t, from as int, to as int, key),
        TextOpV::Cut { from, to } => doc::cut_s(t, from as int, to - from),
    }
}

/// The characters after the first `n` edits.
pub open spec fn ops_s(t: Seq<CharV>, ops: Seq<TextOpV>, n: nat) -> Seq<CharV>
    decreases n,
{
    if n == 0 {
        t
    } else {
        op_s(ops_s(t, ops, (n - 1) as nat), ops[n - 1])
    }
}

/// Whether an edit can be made: the value is a plain one, and a cut does not run backwards.
pub open spec fn possible_s(op: TextOpV) -> bool {
    match op {
        TextOpV::Put { from, to, key, value } => !(value is Null) && !(value is Other),
        TextOpV::Clear { from, to, key } => true,
        TextOpV::Cut { from, to } => from <= to,
    }
}

pub open spec fn all_possible_s(ops: Seq<TextOpV>) -> bool {
    forall|i: int| 0 <= i < ops.len() ==> possible_s(#[trigger] ops[i])
}

/// Whether an edit stays within a text of `len` characters and sets a mark that may be set.
pub open spec fn op_fits_s(marks: Map<Seq<char>, bool>, len: nat, op: TextOpV) -> bool {
    match op {
        TextOpV::Put { from, to, key, value } => from < to <= len && marks.contains_key(key),
        TextOpV::Clear { from, to, key } => from < to <= len && marks.contains_key(key),
        TextOpV::Cut { from, to } => from == to || to <= len,
    }
}

/// Whether each of the edits fits the text that those before it leave.
pub open spec fn ops_fit_s(marks: Map<Seq<char>, bool>, t: Seq<CharV>, ops: Seq<TextOpV>) -> bool {
    forall|i: int|
        0 <= i < ops.len() ==> op_fits_s(
            marks,
            ops_s(t, ops, i as nat).len(),
            #[trigger] ops[i],
        )
}

/// Whether an edit sets or clears, within a text of `len` characters, a mark that may be set.
pub open spec fn op_sits_s(marks: Map<Seq<char>, bool>, len: nat, op: TextOpV) -> bool {
    !(op is Cut) && op_fits_s(marks, len, op)
}

/// Whether each of the edits does.
pub open spec fn ops_sit_s(marks: Map<Seq<char>, bool>, len: nat, ops: Seq<TextOpV>) -> bool {
    forall|i: int| 0 <= i < ops.len() ==> op_sits_s(marks, len, #[trigger] ops[i])
}

proof fn lemma_len_kept(marks: Map<Seq<char>, bool>, t: Seq<CharV>, ops: Seq<TextOpV>, n: nat)
    requires
        ops_sit_s(marks, t.len(), ops),
        n <= ops.len(),
    ensures
        ops_s(t, ops, n).len() == t.len(),
    decreases n,
{
    if n > 0 {
        lemma_len_kept(marks, t, ops, (n - 1) as nat);
        assert(op_sits_s(marks, t.len(), ops[n - 1]));
    }
}

/// Edits that only set and clear marks leave the text as long as it was, so each of them fits.
pub proof fn lemma_sitting_fits(marks: Map<Seq<char>, bool>, t: Seq<CharV>, ops: Seq<TextOpV>)
    requires
        ops_sit_s(marks, t.len(), ops),
    ensures
        ops_fit_s(marks, t, ops),
{
    assert forall|i: int| 0 <= i < ops.len() implies op_fits_s(
        marks,
        ops_s(t, ops, i as nat).len(),
        #[trigger] ops[i],
    ) by {
        lemma_len_kept(marks, t, ops, i as nat);
        assert(op_sits_s(marks, t.len(), ops[i]));
    }
}

/// Whether `e` is `d` with these edits of one block's text.
pub open spec fn text_edited_s(d: DocV, id: BlockId, ops: Seq<TextOpV>, e: DocV) -> bool {
    &&& doc::only_text_s(d, e, id)
    &&& doc::text_s(e, id) == ops_s(doc::text_s(d, id), ops, ops.len())
}

/// The block of the paragraph at a flat index, if it has a text.
pub open spec fn text_block_s(d: DocV, idx: int) -> Option<BlockId> {
    if 0 <= idx < read::refs_s(d).len() && d.s.texts.contains_key(read::block_s(d, idx)) {
        Some(read::block_s(d, idx))
    } else {
        None
    }
}

/// Where the run after the first `n` begins; positions that no machine holds are cut to the
/// largest that it does.
pub open spec fn offset_s(v: Seq<RunV>, n: nat) -> usize {
    grid::sat_s(import::runs_len_s(v, n) as int) as usize
}

/// The position `n` characters on.
pub(crate) fn advance(pos: usize, n: usize) -> (r: usize)
    ensures
        r == grid::sat_s(pos + n),
{
    if n > usize::MAX - pos {
        usize::MAX
    } else {
        pos + n
    }
}

pub(crate) proof fn lemma_offset(v: Seq<RunV>, n: nat)
    ensures
        offset_s(v, n + 1) == grid::sat_s(offset_s(v, n) + v[n as int].text.len()),
        offset_s(v, n) <= offset_s(v, n + 1),
        offset_s(v, 0) == 0,
{
}

impl TextDoc {
    /// The block of the paragraph at a flat index, if it has a text.
    pub(crate) fn text_block(&self, idx: usize) -> (r: Result<BlockId, ModelError>)
        ensures
            r == (match text_block_s(self@, idx as int) {
                Some(id) => Ok(id),
                None => Err(ModelError::NoBlock),
            }),
    {
        let id = match self.nth_block(idx) {
            Ok(id) => id,
            Err(e) => {
                return Err(e);
            },
        };
        match self.segs(id) {
            Some(_) => Ok(id),
            None => Err(ModelError::NoBlock),
        }
    }

    fn run_op(&mut self, id: BlockId, op: &TextOp) -> (r: Result<(), ModelError>)
        requires
            possible_s(op@),
        ensures
            doc::writable_s(old(self)@, id) && op_fits_s(
                old(self)@.s.marks,
                doc::text_s(old(self)@, id).len(),
                op@,
            ) ==> r is Ok,
            r is Ok ==> doc::only_text_s(old(self)@, final(self)@, id) && doc::text_s(
                final(self)@,
                id,
            ) == op_s(doc::text_s(old(self)@, id), op@),
            r matches Err(e) ==> e == ModelError::Store,
    {
        match op {
            TextOp::Put { from, to, key, value } => self.mark(id, *from, *to, key.as_str(), value),
            TextOp::Clear { from, to, key } => self.unmark(id, *from, *to, key.as_str()),
            TextOp::Cut { from, to } => self.cut_text(id, *from, *to - *from),
        }
    }

    /// Make edits of a block's text, one after the other.
    pub(crate) fn run_ops(&mut self, id: BlockId, ops: &Vec<TextOp>) -> (r: Result<(), ModelError>)
        requires
            old(self)@.s.texts.contains_key(id),
            all_possible_s(text_op_vs(ops@)),
        ensures
            doc::writable_s(old(self)@, id) && ops_fit_s(
                old(self)@.s.marks,
                doc::text_s(old(self)@, id),
                text_op_vs(ops@),
            ) ==> r is Ok,
            r is Ok ==> text_edited_s(old(self)@, id, text_op_vs(ops@), final(self)@),
            r matches Err(e) ==> e == ModelError::Store,
            ops@.len() == 0 ==> r is Ok && final(self)@ == old(self)@,
    {
        let ghost d = self@;
        let ghost v = text_op_vs(ops@);
        proof {
            writing::lemma_only_text_refl(d, id);
        }
        let mut i: usize = 0;
        while i < ops.len()
            invariant
                i <= ops@.len(),
                v == text_op_vs(ops@),
                all_possible_s(v),
                d == old(self)@,
                doc::only_text_s(d, self@, id),
                doc::text_s(self@, id) == ops_s(doc::text_s(d, id), v, i as nat),
                i == 0 ==> self@ == d,
            decreases ops@.len() - i,
        {
            let ghost e = self@;
            assert(possible_s(v[i as int]));
            match self.run_op(id, &ops[i]) {
                Ok(()) => {},
                Err(e) => {
                    return Err(e);
                },
            }
            proof {
                writing::lemma_only_text_trans(d, e, self@, id);
            }
            i = i + 1;
        }
        Ok(())
    }
}

} // verus!
