//! Anchors in the text: the marks of comments, fields, bookmarks, hyperlinks, pictures and
//! embedded objects.

use vstd::prelude::*;
use crate::doc;
use crate::doc::{DocV, TextDoc};
use crate::edits;
use crate::edits::advance;
use crate::error::ModelError;
use crate::import;
use crate::import::chars;
use crate::read;
use crate::read::read_paragraphs;
use crate::runs;
use crate::runs::{
    bookmark_mark_key, comment_mark_key, end_point_bookmark_mark_key, field_mark_key,
    image_mark_key, link_mark_key, point_bookmark_mark_key, raw_mark_key, IMAGE_PLACEHOLDER,
};
use crate::store;
use crate::store::{BlockId, CharV, Scalar, ScalarV, StoreV};
use crate::structure;
use crate::types;
use crate::types::{Run, RunV, Track, TrackV};
use crate::writing;
use crate::writing::{track_value, MarkV};

verus! {

broadcast use vstd::string::group_string_axioms;

// ---------------------------------------------------------------- ranges

/// Whether `e` is `d` with an attribute set over a range; an empty range sets nothing.
pub open spec fn range_marked_s(
    d: DocV,
    para: usize,
    start: usize,
    end: usize,
    key: Seq<char>,
    e: DocV,
) -> bool {
    if end > start {
        edits::text_block_s(d, para as int) matches Some(id) && doc::text_marked_s(
            d,
            id,
            start as int,
            end as int,
            key,
            ScalarV::Bool(true),
            e,
        )
    } else {
        e == d
    }
}

/// Whether an attribute can be set over a range, if there is anything to set.
pub open spec fn range_ready_s(d: DocV, para: usize, start: usize, end: usize, key: Seq<char>) -> bool {
    end <= start || (edits::text_block_s(d, para as int) matches Some(id) && doc::writable_s(d, id)
        && end <= doc::text_s(d, id).len() && d.s.marks.contains_key(key))
}

/// Whether a collapsed bookmark can be anchored, if there is a character to hold it.
pub open spec fn point_ready_s(d: DocV, para: usize, off: usize, len: usize, id: u64) -> bool {
    if off >= len {
        range_ready_s(d, para, (len - 1) as usize, len, runs::mark_key_s("bkpe~"@, id))
    } else {
        range_ready_s(d, para, off, (off + 1) as usize, runs::mark_key_s("bkp~"@, id))
    }
}

/// Whether a placeholder under these marks can be put into a paragraph.
pub open spec fn place_ready_s(d: DocV, para: usize, marks: Seq<MarkV>) -> bool {
    edits::text_block_s(d, para as int) matches Some(id) && doc::writable_s(d, id) && doc::text_s(
        d,
        id,
    ).len() < usize::MAX && writing::keys_allowed_s(d.s.marks, marks)
}

impl TextDoc {
    fn mark_range(&mut self, key: &str, para: usize, start: usize, end: usize) -> (r: Result<
        (),
        ModelError,
    >)
        ensures
            range_ready_s(old(self)@, para, start, end, key@) ==> r is Ok,
            end <= start ==> r is Ok,
            end > start && edits::text_block_s(old(self)@, para as int) is None ==> r == Err::<
                (),
                ModelError,
            >(ModelError::NoBlock) && final(self)@ == old(self)@,
            r matches Err(e) ==> e == ModelError::Store || edits::text_block_s(
                old(self)@,
                para as int,
            ) is None,
            r is Ok ==> range_marked_s(old(self)@, para, start, end, key@, final(self)@),
    {
        if end <= start {
            return Ok(());
        }
        let id = match self.text_block(para) {
            Ok(id) => id,
            Err(e) => {
                return Err(e);
            },
        };
        self.mark(id, start, end, key, &Scalar::Bool(true))
    }
}

/// Anchor a comment over `start..end` of a paragraph.
pub fn mark_comment_range(doc: &mut TextDoc, id: u64, para: usize, start: usize, end: usize) -> (r: Result<
    (),
    ModelError,
>)
    ensures
        range_ready_s(old(doc)@, para, start, end, runs::mark_key_s("cmt~"@, id)) ==> r is Ok,
        end <= start ==> r is Ok,
        end > start && edits::text_block_s(old(doc)@, para as int) is None ==> r == Err::<
            (),
            ModelError,
        >(ModelError::NoBlock) && final(doc)@ == old(doc)@,
        r matches Err(e) ==> e == ModelError::Store || edits::text_block_s(
            old(doc)@,
            para as int,
        ) is None,
        r is Ok ==> range_marked_s(
            old(doc)@,
            para,
            start,
            end,
            runs::mark_key_s("cmt~"@, id),
            final(doc)@,
        ),
{
    doc.mark_range(comment_mark_key(id).as_str(), para, start, end)
}

/// Mark `start..end` of a paragraph as a field's cached result.
pub fn mark_field_range(doc: &mut TextDoc, id: u64, para: usize, start: usize, end: usize) -> (r: Result<
    (),
    ModelError,
>)
    ensures
        range_ready_s(old(doc)@, para, start, end, runs::mark_key_s("fld~"@, id)) ==> r is Ok,
        end <= start ==> r is Ok,
        end > start && edits::text_block_s(old(doc)@, para as int) is None ==> r == Err::<
            (),
            ModelError,
        >(ModelError::NoBlock) && final(doc)@ == old(doc)@,
        r matches Err(e) ==> e == ModelError::Store || edits::text_block_s(
            old(doc)@,
            para as int,
        ) is None,
        r is Ok ==> range_marked_s(
            old(doc)@,
            para,
            start,
            end,
            runs::mark_key_s("fld~"@, id),
            final(doc)@,
        ),
{
    doc.mark_range(field_mark_key(id).as_str(), para, start, end)
}

/// Mark `start..end` of a paragraph as a picture.
pub fn mark_image_range(doc: &mut TextDoc, id: u64, para: usize, start: usize, end: usize) -> (r: Result<
    (),
    ModelError,
>)
    ensures
        range_ready_s(old(doc)@, para, start, end, runs::mark_key_s("img~"@, id)) ==> r is Ok,
        end <= start ==> r is Ok,
        end > start && edits::text_block_s(old(doc)@, para as int) is None ==> r == Err::<
            (),
            ModelError,
        >(ModelError::NoBlock) && final(doc)@ == old(doc)@,
        r matches Err(e) ==> e == ModelError::Store || edits::text_block_s(
            old(doc)@,
            para as int,
        ) is None,
        r is Ok ==> range_marked_s(
            old(doc)@,
            para,
            start,
            end,
            runs::mark_key_s("img~"@, id),
            final(doc)@,
        ),
{
    doc.mark_range(image_mark_key(id).as_str(), para, start, end)
}

/// Mark `start..end` of a paragraph as a bookmark.
pub fn mark_bookmark_range(doc: &mut TextDoc, id: u64, para: usize, start: usize, end: usize) -> (r: Result<
    (),
    ModelError,
>)
    ensures
        range_ready_s(old(doc)@, para, start, end, runs::mark_key_s("bkm~"@, id)) ==> r is Ok,
        end <= start ==> r is Ok,
        end > start && edits::text_block_s(old(doc)@, para as int) is None ==> r == Err::<
            (),
            ModelError,
        >(ModelError::NoBlock) && final(doc)@ == old(doc)@,
        r matches Err(e) ==> e == ModelError::Store || edits::text_block_s(
            old(doc)@,
            para as int,
        ) is None,
        r is Ok ==> range_marked_s(
            old(doc)@,
            para,
            start,
            end,
            runs::mark_key_s("bkm~"@, id),
            final(doc)@,
        ),
{
    doc.mark_range(bookmark_mark_key(id).as_str(), para, start, end)
}

/// Mark `start..end` of a paragraph as a hyperlink.
pub fn mark_link_range(doc: &mut TextDoc, id: u64, para: usize, start: usize, end: usize) -> (r: Result<
    (),
    ModelError,
>)
    ensures
        range_ready_s(old(doc)@, para, start, end, runs::mark_key_s("lnk~"@, id)) ==> r is Ok,
        end <= start ==> r is Ok,
        end > start && edits::text_block_s(old(doc)@, para as int) is None ==> r == Err::<
            (),
            ModelError,
        >(ModelError::NoBlock) && final(doc)@ == old(doc)@,
        r matches Err(e) ==> e == ModelError::Store || edits::text_block_s(
            old(doc)@,
            para as int,
        ) is None,
        r is Ok ==> range_marked_s(
            old(doc)@,
            para,
            start,
            end,
            runs::mark_key_s("lnk~"@, id),
            final(doc)@,
        ),
{
    doc.mark_range(link_mark_key(id).as_str(), para, start, end)
}

/// Whether `e` is `d` with a collapsed bookmark at `off` of a paragraph of `len` characters: on
/// the character it sits before, or on the last one where it sits after it.
pub open spec fn point_marked_s(
    d: DocV,
    para: usize,
    off: usize,
    len: usize,
    id: u64,
    e: DocV,
) -> bool {
    if off >= len {
        range_marked_s(
            d,
            para,
            (len - 1) as usize,
            len,
            runs::mark_key_s("bkpe~"@, id),
            e,
        )
    } else {
        range_marked_s(d, para, off, (off + 1) as usize, runs::mark_key_s("bkp~"@, id), e)
    }
}

/// Anchor a collapsed bookmark at `off` of a paragraph of `len` characters. An empty paragraph
/// has no character to hold it, and the answer is `false`.
pub fn mark_bookmark_point(doc: &mut TextDoc, id: u64, para: usize, off: usize, len: usize) -> (r:
    Result<bool, ModelError>)
    ensures
        point_ready_s(old(doc)@, para, off, len, id) ==> r is Ok,
        len == 0 ==> r == Ok::<bool, ModelError>(false) && final(doc)@ == old(doc)@,
        len > 0 && edits::text_block_s(old(doc)@, para as int) is None ==> r == Err::<
            bool,
            ModelError,
        >(ModelError::NoBlock) && final(doc)@ == old(doc)@,
        r matches Err(e) ==> e == ModelError::Store || edits::text_block_s(
            old(doc)@,
            para as int,
        ) is None,
        len > 0 ==> (r matches Ok(b) ==> b && point_marked_s(
            old(doc)@,
            para,
            off,
            len,
            id,
            final(doc)@,
        )),
{
    if len == 0 {
        return Ok(false);
    }
    let r = if off >= len {
        doc.mark_range(end_point_bookmark_mark_key(id).as_str(), para, len - 1, len)
    } else {
        doc.mark_range(point_bookmark_mark_key(id).as_str(), para, off, off + 1)
    };
    match r {
        Ok(()) => Ok(true),
        Err(e) => Err(e),
    }
}

// ---------------------------------------------------------------- placeholders

/// The text of a placeholder.
pub open spec fn placeholder_s() -> Seq<char> {
    seq![IMAGE_PLACEHOLDER]
}

/// Whether `e` is `d` with a placeholder under these marks at `at` of a block's text.
pub open spec fn placed_s(d: DocV, id: BlockId, at: int, marks: Seq<MarkV>, e: DocV) -> bool {
    &&& doc::only_text_s(d, e, id)
    &&& 0 <= at <= doc::text_s(d, id).len()
    &&& exists|mid: Seq<CharV>| #[trigger]
        writing::laid_s(d, id, at, placeholder_s(), mid) && doc::text_s(e, id)
            == writing::all_marked_s(mid, at, at + 1, marks, marks.len())
}

/// The marks of a placeholder, with its revision where it has one.
pub open spec fn place_marks_s(key: Seq<char>, track: Option<TrackV>) -> Seq<MarkV> {
    writing::mark_track_s(seq![(key, ScalarV::Bool(true))], track)
}

fn placeholder() -> (r: String)
    ensures
        r@ == placeholder_s(),
{
    let mut v: Vec<char> = Vec::new();
    v.push(IMAGE_PLACEHOLDER);
    let s = crate::strs::string_of(&v, 0, 1);
    assert(s@ =~= placeholder_s());
    s
}

impl TextDoc {
    /// How many characters a block's text has.
    pub(crate) fn text_len(&self, id: BlockId) -> (r: usize)
        requires
            self@.s.texts.contains_key(id),
        ensures
            r == crate::grid::sat_s(doc::text_s(self@, id).len() as int),
    {
        match self.segs(id) {
            Some(v) => {
                let ghost w = doc::seg_vs(v@);
                let mut n: usize = 0;
                let mut i: usize = 0;
                while i < v.len()
                    invariant
                        i <= v@.len(),
                        w == doc::seg_vs(v@),
                        n == crate::grid::sat_s(store::flat_s(w, i as nat).len() as int),
                    decreases v@.len() - i,
                {
                    assert(w[i as int] == v@[i as int]@);
                    n = advance(n, v[i].text.as_str().unicode_len());
                    i = i + 1;
                }
                n
            },
            None => 0,
        }
    }

    /// Put a placeholder at `at` of a paragraph, at its end where it is shorter.
    fn place(&mut self, key: &str, para: usize, at: Option<usize>, track: &Option<Track>) -> (r: Result<
        (),
        ModelError,
    >)
        ensures
            place_ready_s(old(self)@, para, place_marks_s(key@, types::track_ov(*track))) ==> r is Ok,
            edits::text_block_s(old(self)@, para as int) is None ==> r == Err::<
                (),
                ModelError,
            >(ModelError::NoBlock) && final(self)@ == old(self)@,
            r matches Err(e) ==> e == ModelError::Store || edits::text_block_s(
                old(self)@,
                para as int,
            ) is None,
            r is Ok ==> placed_s(
                old(self)@,
                edits::text_block_s(old(self)@, para as int)->0,
                place_s(old(self)@, edits::text_block_s(old(self)@, para as int)->0, at),
                place_marks_s(key@, types::track_ov(*track)),
                final(self)@,
            ),
    {
        let ghost d = self@;
        let id = match self.text_block(para) {
            Ok(id) => id,
            Err(e) => {
                return Err(e);
            },
        };
        let len = self.text_len(id);
        let at = match at {
            Some(n) => if n < len {
                n
            } else {
                len
            },
            None => len,
        };
        if at == usize::MAX {
            return Err(ModelError::Store);
        }
        match self.put_text(id, at, placeholder().as_str()) {
            Ok(()) => {},
            Err(e) => {
                return Err(e);
            },
        }
        let ghost mid = self@;
        let mut marks: Vec<(String, Scalar)> = Vec::new();
        marks.push((key.to_string(), Scalar::Bool(true)));
        assert(writing::marks_vs(marks@) =~= seq![(key@, ScalarV::Bool(true))]);
        let ghost was = marks@;
        if let Some(t) = track {
            marks.push((t.kind.mark_key().to_string(), Scalar::Text(track_value(t))));
            assert(writing::marks_vs(marks@) =~= writing::mark_track_s(
                writing::marks_vs(was),
                Some(t@),
            ));
        }
        match self.mark_all(id, at, at + 1, &marks) {
            Ok(()) => {},
            Err(e) => {
                return Err(e);
            },
        }
        proof {
            writing::lemma_only_text_trans(d, mid, self@, id);
            assert(writing::laid_s(d, id, at as int, placeholder_s(), doc::text_s(mid, id)));
        }
        Ok(())
    }
}

/// Where a placeholder goes: `at`, or the end of the text.
pub open spec fn place_s(d: DocV, id: BlockId, at: Option<usize>) -> int {
    let len = doc::text_s(d, id).len() as int;
    match at {
        Some(n) => if n < len {
            n as int
        } else {
            len
        },
        None => len,
    }
}

/// Put the placeholder of a picture at the end of a paragraph.
pub fn insert_image_placeholder(doc: &mut TextDoc, id: u64, para: usize) -> (r: Result<(), ModelError>)
    ensures
        place_ready_s(
            old(doc)@,
            para,
            place_marks_s(runs::mark_key_s("img~"@, id), None),
        ) ==> r is Ok,
        edits::text_block_s(old(doc)@, para as int) is None ==> r == Err::<(), ModelError>(
            ModelError::NoBlock,
        ) && final(doc)@ == old(doc)@,
        r matches Err(e) ==> e == ModelError::Store || edits::text_block_s(
            old(doc)@,
            para as int,
        ) is None,
        r is Ok ==> placed_s(
            old(doc)@,
            edits::text_block_s(old(doc)@, para as int)->0,
            place_s(old(doc)@, edits::text_block_s(old(doc)@, para as int)->0, None),
            place_marks_s(runs::mark_key_s("img~"@, id), None),
            final(doc)@,
        ),
{
    doc.place(image_mark_key(id).as_str(), para, None, &None)
}

/// Put the placeholder of a picture under a revision at the end of a paragraph.
pub fn insert_image_placeholder_tracked(doc: &mut TextDoc, id: u64, para: usize, track: &Track) -> (r: Result<(), ModelError>)
    ensures
        place_ready_s(
            old(doc)@,
            para,
            place_marks_s(runs::mark_key_s("img~"@, id), Some(track@)),
        ) ==> r is Ok,
        edits::text_block_s(old(doc)@, para as int) is None ==> r == Err::<(), ModelError>(
            ModelError::NoBlock,
        ) && final(doc)@ == old(doc)@,
        r matches Err(e) ==> e == ModelError::Store || edits::text_block_s(
            old(doc)@,
            para as int,
        ) is None,
        r is Ok ==> placed_s(
            old(doc)@,
            edits::text_block_s(old(doc)@, para as int)->0,
            place_s(old(doc)@, edits::text_block_s(old(doc)@, para as int)->0, None),
            place_marks_s(runs::mark_key_s("img~"@, id), Some(track@)),
            final(doc)@,
        ),
{
    doc.place(image_mark_key(id).as_str(), para, None, &Some(track.clone()))
}

/// Put the placeholder of an embedded object at `at` of a paragraph, at its end where it is
/// shorter.
pub fn insert_raw_placeholder(doc: &mut TextDoc, id: u64, para: usize, at: usize) -> (r: Result<(), ModelError>)
    ensures
        place_ready_s(
            old(doc)@,
            para,
            place_marks_s(runs::mark_key_s("raw~"@, id), None),
        ) ==> r is Ok,
        edits::text_block_s(old(doc)@, para as int) is None ==> r == Err::<(), ModelError>(
            ModelError::NoBlock,
        ) && final(doc)@ == old(doc)@,
        r matches Err(e) ==> e == ModelError::Store || edits::text_block_s(
            old(doc)@,
            para as int,
        ) is None,
        r is Ok ==> placed_s(
            old(doc)@,
            edits::text_block_s(old(doc)@, para as int)->0,
            place_s(old(doc)@, edits::text_block_s(old(doc)@, para as int)->0, Some(at)),
            place_marks_s(runs::mark_key_s("raw~"@, id), None),
            final(doc)@,
        ),
{
    doc.place(raw_mark_key(id).as_str(), para, Some(at), &None)
}

/// Put the placeholder of an embedded object under a revision at `at` of a paragraph, at its
/// end where it is shorter.
pub fn insert_raw_placeholder_tracked(doc: &mut TextDoc, id: u64, para: usize, at: usize, track: &Track) -> (r: Result<(), ModelError>)
    ensures
        place_ready_s(
            old(doc)@,
            para,
            place_marks_s(runs::mark_key_s("raw~"@, id), Some(track@)),
        ) ==> r is Ok,
        edits::text_block_s(old(doc)@, para as int) is None ==> r == Err::<(), ModelError>(
            ModelError::NoBlock,
        ) && final(doc)@ == old(doc)@,
        r matches Err(e) ==> e == ModelError::Store || edits::text_block_s(
            old(doc)@,
            para as int,
        ) is None,
        r is Ok ==> placed_s(
            old(doc)@,
            edits::text_block_s(old(doc)@, para as int)->0,
            place_s(old(doc)@, edits::text_block_s(old(doc)@, para as int)->0, Some(at)),
            place_marks_s(runs::mark_key_s("raw~"@, id), Some(track@)),
            final(doc)@,
        ),
{
    doc.place(raw_mark_key(id).as_str(), para, Some(at), &Some(track.clone()))
}

// ---------------------------------------------------------------- clearing

/// A kind of anchor that is cleared throughout the document.
#[derive(Debug, Clone, Copy, PartialEq, Eq, Structural)]
pub enum AnchorKind {
    Comment,
    Bookmark,
    Link,
}

impl AnchorKind {
    /// The attribute of the anchor `id`.
    pub open spec fn key_s(self, id: u64) -> Seq<char> {
        match self {
            AnchorKind::Comment => runs::mark_key_s("cmt~"@, id),
            AnchorKind::Bookmark => runs::mark_key_s("bkm~"@, id),
            AnchorKind::Link => runs::mark_key_s("lnk~"@, id),
        }
    }

    /// Whether the anchor `id` reaches over a run.
    pub open spec fn over_s(self, id: u64, r: RunV) -> bool {
        match self {
            AnchorKind::Comment => r.comments.contains(id),
            AnchorKind::Bookmark => r.bookmarks.contains(id),
            AnchorKind::Link => r.link == Some(id),
        }
    }

    fn key(self, id: u64) -> (r: String)
        ensures
            r@ == self.key_s(id),
    {
        match self {
            AnchorKind::Comment => comment_mark_key(id),
            AnchorKind::Bookmark => bookmark_mark_key(id),
            AnchorKind::Link => link_mark_key(id),
        }
    }

    fn over(self, id: u64, r: &Run) -> (b: bool)
        ensures
            b == self.over_s(id, r@),
    {
        match self {
            AnchorKind::Comment => holds(&r.comments, id),
            AnchorKind::Bookmark => holds(&r.bookmarks, id),
            AnchorKind::Link => match r.link {
                Some(x) => x == id,
                None => false,
            },
        }
    }
}

pub(crate) fn holds(v: &Vec<u64>, id: u64) -> (r: bool)
    ensures
        r == v@.contains(id),
{
    let mut i: usize = 0;
    while i < v.len()
        invariant
            i <= v@.len(),
            forall|j: int| 0 <= j < i ==> v@[j] != id,
        decreases v@.len() - i,
    {
        if v[i] == id {
            return true;
        }
        i = i + 1;
    }
    false
}

/// Whether an anchor reaches over some of the runs.
pub open spec fn anchored_s(k: AnchorKind, id: u64, v: Seq<RunV>) -> bool {
    exists|i: int| 0 <= i < v.len() && k.over_s(id, #[trigger] v[i])
}

fn anchored(k: AnchorKind, id: u64, v: &Vec<Run>) -> (r: bool)
    ensures
        r == anchored_s(k, id, types::run_vs(v@)),
{
    let ghost w = types::run_vs(v@);
    let mut i: usize = 0;
    while i < v.len()
        invariant
            i <= v@.len(),
            w == types::run_vs(v@),
            forall|j: int| 0 <= j < i ==> !k.over_s(id, #[trigger] w[j]),
        decreases v@.len() - i,
    {
        assert(w[i as int] == v@[i as int]@);
        if k.over(id, &v[i]) {
            return true;
        }
        i = i + 1;
    }
    false
}

/// The characters of a block without an anchor.
pub open spec fn cleared_text_s(d: DocV, b: BlockId, k: AnchorKind, id: u64) -> Seq<CharV> {
    let v = read::runs_of_s(d, b);
    if anchored_s(k, id, v) {
        store::unmarked_s(doc::text_s(d, b), 0, import::chars_s(v) as int, k.key_s(id))
    } else {
        doc::text_s(d, b)
    }
}

/// Whether a block is among the first `n` paragraphs.
pub open spec fn listed_s(d: DocV, b: BlockId, n: int) -> bool {
    exists|i: int| 0 <= i < n && #[trigger] read::block_s(d, i) == b
}

/// Whether `e` is `d` with an anchor cleared in the first `n` paragraphs.
pub open spec fn cleared_s(d: DocV, k: AnchorKind, id: u64, n: int, e: DocV) -> bool {
    &&& e == doc::with_store_s(d, StoreV { texts: e.s.texts, plain: e.s.plain, typed: e.s.typed, anchors: e.s.anchors, ..d.s })
    &&& e.s.texts.dom() == d.s.texts.dom()
    &&& forall|b: BlockId| #[trigger]
        d.s.texts.contains_key(b) ==> doc::text_s(e, b) == (if listed_s(d, b, n) {
            cleared_text_s(d, b, k, id)
        } else {
            doc::text_s(d, b)
        })
}

/// Whether an anchor can be cleared in every paragraph that it reaches over.
pub open spec fn clear_ready_s(d: DocV, k: AnchorKind, id: u64) -> bool {
    &&& d.s.editable
    &&& forall|i: int|
        0 <= i < read::refs_s(d).len() && anchored_s(k, id, read::runs_of_s(d, #[trigger] read::block_s(d, i)))
            ==> store::worded_s(d.s, read::block_s(d, i)) && doc::text_s(d, read::block_s(d, i)).len()
            > 0 && d.s.marks.contains_key(k.key_s(id))
}

/// Whether `e` is `d` with an anchor cleared throughout.
pub open spec fn anchor_cleared_s(d: DocV, k: AnchorKind, id: u64, e: DocV) -> bool {
    cleared_s(d, k, id, read::refs_s(d).len() as int, e)
}

proof fn lemma_cleared_step(
    d: DocV,
    k: AnchorKind,
    id: u64,
    n: int,
    e: DocV,
    f: DocV,
)
    requires
        0 <= n < read::refs_s(d).len(),
        cleared_s(d, k, id, n, e),
        anchored_s(k, id, read::runs_of_s(d, read::block_s(d, n))),
        doc::only_text_s(e, f, read::block_s(d, n)),
        doc::text_s(f, read::block_s(d, n)) == store::unmarked_s(
            doc::text_s(e, read::block_s(d, n)),
            0,
            import::chars_s(read::runs_of_s(d, read::block_s(d, n))) as int,
            k.key_s(id),
        ),
    ensures
        cleared_s(d, k, id, n + 1, f),
{
    let b0 = read::block_s(d, n);
    assert(f.s.texts.dom() =~= d.s.texts.dom());
    assert(listed_s(d, b0, n + 1)) by {
        assert(read::block_s(d, n) == b0);
    }
    assert forall|b: BlockId| #[trigger] d.s.texts.contains_key(b) implies doc::text_s(f, b) == (
    if listed_s(d, b, n + 1) {
        cleared_text_s(d, b, k, id)
    } else {
        doc::text_s(d, b)
    }) by {
        if b == b0 {
            let len = import::chars_s(read::runs_of_s(d, b)) as int;
            let t = doc::text_s(d, b);
            let u = store::unmarked_s(t, 0, len, k.key_s(id));
            assert(store::unmarked_s(u, 0, len, k.key_s(id)) =~= u) by {
                assert forall|i: int| 0 <= i < u.len() implies store::unmarked_s(
                    u,
                    0,
                    len,
                    k.key_s(id),
                )[i] == #[trigger] u[i] by {
                    assert(u[i].attrs.remove(k.key_s(id)) =~= u[i].attrs || i >= len);
                }
            }
        } else {
            assert(listed_s(d, b, n + 1) == listed_s(d, b, n)) by {
                if listed_s(d, b, n + 1) {
                    let i = choose|i: int| 0 <= i < n + 1 && #[trigger] read::block_s(d, i) == b;
                    assert(i != n);
                }
                if listed_s(d, b, n) {
                    let i = choose|i: int| 0 <= i < n && #[trigger] read::block_s(d, i) == b;
                    assert(0 <= i < n + 1);
                }
            }
            assert(f.s.texts[b] == e.s.texts[b]);
        }
    }
}

proof fn lemma_uncleared_step(d: DocV, k: AnchorKind, id: u64, n: int, e: DocV)
    requires
        0 <= n < read::refs_s(d).len(),
        cleared_s(d, k, id, n, e),
        !anchored_s(k, id, read::runs_of_s(d, read::block_s(d, n))),
    ensures
        cleared_s(d, k, id, n + 1, e),
{
    let b0 = read::block_s(d, n);
    assert forall|b: BlockId| #[trigger] d.s.texts.contains_key(b) implies doc::text_s(e, b) == (
    if listed_s(d, b, n + 1) {
        cleared_text_s(d, b, k, id)
    } else {
        doc::text_s(d, b)
    }) by {
        if b != b0 {
            assert(listed_s(d, b, n + 1) == listed_s(d, b, n)) by {
                if listed_s(d, b, n + 1) {
                    let i = choose|i: int| 0 <= i < n + 1 && #[trigger] read::block_s(d, i) == b;
                    assert(i != n);
                }
                if listed_s(d, b, n) {
                    let i = choose|i: int| 0 <= i < n && #[trigger] read::block_s(d, i) == b;
                    assert(0 <= i < n + 1);
                }
            }
        }
    }
}

impl TextDoc {
    /// Clear an anchor wherever it is in the document.
    fn clear_anchor(&mut self, k: AnchorKind, id: u64) -> (r: Result<(), ModelError>)
        ensures
            clear_ready_s(old(self)@, k, id) ==> r is Ok,
            r is Ok ==> anchor_cleared_s(old(self)@, k, id, final(self)@),
            r matches Err(e) ==> e == ModelError::Store,
    {
        let ghost d = self@;
        let refs = self.block_seq();
        let paras = match read_paragraphs(self) {
            Ok(v) => v,
            Err(e) => {
                return Err(e);
            },
        };
        assert(types::paragraph_vs(paras@).len() == paras@.len());
        let key = k.key(id);
        let mut i: usize = 0;
        while i < refs.len()
            invariant
                i <= refs@.len(),
                refs@ == read::refs_s(d),
                paras@.len() == refs@.len(),
                types::paragraph_vs(paras@) == read::paragraphs_s(d),
                key@ == k.key_s(id),
                d == old(self)@,
                cleared_s(d, k, id, i as int, self@),
            decreases refs@.len() - i,
        {
            let ghost b = read::block_s(d, i as int);
            assert(types::paragraph_vs(paras@)[i as int] == paras@[i as int]@);
            assert(paras@[i as int]@ == read::paragraph_s(d, b));
            if anchored(k, id, &paras[i].runs) {
                let len = chars(&paras[i].runs);
                let ghost e = self@;
                proof {
                    if d.s.texts.contains_key(b) {
                        structure::lemma_chars(d, b);
                        assert(e.s.texts.contains_key(b));
                        assert(doc::text_s(e, b).len() == doc::text_s(d, b).len());
                    }
                }
                match self.unmark(refs[i].id(), 0, len, key.as_str()) {
                    Ok(()) => {},
                    Err(e) => {
                        return Err(e);
                    },
                }
                proof {
                    lemma_cleared_step(d, k, id, i as int, e, self@);
                }
            } else {
                proof {
                    lemma_uncleared_step(d, k, id, i as int, self@);
                }
            }
            i = i + 1;
        }
        Ok(())
    }
}

/// Clear a comment's marks throughout the document.
pub fn clear_comment_marks(doc: &mut TextDoc, id: u64) -> (r: Result<(), ModelError>)
    ensures
        clear_ready_s(old(doc)@, AnchorKind::Comment, id) ==> r is Ok,
        r is Ok ==> anchor_cleared_s(old(doc)@, AnchorKind::Comment, id, final(doc)@),
        r matches Err(e) ==> e == ModelError::Store,
{
    doc.clear_anchor(AnchorKind::Comment, id)
}

/// Clear a bookmark's marks throughout the document.
pub fn clear_bookmark_marks(doc: &mut TextDoc, id: u64) -> (r: Result<(), ModelError>)
    ensures
        clear_ready_s(old(doc)@, AnchorKind::Bookmark, id) ==> r is Ok,
        r is Ok ==> anchor_cleared_s(old(doc)@, AnchorKind::Bookmark, id, final(doc)@),
        r matches Err(e) ==> e == ModelError::Store,
{
    doc.clear_anchor(AnchorKind::Bookmark, id)
}

/// Clear a hyperlink's marks throughout the document.
pub fn clear_link_marks(doc: &mut TextDoc, id: u64) -> (r: Result<(), ModelError>)
    ensures
        clear_ready_s(old(doc)@, AnchorKind::Link, id) ==> r is Ok,
        r is Ok ==> anchor_cleared_s(old(doc)@, AnchorKind::Link, id, final(doc)@),
        r matches Err(e) ==> e == ModelError::Store,
{
    doc.clear_anchor(AnchorKind::Link, id)
}

// ---------------------------------------------------------------- the comments under the caret

/// Whether the run from `from` to `to` is under the caret, or ends at it.
pub open spec fn under_s(from: usize, to: usize, n: nat, off: usize) -> bool {
    (from <= off < to) || (off == to && n > 0)
}

/// Whether comment `id` is anchored under the caret by the first `n` runs.
pub open spec fn comment_under_s(v: Seq<RunV>, n: int, off: usize, id: u64) -> bool {
    exists|i: int|
        0 <= i < n && under_s(
            edits::offset_s(v, i as nat),
            edits::offset_s(v, (i + 1) as nat),
            (#[trigger] v[i]).text.len(),
            off,
        ) && v[i].comments.contains(id)
}

/// The comments anchored under the caret, ascending.
pub open spec fn comments_under_s(v: Seq<RunV>, off: usize) -> Seq<u64> {
    runs::ascending_s(
        Set::new(|id: u64| comment_under_s(v, v.len() as int, off, id)),
        0x1_0000_0000_0000_0000,
    )
}

/// The comments anchored at `off` of a paragraph, in the run under the caret or one that ends at
/// it, ascending. Past the last paragraph there are none.
pub fn comments_at(doc: &TextDoc, idx: usize, off: usize) -> (r: Result<Vec<u64>, ModelError>)
    ensures
        r matches Ok(v) && v@ == (if idx < read::refs_s(doc@).len() {
            comments_under_s(read::paragraphs_s(doc@)[idx as int].runs, off)
        } else {
            Seq::empty()
        }),
{
    let id = match doc.nth_block(idx) {
        Ok(id) => id,
        Err(_) => {
            return Ok(Vec::new());
        },
    };
    let para = doc.read_paragraph(id);
    Ok(comments_under(&para.runs, off))
}

/// Add ids to an ascending list.
fn add_ids(out: &mut Vec<u64>, ids: &Vec<u64>)
    requires
        runs::increasing_s(old(out)@),
    ensures
        runs::increasing_s(final(out)@),
        forall|id: u64| #[trigger]
            final(out)@.contains(id) == (old(out)@.contains(id) || ids@.contains(id)),
{
    let ghost was = out@;
    let mut j: usize = 0;
    while j < ids.len()
        invariant
            j <= ids@.len(),
            runs::increasing_s(out@),
            forall|id: u64| #[trigger]
                out@.contains(id) == (was.contains(id) || ids@.take(j as int).contains(id)),
        decreases ids@.len() - j,
    {
        let ghost before = out@;
        runs::insert_sorted(out, ids[j]);
        proof {
            let t = ids@.take(j as int);
            let t1 = ids@.take(j as int + 1);
            assert(t1 =~= t.push(ids@[j as int]));
            assert forall|id: u64| #[trigger] out@.contains(id) == (was.contains(id)
                || t1.contains(id)) by {
                assert(out@.contains(id) == (before.contains(id) || id == ids@[j as int]));
                if t.contains(id) {
                    assert(t1[t.index_of(id)] == id);
                }
                if id == ids@[j as int] {
                    assert(t1[j as int] == id);
                }
                if t1.contains(id) {
                    let q = t1.index_of(id);
                    if q < j {
                        assert(t[q] == id);
                    }
                }
            }
        }
        j = j + 1;
    }
    assert(ids@.take(ids@.len() as int) =~= ids@);
}

proof fn lemma_under_step(w: Seq<RunV>, i: int, off: usize, id: u64)
    requires
        0 <= i < w.len(),
    ensures
        comment_under_s(w, i + 1, off, id) == (comment_under_s(w, i, off, id) || (under_s(
            edits::offset_s(w, i as nat),
            edits::offset_s(w, (i + 1) as nat),
            w[i].text.len(),
            off,
        ) && w[i].comments.contains(id))),
{
    if comment_under_s(w, i, off, id) {
        let q = choose|q: int|
            0 <= q < i && under_s(
                edits::offset_s(w, q as nat),
                edits::offset_s(w, (q + 1) as nat),
                (#[trigger] w[q]).text.len(),
                off,
            ) && w[q].comments.contains(id);
        assert(0 <= q < i + 1);
    }
    if comment_under_s(w, i + 1, off, id) {
        let q = choose|q: int|
            0 <= q < i + 1 && under_s(
                edits::offset_s(w, q as nat),
                edits::offset_s(w, (q + 1) as nat),
                (#[trigger] w[q]).text.len(),
                off,
            ) && w[q].comments.contains(id);
        if q < i {
            assert(comment_under_s(w, i, off, id));
        }
    }
}

fn comments_under(v: &Vec<Run>, off: usize) -> (r: Vec<u64>)
    ensures
        r@ == comments_under_s(types::run_vs(v@), off),
{
    let ghost w = types::run_vs(v@);
    let mut out: Vec<u64> = Vec::new();
    let mut pos: usize = 0;
    let mut i: usize = 0;
    while i < v.len()
        invariant
            i <= v@.len(),
            w == types::run_vs(v@),
            pos == edits::offset_s(w, i as nat),
            runs::increasing_s(out@),
            forall|id: u64| #[trigger] out@.contains(id) == comment_under_s(w, i as int, off, id),
        decreases v@.len() - i,
    {
        assert(w[i as int] == v@[i as int]@);
        proof {
            edits::lemma_offset(w, i as nat);
        }
        let n = v[i].text.as_str().unicode_len();
        let end = advance(pos, n);
        let ghost was = out@;
        let hit = (pos <= off && off < end) || (off == end && n > 0);
        if hit {
            add_ids(&mut out, &v[i].comments);
        }
        proof {
            assert forall|id: u64| #[trigger] out@.contains(id) == comment_under_s(
                w,
                i + 1,
                off,
                id,
            ) by {
                assert(was.contains(id) == comment_under_s(w, i as int, off, id));
                lemma_under_step(w, i as int, off, id);
            }
        }
        pos = end;
        i = i + 1;
    }
    proof {
        let s = Set::new(|id: u64| comment_under_s(w, w.len() as int, off, id));
        assert(forall|id: u64| s.contains(id) <==> out@.contains(id));
        runs::lemma_ascending(out@, s, out@.len() as int, 0x1_0000_0000_0000_0000);
        assert(out@.take(out@.len() as int) =~= out@);
    }
    out
}

} // verus!
