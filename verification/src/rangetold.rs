//! The ends of ranges read back from the markers that they are written as.

use vstd::prelude::*;
use crate::events;
use crate::events::XmlTagV;
use crate::hearing;
use crate::import;
use crate::import::{AnchorReaderV, CommentAnchor, DocReaderV, Mark};
use crate::markup;
use crate::markup::Piece;
use crate::names;
use crate::strs;
use crate::xml;

verus! {

broadcast use vstd::string::group_string_axioms;

// ---------------------------------------------------------------- the markers

pub open spec fn id_tag_s(name: Seq<char>, id: u64) -> XmlTagV {
    markup::tag_s(name, seq![("w:id"@, strs::dec_s(id as nat))])
}

proof fn lemma_id_tag(name: Seq<char>, id: u64, pre: Seq<char>)
    requires
        pre == "<"@ + name + (" "@ + "w:id"@ + "=\""@),
    ensures
        xml::num_s(pre, id as nat, "\"/>"@) == markup::piece_text_s(Piece::Bare(id_tag_s(name, id))),
        events::attr_u64_s(id_tag_s(name, id), "w:id"@) == Some(id),
        id_tag_s(name, id).name == name,
{
    let d = strs::dec_s(id as nat);
    let e = Seq::<(Seq<char>, Seq<char>)>::empty();
    markup::lemma_no_attrs(name);
    markup::lemma_attrs_push(name, e, "w:id"@, d);
    assert(e.push(("w:id"@, d)) =~= seq![("w:id"@, d)]);
    markup::lemma_attr(name, seq![("w:id"@, d)]);
    reveal_with_fuel(markup::value_s, 3);
    markup::lemma_esc_dec(id as nat);
    strs::lemma_dec_parses(id as nat, u64::MAX as nat);
    let x = "<"@ + name;
    let y = " "@ + "w:id"@ + "=\""@;
    let q = "\""@;
    let em = Seq::<char>::empty();
    assert("\"/>"@ =~= q + "/>"@) by {
        reveal_strlit("\"/>");
        reveal_strlit("\"");
        reveal_strlit("/>");
    }
    assert((x + y) + d + (q + "/>"@) =~= x + (em + (y + d + q)) + "/>"@);
}

proof fn lemma_marker_lits()
    ensures
        "<w:commentRangeStart w:id=\""@ == "<"@ + "w:commentRangeStart"@ + (" "@ + "w:id"@ + "=\""@),
        "<w:commentRangeEnd w:id=\""@ == "<"@ + "w:commentRangeEnd"@ + (" "@ + "w:id"@ + "=\""@),
        "<w:bookmarkEnd w:id=\""@ == "<"@ + "w:bookmarkEnd"@ + (" "@ + "w:id"@ + "=\""@),
{
    reveal_strlit("<w:commentRangeStart w:id=\"");
    reveal_strlit("<w:commentRangeEnd w:id=\"");
    reveal_strlit("<w:bookmarkEnd w:id=\"");
    reveal_strlit("<");
    reveal_strlit("w:commentRangeStart");
    reveal_strlit("w:commentRangeEnd");
    reveal_strlit("w:bookmarkEnd");
    reveal_strlit(" ");
    reveal_strlit("w:id");
    reveal_strlit("=\"");
    assert("<w:commentRangeStart w:id=\""@ =~= "<"@ + "w:commentRangeStart"@ + (" "@ + "w:id"@ + "=\""@));
    assert("<w:commentRangeEnd w:id=\""@ =~= "<"@ + "w:commentRangeEnd"@ + (" "@ + "w:id"@ + "=\""@));
    assert("<w:bookmarkEnd w:id=\""@ =~= "<"@ + "w:bookmarkEnd"@ + (" "@ + "w:id"@ + "=\""@));
}

proof fn lemma_hear_marker(s: DocReaderV, t: XmlTagV, id: u64)
    requires
        s.para.in_para,
        t.name == "w:commentRangeStart"@ || t.name == "w:commentRangeEnd"@ || t.name == "w:bookmarkEnd"@,
        events::attr_u64_s(t, "w:id"@) == Some(id),
    ensures
        hearing::fits_s(s, Piece::Bare(t)),
        hearing::hear_s(s, Piece::Bare(t)) == (DocReaderV {
            marks: if t.name == "w:commentRangeStart"@ {
                AnchorReaderV {
                    comment_starts: s.marks.comment_starts.push(
                        Mark { id, para: s.marks.appended, off: import::chars_s(s.para.segs) },
                    ),
                    ..s.marks
                }
            } else if t.name == "w:commentRangeEnd"@ {
                AnchorReaderV {
                    comment_ends: s.marks.comment_ends.push(
                        Mark { id, para: s.marks.appended, off: import::chars_s(s.para.segs) },
                    ),
                    ..s.marks
                }
            } else {
                AnchorReaderV {
                    bookmark_ends: s.marks.bookmark_ends.push(
                        Mark { id, para: s.marks.appended, off: import::chars_s(s.para.segs) },
                    ),
                    ..s.marks
                }
            },
            ..s
        }),
{
    reveal(hearing::hear_s);
    names::lemma_codes();
}

/// Whether markup `v` is one marker, and reading it takes the reader to `e`.
pub open spec fn marker_back_s(
    pre: Seq<char>,
    id: u64,
    s: DocReaderV,
    v: Seq<Piece>,
    e: DocReaderV,
) -> bool {
    &&& markup::spells_s(v, xml::num_s(pre, id as nat, "\"/>"@))
    &&& hearing::reads_s(s, v, e)
}

/// The place that the reader has come to: the paragraph by its number in the document, and the
/// characters of it that were read.
pub open spec fn place_s(s: DocReaderV, id: u64) -> Mark {
    Mark { id, para: s.marks.appended, off: import::chars_s(s.para.segs) }
}

proof fn lemma_marker(name: Seq<char>, pre: Seq<char>, id: u64, s: DocReaderV) -> (o: (Seq<Piece>, DocReaderV))
    requires
        s.skip is None,
        s.para.in_para,
        name == "w:commentRangeStart"@ || name == "w:commentRangeEnd"@ || name == "w:bookmarkEnd"@,
        pre == "<"@ + name + (" "@ + "w:id"@ + "=\""@),
    ensures
        marker_back_s(pre, id, s, o.0, o.1),
        o.1 == hearing::hear_s(s, Piece::Bare(id_tag_s(name, id))),
{
    lemma_id_tag(name, id, pre);
    let t = id_tag_s(name, id);
    lemma_hear_marker(s, t, id);
    let q = Piece::Bare(t);
    let e = hearing::hear_s(s, q);
    hearing::lemma_takes_one(s, q);
    markup::lemma_spell_one(q);
    hearing::lemma_reads(s, seq![q], e);
    (seq![q], e)
}

/// The markers of ranges are read as the places where they stand: the start marker of a comment as its
/// start, its end marker as its end, and the end marker of a bookmark as the end of that, each under its
/// id.
pub proof fn law_range_markers_say_where_they_stand(s: DocReaderV, id: u64)
    requires
        s.skip is None,
        s.para.in_para,
    ensures
        exists|v: Seq<Piece>, e: DocReaderV| #[trigger]
            marker_back_s("<w:commentRangeStart w:id=\""@, id, s, v, e) && e == (DocReaderV {
                marks: AnchorReaderV {
                    comment_starts: s.marks.comment_starts.push(place_s(s, id)),
                    ..s.marks
                },
                ..s
            }),
        exists|v: Seq<Piece>, e: DocReaderV| #[trigger]
            marker_back_s("<w:commentRangeEnd w:id=\""@, id, s, v, e) && e == (DocReaderV {
                marks: AnchorReaderV {
                    comment_ends: s.marks.comment_ends.push(place_s(s, id)),
                    ..s.marks
                },
                ..s
            }),
        exists|v: Seq<Piece>, e: DocReaderV| #[trigger]
            marker_back_s("<w:bookmarkEnd w:id=\""@, id, s, v, e) && e == (DocReaderV {
                marks: AnchorReaderV {
                    bookmark_ends: s.marks.bookmark_ends.push(place_s(s, id)),
                    ..s.marks
                },
                ..s
            }),
{
    lemma_marker_lits();
    names::lemma_codes();
    let a = lemma_marker("w:commentRangeStart"@, "<w:commentRangeStart w:id=\""@, id, s);
    let b = lemma_marker("w:commentRangeEnd"@, "<w:commentRangeEnd w:id=\""@, id, s);
    let c = lemma_marker("w:bookmarkEnd"@, "<w:bookmarkEnd w:id=\""@, id, s);
    lemma_id_tag("w:commentRangeStart"@, id, "<w:commentRangeStart w:id=\""@);
    lemma_id_tag("w:commentRangeEnd"@, id, "<w:commentRangeEnd w:id=\""@);
    lemma_id_tag("w:bookmarkEnd"@, id, "<w:bookmarkEnd w:id=\""@);
    lemma_hear_marker(s, id_tag_s("w:commentRangeStart"@, id), id);
    lemma_hear_marker(s, id_tag_s("w:commentRangeEnd"@, id), id);
    lemma_hear_marker(s, id_tag_s("w:bookmarkEnd"@, id), id);
    assert(marker_back_s("<w:commentRangeStart w:id=\""@, id, s, a.0, a.1));
    assert(marker_back_s("<w:commentRangeEnd w:id=\""@, id, s, b.0, b.1));
    assert(marker_back_s("<w:bookmarkEnd w:id=\""@, id, s, c.0, c.1));
}

// ---------------------------------------------------------------- the ranges

/// Whether end `j` is the first with this id.
pub open spec fn first_end_s(ends: Seq<Mark>, j: int, id: u64) -> bool {
    &&& 0 <= j < ends.len()
    &&& ends[j].id == id
    &&& forall|k: int| 0 <= k < j ==> (#[trigger] ends[k]).id != id
}

/// The range from a start to an end.
pub open spec fn range_s(a: Mark, b: Mark) -> CommentAnchor {
    CommentAnchor { id: a.id, start_para: a.para, start_off: a.off, end_para: b.para, end_off: b.off }
}

proof fn lemma_mark_of(ends: Seq<Mark>, id: u64, from: int, j: int)
    requires
        0 <= from <= j,
        first_end_s(ends, j, id),
    ensures
        import::mark_of_s(ends, id, from) == Some(ends[j]),
    decreases j - from,
{
    if from < j {
        assert(ends[from].id != id);
        lemma_mark_of(ends, id, from + 1, j);
    }
}

proof fn lemma_ranges(starts: Seq<Mark>, ends: Seq<Mark>, n: nat, i: int, j: int)
    requires
        0 <= i < n <= starts.len(),
        first_end_s(ends, j, starts[i].id),
    ensures
        import::comment_anchors_s(starts, ends, n).contains(range_s(starts[i], ends[j])),
    decreases n,
{
    let m = (n - 1) as nat;
    let r = import::comment_anchors_s(starts, ends, n);
    if i < m {
        lemma_ranges(starts, ends, m, i, j);
        let a = import::comment_anchors_s(starts, ends, m);
        let k = choose|k: int| 0 <= k < a.len() && a[k] == range_s(starts[i], ends[j]);
        assert(r[k] == a[k]);
    } else {
        lemma_mark_of(ends, starts[i].id, 0, j);
        assert(r[r.len() - 1] == range_s(starts[i], ends[j]));
    }
}

/// A comment's range goes from where it starts to the first end with its id.
pub proof fn law_comment_range_goes_from_start_to_end(s: DocReaderV, i: int, j: int)
    requires
        0 <= i < s.marks.comment_starts.len(),
        first_end_s(s.marks.comment_ends, j, s.marks.comment_starts[i].id),
    ensures
        import::import_of_s(s).anchors.comments.contains(
            range_s(s.marks.comment_starts[i], s.marks.comment_ends[j]),
        ),
{
    lemma_ranges(s.marks.comment_starts, s.marks.comment_ends, s.marks.comment_starts.len(), i, j);
}

} // verus!
