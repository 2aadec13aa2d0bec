//! What is written of runs reads back, character by character.

use vstd::prelude::*;
use crate::doc;
use crate::doc::DocV;
use crate::props;
use crate::read;
use crate::readback;
use crate::runs;
use crate::search;
use crate::store;
use crate::store::{BlockId, CharV, PropsV, ScalarV, SegV};
use crate::types::{FormatChangeV, RunV, TrackKind, TrackV};
use crate::writing;
use crate::writing::MarkV;

verus! {

broadcast use vstd::string::group_string_axioms;

// ---------------------------------------------------------------- the attributes of a run

/// The attributes with the first `n` marks set.
pub open spec fn with_marks_s(m: PropsV, marks: Seq<MarkV>, n: nat) -> PropsV
    decreases n,
{
    if n == 0 {
        m
    } else {
        with_marks_s(m, marks, (n - 1) as nat).insert(marks[n - 1].0, marks[n - 1].1)
    }
}

/// The attributes that a run is written with.
pub open spec fn attrs_s(r: RunV) -> PropsV {
    with_marks_s(store::no_props_s(), writing::run_marks_s(r), writing::run_marks_s(r).len())
}

proof fn lemma_same_marks(m: PropsV, v: Seq<MarkV>, w: Seq<MarkV>, n: nat)
    requires
        n <= v.len(),
        n <= w.len(),
        forall|i: int| 0 <= i < n ==> v[i] == w[i],
    ensures
        with_marks_s(m, v, n) == with_marks_s(m, w, n),
    decreases n,
{
    if n > 0 {
        lemma_same_marks(m, v, w, (n - 1) as nat);
    }
}

/// The attributes with all of the marks set.
spec fn all_s(v: Seq<MarkV>) -> PropsV {
    with_marks_s(store::no_props_s(), v, v.len())
}

proof fn lemma_push(v: Seq<MarkV>, x: MarkV)
    ensures
        all_s(v.push(x)) == all_s(v).insert(x.0, x.1),
{
    lemma_same_marks(store::no_props_s(), v, v.push(x), v.len());
}

spec fn track_edit_s(o: Option<TrackV>, k: TrackKind) -> Option<ScalarV> {
    match o {
        Some(t) => if t.kind == k {
            Some(ScalarV::Text(writing::track_value_s(t)))
        } else {
            None
        },
        None => None,
    }
}

spec fn fmt_edit_s(o: Option<FormatChangeV>) -> Option<ScalarV> {
    match o {
        Some(c) => Some(ScalarV::Text(writing::fmt_value_s(c))),
        None => None,
    }
}

/// What each attribute is for a run.
spec fn run_edits_s(r: RunV) -> Seq<(Seq<char>, Option<ScalarV>)> {
    seq![
        ("b"@, props::set_edit_s(r.bold)),
        ("i"@, props::set_edit_s(r.italic)),
        ("u"@, props::set_edit_s(r.underline)),
        ("strike"@, props::set_edit_s(r.strike)),
        ("sz"@, props::size_edit_s(r.size)),
        ("color"@, props::text_edit_s(r.color)),
        ("font"@, props::text_edit_s(r.font)),
        ("hl"@, props::text_edit_s(r.highlight)),
        ("va"@, props::text_edit_s(r.vert_align)),
        ("lang"@, props::text_edit_s(r.lang)),
        ("rstyle"@, props::text_edit_s(r.char_style)),
        ("rshd"@, props::text_edit_s(r.shading)),
        ("ins"@, track_edit_s(r.track, TrackKind::Ins)),
        ("del"@, track_edit_s(r.track, TrackKind::Del)),
        ("mvf"@, track_edit_s(r.track, TrackKind::MoveFrom)),
        ("mvt"@, track_edit_s(r.track, TrackKind::MoveTo)),
        ("rfmt"@, fmt_edit_s(r.fmt_change)),
    ]
}

/// The marks of a run but for those of its ranges.
spec fn own_marks_s(r: RunV) -> Seq<MarkV> {
    writing::mark_fmt_s(writing::mark_track_s(writing::format_marks_s(r), r.track), r.fmt_change)
}

/// One edit, where it is set.
spec fn put_s(m: PropsV, k: Seq<char>, o: Option<ScalarV>) -> PropsV {
    match o {
        Some(x) => m.insert(k, x),
        None => m,
    }
}

proof fn lemma_if(v: Seq<MarkV>, k: Seq<char>, b: bool)
    ensures
        all_s(writing::mark_if_s(v, k, b)) == put_s(all_s(v), k, props::set_edit_s(b)),
{
    lemma_push(v, (k, ScalarV::Bool(true)));
}

proof fn lemma_text(v: Seq<MarkV>, k: Seq<char>, o: Option<Seq<char>>)
    ensures
        all_s(writing::mark_text_s(v, k, o)) == put_s(all_s(v), k, props::text_edit_s(o)),
{
    if o is Some {
        lemma_push(v, (k, ScalarV::Text(o->0)));
    }
}

/// Whether a revision is of a kind that text can have.
pub open spec fn of_text_s(o: Option<TrackV>) -> bool {
    o matches Some(t) ==> !(t.kind is Fmt)
}

proof fn lemma_track_marks(v: Seq<MarkV>, o: Option<TrackV>)
    requires
        of_text_s(o),
    ensures
        ({
            let a = put_s(all_s(v), "ins"@, track_edit_s(o, TrackKind::Ins));
            let b = put_s(a, "del"@, track_edit_s(o, TrackKind::Del));
            let c = put_s(b, "mvf"@, track_edit_s(o, TrackKind::MoveFrom));
            all_s(writing::mark_track_s(v, o)) == put_s(
                c,
                "mvt"@,
                track_edit_s(o, TrackKind::MoveTo),
            )
        }),
{
    if o is Some {
        let t = o->0;
        lemma_push(v, (t.kind.mark_key_s(), ScalarV::Text(writing::track_value_s(t))));
    }
}

proof fn lemma_format_marks(r: RunV)
    ensures
        all_s(writing::format_marks_s(r)) == props::edited_s(
            store::no_props_s(),
            run_edits_s(r),
            false,
            12,
        ),
{
    let e = run_edits_s(r);
    let n = store::no_props_s();
    let v0 = Seq::<MarkV>::empty();
    assert(props::edited_s(n, e, false, 0) == n);
    let v1 = writing::mark_if_s(v0, "b"@, r.bold);
    lemma_if(v0, "b"@, r.bold);
    assert(e[0] == ("b"@, props::set_edit_s(r.bold)));
    assert(all_s(v1) == props::edited_s(n, e, false, 1));
    let v2 = writing::mark_if_s(v1, "i"@, r.italic);
    lemma_if(v1, "i"@, r.italic);
    assert(e[1] == ("i"@, props::set_edit_s(r.italic)));
    assert(all_s(v2) == props::edited_s(n, e, false, 2));
    let v3 = writing::mark_if_s(v2, "u"@, r.underline);
    lemma_if(v2, "u"@, r.underline);
    assert(e[2] == ("u"@, props::set_edit_s(r.underline)));
    assert(all_s(v3) == props::edited_s(n, e, false, 3));
    let v4 = writing::mark_if_s(v3, "strike"@, r.strike);
    lemma_if(v3, "strike"@, r.strike);
    assert(e[3] == ("strike"@, props::set_edit_s(r.strike)));
    assert(all_s(v4) == props::edited_s(n, e, false, 4));
    let v5 = writing::mark_size_s(v4, r.size);
    if r.size is Some {
        lemma_push(v4, ("sz"@, ScalarV::Int(r.size->0 as i64)));
    }
    assert(e[4] == ("sz"@, props::size_edit_s(r.size)));
    assert(all_s(v5) == props::edited_s(n, e, false, 5));
    let v6 = writing::mark_text_s(v5, "color"@, r.color);
    lemma_text(v5, "color"@, r.color);
    assert(e[5] == ("color"@, props::text_edit_s(r.color)));
    assert(all_s(v6) == props::edited_s(n, e, false, 6));
    let v7 = writing::mark_text_s(v6, "font"@, r.font);
    lemma_text(v6, "font"@, r.font);
    assert(e[6] == ("font"@, props::text_edit_s(r.font)));
    assert(all_s(v7) == props::edited_s(n, e, false, 7));
    let v8 = writing::mark_text_s(v7, "hl"@, r.highlight);
    lemma_text(v7, "hl"@, r.highlight);
    assert(e[7] == ("hl"@, props::text_edit_s(r.highlight)));
    assert(all_s(v8) == props::edited_s(n, e, false, 8));
    let v9 = writing::mark_text_s(v8, "va"@, r.vert_align);
    lemma_text(v8, "va"@, r.vert_align);
    assert(e[8] == ("va"@, props::text_edit_s(r.vert_align)));
    assert(all_s(v9) == props::edited_s(n, e, false, 9));
    let v10 = writing::mark_text_s(v9, "lang"@, r.lang);
    lemma_text(v9, "lang"@, r.lang);
    assert(e[9] == ("lang"@, props::text_edit_s(r.lang)));
    assert(all_s(v10) == props::edited_s(n, e, false, 10));
    let v11 = writing::mark_text_s(v10, "rstyle"@, r.char_style);
    lemma_text(v10, "rstyle"@, r.char_style);
    assert(e[10] == ("rstyle"@, props::text_edit_s(r.char_style)));
    assert(all_s(v11) == props::edited_s(n, e, false, 11));
    let v12 = writing::mark_text_s(v11, "rshd"@, r.shading);
    lemma_text(v11, "rshd"@, r.shading);
    assert(e[11] == ("rshd"@, props::text_edit_s(r.shading)));
    assert(all_s(v12) == props::edited_s(n, e, false, 12));
    assert(writing::format_marks_s(r) == v12);
}

proof fn lemma_own_marks(r: RunV)
    requires
        of_text_s(r.track),
    ensures
        all_s(own_marks_s(r)) == props::edited_s(store::no_props_s(), run_edits_s(r), false, 17),
{
    let e = run_edits_s(r);
    let n = store::no_props_s();
    let v = writing::format_marks_s(r);
    let w = writing::mark_track_s(v, r.track);
    lemma_format_marks(r);
    lemma_track_marks(v, r.track);
    assert(e[12] == ("ins"@, track_edit_s(r.track, TrackKind::Ins)));
    assert(e[13] == ("del"@, track_edit_s(r.track, TrackKind::Del)));
    assert(e[14] == ("mvf"@, track_edit_s(r.track, TrackKind::MoveFrom)));
    assert(e[15] == ("mvt"@, track_edit_s(r.track, TrackKind::MoveTo)));
    assert(e[16] == ("rfmt"@, fmt_edit_s(r.fmt_change)));
    let m13 = props::edited_s(n, e, false, 13);
    let m14 = props::edited_s(n, e, false, 14);
    let m15 = props::edited_s(n, e, false, 15);
    let m16 = props::edited_s(n, e, false, 16);
    assert(m13 == put_s(all_s(v), "ins"@, track_edit_s(r.track, TrackKind::Ins)));
    assert(m14 == put_s(m13, "del"@, track_edit_s(r.track, TrackKind::Del)));
    assert(m15 == put_s(m14, "mvf"@, track_edit_s(r.track, TrackKind::MoveFrom)));
    assert(m16 == put_s(m15, "mvt"@, track_edit_s(r.track, TrackKind::MoveTo)));
    assert(all_s(w) == m16);
    if r.fmt_change is Some {
        lemma_push(w, ("rfmt"@, ScalarV::Text(writing::fmt_value_s(r.fmt_change->0))));
    }
    assert(props::edited_s(n, e, false, 17) == put_s(m16, "rfmt"@, fmt_edit_s(r.fmt_change)));
}

// ---------------------------------------------------------------- names apart

/// Whether a revision is kept under this name.
pub open spec fn revision_key_s(k: Seq<char>) -> bool {
    k == "ins"@ || k == "del"@ || k == "mvf"@ || k == "mvt"@ || k == "rfmt"@
}

/// Whether none of these marks is that of a revision.
spec fn clear_s(v: Seq<MarkV>) -> bool {
    forall|i: int| 0 <= i < v.len() ==> !revision_key_s((#[trigger] v[i]).0)
}

/// No direct formatting is kept under the name of a revision.
pub(crate) proof fn lemma_format_keys(r: RunV)
    ensures
        forall|i: int|
            0 <= i < writing::format_marks_s(r).len() ==> !revision_key_s(
                (#[trigger] writing::format_marks_s(r)[i]).0,
            ),
{
    lemma_codes();
    let v = Seq::<MarkV>::empty();
    let v = writing::mark_if_s(v, "b"@, r.bold);
    assert(clear_s(v));
    let v = writing::mark_if_s(v, "i"@, r.italic);
    assert(clear_s(v));
    let v = writing::mark_if_s(v, "u"@, r.underline);
    assert(clear_s(v));
    let v = writing::mark_if_s(v, "strike"@, r.strike);
    assert(clear_s(v));
    let v = writing::mark_size_s(v, r.size);
    assert(clear_s(v));
    let v = writing::mark_text_s(v, "color"@, r.color);
    assert(clear_s(v));
    let v = writing::mark_text_s(v, "font"@, r.font);
    assert(clear_s(v));
    let v = writing::mark_text_s(v, "hl"@, r.highlight);
    assert(clear_s(v));
    let v = writing::mark_text_s(v, "va"@, r.vert_align);
    assert(clear_s(v));
    let v = writing::mark_text_s(v, "lang"@, r.lang);
    assert(clear_s(v));
    let v = writing::mark_text_s(v, "rstyle"@, r.char_style);
    assert(clear_s(v));
    let v = writing::mark_text_s(v, "rshd"@, r.shading);
    assert(clear_s(v));
}

/// Setting marks leaves what is under another name.
pub(crate) proof fn lemma_marks_leave(m: PropsV, marks: Seq<MarkV>, n: nat, k: Seq<char>)
    requires
        n <= marks.len(),
        forall|i: int| 0 <= i < n ==> (#[trigger] marks[i]).0 != k,
    ensures
        store::prop_s(with_marks_s(m, marks, n), k) == store::prop_s(m, k),
    decreases n,
{
    if n > 0 {
        lemma_marks_leave(m, marks, (n - 1) as nat, k);
        assert(marks[n - 1].0 != k);
    }
}

/// A number that tells the names of a run's attributes apart.
spec fn code_s(k: Seq<char>) -> int {
    k[0] as int + 256 * (k[k.len() - 1] as int)
}

/// How a name begins; nothing where it is too short to be that of a range.
spec fn head_s(k: Seq<char>) -> int {
    if k.len() < 4 {
        0
    } else {
        256 * (k[0] as int) + k[1] as int
    }
}

proof fn lemma_codes()
    ensures
        code_s("b"@) == 25186 && head_s("b"@) == 0,
        code_s("i"@) == 26985 && head_s("i"@) == 0,
        code_s("u"@) == 30069 && head_s("u"@) == 0,
        code_s("strike"@) == 25971 && head_s("strike"@) == 29556,
        code_s("sz"@) == 31347 && head_s("sz"@) == 0,
        code_s("color"@) == 29283 && head_s("color"@) == 25455,
        code_s("font"@) == 29798 && head_s("font"@) == 26223,
        code_s("hl"@) == 27752 && head_s("hl"@) == 0,
        code_s("va"@) == 24950 && head_s("va"@) == 0,
        code_s("lang"@) == 26476 && head_s("lang"@) == 27745,
        code_s("rstyle"@) == 25970 && head_s("rstyle"@) == 29299,
        code_s("rshd"@) == 25714 && head_s("rshd"@) == 29299,
        code_s("ins"@) == 29545 && head_s("ins"@) == 0,
        code_s("del"@) == 27748 && head_s("del"@) == 0,
        code_s("mvf"@) == 26221 && head_s("mvf"@) == 0,
        code_s("mvt"@) == 29805 && head_s("mvt"@) == 0,
        code_s("rfmt"@) == 29810 && head_s("rfmt"@) == 29286,
{
    reveal_strlit("b");
    reveal_strlit("i");
    reveal_strlit("u");
    reveal_strlit("strike");
    reveal_strlit("sz");
    reveal_strlit("color");
    reveal_strlit("font");
    reveal_strlit("hl");
    reveal_strlit("va");
    reveal_strlit("lang");
    reveal_strlit("rstyle");
    reveal_strlit("rshd");
    reveal_strlit("ins");
    reveal_strlit("del");
    reveal_strlit("mvf");
    reveal_strlit("mvt");
    reveal_strlit("rfmt");
    assert("b"@.len() == 1 && "b"@[0] == 'b' && "b"@[0] == 'b');
    assert("i"@.len() == 1 && "i"@[0] == 'i' && "i"@[0] == 'i');
    assert("u"@.len() == 1 && "u"@[0] == 'u' && "u"@[0] == 'u');
    assert("strike"@.len() == 6 && "strike"@[0] == 's' && "strike"@[5] == 'e' && "strike"@[1] == 't');
    assert("sz"@.len() == 2 && "sz"@[0] == 's' && "sz"@[1] == 'z' && "sz"@[1] == 'z');
    assert("color"@.len() == 5 && "color"@[0] == 'c' && "color"@[4] == 'r' && "color"@[1] == 'o');
    assert("font"@.len() == 4 && "font"@[0] == 'f' && "font"@[3] == 't' && "font"@[1] == 'o');
    assert("hl"@.len() == 2 && "hl"@[0] == 'h' && "hl"@[1] == 'l' && "hl"@[1] == 'l');
    assert("va"@.len() == 2 && "va"@[0] == 'v' && "va"@[1] == 'a' && "va"@[1] == 'a');
    assert("lang"@.len() == 4 && "lang"@[0] == 'l' && "lang"@[3] == 'g' && "lang"@[1] == 'a');
    assert("rstyle"@.len() == 6 && "rstyle"@[0] == 'r' && "rstyle"@[5] == 'e' && "rstyle"@[1] == 's');
    assert("rshd"@.len() == 4 && "rshd"@[0] == 'r' && "rshd"@[3] == 'd' && "rshd"@[1] == 's');
    assert("ins"@.len() == 3 && "ins"@[0] == 'i' && "ins"@[2] == 's' && "ins"@[1] == 'n');
    assert("del"@.len() == 3 && "del"@[0] == 'd' && "del"@[2] == 'l' && "del"@[1] == 'e');
    assert("mvf"@.len() == 3 && "mvf"@[0] == 'm' && "mvf"@[2] == 'f' && "mvf"@[1] == 'v');
    assert("mvt"@.len() == 3 && "mvt"@[0] == 'm' && "mvt"@[2] == 't' && "mvt"@[1] == 'v');
    assert("rfmt"@.len() == 4 && "rfmt"@[0] == 'r' && "rfmt"@[3] == 't' && "rfmt"@[1] == 'f');
}

spec fn code_at_s(i: int) -> int {
    if i == 0 {
        25186
    } else if i == 1 {
        26985
    } else if i == 2 {
        30069
    } else if i == 3 {
        25971
    } else if i == 4 {
        31347
    } else if i == 5 {
        29283
    } else if i == 6 {
        29798
    } else if i == 7 {
        27752
    } else if i == 8 {
        24950
    } else if i == 9 {
        26476
    } else if i == 10 {
        25970
    } else if i == 11 {
        25714
    } else if i == 12 {
        29545
    } else if i == 13 {
        27748
    } else if i == 14 {
        26221
    } else if i == 15 {
        29805
    } else {
        29810
    }
}

spec fn head_at_s(i: int) -> int {
    if i == 0 {
        0
    } else if i == 1 {
        0
    } else if i == 2 {
        0
    } else if i == 3 {
        29556
    } else if i == 4 {
        0
    } else if i == 5 {
        25455
    } else if i == 6 {
        26223
    } else if i == 7 {
        0
    } else if i == 8 {
        0
    } else if i == 9 {
        27745
    } else if i == 10 {
        29299
    } else if i == 11 {
        29299
    } else if i == 12 {
        0
    } else if i == 13 {
        0
    } else if i == 14 {
        0
    } else if i == 15 {
        0
    } else {
        29286
    }
}

proof fn lemma_edit_codes(r: RunV, i: int)
    requires
        0 <= i < 17,
    ensures
        code_s(run_edits_s(r)[i].0) == code_at_s(i),
        head_s(run_edits_s(r)[i].0) == head_at_s(i),
{
    lemma_codes();
    let v = run_edits_s(r);
    assert(v[0].0 == "b"@);
    assert(v[1].0 == "i"@);
    assert(v[2].0 == "u"@);
    assert(v[3].0 == "strike"@);
    assert(v[4].0 == "sz"@);
    assert(v[5].0 == "color"@);
    assert(v[6].0 == "font"@);
    assert(v[7].0 == "hl"@);
    assert(v[8].0 == "va"@);
    assert(v[9].0 == "lang"@);
    assert(v[10].0 == "rstyle"@);
    assert(v[11].0 == "rshd"@);
    assert(v[12].0 == "ins"@);
    assert(v[13].0 == "del"@);
    assert(v[14].0 == "mvf"@);
    assert(v[15].0 == "mvt"@);
    assert(v[16].0 == "rfmt"@);
}

proof fn lemma_heads()
    ensures
        head_s("cmt~"@) == 25453 && "cmt~"@.len() == 4,
        head_s("img~"@) == 26989 && "img~"@.len() == 4,
        head_s("fld~"@) == 26220 && "fld~"@.len() == 4,
        head_s("bkm~"@) == 25195 && "bkm~"@.len() == 4,
        head_s("bkp~"@) == 25195 && "bkp~"@.len() == 4,
        head_s("bkpe~"@) == 25195 && "bkpe~"@.len() == 5,
        head_s("lnk~"@) == 27758 && "lnk~"@.len() == 4,
        head_s("raw~"@) == 29281 && "raw~"@.len() == 4,
{
    reveal_strlit("cmt~");
    reveal_strlit("img~");
    reveal_strlit("fld~");
    reveal_strlit("bkm~");
    reveal_strlit("bkp~");
    reveal_strlit("bkpe~");
    reveal_strlit("lnk~");
    reveal_strlit("raw~");
    assert("cmt~"@.len() == 4 && "cmt~"@[0] == 'c' && "cmt~"@[1] == 'm');
    assert("img~"@.len() == 4 && "img~"@[0] == 'i' && "img~"@[1] == 'm');
    assert("fld~"@.len() == 4 && "fld~"@[0] == 'f' && "fld~"@[1] == 'l');
    assert("bkm~"@.len() == 4 && "bkm~"@[0] == 'b' && "bkm~"@[1] == 'k');
    assert("bkp~"@.len() == 4 && "bkp~"@[0] == 'b' && "bkp~"@[1] == 'k');
    assert("bkpe~"@.len() == 5 && "bkpe~"@[0] == 'b' && "bkpe~"@[1] == 'k');
    assert("lnk~"@.len() == 4 && "lnk~"@[0] == 'l' && "lnk~"@[1] == 'n');
    assert("raw~"@.len() == 4 && "raw~"@[0] == 'r' && "raw~"@[1] == 'a');
}

/// A name that starts with that of a kind of range begins as it does.
proof fn lemma_starts(k: Seq<char>, prefix: Seq<char>, id: u64)
    requires
        runs::mark_id_s(k, prefix) == Some(id),
        prefix.len() >= 4,
    ensures
        head_s(k) == head_s(prefix),
{
    assert(search::starts_s(k, prefix));
    assert(k.subrange(0, prefix.len() as int)[0] == k[0]);
    assert(k.subrange(0, prefix.len() as int)[1] == k[1]);
}

proof fn lemma_range_head(prefix: Seq<char>, id: u64)
    requires
        prefix.len() >= 4,
    ensures
        head_s(runs::mark_key_s(prefix, id)) == head_s(prefix),
{
}

/// What edits leave is what they name.
proof fn lemma_edited_names(v: Seq<(Seq<char>, Option<ScalarV>)>, n: nat, k: Seq<char>)
    requires
        n <= v.len(),
        props::edited_s(store::no_props_s(), v, false, n).contains_key(k),
    ensures
        exists|i: int| 0 <= i < n && (#[trigger] v[i]).0 == k,
    decreases n,
{
    if n > 0 {
        let r = props::edited_s(store::no_props_s(), v, false, (n - 1) as nat);
        if v[n - 1].0 == k {
        } else {
            assert(r.contains_key(k));
            lemma_edited_names(v, (n - 1) as nat, k);
        }
    }
}

// ---------------------------------------------------------------- reading the attributes

/// Whether an attribute is that of a comment of the run.
spec fn comment_key_s(ids: Seq<u64>, n: nat, k: Seq<char>) -> bool {
    exists|i: int| 0 <= i < n && runs::mark_key_s("cmt~"@, #[trigger] ids[i]) == k
}

proof fn lemma_comment_marks(v: Seq<MarkV>, ids: Seq<u64>, n: nat, k: Seq<char>)
    requires
        n <= ids.len(),
    ensures
        store::prop_s(all_s(writing::mark_comments_s(v, ids, n)), k) == (if comment_key_s(
            ids,
            n,
            k,
        ) {
            Some(ScalarV::Bool(true))
        } else {
            store::prop_s(all_s(v), k)
        }),
    decreases n,
{
    if n > 0 {
        let w = writing::mark_comments_s(v, ids, (n - 1) as nat);
        lemma_comment_marks(v, ids, (n - 1) as nat, k);
        lemma_push(w, (runs::mark_key_s("cmt~"@, ids[n - 1]), ScalarV::Bool(true)));
        if comment_key_s(ids, (n - 1) as nat, k) {
            let i = choose|i: int| 0 <= i < n - 1 && runs::mark_key_s("cmt~"@, #[trigger] ids[i]) == k;
            assert(0 <= i < n && runs::mark_key_s("cmt~"@, ids[i]) == k);
        }
        if comment_key_s(ids, n, k) && !comment_key_s(ids, (n - 1) as nat, k) {
            let i = choose|i: int| 0 <= i < n && runs::mark_key_s("cmt~"@, #[trigger] ids[i]) == k;
            assert(i == n - 1);
        }
        if runs::mark_key_s("cmt~"@, ids[n - 1]) == k {
            assert(comment_key_s(ids, n, k));
        }
    }
}

spec fn image_key_s(o: Option<u64>, k: Seq<char>) -> bool {
    o matches Some(id) && runs::mark_key_s("img~"@, id) == k
}

/// What one attribute of a run is.
proof fn lemma_attr(r: RunV, k: Seq<char>)
    requires
        of_text_s(r.track),
    ensures
        store::prop_s(attrs_s(r), k) == (if image_key_s(r.image, k) || comment_key_s(
            r.comments,
            r.comments.len(),
            k,
        ) {
            Some(ScalarV::Bool(true))
        } else {
            store::prop_s(props::edited_s(store::no_props_s(), run_edits_s(r), false, 17), k)
        }),
{
    let v = own_marks_s(r);
    let w = writing::mark_comments_s(v, r.comments, r.comments.len());
    lemma_own_marks(r);
    lemma_comment_marks(v, r.comments, r.comments.len(), k);
    if r.image is Some {
        lemma_push(w, (runs::mark_key_s("img~"@, r.image->0), ScalarV::Bool(true)));
    }
    assert(attrs_s(r) == all_s(writing::mark_image_s(w, r.image)));
}

proof fn lemma_plain(r: RunV, i: int)
    requires
        of_text_s(r.track),
        0 <= i < 17,
    ensures
        store::prop_s(attrs_s(r), run_edits_s(r)[i].0) == run_edits_s(r)[i].1,
{
    let v = run_edits_s(r);
    let k = v[i].0;
    lemma_attr(r, k);
    lemma_edit_codes(r, i);
    lemma_heads();
    if image_key_s(r.image, k) {
        lemma_range_head("img~"@, r.image->0);
    }
    if comment_key_s(r.comments, r.comments.len(), k) {
        let j = choose|j: int|
            0 <= j < r.comments.len() && runs::mark_key_s("cmt~"@, #[trigger] r.comments[j]) == k;
        lemma_range_head("cmt~"@, r.comments[j]);
    }
    assert forall|j: int| 0 <= j < v.len() && j != i implies (#[trigger] v[j]).0 != v[i].0 by {
        lemma_edit_codes(r, j);
    }
    readback::lemma_edited(store::no_props_s(), v, false, i, 17);
}

/// Which ranges of one kind the attributes of a run name.
proof fn lemma_named(r: RunV, prefix: Seq<char>, id: u64)
    requires
        of_text_s(r.track),
        prefix.len() >= 4,
        forall|i: int| 0 <= i < 17 ==> head_s(prefix) != #[trigger] head_at_s(i),
    ensures
        runs::names_s(attrs_s(r), prefix, id) ==> ({
            ||| prefix == "cmt~"@ && r.comments.contains(id)
            ||| prefix == "img~"@ && r.image == Some(id)
            ||| head_s(prefix) == head_s("cmt~"@) && prefix != "cmt~"@
            ||| head_s(prefix) == head_s("img~"@) && prefix != "img~"@
        }),
{
    let a = attrs_s(r);
    if runs::names_s(a, prefix, id) {
        let k = choose|k: Seq<char>| #[trigger]
            a.contains_key(k) && runs::mark_id_s(k, prefix) == Some(id) && runs::is_set_s(a[k]);
        lemma_starts(k, prefix, id);
        lemma_attr(r, k);
        lemma_heads();
        if image_key_s(r.image, k) {
            lemma_range_head("img~"@, r.image->0);
            if prefix == "img~"@ {
                runs::law_mark_keys_carry_their_id(prefix, r.image->0, 0);
            }
        } else if comment_key_s(r.comments, r.comments.len(), k) {
            let j = choose|j: int|
                0 <= j < r.comments.len() && runs::mark_key_s("cmt~"@, #[trigger] r.comments[j])
                    == k;
            lemma_range_head("cmt~"@, r.comments[j]);
            if prefix == "cmt~"@ {
                runs::law_mark_keys_carry_their_id(prefix, r.comments[j], 0);
            }
        } else {
            assert(props::edited_s(store::no_props_s(), run_edits_s(r), false, 17).contains_key(k));
            lemma_edited_names(run_edits_s(r), 17, k);
            let i = choose|i: int| 0 <= i < 17 && (#[trigger] run_edits_s(r)[i]).0 == k;
            lemma_edit_codes(r, i);
            assert(head_s(prefix) != head_at_s(i));
        }
    }
}

proof fn lemma_no_ids(r: RunV, prefix: Seq<char>)
    requires
        of_text_s(r.track),
        prefix == "fld~"@ || prefix == "bkm~"@ || prefix == "bkp~"@ || prefix == "bkpe~"@ || prefix
            == "lnk~"@ || prefix == "raw~"@,
    ensures
        runs::ids_s(attrs_s(r), prefix) == Seq::<u64>::empty(),
        runs::id_s(attrs_s(r), prefix) is None,
{
    lemma_heads();
    let s = runs::id_set_s(attrs_s(r), prefix);
    let none = Seq::<u64>::empty();
    assert forall|x: u64| s.contains(x) <==> none.contains(x) by {
        if s.contains(x) {
            assert(runs::names_s(attrs_s(r), prefix, x));
            lemma_named(r, prefix, x);
        }
    }
    runs::lemma_ascending(none, s, 0, 0x1_0000_0000_0000_0000);
    assert(none.take(0) =~= none);
}

/// The comments of a run, each once and ascending.
pub open spec fn sorted_ids_s(v: Seq<u64>) -> Seq<u64> {
    runs::ascending_s(Set::new(|x: u64| v.contains(x)), 0x1_0000_0000_0000_0000)
}

proof fn lemma_comments(r: RunV)
    requires
        of_text_s(r.track),
    ensures
        runs::ids_s(attrs_s(r), "cmt~"@) == sorted_ids_s(r.comments),
{
    lemma_heads();
    let a = attrs_s(r);
    let s = runs::id_set_s(a, "cmt~"@);
    let t = Set::new(|x: u64| r.comments.contains(x));
    assert forall|x: u64| s.contains(x) == t.contains(x) by {
        lemma_named(r, "cmt~"@, x);
        if r.comments.contains(x) {
            let i = choose|i: int| 0 <= i < r.comments.len() && r.comments[i] == x;
            let k = runs::mark_key_s("cmt~"@, x);
            runs::law_mark_keys_carry_their_id("cmt~"@, x, 0);
            lemma_attr(r, k);
            assert(runs::mark_key_s("cmt~"@, r.comments[i]) == k);
            assert(a.contains_key(k) && runs::is_set_s(a[k]));
            assert(runs::names_s(a, "cmt~"@, x));
        }
        if s.contains(x) {
            assert(runs::names_s(a, "cmt~"@, x));
        }
    }
    assert(s =~= t);
}

proof fn lemma_image(r: RunV)
    requires
        of_text_s(r.track),
    ensures
        runs::id_s(attrs_s(r), "img~"@) == r.image,
{
    lemma_heads();
    let a = attrs_s(r);
    let s = runs::id_set_s(a, "img~"@);
    let v = if r.image is Some {
        seq![r.image->0]
    } else {
        Seq::empty()
    };
    assert forall|x: u64| s.contains(x) <==> v.contains(x) by {
        lemma_named(r, "img~"@, x);
        if s.contains(x) {
            assert(runs::names_s(a, "img~"@, x));
            assert(v[0] == x);
        }
        if v.contains(x) {
            let k = runs::mark_key_s("img~"@, x);
            runs::law_mark_keys_carry_their_id("img~"@, x, 0);
            lemma_attr(r, k);
            assert(a.contains_key(k) && runs::is_set_s(a[k]));
            assert(runs::names_s(a, "img~"@, x));
        }
    }
    if r.image is Some {
        assert(v[0] < 0x1_0000_0000_0000_0000);
    }
    runs::lemma_ascending(v, s, v.len() as int, 0x1_0000_0000_0000_0000);
    assert(v.take(v.len() as int) =~= v);
}

/// What is kept of a run where it is written: its comments each once and ascending, and none of
/// the ranges that are marked once the text stands.
pub open spec fn settled_s(r: RunV) -> RunV {
    RunV {
        comments: sorted_ids_s(r.comments),
        field: None,
        bookmarks: Seq::empty(),
        point_bookmarks: Seq::empty(),
        end_point_bookmarks: Seq::empty(),
        link: None,
        raw: None,
        ..r
    }
}

/// Whether attributes are exactly those of a run but for its ranges.
spec fn formats_s(a: PropsV, r: RunV) -> bool {
    &&& store::prop_s(a, "b"@) == props::set_edit_s(r.bold)
    &&& store::prop_s(a, "i"@) == props::set_edit_s(r.italic)
    &&& store::prop_s(a, "u"@) == props::set_edit_s(r.underline)
    &&& store::prop_s(a, "strike"@) == props::set_edit_s(r.strike)
    &&& store::prop_s(a, "sz"@) == props::size_edit_s(r.size)
    &&& store::prop_s(a, "color"@) == props::text_edit_s(r.color)
    &&& store::prop_s(a, "font"@) == props::text_edit_s(r.font)
    &&& store::prop_s(a, "hl"@) == props::text_edit_s(r.highlight)
    &&& store::prop_s(a, "va"@) == props::text_edit_s(r.vert_align)
    &&& store::prop_s(a, "lang"@) == props::text_edit_s(r.lang)
    &&& store::prop_s(a, "rstyle"@) == props::text_edit_s(r.char_style)
    &&& store::prop_s(a, "rshd"@) == props::text_edit_s(r.shading)
    &&& store::prop_s(a, "ins"@) == track_edit_s(r.track, TrackKind::Ins)
    &&& store::prop_s(a, "del"@) == track_edit_s(r.track, TrackKind::Del)
    &&& store::prop_s(a, "mvf"@) == track_edit_s(r.track, TrackKind::MoveFrom)
    &&& store::prop_s(a, "mvt"@) == track_edit_s(r.track, TrackKind::MoveTo)
    &&& store::prop_s(a, "rfmt"@) == fmt_edit_s(r.fmt_change)
}

proof fn lemma_formats(r: RunV)
    requires
        of_text_s(r.track),
    ensures
        formats_s(attrs_s(r), r),
{
    let v = run_edits_s(r);
    lemma_plain(r, 0);
    assert(v[0] == ("b"@, props::set_edit_s(r.bold)));
    lemma_plain(r, 1);
    assert(v[1] == ("i"@, props::set_edit_s(r.italic)));
    lemma_plain(r, 2);
    assert(v[2] == ("u"@, props::set_edit_s(r.underline)));
    lemma_plain(r, 3);
    assert(v[3] == ("strike"@, props::set_edit_s(r.strike)));
    lemma_plain(r, 4);
    assert(v[4] == ("sz"@, props::size_edit_s(r.size)));
    lemma_plain(r, 5);
    assert(v[5] == ("color"@, props::text_edit_s(r.color)));
    lemma_plain(r, 6);
    assert(v[6] == ("font"@, props::text_edit_s(r.font)));
    lemma_plain(r, 7);
    assert(v[7] == ("hl"@, props::text_edit_s(r.highlight)));
    lemma_plain(r, 8);
    assert(v[8] == ("va"@, props::text_edit_s(r.vert_align)));
    lemma_plain(r, 9);
    assert(v[9] == ("lang"@, props::text_edit_s(r.lang)));
    lemma_plain(r, 10);
    assert(v[10] == ("rstyle"@, props::text_edit_s(r.char_style)));
    lemma_plain(r, 11);
    assert(v[11] == ("rshd"@, props::text_edit_s(r.shading)));
    lemma_plain(r, 12);
    assert(v[12] == ("ins"@, track_edit_s(r.track, TrackKind::Ins)));
    lemma_plain(r, 13);
    assert(v[13] == ("del"@, track_edit_s(r.track, TrackKind::Del)));
    lemma_plain(r, 14);
    assert(v[14] == ("mvf"@, track_edit_s(r.track, TrackKind::MoveFrom)));
    lemma_plain(r, 15);
    assert(v[15] == ("mvt"@, track_edit_s(r.track, TrackKind::MoveTo)));
    lemma_plain(r, 16);
    assert(v[16] == ("rfmt"@, fmt_edit_s(r.fmt_change)));
}

proof fn lemma_track_reads(a: PropsV, r: RunV)
    requires
        formats_s(a, r),
        of_text_s(r.track),
        writing::run_reads_s(r),
    ensures
        runs::track_s(a) == r.track,
        runs::fmt_change_s(a) == r.fmt_change,
{
}

/// A character of a run reads back with all that is kept of the run.
pub(crate) proof fn lemma_run_reads(r: RunV, text: Seq<char>)
    requires
        of_text_s(r.track),
        writing::run_reads_s(r),
    ensures
        runs::run_s(SegV { text, attrs: attrs_s(r) }) == (RunV { text, ..settled_s(r) }),
{
    let a = attrs_s(r);
    lemma_formats(r);
    lemma_track_reads(a, r);
    lemma_comments(r);
    lemma_image(r);
    lemma_no_ids(r, "fld~"@);
    lemma_no_ids(r, "bkm~"@);
    lemma_no_ids(r, "bkp~"@);
    lemma_no_ids(r, "bkpe~"@);
    lemma_no_ids(r, "lnk~"@);
    lemma_no_ids(r, "raw~"@);
    let x = runs::run_s(SegV { text, attrs: a });
    assert(x.bold == r.bold && x.italic == r.italic && x.underline == r.underline && x.strike
        == r.strike);
    assert(x.size == r.size);
    assert(x =~= (RunV { text, ..settled_s(r) }));
}

// ---------------------------------------------------------------- character by character

/// A run of one character.
pub open spec fn one_s(r: RunV, i: int) -> RunV {
    RunV { text: seq![r.text[i]], ..r }
}

/// The first `n` runs, character by character.
pub open spec fn spread_s(v: Seq<RunV>, n: nat) -> Seq<RunV>
    decreases n,
{
    if n == 0 {
        Seq::empty()
    } else {
        spread_s(v, (n - 1) as nat) + Seq::new(v[n - 1].text.len(), |i: int| one_s(v[n - 1], i))
    }
}

pub(crate) proof fn lemma_spread_prefix(v: Seq<RunV>, w: Seq<RunV>, n: nat)
    requires
        n <= v.len(),
        n <= w.len(),
        forall|i: int| 0 <= i < n ==> v[i] == w[i],
    ensures
        spread_s(v, n) == spread_s(w, n),
    decreases n,
{
    if n > 0 {
        lemma_spread_prefix(v, w, (n - 1) as nat);
    }
}

/// The run that one character of a rich text is.
pub open spec fn read_s(c: CharV) -> RunV {
    runs::run_s(SegV { text: seq![c.c], attrs: c.attrs })
}

/// The characters of a rich text, each as a run.
pub open spec fn read_all_s(t: Seq<CharV>) -> Seq<RunV> {
    Seq::new(t.len(), |i: int| read_s(t[i]))
}

pub(crate) proof fn lemma_spread_read(v: Seq<SegV>, n: nat)
    requires
        n <= v.len(),
    ensures
        spread_s(runs::runs_s(v, n), runs::runs_s(v, n).len()) == read_all_s(store::flat_s(v, n)),
    decreases n,
{
    if n > 0 {
        lemma_spread_read(v, (n - 1) as nat);
        let s = v[n - 1];
        let before = runs::runs_s(v, (n - 1) as nat);
        let flat = store::flat_s(v, (n - 1) as nat);
        let tail = Seq::new(s.text.len(), |i: int| store::char_s(s.text[i], s.attrs));
        assert(store::flat_s(v, n) =~= flat + tail);
        if s.text.len() == 0 {
            assert(tail =~= Seq::empty());
            assert(flat + tail =~= flat);
        } else {
            let r = runs::run_s(s);
            let all = before.push(r);
            lemma_spread_prefix(before, all, before.len());
            let ones = Seq::new(r.text.len(), |i: int| one_s(r, i));
            assert(spread_s(all, all.len()) =~= read_all_s(flat) + ones);
            assert forall|i: int| 0 <= i < ones.len() implies ones[i] == read_s(tail[i]) by {
                assert(tail[i] == store::char_s(s.text[i], s.attrs));
                assert(one_s(r, i) =~= read_s(tail[i]));
            }
            assert(read_all_s(flat + tail) =~= read_all_s(flat) + ones);
        }
    } else {
        assert(read_all_s(store::flat_s(v, 0)) =~= Seq::empty());
    }
}

pub(crate) proof fn lemma_marked(t: Seq<CharV>, start: int, end: int, marks: Seq<MarkV>, n: nat)
    ensures
        writing::all_marked_s(t, start, end, marks, n).len() == t.len(),
        forall|i: int|
            0 <= i < t.len() ==> #[trigger] writing::all_marked_s(t, start, end, marks, n)[i] == (
            if start <= i < end {
                store::char_s(t[i].c, with_marks_s(t[i].attrs, marks, n))
            } else {
                t[i]
            }),
    decreases n,
{
    if n > 0 {
        lemma_marked(t, start, end, marks, (n - 1) as nat);
        let r = writing::all_marked_s(t, start, end, marks, (n - 1) as nat);
        let w = writing::all_marked_s(t, start, end, marks, n);
        assert forall|i: int| 0 <= i < t.len() implies #[trigger] w[i] == (if start <= i < end {
            store::char_s(t[i].c, with_marks_s(t[i].attrs, marks, n))
        } else {
            t[i]
        }) by {
            assert(w[i] == (if start <= i < end {
                CharV { attrs: r[i].attrs.insert(marks[n - 1].0, marks[n - 1].1), ..r[i] }
            } else {
                r[i]
            }));
        }
    }
}

/// The characters of the first `n` runs carry the marks of their run; the others none of them.
proof fn lemma_dressed(v: Seq<RunV>, n: nat)
    requires
        n <= v.len(),
    ensures
        writing::dressed_s(store::bare_s(writing::run_text_s(v)), 0, v, n).len()
            == writing::run_text_s(v).len(),
        forall|i: int|
            writing::joined_s(v, n).len() <= i < writing::run_text_s(v).len()
                ==> #[trigger] writing::dressed_s(store::bare_s(writing::run_text_s(v)), 0, v, n)[i]
                == store::char_s(writing::run_text_s(v)[i], store::no_props_s()),
    decreases n,
{
    let t = store::bare_s(writing::run_text_s(v));
    if n > 0 {
        lemma_dressed(v, (n - 1) as nat);
        let r = writing::dressed_s(t, 0, v, (n - 1) as nat);
        let from = writing::joined_s(v, (n - 1) as nat).len() as int;
        let marks = writing::run_marks_s(v[n - 1]);
        lemma_marked(r, from, from + v[n - 1].text.len(), marks, marks.len());
    }
}

/// Dressing later runs leaves the characters of the earlier ones alone.
proof fn lemma_dressed_stays(v: Seq<RunV>, n: nat, m: nat, i: int)
    requires
        n <= m <= v.len(),
        0 <= i < writing::joined_s(v, n).len(),
        i < writing::run_text_s(v).len(),
    ensures
        writing::dressed_s(store::bare_s(writing::run_text_s(v)), 0, v, m)[i]
            == writing::dressed_s(store::bare_s(writing::run_text_s(v)), 0, v, n)[i],
    decreases m,
{
    let t = store::bare_s(writing::run_text_s(v));
    if n < m {
        lemma_dressed_stays(v, n, (m - 1) as nat, i);
        lemma_dressed(v, (m - 1) as nat);
        writing::lemma_joined_grows(v, n, (m - 1) as nat);
        let r = writing::dressed_s(t, 0, v, (m - 1) as nat);
        let from = writing::joined_s(v, (m - 1) as nat).len() as int;
        let marks = writing::run_marks_s(v[m - 1]);
        lemma_marked(r, from, from + v[m - 1].text.len(), marks, marks.len());
    }
}

proof fn lemma_joined_at(v: Seq<RunV>, n: nat, m: nat, i: int)
    requires
        n <= m <= v.len(),
        0 <= i < writing::joined_s(v, n).len(),
    ensures
        i < writing::joined_s(v, m).len(),
        writing::joined_s(v, m)[i] == writing::joined_s(v, n)[i],
    decreases m,
{
    if n < m {
        lemma_joined_at(v, n, (m - 1) as nat, i);
    }
}

/// Whether the revisions of runs are of kinds that text can have.
pub open spec fn all_of_text_s(v: Seq<RunV>) -> bool {
    forall|i: int| 0 <= i < v.len() ==> of_text_s((#[trigger] v[i]).track)
}

pub open spec fn all_settled_s(v: Seq<RunV>) -> Seq<RunV> {
    Seq::new(v.len(), |i: int| settled_s(v[i]))
}

proof fn lemma_spread_written(v: Seq<RunV>, n: nat)
    requires
        n <= v.len(),
        all_of_text_s(v),
        writing::runs_read_s(v, v.len()),
    ensures
        spread_s(all_settled_s(v), n).len() == writing::joined_s(v, n).len(),
        forall|i: int|
            0 <= i < writing::joined_s(v, n).len() ==> #[trigger] spread_s(all_settled_s(v), n)[i]
                == read_s(writing::written_s(v)[i]),
    decreases n,
{
    if n > 0 {
        lemma_spread_written(v, (n - 1) as nat);
        let w = all_settled_s(v);
        let r = v[n - 1];
        let from = writing::joined_s(v, (n - 1) as nat).len() as int;
        let t = store::bare_s(writing::run_text_s(v));
        assert(w[n - 1] == settled_s(r));
        assert forall|i: int| 0 <= i < writing::joined_s(v, n).len() implies #[trigger] spread_s(
            w,
            n,
        )[i] == read_s(writing::written_s(v)[i]) by {
            if i >= from {
                lemma_joined_at(v, n, v.len(), i);
                lemma_dressed(v, (n - 1) as nat);
                lemma_dressed_stays(v, n, v.len(), i);
                let before = writing::dressed_s(t, 0, v, (n - 1) as nat);
                let marks = writing::run_marks_s(r);
                lemma_marked(before, from, from + r.text.len(), marks, marks.len());
                assert(before[i] == store::char_s(
                    writing::run_text_s(v)[i],
                    store::no_props_s(),
                ));
                let c = r.text[i - from];
                assert(writing::run_text_s(v)[i] == c);
                assert(writing::written_s(v)[i] == store::char_s(c, attrs_s(r)));
                assert(writing::run_reads_s(r)) by {
                    reveal(writing::runs_read_s);
                    assert(v[n - 1].text.len() > 0);
                }
                assert(of_text_s(v[n - 1].track));
                lemma_run_reads(r, seq![c]);
                assert(spread_s(w, n)[i] == one_s(w[n - 1], i - from));
            } else {
                assert(spread_s(w, n)[i] == spread_s(w, (n - 1) as nat)[i]);
            }
        }
    }
}

/// What is read of the runs that were written to a block is what was written, character by
/// character: its text, its formatting, its revisions, its comments and its picture.
pub proof fn law_written_runs_read_back(d: DocV, id: BlockId, m: PropsV, v: Seq<RunV>, e: DocV)
    requires
        writing::block_filled_s(d, id, m, v, e),
        all_of_text_s(v),
    ensures
        spread_s(read::runs_of_s(e, id), read::runs_of_s(e, id).len()) == spread_s(
            all_settled_s(v),
            v.len(),
        ),
{
    let segs = e.s.texts[id];
    lemma_spread_read(segs, segs.len());
    lemma_spread_written(v, v.len());
    lemma_dressed(v, v.len());
    assert(doc::text_s(e, id) == writing::written_s(v));
    assert(read_all_s(writing::written_s(v)) =~= spread_s(all_settled_s(v), v.len()));
}

} // verus!
