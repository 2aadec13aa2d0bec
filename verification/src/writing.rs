//! Writing runs and paragraphs into blocks.

use vstd::prelude::*;
use crate::doc;
use crate::doc::{DocV, TextDoc};
use crate::error::ModelError;
use crate::sequence;
use crate::json;
use crate::json::{Json, JsonV, MembersV};
use crate::props;
use crate::props::{stamp};
use crate::read;
use crate::runs;
use crate::runs::{comment_mark_key, image_mark_key};
use crate::store;
use crate::store::{BlockId, CharV, PropsV, Scalar, ScalarV, StoreV};
use crate::strs;

use crate::types;
use crate::types::{
    FormatChange, FormatChangeV, Paragraph, ParagraphV, Run, RunProps, RunPropsV, RunV, Track,
    TrackV,
};

verus! {

broadcast use vstd::string::group_string_axioms;

// ---------------------------------------------------------------- the attributes of a run

/// The text that keeps a revision of a stretch of text.
pub open spec fn track_value_s(t: TrackV) -> Seq<char> {
    json::object_s(props::stamp_members_s(t.author, t.date, t.id))
}

/// The text that keeps a revision; it reads back as the revision it was.
pub(crate) fn track_value(t: &Track) -> (r: String)
    ensures
        r@ == track_value_s(t@),
        runs::track_text_s(t@.kind, r@) == Some(t@),
{
    let v = stamp(t.author.as_str(), t.date.as_str(), t.id);
    let r = json::object(&v);
    proof {
        let m = json::members_s(r@)->0;
        let want = props::stamp_members_s(t@.author, t@.date, t@.id);
        props::lemma_stamp(t@.author, t@.date, t@.id);
        assert(json::member_s(m, "author"@) == json::member_s(want, "author"@));
        assert(json::member_s(m, "date"@) == json::member_s(want, "date"@));
        assert(json::member_s(m, "id"@) == json::member_s(want, "id"@));
        assert(runs::track_of_s(t@.kind, m) =~= t@);
    }
    r
}

/// The members that describe run properties; the four toggles always, the rest where set.
pub open spec fn run_members_s(p: RunPropsV) -> MembersV {
    let m = Map::empty();
    let m = json::put_opt_s(m, "b"@, Some(JsonV::Bool(p.bold)));
    let m = json::put_opt_s(m, "i"@, Some(JsonV::Bool(p.italic)));
    let m = json::put_opt_s(m, "u"@, Some(JsonV::Bool(p.underline)));
    let m = json::put_opt_s(m, "strike"@, Some(JsonV::Bool(p.strike)));
    let m = json::put_opt_s(m, "sz"@, props::u16_json_s(p.size));
    let m = json::put_opt_s(m, "color"@, json::opt_text_s(p.color));
    let m = json::put_opt_s(m, "font"@, json::opt_text_s(p.font));
    let m = json::put_opt_s(m, "hl"@, json::opt_text_s(p.highlight));
    let m = json::put_opt_s(m, "va"@, json::opt_text_s(p.vert_align));
    json::put_opt_s(m, "lang"@, json::opt_text_s(p.lang))
}

fn props_json(p: &RunProps) -> (r: Vec<(String, Json)>)
    ensures
        json::listed_s(r) == run_members_s(p@),
        json::all_writable_s(r@),
{
    let mut v: Vec<(String, Json)> = Vec::new();
    json::put(&mut v, "b", Json::Bool(p.bold));
    json::put(&mut v, "i", Json::Bool(p.italic));
    json::put(&mut v, "u", Json::Bool(p.underline));
    json::put(&mut v, "strike", Json::Bool(p.strike));
    json::put_opt(&mut v, "sz", props::u16_json(p.size));
    json::put_opt(&mut v, "color", json::opt_text(&p.color));
    json::put_opt(&mut v, "font", json::opt_text(&p.font));
    json::put_opt(&mut v, "hl", json::opt_text(&p.highlight));
    json::put_opt(&mut v, "va", json::opt_text(&p.vert_align));
    json::put_opt(&mut v, "lang", json::opt_text(&p.lang));
    v
}

/// The text that keeps a tracked formatting change.
pub open spec fn fmt_value_s(c: FormatChangeV) -> Seq<char> {
    json::object_s(
        json::with_object_s(
            props::stamp_members_s(c.author, c.date, c.id),
            "old"@,
            run_members_s(c.old),
        ),
    )
}

/// What was written of run properties reads back.
proof fn lemma_run_members(p: RunPropsV)
    ensures
        runs::run_props_of_s(run_members_s(p)) == p,
{
    reveal_strlit("b");
    reveal_strlit("i");
    reveal_strlit("u");
    reveal_strlit("strike");
    reveal_strlit("sz");
    reveal_strlit("color");
    reveal_strlit("font");
    reveal_strlit("hl");
    reveal_strlit("va");
    reveal_strlit("lang");
    let m = run_members_s(p);
    assert("b"@[0] == 'b' && "i"@[0] == 'i' && "u"@[0] == 'u' && "strike"@[0] == 's' && "sz"@[0]
        == 's' && "color"@[0] == 'c' && "font"@[0] == 'f' && "hl"@[0] == 'h' && "va"@[0] == 'v'
        && "lang"@[0] == 'l');
    assert("sz"@.len() == 2 && "strike"@.len() == 6);
    assert(runs::run_props_of_s(m) =~= p);
}

/// The text that keeps a tracked formatting change; it reads back as the change it was.
pub(crate) fn fmt_value(c: &FormatChange) -> (r: String)
    ensures
        r@ == fmt_value_s(c@),
        runs::fmt_change_text_s(r@) == Some(c@),
{
    let v = stamp(c.author.as_str(), c.date.as_str(), c.id);
    let r = json::object_with(&v, "old", &props_json(&c.old));
    proof {
        let m = json::members_s(r@)->0;
        let want = props::stamp_members_s(c@.author, c@.date, c@.id);
        props::lemma_stamp(c@.author, c@.date, c@.id);
        reveal_strlit("old");
        assert(json::member_s(m, "author"@) == json::member_s(want, "author"@));
        assert(json::member_s(m, "date"@) == json::member_s(want, "date"@));
        assert(json::member_s(m, "id"@) == json::member_s(want, "id"@));
        lemma_run_members(c@.old);
        assert(json::nested_s(m, "old"@) == run_members_s(c@.old));
    }
    r
}

/// One attribute to set.
pub type MarkV = (Seq<char>, ScalarV);

pub open spec fn marks_vs(v: Seq<(String, Scalar)>) -> Seq<MarkV> {
    Seq::new(v.len(), |i: int| (v[i].0@, v[i].1@))
}

pub open spec fn settable_s(v: Seq<MarkV>) -> bool {
    forall|i: int| 0 <= i < v.len() ==> !((#[trigger] v[i]).1 is Null) && !(v[i].1 is Other) && !(
    v[i].1 is Bytes)
}

/// The marks with one more, where it is set.
pub open spec fn mark_if_s(v: Seq<MarkV>, key: Seq<char>, set: bool) -> Seq<MarkV> {
    if set {
        v.push((key, ScalarV::Bool(true)))
    } else {
        v
    }
}

pub open spec fn mark_text_s(v: Seq<MarkV>, key: Seq<char>, o: Option<Seq<char>>) -> Seq<MarkV> {
    match o {
        Some(s) => v.push((key, ScalarV::Text(s))),
        None => v,
    }
}

pub open spec fn mark_size_s(v: Seq<MarkV>, o: Option<u16>) -> Seq<MarkV> {
    match o {
        Some(n) => v.push(("sz"@, ScalarV::Int(n as i64))),
        None => v,
    }
}

pub open spec fn mark_track_s(v: Seq<MarkV>, o: Option<TrackV>) -> Seq<MarkV> {
    match o {
        Some(t) => v.push((t.kind.mark_key_s(), ScalarV::Text(track_value_s(t)))),
        None => v,
    }
}

pub open spec fn mark_fmt_s(v: Seq<MarkV>, o: Option<FormatChangeV>) -> Seq<MarkV> {
    match o {
        Some(c) => v.push(("rfmt"@, ScalarV::Text(fmt_value_s(c)))),
        None => v,
    }
}

pub open spec fn mark_comments_s(v: Seq<MarkV>, ids: Seq<u64>, n: nat) -> Seq<MarkV>
    decreases n,
{
    if n == 0 {
        v
    } else {
        mark_comments_s(v, ids, (n - 1) as nat).push(
            (runs::mark_key_s("cmt~"@, ids[n - 1]), ScalarV::Bool(true)),
        )
    }
}

pub open spec fn mark_image_s(v: Seq<MarkV>, o: Option<u64>) -> Seq<MarkV> {
    match o {
        Some(id) => v.push((runs::mark_key_s("img~"@, id), ScalarV::Bool(true))),
        None => v,
    }
}

/// The direct formatting of a run as marks.
pub open spec fn format_marks_s(r: RunV) -> Seq<MarkV> {
    let v = Seq::empty();
    let v = mark_if_s(v, "b"@, r.bold);
    let v = mark_if_s(v, "i"@, r.italic);
    let v = mark_if_s(v, "u"@, r.underline);
    let v = mark_if_s(v, "strike"@, r.strike);
    let v = mark_size_s(v, r.size);
    let v = mark_text_s(v, "color"@, r.color);
    let v = mark_text_s(v, "font"@, r.font);
    let v = mark_text_s(v, "hl"@, r.highlight);
    let v = mark_text_s(v, "va"@, r.vert_align);
    let v = mark_text_s(v, "lang"@, r.lang);
    let v = mark_text_s(v, "rstyle"@, r.char_style);
    mark_text_s(v, "rshd"@, r.shading)
}

/// The marks that a run is written with.
pub open spec fn run_marks_s(r: RunV) -> Seq<MarkV> {
    let v = mark_track_s(format_marks_s(r), r.track);
    let v = mark_fmt_s(v, r.fmt_change);
    let v = mark_comments_s(v, r.comments, r.comments.len());
    mark_image_s(v, r.image)
}

fn mark_if(v: &mut Vec<(String, Scalar)>, key: &str, set: bool)
    requires
        settable_s(marks_vs(old(v)@)),
    ensures
        marks_vs(final(v)@) == mark_if_s(marks_vs(old(v)@), key@, set),
        settable_s(marks_vs(final(v)@)),
{
    let ghost was = v@;
    if set {
        v.push((key.to_string(), Scalar::Bool(true)));
        assert(marks_vs(v@) =~= marks_vs(was).push((key@, ScalarV::Bool(true))));
    }
}

fn mark_text(v: &mut Vec<(String, Scalar)>, key: &str, o: &Option<String>)
    requires
        settable_s(marks_vs(old(v)@)),
    ensures
        marks_vs(final(v)@) == mark_text_s(marks_vs(old(v)@), key@, strs::opt_s(*o)),
        settable_s(marks_vs(final(v)@)),
{
    let ghost was = v@;
    if let Some(s) = o {
        v.push((key.to_string(), Scalar::Text(s.clone())));
        assert(marks_vs(v@) =~= marks_vs(was).push((key@, ScalarV::Text(s@))));
    }
}

fn format_marks(r: &Run) -> (v: Vec<(String, Scalar)>)
    ensures
        marks_vs(v@) == format_marks_s(r@),
        settable_s(marks_vs(v@)),
{
    let mut v: Vec<(String, Scalar)> = Vec::new();
    assert(marks_vs(v@) =~= Seq::empty());
    mark_if(&mut v, "b", r.bold);
    mark_if(&mut v, "i", r.italic);
    mark_if(&mut v, "u", r.underline);
    mark_if(&mut v, "strike", r.strike);
    let ghost was = v@;
    if let Some(n) = r.size {
        v.push(("sz".to_string(), Scalar::Int(n as i64)));
        assert(marks_vs(v@) =~= marks_vs(was).push(("sz"@, ScalarV::Int(n as i64))));
    }
    mark_text(&mut v, "color", &r.color);
    mark_text(&mut v, "font", &r.font);
    mark_text(&mut v, "hl", &r.highlight);
    mark_text(&mut v, "va", &r.vert_align);
    mark_text(&mut v, "lang", &r.lang);
    mark_text(&mut v, "rstyle", &r.char_style);
    mark_text(&mut v, "rshd", &r.shading);
    v
}

/// Whether the revision and the formatting change of a run read back from their texts.
pub open spec fn run_reads_s(r: RunV) -> bool {
    &&& r.track matches Some(t) ==> runs::track_text_s(t.kind, track_value_s(t)) == Some(t)
    &&& r.fmt_change matches Some(c) ==> runs::fmt_change_text_s(fmt_value_s(c)) == Some(c)
}

/// Whether what is written of the first `n` runs reads back; a run without text is not written.
#[verifier::opaque]
pub open spec fn runs_read_s(v: Seq<RunV>, n: nat) -> bool {
    forall|i: int| 0 <= i < n && (#[trigger] v[i]).text.len() > 0 ==> run_reads_s(v[i])
}

fn run_marks(r: &Run) -> (v: Vec<(String, Scalar)>)
    ensures
        marks_vs(v@) == run_marks_s(r@),
        settable_s(marks_vs(v@)),
        run_reads_s(r@),
{
    let mut v = format_marks(r);
    let ghost was = v@;
    if let Some(t) = &r.track {
        v.push((t.kind.mark_key().to_string(), Scalar::Text(track_value(t))));
        assert(marks_vs(v@) =~= mark_track_s(marks_vs(was), Some(t@)));
    }
    let ghost was = v@;
    if let Some(c) = &r.fmt_change {
        v.push(("rfmt".to_string(), Scalar::Text(fmt_value(c))));
        assert(marks_vs(v@) =~= mark_fmt_s(marks_vs(was), Some(c@)));
    }
    let ghost base = marks_vs(v@);
    let mut i: usize = 0;
    while i < r.comments.len()
        invariant
            i <= r.comments@.len(),
            settable_s(marks_vs(v@)),
            marks_vs(v@) == mark_comments_s(base, r.comments@, i as nat),
        decreases r.comments@.len() - i,
    {
        let ghost was = v@;
        v.push((comment_mark_key(r.comments[i]), Scalar::Bool(true)));
        assert(marks_vs(v@) =~= marks_vs(was).push(
            (runs::mark_key_s("cmt~"@, r.comments@[i as int]), ScalarV::Bool(true)),
        ));
        i = i + 1;
    }
    let ghost was = v@;
    if let Some(id) = r.image {
        v.push((image_mark_key(id), Scalar::Bool(true)));
        assert(marks_vs(v@) =~= mark_image_s(marks_vs(was), Some(id)));
    }
    v
}

// ---------------------------------------------------------------- writing runs

/// The characters with the first `n` marks set over `start..end`.
pub open spec fn all_marked_s(
    t: Seq<CharV>,
    start: int,
    end: int,
    marks: Seq<MarkV>,
    n: nat,
) -> Seq<CharV>
    decreases n,
{
    if n == 0 {
        t
    } else {
        store::marked_s(
            all_marked_s(t, start, end, marks, (n - 1) as nat),
            start,
            end,
            marks[n - 1].0,
            marks[n - 1].1,
        )
    }
}

/// The text of the first `n` runs.
pub open spec fn joined_s(v: Seq<RunV>, n: nat) -> Seq<char>
    decreases n,
{
    if n == 0 {
        Seq::empty()
    } else {
        joined_s(v, (n - 1) as nat) + v[n - 1].text
    }
}

/// The text of runs.
pub open spec fn run_text_s(v: Seq<RunV>) -> Seq<char> {
    joined_s(v, v.len())
}

/// The characters, where the text of the runs stands from `start` on, with the marks of the
/// first `n` runs.
pub open spec fn dressed_s(t: Seq<CharV>, start: int, v: Seq<RunV>, n: nat) -> Seq<CharV>
    decreases n,
{
    if n == 0 {
        t
    } else {
        let r = dressed_s(t, start, v, (n - 1) as nat);
        let from = start + joined_s(v, (n - 1) as nat).len();
        let marks = run_marks_s(v[n - 1]);
        if v[n - 1].text.len() == 0 {
            r
        } else {
            all_marked_s(r, from, from + v[n - 1].text.len(), marks, marks.len())
        }
    }
}

/// Whether a block's text with `text` typed at `start` is `mid`; where the block's text was never
/// marked the new characters have no attributes.
pub open spec fn laid_s(d: DocV, id: BlockId, start: int, text: Seq<char>, mid: Seq<CharV>) -> bool {
    &&& store::inserted_s(doc::text_s(d, id), start, text, d.s.typed[id][start], mid)
    &&& d.s.plain.contains(id) && text.len() > 0 ==> d.s.typed[id][start] == store::no_props_s()
}

/// Whether `e` is `d` with the runs written at `start` in a block: their text typed, and then their
/// marks set.
pub open spec fn runs_written_s(d: DocV, id: BlockId, start: int, v: Seq<RunV>, e: DocV) -> bool {
    &&& doc::only_text_s(d, e, id)
    &&& 0 <= start <= doc::text_s(d, id).len()
    &&& exists|mid: Seq<CharV>| #[trigger]
        laid_s(d, id, start, run_text_s(v), mid) && doc::text_s(e, id) == dressed_s(
            mid,
            start,
            v,
            v.len(),
        )
    &&& runs_read_s(v, v.len())
}

/// Whether each of these marks may be set.
pub open spec fn keys_allowed_s(marks: Map<Seq<char>, bool>, v: Seq<MarkV>) -> bool {
    forall|j: int| 0 <= j < v.len() ==> marks.contains_key((#[trigger] v[j]).0)
}

/// Whether the marks of every run that has text may be set.
pub open spec fn dressable_s(marks: Map<Seq<char>, bool>, v: Seq<RunV>) -> bool {
    forall|i: int|
        0 <= i < v.len() && (#[trigger] v[i]).text.len() > 0 ==> keys_allowed_s(
            marks,
            run_marks_s(v[i]),
        )
}

/// Whether runs can be written from `start` on: their marks may be set, and a machine holds the
/// position at their end.
#[verifier::opaque]
pub open spec fn insertable_s(marks: Map<Seq<char>, bool>, start: int, v: Seq<RunV>) -> bool {
    dressable_s(marks, v) && start + run_text_s(v).len() <= usize::MAX
}

pub(crate) proof fn lemma_only_text_trans(d: DocV, e: DocV, f: DocV, id: BlockId)
    requires
        doc::only_text_s(d, e, id),
        doc::only_text_s(e, f, id),
    ensures
        doc::only_text_s(d, f, id),
{
    assert(f.s.texts =~= d.s.texts.insert(id, f.s.texts[id]));
    assert(f.s.plain.insert(id) =~= d.s.plain.insert(id)) by {
        assert forall|x: BlockId| f.s.plain.insert(id).contains(x) == d.s.plain.insert(id).contains(
            x,
        ) by {
            assert(f.s.plain.insert(id).contains(x) == e.s.plain.insert(id).contains(x));
            assert(e.s.plain.insert(id).contains(x) == d.s.plain.insert(id).contains(x));
        }
    }
}

pub(crate) proof fn lemma_only_text_refl(d: DocV, id: BlockId)
    requires
        d.s.texts.contains_key(id),
    ensures
        doc::only_text_s(d, d, id),
{
    assert(d.s.texts =~= d.s.texts.insert(id, d.s.texts[id]));
}

proof fn lemma_insert_nothing(t: Seq<CharV>, pos: int, attrs: PropsV)
    requires
        0 <= pos <= t.len(),
    ensures
        store::inserted_s(t, pos, Seq::empty(), attrs, t),
{
}

proof fn lemma_all_marked_len(t: Seq<CharV>, start: int, end: int, marks: Seq<MarkV>, n: nat)
    ensures
        all_marked_s(t, start, end, marks, n).len() == t.len(),
    decreases n,
{
    if n > 0 {
        lemma_all_marked_len(t, start, end, marks, (n - 1) as nat);
    }
}

pub(crate) proof fn lemma_nothing_insertable(marks: Map<Seq<char>, bool>)
    ensures
        insertable_s(marks, 0, Seq::empty()),
{
    reveal(insertable_s);
}

proof fn lemma_dressed_len(t: Seq<CharV>, start: int, v: Seq<RunV>, n: nat)
    ensures
        dressed_s(t, start, v, n).len() == t.len(),
    decreases n,
{
    if n > 0 {
        lemma_dressed_len(t, start, v, (n - 1) as nat);
        let r = dressed_s(t, start, v, (n - 1) as nat);
        let from = start + joined_s(v, (n - 1) as nat).len();
        let marks = run_marks_s(v[n - 1]);
        lemma_all_marked_len(r, from, from + v[n - 1].text.len(), marks, marks.len());
    }
}

/// The text of runs, one after the other.
fn joined(v: &Vec<Run>) -> (r: String)
    ensures
        r@ == run_text_s(types::run_vs(v@)),
{
    let mut text = String::new();
    let mut i: usize = 0;
    while i < v.len()
        invariant
            i <= v@.len(),
            text@ == joined_s(types::run_vs(v@), i as nat),
        decreases v@.len() - i,
    {
        text.append(v[i].text.as_str());
        i = i + 1;
    }
    text
}

impl TextDoc {
    /// Set attributes over a range of a block's text, one after the other.
    pub(crate) fn mark_all(
        &mut self,
        id: BlockId,
        start: usize,
        end: usize,
        marks: &Vec<(String, Scalar)>,
    ) -> (r: Result<(), ModelError>)
        requires
            settable_s(marks_vs(marks@)),
            old(self)@.s.texts.contains_key(id),
        ensures
            doc::writable_s(old(self)@, id) && start < end <= doc::text_s(old(self)@, id).len()
                && keys_allowed_s(old(self)@.s.marks, marks_vs(marks@)) ==> r is Ok,
            r is Ok ==> doc::only_text_s(old(self)@, final(self)@, id) && doc::text_s(
                final(self)@,
                id,
            ) == all_marked_s(
                doc::text_s(old(self)@, id),
                start as int,
                end as int,
                marks_vs(marks@),
                marks@.len(),
            ),
            r matches Err(e) ==> e == ModelError::Store,
    {
        let ghost d = self@;
        let ghost v = marks_vs(marks@);
        proof {
            lemma_only_text_refl(d, id);
        }
        let mut i: usize = 0;
        while i < marks.len()
            invariant
                i <= marks@.len(),
                v == marks_vs(marks@),
                settable_s(v),
                d == old(self)@,
                doc::only_text_s(d, self@, id),
                doc::text_s(self@, id) == all_marked_s(
                    doc::text_s(d, id),
                    start as int,
                    end as int,
                    v,
                    i as nat,
                ),
            decreases marks@.len() - i,
        {
            let ghost e = self@;
            assert(!(v[i as int].1 is Null) && !(v[i as int].1 is Other));
            proof {
                lemma_all_marked_len(doc::text_s(d, id), start as int, end as int, v, i as nat);
            }
            match self.mark(id, start, end, marks[i].0.as_str(), &marks[i].1) {
                Ok(()) => {},
                Err(e) => {
                    return Err(e);
                },
            }
            proof {
                lemma_only_text_trans(d, e, self@, id);
            }
            i = i + 1;
        }
        Ok(())
    }

    /// Insert the text of runs, one after the other, at `start`.
    fn put_runs(&mut self, id: BlockId, start: usize, v: &Vec<Run>) -> (r: Result<(), ModelError>)
        requires
            old(self)@.s.texts.contains_key(id),
            start <= doc::text_s(old(self)@, id).len(),
        ensures
            doc::writable_s(old(self)@, id) && start + run_text_s(types::run_vs(v@)).len()
                <= usize::MAX ==> r is Ok,
            r is Ok ==> doc::only_text_s(old(self)@, final(self)@, id) && laid_s(
                old(self)@,
                id,
                start as int,
                run_text_s(types::run_vs(v@)),
                doc::text_s(final(self)@, id),
            ) && start + run_text_s(types::run_vs(v@)).len() <= usize::MAX,
            r matches Err(e) ==> e == ModelError::Store,
    {
        let ghost d = self@;
        let text = joined(v);
        let n = text.as_str().unicode_len();
        if n > usize::MAX - start {
            return Err(ModelError::Store);
        }
        if n == 0 {
            proof {
                lemma_only_text_refl(d, id);
                assert(text@ =~= Seq::empty());
                lemma_insert_nothing(
                    doc::text_s(d, id),
                    start as int,
                    d.s.typed[id][start as int],
                );
            }
            return Ok(());
        }
        self.put_text(id, start, text.as_str())
    }

    /// Write runs into a block's text from `start` on: all of the text first, then the marks, so
    /// that no mark grows over a run that follows it.
    pub(crate) fn append_runs(&mut self, id: BlockId, start: usize, v: &Vec<Run>) -> (r: Result<
        (),
        ModelError,
    >)
        requires
            old(self)@.s.texts.contains_key(id),
            start <= doc::text_s(old(self)@, id).len(),
        ensures
            doc::writable_s(old(self)@, id) && insertable_s(
                old(self)@.s.marks,
                start as int,
                types::run_vs(v@),
            ) ==> r is Ok,
            r is Ok ==> runs_written_s(
                old(self)@,
                id,
                start as int,
                types::run_vs(v@),
                final(self)@,
            ),
            r matches Err(e) ==> e == ModelError::Store,
    {
        let ghost d = self@;
        let ghost w = types::run_vs(v@);
        proof {
            reveal(insertable_s);
        }
        match self.put_runs(id, start, v) {
            Ok(()) => {},
            Err(e) => {
                return Err(e);
            },
        }
        let ghost mid = doc::text_s(self@, id);
        proof {
            reveal(runs_read_s);
        }
        let mut pos: usize = start;
        let mut i: usize = 0;
        while i < v.len()
            invariant
                i <= v@.len(),
                w == types::run_vs(v@),
                runs_read_s(w, i as nat),
                d == old(self)@,
                start <= doc::text_s(d, id).len(),
                mid.len() == doc::text_s(d, id).len() + run_text_s(w).len(),
                start + run_text_s(w).len() <= usize::MAX,
                pos == start + joined_s(w, i as nat).len(),
                doc::only_text_s(d, self@, id),
                doc::text_s(self@, id) == dressed_s(mid, start as int, w, i as nat),
            decreases v@.len() - i,
        {
            let ghost e = self@;
            let n = v[i].text.as_str().unicode_len();
            proof {
                lemma_joined_grows(w, (i + 1) as nat, w.len());
            }
            if n > 0 {
                let marks = run_marks(&v[i]);
                proof {
                    reveal(insertable_s);
                    lemma_dressed_len(mid, start as int, w, i as nat);
                    assert(w[i as int] == v@[i as int]@);
                }
                match self.mark_all(id, pos, pos + n, &marks) {
                    Ok(()) => {},
                    Err(e) => {
                        return Err(e);
                    },
                }
                proof {
                    lemma_only_text_trans(d, e, self@, id);
                }
            }
            proof {
                reveal(runs_read_s);
                assert(w[i as int] == v@[i as int]@);
            }
            pos = pos + n;
            i = i + 1;
        }
        Ok(())
    }
}

pub(crate) proof fn lemma_joined_grows(v: Seq<RunV>, n: nat, m: nat)
    requires
        n <= m,
    ensures
        joined_s(v, n).len() <= joined_s(v, m).len(),
    decreases m,
{
    if n < m {
        lemma_joined_grows(v, n, (m - 1) as nat);
    }
}

// ---------------------------------------------------------------- writing paragraphs

/// The characters of runs in a text of their own.
pub open spec fn written_s(v: Seq<RunV>) -> Seq<CharV> {
    dressed_s(store::bare_s(run_text_s(v)), 0, v, v.len())
}

/// The properties with one more, where there is one.
pub open spec fn with_text_s(m: PropsV, key: Seq<char>, o: Option<Seq<char>>) -> PropsV {
    match o {
        Some(s) => m.insert(key, ScalarV::Text(s)),
        None => m,
    }
}

/// The properties of a block that a paragraph is written to.
pub open spec fn para_meta_s(m: PropsV, p: ParagraphV) -> PropsV {
    let m = with_text_s(m, "style"@, p.style).insert(store::TEXT@, ScalarV::Other);
    let m = props::with_para_props_s(m, p.props, false);
    let m = match p.prop_change {
        Some(c) => m.insert("ppc"@, ScalarV::Text(props::prop_change_text_s(c))),
        None => m,
    };
    match p.mark_change {
        Some(t) => m.insert(
            "pmark"@,
            ScalarV::Text(props::mark_text_s(props::kind_name_s(t.kind)->0, t)),
        ),
        None => m,
    }
}

/// Whether `e` is `d` with these properties and a new text of these runs for one block.
pub open spec fn block_filled_s(d: DocV, id: BlockId, m: PropsV, v: Seq<RunV>, e: DocV) -> bool {
    &&& e == doc::with_store_s(
        d,
        StoreV {
            metas: d.s.metas.insert(id, m),
            texts: e.s.texts,
            plain: e.s.plain,
            typed: e.s.typed,
            anchors: e.s.anchors,
            ..d.s
        },
    )
    &&& e.s.texts.contains_key(id)
    &&& e.s.texts == d.s.texts.insert(id, e.s.texts[id])
    &&& e.s.plain.insert(id) == d.s.plain.insert(id)
    &&& e.s.typed.insert(id, store::no_marks_s()) == d.s.typed.insert(id, store::no_marks_s())
    &&& e.s.anchors.insert(id, Map::empty()) == d.s.anchors.insert(id, Map::empty())
    &&& doc::text_s(e, id) == written_s(v)
    &&& runs_read_s(v, v.len())
}

/// Whether the tracked changes of a paragraph's properties and mark read back from their texts.
pub open spec fn changes_read_s(p: ParagraphV) -> bool {
    &&& p.prop_change matches Some(c) ==> props::change_reads_s(c)
    &&& p.mark_change matches Some(t) ==> props::mark_reads_s(t)
}

/// Whether a paragraph's mark can be written: a format change is no revision of a mark.
pub open spec fn markable_s(p: ParagraphV) -> bool {
    p.mark_change matches Some(t) ==> !(t.kind is Fmt)
}

proof fn lemma_fresh_text(d: DocV, id: BlockId, v: Seq<RunV>, e: DocV)
    requires
        d.s.texts.contains_key(id),
        d.s.texts[id] == Seq::<store::SegV>::empty(),
        d.s.plain.contains(id),
        runs_written_s(d, id, 0, v, e),
    ensures
        doc::text_s(e, id) == written_s(v),
{
    let text = run_text_s(v);
    let mid = choose|mid: Seq<CharV>| #[trigger]
        laid_s(d, id, 0, text, mid) && doc::text_s(e, id) == dressed_s(mid, 0, v, v.len());
    assert(laid_s(d, id, 0, text, mid));
    assert(doc::text_s(d, id) =~= Seq::<CharV>::empty());
    let bare = store::bare_s(text);
    assert forall|i: int| 0 <= i < text.len() implies mid[i] == bare[i] by {
        assert(mid[0 + i].c == text[i]);
        assert(mid[0 + i].attrs == store::no_props_s());
    }
    assert(mid =~= bare);
}

impl TextDoc {
    /// Set a block's style, where there is one.
    pub(crate) fn put_style(&mut self, id: BlockId, style: &Option<String>) -> (r: Result<
        (),
        ModelError,
    >)
        ensures
            old(self)@.s.editable && store::live_s(old(self)@.s, id) ==> r is Ok,
            r is Ok ==> final(self)@ == props::metas_set_s(
                old(self)@,
                id,
                with_text_s(old(self)@.s.metas[id], "style"@, strs::opt_s(*style)),
            ),
            r matches Err(e) ==> e == ModelError::Store,
    {
        proof {
            props::lemma_change_keys();
            self.lemma_total();
        }
        match style {
            Some(s) => self.set_meta(id, "style", &Scalar::Text(s.clone())),
            None => {
                proof {
                    let d = self@;
                    assert(d.s.metas.insert(id, d.s.metas[id]) =~= d.s.metas);
                }
                Ok(())
            },
        }
    }

    /// Give a block a new text of these runs.
    pub(crate) fn fill_text(&mut self, id: BlockId, v: &Vec<Run>) -> (r: Result<(), ModelError>)
        ensures
            old(self)@.s.editable && store::live_s(old(self)@.s, id) && insertable_s(
                old(self)@.s.marks,
                0,
                types::run_vs(v@),
            ) ==> r is Ok,
            r is Ok ==> store::live_s(old(self)@.s, id),
            r is Ok ==> block_filled_s(
                old(self)@,
                id,
                old(self)@.s.metas[id].insert(store::TEXT@, ScalarV::Other),
                types::run_vs(v@),
                final(self)@,
            ),
            r matches Err(e) ==> e == ModelError::Store,
    {
        let ghost d = self@;
        match self.add_text(id) {
            Ok(()) => {},
            Err(e) => {
                return Err(e);
            },
        }
        let ghost e = self@;
        match self.append_runs(id, 0, v) {
            Ok(()) => {},
            Err(e) => {
                return Err(e);
            },
        }
        proof {
            lemma_fresh_text(e, id, types::run_vs(v@), self@);
            assert(self@.s.texts =~= d.s.texts.insert(id, self@.s.texts[id]));
            assert(self@.s.plain.insert(id) =~= d.s.plain.insert(id));
            let x = store::no_marks_s();
            assert(e.s.typed.insert(id, x) =~= d.s.typed.insert(id, x));
            assert(e.s.anchors.insert(id, Map::empty()) =~= d.s.anchors.insert(id, Map::empty()));
        }
        Ok(())
    }

    /// Write a paragraph to a block that has no text yet.
    pub(crate) fn write_paragraph(&mut self, id: BlockId, p: &Paragraph) -> (r: Result<
        (),
        ModelError,
    >)
        ensures
            old(self)@.s.editable && store::live_s(old(self)@.s, id) && insertable_s(
                old(self)@.s.marks,
                0,
                p@.runs,
            ) && markable_s(p@) ==> r is Ok,
            r is Ok ==> store::live_s(old(self)@.s, id),
            r is Ok ==> block_filled_s(
                old(self)@,
                id,
                para_meta_s(old(self)@.s.metas[id], p@),
                p@.runs,
                final(self)@,
            ),
            r is Ok ==> changes_read_s(p@),
            !markable_s(p@) ==> r is Err,
            r matches Err(e) ==> e == ModelError::Store || (e == ModelError::BadMark
                && !markable_s(p@)),
    {
        let ghost d = self@;
        match self.put_style(id, &p.style) {
            Ok(()) => {},
            Err(e) => {
                return Err(e);
            },
        }
        match self.fill_text(id, &p.runs) {
            Ok(()) => {},
            Err(e) => {
                return Err(e);
            },
        }
        let ghost f = self@;
        proof {
            assert(f.s.metas =~= d.s.metas.insert(id, f.s.metas[id]));
        }
        match self.write_para_props(id, &p.props) {
            Ok(()) => {},
            Err(e) => {
                return Err(e);
            },
        }
        if let Some(c) = &p.prop_change {
            match self.write_para_prop_change(id, c) {
                Ok(()) => {},
                Err(e) => {
                    return Err(e);
                },
            }
        }
        if let Some(t) = &p.mark_change {
            match self.write_para_mark(id, t) {
                Ok(()) => {},
                Err(e) => {
                    return Err(e);
                },
            }
        }
        proof {
            let m = para_meta_s(d.s.metas[id], p@);
            assert(self@.s.metas =~= d.s.metas.insert(id, m));
        }
        Ok(())
    }
}

/// The properties of a new block of the body.
pub open spec fn body_meta_s(style: Option<Seq<char>>) -> PropsV {
    with_text_s(
        store::no_props_s().insert("type"@, ScalarV::Text("p"@)),
        "style"@,
        style,
    ).insert(store::TEXT@, ScalarV::Other)
}

/// Whether `e` is `d` with a new paragraph block at `index` among the roots.
pub open spec fn root_filled_s(
    d: DocV,
    index: int,
    id: BlockId,
    m: PropsV,
    v: Seq<RunV>,
    e: DocV,
) -> bool {
    &&& doc::fresh_s(d, id)
    &&& block_filled_s(doc::root_added_s(d, index, id), id, m, v, e)
}

/// Setting a property of a block before it is filled adds nothing to what filling it does.
pub(crate) proof fn lemma_filled_over(
    d: DocV,
    id: BlockId,
    k: Seq<char>,
    x: ScalarV,
    m: PropsV,
    v: Seq<RunV>,
    e: DocV,
)
    requires
        block_filled_s(doc::meta_set_s(d, id, k, x), id, m, v, e),
    ensures
        block_filled_s(d, id, m, v, e),
{
    assert(e.s.metas =~= d.s.metas.insert(id, m));
}

/// Append a paragraph with these runs and, where it has one, this style.
pub fn append_paragraph(doc: &mut TextDoc, v: &Vec<Run>, style: &Option<String>) -> (r: Result<
    BlockId,
    ModelError,
>)
    ensures
        sequence::sound_s(old(doc)@) && r is Ok ==> sequence::sound_s(final(doc)@),
        old(doc)@.s.editable && insertable_s(old(doc)@.s.marks, 0, types::run_vs(v@)) ==> r is Ok,
        r matches Ok(id) ==> root_filled_s(
            old(doc)@,
            old(doc)@.s.roots.len() as int,
            id,
            body_meta_s(strs::opt_s(*style)),
            types::run_vs(v@),
            final(doc)@,
        ),
        r matches Err(e) ==> e == ModelError::Store,
{
    let ghost d = doc@;
    let id = match doc.add_root() {
        Ok(id) => id,
        Err(e) => {
            return Err(e);
        },
    };
    assert(doc@.s.roots[d.s.roots.len() as int] == id);
    match doc.fill_body(id, v, style) {
        Ok(()) => {},
        Err(e) => {
            return Err(e);
        },
    }
    proof {
        if sequence::sound_s(d) {
            let m = body_meta_s(strs::opt_s(*style));
            lemma_body_meta(strs::opt_s(*style));
            sequence::law_appended_paragraph_keeps_sound(d, id, m, types::run_vs(v@), doc@);
        }
    }
    Ok(id)
}

impl TextDoc {
    /// Make a new root block a paragraph of the body.
    pub(crate) fn fill_body(&mut self, id: BlockId, v: &Vec<Run>, style: &Option<String>) -> (r:
        Result<(), ModelError>)
        requires
            old(self)@.s.metas[id] == store::no_props_s(),
        ensures
            old(self)@.s.editable && store::live_s(old(self)@.s, id) && insertable_s(
                old(self)@.s.marks,
                0,
                types::run_vs(v@),
            ) ==> r is Ok,
            r is Ok ==> block_filled_s(
                old(self)@,
                id,
                body_meta_s(strs::opt_s(*style)),
                types::run_vs(v@),
                final(self)@,
            ),
            r matches Err(e) ==> e == ModelError::Store,
    {
        let ghost d = self@;
        proof {
            props::lemma_change_keys();
        }
        match self.set_meta(id, "type", &Scalar::Text("p".to_string())) {
            Ok(()) => {},
            Err(e) => {
                return Err(e);
            },
        }
        match self.put_style(id, style) {
            Ok(()) => {},
            Err(e) => {
                return Err(e);
            },
        }
        match self.fill_text(id, v) {
            Ok(()) => {},
            Err(e) => {
                return Err(e);
            },
        }
        proof {
            let m = body_meta_s(strs::opt_s(*style));
            assert(self@.s.metas =~= d.s.metas.insert(id, m));
        }
        Ok(())
    }
}

// ---------------------------------------------------------------- what becomes of the flat sequence

/// A block of the body is no table.
pub proof fn lemma_body_meta(style: Option<Seq<char>>)
    ensures
        !read::is_table_s(body_meta_s(style)),
{
    reveal_strlit("type");
    reveal_strlit("style");
    reveal_strlit("text");
    reveal_strlit("p");
    reveal_strlit("table");
    assert("p"@.len() != "table"@.len());
    assert("type"@[1] == 'y' && store::TEXT@[1] == 'e');
    assert("type"@.len() != "style"@.len());
}

/// A paragraph appended to the body is the last of the flat sequence; the others are as they were.
pub proof fn law_appended_paragraph_is_last(
    d: DocV,
    id: BlockId,
    style: Option<Seq<char>>,
    v: Seq<RunV>,
    e: DocV,
)
    requires
        root_filled_s(d, d.s.roots.len() as int, id, body_meta_s(style), v, e),
        doc::total_s(d),
    ensures
        read::refs_s(e) == read::refs_s(d).push(read::BlockRef::Top(id)),
        forall|i: int| 0 <= i < d.s.roots.len() ==> read::paragraph_s(e, #[trigger] d.s.roots[i])
            == read::paragraph_s(d, d.s.roots[i]),
{
    let n = d.s.roots.len();
    lemma_body_meta(style);
    assert(e.s.roots =~= d.s.roots.push(id));
    assert forall|i: int| 0 <= i < n implies e.s.metas[#[trigger] d.s.roots[i]]
        == d.s.metas[d.s.roots[i]] && d.s.roots[i] != id by {
        assert(d.s.roots.contains(d.s.roots[i]));
    }
    read::lemma_refs_prefix(d, e, n);
    assert(e.s.roots[n as int] == id);
    assert(read::refs_s(e) =~= read::refs_s(d).push(read::BlockRef::Top(id)));
}

} // verus!
