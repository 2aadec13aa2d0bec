//! Runs and the attributes of rich text.
//!
//! A run's formatting, its revision and the ranges that cover it are attributes of the text. The
//! attribute of a range carries the range's id in its name, so that ranges may overlap.

use vstd::prelude::*;
use crate::doc;
use crate::doc::{prop, Seg};
use crate::json;
use crate::json::{Json, MembersV};
use crate::search;
use crate::search::strip_prefix;
use crate::store;
use crate::store::{PropsV, Scalar, ScalarV, SegV};
use crate::strs;
use crate::strs::{dec, parse_uint};
use crate::types;
use crate::types::{
    FormatChange, FormatChangeV, Run, RunProps, RunPropsV, RunV, Track, TrackKind, TrackV,
};

verus! {

broadcast use vstd::string::group_string_axioms;

// ---------------------------------------------------------------- names of range attributes

/// The name of the attribute of a range.
pub open spec fn mark_key_s(prefix: Seq<char>, id: u64) -> Seq<char> {
    prefix + strs::dec_s(id as nat)
}

fn mark_key(prefix: &str, id: u64) -> (r: String)
    ensures
        r@ == mark_key_s(prefix@, id),
{
    let mut s = prefix.to_string();
    s.append(dec(id as u128).as_str());
    s
}

/// The attribute over a comment's range.
pub fn comment_mark_key(id: u64) -> (r: String)
    ensures
        r@ == mark_key_s("cmt~"@, id),
{
    mark_key("cmt~", id)
}

/// The attribute over a field's cached result.
pub fn field_mark_key(id: u64) -> (r: String)
    ensures
        r@ == mark_key_s("fld~"@, id),
{
    mark_key("fld~", id)
}

/// The attribute over a bookmark's range.
pub fn bookmark_mark_key(id: u64) -> (r: String)
    ensures
        r@ == mark_key_s("bkm~"@, id),
{
    mark_key("bkm~", id)
}

/// The attribute on the character that a collapsed bookmark sits before.
pub fn point_bookmark_mark_key(id: u64) -> (r: String)
    ensures
        r@ == mark_key_s("bkp~"@, id),
{
    mark_key("bkp~", id)
}

/// The attribute on the character that a collapsed bookmark sits after.
pub fn end_point_bookmark_mark_key(id: u64) -> (r: String)
    ensures
        r@ == mark_key_s("bkpe~"@, id),
{
    mark_key("bkpe~", id)
}

/// The attribute over a hyperlink's range.
pub fn link_mark_key(id: u64) -> (r: String)
    ensures
        r@ == mark_key_s("lnk~"@, id),
{
    mark_key("lnk~", id)
}

/// The attribute on a picture's placeholder.
pub fn image_mark_key(id: u64) -> (r: String)
    ensures
        r@ == mark_key_s("img~"@, id),
{
    mark_key("img~", id)
}

/// The attribute on the placeholder of verbatim markup.
pub fn raw_mark_key(id: u64) -> (r: String)
    ensures
        r@ == mark_key_s("raw~"@, id),
{
    mark_key("raw~", id)
}

/// The character that stands for a picture or an embedded object in the text.
pub const IMAGE_PLACEHOLDER: char = '\u{FFFC}';

/// The id in the name of a range attribute.
pub open spec fn mark_id_s(key: Seq<char>, prefix: Seq<char>) -> Option<u64> {
    match search::strip_prefix_s(key, prefix) {
        Some(rest) => match strs::parse_uint_s(rest, u64::MAX as nat) {
            Some(n) => Some(n as u64),
            None => None,
        },
        None => None,
    }
}

fn mark_id(key: &str, prefix: &str) -> (r: Option<u64>)
    ensures
        r == mark_id_s(key@, prefix@),
{
    match strip_prefix(key, prefix) {
        Some(rest) => parse_uint(rest.as_str(), u64::MAX),
        None => None,
    }
}

/// The name of a range's attribute tells its id, so two ranges of one kind never share a name.
pub proof fn law_mark_keys_carry_their_id(prefix: Seq<char>, id: u64, other: u64)
    ensures
        mark_id_s(mark_key_s(prefix, id), prefix) == Some(id),
        id != other ==> mark_key_s(prefix, id) != mark_key_s(prefix, other),
{
    lemma_key_id(prefix, id);
    lemma_key_id(prefix, other);
}

proof fn lemma_key_id(prefix: Seq<char>, id: u64)
    ensures
        mark_id_s(mark_key_s(prefix, id), prefix) == Some(id),
{
    let key = mark_key_s(prefix, id);
    strs::lemma_dec_parses(id as nat, u64::MAX as nat);
    assert(key.subrange(0, prefix.len() as int) =~= prefix);
    assert(key.subrange(prefix.len() as int, key.len() as int) =~= strs::dec_s(id as nat));
}

// ---------------------------------------------------------------- ids among the attributes

/// Whether an attribute is set.
pub open spec fn is_set_s(v: ScalarV) -> bool {
    !(v is Null) && v != ScalarV::Bool(false)
}

fn is_set(v: &Scalar) -> (r: bool)
    ensures
        r == is_set_s(v@),
{
    match v {
        Scalar::Null => false,
        Scalar::Bool(b) => *b,
        _ => true,
    }
}

/// The ids of the ranges of one kind among the attributes.
pub open spec fn id_set_s(attrs: PropsV, prefix: Seq<char>) -> Set<u64> {
    Set::new(|id: u64| names_s(attrs, prefix, id))
}

/// Whether some attribute names the range `id`.
pub open spec fn names_s(attrs: PropsV, prefix: Seq<char>, id: u64) -> bool {
    exists|k: Seq<char>| #[trigger]
        attrs.contains_key(k) && mark_id_s(k, prefix) == Some(id) && is_set_s(attrs[k])
}

/// The members of `s` below `n`, ascending.
pub open spec fn ascending_s(s: Set<u64>, n: nat) -> Seq<u64>
    decreases n,
{
    if n == 0 {
        Seq::empty()
    } else {
        let r = ascending_s(s, (n - 1) as nat);
        if s.contains((n - 1) as u64) {
            r.push((n - 1) as u64)
        } else {
            r
        }
    }
}

/// The ids of the ranges of one kind among the attributes, ascending.
pub open spec fn ids_s(attrs: PropsV, prefix: Seq<char>) -> Seq<u64> {
    ascending_s(id_set_s(attrs, prefix), 0x1_0000_0000_0000_0000)
}

/// The least id of the ranges of one kind among the attributes.
pub open spec fn id_s(attrs: PropsV, prefix: Seq<char>) -> Option<u64> {
    let v = ids_s(attrs, prefix);
    if v.len() == 0 {
        None
    } else {
        Some(v[0])
    }
}

pub open spec fn increasing_s(v: Seq<u64>) -> bool {
    forall|i: int, j: int| 0 <= i < j < v.len() ==> v[i] < v[j]
}

/// An increasing list is the ascending order of what it holds.
pub(crate) proof fn lemma_ascending(v: Seq<u64>, s: Set<u64>, k: int, n: nat)
    requires
        increasing_s(v),
        forall|x: u64| s.contains(x) <==> v.contains(x),
        0 <= k <= v.len(),
        n <= 0x1_0000_0000_0000_0000,
        forall|i: int| 0 <= i < k ==> v[i] < n,
        forall|i: int| k <= i < v.len() ==> n <= v[i],
    ensures
        ascending_s(s, n) == v.take(k),
    decreases n,
{
    if n == 0 {
        assert(k == 0) by {
            if k > 0 {
                assert(v[0] < n);
            }
        }
        assert(v.take(k) =~= Seq::empty());
    } else {
        let x = (n - 1) as u64;
        if s.contains(x) {
            let i = choose|i: int| 0 <= i < v.len() && v[i] == x;
            assert(i < k);
            assert(i == k - 1) by {
                if i < k - 1 {
                    assert(v[i] < v[k - 1]);
                }
            }
            lemma_ascending(v, s, k - 1, (n - 1) as nat);
            assert(v.take(k) =~= v.take(k - 1).push(x));
        } else {
            assert forall|i: int| 0 <= i < k implies v[i] < n - 1 by {
                if v[i] == x {
                    assert(v.contains(x));
                }
            }
            lemma_ascending(v, s, k, (n - 1) as nat);
        }
    }
}

/// Put `x` into an increasing list, once.
pub(crate) fn insert_sorted(v: &mut Vec<u64>, x: u64)
    requires
        increasing_s(old(v)@),
    ensures
        increasing_s(final(v)@),
        forall|y: u64| #[trigger] final(v)@.contains(y) == (old(v)@.contains(y) || y == x),
{
    let ghost was = v@;
    let mut at: usize = 0;
    while at < v.len() && v[at] < x
        invariant
            at <= v@.len(),
            v@ == was,
            forall|i: int| 0 <= i < at ==> v@[i] < x,
        decreases v@.len() - at,
    {
        at = at + 1;
    }
    if at < v.len() && v[at] == x {
        assert(was[at as int] == x);
        return;
    }
    v.insert(at, x);
    assert(v@ == was.insert(at as int, x));
    assert forall|y: u64| #[trigger] v@.contains(y) == (was.contains(y) || y == x) by {
        assert(v@[at as int] == x);
        if was.contains(y) {
            let i = choose|i: int| 0 <= i < was.len() && was[i] == y;
            if i < at {
                assert(v@[i] == y);
            } else {
                assert(v@[i + 1] == y);
            }
        }
        if v@.contains(y) && y != x {
            let i = choose|i: int| 0 <= i < v@.len() && v@[i] == y;
            if i < at {
                assert(was[i] == y);
            } else {
                assert(was[i - 1] == y);
            }
        }
    }
}

/// The ids of the ranges of one kind among the attributes, ascending.
fn ids(attrs: &Vec<(String, Scalar)>, prefix: &str) -> (r: Vec<u64>)
    requires
        doc::distinct_s(attrs@),
    ensures
        r@ == ids_s(doc::props_s(attrs@, attrs@.len()), prefix@),
{
    let ghost m = doc::props_s(attrs@, attrs@.len());
    proof {
        doc::lemma_props(attrs@, attrs@.len());
    }
    let mut out: Vec<u64> = Vec::new();
    let mut i: usize = 0;
    while i < attrs.len()
        invariant
            i <= attrs@.len(),
            increasing_s(out@),
            forall|x: u64|
                out@.contains(x) <==> exists|j: int|
                    0 <= j < i && mark_id_s((#[trigger] attrs@[j]).0@, prefix@) == Some(x)
                        && is_set_s(attrs@[j].1@),
        decreases attrs@.len() - i,
    {
        let ghost was = out@;
        if is_set(&attrs[i].1) {
            if let Some(id) = mark_id(attrs[i].0.as_str(), prefix) {
                insert_sorted(&mut out, id);
                assert(mark_id_s(attrs@[i as int].0@, prefix@) == Some(id));
            }
        }
        i = i + 1;
    }
    proof {
        let s = id_set_s(m, prefix@);
        assert forall|x: u64| s.contains(x) <==> out@.contains(x) by {
            if s.contains(x) {
                let k = choose|k: Seq<char>| #[trigger]
                    m.contains_key(k) && mark_id_s(k, prefix@) == Some(x) && is_set_s(m[k]);
                let j = choose|j: int| 0 <= j < attrs@.len() && (#[trigger] attrs@[j]).0@ == k;
                assert(attrs@[j].0@ == k);
            }
            if out@.contains(x) {
                let j = choose|j: int|
                    0 <= j < attrs@.len() && mark_id_s((#[trigger] attrs@[j]).0@, prefix@) == Some(
                        x,
                    ) && is_set_s(attrs@[j].1@);
                assert(m.contains_key(attrs@[j].0@));
            }
        }
        lemma_ascending(out@, s, out@.len() as int, 0x1_0000_0000_0000_0000);
        assert(out@.take(out@.len() as int) =~= out@);
    }
    out
}

fn first(v: &Vec<u64>) -> (r: Option<u64>)
    ensures
        r == (if v@.len() == 0 {
            None
        } else {
            Some(v@[0])
        }),
{
    if v.len() == 0 {
        None
    } else {
        Some(v[0])
    }
}

// ---------------------------------------------------------------- plain attributes

/// A property as text.
pub open spec fn text_prop_s(m: PropsV, key: Seq<char>) -> Option<Seq<char>> {
    match store::prop_s(m, key) {
        Some(ScalarV::Text(s)) => Some(s),
        _ => None,
    }
}

/// A property as a number.
pub open spec fn int_prop_s(m: PropsV, key: Seq<char>) -> Option<i64> {
    match store::prop_s(m, key) {
        Some(ScalarV::Int(n)) => Some(n),
        _ => None,
    }
}

/// A property as a truth value.
pub open spec fn flag_prop_s(m: PropsV, key: Seq<char>) -> Option<bool> {
    match store::prop_s(m, key) {
        Some(ScalarV::Bool(b)) => Some(b),
        _ => None,
    }
}

pub open spec fn on_s(m: PropsV, key: Seq<char>) -> bool {
    flag_prop_s(m, key) == Some(true)
}

pub(crate) fn text_prop(v: &Vec<(String, Scalar)>, key: &str) -> (r: Option<String>)
    requires
        doc::distinct_s(v@),
    ensures
        strs::opt_s(r) == text_prop_s(doc::props_s(v@, v@.len()), key@),
{
    match prop(v, key) {
        Some(Scalar::Text(s)) => Some(s.clone()),
        _ => None,
    }
}

pub(crate) fn int_prop(v: &Vec<(String, Scalar)>, key: &str) -> (r: Option<i64>)
    requires
        doc::distinct_s(v@),
    ensures
        r == int_prop_s(doc::props_s(v@, v@.len()), key@),
{
    match prop(v, key) {
        Some(Scalar::Int(n)) => Some(*n),
        _ => None,
    }
}

pub(crate) fn flag_prop(v: &Vec<(String, Scalar)>, key: &str) -> (r: Option<bool>)
    requires
        doc::distinct_s(v@),
    ensures
        r == flag_prop_s(doc::props_s(v@, v@.len()), key@),
{
    match prop(v, key) {
        Some(Scalar::Bool(b)) => Some(*b),
        _ => None,
    }
}

fn on(v: &Vec<(String, Scalar)>, key: &str) -> (r: bool)
    requires
        doc::distinct_s(v@),
    ensures
        r == on_s(doc::props_s(v@, v@.len()), key@),
{
    match flag_prop(v, key) {
        Some(b) => b,
        None => false,
    }
}

/// The low bits of a stored size.
pub open spec fn size_of_s(o: Option<i64>) -> Option<u16> {
    match o {
        Some(n) => Some(n as u16),
        None => None,
    }
}

pub(crate) fn size_of(o: Option<i64>) -> (r: Option<u16>)
    ensures
        r == size_of_s(o),
{
    match o {
        Some(n) => Some(#[verifier::truncate] (n as u16)),
        None => None,
    }
}

// ---------------------------------------------------------------- revisions

/// The text of a member, or nothing.
pub open spec fn text_or_empty_s(m: MembersV, key: Seq<char>) -> Seq<char> {
    match json::text_s(m, key) {
        Some(s) => s,
        None => Seq::empty(),
    }
}

pub(crate) fn text_or_empty(v: &Vec<(String, Json)>, key: &str) -> (r: String)
    requires
        json::distinct_s(v@),
    ensures
        r@ == text_or_empty_s(json::listed_s(*v), key@),
{
    match json::get_text(v, key) {
        Some(s) => s,
        None => {
            let r = String::new();
            assert(r@ =~= Seq::empty());
            r
        },
    }
}

pub open spec fn id_member_s(m: MembersV) -> u64 {
    match json::uint_s(m, "id"@) {
        Some(n) => n,
        None => 0,
    }
}

pub(crate) fn id_member(v: &Vec<(String, Json)>) -> (r: u64)
    requires
        json::distinct_s(v@),
    ensures
        r == id_member_s(json::listed_s(*v)),
{
    match json::get_uint(v, "id") {
        Some(n) => n,
        None => 0,
    }
}

/// The revision of a kind that a text of members describes.
pub open spec fn track_of_s(kind: TrackKind, m: MembersV) -> TrackV {
    TrackV {
        kind,
        author: text_or_empty_s(m, "author"@),
        date: text_or_empty_s(m, "date"@),
        id: id_member_s(m),
    }
}

pub(crate) fn track_of(kind: TrackKind, m: &Vec<(String, Json)>) -> (r: Track)
    requires
        json::distinct_s(m@),
    ensures
        r@ == track_of_s(kind, json::listed_s(*m)),
{
    Track {
        kind,
        author: text_or_empty(m, "author"),
        date: text_or_empty(m, "date"),
        id: id_member(m),
    }
}

/// The revision that a text describes, if it is JSON.
pub open spec fn track_text_s(kind: TrackKind, raw: Seq<char>) -> Option<TrackV> {
    match json::members_s(raw) {
        Some(m) => Some(track_of_s(kind, m)),
        None => None,
    }
}

fn track_text(kind: TrackKind, raw: &str) -> (r: Option<Track>)
    ensures
        types::track_ov(r) == track_text_s(kind, raw@),
{
    match json::members(raw) {
        Some(m) => Some(track_of(kind, &m)),
        None => None,
    }
}

/// The revision over a stretch of text: the first kind that is set.
pub open spec fn track_s(attrs: PropsV) -> Option<TrackV> {
    match text_prop_s(attrs, TrackKind::Ins.mark_key_s()) {
        Some(raw) => track_text_s(TrackKind::Ins, raw),
        None => match text_prop_s(attrs, TrackKind::Del.mark_key_s()) {
            Some(raw) => track_text_s(TrackKind::Del, raw),
            None => match text_prop_s(attrs, TrackKind::MoveFrom.mark_key_s()) {
                Some(raw) => track_text_s(TrackKind::MoveFrom, raw),
                None => match text_prop_s(attrs, TrackKind::MoveTo.mark_key_s()) {
                    Some(raw) => track_text_s(TrackKind::MoveTo, raw),
                    None => None,
                },
            },
        },
    }
}

fn track(attrs: &Vec<(String, Scalar)>) -> (r: Option<Track>)
    requires
        doc::distinct_s(attrs@),
    ensures
        types::track_ov(r) == track_s(doc::props_s(attrs@, attrs@.len())),
{
    if let Some(raw) = text_prop(attrs, TrackKind::Ins.mark_key()) {
        return track_text(TrackKind::Ins, raw.as_str());
    }
    if let Some(raw) = text_prop(attrs, TrackKind::Del.mark_key()) {
        return track_text(TrackKind::Del, raw.as_str());
    }
    if let Some(raw) = text_prop(attrs, TrackKind::MoveFrom.mark_key()) {
        return track_text(TrackKind::MoveFrom, raw.as_str());
    }
    if let Some(raw) = text_prop(attrs, TrackKind::MoveTo.mark_key()) {
        return track_text(TrackKind::MoveTo, raw.as_str());
    }
    None
}

/// The formatting that a list of members describes.
pub open spec fn run_props_of_s(m: MembersV) -> RunPropsV {
    RunPropsV {
        bold: json::flag_s(m, "b"@) == Some(true),
        italic: json::flag_s(m, "i"@) == Some(true),
        underline: json::flag_s(m, "u"@) == Some(true),
        strike: json::flag_s(m, "strike"@) == Some(true),
        size: size_of_s(json::int_s(m, "sz"@)),
        color: json::text_s(m, "color"@),
        font: json::text_s(m, "font"@),
        highlight: json::text_s(m, "hl"@),
        vert_align: json::text_s(m, "va"@),
        lang: json::text_s(m, "lang"@),
    }
}

fn lit(m: &Vec<(String, Json)>, key: &str) -> (r: bool)
    requires
        json::distinct_s(m@),
    ensures
        r == (json::flag_s(json::listed_s(*m), key@) == Some(true)),
{
    match json::get_flag(m, key) {
        Some(b) => b,
        None => false,
    }
}

fn run_props_of(m: &Vec<(String, Json)>) -> (r: RunProps)
    requires
        json::distinct_s(m@),
    ensures
        r@ == run_props_of_s(json::listed_s(*m)),
{
    RunProps {
        bold: lit(m, "b"),
        italic: lit(m, "i"),
        underline: lit(m, "u"),
        strike: lit(m, "strike"),
        size: size_of(json::get_int(m, "sz")),
        color: json::get_text(m, "color"),
        font: json::get_text(m, "font"),
        highlight: json::get_text(m, "hl"),
        vert_align: json::get_text(m, "va"),
        lang: json::get_text(m, "lang"),
    }
}

/// The formatting change that a text describes, if it is JSON.
pub open spec fn fmt_change_text_s(raw: Seq<char>) -> Option<FormatChangeV> {
    match json::members_s(raw) {
        Some(m) => Some(
            FormatChangeV {
                author: text_or_empty_s(m, "author"@),
                date: text_or_empty_s(m, "date"@),
                id: id_member_s(m),
                old: run_props_of_s(json::nested_s(m, "old"@)),
            },
        ),
        None => None,
    }
}

/// The tracked formatting change over a stretch of text.
pub open spec fn fmt_change_s(attrs: PropsV) -> Option<FormatChangeV> {
    match text_prop_s(attrs, "rfmt"@) {
        Some(raw) => fmt_change_text_s(raw),
        None => None,
    }
}

fn fmt_change(attrs: &Vec<(String, Scalar)>) -> (r: Option<FormatChange>)
    requires
        doc::distinct_s(attrs@),
    ensures
        types::format_change_ov(r) == fmt_change_s(doc::props_s(attrs@, attrs@.len())),
{
    let raw = match text_prop(attrs, "rfmt") {
        Some(raw) => raw,
        None => {
            return None;
        },
    };
    match json::members(raw.as_str()) {
        Some(m) => Some(
            FormatChange {
                author: text_or_empty(&m, "author"),
                date: text_or_empty(&m, "date"),
                id: id_member(&m),
                old: run_props_of(&json::get_nested(&m, "old")),
            },
        ),
        None => None,
    }
}

// ---------------------------------------------------------------- from rich text to runs

/// The run that a stretch of rich text is.
pub open spec fn run_s(s: SegV) -> RunV {
    let a = s.attrs;
    RunV {
        text: s.text,
        bold: on_s(a, "b"@),
        italic: on_s(a, "i"@),
        underline: on_s(a, "u"@),
        strike: on_s(a, "strike"@),
        size: size_of_s(int_prop_s(a, "sz"@)),
        color: text_prop_s(a, "color"@),
        font: text_prop_s(a, "font"@),
        highlight: text_prop_s(a, "hl"@),
        vert_align: text_prop_s(a, "va"@),
        lang: text_prop_s(a, "lang"@),
        char_style: text_prop_s(a, "rstyle"@),
        shading: text_prop_s(a, "rshd"@),
        track: track_s(a),
        fmt_change: fmt_change_s(a),
        comments: ids_s(a, "cmt~"@),
        field: id_s(a, "fld~"@),
        bookmarks: ids_s(a, "bkm~"@),
        point_bookmarks: ids_s(a, "bkp~"@),
        end_point_bookmarks: ids_s(a, "bkpe~"@),
        link: id_s(a, "lnk~"@),
        image: id_s(a, "img~"@),
        raw: id_s(a, "raw~"@),
    }
}

fn run_of(s: &Seg) -> (r: Run)
    requires
        doc::distinct_s(s.attrs@),
    ensures
        r@ == run_s(s@),
{
    let a = &s.attrs;
    let field = first(&ids(a, "fld~"));
    let link = first(&ids(a, "lnk~"));
    let image = first(&ids(a, "img~"));
    let raw = first(&ids(a, "raw~"));
    Run {
        text: s.text.clone(),
        bold: on(a, "b"),
        italic: on(a, "i"),
        underline: on(a, "u"),
        strike: on(a, "strike"),
        size: size_of(int_prop(a, "sz")),
        color: text_prop(a, "color"),
        font: text_prop(a, "font"),
        highlight: text_prop(a, "hl"),
        vert_align: text_prop(a, "va"),
        lang: text_prop(a, "lang"),
        char_style: text_prop(a, "rstyle"),
        shading: text_prop(a, "rshd"),
        track: track(a),
        fmt_change: fmt_change(a),
        comments: ids(a, "cmt~"),
        field,
        bookmarks: ids(a, "bkm~"),
        point_bookmarks: ids(a, "bkp~"),
        end_point_bookmarks: ids(a, "bkpe~"),
        link,
        image,
        raw,
    }
}

/// The runs of the first `n` stretches of a rich text, empty ones left out.
pub open spec fn runs_s(v: Seq<SegV>, n: nat) -> Seq<RunV>
    decreases n,
{
    if n == 0 {
        Seq::empty()
    } else {
        let r = runs_s(v, (n - 1) as nat);
        if v[n - 1].text.len() == 0 {
            r
        } else {
            r.push(run_s(v[n - 1]))
        }
    }
}

/// The runs of a rich text.
pub(crate) fn runs_from_delta(v: &Vec<Seg>) -> (r: Vec<Run>)
    requires
        forall|i: int| 0 <= i < v@.len() ==> doc::distinct_s((#[trigger] v@[i]).attrs@),
    ensures
        types::run_vs(r@) == runs_s(doc::seg_vs(v@), v@.len()),
{
    let ghost w = doc::seg_vs(v@);
    let mut out: Vec<Run> = Vec::new();
    let mut i: usize = 0;
    assert(types::run_vs(out@) =~= Seq::empty());
    while i < v.len()
        invariant
            i <= v@.len(),
            w == doc::seg_vs(v@),
            forall|i: int| 0 <= i < v@.len() ==> doc::distinct_s((#[trigger] v@[i]).attrs@),
            types::run_vs(out@) == runs_s(w, i as nat),
        decreases v@.len() - i,
    {
        assert(w[i as int] == v@[i as int]@);
        if v[i].text.as_str().unicode_len() > 0 {
            let ghost was = out@;
            let r = run_of(&v[i]);
            let ghost rv = r@;
            out.push(r);
            assert(types::run_vs(out@) =~= types::run_vs(was).push(rv));
        }
        i = i + 1;
    }
    out
}

} // verus!
