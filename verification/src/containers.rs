//! The document-wide maps: fields, bookmarks, hyperlinks, lists, style edits, comments,
//! verbatim markup, block wrappers, pictures and media.

use std::collections::HashMap;
use vstd::prelude::*;
use crate::doc;
use crate::doc::{prop, DocV, TextDoc};
use crate::error::ModelError;
use crate::json;
use crate::json::{Json, JsonV};
use crate::props;
use crate::read::BodyNode;
use crate::readback;
use crate::runs;
use crate::runs::{flag_prop, int_prop, size_of, text_or_empty, text_prop};
use crate::search;
use crate::search::{split, starts_with, trim_start};
use crate::store;
use crate::store::{BlockId, PropsV, Scalar, ScalarV};
use crate::strmap;
use crate::strmap::StrMap;
use crate::strs;
use crate::strs::{dec, dec_int, parse_sint, parse_uint};
use crate::style_parse;
use crate::style_parse::join;
use crate::styles;
use crate::styles::{AddedStyle, AddedStyleV, StyleProps, StylePropsV};
use crate::types;
use crate::types::{Align, Comment, CommentV, ImagePlacement, ImagePlacementV};
use crate::writing;
use crate::writing::MarkV;

verus! {

broadcast use {vstd::string::group_string_axioms, vstd::std_specs::hash::group_hash_axioms};

// ---------------------------------------------------------------- maps by id

/// The id that an entry's name spells.
pub open spec fn id_of_s(key: Seq<char>) -> Option<u64> {
    match strs::parse_uint_s(key, u64::MAX as nat) {
        Some(n) => Some(n as u64),
        None => None,
    }
}

/// The name of the entry of an id.
pub open spec fn id_key_s(id: u64) -> Seq<char> {
    strs::dec_s(id as nat)
}

pub(crate) fn id_key(id: u64) -> (r: String)
    ensures
        r@ == id_key_s(id),
{
    dec(id as u128)
}

/// Whether the entry called `k` holds a text for `id`.
pub open spec fn holds_text_s(m: PropsV, k: Seq<char>, id: u64) -> bool {
    m.contains_key(k) && id_of_s(k) == Some(id) && m[k] is Text
}

/// Whether `out` holds the texts of a map by id: an id is there exactly where some entry's name
/// spells it and holds a text, and its text is that of such an entry.
pub open spec fn texts_by_id_s(m: PropsV, out: Map<u64, String>) -> bool {
    &&& forall|k: Seq<char>, id: u64| #[trigger]
        holds_text_s(m, k, id) ==> out.contains_key(id)
    &&& forall|id: u64| #[trigger]
        out.contains_key(id) ==> exists|k: Seq<char>| #[trigger]
            holds_text_s(m, k, id) && m[k] == ScalarV::Text(out[id]@)
}

/// Whether every entry's name is the shortest spelling of its id.
pub open spec fn plain_keys_s(m: PropsV) -> bool {
    forall|k: Seq<char>| #[trigger]
        m.contains_key(k) ==> (id_of_s(k) matches Some(id) ==> k == id_key_s(id))
}

/// What was written under an id is read back, and every other id reads as before.
pub proof fn law_text_by_id_reads_back(
    m: PropsV,
    id: u64,
    text: Seq<char>,
    out: Map<u64, String>,
    was: Map<u64, String>,
    other: u64,
)
    requires
        plain_keys_s(m),
        texts_by_id_s(m, was),
        texts_by_id_s(m.insert(id_key_s(id), ScalarV::Text(text)), out),
    ensures
        out.contains_key(id) && out[id]@ == text,
        other != id ==> out.contains_key(other) == was.contains_key(other),
        other != id && was.contains_key(other) ==> out[other]@ == was[other]@,
{
    let n = m.insert(id_key_s(id), ScalarV::Text(text));
    strs::lemma_dec_parses(id as nat, u64::MAX as nat);
    assert(holds_text_s(n, id_key_s(id), id));
    let k = choose|k: Seq<char>| #[trigger]
        holds_text_s(n, k, id) && n[k] == ScalarV::Text(out[id]@);
    assert(k == id_key_s(id));
    if other != id {
        if was.contains_key(other) {
            let k = choose|k: Seq<char>| #[trigger]
                holds_text_s(m, k, other) && m[k] == ScalarV::Text(was[other]@);
            assert(k == id_key_s(other));
            assert(k != id_key_s(id));
            assert(holds_text_s(n, k, other));
            let j = choose|j: Seq<char>| #[trigger]
                holds_text_s(n, j, other) && n[j] == ScalarV::Text(out[other]@);
            assert(j != id_key_s(id));
            assert(m.contains_key(j));
            assert(j == id_key_s(other));
        }
        if out.contains_key(other) {
            let j = choose|j: Seq<char>| #[trigger]
                holds_text_s(n, j, other) && n[j] == ScalarV::Text(out[other]@);
            assert(j != id_key_s(id));
            assert(holds_text_s(m, j, other));
        }
    }
}

impl TextDoc {
    /// The texts of a side map by id.
    fn texts_by_id(&self, name: &str) -> (r: HashMap<u64, String>)
        requires
            store::is_side_map_s(name@),
        ensures
            texts_by_id_s(self@.s.maps[name@], r@),
    {
        let v = self.entries(name);
        let ghost m = self@.s.maps[name@];
        proof {
            doc::lemma_props(v@, v@.len());
        }
        let mut out: HashMap<u64, String> = HashMap::new();
        let mut i: usize = 0;
        while i < v.len()
            invariant
                i <= v@.len(),
                m == doc::props_s(v@, v@.len()),
                forall|j: int| 0 <= j < v@.len() ==> m.contains_key((#[trigger] v@[j]).0@)
                    && m[v@[j].0@] == v@[j].1@,
                forall|j: int, id: u64|
                    0 <= j < i && #[trigger] holds_text_s(m, v@[j].0@, id)
                        ==> out@.contains_key(id),
                forall|id: u64| #[trigger]
                    out@.contains_key(id) ==> exists|k: Seq<char>| #[trigger]
                        holds_text_s(m, k, id) && m[k] == ScalarV::Text(out@[id]@),
            decreases v@.len() - i,
        {
            let ghost was = out@;
            if let Some(id) = parse_uint(v[i].0.as_str(), u64::MAX) {
                if let Scalar::Text(s) = &v[i].1 {
                    out.insert(id, s.clone());
                    proof {
                        let k = v@[i as int].0@;
                        assert(holds_text_s(m, k, id) && m[k] == ScalarV::Text(out@[id]@));
                        assert forall|x: u64| #[trigger] out@.contains_key(x) implies exists|
                            k: Seq<char>,
                        | #[trigger]
                            holds_text_s(m, k, x) && m[k] == ScalarV::Text(out@[x]@) by {
                            if x != id {
                                assert(was.contains_key(x));
                            }
                        }
                    }
                }
            }
            i = i + 1;
        }
        proof {
            assert forall|k: Seq<char>, id: u64| #[trigger]
                holds_text_s(m, k, id) implies out@.contains_key(id) by {
                let j = choose|j: int| 0 <= j < v@.len() && (#[trigger] v@[j]).0@ == k;
                assert(holds_text_s(m, v@[j].0@, id));
            }
        }
        out
    }

    /// Set the text of an id in a side map.
    fn put_text_by_id(&mut self, name: &str, id: u64, text: &str) -> (r: Result<(), ModelError>)
        requires
            store::is_side_map_s(name@),
        ensures
            old(self)@.s.editable ==> r is Ok,
            r is Ok ==> final(self)@ == doc::entry_set_s(
                old(self)@,
                name@,
                id_key_s(id),
                ScalarV::Text(text@),
            ),
            r matches Err(e) ==> e == ModelError::Store,
    {
        self.put_entry(name, id_key(id).as_str(), &Scalar::Text(text.to_string()))
    }

    /// Clear the entry of an id in a side map.
    fn clear_id(&mut self, name: &str, id: u64) -> (r: Result<(), ModelError>)
        requires
            store::is_side_map_s(name@),
        ensures
            old(self)@.s.editable ==> r is Ok,
            r is Ok ==> final(self)@ == doc::entry_cleared_s(old(self)@, name@, id_key_s(id)),
            r matches Err(e) ==> e == ModelError::Store,
    {
        self.clear_entry(name, id_key(id).as_str())
    }
}

/// The instruction of every field, by id.
pub fn read_fields(doc: &TextDoc) -> (r: HashMap<u64, String>)
    ensures
        texts_by_id_s(doc@.s.maps[store::FIELDS@], r@),
{
    doc.texts_by_id(store::FIELDS)
}

/// Store a field's instruction.
pub fn write_field(doc: &mut TextDoc, id: u64, instr: &str) -> (r: Result<(), ModelError>)
    ensures
        old(doc)@.s.editable ==> r is Ok,
        r is Ok ==> final(doc)@ == doc::entry_set_s(
            old(doc)@,
            store::FIELDS@,
            id_key_s(id),
            ScalarV::Text(instr@),
        ),
        r matches Err(e) ==> e == ModelError::Store,
{
    doc.put_text_by_id(store::FIELDS, id, instr)
}

/// Remove a field's instruction; the marks over its result are not touched.
pub fn delete_field(doc: &mut TextDoc, id: u64) -> (r: Result<(), ModelError>)
    ensures
        old(doc)@.s.editable ==> r is Ok,
        r is Ok ==> final(doc)@ == doc::entry_cleared_s(
            old(doc)@,
            store::FIELDS@,
            id_key_s(id),
        ),
        r matches Err(e) ==> e == ModelError::Store,
{
    doc.clear_id(store::FIELDS, id)
}

/// The name of every bookmark, by id.
pub fn read_bookmarks(doc: &TextDoc) -> (r: HashMap<u64, String>)
    ensures
        texts_by_id_s(doc@.s.maps[store::BOOKMARKS@], r@),
{
    doc.texts_by_id(store::BOOKMARKS)
}

/// Store a bookmark's name.
pub fn write_bookmark(doc: &mut TextDoc, id: u64, name: &str) -> (r: Result<(), ModelError>)
    ensures
        old(doc)@.s.editable ==> r is Ok,
        r is Ok ==> final(doc)@ == doc::entry_set_s(
            old(doc)@,
            store::BOOKMARKS@,
            id_key_s(id),
            ScalarV::Text(name@),
        ),
        r matches Err(e) ==> e == ModelError::Store,
{
    doc.put_text_by_id(store::BOOKMARKS, id, name)
}

/// Remove a bookmark's name; the marks over its range are not touched.
pub fn delete_bookmark(doc: &mut TextDoc, id: u64) -> (r: Result<(), ModelError>)
    ensures
        old(doc)@.s.editable ==> r is Ok,
        r is Ok ==> final(doc)@ == doc::entry_cleared_s(
            old(doc)@,
            store::BOOKMARKS@,
            id_key_s(id),
        ),
        r matches Err(e) ==> e == ModelError::Store,
{
    doc.clear_id(store::BOOKMARKS, id)
}

/// The target of every hyperlink, by id: `#anchor` or a URL.
pub fn read_hyperlinks(doc: &TextDoc) -> (r: HashMap<u64, String>)
    ensures
        texts_by_id_s(doc@.s.maps[store::HYPERLINKS@], r@),
{
    doc.texts_by_id(store::HYPERLINKS)
}

/// Store a hyperlink's target.
pub fn write_hyperlink(doc: &mut TextDoc, id: u64, target: &str) -> (r: Result<(), ModelError>)
    ensures
        old(doc)@.s.editable ==> r is Ok,
        r is Ok ==> final(doc)@ == doc::entry_set_s(
            old(doc)@,
            store::HYPERLINKS@,
            id_key_s(id),
            ScalarV::Text(target@),
        ),
        r matches Err(e) ==> e == ModelError::Store,
{
    doc.put_text_by_id(store::HYPERLINKS, id, target)
}

/// Remove a hyperlink's target; the marks over its range are not touched.
pub fn delete_hyperlink(doc: &mut TextDoc, id: u64) -> (r: Result<(), ModelError>)
    ensures
        old(doc)@.s.editable ==> r is Ok,
        r is Ok ==> final(doc)@ == doc::entry_cleared_s(
            old(doc)@,
            store::HYPERLINKS@,
            id_key_s(id),
        ),
        r matches Err(e) ==> e == ModelError::Store,
{
    doc.clear_id(store::HYPERLINKS, id)
}

/// The verbatim markup of every embedded object, by id.
pub fn read_raw(doc: &TextDoc) -> (r: HashMap<u64, String>)
    ensures
        texts_by_id_s(doc@.s.maps[store::RAWXML@], r@),
{
    doc.texts_by_id(store::RAWXML)
}

/// Store the verbatim markup of an embedded object.
pub fn write_raw(doc: &mut TextDoc, id: u64, xml: &str) -> (r: Result<(), ModelError>)
    ensures
        old(doc)@.s.editable ==> r is Ok,
        r is Ok ==> final(doc)@ == doc::entry_set_s(
            old(doc)@,
            store::RAWXML@,
            id_key_s(id),
            ScalarV::Text(xml@),
        ),
        r matches Err(e) ==> e == ModelError::Store,
{
    doc.put_text_by_id(store::RAWXML, id, xml)
}

/// The opening of every block wrapper, by id.
pub fn read_block_wraps(doc: &TextDoc) -> (r: HashMap<u64, String>)
    ensures
        texts_by_id_s(doc@.s.maps[store::BLOCKWRAP@], r@),
{
    doc.texts_by_id(store::BLOCKWRAP)
}

/// Store the opening of a block wrapper.
pub fn write_block_wrap(doc: &mut TextDoc, id: u64, prefix: &str) -> (r: Result<(), ModelError>)
    ensures
        old(doc)@.s.editable ==> r is Ok,
        r is Ok ==> final(doc)@ == doc::entry_set_s(
            old(doc)@,
            store::BLOCKWRAP@,
            id_key_s(id),
            ScalarV::Text(prefix@),
        ),
        r matches Err(e) ==> e == ModelError::Store,
{
    doc.put_text_by_id(store::BLOCKWRAP, id, prefix)
}

// ---------------------------------------------------------------- lists made at runtime

/// Whether the entry called `k` holds the number format of list `id`.
pub open spec fn holds_list_s(m: PropsV, k: Seq<char>, id: i32) -> bool {
    m.contains_key(k) && strs::parse_int_s(k, i32::MIN as int, i32::MAX as int) == Some(id as int)
        && m[k] is Text
}

/// Whether `out` holds the lists of a map, as [`texts_by_id_s`] says of texts.
pub open spec fn lists_s(m: PropsV, out: Map<i32, String>) -> bool {
    &&& forall|k: Seq<char>, id: i32| #[trigger] holds_list_s(m, k, id) ==> out.contains_key(id)
    &&& forall|id: i32| #[trigger]
        out.contains_key(id) ==> exists|k: Seq<char>| #[trigger]
            holds_list_s(m, k, id) && m[k] == ScalarV::Text(out[id]@)
}

/// The lists made at runtime: the number format of the first level, by `numId`.
pub fn read_num_synth(doc: &TextDoc) -> (r: HashMap<i32, String>)
    ensures
        lists_s(doc@.s.maps[store::NUM_SYNTH@], r@),
{
    let v = doc.entries(store::NUM_SYNTH);
    let ghost m = doc@.s.maps[store::NUM_SYNTH@];
    proof {
        doc::lemma_props(v@, v@.len());
    }
    let mut out: HashMap<i32, String> = HashMap::new();
    let mut i: usize = 0;
    while i < v.len()
        invariant
            i <= v@.len(),
            m == doc::props_s(v@, v@.len()),
            forall|j: int| 0 <= j < v@.len() ==> m.contains_key((#[trigger] v@[j]).0@)
                && m[v@[j].0@] == v@[j].1@,
            forall|j: int, id: i32|
                0 <= j < i && #[trigger] holds_list_s(m, v@[j].0@, id) ==> out@.contains_key(id),
            forall|id: i32| #[trigger]
                out@.contains_key(id) ==> exists|k: Seq<char>| #[trigger]
                    holds_list_s(m, k, id) && m[k] == ScalarV::Text(out@[id]@),
        decreases v@.len() - i,
    {
        let ghost was = out@;
        if let Some(n) = parse_sint(v[i].0.as_str(), i32::MIN as i64, i32::MAX as i64) {
            if let Scalar::Text(s) = &v[i].1 {
                let id = n as i32;
                out.insert(id, s.clone());
                proof {
                    let k = v@[i as int].0@;
                    assert(holds_list_s(m, k, id) && m[k] == ScalarV::Text(out@[id]@));
                    assert forall|x: i32| #[trigger] out@.contains_key(x) implies exists|
                        k: Seq<char>,
                    | #[trigger]
                        holds_list_s(m, k, x) && m[k] == ScalarV::Text(out@[x]@) by {
                        if x != id {
                            assert(was.contains_key(x));
                        }
                    }
                }
            }
        }
        i = i + 1;
    }
    proof {
        assert forall|k: Seq<char>, id: i32| #[trigger]
            holds_list_s(m, k, id) implies out@.contains_key(id) by {
            let j = choose|j: int| 0 <= j < v@.len() && (#[trigger] v@[j]).0@ == k;
            assert(holds_list_s(m, v@[j].0@, id));
        }
    }
    out
}

/// Record a list made at runtime.
pub fn write_num_synth(doc: &mut TextDoc, num_id: i32, numfmt: &str) -> (r: Result<(), ModelError>)
    ensures
        old(doc)@.s.editable ==> r is Ok,
        r is Ok ==> final(doc)@ == doc::entry_set_s(
            old(doc)@,
            store::NUM_SYNTH@,
            strs::dec_int_s(num_id as int),
            ScalarV::Text(numfmt@),
        ),
        r matches Err(e) ==> e == ModelError::Store,
{
    doc.put_entry(
        store::NUM_SYNTH,
        dec_int(num_id as i64).as_str(),
        &Scalar::Text(numfmt.to_string()),
    )
}

// ---------------------------------------------------------------- nested maps

/// The properties with the first `n` of these set.
pub open spec fn put_all_s(m: PropsV, v: Seq<MarkV>, n: nat) -> PropsV
    decreases n,
{
    if n == 0 {
        m
    } else {
        put_all_s(m, v, (n - 1) as nat).insert(v[n - 1].0, v[n - 1].1)
    }
}

/// The list with one more entry, where there is one.
pub open spec fn add_s(v: Seq<MarkV>, key: Seq<char>, o: Option<ScalarV>) -> Seq<MarkV> {
    match o {
        Some(x) => v.push((key, x)),
        None => v,
    }
}

proof fn lemma_put_all_prefix(m: PropsV, v: Seq<MarkV>, w: Seq<MarkV>, n: nat)
    requires
        n <= v.len(),
        n <= w.len(),
        forall|i: int| 0 <= i < n ==> v[i] == w[i],
    ensures
        put_all_s(m, v, n) == put_all_s(m, w, n),
    decreases n,
{
    if n > 0 {
        lemma_put_all_prefix(m, v, w, (n - 1) as nat);
    }
}

/// What one more entry adds.
pub open spec fn set_s(m: PropsV, key: Seq<char>, o: Option<ScalarV>) -> PropsV {
    match o {
        Some(x) => m.insert(key, x),
        None => m,
    }
}

pub(crate) proof fn lemma_add(m: PropsV, v: Seq<MarkV>, key: Seq<char>, o: Option<ScalarV>)
    ensures
        put_all_s(m, add_s(v, key, o), add_s(v, key, o).len()) == set_s(
            put_all_s(m, v, v.len()),
            key,
            o,
        ),
{
    lemma_put_all_prefix(m, v, add_s(v, key, o), v.len());
}

fn push_entry(v: &mut Vec<(String, Scalar)>, key: &str, o: Option<Scalar>)
    requires
        writing::settable_s(writing::marks_vs(old(v)@)),
        o matches Some(x) ==> !(x is Null) && !(x is Other) && !(x is Bytes),
    ensures
        writing::marks_vs(final(v)@) == add_s(
            writing::marks_vs(old(v)@),
            key@,
            store::scalar_ov(o),
        ),
        writing::settable_s(writing::marks_vs(final(v)@)),
{
    let ghost was = v@;
    if let Some(x) = o {
        v.push((key.to_string(), x));
        assert(writing::marks_vs(v@) =~= writing::marks_vs(was).push((key@, x@)));
    }
}

impl TextDoc {
    /// Set entries of a map nested in a side map, which is made if it is not there.
    fn put_inner_all(&mut self, name: &str, key: &str, v: &Vec<(String, Scalar)>) -> (r: Result<
        (),
        ModelError,
    >)
        requires
            store::is_side_map_s(name@),
            writing::settable_s(writing::marks_vs(v@)),
        ensures
            old(self)@.s.editable && store::nestable_s(old(self)@.s, name@, key@) ==> r is Ok,
            r is Ok ==> final(self)@ == doc::inner_kept_s(
                old(self)@,
                name@,
                key@,
                put_all_s(
                    store::inner_s(old(self)@.s.nested[name@], key@),
                    writing::marks_vs(v@),
                    v@.len(),
                ),
            ),
            r matches Err(e) ==> e == ModelError::Store,
    {
        let ghost d = self@;
        let ghost w = writing::marks_vs(v@);
        let ghost m = store::inner_s(d.s.nested[name@], key@);
        proof {
            self.lemma_total();
        }
        match self.make_inner(name, key) {
            Ok(()) => {},
            Err(e) => {
                return Err(e);
            },
        }
        let mut i: usize = 0;
        while i < v.len()
            invariant
                i <= v@.len(),
                store::is_side_map_s(name@),
                w == writing::marks_vs(v@),
                writing::settable_s(w),
                self@ == doc::inner_kept_s(d, name@, key@, put_all_s(m, w, i as nat)),
                d == old(self)@,
                doc::total_s(d),
            decreases v@.len() - i,
        {
            assert(!(w[i as int].1 is Null) && !(w[i as int].1 is Other));
            let ghost e = self@;
            match self.put_inner(name, key, v[i].0.as_str(), &v[i].1) {
                Ok(()) => {},
                Err(e) => {
                    return Err(e);
                },
            }
            proof {
                let next = doc::inner_kept_s(d, name@, key@, put_all_s(m, w, (i + 1) as nat));
                assert(self@.s.maps =~= next.s.maps) by {
                    assert(self@.s.maps[name@] =~= next.s.maps[name@]);
                }
                assert(self@.s.nested =~= next.s.nested) by {
                    assert(self@.s.nested[name@] =~= next.s.nested[name@]);
                }
            }
            i = i + 1;
        }
        Ok(())
    }
}

// ---------------------------------------------------------------- style edits

pub open spec fn int_scalar_s(o: Option<i64>) -> Option<ScalarV> {
    match o {
        Some(n) => Some(ScalarV::Int(n)),
        None => None,
    }
}

fn int_scalar(o: Option<i64>) -> (r: Option<Scalar>)
    ensures
        store::scalar_ov(r) == int_scalar_s(o),
        r matches Some(x) ==> !(x is Null) && !(x is Other) && !(x is Bytes),
{
    match o {
        Some(n) => Some(Scalar::Int(n)),
        None => None,
    }
}

pub open spec fn flag_scalar_s(o: Option<bool>) -> Option<ScalarV> {
    match o {
        Some(b) => Some(ScalarV::Bool(b)),
        None => None,
    }
}

fn flag_scalar(o: Option<bool>) -> (r: Option<Scalar>)
    ensures
        store::scalar_ov(r) == flag_scalar_s(o),
        r matches Some(x) ==> !(x is Null) && !(x is Other) && !(x is Bytes),
{
    match o {
        Some(b) => Some(Scalar::Bool(b)),
        None => None,
    }
}

pub open spec fn text_scalar_s(o: Option<Seq<char>>) -> Option<ScalarV> {
    match o {
        Some(s) => Some(ScalarV::Text(s)),
        None => None,
    }
}

fn text_scalar(o: &Option<String>) -> (r: Option<Scalar>)
    ensures
        store::scalar_ov(r) == text_scalar_s(strs::opt_s(*o)),
        r matches Some(x) ==> !(x is Null) && !(x is Other) && !(x is Bytes),
{
    match o {
        Some(s) => Some(Scalar::Text(s.clone())),
        None => None,
    }
}

pub open spec fn wide16_s(o: Option<u16>) -> Option<i64> {
    match o {
        Some(n) => Some(n as i64),
        None => None,
    }
}

fn wide16(o: Option<u16>) -> (r: Option<i64>)
    ensures
        r == wide16_s(o),
{
    match o {
        Some(n) => Some(n as i64),
        None => None,
    }
}

pub open spec fn wide32_s(o: Option<u32>) -> Option<i64> {
    match o {
        Some(n) => Some(n as i64),
        None => None,
    }
}

fn wide32(o: Option<u32>) -> (r: Option<i64>)
    ensures
        r == wide32_s(o),
{
    match o {
        Some(n) => Some(n as i64),
        None => None,
    }
}

pub open spec fn widei_s(o: Option<i32>) -> Option<i64> {
    match o {
        Some(n) => Some(n as i64),
        None => None,
    }
}

fn widei(o: Option<i32>) -> (r: Option<i64>)
    ensures
        r == widei_s(o),
{
    match o {
        Some(n) => Some(n as i64),
        None => None,
    }
}

/// The line rule that goes with a line spacing: `auto` where none is set.
pub open spec fn rule_scalar_s(p: StylePropsV) -> Option<ScalarV> {
    match p.line_spacing {
        Some(_) => Some(
            ScalarV::Text(
                match p.line_rule {
                    Some(r) => r.as_str_s(),
                    None => "auto"@,
                },
            ),
        ),
        None => None,
    }
}

fn rule_scalar(p: &StyleProps) -> (r: Option<Scalar>)
    ensures
        store::scalar_ov(r) == rule_scalar_s(p@),
        r matches Some(x) ==> !(x is Null) && !(x is Other) && !(x is Bytes),
{
    match p.line_spacing {
        Some(_) => Some(
            Scalar::Text(
                match p.line_rule {
                    Some(r) => r.as_str().to_string(),
                    None => "auto".to_string(),
                },
            ),
        ),
        None => None,
    }
}

pub open spec fn align_scalar_s(o: Option<Align>) -> Option<ScalarV> {
    match o {
        Some(a) => Some(ScalarV::Text(a.as_str_s())),
        None => None,
    }
}

fn align_scalar(o: Option<Align>) -> (r: Option<Scalar>)
    ensures
        store::scalar_ov(r) == align_scalar_s(o),
        r matches Some(x) ==> !(x is Null) && !(x is Other) && !(x is Bytes),
{
    match o {
        Some(a) => Some(Scalar::Text(a.as_str().to_string())),
        None => None,
    }
}

/// The entries that keep an edit of a style: one for each property that is set.
pub open spec fn style_fields_s(p: StylePropsV) -> Seq<MarkV> {
    let v = Seq::empty();
    let v = add_s(v, "sz"@, int_scalar_s(wide16_s(p.size)));
    let v = add_s(v, "b"@, flag_scalar_s(p.bold));
    let v = add_s(v, "i"@, flag_scalar_s(p.italic));
    let v = add_s(v, "color"@, text_scalar_s(p.color));
    let v = add_s(v, "hl"@, text_scalar_s(p.highlight));
    let v = add_s(v, "font"@, text_scalar_s(p.font));
    let v = add_s(v, "line"@, int_scalar_s(wide16_s(p.line_spacing)));
    let v = add_s(v, "lrule"@, rule_scalar_s(p));
    let v = add_s(v, "before"@, int_scalar_s(wide32_s(p.space_before)));
    let v = add_s(v, "after"@, int_scalar_s(wide32_s(p.space_after)));
    let v = add_s(v, "numid"@, int_scalar_s(widei_s(p.num_id)));
    let v = add_s(v, "ilvl"@, int_scalar_s(widei_s(p.num_ilvl)));
    let v = add_s(v, "keepnext"@, flag_scalar_s(p.keep_next));
    let v = add_s(v, "ctxsp"@, flag_scalar_s(p.contextual_spacing));
    let v = add_s(v, "align"@, align_scalar_s(p.align));
    add_s(v, "pbb"@, flag_scalar_s(p.page_break_before))
}

fn style_fields(p: &StyleProps) -> (v: Vec<(String, Scalar)>)
    ensures
        writing::marks_vs(v@) == style_fields_s(p@),
        writing::settable_s(writing::marks_vs(v@)),
{
    let mut v: Vec<(String, Scalar)> = Vec::new();
    assert(writing::marks_vs(v@) =~= Seq::empty());
    push_entry(&mut v, "sz", int_scalar(wide16(p.size)));
    push_entry(&mut v, "b", flag_scalar(p.bold));
    push_entry(&mut v, "i", flag_scalar(p.italic));
    push_entry(&mut v, "color", text_scalar(&p.color));
    push_entry(&mut v, "hl", text_scalar(&p.highlight));
    push_entry(&mut v, "font", text_scalar(&p.font));
    push_entry(&mut v, "line", int_scalar(wide16(p.line_spacing)));
    push_entry(&mut v, "lrule", rule_scalar(p));
    push_entry(&mut v, "before", int_scalar(wide32(p.space_before)));
    push_entry(&mut v, "after", int_scalar(wide32(p.space_after)));
    push_entry(&mut v, "numid", int_scalar(widei(p.num_id)));
    push_entry(&mut v, "ilvl", int_scalar(widei(p.num_ilvl)));
    push_entry(&mut v, "keepnext", flag_scalar(p.keep_next));
    push_entry(&mut v, "ctxsp", flag_scalar(p.contextual_spacing));
    push_entry(&mut v, "align", align_scalar(p.align));
    push_entry(&mut v, "pbb", flag_scalar(p.page_break_before));
    v
}

/// Record an edit of style `id`: the properties that are set replace those recorded before, and
/// the others stay.
pub fn write_style_override(doc: &mut TextDoc, id: &str, p: &StyleProps) -> (r: Result<(), ModelError>)
    ensures
        old(doc)@.s.editable && store::nestable_s(old(doc)@.s, store::STYLE_OVERRIDES@, id@)
            ==> r is Ok,
        r is Ok ==> final(doc)@ == doc::inner_kept_s(
            old(doc)@,
            store::STYLE_OVERRIDES@,
            id@,
            put_all_s(
                store::inner_s(old(doc)@.s.nested[store::STYLE_OVERRIDES@], id@),
                style_fields_s(p@),
                style_fields_s(p@).len(),
            ),
        ),
        r matches Err(e) ==> e == ModelError::Store,
{
    let v = style_fields(p);
    assert(v@.len() == writing::marks_vs(v@).len());
    doc.put_inner_all(store::STYLE_OVERRIDES, id, &v)
}

/// The style properties that entries keep.
pub open spec fn style_props_s(m: PropsV) -> StylePropsV {
    StylePropsV {
        size: runs::size_of_s(runs::int_prop_s(m, "sz"@)),
        bold: runs::flag_prop_s(m, "b"@),
        italic: runs::flag_prop_s(m, "i"@),
        color: runs::text_prop_s(m, "color"@),
        highlight: runs::text_prop_s(m, "hl"@),
        font: runs::text_prop_s(m, "font"@),
        line_spacing: runs::size_of_s(runs::int_prop_s(m, "line"@)),
        line_rule: style_parse::line_rule_s(runs::text_prop_s(m, "lrule"@)),
        space_before: props::wide_s(runs::int_prop_s(m, "before"@)),
        space_after: props::wide_s(runs::int_prop_s(m, "after"@)),
        num_id: props::signed_s(runs::int_prop_s(m, "numid"@)),
        num_ilvl: props::signed_s(runs::int_prop_s(m, "ilvl"@)),
        keep_next: runs::flag_prop_s(m, "keepnext"@),
        contextual_spacing: runs::flag_prop_s(m, "ctxsp"@),
        align: props::align_of_s(runs::text_prop_s(m, "align"@)),
        page_break_before: runs::flag_prop_s(m, "pbb"@),
        ..StylePropsV::initial()
    }
}

fn style_props(v: &Vec<(String, Scalar)>) -> (r: StyleProps)
    requires
        doc::distinct_s(v@),
    ensures
        r@ == style_props_s(doc::props_s(v@, v@.len())),
{
    let mut p = StyleProps::default();
    p.size = size_of(int_prop(v, "sz"));
    p.bold = flag_prop(v, "b");
    p.italic = flag_prop(v, "i");
    p.color = text_prop(v, "color");
    p.highlight = text_prop(v, "hl");
    p.font = text_prop(v, "font");
    p.line_spacing = size_of(int_prop(v, "line"));
    p.line_rule = props::rule_of(text_prop(v, "lrule"));
    p.space_before = props::wide(int_prop(v, "before"));
    p.space_after = props::wide(int_prop(v, "after"));
    p.num_id = props::signed(int_prop(v, "numid"));
    p.num_ilvl = props::signed(int_prop(v, "ilvl"));
    p.keep_next = flag_prop(v, "keepnext");
    p.contextual_spacing = flag_prop(v, "ctxsp");
    p.align = props::align_of(text_prop(v, "align"));
    p.page_break_before = flag_prop(v, "pbb");
    p
}

/// Whether a side map holds a nested map under `k`.
pub open spec fn holds_inner_s(d: DocV, name: Seq<char>, k: Seq<char>) -> bool {
    d.s.maps[name].contains_key(k) && d.s.nested[name].contains_key(k)
}

/// The edits of styles, by style id.
pub fn read_style_overrides(doc: &TextDoc) -> (r: StrMap<StyleProps>)
    ensures
        forall|k: Seq<char>| #[trigger]
            strmap::has_s(r@, k) == holds_inner_s(doc@, store::STYLE_OVERRIDES@, k),
        forall|k: Seq<char>| #[trigger]
            strmap::has_s(r@, k) ==> strmap::get_s(r@, k) == Some(
                style_props_s(doc@.s.nested[store::STYLE_OVERRIDES@][k]),
            ),
{
    let v = doc.entries(store::STYLE_OVERRIDES);
    let ghost m = doc@.s.maps[store::STYLE_OVERRIDES@];
    let ghost n = doc@.s.nested[store::STYLE_OVERRIDES@];
    proof {
        doc::lemma_props(v@, v@.len());
    }
    let mut out: StrMap<StyleProps> = StrMap::new();
    let mut i: usize = 0;
    while i < v.len()
        invariant
            i <= v@.len(),
            m == doc@.s.maps[store::STYLE_OVERRIDES@],
            n == doc@.s.nested[store::STYLE_OVERRIDES@],
            m == doc::props_s(v@, v@.len()),
            forall|j: int| 0 <= j < v@.len() ==> m.contains_key((#[trigger] v@[j]).0@),
            forall|j: int|
                0 <= j < i ==> (n.contains_key((#[trigger] v@[j]).0@) ==> strmap::has_s(
                    out@,
                    v@[j].0@,
                )),
            forall|k: Seq<char>| #[trigger]
                strmap::has_s(out@, k) ==> m.contains_key(k) && n.contains_key(k)
                    && strmap::get_s(out@, k) == Some(style_props_s(n[k])),
        decreases v@.len() - i,
    {
        let ghost was = out@;
        let key = v[i].0.as_str();
        if let Some(inner) = doc.inner(store::STYLE_OVERRIDES, key) {
            let p = style_props(&inner);
            let ghost pv = p@;
            out.insert(key, p);
            proof {
                assert forall|k: Seq<char>| #[trigger]
                    strmap::has_s(out@, k) implies m.contains_key(k) && n.contains_key(k)
                    && strmap::get_s(out@, k) == Some(style_props_s(n[k])) by {
                    strmap::law_put_then_get(was, key@, pv, k);
                    if k != key@ {
                        assert(strmap::has_s(was, k));
                    } else {
                        assert(m.contains_key(v@[i as int].0@));
                    }
                }
                assert forall|j: int| 0 <= j <= i implies (n.contains_key(
                    (#[trigger] v@[j]).0@,
                ) ==> strmap::has_s(out@, v@[j].0@)) by {
                    strmap::law_put_then_get(was, key@, pv, v@[j].0@);
                }
            }
        }
        i = i + 1;
    }
    proof {
        assert forall|k: Seq<char>| #[trigger] strmap::has_s(out@, k) == holds_inner_s(
            doc@,
            store::STYLE_OVERRIDES@,
            k,
        ) by {
            if holds_inner_s(doc@, store::STYLE_OVERRIDES@, k) {
                let j = choose|j: int| 0 <= j < v@.len() && (#[trigger] v@[j]).0@ == k;
                assert(strmap::has_s(out@, v@[j].0@));
            }
        }
    }
    out
}

/// The entries that keep a style added at runtime.
pub open spec fn added_fields_s(name: Seq<char>, based_on: Option<Seq<char>>) -> Seq<MarkV> {
    add_s(
        add_s(Seq::empty(), "name"@, Some(ScalarV::Text(name))),
        "basedOn"@,
        text_scalar_s(based_on),
    )
}

/// Record a style added at runtime.
pub fn write_added_style(doc: &mut TextDoc, id: &str, name: &str, based_on: &Option<String>) -> (r:
    Result<(), ModelError>)
    ensures
        old(doc)@.s.editable && store::nestable_s(old(doc)@.s, store::STYLE_ADDED@, id@)
            ==> r is Ok,
        r is Ok ==> final(doc)@ == doc::inner_kept_s(
            old(doc)@,
            store::STYLE_ADDED@,
            id@,
            put_all_s(
                store::inner_s(old(doc)@.s.nested[store::STYLE_ADDED@], id@),
                added_fields_s(name@, strs::opt_s(*based_on)),
                added_fields_s(name@, strs::opt_s(*based_on)).len(),
            ),
        ),
        r matches Err(e) ==> e == ModelError::Store,
{
    let mut v: Vec<(String, Scalar)> = Vec::new();
    assert(writing::marks_vs(v@) =~= Seq::empty());
    push_entry(&mut v, "name", Some(Scalar::Text(name.to_string())));
    push_entry(&mut v, "basedOn", text_scalar(based_on));
    assert(v@.len() == writing::marks_vs(v@).len());
    doc.put_inner_all(store::STYLE_ADDED, id, &v)
}

/// The style that entries keep; none without a name.
pub open spec fn added_style_s(m: PropsV) -> Option<AddedStyleV> {
    match runs::text_prop_s(m, "name"@) {
        Some(name) => Some(AddedStyleV { name, based_on: runs::text_prop_s(m, "basedOn"@) }),
        None => None,
    }
}

/// Whether a style added at runtime is recorded under `k`.
pub open spec fn holds_added_s(d: DocV, k: Seq<char>) -> bool {
    holds_inner_s(d, store::STYLE_ADDED@, k) && added_style_s(
        d.s.nested[store::STYLE_ADDED@][k],
    ) is Some
}

/// The styles added at runtime, by style id.
pub fn read_added_styles(doc: &TextDoc) -> (r: StrMap<AddedStyle>)
    ensures
        forall|k: Seq<char>| #[trigger] strmap::has_s(r@, k) == holds_added_s(doc@, k),
        forall|k: Seq<char>| #[trigger]
            strmap::has_s(r@, k) ==> strmap::get_s(r@, k) == added_style_s(
                doc@.s.nested[store::STYLE_ADDED@][k],
            ),
{
    let v = doc.entries(store::STYLE_ADDED);
    let ghost m = doc@.s.maps[store::STYLE_ADDED@];
    let ghost n = doc@.s.nested[store::STYLE_ADDED@];
    proof {
        doc::lemma_props(v@, v@.len());
    }
    let mut out: StrMap<AddedStyle> = StrMap::new();
    let mut i: usize = 0;
    while i < v.len()
        invariant
            i <= v@.len(),
            m == doc@.s.maps[store::STYLE_ADDED@],
            n == doc@.s.nested[store::STYLE_ADDED@],
            m == doc::props_s(v@, v@.len()),
            forall|j: int| 0 <= j < v@.len() ==> m.contains_key((#[trigger] v@[j]).0@),
            forall|j: int|
                0 <= j < i ==> (holds_added_s(doc@, (#[trigger] v@[j]).0@) ==> strmap::has_s(
                    out@,
                    v@[j].0@,
                )),
            forall|k: Seq<char>| #[trigger]
                strmap::has_s(out@, k) ==> holds_added_s(doc@, k) && strmap::get_s(out@, k)
                    == added_style_s(n[k]),
        decreases v@.len() - i,
    {
        let ghost was = out@;
        let key = v[i].0.as_str();
        if let Some(inner) = doc.inner(store::STYLE_ADDED, key) {
            if let Some(name) = text_prop(&inner, "name") {
                let a = AddedStyle { name, based_on: text_prop(&inner, "basedOn") };
                let ghost av = a@;
                out.insert(key, a);
                proof {
                    assert(m.contains_key(v@[i as int].0@));
                    assert forall|k: Seq<char>| #[trigger]
                        strmap::has_s(out@, k) implies holds_added_s(doc@, k) && strmap::get_s(
                        out@,
                        k,
                    ) == added_style_s(n[k]) by {
                        strmap::law_put_then_get(was, key@, av, k);
                        if k != key@ {
                            assert(strmap::has_s(was, k));
                        }
                    }
                    assert forall|j: int| 0 <= j <= i implies (holds_added_s(
                        doc@,
                        (#[trigger] v@[j]).0@,
                    ) ==> strmap::has_s(out@, v@[j].0@)) by {
                        strmap::law_put_then_get(was, key@, av, v@[j].0@);
                    }
                }
            }
        }
        i = i + 1;
    }
    proof {
        assert forall|k: Seq<char>| #[trigger] strmap::has_s(out@, k) == holds_added_s(
            doc@,
            k,
        ) by {
            if holds_added_s(doc@, k) {
                let j = choose|j: int| 0 <= j < v@.len() && (#[trigger] v@[j]).0@ == k;
                assert(strmap::has_s(out@, v@[j].0@));
            }
        }
    }
    out
}

// ---------------------------------------------------------------- comments

/// The members that keep a comment.
pub open spec fn comment_members_s(c: CommentV) -> json::MembersV {
    let parent = match c.parent {
        Some(n) => JsonV::UInt(n),
        None => JsonV::Null,
    };
    let m = Map::<Seq<char>, JsonV>::empty().insert("id"@, JsonV::UInt(c.id));
    let m = m.insert("author"@, JsonV::Text(c.author)).insert("initials"@, JsonV::Text(c.initials));
    let m = m.insert("date"@, JsonV::Text(c.date)).insert("parent"@, parent);
    m.insert("resolved"@, JsonV::Bool(c.resolved)).insert("text"@, JsonV::Text(c.text))
}

/// The text that keeps a comment.
pub open spec fn comment_text_s(c: CommentV) -> Seq<char> {
    json::object_s(comment_members_s(c))
}

/// The comment that members describe; none without an id.
pub open spec fn comment_of_s(m: json::MembersV) -> Option<CommentV> {
    match json::uint_s(m, "id"@) {
        Some(id) => Some(
            CommentV {
                id,
                author: runs::text_or_empty_s(m, "author"@),
                initials: runs::text_or_empty_s(m, "initials"@),
                date: runs::text_or_empty_s(m, "date"@),
                parent: json::uint_s(m, "parent"@),
                resolved: json::flag_s(m, "resolved"@) == Some(true),
                text: runs::text_or_empty_s(m, "text"@),
            },
        ),
        None => None,
    }
}

/// The comment that a text keeps.
pub open spec fn comment_s(raw: Seq<char>) -> Option<CommentV> {
    match json::members_s(raw) {
        Some(m) => comment_of_s(m),
        None => None,
    }
}

/// Two lists of members that agree on every name describe the same comment.
proof fn lemma_comment_members(c: CommentV, m: json::MembersV)
    requires
        forall|k: Seq<char>| #[trigger]
            json::member_s(m, k) == json::member_s(comment_members_s(c), k),
    ensures
        comment_of_s(m) == Some(c),
{
    reveal_strlit("id");
    reveal_strlit("author");
    reveal_strlit("initials");
    reveal_strlit("date");
    reveal_strlit("parent");
    reveal_strlit("resolved");
    reveal_strlit("text");
    let w = comment_members_s(c);
    assert("id"@.len() == 2 && "id"@[0] == 'i' && "id"@[1] == 'd');
    assert("author"@.len() == 6 && "author"@[0] == 'a' && "author"@[1] == 'u');
    assert("initials"@.len() == 8 && "initials"@[0] == 'i' && "initials"@[1] == 'n');
    assert("date"@.len() == 4 && "date"@[0] == 'd' && "date"@[1] == 'a');
    assert("parent"@.len() == 6 && "parent"@[0] == 'p' && "parent"@[1] == 'a');
    assert("resolved"@.len() == 8 && "resolved"@[0] == 'r' && "resolved"@[1] == 'e');
    assert("text"@.len() == 4 && "text"@[0] == 't' && "text"@[1] == 'e');
    assert(json::member_s(m, "id"@) == json::member_s(w, "id"@));
    assert(json::member_s(m, "author"@) == json::member_s(w, "author"@));
    assert(json::member_s(m, "initials"@) == json::member_s(w, "initials"@));
    assert(json::member_s(m, "date"@) == json::member_s(w, "date"@));
    assert(json::member_s(m, "parent"@) == json::member_s(w, "parent"@));
    assert(json::member_s(m, "resolved"@) == json::member_s(w, "resolved"@));
    assert(json::member_s(m, "text"@) == json::member_s(w, "text"@));
    assert(comment_of_s(m)->0 =~= c);
}

fn comment_to_json(c: &Comment) -> (r: String)
    ensures
        r@ == comment_text_s(c@),
        comment_s(r@) == Some(c@),
{
    let parent = match c.parent {
        Some(n) => Json::UInt(n),
        None => Json::Null,
    };
    let mut v: Vec<(String, Json)> = Vec::new();
    json::put(&mut v, "id", Json::UInt(c.id));
    json::put(&mut v, "author", Json::Text(c.author.clone()));
    json::put(&mut v, "initials", Json::Text(c.initials.clone()));
    json::put(&mut v, "date", Json::Text(c.date.clone()));
    json::put(&mut v, "parent", parent);
    json::put(&mut v, "resolved", Json::Bool(c.resolved));
    json::put(&mut v, "text", Json::Text(c.text.clone()));
    let r = json::object(&v);
    proof {
        lemma_comment_members(c@, json::members_s(r@)->0);
    }
    r
}

fn comment_from_json(raw: &str) -> (r: Option<Comment>)
    ensures
        types::comment_ov(r) == comment_s(raw@),
{
    let m = match json::members(raw) {
        Some(m) => m,
        None => {
            return None;
        },
    };
    let id = match json::get_uint(&m, "id") {
        Some(n) => n,
        None => {
            return None;
        },
    };
    let resolved = match json::get_flag(&m, "resolved") {
        Some(b) => b,
        None => false,
    };
    Some(
        Comment {
            id,
            author: text_or_empty(&m, "author"),
            initials: text_or_empty(&m, "initials"),
            date: text_or_empty(&m, "date"),
            parent: json::get_uint(&m, "parent"),
            resolved,
            text: text_or_empty(&m, "text"),
        },
    )
}

/// The comment that the entry called `k` keeps.
pub open spec fn comment_at_s(m: PropsV, k: Seq<char>) -> Option<CommentV> {
    match runs::text_prop_s(m, k) {
        Some(raw) => comment_s(raw),
        None => None,
    }
}

/// The names of the entries that keep a comment.
pub open spec fn comment_keys_s(m: PropsV) -> Set<Seq<char>> {
    Set::new(|k: Seq<char>| comment_at_s(m, k) is Some)
}

/// Whether `v` is the comments of a map, by ascending id.
pub open spec fn comments_s(m: PropsV, v: Seq<CommentV>) -> bool {
    &&& forall|i: int, j: int| 0 <= i < j < v.len() ==> v[i].id <= v[j].id
    &&& forall|k: Seq<char>| #[trigger]
        comment_at_s(m, k) is Some ==> v.contains(comment_at_s(m, k)->0)
    &&& forall|i: int|
        0 <= i < v.len() ==> exists|k: Seq<char>| #[trigger]
            comment_at_s(m, k) == Some(#[trigger] v[i])
    &&& comment_keys_s(m).finite()
    &&& v.len() == comment_keys_s(m).len()
}

fn insert_comment(v: &mut Vec<Comment>, c: Comment)
    requires
        forall|i: int, j: int| 0 <= i < j < old(v)@.len() ==> old(v)@[i].id <= old(v)@[j].id,
    ensures
        forall|i: int, j: int| 0 <= i < j < final(v)@.len() ==> final(v)@[i].id <= final(v)@[j].id,
        exists|at: int|
            0 <= at <= old(v)@.len() && types::comment_vs(final(v)@) == #[trigger] types::comment_vs(
                old(v)@,
            ).insert(at, c@),
{
    let mut at: usize = 0;
    while at < v.len() && v[at].id <= c.id
        invariant
            at <= v@.len(),
            v@ == old(v)@,
            forall|i: int| 0 <= i < at ==> v@[i].id <= c.id,
        decreases v@.len() - at,
    {
        at = at + 1;
    }
    let ghost was = v@;
    let ghost cv = c@;
    v.insert(at, c);
    proof {
        assert(types::comment_vs(v@) =~= types::comment_vs(was).insert(at as int, cv));
        assert forall|i: int, j: int| 0 <= i < j < v@.len() implies v@[i].id <= v@[j].id by {
            if at < was.len() {
                assert(was[at as int].id > cv.id);
            }
            if i < at && j > at {
                assert(was[i].id <= was[j - 1].id);
            } else if i < at && j < at {
                assert(was[i].id <= was[j].id);
            } else if i > at {
                assert(was[i - 1].id <= was[j - 1].id);
            } else if i == at && j - 1 > at {
                assert(was[at as int].id <= was[j - 1].id);
            }
        }
    }
}

/// Every comment, by ascending id.
pub fn read_comments(doc: &TextDoc) -> (r: Vec<Comment>)
    ensures
        comments_s(doc@.s.maps[store::COMMENTS@], types::comment_vs(r@)),
{
    let v = doc.entries(store::COMMENTS);
    let ghost m = doc@.s.maps[store::COMMENTS@];
    proof {
        doc::lemma_props(v@, v@.len());
    }
    let mut out: Vec<Comment> = Vec::new();
    let ghost mut seen: Set<Seq<char>> = Set::empty();
    let mut i: usize = 0;
    while i < v.len()
        invariant
            i <= v@.len(),
            m == doc::props_s(v@, v@.len()),
            doc::distinct_s(v@),
            forall|j: int| 0 <= j < v@.len() ==> m.contains_key((#[trigger] v@[j]).0@)
                && m[v@[j].0@] == v@[j].1@,
            forall|a: int, b: int| 0 <= a < b < out@.len() ==> out@[a].id <= out@[b].id,
            seen.finite(),
            seen.len() == out@.len(),
            forall|k: Seq<char>| #[trigger]
                seen.contains(k) ==> comment_at_s(m, k) is Some && types::comment_vs(
                    out@,
                ).contains(comment_at_s(m, k)->0) && exists|j: int|
                    0 <= j < i && (#[trigger] v@[j]).0@ == k,
            forall|j: int|
                0 <= j < i && comment_at_s(m, (#[trigger] v@[j]).0@) is Some ==> seen.contains(
                    v@[j].0@,
                ),
            forall|a: int|
                0 <= a < out@.len() ==> exists|k: Seq<char>| #[trigger]
                    comment_at_s(m, k) == Some((#[trigger] out@[a])@),
        decreases v@.len() - i,
    {
        let ghost was = out@;
        let ghost before = seen;
        let ghost key = v@[i as int].0@;
        let c = match &v[i].1 {
            Scalar::Text(raw) => comment_from_json(raw.as_str()),
            _ => None,
        };
        if let Some(c) = c {
            let ghost cv = c@;
            insert_comment(&mut out, c);
            proof {
                let at = choose|at: int|
                    0 <= at <= was.len() && types::comment_vs(out@)
                        == #[trigger] types::comment_vs(was).insert(at, cv);
                let a = types::comment_vs(was);
                let b = types::comment_vs(out@);
                assert(b == a.insert(at, cv));
                assert(comment_at_s(m, key) == Some(cv));
                assert(!before.contains(key));
                seen = seen.insert(key);
                assert(b[at] == cv);
                assert forall|k: Seq<char>| #[trigger] seen.contains(k) implies comment_at_s(
                    m,
                    k,
                ) is Some && b.contains(comment_at_s(m, k)->0) && exists|j: int|
                    0 <= j <= i && (#[trigger] v@[j]).0@ == k by {
                    if k != key {
                        assert(before.contains(k));
                        let q = a.index_of(comment_at_s(m, k)->0);
                        assert(b[if q < at { q } else { q + 1 }] == a[q]);
                    } else {
                        assert(v@[i as int].0@ == k);
                    }
                }
                assert forall|x: int| 0 <= x < out@.len() implies exists|k: Seq<char>| #[trigger]
                    comment_at_s(m, k) == Some((#[trigger] out@[x])@) by {
                    assert(b[x] == out@[x]@);
                    if x == at {
                        assert(comment_at_s(m, key) == Some(out@[x]@));
                    } else {
                        let y = if x < at { x } else { x - 1 };
                        assert(b[x] == a[y]);
                        assert(a[y] == was[y]@);
                    }
                }
            }
        }
        i = i + 1;
    }
    proof {
        let keys = comment_keys_s(m);
        assert(keys =~= seen) by {
            assert forall|k: Seq<char>| keys.contains(k) == seen.contains(k) by {
                if keys.contains(k) {
                    let j = choose|j: int| 0 <= j < v@.len() && (#[trigger] v@[j]).0@ == k;
                    assert(comment_at_s(m, v@[j].0@) is Some);
                }
            }
        }
        assert forall|k: Seq<char>| #[trigger] comment_at_s(m, k) is Some implies types::comment_vs(
            out@,
        ).contains(comment_at_s(m, k)->0) by {
            assert(keys.contains(k));
        }
        assert forall|a: int| 0 <= a < types::comment_vs(out@).len() implies exists|k: Seq<char>|
         #[trigger]
            comment_at_s(m, k) == Some(#[trigger] types::comment_vs(out@)[a]) by {
            assert(types::comment_vs(out@)[a] == out@[a]@);
        }
    }
    out
}

/// The id of every comment, ascending.
pub fn comment_ids(doc: &TextDoc) -> (r: Vec<u64>)
    ensures
        exists|v: Seq<CommentV>| #[trigger]
            comments_s(doc@.s.maps[store::COMMENTS@], v) && r@ == Seq::new(
                v.len(),
                |i: int| v[i].id,
            ),
{
    let v = read_comments(doc);
    let mut out: Vec<u64> = Vec::new();
    let mut i: usize = 0;
    while i < v.len()
        invariant
            i <= v@.len(),
            out@.len() == i,
            forall|j: int| 0 <= j < i ==> #[trigger] out@[j] == types::comment_vs(v@)[j].id,
        decreases v@.len() - i,
    {
        assert(types::comment_vs(v@)[i as int] == v@[i as int]@);
        out.push(v[i].id);
        i = i + 1;
    }
    proof {
        let w = types::comment_vs(v@);
        assert(out@ =~= Seq::new(w.len(), |i: int| w[i].id));
    }
    out
}

/// Store a comment, which then reads back as it is.
pub fn write_comment(doc: &mut TextDoc, c: &Comment) -> (r: Result<(), ModelError>)
    ensures
        old(doc)@.s.editable ==> r is Ok,
        r is Ok ==> final(doc)@ == doc::entry_set_s(
            old(doc)@,
            store::COMMENTS@,
            id_key_s(c.id),
            ScalarV::Text(comment_text_s(c@)),
        ),
        r is Ok ==> comment_at_s(final(doc)@.s.maps[store::COMMENTS@], id_key_s(c.id)) == Some(c@),
        r matches Err(e) ==> e == ModelError::Store,
{
    let text = comment_to_json(c);
    doc.put_text_by_id(store::COMMENTS, c.id, text.as_str())
}

/// Remove a comment's body; the marks over its range are not touched.
pub fn delete_comment_entry(doc: &mut TextDoc, id: u64) -> (r: Result<(), ModelError>)
    ensures
        old(doc)@.s.editable ==> r is Ok,
        r is Ok ==> final(doc)@ == doc::entry_cleared_s(
            old(doc)@,
            store::COMMENTS@,
            id_key_s(id),
        ),
        r matches Err(e) ==> e == ModelError::Store,
{
    doc.clear_id(store::COMMENTS, id)
}

// ---------------------------------------------------------------- block wrappers

/// The tag that closes a block wrapper.
pub open spec fn block_wrap_suffix_s(prefix: Seq<char>) -> Seq<char> {
    if search::starts_s(search::trim_start_s(prefix), "<w:customXml"@) {
        "</w:customXml>"@
    } else {
        "</w:sdtContent></w:sdt>"@
    }
}

/// The tag that closes a block wrapper with this opening.
pub fn block_wrap_suffix(prefix: &str) -> (r: &'static str)
    ensures
        r@ == block_wrap_suffix_s(prefix@),
{
    if starts_with(trim_start(prefix).as_str(), "<w:customXml") {
        "</w:customXml>"
    } else {
        "</w:sdtContent></w:sdt>"
    }
}

/// Ids as a text, separated by commas.
pub open spec fn ids_text_s(ids: Seq<u64>) -> Seq<char> {
    style_parse::join_s(Seq::new(ids.len(), |i: int| id_key_s(ids[i])), ","@, ids.len())
}

fn ids_text(ids: &Vec<u64>) -> (r: String)
    ensures
        r@ == ids_text_s(ids@),
{
    let mut v: Vec<String> = Vec::new();
    let mut i: usize = 0;
    while i < ids.len()
        invariant
            i <= ids@.len(),
            v@.len() == i,
            forall|j: int| 0 <= j < i ==> (#[trigger] v@[j])@ == id_key_s(ids@[j]),
        decreases ids@.len() - i,
    {
        v.push(id_key(ids[i]));
        i = i + 1;
    }
    assert(search::texts_s(v@) =~= Seq::new(ids@.len(), |i: int| id_key_s(ids@[i])));
    join(&v, ",")
}

/// The ids that the first `n` texts spell.
pub open spec fn spelled_s(v: Seq<Seq<char>>, n: nat) -> Seq<u64>
    decreases n,
{
    if n == 0 {
        Seq::empty()
    } else {
        let r = spelled_s(v, (n - 1) as nat);
        match id_of_s(v[n - 1]) {
            Some(id) => r.push(id),
            None => r,
        }
    }
}

/// The ids in a text.
pub open spec fn text_ids_s(o: Option<Seq<char>>) -> Seq<u64> {
    match o {
        Some(s) => spelled_s(search::split_s(s, ','), search::split_s(s, ',').len()),
        None => Seq::empty(),
    }
}

/// The block of a body node.
pub open spec fn node_id_s(n: BodyNode) -> BlockId {
    match n {
        BodyNode::Paragraph(id) => id,
        BodyNode::Table(id) => id,
    }
}

fn node_id(n: &BodyNode) -> (r: BlockId)
    ensures
        r == node_id_s(*n),
{
    match n {
        BodyNode::Paragraph(id) => *id,
        BodyNode::Table(id) => *id,
    }
}

/// The properties of a body node, in no particular order.
pub fn block_node_meta(doc: &TextDoc, node: &BodyNode) -> (r: Vec<(String, Scalar)>)
    ensures
        doc::props_s(r@, r@.len()) == doc@.s.metas[node_id_s(*node)],
        doc::distinct_s(r@),
{
    doc.metas(node_id(node))
}

/// The properties with the wrappers that open and close at a node.
pub open spec fn wrapped_s(m: PropsV, opens: Seq<u64>, closes: Seq<u64>) -> PropsV {
    let m = if opens.len() > 0 {
        m.insert("wrapopen"@, ScalarV::Text(ids_text_s(opens)))
    } else {
        m
    };
    if closes.len() > 0 {
        m.insert("wrapclose"@, ScalarV::Text(ids_text_s(closes)))
    } else {
        m
    }
}

/// Record the wrappers that open at a node, outermost first, and those that close at it,
/// innermost first. An empty list records nothing.
pub fn set_block_wrap_anchors(
    doc: &mut TextDoc,
    node: &BodyNode,
    opens: &Vec<u64>,
    closes: &Vec<u64>,
) -> (r: Result<(), ModelError>)
    ensures
        old(doc)@.s.editable && store::live_s(old(doc)@.s, node_id_s(*node)) ==> r is Ok,
        r is Ok ==> final(doc)@ == props::metas_set_s(
            old(doc)@,
            node_id_s(*node),
            wrapped_s(old(doc)@.s.metas[node_id_s(*node)], opens@, closes@),
        ),
        r matches Err(e) ==> e == ModelError::Store,
        opens@.len() == 0 && closes@.len() == 0 ==> r is Ok,
{
    let ghost d = doc@;
    let id = node_id(node);
    proof {
        props::lemma_change_keys();
        doc.lemma_total();
        assert(d.s.metas.insert(id, d.s.metas[id]) =~= d.s.metas);
    }
    if opens.len() > 0 {
        match doc.set_meta(id, "wrapopen", &Scalar::Text(ids_text(opens))) {
            Ok(()) => {},
            Err(e) => {
                return Err(e);
            },
        }
    }
    if closes.len() > 0 {
        match doc.set_meta(id, "wrapclose", &Scalar::Text(ids_text(closes))) {
            Ok(()) => {},
            Err(e) => {
                return Err(e);
            },
        }
    }
    proof {
        let m = wrapped_s(d.s.metas[id], opens@, closes@);
        assert(doc@.s.metas =~= d.s.metas.insert(id, m));
    }
    Ok(())
}

/// The wrapper ids listed under `key` (`wrapopen` or `wrapclose`) at a node.
pub fn block_wrap_ids(doc: &TextDoc, node: &BodyNode, key: &str) -> (r: Vec<u64>)
    ensures
        r@ == text_ids_s(runs::text_prop_s(doc@.s.metas[node_id_s(*node)], key@)),
{
    let s = match doc.meta_string(node_id(node), key) {
        Some(s) => s,
        None => {
            return Vec::new();
        },
    };
    let parts = split(s.as_str(), ',');
    let ghost t = search::texts_s(parts@);
    let mut out: Vec<u64> = Vec::new();
    let mut i: usize = 0;
    while i < parts.len()
        invariant
            i <= parts@.len(),
            t == search::texts_s(parts@),
            out@ == spelled_s(t, i as nat),
        decreases parts@.len() - i,
    {
        assert(t[i as int] == parts@[i as int]@);
        if let Some(n) = parse_uint(parts[i].as_str(), u64::MAX) {
            out.push(n);
        }
        i = i + 1;
    }
    out
}

// ---------------------------------------------------------------- pictures

/// The entries that keep a picture's placement.
pub open spec fn image_fields_s(p: ImagePlacementV) -> Seq<MarkV> {
    let v = Seq::empty();
    let v = add_s(v, "media"@, Some(ScalarV::Text(p.media)));
    let v = add_s(v, "w"@, Some(ScalarV::Int(p.w_emu)));
    let v = add_s(v, "h"@, Some(ScalarV::Int(p.h_emu)));
    let v = add_s(v, "cl"@, Some(ScalarV::Int(p.crop_l)));
    let v = add_s(v, "ct"@, Some(ScalarV::Int(p.crop_t)));
    let v = add_s(v, "cr"@, Some(ScalarV::Int(p.crop_r)));
    let v = add_s(v, "cb"@, Some(ScalarV::Int(p.crop_b)));
    let v = add_s(v, "float"@, Some(ScalarV::Bool(p.floating)));
    let v = add_s(v, "behind"@, Some(ScalarV::Bool(p.behind)));
    let v = add_s(v, "hfrom"@, Some(ScalarV::Text(p.h_from)));
    let v = add_s(v, "vfrom"@, Some(ScalarV::Text(p.v_from)));
    let v = add_s(v, "x"@, Some(ScalarV::Int(p.x_emu)));
    let v = add_s(v, "y"@, Some(ScalarV::Int(p.y_emu)));
    let v = add_s(v, "halign"@, Some(ScalarV::Text(p.h_align)));
    let v = add_s(v, "valign"@, Some(ScalarV::Text(p.v_align)));
    add_s(v, "wrap"@, Some(ScalarV::Text(p.wrap)))
}

fn image_fields(p: &ImagePlacement) -> (v: Vec<(String, Scalar)>)
    ensures
        writing::marks_vs(v@) == image_fields_s(p@),
        writing::settable_s(writing::marks_vs(v@)),
{
    let mut v: Vec<(String, Scalar)> = Vec::new();
    assert(writing::marks_vs(v@) =~= Seq::empty());
    push_entry(&mut v, "media", Some(Scalar::Text(p.media.clone())));
    push_entry(&mut v, "w", Some(Scalar::Int(p.w_emu)));
    push_entry(&mut v, "h", Some(Scalar::Int(p.h_emu)));
    push_entry(&mut v, "cl", Some(Scalar::Int(p.crop_l)));
    push_entry(&mut v, "ct", Some(Scalar::Int(p.crop_t)));
    push_entry(&mut v, "cr", Some(Scalar::Int(p.crop_r)));
    push_entry(&mut v, "cb", Some(Scalar::Int(p.crop_b)));
    push_entry(&mut v, "float", Some(Scalar::Bool(p.floating)));
    push_entry(&mut v, "behind", Some(Scalar::Bool(p.behind)));
    push_entry(&mut v, "hfrom", Some(Scalar::Text(p.h_from.clone())));
    push_entry(&mut v, "vfrom", Some(Scalar::Text(p.v_from.clone())));
    push_entry(&mut v, "x", Some(Scalar::Int(p.x_emu)));
    push_entry(&mut v, "y", Some(Scalar::Int(p.y_emu)));
    push_entry(&mut v, "halign", Some(Scalar::Text(p.h_align.clone())));
    push_entry(&mut v, "valign", Some(Scalar::Text(p.v_align.clone())));
    push_entry(&mut v, "wrap", Some(Scalar::Text(p.wrap.clone())));
    v
}

/// Store a picture's placement.
pub fn write_image(doc: &mut TextDoc, id: u64, p: &ImagePlacement) -> (r: Result<(), ModelError>)
    ensures
        old(doc)@.s.editable && store::nestable_s(old(doc)@.s, store::IMAGES@, id_key_s(id))
            ==> r is Ok,
        r is Ok ==> final(doc)@ == doc::inner_kept_s(
            old(doc)@,
            store::IMAGES@,
            id_key_s(id),
            put_all_s(
                store::inner_s(old(doc)@.s.nested[store::IMAGES@], id_key_s(id)),
                image_fields_s(p@),
                image_fields_s(p@).len(),
            ),
        ),
        r matches Err(e) ==> e == ModelError::Store,
{
    let v = image_fields(p);
    assert(v@.len() == writing::marks_vs(v@).len());
    doc.put_inner_all(store::IMAGES, id_key(id).as_str(), &v)
}

/// A property as text, empty where it is none.
pub open spec fn text_at_s(m: PropsV, key: Seq<char>) -> Seq<char> {
    match runs::text_prop_s(m, key) {
        Some(s) => s,
        None => Seq::empty(),
    }
}

fn text_at(v: &Vec<(String, Scalar)>, key: &str) -> (r: String)
    requires
        doc::distinct_s(v@),
    ensures
        r@ == text_at_s(doc::props_s(v@, v@.len()), key@),
{
    match text_prop(v, key) {
        Some(s) => s,
        None => {
            let r = String::new();
            assert(r@ =~= Seq::empty());
            r
        },
    }
}

/// A property as a number, zero where it is none.
pub open spec fn int_at_s(m: PropsV, key: Seq<char>) -> i64 {
    match runs::int_prop_s(m, key) {
        Some(n) => n,
        None => 0,
    }
}

fn int_at(v: &Vec<(String, Scalar)>, key: &str) -> (r: i64)
    requires
        doc::distinct_s(v@),
    ensures
        r == int_at_s(doc::props_s(v@, v@.len()), key@),
{
    match int_prop(v, key) {
        Some(n) => n,
        None => 0,
    }
}

fn on_at(v: &Vec<(String, Scalar)>, key: &str) -> (r: bool)
    requires
        doc::distinct_s(v@),
    ensures
        r == runs::on_s(doc::props_s(v@, v@.len()), key@),
{
    match flag_prop(v, key) {
        Some(b) => b,
        None => false,
    }
}

/// The placement that entries keep.
pub open spec fn placement_s(m: PropsV) -> ImagePlacementV {
    ImagePlacementV {
        media: text_at_s(m, "media"@),
        w_emu: int_at_s(m, "w"@),
        h_emu: int_at_s(m, "h"@),
        crop_l: int_at_s(m, "cl"@),
        crop_t: int_at_s(m, "ct"@),
        crop_r: int_at_s(m, "cr"@),
        crop_b: int_at_s(m, "cb"@),
        floating: runs::on_s(m, "float"@),
        behind: runs::on_s(m, "behind"@),
        h_from: text_at_s(m, "hfrom"@),
        v_from: text_at_s(m, "vfrom"@),
        x_emu: int_at_s(m, "x"@),
        y_emu: int_at_s(m, "y"@),
        h_align: text_at_s(m, "halign"@),
        v_align: text_at_s(m, "valign"@),
        wrap: text_at_s(m, "wrap"@),
    }
}

fn placement(v: &Vec<(String, Scalar)>) -> (r: ImagePlacement)
    requires
        doc::distinct_s(v@),
    ensures
        r@ == placement_s(doc::props_s(v@, v@.len())),
{
    ImagePlacement {
        media: text_at(v, "media"),
        w_emu: int_at(v, "w"),
        h_emu: int_at(v, "h"),
        crop_l: int_at(v, "cl"),
        crop_t: int_at(v, "ct"),
        crop_r: int_at(v, "cr"),
        crop_b: int_at(v, "cb"),
        floating: on_at(v, "float"),
        behind: on_at(v, "behind"),
        h_from: text_at(v, "hfrom"),
        v_from: text_at(v, "vfrom"),
        x_emu: int_at(v, "x"),
        y_emu: int_at(v, "y"),
        h_align: text_at(v, "halign"),
        v_align: text_at(v, "valign"),
        wrap: text_at(v, "wrap"),
    }
}

/// Whether the nested map called `k` is the placement of picture `id`.
pub open spec fn holds_image_s(d: DocV, k: Seq<char>, id: u64) -> bool {
    holds_inner_s(d, store::IMAGES@, k) && id_of_s(k) == Some(id)
}

/// Whether `out` holds the picture placements of a document, as [`texts_by_id_s`] says of texts.
pub open spec fn images_s(d: DocV, out: Map<u64, ImagePlacement>) -> bool {
    &&& forall|k: Seq<char>, id: u64| #[trigger] holds_image_s(d, k, id) ==> out.contains_key(id)
    &&& forall|id: u64| #[trigger]
        out.contains_key(id) ==> exists|k: Seq<char>| #[trigger]
            holds_image_s(d, k, id) && out[id]@ == placement_s(d.s.nested[store::IMAGES@][k])
}

/// The placement of every picture, by id.
pub fn read_images(doc: &TextDoc) -> (r: HashMap<u64, ImagePlacement>)
    ensures
        images_s(doc@, r@),
{
    let v = doc.entries(store::IMAGES);
    let ghost m = doc@.s.maps[store::IMAGES@];
    let ghost n = doc@.s.nested[store::IMAGES@];
    proof {
        doc::lemma_props(v@, v@.len());
    }
    let mut out: HashMap<u64, ImagePlacement> = HashMap::new();
    let mut i: usize = 0;
    while i < v.len()
        invariant
            i <= v@.len(),
            m == doc@.s.maps[store::IMAGES@],
            n == doc@.s.nested[store::IMAGES@],
            m == doc::props_s(v@, v@.len()),
            forall|j: int| 0 <= j < v@.len() ==> m.contains_key((#[trigger] v@[j]).0@),
            forall|j: int, id: u64|
                0 <= j < i && #[trigger] holds_image_s(doc@, v@[j].0@, id) ==> out@.contains_key(
                    id,
                ),
            forall|id: u64| #[trigger]
                out@.contains_key(id) ==> exists|k: Seq<char>| #[trigger]
                    holds_image_s(doc@, k, id) && out@[id]@ == placement_s(n[k]),
        decreases v@.len() - i,
    {
        let ghost was = out@;
        let ghost key = v@[i as int].0@;
        if let Some(id) = parse_uint(v[i].0.as_str(), u64::MAX) {
            if let Some(inner) = doc.inner(store::IMAGES, v[i].0.as_str()) {
                let p = placement(&inner);
                out.insert(id, p);
                proof {
                    assert(m.contains_key(v@[i as int].0@));
                    assert(holds_image_s(doc@, key, id) && out@[id]@ == placement_s(n[key]));
                    assert forall|x: u64| #[trigger] out@.contains_key(x) implies exists|
                        k: Seq<char>,
                    | #[trigger] holds_image_s(doc@, k, x) && out@[x]@ == placement_s(n[k]) by {
                        if x != id {
                            assert(was.contains_key(x));
                        }
                    }
                }
            }
        }
        i = i + 1;
    }
    proof {
        assert forall|k: Seq<char>, id: u64| #[trigger]
            holds_image_s(doc@, k, id) implies out@.contains_key(id) by {
            let j = choose|j: int| 0 <= j < v@.len() && (#[trigger] v@[j]).0@ == k;
            assert(holds_image_s(doc@, v@[j].0@, id));
        }
    }
    out
}

/// The placement of one picture. The entry under its id in decimal answers; where there is none,
/// one under another spelling of the id does.
pub fn read_image(doc: &TextDoc, id: u64) -> (r: Option<ImagePlacement>)
    ensures
        holds_image_s(doc@, id_key_s(id), id) ==> (r matches Some(p) && p@ == placement_s(
            doc@.s.nested[store::IMAGES@][id_key_s(id)],
        )),
        r is Some == exists|k: Seq<char>| holds_image_s(doc@, k, id),
        r matches Some(p) ==> exists|k: Seq<char>| #[trigger]
            holds_image_s(doc@, k, id) && p@ == placement_s(doc@.s.nested[store::IMAGES@][k]),
{
    let key = id_key(id);
    if let Some(inner) = doc.inner(store::IMAGES, key.as_str()) {
        if prop(&doc.entries(store::IMAGES), key.as_str()).is_some() {
            proof {
                strs::lemma_dec_parses(id as nat, u64::MAX as nat);
                assert(holds_image_s(doc@, key@, id));
            }
            return Some(placement(&inner));
        }
    }
    let all = read_images(doc);
    match all.get(&id) {
        Some(p) => Some(p.clone()),
        None => None,
    }
}

/// Remove a picture's placement; the placeholder in the text is not touched.
pub fn delete_image(doc: &mut TextDoc, id: u64) -> (r: Result<(), ModelError>)
    ensures
        old(doc)@.s.editable ==> r is Ok,
        r is Ok ==> final(doc)@ == doc::entry_cleared_s(old(doc)@, store::IMAGES@, id_key_s(id)),
        r matches Err(e) ==> e == ModelError::Store,
{
    doc.clear_id(store::IMAGES, id)
}

/// A placement that is written answers for its id, and one that is deleted does no more; what is
/// kept under every other key stays, and so the other ids keep their reading.
pub proof fn law_image_entries_are_apart(d: DocV, id: u64, p: ImagePlacementV, k: Seq<char>, x: u64)
    requires
        doc::total_s(d),
    ensures
        ({
            let key = id_key_s(id);
            let m = put_all_s(
                store::inner_s(d.s.nested[store::IMAGES@], key),
                image_fields_s(p),
                image_fields_s(p).len(),
            );
            let e = doc::inner_kept_s(d, store::IMAGES@, key, m);
            let f = doc::entry_cleared_s(d, store::IMAGES@, key);
            &&& holds_image_s(e, key, id)
            &&& placement_s(e.s.nested[store::IMAGES@][key]) == p
            &&& !holds_image_s(f, key, x)
            &&& k != key ==> holds_image_s(e, k, x) == holds_image_s(d, k, x) && holds_image_s(
                f,
                k,
                x,
            ) == holds_image_s(d, k, x)
            &&& k != key && d.s.nested[store::IMAGES@].contains_key(k)
                ==> e.s.nested[store::IMAGES@][k] == d.s.nested[store::IMAGES@][k]
                && f.s.nested[store::IMAGES@][k] == d.s.nested[store::IMAGES@][k]
        }),
{
    strs::lemma_dec_parses(id as nat, u64::MAX as nat);
    law_image_reads_back(store::inner_s(d.s.nested[store::IMAGES@], id_key_s(id)), p);
}

/// What was written of a picture's placement reads back, whatever was there before.
pub proof fn law_image_reads_back(m: PropsV, p: ImagePlacementV)
    ensures
        placement_s(put_all_s(m, image_fields_s(p), image_fields_s(p).len())) == p,
{
    reveal_strlit("media");
    reveal_strlit("w");
    reveal_strlit("h");
    reveal_strlit("cl");
    reveal_strlit("ct");
    reveal_strlit("cr");
    reveal_strlit("cb");
    reveal_strlit("float");
    reveal_strlit("behind");
    reveal_strlit("hfrom");
    reveal_strlit("vfrom");
    reveal_strlit("x");
    reveal_strlit("y");
    reveal_strlit("halign");
    reveal_strlit("valign");
    reveal_strlit("wrap");
    assert("media"@.len() == 5 && "media"@[0] == 'm' && "media"@[1] == 'e');
    assert("w"@.len() == 1 && "w"@[0] == 'w');
    assert("h"@.len() == 1 && "h"@[0] == 'h');
    assert("cl"@.len() == 2 && "cl"@[0] == 'c' && "cl"@[1] == 'l');
    assert("ct"@.len() == 2 && "ct"@[0] == 'c' && "ct"@[1] == 't');
    assert("cr"@.len() == 2 && "cr"@[0] == 'c' && "cr"@[1] == 'r');
    assert("cb"@.len() == 2 && "cb"@[0] == 'c' && "cb"@[1] == 'b');
    assert("float"@.len() == 5 && "float"@[0] == 'f' && "float"@[1] == 'l');
    assert("behind"@.len() == 6 && "behind"@[0] == 'b' && "behind"@[1] == 'e');
    assert("hfrom"@.len() == 5 && "hfrom"@[0] == 'h' && "hfrom"@[1] == 'f');
    assert("vfrom"@.len() == 5 && "vfrom"@[0] == 'v' && "vfrom"@[1] == 'f');
    assert("x"@.len() == 1 && "x"@[0] == 'x');
    assert("y"@.len() == 1 && "y"@[0] == 'y');
    assert("halign"@.len() == 6 && "halign"@[0] == 'h' && "halign"@[1] == 'a');
    assert("valign"@.len() == 6 && "valign"@[0] == 'v' && "valign"@[1] == 'a');
    assert("wrap"@.len() == 4 && "wrap"@[0] == 'w' && "wrap"@[1] == 'r');
    let keys = image_fields_s(p);
    reveal_with_fuel(put_all_s, 17);
    let a = m.insert("media"@, ScalarV::Text(p.media)).insert("w"@, ScalarV::Int(p.w_emu)).insert(
        "h"@,
        ScalarV::Int(p.h_emu),
    ).insert("cl"@, ScalarV::Int(p.crop_l)).insert("ct"@, ScalarV::Int(p.crop_t)).insert(
        "cr"@,
        ScalarV::Int(p.crop_r),
    ).insert("cb"@, ScalarV::Int(p.crop_b)).insert("float"@, ScalarV::Bool(p.floating));
    let b = a.insert("behind"@, ScalarV::Bool(p.behind)).insert(
        "hfrom"@,
        ScalarV::Text(p.h_from),
    ).insert("vfrom"@, ScalarV::Text(p.v_from)).insert("x"@, ScalarV::Int(p.x_emu)).insert(
        "y"@,
        ScalarV::Int(p.y_emu),
    ).insert("halign"@, ScalarV::Text(p.h_align)).insert("valign"@, ScalarV::Text(p.v_align)).insert(
        "wrap"@,
        ScalarV::Text(p.wrap),
    );
    assert(keys.len() == 16);
    assert(put_all_s(m, keys, 8) == a);
    assert(put_all_s(m, keys, 16) == b);
    assert(placement_s(b) =~= p);
}

// ---------------------------------------------------------------- media

/// Store the bytes of an inserted picture under its part name. What eight bytes leave there is
/// left open: the store takes some of them for a container.
pub fn write_media(doc: &mut TextDoc, part: &str, bytes: &Vec<u8>) -> (r: Result<(), ModelError>)
    ensures
        old(doc)@.s.editable ==> r is Ok,
        r is Ok && bytes@.len() != 8 ==> final(doc)@ == doc::entry_set_s(
            old(doc)@,
            store::MEDIA@,
            part@,
            ScalarV::Bytes(bytes@),
        ),
        r matches Err(e) ==> e == ModelError::Store,
{
    let copy = copy_bytes(bytes);
    doc.put_entry(store::MEDIA, part, &Scalar::Bytes(copy))
}

fn copy_bytes(v: &Vec<u8>) -> (r: Vec<u8>)
    ensures
        r@ == v@,
{
    let mut out: Vec<u8> = Vec::new();
    let mut i: usize = 0;
    while i < v.len()
        invariant
            i <= v@.len(),
            out@ =~= v@.take(i as int),
        decreases v@.len() - i,
    {
        out.push(v[i]);
        i = i + 1;
    }
    assert(out@ =~= v@);
    out
}

/// The bytes of an inserted picture.
pub open spec fn media_s(m: PropsV, part: Seq<char>) -> Option<Seq<u8>> {
    match store::prop_s(m, part) {
        Some(ScalarV::Bytes(b)) => Some(b),
        _ => None,
    }
}

/// The bytes of an inserted picture, if there is one under that part name.
pub fn read_media(doc: &TextDoc, part: &str) -> (r: Option<Vec<u8>>)
    ensures
        (match r {
            Some(b) => Some(b@),
            None => None,
        }) == media_s(doc@.s.maps[store::MEDIA@], part@),
{
    let v = doc.entries(store::MEDIA);
    match doc::prop(&v, part) {
        Some(Scalar::Bytes(b)) => Some(copy_bytes(b)),
        _ => None,
    }
}

/// The bytes of every inserted picture, by part name.
pub fn read_all_media(doc: &TextDoc) -> (r: StrMap<Vec<u8>>)
    ensures
        forall|k: Seq<char>| #[trigger]
            strmap::get_s(r@, k) == media_s(doc@.s.maps[store::MEDIA@], k),
{
    let v = doc.entries(store::MEDIA);
    let ghost m = doc@.s.maps[store::MEDIA@];
    proof {
        doc::lemma_props(v@, v@.len());
    }
    let mut out: StrMap<Vec<u8>> = StrMap::new();
    let mut i: usize = 0;
    while i < v.len()
        invariant
            i <= v@.len(),
            m == doc::props_s(v@, v@.len()),
            doc::distinct_s(v@),
            forall|j: int| 0 <= j < v@.len() ==> m.contains_key((#[trigger] v@[j]).0@)
                && m[v@[j].0@] == v@[j].1@,
            forall|k: Seq<char>| #[trigger]
                strmap::get_s(out@, k) is Some ==> strmap::get_s(out@, k) == media_s(m, k),
            forall|j: int|
                0 <= j < i ==> strmap::get_s(out@, (#[trigger] v@[j]).0@) == media_s(m, v@[j].0@),
        decreases v@.len() - i,
    {
        let ghost was = out@;
        let key = v[i].0.as_str();
        if let Scalar::Bytes(b) = &v[i].1 {
            let copy = copy_bytes(b);
            out.insert(key, copy);
            proof {
                assert(media_s(m, v@[i as int].0@) == Some(b@));
                assert forall|k: Seq<char>| #[trigger] strmap::get_s(out@, k) is Some implies strmap::get_s(
                    out@,
                    k,
                ) == media_s(m, k) by {
                    strmap::law_put_then_get(was, key@, b@, k);
                }
                assert forall|j: int| 0 <= j <= i implies strmap::get_s(
                    out@,
                    (#[trigger] v@[j]).0@,
                ) == media_s(m, v@[j].0@) by {
                    strmap::law_put_then_get(was, key@, b@, v@[j].0@);
                }
            }
        } else {
            assert(strmap::get_s(out@, v@[i as int].0@) is None) by {
                assert(media_s(m, v@[i as int].0@) is None);
            }
        }
        i = i + 1;
    }
    proof {
        assert forall|k: Seq<char>| #[trigger] strmap::get_s(out@, k) == media_s(m, k) by {
            if media_s(m, k) is Some {
                let j = choose|j: int| 0 <= j < v@.len() && (#[trigger] v@[j]).0@ == k;
                assert(strmap::get_s(out@, v@[j].0@) == media_s(m, k));
            }
        }
    }
    out
}

proof fn lemma_spelled(ids: Seq<u64>, n: nat)
    requires
        n <= ids.len(),
    ensures
        spelled_s(Seq::new(ids.len(), |i: int| id_key_s(ids[i])), n) == ids.take(n as int),
    decreases n,
{
    if n > 0 {
        lemma_spelled(ids, (n - 1) as nat);
        strs::lemma_dec_parses(ids[n - 1] as nat, u64::MAX as nat);
        assert(ids.take(n - 1).push(ids[n - 1]) =~= ids.take(n as int));
    } else {
        assert(ids.take(0) =~= Seq::empty());
    }
}

/// The ids of the wrappers recorded at a node read back; an empty list leaves what was recorded.
pub proof fn law_wrap_ids_read_back(m: PropsV, opens: Seq<u64>, closes: Seq<u64>)
    ensures
        ({
            let w = wrapped_s(m, opens, closes);
            &&& opens.len() > 0 ==> text_ids_s(runs::text_prop_s(w, "wrapopen"@)) == opens
            &&& closes.len() > 0 ==> text_ids_s(runs::text_prop_s(w, "wrapclose"@)) == closes
            &&& opens.len() == 0 ==> runs::text_prop_s(w, "wrapopen"@) == runs::text_prop_s(
                m,
                "wrapopen"@,
            )
            &&& closes.len() == 0 ==> runs::text_prop_s(w, "wrapclose"@) == runs::text_prop_s(
                m,
                "wrapclose"@,
            )
        }),
{
    reveal_strlit("wrapopen");
    reveal_strlit("wrapclose");
    assert("wrapopen"@.len() == 8 && "wrapclose"@.len() == 9);
    if opens.len() > 0 {
        lemma_ids_back(opens);
    }
    if closes.len() > 0 {
        lemma_ids_back(closes);
    }
}

proof fn lemma_ids_back(ids: Seq<u64>)
    requires
        ids.len() > 0,
    ensures
        text_ids_s(Some(ids_text_s(ids))) == ids,
{
    let v = Seq::new(ids.len(), |i: int| id_key_s(ids[i]));
    reveal_strlit(",");
    assert(","@ =~= seq![',']);
    assert forall|i: int| 0 <= i < v.len() implies readback::without_s(#[trigger] v[i], ',') by {
        readback::lemma_dec_without(ids[i] as nat, ',');
    }
    readback::lemma_split_join(v, ',', ids.len());
    assert(v.take(ids.len() as int) =~= v);
    lemma_spelled(ids, ids.len());
    assert(ids.take(ids.len() as int) =~= ids);
}

} // verus!
