//! Flat JSON objects, by which revisions and comments are kept as text.
//!
//! Parsing and printing are serde_json's.

use vstd::prelude::*;
use serde_json::Value;
use crate::strs;
use crate::strs::str_eq;

verus! {

broadcast use vstd::string::group_string_axioms;

/// A JSON value as plain data: whole numbers by sign, a list by those of its items that are
/// unsigned numbers, an object by its text; a number with a fraction is `Other`.
pub enum Json {
    Null,
    Bool(bool),
    UInt(u64),
    Int(i64),
    Text(String),
    List(Vec<Option<u64>>),
    Object(String),
    Other,
}

/// The mathematical value of a [`Json`].
#[verifier::ext_equal]
pub enum JsonV {
    Null,
    Bool(bool),
    UInt(u64),
    Int(i64),
    Text(Seq<char>),
    List(Seq<Option<u64>>),
    Object(Seq<char>),
    Other,
}

impl View for Json {
    type V = JsonV;

    open spec fn view(&self) -> JsonV {
        match self {
            Json::Null => JsonV::Null,
            Json::Bool(b) => JsonV::Bool(*b),
            Json::UInt(n) => JsonV::UInt(*n),
            Json::Int(n) => JsonV::Int(*n),
            Json::Text(s) => JsonV::Text(s@),
            Json::List(v) => JsonV::List(v@),
            Json::Object(s) => JsonV::Object(s@),
            Json::Other => JsonV::Other,
        }
    }
}

/// The members of an object, by name.
pub type MembersV = Map<Seq<char>, JsonV>;

/// The members that a list of names and values makes; the last of a name counts.
pub open spec fn members_of_s(v: Seq<(String, Json)>, n: nat) -> MembersV
    decreases n,
{
    if n == 0 {
        Map::empty()
    } else {
        members_of_s(v, (n - 1) as nat).insert(v[n - 1].0@, v[n - 1].1@)
    }
}

pub open spec fn distinct_s(v: Seq<(String, Json)>) -> bool {
    forall|i: int, j: int| 0 <= i < j < v.len() ==> (#[trigger] v[i]).0@ != (#[trigger] v[j]).0@
}

/// A value of serde_json.
#[verifier::external_type_specification]
#[verifier::external_body]
pub struct ExValue(serde_json::Value);

/// What a value holds.
pub uninterp spec fn json_s(v: serde_json::Value) -> JsonV;

/// The members of the object that a JSON text spells, none where it spells something else;
/// nothing where it is not JSON.
pub uninterp spec fn members_s(raw: Seq<char>) -> Option<Map<Seq<char>, JsonV>>;

/// The text of the object with these members.
pub uninterp spec fn object_s(members: Map<Seq<char>, JsonV>) -> Seq<char>;

/// The members that a list of names and values makes; the last of a name counts.
pub open spec fn made_s(v: Seq<(String, serde_json::Value)>, n: nat) -> MembersV
    decreases n,
{
    if n == 0 {
        Map::empty()
    } else {
        made_s(v, (n - 1) as nat).insert(v[n - 1].0@, json_s(v[n - 1].1))
    }
}

/// Whether a value reads back as it was written: neither an object nor a fraction, and a signed
/// number is negative.
pub open spec fn writable_s(v: JsonV) -> bool {
    match v {
        JsonV::Object(_) => false,
        JsonV::Other => false,
        JsonV::Int(n) => n < 0,
        JsonV::List(l) => forall|i: int| 0 <= i < l.len() ==> (#[trigger] l[i]) is Some,
        _ => true,
    }
}

pub open spec fn all_writable_s(v: Seq<(String, Json)>) -> bool {
    forall|i: int| 0 <= i < v.len() ==> writable_s((#[trigger] v[i]).1@)
}

/// Whether all members can be written and read back.
pub open spec fn flat_s(m: MembersV) -> bool {
    forall|k: Seq<char>| #[trigger] m.contains_key(k) ==> writable_s(m[k])
}

/// Whether a value is an object of such members.
pub open spec fn flat_object_s(v: JsonV) -> bool {
    v is Object && exists|m: MembersV| #[trigger] flat_s(m) && v->Object_0 == object_s(m)
}

/// Whether each value can be written and read back, or is an object of such values.
pub open spec fn stable_s(m: MembersV) -> bool {
    forall|k: Seq<char>| #[trigger]
        m.contains_key(k) ==> writable_s(m[k]) || flat_object_s(m[k])
}

/// The member called `key`, if there is one.
pub open spec fn member_s(m: MembersV, key: Seq<char>) -> Option<JsonV> {
    if m.contains_key(key) {
        Some(m[key])
    } else {
        None
    }
}

/// `serde_json::Value` taken apart: its variant and what that holds, an array by those of its
/// items that are unsigned numbers, an object by its text.
#[verifier::external_body]
fn json_of(v: &serde_json::Value) -> (r: Json)
    ensures
        r@ == json_s(*v),
{
    match v {
        Value::Null => Json::Null,
        Value::Bool(b) => Json::Bool(*b),
        Value::Number(n) if n.is_u64() => Json::UInt(n.as_u64().unwrap()),
        Value::Number(n) if n.is_i64() => Json::Int(n.as_i64().unwrap()),
        Value::Number(_) => Json::Other,
        Value::String(s) => Json::Text(s.clone()),
        Value::Array(a) => Json::List(a.iter().map(|x| x.as_u64()).collect()),
        Value::Object(_) => Json::Object(v.to_string()),
    }
}

/// The `serde_json::Value` that holds a plain value.
#[verifier::external_body]
fn value_of(j: &Json) -> (r: serde_json::Value)
    requires
        writable_s(j@),
    ensures
        json_s(r) == j@,
{
    match j {
        Json::Bool(b) => Value::Bool(*b),
        Json::UInt(n) => Value::from(*n),
        Json::Int(n) => Value::from(*n),
        Json::Text(s) => Value::from(s.as_str()),
        Json::List(v) => Value::from(v.clone()),
        _ => Value::Null,
    }
}

/// `serde_json::from_str` into a `serde_json::Value`: the members of the object it spells, none
/// for another value, and nothing where the text is not JSON.
#[verifier::external_body]
fn parse_members(raw: &str) -> (r: Option<Vec<(String, serde_json::Value)>>)
    ensures
        r is None ==> members_s(raw@) is None,
        r matches Some(v) ==> members_s(raw@) == Some(made_s(v@, v@.len())),
        r matches Some(v) ==> forall|i: int, j: int|
            0 <= i < j < v@.len() ==> (#[trigger] v@[i]).0@ != (#[trigger] v@[j]).0@,
{
    let value: serde_json::Value = serde_json::from_str(raw).ok()?;
    let list = value.as_object().map(|m| m.iter().map(|(k, v)| (k.clone(), v.clone())).collect());
    Some(list.unwrap_or_default())
}

/// A `serde_json::Value::Object` of these members; its text spells them. The members' text is
/// named only where their plain values tell it: not for numbers with a fraction.
#[verifier::external_body]
fn make_object(fields: &Vec<(String, serde_json::Value)>) -> (r: serde_json::Value)
    requires
        stable_s(made_s(fields@, fields@.len())),
    ensures
        json_s(r) == JsonV::Object(object_s(made_s(fields@, fields@.len()))),
        members_s(json_s(r)->Object_0) == Some(made_s(fields@, fields@.len())),
{
    Value::Object(fields.iter().cloned().collect())
}

/// The members of the object that a text spells.
pub(crate) fn members(raw: &str) -> (r: Option<Vec<(String, Json)>>)
    ensures
        r is None ==> members_s(raw@) is None,
        r matches Some(v) ==> members_s(raw@) == Some(members_of_s(v@, v@.len())),
        r matches Some(v) ==> distinct_s(v@),
{
    let found = match parse_members(raw) {
        Some(v) => v,
        None => {
            return None;
        },
    };
    let mut out: Vec<(String, Json)> = Vec::new();
    let mut i: usize = 0;
    while i < found.len()
        invariant
            i <= found@.len(),
            out@.len() == i,
            forall|j: int| 0 <= j < i ==> (#[trigger] out@[j]).0@ == found@[j].0@,
            members_of_s(out@, i as nat) == made_s(found@, i as nat),
        decreases found@.len() - i,
    {
        let ghost was = out@;
        out.push((found[i].0.clone(), json_of(&found[i].1)));
        proof {
            lemma_prefix(was, out@, i as nat);
        }
        i = i + 1;
    }
    Some(out)
}

/// The values of a list of members.
fn values(fields: &Vec<(String, Json)>) -> (r: Vec<(String, serde_json::Value)>)
    requires
        all_writable_s(fields@),
    ensures
        made_s(r@, r@.len()) == listed_s(*fields),
        flat_s(listed_s(*fields)),
{
    let mut out: Vec<(String, serde_json::Value)> = Vec::new();
    let mut i: usize = 0;
    while i < fields.len()
        invariant
            i <= fields@.len(),
            all_writable_s(fields@),
            out@.len() == i,
            made_s(out@, i as nat) == members_of_s(fields@, i as nat),
            flat_s(members_of_s(fields@, i as nat)),
        decreases fields@.len() - i,
    {
        let ghost was = out@;
        out.push((fields[i].0.clone(), value_of(&fields[i].1)));
        proof {
            lemma_made_prefix(was, out@, i as nat);
        }
        i = i + 1;
    }
    out
}

proof fn lemma_made_prefix(
    v: Seq<(String, serde_json::Value)>,
    w: Seq<(String, serde_json::Value)>,
    n: nat,
)
    requires
        n <= v.len() <= w.len(),
        forall|i: int| 0 <= i < n ==> v[i] == w[i],
    ensures
        made_s(v, n) == made_s(w, n),
    decreases n,
{
    if n > 0 {
        lemma_made_prefix(v, w, (n - 1) as nat);
    }
}

fn text_of(v: &serde_json::Value) -> (r: String)
    requires
        json_s(*v) is Object,
    ensures
        json_s(*v) == JsonV::Object(r@),
{
    match json_of(v) {
        Json::Object(s) => s,
        _ => String::new(),
    }
}

/// The text of an object with these members, which read back from it.
pub(crate) fn object(fields: &Vec<(String, Json)>) -> (r: String)
    requires
        all_writable_s(fields@),
    ensures
        r@ == object_s(listed_s(*fields)),
        members_s(r@) == Some(listed_s(*fields)),
{
    let v = values(fields);
    assert(stable_s(listed_s(*fields)));
    text_of(&make_object(&v))
}

/// These members and, under one more name, an object with those.
pub open spec fn with_object_s(m: MembersV, under: Seq<char>, inner: MembersV) -> MembersV {
    m.insert(under, JsonV::Object(object_s(inner)))
}

/// The text of an object with these members and, under one more name, an object with those; all
/// of them read back from it.
pub(crate) fn object_with(
    fields: &Vec<(String, Json)>,
    under: &str,
    inner: &Vec<(String, Json)>,
) -> (r: String)
    requires
        all_writable_s(fields@),
        all_writable_s(inner@),
    ensures
        r@ == object_s(with_object_s(listed_s(*fields), under@, listed_s(*inner))),
        members_s(r@) == Some(with_object_s(listed_s(*fields), under@, listed_s(*inner))),
        members_s(object_s(listed_s(*inner))) == Some(listed_s(*inner)),
{
    let ghost m = with_object_s(listed_s(*fields), under@, listed_s(*inner));
    let nested = values(inner);
    assert(stable_s(listed_s(*inner)));
    let mut v = values(fields);
    let ghost was = v@;
    v.push((under.to_string(), make_object(&nested)));
    proof {
        lemma_made_prefix(was, v@, was.len());
        assert(made_s(v@, v@.len()) == m);
        assert(flat_object_s(m[under@]));
        assert(stable_s(m));
    }
    text_of(&make_object(&v))
}

/// A name is bound by the list exactly where it occurs, and to the value beside it.
proof fn lemma_members(v: Seq<(String, Json)>, n: nat)
    requires
        n <= v.len(),
        distinct_s(v),
    ensures
        forall|i: int| 0 <= i < n ==> members_of_s(v, n).contains_key((#[trigger] v[i]).0@)
            && members_of_s(v, n)[v[i].0@] == v[i].1@,
        forall|k: Seq<char>| #[trigger]
            members_of_s(v, n).contains_key(k) ==> exists|i: int|
                0 <= i < n && (#[trigger] v[i]).0@ == k,
    decreases n,
{
    if n > 0 {
        lemma_members(v, (n - 1) as nat);
        assert forall|k: Seq<char>| #[trigger] members_of_s(v, n).contains_key(k) implies exists|
            i: int,
        | 0 <= i < n && (#[trigger] v[i]).0@ == k by {
            if k == v[n - 1].0@ {
                assert(v[n - 1].0@ == k);
            } else {
                assert(members_of_s(v, (n - 1) as nat).contains_key(k));
            }
        }
    }
}

/// The members in a list of distinct names.
pub open spec fn listed_s(v: Vec<(String, Json)>) -> MembersV {
    members_of_s(v@, v@.len())
}

fn member<'a>(v: &'a Vec<(String, Json)>, key: &str) -> (r: Option<&'a Json>)
    requires
        distinct_s(v@),
    ensures
        (match r {
            Some(x) => Some(x@),
            None => None,
        }) == member_s(listed_s(*v), key@),
{
    proof {
        lemma_members(v@, v@.len());
    }
    let mut i: usize = 0;
    while i < v.len()
        invariant
            i <= v@.len(),
            forall|j: int| 0 <= j < i ==> (#[trigger] v@[j]).0@ != key@,
            forall|j: int| 0 <= j < v@.len() ==> listed_s(*v).contains_key((#[trigger] v@[j]).0@)
                && listed_s(*v)[v@[j].0@] == v@[j].1@,
        decreases v@.len() - i,
    {
        if str_eq(v[i].0.as_str(), key) {
            return Some(&v[i].1);
        }
        i = i + 1;
    }
    None
}

/// A member as text.
pub open spec fn text_s(m: MembersV, key: Seq<char>) -> Option<Seq<char>> {
    match member_s(m, key) {
        Some(JsonV::Text(s)) => Some(s),
        _ => None,
    }
}

pub(crate) fn get_text(v: &Vec<(String, Json)>, key: &str) -> (r: Option<String>)
    requires
        distinct_s(v@),
    ensures
        strs::opt_s(r) == text_s(listed_s(*v), key@),
{
    match member(v, key) {
        Some(Json::Text(s)) => Some(s.clone()),
        _ => None,
    }
}

/// A member as an unsigned number.
pub open spec fn uint_s(m: MembersV, key: Seq<char>) -> Option<u64> {
    match member_s(m, key) {
        Some(JsonV::UInt(n)) => Some(n),
        _ => None,
    }
}

pub(crate) fn get_uint(v: &Vec<(String, Json)>, key: &str) -> (r: Option<u64>)
    requires
        distinct_s(v@),
    ensures
        r == uint_s(listed_s(*v), key@),
{
    match member(v, key) {
        Some(Json::UInt(n)) => Some(*n),
        _ => None,
    }
}

/// A member as a signed number.
pub open spec fn int_s(m: MembersV, key: Seq<char>) -> Option<i64> {
    match member_s(m, key) {
        Some(JsonV::UInt(n)) => if n <= i64::MAX {
            Some(n as i64)
        } else {
            None
        },
        Some(JsonV::Int(n)) => Some(n),
        _ => None,
    }
}

pub(crate) fn get_int(v: &Vec<(String, Json)>, key: &str) -> (r: Option<i64>)
    requires
        distinct_s(v@),
    ensures
        r == int_s(listed_s(*v), key@),
{
    match member(v, key) {
        Some(Json::UInt(n)) => if *n <= i64::MAX as u64 {
            Some(*n as i64)
        } else {
            None
        },
        Some(Json::Int(n)) => Some(*n),
        _ => None,
    }
}

/// A member as a truth value.
pub open spec fn flag_s(m: MembersV, key: Seq<char>) -> Option<bool> {
    match member_s(m, key) {
        Some(JsonV::Bool(b)) => Some(b),
        _ => None,
    }
}

pub(crate) fn get_flag(v: &Vec<(String, Json)>, key: &str) -> (r: Option<bool>)
    requires
        distinct_s(v@),
    ensures
        r == flag_s(listed_s(*v), key@),
{
    match member(v, key) {
        Some(Json::Bool(b)) => Some(*b),
        _ => None,
    }
}

/// The unsigned numbers of a list.
pub open spec fn numbers_s(v: Seq<Option<u64>>, n: nat) -> Seq<u64>
    decreases n,
{
    if n == 0 {
        Seq::empty()
    } else {
        let r = numbers_s(v, (n - 1) as nat);
        match v[n - 1] {
            Some(x) => r.push(x),
            None => r,
        }
    }
}

/// A member as a list of unsigned numbers, empty where it is none.
pub open spec fn list_s(m: MembersV, key: Seq<char>) -> Seq<u64> {
    match member_s(m, key) {
        Some(JsonV::List(v)) => numbers_s(v, v.len()),
        _ => Seq::empty(),
    }
}

pub(crate) fn get_list(v: &Vec<(String, Json)>, key: &str) -> (r: Vec<u64>)
    requires
        distinct_s(v@),
    ensures
        r@ == list_s(listed_s(*v), key@),
{
    let mut out: Vec<u64> = Vec::new();
    if let Some(Json::List(l)) = member(v, key) {
        let mut i: usize = 0;
        while i < l.len()
            invariant
                i <= l@.len(),
                out@ == numbers_s(l@, i as nat),
            decreases l@.len() - i,
        {
            if let Some(x) = l[i] {
                out.push(x);
            }
            i = i + 1;
        }
    }
    out
}

/// The members of an object member; none where it is not an object.
pub open spec fn nested_s(m: MembersV, key: Seq<char>) -> MembersV {
    match member_s(m, key) {
        Some(JsonV::Object(raw)) => match members_s(raw) {
            Some(x) => x,
            None => Map::empty(),
        },
        _ => Map::empty(),
    }
}

pub(crate) fn get_nested(v: &Vec<(String, Json)>, key: &str) -> (r: Vec<(String, Json)>)
    requires
        distinct_s(v@),
    ensures
        listed_s(r) == nested_s(listed_s(*v), key@),
        distinct_s(r@),
{
    if let Some(Json::Object(raw)) = member(v, key) {
        if let Some(m) = members(raw.as_str()) {
            return m;
        }
    }
    Vec::new()
}

// ---------------------------------------------------------------- building an object

/// The members with one more, where there is one.
pub open spec fn put_opt_s(m: MembersV, key: Seq<char>, o: Option<JsonV>) -> MembersV {
    match o {
        Some(v) => m.insert(key, v),
        None => m,
    }
}

pub open spec fn json_ov(o: Option<Json>) -> Option<JsonV> {
    match o {
        Some(v) => Some(v@),
        None => None,
    }
}

proof fn lemma_prefix(v: Seq<(String, Json)>, w: Seq<(String, Json)>, n: nat)
    requires
        n <= v.len(),
        n <= w.len(),
        forall|i: int| 0 <= i < n ==> v[i] == w[i],
    ensures
        members_of_s(v, n) == members_of_s(w, n),
    decreases n,
{
    if n > 0 {
        lemma_prefix(v, w, (n - 1) as nat);
    }
}

/// Add a member.
pub(crate) fn put(v: &mut Vec<(String, Json)>, key: &str, j: Json)
    requires
        all_writable_s(old(v)@),
        writable_s(j@),
    ensures
        all_writable_s(final(v)@),
        listed_s(*final(v)) == listed_s(*old(v)).insert(key@, j@),
{
    let ghost was = v@;
    v.push((key.to_string(), j));
    proof {
        lemma_prefix(was, v@, was.len());
    }
}

/// Add a member, where there is one.
pub(crate) fn put_opt(v: &mut Vec<(String, Json)>, key: &str, o: Option<Json>)
    requires
        all_writable_s(old(v)@),
        o matches Some(j) ==> writable_s(j@),
    ensures
        all_writable_s(final(v)@),
        listed_s(*final(v)) == put_opt_s(listed_s(*old(v)), key@, json_ov(o)),
{
    if let Some(j) = o {
        put(v, key, j);
    }
}

/// A text as JSON.
pub open spec fn opt_text_s(o: Option<Seq<char>>) -> Option<JsonV> {
    match o {
        Some(s) => Some(JsonV::Text(s)),
        None => None,
    }
}

pub(crate) fn opt_text(o: &Option<String>) -> (r: Option<Json>)
    ensures
        json_ov(r) == opt_text_s(strs::opt_s(*o)),
        r matches Some(j) ==> writable_s(j@),
{
    match o {
        Some(s) => Some(Json::Text(s.clone())),
        None => None,
    }
}

/// A signed number as JSON.
pub open spec fn opt_int_s(o: Option<i32>) -> Option<JsonV> {
    match o {
        Some(n) => Some(
            if n < 0 {
                JsonV::Int(n as i64)
            } else {
                JsonV::UInt(n as u64)
            },
        ),
        None => None,
    }
}

pub(crate) fn opt_int(o: Option<i32>) -> (r: Option<Json>)
    ensures
        json_ov(r) == opt_int_s(o),
        r matches Some(j) ==> writable_s(j@),
{
    match o {
        Some(n) => Some(
            if n < 0 {
                Json::Int(n as i64)
            } else {
                Json::UInt(n as u64)
            },
        ),
        None => None,
    }
}

/// A truth value as JSON.
pub open spec fn opt_flag_s(o: Option<bool>) -> Option<JsonV> {
    match o {
        Some(b) => Some(JsonV::Bool(b)),
        None => None,
    }
}

pub(crate) fn opt_flag(o: Option<bool>) -> (r: Option<Json>)
    ensures
        json_ov(r) == opt_flag_s(o),
        r matches Some(j) ==> writable_s(j@),
{
    match o {
        Some(b) => Some(Json::Bool(b)),
        None => None,
    }
}

} // verus!
