//! Relationship parts (`_rels/*.rels`).
//!
//! Resolves the main document part, which need not be named `word/document.xml`, and the
//! id-to-target map by which image and hyperlink relationships are followed.

use vstd::prelude::*;
use crate::events;
use crate::events::{attr, is_tag, read_xml, readable, tag_of, XmlEvent, XmlEventV, XmlStep, XmlStepV};
use crate::search;
use crate::search::ends_with;
use crate::strmap;
use crate::strmap::StrMap;
use crate::strs;
use crate::strs::{chars_of, string_of};

verus! {

broadcast use vstd::string::group_string_axioms;

/// The text without the slashes at its start.
pub open spec fn rootless_s(s: Seq<char>) -> Seq<char>
    decreases s.len(),
{
    if s.len() > 0 && s[0] == '/' {
        rootless_s(s.drop_first())
    } else {
        s
    }
}

fn rootless(s: &str) -> (r: String)
    ensures
        r@ == rootless_s(s@),
{
    let v = chars_of(s);
    let mut i: usize = 0;
    assert(v@.skip(0) =~= v@);
    while i < v.len() && v[i] == '/'
        invariant
            i <= v@.len(),
            rootless_s(v@) == rootless_s(v@.skip(i as int)),
        decreases v@.len() - i,
    {
        assert(v@.skip(i as int).drop_first() =~= v@.skip(i + 1));
        i = i + 1;
    }
    assert(v@.subrange(i as int, v@.len() as int) =~= v@.skip(i as int));
    string_of(&v, i, v.len())
}

/// The target of a relationship to the main document part.
pub open spec fn main_target_s(e: XmlEventV) -> Option<Seq<char>> {
    match events::tag_of_s(e) {
        Some(t) => match (events::attr_s(t, "Type"@), events::attr_s(t, "Target"@)) {
            (Some(ty), Some(target)) => if t.name == "Relationship"@ && search::ends_s(
                ty,
                "/officeDocument"@,
            ) {
                Some(rootless_s(target))
            } else {
                None
            },
            _ => None,
        },
        None => None,
    }
}

/// The first target among the steps from `from` to `to`.
pub open spec fn main_part_s(steps: Seq<XmlStepV>, from: int, to: int) -> Option<Seq<char>>
    decreases to - from,
{
    if from < to {
        match main_target_s(steps[from].event) {
            Some(x) => Some(x),
            None => main_part_s(steps, from + 1, to),
        }
    } else {
        None
    }
}

fn main_target(e: &XmlEvent) -> (r: Option<String>)
    ensures
        strs::opt_s(r) == main_target_s(e@),
{
    if let Some(t) = tag_of(e) {
        if is_tag(t, "Relationship") {
            if let Some(ty) = attr(t, "Type") {
                if ends_with(ty.as_str(), "/officeDocument") {
                    if let Some(target) = attr(t, "Target") {
                        return Some(rootless(target.as_str()));
                    }
                }
            }
        }
    }
    None
}

/// The main document part that tokenized root relationships name.
pub fn main_part_of(steps: &Vec<XmlStep>) -> (r: Option<String>)
    ensures
        strs::opt_s(r) == ({
            let v = events::xml_step_vs(steps@);
            main_part_s(v, 0, events::readable_s(v, 0))
        }),
{
    let n = readable(steps);
    let ghost v = events::xml_step_vs(steps@);
    let mut i: usize = 0;
    while i < n
        invariant
            i <= n <= steps@.len(),
            n == events::readable_s(v, 0),
            v == events::xml_step_vs(steps@),
            main_part_s(v, 0, n as int) == main_part_s(v, i as int, n as int),
        decreases n - i,
    {
        assert(v[i as int] == steps@[i as int]@);
        if let Some(x) = main_target(&steps[i].event) {
            return Some(x);
        }
        i = i + 1;
    }
    None
}

/// The package path of the main document part, read from `_rels/.rels`: the first relationship
/// whose type ends in `/officeDocument`.
pub fn main_document_part(rels_xml: &[u8]) -> (r: Option<String>)
    ensures
        strs::opt_s(r) == ({
            let v = events::doc_s(rels_xml@);
            main_part_s(v, 0, events::readable_s(v, 0))
        }),
{
    main_part_of(&read_xml(rels_xml))
}

/// The map with what one step adds: a relationship with an id and a target.
pub open spec fn rels_step_s(map: Seq<(Seq<char>, Seq<char>)>, e: XmlEventV) -> Seq<
    (Seq<char>, Seq<char>),
> {
    match events::tag_of_s(e) {
        Some(t) => match (events::attr_s(t, "Id"@), events::attr_s(t, "Target"@)) {
            (Some(id), Some(target)) => if t.name == "Relationship"@ {
                strmap::put_s(map, id, target)
            } else {
                map
            },
            _ => map,
        },
        None => map,
    }
}

pub open spec fn rels_s(steps: Seq<XmlStepV>, n: int) -> Seq<(Seq<char>, Seq<char>)>
    decreases n,
{
    if n <= 0 {
        Seq::empty()
    } else {
        rels_step_s(rels_s(steps, n - 1), steps[n - 1].event)
    }
}

/// The relationships that a tokenized part states.
pub fn rels_of(steps: &Vec<XmlStep>) -> (r: StrMap<String>)
    ensures
        r@ == ({
            let v = events::xml_step_vs(steps@);
            rels_s(v, events::readable_s(v, 0))
        }),
{
    let n = readable(steps);
    let ghost v = events::xml_step_vs(steps@);
    let mut map: StrMap<String> = StrMap::new();
    let mut i: usize = 0;
    while i < n
        invariant
            i <= n <= steps@.len(),
            v == events::xml_step_vs(steps@),
            map@ == rels_s(v, i as int),
        decreases n - i,
    {
        assert(v[i as int] == steps@[i as int]@);
        if let Some(t) = tag_of(&steps[i].event) {
            if is_tag(t, "Relationship") {
                if let Some(id) = attr(t, "Id") {
                    if let Some(target) = attr(t, "Target") {
                        map.insert(id.as_str(), target);
                    }
                }
            }
        }
        i = i + 1;
    }
    map
}

/// Resolve `word/_rels/document.xml.rels` into a map of relationship id to target.
pub fn resolve_rels(rels_xml: &[u8]) -> (r: StrMap<String>)
    ensures
        r@ == ({
            let v = events::doc_s(rels_xml@);
            rels_s(v, events::readable_s(v, 0))
        }),
{
    rels_of(&read_xml(rels_xml))
}

} // verus!
