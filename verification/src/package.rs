//! Package plumbing for save.
//!
//! A document package is a set of named parts wired together by relationship and content-type
//! parts. These are the small edits that keep the wiring coherent when a part is added; every
//! part they do not name survives untouched.

use vstd::prelude::*;
use crate::events;
use crate::events::lossy;
use crate::search;
use crate::search::{contains_str, find_at, rfind_at, splice};
use crate::strs;
use crate::strs::{chars_of, dec, parse_uint, str_eq};

verus! {

broadcast use vstd::string::group_string_axioms;

/// A part of a package.
pub struct Part {
    pub name: String,
    pub data: Vec<u8>,
}

/// The mathematical value of a [`Part`].
#[verifier::ext_equal]
pub struct PartV {
    pub name: Seq<char>,
    pub data: Seq<u8>,
}

impl View for Part {
    type V = PartV;

    open spec fn view(&self) -> PartV {
        PartV { name: self.name@, data: self.data@ }
    }
}

pub open spec fn part_vs(s: Seq<Part>) -> Seq<PartV> {
    Seq::new(s.len(), |i: int| s[i]@)
}

/// Relationship type of a picture.
pub const IMAGE_REL: &'static str =
    "http://schemas.openxmlformats.org/officeDocument/2006/relationships/image";

/// The content types of a package that holds only a document.
pub const CONTENT_TYPES_MIN: &'static str =
    "<?xml version=\"1.0\" encoding=\"UTF-8\" standalone=\"yes\"?>\n<Types xmlns=\"http://schemas.openxmlformats.org/package/2006/content-types\"><Default Extension=\"rels\" ContentType=\"application/vnd.openxmlformats-package.relationships+xml\"/><Default Extension=\"xml\" ContentType=\"application/xml\"/><Override PartName=\"/word/document.xml\" ContentType=\"application/vnd.openxmlformats-officedocument.wordprocessingml.document.main+xml\"/></Types>";

/// The root relationships of a package that holds only a document.
pub const ROOT_RELS_MIN: &'static str =
    "<?xml version=\"1.0\" encoding=\"UTF-8\" standalone=\"yes\"?>\n<Relationships xmlns=\"http://schemas.openxmlformats.org/package/2006/relationships\"><Relationship Id=\"rId1\" Type=\"http://schemas.openxmlformats.org/officeDocument/2006/relationships/officeDocument\" Target=\"word/document.xml\"/></Relationships>";

/// A relationship part without relationships.
pub const DOC_RELS_MIN: &'static str =
    "<?xml version=\"1.0\" encoding=\"UTF-8\" standalone=\"yes\"?>\n<Relationships xmlns=\"http://schemas.openxmlformats.org/package/2006/relationships\"></Relationships>";

// ---------------------------------------------------------------- parts by name

/// The index of the first part called `name`, from `from` on; the length where there is none.
pub open spec fn part_at_s(ps: Seq<PartV>, name: Seq<char>, from: int) -> int
    decreases ps.len() - from,
{
    if 0 <= from < ps.len() {
        if ps[from].name == name {
            from
        } else {
            part_at_s(ps, name, from + 1)
        }
    } else {
        ps.len() as int
    }
}

/// The parts with the bytes of `name` replaced, or added at the end.
pub open spec fn set_part_s(ps: Seq<PartV>, name: Seq<char>, data: Seq<u8>) -> Seq<PartV> {
    let i = part_at_s(ps, name, 0);
    if i < ps.len() {
        ps.update(i, PartV { data, ..ps[i] })
    } else {
        ps.push(PartV { name, data })
    }
}

fn part_at(parts: &Vec<Part>, name: &str) -> (r: usize)
    ensures
        r == part_at_s(part_vs(parts@), name@, 0),
        r <= parts@.len(),
{
    let ghost v = part_vs(parts@);
    let mut i: usize = 0;
    while i < parts.len()
        invariant
            i <= parts@.len(),
            v == part_vs(parts@),
            part_at_s(v, name@, 0) == part_at_s(v, name@, i as int),
        decreases parts@.len() - i,
    {
        assert(v[i as int] == parts@[i as int]@);
        if str_eq(parts[i].name.as_str(), name) {
            return i;
        }
        i = i + 1;
    }
    i
}

/// Replace (or add) a part's bytes by name.
pub fn set_part(parts: &mut Vec<Part>, name: &str, data: Vec<u8>)
    ensures
        part_vs(final(parts)@) == set_part_s(part_vs(old(parts)@), name@, data@),
{
    let i = part_at(parts, name);
    let ghost v = part_vs(parts@);
    let ghost dv = data@;
    if i < parts.len() {
        assert(v[i as int] == parts@[i as int]@);
        let kept = parts[i].name.clone();
        parts.set(i, Part { name: kept, data });
        assert(part_vs(parts@) =~= v.update(i as int, PartV { data: dv, ..v[i as int] }));
    } else {
        parts.push(Part { name: name.to_string(), data });
        assert(part_vs(parts@) =~= v.push(PartV { name: name@, data: dv }));
    }
}

fn bytes_of(s: &str) -> (r: Vec<u8>)
    ensures
        r@ == vstd::utf8::encode_utf8(s@),
{
    vstd::slice::slice_to_vec(s.as_bytes())
}

// ---------------------------------------------------------------- inserting before the end

/// The bytes with `ins` put in before the last `end`, unless they hold `guard` already or have no
/// `end`.
pub open spec fn edited_s(data: Seq<u8>, guard: Seq<char>, ins: Seq<char>, end: Seq<char>) -> Seq<u8> {
    let t = events::lossy_s(data);
    if search::contains_s(t, guard) {
        data
    } else {
        match search::rfind_s(t, end) {
            Some(at) => vstd::utf8::encode_utf8(search::splice_s(t, at, ins, at)),
            None => data,
        }
    }
}

/// The parts with the part called `name` edited, where there is one.
pub open spec fn edited_part_s(
    ps: Seq<PartV>,
    name: Seq<char>,
    guard: Seq<char>,
    ins: Seq<char>,
    end: Seq<char>,
) -> Seq<PartV> {
    let i = part_at_s(ps, name, 0);
    if i < ps.len() {
        ps.update(i, PartV { data: edited_s(ps[i].data, guard, ins, end), ..ps[i] })
    } else {
        ps
    }
}

fn edited(data: &Vec<u8>, guard: &str, ins: &str, end: &str) -> (r: Vec<u8>)
    ensures
        r@ == edited_s(data@, guard@, ins@, end@),
{
    let t = lossy(data.as_slice());
    if contains_str(t.as_str(), guard) {
        return vstd::slice::slice_to_vec(data.as_slice());
    }
    let v = chars_of(t.as_str());
    match rfind_at(&v, end) {
        Some(at) => bytes_of(splice(&v, at, ins, at).as_str()),
        None => vstd::slice::slice_to_vec(data.as_slice()),
    }
}

fn edit_part(parts: &mut Vec<Part>, name: &str, guard: &str, ins: &str, end: &str)
    ensures
        part_vs(final(parts)@) == edited_part_s(
            part_vs(old(parts)@),
            name@,
            guard@,
            ins@,
            end@,
        ),
{
    let i = part_at(parts, name);
    let ghost v = part_vs(parts@);
    if i < parts.len() {
        assert(v[i as int] == parts@[i as int]@);
        let data = edited(&parts[i].data, guard, ins, end);
        let ghost dv = data@;
        let kept = parts[i].name.clone();
        parts.set(i, Part { name: kept, data });
        assert(part_vs(parts@) =~= v.update(i as int, PartV { data: dv, ..v[i as int] }));
    }
}

// ---------------------------------------------------------------- content types

/// The attribute that registers a part.
pub open spec fn part_name_s(part: Seq<char>) -> Seq<char> {
    "PartName=\""@ + part + "\""@
}

/// The element that registers a part with its content type.
pub open spec fn override_s(part: Seq<char>, content_type: Seq<char>) -> Seq<char> {
    "<Override "@ + part_name_s(part) + " ContentType=\""@ + content_type + "\"/>"@
}

/// The parts with `part` registered in the content types.
pub open spec fn with_content_type_s(ps: Seq<PartV>, part: Seq<char>, content_type: Seq<char>) -> Seq<
    PartV,
> {
    edited_part_s(
        ps,
        "[Content_Types].xml"@,
        part_name_s(part),
        override_s(part, content_type),
        "</Types>"@,
    )
}

fn quoted(key: &str, value: &str) -> (r: String)
    ensures
        r@ == key@ + value@ + "\""@,
{
    let mut s = key.to_string();
    s.append(value);
    s.append("\"");
    s
}

/// Add an `Override` for `part_name` to the content types if absent.
pub fn patch_content_types(parts: &mut Vec<Part>, part_name: &str, content_type: &str)
    ensures
        part_vs(final(parts)@) == with_content_type_s(
            part_vs(old(parts)@),
            part_name@,
            content_type@,
        ),
{
    let guard = quoted("PartName=\"", part_name);
    let mut ins = "<Override ".to_string();
    ins.append(guard.as_str());
    ins.append(" ContentType=\"");
    ins.append(content_type);
    ins.append("\"/>");
    edit_part(parts, "[Content_Types].xml", guard.as_str(), ins.as_str(), "</Types>");
}

/// The bytes with `ins` put in after the first `<Types ...>`, unless they hold `guard` already.
pub open spec fn with_default_s(data: Seq<u8>, guard: Seq<char>, ins: Seq<char>) -> Seq<u8> {
    let t = events::lossy_s(data);
    if search::contains_s(t, guard) {
        data
    } else {
        match search::find_s(t, "<Types"@, 0) {
            Some(start) => match search::find_s(t, ">"@, start) {
                Some(gt) => vstd::utf8::encode_utf8(search::splice_s(t, gt + 1, ins, gt + 1)),
                None => data,
            },
            None => data,
        }
    }
}

pub open spec fn extension_s(ext: Seq<char>) -> Seq<char> {
    "Extension=\""@ + ext + "\""@
}

/// The element that declares the content type of an extension.
pub open spec fn default_s(ext: Seq<char>, content_type: Seq<char>) -> Seq<char> {
    "<Default "@ + extension_s(ext) + " ContentType=\""@ + content_type + "\"/>"@
}

/// The parts with the extension declared in the content types.
pub open spec fn with_extension_s(ps: Seq<PartV>, ext: Seq<char>, content_type: Seq<char>) -> Seq<
    PartV,
> {
    let i = part_at_s(ps, "[Content_Types].xml"@, 0);
    if i < ps.len() {
        ps.update(
            i,
            PartV {
                data: with_default_s(ps[i].data, extension_s(ext), default_s(ext, content_type)),
                ..ps[i]
            },
        )
    } else {
        ps
    }
}

fn with_default(data: &Vec<u8>, guard: &str, ins: &str) -> (r: Vec<u8>)
    ensures
        r@ == with_default_s(data@, guard@, ins@),
{
    let t = lossy(data.as_slice());
    if !contains_str(t.as_str(), guard) {
        let v = chars_of(t.as_str());
        let n = v.len();
        if let Some(start) = find_at(&v, "<Types", 0) {
            if let Some(gt) = find_at(&v, ">", start) {
                proof {
                    reveal_strlit(">");
                }
                return bytes_of(splice(&v, gt + 1, ins, gt + 1).as_str());
            }
        }
    }
    vstd::slice::slice_to_vec(data.as_slice())
}

/// Ensure the content types declare a `Default` for `ext`, right after the opening tag so that
/// defaults precede overrides.
pub fn patch_content_type_default(parts: &mut Vec<Part>, ext: &str, content_type: &str)
    ensures
        part_vs(final(parts)@) == with_extension_s(part_vs(old(parts)@), ext@, content_type@),
{
    let guard = quoted("Extension=\"", ext);
    let mut ins = "<Default ".to_string();
    ins.append(guard.as_str());
    ins.append(" ContentType=\"");
    ins.append(content_type);
    ins.append("\"/>");
    let i = part_at(parts, "[Content_Types].xml");
    let ghost v = part_vs(parts@);
    if i < parts.len() {
        assert(v[i as int] == parts@[i as int]@);
        let data = with_default(&parts[i].data, guard.as_str(), ins.as_str());
        let ghost dv = data@;
        let kept = parts[i].name.clone();
        parts.set(i, Part { name: kept, data });
        assert(part_vs(parts@) =~= v.update(i as int, PartV { data: dv, ..v[i as int] }));
    }
}

// ---------------------------------------------------------------- relationships

/// The parts with a part called `name`, an empty relationship part where there was none.
pub open spec fn with_rels_part_s(ps: Seq<PartV>, name: Seq<char>) -> Seq<PartV> {
    if part_at_s(ps, name, 0) < ps.len() {
        ps
    } else {
        ps.push(PartV { name, data: vstd::utf8::encode_utf8(DOC_RELS_MIN@) })
    }
}

fn ensure_rels_part(parts: &mut Vec<Part>, name: &str)
    ensures
        part_vs(final(parts)@) == with_rels_part_s(part_vs(old(parts)@), name@),
{
    let i = part_at(parts, name);
    if i == parts.len() {
        let ghost v = part_vs(parts@);
        let data = bytes_of(DOC_RELS_MIN);
        parts.push(Part { name: name.to_string(), data });
        assert(part_vs(parts@) =~= v.push(
            PartV { name: name@, data: vstd::utf8::encode_utf8(DOC_RELS_MIN@) },
        ));
    }
}

pub open spec fn target_s(target: Seq<char>) -> Seq<char> {
    "Target=\""@ + target + "\""@
}

pub open spec fn id_s(id: Seq<char>) -> Seq<char> {
    "Id=\""@ + id + "\""@
}

/// A relationship element.
pub open spec fn relationship_s(
    id: Seq<char>,
    rel_type: Seq<char>,
    target: Seq<char>,
    tail: Seq<char>,
) -> Seq<char> {
    "<Relationship "@ + id_s(id) + " Type=\""@ + rel_type + "\" "@ + target_s(target) + tail
}

fn relationship(id: &str, rel_type: &str, target: &str, tail: &str) -> (r: String)
    ensures
        r@ == relationship_s(id@, rel_type@, target@, tail@),
{
    let mut s = "<Relationship ".to_string();
    s.append(quoted("Id=\"", id).as_str());
    s.append(" Type=\"");
    s.append(rel_type);
    s.append("\" ");
    s.append(quoted("Target=\"", target).as_str());
    s.append(tail);
    s
}

/// How many digits stand in `s` from `from` on.
pub open spec fn digits_end_s(s: Seq<char>, from: int) -> int
    decreases s.len() - from,
{
    if 0 <= from < s.len() && strs::is_digit_s(s[from]) {
        digits_end_s(s, from + 1)
    } else {
        from
    }
}

/// The number after an `rId` at position `at`, where it is one of 32 bits.
pub open spec fn rid_at_s(s: Seq<char>, at: int) -> Option<nat> {
    if search::at_s(s, "rId"@, at) {
        strs::parse_uint_s(s.subrange(at + 3, digits_end_s(s, at + 3)), u32::MAX as nat)
    } else {
        None
    }
}

/// The largest such number among the first `n` positions; 0 where there is none.
pub open spec fn max_rid_s(s: Seq<char>, n: nat) -> nat
    decreases n,
{
    if n == 0 {
        0
    } else {
        let before = max_rid_s(s, (n - 1) as nat);
        match rid_at_s(s, n - 1) {
            Some(x) => if x > before {
                x
            } else {
                before
            },
            None => before,
        }
    }
}

/// The largest `rId{N}` number in a relationship text (0 if none).
pub fn max_rid(s: &str) -> (r: u32)
    ensures
        r == max_rid_s(s@, s@.len()),
{
    let v = chars_of(s);
    let len = v.len();
    let pat = chars_of("rId");
    proof {
        reveal_strlit("rId");
    }
    let mut best: u32 = 0;
    let mut i: usize = 0;
    while i < len
        invariant
            i <= len == v@.len(),
            v@ == s@,
            pat@ == "rId"@,
            pat@.len() == 3,
            best == max_rid_s(s@, i as nat),
        decreases len - i,
    {
        if search::stands_at(&v, &pat, i) {
            let from = i + 3;
            let mut j: usize = from;
            while j < len && '0' <= v[j] && v[j] <= '9'
                invariant
                    from <= j <= len == v@.len(),
                    digits_end_s(v@, from as int) == digits_end_s(v@, j as int),
                decreases len - j,
            {
                j = j + 1;
            }
            let digits = strs::string_of(&v, from, j);
            if let Some(x) = parse_uint(digits.as_str(), u32::MAX as u64) {
                if x as u32 > best {
                    best = x as u32;
                }
            }
        }
        i = i + 1;
    }
    best
}

/// The next free relationship id of a relationship text.
pub open spec fn next_rid_s(t: Seq<char>) -> Seq<char> {
    "rId"@ + strs::dec_s(max_rid_s(t, t.len()) + 1)
}

/// The bytes with a relationship to `target` under the next free id.
pub open spec fn with_doc_rel_s(data: Seq<u8>, target: Seq<char>, rel_type: Seq<char>) -> Seq<u8> {
    edited_s(
        data,
        target_s(target),
        relationship_s(next_rid_s(events::lossy_s(data)), rel_type, target, "/>"@),
        "</Relationships>"@,
    )
}

/// The parts with a relationship from the document to `target`, unless one is there.
pub open spec fn with_doc_rels_s(ps: Seq<PartV>, target: Seq<char>, rel_type: Seq<char>) -> Seq<PartV> {
    let name = "word/_rels/document.xml.rels"@;
    let qs = with_rels_part_s(ps, name);
    let i = part_at_s(qs, name, 0);
    if i < qs.len() {
        qs.update(i, PartV { data: with_doc_rel_s(qs[i].data, target, rel_type), ..qs[i] })
    } else {
        qs
    }
}

/// Add a relationship from the document to `word/{target}` if none targets it yet, creating the
/// relationship part if missing. The new id is one past the largest.
pub fn patch_doc_rels(parts: &mut Vec<Part>, target: &str, rel_type: &str)
    ensures
        part_vs(final(parts)@) == with_doc_rels_s(part_vs(old(parts)@), target@, rel_type@),
{
    let name = "word/_rels/document.xml.rels";
    ensure_rels_part(parts, name);
    let i = part_at(parts, name);
    let ghost v = part_vs(parts@);
    if i < parts.len() {
        assert(v[i as int] == parts@[i as int]@);
        let t = lossy(parts[i].data.as_slice());
        let mut id = "rId".to_string();
        id.append(dec(max_rid(t.as_str()) as u128 + 1).as_str());
        let ins = relationship(id.as_str(), rel_type, target, "/>");
        let guard = quoted("Target=\"", target);
        let data = edited(&parts[i].data, guard.as_str(), ins.as_str(), "</Relationships>");
        let ghost dv = data@;
        let kept = parts[i].name.clone();
        parts.set(i, Part { name: kept, data });
        assert(part_vs(parts@) =~= v.update(i as int, PartV { data: dv, ..v[i as int] }));
    }
}

/// The parts with a relationship of a given id to `target`, unless one targets it.
pub open spec fn with_doc_rel_id_s(
    ps: Seq<PartV>,
    r_id: Seq<char>,
    target: Seq<char>,
    rel_type: Seq<char>,
) -> Seq<PartV> {
    let name = "word/_rels/document.xml.rels"@;
    edited_part_s(
        with_rels_part_s(ps, name),
        name,
        target_s(target),
        relationship_s(r_id, rel_type, target, "/>"@),
        "</Relationships>"@,
    )
}

/// Add a relationship with a given id from the document to `word/{target}`, unless one already
/// targets it.
pub fn patch_doc_rels_with_id(parts: &mut Vec<Part>, r_id: &str, target: &str, rel_type: &str)
    ensures
        part_vs(final(parts)@) == with_doc_rel_id_s(
            part_vs(old(parts)@),
            r_id@,
            target@,
            rel_type@,
        ),
{
    let name = "word/_rels/document.xml.rels";
    ensure_rels_part(parts, name);
    let ins = relationship(r_id, rel_type, target, "/>");
    let guard = quoted("Target=\"", target);
    edit_part(parts, name, guard.as_str(), ins.as_str(), "</Relationships>");
}

/// A character as it stands in an attribute value.
pub open spec fn attr_char_s(c: char) -> Seq<char> {
    if c == '&' {
        "&amp;"@
    } else if c == '"' {
        "&quot;"@
    } else if c == '<' {
        "&lt;"@
    } else if c == '>' {
        "&gt;"@
    } else {
        seq![c]
    }
}

/// An address as it stands in an attribute value.
pub open spec fn attr_escaped_s(s: Seq<char>, n: nat) -> Seq<char>
    decreases n,
{
    if n == 0 {
        Seq::empty()
    } else {
        attr_escaped_s(s, (n - 1) as nat) + attr_char_s(s[n - 1])
    }
}

fn attr_escaped(s: &str) -> (r: String)
    ensures
        r@ == attr_escaped_s(s@, s@.len()),
{
    let v = chars_of(s);
    let mut out = String::new();
    let mut i: usize = 0;
    assert(out@ =~= Seq::empty());
    while i < v.len()
        invariant
            i <= v@.len(),
            v@ == s@,
            out@ == attr_escaped_s(s@, i as nat),
        decreases v@.len() - i,
    {
        let c = v[i];
        if c == '&' {
            out.append("&amp;");
        } else if c == '"' {
            out.append("&quot;");
        } else if c == '<' {
            out.append("&lt;");
        } else if c == '>' {
            out.append("&gt;");
        } else {
            let ghost was = out@;
            out.push(c);
            assert(out@ =~= was + seq![c]);
        }
        i = i + 1;
    }
    out
}

/// The parts with an external relationship of a given id, unless the id is taken.
pub open spec fn with_external_rel_s(
    ps: Seq<PartV>,
    r_id: Seq<char>,
    url: Seq<char>,
    rel_type: Seq<char>,
) -> Seq<PartV> {
    let name = "word/_rels/document.xml.rels"@;
    edited_part_s(
        with_rels_part_s(ps, name),
        name,
        id_s(r_id),
        relationship_s(
            r_id,
            rel_type,
            attr_escaped_s(url, url.len()),
            " TargetMode=\"External\"/>"@,
        ),
        "</Relationships>"@,
    )
}

/// Add an external relationship (such as a hyperlink) to the document's relationships, keyed by
/// `r_id`.
pub fn patch_external_rel(parts: &mut Vec<Part>, r_id: &str, url: &str, rel_type: &str)
    ensures
        part_vs(final(parts)@) == with_external_rel_s(
            part_vs(old(parts)@),
            r_id@,
            url@,
            rel_type@,
        ),
{
    let name = "word/_rels/document.xml.rels";
    ensure_rels_part(parts, name);
    let ins = relationship(
        r_id,
        rel_type,
        attr_escaped(url).as_str(),
        " TargetMode=\"External\"/>",
    );
    let guard = quoted("Id=\"", r_id);
    edit_part(parts, name, guard.as_str(), ins.as_str(), "</Relationships>");
}

/// The parts with an internal relationship of a given id in `rels_name`, unless the id is taken.
pub open spec fn with_internal_rel_s(
    ps: Seq<PartV>,
    rels_name: Seq<char>,
    r_id: Seq<char>,
    target: Seq<char>,
    rel_type: Seq<char>,
) -> Seq<PartV> {
    edited_part_s(
        with_rels_part_s(ps, rels_name),
        rels_name,
        id_s(r_id),
        relationship_s(r_id, rel_type, target, "/>"@),
        "</Relationships>"@,
    )
}

/// Add an internal relationship keyed by `r_id` to the document's relationships.
pub fn patch_internal_rel(parts: &mut Vec<Part>, r_id: &str, target: &str, rel_type: &str)
    ensures
        part_vs(final(parts)@) == with_internal_rel_s(
            part_vs(old(parts)@),
            "word/_rels/document.xml.rels"@,
            r_id@,
            target@,
            rel_type@,
        ),
{
    patch_internal_rel_in(parts, "word/_rels/document.xml.rels", r_id, target, rel_type);
}

/// Add an internal relationship keyed by `r_id` to the named relationship part, creating it if
/// absent.
pub fn patch_internal_rel_in(
    parts: &mut Vec<Part>,
    rels_name: &str,
    r_id: &str,
    target: &str,
    rel_type: &str,
)
    ensures
        part_vs(final(parts)@) == with_internal_rel_s(
            part_vs(old(parts)@),
            rels_name@,
            r_id@,
            target@,
            rel_type@,
        ),
{
    ensure_rels_part(parts, rels_name);
    let ins = relationship(r_id, rel_type, target, "/>");
    let guard = quoted("Id=\"", r_id);
    edit_part(parts, rels_name, guard.as_str(), ins.as_str(), "</Relationships>");
}

/// The parts with the comment parts registered: content types and relationships.
pub open spec fn with_comment_parts_s(ps: Seq<PartV>) -> Seq<PartV> {
    with_doc_rels_s(
        with_doc_rels_s(
            with_content_type_s(
                with_content_type_s(
                    ps,
                    "/word/comments.xml"@,
                    "application/vnd.openxmlformats-officedocument.wordprocessingml.comments+xml"@,
                ),
                "/word/commentsExtended.xml"@,
                "application/vnd.openxmlformats-officedocument.wordprocessingml.commentsExtended+xml"@,
            ),
            "comments.xml"@,
            "http://schemas.openxmlformats.org/officeDocument/2006/relationships/comments"@,
        ),
        "commentsExtended.xml"@,
        "http://schemas.microsoft.com/office/2011/relationships/commentsExtended"@,
    )
}

/// Register the two comment parts in the content types and the document's relationships.
pub fn ensure_comment_parts_registered(parts: &mut Vec<Part>)
    ensures
        part_vs(final(parts)@) == with_comment_parts_s(part_vs(old(parts)@)),
{
    patch_content_types(
        parts,
        "/word/comments.xml",
        "application/vnd.openxmlformats-officedocument.wordprocessingml.comments+xml",
    );
    patch_content_types(
        parts,
        "/word/commentsExtended.xml",
        "application/vnd.openxmlformats-officedocument.wordprocessingml.commentsExtended+xml",
    );
    patch_doc_rels(
        parts,
        "comments.xml",
        "http://schemas.openxmlformats.org/officeDocument/2006/relationships/comments",
    );
    patch_doc_rels(
        parts,
        "commentsExtended.xml",
        "http://schemas.microsoft.com/office/2011/relationships/commentsExtended",
    );
}

// ---------------------------------------------------------------- media types

pub open spec fn lower_char_s(c: char) -> char {
    if 'A' <= c <= 'Z' {
        (c as int + 32) as char
    } else {
        c
    }
}

/// The text with its ASCII letters in lower case.
pub open spec fn lower_s(s: Seq<char>) -> Seq<char> {
    Seq::new(s.len(), |i: int| lower_char_s(s[i]))
}

pub(crate) fn lower(s: &str) -> (r: String)
    ensures
        r@ == lower_s(s@),
{
    let v = chars_of(s);
    let mut out = String::new();
    let mut i: usize = 0;
    while i < v.len()
        invariant
            i <= v@.len(),
            v@ == s@,
            out@ == lower_s(s@).subrange(0, i as int),
        decreases v@.len() - i,
    {
        let c = v[i];
        let l = if 'A' <= c && c <= 'Z' {
            (c as u8 + 32) as char
        } else {
            c
        };
        out.push(l);
        i = i + 1;
        assert(out@ =~= lower_s(s@).subrange(0, i as int));
    }
    assert(lower_s(s@).subrange(0, i as int) =~= lower_s(s@));
    out
}

/// The content type of a media file extension.
pub open spec fn image_type_s(ext: Seq<char>) -> Option<Seq<char>> {
    let e = lower_s(ext);
    if e == "png"@ {
        Some("image/png"@)
    } else if e == "jpg"@ || e == "jpeg"@ {
        Some("image/jpeg"@)
    } else if e == "gif"@ {
        Some("image/gif"@)
    } else if e == "bmp"@ {
        Some("image/bmp"@)
    } else if e == "tif"@ || e == "tiff"@ {
        Some("image/tiff"@)
    } else if e == "svg"@ {
        Some("image/svg+xml"@)
    } else if e == "emf"@ {
        Some("image/x-emf"@)
    } else if e == "wmf"@ {
        Some("image/x-wmf"@)
    } else {
        None
    }
}

/// The content type for a media file extension, or `None` for an unknown one.
pub fn image_content_type(ext: &str) -> (r: Option<&'static str>)
    ensures
        r matches Some(t) ==> image_type_s(ext@) == Some(t@),
        r is None ==> image_type_s(ext@) is None,
{
    let low = lower(ext);
    let e = low.as_str();
    if str_eq(e, "png") {
        Some("image/png")
    } else if str_eq(e, "jpg") || str_eq(e, "jpeg") {
        Some("image/jpeg")
    } else if str_eq(e, "gif") {
        Some("image/gif")
    } else if str_eq(e, "bmp") {
        Some("image/bmp")
    } else if str_eq(e, "tif") || str_eq(e, "tiff") {
        Some("image/tiff")
    } else if str_eq(e, "svg") {
        Some("image/svg+xml")
    } else if str_eq(e, "emf") {
        Some("image/x-emf")
    } else if str_eq(e, "wmf") {
        Some("image/x-wmf")
    } else {
        None
    }
}

/// The media file extension of a MIME type; `png` for an unknown one.
pub open spec fn ext_s(mime: Seq<char>) -> Seq<char> {
    let m = lower_s(mime);
    if m == "image/jpeg"@ || m == "image/jpg"@ {
        "jpg"@
    } else if m == "image/gif"@ {
        "gif"@
    } else if m == "image/bmp"@ {
        "bmp"@
    } else if m == "image/tiff"@ {
        "tif"@
    } else if m == "image/svg+xml"@ {
        "svg"@
    } else {
        "png"@
    }
}

/// The media file extension for a MIME type.
pub fn ext_for_mime(mime: &str) -> (r: &'static str)
    ensures
        r@ == ext_s(mime@),
{
    let low = lower(mime);
    let m = low.as_str();
    if str_eq(m, "image/jpeg") || str_eq(m, "image/jpg") {
        "jpg"
    } else if str_eq(m, "image/gif") {
        "gif"
    } else if str_eq(m, "image/bmp") {
        "bmp"
    } else if str_eq(m, "image/tiff") {
        "tif"
    } else if str_eq(m, "image/svg+xml") {
        "svg"
    } else {
        "png"
    }
}

// ---------------------------------------------------------------- laws

proof fn lemma_contains_at(s: Seq<char>, pat: Seq<char>, at: int)
    requires
        search::at_s(s, pat, at),
    ensures
        search::contains_s(s, pat),
{
    search::lemma_find(s, pat, 0);
}

/// Whatever stands in the inserted text stands in the whole.
proof fn lemma_contains_inserted(t: Seq<char>, at: int, ins: Seq<char>, pat: Seq<char>)
    requires
        0 <= at <= t.len(),
        search::contains_s(ins, pat),
    ensures
        search::contains_s(search::splice_s(t, at, ins, at), pat),
{
    search::lemma_find(ins, pat, 0);
    let k = search::find_s(ins, pat, 0)->0;
    let whole = search::splice_s(t, at, ins, at);
    assert(whole.subrange(at + k, at + k + pat.len()) =~= ins.subrange(k, k + pat.len()));
    lemma_contains_at(whole, pat, at + k);
}

/// What stood in the text still stands in it after an insertion before a `<`, if it holds no `<`.
proof fn lemma_contains_kept(t: Seq<char>, at: int, ins: Seq<char>, pat: Seq<char>)
    requires
        0 <= at < t.len(),
        t[at] == '<',
        !pat.contains('<'),
        search::contains_s(t, pat),
    ensures
        search::contains_s(search::splice_s(t, at, ins, at), pat),
{
    search::lemma_find(t, pat, 0);
    let k = search::find_s(t, pat, 0)->0;
    let whole = search::splice_s(t, at, ins, at);
    if k + pat.len() <= at {
        assert(whole.subrange(k, k + pat.len()) =~= t.subrange(k, k + pat.len()));
        lemma_contains_at(whole, pat, k);
    } else if k > at || (k == at && pat.len() == 0) {
        assert(whole.subrange(k + ins.len(), k + ins.len() + pat.len()) =~= t.subrange(
            k,
            k + pat.len(),
        ));
        lemma_contains_at(whole, pat, k + ins.len());
    } else {
        assert(t.subrange(k, k + pat.len())[at - k] == t[at]);
        assert(pat[at - k] == '<');
    }
}

/// Whether an edit guarded by `guard` has nothing to do.
spec fn settled_s(data: Seq<u8>, guard: Seq<char>, end: Seq<char>) -> bool {
    let t = events::lossy_s(data);
    search::contains_s(t, guard) || search::rfind_s(t, end) is None
}

proof fn lemma_lossy_encoded(t: Seq<char>)
    ensures
        events::lossy_s(vstd::utf8::encode_utf8(t)) == t,
{
    vstd::utf8::encode_utf8_valid_utf8(t);
    vstd::utf8::encode_utf8_decode_utf8(t);
}

proof fn lemma_rfind_at(t: Seq<char>, end: Seq<char>)
    requires
        search::rfind_s(t, end) is Some,
        end.len() > 0,
        end[0] == '<',
    ensures
        ({
            let at = search::rfind_s(t, end)->0;
            0 <= at < t.len() && t[at] == '<'
        }),
{
    search::lemma_rfind(t, end, t.len() - end.len());
    let at = search::rfind_s(t, end)->0;
    assert(t.subrange(at, at + end.len())[0] == t[at]);
}

proof fn lemma_edit_settles(data: Seq<u8>, guard: Seq<char>, ins: Seq<char>, end: Seq<char>)
    requires
        search::contains_s(ins, guard),
        end.len() > 0,
        end[0] == '<',
    ensures
        settled_s(edited_s(data, guard, ins, end), guard, end),
{
    let t = events::lossy_s(data);
    if !search::contains_s(t, guard) {
        if let Some(at) = search::rfind_s(t, end) {
            lemma_rfind_at(t, end);
            lemma_contains_inserted(t, at, ins, guard);
            lemma_lossy_encoded(search::splice_s(t, at, ins, at));
        }
    }
}

/// An edit that has settled stays settled under any other edit before the same end.
proof fn lemma_edit_keeps_settled(
    data: Seq<u8>,
    guard: Seq<char>,
    other: Seq<char>,
    ins: Seq<char>,
    end: Seq<char>,
)
    requires
        settled_s(data, guard, end),
        !guard.contains('<'),
        end.len() > 0,
        end[0] == '<',
    ensures
        settled_s(edited_s(data, other, ins, end), guard, end),
{
    let t = events::lossy_s(data);
    if !search::contains_s(t, other) {
        if let Some(at) = search::rfind_s(t, end) {
            lemma_rfind_at(t, end);
            lemma_contains_kept(t, at, ins, guard);
            lemma_lossy_encoded(search::splice_s(t, at, ins, at));
        }
    }
}

proof fn lemma_part_at(ps: Seq<PartV>, name: Seq<char>, from: int)
    requires
        0 <= from <= ps.len(),
    ensures
        from <= part_at_s(ps, name, from) <= ps.len(),
        part_at_s(ps, name, from) < ps.len() ==> ps[part_at_s(ps, name, from)].name == name,
        forall|i: int| from <= i < part_at_s(ps, name, from) ==> (#[trigger] ps[i]).name != name,
    decreases ps.len() - from,
{
    if from < ps.len() && ps[from].name != name {
        lemma_part_at(ps, name, from + 1);
    }
}

/// Lookup goes by names alone.
proof fn lemma_part_at_same(ps: Seq<PartV>, qs: Seq<PartV>, name: Seq<char>, from: int)
    requires
        ps.len() == qs.len(),
        forall|i: int| 0 <= i < ps.len() ==> (#[trigger] ps[i]).name == (#[trigger] qs[i]).name,
        0 <= from,
    ensures
        part_at_s(ps, name, from) == part_at_s(qs, name, from),
    decreases ps.len() - from,
{
    if from < ps.len() {
        assert(ps[from].name == qs[from].name);
        lemma_part_at_same(ps, qs, name, from + 1);
    }
}

/// Applying an edit a second time changes nothing, if the inserted text holds its guard.
proof fn lemma_edit_part_again(
    ps: Seq<PartV>,
    name: Seq<char>,
    guard: Seq<char>,
    ins: Seq<char>,
    end: Seq<char>,
)
    requires
        search::contains_s(ins, guard),
        end.len() > 0,
        end[0] == '<',
    ensures
        ({
            let once = edited_part_s(ps, name, guard, ins, end);
            edited_part_s(once, name, guard, ins, end) == once
        }),
{
    let once = edited_part_s(ps, name, guard, ins, end);
    lemma_part_at(ps, name, 0);
    lemma_part_at_same(ps, once, name, 0);
    let i = part_at_s(ps, name, 0);
    if i < ps.len() {
        lemma_edit_settles(ps[i].data, guard, ins, end);
        assert(edited_part_s(once, name, guard, ins, end) =~= once);
    }
}

proof fn lemma_ends()
    ensures
        "</Types>"@.len() > 0,
        "</Types>"@[0] == '<',
        "</Relationships>"@.len() > 0,
        "</Relationships>"@[0] == '<',
{
    reveal_strlit("</Types>");
    reveal_strlit("</Relationships>");
}

proof fn lemma_override_holds_name(part: Seq<char>, content_type: Seq<char>)
    ensures
        search::contains_s(override_s(part, content_type), part_name_s(part)),
{
    let whole = override_s(part, content_type);
    let pat = part_name_s(part);
    let at = "<Override "@.len() as int;
    assert(whole.subrange(at, at + pat.len()) =~= pat);
    lemma_contains_at(whole, pat, at);
}

proof fn lemma_relationship_holds(id: Seq<char>, ty: Seq<char>, target: Seq<char>, tail: Seq<char>)
    ensures
        search::contains_s(relationship_s(id, ty, target, tail), id_s(id)),
        search::contains_s(relationship_s(id, ty, target, tail), target_s(target)),
{
    let whole = relationship_s(id, ty, target, tail);
    let a = "<Relationship "@.len() as int;
    assert(whole.subrange(a, a + id_s(id).len()) =~= id_s(id));
    lemma_contains_at(whole, id_s(id), a);
    let head = "<Relationship "@ + id_s(id) + " Type=\""@ + ty + "\" "@;
    let b = head.len() as int;
    assert(whole =~= head + target_s(target) + tail);
    assert(whole.subrange(b, b + target_s(target).len()) =~= target_s(target));
    lemma_contains_at(whole, target_s(target), b);
}

proof fn lemma_with_rels_part(ps: Seq<PartV>, name: Seq<char>)
    ensures
        part_at_s(with_rels_part_s(ps, name), name, 0) < with_rels_part_s(ps, name).len(),
{
    lemma_part_at(ps, name, 0);
    let qs = with_rels_part_s(ps, name);
    lemma_part_at(qs, name, 0);
    if part_at_s(ps, name, 0) == ps.len() {
        assert(qs[ps.len() as int].name == name);
    }
}

/// Registering a part's content type a second time changes nothing.
pub proof fn law_patch_content_types_is_idempotent(
    ps: Seq<PartV>,
    part: Seq<char>,
    content_type: Seq<char>,
)
    ensures
        ({
            let once = with_content_type_s(ps, part, content_type);
            with_content_type_s(once, part, content_type) == once
        }),
{
    lemma_ends();
    lemma_override_holds_name(part, content_type);
    lemma_edit_part_again(
        ps,
        "[Content_Types].xml"@,
        part_name_s(part),
        override_s(part, content_type),
        "</Types>"@,
    );
}

/// An edit of a present part leaves the part present.
proof fn lemma_edited_rels_present(
    ps: Seq<PartV>,
    name: Seq<char>,
    guard: Seq<char>,
    ins: Seq<char>,
    end: Seq<char>,
)
    requires
        search::contains_s(ins, guard),
        end.len() > 0,
        end[0] == '<',
    ensures
        ({
            let once = edited_part_s(with_rels_part_s(ps, name), name, guard, ins, end);
            edited_part_s(with_rels_part_s(once, name), name, guard, ins, end) == once
        }),
{
    let qs = with_rels_part_s(ps, name);
    let once = edited_part_s(qs, name, guard, ins, end);
    lemma_with_rels_part(ps, name);
    lemma_part_at(qs, name, 0);
    lemma_part_at_same(qs, once, name, 0);
    assert(with_rels_part_s(once, name) == once);
    lemma_edit_part_again(qs, name, guard, ins, end);
}

/// Adding a relationship of a given id to a part a second time changes nothing.
pub proof fn law_patch_internal_rel_is_idempotent(
    ps: Seq<PartV>,
    rels_name: Seq<char>,
    r_id: Seq<char>,
    target: Seq<char>,
    rel_type: Seq<char>,
)
    ensures
        ({
            let once = with_internal_rel_s(ps, rels_name, r_id, target, rel_type);
            with_internal_rel_s(once, rels_name, r_id, target, rel_type) == once
        }),
{
    lemma_ends();
    lemma_relationship_holds(r_id, rel_type, target, "/>"@);
    lemma_edited_rels_present(
        ps,
        rels_name,
        id_s(r_id),
        relationship_s(r_id, rel_type, target, "/>"@),
        "</Relationships>"@,
    );
}

/// Adding an external relationship of a given id a second time changes nothing.
pub proof fn law_patch_external_rel_is_idempotent(
    ps: Seq<PartV>,
    r_id: Seq<char>,
    url: Seq<char>,
    rel_type: Seq<char>,
)
    ensures
        ({
            let once = with_external_rel_s(ps, r_id, url, rel_type);
            with_external_rel_s(once, r_id, url, rel_type) == once
        }),
{
    lemma_ends();
    let esc = attr_escaped_s(url, url.len());
    let tail = " TargetMode=\"External\"/>"@;
    lemma_relationship_holds(r_id, rel_type, esc, tail);
    lemma_edited_rels_present(
        ps,
        "word/_rels/document.xml.rels"@,
        id_s(r_id),
        relationship_s(r_id, rel_type, esc, tail),
        "</Relationships>"@,
    );
}

/// Whether the part called `name`, if there is one, has nothing to gain from an edit guarded by
/// `guard`.
spec fn part_settled_s(ps: Seq<PartV>, name: Seq<char>, guard: Seq<char>, end: Seq<char>) -> bool {
    let i = part_at_s(ps, name, 0);
    i < ps.len() ==> settled_s(ps[i].data, guard, end)
}

proof fn lemma_settled_edit(
    ps: Seq<PartV>,
    name: Seq<char>,
    guard: Seq<char>,
    ins: Seq<char>,
    end: Seq<char>,
)
    requires
        part_settled_s(ps, name, guard, end),
    ensures
        edited_part_s(ps, name, guard, ins, end) == ps,
{
    lemma_part_at(ps, name, 0);
    assert(edited_part_s(ps, name, guard, ins, end) =~= ps);
}

proof fn lemma_settled_doc_rels(ps: Seq<PartV>, target: Seq<char>, rel_type: Seq<char>)
    requires
        part_at_s(ps, "word/_rels/document.xml.rels"@, 0) < ps.len(),
        part_settled_s(
            ps,
            "word/_rels/document.xml.rels"@,
            target_s(target),
            "</Relationships>"@,
        ),
    ensures
        with_doc_rels_s(ps, target, rel_type) == ps,
{
    lemma_part_at(ps, "word/_rels/document.xml.rels"@, 0);
    assert(with_doc_rels_s(ps, target, rel_type) =~= ps);
}

/// What adding a document relationship does to the relationship part and to any other part.
proof fn lemma_doc_rels_step(ps: Seq<PartV>, target: Seq<char>, rel_type: Seq<char>, other: Seq<char>)
    requires
        other != "word/_rels/document.xml.rels"@,
    ensures
        ({
            let name = "word/_rels/document.xml.rels"@;
            let out = with_doc_rels_s(ps, target, rel_type);
            let i = part_at_s(ps, other, 0);
            let j = part_at_s(out, other, 0);
            &&& part_at_s(out, name, 0) < out.len()
            &&& part_settled_s(out, name, target_s(target), "</Relationships>"@)
            &&& (i < ps.len()) == (j < out.len())
            &&& i < ps.len() ==> out[j].data == ps[i].data
            &&& part_at_s(ps, name, 0) < ps.len() ==> out[part_at_s(out, name, 0)].data
                == with_doc_rel_s(ps[part_at_s(ps, name, 0)].data, target, rel_type)
        }),
{
    let name = "word/_rels/document.xml.rels"@;
    let qs = with_rels_part_s(ps, name);
    let out = with_doc_rels_s(ps, target, rel_type);
    lemma_ends();
    lemma_with_rels_part(ps, name);
    lemma_part_at(ps, name, 0);
    lemma_part_at(qs, name, 0);
    lemma_part_at_same(qs, out, name, 0);
    lemma_part_at_same(qs, out, other, 0);
    let k = part_at_s(qs, name, 0);
    let rid = next_rid_s(events::lossy_s(qs[k].data));
    lemma_relationship_holds(rid, rel_type, target, "/>"@);
    lemma_edit_settles(
        qs[k].data,
        target_s(target),
        relationship_s(rid, rel_type, target, "/>"@),
        "</Relationships>"@,
    );
    lemma_part_at(ps, other, 0);
    lemma_part_at(qs, other, 0);
    let i = part_at_s(ps, other, 0);
    let j = part_at_s(qs, other, 0);
    if i < ps.len() {
        assert(qs[i].name == other);
        if j < i {
            assert(ps[j].name == other);
        }
        assert(i == j);
        assert(k != i);
    } else if j < qs.len() {
        if j < ps.len() {
            assert(ps[j].name == other);
        } else {
            assert(qs[j].name == name);
        }
    }
}

proof fn lemma_literals()
    ensures
        "[Content_Types].xml"@ != "word/_rels/document.xml.rels"@,
        !part_name_s("/word/comments.xml"@).contains('<'),
        !target_s("comments.xml"@).contains('<'),
{
    reveal_strlit("[Content_Types].xml");
    reveal_strlit("word/_rels/document.xml.rels");
    reveal_strlit("/word/comments.xml");
    reveal_strlit("comments.xml");
    reveal_strlit("PartName=\"");
    reveal_strlit("Target=\"");
    reveal_strlit("\"");
    assert("[Content_Types].xml"@[0] == '[');
    assert("word/_rels/document.xml.rels"@[0] == 'w');
    let p = part_name_s("/word/comments.xml"@);
    assert(p.len() == 29);
    assert forall|i: int| 0 <= i < p.len() implies p[i] != '<' by {
        if i < 10 {
            assert(p[i] == "PartName=\""@[i]);
        } else if i < 28 {
            assert(p[i] == "/word/comments.xml"@[i - 10]);
        } else {
            assert(p[i] == "\""@[0]);
        }
    }
    let t = target_s("comments.xml"@);
    assert(t.len() == 21);
    assert forall|i: int| 0 <= i < t.len() implies t[i] != '<' by {
        if i < 8 {
            assert(t[i] == "Target=\""@[i]);
        } else if i < 20 {
            assert(t[i] == "comments.xml"@[i - 8]);
        } else {
            assert(t[i] == "\""@[0]);
        }
    }
}

/// Registering the comment parts a second time changes nothing.
pub proof fn law_registering_comment_parts_is_idempotent(ps: Seq<PartV>)
    ensures
        with_comment_parts_s(with_comment_parts_s(ps)) == with_comment_parts_s(ps),
{
    let ct = "[Content_Types].xml"@;
    let rels = "word/_rels/document.xml.rels"@;
    let a = "/word/comments.xml"@;
    let b = "/word/commentsExtended.xml"@;
    let ca = "application/vnd.openxmlformats-officedocument.wordprocessingml.comments+xml"@;
    let cb = "application/vnd.openxmlformats-officedocument.wordprocessingml.commentsExtended+xml"@;
    let x = "comments.xml"@;
    let y = "commentsExtended.xml"@;
    let tx = "http://schemas.openxmlformats.org/officeDocument/2006/relationships/comments"@;
    let ty = "http://schemas.microsoft.com/office/2011/relationships/commentsExtended"@;
    lemma_literals();
    lemma_ends();
    let p1 = with_content_type_s(ps, a, ca);
    let p2 = with_content_type_s(p1, b, cb);
    let p3 = with_doc_rels_s(p2, x, tx);
    let p4 = with_doc_rels_s(p3, y, ty);
    assert(with_comment_parts_s(ps) == p4);
    lemma_override_holds_name(a, ca);
    lemma_override_holds_name(b, cb);
    lemma_part_at(ps, ct, 0);
    lemma_part_at_same(ps, p1, ct, 0);
    lemma_part_at_same(p1, p2, ct, 0);
    let i = part_at_s(ps, ct, 0);
    if i < ps.len() {
        lemma_edit_settles(ps[i].data, part_name_s(a), override_s(a, ca), "</Types>"@);
        lemma_edit_keeps_settled(
            p1[i].data,
            part_name_s(a),
            part_name_s(b),
            override_s(b, cb),
            "</Types>"@,
        );
        lemma_edit_settles(p1[i].data, part_name_s(b), override_s(b, cb), "</Types>"@);
    }
    assert(part_settled_s(p2, ct, part_name_s(a), "</Types>"@));
    assert(part_settled_s(p2, ct, part_name_s(b), "</Types>"@));
    lemma_doc_rels_step(p2, x, tx, ct);
    lemma_doc_rels_step(p3, y, ty, ct);
    assert(part_settled_s(p4, ct, part_name_s(a), "</Types>"@));
    assert(part_settled_s(p4, ct, part_name_s(b), "</Types>"@));
    let k = part_at_s(p3, rels, 0);
    let rid = next_rid_s(events::lossy_s(p3[k].data));
    lemma_edit_keeps_settled(
        p3[k].data,
        target_s(x),
        target_s(y),
        relationship_s(rid, ty, y, "/>"@),
        "</Relationships>"@,
    );
    assert(part_settled_s(p4, rels, target_s(x), "</Relationships>"@));
    assert(part_settled_s(p4, rels, target_s(y), "</Relationships>"@));
    lemma_settled_edit(p4, ct, part_name_s(a), override_s(a, ca), "</Types>"@);
    lemma_settled_edit(p4, ct, part_name_s(b), override_s(b, cb), "</Types>"@);
    lemma_settled_doc_rels(p4, x, tx);
    lemma_settled_doc_rels(p4, y, ty);
}

} // verus!
