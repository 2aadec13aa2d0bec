//! The markup of a part as a list of plain steps.
//!
//! The tokenizer is quick-xml's. [`read_xml`] drains it into [`XmlStep`]s, and every reader of
//! the crate is a fold over that list.

use vstd::prelude::*;
use quick_xml::events::Event;
use crate::search::starts_with;
use crate::search;
use crate::strs::{opt_is, str_eq};
use crate::strs;
use crate::types::{Track, TrackKind, TrackV};

verus! {

/// One attribute of a tag: its qualified name, the bytes between the quotes, and the value with
/// references resolved and white space normalized, if it has one.
pub struct XmlAttr {
    pub key: String,
    pub raw: Vec<u8>,
    pub value: Option<String>,
}

/// The mathematical value of an [`XmlAttr`].
#[verifier::ext_equal]
pub struct XmlAttrV {
    pub key: Seq<char>,
    pub raw: Seq<u8>,
    pub value: Option<Seq<char>>,
}

impl View for XmlAttr {
    type V = XmlAttrV;

    open spec fn view(&self) -> XmlAttrV {
        XmlAttrV { key: self.key@, raw: self.raw@, value: strs::opt_s(self.value) }
    }
}

pub open spec fn xml_attr_ov(o: Option<XmlAttr>) -> Option<XmlAttrV> {
    match o {
        Some(x) => Some(x@),
        None => None,
    }
}

pub open spec fn xml_attr_ovs(s: Seq<Option<XmlAttr>>) -> Seq<Option<XmlAttrV>> {
    Seq::new(s.len(), |i: int| xml_attr_ov(s[i]))
}

/// An opening or self-closing tag; a malformed attribute stands as `None`.
pub struct XmlTag {
    pub name: String,
    pub attrs: Vec<Option<XmlAttr>>,
}

/// The mathematical value of an [`XmlTag`].
#[verifier::ext_equal]
pub struct XmlTagV {
    pub name: Seq<char>,
    pub attrs: Seq<Option<XmlAttrV>>,
}

impl View for XmlTag {
    type V = XmlTagV;

    open spec fn view(&self) -> XmlTagV {
        XmlTagV { name: self.name@, attrs: xml_attr_ovs(self.attrs@) }
    }
}

/// What one step of the tokenizer found. `Text` and `Ref` are `None` where the bytes decode to
/// no text; `Other` is a comment, a declaration or the like.
pub enum XmlEvent {
    Start(XmlTag),
    Empty(XmlTag),
    End(String),
    Text(Option<String>),
    Ref(Option<String>),
    Other,
    Error,
}

/// The mathematical value of an [`XmlEvent`].
#[verifier::ext_equal]
pub enum XmlEventV {
    Start(XmlTagV),
    Empty(XmlTagV),
    End(Seq<char>),
    Text(Option<Seq<char>>),
    Ref(Option<Seq<char>>),
    Other,
    Error,
}

impl View for XmlEvent {
    type V = XmlEventV;

    open spec fn view(&self) -> XmlEventV {
        match self {
            XmlEvent::Start(t) => XmlEventV::Start(t@),
            XmlEvent::Empty(t) => XmlEventV::Empty(t@),
            XmlEvent::End(n) => XmlEventV::End(n@),
            XmlEvent::Text(t) => XmlEventV::Text(strs::opt_s(*t)),
            XmlEvent::Ref(t) => XmlEventV::Ref(strs::opt_s(*t)),
            XmlEvent::Other => XmlEventV::Other,
            XmlEvent::Error => XmlEventV::Error,
        }
    }
}

/// One step of the tokenizer: the event and the bytes `start..end` it was read from.
pub struct XmlStep {
    pub start: usize,
    pub end: usize,
    pub event: XmlEvent,
}

/// The mathematical value of an [`XmlStep`].
#[verifier::ext_equal]
pub struct XmlStepV {
    pub start: int,
    pub end: int,
    pub event: XmlEventV,
}

impl View for XmlStep {
    type V = XmlStepV;

    open spec fn view(&self) -> XmlStepV {
        XmlStepV { start: self.start as int, end: self.end as int, event: self.event@ }
    }
}

pub open spec fn xml_step_vs(s: Seq<XmlStep>) -> Seq<XmlStepV> {
    Seq::new(s.len(), |i: int| s[i]@)
}

// ---------------------------------------------------------------- the tokenizer

/// quick-xml's streaming tokenizer.
#[verifier::external_type_specification]
#[verifier::external_body]
#[verifier::reject_recursive_types(R)]
pub struct ExReader<R>(quick_xml::Reader<R>);

/// What the tokenizer reports, before any decoding.
pub enum RawEvent {
    Start(Vec<u8>),
    Empty(Vec<u8>),
    End(Vec<u8>),
    Text(Vec<u8>),
    Ref(Vec<u8>),
    Other,
    Error,
    Eof,
}

/// The mathematical value of a [`RawEvent`].
pub enum RawEventV {
    Start(Seq<u8>),
    Empty(Seq<u8>),
    End(Seq<u8>),
    Text(Seq<u8>),
    Ref(Seq<u8>),
    Other,
    Error,
    Eof,
}

impl View for RawEvent {
    type V = RawEventV;

    open spec fn view(&self) -> RawEventV {
        match self {
            RawEvent::Start(b) => RawEventV::Start(b@),
            RawEvent::Empty(b) => RawEventV::Empty(b@),
            RawEvent::End(b) => RawEventV::End(b@),
            RawEvent::Text(b) => RawEventV::Text(b@),
            RawEvent::Ref(b) => RawEventV::Ref(b@),
            RawEvent::Other => RawEventV::Other,
            RawEvent::Error => RawEventV::Error,
            RawEvent::Eof => RawEventV::Eof,
        }
    }
}

/// A raw event and the tokenizer's position after it.
pub struct RawStep {
    pub end: usize,
    pub event: RawEvent,
}

/// The mathematical value of a [`RawStep`].
pub struct RawStepV {
    pub end: int,
    pub event: RawEventV,
}

impl View for RawStep {
    type V = RawStepV;

    open spec fn view(&self) -> RawStepV {
        RawStepV { end: self.end as int, event: self.event@ }
    }
}

/// The steps that quick-xml's `Reader` takes over the bytes `xml`, up to the end of input.
pub uninterp spec fn raw_steps(xml: Seq<u8>) -> Seq<RawStepV>;

/// The steps that a tokenizer has still to take before the end of input.
pub uninterp spec fn pending(r: quick_xml::Reader<&[u8]>) -> Seq<RawStepV>;

/// `quick_xml::Reader::from_reader`: a tokenizer at the start of `xml`, in its default
/// configuration. All the steps over `xml` are still to come.
#[verifier::external_body]
fn open_reader(xml: &[u8]) -> (r: quick_xml::Reader<&[u8]>)
    ensures
        pending(r) == raw_steps(xml@),
{
    quick_xml::Reader::from_reader(xml)
}

/// `quick_xml::Reader::read_event_into` with `buffer_position` after it: hands out the next
/// pending step, or `Eof` once none is left. An element's bytes are those between the angle
/// brackets (without the slash), a text's and a reference's those of its content.
#[verifier::external_body]
fn next_step(r: &mut quick_xml::Reader<&[u8]>) -> (s: RawStep)
    ensures
        pending(*old(r)).len() > 0 ==> s@ == pending(*old(r))[0] && !(s@.event is Eof)
            && pending(*final(r)) == pending(*old(r)).drop_first(),
        pending(*old(r)).len() == 0 ==> s@.event is Eof && pending(*final(r)) == pending(*old(r)),
{
    let mut buf = Vec::new();
    let event = match r.read_event_into(&mut buf) {
        Ok(Event::Start(e)) => RawEvent::Start(e.to_vec()),
        Ok(Event::Empty(e)) => RawEvent::Empty(e.to_vec()),
        Ok(Event::End(e)) => RawEvent::End(e.to_vec()),
        Ok(Event::Text(t)) => RawEvent::Text(t.to_vec()),
        Ok(Event::GeneralRef(g)) => RawEvent::Ref(g.to_vec()),
        Ok(Event::Eof) => RawEvent::Eof,
        Ok(_) => RawEvent::Other,
        Err(_) => RawEvent::Error,
    };
    RawStep { end: r.buffer_position() as usize, event }
}

/// The attributes that quick-xml reads from the content of a tag, in order.
pub uninterp spec fn tag_attrs_s(content: Seq<u8>) -> Seq<Option<XmlAttrV>>;

/// `quick_xml::events::BytesStart::attributes` of the self-closing tag with the given content,
/// each with its `normalized_value`; an attribute that it reports as malformed is `None`.
#[verifier::external_body]
fn tag_attrs(content: &Vec<u8>) -> (r: Vec<Option<XmlAttr>>)
    ensures
        xml_attr_ovs(r@) == tag_attrs_s(content@),
{
    let raw = [b"<".as_slice(), content.as_slice(), b"/>".as_slice()].concat();
    match quick_xml::Reader::from_reader(raw.as_slice()).read_event_into(&mut Vec::new()) {
        Ok(quick_xml::events::Event::Empty(e)) => e.attributes().map(|a| a.ok().map(|a| XmlAttr {
            key: String::from_utf8_lossy(a.key.as_ref()).into_owned(),
            raw: a.value.to_vec(),
            value: a.normalized_value(quick_xml::XmlVersion::Explicit1_0).ok().map(
                |v| v.into_owned()),
        })).collect(),
        _ => Vec::new(),
    }
}

/// The character that quick-xml resolves a `#`-reference to, if it does.
pub uninterp spec fn char_ref_s(name: Seq<char>) -> Option<char>;

/// `quick_xml::events::BytesRef::resolve_char_ref`; a failure and "no character reference" both
/// give `None`.
#[verifier::external_body]
fn char_ref(name: &str) -> (r: Option<char>)
    ensures
        r == char_ref_s(name@),
{
    quick_xml::events::BytesRef::new(name).resolve_char_ref().ok().flatten()
}

/// The text that quick-xml's `unescape` makes of `s`, if it accepts `s`.
pub uninterp spec fn unescape_s(s: Seq<char>) -> Option<Seq<char>>;

/// `quick_xml::escape::unescape`; an error gives `None`.
#[verifier::external_body]
pub(crate) fn unescape(s: &str) -> (r: Option<String>)
    ensures
        strs::opt_s(r) == unescape_s(s@),
{
    quick_xml::escape::unescape(s).ok().map(|c| c.into_owned())
}

/// The text of the bytes, where they are valid UTF-8.
pub open spec fn utf8_s(b: Seq<u8>) -> Option<Seq<char>> {
    if vstd::utf8::valid_utf8(b) {
        Some(vstd::utf8::decode_utf8(b))
    } else {
        None
    }
}

/// `std::str::from_utf8`: the decoded text, if and only if the bytes are valid UTF-8.
#[verifier::external_body]
pub(crate) fn utf8(b: &[u8]) -> (r: Option<String>)
    ensures
        strs::opt_s(r) == utf8_s(b@),
{
    std::str::from_utf8(b).ok().map(|s| s.to_string())
}

/// The text of bytes that are not valid UTF-8, with each invalid sequence replaced.
pub uninterp spec fn replaced_s(b: Seq<u8>) -> Seq<char>;

/// The text of the bytes; where they are not valid UTF-8, invalid sequences are replaced.
pub open spec fn lossy_s(b: Seq<u8>) -> Seq<char> {
    if vstd::utf8::valid_utf8(b) {
        vstd::utf8::decode_utf8(b)
    } else {
        replaced_s(b)
    }
}

/// `String::from_utf8_lossy`: the decoded text, with U+FFFD for what is not valid UTF-8.
#[verifier::external_body]
pub(crate) fn lossy(b: &[u8]) -> (r: String)
    ensures
        vstd::utf8::valid_utf8(b@) ==> r@ == vstd::utf8::decode_utf8(b@),
        !vstd::utf8::valid_utf8(b@) ==> r@ == replaced_s(b@),
{
    String::from_utf8_lossy(b).into_owned()
}

// ---------------------------------------------------------------- from raw steps to steps

/// The bytes before the first white space.
pub open spec fn name_len_s(b: Seq<u8>, from: int) -> int
    decreases b.len() - from,
{
    if 0 <= from < b.len() && b[from] != 32 && b[from] != 13 && b[from] != 10 && b[from] != 9 {
        name_len_s(b, from + 1)
    } else {
        from
    }
}

/// The tag whose content (between the angle brackets) is `b`: its name ends at the first white
/// space.
pub open spec fn tag_s(b: Seq<u8>) -> XmlTagV {
    XmlTagV { name: lossy_s(b.subrange(0, name_len_s(b, 0))), attrs: tag_attrs_s(b) }
}

/// What a reference stands for: a character for a `#`-reference that resolves, one of the five
/// predefined entities, and any other name verbatim. Nothing where it does not decode or resolve.
pub open spec fn resolve_s(name: Option<Seq<char>>) -> Option<Seq<char>> {
    match name {
        None => None,
        Some(n) => if search::starts_s(n, "#"@) {
            match char_ref_s(n) {
                Some(c) => Some(seq![c]),
                None => None,
            }
        } else if n == "amp"@ {
            Some("&"@)
        } else if n == "lt"@ {
            Some("<"@)
        } else if n == "gt"@ {
            Some(">"@)
        } else if n == "quot"@ {
            Some("\""@)
        } else if n == "apos"@ {
            Some("'"@)
        } else {
            Some("&"@ + n + ";"@)
        },
    }
}

/// The decoded form of a raw event (`Eof` does not occur among the steps of a document).
pub open spec fn event_s(e: RawEventV) -> XmlEventV {
    match e {
        RawEventV::Start(b) => XmlEventV::Start(tag_s(b)),
        RawEventV::Empty(b) => XmlEventV::Empty(tag_s(b)),
        RawEventV::End(b) => XmlEventV::End(lossy_s(b)),
        RawEventV::Text(b) => XmlEventV::Text(utf8_s(b)),
        RawEventV::Ref(b) => XmlEventV::Ref(resolve_s(utf8_s(b))),
        RawEventV::Other => XmlEventV::Other,
        RawEventV::Error => XmlEventV::Error,
        RawEventV::Eof => XmlEventV::Other,
    }
}

/// The first `n` steps of the document: each starts where the one before it ended.
pub open spec fn steps_s(raw: Seq<RawStepV>) -> Seq<XmlStepV> {
    Seq::new(
        raw.len(),
        |i: int|
            XmlStepV {
                start: if i == 0 {
                    0
                } else {
                    raw[i - 1].end
                },
                end: raw[i].end,
                event: event_s(raw[i].event),
            },
    )
}

/// The document: the decoded steps over the bytes `xml`.
pub open spec fn doc_s(xml: Seq<u8>) -> Seq<XmlStepV> {
    steps_s(raw_steps(xml))
}

/// Resolve a reference to its text.
fn resolve_reference(b: &Vec<u8>) -> (r: Option<String>)
    ensures
        strs::opt_s(r) == resolve_s(utf8_s(b@)),
{
    match utf8(b.as_slice()) {
        None => None,
        Some(n) => {
            if starts_with(n.as_str(), "#") {
                match char_ref(n.as_str()) {
                    Some(c) => {
                        let mut s = String::new();
                        s.push(c);
                        assert(s@ =~= seq![c]);
                        Some(s)
                    },
                    None => None,
                }
            } else if str_eq(n.as_str(), "amp") {
                Some("&".to_string())
            } else if str_eq(n.as_str(), "lt") {
                Some("<".to_string())
            } else if str_eq(n.as_str(), "gt") {
                Some(">".to_string())
            } else if str_eq(n.as_str(), "quot") {
                Some("\"".to_string())
            } else if str_eq(n.as_str(), "apos") {
                Some("'".to_string())
            } else {
                let mut s = "&".to_string();
                s.append(n.as_str());
                s.append(";");
                Some(s)
            }
        },
    }
}

/// Split the content of a tag into its name and attributes.
fn read_tag(b: &Vec<u8>) -> (r: XmlTag)
    ensures
        r@ == tag_s(b@),
{
    let mut n: usize = 0;
    let len = b.len();
    while n < len && b[n] != 32 && b[n] != 13 && b[n] != 10 && b[n] != 9
        invariant
            n <= len == b@.len(),
            name_len_s(b@, 0) == name_len_s(b@, n as int),
        decreases len - n,
    {
        n = n + 1;
    }
    assert(name_len_s(b@, 0) == n);
    let name = lossy(vstd::slice::slice_subrange(b.as_slice(), 0, n));
    XmlTag { name, attrs: tag_attrs(b) }
}

fn decode_event(e: &RawEvent) -> (r: XmlEvent)
    ensures
        r@ == event_s(e@),
{
    match e {
        RawEvent::Start(b) => XmlEvent::Start(read_tag(b)),
        RawEvent::Empty(b) => XmlEvent::Empty(read_tag(b)),
        RawEvent::End(b) => XmlEvent::End(lossy(b.as_slice())),
        RawEvent::Text(b) => XmlEvent::Text(utf8(b.as_slice())),
        RawEvent::Ref(b) => XmlEvent::Ref(resolve_reference(b)),
        RawEvent::Other => XmlEvent::Other,
        RawEvent::Error => XmlEvent::Error,
        RawEvent::Eof => XmlEvent::Other,
    }
}

/// Tokenize a part into its steps.
pub fn read_xml(xml: &[u8]) -> (r: Vec<XmlStep>)
    ensures
        xml_step_vs(r@) == doc_s(xml@),
{
    let mut reader = open_reader(xml);
    let mut out: Vec<XmlStep> = Vec::new();
    let mut start: usize = 0;
    let ghost all = raw_steps(xml@);
    loop
        invariant_except_break
            out@.len() <= all.len(),
            all == raw_steps(xml@),
            pending(reader) == all.subrange(out@.len() as int, all.len() as int),
            xml_step_vs(out@) == steps_s(all.subrange(0, out@.len() as int)),
            out@.len() == 0 ==> start == 0,
            out@.len() > 0 ==> start == all[out@.len() - 1].end,
        ensures
            xml_step_vs(out@) == steps_s(all),
        decreases pending(reader).len(),
    {
        let ghost n = out@.len() as int;
        let ghost prev = out@;
        let s = next_step(&mut reader);
        if matches!(s.event, RawEvent::Eof) {
            assert(n == all.len());
            assert(all.subrange(0, n) =~= all);
            break;
        }
        assert(s@ == all[n]);
        let event = decode_event(&s.event);
        out.push(XmlStep { start, end: s.end, event });
        start = s.end;
        proof {
            assert(pending(reader) =~= all.subrange(n + 1, all.len() as int));
            let before = steps_s(all.subrange(0, n));
            let after = steps_s(all.subrange(0, n + 1));
            assert forall|i: int| 0 <= i < n implies xml_step_vs(out@)[i] == after[i] by {
                assert(out@[i] == prev[i]);
                assert(xml_step_vs(prev)[i] == before[i]);
            }
            assert(xml_step_vs(out@)[n] == after[n]);
            assert(xml_step_vs(out@) =~= after);
        }
    }
    out
}

// ---------------------------------------------------------------- attributes

/// The index of the first well-formed attribute called `key`, from `from` on; the number of
/// attributes where there is none.
pub open spec fn attr_at_s(attrs: Seq<Option<XmlAttrV>>, key: Seq<char>, from: int) -> int
    decreases attrs.len() - from,
{
    if 0 <= from < attrs.len() {
        match attrs[from] {
            Some(a) => if a.key == key {
                from
            } else {
                attr_at_s(attrs, key, from + 1)
            },
            None => attr_at_s(attrs, key, from + 1),
        }
    } else {
        from
    }
}

/// The normalized value of the first well-formed attribute called `key`.
pub open spec fn attr_s(t: XmlTagV, key: Seq<char>) -> Option<Seq<char>> {
    let at = attr_at_s(t.attrs, key, 0);
    if at < t.attrs.len() {
        t.attrs[at]->0.value
    } else {
        None
    }
}

/// Read one attribute value by qualified name.
pub fn attr(t: &XmlTag, key: &str) -> (r: Option<String>)
    ensures
        strs::opt_s(r) == attr_s(t@, key@),
{
    let mut i: usize = 0;
    while i < t.attrs.len()
        invariant
            i <= t.attrs@.len(),
            attr_at_s(t@.attrs, key@, 0) == attr_at_s(t@.attrs, key@, i as int),
        decreases t.attrs@.len() - i,
    {
        assert(t@.attrs[i as int] == xml_attr_ov(t.attrs@[i as int]));
        if let Some(a) = &t.attrs[i] {
            if str_eq(a.key.as_str(), key) {
                return strs::opt_clone(&a.value);
            }
        }
        i = i + 1;
    }
    None
}

/// The value of the attribute `key` as an unsigned number of at most `max`.
pub open spec fn attr_uint_s(t: XmlTagV, key: Seq<char>, max: nat) -> Option<nat> {
    match attr_s(t, key) {
        Some(v) => strs::parse_uint_s(v, max),
        None => None,
    }
}

pub(crate) fn attr_uint(t: &XmlTag, key: &str, max: u64) -> (r: Option<u64>)
    ensures
        r matches Some(v) ==> attr_uint_s(t@, key@, max as nat) == Some(v as nat) && v <= max,
        r is None ==> attr_uint_s(t@, key@, max as nat) is None,
{
    match attr(t, key) {
        Some(v) => strs::parse_uint(v.as_str(), max),
        None => None,
    }
}

/// The value of the attribute `key` as a signed number between `min` and `max`.
pub open spec fn attr_int_s(t: XmlTagV, key: Seq<char>, min: int, max: int) -> Option<int> {
    match attr_s(t, key) {
        Some(v) => strs::parse_int_s(v, min, max),
        None => None,
    }
}

pub(crate) fn attr_sint(t: &XmlTag, key: &str, min: i64, max: i64) -> (r: Option<i64>)
    requires
        min <= 0 <= max,
    ensures
        r matches Some(v) ==> attr_int_s(t@, key@, min as int, max as int) == Some(v as int)
            && min <= v <= max,
        r is None ==> attr_int_s(t@, key@, min as int, max as int) is None,
{
    match attr(t, key) {
        Some(v) => strs::parse_sint(v.as_str(), min, max),
        None => None,
    }
}

/// `w:u` is on unless its `w:val` names no underline.
pub open spec fn u_on_s(t: XmlTagV) -> bool {
    let v = attr_s(t, "w:val"@);
    !(v == Some("none"@) || v == Some("false"@) || v == Some("0"@))
}

pub(crate) fn u_on(t: &XmlTag) -> (r: bool)
    ensures
        r == u_on_s(t@),
{
    let v = attr(t, "w:val");
    !(opt_is(&v, "none") || opt_is(&v, "false") || opt_is(&v, "0"))
}

/// A toggle is on unless its `w:val` explicitly turns it off.
pub open spec fn toggle_on_s(t: XmlTagV) -> bool {
    let v = attr_s(t, "w:val"@);
    !(v == Some("false"@) || v == Some("0"@) || v == Some("none"@) || v == Some("off"@))
}

pub(crate) fn toggle_on(t: &XmlTag) -> (r: bool)
    ensures
        r == toggle_on_s(t@),
{
    let v = attr(t, "w:val");
    !(opt_is(&v, "false") || opt_is(&v, "0") || opt_is(&v, "none") || opt_is(&v, "off"))
}

/// The text, or nothing.
pub open spec fn or_empty_s(o: Option<Seq<char>>) -> Seq<char> {
    match o {
        Some(x) => x,
        None => Seq::empty(),
    }
}

pub(crate) fn or_empty(o: Option<String>) -> (r: String)
    ensures
        r@ == or_empty_s(strs::opt_s(o)),
{
    match o {
        Some(x) => x,
        None => {
            let r = String::new();
            assert(r@ =~= Seq::empty());
            r
        },
    }
}

/// The tracked change that the revision attributes of a tag describe.
pub open spec fn revision_track_s(t: XmlTagV, kind: TrackKind) -> TrackV {
    TrackV {
        kind,
        author: or_empty_s(attr_s(t, "w:author"@)),
        date: or_empty_s(attr_s(t, "w:date"@)),
        id: match attr_uint_s(t, "w:id"@, u64::MAX as nat) {
            Some(v) => v as u64,
            None => 0,
        },
    }
}

/// Build a [`Track`] from a revision element's attributes.
pub(crate) fn revision_track(t: &XmlTag, kind: TrackKind) -> (r: Track)
    ensures
        r@ == revision_track_s(t@, kind),
{
    let id: u64 = match attr_uint(t, "w:id", u64::MAX) {
        Some(v) => v,
        None => 0,
    };
    Track {
        kind,
        author: or_empty(attr(t, "w:author")),
        date: or_empty(attr(t, "w:date")),
        id,
    }
}

/// The bytes without a leading UTF-8 byte order mark.
pub open spec fn strip_bom_s(xml: Seq<u8>) -> Seq<u8> {
    if xml.len() >= 3 && xml[0] == 0xEF && xml[1] == 0xBB && xml[2] == 0xBF {
        xml.subrange(3, xml.len() as int)
    } else {
        xml
    }
}

/// Strip a leading byte order mark, which the tokenizer skips without counting it.
pub(crate) fn strip_bom(xml: &[u8]) -> (r: &[u8])
    ensures
        r@ == strip_bom_s(xml@),
{
    if xml.len() >= 3 && xml[0] == 0xEF && xml[1] == 0xBB && xml[2] == 0xBF {
        vstd::slice::slice_subrange(xml, 3, xml.len())
    } else {
        xml
    }
}

/// The bytes `from..to`, or nothing where they do not lie in `xml`.
pub open spec fn bytes_s(xml: Seq<u8>, from: int, to: int) -> Seq<u8> {
    if 0 <= from <= to <= xml.len() {
        xml.subrange(from, to)
    } else {
        Seq::empty()
    }
}

pub(crate) fn bytes(xml: &[u8], from: usize, to: usize) -> (r: Vec<u8>)
    ensures
        r@ == bytes_s(xml@, from as int, to as int),
{
    if from <= to && to <= xml.len() {
        vstd::slice::slice_to_vec(vstd::slice::slice_subrange(xml, from, to))
    } else {
        Vec::new()
    }
}

// ---------------------------------------------------------------- numbers of fixed width

/// The value of the attribute `key` as a `u16`.
pub open spec fn attr_u16_s(t: XmlTagV, key: Seq<char>) -> Option<u16> {
    match attr_uint_s(t, key, u16::MAX as nat) {
        Some(v) => Some(v as u16),
        None => None,
    }
}

pub(crate) fn attr_u16(t: &XmlTag, key: &str) -> (r: Option<u16>)
    ensures
        r == attr_u16_s(t@, key@),
{
    match attr_uint(t, key, u16::MAX as u64) {
        Some(v) => Some(v as u16),
        None => None,
    }
}

/// The value of the attribute `key` as a `u32`.
pub open spec fn attr_u32_s(t: XmlTagV, key: Seq<char>) -> Option<u32> {
    match attr_uint_s(t, key, u32::MAX as nat) {
        Some(v) => Some(v as u32),
        None => None,
    }
}

pub(crate) fn attr_u32(t: &XmlTag, key: &str) -> (r: Option<u32>)
    ensures
        r == attr_u32_s(t@, key@),
{
    match attr_uint(t, key, u32::MAX as u64) {
        Some(v) => Some(v as u32),
        None => None,
    }
}

/// The value of the attribute `key` as a `u64`.
pub open spec fn attr_u64_s(t: XmlTagV, key: Seq<char>) -> Option<u64> {
    match attr_uint_s(t, key, u64::MAX as nat) {
        Some(v) => Some(v as u64),
        None => None,
    }
}

pub(crate) fn attr_u64(t: &XmlTag, key: &str) -> (r: Option<u64>)
    ensures
        r == attr_u64_s(t@, key@),
{
    match attr_uint(t, key, u64::MAX as u64) {
        Some(v) => Some(v as u64),
        None => None,
    }
}

/// The value of the attribute `key` as an `i32`.
pub open spec fn attr_i32_s(t: XmlTagV, key: Seq<char>) -> Option<i32> {
    match attr_int_s(t, key, i32::MIN as int, i32::MAX as int) {
        Some(v) => Some(v as i32),
        None => None,
    }
}

pub(crate) fn attr_i32(t: &XmlTag, key: &str) -> (r: Option<i32>)
    ensures
        r == attr_i32_s(t@, key@),
{
    match attr_sint(t, key, i32::MIN as i64, i32::MAX as i64) {
        Some(v) => Some(v as i32),
        None => None,
    }
}

/// The value of the attribute `key` as an `i64`.
pub open spec fn attr_i64_s(t: XmlTagV, key: Seq<char>) -> Option<i64> {
    match attr_int_s(t, key, i64::MIN as int, i64::MAX as int) {
        Some(v) => Some(v as i64),
        None => None,
    }
}

pub(crate) fn attr_i64(t: &XmlTag, key: &str) -> (r: Option<i64>)
    ensures
        r == attr_i64_s(t@, key@),
{
    match attr_sint(t, key, i64::MIN as i64, i64::MAX as i64) {
        Some(v) => Some(v as i64),
        None => None,
    }
}

/// The value, or a fallback.
pub open spec fn or_s<T>(o: Option<T>, d: T) -> T {
    match o {
        Some(v) => v,
        None => d,
    }
}

pub(crate) fn or_else<T: Copy>(o: Option<T>, d: T) -> (r: T)
    ensures
        r == or_s(o, d),
{
    match o {
        Some(v) => v,
        None => d,
    }
}

/// The number of steps before the first one that failed, from `from` on.
pub open spec fn readable_s(steps: Seq<XmlStepV>, from: int) -> int
    decreases steps.len() - from,
{
    if 0 <= from < steps.len() && !(steps[from].event is Error) {
        readable_s(steps, from + 1)
    } else {
        from
    }
}

pub(crate) proof fn lemma_readable(steps: Seq<XmlStepV>, from: int)
    requires
        0 <= from <= steps.len(),
    ensures
        from <= readable_s(steps, from) <= steps.len(),
    decreases steps.len() - from,
{
    if from < steps.len() {
        lemma_readable(steps, from + 1);
    }
}

/// How many steps a reader sees that gives up at the first malformed one.
pub(crate) fn readable(steps: &Vec<XmlStep>) -> (r: usize)
    ensures
        r == readable_s(xml_step_vs(steps@), 0),
        r <= steps@.len(),
{
    let mut i: usize = 0;
    while i < steps.len()
        invariant
            i <= steps@.len(),
            readable_s(xml_step_vs(steps@), 0) == readable_s(xml_step_vs(steps@), i as int),
        decreases steps@.len() - i,
    {
        assert(xml_step_vs(steps@)[i as int] == steps@[i as int]@);
        if let XmlEvent::Error = &steps[i].event {
            return i;
        }
        i = i + 1;
    }
    i
}

/// The tag of an opening or self-closing element.
pub open spec fn tag_of_s(e: XmlEventV) -> Option<XmlTagV> {
    match e {
        XmlEventV::Start(t) => Some(t),
        XmlEventV::Empty(t) => Some(t),
        _ => None,
    }
}

pub open spec fn xml_tag_ov(o: Option<&XmlTag>) -> Option<XmlTagV> {
    match o {
        Some(t) => Some(t@),
        None => None,
    }
}

pub(crate) fn tag_of(e: &XmlEvent) -> (r: Option<&XmlTag>)
    ensures
        xml_tag_ov(r) == tag_of_s(e@),
{
    match e {
        XmlEvent::Start(t) => Some(t),
        XmlEvent::Empty(t) => Some(t),
        _ => None,
    }
}

pub(crate) fn is_tag(t: &XmlTag, name: &str) -> (r: bool)
    ensures
        r == (t@.name == name@),
{
    str_eq(t.name.as_str(), name)
}

} // verus!
