//! Markup as a list of pieces.
//!
//! A piece is a tag or a stretch of text. Written out, a list of pieces is the text of the markup;
//! read, it is the events that state it.

use vstd::prelude::*;
use crate::commentback;
use crate::events;
use crate::events::{XmlAttrV, XmlEventV, XmlTagV};
use crate::strs;
use crate::xml;

verus! {

broadcast use vstd::string::group_string_axioms;

/// One piece of markup.
#[verifier::ext_equal]
pub enum Piece {
    Open(XmlTagV),
    Bare(XmlTagV),
    Close(Seq<char>),
    Chars(Seq<char>),
}

/// The bytes that a value is written as.
pub open spec fn raw_s(x: Seq<char>) -> Seq<u8> {
    vstd::utf8::encode_utf8(xml::esc_s(x))
}

/// A tag with these attributes, each with the bytes that stand between its quotes.
pub open spec fn tag_s(name: Seq<char>, v: Seq<(Seq<char>, Seq<char>)>) -> XmlTagV {
    XmlTagV {
        name,
        attrs: Seq::new(
            v.len(),
            |i: int| Some(XmlAttrV { key: v[i].0, raw: raw_s(v[i].1), value: Some(v[i].1) }),
        ),
    }
}

// ---------------------------------------------------------------- written out

pub open spec fn attr_text_s(o: Option<XmlAttrV>) -> Seq<char> {
    match o {
        Some(a) => " "@ + a.key + "=\""@ + xml::esc_s(events::or_empty_s(a.value)) + "\""@,
        None => Seq::empty(),
    }
}

pub open spec fn attrs_text_s(v: Seq<Option<XmlAttrV>>, n: nat) -> Seq<char>
    decreases n,
{
    if n == 0 {
        Seq::empty()
    } else {
        attrs_text_s(v, (n - 1) as nat) + attr_text_s(v[n - 1])
    }
}

/// The text of a piece: a tag with its attributes, or text with its markup characters escaped.
pub open spec fn piece_text_s(p: Piece) -> Seq<char> {
    match p {
        Piece::Open(t) => "<"@ + t.name + attrs_text_s(t.attrs, t.attrs.len()) + ">"@,
        Piece::Bare(t) => "<"@ + t.name + attrs_text_s(t.attrs, t.attrs.len()) + "/>"@,
        Piece::Close(n) => "</"@ + n + ">"@,
        Piece::Chars(x) => xml::esc_s(x),
    }
}

/// The text of the first `n` pieces.
pub open spec fn text_s(v: Seq<Piece>, n: nat) -> Seq<char>
    decreases n,
{
    if n == 0 {
        Seq::empty()
    } else {
        text_s(v, (n - 1) as nat) + piece_text_s(v[n - 1])
    }
}

/// Whether markup, written out, is `text`.
pub open spec fn spells_s(v: Seq<Piece>, text: Seq<char>) -> bool {
    text_s(v, v.len()) == text
}

// ---------------------------------------------------------------- read

/// Whether an event states a tag.
pub open spec fn states_s(e: XmlEventV, p: Piece) -> bool {
    match (e, p) {
        (XmlEventV::Start(a), Piece::Open(b)) => a == b,
        (XmlEventV::Empty(a), Piece::Bare(b)) => a == b,
        (XmlEventV::End(a), Piece::Close(b)) => a == b,
        _ => false,
    }
}

/// Whether a list of events states one piece: a tag is one event, text is any number of events of
/// text that make it up.
pub open spec fn told_one_s(p: Piece, w: Seq<XmlEventV>) -> bool {
    match p {
        Piece::Chars(x) => commentback::text_stated_s(w, x),
        _ => w.len() == 1 && states_s(w[0], p),
    }
}

/// Whether the events state the pieces, cut into their parts at `cuts`.
pub open spec fn told_at_s(v: Seq<Piece>, e: Seq<XmlEventV>, cuts: Seq<int>) -> bool {
    &&& cuts.len() == v.len() + 1
    &&& cuts[0] == 0
    &&& cuts[v.len() as int] == e.len()
    &&& forall|i: int|
        0 <= i < v.len() ==> 0 <= #[trigger] cuts[i] <= cuts[i + 1] <= e.len() && told_one_s(
            v[i],
            e.subrange(cuts[i], cuts[i + 1]),
        )
}

/// Whether the events state the pieces, one after another.
pub open spec fn told_s(v: Seq<Piece>, e: Seq<XmlEventV>) -> bool {
    exists|cuts: Seq<int>| #[trigger] told_at_s(v, e, cuts)
}

// ---------------------------------------------------------------- concatenation

pub(crate) proof fn lemma_text_prefix(v: Seq<Piece>, w: Seq<Piece>, n: nat)
    requires
        n <= v.len(),
    ensures
        text_s(v + w, n) == text_s(v, n),
    decreases n,
{
    if n > 0 {
        lemma_text_prefix(v, w, (n - 1) as nat);
        assert((v + w)[n - 1] == v[n - 1]);
    }
}

proof fn lemma_text_rest(v: Seq<Piece>, w: Seq<Piece>, n: nat)
    requires
        n <= w.len(),
    ensures
        text_s(v + w, v.len() + n) == text_s(v, v.len()) + text_s(w, n),
    decreases n,
{
    if n == 0 {
        lemma_text_prefix(v, w, v.len());
        assert(text_s(v, v.len()) + text_s(w, 0) =~= text_s(v, v.len()));
    } else {
        lemma_text_rest(v, w, (n - 1) as nat);
        assert((v + w)[v.len() + n - 1] == w[n - 1]);
        assert(text_s(v, v.len()) + text_s(w, (n - 1) as nat) + piece_text_s(w[n - 1])
            =~= text_s(v, v.len()) + (text_s(w, (n - 1) as nat) + piece_text_s(w[n - 1])));
    }
}

/// What two lists spell, they spell together.
pub(crate) proof fn lemma_spell_both(v: Seq<Piece>, a: Seq<char>, w: Seq<Piece>, b: Seq<char>)
    requires
        spells_s(v, a),
        spells_s(w, b),
    ensures
        spells_s(v + w, a + b),
{
    lemma_text_rest(v, w, w.len());
}

pub(crate) proof fn lemma_spell_one(p: Piece)
    ensures
        spells_s(seq![p], piece_text_s(p)),
{
    reveal_with_fuel(text_s, 2);
    assert(Seq::<char>::empty() + piece_text_s(p) =~= piece_text_s(p));
}

pub(crate) proof fn lemma_spell_none()
    ensures
        spells_s(Seq::empty(), Seq::empty()),
{
}

pub(crate) proof fn lemma_assoc(a: Seq<char>, b: Seq<char>, c: Seq<char>)
    ensures
        a + b + c == a + (b + c),
{
    assert(a + b + c =~= a + (b + c));
}

// ---------------------------------------------------------------- single tags

/// The pieces of something that may be absent.
pub open spec fn maybe_s(on: bool, p: Piece) -> Seq<Piece> {
    if on {
        seq![p]
    } else {
        Seq::empty()
    }
}

pub(crate) proof fn lemma_spell_maybe(on: bool, p: Piece)
    ensures
        spells_s(maybe_s(on, p), strs::when_s(on, piece_text_s(p))),
{
    lemma_spell_one(p);
    lemma_spell_none();
}

pub(crate) proof fn lemma_no_attrs(name: Seq<char>)
    ensures
        attrs_text_s(tag_s(name, Seq::empty()).attrs, 0) == Seq::<char>::empty(),
        tag_s(name, Seq::empty()).attrs.len() == 0,
        forall|k: Seq<char>| #[trigger] events::attr_s(tag_s(name, Seq::empty()), k) is None,
{
}

/// The value under a name in a list of attributes.
pub open spec fn value_s(v: Seq<(Seq<char>, Seq<char>)>, key: Seq<char>, from: int) -> Option<Seq<char>>
    decreases v.len() - from,
{
    if 0 <= from < v.len() {
        if v[from].0 == key {
            Some(v[from].1)
        } else {
            value_s(v, key, from + 1)
        }
    } else {
        None
    }
}

proof fn lemma_value(name: Seq<char>, v: Seq<(Seq<char>, Seq<char>)>, key: Seq<char>, from: int)
    requires
        0 <= from <= v.len(),
    ensures
        ({
            let t = tag_s(name, v);
            let at = events::attr_at_s(t.attrs, key, from);
            (if at < t.attrs.len() {
                t.attrs[at]->0.value
            } else {
                None
            }) == value_s(v, key, from)
        }),
    decreases v.len() - from,
{
    if from < v.len() {
        lemma_value(name, v, key, from + 1);
    }
}

/// A tag has the attributes that it was made with.
pub(crate) proof fn lemma_attr(name: Seq<char>, v: Seq<(Seq<char>, Seq<char>)>)
    ensures
        forall|key: Seq<char>| #[trigger] events::attr_s(tag_s(name, v), key) == value_s(v, key, 0),
{
    assert forall|key: Seq<char>| #[trigger] events::attr_s(tag_s(name, v), key) == value_s(
        v,
        key,
        0,
    ) by {
        lemma_value(name, v, key, 0);
    }
}

/// The attribute list with one more.
pub(crate) proof fn lemma_attrs_push(name: Seq<char>, v: Seq<(Seq<char>, Seq<char>)>, k: Seq<char>, x: Seq<char>)
    ensures
        ({
            let a = tag_s(name, v).attrs;
            let b = tag_s(name, v.push((k, x))).attrs;
            attrs_text_s(b, b.len()) == attrs_text_s(a, a.len()) + (" "@ + k + "=\""@ + xml::esc_s(x)
                + "\""@)
        }),
{
    let a = tag_s(name, v).attrs;
    let b = tag_s(name, v.push((k, x))).attrs;
    lemma_attrs_prefix(a, b, a.len());
    assert(b[a.len() as int] == Some(XmlAttrV { key: k, raw: raw_s(x), value: Some(x) }));
}

proof fn lemma_attrs_prefix(a: Seq<Option<XmlAttrV>>, b: Seq<Option<XmlAttrV>>, n: nat)
    requires
        n <= a.len(),
        n <= b.len(),
        forall|i: int| 0 <= i < n ==> a[i] == b[i],
    ensures
        attrs_text_s(a, n) == attrs_text_s(b, n),
    decreases n,
{
    if n > 0 {
        lemma_attrs_prefix(a, b, (n - 1) as nat);
    }
}

/// A tag without attributes.
pub open spec fn bare_s(name: Seq<char>) -> Piece {
    Piece::Bare(tag_s(name, Seq::empty()))
}

pub open spec fn open_s(name: Seq<char>) -> Piece {
    Piece::Open(tag_s(name, Seq::empty()))
}

/// A tag with one attribute.
pub open spec fn leaf_s(name: Seq<char>, key: Seq<char>, x: Seq<char>) -> Piece {
    Piece::Bare(tag_s(name, seq![(key, x)]))
}

pub(crate) proof fn lemma_bare_text(name: Seq<char>, text: Seq<char>)
    requires
        text == "<"@ + name + "/>"@,
    ensures
        piece_text_s(bare_s(name)) == text,
{
    lemma_no_attrs(name);
    assert("<"@ + name + Seq::<char>::empty() + "/>"@ =~= "<"@ + name + "/>"@);
}

pub(crate) proof fn lemma_open_text(name: Seq<char>, text: Seq<char>)
    requires
        text == "<"@ + name + ">"@,
    ensures
        piece_text_s(open_s(name)) == text,
{
    lemma_no_attrs(name);
    assert("<"@ + name + Seq::<char>::empty() + ">"@ =~= "<"@ + name + ">"@);
}

pub(crate) proof fn lemma_leaf_text(
    name: Seq<char>,
    key: Seq<char>,
    x: Seq<char>,
    pre: Seq<char>,
    post: Seq<char>,
)
    requires
        pre == "<"@ + name + " "@ + key + "=\""@,
        post == "\""@ + "/>"@,
    ensures
        piece_text_s(leaf_s(name, key, x)) == pre + xml::esc_s(x) + post,
        forall|k: Seq<char>| #[trigger]
            events::attr_s(tag_s(name, seq![(key, x)]), k) == (if k == key {
                Some(x)
            } else {
                None
            }),
{
    lemma_no_attrs(name);
    lemma_attrs_push(name, Seq::empty(), key, x);
    assert(Seq::<(Seq<char>, Seq<char>)>::empty().push((key, x)) =~= seq![(key, x)]);
    assert("<"@ + name + (Seq::<char>::empty() + (" "@ + key + "=\""@ + xml::esc_s(x) + "\""@)) + "/>"@
        =~= pre + xml::esc_s(x) + post);
    lemma_attr(name, seq![(key, x)]);
    reveal_with_fuel(value_s, 3);
}

// ---------------------------------------------------------------- numbers

proof fn lemma_esc_plain(s: Seq<char>)
    requires
        forall|i: int|
            0 <= i < s.len() ==> {
                let c = #[trigger] s[i];
                c != '&' && c != '<' && c != '>' && c != '"' && c != '\''
            },
    ensures
        xml::esc_s(s) == s,
    decreases s.len(),
{
    if s.len() > 0 {
        lemma_esc_plain(s.drop_last());
        assert(s.last() == s[s.len() - 1]);
        assert(s.drop_last() + seq![s.last()] =~= s);
    } else {
        assert(xml::esc_s(s) =~= s);
    }
}

/// Digits hold no markup.
pub(crate) proof fn lemma_esc_dec(n: nat)
    ensures
        xml::esc_s(strs::dec_s(n)) == strs::dec_s(n),
{
    strs::lemma_dec_reads_back(n);
    assert forall|i: int| 0 <= i < strs::dec_s(n).len() implies {
        let c = #[trigger] strs::dec_s(n)[i];
        c != '&' && c != '<' && c != '>' && c != '"' && c != '\''
    } by {
        assert(strs::is_digit_s(strs::dec_s(n)[i]));
    }
    lemma_esc_plain(strs::dec_s(n));
}

pub(crate) proof fn lemma_esc_dec_int(n: int)
    ensures
        xml::esc_s(strs::dec_int_s(n)) == strs::dec_int_s(n),
{
    if n < 0 {
        lemma_esc_dec((-n) as nat);
        xml::lemma_esc_concat(seq!['-'], strs::dec_s((-n) as nat));
        lemma_esc_plain(seq!['-']);
    } else {
        lemma_esc_dec(n as nat);
    }
}

/// A text that is one of the language's own words.
pub(crate) proof fn lemma_esc_word(s: Seq<char>)
    requires
        forall|i: int|
            0 <= i < s.len() ==> {
                let c = #[trigger] s[i];
                c != '&' && c != '<' && c != '>' && c != '"' && c != '\''
            },
    ensures
        xml::esc_s(s) == s,
{
    lemma_esc_plain(s);
}

} // verus!
