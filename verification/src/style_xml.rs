//! Writing `word/styles.xml`.
//!
//! A document created here gets a full part. An imported part is patched in place: only the
//! modelled children of an edited style change, and missing styles are appended.

use vstd::prelude::*;
use crate::paragraph;
use crate::paragraph::{align_xml, fonts_xml, rule_token, size_xml, spacing_xml};
use crate::search;
use crate::search::{contains_str, find_at, rfind_at, sort_texts, splice, trim_end};
use crate::strmap;
use crate::strmap::StrMap;
use crate::strs;
use crate::strs::{chars_of, dec, only_if, string_of};
use crate::styles;
use crate::styles::{canonical_styles, has_text, StyleProps, StylePropsV, StyleTable, StyleTableV};
use crate::types::LineRule;
use crate::xml;
use crate::xml::{esc_piece, opt_esc, wide16, wrap, xml_escape};

verus! {

broadcast use vstd::string::group_string_axioms;

// ---------------------------------------------------------------- one style

/// The run properties of a style: font, bold, italic, size, colour.
pub open spec fn style_rpr_s(p: StylePropsV) -> Seq<char> {
    paragraph::fonts_s(p.font) + strs::when_s(p.bold == Some(true), "<w:b/>"@) + strs::when_s(
        p.italic == Some(true),
        "<w:i/>"@,
    ) + paragraph::size_s(xml::int16_s(p.size)) + xml::opt_esc_s(
        "<w:color w:val=\""@,
        p.color,
        "\"/>"@,
    )
}

fn is_true(o: Option<bool>) -> (r: bool)
    ensures
        r == (o == Some(true)),
{
    match o {
        Some(b) => b,
        None => false,
    }
}

fn style_rpr_inner(p: &StyleProps) -> (r: String)
    ensures
        r@ == style_rpr_s(p@),
{
    let mut s = fonts_xml(&p.font);
    s.append(only_if(is_true(p.bold), "<w:b/>").as_str());
    s.append(only_if(is_true(p.italic), "<w:i/>").as_str());
    s.append(size_xml(wide16(p.size)).as_str());
    s.append(opt_esc("<w:color w:val=\"", &p.color, "\"/>").as_str());
    s
}

/// The paragraph properties of a style, in schema order: page break, spacing, alignment.
pub open spec fn style_ppr_s(p: StylePropsV) -> Seq<char> {
    strs::when_s(p.page_break_before == Some(true), "<w:pageBreakBefore/>"@) + paragraph::spacing_s(
        p.space_before,
        p.space_after,
        p.line_spacing,
        p.line_rule,
    ) + paragraph::align_s(p.align)
}

fn style_ppr_inner(p: &StyleProps) -> (r: String)
    ensures
        r@ == style_ppr_s(p@),
{
    let mut s = only_if(is_true(p.page_break_before), "<w:pageBreakBefore/>");
    s.append(spacing_xml(p.space_before, p.space_after, p.line_spacing, p.line_rule).as_str());
    s.append(align_xml(p.align).as_str());
    s
}

/// The `w:style` element of a paragraph style.
pub open spec fn style_block_s(
    id: Seq<char>,
    name: Seq<char>,
    based_on: Option<Seq<char>>,
    p: StylePropsV,
    qformat: bool,
) -> Seq<char> {
    xml::esc_piece_s("<w:style w:type=\"paragraph\" w:styleId=\""@, id, "\">"@) + xml::esc_piece_s(
        "<w:name w:val=\""@,
        name,
        "\"/>"@,
    ) + xml::opt_esc_s("<w:basedOn w:val=\""@, based_on, "\"/>"@) + strs::when_s(
        qformat,
        "<w:qFormat/>"@,
    ) + xml::wrap_s("<w:pPr>"@, style_ppr_s(p), "</w:pPr>"@) + xml::wrap_s(
        "<w:rPr>"@,
        style_rpr_s(p),
        "</w:rPr>"@,
    ) + "</w:style>"@
}

fn style_block(id: &str, name: &str, based_on: &Option<String>, p: &StyleProps, qformat: bool) -> (r:
    String)
    ensures
        r@ == style_block_s(id@, name@, strs::opt_s(*based_on), p@, qformat),
{
    let mut s = esc_piece("<w:style w:type=\"paragraph\" w:styleId=\"", id, "\">");
    s.append(esc_piece("<w:name w:val=\"", name, "\"/>").as_str());
    s.append(opt_esc("<w:basedOn w:val=\"", based_on, "\"/>").as_str());
    s.append(only_if(qformat, "<w:qFormat/>").as_str());
    s.append(wrap("<w:pPr>", style_ppr_inner(p).as_str(), "</w:pPr>").as_str());
    s.append(wrap("<w:rPr>", style_rpr_inner(p).as_str(), "</w:rPr>").as_str());
    s.append("</w:style>");
    s
}

/// The element of style `id` as the table defines it; nothing where it does not. A style
/// without a name goes by its id.
pub open spec fn table_block_s(t: StyleTableV, id: Seq<char>, qformat: bool) -> Seq<char> {
    match strmap::get_s(t.by_id, id) {
        Some(p) => style_block_s(
            id,
            match strmap::get_s(t.names, id) {
                Some(n) => n,
                None => id,
            },
            strmap::get_s(t.based_on, id),
            p,
            qformat,
        ),
        None => Seq::empty(),
    }
}

fn text_of(m: &StrMap<String>, id: &str) -> (r: Option<String>)
    ensures
        strs::opt_s(r) == strmap::get_s(m@, id@),
{
    match m.get(id) {
        Some(x) => Some(x.clone()),
        None => None,
    }
}

fn table_block(t: &StyleTable, id: &str, qformat: bool) -> (r: String)
    ensures
        r@ == table_block_s(t@, id@, qformat),
{
    match t.by_id.get(id) {
        Some(p) => {
            let name = match text_of(&t.names, id) {
                Some(n) => n,
                None => id.to_string(),
            };
            style_block(id, name.as_str(), &text_of(&t.based_on, id), p, qformat)
        },
        None => {
            let s = String::new();
            assert(s@ =~= Seq::empty());
            s
        },
    }
}

// ---------------------------------------------------------------- the whole part

/// The keys of the first `n` entries that the gallery does not list.
pub open spec fn other_keys_s(t: StyleTableV, n: nat) -> Seq<Seq<char>>
    decreases n,
{
    if n == 0 {
        Seq::empty()
    } else {
        let rest = other_keys_s(t, (n - 1) as nat);
        let k = t.by_id[n - 1].0;
        if t.gallery.contains(k) {
            rest
        } else {
            rest.push(k)
        }
    }
}

/// The styles in output order: the gallery, then the others in dictionary order.
pub open spec fn style_order_s(t: StyleTableV) -> Seq<Seq<char>> {
    let others = other_keys_s(t, t.by_id.len());
    t.gallery + search::sorted_s(others, others.len())
}

pub open spec fn blocks_s(t: StyleTableV, ids: Seq<Seq<char>>, n: nat) -> Seq<char>
    decreases n,
{
    if n == 0 {
        Seq::empty()
    } else {
        blocks_s(t, ids, (n - 1) as nat) + table_block_s(
            t,
            ids[n - 1],
            t.gallery.contains(ids[n - 1]),
        )
    }
}

/// A whole style part: the document defaults, then every style.
pub open spec fn styles_xml_s(t: StyleTableV) -> Seq<char> {
    let ids = style_order_s(t);
    "<?xml version=\"1.0\" encoding=\"UTF-8\" standalone=\"yes\"?>\r\n<w:styles xmlns:w=\"http://schemas.openxmlformats.org/wordprocessingml/2006/main\"><w:docDefaults><w:rPrDefault>"@
        + xml::wrap_s("<w:rPr>"@, style_rpr_s(t.default), "</w:rPr>"@)
        + "</w:rPrDefault><w:pPrDefault>"@ + xml::wrap_s(
        "<w:pPr>"@,
        style_ppr_s(t.default),
        "</w:pPr>"@,
    ) + "</w:pPrDefault></w:docDefaults>"@ + blocks_s(t, ids, ids.len()) + "</w:styles>"@
}

fn other_keys(t: &StyleTable) -> (r: Vec<String>)
    ensures
        search::texts_s(r@) == other_keys_s(t@, t@.by_id.len()),
{
    let mut out: Vec<String> = Vec::new();
    let n = t.by_id.len();
    let mut i: usize = 0;
    assert(search::texts_s(out@) =~= Seq::empty());
    while i < n
        invariant
            i <= n == t@.by_id.len(),
            search::texts_s(out@) == other_keys_s(t@, i as nat),
        decreases n - i,
    {
        let k = t.by_id.key_at(i);
        if !has_text(&t.gallery, k) {
            let ghost was = out@;
            out.push(k.to_string());
            assert(search::texts_s(out@) =~= search::texts_s(was).push(k@));
        }
        i = i + 1;
    }
    out
}

fn style_order(t: &StyleTable) -> (r: Vec<String>)
    ensures
        search::texts_s(r@) == style_order_s(t@),
{
    let mut ids: Vec<String> = Vec::new();
    let ghost g = t@.gallery;
    let mut i: usize = 0;
    assert(search::texts_s(ids@) =~= g.subrange(0, 0));
    while i < t.gallery.len()
        invariant
            i <= t.gallery@.len(),
            g == t@.gallery,
            search::texts_s(ids@) == g.subrange(0, i as int),
        decreases t.gallery@.len() - i,
    {
        let ghost was = ids@;
        ids.push(t.gallery[i].clone());
        i = i + 1;
        proof {
            assert(g[i - 1] == t.gallery@[i - 1]@);
            assert(search::texts_s(ids@) =~= search::texts_s(was).push(g[i - 1]));
            assert(search::texts_s(ids@) =~= g.subrange(0, i as int));
        }
    }
    assert(g.subrange(0, i as int) =~= g);
    let rest = sort_texts(&other_keys(t));
    let ghost r = search::texts_s(rest@);
    let mut j: usize = 0;
    assert(search::texts_s(ids@) =~= g + r.subrange(0, 0));
    while j < rest.len()
        invariant
            j <= rest@.len(),
            r == search::texts_s(rest@),
            search::texts_s(ids@) == g + r.subrange(0, j as int),
        decreases rest@.len() - j,
    {
        let ghost was = ids@;
        ids.push(rest[j].clone());
        j = j + 1;
        proof {
            assert(r[j - 1] == rest@[j - 1]@);
            assert(search::texts_s(ids@) =~= search::texts_s(was).push(r[j - 1]));
            assert(search::texts_s(ids@) =~= g + r.subrange(0, j as int));
        }
    }
    assert(r.subrange(0, j as int) =~= r);
    ids
}

/// Serialize a full `word/styles.xml` from `table`: document defaults and every style.
pub fn export_styles_xml(table: &StyleTable) -> (r: String)
    ensures
        r@ == styles_xml_s(table@),
{
    let ids = style_order(table);
    let ghost iv = search::texts_s(ids@);
    let mut blocks = String::new();
    let mut i: usize = 0;
    assert(blocks@ =~= Seq::empty());
    while i < ids.len()
        invariant
            i <= ids@.len(),
            iv == search::texts_s(ids@),
            blocks@ == blocks_s(table@, iv, i as nat),
        decreases ids@.len() - i,
    {
        assert(iv[i as int] == ids@[i as int]@);
        let id = ids[i].as_str();
        blocks.append(table_block(table, id, has_text(&table.gallery, id)).as_str());
        i = i + 1;
    }
    let mut s =
        "<?xml version=\"1.0\" encoding=\"UTF-8\" standalone=\"yes\"?>\r\n<w:styles xmlns:w=\"http://schemas.openxmlformats.org/wordprocessingml/2006/main\"><w:docDefaults><w:rPrDefault>".to_string();
    s.append(wrap("<w:rPr>", style_rpr_inner(&table.default).as_str(), "</w:rPr>").as_str());
    s.append("</w:rPrDefault><w:pPrDefault>");
    s.append(wrap("<w:pPr>", style_ppr_inner(&table.default).as_str(), "</w:pPr>").as_str());
    s.append("</w:pPrDefault></w:docDefaults>");
    s.append(blocks.as_str());
    s.append("</w:styles>");
    s
}

// ---------------------------------------------------------------- patching elements

/// The start of an element, up to its name.
pub open spec fn open_s(tag: Seq<char>) -> Seq<char> {
    seq!['<', 'w', ':'] + tag
}

/// A closing tag.
pub open spec fn close_s(tag: Seq<char>) -> Seq<char> {
    seq!['<', '/', 'w', ':'] + tag + seq!['>']
}

fn open_of(tag: &str) -> (r: String)
    ensures
        r@ == open_s(tag@),
{
    let mut s = String::new();
    s.push('<');
    s.push('w');
    s.push(':');
    assert(s@ =~= seq!['<', 'w', ':']);
    s.append(tag);
    s
}

fn close_of(tag: &str) -> (r: String)
    ensures
        r@ == close_s(tag@),
{
    let mut s = String::new();
    s.push('<');
    s.push('/');
    s.push('w');
    s.push(':');
    assert(s@ =~= seq!['<', '/', 'w', ':']);
    s.append(tag);
    s.push('>');
    assert(s@ =~= close_s(tag@));
    s
}

/// Whether a tag name ends here.
pub open spec fn name_ends_s(s: Seq<char>, at: int) -> bool {
    at < s.len() && (s[at] == ' ' || s[at] == '/' || s[at] == '>')
}

/// How much of `tail`, which starts with an opening tag, the whole element takes: the tag alone
/// where it closes itself or has no closing tag, else up to the first closing tag.
pub open spec fn element_len_s(tail: Seq<char>, tag: Seq<char>) -> int {
    let gt = match search::find_s(tail, seq!['>'], 0) {
        Some(g) => g + 1,
        None => tail.len() as int,
    };
    if search::ends_s(tail.subrange(0, gt), seq!['/', '>']) {
        gt
    } else {
        match search::find_s(tail, close_s(tag), 0) {
            Some(c) => c + close_s(tag).len(),
            None => gt,
        }
    }
}

pub proof fn lemma_element_len(tail: Seq<char>, tag: Seq<char>)
    requires
        tail.len() > 0,
    ensures
        0 < element_len_s(tail, tag) <= tail.len(),
{
    search::lemma_find(tail, seq!['>'], 0);
    search::lemma_find(tail, close_s(tag), 0);
}

/// The text without any element called `tag`. A longer name that starts alike is kept.
pub open spec fn drop_element_s(s: Seq<char>, tag: Seq<char>) -> Seq<char>
    decreases s.len(),
{
    let open = open_s(tag);
    match search::find_s(s, open, 0) {
        None => s,
        Some(pos) => {
            let after = pos + open.len();
            if name_ends_s(s, after) {
                let rest = s.subrange(pos, s.len() as int);
                proof {
                    search::lemma_find(s, open, 0);
                    lemma_element_len(rest, tag);
                }
                s.subrange(0, pos) + drop_element_s(
                    rest.subrange(element_len_s(rest, tag), rest.len() as int),
                    tag,
                )
            } else {
                proof {
                    search::lemma_find(s, open, 0);
                }
                s.subrange(0, after) + drop_element_s(s.subrange(after, s.len() as int), tag)
            }
        },
    }
}

fn element_len(tail: &Vec<char>, close: &str, tag: &str) -> (r: usize)
    requires
        close@ == close_s(tag@),
        tail@.len() > 0,
    ensures
        r == element_len_s(tail@, tag@),
        0 < r <= tail@.len(),
{
    proof {
        lemma_element_len(tail@, tag@);
    }
    let mut gtv: Vec<char> = Vec::new();
    gtv.push('>');
    assert(gtv@ =~= seq!['>']);
    let n = tail.len();
    let gt: usize = match search::find_chars(tail, &gtv, 0) {
        Some(g) => g + 1,
        None => n,
    };
    let closes = gt >= 2 && tail[gt - 2] == '/' && tail[gt - 1] == '>';
    proof {
        let head = tail@.subrange(0, gt as int);
        let pat = seq!['/', '>'];
        if gt >= 2 {
            assert(head.subrange(head.len() - 2, head.len() as int) =~= seq![
                tail@[gt - 2],
                tail@[gt - 1],
            ]);
        }
        if closes {
            assert(head.subrange(head.len() - 2, head.len() as int) =~= pat);
        } else if gt >= 2 {
            if head.subrange(head.len() - 2, head.len() as int) == pat {
                assert(pat[0] == '/' && pat[1] == '>');
                assert(seq![tail@[gt - 2], tail@[gt - 1]][0] == '/');
                assert(seq![tail@[gt - 2], tail@[gt - 1]][1] == '>');
            }
        }
        assert(search::ends_s(head, pat) == closes);
    }
    if closes {
        gt
    } else {
        match find_at(tail, close, 0) {
            Some(c) => c + chars_of(close).len(),
            None => gt,
        }
    }
}

/// Drop every element called `tag` from `inner`.
fn drop_style_element(inner: &str, tag: &str) -> (r: String)
    ensures
        r@ == drop_element_s(inner@, tag@),
{
    let open = chars_of(open_of(tag).as_str());
    let close = close_of(tag);
    let mut out = String::new();
    let mut rest = chars_of(inner);
    assert(out@ + drop_element_s(rest@, tag@) =~= drop_element_s(inner@, tag@));
    loop
        invariant_except_break
            open@ == open_s(tag@),
            close@ == close_s(tag@),
            out@ + drop_element_s(rest@, tag@) == drop_element_s(inner@, tag@),
        ensures
            out@ == drop_element_s(inner@, tag@),
        decreases rest@.len(),
    {
        let ghost r0 = rest@;
        let ghost o0 = out@;
        let n = rest.len();
        match search::find_chars(&rest, &open, 0) {
            Some(pos) => {
                let after = pos + open.len();
                let ends = after < n && (rest[after] == ' ' || rest[after] == '/' || rest[after]
                    == '>');
                if ends {
                    out.append(string_of(&rest, 0, pos).as_str());
                    let tail = chars_of(string_of(&rest, pos, n).as_str());
                    let len = element_len(&tail, close.as_str(), tag);
                    rest = chars_of(string_of(&tail, len, tail.len()).as_str());
                    proof {
                        let d = drop_element_s(rest@, tag@);
                        assert(drop_element_s(r0, tag@) == r0.subrange(0, pos as int) + d);
                        assert(o0 + (r0.subrange(0, pos as int) + d) =~= out@ + d);
                    }
                } else {
                    out.append(string_of(&rest, 0, after).as_str());
                    rest = chars_of(string_of(&rest, after, n).as_str());
                    proof {
                        let d = drop_element_s(rest@, tag@);
                        assert(drop_element_s(r0, tag@) == r0.subrange(0, after as int) + d);
                        assert(o0 + (r0.subrange(0, after as int) + d) =~= out@ + d);
                    }
                }
            },
            None => {
                out.append(string_of(&rest, 0, n).as_str());
                assert(r0.subrange(0, n as int) =~= r0);
                break;
            },
        }
    }
    out
}

/// The element text with the attribute `name` set to `val`: its value replaced, or the attribute
/// inserted before the closing `/>` or `>`.
pub open spec fn set_attr_s(elem: Seq<char>, name: Seq<char>, val: Seq<char>) -> Seq<char> {
    let needle = name + "=\""@;
    match search::find_s(elem, needle, 0) {
        Some(p) => {
            let from = p + needle.len();
            let to = match search::find_s(elem, "\""@, from) {
                Some(e) => e,
                None => from,
            };
            search::splice_s(elem, from, xml::esc_s(val), to)
        },
        None => {
            let at = match search::rfind_s(elem, "/>"@) {
                Some(i) => i,
                None => match search::rfind_s(elem, ">"@) {
                    Some(i) => i,
                    None => elem.len() as int,
                },
            };
            search::trim_end_s(elem.subrange(0, at)) + " "@ + name + "=\""@ + xml::esc_s(val) + "\""@
                + elem.subrange(at, elem.len() as int)
        },
    }
}

fn set_xml_attr(elem: &str, name: &str, val: &str) -> (r: String)
    ensures
        r@ == set_attr_s(elem@, name@, val@),
{
    let v = chars_of(elem);
    let mut needle = name.to_string();
    needle.append("=\"");
    let len = v.len();
    match find_at(&v, needle.as_str(), 0) {
        Some(p) => {
            let from = p + chars_of(needle.as_str()).len();
            let to = match find_at(&v, "\"", from) {
                Some(e) => e,
                None => from,
            };
            splice(&v, from, xml_escape(val).as_str(), to)
        },
        None => {
            let at = match rfind_at(&v, "/>") {
                Some(i) => i,
                None => match rfind_at(&v, ">") {
                    Some(i) => i,
                    None => len,
                },
            };
            let mut s = trim_end(string_of(&v, 0, at).as_str());
            s.append(" ");
            s.append(name);
            s.append("=\"");
            s.append(xml_escape(val).as_str());
            s.append("\"");
            s.append(string_of(&v, at, len).as_str());
            s
        },
    }
}

/// The element text with a number attribute set, where one is given.
pub open spec fn set_num_s(elem: Seq<char>, name: Seq<char>, val: Option<nat>) -> Seq<char> {
    match val {
        Some(n) => set_attr_s(elem, name, strs::dec_s(n)),
        None => elem,
    }
}

pub open spec fn nat32_s(o: Option<u32>) -> Option<nat> {
    match o {
        Some(n) => Some(n as nat),
        None => None,
    }
}

/// The spacing element with the given attributes set and all others kept.
pub open spec fn spacing_attrs_s(
    elem: Seq<char>,
    before: Option<u32>,
    after: Option<u32>,
    line: Option<u16>,
    rule: Option<LineRule>,
) -> Seq<char> {
    let e = set_num_s(set_num_s(elem, "w:before"@, nat32_s(before)), "w:after"@, nat32_s(after));
    match line {
        Some(l) => set_attr_s(
            set_attr_s(e, "w:line"@, strs::dec_s(l as nat)),
            "w:lineRule"@,
            paragraph::rule_s(rule),
        ),
        None => e,
    }
}

fn spacing_attrs(
    elem: &str,
    before: Option<u32>,
    after: Option<u32>,
    line: Option<u16>,
    rule: Option<LineRule>,
) -> (r: String)
    ensures
        r@ == spacing_attrs_s(elem@, before, after, line, rule),
{
    let mut e = elem.to_string();
    if let Some(b) = before {
        e = set_xml_attr(e.as_str(), "w:before", dec(b as u128).as_str());
    }
    if let Some(a) = after {
        e = set_xml_attr(e.as_str(), "w:after", dec(a as u128).as_str());
    }
    if let Some(l) = line {
        e = set_xml_attr(e.as_str(), "w:line", dec(l as u128).as_str());
        e = set_xml_attr(e.as_str(), "w:lineRule", rule_token(rule));
    }
    e
}

/// The text with the attributes set on its first spacing element; one is appended where there is
/// none.
pub open spec fn upsert_spacing_s(
    inner: Seq<char>,
    before: Option<u32>,
    after: Option<u32>,
    line: Option<u16>,
    rule: Option<LineRule>,
) -> Seq<char> {
    match search::find_s(inner, "<w:spacing"@, 0) {
        Some(s) => {
            let to = match search::find_s(inner, ">"@, s) {
                Some(g) => g + 1,
                None => inner.len() as int,
            };
            search::splice_s(
                inner,
                s,
                spacing_attrs_s(inner.subrange(s, to), before, after, line, rule),
                to,
            )
        },
        None => inner + spacing_attrs_s("<w:spacing/>"@, before, after, line, rule),
    }
}

fn upsert_spacing(
    inner: &str,
    before: Option<u32>,
    after: Option<u32>,
    line: Option<u16>,
    rule: Option<LineRule>,
) -> (r: String)
    ensures
        r@ == upsert_spacing_s(inner@, before, after, line, rule),
{
    let v = chars_of(inner);
    match find_at(&v, "<w:spacing", 0) {
        Some(s) => {
            proof {
                reveal_strlit(">");
            }
            let n = v.len();
            let to = match find_at(&v, ">", s) {
                Some(g) => g + 1,
                None => n,
            };
            let elem = spacing_attrs(string_of(&v, s, to).as_str(), before, after, line, rule);
            splice(&v, s, elem.as_str(), to)
        },
        None => {
            let mut out = inner.to_string();
            out.append(spacing_attrs("<w:spacing/>", before, after, line, rule).as_str());
            out
        },
    }
}

/// The text with any element called `tag` replaced by `new` at its end.
pub open spec fn replace_s(s: Seq<char>, tag: Seq<char>, new: Seq<char>) -> Seq<char> {
    drop_element_s(s, tag) + new
}

fn replace(s: &str, tag: &str, new: &str) -> (r: String)
    ensures
        r@ == replace_s(s@, tag@, new@),
{
    let mut out = drop_style_element(s, tag);
    out.append(new);
    out
}

/// The run properties with the override's set fields put in.
pub open spec fn patch_rpr_s(inner: Seq<char>, ov: StylePropsV) -> Seq<char> {
    let a = match ov.font {
        Some(f) => replace_s(inner, "rFonts"@, paragraph::fonts_s(Some(f))),
        None => inner,
    };
    let b = match ov.bold {
        Some(v) => replace_s(
            a,
            "b"@,
            if v {
                "<w:b/>"@
            } else {
                "<w:b w:val=\"false\"/>"@
            },
        ),
        None => a,
    };
    let c = match ov.italic {
        Some(v) => replace_s(
            b,
            "i"@,
            if v {
                "<w:i/>"@
            } else {
                "<w:i w:val=\"false\"/>"@
            },
        ),
        None => b,
    };
    let d = match ov.size {
        Some(n) => replace_s(
            drop_element_s(c, "sz"@),
            "szCs"@,
            paragraph::size_s(Some(n as int)),
        ),
        None => c,
    };
    let e = match ov.color {
        Some(x) => replace_s(d, "color"@, xml::esc_piece_s("<w:color w:val=\""@, x, "\"/>"@)),
        None => d,
    };
    match ov.highlight {
        Some(x) => replace_s(
            e,
            "highlight"@,
            xml::esc_piece_s("<w:highlight w:val=\""@, x, "\"/>"@),
        ),
        None => e,
    }
}

fn patch_style_rpr_inner(inner: &str, ov: &StyleProps) -> (r: String)
    ensures
        r@ == patch_rpr_s(inner@, ov@),
{
    let mut s = inner.to_string();
    if ov.font.is_some() {
        s = replace(s.as_str(), "rFonts", fonts_xml(&ov.font).as_str());
    }
    if let Some(b) = ov.bold {
        let new = if b {
            "<w:b/>"
        } else {
            "<w:b w:val=\"false\"/>"
        };
        s = replace(s.as_str(), "b", new);
    }
    if let Some(i) = ov.italic {
        let new = if i {
            "<w:i/>"
        } else {
            "<w:i w:val=\"false\"/>"
        };
        s = replace(s.as_str(), "i", new);
    }
    if let Some(n) = ov.size {
        s = drop_style_element(s.as_str(), "sz");
        s = replace(s.as_str(), "szCs", size_xml(Some(n as i64)).as_str());
    }
    if let Some(c) = &ov.color {
        s = replace(
            s.as_str(),
            "color",
            esc_piece("<w:color w:val=\"", c.as_str(), "\"/>").as_str(),
        );
    }
    if let Some(h) = &ov.highlight {
        s = replace(
            s.as_str(),
            "highlight",
            esc_piece("<w:highlight w:val=\"", h.as_str(), "\"/>").as_str(),
        );
    }
    s
}

/// The paragraph properties with the override's set fields put in. Spacing is patched attribute
/// by attribute.
pub open spec fn patch_ppr_s(inner: Seq<char>, ov: StylePropsV) -> Seq<char> {
    let a = if ov.space_before is Some || ov.space_after is Some || ov.line_spacing is Some {
        upsert_spacing_s(inner, ov.space_before, ov.space_after, ov.line_spacing, ov.line_rule)
    } else {
        inner
    };
    let b = match ov.keep_next {
        Some(k) => replace_s(a, "keepNext"@, strs::when_s(k, "<w:keepNext/>"@)),
        None => a,
    };
    let c = match ov.contextual_spacing {
        Some(k) => replace_s(
            b,
            "contextualSpacing"@,
            strs::when_s(k, "<w:contextualSpacing/>"@),
        ),
        None => b,
    };
    let d = match ov.align {
        Some(x) => replace_s(c, "jc"@, paragraph::align_s(Some(x))),
        None => c,
    };
    match ov.page_break_before {
        Some(k) => replace_s(d, "pageBreakBefore"@, strs::when_s(k, "<w:pageBreakBefore/>"@)),
        None => d,
    }
}

fn patch_style_ppr_inner(inner: &str, ov: &StyleProps) -> (r: String)
    ensures
        r@ == patch_ppr_s(inner@, ov@),
{
    let mut s = inner.to_string();
    if ov.space_before.is_some() || ov.space_after.is_some() || ov.line_spacing.is_some() {
        s = upsert_spacing(
            s.as_str(),
            ov.space_before,
            ov.space_after,
            ov.line_spacing,
            ov.line_rule,
        );
    }
    if let Some(k) = ov.keep_next {
        s = replace(s.as_str(), "keepNext", only_if(k, "<w:keepNext/>").as_str());
    }
    if let Some(k) = ov.contextual_spacing {
        s = replace(
            s.as_str(),
            "contextualSpacing",
            only_if(k, "<w:contextualSpacing/>").as_str(),
        );
    }
    if let Some(a) = ov.align {
        s = replace(s.as_str(), "jc", align_xml(Some(a)).as_str());
    }
    if let Some(k) = ov.page_break_before {
        s = replace(s.as_str(), "pageBreakBefore", only_if(k, "<w:pageBreakBefore/>").as_str());
    }
    s
}

// ---------------------------------------------------------------- patching a style

/// The two property sections of a style.
#[derive(Clone, Copy)]
pub enum Section {
    Run,
    Para,
}

pub open spec fn patch_inner_s(which: Section, inner: Seq<char>, ov: StylePropsV) -> Seq<char> {
    match which {
        Section::Run => patch_rpr_s(inner, ov),
        Section::Para => patch_ppr_s(inner, ov),
    }
}

pub open spec fn section_open_s(which: Section) -> Seq<char> {
    match which {
        Section::Run => "<w:rPr>"@,
        Section::Para => "<w:pPr>"@,
    }
}

pub open spec fn section_close_s(which: Section) -> Seq<char> {
    match which {
        Section::Run => "</w:rPr>"@,
        Section::Para => "</w:pPr>"@,
    }
}

pub open spec fn section_empty_s(which: Section) -> Seq<char> {
    match which {
        Section::Run => "<w:rPr/>"@,
        Section::Para => "<w:pPr/>"@,
    }
}

/// Where a new section goes: paragraph properties before run properties, otherwise before the
/// end of the style.
pub open spec fn section_place_s(block: Seq<char>, which: Section) -> int {
    let before_run = match which {
        Section::Run => None,
        Section::Para => match search::find_s(block, "<w:rPr>"@, 0) {
            Some(i) => Some(i),
            None => search::find_s(block, "<w:rPr/>"@, 0),
        },
    };
    match before_run {
        Some(i) => i,
        None => match search::rfind_s(block, "</w:style>"@) {
            Some(i) => i,
            None => block.len() as int,
        },
    }
}

/// The inside of the section, where the block has one with an end.
pub open spec fn section_range_s(block: Seq<char>, which: Section) -> Option<(int, int)> {
    match search::find_s(block, section_open_s(which), 0) {
        Some(s) => {
            let from = s + section_open_s(which).len();
            match search::find_s(block, section_close_s(which), from) {
                Some(to) => Some((from, to)),
                None => None,
            }
        },
        None => None,
    }
}

/// The block with one of its sections patched: in place, a self-closing one expanded, or a new
/// one inserted. Nothing is added for an empty section.
pub open spec fn patch_section_s(block: Seq<char>, which: Section, ov: StylePropsV) -> Seq<char> {
    let fresh = patch_inner_s(which, Seq::empty(), ov);
    match section_range_s(block, which) {
        Some(r) => search::splice_s(
            block,
            r.0,
            patch_inner_s(which, block.subrange(r.0, r.1), ov),
            r.1,
        ),
        None => if fresh.len() == 0 {
            block
        } else {
            let new = section_open_s(which) + fresh + section_close_s(which);
            match search::find_s(block, section_empty_s(which), 0) {
                Some(s) => search::splice_s(block, s, new, s + section_empty_s(which).len()),
                None => search::splice_s(
                    block,
                    section_place_s(block, which),
                    new,
                    section_place_s(block, which),
                ),
            }
        },
    }
}

fn patch_inner(which: Section, inner: &str, ov: &StyleProps) -> (r: String)
    ensures
        r@ == patch_inner_s(which, inner@, ov@),
{
    match which {
        Section::Run => patch_style_rpr_inner(inner, ov),
        Section::Para => patch_style_ppr_inner(inner, ov),
    }
}

fn section_place(v: &Vec<char>, which: Section) -> (r: usize)
    ensures
        r == section_place_s(v@, which),
        r <= v@.len(),
{
    let before_run = match which {
        Section::Run => None,
        Section::Para => match find_at(v, "<w:rPr>", 0) {
            Some(i) => Some(i),
            None => find_at(v, "<w:rPr/>", 0),
        },
    };
    match before_run {
        Some(i) => i,
        None => match rfind_at(v, "</w:style>") {
            Some(i) => i,
            None => v.len(),
        },
    }
}

fn patch_style_section(block: &str, which: Section, ov: &StyleProps) -> (r: String)
    ensures
        r@ == patch_section_s(block@, which, ov@),
{
    let v = chars_of(block);
    let open = match which {
        Section::Run => "<w:rPr>",
        Section::Para => "<w:pPr>",
    };
    let close = match which {
        Section::Run => "</w:rPr>",
        Section::Para => "</w:pPr>",
    };
    let empty = match which {
        Section::Run => "<w:rPr/>",
        Section::Para => "<w:pPr/>",
    };
    let n = v.len();
    if let Some(s) = find_at(&v, open, 0) {
        let from = s + chars_of(open).len();
        if let Some(to) = find_at(&v, close, from) {
            let inner = patch_inner(which, string_of(&v, from, to).as_str(), ov);
            return splice(&v, from, inner.as_str(), to);
        }
    }
    let nothing = String::new();
    assert(nothing@ =~= Seq::empty());
    let fresh = patch_inner(which, nothing.as_str(), ov);
    if fresh.as_str().unicode_len() == 0 {
        return block.to_string();
    }
    let mut new = open.to_string();
    new.append(fresh.as_str());
    new.append(close);
    match find_at(&v, empty, 0) {
        Some(s) => splice(&v, s, new.as_str(), s + chars_of(empty).len()),
        None => {
            let at = section_place(&v, which);
            splice(&v, at, new.as_str(), at)
        },
    }
}

/// The attribute that defines a style.
pub open spec fn defining_s(id: Seq<char>) -> Seq<char> {
    "w:styleId=\""@ + id + "\""@
}

fn defining(id: &str) -> (r: String)
    ensures
        r@ == defining_s(id@),
{
    let mut s = "w:styleId=\"".to_string();
    s.append(id);
    s.append("\"");
    s
}

/// The span of the element that defines style `id`.
pub open spec fn locate_s(src: Seq<char>, id: Seq<char>) -> Option<(int, int)> {
    match search::find_s(src, defining_s(id), 0) {
        Some(at) => match search::rfind_s(src.subrange(0, at), "<w:style "@) {
            Some(start) => match search::find_s(src, "</w:style>"@, start) {
                Some(end) => Some((start, end + "</w:style>"@.len())),
                None => None,
            },
            None => None,
        },
        None => None,
    }
}

fn locate_style_block(v: &Vec<char>, id: &str) -> (r: Option<(usize, usize)>)
    ensures
        match r {
            Some(p) => locate_s(v@, id@) == Some((p.0 as int, p.1 as int)) && p.0 <= p.1 <= v@.len(),
            None => locate_s(v@, id@) is None,
        },
{
    let n = v.len();
    match find_at(v, defining(id).as_str(), 0) {
        Some(at) => {
            let head = chars_of(string_of(v, 0, at).as_str());
            match rfind_at(&head, "<w:style ") {
                Some(start) => match find_at(v, "</w:style>", start) {
                    Some(end) => Some((start, end + chars_of("</w:style>").len())),
                    None => None,
                },
                None => None,
            }
        },
        None => None,
    }
}

pub open spec fn touches_run_s(ov: StylePropsV) -> bool {
    ov.font is Some || ov.bold is Some || ov.italic is Some || ov.size is Some || ov.color is Some
        || ov.highlight is Some
}

pub open spec fn touches_para_s(ov: StylePropsV) -> bool {
    ov.space_before is Some || ov.space_after is Some || ov.line_spacing is Some || ov.keep_next
        is Some || ov.contextual_spacing is Some || ov.align is Some || ov.page_break_before is Some
}

/// The style element with the override put in.
pub open spec fn patch_block_s(block: Seq<char>, ov: StylePropsV) -> Seq<char> {
    let a = if touches_run_s(ov) {
        patch_section_s(block, Section::Run, ov)
    } else {
        block
    };
    if touches_para_s(ov) {
        patch_section_s(a, Section::Para, ov)
    } else {
        a
    }
}

/// The part with style `id` patched; unchanged where the part does not define it.
pub open spec fn patch_style_s(src: Seq<char>, id: Seq<char>, ov: StylePropsV) -> Seq<char> {
    match locate_s(src, id) {
        Some(r) => search::splice_s(src, r.0, patch_block_s(src.subrange(r.0, r.1), ov), r.1),
        None => src,
    }
}

fn patch_one_style_block(src: &str, id: &str, ov: &StyleProps) -> (r: String)
    ensures
        r@ == patch_style_s(src@, id@, ov@),
{
    let v = chars_of(src);
    match locate_style_block(&v, id) {
        Some(p) => {
            let mut block = string_of(&v, p.0, p.1);
            if ov.font.is_some() || ov.bold.is_some() || ov.italic.is_some() || ov.size.is_some()
                || ov.color.is_some() || ov.highlight.is_some() {
                block = patch_style_section(block.as_str(), Section::Run, ov);
            }
            if ov.space_before.is_some() || ov.space_after.is_some() || ov.line_spacing.is_some()
                || ov.keep_next.is_some() || ov.contextual_spacing.is_some() || ov.align.is_some()
                || ov.page_break_before.is_some() {
                block = patch_style_section(block.as_str(), Section::Para, ov);
            }
            splice(&v, p.0, block.as_str(), p.1)
        },
        None => src.to_string(),
    }
}

/// The part with the first `n` overrides put in.
pub open spec fn patched_s(
    src: Seq<char>,
    overrides: Seq<(Seq<char>, StylePropsV)>,
    n: nat,
) -> Seq<char>
    decreases n,
{
    if n == 0 {
        src
    } else {
        patch_style_s(
            patched_s(src, overrides, (n - 1) as nat),
            overrides[n - 1].0,
            overrides[n - 1].1,
        )
    }
}

fn patch_overridden_style_blocks(src: &str, overrides: &StrMap<StyleProps>) -> (r: String)
    ensures
        r@ == patched_s(src@, overrides@, overrides@.len()),
{
    let mut out = src.to_string();
    let n = overrides.len();
    let mut i: usize = 0;
    while i < n
        invariant
            i <= n == overrides@.len(),
            out@ == patched_s(src@, overrides@, i as nat),
        decreases n - i,
    {
        out = patch_one_style_block(out.as_str(), overrides.key_at(i), overrides.value_at(i));
        i = i + 1;
    }
    out
}

// ---------------------------------------------------------------- merging

/// Whether the part defines style `id`.
pub open spec fn defines_s(src: Seq<char>, id: Seq<char>) -> bool {
    search::contains_s(src, defining_s(id))
}

/// The built-in styles among the first `n` that the part lacks, as the table has them.
pub open spec fn missing_quick_s(src: Seq<char>, t: StyleTableV, n: nat) -> Seq<char>
    decreases n,
{
    if n == 0 {
        Seq::empty()
    } else {
        let q = styles::canonical_s()[n - 1];
        missing_quick_s(src, t, (n - 1) as nat) + if defines_s(src, q.id) {
            Seq::empty()
        } else {
            style_block_s(
                q.id,
                q.name,
                q.based_on,
                match strmap::get_s(t.by_id, q.id) {
                    Some(p) => p,
                    None => q.props,
                },
                true,
            )
        }
    }
}

/// The gallery's own styles among the first `n` that the part lacks.
pub open spec fn missing_own_s(src: Seq<char>, t: StyleTableV, n: nat) -> Seq<char>
    decreases n,
{
    if n == 0 {
        Seq::empty()
    } else {
        let id = t.gallery[n - 1];
        missing_own_s(src, t, (n - 1) as nat) + if styles::canonical_ids_s().contains(id)
            || defines_s(src, id) {
            Seq::empty()
        } else {
            table_block_s(t, id, true)
        }
    }
}

/// An imported part reconciled with the live table: the overrides are put into the styles it
/// defines, and before its end come the built-in styles and the gallery's own styles that it
/// lacks.
pub open spec fn merge_styles_s(
    src: Seq<char>,
    t: StyleTableV,
    overrides: Seq<(Seq<char>, StylePropsV)>,
) -> Seq<char> {
    let p = patched_s(src, overrides, overrides.len());
    match search::rfind_s(p, "</w:styles>"@) {
        Some(at) => search::splice_s(
            p,
            at,
            missing_quick_s(p, t, styles::canonical_s().len()) + missing_own_s(
                p,
                t,
                t.gallery.len(),
            ),
            at,
        ),
        None => p,
    }
}

fn missing_quick(src: &str, t: &StyleTable) -> (r: String)
    ensures
        r@ == missing_quick_s(src@, t@, styles::canonical_s().len()),
{
    let quick = canonical_styles();
    let ghost q = styles::quick_vs(quick@);
    let mut add = String::new();
    let mut i: usize = 0;
    assert(add@ =~= Seq::empty());
    while i < quick.len()
        invariant
            i <= quick@.len(),
            q == styles::quick_vs(quick@),
            q == styles::canonical_s(),
            add@ == missing_quick_s(src@, t@, i as nat),
        decreases quick@.len() - i,
    {
        assert(q[i as int] == quick@[i as int]@);
        let s = &quick[i];
        let ghost was = add@;
        if !contains_str(src, defining(s.id).as_str()) {
            let parent = match s.based_on {
                Some(b) => Some(b.to_string()),
                None => None,
            };
            let block = match t.by_id.get(s.id) {
                Some(p) => style_block(s.id, s.name, &parent, p, true),
                None => style_block(s.id, s.name, &parent, &s.props, true),
            };
            add.append(block.as_str());
        } else {
            assert(was + Seq::<char>::empty() =~= was);
        }
        i = i + 1;
    }
    add
}

fn is_quick(id: &str) -> (r: bool)
    ensures
        r == styles::canonical_ids_s().contains(id@),
{
    let quick = canonical_styles();
    let ghost ids = styles::canonical_ids_s();
    let ghost q = styles::quick_vs(quick@);
    let mut i: usize = 0;
    while i < quick.len()
        invariant
            i <= quick@.len(),
            q == styles::quick_vs(quick@),
            q == styles::canonical_s(),
            ids == styles::canonical_ids_s(),
            forall|j: int| 0 <= j < i ==> #[trigger] ids[j] != id@,
        decreases quick@.len() - i,
    {
        assert(q[i as int] == quick@[i as int]@);
        if strs::str_eq(quick[i].id, id) {
            assert(ids[i as int] == id@);
            return true;
        }
        i = i + 1;
    }
    false
}

fn missing_own(src: &str, t: &StyleTable) -> (r: String)
    ensures
        r@ == missing_own_s(src@, t@, t@.gallery.len()),
{
    let ghost g = t@.gallery;
    let mut add = String::new();
    let mut i: usize = 0;
    assert(add@ =~= Seq::empty());
    while i < t.gallery.len()
        invariant
            i <= t.gallery@.len(),
            g == t@.gallery,
            add@ == missing_own_s(src@, t@, i as nat),
        decreases t.gallery@.len() - i,
    {
        assert(g[i as int] == t.gallery@[i as int]@);
        let id = t.gallery[i].as_str();
        let ghost was = add@;
        if !(is_quick(id) || contains_str(src, defining(id).as_str())) {
            add.append(table_block(t, id, true).as_str());
        } else {
            assert(was + Seq::<char>::empty() =~= was);
        }
        i = i + 1;
    }
    add
}

/// Reconcile an imported `styles.xml` with the live table.
pub fn merge_styles_into_xml(src: &str, table: &StyleTable, overrides: &StrMap<StyleProps>) -> (r:
    String)
    ensures
        r@ == merge_styles_s(src@, table@, overrides@),
{
    let patched = patch_overridden_style_blocks(src, overrides);
    let v = chars_of(patched.as_str());
    match rfind_at(&v, "</w:styles>") {
        Some(at) => {
            let mut add = missing_quick(patched.as_str(), table);
            add.append(missing_own(patched.as_str(), table).as_str());
            splice(&v, at, add.as_str(), at)
        },
        None => patched,
    }
}

} // verus!
