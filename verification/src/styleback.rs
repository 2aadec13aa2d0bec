//! An edit of a style merges with the edits recorded before it and reads back.

use vstd::prelude::*;
use crate::containers;
use crate::doc;
use crate::doc::DocV;
use crate::props;
use crate::readback;
use crate::runs;
use crate::store;
use crate::store::{PropsV, ScalarV};
use crate::style_parse;
use crate::styles;
use crate::styles::{AddedStyleV, StylePropsV};
use crate::types;
use crate::writing::MarkV;

verus! {

broadcast use vstd::string::group_string_axioms;

/// What each entry becomes for an edit of a style.
spec fn edits_s(p: StylePropsV) -> Seq<(Seq<char>, Option<ScalarV>)> {
    seq![
        ("sz"@, containers::int_scalar_s(containers::wide16_s(p.size))),
        ("b"@, containers::flag_scalar_s(p.bold)),
        ("i"@, containers::flag_scalar_s(p.italic)),
        ("color"@, containers::text_scalar_s(p.color)),
        ("hl"@, containers::text_scalar_s(p.highlight)),
        ("font"@, containers::text_scalar_s(p.font)),
        ("line"@, containers::int_scalar_s(containers::wide16_s(p.line_spacing))),
        ("lrule"@, containers::rule_scalar_s(p)),
        ("before"@, containers::int_scalar_s(containers::wide32_s(p.space_before))),
        ("after"@, containers::int_scalar_s(containers::wide32_s(p.space_after))),
        ("numid"@, containers::int_scalar_s(containers::widei_s(p.num_id))),
        ("ilvl"@, containers::int_scalar_s(containers::widei_s(p.num_ilvl))),
        ("keepnext"@, containers::flag_scalar_s(p.keep_next)),
        ("ctxsp"@, containers::flag_scalar_s(p.contextual_spacing)),
        ("align"@, containers::align_scalar_s(p.align)),
        ("pbb"@, containers::flag_scalar_s(p.page_break_before)),
    ]
}

proof fn lemma_fields(m: PropsV, p: StylePropsV)
    ensures
        containers::put_all_s(
            m,
            containers::style_fields_s(p),
            containers::style_fields_s(p).len(),
        ) == props::edited_s(m, edits_s(p), false, 16),
{
    let e = edits_s(p);
    let v0 = Seq::<MarkV>::empty();
    assert(containers::put_all_s(m, v0, 0) == m);
    assert(props::edited_s(m, e, false, 0) == m);
    let v1 = containers::add_s(v0, "sz"@, containers::int_scalar_s(containers::wide16_s(p.size)));
    containers::lemma_add(m, v0, "sz"@, containers::int_scalar_s(containers::wide16_s(p.size)));
    assert(e[0] == ("sz"@, containers::int_scalar_s(containers::wide16_s(p.size))));
    assert(containers::put_all_s(m, v1, v1.len()) == props::edited_s(m, e, false, 1));
    let v2 = containers::add_s(v1, "b"@, containers::flag_scalar_s(p.bold));
    containers::lemma_add(m, v1, "b"@, containers::flag_scalar_s(p.bold));
    assert(e[1] == ("b"@, containers::flag_scalar_s(p.bold)));
    assert(containers::put_all_s(m, v2, v2.len()) == props::edited_s(m, e, false, 2));
    let v3 = containers::add_s(v2, "i"@, containers::flag_scalar_s(p.italic));
    containers::lemma_add(m, v2, "i"@, containers::flag_scalar_s(p.italic));
    assert(e[2] == ("i"@, containers::flag_scalar_s(p.italic)));
    assert(containers::put_all_s(m, v3, v3.len()) == props::edited_s(m, e, false, 3));
    let v4 = containers::add_s(v3, "color"@, containers::text_scalar_s(p.color));
    containers::lemma_add(m, v3, "color"@, containers::text_scalar_s(p.color));
    assert(e[3] == ("color"@, containers::text_scalar_s(p.color)));
    assert(containers::put_all_s(m, v4, v4.len()) == props::edited_s(m, e, false, 4));
    let v5 = containers::add_s(v4, "hl"@, containers::text_scalar_s(p.highlight));
    containers::lemma_add(m, v4, "hl"@, containers::text_scalar_s(p.highlight));
    assert(e[4] == ("hl"@, containers::text_scalar_s(p.highlight)));
    assert(containers::put_all_s(m, v5, v5.len()) == props::edited_s(m, e, false, 5));
    let v6 = containers::add_s(v5, "font"@, containers::text_scalar_s(p.font));
    containers::lemma_add(m, v5, "font"@, containers::text_scalar_s(p.font));
    assert(e[5] == ("font"@, containers::text_scalar_s(p.font)));
    assert(containers::put_all_s(m, v6, v6.len()) == props::edited_s(m, e, false, 6));
    let v7 = containers::add_s(v6, "line"@, containers::int_scalar_s(containers::wide16_s(p.line_spacing)));
    containers::lemma_add(m, v6, "line"@, containers::int_scalar_s(containers::wide16_s(p.line_spacing)));
    assert(e[6] == ("line"@, containers::int_scalar_s(containers::wide16_s(p.line_spacing))));
    assert(containers::put_all_s(m, v7, v7.len()) == props::edited_s(m, e, false, 7));
    let v8 = containers::add_s(v7, "lrule"@, containers::rule_scalar_s(p));
    containers::lemma_add(m, v7, "lrule"@, containers::rule_scalar_s(p));
    assert(e[7] == ("lrule"@, containers::rule_scalar_s(p)));
    assert(containers::put_all_s(m, v8, v8.len()) == props::edited_s(m, e, false, 8));
    let v9 = containers::add_s(v8, "before"@, containers::int_scalar_s(containers::wide32_s(p.space_before)));
    containers::lemma_add(m, v8, "before"@, containers::int_scalar_s(containers::wide32_s(p.space_before)));
    assert(e[8] == ("before"@, containers::int_scalar_s(containers::wide32_s(p.space_before))));
    assert(containers::put_all_s(m, v9, v9.len()) == props::edited_s(m, e, false, 9));
    let v10 = containers::add_s(v9, "after"@, containers::int_scalar_s(containers::wide32_s(p.space_after)));
    containers::lemma_add(m, v9, "after"@, containers::int_scalar_s(containers::wide32_s(p.space_after)));
    assert(e[9] == ("after"@, containers::int_scalar_s(containers::wide32_s(p.space_after))));
    assert(containers::put_all_s(m, v10, v10.len()) == props::edited_s(m, e, false, 10));
    let v11 = containers::add_s(v10, "numid"@, containers::int_scalar_s(containers::widei_s(p.num_id)));
    containers::lemma_add(m, v10, "numid"@, containers::int_scalar_s(containers::widei_s(p.num_id)));
    assert(e[10] == ("numid"@, containers::int_scalar_s(containers::widei_s(p.num_id))));
    assert(containers::put_all_s(m, v11, v11.len()) == props::edited_s(m, e, false, 11));
    let v12 = containers::add_s(v11, "ilvl"@, containers::int_scalar_s(containers::widei_s(p.num_ilvl)));
    containers::lemma_add(m, v11, "ilvl"@, containers::int_scalar_s(containers::widei_s(p.num_ilvl)));
    assert(e[11] == ("ilvl"@, containers::int_scalar_s(containers::widei_s(p.num_ilvl))));
    assert(containers::put_all_s(m, v12, v12.len()) == props::edited_s(m, e, false, 12));
    let v13 = containers::add_s(v12, "keepnext"@, containers::flag_scalar_s(p.keep_next));
    containers::lemma_add(m, v12, "keepnext"@, containers::flag_scalar_s(p.keep_next));
    assert(e[12] == ("keepnext"@, containers::flag_scalar_s(p.keep_next)));
    assert(containers::put_all_s(m, v13, v13.len()) == props::edited_s(m, e, false, 13));
    let v14 = containers::add_s(v13, "ctxsp"@, containers::flag_scalar_s(p.contextual_spacing));
    containers::lemma_add(m, v13, "ctxsp"@, containers::flag_scalar_s(p.contextual_spacing));
    assert(e[13] == ("ctxsp"@, containers::flag_scalar_s(p.contextual_spacing)));
    assert(containers::put_all_s(m, v14, v14.len()) == props::edited_s(m, e, false, 14));
    let v15 = containers::add_s(v14, "align"@, containers::align_scalar_s(p.align));
    containers::lemma_add(m, v14, "align"@, containers::align_scalar_s(p.align));
    assert(e[14] == ("align"@, containers::align_scalar_s(p.align)));
    assert(containers::put_all_s(m, v15, v15.len()) == props::edited_s(m, e, false, 15));
    let v16 = containers::add_s(v15, "pbb"@, containers::flag_scalar_s(p.page_break_before));
    containers::lemma_add(m, v15, "pbb"@, containers::flag_scalar_s(p.page_break_before));
    assert(e[15] == ("pbb"@, containers::flag_scalar_s(p.page_break_before)));
    assert(containers::put_all_s(m, v16, v16.len()) == props::edited_s(m, e, false, 16));
    assert(containers::style_fields_s(p) == v16);
}

/// A number that tells the names of the entries apart.
spec fn code_s(k: Seq<char>) -> int {
    k[0] as int + 256 * (k[k.len() - 1] as int) + 65536 * k.len()
}

spec fn code_at_s(i: int) -> int {
    if i == 0 {
        162419
    } else if i == 1 {
        90722
    } else if i == 2 {
        92521
    } else if i == 3 {
        356963
    } else if i == 4 {
        158824
    } else if i == 5 {
        291942
    } else if i == 6 {
        288108
    } else if i == 7 {
        353644
    } else if i == 8 {
        419170
    } else if i == 9 {
        356961
    } else if i == 10 {
        353390
    } else if i == 11 {
        289897
    } else if i == 12 {
        554091
    } else if i == 13 {
        356451
    } else if i == 14 {
        355937
    } else {
        221808
    }
}

proof fn lemma_codes(p: StylePropsV, i: int)
    requires
        0 <= i < 16,
    ensures
        code_s(edits_s(p)[i].0) == code_at_s(i),
{
    let v = edits_s(p);
    reveal_strlit("sz");
    reveal_strlit("b");
    reveal_strlit("i");
    reveal_strlit("color");
    reveal_strlit("hl");
    reveal_strlit("font");
    reveal_strlit("line");
    reveal_strlit("lrule");
    reveal_strlit("before");
    reveal_strlit("after");
    reveal_strlit("numid");
    reveal_strlit("ilvl");
    reveal_strlit("keepnext");
    reveal_strlit("ctxsp");
    reveal_strlit("align");
    reveal_strlit("pbb");
    assert(v[0].0 == "sz"@ && "sz"@.len() == 2 && "sz"@[0] == 's' && "sz"@[1] == 'z');
    assert(v[1].0 == "b"@ && "b"@.len() == 1 && "b"@[0] == 'b' && "b"@[0] == 'b');
    assert(v[2].0 == "i"@ && "i"@.len() == 1 && "i"@[0] == 'i' && "i"@[0] == 'i');
    assert(v[3].0 == "color"@ && "color"@.len() == 5 && "color"@[0] == 'c' && "color"@[4] == 'r');
    assert(v[4].0 == "hl"@ && "hl"@.len() == 2 && "hl"@[0] == 'h' && "hl"@[1] == 'l');
    assert(v[5].0 == "font"@ && "font"@.len() == 4 && "font"@[0] == 'f' && "font"@[3] == 't');
    assert(v[6].0 == "line"@ && "line"@.len() == 4 && "line"@[0] == 'l' && "line"@[3] == 'e');
    assert(v[7].0 == "lrule"@ && "lrule"@.len() == 5 && "lrule"@[0] == 'l' && "lrule"@[4] == 'e');
    assert(v[8].0 == "before"@ && "before"@.len() == 6 && "before"@[0] == 'b' && "before"@[5] == 'e');
    assert(v[9].0 == "after"@ && "after"@.len() == 5 && "after"@[0] == 'a' && "after"@[4] == 'r');
    assert(v[10].0 == "numid"@ && "numid"@.len() == 5 && "numid"@[0] == 'n' && "numid"@[4] == 'd');
    assert(v[11].0 == "ilvl"@ && "ilvl"@.len() == 4 && "ilvl"@[0] == 'i' && "ilvl"@[3] == 'l');
    assert(v[12].0 == "keepnext"@ && "keepnext"@.len() == 8 && "keepnext"@[0] == 'k' && "keepnext"@[7] == 't');
    assert(v[13].0 == "ctxsp"@ && "ctxsp"@.len() == 5 && "ctxsp"@[0] == 'c' && "ctxsp"@[4] == 'p');
    assert(v[14].0 == "align"@ && "align"@.len() == 5 && "align"@[0] == 'a' && "align"@[4] == 'n');
    assert(v[15].0 == "pbb"@ && "pbb"@.len() == 3 && "pbb"@[0] == 'p' && "pbb"@[2] == 'b');
}

/// An entry after an edit: what the edit sets, or what was there.
proof fn lemma_entry(m: PropsV, p: StylePropsV, i: int)
    requires
        0 <= i < 16,
    ensures
        store::prop_s(props::edited_s(m, edits_s(p), false, 16), edits_s(p)[i].0) == later_s(
            store::prop_s(m, edits_s(p)[i].0),
            edits_s(p)[i].1,
        ),
{
    let v = edits_s(p);
    assert forall|j: int| 0 <= j < v.len() && j != i implies (#[trigger] v[j]).0 != v[i].0 by {
        lemma_codes(p, i);
        lemma_codes(p, j);
    }
    readback::lemma_edited(m, v, false, i, 16);
}

spec fn later_s(a: Option<ScalarV>, b: Option<ScalarV>) -> Option<ScalarV> {
    match b {
        Some(_) => b,
        None => a,
    }
}

/// Whether the entries `w` are those of `m` after an edit.
spec fn merged_s(m: PropsV, p: StylePropsV, w: PropsV) -> bool {
    &&& store::prop_s(w, "sz"@) == later_s(store::prop_s(m, "sz"@), containers::int_scalar_s(containers::wide16_s(p.size)))
    &&& store::prop_s(w, "b"@) == later_s(store::prop_s(m, "b"@), containers::flag_scalar_s(p.bold))
    &&& store::prop_s(w, "i"@) == later_s(store::prop_s(m, "i"@), containers::flag_scalar_s(p.italic))
    &&& store::prop_s(w, "color"@) == later_s(store::prop_s(m, "color"@), containers::text_scalar_s(p.color))
    &&& store::prop_s(w, "hl"@) == later_s(store::prop_s(m, "hl"@), containers::text_scalar_s(p.highlight))
    &&& store::prop_s(w, "font"@) == later_s(store::prop_s(m, "font"@), containers::text_scalar_s(p.font))
    &&& store::prop_s(w, "line"@) == later_s(store::prop_s(m, "line"@), containers::int_scalar_s(containers::wide16_s(p.line_spacing)))
    &&& store::prop_s(w, "lrule"@) == later_s(store::prop_s(m, "lrule"@), containers::rule_scalar_s(p))
    &&& store::prop_s(w, "before"@) == later_s(store::prop_s(m, "before"@), containers::int_scalar_s(containers::wide32_s(p.space_before)))
    &&& store::prop_s(w, "after"@) == later_s(store::prop_s(m, "after"@), containers::int_scalar_s(containers::wide32_s(p.space_after)))
    &&& store::prop_s(w, "numid"@) == later_s(store::prop_s(m, "numid"@), containers::int_scalar_s(containers::widei_s(p.num_id)))
    &&& store::prop_s(w, "ilvl"@) == later_s(store::prop_s(m, "ilvl"@), containers::int_scalar_s(containers::widei_s(p.num_ilvl)))
    &&& store::prop_s(w, "keepnext"@) == later_s(store::prop_s(m, "keepnext"@), containers::flag_scalar_s(p.keep_next))
    &&& store::prop_s(w, "ctxsp"@) == later_s(store::prop_s(m, "ctxsp"@), containers::flag_scalar_s(p.contextual_spacing))
    &&& store::prop_s(w, "align"@) == later_s(store::prop_s(m, "align"@), containers::align_scalar_s(p.align))
    &&& store::prop_s(w, "pbb"@) == later_s(store::prop_s(m, "pbb"@), containers::flag_scalar_s(p.page_break_before))
}

proof fn lemma_merged(m: PropsV, p: StylePropsV)
    ensures
        merged_s(m, p, props::edited_s(m, edits_s(p), false, 16)),
{
    let v = edits_s(p);
    lemma_entry(m, p, 0);
    assert(v[0] == ("sz"@, containers::int_scalar_s(containers::wide16_s(p.size))));
    lemma_entry(m, p, 1);
    assert(v[1] == ("b"@, containers::flag_scalar_s(p.bold)));
    lemma_entry(m, p, 2);
    assert(v[2] == ("i"@, containers::flag_scalar_s(p.italic)));
    lemma_entry(m, p, 3);
    assert(v[3] == ("color"@, containers::text_scalar_s(p.color)));
    lemma_entry(m, p, 4);
    assert(v[4] == ("hl"@, containers::text_scalar_s(p.highlight)));
    lemma_entry(m, p, 5);
    assert(v[5] == ("font"@, containers::text_scalar_s(p.font)));
    lemma_entry(m, p, 6);
    assert(v[6] == ("line"@, containers::int_scalar_s(containers::wide16_s(p.line_spacing))));
    lemma_entry(m, p, 7);
    assert(v[7] == ("lrule"@, containers::rule_scalar_s(p)));
    lemma_entry(m, p, 8);
    assert(v[8] == ("before"@, containers::int_scalar_s(containers::wide32_s(p.space_before))));
    lemma_entry(m, p, 9);
    assert(v[9] == ("after"@, containers::int_scalar_s(containers::wide32_s(p.space_after))));
    lemma_entry(m, p, 10);
    assert(v[10] == ("numid"@, containers::int_scalar_s(containers::widei_s(p.num_id))));
    lemma_entry(m, p, 11);
    assert(v[11] == ("ilvl"@, containers::int_scalar_s(containers::widei_s(p.num_ilvl))));
    lemma_entry(m, p, 12);
    assert(v[12] == ("keepnext"@, containers::flag_scalar_s(p.keep_next)));
    lemma_entry(m, p, 13);
    assert(v[13] == ("ctxsp"@, containers::flag_scalar_s(p.contextual_spacing)));
    lemma_entry(m, p, 14);
    assert(v[14] == ("align"@, containers::align_scalar_s(p.align)));
    lemma_entry(m, p, 15);
    assert(v[15] == ("pbb"@, containers::flag_scalar_s(p.page_break_before)));
}

/// A style's recorded properties after an edit: what the edit sets replaces what was recorded,
/// and the rest stays. The line rule goes with the line spacing.
pub open spec fn merged_style_s(old: StylePropsV, p: StylePropsV) -> StylePropsV {
    StylePropsV {
        size: styles::later_s(old.size, p.size),
        bold: styles::later_s(old.bold, p.bold),
        italic: styles::later_s(old.italic, p.italic),
        color: styles::later_s(old.color, p.color),
        highlight: styles::later_s(old.highlight, p.highlight),
        font: styles::later_s(old.font, p.font),
        line_spacing: styles::later_s(old.line_spacing, p.line_spacing),
        line_rule: if p.line_spacing is Some {
            p.line_rule
        } else {
            old.line_rule
        },
        space_before: styles::later_s(old.space_before, p.space_before),
        space_after: styles::later_s(old.space_after, p.space_after),
        num_id: styles::later_s(old.num_id, p.num_id),
        num_ilvl: styles::later_s(old.num_ilvl, p.num_ilvl),
        keep_next: styles::later_s(old.keep_next, p.keep_next),
        contextual_spacing: styles::later_s(old.contextual_spacing, p.contextual_spacing),
        align: styles::later_s(old.align, p.align),
        page_break_before: styles::later_s(old.page_break_before, p.page_break_before),
        ..old
    }
}

proof fn lemma_words(m: PropsV, p: StylePropsV, w: PropsV)
    requires
        merged_s(m, p, w),
    ensures
        containers::style_props_s(w).line_rule == merged_style_s(
            containers::style_props_s(m),
            p,
        ).line_rule,
        containers::style_props_s(w).align == merged_style_s(
            containers::style_props_s(m),
            p,
        ).align,
{
    if p.align is Some {
        types::law_align_tokens_read_back(p.align->0);
    }
    if p.line_rule is Some {
        types::law_line_rule_tokens_read_back(p.line_rule->0);
    }
    reveal_strlit("auto");
    reveal_strlit("atLeast");
    reveal_strlit("exact");
    reveal_strlit("exactly");
    assert("auto"@.len() == 4 && "atLeast"@.len() == 7 && "exact"@.len() == 5 && "exactly"@.len()
        == 7);
    assert(style_parse::line_rule_s(Some("auto"@)) is None);
}

proof fn lemma_merged_reads(m: PropsV, p: StylePropsV, w: PropsV)
    requires
        merged_s(m, p, w),
    ensures
        containers::style_props_s(w) == merged_style_s(containers::style_props_s(m), p),
{
    lemma_words(m, p, w);
    let r = containers::style_props_s(w);
    let s = merged_style_s(containers::style_props_s(m), p);
    assert(r.size == s.size && r.line_spacing == s.line_spacing);
    assert(r.bold == s.bold && r.italic == s.italic && r.keep_next == s.keep_next
        && r.contextual_spacing == s.contextual_spacing && r.page_break_before
        == s.page_break_before);
    assert(r.color == s.color && r.highlight == s.highlight && r.font == s.font);
    assert(r.space_before == s.space_before && r.space_after == s.space_after);
    assert(r.num_id == s.num_id && r.num_ilvl == s.num_ilvl);
    assert(r =~= s);
}

/// The document after an edit of style `id`.
pub open spec fn style_edited_s(d: DocV, id: Seq<char>, p: StylePropsV) -> DocV {
    doc::inner_kept_s(
        d,
        store::STYLE_OVERRIDES@,
        id,
        containers::put_all_s(
            store::inner_s(d.s.nested[store::STYLE_OVERRIDES@], id),
            containers::style_fields_s(p),
            containers::style_fields_s(p).len(),
        ),
    )
}

/// The recorded edits of style `id`; none where there are none.
pub open spec fn recorded_s(d: DocV, id: Seq<char>) -> StylePropsV {
    containers::style_props_s(store::inner_s(d.s.nested[store::STYLE_OVERRIDES@], id))
}

/// An edit of a style merges with the edits recorded before it, and reads back; the edits of other
/// styles are left alone.
pub proof fn law_style_edits_merge(d: DocV, id: Seq<char>, p: StylePropsV, other: Seq<char>)
    ensures
        containers::holds_inner_s(style_edited_s(d, id, p), store::STYLE_OVERRIDES@, id),
        recorded_s(style_edited_s(d, id, p), id) == merged_style_s(recorded_s(d, id), p),
        other != id ==> containers::holds_inner_s(
            style_edited_s(d, id, p),
            store::STYLE_OVERRIDES@,
            other,
        ) == containers::holds_inner_s(d, store::STYLE_OVERRIDES@, other) && recorded_s(
            style_edited_s(d, id, p),
            other,
        ) == recorded_s(d, other),
{
    let m = store::inner_s(d.s.nested[store::STYLE_OVERRIDES@], id);
    lemma_fields(m, p);
    lemma_merged(m, p);
    lemma_merged_reads(m, p, props::edited_s(m, edits_s(p), false, 16));
}

/// A style that is added reads back with its name and, where it has one, its base.
pub proof fn law_added_style_reads_back(m: PropsV, name: Seq<char>, based_on: Option<Seq<char>>)
    ensures
        ({
            let v = containers::added_fields_s(name, based_on);
            let w = containers::put_all_s(m, v, v.len());
            containers::added_style_s(w) == Some(
                AddedStyleV {
                    name,
                    based_on: match based_on {
                        Some(_) => based_on,
                        None => runs::text_prop_s(m, "basedOn"@),
                    },
                },
            )
        }),
{
    let v0 = Seq::<MarkV>::empty();
    let a = Some(ScalarV::Text(name));
    let v1 = containers::add_s(v0, "name"@, a);
    let b = containers::text_scalar_s(based_on);
    containers::lemma_add(m, v0, "name"@, a);
    containers::lemma_add(m, v1, "basedOn"@, b);
    reveal_strlit("name");
    reveal_strlit("basedOn");
    assert("name"@.len() == 4 && "basedOn"@.len() == 7);
    assert(containers::put_all_s(m, v0, 0) == m);
}

} // verus!
