//! What is written of a paragraph reads back.

use vstd::prelude::*;
use crate::formatting;
use crate::json;
use crate::json::{JsonV, MembersV};
use crate::props;
use crate::read;
use crate::revisions;
use crate::runs;
use crate::search;
use crate::store;
use crate::store::{PropsV, ScalarV};
use crate::strs;
use crate::style_parse;
use crate::types;
use crate::types::{ParaPropChangeV, ParaPropsV, ParagraphV};
use crate::writing;

verus! {

broadcast use vstd::string::group_string_axioms;

// ---------------------------------------------------------------- lists kept as text

/// Whether a text does not hold a character.
pub open spec fn without_s(s: Seq<char>, c: char) -> bool {
    forall|i: int| 0 <= i < s.len() ==> s[i] != c
}

proof fn lemma_split_tail(s: Seq<char>, t: Seq<char>, sep: char)
    requires
        without_s(t, sep),
    ensures
        search::split_s(s + t, sep) == search::split_s(s, sep).drop_last().push(
            search::split_s(s, sep).last() + t,
        ),
    decreases t.len(),
{
    let done = search::split_s(s, sep);
    search::lemma_split_nonempty(s, sep);
    if t.len() == 0 {
        assert(s + t =~= s);
        assert(done.last() + t =~= done.last());
        assert(done.drop_last().push(done.last()) =~= done);
    } else {
        let u = t.drop_last();
        assert forall|i: int| 0 <= i < u.len() implies u[i] != sep by {
            assert(u[i] == t[i]);
        }
        lemma_split_tail(s, u, sep);
        assert((s + t).drop_last() =~= s + u);
        assert((s + t).last() == t.last());
        assert(t[t.len() - 1] != sep);
        let before = search::split_s(s + u, sep);
        assert(before.drop_last() =~= done.drop_last());
        assert((done.last() + u).push(t.last()) =~= done.last() + t);
    }
}

/// Splitting what was joined gives the pieces back.
pub(crate) proof fn lemma_split_join(v: Seq<Seq<char>>, sep: char, n: nat)
    requires
        0 < n <= v.len(),
        forall|i: int| 0 <= i < v.len() ==> without_s(#[trigger] v[i], sep),
    ensures
        search::split_s(style_parse::join_s(v, seq![sep], n), sep) == v.take(n as int),
    decreases n,
{
    let none = Seq::<char>::empty();
    let last = v[n - 1];
    assert(without_s(last, sep));
    if n == 1 {
        lemma_split_tail(none, last, sep);
        assert(none + last =~= last);
        let start = search::split_s(none, sep);
        assert(start == seq![none]);
        assert(start.drop_last() =~= Seq::empty());
        assert(search::split_s(last, sep) =~= v.take(1));
    } else {
        lemma_split_join(v, sep, (n - 1) as nat);
        let head = style_parse::join_s(v, seq![sep], (n - 1) as nat);
        let cut = head + seq![sep];
        assert(cut.drop_last() =~= head);
        assert(search::split_s(cut, sep) == search::split_s(head, sep).push(none));
        lemma_split_tail(cut, last, sep);
        assert(search::split_s(cut, sep).drop_last() =~= v.take(n - 1));
        assert(none + last =~= last);
        assert(v.take(n - 1).push(last) =~= v.take(n as int));
    }
}

pub(crate) proof fn lemma_dec_without(n: nat, c: char)
    requires
        !strs::is_digit_s(c),
    ensures
        without_s(strs::dec_s(n), c),
        strs::dec_s(n).len() > 0,
{
    strs::lemma_dec_reads_back(n);
    assert forall|i: int| 0 <= i < strs::dec_s(n).len() implies strs::dec_s(n)[i] != c by {
        assert(strs::is_digit_s(strs::dec_s(n)[i]));
    }
}

proof fn lemma_tab_tok(stops: Seq<u32>, kinds: Seq<u8>, i: int)
    requires
        0 <= i < stops.len(),
        kinds.len() == stops.len(),
    ensures
        without_s(props::tab_toks_s(stops, kinds)[i], ','),
        props::tab_toks_s(stops, kinds)[i].len() > 0,
        props::stop_pos_s(props::tab_toks_s(stops, kinds)[i]) == Some(stops[i]),
        props::stop_kind_s(props::tab_toks_s(stops, kinds)[i]) == kinds[i],
{
    let tok = props::tab_toks_s(stops, kinds)[i];
    let pos = strs::dec_s(stops[i] as nat);
    let kind = strs::dec_s(kinds[i] as nat);
    reveal_strlit(":");
    assert(":"@ =~= seq![':']);
    lemma_dec_without(stops[i] as nat, ',');
    lemma_dec_without(stops[i] as nat, ':');
    lemma_dec_without(kinds[i] as nat, ',');
    lemma_dec_without(kinds[i] as nat, ':');
    strs::lemma_dec_parses(stops[i] as nat, u32::MAX as nat);
    strs::lemma_dec_parses(kinds[i] as nat, u8::MAX as nat);
    let parts = if kinds[i] != 0 {
        seq![pos, kind]
    } else {
        seq![pos]
    };
    assert forall|j: int| 0 <= j < parts.len() implies without_s(#[trigger] parts[j], ':') by {
        if j == 0 {
            assert(parts[j] == pos);
        } else {
            assert(parts[j] == kind);
        }
    }
    lemma_split_join(parts, ':', parts.len());
    assert(parts.take(parts.len() as int) =~= parts);
    if kinds[i] != 0 {
        assert(style_parse::join_s(parts, seq![':'], 1) == pos);
        assert(style_parse::join_s(parts, seq![':'], 2) == pos + seq![':'] + kind);
        assert(tok == pos + ":"@ + kind);
        assert(parts[0] == pos && parts[1] == kind);
    } else {
        assert(style_parse::join_s(parts, seq![':'], 1) == pos);
        assert(tok == pos);
        assert(parts[0] == pos);
    }
}

proof fn lemma_tab_toks(stops: Seq<u32>, kinds: Seq<u8>, n: nat)
    requires
        n <= stops.len(),
        kinds.len() == stops.len(),
    ensures
        props::stops_s(props::tab_toks_s(stops, kinds), n) == stops.take(n as int),
        props::kinds_s(props::tab_toks_s(stops, kinds), n) == kinds.take(n as int),
    decreases n,
{
    if n > 0 {
        lemma_tab_toks(stops, kinds, (n - 1) as nat);
        lemma_tab_tok(stops, kinds, n - 1);
        assert(stops.take(n - 1).push(stops[n - 1]) =~= stops.take(n as int));
        assert(kinds.take(n - 1).push(kinds[n - 1]) =~= kinds.take(n as int));
    } else {
        assert(stops.take(0) =~= Seq::empty());
        assert(kinds.take(0) =~= Seq::empty());
    }
}

/// Tab stops that are kept as text read back, each with its alignment.
pub proof fn law_tab_stops_read_back(stops: Seq<u32>, kinds: Seq<u8>)
    requires
        kinds.len() == stops.len(),
        stops.len() > 0,
    ensures
        props::tabs_text_s(stops, kinds) matches Some(v) && v is Text && props::tab_stops_s(
            Some(v->Text_0),
        ) == stops && props::tab_kinds_s(Some(v->Text_0)) == kinds,
{
    let toks = props::tab_toks_s(stops, kinds);
    reveal_strlit(",");
    assert(","@ =~= seq![',']);
    assert forall|i: int| 0 <= i < toks.len() implies without_s(#[trigger] toks[i], ',') by {
        lemma_tab_tok(stops, kinds, i);
    }
    lemma_split_join(toks, ',', stops.len());
    assert(toks.take(stops.len() as int) =~= toks);
    lemma_tab_toks(stops, kinds, stops.len());
    assert(stops.take(stops.len() as int) =~= stops);
    assert(kinds.take(stops.len() as int) =~= kinds);
}

// ---------------------------------------------------------------- paragraph properties

/// A number that tells the names of properties, members and marks apart.
spec fn code_s(k: Seq<char>) -> int {
    k[0] as int + 256 * (k[k.len() - 1] as int) + 65536 * k.len()
}

proof fn lemma_codes()
    ensures
        code_s("align"@) == 355937,
        code_s("lineSpacing"@) == 747372,
        code_s("lineRule"@) == 550252,
        code_s("spBefore"@) == 550259,
        code_s("spAfter"@) == 488051,
        code_s("indL"@) == 281705,
        code_s("indR"@) == 283241,
        code_s("indFirst"@) == 554089,
        code_s("numId"@) == 353390,
        code_s("ilvl"@) == 289897,
        code_s("shd"@) == 222323,
        code_s("tabs"@) == 291700,
        code_s("keepNext"@) == 554091,
        code_s("ctxSp"@) == 356451,
        code_s("pgBrkBef"@) == 550512,
        code_s("pgBrkAft"@) == 554096,
        code_s("sectEnd"@) == 484467,
        code_s("contSect"@) == 554083,
        code_s("colBrkAft"@) == 619619,
        code_s("frame"@) == 353638,
        code_s("pbdr"@) == 291440,
        code_s("markSz"@) == 424557,
        code_s("sectPr"@) == 422515,
        code_s("style"@) == 353651,
        code_s("text"@) == 291956,
        code_s("ppc"@) == 222064,
        code_s("pmark"@) == 355184,
        code_s("type"@) == 288116,
{
    reveal_strlit("align");
    reveal_strlit("lineSpacing");
    reveal_strlit("lineRule");
    reveal_strlit("spBefore");
    reveal_strlit("spAfter");
    reveal_strlit("indL");
    reveal_strlit("indR");
    reveal_strlit("indFirst");
    reveal_strlit("numId");
    reveal_strlit("ilvl");
    reveal_strlit("shd");
    reveal_strlit("tabs");
    reveal_strlit("keepNext");
    reveal_strlit("ctxSp");
    reveal_strlit("pgBrkBef");
    reveal_strlit("pgBrkAft");
    reveal_strlit("sectEnd");
    reveal_strlit("contSect");
    reveal_strlit("colBrkAft");
    reveal_strlit("frame");
    reveal_strlit("pbdr");
    reveal_strlit("markSz");
    reveal_strlit("sectPr");
    reveal_strlit("style");
    reveal_strlit("text");
    reveal_strlit("ppc");
    reveal_strlit("pmark");
    reveal_strlit("type");
    assert("align"@.len() == 5 && "align"@[0] == 'a' && "align"@[4] == 'n');
    assert("lineSpacing"@.len() == 11 && "lineSpacing"@[0] == 'l' && "lineSpacing"@[10] == 'g');
    assert("lineRule"@.len() == 8 && "lineRule"@[0] == 'l' && "lineRule"@[7] == 'e');
    assert("spBefore"@.len() == 8 && "spBefore"@[0] == 's' && "spBefore"@[7] == 'e');
    assert("spAfter"@.len() == 7 && "spAfter"@[0] == 's' && "spAfter"@[6] == 'r');
    assert("indL"@.len() == 4 && "indL"@[0] == 'i' && "indL"@[3] == 'L');
    assert("indR"@.len() == 4 && "indR"@[0] == 'i' && "indR"@[3] == 'R');
    assert("indFirst"@.len() == 8 && "indFirst"@[0] == 'i' && "indFirst"@[7] == 't');
    assert("numId"@.len() == 5 && "numId"@[0] == 'n' && "numId"@[4] == 'd');
    assert("ilvl"@.len() == 4 && "ilvl"@[0] == 'i' && "ilvl"@[3] == 'l');
    assert("shd"@.len() == 3 && "shd"@[0] == 's' && "shd"@[2] == 'd');
    assert("tabs"@.len() == 4 && "tabs"@[0] == 't' && "tabs"@[3] == 's');
    assert("keepNext"@.len() == 8 && "keepNext"@[0] == 'k' && "keepNext"@[7] == 't');
    assert("ctxSp"@.len() == 5 && "ctxSp"@[0] == 'c' && "ctxSp"@[4] == 'p');
    assert("pgBrkBef"@.len() == 8 && "pgBrkBef"@[0] == 'p' && "pgBrkBef"@[7] == 'f');
    assert("pgBrkAft"@.len() == 8 && "pgBrkAft"@[0] == 'p' && "pgBrkAft"@[7] == 't');
    assert("sectEnd"@.len() == 7 && "sectEnd"@[0] == 's' && "sectEnd"@[6] == 'd');
    assert("contSect"@.len() == 8 && "contSect"@[0] == 'c' && "contSect"@[7] == 't');
    assert("colBrkAft"@.len() == 9 && "colBrkAft"@[0] == 'c' && "colBrkAft"@[8] == 't');
    assert("frame"@.len() == 5 && "frame"@[0] == 'f' && "frame"@[4] == 'e');
    assert("pbdr"@.len() == 4 && "pbdr"@[0] == 'p' && "pbdr"@[3] == 'r');
    assert("markSz"@.len() == 6 && "markSz"@[0] == 'm' && "markSz"@[5] == 'z');
    assert("sectPr"@.len() == 6 && "sectPr"@[0] == 's' && "sectPr"@[5] == 'r');
    assert("style"@.len() == 5 && "style"@[0] == 's' && "style"@[4] == 'e');
    assert("text"@.len() == 4 && "text"@[0] == 't' && "text"@[3] == 't');
    assert("ppc"@.len() == 3 && "ppc"@[0] == 'p' && "ppc"@[2] == 'c');
    assert("pmark"@.len() == 5 && "pmark"@[0] == 'p' && "pmark"@[4] == 'k');
    assert("type"@.len() == 4 && "type"@[0] == 't' && "type"@[3] == 'e');
}

spec fn code_at_s(i: int) -> int {
    if i == 0 {
        355937
    } else if i == 1 {
        747372
    } else if i == 2 {
        550252
    } else if i == 3 {
        550259
    } else if i == 4 {
        488051
    } else if i == 5 {
        281705
    } else if i == 6 {
        283241
    } else if i == 7 {
        554089
    } else if i == 8 {
        353390
    } else if i == 9 {
        289897
    } else if i == 10 {
        222323
    } else if i == 11 {
        291700
    } else if i == 12 {
        554091
    } else if i == 13 {
        356451
    } else if i == 14 {
        550512
    } else if i == 15 {
        554096
    } else if i == 16 {
        484467
    } else if i == 17 {
        554083
    } else if i == 18 {
        619619
    } else if i == 19 {
        353638
    } else if i == 20 {
        291440
    } else if i == 21 {
        424557
    } else {
        422515
    }
}

proof fn lemma_edit_codes(p: ParaPropsV, i: int)
    requires
        0 <= i < 23,
    ensures
        code_s(props::para_edits_s(p)[i].0) == code_at_s(i),
{
    lemma_codes();
    let v = props::para_edits_s(p);
    assert(v[0].0 == "align"@);
    assert(v[1].0 == "lineSpacing"@);
    assert(v[2].0 == "lineRule"@);
    assert(v[3].0 == "spBefore"@);
    assert(v[4].0 == "spAfter"@);
    assert(v[5].0 == "indL"@);
    assert(v[6].0 == "indR"@);
    assert(v[7].0 == "indFirst"@);
    assert(v[8].0 == "numId"@);
    assert(v[9].0 == "ilvl"@);
    assert(v[10].0 == "shd"@);
    assert(v[11].0 == "tabs"@);
    assert(v[12].0 == "keepNext"@);
    assert(v[13].0 == "ctxSp"@);
    assert(v[14].0 == "pgBrkBef"@);
    assert(v[15].0 == "pgBrkAft"@);
    assert(v[16].0 == "sectEnd"@);
    assert(v[17].0 == "contSect"@);
    assert(v[18].0 == "colBrkAft"@);
    assert(v[19].0 == "frame"@);
    assert(v[20].0 == "pbdr"@);
    assert(v[21].0 == "markSz"@);
    assert(v[22].0 == "sectPr"@);
}

proof fn lemma_edits_apart(p: ParaPropsV, i: int, j: int)
    requires
        0 <= i < 23,
        0 <= j < 23,
        i != j,
    ensures
        props::para_edits_s(p)[i].0 != props::para_edits_s(p)[j].0,
{
    lemma_edit_codes(p, i);
    lemma_edit_codes(p, j);
}

/// What the first `n` edits leave of a property that the edits from `i + 1` on do not name.
pub(crate) proof fn lemma_edited(
    m: PropsV,
    v: Seq<(Seq<char>, Option<ScalarV>)>,
    exact: bool,
    i: int,
    n: nat,
)
    requires
        0 <= i < n <= v.len(),
        forall|j: int| 0 <= j < v.len() && j != i ==> (#[trigger] v[j]).0 != v[i].0,
    ensures
        store::prop_s(props::edited_s(m, v, exact, n), v[i].0) == (match v[i].1 {
            Some(x) => Some(x),
            None => if exact {
                None
            } else {
                store::prop_s(m, v[i].0)
            },
        }),
    decreases n,
{
    if n == i + 1 {
        lemma_unedited(m, v, exact, v[i].0, i as nat);
    } else {
        lemma_edited(m, v, exact, i, (n - 1) as nat);
        assert(v[n - 1].0 != v[i].0);
    }
}

/// Edits leave a property alone that they do not name.
proof fn lemma_unedited(
    m: PropsV,
    v: Seq<(Seq<char>, Option<ScalarV>)>,
    exact: bool,
    k: Seq<char>,
    n: nat,
)
    requires
        n <= v.len(),
        forall|j: int| 0 <= j < n ==> (#[trigger] v[j]).0 != k,
    ensures
        store::prop_s(props::edited_s(m, v, exact, n), k) == store::prop_s(m, k),
    decreases n,
{
    if n > 0 {
        lemma_unedited(m, v, exact, k, (n - 1) as nat);
        assert(v[n - 1].0 != k);
    }
}

/// What writing paragraph properties leaves of the property at `i`.
proof fn lemma_prop_written(m: PropsV, p: ParaPropsV, exact: bool, i: int)
    requires
        0 <= i < 23,
    ensures
        store::prop_s(props::with_para_props_s(m, p, exact), props::para_edits_s(p)[i].0) == (
        match props::para_edits_s(p)[i].1 {
            Some(x) => Some(x),
            None => if exact {
                None
            } else {
                store::prop_s(m, props::para_edits_s(p)[i].0)
            },
        }),
{
    let v = props::para_edits_s(p);
    assert(v.len() == 23);
    assert forall|j: int| 0 <= j < v.len() && j != i implies (#[trigger] v[j]).0 != v[i].0 by {
        lemma_edits_apart(p, i, j);
    }
    lemma_edited(m, v, exact, i, v.len());
}

/// Whether none of the paragraph properties is among the properties of a block.
pub open spec fn bare_s(m: PropsV) -> bool {
    forall|i: int|
        0 <= i < 23 ==> !m.contains_key(#[trigger] props::para_edits_s(ParaPropsV::initial())[i].0)
}

/// Whether each tab stop has its alignment.
pub open spec fn tabs_paired_s(p: ParaPropsV) -> bool {
    p.tab_kinds.len() == p.tab_stops.len()
}

/// What the property at `i` is once paragraph properties are written exactly, or to a block that
/// has none.
proof fn lemma_prop_reads(m: PropsV, p: ParaPropsV, exact: bool, i: int)
    requires
        0 <= i < 23,
        exact || bare_s(m),
    ensures
        store::prop_s(props::with_para_props_s(m, p, exact), props::para_edits_s(p)[i].0)
            == props::para_edits_s(p)[i].1,
{
    lemma_prop_written(m, p, exact, i);
    assert(props::para_edits_s(ParaPropsV::initial())[i].0 == props::para_edits_s(p)[i].0) by {
        lemma_same_name(p, i);
    }
}

proof fn lemma_same_name(p: ParaPropsV, i: int)
    requires
        0 <= i < 23,
    ensures
        props::para_edits_s(ParaPropsV::initial())[i].0 == props::para_edits_s(p)[i].0,
{
    let v = props::para_edits_s(p);
    let w = props::para_edits_s(ParaPropsV::initial());
    assert(v[0].0 == w[0].0);
    assert(v[1].0 == w[1].0);
    assert(v[2].0 == w[2].0);
    assert(v[3].0 == w[3].0);
    assert(v[4].0 == w[4].0);
    assert(v[5].0 == w[5].0);
    assert(v[6].0 == w[6].0);
    assert(v[7].0 == w[7].0);
    assert(v[8].0 == w[8].0);
    assert(v[9].0 == w[9].0);
    assert(v[10].0 == w[10].0);
    assert(v[11].0 == w[11].0);
    assert(v[12].0 == w[12].0);
    assert(v[13].0 == w[13].0);
    assert(v[14].0 == w[14].0);
    assert(v[15].0 == w[15].0);
    assert(v[16].0 == w[16].0);
    assert(v[17].0 == w[17].0);
    assert(v[18].0 == w[18].0);
    assert(v[19].0 == w[19].0);
    assert(v[20].0 == w[20].0);
    assert(v[21].0 == w[21].0);
    assert(v[22].0 == w[22].0);
}

/// Whether a block holds exactly these paragraph properties.
pub open spec fn holds_s(w: PropsV, p: ParaPropsV) -> bool {
    &&& store::prop_s(w, "align"@) == props::align_edit_s(p.align)
    &&& store::prop_s(w, "lineSpacing"@) == props::size_edit_s(p.line_spacing)
    &&& store::prop_s(w, "lineRule"@) == props::rule_edit_s(p.line_rule)
    &&& store::prop_s(w, "spBefore"@) == props::int_edit_s(props::wide_int_s(p.space_before))
    &&& store::prop_s(w, "spAfter"@) == props::int_edit_s(props::wide_int_s(p.space_after))
    &&& store::prop_s(w, "indL"@) == props::int_edit_s(props::signed_int_s(p.indent_left))
    &&& store::prop_s(w, "indR"@) == props::int_edit_s(props::signed_int_s(p.indent_right))
    &&& store::prop_s(w, "indFirst"@) == props::int_edit_s(props::signed_int_s(p.indent_first))
    &&& store::prop_s(w, "numId"@) == props::int_edit_s(props::signed_int_s(p.num_id))
    &&& store::prop_s(w, "ilvl"@) == props::int_edit_s(props::signed_int_s(p.num_ilvl))
    &&& store::prop_s(w, "shd"@) == props::text_edit_s(p.shading)
    &&& store::prop_s(w, "tabs"@) == props::tabs_text_s(p.tab_stops, p.tab_kinds)
    &&& store::prop_s(w, "keepNext"@) == props::flag_edit_s(p.keep_next)
    &&& store::prop_s(w, "ctxSp"@) == props::flag_edit_s(p.contextual_spacing)
    &&& store::prop_s(w, "pgBrkBef"@) == props::set_edit_s(p.page_break_before)
    &&& store::prop_s(w, "pgBrkAft"@) == props::set_edit_s(p.page_break_after)
    &&& store::prop_s(w, "sectEnd"@) == props::set_edit_s(p.section_end)
    &&& store::prop_s(w, "contSect"@) == props::set_edit_s(p.continuous_break)
    &&& store::prop_s(w, "colBrkAft"@) == props::set_edit_s(p.column_break_after)
    &&& store::prop_s(w, "frame"@) == props::text_edit_s(p.frame)
    &&& store::prop_s(w, "pbdr"@) == props::text_edit_s(p.border)
    &&& store::prop_s(w, "markSz"@) == props::int_edit_s(props::wide_int_s(p.mark_size))
    &&& store::prop_s(w, "sectPr"@) == props::text_edit_s(p.sect_pr)
}

proof fn lemma_holds_at(w: PropsV, p: ParaPropsV)
    requires
        forall|i: int|
            0 <= i < 23 ==> store::prop_s(w, (#[trigger] props::para_edits_s(p)[i]).0)
                == props::para_edits_s(p)[i].1,
    ensures
        holds_s(w, p),
{
    let v = props::para_edits_s(p);
    assert(v[0] == ("align"@, props::align_edit_s(p.align)));
    assert(v[1] == ("lineSpacing"@, props::size_edit_s(p.line_spacing)));
    assert(v[2] == ("lineRule"@, props::rule_edit_s(p.line_rule)));
    assert(v[3] == ("spBefore"@, props::int_edit_s(props::wide_int_s(p.space_before))));
    assert(v[4] == ("spAfter"@, props::int_edit_s(props::wide_int_s(p.space_after))));
    assert(v[5] == ("indL"@, props::int_edit_s(props::signed_int_s(p.indent_left))));
    assert(v[6] == ("indR"@, props::int_edit_s(props::signed_int_s(p.indent_right))));
    assert(v[7] == ("indFirst"@, props::int_edit_s(props::signed_int_s(p.indent_first))));
    assert(v[8] == ("numId"@, props::int_edit_s(props::signed_int_s(p.num_id))));
    assert(v[9] == ("ilvl"@, props::int_edit_s(props::signed_int_s(p.num_ilvl))));
    assert(v[10] == ("shd"@, props::text_edit_s(p.shading)));
    assert(v[11] == ("tabs"@, props::tabs_text_s(p.tab_stops, p.tab_kinds)));
    assert(v[12] == ("keepNext"@, props::flag_edit_s(p.keep_next)));
    assert(v[13] == ("ctxSp"@, props::flag_edit_s(p.contextual_spacing)));
    assert(v[14] == ("pgBrkBef"@, props::set_edit_s(p.page_break_before)));
    assert(v[15] == ("pgBrkAft"@, props::set_edit_s(p.page_break_after)));
    assert(v[16] == ("sectEnd"@, props::set_edit_s(p.section_end)));
    assert(v[17] == ("contSect"@, props::set_edit_s(p.continuous_break)));
    assert(v[18] == ("colBrkAft"@, props::set_edit_s(p.column_break_after)));
    assert(v[19] == ("frame"@, props::text_edit_s(p.frame)));
    assert(v[20] == ("pbdr"@, props::text_edit_s(p.border)));
    assert(v[21] == ("markSz"@, props::int_edit_s(props::wide_int_s(p.mark_size))));
    assert(v[22] == ("sectPr"@, props::text_edit_s(p.sect_pr)));
}

proof fn lemma_held_words(
    align: Option<ScalarV>,
    rule: Option<ScalarV>,
    tabs: Option<ScalarV>,
    p: ParaPropsV,
)
    requires
        align == props::align_edit_s(p.align),
        rule == props::rule_edit_s(p.line_rule),
        tabs == props::tabs_text_s(p.tab_stops, p.tab_kinds),
        tabs_paired_s(p),
    ensures
        props::align_of_s(words_s(align)) == p.align,
        style_parse::line_rule_s(words_s(rule)) == p.line_rule,
        props::tab_stops_s(words_s(tabs)) == p.tab_stops,
        props::tab_kinds_s(words_s(tabs)) == p.tab_kinds,
{
    if p.align is Some {
        types::law_align_tokens_read_back(p.align->0);
    }
    if p.line_rule is Some {
        types::law_line_rule_tokens_read_back(p.line_rule->0);
    }
    if p.tab_stops.len() > 0 {
        law_tab_stops_read_back(p.tab_stops, p.tab_kinds);
    } else {
        assert(p.tab_stops =~= Seq::empty());
        assert(p.tab_kinds =~= Seq::empty());
    }
}

/// A value as text.
spec fn words_s(o: Option<ScalarV>) -> Option<Seq<char>> {
    match o {
        Some(ScalarV::Text(s)) => Some(s),
        _ => None,
    }
}

/// A block that holds exactly these paragraph properties is read as having them.
#[verifier::spinoff_prover]
proof fn lemma_held(w: PropsV, p: ParaPropsV)
    requires
        holds_s(w, p),
        tabs_paired_s(p),
    ensures
        props::para_props_s(w) == p,
{
    lemma_held_words(
        store::prop_s(w, "align"@),
        store::prop_s(w, "lineRule"@),
        store::prop_s(w, "tabs"@),
        p,
    );
    let r = props::para_props_s(w);
    assert(runs::text_prop_s(w, "align"@) == words_s(store::prop_s(w, "align"@)));
    assert(runs::text_prop_s(w, "lineRule"@) == words_s(store::prop_s(w, "lineRule"@)));
    assert(runs::text_prop_s(w, "tabs"@) == words_s(store::prop_s(w, "tabs"@)));
    assert(r.align == p.align && r.line_rule == p.line_rule && r.tab_stops == p.tab_stops
        && r.tab_kinds == p.tab_kinds);
    assert(r.line_spacing == p.line_spacing && r.space_before == p.space_before && r.space_after
        == p.space_after && r.mark_size == p.mark_size);
    assert(r.indent_left == p.indent_left && r.indent_right == p.indent_right && r.indent_first
        == p.indent_first && r.num_id == p.num_id && r.num_ilvl == p.num_ilvl);
    assert(r.shading == p.shading && r.frame == p.frame && r.border == p.border && r.sect_pr
        == p.sect_pr);
    assert(r =~= p);
}

/// Paragraph properties that are written exactly, or to a block that has none, read back.
pub proof fn law_paragraph_properties_read_back(m: PropsV, p: ParaPropsV, exact: bool)
    requires
        exact || bare_s(m),
        tabs_paired_s(p),
    ensures
        props::para_props_s(props::with_para_props_s(m, p, exact)) == p,
{
    let w = props::with_para_props_s(m, p, exact);
    assert forall|i: int| 0 <= i < 23 implies store::prop_s(
        w,
        (#[trigger] props::para_edits_s(p)[i]).0,
    ) == props::para_edits_s(p)[i].1 by {
        lemma_prop_reads(m, p, exact, i);
    }
    lemma_holds_at(w, p);
    lemma_held(w, p);
}

// ---------------------------------------------------------------- properties as members

/// The members after the first `n` of these are put, where they are set.
spec fn put_all_s(m: MembersV, v: Seq<(Seq<char>, Option<JsonV>)>, n: nat) -> MembersV
    decreases n,
{
    if n == 0 {
        m
    } else {
        json::put_opt_s(put_all_s(m, v, (n - 1) as nat), v[n - 1].0, v[n - 1].1)
    }
}

proof fn lemma_not_put(m: MembersV, v: Seq<(Seq<char>, Option<JsonV>)>, k: Seq<char>, n: nat)
    requires
        n <= v.len(),
        forall|j: int| 0 <= j < n ==> (#[trigger] v[j]).0 != k,
    ensures
        json::member_s(put_all_s(m, v, n), k) == json::member_s(m, k),
    decreases n,
{
    if n > 0 {
        lemma_not_put(m, v, k, (n - 1) as nat);
        assert(v[n - 1].0 != k);
    }
}

proof fn lemma_put(v: Seq<(Seq<char>, Option<JsonV>)>, i: int, n: nat)
    requires
        0 <= i < n <= v.len(),
        forall|j: int| 0 <= j < v.len() && j != i ==> (#[trigger] v[j]).0 != v[i].0,
    ensures
        json::member_s(put_all_s(Map::empty(), v, n), v[i].0) == v[i].1,
    decreases n,
{
    if n == i + 1 {
        lemma_not_put(Map::empty(), v, v[i].0, i as nat);
    } else {
        lemma_put(v, i, (n - 1) as nat);
        assert(v[n - 1].0 != v[i].0);
    }
}

spec fn para_puts_s(p: ParaPropsV) -> Seq<(Seq<char>, Option<JsonV>)> {
    seq![
        ("align"@, props::align_json_s(p.align)),
        ("ls"@, props::u16_json_s(p.line_spacing)),
        ("lr"@, props::rule_json_s(p.line_rule)),
        ("sb"@, props::u32_json_s(p.space_before)),
        ("sa"@, props::u32_json_s(p.space_after)),
        ("il"@, json::opt_int_s(p.indent_left)),
        ("ir"@, json::opt_int_s(p.indent_right)),
        ("ifst"@, json::opt_int_s(p.indent_first)),
        ("nid"@, json::opt_int_s(p.num_id)),
        ("ilvl"@, json::opt_int_s(p.num_ilvl)),
        ("shd"@, json::opt_text_s(p.shading)),
        ("tabs"@, props::stops_json_s(p.tab_stops)),
        ("tabKinds"@, props::kinds_json_s(p.tab_stops, p.tab_kinds)),
        ("kn"@, json::opt_flag_s(p.keep_next)),
        ("cs"@, json::opt_flag_s(p.contextual_spacing)),
        ("pbb"@, props::set_json_s(p.page_break_before)),
        ("pba"@, props::set_json_s(p.page_break_after)),
        ("colb"@, props::set_json_s(p.column_break_after)),
        ("se"@, props::set_json_s(p.section_end)),
        ("cse"@, props::set_json_s(p.continuous_break)),
        ("frame"@, json::opt_text_s(p.frame)),
        ("pbdr"@, json::opt_text_s(p.border)),
        ("mksz"@, props::u32_json_s(p.mark_size)),
        ("sectPr"@, json::opt_text_s(p.sect_pr)),
    ]
}

proof fn lemma_member_codes()
    ensures
        code_s("align"@) == 355937,
        code_s("ls"@) == 160620,
        code_s("lr"@) == 160364,
        code_s("sb"@) == 156275,
        code_s("sa"@) == 156019,
        code_s("il"@) == 158825,
        code_s("ir"@) == 160361,
        code_s("ifst"@) == 291945,
        code_s("nid"@) == 222318,
        code_s("ilvl"@) == 289897,
        code_s("shd"@) == 222323,
        code_s("tabs"@) == 291700,
        code_s("tabKinds"@) == 553844,
        code_s("kn"@) == 159339,
        code_s("cs"@) == 160611,
        code_s("pbb"@) == 221808,
        code_s("pba"@) == 221552,
        code_s("colb"@) == 287331,
        code_s("se"@) == 157043,
        code_s("cse"@) == 222563,
        code_s("frame"@) == 353638,
        code_s("pbdr"@) == 291440,
        code_s("mksz"@) == 293485,
        code_s("sectPr"@) == 422515,
{
    reveal_strlit("align");
    reveal_strlit("ls");
    reveal_strlit("lr");
    reveal_strlit("sb");
    reveal_strlit("sa");
    reveal_strlit("il");
    reveal_strlit("ir");
    reveal_strlit("ifst");
    reveal_strlit("nid");
    reveal_strlit("ilvl");
    reveal_strlit("shd");
    reveal_strlit("tabs");
    reveal_strlit("tabKinds");
    reveal_strlit("kn");
    reveal_strlit("cs");
    reveal_strlit("pbb");
    reveal_strlit("pba");
    reveal_strlit("colb");
    reveal_strlit("se");
    reveal_strlit("cse");
    reveal_strlit("frame");
    reveal_strlit("pbdr");
    reveal_strlit("mksz");
    reveal_strlit("sectPr");
    assert("align"@.len() == 5 && "align"@[0] == 'a' && "align"@[4] == 'n');
    assert("ls"@.len() == 2 && "ls"@[0] == 'l' && "ls"@[1] == 's');
    assert("lr"@.len() == 2 && "lr"@[0] == 'l' && "lr"@[1] == 'r');
    assert("sb"@.len() == 2 && "sb"@[0] == 's' && "sb"@[1] == 'b');
    assert("sa"@.len() == 2 && "sa"@[0] == 's' && "sa"@[1] == 'a');
    assert("il"@.len() == 2 && "il"@[0] == 'i' && "il"@[1] == 'l');
    assert("ir"@.len() == 2 && "ir"@[0] == 'i' && "ir"@[1] == 'r');
    assert("ifst"@.len() == 4 && "ifst"@[0] == 'i' && "ifst"@[3] == 't');
    assert("nid"@.len() == 3 && "nid"@[0] == 'n' && "nid"@[2] == 'd');
    assert("ilvl"@.len() == 4 && "ilvl"@[0] == 'i' && "ilvl"@[3] == 'l');
    assert("shd"@.len() == 3 && "shd"@[0] == 's' && "shd"@[2] == 'd');
    assert("tabs"@.len() == 4 && "tabs"@[0] == 't' && "tabs"@[3] == 's');
    assert("tabKinds"@.len() == 8 && "tabKinds"@[0] == 't' && "tabKinds"@[7] == 's');
    assert("kn"@.len() == 2 && "kn"@[0] == 'k' && "kn"@[1] == 'n');
    assert("cs"@.len() == 2 && "cs"@[0] == 'c' && "cs"@[1] == 's');
    assert("pbb"@.len() == 3 && "pbb"@[0] == 'p' && "pbb"@[2] == 'b');
    assert("pba"@.len() == 3 && "pba"@[0] == 'p' && "pba"@[2] == 'a');
    assert("colb"@.len() == 4 && "colb"@[0] == 'c' && "colb"@[3] == 'b');
    assert("se"@.len() == 2 && "se"@[0] == 's' && "se"@[1] == 'e');
    assert("cse"@.len() == 3 && "cse"@[0] == 'c' && "cse"@[2] == 'e');
    assert("frame"@.len() == 5 && "frame"@[0] == 'f' && "frame"@[4] == 'e');
    assert("pbdr"@.len() == 4 && "pbdr"@[0] == 'p' && "pbdr"@[3] == 'r');
    assert("mksz"@.len() == 4 && "mksz"@[0] == 'm' && "mksz"@[3] == 'z');
    assert("sectPr"@.len() == 6 && "sectPr"@[0] == 's' && "sectPr"@[5] == 'r');
}

spec fn member_code_s(i: int) -> int {
    if i == 0 {
        355937
    } else if i == 1 {
        160620
    } else if i == 2 {
        160364
    } else if i == 3 {
        156275
    } else if i == 4 {
        156019
    } else if i == 5 {
        158825
    } else if i == 6 {
        160361
    } else if i == 7 {
        291945
    } else if i == 8 {
        222318
    } else if i == 9 {
        289897
    } else if i == 10 {
        222323
    } else if i == 11 {
        291700
    } else if i == 12 {
        553844
    } else if i == 13 {
        159339
    } else if i == 14 {
        160611
    } else if i == 15 {
        221808
    } else if i == 16 {
        221552
    } else if i == 17 {
        287331
    } else if i == 18 {
        157043
    } else if i == 19 {
        222563
    } else if i == 20 {
        353638
    } else if i == 21 {
        291440
    } else if i == 22 {
        293485
    } else {
        422515
    }
}

proof fn lemma_put_codes(p: ParaPropsV, i: int)
    requires
        0 <= i < 24,
    ensures
        code_s(para_puts_s(p)[i].0) == member_code_s(i),
{
    lemma_member_codes();
    let v = para_puts_s(p);
    assert(v[0].0 == "align"@);
    assert(v[1].0 == "ls"@);
    assert(v[2].0 == "lr"@);
    assert(v[3].0 == "sb"@);
    assert(v[4].0 == "sa"@);
    assert(v[5].0 == "il"@);
    assert(v[6].0 == "ir"@);
    assert(v[7].0 == "ifst"@);
    assert(v[8].0 == "nid"@);
    assert(v[9].0 == "ilvl"@);
    assert(v[10].0 == "shd"@);
    assert(v[11].0 == "tabs"@);
    assert(v[12].0 == "tabKinds"@);
    assert(v[13].0 == "kn"@);
    assert(v[14].0 == "cs"@);
    assert(v[15].0 == "pbb"@);
    assert(v[16].0 == "pba"@);
    assert(v[17].0 == "colb"@);
    assert(v[18].0 == "se"@);
    assert(v[19].0 == "cse"@);
    assert(v[20].0 == "frame"@);
    assert(v[21].0 == "pbdr"@);
    assert(v[22].0 == "mksz"@);
    assert(v[23].0 == "sectPr"@);
}

proof fn lemma_all_put(p: ParaPropsV)
    ensures
        props::para_members_s(p) == put_all_s(Map::empty(), para_puts_s(p), 24),
{
    let v = para_puts_s(p);
    let m0: MembersV = Map::empty();
    assert(put_all_s(m0, v, 0) == m0);
    let m1 = json::put_opt_s(m0, "align"@, props::align_json_s(p.align));
    assert(v[0] == ("align"@, props::align_json_s(p.align)));
    assert(put_all_s(m0, v, 1) == m1);
    let m2 = json::put_opt_s(m1, "ls"@, props::u16_json_s(p.line_spacing));
    assert(v[1] == ("ls"@, props::u16_json_s(p.line_spacing)));
    assert(put_all_s(m0, v, 2) == m2);
    let m3 = json::put_opt_s(m2, "lr"@, props::rule_json_s(p.line_rule));
    assert(v[2] == ("lr"@, props::rule_json_s(p.line_rule)));
    assert(put_all_s(m0, v, 3) == m3);
    let m4 = json::put_opt_s(m3, "sb"@, props::u32_json_s(p.space_before));
    assert(v[3] == ("sb"@, props::u32_json_s(p.space_before)));
    assert(put_all_s(m0, v, 4) == m4);
    let m5 = json::put_opt_s(m4, "sa"@, props::u32_json_s(p.space_after));
    assert(v[4] == ("sa"@, props::u32_json_s(p.space_after)));
    assert(put_all_s(m0, v, 5) == m5);
    let m6 = json::put_opt_s(m5, "il"@, json::opt_int_s(p.indent_left));
    assert(v[5] == ("il"@, json::opt_int_s(p.indent_left)));
    assert(put_all_s(m0, v, 6) == m6);
    let m7 = json::put_opt_s(m6, "ir"@, json::opt_int_s(p.indent_right));
    assert(v[6] == ("ir"@, json::opt_int_s(p.indent_right)));
    assert(put_all_s(m0, v, 7) == m7);
    let m8 = json::put_opt_s(m7, "ifst"@, json::opt_int_s(p.indent_first));
    assert(v[7] == ("ifst"@, json::opt_int_s(p.indent_first)));
    assert(put_all_s(m0, v, 8) == m8);
    let m9 = json::put_opt_s(m8, "nid"@, json::opt_int_s(p.num_id));
    assert(v[8] == ("nid"@, json::opt_int_s(p.num_id)));
    assert(put_all_s(m0, v, 9) == m9);
    let m10 = json::put_opt_s(m9, "ilvl"@, json::opt_int_s(p.num_ilvl));
    assert(v[9] == ("ilvl"@, json::opt_int_s(p.num_ilvl)));
    assert(put_all_s(m0, v, 10) == m10);
    let m11 = json::put_opt_s(m10, "shd"@, json::opt_text_s(p.shading));
    assert(v[10] == ("shd"@, json::opt_text_s(p.shading)));
    assert(put_all_s(m0, v, 11) == m11);
    let m12 = json::put_opt_s(m11, "tabs"@, props::stops_json_s(p.tab_stops));
    assert(v[11] == ("tabs"@, props::stops_json_s(p.tab_stops)));
    assert(put_all_s(m0, v, 12) == m12);
    let m13 = json::put_opt_s(m12, "tabKinds"@, props::kinds_json_s(p.tab_stops, p.tab_kinds));
    assert(v[12] == ("tabKinds"@, props::kinds_json_s(p.tab_stops, p.tab_kinds)));
    assert(put_all_s(m0, v, 13) == m13);
    let m14 = json::put_opt_s(m13, "kn"@, json::opt_flag_s(p.keep_next));
    assert(v[13] == ("kn"@, json::opt_flag_s(p.keep_next)));
    assert(put_all_s(m0, v, 14) == m14);
    let m15 = json::put_opt_s(m14, "cs"@, json::opt_flag_s(p.contextual_spacing));
    assert(v[14] == ("cs"@, json::opt_flag_s(p.contextual_spacing)));
    assert(put_all_s(m0, v, 15) == m15);
    let m16 = json::put_opt_s(m15, "pbb"@, props::set_json_s(p.page_break_before));
    assert(v[15] == ("pbb"@, props::set_json_s(p.page_break_before)));
    assert(put_all_s(m0, v, 16) == m16);
    let m17 = json::put_opt_s(m16, "pba"@, props::set_json_s(p.page_break_after));
    assert(v[16] == ("pba"@, props::set_json_s(p.page_break_after)));
    assert(put_all_s(m0, v, 17) == m17);
    let m18 = json::put_opt_s(m17, "colb"@, props::set_json_s(p.column_break_after));
    assert(v[17] == ("colb"@, props::set_json_s(p.column_break_after)));
    assert(put_all_s(m0, v, 18) == m18);
    let m19 = json::put_opt_s(m18, "se"@, props::set_json_s(p.section_end));
    assert(v[18] == ("se"@, props::set_json_s(p.section_end)));
    assert(put_all_s(m0, v, 19) == m19);
    let m20 = json::put_opt_s(m19, "cse"@, props::set_json_s(p.continuous_break));
    assert(v[19] == ("cse"@, props::set_json_s(p.continuous_break)));
    assert(put_all_s(m0, v, 20) == m20);
    let m21 = json::put_opt_s(m20, "frame"@, json::opt_text_s(p.frame));
    assert(v[20] == ("frame"@, json::opt_text_s(p.frame)));
    assert(put_all_s(m0, v, 21) == m21);
    let m22 = json::put_opt_s(m21, "pbdr"@, json::opt_text_s(p.border));
    assert(v[21] == ("pbdr"@, json::opt_text_s(p.border)));
    assert(put_all_s(m0, v, 22) == m22);
    let m23 = json::put_opt_s(m22, "mksz"@, props::u32_json_s(p.mark_size));
    assert(v[22] == ("mksz"@, props::u32_json_s(p.mark_size)));
    assert(put_all_s(m0, v, 23) == m23);
    let m24 = json::put_opt_s(m23, "sectPr"@, json::opt_text_s(p.sect_pr));
    assert(v[23] == ("sectPr"@, json::opt_text_s(p.sect_pr)));
    assert(put_all_s(m0, v, 24) == m24);
    assert(props::para_members_s(p) == m24);
}

/// Whether members are exactly these paragraph properties.
spec fn describes_s(m: MembersV, p: ParaPropsV) -> bool {
    &&& json::member_s(m, "align"@) == props::align_json_s(p.align)
    &&& json::member_s(m, "ls"@) == props::u16_json_s(p.line_spacing)
    &&& json::member_s(m, "lr"@) == props::rule_json_s(p.line_rule)
    &&& json::member_s(m, "sb"@) == props::u32_json_s(p.space_before)
    &&& json::member_s(m, "sa"@) == props::u32_json_s(p.space_after)
    &&& json::member_s(m, "il"@) == json::opt_int_s(p.indent_left)
    &&& json::member_s(m, "ir"@) == json::opt_int_s(p.indent_right)
    &&& json::member_s(m, "ifst"@) == json::opt_int_s(p.indent_first)
    &&& json::member_s(m, "nid"@) == json::opt_int_s(p.num_id)
    &&& json::member_s(m, "ilvl"@) == json::opt_int_s(p.num_ilvl)
    &&& json::member_s(m, "shd"@) == json::opt_text_s(p.shading)
    &&& json::member_s(m, "tabs"@) == props::stops_json_s(p.tab_stops)
    &&& json::member_s(m, "tabKinds"@) == props::kinds_json_s(p.tab_stops, p.tab_kinds)
    &&& json::member_s(m, "kn"@) == json::opt_flag_s(p.keep_next)
    &&& json::member_s(m, "cs"@) == json::opt_flag_s(p.contextual_spacing)
    &&& json::member_s(m, "pbb"@) == props::set_json_s(p.page_break_before)
    &&& json::member_s(m, "pba"@) == props::set_json_s(p.page_break_after)
    &&& json::member_s(m, "colb"@) == props::set_json_s(p.column_break_after)
    &&& json::member_s(m, "se"@) == props::set_json_s(p.section_end)
    &&& json::member_s(m, "cse"@) == props::set_json_s(p.continuous_break)
    &&& json::member_s(m, "frame"@) == json::opt_text_s(p.frame)
    &&& json::member_s(m, "pbdr"@) == json::opt_text_s(p.border)
    &&& json::member_s(m, "mksz"@) == props::u32_json_s(p.mark_size)
    &&& json::member_s(m, "sectPr"@) == json::opt_text_s(p.sect_pr)
}

proof fn lemma_described(p: ParaPropsV)
    ensures
        describes_s(props::para_members_s(p), p),
{
    let v = para_puts_s(p);
    let m = props::para_members_s(p);
    lemma_all_put(p);
    assert forall|i: int| 0 <= i < 24 implies json::member_s(m, (#[trigger] v[i]).0) == v[i].1 by {
        assert forall|j: int| 0 <= j < v.len() && j != i implies (#[trigger] v[j]).0 != v[i].0 by {
            lemma_put_codes(p, i);
            lemma_put_codes(p, j);
        }
        lemma_put(v, i, 24);
    }
    lemma_described_at(m, p);
}

proof fn lemma_described_at(m: MembersV, p: ParaPropsV)
    requires
        forall|i: int|
            0 <= i < 24 ==> json::member_s(m, (#[trigger] para_puts_s(p)[i]).0) == para_puts_s(
                p,
            )[i].1,
    ensures
        describes_s(m, p),
{
    let v = para_puts_s(p);
    assert(v[0] == ("align"@, props::align_json_s(p.align)));
    assert(v[1] == ("ls"@, props::u16_json_s(p.line_spacing)));
    assert(v[2] == ("lr"@, props::rule_json_s(p.line_rule)));
    assert(v[3] == ("sb"@, props::u32_json_s(p.space_before)));
    assert(v[4] == ("sa"@, props::u32_json_s(p.space_after)));
    assert(v[5] == ("il"@, json::opt_int_s(p.indent_left)));
    assert(v[6] == ("ir"@, json::opt_int_s(p.indent_right)));
    assert(v[7] == ("ifst"@, json::opt_int_s(p.indent_first)));
    assert(v[8] == ("nid"@, json::opt_int_s(p.num_id)));
    assert(v[9] == ("ilvl"@, json::opt_int_s(p.num_ilvl)));
    assert(v[10] == ("shd"@, json::opt_text_s(p.shading)));
    assert(v[11] == ("tabs"@, props::stops_json_s(p.tab_stops)));
    assert(v[12] == ("tabKinds"@, props::kinds_json_s(p.tab_stops, p.tab_kinds)));
    assert(v[13] == ("kn"@, json::opt_flag_s(p.keep_next)));
    assert(v[14] == ("cs"@, json::opt_flag_s(p.contextual_spacing)));
    assert(v[15] == ("pbb"@, props::set_json_s(p.page_break_before)));
    assert(v[16] == ("pba"@, props::set_json_s(p.page_break_after)));
    assert(v[17] == ("colb"@, props::set_json_s(p.column_break_after)));
    assert(v[18] == ("se"@, props::set_json_s(p.section_end)));
    assert(v[19] == ("cse"@, props::set_json_s(p.continuous_break)));
    assert(v[20] == ("frame"@, json::opt_text_s(p.frame)));
    assert(v[21] == ("pbdr"@, json::opt_text_s(p.border)));
    assert(v[22] == ("mksz"@, props::u32_json_s(p.mark_size)));
    assert(v[23] == ("sectPr"@, json::opt_text_s(p.sect_pr)));
}

proof fn lemma_numbers(v: Seq<Option<u64>>, w: Seq<u64>, n: nat)
    requires
        v.len() == w.len(),
        n <= v.len(),
        forall|i: int| 0 <= i < v.len() ==> #[trigger] v[i] == Some(w[i]),
    ensures
        json::numbers_s(v, n) == w.take(n as int),
    decreases n,
{
    if n > 0 {
        lemma_numbers(v, w, (n - 1) as nat);
        assert(v[n - 1] == Some(w[n - 1]));
        assert(w.take(n - 1).push(w[n - 1]) =~= w.take(n as int));
    } else {
        assert(w.take(0) =~= Seq::empty());
    }
}

/// The properties with the tab alignments left out where every stop is left-aligned: what is
/// kept of them as members.
pub open spec fn kept_s(p: ParaPropsV) -> ParaPropsV {
    ParaPropsV {
        tab_kinds: if p.tab_stops.len() > 0 && props::any_kind_s(p.tab_kinds, p.tab_kinds.len()) {
            p.tab_kinds
        } else {
            Seq::empty()
        },
        ..p
    }
}

/// Paragraph properties that are kept as the members of a tracked change read back.
pub proof fn law_paragraph_members_read_back(p: ParaPropsV)
    ensures
        props::para_props_of_s(props::para_members_s(p)) == kept_s(p),
{
    let m = props::para_members_s(p);
    lemma_described(p);
    if p.align is Some {
        types::law_align_tokens_read_back(p.align->0);
    }
    if p.line_rule is Some {
        types::law_line_rule_tokens_read_back(p.line_rule->0);
    }
    let stops = Seq::new(p.tab_stops.len(), |i: int| p.tab_stops[i] as u64);
    let kinds = Seq::new(p.tab_kinds.len(), |i: int| p.tab_kinds[i] as u64);
    lemma_numbers(Seq::new(p.tab_stops.len(), |i: int| Some(p.tab_stops[i] as u64)), stops, stops.len());
    lemma_numbers(Seq::new(p.tab_kinds.len(), |i: int| Some(p.tab_kinds[i] as u64)), kinds, kinds.len());
    assert(stops.take(stops.len() as int) =~= stops);
    assert(kinds.take(kinds.len() as int) =~= kinds);
    let r = props::para_props_of_s(m);
    assert(r.align == p.align);
    assert(r.line_rule == p.line_rule);
    assert(r.tab_stops =~= p.tab_stops);
    assert(r.tab_kinds =~= kept_s(p).tab_kinds);
    assert(r =~= kept_s(p));
}

// ---------------------------------------------------------------- whole paragraphs

/// Whether a block holds nothing of a paragraph.
pub open spec fn untouched_s(m: PropsV) -> bool {
    &&& bare_s(m)
    &&& !m.contains_key("style"@)
    &&& !m.contains_key("ppc"@)
    &&& !m.contains_key("pmark"@)
}

/// The edits of paragraph properties name neither a style nor a change.
proof fn lemma_edits_other(p: ParaPropsV, k: Seq<char>, i: int)
    requires
        0 <= i < 23,
        k == "style"@ || k == "ppc"@ || k == "pmark"@ || k == "text"@ || k == "type"@,
    ensures
        props::para_edits_s(p)[i].0 != k,
{
    lemma_codes();
    lemma_edit_codes(p, i);
}

proof fn lemma_names_apart()
    ensures
        "style"@ != "text"@,
        "style"@ != "ppc"@,
        "style"@ != "pmark"@,
        "style"@ != "type"@,
        "ppc"@ != "pmark"@,
        "ppc"@ != "text"@,
        "ppc"@ != "type"@,
        "pmark"@ != "text"@,
        "pmark"@ != "type"@,
{
    lemma_codes();
}

proof fn lemma_other_kept(m: PropsV, p: ParaPropsV, k: Seq<char>)
    requires
        k == "style"@ || k == "ppc"@ || k == "pmark"@ || k == "text"@ || k == "type"@,
    ensures
        store::prop_s(props::with_para_props_s(m, p, false), k) == store::prop_s(m, k),
{
    let v = props::para_edits_s(p);
    assert forall|j: int| 0 <= j < v.len() implies (#[trigger] v[j]).0 != k by {
        lemma_edits_other(p, k, j);
    }
    lemma_unedited(m, v, false, k, v.len());
}

/// The properties of the block with its text, before the paragraph properties are written.
spec fn begun_s(m: PropsV, style: Option<Seq<char>>) -> PropsV {
    writing::with_text_s(m, "style"@, style).insert(store::TEXT@, ScalarV::Other)
}

proof fn lemma_begun(m: PropsV, style: Option<Seq<char>>)
    requires
        untouched_s(m),
    ensures
        bare_s(begun_s(m, style)),
        runs::text_prop_s(begun_s(m, style), "style"@) == style,
        store::prop_s(begun_s(m, style), "ppc"@) is None,
        store::prop_s(begun_s(m, style), "pmark"@) is None,
{
    lemma_names_apart();
    assert(store::TEXT@ == "text"@);
    let e = props::para_edits_s(ParaPropsV::initial());
    assert forall|i: int| 0 <= i < 23 implies !begun_s(m, style).contains_key(
        (#[trigger] e[i]).0,
    ) by {
        lemma_edits_other(ParaPropsV::initial(), "style"@, i);
        lemma_edits_other(ParaPropsV::initial(), "text"@, i);
        assert(!m.contains_key(e[i].0));
    }
}

/// The properties with the texts of the changes.
spec fn noted_s(w: PropsV, p: ParagraphV) -> PropsV {
    let w = match p.prop_change {
        Some(c) => w.insert("ppc"@, ScalarV::Text(props::prop_change_text_s(c))),
        None => w,
    };
    match p.mark_change {
        Some(t) => w.insert(
            "pmark"@,
            ScalarV::Text(props::mark_text_s(props::kind_name_s(t.kind)->0, t)),
        ),
        None => w,
    }
}

proof fn lemma_noted_edits(w: PropsV, p: ParagraphV, i: int)
    requires
        0 <= i < 23,
    ensures
        store::prop_s(noted_s(w, p), props::para_edits_s(p.props)[i].0) == store::prop_s(
            w,
            props::para_edits_s(p.props)[i].0,
        ),
{
    lemma_edits_other(p.props, "ppc"@, i);
    lemma_edits_other(p.props, "pmark"@, i);
}

/// What a tracked change of paragraph properties reads back as.
pub open spec fn change_kept_s(o: Option<ParaPropChangeV>) -> Option<ParaPropChangeV> {
    match o {
        Some(c) => Some(ParaPropChangeV { old: kept_s(c.old), ..c }),
        None => None,
    }
}

/// A paragraph that is written to an untouched block reads back from its properties: its style,
/// its properties, and the tracked changes of both its properties and its mark.
pub proof fn law_paragraph_reads_back(m: PropsV, p: ParagraphV)
    requires
        untouched_s(m),
        tabs_paired_s(p.props),
        writing::changes_read_s(p),
    ensures
        ({
            let w = writing::para_meta_s(m, p);
            &&& runs::text_prop_s(w, "style"@) == p.style
            &&& props::para_props_s(w) == p.props
            &&& props::prop_change_s(w) == change_kept_s(p.prop_change)
            &&& props::mark_change_s(w) == p.mark_change
        }),
{
    let b = begun_s(m, p.style);
    let x = props::with_para_props_s(b, p.props, false);
    let w = noted_s(x, p);
    assert(w == writing::para_meta_s(m, p));
    lemma_begun(m, p.style);
    lemma_names_apart();
    lemma_other_kept(b, p.props, "style"@);
    lemma_other_kept(b, p.props, "ppc"@);
    lemma_other_kept(b, p.props, "pmark"@);
    assert forall|i: int| 0 <= i < 23 implies store::prop_s(
        w,
        (#[trigger] props::para_edits_s(p.props)[i]).0,
    ) == props::para_edits_s(p.props)[i].1 by {
        lemma_prop_reads(b, p.props, false, i);
        lemma_noted_edits(x, p, i);
    }
    lemma_holds_at(w, p.props);
    lemma_held(w, p.props);
    lemma_changes(x, p);
    assert(runs::text_prop_s(w, "style"@) == p.style);
}

proof fn lemma_changes(x: PropsV, p: ParagraphV)
    requires
        store::prop_s(x, "ppc"@) is None,
        store::prop_s(x, "pmark"@) is None,
        writing::changes_read_s(p),
    ensures
        props::prop_change_s(noted_s(x, p)) == change_kept_s(p.prop_change),
        props::mark_change_s(noted_s(x, p)) == p.mark_change,
{
    lemma_names_apart();
}

/// A block of which only the type is known is untouched.
pub(crate) proof fn lemma_typed(x: ScalarV)
    ensures
        untouched_s(store::no_props_s()),
        untouched_s(store::no_props_s().insert("type"@, x)),
{
    lemma_names_apart();
    let m = store::no_props_s().insert("type"@, x);
    let e = props::para_edits_s(ParaPropsV::initial());
    assert forall|i: int| 0 <= i < 23 implies !m.contains_key((#[trigger] e[i]).0) by {
        lemma_edits_other(ParaPropsV::initial(), "type"@, i);
    }
}

/// Writing a paragraph to a block leaves its type.
pub(crate) proof fn lemma_type_kept(m: PropsV, p: ParagraphV)
    ensures
        runs::text_prop_s(writing::para_meta_s(m, p), "type"@) == runs::text_prop_s(m, "type"@),
{
    lemma_names_apart();
    reveal_strlit("type");
    reveal_strlit("text");
    assert("type"@[1] == 'y' && store::TEXT@[1] == 'e');
    let a = writing::with_text_s(m, "style"@, p.style).insert(store::TEXT@, ScalarV::Other);
    lemma_other_kept(a, p.props, "type"@);
}

// ---------------------------------------------------------------- tracked changes of properties

proof fn lemma_all_left(kinds: Seq<u8>, n: nat, i: int)
    requires
        n <= kinds.len(),
        !props::any_kind_s(kinds, n),
        0 <= i < n,
    ensures
        kinds[i] == 0,
    decreases n,
{
    if i < n - 1 {
        lemma_all_left(kinds, (n - 1) as nat, i);
    }
}

/// Properties that a tracked change keeps are written as the properties they were.
proof fn lemma_kept_edits(m: PropsV, p: ParaPropsV)
    ensures
        props::with_para_props_s(m, kept_s(p), true) == props::with_para_props_s(m, p, true),
{
    let q = kept_s(p);
    let a = props::tab_toks_s(p.tab_stops, p.tab_kinds);
    let b = props::tab_toks_s(q.tab_stops, q.tab_kinds);
    if q.tab_kinds != p.tab_kinds && p.tab_stops.len() > 0 {
        assert forall|i: int| 0 <= i < a.len() implies a[i] == b[i] by {
            if i < p.tab_kinds.len() {
                lemma_all_left(p.tab_kinds, p.tab_kinds.len(), i);
            }
        }
    }
    assert(a =~= b || p.tab_stops.len() == 0);
    assert(props::tabs_text_s(q.tab_stops, q.tab_kinds) == props::tabs_text_s(
        p.tab_stops,
        p.tab_kinds,
    ));
    assert(props::para_edits_s(q) =~= props::para_edits_s(p));
}

/// Rejecting a suggested change of a paragraph restores it: whatever its properties became, its
/// style and its properties are those that it had, and no change is recorded any more.
pub proof fn law_rejected_paragraph_change_is_undone(
    m: PropsV,
    n: PropsV,
    author: Seq<char>,
    date: Seq<char>,
    id: u64,
)
    requires
        runs::text_prop_s(m, "ppc"@) is None,
        tabs_paired_s(props::para_props_s(m)),
        formatting::record_reads_s(m, author, date, id),
    ensures
        props::prop_change_s(formatting::recorded_s(m, n, author, date, id)) matches Some(c) && c.id
            == id && ({
            let w = formatting::recorded_s(m, n, author, date, id);
            let f = revisions::resolve_props_s(w, c, false);
            &&& runs::text_prop_s(f, "style"@) == runs::text_prop_s(m, "style"@)
            &&& props::para_props_s(f) == props::para_props_s(m)
            &&& props::prop_change_s(f) is None
        }),
{
    let w = formatting::recorded_s(m, n, author, date, id);
    let p = props::para_props_s(m);
    let c = props::prop_change_s(w)->0;
    assert(props::prop_change_s(w) == Some(
        ParaPropChangeV { old: kept_s(p), ..formatting::before_s(m, author, date, id) },
    ));
    let s = formatting::styled_s(w, c.old_style);
    let x = props::with_para_props_s(s, p, true);
    let f = x.remove("ppc"@);
    lemma_kept_edits(s, p);
    assert(revisions::resolve_props_s(w, c, false) == f);
    lemma_names_apart();
    lemma_exact_kept(s, p, "style"@);
    assert(store::prop_s(f, "style"@) == store::prop_s(x, "style"@));
    assert forall|i: int| 0 <= i < 23 implies store::prop_s(
        f,
        (#[trigger] props::para_edits_s(p)[i]).0,
    ) == props::para_edits_s(p)[i].1 by {
        lemma_prop_reads(s, p, true, i);
        lemma_edits_other(p, "ppc"@, i);
    }
    lemma_holds_at(f, p);
    lemma_held(f, p);
}

proof fn lemma_exact_kept(m: PropsV, p: ParaPropsV, k: Seq<char>)
    requires
        k == "style"@ || k == "ppc"@ || k == "pmark"@ || k == "text"@ || k == "type"@,
    ensures
        store::prop_s(props::with_para_props_s(m, p, true), k) == store::prop_s(m, k),
{
    let v = props::para_edits_s(p);
    assert forall|j: int| 0 <= j < v.len() implies (#[trigger] v[j]).0 != k by {
        lemma_edits_other(p, k, j);
    }
    lemma_unedited(m, v, true, k, v.len());
}

/// Accepting a suggested change of a paragraph keeps what its properties became.
pub proof fn law_accepted_paragraph_change_stays(
    m: PropsV,
    n: PropsV,
    author: Seq<char>,
    date: Seq<char>,
    id: u64,
)
    requires
        runs::text_prop_s(m, "ppc"@) is None,
        formatting::record_reads_s(m, author, date, id),
    ensures
        props::prop_change_s(formatting::recorded_s(m, n, author, date, id)) matches Some(c) && c.id
            == id && revisions::resolve_props_s(
            formatting::recorded_s(m, n, author, date, id),
            c,
            true,
        ) == n.remove("ppc"@),
{
    let w = formatting::recorded_s(m, n, author, date, id);
    assert(w.remove("ppc"@) =~= n.remove("ppc"@));
}

/// Resolving a change of paragraph properties leaves what kind of block it is.
pub(crate) proof fn lemma_kind_kept(m: PropsV, c: ParaPropChangeV, accept: bool)
    ensures
        read::is_table_s(revisions::resolve_props_s(m, c, accept)) == read::is_table_s(m),
{
    lemma_names_apart();
    let s = formatting::styled_s(m, c.old_style);
    lemma_exact_kept(s, c.old, "type"@);
    assert(store::prop_s(s, "type"@) == store::prop_s(m, "type"@));
    let x = if accept {
        m
    } else {
        props::with_para_props_s(s, c.old, true)
    };
    assert(store::prop_s(x.remove("ppc"@), "type"@) == store::prop_s(x, "type"@));
}

} // verus!
