//! Paragraph properties as properties of a block, and as JSON in a tracked change.

use vstd::prelude::*;
use crate::doc;
use crate::doc::{DocV, TextDoc};
use crate::error::ModelError;
use crate::json;
use crate::json::{Json, JsonV, MembersV};
use crate::readback;
use crate::runs;
use crate::runs::{id_member, size_of, text_or_empty, track_of};
use crate::search;
use crate::search::split;
use crate::store;
use crate::store::{BlockId, PropsV, Scalar, ScalarV, StoreV};
use crate::strs;
use crate::strs::{dec, parse_uint, str_eq};
use crate::style_parse;
use crate::style_parse::join;
use crate::types;
use crate::types::{
    Align, LineRule, ParaPropChange, ParaPropChangeV, ParaProps, ParaPropsV, Track, TrackKind,
    TrackV,
};

verus! {

broadcast use vstd::string::group_string_axioms;

// ---------------------------------------------------------------- reading properties

pub open spec fn wide_s(o: Option<i64>) -> Option<u32> {
    match o {
        Some(n) => Some(n as u32),
        None => None,
    }
}

pub(crate) fn wide(o: Option<i64>) -> (r: Option<u32>)
    ensures
        r == wide_s(o),
{
    match o {
        Some(n) => Some(#[verifier::truncate] (n as u32)),
        None => None,
    }
}

pub open spec fn signed_s(o: Option<i64>) -> Option<i32> {
    match o {
        Some(n) => Some(n as i32),
        None => None,
    }
}

pub(crate) fn signed(o: Option<i64>) -> (r: Option<i32>)
    ensures
        r == signed_s(o),
{
    match o {
        Some(n) => Some(#[verifier::truncate] (n as i32)),
        None => None,
    }
}

pub open spec fn align_of_s(o: Option<Seq<char>>) -> Option<Align> {
    match o {
        Some(s) => Align::parse_s(s),
        None => None,
    }
}

pub(crate) fn align_of(o: Option<String>) -> (r: Option<Align>)
    ensures
        r == align_of_s(strs::opt_s(o)),
{
    match o {
        Some(s) => Align::parse(s.as_str()),
        None => None,
    }
}

pub(crate) fn rule_of(o: Option<String>) -> (r: Option<LineRule>)
    ensures
        r == style_parse::line_rule_s(strs::opt_s(o)),
{
    match o {
        Some(s) => LineRule::from_ooxml(s.as_str()),
        None => None,
    }
}

/// The position in a stored tab stop.
pub open spec fn stop_pos_s(tok: Seq<char>) -> Option<u32> {
    match strs::parse_uint_s(search::split_s(tok, ':')[0], u32::MAX as nat) {
        Some(n) => Some(n as u32),
        None => None,
    }
}

/// The alignment in a stored tab stop, left where it has none.
pub open spec fn stop_kind_s(tok: Seq<char>) -> u8 {
    let parts = search::split_s(tok, ':');
    if parts.len() > 1 {
        match strs::parse_uint_s(parts[1], u8::MAX as nat) {
            Some(n) => n as u8,
            None => 0,
        }
    } else {
        0
    }
}

pub open spec fn stops_s(toks: Seq<Seq<char>>, n: nat) -> Seq<u32>
    decreases n,
{
    if n == 0 {
        Seq::empty()
    } else {
        let r = stops_s(toks, (n - 1) as nat);
        let tok = toks[n - 1];
        if tok.len() == 0 {
            r
        } else {
            match stop_pos_s(tok) {
                Some(p) => r.push(p),
                None => r,
            }
        }
    }
}

pub open spec fn kinds_s(toks: Seq<Seq<char>>, n: nat) -> Seq<u8>
    decreases n,
{
    if n == 0 {
        Seq::empty()
    } else {
        let r = kinds_s(toks, (n - 1) as nat);
        let tok = toks[n - 1];
        if tok.len() == 0 {
            r
        } else {
            r.push(stop_kind_s(tok))
        }
    }
}

/// The tab positions in the stored text of the stops.
pub open spec fn tab_stops_s(o: Option<Seq<char>>) -> Seq<u32> {
    match o {
        Some(s) => stops_s(search::split_s(s, ','), search::split_s(s, ',').len()),
        None => Seq::empty(),
    }
}

/// The tab alignments in the stored text of the stops.
pub open spec fn tab_kinds_s(o: Option<Seq<char>>) -> Seq<u8> {
    match o {
        Some(s) => kinds_s(search::split_s(s, ','), search::split_s(s, ',').len()),
        None => Seq::empty(),
    }
}

fn tab_stops(o: &Option<String>) -> (r: Vec<u32>)
    ensures
        r@ == tab_stops_s(strs::opt_s(*o)),
{
    let mut out: Vec<u32> = Vec::new();
    if let Some(s) = o {
        let toks = split(s.as_str(), ',');
        let ghost t = search::texts_s(toks@);
        let mut i: usize = 0;
        while i < toks.len()
            invariant
                i <= toks@.len(),
                t == search::texts_s(toks@),
                out@ == stops_s(t, i as nat),
            decreases toks@.len() - i,
        {
            assert(t[i as int] == toks@[i as int]@);
            if toks[i].as_str().unicode_len() > 0 {
                let parts = split(toks[i].as_str(), ':');
                assert(search::texts_s(parts@)[0] == parts@[0]@);
                if let Some(n) = parse_uint(parts[0].as_str(), u32::MAX as u64) {
                    out.push(n as u32);
                }
            }
            i = i + 1;
        }
    }
    out
}

fn tab_kinds(o: &Option<String>) -> (r: Vec<u8>)
    ensures
        r@ == tab_kinds_s(strs::opt_s(*o)),
{
    let mut out: Vec<u8> = Vec::new();
    if let Some(s) = o {
        let toks = split(s.as_str(), ',');
        let ghost t = search::texts_s(toks@);
        let mut i: usize = 0;
        while i < toks.len()
            invariant
                i <= toks@.len(),
                t == search::texts_s(toks@),
                out@ == kinds_s(t, i as nat),
            decreases toks@.len() - i,
        {
            assert(t[i as int] == toks@[i as int]@);
            if toks[i].as_str().unicode_len() > 0 {
                let parts = split(toks[i].as_str(), ':');
                let mut k: u8 = 0;
                if parts.len() > 1 {
                    assert(search::texts_s(parts@)[1] == parts@[1]@);
                    if let Some(n) = parse_uint(parts[1].as_str(), u8::MAX as u64) {
                        k = n as u8;
                    }
                }
                out.push(k);
            }
            i = i + 1;
        }
    }
    out
}

/// The paragraph properties among the properties of a block.
pub open spec fn para_props_s(m: PropsV) -> ParaPropsV {
    ParaPropsV {
        align: align_of_s(runs::text_prop_s(m, "align"@)),
        line_spacing: runs::size_of_s(runs::int_prop_s(m, "lineSpacing"@)),
        line_rule: style_parse::line_rule_s(runs::text_prop_s(m, "lineRule"@)),
        space_before: wide_s(runs::int_prop_s(m, "spBefore"@)),
        space_after: wide_s(runs::int_prop_s(m, "spAfter"@)),
        indent_left: signed_s(runs::int_prop_s(m, "indL"@)),
        indent_right: signed_s(runs::int_prop_s(m, "indR"@)),
        indent_first: signed_s(runs::int_prop_s(m, "indFirst"@)),
        num_id: signed_s(runs::int_prop_s(m, "numId"@)),
        num_ilvl: signed_s(runs::int_prop_s(m, "ilvl"@)),
        shading: runs::text_prop_s(m, "shd"@),
        tab_stops: tab_stops_s(runs::text_prop_s(m, "tabs"@)),
        tab_kinds: tab_kinds_s(runs::text_prop_s(m, "tabs"@)),
        keep_next: runs::flag_prop_s(m, "keepNext"@),
        contextual_spacing: runs::flag_prop_s(m, "ctxSp"@),
        page_break_before: runs::on_s(m, "pgBrkBef"@),
        page_break_after: runs::on_s(m, "pgBrkAft"@),
        section_end: runs::on_s(m, "sectEnd"@),
        continuous_break: runs::on_s(m, "contSect"@),
        column_break_after: runs::on_s(m, "colBrkAft"@),
        frame: runs::text_prop_s(m, "frame"@),
        border: runs::text_prop_s(m, "pbdr"@),
        mark_size: wide_s(runs::int_prop_s(m, "markSz"@)),
        sect_pr: runs::text_prop_s(m, "sectPr"@),
    }
}

impl TextDoc {
    /// A property of a block as text.
    pub(crate) fn meta_string(&self, id: BlockId, key: &str) -> (r: Option<String>)
        ensures
            strs::opt_s(r) == runs::text_prop_s(self@.s.metas[id], key@),
    {
        match self.meta(id, key) {
            Some(Scalar::Text(s)) => Some(s),
            _ => None,
        }
    }

    /// A property of a block as a number.
    pub(crate) fn meta_i64(&self, id: BlockId, key: &str) -> (r: Option<i64>)
        ensures
            r == runs::int_prop_s(self@.s.metas[id], key@),
    {
        match self.meta(id, key) {
            Some(Scalar::Int(n)) => Some(n),
            _ => None,
        }
    }

    /// A property of a block as a truth value.
    pub(crate) fn meta_bool(&self, id: BlockId, key: &str) -> (r: Option<bool>)
        ensures
            r == runs::flag_prop_s(self@.s.metas[id], key@),
    {
        match self.meta(id, key) {
            Some(Scalar::Bool(b)) => Some(b),
            _ => None,
        }
    }

    fn meta_on(&self, id: BlockId, key: &str) -> (r: bool)
        ensures
            r == runs::on_s(self@.s.metas[id], key@),
    {
        match self.meta_bool(id, key) {
            Some(b) => b,
            None => false,
        }
    }

    /// Read paragraph properties off a block.
    pub(crate) fn read_para_props(&self, id: BlockId) -> (r: ParaProps)
        ensures
            r@ == para_props_s(self@.s.metas[id]),
    {
        let tabs = self.meta_string(id, "tabs");
        ParaProps {
            align: align_of(self.meta_string(id, "align")),
            line_spacing: size_of(self.meta_i64(id, "lineSpacing")),
            line_rule: rule_of(self.meta_string(id, "lineRule")),
            space_before: wide(self.meta_i64(id, "spBefore")),
            space_after: wide(self.meta_i64(id, "spAfter")),
            indent_left: signed(self.meta_i64(id, "indL")),
            indent_right: signed(self.meta_i64(id, "indR")),
            indent_first: signed(self.meta_i64(id, "indFirst")),
            num_id: signed(self.meta_i64(id, "numId")),
            num_ilvl: signed(self.meta_i64(id, "ilvl")),
            shading: self.meta_string(id, "shd"),
            tab_stops: tab_stops(&tabs),
            tab_kinds: tab_kinds(&tabs),
            keep_next: self.meta_bool(id, "keepNext"),
            contextual_spacing: self.meta_bool(id, "ctxSp"),
            page_break_before: self.meta_on(id, "pgBrkBef"),
            page_break_after: self.meta_on(id, "pgBrkAft"),
            section_end: self.meta_on(id, "sectEnd"),
            continuous_break: self.meta_on(id, "contSect"),
            column_break_after: self.meta_on(id, "colBrkAft"),
            frame: self.meta_string(id, "frame"),
            border: self.meta_string(id, "pbdr"),
            mark_size: wide(self.meta_i64(id, "markSz")),
            sect_pr: self.meta_string(id, "sectPr"),
        }
    }
}

// ---------------------------------------------------------------- writing properties

/// The stored text of the first `n` tab stops.
pub open spec fn tab_toks_s(stops: Seq<u32>, kinds: Seq<u8>) -> Seq<Seq<char>> {
    Seq::new(
        stops.len(),
        |i: int|
            {
                let pos = strs::dec_s(stops[i] as nat);
                if i < kinds.len() && kinds[i] != 0 {
                    pos + ":"@ + strs::dec_s(kinds[i] as nat)
                } else {
                    pos
                }
            },
    )
}

/// The stored text of tab stops, none where there are no stops.
pub open spec fn tabs_text_s(stops: Seq<u32>, kinds: Seq<u8>) -> Option<ScalarV> {
    if stops.len() == 0 {
        None
    } else {
        Some(
            ScalarV::Text(style_parse::join_s(tab_toks_s(stops, kinds), ","@, stops.len())),
        )
    }
}

fn tabs_text(stops: &Vec<u32>, kinds: &Vec<u8>) -> (r: Option<Scalar>)
    ensures
        store::scalar_ov(r) == tabs_text_s(stops@, kinds@),
{
    if stops.len() == 0 {
        return None;
    }
    let mut toks: Vec<String> = Vec::new();
    let ghost want = tab_toks_s(stops@, kinds@);
    let mut i: usize = 0;
    while i < stops.len()
        invariant
            i <= stops@.len(),
            want == tab_toks_s(stops@, kinds@),
            toks@.len() == i,
            forall|j: int| 0 <= j < i ==> (#[trigger] toks@[j])@ == want[j],
        decreases stops@.len() - i,
    {
        let mut s = dec(stops[i] as u128);
        if i < kinds.len() && kinds[i] != 0 {
            s.append(":");
            s.append(dec(kinds[i] as u128).as_str());
        }
        toks.push(s);
        i = i + 1;
    }
    assert(search::texts_s(toks@) =~= want);
    Some(Scalar::Text(join(&toks, ",")))
}

pub open spec fn text_edit_s(o: Option<Seq<char>>) -> Option<ScalarV> {
    match o {
        Some(s) => Some(ScalarV::Text(s)),
        None => None,
    }
}

fn text_edit(o: &Option<String>) -> (r: Option<Scalar>)
    ensures
        store::scalar_ov(r) == text_edit_s(strs::opt_s(*o)),
{
    match o {
        Some(s) => Some(Scalar::Text(s.clone())),
        None => None,
    }
}

pub open spec fn int_edit_s(o: Option<int>) -> Option<ScalarV> {
    match o {
        Some(n) => Some(ScalarV::Int(n as i64)),
        None => None,
    }
}

pub open spec fn wide_int_s(o: Option<u32>) -> Option<int> {
    match o {
        Some(n) => Some(n as int),
        None => None,
    }
}

pub open spec fn signed_int_s(o: Option<i32>) -> Option<int> {
    match o {
        Some(n) => Some(n as int),
        None => None,
    }
}

fn wide_edit(o: Option<u32>) -> (r: Option<Scalar>)
    ensures
        store::scalar_ov(r) == int_edit_s(wide_int_s(o)),
{
    match o {
        Some(n) => Some(Scalar::Int(n as i64)),
        None => None,
    }
}

fn signed_edit(o: Option<i32>) -> (r: Option<Scalar>)
    ensures
        store::scalar_ov(r) == int_edit_s(signed_int_s(o)),
{
    match o {
        Some(n) => Some(Scalar::Int(n as i64)),
        None => None,
    }
}

pub open spec fn size_edit_s(o: Option<u16>) -> Option<ScalarV> {
    match o {
        Some(n) => Some(ScalarV::Int(n as i64)),
        None => None,
    }
}

fn size_edit(o: Option<u16>) -> (r: Option<Scalar>)
    ensures
        store::scalar_ov(r) == size_edit_s(o),
{
    match o {
        Some(n) => Some(Scalar::Int(n as i64)),
        None => None,
    }
}

pub open spec fn flag_edit_s(o: Option<bool>) -> Option<ScalarV> {
    match o {
        Some(b) => Some(ScalarV::Bool(b)),
        None => None,
    }
}

fn flag_edit(o: Option<bool>) -> (r: Option<Scalar>)
    ensures
        store::scalar_ov(r) == flag_edit_s(o),
{
    match o {
        Some(b) => Some(Scalar::Bool(b)),
        None => None,
    }
}

pub open spec fn set_edit_s(b: bool) -> Option<ScalarV> {
    if b {
        Some(ScalarV::Bool(true))
    } else {
        None
    }
}

fn set_edit(b: bool) -> (r: Option<Scalar>)
    ensures
        store::scalar_ov(r) == set_edit_s(b),
{
    if b {
        Some(Scalar::Bool(true))
    } else {
        None
    }
}

pub open spec fn align_edit_s(o: Option<Align>) -> Option<ScalarV> {
    match o {
        Some(a) => Some(ScalarV::Text(a.as_str_s())),
        None => None,
    }
}

pub open spec fn rule_edit_s(o: Option<LineRule>) -> Option<ScalarV> {
    match o {
        Some(a) => Some(ScalarV::Text(a.as_str_s())),
        None => None,
    }
}

/// What each property of a block is to become for these paragraph properties.
pub open spec fn para_edits_s(p: ParaPropsV) -> Seq<(Seq<char>, Option<ScalarV>)> {
    seq![
        ("align"@, align_edit_s(p.align)),
        ("lineSpacing"@, size_edit_s(p.line_spacing)),
        ("lineRule"@, rule_edit_s(p.line_rule)),
        ("spBefore"@, int_edit_s(wide_int_s(p.space_before))),
        ("spAfter"@, int_edit_s(wide_int_s(p.space_after))),
        ("indL"@, int_edit_s(signed_int_s(p.indent_left))),
        ("indR"@, int_edit_s(signed_int_s(p.indent_right))),
        ("indFirst"@, int_edit_s(signed_int_s(p.indent_first))),
        ("numId"@, int_edit_s(signed_int_s(p.num_id))),
        ("ilvl"@, int_edit_s(signed_int_s(p.num_ilvl))),
        ("shd"@, text_edit_s(p.shading)),
        ("tabs"@, tabs_text_s(p.tab_stops, p.tab_kinds)),
        ("keepNext"@, flag_edit_s(p.keep_next)),
        ("ctxSp"@, flag_edit_s(p.contextual_spacing)),
        ("pgBrkBef"@, set_edit_s(p.page_break_before)),
        ("pgBrkAft"@, set_edit_s(p.page_break_after)),
        ("sectEnd"@, set_edit_s(p.section_end)),
        ("contSect"@, set_edit_s(p.continuous_break)),
        ("colBrkAft"@, set_edit_s(p.column_break_after)),
        ("frame"@, text_edit_s(p.frame)),
        ("pbdr"@, text_edit_s(p.border)),
        ("markSz"@, int_edit_s(wide_int_s(p.mark_size))),
        ("sectPr"@, text_edit_s(p.sect_pr)),
    ]
}

pub open spec fn edit_vs(v: Seq<(&'static str, Option<Scalar>)>) -> Seq<
    (Seq<char>, Option<ScalarV>),
> {
    Seq::new(v.len(), |i: int| (v[i].0@, store::scalar_ov(v[i].1)))
}

/// Whether an edit can be made: it is a plain value, and not of the text.
pub open spec fn editable_s(v: Seq<(Seq<char>, Option<ScalarV>)>) -> bool {
    forall|i: int|
        0 <= i < v.len() ==> (#[trigger] v[i]).0 != store::TEXT@ && (v[i].1 matches Some(x) ==> !(
        x is Other) && !(x is Bytes))
}

fn para_edits(p: &ParaProps) -> (r: Vec<(&'static str, Option<Scalar>)>)
    ensures
        edit_vs(r@) == para_edits_s(p@),
        editable_s(edit_vs(r@)),
{
    let align = match p.align {
        Some(a) => Some(Scalar::Text(a.as_str().to_string())),
        None => None,
    };
    let rule = match p.line_rule {
        Some(a) => Some(Scalar::Text(a.as_str().to_string())),
        None => None,
    };
    let mut v: Vec<(&'static str, Option<Scalar>)> = Vec::new();
    v.push(("align", align));
    v.push(("lineSpacing", size_edit(p.line_spacing)));
    v.push(("lineRule", rule));
    v.push(("spBefore", wide_edit(p.space_before)));
    v.push(("spAfter", wide_edit(p.space_after)));
    v.push(("indL", signed_edit(p.indent_left)));
    v.push(("indR", signed_edit(p.indent_right)));
    v.push(("indFirst", signed_edit(p.indent_first)));
    v.push(("numId", signed_edit(p.num_id)));
    v.push(("ilvl", signed_edit(p.num_ilvl)));
    v.push(("shd", text_edit(&p.shading)));
    v.push(("tabs", tabs_text(&p.tab_stops, &p.tab_kinds)));
    v.push(("keepNext", flag_edit(p.keep_next)));
    v.push(("ctxSp", flag_edit(p.contextual_spacing)));
    v.push(("pgBrkBef", set_edit(p.page_break_before)));
    v.push(("pgBrkAft", set_edit(p.page_break_after)));
    v.push(("sectEnd", set_edit(p.section_end)));
    v.push(("contSect", set_edit(p.continuous_break)));
    v.push(("colBrkAft", set_edit(p.column_break_after)));
    v.push(("frame", text_edit(&p.frame)));
    v.push(("pbdr", text_edit(&p.border)));
    v.push(("markSz", wide_edit(p.mark_size)));
    v.push(("sectPr", text_edit(&p.sect_pr)));
    assert(edit_vs(v@) =~= para_edits_s(p@));
    proof {
        lemma_para_edits(p@);
    }
    v
}

proof fn lemma_para_edits(p: ParaPropsV)
    ensures
        editable_s(para_edits_s(p)),
{
    lemma_para_keys();
}

/// No paragraph property is kept under the name of the text.
pub(crate) proof fn lemma_para_keys()
    ensures
        "align"@ != store::TEXT@,
        "lineSpacing"@ != store::TEXT@,
        "lineRule"@ != store::TEXT@,
        "spBefore"@ != store::TEXT@,
        "spAfter"@ != store::TEXT@,
        "indL"@ != store::TEXT@,
        "indR"@ != store::TEXT@,
        "indFirst"@ != store::TEXT@,
        "numId"@ != store::TEXT@,
        "ilvl"@ != store::TEXT@,
        "shd"@ != store::TEXT@,
        "tabs"@ != store::TEXT@,
        "keepNext"@ != store::TEXT@,
        "ctxSp"@ != store::TEXT@,
        "pgBrkBef"@ != store::TEXT@,
        "pgBrkAft"@ != store::TEXT@,
        "sectEnd"@ != store::TEXT@,
        "contSect"@ != store::TEXT@,
        "colBrkAft"@ != store::TEXT@,
        "frame"@ != store::TEXT@,
        "pbdr"@ != store::TEXT@,
        "markSz"@ != store::TEXT@,
        "sectPr"@ != store::TEXT@,
{
    reveal_strlit("text");
    reveal_strlit("align");
    reveal_strlit("lineSpacing");
    reveal_strlit("lineRule");
    reveal_strlit("spBefore");
    reveal_strlit("spAfter");
    reveal_strlit("indL");
    reveal_strlit("indR");
    reveal_strlit("indFirst");
    reveal_strlit("numId");
    reveal_strlit("ilvl");
    reveal_strlit("shd");
    reveal_strlit("tabs");
    reveal_strlit("keepNext");
    reveal_strlit("ctxSp");
    reveal_strlit("pgBrkBef");
    reveal_strlit("pgBrkAft");
    reveal_strlit("sectEnd");
    reveal_strlit("contSect");
    reveal_strlit("colBrkAft");
    reveal_strlit("frame");
    reveal_strlit("pbdr");
    reveal_strlit("markSz");
    reveal_strlit("sectPr");
    assert("indL"@[0] != store::TEXT@[0]);
    assert("indR"@[0] != store::TEXT@[0]);
    assert("ilvl"@[0] != store::TEXT@[0]);
    assert("pbdr"@[0] != store::TEXT@[0]);
    assert("tabs"@[1] != store::TEXT@[1]);
}

/// The properties after the first `n` edits; a property to be unset is cleared only if `exact`.
pub open spec fn edited_s(
    m: PropsV,
    edits: Seq<(Seq<char>, Option<ScalarV>)>,
    exact: bool,
    n: nat,
) -> PropsV
    decreases n,
{
    if n == 0 {
        m
    } else {
        let r = edited_s(m, edits, exact, (n - 1) as nat);
        match edits[n - 1].1 {
            Some(v) => r.insert(edits[n - 1].0, v),
            None => if exact {
                r.remove(edits[n - 1].0)
            } else {
                r
            },
        }
    }
}

/// The properties with these paragraph properties: those that are set, or all of them.
pub open spec fn with_para_props_s(m: PropsV, p: ParaPropsV, exact: bool) -> PropsV {
    edited_s(m, para_edits_s(p), exact, para_edits_s(p).len())
}

/// The document with other properties of a block.
pub open spec fn metas_set_s(d: DocV, id: BlockId, m: PropsV) -> DocV {
    doc::with_store_s(d, StoreV { metas: d.s.metas.insert(id, m), ..d.s })
}

impl TextDoc {
    /// Make a list of edits of a block's properties.
    pub(crate) fn edit_metas(
        &mut self,
        id: BlockId,
        edits: &Vec<(&'static str, Option<Scalar>)>,
        exact: bool,
    ) -> (r: Result<(), ModelError>)
        requires
            editable_s(edit_vs(edits@)),
        ensures
            old(self)@.s.editable && store::live_s(old(self)@.s, id) ==> r is Ok,
            r is Ok ==> final(self)@ == metas_set_s(
                old(self)@,
                id,
                edited_s(old(self)@.s.metas[id], edit_vs(edits@), exact, edits@.len()),
            ),
            r matches Err(e) ==> e == ModelError::Store,
    {
        let ghost d = self@;
        let ghost v = edit_vs(edits@);
        let ghost m = d.s.metas[id];
        proof {
            self.lemma_total();
        }
        let mut touched = false;
        let mut i: usize = 0;
        while i < edits.len()
            invariant
                i <= edits@.len(),
                v == edit_vs(edits@),
                editable_s(v),
                d == old(self)@,
                m == d.s.metas[id],
                doc::total_s(d),
                touched ==> self@ == metas_set_s(d, id, edited_s(m, v, exact, i as nat)),
                !touched ==> self@ == d && edited_s(m, v, exact, i as nat) == m,
            decreases edits@.len() - i,
        {
            assert(v[i as int] == (edits@[i as int].0@, store::scalar_ov(edits@[i as int].1)));
            match &edits[i].1 {
                Some(x) => {
                    match self.set_meta(id, edits[i].0, x) {
                        Ok(_) => {},
                        Err(e) => {
                            return Err(e);
                        },
                    }
                    touched = true;
                },
                None => {
                    if exact {
                        match self.clear_meta(id, edits[i].0) {
                            Ok(_) => {},
                            Err(e) => {
                                return Err(e);
                            },
                        }
                        touched = true;
                    }
                },
            }
            i = i + 1;
            proof {
                let r = edited_s(m, v, exact, i as nat);
                if touched {
                    assert(self@.s.metas =~= d.s.metas.insert(id, r));
                    assert(self@ =~= metas_set_s(d, id, r));
                }
            }
        }
        proof {
            if !touched {
                assert(d.s.metas.insert(id, m) =~= d.s.metas);
                assert(self@ =~= metas_set_s(d, id, m));
            }
        }
        Ok(())
    }
}

// ---------------------------------------------------------------- properties as JSON

pub open spec fn u16_json_s(o: Option<u16>) -> Option<JsonV> {
    match o {
        Some(n) => Some(JsonV::UInt(n as u64)),
        None => None,
    }
}

pub(crate) fn u16_json(o: Option<u16>) -> (r: Option<Json>)
    ensures
        json::json_ov(r) == u16_json_s(o),
        r matches Some(j) ==> json::writable_s(j@),
{
    match o {
        Some(n) => Some(Json::UInt(n as u64)),
        None => None,
    }
}

pub open spec fn u32_json_s(o: Option<u32>) -> Option<JsonV> {
    match o {
        Some(n) => Some(JsonV::UInt(n as u64)),
        None => None,
    }
}

fn u32_json(o: Option<u32>) -> (r: Option<Json>)
    ensures
        json::json_ov(r) == u32_json_s(o),
        r matches Some(j) ==> json::writable_s(j@),
{
    match o {
        Some(n) => Some(Json::UInt(n as u64)),
        None => None,
    }
}

pub open spec fn set_json_s(b: bool) -> Option<JsonV> {
    if b {
        Some(JsonV::Bool(true))
    } else {
        None
    }
}

fn set_json(b: bool) -> (r: Option<Json>)
    ensures
        json::json_ov(r) == set_json_s(b),
        r matches Some(j) ==> json::writable_s(j@),
{
    if b {
        Some(Json::Bool(true))
    } else {
        None
    }
}

pub open spec fn align_json_s(o: Option<Align>) -> Option<JsonV> {
    match o {
        Some(a) => Some(JsonV::Text(a.as_str_s())),
        None => None,
    }
}

pub open spec fn rule_json_s(o: Option<LineRule>) -> Option<JsonV> {
    match o {
        Some(a) => Some(JsonV::Text(a.as_str_s())),
        None => None,
    }
}

/// The tab positions as JSON, none where there are none.
pub open spec fn stops_json_s(stops: Seq<u32>) -> Option<JsonV> {
    if stops.len() == 0 {
        None
    } else {
        Some(JsonV::List(Seq::new(stops.len(), |i: int| Some(stops[i] as u64))))
    }
}

/// Whether some tab stop is not left-aligned.
pub open spec fn any_kind_s(kinds: Seq<u8>, n: nat) -> bool
    decreases n,
{
    n > 0 && (any_kind_s(kinds, (n - 1) as nat) || kinds[n - 1] != 0)
}

/// The tab alignments as JSON, none where every stop is left-aligned.
pub open spec fn kinds_json_s(stops: Seq<u32>, kinds: Seq<u8>) -> Option<JsonV> {
    if stops.len() == 0 || !any_kind_s(kinds, kinds.len()) {
        None
    } else {
        Some(JsonV::List(Seq::new(kinds.len(), |i: int| Some(kinds[i] as u64))))
    }
}

fn stops_json(stops: &Vec<u32>) -> (r: Option<Json>)
    ensures
        json::json_ov(r) == stops_json_s(stops@),
        r matches Some(j) ==> json::writable_s(j@),
{
    if stops.len() == 0 {
        return None;
    }
    let mut out: Vec<Option<u64>> = Vec::new();
    let mut i: usize = 0;
    while i < stops.len()
        invariant
            i <= stops@.len(),
            out@.len() == i,
            forall|j: int| 0 <= j < i ==> #[trigger] out@[j] == Some(stops@[j] as u64),
        decreases stops@.len() - i,
    {
        out.push(Some(stops[i] as u64));
        i = i + 1;
    }
    assert(out@ =~= Seq::new(stops@.len(), |i: int| Some(stops@[i] as u64)));
    Some(Json::List(out))
}

fn kinds_json(stops: &Vec<u32>, kinds: &Vec<u8>) -> (r: Option<Json>)
    ensures
        json::json_ov(r) == kinds_json_s(stops@, kinds@),
        r matches Some(j) ==> json::writable_s(j@),
{
    let mut any = false;
    let mut out: Vec<Option<u64>> = Vec::new();
    let mut i: usize = 0;
    while i < kinds.len()
        invariant
            i <= kinds@.len(),
            out@.len() == i,
            any == any_kind_s(kinds@, i as nat),
            forall|j: int| 0 <= j < i ==> #[trigger] out@[j] == Some(kinds@[j] as u64),
        decreases kinds@.len() - i,
    {
        if kinds[i] != 0 {
            any = true;
        }
        out.push(Some(kinds[i] as u64));
        i = i + 1;
    }
    if stops.len() == 0 || !any {
        return None;
    }
    assert(out@ =~= Seq::new(kinds@.len(), |i: int| Some(kinds@[i] as u64)));
    Some(Json::List(out))
}

/// The members that describe paragraph properties; only what is set is a member.
pub open spec fn para_members_s(p: ParaPropsV) -> MembersV {
    let m = Map::empty();
    let m = json::put_opt_s(m, "align"@, align_json_s(p.align));
    let m = json::put_opt_s(m, "ls"@, u16_json_s(p.line_spacing));
    let m = json::put_opt_s(m, "lr"@, rule_json_s(p.line_rule));
    let m = json::put_opt_s(m, "sb"@, u32_json_s(p.space_before));
    let m = json::put_opt_s(m, "sa"@, u32_json_s(p.space_after));
    let m = json::put_opt_s(m, "il"@, json::opt_int_s(p.indent_left));
    let m = json::put_opt_s(m, "ir"@, json::opt_int_s(p.indent_right));
    let m = json::put_opt_s(m, "ifst"@, json::opt_int_s(p.indent_first));
    let m = json::put_opt_s(m, "nid"@, json::opt_int_s(p.num_id));
    let m = json::put_opt_s(m, "ilvl"@, json::opt_int_s(p.num_ilvl));
    let m = json::put_opt_s(m, "shd"@, json::opt_text_s(p.shading));
    let m = json::put_opt_s(m, "tabs"@, stops_json_s(p.tab_stops));
    let m = json::put_opt_s(m, "tabKinds"@, kinds_json_s(p.tab_stops, p.tab_kinds));
    let m = json::put_opt_s(m, "kn"@, json::opt_flag_s(p.keep_next));
    let m = json::put_opt_s(m, "cs"@, json::opt_flag_s(p.contextual_spacing));
    let m = json::put_opt_s(m, "pbb"@, set_json_s(p.page_break_before));
    let m = json::put_opt_s(m, "pba"@, set_json_s(p.page_break_after));
    let m = json::put_opt_s(m, "colb"@, set_json_s(p.column_break_after));
    let m = json::put_opt_s(m, "se"@, set_json_s(p.section_end));
    let m = json::put_opt_s(m, "cse"@, set_json_s(p.continuous_break));
    let m = json::put_opt_s(m, "frame"@, json::opt_text_s(p.frame));
    let m = json::put_opt_s(m, "pbdr"@, json::opt_text_s(p.border));
    let m = json::put_opt_s(m, "mksz"@, u32_json_s(p.mark_size));
    json::put_opt_s(m, "sectPr"@, json::opt_text_s(p.sect_pr))
}

/// The members that describe paragraph properties.
fn para_props_json(p: &ParaProps) -> (r: Vec<(String, Json)>)
    ensures
        json::listed_s(r) == para_members_s(p@),
        json::all_writable_s(r@),
{
    let align = match p.align {
        Some(a) => Some(Json::Text(a.as_str().to_string())),
        None => None,
    };
    let rule = match p.line_rule {
        Some(a) => Some(Json::Text(a.as_str().to_string())),
        None => None,
    };
    let mut v: Vec<(String, Json)> = Vec::new();
    json::put_opt(&mut v, "align", align);
    json::put_opt(&mut v, "ls", u16_json(p.line_spacing));
    json::put_opt(&mut v, "lr", rule);
    json::put_opt(&mut v, "sb", u32_json(p.space_before));
    json::put_opt(&mut v, "sa", u32_json(p.space_after));
    json::put_opt(&mut v, "il", json::opt_int(p.indent_left));
    json::put_opt(&mut v, "ir", json::opt_int(p.indent_right));
    json::put_opt(&mut v, "ifst", json::opt_int(p.indent_first));
    json::put_opt(&mut v, "nid", json::opt_int(p.num_id));
    json::put_opt(&mut v, "ilvl", json::opt_int(p.num_ilvl));
    json::put_opt(&mut v, "shd", json::opt_text(&p.shading));
    json::put_opt(&mut v, "tabs", stops_json(&p.tab_stops));
    json::put_opt(&mut v, "tabKinds", kinds_json(&p.tab_stops, &p.tab_kinds));
    json::put_opt(&mut v, "kn", json::opt_flag(p.keep_next));
    json::put_opt(&mut v, "cs", json::opt_flag(p.contextual_spacing));
    json::put_opt(&mut v, "pbb", set_json(p.page_break_before));
    json::put_opt(&mut v, "pba", set_json(p.page_break_after));
    json::put_opt(&mut v, "colb", set_json(p.column_break_after));
    json::put_opt(&mut v, "se", set_json(p.section_end));
    json::put_opt(&mut v, "cse", set_json(p.continuous_break));
    json::put_opt(&mut v, "frame", json::opt_text(&p.frame));
    json::put_opt(&mut v, "pbdr", json::opt_text(&p.border));
    json::put_opt(&mut v, "mksz", u32_json(p.mark_size));
    json::put_opt(&mut v, "sectPr", json::opt_text(&p.sect_pr));
    v
}

pub open spec fn cut16_s(o: Option<u64>) -> Option<u16> {
    match o {
        Some(n) => Some(n as u16),
        None => None,
    }
}

fn cut16(o: Option<u64>) -> (r: Option<u16>)
    ensures
        r == cut16_s(o),
{
    match o {
        Some(n) => Some(#[verifier::truncate] (n as u16)),
        None => None,
    }
}

pub open spec fn cut32_s(o: Option<u64>) -> Option<u32> {
    match o {
        Some(n) => Some(n as u32),
        None => None,
    }
}

fn cut32(o: Option<u64>) -> (r: Option<u32>)
    ensures
        r == cut32_s(o),
{
    match o {
        Some(n) => Some(#[verifier::truncate] (n as u32)),
        None => None,
    }
}

fn all32(v: &Vec<u64>) -> (r: Vec<u32>)
    ensures
        r@ == Seq::new(v@.len(), |i: int| v@[i] as u32),
{
    let mut out: Vec<u32> = Vec::new();
    let mut i: usize = 0;
    while i < v.len()
        invariant
            i <= v@.len(),
            out@.len() == i,
            forall|j: int| 0 <= j < i ==> #[trigger] out@[j] == v@[j] as u32,
        decreases v@.len() - i,
    {
        out.push(#[verifier::truncate] (v[i] as u32));
        i = i + 1;
    }
    assert(out@ =~= Seq::new(v@.len(), |i: int| v@[i] as u32));
    out
}

fn all8(v: &Vec<u64>) -> (r: Vec<u8>)
    ensures
        r@ == Seq::new(v@.len(), |i: int| v@[i] as u8),
{
    let mut out: Vec<u8> = Vec::new();
    let mut i: usize = 0;
    while i < v.len()
        invariant
            i <= v@.len(),
            out@.len() == i,
            forall|j: int| 0 <= j < i ==> #[trigger] out@[j] == v@[j] as u8,
        decreases v@.len() - i,
    {
        out.push(#[verifier::truncate] (v[i] as u8));
        i = i + 1;
    }
    assert(out@ =~= Seq::new(v@.len(), |i: int| v@[i] as u8));
    out
}

pub open spec fn lit_s(m: MembersV, key: Seq<char>) -> bool {
    json::flag_s(m, key) == Some(true)
}

fn lit(m: &Vec<(String, Json)>, key: &str) -> (r: bool)
    requires
        json::distinct_s(m@),
    ensures
        r == lit_s(json::listed_s(*m), key@),
{
    match json::get_flag(m, key) {
        Some(b) => b,
        None => false,
    }
}

/// The paragraph properties that members describe.
pub open spec fn para_props_of_s(m: MembersV) -> ParaPropsV {
    let stops = json::list_s(m, "tabs"@);
    let kinds = json::list_s(m, "tabKinds"@);
    ParaPropsV {
        align: align_of_s(json::text_s(m, "align"@)),
        line_spacing: cut16_s(json::uint_s(m, "ls"@)),
        line_rule: style_parse::line_rule_s(json::text_s(m, "lr"@)),
        space_before: cut32_s(json::uint_s(m, "sb"@)),
        space_after: cut32_s(json::uint_s(m, "sa"@)),
        indent_left: signed_s(json::int_s(m, "il"@)),
        indent_right: signed_s(json::int_s(m, "ir"@)),
        indent_first: signed_s(json::int_s(m, "ifst"@)),
        num_id: signed_s(json::int_s(m, "nid"@)),
        num_ilvl: signed_s(json::int_s(m, "ilvl"@)),
        shading: json::text_s(m, "shd"@),
        tab_stops: Seq::new(stops.len(), |i: int| stops[i] as u32),
        tab_kinds: Seq::new(kinds.len(), |i: int| kinds[i] as u8),
        keep_next: json::flag_s(m, "kn"@),
        contextual_spacing: json::flag_s(m, "cs"@),
        page_break_before: lit_s(m, "pbb"@),
        page_break_after: lit_s(m, "pba"@),
        section_end: lit_s(m, "se"@),
        continuous_break: lit_s(m, "cse"@),
        column_break_after: lit_s(m, "colb"@),
        frame: json::text_s(m, "frame"@),
        border: json::text_s(m, "pbdr"@),
        mark_size: cut32_s(json::uint_s(m, "mksz"@)),
        sect_pr: json::text_s(m, "sectPr"@),
    }
}

fn para_props_from_json(m: &Vec<(String, Json)>) -> (r: ParaProps)
    requires
        json::distinct_s(m@),
    ensures
        r@ == para_props_of_s(json::listed_s(*m)),
{
    ParaProps {
        align: align_of(json::get_text(m, "align")),
        line_spacing: cut16(json::get_uint(m, "ls")),
        line_rule: rule_of(json::get_text(m, "lr")),
        space_before: cut32(json::get_uint(m, "sb")),
        space_after: cut32(json::get_uint(m, "sa")),
        indent_left: signed(json::get_int(m, "il")),
        indent_right: signed(json::get_int(m, "ir")),
        indent_first: signed(json::get_int(m, "ifst")),
        num_id: signed(json::get_int(m, "nid")),
        num_ilvl: signed(json::get_int(m, "ilvl")),
        shading: json::get_text(m, "shd"),
        tab_stops: all32(&json::get_list(m, "tabs")),
        tab_kinds: all8(&json::get_list(m, "tabKinds")),
        keep_next: json::get_flag(m, "kn"),
        contextual_spacing: json::get_flag(m, "cs"),
        page_break_before: lit(m, "pbb"),
        page_break_after: lit(m, "pba"),
        section_end: lit(m, "se"),
        continuous_break: lit(m, "cse"),
        column_break_after: lit(m, "colb"),
        frame: json::get_text(m, "frame"),
        border: json::get_text(m, "pbdr"),
        mark_size: cut32(json::get_uint(m, "mksz")),
        sect_pr: json::get_text(m, "sectPr"),
    }
}

// ---------------------------------------------------------------- tracked changes of a paragraph

/// The members that describe who changed what when.
pub open spec fn stamp_members_s(author: Seq<char>, date: Seq<char>, id: u64) -> MembersV {
    Map::<Seq<char>, JsonV>::empty().insert("author"@, JsonV::Text(author)).insert(
        "date"@,
        JsonV::Text(date),
    ).insert("id"@, JsonV::UInt(id))
}

/// The members are there.
pub(crate) proof fn lemma_stamp(author: Seq<char>, date: Seq<char>, id: u64)
    ensures
        json::member_s(stamp_members_s(author, date, id), "author"@) == Some(JsonV::Text(author)),
        json::member_s(stamp_members_s(author, date, id), "date"@) == Some(JsonV::Text(date)),
        json::member_s(stamp_members_s(author, date, id), "id"@) == Some(JsonV::UInt(id)),
        "author"@.len() == 6,
        "date"@.len() == 4,
        "id"@.len() == 2,
{
    reveal_strlit("author");
    reveal_strlit("date");
    reveal_strlit("id");
    assert("author"@.len() == 6 && "date"@.len() == 4 && "id"@.len() == 2);
}

pub(crate) fn stamp(author: &str, date: &str, id: u64) -> (r: Vec<(String, Json)>)
    ensures
        json::listed_s(r) == stamp_members_s(author@, date@, id),
        json::all_writable_s(r@),
{
    let mut v: Vec<(String, Json)> = Vec::new();
    json::put(&mut v, "author", Json::Text(author.to_string()));
    json::put(&mut v, "date", Json::Text(date.to_string()));
    json::put(&mut v, "id", Json::UInt(id));
    v
}

/// The text that keeps a tracked change of paragraph properties.
pub open spec fn prop_change_text_s(c: ParaPropChangeV) -> Seq<char> {
    json::object_s(
        json::with_object_s(
            json::put_opt_s(
                stamp_members_s(c.author, c.date, c.id),
                "style"@,
                json::opt_text_s(c.old_style),
            ),
            "old"@,
            para_members_s(c.old),
        ),
    )
}

/// Whether a tracked change of paragraph properties reads back from its text.
pub open spec fn change_reads_s(c: ParaPropChangeV) -> bool {
    prop_change_of_s(prop_change_text_s(c)) == Some(
        ParaPropChangeV { old: readback::kept_s(c.old), ..c },
    )
}

/// The text that keeps a tracked change of paragraph properties, from which it reads back.
pub(crate) fn prop_change_text(c: &ParaPropChange) -> (r: String)
    ensures
        r@ == prop_change_text_s(c@),
        change_reads_s(c@),
{
    let mut v = stamp(c.author.as_str(), c.date.as_str(), c.id);
    json::put_opt(&mut v, "style", json::opt_text(&c.old_style));
    let r = json::object_with(&v, "old", &para_props_json(&c.old));
    proof {
        lemma_stamp(c@.author, c@.date, c@.id);
        lemma_old_style(c@);
        readback::law_paragraph_members_read_back(c@.old);
        let m = json::members_s(r@)->0;
        assert(json::nested_s(m, "old"@) == para_members_s(c@.old));
        assert(prop_change_of_s(r@)->0 =~= (ParaPropChangeV {
            old: readback::kept_s(c@.old),
            ..c@
        }));
    }
    r
}

proof fn lemma_old_style(c: ParaPropChangeV)
    ensures
        ({
            let m = json::with_object_s(
                json::put_opt_s(
                    stamp_members_s(c.author, c.date, c.id),
                    "style"@,
                    json::opt_text_s(c.old_style),
                ),
                "old"@,
                para_members_s(c.old),
            );
            &&& runs::text_or_empty_s(m, "author"@) == c.author
            &&& runs::text_or_empty_s(m, "date"@) == c.date
            &&& runs::id_member_s(m) == c.id
            &&& json::text_s(m, "style"@) == c.old_style
        }),
{
    lemma_stamp(c.author, c.date, c.id);
    reveal_strlit("style");
    reveal_strlit("old");
    assert("style"@.len() == 5 && "old"@.len() == 3);
}

/// The tracked change of paragraph properties that a text keeps.
pub open spec fn prop_change_of_s(raw: Seq<char>) -> Option<ParaPropChangeV> {
    match json::members_s(raw) {
        Some(m) => Some(
            ParaPropChangeV {
                author: runs::text_or_empty_s(m, "author"@),
                date: runs::text_or_empty_s(m, "date"@),
                id: runs::id_member_s(m),
                old_style: json::text_s(m, "style"@),
                old: para_props_of_s(json::nested_s(m, "old"@)),
            },
        ),
        None => None,
    }
}

/// The tracked change of paragraph properties among the properties of a block.
pub open spec fn prop_change_s(m: PropsV) -> Option<ParaPropChangeV> {
    match runs::text_prop_s(m, "ppc"@) {
        Some(raw) => prop_change_of_s(raw),
        None => None,
    }
}

/// The name of a kind of paragraph-mark revision.
pub open spec fn kind_name_s(k: TrackKind) -> Option<Seq<char>> {
    match k {
        TrackKind::Ins => Some("ins"@),
        TrackKind::Del => Some("del"@),
        TrackKind::MoveFrom => Some("movefrom"@),
        TrackKind::MoveTo => Some("moveto"@),
        TrackKind::Fmt => None,
    }
}

fn kind_name(k: TrackKind) -> (r: Option<&'static str>)
    ensures
        (match r {
            Some(s) => Some(s@),
            None => None,
        }) == kind_name_s(k),
{
    match k {
        TrackKind::Ins => Some("ins"),
        TrackKind::Del => Some("del"),
        TrackKind::MoveFrom => Some("movefrom"),
        TrackKind::MoveTo => Some("moveto"),
        TrackKind::Fmt => None,
    }
}

/// The kind of paragraph-mark revision that a name stands for.
pub open spec fn kind_of_s(n: Seq<char>) -> Option<TrackKind> {
    if n == "ins"@ {
        Some(TrackKind::Ins)
    } else if n == "del"@ {
        Some(TrackKind::Del)
    } else if n == "movefrom"@ {
        Some(TrackKind::MoveFrom)
    } else if n == "moveto"@ {
        Some(TrackKind::MoveTo)
    } else {
        None
    }
}

fn kind_of(n: &str) -> (r: Option<TrackKind>)
    ensures
        r == kind_of_s(n@),
{
    if str_eq(n, "ins") {
        Some(TrackKind::Ins)
    } else if str_eq(n, "del") {
        Some(TrackKind::Del)
    } else if str_eq(n, "movefrom") {
        Some(TrackKind::MoveFrom)
    } else if str_eq(n, "moveto") {
        Some(TrackKind::MoveTo)
    } else {
        None
    }
}

/// The text that keeps a paragraph-mark revision of the kind called `kind`.
pub open spec fn mark_text_s(kind: Seq<char>, t: TrackV) -> Seq<char> {
    json::object_s(stamp_members_s(t.author, t.date, t.id).insert("kind"@, JsonV::Text(kind)))
}

/// The paragraph-mark revision that a text keeps.
pub open spec fn mark_of_s(raw: Seq<char>) -> Option<TrackV> {
    match json::members_s(raw) {
        Some(m) => match json::text_s(m, "kind"@) {
            Some(n) => match kind_of_s(n) {
                Some(k) => Some(runs::track_of_s(k, m)),
                None => None,
            },
            None => None,
        },
        None => None,
    }
}

/// Whether a paragraph-mark revision reads back from its text.
pub open spec fn mark_reads_s(t: TrackV) -> bool {
    mark_of_s(mark_text_s(kind_name_s(t.kind)->0, t)) == Some(t)
}

proof fn lemma_mark_reads(t: TrackV)
    requires
        !(t.kind is Fmt),
        json::members_s(mark_text_s(kind_name_s(t.kind)->0, t)) == Some(
            stamp_members_s(t.author, t.date, t.id).insert(
                "kind"@,
                JsonV::Text(kind_name_s(t.kind)->0),
            ),
        ),
    ensures
        mark_reads_s(t),
{
    lemma_stamp(t.author, t.date, t.id);
    reveal_strlit("kind");
    reveal_strlit("ins");
    reveal_strlit("del");
    reveal_strlit("movefrom");
    reveal_strlit("moveto");
    assert("kind"@.len() == 4 && "kind"@[0] == 'k');
    reveal_strlit("date");
    assert("date"@[0] == 'd');
    assert("ins"@.len() == 3 && "del"@.len() == 3 && "ins"@[0] == 'i' && "del"@[0] == 'd');
    assert("movefrom"@.len() == 8 && "moveto"@.len() == 6);
    assert(mark_of_s(mark_text_s(kind_name_s(t.kind)->0, t))->0 =~= t);
}

/// The paragraph-mark revision among the properties of a block.
pub open spec fn mark_change_s(m: PropsV) -> Option<TrackV> {
    match runs::text_prop_s(m, "pmark"@) {
        Some(raw) => mark_of_s(raw),
        None => None,
    }
}

impl TextDoc {
    /// The tracked change of a block's paragraph properties.
    pub(crate) fn read_para_prop_change(&self, id: BlockId) -> (r: Option<ParaPropChange>)
        ensures
            types::para_prop_change_ov(r) == prop_change_s(self@.s.metas[id]),
    {
        let raw = match self.meta_string(id, "ppc") {
            Some(raw) => raw,
            None => {
                return None;
            },
        };
        match json::members(raw.as_str()) {
            Some(m) => Some(
                ParaPropChange {
                    author: text_or_empty(&m, "author"),
                    date: text_or_empty(&m, "date"),
                    id: id_member(&m),
                    old_style: json::get_text(&m, "style"),
                    old: para_props_from_json(&json::get_nested(&m, "old")),
                },
            ),
            None => None,
        }
    }

    /// The revision of a block's paragraph mark.
    pub(crate) fn read_para_mark(&self, id: BlockId) -> (r: Option<Track>)
        ensures
            types::track_ov(r) == mark_change_s(self@.s.metas[id]),
    {
        let raw = match self.meta_string(id, "pmark") {
            Some(raw) => raw,
            None => {
                return None;
            },
        };
        match json::members(raw.as_str()) {
            Some(m) => match json::get_text(&m, "kind") {
                Some(n) => match kind_of(n.as_str()) {
                    Some(k) => Some(track_of(k, &m)),
                    None => None,
                },
                None => None,
            },
            None => None,
        }
    }

    /// Write each set paragraph property to a block.
    pub(crate) fn write_para_props(&mut self, id: BlockId, p: &ParaProps) -> (r: Result<
        (),
        ModelError,
    >)
        ensures
            old(self)@.s.editable && store::live_s(old(self)@.s, id) ==> r is Ok,
            r is Ok ==> final(self)@ == metas_set_s(
                old(self)@,
                id,
                with_para_props_s(old(self)@.s.metas[id], p@, false),
            ),
            r matches Err(e) ==> e == ModelError::Store,
    {
        self.edit_metas(id, &para_edits(p), false)
    }

    /// Make a block's paragraph properties exactly these: one that is unset is cleared.
    pub(crate) fn set_para_props_exact(&mut self, id: BlockId, p: &ParaProps) -> (r: Result<
        (),
        ModelError,
    >)
        ensures
            old(self)@.s.editable && store::live_s(old(self)@.s, id) ==> r is Ok,
            r is Ok ==> final(self)@ == metas_set_s(
                old(self)@,
                id,
                with_para_props_s(old(self)@.s.metas[id], p@, true),
            ),
            r matches Err(e) ==> e == ModelError::Store,
    {
        self.edit_metas(id, &para_edits(p), true)
    }

    /// Record a tracked change of a block's paragraph properties.
    pub(crate) fn write_para_prop_change(&mut self, id: BlockId, c: &ParaPropChange) -> (r: Result<
        (),
        ModelError,
    >)
        ensures
            old(self)@.s.editable && store::live_s(old(self)@.s, id) ==> r is Ok,
            r is Ok ==> final(self)@ == doc::meta_set_s(
                old(self)@,
                id,
                "ppc"@,
                ScalarV::Text(prop_change_text_s(c@)),
            ),
            r is Ok ==> change_reads_s(c@),
            r matches Err(e) ==> e == ModelError::Store,
    {
        proof {
            lemma_change_keys();
        }
        self.set_meta(id, "ppc", &Scalar::Text(prop_change_text(c)))
    }

    /// Record a revision of a block's paragraph mark; a format change is refused.
    pub(crate) fn write_para_mark(&mut self, id: BlockId, t: &Track) -> (r: Result<(), ModelError>)
        ensures
            old(self)@.s.editable && store::live_s(old(self)@.s, id) && !(t@.kind is Fmt) ==> r is Ok,
            t@.kind is Fmt ==> r == Err::<(), ModelError>(ModelError::BadMark) && final(self)@
                == old(self)@,
            !(t@.kind is Fmt) ==> (r matches Err(e) ==> e == ModelError::Store),
            r is Ok ==> final(self)@ == doc::meta_set_s(
                old(self)@,
                id,
                "pmark"@,
                ScalarV::Text(mark_text_s(kind_name_s(t@.kind)->0, t@)),
            ),
            r is Ok ==> mark_reads_s(t@),
    {
        let name = match kind_name(t.kind) {
            Some(n) => n,
            None => {
                return Err(ModelError::BadMark);
            },
        };
        let mut v = stamp(t.author.as_str(), t.date.as_str(), t.id);
        json::put(&mut v, "kind", Json::Text(name.to_string()));
        let text = json::object(&v);
        proof {
            lemma_change_keys();
            lemma_mark_reads(t@);
        }
        self.set_meta(id, "pmark", &Scalar::Text(text))
    }
}

/// Neither a tracked change nor a style is kept under the name of the text.
pub(crate) proof fn lemma_change_keys()
    ensures
        "ppc"@ != store::TEXT@,
        "pmark"@ != store::TEXT@,
        "style"@ != store::TEXT@,
        "type"@ != store::TEXT@,
        "wrapopen"@ != store::TEXT@,
        "wrapclose"@ != store::TEXT@,
{
    reveal_strlit("text");
    reveal_strlit("ppc");
    reveal_strlit("pmark");
    reveal_strlit("style");
    reveal_strlit("type");
    reveal_strlit("wrapopen");
    reveal_strlit("wrapclose");
    assert("type"@[1] != store::TEXT@[1]);
}

} // verus!
