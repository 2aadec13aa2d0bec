//! Style definitions: inheritance, runtime edits, and Word's built-in gallery.
//!
//! Resolves the inheritance chain (document defaults, then table style, then paragraph style,
//! each style over its `basedOn` ancestors) and fills in the built-in styles that a document
//! omits.

use vstd::prelude::*;
use crate::strmap;
use crate::strmap::StrMap;
use crate::strs;
use crate::strs::{opt_clone, parse_uint, str_eq};
use crate::package;
use crate::package::lower;
use crate::search;
use crate::search::strip_prefix;
use crate::types;
use crate::types::{
    clone_border_opt, copy_vec, Align, Border, CellMargins, EdgeBorders, EdgeBordersV, LineRule,
};

verus! {

broadcast use vstd::string::group_string_axioms;

/// Formatting that a style (or the document default) contributes. `None` is unset: inherit.
/// Run sizes are half-points, colours hex, spacing twips.
#[derive(Debug, PartialEq, Eq)]
pub struct StyleProps {
    pub size: Option<u16>,
    pub bold: Option<bool>,
    pub italic: Option<bool>,
    pub color: Option<String>,
    /// Highlight colour name; `none` cancels an inherited highlight.
    pub highlight: Option<String>,
    /// Font family.
    pub font: Option<String>,
    /// Line spacing: 240ths of a line with the `auto` rule, else twips.
    pub line_spacing: Option<u16>,
    /// Line-spacing rule; unset is `auto`.
    pub line_rule: Option<LineRule>,
    pub space_before: Option<u32>,
    pub space_after: Option<u32>,
    /// List membership and level.
    pub num_id: Option<i32>,
    pub num_ilvl: Option<i32>,
    /// Paragraph border box in compact `edge=val,sz,space,color` form.
    pub border: Option<String>,
    /// Indents in twips; negative ones widen the box into the margins.
    pub indent_left: Option<i32>,
    pub indent_right: Option<i32>,
    /// Tab stop positions in twips, with parallel kinds.
    pub tab_stops: Vec<u32>,
    pub tab_kinds: Vec<u8>,
    /// Positions that this style retracts from inherited stops.
    pub tab_clears: Vec<u32>,
    pub keep_next: Option<bool>,
    pub contextual_spacing: Option<bool>,
    pub align: Option<Align>,
    pub page_break_before: Option<bool>,
}

/// The mathematical value of a [`StyleProps`].
#[verifier::ext_equal]
pub struct StylePropsV {
    pub size: Option<u16>,
    pub bold: Option<bool>,
    pub italic: Option<bool>,
    pub color: Option<Seq<char>>,
    pub highlight: Option<Seq<char>>,
    pub font: Option<Seq<char>>,
    pub line_spacing: Option<u16>,
    pub line_rule: Option<LineRule>,
    pub space_before: Option<u32>,
    pub space_after: Option<u32>,
    pub num_id: Option<i32>,
    pub num_ilvl: Option<i32>,
    pub border: Option<Seq<char>>,
    pub indent_left: Option<i32>,
    pub indent_right: Option<i32>,
    pub tab_stops: Seq<u32>,
    pub tab_kinds: Seq<u8>,
    pub tab_clears: Seq<u32>,
    pub keep_next: Option<bool>,
    pub contextual_spacing: Option<bool>,
    pub align: Option<Align>,
    pub page_break_before: Option<bool>,
}

impl View for StyleProps {
    type V = StylePropsV;

    open spec fn view(&self) -> StylePropsV {
        StylePropsV {
            size: self.size,
            bold: self.bold,
            italic: self.italic,
            color: strs::opt_s(self.color),
            highlight: strs::opt_s(self.highlight),
            font: strs::opt_s(self.font),
            line_spacing: self.line_spacing,
            line_rule: self.line_rule,
            space_before: self.space_before,
            space_after: self.space_after,
            num_id: self.num_id,
            num_ilvl: self.num_ilvl,
            border: strs::opt_s(self.border),
            indent_left: self.indent_left,
            indent_right: self.indent_right,
            tab_stops: self.tab_stops@,
            tab_kinds: self.tab_kinds@,
            tab_clears: self.tab_clears@,
            keep_next: self.keep_next,
            contextual_spacing: self.contextual_spacing,
            align: self.align,
            page_break_before: self.page_break_before,
        }
    }
}

impl Clone for StyleProps {
    fn clone(&self) -> (r: Self)
        ensures
            r@ == self@,
    {
        StyleProps {
            size: self.size,
            bold: self.bold,
            italic: self.italic,
            color: opt_clone(&self.color),
            highlight: opt_clone(&self.highlight),
            font: opt_clone(&self.font),
            line_spacing: self.line_spacing,
            line_rule: self.line_rule,
            space_before: self.space_before,
            space_after: self.space_after,
            num_id: self.num_id,
            num_ilvl: self.num_ilvl,
            border: opt_clone(&self.border),
            indent_left: self.indent_left,
            indent_right: self.indent_right,
            tab_stops: copy_vec(&self.tab_stops),
            tab_kinds: copy_vec(&self.tab_kinds),
            tab_clears: copy_vec(&self.tab_clears),
            keep_next: self.keep_next,
            contextual_spacing: self.contextual_spacing,
            align: self.align,
            page_break_before: self.page_break_before,
        }
    }
}

impl StylePropsV {
    /// The value with nothing set.
    pub open spec fn initial() -> StylePropsV {
        StylePropsV {
            size: None,
            bold: None,
            italic: None,
            color: None,
            highlight: None,
            font: None,
            line_spacing: None,
            line_rule: None,
            space_before: None,
            space_after: None,
            num_id: None,
            num_ilvl: None,
            border: None,
            indent_left: None,
            indent_right: None,
            tab_stops: Seq::empty(),
            tab_kinds: Seq::empty(),
            tab_clears: Seq::empty(),
            keep_next: None,
            contextual_spacing: None,
            align: None,
            page_break_before: None,
        }
    }
}

impl Default for StyleProps {
    fn default() -> (r: Self)
        ensures
            r@ == StylePropsV::initial(),
    {
        StyleProps {
            size: None,
            bold: None,
            italic: None,
            color: None,
            highlight: None,
            font: None,
            line_spacing: None,
            line_rule: None,
            space_before: None,
            space_after: None,
            num_id: None,
            num_ilvl: None,
            border: None,
            indent_left: None,
            indent_right: None,
            tab_stops: Vec::new(),
            tab_kinds: Vec::new(),
            tab_clears: Vec::new(),
            keep_next: None,
            contextual_spacing: None,
            align: None,
            page_break_before: None,
        }
    }
}

// ---------------------------------------------------------------- overlay

/// The value of `other` where it is set, else that of `base`.
pub open spec fn later_s<T>(base: Option<T>, other: Option<T>) -> Option<T> {
    match other {
        Some(_) => other,
        None => base,
    }
}

fn later<T: Copy>(base: Option<T>, other: Option<T>) -> (r: Option<T>)
    ensures
        r == later_s(base, other),
{
    match other {
        Some(_) => other,
        None => base,
    }
}

fn later_text(base: &Option<String>, other: &Option<String>) -> (r: Option<String>)
    ensures
        strs::opt_s(r) == later_s(strs::opt_s(*base), strs::opt_s(*other)),
{
    match other {
        Some(_) => opt_clone(other),
        None => opt_clone(base),
    }
}

/// Tab stops with their kinds.
#[verifier::ext_equal]
pub struct TabsV {
    pub stops: Seq<u32>,
    pub kinds: Seq<u8>,
}

/// The kinds, padded with the left kind up to `n`.
pub open spec fn padded_s(kinds: Seq<u8>, n: int) -> Seq<u8>
    decreases n - kinds.len(),
{
    if kinds.len() < n {
        padded_s(kinds.push(0), n)
    } else {
        kinds
    }
}

/// The index of the first stop at `pos`, from `from` on; the length where there is none.
pub open spec fn stop_at_s(stops: Seq<u32>, pos: u32, from: int) -> int
    decreases stops.len() - from,
{
    if 0 <= from < stops.len() {
        if stops[from] == pos {
            from
        } else {
            stop_at_s(stops, pos, from + 1)
        }
    } else {
        stops.len() as int
    }
}

/// The index of the first stop at or past `pos`, from `from` on; the length where there is none.
pub open spec fn stop_from_s(stops: Seq<u32>, pos: u32, from: int) -> int
    decreases stops.len() - from,
{
    if 0 <= from < stops.len() {
        if stops[from] >= pos {
            from
        } else {
            stop_from_s(stops, pos, from + 1)
        }
    } else {
        stops.len() as int
    }
}

/// The tabs without the first stop at `pos`.
pub open spec fn cleared_s(t: TabsV, pos: u32) -> TabsV {
    let i = stop_at_s(t.stops, pos, 0);
    if i < t.stops.len() {
        TabsV { stops: t.stops.remove(i), kinds: t.kinds.remove(i) }
    } else {
        t
    }
}

pub open spec fn cleared_all_s(t: TabsV, clears: Seq<u32>, n: nat) -> TabsV
    decreases n,
{
    if n == 0 {
        t
    } else {
        cleared_s(cleared_all_s(t, clears, (n - 1) as nat), clears[n - 1])
    }
}

/// The tabs with a stop at `pos`: a stop there takes the new kind, otherwise the stop goes
/// before the first one past it.
pub open spec fn with_stop_s(t: TabsV, pos: u32, kind: u8) -> TabsV {
    let j = stop_from_s(t.stops, pos, 0);
    if j < t.stops.len() {
        if t.stops[j] == pos {
            TabsV { stops: t.stops, kinds: t.kinds.update(j, kind) }
        } else {
            TabsV { stops: t.stops.insert(j, pos), kinds: t.kinds.insert(j, kind) }
        }
    } else {
        TabsV { stops: t.stops.push(pos), kinds: t.kinds.push(kind) }
    }
}

/// The kind of the stop at index `i`; the left kind where none is recorded.
pub open spec fn kind_at_s(kinds: Seq<u8>, i: int) -> u8 {
    if i < kinds.len() {
        kinds[i]
    } else {
        0
    }
}

pub open spec fn with_stops_s(t: TabsV, stops: Seq<u32>, kinds: Seq<u8>, n: nat) -> TabsV
    decreases n,
{
    if n == 0 {
        t
    } else {
        with_stop_s(
            with_stops_s(t, stops, kinds, (n - 1) as nat),
            stops[n - 1],
            kind_at_s(kinds, n - 1),
        )
    }
}

/// The tabs of `base` under those of a derived style: its clears retract inherited stops, then
/// its own stops are inserted.
pub open spec fn merged_tabs_s(base: TabsV, clears: Seq<u32>, stops: Seq<u32>, kinds: Seq<u8>) -> TabsV {
    if clears.len() == 0 && stops.len() == 0 {
        base
    } else {
        let padded = TabsV { kinds: padded_s(base.kinds, base.stops.len() as int), ..base };
        with_stops_s(cleared_all_s(padded, clears, clears.len()), stops, kinds, stops.len())
    }
}

/// `other` laid over `base`: what `other` sets wins, what it leaves unset is inherited. The line
/// rule travels with the line spacing, and tab stops merge.
pub open spec fn overlay_s(base: StylePropsV, other: StylePropsV) -> StylePropsV {
    let tabs = merged_tabs_s(
        TabsV { stops: base.tab_stops, kinds: base.tab_kinds },
        other.tab_clears,
        other.tab_stops,
        other.tab_kinds,
    );
    StylePropsV {
        size: later_s(base.size, other.size),
        bold: later_s(base.bold, other.bold),
        italic: later_s(base.italic, other.italic),
        color: later_s(base.color, other.color),
        highlight: later_s(base.highlight, other.highlight),
        font: later_s(base.font, other.font),
        line_spacing: later_s(base.line_spacing, other.line_spacing),
        line_rule: if other.line_spacing is Some {
            other.line_rule
        } else {
            base.line_rule
        },
        space_before: later_s(base.space_before, other.space_before),
        space_after: later_s(base.space_after, other.space_after),
        num_id: later_s(base.num_id, other.num_id),
        num_ilvl: later_s(base.num_ilvl, other.num_ilvl),
        border: later_s(base.border, other.border),
        indent_left: later_s(base.indent_left, other.indent_left),
        indent_right: later_s(base.indent_right, other.indent_right),
        tab_stops: tabs.stops,
        tab_kinds: tabs.kinds,
        tab_clears: base.tab_clears,
        keep_next: later_s(base.keep_next, other.keep_next),
        contextual_spacing: later_s(base.contextual_spacing, other.contextual_spacing),
        align: later_s(base.align, other.align),
        page_break_before: later_s(base.page_break_before, other.page_break_before),
    }
}

fn stop_at(stops: &Vec<u32>, pos: u32) -> (r: usize)
    ensures
        r == stop_at_s(stops@, pos, 0),
        r <= stops@.len(),
{
    let mut i: usize = 0;
    while i < stops.len()
        invariant
            i <= stops@.len(),
            stop_at_s(stops@, pos, 0) == stop_at_s(stops@, pos, i as int),
        decreases stops@.len() - i,
    {
        if stops[i] == pos {
            return i;
        }
        i = i + 1;
    }
    i
}

fn stop_from(stops: &Vec<u32>, pos: u32) -> (r: usize)
    ensures
        r == stop_from_s(stops@, pos, 0),
        r <= stops@.len(),
{
    let mut i: usize = 0;
    while i < stops.len()
        invariant
            i <= stops@.len(),
            stop_from_s(stops@, pos, 0) == stop_from_s(stops@, pos, i as int),
        decreases stops@.len() - i,
    {
        if stops[i] >= pos {
            return i;
        }
        i = i + 1;
    }
    i
}

fn merge_tabs(
    stops: &mut Vec<u32>,
    kinds: &mut Vec<u8>,
    clears: &Vec<u32>,
    new_stops: &Vec<u32>,
    new_kinds: &Vec<u8>,
)
    ensures
        (TabsV { stops: final(stops)@, kinds: final(kinds)@ }) == merged_tabs_s(
            TabsV { stops: old(stops)@, kinds: old(kinds)@ },
            clears@,
            new_stops@,
            new_kinds@,
        ),
{
    if clears.len() == 0 && new_stops.len() == 0 {
        return;
    }
    let ghost n = stops@.len() as int;
    let ghost was = kinds@;
    while kinds.len() < stops.len()
        invariant
            n == stops@.len(),
            padded_s(kinds@, n) == padded_s(was, n),
            stops@ == old(stops)@,
        decreases n - kinds@.len(),
    {
        kinds.push(0);
    }
    let ghost padded = TabsV { stops: stops@, kinds: kinds@ };
    let mut i: usize = 0;
    while i < clears.len()
        invariant
            i <= clears@.len(),
            (TabsV { stops: stops@, kinds: kinds@ }) == cleared_all_s(padded, clears@, i as nat),
            stops@.len() <= kinds@.len(),
        decreases clears@.len() - i,
    {
        let at = stop_at(stops, clears[i]);
        if at < stops.len() {
            stops.remove(at);
            kinds.remove(at);
        }
        i = i + 1;
    }
    let ghost cleared = TabsV { stops: stops@, kinds: kinds@ };
    let mut j: usize = 0;
    while j < new_stops.len()
        invariant
            j <= new_stops@.len(),
            (TabsV { stops: stops@, kinds: kinds@ }) == with_stops_s(
                cleared,
                new_stops@,
                new_kinds@,
                j as nat,
            ),
            stops@.len() <= kinds@.len(),
        decreases new_stops@.len() - j,
    {
        let pos: u32 = new_stops[j];
        let kind: u8 = if j < new_kinds.len() {
            new_kinds[j]
        } else {
            0
        };
        let at = stop_from(stops, pos);
        if at < stops.len() {
            if stops[at] == pos {
                kinds.set(at, kind);
            } else {
                stops.insert(at, pos);
                kinds.insert(at, kind);
            }
        } else {
            stops.push(pos);
            kinds.push(kind);
        }
        j = j + 1;
    }
}

impl StyleProps {
    /// Overlay `other`'s set fields onto `self`.
    pub fn overlay(&mut self, other: &StyleProps)
        ensures
            final(self)@ == overlay_s(old(self)@, other@),
    {
        self.size = later(self.size, other.size);
        self.bold = later(self.bold, other.bold);
        self.italic = later(self.italic, other.italic);
        self.color = later_text(&self.color, &other.color);
        self.highlight = later_text(&self.highlight, &other.highlight);
        self.font = later_text(&self.font, &other.font);
        if other.line_spacing.is_some() {
            self.line_spacing = other.line_spacing;
            self.line_rule = other.line_rule;
        }
        self.space_before = later(self.space_before, other.space_before);
        self.space_after = later(self.space_after, other.space_after);
        self.border = later_text(&self.border, &other.border);
        self.indent_left = later(self.indent_left, other.indent_left);
        self.indent_right = later(self.indent_right, other.indent_right);
        merge_tabs(
            &mut self.tab_stops,
            &mut self.tab_kinds,
            &other.tab_clears,
            &other.tab_stops,
            &other.tab_kinds,
        );
        self.num_id = later(self.num_id, other.num_id);
        self.num_ilvl = later(self.num_ilvl, other.num_ilvl);
        self.keep_next = later(self.keep_next, other.keep_next);
        self.contextual_spacing = later(self.contextual_spacing, other.contextual_spacing);
        self.align = later(self.align, other.align);
        self.page_break_before = later(self.page_break_before, other.page_break_before);
    }
}

/// Overlaying a style that sets nothing changes nothing.
pub proof fn law_overlay_of_nothing(p: StylePropsV)
    ensures
        overlay_s(p, StylePropsV::initial()) == p,
{
    assert(overlay_s(p, StylePropsV::initial()) =~= p);
}

// ---------------------------------------------------------------- the style table

impl View for CellMargins {
    type V = CellMargins;

    open spec fn view(&self) -> CellMargins {
        *self
    }
}

/// Style information from `word/styles.xml`: the document defaults, each named style's own
/// properties and each style's `basedOn` parent.
pub struct StyleTable {
    pub default: StyleProps,
    /// The id of the default paragraph style, which a paragraph without a style inherits.
    pub default_para_style: Option<String>,
    pub by_id: StrMap<StyleProps>,
    /// Parent of each style id.
    pub based_on: StrMap<String>,
    /// Each table style's base borders.
    pub table_borders: StrMap<EdgeBorders>,
    /// Each table style's base cell margins.
    pub table_cell_margins: StrMap<CellMargins>,
    /// Each table style's first-row shading as an effective RGB hex.
    pub table_first_row_shd: StrMap<String>,
    /// Human-facing name of each style id.
    pub names: StrMap<String>,
    /// Paragraph style ids that the gallery offers, in order.
    pub gallery: Vec<String>,
}

/// The mathematical value of a [`StyleTable`].
#[verifier::ext_equal]
pub struct StyleTableV {
    pub default: StylePropsV,
    pub default_para_style: Option<Seq<char>>,
    pub by_id: Seq<(Seq<char>, StylePropsV)>,
    pub based_on: Seq<(Seq<char>, Seq<char>)>,
    pub table_borders: Seq<(Seq<char>, EdgeBordersV)>,
    pub table_cell_margins: Seq<(Seq<char>, CellMargins)>,
    pub table_first_row_shd: Seq<(Seq<char>, Seq<char>)>,
    pub names: Seq<(Seq<char>, Seq<char>)>,
    pub gallery: Seq<Seq<char>>,
}

impl View for StyleTable {
    type V = StyleTableV;

    open spec fn view(&self) -> StyleTableV {
        StyleTableV {
            default: self.default@,
            default_para_style: strs::opt_s(self.default_para_style),
            by_id: self.by_id@,
            based_on: self.based_on@,
            table_borders: self.table_borders@,
            table_cell_margins: self.table_cell_margins@,
            table_first_row_shd: self.table_first_row_shd@,
            names: self.names@,
            gallery: search::texts_s(self.gallery@),
        }
    }
}

impl StyleTableV {
    /// A table that defines nothing.
    pub open spec fn initial() -> StyleTableV {
        StyleTableV {
            default: StylePropsV::initial(),
            default_para_style: None,
            by_id: Seq::empty(),
            based_on: Seq::empty(),
            table_borders: Seq::empty(),
            table_cell_margins: Seq::empty(),
            table_first_row_shd: Seq::empty(),
            names: Seq::empty(),
            gallery: Seq::empty(),
        }
    }
}

impl Default for StyleTable {
    fn default() -> (r: Self)
        ensures
            r@ == StyleTableV::initial(),
    {
        let r = StyleTable {
            default: StyleProps::default(),
            default_para_style: None,
            by_id: StrMap::new(),
            based_on: StrMap::new(),
            table_borders: StrMap::new(),
            table_cell_margins: StrMap::new(),
            table_first_row_shd: StrMap::new(),
            names: StrMap::new(),
            gallery: Vec::new(),
        };
        assert(r@.gallery =~= Seq::empty());
        r
    }
}

/// The view of an optional borrowed text.
pub open spec fn opt_str_s(o: Option<&str>) -> Option<Seq<char>> {
    match o {
        Some(x) => Some(x@),
        None => None,
    }
}

/// The ids from `cur` upwards that follow `acc`: each one defined, not met before, and at most
/// `fuel` of them.
pub open spec fn chain_from_s(
    t: StyleTableV,
    cur: Option<Seq<char>>,
    acc: Seq<Seq<char>>,
    fuel: nat,
) -> Seq<Seq<char>>
    decreases fuel,
{
    if fuel == 0 {
        acc
    } else {
        match cur {
            None => acc,
            Some(id) => if !strmap::has_s(t.by_id, id) || acc.contains(id) {
                acc
            } else {
                chain_from_s(t, strmap::get_s(t.based_on, id), acc.push(id), (fuel - 1) as nat)
            },
        }
    }
}

/// The `basedOn` chain of a style, most derived first. A cycle is cut where it closes, and no
/// chain is longer than 33 styles.
pub open spec fn chain_s(t: StyleTableV, style: Option<Seq<char>>) -> Seq<Seq<char>> {
    chain_from_s(t, style, Seq::empty(), 33)
}

/// The properties `p` under the styles `chain[k..]`, the last of them first.
pub open spec fn layered_s(p: StylePropsV, t: StyleTableV, chain: Seq<Seq<char>>, k: int) -> StylePropsV
    decreases chain.len() - k,
{
    if 0 <= k < chain.len() {
        let under = layered_s(p, t, chain, k + 1);
        match strmap::get_s(t.by_id, chain[k]) {
            Some(s) => overlay_s(under, s),
            None => under,
        }
    } else {
        p
    }
}

/// The style, or the default paragraph style where none is given.
pub open spec fn style_or_default_s(t: StyleTableV, style: Option<Seq<char>>) -> Option<Seq<char>> {
    match style {
        Some(_) => style,
        None => t.default_para_style,
    }
}

/// The effective properties of a paragraph of style `style`.
pub open spec fn resolve_s(t: StyleTableV, style: Option<Seq<char>>) -> StylePropsV {
    layered_s(t.default, t, chain_s(t, style_or_default_s(t, style)), 0)
}

/// The effective properties inside a table: the table style lies between the document defaults
/// and the paragraph style.
pub open spec fn resolve_in_table_s(
    t: StyleTableV,
    style: Option<Seq<char>>,
    table_style: Option<Seq<char>>,
) -> StylePropsV {
    layered_s(
        layered_s(t.default, t, chain_s(t, table_style), 0),
        t,
        chain_s(t, style_or_default_s(t, style)),
        0,
    )
}

/// `other`'s edges laid over `into`'s.
pub open spec fn overlay_edges_s(into: EdgeBordersV, other: EdgeBordersV) -> EdgeBordersV {
    EdgeBordersV {
        top: later_s(into.top, other.top),
        left: later_s(into.left, other.left),
        bottom: later_s(into.bottom, other.bottom),
        right: later_s(into.right, other.right),
        inside_h: later_s(into.inside_h, other.inside_h),
        inside_v: later_s(into.inside_v, other.inside_v),
    }
}

pub open spec fn table_borders_s(t: StyleTableV, chain: Seq<Seq<char>>, k: int) -> EdgeBordersV
    decreases chain.len() - k,
{
    if 0 <= k < chain.len() {
        let under = table_borders_s(t, chain, k + 1);
        match strmap::get_s(t.table_borders, chain[k]) {
            Some(b) => overlay_edges_s(under, b),
            None => under,
        }
    } else {
        EdgeBordersV::initial()
    }
}

pub open spec fn overlay_margins_s(m: CellMargins, s: CellMargins) -> CellMargins {
    CellMargins {
        top: later_s(m.top, s.top),
        left: later_s(m.left, s.left),
        bottom: later_s(m.bottom, s.bottom),
        right: later_s(m.right, s.right),
    }
}

pub open spec fn table_margins_s(t: StyleTableV, chain: Seq<Seq<char>>, k: int) -> CellMargins
    decreases chain.len() - k,
{
    if 0 <= k < chain.len() {
        let under = table_margins_s(t, chain, k + 1);
        match strmap::get_s(t.table_cell_margins, chain[k]) {
            Some(s) => overlay_margins_s(under, s),
            None => under,
        }
    } else {
        CellMargins::initial()
    }
}

/// The first shading in the chain from `k` on.
pub open spec fn first_row_shd_s(t: StyleTableV, chain: Seq<Seq<char>>, k: int) -> Option<Seq<char>>
    decreases chain.len() - k,
{
    if 0 <= k < chain.len() {
        match strmap::get_s(t.table_first_row_shd, chain[k]) {
            Some(s) => Some(s),
            None => first_row_shd_s(t, chain, k + 1),
        }
    } else {
        None
    }
}

fn later_border(base: &Option<Border>, other: &Option<Border>) -> (r: Option<Border>)
    ensures
        types::border_ov(r) == later_s(types::border_ov(*base), types::border_ov(*other)),
{
    match other {
        Some(_) => clone_border_opt(other),
        None => clone_border_opt(base),
    }
}

fn overlay_edges(into: &mut EdgeBorders, other: &EdgeBorders)
    ensures
        final(into)@ == overlay_edges_s(old(into)@, other@),
{
    into.top = later_border(&into.top, &other.top);
    into.left = later_border(&into.left, &other.left);
    into.bottom = later_border(&into.bottom, &other.bottom);
    into.right = later_border(&into.right, &other.right);
    into.inside_h = later_border(&into.inside_h, &other.inside_h);
    into.inside_v = later_border(&into.inside_v, &other.inside_v);
}

/// Whether a text stands in a list.
pub(crate) fn has_text(v: &Vec<String>, x: &str) -> (r: bool)
    ensures
        r == search::texts_s(v@).contains(x@),
{
    let ghost t = search::texts_s(v@);
    let mut i: usize = 0;
    while i < v.len()
        invariant
            i <= v@.len(),
            t == search::texts_s(v@),
            forall|j: int| 0 <= j < i ==> #[trigger] t[j] != x@,
        decreases v@.len() - i,
    {
        assert(t[i as int] == v@[i as int]@);
        if str_eq(v[i].as_str(), x) {
            return true;
        }
        i = i + 1;
    }
    false
}

/// A style added at run time: its name and parent.
#[derive(Debug, PartialEq, Eq)]
pub struct AddedStyle {
    pub name: String,
    pub based_on: Option<String>,
}

/// The mathematical value of an [`AddedStyle`].
#[verifier::ext_equal]
pub struct AddedStyleV {
    pub name: Seq<char>,
    pub based_on: Option<Seq<char>>,
}

impl View for AddedStyle {
    type V = AddedStyleV;

    open spec fn view(&self) -> AddedStyleV {
        AddedStyleV { name: self.name@, based_on: strs::opt_s(self.based_on) }
    }
}

/// The properties of `id` in the table; none set where it is undefined.
pub open spec fn props_of_s(t: StyleTableV, id: Seq<char>) -> StylePropsV {
    match strmap::get_s(t.by_id, id) {
        Some(p) => p,
        None => StylePropsV::initial(),
    }
}

/// The table with the first `n` overrides laid over its styles.
pub open spec fn overridden_s(
    t: StyleTableV,
    overrides: Seq<(Seq<char>, StylePropsV)>,
    n: nat,
) -> StyleTableV
    decreases n,
{
    if n == 0 {
        t
    } else {
        let s = overridden_s(t, overrides, (n - 1) as nat);
        let (id, ov) = overrides[n - 1];
        StyleTableV { by_id: strmap::put_s(s.by_id, id, overlay_s(props_of_s(s, id), ov)), ..s }
    }
}

/// The gallery with one more id, unless it is there.
pub open spec fn offer_s(gallery: Seq<Seq<char>>, id: Seq<char>) -> Seq<Seq<char>> {
    if gallery.contains(id) {
        gallery
    } else {
        gallery.push(id)
    }
}

/// The table with one added style: defined, named, based on its parent (or on nothing), and
/// offered in the gallery.
pub open spec fn with_added_s(t: StyleTableV, id: Seq<char>, a: AddedStyleV) -> StyleTableV {
    StyleTableV {
        by_id: strmap::put_new_s(t.by_id, id, StylePropsV::initial()),
        names: strmap::put_s(t.names, id, a.name),
        based_on: match a.based_on {
            Some(b) => strmap::put_s(t.based_on, id, b),
            None => strmap::without_s(t.based_on, id),
        },
        gallery: offer_s(t.gallery, id),
        ..t
    }
}

pub open spec fn with_all_added_s(
    t: StyleTableV,
    added: Seq<(Seq<char>, AddedStyleV)>,
    n: nat,
) -> StyleTableV
    decreases n,
{
    if n == 0 {
        t
    } else {
        let (id, a) = added[n - 1];
        with_added_s(with_all_added_s(t, added, (n - 1) as nat), id, a)
    }
}

impl StyleTable {
    /// The `basedOn` chain for `style`, most-derived first.
    fn chain(&self, style: Option<&str>) -> (r: Vec<String>)
        ensures
            search::texts_s(r@) == chain_s(self@, opt_str_s(style)),
    {
        let mut chain: Vec<String> = Vec::new();
        let mut cur: Option<String> = match style {
            Some(s) => Some(s.to_string()),
            None => None,
        };
        let mut left: usize = 33;
        let ghost whole = chain_s(self@, opt_str_s(style));
        assert(search::texts_s(chain@) =~= Seq::empty());
        while left > 0
            invariant_except_break
                left <= 33,
                chain_from_s(
                    self@,
                    strs::opt_s(cur),
                    search::texts_s(chain@),
                    left as nat,
                ) == whole,
            ensures
                search::texts_s(chain@) == whole,
            decreases left,
        {
            let id = match cur {
                Some(id) => id,
                None => {
                    break;
                },
            };
            if !self.by_id.contains_key(id.as_str()) || has_text(&chain, id.as_str()) {
                break;
            }
            cur = match self.based_on.get(id.as_str()) {
                Some(p) => Some(p.clone()),
                None => None,
            };
            let ghost was = chain@;
            let ghost idv = id@;
            chain.push(id);
            left = left - 1;
            assert(search::texts_s(chain@) =~= search::texts_s(was).push(idv));
        }
        chain
    }

    fn layer(&self, p: &mut StyleProps, chain: &Vec<String>)
        ensures
            final(p)@ == layered_s(old(p)@, self@, search::texts_s(chain@), 0),
    {
        let ghost c = search::texts_s(chain@);
        let ghost base = p@;
        let mut i: usize = chain.len();
        while i > 0
            invariant
                i <= chain@.len(),
                c == search::texts_s(chain@),
                p@ == layered_s(base, self@, c, i as int),
            decreases i,
        {
            i = i - 1;
            assert(c[i as int] == chain@[i as int]@);
            if let Some(s) = self.by_id.get(chain[i].as_str()) {
                p.overlay(s);
            }
        }
    }

    /// Effective base properties for a paragraph carrying `style`: document defaults, then each
    /// ancestor from the root of the chain down to `style`. A paragraph without a style follows
    /// the default paragraph style.
    pub fn resolve(&self, style: Option<&str>) -> (r: StyleProps)
        ensures
            r@ == resolve_s(self@, opt_str_s(style)),
    {
        let mut p = self.default.clone();
        let chain = self.para_chain(style);
        self.layer(&mut p, &chain);
        p
    }

    fn para_chain(&self, style: Option<&str>) -> (r: Vec<String>)
        ensures
            search::texts_s(r@) == chain_s(self@, style_or_default_s(self@, opt_str_s(style))),
    {
        match style {
            Some(s) => self.chain(Some(s)),
            None => match &self.default_para_style {
                Some(d) => self.chain(Some(d.as_str())),
                None => self.chain(None),
            },
        }
    }

    /// Like [`StyleTable::resolve`], for a paragraph inside a table cell: the table style's
    /// properties sit between document defaults and the paragraph style.
    pub fn resolve_in_table(&self, style: Option<&str>, table_style: Option<&str>) -> (r: StyleProps)
        ensures
            r@ == resolve_in_table_s(self@, opt_str_s(style), opt_str_s(table_style)),
    {
        let mut p = self.default.clone();
        let outer = self.chain(table_style);
        self.layer(&mut p, &outer);
        let inner = self.para_chain(style);
        self.layer(&mut p, &inner);
        p
    }

    /// The table borders of `style` through its chain, most-derived edge winning.
    pub fn resolve_table_borders(&self, style: Option<&str>) -> (r: EdgeBorders)
        ensures
            r@ == table_borders_s(self@, chain_s(self@, opt_str_s(style)), 0),
    {
        let chain = self.chain(style);
        let ghost c = search::texts_s(chain@);
        let mut e = EdgeBorders::default();
        let mut i: usize = chain.len();
        while i > 0
            invariant
                i <= chain@.len(),
                c == search::texts_s(chain@),
                e@ == table_borders_s(self@, c, i as int),
            decreases i,
        {
            i = i - 1;
            assert(c[i as int] == chain@[i as int]@);
            if let Some(b) = self.table_borders.get(chain[i].as_str()) {
                overlay_edges(&mut e, b);
            }
        }
        e
    }

    /// The cell margins of `style` through its chain, most-derived side winning.
    pub fn resolve_table_cell_margins(&self, style: Option<&str>) -> (r: CellMargins)
        ensures
            r == table_margins_s(self@, chain_s(self@, opt_str_s(style)), 0),
    {
        let chain = self.chain(style);
        let ghost c = search::texts_s(chain@);
        let mut m = CellMargins::default();
        let mut i: usize = chain.len();
        while i > 0
            invariant
                i <= chain@.len(),
                c == search::texts_s(chain@),
                m == table_margins_s(self@, c, i as int),
            decreases i,
        {
            i = i - 1;
            assert(c[i as int] == chain@[i as int]@);
            if let Some(s) = self.table_cell_margins.get(chain[i].as_str()) {
                m = CellMargins {
                    top: later(m.top, s.top),
                    left: later(m.left, s.left),
                    bottom: later(m.bottom, s.bottom),
                    right: later(m.right, s.right),
                };
            }
        }
        m
    }

    /// The first-row shading of `style` through its chain.
    pub fn resolve_table_first_row_shd(&self, style: Option<&str>) -> (r: Option<String>)
        ensures
            strs::opt_s(r) == first_row_shd_s(self@, chain_s(self@, opt_str_s(style)), 0),
    {
        let chain = self.chain(style);
        let ghost c = search::texts_s(chain@);
        let mut i: usize = 0;
        while i < chain.len()
            invariant
                i <= chain@.len(),
                c == search::texts_s(chain@),
                c == chain_s(self@, opt_str_s(style)),
                first_row_shd_s(self@, c, 0) == first_row_shd_s(self@, c, i as int),
            decreases chain@.len() - i,
        {
            assert(c[i as int] == chain@[i as int]@);
            if let Some(s) = self.table_first_row_shd.get(chain[i].as_str()) {
                return Some(s.clone());
            }
            i = i + 1;
        }
        None
    }

    /// Lay runtime style edits over this table: each override's set fields win for that style,
    /// the rest is untouched. An override of an undefined style defines it.
    pub fn apply_overrides(&mut self, overrides: &StrMap<StyleProps>)
        ensures
            final(self)@ == overridden_s(old(self)@, overrides@, overrides@.len()),
    {
        let ghost base = self@;
        let n = overrides.len();
        let mut i: usize = 0;
        while i < n
            invariant
                i <= n == overrides@.len(),
                self@ == overridden_s(base, overrides@, i as nat),
            decreases n - i,
        {
            let id = overrides.key_at(i);
            let mut p = match self.by_id.get(id) {
                Some(p) => p.clone(),
                None => StyleProps::default(),
            };
            p.overlay(overrides.value_at(i));
            self.by_id.insert(id, p);
            i = i + 1;
        }
    }

    /// Register the styles added at run time: name, parent, a definition, and a place in the
    /// gallery. Registering them again changes nothing.
    pub fn apply_added_styles(&mut self, added: &StrMap<AddedStyle>)
        ensures
            final(self)@ == with_all_added_s(old(self)@, added@, added@.len()),
            with_all_added_s(final(self)@, added@, added@.len()) == final(self)@,
    {
        proof {
            use_type_invariant(added);
            strmap::lemma_each_key_once(added);
            law_added_styles_are_registered_once(self@, added@, Seq::empty());
        }
        let ghost base = self@;
        let n = added.len();
        let mut i: usize = 0;
        while i < n
            invariant
                i <= n == added@.len(),
                self@ == with_all_added_s(base, added@, i as nat),
            decreases n - i,
        {
            let id = added.key_at(i);
            let a = added.value_at(i);
            self.by_id.insert_new(id, StyleProps::default());
            self.names.insert(id, a.name.clone());
            match &a.based_on {
                Some(b) => self.based_on.insert(id, b.clone()),
                None => self.based_on.remove(id),
            }
            offer(&mut self.gallery, id);
            i = i + 1;
        }
    }
}

fn offer(gallery: &mut Vec<String>, id: &str)
    ensures
        search::texts_s(final(gallery)@) == offer_s(search::texts_s(old(gallery)@), id@),
{
    if !has_text(gallery, id) {
        let ghost was = gallery@;
        gallery.push(id.to_string());
        assert(search::texts_s(gallery@) =~= search::texts_s(was).push(id@));
    }
}

// ---------------------------------------------------------------- heading levels

/// The level of a heading style id: what follows the word "heading", in upper or lower case
/// letters or a mixture.
pub open spec fn heading_level_s(style: Seq<char>) -> Option<nat> {
    match search::strip_prefix_s(package::lower_s(style), "heading"@) {
        Some(n) => match strs::parse_uint_s(n, 255) {
            Some(l) => if 1 <= l <= 9 {
                Some(l)
            } else {
                None
            },
            None => None,
        },
        None => None,
    }
}

/// The heading level (1-9) of a paragraph style id (`Heading1`..`Heading9`, whatever the case of
/// its letters), or `None` for a non-heading style.
pub fn heading_level(style: &str) -> (r: Option<u8>)
    ensures
        r matches Some(l) ==> heading_level_s(style@) == Some(l as nat),
        r is None ==> heading_level_s(style@) is None,
{
    let small = lower(style);
    match strip_prefix(small.as_str(), "heading") {
        Some(n) => match parse_uint(n.as_str(), 255) {
            Some(l) => if 1 <= l && l <= 9 {
                Some(l as u8)
            } else {
                None
            },
            None => None,
        },
        None => None,
    }
}

// ---------------------------------------------------------------- built-in quick styles

/// One of Word's built-in quick styles.
pub struct Quick {
    pub id: &'static str,
    pub name: &'static str,
    pub based_on: Option<&'static str>,
    pub props: StyleProps,
}

/// The mathematical value of a [`Quick`].
#[verifier::ext_equal]
pub struct QuickV {
    pub id: Seq<char>,
    pub name: Seq<char>,
    pub based_on: Option<Seq<char>>,
    pub props: StylePropsV,
}

impl View for Quick {
    type V = QuickV;

    open spec fn view(&self) -> QuickV {
        QuickV {
            id: self.id@,
            name: self.name@,
            based_on: opt_str_s(self.based_on),
            props: self.props@,
        }
    }
}

pub open spec fn quick_vs(s: Seq<Quick>) -> Seq<QuickV> {
    Seq::new(s.len(), |i: int| s[i]@)
}

/// The formatting that the built-in styles set; everything else is unset.
pub open spec fn quick_props_s(
    size: Option<u16>,
    italic: Option<bool>,
    color: Option<Seq<char>>,
    font: Option<Seq<char>>,
    before: Option<u32>,
    after: Option<u32>,
    line: Option<u16>,
) -> StylePropsV {
    StylePropsV {
        size,
        italic,
        color,
        font,
        line_spacing: line,
        space_before: before,
        space_after: after,
        ..StylePropsV::initial()
    }
}

fn quick_props(
    size: Option<u16>,
    italic: Option<bool>,
    color: Option<&str>,
    font: Option<&str>,
    before: Option<u32>,
    after: Option<u32>,
    line: Option<u16>,
) -> (r: StyleProps)
    ensures
        r@ == quick_props_s(
            size,
            italic,
            opt_str_s(color),
            opt_str_s(font),
            before,
            after,
            line,
        ),
{
    let mut p = StyleProps::default();
    p.size = size;
    p.italic = italic;
    p.color = match color {
        Some(c) => Some(c.to_string()),
        None => None,
    };
    p.font = match font {
        Some(f) => Some(f.to_string()),
        None => None,
    };
    p.line_spacing = line;
    p.space_before = before;
    p.space_after = after;
    p
}

/// The built-in quick styles, in gallery order.
pub open spec fn canonical_s() -> Seq<QuickV> {
    seq![
        QuickV {
            id: "Normal"@,
            name: "Normal"@,
            based_on: None,
            props: StylePropsV::initial(),
        },
        QuickV {
            id: "NoSpacing"@,
            name: "No Spacing"@,
            based_on: Some("Normal"@),
            props: quick_props_s(None, None, None, None, Some(0), Some(0), Some(240)),
        },
        QuickV {
            id: "Heading1"@,
            name: "Heading 1"@,
            based_on: Some("Normal"@),
            props: quick_props_s(Some(32), None, Some("2E74B5"@), Some("Calibri Light"@), Some(240), Some(0), None),
        },
        QuickV {
            id: "Heading2"@,
            name: "Heading 2"@,
            based_on: Some("Normal"@),
            props: quick_props_s(Some(26), None, Some("2E74B5"@), Some("Calibri Light"@), Some(40), Some(0), None),
        },
        QuickV {
            id: "Heading3"@,
            name: "Heading 3"@,
            based_on: Some("Normal"@),
            props: quick_props_s(Some(24), None, Some("1F4D78"@), Some("Calibri Light"@), Some(40), Some(0), None),
        },
        QuickV {
            id: "Title"@,
            name: "Title"@,
            based_on: Some("Normal"@),
            props: quick_props_s(Some(56), None, None, Some("Calibri Light"@), None, Some(80), Some(240)),
        },
        QuickV {
            id: "Subtitle"@,
            name: "Subtitle"@,
            based_on: Some("Normal"@),
            props: quick_props_s(Some(28), None, Some("5A5A5A"@), Some("Calibri Light"@), None, Some(160), None),
        },
        QuickV {
            id: "Quote"@,
            name: "Quote"@,
            based_on: Some("Normal"@),
            props: quick_props_s(None, Some(true), Some("404040"@), None, Some(200), Some(200), None),
        },
        QuickV {
            id: "IntenseQuote"@,
            name: "Intense Quote"@,
            based_on: Some("Normal"@),
            props: quick_props_s(None, Some(true), Some("2E74B5"@), None, Some(200), Some(200), None),
        },
        QuickV {
            id: "ListParagraph"@,
            name: "List Paragraph"@,
            based_on: Some("Normal"@),
            props: StylePropsV::initial(),
        },
    ]
}

/// The built-in quick styles, in gallery order.
pub(crate) fn canonical_styles() -> (r: Vec<Quick>)
    ensures
        quick_vs(r@) == canonical_s(),
{
    let mut v: Vec<Quick> = Vec::new();
    v.push(
        Quick {
            id: "Normal",
            name: "Normal",
            based_on: None,
            props: StyleProps::default(),
        },
    );
    v.push(
        Quick {
            id: "NoSpacing",
            name: "No Spacing",
            based_on: Some("Normal"),
            props: quick_props(None, None, None, None, Some(0), Some(0), Some(240)),
        },
    );
    v.push(
        Quick {
            id: "Heading1",
            name: "Heading 1",
            based_on: Some("Normal"),
            props: quick_props(Some(32), None, Some("2E74B5"), Some("Calibri Light"), Some(240), Some(0), None),
        },
    );
    v.push(
        Quick {
            id: "Heading2",
            name: "Heading 2",
            based_on: Some("Normal"),
            props: quick_props(Some(26), None, Some("2E74B5"), Some("Calibri Light"), Some(40), Some(0), None),
        },
    );
    v.push(
        Quick {
            id: "Heading3",
            name: "Heading 3",
            based_on: Some("Normal"),
            props: quick_props(Some(24), None, Some("1F4D78"), Some("Calibri Light"), Some(40), Some(0), None),
        },
    );
    v.push(
        Quick {
            id: "Title",
            name: "Title",
            based_on: Some("Normal"),
            props: quick_props(Some(56), None, None, Some("Calibri Light"), None, Some(80), Some(240)),
        },
    );
    v.push(
        Quick {
            id: "Subtitle",
            name: "Subtitle",
            based_on: Some("Normal"),
            props: quick_props(Some(28), None, Some("5A5A5A"), Some("Calibri Light"), None, Some(160), None),
        },
    );
    v.push(
        Quick {
            id: "Quote",
            name: "Quote",
            based_on: Some("Normal"),
            props: quick_props(None, Some(true), Some("404040"), None, Some(200), Some(200), None),
        },
    );
    v.push(
        Quick {
            id: "IntenseQuote",
            name: "Intense Quote",
            based_on: Some("Normal"),
            props: quick_props(None, Some(true), Some("2E74B5"), None, Some(200), Some(200), None),
        },
    );
    v.push(
        Quick {
            id: "ListParagraph",
            name: "List Paragraph",
            based_on: Some("Normal"),
            props: StyleProps::default(),
        },
    );
    assert(quick_vs(v@) =~= canonical_s());
    v
}

/// The table with the first `n` built-in styles filled in where it lacks them.
pub open spec fn filled_s(t: StyleTableV, n: nat) -> StyleTableV
    decreases n,
{
    if n == 0 {
        t
    } else {
        let s = filled_s(t, (n - 1) as nat);
        let q = canonical_s()[n - 1];
        StyleTableV {
            names: strmap::put_new_s(s.names, q.id, q.name),
            based_on: match q.based_on {
                Some(b) => strmap::put_new_s(s.based_on, q.id, b),
                None => s.based_on,
            },
            by_id: strmap::put_new_s(s.by_id, q.id, q.props),
            ..s
        }
    }
}

/// The gallery with the first `n` of `more` offered after `first`.
pub open spec fn offered_s(first: Seq<Seq<char>>, more: Seq<Seq<char>>, n: nat) -> Seq<Seq<char>>
    decreases n,
{
    if n == 0 {
        first
    } else {
        offer_s(offered_s(first, more, (n - 1) as nat), more[n - 1])
    }
}

/// The built-in ids, in gallery order.
pub open spec fn canonical_ids_s() -> Seq<Seq<char>> {
    Seq::new(canonical_s().len(), |i: int| canonical_s()[i].id)
}

/// The table with every built-in style it lacks filled in; the gallery lists the built-in styles
/// first and then the table's own.
pub open spec fn merged_defaults_s(t: StyleTableV) -> StyleTableV {
    StyleTableV {
        gallery: offered_s(canonical_ids_s(), t.gallery, t.gallery.len()),
        ..filled_s(t, canonical_s().len())
    }
}

/// Word's base formatting: Calibri 11pt, 1.08 lines, 8pt after.
pub open spec fn word_default_s() -> StyleTableV {
    merged_defaults_s(
        StyleTableV {
            default: quick_props_s(
                Some(22),
                None,
                None,
                Some("Calibri"@),
                None,
                Some(160),
                Some(259),
            ),
            ..StyleTableV::initial()
        },
    )
}

impl StyleTable {
    /// Word's built-in quick-style set with default-theme formatting.
    pub fn word_default() -> (r: StyleTable)
        ensures
            r@ == word_default_s(),
    {
        let mut t = StyleTable::default();
        t.default = quick_props(
            Some(22),
            None,
            None,
            Some("Calibri"),
            None,
            Some(160),
            Some(259),
        );
        t.merge_defaults();
        t
    }

    /// Add any built-in quick style this table lacks; the document's own definitions win.
    pub fn merge_defaults(&mut self)
        ensures
            final(self)@ == merged_defaults_s(old(self)@),
    {
        let ghost base = self@;
        let quick = canonical_styles();
        let ghost q = quick_vs(quick@);
        let mut ids: Vec<String> = Vec::new();
        let mut i: usize = 0;
        assert(search::texts_s(ids@) =~= canonical_ids_s().subrange(0, 0));
        while i < quick.len()
            invariant
                i <= quick@.len(),
                q == quick_vs(quick@),
                q == canonical_s(),
                self@ == filled_s(base, i as nat),
                search::texts_s(ids@) == canonical_ids_s().subrange(0, i as int),
            decreases quick@.len() - i,
        {
            assert(q[i as int] == quick@[i as int]@);
            let s = &quick[i];
            self.names.insert_new(s.id, s.name.to_string());
            if let Some(parent) = s.based_on {
                self.based_on.insert_new(s.id, parent.to_string());
            }
            self.by_id.insert_new(s.id, s.props.clone());
            let ghost was = ids@;
            ids.push(s.id.to_string());
            i = i + 1;
            proof {
                assert(search::texts_s(ids@) =~= search::texts_s(was).push(s.id@));
                assert(canonical_ids_s()[i - 1] == s.id@);
                assert(search::texts_s(ids@) =~= canonical_ids_s().subrange(0, i as int));
            }
        }
        proof {
            lemma_filled_gallery(base, canonical_s().len());
        }
        assert(canonical_ids_s().subrange(0, i as int) =~= canonical_ids_s());
        let ghost own = base.gallery;
        let mut j: usize = 0;
        while j < self.gallery.len()
            invariant
                j <= self.gallery@.len(),
                self@ == filled_s(base, canonical_s().len()),
                own == search::texts_s(self.gallery@),
                search::texts_s(ids@) == offered_s(canonical_ids_s(), own, j as nat),
            decreases self.gallery@.len() - j,
        {
            assert(own[j as int] == self.gallery@[j as int]@);
            offer(&mut ids, self.gallery[j].as_str());
            j = j + 1;
        }
        self.gallery = ids;
    }
}

proof fn lemma_filled_gallery(t: StyleTableV, n: nat)
    ensures
        filled_s(t, n).gallery == t.gallery,
    decreases n,
{
    if n > 0 {
        lemma_filled_gallery(t, (n - 1) as nat);
    }
}

// ---------------------------------------------------------------- laws

proof fn lemma_put_new_has<T>(m: Seq<(Seq<char>, T)>, key: Seq<char>, value: T, other: Seq<char>)
    ensures
        strmap::has_s(strmap::put_new_s(m, key, value), key),
        strmap::has_s(m, other) ==> strmap::has_s(strmap::put_new_s(m, key, value), other)
            && strmap::get_s(strmap::put_new_s(m, key, value), other) == strmap::get_s(m, other),
{
    strmap::lemma_at(m, key, 0);
    strmap::lemma_at(m, other, 0);
    let p = strmap::put_new_s(m, key, value);
    if !strmap::has_s(m, key) {
        strmap::lemma_at_is(p, key, m.len() as int);
    }
    if strmap::has_s(m, other) {
        strmap::lemma_at_is(p, other, strmap::at_s(m, other, 0));
    }
}

/// Whether the table defines the first `n` built-in styles.
spec fn complete_s(t: StyleTableV, n: nat) -> bool {
    forall|i: int|
        0 <= i < n ==> {
            let q = #[trigger] canonical_s()[i];
            &&& strmap::has_s(t.names, q.id)
            &&& strmap::has_s(t.by_id, q.id)
            &&& q.based_on is Some ==> strmap::has_s(t.based_on, q.id)
        }
}

proof fn lemma_filled_keeps(t: StyleTableV, n: nat, id: Seq<char>)
    ensures
        strmap::has_s(t.by_id, id) ==> strmap::get_s(filled_s(t, n).by_id, id) == strmap::get_s(
            t.by_id,
            id,
        ) && strmap::has_s(filled_s(t, n).by_id, id),
        strmap::has_s(t.names, id) ==> strmap::get_s(filled_s(t, n).names, id) == strmap::get_s(
            t.names,
            id,
        ) && strmap::has_s(filled_s(t, n).names, id),
        strmap::has_s(t.based_on, id) ==> strmap::get_s(filled_s(t, n).based_on, id)
            == strmap::get_s(t.based_on, id) && strmap::has_s(filled_s(t, n).based_on, id),
    decreases n,
{
    if n > 0 {
        let s = filled_s(t, (n - 1) as nat);
        let q = canonical_s()[n - 1];
        lemma_filled_keeps(t, (n - 1) as nat, id);
        lemma_put_new_has(s.names, q.id, q.name, id);
        lemma_put_new_has(s.by_id, q.id, q.props, id);
        if let Some(b) = q.based_on {
            lemma_put_new_has(s.based_on, q.id, b, id);
        }
    }
}

proof fn lemma_filled_complete(t: StyleTableV, n: nat)
    requires
        n <= canonical_s().len(),
    ensures
        complete_s(filled_s(t, n), n),
    decreases n,
{
    if n > 0 {
        let m = (n - 1) as nat;
        lemma_filled_complete(t, m);
        let s = filled_s(t, m);
        let q = canonical_s()[n - 1];
        assert forall|i: int| 0 <= i < n implies {
            let p = #[trigger] canonical_s()[i];
            &&& strmap::has_s(filled_s(t, n).names, p.id)
            &&& strmap::has_s(filled_s(t, n).by_id, p.id)
            &&& p.based_on is Some ==> strmap::has_s(filled_s(t, n).based_on, p.id)
        } by {
            let p = canonical_s()[i];
            lemma_put_new_has(s.names, q.id, q.name, p.id);
            lemma_put_new_has(s.by_id, q.id, q.props, p.id);
            if let Some(b) = q.based_on {
                lemma_put_new_has(s.based_on, q.id, b, p.id);
            }
        }
    }
}

proof fn lemma_filled_again(t: StyleTableV, n: nat)
    requires
        complete_s(t, n),
        n <= canonical_s().len(),
    ensures
        filled_s(t, n) == t,
    decreases n,
{
    if n > 0 {
        lemma_filled_again(t, (n - 1) as nat);
        let q = canonical_s()[n - 1];
        assert(strmap::has_s(t.names, q.id) && strmap::has_s(t.by_id, q.id));
        assert(filled_s(t, n) =~= t);
    }
}

proof fn lemma_canonical_ids_distinct()
    ensures
        canonical_ids_s().no_duplicates(),
        canonical_ids_s().len() == 10,
{
    reveal_strlit("Normal");
    reveal_strlit("NoSpacing");
    reveal_strlit("Heading1");
    reveal_strlit("Heading2");
    reveal_strlit("Heading3");
    reveal_strlit("Title");
    reveal_strlit("Subtitle");
    reveal_strlit("Quote");
    reveal_strlit("IntenseQuote");
    reveal_strlit("ListParagraph");
    let c = canonical_ids_s();
    assert(c[0].len() == 6 && c[1].len() == 9 && c[2].len() == 8 && c[3].len() == 8 && c[4].len()
        == 8 && c[5].len() == 5 && c[6].len() == 8 && c[7].len() == 5 && c[8].len() == 12
        && c[9].len() == 13);
    assert(c[2][7] == '1' && c[3][7] == '2' && c[4][7] == '3' && c[6][7] == 'e');
    assert(c[5][0] == 'T' && c[7][0] == 'Q');
}

proof fn lemma_offered(first: Seq<Seq<char>>, more: Seq<Seq<char>>, n: nat)
    requires
        first.no_duplicates(),
    ensures
        offered_s(first, more, n).no_duplicates(),
        first.len() <= offered_s(first, more, n).len(),
        offered_s(first, more, n).subrange(0, first.len() as int) == first,
    decreases n,
{
    if n == 0 {
        assert(first.subrange(0, first.len() as int) =~= first);
    } else {
        lemma_offered(first, more, (n - 1) as nat);
        let g = offered_s(first, more, (n - 1) as nat);
        let x = more[n - 1];
        if !g.contains(x) {
            assert(g.push(x).subrange(0, first.len() as int) =~= g.subrange(0, first.len() as int));
            assert forall|i: int, j: int| 0 <= i < g.push(x).len() && 0 <= j < g.push(x).len() && i
                != j implies g.push(x)[i] != g.push(x)[j] by {
                if i == g.len() {
                    assert(g.contains(g[j]));
                } else if j == g.len() {
                    assert(g.contains(g[i]));
                }
            }
        }
    }
}

proof fn lemma_offered_again(first: Seq<Seq<char>>, g: Seq<Seq<char>>, n: nat)
    requires
        g.no_duplicates(),
        first.len() <= g.len(),
        g.subrange(0, first.len() as int) == first,
        n <= g.len(),
    ensures
        offered_s(first, g, n) == g.subrange(
            0,
            if n <= first.len() {
                first.len() as int
            } else {
                n as int
            },
        ),
    decreases n,
{
    if n > 0 {
        let m = (n - 1) as nat;
        lemma_offered_again(first, g, m);
        let acc = offered_s(first, g, m);
        let x = g[n - 1];
        if n <= first.len() {
            assert(acc[n - 1] == x);
            assert(acc.contains(x));
        } else {
            assert(acc =~= g.subrange(0, n - 1));
            assert(!acc.contains(x)) by {
                if acc.contains(x) {
                    let k = choose|k: int| 0 <= k < acc.len() && acc[k] == x;
                    assert(g[k] == g[n - 1]);
                }
            }
            assert(acc.push(x) =~= g.subrange(0, n as int));
        }
    }
}

/// Filling in the built-in styles a second time changes nothing.
pub proof fn law_merge_defaults_is_idempotent(t: StyleTableV)
    ensures
        merged_defaults_s(merged_defaults_s(t)) == merged_defaults_s(t),
{
    let n = canonical_s().len();
    let f = filled_s(t, n);
    let m = merged_defaults_s(t);
    lemma_filled_complete(t, n);
    assert(complete_s(m, n)) by {
        assert forall|i: int| 0 <= i < n implies {
            let q = #[trigger] canonical_s()[i];
            &&& strmap::has_s(m.names, q.id)
            &&& strmap::has_s(m.by_id, q.id)
            &&& q.based_on is Some ==> strmap::has_s(m.based_on, q.id)
        } by {
            let q = canonical_s()[i];
            assert(strmap::has_s(f.names, q.id));
        }
    }
    lemma_filled_again(m, n);
    lemma_canonical_ids_distinct();
    let c = canonical_ids_s();
    lemma_offered(c, t.gallery, t.gallery.len());
    lemma_offered_again(c, m.gallery, m.gallery.len());
    assert(m.gallery.subrange(0, m.gallery.len() as int) =~= m.gallery);
}

/// What the table says of a style, its definition, its name and its base, stays when the built-in
/// styles are filled in.
pub proof fn law_own_definitions_win(t: StyleTableV, id: Seq<char>)
    ensures
        strmap::has_s(t.by_id, id) ==> strmap::get_s(merged_defaults_s(t).by_id, id)
            == strmap::get_s(t.by_id, id),
        strmap::has_s(t.names, id) ==> strmap::get_s(merged_defaults_s(t).names, id)
            == strmap::get_s(t.names, id),
        strmap::has_s(t.based_on, id) ==> strmap::get_s(merged_defaults_s(t).based_on, id)
            == strmap::get_s(t.based_on, id),
{
    lemma_filled_keeps(t, canonical_s().len(), id);
}

proof fn lemma_filled_value(t: StyleTableV, n: nat, i: int)
    requires
        0 <= i < canonical_s().len(),
        n <= canonical_s().len(),
        canonical_ids_s().no_duplicates(),
    ensures
        ({
            let f = filled_s(t, n);
            let q = canonical_s()[i];
            &&& !strmap::has_s(t.names, q.id) ==> strmap::get_s(f.names, q.id) == (if i < n {
                Some(q.name)
            } else {
                None
            })
            &&& !strmap::has_s(t.by_id, q.id) ==> strmap::get_s(f.by_id, q.id) == (if i < n {
                Some(q.props)
            } else {
                None
            })
            &&& !strmap::has_s(t.based_on, q.id) ==> strmap::get_s(f.based_on, q.id) == (if i < n {
                q.based_on
            } else {
                None
            })
        }),
    decreases n,
{
    if n > 0 {
        lemma_filled_value(t, (n - 1) as nat, i);
        let s = filled_s(t, (n - 1) as nat);
        let p = canonical_s()[n - 1];
        let q = canonical_s()[i];
        if i != n - 1 {
            assert(canonical_ids_s()[i] != canonical_ids_s()[n - 1]);
        }
        strmap::law_put_new_then_get(s.names, p.id, p.name, q.id);
        strmap::law_put_new_then_get(s.by_id, p.id, p.props, q.id);
        if let Some(b) = p.based_on {
            strmap::law_put_new_then_get(s.based_on, p.id, b, q.id);
        }
    }
}

proof fn lemma_offered_holds(first: Seq<Seq<char>>, more: Seq<Seq<char>>, n: nat, x: Seq<char>)
    requires
        n <= more.len(),
    ensures
        offered_s(first, more, n).contains(x) == (first.contains(x) || more.take(n as int).contains(
            x,
        )),
    decreases n,
{
    if n == 0 {
        assert(more.take(0) =~= Seq::empty());
    } else {
        lemma_offered_holds(first, more, (n - 1) as nat, x);
        let g = offered_s(first, more, (n - 1) as nat);
        let y = more[n - 1];
        lemma_offered_holds(first, more, (n - 1) as nat, y);
        assert(more.take(n as int) =~= more.take(n - 1).push(y));
        assert(more.take(n - 1).push(y).contains(x) == (more.take(n - 1).contains(x) || x == y)) by {
            lemma_pushed(more.take(n - 1), y, x);
        }
        lemma_pushed(g, y, x);
    }
}

proof fn lemma_pushed(v: Seq<Seq<char>>, y: Seq<char>, x: Seq<char>)
    ensures
        v.push(y).contains(x) == (v.contains(x) || x == y),
{
    if v.contains(x) {
        let i = choose|i: int| 0 <= i < v.len() && v[i] == x;
        assert(v.push(y)[i] == x);
    }
    assert(v.push(y)[v.len() as int] == y);
}

/// A built-in style that the table says nothing of gets its built-in name, base and formatting;
/// the gallery lists the built-in styles first, in their order, and then the table's own, each
/// once.
pub proof fn law_missing_styles_are_filled_in(t: StyleTableV, i: int, x: Seq<char>)
    requires
        0 <= i < canonical_s().len(),
    ensures
        ({
            let m = merged_defaults_s(t);
            let q = canonical_s()[i];
            &&& !strmap::has_s(t.names, q.id) ==> strmap::get_s(m.names, q.id) == Some(q.name)
            &&& !strmap::has_s(t.by_id, q.id) ==> strmap::get_s(m.by_id, q.id) == Some(q.props)
            &&& !strmap::has_s(t.based_on, q.id) ==> strmap::get_s(m.based_on, q.id) == q.based_on
            &&& m.gallery.len() >= canonical_ids_s().len()
            &&& m.gallery.subrange(0, canonical_ids_s().len() as int) == canonical_ids_s()
            &&& m.gallery.no_duplicates()
            &&& m.gallery.contains(x) == (canonical_ids_s().contains(x) || t.gallery.contains(x))
        }),
{
    lemma_canonical_ids_distinct();
    lemma_filled_value(t, canonical_s().len(), i);
    lemma_offered(canonical_ids_s(), t.gallery, t.gallery.len());
    lemma_offered_holds(canonical_ids_s(), t.gallery, t.gallery.len(), x);
    assert(t.gallery.take(t.gallery.len() as int) =~= t.gallery);
}

/// Whether the table holds an added style as it was added.
spec fn holds_added_s(t: StyleTableV, id: Seq<char>, a: AddedStyleV) -> bool {
    &&& strmap::has_s(t.by_id, id)
    &&& strmap::get_s(t.names, id) == Some(a.name)
    &&& strmap::get_s(t.based_on, id) == a.based_on
    &&& t.gallery.contains(id)
}

proof fn lemma_adding(t: StyleTableV, id: Seq<char>, a: AddedStyleV, other: Seq<char>)
    ensures
        holds_added_s(with_added_s(t, id, a), id, a),
        other != id ==> strmap::get_s(with_added_s(t, id, a).by_id, other) == strmap::get_s(
            t.by_id,
            other,
        ) && strmap::get_s(with_added_s(t, id, a).names, other) == strmap::get_s(t.names, other)
            && strmap::get_s(with_added_s(t, id, a).based_on, other) == strmap::get_s(
            t.based_on,
            other,
        ) && (t.gallery.contains(other) ==> with_added_s(t, id, a).gallery.contains(other)),
        holds_added_s(t, id, a) ==> with_added_s(t, id, a) == t,
{
    strmap::law_put_new_then_get(t.by_id, id, StylePropsV::initial(), other);
    strmap::law_put_then_get(t.names, id, a.name, other);
    match a.based_on {
        Some(b) => {
            strmap::law_put_then_get(t.based_on, id, b, other);
        },
        None => {
            strmap::law_without_then_get(t.based_on, id);
            strmap::law_without_keeps_the_others(t.based_on, id, other);
        },
    }
    lemma_pushed(t.gallery, id, id);
    lemma_pushed(t.gallery, id, other);
    if holds_added_s(t, id, a) {
        strmap::law_put_again_changes_nothing(t.names, id, a.name);
        if let Some(b) = a.based_on {
            strmap::law_put_again_changes_nothing(t.based_on, id, b);
        }
    }
}

proof fn lemma_all_added(t: StyleTableV, added: Seq<(Seq<char>, AddedStyleV)>, n: nat, i: int)
    requires
        strmap::distinct_s(added),
        0 <= i < n <= added.len(),
    ensures
        holds_added_s(with_all_added_s(t, added, n), added[i].0, added[i].1),
    decreases n,
{
    let s = with_all_added_s(t, added, (n - 1) as nat);
    lemma_adding(s, added[n - 1].0, added[n - 1].1, added[i].0);
    if i < n - 1 {
        lemma_all_added(t, added, (n - 1) as nat, i);
        assert(added[i].0 != added[n - 1].0);
    }
}

proof fn lemma_added_again(t: StyleTableV, added: Seq<(Seq<char>, AddedStyleV)>, n: nat)
    requires
        n <= added.len(),
        forall|i: int| 0 <= i < added.len() ==> holds_added_s(t, (#[trigger] added[i]).0, added[i].1),
    ensures
        with_all_added_s(t, added, n) == t,
    decreases n,
{
    if n > 0 {
        lemma_added_again(t, added, (n - 1) as nat);
        assert(holds_added_s(t, added[n - 1].0, added[n - 1].1));
        lemma_adding(t, added[n - 1].0, added[n - 1].1, added[n - 1].0);
    }
}

proof fn lemma_added_leaves(t: StyleTableV, added: Seq<(Seq<char>, AddedStyleV)>, n: nat, id: Seq<char>)
    requires
        n <= added.len(),
        forall|i: int| 0 <= i < added.len() ==> (#[trigger] added[i]).0 != id,
    ensures
        ({
            let m = with_all_added_s(t, added, n);
            &&& strmap::get_s(m.by_id, id) == strmap::get_s(t.by_id, id)
            &&& strmap::get_s(m.names, id) == strmap::get_s(t.names, id)
            &&& strmap::get_s(m.based_on, id) == strmap::get_s(t.based_on, id)
        }),
    decreases n,
{
    if n > 0 {
        lemma_added_leaves(t, added, (n - 1) as nat, id);
        let s = with_all_added_s(t, added, (n - 1) as nat);
        assert(added[n - 1].0 != id);
        lemma_adding(s, added[n - 1].0, added[n - 1].1, id);
    }
}

/// Registering the added styles a second time changes nothing, and what the table says of every
/// other style stays.
pub proof fn law_added_styles_are_registered_once(
    t: StyleTableV,
    added: Seq<(Seq<char>, AddedStyleV)>,
    id: Seq<char>,
)
    requires
        strmap::distinct_s(added),
    ensures
        ({
            let m = with_all_added_s(t, added, added.len());
            &&& with_all_added_s(m, added, added.len()) == m
            &&& (forall|i: int| 0 <= i < added.len() ==> (#[trigger] added[i]).0 != id) ==> {
                &&& strmap::get_s(m.by_id, id) == strmap::get_s(t.by_id, id)
                &&& strmap::get_s(m.names, id) == strmap::get_s(t.names, id)
                &&& strmap::get_s(m.based_on, id) == strmap::get_s(t.based_on, id)
            }
        }),
{
    let n = added.len();
    let m = with_all_added_s(t, added, n);
    assert forall|i: int| 0 <= i < n implies holds_added_s(m, (#[trigger] added[i]).0, added[i].1) by {
        lemma_all_added(t, added, n, i);
    }
    lemma_added_again(m, added, n);
    if forall|i: int| 0 <= i < added.len() ==> (#[trigger] added[i]).0 != id {
        lemma_added_leaves(t, added, n, id);
    }
}

proof fn lemma_chain(t: StyleTableV, cur: Option<Seq<char>>, acc: Seq<Seq<char>>, fuel: nat)
    requires
        acc.no_duplicates(),
        forall|i: int| 0 <= i < acc.len() ==> strmap::has_s(t.by_id, #[trigger] acc[i]),
    ensures
        ({
            let c = chain_from_s(t, cur, acc, fuel);
            &&& c.no_duplicates()
            &&& forall|i: int| 0 <= i < c.len() ==> strmap::has_s(t.by_id, #[trigger] c[i])
            &&& acc.len() <= c.len() <= acc.len() + fuel
            &&& c.subrange(0, acc.len() as int) == acc
        }),
    decreases fuel,
{
    assert(acc.subrange(0, acc.len() as int) =~= acc);
    if fuel > 0 {
        if let Some(id) = cur {
            if strmap::has_s(t.by_id, id) && !acc.contains(id) {
                let next = acc.push(id);
                assert forall|i: int, j: int| 0 <= i < next.len() && 0 <= j < next.len() && i
                    != j implies next[i] != next[j] by {
                    if i == acc.len() {
                        assert(acc.contains(acc[j]));
                    } else if j == acc.len() {
                        assert(acc.contains(acc[i]));
                    }
                }
                lemma_chain(t, strmap::get_s(t.based_on, id), next, (fuel - 1) as nat);
                let c = chain_from_s(t, cur, acc, fuel);
                assert(c.subrange(0, acc.len() as int) =~= c.subrange(
                    0,
                    next.len() as int,
                ).subrange(0, acc.len() as int));
                assert(next.subrange(0, acc.len() as int) =~= acc);
            }
        }
    }
}

/// A `basedOn` chain meets no style twice and only styles that are defined, whatever cycles the
/// parents form; it starts with the style itself.
pub proof fn law_chain_is_acyclic(t: StyleTableV, style: Seq<char>)
    ensures
        chain_s(t, Some(style)).no_duplicates(),
        forall|i: int|
            0 <= i < chain_s(t, Some(style)).len() ==> strmap::has_s(
                t.by_id,
                #[trigger] chain_s(t, Some(style))[i],
            ),
        chain_s(t, Some(style)).len() <= 33,
        strmap::has_s(t.by_id, style) ==> chain_s(t, Some(style)).len() > 0 && chain_s(
            t,
            Some(style),
        )[0] == style,
{
    lemma_chain(t, Some(style), Seq::empty(), 33);
    if strmap::has_s(t.by_id, style) {
        let first = seq![style];
        assert(Seq::<Seq<char>>::empty().push(style) =~= first);
        assert(!Seq::<Seq<char>>::empty().contains(style));
        lemma_chain(t, strmap::get_s(t.based_on, style), first, 32);
        let c = chain_s(t, Some(style));
        assert(c == chain_from_s(t, strmap::get_s(t.based_on, style), first, 32));
        assert(c.subrange(0, 1)[0] == first[0]);
    }
}

/// What a style sets itself wins over its ancestors and the document defaults; what it leaves
/// unset is what its chain says without it.
pub proof fn law_most_derived_wins(t: StyleTableV, style: Seq<char>)
    requires
        strmap::has_s(t.by_id, style),
    ensures
        ({
            let own = strmap::get_s(t.by_id, style)->0;
            let under = layered_s(t.default, t, chain_s(t, Some(style)), 1);
            resolve_s(t, Some(style)) == overlay_s(under, own)
        }),
{
    law_chain_is_acyclic(t, style);
}

} // verus!
