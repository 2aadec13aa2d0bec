//! What the layers of a style make of each property.
//!
//! A property of a paragraph is the one that the first layer that sets it gives: the style itself,
//! then its ancestors, inside a table the table style and its ancestors, and last the document
//! defaults.

use vstd::prelude::*;
use crate::strmap;
use crate::styles;
use crate::styles::{StylePropsV, StyleTableV};
use crate::types::{CellMargins, EdgeBordersV};

verus! {

// ---------------------------------------------------------------- the path of a style

/// Whether `path` lists a style and its ancestors: each is defined and met once, each but the
/// first is the one that the style before it is based on, and the list ends only where the next
/// is not defined, was met before, or would be the thirty-fourth.
pub open spec fn path_s(t: StyleTableV, style: Option<Seq<char>>, path: Seq<Seq<char>>) -> bool {
    &&& path.len() <= 33
    &&& path.no_duplicates()
    &&& forall|i: int| 0 <= i < path.len() ==> strmap::has_s(t.by_id, #[trigger] path[i])
    &&& path.len() == 0 ==> (style matches Some(s) ==> !strmap::has_s(t.by_id, s))
    &&& path.len() > 0 ==> style == Some(path[0])
    &&& forall|i: int|
        0 < i < path.len() ==> strmap::get_s(t.based_on, path[i - 1]) == Some(#[trigger] path[i])
    &&& path.len() > 0 ==> (strmap::get_s(t.based_on, path.last()) matches Some(s)
        ==> !strmap::has_s(t.by_id, s) || path.contains(s) || path.len() == 33)
}

proof fn lemma_path(t: StyleTableV, style: Option<Seq<char>>, path: Seq<Seq<char>>, k: nat)
    requires
        path_s(t, style, path),
        k <= path.len(),
    ensures
        styles::chain_from_s(
            t,
            if k == 0 {
                style
            } else {
                strmap::get_s(t.based_on, path[k - 1])
            },
            path.take(k as int),
            (33 - k) as nat,
        ) == path,
    decreases path.len() - k,
{
    if k < path.len() {
        lemma_path(t, style, path, k + 1);
        let acc = path.take(k as int);
        assert(acc.push(path[k as int]) =~= path.take((k + 1) as int));
        if acc.contains(path[k as int]) {
            let j = choose|j: int| 0 <= j < acc.len() && acc[j] == path[k as int];
            assert(path[j] == path[k as int]);
        }
    } else {
        assert(path.take(k as int) =~= path);
    }
}

proof fn lemma_chain_of_path(t: StyleTableV, style: Option<Seq<char>>, path: Seq<Seq<char>>)
    requires
        path_s(t, style, path),
    ensures
        styles::chain_s(t, style) == path,
{
    lemma_path(t, style, path, 0);
    assert(path.take(0) =~= Seq::empty());
}

proof fn lemma_chain_goes_on(
    t: StyleTableV,
    style: Option<Seq<char>>,
    acc: Seq<Seq<char>>,
    fuel: nat,
)
    requires
        acc.len() + fuel == 33,
        acc.no_duplicates(),
        forall|i: int| 0 <= i < acc.len() ==> strmap::has_s(t.by_id, #[trigger] acc[i]),
        acc.len() > 0 ==> style == Some(acc[0]),
        forall|i: int|
            0 < i < acc.len() ==> strmap::get_s(t.based_on, acc[i - 1]) == Some(#[trigger] acc[i]),
    ensures
        path_s(
            t,
            style,
            styles::chain_from_s(
                t,
                if acc.len() == 0 {
                    style
                } else {
                    strmap::get_s(t.based_on, acc.last())
                },
                acc,
                fuel,
            ),
        ),
    decreases fuel,
{
    let cur = if acc.len() == 0 {
        style
    } else {
        strmap::get_s(t.based_on, acc.last())
    };
    if fuel > 0 {
        if let Some(id) = cur {
            if strmap::has_s(t.by_id, id) && !acc.contains(id) {
                let next = acc.push(id);
                assert forall|i: int, j: int| 0 <= i < next.len() && 0 <= j < next.len() && i
                    != j implies next[i] != next[j] by {
                    if i == acc.len() {
                        assert(acc.contains(acc[j]));
                    } else if j == acc.len() {
                        assert(acc.contains(acc[i]));
                    }
                }
                lemma_chain_goes_on(t, style, next, (fuel - 1) as nat);
            }
        }
    }
}

/// Every style has one path.
pub proof fn law_every_style_has_one_path(
    t: StyleTableV,
    style: Option<Seq<char>>,
    path: Seq<Seq<char>>,
    other: Seq<Seq<char>>,
)
    ensures
        exists|p: Seq<Seq<char>>| #[trigger] path_s(t, style, p),
        path_s(t, style, path) && path_s(t, style, other) ==> path == other,
{
    lemma_chain_goes_on(t, style, Seq::empty(), 33);
    assert(path_s(t, style, styles::chain_s(t, style)));
    if path_s(t, style, path) && path_s(t, style, other) {
        lemma_chain_of_path(t, style, path);
        lemma_chain_of_path(t, style, other);
    }
}

// ---------------------------------------------------------------- the first layer that sets it

/// Whether `r` is the first value that is there; none where none is.
pub open spec fn first_of_s<T>(v: Seq<Option<T>>, r: Option<T>) -> bool {
    ||| exists|k: int|
        0 <= k < v.len() && #[trigger] v[k] is Some && r == v[k] && forall|i: int|
            0 <= i < k ==> #[trigger] v[i] is None
    ||| r is None && forall|i: int| 0 <= i < v.len() ==> #[trigger] v[i] is None
}

proof fn lemma_first<T>(o: Option<T>, v: Seq<Option<T>>, r: Option<T>)
    requires
        first_of_s(v, r),
    ensures
        first_of_s(
            seq![o] + v,
            if o is Some {
                o
            } else {
                r
            },
        ),
{
    let w = seq![o] + v;
    if o is Some {
        assert(w[0] is Some);
    } else if exists|k: int|
        0 <= k < v.len() && #[trigger] v[k] is Some && r == v[k] && forall|i: int|
            0 <= i < k ==> #[trigger] v[i] is None {
        let k = choose|k: int|
            0 <= k < v.len() && #[trigger] v[k] is Some && r == v[k] && forall|i: int|
                0 <= i < k ==> #[trigger] v[i] is None;
        assert(w[k + 1] is Some);
        assert forall|i: int| 0 <= i < k + 1 implies #[trigger] w[i] is None by {
            if i > 0 {
                assert(w[i] == v[i - 1]);
            }
        }
    } else {
        assert forall|i: int| 0 <= i < w.len() implies #[trigger] w[i] is None by {
            if i > 0 {
                assert(w[i] == v[i - 1]);
            }
        }
    }
}

/// Whether each property of `p` is the one of the first of the layers that sets it; the line rule
/// is the one of the layer that sets the line spacing.
pub open spec fn settled_s(p: StylePropsV, v: Seq<StylePropsV>) -> bool {
    &&& first_of_s(Seq::new(v.len(), |i: int| v[i].size), p.size)
    &&& first_of_s(Seq::new(v.len(), |i: int| v[i].bold), p.bold)
    &&& first_of_s(Seq::new(v.len(), |i: int| v[i].italic), p.italic)
    &&& first_of_s(Seq::new(v.len(), |i: int| v[i].color), p.color)
    &&& first_of_s(Seq::new(v.len(), |i: int| v[i].highlight), p.highlight)
    &&& first_of_s(Seq::new(v.len(), |i: int| v[i].font), p.font)
    &&& first_of_s(Seq::new(v.len(), |i: int| v[i].line_spacing), p.line_spacing)
    &&& first_of_s(Seq::new(v.len(), |i: int| v[i].space_before), p.space_before)
    &&& first_of_s(Seq::new(v.len(), |i: int| v[i].space_after), p.space_after)
    &&& first_of_s(Seq::new(v.len(), |i: int| v[i].num_id), p.num_id)
    &&& first_of_s(Seq::new(v.len(), |i: int| v[i].num_ilvl), p.num_ilvl)
    &&& first_of_s(Seq::new(v.len(), |i: int| v[i].border), p.border)
    &&& first_of_s(Seq::new(v.len(), |i: int| v[i].indent_left), p.indent_left)
    &&& first_of_s(Seq::new(v.len(), |i: int| v[i].indent_right), p.indent_right)
    &&& first_of_s(Seq::new(v.len(), |i: int| v[i].keep_next), p.keep_next)
    &&& first_of_s(Seq::new(v.len(), |i: int| v[i].contextual_spacing), p.contextual_spacing)
    &&& first_of_s(Seq::new(v.len(), |i: int| v[i].align), p.align)
    &&& first_of_s(Seq::new(v.len(), |i: int| v[i].page_break_before), p.page_break_before)
    &&& p.line_spacing is Some ==> exists|k: int|
        0 <= k < v.len() && #[trigger] v[k].line_spacing is Some && p.line_rule == v[k].line_rule
            && forall|i: int| 0 <= i < k ==> #[trigger] v[i].line_spacing is None
}

#[verifier::spinoff_prover]
proof fn lemma_overlay(u: StylePropsV, s: StylePropsV, v: Seq<StylePropsV>)
    requires
        settled_s(u, v),
    ensures
        settled_s(styles::overlay_s(u, s), seq![s] + v),
{
    let w = seq![s] + v;
    let p = styles::overlay_s(u, s);
    assert(first_of_s(Seq::new(w.len(), |i: int| w[i].size), p.size)) by {
        lemma_first(s.size, Seq::new(v.len(), |i: int| v[i].size), u.size);
        assert(Seq::new(w.len(), |i: int| w[i].size) =~= seq![s.size] + Seq::new(v.len(), |i: int| v[i].size));
    }
    assert(first_of_s(Seq::new(w.len(), |i: int| w[i].bold), p.bold)) by {
        lemma_first(s.bold, Seq::new(v.len(), |i: int| v[i].bold), u.bold);
        assert(Seq::new(w.len(), |i: int| w[i].bold) =~= seq![s.bold] + Seq::new(v.len(), |i: int| v[i].bold));
    }
    assert(first_of_s(Seq::new(w.len(), |i: int| w[i].italic), p.italic)) by {
        lemma_first(s.italic, Seq::new(v.len(), |i: int| v[i].italic), u.italic);
        assert(Seq::new(w.len(), |i: int| w[i].italic) =~= seq![s.italic] + Seq::new(v.len(), |i: int| v[i].italic));
    }
    assert(first_of_s(Seq::new(w.len(), |i: int| w[i].color), p.color)) by {
        lemma_first(s.color, Seq::new(v.len(), |i: int| v[i].color), u.color);
        assert(Seq::new(w.len(), |i: int| w[i].color) =~= seq![s.color] + Seq::new(v.len(), |i: int| v[i].color));
    }
    assert(first_of_s(Seq::new(w.len(), |i: int| w[i].highlight), p.highlight)) by {
        lemma_first(s.highlight, Seq::new(v.len(), |i: int| v[i].highlight), u.highlight);
        assert(Seq::new(w.len(), |i: int| w[i].highlight) =~= seq![s.highlight] + Seq::new(v.len(), |i: int| v[i].highlight));
    }
    assert(first_of_s(Seq::new(w.len(), |i: int| w[i].font), p.font)) by {
        lemma_first(s.font, Seq::new(v.len(), |i: int| v[i].font), u.font);
        assert(Seq::new(w.len(), |i: int| w[i].font) =~= seq![s.font] + Seq::new(v.len(), |i: int| v[i].font));
    }
    assert(first_of_s(Seq::new(w.len(), |i: int| w[i].line_spacing), p.line_spacing)) by {
        lemma_first(s.line_spacing, Seq::new(v.len(), |i: int| v[i].line_spacing), u.line_spacing);
        assert(Seq::new(w.len(), |i: int| w[i].line_spacing) =~= seq![s.line_spacing] + Seq::new(v.len(), |i: int| v[i].line_spacing));
    }
    assert(first_of_s(Seq::new(w.len(), |i: int| w[i].space_before), p.space_before)) by {
        lemma_first(s.space_before, Seq::new(v.len(), |i: int| v[i].space_before), u.space_before);
        assert(Seq::new(w.len(), |i: int| w[i].space_before) =~= seq![s.space_before] + Seq::new(v.len(), |i: int| v[i].space_before));
    }
    assert(first_of_s(Seq::new(w.len(), |i: int| w[i].space_after), p.space_after)) by {
        lemma_first(s.space_after, Seq::new(v.len(), |i: int| v[i].space_after), u.space_after);
        assert(Seq::new(w.len(), |i: int| w[i].space_after) =~= seq![s.space_after] + Seq::new(v.len(), |i: int| v[i].space_after));
    }
    assert(first_of_s(Seq::new(w.len(), |i: int| w[i].num_id), p.num_id)) by {
        lemma_first(s.num_id, Seq::new(v.len(), |i: int| v[i].num_id), u.num_id);
        assert(Seq::new(w.len(), |i: int| w[i].num_id) =~= seq![s.num_id] + Seq::new(v.len(), |i: int| v[i].num_id));
    }
    assert(first_of_s(Seq::new(w.len(), |i: int| w[i].num_ilvl), p.num_ilvl)) by {
        lemma_first(s.num_ilvl, Seq::new(v.len(), |i: int| v[i].num_ilvl), u.num_ilvl);
        assert(Seq::new(w.len(), |i: int| w[i].num_ilvl) =~= seq![s.num_ilvl] + Seq::new(v.len(), |i: int| v[i].num_ilvl));
    }
    assert(first_of_s(Seq::new(w.len(), |i: int| w[i].border), p.border)) by {
        lemma_first(s.border, Seq::new(v.len(), |i: int| v[i].border), u.border);
        assert(Seq::new(w.len(), |i: int| w[i].border) =~= seq![s.border] + Seq::new(v.len(), |i: int| v[i].border));
    }
    assert(first_of_s(Seq::new(w.len(), |i: int| w[i].indent_left), p.indent_left)) by {
        lemma_first(s.indent_left, Seq::new(v.len(), |i: int| v[i].indent_left), u.indent_left);
        assert(Seq::new(w.len(), |i: int| w[i].indent_left) =~= seq![s.indent_left] + Seq::new(v.len(), |i: int| v[i].indent_left));
    }
    assert(first_of_s(Seq::new(w.len(), |i: int| w[i].indent_right), p.indent_right)) by {
        lemma_first(s.indent_right, Seq::new(v.len(), |i: int| v[i].indent_right), u.indent_right);
        assert(Seq::new(w.len(), |i: int| w[i].indent_right) =~= seq![s.indent_right] + Seq::new(v.len(), |i: int| v[i].indent_right));
    }
    assert(first_of_s(Seq::new(w.len(), |i: int| w[i].keep_next), p.keep_next)) by {
        lemma_first(s.keep_next, Seq::new(v.len(), |i: int| v[i].keep_next), u.keep_next);
        assert(Seq::new(w.len(), |i: int| w[i].keep_next) =~= seq![s.keep_next] + Seq::new(v.len(), |i: int| v[i].keep_next));
    }
    assert(first_of_s(Seq::new(w.len(), |i: int| w[i].contextual_spacing), p.contextual_spacing)) by {
        lemma_first(s.contextual_spacing, Seq::new(v.len(), |i: int| v[i].contextual_spacing), u.contextual_spacing);
        assert(Seq::new(w.len(), |i: int| w[i].contextual_spacing) =~= seq![s.contextual_spacing] + Seq::new(v.len(), |i: int| v[i].contextual_spacing));
    }
    assert(first_of_s(Seq::new(w.len(), |i: int| w[i].align), p.align)) by {
        lemma_first(s.align, Seq::new(v.len(), |i: int| v[i].align), u.align);
        assert(Seq::new(w.len(), |i: int| w[i].align) =~= seq![s.align] + Seq::new(v.len(), |i: int| v[i].align));
    }
    assert(first_of_s(Seq::new(w.len(), |i: int| w[i].page_break_before), p.page_break_before)) by {
        lemma_first(s.page_break_before, Seq::new(v.len(), |i: int| v[i].page_break_before), u.page_break_before);
        assert(Seq::new(w.len(), |i: int| w[i].page_break_before) =~= seq![s.page_break_before] + Seq::new(v.len(), |i: int| v[i].page_break_before));
    }
    if p.line_spacing is Some {
        if s.line_spacing is Some {
            assert(w[0].line_spacing is Some);
        } else {
            let k = choose|k: int|
                0 <= k < v.len() && #[trigger] v[k].line_spacing is Some && u.line_rule
                    == v[k].line_rule && forall|i: int|
                    0 <= i < k ==> #[trigger] v[i].line_spacing is None;
            assert(w[k + 1].line_spacing is Some);
            assert forall|i: int| 0 <= i < k + 1 implies #[trigger] w[i].line_spacing is None by {
                if i > 0 {
                    assert(w[i] == v[i - 1]);
                }
            }
        }
    }
}

proof fn lemma_alone(p: StylePropsV)
    ensures
        settled_s(p, seq![p]),
{
    let w = seq![p];
    assert(first_of_s(Seq::new(w.len(), |i: int| w[i].size), p.size)) by {
        assert(Seq::new(w.len(), |i: int| w[i].size)[0] == p.size);
    }
    assert(first_of_s(Seq::new(w.len(), |i: int| w[i].bold), p.bold)) by {
        assert(Seq::new(w.len(), |i: int| w[i].bold)[0] == p.bold);
    }
    assert(first_of_s(Seq::new(w.len(), |i: int| w[i].italic), p.italic)) by {
        assert(Seq::new(w.len(), |i: int| w[i].italic)[0] == p.italic);
    }
    assert(first_of_s(Seq::new(w.len(), |i: int| w[i].color), p.color)) by {
        assert(Seq::new(w.len(), |i: int| w[i].color)[0] == p.color);
    }
    assert(first_of_s(Seq::new(w.len(), |i: int| w[i].highlight), p.highlight)) by {
        assert(Seq::new(w.len(), |i: int| w[i].highlight)[0] == p.highlight);
    }
    assert(first_of_s(Seq::new(w.len(), |i: int| w[i].font), p.font)) by {
        assert(Seq::new(w.len(), |i: int| w[i].font)[0] == p.font);
    }
    assert(first_of_s(Seq::new(w.len(), |i: int| w[i].line_spacing), p.line_spacing)) by {
        assert(Seq::new(w.len(), |i: int| w[i].line_spacing)[0] == p.line_spacing);
    }
    assert(first_of_s(Seq::new(w.len(), |i: int| w[i].space_before), p.space_before)) by {
        assert(Seq::new(w.len(), |i: int| w[i].space_before)[0] == p.space_before);
    }
    assert(first_of_s(Seq::new(w.len(), |i: int| w[i].space_after), p.space_after)) by {
        assert(Seq::new(w.len(), |i: int| w[i].space_after)[0] == p.space_after);
    }
    assert(first_of_s(Seq::new(w.len(), |i: int| w[i].num_id), p.num_id)) by {
        assert(Seq::new(w.len(), |i: int| w[i].num_id)[0] == p.num_id);
    }
    assert(first_of_s(Seq::new(w.len(), |i: int| w[i].num_ilvl), p.num_ilvl)) by {
        assert(Seq::new(w.len(), |i: int| w[i].num_ilvl)[0] == p.num_ilvl);
    }
    assert(first_of_s(Seq::new(w.len(), |i: int| w[i].border), p.border)) by {
        assert(Seq::new(w.len(), |i: int| w[i].border)[0] == p.border);
    }
    assert(first_of_s(Seq::new(w.len(), |i: int| w[i].indent_left), p.indent_left)) by {
        assert(Seq::new(w.len(), |i: int| w[i].indent_left)[0] == p.indent_left);
    }
    assert(first_of_s(Seq::new(w.len(), |i: int| w[i].indent_right), p.indent_right)) by {
        assert(Seq::new(w.len(), |i: int| w[i].indent_right)[0] == p.indent_right);
    }
    assert(first_of_s(Seq::new(w.len(), |i: int| w[i].keep_next), p.keep_next)) by {
        assert(Seq::new(w.len(), |i: int| w[i].keep_next)[0] == p.keep_next);
    }
    assert(first_of_s(Seq::new(w.len(), |i: int| w[i].contextual_spacing), p.contextual_spacing)) by {
        assert(Seq::new(w.len(), |i: int| w[i].contextual_spacing)[0] == p.contextual_spacing);
    }
    assert(first_of_s(Seq::new(w.len(), |i: int| w[i].align), p.align)) by {
        assert(Seq::new(w.len(), |i: int| w[i].align)[0] == p.align);
    }
    assert(first_of_s(Seq::new(w.len(), |i: int| w[i].page_break_before), p.page_break_before)) by {
        assert(Seq::new(w.len(), |i: int| w[i].page_break_before)[0] == p.page_break_before);
    }
    assert(w[0] == p);
}

/// What each style of a path sets itself.
pub open spec fn own_s(t: StyleTableV, path: Seq<Seq<char>>) -> Seq<StylePropsV> {
    Seq::new(path.len(), |i: int| strmap::get_s(t.by_id, path[i])->0)
}

proof fn lemma_layered(
    p: StylePropsV,
    v: Seq<StylePropsV>,
    t: StyleTableV,
    path: Seq<Seq<char>>,
    k: int,
)
    requires
        0 <= k <= path.len(),
        settled_s(p, v),
        forall|i: int| 0 <= i < path.len() ==> strmap::has_s(t.by_id, #[trigger] path[i]),
    ensures
        settled_s(styles::layered_s(p, t, path, k), own_s(t, path).skip(k) + v),
    decreases path.len() - k,
{
    let o = own_s(t, path);
    if k < path.len() {
        lemma_layered(p, v, t, path, k + 1);
        let u = styles::layered_s(p, t, path, k + 1);
        lemma_overlay(u, o[k], o.skip(k + 1) + v);
        assert(seq![o[k]] + (o.skip(k + 1) + v) =~= o.skip(k) + v);
        assert(strmap::has_s(t.by_id, path[k]));
    } else {
        assert(o.skip(k) + v =~= v);
    }
}

/// Outside tables each property of a paragraph is what its style sets, else what the nearest
/// ancestor that sets it does, else what the document defaults say. A paragraph without a style
/// follows the default paragraph style.
pub proof fn law_paragraph_follows_its_styles(
    t: StyleTableV,
    style: Option<Seq<char>>,
    path: Seq<Seq<char>>,
)
    requires
        path_s(
            t,
            if style is Some {
                style
            } else {
                t.default_para_style
            },
            path,
        ),
    ensures
        settled_s(styles::resolve_s(t, style), own_s(t, path) + seq![t.default]),
{
    let start = if style is Some {
        style
    } else {
        t.default_para_style
    };
    lemma_chain_of_path(t, start, path);
    lemma_alone(t.default);
    lemma_layered(t.default, seq![t.default], t, path, 0);
    assert(own_s(t, path).skip(0) =~= own_s(t, path));
}

/// In a table each property of a paragraph is what its own styles set; only what they leave unset
/// comes from the table style and its ancestors, and only what those leave unset too from the
/// document defaults.
pub proof fn law_table_style_lies_under_the_paragraph_style(
    t: StyleTableV,
    style: Option<Seq<char>>,
    table_style: Option<Seq<char>>,
    path: Seq<Seq<char>>,
    table_path: Seq<Seq<char>>,
)
    requires
        path_s(
            t,
            if style is Some {
                style
            } else {
                t.default_para_style
            },
            path,
        ),
        path_s(t, table_style, table_path),
    ensures
        settled_s(
            styles::resolve_in_table_s(t, style, table_style),
            own_s(t, path) + own_s(t, table_path) + seq![t.default],
        ),
{
    let start = if style is Some {
        style
    } else {
        t.default_para_style
    };
    lemma_chain_of_path(t, start, path);
    lemma_chain_of_path(t, table_style, table_path);
    lemma_alone(t.default);
    let under = styles::layered_s(t.default, t, table_path, 0);
    let v = own_s(t, table_path) + seq![t.default];
    lemma_layered(t.default, seq![t.default], t, table_path, 0);
    assert(own_s(t, table_path).skip(0) =~= own_s(t, table_path));
    lemma_layered(under, v, t, path, 0);
    assert(own_s(t, path).skip(0) + v =~= own_s(t, path) + own_s(t, table_path) + seq![t.default]);
}

// ---------------------------------------------------------------- table styles

/// What each style of a path says; none where it says nothing.
pub open spec fn said_s<T>(m: Seq<(Seq<char>, T)>, path: Seq<Seq<char>>) -> Seq<Option<T>> {
    Seq::new(path.len(), |i: int| strmap::get_s(m, path[i]))
}

pub open spec fn edges_settled_s(b: EdgeBordersV, v: Seq<Option<EdgeBordersV>>) -> bool {
    &&& first_of_s(Seq::new(v.len(), |i: int| if v[i] is Some { v[i]->0.top } else { None }), b.top)
    &&& first_of_s(Seq::new(v.len(), |i: int| if v[i] is Some { v[i]->0.left } else { None }), b.left)
    &&& first_of_s(Seq::new(v.len(), |i: int| if v[i] is Some { v[i]->0.bottom } else { None }), b.bottom)
    &&& first_of_s(Seq::new(v.len(), |i: int| if v[i] is Some { v[i]->0.right } else { None }), b.right)
    &&& first_of_s(Seq::new(v.len(), |i: int| if v[i] is Some { v[i]->0.inside_h } else { None }), b.inside_h)
    &&& first_of_s(Seq::new(v.len(), |i: int| if v[i] is Some { v[i]->0.inside_v } else { None }), b.inside_v)
}

pub open spec fn margins_settled_s(b: CellMargins, v: Seq<Option<CellMargins>>) -> bool {
    &&& first_of_s(Seq::new(v.len(), |i: int| if v[i] is Some { v[i]->0.top } else { None }), b.top)
    &&& first_of_s(Seq::new(v.len(), |i: int| if v[i] is Some { v[i]->0.left } else { None }), b.left)
    &&& first_of_s(Seq::new(v.len(), |i: int| if v[i] is Some { v[i]->0.bottom } else { None }), b.bottom)
    &&& first_of_s(Seq::new(v.len(), |i: int| if v[i] is Some { v[i]->0.right } else { None }), b.right)
}

proof fn lemma_edges(t: StyleTableV, path: Seq<Seq<char>>, k: int)
    requires
        0 <= k <= path.len(),
    ensures
        edges_settled_s(styles::table_borders_s(t, path, k), said_s(t.table_borders, path).skip(k)),
    decreases path.len() - k,
{
    let all = said_s(t.table_borders, path);
    let w = all.skip(k);
    let b = styles::table_borders_s(t, path, k);
    if k < path.len() {
        lemma_edges(t, path, k + 1);
        let v = all.skip(k + 1);
        let u = styles::table_borders_s(t, path, k + 1);
        assert(w[0] == strmap::get_s(t.table_borders, path[k]));
        assert(first_of_s(Seq::new(w.len(), |i: int| if w[i] is Some { w[i]->0.top } else { None }), b.top)) by {
            let x = if w[0] is Some { w[0]->0.top } else { None };
            let c = Seq::new(v.len(), |i: int| if v[i] is Some { v[i]->0.top } else { None });
            lemma_first(x, c, u.top);
            assert(Seq::new(w.len(), |i: int| if w[i] is Some { w[i]->0.top } else { None }) =~= seq![x] + c);
        }
        assert(first_of_s(Seq::new(w.len(), |i: int| if w[i] is Some { w[i]->0.left } else { None }), b.left)) by {
            let x = if w[0] is Some { w[0]->0.left } else { None };
            let c = Seq::new(v.len(), |i: int| if v[i] is Some { v[i]->0.left } else { None });
            lemma_first(x, c, u.left);
            assert(Seq::new(w.len(), |i: int| if w[i] is Some { w[i]->0.left } else { None }) =~= seq![x] + c);
        }
        assert(first_of_s(Seq::new(w.len(), |i: int| if w[i] is Some { w[i]->0.bottom } else { None }), b.bottom)) by {
            let x = if w[0] is Some { w[0]->0.bottom } else { None };
            let c = Seq::new(v.len(), |i: int| if v[i] is Some { v[i]->0.bottom } else { None });
            lemma_first(x, c, u.bottom);
            assert(Seq::new(w.len(), |i: int| if w[i] is Some { w[i]->0.bottom } else { None }) =~= seq![x] + c);
        }
        assert(first_of_s(Seq::new(w.len(), |i: int| if w[i] is Some { w[i]->0.right } else { None }), b.right)) by {
            let x = if w[0] is Some { w[0]->0.right } else { None };
            let c = Seq::new(v.len(), |i: int| if v[i] is Some { v[i]->0.right } else { None });
            lemma_first(x, c, u.right);
            assert(Seq::new(w.len(), |i: int| if w[i] is Some { w[i]->0.right } else { None }) =~= seq![x] + c);
        }
        assert(first_of_s(Seq::new(w.len(), |i: int| if w[i] is Some { w[i]->0.inside_h } else { None }), b.inside_h)) by {
            let x = if w[0] is Some { w[0]->0.inside_h } else { None };
            let c = Seq::new(v.len(), |i: int| if v[i] is Some { v[i]->0.inside_h } else { None });
            lemma_first(x, c, u.inside_h);
            assert(Seq::new(w.len(), |i: int| if w[i] is Some { w[i]->0.inside_h } else { None }) =~= seq![x] + c);
        }
        assert(first_of_s(Seq::new(w.len(), |i: int| if w[i] is Some { w[i]->0.inside_v } else { None }), b.inside_v)) by {
            let x = if w[0] is Some { w[0]->0.inside_v } else { None };
            let c = Seq::new(v.len(), |i: int| if v[i] is Some { v[i]->0.inside_v } else { None });
            lemma_first(x, c, u.inside_v);
            assert(Seq::new(w.len(), |i: int| if w[i] is Some { w[i]->0.inside_v } else { None }) =~= seq![x] + c);
        }
    }
}

proof fn lemma_margins(t: StyleTableV, path: Seq<Seq<char>>, k: int)
    requires
        0 <= k <= path.len(),
    ensures
        margins_settled_s(styles::table_margins_s(t, path, k), said_s(t.table_cell_margins, path).skip(k)),
    decreases path.len() - k,
{
    let all = said_s(t.table_cell_margins, path);
    let w = all.skip(k);
    let b = styles::table_margins_s(t, path, k);
    if k < path.len() {
        lemma_margins(t, path, k + 1);
        let v = all.skip(k + 1);
        let u = styles::table_margins_s(t, path, k + 1);
        assert(w[0] == strmap::get_s(t.table_cell_margins, path[k]));
        assert(first_of_s(Seq::new(w.len(), |i: int| if w[i] is Some { w[i]->0.top } else { None }), b.top)) by {
            let x = if w[0] is Some { w[0]->0.top } else { None };
            let c = Seq::new(v.len(), |i: int| if v[i] is Some { v[i]->0.top } else { None });
            lemma_first(x, c, u.top);
            assert(Seq::new(w.len(), |i: int| if w[i] is Some { w[i]->0.top } else { None }) =~= seq![x] + c);
        }
        assert(first_of_s(Seq::new(w.len(), |i: int| if w[i] is Some { w[i]->0.left } else { None }), b.left)) by {
            let x = if w[0] is Some { w[0]->0.left } else { None };
            let c = Seq::new(v.len(), |i: int| if v[i] is Some { v[i]->0.left } else { None });
            lemma_first(x, c, u.left);
            assert(Seq::new(w.len(), |i: int| if w[i] is Some { w[i]->0.left } else { None }) =~= seq![x] + c);
        }
        assert(first_of_s(Seq::new(w.len(), |i: int| if w[i] is Some { w[i]->0.bottom } else { None }), b.bottom)) by {
            let x = if w[0] is Some { w[0]->0.bottom } else { None };
            let c = Seq::new(v.len(), |i: int| if v[i] is Some { v[i]->0.bottom } else { None });
            lemma_first(x, c, u.bottom);
            assert(Seq::new(w.len(), |i: int| if w[i] is Some { w[i]->0.bottom } else { None }) =~= seq![x] + c);
        }
        assert(first_of_s(Seq::new(w.len(), |i: int| if w[i] is Some { w[i]->0.right } else { None }), b.right)) by {
            let x = if w[0] is Some { w[0]->0.right } else { None };
            let c = Seq::new(v.len(), |i: int| if v[i] is Some { v[i]->0.right } else { None });
            lemma_first(x, c, u.right);
            assert(Seq::new(w.len(), |i: int| if w[i] is Some { w[i]->0.right } else { None }) =~= seq![x] + c);
        }
    }
}

proof fn lemma_shading(t: StyleTableV, path: Seq<Seq<char>>, k: int)
    requires
        0 <= k <= path.len(),
    ensures
        first_of_s(said_s(t.table_first_row_shd, path).skip(k), styles::first_row_shd_s(t, path, k)),
    decreases path.len() - k,
{
    let all = said_s(t.table_first_row_shd, path);
    if k < path.len() {
        lemma_shading(t, path, k + 1);
        lemma_first(all[k], all.skip(k + 1), styles::first_row_shd_s(t, path, k + 1));
        assert(all.skip(k) =~= seq![all[k]] + all.skip(k + 1));
    }
}

/// Each border edge, each cell margin and the shading of the first row of a table are what the
/// table's style says of it, else what the nearest ancestor that speaks of it says.
pub proof fn law_tables_follow_their_styles(
    t: StyleTableV,
    style: Option<Seq<char>>,
    path: Seq<Seq<char>>,
)
    requires
        path_s(t, style, path),
    ensures
        edges_settled_s(
            styles::table_borders_s(t, styles::chain_s(t, style), 0),
            said_s(t.table_borders, path),
        ),
        margins_settled_s(
            styles::table_margins_s(t, styles::chain_s(t, style), 0),
            said_s(t.table_cell_margins, path),
        ),
        first_of_s(
            said_s(t.table_first_row_shd, path),
            styles::first_row_shd_s(t, styles::chain_s(t, style), 0),
        ),
{
    lemma_chain_of_path(t, style, path);
    lemma_edges(t, path, 0);
    lemma_margins(t, path, 0);
    lemma_shading(t, path, 0);
    assert(said_s(t.table_borders, path).skip(0) =~= said_s(t.table_borders, path));
    assert(said_s(t.table_cell_margins, path).skip(0) =~= said_s(t.table_cell_margins, path));
    assert(said_s(t.table_first_row_shd, path).skip(0) =~= said_s(t.table_first_row_shd, path));
}

} // verus!
