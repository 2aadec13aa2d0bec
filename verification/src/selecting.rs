//! What the formatting of a selection says of the characters in it.

use vstd::prelude::*;
use crate::edits;
use crate::formatting;
use crate::import;
use crate::styles::StylePropsV;
use crate::types::RunV;

verus! {

broadcast use vstd::string::group_string_axioms;

/// Whether character `k` of a paragraph stands in run `i`.
pub open spec fn stands_in_s(v: Seq<RunV>, i: int, k: int) -> bool {
    &&& 0 <= i < v.len()
    &&& import::runs_len_s(v, i as nat) <= k < import::runs_len_s(v, (i + 1) as nat)
}

/// Whether every character of `start..end` has `t`, where `f` says what a character of a run has.
pub open spec fn all_have_s<T>(v: Seq<RunV>, start: int, end: int, f: spec_fn(RunV) -> T, t: T) -> bool {
    forall|i: int, k: int| start <= k < end && #[trigger] stands_in_s(v, i, k) ==> f(v[i]) == t
}

/// Whether `o` says what the characters of `start..end` agree on: it is `t` where they all have `t`,
/// and nothing where two of them differ.
pub open spec fn says_s<T>(
    v: Seq<RunV>,
    start: int,
    end: int,
    f: spec_fn(RunV) -> T,
    o: Option<T>,
) -> bool {
    forall|t: T| (o == Some(t)) == #[trigger] all_have_s(v, start, end, f, t)
}

/// The same, of what a character may be without.
pub open spec fn says_text_s(
    v: Seq<RunV>,
    start: int,
    end: int,
    f: spec_fn(RunV) -> Option<Seq<char>>,
    o: Option<Seq<char>>,
) -> bool {
    forall|t: Seq<char>| (o == Some(t)) == #[trigger] all_have_s(v, start, end, f, Some(t))
}

/// Whether run `i` is in the selection.
spec fn chosen_s(v: Seq<RunV>, i: int, start: usize, end: usize) -> bool {
    formatting::selected_s(
        edits::offset_s(v, i as nat),
        edits::offset_s(v, (i + 1) as nat),
        start,
        end,
    )
}

proof fn lemma_chosen(v: Seq<RunV>, start: usize, end: usize, n: nat)
    requires
        n <= v.len(),
    ensures
        ({
            let c = formatting::selected_runs_s(v, start, end, n);
            &&& forall|i: int| 0 <= i < n && #[trigger] chosen_s(v, i, start, end) ==> c.contains(v[i])
            &&& forall|j: int|
                0 <= j < c.len() ==> exists|i: int|
                    0 <= i < n && #[trigger] chosen_s(v, i, start, end) && v[i] == #[trigger] c[j]
        }),
    decreases n,
{
    if n > 0 {
        let m = (n - 1) as nat;
        lemma_chosen(v, start, end, m);
        let a = formatting::selected_runs_s(v, start, end, m);
        let c = formatting::selected_runs_s(v, start, end, n);
        assert forall|i: int| 0 <= i < n && #[trigger] chosen_s(v, i, start, end) implies c.contains(
            v[i],
        ) by {
            if i < m {
                let j = choose|j: int| 0 <= j < a.len() && a[j] == v[i];
                assert(c[j] == v[i]);
            } else {
                assert(c[c.len() - 1] == v[i]);
            }
        }
        assert forall|j: int| 0 <= j < c.len() implies exists|i: int|
            0 <= i < n && #[trigger] chosen_s(v, i, start, end) && v[i] == #[trigger] c[j] by {
            if j < a.len() {
                let i = choose|i: int|
                    0 <= i < m && #[trigger] chosen_s(v, i, start, end) && v[i] == a[j];
                assert(c[j] == a[j]);
                assert(chosen_s(v, i, start, end));
            } else {
                assert(chosen_s(v, m as int, start, end));
            }
        }
    }
}

pub(crate) proof fn lemma_len_grows(v: Seq<RunV>, n: nat, m: nat)
    requires
        n <= m <= v.len(),
    ensures
        import::runs_len_s(v, n) <= import::runs_len_s(v, m),
    decreases m - n,
{
    if n < m {
        lemma_len_grows(v, n, (m - 1) as nat);
    }
}

/// The run of a character.
proof fn lemma_run_of(v: Seq<RunV>, k: int, n: nat) -> (i: int)
    requires
        n <= v.len(),
        0 <= k < import::runs_len_s(v, n),
    ensures
        stands_in_s(v, i, k),
    decreases n,
{
    if k < import::runs_len_s(v, (n - 1) as nat) {
        lemma_run_of(v, k, (n - 1) as nat)
    } else {
        n - 1
    }
}

/// A run is in a selection where one of its characters is.
proof fn lemma_reached(v: Seq<RunV>, start: usize, end: usize, i: int)
    requires
        start < end,
        import::runs_len_s(v, v.len()) <= usize::MAX,
        0 <= i < v.len(),
        v[i].text.len() > 0,
    ensures
        chosen_s(v, i, start, end) ==> exists|k: int| start <= k < end && #[trigger] stands_in_s(v, i, k),
        (exists|k: int| start <= k < end && #[trigger] stands_in_s(v, i, k)) ==> chosen_s(v, i, start, end),
{
    lemma_len_grows(v, i as nat, v.len());
    lemma_len_grows(v, (i + 1) as nat, v.len());
    let a = import::runs_len_s(v, i as nat) as int;
    if chosen_s(v, i, start, end) {
        let k = if a < start {
            start as int
        } else {
            a
        };
        assert(stands_in_s(v, i, k));
    }
}

proof fn lemma_agreed<T>(v: Seq<RunV>, start: usize, end: usize, f: spec_fn(RunV) -> T, w: Seq<T>)
    requires
        start < end,
        start < import::runs_len_s(v, v.len()) <= usize::MAX,
        forall|i: int| 0 <= i < v.len() ==> (#[trigger] v[i]).text.len() > 0,
        ({
            let c = formatting::covered_s(v, start, end);
            w.len() == c.len() && forall|i: int| 0 <= i < w.len() ==> #[trigger] w[i] == f(c[i])
        }),
    ensures
        says_s(v, start as int, end as int, f, formatting::agreed_s(w)),
        w.len() > 0,
        formatting::agreed_s(w) is None ==> forall|t: T|
            !#[trigger] all_have_s(v, start as int, end as int, f, t),
{
    let n = v.len();
    lemma_chosen(v, start, end, n);
    let c = formatting::selected_runs_s(v, start, end, n);
    let first = lemma_run_of(v, start as int, n);
    lemma_reached(v, start, end, first);
    assert(c.contains(v[first]));
    let o = formatting::agreed_s(w);
    assert forall|t: T| (o == Some(t)) == #[trigger] all_have_s(v, start as int, end as int, f, t) by {
        if o == Some(t) {
            assert forall|i: int, k: int| start <= k < end && #[trigger] stands_in_s(v, i, k) implies f(
                v[i],
            ) == t by {
                lemma_reached(v, start, end, i);
                assert(c.contains(v[i]));
                let j = choose|j: int| 0 <= j < c.len() && c[j] == v[i];
                assert(w[j] == f(c[j]));
                assert(w[j] == w[0]);
            }
        }
        if all_have_s(v, start as int, end as int, f, t) {
            assert forall|j: int| 0 <= j < w.len() implies #[trigger] w[j] == t by {
                assert(w[j] == f(c[j]));
                let i = choose|i: int|
                    0 <= i < n && #[trigger] chosen_s(v, i, start, end) && v[i] == c[j];
                lemma_reached(v, start, end, i);
                let k = choose|k: int| start <= k < end && #[trigger] stands_in_s(v, i, k);
                assert(stands_in_s(v, i, k));
            }
            assert(w[0] == t);
        }
    }
}

proof fn lemma_agreed_text(
    v: Seq<RunV>,
    start: usize,
    end: usize,
    f: spec_fn(RunV) -> Option<Seq<char>>,
    w: Seq<Option<Seq<char>>>,
)
    requires
        start < end,
        start < import::runs_len_s(v, v.len()) <= usize::MAX,
        forall|i: int| 0 <= i < v.len() ==> (#[trigger] v[i]).text.len() > 0,
        ({
            let c = formatting::covered_s(v, start, end);
            w.len() == c.len() && forall|i: int| 0 <= i < w.len() ==> #[trigger] w[i] == f(c[i])
        }),
    ensures
        says_text_s(v, start as int, end as int, f, formatting::agreed_text_s(w)),
{
    lemma_agreed(v, start, end, f, w);
    let o = formatting::agreed_text_s(w);
    assert forall|t: Seq<char>|
        (o == Some(t)) == #[trigger] all_have_s(v, start as int, end as int, f, Some(t)) by {
        assert((formatting::agreed_s(w) == Some(Some(t))) == all_have_s(
            v,
            start as int,
            end as int,
            f,
            Some(t),
        ));
    }
}

/// The formatting of a selection is what its characters agree on: whether they are bold, italic,
/// underlined and struck through, their size and font, their own or that of the style, and their
/// colour, highlight and vertical place. Of what they do not agree on it says nothing.
pub proof fn law_selection_says_what_its_characters_agree_on(
    v: Seq<RunV>,
    base: StylePropsV,
    start: usize,
    end: usize,
)
    requires
        start < end,
        start < import::runs_len_s(v, v.len()) <= usize::MAX,
        forall|i: int| 0 <= i < v.len() ==> (#[trigger] v[i]).text.len() > 0,
    ensures
        ({
            let s = formatting::selection_s(v, base, start, end);
            let a = start as int;
            let b = end as int;
            &&& says_s(v, a, b, |r: RunV| r.bold, s.bold)
            &&& says_s(v, a, b, |r: RunV| r.italic, s.italic)
            &&& says_s(v, a, b, |r: RunV| r.underline, s.underline)
            &&& says_s(v, a, b, |r: RunV| r.strike, s.strike)
            &&& says_s(v, a, b, |r: RunV| own_or_s(r.size, base.size, 22u16), s.size)
            &&& says_s(v, a, b, |r: RunV| own_or_s(r.font, base.font, "Calibri"@), s.font)
            &&& says_text_s(v, a, b, |r: RunV| r.color, s.color)
            &&& says_text_s(v, a, b, |r: RunV| r.highlight, s.highlight)
            &&& says_text_s(v, a, b, |r: RunV| r.vert_align, s.vert_align)
        }),
{
    let c = formatting::covered_s(v, start, end);
    lemma_agreed(v, start, end, |r: RunV| r.bold, Seq::new(c.len(), |i: int| c[i].bold));
    lemma_agreed(v, start, end, |r: RunV| r.italic, Seq::new(c.len(), |i: int| c[i].italic));
    lemma_agreed(v, start, end, |r: RunV| r.underline, Seq::new(c.len(), |i: int| c[i].underline));
    lemma_agreed(v, start, end, |r: RunV| r.strike, Seq::new(c.len(), |i: int| c[i].strike));
    lemma_agreed(
        v,
        start,
        end,
        |r: RunV| own_or_s(r.size, base.size, 22u16),
        Seq::new(c.len(), |i: int| formatting::size_s(c[i], base)),
    );
    lemma_agreed(
        v,
        start,
        end,
        |r: RunV| own_or_s(r.font, base.font, "Calibri"@),
        Seq::new(c.len(), |i: int| formatting::font_s(c[i], base)),
    );
    lemma_agreed_text(v, start, end, |r: RunV| r.color, Seq::new(c.len(), |i: int| c[i].color));
    lemma_agreed_text(v, start, end, |r: RunV| r.highlight, Seq::new(c.len(), |i: int| c[i].highlight));
    lemma_agreed_text(v, start, end, |r: RunV| r.vert_align, Seq::new(c.len(), |i: int| c[i].vert_align));
}

/// The value of its own, else the inherited one, else `last`.
pub open spec fn own_or_s<T>(own: Option<T>, base: Option<T>, last: T) -> T {
    match own {
        Some(x) => x,
        None => match base {
            Some(x) => x,
            None => last,
        },
    }
}

/// The formatting at a caret is that of the character before it.
pub proof fn law_caret_takes_after_the_character_before_it(
    v: Seq<RunV>,
    base: StylePropsV,
    at: usize,
    i: int,
)
    requires
        import::runs_len_s(v, v.len()) <= usize::MAX,
        stands_in_s(v, i, at - 1),
    ensures
        ({
            let s = formatting::selection_s(v, base, at, at);
            &&& s.bold == Some(v[i].bold)
            &&& s.italic == Some(v[i].italic)
            &&& s.underline == Some(v[i].underline)
            &&& s.strike == Some(v[i].strike)
            &&& s.size == Some(own_or_s(v[i].size, base.size, 22u16))
            &&& s.font == Some(own_or_s(v[i].font, base.font, "Calibri"@))
            &&& s.color == v[i].color
            &&& s.highlight == v[i].highlight
            &&& s.vert_align == v[i].vert_align
        }),
{
    lemma_one_chosen(v, at, i, v.len());
    let c = formatting::covered_s(v, at, at);
    assert(c == seq![v[i]]);
}

proof fn lemma_one_chosen(v: Seq<RunV>, at: usize, i: int, n: nat)
    requires
        n <= v.len(),
        import::runs_len_s(v, v.len()) <= usize::MAX,
        stands_in_s(v, i, at - 1),
    ensures
        formatting::selected_runs_s(v, at, at, n) == (if i < n {
            seq![v[i]]
        } else {
            Seq::empty()
        }),
    decreases n,
{
    if n > 0 {
        let m = n - 1;
        lemma_one_chosen(v, at, i, m as nat);
        lemma_len_grows(v, m as nat, v.len());
        lemma_len_grows(v, n, v.len());
        if m < i {
            lemma_len_grows(v, n, i as nat);
        } else if m > i {
            lemma_len_grows(v, (i + 1) as nat, m as nat);
        }
        assert(Seq::<RunV>::empty().push(v[i]) =~= seq![v[i]]);
    }
}

} // verus!
