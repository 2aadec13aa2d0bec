//! What a formatting command does to the characters in its range.

use vstd::prelude::*;
use crate::doc;
use crate::doc::DocV;
use crate::edits;
use crate::edits::TextOpV;
use crate::formatting;
use crate::formatting::RunFormatV;
use crate::read;
use crate::reverting;
use crate::reverting::whole_s;
use crate::revisions;
use crate::runback;
use crate::store;
use crate::store::{BlockId, CharV, ScalarV};
use crate::types::RunV;

verus! {

/// The new value where there is one, else the old.
pub open spec fn set_s<T>(new: Option<T>, old: T) -> T {
    match new {
        Some(x) => x,
        None => old,
    }
}

/// The new text where there is one, else the old.
pub open spec fn put_s<T>(new: Option<T>, old: Option<T>) -> Option<T> {
    match new {
        Some(x) => Some(x),
        None => old,
    }
}

/// The new text where there is one, else the old; an empty text takes it away.
pub open spec fn put_or_take_s(new: Option<Seq<char>>, old: Option<Seq<char>>) -> Option<Seq<char>> {
    match new {
        Some(x) => if x.len() == 0 {
            None
        } else {
            Some(x)
        },
        None => old,
    }
}

/// Whether a run that was `was` is now `now`, with what a command asks for and the rest of its
/// formatting as it was.
pub open spec fn shown_s(was: RunV, now: RunV, f: RunFormatV) -> bool {
    &&& now.bold == set_s(f.bold, was.bold)
    &&& now.italic == set_s(f.italic, was.italic)
    &&& now.underline == set_s(f.underline, was.underline)
    &&& now.strike == set_s(f.strike, was.strike)
    &&& now.size == put_s(f.size, was.size)
    &&& now.color == put_s(f.color, was.color)
    &&& now.font == put_s(f.font, was.font)
    &&& now.highlight == put_or_take_s(f.highlight, was.highlight)
    &&& now.vert_align == put_or_take_s(f.vert_align, was.vert_align)
    &&& now.lang == was.lang
}

/// Whether a character that was `a` is now `b`, with what a command asks for and all else as it was.
pub open spec fn formatted_s(a: CharV, b: CharV, f: RunFormatV) -> bool {
    let was = runback::read_s(a);
    let now = runback::read_s(b);
    &&& shown_s(was, now, f)
    &&& now.track == was.track
    &&& now.fmt_change == was.fmt_change
    &&& reverting::akin_s(b, a)
}

/// Whether an edit is over `from..to` and of one attribute, where there is one.
spec fn of_key_s(o: Option<TextOpV>, a: int, b: int, k: Seq<char>) -> bool {
    match o {
        Some(TextOpV::Put { from, to, key, value }) => from == a && to == b && key == k,
        Some(TextOpV::Clear { from, to, key }) => from == a && to == b && key == k,
        Some(TextOpV::Cut { from, to }) => false,
        None => true,
    }
}

/// What an attribute is after an edit of it.
spec fn value_s(o: Option<TextOpV>, old: Option<ScalarV>) -> Option<ScalarV> {
    match o {
        Some(TextOpV::Put { from, to, key, value }) => Some(value),
        Some(TextOpV::Clear { from, to, key }) => None,
        _ => old,
    }
}

proof fn lemma_step(c: CharV, i: int, v: Seq<TextOpV>, o: Option<TextOpV>, a: int, b: int, k: Seq<char>)
    requires
        of_key_s(o, a, b, k),
        a <= i < b,
    ensures
        ({
            let x = whole_s(c, i, v).attrs;
            let y = whole_s(c, i, formatting::with_op_s(v, o)).attrs;
            &&& store::prop_s(y, k) == value_s(o, store::prop_s(x, k))
            &&& forall|q: Seq<char>| q != k ==> #[trigger] store::prop_s(y, q) == store::prop_s(x, q)
        }),
{
    match o {
        Some(op) => {
            reverting::lemma_whole_push(c, i, v, op);
        },
        None => {},
    }
}

#[verifier::rlimit(40)]
proof fn lemma_char(c: CharV, i: int, from: usize, to: usize, f: RunFormatV)
    requires
        from <= i < to,
    ensures
        formatted_s(c, whole_s(c, i, formatting::format_ops_s(from, to, f)), f),
{
    reverting::lemma_codes();
    reverting::lemma_format_ops(from, to, f);
    let ops = formatting::format_ops_s(from, to, f);
    reverting::lemma_formatted(c, i, ops, from as int, to as int);
    let d = whole_s(c, i, ops);
    reverting::lemma_akin(d, c);
    let (a, b) = (from as int, to as int);
    let v0 = Seq::<TextOpV>::empty();
    assert(whole_s(c, i, v0) == c);
    let o1 = formatting::toggle_op_s(from, to, "b"@, f.bold);
    let o2 = formatting::toggle_op_s(from, to, "i"@, f.italic);
    let o3 = formatting::toggle_op_s(from, to, "u"@, f.underline);
    let o4 = formatting::toggle_op_s(from, to, "strike"@, f.strike);
    let o5 = formatting::size_op_s(from, to, f.size);
    let o6 = formatting::text_op_s(from, to, "color"@, f.color);
    let o7 = formatting::text_op_s(from, to, "font"@, f.font);
    let o8 = formatting::clearing_op_s(from, to, "hl"@, f.highlight);
    let o9 = formatting::clearing_op_s(from, to, "va"@, f.vert_align);
    lemma_step(c, i, v0, o1, a, b, "b"@);
    let v1 = formatting::with_op_s(v0, o1);
    lemma_step(c, i, v1, o2, a, b, "i"@);
    let v2 = formatting::with_op_s(v1, o2);
    lemma_step(c, i, v2, o3, a, b, "u"@);
    let v3 = formatting::with_op_s(v2, o3);
    lemma_step(c, i, v3, o4, a, b, "strike"@);
    let v4 = formatting::with_op_s(v3, o4);
    lemma_step(c, i, v4, o5, a, b, "sz"@);
    let v5 = formatting::with_op_s(v4, o5);
    lemma_step(c, i, v5, o6, a, b, "color"@);
    let v6 = formatting::with_op_s(v5, o6);
    lemma_step(c, i, v6, o7, a, b, "font"@);
    let v7 = formatting::with_op_s(v6, o7);
    lemma_step(c, i, v7, o8, a, b, "hl"@);
    let v8 = formatting::with_op_s(v7, o8);
    lemma_step(c, i, v8, o9, a, b, "va"@);
    let x = c.attrs;
    let y = d.attrs;
    assert(store::prop_s(y, "b"@) == value_s(o1, store::prop_s(x, "b"@)));
    assert(store::prop_s(y, "i"@) == value_s(o2, store::prop_s(x, "i"@)));
    assert(store::prop_s(y, "u"@) == value_s(o3, store::prop_s(x, "u"@)));
    assert(store::prop_s(y, "strike"@) == value_s(o4, store::prop_s(x, "strike"@)));
    assert(store::prop_s(y, "sz"@) == value_s(o5, store::prop_s(x, "sz"@)));
    assert(store::prop_s(y, "color"@) == value_s(o6, store::prop_s(x, "color"@)));
    assert(store::prop_s(y, "font"@) == value_s(o7, store::prop_s(x, "font"@)));
    assert(store::prop_s(y, "hl"@) == value_s(o8, store::prop_s(x, "hl"@)));
    assert(store::prop_s(y, "va"@) == value_s(o9, store::prop_s(x, "va"@)));
    assert(store::prop_s(y, "lang"@) == store::prop_s(x, "lang"@));
}

/// A formatting command gives each character of its range what it asks for: bold, italic, underline
/// and strike on or off, the size, colour and font, and the highlight and vertical place, which an
/// empty text takes away. What it does not ask for, and the characters outside, are as they were.
pub proof fn law_formatting_shows_on_its_range(
    d: DocV,
    b: BlockId,
    start: usize,
    end: usize,
    f: RunFormatV,
    e: DocV,
)
    requires
        edits::text_edited_s(d, b, formatting::format_ops_s(start, end, f), e),
    ensures
        doc::text_s(e, b).len() == doc::text_s(d, b).len(),
        forall|i: int|
            0 <= i < doc::text_s(d, b).len() ==> if start <= i < end {
                formatted_s(doc::text_s(d, b)[i], #[trigger] doc::text_s(e, b)[i], f)
            } else {
                doc::text_s(e, b)[i] == doc::text_s(d, b)[i]
            },
{
    let was = doc::text_s(d, b);
    let now = doc::text_s(e, b);
    let ops = formatting::format_ops_s(start, end, f);
    reverting::lemma_format_ops(start, end, f);
    assert forall|j: int| 0 <= j < ops.len() implies !((#[trigger] ops[j]) is Cut) by {
        assert(reverting::formatting_op_s(ops[j], start as int, end as int));
    }
    reverting::lemma_fold_len(was, ops, ops.len());
    assert forall|i: int| 0 <= i < was.len() implies (if start <= i < end {
        formatted_s(was[i], #[trigger] now[i], f)
    } else {
        now[i] == was[i]
    }) by {
        reverting::lemma_fold(was, ops, ops.len(), i);
        if start <= i < end {
            lemma_char(was[i], i, start, end, f);
        } else {
            reverting::lemma_formatted(was[i], i, ops, start as int, end as int);
        }
    }
}

proof fn lemma_record_key(
    v: Seq<RunV>,
    start: usize,
    end: usize,
    author: Seq<char>,
    date: Seq<char>,
    id: u64,
    n: nat,
)
    requires
        n <= v.len(),
    ensures
        forall|j: int, k: Seq<char>|
            0 <= j < revisions::record_ops_s(v, start, end, author, date, id, n).len() && k != "rfmt"@
                ==> !#[trigger] reverting::on_key_s(
                revisions::record_ops_s(v, start, end, author, date, id, n)[j],
                k,
            ),
    decreases n,
{
    if n > 0 {
        lemma_record_key(v, start, end, author, date, id, (n - 1) as nat);
        let a = revisions::record_ops_s(v, start, end, author, date, id, (n - 1) as nat);
        let r = revisions::record_ops_s(v, start, end, author, date, id, n);
        assert forall|j: int, k: Seq<char>|
            0 <= j < r.len() && k != "rfmt"@ implies !#[trigger] reverting::on_key_s(r[j], k) by {
            if j < a.len() {
                assert(r[j] == a[j]);
                assert(!reverting::on_key_s(a[j], k));
            }
        }
    }
}

/// Characters that differ in the record of a change alone show the same formatting.
proof fn lemma_same_look(c: CharV, d: CharV)
    requires
        forall|k: Seq<char>| k != "rfmt"@ ==> #[trigger] store::prop_s(d.attrs, k) == store::prop_s(
            c.attrs,
            k,
        ),
    ensures
        runback::read_s(c).props() == runback::read_s(d).props(),
{
    reverting::lemma_codes();
    assert(store::prop_s(d.attrs, "b"@) == store::prop_s(c.attrs, "b"@));
    assert(store::prop_s(d.attrs, "i"@) == store::prop_s(c.attrs, "i"@));
    assert(store::prop_s(d.attrs, "u"@) == store::prop_s(c.attrs, "u"@));
    assert(store::prop_s(d.attrs, "strike"@) == store::prop_s(c.attrs, "strike"@));
    assert(store::prop_s(d.attrs, "sz"@) == store::prop_s(c.attrs, "sz"@));
    assert(store::prop_s(d.attrs, "color"@) == store::prop_s(c.attrs, "color"@));
    assert(store::prop_s(d.attrs, "font"@) == store::prop_s(c.attrs, "font"@));
    assert(store::prop_s(d.attrs, "hl"@) == store::prop_s(c.attrs, "hl"@));
    assert(store::prop_s(d.attrs, "va"@) == store::prop_s(c.attrs, "va"@));
    assert(store::prop_s(d.attrs, "lang"@) == store::prop_s(c.attrs, "lang"@));
}

/// Suggested formatting shows at once: each character of the range has what is suggested, and the
/// characters outside look as they did.
pub proof fn law_suggested_formatting_shows(
    d: DocV,
    b: BlockId,
    start: usize,
    end: usize,
    f: RunFormatV,
    author: Seq<char>,
    date: Seq<char>,
    id: u64,
    e: DocV,
)
    requires
        edits::text_edited_s(
            d,
            b,
            reverting::suggestion_s(read::runs_of_s(d, b), start, end, f, author, date, id),
            e,
        ),
    ensures
        doc::text_s(e, b).len() == doc::text_s(d, b).len(),
        forall|i: int|
            0 <= i < doc::text_s(d, b).len() ==> if start <= i < end {
                shown_s(
                    runback::read_s(doc::text_s(d, b)[i]),
                    runback::read_s(#[trigger] doc::text_s(e, b)[i]),
                    f,
                )
            } else {
                runback::read_s(doc::text_s(e, b)[i]).props() == runback::read_s(
                    doc::text_s(d, b)[i],
                ).props()
            },
{
    let was = doc::text_s(d, b);
    let now = doc::text_s(e, b);
    let rs = read::runs_of_s(d, b);
    let x = formatting::format_ops_s(start, end, f);
    let y = revisions::record_ops_s(rs, start, end, author, date, id, rs.len());
    let ops = x + y;
    reverting::lemma_format_ops(start, end, f);
    reverting::lemma_record_shape(rs, start, end, author, date, id, rs.len());
    lemma_record_key(rs, start, end, author, date, id, rs.len());
    assert forall|j: int| 0 <= j < ops.len() implies !((#[trigger] ops[j]) is Cut) by {
        if j < x.len() {
            assert(reverting::formatting_op_s(x[j], start as int, end as int));
        } else {
            assert(ops[j] == y[j - x.len()]);
        }
    }
    reverting::lemma_fold_len(was, ops, ops.len());
    assert forall|i: int| 0 <= i < was.len() implies (if start <= i < end {
        shown_s(runback::read_s(was[i]), runback::read_s(#[trigger] now[i]), f)
    } else {
        runback::read_s(now[i]).props() == runback::read_s(was[i]).props()
    }) by {
        reverting::lemma_fold(was, ops, ops.len(), i);
        reverting::lemma_whole_sum(was[i], i, x, y);
        let m = whole_s(was[i], i, x);
        assert forall|k: Seq<char>| k != "rfmt"@ implies #[trigger] store::prop_s(now[i].attrs, k)
            == store::prop_s(m.attrs, k) by {
            reverting::lemma_fold_other(m, i, y, y.len(), k);
        }
        lemma_same_look(m, now[i]);
        if start <= i < end {
            lemma_char(was[i], i, start, end, f);
        } else {
            reverting::lemma_formatted(was[i], i, x, start as int, end as int);
        }
    }
}

/// Whether a character has no formatting of its own.
pub open spec fn bare_s(r: RunV) -> bool {
    &&& !r.bold && !r.italic && !r.underline && !r.strike
    &&& r.size is None && r.color is None && r.font is None
    &&& r.highlight is None && r.vert_align is None
    &&& r.char_style is None && r.shading is None
}

proof fn lemma_bared(c: CharV, i: int, from: usize, to: usize)
    ensures
        ({
            let d = whole_s(c, i, formatting::clear_ops_s(from, to));
            &&& from <= i < to ==> bare_s(runback::read_s(d)) && d.attrs == c.attrs.remove("b"@).remove(
                "i"@,
            ).remove("u"@).remove("strike"@).remove("sz"@).remove("color"@).remove("font"@).remove(
                "hl"@,
            ).remove("va"@).remove("rstyle"@).remove("rshd"@) && d.c == c.c
            &&& !(from <= i < to) ==> d == c
        }),
{
    reveal_with_fuel(reverting::fold_s, 12);
    assert(formatting::clear_ops_s(from, to).len() == 11);
}

/// Clearing formatting leaves each character of the range without any of its own, and the characters
/// outside as they were.
pub proof fn law_cleared_formatting_is_gone(d: DocV, b: BlockId, start: usize, end: usize, e: DocV)
    requires
        edits::text_edited_s(d, b, formatting::clear_ops_s(start, end), e),
    ensures
        doc::text_s(e, b).len() == doc::text_s(d, b).len(),
        forall|i: int|
            0 <= i < doc::text_s(d, b).len() ==> if start <= i < end {
                bare_s(runback::read_s(#[trigger] doc::text_s(e, b)[i])) && doc::text_s(e, b)[i].c
                    == doc::text_s(d, b)[i].c
            } else {
                doc::text_s(e, b)[i] == doc::text_s(d, b)[i]
            },
{
    let was = doc::text_s(d, b);
    let now = doc::text_s(e, b);
    let ops = formatting::clear_ops_s(start, end);
    assert(reverting::uncut_s(ops));
    reverting::lemma_fold_len(was, ops, ops.len());
    assert forall|i: int| 0 <= i < was.len() implies (if start <= i < end {
        bare_s(runback::read_s(#[trigger] now[i])) && now[i].c == was[i].c
    } else {
        now[i] == was[i]
    }) by {
        reverting::lemma_fold(was, ops, ops.len(), i);
        lemma_bared(was[i], i, start, end);
    }
}

} // verus!
