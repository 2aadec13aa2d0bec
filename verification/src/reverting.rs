//! Rejecting suggested formatting restores the formatting that was, and accepting it keeps it.

use vstd::prelude::*;
use crate::doc;
use crate::doc::DocV;
use crate::edits;
use crate::edits::TextOpV;
use crate::formatting;
use crate::formatting::RunFormatV;
use crate::import;
use crate::read;
use crate::resolving;
use crate::revisions;
use crate::runback;
use crate::runs;
use crate::sequence;
use crate::store;
use crate::store::{BlockId, CharV, PropsV, ScalarV, SegV};
use crate::types::{FormatChangeV, ParagraphV, RunPropsV, RunV};
use crate::writing;

verus! {

// ---------------------------------------------------------------- edits of one character

/// The character at `i` after an edit that removes nothing.
pub open spec fn at_s(c: CharV, i: int, op: TextOpV) -> CharV {
    match op {
        TextOpV::Put { from, to, key, value } => if from <= i < to {
            CharV { attrs: c.attrs.insert(key, value), ..c }
        } else {
            c
        },
        TextOpV::Clear { from, to, key } => if from <= i < to {
            CharV { attrs: c.attrs.remove(key), ..c }
        } else {
            c
        },
        TextOpV::Cut { from, to } => c,
    }
}

pub open spec fn fold_s(c: CharV, i: int, ops: Seq<TextOpV>, n: nat) -> CharV
    decreases n,
{
    if n == 0 {
        c
    } else {
        at_s(fold_s(c, i, ops, (n - 1) as nat), i, ops[n - 1])
    }
}

pub open spec fn whole_s(c: CharV, i: int, ops: Seq<TextOpV>) -> CharV {
    fold_s(c, i, ops, ops.len())
}

pub open spec fn uncut_s(ops: Seq<TextOpV>) -> bool {
    forall|j: int| 0 <= j < ops.len() ==> !((#[trigger] ops[j]) is Cut)
}

/// Edits that remove nothing act on each character by itself.
pub(crate) proof fn lemma_fold(t: Seq<CharV>, ops: Seq<TextOpV>, n: nat, i: int)
    requires
        uncut_s(ops),
        n <= ops.len(),
        0 <= i < t.len(),
    ensures
        edits::ops_s(t, ops, n).len() == t.len(),
        edits::ops_s(t, ops, n)[i] == fold_s(t[i], i, ops, n),
    decreases n,
{
    if n > 0 {
        lemma_fold(t, ops, (n - 1) as nat, i);
        assert(!(ops[n - 1] is Cut));
    }
}

pub(crate) proof fn lemma_fold_len(t: Seq<CharV>, ops: Seq<TextOpV>, n: nat)
    requires
        uncut_s(ops),
        n <= ops.len(),
    ensures
        edits::ops_s(t, ops, n).len() == t.len(),
    decreases n,
{
    if n > 0 {
        lemma_fold_len(t, ops, (n - 1) as nat);
        assert(!(ops[n - 1] is Cut));
    }
}

proof fn lemma_fold_prefix(c: CharV, i: int, a: Seq<TextOpV>, b: Seq<TextOpV>, n: nat)
    requires
        n <= a.len(),
        n <= b.len(),
        forall|j: int| 0 <= j < n ==> a[j] == b[j],
    ensures
        fold_s(c, i, a, n) == fold_s(c, i, b, n),
    decreases n,
{
    if n > 0 {
        lemma_fold_prefix(c, i, a, b, (n - 1) as nat);
    }
}

proof fn lemma_fold_sum(c: CharV, i: int, a: Seq<TextOpV>, b: Seq<TextOpV>, n: nat)
    requires
        n <= b.len(),
    ensures
        fold_s(c, i, a + b, a.len() + n) == fold_s(whole_s(c, i, a), i, b, n),
    decreases n,
{
    if n == 0 {
        lemma_fold_prefix(c, i, a + b, a, a.len());
    } else {
        lemma_fold_sum(c, i, a, b, (n - 1) as nat);
        assert((a + b)[a.len() + n - 1] == b[n - 1]);
    }
}

pub(crate) proof fn lemma_whole_sum(c: CharV, i: int, a: Seq<TextOpV>, b: Seq<TextOpV>)
    ensures
        whole_s(c, i, a + b) == whole_s(whole_s(c, i, a), i, b),
{
    lemma_fold_sum(c, i, a, b, b.len());
}

pub(crate) proof fn lemma_whole_push(c: CharV, i: int, a: Seq<TextOpV>, op: TextOpV)
    ensures
        whole_s(c, i, a.push(op)) == at_s(whole_s(c, i, a), i, op),
{
    lemma_fold_prefix(c, i, a.push(op), a, a.len());
}

/// Whether an edit is of one attribute.
pub open spec fn on_key_s(op: TextOpV, k: Seq<char>) -> bool {
    match op {
        TextOpV::Put { from, to, key, value } => key == k,
        TextOpV::Clear { from, to, key } => key == k,
        TextOpV::Cut { from, to } => true,
    }
}

spec fn over_s(op: TextOpV, i: int) -> bool {
    match op {
        TextOpV::Put { from, to, key, value } => from <= i < to,
        TextOpV::Clear { from, to, key } => from <= i < to,
        TextOpV::Cut { from, to } => true,
    }
}

/// An attribute that no edit is of stays; the character itself always does.
pub(crate) proof fn lemma_fold_other(c: CharV, i: int, ops: Seq<TextOpV>, n: nat, k: Seq<char>)
    requires
        n <= ops.len(),
        forall|j: int| 0 <= j < n ==> !on_key_s(#[trigger] ops[j], k),
    ensures
        store::prop_s(fold_s(c, i, ops, n).attrs, k) == store::prop_s(c.attrs, k),
        fold_s(c, i, ops, n).c == c.c,
    decreases n,
{
    if n > 0 {
        lemma_fold_other(c, i, ops, (n - 1) as nat, k);
        assert(!on_key_s(ops[n - 1], k));
    }
}

proof fn lemma_fold_outside(c: CharV, i: int, ops: Seq<TextOpV>, n: nat)
    requires
        n <= ops.len(),
        forall|j: int| 0 <= j < n ==> !over_s(#[trigger] ops[j], i),
    ensures
        fold_s(c, i, ops, n) == c,
    decreases n,
{
    if n > 0 {
        lemma_fold_outside(c, i, ops, (n - 1) as nat);
        assert(!over_s(ops[n - 1], i));
    }
}

// ---------------------------------------------------------------- names of attributes

pub open spec fn code_s(k: Seq<char>) -> int {
    k[0] as int + 256 * (k[k.len() - 1] as int) + 65536 * k.len()
}

/// Whether an attribute is one that formatting sets.
pub open spec fn formats_s(k: Seq<char>) -> bool {
    k == "b"@ || k == "i"@ || k == "u"@ || k == "strike"@ || k == "sz"@ || k == "color"@ || k
        == "font"@ || k == "hl"@ || k == "va"@ || k == "lang"@
}

pub(crate) proof fn lemma_codes()
    ensures
        code_s("b"@) == 90722,
        code_s("i"@) == 92521,
        code_s("u"@) == 95605,
        code_s("strike"@) == 419187,
        code_s("sz"@) == 162419,
        code_s("color"@) == 356963,
        code_s("font"@) == 291942,
        code_s("hl"@) == 158824,
        code_s("va"@) == 156022,
        code_s("lang"@) == 288620,
        code_s("rfmt"@) == 291954,
        code_s("ins"@) == 226153,
        code_s("del"@) == 224356,
        code_s("mvf"@) == 222829,
        code_s("mvt"@) == 226413,
{
    reveal_strlit("b");
    reveal_strlit("i");
    reveal_strlit("u");
    reveal_strlit("strike");
    reveal_strlit("sz");
    reveal_strlit("color");
    reveal_strlit("font");
    reveal_strlit("hl");
    reveal_strlit("va");
    reveal_strlit("lang");
    reveal_strlit("rfmt");
    reveal_strlit("ins");
    reveal_strlit("del");
    reveal_strlit("mvf");
    reveal_strlit("mvt");
    assert("b"@.len() == 1 && "i"@.len() == 1 && "u"@.len() == 1 && "strike"@.len() == 6);
    assert("sz"@.len() == 2 && "color"@.len() == 5 && "font"@.len() == 4 && "hl"@.len() == 2);
    assert("va"@.len() == 2 && "lang"@.len() == 4 && "rfmt"@.len() == 4);
    assert("ins"@.len() == 3 && "del"@.len() == 3 && "mvf"@.len() == 3 && "mvt"@.len() == 3);
    assert("strike"@[0] == 's' && "strike"@[5] == 'e');
    assert("sz"@[0] == 's' && "sz"@[1] == 'z');
    assert("color"@[0] == 'c' && "color"@[4] == 'r');
    assert("font"@[0] == 'f' && "font"@[3] == 't');
    assert("hl"@[0] == 'h' && "hl"@[1] == 'l');
    assert("va"@[0] == 'v' && "va"@[1] == 'a');
    assert("lang"@[0] == 'l' && "lang"@[3] == 'g');
    assert("rfmt"@[0] == 'r' && "rfmt"@[3] == 't');
    assert("ins"@[0] == 'i' && "ins"@[2] == 's');
    assert("del"@[0] == 'd' && "del"@[2] == 'l');
    assert("mvf"@[0] == 'm' && "mvf"@[2] == 'f');
    assert("mvt"@[0] == 'm' && "mvt"@[2] == 't');
}

// ---------------------------------------------------------------- what formatting does

/// Whether edits set or clear formatting alone, and only over `from..to`.
pub open spec fn formatting_s(ops: Seq<TextOpV>, from: int, to: int) -> bool {
    forall|j: int| 0 <= j < ops.len() ==> formatting_op_s(#[trigger] ops[j], from, to)
}

pub open spec fn formatting_op_s(op: TextOpV, a: int, b: int) -> bool {
    match op {
        TextOpV::Put { from, to, key, value } => formats_s(key) && from == a && to == b,
        TextOpV::Clear { from, to, key } => formats_s(key) && from == a && to == b,
        TextOpV::Cut { from, to } => false,
    }
}

proof fn lemma_with_op(v: Seq<TextOpV>, o: Option<TextOpV>, from: int, to: int)
    requires
        formatting_s(v, from, to),
        o matches Some(x) ==> formatting_op_s(x, from, to),
    ensures
        formatting_s(formatting::with_op_s(v, o), from, to),
{
}

pub(crate) proof fn lemma_format_ops(from: usize, to: usize, f: RunFormatV)
    ensures
        formatting_s(formatting::format_ops_s(from, to, f), from as int, to as int),
{
    let (a, b) = (from as int, to as int);
    let v = Seq::<TextOpV>::empty();
    let o = formatting::toggle_op_s(from, to, "b"@, f.bold);
    lemma_with_op(v, o, a, b);
    let v = formatting::with_op_s(v, o);
    let o = formatting::toggle_op_s(from, to, "i"@, f.italic);
    lemma_with_op(v, o, a, b);
    let v = formatting::with_op_s(v, o);
    let o = formatting::toggle_op_s(from, to, "u"@, f.underline);
    lemma_with_op(v, o, a, b);
    let v = formatting::with_op_s(v, o);
    let o = formatting::toggle_op_s(from, to, "strike"@, f.strike);
    lemma_with_op(v, o, a, b);
    let v = formatting::with_op_s(v, o);
    let o = formatting::size_op_s(from, to, f.size);
    lemma_with_op(v, o, a, b);
    let v = formatting::with_op_s(v, o);
    let o = formatting::text_op_s(from, to, "color"@, f.color);
    lemma_with_op(v, o, a, b);
    let v = formatting::with_op_s(v, o);
    let o = formatting::text_op_s(from, to, "font"@, f.font);
    lemma_with_op(v, o, a, b);
    let v = formatting::with_op_s(v, o);
    let o = formatting::clearing_op_s(from, to, "hl"@, f.highlight);
    lemma_with_op(v, o, a, b);
    let v = formatting::with_op_s(v, o);
    let o = formatting::clearing_op_s(from, to, "va"@, f.vert_align);
    lemma_with_op(v, o, a, b);
}

/// Whether two characters differ in nothing but their formatting.
pub open spec fn akin_s(c: CharV, d: CharV) -> bool {
    &&& c.c == d.c
    &&& forall|k: Seq<char>| !formats_s(k) ==> #[trigger] store::prop_s(c.attrs, k)
        == store::prop_s(d.attrs, k)
}

pub(crate) proof fn lemma_formatted(c: CharV, i: int, ops: Seq<TextOpV>, from: int, to: int)
    requires
        formatting_s(ops, from, to),
    ensures
        akin_s(whole_s(c, i, ops), c),
        !(from <= i < to) ==> whole_s(c, i, ops) == c,
{
    assert forall|k: Seq<char>| !formats_s(k) implies #[trigger] store::prop_s(
        whole_s(c, i, ops).attrs,
        k,
    ) == store::prop_s(c.attrs, k) by {
        assert forall|j: int| 0 <= j < ops.len() implies !on_key_s(#[trigger] ops[j], k) by {
            assert(formatting_op_s(ops[j], from, to));
        }
        lemma_fold_other(c, i, ops, ops.len(), k);
    }
    assert(whole_s(c, i, ops).c == c.c) by {
        lemma_codes();
        let k = "rfmt"@;
        assert forall|j: int| 0 <= j < ops.len() implies !on_key_s(#[trigger] ops[j], k) by {
            assert(formatting_op_s(ops[j], from, to));
        }
        lemma_fold_other(c, i, ops, ops.len(), k);
    }
    if !(from <= i < to) {
        assert forall|j: int| 0 <= j < ops.len() implies !over_s(#[trigger] ops[j], i) by {
            assert(formatting_op_s(ops[j], from, to));
        }
        lemma_fold_outside(c, i, ops, ops.len());
    }
}

/// Formatting leaves the revisions of a character alone.
pub(crate) proof fn lemma_akin(c: CharV, d: CharV)
    requires
        akin_s(c, d),
    ensures
        runback::read_s(c).track == runback::read_s(d).track,
        runback::read_s(c).fmt_change == runback::read_s(d).fmt_change,
{
    lemma_codes();
    assert(store::prop_s(c.attrs, "ins"@) == store::prop_s(d.attrs, "ins"@));
    assert(store::prop_s(c.attrs, "del"@) == store::prop_s(d.attrs, "del"@));
    assert(store::prop_s(c.attrs, "mvf"@) == store::prop_s(d.attrs, "mvf"@));
    assert(store::prop_s(c.attrs, "mvt"@) == store::prop_s(d.attrs, "mvt"@));
    assert(store::prop_s(c.attrs, "rfmt"@) == store::prop_s(d.attrs, "rfmt"@));
}

// ---------------------------------------------------------------- what is recorded

/// Whether a character is part of no revision yet.
pub open spec fn fresh_s(c: CharV) -> bool {
    runback::read_s(c).track is None && runback::read_s(c).fmt_change is None
}

/// The change that records the formatting of a character.
pub open spec fn change_s(c: CharV, author: Seq<char>, date: Seq<char>, id: u64) -> FormatChangeV {
    revisions::change_of_s(runback::read_s(c), author, date, id)
}

/// The character with a change recorded on it.
spec fn noted_s(c: CharV, x: FormatChangeV) -> CharV {
    CharV { attrs: c.attrs.insert("rfmt"@, ScalarV::Text(writing::fmt_value_s(x))), ..c }
}

proof fn lemma_record_prefix(
    v: Seq<RunV>,
    w: Seq<RunV>,
    start: usize,
    end: usize,
    author: Seq<char>,
    date: Seq<char>,
    id: u64,
    n: nat,
)
    requires
        n <= v.len(),
        n <= w.len(),
        forall|i: int| 0 <= i < n ==> v[i] == w[i],
    ensures
        revisions::record_ops_s(v, start, end, author, date, id, n) == revisions::record_ops_s(
            w,
            start,
            end,
            author,
            date,
            id,
            n,
        ),
        import::runs_len_s(v, n) == import::runs_len_s(w, n),
    decreases n,
{
    if n > 0 {
        lemma_record_prefix(v, w, start, end, author, date, id, (n - 1) as nat);
    }
}

pub(crate) proof fn lemma_runs_len(v: Seq<SegV>, n: nat)
    requires
        n <= v.len(),
    ensures
        import::runs_len_s(runs::runs_s(v, n), runs::runs_s(v, n).len()) == store::flat_s(
            v,
            n,
        ).len(),
    decreases n,
{
    if n > 0 {
        lemma_runs_len(v, (n - 1) as nat);
        let had = runs::runs_s(v, (n - 1) as nat);
        let s = v[n - 1];
        let before = store::flat_s(v, (n - 1) as nat);
        let tail = Seq::new(s.text.len(), |k: int| store::char_s(s.text[k], s.attrs));
        assert(store::flat_s(v, n) =~= before + tail);
        if s.text.len() > 0 {
            let now = had.push(runs::run_s(s));
            lemma_record_prefix(had, now, 0, 0, seq![], seq![], 0, had.len());
        }
    }
}

/// What recording does to the character at `i` of a rich text: a fresh one in the range is noted.
proof fn lemma_recorded(
    c: CharV,
    i: int,
    v: Seq<SegV>,
    n: nat,
    start: usize,
    end: usize,
    author: Seq<char>,
    date: Seq<char>,
    id: u64,
)
    requires
        n <= v.len(),
        store::flat_s(v, n).len() <= usize::MAX,
        0 <= i,
    ensures
        ({
            let rs = runs::runs_s(v, n);
            let t = store::flat_s(v, n);
            let r = whole_s(
                c,
                i,
                revisions::record_ops_s(rs, start, end, author, date, id, rs.len()),
            );
            if i < t.len() && start <= i < end && fresh_s(t[i]) {
                r == noted_s(c, change_s(t[i], author, date, id))
            } else {
                r == c
            }
        }),
    decreases n,
{
    if n > 0 {
        lemma_recorded(c, i, v, (n - 1) as nat, start, end, author, date, id);
        let s = v[n - 1];
        let before = store::flat_s(v, (n - 1) as nat);
        let t = store::flat_s(v, n);
        let tail = Seq::new(s.text.len(), |k: int| store::char_s(s.text[k], s.attrs));
        assert(t =~= before + tail);
        let had = runs::runs_s(v, (n - 1) as nat);
        if s.text.len() > 0 {
            let r = runs::run_s(s);
            let now = had.push(r);
            lemma_record_prefix(had, now, start, end, author, date, id, had.len());
            lemma_runs_len(v, (n - 1) as nat);
            lemma_runs_len(v, n);
            let ops = revisions::record_ops_s(had, start, end, author, date, id, had.len());
            let from = revisions::max_s(edits::offset_s(now, had.len()), start);
            let to = revisions::min_s(edits::offset_s(now, now.len()), end);
            let x = revisions::change_of_s(r, author, date, id);
            let op = revisions::fmt_op_s(from, to, x);
            lemma_whole_push(c, i, ops, op);
            if before.len() <= i < t.len() {
                lemma_of_run(s, s.text[i - before.len()], t[i], author, date, id);
            }
        }
    }
}

/// A character of a run has its revisions and its formatting.
proof fn lemma_of_run(s: SegV, x: char, c: CharV, author: Seq<char>, date: Seq<char>, id: u64)
    requires
        c == store::char_s(x, s.attrs),
    ensures
        runback::read_s(c).track == runs::run_s(s).track,
        runback::read_s(c).fmt_change == runs::run_s(s).fmt_change,
        change_s(c, author, date, id) == revisions::change_of_s(runs::run_s(s), author, date, id),
{
}

// ---------------------------------------------------------------- what a rejection does

spec fn flagged_s(m: PropsV, k: Seq<char>, on: bool) -> PropsV {
    if on {
        m.insert(k, ScalarV::Bool(true))
    } else {
        m.remove(k)
    }
}

spec fn texted_s(m: PropsV, k: Seq<char>, o: Option<Seq<char>>) -> PropsV {
    match o {
        Some(s) => m.insert(k, ScalarV::Text(s)),
        None => m.remove(k),
    }
}

spec fn sized_s(m: PropsV, o: Option<u16>) -> PropsV {
    match o {
        Some(n) => m.insert("sz"@, ScalarV::Int(n as i64)),
        None => m.remove("sz"@),
    }
}

/// The attributes with exactly this formatting.
spec fn exact_s(m: PropsV, p: RunPropsV) -> PropsV {
    let m = flagged_s(m, "b"@, p.bold);
    let m = flagged_s(m, "i"@, p.italic);
    let m = flagged_s(m, "u"@, p.underline);
    let m = flagged_s(m, "strike"@, p.strike);
    let m = sized_s(m, p.size);
    let m = texted_s(m, "color"@, p.color);
    let m = texted_s(m, "font"@, p.font);
    let m = texted_s(m, "hl"@, p.highlight);
    let m = texted_s(m, "va"@, p.vert_align);
    texted_s(m, "lang"@, p.lang)
}

/// The character with its formatting put back, and no record of a change.
spec fn put_back_s(c: CharV, p: RunPropsV) -> CharV {
    CharV { attrs: exact_s(c.attrs, p).remove("rfmt"@), ..c }
}

proof fn lemma_props_ops(c: CharV, i: int, from: usize, to: usize, p: RunPropsV)
    ensures
        whole_s(c, i, revisions::props_ops_s(from, to, p)) == (if from <= i < to {
            CharV { attrs: exact_s(c.attrs, p), ..c }
        } else {
            c
        }),
{
    let ops = revisions::props_ops_s(from, to, p);
    reveal_with_fuel(fold_s, 11);
    assert(ops.len() == 10);
    assert(ops[0] == revisions::flag_op_s(from, to, "b"@, p.bold));
    assert(ops[1] == revisions::flag_op_s(from, to, "i"@, p.italic));
    assert(ops[2] == revisions::flag_op_s(from, to, "u"@, p.underline));
    assert(ops[3] == revisions::flag_op_s(from, to, "strike"@, p.strike));
    assert(ops[4] == revisions::exact_size_s(from, to, p.size));
    assert(ops[5] == revisions::exact_op_s(from, to, "color"@, p.color));
    assert(ops[6] == revisions::exact_op_s(from, to, "font"@, p.font));
    assert(ops[7] == revisions::exact_op_s(from, to, "hl"@, p.highlight));
    assert(ops[8] == revisions::exact_op_s(from, to, "va"@, p.vert_align));
    assert(ops[9] == revisions::exact_op_s(from, to, "lang"@, p.lang));
}

/// Exactly this formatting reads back, and the other attributes are as they were.
proof fn lemma_exact(m: PropsV, p: RunPropsV, x: char)
    ensures
        runback::read_s(CharV { c: x, attrs: exact_s(m, p).remove("rfmt"@) }).props() == p,
        forall|k: Seq<char>|
            !formats_s(k) && k != "rfmt"@ ==> #[trigger] store::prop_s(
                exact_s(m, p).remove("rfmt"@),
                k,
            ) == store::prop_s(m, k),
{
    lemma_codes();
    let w = exact_s(m, p).remove("rfmt"@);
    assert(store::prop_s(w, "b"@) == (if p.bold {
        Some(ScalarV::Bool(true))
    } else {
        None
    }));
    assert(store::prop_s(w, "i"@) == (if p.italic {
        Some(ScalarV::Bool(true))
    } else {
        None
    }));
    assert(store::prop_s(w, "u"@) == (if p.underline {
        Some(ScalarV::Bool(true))
    } else {
        None
    }));
    assert(store::prop_s(w, "strike"@) == (if p.strike {
        Some(ScalarV::Bool(true))
    } else {
        None
    }));
    assert(runs::size_of_s(runs::int_prop_s(w, "sz"@)) == p.size);
    assert(runs::text_prop_s(w, "color"@) == p.color);
    assert(runs::text_prop_s(w, "font"@) == p.font);
    assert(runs::text_prop_s(w, "hl"@) == p.highlight);
    assert(runs::text_prop_s(w, "va"@) == p.vert_align);
    assert(runs::text_prop_s(w, "lang"@) == p.lang);
}

proof fn lemma_resolve_prefix(v: Seq<RunV>, w: Seq<RunV>, id: u64, accept: bool, n: nat)
    requires
        n <= v.len(),
        n <= w.len(),
        forall|i: int| 0 <= i < n ==> v[i] == w[i],
    ensures
        revisions::resolve_fmt_s(v, id, accept, n) == revisions::resolve_fmt_s(w, id, accept, n),
    decreases n,
{
    if n > 0 {
        lemma_resolve_prefix(v, w, id, accept, (n - 1) as nat);
        lemma_record_prefix(v, w, 0, 0, seq![], seq![], 0, n);
        lemma_record_prefix(v, w, 0, 0, seq![], seq![], 0, (n - 1) as nat);
    }
}

/// What a rejection does to the character at `i` of a rich text: one under the change has its
/// formatting put back.
proof fn lemma_rejected(c: CharV, i: int, v: Seq<SegV>, n: nat, id: u64)
    requires
        n <= v.len(),
        store::flat_s(v, n).len() <= usize::MAX,
        0 <= i,
    ensures
        ({
            let rs = runs::runs_s(v, n);
            let t = store::flat_s(v, n);
            let r = whole_s(c, i, revisions::resolve_fmt_s(rs, id, false, rs.len()));
            if i < t.len() && revisions::fmt_is_s(runback::read_s(t[i]), id) {
                r == put_back_s(c, runback::read_s(t[i]).fmt_change->0.old)
            } else {
                r == c
            }
        }),
    decreases n,
{
    if n > 0 {
        lemma_rejected(c, i, v, (n - 1) as nat, id);
        let s = v[n - 1];
        let before = store::flat_s(v, (n - 1) as nat);
        let t = store::flat_s(v, n);
        let tail = Seq::new(s.text.len(), |k: int| store::char_s(s.text[k], s.attrs));
        assert(t =~= before + tail);
        let had = runs::runs_s(v, (n - 1) as nat);
        if s.text.len() > 0 {
            let r = runs::run_s(s);
            let now = had.push(r);
            lemma_resolve_prefix(had, now, id, false, had.len());
            lemma_record_prefix(had, now, 0, 0, seq![], seq![], 0, had.len());
            lemma_runs_len(v, (n - 1) as nat);
            lemma_runs_len(v, n);
            let ops = revisions::resolve_fmt_s(had, id, false, had.len());
            let from = edits::offset_s(now, had.len());
            let to = edits::offset_s(now, now.len());
            if before.len() <= i < t.len() {
                lemma_of_run(s, s.text[i - before.len()], t[i], seq![], seq![], 0);
            }
            if revisions::fmt_is_s(r, id) {
                let old = r.fmt_change->0.old;
                let more = revisions::props_ops_s(from, to, old);
                let op = TextOpV::Clear { from, to, key: "rfmt"@ };
                lemma_whole_push(c, i, ops + more, op);
                lemma_whole_sum(c, i, ops, more);
                lemma_props_ops(whole_s(c, i, ops), i, from, to, old);
            }
        }
    }
}

proof fn lemma_resolve_shape(v: Seq<RunV>, id: u64, accept: bool, n: nat)
    requires
        n <= v.len(),
    ensures
        uncut_s(revisions::resolve_fmt_s(v, id, accept, n)),
        (exists|j: int| 0 <= j < n && revisions::fmt_is_s(#[trigger] v[j], id))
            ==> revisions::resolve_fmt_s(v, id, accept, n).len() > 0,
    decreases n,
{
    if n > 0 {
        lemma_resolve_shape(v, id, accept, (n - 1) as nat);
        let r = revisions::resolve_fmt_s(v, id, accept, (n - 1) as nat);
        if revisions::fmt_is_s(v[n - 1], id) {
            let from = edits::offset_s(v, (n - 1) as nat);
            let to = edits::offset_s(v, n);
            let more = revisions::props_ops_s(from, to, v[n - 1].fmt_change->0.old);
            assert(uncut_s(more));
            let all = r + more;
            assert forall|j: int| 0 <= j < all.len() implies !((#[trigger] all[j]) is Cut) by {
                if j >= r.len() {
                    assert(all[j] == more[j - r.len()]);
                }
            }
        }
    }
}

pub(crate) proof fn lemma_record_shape(
    v: Seq<RunV>,
    start: usize,
    end: usize,
    author: Seq<char>,
    date: Seq<char>,
    id: u64,
    n: nat,
)
    requires
        n <= v.len(),
    ensures
        uncut_s(revisions::record_ops_s(v, start, end, author, date, id, n)),
    decreases n,
{
    if n > 0 {
        lemma_record_shape(v, start, end, author, date, id, (n - 1) as nat);
    }
}

/// The run that a character is part of.
proof fn lemma_place(v: Seq<SegV>, n: nat, i: int) -> (j: int)
    requires
        n <= v.len(),
        0 <= i < store::flat_s(v, n).len(),
    ensures
        0 <= j < runs::runs_s(v, n).len(),
        import::runs_len_s(runs::runs_s(v, n), j as nat) <= i < import::runs_len_s(
            runs::runs_s(v, n),
            (j + 1) as nat,
        ),
        resolving::like_s(runs::runs_s(v, n)[j], store::flat_s(v, n)[i]),
        runs::runs_s(v, n)[j].props() == runback::read_s(store::flat_s(v, n)[i]).props(),
    decreases n,
{
    let s = v[n - 1];
    let before = store::flat_s(v, (n - 1) as nat);
    let t = store::flat_s(v, n);
    let tail = Seq::new(s.text.len(), |k: int| store::char_s(s.text[k], s.attrs));
    assert(t =~= before + tail);
    let had = runs::runs_s(v, (n - 1) as nat);
    let now = runs::runs_s(v, n);
    lemma_runs_len(v, (n - 1) as nat);
    lemma_runs_len(v, n);
    if i < before.len() {
        let j = lemma_place(v, (n - 1) as nat, i);
        lemma_record_prefix(had, now, 0, 0, seq![], seq![], 0, j as nat);
        lemma_record_prefix(had, now, 0, 0, seq![], seq![], 0, (j + 1) as nat);
        j
    } else {
        lemma_of_run(s, s.text[i - before.len()], t[i], seq![], seq![], 0);
        lemma_record_prefix(had, now, 0, 0, seq![], seq![], 0, had.len());
        had.len() as int
    }
}

// ---------------------------------------------------------------- the law

/// Whether two characters differ in nothing but their formatting and the record of a change.
pub open spec fn alike_s(c: CharV, d: CharV) -> bool {
    &&& c.c == d.c
    &&& forall|k: Seq<char>| !formats_s(k) && k != "rfmt"@ ==> #[trigger] store::prop_s(c.attrs, k)
        == store::prop_s(d.attrs, k)
}

/// The edits that a suggestion of formatting makes.
pub open spec fn suggestion_s(
    v: Seq<RunV>,
    start: usize,
    end: usize,
    f: RunFormatV,
    author: Seq<char>,
    date: Seq<char>,
    id: u64,
) -> Seq<TextOpV> {
    formatting::format_ops_s(start, end, f) + revisions::record_ops_s(
        v,
        start,
        end,
        author,
        date,
        id,
        v.len(),
    )
}

/// Whether a text is what a suggestion of formatting makes of another: a fresh character in the
/// range carries the change that records its formatting, and any other carries what it did.
spec fn suggested_s(
    was: Seq<CharV>,
    now: Seq<CharV>,
    start: usize,
    end: usize,
    author: Seq<char>,
    date: Seq<char>,
    id: u64,
) -> bool {
    &&& now.len() == was.len()
    &&& forall|i: int|
        0 <= i < was.len() ==> suggested_at_s(
            was[i],
            #[trigger] now[i],
            start <= i < end,
            author,
            date,
            id,
        )
}

spec fn suggested_at_s(
    c: CharV,
    d: CharV,
    inside: bool,
    author: Seq<char>,
    date: Seq<char>,
    id: u64,
) -> bool {
    &&& !inside ==> d == c
    &&& inside && fresh_s(c) ==> alike_s(d, c) && runback::read_s(d).fmt_change == Some(
        change_s(c, author, date, id),
    )
    &&& inside && !fresh_s(c) ==> runback::read_s(d).fmt_change == runback::read_s(c).fmt_change
}

proof fn lemma_noted(c: CharV, d: CharV, x: FormatChangeV)
    requires
        akin_s(d, c),
        runs::fmt_change_text_s(writing::fmt_value_s(x)) == Some(x),
    ensures
        alike_s(noted_s(d, x), c),
        runback::read_s(noted_s(d, x)).fmt_change == Some(x),
{
    lemma_codes();
    let a = noted_s(d, x).attrs;
    assert(runs::text_prop_s(a, "rfmt"@) == Some(writing::fmt_value_s(x)));
    assert forall|k: Seq<char>| !formats_s(k) && k != "rfmt"@ implies #[trigger] store::prop_s(a, k)
        == store::prop_s(c.attrs, k) by {
        assert(store::prop_s(d.attrs, k) == store::prop_s(c.attrs, k));
    }
}

proof fn lemma_suggested_char(
    segs: Seq<SegV>,
    i: int,
    start: usize,
    end: usize,
    f: RunFormatV,
    author: Seq<char>,
    date: Seq<char>,
    id: u64,
)
    requires
        store::flat_s(segs, segs.len()).len() <= usize::MAX,
        0 <= i < store::flat_s(segs, segs.len()).len(),
        revisions::records_read_s(
            runs::runs_s(segs, segs.len()),
            start,
            end,
            author,
            date,
            id,
            runs::runs_s(segs, segs.len()).len(),
        ),
    ensures
        suggested_at_s(
            store::flat_s(segs, segs.len())[i],
            whole_s(
                store::flat_s(segs, segs.len())[i],
                i,
                suggestion_s(runs::runs_s(segs, segs.len()), start, end, f, author, date, id),
            ),
            start <= i < end,
            author,
            date,
            id,
        ),
{
    let n = segs.len();
    let c = store::flat_s(segs, n)[i];
    let rs = runs::runs_s(segs, n);
    let a = formatting::format_ops_s(start, end, f);
    let b = revisions::record_ops_s(rs, start, end, author, date, id, rs.len());
    let d = whole_s(c, i, a);
    lemma_format_ops(start, end, f);
    lemma_formatted(c, i, a, start as int, end as int);
    lemma_akin(d, c);
    lemma_whole_sum(c, i, a, b);
    lemma_recorded(d, i, segs, n, start, end, author, date, id);
    if start <= i < end && fresh_s(c) {
        let j = lemma_place(segs, n, i);
        lemma_offsets(segs, j, i);
        assert(revisions::recorded_at_s(rs, j, start, end));
        assert(revisions::change_of_s(rs[j], author, date, id) == change_s(c, author, date, id));
        lemma_noted(c, d, change_s(c, author, date, id));
    }
}

proof fn lemma_offsets(segs: Seq<SegV>, j: int, i: int)
    requires
        0 <= j < runs::runs_s(segs, segs.len()).len(),
        0 <= i < usize::MAX,
        import::runs_len_s(runs::runs_s(segs, segs.len()), j as nat) <= i < import::runs_len_s(
            runs::runs_s(segs, segs.len()),
            (j + 1) as nat,
        ),
    ensures
        edits::offset_s(runs::runs_s(segs, segs.len()), j as nat) <= i < edits::offset_s(
            runs::runs_s(segs, segs.len()),
            (j + 1) as nat,
        ),
{
}

proof fn lemma_suggested_text(
    d: DocV,
    b: BlockId,
    start: usize,
    end: usize,
    f: RunFormatV,
    author: Seq<char>,
    date: Seq<char>,
    id: u64,
    e: DocV,
)
    requires
        d.s.texts.contains_key(b),
        doc::text_s(d, b).len() <= usize::MAX,
        revisions::records_read_s(
            read::runs_of_s(d, b),
            start,
            end,
            author,
            date,
            id,
            read::runs_of_s(d, b).len(),
        ),
        edits::text_edited_s(
            d,
            b,
            suggestion_s(read::runs_of_s(d, b), start, end, f, author, date, id),
            e,
        ),
    ensures
        suggested_s(doc::text_s(d, b), doc::text_s(e, b), start, end, author, date, id),
{
    let segs = d.s.texts[b];
    let rs = read::runs_of_s(d, b);
    let was = doc::text_s(d, b);
    let now = doc::text_s(e, b);
    let x = formatting::format_ops_s(start, end, f);
    let y = revisions::record_ops_s(rs, start, end, author, date, id, rs.len());
    let ops = suggestion_s(rs, start, end, f, author, date, id);
    lemma_format_ops(start, end, f);
    lemma_record_shape(rs, start, end, author, date, id, rs.len());
    assert forall|j: int| 0 <= j < ops.len() implies !((#[trigger] ops[j]) is Cut) by {
        if j < x.len() {
            assert(formatting_op_s(x[j], start as int, end as int));
        } else {
            assert(ops[j] == y[j - x.len()]);
        }
    }
    lemma_fold_len(was, ops, ops.len());
    assert forall|i: int| 0 <= i < was.len() implies suggested_at_s(
        was[i],
        #[trigger] now[i],
        start <= i < end,
        author,
        date,
        id,
    ) by {
        lemma_fold(was, ops, ops.len(), i);
        lemma_suggested_char(segs, i, start, end, f, author, date, id);
    }
}

/// Putting the formatting back gives the character that was, but for a record of a change.
proof fn lemma_put_back(c: CharV, d: CharV, author: Seq<char>, date: Seq<char>, id: u64)
    requires
        fresh_s(c),
        alike_s(d, c),
    ensures
        ({
            let r = put_back_s(d, change_s(c, author, date, id).old);
            &&& alike_s(r, c)
            &&& fresh_s(r)
            &&& runback::read_s(r).props() == runback::read_s(c).props()
        }),
{
    lemma_codes();
    let p = change_s(c, author, date, id).old;
    let r = put_back_s(d, p);
    lemma_exact(d.attrs, p, d.c);
    assert forall|k: Seq<char>| !formats_s(k) && k != "rfmt"@ implies #[trigger] store::prop_s(
        r.attrs,
        k,
    ) == store::prop_s(c.attrs, k) by {
        assert(store::prop_s(d.attrs, k) == store::prop_s(c.attrs, k));
    }
    assert(store::prop_s(r.attrs, "ins"@) == store::prop_s(c.attrs, "ins"@));
    assert(store::prop_s(r.attrs, "del"@) == store::prop_s(c.attrs, "del"@));
    assert(store::prop_s(r.attrs, "mvf"@) == store::prop_s(c.attrs, "mvf"@));
    assert(store::prop_s(r.attrs, "mvt"@) == store::prop_s(c.attrs, "mvt"@));
    assert(store::prop_s(r.attrs, "rfmt"@) is None);
}

/// A step over a paragraph that edits of its text resolve makes those edits.
proof fn lemma_edits(d: DocV, b: BlockId, p: ParagraphV, id: u64, accept: bool, e: DocV)
    requires
        !revisions::prop_hit_s(p, id),
        revisions::text_ops_s(p, id, accept).len() > 0,
        revisions::resolved_s(d, b, p, id, accept, e),
    ensures
        edits::text_edited_s(d, b, revisions::text_ops_s(p, id, accept), e),
{
}

proof fn lemma_single(
    states: Seq<DocV>,
    blocks: Seq<BlockId>,
    v: Seq<ParagraphV>,
    id: u64,
    accept: bool,
    idx: int,
)
    requires
        resolving::steps_s(states, blocks, v, id, accept),
        0 <= idx < v.len(),
        forall|i: int|
            0 <= i < v.len() && i != idx ==> !revisions::para_uses_s(#[trigger] v[i], id),
        !revisions::prop_hit_s(v[idx], id),
        revisions::text_ops_s(v[idx], id, accept).len() > 0,
    ensures
        edits::text_edited_s(
            states[0],
            blocks[idx],
            revisions::text_ops_s(v[idx], id, accept),
            states[v.len() as int],
        ),
{
    resolving::lemma_quiet(states, blocks, v, id, accept, 0, idx);
    resolving::lemma_one_step(states, blocks, v, id, accept, idx);
    lemma_edits(states[idx], blocks[idx], v[idx], id, accept, states[idx + 1]);
    resolving::lemma_quiet(states, blocks, v, id, accept, idx + 1, v.len() as int);
}

/// Accepting or rejecting a change that some character of one paragraph carries, and no other paragraph.
proof fn lemma_settled(e: DocV, idx: int, id: u64, accept: bool, k: int, states: Seq<DocV>)
    requires
        0 <= idx < read::refs_s(e).len(),
        e.s.texts.contains_key(read::block_s(e, idx)),
        0 <= k < doc::text_s(e, read::block_s(e, idx)).len(),
        revisions::fmt_is_s(runback::read_s(doc::text_s(e, read::block_s(e, idx))[k]), id),
        resolving::only_here_s(e, idx, id),
        revisions::all_resolved_s(states, e, id, accept, read::refs_s(e).len() as int),
    ensures
        revisions::hit_s(
            read::paragraphs_s(e),
            id,
            accept,
            read::paragraphs_s(e).len() as int,
        ),
        edits::text_edited_s(
            e,
            read::block_s(e, idx),
            revisions::resolve_fmt_s(
                read::runs_of_s(e, read::block_s(e, idx)),
                id,
                accept,
                read::runs_of_s(e, read::block_s(e, idx)).len(),
            ),
            states.last(),
        ),
{
    let b = read::block_s(e, idx);
    let segs = e.s.texts[b];
    let rs = read::runs_of_s(e, b);
    let v = read::paragraphs_s(e);
    let j = lemma_place(segs, segs.len(), k);
    assert(revisions::fmt_is_s(rs[j], id));
    assert(revisions::has_fmt_s(rs, id));
    lemma_resolve_shape(rs, id, accept, rs.len());
    assert(v[idx] == read::paragraph_s(e, b));
    assert(revisions::text_ops_s(v[idx], id, accept) == revisions::resolve_fmt_s(
        rs,
        id,
        accept,
        rs.len(),
    ));
    resolving::lemma_steps(states, e, id, accept);
    assert(resolving::blocks_s(e)[idx] == b);
    lemma_single(states, resolving::blocks_s(e), v, id, accept, idx);
    assert(revisions::touched_s(v[idx], id, accept));
}

/// Rejecting suggested formatting restores it: a character in the range that was part of no
/// revision has the formatting that it had and is part of none again, and all outside the range
/// is as it was. The id of the suggestion is one that no revision had.
pub proof fn law_rejected_format_is_undone(
    d: DocV,
    idx: int,
    start: usize,
    end: usize,
    f: RunFormatV,
    author: Seq<char>,
    date: Seq<char>,
    id: u64,
    e: DocV,
    k: int,
    states: Seq<DocV>,
)
    requires
        sequence::sound_s(d),
        resolving::unused_s(d, id),
        0 <= idx < read::refs_s(d).len(),
        d.s.texts.contains_key(read::block_s(d, idx)),
        doc::text_s(d, read::block_s(d, idx)).len() <= usize::MAX,
        revisions::records_read_s(
            read::runs_of_s(d, read::block_s(d, idx)),
            start,
            end,
            author,
            date,
            id,
            read::runs_of_s(d, read::block_s(d, idx)).len(),
        ),
        edits::text_edited_s(
            d,
            read::block_s(d, idx),
            suggestion_s(
                read::runs_of_s(d, read::block_s(d, idx)),
                start,
                end,
                f,
                author,
                date,
                id,
            ),
            e,
        ),
        start <= k < end,
        k < doc::text_s(d, read::block_s(d, idx)).len(),
        fresh_s(doc::text_s(d, read::block_s(d, idx))[k]),
        revisions::all_resolved_s(states, e, id, false, read::refs_s(e).len() as int),
    ensures
        revisions::hit_s(
            read::paragraphs_s(e),
            id,
            false,
            read::paragraphs_s(e).len() as int,
        ),
        doc::only_text_s(d, states.last(), read::block_s(d, idx)),
        doc::text_s(states.last(), read::block_s(d, idx)).len() == doc::text_s(
            d,
            read::block_s(d, idx),
        ).len(),
        forall|i: int|
            0 <= i < doc::text_s(d, read::block_s(d, idx)).len() ==> restored_s(
                doc::text_s(d, read::block_s(d, idx))[i],
                #[trigger] doc::text_s(states.last(), read::block_s(d, idx))[i],
                start <= i < end,
            ),
{
    let b = read::block_s(d, idx);
    let was = doc::text_s(d, b);
    let now = doc::text_s(e, b);
    lemma_suggested_text(d, b, start, end, f, author, date, id, e);
    resolving::lemma_only_here(d, idx, id, e);
    assert(read::block_s(e, idx) == b);
    assert(suggested_at_s(was[k], now[k], true, author, date, id));
    assert(revisions::fmt_is_s(runback::read_s(now[k]), id));
    lemma_settled(e, idx, id, false, k, states);
    writing::lemma_only_text_trans(d, e, states.last(), b);
    assert forall|i: int| 0 <= i < was.len() implies !revisions::fmt_is_s(
        runback::read_s(#[trigger] was[i]),
        id,
    ) by {
        resolving::lemma_unused_char(d, idx, id, i);
    }
    lemma_after(e.s.texts[b], was, now, doc::text_s(states.last(), b), start, end, author, date, id);
}

/// Whether a character is restored: as it was outside the range; inside it, where it was part of
/// no revision, the same but for a record that says nothing.
pub open spec fn restored_s(was: CharV, now: CharV, inside: bool) -> bool {
    &&& !inside ==> now == was
    &&& inside && fresh_s(was) ==> alike_s(now, was) && fresh_s(now) && runback::read_s(now).props()
        == runback::read_s(was).props()
}

proof fn lemma_after(
    segs: Seq<SegV>,
    was: Seq<CharV>,
    now: Seq<CharV>,
    r: Seq<CharV>,
    start: usize,
    end: usize,
    author: Seq<char>,
    date: Seq<char>,
    id: u64,
)
    requires
        now == store::flat_s(segs, segs.len()),
        now.len() <= usize::MAX,
        suggested_s(was, now, start, end, author, date, id),
        forall|i: int|
            0 <= i < was.len() ==> !revisions::fmt_is_s(runback::read_s(#[trigger] was[i]), id),
        ({
            let ops = revisions::resolve_fmt_s(
                runs::runs_s(segs, segs.len()),
                id,
                false,
                runs::runs_s(segs, segs.len()).len(),
            );
            r == edits::ops_s(now, ops, ops.len())
        }),
    ensures
        r.len() == was.len(),
        forall|i: int|
            0 <= i < was.len() ==> restored_s(was[i], #[trigger] r[i], start <= i < end),
{
    let rs = runs::runs_s(segs, segs.len());
    let ops = revisions::resolve_fmt_s(rs, id, false, rs.len());
    lemma_resolve_shape(rs, id, false, rs.len());
    lemma_fold_len(now, ops, ops.len());
    assert forall|i: int| 0 <= i < was.len() implies restored_s(
        was[i],
        #[trigger] r[i],
        start <= i < end,
    ) by {
        lemma_fold(now, ops, ops.len(), i);
        lemma_rejected(now[i], i, segs, segs.len(), id);
        assert(suggested_at_s(was[i], now[i], start <= i < end, author, date, id));
        assert(!revisions::fmt_is_s(runback::read_s(was[i]), id));
        if start <= i < end && fresh_s(was[i]) {
            lemma_put_back(was[i], now[i], author, date, id);
        }
    }
}

// ---------------------------------------------------------------- acceptance

/// What an acceptance does to the character at `i` of a rich text: one under the change loses the
/// record of it, and nothing else.
proof fn lemma_accepted(c: CharV, i: int, v: Seq<SegV>, n: nat, id: u64)
    requires
        n <= v.len(),
        store::flat_s(v, n).len() <= usize::MAX,
        0 <= i,
    ensures
        ({
            let rs = runs::runs_s(v, n);
            let t = store::flat_s(v, n);
            let r = whole_s(c, i, revisions::resolve_fmt_s(rs, id, true, rs.len()));
            if i < t.len() && revisions::fmt_is_s(runback::read_s(t[i]), id) {
                r == (CharV { attrs: c.attrs.remove("rfmt"@), ..c })
            } else {
                r == c
            }
        }),
    decreases n,
{
    if n > 0 {
        lemma_accepted(c, i, v, (n - 1) as nat, id);
        let s = v[n - 1];
        let before = store::flat_s(v, (n - 1) as nat);
        let t = store::flat_s(v, n);
        let tail = Seq::new(s.text.len(), |k: int| store::char_s(s.text[k], s.attrs));
        assert(t =~= before + tail);
        let had = runs::runs_s(v, (n - 1) as nat);
        if s.text.len() > 0 {
            let r = runs::run_s(s);
            let now = had.push(r);
            lemma_resolve_prefix(had, now, id, true, had.len());
            lemma_record_prefix(had, now, 0, 0, seq![], seq![], 0, had.len());
            lemma_runs_len(v, (n - 1) as nat);
            lemma_runs_len(v, n);
            let ops = revisions::resolve_fmt_s(had, id, true, had.len());
            let from = edits::offset_s(now, had.len());
            let to = edits::offset_s(now, now.len());
            if before.len() <= i < t.len() {
                lemma_of_run(s, s.text[i - before.len()], t[i], seq![], seq![], 0);
            }
            if revisions::fmt_is_s(r, id) {
                lemma_whole_push(c, i, ops, TextOpV::Clear { from, to, key: "rfmt"@ });
            }
        }
    }
}

/// Whether a character has settled: its formatting is as it was, and it carries no record of a
/// change of it.
pub open spec fn settled_s(was: CharV, now: CharV) -> bool {
    &&& now.c == was.c
    &&& runback::read_s(now).props() == runback::read_s(was).props()
    &&& runback::read_s(now).track == runback::read_s(was).track
    &&& runback::read_s(now).fmt_change is None
}

proof fn lemma_unrecorded(c: CharV)
    ensures
        settled_s(c, CharV { attrs: c.attrs.remove("rfmt"@), ..c }),
{
    lemma_codes();
    let d = CharV { attrs: c.attrs.remove("rfmt"@), ..c };
    assert(store::prop_s(d.attrs, "rfmt"@) is None);
    assert forall|k: Seq<char>| k != "rfmt"@ implies #[trigger] store::prop_s(d.attrs, k) == store::prop_s(
        c.attrs,
        k,
    ) by {}
    assert(store::prop_s(d.attrs, "b"@) == store::prop_s(c.attrs, "b"@));
    assert(store::prop_s(d.attrs, "i"@) == store::prop_s(c.attrs, "i"@));
    assert(store::prop_s(d.attrs, "u"@) == store::prop_s(c.attrs, "u"@));
    assert(store::prop_s(d.attrs, "strike"@) == store::prop_s(c.attrs, "strike"@));
    assert(store::prop_s(d.attrs, "sz"@) == store::prop_s(c.attrs, "sz"@));
    assert(store::prop_s(d.attrs, "color"@) == store::prop_s(c.attrs, "color"@));
    assert(store::prop_s(d.attrs, "font"@) == store::prop_s(c.attrs, "font"@));
    assert(store::prop_s(d.attrs, "hl"@) == store::prop_s(c.attrs, "hl"@));
    assert(store::prop_s(d.attrs, "va"@) == store::prop_s(c.attrs, "va"@));
    assert(store::prop_s(d.attrs, "lang"@) == store::prop_s(c.attrs, "lang"@));
    assert(store::prop_s(d.attrs, "ins"@) == store::prop_s(c.attrs, "ins"@));
    assert(store::prop_s(d.attrs, "del"@) == store::prop_s(c.attrs, "del"@));
    assert(store::prop_s(d.attrs, "mvf"@) == store::prop_s(c.attrs, "mvf"@));
    assert(store::prop_s(d.attrs, "mvt"@) == store::prop_s(c.attrs, "mvt"@));
}

/// Accepting a change of formatting keeps it: each character that carries the change has the same
/// formatting and no longer carries it, and every other character is as it was. The change stands in
/// one paragraph.
pub proof fn law_accepted_format_stays(e: DocV, idx: int, id: u64, k: int, states: Seq<DocV>)
    requires
        0 <= idx < read::refs_s(e).len(),
        e.s.texts.contains_key(read::block_s(e, idx)),
        doc::text_s(e, read::block_s(e, idx)).len() <= usize::MAX,
        0 <= k < doc::text_s(e, read::block_s(e, idx)).len(),
        revisions::fmt_is_s(runback::read_s(doc::text_s(e, read::block_s(e, idx))[k]), id),
        resolving::only_here_s(e, idx, id),
        revisions::all_resolved_s(states, e, id, true, read::refs_s(e).len() as int),
    ensures
        doc::only_text_s(e, states.last(), read::block_s(e, idx)),
        doc::text_s(states.last(), read::block_s(e, idx)).len() == doc::text_s(
            e,
            read::block_s(e, idx),
        ).len(),
        forall|i: int|
            0 <= i < doc::text_s(e, read::block_s(e, idx)).len() ==> if revisions::fmt_is_s(
                runback::read_s(doc::text_s(e, read::block_s(e, idx))[i]),
                id,
            ) {
                settled_s(
                    doc::text_s(e, read::block_s(e, idx))[i],
                    #[trigger] doc::text_s(states.last(), read::block_s(e, idx))[i],
                )
            } else {
                doc::text_s(states.last(), read::block_s(e, idx))[i] == doc::text_s(
                    e,
                    read::block_s(e, idx),
                )[i]
            },
{
    let b = read::block_s(e, idx);
    let segs = e.s.texts[b];
    let rs = read::runs_of_s(e, b);
    let now = doc::text_s(e, b);
    let r = doc::text_s(states.last(), b);
    lemma_settled(e, idx, id, true, k, states);
    let ops = revisions::resolve_fmt_s(rs, id, true, rs.len());
    lemma_resolve_shape(rs, id, true, rs.len());
    lemma_fold_len(now, ops, ops.len());
    assert forall|i: int| 0 <= i < now.len() implies (if revisions::fmt_is_s(
        runback::read_s(now[i]),
        id,
    ) {
        settled_s(now[i], #[trigger] r[i])
    } else {
        r[i] == now[i]
    }) by {
        lemma_fold(now, ops, ops.len(), i);
        lemma_accepted(now[i], i, segs, segs.len(), id);
        lemma_unrecorded(now[i]);
    }
}

} // verus!
