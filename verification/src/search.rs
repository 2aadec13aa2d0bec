//! Search, trimming and splitting over characters.

use vstd::prelude::*;

use crate::strs;
use crate::strs::chars_of;
use crate::strs::string_of;

verus! {

// ── substring search ────────────────────────────────────────────────────────

/// Whether `pat` stands in `s` at position `at`.
pub open spec fn at_s(s: Seq<char>, pat: Seq<char>, at: int) -> bool {
    0 <= at && at + pat.len() <= s.len() && s.subrange(at, at + pat.len()) == pat
}

/// The first position at or after `from` where `pat` stands in `s`.
pub open spec fn find_s(s: Seq<char>, pat: Seq<char>, from: int) -> Option<int>
    decreases s.len() + 1 - from,
{
    if from < 0 || from + pat.len() > s.len() {
        None
    } else if at_s(s, pat, from) {
        Some(from)
    } else {
        find_s(s, pat, from + 1)
    }
}

/// The last position at or before `from` where `pat` stands in `s`.
pub open spec fn rfind_from_s(s: Seq<char>, pat: Seq<char>, from: int) -> Option<int>
    decreases from + 1,
{
    if from < 0 {
        None
    } else if at_s(s, pat, from) {
        Some(from)
    } else {
        rfind_from_s(s, pat, from - 1)
    }
}

/// The last position where `pat` stands in `s`.
pub open spec fn rfind_s(s: Seq<char>, pat: Seq<char>) -> Option<int> {
    rfind_from_s(s, pat, s.len() - pat.len())
}

pub open spec fn contains_s(s: Seq<char>, pat: Seq<char>) -> bool {
    find_s(s, pat, 0) is Some
}

/// A found position is in range, holds the pattern, and is the first such.
pub proof fn lemma_find(s: Seq<char>, pat: Seq<char>, from: int)
    requires
        0 <= from,
    ensures
        match find_s(s, pat, from) {
            Some(i) => from <= i && at_s(s, pat, i) && forall|j: int| from <= j < i ==> !at_s(s, pat, j),
            None => forall|j: int| from <= j ==> !at_s(s, pat, j),
        },
    decreases s.len() + 1 - from,
{
    if from + pat.len() > s.len() {
    } else if at_s(s, pat, from) {
    } else {
        lemma_find(s, pat, from + 1);
    }
}

pub proof fn lemma_rfind(s: Seq<char>, pat: Seq<char>, from: int)
    ensures
        match rfind_from_s(s, pat, from) {
            Some(i) => i <= from && at_s(s, pat, i),
            None => forall|j: int| j <= from ==> !at_s(s, pat, j),
        },
    decreases from + 1,
{
    if from < 0 {
    } else if at_s(s, pat, from) {
    } else {
        lemma_rfind(s, pat, from - 1);
    }
}

pub(crate) fn stands_at(v: &Vec<char>, pat: &Vec<char>, at: usize) -> (r: bool)
    ensures
        r == at_s(v@, pat@, at as int),
{
    if at > v.len() || pat.len() > v.len() - at {
        return false;
    }
    let mut k: usize = 0;
    while k < pat.len()
        invariant
            k <= pat@.len(),
            at + pat.len() <= v.len(),
            forall|j: int| 0 <= j < k ==> v@[at + j] == pat@[j],
        decreases pat@.len() - k,
    {
        if v[at + k] != pat[k] {
            assert(v@.subrange(at as int, at + pat@.len())[k as int] != pat@[k as int]);
            return false;
        }
        k = k + 1;
    }
    assert(v@.subrange(at as int, at + pat@.len()) =~= pat@);
    true
}

pub(crate) fn find_chars(v: &Vec<char>, pat: &Vec<char>, from: usize) -> (r: Option<usize>)
    ensures
        match r {
            Some(i) => find_s(v@, pat@, from as int) == Some(i as int) && from <= i && i + pat@.len() <= v@.len(),
            None => find_s(v@, pat@, from as int) is None,
        },
{
    let mut i: usize = from;
    while i <= v.len() && pat.len() <= v.len() - i
        invariant
            from <= i,
            find_s(v@, pat@, from as int) == find_s(v@, pat@, i as int),
            i <= v@.len() || i == from,
        decreases v@.len() + 1 - i,
    {
        if stands_at(v, pat, i) {
            return Some(i);
        }
        if i == v.len() {
            assert(find_s(v@, pat@, i + 1) is None);
            return None;
        }
        i = i + 1;
    }
    None
}

pub(crate) fn rfind_chars(v: &Vec<char>, pat: &Vec<char>) -> (r: Option<usize>)
    ensures
        match r {
            Some(i) => rfind_s(v@, pat@) == Some(i as int) && i + pat@.len() <= v@.len(),
            None => rfind_s(v@, pat@) is None,
        },
{
    if pat.len() > v.len() {
        return None;
    }
    let mut i: usize = v.len() - pat.len();
    loop
        invariant
            pat@.len() <= v@.len(),
            i <= v@.len() - pat@.len(),
            rfind_s(v@, pat@) == rfind_from_s(v@, pat@, i as int),
        decreases i,
    {
        if stands_at(v, pat, i) {
            return Some(i);
        }
        if i == 0 {
            assert(rfind_from_s(v@, pat@, -1) is None);
            return None;
        }
        i = i - 1;
    }
}

pub(crate) fn find_str(s: &str, pat: &str) -> (r: Option<usize>)
    ensures
        match r {
            Some(i) => find_s(s@, pat@, 0) == Some(i as int) && i + pat@.len() <= s@.len(),
            None => find_s(s@, pat@, 0) is None,
        },
{
    find_chars(&chars_of(s), &chars_of(pat), 0)
}

pub(crate) fn contains_str(s: &str, pat: &str) -> (r: bool)
    ensures
        r == contains_s(s@, pat@),
{
    find_str(s, pat).is_some()
}

pub open spec fn starts_s(s: Seq<char>, pat: Seq<char>) -> bool {
    at_s(s, pat, 0)
}

pub open spec fn ends_s(s: Seq<char>, pat: Seq<char>) -> bool {
    at_s(s, pat, s.len() - pat.len())
}

pub(crate) fn starts_with(s: &str, pat: &str) -> (r: bool)
    ensures
        r == starts_s(s@, pat@),
{
    stands_at(&chars_of(s), &chars_of(pat), 0)
}

pub(crate) fn ends_with(s: &str, pat: &str) -> (r: bool)
    ensures
        r == ends_s(s@, pat@),
{
    let v = chars_of(s);
    let p = chars_of(pat);
    if p.len() > v.len() {
        return false;
    }
    stands_at(&v, &p, v.len() - p.len())
}

/// What follows `pat` at the start of `s`.
pub open spec fn strip_prefix_s(s: Seq<char>, pat: Seq<char>) -> Option<Seq<char>> {
    if starts_s(s, pat) {
        Some(s.skip(pat.len() as int))
    } else {
        None
    }
}

pub(crate) fn strip_prefix(s: &str, pat: &str) -> (r: Option<String>)
    ensures
        strs::opt_s(r) == strip_prefix_s(s@, pat@),
{
    let v = chars_of(s);
    let p = chars_of(pat);
    if stands_at(&v, &p, 0) {
        let t = string_of(&v, p.len(), v.len());
        assert(t@ =~= s@.skip(pat@.len() as int));
        Some(t)
    } else {
        None
    }
}

// ── single characters ───────────────────────────────────────────────────────

pub open spec fn has_char_s(s: Seq<char>, c: char) -> bool {
    s.contains(c)
}

pub(crate) fn has_char(s: &str, c: char) -> (r: bool)
    ensures
        r == has_char_s(s@, c),
{
    let v = chars_of(s);
    let mut i: usize = 0;
    while i < v.len()
        invariant
            i <= v@.len(),
            v@ == s@,
            forall|j: int| 0 <= j < i ==> v@[j] != c,
        decreases v@.len() - i,
    {
        if v[i] == c {
            assert(s@[i as int] == c);
            return true;
        }
        i = i + 1;
    }
    false
}

/// Unicode white space.
pub open spec fn is_white_s(c: char) -> bool {
    ('\u{9}' <= c <= '\u{d}') || c == ' ' || c == '\u{85}' || c == '\u{a0}' || c == '\u{1680}' || (
    '\u{2000}' <= c <= '\u{200a}') || c == '\u{2028}' || c == '\u{2029}' || c == '\u{202f}' || c
        == '\u{205f}' || c == '\u{3000}'
}

pub(crate) fn is_white(c: char) -> (r: bool)
    ensures
        r == is_white_s(c),
{
    ('\u{9}' <= c && c <= '\u{d}') || c == ' ' || c == '\u{85}' || c == '\u{a0}' || c == '\u{1680}' || (
    '\u{2000}' <= c && c <= '\u{200a}') || c == '\u{2028}' || c == '\u{2029}' || c == '\u{202f}' || c
        == '\u{205f}' || c == '\u{3000}'
}

/// `s` without white space at its start.
pub open spec fn trim_start_s(s: Seq<char>) -> Seq<char>
    decreases s.len(),
{
    if s.len() > 0 && is_white_s(s[0]) {
        trim_start_s(s.drop_first())
    } else {
        s
    }
}

/// `s` without white space at its end.
pub open spec fn trim_end_s(s: Seq<char>) -> Seq<char>
    decreases s.len(),
{
    if s.len() > 0 && is_white_s(s.last()) {
        trim_end_s(s.drop_last())
    } else {
        s
    }
}

pub open spec fn trim_s(s: Seq<char>) -> Seq<char> {
    trim_end_s(trim_start_s(s))
}

fn start_of_text(v: &Vec<char>) -> (r: usize)
    ensures
        r <= v@.len(),
        trim_start_s(v@) == v@.skip(r as int),
{
    let mut i: usize = 0;
    assert(v@.skip(0) =~= v@);
    while i < v.len() && is_white(v[i])
        invariant
            i <= v@.len(),
            trim_start_s(v@) == trim_start_s(v@.skip(i as int)),
        decreases v@.len() - i,
    {
        assert(v@.skip(i as int).drop_first() =~= v@.skip(i + 1));
        i = i + 1;
    }
    i
}

fn end_of_text(v: &Vec<char>, from: usize) -> (r: usize)
    requires
        from <= v@.len(),
    ensures
        from <= r <= v@.len(),
        trim_end_s(v@.skip(from as int)) == v@.subrange(from as int, r as int),
{
    let mut j: usize = v.len();
    assert(v@.skip(from as int) =~= v@.subrange(from as int, j as int));
    while j > from && is_white(v[j - 1])
        invariant
            from <= j <= v@.len(),
            trim_end_s(v@.skip(from as int)) == trim_end_s(v@.subrange(from as int, j as int)),
        decreases j,
    {
        assert(v@.subrange(from as int, j as int).drop_last() =~= v@.subrange(from as int, j - 1));
        j = j - 1;
    }
    j
}

pub(crate) fn trim_start(s: &str) -> (r: String)
    ensures
        r@ == trim_start_s(s@),
{
    let v = chars_of(s);
    let i: usize = start_of_text(&v);
    assert(v@.skip(i as int) =~= v@.subrange(i as int, v@.len() as int));
    string_of(&v, i, v.len())
}

pub(crate) fn trim_end(s: &str) -> (r: String)
    ensures
        r@ == trim_end_s(s@),
{
    let v = chars_of(s);
    assert(v@.skip(0) =~= v@);
    let j: usize = end_of_text(&v, 0);
    string_of(&v, 0, j)
}

pub(crate) fn trim(s: &str) -> (r: String)
    ensures
        r@ == trim_s(s@),
{
    let v = chars_of(s);
    let i: usize = start_of_text(&v);
    let j: usize = end_of_text(&v, i);
    string_of(&v, i, j)
}

// ── splitting ───────────────────────────────────────────────────────────────

/// The pieces of `s` between the occurrences of `sep`; at least one.
pub open spec fn split_s(s: Seq<char>, sep: char) -> Seq<Seq<char>>
    decreases s.len(),
{
    if s.len() == 0 {
        seq![Seq::empty()]
    } else {
        let done = split_s(s.drop_last(), sep);
        if s.last() == sep {
            done.push(Seq::empty())
        } else {
            done.drop_last().push(done.last().push(s.last()))
        }
    }
}

pub open spec fn texts_s(v: Seq<String>) -> Seq<Seq<char>> {
    Seq::new(v.len(), |i: int| v[i]@)
}

pub proof fn lemma_split_nonempty(s: Seq<char>, sep: char)
    ensures
        split_s(s, sep).len() >= 1,
    decreases s.len(),
{
    if s.len() > 0 {
        lemma_split_nonempty(s.drop_last(), sep);
    }
}

pub(crate) fn split(s: &str, sep: char) -> (r: Vec<String>)
    ensures
        texts_s(r@) == split_s(s@, sep),
        r@.len() >= 1,
{
    let v = chars_of(s);
    let mut done: Vec<String> = Vec::new();
    let mut cur = String::new();
    let mut i: usize = 0;
    proof {
        assert(v@.take(0) =~= Seq::<char>::empty());
        assert(texts_s(done@).push(cur@) =~= seq![Seq::<char>::empty()]);
    }
    while i < v.len()
        invariant
            i <= v@.len(),
            texts_s(done@).push(cur@) == split_s(v@.take(i as int), sep),
        decreases v@.len() - i,
    {
        let c = v[i];
        let ghost before = split_s(v@.take(i as int), sep);
        proof {
            assert(v@.take(i + 1).drop_last() =~= v@.take(i as int));
            assert(v@.take(i + 1).last() == c);
            assert(before.drop_last() =~= texts_s(done@));
            assert(before.last() == cur@);
        }
        if c == sep {
            let ghost old_done = done@;
            done.push(cur);
            cur = String::new();
            assert(texts_s(done@) =~= before);
        } else {
            cur.push(c);
        }
        i = i + 1;
    }
    assert(v@.take(i as int) =~= s@);
    let ghost g = done@;
    let ghost gc = cur@;
    done.push(cur);
    assert(texts_s(done@) =~= texts_s(g).push(gc));
    done
}

// ── cutting and joining ─────────────────────────────────────────────────────

pub(crate) fn find_at(v: &Vec<char>, pat: &str, from: usize) -> (r: Option<usize>)
    ensures
        match r {
            Some(i) => find_s(v@, pat@, from as int) == Some(i as int) && from <= i && i
                + pat@.len() <= v@.len(),
            None => find_s(v@, pat@, from as int) is None,
        },
{
    find_chars(v, &chars_of(pat), from)
}

pub(crate) fn rfind_at(v: &Vec<char>, pat: &str) -> (r: Option<usize>)
    ensures
        match r {
            Some(i) => rfind_s(v@, pat@) == Some(i as int) && i + pat@.len() <= v@.len(),
            None => rfind_s(v@, pat@) is None,
        },
{
    rfind_chars(v, &chars_of(pat))
}

/// `s` with its characters `from..to` replaced by `mid`.
pub open spec fn splice_s(s: Seq<char>, from: int, mid: Seq<char>, to: int) -> Seq<char> {
    s.subrange(0, from) + mid + s.subrange(to, s.len() as int)
}

pub(crate) fn splice(v: &Vec<char>, from: usize, mid: &str, to: usize) -> (r: String)
    requires
        from <= v@.len(),
        to <= v@.len(),
    ensures
        r@ == splice_s(v@, from as int, mid@, to as int),
{
    let mut s = string_of(v, 0, from);
    s.append(mid);
    s.append(string_of(v, to, v.len()).as_str());
    s
}

// ── order ───────────────────────────────────────────────────────────────────

/// Whether `a` comes no later than `b` in dictionary order of code points.
pub open spec fn text_le_s(a: Seq<char>, b: Seq<char>) -> bool
    decreases a.len(),
{
    if a.len() == 0 {
        true
    } else if b.len() == 0 {
        false
    } else if a[0] == b[0] {
        text_le_s(a.drop_first(), b.drop_first())
    } else {
        a[0] < b[0]
    }
}

pub(crate) fn text_le(a: &str, b: &str) -> (r: bool)
    ensures
        r == text_le_s(a@, b@),
{
    let x = chars_of(a);
    let y = chars_of(b);
    let mut i: usize = 0;
    assert(x@.skip(0) =~= x@);
    assert(y@.skip(0) =~= y@);
    while i < x.len()
        invariant
            i <= x@.len(),
            i <= y@.len(),
            x@ == a@,
            y@ == b@,
            text_le_s(a@, b@) == text_le_s(x@.skip(i as int), y@.skip(i as int)),
        decreases x@.len() - i,
    {
        if i == y.len() {
            return false;
        }
        if x[i] != y[i] {
            return x[i] < y[i];
        }
        assert(x@.skip(i as int).drop_first() =~= x@.skip(i + 1));
        assert(y@.skip(i as int).drop_first() =~= y@.skip(i + 1));
        i = i + 1;
    }
    true
}

/// Where `x` belongs among sorted texts: before the first one it does not come after.
pub open spec fn place_s(v: Seq<Seq<char>>, x: Seq<char>, from: int) -> int
    decreases v.len() - from,
{
    if 0 <= from < v.len() {
        if text_le_s(x, v[from]) {
            from
        } else {
            place_s(v, x, from + 1)
        }
    } else {
        v.len() as int
    }
}

/// The first `n` texts in dictionary order.
pub open spec fn sorted_s(v: Seq<Seq<char>>, n: nat) -> Seq<Seq<char>>
    decreases n,
{
    if n == 0 {
        Seq::empty()
    } else {
        let s = sorted_s(v, (n - 1) as nat);
        s.insert(place_s(s, v[n - 1], 0), v[n - 1])
    }
}

pub(crate) fn sort_texts(v: &Vec<String>) -> (r: Vec<String>)
    ensures
        texts_s(r@) == sorted_s(texts_s(v@), v@.len()),
{
    let ghost t = texts_s(v@);
    let mut out: Vec<String> = Vec::new();
    let mut i: usize = 0;
    assert(texts_s(out@) =~= Seq::empty());
    while i < v.len()
        invariant
            i <= v@.len(),
            t == texts_s(v@),
            texts_s(out@) == sorted_s(t, i as nat),
        decreases v@.len() - i,
    {
        let ghost o = texts_s(out@);
        assert(t[i as int] == v@[i as int]@);
        let mut at: usize = 0;
        let len = out.len();
        while at < len
            invariant_except_break
                place_s(o, v@[i as int]@, 0) == place_s(o, v@[i as int]@, at as int),
            invariant
                i < v@.len(),
                at <= len == out@.len(),
                o == texts_s(out@),
            ensures
                place_s(o, v@[i as int]@, 0) == at,
            decreases len - at,
        {
            assert(o[at as int] == out@[at as int]@);
            if text_le(v[i].as_str(), out[at].as_str()) {
                break;
            }
            at = at + 1;
        }
        out.insert(at, v[i].clone());
        assert(texts_s(out@) =~= o.insert(at as int, v@[i as int]@));
        i = i + 1;
    }
    out
}

proof fn lemma_text_le_total(a: Seq<char>, b: Seq<char>)
    ensures
        text_le_s(a, b) || text_le_s(b, a),
    decreases a.len(),
{
    if a.len() > 0 && b.len() > 0 && a[0] == b[0] {
        lemma_text_le_total(a.drop_first(), b.drop_first());
    }
}

proof fn lemma_text_le_transitive(a: Seq<char>, b: Seq<char>, c: Seq<char>)
    requires
        text_le_s(a, b),
        text_le_s(b, c),
    ensures
        text_le_s(a, c),
    decreases a.len(),
{
    if a.len() > 0 && b.len() > 0 && c.len() > 0 {
        if a[0] == b[0] && b[0] == c[0] {
            lemma_text_le_transitive(a.drop_first(), b.drop_first(), c.drop_first());
        }
    }
}

proof fn lemma_place(v: Seq<Seq<char>>, x: Seq<char>, from: int)
    requires
        0 <= from <= v.len(),
    ensures
        from <= place_s(v, x, from) <= v.len(),
        forall|i: int| from <= i < place_s(v, x, from) ==> !text_le_s(x, #[trigger] v[i]),
        place_s(v, x, from) < v.len() ==> text_le_s(x, v[place_s(v, x, from)]),
    decreases v.len() - from,
{
    if from < v.len() && !text_le_s(x, v[from]) {
        lemma_place(v, x, from + 1);
    }
}

/// Sorting puts texts in dictionary order and keeps exactly the texts that were there.
pub proof fn law_sorted(v: Seq<Seq<char>>, n: nat)
    requires
        n <= v.len(),
    ensures
        forall|i: int, j: int|
            0 <= i < j < sorted_s(v, n).len() ==> text_le_s(
                #[trigger] sorted_s(v, n)[i],
                #[trigger] sorted_s(v, n)[j],
            ),
        sorted_s(v, n).to_multiset() == v.subrange(0, n as int).to_multiset(),
        sorted_s(v, n).len() == n,
    decreases n,
{
    broadcast use vstd::seq_lib::group_to_multiset_ensures;

    if n == 0 {
        assert(v.subrange(0, 0) =~= Seq::empty());
    } else {
        let m = (n - 1) as nat;
        law_sorted(v, m);
        let s = sorted_s(v, m);
        let x = v[m as int];
        lemma_place(s, x, 0);
        let at = place_s(s, x, 0);
        let r = sorted_s(v, n);
        assert forall|i: int, j: int| 0 <= i < j < r.len() implies text_le_s(
            #[trigger] r[i],
            #[trigger] r[j],
        ) by {
            if j < at {
                assert(r[i] == s[i] && r[j] == s[j]);
            } else if j == at {
                assert(r[i] == s[i]);
                lemma_text_le_total(s[i], x);
            } else if i < at {
                assert(r[i] == s[i] && r[j] == s[j - 1]);
            } else if i == at {
                assert(r[j] == s[j - 1]);
                if at < j - 1 {
                    lemma_text_le_transitive(x, s[at], s[j - 1]);
                }
            } else {
                assert(r[i] == s[i - 1] && r[j] == s[j - 1]);
            }
        }
        assert(v.subrange(0, n as int) =~= v.subrange(0, m as int).push(x));
        vstd::seq_lib::to_multiset_insert(s, at, x);
        vstd::seq_lib::to_multiset_build(v.subrange(0, m as int), x);
    }
}

} // verus!
