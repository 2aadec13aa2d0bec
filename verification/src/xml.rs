//! XML text: escaping, and the small attribute pieces shared by the writers.

use vstd::prelude::*;

use crate::strs;
use crate::strs::chars_of;
use crate::strs::dec;
use crate::strs::dec_int;

verus! {

/// What one character becomes in XML text or an attribute value.
pub open spec fn esc_char_s(c: char) -> Seq<char> {
    if c == '&' {
        "&amp;"@
    } else if c == '<' {
        "&lt;"@
    } else if c == '>' {
        "&gt;"@
    } else if c == '"' {
        "&quot;"@
    } else if c == '\'' {
        "&apos;"@
    } else {
        seq![c]
    }
}

/// `s` with the five markup characters replaced by their entities.
pub open spec fn esc_s(s: Seq<char>) -> Seq<char>
    decreases s.len(),
{
    if s.len() == 0 {
        Seq::empty()
    } else {
        esc_s(s.drop_last()) + esc_char_s(s.last())
    }
}

pub(crate) fn xml_escape(s: &str) -> (r: String)
    ensures
        r@ == esc_s(s@),
{
    let v = chars_of(s);
    let mut r = String::new();
    let mut i: usize = 0;
    assert(v@.take(0) =~= Seq::<char>::empty());
    while i < v.len()
        invariant
            i <= v@.len(),
            r@ == esc_s(v@.take(i as int)),
        decreases v@.len() - i,
    {
        let c = v[i];
        proof {
            assert(v@.take(i + 1).drop_last() =~= v@.take(i as int));
            assert(v@.take(i + 1).last() == c);
        }
        if c == '&' {
            r.append("&amp;");
        } else if c == '<' {
            r.append("&lt;");
        } else if c == '>' {
            r.append("&gt;");
        } else if c == '"' {
            r.append("&quot;");
        } else if c == '\'' {
            r.append("&apos;");
        } else {
            let ghost b = r@;
            r.push(c);
            assert(r@ =~= b + seq![c]);
        }
        i = i + 1;
    }
    assert(v@.take(i as int) =~= s@);
    r
}

/// ` w:date="…"` when the revision carries a date, nothing otherwise: an empty `w:date` is
/// no valid value.
pub open spec fn date_attr_s(date: Seq<char>) -> Seq<char> {
    if date.len() == 0 {
        Seq::empty()
    } else {
        " w:date=\""@ + esc_s(date) + "\""@
    }
}

pub(crate) fn date_attr(date: &str) -> (r: String)
    ensures
        r@ == date_attr_s(date@),
{
    if date.is_empty() {
        String::new()
    } else {
        let mut s = " w:date=\"".to_owned();
        s.append(xml_escape(date).as_str());
        s.append("\"");
        s
    }
}

// ── optional pieces ─────────────────────────────────────────────────────────

/// `pre`, the escaped text, `post`; nothing when there is no text.
pub open spec fn opt_esc_s(pre: Seq<char>, o: Option<Seq<char>>, post: Seq<char>) -> Seq<char> {
    match o {
        Some(x) => pre + esc_s(x) + post,
        None => Seq::empty(),
    }
}

pub(crate) fn opt_esc(pre: &str, o: &Option<String>, post: &str) -> (r: String)
    ensures
        r@ == opt_esc_s(pre@, strs::opt_s(*o), post@),
{
    match o {
        Some(x) => {
            let mut s = pre.to_owned();
            s.append(xml_escape(x.as_str()).as_str());
            s.append(post);
            s
        },
        None => String::new(),
    }
}

/// `pre`, the text as it is, `post`; nothing when there is no text.
pub open spec fn opt_raw_s(pre: Seq<char>, o: Option<Seq<char>>, post: Seq<char>) -> Seq<char> {
    match o {
        Some(x) => pre + x + post,
        None => Seq::empty(),
    }
}

pub(crate) fn opt_raw(pre: &str, o: &Option<String>, post: &str) -> (r: String)
    ensures
        r@ == opt_raw_s(pre@, strs::opt_s(*o), post@),
{
    match o {
        Some(x) => {
            let mut s = pre.to_owned();
            s.append(x.as_str());
            s.append(post);
            s
        },
        None => String::new(),
    }
}

/// `pre`, the decimal number, `post`; nothing when there is no number.
pub open spec fn opt_dec_s(pre: Seq<char>, o: Option<int>, post: Seq<char>) -> Seq<char> {
    match o {
        Some(n) => pre + strs::dec_int_s(n) + post,
        None => Seq::empty(),
    }
}

pub open spec fn int16_s(o: Option<u16>) -> Option<int> {
    match o {
        Some(n) => Some(n as int),
        None => None,
    }
}

pub open spec fn int32_s(o: Option<u32>) -> Option<int> {
    match o {
        Some(n) => Some(n as int),
        None => None,
    }
}

pub open spec fn sint32_s(o: Option<i32>) -> Option<int> {
    match o {
        Some(n) => Some(n as int),
        None => None,
    }
}

pub(crate) fn opt_dec(pre: &str, o: Option<i64>, post: &str) -> (r: String)
    ensures
        r@ == opt_dec_s(
            pre@,
            match o {
                Some(n) => Some(n as int),
                None => None,
            },
            post@,
        ),
{
    match o {
        Some(n) => {
            let mut s = pre.to_owned();
            s.append(dec_int(n).as_str());
            s.append(post);
            s
        },
        None => String::new(),
    }
}

pub(crate) fn wide16(o: Option<u16>) -> (r: Option<i64>)
    ensures
        match r {
            Some(n) => int16_s(o) == Some(n as int),
            None => o is None,
        },
{
    match o {
        Some(n) => Some(n as i64),
        None => None,
    }
}

pub(crate) fn wide32(o: Option<u32>) -> (r: Option<i64>)
    ensures
        match r {
            Some(n) => int32_s(o) == Some(n as int),
            None => o is None,
        },
{
    match o {
        Some(n) => Some(n as i64),
        None => None,
    }
}

pub(crate) fn widei32(o: Option<i32>) -> (r: Option<i64>)
    ensures
        match r {
            Some(n) => sint32_s(o) == Some(n as int),
            None => o is None,
        },
{
    match o {
        Some(n) => Some(n as i64),
        None => None,
    }
}

/// `yes` for an explicit on, `no` for an explicit off, nothing when unset.
pub open spec fn tri_s(o: Option<bool>, yes: Seq<char>, no: Seq<char>) -> Seq<char> {
    match o {
        Some(true) => yes,
        Some(false) => no,
        None => Seq::empty(),
    }
}

pub(crate) fn tri(o: Option<bool>, yes: &str, no: &str) -> (r: String)
    ensures
        r@ == tri_s(o, yes@, no@),
{
    match o {
        Some(true) => yes.to_owned(),
        Some(false) => no.to_owned(),
        None => String::new(),
    }
}

/// `pre` + `inner` + `post`; nothing when `inner` is empty.
pub open spec fn wrap_s(pre: Seq<char>, inner: Seq<char>, post: Seq<char>) -> Seq<char> {
    if inner.len() == 0 {
        Seq::empty()
    } else {
        pre + inner + post
    }
}

pub(crate) fn wrap(pre: &str, inner: &str, post: &str) -> (r: String)
    ensures
        r@ == wrap_s(pre@, inner@, post@),
{
    if inner.is_empty() {
        String::new()
    } else {
        let mut s = pre.to_owned();
        s.append(inner);
        s.append(post);
        s
    }
}

/// `pre` + decimal + `post`.
pub open spec fn num_s(pre: Seq<char>, n: nat, post: Seq<char>) -> Seq<char> {
    pre + strs::dec_s(n) + post
}

pub(crate) fn num(pre: &str, n: u128, post: &str) -> (r: String)
    ensures
        r@ == num_s(pre@, n as nat, post@),
{
    let mut s = pre.to_owned();
    s.append(dec(n).as_str());
    s.append(post);
    s
}

pub open spec fn int_s(pre: Seq<char>, n: int, post: Seq<char>) -> Seq<char> {
    pre + strs::dec_int_s(n) + post
}

pub(crate) fn int_piece(pre: &str, n: i64, post: &str) -> (r: String)
    ensures
        r@ == int_s(pre@, n as int, post@),
{
    let mut s = pre.to_owned();
    s.append(dec_int(n).as_str());
    s.append(post);
    s
}

pub open spec fn esc_piece_s(pre: Seq<char>, x: Seq<char>, post: Seq<char>) -> Seq<char> {
    pre + esc_s(x) + post
}

pub(crate) fn esc_piece(pre: &str, x: &str, post: &str) -> (r: String)
    ensures
        r@ == esc_piece_s(pre@, x@, post@),
{
    let mut s = pre.to_owned();
    s.append(xml_escape(x).as_str());
    s.append(post);
    s
}

// ── laws of escaping ────────────────────────────────────────────────────────

/// What the five entities stand for, read from the start of `s`.
pub open spec fn unesc_s(s: Seq<char>) -> Seq<char>
    decreases s.len(),
{
    if s.len() == 0 {
        Seq::empty()
    } else if crate::search::at_s(s, "&amp;"@, 0) && "&amp;"@.len() > 0 {
        seq!['&'] + unesc_s(s.skip("&amp;"@.len() as int))
    } else if crate::search::at_s(s, "&lt;"@, 0) && "&lt;"@.len() > 0 {
        seq!['<'] + unesc_s(s.skip("&lt;"@.len() as int))
    } else if crate::search::at_s(s, "&gt;"@, 0) && "&gt;"@.len() > 0 {
        seq!['>'] + unesc_s(s.skip("&gt;"@.len() as int))
    } else if crate::search::at_s(s, "&quot;"@, 0) && "&quot;"@.len() > 0 {
        seq!['"'] + unesc_s(s.skip("&quot;"@.len() as int))
    } else if crate::search::at_s(s, "&apos;"@, 0) && "&apos;"@.len() > 0 {
        seq!['\''] + unesc_s(s.skip("&apos;"@.len() as int))
    } else {
        seq![s[0]] + unesc_s(s.drop_first())
    }
}

proof fn lemma_entities()
    ensures
        "&amp;"@ =~= seq!['&', 'a', 'm', 'p', ';'],
        "&lt;"@ =~= seq!['&', 'l', 't', ';'],
        "&gt;"@ =~= seq!['&', 'g', 't', ';'],
        "&quot;"@ =~= seq!['&', 'q', 'u', 'o', 't', ';'],
        "&apos;"@ =~= seq!['&', 'a', 'p', 'o', 's', ';'],
{
    reveal_strlit("&amp;");
    reveal_strlit("&lt;");
    reveal_strlit("&gt;");
    reveal_strlit("&quot;");
    reveal_strlit("&apos;");
}

/// Escaping piece by piece is escaping the whole.
pub proof fn lemma_esc_concat(a: Seq<char>, b: Seq<char>)
    ensures
        esc_s(a + b) == esc_s(a) + esc_s(b),
    decreases b.len(),
{
    if b.len() == 0 {
        assert(a + b =~= a);
        assert(esc_s(a) + esc_s(b) =~= esc_s(a));
    } else {
        assert((a + b).drop_last() =~= a + b.drop_last());
        lemma_esc_concat(a, b.drop_last());
        assert(esc_s(a + b) =~= esc_s(a) + esc_s(b));
    }
}

proof fn lemma_esc_one(c: char)
    ensures
        esc_s(seq![c]) == esc_char_s(c),
{
    assert(seq![c].drop_last() =~= Seq::<char>::empty());
    assert(esc_s(Seq::<char>::empty()) =~= Seq::<char>::empty());
    assert(Seq::<char>::empty() + esc_char_s(c) =~= esc_char_s(c));
    assert(seq![c].last() == c);
}

proof fn lemma_at_prefix(p: Seq<char>, rest: Seq<char>)
    ensures
        crate::search::at_s(p + rest, p, 0),
        (p + rest).skip(p.len() as int) == rest,
{
    assert((p + rest).subrange(0, p.len() as int) =~= p);
    assert((p + rest).skip(p.len() as int) =~= rest);
}

proof fn lemma_not_at(s: Seq<char>, p: Seq<char>, k: int)
    requires
        0 <= k < p.len(),
        k < s.len() ==> s[k] != p[k],
    ensures
        !crate::search::at_s(s, p, 0),
{
    if p.len() <= s.len() {
        assert(s.subrange(0, p.len() as int)[k] != p[k]);
    }
}

/// Reading the entities of an escaped text back gives the text: nothing is lost or confused.
pub proof fn law_escape_reads_back(s: Seq<char>)
    ensures
        unesc_s(esc_s(s)) == s,
    decreases s.len(),
{
    if s.len() > 0 {
        let c = s[0];
        let rest = s.drop_first();
        assert(s =~= seq![c] + rest);
        lemma_esc_concat(seq![c], rest);
        lemma_esc_one(c);
        law_escape_reads_back(rest);
        lemma_entities();
        let t = esc_char_s(c) + esc_s(rest);
        lemma_at_prefix(esc_char_s(c), esc_s(rest));
        if c == '&' {
        } else if c == '<' {
            lemma_not_at(t, "&amp;"@, 1);
        } else if c == '>' {
            lemma_not_at(t, "&amp;"@, 1);
            lemma_not_at(t, "&lt;"@, 1);
        } else if c == '"' {
            lemma_not_at(t, "&amp;"@, 1);
            lemma_not_at(t, "&lt;"@, 1);
            lemma_not_at(t, "&gt;"@, 1);
        } else if c == '\'' {
            lemma_not_at(t, "&amp;"@, 2);
            lemma_not_at(t, "&lt;"@, 1);
            lemma_not_at(t, "&gt;"@, 1);
            lemma_not_at(t, "&quot;"@, 1);
        } else {
            lemma_not_at(t, "&amp;"@, 0);
            lemma_not_at(t, "&lt;"@, 0);
            lemma_not_at(t, "&gt;"@, 0);
            lemma_not_at(t, "&quot;"@, 0);
            lemma_not_at(t, "&apos;"@, 0);
            assert(t.drop_first() =~= esc_s(rest));
        }
        assert(unesc_s(t) =~= s);
    }
}

/// Escaped text holds no markup character other than the `&` that opens an entity.
pub proof fn law_escaped_text_holds_no_markup(s: Seq<char>)
    ensures
        forall|i: int|
            0 <= i < esc_s(s).len() ==> {
                let c = #[trigger] esc_s(s)[i];
                c != '<' && c != '>' && c != '"' && c != '\''
            },
    decreases s.len(),
{
    if s.len() > 0 {
        law_escaped_text_holds_no_markup(s.drop_last());
        lemma_entities();
        let a = esc_s(s.drop_last());
        let b = esc_char_s(s.last());
        assert forall|i: int| 0 <= i < esc_s(s).len() implies ({
            let c = #[trigger] esc_s(s)[i];
            c != '<' && c != '>' && c != '"' && c != '\''
        }) by {
            if i < a.len() {
                assert(esc_s(s)[i] == a[i]);
            } else {
                assert(esc_s(s)[i] == b[i - a.len()]);
            }
        }
    }
}

} // verus!
