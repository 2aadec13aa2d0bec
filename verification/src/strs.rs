//! Text building blocks: literals, decimal numbers, comparison and search over characters.
//!
//! Every writer of the crate is a chain of appended pieces, and its contract is the same
//! chain written over `Seq<char>`.

use vstd::prelude::*;

verus! {

broadcast use vstd::string::group_string_axioms;

/// `String::push` appends the character at the end.
pub assume_specification[ String::push ](s: &mut String, c: char)
    ensures
        final(s)@ == old(s)@.push(c),
;

/// `str == str` compares the characters of the two strings.
#[verifier::external_body]
pub(crate) fn str_eq(a: &str, b: &str) -> (r: bool)
    ensures
        r == (a@ == b@),
{
    a == b
}

/// The characters of a string, as a vector.
pub(crate) fn chars_of(s: &str) -> (v: Vec<char>)
    ensures
        v@ == s@,
{
    let mut v: Vec<char> = Vec::new();
    let mut it = s.chars();
    let ghost whole = s@;
    loop
        invariant_except_break
            v@ + vstd::std_specs::iter::IteratorSpec::remaining(&it) == whole,
            vstd::std_specs::iter::IteratorSpec::obeys_prophetic_iter_laws(&it),
            vstd::std_specs::iter::IteratorSpec::decrease(&it) is Some,
        ensures
            v@ == whole,
        decreases vstd::std_specs::iter::IteratorSpec::decrease(&it)->0,
    {
        let ghost before = vstd::std_specs::iter::IteratorSpec::remaining(&it);
        match it.next() {
            Some(c) => {
                proof {
                    assert(before == seq![c] + before.drop_first());
                }
                v.push(c);
                assert(v@ + vstd::std_specs::iter::IteratorSpec::remaining(&it) =~= whole);
            },
            None => {
                assert(before.len() == 0);
                assert(v@ =~= whole);
                break;
            },
        }
    }
    v
}

/// The string made of the characters `v[from..to]`.
pub(crate) fn string_of(v: &Vec<char>, from: usize, to: usize) -> (s: String)
    requires
        from <= to <= v@.len(),
    ensures
        s@ == v@.subrange(from as int, to as int),
{
    let mut s = String::new();
    let mut i: usize = from;
    while i < to
        invariant
            from <= i <= to <= v@.len(),
            s@ == v@.subrange(from as int, i as int),
        decreases to - i,
    {
        s.push(v[i]);
        i = i + 1;
        assert(s@ =~= v@.subrange(from as int, i as int));
    }
    s
}

/// `text` when `on`, nothing otherwise.
pub open spec fn when_s(on: bool, text: Seq<char>) -> Seq<char> {
    if on {
        text
    } else {
        Seq::empty()
    }
}

pub(crate) fn only_if(on: bool, text: &str) -> (r: String)
    ensures
        r@ == when_s(on, text@),
{
    if on {
        text.to_owned()
    } else {
        String::new()
    }
}

/// The text of an optional string.
pub open spec fn opt_s(o: Option<String>) -> Option<Seq<char>> {
    match o {
        Some(s) => Some(s@),
        None => None,
    }
}

pub(crate) fn opt_eq(a: &Option<String>, b: &Option<String>) -> (r: bool)
    ensures
        r == (opt_s(*a) == opt_s(*b)),
{
    match (a, b) {
        (Some(x), Some(y)) => str_eq(x.as_str(), y.as_str()),
        (None, None) => true,
        _ => false,
    }
}

pub(crate) fn opt_is(a: &Option<String>, b: &str) -> (r: bool)
    ensures
        r == (opt_s(*a) == Some(b@)),
{
    match a {
        Some(x) => str_eq(x.as_str(), b),
        None => false,
    }
}

pub(crate) fn opt_clone(a: &Option<String>) -> (r: Option<String>)
    ensures
        opt_s(r) == opt_s(*a),
        r == *a,
{
    match a {
        Some(x) => Some(x.clone()),
        None => None,
    }
}

// ── decimal numbers ─────────────────────────────────────────────────────────

pub open spec fn digit_s(d: int) -> char {
    (48 + d) as char
}

/// The decimal digits of `n`.
pub open spec fn dec_s(n: nat) -> Seq<char>
    decreases n,
{
    if n < 10 {
        seq![digit_s(n as int)]
    } else {
        dec_s(n / 10).push(digit_s((n % 10) as int))
    }
}

/// The decimal text of a signed number: a minus sign and the digits of its magnitude.
pub open spec fn dec_int_s(n: int) -> Seq<char> {
    if n < 0 {
        seq!['-'] + dec_s((-n) as nat)
    } else {
        dec_s(n as nat)
    }
}

fn digit_char(d: u8) -> (c: char)
    requires
        d < 10,
    ensures
        c == digit_s(d as int),
{
    (48 + d) as char
}

pub(crate) fn dec(n: u128) -> (r: String)
    ensures
        r@ == dec_s(n as nat),
    decreases n,
{
    let mut s = if n < 10 {
        String::new()
    } else {
        dec(n / 10)
    };
    s.push(digit_char((n % 10) as u8));
    assert(s@ =~= dec_s(n as nat));
    s
}

pub(crate) fn dec_int(n: i64) -> (r: String)
    ensures
        r@ == dec_int_s(n as int),
{
    if n < 0 {
        let mut s = String::new();
        s.push('-');
        let m: i128 = -(n as i128);
        s.append(dec(m as u128).as_str());
        assert(s@ =~= dec_int_s(n as int));
        s
    } else {
        dec(n as u128)
    }
}

pub open spec fn is_digit_s(c: char) -> bool {
    '0' <= c <= '9'
}

/// The value of a run of decimal digits; `None` when some character is no digit.
pub open spec fn digits_s(s: Seq<char>) -> Option<nat>
    decreases s.len(),
{
    if s.len() == 0 {
        Some(0)
    } else {
        match digits_s(s.drop_last()) {
            Some(v) if is_digit_s(s.last()) => Some((v * 10 + (s.last() as int - 48)) as nat),
            _ => None,
        }
    }
}

pub open spec fn unsigned_body_s(s: Seq<char>) -> Option<nat> {
    if s.len() == 0 {
        None
    } else {
        digits_s(s)
    }
}

/// What an unsigned integer of at most `max` reads from `s`: an optional plus sign and at
/// least one digit, nothing else.
pub open spec fn parse_uint_s(s: Seq<char>, max: nat) -> Option<nat> {
    let body = if s.len() > 0 && s[0] == '+' {
        s.drop_first()
    } else {
        s
    };
    match unsigned_body_s(body) {
        Some(v) if v <= max => Some(v),
        _ => None,
    }
}

/// What a signed integer in `min..=max` reads from `s`: an optional sign and at least one
/// digit, nothing else.
pub open spec fn parse_int_s(s: Seq<char>, min: int, max: int) -> Option<int> {
    let neg = s.len() > 0 && s[0] == '-';
    let body = if s.len() > 0 && (s[0] == '+' || s[0] == '-') {
        s.drop_first()
    } else {
        s
    };
    match unsigned_body_s(body) {
        Some(v) => {
            let n = if neg {
                -(v as int)
            } else {
                v as int
            };
            if min <= n <= max {
                Some(n)
            } else {
                None
            }
        },
        None => None,
    }
}

spec fn cap_s(v: nat) -> nat {
    if v > 0x1_0000_0000_0000_0000 {
        0x1_0000_0000_0000_0000
    } else {
        v
    }
}

/// The digits `v[from..]` as a number, held at 2^64 when larger.
fn digits_capped(v: &Vec<char>, from: usize) -> (r: Option<u128>)
    requires
        from <= v@.len(),
    ensures
        match digits_s(v@.subrange(from as int, v@.len() as int)) {
            Some(n) => r == Some(cap_s(n) as u128),
            None => r is None,
        },
{
    let ghost all = v@.subrange(from as int, v@.len() as int);
    let mut acc: u128 = 0;
    let mut i: usize = from;
    while i < v.len()
        invariant
            from <= i <= v@.len(),
            all == v@.subrange(from as int, v@.len() as int),
            digits_s(all.take(i - from)) is Some,
            acc == cap_s(digits_s(all.take(i - from)).unwrap()),
        decreases v@.len() - i,
    {
        let c = v[i];
        proof {
            assert(all.take(i - from + 1).drop_last() =~= all.take(i - from));
            assert(all.take(i - from + 1).last() == c);
        }
        if !('0' <= c && c <= '9') {
            proof {
                assert(digits_s(all.take(i - from + 1)) is None);
                lemma_digits_none(all, i - from + 1);
            }
            return None;
        }
        let d: u32 = c as u32 - 48;
        let next: u128 = acc * 10 + d as u128;
        acc = if next > 0x1_0000_0000_0000_0000 {
            0x1_0000_0000_0000_0000
        } else {
            next
        };
        i = i + 1;
    }
    proof {
        assert(all.take(i - from) =~= all);
    }
    Some(acc)
}

proof fn lemma_digits_none(s: Seq<char>, n: int)
    requires
        0 <= n <= s.len(),
        digits_s(s.take(n)) is None,
    ensures
        digits_s(s) is None,
    decreases s.len() - n,
{
    if n < s.len() {
        assert(s.take(n + 1).drop_last() =~= s.take(n));
        lemma_digits_none(s, n + 1);
    } else {
        assert(s.take(n) =~= s);
    }
}

pub(crate) fn parse_uint(s: &str, max: u64) -> (r: Option<u64>)
    ensures
        match parse_uint_s(s@, max as nat) {
            Some(v) => r == Some(v as u64) && v <= max,
            None => r is None,
        },
{
    let v = chars_of(s);
    let from: usize = if v.len() > 0 && v[0] == '+' {
        1
    } else {
        0
    };
    proof {
        if from == 1 {
            assert(v@.subrange(1, v@.len() as int) =~= s@.drop_first());
        } else {
            assert(v@.subrange(0, v@.len() as int) =~= s@);
        }
    }
    if from == v.len() {
        return None;
    }
    match digits_capped(&v, from) {
        Some(n) => {
            if n <= max as u128 {
                Some(n as u64)
            } else {
                None
            }
        },
        None => None,
    }
}

pub(crate) fn parse_sint(s: &str, min: i64, max: i64) -> (r: Option<i64>)
    ensures
        match parse_int_s(s@, min as int, max as int) {
            Some(v) => r == Some(v as i64) && min <= v <= max,
            None => r is None,
        },
{
    let v = chars_of(s);
    let neg = v.len() > 0 && v[0] == '-';
    let from: usize = if v.len() > 0 && (v[0] == '+' || v[0] == '-') {
        1
    } else {
        0
    };
    proof {
        if from == 1 {
            assert(v@.subrange(1, v@.len() as int) =~= s@.drop_first());
        } else {
            assert(v@.subrange(0, v@.len() as int) =~= s@);
        }
    }
    if from == v.len() {
        return None;
    }
    match digits_capped(&v, from) {
        Some(n) => {
            let m: i128 = if neg {
                -(n as i128)
            } else {
                n as i128
            };
            if min as i128 <= m && m <= max as i128 {
                Some(m as i64)
            } else {
                None
            }
        },
        None => None,
    }
}

/// The digits of a number read back as that number.
pub proof fn lemma_dec_reads_back(n: nat)
    ensures
        digits_s(dec_s(n)) == Some(n),
        dec_s(n).len() > 0,
        forall|i: int| 0 <= i < dec_s(n).len() ==> is_digit_s(#[trigger] dec_s(n)[i]),
    decreases n,
{
    if n < 10 {
        assert(dec_s(n).drop_last() =~= Seq::empty());
        assert(digits_s(Seq::<char>::empty()) == Some(0nat));
    } else {
        lemma_dec_reads_back(n / 10);
        assert(dec_s(n).drop_last() =~= dec_s(n / 10));
    }
}

/// What the digits of a number are parsed to.
pub proof fn lemma_dec_parses(n: nat, max: nat)
    requires
        n <= max,
    ensures
        parse_uint_s(dec_s(n), max) == Some(n),
{
    lemma_dec_reads_back(n);
}

} // verus!
