//! Reading `word/styles.xml`, and the flags of `word/settings.xml`.

use vstd::prelude::*;
use crate::events;
use crate::events::{
    attr, attr_i32, attr_i64, attr_u16, attr_u32, is_tag, or_empty, read_xml, readable, tag_of,
    toggle_on, XmlEvent, XmlEventV, XmlStep, XmlStepV, XmlTag, XmlTagV,
};
use crate::search;
use crate::search::strip_prefix;
use crate::strmap;
use crate::strmap::StrMap;
use crate::strs;
use crate::strs::{chars_of, opt_is, parse_uint, str_eq};
use crate::styles;
use crate::styles::{StyleProps, StylePropsV, StyleTable, StyleTableV};
use crate::types::{
    Align, Border, BorderV, CellMargins, EdgeBorders, EdgeBordersV, LineRule,
};
use crate::types;

verus! {

broadcast use vstd::string::group_string_axioms;

// ---------------------------------------------------------------- settings

/// Whether the element asks for legacy paragraph spacing: the compatibility flag, or a
/// compatibility mode of Word 2003 or older.
pub open spec fn is_legacy_s(e: XmlEventV) -> bool {
    match events::tag_of_s(e) {
        Some(t) => (t.name == "w:doNotUseHTMLParagraphAutoSpacing"@ && events::toggle_on_s(t)) || (
        t.name == "w:compatSetting"@ && events::attr_s(t, "w:name"@) == Some("compatibilityMode"@)
            && (events::attr_u32_s(t, "w:val"@) matches Some(v) && v <= 11)),
        None => false,
    }
}

pub open spec fn legacy_spacing_s(steps: Seq<XmlStepV>) -> bool {
    exists|i: int|
        0 <= i < events::readable_s(steps, 0) && #[trigger] is_legacy_s(steps[i].event)
}

fn is_legacy(e: &XmlEvent) -> (r: bool)
    ensures
        r == is_legacy_s(e@),
{
    match tag_of(e) {
        Some(t) => {
            if is_tag(t, "w:doNotUseHTMLParagraphAutoSpacing") && toggle_on(t) {
                return true;
            }
            if is_tag(t, "w:compatSetting") {
                let name = attr(t, "w:name");
                opt_is(&name, "compatibilityMode") && match attr_u32(t, "w:val") {
                    Some(v) => v <= 11,
                    None => false,
                }
            } else {
                false
            }
        },
        None => false,
    }
}

/// Whether tokenized settings ask for legacy paragraph spacing.
pub fn legacy_spacing_of(steps: &Vec<XmlStep>) -> (r: bool)
    ensures
        r == legacy_spacing_s(events::xml_step_vs(steps@)),
{
    let n = readable(steps);
    let ghost v = events::xml_step_vs(steps@);
    let mut i: usize = 0;
    while i < n
        invariant
            i <= n <= steps@.len(),
            n == events::readable_s(v, 0),
            v == events::xml_step_vs(steps@),
            forall|j: int| 0 <= j < i ==> !#[trigger] is_legacy_s(v[j].event),
        decreases n - i,
    {
        assert(v[i as int] == steps@[i as int]@);
        if is_legacy(&steps[i].event) {
            assert(is_legacy_s(v[i as int].event));
            return true;
        }
        i = i + 1;
    }
    false
}

/// Parse `word/settings.xml` for the paragraph-spacing mode: `true` where adjacent space after
/// and space before add up instead of consolidating.
pub fn settings_legacy_spacing(xml: &[u8]) -> (r: bool)
    ensures
        r == legacy_spacing_s(events::doc_s(xml@)),
{
    legacy_spacing_of(&read_xml(xml))
}

/// The index of the first readable step from `from` on that opens one of the two elements; the
/// number of readable steps where there is none.
pub open spec fn first_of_s(steps: Seq<XmlStepV>, a: Seq<char>, b: Seq<char>, from: int) -> int
    decreases events::readable_s(steps, 0) - from,
{
    if 0 <= from < events::readable_s(steps, 0) {
        match events::tag_of_s(steps[from].event) {
            Some(t) => if t.name == a || t.name == b {
                from
            } else {
                first_of_s(steps, a, b, from + 1)
            },
            None => first_of_s(steps, a, b, from + 1),
        }
    } else {
        events::readable_s(steps, 0)
    }
}

fn first_of(steps: &Vec<XmlStep>, a: &str, b: &str) -> (r: usize)
    ensures
        r == first_of_s(events::xml_step_vs(steps@), a@, b@, 0),
        r <= steps@.len(),
        r < events::readable_s(events::xml_step_vs(steps@), 0) ==> r < steps@.len()
            && events::tag_of_s(steps@[r as int].event@) is Some,
{
    let n = readable(steps);
    let ghost v = events::xml_step_vs(steps@);
    let mut i: usize = 0;
    while i < n
        invariant
            i <= n <= steps@.len(),
            n == events::readable_s(v, 0),
            v == events::xml_step_vs(steps@),
            first_of_s(v, a@, b@, 0) == first_of_s(v, a@, b@, i as int),
        decreases n - i,
    {
        assert(v[i as int] == steps@[i as int]@);
        if let Some(t) = tag_of(&steps[i].event) {
            if is_tag(t, a) || is_tag(t, b) {
                return i;
            }
        }
        i = i + 1;
    }
    i
}

/// The page background of a document: the colour of a `w:background` before the body, unless it
/// is empty or automatic.
pub open spec fn background_s(steps: Seq<XmlStepV>) -> Option<Seq<char>> {
    let i = first_of_s(steps, "w:background"@, "w:body"@, 0);
    if i < events::readable_s(steps, 0) {
        let t = events::tag_of_s(steps[i].event)->0;
        if t.name == "w:background"@ {
            match events::attr_s(t, "w:color"@) {
                Some(c) => if c.len() > 0 && c != "auto"@ {
                    Some(c)
                } else {
                    None
                },
                None => None,
            }
        } else {
            None
        }
    } else {
        None
    }
}

/// The page background of a tokenized document.
pub fn background_of(steps: &Vec<XmlStep>) -> (r: Option<String>)
    ensures
        strs::opt_s(r) == background_s(events::xml_step_vs(steps@)),
{
    let n = readable(steps);
    let i = first_of(steps, "w:background", "w:body");
    if i < n {
        assert(events::xml_step_vs(steps@)[i as int] == steps@[i as int]@);
        if let Some(t) = tag_of(&steps[i].event) {
            if is_tag(t, "w:background") {
                if let Some(c) = attr(t, "w:color") {
                    if c.as_str().unicode_len() > 0 && !str_eq(c.as_str(), "auto") {
                        return Some(c);
                    }
                }
            }
        }
    }
    None
}

/// Parse the document-level page background colour as hex.
pub fn parse_background(xml: &[u8]) -> (r: Option<String>)
    ensures
        strs::opt_s(r) == background_s(events::doc_s(xml@)),
{
    background_of(&read_xml(xml))
}

/// Whether the settings display the page background: the first `w:displayBackgroundShape`
/// decides.
pub open spec fn display_background_s(steps: Seq<XmlStepV>) -> bool {
    let name = "w:displayBackgroundShape"@;
    let i = first_of_s(steps, name, name, 0);
    i < events::readable_s(steps, 0) && events::toggle_on_s(events::tag_of_s(steps[i].event)->0)
}

/// Whether tokenized settings display the page background.
pub fn display_background_of(steps: &Vec<XmlStep>) -> (r: bool)
    ensures
        r == display_background_s(events::xml_step_vs(steps@)),
{
    let n = readable(steps);
    let i = first_of(steps, "w:displayBackgroundShape", "w:displayBackgroundShape");
    if i < n {
        assert(events::xml_step_vs(steps@)[i as int] == steps@[i as int]@);
        match tag_of(&steps[i].event) {
            Some(t) => toggle_on(t),
            None => false,
        }
    } else {
        false
    }
}

/// Whether `word/settings.xml` opts into displaying the page background.
pub fn settings_display_background(xml: &[u8]) -> (r: bool)
    ensures
        r == display_background_s(events::doc_s(xml@)),
{
    display_background_of(&read_xml(xml))
}

// ---------------------------------------------------------------- borders

/// The text unless it is `not`.
pub open spec fn unless_s(o: Option<Seq<char>>, not: Seq<char>) -> Option<Seq<char>> {
    match o {
        Some(x) => if x == not {
            None
        } else {
            Some(x)
        },
        None => None,
    }
}

pub(crate) fn unless(o: Option<String>, not: &str) -> (r: Option<String>)
    ensures
        strs::opt_s(r) == unless_s(strs::opt_s(o), not@),
{
    match o {
        Some(x) => if str_eq(x.as_str(), not) {
            None
        } else {
            Some(x)
        },
        None => None,
    }
}

/// The border that an edge element describes; none for an absent, `none` or `nil` line.
pub open spec fn border_s(t: XmlTagV) -> Option<BorderV> {
    let v = events::attr_s(t, "w:val"@);
    if v is None || v == Some("none"@) || v == Some("nil"@) {
        None
    } else {
        Some(
            BorderV {
                size_eighths: events::or_s(events::attr_u16_s(t, "w:sz"@), 4),
                color: events::or_s(
                    unless_s(events::attr_s(t, "w:color"@), "auto"@),
                    "000000"@,
                ),
            },
        )
    }
}

/// Parse one border edge element.
pub(crate) fn parse_border(t: &XmlTag) -> (r: Option<Border>)
    ensures
        types::border_ov(r) == border_s(t@),
{
    let v = attr(t, "w:val");
    if v.is_none() || opt_is(&v, "none") || opt_is(&v, "nil") {
        return None;
    }
    let size_eighths: u16 = match attr_u16(t, "w:sz") {
        Some(n) => n,
        None => 4,
    };
    let color = match unless(attr(t, "w:color"), "auto") {
        Some(c) => c,
        None => "000000".to_string(),
    };
    Some(Border { size_eighths, color })
}

// ---------------------------------------------------------------- shading

/// The value of a hexadecimal digit.
pub open spec fn hex_digit_s(c: char) -> Option<nat> {
    if '0' <= c <= '9' {
        Some((c as int - '0' as int) as nat)
    } else if 'a' <= c <= 'f' {
        Some((c as int - 'a' as int + 10) as nat)
    } else if 'A' <= c <= 'F' {
        Some((c as int - 'A' as int + 10) as nat)
    } else {
        None
    }
}

/// The value of a run of hexadecimal digits.
pub open spec fn hex_digits_s(s: Seq<char>) -> Option<nat>
    decreases s.len(),
{
    if s.len() == 0 {
        Some(0)
    } else {
        match (hex_digits_s(s.drop_last()), hex_digit_s(s.last())) {
            (Some(v), Some(d)) => Some(v * 16 + d),
            _ => None,
        }
    }
}

/// The number that six bytes of hexadecimal text state (a leading plus sign is allowed).
pub open spec fn hex6_s(s: Seq<char>) -> Option<nat> {
    if s.len() == 6 {
        if s[0] == '+' {
            hex_digits_s(s.subrange(1, 6))
        } else {
            hex_digits_s(s)
        }
    } else {
        None
    }
}

/// The three components of a colour.
pub struct Rgb {
    pub r: u8,
    pub g: u8,
    pub b: u8,
}

/// The colour of a hexadecimal text, or the fallback `dflt` for each component.
pub open spec fn rgb_s(h: Option<Seq<char>>, dflt: u8) -> Rgb {
    match h {
        Some(s) => match hex6_s(s) {
            Some(n) => Rgb {
                r: (n / 65536 % 256) as u8,
                g: (n / 256 % 256) as u8,
                b: (n % 256) as u8,
            },
            None => Rgb { r: dflt, g: dflt, b: dflt },
        },
        None => Rgb { r: dflt, g: dflt, b: dflt },
    }
}

/// An upper-case hexadecimal digit.
pub open spec fn hex_char_s(d: int) -> char {
    if d < 10 {
        (d + '0' as int) as char
    } else {
        (d - 10 + 'A' as int) as char
    }
}

/// Two upper-case hexadecimal digits.
pub open spec fn hex2_s(v: u8) -> Seq<char> {
    seq![hex_char_s(v as int / 16), hex_char_s(v as int % 16)]
}

pub open spec fn hex_s(c: Rgb) -> Seq<char> {
    hex2_s(c.r) + hex2_s(c.g) + hex2_s(c.b)
}

/// The weight of the last bit of `v` when `v` is held to 24 significant bits.
pub open spec fn ulp_s(v: nat) -> nat
    decreases v,
{
    if v < 0x100_0000 {
        1
    } else {
        2 * ulp_s(v / 2)
    }
}

/// `n / d` rounded to the nearest integer, ties to even.
pub open spec fn round_div_s(n: nat, d: nat) -> nat {
    let q = n / d;
    let r = n % d;
    if 2 * r > d || (2 * r == d && q % 2 == 1) {
        q + 1
    } else {
        q
    }
}

/// `v` rounded to 24 significant bits, ties to even: the precision of a single-precision number.
pub open spec fn round24_s(v: nat) -> nat {
    round_div_s(v, ulp_s(v)) * ulp_s(v)
}

/// `pct` percent in units of 2^-30, to 24 significant bits.
pub open spec fn weight_s(pct: nat) -> nat {
    let n = pct * 0x4000_0000;
    let u = ulp_s(n / 100);
    round_div_s(n, 100 * u) * u
}

/// `pct` percent of `a` blended over `b`, every step held to 24 significant bits, and the sum
/// rounded half up.
pub open spec fn mix_s(a: nat, b: nat, pct: nat) -> nat {
    let t = weight_s(pct);
    let rest = round24_s((0x4000_0000 - t) as nat);
    let sum = round24_s(round24_s(a * t) + round24_s(b * rest));
    (sum + 0x2000_0000) / 0x4000_0000
}

/// The blend of one component as a byte.
pub open spec fn mix8_s(a: u8, b: u8, pct: nat) -> u8 {
    let m = mix_s(a as nat, b as nat, pct);
    if m > 255 {
        255
    } else {
        m as u8
    }
}

/// The pattern percentage of a `pctNN` shading, at most 100.
pub open spec fn pct_of_s(val: Seq<char>) -> Option<nat> {
    match search::strip_prefix_s(val, "pct"@) {
        Some(p) => match strs::parse_uint_s(p, u32::MAX as nat) {
            Some(n) => Some(
                if n > 100 {
                    100
                } else {
                    n
                },
            ),
            None => None,
        },
        None => None,
    }
}

pub open spec fn upper_char_s(c: char) -> char {
    if 'a' <= c <= 'z' {
        (c as int - 32) as char
    } else {
        c
    }
}

pub open spec fn upper_s(s: Seq<char>) -> Seq<char> {
    Seq::new(s.len(), |i: int| upper_char_s(s[i]))
}

/// The colour that a `w:shd` shows: a `pctNN` pattern blends the pattern colour (black by
/// default) over the fill (white by default), `solid` shows the pattern colour, anything else
/// the fill, if it is six bytes long.
pub open spec fn shd_hex_s(
    val: Option<Seq<char>>,
    color: Option<Seq<char>>,
    fill: Option<Seq<char>>,
) -> Option<Seq<char>> {
    let v = events::or_s(val, "clear"@);
    match pct_of_s(v) {
        Some(p) => {
            let c = rgb_s(color, 0);
            let f = rgb_s(fill, 255);
            Some(
                hex_s(
                    Rgb {
                        r: mix8_s(c.r, f.r, p),
                        g: mix8_s(c.g, f.g, p),
                        b: mix8_s(c.b, f.b, p),
                    },
                ),
            )
        },
        None => if v == "solid"@ {
            Some(hex_s(rgb_s(color, 0)))
        } else {
            match fill {
                Some(f) => if vstd::utf8::encode_utf8(f).len() == 6 {
                    Some(upper_s(f))
                } else {
                    None
                },
                None => None,
            }
        },
    }
}

fn hex_digit(c: char) -> (r: Option<u8>)
    ensures
        r matches Some(d) ==> hex_digit_s(c) == Some(d as nat) && d < 16,
        r is None ==> hex_digit_s(c) is None,
{
    if '0' <= c && c <= '9' {
        Some((c as u32 - '0' as u32) as u8)
    } else if 'a' <= c && c <= 'f' {
        Some((c as u32 - 'a' as u32 + 10) as u8)
    } else if 'A' <= c && c <= 'F' {
        Some((c as u32 - 'A' as u32 + 10) as u8)
    } else {
        None
    }
}

proof fn lemma_hex_none(s: Seq<char>, n: int)
    requires
        0 <= n <= s.len(),
        hex_digits_s(s.subrange(0, n)) is None,
    ensures
        hex_digits_s(s) is None,
    decreases s.len() - n,
{
    if n < s.len() {
        assert(s.subrange(0, n + 1).drop_last() =~= s.subrange(0, n));
        lemma_hex_none(s, n + 1);
    } else {
        assert(s.subrange(0, n) =~= s);
    }
}

/// The number that the characters from `from` on state, at most six of them.
fn hex_digits(v: &Vec<char>, from: usize) -> (r: Option<u32>)
    requires
        from <= v@.len() <= 6,
    ensures
        r matches Some(n) ==> hex_digits_s(v@.subrange(from as int, v@.len() as int)) == Some(
            n as nat,
        ),
        r is None ==> hex_digits_s(v@.subrange(from as int, v@.len() as int)) is None,
{
    let ghost s = v@.subrange(from as int, v@.len() as int);
    let mut n: u32 = 0;
    let mut i: usize = from;
    let mut cap: Ghost<nat> = Ghost(1);
    assert(s.subrange(0, 0) =~= Seq::empty());
    while i < v.len()
        invariant
            from <= i <= v@.len() <= 6,
            s == v@.subrange(from as int, v@.len() as int),
            hex_digits_s(s.subrange(0, i - from)) == Some(n as nat),
            n < cap@,
            i - from == 0 ==> cap@ == 1,
            i - from == 1 ==> cap@ == 16,
            i - from == 2 ==> cap@ == 256,
            i - from == 3 ==> cap@ == 4096,
            i - from == 4 ==> cap@ == 65536,
            i - from == 5 ==> cap@ == 1048576,
            i - from == 6 ==> cap@ == 16777216,
        decreases v@.len() - i,
    {
        proof {
            assert(s.subrange(0, i - from + 1).drop_last() =~= s.subrange(0, i - from));
            assert(s.subrange(0, i - from + 1).last() == v@[i as int]);
        }
        match hex_digit(v[i]) {
            Some(d) => {
                n = n * 16 + d as u32;
                proof {
                    cap@ = cap@ * 16;
                }
            },
            None => {
                proof {
                    lemma_hex_none(s, i - from + 1);
                }
                return None;
            },
        }
        i = i + 1;
    }
    assert(s.subrange(0, i - from) =~= s);
    Some(n)
}

fn rgb(h: &Option<String>, dflt: u8) -> (r: Rgb)
    ensures
        r == rgb_s(strs::opt_s(*h), dflt),
{
    if let Some(s) = h {
        let v = chars_of(s.as_str());
        if v.len() == 6 {
            let n = if v[0] == '+' {
                hex_digits(&v, 1)
            } else {
                let n = hex_digits(&v, 0);
                assert(v@.subrange(0, 6) =~= v@);
                n
            };
            if let Some(n) = n {
                return Rgb {
                    r: (n / 65536 % 256) as u8,
                    g: (n / 256 % 256) as u8,
                    b: (n % 256) as u8,
                };
            }
        }
    }
    Rgb { r: dflt, g: dflt, b: dflt }
}

pub(crate) fn hex_char(d: u8) -> (r: char)
    requires
        d < 16,
    ensures
        r == hex_char_s(d as int),
{
    if d < 10 {
        (d + 48) as char
    } else {
        (d - 10 + 65) as char
    }
}

fn hex(c: &Rgb) -> (r: String)
    ensures
        r@ == hex_s(*c),
{
    let mut s = String::new();
    s.push(hex_char(c.r / 16));
    s.push(hex_char(c.r % 16));
    s.push(hex_char(c.g / 16));
    s.push(hex_char(c.g % 16));
    s.push(hex_char(c.b / 16));
    s.push(hex_char(c.b % 16));
    assert(s@ =~= hex_s(*c));
    s
}

fn ulp(v: u64) -> (r: u64)
    requires
        v < 0x100_0000_0000,
    ensures
        r == ulp_s(v as nat),
        r == 1 || r * 0x80_0000 <= v,
        r >= 1,
    decreases v,
{
    if v < 0x100_0000 {
        1
    } else {
        let h = ulp(v / 2);
        2 * h
    }
}

fn round_div(n: u64, d: u64) -> (r: u64)
    requires
        0 < d < 0x100_0000_0000,
        n < 0x100_0000_0000_0000,
    ensures
        r == round_div_s(n as nat, d as nat),
        r <= n + 1,
{
    let q = n / d;
    let rem = n % d;
    assert(q <= n) by (nonlinear_arith)
        requires
            q == n / d,
            d >= 1,
    ;
    if 2 * rem > d || (2 * rem == d && q % 2 == 1) {
        q + 1
    } else {
        q
    }
}

proof fn lemma_product_fits(q: nat, u: nat, a: nat, b: nat)
    by (nonlinear_arith)
    requires
        q <= a,
        u <= b,
    ensures
        q * u <= a * b,
{
}

/// Rounding to a multiple of `u` moves a number by at most `u`.
proof fn lemma_rounded(v: nat, u: nat)
    requires
        u >= 1,
    ensures
        round_div_s(v, u) * u <= v + u,
{
    let q = v / u;
    assert(q * u <= v) by (nonlinear_arith)
        requires
            q == v / u,
            u >= 1,
    ;
    assert((q + 1) * u == q * u + u) by (nonlinear_arith);
}

fn round24(v: u64) -> (r: u64)
    requires
        v < 0x100_0000_0000,
    ensures
        r == round24_s(v as nat),
        r <= v + 0x2_0000,
{
    let u = ulp(v);
    let q = round_div(v, u);
    proof {
        lemma_rounded(v as nat, u as nat);
        assert(u <= 0x2_0000);
    }
    q * u
}

proof fn lemma_weight(pct: nat)
    requires
        pct <= 100,
    ensures
        weight_s(pct) <= 0x4000_0000,
        1 <= ulp_s((pct * 0x4000_0000) / 100) <= 128,
{
    let n = pct * 0x4000_0000;
    let u = ulp_s(n / 100);
    reveal_with_fuel(ulp_s, 9);
    assert(u == 1 || u == 2 || u == 4 || u == 8 || u == 16 || u == 32 || u == 64 || u == 128);
    let top: nat = if u == 1 {
        0x4000_0000
    } else if u == 2 {
        0x2000_0000
    } else if u == 4 {
        0x1000_0000
    } else if u == 8 {
        0x800_0000
    } else if u == 16 {
        0x400_0000
    } else if u == 32 {
        0x200_0000
    } else if u == 64 {
        0x100_0000
    } else {
        0x80_0000
    };
    assert(top * u == 0x4000_0000);
    assert((100 * u) * top == 100 * (top * u)) by (nonlinear_arith);
    lemma_round_div_below(n, 100 * u, top);
    lemma_product_fits(round_div_s(n, 100 * u), u, top, u);
}

proof fn lemma_round_div_below(n: nat, d: nat, top: nat)
    requires
        d >= 1,
        n <= d * top,
    ensures
        round_div_s(n, d) <= top,
{
    let q = n / d;
    let r = n % d;
    assert(n == d * q + r && 0 <= r) by (nonlinear_arith)
        requires
            q == n / d,
            r == n % d,
            d >= 1,
    ;
    if q >= top {
        assert(d * q >= d * top) by (nonlinear_arith)
            requires
                q >= top,
                d >= 1,
        ;
        assert(r == 0 && d * q == d * top);
        assert(q == top) by (nonlinear_arith)
            requires
                d * q == d * top,
                d >= 1,
        ;
    }
}

fn weight(pct: u64) -> (r: u64)
    requires
        pct <= 100,
    ensures
        r == weight_s(pct as nat),
        r <= 0x4000_0000,
{
    proof {
        lemma_weight(pct as nat);
    }
    let n = pct * 0x4000_0000;
    let u = ulp(n / 100);
    let q = round_div(n, 100 * u);
    proof {
        assert(q * u == weight_s(pct as nat));
    }
    q * u
}

fn mix8(a: u8, b: u8, pct: u64) -> (r: u8)
    requires
        pct <= 100,
    ensures
        r == mix8_s(a, b, pct as nat),
{
    let t = weight(pct);
    let rest = round24(0x4000_0000 - t);
    proof {
        lemma_product_fits(a as nat, t as nat, 255, 0x4000_0000);
        lemma_product_fits(b as nat, rest as nat, 255, 0x4002_0000);
    }
    let x = round24(a as u64 * t);
    let y = round24(b as u64 * rest);
    let sum = round24(x + y);
    let m = (sum + 0x2000_0000) / 0x4000_0000;
    if m > 255 {
        255
    } else {
        m as u8
    }
}

fn pct_of(val: &str) -> (r: Option<u64>)
    ensures
        r matches Some(p) ==> pct_of_s(val@) == Some(p as nat) && p <= 100,
        r is None ==> pct_of_s(val@) is None,
{
    match strip_prefix(val, "pct") {
        Some(p) => match parse_uint(p.as_str(), u32::MAX as u64) {
            Some(n) => Some(
                if n > 100 {
                    100
                } else {
                    n
                },
            ),
            None => None,
        },
        None => None,
    }
}

fn upper(s: &str) -> (r: String)
    ensures
        r@ == upper_s(s@),
{
    let v = chars_of(s);
    let mut out = String::new();
    let mut i: usize = 0;
    while i < v.len()
        invariant
            i <= v@.len(),
            v@ == s@,
            out@ == upper_s(s@).subrange(0, i as int),
        decreases v@.len() - i,
    {
        let c = v[i];
        let u = if 'a' <= c && c <= 'z' {
            (c as u8 - 32) as char
        } else {
            c
        };
        out.push(u);
        i = i + 1;
        assert(out@ =~= upper_s(s@).subrange(0, i as int));
    }
    assert(upper_s(s@).subrange(0, i as int) =~= upper_s(s@));
    out
}

/// Reduce a `w:shd` to an effective RGB hex.
pub fn shd_effective_hex(
    val: &Option<String>,
    color: &Option<String>,
    fill: &Option<String>,
) -> (r: Option<String>)
    ensures
        strs::opt_s(r) == shd_hex_s(strs::opt_s(*val), strs::opt_s(*color), strs::opt_s(*fill)),
{
    let v = match val {
        Some(v) => v.clone(),
        None => "clear".to_string(),
    };
    match pct_of(v.as_str()) {
        Some(p) => {
            let c = rgb(color, 0);
            let f = rgb(fill, 255);
            Some(
                hex(
                    &Rgb {
                        r: mix8(c.r, f.r, p),
                        g: mix8(c.g, f.g, p),
                        b: mix8(c.b, f.b, p),
                    },
                ),
            )
        },
        None => if str_eq(v.as_str(), "solid") {
            Some(hex(&rgb(color, 0)))
        } else {
            match fill {
                Some(f) => if f.as_str().as_bytes().len() == 6 {
                    Some(upper(f.as_str()))
                } else {
                    None
                },
                None => None,
            }
        },
    }
}

// ---------------------------------------------------------------- styles

/// What reading `word/styles.xml` has gathered: the table so far, and the style being read.
pub struct StyleReader {
    pub table: StyleTable,
    /// The properties of the active document defaults or style.
    pub cur: StyleProps,
    /// Set while inside a `w:style`.
    pub cur_id: Option<String>,
    pub cur_based_on: Option<String>,
    pub cur_type: Option<String>,
    pub cur_default: Option<String>,
    pub cur_name: Option<String>,
    pub cur_qformat: bool,
    pub in_rpr: bool,
    pub in_ppr: bool,
    /// Inside a conditional band, whose borders do not count.
    pub in_cond: bool,
    pub cur_cond_type: Option<String>,
    pub in_tbl_borders: bool,
    pub in_tbl_cellmar: bool,
    pub in_pbdr: bool,
    pub in_tabs: bool,
    pub tbl_borders: EdgeBorders,
    pub tbl_cellmar: CellMargins,
    pub first_row_shd: Option<String>,
    pub pbdr: Vec<String>,
}

/// The mathematical value of a [`StyleReader`].
#[verifier::ext_equal]
pub struct StyleReaderV {
    pub table: StyleTableV,
    pub cur: StylePropsV,
    pub cur_id: Option<Seq<char>>,
    pub cur_based_on: Option<Seq<char>>,
    pub cur_type: Option<Seq<char>>,
    pub cur_default: Option<Seq<char>>,
    pub cur_name: Option<Seq<char>>,
    pub cur_qformat: bool,
    pub in_rpr: bool,
    pub in_ppr: bool,
    pub in_cond: bool,
    pub cur_cond_type: Option<Seq<char>>,
    pub in_tbl_borders: bool,
    pub in_tbl_cellmar: bool,
    pub in_pbdr: bool,
    pub in_tabs: bool,
    pub tbl_borders: EdgeBordersV,
    pub tbl_cellmar: CellMargins,
    pub first_row_shd: Option<Seq<char>>,
    pub pbdr: Seq<Seq<char>>,
}

impl View for StyleReader {
    type V = StyleReaderV;

    open spec fn view(&self) -> StyleReaderV {
        StyleReaderV {
            table: self.table@,
            cur: self.cur@,
            cur_id: strs::opt_s(self.cur_id),
            cur_based_on: strs::opt_s(self.cur_based_on),
            cur_type: strs::opt_s(self.cur_type),
            cur_default: strs::opt_s(self.cur_default),
            cur_name: strs::opt_s(self.cur_name),
            cur_qformat: self.cur_qformat,
            in_rpr: self.in_rpr,
            in_ppr: self.in_ppr,
            in_cond: self.in_cond,
            cur_cond_type: strs::opt_s(self.cur_cond_type),
            in_tbl_borders: self.in_tbl_borders,
            in_tbl_cellmar: self.in_tbl_cellmar,
            in_pbdr: self.in_pbdr,
            in_tabs: self.in_tabs,
            tbl_borders: self.tbl_borders@,
            tbl_cellmar: self.tbl_cellmar,
            first_row_shd: strs::opt_s(self.first_row_shd),
            pbdr: search::texts_s(self.pbdr@),
        }
    }
}

impl StyleReaderV {
    pub open spec fn initial() -> StyleReaderV {
        StyleReaderV {
            table: StyleTableV::initial(),
            cur: StylePropsV::initial(),
            cur_id: None,
            cur_based_on: None,
            cur_type: None,
            cur_default: None,
            cur_name: None,
            cur_qformat: false,
            in_rpr: false,
            in_ppr: false,
            in_cond: false,
            cur_cond_type: None,
            in_tbl_borders: false,
            in_tbl_cellmar: false,
            in_pbdr: false,
            in_tabs: false,
            tbl_borders: EdgeBordersV::initial(),
            tbl_cellmar: CellMargins::initial(),
            first_row_shd: None,
            pbdr: Seq::empty(),
        }
    }
}

/// The text unless it is empty.
pub open spec fn nonempty_s(o: Option<Seq<char>>) -> Option<Seq<char>> {
    match o {
        Some(x) => if x.len() == 0 {
            None
        } else {
            Some(x)
        },
        None => None,
    }
}

pub(crate) fn nonempty(o: Option<String>) -> (r: Option<String>)
    ensures
        strs::opt_s(r) == nonempty_s(strs::opt_s(o)),
{
    match o {
        Some(x) => if x.as_str().unicode_len() == 0 {
            None
        } else {
            Some(x)
        },
        None => None,
    }
}

/// The line rule that an attribute names.
pub open spec fn line_rule_s(o: Option<Seq<char>>) -> Option<LineRule> {
    match o {
        Some(x) => LineRule::from_ooxml_s(x),
        None => None,
    }
}

/// The properties with what a `w:spacing` states. A minimum line height is not modelled and
/// leaves the line spacing alone.
pub open spec fn with_spacing_s(p: StylePropsV, t: XmlTagV) -> StylePropsV {
    let rule = line_rule_s(events::attr_s(t, "w:lineRule"@));
    let spaced = StylePropsV {
        space_before: events::attr_u32_s(t, "w:before"@),
        space_after: events::attr_u32_s(t, "w:after"@),
        ..p
    };
    if rule == Some(LineRule::AtLeast) {
        spaced
    } else {
        StylePropsV { line_spacing: events::attr_u16_s(t, "w:line"@), line_rule: rule, ..spaced }
    }
}

/// The properties with what a modelled run-property element states.
pub open spec fn with_run_prop_s(p: StylePropsV, t: XmlTagV) -> StylePropsV {
    if t.name == "w:b"@ {
        StylePropsV { bold: Some(events::toggle_on_s(t)), ..p }
    } else if t.name == "w:i"@ {
        StylePropsV { italic: Some(events::toggle_on_s(t)), ..p }
    } else if t.name == "w:sz"@ {
        StylePropsV { size: styles::later_s(p.size, events::attr_u16_s(t, "w:val"@)), ..p }
    } else if t.name == "w:color"@ {
        StylePropsV { color: unless_s(events::attr_s(t, "w:val"@), "auto"@), ..p }
    } else if t.name == "w:highlight"@ {
        StylePropsV { highlight: nonempty_s(events::attr_s(t, "w:val"@)), ..p }
    } else {
        StylePropsV { font: styles::later_s(p.font, events::attr_s(t, "w:ascii"@)), ..p }
    }
}

/// Whether the element is a modelled run property.
pub open spec fn is_run_prop_s(n: Seq<char>) -> bool {
    n == "w:b"@ || n == "w:i"@ || n == "w:sz"@ || n == "w:color"@ || n == "w:highlight"@ || n
        == "w:rFonts"@
}

/// A paragraph-property element: numbering, alignment, the keep and break flags, and indents.
pub open spec fn with_para_prop_s(p: StylePropsV, t: XmlTagV) -> StylePropsV {
    if t.name == "w:numId"@ {
        StylePropsV { num_id: events::attr_i32_s(t, "w:val"@), ..p }
    } else if t.name == "w:ilvl"@ {
        StylePropsV { num_ilvl: events::attr_i32_s(t, "w:val"@), ..p }
    } else if t.name == "w:jc"@ {
        StylePropsV {
            align: match events::attr_s(t, "w:val"@) {
                Some(v) => Align::from_ooxml_s(v),
                None => None,
            },
            ..p
        }
    } else if t.name == "w:keepNext"@ {
        StylePropsV { keep_next: Some(events::toggle_on_s(t)), ..p }
    } else if t.name == "w:pageBreakBefore"@ {
        StylePropsV { page_break_before: Some(events::toggle_on_s(t)), ..p }
    } else if t.name == "w:contextualSpacing"@ {
        StylePropsV { contextual_spacing: Some(events::toggle_on_s(t)), ..p }
    } else {
        StylePropsV {
            indent_left: styles::later_s(p.indent_left, side_s(t, "w:left"@, "w:start"@)),
            indent_right: styles::later_s(p.indent_right, side_s(t, "w:right"@, "w:end"@)),
            ..p
        }
    }
}

pub open spec fn is_para_prop_s(n: Seq<char>) -> bool {
    n == "w:numId"@ || n == "w:ilvl"@ || n == "w:jc"@ || n == "w:keepNext"@ || n
        == "w:pageBreakBefore"@ || n == "w:contextualSpacing"@ || n == "w:ind"@
}

/// An indent under either of its two attribute names; the first one present decides.
pub open spec fn side_s(t: XmlTagV, a: Seq<char>, b: Seq<char>) -> Option<i32> {
    if events::attr_s(t, a) is Some {
        events::attr_i32_s(t, a)
    } else {
        events::attr_i32_s(t, b)
    }
}

/// A tab position: never negative, and reduced to 32 bits.
pub open spec fn tab_pos_s(p: i64) -> u32 {
    if p < 0 {
        0
    } else {
        (p as int % 0x1_0000_0000) as u32
    }
}

/// The kind of a tab stop; a bar is none.
pub open spec fn tab_kind_s(val: Seq<char>) -> Option<u8> {
    if val == "center"@ {
        Some(1)
    } else if val == "right"@ || val == "end"@ {
        Some(2)
    } else if val == "decimal"@ {
        Some(3)
    } else if val == "bar"@ {
        None
    } else {
        Some(0)
    }
}

/// The properties with one more tab stop, or with one more position to clear.
pub open spec fn with_tab_s(p: StylePropsV, t: XmlTagV) -> StylePropsV {
    let val = events::or_empty_s(events::attr_s(t, "w:val"@));
    match events::attr_i64_s(t, "w:pos"@) {
        Some(x) => if val == "clear"@ {
            StylePropsV { tab_clears: p.tab_clears.push(tab_pos_s(x)), ..p }
        } else {
            match tab_kind_s(val) {
                Some(k) => StylePropsV {
                    tab_stops: p.tab_stops.push(tab_pos_s(x)),
                    tab_kinds: p.tab_kinds.push(k),
                    ..p
                },
                None => p,
            }
        },
        None => p,
    }
}

pub open spec fn is_side_s(n: Seq<char>) -> bool {
    n == "w:top"@ || n == "w:left"@ || n == "w:bottom"@ || n == "w:right"@
}

/// The compact form of one paragraph border edge; nothing where there is no line.
pub open spec fn pbdr_edge_s(t: XmlTagV) -> Option<Seq<char>> {
    let val = events::or_empty_s(events::attr_s(t, "w:val"@));
    if val.len() == 0 || val == "none"@ || val == "nil"@ {
        None
    } else {
        let edge = if t.name == "w:top"@ {
            "t="@
        } else if t.name == "w:left"@ {
            "l="@
        } else if t.name == "w:bottom"@ {
            "b="@
        } else {
            "r="@
        };
        Some(
            edge + val + ","@ + events::or_s(events::attr_s(t, "w:sz"@), "4"@) + ","@
                + events::or_s(events::attr_s(t, "w:space"@), "0"@) + ","@ + events::or_s(
                events::attr_s(t, "w:color"@),
                "auto"@,
            ),
        )
    }
}

pub open spec fn with_margin_s(m: CellMargins, n: Seq<char>, w: Option<u32>) -> CellMargins {
    if n == "w:top"@ {
        CellMargins { top: w, ..m }
    } else if n == "w:left"@ {
        CellMargins { left: w, ..m }
    } else if n == "w:bottom"@ {
        CellMargins { bottom: w, ..m }
    } else {
        CellMargins { right: w, ..m }
    }
}

pub open spec fn with_edge_s(e: EdgeBordersV, n: Seq<char>, b: Option<BorderV>) -> EdgeBordersV {
    if n == "w:top"@ {
        EdgeBordersV { top: b, ..e }
    } else if n == "w:left"@ {
        EdgeBordersV { left: b, ..e }
    } else if n == "w:bottom"@ {
        EdgeBordersV { bottom: b, ..e }
    } else if n == "w:right"@ {
        EdgeBordersV { right: b, ..e }
    } else if n == "w:insideH"@ {
        EdgeBordersV { inside_h: b, ..e }
    } else {
        EdgeBordersV { inside_v: b, ..e }
    }
}

pub open spec fn is_edge_s(n: Seq<char>) -> bool {
    is_side_s(n) || n == "w:insideH"@ || n == "w:insideV"@
}

/// What an opening tag does.
pub open spec fn style_start_s(s: StyleReaderV, t: XmlTagV) -> StyleReaderV {
    let n = t.name;
    if n == "w:docDefaults"@ {
        StyleReaderV { cur: StylePropsV::initial(), ..s }
    } else if n == "w:style"@ {
        StyleReaderV {
            cur_id: events::attr_s(t, "w:styleId"@),
            cur_based_on: None,
            cur_type: events::attr_s(t, "w:type"@),
            cur_default: events::attr_s(t, "w:default"@),
            cur_name: None,
            cur_qformat: false,
            cur: StylePropsV::initial(),
            tbl_borders: EdgeBordersV::initial(),
            tbl_cellmar: CellMargins::initial(),
            first_row_shd: None,
            in_cond: false,
            cur_cond_type: None,
            in_tbl_borders: false,
            in_tbl_cellmar: false,
            ..s
        }
    } else if n == "w:rPr"@ {
        StyleReaderV { in_rpr: true, ..s }
    } else if n == "w:pPr"@ {
        StyleReaderV { in_ppr: true, ..s }
    } else if n == "w:tblStylePr"@ {
        StyleReaderV { in_cond: true, cur_cond_type: events::attr_s(t, "w:type"@), ..s }
    } else if n == "w:tblBorders"@ && s.cur_id is Some && !s.in_cond {
        StyleReaderV { in_tbl_borders: true, ..s }
    } else if n == "w:tblCellMar"@ && s.cur_id is Some && !s.in_cond {
        StyleReaderV { in_tbl_cellmar: true, ..s }
    } else if n == "w:pBdr"@ && s.in_ppr && !s.in_cond {
        StyleReaderV { in_pbdr: true, pbdr: Seq::empty(), ..s }
    } else if n == "w:tabs"@ && s.in_ppr && !s.in_cond {
        StyleReaderV { in_tabs: true, ..s }
    } else if s.in_rpr && (n == "w:b"@ || n == "w:i"@) {
        StyleReaderV { cur: with_run_prop_s(s.cur, t), ..s }
    } else {
        s
    }
}

/// What a self-closing tag does: a property of the style being read, by where it stands.
pub open spec fn style_empty_s(s: StyleReaderV, t: XmlTagV) -> StyleReaderV {
    let n = t.name;
    if s.in_rpr && is_run_prop_s(n) {
        StyleReaderV { cur: with_run_prop_s(s.cur, t), ..s }
    } else if s.in_ppr && n == "w:spacing"@ {
        StyleReaderV { cur: with_spacing_s(s.cur, t), ..s }
    } else if s.in_ppr && is_para_prop_s(n) {
        StyleReaderV { cur: with_para_prop_s(s.cur, t), ..s }
    } else if s.in_tabs && n == "w:tab"@ {
        StyleReaderV { cur: with_tab_s(s.cur, t), ..s }
    } else if s.in_pbdr && is_side_s(n) {
        match pbdr_edge_s(t) {
            Some(e) => StyleReaderV { pbdr: s.pbdr.push(e), ..s },
            None => s,
        }
    } else if s.in_tbl_cellmar && is_side_s(n) {
        StyleReaderV {
            tbl_cellmar: with_margin_s(s.tbl_cellmar, n, events::attr_u32_s(t, "w:w"@)),
            ..s
        }
    } else if s.in_cond && !s.in_rpr && !s.in_ppr && s.cur_cond_type == Some("firstRow"@) && n
        == "w:shd"@ {
        StyleReaderV {
            first_row_shd: styles::later_s(
                s.first_row_shd,
                shd_hex_s(
                    events::attr_s(t, "w:val"@),
                    events::attr_s(t, "w:color"@),
                    events::attr_s(t, "w:fill"@),
                ),
            ),
            ..s
        }
    } else if s.in_tbl_borders && is_edge_s(n) {
        StyleReaderV { tbl_borders: with_edge_s(s.tbl_borders, n, border_s(t)), ..s }
    } else if s.cur_id is Some && n == "w:basedOn"@ {
        StyleReaderV { cur_based_on: events::attr_s(t, "w:val"@), ..s }
    } else if s.cur_id is Some && n == "w:name"@ {
        StyleReaderV { cur_name: events::attr_s(t, "w:val"@), ..s }
    } else if s.cur_id is Some && n == "w:qFormat"@ {
        StyleReaderV { cur_qformat: true, ..s }
    } else {
        s
    }
}

/// The texts joined with a separator.
pub open spec fn join_s(v: Seq<Seq<char>>, sep: Seq<char>, n: nat) -> Seq<char>
    decreases n,
{
    if n == 0 {
        Seq::empty()
    } else if n == 1 {
        v[0]
    } else {
        join_s(v, sep, (n - 1) as nat) + sep + v[n - 1]
    }
}

pub open spec fn put_opt_s<T>(m: Seq<(Seq<char>, T)>, key: Seq<char>, o: Option<T>) -> Seq<
    (Seq<char>, T),
> {
    match o {
        Some(v) => strmap::put_s(m, key, v),
        None => m,
    }
}

/// Whether any edge is drawn.
pub open spec fn has_edges_s(b: EdgeBordersV) -> bool {
    b.top is Some || b.left is Some || b.bottom is Some || b.right is Some || b.inside_h is Some
        || b.inside_v is Some
}

/// The table with the style being read under the id `id`.
#[verifier::opaque]
pub open spec fn with_style_s(s: StyleReaderV, id: Seq<char>) -> StyleTableV {
    let t = s.table;
    let is_para = events::or_s(s.cur_type, "paragraph"@) == "paragraph"@;
    let is_default = s.cur_default == Some("1"@) || s.cur_default == Some("true"@) || s.cur_default
        == Some("on"@);
    StyleTableV {
        based_on: put_opt_s(t.based_on, id, s.cur_based_on),
        table_borders: if has_edges_s(s.tbl_borders) {
            strmap::put_s(t.table_borders, id, s.tbl_borders)
        } else {
            t.table_borders
        },
        table_cell_margins: if s.tbl_cellmar != CellMargins::initial() {
            strmap::put_s(t.table_cell_margins, id, s.tbl_cellmar)
        } else {
            t.table_cell_margins
        },
        table_first_row_shd: put_opt_s(t.table_first_row_shd, id, s.first_row_shd),
        names: put_opt_s(t.names, id, s.cur_name),
        gallery: if is_para && s.cur_qformat {
            t.gallery.push(id)
        } else {
            t.gallery
        },
        default_para_style: if is_para && is_default {
            Some(id)
        } else {
            t.default_para_style
        },
        by_id: strmap::put_s(t.by_id, id, s.cur),
        ..t
    }
}

/// What closing a style does: it enters the table, and nothing of it lingers.
pub open spec fn end_style_s(s: StyleReaderV) -> StyleReaderV {
    match s.cur_id {
        Some(id) => StyleReaderV {
            table: with_style_s(s, id),
            cur_id: None,
            cur_based_on: None,
            tbl_borders: EdgeBordersV::initial(),
            tbl_cellmar: CellMargins::initial(),
            first_row_shd: None,
            cur_name: None,
            cur_type: None,
            cur_default: None,
            cur_qformat: false,
            cur: StylePropsV::initial(),
            ..s
        },
        None => s,
    }
}

/// What closing a paragraph border box does.
pub open spec fn end_pbdr_s(s: StyleReaderV) -> StyleReaderV {
    if s.pbdr.len() > 0 {
        StyleReaderV {
            in_pbdr: false,
            cur: StylePropsV { border: Some(join_s(s.pbdr, "|"@, s.pbdr.len())), ..s.cur },
            pbdr: Seq::empty(),
            ..s
        }
    } else {
        StyleReaderV { in_pbdr: false, ..s }
    }
}

/// What a closing tag does.
pub open spec fn style_end_s(s: StyleReaderV, n: Seq<char>) -> StyleReaderV {
    if n == "w:rPr"@ {
        StyleReaderV { in_rpr: false, ..s }
    } else if n == "w:pPr"@ {
        StyleReaderV { in_ppr: false, ..s }
    } else if n == "w:tblStylePr"@ {
        StyleReaderV { in_cond: false, cur_cond_type: None, ..s }
    } else if n == "w:tblBorders"@ {
        StyleReaderV { in_tbl_borders: false, ..s }
    } else if n == "w:tblCellMar"@ {
        StyleReaderV { in_tbl_cellmar: false, ..s }
    } else if n == "w:pBdr"@ {
        end_pbdr_s(s)
    } else if n == "w:tabs"@ {
        StyleReaderV { in_tabs: false, ..s }
    } else if n == "w:docDefaults"@ {
        StyleReaderV {
            table: StyleTableV { default: s.cur, ..s.table },
            cur: StylePropsV::initial(),
            ..s
        }
    } else if n == "w:style"@ {
        end_style_s(s)
    } else {
        s
    }
}

pub open spec fn style_step_s(s: StyleReaderV, e: XmlEventV) -> StyleReaderV {
    match e {
        XmlEventV::Start(t) => style_start_s(s, t),
        XmlEventV::Empty(t) => style_empty_s(s, t),
        XmlEventV::End(n) => style_end_s(s, n),
        _ => s,
    }
}

pub open spec fn styles_run_s(steps: Seq<XmlStepV>, n: int) -> StyleReaderV
    decreases n,
{
    if n <= 0 {
        StyleReaderV::initial()
    } else {
        style_step_s(styles_run_s(steps, n - 1), steps[n - 1].event)
    }
}

/// The style table that a document's style part states.
pub open spec fn styles_s(steps: Seq<XmlStepV>) -> StyleTableV {
    styles_run_s(steps, events::readable_s(steps, 0)).table
}

fn line_rule(o: &Option<String>) -> (r: Option<LineRule>)
    ensures
        r == line_rule_s(strs::opt_s(*o)),
{
    match o {
        Some(x) => LineRule::from_ooxml(x.as_str()),
        None => None,
    }
}

fn with_spacing(p: &mut StyleProps, t: &XmlTag)
    ensures
        final(p)@ == with_spacing_s(old(p)@, t@),
{
    p.space_before = attr_u32(t, "w:before");
    p.space_after = attr_u32(t, "w:after");
    let named = attr(t, "w:lineRule");
    let rule = line_rule(&named);
    let at_least = match rule {
        Some(LineRule::AtLeast) => true,
        _ => false,
    };
    if !at_least {
        p.line_spacing = attr_u16(t, "w:line");
        p.line_rule = rule;
    }
}

fn with_run_prop(p: &mut StyleProps, t: &XmlTag)
    ensures
        final(p)@ == with_run_prop_s(old(p)@, t@),
{
    if is_tag(t, "w:b") {
        p.bold = Some(toggle_on(t));
    } else if is_tag(t, "w:i") {
        p.italic = Some(toggle_on(t));
    } else if is_tag(t, "w:sz") {
        if let Some(v) = attr_u16(t, "w:val") {
            p.size = Some(v);
        }
    } else if is_tag(t, "w:color") {
        p.color = unless(attr(t, "w:val"), "auto");
    } else if is_tag(t, "w:highlight") {
        p.highlight = nonempty(attr(t, "w:val"));
    } else {
        if let Some(f) = attr(t, "w:ascii") {
            p.font = Some(f);
        }
    }
}

fn side(t: &XmlTag, a: &str, b: &str) -> (r: Option<i32>)
    ensures
        r == side_s(t@, a@, b@),
{
    if attr(t, a).is_some() {
        attr_i32(t, a)
    } else {
        attr_i32(t, b)
    }
}

fn with_para_prop(p: &mut StyleProps, t: &XmlTag)
    ensures
        final(p)@ == with_para_prop_s(old(p)@, t@),
{
    if is_tag(t, "w:numId") {
        p.num_id = attr_i32(t, "w:val");
    } else if is_tag(t, "w:ilvl") {
        p.num_ilvl = attr_i32(t, "w:val");
    } else if is_tag(t, "w:jc") {
        p.align = match attr(t, "w:val") {
            Some(v) => Align::from_ooxml(v.as_str()),
            None => None,
        };
    } else if is_tag(t, "w:keepNext") {
        p.keep_next = Some(toggle_on(t));
    } else if is_tag(t, "w:pageBreakBefore") {
        p.page_break_before = Some(toggle_on(t));
    } else if is_tag(t, "w:contextualSpacing") {
        p.contextual_spacing = Some(toggle_on(t));
    } else {
        if let Some(v) = side(t, "w:left", "w:start") {
            p.indent_left = Some(v);
        }
        if let Some(v) = side(t, "w:right", "w:end") {
            p.indent_right = Some(v);
        }
    }
}

pub(crate) fn tab_pos(p: i64) -> (r: u32)
    ensures
        r == tab_pos_s(p),
{
    if p < 0 {
        0
    } else {
        (p as u64 % 0x1_0000_0000) as u32
    }
}

pub(crate) fn tab_kind(val: &str) -> (r: Option<u8>)
    ensures
        r == tab_kind_s(val@),
{
    if str_eq(val, "center") {
        Some(1)
    } else if str_eq(val, "right") || str_eq(val, "end") {
        Some(2)
    } else if str_eq(val, "decimal") {
        Some(3)
    } else if str_eq(val, "bar") {
        None
    } else {
        Some(0)
    }
}

fn with_tab(p: &mut StyleProps, t: &XmlTag)
    ensures
        final(p)@ == with_tab_s(old(p)@, t@),
{
    let val = or_empty(attr(t, "w:val"));
    if let Some(x) = attr_i64(t, "w:pos") {
        if str_eq(val.as_str(), "clear") {
            p.tab_clears.push(tab_pos(x));
        } else if let Some(k) = tab_kind(val.as_str()) {
            p.tab_stops.push(tab_pos(x));
            p.tab_kinds.push(k);
        }
    }
}

/// The attribute, or a fallback.
pub(crate) fn attr_or(t: &XmlTag, key: &str, dflt: &str) -> (r: String)
    ensures
        r@ == events::or_s(events::attr_s(t@, key@), dflt@),
{
    match attr(t, key) {
        Some(v) => v,
        None => dflt.to_string(),
    }
}

pub(crate) fn pbdr_edge(t: &XmlTag) -> (r: Option<String>)
    ensures
        strs::opt_s(r) == pbdr_edge_s(t@),
{
    let val = or_empty(attr(t, "w:val"));
    if val.as_str().unicode_len() == 0 || str_eq(val.as_str(), "none") || str_eq(
        val.as_str(),
        "nil",
    ) {
        return None;
    }
    let edge = if is_tag(t, "w:top") {
        "t="
    } else if is_tag(t, "w:left") {
        "l="
    } else if is_tag(t, "w:bottom") {
        "b="
    } else {
        "r="
    };
    let mut s = edge.to_string();
    s.append(val.as_str());
    s.append(",");
    s.append(attr_or(t, "w:sz", "4").as_str());
    s.append(",");
    s.append(attr_or(t, "w:space", "0").as_str());
    s.append(",");
    s.append(attr_or(t, "w:color", "auto").as_str());
    Some(s)
}

pub(crate) fn is_side(t: &XmlTag) -> (r: bool)
    ensures
        r == is_side_s(t@.name),
{
    is_tag(t, "w:top") || is_tag(t, "w:left") || is_tag(t, "w:bottom") || is_tag(t, "w:right")
}

pub(crate) fn is_edge(t: &XmlTag) -> (r: bool)
    ensures
        r == is_edge_s(t@.name),
{
    is_side(t) || is_tag(t, "w:insideH") || is_tag(t, "w:insideV")
}

pub(crate) fn with_margin(m: &mut CellMargins, t: &XmlTag, w: Option<u32>)
    ensures
        *final(m) == with_margin_s(*old(m), t@.name, w),
{
    if is_tag(t, "w:top") {
        m.top = w;
    } else if is_tag(t, "w:left") {
        m.left = w;
    } else if is_tag(t, "w:bottom") {
        m.bottom = w;
    } else {
        m.right = w;
    }
}

pub(crate) fn with_edge(e: &mut EdgeBorders, t: &XmlTag, b: Option<Border>)
    ensures
        final(e)@ == with_edge_s(old(e)@, t@.name, types::border_ov(b)),
{
    if is_tag(t, "w:top") {
        e.top = b;
    } else if is_tag(t, "w:left") {
        e.left = b;
    } else if is_tag(t, "w:bottom") {
        e.bottom = b;
    } else if is_tag(t, "w:right") {
        e.right = b;
    } else if is_tag(t, "w:insideH") {
        e.inside_h = b;
    } else {
        e.inside_v = b;
    }
}

pub(crate) fn join(v: &Vec<String>, sep: &str) -> (r: String)
    ensures
        r@ == join_s(search::texts_s(v@), sep@, v@.len()),
{
    let ghost t = search::texts_s(v@);
    let mut s = String::new();
    let mut i: usize = 0;
    assert(s@ =~= Seq::empty());
    while i < v.len()
        invariant
            i <= v@.len(),
            t == search::texts_s(v@),
            s@ == join_s(t, sep@, i as nat),
        decreases v@.len() - i,
    {
        assert(t[i as int] == v@[i as int]@);
        if i > 0 {
            s.append(sep);
        }
        s.append(v[i].as_str());
        i = i + 1;
        proof {
            if i == 1 {
                assert(s@ =~= t[0]);
            }
        }
    }
    s
}

fn put_opt(m: &mut StrMap<String>, id: &str, o: &Option<String>)
    ensures
        final(m)@ == put_opt_s(old(m)@, id@, strs::opt_s(*o)),
{
    if let Some(v) = o {
        m.insert(id, v.clone());
    }
}

fn put_borders(t: &mut StyleTable, id: &str, b: &EdgeBorders)
    ensures
        final(t)@ == (StyleTableV {
            table_borders: if has_edges_s(b@) {
                strmap::put_s(old(t)@.table_borders, id@, b@)
            } else {
                old(t)@.table_borders
            },
            ..old(t)@
        }),
{
    if b.top.is_some() || b.left.is_some() || b.bottom.is_some() || b.right.is_some()
        || b.inside_h.is_some() || b.inside_v.is_some() {
        t.table_borders.insert(id, b.clone());
    }
}

fn put_margins(t: &mut StyleTable, id: &str, m: CellMargins)
    ensures
        final(t)@ == (StyleTableV {
            table_cell_margins: if m != CellMargins::initial() {
                strmap::put_s(old(t)@.table_cell_margins, id@, m)
            } else {
                old(t)@.table_cell_margins
            },
            ..old(t)@
        }),
{
    if m.top.is_some() || m.left.is_some() || m.bottom.is_some() || m.right.is_some() {
        t.table_cell_margins.insert(id, m);
    }
}

fn put_gallery(t: &mut StyleTable, id: &str, on: bool)
    ensures
        final(t)@ == (StyleTableV {
            gallery: if on {
                old(t)@.gallery.push(id@)
            } else {
                old(t)@.gallery
            },
            ..old(t)@
        }),
{
    if on {
        let ghost was = t.gallery@;
        t.gallery.push(id.to_string());
        assert(search::texts_s(t.gallery@) =~= search::texts_s(was).push(id@));
    }
}

impl StyleReader {
    fn new() -> (r: Self)
        ensures
            r@ == StyleReaderV::initial(),
    {
        let r = StyleReader {
            table: StyleTable::default(),
            cur: StyleProps::default(),
            cur_id: None,
            cur_based_on: None,
            cur_type: None,
            cur_default: None,
            cur_name: None,
            cur_qformat: false,
            in_rpr: false,
            in_ppr: false,
            in_cond: false,
            cur_cond_type: None,
            in_tbl_borders: false,
            in_tbl_cellmar: false,
            in_pbdr: false,
            in_tabs: false,
            tbl_borders: EdgeBorders::default(),
            tbl_cellmar: CellMargins::default(),
            first_row_shd: None,
            pbdr: Vec::new(),
        };
        assert(r@.pbdr =~= Seq::empty());
        r
    }

    fn start(&mut self, t: &XmlTag)
        ensures
            final(self)@ == style_start_s(old(self)@, t@),
    {
        if is_tag(t, "w:docDefaults") {
            self.cur = StyleProps::default();
        } else if is_tag(t, "w:style") {
            self.cur_id = attr(t, "w:styleId");
            self.cur_based_on = None;
            self.cur_type = attr(t, "w:type");
            self.cur_default = attr(t, "w:default");
            self.cur_name = None;
            self.cur_qformat = false;
            self.cur = StyleProps::default();
            self.tbl_borders = EdgeBorders::default();
            self.tbl_cellmar = CellMargins::default();
            self.first_row_shd = None;
            self.in_cond = false;
            self.cur_cond_type = None;
            self.in_tbl_borders = false;
            self.in_tbl_cellmar = false;
        } else if is_tag(t, "w:rPr") {
            self.in_rpr = true;
        } else if is_tag(t, "w:pPr") {
            self.in_ppr = true;
        } else if is_tag(t, "w:tblStylePr") {
            self.in_cond = true;
            self.cur_cond_type = attr(t, "w:type");
        } else if is_tag(t, "w:tblBorders") && self.cur_id.is_some() && !self.in_cond {
            self.in_tbl_borders = true;
        } else if is_tag(t, "w:tblCellMar") && self.cur_id.is_some() && !self.in_cond {
            self.in_tbl_cellmar = true;
        } else if is_tag(t, "w:pBdr") && self.in_ppr && !self.in_cond {
            self.in_pbdr = true;
            self.pbdr = Vec::new();
            assert(self@.pbdr =~= Seq::empty());
        } else if is_tag(t, "w:tabs") && self.in_ppr && !self.in_cond {
            self.in_tabs = true;
        } else if self.in_rpr && (is_tag(t, "w:b") || is_tag(t, "w:i")) {
            with_run_prop(&mut self.cur, t);
        }
    }

    fn empty(&mut self, t: &XmlTag)
        ensures
            final(self)@ == style_empty_s(old(self)@, t@),
    {
        if self.in_rpr && (is_tag(t, "w:b") || is_tag(t, "w:i") || is_tag(t, "w:sz") || is_tag(
            t,
            "w:color",
        ) || is_tag(t, "w:highlight") || is_tag(t, "w:rFonts")) {
            with_run_prop(&mut self.cur, t);
        } else if self.in_ppr && is_tag(t, "w:spacing") {
            with_spacing(&mut self.cur, t);
        } else if self.in_ppr && (is_tag(t, "w:numId") || is_tag(t, "w:ilvl") || is_tag(t, "w:jc")
            || is_tag(t, "w:keepNext") || is_tag(t, "w:pageBreakBefore") || is_tag(
            t,
            "w:contextualSpacing",
        ) || is_tag(t, "w:ind")) {
            with_para_prop(&mut self.cur, t);
        } else if self.in_tabs && is_tag(t, "w:tab") {
            with_tab(&mut self.cur, t);
        } else if self.in_pbdr && is_side(t) {
            if let Some(e) = pbdr_edge(t) {
                let ghost was = self.pbdr@;
                let ghost ev = e@;
                self.pbdr.push(e);
                assert(search::texts_s(self.pbdr@) =~= search::texts_s(was).push(ev));
            }
        } else if self.in_tbl_cellmar && is_side(t) {
            with_margin(&mut self.tbl_cellmar, t, attr_u32(t, "w:w"));
        } else if self.in_cond && !self.in_rpr && !self.in_ppr && opt_is(
            &self.cur_cond_type,
            "firstRow",
        ) && is_tag(t, "w:shd") {
            let val = attr(t, "w:val");
            let color = attr(t, "w:color");
            let fill = attr(t, "w:fill");
            if let Some(h) = shd_effective_hex(&val, &color, &fill) {
                self.first_row_shd = Some(h);
            }
        } else if self.in_tbl_borders && is_edge(t) {
            with_edge(&mut self.tbl_borders, t, parse_border(t));
        } else if self.cur_id.is_some() && is_tag(t, "w:basedOn") {
            self.cur_based_on = attr(t, "w:val");
        } else if self.cur_id.is_some() && is_tag(t, "w:name") {
            self.cur_name = attr(t, "w:val");
        } else if self.cur_id.is_some() && is_tag(t, "w:qFormat") {
            self.cur_qformat = true;
        }
    }

    fn close_style(&mut self, id: &str)
        ensures
            final(self)@ == (StyleReaderV { table: with_style_s(old(self)@, id@), ..old(self)@ }),
    {
        reveal(with_style_s);
        put_opt(&mut self.table.based_on, id, &self.cur_based_on);
        put_borders(&mut self.table, id, &self.tbl_borders);
        put_margins(&mut self.table, id, self.tbl_cellmar);
        put_opt(&mut self.table.table_first_row_shd, id, &self.first_row_shd);
        put_opt(&mut self.table.names, id, &self.cur_name);
        let is_para = self.cur_type.is_none() || opt_is(&self.cur_type, "paragraph");
        put_gallery(&mut self.table, id, is_para && self.cur_qformat);
        let is_default = opt_is(&self.cur_default, "1") || opt_is(&self.cur_default, "true")
            || opt_is(&self.cur_default, "on");
        if is_para && is_default {
            self.table.default_para_style = Some(id.to_string());
        }
        self.table.by_id.insert(id, self.cur.clone());
        assert(self@.table =~= with_style_s(old(self)@, id@));
    }

    fn end_pbdr(&mut self)
        ensures
            final(self)@ == end_pbdr_s(old(self)@),
    {
        self.in_pbdr = false;
        if self.pbdr.len() > 0 {
            self.cur.border = Some(join(&self.pbdr, "|"));
            self.pbdr = Vec::new();
            assert(self@.pbdr =~= Seq::empty());
        }
    }

    fn end_style(&mut self)
        ensures
            final(self)@ == end_style_s(old(self)@),
    {
        if let Some(x) = &self.cur_id {
            let id = x.clone();
            self.close_style(id.as_str());
            self.cur_id = None;
            self.cur_based_on = None;
            self.tbl_borders = EdgeBorders::default();
            self.tbl_cellmar = CellMargins::default();
            self.first_row_shd = None;
            self.cur_name = None;
            self.cur_type = None;
            self.cur_default = None;
            self.cur_qformat = false;
            self.cur = StyleProps::default();
        }
    }

    fn end(&mut self, n: &str)
        ensures
            final(self)@ == style_end_s(old(self)@, n@),
    {
        if str_eq(n, "w:rPr") {
            self.in_rpr = false;
        } else if str_eq(n, "w:pPr") {
            self.in_ppr = false;
        } else if str_eq(n, "w:tblStylePr") {
            self.in_cond = false;
            self.cur_cond_type = None;
        } else if str_eq(n, "w:tblBorders") {
            self.in_tbl_borders = false;
        } else if str_eq(n, "w:tblCellMar") {
            self.in_tbl_cellmar = false;
        } else if str_eq(n, "w:pBdr") {
            self.end_pbdr();
        } else if str_eq(n, "w:tabs") {
            self.in_tabs = false;
        } else if str_eq(n, "w:docDefaults") {
            self.table.default = self.cur.clone();
            self.cur = StyleProps::default();
        } else if str_eq(n, "w:style") {
            self.end_style();
        }
    }
}

/// The style table of a tokenized style part.
pub fn styles_of(steps: &Vec<XmlStep>) -> (r: StyleTable)
    ensures
        r@ == styles_s(events::xml_step_vs(steps@)),
{
    let n = readable(steps);
    let ghost v = events::xml_step_vs(steps@);
    let mut s = StyleReader::new();
    let mut i: usize = 0;
    while i < n
        invariant
            i <= n <= steps@.len(),
            v == events::xml_step_vs(steps@),
            s@ == styles_run_s(v, i as int),
        decreases n - i,
    {
        assert(v[i as int] == steps@[i as int]@);
        match &steps[i].event {
            XmlEvent::Start(t) => s.start(t),
            XmlEvent::Empty(t) => s.empty(t),
            XmlEvent::End(name) => s.end(name.as_str()),
            _ => {},
        }
        i = i + 1;
    }
    s.table
}

/// Parse `word/styles.xml`: the document defaults, and each style's direct run and paragraph
/// properties by its id.
pub fn parse_styles(xml: &[u8]) -> (r: StyleTable)
    ensures
        r@ == styles_s(events::doc_s(xml@)),
{
    styles_of(&read_xml(xml))
}

} // verus!
