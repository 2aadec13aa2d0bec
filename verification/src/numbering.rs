//! `numbering.xml`: list definitions and the lists created at run time.
//!
//! Maps a paragraph's list id and level to a marker format, indent and start value, and builds
//! definitions for lists created in the editor.

use std::collections::HashMap;
use vstd::prelude::*;
use crate::events;
use crate::events::{
    attr, attr_i32, is_tag, or_else, or_empty, read_xml, readable, XmlEvent, XmlEventV, XmlStep,
    XmlStepV, XmlTag, XmlTagV,
};
use crate::keys;
use crate::keys::sorted_keys;
use crate::strs;
use crate::strs::{dec, str_eq};
use crate::xml;
use crate::xml::{esc_piece, int_piece};

verus! {

broadcast use {vstd::string::group_string_axioms, vstd::std_specs::hash::group_hash_axioms};

/// The first list id that a list created at run time may take.
pub const SYNTH_NUM_BASE: i32 = 900_000;

/// One numbering level: format, level text template, start value, and indent in twips.
#[derive(Debug, PartialEq, Eq)]
pub struct NumLevel {
    pub fmt: String,
    pub text: String,
    pub start: i32,
    pub ind_left: i32,
    pub ind_hanging: i32,
}

/// The mathematical value of a [`NumLevel`].
#[verifier::ext_equal]
pub struct NumLevelV {
    pub fmt: Seq<char>,
    pub text: Seq<char>,
    pub start: i32,
    pub ind_left: i32,
    pub ind_hanging: i32,
}

impl View for NumLevel {
    type V = NumLevelV;

    open spec fn view(&self) -> NumLevelV {
        NumLevelV {
            fmt: self.fmt@,
            text: self.text@,
            start: self.start,
            ind_left: self.ind_left,
            ind_hanging: self.ind_hanging,
        }
    }
}

impl Clone for NumLevel {
    fn clone(&self) -> (r: Self)
        ensures
            r@ == self@,
    {
        NumLevel {
            fmt: self.fmt.clone(),
            text: self.text.clone(),
            start: self.start,
            ind_left: self.ind_left,
            ind_hanging: self.ind_hanging,
        }
    }
}

impl NumLevelV {
    /// The value with nothing set.
    pub open spec fn initial() -> NumLevelV {
        NumLevelV {
            fmt: Seq::empty(),
            text: Seq::empty(),
            start: 0,
            ind_left: 0,
            ind_hanging: 0,
        }
    }
}

impl Default for NumLevel {
    fn default() -> (r: Self)
        ensures
            r@ == NumLevelV::initial(),
    {
        NumLevel {
            fmt: String::new(),
            text: String::new(),
            start: 0,
            ind_left: 0,
            ind_hanging: 0,
        }
    }
}

/// The marker style of a list created in the editor.
#[derive(Debug, Clone, Copy, PartialEq, Eq, Structural)]
pub enum ListFormat {
    Bullet,
    Decimal,
    LowerLetter,
    UpperLetter,
    LowerRoman,
    UpperRoman,
}

impl ListFormat {
    pub open spec fn level0_numfmt_s(self) -> Seq<char> {
        match self {
            ListFormat::Bullet => "bullet"@,
            ListFormat::Decimal => "decimal"@,
            ListFormat::LowerLetter => "lowerLetter"@,
            ListFormat::UpperLetter => "upperLetter"@,
            ListFormat::LowerRoman => "lowerRoman"@,
            ListFormat::UpperRoman => "upperRoman"@,
        }
    }

    /// The `w:numFmt` token this kind uses at level 0: a list's identity.
    pub fn level0_numfmt(self) -> (r: &'static str)
        ensures
            r@ == self.level0_numfmt_s(),
    {
        match self {
            ListFormat::Bullet => "bullet",
            ListFormat::Decimal => "decimal",
            ListFormat::LowerLetter => "lowerLetter",
            ListFormat::UpperLetter => "upperLetter",
            ListFormat::LowerRoman => "lowerRoman",
            ListFormat::UpperRoman => "upperRoman",
        }
    }

    pub open spec fn from_numfmt_s(s: Seq<char>) -> ListFormat {
        if s == "bullet"@ {
            ListFormat::Bullet
        } else if s == "lowerLetter"@ {
            ListFormat::LowerLetter
        } else if s == "upperLetter"@ {
            ListFormat::UpperLetter
        } else if s == "lowerRoman"@ {
            ListFormat::LowerRoman
        } else if s == "upperRoman"@ {
            ListFormat::UpperRoman
        } else {
            ListFormat::Decimal
        }
    }

    /// Read a `w:numFmt` token; an unknown one is `Decimal`.
    pub fn from_numfmt(s: &str) -> (r: ListFormat)
        ensures
            r == ListFormat::from_numfmt_s(s@),
    {
        if str_eq(s, "bullet") {
            ListFormat::Bullet
        } else if str_eq(s, "lowerLetter") {
            ListFormat::LowerLetter
        } else if str_eq(s, "upperLetter") {
            ListFormat::UpperLetter
        } else if str_eq(s, "lowerRoman") {
            ListFormat::LowerRoman
        } else if str_eq(s, "upperRoman") {
            ListFormat::UpperRoman
        } else {
            ListFormat::Decimal
        }
    }
}

/// The token of a list format reads back as that format.
pub proof fn law_numfmt_reads_back(f: ListFormat)
    ensures
        ListFormat::from_numfmt_s(f.level0_numfmt_s()) == f,
{
    reveal_strlit("bullet");
    reveal_strlit("decimal");
    reveal_strlit("lowerLetter");
    reveal_strlit("upperLetter");
    reveal_strlit("lowerRoman");
    reveal_strlit("upperRoman");
    assert("bullet"@.len() == 6 && "decimal"@.len() == 7 && "lowerLetter"@.len() == 11
        && "upperLetter"@.len() == 11 && "lowerRoman"@.len() == 10 && "upperRoman"@.len() == 10);
    assert("lowerLetter"@[0] == 'l' && "upperLetter"@[0] == 'u' && "lowerRoman"@[0] == 'l'
        && "upperRoman"@[0] == 'u');
}

/// A list definition created at run time.
#[derive(Debug, Clone, Copy, PartialEq, Eq, Structural)]
pub struct SynthList {
    pub num_id: i32,
    pub abstract_id: i32,
    pub bullet: bool,
}

/// A level of an abstract definition.
pub struct LevelEntry {
    pub abstract_id: i32,
    pub ilvl: i32,
    pub level: NumLevel,
}

/// The mathematical value of a [`LevelEntry`].
#[verifier::ext_equal]
pub struct LevelEntryV {
    pub abstract_id: i32,
    pub ilvl: i32,
    pub level: NumLevelV,
}

impl View for LevelEntry {
    type V = LevelEntryV;

    open spec fn view(&self) -> LevelEntryV {
        LevelEntryV { abstract_id: self.abstract_id, ilvl: self.ilvl, level: self.level@ }
    }
}

pub open spec fn level_entry_vs(s: Seq<LevelEntry>) -> Seq<LevelEntryV> {
    Seq::new(s.len(), |i: int| s[i]@)
}

/// `word/numbering.xml`: list id to abstract definition, and abstract definition to levels.
pub struct Numbering {
    num_to_abstract: HashMap<i32, i32>,
    levels: Vec<LevelEntry>,
    /// Definitions created at run time, written out on save.
    synth: Vec<SynthList>,
}

/// The mathematical value of a [`Numbering`].
#[verifier::ext_equal]
pub struct NumberingV {
    pub num: Map<i32, i32>,
    pub levels: Seq<LevelEntryV>,
    pub synth: Seq<SynthList>,
}

impl View for Numbering {
    type V = NumberingV;

    closed spec fn view(&self) -> NumberingV {
        NumberingV {
            num: self.num_to_abstract@,
            levels: level_entry_vs(self.levels@),
            synth: self.synth@,
        }
    }
}

impl NumberingV {
    pub open spec fn initial() -> NumberingV {
        NumberingV { num: Map::empty(), levels: Seq::empty(), synth: Seq::empty() }
    }
}

impl Default for Numbering {
    fn default() -> (r: Self)
        ensures
            r@ == NumberingV::initial(),
    {
        let r = Numbering {
            num_to_abstract: HashMap::new(),
            levels: Vec::new(),
            synth: Vec::new(),
        };
        assert(r@.levels =~= Seq::empty());
        r
    }
}

/// The index of the level `ilvl` of `aid`, from `from` on; the length where there is none.
pub open spec fn level_index_s(levels: Seq<LevelEntryV>, aid: i32, ilvl: i32, from: int) -> int
    decreases levels.len() - from,
{
    if 0 <= from < levels.len() {
        if levels[from].abstract_id == aid && levels[from].ilvl == ilvl {
            from
        } else {
            level_index_s(levels, aid, ilvl, from + 1)
        }
    } else {
        levels.len() as int
    }
}

/// The level `ilvl` of the abstract definition `aid`.
pub open spec fn level_of_s(levels: Seq<LevelEntryV>, aid: i32, ilvl: i32) -> Option<NumLevelV> {
    let i = level_index_s(levels, aid, ilvl, 0);
    if i < levels.len() {
        Some(levels[i].level)
    } else {
        None
    }
}

/// The levels with level `ilvl` of `aid` set.
pub open spec fn put_level_s(levels: Seq<LevelEntryV>, aid: i32, ilvl: i32, level: NumLevelV) -> Seq<
    LevelEntryV,
> {
    let e = LevelEntryV { abstract_id: aid, ilvl, level };
    let i = level_index_s(levels, aid, ilvl, 0);
    if i < levels.len() {
        levels.update(i, e)
    } else {
        levels.push(e)
    }
}

/// Whether the abstract definition's level-0 format is `want`.
pub open spec fn is_kind_s(n: NumberingV, aid: i32, want: Seq<char>) -> bool {
    match level_of_s(n.levels, aid, 0) {
        Some(l) => l.fmt == want,
        None => false,
    }
}

/// Whether `id` is a list whose level-0 format is `want`.
pub open spec fn listed_s(n: NumberingV, want: Seq<char>, id: i32) -> bool {
    n.num.contains_key(id) && is_kind_s(n, n.num[id], want)
}

/// Whether `id` is the least list whose level-0 format is `want`.
pub open spec fn least_s(n: NumberingV, want: Seq<char>, id: i32) -> bool {
    listed_s(n, want, id) && forall|x: i32| #[trigger] listed_s(n, want, x) ==> id <= x
}

/// The least list id whose level-0 format is `want`.
pub open spec fn reusable_s(n: NumberingV, want: Seq<char>) -> Option<i32> {
    if exists|id: i32| least_s(n, want, id) {
        Some(choose|id: i32| least_s(n, want, id))
    } else {
        None
    }
}

proof fn lemma_reusable(n: NumberingV, want: Seq<char>, id: i32)
    requires
        least_s(n, want, id),
    ensures
        reusable_s(n, want) == Some(id),
{
    let x = choose|x: i32| least_s(n, want, x);
    assert(least_s(n, want, x));
    assert(listed_s(n, want, x) && listed_s(n, want, id));
}

proof fn lemma_least(n: NumberingV, want: Seq<char>, id: i32)
    requires
        listed_s(n, want, id),
    ensures
        exists|x: i32| least_s(n, want, x),
    decreases id - i32::MIN,
{
    if exists|x: i32| #[trigger] listed_s(n, want, x) && x < id {
        let x = choose|x: i32| #[trigger] listed_s(n, want, x) && x < id;
        lemma_least(n, want, x);
    } else {
        assert(least_s(n, want, id));
    }
}

/// A list to reuse has the wanted format, and no list of that format has a smaller id; there is
/// none only where no list has that format.
pub proof fn law_reusable_is_least(n: NumberingV, want: Seq<char>)
    ensures
        match reusable_s(n, want) {
            Some(id) => least_s(n, want, id),
            None => forall|id: i32| !(#[trigger] listed_s(n, want, id)),
        },
{
    if reusable_s(n, want) is None {
        assert forall|id: i32| !(#[trigger] listed_s(n, want, id)) by {
            if listed_s(n, want, id) {
                lemma_least(n, want, id);
            }
        }
    }
}

/// Whether `x` is one past the greatest list id, and at least 1.
pub open spec fn follows_s(num: Map<i32, i32>, x: int) -> bool {
    &&& 1 <= x <= i32::MAX + 1
    &&& forall|k: i32| #[trigger] num.contains_key(k) ==> k < x
    &&& x == 1 || num.contains_key((x - 1) as i32)
}

pub open spec fn max_abstract_s(levels: Seq<LevelEntryV>, k: nat) -> Option<i32>
    decreases k,
{
    if k == 0 {
        None
    } else {
        let before = max_abstract_s(levels, (k - 1) as nat);
        let id = levels[k - 1].abstract_id;
        if before matches Some(b) && b >= id {
            before
        } else {
            Some(id)
        }
    }
}

/// One past the greatest abstract id; 0 where there is none.
pub open spec fn next_abstract_s(levels: Seq<LevelEntryV>) -> int {
    match max_abstract_s(levels, levels.len()) {
        Some(m) => m + 1,
        None => 0,
    }
}

/// One past the greatest list id, and at least 1.
pub open spec fn next_num_s(num: Map<i32, i32>) -> int {
    choose|x: int| follows_s(num, x)
}

proof fn lemma_follows(num: Map<i32, i32>, x: int)
    requires
        1 <= x <= i32::MAX + 1,
        forall|k: i32| #[trigger] num.contains_key(k) ==> k < x,
    ensures
        exists|y: int| follows_s(num, y),
    decreases x,
{
    if x == 1 || num.contains_key((x - 1) as i32) {
        assert(follows_s(num, x));
    } else {
        lemma_follows(num, x - 1);
    }
}

/// The next list id is at least 1 and greater than every one in use, and no smaller one is.
pub proof fn law_next_num_follows(num: Map<i32, i32>)
    ensures
        follows_s(num, next_num_s(num)),
{
    lemma_follows(num, i32::MAX + 1);
}

proof fn lemma_next_num(num: Map<i32, i32>, x: int)
    requires
        follows_s(num, x),
    ensures
        next_num_s(num) == x,
{
    law_next_num_follows(num);
    let y = next_num_s(num);
    if x < y {
        assert(num.contains_key((y - 1) as i32));
    }
    if y < x {
        assert(num.contains_key((x - 1) as i32));
    }
}

/// The format of level `lvl` of a list created at run time: bullets stay bullets, decimal
/// cycles through decimal, letters and roman numerals, a picked format stays.
pub open spec fn synth_fmt_s(fmt: ListFormat, lvl: int) -> Seq<char> {
    match fmt {
        ListFormat::Decimal => if lvl % 3 == 0 {
            "decimal"@
        } else if lvl % 3 == 1 {
            "lowerLetter"@
        } else {
            "lowerRoman"@
        },
        _ => fmt.level0_numfmt_s(),
    }
}

/// The text of level `lvl`: a bullet glyph, or the level's own counter.
pub open spec fn synth_text_s(fmt: ListFormat, lvl: int) -> Seq<char> {
    match fmt {
        ListFormat::Bullet => if lvl % 3 == 0 {
            "\u{2022}"@
        } else if lvl % 3 == 1 {
            "o"@
        } else {
            "\u{25AA}"@
        },
        _ => "%"@ + strs::dec_s((lvl + 1) as nat) + "."@,
    }
}

/// Level `lvl` of a list created at run time: the first is indented half an inch, each further
/// one a quarter inch more, with a quarter inch hanging.
pub open spec fn synth_level_s(fmt: ListFormat, lvl: int) -> NumLevelV {
    NumLevelV {
        fmt: synth_fmt_s(fmt, lvl),
        text: synth_text_s(fmt, lvl),
        start: 1,
        ind_left: (720 + 360 * lvl) as i32,
        ind_hanging: 360,
    }
}

/// The levels with the first `k` levels of a new definition `aid`.
pub open spec fn with_levels_s(levels: Seq<LevelEntryV>, aid: i32, fmt: ListFormat, k: nat) -> Seq<
    LevelEntryV,
>
    decreases k,
{
    if k == 0 {
        levels
    } else {
        put_level_s(
            with_levels_s(levels, aid, fmt, (k - 1) as nat),
            aid,
            (k - 1) as i32,
            synth_level_s(fmt, k - 1),
        )
    }
}

/// The numbering with a list `num_id` of kind `fmt` defined under a fresh abstract id.
pub open spec fn with_synth_s(n: NumberingV, num_id: i32, fmt: ListFormat) -> NumberingV {
    let aid = next_abstract_s(n.levels) as i32;
    NumberingV {
        num: n.num.insert(num_id, aid),
        levels: with_levels_s(n.levels, aid, fmt, 9),
        synth: n.synth.push(
            SynthList { num_id, abstract_id: aid, bullet: fmt == ListFormat::Bullet },
        ),
    }
}

/// The same, unless the list is already known.
pub open spec fn inserted_s(n: NumberingV, num_id: i32, fmt: ListFormat) -> NumberingV {
    if n.num.contains_key(num_id) {
        n
    } else {
        with_synth_s(n, num_id, fmt)
    }
}

/// Defining a list a second time changes nothing.
pub proof fn law_insert_synth_is_idempotent(
    n: NumberingV,
    num_id: i32,
    fmt: ListFormat,
    again: ListFormat,
)
    ensures
        inserted_s(inserted_s(n, num_id, fmt), num_id, again) == inserted_s(n, num_id, fmt),
{
}

/// What the search for a level finds: a place that holds it, with none before.
proof fn lemma_level_found(levels: Seq<LevelEntryV>, aid: i32, ilvl: i32, from: int)
    requires
        0 <= from <= levels.len(),
    ensures
        ({
            let i = level_index_s(levels, aid, ilvl, from);
            &&& from <= i <= levels.len()
            &&& i < levels.len() ==> levels[i].abstract_id == aid && levels[i].ilvl == ilvl
            &&& forall|j: int|
                from <= j < i ==> !((#[trigger] levels[j]).abstract_id == aid && levels[j].ilvl == ilvl)
        }),
    decreases levels.len() - from,
{
    if from < levels.len() && !(levels[from].abstract_id == aid && levels[from].ilvl == ilvl) {
        lemma_level_found(levels, aid, ilvl, from + 1);
    }
}

proof fn lemma_level_at(levels: Seq<LevelEntryV>, aid: i32, ilvl: i32, from: int, k: int)
    requires
        0 <= from <= k <= levels.len(),
        k < levels.len() ==> levels[k].abstract_id == aid && levels[k].ilvl == ilvl,
        forall|j: int|
            from <= j < k ==> !((#[trigger] levels[j]).abstract_id == aid && levels[j].ilvl == ilvl),
    ensures
        level_index_s(levels, aid, ilvl, from) == k,
    decreases k - from,
{
    if from < k {
        lemma_level_at(levels, aid, ilvl, from + 1, k);
    }
}

/// A level that is set reads back; every other level of every list stays.
pub proof fn law_level_reads_back(
    levels: Seq<LevelEntryV>,
    aid: i32,
    ilvl: i32,
    level: NumLevelV,
    a: i32,
    l: i32,
)
    ensures
        level_of_s(put_level_s(levels, aid, ilvl, level), aid, ilvl) == Some(level),
        !(a == aid && l == ilvl) ==> level_of_s(put_level_s(levels, aid, ilvl, level), a, l)
            == level_of_s(levels, a, l),
{
    let p = put_level_s(levels, aid, ilvl, level);
    lemma_level_found(levels, aid, ilvl, 0);
    lemma_level_found(levels, a, l, 0);
    let i = level_index_s(levels, aid, ilvl, 0);
    assert forall|j: int| 0 <= j < i implies !((#[trigger] p[j]).abstract_id == aid && p[j].ilvl
        == ilvl) by {
        assert(p[j] == levels[j]);
    }
    lemma_level_at(p, aid, ilvl, 0, i);
    if !(a == aid && l == ilvl) {
        let k = level_index_s(levels, a, l, 0);
        let m = if k < levels.len() {
            k
        } else {
            p.len() as int
        };
        assert forall|j: int| 0 <= j < m implies !((#[trigger] p[j]).abstract_id == a && p[j].ilvl
            == l) by {
            if j < levels.len() && j != i {
                assert(p[j] == levels[j]);
            }
        }
        if k < levels.len() {
            assert(p[k] == levels[k]);
        }
        lemma_level_at(p, a, l, 0, m);
    }
}

proof fn lemma_levels_set(levels: Seq<LevelEntryV>, aid: i32, fmt: ListFormat, k: nat, a: i32, l: i32)
    requires
        k <= 9,
    ensures
        level_of_s(with_levels_s(levels, aid, fmt, k), a, l) == (if a == aid && 0 <= l < k {
            Some(synth_level_s(fmt, l as int))
        } else {
            level_of_s(levels, a, l)
        }),
    decreases k,
{
    if k > 0 {
        lemma_levels_set(levels, aid, fmt, (k - 1) as nat, a, l);
        law_level_reads_back(
            with_levels_s(levels, aid, fmt, (k - 1) as nat),
            aid,
            (k - 1) as i32,
            synth_level_s(fmt, k - 1),
            a,
            l,
        );
    }
}

proof fn lemma_abstract_below(levels: Seq<LevelEntryV>, k: nat, i: int)
    requires
        0 <= i < k <= levels.len(),
    ensures
        max_abstract_s(levels, k) matches Some(m) && levels[i].abstract_id <= m,
    decreases k,
{
    if i < k - 1 {
        lemma_abstract_below(levels, (k - 1) as nat, i);
    }
}

/// A fresh abstract id has no levels.
proof fn lemma_fresh_abstract(levels: Seq<LevelEntryV>, l: i32)
    requires
        next_abstract_s(levels) <= i32::MAX,
    ensures
        level_of_s(levels, next_abstract_s(levels) as i32, l) is None,
{
    let aid = next_abstract_s(levels) as i32;
    lemma_level_found(levels, aid, l, 0);
    let i = level_index_s(levels, aid, l, 0);
    if i < levels.len() {
        lemma_abstract_below(levels, levels.len(), i);
    }
}

/// A list that is created has exactly nine levels, each a quarter inch further in than the one
/// before it, and every other list keeps its abstract id and its levels.
pub proof fn law_new_list_has_its_levels(n: NumberingV, num_id: i32, fmt: ListFormat, other: i32, a: i32, l: i32)
    requires
        next_abstract_s(n.levels) <= i32::MAX,
    ensures
        ({
            let m = with_synth_s(n, num_id, fmt);
            let aid = next_abstract_s(n.levels) as i32;
            &&& m.num.get(num_id) == Some(aid)
            &&& 0 <= l < 9 ==> level_of_s(m.levels, aid, l) == Some(synth_level_s(fmt, l as int))
            &&& !(0 <= l < 9) ==> level_of_s(m.levels, aid, l) is None
            &&& 0 <= l < 8 ==> synth_level_s(fmt, l + 1).ind_left - synth_level_s(
                fmt,
                l as int,
            ).ind_left == 360
            &&& other != num_id ==> m.num.get(other) == n.num.get(other)
            &&& a != aid ==> level_of_s(m.levels, a, l) == level_of_s(n.levels, a, l)
        }),
{
    let aid = next_abstract_s(n.levels) as i32;
    lemma_levels_set(n.levels, aid, fmt, 9, aid, l);
    lemma_levels_set(n.levels, aid, fmt, 9, a, l);
    lemma_fresh_abstract(n.levels, l);
}

/// Defining a list leaves every other one as it was.
pub proof fn law_inserted_list_leaves_the_others(
    n: NumberingV,
    num_id: i32,
    fmt: ListFormat,
    other: i32,
    a: i32,
    l: i32,
)
    requires
        next_abstract_s(n.levels) <= i32::MAX,
        other != num_id,
        a != next_abstract_s(n.levels),
    ensures
        inserted_s(n, num_id, fmt).num.get(other) == n.num.get(other),
        level_of_s(inserted_s(n, num_id, fmt).levels, a, l) == level_of_s(n.levels, a, l),
{
    law_new_list_has_its_levels(n, num_id, fmt, other, a, l);
}

/// What asking for a list of a kind makes of the numbering.
pub open spec fn ensured_s(n: NumberingV, fmt: ListFormat) -> (i32, NumberingV) {
    match reusable_s(n, fmt.level0_numfmt_s()) {
        Some(id) => (id, n),
        None => {
            let id = next_num_s(n.num) as i32;
            (id, with_synth_s(n, id, fmt))
        },
    }
}

/// Asking for a list of a kind a second time answers the same list and changes nothing.
pub proof fn law_ensure_list_is_stable(n: NumberingV, fmt: ListFormat)
    requires
        next_abstract_s(n.levels) <= i32::MAX,
        next_num_s(n.num) <= i32::MAX,
        forall|k: i32| #[trigger] n.num.contains_key(k) ==> n.num[k] != next_abstract_s(n.levels),
    ensures
        ensured_s(ensured_s(n, fmt).1, fmt) == ensured_s(n, fmt),
{
    let want = fmt.level0_numfmt_s();
    if reusable_s(n, want) is None {
        let id = next_num_s(n.num) as i32;
        let aid = next_abstract_s(n.levels) as i32;
        let m = with_synth_s(n, id, fmt);
        law_reusable_is_least(n, want);
        law_next_num_follows(n.num);
        law_new_list_has_its_levels(n, id, fmt, id, aid, 0);
        assert(synth_fmt_s(fmt, 0) == want);
        assert(listed_s(m, want, id));
        assert forall|x: i32| #[trigger] listed_s(m, want, x) implies id <= x by {
            if x != id {
                assert(n.num.contains_key(x));
                law_new_list_has_its_levels(n, id, fmt, x, n.num[x], 0);
                assert(!listed_s(n, want, x));
            }
        }
        lemma_reusable(m, want, id);
    }
}

/// The greatest list id created at run time among the first `k`; 0 where there is none.
pub open spec fn max_synth_s(synth: Seq<SynthList>, k: nat) -> Option<i32>
    decreases k,
{
    if k == 0 {
        None
    } else {
        let before = max_synth_s(synth, (k - 1) as nat);
        let id = synth[k - 1].num_id;
        if before matches Some(b) && b >= id {
            before
        } else {
            Some(id)
        }
    }
}

/// The next list id for a list created at run time.
pub open spec fn next_synth_s(synth: Seq<SynthList>) -> int {
    let top: int = match max_synth_s(synth, synth.len()) {
        Some(m) => m as int,
        None => 0,
    };
    if top + 1 < SYNTH_NUM_BASE {
        SYNTH_NUM_BASE as int
    } else {
        top + 1
    }
}

proof fn lemma_max_synth(synth: Seq<SynthList>, k: nat, i: int)
    requires
        0 <= i < k <= synth.len(),
    ensures
        max_synth_s(synth, k) matches Some(m) && synth[i].num_id <= m,
    decreases k,
{
    if i < k - 1 {
        lemma_max_synth(synth, (k - 1) as nat, i);
    }
}

/// The next id for a list created at run time is none of those in use, and lies above every
/// imported one below the base.
pub proof fn law_next_synth_is_fresh(synth: Seq<SynthList>)
    ensures
        next_synth_s(synth) >= SYNTH_NUM_BASE,
        forall|i: int| 0 <= i < synth.len() ==> (#[trigger] synth[i]).num_id < next_synth_s(synth),
{
    assert forall|i: int| 0 <= i < synth.len() implies (#[trigger] synth[i]).num_id < next_synth_s(
        synth,
    ) by {
        lemma_max_synth(synth, synth.len(), i);
    }
}

/// The numbering with the first `k` of the given ids defined.
pub open spec fn reconciled_s(
    n: NumberingV,
    synth: Map<i32, String>,
    ids: Seq<i32>,
    k: nat,
) -> NumberingV
    decreases k,
{
    if k == 0 {
        n
    } else {
        let id = ids[k - 1];
        inserted_s(
            reconciled_s(n, synth, ids, (k - 1) as nat),
            id,
            ListFormat::from_numfmt_s(synth[id]@),
        )
    }
}

proof fn lemma_level_index(levels: Seq<LevelEntryV>, aid: i32, ilvl: i32, from: int)
    requires
        0 <= from <= levels.len(),
    ensures
        from <= level_index_s(levels, aid, ilvl, from) <= levels.len(),
    decreases levels.len() - from,
{
    if from < levels.len() {
        lemma_level_index(levels, aid, ilvl, from + 1);
    }
}

proof fn lemma_max_abstract(levels: Seq<LevelEntryV>, k: nat, bound: int)
    requires
        k <= levels.len(),
        forall|i: int| 0 <= i < k ==> (#[trigger] levels[i]).abstract_id <= bound,
    ensures
        max_abstract_s(levels, k) matches Some(m) ==> m <= bound,
        max_abstract_s(levels, k) is None <==> k == 0,
    decreases k,
{
    if k > 0 {
        lemma_max_abstract(levels, (k - 1) as nat, bound);
        assert(levels[k - 1].abstract_id <= bound);
    }
}

proof fn lemma_below_next(levels: Seq<LevelEntryV>, k: nat, i: int)
    requires
        0 <= i < k <= levels.len(),
    ensures
        max_abstract_s(levels, k) matches Some(m) && levels[i].abstract_id <= m,
    decreases k,
{
    if i < k - 1 {
        lemma_below_next(levels, (k - 1) as nat, i);
    }
}

proof fn lemma_with_levels_bound(levels: Seq<LevelEntryV>, aid: i32, fmt: ListFormat, k: nat)
    requires
        forall|i: int| 0 <= i < levels.len() ==> (#[trigger] levels[i]).abstract_id <= aid,
    ensures
        forall|i: int|
            0 <= i < with_levels_s(levels, aid, fmt, k).len() ==> (#[trigger] with_levels_s(
                levels,
                aid,
                fmt,
                k,
            )[i]).abstract_id <= aid,
    decreases k,
{
    if k > 0 {
        let w = with_levels_s(levels, aid, fmt, (k - 1) as nat);
        lemma_with_levels_bound(levels, aid, fmt, (k - 1) as nat);
        lemma_level_index(w, aid, (k - 1) as i32, 0);
        let r = with_levels_s(levels, aid, fmt, k);
        assert forall|i: int| 0 <= i < r.len() implies (#[trigger] r[i]).abstract_id <= aid by {
            if i < w.len() {
                assert(w[i].abstract_id <= aid);
            }
        }
    }
}

/// A definition created at run time takes up at most the next abstract id.
proof fn lemma_next_abstract_grows(n: NumberingV, num_id: i32, fmt: ListFormat)
    requires
        next_abstract_s(n.levels) <= i32::MAX,
        next_abstract_s(n.levels) >= i32::MIN,
    ensures
        next_abstract_s(with_synth_s(n, num_id, fmt).levels) <= next_abstract_s(n.levels) + 1 || (
        next_abstract_s(with_synth_s(n, num_id, fmt).levels) == 0),
{
    let aid = next_abstract_s(n.levels) as i32;
    assert forall|i: int| 0 <= i < n.levels.len() implies (#[trigger] n.levels[i]).abstract_id
        <= aid by {
        lemma_below_next(n.levels, n.levels.len(), i);
    }
    lemma_with_levels_bound(n.levels, aid, fmt, 9);
    let m = with_levels_s(n.levels, aid, fmt, 9);
    lemma_max_abstract(m, m.len(), aid as int);
}

impl Numbering {
    pub fn is_empty(&self) -> (r: bool)
        ensures
            r == self@.num.is_empty(),
    {
        self.num_to_abstract.is_empty()
    }

    /// The abstract definition that a list id maps to.
    pub fn abstract_id(&self, num_id: i32) -> (r: Option<i32>)
        ensures
            r == self@.num.get(num_id),
    {
        match self.num_to_abstract.get(&num_id) {
            Some(a) => Some(*a),
            None => None,
        }
    }

    fn level_index(&self, aid: i32, ilvl: i32) -> (r: usize)
        ensures
            r == level_index_s(self@.levels, aid, ilvl, 0),
            r <= self.levels@.len(),
    {
        let ghost v = self@.levels;
        let mut i: usize = 0;
        while i < self.levels.len()
            invariant
                i <= self.levels@.len(),
                v == level_entry_vs(self.levels@),
                level_index_s(v, aid, ilvl, 0) == level_index_s(v, aid, ilvl, i as int),
            decreases self.levels@.len() - i,
        {
            assert(v[i as int] == self.levels@[i as int]@);
            if self.levels[i].abstract_id == aid && self.levels[i].ilvl == ilvl {
                return i;
            }
            i = i + 1;
        }
        i
    }

    fn level_of(&self, aid: i32, ilvl: i32) -> (r: Option<&NumLevel>)
        ensures
            r matches Some(l) ==> level_of_s(self@.levels, aid, ilvl) == Some(l@),
            r is None ==> level_of_s(self@.levels, aid, ilvl) is None,
    {
        let i = self.level_index(aid, ilvl);
        if i < self.levels.len() {
            assert(self@.levels[i as int] == self.levels@[i as int]@);
            Some(&self.levels[i].level)
        } else {
            None
        }
    }

    /// The level definition for `(num_id, ilvl)`.
    pub fn level(&self, num_id: i32, ilvl: i32) -> (r: Option<&NumLevel>)
        ensures
            r matches Some(l) ==> self@.num.get(num_id) matches Some(a) && level_of_s(
                self@.levels,
                a,
                ilvl,
            ) == Some(l@),
            r is None ==> (self@.num.get(num_id) matches Some(a) ==> level_of_s(
                self@.levels,
                a,
                ilvl,
            ) is None),
    {
        match self.abstract_id(num_id) {
            Some(a) => self.level_of(a, ilvl),
            None => None,
        }
    }

    fn put_level(&mut self, aid: i32, ilvl: i32, level: NumLevel)
        ensures
            final(self)@ == (NumberingV {
                levels: put_level_s(old(self)@.levels, aid, ilvl, level@),
                ..old(self)@
            }),
    {
        let i = self.level_index(aid, ilvl);
        let ghost was = self@.levels;
        let e = LevelEntry { abstract_id: aid, ilvl, level };
        let ghost ev = e@;
        if i < self.levels.len() {
            self.levels.set(i, e);
            assert(self@.levels =~= was.update(i as int, ev));
        } else {
            self.levels.push(e);
            assert(self@.levels =~= was.push(ev));
        }
    }

    /// The id of an existing list whose level-0 format matches `fmt`, lowest id first.
    pub fn reusable_num_id(&self, fmt: ListFormat) -> (r: Option<i32>)
        ensures
            r == reusable_s(self@, fmt.level0_numfmt_s()),
    {
        let want = fmt.level0_numfmt();
        let ids = sorted_keys(&self.num_to_abstract);
        let mut i: usize = 0;
        while i < ids.len()
            invariant
                i <= ids@.len(),
                want@ == fmt.level0_numfmt_s(),
                self@.num == self.num_to_abstract@,
                keys::keys_in_order_s(self@.num, ids@),
                forall|j: int| 0 <= j < i ==> !listed_s(self@, want@, #[trigger] ids@[j]),
            decreases ids@.len() - i,
        {
            let id = ids[i];
            assert(ids@.contains(id));
            if let Some(aid) = self.num_to_abstract.get(&id) {
                let fits = match self.level_of(*aid, 0) {
                    Some(l) => str_eq(l.fmt.as_str(), want),
                    None => false,
                };
                if fits {
                    proof {
                        assert(listed_s(self@, want@, id));
                        assert forall|x: i32| #[trigger] listed_s(self@, want@, x) implies id <= x by {
                            assert(ids@.contains(x));
                            let j = choose|j: int| 0 <= j < ids@.len() && ids@[j] == x;
                            if j > i {
                                assert(ids@[i as int] < ids@[j]);
                            }
                        }
                        lemma_reusable(self@, want@, id);
                    }
                    return Some(id);
                }
            }
            i = i + 1;
        }
        proof {
            assert forall|x: i32| !(#[trigger] listed_s(self@, want@, x)) by {
                if listed_s(self@, want@, x) {
                    assert(ids@.contains(x));
                    let j = choose|j: int| 0 <= j < ids@.len() && ids@[j] == x;
                    assert(!listed_s(self@, want@, ids@[j]));
                }
            }
            law_reusable_is_least(self@, want@);
        }
        None
    }

    fn next_abstract(&self) -> (r: i32)
        requires
            next_abstract_s(self@.levels) <= i32::MAX,
        ensures
            r == next_abstract_s(self@.levels),
    {
        let ghost v = self@.levels;
        let mut best: Option<i32> = None;
        let mut i: usize = 0;
        while i < self.levels.len()
            invariant
                i <= self.levels@.len(),
                v == level_entry_vs(self.levels@),
                best == max_abstract_s(v, i as nat),
            decreases self.levels@.len() - i,
        {
            assert(v[i as int] == self.levels@[i as int]@);
            let id = self.levels[i].abstract_id;
            best = match best {
                Some(b) => if b >= id {
                    Some(b)
                } else {
                    Some(id)
                },
                None => Some(id),
            };
            i = i + 1;
        }
        match best {
            Some(m) => m + 1,
            None => 0,
        }
    }

    fn next_num(&self) -> (r: i32)
        requires
            next_num_s(self@.num) <= i32::MAX,
        ensures
            r == next_num_s(self@.num),
    {
        let ids = sorted_keys(&self.num_to_abstract);
        let n = ids.len();
        let ghost num = self@.num;
        let m = if n == 0 {
            0
        } else {
            ids[n - 1]
        };
        proof {
            assert forall|k: i32| #[trigger] num.contains_key(k) implies n > 0 && k <= m by {
                assert(ids@.contains(k));
                let j = choose|j: int| 0 <= j < ids@.len() && ids@[j] == k;
                if j < n - 1 {
                    assert(ids@[j] < ids@[n - 1]);
                }
            }
            let x: int = if n == 0 || m < 0 {
                1
            } else {
                m + 1
            };
            if n > 0 {
                assert(ids@.contains(m));
                assert(num.contains_key(m));
            }
            lemma_next_num(num, x);
        }
        if n == 0 || m < 0 {
            1
        } else {
            m + 1
        }
    }

    fn add_synth(&mut self, num_id: i32, fmt: ListFormat)
        requires
            next_abstract_s(old(self)@.levels) <= i32::MAX,
        ensures
            final(self)@ == with_synth_s(old(self)@, num_id, fmt),
    {
        let ghost n = self@;
        let aid = self.next_abstract();
        let mut lvl: usize = 0;
        while lvl < 9
            invariant
                lvl <= 9,
                self@ == (NumberingV {
                    levels: with_levels_s(n.levels, aid, fmt, lvl as nat),
                    ..n
                }),
            decreases 9 - lvl,
        {
            let level = synth_level(fmt, lvl);
            self.put_level(aid, lvl as i32, level);
            lvl = lvl + 1;
        }
        self.num_to_abstract.insert(num_id, aid);
        let bullet = match fmt {
            ListFormat::Bullet => true,
            _ => false,
        };
        self.synth.push(SynthList { num_id, abstract_id: aid, bullet });
        assert(self@ =~= with_synth_s(n, num_id, fmt));
    }

    /// The list id for a list of `fmt`: an existing definition of that kind, else a freshly
    /// created one, recorded for save.
    pub fn ensure_list(&mut self, fmt: ListFormat) -> (r: i32)
        requires
            next_abstract_s(old(self)@.levels) <= i32::MAX,
            next_num_s(old(self)@.num) <= i32::MAX,
        ensures
            (r, final(self)@) == ensured_s(old(self)@, fmt),
    {
        match self.reusable_num_id(fmt) {
            Some(id) => id,
            None => {
                let num_id = self.next_num();
                self.add_synth(num_id, fmt);
                num_id
            },
        }
    }

    /// Whether any definition was created at run time, so that a save must write it.
    pub fn has_synth(&self) -> (r: bool)
        ensures
            r == (self@.synth.len() > 0),
    {
        self.synth.len() > 0
    }

    /// Define a list with an explicit `num_id`; one that is already known is left untouched.
    pub fn insert_synth(&mut self, num_id: i32, fmt: ListFormat)
        requires
            old(self)@.num.contains_key(num_id) || next_abstract_s(old(self)@.levels) <= i32::MAX,
        ensures
            final(self)@ == inserted_s(old(self)@, num_id, fmt),
    {
        if !self.num_to_abstract.contains_key(&num_id) {
            self.add_synth(num_id, fmt);
        }
    }

    /// Rebuild the definitions created at run time from their ids and format tokens, in ascending
    /// order of id.
    pub fn reconcile_synth(&mut self, synth: &HashMap<i32, String>)
        requires
            next_abstract_s(old(self)@.levels) + synth@.len() <= i32::MAX,
            synth@.len() <= i32::MAX,
        ensures
            exists|ids: Seq<i32>| #[trigger]
                keys::keys_in_order_s(synth@, ids) && final(self)@ == reconciled_s(
                    old(self)@,
                    synth@,
                    ids,
                    ids.len(),
                ),
    {
        let ghost base = self@;
        let ids = sorted_keys(synth);
        let mut i: usize = 0;
        while i < ids.len()
            invariant
                i <= ids@.len() == synth@.len(),
                keys::keys_in_order_s(synth@, ids@),
                self@ == reconciled_s(base, synth@, ids@, i as nat),
                next_abstract_s(self@.levels) <= next_abstract_s(base.levels) + i
                    || next_abstract_s(self@.levels) <= i,
                next_abstract_s(base.levels) + synth@.len() <= i32::MAX,
                synth@.len() <= i32::MAX,
            decreases ids@.len() - i,
        {
            let id = ids[i];
            assert(ids@.contains(id));
            if let Some(f) = synth.get(&id) {
                let fmt = ListFormat::from_numfmt(f.as_str());
                proof {
                    lemma_max_abstract(self@.levels, self@.levels.len(), i32::MAX as int);
                    lemma_next_abstract_grows(self@, id, fmt);
                }
                self.insert_synth(id, fmt);
            }
            i = i + 1;
        }
    }

    /// The next free list id for a list created at run time: above every existing one, and at
    /// least the base.
    pub fn next_synth_num_id(&self) -> (r: i32)
        requires
            next_synth_s(self@.synth) <= i32::MAX,
        ensures
            r == next_synth_s(self@.synth),
    {
        let mut best: Option<i32> = None;
        let mut i: usize = 0;
        while i < self.synth.len()
            invariant
                i <= self.synth@.len(),
                self@.synth == self.synth@,
                best == max_synth_s(self@.synth, i as nat),
            decreases self.synth@.len() - i,
        {
            let id = self.synth[i].num_id;
            best = match best {
                Some(b) => if b >= id {
                    Some(b)
                } else {
                    Some(id)
                },
                None => Some(id),
            };
            i = i + 1;
        }
        let top: i32 = match best {
            Some(m) => m,
            None => 0,
        };
        if top < SYNTH_NUM_BASE - 1 {
            SYNTH_NUM_BASE
        } else {
            top + 1
        }
    }

    /// The XML of every definition created at run time: all abstract definitions, then all lists.
    pub fn synth_xml(&self) -> (r: String)
        ensures
            r@ == synth_xml_s(self@),
    {
        let ghost v = self@;
        let mut s = String::new();
        let mut i: usize = 0;
        assert(s@ =~= Seq::empty());
        while i < self.synth.len()
            invariant
                i <= self.synth@.len(),
                v == self@,
                v.synth == self.synth@,
                s@ == abstracts_xml_s(v, i as nat),
            decreases self.synth@.len() - i,
        {
            let aid = self.synth[i].abstract_id;
            let mut one = int_piece("<w:abstractNum w:abstractNumId=\"", aid as i64, "\">");
            let mut levels = String::new();
            let mut l: usize = 0;
            assert(levels@ =~= Seq::empty());
            while l < 9
                invariant
                    l <= 9,
                    v == self@,
                    levels@ == levels_xml_s(v.levels, aid, l as nat),
                decreases 9 - l,
            {
                if let Some(x) = self.level_of(aid, l as i32) {
                    levels.append(level_xml(l, x).as_str());
                } else {
                    assert(levels@ + Seq::<char>::empty() =~= levels@);
                }
                l = l + 1;
            }
            one.append(levels.as_str());
            one.append("</w:abstractNum>");
            s.append(one.as_str());
            i = i + 1;
        }
        let mut nums = String::new();
        let mut j: usize = 0;
        assert(nums@ =~= Seq::empty());
        while j < self.synth.len()
            invariant
                j <= self.synth@.len(),
                v == self@,
                v.synth == self.synth@,
                nums@ == nums_xml_s(v.synth, j as nat),
            decreases self.synth@.len() - j,
        {
            let d = &self.synth[j];
            let mut one = int_piece("<w:num w:numId=\"", d.num_id as i64, "\">");
            one.append(
                int_piece(
                    "<w:abstractNumId w:val=\"",
                    d.abstract_id as i64,
                    "\"/></w:num>",
                ).as_str(),
            );
            nums.append(one.as_str());
            j = j + 1;
        }
        s.append(nums.as_str());
        s
    }
}

/// One level.
pub open spec fn level_xml_s(lvl: nat, l: NumLevelV) -> Seq<char> {
    xml::int_s("<w:lvl w:ilvl=\""@, lvl as int, "\">"@) + xml::int_s(
        "<w:start w:val=\""@,
        l.start as int,
        "\"/>"@,
    ) + xml::esc_piece_s("<w:numFmt w:val=\""@, l.fmt, "\"/>"@) + xml::esc_piece_s(
        "<w:lvlText w:val=\""@,
        l.text,
        "\"/>"@,
    ) + xml::int_s("<w:lvlJc w:val=\"left\"/><w:pPr><w:ind w:left=\""@, l.ind_left as int, "\""@)
        + xml::int_s(" w:hanging=\""@, l.ind_hanging as int, "\"/></w:pPr></w:lvl>"@)
}

fn level_xml(lvl: usize, l: &NumLevel) -> (r: String)
    requires
        lvl < 9,
    ensures
        r@ == level_xml_s(lvl as nat, l@),
{
    let mut s = int_piece("<w:lvl w:ilvl=\"", lvl as i64, "\">");
    s.append(int_piece("<w:start w:val=\"", l.start as i64, "\"/>").as_str());
    s.append(esc_piece("<w:numFmt w:val=\"", l.fmt.as_str(), "\"/>").as_str());
    s.append(esc_piece("<w:lvlText w:val=\"", l.text.as_str(), "\"/>").as_str());
    s.append(
        int_piece(
            "<w:lvlJc w:val=\"left\"/><w:pPr><w:ind w:left=\"",
            l.ind_left as i64,
            "\"",
        ).as_str(),
    );
    s.append(
        int_piece(" w:hanging=\"", l.ind_hanging as i64, "\"/></w:pPr></w:lvl>").as_str(),
    );
    s
}

/// The first `k` levels of a definition that it has.
pub open spec fn levels_xml_s(levels: Seq<LevelEntryV>, aid: i32, k: nat) -> Seq<char>
    decreases k,
{
    if k == 0 {
        Seq::empty()
    } else {
        levels_xml_s(levels, aid, (k - 1) as nat) + match level_of_s(levels, aid, (k - 1) as i32) {
            Some(l) => level_xml_s((k - 1) as nat, l),
            None => Seq::empty(),
        }
    }
}

pub open spec fn abstracts_xml_s(n: NumberingV, k: nat) -> Seq<char>
    decreases k,
{
    if k == 0 {
        Seq::empty()
    } else {
        let aid = n.synth[k - 1].abstract_id;
        abstracts_xml_s(n, (k - 1) as nat) + (xml::int_s(
            "<w:abstractNum w:abstractNumId=\""@,
            aid as int,
            "\">"@,
        ) + levels_xml_s(n.levels, aid, 9) + "</w:abstractNum>"@)
    }
}

pub open spec fn nums_xml_s(synth: Seq<SynthList>, k: nat) -> Seq<char>
    decreases k,
{
    if k == 0 {
        Seq::empty()
    } else {
        let d = synth[k - 1];
        nums_xml_s(synth, (k - 1) as nat) + (xml::int_s(
            "<w:num w:numId=\""@,
            d.num_id as int,
            "\">"@,
        ) + xml::int_s("<w:abstractNumId w:val=\""@, d.abstract_id as int, "\"/></w:num>"@))
    }
}

pub open spec fn synth_xml_s(n: NumberingV) -> Seq<char> {
    abstracts_xml_s(n, n.synth.len()) + nums_xml_s(n.synth, n.synth.len())
}

fn synth_level(fmt: ListFormat, lvl: usize) -> (r: NumLevel)
    requires
        lvl < 9,
    ensures
        r@ == synth_level_s(fmt, lvl as int),
{
    let numfmt = match fmt {
        ListFormat::Decimal => if lvl % 3 == 0 {
            "decimal"
        } else if lvl % 3 == 1 {
            "lowerLetter"
        } else {
            "lowerRoman"
        },
        _ => fmt.level0_numfmt(),
    };
    let text = match fmt {
        ListFormat::Bullet => if lvl % 3 == 0 {
            "\u{2022}".to_string()
        } else if lvl % 3 == 1 {
            "o".to_string()
        } else {
            "\u{25AA}".to_string()
        },
        _ => {
            let mut s = "%".to_string();
            s.append(dec((lvl + 1) as u128).as_str());
            s.append(".");
            s
        },
    };
    NumLevel {
        fmt: numfmt.to_string(),
        text,
        start: 1,
        ind_left: 720 + 360 * lvl as i32,
        ind_hanging: 360,
    }
}

// ---------------------------------------------------------------- reading

/// What reading `word/numbering.xml` has gathered.
pub struct NumberingReader {
    pub out: Numbering,
    pub cur_abstract: Option<i32>,
    pub cur_ilvl: Option<i32>,
    pub cur_level: NumLevel,
    pub cur_num: Option<i32>,
}

/// The mathematical value of a [`NumberingReader`].
#[verifier::ext_equal]
pub struct NumberingReaderV {
    pub out: NumberingV,
    pub cur_abstract: Option<i32>,
    pub cur_ilvl: Option<i32>,
    pub cur_level: NumLevelV,
    pub cur_num: Option<i32>,
}

impl View for NumberingReader {
    type V = NumberingReaderV;

    open spec fn view(&self) -> NumberingReaderV {
        NumberingReaderV {
            out: self.out@,
            cur_abstract: self.cur_abstract,
            cur_ilvl: self.cur_ilvl,
            cur_level: self.cur_level@,
            cur_num: self.cur_num,
        }
    }
}

impl NumberingReaderV {
    pub open spec fn initial() -> NumberingReaderV {
        NumberingReaderV {
            out: NumberingV::initial(),
            cur_abstract: None,
            cur_ilvl: None,
            cur_level: NumLevelV::initial(),
            cur_num: None,
        }
    }
}

/// What an opening or self-closing tag does.
pub open spec fn num_tag_s(s: NumberingReaderV, t: XmlTagV) -> NumberingReaderV {
    let n = t.name;
    if n == "w:abstractNum"@ {
        NumberingReaderV { cur_abstract: events::attr_i32_s(t, "w:abstractNumId"@), ..s }
    } else if n == "w:lvl"@ && s.cur_abstract is Some && s.cur_num is None {
        NumberingReaderV {
            cur_ilvl: events::attr_i32_s(t, "w:ilvl"@),
            cur_level: NumLevelV::initial(),
            ..s
        }
    } else if n == "w:start"@ && s.cur_ilvl is Some {
        NumberingReaderV {
            cur_level: NumLevelV {
                start: events::or_s(events::attr_i32_s(t, "w:val"@), 1),
                ..s.cur_level
            },
            ..s
        }
    } else if n == "w:numFmt"@ && s.cur_ilvl is Some {
        NumberingReaderV {
            cur_level: NumLevelV {
                fmt: events::or_empty_s(events::attr_s(t, "w:val"@)),
                ..s.cur_level
            },
            ..s
        }
    } else if n == "w:lvlText"@ && s.cur_ilvl is Some {
        NumberingReaderV {
            cur_level: NumLevelV {
                text: events::or_empty_s(events::attr_s(t, "w:val"@)),
                ..s.cur_level
            },
            ..s
        }
    } else if n == "w:ind"@ && s.cur_ilvl is Some {
        NumberingReaderV {
            cur_level: NumLevelV {
                ind_left: events::or_s(events::attr_i32_s(t, "w:left"@), 0),
                ind_hanging: events::or_s(events::attr_i32_s(t, "w:hanging"@), 0),
                ..s.cur_level
            },
            ..s
        }
    } else if n == "w:num"@ {
        NumberingReaderV { cur_num: events::attr_i32_s(t, "w:numId"@), ..s }
    } else if n == "w:abstractNumId"@ && s.cur_num is Some {
        match events::attr_i32_s(t, "w:val"@) {
            Some(a) => NumberingReaderV {
                out: NumberingV { num: s.out.num.insert(s.cur_num->0, a), ..s.out },
                ..s
            },
            None => s,
        }
    } else {
        s
    }
}

/// What a closing tag does.
pub open spec fn num_end_s(s: NumberingReaderV, n: Seq<char>) -> NumberingReaderV {
    if n == "w:lvl"@ {
        if s.cur_abstract is Some && s.cur_ilvl is Some {
            NumberingReaderV {
                out: NumberingV {
                    levels: put_level_s(
                        s.out.levels,
                        s.cur_abstract->0,
                        s.cur_ilvl->0,
                        s.cur_level,
                    ),
                    ..s.out
                },
                cur_level: NumLevelV::initial(),
                cur_ilvl: None,
                ..s
            }
        } else {
            NumberingReaderV { cur_ilvl: None, ..s }
        }
    } else if n == "w:abstractNum"@ {
        NumberingReaderV { cur_abstract: None, ..s }
    } else if n == "w:num"@ {
        NumberingReaderV { cur_num: None, ..s }
    } else {
        s
    }
}

pub open spec fn numbering_run_s(steps: Seq<XmlStepV>, n: int) -> NumberingReaderV
    decreases n,
{
    if n <= 0 {
        NumberingReaderV::initial()
    } else {
        let s = numbering_run_s(steps, n - 1);
        match steps[n - 1].event {
            XmlEventV::Start(t) => num_tag_s(s, t),
            XmlEventV::Empty(t) => num_tag_s(s, t),
            XmlEventV::End(name) => num_end_s(s, name),
            _ => s,
        }
    }
}

/// The numbering that a part states.
pub open spec fn numbering_s(steps: Seq<XmlStepV>) -> NumberingV {
    numbering_run_s(steps, events::readable_s(steps, 0)).out
}

impl NumberingReader {
    fn tag(&mut self, t: &XmlTag)
        ensures
            final(self)@ == num_tag_s(old(self)@, t@),
    {
        if is_tag(t, "w:abstractNum") {
            self.cur_abstract = attr_i32(t, "w:abstractNumId");
        } else if is_tag(t, "w:lvl") && self.cur_abstract.is_some() && self.cur_num.is_none() {
            self.cur_ilvl = attr_i32(t, "w:ilvl");
            self.cur_level = NumLevel::default();
        } else if is_tag(t, "w:start") && self.cur_ilvl.is_some() {
            self.cur_level.start = or_else(attr_i32(t, "w:val"), 1);
        } else if is_tag(t, "w:numFmt") && self.cur_ilvl.is_some() {
            self.cur_level.fmt = or_empty(attr(t, "w:val"));
        } else if is_tag(t, "w:lvlText") && self.cur_ilvl.is_some() {
            self.cur_level.text = or_empty(attr(t, "w:val"));
        } else if is_tag(t, "w:ind") && self.cur_ilvl.is_some() {
            self.cur_level.ind_left = or_else(attr_i32(t, "w:left"), 0);
            self.cur_level.ind_hanging = or_else(attr_i32(t, "w:hanging"), 0);
        } else if is_tag(t, "w:num") {
            self.cur_num = attr_i32(t, "w:numId");
        } else if is_tag(t, "w:abstractNumId") {
            if let Some(n) = self.cur_num {
                if let Some(a) = attr_i32(t, "w:val") {
                    self.out.num_to_abstract.insert(n, a);
                }
            }
        }
    }

    fn end(&mut self, n: &str)
        ensures
            final(self)@ == num_end_s(old(self)@, n@),
    {
        if str_eq(n, "w:lvl") {
            let ilvl = self.cur_ilvl;
            self.cur_ilvl = None;
            if let Some(a) = self.cur_abstract {
                if let Some(l) = ilvl {
                    self.out.put_level(a, l, self.cur_level.clone());
                    self.cur_level = NumLevel::default();
                }
            }
        } else if str_eq(n, "w:abstractNum") {
            self.cur_abstract = None;
        } else if str_eq(n, "w:num") {
            self.cur_num = None;
        }
    }
}

/// The numbering of a tokenized part.
pub fn numbering_of(steps: &Vec<XmlStep>) -> (r: Numbering)
    ensures
        r@ == numbering_s(events::xml_step_vs(steps@)),
{
    let n = readable(steps);
    let ghost v = events::xml_step_vs(steps@);
    let mut s = NumberingReader {
        out: Numbering::default(),
        cur_abstract: None,
        cur_ilvl: None,
        cur_level: NumLevel::default(),
        cur_num: None,
    };
    let mut i: usize = 0;
    while i < n
        invariant
            i <= n <= steps@.len(),
            v == events::xml_step_vs(steps@),
            s@ == numbering_run_s(v, i as int),
        decreases n - i,
    {
        assert(v[i as int] == steps@[i as int]@);
        match &steps[i].event {
            XmlEvent::Start(t) => s.tag(t),
            XmlEvent::Empty(t) => s.tag(t),
            XmlEvent::End(name) => s.end(name.as_str()),
            _ => {},
        }
        i = i + 1;
    }
    s.out
}

/// Parse `word/numbering.xml`: the level definitions, and which definition each list follows.
pub fn parse_numbering(xml: &[u8]) -> (r: Numbering)
    ensures
        r@ == numbering_s(events::doc_s(xml@)),
{
    numbering_of(&read_xml(xml))
}

} // verus!
