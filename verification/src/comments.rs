//! `comments.xml` and `commentsExtended.xml`.
//!
//! Reads the comment bodies and the thread state that Word keeps in the separate extended part,
//! and writes both back out.

use vstd::prelude::*;
use crate::events;
use crate::events::{
    attr, attr_u64, is_tag, or_else, or_empty, read_xml, readable, tag_of, XmlEvent, XmlEventV,
    XmlStep, XmlStepV, XmlTag, XmlTagV,
};
use crate::search;
use crate::search::{is_white, split};
use crate::strmap;
use crate::strmap::StrMap;
use crate::strs;
use crate::strs::{chars_of, opt_is, str_eq};
use crate::style_parse;
use crate::style_parse::{hex_char, join};
use crate::types;
use crate::types::{Comment, CommentV};
use crate::xml;
use crate::xml::{esc_piece, num};

verus! {

broadcast use vstd::string::group_string_axioms;

/// A comment as read, with the ids of its body paragraphs.
pub struct ParsedComment {
    pub comment: Comment,
    /// Paragraph ids of the body, by which threads refer to the comment.
    pub para_ids: Vec<String>,
}

/// The mathematical value of a [`ParsedComment`].
#[verifier::ext_equal]
pub struct ParsedCommentV {
    pub comment: CommentV,
    pub para_ids: Seq<Seq<char>>,
}

impl View for ParsedComment {
    type V = ParsedCommentV;

    open spec fn view(&self) -> ParsedCommentV {
        ParsedCommentV { comment: self.comment@, para_ids: search::texts_s(self.para_ids@) }
    }
}

pub open spec fn parsed_comment_vs(s: Seq<ParsedComment>) -> Seq<ParsedCommentV> {
    Seq::new(s.len(), |i: int| s[i]@)
}

// ---------------------------------------------------------------- initials

/// The upper-case form of a text.
pub uninterp spec fn uppercase_s(s: Seq<char>) -> Seq<char>;

/// `str::to_uppercase`: the upper-case form by Unicode, the same for the same text.
#[verifier::external_body]
fn uppercase(s: &str) -> (r: String)
    ensures
        r@ == uppercase_s(s@),
{
    s.to_uppercase()
}

/// The first characters of the first `cap` words among the first `n` characters.
pub open spec fn word_starts_s(s: Seq<char>, n: nat, cap: nat) -> Seq<char>
    decreases n,
{
    if n == 0 {
        Seq::empty()
    } else {
        let before = word_starts_s(s, (n - 1) as nat, cap);
        let starts = !search::is_white_s(s[n - 1]) && (n == 1 || search::is_white_s(s[n - 2]));
        if starts && before.len() < cap {
            before.push(s[n - 1])
        } else {
            before
        }
    }
}

/// The initials of an author: the first characters of the first two words, in upper case.
pub open spec fn initials_s(author: Seq<char>) -> Seq<char> {
    uppercase_s(word_starts_s(author, author.len(), 2))
}

/// Derive initials from an author's display name.
pub fn initials_of(author: &str) -> (r: String)
    ensures
        r@ == initials_s(author@),
{
    let v = chars_of(author);
    let mut s = String::new();
    let mut taken: usize = 0;
    let mut i: usize = 0;
    assert(s@ =~= Seq::empty());
    while i < v.len()
        invariant
            i <= v@.len(),
            v@ == author@,
            taken == s@.len(),
            taken <= 2,
            s@ == word_starts_s(author@, i as nat, 2),
        decreases v@.len() - i,
    {
        let starts = !is_white(v[i]) && (i == 0 || is_white(v[i - 1]));
        if starts && taken < 2 {
            s.push(v[i]);
            taken = taken + 1;
        }
        i = i + 1;
    }
    uppercase(s.as_str())
}

// ---------------------------------------------------------------- reading comments

/// What reading `word/comments.xml` has gathered.
pub struct CommentReader {
    pub out: Vec<ParsedComment>,
    pub cur: Option<Comment>,
    pub para_ids: Vec<String>,
    pub lines: Vec<String>,
    pub line: String,
    pub in_para: bool,
    /// Inside a `w:t`.
    pub capturing: bool,
    pub text: String,
}

/// The mathematical value of a [`CommentReader`].
#[verifier::ext_equal]
pub struct CommentReaderV {
    pub out: Seq<ParsedCommentV>,
    pub cur: Option<CommentV>,
    pub para_ids: Seq<Seq<char>>,
    pub lines: Seq<Seq<char>>,
    pub line: Seq<char>,
    pub in_para: bool,
    pub capturing: bool,
    pub text: Seq<char>,
}

impl View for CommentReader {
    type V = CommentReaderV;

    open spec fn view(&self) -> CommentReaderV {
        CommentReaderV {
            out: parsed_comment_vs(self.out@),
            cur: types::comment_ov(self.cur),
            para_ids: search::texts_s(self.para_ids@),
            lines: search::texts_s(self.lines@),
            line: self.line@,
            in_para: self.in_para,
            capturing: self.capturing,
            text: self.text@,
        }
    }
}

impl CommentReaderV {
    pub open spec fn initial() -> CommentReaderV {
        CommentReaderV {
            out: Seq::empty(),
            cur: None,
            para_ids: Seq::empty(),
            lines: Seq::empty(),
            line: Seq::empty(),
            in_para: false,
            capturing: false,
            text: Seq::empty(),
        }
    }
}

/// The comment that a `w:comment` tag opens.
pub open spec fn opened_comment_s(t: XmlTagV) -> CommentV {
    CommentV {
        id: events::or_s(events::attr_u64_s(t, "w:id"@), 0),
        author: events::or_empty_s(events::attr_s(t, "w:author"@)),
        initials: events::or_empty_s(events::attr_s(t, "w:initials"@)),
        date: events::or_empty_s(events::attr_s(t, "w:date"@)),
        parent: None,
        resolved: false,
        text: Seq::empty(),
    }
}

pub open spec fn comment_start_s(s: CommentReaderV, t: XmlTagV) -> CommentReaderV {
    if t.name == "w:comment"@ {
        CommentReaderV {
            cur: Some(opened_comment_s(t)),
            para_ids: Seq::empty(),
            lines: Seq::empty(),
            ..s
        }
    } else if t.name == "w:p"@ && s.cur is Some {
        CommentReaderV {
            in_para: true,
            line: Seq::empty(),
            para_ids: match events::attr_s(t, "w14:paraId"@) {
                Some(p) => s.para_ids.push(p),
                None => s.para_ids,
            },
            ..s
        }
    } else if t.name == "w:t"@ && s.in_para {
        CommentReaderV { capturing: true, text: Seq::empty(), ..s }
    } else {
        s
    }
}

/// The finished comment: one line of text per paragraph, and initials made from the author where
/// none are given.
pub open spec fn closed_comment_s(c: CommentV, lines: Seq<Seq<char>>) -> CommentV {
    CommentV {
        text: style_parse::join_s(lines, "\n"@, lines.len()),
        initials: if c.initials.len() == 0 {
            initials_s(c.author)
        } else {
            c.initials
        },
        ..c
    }
}

pub open spec fn comment_end_s(s: CommentReaderV, n: Seq<char>) -> CommentReaderV {
    if n == "w:t"@ {
        CommentReaderV { line: s.line + s.text, text: Seq::empty(), capturing: false, ..s }
    } else if n == "w:p"@ && s.in_para {
        CommentReaderV { lines: s.lines.push(s.line), line: Seq::empty(), in_para: false, ..s }
    } else if n == "w:comment"@ {
        match s.cur {
            Some(c) => CommentReaderV {
                out: s.out.push(
                    ParsedCommentV {
                        comment: closed_comment_s(c, s.lines),
                        para_ids: s.para_ids,
                    },
                ),
                cur: None,
                para_ids: Seq::empty(),
                ..s
            },
            None => s,
        }
    } else {
        s
    }
}

/// Captured text, with what does not decode left out.
pub open spec fn comment_text_s(s: CommentReaderV, t: Option<Seq<char>>) -> CommentReaderV {
    match t {
        Some(x) => if s.capturing {
            CommentReaderV { text: s.text + x, ..s }
        } else {
            s
        },
        None => s,
    }
}

pub open spec fn comments_run_s(steps: Seq<XmlStepV>, n: int) -> CommentReaderV
    decreases n,
{
    if n <= 0 {
        CommentReaderV::initial()
    } else {
        let s = comments_run_s(steps, n - 1);
        match steps[n - 1].event {
            XmlEventV::Start(t) => comment_start_s(s, t),
            XmlEventV::Text(x) => comment_text_s(s, x),
            XmlEventV::Ref(x) => comment_text_s(s, x),
            XmlEventV::End(name) => comment_end_s(s, name),
            _ => s,
        }
    }
}

/// The comments that a part states.
pub open spec fn comments_s(steps: Seq<XmlStepV>) -> Seq<ParsedCommentV> {
    comments_run_s(steps, events::readable_s(steps, 0)).out
}

impl CommentReader {
    fn new() -> (r: Self)
        ensures
            r@ == CommentReaderV::initial(),
    {
        let r = CommentReader {
            out: Vec::new(),
            cur: None,
            para_ids: Vec::new(),
            lines: Vec::new(),
            line: String::new(),
            in_para: false,
            capturing: false,
            text: String::new(),
        };
        assert(r@ =~= CommentReaderV::initial());
        r
    }

    fn start(&mut self, t: &XmlTag)
        ensures
            final(self)@ == comment_start_s(old(self)@, t@),
    {
        if is_tag(t, "w:comment") {
            self.cur = Some(
                Comment {
                    id: or_else(attr_u64(t, "w:id"), 0),
                    author: or_empty(attr(t, "w:author")),
                    initials: or_empty(attr(t, "w:initials")),
                    date: or_empty(attr(t, "w:date")),
                    parent: None,
                    resolved: false,
                    text: String::new(),
                },
            );
            self.para_ids = Vec::new();
            self.lines = Vec::new();
            assert(self@ =~= comment_start_s(old(self)@, t@));
        } else if is_tag(t, "w:p") && self.cur.is_some() {
            self.in_para = true;
            self.line = String::new();
            if let Some(p) = attr(t, "w14:paraId") {
                let ghost was = self.para_ids@;
                let ghost pv = p@;
                self.para_ids.push(p);
                assert(search::texts_s(self.para_ids@) =~= search::texts_s(was).push(pv));
            }
            assert(self@ =~= comment_start_s(old(self)@, t@));
        } else if is_tag(t, "w:t") && self.in_para {
            self.capturing = true;
            self.text = String::new();
            assert(self@ =~= comment_start_s(old(self)@, t@));
        }
    }

    fn chars(&mut self, t: &Option<String>)
        ensures
            final(self)@ == comment_text_s(old(self)@, strs::opt_s(*t)),
    {
        if let Some(x) = t {
            if self.capturing {
                self.text.append(x.as_str());
            }
        }
    }

    fn close_comment(&mut self)
        ensures
            final(self)@ == comment_end_s(old(self)@, "w:comment"@),
    {
        proof {
            lemma_names_differ();
        }
        if let Some(c) = &self.cur {
            let initials = if c.initials.as_str().unicode_len() == 0 {
                initials_of(c.author.as_str())
            } else {
                c.initials.clone()
            };
            let comment = Comment {
                id: c.id,
                author: c.author.clone(),
                initials,
                date: c.date.clone(),
                parent: c.parent,
                resolved: c.resolved,
                text: join(&self.lines, "\n"),
            };
            let ghost was = self.out@;
            let mut para_ids: Vec<String> = Vec::new();
            std::mem::swap(&mut para_ids, &mut self.para_ids);
            let p = ParsedComment { comment, para_ids };
            let ghost pv = p@;
            self.out.push(p);
            self.cur = None;
            assert(parsed_comment_vs(self.out@) =~= parsed_comment_vs(was).push(pv));
            assert(self@ =~= comment_end_s(old(self)@, "w:comment"@));
        }
    }

    fn end(&mut self, n: &str)
        ensures
            final(self)@ == comment_end_s(old(self)@, n@),
    {
        if str_eq(n, "w:t") {
            self.line.append(self.text.as_str());
            self.text = String::new();
            self.capturing = false;
            assert(self@ =~= comment_end_s(old(self)@, n@));
        } else if str_eq(n, "w:p") && self.in_para {
            let ghost was = self.lines@;
            let ghost lv = self.line@;
            let mut line = String::new();
            std::mem::swap(&mut line, &mut self.line);
            self.lines.push(line);
            self.in_para = false;
            assert(search::texts_s(self.lines@) =~= search::texts_s(was).push(lv));
            assert(self@ =~= comment_end_s(old(self)@, n@));
        } else if str_eq(n, "w:comment") {
            self.close_comment();
        }
    }
}

proof fn lemma_names_differ()
    ensures
        "w:comment"@ != "w:t"@,
        "w:comment"@ != "w:p"@,
{
    reveal_strlit("w:comment");
    reveal_strlit("w:t");
    reveal_strlit("w:p");
    assert("w:comment"@.len() == 9 && "w:t"@.len() == 3 && "w:p"@.len() == 3);
}

/// The comments of a tokenized part.
pub fn comments_of(steps: &Vec<XmlStep>) -> (r: Vec<ParsedComment>)
    ensures
        parsed_comment_vs(r@) == comments_s(events::xml_step_vs(steps@)),
{
    let n = readable(steps);
    let ghost v = events::xml_step_vs(steps@);
    let mut s = CommentReader::new();
    let mut i: usize = 0;
    while i < n
        invariant
            i <= n <= steps@.len(),
            v == events::xml_step_vs(steps@),
            s@ == comments_run_s(v, i as int),
        decreases n - i,
    {
        assert(v[i as int] == steps@[i as int]@);
        match &steps[i].event {
            XmlEvent::Start(t) => s.start(t),
            XmlEvent::Text(x) => s.chars(x),
            XmlEvent::Ref(x) => s.chars(x),
            XmlEvent::End(name) => s.end(name.as_str()),
            _ => {},
        }
        i = i + 1;
    }
    s.out
}

/// Parse `word/comments.xml`: each comment's body as plain text, one line per paragraph.
pub fn parse_comments(xml: &[u8]) -> (r: Vec<ParsedComment>)
    ensures
        parsed_comment_vs(r@) == comments_s(events::doc_s(xml@)),
{
    comments_of(&read_xml(xml))
}

// ---------------------------------------------------------------- threads

/// The body paragraph ids of the first `m` ids of comment `p`, added to a map.
pub open spec fn ids_of_s(map: Seq<(Seq<char>, u64)>, p: ParsedCommentV, m: nat) -> Seq<
    (Seq<char>, u64),
>
    decreases m,
{
    if m == 0 {
        map
    } else {
        strmap::put_s(ids_of_s(map, p, (m - 1) as nat), p.para_ids[m - 1], p.comment.id)
    }
}

/// Which comment each body paragraph id belongs to, by the first `n` comments; of two comments
/// with one id the later has it.
pub open spec fn para_map_s(ps: Seq<ParsedCommentV>, n: nat) -> Seq<(Seq<char>, u64)>
    decreases n,
{
    if n == 0 {
        Seq::empty()
    } else {
        let p = ps[n - 1];
        ids_of_s(para_map_s(ps, (n - 1) as nat), p, p.para_ids.len())
    }
}

/// The index of the first comment with the id, from `from` on; the length where there is none.
pub open spec fn comment_index_s(ps: Seq<ParsedCommentV>, id: u64, from: int) -> int
    decreases ps.len() - from,
{
    if 0 <= from < ps.len() {
        if ps[from].comment.id == id {
            from
        } else {
            comment_index_s(ps, id, from + 1)
        }
    } else {
        ps.len() as int
    }
}

pub open spec fn looked_up_s(map: Seq<(Seq<char>, u64)>, key: Option<Seq<char>>) -> Option<u64> {
    match key {
        Some(k) => strmap::get_s(map, k),
        None => None,
    }
}

/// The comments with what one `w15:commentEx` states: resolved, and the parent of the thread.
pub open spec fn thread_step_s(
    ps: Seq<ParsedCommentV>,
    map: Seq<(Seq<char>, u64)>,
    t: XmlTagV,
) -> Seq<ParsedCommentV> {
    let done = events::attr_s(t, "w15:done"@);
    match looked_up_s(map, events::attr_s(t, "w15:paraId"@)) {
        Some(id) => {
            let i = comment_index_s(ps, id, 0);
            if i < ps.len() {
                ps.update(
                    i,
                    ParsedCommentV {
                        comment: CommentV {
                            resolved: done == Some("1"@) || done == Some("true"@),
                            parent: looked_up_s(map, events::attr_s(t, "w15:paraIdParent"@)),
                            ..ps[i].comment
                        },
                        ..ps[i]
                    },
                )
            } else {
                ps
            }
        },
        None => ps,
    }
}

pub open spec fn threads_run_s(
    ps: Seq<ParsedCommentV>,
    map: Seq<(Seq<char>, u64)>,
    steps: Seq<XmlStepV>,
    n: int,
) -> Seq<ParsedCommentV>
    decreases n,
{
    if n <= 0 {
        ps
    } else {
        let s = threads_run_s(ps, map, steps, n - 1);
        match events::tag_of_s(steps[n - 1].event) {
            Some(t) => if t.name == "w15:commentEx"@ {
                thread_step_s(s, map, t)
            } else {
                s
            },
            None => s,
        }
    }
}

/// The comments with the thread state of the extended part.
pub open spec fn threaded_s(ps: Seq<ParsedCommentV>, steps: Seq<XmlStepV>) -> Seq<ParsedCommentV> {
    threads_run_s(ps, para_map_s(ps, ps.len()), steps, events::readable_s(steps, 0))
}

fn para_map(ps: &Vec<ParsedComment>) -> (r: StrMap<u64>)
    ensures
        r@ == para_map_s(parsed_comment_vs(ps@), ps@.len()),
{
    let ghost v = parsed_comment_vs(ps@);
    let mut map: StrMap<u64> = StrMap::new();
    let mut i: usize = 0;
    while i < ps.len()
        invariant
            i <= ps@.len(),
            v == parsed_comment_vs(ps@),
            map@ == para_map_s(v, i as nat),
        decreases ps@.len() - i,
    {
        assert(v[i as int] == ps@[i as int]@);
        let ghost before = map@;
        let p = &ps[i];
        let mut j: usize = 0;
        while j < p.para_ids.len()
            invariant
                j <= p.para_ids@.len(),
                map@ == ids_of_s(before, p@, j as nat),
            decreases p.para_ids@.len() - j,
        {
            assert(p@.para_ids[j as int] == p.para_ids@[j as int]@);
            map.insert(p.para_ids[j].as_str(), p.comment.id);
            j = j + 1;
        }
        i = i + 1;
    }
    map
}

fn looked_up(map: &StrMap<u64>, key: &Option<String>) -> (r: Option<u64>)
    ensures
        r == looked_up_s(map@, strs::opt_s(*key)),
{
    match key {
        Some(k) => match map.get(k.as_str()) {
            Some(v) => Some(*v),
            None => None,
        },
        None => None,
    }
}

fn thread_step(ps: &mut Vec<ParsedComment>, map: &StrMap<u64>, t: &XmlTag)
    ensures
        parsed_comment_vs(final(ps)@) == thread_step_s(parsed_comment_vs(old(ps)@), map@, t@),
{
    let ghost v = parsed_comment_vs(ps@);
    if let Some(id) = looked_up(map, &attr(t, "w15:paraId")) {
        let mut i: usize = 0;
        let len = ps.len();
        while i < len
            invariant_except_break
                comment_index_s(v, id, 0) == comment_index_s(v, id, i as int),
            invariant
                i <= len == ps@.len(),
                v == parsed_comment_vs(ps@),
            ensures
                comment_index_s(v, id, 0) == i,
            decreases len - i,
        {
            assert(v[i as int] == ps@[i as int]@);
            if ps[i].comment.id == id {
                break;
            }
            i = i + 1;
        }
        if i < len {
            assert(v[i as int] == ps@[i as int]@);
            let done = attr(t, "w15:done");
            let parent = looked_up(map, &attr(t, "w15:paraIdParent"));
            let resolved = opt_is(&done, "1") || opt_is(&done, "true");
            let ghost was = ps@;
            let mut c = ps[i].comment.clone();
            c.resolved = resolved;
            c.parent = parent;
            let mut ids: Vec<String> = Vec::new();
            let ghost iv = v[i as int].para_ids;
            let mut k: usize = 0;
            assert(search::texts_s(ids@) =~= iv.subrange(0, 0));
            while k < ps[i as usize].para_ids.len()
                invariant
                    i < ps@.len(),
                    k <= ps@[i as int].para_ids@.len(),
                    iv == search::texts_s(ps@[i as int].para_ids@),
                    search::texts_s(ids@) == iv.subrange(0, k as int),
                decreases ps@[i as int].para_ids@.len() - k,
            {
                let ghost before = ids@;
                ids.push(ps[i].para_ids[k].clone());
                k = k + 1;
                proof {
                    assert(iv[k - 1] == ps@[i as int].para_ids@[k - 1]@);
                    assert(search::texts_s(ids@) =~= search::texts_s(before).push(iv[k - 1]));
                    assert(search::texts_s(ids@) =~= iv.subrange(0, k as int));
                }
            }
            assert(iv.subrange(0, k as int) =~= iv);
            let new = ParsedComment { comment: c, para_ids: ids };
            let ghost nv = new@;
            ps.set(i, new);
            assert(parsed_comment_vs(ps@) =~= v.update(i as int, nv));
        }
    }
}

/// Put the thread state of a tokenized extended part onto parsed comments.
pub fn apply_threads(steps: &Vec<XmlStep>, parsed: &mut Vec<ParsedComment>)
    ensures
        parsed_comment_vs(final(parsed)@) == threaded_s(
            parsed_comment_vs(old(parsed)@),
            events::xml_step_vs(steps@),
        ),
{
    let map = para_map(parsed);
    let n = readable(steps);
    let ghost v = events::xml_step_vs(steps@);
    let ghost base = parsed_comment_vs(parsed@);
    let mut i: usize = 0;
    while i < n
        invariant
            i <= n <= steps@.len(),
            v == events::xml_step_vs(steps@),
            parsed_comment_vs(parsed@) == threads_run_s(base, map@, v, i as int),
        decreases n - i,
    {
        assert(v[i as int] == steps@[i as int]@);
        if let Some(t) = tag_of(&steps[i].event) {
            if is_tag(t, "w15:commentEx") {
                thread_step(parsed, &map, t);
            }
        }
        i = i + 1;
    }
}

/// Resolve threading and resolved state from `word/commentsExtended.xml` onto parsed comments.
pub fn apply_comments_extended(xml: &[u8], parsed: &mut Vec<ParsedComment>)
    ensures
        parsed_comment_vs(final(parsed)@) == threaded_s(
            parsed_comment_vs(old(parsed)@),
            events::doc_s(xml@),
        ),
{
    apply_threads(&read_xml(xml), parsed);
}

// ---------------------------------------------------------------- writing

/// A number in upper-case hexadecimal.
pub open spec fn hex_num_s(n: nat) -> Seq<char>
    decreases n,
{
    if n < 16 {
        seq![style_parse::hex_char_s(n as int)]
    } else {
        hex_num_s(n / 16).push(style_parse::hex_char_s(n as int % 16))
    }
}

/// The text with zeros in front, up to `width` characters.
pub open spec fn zero_padded_s(s: Seq<char>, width: nat) -> Seq<char>
    decreases width - s.len(),
{
    if s.len() < width {
        zero_padded_s(seq!['0'] + s, width)
    } else {
        s
    }
}

/// The number behind the paragraph id of line `line` of comment `id`.
pub open spec fn para_num_s(id: u64, line: u64) -> nat {
    ((0x1000_0000 + id * 16 + line) % 0x1_0000_0000_0000_0000) as nat
}

/// The paragraph id of line `line` of comment `id`.
pub open spec fn para_id_s(id: u64, line: u64) -> Seq<char> {
    zero_padded_s(hex_num_s(para_num_s(id, line)), 8)
}

fn hex_num(n: u64) -> (r: String)
    ensures
        r@ == hex_num_s(n as nat),
    decreases n,
{
    if n < 16 {
        let mut s = String::new();
        s.push(hex_char(n as u8));
        assert(s@ =~= seq![style_parse::hex_char_s(n as int)]);
        s
    } else {
        let mut s = hex_num(n / 16);
        s.push(hex_char((n % 16) as u8));
        s
    }
}

/// Deterministic paragraph id for a comment body line: from the comment's id, so that a save is
/// reproducible.
pub fn comment_para_id(id: u64, line: u64) -> (r: String)
    ensures
        r@ == para_id_s(id, line),
{
    let n = (0x1000_0000u128 + id as u128 * 16 + line as u128) % 0x1_0000_0000_0000_0000u128;
    let mut s = hex_num(n as u64);
    let ghost digits = s@;
    while s.as_str().unicode_len() < 8
        invariant
            zero_padded_s(s@, 8) == zero_padded_s(digits, 8),
        decreases 8 - s@.len(),
    {
        let mut p = "0".to_string();
        proof {
            reveal_strlit("0");
            assert("0"@ =~= seq!['0']);
        }
        p.append(s.as_str());
        s = p;
    }
    s
}

proof fn lemma_hex_char_injective(a: int, b: int)
    requires
        0 <= a < 16,
        0 <= b < 16,
        style_parse::hex_char_s(a) == style_parse::hex_char_s(b),
    ensures
        a == b,
{
    let ca = if a < 10 {
        a + '0' as int
    } else {
        a - 10 + 'A' as int
    };
    let cb = if b < 10 {
        b + '0' as int
    } else {
        b - 10 + 'A' as int
    };
    assert(style_parse::hex_char_s(a) as int == ca);
    assert(style_parse::hex_char_s(b) as int == cb);
}

proof fn lemma_hex_len(n: nat)
    ensures
        hex_num_s(n).len() >= 1,
        n >= 0x1000_0000 ==> hex_num_s(n).len() >= 8,
    decreases n,
{
    reveal_with_fuel(hex_num_s, 9);
}

proof fn lemma_hex_injective(a: nat, b: nat)
    requires
        hex_num_s(a) == hex_num_s(b),
    ensures
        a == b,
    decreases a,
{
    lemma_hex_len(a / 16);
    lemma_hex_len(b / 16);
    let x = hex_num_s(a);
    let y = hex_num_s(b);
    if a < 16 && b < 16 {
        assert(x == seq![style_parse::hex_char_s(a as int)]);
        assert(y == seq![style_parse::hex_char_s(b as int)]);
        assert(x[0] == style_parse::hex_char_s(a as int));
        assert(y[0] == style_parse::hex_char_s(b as int));
        lemma_hex_char_injective(a as int, b as int);
    } else if a < 16 {
        assert(x.len() == 1 && y.len() >= 2);
    } else if b < 16 {
        assert(y.len() == 1 && x.len() >= 2);
    } else {
        assert(x == hex_num_s(a / 16).push(style_parse::hex_char_s(a as int % 16)));
        assert(y == hex_num_s(b / 16).push(style_parse::hex_char_s(b as int % 16)));
        assert(x.last() == style_parse::hex_char_s(a as int % 16));
        assert(y.last() == style_parse::hex_char_s(b as int % 16));
        lemma_hex_char_injective(a as int % 16, b as int % 16);
        assert(x.drop_last() =~= hex_num_s(a / 16));
        assert(y.drop_last() =~= hex_num_s(b / 16));
        lemma_hex_injective(a / 16, b / 16);
    }
}

/// Up to 16 body lines per comment have paragraph ids of their own, for comment ids below 2^59.
pub proof fn law_comment_para_ids_are_distinct(id: u64, line: u64, other: u64, other_line: u64)
    requires
        line < 16,
        other_line < 16,
        id < 0x800_0000_0000_0000,
        other < 0x800_0000_0000_0000,
        para_id_s(id, line) == para_id_s(other, other_line),
    ensures
        id == other,
        line == other_line,
{
    let a = para_num_s(id, line);
    let b = para_num_s(other, other_line);
    assert(a == 0x1000_0000 + id * 16 + line);
    assert(b == 0x1000_0000 + other * 16 + other_line);
    lemma_hex_len(a);
    lemma_hex_len(b);
    lemma_hex_injective(a, b);
}

/// The lines of a body: split at line breaks; an empty body is one empty line.
pub open spec fn body_lines_s(text: Seq<char>) -> Seq<Seq<char>> {
    search::split_s(text, '\n')
}

pub open spec fn lines_xml_s(id: u64, lines: Seq<Seq<char>>, n: nat) -> Seq<char>
    decreases n,
{
    if n == 0 {
        Seq::empty()
    } else {
        lines_xml_s(id, lines, (n - 1) as nat) + ("<w:p w14:paraId=\""@ + para_id_s(
            id,
            (n - 1) as u64,
        ) + xml::esc_piece_s(
            "\"><w:r><w:t xml:space=\"preserve\">"@,
            lines[n - 1],
            "</w:t></w:r></w:p>"@,
        ))
    }
}

pub open spec fn comment_xml_s(c: CommentV) -> Seq<char> {
    let lines = body_lines_s(c.text);
    xml::num_s("<w:comment w:id=\""@, c.id as nat, "\""@) + xml::esc_piece_s(
        " w:author=\""@,
        c.author,
        "\""@,
    ) + xml::esc_piece_s(" w:date=\""@, c.date, "\""@) + xml::esc_piece_s(
        " w:initials=\""@,
        c.initials,
        "\">"@,
    ) + lines_xml_s(c.id, lines, lines.len()) + "</w:comment>"@
}

pub open spec fn comments_body_s(cs: Seq<CommentV>, n: nat) -> Seq<char>
    decreases n,
{
    if n == 0 {
        Seq::empty()
    } else {
        comments_body_s(cs, (n - 1) as nat) + comment_xml_s(cs[n - 1])
    }
}

/// A whole comments part.
pub open spec fn comments_xml_s(cs: Seq<CommentV>) -> Seq<char> {
    "<?xml version=\"1.0\" encoding=\"UTF-8\" standalone=\"yes\"?>\r\n<w:comments xmlns:w=\"http://schemas.openxmlformats.org/wordprocessingml/2006/main\" xmlns:w14=\"http://schemas.microsoft.com/office/word/2010/wordml\">"@
        + comments_body_s(cs, cs.len()) + "</w:comments>"@
}

fn comment_xml(c: &Comment) -> (r: String)
    ensures
        r@ == comment_xml_s(c@),
{
    let mut s = num("<w:comment w:id=\"", c.id as u128, "\"");
    s.append(esc_piece(" w:author=\"", c.author.as_str(), "\"").as_str());
    s.append(esc_piece(" w:date=\"", c.date.as_str(), "\"").as_str());
    s.append(esc_piece(" w:initials=\"", c.initials.as_str(), "\">").as_str());
    let lines = split(c.text.as_str(), '\n');
    let ghost lv = search::texts_s(lines@);
    let mut body = String::new();
    let mut j: usize = 0;
    assert(body@ =~= Seq::empty());
    while j < lines.len()
        invariant
            j <= lines@.len(),
            lv == search::texts_s(lines@),
            body@ == lines_xml_s(c.id, lv, j as nat),
        decreases lines@.len() - j,
    {
        assert(lv[j as int] == lines@[j as int]@);
        let mut one = "<w:p w14:paraId=\"".to_string();
        one.append(comment_para_id(c.id, j as u64).as_str());
        one.append(
            esc_piece(
                "\"><w:r><w:t xml:space=\"preserve\">",
                lines[j].as_str(),
                "</w:t></w:r></w:p>",
            ).as_str(),
        );
        body.append(one.as_str());
        j = j + 1;
    }
    s.append(body.as_str());
    s.append("</w:comment>");
    s
}

/// Serialize the comments to `word/comments.xml`: one paragraph per line of the body.
pub fn export_comments_xml(comments: &Vec<Comment>) -> (r: String)
    ensures
        r@ == comments_xml_s(types::comment_vs(comments@)),
{
    let ghost v = types::comment_vs(comments@);
    let mut body = String::new();
    let mut i: usize = 0;
    assert(body@ =~= Seq::empty());
    while i < comments.len()
        invariant
            i <= comments@.len(),
            v == types::comment_vs(comments@),
            body@ == comments_body_s(v, i as nat),
        decreases comments@.len() - i,
    {
        assert(v[i as int] == comments@[i as int]@);
        body.append(comment_xml(&comments[i]).as_str());
        i = i + 1;
    }
    let mut s =
        "<?xml version=\"1.0\" encoding=\"UTF-8\" standalone=\"yes\"?>\r\n<w:comments xmlns:w=\"http://schemas.openxmlformats.org/wordprocessingml/2006/main\" xmlns:w14=\"http://schemas.microsoft.com/office/word/2010/wordml\">".to_string();
    s.append(body.as_str());
    s.append("</w:comments>");
    s
}

pub open spec fn thread_xml_s(c: CommentV) -> Seq<char> {
    "<w15:commentEx w15:paraId=\""@ + para_id_s(c.id, 0) + "\""@ + match c.parent {
        Some(p) => " w15:paraIdParent=\""@ + para_id_s(p, 0) + "\""@,
        None => Seq::empty(),
    } + if c.resolved {
        " w15:done=\"1\"/>"@
    } else {
        " w15:done=\"0\"/>"@
    }
}

pub open spec fn threads_body_s(cs: Seq<CommentV>, n: nat) -> Seq<char>
    decreases n,
{
    if n == 0 {
        Seq::empty()
    } else {
        threads_body_s(cs, (n - 1) as nat) + thread_xml_s(cs[n - 1])
    }
}

/// A whole extended comments part.
pub open spec fn threads_xml_s(cs: Seq<CommentV>) -> Seq<char> {
    "<?xml version=\"1.0\" encoding=\"UTF-8\" standalone=\"yes\"?>\r\n<w15:commentsEx xmlns:w15=\"http://schemas.microsoft.com/office/word/2012/wordml\">"@
        + threads_body_s(cs, cs.len()) + "</w15:commentsEx>"@
}

fn thread_xml(c: &Comment) -> (r: String)
    ensures
        r@ == thread_xml_s(c@),
{
    let mut s = "<w15:commentEx w15:paraId=\"".to_string();
    s.append(comment_para_id(c.id, 0).as_str());
    s.append("\"");
    let mut parent = String::new();
    assert(parent@ =~= Seq::empty());
    if let Some(p) = c.parent {
        parent = " w15:paraIdParent=\"".to_string();
        parent.append(comment_para_id(p, 0).as_str());
        parent.append("\"");
    }
    s.append(parent.as_str());
    s.append(
        if c.resolved {
            " w15:done=\"1\"/>"
        } else {
            " w15:done=\"0\"/>"
        },
    );
    s
}

/// Serialize the thread state to `word/commentsExtended.xml`.
pub fn export_comments_extended_xml(comments: &Vec<Comment>) -> (r: String)
    ensures
        r@ == threads_xml_s(types::comment_vs(comments@)),
{
    let ghost v = types::comment_vs(comments@);
    let mut body = String::new();
    let mut i: usize = 0;
    assert(body@ =~= Seq::empty());
    while i < comments.len()
        invariant
            i <= comments@.len(),
            v == types::comment_vs(comments@),
            body@ == threads_body_s(v, i as nat),
        decreases comments@.len() - i,
    {
        assert(v[i as int] == comments@[i as int]@);
        body.append(thread_xml(&comments[i]).as_str());
        i = i + 1;
    }
    let mut s =
        "<?xml version=\"1.0\" encoding=\"UTF-8\" standalone=\"yes\"?>\r\n<w15:commentsEx xmlns:w15=\"http://schemas.microsoft.com/office/word/2012/wordml\">".to_string();
    s.append(body.as_str());
    s.append("</w15:commentsEx>");
    s
}

} // verus!
