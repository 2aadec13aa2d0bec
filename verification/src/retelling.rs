//! Runs, with their revisions and their formatting changes, read back from their markup.

use vstd::prelude::*;
use crate::events;
use crate::hearing;
use crate::import::DocReaderV;
use crate::import_text;
use crate::import_text::{ParaReaderV, RunReaderV};
use crate::markup;
use crate::markup::Piece;
use crate::paragraph;
use crate::paragraph::Pen;
use crate::names;
use crate::strs;
use crate::telling;
use crate::types::{FormatChangeV, RunPropsV, RunV, TrackKind, TrackV};
use crate::xml;

verus! {

broadcast use vstd::string::group_string_axioms;

// ---------------------------------------------------------------- putting markup together

/// Whether markup that spells `a` takes the reader from `s0` to `s`.
#[verifier::opaque]
pub open spec fn goes_s(s0: DocReaderV, v: Seq<Piece>, s: DocReaderV, a: Seq<char>) -> bool {
    hearing::takes_s(s0, v, s) && markup::spells_s(v, a)
}

pub(crate) proof fn lemma_goes_none(s: DocReaderV)
    ensures
        goes_s(s, Seq::empty(), s, Seq::empty()),
{
    reveal(goes_s);
    hearing::lemma_takes_none(s);
    markup::lemma_spell_none();
}

pub(crate) proof fn lemma_goes_on(
    s0: DocReaderV,
    v: Seq<Piece>,
    s: DocReaderV,
    a: Seq<char>,
    p: Piece,
    x: Seq<char>,
    e: DocReaderV,
)
    requires
        goes_s(s0, v, s, a),
        hearing::fits_s(s, p),
        x == markup::piece_text_s(p),
        e == hearing::hear_s(s, p),
    ensures
        goes_s(s0, v + seq![p], e, a + x),
{
    reveal(goes_s);
    hearing::lemma_takes_one(s, p);
    hearing::lemma_takes_both(s0, v, s, seq![p], e);
    markup::lemma_spell_one(p);
    markup::lemma_spell_both(v, a, seq![p], x);
}

pub(crate) proof fn lemma_goes_both(
    s0: DocReaderV,
    v: Seq<Piece>,
    s: DocReaderV,
    a: Seq<char>,
    w: Seq<Piece>,
    e: DocReaderV,
    x: Seq<char>,
)
    requires
        goes_s(s0, v, s, a),
        goes_s(s, w, e, x),
    ensures
        goes_s(s0, v + w, e, a + x),
{
    reveal(goes_s);
    hearing::lemma_takes_both(s0, v, s, w, e);
    markup::lemma_spell_both(v, a, w, x);
}

pub(crate) proof fn lemma_goes_tags(s0: DocReaderV, v: Seq<Piece>, s: DocReaderV, a: Seq<char>)
    requires
        telling::told_so_far_s(s0, v, s, a),
    ensures
        goes_s(s0, v, s, a),
        a.len() == 0 ==> s == s0,
{
    reveal(goes_s);
    reveal(telling::told_so_far_s);
    telling::lemma_tags_len(v, v.len());
}

/// A tag before markup and one after it, where there is any.
pub(crate) proof fn lemma_close_text(n: Seq<char>, text: Seq<char>)
    requires
        text == "</"@ + n + ">"@,
    ensures
        markup::piece_text_s(Piece::Close(n)) == text,
{
}

// ---------------------------------------------------------------- formatting changes

/// Whether a formatting change is such as markup states.
pub open spec fn stated_change_s(o: Option<FormatChangeV>) -> bool {
    o matches Some(c) ==> telling::stated_props_s(c.old)
}

/// Whether `e` is the reader `s` after the properties of a run, which are those of `c`.
pub open spec fn props_read_s(s: DocReaderV, e: DocReaderV, c: RunV) -> bool {
    e == (DocReaderV {
        run: RunReaderV {
            cur: c,
            in_rpr: e.run.in_rpr,
            author: e.run.author,
            date: e.run.date,
            id: e.run.id,
            saved: e.run.saved,
            ..s.run
        },
        ..s
    })
}

spec fn change_tag_s(c: FormatChangeV) -> events::XmlTagV {
    markup::tag_s("w:rPrChange"@, telling::revision_attrs_s(c.id as nat, c.author, c.date))
}

proof fn lemma_change_lits()
    ensures
        "<w:rPrChange"@ == "<"@ + "w:rPrChange"@,
        "><w:rPr>"@ == ">"@ + ("<"@ + "w:rPr"@ + ">"@),
        "</w:rPr></w:rPrChange>"@ == ("</"@ + "w:rPr"@ + ">"@) + ("</"@ + "w:rPrChange"@ + ">"@),
        "<w:rPr>"@ == "<"@ + "w:rPr"@ + ">"@,
        "</w:rPr>"@ == "</"@ + "w:rPr"@ + ">"@,
{
    reveal_strlit("<w:rPrChange");
    reveal_strlit("><w:rPr>");
    reveal_strlit("</w:rPr></w:rPrChange>");
    reveal_strlit("<w:rPr>");
    reveal_strlit("</w:rPr>");
    reveal_strlit("<");
    reveal_strlit("</");
    reveal_strlit(">");
    reveal_strlit("w:rPr");
    reveal_strlit("w:rPrChange");
    assert("<w:rPrChange"@ =~= "<"@ + "w:rPrChange"@);
    assert("><w:rPr>"@ =~= ">"@ + ("<"@ + "w:rPr"@ + ">"@));
    assert("</w:rPr></w:rPrChange>"@ =~= ("</"@ + "w:rPr"@ + ">"@) + ("</"@ + "w:rPrChange"@ + ">"@));
    assert("<w:rPr>"@ =~= "<"@ + "w:rPr"@ + ">"@);
    assert("</w:rPr>"@ =~= "</"@ + "w:rPr"@ + ">"@);
}

proof fn lemma_change_text(c: FormatChangeV, b: Seq<char>)
    ensures
        "<w:rPrChange"@ + paragraph::revision_s(c.id as nat, c.author, c.date) + "><w:rPr>"@ + b
            + "</w:rPr></w:rPrChange>"@ == markup::piece_text_s(Piece::Open(change_tag_s(c)))
            + markup::piece_text_s(markup::open_s("w:rPr"@)) + b + markup::piece_text_s(
            Piece::Close("w:rPr"@),
        ) + markup::piece_text_s(Piece::Close("w:rPrChange"@)),
{
    lemma_change_lits();
    telling::lemma_revision_tag("w:rPrChange"@, c.id as nat, c.author, c.date);
    markup::lemma_open_text("w:rPr"@, "<w:rPr>"@);
    let r = paragraph::revision_s(c.id as nat, c.author, c.date);
    let l = "<"@ + "w:rPrChange"@;
    let m = "<"@ + "w:rPr"@ + ">"@;
    let k = "</"@ + "w:rPr"@ + ">"@;
    let n = "</"@ + "w:rPrChange"@ + ">"@;
    assert(l + r + (">"@ + m) + b + (k + n) =~= (l + r + ">"@) + m + b + k + n);
}

/// The places of the reader along the markup of a formatting change.
#[verifier::opaque]
spec fn change_places_s(s: DocReaderV, c: FormatChangeV) -> (
    DocReaderV,
    DocReaderV,
    DocReaderV,
    DocReaderV,
    DocReaderV,
) {
    let s1 = hearing::hear_s(s, Piece::Open(change_tag_s(c)));
    let s2 = hearing::hear_s(s1, markup::open_s("w:rPr"@));
    let s3 = telling::with_cur_s(
        s2,
        RunV { shading: None, ..import_text::with_props_s(s2.run.cur, c.old) },
    );
    let s4 = hearing::hear_s(s3, Piece::Close("w:rPr"@));
    let s5 = hearing::hear_s(s4, Piece::Close("w:rPrChange"@));
    (s1, s2, s3, s4, s5)
}

proof fn lemma_change_places(s: DocReaderV, c: FormatChangeV)
    requires
        s.run.in_run,
        s.run.in_rpr,
        !s.para.in_mark_rpr,
        s.run.cur.fmt_change is None,
    ensures
        ({
            let (s1, s2, s3, s4, s5) = change_places_s(s, c);
            &&& hearing::fits_s(s, Piece::Open(change_tag_s(c)))
            &&& hearing::fits_s(s1, markup::open_s("w:rPr"@))
            &&& s2.run.in_rpr
            &&& telling::no_look_s(s2.run.cur)
            &&& hearing::fits_s(s3, Piece::Close("w:rPr"@))
            &&& hearing::fits_s(s4, Piece::Close("w:rPrChange"@))
            &&& !s5.run.in_rpr
            &&& props_read_s(
                s,
                s5,
                RunV {
                    fmt_change: Some(c),
                    ..import_text::with_props_s(RunV::plain(Seq::empty()), s.run.cur.props())
                },
            )
        }),
{
    reveal(change_places_s);
    let (s1, s2, s3, s4, s5) = change_places_s(s, c);
    telling::lemma_open_change(s, change_tag_s(c));
    telling::lemma_open_rpr(s1);
    telling::lemma_close_rpr(s3);
    telling::lemma_close_change(s4);
    let tt = TrackV { kind: TrackKind::Ins, author: c.author, date: c.date, id: c.id };
    telling::lemma_revision_read("w:rPrChange"@, tt);
    telling::lemma_revision_tag("w:rPrChange"@, c.id as nat, c.author, c.date);
    assert(s4.run.cur.props() =~= c.old);
    assert(s5.run.cur =~= (RunV {
        fmt_change: Some(c),
        ..import_text::with_props_s(RunV::plain(Seq::empty()), s.run.cur.props())
    }));
}

proof fn lemma_five(
    a: Seq<char>,
    x1: Seq<char>,
    x2: Seq<char>,
    x3: Seq<char>,
    x4: Seq<char>,
    x5: Seq<char>,
)
    ensures
        a + x1 + x2 + x3 + x4 + x5 == a + (x1 + x2 + x3 + x4 + x5),
{
    markup::lemma_assoc(a, x1, x2);
    markup::lemma_assoc(a, x1 + x2, x3);
    markup::lemma_assoc(a, x1 + x2 + x3, x4);
    markup::lemma_assoc(a, x1 + x2 + x3 + x4, x5);
}

/// The markup of a formatting change, read after the new properties, gives the change and leaves
/// the new properties.
proof fn lemma_change(
    s0: DocReaderV,
    u: Seq<Piece>,
    s: DocReaderV,
    a: Seq<char>,
    c: FormatChangeV,
) -> (v: Seq<Piece>)
    requires
        goes_s(s0, u, s, a),
        s.run.in_run,
        s.run.in_rpr,
        !s.para.in_mark_rpr,
        s.run.cur.fmt_change is None,
        telling::stated_props_s(c.old),
    ensures
        goes_s(s0, v, change_places_s(s, c).4, a + paragraph::rpr_change_s(Some(c))),
{
    let t = change_tag_s(c);
    let x1 = markup::piece_text_s(Piece::Open(t));
    let x2 = markup::piece_text_s(markup::open_s("w:rPr"@));
    let x3 = paragraph::rpr_body_s(c.old, None);
    let x4 = markup::piece_text_s(Piece::Close("w:rPr"@));
    let x5 = markup::piece_text_s(Piece::Close("w:rPrChange"@));
    lemma_change_places(s, c);
    reveal(change_places_s);
    let (s1, s2, s3, s4, s5) = change_places_s(s, c);
    lemma_goes_on(s0, u, s, a, Piece::Open(t), x1, s1);
    let u1 = u + seq![Piece::Open(t)];
    lemma_goes_on(s0, u1, s1, a + x1, markup::open_s("w:rPr"@), x2, s2);
    let u2 = u1 + seq![markup::open_s("w:rPr"@)];
    let w = lemma_props(s2, c.old, None);
    lemma_goes_both(s0, u2, s2, a + x1 + x2, w, s3, x3);
    let u3 = u2 + w;
    lemma_goes_on(s0, u3, s3, a + x1 + x2 + x3, Piece::Close("w:rPr"@), x4, s4);
    let u4 = u3 + seq![Piece::Close("w:rPr"@)];
    lemma_goes_on(s0, u4, s4, a + x1 + x2 + x3 + x4, Piece::Close("w:rPrChange"@), x5, s5);
    lemma_change_text(c, x3);
    lemma_five(a, x1, x2, x3, x4, x5);
    u4 + seq![Piece::Close("w:rPrChange"@)]
}

/// The markup of run properties, from any place where they stand.
proof fn lemma_props(s: DocReaderV, p: RunPropsV, shading: Option<Seq<char>>) -> (v: Seq<Piece>)
    requires
        s.run.in_rpr,
        telling::no_look_s(s.run.cur),
        telling::stated_props_s(p),
        telling::stated_fill_s(shading),
    ensures
        goes_s(
            s,
            v,
            telling::with_cur_s(
                s,
                RunV { shading, ..import_text::with_props_s(s.run.cur, p) },
            ),
            paragraph::rpr_body_s(p, shading),
        ),
{
    let c0 = s.run.cur;
    let e = Seq::<char>::empty();
    telling::lemma_told_none(s);
    assert(telling::with_cur_s(s, c0) == s);
    reveal(telling::at_cur_s);
    let v = telling::lemma_body(s, Seq::empty(), s, c0, e, p, shading);
    let b = paragraph::rpr_body_s(p, shading);
    assert(e + b =~= b);
    lemma_goes_tags(
        s,
        v,
        telling::with_cur_s(s, RunV { shading, ..import_text::with_props_s(c0, p) }),
        b,
    );
    v
}

// ---------------------------------------------------------------- the properties of a run

/// Whether a run's properties and formatting change are such as markup states. Beside a change
/// stands neither a character style nor a shading.
pub open spec fn stated_look_s(r: RunV) -> bool {
    &&& telling::stated_props_s(r.props())
    &&& telling::stated_fill_s(r.shading)
    &&& stated_change_s(r.fmt_change)
    &&& r.fmt_change is Some ==> r.char_style is None && r.shading is None
}

/// A run's properties alone.
pub open spec fn look_s(r: RunV) -> RunV {
    RunV {
        char_style: r.char_style,
        shading: r.shading,
        fmt_change: r.fmt_change,
        ..import_text::with_props_s(RunV::plain(Seq::empty()), r.props())
    }
}

/// The style and the properties of a run, before its formatting change.
proof fn lemma_style_props(s: DocReaderV, r: RunV) -> (v: Seq<Piece>)
    requires
        s.run.in_rpr,
        s.run.cur == RunV::plain(Seq::empty()),
        stated_look_s(r),
    ensures
        telling::told_so_far_s(
            s,
            v,
            telling::with_cur_s(s, RunV { fmt_change: None, ..look_s(r) }),
            xml::opt_esc_s("<w:rStyle w:val=\""@, r.char_style, "\"/>"@) + paragraph::rpr_body_s(
                r.props(),
                r.shading,
            ),
        ),
{
    let c0 = s.run.cur;
    let e = Seq::<char>::empty();
    let x = xml::opt_esc_s("<w:rStyle w:val=\""@, r.char_style, "\"/>"@);
    let b = paragraph::rpr_body_s(r.props(), r.shading);
    telling::lemma_told_none(s);
    assert(telling::with_cur_s(s, c0) == s);
    reveal(telling::at_cur_s);
    let v1 = telling::lemma_put_char_style(s, Seq::empty(), s, c0, e, r.char_style);
    let c1 = RunV { char_style: r.char_style, ..c0 };
    let v = telling::lemma_body(s, v1, s, c1, e + x, r.props(), r.shading);
    assert(e + x + b =~= x + b);
    assert(RunV { shading: r.shading, ..import_text::with_props_s(c1, r.props()) } =~= (RunV {
        fmt_change: None,
        ..look_s(r)
    }));
    v
}

/// The places of the reader along the properties block of a run: inside it, after the properties,
/// after the formatting change, and after the block.
spec fn rpr_places_s(s: DocReaderV, r: RunV) -> (DocReaderV, DocReaderV, DocReaderV, DocReaderV) {
    let s1 = hearing::hear_s(s, markup::open_s("w:rPr"@));
    let s2 = telling::with_cur_s(s1, RunV { fmt_change: None, ..look_s(r) });
    let s3 = match r.fmt_change {
        Some(c) => change_places_s(s2, c).4,
        None => s2,
    };
    let s4 = hearing::hear_s(s3, Piece::Close("w:rPr"@));
    (s1, s2, s3, s4)
}

proof fn lemma_rpr_opens(s: DocReaderV, r: RunV)
    requires
        s.run.in_run,
        !s.run.in_rpr,
        !s.para.in_mark_rpr,
        s.run.cur == RunV::plain(Seq::empty()),
    ensures
        ({
            let (s1, s2, s3, s4) = rpr_places_s(s, r);
            &&& hearing::fits_s(s, markup::open_s("w:rPr"@))
            &&& s1 == (DocReaderV { run: RunReaderV { in_rpr: true, ..s.run }, ..s })
            &&& s2.run.cur.fmt_change is None
        }),
{
    telling::lemma_open_rpr(s);
}

proof fn lemma_same_look(r: RunV)
    ensures
        ({
            let c = RunV { fmt_change: None, ..look_s(r) };
            &&& c.props() == r.props()
            &&& r.fmt_change is None ==> c == look_s(r)
            &&& r.fmt_change is Some && r.char_style is None && r.shading is None ==> (RunV {
                fmt_change: r.fmt_change,
                ..import_text::with_props_s(RunV::plain(Seq::empty()), c.props())
            }) == look_s(r)
        }),
{
}

/// The reader after the properties and the formatting change of a run.
proof fn lemma_rpr_changed(s: DocReaderV, r: RunV)
    requires
        s.run.in_run,
        s.run.in_rpr,
        !s.para.in_mark_rpr,
        s.run.cur == (RunV { fmt_change: None, ..look_s(r) }),
        stated_look_s(r),
    ensures
        props_read_s(
            s,
            match r.fmt_change {
                Some(c) => change_places_s(s, c).4,
                None => s,
            },
            look_s(r),
        ),
{
    lemma_same_look(r);
    if r.fmt_change is Some {
        lemma_change_places(s, r.fmt_change->0);
    }
}

proof fn lemma_rpr_closes(s: DocReaderV, m: DocReaderV, n: DocReaderV, c: RunV)
    requires
        !s.para.in_mark_rpr,
        m == (DocReaderV { run: RunReaderV { in_rpr: m.run.in_rpr, cur: m.run.cur, ..s.run }, ..s }),
        props_read_s(m, n, c),
    ensures
        hearing::fits_s(n, Piece::Close("w:rPr"@)),
        props_read_s(s, hearing::hear_s(n, Piece::Close("w:rPr"@)), c),
        !hearing::hear_s(n, Piece::Close("w:rPr"@)).run.in_rpr,
{
    telling::lemma_close_rpr(n);
}

proof fn lemma_wrapped(e: Seq<char>, o: Seq<char>, x: Seq<char>, y: Seq<char>, c: Seq<char>)
    requires
        e.len() == 0,
    ensures
        e + o + x + y + c == o + (x + y) + c,
{
    assert(e + o =~= o);
    markup::lemma_assoc(o, x, y);
}

/// The properties block of a run.
pub(crate) proof fn lemma_rpr(s: DocReaderV, r: RunV) -> (o: (Seq<Piece>, DocReaderV))
    requires
        s.run.in_run,
        !s.run.in_rpr,
        !s.para.in_mark_rpr,
        s.run.cur == RunV::plain(Seq::empty()),
        stated_look_s(r),
    ensures
        goes_s(s, o.0, o.1, paragraph::rpr_s(r)),
        props_read_s(s, o.1, look_s(r)),
        !o.1.run.in_rpr,
{
    let x = xml::opt_esc_s("<w:rStyle w:val=\""@, r.char_style, "\"/>"@) + paragraph::rpr_body_s(
        r.props(),
        r.shading,
    );
    let y = paragraph::rpr_change_s(r.fmt_change);
    let pre = markup::open_s("w:rPr"@);
    let post = Piece::Close("w:rPr"@);
    lemma_change_lits();
    markup::lemma_open_text("w:rPr"@, "<w:rPr>"@);
    lemma_rpr_opens(s, r);
    let (s1, s2, s3, s4) = rpr_places_s(s, r);
    lemma_rpr_changed(s2, r);
    lemma_rpr_closes(s, s2, s3, look_s(r));
    let w = lemma_style_props(s1, r);
    lemma_goes_tags(s1, w, s2, x);
    lemma_goes_none(s);
    if (x + y).len() == 0 {
        lemma_change_len(r.fmt_change);
        lemma_same_look(r);
        assert(s2.run.cur == s1.run.cur);
        (Seq::empty(), s)
    } else {
        let e = Seq::<char>::empty();
        let o1 = "<w:rPr>"@;
        lemma_goes_on(s, Seq::empty(), s, e, pre, o1, s1);
        let u1 = Seq::<Piece>::empty() + seq![pre];
        lemma_goes_both(s, u1, s1, e + o1, w, s2, x);
        let u2 = u1 + w;
        let u3 = lemma_maybe_change(s, u2, s2, e + o1 + x, r.fmt_change);
        lemma_goes_on(s, u3, s3, e + o1 + x + y, post, "</w:rPr>"@, s4);
        lemma_wrapped(e, o1, x, y, "</w:rPr>"@);
        (u3 + seq![post], s4)
    }
}

proof fn lemma_maybe_change(
    s0: DocReaderV,
    u: Seq<Piece>,
    s: DocReaderV,
    a: Seq<char>,
    o: Option<FormatChangeV>,
) -> (v: Seq<Piece>)
    requires
        goes_s(s0, u, s, a),
        s.run.in_run,
        s.run.in_rpr,
        !s.para.in_mark_rpr,
        s.run.cur.fmt_change is None,
        stated_change_s(o),
    ensures
        goes_s(
            s0,
            v,
            match o {
                Some(c) => change_places_s(s, c).4,
                None => s,
            },
            a + paragraph::rpr_change_s(o),
        ),
{
    if o is Some {
        lemma_change(s0, u, s, a, o->0)
    } else {
        assert(a + paragraph::rpr_change_s(o) =~= a);
        u
    }
}

proof fn lemma_change_len(o: Option<FormatChangeV>)
    ensures
        paragraph::rpr_change_s(o).len() == 0 ==> o is None,
{
    reveal_strlit("<w:rPrChange");
}

} // verus!
