//! Runs read back from the markup that they are written as.

use vstd::prelude::*;
use crate::events;
use crate::events::XmlTagV;
use crate::hearing;
use crate::import::DocReaderV;
use crate::import_text;
use crate::import_text::{ParaReaderV, RunReaderV};
use crate::markup;
use crate::markup::Piece;
use crate::names;
use crate::paragraph;
use crate::paragraph::Pen;
use crate::strs;
use crate::style_parse;
use crate::types::{FormatChangeV, RunPropsV, RunV, TrackKind, TrackV};
use crate::xml;

verus! {

broadcast use vstd::string::group_string_axioms;

// ---------------------------------------------------------------- tags of a run

pub open spec fn is_run_leaf_s(n: Seq<char>) -> bool {
    n == "w:rStyle"@ || n == "w:rFonts"@ || n == "w:b"@ || n == "w:i"@ || n == "w:strike"@ || n
        == "w:color"@ || n == "w:sz"@ || n == "w:szCs"@ || n == "w:highlight"@ || n == "w:u"@ || n
        == "w:shd"@ || n == "w:vertAlign"@ || n == "w:lang"@
}

/// The reader with other properties of the open run.
pub open spec fn with_cur_s(s: DocReaderV, r: RunV) -> DocReaderV {
    DocReaderV { run: RunReaderV { cur: r, ..s.run }, ..s }
}

pub(crate) proof fn lemma_leaf(s: DocReaderV, t: XmlTagV)
    requires
        s.run.in_rpr,
        is_run_leaf_s(t.name),
    ensures
        hearing::hear_s(s, Piece::Bare(t)) == with_cur_s(s, import_text::run_prop_s(s.run.cur, t)),
        hearing::fits_s(s, Piece::Bare(t)),
{
    reveal(hearing::hear_s);
    names::lemma_codes();
}

pub(crate) proof fn lemma_open_run(s: DocReaderV)
    requires
        s.para.in_para,
    ensures
        hearing::hear_s(s, markup::open_s("w:r"@)) == (DocReaderV {
            run: RunReaderV { in_run: true, cur: RunV::plain(Seq::empty()), ..s.run },
            ..s
        }),
        hearing::fits_s(s, markup::open_s("w:r"@)),
{
    reveal(hearing::hear_s);
    names::lemma_codes();
}

pub(crate) proof fn lemma_close_run(s: DocReaderV)
    ensures
        hearing::hear_s(s, Piece::Close("w:r"@)) == (DocReaderV {
            run: RunReaderV {
                in_run: false,
                cur: RunV { bold: false, italic: false, ..s.run.cur },
                ..s.run
            },
            ..s
        }),
        hearing::fits_s(s, Piece::Close("w:r"@)),
{
    reveal(hearing::hear_s);
    names::lemma_codes();
}

pub(crate) proof fn lemma_open_rpr(s: DocReaderV)
    requires
        s.run.in_run,
    ensures
        hearing::hear_s(s, markup::open_s("w:rPr"@)) == (DocReaderV {
            run: RunReaderV { in_rpr: true, ..s.run },
            ..s
        }),
        hearing::fits_s(s, markup::open_s("w:rPr"@)),
{
    reveal(hearing::hear_s);
    names::lemma_codes();
}

pub(crate) proof fn lemma_close_rpr(s: DocReaderV)
    requires
        !s.para.in_mark_rpr,
    ensures
        hearing::hear_s(s, Piece::Close("w:rPr"@)) == (DocReaderV {
            run: RunReaderV { in_rpr: false, ..s.run },
            ..s
        }),
        hearing::fits_s(s, Piece::Close("w:rPr"@)),
{
    reveal(hearing::hear_s);
    names::lemma_codes();
}

/// The start tag of the text of a run.
pub open spec fn text_tag_s(del: bool) -> XmlTagV {
    markup::tag_s(
        if del {
            "w:delText"@
        } else {
            "w:t"@
        },
        seq![("xml:space"@, "preserve"@)],
    )
}

pub open spec fn text_name_s(del: bool) -> Seq<char> {
    if del {
        "w:delText"@
    } else {
        "w:t"@
    }
}

pub(crate) proof fn lemma_open_text(s: DocReaderV, del: bool)
    requires
        s.run.in_run,
        !s.run.in_rpr,
    ensures
        hearing::hear_s(s, Piece::Open(text_tag_s(del))) == (DocReaderV {
            run: RunReaderV { capturing: true, del_text: del, ..s.run },
            ..s
        }),
        hearing::fits_s(s, Piece::Open(text_tag_s(del))),
{
    reveal(hearing::hear_s);
    names::lemma_codes();
}

pub(crate) proof fn lemma_close_text(s: DocReaderV, del: bool)
    requires
        s.run.text.len() > 0,
        !s.run.field_active,
    ensures
        hearing::hear_s(s, Piece::Close(text_name_s(del))) == (DocReaderV {
            para: ParaReaderV {
                segs: s.para.segs.push(
                    RunV {
                        text: s.run.text,
                        track: import_text::text_track_s(s.run),
                        ..s.run.cur
                    },
                ),
                ..s.para
            },
            run: RunReaderV { text: Seq::empty(), capturing: false, del_text: false, ..s.run },
            ..s
        }),
        hearing::fits_s(s, Piece::Close(text_name_s(del))),
{
    reveal(hearing::hear_s);
    names::lemma_codes();
}

/// The name of the element around the runs of a revision, by what the revision is.
pub open spec fn wraps_s(n: Seq<char>, kind: TrackKind) -> bool {
    match kind {
        TrackKind::Ins => n == "w:ins"@,
        TrackKind::Del => n == "w:del"@,
        TrackKind::MoveFrom => n == "w:moveFrom"@,
        TrackKind::MoveTo => n == "w:moveTo"@,
        TrackKind::Fmt => false,
    }
}

/// Whether no range of a move is open.
pub open spec fn no_move_s(s: DocReaderV) -> bool {
    s.marks.move_from is None && s.marks.move_to is None
}

pub(crate) proof fn lemma_open_wrapper(s: DocReaderV, t: XmlTagV, kind: TrackKind)
    requires
        s.para.in_para,
        no_move_s(s),
        wraps_s(t.name, kind),
    ensures
        hearing::hear_s(s, Piece::Open(t)) == (DocReaderV {
            run: RunReaderV { track: Some(events::revision_track_s(t, kind)), ..s.run },
            ..s
        }),
        hearing::fits_s(s, Piece::Open(t)),
{
    reveal(hearing::hear_s);
    names::lemma_codes();
}

pub(crate) proof fn lemma_close_wrapper(s: DocReaderV, n: Seq<char>, kind: TrackKind)
    requires
        wraps_s(n, kind),
    ensures
        hearing::hear_s(s, Piece::Close(n)) == (DocReaderV {
            run: RunReaderV { track: None, ..s.run },
            ..s
        }),
        hearing::fits_s(s, Piece::Close(n)),
{
    reveal(hearing::hear_s);
    names::lemma_codes();
}

pub(crate) proof fn lemma_open_change(s: DocReaderV, t: XmlTagV)
    requires
        s.run.in_rpr,
        t.name == "w:rPrChange"@,
    ensures
        hearing::hear_s(s, Piece::Open(t)) == (DocReaderV {
            run: RunReaderV {
                saved: Some(s.run.cur.props()),
                author: events::or_empty_s(events::attr_s(t, "w:author"@)),
                date: events::or_empty_s(events::attr_s(t, "w:date"@)),
                id: events::or_s(events::attr_u64_s(t, "w:id"@), 0),
                cur: RunV { fmt_change: s.run.cur.fmt_change, ..RunV::plain(Seq::empty()) },
                ..s.run
            },
            ..s
        }),
        hearing::fits_s(s, Piece::Open(t)),
{
    reveal(hearing::hear_s);
    names::lemma_codes();
}

pub(crate) proof fn lemma_close_change(s: DocReaderV)
    ensures
        hearing::hear_s(s, Piece::Close("w:rPrChange"@)) == (DocReaderV {
            run: import_text::format_change_closed_s(s.run),
            ..s
        }),
        hearing::fits_s(s, Piece::Close("w:rPrChange"@)),
{
    reveal(hearing::hear_s);
    names::lemma_codes();
}

// ---------------------------------------------------------------- revisions

/// The attributes of a revision; an empty date is left out.
pub open spec fn revision_attrs_s(id: nat, author: Seq<char>, date: Seq<char>) -> Seq<
    (Seq<char>, Seq<char>),
> {
    let v = seq![("w:id"@, strs::dec_s(id)), ("w:author"@, author)];
    if date.len() == 0 {
        v
    } else {
        v.push(("w:date"@, date))
    }
}

pub(crate) proof fn lemma_revision_tag(name: Seq<char>, id: nat, author: Seq<char>, date: Seq<char>)
    ensures
        ({
            let t = markup::tag_s(name, revision_attrs_s(id, author, date));
            &&& markup::attrs_text_s(t.attrs, t.attrs.len()) == paragraph::revision_s(id, author, date)
            &&& events::attr_s(t, "w:id"@) == Some(strs::dec_s(id))
            &&& events::or_empty_s(events::attr_s(t, "w:author"@)) == author
            &&& events::or_empty_s(events::attr_s(t, "w:date"@)) == date
            &&& t.name == name
        }),
{
    let e = Seq::<(Seq<char>, Seq<char>)>::empty();
    let a = e.push(("w:id"@, strs::dec_s(id)));
    let b = a.push(("w:author"@, author));
    let c = b.push(("w:date"@, date));
    let v = revision_attrs_s(id, author, date);
    markup::lemma_no_attrs(name);
    markup::lemma_attrs_push(name, e, "w:id"@, strs::dec_s(id));
    markup::lemma_attrs_push(name, a, "w:author"@, author);
    markup::lemma_attrs_push(name, b, "w:date"@, date);
    markup::lemma_esc_dec(id);
    assert(v =~= (if date.len() == 0 {
        b
    } else {
        c
    }));
    assert(" w:id=\""@ =~= " "@ + "w:id"@ + "=\""@ && "\" w:author=\""@ =~= "\""@ + " "@ + "w:author"@
        + "=\""@ && " w:date=\""@ =~= " "@ + "w:date"@ + "=\""@) by {
        reveal_strlit(" w:id=\"");
        reveal_strlit("\" w:author=\"");
        reveal_strlit(" w:date=\"");
        reveal_strlit(" ");
        reveal_strlit("=\"");
        reveal_strlit("\"");
        reveal_strlit("w:id");
        reveal_strlit("w:author");
        reveal_strlit("w:date");
    }
    let t = markup::tag_s(name, v);
    assert(markup::attrs_text_s(t.attrs, t.attrs.len()) =~= paragraph::revision_s(id, author, date));
    markup::lemma_attr(name, v);
    names::lemma_codes();
    reveal_with_fuel(markup::value_s, 5);
    if date.len() == 0 {
        assert(date =~= Seq::empty());
    }
}

pub(crate) proof fn lemma_revision_read(name: Seq<char>, t: TrackV)
    ensures
        events::revision_track_s(
            markup::tag_s(name, revision_attrs_s(t.id as nat, t.author, t.date)),
            t.kind,
        ) == t,
        events::attr_u64_s(
            markup::tag_s(name, revision_attrs_s(t.id as nat, t.author, t.date)),
            "w:id"@,
        ) == Some(t.id),
{
    lemma_revision_tag(name, t.id as nat, t.author, t.date);
    strs::lemma_dec_parses(t.id as nat, u64::MAX as nat);
}

// ---------------------------------------------------------------- properties of a run

/// Whether run properties are such as markup states: what is there is not empty, and a vertical
/// alignment is one of the two that there are.
pub open spec fn stated_props_s(p: RunPropsV) -> bool {
    &&& p.color matches Some(x) ==> x.len() > 0
    &&& p.highlight matches Some(x) ==> x.len() > 0
    &&& p.lang matches Some(x) ==> x.len() > 0
    &&& p.vert_align matches Some(x) ==> x == "superscript"@ || x == "subscript"@
}

/// Whether a shading is one that a run can have.
pub open spec fn stated_fill_s(o: Option<Seq<char>>) -> bool {
    o matches Some(x) ==> x != "auto"@ && x != "none"@
}

pub open spec fn all_tags_s(v: Seq<Piece>) -> bool {
    forall|i: int| 0 <= i < v.len() ==> !(#[trigger] v[i] is Chars)
}

pub(crate) proof fn lemma_tags_len(v: Seq<Piece>, n: nat)
    requires
        all_tags_s(v),
        n <= v.len(),
    ensures
        markup::text_s(v, n).len() >= n,
    decreases n,
{
    if n > 0 {
        lemma_tags_len(v, (n - 1) as nat);
        reveal_strlit("<");
        reveal_strlit("</");
        assert(!(v[n - 1] is Chars));
    }
}

pub(crate) proof fn lemma_next(
    s0: DocReaderV,
    v: Seq<Piece>,
    s: DocReaderV,
    a: Seq<char>,
    on: bool,
    t: XmlTagV,
    x: Seq<char>,
    e: DocReaderV,
)
    requires
        hearing::takes_s(s0, v, s),
        markup::spells_s(v, a),
        all_tags_s(v),
        on ==> hearing::fits_s(s, Piece::Bare(t)),
        on ==> x == markup::piece_text_s(Piece::Bare(t)),
        !on ==> x == Seq::<char>::empty(),
        e == (if on {
            hearing::hear_s(s, Piece::Bare(t))
        } else {
            s
        }),
    ensures
        hearing::takes_s(s0, v + markup::maybe_s(on, Piece::Bare(t)), e),
        markup::spells_s(v + markup::maybe_s(on, Piece::Bare(t)), a + x),
        all_tags_s(v + markup::maybe_s(on, Piece::Bare(t))),
{
    let p = Piece::Bare(t);
    hearing::lemma_takes_maybe(s, on, p);
    hearing::lemma_takes_both(s0, v, s, markup::maybe_s(on, p), e);
    markup::lemma_spell_maybe(on, p);
    markup::lemma_spell_both(v, a, markup::maybe_s(on, p), x);
}

pub(crate) proof fn lemma_run_leaf(
    s0: DocReaderV,
    v: Seq<Piece>,
    s: DocReaderV,
    a: Seq<char>,
    on: bool,
    t: XmlTagV,
    x: Seq<char>,
)
    requires
        hearing::takes_s(s0, v, s),
        markup::spells_s(v, a),
        all_tags_s(v),
        s.run.in_rpr,
        on ==> is_run_leaf_s(t.name) && x == markup::piece_text_s(Piece::Bare(t)),
        !on ==> x == Seq::<char>::empty(),
    ensures
        ({
            let w = v + markup::maybe_s(on, Piece::Bare(t));
            let e = if on {
                with_cur_s(s, import_text::run_prop_s(s.run.cur, t))
            } else {
                s
            };
            &&& hearing::takes_s(s0, w, e)
            &&& markup::spells_s(w, a + x)
            &&& all_tags_s(w)
        }),
{
    if on {
        lemma_leaf(s, t);
    }
    let e = if on {
        hearing::hear_s(s, Piece::Bare(t))
    } else {
        s
    };
    lemma_next(s0, v, s, a, on, t, x, e);
}

/// What a text is worth where it is there.
pub open spec fn some_s(o: Option<Seq<char>>) -> Seq<char> {
    match o {
        Some(x) => x,
        None => Seq::empty(),
    }
}

pub open spec fn some_num_s(o: Option<int>) -> Seq<char> {
    match o {
        Some(n) => strs::dec_int_s(n),
        None => Seq::empty(),
    }
}

pub open spec fn val_tag_s(name: Seq<char>, x: Seq<char>) -> XmlTagV {
    markup::tag_s(name, seq![("w:val"@, x)])
}

/// The text of a tag with a value, as the writers put it together.
pub(crate) proof fn lemma_val_text(name: Seq<char>, x: Seq<char>, pre: Seq<char>)
    requires
        pre == "<"@ + name + " "@ + "w:val"@ + "=\""@,
    ensures
        markup::piece_text_s(Piece::Bare(val_tag_s(name, x))) == pre + xml::esc_s(x) + "\"/>"@,
        events::attr_s(val_tag_s(name, x), "w:val"@) == Some(x),
        val_tag_s(name, x).name == name,
{
    assert("\"/>"@ =~= "\""@ + "/>"@) by {
        reveal_strlit("\"/>");
        reveal_strlit("\"");
        reveal_strlit("/>");
    }
    markup::lemma_leaf_text(name, "w:val"@, x, pre, "\"/>"@);
}

pub(crate) proof fn lemma_opt_text(name: Seq<char>, o: Option<Seq<char>>, pre: Seq<char>)
    requires
        pre == "<"@ + name + " "@ + "w:val"@ + "=\""@,
    ensures
        xml::opt_esc_s(pre, o, "\"/>"@) == (if o is Some {
            markup::piece_text_s(Piece::Bare(val_tag_s(name, some_s(o))))
        } else {
            Seq::empty()
        }),
        o is Some ==> events::attr_s(val_tag_s(name, some_s(o)), "w:val"@) == o,
        val_tag_s(name, some_s(o)).name == name,
{
    lemma_val_text(name, some_s(o), pre);
}

pub(crate) proof fn lemma_opt_num(name: Seq<char>, o: Option<int>, pre: Seq<char>)
    requires
        pre == "<"@ + name + " "@ + "w:val"@ + "=\""@,
    ensures
        xml::opt_dec_s(pre, o, "\"/>"@) == (if o is Some {
            markup::piece_text_s(Piece::Bare(val_tag_s(name, some_num_s(o))))
        } else {
            Seq::empty()
        }),
        events::attr_s(val_tag_s(name, some_num_s(o)), "w:val"@) == Some(some_num_s(o)),
        val_tag_s(name, some_num_s(o)).name == name,
{
    lemma_val_text(name, some_num_s(o), pre);
    if o is Some {
        markup::lemma_esc_dec_int(o->0);
    }
}

/// A tag with three attributes.
pub open spec fn three_s(
    name: Seq<char>,
    a: (Seq<char>, Seq<char>),
    b: (Seq<char>, Seq<char>),
    c: (Seq<char>, Seq<char>),
) -> XmlTagV {
    markup::tag_s(name, seq![a, b, c])
}

pub(crate) proof fn lemma_three_text(
    name: Seq<char>,
    a: (Seq<char>, Seq<char>),
    b: (Seq<char>, Seq<char>),
    c: (Seq<char>, Seq<char>),
)
    ensures
        markup::piece_text_s(Piece::Bare(three_s(name, a, b, c))) == "<"@ + name + (" "@ + a.0 + "=\""@
            + xml::esc_s(a.1) + "\""@) + (" "@ + b.0 + "=\""@ + xml::esc_s(b.1) + "\""@) + (" "@ + c.0
            + "=\""@ + xml::esc_s(c.1) + "\""@) + "/>"@,
        a.0 != c.0 && b.0 != c.0 ==> events::attr_s(three_s(name, a, b, c), c.0) == Some(c.1),
        events::attr_s(three_s(name, a, b, c), a.0) == Some(a.1),
        three_s(name, a, b, c).name == name,
{
    let e = Seq::<(Seq<char>, Seq<char>)>::empty();
    let x = e.push(a);
    let y = x.push(b);
    let z = y.push(c);
    markup::lemma_no_attrs(name);
    markup::lemma_attrs_push(name, e, a.0, a.1);
    markup::lemma_attrs_push(name, x, b.0, b.1);
    markup::lemma_attrs_push(name, y, c.0, c.1);
    assert(z =~= seq![a, b, c]);
    let t = three_s(name, a, b, c);
    assert(markup::piece_text_s(Piece::Bare(t)) =~= "<"@ + name + (" "@ + a.0 + "=\""@ + xml::esc_s(a.1)
        + "\""@) + (" "@ + b.0 + "=\""@ + xml::esc_s(b.1) + "\""@) + (" "@ + c.0 + "=\""@
        + xml::esc_s(c.1) + "\""@) + "/>"@);
    markup::lemma_attr(name, seq![a, b, c]);
    reveal_with_fuel(markup::value_s, 5);
}

pub open spec fn fonts_tag_s(f: Seq<char>) -> XmlTagV {
    three_s("w:rFonts"@, ("w:ascii"@, f), ("w:hAnsi"@, f), ("w:cs"@, f))
}

pub(crate) proof fn lemma_fonts(o: Option<Seq<char>>)
    ensures
        paragraph::fonts_s(o) == (if o is Some {
            markup::piece_text_s(Piece::Bare(fonts_tag_s(some_s(o))))
        } else {
            Seq::empty()
        }),
        events::attr_s(fonts_tag_s(some_s(o)), "w:ascii"@) == Some(some_s(o)),
        fonts_tag_s(some_s(o)).name == "w:rFonts"@,
{
    let f = some_s(o);
    lemma_three_text("w:rFonts"@, ("w:ascii"@, f), ("w:hAnsi"@, f), ("w:cs"@, f));
    assert("<w:rFonts w:ascii=\""@ =~= "<"@ + "w:rFonts"@ + " "@ + "w:ascii"@ + "=\""@
        && " w:hAnsi=\""@ =~= " "@ + "w:hAnsi"@ + "=\""@ && " w:cs=\""@ =~= " "@ + "w:cs"@ + "=\""@
        && "\"/>"@ =~= "\""@ + "/>"@) by {
        reveal_strlit("<w:rFonts w:ascii=\"");
        reveal_strlit(" w:hAnsi=\"");
        reveal_strlit(" w:cs=\"");
        reveal_strlit("\"/>");
        reveal_strlit("<");
        reveal_strlit("w:rFonts");
        reveal_strlit(" ");
        reveal_strlit("w:ascii");
        reveal_strlit("w:hAnsi");
        reveal_strlit("w:cs");
        reveal_strlit("=\"");
        reveal_strlit("\"");
        reveal_strlit("/>");
    }
    assert(o is Some ==> paragraph::fonts_s(o) =~= markup::piece_text_s(
        Piece::Bare(fonts_tag_s(f)),
    ));
}

pub open spec fn fill_tag_s(f: Seq<char>) -> XmlTagV {
    three_s("w:shd"@, ("w:val"@, "clear"@), ("w:color"@, "auto"@), ("w:fill"@, f))
}

pub(crate) proof fn lemma_fill(o: Option<Seq<char>>)
    ensures
        xml::opt_esc_s("<w:shd w:val=\"clear\" w:color=\"auto\" w:fill=\""@, o, "\"/>"@) == (if o is Some {
            markup::piece_text_s(Piece::Bare(fill_tag_s(some_s(o))))
        } else {
            Seq::empty()
        }),
        events::attr_s(fill_tag_s(some_s(o)), "w:fill"@) == Some(some_s(o)),
        fill_tag_s(some_s(o)).name == "w:shd"@,
{
    let f = some_s(o);
    names::lemma_codes();
    lemma_three_text("w:shd"@, ("w:val"@, "clear"@), ("w:color"@, "auto"@), ("w:fill"@, f));
    reveal_strlit("clear");
    reveal_strlit("auto");
    markup::lemma_esc_word("clear"@);
    markup::lemma_esc_word("auto"@);
    assert("<w:shd w:val=\"clear\" w:color=\"auto\" w:fill=\""@ =~= "<"@ + "w:shd"@ + (" "@ + "w:val"@
        + "=\""@ + "clear"@ + "\""@) + (" "@ + "w:color"@ + "=\""@ + "auto"@ + "\""@) + (" "@
        + "w:fill"@ + "=\""@) && "\"/>"@ =~= "\""@ + "/>"@) by {
        reveal_strlit("<w:shd w:val=\"clear\" w:color=\"auto\" w:fill=\"");
        reveal_strlit("\"/>");
        reveal_strlit("<");
        reveal_strlit("w:shd");
        reveal_strlit(" ");
        reveal_strlit("w:val");
        reveal_strlit("w:color");
        reveal_strlit("w:fill");
        reveal_strlit("=\"");
        reveal_strlit("\"");
        reveal_strlit("/>");
    }
    assert(o is Some ==> xml::opt_esc_s(
        "<w:shd w:val=\"clear\" w:color=\"auto\" w:fill=\""@,
        o,
        "\"/>"@,
    ) =~= markup::piece_text_s(Piece::Bare(fill_tag_s(f))));
}

pub open spec fn word_s(name: Seq<char>) -> XmlTagV {
    markup::tag_s(name, Seq::empty())
}

pub(crate) proof fn lemma_lit_b()
    ensures
        markup::piece_text_s(Piece::Bare(word_s("w:b"@))) == "<w:b/>"@,
{
    reveal_strlit("<w:b/>");
    reveal_strlit("<");
    reveal_strlit("w:b");
    reveal_strlit("/>");
    assert("<w:b/>"@ =~= "<"@ + "w:b"@ + "/>"@);
    markup::lemma_bare_text("w:b"@, "<w:b/>"@);
}

pub(crate) proof fn lemma_lit_i()
    ensures
        markup::piece_text_s(Piece::Bare(word_s("w:i"@))) == "<w:i/>"@,
{
    reveal_strlit("<w:i/>");
    reveal_strlit("<");
    reveal_strlit("w:i");
    reveal_strlit("/>");
    assert("<w:i/>"@ =~= "<"@ + "w:i"@ + "/>"@);
    markup::lemma_bare_text("w:i"@, "<w:i/>"@);
}

pub(crate) proof fn lemma_lit_strike()
    ensures
        markup::piece_text_s(Piece::Bare(word_s("w:strike"@))) == "<w:strike/>"@,
{
    reveal_strlit("<w:strike/>");
    reveal_strlit("<");
    reveal_strlit("w:strike");
    reveal_strlit("/>");
    assert("<w:strike/>"@ =~= "<"@ + "w:strike"@ + "/>"@);
    markup::lemma_bare_text("w:strike"@, "<w:strike/>"@);
}

pub(crate) proof fn lemma_pre_rstyle()
    ensures
        "<w:rStyle w:val=\""@ == "<"@ + "w:rStyle"@ + " "@ + "w:val"@ + "=\""@,
{
    reveal_strlit("<w:rStyle w:val=\"");
    reveal_strlit("<");
    reveal_strlit("w:rStyle");
    reveal_strlit(" ");
    reveal_strlit("w:val");
    reveal_strlit("=\"");
    assert("<w:rStyle w:val=\""@ =~= "<"@ + "w:rStyle"@ + " "@ + "w:val"@ + "=\""@);
}

pub(crate) proof fn lemma_pre_color()
    ensures
        "<w:color w:val=\""@ == "<"@ + "w:color"@ + " "@ + "w:val"@ + "=\""@,
{
    reveal_strlit("<w:color w:val=\"");
    reveal_strlit("<");
    reveal_strlit("w:color");
    reveal_strlit(" ");
    reveal_strlit("w:val");
    reveal_strlit("=\"");
    assert("<w:color w:val=\""@ =~= "<"@ + "w:color"@ + " "@ + "w:val"@ + "=\""@);
}

pub(crate) proof fn lemma_pre_sz()
    ensures
        "<w:sz w:val=\""@ == "<"@ + "w:sz"@ + " "@ + "w:val"@ + "=\""@,
{
    reveal_strlit("<w:sz w:val=\"");
    reveal_strlit("<");
    reveal_strlit("w:sz");
    reveal_strlit(" ");
    reveal_strlit("w:val");
    reveal_strlit("=\"");
    assert("<w:sz w:val=\""@ =~= "<"@ + "w:sz"@ + " "@ + "w:val"@ + "=\""@);
}

pub(crate) proof fn lemma_pre_szcs()
    ensures
        "<w:szCs w:val=\""@ == "<"@ + "w:szCs"@ + " "@ + "w:val"@ + "=\""@,
{
    reveal_strlit("<w:szCs w:val=\"");
    reveal_strlit("<");
    reveal_strlit("w:szCs");
    reveal_strlit(" ");
    reveal_strlit("w:val");
    reveal_strlit("=\"");
    assert("<w:szCs w:val=\""@ =~= "<"@ + "w:szCs"@ + " "@ + "w:val"@ + "=\""@);
}

pub(crate) proof fn lemma_pre_highlight()
    ensures
        "<w:highlight w:val=\""@ == "<"@ + "w:highlight"@ + " "@ + "w:val"@ + "=\""@,
{
    reveal_strlit("<w:highlight w:val=\"");
    reveal_strlit("<");
    reveal_strlit("w:highlight");
    reveal_strlit(" ");
    reveal_strlit("w:val");
    reveal_strlit("=\"");
    assert("<w:highlight w:val=\""@ =~= "<"@ + "w:highlight"@ + " "@ + "w:val"@ + "=\""@);
}

pub(crate) proof fn lemma_pre_vertalign()
    ensures
        "<w:vertAlign w:val=\""@ == "<"@ + "w:vertAlign"@ + " "@ + "w:val"@ + "=\""@,
{
    reveal_strlit("<w:vertAlign w:val=\"");
    reveal_strlit("<");
    reveal_strlit("w:vertAlign");
    reveal_strlit(" ");
    reveal_strlit("w:val");
    reveal_strlit("=\"");
    assert("<w:vertAlign w:val=\""@ =~= "<"@ + "w:vertAlign"@ + " "@ + "w:val"@ + "=\""@);
}

pub(crate) proof fn lemma_pre_lang()
    ensures
        "<w:lang w:val=\""@ == "<"@ + "w:lang"@ + " "@ + "w:val"@ + "=\""@,
{
    reveal_strlit("<w:lang w:val=\"");
    reveal_strlit("<");
    reveal_strlit("w:lang");
    reveal_strlit(" ");
    reveal_strlit("w:val");
    reveal_strlit("=\"");
    assert("<w:lang w:val=\""@ =~= "<"@ + "w:lang"@ + " "@ + "w:val"@ + "=\""@);
}

pub(crate) proof fn lemma_pre_u()
    ensures
        "<w:u w:val=\""@ == "<"@ + "w:u"@ + " "@ + "w:val"@ + "=\""@,
{
    reveal_strlit("<w:u w:val=\"");
    reveal_strlit("<");
    reveal_strlit("w:u");
    reveal_strlit(" ");
    reveal_strlit("w:val");
    reveal_strlit("=\"");
    assert("<w:u w:val=\""@ =~= "<"@ + "w:u"@ + " "@ + "w:val"@ + "=\""@);
}

pub(crate) proof fn lemma_lit_u()
    ensures
        markup::piece_text_s(Piece::Bare(val_tag_s("w:u"@, "single"@))) == "<w:u w:val=\"single\"/>"@,
        events::attr_s(val_tag_s("w:u"@, "single"@), "w:val"@) == Some("single"@),
        val_tag_s("w:u"@, "single"@).name == "w:u"@,
{
    lemma_pre_u();
    lemma_val_text("w:u"@, "single"@, "<w:u w:val=\""@);
    reveal_strlit("single");
    markup::lemma_esc_word("single"@);
    reveal_strlit("<w:u w:val=\"single\"/>");
    reveal_strlit("<w:u w:val=\"");
    reveal_strlit("\"/>");
    assert("<w:u w:val=\"single\"/>"@ =~= "<w:u w:val=\""@ + "single"@ + "\"/>"@);
}

/// Whether tags that spell `a` take the reader from `s0` to `s`.
#[verifier::opaque]
pub open spec fn told_so_far_s(s0: DocReaderV, v: Seq<Piece>, s: DocReaderV, a: Seq<char>) -> bool {
    hearing::takes_s(s0, v, s) && markup::spells_s(v, a) && all_tags_s(v)
}

pub(crate) proof fn lemma_told_none(s: DocReaderV)
    ensures
        told_so_far_s(s, Seq::empty(), s, Seq::empty()),
{
    reveal(told_so_far_s);
    hearing::lemma_takes_none(s);
    markup::lemma_spell_none();
}

/// The same with the properties that the open run has there.
#[verifier::opaque]
pub open spec fn at_cur_s(s0: DocReaderV, v: Seq<Piece>, s: DocReaderV, c: RunV, a: Seq<char>) -> bool {
    told_so_far_s(s0, v, with_cur_s(s, c), a)
}

pub(crate) proof fn lemma_put(
    s0: DocReaderV,
    v: Seq<Piece>,
    s: DocReaderV,
    c: RunV,
    a: Seq<char>,
    on: bool,
    t: XmlTagV,
    x: Seq<char>,
    r: RunV,
) -> (w: Seq<Piece>)
    requires
        at_cur_s(s0, v, s, c, a),
        s.run.in_rpr,
        on ==> is_run_leaf_s(t.name) && x == markup::piece_text_s(Piece::Bare(t)) && r
            == import_text::run_prop_s(c, t),
        !on ==> x == Seq::<char>::empty() && r == c,
    ensures
        at_cur_s(s0, w, s, r, a + x),
{
    reveal(told_so_far_s);
    reveal(at_cur_s);
    lemma_run_leaf(s0, v, with_cur_s(s, c), a, on, t, x);
    assert(with_cur_s(with_cur_s(s, c), r) == with_cur_s(s, r));
    v + markup::maybe_s(on, Piece::Bare(t))
}

pub(crate) proof fn lemma_put_fonts(
    s0: DocReaderV,
    v: Seq<Piece>,
    s: DocReaderV,
    c: RunV,
    a: Seq<char>,
    o: Option<Seq<char>>,
) -> (w: Seq<Piece>)
    requires
        at_cur_s(s0, v, s, c, a),
        s.run.in_rpr,
        c.font is None,
    ensures
        at_cur_s(s0, w, s, RunV { font: o, ..c }, a + paragraph::fonts_s(o)),
{
    names::lemma_codes();
    lemma_fonts(o);
    let r = RunV { font: o, ..c };
    let t = fonts_tag_s(some_s(o));
    assert(o is Some ==> import_text::run_prop_s(c, t) =~= r);
    lemma_put(s0, v, s, c, a, o is Some, t, paragraph::fonts_s(o), r)
}

pub(crate) proof fn lemma_put_bold(
    s0: DocReaderV,
    v: Seq<Piece>,
    s: DocReaderV,
    c: RunV,
    a: Seq<char>,
    o: bool,
) -> (w: Seq<Piece>)
    requires
        at_cur_s(s0, v, s, c, a),
        s.run.in_rpr,
        c.bold == false,
    ensures
        at_cur_s(s0, w, s, RunV { bold: o, ..c }, a + strs::when_s(o, "<w:b/>"@)),
{
    names::lemma_codes();
    lemma_lit_b();
    markup::lemma_no_attrs("w:b"@);
    let r = RunV { bold: o, ..c };
    let t = word_s("w:b"@);
    assert(o ==> import_text::run_prop_s(c, t) =~= r);
    lemma_put(s0, v, s, c, a, o, t, strs::when_s(o, "<w:b/>"@), r)
}

pub(crate) proof fn lemma_put_italic(
    s0: DocReaderV,
    v: Seq<Piece>,
    s: DocReaderV,
    c: RunV,
    a: Seq<char>,
    o: bool,
) -> (w: Seq<Piece>)
    requires
        at_cur_s(s0, v, s, c, a),
        s.run.in_rpr,
        c.italic == false,
    ensures
        at_cur_s(s0, w, s, RunV { italic: o, ..c }, a + strs::when_s(o, "<w:i/>"@)),
{
    names::lemma_codes();
    lemma_lit_i();
    markup::lemma_no_attrs("w:i"@);
    let r = RunV { italic: o, ..c };
    let t = word_s("w:i"@);
    assert(o ==> import_text::run_prop_s(c, t) =~= r);
    lemma_put(s0, v, s, c, a, o, t, strs::when_s(o, "<w:i/>"@), r)
}

pub(crate) proof fn lemma_put_strike(
    s0: DocReaderV,
    v: Seq<Piece>,
    s: DocReaderV,
    c: RunV,
    a: Seq<char>,
    o: bool,
) -> (w: Seq<Piece>)
    requires
        at_cur_s(s0, v, s, c, a),
        s.run.in_rpr,
        c.strike == false,
    ensures
        at_cur_s(s0, w, s, RunV { strike: o, ..c }, a + strs::when_s(o, "<w:strike/>"@)),
{
    names::lemma_codes();
    lemma_lit_strike();
    markup::lemma_no_attrs("w:strike"@);
    let r = RunV { strike: o, ..c };
    let t = word_s("w:strike"@);
    assert(o ==> import_text::run_prop_s(c, t) =~= r);
    lemma_put(s0, v, s, c, a, o, t, strs::when_s(o, "<w:strike/>"@), r)
}

pub(crate) proof fn lemma_put_color(
    s0: DocReaderV,
    v: Seq<Piece>,
    s: DocReaderV,
    c: RunV,
    a: Seq<char>,
    o: Option<Seq<char>>,
) -> (w: Seq<Piece>)
    requires
        at_cur_s(s0, v, s, c, a),
        s.run.in_rpr,
        c.color is None,
        o matches Some(x) ==> x.len() > 0,
    ensures
        at_cur_s(s0, w, s, RunV { color: o, ..c }, a + xml::opt_esc_s("<w:color w:val=\""@, o, "\"/>"@)),
{
    names::lemma_codes();
    lemma_pre_color();
    lemma_opt_text("w:color"@, o, "<w:color w:val=\""@);
    let r = RunV { color: o, ..c };
    let t = val_tag_s("w:color"@, some_s(o));
    assert(o is Some ==> import_text::run_prop_s(c, t) =~= r);
    lemma_put(s0, v, s, c, a, o is Some, t, xml::opt_esc_s("<w:color w:val=\""@, o, "\"/>"@), r)
}

pub(crate) proof fn lemma_put_highlight(
    s0: DocReaderV,
    v: Seq<Piece>,
    s: DocReaderV,
    c: RunV,
    a: Seq<char>,
    o: Option<Seq<char>>,
) -> (w: Seq<Piece>)
    requires
        at_cur_s(s0, v, s, c, a),
        s.run.in_rpr,
        c.highlight is None,
        o matches Some(x) ==> x.len() > 0,
    ensures
        at_cur_s(s0, w, s, RunV { highlight: o, ..c }, a + xml::opt_esc_s("<w:highlight w:val=\""@, o, "\"/>"@)),
{
    names::lemma_codes();
    lemma_pre_highlight();
    lemma_opt_text("w:highlight"@, o, "<w:highlight w:val=\""@);
    let r = RunV { highlight: o, ..c };
    let t = val_tag_s("w:highlight"@, some_s(o));
    assert(o is Some ==> import_text::run_prop_s(c, t) =~= r);
    lemma_put(s0, v, s, c, a, o is Some, t, xml::opt_esc_s("<w:highlight w:val=\""@, o, "\"/>"@), r)
}

pub(crate) proof fn lemma_put_underline(
    s0: DocReaderV,
    v: Seq<Piece>,
    s: DocReaderV,
    c: RunV,
    a: Seq<char>,
    o: bool,
) -> (w: Seq<Piece>)
    requires
        at_cur_s(s0, v, s, c, a),
        s.run.in_rpr,
        c.underline == false,
    ensures
        at_cur_s(s0, w, s, RunV { underline: o, ..c }, a + strs::when_s(o, "<w:u w:val=\"single\"/>"@)),
{
    names::lemma_codes();
    lemma_lit_u();
    let r = RunV { underline: o, ..c };
    let t = val_tag_s("w:u"@, "single"@);
    assert(o ==> import_text::run_prop_s(c, t) =~= r);
    lemma_put(s0, v, s, c, a, o, t, strs::when_s(o, "<w:u w:val=\"single\"/>"@), r)
}

pub(crate) proof fn lemma_put_shading(
    s0: DocReaderV,
    v: Seq<Piece>,
    s: DocReaderV,
    c: RunV,
    a: Seq<char>,
    o: Option<Seq<char>>,
) -> (w: Seq<Piece>)
    requires
        at_cur_s(s0, v, s, c, a),
        s.run.in_rpr,
        c.shading is None,
        stated_fill_s(o),
    ensures
        at_cur_s(s0, w, s, RunV { shading: o, ..c }, a + xml::opt_esc_s("<w:shd w:val=\"clear\" w:color=\"auto\" w:fill=\""@, o, "\"/>"@)),
{
    names::lemma_codes();
    lemma_fill(o);
    let r = RunV { shading: o, ..c };
    let t = fill_tag_s(some_s(o));
    assert(o is Some ==> import_text::run_prop_s(c, t) =~= r);
    lemma_put(s0, v, s, c, a, o is Some, t, xml::opt_esc_s("<w:shd w:val=\"clear\" w:color=\"auto\" w:fill=\""@, o, "\"/>"@), r)
}

pub(crate) proof fn lemma_put_vert_align(
    s0: DocReaderV,
    v: Seq<Piece>,
    s: DocReaderV,
    c: RunV,
    a: Seq<char>,
    o: Option<Seq<char>>,
) -> (w: Seq<Piece>)
    requires
        at_cur_s(s0, v, s, c, a),
        s.run.in_rpr,
        c.vert_align is None,
        o matches Some(x) ==> x == "superscript"@ || x == "subscript"@,
    ensures
        at_cur_s(s0, w, s, RunV { vert_align: o, ..c }, a + xml::opt_esc_s("<w:vertAlign w:val=\""@, o, "\"/>"@)),
{
    names::lemma_codes();
    lemma_pre_vertalign();
    lemma_opt_text("w:vertAlign"@, o, "<w:vertAlign w:val=\""@);
    let r = RunV { vert_align: o, ..c };
    let t = val_tag_s("w:vertAlign"@, some_s(o));
    assert(o is Some ==> import_text::run_prop_s(c, t) =~= r);
    lemma_put(s0, v, s, c, a, o is Some, t, xml::opt_esc_s("<w:vertAlign w:val=\""@, o, "\"/>"@), r)
}

pub(crate) proof fn lemma_put_lang(
    s0: DocReaderV,
    v: Seq<Piece>,
    s: DocReaderV,
    c: RunV,
    a: Seq<char>,
    o: Option<Seq<char>>,
) -> (w: Seq<Piece>)
    requires
        at_cur_s(s0, v, s, c, a),
        s.run.in_rpr,
        c.lang is None,
        o matches Some(x) ==> x.len() > 0,
    ensures
        at_cur_s(s0, w, s, RunV { lang: o, ..c }, a + xml::opt_esc_s("<w:lang w:val=\""@, o, "\"/>"@)),
{
    names::lemma_codes();
    lemma_pre_lang();
    lemma_opt_text("w:lang"@, o, "<w:lang w:val=\""@);
    let r = RunV { lang: o, ..c };
    let t = val_tag_s("w:lang"@, some_s(o));
    assert(o is Some ==> import_text::run_prop_s(c, t) =~= r);
    lemma_put(s0, v, s, c, a, o is Some, t, xml::opt_esc_s("<w:lang w:val=\""@, o, "\"/>"@), r)
}

pub(crate) proof fn lemma_put_char_style(
    s0: DocReaderV,
    v: Seq<Piece>,
    s: DocReaderV,
    c: RunV,
    a: Seq<char>,
    o: Option<Seq<char>>,
) -> (w: Seq<Piece>)
    requires
        at_cur_s(s0, v, s, c, a),
        s.run.in_rpr,
        c.char_style is None,
    ensures
        at_cur_s(s0, w, s, RunV { char_style: o, ..c }, a + xml::opt_esc_s("<w:rStyle w:val=\""@, o, "\"/>"@)),
{
    names::lemma_codes();
    lemma_pre_rstyle();
    lemma_opt_text("w:rStyle"@, o, "<w:rStyle w:val=\""@);
    let r = RunV { char_style: o, ..c };
    let t = val_tag_s("w:rStyle"@, some_s(o));
    assert(o is Some ==> import_text::run_prop_s(c, t) =~= r);
    lemma_put(s0, v, s, c, a, o is Some, t, xml::opt_esc_s("<w:rStyle w:val=\""@, o, "\"/>"@), r)
}

pub(crate) proof fn lemma_size_read(c: RunV, o: Option<u16>)
    requires
        o is Some,
    ensures
        import_text::run_prop_s(c, val_tag_s("w:sz"@, some_num_s(xml::int16_s(o)))) == (RunV {
            size: o,
            ..c
        }),
        import_text::run_prop_s(c, val_tag_s("w:szCs"@, some_num_s(xml::int16_s(o)))) == c,
        is_run_leaf_s(val_tag_s("w:sz"@, some_num_s(xml::int16_s(o))).name),
        is_run_leaf_s(val_tag_s("w:szCs"@, some_num_s(xml::int16_s(o))).name),
{
    let n = xml::int16_s(o);
    names::lemma_codes();
    lemma_pre_sz();
    lemma_opt_num("w:sz"@, n, "<w:sz w:val=\""@);
    strs::lemma_dec_parses(o->0 as nat, u16::MAX as nat);
}

pub(crate) proof fn lemma_size_text(n: Option<int>)
    ensures
        xml::opt_dec_s("<w:sz w:val=\""@, n, "\"/>"@) == (if n is Some {
            markup::piece_text_s(Piece::Bare(val_tag_s("w:sz"@, some_num_s(n))))
        } else {
            Seq::empty()
        }),
        xml::opt_dec_s("<w:szCs w:val=\""@, n, "\"/>"@) == (if n is Some {
            markup::piece_text_s(Piece::Bare(val_tag_s("w:szCs"@, some_num_s(n))))
        } else {
            Seq::empty()
        }),
{
    lemma_pre_sz();
    lemma_pre_szcs();
    lemma_opt_num("w:sz"@, n, "<w:sz w:val=\""@);
    lemma_opt_num("w:szCs"@, n, "<w:szCs w:val=\""@);
}

pub(crate) proof fn lemma_put_size(
    s0: DocReaderV,
    v: Seq<Piece>,
    s: DocReaderV,
    c: RunV,
    a: Seq<char>,
    o: Option<u16>,
) -> (w: Seq<Piece>)
    requires
        at_cur_s(s0, v, s, c, a),
        s.run.in_rpr,
        c.size is None,
    ensures
        at_cur_s(s0, w, s, RunV { size: o, ..c }, a + paragraph::size_s(xml::int16_s(o))),
{
    let n = xml::int16_s(o);
    lemma_size_text(n);
    let r = RunV { size: o, ..c };
    if o is Some {
        lemma_size_read(c, o);
        lemma_size_read(r, o);
    }
    let t = val_tag_s("w:sz"@, some_num_s(n));
    let u = val_tag_s("w:szCs"@, some_num_s(n));
    let x = xml::opt_dec_s("<w:sz w:val=\""@, n, "\"/>"@);
    let y = xml::opt_dec_s("<w:szCs w:val=\""@, n, "\"/>"@);
    assert(n is None ==> r == c);
    let k = lemma_put(s0, v, s, c, a, n is Some, t, x, r);
    let w = lemma_put(s0, k, s, r, a + x, n is Some, u, y, r);
    markup::lemma_assoc(a, x, y);
    w
}

/// A run without properties that the markup of run properties states.
pub open spec fn no_look_s(r: RunV) -> bool {
    r.props() == RunV::plain(Seq::empty()).props() && r.shading is None
}

/// The markup of run properties, read into a run without any, gives them.
pub(crate) proof fn lemma_body(
    s0: DocReaderV,
    u: Seq<Piece>,
    s: DocReaderV,
    c0: RunV,
    a: Seq<char>,
    p: RunPropsV,
    shading: Option<Seq<char>>,
) -> (v: Seq<Piece>)
    requires
        at_cur_s(s0, u, s, c0, a),
        s.run.in_rpr,
        no_look_s(c0),
        stated_props_s(p),
        stated_fill_s(shading),
    ensures
        at_cur_s(
            s0,
            v,
            s,
            RunV { shading, ..import_text::with_props_s(c0, p) },
            a + paragraph::rpr_body_s(p, shading),
        ),
{
    assert(c0.props() == RunV::plain(Seq::empty()).props());
    let x1 = paragraph::fonts_s(p.font);
    let v1 = lemma_put_fonts(s0, u, s, c0, a, p.font);
    let c1 = RunV { font: p.font, ..c0 };
    let a1 = a + x1;
    let y1 = x1;
    let x2 = strs::when_s(p.bold, "<w:b/>"@);
    let v2 = lemma_put_bold(s0, v1, s, c1, a1, p.bold);
    let c2 = RunV { bold: p.bold, ..c1 };
    let a2 = a1 + x2;
    let y2 = y1 + x2;
    markup::lemma_assoc(a, y1, x2);
    let x3 = strs::when_s(p.italic, "<w:i/>"@);
    let v3 = lemma_put_italic(s0, v2, s, c2, a2, p.italic);
    let c3 = RunV { italic: p.italic, ..c2 };
    let a3 = a2 + x3;
    let y3 = y2 + x3;
    markup::lemma_assoc(a, y2, x3);
    let x4 = strs::when_s(p.strike, "<w:strike/>"@);
    let v4 = lemma_put_strike(s0, v3, s, c3, a3, p.strike);
    let c4 = RunV { strike: p.strike, ..c3 };
    let a4 = a3 + x4;
    let y4 = y3 + x4;
    markup::lemma_assoc(a, y3, x4);
    let x5 = xml::opt_esc_s("<w:color w:val=\""@, p.color, "\"/>"@);
    let v5 = lemma_put_color(s0, v4, s, c4, a4, p.color);
    let c5 = RunV { color: p.color, ..c4 };
    let a5 = a4 + x5;
    let y5 = y4 + x5;
    markup::lemma_assoc(a, y4, x5);
    let x6 = paragraph::size_s(xml::int16_s(p.size));
    let v6 = lemma_put_size(s0, v5, s, c5, a5, p.size);
    let c6 = RunV { size: p.size, ..c5 };
    let a6 = a5 + x6;
    let y6 = y5 + x6;
    markup::lemma_assoc(a, y5, x6);
    let x7 = xml::opt_esc_s("<w:highlight w:val=\""@, p.highlight, "\"/>"@);
    let v7 = lemma_put_highlight(s0, v6, s, c6, a6, p.highlight);
    let c7 = RunV { highlight: p.highlight, ..c6 };
    let a7 = a6 + x7;
    let y7 = y6 + x7;
    markup::lemma_assoc(a, y6, x7);
    let x8 = strs::when_s(p.underline, "<w:u w:val=\"single\"/>"@);
    let v8 = lemma_put_underline(s0, v7, s, c7, a7, p.underline);
    let c8 = RunV { underline: p.underline, ..c7 };
    let a8 = a7 + x8;
    let y8 = y7 + x8;
    markup::lemma_assoc(a, y7, x8);
    let x9 = xml::opt_esc_s("<w:shd w:val=\"clear\" w:color=\"auto\" w:fill=\""@, shading, "\"/>"@);
    let v9 = lemma_put_shading(s0, v8, s, c8, a8, shading);
    let c9 = RunV { shading: shading, ..c8 };
    let a9 = a8 + x9;
    let y9 = y8 + x9;
    markup::lemma_assoc(a, y8, x9);
    let x10 = xml::opt_esc_s("<w:vertAlign w:val=\""@, p.vert_align, "\"/>"@);
    let v10 = lemma_put_vert_align(s0, v9, s, c9, a9, p.vert_align);
    let c10 = RunV { vert_align: p.vert_align, ..c9 };
    let a10 = a9 + x10;
    let y10 = y9 + x10;
    markup::lemma_assoc(a, y9, x10);
    let x11 = xml::opt_esc_s("<w:lang w:val=\""@, p.lang, "\"/>"@);
    let v11 = lemma_put_lang(s0, v10, s, c10, a10, p.lang);
    let c11 = RunV { lang: p.lang, ..c10 };
    let a11 = a10 + x11;
    let y11 = y10 + x11;
    markup::lemma_assoc(a, y10, x11);
    assert(y11 == paragraph::rpr_body_s(p, shading));
    assert(c11 =~= (RunV { shading, ..import_text::with_props_s(c0, p) }));
    v11
}

} // verus!
