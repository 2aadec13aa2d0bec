//! Picture discovery: DrawingML (`w:drawing`) and legacy VML (`w:pict`).
//!
//! Walks a body part for pictures and resolves inline and anchored placement, crop, extent and
//! wrap mode into a common [`DrawImage`]. VML lengths are kept as written, together with the
//! groups that scale them, for a caller with floating-point arithmetic to measure.

use vstd::prelude::*;
use crate::events;
use crate::events::{
    attr, attr_i64, is_tag, or_else, or_empty, read_xml, revision_track, XmlEvent, XmlEventV,
    XmlStep, XmlStepV, XmlTag, XmlTagV,
};
use crate::package;
use crate::package::lower;
use crate::search;
use crate::search::{find_at, split, trim};
use crate::strs;
use crate::strs::{chars_of, opt_clone, opt_is, parse_sint, str_eq, string_of};
use crate::types;
use crate::types::{clone_track_opt, Track, TrackKind, TrackV};

verus! {

broadcast use vstd::string::group_string_axioms;

/// One axis of an open `v:group`: its extent on the page and the number of child units it spans.
#[derive(Debug, PartialEq, Eq)]
pub struct VmlScale {
    /// The extent as the `style` states it; absent is nothing.
    pub len: Option<String>,
    /// Child-coordinate units along this axis.
    pub coord: i64,
}

/// The mathematical value of a [`VmlScale`].
#[verifier::ext_equal]
pub struct VmlScaleV {
    pub len: Option<Seq<char>>,
    pub coord: i64,
}

impl View for VmlScale {
    type V = VmlScaleV;

    open spec fn view(&self) -> VmlScaleV {
        VmlScaleV {
            len: strs::opt_s(self.len),
            coord: self.coord,
        }
    }
}

pub open spec fn vml_scale_vs(s: Seq<VmlScale>) -> Seq<VmlScaleV> {
    Seq::new(s.len(), |i: int| s[i]@)
}

impl Clone for VmlScale {
    fn clone(&self) -> (r: Self)
        ensures
            r@ == self@,
    {
        VmlScale {
            len: opt_clone(&self.len),
            coord: self.coord,
        }
    }
}

pub(crate) fn clone_vml_scale_vec(v: &Vec<VmlScale>) -> (r: Vec<VmlScale>)
    ensures
        vml_scale_vs(r@) == vml_scale_vs(v@),
{
    let mut r: Vec<VmlScale> = Vec::new();
    let mut i: usize = 0;
    while i < v.len()
        invariant
            i <= v@.len(),
            r@.len() == i,
            forall|j: int| 0 <= j < i ==> r@[j]@ == v@[j]@,
        decreases v@.len() - i,
    {
        r.push(v[i].clone());
        i = i + 1;
    }
    assert(vml_scale_vs(r@) =~= vml_scale_vs(v@));
    r
}

/// A length of VML's `style` grammar: its text, and the groups it stands in, outermost first.
/// 
/// A bare number inside a group is in the units of the innermost group; with a unit, or outside
/// any group, it is an absolute length.
#[derive(Debug, PartialEq, Eq)]
pub struct VmlLen {
    pub text: String,
    pub scope: Vec<VmlScale>,
}

/// The mathematical value of a [`VmlLen`].
#[verifier::ext_equal]
pub struct VmlLenV {
    pub text: Seq<char>,
    pub scope: Seq<VmlScaleV>,
}

impl View for VmlLen {
    type V = VmlLenV;

    open spec fn view(&self) -> VmlLenV {
        VmlLenV {
            text: self.text@,
            scope: vml_scale_vs(self.scope@),
        }
    }
}

pub open spec fn vml_len_ov(o: Option<VmlLen>) -> Option<VmlLenV> {
    match o {
        Some(x) => Some(x@),
        None => None,
    }
}

pub open spec fn vml_len_vs(s: Seq<VmlLen>) -> Seq<VmlLenV> {
    Seq::new(s.len(), |i: int| s[i]@)
}

impl Clone for VmlLen {
    fn clone(&self) -> (r: Self)
        ensures
            r@ == self@,
    {
        VmlLen {
            text: self.text.clone(),
            scope: clone_vml_scale_vec(&self.scope),
        }
    }
}

pub(crate) fn clone_vml_len_opt(o: &Option<VmlLen>) -> (r: Option<VmlLen>)
    ensures
        vml_len_ov(r) == vml_len_ov(*o),
{
    match o {
        Some(x) => Some(x.clone()),
        None => None,
    }
}

pub(crate) fn clone_vml_len_vec(v: &Vec<VmlLen>) -> (r: Vec<VmlLen>)
    ensures
        vml_len_vs(r@) == vml_len_vs(v@),
{
    let mut r: Vec<VmlLen> = Vec::new();
    let mut i: usize = 0;
    while i < v.len()
        invariant
            i <= v@.len(),
            r@.len() == i,
            forall|j: int| 0 <= j < i ==> r@[j]@ == v@[j]@,
        decreases v@.len() - i,
    {
        r.push(v[i].clone());
        i = i + 1;
    }
    assert(vml_len_vs(r@) =~= vml_len_vs(v@));
    r
}

/// The geometry of a VML picture before its lengths are measured. The offsets are sums.
#[derive(Debug, PartialEq, Eq)]
pub struct VmlBox {
    pub w: Option<VmlLen>,
    pub h: Option<VmlLen>,
    pub x: Vec<VmlLen>,
    pub y: Vec<VmlLen>,
}

/// The mathematical value of a [`VmlBox`].
#[verifier::ext_equal]
pub struct VmlBoxV {
    pub w: Option<VmlLenV>,
    pub h: Option<VmlLenV>,
    pub x: Seq<VmlLenV>,
    pub y: Seq<VmlLenV>,
}

impl View for VmlBox {
    type V = VmlBoxV;

    open spec fn view(&self) -> VmlBoxV {
        VmlBoxV {
            w: vml_len_ov(self.w),
            h: vml_len_ov(self.h),
            x: vml_len_vs(self.x@),
            y: vml_len_vs(self.y@),
        }
    }
}

pub open spec fn vml_box_ov(o: Option<VmlBox>) -> Option<VmlBoxV> {
    match o {
        Some(x) => Some(x@),
        None => None,
    }
}

impl Clone for VmlBox {
    fn clone(&self) -> (r: Self)
        ensures
            r@ == self@,
    {
        VmlBox {
            w: clone_vml_len_opt(&self.w),
            h: clone_vml_len_opt(&self.h),
            x: clone_vml_len_vec(&self.x),
            y: clone_vml_len_vec(&self.y),
        }
    }
}

pub(crate) fn clone_vml_box_opt(o: &Option<VmlBox>) -> (r: Option<VmlBox>)
    ensures
        vml_box_ov(r) == vml_box_ov(*o),
{
    match o {
        Some(x) => Some(x.clone()),
        None => None,
    }
}

/// A picture found in a body part: the media relationship id, its size and - for a floating
/// picture - the position offsets and what they are relative to, in EMU.
/// 
/// A VML picture carries its lengths in `vml`; its size and offsets are 0 until
/// [`measure_images`] puts them in.
#[derive(Debug, PartialEq, Eq)]
pub struct DrawImage {
    pub embed: String,
    pub w_emu: i64,
    pub h_emu: i64,
    pub anchored: bool,
    /// The picture sits behind the text.
    pub behind: bool,
    pub x_emu: i64,
    pub y_emu: i64,
    pub h_from: String,
    pub v_from: String,
    /// Alignment used instead of an offset.
    pub h_align: String,
    pub v_align: String,
    /// Crop in thousandths of a percent.
    pub crop_l: i64,
    pub crop_t: i64,
    pub crop_r: i64,
    pub crop_b: i64,
    /// Wrap type of a floating picture.
    pub wrap: String,
    /// Index of the body paragraph that the picture sits in.
    pub para_index: usize,
    /// The tracked change around the picture's run.
    pub track: Option<Track>,
    /// The picture belongs to a text box, not to the body flow.
    pub in_textbox: bool,
    /// The lengths of a VML picture that is not measured yet.
    pub vml: Option<VmlBox>,
}

/// The mathematical value of a [`DrawImage`].
#[verifier::ext_equal]
pub struct DrawImageV {
    pub embed: Seq<char>,
    pub w_emu: i64,
    pub h_emu: i64,
    pub anchored: bool,
    pub behind: bool,
    pub x_emu: i64,
    pub y_emu: i64,
    pub h_from: Seq<char>,
    pub v_from: Seq<char>,
    pub h_align: Seq<char>,
    pub v_align: Seq<char>,
    pub crop_l: i64,
    pub crop_t: i64,
    pub crop_r: i64,
    pub crop_b: i64,
    pub wrap: Seq<char>,
    pub para_index: usize,
    pub track: Option<TrackV>,
    pub in_textbox: bool,
    pub vml: Option<VmlBoxV>,
}

impl View for DrawImage {
    type V = DrawImageV;

    open spec fn view(&self) -> DrawImageV {
        DrawImageV {
            embed: self.embed@,
            w_emu: self.w_emu,
            h_emu: self.h_emu,
            anchored: self.anchored,
            behind: self.behind,
            x_emu: self.x_emu,
            y_emu: self.y_emu,
            h_from: self.h_from@,
            v_from: self.v_from@,
            h_align: self.h_align@,
            v_align: self.v_align@,
            crop_l: self.crop_l,
            crop_t: self.crop_t,
            crop_r: self.crop_r,
            crop_b: self.crop_b,
            wrap: self.wrap@,
            para_index: self.para_index,
            track: types::track_ov(self.track),
            in_textbox: self.in_textbox,
            vml: vml_box_ov(self.vml),
        }
    }
}

pub open spec fn draw_image_ov(o: Option<DrawImage>) -> Option<DrawImageV> {
    match o {
        Some(x) => Some(x@),
        None => None,
    }
}

pub open spec fn draw_image_vs(s: Seq<DrawImage>) -> Seq<DrawImageV> {
    Seq::new(s.len(), |i: int| s[i]@)
}

impl Clone for DrawImage {
    fn clone(&self) -> (r: Self)
        ensures
            r@ == self@,
    {
        DrawImage {
            embed: self.embed.clone(),
            w_emu: self.w_emu,
            h_emu: self.h_emu,
            anchored: self.anchored,
            behind: self.behind,
            x_emu: self.x_emu,
            y_emu: self.y_emu,
            h_from: self.h_from.clone(),
            v_from: self.v_from.clone(),
            h_align: self.h_align.clone(),
            v_align: self.v_align.clone(),
            crop_l: self.crop_l,
            crop_t: self.crop_t,
            crop_r: self.crop_r,
            crop_b: self.crop_b,
            wrap: self.wrap.clone(),
            para_index: self.para_index,
            track: clone_track_opt(&self.track),
            in_textbox: self.in_textbox,
            vml: clone_vml_box_opt(&self.vml),
        }
    }
}

pub(crate) fn clone_draw_image_vec(v: &Vec<DrawImage>) -> (r: Vec<DrawImage>)
    ensures
        draw_image_vs(r@) == draw_image_vs(v@),
{
    let mut r: Vec<DrawImage> = Vec::new();
    let mut i: usize = 0;
    while i < v.len()
        invariant
            i <= v@.len(),
            r@.len() == i,
            forall|j: int| 0 <= j < i ==> r@[j]@ == v@[j]@,
        decreases v@.len() - i,
    {
        r.push(v[i].clone());
        i = i + 1;
    }
    assert(draw_image_vs(r@) =~= draw_image_vs(v@));
    r
}

impl DrawImageV {
    /// The value with nothing set.
    pub open spec fn initial() -> DrawImageV {
        DrawImageV {
            embed: Seq::empty(),
            w_emu: 0,
            h_emu: 0,
            anchored: false,
            behind: false,
            x_emu: 0,
            y_emu: 0,
            h_from: Seq::empty(),
            v_from: Seq::empty(),
            h_align: Seq::empty(),
            v_align: Seq::empty(),
            crop_l: 0,
            crop_t: 0,
            crop_r: 0,
            crop_b: 0,
            wrap: Seq::empty(),
            para_index: 0,
            track: None,
            in_textbox: false,
            vml: None,
        }
    }
}

impl Default for DrawImage {
    fn default() -> (r: Self)
        ensures
            r@ == DrawImageV::initial(),
    {
        DrawImage {
            embed: String::new(),
            w_emu: 0,
            h_emu: 0,
            anchored: false,
            behind: false,
            x_emu: 0,
            y_emu: 0,
            h_from: String::new(),
            v_from: String::new(),
            h_align: String::new(),
            v_align: String::new(),
            crop_l: 0,
            crop_t: 0,
            crop_r: 0,
            crop_b: 0,
            wrap: String::new(),
            para_index: 0,
            track: None,
            in_textbox: false,
            vml: None,
        }
    }
}

/// An open `v:group`: its page offset, the scales of its axes, and the anchor that its children
/// inherit.
#[derive(Debug, PartialEq, Eq)]
pub struct VmlGroup {
    pub x: Vec<VmlLen>,
    pub y: Vec<VmlLen>,
    pub xs: Vec<VmlScale>,
    pub ys: Vec<VmlScale>,
    pub anchored: bool,
    pub h_from: String,
    pub v_from: String,
    pub h_align: String,
    pub v_align: String,
}

/// The mathematical value of a [`VmlGroup`].
#[verifier::ext_equal]
pub struct VmlGroupV {
    pub x: Seq<VmlLenV>,
    pub y: Seq<VmlLenV>,
    pub xs: Seq<VmlScaleV>,
    pub ys: Seq<VmlScaleV>,
    pub anchored: bool,
    pub h_from: Seq<char>,
    pub v_from: Seq<char>,
    pub h_align: Seq<char>,
    pub v_align: Seq<char>,
}

impl View for VmlGroup {
    type V = VmlGroupV;

    open spec fn view(&self) -> VmlGroupV {
        VmlGroupV {
            x: vml_len_vs(self.x@),
            y: vml_len_vs(self.y@),
            xs: vml_scale_vs(self.xs@),
            ys: vml_scale_vs(self.ys@),
            anchored: self.anchored,
            h_from: self.h_from@,
            v_from: self.v_from@,
            h_align: self.h_align@,
            v_align: self.v_align@,
        }
    }
}

pub open spec fn vml_group_vs(s: Seq<VmlGroup>) -> Seq<VmlGroupV> {
    Seq::new(s.len(), |i: int| s[i]@)
}

impl Clone for VmlGroup {
    fn clone(&self) -> (r: Self)
        ensures
            r@ == self@,
    {
        VmlGroup {
            x: clone_vml_len_vec(&self.x),
            y: clone_vml_len_vec(&self.y),
            xs: clone_vml_scale_vec(&self.xs),
            ys: clone_vml_scale_vec(&self.ys),
            anchored: self.anchored,
            h_from: self.h_from.clone(),
            v_from: self.v_from.clone(),
            h_align: self.h_align.clone(),
            v_align: self.v_align.clone(),
        }
    }
}

// ---------------------------------------------------------------- the style grammar

/// The value that a `key:value` piece gives `key`, which is matched without regard to case.
pub open spec fn style_value_s(kv: Seq<char>, key: Seq<char>) -> Option<Seq<char>> {
    match search::find_s(kv, ":"@, 0) {
        Some(at) => if package::lower_s(search::trim_s(kv.subrange(0, at))) == package::lower_s(key) {
            Some(search::trim_s(kv.subrange(at + 1, kv.len() as int)))
        } else {
            None
        },
        None => None,
    }
}

/// The first value of `key` among the pieces from `from` on.
pub open spec fn style_find_s(kvs: Seq<Seq<char>>, key: Seq<char>, from: int) -> Option<Seq<char>>
    decreases kvs.len() - from,
{
    if 0 <= from < kvs.len() {
        match style_value_s(kvs[from], key) {
            Some(v) => Some(v),
            None => style_find_s(kvs, key, from + 1),
        }
    } else {
        None
    }
}

/// The value of `key` in a `style` attribute.
pub open spec fn style_get_s(style: Seq<char>, key: Seq<char>) -> Option<Seq<char>> {
    style_find_s(search::split_s(style, ';'), key, 0)
}

fn style_value(kv: &str, key: &str) -> (r: Option<String>)
    ensures
        strs::opt_s(r) == style_value_s(kv@, key@),
{
    let v = chars_of(kv);
    let n = v.len();
    match find_at(&v, ":", 0) {
        Some(at) => {
            proof {
                reveal_strlit(":");
            }
            let k = trim(string_of(&v, 0, at).as_str());
            if str_eq(lower(k.as_str()).as_str(), lower(key).as_str()) {
                Some(trim(string_of(&v, at + 1, n).as_str()))
            } else {
                None
            }
        },
        None => None,
    }
}

/// Look a key out of a VML `style` attribute.
pub fn vml_style_get(style: &str, key: &str) -> (r: Option<String>)
    ensures
        strs::opt_s(r) == style_get_s(style@, key@),
{
    let kvs = split(style, ';');
    let ghost t = search::texts_s(kvs@);
    let mut i: usize = 0;
    while i < kvs.len()
        invariant
            i <= kvs@.len(),
            t == search::texts_s(kvs@),
            t == search::split_s(style@, ';'),
            style_find_s(t, key@, 0) == style_find_s(t, key@, i as int),
        decreases kvs@.len() - i,
    {
        assert(t[i as int] == kvs@[i as int]@);
        if let Some(v) = style_value(kvs[i].as_str(), key) {
            return Some(v);
        }
        i = i + 1;
    }
    None
}

/// One axis of a `coordsize`: the piece as a positive number, else 1000.
pub open spec fn coord_s(pieces: Seq<Seq<char>>, i: int) -> i64 {
    if i < pieces.len() {
        match strs::parse_int_s(
            search::trim_s(pieces[i]),
            i64::MIN as int,
            i64::MAX as int,
        ) {
            Some(v) => if v > 0 {
                v as i64
            } else {
                1000
            },
            None => 1000,
        }
    } else {
        1000
    }
}

/// The two axes of a `coordsize` attribute.
pub open spec fn coordsize_s(o: Option<Seq<char>>) -> (i64, i64) {
    match o {
        Some(s) => (coord_s(search::split_s(s, ','), 0), coord_s(search::split_s(s, ','), 1)),
        None => (1000, 1000),
    }
}

fn coord(pieces: &Vec<String>, i: usize) -> (r: i64)
    ensures
        r == coord_s(search::texts_s(pieces@), i as int),
{
    if i < pieces.len() {
        assert(search::texts_s(pieces@)[i as int] == pieces@[i as int]@);
        match parse_sint(trim(pieces[i].as_str()).as_str(), i64::MIN, i64::MAX) {
            Some(v) => if v > 0 {
                v
            } else {
                1000
            },
            None => 1000,
        }
    } else {
        1000
    }
}

/// Parse a `coordsize` attribute; the default of an absent or unreadable axis is 1000.
pub fn vml_coordsize(o: &Option<String>) -> (r: (i64, i64))
    ensures
        r == coordsize_s(strs::opt_s(*o)),
{
    match o {
        Some(s) => {
            let pieces = split(s.as_str(), ',');
            (coord(&pieces, 0), coord(&pieces, 1))
        },
        None => (1000, 1000),
    }
}

/// What a VML position is relative to: the page, the margin, or (left empty) the anchor.
pub open spec fn vml_rel_s(v: Option<Seq<char>>) -> Seq<char> {
    if v == Some("page"@) {
        "page"@
    } else if v == Some("margin"@) {
        "margin"@
    } else {
        Seq::empty()
    }
}

fn vml_rel(v: &Option<String>) -> (r: String)
    ensures
        r@ == vml_rel_s(strs::opt_s(*v)),
{
    if opt_is(v, "page") {
        "page".to_string()
    } else if opt_is(v, "margin") {
        "margin".to_string()
    } else {
        let s = String::new();
        assert(s@ =~= Seq::empty());
        s
    }
}

/// The length that a style gives `key`, in the given scope.
pub open spec fn len_s(style: Seq<char>, key: Seq<char>, scope: Seq<VmlScaleV>) -> Option<VmlLenV> {
    match style_get_s(style, key) {
        Some(text) => Some(VmlLenV { text, scope }),
        None => None,
    }
}

/// The sum with one more length, where there is one.
pub open spec fn plus_s(sum: Seq<VmlLenV>, l: Option<VmlLenV>) -> Seq<VmlLenV> {
    match l {
        Some(x) => sum.push(x),
        None => sum,
    }
}

fn len_of(style: &str, key: &str, scope: &Vec<VmlScale>) -> (r: Option<VmlLen>)
    ensures
        vml_len_ov(r) == len_s(style@, key@, vml_scale_vs(scope@)),
{
    match vml_style_get(style, key) {
        Some(text) => Some(VmlLen { text, scope: clone_vml_scale_vec(scope) }),
        None => None,
    }
}

fn plus(sum: &mut Vec<VmlLen>, l: Option<VmlLen>)
    ensures
        vml_len_vs(final(sum)@) == plus_s(vml_len_vs(old(sum)@), vml_len_ov(l)),
{
    if let Some(x) = l {
        let ghost was = sum@;
        let ghost xv = x@;
        sum.push(x);
        assert(vml_len_vs(sum@) =~= vml_len_vs(was).push(xv));
    }
}

// ---------------------------------------------------------------- groups and shapes

/// The group that a `v:group` tag opens inside `parent`: an outermost one owns the anchor, a
/// nested one adds its offset to its parent's.
pub open spec fn group_s(parent: Option<VmlGroupV>, t: XmlTagV) -> VmlGroupV {
    let style = events::or_empty_s(events::attr_s(t, "style"@));
    let (cw, ch) = coordsize_s(events::attr_s(t, "coordsize"@));
    let w = VmlScaleV { len: style_get_s(style, "width"@), coord: cw };
    let h = VmlScaleV { len: style_get_s(style, "height"@), coord: ch };
    match parent {
        Some(g) => VmlGroupV {
            x: plus_s(
                plus_s(g.x, len_s(style, "margin-left"@, g.xs)),
                len_s(style, "left"@, g.xs),
            ),
            y: plus_s(
                plus_s(g.y, len_s(style, "margin-top"@, g.ys)),
                len_s(style, "top"@, g.ys),
            ),
            xs: g.xs.push(w),
            ys: g.ys.push(h),
            ..g
        },
        None => VmlGroupV {
            x: plus_s(Seq::empty(), len_s(style, "margin-left"@, Seq::empty())),
            y: plus_s(Seq::empty(), len_s(style, "margin-top"@, Seq::empty())),
            xs: seq![w],
            ys: seq![h],
            anchored: style_get_s(style, "position"@) == Some("absolute"@),
            h_from: vml_rel_s(style_get_s(style, "mso-position-horizontal-relative"@)),
            v_from: vml_rel_s(style_get_s(style, "mso-position-vertical-relative"@)),
            h_align: events::or_empty_s(style_get_s(style, "mso-position-horizontal"@)),
            v_align: events::or_empty_s(style_get_s(style, "mso-position-vertical"@)),
        },
    }
}

fn nested_group(g: &VmlGroup, style: &str, w: VmlScale, h: VmlScale) -> (r: VmlGroup)
    ensures
        r@ == (VmlGroupV {
            x: plus_s(
                plus_s(g@.x, len_s(style@, "margin-left"@, g@.xs)),
                len_s(style@, "left"@, g@.xs),
            ),
            y: plus_s(
                plus_s(g@.y, len_s(style@, "margin-top"@, g@.ys)),
                len_s(style@, "top"@, g@.ys),
            ),
            xs: g@.xs.push(w@),
            ys: g@.ys.push(h@),
            ..g@
        }),
{
    let mut out = g.clone();
    plus(&mut out.x, len_of(style, "margin-left", &g.xs));
    plus(&mut out.x, len_of(style, "left", &g.xs));
    plus(&mut out.y, len_of(style, "margin-top", &g.ys));
    plus(&mut out.y, len_of(style, "top", &g.ys));
    let ghost xs = out.xs@;
    let ghost ys = out.ys@;
    let ghost wv = w@;
    let ghost hv = h@;
    out.xs.push(w);
    out.ys.push(h);
    assert(vml_scale_vs(out.xs@) =~= vml_scale_vs(xs).push(wv));
    assert(vml_scale_vs(out.ys@) =~= vml_scale_vs(ys).push(hv));
    out
}

fn open_group(parent: Option<&VmlGroup>, t: &XmlTag) -> (r: VmlGroup)
    ensures
        r@ == group_s(
            match parent {
                Some(g) => Some(g@),
                None => None,
            },
            t@,
        ),
{
    let style = or_empty(attr(t, "style"));
    let s = style.as_str();
    let (cw, ch) = vml_coordsize(&attr(t, "coordsize"));
    let w = VmlScale { len: vml_style_get(s, "width"), coord: cw };
    let h = VmlScale { len: vml_style_get(s, "height"), coord: ch };
    match parent {
        Some(g) => nested_group(g, s, w, h),
        None => {
            let none: Vec<VmlScale> = Vec::new();
            assert(vml_scale_vs(none@) =~= Seq::empty());
            let mut x: Vec<VmlLen> = Vec::new();
            let mut y: Vec<VmlLen> = Vec::new();
            assert(vml_len_vs(x@) =~= Seq::empty());
            assert(vml_len_vs(y@) =~= Seq::empty());
            plus(&mut x, len_of(s, "margin-left", &none));
            plus(&mut y, len_of(s, "margin-top", &none));
            let ghost wv = w@;
            let ghost hv = h@;
            let mut xs: Vec<VmlScale> = Vec::new();
            xs.push(w);
            let mut ys: Vec<VmlScale> = Vec::new();
            ys.push(h);
            assert(vml_scale_vs(xs@) =~= seq![wv]);
            assert(vml_scale_vs(ys@) =~= seq![hv]);
            VmlGroup {
                x,
                y,
                xs,
                ys,
                anchored: opt_is(&vml_style_get(s, "position"), "absolute"),
                h_from: vml_rel(&vml_style_get(s, "mso-position-horizontal-relative")),
                v_from: vml_rel(&vml_style_get(s, "mso-position-vertical-relative")),
                h_align: or_empty(vml_style_get(s, "mso-position-horizontal")),
                v_align: or_empty(vml_style_get(s, "mso-position-vertical")),
            }
        },
    }
}

/// The anchor of a shape outside any group, as a group without offset would state it.
pub open spec fn own_anchor_s(style: Seq<char>) -> VmlGroupV {
    VmlGroupV {
        x: Seq::empty(),
        y: Seq::empty(),
        xs: Seq::empty(),
        ys: Seq::empty(),
        anchored: style_get_s(style, "position"@) == Some("absolute"@),
        h_from: vml_rel_s(style_get_s(style, "mso-position-horizontal-relative"@)),
        v_from: vml_rel_s(style_get_s(style, "mso-position-vertical-relative"@)),
        h_align: events::or_empty_s(style_get_s(style, "mso-position-horizontal"@)),
        v_align: events::or_empty_s(style_get_s(style, "mso-position-vertical"@)),
    }
}

/// The picture that a VML shape of the given style announces. Inside a group its lengths are in
/// the group's units and the group owns the anchor. A floating shape does not wrap text.
pub open spec fn shape_s(
    group: Option<VmlGroupV>,
    style: Seq<char>,
    para_index: usize,
    track: Option<TrackV>,
    in_textbox: bool,
) -> DrawImageV {
    let g = match group {
        Some(g) => g,
        None => own_anchor_s(style),
    };
    DrawImageV {
        anchored: g.anchored,
        h_from: g.h_from,
        v_from: g.v_from,
        h_align: g.h_align,
        v_align: g.v_align,
        wrap: if g.anchored {
            "none"@
        } else {
            Seq::empty()
        },
        para_index,
        track,
        in_textbox,
        vml: Some(
            VmlBoxV {
                w: len_s(style, "width"@, g.xs),
                h: len_s(style, "height"@, g.ys),
                x: plus_s(
                    plus_s(g.x, len_s(style, "margin-left"@, g.xs)),
                    len_s(style, "left"@, g.xs),
                ),
                y: plus_s(
                    plus_s(g.y, len_s(style, "margin-top"@, g.ys)),
                    len_s(style, "top"@, g.ys),
                ),
            },
        ),
        ..DrawImageV::initial()
    }
}

fn own_anchor(s: &str) -> (r: VmlGroup)
    ensures
        r@ == own_anchor_s(s@),
{
    let r = VmlGroup {
        x: Vec::new(),
        y: Vec::new(),
        xs: Vec::new(),
        ys: Vec::new(),
        anchored: opt_is(&vml_style_get(s, "position"), "absolute"),
        h_from: vml_rel(&vml_style_get(s, "mso-position-horizontal-relative")),
        v_from: vml_rel(&vml_style_get(s, "mso-position-vertical-relative")),
        h_align: or_empty(vml_style_get(s, "mso-position-horizontal")),
        v_align: or_empty(vml_style_get(s, "mso-position-vertical")),
    };
    assert(r@ =~= own_anchor_s(s@));
    r
}

fn shape_box(g: &VmlGroup, s: &str) -> (r: VmlBox)
    ensures
        r@ == (VmlBoxV {
            w: len_s(s@, "width"@, g@.xs),
            h: len_s(s@, "height"@, g@.ys),
            x: plus_s(
                plus_s(g@.x, len_s(s@, "margin-left"@, g@.xs)),
                len_s(s@, "left"@, g@.xs),
            ),
            y: plus_s(
                plus_s(g@.y, len_s(s@, "margin-top"@, g@.ys)),
                len_s(s@, "top"@, g@.ys),
            ),
        }),
{
    let mut x = clone_vml_len_vec(&g.x);
    plus(&mut x, len_of(s, "margin-left", &g.xs));
    plus(&mut x, len_of(s, "left", &g.xs));
    let mut y = clone_vml_len_vec(&g.y);
    plus(&mut y, len_of(s, "margin-top", &g.ys));
    plus(&mut y, len_of(s, "top", &g.ys));
    VmlBox { w: len_of(s, "width", &g.xs), h: len_of(s, "height", &g.ys), x, y }
}

fn shape_in(
    g: &VmlGroup,
    s: &str,
    para_index: usize,
    track: &Option<Track>,
    in_textbox: bool,
) -> (r: DrawImage)
    ensures
        r@ == shape_s(Some(g@), s@, para_index, types::track_ov(*track), in_textbox),
{
    let mut d = DrawImage::default();
    d.anchored = g.anchored;
    d.h_from = g.h_from.clone();
    d.v_from = g.v_from.clone();
    d.h_align = g.h_align.clone();
    d.v_align = g.v_align.clone();
    if g.anchored {
        d.wrap = "none".to_string();
    }
    d.para_index = para_index;
    d.track = clone_track_opt(track);
    d.in_textbox = in_textbox;
    d.vml = Some(shape_box(g, s));
    assert(d@ =~= shape_s(Some(g@), s@, para_index, types::track_ov(*track), in_textbox));
    d
}

// ---------------------------------------------------------------- drawings

/// A drawing's own properties: the tags that describe the picture being read.
pub open spec fn is_picture_tag_s(n: Seq<char>) -> bool {
    n == "a:srcRect"@ || n == "wp:wrapSquare"@ || n == "wp:wrapTight"@ || n == "wp:wrapThrough"@
        || n == "wp:wrapTopAndBottom"@ || n == "wp:wrapNone"@ || n == "wp:anchor"@ || n
        == "wp:extent"@
}

/// The picture with what such a tag states.
pub open spec fn picture_tag_s(c: DrawImageV, t: XmlTagV) -> DrawImageV {
    let n = t.name;
    if n == "a:srcRect"@ {
        DrawImageV {
            crop_l: events::or_s(events::attr_i64_s(t, "l"@), 0),
            crop_t: events::or_s(events::attr_i64_s(t, "t"@), 0),
            crop_r: events::or_s(events::attr_i64_s(t, "r"@), 0),
            crop_b: events::or_s(events::attr_i64_s(t, "b"@), 0),
            ..c
        }
    } else if n == "wp:wrapSquare"@ {
        DrawImageV { wrap: "square"@, ..c }
    } else if n == "wp:wrapTight"@ {
        DrawImageV { wrap: "tight"@, ..c }
    } else if n == "wp:wrapThrough"@ {
        DrawImageV { wrap: "through"@, ..c }
    } else if n == "wp:wrapTopAndBottom"@ {
        DrawImageV { wrap: "topAndBottom"@, ..c }
    } else if n == "wp:wrapNone"@ {
        DrawImageV { wrap: "none"@, ..c }
    } else if n == "wp:anchor"@ {
        DrawImageV {
            anchored: true,
            behind: events::attr_s(t, "behindDoc"@) == Some("1"@),
            ..c
        }
    } else {
        DrawImageV {
            w_emu: events::or_s(events::attr_i64_s(t, "cx"@), 0),
            h_emu: events::or_s(events::attr_i64_s(t, "cy"@), 0),
            ..c
        }
    }
}

fn is_picture_tag(t: &XmlTag) -> (r: bool)
    ensures
        r == is_picture_tag_s(t@.name),
{
    is_tag(t, "a:srcRect") || is_tag(t, "wp:wrapSquare") || is_tag(t, "wp:wrapTight") || is_tag(
        t,
        "wp:wrapThrough",
    ) || is_tag(t, "wp:wrapTopAndBottom") || is_tag(t, "wp:wrapNone") || is_tag(t, "wp:anchor")
        || is_tag(t, "wp:extent")
}

fn picture_tag(c: &mut DrawImage, t: &XmlTag)
    ensures
        final(c)@ == picture_tag_s(old(c)@, t@),
{
    if is_tag(t, "a:srcRect") {
        c.crop_l = or_else(attr_i64(t, "l"), 0);
        c.crop_t = or_else(attr_i64(t, "t"), 0);
        c.crop_r = or_else(attr_i64(t, "r"), 0);
        c.crop_b = or_else(attr_i64(t, "b"), 0);
    } else if is_tag(t, "wp:wrapSquare") {
        c.wrap = "square".to_string();
    } else if is_tag(t, "wp:wrapTight") {
        c.wrap = "tight".to_string();
    } else if is_tag(t, "wp:wrapThrough") {
        c.wrap = "through".to_string();
    } else if is_tag(t, "wp:wrapTopAndBottom") {
        c.wrap = "topAndBottom".to_string();
    } else if is_tag(t, "wp:wrapNone") {
        c.wrap = "none".to_string();
    } else if is_tag(t, "wp:anchor") {
        c.anchored = true;
        c.behind = opt_is(&attr(t, "behindDoc"), "1");
    } else {
        c.w_emu = or_else(attr_i64(t, "cx"), 0);
        c.h_emu = or_else(attr_i64(t, "cy"), 0);
    }
}

/// A subtree being passed over: its element and how many of the same name are open inside it.
#[verifier::ext_equal]
pub struct SkipV {
    pub name: Seq<char>,
    pub depth: int,
}

/// A subtree being passed over.
pub struct Skip {
    pub name: String,
    pub depth: usize,
}

impl View for Skip {
    type V = SkipV;

    open spec fn view(&self) -> SkipV {
        SkipV { name: self.name@, depth: self.depth as int }
    }
}

pub open spec fn skip_ov(o: Option<Skip>) -> Option<SkipV> {
    match o {
        Some(x) => Some(x@),
        None => None,
    }
}

/// What is left to pass over after one more step: the matching end tag ends it, and so does a
/// step that failed.
pub open spec fn skip_step_s(k: SkipV, e: XmlEventV) -> Option<SkipV> {
    match e {
        XmlEventV::Error => None,
        XmlEventV::Start(t) => if t.name == k.name {
            Some(SkipV { depth: k.depth + 1, ..k })
        } else {
            Some(k)
        },
        XmlEventV::End(n) => if n == k.name {
            if k.depth == 0 {
                None
            } else {
                Some(SkipV { depth: k.depth - 1, ..k })
            }
        } else {
            Some(k)
        },
        _ => Some(k),
    }
}

pub(crate) fn skip_step(k: Skip, e: &XmlEvent) -> (r: Option<Skip>)
    requires
        k.depth < usize::MAX,
    ensures
        skip_ov(r) == skip_step_s(k@, e@),
        r matches Some(x) ==> x.depth <= k.depth + 1,
{
    match e {
        XmlEvent::Error => None,
        XmlEvent::Start(t) => if str_eq(t.name.as_str(), k.name.as_str()) {
            Some(Skip { name: k.name, depth: k.depth + 1 })
        } else {
            Some(k)
        },
        XmlEvent::End(n) => if str_eq(n.as_str(), k.name.as_str()) {
            if k.depth == 0 {
                None
            } else {
                Some(Skip { name: k.name, depth: k.depth - 1 })
            }
        } else {
            Some(k)
        },
        _ => Some(k),
    }
}

/// Whether a subtree holds no picture of its own: the fallback of an alternate, and what is kept
/// verbatim.
pub open spec fn passed_over_s(n: Seq<char>) -> bool {
    n == "mc:Fallback"@ || n == "w:object"@ || n == "w:control"@
}

pub(crate) fn passed_over(t: &XmlTag) -> (r: bool)
    ensures
        r == passed_over_s(t@.name),
{
    is_tag(t, "mc:Fallback") || is_tag(t, "w:object") || is_tag(t, "w:control")
}

// ---------------------------------------------------------------- scanning

/// What scanning a body part for pictures has gathered.
pub struct ImageReader {
    pub out: Vec<DrawImage>,
    /// Body paragraphs closed so far.
    pub para_index: usize,
    /// The drawing being read.
    pub cur: Option<DrawImage>,
    /// A VML shape whose media reference has not been met.
    pub shape: Option<DrawImage>,
    /// Open groups, innermost last.
    pub groups: Vec<VmlGroup>,
    /// Depth inside text boxes, whose paragraphs are not body paragraphs.
    pub txbx: usize,
    /// The tracked change open around runs.
    pub track: Option<Track>,
    pub in_posh: bool,
    pub in_posv: bool,
    pub in_offset: bool,
    pub in_align: bool,
    /// Depth inside picture fills, whose blips are no pictures.
    pub fill: usize,
    /// The subtree being passed over.
    pub skip: Option<Skip>,
    /// A step has failed.
    pub stopped: bool,
}

/// The mathematical value of a [`ImageReader`].
#[verifier::ext_equal]
pub struct ImageReaderV {
    pub out: Seq<DrawImageV>,
    pub para_index: usize,
    pub cur: Option<DrawImageV>,
    pub shape: Option<DrawImageV>,
    pub groups: Seq<VmlGroupV>,
    pub txbx: int,
    pub track: Option<TrackV>,
    pub in_posh: bool,
    pub in_posv: bool,
    pub in_offset: bool,
    pub in_align: bool,
    pub fill: int,
    pub skip: Option<SkipV>,
    pub stopped: bool,
}

impl View for ImageReader {
    type V = ImageReaderV;

    open spec fn view(&self) -> ImageReaderV {
        ImageReaderV {
            out: draw_image_vs(self.out@),
            para_index: self.para_index,
            cur: draw_image_ov(self.cur),
            shape: draw_image_ov(self.shape),
            groups: vml_group_vs(self.groups@),
            txbx: self.txbx as int,
            track: types::track_ov(self.track),
            in_posh: self.in_posh,
            in_posv: self.in_posv,
            in_offset: self.in_offset,
            in_align: self.in_align,
            fill: self.fill as int,
            skip: skip_ov(self.skip),
            stopped: self.stopped,
        }
    }
}

impl ImageReaderV {
    pub open spec fn initial() -> ImageReaderV {
        ImageReaderV {
            out: Seq::empty(),
            para_index: 0,
            cur: None,
            shape: None,
            groups: Seq::empty(),
            txbx: 0,
            track: None,
            in_posh: false,
            in_posv: false,
            in_offset: false,
            in_align: false,
            fill: 0,
            skip: None,
            stopped: false,
        }
    }
}

/// The innermost open group.
pub open spec fn innermost_s(groups: Seq<VmlGroupV>) -> Option<VmlGroupV> {
    if groups.len() > 0 {
        Some(groups.last())
    } else {
        None
    }
}

/// The picture that a `w:drawing` opens.
pub open spec fn opened_drawing_s(s: ImageReaderV) -> DrawImageV {
    DrawImageV {
        para_index: s.para_index,
        track: s.track,
        in_textbox: s.txbx > 0,
        ..DrawImageV::initial()
    }
}

pub open spec fn is_shape_s(n: Seq<char>) -> bool {
    n == "v:shape"@ || n == "v:rect"@ || n == "v:roundrect"@ || n == "v:oval"@
}

/// What a tag inside the picture being read does.
pub open spec fn image_cur_tag_s(s: ImageReaderV, t: XmlTagV) -> ImageReaderV {
    let n = t.name;
    if is_picture_tag_s(n) {
        ImageReaderV {
            cur: match s.cur {
                Some(c) => Some(picture_tag_s(c, t)),
                None => None,
            },
            ..s
        }
    } else if n == "wp:positionH"@ {
        ImageReaderV {
            in_posh: true,
            cur: match s.cur {
                Some(c) => Some(
                    DrawImageV {
                        h_from: events::or_empty_s(events::attr_s(t, "relativeFrom"@)),
                        ..c
                    },
                ),
                None => None,
            },
            ..s
        }
    } else if n == "wp:positionV"@ {
        ImageReaderV {
            in_posv: true,
            cur: match s.cur {
                Some(c) => Some(
                    DrawImageV {
                        v_from: events::or_empty_s(events::attr_s(t, "relativeFrom"@)),
                        ..c
                    },
                ),
                None => None,
            },
            ..s
        }
    } else if n == "a:blip"@ && s.fill == 0 {
        ImageReaderV {
            cur: match (s.cur, events::attr_s(t, "r:embed"@)) {
                (Some(c), Some(id)) => Some(DrawImageV { embed: id, ..c }),
                _ => s.cur,
            },
            ..s
        }
    } else {
        s
    }
}

/// What a VML tag does: a shape announces a picture, its media reference completes it.
pub open spec fn image_vml_tag_s(s: ImageReaderV, t: XmlTagV) -> ImageReaderV {
    if is_shape_s(t.name) {
        match events::attr_s(t, "style"@) {
            Some(style) => ImageReaderV {
                shape: Some(
                    shape_s(innermost_s(s.groups), style, s.para_index, s.track, s.txbx > 0),
                ),
                ..s
            },
            None => s,
        }
    } else {
        match (events::attr_s(t, "r:id"@), s.shape) {
            (Some(id), Some(c)) => ImageReaderV {
                out: s.out.push(DrawImageV { embed: id, ..c }),
                shape: None,
                ..s
            },
            _ => s,
        }
    }
}

/// What an opening or self-closing tag does.
pub open spec fn image_tag_s(s: ImageReaderV, t: XmlTagV) -> ImageReaderV {
    let n = t.name;
    if n == "w:ins"@ {
        ImageReaderV { track: Some(events::revision_track_s(t, TrackKind::Ins)), ..s }
    } else if n == "w:del"@ {
        ImageReaderV { track: Some(events::revision_track_s(t, TrackKind::Del)), ..s }
    } else if n == "w:txbxContent"@ {
        ImageReaderV { txbx: s.txbx + 1, ..s }
    } else if n == "w:drawing"@ {
        ImageReaderV { cur: Some(opened_drawing_s(s)), ..s }
    } else if n == "a:blipFill"@ {
        ImageReaderV { fill: s.fill + 1, ..s }
    } else if n == "wp:posOffset"@ {
        ImageReaderV { in_offset: true, ..s }
    } else if n == "wp:align"@ {
        ImageReaderV { in_align: true, ..s }
    } else if is_shape_s(n) || n == "v:imagedata"@ {
        image_vml_tag_s(s, t)
    } else {
        image_cur_tag_s(s, t)
    }
}

/// What an opening tag does.
pub open spec fn image_start_s(s: ImageReaderV, t: XmlTagV) -> ImageReaderV {
    if passed_over_s(t.name) {
        ImageReaderV { skip: Some(SkipV { name: t.name, depth: 0 }), ..s }
    } else if t.name == "v:group"@ {
        ImageReaderV { groups: s.groups.push(group_s(innermost_s(s.groups), t)), ..s }
    } else {
        image_tag_s(s, t)
    }
}

/// What a text does: an offset or an alignment of the picture being read.
pub open spec fn image_text_s(s: ImageReaderV, x: Option<Seq<char>>) -> ImageReaderV {
    let text = search::trim_s(events::or_empty_s(x));
    match s.cur {
        Some(c) => if s.in_offset {
            match strs::parse_int_s(text, i64::MIN as int, i64::MAX as int) {
                Some(v) => if s.in_posh {
                    ImageReaderV { cur: Some(DrawImageV { x_emu: v as i64, ..c }), ..s }
                } else if s.in_posv {
                    ImageReaderV { cur: Some(DrawImageV { y_emu: v as i64, ..c }), ..s }
                } else {
                    s
                },
                None => s,
            }
        } else if s.in_align {
            if s.in_posh {
                ImageReaderV { cur: Some(DrawImageV { h_align: text, ..c }), ..s }
            } else if s.in_posv {
                ImageReaderV { cur: Some(DrawImageV { v_align: text, ..c }), ..s }
            } else {
                s
            }
        } else {
            s
        },
        None => s,
    }
}

/// A depth after one level closes.
pub open spec fn shallower_s(d: int) -> int {
    if d > 0 {
        d - 1
    } else {
        0
    }
}

/// What a closing tag does.
pub open spec fn image_end_s(s: ImageReaderV, n: Seq<char>) -> ImageReaderV {
    if n == "wp:posOffset"@ {
        ImageReaderV { in_offset: false, ..s }
    } else if n == "wp:align"@ {
        ImageReaderV { in_align: false, ..s }
    } else if n == "wp:positionH"@ {
        ImageReaderV { in_posh: false, ..s }
    } else if n == "wp:positionV"@ {
        ImageReaderV { in_posv: false, ..s }
    } else if n == "w:ins"@ || n == "w:del"@ {
        ImageReaderV { track: None, ..s }
    } else if n == "w:txbxContent"@ {
        ImageReaderV { txbx: shallower_s(s.txbx), ..s }
    } else if n == "a:blipFill"@ {
        ImageReaderV { fill: shallower_s(s.fill), ..s }
    } else if n == "v:group"@ {
        ImageReaderV {
            groups: if s.groups.len() > 0 {
                s.groups.drop_last()
            } else {
                s.groups
            },
            ..s
        }
    } else if n == "w:drawing"@ {
        ImageReaderV {
            out: match s.cur {
                Some(c) => if c.embed.len() > 0 {
                    s.out.push(c)
                } else {
                    s.out
                },
                None => s.out,
            },
            cur: None,
            ..s
        }
    } else if n == "w:p"@ && s.txbx == 0 {
        ImageReaderV { para_index: (s.para_index + 1) as usize, ..s }
    } else {
        s
    }
}

/// What a self-closing tag does; a paragraph of the body flow may be one.
pub open spec fn image_empty_s(s: ImageReaderV, t: XmlTagV) -> ImageReaderV {
    if t.name == "w:p"@ {
        image_end_s(s, t.name)
    } else {
        image_tag_s(s, t)
    }
}

pub open spec fn image_step_s(s: ImageReaderV, e: XmlEventV) -> ImageReaderV {
    if s.stopped {
        s
    } else {
        match s.skip {
            Some(k) => ImageReaderV { skip: skip_step_s(k, e), ..s },
            None => match e {
                XmlEventV::Error => ImageReaderV { stopped: true, ..s },
                XmlEventV::Start(t) => image_start_s(s, t),
                XmlEventV::Empty(t) => image_empty_s(s, t),
                XmlEventV::Text(x) => image_text_s(s, x),
                XmlEventV::End(n) => image_end_s(s, n),
                _ => s,
            },
        }
    }
}

pub open spec fn images_run_s(steps: Seq<XmlStepV>, n: int) -> ImageReaderV
    decreases n,
{
    if n <= 0 {
        ImageReaderV::initial()
    } else {
        image_step_s(images_run_s(steps, n - 1), steps[n - 1].event)
    }
}

/// The pictures of a body part, VML ones not measured yet.
pub open spec fn images_s(steps: Seq<XmlStepV>) -> Seq<DrawImageV> {
    images_run_s(steps, steps.len() as int).out
}

impl ImageReader {
    /// The counters stay below the number of steps taken.
    spec fn bounded(self, i: nat) -> bool {
        &&& self.para_index <= i
        &&& self.txbx <= i
        &&& self.fill <= i
        &&& self.skip matches Some(k) ==> k.depth <= i
    }

    fn new() -> (r: Self)
        ensures
            r@ == ImageReaderV::initial(),
            r.bounded(0),
    {
        let r = ImageReader {
            out: Vec::new(),
            para_index: 0,
            cur: None,
            shape: None,
            groups: Vec::new(),
            txbx: 0,
            track: None,
            in_posh: false,
            in_posv: false,
            in_offset: false,
            in_align: false,
            fill: 0,
            skip: None,
            stopped: false,
        };
        assert(r@ =~= ImageReaderV::initial());
        r
    }

    fn cur_tag(&mut self, t: &XmlTag)
        ensures
            final(self)@ == image_cur_tag_s(old(self)@, t@),
            final(self).para_index == old(self).para_index,
            final(self).txbx == old(self).txbx,
            final(self).fill == old(self).fill,
            final(self).skip == old(self).skip,
    {
        if is_picture_tag(t) {
            if let Some(mut c) = self.cur.take() {
                picture_tag(&mut c, t);
                self.cur = Some(c);
            }
        } else if is_tag(t, "wp:positionH") {
            self.in_posh = true;
            if let Some(mut c) = self.cur.take() {
                c.h_from = or_empty(attr(t, "relativeFrom"));
                self.cur = Some(c);
            }
        } else if is_tag(t, "wp:positionV") {
            self.in_posv = true;
            if let Some(mut c) = self.cur.take() {
                c.v_from = or_empty(attr(t, "relativeFrom"));
                self.cur = Some(c);
            }
        } else if is_tag(t, "a:blip") && self.fill == 0 {
            if let Some(mut c) = self.cur.take() {
                if let Some(id) = attr(t, "r:embed") {
                    c.embed = id;
                }
                self.cur = Some(c);
            }
        }
    }

    fn vml_tag(&mut self, t: &XmlTag)
        ensures
            final(self)@ == image_vml_tag_s(old(self)@, t@),
            final(self).para_index == old(self).para_index,
            final(self).txbx == old(self).txbx,
            final(self).fill == old(self).fill,
            final(self).skip == old(self).skip,
    {
        if is_tag(t, "v:shape") || is_tag(t, "v:rect") || is_tag(t, "v:roundrect") || is_tag(
            t,
            "v:oval",
        ) {
            if let Some(style) = attr(t, "style") {
                let n = self.groups.len();
                let shape = if n > 0 {
                    assert(vml_group_vs(self.groups@).last() == self.groups@[n - 1]@);
                    shape_in(
                        &self.groups[n - 1],
                        style.as_str(),
                        self.para_index,
                        &self.track,
                        self.txbx > 0,
                    )
                } else {
                    let own = own_anchor(style.as_str());
                    shape_in(&own, style.as_str(), self.para_index, &self.track, self.txbx > 0)
                };
                self.shape = Some(shape);
            }
        } else {
            if let Some(id) = attr(t, "r:id") {
                if let Some(mut c) = self.shape.take() {
                    c.embed = id;
                    let ghost was = self.out@;
                    let ghost cv = c@;
                    self.out.push(c);
                    assert(draw_image_vs(self.out@) =~= draw_image_vs(was).push(cv));
                }
            }
        }
    }

    fn tag(&mut self, t: &XmlTag, Ghost(i): Ghost<nat>)
        requires
            old(self).bounded(i),
            i < usize::MAX,
        ensures
            final(self)@ == image_tag_s(old(self)@, t@),
            final(self).bounded(i + 1),
    {
        if is_tag(t, "w:ins") {
            self.track = Some(revision_track(t, TrackKind::Ins));
        } else if is_tag(t, "w:del") {
            self.track = Some(revision_track(t, TrackKind::Del));
        } else if is_tag(t, "w:txbxContent") {
            self.txbx = self.txbx + 1;
        } else if is_tag(t, "w:drawing") {
            let mut d = DrawImage::default();
            d.para_index = self.para_index;
            d.track = clone_track_opt(&self.track);
            d.in_textbox = self.txbx > 0;
            assert(d@ =~= opened_drawing_s(self@));
            self.cur = Some(d);
        } else if is_tag(t, "a:blipFill") {
            self.fill = self.fill + 1;
        } else if is_tag(t, "wp:posOffset") {
            self.in_offset = true;
        } else if is_tag(t, "wp:align") {
            self.in_align = true;
        } else if is_tag(t, "v:shape") || is_tag(t, "v:rect") || is_tag(t, "v:roundrect") || is_tag(
            t,
            "v:oval",
        ) || is_tag(t, "v:imagedata") {
            self.vml_tag(t);
        } else {
            self.cur_tag(t);
        }
    }

    fn open_group(&mut self, t: &XmlTag)
        ensures
            final(self)@ == (ImageReaderV {
                groups: old(self)@.groups.push(group_s(innermost_s(old(self)@.groups), t@)),
                ..old(self)@
            }),
            final(self).para_index == old(self).para_index,
            final(self).txbx == old(self).txbx,
            final(self).fill == old(self).fill,
            final(self).skip == old(self).skip,
    {
        let n = self.groups.len();
        let g = if n > 0 {
            assert(vml_group_vs(self.groups@).last() == self.groups@[n - 1]@);
            open_group(Some(&self.groups[n - 1]), t)
        } else {
            open_group(None, t)
        };
        let ghost was = self.groups@;
        let ghost gv = g@;
        self.groups.push(g);
        assert(vml_group_vs(self.groups@) =~= vml_group_vs(was).push(gv));
    }

    fn start(&mut self, t: &XmlTag, Ghost(i): Ghost<nat>)
        requires
            old(self).bounded(i),
            i < usize::MAX,
        ensures
            final(self)@ == image_start_s(old(self)@, t@),
            final(self).bounded(i + 1),
    {
        if passed_over(t) {
            self.skip = Some(Skip { name: t.name.clone(), depth: 0 });
        } else if is_tag(t, "v:group") {
            self.open_group(t);
        } else {
            self.tag(t, Ghost(i));
        }
    }

    fn text(&mut self, x: &Option<String>)
        ensures
            final(self)@ == image_text_s(old(self)@, strs::opt_s(*x)),
            final(self).para_index == old(self).para_index,
            final(self).txbx == old(self).txbx,
            final(self).fill == old(self).fill,
            final(self).skip == old(self).skip,
    {
        let text = trim(or_empty(opt_clone(x)).as_str());
        if self.in_offset || self.in_align {
            if let Some(mut c) = self.cur.take() {
                if self.in_offset {
                    if let Some(v) = parse_sint(text.as_str(), i64::MIN, i64::MAX) {
                        if self.in_posh {
                            c.x_emu = v;
                        } else if self.in_posv {
                            c.y_emu = v;
                        }
                    }
                } else if self.in_posh {
                    c.h_align = text;
                } else if self.in_posv {
                    c.v_align = text;
                }
                self.cur = Some(c);
            }
        }
    }

    fn close_drawing(&mut self)
        ensures
            final(self)@ == (ImageReaderV {
                out: match old(self)@.cur {
                    Some(c) => if c.embed.len() > 0 {
                        old(self)@.out.push(c)
                    } else {
                        old(self)@.out
                    },
                    None => old(self)@.out,
                },
                cur: None,
                ..old(self)@
            }),
            final(self).para_index == old(self).para_index,
            final(self).txbx == old(self).txbx,
            final(self).fill == old(self).fill,
            final(self).skip == old(self).skip,
    {
        if let Some(c) = self.cur.take() {
            if c.embed.as_str().unicode_len() > 0 {
                let ghost was = self.out@;
                let ghost cv = c@;
                self.out.push(c);
                assert(draw_image_vs(self.out@) =~= draw_image_vs(was).push(cv));
            }
        }
    }

    fn end(&mut self, n: &str, Ghost(i): Ghost<nat>)
        requires
            old(self).bounded(i),
            i < usize::MAX,
        ensures
            final(self)@ == image_end_s(old(self)@, n@),
            final(self).bounded(i + 1),
    {
        if str_eq(n, "wp:posOffset") {
            self.in_offset = false;
        } else if str_eq(n, "wp:align") {
            self.in_align = false;
        } else if str_eq(n, "wp:positionH") {
            self.in_posh = false;
        } else if str_eq(n, "wp:positionV") {
            self.in_posv = false;
        } else if str_eq(n, "w:ins") || str_eq(n, "w:del") {
            self.track = None;
        } else if str_eq(n, "w:txbxContent") {
            if self.txbx > 0 {
                self.txbx = self.txbx - 1;
            }
        } else if str_eq(n, "a:blipFill") {
            if self.fill > 0 {
                self.fill = self.fill - 1;
            }
        } else if str_eq(n, "v:group") {
            if self.groups.len() > 0 {
                let ghost was = self.groups@;
                let _ = self.groups.pop();
                assert(vml_group_vs(self.groups@) =~= vml_group_vs(was).drop_last());
            }
        } else if str_eq(n, "w:drawing") {
            self.close_drawing();
        } else if str_eq(n, "w:p") && self.txbx == 0 {
            self.para_index = self.para_index + 1;
        }
    }

    fn step(&mut self, e: &XmlEvent, Ghost(i): Ghost<nat>)
        requires
            old(self).bounded(i),
            i < usize::MAX,
        ensures
            final(self)@ == image_step_s(old(self)@, e@),
            final(self).bounded(i + 1),
    {
        if !self.stopped {
            if let Some(k) = self.skip.take() {
                self.skip = skip_step(k, e);
            } else {
                match e {
                    XmlEvent::Error => {
                        self.stopped = true;
                    },
                    XmlEvent::Start(t) => self.start(t, Ghost(i)),
                    XmlEvent::Empty(t) => {
                        if is_tag(t, "w:p") {
                            self.end("w:p", Ghost(i));
                        } else {
                            self.tag(t, Ghost(i));
                        }
                    },
                    XmlEvent::Text(x) => self.text(x),
                    XmlEvent::End(n) => self.end(n.as_str(), Ghost(i)),
                    _ => {},
                }
            }
        }
    }
}

/// The pictures of a tokenized body part.
pub fn images_of(steps: &Vec<XmlStep>) -> (r: Vec<DrawImage>)
    ensures
        draw_image_vs(r@) == images_s(events::xml_step_vs(steps@)),
{
    let ghost v = events::xml_step_vs(steps@);
    let mut s = ImageReader::new();
    let mut i: usize = 0;
    while i < steps.len()
        invariant
            i <= steps@.len(),
            v == events::xml_step_vs(steps@),
            s@ == images_run_s(v, i as int),
            s.bounded(i as nat),
        decreases steps@.len() - i,
    {
        assert(v[i as int] == steps@[i as int]@);
        s.step(&steps[i].event, Ghost(i as nat));
        i = i + 1;
    }
    s.out
}

/// Scan a body part for pictures: drawings, and legacy VML pictures, whose lengths are still to
/// be measured.
pub fn parse_images(xml: &[u8]) -> (r: Vec<DrawImage>)
    ensures
        draw_image_vs(r@) == images_s(events::doc_s(xml@)),
{
    images_of(&read_xml(xml))
}

// ---------------------------------------------------------------- measuring

/// The measured lengths of a VML picture, in EMU.
#[derive(Debug, Clone, Copy, PartialEq, Eq, Structural)]
pub struct VmlSize {
    pub w: i64,
    pub h: i64,
    pub x: i64,
    pub y: i64,
}

/// How many of the first `n` pictures are VML pictures.
pub open spec fn vml_count_s(images: Seq<DrawImageV>, n: nat) -> nat
    decreases n,
{
    if n == 0 {
        0
    } else {
        vml_count_s(images, (n - 1) as nat) + if images[n - 1].vml is Some {
            1nat
        } else {
            0nat
        }
    }
}

/// The measured picture.
pub open spec fn measured_s(d: DrawImageV, m: VmlSize) -> DrawImageV {
    DrawImageV { w_emu: m.w, h_emu: m.h, x_emu: m.x, y_emu: m.y, vml: None, ..d }
}

/// The first `n` pictures with their measures put in, in order; a VML picture without a measured
/// extent is dropped.
pub open spec fn measured_images_s(images: Seq<DrawImageV>, sizes: Seq<VmlSize>, n: nat) -> Seq<
    DrawImageV,
>
    decreases n,
{
    if n == 0 {
        Seq::empty()
    } else {
        let before = measured_images_s(images, sizes, (n - 1) as nat);
        let d = images[n - 1];
        if d.vml is Some {
            let k = vml_count_s(images, (n - 1) as nat);
            if k < sizes.len() && sizes[k as int].w > 0 && sizes[k as int].h > 0 {
                before.push(measured_s(d, sizes[k as int]))
            } else {
                before
            }
        } else {
            before.push(d)
        }
    }
}

/// Put the measures of the VML pictures in, one for each in order; one without a measured extent
/// is dropped.
pub fn measure_images(images: &Vec<DrawImage>, sizes: &Vec<VmlSize>) -> (r: Vec<DrawImage>)
    ensures
        draw_image_vs(r@) == measured_images_s(draw_image_vs(images@), sizes@, images@.len()),
{
    let ghost v = draw_image_vs(images@);
    let mut out: Vec<DrawImage> = Vec::new();
    let mut k: usize = 0;
    let mut i: usize = 0;
    assert(draw_image_vs(out@) =~= Seq::empty());
    while i < images.len()
        invariant
            i <= images@.len(),
            v == draw_image_vs(images@),
            k == vml_count_s(v, i as nat),
            k <= i,
            draw_image_vs(out@) == measured_images_s(v, sizes@, i as nat),
        decreases images@.len() - i,
    {
        assert(v[i as int] == images@[i as int]@);
        let mut d = images[i].clone();
        let ghost was = out@;
        if d.vml.is_some() {
            let at = k;
            k = k + 1;
            if at < sizes.len() && sizes[at].w > 0 && sizes[at].h > 0 {
                let m = sizes[at];
                d.w_emu = m.w;
                d.h_emu = m.h;
                d.x_emu = m.x;
                d.y_emu = m.y;
                d.vml = None;
                let ghost dv = d@;
                assert(dv =~= measured_s(v[i as int], m));
                out.push(d);
                assert(draw_image_vs(out@) =~= draw_image_vs(was).push(dv));
            }
        } else {
            let ghost dv = d@;
            out.push(d);
            assert(draw_image_vs(out@) =~= draw_image_vs(was).push(dv));
        }
        i = i + 1;
    }
    out
}

} // verus!
