//! The `w:drawing` element of an image run.

use vstd::prelude::*;

use crate::strs::str_eq;
use crate::types::ImagePlacement;
use crate::types::ImagePlacementV;
use crate::xml;
use crate::xml::esc_piece;
use crate::xml::int_piece;
use crate::xml::num;

verus! {

pub open spec fn at_least_one_s(n: i64) -> int {
    if n < 1 {
        1
    } else {
        n as int
    }
}

fn at_least_one(n: i64) -> (r: i64)
    ensures
        r == at_least_one_s(n),
{
    if n < 1 {
        1
    } else {
        n
    }
}

/// The crop of a picture; nothing when no side is cropped.
pub open spec fn src_rect_s(p: ImagePlacementV) -> Seq<char> {
    if p.crop_l != 0 || p.crop_t != 0 || p.crop_r != 0 || p.crop_b != 0 {
        xml::int_s("<a:srcRect l=\""@, p.crop_l as int, "\""@) + xml::int_s(
            " t=\""@,
            p.crop_t as int,
            "\""@,
        ) + xml::int_s(" r=\""@, p.crop_r as int, "\""@) + xml::int_s(
            " b=\""@,
            p.crop_b as int,
            "\"/>"@,
        )
    } else {
        Seq::empty()
    }
}

fn src_rect(p: &ImagePlacement) -> (r: String)
    ensures
        r@ == src_rect_s(p@),
{
    if p.crop_l != 0 || p.crop_t != 0 || p.crop_r != 0 || p.crop_b != 0 {
        let mut s = int_piece("<a:srcRect l=\"", p.crop_l, "\"");
        s.append(int_piece(" t=\"", p.crop_t, "\"").as_str());
        s.append(int_piece(" r=\"", p.crop_r, "\"").as_str());
        s.append(int_piece(" b=\"", p.crop_b, "\"/>").as_str());
        s
    } else {
        String::new()
    }
}

/// `cx` and `cy` of the picture, at least one EMU each.
pub open spec fn extent_s(pre: Seq<char>, p: ImagePlacementV) -> Seq<char> {
    xml::int_s(pre, at_least_one_s(p.w_emu), "\""@) + xml::int_s(
        " cy=\""@,
        at_least_one_s(p.h_emu),
        "\"/>"@,
    )
}

fn extent(pre: &str, p: &ImagePlacement) -> (r: String)
    ensures
        r@ == extent_s(pre@, p@),
{
    let mut s = int_piece(pre, at_least_one(p.w_emu), "\"");
    s.append(int_piece(" cy=\"", at_least_one(p.h_emu), "\"/>").as_str());
    s
}

/// `id` and `name` of a drawing object: one above the model id, since zero is no valid
/// object id.
pub open spec fn object_s(pre: Seq<char>, id: u64) -> Seq<char> {
    xml::num_s(pre, (id + 1) as nat, "\""@) + xml::num_s(" name=\"Picture "@, (id + 1) as nat, "\"/>"@)
}

fn object(pre: &str, id: u64) -> (r: String)
    ensures
        r@ == object_s(pre@, id),
{
    let oid: u128 = id as u128 + 1;
    let mut s = num(pre, oid, "\"");
    s.append(num(" name=\"Picture ", oid, "\"/>").as_str());
    s
}

/// The picture graphic.
pub open spec fn graphic_s(id: u64, p: ImagePlacementV) -> Seq<char> {
    "<a:graphic xmlns:a=\"http://schemas.openxmlformats.org/drawingml/2006/main\"><a:graphicData uri=\"http://schemas.openxmlformats.org/drawingml/2006/picture\"><pic:pic xmlns:pic=\"http://schemas.openxmlformats.org/drawingml/2006/picture\"><pic:nvPicPr>"@
        + object_s("<pic:cNvPr id=\""@, id) + xml::num_s(
        "<pic:cNvPicPr/></pic:nvPicPr><pic:blipFill><a:blip r:embed=\"rIdImg"@,
        id as nat,
        "\"/>"@,
    ) + src_rect_s(p)
        + "<a:stretch><a:fillRect/></a:stretch></pic:blipFill><pic:spPr><a:xfrm><a:off x=\"0\" y=\"0\"/>"@
        + extent_s("<a:ext cx=\""@, p)
        + "</a:xfrm><a:prstGeom prst=\"rect\"><a:avLst/></a:prstGeom></pic:spPr></pic:pic></a:graphicData></a:graphic>"@
}

fn graphic(id: u64, p: &ImagePlacement) -> (r: String)
    ensures
        r@ == graphic_s(id, p@),
{
    let mut s =
        "<a:graphic xmlns:a=\"http://schemas.openxmlformats.org/drawingml/2006/main\"><a:graphicData uri=\"http://schemas.openxmlformats.org/drawingml/2006/picture\"><pic:pic xmlns:pic=\"http://schemas.openxmlformats.org/drawingml/2006/picture\"><pic:nvPicPr>".to_owned();
    s.append(object("<pic:cNvPr id=\"", id).as_str());
    s.append(
        num(
            "<pic:cNvPicPr/></pic:nvPicPr><pic:blipFill><a:blip r:embed=\"rIdImg",
            id as u128,
            "\"/>",
        ).as_str(),
    );
    s.append(src_rect(p).as_str());
    s.append(
        "<a:stretch><a:fillRect/></a:stretch></pic:blipFill><pic:spPr><a:xfrm><a:off x=\"0\" y=\"0\"/>",
    );
    s.append(extent("<a:ext cx=\"", p).as_str());
    s.append(
        "</a:xfrm><a:prstGeom prst=\"rect\"><a:avLst/></a:prstGeom></pic:spPr></pic:pic></a:graphicData></a:graphic>",
    );
    s
}

/// A position on one axis: an alignment when there is one, else an offset.
pub open spec fn position_s(align: Seq<char>, offset: i64) -> Seq<char> {
    if align.len() == 0 {
        xml::int_s("<wp:posOffset>"@, offset as int, "</wp:posOffset>"@)
    } else {
        xml::esc_piece_s("<wp:align>"@, align, "</wp:align>"@)
    }
}

fn position(align: &str, offset: i64) -> (r: String)
    ensures
        r@ == position_s(align@, offset),
{
    if align.is_empty() {
        int_piece("<wp:posOffset>", offset, "</wp:posOffset>")
    } else {
        esc_piece("<wp:align>", align, "</wp:align>")
    }
}

/// The polygon of a tight or through wrap.
pub open spec fn polygon_s(kind: Seq<char>) -> Seq<char> {
    "<wp:wrap"@ + kind
        + " wrapText=\"bothSides\"><wp:wrapPolygon edited=\"0\"><wp:start x=\"0\" y=\"0\"/><wp:lineTo x=\"0\" y=\"21600\"/><wp:lineTo x=\"21600\" y=\"21600\"/><wp:lineTo x=\"21600\" y=\"0\"/><wp:lineTo x=\"0\" y=\"0\"/></wp:wrapPolygon></wp:wrap"@
        + kind + ">"@
}

fn polygon(kind: &str) -> (r: String)
    ensures
        r@ == polygon_s(kind@),
{
    let mut s = "<wp:wrap".to_owned();
    s.append(kind);
    s.append(
        " wrapText=\"bothSides\"><wp:wrapPolygon edited=\"0\"><wp:start x=\"0\" y=\"0\"/><wp:lineTo x=\"0\" y=\"21600\"/><wp:lineTo x=\"21600\" y=\"21600\"/><wp:lineTo x=\"21600\" y=\"0\"/><wp:lineTo x=\"0\" y=\"0\"/></wp:wrapPolygon></wp:wrap",
    );
    s.append(kind);
    s.append(">");
    s
}

pub open spec fn text_wrap_s(wrap: Seq<char>) -> Seq<char> {
    if wrap == "square"@ {
        "<wp:wrapSquare wrapText=\"bothSides\"/>"@
    } else if wrap == "topAndBottom"@ {
        "<wp:wrapTopAndBottom/>"@
    } else if wrap == "through"@ {
        polygon_s("Through"@)
    } else if wrap == "tight"@ {
        polygon_s("Tight"@)
    } else {
        "<wp:wrapNone/>"@
    }
}

fn text_wrap(wrap: &str) -> (r: String)
    ensures
        r@ == text_wrap_s(wrap@),
{
    if str_eq(wrap, "square") {
        "<wp:wrapSquare wrapText=\"bothSides\"/>".to_owned()
    } else if str_eq(wrap, "topAndBottom") {
        "<wp:wrapTopAndBottom/>".to_owned()
    } else if str_eq(wrap, "through") {
        polygon("Through")
    } else if str_eq(wrap, "tight") {
        polygon("Tight")
    } else {
        "<wp:wrapNone/>".to_owned()
    }
}

pub open spec fn or_else_s(t: Seq<char>, dflt: Seq<char>) -> Seq<char> {
    if t.len() == 0 {
        dflt
    } else {
        t
    }
}

/// A floating picture.
pub open spec fn anchor_s(id: u64, p: ImagePlacementV) -> Seq<char> {
    "<wp:anchor xmlns:wp=\"http://schemas.openxmlformats.org/drawingml/2006/wordprocessingDrawing\" distT=\"0\" distB=\"0\" distL=\"0\" distR=\"0\" simplePos=\"0\" relativeHeight=\"1\" behindDoc=\""@
        + (if p.behind {
        "1"@
    } else {
        "0"@
    })
        + "\" locked=\"0\" layoutInCell=\"1\" allowOverlap=\"1\"><wp:simplePos x=\"0\" y=\"0\"/>"@
        + xml::esc_piece_s(
        "<wp:positionH relativeFrom=\""@,
        or_else_s(p.h_from, "column"@),
        "\">"@,
    ) + position_s(p.h_align, p.x_emu) + "</wp:positionH>"@ + xml::esc_piece_s(
        "<wp:positionV relativeFrom=\""@,
        or_else_s(p.v_from, "paragraph"@),
        "\">"@,
    ) + position_s(p.v_align, p.y_emu) + "</wp:positionV>"@ + extent_s("<wp:extent cx=\""@, p)
        + text_wrap_s(p.wrap) + object_s("<wp:docPr id=\""@, id) + graphic_s(id, p) + "</wp:anchor>"@
}

/// A picture in the text flow.
pub open spec fn inline_s(id: u64, p: ImagePlacementV) -> Seq<char> {
    "<wp:inline xmlns:wp=\"http://schemas.openxmlformats.org/drawingml/2006/wordprocessingDrawing\" distT=\"0\" distB=\"0\" distL=\"0\" distR=\"0\">"@
        + extent_s("<wp:extent cx=\""@, p) + object_s("<wp:docPr id=\""@, id) + graphic_s(id, p)
        + "</wp:inline>"@
}

/// An image run: `<w:r><w:drawing>`, floating or inline. The blip names `rIdImg{id}`.
pub open spec fn drawing_s(id: u64, p: ImagePlacementV) -> Seq<char> {
    "<w:r><w:drawing>"@ + (if p.floating {
        anchor_s(id, p)
    } else {
        inline_s(id, p)
    }) + "</w:drawing></w:r>"@
}

fn anchor(id: u64, p: &ImagePlacement) -> (r: String)
    ensures
        r@ == anchor_s(id, p@),
{
    let mut s =
        "<wp:anchor xmlns:wp=\"http://schemas.openxmlformats.org/drawingml/2006/wordprocessingDrawing\" distT=\"0\" distB=\"0\" distL=\"0\" distR=\"0\" simplePos=\"0\" relativeHeight=\"1\" behindDoc=\"".to_owned();
    s.append(
        if p.behind {
            "1"
        } else {
            "0"
        },
    );
    s.append(
        "\" locked=\"0\" layoutInCell=\"1\" allowOverlap=\"1\"><wp:simplePos x=\"0\" y=\"0\"/>",
    );
    let hfrom = if p.h_from.as_str().is_empty() {
        "column"
    } else {
        p.h_from.as_str()
    };
    let vfrom = if p.v_from.as_str().is_empty() {
        "paragraph"
    } else {
        p.v_from.as_str()
    };
    s.append(esc_piece("<wp:positionH relativeFrom=\"", hfrom, "\">").as_str());
    s.append(position(p.h_align.as_str(), p.x_emu).as_str());
    s.append("</wp:positionH>");
    s.append(esc_piece("<wp:positionV relativeFrom=\"", vfrom, "\">").as_str());
    s.append(position(p.v_align.as_str(), p.y_emu).as_str());
    s.append("</wp:positionV>");
    s.append(extent("<wp:extent cx=\"", p).as_str());
    s.append(text_wrap(p.wrap.as_str()).as_str());
    s.append(object("<wp:docPr id=\"", id).as_str());
    s.append(graphic(id, p).as_str());
    s.append("</wp:anchor>");
    s
}

fn inline_picture(id: u64, p: &ImagePlacement) -> (r: String)
    ensures
        r@ == inline_s(id, p@),
{
    let mut s =
        "<wp:inline xmlns:wp=\"http://schemas.openxmlformats.org/drawingml/2006/wordprocessingDrawing\" distT=\"0\" distB=\"0\" distL=\"0\" distR=\"0\">".to_owned();
    s.append(extent("<wp:extent cx=\"", p).as_str());
    s.append(object("<wp:docPr id=\"", id).as_str());
    s.append(graphic(id, p).as_str());
    s.append("</wp:inline>");
    s
}

pub(crate) fn drawing_xml(id: u64, p: &ImagePlacement) -> (r: String)
    ensures
        r@ == drawing_s(id, p@),
{
    let mut s = "<w:r><w:drawing>".to_owned();
    if p.floating {
        s.append(anchor(id, p).as_str());
    } else {
        s.append(inline_picture(id, p).as_str());
    }
    s.append("</w:drawing></w:r>");
    s
}

} // verus!
