//! The parts of a package: comments, numbering, sections, relationships and styles, and what the
//! document keeps beside its text.

use scriptor_crdt::comments::{
    apply_comments_extended, comment_para_id, export_comments_extended_xml, export_comments_xml,
    initials_of, parse_comments,
};
use scriptor_crdt::containers::{
    block_node_meta, block_wrap_ids, block_wrap_suffix, comment_ids, delete_bookmark, delete_comment_entry,
    delete_field, delete_hyperlink, read_added_styles, read_all_media, read_block_wraps,
    read_bookmarks, read_comments, read_fields, read_hyperlinks, read_media, read_num_synth,
    read_raw, read_style_overrides, set_block_wrap_anchors, write_added_style, write_block_wrap,
    write_bookmark, write_comment, write_field, write_hyperlink, write_media, write_num_synth,
    write_raw, write_style_override,
};
use scriptor_crdt::doc::TextDoc;
use scriptor_crdt::drawings::{parse_images, vml_coordsize, vml_style_get};
use scriptor_crdt::error::ModelError;
use scriptor_crdt::events::{attr, read_xml, XmlEvent};
use scriptor_crdt::export::{
    apply_section_props, export_document_xml, export_document_xml_via_nodes, node_body,
};
use scriptor_crdt::grid::{grid_to_table, populate_grid_from_table, TableGrid};
use scriptor_crdt::headers::{export_hdr_ftr_xml, merge_sectpr_xml, sectpr_xml};
use scriptor_crdt::import::{empty_paragraph, parse_document_xml};
use scriptor_crdt::intake::import_document_xml;
use scriptor_crdt::numbering::{parse_numbering, ListFormat};
use scriptor_crdt::package::{
    ensure_comment_parts_registered, ext_for_mime, image_content_type, max_rid,
    patch_content_type_default, patch_content_types, patch_doc_rels, patch_doc_rels_with_id,
    patch_external_rel, patch_internal_rel, set_part, Part,
};
use scriptor_crdt::passthrough::{parse_block_wraps, parse_passthrough};
use scriptor_crdt::ranges::{
    apply_bookmark_anchors, apply_comment_anchors, apply_field_anchors, apply_hyperlink_anchors,
};
use scriptor_crdt::read::{body_nodes, read_paragraphs};
use scriptor_crdt::rels::resolve_rels;
use scriptor_crdt::runs::{
    bookmark_mark_key, comment_mark_key, end_point_bookmark_mark_key, field_mark_key,
    image_mark_key, link_mark_key, point_bookmark_mark_key, raw_mark_key,
};
use scriptor_crdt::sections::{header_footer_refs, title_page, HfRef, PageGeometry};
use scriptor_crdt::store::Scalar;
use scriptor_crdt::spans::{bookmark_spans, comment_spans, field_spans};
use scriptor_crdt::style_parse::{
    parse_background, parse_styles, settings_display_background, shd_effective_hex,
};
use scriptor_crdt::styles::{heading_level, AddedStyle, StyleProps, StyleTable};
use scriptor_crdt::textboxes::parse_textboxes;
use scriptor_crdt::types::{
    apply_cell_snapshot, apply_row_snapshot, apply_table_snapshot, cell_prop_snapshot,
    row_prop_snapshot, table_prop_snapshot, Align, BodyItem, CellMargins, Comment, LineRule,
    ParaProps, Paragraph, Run, Table, TableCell, TablePropChange, TablePropLevel,
    TablePropSnapshot, TableRow, VMerge,
};
use scriptor_crdt::writing::append_paragraph;
use std::collections::HashMap;

fn comment(id: u64, text: &str) -> Comment {
    Comment {
        id,
        author: "Ann <Lee>".into(),
        initials: "AL".into(),
        date: "2024-01-02T03:04:05Z".into(),
        parent: None,
        resolved: false,
        text: text.into(),
    }
}

fn text_of(parts: &[Part], name: &str) -> String {
    let p = parts.iter().find(|p| p.name == name).expect("the part");
    String::from_utf8(p.data.clone()).expect("text")
}

// ---------------------------------------------------------------- xml

#[test]
fn events_carry_names_attributes_and_references() {
    let v = read_xml(b"<a k=\"1 &amp; 2\"><b/>x&lt;&#65;</a>");
    let tag = match &v[0].event {
        XmlEvent::Start(t) => t,
        _ => panic!("an opening tag"),
    };
    assert_eq!(tag.name, "a");
    assert_eq!(attr(tag, "k").as_deref(), Some("1 & 2"));
    assert_eq!(attr(tag, "z"), None);
    assert!(matches!(&v[1].event, XmlEvent::Empty(t) if t.name == "b"));
    assert!(matches!(&v[2].event, XmlEvent::Text(Some(s)) if s == "x"));
    assert!(matches!(&v[3].event, XmlEvent::Ref(Some(s)) if s == "<"));
    assert!(matches!(&v[4].event, XmlEvent::Ref(Some(s)) if s == "A"));
    assert!(matches!(&v[5].event, XmlEvent::End(s) if s == "a"));
    assert_eq!((v[1].start, v[1].end), (17, 21));
}

#[test]
fn a_broken_document_is_an_xml_error() {
    let mut doc = TextDoc::new();
    let r = import_document_xml(&mut doc, b"<w:document><w:body><w:p></w:q>");
    assert!(matches!(r, Err(ModelError::Xml)));
    assert!(matches!(parse_document_xml(b"<w:document><w:p></w:q>"), Err(ModelError::Xml)));
    assert_eq!(read_paragraphs(&doc).unwrap().len(), 0);
}

#[test]
fn escaped_text_survives_the_round_trip() {
    let mut doc = TextDoc::new();
    let text = "a<b>&\"c'\u{e4}";
    append_paragraph(&mut doc, &vec![Run::plain(text)], &None).unwrap();
    doc.commit();
    let page = PageGeometry::default();
    let xml = export_document_xml(&doc, &page, &vec![], &vec![], false).unwrap();
    assert!(xml.contains("a&lt;b&gt;&amp;&quot;c&apos;\u{e4}"));
    let mut back = TextDoc::new();
    let (stats, _) = import_document_xml(&mut back, xml.as_bytes()).unwrap();
    assert_eq!((stats.paragraphs, stats.table_paragraphs), (1, 0));
    let spelled: String =
        read_paragraphs(&back).unwrap()[0].runs.iter().map(|r| r.text.as_str()).collect();
    assert_eq!(spelled, text);
}

// ---------------------------------------------------------------- comments

#[test]
fn comments_read_back_from_the_parts_they_are_written_to() {
    let mut reply = comment(2, "line one\nline two");
    reply.parent = Some(1);
    reply.resolved = true;
    let given = vec![comment(1, "a & b"), reply];
    let body = export_comments_xml(&given);
    let threads = export_comments_extended_xml(&given);
    assert!(body.contains("w:author=\"Ann &lt;Lee&gt;\""));
    let entry = "<w15:commentEx w15:paraId=\"10000020\" w15:paraIdParent=\"10000010\" w15:done=\"1\"/>";
    assert!(threads.contains(entry));
    let mut parsed = parse_comments(body.as_bytes());
    apply_comments_extended(threads.as_bytes(), &mut parsed);
    let back: Vec<Comment> = parsed.into_iter().map(|p| p.comment).collect();
    assert_eq!(back, given);
}

#[test]
fn comments_of_several_lines_read_back() {
    let given = vec![comment(4, ""), comment(7, "one <two> & \"three\"\n\n  four's  \n")];
    let parsed = parse_comments(export_comments_xml(&given).as_bytes());
    assert_eq!(parsed.len(), 2);
    assert_eq!(parsed[0].comment, given[0]);
    assert_eq!(parsed[0].para_ids, vec!["10000040".to_string()]);
    assert_eq!(parsed[1].comment, given[1]);
    let ids: Vec<String> = (0..4).map(|line| comment_para_id(7, line)).collect();
    assert_eq!(parsed[1].para_ids, ids);
}

#[test]
fn paragraph_ids_of_comments_are_hexadecimal() {
    assert_eq!(comment_para_id(0, 0), "10000000");
    assert_eq!(comment_para_id(1, 15), "1000001F");
    assert_eq!(comment_para_id(0x0EFF_FFFF, 0), "FFFFFFF0");
}

#[test]
fn initials_are_the_first_letters_of_two_words() {
    assert_eq!(initials_of("ann  van lee"), "AV");
    assert_eq!(initials_of("ann"), "A");
    assert_eq!(initials_of("  "), "");
    let xml = b"<w:comments><w:comment w:id=\"3\" w:author=\"ann lee\"><w:p><w:r><w:t>x</w:t></w:r></w:p></w:comment></w:comments>";
    assert_eq!(parse_comments(xml)[0].comment.initials, "AL");
}

#[test]
fn comments_are_kept_by_id() {
    let mut doc = TextDoc::new();
    write_comment(&mut doc, &comment(12, "twelve \"quoted\"")).unwrap();
    let mut three = comment(3, "three");
    three.parent = Some(12);
    write_comment(&mut doc, &three).unwrap();
    doc.commit();
    assert_eq!(comment_ids(&doc), vec![3, 12]);
    assert_eq!(read_comments(&doc), vec![three, comment(12, "twelve \"quoted\"")]);
    write_comment(&mut doc, &comment(3, "changed")).unwrap();
    delete_comment_entry(&mut doc, 12).unwrap();
    assert_eq!(read_comments(&doc), vec![comment(3, "changed")]);
}

// ---------------------------------------------------------------- numbering

const NUMBERING: &[u8] = b"<w:numbering><w:abstractNum w:abstractNumId=\"4\">\
<w:lvl w:ilvl=\"0\"><w:start w:val=\"3\"/><w:numFmt w:val=\"upperRoman\"/><w:lvlText w:val=\"%1)\"/>\
<w:pPr><w:ind w:left=\"100\" w:hanging=\"50\"/></w:pPr></w:lvl></w:abstractNum>\
<w:num w:numId=\"9\"><w:abstractNumId w:val=\"4\"/></w:num></w:numbering>";

#[test]
fn numbering_levels_are_read() {
    let n = parse_numbering(NUMBERING);
    assert!(!n.is_empty());
    assert_eq!(n.abstract_id(9), Some(4));
    let l = n.level(9, 0).expect("a level");
    assert_eq!((l.fmt.as_str(), l.text.as_str()), ("upperRoman", "%1)"));
    assert_eq!((l.start, l.ind_left, l.ind_hanging), (3, 100, 50));
    assert!(n.level(9, 1).is_none());
    assert!(n.level(1, 0).is_none());
    assert!(parse_numbering(b"<w:numbering/>").is_empty());
}

#[test]
fn a_list_is_reused_before_one_is_made() {
    let mut n = parse_numbering(NUMBERING);
    assert_eq!(n.reusable_num_id(ListFormat::UpperRoman), Some(9));
    assert_eq!(n.ensure_list(ListFormat::UpperRoman), 9);
    assert!(!n.has_synth());
    assert_eq!(n.synth_xml(), "");
    let id = n.ensure_list(ListFormat::Bullet);
    assert_eq!(id, 10);
    assert_eq!(n.ensure_list(ListFormat::Bullet), 10, "made once");
    assert_eq!(n.abstract_id(10), Some(5));
    assert_eq!(n.level(10, 1).unwrap().text, "o");
    assert_eq!(n.level(10, 0).unwrap().ind_left, 720);
    assert_eq!(n.level(10, 8).unwrap().ind_left, 3600);
    for l in 0..8 {
        let (a, b) = (n.level(10, l).unwrap().ind_left, n.level(10, l + 1).unwrap().ind_left);
        assert_eq!(b - a, 360, "each level a quarter inch further in");
    }
    assert!(n.level(10, 9).is_none());
    let xml = n.synth_xml();
    assert!(xml.starts_with("<w:abstractNum w:abstractNumId=\"5\"><w:lvl w:ilvl=\"0\">"));
    assert!(xml.ends_with("<w:num w:numId=\"10\"><w:abstractNumId w:val=\"5\"/></w:num>"));
}

#[test]
fn made_lists_are_rebuilt_from_what_the_document_keeps() {
    let mut doc = TextDoc::new();
    write_num_synth(&mut doc, 900_001, "lowerLetter").unwrap();
    write_num_synth(&mut doc, 900_000, "bullet").unwrap();
    doc.commit();
    let kept = read_num_synth(&doc);
    assert_eq!(kept.len(), 2);
    let mut n = parse_numbering(b"<w:numbering/>");
    assert_eq!(n.next_synth_num_id(), 900_000);
    n.reconcile_synth(&kept);
    let once = n.synth_xml();
    n.reconcile_synth(&kept);
    assert_eq!(n.synth_xml(), once, "rebuilding again changes nothing");
    assert_eq!(n.abstract_id(900_000), Some(0), "lower ids come first");
    assert_eq!(n.level(900_001, 2).unwrap().fmt, "lowerLetter");
    assert_eq!(n.level(900_001, 2).unwrap().text, "%3.");
    assert_eq!(n.next_synth_num_id(), 900_002);
    n.insert_synth(900_000, ListFormat::Decimal);
    assert_eq!(n.level(900_000, 0).unwrap().fmt, "bullet", "a known id is left alone");
}

#[test]
fn list_formats_read_back_from_their_names() {
    let all = [
        ListFormat::Bullet,
        ListFormat::Decimal,
        ListFormat::LowerLetter,
        ListFormat::UpperLetter,
        ListFormat::LowerRoman,
        ListFormat::UpperRoman,
    ];
    for f in all {
        assert_eq!(ListFormat::from_numfmt(f.level0_numfmt()), f);
    }
    assert_eq!(ListFormat::from_numfmt("chicago"), ListFormat::Decimal);
}

// ---------------------------------------------------------------- the package

#[test]
fn parts_are_replaced_or_added() {
    let mut parts: Vec<Part> = Vec::new();
    set_part(&mut parts, "a.xml", b"1".to_vec());
    set_part(&mut parts, "b.xml", b"2".to_vec());
    set_part(&mut parts, "a.xml", b"3".to_vec());
    assert_eq!(parts.len(), 2);
    assert_eq!(text_of(&parts, "a.xml"), "3");
}

#[test]
fn content_types_are_declared_once() {
    let mut parts: Vec<Part> = Vec::new();
    patch_content_types(&mut parts, "/w/x.xml", "t/x");
    assert!(parts.is_empty(), "nothing to patch");
    set_part(&mut parts, "[Content_Types].xml", b"<Types a=\"b\"></Types>".to_vec());
    patch_content_types(&mut parts, "/w/x.xml", "t/x");
    patch_content_type_default(&mut parts, "png", "image/png");
    let once = text_of(&parts, "[Content_Types].xml");
    assert_eq!(
        once,
        "<Types a=\"b\"><Default Extension=\"png\" ContentType=\"image/png\"/>\
<Override PartName=\"/w/x.xml\" ContentType=\"t/x\"/></Types>"
    );
    patch_content_types(&mut parts, "/w/x.xml", "t/other");
    patch_content_type_default(&mut parts, "png", "t/other");
    assert_eq!(text_of(&parts, "[Content_Types].xml"), once);
}

#[test]
fn relationships_are_added_once() {
    let rels = "word/_rels/document.xml.rels";
    let mut parts: Vec<Part> = Vec::new();
    patch_doc_rels(&mut parts, "comments.xml", "T");
    let first = text_of(&parts, rels);
    assert!(first.contains("<Relationship Id=\"rId1\" Type=\"T\" Target=\"comments.xml\"/>"));
    patch_doc_rels(&mut parts, "comments.xml", "T");
    assert_eq!(text_of(&parts, rels), first);
    patch_doc_rels_with_id(&mut parts, "rId7", "header1.xml", "H");
    patch_doc_rels(&mut parts, "footer1.xml", "F");
    let s = text_of(&parts, rels);
    assert!(s.contains("Id=\"rId8\" Type=\"F\""), "one past the largest");
    patch_external_rel(&mut parts, "rIdLnk1", "https://x/?a=1&b=\"<>", "L");
    patch_internal_rel(&mut parts, "rIdImg0", "media/image1.png", "I");
    patch_internal_rel(&mut parts, "rIdImg0", "media/other.png", "I");
    let s = text_of(&parts, rels);
    assert!(s.contains("Target=\"https://x/?a=1&amp;b=&quot;&lt;&gt;\" TargetMode=\"External\"/>"));
    assert!(!s.contains("other.png"));
    let map = resolve_rels(s.as_bytes());
    assert_eq!(map.get("rId7").map(|t| t.as_str()), Some("header1.xml"));
    assert_eq!(map.get("rIdLnk1").map(|t| t.as_str()), Some("https://x/?a=1&b=\"<>"));
    assert_eq!(map.get("rIdImg0").map(|t| t.as_str()), Some("media/image1.png"));
    assert_eq!(map.len(), 5);
    assert_eq!(max_rid("rId2 rId31x rId rId07"), 31);
    assert_eq!(max_rid("none"), 0);
}

#[test]
fn comment_parts_are_registered_once() {
    let mut parts: Vec<Part> = Vec::new();
    set_part(&mut parts, "[Content_Types].xml", b"<Types></Types>".to_vec());
    ensure_comment_parts_registered(&mut parts);
    let types = text_of(&parts, "[Content_Types].xml");
    let rels = text_of(&parts, "word/_rels/document.xml.rels");
    assert!(types.contains("PartName=\"/word/commentsExtended.xml\""));
    assert!(rels.contains("Target=\"comments.xml\"") && rels.contains("Id=\"rId2\""));
    ensure_comment_parts_registered(&mut parts);
    assert_eq!(text_of(&parts, "[Content_Types].xml"), types);
    assert_eq!(text_of(&parts, "word/_rels/document.xml.rels"), rels);
}

#[test]
fn media_types_go_by_extension() {
    assert_eq!(image_content_type("PNG"), Some("image/png"));
    assert_eq!(image_content_type("jpeg"), Some("image/jpeg"));
    assert_eq!(image_content_type("TIFF"), Some("image/tiff"));
    assert_eq!(image_content_type("exe"), None);
    assert_eq!(ext_for_mime("IMAGE/JPG"), "jpg");
    assert_eq!(ext_for_mime("image/svg+xml"), "svg");
    assert_eq!(ext_for_mime("text/plain"), "png");
}

// ---------------------------------------------------------------- sections

#[test]
fn sections_are_synthesized_and_merged() {
    let page = PageGeometry { width: 200, height: 100, ..PageGeometry::default() };
    let hf = vec![HfRef { is_header: true, kind: "default".into(), r_id: "rId3".into() }];
    let refs = "<w:headerReference w:type=\"default\" r:id=\"rId3\"/>";
    let size = "<w:pgSz w:w=\"200\" w:h=\"100\" w:orient=\"landscape\"/>";
    let margins = "<w:pgMar w:top=\"1440\" w:right=\"1440\" w:bottom=\"1440\" w:left=\"1440\" \
w:header=\"720\" w:footer=\"720\" w:gutter=\"0\"/>";
    let made = format!("<w:sectPr>{refs}{size}{margins}<w:titlePg/></w:sectPr>");
    assert_eq!(sectpr_xml(&page, &hf, true), made);
    assert_eq!(merge_sectpr_xml("not xml", &page, &hf, true), made);
    let raw = "<w:sectPr w:rsid=\"1\"><w:footerReference w:type=\"even\" r:id=\"rId9\"/>\
<w:headerReference w:type=\"first\" r:id=\"rId8\"/><w:type w:val=\"oddPage\"/>\
<w:pgSz w:w=\"1\" w:h=\"2\"/><w:cols w:num=\"2\"><w:col w:w=\"5\"/></w:cols>\
<w:titlePg/><w:docGrid/></w:sectPr>";
    let merged = merge_sectpr_xml(raw, &page, &hf, false);
    let expected = format!(
        "<w:sectPr>{refs}<w:footerReference w:type=\"even\" r:id=\"rId9\"/>\
<w:type w:val=\"oddPage\"/>{size}{margins}<w:cols w:num=\"2\"><w:col w:w=\"5\"/></w:cols>\
<w:docGrid/></w:sectPr>"
    );
    assert_eq!(merged, expected);
    assert_eq!(merge_sectpr_xml(&merged, &page, &hf, false), expected, "merging again");
}

#[test]
fn references_and_title_pages_are_found() {
    let xml = b"<w:sectPr><w:headerReference r:id=\"rId1\"/><w:footerReference w:type=\"even\" r:id=\"rId2\"/><w:headerReference w:type=\"first\"/><w:titlePg/></w:sectPr>";
    let v = header_footer_refs(xml);
    assert_eq!(v.len(), 2);
    assert_eq!((v[0].is_header, v[0].kind.as_str(), v[0].r_id.as_str()), (true, "default", "rId1"));
    assert_eq!((v[1].is_header, v[1].kind.as_str(), v[1].r_id.as_str()), (false, "even", "rId2"));
    assert!(title_page(xml));
    assert!(!title_page(b"<w:sectPr/>"));
}

#[test]
fn section_properties_go_to_their_paragraphs() {
    let xml = b"<w:document><w:body><w:p><w:pPr><w:sectPr><w:cols w:num=\"2\"/></w:sectPr></w:pPr><w:r><w:t>one</w:t></w:r></w:p><w:p><w:r><w:t>two</w:t></w:r></w:p><w:sectPr><w:cols w:num=\"3\"/></w:sectPr></w:body></w:document>";
    let mut doc = TextDoc::new();
    import_document_xml(&mut doc, xml).unwrap();
    apply_section_props(&mut doc, xml).unwrap();
    doc.commit();
    let paras = read_paragraphs(&doc).unwrap();
    let own = "<w:sectPr><w:cols w:num=\"2\"/></w:sectPr>";
    assert_eq!(paras[0].props.sect_pr.as_deref(), Some(own));
    assert_eq!(paras[1].props.sect_pr, None);
    let page = PageGeometry::default();
    let out = export_document_xml(&doc, &page, &vec![], &vec![], false).unwrap();
    assert!(out.contains("<w:sectPr><w:cols w:num=\"3\"/></w:sectPr></w:body>"));
    assert_eq!(export_document_xml_via_nodes(&doc, &page, &vec![], false).unwrap(), out);
}

#[test]
fn an_empty_header_has_a_paragraph() {
    let xml = export_hdr_ftr_xml(&vec![], false, &HashMap::new());
    assert!(xml.contains("<w:ftr ") && xml.ends_with("><w:p/></w:ftr>"));
}

// ---------------------------------------------------------------- side maps

#[test]
fn side_maps_read_back_by_id() {
    let mut doc = TextDoc::new();
    write_field(&mut doc, 1, "TOC \\o").unwrap();
    write_field(&mut doc, 2, "PAGE").unwrap();
    write_bookmark(&mut doc, 3, "_Ref1").unwrap();
    write_hyperlink(&mut doc, 4, "#top").unwrap();
    write_raw(&mut doc, 5, "<w:r/>").unwrap();
    write_block_wrap(&mut doc, 6, "<w:sdt>").unwrap();
    write_media(&mut doc, "word/media/image1.png", &vec![1, 2, 255]).unwrap();
    doc.commit();
    assert_eq!(read_fields(&doc).get(&1).map(|s| s.as_str()), Some("TOC \\o"));
    assert_eq!(read_fields(&doc).len(), 2);
    assert_eq!(read_bookmarks(&doc).get(&3).map(|s| s.as_str()), Some("_Ref1"));
    assert_eq!(read_hyperlinks(&doc).get(&4).map(|s| s.as_str()), Some("#top"));
    assert_eq!(read_raw(&doc).get(&5).map(|s| s.as_str()), Some("<w:r/>"));
    assert_eq!(read_block_wraps(&doc).get(&6).map(|s| s.as_str()), Some("<w:sdt>"));
    assert_eq!(read_media(&doc, "word/media/image1.png"), Some(vec![1, 2, 255]));
    assert_eq!(read_media(&doc, "other"), None);
    assert_eq!(read_all_media(&doc).len(), 1);
    delete_field(&mut doc, 1).unwrap();
    delete_bookmark(&mut doc, 3).unwrap();
    delete_hyperlink(&mut doc, 4).unwrap();
    assert_eq!(read_fields(&doc).len(), 1);
    assert!(read_bookmarks(&doc).is_empty() && read_hyperlinks(&doc).is_empty());
}

#[test]
fn mark_keys_carry_their_id() {
    assert_eq!(comment_mark_key(0), "cmt~0");
    assert_eq!(field_mark_key(12), "fld~12");
    assert_eq!(bookmark_mark_key(3), "bkm~3");
    assert_eq!(point_bookmark_mark_key(3), "bkp~3");
    assert_eq!(end_point_bookmark_mark_key(3), "bkpe~3");
    assert_eq!(link_mark_key(4), "lnk~4");
    assert_eq!(image_mark_key(5), "img~5");
    assert_eq!(raw_mark_key(u64::MAX), "raw~18446744073709551615");
}

#[test]
fn wrappers_enclose_their_blocks() {
    let mut doc = TextDoc::new();
    append_paragraph(&mut doc, &vec![Run::plain("in")], &None).unwrap();
    append_paragraph(&mut doc, &vec![Run::plain("out")], &None).unwrap();
    write_block_wrap(&mut doc, 1, "<w:sdt><w:sdtContent>").unwrap();
    write_block_wrap(&mut doc, 2, " <w:customXml w:uri=\"u\">").unwrap();
    let nodes = body_nodes(&doc);
    set_block_wrap_anchors(&mut doc, &nodes[0], &vec![1, 2], &vec![2, 1]).unwrap();
    set_block_wrap_anchors(&mut doc, &nodes[1], &vec![], &vec![]).unwrap();
    doc.commit();
    assert_eq!(block_wrap_ids(&doc, &nodes[0], "wrapopen"), vec![1, 2]);
    assert_eq!(block_wrap_ids(&doc, &nodes[0], "wrapclose"), vec![2, 1]);
    assert_eq!(block_wrap_ids(&doc, &nodes[1], "wrapopen"), Vec::<u64>::new());
    assert_eq!(block_wrap_suffix("\n<w:customXml>"), "</w:customXml>");
    let meta = block_node_meta(&doc, &nodes[0]);
    let of = |k: &str| meta.iter().find(|e| e.0 == k).map(|e| &e.1);
    assert_eq!(of("wrapopen"), Some(&Scalar::Text("1,2".into())));
    assert_eq!(of("type"), Some(&Scalar::Text("p".into())));
    assert_eq!(of("text"), Some(&Scalar::Other));
    assert_eq!(of("style"), None);
    let xml = export_document_xml_via_nodes(&doc, &PageGeometry::default(), &vec![], false).unwrap();
    assert!(xml.contains("<w:body><w:sdt><w:sdtContent> <w:customXml w:uri=\"u\"><w:p>"));
    assert!(xml.contains("</w:p></w:customXml></w:sdtContent></w:sdt><w:p>"));
    let back = parse_block_wraps(xml.as_bytes());
    assert_eq!(back.len(), 2);
    assert_eq!((back[0].start_block, back[0].end_block), (0, 0));
}

#[test]
fn styles_are_added_and_read_back() {
    let mut doc = TextDoc::new();
    write_added_style(&mut doc, "Note", "My note", &Some("Normal".into())).unwrap();
    let p = StyleProps {
        line_spacing: Some(300),
        line_rule: Some(LineRule::AtLeast),
        space_before: Some(60),
        num_id: Some(-1),
        keep_next: Some(false),
        align: Some(Align::Right),
        page_break_before: Some(true),
        ..StyleProps::default()
    };
    write_style_override(&mut doc, "Note", &p).unwrap();
    doc.commit();
    let added = read_added_styles(&doc);
    let expected = AddedStyle { name: "My note".into(), based_on: Some("Normal".into()) };
    assert_eq!(added.get("Note"), Some(&expected));
    assert_eq!(read_style_overrides(&doc).get("Note"), Some(&p));
    let mut t = StyleTable::word_default();
    t.apply_added_styles(&added);
    t.apply_overrides(&read_style_overrides(&doc));
    assert_eq!(t.resolve(Some("Note")).space_before, Some(60));
    assert_eq!(t.names.get("Note").map(|s| s.as_str()), Some("My note"));
}

// ---------------------------------------------------------------- styles

#[test]
fn a_chain_of_styles_that_loops_ends() {
    let xml = b"<w:styles><w:style w:type=\"paragraph\" w:styleId=\"A\"><w:basedOn w:val=\"B\"/><w:rPr><w:b/></w:rPr></w:style><w:style w:type=\"paragraph\" w:styleId=\"B\"><w:basedOn w:val=\"A\"/><w:rPr><w:b w:val=\"0\"/><w:i/></w:rPr></w:style></w:styles>";
    let t = parse_styles(xml);
    let a = t.resolve(Some("A"));
    assert_eq!((a.bold, a.italic), (Some(true), Some(true)), "the derived style wins");
    let b = t.resolve(Some("B"));
    assert_eq!((b.bold, b.italic), (Some(false), Some(true)));
    assert_eq!(t.resolve(Some("missing")).bold, None);
}

#[test]
fn word_defaults_fill_in_once() {
    let mut t = parse_styles(b"<w:styles><w:style w:type=\"paragraph\" w:styleId=\"Heading1\"><w:name w:val=\"mine\"/><w:rPr><w:sz w:val=\"99\"/></w:rPr></w:style></w:styles>");
    t.merge_defaults();
    assert_eq!(t.resolve(Some("Heading1")).size, Some(99), "own definitions win");
    let n = t.by_id.len();
    assert!(n > 1);
    t.merge_defaults();
    assert_eq!(t.by_id.len(), n);
    assert_eq!(heading_level("Heading3"), Some(3));
    assert_eq!(heading_level("HEADING2"), Some(2));
    assert_eq!(heading_level("heading9"), Some(9));
    assert_eq!(heading_level("hEaDiNg0"), None);
    assert_eq!(heading_level("Normal"), None);
}

#[test]
fn overlays_set_what_is_set() {
    let mut a = StyleProps { size: Some(20), bold: Some(true), ..StyleProps::default() };
    a.overlay(&StyleProps::default());
    assert_eq!(a, StyleProps { size: Some(20), bold: Some(true), ..StyleProps::default() });
    a.overlay(&StyleProps { bold: Some(false), color: Some("112233".into()), ..StyleProps::default() });
    assert_eq!((a.size, a.bold, a.color.as_deref()), (Some(20), Some(false), Some("112233")));
}

#[test]
fn shading_mixes_the_pattern_with_the_fill() {
    let hex = |v: &str, c: &str, f: &str| {
        shd_effective_hex(&Some(v.into()), &Some(c.into()), &Some(f.into()))
    };
    assert_eq!(hex("clear", "auto", "abcdef").as_deref(), Some("ABCDEF"));
    assert_eq!(hex("solid", "00FF00", "FFFFFF").as_deref(), Some("00FF00"));
    assert_eq!(hex("pct50", "000000", "FFFFFF").as_deref(), Some("808080"));
    assert_eq!(shd_effective_hex(&None, &None, &None), None);
}

#[test]
fn backgrounds_are_read_from_their_parts() {
    let doc = b"<w:document><w:background w:color=\"FFEEDD\"/><w:body/></w:document>";
    assert_eq!(parse_background(doc).as_deref(), Some("FFEEDD"));
    assert_eq!(parse_background(b"<w:document/>"), None);
    assert!(settings_display_background(b"<w:settings><w:displayBackgroundShape/></w:settings>"));
    assert!(!settings_display_background(b"<w:settings/>"));
}

// ---------------------------------------------------------------- tables

fn sample_table() -> Table {
    let cell = |n: usize, v: VMerge| TableCell {
        para_count: n,
        grid_span: 1,
        vmerge: v,
        width: Some(100),
        shading: Some("EEEEEE".into()),
        margins: Some(CellMargins { top: Some(1), left: None, bottom: None, right: Some(4) }),
        ..TableCell::default()
    };
    let row = |cells: Vec<TableCell>| TableRow {
        cells,
        height: Some(300),
        height_exact: true,
        ..TableRow::default()
    };
    Table {
        col_widths: vec![100, 200],
        rows: vec![
            row(vec![cell(1, VMerge::Restart), cell(2, VMerge::Single)]),
            row(vec![cell(1, VMerge::Continue), cell(0, VMerge::Single)]),
        ],
        style: Some("Grid".into()),
        ..Table::default()
    }
}

fn numbered(n: usize) -> Vec<Paragraph> {
    let para = |i: usize| Paragraph {
        style: None,
        props: ParaProps::default(),
        runs: vec![Run::plain(&format!("p{i}"))],
        prop_change: None,
        mark_change: None,
    };
    (0..n).map(para).collect()
}

#[test]
fn a_table_reads_back_from_its_grid() {
    let t = sample_table();
    let mut g = TableGrid::default();
    populate_grid_from_table(&mut g, &t, &numbered(4));
    assert_eq!(g.rows[0].cells[1].paras.len(), 2);
    assert_eq!(g.rows[1].cells[0].paras[0].runs[0].text, "p3");
    let back = grid_to_table(&g);
    assert_eq!(back.col_widths, t.col_widths);
    assert_eq!(back.style, t.style);
    let shape = |t: &Table| -> Vec<Vec<(usize, usize, VMerge, Option<u32>)>> {
        let of = |c: &TableCell| (c.para_count, c.grid_span, c.vmerge, c.width);
        t.rows.iter().map(|r| r.cells.iter().map(of).collect()).collect()
    };
    assert_eq!(shape(&back), shape(&t));
    assert_eq!(back.rows[0].height, Some(300));
}

#[test]
fn property_snapshots_restore() {
    let mut t = sample_table();
    let change = |old: TablePropSnapshot| TablePropChange {
        author: "Ann".into(),
        date: "2024".into(),
        id: 1,
        old,
    };
    let whole = change(table_prop_snapshot(&t));
    let row = change(row_prop_snapshot(&t.rows[0]));
    let cell = change(cell_prop_snapshot(&t.rows[0].cells[0]));
    assert_eq!(whole.level(), TablePropLevel::Table);
    assert_eq!(row.level(), TablePropLevel::Row);
    assert_eq!(cell.level(), TablePropLevel::Cell);
    t.style = None;
    t.rows[0].height = None;
    t.rows[0].height_exact = false;
    t.rows[0].cells[0].width = Some(7);
    t.rows[0].cells[0].shading = None;
    t.rows[0].cells[0].vmerge = VMerge::Single;
    apply_table_snapshot(&mut t, &row.old);
    assert_eq!(t.style, None, "a snapshot of another level does nothing");
    apply_table_snapshot(&mut t, &whole.old);
    apply_row_snapshot(&mut t.rows[0], &row.old);
    apply_cell_snapshot(&mut t.rows[0].cells[0], &cell.old);
    assert_eq!(t.style.as_deref(), Some("Grid"));
    assert_eq!((t.rows[0].height, t.rows[0].height_exact), (Some(300), true));
    let c = &t.rows[0].cells[0];
    assert_eq!((c.width, c.shading.as_deref()), (Some(100), Some("EEEEEE")));
    assert_eq!(c.vmerge, VMerge::Restart);
}

#[test]
fn imported_tables_stand_between_paragraphs() {
    let xml = b"<w:document><w:body><w:p><w:r><w:t>a</w:t></w:r></w:p><w:tbl><w:tblGrid><w:gridCol w:w=\"10\"/><w:gridCol w:w=\"20\"/></w:tblGrid><w:tr><w:tc><w:tcPr><w:gridSpan w:val=\"2\"/></w:tcPr><w:p><w:r><w:t>b</w:t></w:r></w:p></w:tc></w:tr></w:tbl><w:p/></w:body></w:document>";
    let mut doc = TextDoc::new();
    let (stats, _) = import_document_xml(&mut doc, xml).unwrap();
    doc.commit();
    assert_eq!((stats.paragraphs, stats.table_paragraphs), (2, 1));
    let body = node_body(&doc);
    assert_eq!(body.len(), 3);
    match &body[1] {
        BodyItem::Table(t) => {
            assert_eq!(t.col_widths, vec![10, 20]);
            assert_eq!((t.rows[0].cells[0].grid_span, t.rows[0].cells[0].para_count), (2, 1));
        }
        BodyItem::Paragraph => panic!("a table"),
    }
    let page = PageGeometry::default();
    let nodes = export_document_xml_via_nodes(&doc, &page, &vec![], false).unwrap();
    let flat = export_document_xml(&doc, &page, &vec![], &body, false).unwrap();
    assert_eq!(nodes, flat);
}

// ---------------------------------------------------------------- anchors of an import

#[test]
fn imported_ranges_are_marked_on_the_text() {
    let xml = b"<w:document><w:body><w:p><w:commentRangeStart w:id=\"1\"/><w:r><w:t>ab</w:t></w:r><w:commentRangeEnd w:id=\"1\"/><w:bookmarkStart w:id=\"2\" w:name=\"here\"/><w:r><w:t>cd</w:t></w:r><w:bookmarkEnd w:id=\"2\"/><w:hyperlink w:anchor=\"here\"><w:r><w:t>ef</w:t></w:r></w:hyperlink></w:p></w:body></w:document>";
    let mut doc = TextDoc::new();
    let keys = ["cmt~1", "bkm~2", "lnk~0", "lnk~1", "lnk~2", "lnk~3", "fld~0", "fld~1"];
    doc.configure_text_styles(&keys.iter().map(|k| (k.to_string(), false)).collect());
    let (_, a) = import_document_xml(&mut doc, xml).unwrap();
    assert_eq!(a.comments.len(), 1);
    assert_eq!((a.comments[0].start_off, a.comments[0].end_off), (0, 2));
    assert_eq!((a.bookmarks[0].name.as_str(), a.bookmarks[0].start_off), ("here", 2));
    assert_eq!(a.hyperlinks[0].target, "#here");
    apply_comment_anchors(&mut doc, &a.comments).unwrap();
    apply_bookmark_anchors(&mut doc, &a.bookmarks).unwrap();
    apply_field_anchors(&mut doc, &a.fields).unwrap();
    apply_hyperlink_anchors(&mut doc, &a.hyperlinks).unwrap();
    doc.commit();
    let paras = read_paragraphs(&doc).unwrap();
    let v = &paras[0].runs;
    assert_eq!(v[0].comments, vec![1]);
    assert_eq!(v[1].bookmarks, vec![2]);
    assert!(v[2].link.is_some());
    assert_eq!(read_bookmarks(&doc).get(&2).map(|s| s.as_str()), Some("here"));
    let (opens, closes) = comment_spans(&paras);
    assert_eq!((opens[0][0].as_slice(), closes[0][0].as_slice()), (&[1][..], &[1][..]));
    let (opens, closes) = bookmark_spans(&paras);
    assert_eq!((opens[0][1].as_slice(), closes[0][1].as_slice()), (&[2][..], &[2][..]));
    let (opens, _) = field_spans(&paras);
    assert!(opens[0].iter().all(|f| f.is_none()));
    let page = PageGeometry::default();
    let out = export_document_xml(&doc, &page, &vec![], &vec![], false).unwrap();
    assert!(out.contains("<w:commentRangeStart w:id=\"1\"/>"));
    assert!(out.contains("w:name=\"here\""));
    assert!(out.contains("<w:hyperlink w:anchor=\"here\""));
}

#[test]
fn vml_styles_are_looked_up_by_key() {
    let s = "position:absolute; Width :10pt;height:2in";
    assert_eq!(vml_style_get(s, "height").as_deref(), Some("2in"));
    assert_eq!(vml_style_get(s, "left"), None);
    assert_eq!(vml_coordsize(&Some("21600,10".into())), (21600, 10));
    assert_eq!(vml_coordsize(&None), (1000, 1000));
}

#[test]
fn text_boxes_carry_their_text_and_place() {
    let xml = b"<w:document><w:body><w:p/><w:p></w:p><w:p><w:r><mc:AlternateContent><mc:Choice><w:drawing><wp:anchor><wp:positionH relativeFrom=\"page\"><wp:posOffset> 12 </wp:posOffset></wp:positionH><wp:positionV relativeFrom=\"margin\"><wp:posOffset>-3</wp:posOffset></wp:positionV><wp:extent cx=\"40\" cy=\"50\"/><wps:txbx><w:txbxContent><w:p><w:r><w:rPr><w:rFonts w:ascii=\"Arial\"/><w:color w:val=\"auto\"/><w:sz w:val=\"18\"/></w:rPr><w:t>A &amp; B</w:t></w:r></w:p></w:txbxContent></wps:txbx><wps:bodyPr vert=\"vert270\"/></wp:anchor></w:drawing></mc:Choice><mc:Fallback><w:pict/></mc:Fallback></mc:AlternateContent></w:r></w:p></w:body></w:document>";
    let v = parse_textboxes(xml);
    assert_eq!(v.len(), 1);
    let b = &v[0];
    assert_eq!((b.text.as_str(), b.font.as_deref(), b.color.as_deref()), ("A & B", Some("Arial"), None));
    assert_eq!((b.size_half_points, b.vert, b.para_index), (18, 2, 2));
    assert_eq!((b.x_emu, b.y_emu, b.w_emu, b.h_emu), (12, -3, 40, 50));
    assert_eq!((b.h_from.as_str(), b.v_from.as_str()), ("page", "margin"));
    assert!(parse_textboxes(b"<w:document><w:body><w:p/></w:body></w:document>").is_empty());
}

fn plain(text: &str) -> Run {
    Run::plain(text)
}

fn paragraph(runs: Vec<Run>) -> Paragraph {
    let mut p = empty_paragraph();
    p.runs = runs;
    p
}

#[test]
fn a_comment_over_a_gap_opens_and_closes_once() {
    let mut a = plain("a");
    a.comments = vec![5];
    let b = plain("b");
    let mut c = plain("c");
    c.comments = vec![5];
    let paras = vec![paragraph(vec![a, b, c])];
    let (opens, closes) = comment_spans(&paras);
    assert_eq!(opens, vec![vec![vec![5], vec![], vec![]]]);
    assert_eq!(closes, vec![vec![vec![], vec![], vec![5]]]);
}

#[test]
fn a_field_over_paragraphs_opens_and_closes_once() {
    let mut a = plain("a");
    a.field = Some(7);
    let b = plain("b");
    let mut c = plain("c");
    c.field = Some(7);
    let paras = vec![paragraph(vec![a, b]), paragraph(vec![]), paragraph(vec![c])];
    let (opens, closes) = field_spans(&paras);
    assert_eq!(opens, vec![vec![Some(7), None], vec![], vec![None]]);
    assert_eq!(closes, vec![vec![None, None], vec![], vec![Some(7)]]);
}

#[test]
fn references_count_as_text_before_a_captured_run() {
    let xml = b"<w:document><w:body><w:p/><w:p><w:r><w:t>A&amp;B</w:t></w:r><w:r><w:footnoteReference w:id=\"1\"/></w:r></w:p></w:body></w:document>";
    let v = parse_passthrough(xml);
    assert_eq!(v.len(), 1);
    assert_eq!((v[0].item.text_offset, v[0].item.para_index), (3, 1));
    assert_eq!(v[0].item.xml, "<w:r><w:footnoteReference w:id=\"1\"/></w:r>");
}

#[test]
fn an_empty_paragraph_counts_as_a_block_and_a_paragraph() {
    let xml = b"<w:document><w:body><w:p/><w:sdt><w:sdtPr/><w:sdtContent><w:p><w:r><w:t>x</w:t></w:r></w:p></w:sdtContent></w:sdt></w:body></w:document>";
    let v = parse_block_wraps(xml);
    assert_eq!(v.len(), 1);
    assert_eq!((v[0].id, v[0].start_block, v[0].end_block), (0, 1, 1));
    assert_eq!(v[0].prefix, "<w:sdt><w:sdtPr/><w:sdtContent>");
    let inside = b"<w:document><w:body><w:sdt><w:sdtContent><w:p/><w:p/></w:sdtContent></w:sdt></w:body></w:document>";
    let v = parse_block_wraps(inside);
    assert_eq!((v[0].start_block, v[0].end_block), (0, 1));
    assert_eq!(v[0].prefix, "<w:sdt><w:sdtContent>");
    let picture = b"<w:document><w:body><w:p/><w:p><w:r><w:drawing><wp:inline><wp:extent cx=\"1\" cy=\"2\"/><a:blip r:embed=\"rId1\"/></wp:inline></w:drawing></w:r></w:p></w:body></w:document>";
    let v = parse_images(picture);
    assert_eq!(v.len(), 1);
    assert_eq!(v[0].para_index, 1);
}
