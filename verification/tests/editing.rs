//! Edits of a live document: text, formatting, revisions, structure and anchors.

use scriptor_crdt::anchors::{
    clear_bookmark_marks, clear_comment_marks, clear_link_marks, comments_at,
    insert_image_placeholder, insert_image_placeholder_tracked, insert_raw_placeholder,
    insert_raw_placeholder_tracked, mark_bookmark_point, mark_bookmark_range, mark_comment_range,
    mark_field_range, mark_image_range, mark_link_range,
};
use scriptor_crdt::doc::TextDoc;
use scriptor_crdt::error::ModelError;
use scriptor_crdt::formatting::{
    apply_paragraph_format, apply_run_format, clear_run_format, paragraph_format, paragraph_style,
    selection_format, set_numbering, set_paragraph_style, suggest_numbering,
    suggest_paragraph_format, suggest_paragraph_style, RunFormat,
};
use scriptor_crdt::grid::{GridCell, GridCol, GridRow, TableGrid};
use scriptor_crdt::host::{create_table_node, host_table_grid, open_table_grid};
use scriptor_crdt::import::empty_paragraph;
use scriptor_crdt::places::{
    block_index_of, block_index_of_container, cell_first_flat, cursor_at, cursor_found,
    delete_block_node, resolve_cursor, table_first_flat,
};
use scriptor_crdt::read::{body_nodes, clear_para_mark, read_paragraphs, set_para_mark, BodyNode};
use scriptor_crdt::revisions::{
    adjacent_change, all_revision_ids, change_carets, delete_text, insert_text, max_revision_id,
    range_is_own_insertion, resolve_revision, suggest_deletion, suggest_format, suggest_insertion,
    suggest_move, suggest_move_multi, track_at,
};
use scriptor_crdt::structure::{
    delete_paragraph, insert_empty_paragraph, join_paragraph, split_paragraph,
};
use scriptor_crdt::store::Side;
use scriptor_crdt::styles::StyleTable;
use scriptor_crdt::types::{
    Align, LineRule, ParaProps, Paragraph, Run, Track, TrackKind, IMAGE_PLACEHOLDER,
};
use scriptor_crdt::writing::append_paragraph;

/// A document that allows the marks used below.
fn document() -> TextDoc {
    let mut doc = TextDoc::new();
    let grow = ["b", "i", "u", "strike", "sz", "color", "font", "hl", "va", "lang", "rstyle", "rshd"];
    let fixed = [
        "ins", "del", "rfmt", "mvf", "mvt", "cmt~1", "cmt~2", "fld~3", "bkm~4", "bkp~4", "bkpe~4",
        "lnk~5", "img~6", "raw~7",
    ];
    let mut keys: Vec<(String, bool)> = grow.iter().map(|k| (k.to_string(), true)).collect();
    keys.extend(fixed.iter().map(|k| (k.to_string(), false)));
    doc.configure_text_styles(&keys);
    doc
}

fn with(texts: &[&str]) -> TextDoc {
    let mut doc = document();
    for t in texts {
        append_paragraph(&mut doc, &vec![Run::plain(t)], &None).unwrap();
    }
    doc.commit();
    doc
}

fn texts(doc: &TextDoc) -> Vec<String> {
    let spelled = |p: &Paragraph| p.runs.iter().map(|r| r.text.as_str()).collect();
    read_paragraphs(doc).unwrap().iter().map(spelled).collect()
}

fn runs(doc: &TextDoc, idx: usize) -> Vec<Run> {
    read_paragraphs(doc).unwrap().swap_remove(idx).runs
}

fn track(kind: TrackKind, id: u64) -> Track {
    Track { kind, author: "Ann Lee".into(), date: "2024-01-02T03:04:05Z".into(), id }
}

// ---------------------------------------------------------------- text

#[test]
fn text_is_inserted_and_deleted_by_characters() {
    let mut doc = with(&["h\u{e9}llo"]);
    insert_text(&mut doc, 0, 2, "\u{1F600}!").unwrap();
    assert_eq!(texts(&doc), ["h\u{e9}\u{1F600}!llo"]);
    delete_text(&mut doc, 0, 1..3).unwrap();
    assert_eq!(texts(&doc), ["h!llo"]);
    assert_eq!(runs(&doc, 0), vec![Run::plain("h!llo")]);
}

#[test]
fn a_missing_paragraph_is_no_block() {
    let mut doc = with(&["one"]);
    assert_eq!(insert_text(&mut doc, 1, 0, "x"), Err(ModelError::NoBlock));
    assert_eq!(delete_text(&mut doc, 7, 0..1), Err(ModelError::NoBlock));
    assert_eq!(split_paragraph(&mut doc, 1, 0), Err(ModelError::NoBlock));
    assert_eq!(join_paragraph(&mut doc, 4), Err(ModelError::NoBlock));
    assert_eq!(
        apply_run_format(&mut doc, 1, 0..1, &RunFormat::bold(true)),
        Err(ModelError::NoBlock)
    );
    assert_eq!(mark_comment_range(&mut doc, 1, 3, 0, 1), Err(ModelError::NoBlock));
    assert_eq!(paragraph_format(&doc, 3), Ok(ParaProps::default()));
    assert_eq!(paragraph_style(&doc, 3), None);
    assert_eq!(texts(&doc), ["one"]);
}

#[test]
fn a_mark_outside_the_text_is_refused() {
    let mut doc = with(&["one"]);
    assert!(insert_text(&mut doc, 0, 9, "x").is_err());
    assert!(mark_comment_range(&mut doc, 1, 0, 1, 9).is_err());
    assert_eq!(texts(&doc), ["one"]);
}

#[test]
fn a_formatting_revision_is_no_mark_of_a_paragraph() {
    let mut doc = with(&["one"]);
    let r = set_para_mark(&mut doc, 0, &track(TrackKind::Fmt, 1));
    assert_eq!(r, Err(ModelError::BadMark));
    assert_eq!(read_paragraphs(&doc).unwrap()[0].mark_change, None);
    set_para_mark(&mut doc, 0, &track(TrackKind::Del, 1)).unwrap();
    assert_eq!(read_paragraphs(&doc).unwrap()[0].mark_change, Some(track(TrackKind::Del, 1)));
}

// ---------------------------------------------------------------- reading back

#[test]
fn written_runs_read_back() {
    let mut doc = document();
    let first = Run {
        bold: true,
        italic: true,
        underline: true,
        strike: true,
        size: Some(28),
        color: Some("FF0000".into()),
        font: Some("Arial".into()),
        highlight: Some("yellow".into()),
        vert_align: Some("superscript".into()),
        lang: Some("de-DE".into()),
        char_style: Some("Emphasis".into()),
        shading: Some("EEEEEE".into()),
        comments: vec![1, 2],
        image: Some(6),
        ..Run::plain("one")
    };
    let second = Run { track: Some(track(TrackKind::Del, 9)), ..Run::plain(" two") };
    let same = |r: &Run| Run {
        text: r.text.clone(),
        color: r.color.clone(),
        font: r.font.clone(),
        highlight: r.highlight.clone(),
        vert_align: r.vert_align.clone(),
        lang: r.lang.clone(),
        char_style: r.char_style.clone(),
        shading: r.shading.clone(),
        comments: r.comments.clone(),
        track: r.track.as_ref().map(|t| track(t.kind, t.id)),
        fmt_change: None,
        bookmarks: Vec::new(),
        point_bookmarks: Vec::new(),
        end_point_bookmarks: Vec::new(),
        ..*r
    };
    let given = vec![same(&first), same(&second)];
    append_paragraph(&mut doc, &given, &Some("Quote".into())).unwrap();
    doc.commit();
    assert_eq!(runs(&doc, 0), vec![first, second]);
    assert_eq!(paragraph_style(&doc, 0).as_deref(), Some("Quote"));
}

#[test]
fn paragraph_properties_read_back() {
    let mut doc = with(&["one", "two"]);
    let p = ParaProps {
        align: Some(Align::Justify),
        line_spacing: Some(360),
        line_rule: Some(LineRule::Exact),
        space_before: Some(120),
        space_after: Some(0),
        indent_left: Some(-720),
        indent_right: Some(10),
        indent_first: Some(-360),
        shading: Some("ABCDEF".into()),
        tab_stops: vec![720, 1440],
        tab_kinds: vec![1, 2],
        keep_next: Some(true),
        contextual_spacing: Some(false),
        page_break_before: true,
        ..ParaProps::default()
    };
    apply_paragraph_format(&mut doc, 1, &p).unwrap();
    let q = paragraph_format(&doc, 1).unwrap();
    assert_eq!(q.align, Some(Align::Justify));
    assert_eq!(q.line_spacing, Some(360));
    assert_eq!(q.line_rule, Some(LineRule::Exact));
    assert_eq!(q.space_before, Some(120));
    assert_eq!(q.space_after, Some(0));
    assert_eq!(q.indent_left, Some(-720));
    assert_eq!(q.indent_right, Some(10));
    assert_eq!(q.indent_first, Some(-360));
    assert_eq!(q.shading.as_deref(), Some("ABCDEF"));
    assert_eq!(q.tab_stops, vec![720, 1440]);
    assert_eq!(q.tab_kinds, vec![1, 2]);
    assert_eq!(q.keep_next, Some(true));
    assert_eq!(paragraph_format(&doc, 0).unwrap(), ParaProps::default());
}

// ---------------------------------------------------------------- formatting

#[test]
fn run_formats_mark_and_clear_a_range() {
    let mut doc = with(&["abcdef"]);
    apply_run_format(&mut doc, 0, 1..4, &RunFormat::bold(true)).unwrap();
    apply_run_format(&mut doc, 0, 2..5, &RunFormat::color("00FF00")).unwrap();
    let v = runs(&doc, 0);
    let shape: Vec<(&str, bool, Option<&str>)> =
        v.iter().map(|r| (r.text.as_str(), r.bold, r.color.as_deref())).collect();
    assert_eq!(
        shape,
        [
            ("a", false, None),
            ("b", true, None),
            ("cd", true, Some("00FF00")),
            ("e", false, Some("00FF00")),
            ("f", false, None)
        ]
    );
    apply_run_format(&mut doc, 0, 0..6, &RunFormat::bold(false)).unwrap();
    clear_run_format(&mut doc, 0, 0..6).unwrap();
    assert_eq!(runs(&doc, 0), vec![Run::plain("abcdef")]);
}

#[test]
fn every_run_format_reads_back() {
    let mut doc = with(&["ab"]);
    let formats = [
        RunFormat::bold(true),
        RunFormat::italic(true),
        RunFormat::underline(true),
        RunFormat::strike(true),
        RunFormat::size(24),
        RunFormat::color("123456"),
        RunFormat::font("Georgia"),
        RunFormat::highlight("cyan"),
        RunFormat::vert_align("subscript"),
    ];
    for f in &formats {
        apply_run_format(&mut doc, 0, 0..2, f).unwrap();
    }
    let r = &runs(&doc, 0)[0];
    assert!(r.bold && r.italic && r.underline && r.strike);
    assert_eq!(r.size, Some(24));
    assert_eq!(r.color.as_deref(), Some("123456"));
    assert_eq!(r.font.as_deref(), Some("Georgia"));
    assert_eq!(r.highlight.as_deref(), Some("cyan"));
    assert_eq!(r.vert_align.as_deref(), Some("subscript"));
}

#[test]
fn a_selection_reports_what_all_its_runs_share() {
    let mut doc = with(&["abcd"]);
    apply_run_format(&mut doc, 0, 0..2, &RunFormat::bold(true)).unwrap();
    apply_run_format(&mut doc, 0, 0..4, &RunFormat::size(40)).unwrap();
    let styles = StyleTable::word_default();
    let all = selection_format(&doc, &styles, 0, 0, 4).unwrap();
    assert_eq!(all.bold, None, "the runs differ");
    assert_eq!(all.size, Some(40));
    let head = selection_format(&doc, &styles, 0, 0, 2).unwrap();
    assert_eq!(head.bold, Some(true));
    assert_eq!(head.italic, Some(false));
}

#[test]
fn styles_and_numbering_are_set_and_cleared() {
    let mut doc = with(&["one"]);
    set_paragraph_style(&mut doc, 0, &Some("Heading1".into())).unwrap();
    assert_eq!(paragraph_style(&doc, 0).as_deref(), Some("Heading1"));
    set_numbering(&mut doc, 0, Some(3), Some(1)).unwrap();
    let p = paragraph_format(&doc, 0).unwrap();
    assert_eq!((p.num_id, p.num_ilvl), (Some(3), Some(1)));
    set_numbering(&mut doc, 0, None, None).unwrap();
    let p = paragraph_format(&doc, 0).unwrap();
    assert_eq!((p.num_id, p.num_ilvl), (None, None));
    set_paragraph_style(&mut doc, 0, &None).unwrap();
    assert_eq!(paragraph_style(&doc, 0), None);
}

// ---------------------------------------------------------------- revisions

#[test]
fn a_suggested_insertion_is_kept_or_taken_back() {
    for accept in [true, false] {
        let mut doc = with(&["abcd"]);
        suggest_insertion(&mut doc, 0, 2, "XY", &track(TrackKind::Ins, 8)).unwrap();
        doc.commit();
        assert_eq!(texts(&doc), ["abXYcd"]);
        assert_eq!(runs(&doc, 0)[1].track, Some(track(TrackKind::Ins, 8)));
        assert_eq!(all_revision_ids(&doc).unwrap(), vec![8]);
        assert_eq!(max_revision_id(&doc).unwrap(), 8);
        assert_eq!(resolve_revision(&mut doc, 8, accept), Ok(true));
        doc.commit();
        let expected = if accept { "abXYcd" } else { "abcd" };
        assert_eq!(runs(&doc, 0), vec![Run::plain(expected)]);
        assert_eq!(resolve_revision(&mut doc, 8, accept), Ok(false));
    }
}

#[test]
fn a_suggested_deletion_is_carried_out_or_dropped() {
    for accept in [true, false] {
        let mut doc = with(&["abcd"]);
        suggest_deletion(&mut doc, 0, 1..3, &track(TrackKind::Del, 2)).unwrap();
        doc.commit();
        assert_eq!(texts(&doc), ["abcd"], "the text stays until the change is accepted");
        assert_eq!(resolve_revision(&mut doc, 2, accept), Ok(true));
        doc.commit();
        let expected = if accept { "ad" } else { "abcd" };
        assert_eq!(runs(&doc, 0), vec![Run::plain(expected)]);
    }
}

#[test]
fn a_suggested_format_is_kept_or_restored() {
    for accept in [true, false] {
        let mut doc = with(&["abcd"]);
        apply_run_format(&mut doc, 0, 0..2, &RunFormat::italic(true)).unwrap();
        let by = ("Ann Lee", "2024-01-02T03:04:05Z");
        suggest_format(&mut doc, 0, 1..3, &RunFormat::bold(true), by.0, by.1, 5).unwrap();
        doc.commit();
        let v = runs(&doc, 0);
        assert_eq!(v.len(), 4);
        let old = v[1].fmt_change.as_ref().expect("the old properties are recorded");
        assert!(v[1].bold && old.old.italic && !old.old.bold && old.id == 5);
        assert!(!v[2].fmt_change.as_ref().unwrap().old.italic);
        assert_eq!(resolve_revision(&mut doc, 5, accept), Ok(true));
        doc.commit();
        let bold: Vec<bool> = runs(&doc, 0).iter().map(|r| r.bold).collect();
        assert_eq!(bold.contains(&true), accept);
        assert!(runs(&doc, 0).iter().all(|r| r.fmt_change.is_none()));
        assert!(runs(&doc, 0)[0].italic);
    }
}

#[test]
fn a_move_within_the_moved_range_is_refused() {
    let mut doc = with(&["abcdef"]);
    let r = suggest_move(&mut doc, 0, 1..4, 0, 2, "Ann", "2024", 3);
    assert_eq!(r, Err(ModelError::MoveIntoItself));
    assert_eq!(runs(&doc, 0), vec![Run::plain("abcdef")]);
}

#[test]
fn a_move_keeps_one_of_its_halves() {
    for accept in [true, false] {
        let mut doc = with(&["abcdef", "xyz"]);
        suggest_move(&mut doc, 0, 1..3, 1, 3, "Ann", "2024", 3).unwrap();
        doc.commit();
        assert_eq!(texts(&doc), ["abcdef", "xyzbc"]);
        assert_eq!(all_revision_ids(&doc).unwrap(), vec![3]);
        assert_eq!(resolve_revision(&mut doc, 3, accept), Ok(true));
        doc.commit();
        let expected = if accept { ["adef", "xyzbc"] } else { ["abcdef", "xyz"] };
        assert_eq!(texts(&doc), expected);
        assert_eq!(all_revision_ids(&doc).unwrap(), Vec::<u64>::new());
    }
}

#[test]
fn a_move_over_paragraphs_brings_its_breaks() {
    let mut doc = with(&["one", "two", "three", "dest"]);
    let n = suggest_move_multi(&mut doc, 0, 1, 2, 2, 3, 2, "Ann", "2024", 4).unwrap();
    doc.commit();
    assert_eq!(n, 2);
    assert_eq!(texts(&doc), ["one", "two", "three", "dene", "two", "thst"]);
    let paras = read_paragraphs(&doc).unwrap();
    let kinds: Vec<Option<TrackKind>> =
        paras.iter().map(|p| p.mark_change.as_ref().map(|t| t.kind)).collect();
    let (from, to) = (Some(TrackKind::MoveFrom), Some(TrackKind::MoveTo));
    assert_eq!(kinds, [from, from, None, to, to, None]);
}

#[test]
fn changes_are_walked_in_order_and_around() {
    let mut doc = with(&["abcd", "efgh"]);
    assert_eq!(adjacent_change(&doc, 0, 0, true), Ok(None));
    suggest_insertion(&mut doc, 0, 2, "X", &track(TrackKind::Ins, 1)).unwrap();
    suggest_deletion(&mut doc, 1, 1..2, &track(TrackKind::Del, 2)).unwrap();
    set_para_mark(&mut doc, 1, &track(TrackKind::Ins, 3)).unwrap();
    doc.commit();
    assert_eq!(change_carets(&doc).unwrap(), vec![(0, 2), (1, 1), (1, 4)]);
    assert_eq!(adjacent_change(&doc, 0, 0, true), Ok(Some((0, 2))));
    assert_eq!(adjacent_change(&doc, 0, 2, true), Ok(Some((1, 1))));
    assert_eq!(adjacent_change(&doc, 1, 4, true), Ok(Some((0, 2))), "the walk wraps");
    assert_eq!(adjacent_change(&doc, 0, 2, false), Ok(Some((1, 4))), "backwards too");
    assert_eq!(all_revision_ids(&doc).unwrap(), vec![1, 2, 3]);
    clear_para_mark(&mut doc, 1).unwrap();
    assert_eq!(all_revision_ids(&doc).unwrap(), vec![1, 2]);
}

#[test]
fn the_change_under_the_caret_is_found() {
    let mut doc = with(&["abcd"]);
    suggest_insertion(&mut doc, 0, 1, "XY", &track(TrackKind::Ins, 1)).unwrap();
    doc.commit();
    assert_eq!(track_at(&doc, 0, 0), Ok(None));
    let r = track_at(&doc, 0, 3).unwrap().expect("a region that ends at the caret");
    assert_eq!((r.text.as_str(), r.start, r.end), ("XY", 1, 3));
    assert_eq!(track_at(&doc, 0, 4), Ok(None));
    assert_eq!(track_at(&doc, 9, 0), Ok(None));
    set_para_mark(&mut doc, 0, &track(TrackKind::Del, 2)).unwrap();
    let mark = track_at(&doc, 0, 6).unwrap().expect("the paragraph mark");
    assert_eq!((mark.text.as_str(), mark.start, mark.end), ("\u{b6}", 6, 6));
}

#[test]
fn own_insertions_are_told_from_others() {
    let mut doc = with(&["abcd"]);
    suggest_insertion(&mut doc, 0, 1, "XY", &track(TrackKind::Ins, 1)).unwrap();
    doc.commit();
    assert_eq!(range_is_own_insertion(&doc, 0, 1, 3, "Ann Lee"), Ok(true));
    assert_eq!(range_is_own_insertion(&doc, 0, 1, 4, "Ann Lee"), Ok(false));
    assert_eq!(range_is_own_insertion(&doc, 0, 1, 3, "Bob"), Ok(false));
    assert_eq!(range_is_own_insertion(&doc, 0, 2, 2, "Ann Lee"), Ok(false));
}

#[test]
fn paragraph_suggestions_are_kept_or_restored() {
    for accept in [true, false] {
        let mut doc = with(&["one"]);
        set_paragraph_style(&mut doc, 0, &Some("Quote".into())).unwrap();
        let p = ParaProps { align: Some(Align::Center), ..ParaProps::default() };
        suggest_paragraph_format(&mut doc, 0, &p, "Ann", "2024", 6).unwrap();
        doc.commit();
        let c = read_paragraphs(&doc).unwrap().swap_remove(0).prop_change.expect("recorded");
        assert_eq!((c.id, c.old_style.as_deref(), c.old.align), (6, Some("Quote"), None));
        assert_eq!(paragraph_format(&doc, 0).unwrap().align, Some(Align::Center));
        assert_eq!(resolve_revision(&mut doc, 6, accept), Ok(true));
        let expected = if accept { Some(Align::Center) } else { None };
        assert_eq!(paragraph_format(&doc, 0).unwrap().align, expected);
        assert_eq!(paragraph_style(&doc, 0).as_deref(), Some("Quote"));
        assert_eq!(all_revision_ids(&doc).unwrap(), Vec::<u64>::new());
    }
}

#[test]
fn suggested_styles_and_numbering_can_be_rejected() {
    let mut doc = with(&["one", "two"]);
    suggest_paragraph_style(&mut doc, 0, &Some("Title".into()), "Ann", "2024", 1).unwrap();
    suggest_numbering(&mut doc, 1, Some(4), Some(0), "Ann", "2024", 2).unwrap();
    assert_eq!(paragraph_style(&doc, 0).as_deref(), Some("Title"));
    assert_eq!(paragraph_format(&doc, 1).unwrap().num_id, Some(4));
    assert_eq!(resolve_revision(&mut doc, 1, false), Ok(true));
    assert_eq!(resolve_revision(&mut doc, 2, false), Ok(true));
    assert_eq!(paragraph_style(&doc, 0), None);
    assert_eq!(paragraph_format(&doc, 1).unwrap().num_id, None);
}

// ---------------------------------------------------------------- structure

#[test]
fn joining_undoes_splitting() {
    let mut doc = with(&["one", "two words"]);
    apply_run_format(&mut doc, 1, 1..3, &RunFormat::italic(true)).unwrap();
    apply_run_format(&mut doc, 1, 4..6, &RunFormat::bold(true)).unwrap();
    doc.commit();
    let before = runs(&doc, 1);
    split_paragraph(&mut doc, 1, 4).unwrap();
    doc.commit();
    assert_eq!(texts(&doc), ["one", "two ", "words"]);
    assert!(runs(&doc, 2)[0].bold && !runs(&doc, 2)[1].bold);
    assert_eq!(join_paragraph(&mut doc, 2), Ok(4));
    doc.commit();
    assert_eq!(runs(&doc, 1), before);
    assert_eq!(join_paragraph(&mut doc, 0), Err(ModelError::FirstBlock));
}

#[test]
fn paragraphs_come_and_go_in_place() {
    let mut doc = with(&["one", "two"]);
    insert_empty_paragraph(&mut doc, 1).unwrap();
    assert_eq!(texts(&doc), ["one", "", "two"]);
    delete_paragraph(&mut doc, 0).unwrap();
    assert_eq!(texts(&doc), ["", "two"]);
    assert_eq!(delete_paragraph(&mut doc, 2), Err(ModelError::NoBlock));
    let p = &read_paragraphs(&doc).unwrap()[0];
    assert_eq!(*p, empty_paragraph());
}

#[test]
fn blocks_are_found_by_their_place() {
    let mut doc = with(&["one"]);
    let table = create_table_node(&mut doc).unwrap();
    let mut g = open_table_grid(&doc, table);
    assert_eq!((g.cols.len(), g.rows.len()), (0, 0));
    let para = |t: &str| Paragraph { runs: vec![Run::plain(t)], ..empty_paragraph() };
    let cell = |v: Vec<Paragraph>| GridCell { paras: v, ..Default::default() };
    g.cols.push(GridCol { id: "c0".into(), width: Some(100) });
    g.cols.push(GridCol { id: "c1".into(), width: Some(200) });
    g.rows.push(GridRow {
        id: "r0".into(),
        cells: vec![cell(vec![para("a"), para("b")]), cell(vec![para("c")])],
        height: None,
        height_exact: false,
        cant_split: false,
        justify: None,
        change: None,
        prop_change: None,
    });
    host_table_grid(&mut doc, table, &g).unwrap();
    let last = append_paragraph(&mut doc, &vec![Run::plain("end")], &None).unwrap();
    doc.commit();
    assert_eq!(texts(&doc), ["one", "a", "b", "c", "end"]);
    assert_eq!(block_index_of(&doc, last), Some(4));
    assert_eq!(block_index_of(&doc, table), None);
    assert_eq!(block_index_of_container(&doc, last), Some(4));
    assert_eq!(block_index_of_container(&doc, table), None);
    assert_eq!(cell_first_flat(&doc, table, 0, 1), Some(3));
    assert_eq!(cell_first_flat(&doc, table, 1, 0), None);
    assert_eq!(table_first_flat(&doc, table), 1);
    assert_eq!(table_first_flat(&doc, last), 5);
    let nodes = body_nodes(&doc);
    assert_eq!(nodes.len(), 3);
    assert_eq!(nodes[1..], [BodyNode::Table(table), BodyNode::Paragraph(last)]);
    assert_eq!(join_paragraph(&mut doc, 3), Err(ModelError::CellBoundary));
    delete_block_node(&mut doc, table).unwrap();
    assert_eq!(texts(&doc), ["one", "end"]);
    assert_eq!(table_first_flat(&doc, table), 2);
    let g: TableGrid = open_table_grid(&doc, last);
    assert_eq!(g.rows.len(), 0);
}

// ---------------------------------------------------------------- anchors

#[test]
fn ranges_are_marked_found_and_cleared() {
    let mut doc = with(&["abcdef"]);
    mark_comment_range(&mut doc, 1, 0, 1, 4).unwrap();
    mark_comment_range(&mut doc, 2, 0, 3, 5).unwrap();
    doc.commit();
    assert_eq!(comments_at(&doc, 0, 2), Ok(vec![1]));
    assert_eq!(comments_at(&doc, 0, 3), Ok(vec![1, 2]));
    assert_eq!(comments_at(&doc, 0, 0), Ok(vec![]));
    clear_comment_marks(&mut doc, 1).unwrap();
    assert_eq!(comments_at(&doc, 0, 3), Ok(vec![2]));

    mark_field_range(&mut doc, 3, 0, 0, 2).unwrap();
    mark_bookmark_range(&mut doc, 4, 0, 0, 1).unwrap();
    mark_link_range(&mut doc, 5, 0, 4, 6).unwrap();
    mark_image_range(&mut doc, 6, 0, 5, 6).unwrap();
    doc.commit();
    let v = runs(&doc, 0);
    assert_eq!(v[0].field, Some(3));
    assert_eq!(v[0].bookmarks, vec![4]);
    assert_eq!(v.last().unwrap().link, Some(5));
    assert_eq!(v.last().unwrap().image, Some(6));
    clear_bookmark_marks(&mut doc, 4).unwrap();
    clear_link_marks(&mut doc, 5).unwrap();
    let v = runs(&doc, 0);
    assert!(v.iter().all(|r| r.bookmarks.is_empty() && r.link.is_none()));
}

#[test]
fn a_point_bookmark_leans_on_a_character() {
    let mut doc = with(&["abc"]);
    assert_eq!(mark_bookmark_point(&mut doc, 4, 0, 1, 3), Ok(true));
    let v = runs(&doc, 0);
    assert_eq!((v[1].text.as_str(), v[1].point_bookmarks.as_slice()), ("b", &[4][..]));

    let mut doc = with(&["abc"]);
    assert_eq!(mark_bookmark_point(&mut doc, 4, 0, 3, 3), Ok(true));
    let v = runs(&doc, 0);
    assert_eq!((v[1].text.as_str(), v[1].end_point_bookmarks.as_slice()), ("c", &[4][..]));

    let mut doc = with(&[""]);
    assert_eq!(mark_bookmark_point(&mut doc, 4, 0, 0, 0), Ok(false), "nothing to lean on");
}

#[test]
fn placeholders_stand_where_they_are_put() {
    let mut doc = with(&["abc"]);
    insert_image_placeholder(&mut doc, 6, 0).unwrap();
    insert_raw_placeholder(&mut doc, 7, 0, 1).unwrap();
    doc.commit();
    let v = runs(&doc, 0);
    let image = v.iter().find(|r| r.image == Some(6)).expect("the picture");
    assert_eq!(image.text, IMAGE_PLACEHOLDER.to_string());
    let raw = v.iter().position(|r| r.raw == Some(7)).expect("the raw element");
    assert_eq!(v[raw].text.chars().count(), 1);

    let mut doc = with(&["abc"]);
    insert_image_placeholder_tracked(&mut doc, 6, 0, &track(TrackKind::Ins, 1)).unwrap();
    insert_raw_placeholder_tracked(&mut doc, 7, 0, 0, &track(TrackKind::Del, 2)).unwrap();
    doc.commit();
    let v = runs(&doc, 0);
    let image = v.iter().find(|r| r.image == Some(6)).expect("the picture");
    assert_eq!(image.track, Some(track(TrackKind::Ins, 1)));
    let raw = v.iter().find(|r| r.raw == Some(7)).expect("the raw element");
    assert_eq!(raw.track, Some(track(TrackKind::Del, 2)));
}

#[test]
fn a_cursor_keeps_to_its_character() {
    let mut doc = with(&["one", "two words"]);
    let c = cursor_at(&doc, 1, 4, Side::Middle).unwrap();
    let end = cursor_at(&doc, 1, 99, Side::Middle).unwrap();
    assert_eq!(resolve_cursor(&doc, &c), Some((1, 4, false)));
    assert_eq!(resolve_cursor(&doc, &end), Some((1, 9, false)));
    insert_text(&mut doc, 1, 0, "ab").unwrap();
    insert_empty_paragraph(&mut doc, 0).unwrap();
    assert_eq!(resolve_cursor(&doc, &c), Some((2, 6, false)));
    delete_text(&mut doc, 2, 5..8).unwrap();
    doc.commit();
    let (para, off, moved) = resolve_cursor(&doc, &c).expect("a place beside it");
    assert_eq!((para, off, moved), (2, 5, true));
    delete_paragraph(&mut doc, 2).unwrap();
    doc.commit();
    assert_eq!(resolve_cursor(&doc, &c), None);
    assert!(matches!(cursor_at(&doc, 7, 0, Side::Left), Err(ModelError::NoBlock)));
    assert_eq!(cursor_found(&doc, c.block, Some((3, false))), None);
    let first = cursor_at(&doc, 1, 0, Side::Right).unwrap();
    assert_eq!(cursor_found(&doc, first.block, Some((3, true))), Some((1, 3, true)));
    assert_eq!(cursor_found(&doc, first.block, None), None);
}

#[test]
fn marks_are_those_that_were_configured_last() {
    let mut doc = with(&["abc"]);
    mark_comment_range(&mut doc, 1, 0, 0, 2).unwrap();
    doc.configure_text_styles(&vec![("cmt~2".to_string(), false)]);
    mark_comment_range(&mut doc, 2, 0, 1, 3).unwrap();
    assert!(matches!(mark_comment_range(&mut doc, 1, 0, 2, 3), Err(ModelError::Store)));
    doc.commit();
    let v = runs(&doc, 0);
    assert_eq!(v[0].comments, vec![1]);
    assert_eq!(v[1].comments, vec![1, 2]);
    assert_eq!(v[2].comments, vec![2]);
}

#[test]
fn a_cell_paragraph_is_split_joined_and_deleted() {
    let mut doc = with(&["before"]);
    let node = create_table_node(&mut doc).unwrap();
    let mut grid = open_table_grid(&doc, node);
    let p = Paragraph { runs: vec![Run::plain("cell text")], ..empty_paragraph() };
    grid.cols.push(GridCol { id: "c0".into(), width: Some(100) });
    grid.rows.push(GridRow {
        id: "r0".into(),
        cells: vec![GridCell { paras: vec![p], ..Default::default() }],
        height: None,
        height_exact: false,
        cant_split: false,
        justify: None,
        change: None,
        prop_change: None,
    });
    host_table_grid(&mut doc, node, &grid).unwrap();
    split_paragraph(&mut doc, 1, 4).unwrap();
    assert_eq!(texts(&doc), vec!["before", "cell", " text"]);
    assert_eq!(join_paragraph(&mut doc, 2).unwrap(), 4);
    assert_eq!(texts(&doc), vec!["before", "cell text"]);
    assert!(matches!(join_paragraph(&mut doc, 1), Err(ModelError::CellBoundary)));
    delete_paragraph(&mut doc, 1).unwrap();
    assert_eq!(texts(&doc), vec!["before"]);
    delete_block_node(&mut doc, node).unwrap();
    assert!(matches!(delete_block_node(&mut doc, node), Err(ModelError::Store)));
}

#[test]
fn a_revision_is_resolved_once() {
    let mut doc = with(&["abcdef"]);
    suggest_deletion(&mut doc, 0, 1..3, &track(TrackKind::Del, 9)).unwrap();
    assert_eq!(resolve_revision(&mut doc, 9, false).unwrap(), true);
    assert_eq!(texts(&doc), vec!["abcdef"]);
    assert_eq!(resolve_revision(&mut doc, 9, false).unwrap(), false);
    assert!(all_revision_ids(&doc).unwrap().is_empty());
}

#[test]
fn a_grid_on_a_deleted_block_is_refused() {
    let mut doc = with(&["one"]);
    let node = create_table_node(&mut doc).unwrap();
    let cell = GridCell {
        paras: vec![Paragraph { runs: vec![Run::plain("x")], ..empty_paragraph() }],
        ..Default::default()
    };
    let grid = TableGrid {
        cols: vec![GridCol { id: "c0".to_string(), width: None }],
        rows: vec![GridRow {
            id: "r0".to_string(),
            cells: vec![cell],
            height: None,
            height_exact: false,
            cant_split: false,
            justify: None,
            change: None,
            prop_change: None,
        }],
        ..Default::default()
    };
    delete_block_node(&mut doc, node).unwrap();
    assert!(matches!(host_table_grid(&mut doc, node, &grid), Err(ModelError::Store)));
    assert_eq!(texts(&doc), ["one"]);
    let empty = TableGrid::default();
    assert!(host_table_grid(&mut doc, node, &empty).is_ok());
}

#[test]
fn every_character_gives_a_cursor() {
    let doc = with(&["a\u{1F600}b"]);
    for off in 0..5 {
        for side in [Side::Left, Side::Middle, Side::Right] {
            let c = cursor_at(&doc, 0, off, side).unwrap();
            assert_eq!(resolve_cursor(&doc, &c), Some((0, off.min(3), false)));
        }
    }
}

#[test]
fn cursors_move_with_what_is_typed_and_deleted() {
    let mut doc = with(&["abcdef", "other"]);
    let c = cursor_at(&doc, 0, 3, Side::Left).unwrap();
    insert_text(&mut doc, 0, 3, "xy").unwrap();
    assert_eq!(resolve_cursor(&doc, &c), Some((0, 5, false)));
    insert_text(&mut doc, 0, 6, "z").unwrap();
    assert_eq!(resolve_cursor(&doc, &c), Some((0, 5, false)));
    delete_text(&mut doc, 0, 0..2).unwrap();
    assert_eq!(resolve_cursor(&doc, &c), Some((0, 3, false)));
    delete_text(&mut doc, 0, 4..5).unwrap();
    assert_eq!(resolve_cursor(&doc, &c), Some((0, 3, false)));
    insert_text(&mut doc, 1, 0, "an").unwrap();
    assert_eq!(resolve_cursor(&doc, &c), Some((0, 3, false)));
}

#[test]
fn typed_text_takes_the_marks_around_it() {
    let mut doc = with(&["abcd"]);
    let bold = RunFormat { bold: Some(true), ..Default::default() };
    apply_run_format(&mut doc, 0, 1..3, &bold).unwrap();
    insert_text(&mut doc, 0, 2, "x").unwrap();
    insert_text(&mut doc, 0, 4, "y").unwrap();
    insert_text(&mut doc, 0, 1, "z").unwrap();
    let seen: Vec<(String, bool)> = runs(&doc, 0).into_iter().map(|r| (r.text, r.bold)).collect();
    assert_eq!(
        seen,
        [("az".to_string(), false), ("bxcy".to_string(), true), ("d".to_string(), false)]
    );
}

#[test]
fn a_rejected_insertion_in_marked_text_leaves_nothing() {
    let mut doc = with(&["abcd"]);
    let bold = RunFormat { bold: Some(true), ..Default::default() };
    apply_run_format(&mut doc, 0, 1..3, &bold).unwrap();
    let was = read_paragraphs(&doc).unwrap();
    let id = max_revision_id(&doc).unwrap() + 1;
    suggest_insertion(&mut doc, 0, 2, "new", &track(TrackKind::Ins, id)).unwrap();
    assert_eq!(all_revision_ids(&doc).unwrap(), [id]);
    assert!(resolve_revision(&mut doc, id, false).unwrap());
    assert!(read_paragraphs(&doc).unwrap() == was);
    assert!(all_revision_ids(&doc).unwrap().is_empty());
    assert!(!resolve_revision(&mut doc, id, false).unwrap());
    assert!(read_paragraphs(&doc).unwrap() == was);
}
