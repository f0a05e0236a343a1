use std::io::{Cursor, Write};

use collate_core::comments::parse_comments;
use collate_core::docx::{collate, extract_title, parse};
use collate_core::matcher::{build_paragraph_blocks, classify_paragraph};
use collate_core::paragraphs::{parse_document, parse_events, ParsedParagraph};
use collate_core::track_changes::{base_text, extract_changes, revised_text, Segment};
use collate_core::types::{ChangeType, Comment, ParagraphStatus};
use collate_core::xml::{local_name, Attribute, Element, XmlEvent};
use zip::write::SimpleFileOptions;
use zip::ZipWriter;

fn archive(files: &[(&str, &str)]) -> Vec<u8> {
    let mut zip = ZipWriter::new(Cursor::new(Vec::new()));
    for (name, content) in files {
        zip.start_file(name.to_string(), SimpleFileOptions::default()).unwrap();
        zip.write_all(content.as_bytes()).unwrap();
    }
    zip.finish().unwrap().into_inner()
}

fn body(content: &str) -> String {
    format!(
        r#"<w:document xmlns:w="http://schemas.openxmlformats.org/wordprocessingml/2006/main"><w:body>{content}</w:body></w:document>"#
    )
}

fn ins(author: &str, text: &str) -> Segment {
    Segment::Insertion { id: "1".into(), author: author.into(), date: None, text: text.into() }
}

fn del(author: &str, text: &str) -> Segment {
    Segment::Deletion { id: "2".into(), author: author.into(), date: None, text: text.into() }
}

fn paragraph(index: usize, segments: Vec<Segment>) -> ParsedParagraph {
    ParsedParagraph { index, segments, comment_ids: vec![], comment_anchor_texts: vec![] }
}

fn start(name: &str, attrs: &[(&str, &str)]) -> Element {
    Element {
        name: name.to_string(),
        attributes: attrs
            .iter()
            .map(|(k, v)| Attribute { key: k.to_string(), value: v.to_string() })
            .collect(),
    }
}

#[test]
fn hello_cruel_beautiful_world() {
    let segments = vec![
        Segment::Stable("Hello ".into()),
        del("Bob", "cruel "),
        ins("Alice", "beautiful "),
        Segment::Stable("world".into()),
    ];
    let (blocks, reviewers) =
        build_paragraph_blocks(&[paragraph(0, segments)], &[], "doc.docx");
    let b = &blocks[0];
    assert_eq!(b.base_text, "Hello cruel world");
    assert_eq!(b.revised_text, "Hello beautiful world");
    assert_eq!(b.track_changes.len(), 2);
    assert_eq!(b.track_changes[0].author, "Bob");
    assert_eq!(b.track_changes[0].change_type, ChangeType::Deletion);
    assert_eq!(b.track_changes[1].author, "Alice");
    assert_eq!(b.track_changes[1].change_type, ChangeType::Insertion);
    assert!(b.has_conflicts);
    assert_eq!(reviewers.len(), 2);
    assert_eq!(reviewers[0].name, "Bob");
    assert_eq!(reviewers[0].change_count, 1);
    assert_eq!(reviewers[1].name, "Alice");
    assert_eq!(reviewers[1].change_count, 1);
    assert_eq!(reviewers[0].colour, "#EF4444");
    assert_eq!(reviewers[1].colour, "#3B82F6");
    // Versions per author follow first appearance, each with the revised text.
    assert_eq!(b.reviewer_versions.len(), 2);
    assert_eq!(b.reviewer_versions[0].reviewer_name, "Bob");
    assert_eq!(b.reviewer_versions[1].resulting_text, "Hello beautiful world");
}

#[test]
fn comment_anchor_reaches_block() {
    let doc = body(
        r#"<w:p><w:commentRangeStart w:id="1"/><w:r><w:t>Anchor text here</w:t></w:r><w:commentRangeEnd w:id="1"/></w:p>"#,
    );
    let comments = r#"<w:comments xmlns:w="x"><w:comment w:id="1" w:author="Ann"><w:p><w:r><w:t>Note</w:t></w:r></w:p></w:comment></w:comments>"#;
    let result = collate(&doc, Some(comments), None, "a.docx").unwrap();
    assert_eq!(result.paragraphs[0].comments[0].anchor_text, "Anchor text here");
    assert_eq!(result.reviewers[0].name, "Ann");
    assert_eq!(result.reviewers[0].comment_count, 1);
    assert_eq!(result.reviewers[0].change_count, 0);
}

#[test]
fn missing_body_is_an_error() {
    let bytes = archive(&[("word/comments.xml", "<w:comments/>")]);
    let err = parse(&bytes, "x.docx").unwrap_err();
    assert!(err.contains("word/document.xml"));
}

#[test]
fn unreadable_archive_error_prefix() {
    let err = parse(b"not an archive", "x.docx").unwrap_err();
    assert!(err.starts_with("Failed to open ZIP archive: "));
    assert!(err.len() > "Failed to open ZIP archive: ".len());
}

#[test]
fn base_text_skips_insertions_keeps_deletions() {
    let segments = vec![ins("A", "xx"), Segment::Stable("ab".into()), del("B", "cd"), ins("A", "yy")];
    assert_eq!(base_text(&segments), "abcd");
    assert_eq!(revised_text(&segments), "xxabyy");
}

#[test]
fn one_record_per_change_in_order() {
    let segments = vec![ins("A", "1"), Segment::Stable("s".into()), del("B", "2"), ins("C", "3")];
    let changes = extract_changes(&segments);
    assert_eq!(changes.len(), 3);
    assert_eq!(changes[0].new_text, "1");
    assert_eq!(changes[0].original_text, "");
    assert_eq!(changes[1].original_text, "2");
    assert_eq!(changes[1].new_text, "");
    assert_eq!(changes[2].new_text, "3");
    assert_eq!(changes[2].author, "C");
}

#[test]
fn context_windows_whole_characters() {
    let before = "é".repeat(40);
    let after = "ü".repeat(35);
    let segments = vec![Segment::Stable(before.clone()), del("X", "ß"), Segment::Stable(after.clone())];
    let c = &extract_changes(&segments)[0];
    assert_eq!(c.context_before, "é".repeat(30));
    assert_eq!(c.context_after, "ü".repeat(30));
    assert_eq!(c.context_before.chars().count(), 30);
}

#[test]
fn insertion_context_straddles_the_same_point() {
    let segments = vec![Segment::Stable("left".into()), ins("X", "NEW"), Segment::Stable("right".into())];
    let c = &extract_changes(&segments)[0];
    assert_eq!(c.context_before, "left");
    assert_eq!(c.context_after, "right");
}

#[test]
fn wholly_inserted_with_blank_stable() {
    let segments = vec![Segment::Stable("  ".into()), ins("Dee", "new"), ins("Eve", "more")];
    let (status, author) = classify_paragraph(&segments);
    assert_eq!(status, ParagraphStatus::WhollyInserted);
    assert_eq!(author.as_deref(), Some("Eve"));
    assert_eq!(base_text(&segments), "  ");
}

#[test]
fn wholly_deleted_and_normal() {
    let deleted = vec![del("Bob", "gone")];
    assert_eq!(classify_paragraph(&deleted).0, ParagraphStatus::WhollyDeleted);
    assert_eq!(revised_text(&deleted), "");
    let mixed = vec![ins("A", "x"), del("A", "y")];
    let (status, author) = classify_paragraph(&mixed);
    assert_eq!(status, ParagraphStatus::Normal);
    assert!(author.is_none());
    assert_eq!(classify_paragraph(&[]).0, ParagraphStatus::Normal);
}

#[test]
fn conflicts_need_two_authors() {
    let one = paragraph(0, vec![ins("A", "x"), del("A", "y")]);
    let none = paragraph(1, vec![Segment::Stable("plain".into())]);
    let two = paragraph(2, vec![ins("A", "x"), ins("B", "y")]);
    let (blocks, _) = build_paragraph_blocks(&[one, none, two], &[], "f");
    assert!(!blocks[0].has_conflicts);
    assert!(!blocks[1].has_conflicts);
    assert!(blocks[2].has_conflicts);
}

#[test]
fn palette_wraps_after_eight_reviewers() {
    let names = ["a", "b", "c", "d", "e", "f", "g", "h", "i"];
    let paras: Vec<ParsedParagraph> =
        names.iter().enumerate().map(|(k, n)| paragraph(k, vec![ins(n, "t")])).collect();
    let (_, reviewers) = build_paragraph_blocks(&paras, &[], "f");
    assert_eq!(reviewers.len(), 9);
    assert_eq!(reviewers[7].colour, "#EC4899");
    assert_eq!(reviewers[8].colour, reviewers[0].colour);
    assert_eq!(reviewers[8].name, "i");
}

#[test]
fn dangling_comment_ids_are_dropped() {
    let mut p = paragraph(0, vec![Segment::Stable("x".into())]);
    p.comment_ids = vec!["9".into(), "1".into()];
    let dict = vec![Comment {
        id: "1".into(),
        author: "Ann".into(),
        date: None,
        text: "t".into(),
        anchor_text: String::new(),
        initials: None,
    }];
    let (blocks, _) = build_paragraph_blocks(&[p], &dict, "f");
    assert_eq!(blocks[0].comments.len(), 1);
    assert_eq!(blocks[0].comments[0].anchor_text, "");
}

#[test]
fn whitespace_paragraph_takes_no_index() {
    let events = vec![
        XmlEvent::Start(start("w:p", &[])),
        XmlEvent::Text("  ".into()),
        XmlEvent::End("w:p".into()),
        XmlEvent::Start(start("w:p", &[])),
        XmlEvent::Text("real".into()),
        XmlEvent::End("w:p".into()),
    ];
    let paras = parse_events(&events);
    assert_eq!(paras.len(), 1);
    assert_eq!(paras[0].index, 0);
}

#[test]
fn nested_paragraph_is_not_a_sibling() {
    let events = vec![
        XmlEvent::Start(start("w:p", &[])),
        XmlEvent::Text("a".into()),
        XmlEvent::Start(start("w:p", &[])),
        XmlEvent::Text("b".into()),
        XmlEvent::End("w:p".into()),
        XmlEvent::Text("c".into()),
        XmlEvent::End("w:p".into()),
    ];
    let paras = parse_events(&events);
    assert_eq!(paras.len(), 1);
    match &paras[0].segments[0] {
        Segment::Stable(t) => assert_eq!(t, "abc"),
        other => panic!("unexpected {:?}", other),
    }
}

#[test]
fn empty_insertion_makes_no_segment() {
    let events = vec![
        XmlEvent::Start(start("w:p", &[])),
        XmlEvent::Text("a".into()),
        XmlEvent::Start(start("w:ins", &[("w:id", "1"), ("w:author", "A")])),
        XmlEvent::End("w:ins".into()),
        XmlEvent::Text("b".into()),
        XmlEvent::End("w:p".into()),
    ];
    let paras = parse_events(&events);
    assert_eq!(paras[0].segments.len(), 1);
}

#[test]
fn overlapping_comment_ranges_gather_independently() {
    let events = vec![
        XmlEvent::Start(start("w:p", &[])),
        XmlEvent::Empty(start("w:commentRangeStart", &[("w:id", "1")])),
        XmlEvent::Text("one".into()),
        XmlEvent::Empty(start("w:commentRangeStart", &[("w:id", "2")])),
        XmlEvent::Text("two".into()),
        XmlEvent::Empty(start("w:commentRangeEnd", &[("w:id", "1")])),
        XmlEvent::Text("three".into()),
        XmlEvent::Empty(start("w:commentRangeEnd", &[("w:id", "2")])),
        XmlEvent::End("w:p".into()),
    ];
    let paras = parse_events(&events);
    let anchors = &paras[0].comment_anchor_texts;
    assert_eq!(anchors[0], ("1".to_string(), "onetwo".to_string()));
    assert_eq!(anchors[1], ("2".to_string(), "twothree".to_string()));
    assert_eq!(paras[0].comment_ids, vec!["1".to_string(), "2".to_string()]);
}

#[test]
fn malformed_markup_keeps_closed_paragraphs() {
    let doc = body("<w:p><w:r><w:t>kept</w:t></w:r></w:p><w:p><w:r><w:t>lost</w:x></w:p>");
    let paras = parse_document(&doc);
    assert_eq!(paras.len(), 1);
}

#[test]
fn local_names() {
    assert_eq!(local_name("w:comment"), "comment");
    assert_eq!(local_name("comment"), "comment");
    assert_eq!(local_name("a:b:c"), "b:c");
}

#[test]
fn comment_text_trimmed_of_unicode_space() {
    let xml = "<w:comments xmlns:w=\"x\"><w:comment w:id=\"1\" w:author=\"A\"><w:t>\u{a0}Hello\u{a0}</w:t></w:comment></w:comments>";
    let comments = parse_comments(xml);
    assert_eq!(comments[0].text, "Hello");
}

#[test]
fn title_trimmed_and_escaped_text_unescaped() {
    let core = "<cp:coreProperties xmlns:cp=\"x\" xmlns:dc=\"y\"><dc:title>\u{2003}Q&amp;A\u{2003}</dc:title></cp:coreProperties>";
    assert_eq!(extract_title(core).as_deref(), Some("Q&A"));
    assert_eq!(extract_title("<r><title>   </title></r>"), None);
}

#[test]
fn wholesale_blocks_have_no_text_on_the_missing_side() {
    let inserted = paragraph(0, vec![Segment::Stable(" ".into()), ins("Dee", "new")]);
    let deleted = paragraph(1, vec![del("Bob", "old"), Segment::Stable(" ".into())]);
    let (blocks, _) = build_paragraph_blocks(&[inserted, deleted], &[], "f");
    assert_eq!(blocks[0].paragraph_status, ParagraphStatus::WhollyInserted);
    assert_eq!(blocks[0].base_text, "");
    assert_eq!(blocks[0].revised_text, " new");
    assert_eq!(blocks[0].reviewer_versions.len(), 1);
    assert_eq!(blocks[1].paragraph_status, ParagraphStatus::WhollyDeleted);
    assert_eq!(blocks[1].revised_text, "");
    assert_eq!(blocks[1].base_text, "old ");
}

#[test]
fn archive_without_body_but_with_other_parts() {
    let bytes = archive(&[("docProps/core.xml", "<r><title>T</title></r>"), ("word/styles.xml", "<s/>")]);
    assert_eq!(parse(&bytes, "x.docx").unwrap_err(), "word/document.xml not found — is this a valid .docx file?");
}
