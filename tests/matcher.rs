use collate_core::matcher::build_paragraph_blocks;
use collate_core::paragraphs::ParsedParagraph;
use collate_core::track_changes::Segment;
use collate_core::types::Comment;

/// Helper: build a ParsedParagraph for matcher tests
fn make_parsed_paragraph(
    index: usize,
    segments: Vec<Segment>,
    comment_ids: Vec<String>,
    comment_anchor_texts: Vec<(String, String)>,
) -> ParsedParagraph {
    ParsedParagraph {
        index,
        segments,
        comment_ids,
        comment_anchor_texts,
    }
}

#[test]
fn matcher_comments_matched_to_correct_paragraphs() {
    let paras = vec![
        make_parsed_paragraph(
            0,
            vec![Segment::Stable("First paragraph.".into())],
            vec!["1".into()],
            vec![("1".into(), "First paragraph.".into())],
        ),
        make_parsed_paragraph(
            1,
            vec![Segment::Stable("Second paragraph.".into())],
            vec!["2".into()],
            vec![("2".into(), "Second paragraph.".into())],
        ),
    ];

    let mut comments_map: Vec<Comment> = Vec::new();
    comments_map.push(Comment {
            id: "1".into(),
            author: "Alice".into(),
            date: Some("2024-01-01T00:00:00Z".into()),
            text: "Comment on first".into(),
            anchor_text: String::new(),
            initials: Some("A".into()),
        },
    );
    comments_map.push(Comment {
            id: "2".into(),
            author: "Bob".into(),
            date: Some("2024-01-02T00:00:00Z".into()),
            text: "Comment on second".into(),
            anchor_text: String::new(),
            initials: Some("B".into()),
        },
    );

    let (blocks, _reviewers) = build_paragraph_blocks(&paras, &comments_map, "test.docx");

    assert_eq!(blocks.len(), 2);
    assert_eq!(blocks[0].comments.len(), 1);
    assert_eq!(blocks[0].comments[0].author, "Alice");
    assert_eq!(blocks[0].comments[0].anchor_text, "First paragraph.");

    assert_eq!(blocks[1].comments.len(), 1);
    assert_eq!(blocks[1].comments[0].author, "Bob");
    assert_eq!(blocks[1].comments[0].anchor_text, "Second paragraph.");
}

#[test]
fn matcher_reviewer_list_with_correct_counts() {
    let paras = vec![
        make_parsed_paragraph(
            0,
            vec![
                Segment::Stable("Text ".into()),
                Segment::Insertion {
                    id: "1".into(),
                    author: "Alice".into(),
                    date: None,
                    text: "added".into(),
                },
            ],
            vec!["100".into()],
            vec![("100".into(), "Text".into())],
        ),
        make_parsed_paragraph(
            1,
            vec![
                Segment::Stable("More ".into()),
                Segment::Deletion {
                    id: "2".into(),
                    author: "Alice".into(),
                    date: None,
                    text: "removed".into(),
                },
            ],
            vec![],
            Vec::new(),
        ),
    ];

    let mut comments_map: Vec<Comment> = Vec::new();
    comments_map.push(Comment {
            id: "100".into(),
            author: "Alice".into(),
            date: None,
            text: "A comment".into(),
            anchor_text: String::new(),
            initials: None,
        },
    );

    let (_blocks, reviewers) =
        build_paragraph_blocks(&paras, &comments_map, "test.docx");

    // Alice should be the only author
    assert_eq!(reviewers.len(), 1);
    let alice = &reviewers[0];
    assert_eq!(alice.name, "Alice");
    assert_eq!(alice.comment_count, 1); // 1 comment
    assert_eq!(alice.change_count, 2); // 1 insertion + 1 deletion
    assert_eq!(alice.file_name, "test.docx");
    assert!(!alice.colour.is_empty());
}

#[test]
fn matcher_detect_conflicts_multiple_authors() {
    // Two different authors editing the same paragraph → has_conflicts = true
    let paras = vec![make_parsed_paragraph(
        0,
        vec![
            Segment::Stable("Shared paragraph ".into()),
            Segment::Insertion {
                id: "1".into(),
                author: "Alice".into(),
                date: None,
                text: "Alice's addition ".into(),
            },
            Segment::Deletion {
                id: "2".into(),
                author: "Bob".into(),
                date: None,
                text: "Bob's removal".into(),
            },
        ],
        vec![],
        Vec::new(),
    )];

    let (blocks, reviewers) =
        build_paragraph_blocks(&paras, &Vec::<Comment>::new(), "conflict.docx");

    assert_eq!(blocks.len(), 1);
    assert!(
        blocks[0].has_conflicts,
        "Should detect conflict when multiple authors edit same paragraph"
    );

    // Both authors should appear in the roster
    assert_eq!(reviewers.len(), 2);
    let names: Vec<&str> = reviewers.iter().map(|r| r.name.as_str()).collect();
    assert!(names.contains(&"Alice"));
    assert!(names.contains(&"Bob"));
}

#[test]
fn matcher_no_conflicts_single_author() {
    let paras = vec![make_parsed_paragraph(
        0,
        vec![
            Segment::Stable("Text ".into()),
            Segment::Insertion {
                id: "1".into(),
                author: "Alice".into(),
                date: None,
                text: "added ".into(),
            },
            Segment::Deletion {
                id: "2".into(),
                author: "Alice".into(),
                date: None,
                text: "removed".into(),
            },
        ],
        vec![],
        Vec::new(),
    )];

    let (blocks, _) = build_paragraph_blocks(&paras, &Vec::<Comment>::new(), "single.docx");
    assert!(!blocks[0].has_conflicts, "Single author should not conflict");
}

#[test]
fn matcher_reviewer_versions_populated_when_text_differs() {
    let paras = vec![make_parsed_paragraph(
        0,
        vec![
            Segment::Stable("Original ".into()),
            Segment::Insertion {
                id: "1".into(),
                author: "Alice".into(),
                date: None,
                text: "new part".into(),
            },
        ],
        vec![],
        Vec::new(),
    )];

    let (blocks, _) = build_paragraph_blocks(&paras, &Vec::<Comment>::new(), "test.docx");
    let para = &blocks[0];

    // base = "Original ", revised = "Original new part" → different, so reviewer_versions populated
    assert_eq!(para.base_text, "Original ");
    assert!(!para.reviewer_versions.is_empty());
    assert_eq!(para.reviewer_versions[0].reviewer_name, "Alice");
    assert_eq!(
        para.reviewer_versions[0].resulting_text,
        "Original new part"
    );
}

#[test]
fn matcher_no_reviewer_versions_when_no_changes() {
    let paras = vec![make_parsed_paragraph(
        0,
        vec![Segment::Stable("Plain text with no changes.".into())],
        vec![],
        Vec::new(),
    )];

    let (blocks, _) = build_paragraph_blocks(&paras, &Vec::<Comment>::new(), "test.docx");
    assert!(
        blocks[0].reviewer_versions.is_empty(),
        "No changes means no versions per author"
    );
    assert!(blocks[0].track_changes.is_empty());
    assert!(!blocks[0].has_conflicts);
}

#[test]
fn matcher_multiple_reviewers_get_colours() {
    let paras = vec![
        make_parsed_paragraph(
            0,
            vec![
                Segment::Stable("P1 ".into()),
                Segment::Insertion {
                    id: "1".into(),
                    author: "Alice".into(),
                    date: None,
                    text: "a".into(),
                },
            ],
            vec![],
            Vec::new(),
        ),
        make_parsed_paragraph(
            1,
            vec![
                Segment::Stable("P2 ".into()),
                Segment::Insertion {
                    id: "2".into(),
                    author: "Bob".into(),
                    date: None,
                    text: "b".into(),
                },
            ],
            vec![],
            Vec::new(),
        ),
        make_parsed_paragraph(
            2,
            vec![
                Segment::Stable("P3 ".into()),
                Segment::Insertion {
                    id: "3".into(),
                    author: "Carol".into(),
                    date: None,
                    text: "c".into(),
                },
            ],
            vec![],
            Vec::new(),
        ),
    ];

    let (_, reviewers) = build_paragraph_blocks(&paras, &Vec::<Comment>::new(), "multi.docx");

    assert_eq!(reviewers.len(), 3);
    // Each author should have a colour assigned
    for r in &reviewers {
        assert!(
            r.colour.starts_with('#'),
            "Colour should be a hex colour: {}",
            r.colour
        );
    }
    // Colours should be from the predefined palette
    let valid_colours = [
        "#EF4444", "#3B82F6", "#10B981", "#F59E0B", "#8B5CF6", "#F97316", "#14B8A6", "#EC4899",
    ];
    for r in &reviewers {
        assert!(
            valid_colours.contains(&r.colour.as_str()),
            "Colour {} should be from palette",
            r.colour
        );
    }
}
