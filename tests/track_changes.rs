use collate_core::track_changes::{base_text, extract_changes, revised_text, Segment};
use collate_core::types::ChangeType;

#[test]
fn track_base_text_only_stable() {
    let segments = vec![
        Segment::Stable("Hello ".to_string()),
        Segment::Stable("world".to_string()),
    ];
    assert_eq!(base_text(&segments), "Hello world");
}

#[test]
fn track_base_text_with_deletions() {
    // Deleted text existed before the changes, so base_text includes it
    let segments = vec![
        Segment::Stable("The ".to_string()),
        Segment::Deletion {
            id: "1".into(),
            author: "Bob".into(),
            date: None,
            text: "quick ".to_string(),
        },
        Segment::Stable("fox".to_string()),
    ];
    assert_eq!(base_text(&segments), "The quick fox");
}

#[test]
fn track_base_text_with_insertions() {
    // Inserted text did NOT exist before the changes, so base_text excludes it
    let segments = vec![
        Segment::Stable("The ".to_string()),
        Segment::Insertion {
            id: "1".into(),
            author: "Alice".into(),
            date: None,
            text: "brown ".to_string(),
        },
        Segment::Stable("fox".to_string()),
    ];
    assert_eq!(base_text(&segments), "The fox");
}

#[test]
fn track_revised_text_with_deletions() {
    // Deleted text is removed in revised
    let segments = vec![
        Segment::Stable("The ".to_string()),
        Segment::Deletion {
            id: "1".into(),
            author: "Bob".into(),
            date: None,
            text: "old ".to_string(),
        },
        Segment::Stable("fox".to_string()),
    ];
    assert_eq!(revised_text(&segments), "The fox");
}

#[test]
fn track_revised_text_with_insertions() {
    // Inserted text appears in revised
    let segments = vec![
        Segment::Stable("The ".to_string()),
        Segment::Insertion {
            id: "1".into(),
            author: "Alice".into(),
            date: None,
            text: "quick ".to_string(),
        },
        Segment::Stable("fox".to_string()),
    ];
    assert_eq!(revised_text(&segments), "The quick fox");
}

#[test]
fn track_base_and_revised_with_mixed_changes() {
    let segments = vec![
        Segment::Stable("Hello ".to_string()),
        Segment::Deletion {
            id: "1".into(),
            author: "Bob".into(),
            date: Some("2024-01-01T00:00:00Z".into()),
            text: "cruel ".to_string(),
        },
        Segment::Insertion {
            id: "2".into(),
            author: "Alice".into(),
            date: Some("2024-01-02T00:00:00Z".into()),
            text: "beautiful ".to_string(),
        },
        Segment::Stable("world".to_string()),
    ];
    assert_eq!(base_text(&segments), "Hello cruel world");
    assert_eq!(
        revised_text(&segments),
        "Hello beautiful world"
    );
}

#[test]
fn track_extract_changes_produces_correct_structs() {
    let segments = vec![
        Segment::Stable("AAA ".to_string()),
        Segment::Deletion {
            id: "10".into(),
            author: "Bob".into(),
            date: Some("2024-06-01T00:00:00Z".into()),
            text: "BBB".to_string(),
        },
        Segment::Stable(" CCC ".to_string()),
        Segment::Insertion {
            id: "20".into(),
            author: "Alice".into(),
            date: Some("2024-06-02T00:00:00Z".into()),
            text: "DDD".to_string(),
        },
        Segment::Stable(" EEE".to_string()),
    ];

    let changes = extract_changes(&segments);
    assert_eq!(changes.len(), 2);

    // First change: deletion
    let del = &changes[0];
    assert_eq!(del.id, "10");
    assert!(matches!(del.change_type, ChangeType::Deletion));
    assert_eq!(del.author, "Bob");
    assert_eq!(del.date.as_deref(), Some("2024-06-01T00:00:00Z"));
    assert_eq!(del.original_text, "BBB");
    assert_eq!(del.new_text, "");

    // Second change: insertion
    let ins = &changes[1];
    assert_eq!(ins.id, "20");
    assert!(matches!(ins.change_type, ChangeType::Insertion));
    assert_eq!(ins.author, "Alice");
    assert_eq!(ins.date.as_deref(), Some("2024-06-02T00:00:00Z"));
    assert_eq!(ins.original_text, "");
    assert_eq!(ins.new_text, "DDD");
}

#[test]
fn track_context_before_and_after() {
    // Use text long enough to verify context window (30 chars)
    let segments = vec![
        Segment::Stable("Prefix text before the change ".to_string()), // 30 chars
        Segment::Deletion {
            id: "1".into(),
            author: "X".into(),
            date: None,
            text: "DELETED".to_string(),
        },
        Segment::Stable(" suffix text after the change.".to_string()), // 30 chars
    ];

    let changes = extract_changes(&segments);
    assert_eq!(changes.len(), 1);

    let c = &changes[0];
    // context_before should be up to 30 chars before the deletion position
    assert_eq!(c.context_before, "Prefix text before the change ");
    // context_after should be up to 30 chars after the deletion end
    assert_eq!(c.context_after, " suffix text after the change.");
}

#[test]
fn track_context_short_text() {
    // When text is shorter than 30 chars, context should be the whole available text
    let segments = vec![
        Segment::Stable("Hi ".to_string()),
        Segment::Insertion {
            id: "1".into(),
            author: "X".into(),
            date: None,
            text: "NEW".to_string(),
        },
        Segment::Stable(" bye".to_string()),
    ];

    let changes = extract_changes(&segments);
    let c = &changes[0];
    assert_eq!(c.context_before, "Hi ");
    assert_eq!(c.context_after, " bye");
}

#[test]
fn track_empty_segments() {
    let segments: Vec<Segment> = vec![];
    assert_eq!(base_text(&segments), "");
    assert_eq!(revised_text(&segments), "");
    assert!(extract_changes(&segments).is_empty());
}
