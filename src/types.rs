//! The data handed out by the library, with the mathematical view of each type.
use vstd::prelude::*;

verus! {

/// The view of an optional string: the characters it holds, if any.
pub open spec fn opt_text(o: Option<String>) -> Option<Seq<char>> {
    match o {
        Some(s) => Some(s@),
        None => None,
    }
}

/// Copies an optional string.
pub fn clone_opt_text(o: &Option<String>) -> (r: Option<String>)
    ensures
        opt_text(r) == opt_text(*o),
{
    match o {
        Some(s) => Some(s.clone()),
        None => None,
    }
}

/// Whether an author inserted or deleted a run of text.
#[derive(Clone, Copy, Debug, PartialEq, Eq, Structural)]
pub enum ChangeType {
    Insertion,
    Deletion,
}

/// Indicates whether a paragraph is wholly new, wholly deleted, or a normal
/// paragraph that may contain inline changes.
#[derive(Clone, Copy, Debug, PartialEq, Eq, Structural)]
pub enum ParagraphStatus {
    /// Paragraph existed before the changes and may contain inline changes
    Normal,
    /// Entire paragraph was inserted by an author (no base text exists)
    WhollyInserted,
    /// Entire paragraph was deleted by an author (no revised text exists)
    WhollyDeleted,
}

/// One insertion or deletion, with the base text around it.
#[derive(Clone, Debug)]
pub struct TrackChange {
    pub id: String,
    pub change_type: ChangeType,
    pub author: String,
    pub date: Option<String>,
    pub original_text: String,
    pub new_text: String,
    pub context_before: String,
    pub context_after: String,
}

pub struct TrackChangeView {
    pub id: Seq<char>,
    pub change_type: ChangeType,
    pub author: Seq<char>,
    pub date: Option<Seq<char>>,
    pub original_text: Seq<char>,
    pub new_text: Seq<char>,
    pub context_before: Seq<char>,
    pub context_after: Seq<char>,
}

impl View for TrackChange {
    type V = TrackChangeView;

    open spec fn view(&self) -> TrackChangeView {
        TrackChangeView {
            id: self.id@,
            change_type: self.change_type,
            author: self.author@,
            date: opt_text(self.date),
            original_text: self.original_text@,
            new_text: self.new_text@,
            context_before: self.context_before@,
            context_after: self.context_after@,
        }
    }
}

/// A comment on the document, with the text of the range it is anchored to.
#[derive(Clone, Debug)]
pub struct Comment {
    pub id: String,
    pub author: String,
    pub date: Option<String>,
    pub text: String,
    pub anchor_text: String,
    pub initials: Option<String>,
}

pub struct CommentView {
    pub id: Seq<char>,
    pub author: Seq<char>,
    pub date: Option<Seq<char>>,
    pub text: Seq<char>,
    pub anchor_text: Seq<char>,
    pub initials: Option<Seq<char>>,
}

impl View for Comment {
    type V = CommentView;

    open spec fn view(&self) -> CommentView {
        CommentView {
            id: self.id@,
            author: self.author@,
            date: opt_text(self.date),
            text: self.text@,
            anchor_text: self.anchor_text@,
            initials: opt_text(self.initials),
        }
    }
}

/// The text of a paragraph as one author's changes leave it.
#[derive(Clone, Debug)]
pub struct ReviewerVersion {
    pub reviewer_name: String,
    pub resulting_text: String,
}

pub struct ReviewerVersionView {
    pub reviewer_name: Seq<char>,
    pub resulting_text: Seq<char>,
}

impl View for ReviewerVersion {
    type V = ReviewerVersionView;

    open spec fn view(&self) -> ReviewerVersionView {
        ReviewerVersionView { reviewer_name: self.reviewer_name@, resulting_text: self.resulting_text@ }
    }
}

/// One paragraph of the collation view.
#[derive(Clone, Debug)]
pub struct ParagraphBlock {
    pub index: usize,
    pub base_text: String,
    /// The full revised text after all changes (for display when the paragraph is wholly new)
    pub revised_text: String,
    pub paragraph_status: ParagraphStatus,
    /// Author who inserted/deleted this paragraph (only set for WhollyInserted/WhollyDeleted)
    pub paragraph_change_author: Option<String>,
    pub reviewer_versions: Vec<ReviewerVersion>,
    pub comments: Vec<Comment>,
    pub track_changes: Vec<TrackChange>,
    pub has_conflicts: bool,
}

pub struct ParagraphBlockView {
    pub index: int,
    pub base_text: Seq<char>,
    pub revised_text: Seq<char>,
    pub paragraph_status: ParagraphStatus,
    pub paragraph_change_author: Option<Seq<char>>,
    pub reviewer_versions: Seq<ReviewerVersionView>,
    pub comments: Seq<CommentView>,
    pub track_changes: Seq<TrackChangeView>,
    pub has_conflicts: bool,
}

impl View for ParagraphBlock {
    type V = ParagraphBlockView;

    open spec fn view(&self) -> ParagraphBlockView {
        ParagraphBlockView {
            index: self.index as int,
            base_text: self.base_text@,
            revised_text: self.revised_text@,
            paragraph_status: self.paragraph_status,
            paragraph_change_author: opt_text(self.paragraph_change_author),
            reviewer_versions: self.reviewer_versions@.map_values(|v: ReviewerVersion| v@),
            comments: self.comments@.map_values(|c: Comment| c@),
            track_changes: self.track_changes@.map_values(|c: TrackChange| c@),
            has_conflicts: self.has_conflicts,
        }
    }
}

/// One distinct author of the document, with what they contributed.
#[derive(Clone, Debug)]
pub struct Reviewer {
    pub name: String,
    pub file_name: String,
    pub comment_count: usize,
    pub change_count: usize,
    pub colour: String,
}

pub struct ReviewerView {
    pub name: Seq<char>,
    pub file_name: Seq<char>,
    pub comment_count: int,
    pub change_count: int,
    pub colour: Seq<char>,
}

impl View for Reviewer {
    type V = ReviewerView;

    open spec fn view(&self) -> ReviewerView {
        ReviewerView {
            name: self.name@,
            file_name: self.file_name@,
            comment_count: self.comment_count as int,
            change_count: self.change_count as int,
            colour: self.colour@,
        }
    }
}

/// The whole collation of one document.
#[derive(Clone, Debug)]
pub struct CollateResult {
    pub paragraphs: Vec<ParagraphBlock>,
    pub reviewers: Vec<Reviewer>,
    pub document_title: Option<String>,
    pub error: Option<String>,
}

} // verus!
