//! Collation of a word-processing document's revision markup: for each
//! paragraph its text before and after the changes, each change with its
//! author and surroundings, its comments, and a roster of the document's authors.
pub mod comments;
pub mod docx;
pub mod matcher;
pub mod paragraphs;
pub mod text;
pub mod track_changes;
pub mod types;
pub mod xml;
