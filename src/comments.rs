//! The comment dictionary: each comment definition of the comments part,
//! with its author, date, initials and text.
use vstd::prelude::*;

use crate::matcher::comments_view;
use crate::paragraphs::or_empty;
use crate::text::{trim, trimmed};
use crate::types::{Comment, CommentView};
use crate::xml::{
    attr_last, attribute_value, attributes_view, events_view, has_local_name, local_name_of,
    read_events, xml_events_of, Attribute, XmlEvent, XmlEventView,
};

verus! {

/// The state of the comment reader between two events.
pub struct CommentScanView {
    /// The comments read so far, in document order.
    pub comments: Seq<CommentView>,
    /// The comment whose closing tag has not been seen yet.
    pub current: Option<CommentView>,
    pub in_comment: bool,
    /// The text gathered for the current comment.
    pub text: Seq<char>,
}

/// A comment as its opening tag describes it, with no text yet.
pub open spec fn comment_of(attrs: Seq<(Seq<char>, Seq<char>)>) -> CommentView {
    CommentView {
        id: or_empty(attr_last(attrs, "id"@)),
        author: or_empty(attr_last(attrs, "author"@)),
        date: attr_last(attrs, "date"@),
        text: Seq::empty(),
        anchor_text: Seq::empty(),
        initials: attr_last(attrs, "initials"@),
    }
}

pub open spec fn open_comment(st: CommentScanView, attrs: Seq<(Seq<char>, Seq<char>)>) -> CommentScanView {
    CommentScanView { current: Some(comment_of(attrs)), in_comment: true, text: Seq::empty(), ..st }
}

/// The comment reader's state after one more event: a comment's text is the
/// text inside it, trimmed.
pub open spec fn comment_step(st: CommentScanView, ev: XmlEventView) -> CommentScanView {
    match ev {
        XmlEventView::Start(el) => {
            if local_name_of(el.name) == "comment"@ {
                open_comment(st, el.attributes)
            } else {
                st
            }
        },
        XmlEventView::Empty(el) => {
            if local_name_of(el.name) == "comment"@ {
                open_comment(st, el.attributes)
            } else {
                st
            }
        },
        XmlEventView::Text(t) => {
            if st.in_comment {
                CommentScanView { text: st.text + t, ..st }
            } else {
                st
            }
        },
        XmlEventView::End(name) => {
            if local_name_of(name) == "comment"@ {
                let comments = match st.current {
                    Some(c) => st.comments.push(CommentView { text: trimmed(st.text), ..c }),
                    None => st.comments,
                };
                CommentScanView { comments, current: None, in_comment: false, text: Seq::empty() }
            } else {
                st
            }
        },
        XmlEventView::Other => st,
    }
}

pub open spec fn comment_scan(evs: Seq<XmlEventView>) -> CommentScanView
    decreases evs.len(),
{
    if evs.len() == 0 {
        CommentScanView { comments: Seq::empty(), current: None, in_comment: false, text: Seq::empty() }
    } else {
        comment_step(comment_scan(evs.drop_last()), evs.last())
    }
}

/// The comments that a sequence of events defines, in document order.
pub open spec fn comments_of(evs: Seq<XmlEventView>) -> Seq<CommentView> {
    comment_scan(evs).comments
}

spec fn current_view(o: Option<Comment>) -> Option<CommentView> {
    match o {
        Some(c) => Some(c@),
        None => None,
    }
}

fn comment_from(attributes: &Vec<Attribute>) -> (r: Comment)
    ensures
        r@ == comment_of(attributes_view(attributes@)),
{
    let id = attribute_value(attributes, "id");
    let author = attribute_value(attributes, "author");
    Comment {
        id: id.unwrap_or(String::new()),
        author: author.unwrap_or(String::new()),
        date: attribute_value(attributes, "date"),
        text: String::new(),
        anchor_text: String::new(),
        initials: attribute_value(attributes, "initials"),
    }
}

/// The comments defined by a sequence of markup events, in document order; a
/// later definition of an id stands for that id.
pub fn parse_comment_events(events: &[XmlEvent]) -> (r: Vec<Comment>)
    ensures
        comments_view(r@) == comments_of(events_view(events@)),
{
    let ghost ev = events_view(events@);
    let mut comments: Vec<Comment> = Vec::new();
    let mut current: Option<Comment> = None;
    let mut in_comment = false;
    let mut text_buf = String::new();
    let mut i: usize = 0;
    assert(comments_view(comments@) =~= Seq::empty());
    while i < events.len()
        invariant
            ev == events_view(events@),
            i <= events@.len(),
            comment_scan(ev.take(i as int)) == (CommentScanView {
                comments: comments_view(comments@),
                current: current_view(current),
                in_comment,
                text: text_buf@,
            }),
        decreases events@.len() - i,
    {
        proof {
            assert(ev.take(i + 1).drop_last() =~= ev.take(i as int));
        }
        match &events[i] {
            XmlEvent::Start(el) => {
                if has_local_name(el.name.as_str(), "comment") {
                    current = Some(comment_from(&el.attributes));
                    in_comment = true;
                    text_buf = String::new();
                }
            },
            XmlEvent::Empty(el) => {
                if has_local_name(el.name.as_str(), "comment") {
                    current = Some(comment_from(&el.attributes));
                    in_comment = true;
                    text_buf = String::new();
                }
            },
            XmlEvent::Text(t) => {
                if in_comment {
                    text_buf.append(t.as_str());
                }
            },
            XmlEvent::End(name) => {
                if has_local_name(name.as_str(), "comment") {
                    match current.take() {
                        Some(mut comment) => {
                            comment.text = trim(text_buf.as_str()).to_owned();
                            comments.push(comment);
                            assert(comments_view(comments@) =~= comments_of(ev.take(i + 1)));
                        },
                        None => {},
                    }
                    in_comment = false;
                    text_buf = String::new();
                }
            },
            XmlEvent::Other => {},
        }
        i += 1;
    }
    assert(ev.take(events@.len() as int) =~= ev);
    comments
}

/// Parse word/comments.xml into its comment definitions, in document order; a
/// later definition of an id stands for that id.
pub fn parse_comments(xml: &str) -> (r: Vec<Comment>)
    ensures
        comments_view(r@) == comments_of(xml_events_of(xml@)),
{
    let events = read_events(xml);
    parse_comment_events(events.as_slice())
}

} // verus!
