//! The document as a whole: its archive, the parts read from it, and the
//! collation assembled from them.
use std::io::Cursor;
use vstd::prelude::*;
use zip::result::ZipError;
use zip::ZipArchive;

use crate::comments::{comments_of, parse_comments};
use crate::matcher::{
    blocks_for, blocks_view, build_paragraph_blocks, encounters, items_fit, items_total, reviewers_view,
    roster,
};
use crate::paragraphs::{paragraphs_of, parse_document};
use crate::text::{trim, trimmed};
use crate::types::{opt_text, CollateResult, Comment};
use crate::xml::{events_view, has_local_name, local_name_of, read_events, xml_events_of, XmlEvent, XmlEventView};

verus! {

#[verifier::external_type_specification]
#[verifier::external_body]
#[verifier::reject_recursive_types(R)]
pub struct ExZipArchive<R>(ZipArchive<R>);

#[verifier::external_type_specification]
#[verifier::external_body]
pub struct ExZipError(ZipError);

#[verifier::external_type_specification]
#[verifier::external_body]
#[verifier::reject_recursive_types(T)]
pub struct ExCursor<T>(Cursor<T>);

/// Where the archive keeps the body.
pub const DOCUMENT_PART: &'static str = "word/document.xml";

/// Where the archive keeps the comment definitions.
pub const COMMENTS_PART: &'static str = "word/comments.xml";

/// Where the archive keeps the document properties.
pub const PROPERTIES_PART: &'static str = "docProps/core.xml";

pub const OPEN_FAILURE: &'static str = "Failed to open ZIP archive: ";

pub const MISSING_DOCUMENT: &'static str = "word/document.xml not found — is this a valid .docx file?";

pub const TOO_LARGE: &'static str = "the document holds more items than can be counted";

// ───────────────────────── the title ─────────────────────────

pub struct TitleScanView {
    pub in_title: bool,
    pub found: Option<Seq<char>>,
}

/// The title reader's state after one more event: the first text inside a
/// title element that is not all whitespace, trimmed, is the title.
pub open spec fn title_step(st: TitleScanView, ev: XmlEventView) -> TitleScanView {
    if st.found is Some {
        st
    } else {
        match ev {
            XmlEventView::Start(el) => {
                if local_name_of(el.name) == "title"@ {
                    TitleScanView { in_title: true, ..st }
                } else {
                    st
                }
            },
            XmlEventView::Text(t) => {
                if st.in_title && trimmed(t).len() > 0 {
                    TitleScanView { found: Some(trimmed(t)), ..st }
                } else {
                    st
                }
            },
            XmlEventView::End(name) => {
                if local_name_of(name) == "title"@ {
                    TitleScanView { in_title: false, ..st }
                } else {
                    st
                }
            },
            _ => st,
        }
    }
}

pub open spec fn title_scan(evs: Seq<XmlEventView>) -> TitleScanView
    decreases evs.len(),
{
    if evs.len() == 0 {
        TitleScanView { in_title: false, found: None }
    } else {
        title_step(title_scan(evs.drop_last()), evs.last())
    }
}

pub open spec fn title_of(evs: Seq<XmlEventView>) -> Option<Seq<char>> {
    title_scan(evs).found
}

/// The document title that a sequence of property events holds.
pub fn title_from_events(events: &[XmlEvent]) -> (r: Option<String>)
    ensures
        opt_text(r) == title_of(events_view(events@)),
{
    let ghost ev = events_view(events@);
    let mut in_title = false;
    let mut found: Option<String> = None;
    let mut i: usize = 0;
    while i < events.len()
        invariant
            ev == events_view(events@),
            i <= events@.len(),
            title_scan(ev.take(i as int)) == (TitleScanView { in_title, found: opt_text(found) }),
        decreases events@.len() - i,
    {
        proof {
            assert(ev.take(i + 1).drop_last() =~= ev.take(i as int));
        }
        if found.is_none() {
            match &events[i] {
                XmlEvent::Start(el) => {
                    if has_local_name(el.name.as_str(), "title") {
                        in_title = true;
                    }
                },
                XmlEvent::Text(t) => {
                    if in_title {
                        let title = trim(t.as_str());
                        if title.unicode_len() > 0 {
                            found = Some(title.to_owned());
                        }
                    }
                },
                XmlEvent::End(name) => {
                    if has_local_name(name.as_str(), "title") {
                        in_title = false;
                    }
                },
                _ => {},
            }
        }
        i += 1;
    }
    assert(ev.take(events@.len() as int) =~= ev);
    found
}

/// The title held by docProps/core.xml, if any.
pub fn extract_title(core_xml: &str) -> (r: Option<String>)
    ensures
        opt_text(r) == title_of(xml_events_of(core_xml@)),
{
    let events = read_events(core_xml);
    title_from_events(events.as_slice())
}

// ───────────────────────── the collation ─────────────────────────

pub open spec fn opt_str(o: Option<&str>) -> Option<Seq<char>> {
    match o {
        Some(s) => Some(s@),
        None => None,
    }
}

/// `res` is the collation of a document whose body, comment definitions and
/// properties are `doc`, `comments` and `core`.
pub open spec fn collated(
    res: CollateResult,
    doc: Seq<char>,
    comments: Option<Seq<char>>,
    core: Option<Seq<char>>,
    file: Seq<char>,
) -> bool {
    let ps = paragraphs_of(xml_events_of(doc));
    let dict = match comments {
        Some(c) => comments_of(xml_events_of(c)),
        None => Seq::empty(),
    };
    &&& blocks_view(res.paragraphs@) == blocks_for(ps, dict)
    &&& reviewers_view(res.reviewers@) == roster(encounters(blocks_view(res.paragraphs@)), file)
    &&& opt_text(res.document_title) == match core {
        Some(x) => title_of(xml_events_of(x)),
        None => None,
    }
    &&& res.error is None
}

/// The collation of a document from the text of its parts: the body, and the
/// comment definitions and properties where the document has them.
pub fn collate(
    document_xml: &str,
    comments_xml: Option<&str>,
    core_xml: Option<&str>,
    file_name: &str,
) -> (r: Result<CollateResult, String>)
    ensures
        match r {
            Ok(res) => collated(res, document_xml@, opt_str(comments_xml), opt_str(core_xml), file_name@),
            Err(e) => items_total(paragraphs_of(xml_events_of(document_xml@))) > usize::MAX && e@
                == TOO_LARGE@,
        },
{
    let comments_map: Vec<Comment> = match comments_xml {
        Some(xml) => parse_comments(xml),
        None => Vec::new(),
    };
    proof {
        if comments_xml is None {
            assert(crate::matcher::comments_view(comments_map@) =~= Seq::empty());
        }
    }
    let parsed_paragraphs = parse_document(document_xml);
    if !items_fit(parsed_paragraphs.as_slice()) {
        return Err(TOO_LARGE.to_owned());
    }
    let (paragraphs, reviewers) = build_paragraph_blocks(
        parsed_paragraphs.as_slice(),
        comments_map.as_slice(),
        file_name,
    );
    let document_title = match core_xml {
        Some(xml) => extract_title(xml),
        None => None,
    };
    Ok(CollateResult { paragraphs, reviewers, document_title, error: None })
}

/// In a collation, the paragraph blocks are numbered 0, 1, 2, ... in body
/// order.
pub proof fn lemma_block_indices(
    res: CollateResult,
    doc: Seq<char>,
    comments: Option<Seq<char>>,
    core: Option<Seq<char>>,
    file: Seq<char>,
)
    requires
        collated(res, doc, comments, core, file),
    ensures
        forall|k: int| 0 <= k < res.paragraphs@.len() ==> (#[trigger] res.paragraphs@[k]).index == k,
{
    let ps = paragraphs_of(xml_events_of(doc));
    crate::paragraphs::lemma_emitted_paragraphs(xml_events_of(doc));
    assert forall|k: int| 0 <= k < res.paragraphs@.len() implies (#[trigger] res.paragraphs@[k]).index
        == k by {
        assert(blocks_view(res.paragraphs@)[k] == res.paragraphs@[k]@);
        assert(ps[k].index == k);
    }
}

// ───────────────────────── the archive ─────────────────────────

/// Whether zip can read an archive's central directory from these bytes. It
/// depends on the bytes alone.
pub uninterp spec fn archive_opens(data: Seq<u8>) -> bool;

/// The text of the archive entry at `path`, where the archive opens, has that
/// entry, and it reads as UTF-8. It depends on the bytes and the path alone.
pub uninterp spec fn archive_part(data: Seq<u8>, path: Seq<char>) -> Option<Seq<char>>;

/// Relies on zip's `ZipArchive::new`: reads the archive's central directory
/// from the bytes, or fails.
#[verifier::external_body]
fn open_archive(data: &[u8]) -> (r: Result<ZipArchive<Cursor<&[u8]>>, ZipError>)
    ensures
        (r is Ok) == archive_opens(data@),
{
    ZipArchive::new(Cursor::new(data))
}

/// Relies on zip's `Display` for `ZipError`: the error's message.
#[verifier::external_body]
fn zip_error_message(e: &ZipError) -> String {
    e.to_string()
}

/// Relies on zip's `ZipArchive::new` and `ZipArchive::by_name`, with std's
/// `Read::read_to_string` on the entry found: the entry's text, or None where
/// the archive does not open, has no entry at `path`, or it is not UTF-8.
#[verifier::external_body]
fn read_part(data: &[u8], path: &str) -> (r: Option<String>)
    ensures
        opt_text(r) == archive_part(data@, path@),
{
    let mut archive = ZipArchive::new(Cursor::new(data)).ok()?;
    let mut file = archive.by_name(path).ok()?;
    let mut contents = String::new();
    std::io::Read::read_to_string(&mut file, &mut contents).ok()?;
    Some(contents)
}

/// Parse a .docx file from raw bytes. An archive that cannot be opened is an
/// error that starts with `OPEN_FAILURE`; one without the body is the
/// `MISSING_DOCUMENT` error; otherwise the result is the collation of the body,
/// comment definitions and properties read from it.
pub fn parse(data: &[u8], file_name: &str) -> (r: Result<CollateResult, String>)
    ensures
        !archive_opens(data@) ==> r is Err && OPEN_FAILURE@.len() <= r->Err_0@.len()
            && r->Err_0@.take(OPEN_FAILURE@.len() as int) == OPEN_FAILURE@,
        archive_opens(data@) && archive_part(data@, DOCUMENT_PART@) is None ==> r is Err
            && r->Err_0@ == MISSING_DOCUMENT@,
        archive_opens(data@) && archive_part(data@, DOCUMENT_PART@) is Some ==> {
            let doc = archive_part(data@, DOCUMENT_PART@)->0;
            match r {
                Ok(res) => collated(
                    res,
                    doc,
                    archive_part(data@, COMMENTS_PART@),
                    archive_part(data@, PROPERTIES_PART@),
                    file_name@,
                ),
                Err(e) => items_total(paragraphs_of(xml_events_of(doc))) > usize::MAX && e@
                    == TOO_LARGE@,
            }
        },
{
    match open_archive(data) {
        Ok(_) => {},
        Err(e) => {
            let mut message = OPEN_FAILURE.to_owned();
            let detail = zip_error_message(&e);
            message.append(detail.as_str());
            assert(message@.take(OPEN_FAILURE@.len() as int) =~= OPEN_FAILURE@);
            return Err(message);
        },
    }
    let document_xml = match read_part(data, DOCUMENT_PART) {
        Some(xml) => xml,
        None => {
            return Err(MISSING_DOCUMENT.to_owned());
        },
    };
    let comments_xml = read_part(data, COMMENTS_PART);
    let core_xml = read_part(data, PROPERTIES_PART);
    let comments_ref: Option<&str> = match &comments_xml {
        Some(x) => Some(x.as_str()),
        None => None,
    };
    let core_ref: Option<&str> = match &core_xml {
        Some(x) => Some(x.as_str()),
        None => None,
    };
    collate(document_xml.as_str(), comments_ref, core_ref, file_name)
}

} // verus!
