//! Paragraph classification, comment attachment, conflict detection and the
//! roster of authors.
use vstd::prelude::*;

use crate::paragraphs::{paragraphs_view, ParsedParagraph, ParsedParagraphView};
use crate::text::{blank, is_blank, lemma_blank_concat};
use crate::track_changes::{
    base_of, base_text, changes_of, changes_view, extract_changes, revised_of, revised_text,
    segments_view, Segment, SegmentView,
};
use crate::types::{
    clone_opt_text, Comment, CommentView, ParagraphBlock, ParagraphBlockView, ParagraphStatus,
    Reviewer, ReviewerVersion, ReviewerVersionView, ReviewerView, TrackChangeView,
};

verus! {

// ───────────────────────── classification ─────────────────────────

/// Some stable segment holds a character other than whitespace.
pub open spec fn has_solid_stable(segs: Seq<SegmentView>) -> bool {
    exists|i: int| 0 <= i < segs.len() && #[trigger] segs[i] is Stable && !is_blank(segs[i].text())
}

pub open spec fn has_insertion(segs: Seq<SegmentView>) -> bool {
    exists|i: int| 0 <= i < segs.len() && #[trigger] segs[i] is Insertion
}

pub open spec fn has_deletion(segs: Seq<SegmentView>) -> bool {
    exists|i: int| 0 <= i < segs.len() && #[trigger] segs[i] is Deletion
}

/// The author of the last deletion (`deletion`) or of the last insertion.
pub open spec fn last_author(segs: Seq<SegmentView>, deletion: bool) -> Option<Seq<char>>
    decreases segs.len(),
{
    if segs.len() == 0 {
        None
    } else if (deletion && segs.last() is Deletion) || (!deletion && segs.last() is Insertion) {
        Some(segs.last().author())
    } else {
        last_author(segs.drop_last(), deletion)
    }
}

pub open spec fn status_of(segs: Seq<SegmentView>) -> ParagraphStatus {
    if !has_solid_stable(segs) && has_insertion(segs) && !has_deletion(segs) {
        ParagraphStatus::WhollyInserted
    } else if !has_solid_stable(segs) && has_deletion(segs) && !has_insertion(segs) {
        ParagraphStatus::WhollyDeleted
    } else {
        ParagraphStatus::Normal
    }
}

/// Who inserted or deleted the whole paragraph, if one did.
pub open spec fn change_author_of(segs: Seq<SegmentView>) -> Option<Seq<char>> {
    match status_of(segs) {
        ParagraphStatus::WhollyInserted => last_author(segs, false),
        ParagraphStatus::WhollyDeleted => last_author(segs, true),
        ParagraphStatus::Normal => None,
    }
}

proof fn lemma_last_author_step(segs: Seq<SegmentView>, i: int, deletion: bool)
    requires
        0 <= i < segs.len(),
    ensures
        last_author(segs.take(i + 1), deletion) == if (deletion && segs[i] is Deletion) || (
        !deletion && segs[i] is Insertion) {
            Some(segs[i].author())
        } else {
            last_author(segs.take(i), deletion)
        },
{
    assert(segs.take(i + 1).drop_last() =~= segs.take(i));
}

/// Classify a paragraph based on its segments:
/// - WhollyInserted: some insertion, no deletion, and no stable text but whitespace
/// - WhollyDeleted: some deletion, no insertion, and no stable text but whitespace
/// - Normal: any other mix
///
/// Also returns the author responsible for the wholesale change (if any).
pub fn classify_paragraph(segments: &[Segment]) -> (r: (ParagraphStatus, Option<String>))
    ensures
        r.0 == status_of(segments_view(segments@)),
        crate::types::opt_text(r.1) == change_author_of(segments_view(segments@)),
{
    let ghost sv = segments_view(segments@);
    let mut has_stable = false;
    let mut has_ins = false;
    let mut has_del = false;
    let mut ins_author: Option<String> = None;
    let mut del_author: Option<String> = None;
    let mut i: usize = 0;
    while i < segments.len()
        invariant
            sv == segments_view(segments@),
            i <= segments@.len(),
            has_stable == has_solid_stable(sv.take(i as int)),
            has_ins == has_insertion(sv.take(i as int)),
            has_del == has_deletion(sv.take(i as int)),
            crate::types::opt_text(ins_author) == last_author(sv.take(i as int), false),
            crate::types::opt_text(del_author) == last_author(sv.take(i as int), true),
        decreases segments@.len() - i,
    {
        let ghost pre = sv.take(i as int);
        let ghost next = sv.take(i + 1);
        proof {
            lemma_last_author_step(sv, i as int, false);
            lemma_last_author_step(sv, i as int, true);
            assert forall|j: int| 0 <= j < i implies #[trigger] next[j] == pre[j] by {}
            assert(next[i as int] == sv[i as int]);
        }
        match &segments[i] {
            Segment::Stable(t) => {
                if !blank(t.as_str()) {
                    has_stable = true;
                }
            },
            Segment::Insertion { author, .. } => {
                has_ins = true;
                ins_author = Some(author.clone());
            },
            Segment::Deletion { author, .. } => {
                has_del = true;
                del_author = Some(author.clone());
            },
        }
        proof {
            if has_solid_stable(next) {
                let j = choose|j: int|
                    0 <= j < next.len() && #[trigger] next[j] is Stable && !is_blank(next[j].text());
                if j < i {
                    assert(pre[j] is Stable);
                }
            }
            if has_solid_stable(pre) {
                let j = choose|j: int|
                    0 <= j < pre.len() && #[trigger] pre[j] is Stable && !is_blank(pre[j].text());
                assert(next[j] is Stable);
            }
            if has_insertion(next) {
                let j = choose|j: int| 0 <= j < next.len() && #[trigger] next[j] is Insertion;
                if j < i {
                    assert(pre[j] is Insertion);
                }
            }
            if has_insertion(pre) {
                let j = choose|j: int| 0 <= j < pre.len() && #[trigger] pre[j] is Insertion;
                assert(next[j] is Insertion);
            }
            if has_deletion(next) {
                let j = choose|j: int| 0 <= j < next.len() && #[trigger] next[j] is Deletion;
                if j < i {
                    assert(pre[j] is Deletion);
                }
            }
            if has_deletion(pre) {
                let j = choose|j: int| 0 <= j < pre.len() && #[trigger] pre[j] is Deletion;
                assert(next[j] is Deletion);
            }
            if next[i as int] is Stable && !is_blank(next[i as int].text()) {
                assert(has_solid_stable(next));
            }
        }
        i += 1;
    }
    proof {
        assert(sv.take(segments@.len() as int) =~= sv);
    }
    if !has_stable && has_ins && !has_del {
        (ParagraphStatus::WhollyInserted, ins_author)
    } else if !has_stable && has_del && !has_ins {
        (ParagraphStatus::WhollyDeleted, del_author)
    } else {
        (ParagraphStatus::Normal, None)
    }
}

// ───────────────────────── comments ─────────────────────────

/// The position of the last comment with this id, or -1: a later definition
/// of an id replaces an earlier one.
pub open spec fn comment_position(dict: Seq<CommentView>, id: Seq<char>) -> int
    decreases dict.len(),
{
    if dict.len() == 0 {
        -1
    } else if dict.last().id == id {
        dict.len() - 1
    } else {
        comment_position(dict.drop_last(), id)
    }
}

/// The position of the last anchor text recorded for this id, or -1.
pub open spec fn anchor_position(anchors: Seq<(Seq<char>, Seq<char>)>, id: Seq<char>) -> int
    decreases anchors.len(),
{
    if anchors.len() == 0 {
        -1
    } else if anchors.last().0 == id {
        anchors.len() - 1
    } else {
        anchor_position(anchors.drop_last(), id)
    }
}

/// A copy of the comment whose anchor text is the one the paragraph captured
/// for `id`, where it captured one.
pub open spec fn with_anchor(c: CommentView, anchors: Seq<(Seq<char>, Seq<char>)>, id: Seq<char>) -> CommentView {
    let k = anchor_position(anchors, id);
    if k >= 0 {
        CommentView {
            id: c.id,
            author: c.author,
            date: c.date,
            text: c.text,
            anchor_text: anchors[k].1,
            initials: c.initials,
        }
    } else {
        c
    }
}

/// The comments attached for the first `n` comment ids of the paragraph: ids
/// with no definition are dropped.
pub open spec fn attached_upto(p: ParsedParagraphView, dict: Seq<CommentView>, n: int) -> Seq<CommentView>
    decreases n,
{
    if n <= 0 {
        Seq::empty()
    } else {
        let prev = attached_upto(p, dict, n - 1);
        let id = p.comment_ids[n - 1];
        let k = comment_position(dict, id);
        if k >= 0 {
            prev.push(with_anchor(dict[k], p.comment_anchor_texts, id))
        } else {
            prev
        }
    }
}

pub open spec fn attached_comments(p: ParsedParagraphView, dict: Seq<CommentView>) -> Seq<CommentView> {
    attached_upto(p, dict, p.comment_ids.len() as int)
}

pub open spec fn comments_view(s: Seq<Comment>) -> Seq<CommentView> {
    s.map_values(|c: Comment| c@)
}

fn find_comment(dict: &[Comment], id: &String) -> (r: Option<usize>)
    ensures
        match r {
            Some(k) => k < dict@.len() && k == comment_position(comments_view(dict@), id@),
            None => comment_position(comments_view(dict@), id@) == -1,
        },
{
    let ghost cv = comments_view(dict@);
    let mut i: usize = dict.len();
    assert(cv.take(i as int) =~= cv);
    while i > 0
        invariant
            cv == comments_view(dict@),
            i <= dict@.len(),
            comment_position(cv, id@) == comment_position(cv.take(i as int), id@),
        decreases i,
    {
        assert(cv.take(i as int).drop_last() =~= cv.take(i - 1));
        if dict[i - 1].id == *id {
            return Some(i - 1);
        }
        i -= 1;
    }
    None
}

fn find_anchor(anchors: &[(String, String)], id: &String) -> (r: Option<usize>)
    ensures
        match r {
            Some(k) => k < anchors@.len() && k == anchor_position(
                crate::paragraphs::pairs_view(anchors@),
                id@,
            ),
            None => anchor_position(crate::paragraphs::pairs_view(anchors@), id@) == -1,
        },
{
    let ghost av = crate::paragraphs::pairs_view(anchors@);
    let mut i: usize = anchors.len();
    assert(av.take(i as int) =~= av);
    while i > 0
        invariant
            av == crate::paragraphs::pairs_view(anchors@),
            i <= anchors@.len(),
            anchor_position(av, id@) == anchor_position(av.take(i as int), id@),
        decreases i,
    {
        assert(av.take(i as int).drop_last() =~= av.take(i - 1));
        if anchors[i - 1].0 == *id {
            return Some(i - 1);
        }
        i -= 1;
    }
    None
}

fn copy_comment(c: &Comment) -> (r: Comment)
    ensures
        r@ == c@,
{
    Comment {
        id: c.id.clone(),
        author: c.author.clone(),
        date: clone_opt_text(&c.date),
        text: c.text.clone(),
        anchor_text: c.anchor_text.clone(),
        initials: clone_opt_text(&c.initials),
    }
}

/// The comments that a paragraph references, each a fresh copy of its
/// definition carrying the paragraph's anchor text.
fn attach_comments(para: &ParsedParagraph, comments_map: &[Comment]) -> (r: Vec<Comment>)
    ensures
        comments_view(r@) == attached_comments(para@, comments_view(comments_map@)),
{
    let ghost p = para@;
    let ghost dict = comments_view(comments_map@);
    let mut out: Vec<Comment> = Vec::new();
    let mut i: usize = 0;
    while i < para.comment_ids.len()
        invariant
            p == para@,
            dict == comments_view(comments_map@),
            i <= para.comment_ids@.len(),
            comments_view(out@) == attached_upto(p, dict, i as int),
        decreases para.comment_ids@.len() - i,
    {
        let cid = &para.comment_ids[i];
        match find_comment(comments_map, cid) {
            Some(k) => {
                let mut c = copy_comment(&comments_map[k]);
                match find_anchor(&para.comment_anchor_texts, cid) {
                    Some(a) => {
                        c.anchor_text = para.comment_anchor_texts[a].1.clone();
                    },
                    None => {},
                }
                out.push(c);
                proof {
                    assert(comments_view(out@) =~= attached_upto(p, dict, i + 1));
                }
            },
            None => {},
        }
        i += 1;
    }
    out
}

// ───────────────────────── authors and conflicts ─────────────────────────

/// The distinct entries of `s`, in the order of their first occurrence.
pub open spec fn first_occurrences(s: Seq<Seq<char>>) -> Seq<Seq<char>>
    decreases s.len(),
{
    if s.len() == 0 {
        Seq::empty()
    } else {
        let prev = first_occurrences(s.drop_last());
        if prev.contains(s.last()) {
            prev
        } else {
            prev.push(s.last())
        }
    }
}

pub open spec fn record_authors(recs: Seq<TrackChangeView>) -> Seq<Seq<char>> {
    recs.map_values(|r: TrackChangeView| r.author)
}

/// The distinct authors of a paragraph's changes, in order of first appearance.
pub open spec fn change_authors(segs: Seq<SegmentView>) -> Seq<Seq<char>> {
    first_occurrences(record_authors(changes_of(segs)))
}

/// The distinct authors of the changes, in order of first appearance.
fn distinct_authors(changes: &Vec<crate::types::TrackChange>) -> (r: Vec<String>)
    ensures
        crate::paragraphs::texts_view(r@) == first_occurrences(record_authors(changes_view(changes@))),
{
    let ghost authors = record_authors(changes_view(changes@));
    let mut out: Vec<String> = Vec::new();
    let mut i: usize = 0;
    while i < changes.len()
        invariant
            authors == record_authors(changes_view(changes@)),
            i <= changes@.len(),
            crate::paragraphs::texts_view(out@) == first_occurrences(authors.take(i as int)),
        decreases changes@.len() - i,
    {
        let a = &changes[i].author;
        let mut found = false;
        let mut j: usize = 0;
        while j < out.len()
            invariant
                j <= out@.len(),
                found == (exists|k: int| 0 <= k < j && #[trigger] out@[k]@ == a@),
            decreases out@.len() - j,
        {
            if out[j] == *a {
                found = true;
            }
            j += 1;
        }
        proof {
            let ov = crate::paragraphs::texts_view(out@);
            assert(authors.take(i + 1).drop_last() =~= authors.take(i as int));
            assert(authors.take(i + 1).last() == a@);
            if found {
                let k = choose|k: int| 0 <= k < out@.len() && #[trigger] out@[k]@ == a@;
                assert(ov[k] == a@);
            }
            if ov.contains(a@) {
                let k = choose|k: int| 0 <= k < ov.len() && ov[k] == a@;
                assert(out@[k]@ == a@);
            }
        }
        if !found {
            out.push(a.clone());
            proof {
                assert(crate::paragraphs::texts_view(out@) =~= first_occurrences(authors.take(i + 1)));
            }
        }
        i += 1;
    }
    assert(authors.take(changes@.len() as int) =~= authors);
    out
}

// ───────────────────────── paragraph blocks ─────────────────────────

/// The block's text before the changes: none for a wholly inserted paragraph.
pub open spec fn block_base_text(segs: Seq<SegmentView>) -> Seq<char> {
    if status_of(segs) == ParagraphStatus::WhollyInserted {
        Seq::empty()
    } else {
        base_of(segs)
    }
}

/// The block's text after the changes: none for a wholly deleted paragraph.
pub open spec fn block_revised_text(segs: Seq<SegmentView>) -> Seq<char> {
    if status_of(segs) == ParagraphStatus::WhollyDeleted {
        Seq::empty()
    } else {
        revised_of(segs)
    }
}

/// The block that a paragraph becomes.
pub open spec fn block_of(p: ParsedParagraphView, dict: Seq<CommentView>) -> ParagraphBlockView {
    let segs = p.segments;
    let base = block_base_text(segs);
    let revised = block_revised_text(segs);
    let authors = change_authors(segs);
    ParagraphBlockView {
        index: p.index,
        base_text: base,
        revised_text: revised,
        paragraph_status: status_of(segs),
        paragraph_change_author: change_author_of(segs),
        reviewer_versions: if base != revised {
            authors.map_values(
                |a: Seq<char>| ReviewerVersionView { reviewer_name: a, resulting_text: revised },
            )
        } else {
            Seq::empty()
        },
        comments: attached_comments(p, dict),
        track_changes: changes_of(segs),
        has_conflicts: authors.len() > 1,
    }
}

/// The block of one paragraph.
pub fn build_block(para: &ParsedParagraph, comments_map: &[Comment]) -> (r: ParagraphBlock)
    ensures
        r@ == block_of(para@, comments_view(comments_map@)),
{
    let (paragraph_status, paragraph_change_author) = classify_paragraph(para.segments.as_slice());
    let base = if paragraph_status == ParagraphStatus::WhollyInserted {
        String::new()
    } else {
        base_text(para.segments.as_slice())
    };
    let revised = if paragraph_status == ParagraphStatus::WhollyDeleted {
        String::new()
    } else {
        revised_text(para.segments.as_slice())
    };
    let changes = extract_changes(para.segments.as_slice());
    let para_comments = attach_comments(para, comments_map);
    let authors = distinct_authors(&changes);
    let mut reviewer_versions: Vec<ReviewerVersion> = Vec::new();
    if base != revised {
        let mut i: usize = 0;
        while i < authors.len()
            invariant
                i <= authors@.len(),
                reviewer_versions@.len() == i,
                forall|k: int|
                    0 <= k < i ==> (#[trigger] reviewer_versions@[k])@ == (ReviewerVersionView {
                        reviewer_name: authors@[k]@,
                        resulting_text: revised@,
                    }),
            decreases authors@.len() - i,
        {
            reviewer_versions.push(
                ReviewerVersion { reviewer_name: authors[i].clone(), resulting_text: revised.clone() },
            );
            i += 1;
        }
    }
    let has_conflicts = authors.len() > 1;
    let r = ParagraphBlock {
        index: para.index,
        base_text: base,
        revised_text: revised,
        paragraph_status,
        paragraph_change_author,
        reviewer_versions,
        comments: para_comments,
        track_changes: changes,
        has_conflicts,
    };
    proof {
        assert(r@.reviewer_versions =~= block_of(para@, comments_view(comments_map@)).reviewer_versions);
        assert(r@.comments =~= block_of(para@, comments_view(comments_map@)).comments);
        assert(r@.track_changes =~= block_of(para@, comments_view(comments_map@)).track_changes);
    }
    r
}

// ───────────────────────── the roster ─────────────────────────

/// The colour for the author first met in place `i`: a fixed palette of
/// eight, reused from the start for the ninth author on.
pub open spec fn palette(i: int) -> Seq<char> {
    let k = i % 8;
    if k == 0 {
        "#EF4444"@
    } else if k == 1 {
        "#3B82F6"@
    } else if k == 2 {
        "#10B981"@
    } else if k == 3 {
        "#F59E0B"@
    } else if k == 4 {
        "#8B5CF6"@
    } else if k == 5 {
        "#F97316"@
    } else if k == 6 {
        "#14B8A6"@
    } else {
        "#EC4899"@
    }
}

fn palette_colour(i: usize) -> (r: String)
    ensures
        r@ == palette(i as int),
{
    let k = i % 8;
    if k == 0 {
        "#EF4444".to_owned()
    } else if k == 1 {
        "#3B82F6".to_owned()
    } else if k == 2 {
        "#10B981".to_owned()
    } else if k == 3 {
        "#F59E0B".to_owned()
    } else if k == 4 {
        "#8B5CF6".to_owned()
    } else if k == 5 {
        "#F97316".to_owned()
    } else if k == 6 {
        "#14B8A6".to_owned()
    } else {
        "#EC4899".to_owned()
    }
}

/// Each author that a block meets, in order: its comments' authors first (as
/// comments), then its changes' authors (as changes).
pub open spec fn block_encounters(b: ParagraphBlockView) -> Seq<(Seq<char>, bool)> {
    b.comments.map_values(|c: CommentView| (c.author, true)) + b.track_changes.map_values(
        |t: TrackChangeView| (t.author, false),
    )
}

pub open spec fn encounters(blocks: Seq<ParagraphBlockView>) -> Seq<(Seq<char>, bool)>
    decreases blocks.len(),
{
    if blocks.len() == 0 {
        Seq::empty()
    } else {
        encounters(blocks.drop_last()) + block_encounters(blocks.last())
    }
}

pub open spec fn reviewer_position(rs: Seq<ReviewerView>, name: Seq<char>) -> int
    decreases rs.len(),
{
    if rs.len() == 0 {
        -1
    } else if rs.last().name == name {
        rs.len() - 1
    } else {
        reviewer_position(rs.drop_last(), name)
    }
}

/// The roster after meeting `e.0` as a comment author (`e.1`) or as a change
/// author: a known author's count grows by one; a new one joins at the end
/// with the next colour.
pub open spec fn roster_step(rs: Seq<ReviewerView>, e: (Seq<char>, bool), file: Seq<char>) -> Seq<ReviewerView> {
    let k = reviewer_position(rs, e.0);
    let dc: int = if e.1 { 1 } else { 0 };
    let dh: int = if e.1 { 0 } else { 1 };
    if k >= 0 {
        rs.update(
            k,
            ReviewerView {
                name: rs[k].name,
                file_name: rs[k].file_name,
                comment_count: rs[k].comment_count + dc,
                change_count: rs[k].change_count + dh,
                colour: rs[k].colour,
            },
        )
    } else {
        rs.push(
            ReviewerView {
                name: e.0,
                file_name: file,
                comment_count: dc,
                change_count: dh,
                colour: palette(rs.len() as int),
            },
        )
    }
}

/// The roster built from a sequence of encounters, in first-encounter order.
pub open spec fn roster(enc: Seq<(Seq<char>, bool)>, file: Seq<char>) -> Seq<ReviewerView>
    decreases enc.len(),
{
    if enc.len() == 0 {
        Seq::empty()
    } else {
        roster_step(roster(enc.drop_last(), file), enc.last(), file)
    }
}

pub open spec fn reviewers_view(s: Seq<Reviewer>) -> Seq<ReviewerView> {
    s.map_values(|r: Reviewer| r@)
}

pub open spec fn blocks_view(s: Seq<ParagraphBlock>) -> Seq<ParagraphBlockView> {
    s.map_values(|b: ParagraphBlock| b@)
}

proof fn lemma_roster_counts(enc: Seq<(Seq<char>, bool)>, file: Seq<char>)
    ensures
        forall|k: int|
            0 <= k < roster(enc, file).len() ==> (#[trigger] roster(enc, file)[k]).comment_count
                <= enc.len() && roster(enc, file)[k].change_count <= enc.len()
                && roster(enc, file)[k].comment_count >= 0 && roster(enc, file)[k].change_count >= 0,
    decreases enc.len(),
{
    if enc.len() > 0 {
        lemma_roster_counts(enc.drop_last(), file);
        lemma_reviewer_position_range(roster(enc.drop_last(), file), enc.last().0);
    }
}

proof fn lemma_reviewer_position_range(rs: Seq<ReviewerView>, name: Seq<char>)
    ensures
        -1 <= reviewer_position(rs, name) < rs.len(),
    decreases rs.len(),
{
    if rs.len() > 0 {
        lemma_reviewer_position_range(rs.drop_last(), name);
    }
}

/// Counts `name` once more in the roster.
fn record_author(reviewers: &mut Vec<Reviewer>, name: &String, is_comment: bool, file_name: &str)
    requires
        forall|k: int|
            0 <= k < old(reviewers)@.len() ==> (#[trigger] old(reviewers)@[k]).comment_count
                < usize::MAX && old(reviewers)@[k].change_count < usize::MAX,
    ensures
        reviewers_view(final(reviewers)@) == roster_step(
            reviewers_view(old(reviewers)@),
            (name@, is_comment),
            file_name@,
        ),
{
    let ghost rv = reviewers_view(reviewers@);
    let mut i: usize = reviewers.len();
    assert(rv.take(i as int) =~= rv);
    while i > 0
        invariant
            rv == reviewers_view(reviewers@),
            i <= reviewers@.len(),
            reviewer_position(rv, name@) == reviewer_position(rv.take(i as int), name@),
        ensures
            i <= reviewers@.len(),
            reviewer_position(rv, name@) == reviewer_position(rv.take(i as int), name@),
            i > 0 ==> rv[i - 1].name == name@,
        decreases i,
    {
        assert(rv.take(i as int).drop_last() =~= rv.take(i - 1));
        if reviewers[i - 1].name == *name {
            break;
        }
        i -= 1;
    }
    proof {
        if i > 0 {
            assert(rv.take(i as int).last() == rv[i - 1]);
            assert(rv[i - 1] == reviewers@[i - 1]@);
        }
    }
    let dc: usize = if is_comment { 1 } else { 0 };
    let dh: usize = if is_comment { 0 } else { 1 };
    if i > 0 {
        let k = i - 1;
        assert(reviewers@[k as int]@ == rv[k as int]);
        reviewers[k].comment_count = reviewers[k].comment_count + dc;
        reviewers[k].change_count = reviewers[k].change_count + dh;
        proof {
            assert(reviewers_view(reviewers@) =~= roster_step(rv, (name@, is_comment), file_name@));
        }
    } else {
        let colour = palette_colour(reviewers.len());
        reviewers.push(
            Reviewer {
                name: name.clone(),
                file_name: file_name.to_owned(),
                comment_count: dc,
                change_count: dh,
                colour,
            },
        );
        proof {
            assert(reviewers_view(reviewers@) =~= roster_step(rv, (name@, is_comment), file_name@));
        }
    }
}

/// How many comment ids and segments the paragraphs hold together.
pub open spec fn items_total(ps: Seq<ParsedParagraphView>) -> int
    decreases ps.len(),
{
    if ps.len() == 0 {
        0
    } else {
        items_total(ps.drop_last()) + ps.last().comment_ids.len() + ps.last().segments.len()
    }
}

pub proof fn lemma_items_total_prefix(ps: Seq<ParsedParagraphView>, i: int)
    requires
        0 <= i <= ps.len(),
    ensures
        items_total(ps.take(i)) <= items_total(ps),
    decreases ps.len() - i,
{
    if i < ps.len() {
        lemma_items_total_prefix(ps, i + 1);
        assert(ps.take(i + 1).drop_last() =~= ps.take(i));
    } else {
        assert(ps.take(i) =~= ps);
    }
}

proof fn lemma_attached_len(p: ParsedParagraphView, dict: Seq<CommentView>, n: int)
    requires
        0 <= n,
    ensures
        attached_upto(p, dict, n).len() <= n,
    decreases n,
{
    if n > 0 {
        lemma_attached_len(p, dict, n - 1);
    }
}

proof fn lemma_changes_len(segs: Seq<SegmentView>, n: int)
    requires
        0 <= n,
    ensures
        crate::track_changes::changes_upto(segs, n).len() <= n,
    decreases n,
{
    if n > 0 {
        lemma_changes_len(segs, n - 1);
    }
}

pub open spec fn blocks_for(ps: Seq<ParsedParagraphView>, dict: Seq<CommentView>) -> Seq<ParagraphBlockView> {
    ps.map_values(|p: ParsedParagraphView| block_of(p, dict))
}

proof fn lemma_roster_bounded(reviewers: Seq<Reviewer>, enc: Seq<(Seq<char>, bool)>, file: Seq<char>)
    requires
        reviewers_view(reviewers) == roster(enc, file),
        enc.len() < usize::MAX,
    ensures
        forall|k: int|
            0 <= k < reviewers.len() ==> (#[trigger] reviewers[k]).comment_count < usize::MAX
                && reviewers[k].change_count < usize::MAX,
{
    lemma_roster_counts(enc, file);
    assert forall|k: int| 0 <= k < reviewers.len() implies (#[trigger] reviewers[k]).comment_count
        < usize::MAX && reviewers[k].change_count < usize::MAX by {
        assert(reviewers_view(reviewers)[k] == reviewers[k]@);
    }
}

/// Whether the paragraphs' comment ids and segments together can be counted
/// in a machine word.
pub fn items_fit(parsed_paragraphs: &[ParsedParagraph]) -> (r: bool)
    ensures
        r == (items_total(paragraphs_view(parsed_paragraphs@)) <= usize::MAX),
{
    let ghost ps = paragraphs_view(parsed_paragraphs@);
    let mut total: usize = 0;
    let mut i: usize = 0;
    while i < parsed_paragraphs.len()
        invariant
            ps == paragraphs_view(parsed_paragraphs@),
            i <= parsed_paragraphs@.len(),
            total == items_total(ps.take(i as int)),
        decreases parsed_paragraphs@.len() - i,
    {
        proof {
            assert(ps.take(i + 1).drop_last() =~= ps.take(i as int));
            lemma_items_total_prefix(ps, i + 1);
        }
        let p = &parsed_paragraphs[i];
        let n = p.comment_ids.len();
        let m = p.segments.len();
        if total > usize::MAX - n || total + n > usize::MAX - m {
            return false;
        }
        total = total + n + m;
        i += 1;
    }
    assert(ps.take(parsed_paragraphs@.len() as int) =~= ps);
    true
}

/// Counts the authors that one block meets, in order.
fn record_block_authors(
    reviewers: &mut Vec<Reviewer>,
    block: &ParagraphBlock,
    file_name: &str,
    Ghost(enc): Ghost<Seq<(Seq<char>, bool)>>,
)
    requires
        reviewers_view(old(reviewers)@) == roster(enc, file_name@),
        enc.len() + block_encounters(block@).len() <= usize::MAX,
    ensures
        reviewers_view(final(reviewers)@) == roster(enc + block_encounters(block@), file_name@),
{
    let ghost be = block_encounters(block@);
    assert(enc + be.take(0) =~= enc);
    let mut j: usize = 0;
    while j < block.comments.len()
        invariant
            be == block_encounters(block@),
            enc.len() + be.len() <= usize::MAX,
            j <= block.comments@.len(),
            reviewers_view(reviewers@) == roster(enc + be.take(j as int), file_name@),
        decreases block.comments@.len() - j,
    {
        proof {
            lemma_roster_bounded(reviewers@, enc + be.take(j as int), file_name@);
            assert((enc + be.take(j + 1)).drop_last() =~= enc + be.take(j as int));
            assert(be[j as int] == (block.comments@[j as int].author@, true));
        }
        record_author(reviewers, &block.comments[j].author, true, file_name);
        j += 1;
    }
    let nc = block.comments.len();
    let mut j: usize = 0;
    while j < block.track_changes.len()
        invariant
            be == block_encounters(block@),
            enc.len() + be.len() <= usize::MAX,
            nc == block.comments@.len(),
            j <= block.track_changes@.len(),
            reviewers_view(reviewers@) == roster(enc + be.take(nc + j), file_name@),
        decreases block.track_changes@.len() - j,
    {
        proof {
            lemma_roster_bounded(reviewers@, enc + be.take(nc + j), file_name@);
            assert((enc + be.take(nc + j + 1)).drop_last() =~= enc + be.take(nc + j));
            assert(be[nc + j] == (block.track_changes@[j as int].author@, false));
        }
        record_author(reviewers, &block.track_changes[j].author, false, file_name);
        j += 1;
    }
    assert(be.take(nc + block.track_changes@.len()) =~= be);
}

/// Build the paragraph blocks, one per parsed paragraph, and the roster of
/// every author met in them.
pub fn build_paragraph_blocks(
    parsed_paragraphs: &[ParsedParagraph],
    comments_map: &[Comment],
    file_name: &str,
) -> (r: (Vec<ParagraphBlock>, Vec<Reviewer>))
    requires
        items_total(paragraphs_view(parsed_paragraphs@)) <= usize::MAX,
    ensures
        blocks_view(r.0@) == blocks_for(paragraphs_view(parsed_paragraphs@), comments_view(comments_map@)),
        reviewers_view(r.1@) == roster(encounters(blocks_view(r.0@)), file_name@),
{
    let ghost dict = comments_view(comments_map@);
    let ghost ps = paragraphs_view(parsed_paragraphs@);
    assert(ps.len() == parsed_paragraphs@.len());
    let mut blocks: Vec<ParagraphBlock> = Vec::new();
    let mut reviewers: Vec<Reviewer> = Vec::new();
    let mut i: usize = 0;
    proof {
        assert(blocks_view(blocks@) =~= blocks_for(ps.take(0), dict));
    }
    while i < parsed_paragraphs.len()
        invariant
            ps.len() == parsed_paragraphs@.len(),
            dict == comments_view(comments_map@),
            ps == paragraphs_view(parsed_paragraphs@),
            items_total(ps) <= usize::MAX,
            i <= ps.len(),
            blocks_view(blocks@) == blocks_for(ps.take(i as int), dict),
            encounters(blocks_view(blocks@)).len() <= items_total(ps.take(i as int)),
            reviewers_view(reviewers@) == roster(encounters(blocks_view(blocks@)), file_name@),
        decreases ps.len() - i,
    {
        let para = &parsed_paragraphs[i];
        let block = build_block(para, comments_map);
        let ghost enc = encounters(blocks_view(blocks@));
        proof {
            assert(ps.take(i + 1).drop_last() =~= ps.take(i as int));
            lemma_items_total_prefix(ps, i + 1);
            lemma_attached_len(para@, dict, para@.comment_ids.len() as int);
            lemma_changes_len(para@.segments, para@.segments.len() as int);
        }
        record_block_authors(&mut reviewers, &block, file_name, Ghost(enc));
        let ghost old_blocks = blocks_view(blocks@);
        blocks.push(block);
        proof {
            assert(blocks_view(blocks@) =~= old_blocks.push(block@));
            assert(blocks_view(blocks@).drop_last() =~= old_blocks);
            assert(blocks_for(ps.take(i + 1), dict) =~= blocks_for(ps.take(i as int), dict).push(
                block_of(ps[i as int], dict),
            ));
        }
        i += 1;
    }
    assert(ps.take(ps.len() as int) =~= ps);
    (blocks, reviewers)
}

// ───────────────────────── laws ─────────────────────────

/// Base and revised text of segments with only blank stable text, and no
/// deletion (for the base) or no insertion (for the revised), are blank; and
/// empty when every stable segment is.
proof fn lemma_texts_blank(segs: Seq<SegmentView>)
    requires
        forall|i: int| 0 <= i < segs.len() && #[trigger] segs[i] is Stable ==> is_blank(segs[i].text()),
    ensures
        !has_deletion(segs) ==> is_blank(base_of(segs)),
        !has_insertion(segs) ==> is_blank(revised_of(segs)),
        (forall|i: int| 0 <= i < segs.len() && #[trigger] segs[i] is Stable ==> segs[i].text().len() == 0)
            ==> (!has_deletion(segs) ==> base_of(segs).len() == 0) && (!has_insertion(segs)
            ==> revised_of(segs).len() == 0),
    decreases segs.len(),
{
    if segs.len() > 0 {
        let pre = segs.drop_last();
        let n = segs.len() - 1;
        assert forall|i: int| 0 <= i < pre.len() && #[trigger] pre[i] is Stable implies is_blank(
            pre[i].text(),
        ) by {
            assert(segs[i] == pre[i]);
        }
        lemma_texts_blank(pre);
        if has_deletion(pre) {
            let j = choose|j: int| 0 <= j < pre.len() && #[trigger] pre[j] is Deletion;
            assert(segs[j] is Deletion);
        }
        if has_insertion(pre) {
            let j = choose|j: int| 0 <= j < pre.len() && #[trigger] pre[j] is Insertion;
            assert(segs[j] is Insertion);
        }
        if segs[n] is Stable {
            assert(is_blank(segs[n].text()));
        }
        if !has_deletion(segs) {
            assert(!(segs[n] is Deletion));
            lemma_blank_concat(base_of(pre), segs.last().base_part());
        }
        if !has_insertion(segs) {
            assert(!(segs[n] is Insertion));
            lemma_blank_concat(revised_of(pre), segs.last().revised_part());
        }
        if forall|i: int| 0 <= i < segs.len() && #[trigger] segs[i] is Stable ==> segs[i].text().len() == 0 {
            assert forall|i: int| 0 <= i < pre.len() && #[trigger] pre[i] is Stable implies pre[i].text().len()
                == 0 by {
                assert(segs[i] == pre[i]);
            }
            if segs[n] is Stable {
                assert(segs[n].text().len() == 0);
            }
        }
    }
}

/// A paragraph made of insertions and stable text that is only whitespace is
/// wholly inserted, credited to the author of its last insertion, and its block
/// has no base text (the plain reconstruction of it is blank, and empty when its
/// stable segments are empty). The same holds of deletions, wholly deleted
/// paragraphs and their revised text.
pub proof fn lemma_wholesale_changes(segs: Seq<SegmentView>)
    requires
        forall|i: int| 0 <= i < segs.len() && #[trigger] segs[i] is Stable ==> is_blank(segs[i].text()),
    ensures
        has_insertion(segs) && !has_deletion(segs) ==> {
            &&& status_of(segs) == ParagraphStatus::WhollyInserted
            &&& block_base_text(segs).len() == 0
            &&& change_author_of(segs) == last_author(segs, false)
            &&& last_author(segs, false) is Some
            &&& is_blank(base_of(segs))
            &&& (forall|i: int| 0 <= i < segs.len() && #[trigger] segs[i] is Stable
                ==> segs[i].text().len() == 0) ==> base_of(segs).len() == 0
        },
        has_deletion(segs) && !has_insertion(segs) ==> {
            &&& status_of(segs) == ParagraphStatus::WhollyDeleted
            &&& block_revised_text(segs).len() == 0
            &&& change_author_of(segs) == last_author(segs, true)
            &&& last_author(segs, true) is Some
            &&& is_blank(revised_of(segs))
            &&& (forall|i: int| 0 <= i < segs.len() && #[trigger] segs[i] is Stable
                ==> segs[i].text().len() == 0) ==> revised_of(segs).len() == 0
        },
{
    lemma_texts_blank(segs);
    if has_solid_stable(segs) {
        let j = choose|j: int|
            0 <= j < segs.len() && #[trigger] segs[j] is Stable && !is_blank(segs[j].text());
        assert(is_blank(segs[j].text()));
    }
    if has_insertion(segs) {
        let j = choose|j: int| 0 <= j < segs.len() && #[trigger] segs[j] is Insertion;
        lemma_last_author_found(segs, j, false);
    }
    if has_deletion(segs) {
        let j = choose|j: int| 0 <= j < segs.len() && #[trigger] segs[j] is Deletion;
        lemma_last_author_found(segs, j, true);
    }
}

proof fn lemma_last_author_found(segs: Seq<SegmentView>, j: int, deletion: bool)
    requires
        0 <= j < segs.len(),
        (deletion && segs[j] is Deletion) || (!deletion && segs[j] is Insertion),
    ensures
        last_author(segs, deletion) is Some,
    decreases segs.len(),
{
    if j < segs.len() - 1 {
        assert(segs.drop_last()[j] == segs[j]);
        lemma_last_author_found(segs.drop_last(), j, deletion);
    }
}

proof fn lemma_first_occurrences(s: Seq<Seq<char>>)
    ensures
        forall|x: Seq<char>| #[trigger] first_occurrences(s).contains(x) <==> s.contains(x),
        forall|k: int, l: int|
            0 <= k < l < first_occurrences(s).len() ==> #[trigger] first_occurrences(s)[k]
                != #[trigger] first_occurrences(s)[l],
    decreases s.len(),
{
    if s.len() > 0 {
        let pre = s.drop_last();
        lemma_first_occurrences(pre);
        let fo = first_occurrences(s);
        let pf = first_occurrences(pre);
        assert forall|x: Seq<char>| #[trigger] fo.contains(x) <==> s.contains(x) by {
            if s.contains(x) {
                let k = choose|k: int| 0 <= k < s.len() && s[k] == x;
                if k < s.len() - 1 {
                    assert(pre[k] == x);
                    assert(pre.contains(x));
                    assert(pf.contains(x));
                    let l = choose|l: int| 0 <= l < pf.len() && pf[l] == x;
                    assert(fo[l] == x);
                } else if pf.contains(x) {
                    let l = choose|l: int| 0 <= l < pf.len() && pf[l] == x;
                    assert(fo[l] == x);
                } else {
                    assert(fo[pf.len() as int] == x);
                }
            }
            if fo.contains(x) {
                let l = choose|l: int| 0 <= l < fo.len() && fo[l] == x;
                if l < pf.len() {
                    assert(pf[l] == x);
                    assert(pf.contains(x));
                    let k = choose|k: int| 0 <= k < pre.len() && pre[k] == x;
                    assert(s[k] == x);
                } else {
                    assert(s[s.len() - 1] == x);
                }
            }
        }
        assert forall|k: int, l: int| 0 <= k < l < fo.len() implies #[trigger] fo[k] != #[trigger] fo[l] by {
            if l >= pf.len() {
                assert(pf[k] == fo[k]);
                assert(pf.contains(fo[k]));
            } else {
                assert(pf[k] != pf[l]);
            }
        }
    }
}

/// A paragraph has conflicts exactly when two of its insertions or deletions
/// have different authors.
pub proof fn lemma_conflicts(segs: Seq<SegmentView>)
    ensures
        (change_authors(segs).len() > 1) == (exists|i: int, j: int|
            0 <= i < segs.len() && 0 <= j < segs.len() && #[trigger] segs[i].is_change()
                && #[trigger] segs[j].is_change() && segs[i].author() != segs[j].author()),
{
    let recs = changes_of(segs);
    let authors = record_authors(recs);
    let fo = change_authors(segs);
    let n = segs.len() as int;
    let pos = crate::track_changes::change_positions(segs, n);
    crate::track_changes::lemma_one_record_per_change(segs);
    lemma_first_occurrences(authors);
    if fo.len() > 1 {
        assert(fo[0] != fo[1]);
        assert(fo.contains(fo[0]));
        assert(fo.contains(fo[1]));
        let k0 = choose|k: int| 0 <= k < authors.len() && authors[k] == fo[0];
        let k1 = choose|k: int| 0 <= k < authors.len() && authors[k] == fo[1];
        let i = pos[k0];
        let j = pos[k1];
        assert(recs[k0].author == segs[i].author());
        assert(recs[k1].author == segs[j].author());
        assert(segs[i].is_change() && segs[j].is_change() && segs[i].author() != segs[j].author());
    }
    if exists|i: int, j: int|
        0 <= i < segs.len() && 0 <= j < segs.len() && #[trigger] segs[i].is_change()
            && #[trigger] segs[j].is_change() && segs[i].author() != segs[j].author() {
        let (i, j) = choose|i: int, j: int|
            0 <= i < segs.len() && 0 <= j < segs.len() && #[trigger] segs[i].is_change()
                && #[trigger] segs[j].is_change() && segs[i].author() != segs[j].author();
        assert(pos.contains(i));
        assert(pos.contains(j));
        let ki = choose|k: int| 0 <= k < pos.len() && pos[k] == i;
        let kj = choose|k: int| 0 <= k < pos.len() && pos[k] == j;
        assert(authors[ki] == segs[i].author());
        assert(authors[kj] == segs[j].author());
        assert(authors.contains(segs[i].author()));
        assert(authors.contains(segs[j].author()));
        assert(fo.contains(segs[i].author()));
        assert(fo.contains(segs[j].author()));
        if fo.len() <= 1 {
            let a = choose|k: int| 0 <= k < fo.len() && fo[k] == segs[i].author();
            let b = choose|k: int| 0 <= k < fo.len() && fo[k] == segs[j].author();
            assert(a == 0 && b == 0);
        }
    }
}

/// The laws of wholesale changes and of conflicts, as the blocks that
/// `build_paragraph_blocks` returns state them: a paragraph of insertions and
/// blank stable text becomes a wholly inserted block with empty base text (and
/// the same for deletions), and a block has conflicts exactly when two of its
/// changes have different authors.
pub proof fn lemma_block_laws(p: ParsedParagraphView, dict: Seq<CommentView>)
    ensures
        ({
            let segs = p.segments;
            let b = block_of(p, dict);
            &&& (forall|i: int| 0 <= i < segs.len() && #[trigger] segs[i] is Stable ==> is_blank(
                segs[i].text(),
            )) ==> {
                &&& has_insertion(segs) && !has_deletion(segs) ==> b.paragraph_status
                    == ParagraphStatus::WhollyInserted && b.base_text.len() == 0
                &&& has_deletion(segs) && !has_insertion(segs) ==> b.paragraph_status
                    == ParagraphStatus::WhollyDeleted && b.revised_text.len() == 0
            }
            &&& b.has_conflicts == (exists|i: int, j: int|
                0 <= i < segs.len() && 0 <= j < segs.len() && #[trigger] segs[i].is_change()
                    && #[trigger] segs[j].is_change() && segs[i].author() != segs[j].author())
        }),
{
    let segs = p.segments;
    if forall|i: int| 0 <= i < segs.len() && #[trigger] segs[i] is Stable ==> is_blank(segs[i].text()) {
        lemma_wholesale_changes(segs);
    }
    lemma_conflicts(segs);
}

} // verus!
