//! Reconstruction of a paragraph's base and revised text from its segments,
//! and the list of changes with the base text around each.
use vstd::prelude::*;

use crate::types::{clone_opt_text, opt_text, ChangeType, TrackChange, TrackChangeView};

verus! {

/// How many characters of base text a change record shows on each side.
pub const CONTEXT_WIDTH: usize = 30;

/// Represents a segment of a paragraph: either stable text, an insertion, or a deletion
#[derive(Clone, Debug)]
pub enum Segment {
    Stable(String),
    Insertion { id: String, author: String, date: Option<String>, text: String },
    Deletion { id: String, author: String, date: Option<String>, text: String },
}

pub enum SegmentView {
    Stable(Seq<char>),
    Insertion { id: Seq<char>, author: Seq<char>, date: Option<Seq<char>>, text: Seq<char> },
    Deletion { id: Seq<char>, author: Seq<char>, date: Option<Seq<char>>, text: Seq<char> },
}

impl View for Segment {
    type V = SegmentView;

    open spec fn view(&self) -> SegmentView {
        match self {
            Segment::Stable(t) => SegmentView::Stable(t@),
            Segment::Insertion { id, author, date, text } => SegmentView::Insertion {
                id: id@,
                author: author@,
                date: opt_text(*date),
                text: text@,
            },
            Segment::Deletion { id, author, date, text } => SegmentView::Deletion {
                id: id@,
                author: author@,
                date: opt_text(*date),
                text: text@,
            },
        }
    }
}

impl SegmentView {
    pub open spec fn text(self) -> Seq<char> {
        match self {
            SegmentView::Stable(t) => t,
            SegmentView::Insertion { text, .. } => text,
            SegmentView::Deletion { text, .. } => text,
        }
    }

    /// An insertion or a deletion.
    pub open spec fn is_change(self) -> bool {
        !(self is Stable)
    }

    /// The author of an insertion or a deletion.
    pub open spec fn author(self) -> Seq<char> {
        match self {
            SegmentView::Stable(_) => Seq::empty(),
            SegmentView::Insertion { author, .. } => author,
            SegmentView::Deletion { author, .. } => author,
        }
    }

    /// What the segment adds to the text before the changes.
    pub open spec fn base_part(self) -> Seq<char> {
        match self {
            SegmentView::Insertion { .. } => Seq::empty(),
            _ => self.text(),
        }
    }

    /// What the segment adds to the text after the changes.
    pub open spec fn revised_part(self) -> Seq<char> {
        match self {
            SegmentView::Deletion { .. } => Seq::empty(),
            _ => self.text(),
        }
    }
}

pub open spec fn segments_view(s: Seq<Segment>) -> Seq<SegmentView> {
    s.map_values(|x: Segment| x@)
}

pub open spec fn changes_view(s: Seq<TrackChange>) -> Seq<TrackChangeView> {
    s.map_values(|c: TrackChange| c@)
}

/// The paragraph's text before the changes: stable and deleted text, in order.
pub open spec fn base_of(segs: Seq<SegmentView>) -> Seq<char>
    decreases segs.len(),
{
    if segs.len() == 0 {
        Seq::empty()
    } else {
        base_of(segs.drop_last()) + segs.last().base_part()
    }
}

/// The paragraph's text after the changes: stable and inserted text, in order.
pub open spec fn revised_of(segs: Seq<SegmentView>) -> Seq<char>
    decreases segs.len(),
{
    if segs.len() == 0 {
        Seq::empty()
    } else {
        revised_of(segs.drop_last()) + segs.last().revised_part()
    }
}

/// Up to `width` characters of `full` that end at `pos`.
pub open spec fn window_before(full: Seq<char>, pos: int, width: int) -> Seq<char> {
    full.subrange(if pos > width { pos - width } else { 0 }, pos)
}

/// Up to `width` characters of `full` that start at `pos`.
pub open spec fn window_after(full: Seq<char>, pos: int, width: int) -> Seq<char> {
    full.subrange(pos, if pos + width < full.len() { pos + width } else { full.len() as int })
}

/// Where in the base text the segment at `i` starts.
pub open spec fn base_offset(segs: Seq<SegmentView>, i: int) -> int {
    base_of(segs.take(i)).len() as int
}

/// The record of the change segment at `i`.
pub open spec fn change_record(segs: Seq<SegmentView>, i: int) -> TrackChangeView {
    let full = base_of(segs);
    let pos = base_offset(segs, i);
    let w = CONTEXT_WIDTH as int;
    match segs[i] {
        SegmentView::Deletion { id, author, date, text } => TrackChangeView {
            id,
            change_type: ChangeType::Deletion,
            author,
            date,
            original_text: text,
            new_text: Seq::empty(),
            context_before: window_before(full, pos, w),
            context_after: window_after(full, pos + text.len(), w),
        },
        SegmentView::Insertion { id, author, date, text } => TrackChangeView {
            id,
            change_type: ChangeType::Insertion,
            author,
            date,
            original_text: Seq::empty(),
            new_text: text,
            context_before: window_before(full, pos, w),
            context_after: window_after(full, pos, w),
        },
        SegmentView::Stable(_) => arbitrary(),
    }
}

/// The records of the change segments among the first `n`, in order.
pub open spec fn changes_upto(segs: Seq<SegmentView>, n: int) -> Seq<TrackChangeView>
    decreases n,
{
    if n <= 0 {
        Seq::empty()
    } else if segs[n - 1].is_change() {
        changes_upto(segs, n - 1).push(change_record(segs, n - 1))
    } else {
        changes_upto(segs, n - 1)
    }
}

pub open spec fn changes_of(segs: Seq<SegmentView>) -> Seq<TrackChangeView> {
    changes_upto(segs, segs.len() as int)
}

/// The base text of a prefix is a prefix of the base text of a longer prefix.
pub proof fn lemma_base_prefix(segs: Seq<SegmentView>, i: int, j: int)
    requires
        0 <= i <= j <= segs.len(),
    ensures
        base_of(segs.take(i)).len() <= base_of(segs.take(j)).len(),
        base_of(segs.take(j)).take(base_of(segs.take(i)).len() as int) == base_of(segs.take(i)),
    decreases j - i,
{
    if i < j {
        lemma_base_prefix(segs, i, j - 1);
        assert(segs.take(j).drop_last() =~= segs.take(j - 1));
        let a = base_of(segs.take(i));
        let b = base_of(segs.take(j - 1));
        let c = base_of(segs.take(j));
        assert(c == b + segs[j - 1].base_part());
        assert(c.take(a.len() as int) =~= b.take(a.len() as int));
    } else {
        assert(base_of(segs.take(j)).take(base_of(segs.take(i)).len() as int) =~= base_of(
            segs.take(i),
        ));
    }
}

/// One step of the base text over a prefix.
proof fn lemma_base_step(segs: Seq<SegmentView>, i: int)
    requires
        0 <= i < segs.len(),
    ensures
        base_of(segs.take(i + 1)) == base_of(segs.take(i)) + segs[i].base_part(),
        revised_of(segs.take(i + 1)) == revised_of(segs.take(i)) + segs[i].revised_part(),
{
    assert(segs.take(i + 1).drop_last() =~= segs.take(i));
}

/// The base and revised texts of two runs of segments put together are the
/// texts of each run put together.
pub proof fn lemma_texts_concat(a: Seq<SegmentView>, b: Seq<SegmentView>)
    ensures
        base_of(a + b) == base_of(a) + base_of(b),
        revised_of(a + b) == revised_of(a) + revised_of(b),
    decreases b.len(),
{
    if b.len() == 0 {
        assert(a + b =~= a);
        assert(base_of(a) + base_of(b) =~= base_of(a));
        assert(revised_of(a) + revised_of(b) =~= revised_of(a));
    } else {
        lemma_texts_concat(a, b.drop_last());
        assert((a + b).drop_last() =~= a + b.drop_last());
        assert(base_of(a + b) =~= base_of(a) + base_of(b));
        assert(revised_of(a + b) =~= revised_of(a) + revised_of(b));
    }
}

proof fn lemma_split_at(segs: Seq<SegmentView>, i: int)
    requires
        0 <= i < segs.len(),
    ensures
        base_of(segs) == base_of(segs.take(i)) + segs[i].base_part() + base_of(segs.skip(i + 1)),
        revised_of(segs) == revised_of(segs.take(i)) + segs[i].revised_part() + revised_of(
            segs.skip(i + 1),
        ),
        base_of(segs.remove(i)) == base_of(segs.take(i)) + base_of(segs.skip(i + 1)),
        revised_of(segs.remove(i)) == revised_of(segs.take(i)) + revised_of(segs.skip(i + 1)),
{
    assert(segs =~= segs.take(i + 1) + segs.skip(i + 1));
    assert(segs.remove(i) =~= segs.take(i) + segs.skip(i + 1));
    lemma_texts_concat(segs.take(i + 1), segs.skip(i + 1));
    lemma_texts_concat(segs.take(i), segs.skip(i + 1));
    lemma_base_step(segs, i);
}

/// The base text takes nothing from an insertion: removing one leaves it
/// unchanged. It holds each deletion's text verbatim, at the place where the
/// segments before it end, and those places follow the order of the segments.
pub proof fn lemma_base_text_keeps_deletions(segs: Seq<SegmentView>, i: int)
    requires
        0 <= i < segs.len(),
    ensures
        segs[i] is Insertion ==> base_of(segs.remove(i)) == base_of(segs),
        segs[i] is Deletion ==> base_of(segs).subrange(
            base_offset(segs, i),
            base_offset(segs, i) + segs[i].text().len(),
        ) == segs[i].text(),
        forall|j: int|
            i < j <= segs.len() ==> base_offset(segs, i) + segs[i].base_part().len()
                <= #[trigger] base_offset(segs, j),
{
    lemma_split_at(segs, i);
    lemma_base_step(segs, i);
    lemma_base_prefix(segs, i + 1, segs.len() as int);
    assert(segs.take(segs.len() as int) =~= segs);
    assert forall|j: int| i < j <= segs.len() implies base_offset(segs, i) + segs[i].base_part().len()
        <= #[trigger] base_offset(segs, j) by {
        lemma_base_prefix(segs, i + 1, j);
    }
    let pre = base_of(segs.take(i));
    let part = segs[i].base_part();
    assert(base_of(segs).subrange(pre.len() as int, (pre.len() + part.len()) as int) =~= part);
    if segs[i] is Insertion {
        assert(part =~= Seq::<char>::empty());
        assert(base_of(segs) =~= pre + base_of(segs.skip(i + 1)));
    }
}

/// The revised text takes nothing from a deletion: removing one leaves it
/// unchanged. It holds each insertion's text verbatim, at the place where the
/// segments before it end, and those places follow the order of the segments.
pub proof fn lemma_revised_text_keeps_insertions(segs: Seq<SegmentView>, i: int)
    requires
        0 <= i < segs.len(),
    ensures
        segs[i] is Deletion ==> revised_of(segs.remove(i)) == revised_of(segs),
        segs[i] is Insertion ==> revised_of(segs).subrange(
            revised_of(segs.take(i)).len() as int,
            (revised_of(segs.take(i)).len() + segs[i].text().len()) as int,
        ) == segs[i].text(),
        forall|j: int|
            i < j <= segs.len() ==> revised_of(segs.take(i)).len() + segs[i].revised_part().len()
                <= (#[trigger] revised_of(segs.take(j))).len(),
{
    lemma_split_at(segs, i);
    lemma_base_step(segs, i);
    assert forall|j: int| i < j <= segs.len() implies revised_of(segs.take(i)).len()
        + segs[i].revised_part().len() <= (#[trigger] revised_of(segs.take(j))).len() by {
        assert(segs.take(j) =~= segs.take(i + 1) + segs.subrange(i + 1, j));
        lemma_texts_concat(segs.take(i + 1), segs.subrange(i + 1, j));
    }
    let pre = revised_of(segs.take(i));
    let part = segs[i].revised_part();
    assert(revised_of(segs).subrange(pre.len() as int, (pre.len() + part.len()) as int) =~= part);
    if segs[i] is Deletion {
        assert(part =~= Seq::<char>::empty());
        assert(revised_of(segs) =~= pre + revised_of(segs.skip(i + 1)));
    }
}

/// The positions of the change segments among the first `n`, in order.
pub open spec fn change_positions(segs: Seq<SegmentView>, n: int) -> Seq<int>
    decreases n,
{
    if n <= 0 {
        Seq::empty()
    } else if segs[n - 1].is_change() {
        change_positions(segs, n - 1).push(n - 1)
    } else {
        change_positions(segs, n - 1)
    }
}

proof fn lemma_change_positions(segs: Seq<SegmentView>, n: int)
    requires
        0 <= n <= segs.len(),
    ensures
        changes_upto(segs, n).len() == change_positions(segs, n).len(),
        forall|k: int|
            0 <= k < change_positions(segs, n).len() ==> {
                &&& 0 <= #[trigger] change_positions(segs, n)[k] < n
                &&& segs[change_positions(segs, n)[k]].is_change()
                &&& changes_upto(segs, n)[k] == change_record(segs, change_positions(segs, n)[k])
            },
        forall|k: int, l: int|
            0 <= k < l < change_positions(segs, n).len() ==> #[trigger] change_positions(segs, n)[k]
                < #[trigger] change_positions(segs, n)[l],
        forall|i: int|
            0 <= i < n && #[trigger] segs[i].is_change() ==> change_positions(segs, n).contains(i),
    decreases n,
{
    if n > 0 {
        lemma_change_positions(segs, n - 1);
        let p = change_positions(segs, n - 1);
        if segs[n - 1].is_change() {
            assert forall|i: int|
                0 <= i < n && #[trigger] segs[i].is_change() implies change_positions(
                segs,
                n,
            ).contains(i) by {
                if i == n - 1 {
                    assert(change_positions(segs, n)[p.len() as int] == i);
                } else {
                    let k = choose|k: int| 0 <= k < p.len() && p[k] == i;
                    assert(change_positions(segs, n)[k] == i);
                }
            }
        }
    }
}

/// `extract_changes` gives exactly one record per insertion or deletion, in the
/// order of the segments; a deletion's record carries only original text and an
/// insertion's only new text, and neither context is longer than the window.
pub proof fn lemma_one_record_per_change(segs: Seq<SegmentView>)
    ensures
        ({
            let recs = changes_of(segs);
            let pos = change_positions(segs, segs.len() as int);
            &&& recs.len() == pos.len()
            &&& forall|k: int, l: int|
                0 <= k < l < pos.len() ==> #[trigger] pos[k] < #[trigger] pos[l]
            &&& forall|i: int|
                0 <= i < segs.len() && #[trigger] segs[i].is_change() ==> pos.contains(i)
            &&& forall|k: int|
                0 <= k < recs.len() ==> {
                    let s = segs[#[trigger] pos[k]];
                    let r = recs[k];
                    &&& 0 <= pos[k] < segs.len()
                    &&& s.is_change()
                    &&& r.author == s.author()
                    &&& (s is Deletion ==> r.change_type == ChangeType::Deletion
                        && r.original_text == s.text() && r.new_text.len() == 0)
                    &&& (s is Insertion ==> r.change_type == ChangeType::Insertion
                        && r.new_text == s.text() && r.original_text.len() == 0)
                    &&& r.context_before.len() <= CONTEXT_WIDTH
                    &&& r.context_after.len() <= CONTEXT_WIDTH
                }
        }),
{
    let n = segs.len() as int;
    lemma_change_positions(segs, n);
    let pos = change_positions(segs, n);
    assert forall|k: int| 0 <= k < pos.len() implies {
        let r = #[trigger] changes_of(segs)[k];
        &&& r.context_before.len() <= CONTEXT_WIDTH
        &&& r.context_after.len() <= CONTEXT_WIDTH
    } by {
        let i = pos[k];
        lemma_base_step(segs, i);
        lemma_base_prefix(segs, i + 1, n);
        lemma_base_prefix(segs, i, n);
        assert(segs.take(n) =~= segs);
        let full = base_of(segs);
        let p = base_offset(segs, i);
        lemma_context_windows(full, p, CONTEXT_WIDTH as int);
        if segs[i] is Deletion {
            lemma_context_windows(full, p + segs[i].text().len(), CONTEXT_WIDTH as int);
        }
    }
}

/// A context window holds at most `width` whole characters next to `pos`, and
/// all that there is on that side when fewer remain.
pub proof fn lemma_context_windows(full: Seq<char>, pos: int, width: int)
    requires
        0 <= pos <= full.len(),
        0 <= width,
    ensures
        window_before(full, pos, width).len() <= width,
        window_after(full, pos, width).len() <= width,
        window_before(full, pos, width) == full.subrange(
            pos - window_before(full, pos, width).len(),
            pos,
        ),
        window_after(full, pos, width) == full.subrange(
            pos,
            pos + window_after(full, pos, width).len(),
        ),
        pos <= width ==> window_before(full, pos, width) == full.take(pos),
        full.len() - pos <= width ==> window_after(full, pos, width) == full.skip(pos),
{
    assert(pos <= width ==> window_before(full, pos, width) =~= full.take(pos));
    assert(full.len() - pos <= width ==> window_after(full, pos, width) =~= full.skip(pos));
}

/// Reconstruct the base text (before changes) from segments
pub fn base_text(segments: &[Segment]) -> (r: String)
    ensures
        r@ == base_of(segments_view(segments@)),
{
    let ghost sv = segments_view(segments@);
    let mut result = String::new();
    let mut i: usize = 0;
    while i < segments.len()
        invariant
            sv == segments_view(segments@),
            i <= segments@.len(),
            result@ == base_of(sv.take(i as int)),
        decreases segments@.len() - i,
    {
        match &segments[i] {
            Segment::Stable(t) => result.append(t.as_str()),
            Segment::Deletion { text, .. } => result.append(text.as_str()),
            Segment::Insertion { .. } => {},
        }
        proof {
            lemma_base_step(sv, i as int);
        }
        i += 1;
    }
    assert(sv.take(segments@.len() as int) =~= sv);
    result
}

/// Reconstruct the revised text (after changes) from segments
pub fn revised_text(segments: &[Segment]) -> (r: String)
    ensures
        r@ == revised_of(segments_view(segments@)),
{
    let ghost sv = segments_view(segments@);
    let mut result = String::new();
    let mut i: usize = 0;
    while i < segments.len()
        invariant
            sv == segments_view(segments@),
            i <= segments@.len(),
            result@ == revised_of(sv.take(i as int)),
        decreases segments@.len() - i,
    {
        match &segments[i] {
            Segment::Stable(t) => result.append(t.as_str()),
            Segment::Insertion { text, .. } => result.append(text.as_str()),
            Segment::Deletion { .. } => {},
        }
        proof {
            lemma_base_step(sv, i as int);
        }
        i += 1;
    }
    assert(sv.take(segments@.len() as int) =~= sv);
    result
}

/// Up to `max_chars` whole characters of `text` that end at character `pos`.
pub fn extract_context_before(text: &str, pos: usize, max_chars: usize) -> (r: String)
    requires
        pos <= text@.len(),
    ensures
        r@ == window_before(text@, pos as int, max_chars as int),
{
    let start = if pos > max_chars {
        pos - max_chars
    } else {
        0
    };
    text.substring_char(start, pos).to_owned()
}

/// Up to `max_chars` whole characters of `text` that start at character `pos`.
pub fn extract_context_after(text: &str, pos: usize, max_chars: usize) -> (r: String)
    requires
        pos <= text@.len(),
    ensures
        r@ == window_after(text@, pos as int, max_chars as int),
{
    let len = text.unicode_len();
    let end = if len - pos > max_chars {
        pos + max_chars
    } else {
        len
    };
    text.substring_char(pos, end).to_owned()
}

/// Extract TrackChange structs from segments with context
pub fn extract_changes(segments: &[Segment]) -> (r: Vec<TrackChange>)
    ensures
        changes_view(r@) == changes_of(segments_view(segments@)),
{
    let ghost sv = segments_view(segments@);
    let full_base = base_text(segments);
    let full_len = full_base.as_str().unicode_len();
    let mut changes: Vec<TrackChange> = Vec::new();
    let mut position_in_base: usize = 0;
    let mut i: usize = 0;
    while i < segments.len()
        invariant
            sv == segments_view(segments@),
            i <= segments@.len(),
            full_base@ == base_of(sv),
            full_len == full_base@.len(),
            position_in_base == base_offset(sv, i as int),
            changes_view(changes@) == changes_upto(sv, i as int),
        decreases segments@.len() - i,
    {
        proof {
            lemma_base_step(sv, i as int);
            lemma_base_prefix(sv, i as int + 1, sv.len() as int);
            assert(sv.take(sv.len() as int) =~= sv);
        }
        let ghost before = changes@;
        match &segments[i] {
            Segment::Stable(t) => {
                position_in_base = position_in_base + t.as_str().unicode_len();
            },
            Segment::Deletion { id, author, date, text } => {
                let len = text.as_str().unicode_len();
                let context_before = extract_context_before(
                    full_base.as_str(),
                    position_in_base,
                    CONTEXT_WIDTH,
                );
                let context_after = extract_context_after(
                    full_base.as_str(),
                    position_in_base + len,
                    CONTEXT_WIDTH,
                );
                changes.push(
                    TrackChange {
                        id: id.clone(),
                        change_type: ChangeType::Deletion,
                        author: author.clone(),
                        date: clone_opt_text(date),
                        original_text: text.clone(),
                        new_text: String::new(),
                        context_before,
                        context_after,
                    },
                );
                position_in_base = position_in_base + len;
            },
            Segment::Insertion { id, author, date, text } => {
                let context_before = extract_context_before(
                    full_base.as_str(),
                    position_in_base,
                    CONTEXT_WIDTH,
                );
                let context_after = extract_context_after(
                    full_base.as_str(),
                    position_in_base,
                    CONTEXT_WIDTH,
                );
                changes.push(
                    TrackChange {
                        id: id.clone(),
                        change_type: ChangeType::Insertion,
                        author: author.clone(),
                        date: clone_opt_text(date),
                        original_text: String::new(),
                        new_text: text.clone(),
                        context_before,
                        context_after,
                    },
                );
            },
        }
        proof {
            assert(changes_view(changes@) =~= changes_upto(sv, i as int + 1));
        }
        i += 1;
    }
    changes
}

} // verus!
