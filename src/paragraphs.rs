//! The paragraph segmenter: a state machine over the markup events of the
//! document body that yields each non-empty paragraph as typed segments.
use vstd::prelude::*;

use crate::text::{blank, is_blank, lemma_blank_concat};
use crate::track_changes::{segments_view, Segment, SegmentView};
use crate::types::opt_text;
use crate::xml::{
    attr_all, attr_last, attribute_value, attributes_view, events_view, has_local_name,
    local_name_of, read_events, xml_events_of, Attribute, XmlEvent, XmlEventView,
};

verus! {

/// Represents a parsed paragraph with its segments and comment anchors
#[derive(Clone, Debug)]
pub struct ParsedParagraph {
    pub index: usize,
    pub segments: Vec<Segment>,
    /// The comment ranges opened in the paragraph, in order.
    pub comment_ids: Vec<String>,
    /// The text that each closed comment range anchors to, as (id, text); a
    /// later entry for an id replaces an earlier one.
    pub comment_anchor_texts: Vec<(String, String)>,
}

pub struct ParsedParagraphView {
    pub index: int,
    pub segments: Seq<SegmentView>,
    pub comment_ids: Seq<Seq<char>>,
    pub comment_anchor_texts: Seq<(Seq<char>, Seq<char>)>,
}

pub open spec fn texts_view(s: Seq<String>) -> Seq<Seq<char>> {
    s.map_values(|t: String| t@)
}

pub open spec fn pairs_view(s: Seq<(String, String)>) -> Seq<(Seq<char>, Seq<char>)> {
    s.map_values(|p: (String, String)| (p.0@, p.1@))
}

impl View for ParsedParagraph {
    type V = ParsedParagraphView;

    open spec fn view(&self) -> ParsedParagraphView {
        ParsedParagraphView {
            index: self.index as int,
            segments: segments_view(self.segments@),
            comment_ids: texts_view(self.comment_ids@),
            comment_anchor_texts: pairs_view(self.comment_anchor_texts@),
        }
    }
}

pub open spec fn paragraphs_view(s: Seq<ParsedParagraph>) -> Seq<ParsedParagraphView> {
    s.map_values(|p: ParsedParagraph| p@)
}

// ───────────────────────── the state machine, in the abstract ─────────────────────────

/// An insertion or deletion whose closing tag has not been seen yet.
pub struct PendingView {
    pub id: Seq<char>,
    pub author: Seq<char>,
    pub date: Option<Seq<char>>,
    pub text: Seq<char>,
}

/// The segmenter's state between two events.
pub struct ScanView {
    /// The paragraphs emitted so far.
    pub paragraphs: Seq<ParsedParagraphView>,
    /// How many paragraph elements are open: 0 outside any paragraph.
    pub depth: int,
    pub segments: Seq<SegmentView>,
    pub comment_ids: Seq<Seq<char>>,
    pub anchors: Seq<(Seq<char>, Seq<char>)>,
    pub insertion: Option<PendingView>,
    pub deletion: Option<PendingView>,
    /// The open comment ranges, each with the text it has gathered.
    pub ranges: Seq<(Seq<char>, Seq<char>)>,
}

pub open spec fn or_empty(o: Option<Seq<char>>) -> Seq<char> {
    match o {
        Some(t) => t,
        None => Seq::empty(),
    }
}

/// A pending change as its opening tag describes it.
pub open spec fn pending_of(attrs: Seq<(Seq<char>, Seq<char>)>) -> PendingView {
    PendingView {
        id: or_empty(attr_last(attrs, "id"@)),
        author: or_empty(attr_last(attrs, "author"@)),
        date: attr_last(attrs, "date"@),
        text: Seq::empty(),
    }
}

/// Some segment holds a character other than whitespace.
pub open spec fn has_content(segs: Seq<SegmentView>) -> bool {
    exists|i: int| 0 <= i < segs.len() && !is_blank(#[trigger] segs[i].text())
}

pub open spec fn initial_scan() -> ScanView {
    ScanView {
        paragraphs: Seq::empty(),
        depth: 0,
        segments: Seq::empty(),
        comment_ids: Seq::empty(),
        anchors: Seq::empty(),
        insertion: None,
        deletion: None,
        ranges: Seq::empty(),
    }
}

pub open spec fn open_paragraph(st: ScanView) -> ScanView {
    ScanView { depth: 1, segments: Seq::empty(), comment_ids: Seq::empty(), anchors: Seq::empty(), ..st }
}

/// Closing the outermost paragraph emits it, with the next index, only if it
/// has content.
pub open spec fn close_paragraph(st: ScanView) -> ScanView {
    let paragraphs = if has_content(st.segments) {
        st.paragraphs.push(
            ParsedParagraphView {
                index: st.paragraphs.len() as int,
                segments: st.segments,
                comment_ids: st.comment_ids,
                comment_anchor_texts: st.anchors,
            },
        )
    } else {
        st.paragraphs
    };
    ScanView {
        paragraphs,
        depth: 0,
        segments: Seq::empty(),
        comment_ids: Seq::empty(),
        anchors: Seq::empty(),
        ..st
    }
}

pub open spec fn range_position(ranges: Seq<(Seq<char>, Seq<char>)>, id: Seq<char>) -> int
    decreases ranges.len(),
{
    if ranges.len() == 0 {
        -1
    } else if ranges.last().0 == id {
        ranges.len() - 1
    } else {
        range_position(ranges.drop_last(), id)
    }
}

/// A comment range opens: its id is recorded, and it gathers text afresh.
pub open spec fn start_range(st: ScanView, id: Seq<char>) -> ScanView {
    let k = range_position(st.ranges, id);
    ScanView {
        comment_ids: st.comment_ids.push(id),
        ranges: if k >= 0 {
            st.ranges.update(k, (id, Seq::empty()))
        } else {
            st.ranges.push((id, Seq::empty()))
        },
        ..st
    }
}

/// A comment range closes: the text it gathered becomes its anchor text.
pub open spec fn end_range(st: ScanView, id: Seq<char>) -> ScanView {
    let k = range_position(st.ranges, id);
    if k >= 0 {
        ScanView { anchors: st.anchors.push((id, st.ranges[k].1)), ranges: st.ranges.remove(k), ..st }
    } else {
        st
    }
}

pub open spec fn start_ranges(st: ScanView, ids: Seq<Seq<char>>) -> ScanView
    decreases ids.len(),
{
    if ids.len() == 0 {
        st
    } else {
        start_range(start_ranges(st, ids.drop_last()), ids.last())
    }
}

pub open spec fn end_ranges(st: ScanView, ids: Seq<Seq<char>>) -> ScanView
    decreases ids.len(),
{
    if ids.len() == 0 {
        st
    } else {
        end_range(end_ranges(st, ids.drop_last()), ids.last())
    }
}

pub open spec fn extend_ranges(ranges: Seq<(Seq<char>, Seq<char>)>, t: Seq<char>) -> Seq<(Seq<char>, Seq<char>)> {
    ranges.map_values(|r: (Seq<char>, Seq<char>)| (r.0, r.1 + t))
}

pub open spec fn extend_pending(p: PendingView, t: Seq<char>) -> PendingView {
    PendingView { text: p.text + t, ..p }
}

/// Text inside a paragraph goes to every open comment range, and to one place:
/// the open insertion, else the open deletion, else the trailing stable segment.
pub open spec fn add_text(st: ScanView, t: Seq<char>) -> ScanView {
    let ranges = extend_ranges(st.ranges, t);
    if st.insertion is Some {
        ScanView { ranges, insertion: Some(extend_pending(st.insertion->0, t)), ..st }
    } else if st.deletion is Some {
        ScanView { ranges, deletion: Some(extend_pending(st.deletion->0, t)), ..st }
    } else if st.segments.len() > 0 && st.segments.last() is Stable {
        ScanView {
            ranges,
            segments: st.segments.drop_last().push(
                SegmentView::Stable(st.segments.last().text() + t),
            ),
            ..st
        }
    } else {
        ScanView { ranges, segments: st.segments.push(SegmentView::Stable(t)), ..st }
    }
}

/// The open insertion closes, and becomes a segment if it holds text.
pub open spec fn finish_insertion(st: ScanView) -> ScanView {
    let p = st.insertion->0;
    ScanView {
        segments: if p.text.len() > 0 {
            st.segments.push(
                SegmentView::Insertion { id: p.id, author: p.author, date: p.date, text: p.text },
            )
        } else {
            st.segments
        },
        insertion: None,
        ..st
    }
}

/// The open deletion closes, and becomes a segment if it holds text.
pub open spec fn finish_deletion(st: ScanView) -> ScanView {
    let p = st.deletion->0;
    ScanView {
        segments: if p.text.len() > 0 {
            st.segments.push(
                SegmentView::Deletion { id: p.id, author: p.author, date: p.date, text: p.text },
            )
        } else {
            st.segments
        },
        deletion: None,
        ..st
    }
}

/// The segmenter's state after one more event. Elements it does not know
/// leave the state as it was.
pub open spec fn step(st: ScanView, ev: XmlEventView) -> ScanView {
    match ev {
        XmlEventView::Start(el) => {
            let n = local_name_of(el.name);
            if n == "p"@ {
                if st.depth == 0 {
                    open_paragraph(st)
                } else {
                    ScanView { depth: st.depth + 1, ..st }
                }
            } else if n == "ins"@ && st.depth > 0 {
                ScanView { insertion: Some(pending_of(el.attributes)), ..st }
            } else if n == "del"@ && st.depth > 0 {
                ScanView { deletion: Some(pending_of(el.attributes)), ..st }
            } else {
                st
            }
        },
        XmlEventView::Empty(el) => {
            let n = local_name_of(el.name);
            if n == "commentRangeStart"@ && st.depth > 0 {
                start_ranges(st, attr_all(el.attributes, "id"@))
            } else if n == "commentRangeEnd"@ && st.depth > 0 {
                end_ranges(st, attr_all(el.attributes, "id"@))
            } else {
                st
            }
        },
        XmlEventView::Text(t) => {
            if st.depth > 0 {
                add_text(st, t)
            } else {
                st
            }
        },
        XmlEventView::End(name) => {
            let n = local_name_of(name);
            if n == "p"@ && st.depth > 0 {
                if st.depth == 1 {
                    close_paragraph(st)
                } else {
                    ScanView { depth: st.depth - 1, ..st }
                }
            } else if n == "ins"@ && st.insertion is Some {
                finish_insertion(st)
            } else if n == "del"@ && st.deletion is Some {
                finish_deletion(st)
            } else {
                st
            }
        },
        XmlEventView::Other => st,
    }
}

/// The state after a sequence of events.
pub open spec fn scan(evs: Seq<XmlEventView>) -> ScanView
    decreases evs.len(),
{
    if evs.len() == 0 {
        initial_scan()
    } else {
        step(scan(evs.drop_last()), evs.last())
    }
}

/// The paragraphs that a sequence of body events yields.
pub open spec fn paragraphs_of(evs: Seq<XmlEventView>) -> Seq<ParsedParagraphView> {
    scan(evs).paragraphs
}

// ───────────────────────── the state machine ─────────────────────────

struct Pending {
    id: String,
    author: String,
    date: Option<String>,
    text: String,
}

impl View for Pending {
    type V = PendingView;

    closed spec fn view(&self) -> PendingView {
        PendingView { id: self.id@, author: self.author@, date: opt_text(self.date), text: self.text@ }
    }
}

spec fn pending_view(o: Option<Pending>) -> Option<PendingView> {
    match o {
        Some(p) => Some(p@),
        None => None,
    }
}

struct Scan {
    paragraphs: Vec<ParsedParagraph>,
    depth: usize,
    segments: Vec<Segment>,
    comment_ids: Vec<String>,
    anchors: Vec<(String, String)>,
    insertion: Option<Pending>,
    deletion: Option<Pending>,
    ranges: Vec<(String, String)>,
}

impl View for Scan {
    type V = ScanView;

    closed spec fn view(&self) -> ScanView {
        ScanView {
            paragraphs: paragraphs_view(self.paragraphs@),
            depth: self.depth as int,
            segments: segments_view(self.segments@),
            comment_ids: texts_view(self.comment_ids@),
            anchors: pairs_view(self.anchors@),
            insertion: pending_view(self.insertion),
            deletion: pending_view(self.deletion),
            ranges: pairs_view(self.ranges@),
        }
    }
}

fn pending_from(attributes: &Vec<Attribute>) -> (r: Pending)
    ensures
        r@ == pending_of(attributes_view(attributes@)),
{
    let id = attribute_value(attributes, "id");
    let author = attribute_value(attributes, "author");
    let date = attribute_value(attributes, "date");
    Pending {
        id: id.unwrap_or(String::new()),
        author: author.unwrap_or(String::new()),
        date,
        text: String::new(),
    }
}

fn segments_have_content(segments: &Vec<Segment>) -> (r: bool)
    ensures
        r == has_content(segments_view(segments@)),
{
    let ghost sv = segments_view(segments@);
    let mut i: usize = 0;
    while i < segments.len()
        invariant
            sv == segments_view(segments@),
            i <= segments@.len(),
            forall|k: int| 0 <= k < i ==> is_blank(#[trigger] sv[k].text()),
        decreases segments@.len() - i,
    {
        let t = match &segments[i] {
            Segment::Stable(t) => t,
            Segment::Insertion { text, .. } => text,
            Segment::Deletion { text, .. } => text,
        };
        if !blank(t.as_str()) {
            assert(!is_blank(sv[i as int].text()));
            return true;
        }
        i += 1;
    }
    false
}

fn find_range(ranges: &Vec<(String, String)>, id: &String) -> (r: Option<usize>)
    ensures
        match r {
            Some(k) => k < ranges@.len() && k == range_position(pairs_view(ranges@), id@),
            None => range_position(pairs_view(ranges@), id@) == -1,
        },
{
    let ghost rv = pairs_view(ranges@);
    let mut i: usize = ranges.len();
    assert(rv.take(i as int) =~= rv);
    while i > 0
        invariant
            rv == pairs_view(ranges@),
            i <= ranges@.len(),
            range_position(rv, id@) == range_position(rv.take(i as int), id@),
        decreases i,
    {
        assert(rv.take(i as int).drop_last() =~= rv.take(i - 1));
        if ranges[i - 1].0 == *id {
            return Some(i - 1);
        }
        i -= 1;
    }
    None
}

impl Scan {
    fn new() -> (r: Scan)
        ensures
            r@ == initial_scan(),
    {
        let r = Scan {
            paragraphs: Vec::new(),
            depth: 0,
            segments: Vec::new(),
            comment_ids: Vec::new(),
            anchors: Vec::new(),
            insertion: None,
            deletion: None,
            ranges: Vec::new(),
        };
        assert(r@.paragraphs =~= Seq::empty());
        assert(r@.segments =~= Seq::empty());
        assert(r@.comment_ids =~= Seq::empty());
        assert(r@.anchors =~= Seq::empty());
        assert(r@.ranges =~= Seq::empty());
        r
    }

    fn open_paragraph(&mut self)
        ensures
            final(self)@ == open_paragraph(old(self)@),
    {
        self.depth = 1;
        self.segments = Vec::new();
        self.comment_ids = Vec::new();
        self.anchors = Vec::new();
        assert(self@.segments =~= Seq::empty());
        assert(self@.comment_ids =~= Seq::empty());
        assert(self@.anchors =~= Seq::empty());
    }

    fn close_paragraph(&mut self)
        ensures
            final(self)@ == close_paragraph(old(self)@),
    {
        let mut segments: Vec<Segment> = Vec::new();
        let mut comment_ids: Vec<String> = Vec::new();
        let mut anchors: Vec<(String, String)> = Vec::new();
        std::mem::swap(&mut segments, &mut self.segments);
        std::mem::swap(&mut comment_ids, &mut self.comment_ids);
        std::mem::swap(&mut anchors, &mut self.anchors);
        if segments_have_content(&segments) {
            let index = self.paragraphs.len();
            self.paragraphs.push(ParsedParagraph { index, segments, comment_ids, comment_anchor_texts: anchors });
            assert(self@.paragraphs =~= close_paragraph(old(self)@).paragraphs);
        }
        self.depth = 0;
        assert(self@.segments =~= Seq::empty());
        assert(self@.comment_ids =~= Seq::empty());
        assert(self@.anchors =~= Seq::empty());
    }

    fn start_range(&mut self, id: &String)
        ensures
            final(self)@ == start_range(old(self)@, id@),
            final(self).depth == old(self).depth,
    {
        self.comment_ids.push(id.clone());
        match find_range(&self.ranges, id) {
            Some(k) => {
                self.ranges.set(k, (id.clone(), String::new()));
            },
            None => {
                self.ranges.push((id.clone(), String::new()));
            },
        }
        assert(self@.comment_ids =~= start_range(old(self)@, id@).comment_ids);
        assert(self@.ranges =~= start_range(old(self)@, id@).ranges);
    }

    fn end_range(&mut self, id: &String)
        ensures
            final(self)@ == end_range(old(self)@, id@),
            final(self).depth == old(self).depth,
    {
        match find_range(&self.ranges, id) {
            Some(k) => {
                let r = self.ranges.remove(k);
                self.anchors.push((id.clone(), r.1));
                assert(self@.anchors =~= end_range(old(self)@, id@).anchors);
                assert(self@.ranges =~= end_range(old(self)@, id@).ranges);
            },
            None => {},
        }
    }

    fn start_ranges(&mut self, attributes: &Vec<Attribute>)
        ensures
            final(self)@ == start_ranges(old(self)@, attr_all(attributes_view(attributes@), "id"@)),
            final(self).depth == old(self).depth,
    {
        let ghost av = attributes_view(attributes@);
        let ghost st0 = self@;
        let mut i: usize = 0;
        while i < attributes.len()
            invariant
                av == attributes_view(attributes@),
                i <= attributes@.len(),
                self@ == start_ranges(st0, attr_all(av.take(i as int), "id"@)),
                self.depth == old(self).depth,
            decreases attributes@.len() - i,
        {
            proof {
                crate::xml::lemma_attr_step(av, i as int, "id"@);
            }
            if has_local_name(attributes[i].key.as_str(), "id") {
                self.start_range(&attributes[i].value);
                proof {
                    let ids = attr_all(av.take(i + 1), "id"@);
                    assert(ids.drop_last() =~= attr_all(av.take(i as int), "id"@));
                }
            }
            i += 1;
        }
        assert(av.take(attributes@.len() as int) =~= av);
    }

    fn end_ranges(&mut self, attributes: &Vec<Attribute>)
        ensures
            final(self)@ == end_ranges(old(self)@, attr_all(attributes_view(attributes@), "id"@)),
            final(self).depth == old(self).depth,
    {
        let ghost av = attributes_view(attributes@);
        let ghost st0 = self@;
        let mut i: usize = 0;
        while i < attributes.len()
            invariant
                av == attributes_view(attributes@),
                i <= attributes@.len(),
                self@ == end_ranges(st0, attr_all(av.take(i as int), "id"@)),
                self.depth == old(self).depth,
            decreases attributes@.len() - i,
        {
            proof {
                crate::xml::lemma_attr_step(av, i as int, "id"@);
            }
            if has_local_name(attributes[i].key.as_str(), "id") {
                self.end_range(&attributes[i].value);
                proof {
                    let ids = attr_all(av.take(i + 1), "id"@);
                    assert(ids.drop_last() =~= attr_all(av.take(i as int), "id"@));
                }
            }
            i += 1;
        }
        assert(av.take(attributes@.len() as int) =~= av);
    }

    fn add_text(&mut self, t: &String)
        ensures
            final(self)@ == add_text(old(self)@, t@),
            final(self).depth == old(self).depth,
    {
        let ghost st0 = self@;
        let mut ranges: Vec<(String, String)> = Vec::new();
        let mut k: usize = 0;
        while k < self.ranges.len()
            invariant
                st0 == old(self)@,
                self@ == st0,
                k <= self.ranges@.len(),
                ranges@.len() == k,
                pairs_view(ranges@) == extend_ranges(st0.ranges, t@).take(k as int),
            decreases self.ranges@.len() - k,
        {
            let mut acc = self.ranges[k].1.clone();
            acc.append(t.as_str());
            ranges.push((self.ranges[k].0.clone(), acc));
            assert(st0.ranges[k as int] == (self.ranges@[k as int].0@, self.ranges@[k as int].1@));
            assert(pairs_view(ranges@) =~= extend_ranges(st0.ranges, t@).take(k + 1));
            k += 1;
        }
        assert(extend_ranges(st0.ranges, t@).take(k as int) =~= extend_ranges(st0.ranges, t@));
        self.ranges = ranges;
        match self.insertion.take() {
            Some(mut p) => {
                p.text.append(t.as_str());
                self.insertion = Some(p);
            },
            None => match self.deletion.take() {
                Some(mut p) => {
                    p.text.append(t.as_str());
                    self.deletion = Some(p);
                },
                None => {
                    match self.segments.pop() {
                        Some(Segment::Stable(mut s)) => {
                            s.append(t.as_str());
                            self.segments.push(Segment::Stable(s));
                        },
                        Some(other) => {
                            self.segments.push(other);
                            self.segments.push(Segment::Stable(t.clone()));
                        },
                        None => {
                            self.segments.push(Segment::Stable(t.clone()));
                        },
                    }
                    assert(self@.segments =~= add_text(st0, t@).segments);
                },
            },
        }
    }

    fn finish_insertion(&mut self)
        requires
            old(self).insertion is Some,
        ensures
            final(self)@ == finish_insertion(old(self)@),
            final(self).depth == old(self).depth,
    {
        match self.insertion.take() {
            Some(p) => {
                if p.text.as_str().unicode_len() > 0 {
                    self.segments.push(
                        Segment::Insertion { id: p.id, author: p.author, date: p.date, text: p.text },
                    );
                }
            },
            None => {},
        }
        assert(self@.segments =~= finish_insertion(old(self)@).segments);
    }

    fn finish_deletion(&mut self)
        requires
            old(self).deletion is Some,
        ensures
            final(self)@ == finish_deletion(old(self)@),
            final(self).depth == old(self).depth,
    {
        match self.deletion.take() {
            Some(p) => {
                if p.text.as_str().unicode_len() > 0 {
                    self.segments.push(
                        Segment::Deletion { id: p.id, author: p.author, date: p.date, text: p.text },
                    );
                }
            },
            None => {},
        }
        assert(self@.segments =~= finish_deletion(old(self)@).segments);
    }

    fn step(&mut self, ev: &XmlEvent)
        requires
            old(self).depth < usize::MAX,
        ensures
            final(self)@ == step(old(self)@, ev@),
            final(self).depth <= old(self).depth + 1,
    {
        match ev {
            XmlEvent::Start(el) => {
                let name = el.name.as_str();
                if has_local_name(name, "p") {
                    if self.depth == 0 {
                        self.open_paragraph();
                    } else {
                        self.depth = self.depth + 1;
                    }
                } else if has_local_name(name, "ins") && self.depth > 0 {
                    self.insertion = Some(pending_from(&el.attributes));
                } else if has_local_name(name, "del") && self.depth > 0 {
                    self.deletion = Some(pending_from(&el.attributes));
                }
            },
            XmlEvent::Empty(el) => {
                let name = el.name.as_str();
                if has_local_name(name, "commentRangeStart") && self.depth > 0 {
                    self.start_ranges(&el.attributes);
                } else if has_local_name(name, "commentRangeEnd") && self.depth > 0 {
                    self.end_ranges(&el.attributes);
                }
            },
            XmlEvent::Text(t) => {
                if self.depth > 0 {
                    self.add_text(t);
                }
            },
            XmlEvent::End(name) => {
                let name = name.as_str();
                if has_local_name(name, "p") && self.depth > 0 {
                    if self.depth == 1 {
                        self.close_paragraph();
                    } else {
                        self.depth = self.depth - 1;
                    }
                } else if has_local_name(name, "ins") && self.insertion.is_some() {
                    self.finish_insertion();
                } else if has_local_name(name, "del") && self.deletion.is_some() {
                    self.finish_deletion();
                }
            },
            XmlEvent::Other => {},
        }
    }
}

/// The paragraphs of a body given as markup events, in document order: one per
/// outermost paragraph element that holds some text other than whitespace.
pub fn parse_events(events: &[XmlEvent]) -> (r: Vec<ParsedParagraph>)
    ensures
        paragraphs_view(r@) == paragraphs_of(events_view(events@)),
{
    let ghost ev = events_view(events@);
    let mut st = Scan::new();
    let mut i: usize = 0;
    while i < events.len()
        invariant
            ev == events_view(events@),
            i <= events@.len(),
            st@ == scan(ev.take(i as int)),
            st@.depth <= i,
        decreases events@.len() - i,
    {
        proof {
            assert(ev.take(i + 1).drop_last() =~= ev.take(i as int));
        }
        st.step(&events[i]);
        i += 1;
    }
    assert(ev.take(events@.len() as int) =~= ev);
    st.paragraphs
}

/// Parse document.xml and extract all paragraphs with their track changes and
/// comment anchors. Markup that cannot be read ends the scan: the paragraphs
/// closed before it are kept.
pub fn parse_document(xml: &str) -> (r: Vec<ParsedParagraph>)
    ensures
        paragraphs_view(r@) == paragraphs_of(xml_events_of(xml@)),
{
    let events = read_events(xml);
    parse_events(events.as_slice())
}

// ───────────────────────── laws ─────────────────────────

proof fn lemma_ranges_keep_paragraphs(st: ScanView, ids: Seq<Seq<char>>)
    ensures
        start_ranges(st, ids).paragraphs == st.paragraphs,
        end_ranges(st, ids).paragraphs == st.paragraphs,
    decreases ids.len(),
{
    if ids.len() > 0 {
        lemma_ranges_keep_paragraphs(st, ids.drop_last());
    }
}

proof fn lemma_step_paragraphs(st: ScanView, ev: XmlEventView)
    ensures
        step(st, ev).paragraphs == st.paragraphs || ({
            let ps = step(st, ev).paragraphs;
            &&& ps.len() == st.paragraphs.len() + 1
            &&& ps.drop_last() == st.paragraphs
            &&& ps.last().index == st.paragraphs.len()
            &&& has_content(ps.last().segments)
        }),
{
    match ev {
        XmlEventView::Empty(el) => {
            lemma_ranges_keep_paragraphs(st, attr_all(el.attributes, "id"@));
        },
        XmlEventView::End(name) => {
            if local_name_of(name) == "p"@ && st.depth == 1 && has_content(st.segments) {
                assert(step(st, ev).paragraphs.drop_last() =~= st.paragraphs);
            }
        },
        _ => {},
    }
}

/// Closing a paragraph whose segments hold only whitespace emits nothing, and
/// so takes no index.
pub proof fn lemma_blank_paragraph_dropped(st: ScanView, name: Seq<char>)
    requires
        st.depth == 1,
        !has_content(st.segments),
        local_name_of(name) == "p"@,
    ensures
        step(st, XmlEventView::End(name)).paragraphs == st.paragraphs,
        step(st, XmlEventView::End(name)).depth == 0,
{
}

/// Every paragraph that the segmenter emits holds some text other than
/// whitespace, and its index is its place among the emitted paragraphs.
pub proof fn lemma_emitted_paragraphs(evs: Seq<XmlEventView>)
    ensures
        forall|k: int|
            0 <= k < paragraphs_of(evs).len() ==> (#[trigger] paragraphs_of(evs)[k]).index == k
                && has_content(paragraphs_of(evs)[k].segments),
    decreases evs.len(),
{
    if evs.len() > 0 {
        let pre = evs.drop_last();
        lemma_emitted_paragraphs(pre);
        let st = scan(pre);
        lemma_step_paragraphs(st, evs.last());
        let ps = paragraphs_of(evs);
        assert(ps == step(st, evs.last()).paragraphs);
        assert(st.paragraphs == paragraphs_of(pre));
        if ps != st.paragraphs {
            assert forall|k: int| 0 <= k < ps.len() implies (#[trigger] ps[k]).index == k
                && has_content(ps[k].segments) by {
                if k < st.paragraphs.len() {
                    assert(ps[k] == ps.drop_last()[k]);
                    assert(st.paragraphs[k] == paragraphs_of(pre)[k]);
                }
            }
        }
    }
}

/// An event inside a blank paragraph that changes nothing but that paragraph:
/// whitespace text, and any element but a paragraph, an insertion or deletion
/// start, or a comment range marker.
pub open spec fn inert_blank_event(ev: XmlEventView) -> bool {
    match ev {
        XmlEventView::Start(el) => {
            let n = local_name_of(el.name);
            n != "p"@ && n != "ins"@ && n != "del"@
        },
        XmlEventView::Empty(el) => {
            let n = local_name_of(el.name);
            n != "commentRangeStart"@ && n != "commentRangeEnd"@
        },
        XmlEventView::End(name) => local_name_of(name) != "p"@,
        XmlEventView::Text(t) => is_blank(t),
        XmlEventView::Other => true,
    }
}

/// The events of one paragraph element whose text is only whitespace, with no
/// insertion, deletion, comment range or nested paragraph in it.
pub open spec fn blank_paragraph(b: Seq<XmlEventView>) -> bool {
    &&& b.len() >= 2
    &&& b[0] is Start && local_name_of(b[0]->Start_0.name) == "p"@
    &&& b.last() is End && local_name_of(b.last()->End_0) == "p"@
    &&& forall|k: int| 1 <= k < b.len() - 1 ==> inert_blank_event(#[trigger] b[k])
}

/// Two states that will emit the same paragraphs from here on: they differ at
/// most in what a paragraph gathers, and only while none is open.
pub open spec fn agree(s1: ScanView, s2: ScanView) -> bool {
    &&& s1.paragraphs == s2.paragraphs
    &&& s1.depth == s2.depth
    &&& s1.insertion == s2.insertion
    &&& s1.deletion == s2.deletion
    &&& s1.ranges == s2.ranges
    &&& s1.depth != 0 ==> s1.segments == s2.segments && s1.comment_ids == s2.comment_ids
        && s1.anchors == s2.anchors
}

proof fn lemma_step_agree(s1: ScanView, s2: ScanView, ev: XmlEventView)
    requires
        agree(s1, s2),
    ensures
        agree(step(s1, ev), step(s2, ev)),
{
    if s1.depth != 0 {
        assert(s1 == s2);
    }
}

proof fn lemma_scan_agree(x: Seq<XmlEventView>, y: Seq<XmlEventView>, c: Seq<XmlEventView>)
    requires
        agree(scan(x), scan(y)),
    ensures
        agree(scan(x + c), scan(y + c)),
    decreases c.len(),
{
    if c.len() == 0 {
        assert(x + c =~= x);
        assert(y + c =~= y);
    } else {
        lemma_scan_agree(x, y, c.drop_last());
        assert((x + c).drop_last() =~= x + c.drop_last());
        assert((y + c).drop_last() =~= y + c.drop_last());
        lemma_step_agree(scan(x + c.drop_last()), scan(y + c.drop_last()), c.last());
    }
}

/// The state inside a blank paragraph opened after `st`.
spec fn inside_blank(s: ScanView, st: ScanView) -> bool {
    &&& s.paragraphs == st.paragraphs
    &&& s.depth == 1
    &&& s.insertion is None
    &&& s.deletion is None
    &&& s.ranges.len() == 0
    &&& forall|i: int| 0 <= i < s.segments.len() ==> #[trigger] s.segments[i] is Stable && is_blank(s.segments[i].text())
}

proof fn lemma_blank_steps(a: Seq<XmlEventView>, b: Seq<XmlEventView>, k: int)
    requires
        scan(a).depth == 0,
        scan(a).insertion is None,
        scan(a).deletion is None,
        scan(a).ranges.len() == 0,
        blank_paragraph(b),
        1 <= k < b.len(),
    ensures
        inside_blank(scan(a + b.take(k)), scan(a)),
    decreases k,
{
    assert((a + b.take(k)).drop_last() =~= a + b.take(k - 1));
    assert((a + b.take(k)).last() == b[k - 1]);
    if k == 1 {
        assert(b.take(0) =~= Seq::<XmlEventView>::empty());
        assert(a + b.take(0) =~= a);
    } else {
        lemma_blank_steps(a, b, k - 1);
        let s = scan(a + b.take(k - 1));
        let ev = b[k - 1];
        assert(inert_blank_event(ev));
        match ev {
            XmlEventView::Text(t) => {
                let n = step(s, ev);
                assert(extend_ranges(s.ranges, t) =~= s.ranges);
                if s.segments.len() > 0 && s.segments.last() is Stable {
                    lemma_blank_concat(s.segments.last().text(), t);
                    assert forall|i: int| 0 <= i < n.segments.len() implies #[trigger] n.segments[i] is Stable
                        && is_blank(n.segments[i].text()) by {
                        if i < s.segments.len() - 1 {
                            assert(n.segments[i] == s.segments[i]);
                        }
                    }
                } else {
                    assert forall|i: int| 0 <= i < n.segments.len() implies #[trigger] n.segments[i] is Stable
                        && is_blank(n.segments[i].text()) by {
                        if i < s.segments.len() {
                            assert(n.segments[i] == s.segments[i]);
                        }
                    }
                }
            },
            _ => {},
        }
    }
}

/// A blank paragraph is dropped and takes no index: taking its events out of
/// the body leaves the emitted paragraphs as they were, where it stands
/// outside any paragraph, with no insertion, deletion or comment range open.
pub proof fn lemma_blank_paragraph_removed(
    a: Seq<XmlEventView>,
    b: Seq<XmlEventView>,
    c: Seq<XmlEventView>,
)
    requires
        scan(a).depth == 0,
        scan(a).insertion is None,
        scan(a).deletion is None,
        scan(a).ranges.len() == 0,
        blank_paragraph(b),
    ensures
        paragraphs_of(a + b + c) == paragraphs_of(a + c),
{
    let n = b.len() as int;
    lemma_blank_steps(a, b, n - 1);
    let s = scan(a + b.take(n - 1));
    assert((a + b).drop_last() =~= a + b.take(n - 1));
    assert((a + b).last() == b.last());
    if has_content(s.segments) {
        let i = choose|i: int| 0 <= i < s.segments.len() && !is_blank(#[trigger] s.segments[i].text());
        assert(s.segments[i] is Stable);
    }
    assert(s.ranges =~= scan(a).ranges);
    assert(agree(scan(a + b), scan(a)));
    lemma_scan_agree(a + b, a, c);
}

} // verus!
