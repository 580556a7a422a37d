//! The heading outline shown in the sidebar.

use vstd::prelude::*;
use crate::lines::{as_ints, line_count, line_index, line_of, line_starts, line_starts_of};
use crate::scan::{Scan, Span, SpanStyle};
use crate::text::{chars_of, string_of, trim_range, trimmed};

verus! {

/// One heading, as the sidebar needs it.
#[derive(Debug, Clone, PartialEq, Eq)]
pub struct Heading {
    /// 1–6.
    pub level: u8,
    /// The heading without its hashes, for a row label.
    pub text: String,
    /// Character offset of the start of the heading's *line*, which is where
    /// clicking the row scrolls to.
    pub offset: usize,
    /// Zero-based line number.
    pub line: usize,
}

pub struct HeadingView {
    pub level: u8,
    pub text: Seq<char>,
    pub offset: int,
    pub line: int,
}

impl View for Heading {
    type V = HeadingView;

    open spec fn view(&self) -> HeadingView {
        HeadingView {
            level: self.level,
            text: self.text@,
            offset: self.offset as int,
            line: self.line as int,
        }
    }
}

pub open spec fn views(hs: Seq<Heading>) -> Seq<HeadingView> {
    hs.map_values(|h: Heading| h@)
}

/// The sidebar row for one span, if it is a heading whose content lies
/// within the text.
pub open spec fn heading_entry(s: Seq<char>, span: Span) -> Option<HeadingView> {
    match span.style {
        SpanStyle::Heading(level) => {
            let end = if span.end < s.len() {
                span.end as int
            } else {
                s.len() as int
            };
            if span.start <= end {
                Some(
                    HeadingView {
                        level,
                        text: trimmed(s.subrange(span.start as int, end)),
                        offset: line_starts(s)[line_of(s, span.start as int)],
                        line: line_of(s, span.start as int),
                    },
                )
            } else {
                None
            }
        },
        _ => None,
    }
}

/// The rows for every heading span, in the order the scan reports them.
pub open spec fn heading_entries(s: Seq<char>, spans: Seq<Span>) -> Seq<HeadingView>
    decreases spans.len(),
{
    if spans.len() == 0 {
        seq![]
    } else {
        let before = heading_entries(s, spans.drop_last());
        match heading_entry(s, spans.last()) {
            Some(h) => before.push(h),
            None => before,
        }
    }
}

/// `h` placed after every row of `sorted` at or before its offset.
pub open spec fn insert_by_offset(sorted: Seq<HeadingView>, h: HeadingView) -> Seq<HeadingView>
    decreases sorted.len(),
{
    if sorted.len() == 0 {
        seq![h]
    } else if sorted.last().offset <= h.offset {
        sorted.push(h)
    } else {
        insert_by_offset(sorted.drop_last(), h).push(sorted.last())
    }
}

/// The rows ordered by offset, rows at the same offset keeping their order.
pub open spec fn sort_by_offset(hs: Seq<HeadingView>) -> Seq<HeadingView>
    decreases hs.len(),
{
    if hs.len() == 0 {
        seq![]
    } else {
        insert_by_offset(sort_by_offset(hs.drop_last()), hs.last())
    }
}

/// Every heading in the document, in document order.
pub open spec fn outline_of(s: Seq<char>, spans: Seq<Span>) -> Seq<HeadingView> {
    sort_by_offset(heading_entries(s, spans))
}

/// The row to mark for an offset: the last heading at or before it.
pub open spec fn is_active(hs: Seq<HeadingView>, offset: int, active: Option<int>) -> bool {
    match active {
        Some(i) => 0 <= i < hs.len() && hs[i].offset <= offset && forall|j: int|
            i < j < hs.len() ==> hs[j].offset > offset,
        None => forall|j: int| 0 <= j < hs.len() ==> hs[j].offset > offset,
    }
}

pub open spec fn sorted_by_offset(hs: Seq<HeadingView>) -> bool {
    forall|i: int, j: int| 0 <= i <= j < hs.len() ==> hs[i].offset <= hs[j].offset
}

/// Where `insert_by_offset` puts a row with offset `key`.
spec fn upper(sorted: Seq<HeadingView>, key: int) -> int
    decreases sorted.len(),
{
    if sorted.len() == 0 || sorted.last().offset <= key {
        sorted.len() as int
    } else {
        upper(sorted.drop_last(), key)
    }
}

proof fn lemma_upper(sorted: Seq<HeadingView>, key: int)
    ensures
        0 <= upper(sorted, key) <= sorted.len(),
        forall|j: int| upper(sorted, key) <= j < sorted.len() ==> sorted[j].offset > key,
        upper(sorted, key) == 0 || sorted[upper(sorted, key) - 1].offset <= key,
    decreases sorted.len(),
{
    if sorted.len() > 0 && sorted.last().offset > key {
        let d = sorted.drop_last();
        lemma_upper(d, key);
        assert forall|j: int| upper(sorted, key) <= j < sorted.len() implies sorted[j].offset
            > key by {
            if j < d.len() {
                assert(d[j] == sorted[j]);
            }
        }
        if upper(d, key) > 0 {
            assert(d[upper(d, key) - 1] == sorted[upper(d, key) - 1]);
        }
    }
}

proof fn lemma_sort_is_sorted(hs: Seq<HeadingView>)
    ensures
        sorted_by_offset(sort_by_offset(hs)),
        sort_by_offset(hs).len() == hs.len(),
    decreases hs.len(),
{
    if hs.len() > 0 {
        let x = sort_by_offset(hs.drop_last());
        lemma_sort_is_sorted(hs.drop_last());
        let h = hs.last();
        lemma_upper(x, h.offset);
        let p = upper(x, h.offset);
        lemma_insert_at(x, h, p);
        let y = x.take(p).push(h) + x.skip(p);
        assert forall|i: int, j: int| 0 <= i <= j < y.len() implies y[i].offset <= y[j].offset by {
            if i < p && j > p {
                assert(y[j] == x[j - 1]);
            } else if i > p {
                assert(y[i] == x[i - 1]);
                assert(y[j] == x[j - 1]);
            }
        }
    }
}

/// The outline is in document order: its rows never go back up the page.
pub proof fn lemma_outline_in_document_order(s: Seq<char>, spans: Seq<Span>)
    ensures
        sorted_by_offset(outline_of(s, spans)),
{
    lemma_sort_is_sorted(heading_entries(s, spans));
}

proof fn lemma_insert_at(sorted: Seq<HeadingView>, h: HeadingView, p: int)
    requires
        0 <= p <= sorted.len(),
        forall|j: int| p <= j < sorted.len() ==> sorted[j].offset > h.offset,
        p == 0 || sorted[p - 1].offset <= h.offset,
    ensures
        insert_by_offset(sorted, h) == sorted.take(p).push(h) + sorted.skip(p),
    decreases sorted.len(),
{
    if sorted.len() == 0 {
        assert(sorted.take(p).push(h) + sorted.skip(p) =~= seq![h]);
    } else if sorted.last().offset <= h.offset {
        assert(p == sorted.len());
        assert(sorted.take(p).push(h) + sorted.skip(p) =~= sorted.push(h));
    } else {
        let d = sorted.drop_last();
        lemma_insert_at(d, h, p);
        assert(d.take(p).push(h) + d.skip(p) + seq![sorted.last()] =~= sorted.take(p).push(h)
            + sorted.skip(p));
    }
}

/// The sidebar row `active` for a caret or viewport at `offset`: the last
/// heading at or before it, or none above the first heading.
pub fn active(headings: &Vec<Heading>, offset: usize) -> (active: Option<usize>)
    ensures
        is_active(
            views(headings@),
            offset as int,
            match active {
                Some(i) => Some(i as int),
                None => None,
            },
        ),
{
    let ghost hs = views(headings@);
    let mut i = headings.len();
    while i > 0
        invariant
            i <= headings.len(),
            hs == views(headings@),
            forall|j: int| i <= j < hs.len() ==> hs[j].offset > offset,
        decreases i,
    {
        if headings[i - 1].offset <= offset {
            return Some(i - 1);
        }
        i = i - 1;
    }
    None
}

/// Every heading in the document, in document order, with the offset and
/// number of the line it is on.
pub fn outline(text: &str, scan: &Scan) -> (headings: Vec<Heading>)
    ensures
        views(headings@) == outline_of(text@, scan.spans@),
{
    let chars = chars_of(text);
    let starts = line_starts_of(&chars);
    let ghost s = chars@;
    let ghost spans = scan.spans@;
    assert(starts@.len() == as_ints(starts@).len());
    let mut sorted: Vec<Heading> = Vec::new();
    let mut i: usize = 0;
    assert(spans.take(0) =~= seq![]);
    while i < scan.spans.len()
        invariant
            s == chars@,
            spans == scan.spans@,
            as_ints(starts@) == line_starts(s),
            starts@.len() == line_count(s),
            i <= spans.len(),
            views(sorted@) == sort_by_offset(heading_entries(s, spans.take(i as int))),
        decreases spans.len() - i,
    {
        let span = scan.spans[i];
        assert(spans.take(i + 1).drop_last() =~= spans.take(i as int));
        assert(spans.take(i + 1).last() == span);
        let ghost prev_entries = heading_entries(s, spans.take(i as int));
        assert(heading_entries(s, spans.take(i + 1)) == match heading_entry(s, span) {
            Some(h) => prev_entries.push(h),
            None => prev_entries,
        });
        if let SpanStyle::Heading(level) = span.style {
            let end = if span.end < chars.len() {
                span.end
            } else {
                chars.len()
            };
            if span.start <= end {
                let content = trim_range(&chars, span.start, end);
                let line = line_index(&chars, &starts, span.start);
                assert(starts@[line as int] as int == line_starts(s)[line as int]);
                let heading = Heading {
                    level,
                    text: string_of(&content),
                    offset: starts[line],
                    line,
                };
                let ghost hv = heading@;
                let ghost before = views(sorted@);
                assert(heading_entry(s, span) == Some(hv));
                let mut p = sorted.len();
                while p > 0 && sorted[p - 1].offset > heading.offset
                    invariant
                        p <= sorted.len(),
                        before == views(sorted@),
                        hv == heading@,
                        forall|j: int| p <= j < before.len() ==> before[j].offset > hv.offset,
                    decreases p,
                {
                    p = p - 1;
                }
                proof {
                    lemma_insert_at(before, hv, p as int);
                }
                sorted.insert(p, heading);
                assert(views(sorted@) =~= before.take(p as int).push(hv) + before.skip(p as int));
                assert(prev_entries.push(hv).drop_last() =~= prev_entries);
            }
        }
        i = i + 1;
    }
    assert(spans.take(spans.len() as int) =~= spans);
    sorted
}

} // verus!
