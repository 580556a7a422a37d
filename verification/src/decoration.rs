//! The parts of a rendered document that are drawn rather than typed: the bar
//! down the side of a quote, the rule under a second-level heading, a
//! thematic break, the frame round a fenced block. Named by line, because that
//! is the coordinate a text view can turn into a rectangle.

use vstd::prelude::*;
use crate::lines::{as_ints, line_count, line_index, line_of, line_starts, line_starts_of};
use crate::scan::{Scan, Span, SpanStyle};
use crate::text::chars_of;

verus! {

#[derive(Debug, Clone, Copy, PartialEq, Eq, Structural)]
pub enum Decoration {
    /// The bar down the left of a block quote. Consecutive quoted lines are one
    /// bar.
    QuoteBar { first_line: usize, last_line: usize },
    /// The rule beneath a second-level heading.
    HeadingRule { line: usize },
    /// `---` on a line of its own.
    ThematicBreak { line: usize },
    /// The frame round a fenced code block, fences included.
    CodeFrame { first_line: usize, last_line: usize },
}

/// The maximal runs of `true` in `mask`, as inclusive index pairs, in order.
pub open spec fn runs_of(mask: Seq<bool>) -> Seq<(int, int)>
    decreases mask.len(),
{
    if mask.len() == 0 {
        seq![]
    } else {
        let prev = runs_of(mask.drop_last());
        let i = mask.len() - 1;
        if !mask[i] {
            prev
        } else if i > 0 && mask[i - 1] && prev.len() > 0 {
            prev.update(prev.len() - 1, (prev.last().0, i as int))
        } else {
            prev.push((i as int, i as int))
        }
    }
}

/// `a..=b` is a maximal run of `true` in `mask`.
pub open spec fn is_run(mask: Seq<bool>, a: int, b: int) -> bool {
    &&& 0 <= a <= b < mask.len()
    &&& forall|i: int| a <= i <= b ==> mask[i]
    &&& a == 0 || !mask[a - 1]
    &&& b + 1 == mask.len() || !mask[b + 1]
}

pub open spec fn pairs(v: Seq<(usize, usize)>) -> Seq<(int, int)> {
    v.map_values(|p: (usize, usize)| (p.0 as int, p.1 as int))
}

/// The rule-like decorations of headings and breaks, in span order.
pub open spec fn rule_decorations(s: Seq<char>, spans: Seq<Span>) -> Seq<Decoration>
    decreases spans.len(),
{
    if spans.len() == 0 {
        seq![]
    } else {
        let before = rule_decorations(s, spans.drop_last());
        let span = spans.last();
        let line = line_of(s, span.start as int) as usize;
        match span.style {
            SpanStyle::Heading(level) => if level == 2 {
                before.push(Decoration::HeadingRule { line })
            } else {
                before
            },
            SpanStyle::Rule => before.push(Decoration::ThematicBreak { line }),
            _ => before,
        }
    }
}

/// Which lines hold quoted content.
pub open spec fn quoted_lines(s: Seq<char>, spans: Seq<Span>) -> Seq<bool> {
    Seq::new(
        line_count(s) as nat,
        |l: int|
            exists|i: int|
                0 <= i < spans.len() && spans[i].style == SpanStyle::Quote && line_of(
                    s,
                    #[trigger] spans[i].start as int,
                ) == l,
    )
}

pub open spec fn quote_bars(runs: Seq<(int, int)>) -> Seq<Decoration> {
    runs.map_values(
        |r: (int, int)| Decoration::QuoteBar { first_line: r.0 as usize, last_line: r.1 as usize },
    )
}

/// A line's state is what it begins in, so the run of fenced lines starts one
/// line below the opening fence: the frame starts a line above the run.
pub open spec fn code_frames(runs: Seq<(int, int)>) -> Seq<Decoration> {
    runs.map_values(
        |r: (int, int)|
            Decoration::CodeFrame {
                first_line: if r.0 > 0 {
                    (r.0 - 1) as usize
                } else {
                    0
                },
                last_line: r.1 as usize,
            },
    )
}

/// Every decoration of a document: heading rules and breaks in span order,
/// then the quote bars, then the code frames.
pub open spec fn decorations_of(s: Seq<char>, spans: Seq<Span>, fenced: Seq<bool>) -> Seq<
    Decoration,
> {
    rule_decorations(s, spans) + quote_bars(runs_of(quoted_lines(s, spans))) + code_frames(
        runs_of(fenced),
    )
}

proof fn lemma_rule_decorations(s: Seq<char>, spans: Seq<Span>)
    ensures
        forall|l: usize|
            rule_decorations(s, spans).contains(Decoration::HeadingRule { line: l }) <==> exists|
                i: int,
            |
                0 <= i < spans.len() && #[trigger] spans[i].style == SpanStyle::Heading(2)
                    && line_of(s, spans[i].start as int) as usize == l,
        forall|l: usize|
            rule_decorations(s, spans).contains(Decoration::ThematicBreak { line: l }) <==> exists|
                i: int,
            |
                0 <= i < spans.len() && #[trigger] spans[i].style == SpanStyle::Rule && line_of(
                    s,
                    spans[i].start as int,
                ) as usize == l,
    decreases spans.len(),
{
    if spans.len() > 0 {
        let init = spans.drop_last();
        lemma_rule_decorations(s, init);
        let before = rule_decorations(s, init);
        let now = rule_decorations(s, spans);
        let n = spans.len() - 1;
        assert forall|l: usize|
            now.contains(Decoration::HeadingRule { line: l }) <==> exists|i: int|
                0 <= i < spans.len() && #[trigger] spans[i].style == SpanStyle::Heading(2)
                    && line_of(s, spans[i].start as int) as usize == l by {
            let d = Decoration::HeadingRule { line: l };
            assert(before.contains(d) <==> exists|i: int|
                0 <= i < init.len() && #[trigger] init[i].style == SpanStyle::Heading(2)
                    && line_of(s, init[i].start as int) as usize == l);
            if now.contains(d) {
                let k = choose|k: int| 0 <= k < now.len() && now[k] == d;
                if k < before.len() {
                    assert(before[k] == d);
                    assert(before.contains(d));
                    let i = choose|i: int|
                        0 <= i < init.len() && #[trigger] init[i].style == SpanStyle::Heading(2)
                            && line_of(s, init[i].start as int) as usize == l;
                    assert(spans[i] == init[i]);
                } else {
                    assert(spans[n].style == SpanStyle::Heading(2));
                }
            }
            if exists|i: int|
                0 <= i < spans.len() && #[trigger] spans[i].style == SpanStyle::Heading(2)
                    && line_of(s, spans[i].start as int) as usize == l {
                let i = choose|i: int|
                    0 <= i < spans.len() && #[trigger] spans[i].style == SpanStyle::Heading(2)
                        && line_of(s, spans[i].start as int) as usize == l;
                if i < n {
                    assert(init[i] == spans[i]);
                    assert(before.contains(d));
                    let k = choose|k: int| 0 <= k < before.len() && before[k] == d;
                    assert(now[k] == d);
                } else {
                    assert(now[now.len() - 1] == d);
                }
            }
        }
        assert forall|l: usize|
            now.contains(Decoration::ThematicBreak { line: l }) <==> exists|i: int|
                0 <= i < spans.len() && #[trigger] spans[i].style == SpanStyle::Rule && line_of(
                    s,
                    spans[i].start as int,
                ) as usize == l by {
            let d = Decoration::ThematicBreak { line: l };
            assert(before.contains(d) <==> exists|i: int|
                0 <= i < init.len() && #[trigger] init[i].style == SpanStyle::Rule && line_of(
                    s,
                    init[i].start as int,
                ) as usize == l);
            if now.contains(d) {
                let k = choose|k: int| 0 <= k < now.len() && now[k] == d;
                if k < before.len() {
                    assert(before[k] == d);
                    assert(before.contains(d));
                    let i = choose|i: int|
                        0 <= i < init.len() && #[trigger] init[i].style == SpanStyle::Rule
                            && line_of(s, init[i].start as int) as usize == l;
                    assert(spans[i] == init[i]);
                } else {
                    assert(spans[n].style == SpanStyle::Rule);
                }
            }
            if exists|i: int|
                0 <= i < spans.len() && #[trigger] spans[i].style == SpanStyle::Rule && line_of(
                    s,
                    spans[i].start as int,
                ) as usize == l {
                let i = choose|i: int|
                    0 <= i < spans.len() && #[trigger] spans[i].style == SpanStyle::Rule
                        && line_of(s, spans[i].start as int) as usize == l;
                if i < n {
                    assert(init[i] == spans[i]);
                    assert(before.contains(d));
                    let k = choose|k: int| 0 <= k < before.len() && before[k] == d;
                    assert(now[k] == d);
                } else {
                    assert(now[now.len() - 1] == d);
                }
            }
        }
    }
}

/// A rule is drawn beneath a heading exactly when it is a second-level one:
/// the decorations hold a heading rule on line `l` if and only if some span of
/// style `Heading(2)` starts on line `l`, whatever other headings there are.
/// Likewise a thematic break is drawn on line `l` exactly when a rule span
/// starts there.
pub proof fn lemma_rules_mark_second_level_headings_and_breaks(
    s: Seq<char>,
    spans: Seq<Span>,
    fenced: Seq<bool>,
)
    ensures
        forall|l: usize|
            decorations_of(s, spans, fenced).contains(Decoration::HeadingRule { line: l })
                <==> exists|i: int|
                0 <= i < spans.len() && #[trigger] spans[i].style == SpanStyle::Heading(2)
                    && line_of(s, spans[i].start as int) as usize == l,
        forall|l: usize|
            decorations_of(s, spans, fenced).contains(Decoration::ThematicBreak { line: l })
                <==> exists|i: int|
                0 <= i < spans.len() && #[trigger] spans[i].style == SpanStyle::Rule && line_of(
                    s,
                    spans[i].start as int,
                ) as usize == l,
{
    lemma_rule_decorations(s, spans);
    let rules = rule_decorations(s, spans);
    let bars = quote_bars(runs_of(quoted_lines(s, spans)));
    let frames = code_frames(runs_of(fenced));
    let all = decorations_of(s, spans, fenced);
    assert(all == rules + bars + frames);
    assert forall|d: Decoration|
        (d is HeadingRule || d is ThematicBreak) implies (all.contains(d) <==> rules.contains(
        d,
    )) by {
        if all.contains(d) {
            let k = choose|k: int| 0 <= k < all.len() && all[k] == d;
            if k >= rules.len() + bars.len() {
                assert(frames[k - rules.len() - bars.len()] == d);
            } else if k >= rules.len() {
                assert(bars[k - rules.len()] == d);
            } else {
                assert(rules[k] == d);
            }
        }
        if rules.contains(d) {
            let k = choose|k: int| 0 <= k < rules.len() && rules[k] == d;
            assert(all[k] == d);
        }
    }
    assert forall|l: usize|
        all.contains(Decoration::HeadingRule { line: l }) == rules.contains(
            Decoration::HeadingRule { line: l },
        ) by {}
    assert forall|l: usize|
        all.contains(Decoration::ThematicBreak { line: l }) == rules.contains(
            Decoration::ThematicBreak { line: l },
        ) by {}
}

/// Every decoration in the document: the rules under second-level headings
/// and the thematic breaks in the order the scan reports them, then the quote
/// bars, then the code frames, each in line order.
pub fn decorations(text: &str, scan: &Scan) -> (out: Vec<Decoration>)
    ensures
        out@ == decorations_of(text@, scan.spans@, scan.fenced@),
{
    let chars = chars_of(text);
    let starts = line_starts_of(&chars);
    let ghost s = chars@;
    let ghost spans = scan.spans@;
    assert(starts@.len() == as_ints(starts@).len());
    let mut out: Vec<Decoration> = Vec::new();
    let mut quoted: Vec<bool> = Vec::new();
    let mut l: usize = 0;
    while l < starts.len()
        invariant
            l <= starts.len(),
            quoted@.len() == l,
            forall|k: int| 0 <= k < l ==> !(#[trigger] quoted@[k]),
        decreases starts.len() - l,
    {
        quoted.push(false);
        l = l + 1;
    }
    let mut i: usize = 0;
    assert(spans.take(0) =~= seq![]);
    while i < scan.spans.len()
        invariant
            s == chars@,
            spans == scan.spans@,
            as_ints(starts@) == line_starts(s),
            starts@.len() == line_count(s),
            i <= spans.len(),
            quoted@.len() == line_count(s),
            out@ == rule_decorations(s, spans.take(i as int)),
            forall|l: int|
                0 <= l < quoted@.len() ==> #[trigger] quoted@[l] == exists|j: int|
                    0 <= j < i && spans[j].style == SpanStyle::Quote && line_of(
                        s,
                        #[trigger] spans[j].start as int,
                    ) == l,
        decreases spans.len() - i,
    {
        let span = scan.spans[i];
        let line = line_index(&chars, &starts, span.start);
        assert(spans.take(i + 1).drop_last() =~= spans.take(i as int));
        match span.style {
            SpanStyle::Heading(level) => {
                if level == 2 {
                    out.push(Decoration::HeadingRule { line });
                }
            },
            SpanStyle::Rule => {
                out.push(Decoration::ThematicBreak { line });
            },
            SpanStyle::Quote => {
                quoted.set(line, true);
            },
            _ => {},
        }
        i = i + 1;
        assert forall|l: int| 0 <= l < quoted@.len() implies #[trigger] quoted@[l] == exists|j: int|
            0 <= j < i && spans[j].style == SpanStyle::Quote && line_of(
                s,
                #[trigger] spans[j].start as int,
            ) == l by {
            if quoted@[l] && !(span.style == SpanStyle::Quote && line == l) {
                let j = choose|j: int|
                    0 <= j < i - 1 && spans[j].style == SpanStyle::Quote && line_of(
                        s,
                        #[trigger] spans[j].start as int,
                    ) == l;
            }
        }
    }
    assert(spans.take(spans.len() as int) =~= spans);
    assert(quoted@ =~= quoted_lines(s, spans));
    let bars = runs(&quoted);
    let mut k: usize = 0;
    let ghost base = out@;
    while k < bars.len()
        invariant
            k <= bars.len(),
            out@ == base + quote_bars(pairs(bars@).take(k as int)),
        decreases bars.len() - k,
    {
        let (first_line, last_line) = bars[k];
        out.push(Decoration::QuoteBar { first_line, last_line });
        k = k + 1;
        assert(out@ =~= base + quote_bars(pairs(bars@).take(k as int)));
    }
    assert(pairs(bars@).take(bars.len() as int) =~= pairs(bars@));
    let frames = runs(&scan.fenced);
    let mut k: usize = 0;
    let ghost base = out@;
    while k < frames.len()
        invariant
            k <= frames.len(),
            out@ == base + code_frames(pairs(frames@).take(k as int)),
        decreases frames.len() - k,
    {
        let (first_line, last_line) = frames[k];
        let first_line = if first_line > 0 {
            first_line - 1
        } else {
            0
        };
        out.push(Decoration::CodeFrame { first_line, last_line });
        k = k + 1;
        assert(out@ =~= base + code_frames(pairs(frames@).take(k as int)));
    }
    assert(pairs(frames@).take(frames.len() as int) =~= pairs(frames@));
    out
}

/// The runs are exactly the maximal runs of `true`: each is one, they come in
/// order with a gap between each and the next, and every `true` lies in one.
/// So consecutive quoted lines are one bar, and quotes split by anything else
/// are separate bars.
pub proof fn lemma_runs_are_maximal(mask: Seq<bool>)
    ensures
        forall|k: int|
            0 <= k < runs_of(mask).len() ==> is_run(
                mask,
                #[trigger] runs_of(mask)[k].0,
                runs_of(mask)[k].1,
            ),
        forall|k: int|
            0 <= k && k + 1 < runs_of(mask).len() ==> #[trigger] runs_of(mask)[k].1 + 1 < runs_of(
                mask,
            )[k + 1].0,
        forall|j: int|
            0 <= j < mask.len() && mask[j] ==> exists|k: int|
                0 <= k < runs_of(mask).len() && #[trigger] runs_of(mask)[k].0 <= j <= runs_of(
                    mask,
                )[k].1,
    decreases mask.len(),
{
    if mask.len() > 0 {
        let m0 = mask.drop_last();
        lemma_runs_are_maximal(m0);
        let prev = runs_of(m0);
        let r = runs_of(mask);
        let i = mask.len() - 1;
        assert forall|k: int| 0 <= k < prev.len() implies is_run(mask, #[trigger] prev[k].0, prev[k].1)
            || (prev[k].1 == i - 1 && mask[i]) by {
            lemma_run_in_prefix(mask, prev[k].0, prev[k].1);
        }
        if !mask[i] {
            assert(r == prev);
            assert forall|j: int| 0 <= j < mask.len() && mask[j] implies exists|k: int|
                0 <= k < r.len() && #[trigger] r[k].0 <= j <= r[k].1 by {
                assert(m0[j]);
            }
        } else if i > 0 && mask[i - 1] && prev.len() > 0 {
            let last = prev.len() - 1;
            assert(m0[i - 1]);
            let kk = choose|k: int| 0 <= k < prev.len() && #[trigger] prev[k].0 <= i - 1 <= prev[k].1;
            assert(is_run(m0, prev[kk].0, prev[kk].1));
            if kk < last {
                assert(prev[kk].1 + 1 < prev[kk + 1].0);
                assert(is_run(m0, prev[last].0, prev[last].1));
                assert forall|a: int| kk <= a < last implies prev[a].1 < prev[last].1 by {
                    if a < last {
                        lemma_runs_ordered(m0, a, last);
                    }
                }
            }
            assert(prev[last].1 == i - 1);
            assert(r == prev.update(last, (prev[last].0, i as int)));
            assert forall|k: int| 0 <= k < r.len() implies is_run(mask, #[trigger] r[k].0, r[k].1) by {
                lemma_run_in_prefix(mask, prev[k].0, prev[k].1);
                if k < last {
                    lemma_runs_ordered(m0, k, last);
                } else {
                    assert forall|x: int| r[k].0 <= x <= r[k].1 implies mask[x] by {
                        if x < i {
                            assert(m0[x]);
                        }
                    }
                }
            }
            assert forall|j: int| 0 <= j < mask.len() && mask[j] implies exists|k: int|
                0 <= k < r.len() && #[trigger] r[k].0 <= j <= r[k].1 by {
                if j < i {
                    assert(m0[j]);
                    let k2 = choose|k: int| 0 <= k < prev.len() && #[trigger] prev[k].0 <= j <= prev[k].1;
                    assert(r[k2].0 <= j <= r[k2].1);
                } else {
                    assert(r[last].0 <= j <= r[last].1);
                }
            }
        } else {
            assert(r == prev.push((i as int, i as int)));
            if prev.len() > 0 {
                let last = prev.len() - 1;
                assert(is_run(m0, prev[last].0, prev[last].1));
            }
            assert forall|k: int| 0 <= k < r.len() implies is_run(mask, #[trigger] r[k].0, r[k].1) by {
                if k < prev.len() {
                    assert(is_run(m0, prev[k].0, prev[k].1));
                }
            }
            assert forall|j: int| 0 <= j < mask.len() && mask[j] implies exists|k: int|
                0 <= k < r.len() && #[trigger] r[k].0 <= j <= r[k].1 by {
                if j < i {
                    assert(m0[j]);
                    let k2 = choose|k: int| 0 <= k < prev.len() && #[trigger] prev[k].0 <= j <= prev[k].1;
                    assert(r[k2].0 <= j <= r[k2].1);
                } else {
                    assert(r[prev.len() as int].0 <= j <= r[prev.len() as int].1);
                }
            }
        }
    }
}

/// A run of all but the last entry is a run of the whole, unless it ends just
/// before a `true` last entry.
proof fn lemma_run_in_prefix(mask: Seq<bool>, a: int, b: int)
    requires
        mask.len() > 0,
        is_run(mask.drop_last(), a, b),
    ensures
        forall|x: int| a <= x <= b ==> mask[x],
        a == 0 || !mask[a - 1],
        is_run(mask, a, b) || (b == mask.len() - 2 && mask[mask.len() - 1]),
{
    let m0 = mask.drop_last();
    assert forall|x: int| a <= x <= b implies mask[x] by {
        assert(m0[x]);
    }
    if a > 0 {
        assert(!m0[a - 1]);
    }
    if b + 1 < m0.len() {
        assert(!m0[b + 1]);
    }
}

/// Runs further along end further along.
proof fn lemma_runs_ordered(mask: Seq<bool>, a: int, b: int)
    requires
        0 <= a < b < runs_of(mask).len(),
        forall|k: int|
            0 <= k && k + 1 < runs_of(mask).len() ==> #[trigger] runs_of(mask)[k].1 + 1 < runs_of(
                mask,
            )[k + 1].0,
        forall|k: int|
            0 <= k < runs_of(mask).len() ==> is_run(
                mask,
                #[trigger] runs_of(mask)[k].0,
                runs_of(mask)[k].1,
            ),
    ensures
        runs_of(mask)[a].1 + 1 < runs_of(mask)[b].0,
    decreases b - a,
{
    let r = runs_of(mask);
    if b > a + 1 {
        lemma_runs_ordered(mask, a, b - 1);
        assert(is_run(mask, r[b - 1].0, r[b - 1].1));
        assert(r[b - 1].1 + 1 < r[b].0);
    }
}

/// The maximal runs of `true` in `mask`.
pub fn runs(mask: &Vec<bool>) -> (r: Vec<(usize, usize)>)
    ensures
        pairs(r@) == runs_of(mask@),
{
    let mut r: Vec<(usize, usize)> = Vec::new();
    let mut i: usize = 0;
    assert(mask@.take(0) =~= seq![]);
    assert(pairs(r@) =~= runs_of(mask@.take(0)));
    while i < mask.len()
        invariant
            i <= mask.len(),
            pairs(r@) == runs_of(mask@.take(i as int)),
            i > 0 && mask@[i - 1] ==> r@.len() > 0,
            forall|k: int| 0 <= k < r@.len() ==> (#[trigger] r@[k]).1 < i,
        decreases mask.len() - i,
    {
        assert(mask@.take(i + 1).drop_last() =~= mask@.take(i as int));
        if mask[i] {
            if i > 0 && mask[i - 1] {
                let last = r.len() - 1;
                let first = r[last].0;
                r.set(last, (first, i));
            } else {
                r.push((i, i));
            }
        }
        i = i + 1;
        assert(pairs(r@) =~= runs_of(mask@.take(i as int)));
    }
    assert(mask@.take(mask.len() as int) =~= mask@);
    r
}

} // verus!
