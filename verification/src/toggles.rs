//! Why a prefix command pressed twice gives back what you started with, and
//! why every command's edit stays inside the document.
//!
//! Quoting a paragraph and quoting it again takes the quote off: the first
//! press puts the marker on every line it touches, and the second finds the
//! same lines, every one of them marked, and takes it off each. The proof
//! needs to know what the lines of the edited text are, which is most of what
//! is here.

use vstd::prelude::*;
use crate::format::{
    all_blank, applied, apply_change, block_change, clamped_selection, first_line, has_marker,
    heading_prefix, is_blank, join_lines, last_line, lead, moved, prefix_change, region_lines,
    removing, rewritten, touched, wrap_change, Command, Edit,
};
use crate::lines::{
    is_line_start, lemma_line_bracket, lemma_line_facts, lemma_newlines_concat,
    lemma_newlines_same_prefix, lemma_start_of_line, line_count, line_end, line_of, line_starts,
    line_text, newlines_before,
};
use crate::text::whitespace;

verus! {

/// No line holds a newline of its own.
pub open spec fn single_lines(ls: Seq<Seq<char>>) -> bool {
    forall|k: int, i: int| 0 <= k < ls.len() && 0 <= i < ls[k].len() ==> #[trigger] ls[k][i] != '\n'
}

proof fn lemma_no_newlines(x: Seq<char>, y: int)
    requires
        0 <= y <= x.len(),
        forall|i: int| 0 <= i < x.len() ==> x[i] != '\n',
    ensures
        newlines_before(x, y) == 0,
    decreases y,
{
    if y > 0 {
        lemma_no_newlines(x, y - 1);
    }
}

proof fn lemma_lead_drop_last(ls: Seq<Seq<char>>, k: int)
    requires
        0 <= k < ls.len(),
    ensures
        lead(ls.drop_last(), k) == lead(ls, k),
    decreases k,
{
    if k > 0 {
        lemma_lead_drop_last(ls, k - 1);
    }
}

/// The length of lines joined by newlines.
proof fn lemma_join_len(ls: Seq<Seq<char>>)
    requires
        ls.len() > 0,
    ensures
        join_lines(ls).len() == lead(ls, ls.len() - 1) + ls.last().len(),
    decreases ls.len(),
{
    if ls.len() > 1 {
        let init = ls.drop_last();
        lemma_join_len(init);
        lemma_lead_drop_last(ls, ls.len() - 2);
        assert(init.last() == ls[ls.len() - 2]);
    }
}

proof fn lemma_single_init(ls: Seq<Seq<char>>)
    requires
        ls.len() > 0,
        single_lines(ls),
    ensures
        single_lines(ls.drop_last()),
        forall|i: int| 0 <= i < ls.last().len() ==> ls.last()[i] != '\n',
{
    let init = ls.drop_last();
    assert forall|k: int, i: int| 0 <= k < init.len() && 0 <= i < init[k].len() implies #[trigger] init[k][i]
        != '\n' by {
        assert(init[k] == ls[k]);
    }
    assert forall|i: int| 0 <= i < ls.last().len() implies ls.last()[i] != '\n' by {
        assert(ls[ls.len() - 1][i] != '\n');
    }
}

/// Line `k` sits in the join where `lead` says, after a newline unless it is
/// the first.
proof fn lemma_join_line_at(ls: Seq<Seq<char>>, k: int)
    requires
        0 <= k < ls.len(),
    ensures
        lead(ls, k) + ls[k].len() <= join_lines(ls).len(),
        join_lines(ls).subrange(lead(ls, k), lead(ls, k) + ls[k].len()) == ls[k],
        k > 0 ==> join_lines(ls)[lead(ls, k) - 1] == '\n',
    decreases ls.len(),
{
    let j = join_lines(ls);
    lemma_join_len(ls);
    if ls.len() == 1 {
        assert(j.subrange(0, j.len() as int) =~= j);
    } else {
        let init = ls.drop_last();
        let n = ls.len() - 1;
        let j0 = join_lines(init);
        lemma_join_len(init);
        lemma_lead_drop_last(ls, n - 1);
        assert(init.last() == ls[n - 1]);
        assert(lead(ls, n) == j0.len() + 1);
        assert(j == j0 + seq!['\n'] + ls.last());
        if k < n {
            lemma_join_line_at(init, k);
            lemma_lead_drop_last(ls, k);
            lemma_lead_monotone(init, 0, k);
            assert(init[k] == ls[k]);
            assert(j.subrange(lead(ls, k), lead(ls, k) + ls[k].len()) =~= j0.subrange(
                lead(init, k),
                lead(init, k) + init[k].len(),
            ));
            if k > 0 {
                lemma_lead_monotone(init, 0, k - 1);
                assert(j[lead(ls, k) - 1] == j0[lead(init, k) - 1]);
            }
        } else {
            assert(j.subrange(lead(ls, k), lead(ls, k) + ls[k].len()) =~= ls.last());
        }
    }
}

/// Every offset of line `k` within the join is on line `k` of it.
proof fn lemma_join_newlines(ls: Seq<Seq<char>>, k: int, y: int)
    requires
        single_lines(ls),
        0 <= k < ls.len(),
        lead(ls, k) <= y <= lead(ls, k) + ls[k].len(),
    ensures
        newlines_before(join_lines(ls), y) == k,
    decreases ls.len(),
{
    let j = join_lines(ls);
    lemma_join_len(ls);
    lemma_single_init(ls);
    if ls.len() == 1 {
        lemma_no_newlines(ls[0], y);
    } else {
        let init = ls.drop_last();
        let n = ls.len() - 1;
        let j0 = join_lines(init);
        let last = ls.last();
        lemma_join_len(init);
        lemma_lead_drop_last(ls, n - 1);
        assert(init.last() == ls[n - 1]);
        assert(lead(ls, n) == j0.len() + 1);
        assert(j == j0 + seq!['\n'] + last);
        if k < n {
            lemma_lead_drop_last(ls, k);
            assert(init[k] == ls[k]);
            lemma_join_line_at(init, k);
            lemma_join_newlines(init, k, y);
            assert(j.take(y) =~= j0.take(y));
            lemma_newlines_same_prefix(j, j0, y);
        } else {
            let z = y - (j0.len() + 1);
            lemma_newlines_concat(j0 + seq!['\n'], last, z);
            lemma_newlines_concat(j0, seq!['\n'], 1);
            assert(newlines_before(seq!['\n'], 1) == 1) by {
                assert(newlines_before(seq!['\n'], 0) == 0);
            }
            lemma_no_newlines(last, z);
            lemma_join_newlines(init, n - 1, j0.len() as int);
        }
    }
}

/// The lines `first` to `last` of a text, joined again, are the text they
/// came from; none holds a newline.
proof fn lemma_region_single(s: Seq<char>, first: int, last: int)
    requires
        0 <= first <= last < line_count(s),
    ensures
        single_lines(region_lines(s, first, last)),
{
    let ls = region_lines(s, first, last);
    assert forall|k: int, i: int| 0 <= k < ls.len() && 0 <= i < ls[k].len() implies #[trigger] ls[k][i]
        != '\n' by {
        lemma_line_facts(s, first + k);
        let y = line_starts(s)[first + k] + i;
        assert(ls[k] == line_text(s, first + k));
        assert(ls[k][i] == s[y]);
    }
}

proof fn lemma_region_join(s: Seq<char>, first: int, last: int)
    requires
        0 <= first <= last < line_count(s),
    ensures
        join_lines(region_lines(s, first, last)) == s.subrange(
            line_starts(s)[first],
            line_end(s, last),
        ),
        single_lines(region_lines(s, first, last)),
    decreases last - first,
{
    lemma_region_single(s, first, last);
    let ls = region_lines(s, first, last);
    lemma_line_facts(s, first);
    lemma_line_facts(s, last);
    if last == first {
        assert(ls.len() == 1);
        assert(join_lines(ls) == ls[0]);
    } else {
        lemma_region_join(s, first, last - 1);
        lemma_line_facts(s, last - 1);
        lemma_starts_ordered(s, first, last - 1);
        assert(ls.drop_last() =~= region_lines(s, first, last - 1));
        assert(ls.last() == line_text(s, last));
        assert(join_lines(ls) == join_lines(ls.drop_last()) + seq!['\n'] + ls.last());
        assert(join_lines(ls) =~= s.subrange(line_starts(s)[first], line_end(s, last)));
    }
}

proof fn lemma_starts_ordered(s: Seq<char>, i: int, j: int)
    requires
        0 <= i <= j < line_count(s),
    ensures
        line_starts(s)[i] <= line_starts(s)[j],
{
    crate::lines::lemma_starts_upto(s, s.len() as int);
    if i < j {
        assert(line_starts(s)[i] < line_starts(s)[j]);
    }
}

/// The text with lines `first` to `last` replaced by `rw`.
pub open spec fn spliced(s: Seq<char>, first: int, last: int, rw: Seq<Seq<char>>) -> Seq<char> {
    s.subrange(0, line_starts(s)[first]) + join_lines(rw) + s.subrange(
        line_end(s, last),
        s.len() as int,
    )
}

/// The lines of a text before the replaced ones are still the lines before,
/// and an offset into the replacement is on the line of the replacement it
/// falls in.
proof fn lemma_splice_newlines(s: Seq<char>, first: int, last: int, rw: Seq<Seq<char>>, y: int)
    requires
        0 <= first <= last < line_count(s),
        rw.len() > 0,
        0 <= y <= join_lines(rw).len(),
    ensures
        newlines_before(spliced(s, first, last, rw), line_starts(s)[first] + y) == first
            + newlines_before(join_lines(rw), y),
{
    lemma_line_facts(s, first);
    lemma_line_facts(s, last);
    crate::lines::lemma_starts_upto(s, s.len() as int);
    let rs = line_starts(s)[first];
    let re = line_end(s, last);
    let a = s.subrange(0, rs);
    let j = join_lines(rw);
    let b = s.subrange(re, s.len() as int);
    let t = spliced(s, first, last, rw);
    assert(t =~= a + (j + b));
    lemma_newlines_concat(a, j + b, y);
    assert((j + b).take(y) =~= j.take(y));
    lemma_newlines_same_prefix(j + b, j, y);
    assert(a.take(rs) =~= s.take(rs));
    lemma_newlines_same_prefix(a, s, rs);
}

proof fn lemma_splice_shape(s: Seq<char>, first: int, last: int, rw: Seq<Seq<char>>)
    requires
        0 <= first <= last < line_count(s),
        rw.len() > 0,
    ensures
        ({
            let rs = line_starts(s)[first];
            let re = line_end(s, last);
            let t = spliced(s, first, last, rw);
            &&& 0 <= rs <= re <= s.len()
            &&& t == s.subrange(0, rs) + join_lines(rw) + s.subrange(re, s.len() as int)
            &&& t.len() == s.len() - (re - rs) + join_lines(rw).len()
            &&& forall|y: int| 0 <= y < join_lines(rw).len() ==> t[rs + y] == #[trigger] join_lines(rw)[y]
            &&& forall|y: int| 0 <= y < rs ==> t[y] == #[trigger] s[y]
            &&& forall|y: int| 0 <= y < s.len() - re ==> t[rs + join_lines(rw).len() + y] == #[trigger] s[re + y]
        }),
{
    lemma_line_facts(s, first);
    lemma_line_facts(s, last);
    lemma_starts_ordered(s, first, last);
}

/// Where line `k` of the replacement starts is where line `first + k` of the
/// spliced text starts.
proof fn lemma_splice_start(s: Seq<char>, first: int, last: int, rw: Seq<Seq<char>>, k: int)
    requires
        0 <= first <= last < line_count(s),
        rw.len() == last - first + 1,
        single_lines(rw),
        0 <= k < rw.len(),
    ensures
        first + k < line_count(spliced(s, first, last, rw)),
        line_starts(spliced(s, first, last, rw))[first + k] == line_starts(s)[first] + lead(
            rw,
            k,
        ),
{
    lemma_line_facts(s, first);
    lemma_splice_shape(s, first, last, rw);
    let t = spliced(s, first, last, rw);
    let rs = line_starts(s)[first];
    let j = join_lines(rw);
    lemma_join_len(rw);
    lemma_join_line_at(rw, k);
    lemma_lead_monotone(rw, 0, k);
    let x = rs + lead(rw, k);
    if k == 0 {
        if first > 0 {
            assert(t[rs - 1] == s[rs - 1]);
        }
    } else {
        lemma_lead_monotone(rw, 0, k - 1);
        assert(t[rs + (lead(rw, k) - 1)] == j[lead(rw, k) - 1]);
    }
    assert(is_line_start(t, x));
    lemma_start_of_line(t, x);
    lemma_splice_newlines(s, first, last, rw, lead(rw, k));
    lemma_join_newlines(rw, k, lead(rw, k));
}

/// Line `first + k` of the spliced text is `rw[k]`, starting where `lead`
/// puts it; after the last replaced line come the lines that followed.
#[verifier::spinoff_prover]
#[verifier::rlimit(40)]
proof fn lemma_splice_line(s: Seq<char>, first: int, last: int, rw: Seq<Seq<char>>, k: int)
    requires
        0 <= first <= last < line_count(s),
        rw.len() == last - first + 1,
        single_lines(rw),
        0 <= k < rw.len(),
    ensures
        ({
            let t = spliced(s, first, last, rw);
            let rs = line_starts(s)[first];
            let j = join_lines(rw);
            &&& t.len() == s.len() - (line_end(s, last) - rs) + j.len()
            &&& first + k < line_count(t)
            &&& line_starts(t)[first + k] == rs + lead(rw, k)
            &&& line_text(t, first + k) == rw[k]
            &&& k == rw.len() - 1 ==> line_end(t, last) == rs + j.len()
            &&& k == rw.len() - 1 && last + 1 < line_count(s) ==> last + 1 < line_count(t)
                && line_starts(t)[last + 1] == rs + j.len() + 1
        }),
{
    lemma_line_facts(s, first);
    lemma_line_facts(s, last);
    lemma_splice_shape(s, first, last, rw);
    lemma_splice_start(s, first, last, rw, k);
    let t = spliced(s, first, last, rw);
    let rs = line_starts(s)[first];
    let re = line_end(s, last);
    let j = join_lines(rw);
    let n = rw.len() - 1;
    lemma_join_len(rw);
    lemma_join_line_at(rw, k);
    lemma_lead_monotone(rw, 0, k);
    let x = rs + lead(rw, k);
    let e = x + rw[k].len();
    if k < n {
        lemma_splice_start(s, first, last, rw, k + 1);
        assert(lead(rw, k + 1) == lead(rw, k) + rw[k].len() + 1);
        assert(line_end(t, first + k) == e);
    } else {
        assert(e == rs + j.len());
        lemma_splice_newlines(s, first, last, rw, j.len() as int);
        lemma_join_newlines(rw, k, j.len() as int);
        if last + 1 < line_count(s) {
            lemma_line_facts(s, last + 1);
            assert(t[rs + j.len() + 0] == s[re + 0]);
            crate::lines::lemma_newlines_same_prefix(t, t, e);
            assert(newlines_before(t, e + 1) == last + 1);
            lemma_start_of_line(t, e + 1);
            assert(line_end(t, last) == e);
        } else {
            assert(t.len() == e);
            crate::lines::lemma_starts_upto(t, t.len() as int);
            assert(line_count(t) == last + 1);
            assert(line_end(t, last) == e);
        }
    }
    assert(line_text(t, first + k) =~= j.subrange(lead(rw, k), lead(rw, k) + rw[k].len()));
}

/// An offset within line `k` of the replacement is on line `first + k`.
proof fn lemma_splice_offset(
    s: Seq<char>,
    first: int,
    last: int,
    rw: Seq<Seq<char>>,
    k: int,
    c: int,
)
    requires
        0 <= first <= last < line_count(s),
        rw.len() == last - first + 1,
        single_lines(rw),
        0 <= k < rw.len(),
        0 <= c <= rw[k].len(),
    ensures
        line_of(spliced(s, first, last, rw), line_starts(s)[first] + lead(rw, k) + c) == first
            + k,
{
    lemma_line_facts(s, first);
    lemma_join_line_at(rw, k);
    lemma_lead_monotone(rw, 0, k);
    lemma_splice_line(s, first, last, rw, k);
    lemma_splice_newlines(s, first, last, rw, lead(rw, k) + c);
    lemma_join_newlines(rw, k, lead(rw, k) + c);
}

/// A marker a prefix command can write: something to see, on one line.
pub open spec fn visible_marker(m: Seq<char>) -> bool {
    &&& m.len() > 0
    &&& forall|i: int| 0 <= i < m.len() ==> m[i] != '\n'
    &&& exists|i: int| 0 <= i < m.len() && !whitespace(#[trigger] m[i])
}

/// None of the lines a command touches carries the marker yet, nor, for a
/// heading command, a heading prefix it would take off.
pub open spec fn unmarked(lines: Seq<Seq<char>>, m: Seq<char>, replaces_heading: bool) -> bool {
    forall|k: int|
        0 <= k < lines.len() && touched(lines, #[trigger] lines[k]) ==> !has_marker(lines[k], m)
            && (replaces_heading ==> heading_prefix(lines[k]) == 0)
}

proof fn lemma_marked_not_blank(m: Seq<char>, line: Seq<char>)
    requires
        visible_marker(m),
    ensures
        !is_blank(m + line),
        has_marker(m + line, m),
{
    let i = choose|i: int| 0 <= i < m.len() && !whitespace(#[trigger] m[i]);
    assert((m + line)[i] == m[i]);
    assert((m + line).subrange(0, m.len() as int) =~= m);
}

/// Lines none of which is marked get the marker on each line the command
/// touches; rewriting those lines again takes it off each, and nothing else
/// changes.
proof fn lemma_rewritten_twice(lines: Seq<Seq<char>>, m: Seq<char>, h: bool)
    requires
        lines.len() > 0,
        visible_marker(m),
        unmarked(lines, m, h),
    ensures
        !removing(lines, m),
        forall|k: int|
            0 <= k < lines.len() ==> #[trigger] rewritten(lines, m, h)[k] == if touched(
                lines,
                lines[k],
            ) {
                m + lines[k]
            } else {
                lines[k]
            },
        removing(rewritten(lines, m, h), m),
        rewritten(rewritten(lines, m, h), m, h) == lines,
        single_lines(lines) ==> single_lines(rewritten(lines, m, h)),
        exists|k: int| 0 <= k < lines.len() && #[trigger] touched(lines, lines[k]),
{
    let rw = rewritten(lines, m, h);
    // Some line is touched: the first one if all are blank, else one that is not.
    let w = if all_blank(lines) {
        0
    } else {
        choose|k: int| 0 <= k < lines.len() && !is_blank(#[trigger] lines[k])
    };
    assert(touched(lines, lines[w]));
    assert(!has_marker(lines[w], m));
    assert forall|k: int| 0 <= k < lines.len() implies #[trigger] rw[k] == if touched(
        lines,
        lines[k],
    ) {
        m + lines[k]
    } else {
        lines[k]
    } by {
        if touched(lines, lines[k]) && h {
            assert(lines[k].subrange(heading_prefix(lines[k]), lines[k].len() as int) =~= lines[k]);
        }
    }
    assert(touched(rw, rw[w])) by {
        lemma_marked_not_blank(m, lines[w]);
    }
    assert(!all_blank(rw)) by {
        lemma_marked_not_blank(m, lines[w]);
    }
    assert forall|k: int| 0 <= k < rw.len() implies touched(rw, #[trigger] rw[k]) == touched(
        lines,
        lines[k],
    ) by {
        if touched(lines, lines[k]) {
            lemma_marked_not_blank(m, lines[k]);
        } else {
            assert(!all_blank(lines));
        }
    }
    assert forall|k: int| 0 <= k < rw.len() && touched(rw, #[trigger] rw[k]) implies has_marker(
        rw[k],
        m,
    ) by {
        lemma_marked_not_blank(m, lines[k]);
    }
    assert(removing(rw, m));
    assert forall|k: int| 0 <= k < lines.len() implies #[trigger] rewritten(rw, m, h)[k]
        == lines[k] by {
        if touched(lines, lines[k]) {
            assert((m + lines[k]).subrange(m.len() as int, (m + lines[k]).len() as int)
                =~= lines[k]);
        }
    }
    assert(rewritten(rw, m, h) =~= lines);
    if single_lines(lines) {
        assert forall|k: int, i: int| 0 <= k < rw.len() && 0 <= i < rw[k].len() implies #[trigger] rw[k][i]
            != '\n' by {
            if touched(lines, lines[k]) {
                if i < m.len() {
                    assert(rw[k][i] == m[i]);
                } else {
                    assert(rw[k][i] == lines[k][i - m.len()]);
                }
            }
        }
    }
}

/// Lines each at least as long as before make a join at least as long, and
/// longer if one of them is.
proof fn lemma_join_longer(longer: Seq<Seq<char>>, shorter: Seq<Seq<char>>, w: int)
    requires
        longer.len() == shorter.len(),
        longer.len() > 0,
        forall|k: int| 0 <= k < longer.len() ==> #[trigger] longer[k].len() >= shorter[k].len(),
        0 <= w < longer.len(),
        longer[w].len() > shorter[w].len(),
    ensures
        join_lines(longer).len() > join_lines(shorter).len(),
    decreases longer.len(),
{
    if longer.len() > 1 {
        let (a, b) = (longer.drop_last(), shorter.drop_last());
        assert(join_lines(longer) == join_lines(a) + seq!['\n'] + longer.last());
        assert(join_lines(shorter) == join_lines(b) + seq!['\n'] + shorter.last());
        if w < longer.len() - 1 {
            assert forall|k: int| 0 <= k < a.len() implies #[trigger] a[k].len() >= b[k].len() by {
                assert(a[k] == longer[k]);
                assert(b[k] == shorter[k]);
            }
            lemma_join_longer(a, b, w);
        } else {
            lemma_join_not_shorter(a, b);
        }
    }
}

proof fn lemma_join_not_shorter(longer: Seq<Seq<char>>, shorter: Seq<Seq<char>>)
    requires
        longer.len() == shorter.len(),
        forall|k: int| 0 <= k < longer.len() ==> #[trigger] longer[k].len() >= shorter[k].len(),
    ensures
        join_lines(longer).len() >= join_lines(shorter).len(),
    decreases longer.len(),
{
    if longer.len() > 1 {
        let (a, b) = (longer.drop_last(), shorter.drop_last());
        assert forall|k: int| 0 <= k < a.len() implies #[trigger] a[k].len() >= b[k].len() by {
            assert(a[k] == longer[k]);
            assert(b[k] == shorter[k]);
        }
        lemma_join_not_shorter(a, b);
    }
}

/// The lines a selection covers are lines of the text, the first no later
/// than the last.
proof fn lemma_region_bounds(s: Seq<char>, low: int, high: int)
    requires
        0 <= low <= high <= s.len(),
    ensures
        0 <= first_line(s, low) <= last_line(s, low, high) < line_count(s),
        first_line(s, low) == newlines_before(s, low),
{
    lemma_line_bracket(s, low);
    lemma_line_bracket(s, high);
    if high > low && is_line_start(s, high) {
        lemma_line_bracket(s, high - 1);
        crate::lines::lemma_newlines_monotone(s, low, high - 1);
    } else {
        crate::lines::lemma_newlines_monotone(s, low, high);
    }
}

/// Where the first press leaves the selection, the second press finds the
/// same lines.
#[verifier::spinoff_prover]
#[verifier::rlimit(40)]
proof fn lemma_moved_lines(s: Seq<char>, low: int, high: int, m: Seq<char>, h: bool)
    requires
        0 <= low <= high <= s.len(),
        visible_marker(m),
        unmarked(
            region_lines(s, first_line(s, low), last_line(s, low, high)),
            m,
            h,
        ),
    ensures
        ({
            let first = first_line(s, low);
            let last = last_line(s, low, high);
            let lines = region_lines(s, first, last);
            let rw = rewritten(lines, m, h);
            let t = spliced(s, first, last, rw);
            let ml = moved(s, first, last, lines, rw, low, low != high && is_line_start(s, low));
            let mh = moved(s, first, last, lines, rw, high, false);
            &&& 0 <= ml <= mh <= t.len()
            &&& first_line(t, ml) == first
            &&& last_line(t, ml, mh) == last
        }),
{
    lemma_region_bounds(s, low, high);
    let first = first_line(s, low);
    let last = last_line(s, low, high);
    let lines = region_lines(s, first, last);
    let rw = rewritten(lines, m, h);
    let t = spliced(s, first, last, rw);
    let hold = low != high && is_line_start(s, low);
    let ml = moved(s, first, last, lines, rw, low, hold);
    let mh = moved(s, first, last, lines, rw, high, false);
    let n = last - first;
    let rs = line_starts(s)[first];
    lemma_region_join(s, first, last);
    lemma_rewritten_twice(lines, m, h);
    lemma_line_facts(s, first);
    lemma_line_facts(s, last);
    lemma_line_bracket(s, low);
    lemma_line_bracket(s, high);
    lemma_join_len(rw);
    lemma_splice_line(s, first, last, rw, 0);
    lemma_splice_line(s, first, last, rw, n);
    assert(lines[0] == line_text(s, first));
    assert(lines[n] == line_text(s, last));
    assert(rw[0].len() >= lines[0].len());
    assert(rw[n].len() >= lines[n].len());
    // The start of the selection is on the first line, in either text.
    assert(low <= line_end(s, first));
    let col_low = low - rs;
    assert(0 <= col_low <= lines[0].len());
    let low_at = if hold {
        0
    } else {
        col_low + rw[0].len() - lines[0].len()
    };
    assert(ml == rs + lead(rw, 0) + low_at);
    lemma_splice_offset(s, first, last, rw, 0, low_at);
    assert(line_of(t, ml) == first);
    if n > 0 {
        lemma_join_line_at(rw, 1);
        lemma_lead_monotone(rw, 1, n);
        assert(lead(rw, 1) == rw[0].len() + 1);
    }
    let ln = line_starts(s)[last];
    if high > low && is_line_start(s, high) {
        // The selection ends at the start of the line after the last; so does
        // the moved one.
        lemma_line_bracket(s, high - 1);
        assert(newlines_before(s, high) == last + 1);
        lemma_start_of_line(s, high);
        lemma_line_facts(s, last + 1);
        assert(high == line_end(s, last) + 1);
        assert(mh == rs + lead(rw, n) + rw[n].len() + 1);
        lemma_line_facts(t, last + 1);
        assert(is_line_start(t, mh));
        lemma_splice_offset(s, first, last, rw, n, rw[n].len() as int);
        assert(line_of(t, mh - 1) == last);
    } else {
        assert(last == newlines_before(s, high));
        assert(ln <= high <= line_end(s, last));
        let col = high - ln;
        let at = col + rw[n].len() - lines[n].len();
        assert(mh == rs + lead(rw, n) + at);
        lemma_splice_offset(s, first, last, rw, n, at);
        assert(line_of(t, mh) == last);
        if mh > ml && is_line_start(t, mh) {
            if at > 0 {
                lemma_join_line_at(rw, n);
                lemma_lead_monotone(rw, 0, n);
                assert(t[mh - 1] == rw[n][at - 1]);
            }
            assert(at == 0);
            assert(high == ln);
            assert(false);
        }
        if n == 0 {
            assert(ml <= mh);
        }
    }
}

/// The first press: the touched lines of the selection get the marker.
#[verifier::spinoff_prover]
#[verifier::rlimit(40)]
proof fn lemma_first_press(s: Seq<char>, low: int, high: int, m: Seq<char>, h: bool)
    requires
        0 <= low <= high <= s.len(),
        visible_marker(m),
        unmarked(
            region_lines(s, first_line(s, low), last_line(s, low, high)),
            m,
            h,
        ),
    ensures
        ({
            let first = first_line(s, low);
            let last = last_line(s, low, high);
            let lines = region_lines(s, first, last);
            let rw = rewritten(lines, m, h);
            let on = prefix_change(s, low, high, m, h);
            &&& on is Some
            &&& on.unwrap().sel_start == moved(
                s,
                first,
                last,
                lines,
                rw,
                low,
                low != high && is_line_start(s, low),
            )
            &&& on.unwrap().sel_end == moved(s, first, last, lines, rw, high, false)
            &&& applied(s, on.unwrap()) == spliced(s, first, last, rw)
            &&& spliced(s, first, last, rw) != s
        }),
{
    lemma_region_bounds(s, low, high);
    let first = first_line(s, low);
    let last = last_line(s, low, high);
    let lines = region_lines(s, first, last);
    let rw = rewritten(lines, m, h);
    let rs = line_starts(s)[first];
    let re = line_end(s, last);
    lemma_region_join(s, first, last);
    lemma_rewritten_twice(lines, m, h);
    lemma_line_facts(s, first);
    lemma_line_facts(s, last);
    lemma_starts_ordered(s, first, last);
    let w = choose|k: int| 0 <= k < lines.len() && #[trigger] touched(lines, lines[k]);
    assert(rw[w] == m + lines[w]);
    assert forall|k: int| 0 <= k < rw.len() implies #[trigger] rw[k].len() >= lines[k].len() by {
        assert(rw[k] == if touched(lines, lines[k]) {
            m + lines[k]
        } else {
            lines[k]
        });
    }
    lemma_join_longer(rw, lines, w);
    let j = join_lines(rw);
    assert(j.len() != (s.subrange(rs, re)).len());
    let on = prefix_change(s, low, high, m, h);
    assert(on is Some);
    assert(applied(s, on.unwrap()) =~= spliced(s, first, last, rw));
    assert(spliced(s, first, last, rw).len() != s.len());
}

/// What the second press finds: the rewritten lines where the originals
/// were, with the rest of the text around them unchanged.
#[verifier::spinoff_prover]
#[verifier::rlimit(40)]
proof fn lemma_rewritten_region(s: Seq<char>, low: int, high: int, m: Seq<char>, h: bool)
    requires
        0 <= low <= high <= s.len(),
        visible_marker(m),
        unmarked(
            region_lines(s, first_line(s, low), last_line(s, low, high)),
            m,
            h,
        ),
    ensures
        ({
            let first = first_line(s, low);
            let last = last_line(s, low, high);
            let lines = region_lines(s, first, last);
            let rw = rewritten(lines, m, h);
            let t = spliced(s, first, last, rw);
            let rs = line_starts(s)[first];
            let re = line_end(s, last);
            let j = join_lines(rw);
            &&& 0 <= rs <= re <= s.len()
            &&& region_lines(t, first, last) == rw
            &&& line_starts(t)[first] == rs
            &&& line_end(t, last) == rs + j.len()
            &&& rs + j.len() <= t.len()
            &&& t.subrange(rs, rs + j.len()) == j
            &&& rewritten(rw, m, h) == lines
            &&& join_lines(lines) == s.subrange(rs, re)
            &&& join_lines(lines).len() != j.len()
            &&& t.subrange(0, rs) == s.subrange(0, rs)
            &&& t.subrange(rs + j.len(), t.len() as int) == s.subrange(re, s.len() as int)
        }),
{
    lemma_region_bounds(s, low, high);
    let first = first_line(s, low);
    let last = last_line(s, low, high);
    let lines = region_lines(s, first, last);
    let rw = rewritten(lines, m, h);
    let t = spliced(s, first, last, rw);
    let rs = line_starts(s)[first];
    let re = line_end(s, last);
    let n = last - first;
    lemma_region_join(s, first, last);
    lemma_rewritten_twice(lines, m, h);
    lemma_splice_shape(s, first, last, rw);
    assert forall|k: int| 0 <= k <= n implies #[trigger] region_lines(t, first, last)[k]
        == rw[k] by {
        lemma_splice_line(s, first, last, rw, k);
    }
    assert(region_lines(t, first, last) =~= rw);
    lemma_splice_line(s, first, last, rw, 0);
    lemma_splice_line(s, first, last, rw, n);
    let j = join_lines(rw);
    assert(t.subrange(rs, rs + j.len()) =~= j);
    assert(t.subrange(0, rs) =~= s.subrange(0, rs));
    assert(t.subrange(rs + j.len(), t.len() as int) =~= s.subrange(re, s.len() as int));
    let w = choose|k: int| 0 <= k < lines.len() && #[trigger] touched(lines, lines[k]);
    assert(rw[w] == m + lines[w]);
    assert forall|k: int| 0 <= k < rw.len() implies #[trigger] rw[k].len() >= lines[k].len() by {
        assert(rw[k] == if touched(lines, lines[k]) {
            m + lines[k]
        } else {
            lines[k]
        });
    }
    lemma_join_longer(rw, lines, w);
}

/// The second press, on the selection the first left: the same lines, all
/// marked, lose the marker, and the text is what it was.
#[verifier::spinoff_prover]
#[verifier::rlimit(40)]
proof fn lemma_second_press(s: Seq<char>, low: int, high: int, m: Seq<char>, h: bool)
    requires
        0 <= low <= high <= s.len(),
        visible_marker(m),
        unmarked(
            region_lines(s, first_line(s, low), last_line(s, low, high)),
            m,
            h,
        ),
    ensures
        ({
            let first = first_line(s, low);
            let last = last_line(s, low, high);
            let lines = region_lines(s, first, last);
            let rw = rewritten(lines, m, h);
            let t = spliced(s, first, last, rw);
            let ml = moved(s, first, last, lines, rw, low, low != high && is_line_start(s, low));
            let mh = moved(s, first, last, lines, rw, high, false);
            let off = prefix_change(t, ml, mh, m, h);
            &&& off is Some
            &&& applied(t, off.unwrap()) == s
        }),
{
    let first = first_line(s, low);
    let last = last_line(s, low, high);
    let lines = region_lines(s, first, last);
    let rw = rewritten(lines, m, h);
    let t = spliced(s, first, last, rw);
    let rs = line_starts(s)[first];
    let re = line_end(s, last);
    let ml = moved(s, first, last, lines, rw, low, low != high && is_line_start(s, low));
    let mh = moved(s, first, last, lines, rw, high, false);
    lemma_moved_lines(s, low, high, m, h);
    lemma_rewritten_region(s, low, high, m, h);
    let j = join_lines(rw);
    let off = prefix_change(t, ml, mh, m, h);
    assert(off is Some);
    let c = off.unwrap();
    assert(c.start == rs && c.end == rs + j.len() && c.text == s.subrange(rs, re));
    assert(applied(t, c) =~= s.subrange(0, rs) + s.subrange(rs, re) + s.subrange(
        re,
        s.len() as int,
    ));
    assert(applied(t, c) =~= s);
}

/// Pressing a prefix command twice gives back what you started with. When
/// none of the lines the command touches carries its marker yet (nor, for a
/// heading, a heading prefix it would replace), the first press puts the
/// marker on each of them; the second, on the selection the first left, finds
/// the same lines all marked and takes the marker off each, leaving the
/// original text.
#[verifier::spinoff_prover]
#[verifier::rlimit(40)]
pub proof fn lemma_prefix_twice_restores(
    s: Seq<char>,
    a: int,
    b: int,
    command: Command,
    prefix: String,
)
    requires
        command != Command::Paragraph,
        0 <= a,
        0 <= b,
        visible_marker(prefix@),
        ({
            let (low, high) = clamped_selection(s.len() as int, a, b);
            unmarked(
                region_lines(s, first_line(s, low), last_line(s, low, high)),
                prefix@,
                command is Heading,
            )
        }),
    ensures
        ({
            let edit = Some(Edit::Prefix { prefix });
            let on = apply_change(s, a, b, command, edit);
            let t = applied(s, on.unwrap());
            let off = apply_change(t, on.unwrap().sel_start, on.unwrap().sel_end, command, edit);
            &&& on is Some
            &&& off is Some
            &&& t != s
            &&& applied(t, off.unwrap()) == s
        }),
{
    let m = prefix@;
    let h = command is Heading;
    let edit = Some(Edit::Prefix { prefix });
    let (low, high) = clamped_selection(s.len() as int, a, b);
    assert(apply_change(s, a, b, command, edit) == prefix_change(s, low, high, m, h));
    lemma_first_press(s, low, high, m, h);
    lemma_second_press(s, low, high, m, h);
    lemma_moved_lines(s, low, high, m, h);
    let on = prefix_change(s, low, high, m, h).unwrap();
    let t = applied(s, on);
    assert(clamped_selection(t.len() as int, on.sel_start, on.sel_end) == (
        on.sel_start,
        on.sel_end,
    ));
    assert(apply_change(t, on.sel_start, on.sel_end, command, edit) == prefix_change(
        t,
        on.sel_start,
        on.sel_end,
        m,
        h,
    ));
}

/// A rewritten line holds no newline when neither the line nor the marker
/// does.
proof fn lemma_rewritten_single(lines: Seq<Seq<char>>, m: Seq<char>, h: bool)
    requires
        single_lines(lines),
        forall|i: int| 0 <= i < m.len() ==> m[i] != '\n',
    ensures
        single_lines(rewritten(lines, m, h)),
        rewritten(lines, m, h).len() == lines.len(),
{
    let rw = rewritten(lines, m, h);
    let strip = removing(lines, m);
    assert forall|k: int, i: int| 0 <= k < rw.len() && 0 <= i < rw[k].len() implies #[trigger] rw[k][i]
        != '\n' by {
        let line = lines[k];
        let t = touched(lines, line);
        if !t || (!strip && has_marker(line, m)) {
            assert(rw[k][i] == line[i]);
        } else if strip {
            assert(has_marker(line, m));
            assert(rw[k][i] == line[i + m.len()]);
        } else {
            let from = if h {
                heading_prefix(line)
            } else {
                0
            };
            assert(0 <= heading_prefix(line) <= line.len()) by {
                crate::format::lemma_leading_hashes_bounded(line);
            }
            if i < m.len() {
                assert(rw[k][i] == m[i]);
            } else {
                assert(rw[k][i] == line[from + i - m.len()]);
            }
        }
    }
}

/// A prefix command rewrites whole lines, `first` to `last`, into text with
/// one newline between each two of them; and it leaves the selection in order
/// inside the document it makes.
pub proof fn lemma_prefix_in_bounds(s: Seq<char>, low: int, high: int, m: Seq<char>, h: bool)
    requires
        0 <= low <= high <= s.len(),
        forall|i: int| 0 <= i < m.len() ==> m[i] != '\n',
    ensures
        prefix_change(s, low, high, m, h) matches Some(c) ==> {
            &&& c.start == line_starts(s)[first_line(s, low)]
            &&& c.end == line_end(s, last_line(s, low, high))
            &&& 0 <= c.start <= c.end <= s.len()
            &&& newlines_before(c.text, c.text.len() as int) == last_line(s, low, high)
                - first_line(s, low)
            &&& 0 <= c.sel_start <= c.sel_end <= applied(s, c).len()
        },
{
    lemma_region_bounds(s, low, high);
    let first = first_line(s, low);
    let last = last_line(s, low, high);
    let lines = region_lines(s, first, last);
    let rw = rewritten(lines, m, h);
    let n = last - first;
    let rs = line_starts(s)[first];
    let re = line_end(s, last);
    let j = join_lines(rw);
    lemma_region_join(s, first, last);
    lemma_rewritten_single(lines, m, h);
    lemma_line_facts(s, first);
    lemma_line_facts(s, last);
    lemma_starts_ordered(s, first, last);
    lemma_line_bracket(s, low);
    lemma_line_bracket(s, high);
    lemma_join_len(rw);
    lemma_lead_monotone(rw, 0, n);
    lemma_join_newlines(rw, n, j.len() as int);
    assert(lines[0] == line_text(s, first));
    assert(lines[n] == line_text(s, last));
    let t = s.subrange(0, rs) + j + s.subrange(re, s.len() as int);
    let hold = low != high && is_line_start(s, low);
    let ml = moved(s, first, last, lines, rw, low, hold);
    let mh = moved(s, first, last, lines, rw, high, false);
    // The start of the selection stays on the first line.
    assert(low <= line_end(s, first));
    assert(rs <= ml <= rs + rw[0].len());
    if n > 0 {
        lemma_join_line_at(rw, 1);
        lemma_lead_monotone(rw, 1, n);
    }
    if high > low && is_line_start(s, high) {
        lemma_line_bracket(s, high - 1);
        assert(newlines_before(s, high) == last + 1);
        lemma_start_of_line(s, high);
        lemma_line_facts(s, last + 1);
        assert(high == line_end(s, last) + 1);
        assert(mh == rs + j.len() + 1);
        assert(re < s.len());
    } else {
        assert(last == newlines_before(s, high));
        assert(line_starts(s)[last] <= high <= line_end(s, last));
        assert(rs + lead(rw, n) <= mh <= rs + lead(rw, n) + rw[n].len());
        if n == 0 && !hold {
            assert(low - rs <= high - rs);
        }
    }
    assert(0 <= ml <= mh <= t.len());
    if prefix_change(s, low, high, m, h) is Some {
        let c = prefix_change(s, low, high, m, h).unwrap();
        assert(applied(s, c) =~= t);
    }
}

/// Every edit a command makes lies inside the document, and leaves the
/// selection in order inside the edited document. For a prefix command the
/// marker must stay on one line, and for a block the caret inside the block.
pub proof fn lemma_apply_in_bounds(
    s: Seq<char>,
    a: int,
    b: int,
    command: Command,
    edit: Option<Edit>,
)
    requires
        0 <= a,
        0 <= b,
        edit matches Some(Edit::Prefix { prefix }) ==> forall|i: int|
            0 <= i < prefix@.len() ==> prefix@[i] != '\n',
        edit matches Some(Edit::Block { text, caret }) ==> caret <= text@.len(),
    ensures
        apply_change(s, a, b, command, edit) matches Some(c) ==> {
            &&& 0 <= c.start <= c.end <= s.len()
            &&& 0 <= c.sel_start <= c.sel_end <= applied(s, c).len()
        },
{
    let (low, high) = clamped_selection(s.len() as int, a, b);
    if command == Command::Paragraph {
        lemma_prefix_in_bounds(s, low, high, seq![], true);
    } else {
        match edit {
            Some(Edit::Wrap { before, after }) => {
                let c = wrap_change(s, low, high, before@, after@);
                assert(applied(s, c).len() == s.len() - (c.end - c.start) + c.text.len());
            },
            Some(Edit::Prefix { prefix }) => {
                lemma_prefix_in_bounds(s, low, high, prefix@, command is Heading);
            },
            Some(Edit::Block { text, caret }) => {
                let line = line_of(s, high);
                lemma_line_bracket(s, high);
                lemma_line_facts(s, line);
                let c = block_change(s, high, text@, caret as int);
                assert(applied(s, c).len() == s.len() + c.text.len());
            },
            None => {},
        }
    }
}

/// A block goes in on lines of its own. The insertion point is the start of
/// a line of the document, or its very end after a newline written for the
/// purpose; it is the start of the line holding the end of the selection only
/// when that line is blank up to it, and otherwise the first line start after
/// it. Nothing of the document is replaced, and the caret lands `caret`
/// characters into the block.
pub proof fn lemma_block_on_lines_of_its_own(
    s: Seq<char>,
    a: int,
    b: int,
    command: Command,
    text: String,
    caret: usize,
)
    requires
        command != Command::Paragraph,
        0 <= a,
        0 <= b,
    ensures
        ({
            let high = clamped_selection(s.len() as int, a, b).1;
            let edit = Some(Edit::Block { text, caret });
            let r = apply_change(s, a, b, command, edit);
            let c = r.unwrap();
            let at = c.start;
            &&& r is Some
            &&& c.end == at
            &&& 0 <= at <= s.len()
            &&& at == 0 || s[at - 1] == '\n' || (at == s.len() && c.text == seq!['\n'] + text@)
            &&& (at == 0 || s[at - 1] == '\n') ==> c.text == text@
            &&& at <= high ==> forall|i: int|
                at <= i < high ==> #[trigger] s[i] != '\n' && whitespace(s[i])
            &&& at > high ==> forall|i: int| high <= i < at - 1 ==> #[trigger] s[i] != '\n'
            &&& c.sel_start == c.sel_end
            &&& c.sel_start == at + (c.text.len() - text@.len()) + caret
        }),
{
    let high = clamped_selection(s.len() as int, a, b).1;
    let edit = Some(Edit::Block { text, caret });
    let c = block_change(s, high, text@, caret as int);
    assert(apply_change(s, a, b, command, edit) == Some(c));
    let line = line_of(s, high);
    lemma_line_bracket(s, high);
    lemma_line_facts(s, line);
    let start = line_starts(s)[line];
    let end = line_end(s, line);
    assert(start <= high <= end);
    let blank = is_blank(s.subrange(start, end));
    if blank {
        assert forall|i: int| start <= i < high implies #[trigger] s[i] != '\n' && whitespace(
            s[i],
        ) by {
            assert(s.subrange(start, end)[i - start] == s[i]);
        }
    } else {
        let w = choose|i: int| 0 <= i < end - start && !whitespace(#[trigger] s.subrange(start, end)[i]);
        assert(s.subrange(start, end)[w] == s[start + w]);
        assert(start < end);
        if end == s.len() {
            assert(s[s.len() - 1] != '\n');
        }
    }
}

proof fn lemma_lead_monotone(ls: Seq<Seq<char>>, i: int, j: int)
    requires
        0 <= i <= j,
    ensures
        lead(ls, i) <= lead(ls, j),
    decreases j - i,
{
    if i < j {
        lemma_lead_monotone(ls, i, j - 1);
    }
}

} // verus!
