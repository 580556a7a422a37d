//! Lines of a text: where each one starts and ends, and which line an offset
//! falls on. Offsets are character offsets throughout.

use vstd::prelude::*;

verus! {

/// How many newlines come before offset `k` of `s`.
pub open spec fn newlines_before(s: Seq<char>, k: int) -> int
    decreases k,
{
    if k <= 0 {
        0
    } else {
        newlines_before(s, k - 1) + if s[k - 1] == '\n' {
            1int
        } else {
            0int
        }
    }
}

/// The offsets of the line starts among the first `n` characters: `0`, and
/// one past every newline.
pub open spec fn starts_upto(s: Seq<char>, n: int) -> Seq<int>
    decreases n,
{
    if n <= 0 {
        seq![0int]
    } else if s[n - 1] == '\n' {
        starts_upto(s, n - 1).push(n)
    } else {
        starts_upto(s, n - 1)
    }
}

/// The offset at which each line of `s` starts.
pub open spec fn line_starts(s: Seq<char>) -> Seq<int> {
    starts_upto(s, s.len() as int)
}

pub open spec fn line_count(s: Seq<char>) -> int {
    line_starts(s).len() as int
}

/// The zero-based line an offset falls on. Offsets past the end fall on the
/// last line.
pub open spec fn line_of(s: Seq<char>, x: int) -> int {
    newlines_before(
        s,
        if x < s.len() {
            x
        } else {
            s.len() as int
        },
    )
}

/// One past the last character of line `k`, not counting its newline.
pub open spec fn line_end(s: Seq<char>, k: int) -> int {
    if k + 1 < line_count(s) {
        line_starts(s)[k + 1] - 1
    } else {
        s.len() as int
    }
}

/// The characters of line `k`, without its newline.
pub open spec fn line_text(s: Seq<char>, k: int) -> Seq<char> {
    s.subrange(line_starts(s)[k], line_end(s, k))
}

/// Whether `x` is the offset at which some line starts.
pub open spec fn is_line_start(s: Seq<char>, x: int) -> bool {
    x == 0 || (0 < x <= s.len() && s[x - 1] == '\n')
}

pub open spec fn as_ints(v: Seq<usize>) -> Seq<int> {
    v.map_values(|x: usize| x as int)
}

pub proof fn lemma_starts_upto(s: Seq<char>, n: int)
    requires
        0 <= n <= s.len(),
    ensures
        0 <= newlines_before(s, n) <= n,
        starts_upto(s, n).len() == newlines_before(s, n) + 1,
        starts_upto(s, n)[0] == 0,
        forall|i: int, j: int|
            0 <= i < j < starts_upto(s, n).len() ==> starts_upto(s, n)[i] < starts_upto(s, n)[j],
        forall|i: int| 0 <= i < starts_upto(s, n).len() ==> 0 <= #[trigger] starts_upto(s, n)[i] <= n,
        forall|i: int|
            0 <= i < starts_upto(s, n).len() ==> newlines_before(s, #[trigger] starts_upto(s, n)[i])
                == i,
        forall|i: int|
            0 < i < starts_upto(s, n).len() ==> s[#[trigger] starts_upto(s, n)[i] - 1] == '\n',
        forall|i: int, y: int|
            #![trigger starts_upto(s, n)[i], s[y - 1]]
            0 <= i < starts_upto(s, n).len() && starts_upto(s, n)[i] < y <= n && (i + 1
                < starts_upto(s, n).len() ==> y < starts_upto(s, n)[i + 1]) ==> s[y - 1] != '\n',
    decreases n,
{
    if n > 0 {
        lemma_starts_upto(s, n - 1);
        let p = starts_upto(s, n - 1);
        let q = starts_upto(s, n);
        if s[n - 1] == '\n' {
            assert(q == p.push(n));
            assert forall|i: int, y: int|
                #![trigger q[i], s[y - 1]]
                0 <= i < q.len() && q[i] < y <= n && (i + 1 < q.len() ==> y < q[i + 1])
                    implies s[y - 1] != '\n' by {
                if i + 1 < q.len() {
                    assert(q[i] == p[i]);
                    if i + 1 < p.len() {
                        assert(q[i + 1] == p[i + 1]);
                    }
                }
            }
        } else {
            assert(q == p);
            assert forall|i: int, y: int|
                #![trigger q[i], s[y - 1]]
                0 <= i < q.len() && q[i] < y <= n && (i + 1 < q.len() ==> y < q[i + 1])
                    implies s[y - 1] != '\n' by {
                if y < n {
                    assert(p[i] < y <= n - 1);
                }
            }
        }
    }
}

/// The line an offset is on is the one whose start is at or before it and
/// whose successor's start is after it.
pub proof fn lemma_line_bracket(s: Seq<char>, x: int)
    requires
        0 <= x <= s.len(),
    ensures
        0 <= newlines_before(s, x) < line_count(s),
        line_starts(s)[newlines_before(s, x)] <= x,
        newlines_before(s, x) + 1 < line_count(s) ==> x < line_starts(s)[newlines_before(s, x)
            + 1],
    decreases x,
{
    lemma_starts_upto(s, s.len() as int);
    let st = line_starts(s);
    if x > 0 {
        lemma_line_bracket(s, x - 1);
        let k = newlines_before(s, x - 1);
        if s[x - 1] == '\n' {
            if !(k + 1 < st.len() && st[k + 1] <= x) {
                assert(st[k] < x <= s.len());
            }
        } else {
            if k + 1 < st.len() {
                assert(st[k + 1] != x);
            }
        }
    }
}

/// The bracket of `lemma_line_bracket` picks out exactly one line.
pub proof fn lemma_line_unique(s: Seq<char>, x: int, j: int)
    requires
        0 <= x <= s.len(),
        0 <= j < line_count(s),
        line_starts(s)[j] <= x,
        j + 1 < line_count(s) ==> x < line_starts(s)[j + 1],
    ensures
        newlines_before(s, x) == j,
{
    lemma_starts_upto(s, s.len() as int);
    lemma_line_bracket(s, x);
    let k = newlines_before(s, x);
    let st = line_starts(s);
    if k < j {
        assert(st[k + 1] <= st[j]);
    } else if j < k {
        assert(st[j + 1] <= st[k]);
    }
}

/// A later offset is never on an earlier line.
pub proof fn lemma_newlines_monotone(s: Seq<char>, x: int, y: int)
    requires
        x <= y,
    ensures
        newlines_before(s, x) <= newlines_before(s, y),
    decreases y - x,
{
    if x < y {
        lemma_newlines_monotone(s, x, y - 1);
    }
}

/// What every line of `s` looks like: it starts at or after the previous
/// one's newline, ends at or before the end of the text, and contains no
/// newline of its own.
pub proof fn lemma_lines(s: Seq<char>)
    ensures
        line_count(s) >= 1,
        line_starts(s)[0] == 0,
        forall|k: int|
            0 <= k < line_count(s) ==> 0 <= #[trigger] line_starts(s)[k] <= line_end(s, k) <= s.len(),
        forall|k: int|
            0 <= k && k + 1 < line_count(s) ==> #[trigger] line_end(s, k) + 1 == line_starts(s)[k
                + 1],
        forall|k: int|
            0 <= k && k + 1 < line_count(s) ==> s[#[trigger] line_end(s, k)] == '\n',
        forall|k: int, y: int|
            #![trigger line_starts(s)[k], s[y]]
            0 <= k < line_count(s) && line_starts(s)[k] <= y < line_end(s, k) ==> s[y] != '\n',
        forall|i: int, j: int|
            0 <= i < j < line_count(s) ==> line_starts(s)[i] < line_starts(s)[j],
        forall|k: int|
            0 <= k < line_count(s) ==> newlines_before(s, #[trigger] line_starts(s)[k]) == k,
{
    lemma_starts_upto(s, s.len() as int);
    let st = line_starts(s);
    assert forall|k: int| 0 <= k < line_count(s) implies 0 <= #[trigger] st[k] <= line_end(s, k)
        <= s.len() by {
        if k + 1 < line_count(s) {
            assert(st[k] < st[k + 1]);
        }
    }
    assert forall|k: int, y: int|
        #![trigger st[k], s[y]]
        0 <= k < line_count(s) && st[k] <= y < line_end(s, k) implies s[y] != '\n' by {
        assert(st[k] < y + 1 <= s.len());
        assert(s[(y + 1) - 1] != '\n');
    }
}

/// Counting newlines only looks at what comes before the count's end.
pub proof fn lemma_newlines_same_prefix(u: Seq<char>, v: Seq<char>, y: int)
    requires
        0 <= y <= u.len(),
        y <= v.len(),
        u.take(y) == v.take(y),
    ensures
        newlines_before(u, y) == newlines_before(v, y),
    decreases y,
{
    if y > 0 {
        assert(u.take(y - 1) =~= u.take(y).take(y - 1));
        assert(v.take(y - 1) =~= v.take(y).take(y - 1));
        lemma_newlines_same_prefix(u, v, y - 1);
        assert(u[y - 1] == u.take(y)[y - 1]);
        assert(v[y - 1] == v.take(y)[y - 1]);
    }
}

/// The newlines before a point in the second half of a text are those of the
/// first half and those of the second half before it.
pub proof fn lemma_newlines_concat(a: Seq<char>, b: Seq<char>, z: int)
    requires
        0 <= z <= b.len(),
    ensures
        newlines_before(a + b, a.len() + z) == newlines_before(a, a.len() as int)
            + newlines_before(b, z),
    decreases z,
{
    if z == 0 {
        assert((a + b).take(a.len() as int) =~= a.take(a.len() as int));
        lemma_newlines_same_prefix(a + b, a, a.len() as int);
    } else {
        lemma_newlines_concat(a, b, z - 1);
        assert((a + b)[a.len() + z - 1] == b[z - 1]);
    }
}

/// An offset at which a line starts is where its line starts.
pub proof fn lemma_start_of_line(u: Seq<char>, x: int)
    requires
        0 <= x <= u.len(),
        is_line_start(u, x),
    ensures
        newlines_before(u, x) < line_count(u),
        line_starts(u)[newlines_before(u, x)] == x,
{
    lemma_starts_upto(u, u.len() as int);
    lemma_line_bracket(u, x);
    let k = newlines_before(u, x);
    let st = line_starts(u);
    if st[k] < x {
        assert(u[x - 1] != '\n');
    }
}

/// The facts of one line of `s`: where it starts and ends, that it holds no
/// newline, and that a newline ends it when another line follows.
pub proof fn lemma_line_facts(s: Seq<char>, k: int)
    requires
        0 <= k < line_count(s),
    ensures
        0 <= line_starts(s)[k] <= line_end(s, k) <= s.len(),
        k + 1 < line_count(s) ==> line_end(s, k) + 1 == line_starts(s)[k + 1] && s[line_end(
            s,
            k,
        )] == '\n',
        k > 0 ==> s[line_starts(s)[k] - 1] == '\n',
        k == 0 ==> line_starts(s)[k] == 0,
        newlines_before(s, line_starts(s)[k]) == k,
        forall|y: int| line_starts(s)[k] <= y < line_end(s, k) ==> #[trigger] s[y] != '\n',
{
    lemma_lines(s);
    lemma_starts_upto(s, s.len() as int);
    assert forall|y: int| line_starts(s)[k] <= y < line_end(s, k) implies #[trigger] s[y]
        != '\n' by {
        assert(line_starts(s)[k] <= y < line_end(s, k));
    }
}

/// The line starts of the characters in `chars`.
pub fn line_starts_of(chars: &Vec<char>) -> (starts: Vec<usize>)
    ensures
        as_ints(starts@) == line_starts(chars@),
{
    let mut starts: Vec<usize> = Vec::new();
    starts.push(0);
    let mut i: usize = 0;
    assert(as_ints(starts@) =~= starts_upto(chars@, 0));
    while i < chars.len()
        invariant
            i <= chars.len(),
            as_ints(starts@) == starts_upto(chars@, i as int),
        decreases chars.len() - i,
    {
        if chars[i] == '\n' {
            starts.push(i + 1);
        }
        i = i + 1;
        assert(as_ints(starts@) =~= starts_upto(chars@, i as int));
    }
    starts
}

/// The line that `offset` falls on, from the line starts of `chars`.
pub fn line_index(chars: &Vec<char>, starts: &Vec<usize>, offset: usize) -> (line: usize)
    requires
        as_ints(starts@) == line_starts(chars@),
    ensures
        line as int == line_of(chars@, offset as int),
        (line as int) < line_count(chars@),
{
    proof {
        lemma_starts_upto(chars@, chars@.len() as int);
    }
    let x = if offset < chars.len() {
        offset
    } else {
        chars.len()
    };
    let ghost st = line_starts(chars@);
    assert(starts@.len() == as_ints(starts@).len());
    assert(starts@[0] as int == st[0]);
    let mut lo: usize = 0;
    let mut hi: usize = starts.len();
    while hi - lo > 1
        invariant
            as_ints(starts@) == st,
            st == line_starts(chars@),
            starts@.len() == st.len(),
            0 <= lo < hi <= starts.len(),
            st[lo as int] <= x,
            hi < starts.len() ==> x < st[hi as int],
        decreases hi - lo,
    {
        let mid = lo + (hi - lo) / 2;
        assert(starts@[mid as int] as int == st[mid as int]);
        if starts[mid] <= x {
            lo = mid;
        } else {
            hi = mid;
        }
    }
    proof {
        lemma_line_unique(chars@, x as int, lo as int);
    }
    lo
}

/// One past the last character of `line`, before its newline.
pub fn line_end_of(chars: &Vec<char>, starts: &Vec<usize>, line: usize) -> (end: usize)
    requires
        as_ints(starts@) == line_starts(chars@),
        line < starts.len(),
    ensures
        end as int == line_end(chars@, line as int),
        line_starts(chars@)[line as int] <= end <= chars@.len(),
{
    proof {
        lemma_starts_upto(chars@, chars@.len() as int);
    }
    assert(starts@[line as int] as int == line_starts(chars@)[line as int]);
    if line + 1 < starts.len() {
        assert(starts@[line + 1] as int == line_starts(chars@)[line + 1]);
        starts[line + 1] - 1
    } else {
        chars.len()
    }
}

} // verus!
