//! What the status bar counts.

use vstd::prelude::*;
use crate::text::{chars_of, is_whitespace, whitespace};

verus! {

/// The reading speed the estimate assumes.
pub const WORDS_PER_MINUTE: usize = 220;

#[derive(Debug, Clone, Copy, PartialEq, Eq, Default, Structural)]
pub struct Stats {
    pub words: usize,
    /// Zero only for a document with no words in it.
    pub reading_minutes: usize,
}

/// Whether `c` is alphabetic or numeric, as `char::is_alphanumeric` says.
pub uninterp spec fn alphanumeric(c: char) -> bool;

/// `char::is_alphanumeric`: whether the character has the Unicode
/// `Alphabetic` property or is in a numeric category. Named rather than
/// written out, because the tables behind it are Unicode's.
pub assume_specification[ char::is_alphanumeric ](c: char) -> (b: bool)
    ensures
        b == alphanumeric(c),
;

/// A word starts at `i`: a run of non-whitespace begins there, and holds a
/// letter or a digit. A bare `-` or `|` standing alone is not a word.
pub open spec fn word_starts_at(s: Seq<char>, i: int) -> bool {
    &&& 0 <= i < s.len()
    &&& !whitespace(s[i])
    &&& i == 0 || whitespace(s[i - 1])
    &&& exists|j: int|
        i <= j < s.len() && alphanumeric(#[trigger] s[j]) && forall|k: int|
            i <= k <= j ==> !whitespace(#[trigger] s[k])
}

/// How many words start before offset `n`.
pub open spec fn words_before(s: Seq<char>, n: int) -> nat
    decreases n,
{
    if n <= 0 {
        0
    } else {
        words_before(s, n - 1) + if word_starts_at(s, n - 1) {
            1nat
        } else {
            0nat
        }
    }
}

pub open spec fn word_count(s: Seq<char>) -> nat {
    words_before(s, s.len() as int)
}

/// Minutes to read `words` words at the assumed speed, to the nearest minute
/// and never less than one; none for no words.
pub open spec fn reading_minutes_for(words: nat) -> nat {
    if words == 0 {
        0
    } else if (words + 110) / 220 < 1 {
        1
    } else {
        (words + 110) / 220
    }
}

/// A document with no words takes no time to read; one with any words takes
/// at least a minute; and more words never take less time.
pub proof fn lemma_reading_time_grows_with_length(fewer: nat, more: nat)
    requires
        fewer <= more,
    ensures
        reading_minutes_for(fewer) == 0 <==> fewer == 0,
        fewer > 0 ==> reading_minutes_for(fewer) >= 1,
        reading_minutes_for(fewer) <= reading_minutes_for(more),
{
    assert((fewer + 110) / 220 <= (more + 110) / 220) by (nonlinear_arith)
        requires
            fewer <= more,
    ;
}

proof fn lemma_words_before_bounded(s: Seq<char>, n: int)
    ensures
        words_before(s, n) <= if n < 0 {
            0
        } else {
            n
        },
    decreases n,
{
    if n > 0 {
        lemma_words_before_bounded(s, n - 1);
    }
}

/// Count the prose the scanner's stripped text holds: the text with its
/// Markdown syntax and any frontmatter taken out.
pub fn stats_with(prose: &str) -> (stats: Stats)
    ensures
        stats.words == word_count(prose@),
        stats.reading_minutes == reading_minutes_for(word_count(prose@)),
{
    let chars = chars_of(prose);
    let ghost s = chars@;
    let n = chars.len();
    let mut count: usize = 0;
    let mut in_token = false;
    let mut p: usize = 0;
    let mut seen = false;
    let mut i: usize = 0;
    proof {
        lemma_words_before_bounded(s, n as int);
    }
    while i < n
        invariant
            s == chars@,
            n == s.len(),
            i <= n,
            count <= i,
            !in_token ==> count == words_before(s, i as int),
            !in_token ==> (i == 0 || whitespace(s[i - 1])),
            in_token ==> p < i,
            in_token ==> (p == 0 || whitespace(s[p - 1])),
            in_token ==> forall|k: int| p <= k < i ==> !whitespace(#[trigger] s[k]),
            in_token ==> words_before(s, i as int) == count + if word_starts_at(s, p as int) {
                1nat
            } else {
                0nat
            },
            in_token ==> (seen == exists|j: int| p <= j < i && alphanumeric(#[trigger] s[j])),
            in_token ==> count <= p,
        decreases n - i,
    {
        let c = chars[i];
        if is_whitespace(c) {
            if in_token {
                proof {
                    lemma_token_word(s, p as int, i as int);
                }
                if seen {
                    count = count + 1;
                }
                in_token = false;
            }
            assert(!word_starts_at(s, i as int));
        } else {
            let alnum = c.is_alphanumeric();
            if !in_token {
                in_token = true;
                p = i;
                seen = alnum;
                assert(seen == exists|j: int| p <= j < i + 1 && alphanumeric(#[trigger] s[j])) by {
                    if seen {
                        assert(alphanumeric(s[i as int]));
                    }
                }
            } else {
                assert(!word_starts_at(s, i as int));
                seen = seen || alnum;
                assert(seen == exists|j: int| p <= j < i + 1 && alphanumeric(#[trigger] s[j])) by {
                    if alnum {
                        assert(alphanumeric(s[i as int]));
                    }
                }
            }
        }
        i = i + 1;
    }
    if in_token {
        proof {
            lemma_token_word(s, p as int, n as int);
        }
        if seen {
            count = count + 1;
        }
    }
    let words = count;
    let reading_minutes = if words == 0 {
        0
    } else {
        let rounded = words / WORDS_PER_MINUTE + if words % WORDS_PER_MINUTE >= 110 {
            1
        } else {
            0
        };
        if rounded < 1 {
            1
        } else {
            rounded
        }
    };
    assert(reading_minutes == reading_minutes_for(words as nat)) by {
        assert((words + 110) / 220 == words / 220 + if words % 220 >= 110 {
            1int
        } else {
            0int
        }) by (nonlinear_arith);
    }
    Stats { words, reading_minutes }
}

/// A token that runs from `p` to just before `e`, where whitespace or the end
/// of the text follows, is a word exactly when it holds a letter or a digit.
proof fn lemma_token_word(s: Seq<char>, p: int, e: int)
    requires
        0 <= p < e <= s.len(),
        p == 0 || whitespace(s[p - 1]),
        forall|k: int| p <= k < e ==> !whitespace(#[trigger] s[k]),
        e == s.len() || whitespace(s[e]),
    ensures
        word_starts_at(s, p) == exists|j: int| p <= j < e && alphanumeric(#[trigger] s[j]),
{
    if word_starts_at(s, p) {
        let j = choose|j: int|
            p <= j < s.len() && alphanumeric(#[trigger] s[j]) && forall|k: int|
                p <= k <= j ==> !whitespace(#[trigger] s[k]);
        if j >= e {
            assert(!whitespace(s[e]));
        }
        assert(p <= j < e && alphanumeric(s[j]));
    }
    if exists|j: int| p <= j < e && alphanumeric(#[trigger] s[j]) {
        let j = choose|j: int| p <= j < e && alphanumeric(#[trigger] s[j]);
        assert(forall|k: int| p <= k <= j ==> !whitespace(#[trigger] s[k]));
        assert(!whitespace(s[p]));
    }
}

} // verus!
