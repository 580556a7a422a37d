//! Character-level helpers shared by the rest of the crate.

use vstd::prelude::*;

verus! {

broadcast use vstd::string::group_string_axioms;

/// Appending a character to a `String`.
pub assume_specification[ String::push ](s: &mut String, ch: char)
    ensures
        final(s)@ == old(s)@.push(ch),
;

/// The characters of `s`, as a vector that can be indexed in constant time.
pub fn chars_of(s: &str) -> (v: Vec<char>)
    ensures
        v@ == s@,
{
    let mut v: Vec<char> = Vec::new();
    for c in iter: s.chars()
        invariant
            iter.seq() == s@,
            v@ == iter.seq().take(iter.index() as int),
    {
        v.push(c);
    }
    v
}


/// A `String` holding exactly the characters of `v`.
pub fn string_of(v: &Vec<char>) -> (s: String)
    ensures
        s@ == v@,
{
    let mut s = String::new();
    let mut i: usize = 0;
    while i < v.len()
        invariant
            i <= v.len(),
            s@ == v@.take(i as int),
        decreases v.len() - i,
    {
        s.push(v[i]);
        i = i + 1;
        assert(v@.take(i as int) == v@.take((i - 1) as int).push(v@[i - 1]));
    }
    assert(v@.take(v.len() as int) == v@);
    s
}

/// Whether `c` has the Unicode `White_Space` property, which is what
/// `char::is_whitespace` tests.
pub open spec fn whitespace(c: char) -> bool {
    let u = c as u32;
    ||| 0x09 <= u <= 0x0d
    ||| u == 0x20
    ||| u == 0x85
    ||| u == 0xa0
    ||| u == 0x1680
    ||| 0x2000 <= u <= 0x200a
    ||| u == 0x2028
    ||| u == 0x2029
    ||| u == 0x202f
    ||| u == 0x205f
    ||| u == 0x3000
}

pub fn is_whitespace(c: char) -> (b: bool)
    ensures
        b == whitespace(c),
{
    let u = c as u32;
    (0x09 <= u && u <= 0x0d) || u == 0x20 || u == 0x85 || u == 0xa0 || u == 0x1680 || (0x2000
        <= u && u <= 0x200a) || u == 0x2028 || u == 0x2029 || u == 0x202f || u == 0x205f || u
        == 0x3000
}

/// Whether two strings hold the same characters.
pub fn same_text(a: &str, b: &str) -> (same: bool)
    ensures
        same == (a@ == b@),
{
    let x = chars_of(a);
    let y = chars_of(b);
    same_chars(&x, &y)
}

/// Whether two character vectors are equal.
pub fn same_chars(x: &Vec<char>, y: &Vec<char>) -> (same: bool)
    ensures
        same == (x@ == y@),
{
    if x.len() != y.len() {
        return false;
    }
    let mut i: usize = 0;
    while i < x.len()
        invariant
            i <= x.len(),
            x.len() == y.len(),
            forall|k: int| 0 <= k < i ==> x@[k] == y@[k],
        decreases x.len() - i,
    {
        if x[i] != y[i] {
            return false;
        }
        i = i + 1;
    }
    assert(x@ =~= y@);
    true
}

/// The decimal digit `d`.
pub open spec fn digit(d: nat) -> char {
    if d == 0 { '0' }
    else if d == 1 { '1' }
    else if d == 2 { '2' }
    else if d == 3 { '3' }
    else if d == 4 { '4' }
    else if d == 5 { '5' }
    else if d == 6 { '6' }
    else if d == 7 { '7' }
    else if d == 8 { '8' }
    else { '9' }
}

/// `n` written in decimal, without leading zeros.
pub open spec fn decimal(n: nat) -> Seq<char>
    decreases n,
{
    if n < 10 {
        seq![digit(n)]
    } else {
        decimal(n / 10) + seq![digit(n % 10)]
    }
}

fn digit_char(d: u64) -> (c: char)
    requires
        d < 10,
    ensures
        c == digit(d as nat),
{
    if d == 0 { '0' }
    else if d == 1 { '1' }
    else if d == 2 { '2' }
    else if d == 3 { '3' }
    else if d == 4 { '4' }
    else if d == 5 { '5' }
    else if d == 6 { '6' }
    else if d == 7 { '7' }
    else if d == 8 { '8' }
    else { '9' }
}

/// Append `n`, in decimal, to `out`.
pub fn push_decimal(out: &mut String, n: u64)
    ensures
        final(out)@ == old(out)@ + decimal(n as nat),
    decreases n,
{
    if n >= 10 {
        push_decimal(out, n / 10);
    }
    out.push(digit_char(n % 10));
}

/// Append the characters of `s` to `out`.
pub fn push_str(out: &mut String, s: &str)
    ensures
        final(out)@ == old(out)@ + s@,
{
    out.append(s);
}

/// How many whitespace characters `s` opens with.
pub open spec fn leading_ws(s: Seq<char>) -> int
    decreases s.len(),
{
    if s.len() > 0 && whitespace(s[0]) {
        1 + leading_ws(s.drop_first())
    } else {
        0
    }
}

/// How many whitespace characters `s` closes with.
pub open spec fn trailing_ws(s: Seq<char>) -> int
    decreases s.len(),
{
    if s.len() > 0 && whitespace(s.last()) {
        1 + trailing_ws(s.drop_last())
    } else {
        0
    }
}

/// `s` with leading and trailing whitespace removed, as `str::trim` gives it.
pub open spec fn trimmed(s: Seq<char>) -> Seq<char> {
    if leading_ws(s) >= s.len() {
        seq![]
    } else {
        s.subrange(leading_ws(s), s.len() - trailing_ws(s))
    }
}

/// `chars[from..to]`, trimmed.
pub fn trim_range(chars: &Vec<char>, from: usize, to: usize) -> (v: Vec<char>)
    requires
        from <= to <= chars.len(),
    ensures
        v@ == trimmed(chars@.subrange(from as int, to as int)),
{
    let ghost sub = chars@.subrange(from as int, to as int);
    let mut a = from;
    assert(sub.skip(0) =~= sub);
    while a < to && is_whitespace(chars[a])
        invariant
            from <= a <= to <= chars.len(),
            sub == chars@.subrange(from as int, to as int),
            leading_ws(sub) == (a - from) + leading_ws(sub.skip(a - from)),
        decreases to - a,
    {
        assert(sub.skip(a - from).drop_first() =~= sub.skip(a - from + 1));
        a = a + 1;
    }
    if a == to {
        return Vec::new();
    }
    assert(leading_ws(sub.skip(a - from)) == 0);
    let mut b = to;
    assert(sub.take(sub.len() as int) =~= sub);
    while b > a && is_whitespace(chars[b - 1])
        invariant
            from <= a < to <= chars.len(),
            a < b <= to,
            !whitespace(chars@[a as int]),
            sub == chars@.subrange(from as int, to as int),
            trailing_ws(sub) == (to - b) + trailing_ws(sub.take(b - from)),
        decreases b,
    {
        assert(sub.take(b - from).drop_last() =~= sub.take(b - from - 1));
        b = b - 1;
    }
    assert(b > a);
    assert(trailing_ws(sub.take(b - from)) == 0);
    let mut v: Vec<char> = Vec::new();
    let mut i = a;
    while i < b
        invariant
            a <= i <= b <= chars.len(),
            v@ == chars@.subrange(a as int, i as int),
        decreases b - i,
    {
        v.push(chars[i]);
        i = i + 1;
        assert(v@ =~= chars@.subrange(a as int, i as int));
    }
    assert(chars@.subrange(a as int, b as int) =~= sub.subrange(a - from, sub.len() - (to - b)));
    v
}

} // verus!
