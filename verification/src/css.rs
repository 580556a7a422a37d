//! What a reading style looks like written as CSS: its font families and its
//! colours.
//!
//! A style names its faces as a CSS-style family list, `"PT Serif, Georgia,
//! serif"`, so that the first installed face wins. A stylesheet wants the real
//! faces quoted and the generic keywords bare; a font description wants only
//! the first face.

use vstd::prelude::*;
use crate::style::{blue_of, green_of, red_of, Rgba, RgbaModel};
use crate::text::{
    chars_of, decimal, digit, push_decimal, push_str, same_text, string_of, trim_range, trimmed,
};

verus! {

broadcast use vstd::string::group_string_axioms;

/// The pieces of `s` between its commas, as `str::split(',')` gives them:
/// always at least one, and an empty one wherever two commas meet or one
/// ends the text.
pub open spec fn comma_pieces(s: Seq<char>) -> Seq<Seq<char>>
    decreases s.len(),
{
    if s.len() == 0 {
        seq![seq![]]
    } else {
        let init = comma_pieces(s.drop_last());
        if s.last() == ',' {
            init.push(seq![])
        } else {
            init.update(init.len() - 1, init.last().push(s.last()))
        }
    }
}

/// The parts, with `sep` between each two.
pub open spec fn joined(parts: Seq<Seq<char>>, sep: Seq<char>) -> Seq<char>
    decreases parts.len(),
{
    if parts.len() == 0 {
        seq![]
    } else if parts.len() == 1 {
        parts[0]
    } else {
        joined(parts.drop_last(), sep) + sep + parts.last()
    }
}

/// The generic family keywords, which CSS reads only unquoted.
pub open spec fn is_generic_family(f: Seq<char>) -> bool {
    f == "serif"@ || f == "sans-serif"@ || f == "monospace"@ || f == "cursive"@
}

/// One piece of a family list as a stylesheet writes it.
pub open spec fn css_family(piece: Seq<char>) -> Seq<char> {
    let f = trimmed(piece);
    if is_generic_family(f) {
        f
    } else {
        seq!['"'] + f + seq!['"']
    }
}

/// A family is written bare exactly when, trimmed, it is one of the CSS
/// generic families `serif`, `sans-serif`, `monospace` and `cursive`, which
/// CSS reads only unquoted; any other family is the trimmed name in double
/// quotes.
pub proof fn lemma_generic_families_stay_bare(piece: Seq<char>)
    ensures
        ({
            let f = trimmed(piece);
            let generic = f == "serif"@ || f == "sans-serif"@ || f == "monospace"@ || f
                == "cursive"@;
            &&& generic ==> css_family(piece) == f
            &&& !generic ==> css_family(piece) == seq!['"'] + f + seq!['"']
            &&& css_family(piece) == f <==> generic
        }),
{
    let f = trimmed(piece);
    let q = seq!['"'] + f + seq!['"'];
    assert(q.len() == f.len() + 2);
}

pub open spec fn css_family_list(s: Seq<char>) -> Seq<char> {
    joined(comma_pieces(s).map_values(|p: Seq<char>| css_family(p)), ", "@)
}

/// The first face of a family list, trimmed.
pub open spec fn first_family_of(s: Seq<char>) -> Seq<char> {
    trimmed(comma_pieces(s)[0])
}

pub open spec fn bounded_pieces(s: Seq<char>, bounds: Seq<(usize, usize)>) -> Seq<Seq<char>> {
    bounds.map_values(|b: (usize, usize)| s.subrange(b.0 as int, b.1 as int))
}

/// Where each comma-separated piece of `chars` starts and ends.
fn comma_bounds(chars: &Vec<char>) -> (bounds: Vec<(usize, usize)>)
    ensures
        bounds.len() >= 1,
        bounded_pieces(chars@, bounds@) == comma_pieces(chars@),
        forall|k: int|
            0 <= k < bounds.len() ==> #[trigger] bounds@[k].0 <= bounds@[k].1 <= chars.len(),
{
    let mut bounds: Vec<(usize, usize)> = Vec::new();
    let mut start: usize = 0;
    let n = chars.len();
    assert(chars@.take(0) =~= seq![]);
    assert(chars@.subrange(0, 0) =~= seq![]);
    assert(bounded_pieces(chars@, bounds@).push(chars@.subrange(0, 0)) =~= seq![seq![]]);
    let mut i: usize = 0;
    while i < n
        invariant
            n == chars.len(),
            start <= i <= n,
            forall|k: int|
                0 <= k < bounds.len() ==> #[trigger] bounds@[k].0 <= bounds@[k].1 <= start,
            comma_pieces(chars@.take(i as int)) == bounded_pieces(chars@, bounds@).push(
                chars@.subrange(start as int, i as int),
            ),
        decreases n - i,
    {
        let ghost before = chars@.take(i as int);
        assert(chars@.take(i as int + 1).drop_last() =~= before);
        assert(chars@.take(i as int + 1).last() == chars@[i as int]);
        if chars[i] == ',' {
            let ghost old_bounds = bounds@;
            bounds.push((start, i));
            assert(bounded_pieces(chars@, bounds@) =~= bounded_pieces(chars@, old_bounds).push(
                chars@.subrange(start as int, i as int),
            ));
            start = i + 1;
            assert(chars@.subrange(start as int, i as int + 1) =~= seq![]);
        } else {
            assert(chars@.subrange(start as int, i as int + 1) =~= chars@.subrange(
                start as int,
                i as int,
            ).push(chars@[i as int]));
        }
        i = i + 1;
        assert(comma_pieces(chars@.take(i as int)) =~= bounded_pieces(chars@, bounds@).push(
            chars@.subrange(start as int, i as int),
        ));
    }
    let ghost old_bounds = bounds@;
    bounds.push((start, n));
    assert(bounded_pieces(chars@, bounds@) =~= bounded_pieces(chars@, old_bounds).push(
        chars@.subrange(start as int, n as int),
    ));
    assert(chars@.take(n as int) =~= chars@);
    bounds
}

/// Whether a trimmed family is one of the generic keywords.
fn generic_family(f: &str) -> (b: bool)
    ensures
        b == is_generic_family(f@),
{
    same_text(f, "serif") || same_text(f, "sans-serif") || same_text(f, "monospace") || same_text(
        f,
        "cursive",
    )
}

/// Quote the family names that need it, and leave the generic keywords bare.
pub fn css_families(families: &str) -> (css: String)
    ensures
        css@ == css_family_list(families@),
{
    let chars = chars_of(families);
    let bounds = comma_bounds(&chars);
    let ghost rendered = comma_pieces(chars@).map_values(|p: Seq<char>| css_family(p));
    let mut out = String::new();
    let mut k: usize = 0;
    assert(rendered.take(0) =~= seq![]);
    while k < bounds.len()
        invariant
            0 <= k <= bounds.len(),
            bounded_pieces(chars@, bounds@) == comma_pieces(chars@),
            forall|j: int|
                0 <= j < bounds.len() ==> #[trigger] bounds@[j].0 <= bounds@[j].1 <= chars.len(),
            rendered == comma_pieces(chars@).map_values(|p: Seq<char>| css_family(p)),
            rendered.len() == bounds.len(),
            out@ == joined(rendered.take(k as int), ", "@),
        decreases bounds.len() - k,
    {
        let (from, to) = bounds[k];
        let ghost piece = chars@.subrange(from as int, to as int);
        assert(piece == comma_pieces(chars@)[k as int]);
        let family = string_of(&trim_range(&chars, from, to));
        if k > 0 {
            push_str(&mut out, ", ");
        }
        if generic_family(family.as_str()) {
            push_str(&mut out, family.as_str());
        } else {
            out.push('"');
            push_str(&mut out, family.as_str());
            out.push('"');
        }
        assert(rendered[k as int] == css_family(piece));
        assert(rendered.take(k as int + 1).drop_last() =~= rendered.take(k as int));
        k = k + 1;
        assert(out@ =~= joined(rendered.take(k as int), ", "@));
    }
    assert(rendered.take(k as int) =~= rendered);
    out
}

/// The first family in a CSS-style list, which is what a font description
/// wants.
pub fn first_family(families: &str) -> (family: String)
    ensures
        family@ == first_family_of(families@),
{
    let chars = chars_of(families);
    let bounds = comma_bounds(&chars);
    let (from, to) = bounds[0];
    assert(bounded_pieces(chars@, bounds@)[0] == chars@.subrange(from as int, to as int));
    string_of(&trim_range(&chars, from, to))
}

/// Three decimal digits, with leading zeros.
pub open spec fn three_digits(n: nat) -> Seq<char> {
    seq![digit(n / 100), digit(n / 10 % 10), digit(n % 10)]
}

/// An alpha of 0–255 in thousandths of full opacity, rounded to the nearest.
pub open spec fn thousandths(alpha: u8) -> nat {
    ((alpha * 1000 + 127) / 255) as nat
}

/// A colour as CSS writes it: `rgba(R,G,B,A)` with the opacity to three
/// decimal places.
pub open spec fn css_colour_of(c: RgbaModel) -> Seq<char> {
    let t = thousandths(c.alpha);
    "rgba("@ + decimal(red_of(c) as nat) + seq![','] + decimal(green_of(c) as nat) + seq![',']
        + decimal(blue_of(c) as nat) + seq![','] + decimal(t / 1000) + seq!['.'] + three_digits(
        t % 1000,
    ) + seq![')']
}

fn digit_of(d: u64) -> (c: char)
    requires
        d < 10,
    ensures
        c == digit(d as nat),
{
    if d == 0 {
        '0'
    } else if d == 1 {
        '1'
    } else if d == 2 {
        '2'
    } else if d == 3 {
        '3'
    } else if d == 4 {
        '4'
    } else if d == 5 {
        '5'
    } else if d == 6 {
        '6'
    } else if d == 7 {
        '7'
    } else if d == 8 {
        '8'
    } else {
        '9'
    }
}

/// `colour` as a stylesheet writes it.
pub fn css_colour(colour: Rgba) -> (css: String)
    ensures
        css@ == css_colour_of(colour@),
{
    let (r, g, b, a) = colour.channels();
    let t: u64 = (a as u64 * 1000 + 127) / 255;
    let mut out = String::new();
    push_str(&mut out, "rgba(");
    push_decimal(&mut out, r as u64);
    out.push(',');
    push_decimal(&mut out, g as u64);
    out.push(',');
    push_decimal(&mut out, b as u64);
    out.push(',');
    push_decimal(&mut out, t / 1000);
    out.push('.');
    let f = t % 1000;
    out.push(digit_of(f / 100));
    out.push(digit_of(f / 10 % 10));
    out.push(digit_of(f % 10));
    out.push(')');
    assert(out@ =~= css_colour_of(colour@));
    out
}

} // verus!
