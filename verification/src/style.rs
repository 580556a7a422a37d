//! The reading styles: their ids, and the colours their palettes are written
//! in.
//!
//! A reading style is a complete typographic system, and the style table
//! itself lives with the frontend that renders it. What is here is what every
//! frontend needs the same answer to: which styles there are, which one a
//! stored setting names, and how a translucent colour flattens onto a page.

use vstd::prelude::*;
use crate::text::same_text;

verus! {

broadcast use vstd::string::group_string_axioms;

/// A colour, stored as it is written in a design token: `0xRRGGBB` and an
/// alpha of 0–255.
#[derive(Debug, Clone, Copy, PartialEq, Eq, Structural)]
pub struct Rgba {
    rgb: u32,
    alpha: u8,
}

pub struct RgbaModel {
    pub rgb: u32,
    pub alpha: u8,
}

impl View for Rgba {
    type V = RgbaModel;

    closed spec fn view(&self) -> RgbaModel {
        RgbaModel { rgb: self.rgb, alpha: self.alpha }
    }
}

pub open spec fn red_of(c: RgbaModel) -> int {
    (c.rgb / 0x10000) as int % 256
}

pub open spec fn green_of(c: RgbaModel) -> int {
    (c.rgb / 0x100) as int % 256
}

pub open spec fn blue_of(c: RgbaModel) -> int {
    c.rgb as int % 256
}

/// One channel of `top` at opacity `alpha` over `bottom`, rounded to the
/// nearest whole step.
pub open spec fn blend(top: int, bottom: int, alpha: int) -> int {
    (top * alpha + bottom * (255 - alpha) + 127) / 255
}

/// `top` over `under`, flattened to an opaque colour.
pub open spec fn over_model(top: RgbaModel, under: RgbaModel) -> RgbaModel {
    RgbaModel {
        rgb: (blend(red_of(top), red_of(under), top.alpha as int) * 0x10000 + blend(
            green_of(top),
            green_of(under),
            top.alpha as int,
        ) * 0x100 + blend(blue_of(top), blue_of(under), top.alpha as int)) as u32,
        alpha: 255,
    }
}

proof fn lemma_blend_between(top: int, bottom: int, alpha: int)
    requires
        0 <= top < 256,
        0 <= bottom < 256,
        0 <= alpha <= 255,
    ensures
        (if top < bottom {
            top
        } else {
            bottom
        }) <= blend(top, bottom, alpha) <= (if top < bottom {
            bottom
        } else {
            top
        }),
        alpha == 255 ==> blend(top, bottom, alpha) == top,
{
    let lo = if top < bottom {
        top
    } else {
        bottom
    };
    let hi = if top < bottom {
        bottom
    } else {
        top
    };
    assert(255 * lo <= top * alpha + bottom * (255 - alpha) <= 255 * hi) by (nonlinear_arith)
        requires
            lo <= top <= hi,
            lo <= bottom <= hi,
            0 <= alpha <= 255,
    ;
    assert((255 * lo + 127) / 255 == lo) by (nonlinear_arith);
    assert((255 * hi + 127) / 255 == hi) by (nonlinear_arith);
    assert(blend(top, bottom, alpha) >= lo) by (nonlinear_arith)
        requires
            255 * lo <= top * alpha + bottom * (255 - alpha),
            (255 * lo + 127) / 255 == lo,
    ;
    assert(blend(top, bottom, alpha) <= hi) by (nonlinear_arith)
        requires
            top * alpha + bottom * (255 - alpha) <= 255 * hi,
            (255 * hi + 127) / 255 == hi,
    ;
    if alpha == 255 {
        assert(top * alpha + bottom * (255 - alpha) == 255 * top) by (nonlinear_arith)
            requires
                alpha == 255,
        ;
        assert((255 * top + 127) / 255 == top) by (nonlinear_arith);
    }
}

fn blend_channel(top: u32, bottom: u32, alpha: u32) -> (c: u32)
    requires
        top < 256,
        bottom < 256,
        alpha <= 255,
    ensures
        c as int == blend(top as int, bottom as int, alpha as int),
        c < 256,
{
    proof {
        lemma_blend_between(top as int, bottom as int, alpha as int);
    }
    assert(top * alpha + bottom * (255 - alpha) + 127 <= 255 * 255 + 127) by (nonlinear_arith)
        requires
            top < 256,
            bottom < 256,
            alpha <= 255,
    ;
    (top * alpha + bottom * (255 - alpha) + 127) / 255
}

impl Rgba {
    /// A fully opaque `0xRRGGBB`.
    pub fn hex(rgb: u32) -> (c: Rgba)
        ensures
            c@ == (RgbaModel { rgb, alpha: 255 }),
    {
        Rgba { rgb, alpha: 255 }
    }

    /// `0xRRGGBB` at an alpha of 0–255.
    pub fn tint(rgb: u32, alpha: u8) -> (c: Rgba)
        ensures
            c@ == (RgbaModel { rgb, alpha }),
    {
        Rgba { rgb, alpha }
    }

    /// Red, green, blue and alpha, each 0–255.
    pub fn channels(self) -> (c: (u8, u8, u8, u8))
        ensures
            c.0 as int == red_of(self@),
            c.1 as int == green_of(self@),
            c.2 as int == blue_of(self@),
            c.3 == self@.alpha,
    {
        (
            ((self.rgb / 0x10000) % 256) as u8,
            ((self.rgb / 0x100) % 256) as u8,
            (self.rgb % 256) as u8,
            self.alpha,
        )
    }

    /// This colour over `under`, flattened.
    ///
    /// A text view draws a tag's background straight onto the page rather
    /// than compositing it, so a translucent token has to be resolved against
    /// the page colour before it is handed over.
    pub fn over(self, under: Rgba) -> (c: Rgba)
        ensures
            c@ == over_model(self@, under@),
    {
        let a = self.alpha as u32;
        let r = blend_channel((self.rgb / 0x10000) % 256, (under.rgb / 0x10000) % 256, a);
        let g = blend_channel((self.rgb / 0x100) % 256, (under.rgb / 0x100) % 256, a);
        let b = blend_channel(self.rgb % 256, under.rgb % 256, a);
        Rgba::hex(r * 0x10000 + g * 0x100 + b)
    }
}

/// Flattening a colour lands between it and what is under it, channel by
/// channel; an opaque colour comes through unchanged.
pub proof fn lemma_over_lands_between(top: RgbaModel, under: RgbaModel)
    ensures
        ({
            let c = over_model(top, under);
            &&& c.alpha == 255
            &&& red_of(top) <= red_of(c) <= red_of(under) || red_of(under) <= red_of(c)
                <= red_of(top)
            &&& green_of(top) <= green_of(c) <= green_of(under) || green_of(under) <= green_of(
                c,
            ) <= green_of(top)
            &&& blue_of(top) <= blue_of(c) <= blue_of(under) || blue_of(under) <= blue_of(c)
                <= blue_of(top)
            &&& top.alpha == 255 && top.rgb < 0x1000000 ==> c == top
        }),
{
    let a = top.alpha as int;
    let (rt, ru) = (red_of(top), red_of(under));
    let (gt, gu) = (green_of(top), green_of(under));
    let (bt, bu) = (blue_of(top), blue_of(under));
    lemma_blend_between(rt, ru, a);
    lemma_blend_between(gt, gu, a);
    lemma_blend_between(bt, bu, a);
    let (r, g, b) = (blend(rt, ru, a), blend(gt, gu, a), blend(bt, bu, a));
    assert((r * 0x10000 + g * 0x100 + b) / 0x10000 == r && (r * 0x10000 + g * 0x100 + b) / 0x100
        == r * 0x100 + g && (r * 0x10000 + g * 0x100 + b) % 256 == b) by (nonlinear_arith)
        requires
            0 <= r < 256,
            0 <= g < 256,
            0 <= b < 256,
    ;
    assert((r * 0x100 + g) % 256 == g) by (nonlinear_arith)
        requires
            0 <= r < 256,
            0 <= g < 256,
    ;
    if top.alpha == 255 && top.rgb < 0x1000000 {
        let v = top.rgb as int;
        assert(rt * 0x10000 + gt * 0x100 + bt == v) by (nonlinear_arith)
            requires
                0 <= v < 0x1000000,
                rt == (v / 0x10000) % 256,
                gt == (v / 0x100) % 256,
                bt == v % 256,
        ;
    }
}

/// Where a title sits on its measure.
#[derive(Debug, Clone, Copy, PartialEq, Eq, Structural)]
pub enum Align {
    Start,
    Center,
}

/// The colours of one style in one mode.
#[derive(Debug, Clone, Copy, PartialEq, Eq, Structural)]
pub struct Palette {
    pub page: Rgba,
    pub text: Rgba,
    pub title: Rgba,
    /// Secondary text: frontmatter, table delimiters, captions.
    pub dim: Rgba,
    pub quote: Rgba,
    pub accent: Rgba,
    /// The Markdown syntax characters, when they are on show.
    pub marker: Rgba,
    pub rule: Rgba,
    /// Thematic breaks and heading rules, which are darker than a hairline.
    pub rule_strong: Rgba,
    pub quote_border: Rgba,
    /// Behind an inline `code` run.
    pub code_background: Rgba,
    /// Behind a fenced block.
    pub block_background: Rgba,
    pub block_border: Rgba,
    pub code_keyword: Rgba,
    pub code_string: Rgba,
}

/// Light or dark, once the system preference and any override have been
/// resolved.
#[derive(Debug, Clone, Copy, PartialEq, Eq, Structural)]
pub enum Mode {
    Light,
    Dark,
}

/// The style a fresh install opens with.
pub const DEFAULT_ID: &'static str = "newsprint";

/// The ids of the bundled styles, in the order they are offered. Stable
/// across releases: an id is what is written to the settings.
pub open spec fn style_ids_spec() -> Seq<Seq<char>> {
    seq!["adwaita"@, "newsprint"@, "academic"@, "sepia"@, "book"@, "terminal"@, "contrast"@, "typewriter"@]
}

pub fn style_ids() -> (ids: Vec<&'static str>)
    ensures
        ids@.len() == style_ids_spec().len(),
        forall|i: int| 0 <= i < ids@.len() ==> (#[trigger] ids@[i])@ == style_ids_spec()[i],
{
    let ids = vec!["adwaita", "newsprint", "academic", "sepia", "book", "terminal", "contrast", "typewriter"];
    assert(ids@.len() == 8);
    ids
}

/// The position of the style a stored id names. An unknown id, from a
/// future version or a hand-edited setting, names the default rather than
/// nothing.
pub open spec fn style_index_of(id: Seq<char>) -> int {
    if id == "adwaita"@ {
        0
    } else if id == "newsprint"@ {
        1
    } else if id == "academic"@ {
        2
    } else if id == "sepia"@ {
        3
    } else if id == "book"@ {
        4
    } else if id == "terminal"@ {
        5
    } else if id == "contrast"@ {
        6
    } else if id == "typewriter"@ {
        7
    } else {
        1
    }
}

pub fn style_position(id: &str) -> (i: usize)
    ensures
        i as int == style_index_of(id@),
{
    if same_text(id, "adwaita") {
        0
    } else if same_text(id, "newsprint") {
        1
    } else if same_text(id, "academic") {
        2
    } else if same_text(id, "sepia") {
        3
    } else if same_text(id, "book") {
        4
    } else if same_text(id, "terminal") {
        5
    } else if same_text(id, "contrast") {
        6
    } else if same_text(id, "typewriter") {
        7
    } else {
        1
    }
}

/// Every style's id names that style, no two styles share an id, and the
/// default is one of them.
pub proof fn lemma_style_ids_round_trip()
    ensures
        forall|i: int|
            0 <= i < style_ids_spec().len() ==> style_index_of(#[trigger] style_ids_spec()[i])
                == i,
        forall|i: int, j: int|
            0 <= i < j < style_ids_spec().len() ==> style_ids_spec()[i] != style_ids_spec()[j],
        style_ids_spec()[style_index_of(DEFAULT_ID@)] == DEFAULT_ID@,
        style_index_of(DEFAULT_ID@) == 1,
{
    let ids = style_ids_spec();
    assert forall|i: int| 0 <= i < ids.len() implies style_index_of(#[trigger] ids[i]) == i by {
        reveal_strlit("adwaita");
        reveal_strlit("newsprint");
        reveal_strlit("academic");
        reveal_strlit("sepia");
        reveal_strlit("book");
        reveal_strlit("terminal");
        reveal_strlit("contrast");
        reveal_strlit("typewriter");
        assert("adwaita"@.len() == 7);
        assert("newsprint"@.len() == 9);
        assert("academic"@.len() == 8);
        assert("sepia"@.len() == 5);
        assert("book"@.len() == 4);
        assert("terminal"@.len() == 8);
        assert("contrast"@.len() == 8);
        assert("typewriter"@.len() == 10);
        if i == 0 {

            assert(style_index_of("adwaita"@) == 0);
        } else if i == 1 {

            assert(style_index_of("newsprint"@) == 1);
        } else if i == 2 {
            assert("academic"@[0] != "terminal"@[0]);
            assert("academic"@[0] != "contrast"@[0]);
            assert(style_index_of("academic"@) == 2);
        } else if i == 3 {

            assert(style_index_of("sepia"@) == 3);
        } else if i == 4 {

            assert(style_index_of("book"@) == 4);
        } else if i == 5 {
            assert("terminal"@[0] != "academic"@[0]);
            assert("terminal"@[0] != "contrast"@[0]);
            assert(style_index_of("terminal"@) == 5);
        } else if i == 6 {
            assert("contrast"@[0] != "academic"@[0]);
            assert("contrast"@[0] != "terminal"@[0]);
            assert(style_index_of("contrast"@) == 6);
        } else if i == 7 {

            assert(style_index_of("typewriter"@) == 7);
        }
    }
    assert forall|i: int, j: int| 0 <= i < j < ids.len() implies ids[i] != ids[j] by {
        assert(style_index_of(ids[i]) == i);
        assert(style_index_of(ids[j]) == j);
    }
    reveal_strlit("newsprint");
    assert(style_index_of("newsprint"@) == 1) by {
        reveal_strlit("adwaita");
        reveal_strlit("newsprint");
        reveal_strlit("academic");
        reveal_strlit("sepia");
        reveal_strlit("book");
        reveal_strlit("terminal");
        reveal_strlit("contrast");
        reveal_strlit("typewriter");
        assert("adwaita"@.len() == 7);
        assert("newsprint"@.len() == 9);
        assert("academic"@.len() == 8);
        assert("sepia"@.len() == 5);
        assert("book"@.len() == 4);
        assert("terminal"@.len() == 8);
        assert("contrast"@.len() == 8);
        assert("typewriter"@.len() == 10);
    }
}

} // verus!
