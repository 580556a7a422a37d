//! Which text tag goes on which characters of the page.
//!
//! A frontend styles the Markdown source in place: every run the scanner
//! reports gets the tag named for its style, and the syntax characters are
//! hidden or shown by two more tags. What is decided here is which tag, over
//! which range, and where each indented block's margins sit; applying them is
//! the toolkit's business.

use vstd::prelude::*;
use crate::lines::{as_ints, line_index, line_of, line_starts, line_starts_of};
use crate::scan::{Scan, Span, SpanStyle};
use crate::text::{chars_of, decimal, push_decimal, push_str};

verus! {

broadcast use vstd::string::group_string_axioms;

/// A text tag, one per way a run of the page can look.
#[derive(Debug, Clone, Copy, PartialEq, Eq, Structural)]
pub enum Tag {
    /// A heading of level 1–6.
    Heading(u8),
    Bold,
    Italic,
    Strike,
    Code,
    CodeBlock,
    Quote,
    /// A list item at the given depth.
    List(u8),
    Link,
    /// A wiki link or an embed.
    WikiLink,
    /// A hashtag.
    Hashtag,
    Task,
    Table,
    TableDelimiter,
    Frontmatter,
    /// Syntax that is not on show.
    Hidden,
    /// Syntax that is.
    Shown,
}

/// The name a tag is installed and looked up by.
pub open spec fn tag_name(tag: Tag) -> Seq<char> {
    match tag {
        Tag::Heading(level) => "md-h"@ + decimal(level as nat),
        Tag::Bold => "md-bold"@,
        Tag::Italic => "md-italic"@,
        Tag::Strike => "md-strike"@,
        Tag::Code => "md-code"@,
        Tag::CodeBlock => "md-codeblock"@,
        Tag::Quote => "md-quote"@,
        Tag::List(depth) => "md-list"@ + decimal(depth as nat),
        Tag::Link => "md-link"@,
        Tag::WikiLink => "md-wikilink"@,
        Tag::Hashtag => "md-tag"@,
        Tag::Task => "md-task"@,
        Tag::Table => "md-table"@,
        Tag::TableDelimiter => "md-table-delimiter"@,
        Tag::Frontmatter => "md-frontmatter"@,
        Tag::Hidden => "md-hidden"@,
        Tag::Shown => "md-shown"@,
    }
}

impl Tag {
    pub fn name(self) -> (name: String)
        ensures
            name@ == tag_name(self),
    {
        let mut out = String::new();
        match self {
            Tag::Heading(level) => {
                push_str(&mut out, "md-h");
                push_decimal(&mut out, level as u64);
            },
            Tag::Bold => push_str(&mut out, "md-bold"),
            Tag::Italic => push_str(&mut out, "md-italic"),
            Tag::Strike => push_str(&mut out, "md-strike"),
            Tag::Code => push_str(&mut out, "md-code"),
            Tag::CodeBlock => push_str(&mut out, "md-codeblock"),
            Tag::Quote => push_str(&mut out, "md-quote"),
            Tag::List(depth) => {
                push_str(&mut out, "md-list");
                push_decimal(&mut out, depth as u64);
            },
            Tag::Link => push_str(&mut out, "md-link"),
            Tag::WikiLink => push_str(&mut out, "md-wikilink"),
            Tag::Hashtag => push_str(&mut out, "md-tag"),
            Tag::Task => push_str(&mut out, "md-task"),
            Tag::Table => push_str(&mut out, "md-table"),
            Tag::TableDelimiter => push_str(&mut out, "md-table-delimiter"),
            Tag::Frontmatter => push_str(&mut out, "md-frontmatter"),
            Tag::Hidden => push_str(&mut out, "md-hidden"),
            Tag::Shown => push_str(&mut out, "md-shown"),
        }
        assert(out@ =~= tag_name(self));
        out
    }
}

/// Every tag a page needs, lists nested up to `max_list_depth`: the fixed
/// ones, then six heading levels, then one per list depth.
pub open spec fn all_tags(max_list_depth: u8) -> Seq<Tag> {
    seq![
        Tag::Bold,
        Tag::Italic,
        Tag::Strike,
        Tag::Code,
        Tag::CodeBlock,
        Tag::Quote,
        Tag::Link,
        Tag::WikiLink,
        Tag::Hashtag,
        Tag::Task,
        Tag::Table,
        Tag::TableDelimiter,
        Tag::Frontmatter,
        Tag::Hidden,
        Tag::Shown,
    ] + Seq::new(6, |i: int| Tag::Heading((i + 1) as u8)) + Seq::new(
        (max_list_depth + 1) as nat,
        |i: int| Tag::List(i as u8),
    )
}

/// Every tag a page needs, lists nested up to `max_list_depth`.
pub fn all_tags_for(max_list_depth: u8) -> (tags: Vec<Tag>)
    ensures
        tags@ == all_tags(max_list_depth),
{
    let mut tags = vec![
        Tag::Bold,
        Tag::Italic,
        Tag::Strike,
        Tag::Code,
        Tag::CodeBlock,
        Tag::Quote,
        Tag::Link,
        Tag::WikiLink,
        Tag::Hashtag,
        Tag::Task,
        Tag::Table,
        Tag::TableDelimiter,
        Tag::Frontmatter,
        Tag::Hidden,
        Tag::Shown,
    ];
    let ghost fixed = tags@;
    let mut level: u8 = 1;
    while level <= 6
        invariant
            1 <= level <= 7,
            tags@ == fixed + Seq::new((level - 1) as nat, |i: int| Tag::Heading((i + 1) as u8)),
        decreases 7 - level,
    {
        tags.push(Tag::Heading(level));
        level = level + 1;
        assert(tags@ =~= fixed + Seq::new(
            (level - 1) as nat,
            |i: int| Tag::Heading((i + 1) as u8),
        ));
    }
    let ghost with_headings = tags@;
    let mut depth: u8 = 0;
    loop
        invariant_except_break
            depth <= max_list_depth,
            tags@ == with_headings + Seq::new(depth as nat, |i: int| Tag::List(i as u8)),
        ensures
            tags@ == with_headings + Seq::new(
                (max_list_depth + 1) as nat,
                |i: int| Tag::List(i as u8),
            ),
        decreases max_list_depth - depth,
    {
        tags.push(Tag::List(depth));
        assert(tags@ =~= with_headings + Seq::new((depth + 1) as nat, |i: int| Tag::List(i as u8)));
        if depth == max_list_depth {
            break;
        }
        depth = depth + 1;
    }
    assert(tags@ =~= all_tags(max_list_depth));
    tags
}

/// The name of every tag a page needs, lists nested up to `max_list_depth`.
pub fn tag_names(max_list_depth: u8) -> (names: Vec<String>)
    ensures
        names.len() == all_tags(max_list_depth).len(),
        forall|i: int|
            0 <= i < names.len() ==> (#[trigger] names@[i])@ == tag_name(
                all_tags(max_list_depth)[i],
            ),
{
    let tags = all_tags_for(max_list_depth);
    let mut names: Vec<String> = Vec::new();
    let mut i: usize = 0;
    while i < tags.len()
        invariant
            i <= tags.len(),
            tags@ == all_tags(max_list_depth),
            names.len() == i,
            forall|k: int| 0 <= k < i ==> (#[trigger] names@[k])@ == tag_name(tags@[k]),
        decreases tags.len() - i,
    {
        names.push(tags[i].name());
        i = i + 1;
    }
    names
}

/// The tag a run of `style` is painted with. A thematic break has none: it is
/// drawn as a rule, and its characters are hidden like any other syntax.
pub open spec fn tag_for(style: SpanStyle) -> Option<Tag> {
    match style {
        SpanStyle::Heading(level) => Some(
            Tag::Heading(
                if level < 1 {
                    1
                } else if level > 6 {
                    6
                } else {
                    level
                },
            ),
        ),
        SpanStyle::Bold => Some(Tag::Bold),
        SpanStyle::Italic => Some(Tag::Italic),
        SpanStyle::Strikethrough => Some(Tag::Strike),
        SpanStyle::Code => Some(Tag::Code),
        SpanStyle::CodeBlock => Some(Tag::CodeBlock),
        SpanStyle::Quote => Some(Tag::Quote),
        SpanStyle::ListItem(depth) => Some(Tag::List(depth)),
        SpanStyle::Link => Some(Tag::Link),
        SpanStyle::WikiLink => Some(Tag::WikiLink),
        SpanStyle::Embed => Some(Tag::WikiLink),
        SpanStyle::Tag => Some(Tag::Hashtag),
        SpanStyle::Task => Some(Tag::Task),
        SpanStyle::TableRow => Some(Tag::Table),
        SpanStyle::TableDelimiter => Some(Tag::TableDelimiter),
        SpanStyle::Frontmatter => Some(Tag::Frontmatter),
        SpanStyle::Rule => None,
    }
}

/// Each style is painted with the tag named for it, and no two styles share a
/// tag, except that a wiki link and an embed look alike and a heading's level
/// is taken as 1–6. A thematic break has no tag: it is drawn.
pub proof fn lemma_each_style_has_its_own_tag()
    ensures
        tag_for(SpanStyle::Bold) matches Some(t) && tag_name(t) == "md-bold"@,
        tag_for(SpanStyle::Italic) matches Some(t) && tag_name(t) == "md-italic"@,
        tag_for(SpanStyle::Strikethrough) matches Some(t) && tag_name(t) == "md-strike"@,
        tag_for(SpanStyle::Code) matches Some(t) && tag_name(t) == "md-code"@,
        tag_for(SpanStyle::CodeBlock) matches Some(t) && tag_name(t) == "md-codeblock"@,
        tag_for(SpanStyle::Quote) matches Some(t) && tag_name(t) == "md-quote"@,
        tag_for(SpanStyle::Link) matches Some(t) && tag_name(t) == "md-link"@,
        tag_for(SpanStyle::WikiLink) matches Some(t) && tag_name(t) == "md-wikilink"@,
        tag_for(SpanStyle::Embed) matches Some(t) && tag_name(t) == "md-wikilink"@,
        tag_for(SpanStyle::Tag) matches Some(t) && tag_name(t) == "md-tag"@,
        tag_for(SpanStyle::Task) matches Some(t) && tag_name(t) == "md-task"@,
        tag_for(SpanStyle::TableRow) matches Some(t) && tag_name(t) == "md-table"@,
        tag_for(SpanStyle::TableDelimiter) matches Some(t) && tag_name(t)
            == "md-table-delimiter"@,
        tag_for(SpanStyle::Frontmatter) matches Some(t) && tag_name(t) == "md-frontmatter"@,
        forall|depth: u8|
            #[trigger] tag_for(SpanStyle::ListItem(depth)) matches Some(t) && tag_name(t) == "md-list"@
                + decimal(depth as nat),
        forall|level: u8|
            1 <= level <= 6 ==> (#[trigger] tag_for(SpanStyle::Heading(level)) matches Some(t) && tag_name(t)
                == "md-h"@ + decimal(level as nat)),
        tag_for(SpanStyle::Rule) is None,
        forall|x: SpanStyle, y: SpanStyle|
            #![trigger tag_for(x), tag_for(y)]
            tag_for(x) is Some && tag_for(x) == tag_for(y) ==> x == y || (x is WikiLink
                || x is Embed) && (y is WikiLink || y is Embed) || x is Heading && y is Heading,
{
}

/// A paragraph takes its margins and indent from the tags at the start of its
/// line, so these styles, which the scanner reports from after their `> ` or
/// `- `, are painted from the start of the line.
pub open spec fn is_block_style(style: SpanStyle) -> bool {
    match style {
        SpanStyle::Heading(_) | SpanStyle::Quote | SpanStyle::ListItem(_) | SpanStyle::CodeBlock
        | SpanStyle::Task | SpanStyle::TableRow => true,
        _ => false,
    }
}

/// One tag over one range of characters.
#[derive(Debug, Clone, Copy, PartialEq, Eq, Structural)]
pub struct Paint {
    pub tag: Tag,
    pub start: usize,
    pub end: usize,
}

/// Where the paint for `span` starts.
pub open spec fn paint_start(s: Seq<char>, span: Span) -> int {
    if is_block_style(span.style) {
        line_starts(s)[line_of(s, span.start as int)]
    } else {
        span.start as int
    }
}

/// The paint for each span that has a tag, in scan order.
pub open spec fn paints_of(s: Seq<char>, spans: Seq<Span>) -> Seq<Paint>
    decreases spans.len(),
{
    if spans.len() == 0 {
        seq![]
    } else {
        let before = paints_of(s, spans.drop_last());
        let span = spans.last();
        match tag_for(span.style) {
            Some(tag) => before.push(
                Paint { tag, start: paint_start(s, span) as usize, end: span.end },
            ),
            None => before,
        }
    }
}

/// The thematic breaks, whose characters are syntax to hide or show like any
/// marker, with the break itself as the range that reveals them.
pub open spec fn rules_of(spans: Seq<Span>) -> Seq<(usize, usize)>
    decreases spans.len(),
{
    if spans.len() == 0 {
        seq![]
    } else {
        let before = rules_of(spans.drop_last());
        let span = spans.last();
        if span.style == SpanStyle::Rule {
            before.push((span.start, span.end))
        } else {
            before
        }
    }
}

/// How a scanned document is painted.
pub struct Painting {
    pub paints: Vec<Paint>,
    pub rules: Vec<(usize, usize)>,
}

/// Work out every tag the page carries for `scan` of `text`, and the breaks
/// whose characters are hidden as syntax.
pub fn painting(text: &str, scan: &Scan) -> (p: Painting)
    ensures
        p.paints@ == paints_of(text@, scan.spans@),
        p.rules@ == rules_of(scan.spans@),
{
    let chars = chars_of(text);
    let starts = line_starts_of(&chars);
    proof {
        crate::lines::lemma_starts_upto(chars@, chars@.len() as int);
    }
    let mut paints: Vec<Paint> = Vec::new();
    let mut rules: Vec<(usize, usize)> = Vec::new();
    let mut i: usize = 0;
    assert(scan.spans@.take(0) =~= seq![]);
    while i < scan.spans.len()
        invariant
            i <= scan.spans.len(),
            chars@ == text@,
            as_ints(starts@) == line_starts(chars@),
            paints@ == paints_of(text@, scan.spans@.take(i as int)),
            rules@ == rules_of(scan.spans@.take(i as int)),
        decreases scan.spans.len() - i,
    {
        let span = scan.spans[i];
        assert(scan.spans@.take(i as int + 1).drop_last() =~= scan.spans@.take(i as int));
        assert(scan.spans@.take(i as int + 1).last() == span);
        let block = match span.style {
            SpanStyle::Heading(_) | SpanStyle::Quote | SpanStyle::ListItem(_)
            | SpanStyle::CodeBlock | SpanStyle::Task | SpanStyle::TableRow => true,
            _ => false,
        };
        let start = if block {
            let line = line_index(&chars, &starts, span.start);
            assert(starts@[line as int] as int == line_starts(chars@)[line as int]);
            starts[line]
        } else {
            span.start
        };
        let tag = match span.style {
            SpanStyle::Heading(level) => Some(
                Tag::Heading(
                    if level < 1 {
                        1
                    } else if level > 6 {
                        6
                    } else {
                        level
                    },
                ),
            ),
            SpanStyle::Bold => Some(Tag::Bold),
            SpanStyle::Italic => Some(Tag::Italic),
            SpanStyle::Strikethrough => Some(Tag::Strike),
            SpanStyle::Code => Some(Tag::Code),
            SpanStyle::CodeBlock => Some(Tag::CodeBlock),
            SpanStyle::Quote => Some(Tag::Quote),
            SpanStyle::ListItem(depth) => Some(Tag::List(depth)),
            SpanStyle::Link => Some(Tag::Link),
            SpanStyle::WikiLink => Some(Tag::WikiLink),
            SpanStyle::Embed => Some(Tag::WikiLink),
            SpanStyle::Tag => Some(Tag::Hashtag),
            SpanStyle::Task => Some(Tag::Task),
            SpanStyle::TableRow => Some(Tag::Table),
            SpanStyle::TableDelimiter => Some(Tag::TableDelimiter),
            SpanStyle::Frontmatter => Some(Tag::Frontmatter),
            SpanStyle::Rule => None,
        };
        match tag {
            Some(tag) => {
                paints.push(Paint { tag, start, end: span.end });
            },
            None => {
                rules.push((span.start, span.end));
            },
        }
        i = i + 1;
    }
    assert(scan.spans@.take(i as int) =~= scan.spans@);
    Painting { paints, rules }
}

/// The gap between the text column and the window edge: enough to centre a
/// column of `measure` pixels, and never less than 32.
pub open spec fn side_margin_for(width: int, measure: int) -> int {
    if width - measure >= 64 {
        (width - measure) / 2
    } else {
        32
    }
}

/// Keep the text column at the style's measure, centred, however wide the
/// window gets.
pub fn side_margin(width: i32, measure: i32) -> (side: i32)
    requires
        i32::MIN <= width - measure <= i32::MAX,
    ensures
        side as int == side_margin_for(width as int, measure as int),
{
    let gap = width - measure;
    if gap >= 64 {
        gap / 2
    } else {
        32
    }
}

/// How far a quote is indented, and a fenced block on both sides.
pub const QUOTE_INDENT: i32 = 26;

/// Where a top-level list item starts, and how much each nested level adds.
pub const LIST_INDENT: i32 = 28;

pub const LIST_STEP: i32 = 24;

/// The left and right margins of an indented block's tag, on a page whose
/// column sits `side` pixels from each edge. A tag's margin replaces the
/// view's rather than adding to it, so each one carries the column's own
/// margin plus its indent. `None` for the tags that are not indented.
pub open spec fn margins_of(tag: Tag, side: int) -> Option<(int, int)> {
    match tag {
        Tag::Quote => Some((side + QUOTE_INDENT, side)),
        Tag::CodeBlock => Some((side + QUOTE_INDENT, side + QUOTE_INDENT)),
        Tag::List(depth) => Some((side + LIST_INDENT + depth * LIST_STEP, side)),
        _ => None,
    }
}

pub fn tag_margins(tag: Tag, side: i32) -> (margins: Option<(i32, i32)>)
    requires
        side <= i32::MAX - LIST_INDENT - 255 * LIST_STEP,
    ensures
        margins matches Some((l, r)) ==> margins_of(tag, side as int) == Some(
            (l as int, r as int),
        ),
        margins is None <==> margins_of(tag, side as int) is None,
{
    match tag {
        Tag::Quote => Some((side + QUOTE_INDENT, side)),
        Tag::CodeBlock => Some((side + QUOTE_INDENT, side + QUOTE_INDENT)),
        Tag::List(depth) => Some((side + LIST_INDENT + (depth as i32) * LIST_STEP, side)),
        _ => None,
    }
}

} // verus!
