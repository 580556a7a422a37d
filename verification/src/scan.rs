//! What the Markdown scanner reports about a document, as far as this crate
//! reads it.
//!
//! The scanner itself is not part of this crate: a frontend scans the text and
//! hands the result over in this shape. Offsets are character offsets into the
//! scanned text.

use vstd::prelude::*;

verus! {

/// The style of one styled run.
#[derive(Debug, Clone, Copy, PartialEq, Eq, Structural)]
pub enum SpanStyle {
    /// A heading of the given level, 1–6.
    Heading(u8),
    Bold,
    Italic,
    Strikethrough,
    /// An inline code run.
    Code,
    /// A line of a fenced code block.
    CodeBlock,
    /// A line of a block quote.
    Quote,
    /// A list item, nested the given number of levels deep.
    ListItem(u8),
    Link,
    WikiLink,
    Embed,
    /// A hashtag.
    Tag,
    /// A task list item, ticked or not.
    Task,
    TableRow,
    /// The `|---|---|` row under a table's header.
    TableDelimiter,
    Frontmatter,
    /// A thematic break.
    Rule,
}

/// One styled run. `start` is where the styled content begins, after any
/// syntax that introduces it.
#[derive(Debug, Clone, Copy, PartialEq, Eq, Structural)]
pub struct Span {
    pub start: usize,
    pub end: usize,
    pub style: SpanStyle,
}

/// A scan of a whole document.
#[derive(Debug, Clone)]
pub struct Scan {
    /// In the order the scanner met them.
    pub spans: Vec<Span>,
    /// One entry per line: whether the line begins inside a fenced code block.
    pub fenced: Vec<bool>,
}

} // verus!
