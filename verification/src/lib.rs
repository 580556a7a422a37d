//! The model of a Markdown editor that does not draw: the formatting
//! commands, the outline, the drawn rules, the word count, the open file, the
//! reading styles' ids and colours, the view modes, which tag goes on which
//! characters, and what the window around the page says and decides, as plain
//! functions over text and character offsets.
//!
//! Which characters of a document are Markdown syntax is the scanner's answer
//! ([`scan`] holds it as plain data); when to show them, and everything
//! computed from it, is here.

pub mod chrome;
pub mod css;
pub mod decoration;
pub mod document;
pub mod format;
pub mod lines;
pub mod outline;
pub mod paint;
pub mod scan;
pub mod shortcuts;
pub mod stats;
pub mod style;
pub mod text;
pub mod toggles;
pub mod view;
