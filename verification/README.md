# vellum

A Markdown reader and editor for GNOME that shows a document as it would be
published while it is still the file you are editing. One text view holds the
Markdown source; the syntax characters carry a tag that hides them, and the
view mode decides which are on show.

## Layout

- `src/` is the library, written in Verus and verified: everything about the
  editor that does not draw.
  - `format` — the formatting commands: what Bold, Quote or Table does to a
    text and a selection, as one replacement. Pressing a wrapping command twice
    gives back what you started with (`lemma_wrap_twice_restores`,
    `lemma_wrap_off_then_on`); so does a prefix command such as Quote
    (`toggles::lemma_prefix_twice_restores`, with the line arithmetic it needs).
    Every edit stays inside the document and leaves the selection inside the
    result (`toggles::lemma_apply_in_bounds`, `toggles::lemma_prefix_in_bounds`).
  - `outline`, `decoration` — the sidebar's headings and the rules the page
    draws, from one scan of the document.
  - `stats` — the word count and the reading estimate.
  - `document` — the open file, fed the outcomes of reads and writes.
  - `style` — which reading styles there are, how a stored id names one, and
    how a translucent colour flattens onto a page.
  - `view`, `paint`, `css`, `shortcuts`, `chrome` — the view modes, which tag
    goes on which characters, the styles written as CSS, the keyboard
    accelerators, and what the window says and decides.
  - `scan`, `lines`, `text` — the scanner's report as plain data, lines of a
    text, and character-level helpers.
- `app/` is the GNOME frontend in ordinary Rust: the widgets, the Markdown
  scanner, the disk, and the reading-style table, whose sizes are floating
  point.
- `tests/` runs the library on concrete documents.
