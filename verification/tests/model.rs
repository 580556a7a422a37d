use vellum::decoration::{decorations, runs, Decoration};
use vellum::outline::{active, outline, Heading};
use vellum::scan::{Scan, Span, SpanStyle};
use vellum::stats::{stats_with, WORDS_PER_MINUTE};
use vellum::style::{style_ids, style_position, Rgba, DEFAULT_ID};

fn offset_of(text: &str, needle: &str, nth: usize) -> usize {
    let (at, _) = text.match_indices(needle).nth(nth).expect("present");
    text[..at].chars().count()
}

fn line_count(text: &str) -> usize {
    text.chars().filter(|c| *c == '\n').count() + 1
}

/// A span over the `nth` occurrence of `content` in `text`.
fn span(text: &str, content: &str, nth: usize, style: SpanStyle) -> Span {
    let start = offset_of(text, content, nth);
    Span { start, end: start + content.chars().count(), style }
}

fn scan(text: &str, spans: Vec<Span>) -> Scan {
    Scan { spans, fenced: vec![false; line_count(text)] }
}

fn shape(headings: &[Heading]) -> Vec<(u8, &str)> {
    headings.iter().map(|h| (h.level, h.text.as_str())).collect()
}

#[test]
fn headings_come_back_in_order_with_their_levels() {
    let text = "# Title\n\nProse.\n\n## First\n\n### Deeper\n\n## Second\n";
    let scanned = scan(
        text,
        vec![
            span(text, "Title", 0, SpanStyle::Heading(1)),
            span(text, "First", 0, SpanStyle::Heading(2)),
            span(text, "Deeper", 0, SpanStyle::Heading(3)),
            span(text, "Second", 0, SpanStyle::Heading(2)),
        ],
    );
    let headings = outline(text, &scanned);
    assert_eq!(shape(&headings), [(1, "Title"), (2, "First"), (3, "Deeper"), (2, "Second")]);
}

#[test]
fn spans_reported_out_of_order_are_sorted_by_position() {
    let text = "# One\n\n## Two\n";
    let scanned = scan(
        text,
        vec![
            span(text, "Two", 0, SpanStyle::Heading(2)),
            span(text, "One", 0, SpanStyle::Heading(1)),
        ],
    );
    let headings = outline(text, &scanned);
    assert_eq!(shape(&headings), [(1, "One"), (2, "Two")]);
    assert_eq!((headings[0].line, headings[1].line), (0, 2));
}

#[test]
fn the_offset_is_the_line_start_not_the_content() {
    let text = "Prose.\n\n## Section\n";
    let headings = outline(text, &scan(text, vec![span(text, "Section", 0, SpanStyle::Heading(2))]));
    let heading = &headings[0];
    assert_eq!(heading.offset, 8);
    assert_eq!(text.chars().nth(heading.offset), Some('#'));
    assert_eq!(heading.line, 2);
}

#[test]
fn a_document_with_no_headings_has_an_empty_outline() {
    let text = "Just prose.\n\nAnd more.\n";
    assert!(outline(text, &scan(text, Vec::new())).is_empty());
    assert!(outline("", &scan("", Vec::new())).is_empty());
}

#[test]
fn hashes_inside_a_code_fence_are_not_headings() {
    let text = "# Real\n\n```sh\n# a comment\n```\n\n## Also real\n";
    let mut fenced = vec![false; line_count(text)];
    fenced[3] = true;
    fenced[4] = true;
    let scanned = Scan {
        spans: vec![
            span(text, "Real", 0, SpanStyle::Heading(1)),
            span(text, "# a comment", 0, SpanStyle::CodeBlock),
            span(text, "Also real", 0, SpanStyle::Heading(2)),
        ],
        fenced,
    };
    let levels: Vec<u8> = outline(text, &scanned).iter().map(|h| h.level).collect();
    assert_eq!(levels, [1, 2]);
}

#[test]
fn the_active_row_is_the_last_heading_at_or_before_the_offset() {
    let text = "# One\n\nProse.\n\n## Two\n\nMore.\n";
    let scanned = scan(
        text,
        vec![span(text, "One", 0, SpanStyle::Heading(1)), span(text, "Two", 0, SpanStyle::Heading(2))],
    );
    let headings = outline(text, &scanned);

    assert_eq!(active(&headings, 0), Some(0));
    assert_eq!(active(&headings, 10), Some(0));
    assert_eq!(active(&headings, headings[1].offset), Some(1));
    assert_eq!(active(&headings, text.chars().count()), Some(1));
}

#[test]
fn nothing_is_active_above_the_first_heading() {
    let text = "An opening paragraph.\n\n# One\n";
    let headings = outline(text, &scan(text, vec![span(text, "One", 0, SpanStyle::Heading(1))]));
    assert_eq!(active(&headings, 0), None);
}

#[test]
fn offsets_count_characters_not_bytes() {
    let text = "🌍🌍🌍\n\n## Section\n";
    let headings = outline(text, &scan(text, vec![span(text, "Section", 0, SpanStyle::Heading(2))]));
    let heading = &headings[0];
    assert_eq!(heading.offset, 5);
    assert_eq!(text.chars().nth(heading.offset), Some('#'));
}

#[test]
fn a_heading_is_trimmed_for_its_row() {
    let text = "#   Spaced out   \n";
    let scanned = scan(text, vec![Span { start: 2, end: 17, style: SpanStyle::Heading(1) }]);
    assert_eq!(shape(&outline(text, &scanned)), [(1, "Spaced out")]);
}

fn quoted_lines(text: &str) -> Vec<Span> {
    let mut spans = Vec::new();
    let mut at = 0;
    for line in text.split('\n') {
        let length = line.chars().count();
        if line.starts_with("> ") {
            spans.push(Span { start: at + 2, end: at + length, style: SpanStyle::Quote });
        }
        at += length + 1;
    }
    spans
}

fn only(found: Vec<Decoration>, frames: bool) -> Vec<Decoration> {
    found
        .into_iter()
        .filter(|d| {
            if frames {
                matches!(d, Decoration::CodeFrame { .. })
            } else {
                matches!(d, Decoration::QuoteBar { .. })
            }
        })
        .collect()
}

#[test]
fn consecutive_quoted_lines_are_one_bar() {
    let text = "> first\n> second\n> third\n";
    let found = decorations(text, &scan(text, quoted_lines(text)));
    assert_eq!(found, [Decoration::QuoteBar { first_line: 0, last_line: 2 }]);
}

#[test]
fn quotes_split_by_prose_are_separate_bars() {
    let text = "> one\n\nProse.\n\n> two\n";
    let found = decorations(text, &scan(text, quoted_lines(text)));
    assert_eq!(
        only(found, false),
        [
            Decoration::QuoteBar { first_line: 0, last_line: 0 },
            Decoration::QuoteBar { first_line: 4, last_line: 4 }
        ]
    );
}

#[test]
fn a_fence_is_framed_from_its_opening_to_its_closing_line() {
    let text = "Prose.\n\n```rust\nlet x = 1;\nlet y = 2;\n```\n\nMore.\n";
    let mut fenced = vec![false; line_count(text)];
    for line in 3..=5 {
        fenced[line] = true;
    }
    let found = decorations(text, &Scan { spans: Vec::new(), fenced });
    assert_eq!(only(found, true), [Decoration::CodeFrame { first_line: 2, last_line: 5 }]);
}

#[test]
fn an_unterminated_fence_is_framed_to_the_end() {
    let text = "```\nstill typing\n";
    let found = decorations(text, &Scan { spans: Vec::new(), fenced: vec![false, true, true] });
    assert_eq!(only(found, true), [Decoration::CodeFrame { first_line: 0, last_line: 2 }]);
}

#[test]
fn second_level_headings_and_breaks_are_found_by_line() {
    let text = "# One\n\n## Two\n\n---\n\n### Three\n";
    let scanned = scan(
        text,
        vec![
            span(text, "One", 0, SpanStyle::Heading(1)),
            span(text, "Two", 0, SpanStyle::Heading(2)),
            span(text, "---", 0, SpanStyle::Rule),
            span(text, "Three", 0, SpanStyle::Heading(3)),
        ],
    );
    let mut found = decorations(text, &scanned);
    found.sort_by_key(|d| format!("{d:?}"));
    assert_eq!(found, [Decoration::HeadingRule { line: 2 }, Decoration::ThematicBreak { line: 4 }]);
}

#[test]
fn leading_frontmatter_is_not_a_thematic_break() {
    let text = "---\ntitle: Notes\n---\n\nBody.\n";
    let scanned = scan(text, vec![Span { start: 0, end: 20, style: SpanStyle::Frontmatter }]);
    assert!(decorations(text, &scanned).is_empty());
}

#[test]
fn a_document_of_plain_prose_has_nothing_drawn() {
    let text = "Just prose.\n\nTwo paragraphs.\n";
    assert!(decorations(text, &scan(text, Vec::new())).is_empty());
}

#[test]
fn runs_of_marked_lines_are_maximal() {
    assert_eq!(runs(&vec![true, true, false, true, false, false, true]), [(0, 1), (3, 3), (6, 6)]);
    assert!(runs(&vec![false, false]).is_empty());
    assert_eq!(runs(&vec![true]), [(0, 0)]);
}

#[test]
fn prose_counts_as_written() {
    assert_eq!(stats_with("one two three").words, 3);
    assert_eq!(stats_with("").words, 0);
    assert_eq!(stats_with("   \n\n  ").words, 0);
}

#[test]
fn punctuation_standing_alone_is_not_a_word() {
    assert_eq!(stats_with("milk - bread | eggs").words, 3);
    assert_eq!(stats_with("one, two; three.").words, 3);
}

#[test]
fn an_empty_document_has_no_reading_time() {
    assert_eq!(stats_with("").reading_minutes, 0);
}

#[test]
fn a_short_document_still_takes_a_minute() {
    assert_eq!(stats_with("Hello.").reading_minutes, 1);
}

#[test]
fn reading_time_scales_with_length() {
    let words = "word ".repeat(WORDS_PER_MINUTE * 3);
    assert_eq!(stats_with(&words).words, WORDS_PER_MINUTE * 3);
    assert_eq!(stats_with(&words).reading_minutes, 3);

    let over = "word ".repeat(WORDS_PER_MINUTE * 3 + 1);
    assert_eq!(stats_with(&over).reading_minutes, 3);
    let most_of_another = "word ".repeat(WORDS_PER_MINUTE * 3 + WORDS_PER_MINUTE / 2 + 1);
    assert_eq!(stats_with(&most_of_another).reading_minutes, 4);
}

fn from_id(id: &str) -> &'static str {
    style_ids()[style_position(id)]
}

#[test]
fn ids_are_unique_and_the_default_is_one_of_them() {
    let mut ids: Vec<&str> = style_ids();
    ids.sort_unstable();
    let count = ids.len();
    ids.dedup();
    assert_eq!(ids.len(), count, "two styles share an id");
    assert!(style_ids().iter().any(|id| *id == DEFAULT_ID));
}

#[test]
fn an_unknown_id_falls_back_to_the_default() {
    assert_eq!(from_id("neon-vaporwave"), DEFAULT_ID);
    assert_eq!(from_id(""), DEFAULT_ID);
}

#[test]
fn every_style_round_trips_through_its_id() {
    for id in style_ids() {
        assert_eq!(from_id(id), id);
    }
}

#[test]
fn eight_styles_are_offered_in_order() {
    assert_eq!(
        style_ids(),
        ["adwaita", "newsprint", "academic", "sepia", "book", "terminal", "contrast", "typewriter"]
    );
}

#[test]
fn flattening_a_tint_lands_between_the_two_colours() {
    let black_half = Rgba::tint(0x000000, 128);
    let over_white = black_half.over(Rgba::hex(0xffffff));
    let (red, green, blue, alpha) = over_white.channels();
    assert_eq!(alpha, 255);
    assert!((red as f32 / 255.0 - 0.5).abs() < 0.01);
    assert_eq!((red, green, blue), (127, 127, 127));

    let opaque = Rgba::hex(0x123456);
    assert_eq!(opaque.over(Rgba::hex(0xffffff)), opaque);
}

#[test]
fn channels_read_back_as_written() {
    assert_eq!(Rgba::tint(0x1c71d8, 140).channels(), (0x1c, 0x71, 0xd8, 140));
    assert_eq!(Rgba::hex(0xff8000).channels(), (255, 128, 0, 255));
}
