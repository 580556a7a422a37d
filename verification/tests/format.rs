use vellum::format::{all_commands, apply, Command, Edit, Replacement};

/// What the scanner writes for each command, as the frontend hands it over.
fn edit_for(command: Command) -> Option<Edit> {
    let wrap = |before: &str, after: &str| {
        Some(Edit::Wrap { before: before.to_string(), after: after.to_string() })
    };
    let prefix = |marker: &str| Some(Edit::Prefix { prefix: marker.to_string() });
    match command {
        Command::Bold => wrap("**", "**"),
        Command::Italic => wrap("*", "*"),
        Command::Strikethrough => wrap("~~", "~~"),
        Command::Code => wrap("`", "`"),
        Command::Link => wrap("[", "](url)"),
        Command::Paragraph => None,
        Command::Heading(level) => prefix(&format!("{} ", "#".repeat(level as usize))),
        Command::Quote => prefix("> "),
        Command::Bullet => prefix("- "),
        Command::Task => prefix("- [ ] "),
        Command::CodeBlock => Some(Edit::Block { text: "```\n\n```\n".to_string(), caret: 4 }),
        Command::Table => Some(Edit::Block {
            text: "| Column | Column |\n|--------|--------|\n|        |        |\n".to_string(),
            caret: 2,
        }),
        Command::Rule => Some(Edit::Block { text: "---\n".to_string(), caret: 4 }),
    }
}

fn edit(text: &str, selection: (usize, usize), command: Command) -> Option<Replacement> {
    apply(text, selection, command, edit_for(command))
}

/// The document after the edit, with the selection drawn in: `[…]` for a
/// range, `|` for a caret.
fn run(text: &str, selection: (usize, usize), command: Command) -> String {
    let edit = edit(text, selection, command).expect("an edit");
    let chars: Vec<char> = text.chars().collect();
    let mut out: String = chars[..edit.start].iter().collect();
    out.push_str(&edit.text);
    out.extend(chars[edit.end..].iter());

    let marked: Vec<char> = out.chars().collect();
    let (low, high) = edit.selection;
    assert!(high <= marked.len(), "selection past the end of {out:?}");
    let mut shown: String = marked[..low].iter().collect();
    if low == high {
        shown.push('|');
    } else {
        shown.push('[');
        shown.extend(marked[low..high].iter());
        shown.push(']');
    }
    shown.extend(marked[high..].iter());
    shown
}

fn find(text: &str, word: &str) -> (usize, usize) {
    let start = text.find(word).expect("present");
    let start = text[..start].chars().count();
    (start, start + word.chars().count())
}

fn applied(text: &str, edit: &Replacement) -> String {
    let mut out: String = text.chars().take(edit.start).collect();
    out.push_str(&edit.text);
    out.extend(text.chars().skip(edit.end));
    out
}

#[test]
fn wrapping_a_selection_keeps_it_selected() {
    assert_eq!(
        run("A bold claim.", find("A bold claim.", "bold"), Command::Bold),
        "A **[bold]** claim."
    );
}

#[test]
fn wrapping_nothing_leaves_a_caret_between_the_markers() {
    assert_eq!(run("A  claim.", (2, 2), Command::Italic), "A *|* claim.");
}

#[test]
fn a_second_press_takes_the_formatting_off() {
    let text = "A **bold** claim.";
    assert_eq!(run(text, find(text, "bold"), Command::Bold), "A [bold] claim.");
    assert_eq!(run(text, find(text, "**bold**"), Command::Bold), "A [bold] claim.");
}

#[test]
fn every_inline_command_round_trips() {
    for command in [Command::Bold, Command::Italic, Command::Strikethrough, Command::Code] {
        let text = "one two three";
        let selection = find(text, "two");
        let on = edit(text, selection, command).expect("an edit");
        let once = applied(text, &on);
        assert_ne!(once, text, "{command:?} wrote nothing");

        let off = edit(&once, on.selection, command).expect("an edit");
        let back = applied(&once, &off);
        assert_eq!(back, text, "{command:?} does not undo itself");
    }
}

#[test]
fn a_heading_replaces_the_level_already_there() {
    assert_eq!(run("# Title", (2, 2), Command::Heading(2)), "## |Title");
    assert_eq!(run("### Deep", (5, 5), Command::Heading(1)), "# D|eep");
}

#[test]
fn the_same_heading_twice_gives_back_a_paragraph() {
    assert_eq!(run("## Section", (4, 4), Command::Heading(2)), "S|ection");
}

#[test]
fn paragraph_removes_whatever_heading_is_there() {
    assert_eq!(run("#### Deep", (6, 6), Command::Paragraph), "D|eep");
    assert_eq!(edit("Body text", (0, 0), Command::Paragraph), None);
}

#[test]
fn a_prefix_applies_to_every_selected_line() {
    let text = "one\ntwo\nthree\n";
    assert_eq!(
        run(text, (0, text.chars().count()), Command::Quote),
        "[> one\n> two\n> three\n]"
    );
}

#[test]
fn a_prefix_every_line_has_comes_off() {
    let text = "> one\n> two\n";
    assert_eq!(run(text, (0, 12), Command::Quote), "[one\ntwo\n]");
}

#[test]
fn a_prefix_only_some_lines_have_goes_on_the_rest() {
    let text = "> one\ntwo\n";
    assert_eq!(run(text, (0, 10), Command::Quote), "[> one\n> two\n]");
}

#[test]
fn a_selection_ending_at_a_line_start_stops_on_the_line_above() {
    let text = "one\ntwo\n";
    assert_eq!(run(text, (0, 4), Command::Bullet), "[- one\n]two\n");
}

#[test]
fn a_caret_keeps_its_column_when_a_prefix_goes_on() {
    assert_eq!(run("one two", (4, 4), Command::Bullet), "- one |two");
}

#[test]
fn blank_lines_between_paragraphs_are_left_alone() {
    let text = "one\n\ntwo\n";
    assert_eq!(
        run(text, (0, text.chars().count()), Command::Bullet),
        "[- one\n\n- two\n]"
    );
}

#[test]
fn a_command_on_an_empty_line_still_writes_its_marker() {
    assert_eq!(run("", (0, 0), Command::Quote), "> |");
}

#[test]
fn a_block_goes_below_the_paragraph_it_was_invoked_from() {
    assert_eq!(
        run("Prose.\nMore.\n", (2, 2), Command::CodeBlock),
        "Prose.\n```\n|\n```\nMore.\n"
    );
}

#[test]
fn a_block_at_the_end_of_a_document_gets_the_newline_it_needs() {
    assert_eq!(run("Prose.", (2, 2), Command::Rule), "Prose.\n---\n|");
}

#[test]
fn a_block_lands_on_a_blank_line_rather_than_below_it() {
    let out = run("Prose.\n\n", (7, 7), Command::Table);
    assert!(out.starts_with("Prose.\n| |Column"), "{out:?}");
    assert!(out.contains("|--------|--------|"), "{out:?}");
}

#[test]
fn offsets_are_characters_not_bytes() {
    let text = "café au lait";
    assert_eq!(run(text, find(text, "au"), Command::Bold), "café **[au]** lait");
}

#[test]
fn offsets_past_the_end_are_clamped() {
    for command in all_commands() {
        let _ = edit("short", (900, 1200), command);
    }
}

#[test]
fn every_command_has_a_unique_id_that_round_trips() {
    let all = all_commands();
    let mut ids: Vec<&str> = all.iter().map(|command| command.id()).collect();
    let count = ids.len();
    ids.sort_unstable();
    ids.dedup();
    assert_eq!(ids.len(), count, "two commands share an id");

    for command in &all {
        assert_eq!(Command::from_id(command.id()), Some(*command));
    }
    assert_eq!(Command::from_id("nonsense"), None);
}

#[test]
fn every_command_is_offered_in_menu_order() {
    let all = all_commands();
    assert_eq!(all.len(), 15);
    assert_eq!(all[0], Command::Bold);
    assert_eq!(all[6], Command::Heading(1));
    assert_eq!(all[14], Command::Rule);
}

#[test]
fn labels_and_accelerators_read_as_the_menu_shows_them() {
    assert_eq!(Command::Code.label(), "Inline Code");
    assert_eq!(Command::Link.label(), "Insert Link…");
    assert_eq!(Command::Heading(2).label(), "Heading 2");
    assert_eq!(Command::Bold.accelerator(), Some("Ctrl+B"));
    assert_eq!(Command::Paragraph.accelerator(), Some("Alt+0"));
    assert_eq!(Command::Heading(3).accelerator(), Some("Alt+3"));
    assert_eq!(Command::Table.accelerator(), None);
}

#[test]
fn a_command_with_nothing_to_write_does_nothing() {
    assert_eq!(apply("text", (0, 4), Command::Bold, None), None);
}

#[test]
fn pressing_a_format_twice_restores_the_selection_too() {
    let text = "one two three";
    let selection = find(text, "two");
    let on = edit(text, selection, Command::Strikethrough).expect("an edit");
    let once = applied(text, &on);
    assert_eq!(once, "one ~~two~~ three");
    let off = edit(&once, on.selection, Command::Strikethrough).expect("an edit");
    assert_eq!(off.selection, selection);
}

#[test]
fn a_reversed_selection_is_put_in_order() {
    assert_eq!(run("A bold claim.", (6, 2), Command::Bold), "A **[bold]** claim.");
}

#[test]
fn pressing_a_prefix_twice_gives_back_the_text() {
    for command in [Command::Quote, Command::Bullet, Command::Task, Command::Heading(2)] {
        let text = "one\n\ntwo\nthree";
        let on = edit(text, (1, 9), command).expect("an edit");
        let once = applied(text, &on);
        assert_ne!(once, text, "{command:?} wrote nothing");
        let off = edit(&once, on.selection, command).expect("an edit");
        assert_eq!(applied(&once, &off), text, "{command:?} does not undo itself");
    }
}

#[test]
fn a_second_quote_takes_the_quote_off_again() {
    let text = "one\ntwo\n";
    let on = edit(text, (0, 4), Command::Quote).expect("an edit");
    let once = applied(text, &on);
    assert_eq!(once, "> one\ntwo\n");
    let off = edit(&once, on.selection, Command::Quote).expect("an edit");
    assert_eq!(applied(&once, &off), text);
}

#[test]
fn taking_formatting_off_and_on_again_gives_back_the_text() {
    let text = "A **bold** claim.";
    let selection = find(text, "bold");
    let off = edit(text, selection, Command::Bold).expect("an edit");
    let once = applied(text, &off);
    assert_eq!(once, "A bold claim.");
    let on = edit(&once, off.selection, Command::Bold).expect("an edit");
    assert_eq!(applied(&once, &on), text);
    assert_eq!(on.selection, selection);
}

#[test]
fn a_line_already_at_the_level_keeps_its_one_marker() {
    let text = "## A\nB";
    let r = edit(text, (0, 6), Command::Heading(2)).expect("an edit");
    assert_eq!((r.start, r.end), (0, 6));
    assert_eq!(r.text, "## A\n## B");
}

#[test]
fn every_edit_stays_inside_the_document() {
    for command in all_commands() {
        for (text, selection) in [("short", (900, 1200)), ("one\ntwo\n", (4, 0)), ("", (0, 0))] {
            let Some(r) = edit(text, selection, command) else {
                continue;
            };
            let n = text.chars().count();
            assert!(r.start <= r.end && r.end <= n, "{command:?}");
            let after = n - (r.end - r.start) + r.text.chars().count();
            assert!(r.selection.0 <= r.selection.1 && r.selection.1 <= after, "{command:?}");
        }
    }
}
