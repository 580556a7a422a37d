use vellum::chrome::{
    caret_label, carry_on, discard_question, guard, level_badge, menu_sections, reading_time_label,
    restored_size, row_description, row_indent, save_error_title, save_route, search_from,
    subtitle, visible_active, window_title, word_count_label, Answer, CloseAction, Guard, MenuGroup,
    SaveRoute,
};
use vellum::css::{css_colour, css_families, first_family};
use vellum::format::{all_commands, Command};
use vellum::paint::{
    painting, side_margin, tag_margins, tag_names, Paint, Tag, LIST_INDENT, LIST_STEP,
    QUOTE_INDENT,
};
use vellum::scan::{Scan, Span, SpanStyle};
use vellum::shortcuts::accelerators;
use vellum::style::{Mode, Rgba};
use vellum::view::{Appearance, ViewMode};

#[test]
fn modes_round_trip_through_their_ids() {
    for mode in [ViewMode::Live, ViewMode::Source, ViewMode::Reading] {
        assert_eq!(ViewMode::from_id(mode.id()), mode);
    }
    assert_eq!(ViewMode::from_id("nonsense"), ViewMode::Reading);
    assert_eq!(ViewMode::default(), ViewMode::Reading);
}

#[test]
fn only_reading_mode_is_read_only() {
    assert!(ViewMode::Live.editable());
    assert!(ViewMode::Source.editable());
    assert!(!ViewMode::Reading.editable());
}

#[test]
fn each_mode_shows_its_own_share_of_the_markers() {
    assert!(ViewMode::Source.reveals(false));
    assert!(!ViewMode::Reading.reveals(true));
    assert!(ViewMode::Live.reveals(true));
    assert!(!ViewMode::Live.reveals(false));
    assert_eq!(ViewMode::Live.label(), "Live");
    assert_eq!(ViewMode::Reading.id(), "reading");
}

#[test]
fn family_lists_quote_real_faces_and_not_keywords() {
    assert_eq!(css_families("PT Serif, Georgia, serif"), "\"PT Serif\", \"Georgia\", serif");
    assert_eq!(css_families("monospace"), "monospace");
}

#[test]
fn an_empty_family_piece_is_still_written() {
    assert_eq!(css_families("Courier New,,monospace"), "\"Courier New\", \"\", monospace");
    assert_eq!(css_families(""), "\"\"");
}

#[test]
fn colours_are_written_as_css_understands_them() {
    assert_eq!(css_colour(Rgba::hex(0xff8000)), "rgba(255,128,0,1.000)");
    assert_eq!(css_colour(Rgba::tint(0x000000, 128)), "rgba(0,0,0,0.502)");
}

#[test]
fn a_transparent_colour_has_no_opacity() {
    assert_eq!(css_colour(Rgba::tint(0x010203, 0)), "rgba(1,2,3,0.000)");
    assert_eq!(css_colour(Rgba::tint(0xffffff, 1)), "rgba(255,255,255,0.004)");
}

#[test]
fn appearance_round_trips_through_its_id() {
    for appearance in [Appearance::System, Appearance::Light, Appearance::Dark] {
        assert_eq!(Appearance::from_id(appearance.id()), appearance);
    }
    assert_eq!(Appearance::from_id("nonsense"), Appearance::System);
    assert_eq!(Appearance::default(), Appearance::System);
}

#[test]
fn only_the_system_setting_follows_the_desktop() {
    assert_eq!(Appearance::System.resolve(true), Mode::Dark);
    assert_eq!(Appearance::System.resolve(false), Mode::Light);
    assert_eq!(Appearance::Light.resolve(true), Mode::Light);
    assert_eq!(Appearance::Dark.resolve(false), Mode::Dark);
}

#[test]
fn a_family_list_reduces_to_its_first_face() {
    assert_eq!(first_family("PT Serif, Georgia, serif"), "PT Serif");
    assert_eq!(first_family("monospace"), "monospace");
}

#[test]
fn no_accelerator_is_bound_twice() {
    let mut seen: Vec<&str> =
        accelerators().iter().flat_map(|(_, accels)| accels.iter().copied()).collect();
    let count = seen.len();
    seen.sort_unstable();
    seen.dedup();
    assert_eq!(seen.len(), count, "an accelerator is bound to two actions");
}

#[test]
fn formatting_accelerators_name_real_commands() {
    for (action, _) in accelerators() {
        let Some(target) = action.strip_prefix("win.format::") else {
            continue;
        };
        assert!(Command::from_id(target).is_some(), "{action} names no command");
    }
}

#[test]
fn mode_accelerators_name_real_modes() {
    for (action, _) in accelerators() {
        let Some(target) = action.strip_prefix("win.mode::") else {
            continue;
        };
        assert_eq!(ViewMode::from_id(target).id(), target, "{action} names no view mode");
    }
}

#[test]
fn the_status_bar_counts_in_words() {
    assert_eq!(word_count_label(0), "0 words");
    assert_eq!(word_count_label(1), "1 word");
    assert_eq!(word_count_label(2140), "2140 words");
    assert_eq!(reading_time_label(0), "");
    assert_eq!(reading_time_label(7), "7 min read");
    assert_eq!(caret_label(12, 3), "Ln 12, Col 3");
}

#[test]
fn the_title_marks_unsaved_changes() {
    assert_eq!(window_title("notes.md", false), "notes.md");
    assert_eq!(window_title("notes.md", true), "notes.md •");
    assert_eq!(subtitle("~/notes", Some("4 mins ago")), "~/notes — edited 4 mins ago");
    assert_eq!(subtitle("~/notes", None), "~/notes");
    assert_eq!(subtitle("", Some("just now")), "Not saved yet");
    assert_eq!(save_error_title("disk full"), "Not saved — disk full");
    assert_eq!(discard_question("notes.md"), "Save changes to notes.md?");
}

#[test]
fn unsaved_work_is_asked_about_before_it_is_lost() {
    assert_eq!(guard(CloseAction::Close, true), Guard::Ask(CloseAction::Close));
    assert_eq!(guard(CloseAction::OpenAnother, false), Guard::Proceed(CloseAction::OpenAnother));
    assert_eq!(Answer::from_id("discard"), Answer::Discard);
    assert_eq!(Answer::from_id("save"), Answer::Save);
    assert_eq!(Answer::from_id("cancel"), Answer::Cancel);
    assert!(carry_on(Answer::Discard, true));
    assert!(carry_on(Answer::Save, false));
    assert!(!carry_on(Answer::Save, true), "a failed save must not lose the document");
    assert!(!carry_on(Answer::Cancel, false));
}

#[test]
fn a_save_without_a_path_asks_for_one() {
    assert_eq!(save_route(false, false), SaveRoute::ChoosePath);
    assert_eq!(save_route(false, true), SaveRoute::Save);
    assert_eq!(save_route(true, true), SaveRoute::SaveAs);
}

#[test]
fn a_search_goes_on_from_the_current_match() {
    assert_eq!(search_from("", Some((3, 5)), 9, true, true), None);
    assert_eq!(search_from("ab", Some((3, 5)), 9, true, true), Some(5));
    assert_eq!(search_from("ab", Some((3, 5)), 9, true, false), Some(3));
    assert_eq!(search_from("ab", Some((3, 5)), 9, false, true), Some(3));
    assert_eq!(search_from("ab", None, 9, true, true), Some(9));
}

#[test]
fn a_window_is_never_restored_too_small() {
    assert_eq!(restored_size(100, 100), (360, 320));
    assert_eq!(restored_size(1200, 800), (1200, 800));
}

#[test]
fn the_menu_has_a_section_for_each_kind_of_command() {
    let sections = menu_sections();
    assert_eq!(sections.len(), 3);
    let flat: Vec<Command> = sections.iter().flatten().copied().collect();
    assert_eq!(flat, all_commands());
    assert_eq!(sections[0].len(), 5);
    assert_eq!(sections[1][0], Command::Paragraph);
    assert_eq!(sections[2][0].menu_group(), MenuGroup::Block);
}

#[test]
fn outline_rows_step_in_with_their_level() {
    assert_eq!(row_indent(1), 0);
    assert_eq!(row_indent(3), 24);
    assert_eq!(row_indent(0), 0);
    assert_eq!(level_badge(2), "H2");
    assert_eq!(row_description(2, "Section"), "Heading level 2: Section");
    assert_eq!(visible_active(Some(4), 3), None);
    assert_eq!(visible_active(Some(2), 3), Some(2));
    assert_eq!(visible_active(None, 3), None);
}

#[test]
fn block_styles_are_painted_from_the_start_of_their_line() {
    let text = "> quoted\n**bold** and ---\n";
    let scan = Scan {
        spans: vec![
            Span { start: 2, end: 8, style: SpanStyle::Quote },
            Span { start: 11, end: 15, style: SpanStyle::Bold },
            Span { start: 22, end: 25, style: SpanStyle::Rule },
            Span { start: 11, end: 15, style: SpanStyle::Heading(9) },
        ],
        fenced: vec![false; 3],
    };
    let painted = painting(text, &scan);
    assert_eq!(
        painted.paints,
        [
            Paint { tag: Tag::Quote, start: 0, end: 8 },
            Paint { tag: Tag::Bold, start: 11, end: 15 },
            Paint { tag: Tag::Heading(6), start: 9, end: 15 },
        ]
    );
    assert_eq!(painted.rules, [(22, 25)]);
}

#[test]
fn every_tag_has_a_name_of_its_own() {
    let names = tag_names(2);
    assert_eq!(names.len(), 15 + 6 + 3);
    assert_eq!(names[0], "md-bold");
    assert_eq!(names[15], "md-h1");
    assert_eq!(names[20], "md-h6");
    assert_eq!(names[23], "md-list2");
    let mut unique = names.clone();
    unique.sort();
    unique.dedup();
    assert_eq!(unique.len(), names.len());
    assert_eq!(Tag::TableDelimiter.name(), "md-table-delimiter");
}

#[test]
fn the_column_stays_centred_at_its_measure() {
    assert_eq!(side_margin(1000, 600), 200);
    assert_eq!(side_margin(600, 600), 32);
    assert_eq!(side_margin(300, 600), 32);
    assert_eq!(tag_margins(Tag::Quote, 100), Some((100 + QUOTE_INDENT, 100)));
    assert_eq!(tag_margins(Tag::CodeBlock, 100), Some((126, 126)));
    assert_eq!(tag_margins(Tag::List(2), 100), Some((100 + LIST_INDENT + 2 * LIST_STEP, 100)));
    assert_eq!(tag_margins(Tag::Bold, 100), None);
}
