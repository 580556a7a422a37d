//! What the window around the page says and decides: its title, the status
//! bar, the outline's rows, the formatting menu's sections, and the question
//! asked before unsaved work is thrown away.
//!
//! None of it draws. A frontend reads the widgets' state, asks here what to
//! show or do, and does it.

use vstd::prelude::*;
use crate::format::{all_commands, all_commands_spec, Command};
use crate::text::{decimal, push_decimal, push_str};

verus! {

broadcast use vstd::string::group_string_axioms;

/// "1 word", "12 words".
pub open spec fn word_count_text(words: nat) -> Seq<char> {
    if words == 1 {
        "1 word"@
    } else {
        decimal(words) + " words"@
    }
}

pub fn word_count_label(words: u64) -> (label: String)
    ensures
        label@ == word_count_text(words as nat),
{
    if words == 1 {
        return String::from_str("1 word");
    }
    let mut out = String::new();
    push_decimal(&mut out, words);
    push_str(&mut out, " words");
    out
}

/// "3 min read", or nothing for a document with nothing to read.
pub open spec fn reading_time_text(minutes: nat) -> Seq<char> {
    if minutes == 0 {
        seq![]
    } else {
        decimal(minutes) + " min read"@
    }
}

pub fn reading_time_label(minutes: u64) -> (label: String)
    ensures
        label@ == reading_time_text(minutes as nat),
{
    let mut out = String::new();
    if minutes > 0 {
        push_decimal(&mut out, minutes);
        push_str(&mut out, " min read");
    }
    out
}

/// The caret's one-based line and column, as the status bar shows them.
pub open spec fn caret_text(line: nat, column: nat) -> Seq<char> {
    "Ln "@ + decimal(line) + ", Col "@ + decimal(column)
}

pub fn caret_label(line: u64, column: u64) -> (label: String)
    ensures
        label@ == caret_text(line as nat, column as nat),
{
    let mut out = String::new();
    push_str(&mut out, "Ln ");
    push_decimal(&mut out, line);
    push_str(&mut out, ", Col ");
    push_decimal(&mut out, column);
    out
}

/// The window's title: the document's name, marked while it has unsaved
/// changes.
pub open spec fn window_title_text(name: Seq<char>, modified: bool) -> Seq<char> {
    if modified {
        name + " •"@
    } else {
        name
    }
}

pub fn window_title(name: &str, modified: bool) -> (title: String)
    ensures
        title@ == window_title_text(name@, modified),
{
    let mut out = String::new();
    push_str(&mut out, name);
    if modified {
        push_str(&mut out, " •");
    }
    out
}

/// Under the title: where the file lives and when it was last written, or
/// that it never has been.
pub open spec fn subtitle_text(location: Seq<char>, edited: Option<Seq<char>>) -> Seq<char> {
    if location.len() == 0 {
        "Not saved yet"@
    } else {
        match edited {
            Some(when) => location + " — edited "@ + when,
            None => location,
        }
    }
}

/// `location` is the document's directory and `edited` how long ago it was
/// last written, as a phrase.
pub fn subtitle(location: &str, edited: Option<&str>) -> (line: String)
    ensures
        line@ == subtitle_text(
            location@,
            match edited {
                Some(when) => Some(when@),
                None => None,
            },
        ),
{
    if location.is_empty() {
        return String::from_str("Not saved yet");
    }
    let mut out = String::new();
    push_str(&mut out, location);
    match edited {
        Some(when) => {
            push_str(&mut out, " — edited ");
            push_str(&mut out, when);
        },
        None => {},
    }
    out
}

/// What the banner says while the document will not save.
pub open spec fn save_error_text(message: Seq<char>) -> Seq<char> {
    "Not saved — "@ + message
}

pub fn save_error_title(message: &str) -> (title: String)
    ensures
        title@ == save_error_text(message@),
{
    let mut out = String::new();
    push_str(&mut out, "Not saved — ");
    push_str(&mut out, message);
    out
}

/// The question asked before unsaved changes are thrown away.
pub open spec fn discard_question_text(name: Seq<char>) -> Seq<char> {
    "Save changes to "@ + name + "?"@
}

pub fn discard_question(name: &str) -> (question: String)
    ensures
        question@ == discard_question_text(name@),
{
    let mut out = String::new();
    push_str(&mut out, "Save changes to ");
    push_str(&mut out, name);
    push_str(&mut out, "?");
    out
}

/// What the window was about to do when it found unsaved changes.
#[derive(Debug, Clone, Copy, PartialEq, Eq, Structural)]
pub enum CloseAction {
    Close,
    OpenAnother,
    StartAnother,
}

/// What to do next about a request that would replace or close the document.
#[derive(Debug, Clone, Copy, PartialEq, Eq, Structural)]
pub enum Guard {
    /// Go ahead with it.
    Proceed(CloseAction),
    /// Ask first whether to save, discard, or cancel.
    Ask(CloseAction),
}

/// Ask before losing work, and only then.
pub fn guard(action: CloseAction, modified: bool) -> (g: Guard)
    ensures
        g == (if modified {
            Guard::Ask(action)
        } else {
            Guard::Proceed(action)
        }),
{
    if modified {
        Guard::Ask(action)
    } else {
        Guard::Proceed(action)
    }
}

/// The answers to the question, Cancel first and the specific verb last.
#[derive(Debug, Clone, Copy, PartialEq, Eq, Structural)]
pub enum Answer {
    Cancel,
    Discard,
    Save,
}

pub open spec fn answer_named(id: Seq<char>) -> Answer {
    if id == "discard"@ {
        Answer::Discard
    } else if id == "save"@ {
        Answer::Save
    } else {
        Answer::Cancel
    }
}

impl Answer {
    /// The answer a dialog response names. Closing the dialog, or anything
    /// unknown, is a cancel.
    pub fn from_id(id: &str) -> (answer: Answer)
        ensures
            answer == answer_named(id@),
    {
        if crate::text::same_text(id, "discard") {
            Answer::Discard
        } else if crate::text::same_text(id, "save") {
            Answer::Save
        } else {
            Answer::Cancel
        }
    }
}

/// After an answer: whether to carry on with the action, given whether the
/// document still has unsaved changes once any save asked for has run. A
/// save that failed must not take the document away with it.
pub open spec fn carries_on(answer: Answer, still_modified: bool) -> bool {
    match answer {
        Answer::Cancel => false,
        Answer::Discard => true,
        Answer::Save => !still_modified,
    }
}

pub fn carry_on(answer: Answer, still_modified: bool) -> (go: bool)
    ensures
        go == carries_on(answer, still_modified),
{
    match answer {
        Answer::Cancel => false,
        Answer::Discard => true,
        Answer::Save => !still_modified,
    }
}

/// How a save request is carried out.
#[derive(Debug, Clone, Copy, PartialEq, Eq, Structural)]
pub enum SaveRoute {
    /// Write to the path that was chosen, and adopt it.
    SaveAs,
    /// Write to the document's own path.
    Save,
    /// There is nowhere to write yet: ask for a path first.
    ChoosePath,
}

pub fn save_route(path_chosen: bool, has_path: bool) -> (route: SaveRoute)
    ensures
        route == (if path_chosen {
            SaveRoute::SaveAs
        } else if has_path {
            SaveRoute::Save
        } else {
            SaveRoute::ChoosePath
        }),
{
    if path_chosen {
        SaveRoute::SaveAs
    } else if has_path {
        SaveRoute::Save
    } else {
        SaveRoute::ChoosePath
    }
}

/// Where a search for the next match starts. While the query is still being
/// typed (`advance` false) the match under the caret stays put; searching on
/// from the current match, rather than finding it again, is what makes Enter
/// mean "next". `None` for an empty query, which finds nothing.
pub open spec fn search_origin(
    query_len: nat,
    selection: Option<(usize, usize)>,
    caret: usize,
    forwards: bool,
    advance: bool,
) -> Option<usize> {
    if query_len == 0 {
        None
    } else {
        match selection {
            Some((start, end)) => if advance && forwards {
                Some(end)
            } else {
                Some(start)
            },
            None => Some(caret),
        }
    }
}

pub fn search_from(
    query: &str,
    selection: Option<(usize, usize)>,
    caret: usize,
    forwards: bool,
    advance: bool,
) -> (from: Option<usize>)
    ensures
        from == search_origin(query@.len(), selection, caret, forwards, advance),
{
    if query.is_empty() {
        return None;
    }
    match selection {
        Some((start, end)) => if advance && forwards {
            Some(end)
        } else {
            Some(start)
        },
        None => Some(caret),
    }
}

/// The stored window size, never smaller than a usable window.
pub fn restored_size(width: i32, height: i32) -> (size: (i32, i32))
    ensures
        size.0 == (if width < 360 {
            360
        } else {
            width
        }),
        size.1 == (if height < 320 {
            320
        } else {
            height
        }),
{
    (if width < 360 {
        360
    } else {
        width
    }, if height < 320 {
        320
    } else {
        height
    })
}

/// The three kinds of formatting command, each a section of the menu.
#[derive(Debug, Clone, Copy, PartialEq, Eq, Structural)]
pub enum MenuGroup {
    Inline,
    Heading,
    Block,
}

pub open spec fn group_of(command: Command) -> MenuGroup {
    match command {
        Command::Bold | Command::Italic | Command::Strikethrough | Command::Code
        | Command::Link => MenuGroup::Inline,
        Command::Paragraph | Command::Heading(_) => MenuGroup::Heading,
        _ => MenuGroup::Block,
    }
}

impl Command {
    pub fn menu_group(self) -> (group: MenuGroup)
        ensures
            group == group_of(self),
    {
        match self {
            Command::Bold | Command::Italic | Command::Strikethrough | Command::Code
            | Command::Link => MenuGroup::Inline,
            Command::Paragraph | Command::Heading(_) => MenuGroup::Heading,
            _ => MenuGroup::Block,
        }
    }
}

pub open spec fn flattened(sections: Seq<Seq<Command>>) -> Seq<Command>
    decreases sections.len(),
{
    if sections.len() == 0 {
        seq![]
    } else {
        flattened(sections.drop_last()) + sections.last()
    }
}

/// Sections as a menu shows them: every command, in order, split wherever
/// the kind of command changes, and nowhere else.
pub open spec fn sectioned(sections: Seq<Seq<Command>>, commands: Seq<Command>) -> bool {
    &&& flattened(sections) == commands
    &&& forall|k: int| 0 <= k < sections.len() ==> (#[trigger] sections[k]).len() > 0
    &&& forall|k: int, i: int|
        0 <= k < sections.len() && 0 <= i < sections[k].len() ==> group_of(
            #[trigger] sections[k][i],
        ) == group_of(sections[k][0])
    &&& forall|j: int, k: int|
        0 <= j < k < sections.len() && k == j + 1 ==> group_of((#[trigger] sections[j])[0])
            != group_of((#[trigger] sections[k])[0])
}

proof fn lemma_section_started(sections: Seq<Seq<Command>>, commands: Seq<Command>, c: Command)
    requires
        sectioned(sections, commands),
        sections.len() > 0 ==> group_of(sections.last()[0]) != group_of(c),
    ensures
        sectioned(sections.push(seq![c]), commands.push(c)),
{
    let after = sections.push(seq![c]);
    assert(after.drop_last() =~= sections);
    assert(flattened(after) =~= commands.push(c));
    assert forall|k: int, i: int| 0 <= k < after.len() && 0 <= i < after[k].len() implies group_of(
        #[trigger] after[k][i],
    ) == group_of(after[k][0]) by {
        if k < sections.len() {
            assert(after[k] == sections[k]);
        }
    }
    assert forall|j: int, k: int| 0 <= j < k < after.len() && k == j + 1 implies group_of(
        (#[trigger] after[j])[0],
    ) != group_of((#[trigger] after[k])[0]) by {
        if k < after.len() - 1 {
            assert(after[k] == sections[k]);
            assert(after[j] == sections[j]);
        }
    }
}

proof fn lemma_section_extended(sections: Seq<Seq<Command>>, commands: Seq<Command>, c: Command)
    requires
        sectioned(sections, commands),
        sections.len() > 0,
        group_of(sections.last()[0]) == group_of(c),
    ensures
        sectioned(
            sections.update(sections.len() - 1, sections.last().push(c)),
            commands.push(c),
        ),
{
    let last = sections.len() - 1;
    let after = sections.update(last, sections.last().push(c));
    assert(after.drop_last() =~= sections.drop_last());
    assert(sections =~= sections.drop_last().push(sections.last()));
    assert(flattened(sections) == flattened(sections.drop_last()) + sections.last());
    assert(flattened(after) =~= flattened(sections).push(c));
    assert forall|k: int, i: int| 0 <= k < after.len() && 0 <= i < after[k].len() implies group_of(
        #[trigger] after[k][i],
    ) == group_of(after[k][0]) by {
        if k < last {
            assert(after[k] == sections[k]);
        } else if i < sections[k].len() {
            assert(after[k][i] == sections[k][i]);
            assert(after[k][0] == sections[k][0]);
        }
    }
    assert forall|j: int, k: int| 0 <= j < k < after.len() && k == j + 1 implies group_of(
        (#[trigger] after[j])[0],
    ) != group_of((#[trigger] after[k])[0]) by {
        assert(after[k][0] == sections[k][0]);
        assert(after[j][0] == sections[j][0]);
    }
}

/// The formatting commands in menu order, split into sections where the kind
/// of command changes.
pub fn menu_sections() -> (sections: Vec<Vec<Command>>)
    ensures
        sectioned(sections@.map_values(|s: Vec<Command>| s@), all_commands_spec()),
{
    let all = all_commands();
    let mut done: Vec<Vec<Command>> = Vec::new();
    let mut current: Vec<Command> = Vec::new();
    let ghost mut finished: Seq<Seq<Command>> = seq![];
    let mut i: usize = 0;
    assert(all@.take(0) =~= seq![]);
    while i < all.len()
        invariant
            i <= all.len(),
            all@ == all_commands_spec(),
            done@.map_values(|s: Vec<Command>| s@) == finished,
            i == 0 <==> current.len() == 0,
            i == 0 ==> finished.len() == 0,
            i > 0 ==> sectioned(finished.push(current@), all@.take(i as int)),
            i > 0 ==> group_of(current@.last()) == group_of(current@[0]),
        decreases all.len() - i,
    {
        let c = all[i];
        assert(all@.take(i as int + 1) =~= all@.take(i as int).push(c));
        if i == 0 {
            current.push(c);
            proof {
                assert(sectioned(seq![], seq![]));
                lemma_section_started(seq![], seq![], c);
                assert(current@ =~= seq![c]);
                assert(finished.push(current@) =~= seq![seq![c]]);
                assert(seq![].push(seq![c]) =~= seq![seq![c]]);
                assert(all@.take(1) =~= seq![].push(c));
            }
        } else if current[current.len() - 1].menu_group() != c.menu_group() {
            proof {
                lemma_section_started(finished.push(current@), all@.take(i as int), c);
            }
            let ghost closed = current@;
            done.push(current);
            current = Vec::new();
            current.push(c);
            proof {
                finished = finished.push(closed);
                assert(current@ =~= seq![c]);
            }
        } else {
            proof {
                lemma_section_extended(finished.push(current@), all@.take(i as int), c);
                assert(finished.push(current@).update(finished.len() as int, current@.push(c))
                    =~= finished.push(current@.push(c)));
            }
            current.push(c);
        }
        i = i + 1;
    }
    assert(all@.take(i as int) =~= all@);
    let ghost last = current@;
    done.push(current);
    assert(done@.map_values(|s: Vec<Command>| s@) =~= finished.push(last));
    done
}

/// How far an outline row steps in: twelve pixels for each level below the
/// first.
pub fn row_indent(level: u8) -> (indent: i32)
    ensures
        indent == (if level == 0 {
            0
        } else {
            (level - 1) * 12
        }),
{
    if level == 0 {
        0
    } else {
        (level as i32 - 1) * 12
    }
}

/// The badge at the end of an outline row: "H2".
pub open spec fn level_badge_text(level: u8) -> Seq<char> {
    seq!['H'] + decimal(level as nat)
}

pub fn level_badge(level: u8) -> (badge: String)
    ensures
        badge@ == level_badge_text(level),
{
    let mut out = String::new();
    out.push('H');
    push_decimal(&mut out, level as u64);
    out
}

/// What a screen reader says for an outline row.
pub open spec fn row_description_text(level: u8, text: Seq<char>) -> Seq<char> {
    "Heading level "@ + decimal(level as nat) + ": "@ + text
}

pub fn row_description(level: u8, text: &str) -> (description: String)
    ensures
        description@ == row_description_text(level, text@),
{
    let mut out = String::new();
    push_str(&mut out, "Heading level ");
    push_decimal(&mut out, level as u64);
    push_str(&mut out, ": ");
    push_str(&mut out, text);
    out
}

/// The row to mark active, if it is one of the `rows` the outline has.
pub fn visible_active(active: Option<usize>, rows: usize) -> (shown: Option<usize>)
    ensures
        shown == (match active {
            Some(index) => if index < rows {
                Some(index)
            } else {
                None
            },
            None => None,
        }),
{
    match active {
        Some(index) => if index < rows {
            Some(index)
        } else {
            None
        },
        None => None,
    }
}

} // verus!
