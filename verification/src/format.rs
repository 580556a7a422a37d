//! The formatting commands behind the right-click menu.
//!
//! A command is a pure function of the document text and the selection: in,
//! text and two character offsets; out, one [`Replacement`] and where the
//! selection lands afterwards. What each command writes (the markers around a
//! bold run, the prefix of a quoted line, the block a table inserts) is the
//! scanner's decision, handed in as an [`Edit`].

use vstd::prelude::*;
use crate::lines::{
    as_ints, is_line_start, line_end, line_end_of, line_index, line_of, line_starts, line_starts_of,
    line_text,
};
use crate::text::{chars_of, is_whitespace, same_chars, string_of, whitespace};

verus! {

broadcast use vstd::string::group_string_axioms;

/// One command from the formatting menu.
#[derive(Debug, Clone, Copy, PartialEq, Eq, Structural)]
pub enum Command {
    Bold,
    Italic,
    Strikethrough,
    Code,
    Link,
    /// Take a heading back to body text.
    Paragraph,
    Heading(u8),
    Quote,
    Bullet,
    Task,
    CodeBlock,
    Table,
    Rule,
}

/// Every command, in the order the menu offers them.
pub open spec fn all_commands_spec() -> Seq<Command> {
    seq![
        Command::Bold,
        Command::Italic,
        Command::Strikethrough,
        Command::Code,
        Command::Link,
        Command::Paragraph,
        Command::Heading(1),
        Command::Heading(2),
        Command::Heading(3),
        Command::Quote,
        Command::Bullet,
        Command::Task,
        Command::CodeBlock,
        Command::Table,
        Command::Rule,
    ]
}

/// Every command, in the order the menu offers them.
pub fn all_commands() -> (all: Vec<Command>)
    ensures
        all@ == all_commands_spec(),
{
    let all = vec![
        Command::Bold,
        Command::Italic,
        Command::Strikethrough,
        Command::Code,
        Command::Link,
        Command::Paragraph,
        Command::Heading(1),
        Command::Heading(2),
        Command::Heading(3),
        Command::Quote,
        Command::Bullet,
        Command::Task,
        Command::CodeBlock,
        Command::Table,
        Command::Rule,
    ];
    assert(all@ =~= all_commands_spec());
    all
}

/// What a command writes, as the scanner defines it.
#[derive(Debug, Clone, PartialEq, Eq)]
pub enum Edit {
    /// Markers on either side of the selection.
    Wrap { before: String, after: String },
    /// A marker at the start of every selected line.
    Prefix { prefix: String },
    /// A block on lines of its own, with the caret `caret` characters into it.
    Block { text: String, caret: usize },
}

/// The text a command replaces, and what it replaces it with.
///
/// One replacement, never a list: a frontend applies it inside a single undo
/// step.
#[derive(Debug, PartialEq, Eq)]
pub struct Replacement {
    /// Character offsets into the document, before the edit.
    pub start: usize,
    pub end: usize,
    pub text: String,
    /// Where the selection sits afterwards, in offsets into the document
    /// *after* the edit. Equal offsets mean a caret.
    pub selection: (usize, usize),
}

/// A [`Replacement`] as mathematics sees it.
pub struct Change {
    pub start: int,
    pub end: int,
    pub text: Seq<char>,
    pub sel_start: int,
    pub sel_end: int,
}

impl View for Replacement {
    type V = Change;

    open spec fn view(&self) -> Change {
        Change {
            start: self.start as int,
            end: self.end as int,
            text: self.text@,
            sel_start: self.selection.0 as int,
            sel_end: self.selection.1 as int,
        }
    }
}

pub open spec fn view_of(r: Option<Replacement>) -> Option<Change> {
    match r {
        Some(r) => Some(r@),
        None => None,
    }
}

/// The document once `change` has been made to `s`.
pub open spec fn applied(s: Seq<char>, change: Change) -> Seq<char> {
    s.subrange(0, change.start) + change.text + s.subrange(change.end, s.len() as int)
}

/// Room in a `usize` for a prefix command's work on a document of `len`
/// characters with a marker of `marker` characters: the marker can go on
/// every one of its lines.
pub open spec fn prefix_room(len: int, marker: int) -> bool {
    (len + 1) * marker + 3 * len + 3 * marker + 8 <= usize::MAX
}

/// Room in a `usize` for every offset into a document of `len` characters and
/// into what `command` makes of it with `edit`.
pub open spec fn fits(len: int, command: Command, edit: Option<Edit>) -> bool {
    if command == Command::Paragraph {
        prefix_room(len, 0)
    } else {
        match edit {
            Some(Edit::Wrap { before, after }) => len + before@.len() + after@.len()
                <= usize::MAX,
            Some(Edit::Prefix { prefix }) => prefix_room(len, prefix@.len() as int),
            Some(Edit::Block { text, caret }) => len + 1 + text@.len() + caret <= usize::MAX,
            None => true,
        }
    }
}

/// `before` ends where the selection starts and `after` begins where it ends.
pub open spec fn marked_outside(
    s: Seq<char>,
    low: int,
    high: int,
    before: Seq<char>,
    after: Seq<char>,
) -> bool {
    &&& low >= before.len()
    &&& high + after.len() <= s.len()
    &&& s.subrange(low - before.len(), low) == before
    &&& s.subrange(high, high + after.len()) == after
}

/// The selection itself starts with `before` and ends with `after`, without
/// the two overlapping.
pub open spec fn marked_inside(
    s: Seq<char>,
    low: int,
    high: int,
    before: Seq<char>,
    after: Seq<char>,
) -> bool {
    &&& high - low >= before.len() + after.len()
    &&& s.subrange(low, low + before.len()) == before
    &&& s.subrange(high - after.len(), high) == after
}

/// Markers around the selection, or off again if they are already there on
/// either side of the selection boundary.
pub open spec fn wrap_change(
    s: Seq<char>,
    low: int,
    high: int,
    before: Seq<char>,
    after: Seq<char>,
) -> Change {
    let b = before.len() as int;
    let a = after.len() as int;
    if marked_outside(s, low, high, before, after) {
        Change {
            start: low - b,
            end: high + a,
            text: s.subrange(low, high),
            sel_start: low - b,
            sel_end: low - b + (high - low),
        }
    } else if marked_inside(s, low, high, before, after) {
        Change {
            start: low,
            end: high,
            text: s.subrange(low + b, high - a),
            sel_start: low,
            sel_end: low + (high - low - b - a),
        }
    } else {
        Change {
            start: low,
            end: high,
            text: before + s.subrange(low, high) + after,
            sel_start: low + b,
            sel_end: low + b + (high - low),
        }
    }
}

/// Every character of `line` is whitespace.
pub open spec fn is_blank(line: Seq<char>) -> bool {
    forall|i: int| 0 <= i < line.len() ==> whitespace(#[trigger] line[i])
}

/// A block on lines of its own: onto the line the selection ends on if that
/// line is blank, below it if it is not, with a newline first when it is the
/// last line and does not end in one.
pub open spec fn block_change(s: Seq<char>, high: int, inserted: Seq<char>, caret: int) -> Change {
    let line = line_of(s, high);
    let start = line_starts(s)[line];
    let end = line_end(s, line);
    let blank = is_blank(s.subrange(start, end));
    let at = if blank {
        start
    } else if end < s.len() {
        end + 1
    } else {
        s.len() as int
    };
    let lead: Seq<char> = if !blank && end >= s.len() {
        seq!['\n']
    } else {
        seq![]
    };
    Change {
        start: at,
        end: at,
        text: lead + inserted,
        sel_start: at + lead.len() + caret,
        sel_end: at + lead.len() + caret,
    }
}

/// The stable id of a command: the target of its menu action.
pub open spec fn id_of(command: Command) -> Seq<char> {
    match command {
        Command::Bold => "bold"@,
        Command::Italic => "italic"@,
        Command::Strikethrough => "strikethrough"@,
        Command::Code => "code"@,
        Command::Link => "link"@,
        Command::Paragraph => "paragraph"@,
        Command::Heading(level) => if level == 1 {
            "heading-1"@
        } else if level == 2 {
            "heading-2"@
        } else {
            "heading-3"@
        },
        Command::Quote => "quote"@,
        Command::Bullet => "bullet"@,
        Command::Task => "task"@,
        Command::CodeBlock => "code-block"@,
        Command::Table => "table"@,
        Command::Rule => "rule"@,
    }
}

/// What the menu item says.
pub open spec fn label_of(command: Command) -> Seq<char> {
    match command {
        Command::Bold => "Bold"@,
        Command::Italic => "Italic"@,
        Command::Strikethrough => "Strikethrough"@,
        Command::Code => "Inline Code"@,
        Command::Link => "Insert Link…"@,
        Command::Paragraph => "Paragraph"@,
        Command::Heading(level) => if level == 1 {
            "Heading 1"@
        } else if level == 2 {
            "Heading 2"@
        } else {
            "Heading 3"@
        },
        Command::Quote => "Block Quote"@,
        Command::Bullet => "Bulleted List"@,
        Command::Task => "Task List"@,
        Command::CodeBlock => "Code Block"@,
        Command::Table => "Table"@,
        Command::Rule => "Horizontal Rule"@,
    }
}

/// The accelerator, in the platform-neutral `Ctrl`/`Alt` spelling: the
/// inline commands on Ctrl, the paragraph and heading levels on Alt+0…3, since
/// Ctrl+1…3 switch the view mode.
pub open spec fn accelerator_of(command: Command) -> Option<Seq<char>> {
    match command {
        Command::Bold => Some("Ctrl+B"@),
        Command::Italic => Some("Ctrl+I"@),
        Command::Code => Some("Ctrl+E"@),
        Command::Link => Some("Ctrl+K"@),
        Command::Paragraph => Some("Alt+0"@),
        Command::Heading(level) => if level == 1 {
            Some("Alt+1"@)
        } else if level == 2 {
            Some("Alt+2"@)
        } else {
            Some("Alt+3"@)
        },
        _ => None,
    }
}

/// How many `#` characters `line` opens with.
pub open spec fn leading_hashes(line: Seq<char>) -> int
    decreases line.len(),
{
    if line.len() > 0 && line[0] == '#' {
        1 + leading_hashes(line.drop_first())
    } else {
        0
    }
}

/// How many characters of `# ` … `###### ` `line` opens with.
pub open spec fn heading_prefix(line: Seq<char>) -> int {
    let h = leading_hashes(line);
    if 1 <= h <= 6 && h < line.len() && line[h] == ' ' {
        h + 1
    } else {
        0
    }
}

pub open spec fn starts_with(line: Seq<char>, m: Seq<char>) -> bool {
    m.len() <= line.len() && line.subrange(0, m.len() as int) == m
}

/// `line` already carries the (non-empty) marker `m`.
pub open spec fn has_marker(line: Seq<char>, m: Seq<char>) -> bool {
    m.len() > 0 && starts_with(line, m)
}

/// One line as a prefix command leaves it. A line the command does not touch
/// is left alone; when removing, the marker comes off; otherwise a line that
/// already has the marker keeps it as it is, and any other line gets the
/// marker, after losing any heading prefix when the command owns the start of
/// the line.
pub open spec fn rewrite_line(
    line: Seq<char>,
    m: Seq<char>,
    replaces_heading: bool,
    touched: bool,
    removing: bool,
) -> Seq<char> {
    if !touched {
        line
    } else if removing {
        line.subrange(m.len() as int, line.len() as int)
    } else if has_marker(line, m) {
        line
    } else {
        let body = if replaces_heading {
            line.subrange(heading_prefix(line), line.len() as int)
        } else {
            line
        };
        m + body
    }
}

/// The first line a selection starting at `low` covers.
pub open spec fn first_line(s: Seq<char>, low: int) -> int {
    line_of(s, low)
}

/// The last line a selection ending at `high` covers. A selection ending
/// exactly at a line start stops on the line above.
pub open spec fn last_line(s: Seq<char>, low: int, high: int) -> int {
    if high > low && is_line_start(s, high) {
        line_of(s, high - 1)
    } else {
        line_of(s, high)
    }
}

/// Lines `first` to `last` of `s`.
pub open spec fn region_lines(s: Seq<char>, first: int, last: int) -> Seq<Seq<char>> {
    Seq::new((last - first + 1) as nat, |k: int| line_text(s, first + k))
}

pub open spec fn all_blank(lines: Seq<Seq<char>>) -> bool {
    forall|k: int| 0 <= k < lines.len() ==> is_blank(#[trigger] lines[k])
}

/// Whether a command touches `line` among `lines`: a selection of nothing but
/// blank lines still means the lines it is on, and otherwise blank lines are
/// left alone.
pub open spec fn touched(lines: Seq<Seq<char>>, line: Seq<char>) -> bool {
    all_blank(lines) || !is_blank(line)
}

/// Every touched line already has the marker, so the command takes it off.
pub open spec fn removing(lines: Seq<Seq<char>>, m: Seq<char>) -> bool {
    m.len() > 0 && forall|k: int|
        0 <= k < lines.len() && touched(lines, #[trigger] lines[k]) ==> has_marker(lines[k], m)
}

pub open spec fn rewritten(lines: Seq<Seq<char>>, m: Seq<char>, replaces_heading: bool) -> Seq<
    Seq<char>,
> {
    Seq::new(
        lines.len(),
        |k: int|
            rewrite_line(
                lines[k],
                m,
                replaces_heading,
                touched(lines, lines[k]),
                removing(lines, m),
            ),
    )
}

/// Lines joined by newlines.
pub open spec fn join_lines(ls: Seq<Seq<char>>) -> Seq<char>
    decreases ls.len(),
{
    if ls.len() == 0 {
        seq![]
    } else if ls.len() == 1 {
        ls[0]
    } else {
        join_lines(ls.drop_last()) + seq!['\n'] + ls.last()
    }
}

/// Where line `k` starts within `join_lines(ls)`, plus one for each line
/// before it when counted from the end of the previous newline.
pub open spec fn lead(ls: Seq<Seq<char>>, k: int) -> int
    decreases k,
{
    if k <= 0 {
        0
    } else {
        lead(ls, k - 1) + ls[k - 1].len() + 1
    }
}

/// Where an offset lands once the lines have been rewritten. It moves by what
/// happened at the start of its own line and the lines above, so a caret
/// keeps its column; `hold` keeps it at the start of its line instead.
pub open spec fn moved(
    s: Seq<char>,
    first: int,
    last: int,
    lines: Seq<Seq<char>>,
    rw: Seq<Seq<char>>,
    offset: int,
    hold: bool,
) -> int {
    let l0 = line_of(s, offset);
    let l = (if l0 < first {
        first
    } else if l0 > last {
        last
    } else {
        l0
    }) - first;
    let new_start = line_starts(s)[first] + lead(rw, l);
    if hold {
        new_start
    } else {
        let column = offset - line_starts(s)[first + l];
        let col = if column < 0 {
            0
        } else {
            column
        };
        let shifted = col + rw[l].len() - lines[l].len();
        new_start + if shifted < 0 {
            0
        } else {
            shifted
        }
    }
}

/// A marker at the start of every selected line, or off again if every line
/// the command touches already has it. `None` when nothing would change.
pub open spec fn prefix_change(
    s: Seq<char>,
    low: int,
    high: int,
    m: Seq<char>,
    replaces_heading: bool,
) -> Option<Change> {
    let first = first_line(s, low);
    let last = last_line(s, low, high);
    let lines = region_lines(s, first, last);
    let rw = rewritten(lines, m, replaces_heading);
    let text = join_lines(rw);
    let region_start = line_starts(s)[first];
    let region_end = line_end(s, last);
    if text == s.subrange(region_start, region_end) {
        None
    } else {
        Some(
            Change {
                start: region_start,
                end: region_end,
                text,
                sel_start: moved(
                    s,
                    first,
                    last,
                    lines,
                    rw,
                    low,
                    low != high && is_line_start(s, low),
                ),
                sel_end: moved(s, first, last, lines, rw, high, false),
            },
        )
    }
}

/// A line opens with no more hashes than it has characters.
pub proof fn lemma_leading_hashes_bounded(line: Seq<char>)
    ensures
        0 <= leading_hashes(line) <= line.len(),
    decreases line.len(),
{
    if line.len() > 0 && line[0] == '#' {
        lemma_leading_hashes_bounded(line.drop_first());
    }
}

fn heading_prefix_of(line: &Vec<char>) -> (n: usize)
    ensures
        n as int == heading_prefix(line@),
        n <= line.len(),
{
    let mut h: usize = 0;
    assert(line@.skip(0) =~= line@);
    while h < line.len() && line[h] == '#'
        invariant
            h <= line.len(),
            leading_hashes(line@) == h + leading_hashes(line@.skip(h as int)),
        decreases line.len() - h,
    {
        assert(line@.skip(h as int).drop_first() =~= line@.skip(h + 1));
        h = h + 1;
    }
    assert(leading_hashes(line@.skip(h as int)) == 0);
    if 1 <= h && h <= 6 && h < line.len() && line[h] == ' ' {
        h + 1
    } else {
        0
    }
}

fn rewrite_one(
    line: &Vec<char>,
    marker: &Vec<char>,
    replaces_heading: bool,
    touched: bool,
    removing: bool,
) -> (out: Vec<char>)
    requires
        removing && touched ==> has_marker(line@, marker@),
        line.len() + marker.len() <= usize::MAX,
    ensures
        out@ == rewrite_line(line@, marker@, replaces_heading, touched, removing),
        out.len() <= line.len() + marker.len(),
{
    if !touched {
        let out = slice(line, 0, line.len());
        assert(line@.subrange(0, line@.len() as int) =~= line@);
        return out;
    }
    if removing {
        return slice(line, marker.len(), line.len());
    }
    let marked = marker.len() > 0 && matches_at(line, 0, marker);
    if marked {
        let out = slice(line, 0, line.len());
        assert(line@.subrange(0, line@.len() as int) =~= line@);
        return out;
    }
    let from = if replaces_heading {
        heading_prefix_of(line)
    } else {
        0
    };
    let mut out: Vec<char> = Vec::new();
    extend_with(&mut out, marker, 0, marker.len());
    assert(marker@.subrange(0, marker@.len() as int) =~= marker@);
    extend_with(&mut out, line, from, line.len());
    assert(line@.subrange(0, line@.len() as int) =~= line@);
    out
}

/// Where each line of a region starts, counted from the region's start.
proof fn lemma_lead_of_lines(s: Seq<char>, first: int, last: int, k: int)
    requires
        0 <= first <= last < crate::lines::line_count(s),
        1 <= k <= last - first + 1,
    ensures
        lead(region_lines(s, first, last), k) == line_end(s, first + k - 1) + 1 - line_starts(
            s,
        )[first],
    decreases k,
{
    crate::lines::lemma_lines(s);
    let ls = region_lines(s, first, last);
    let i = first + k - 1;
    assert(0 <= line_starts(s)[i] <= line_end(s, i) <= s.len());
    assert(ls[k - 1] == line_text(s, i));
    assert(ls[k - 1].len() == line_end(s, i) - line_starts(s)[i]);
    if k > 1 {
        lemma_lead_of_lines(s, first, last, k - 1);
        assert(line_end(s, i - 1) + 1 == line_starts(s)[i]);
    }
    assert(lead(ls, k) == lead(ls, k - 1) + ls[k - 1].len() + 1);
}

proof fn lemma_lead_nonneg(ls: Seq<Seq<char>>, k: int)
    ensures
        lead(ls, k) >= 0,
        k > 0 ==> lead(ls, k) >= k,
    decreases k,
{
    if k > 0 {
        lemma_lead_nonneg(ls, k - 1);
    }
}

/// The join of the first `k` lines ends one short of where line `k` would
/// start.
proof fn lemma_join_take(ls: Seq<Seq<char>>, k: int)
    requires
        0 <= k < ls.len(),
    ensures
        join_lines(ls.take(k + 1)) == if k == 0 {
            ls[0]
        } else {
            join_lines(ls.take(k)) + seq!['\n'] + ls[k]
        },
{
    if k == 0 {
        assert(ls.take(1).len() == 1);
    } else {
        assert(ls.take(k + 1).drop_last() =~= ls.take(k));
    }
}

fn moved_to(
    chars: &Vec<char>,
    starts: &Vec<usize>,
    first: usize,
    last: usize,
    lines: &Vec<Vec<char>>,
    rw_lens: &Vec<usize>,
    new_starts: &Vec<usize>,
    offset: usize,
    hold: bool,
    Ghost(ls): Ghost<Seq<Seq<char>>>,
    Ghost(rw): Ghost<Seq<Seq<char>>>,
    Ghost(bound): Ghost<int>,
) -> (at: usize)
    requires
        as_ints(starts@) == line_starts(chars@),
        offset <= chars.len(),
        first <= last < starts.len(),
        ls.len() == last - first + 1,
        rw.len() == ls.len(),
        lines@.len() == ls.len(),
        rw_lens@.len() == ls.len(),
        new_starts@.len() == ls.len(),
        forall|j: int| 0 <= j < ls.len() ==> (#[trigger] lines@[j])@ == ls[j],
        forall|j: int| 0 <= j < ls.len() ==> #[trigger] rw_lens@[j] == rw[j].len(),
        forall|j: int|
            0 <= j < ls.len() ==> #[trigger] new_starts@[j] == line_starts(chars@)[first as int]
                + lead(rw, j),
        forall|j: int| 0 <= j < ls.len() ==> rw[j].len() <= ls[j].len() + bound,
        forall|j: int| 0 <= j < ls.len() ==> new_starts@[j] + chars.len() + ls[j].len() + bound
            <= usize::MAX,
        0 <= bound,
    ensures
        at as int == moved(chars@, first as int, last as int, ls, rw, offset as int, hold),
{
    proof {
        crate::lines::lemma_lines(chars@);
    }
    let l0 = line_index(chars, starts, offset);
    let clamped = if l0 < first {
        first
    } else if l0 > last {
        last
    } else {
        l0
    };
    let l = clamped - first;
    let ns = new_starts[l];
    if hold {
        return ns;
    }
    assert(starts@.len() == as_ints(starts@).len());
    assert(starts@[first + l] as int == line_starts(chars@)[first + l]);
    let st = starts[first + l];
    let col = if offset >= st {
        offset - st
    } else {
        0
    };
    let old_len = lines[l].len();
    assert(lines@[l as int]@ == ls[l as int]);
    if col + rw_lens[l] >= old_len {
        ns + (col + rw_lens[l] - old_len)
    } else {
        ns
    }
}

/// The lines `first` to `last`, which of them are blank, and whether all are.
fn collect_lines(chars: &Vec<char>, starts: &Vec<usize>, first: usize, last: usize) -> (res: (
    Vec<Vec<char>>,
    Vec<bool>,
    bool,
))
    requires
        as_ints(starts@) == line_starts(chars@),
        first <= last < starts.len(),
    ensures
        res.0@.len() == last - first + 1,
        res.1@.len() == last - first + 1,
        forall|j: int|
            0 <= j <= last - first ==> (#[trigger] res.0@[j])@ == region_lines(
                chars@,
                first as int,
                last as int,
            )[j],
        forall|j: int|
            0 <= j <= last - first ==> #[trigger] res.1@[j] == is_blank(
                region_lines(chars@, first as int, last as int)[j],
            ),
        res.2 == all_blank(region_lines(chars@, first as int, last as int)),
{
    let ghost s = chars@;
    let ghost ls = region_lines(s, first as int, last as int);
    proof {
        crate::lines::lemma_lines(s);
    }
    assert(starts@.len() == as_ints(starts@).len());
    let n = last - first + 1;
    let mut lines: Vec<Vec<char>> = Vec::new();
    let mut blanks: Vec<bool> = Vec::new();
    let mut all_blank_so_far = true;
    let mut k: usize = 0;
    while k < n
        invariant
            as_ints(starts@) == line_starts(s),
            starts@.len() == line_starts(s).len(),
            s == chars@,
            first <= last < starts.len(),
            n == last - first + 1,
            ls == region_lines(s, first as int, last as int),
            k <= n,
            lines@.len() == k,
            blanks@.len() == k,
            forall|j: int| 0 <= j < k ==> (#[trigger] lines@[j])@ == ls[j],
            forall|j: int| 0 <= j < k ==> #[trigger] blanks@[j] == is_blank(ls[j]),
            all_blank_so_far == forall|j: int| 0 <= j < k ==> is_blank(#[trigger] ls[j]),
        decreases n - k,
    {
        let line = first + k;
        assert(starts@[line as int] as int == line_starts(s)[line as int]);
        let from = starts[line];
        let to = line_end_of(chars, &starts, line);
        let text = slice(chars, from, to);
        let blank = blank_range(chars, from, to);
        assert(ls[k as int] == line_text(s, line as int));
        lines.push(text);
        blanks.push(blank);
        all_blank_so_far = all_blank_so_far && blank;
        k = k + 1;
    }
    (lines, blanks, all_blank_so_far)
}

/// Whether every touched line already carries the marker.
fn strips_marker(
    lines: &Vec<Vec<char>>,
    blanks: &Vec<bool>,
    every_blank: bool,
    marker: &Vec<char>,
    Ghost(ls): Ghost<Seq<Seq<char>>>,
) -> (strip: bool)
    requires
        lines@.len() == ls.len(),
        blanks@.len() == ls.len(),
        forall|j: int| 0 <= j < ls.len() ==> (#[trigger] lines@[j])@ == ls[j],
        forall|j: int| 0 <= j < ls.len() ==> #[trigger] blanks@[j] == is_blank(ls[j]),
        every_blank == all_blank(ls),
    ensures
        strip == removing(ls, marker@),
{
    let ghost m = marker@;
    let n = lines.len();
    let mut strip = marker.len() > 0;
    let mut k: usize = 0;
    while k < n
        invariant
            n == ls.len(),
            lines@.len() == n,
            blanks@.len() == n,
            forall|j: int| 0 <= j < n ==> (#[trigger] lines@[j])@ == ls[j],
            forall|j: int| 0 <= j < n ==> #[trigger] blanks@[j] == is_blank(ls[j]),
            every_blank == all_blank(ls),
            k <= n,
            strip == (m.len() > 0 && forall|j: int|
                0 <= j < k && touched(ls, #[trigger] ls[j]) ==> has_marker(ls[j], m)),
            m == marker@,
        decreases n - k,
    {
        let touched_line = every_blank || !blanks[k];
        assert(lines@[k as int]@ == ls[k as int]);
        if touched_line && !(marker.len() > 0 && matches_at(&lines[k], 0, marker)) {
            strip = false;
        }
        k = k + 1;
    }
    strip
}

/// The rewritten lines joined, where each of them starts in the new document,
/// and how long each is.
#[verifier::rlimit(40)]
fn rebuild(
    lines: &Vec<Vec<char>>,
    blanks: &Vec<bool>,
    every_blank: bool,
    strip: bool,
    marker: &Vec<char>,
    replaces_heading: bool,
    region_start: usize,
    Ghost(s): Ghost<Seq<char>>,
    Ghost(first): Ghost<int>,
    Ghost(last): Ghost<int>,
) -> (res: (Vec<char>, Vec<usize>, Vec<usize>))
    requires
        0 <= first <= last < crate::lines::line_count(s),
        region_start == line_starts(s)[first],
        lines@.len() == last - first + 1,
        blanks@.len() == last - first + 1,
        forall|j: int|
            0 <= j <= last - first ==> (#[trigger] lines@[j])@ == region_lines(s, first, last)[j],
        forall|j: int|
            0 <= j <= last - first ==> #[trigger] blanks@[j] == is_blank(
                region_lines(s, first, last)[j],
            ),
        every_blank == all_blank(region_lines(s, first, last)),
        strip == removing(region_lines(s, first, last), marker@),
        (s.len() + 1) * marker@.len() + 3 * s.len() + 3 * marker@.len() + 8 <= usize::MAX,
    ensures
        ({
            let ls = region_lines(s, first, last);
            let rw = rewritten(ls, marker@, replaces_heading);
            &&& res.0@ == join_lines(rw)
            &&& res.1@.len() == ls.len()
            &&& res.2@.len() == ls.len()
            &&& forall|j: int|
                0 <= j < ls.len() ==> #[trigger] res.1@[j] == region_start + lead(rw, j)
            &&& forall|j: int| 0 <= j < ls.len() ==> #[trigger] res.2@[j] == rw[j].len()
            &&& forall|j: int| 0 <= j < ls.len() ==> rw[j].len() <= ls[j].len() + marker@.len()
            &&& forall|j: int|
                0 <= j < ls.len() ==> res.1@[j] + s.len() + ls[j].len() + marker@.len()
                    <= usize::MAX
        }),
{
    let ghost m = marker@;
    let ghost ls = region_lines(s, first, last);
    let ghost rw = rewritten(ls, m, replaces_heading);
    proof {
        crate::lines::lemma_lines(s);
        crate::lines::lemma_starts_upto(s, s.len() as int);
    }
    let n = lines.len();
    let mut out: Vec<char> = Vec::new();
    let mut new_starts: Vec<usize> = Vec::new();
    let mut rw_lens: Vec<usize> = Vec::new();
    let mut k: usize = 0;
    while k < n
        invariant
            n == ls.len(),
            lines@.len() == n,
            blanks@.len() == n,
            forall|j: int| 0 <= j < n ==> (#[trigger] lines@[j])@ == ls[j],
            forall|j: int| 0 <= j < n ==> #[trigger] blanks@[j] == is_blank(ls[j]),
            every_blank == all_blank(ls),
            strip == removing(ls, m),
            rw == rewritten(ls, m, replaces_heading),
            m == marker@,
            k <= n,
            n <= s.len() + 1,
            out@ == join_lines(rw.take(k as int)),
            new_starts@.len() == k,
            rw_lens@.len() == k,
            forall|j: int|
                0 <= j < k ==> #[trigger] new_starts@[j] == region_start + lead(rw, j),
            forall|j: int| 0 <= j < k ==> #[trigger] rw_lens@[j] == rw[j].len(),
            forall|j: int| 0 <= j < k ==> rw[j].len() <= ls[j].len() + m.len(),
            k > 0 ==> out@.len() + 1 == lead(rw, k as int),
            k == 0 ==> out@.len() == 0,
            lead(rw, k as int) <= lead(ls, k as int) + k * m.len(),
            lead(ls, k as int) <= s.len() + 1,
            region_start <= s.len(),
            (s.len() + 1) * m.len() + 3 * s.len() + 3 * m.len() + 8 <= usize::MAX,
            ls == region_lines(s, first, last),
            0 <= first <= last < line_starts(s).len(),
            n == last - first + 1,
        decreases n - k,
    {
        proof {
            assert(k * m.len() <= (s.len() + 1) * m.len()) by (nonlinear_arith)
                requires
                    k <= s.len() + 1,
            ;
            lemma_lead_nonneg(rw, k as int);
        }
        if k > 0 {
            out.push('\n');
        }
        new_starts.push(region_start + out.len());
        let touched_line = every_blank || !blanks[k];
        assert(lines@[k as int]@ == ls[k as int]);
        assert(ls[k as int].len() <= s.len()) by {
            crate::lines::lemma_lines(s);
            assert(ls[k as int] == line_text(s, first + k));
            assert(0 <= line_starts(s)[first + k] <= line_end(s, first + k) <= s.len());
        }
        let line_out = rewrite_one(&lines[k], marker, replaces_heading, touched_line, strip);
        assert(line_out@ == rw[k as int]);
        rw_lens.push(line_out.len());
        extend_with(&mut out, &line_out, 0, line_out.len());
        assert(line_out@.subrange(0, line_out@.len() as int) =~= line_out@);
        proof {
            lemma_join_take(rw, k as int);
            assert((k + 1) * m.len() == k * m.len() + m.len()) by (nonlinear_arith);
            assert(lead(ls, k + 1) <= s.len() + 1) by {
                crate::lines::lemma_lines(s);
                lemma_lead_of_lines(s, first, last, k + 1);
                assert(0 <= line_starts(s)[first + k] <= line_end(s, first + k) <= s.len());
            }
        }
        k = k + 1;
    }
    assert(rw.take(n as int) =~= rw);
    proof {
        crate::lines::lemma_lines(s);
        assert(n * m.len() <= (s.len() + 1) * m.len()) by (nonlinear_arith)
            requires
                n <= s.len() + 1,
        ;
        assert forall|j: int| 0 <= j < n implies new_starts@[j] + s.len() + ls[j].len() + m.len()
            <= usize::MAX by {
            lemma_lead_nonneg(rw, j);
            lemma_lead_monotone(rw, j, n as int);
            assert(ls[j] == line_text(s, first + j));
            assert(0 <= line_starts(s)[first + j] <= line_end(s, first + j) <= s.len());
        }
    }
    (out, new_starts, rw_lens)
}

#[verifier::rlimit(60)]
fn prefix(
    chars: &Vec<char>,
    low: usize,
    high: usize,
    marker: &Vec<char>,
    replaces_heading: bool,
) -> (r: Option<Replacement>)
    requires
        low <= high <= chars.len(),
        prefix_room(chars.len() as int, marker.len() as int),
    ensures
        view_of(r) == prefix_change(chars@, low as int, high as int, marker@, replaces_heading),
{
    let ghost s = chars@;
    let ghost m = marker@;
    let starts = line_starts_of(chars);
    assert(starts@.len() == as_ints(starts@).len());
    let first = line_index(chars, &starts, low);
    let last = if high > low && chars[high - 1] == '\n' {
        line_index(chars, &starts, high - 1)
    } else {
        line_index(chars, &starts, high)
    };
    proof {
        if high > low && chars@[high - 1] == '\n' {
            crate::lines::lemma_newlines_monotone(s, low as int, high - 1);
        } else {
            crate::lines::lemma_newlines_monotone(s, low as int, high as int);
        }
    }
    let ghost ls = region_lines(s, first as int, last as int);
    let ghost rw = rewritten(ls, m, replaces_heading);
    assert(starts@[first as int] as int == line_starts(s)[first as int]);
    let region_start = starts[first];
    let region_end = line_end_of(chars, &starts, last);
    let (lines, blanks, every_blank) = collect_lines(chars, &starts, first, last);
    let strip = strips_marker(&lines, &blanks, every_blank, marker, Ghost(ls));
    let (out, new_starts, rw_lens) = rebuild(
        &lines,
        &blanks,
        every_blank,
        strip,
        marker,
        replaces_heading,
        region_start,
        Ghost(s),
        Ghost(first as int),
        Ghost(last as int),
    );
    assert(line_starts(s)[first as int] <= line_starts(s)[last as int]) by {
        crate::lines::lemma_lines(s);
    }
    let region = slice(chars, region_start, region_end);
    if same_chars(&out, &region) {
        return None;
    }
    let whole_lines = low != high && (low == 0 || chars[low - 1] == '\n');
    let sel_start = moved_to(
        chars,
        &starts,
        first,
        last,
        &lines,
        &rw_lens,
        &new_starts,
        low,
        whole_lines,
        Ghost(ls),
        Ghost(rw),
        Ghost(m.len() as int),
    );
    let sel_end = moved_to(
        chars,
        &starts,
        first,
        last,
        &lines,
        &rw_lens,
        &new_starts,
        high,
        false,
        Ghost(ls),
        Ghost(rw),
        Ghost(m.len() as int),
    );
    Some(
        Replacement {
            start: region_start,
            end: region_end,
            text: string_of(&out),
            selection: (sel_start, sel_end),
        },
    )
}

proof fn lemma_lead_monotone(ls: Seq<Seq<char>>, i: int, j: int)
    requires
        i <= j,
    ensures
        lead(ls, i) <= lead(ls, j),
    decreases j - i,
{
    if i < j {
        lemma_lead_monotone(ls, i, j - 1);
        lemma_lead_nonneg(ls, j - 1);
    }
}

/// The edit `command` makes at `selection`, clamped to the text.
/// The selection as a command sees it: its two ends in order, each clamped
/// to the document.
pub open spec fn clamped_selection(len: int, a: int, b: int) -> (int, int) {
    let lo = if a < b {
        a
    } else {
        b
    };
    let hi = if a < b {
        b
    } else {
        a
    };
    (if lo < len {
        lo
    } else {
        len
    }, if hi < len {
        hi
    } else {
        len
    })
}

pub open spec fn apply_change(
    s: Seq<char>,
    a: int,
    b: int,
    command: Command,
    edit: Option<Edit>,
) -> Option<Change> {
    let (low, high) = clamped_selection(s.len() as int, a, b);
    if command == Command::Paragraph {
        prefix_change(s, low, high, seq![], true)
    } else {
        match edit {
            None => None,
            Some(Edit::Wrap { before, after }) => Some(
                wrap_change(s, low, high, before@, after@),
            ),
            Some(Edit::Prefix { prefix }) => prefix_change(
                s,
                low,
                high,
                prefix@,
                command is Heading,
            ),
            Some(Edit::Block { text, caret }) => Some(block_change(s, high, text@, caret as int)),
        }
    }
}

/// Work out the single edit `command` makes to `text` at `selection`, given
/// what the scanner says the command writes (`edit`; `Paragraph` needs none).
///
/// `None` when there is nothing to do. Offsets are characters, and are
/// clamped rather than trusted: a stale selection from a buffer that changed
/// underneath must not index past the end of a string.
pub fn apply(text: &str, selection: (usize, usize), command: Command, edit: Option<Edit>) -> (r:
    Option<Replacement>)
    requires
        fits(text@.len() as int, command, edit),
    ensures
        view_of(r) == apply_change(
            text@,
            selection.0 as int,
            selection.1 as int,
            command,
            edit,
        ),
{
    let chars = chars_of(text);
    let len = chars.len();
    let lo = if selection.0 < selection.1 {
        selection.0
    } else {
        selection.1
    };
    let hi = if selection.0 < selection.1 {
        selection.1
    } else {
        selection.0
    };
    let low = if lo < len {
        lo
    } else {
        len
    };
    let high = if hi < len {
        hi
    } else {
        len
    };
    if command == Command::Paragraph {
        let empty: Vec<char> = Vec::new();
        return prefix(&chars, low, high, &empty, true);
    }
    match edit {
        None => None,
        Some(Edit::Wrap { before, after }) => {
            let b = chars_of(before.as_str());
            let a = chars_of(after.as_str());
            Some(wrap(&chars, low, high, &b, &a))
        },
        Some(Edit::Prefix { prefix: marker }) => {
            let m = chars_of(marker.as_str());
            let heading = match command {
                Command::Heading(_) => true,
                _ => false,
            };
            prefix(&chars, low, high, &m, heading)
        },
        Some(Edit::Block { text: inserted, caret }) => {
            let t = chars_of(inserted.as_str());
            Some(block(&chars, high, &t, caret))
        },
    }
}

/// Pressing a wrapping command twice gives back what you started with. When
/// the selection is not already marked up, the first press puts the markers
/// on; the second, on the selection the first one left, takes them off again
/// and leaves the original text with the original selection.
pub proof fn lemma_wrap_twice_restores(
    s: Seq<char>,
    a: int,
    b: int,
    command: Command,
    before: String,
    after: String,
)
    requires
        command != Command::Paragraph,
        0 <= a,
        0 <= b,
        ({
            let (low, high) = clamped_selection(s.len() as int, a, b);
            &&& !marked_outside(s, low, high, before@, after@)
            &&& !marked_inside(s, low, high, before@, after@)
        }),
    ensures
        ({
            let edit = Some(Edit::Wrap { before, after });
            let on = apply_change(s, a, b, command, edit);
            let t = applied(s, on.unwrap());
            let off = apply_change(t, on.unwrap().sel_start, on.unwrap().sel_end, command, edit);
            &&& on is Some
            &&& off is Some
            &&& before@.len() + after@.len() > 0 ==> t != s
            &&& applied(t, off.unwrap()) == s
            &&& (off.unwrap().sel_start, off.unwrap().sel_end) == clamped_selection(
                s.len() as int,
                a,
                b,
            )
        }),
{
    let (low, high) = clamped_selection(s.len() as int, a, b);
    let edit = Some(Edit::Wrap { before, after });
    let on = wrap_change(s, low, high, before@, after@);
    assert(apply_change(s, a, b, command, edit) == Some(on));
    lemma_wrap_change_twice(s, low, high, before@, after@);
    let t = applied(s, on);
    assert(clamped_selection(t.len() as int, on.sel_start, on.sel_end) == (on.sel_start, on.sel_end));
    assert(apply_change(t, on.sel_start, on.sel_end, command, edit) == Some(
        wrap_change(t, on.sel_start, on.sel_end, before@, after@),
    ));
}

/// Pressing a wrapping command on a selection that is already marked up takes
/// the markers off, and pressing it again puts them back: the text comes back
/// as it was, and where the markers were outside the selection, so does the
/// selection. That needs what is left once the markers are off not to be
/// marked up in its turn, as the inside of `****x****` is.
pub proof fn lemma_wrap_off_then_on(
    s: Seq<char>,
    a: int,
    b: int,
    command: Command,
    before: String,
    after: String,
)
    requires
        command != Command::Paragraph,
        0 <= a,
        0 <= b,
        ({
            let (low, high) = clamped_selection(s.len() as int, a, b);
            let off = wrap_change(s, low, high, before@, after@);
            let t = applied(s, off);
            &&& marked_outside(s, low, high, before@, after@) || marked_inside(
                s,
                low,
                high,
                before@,
                after@,
            )
            &&& !marked_outside(t, off.sel_start, off.sel_end, before@, after@)
            &&& !marked_inside(t, off.sel_start, off.sel_end, before@, after@)
        }),
    ensures
        ({
            let edit = Some(Edit::Wrap { before, after });
            let (low, high) = clamped_selection(s.len() as int, a, b);
            let off = apply_change(s, a, b, command, edit);
            let t = applied(s, off.unwrap());
            let on = apply_change(t, off.unwrap().sel_start, off.unwrap().sel_end, command, edit);
            &&& off is Some
            &&& on is Some
            &&& applied(t, on.unwrap()) == s
            &&& marked_outside(s, low, high, before@, after@) ==> (
                on.unwrap().sel_start,
                on.unwrap().sel_end,
            ) == (low, high)
        }),
{
    let (low, high) = clamped_selection(s.len() as int, a, b);
    let edit = Some(Edit::Wrap { before, after });
    let off = wrap_change(s, low, high, before@, after@);
    assert(apply_change(s, a, b, command, edit) == Some(off));
    lemma_wrap_change_off_on(s, low, high, before@, after@);
    let t = applied(s, off);
    assert(clamped_selection(t.len() as int, off.sel_start, off.sel_end) == (
        off.sel_start,
        off.sel_end,
    ));
    assert(apply_change(t, off.sel_start, off.sel_end, command, edit) == Some(
        wrap_change(t, off.sel_start, off.sel_end, before@, after@),
    ));
}

proof fn lemma_wrap_change_off_on(s: Seq<char>, low: int, high: int, bf: Seq<char>, af: Seq<char>)
    requires
        0 <= low <= high <= s.len(),
        marked_outside(s, low, high, bf, af) || marked_inside(s, low, high, bf, af),
        ({
            let off = wrap_change(s, low, high, bf, af);
            let t = applied(s, off);
            &&& !marked_outside(t, off.sel_start, off.sel_end, bf, af)
            &&& !marked_inside(t, off.sel_start, off.sel_end, bf, af)
        }),
    ensures
        ({
            let off = wrap_change(s, low, high, bf, af);
            let t = applied(s, off);
            let on = wrap_change(t, off.sel_start, off.sel_end, bf, af);
            &&& 0 <= off.sel_start <= off.sel_end <= t.len()
            &&& applied(t, on) == s
            &&& marked_outside(s, low, high, bf, af) ==> on.sel_start == low && on.sel_end
                == high
        }),
{
    let off = wrap_change(s, low, high, bf, af);
    let t = applied(s, off);
    let (l2, h2) = (off.sel_start, off.sel_end);
    if marked_outside(s, low, high, bf, af) {
        assert(t =~= s.subrange(0, low - bf.len()) + s.subrange(low, high) + s.subrange(
            high + af.len(),
            s.len() as int,
        ));
        assert(t.subrange(l2, h2) =~= s.subrange(low, high));
        assert(s =~= s.subrange(0, low - bf.len()) + bf + s.subrange(low, high) + af
            + s.subrange(high + af.len(), s.len() as int));
    } else {
        assert(t =~= s.subrange(0, low) + s.subrange(low + bf.len(), high - af.len())
            + s.subrange(high, s.len() as int));
        assert(t.subrange(l2, h2) =~= s.subrange(low + bf.len(), high - af.len()));
        assert(s =~= s.subrange(0, low) + bf + s.subrange(low + bf.len(), high - af.len()) + af
            + s.subrange(high, s.len() as int));
    }
    let on = wrap_change(t, l2, h2, bf, af);
    assert(on.text =~= bf + t.subrange(l2, h2) + af);
    assert(applied(t, on) =~= s);
}

proof fn lemma_wrap_change_twice(s: Seq<char>, low: int, high: int, bf: Seq<char>, af: Seq<char>)
    requires
        0 <= low <= high <= s.len(),
        !marked_outside(s, low, high, bf, af),
        !marked_inside(s, low, high, bf, af),
    ensures
        ({
            let on = wrap_change(s, low, high, bf, af);
            let t = applied(s, on);
            let off = wrap_change(t, on.sel_start, on.sel_end, bf, af);
            &&& 0 <= on.sel_start <= on.sel_end <= t.len()
            &&& t.len() == s.len() + bf.len() + af.len()
            &&& applied(t, off) == s
            &&& off.sel_start == low
            &&& off.sel_end == high
        }),
{
    let on = wrap_change(s, low, high, bf, af);
    let t = applied(s, on);
    let inner = s.subrange(low, high);
    assert(t =~= s.subrange(0, low) + bf + inner + af + s.subrange(high, s.len() as int));
    let (l2, h2) = (low + bf.len(), low + bf.len() + (high - low));
    assert(t.subrange(l2 - bf.len(), l2) =~= bf);
    assert(t.subrange(h2, h2 + af.len()) =~= af);
    assert(marked_outside(t, l2, h2, bf, af));
    let off = wrap_change(t, l2, h2, bf, af);
    assert(off.text =~= inner);
    assert(applied(t, off) =~= s);
}

/// Whether `pat` occurs in `s` at offset `at`.
pub open spec fn occurs_at(s: Seq<char>, at: int, pat: Seq<char>) -> bool {
    0 <= at && at + pat.len() <= s.len() && s.subrange(at, at + pat.len()) == pat
}

fn matches_at(chars: &Vec<char>, at: usize, pat: &Vec<char>) -> (b: bool)
    requires
        at <= chars.len(),
    ensures
        b == occurs_at(chars@, at as int, pat@),
{
    if pat.len() > chars.len() - at {
        return false;
    }
    let mut i: usize = 0;
    while i < pat.len()
        invariant
            at + pat.len() <= chars.len(),
            i <= pat.len(),
            forall|k: int| 0 <= k < i ==> chars@[at + k] == pat@[k],
        decreases pat.len() - i,
    {
        if chars[at + i] != pat[i] {
            assert(chars@.subrange(at as int, at + pat.len())[i as int] != pat@[i as int]);
            return false;
        }
        i = i + 1;
    }
    assert(chars@.subrange(at as int, at + pat.len()) =~= pat@);
    true
}

/// Append `src[from..to]` to `out`.
fn extend_with(out: &mut Vec<char>, src: &Vec<char>, from: usize, to: usize)
    requires
        from <= to <= src.len(),
    ensures
        final(out)@ == old(out)@ + src@.subrange(from as int, to as int),
{
    let ghost start = out@;
    let mut i = from;
    while i < to
        invariant
            from <= i <= to <= src.len(),
            out@ == start + src@.subrange(from as int, i as int),
        decreases to - i,
    {
        out.push(src[i]);
        i = i + 1;
        assert(out@ =~= start + src@.subrange(from as int, i as int));
    }
}

fn slice(src: &Vec<char>, from: usize, to: usize) -> (v: Vec<char>)
    requires
        from <= to <= src.len(),
    ensures
        v@ == src@.subrange(from as int, to as int),
{
    let mut v: Vec<char> = Vec::new();
    extend_with(&mut v, src, from, to);
    assert(v@ =~= src@.subrange(from as int, to as int));
    v
}

fn wrap(chars: &Vec<char>, low: usize, high: usize, before: &Vec<char>, after: &Vec<char>) -> (r:
    Replacement)
    requires
        low <= high <= chars.len(),
        chars.len() + before.len() + after.len() <= usize::MAX,
    ensures
        r@ == wrap_change(chars@, low as int, high as int, before@, after@),
{
    let b = before.len();
    let a = after.len();
    let outside = low >= b && high + a <= chars.len() && matches_at(chars, low - b, before)
        && matches_at(chars, high, after);
    if outside {
        let start = low - b;
        let inner = slice(chars, low, high);
        return Replacement {
            start,
            end: high + a,
            text: string_of(&inner),
            selection: (start, start + (high - low)),
        };
    }
    let inside = high - low >= b + a && matches_at(chars, low, before) && matches_at(
        chars,
        high - a,
        after,
    );
    if inside {
        let inner = slice(chars, low + b, high - a);
        return Replacement {
            start: low,
            end: high,
            text: string_of(&inner),
            selection: (low, low + (high - low - b - a)),
        };
    }
    let mut t: Vec<char> = Vec::new();
    extend_with(&mut t, before, 0, b);
    extend_with(&mut t, chars, low, high);
    extend_with(&mut t, after, 0, a);
    assert(before@.subrange(0, b as int) =~= before@);
    assert(after@.subrange(0, a as int) =~= after@);
    Replacement { start: low, end: high, text: string_of(&t), selection: (low + b, low + b + (high - low)) }
}

fn blank_range(chars: &Vec<char>, from: usize, to: usize) -> (b: bool)
    requires
        from <= to <= chars.len(),
    ensures
        b == is_blank(chars@.subrange(from as int, to as int)),
{
    let mut i = from;
    while i < to
        invariant
            from <= i <= to <= chars.len(),
            forall|k: int| from <= k < i ==> whitespace(chars@[k]),
        decreases to - i,
    {
        if !is_whitespace(chars[i]) {
            assert(!whitespace(chars@.subrange(from as int, to as int)[i - from]));
            return false;
        }
        i = i + 1;
    }
    assert forall|k: int| 0 <= k < to - from implies whitespace(
        #[trigger] chars@.subrange(from as int, to as int)[k],
    ) by {
        assert(chars@.subrange(from as int, to as int)[k] == chars@[from + k]);
    }
    true
}

fn block(chars: &Vec<char>, high: usize, inserted: &Vec<char>, caret: usize) -> (r: Replacement)
    requires
        high <= chars.len(),
        chars.len() + 1 + inserted.len() + caret <= usize::MAX,
    ensures
        r@ == block_change(chars@, high as int, inserted@, caret as int),
{
    proof {
        crate::lines::lemma_lines(chars@);
    }
    let starts = line_starts_of(chars);
    assert(starts@.len() == as_ints(starts@).len());
    let line = line_index(chars, &starts, high);
    assert(starts@[line as int] as int == line_starts(chars@)[line as int]);
    let start = starts[line];
    let end = line_end_of(chars, &starts, line);
    let blank = blank_range(chars, start, end);
    let mut t: Vec<char> = Vec::new();
    let at = if blank {
        start
    } else if end < chars.len() {
        end + 1
    } else {
        t.push('\n');
        chars.len()
    };
    let lead = t.len();
    extend_with(&mut t, inserted, 0, inserted.len());
    assert(inserted@.subrange(0, inserted@.len() as int) =~= inserted@);
    let c = at + lead + caret;
    Replacement { start: at, end: at, text: string_of(&t), selection: (c, c) }
}

/// The command whose id is `id`, if any.
pub open spec fn command_with_id(id: Seq<char>) -> Option<Command> {
    if id == "bold"@ {
        Some(Command::Bold)
    } else if id == "italic"@ {
        Some(Command::Italic)
    } else if id == "strikethrough"@ {
        Some(Command::Strikethrough)
    } else if id == "code"@ {
        Some(Command::Code)
    } else if id == "link"@ {
        Some(Command::Link)
    } else if id == "paragraph"@ {
        Some(Command::Paragraph)
    } else if id == "heading-1"@ {
        Some(Command::Heading(1))
    } else if id == "heading-2"@ {
        Some(Command::Heading(2))
    } else if id == "heading-3"@ {
        Some(Command::Heading(3))
    } else if id == "quote"@ {
        Some(Command::Quote)
    } else if id == "bullet"@ {
        Some(Command::Bullet)
    } else if id == "task"@ {
        Some(Command::Task)
    } else if id == "code-block"@ {
        Some(Command::CodeBlock)
    } else if id == "table"@ {
        Some(Command::Table)
    } else if id == "rule"@ {
        Some(Command::Rule)
    } else {
        None
    }
}

impl Command {
    /// Stable across releases: it is the target of the menu action.
    pub fn id(self) -> (id: &'static str)
        ensures
            id@ == id_of(self),
    {
        match self {
            Command::Bold => "bold",
            Command::Italic => "italic",
            Command::Strikethrough => "strikethrough",
            Command::Code => "code",
            Command::Link => "link",
            Command::Paragraph => "paragraph",
            Command::Heading(level) => if level == 1 {
                "heading-1"
            } else if level == 2 {
                "heading-2"
            } else {
                "heading-3"
            },
            Command::Quote => "quote",
            Command::Bullet => "bullet",
            Command::Task => "task",
            Command::CodeBlock => "code-block",
            Command::Table => "table",
            Command::Rule => "rule",
        }
    }

    /// The command whose id is `id`, if any.
    pub fn from_id(id: &str) -> (command: Option<Command>)
        ensures
            command == command_with_id(id@),
    {
        if crate::text::same_text(id, "bold") {
            Some(Command::Bold)
        } else if crate::text::same_text(id, "italic") {
            Some(Command::Italic)
        } else if crate::text::same_text(id, "strikethrough") {
            Some(Command::Strikethrough)
        } else if crate::text::same_text(id, "code") {
            Some(Command::Code)
        } else if crate::text::same_text(id, "link") {
            Some(Command::Link)
        } else if crate::text::same_text(id, "paragraph") {
            Some(Command::Paragraph)
        } else if crate::text::same_text(id, "heading-1") {
            Some(Command::Heading(1))
        } else if crate::text::same_text(id, "heading-2") {
            Some(Command::Heading(2))
        } else if crate::text::same_text(id, "heading-3") {
            Some(Command::Heading(3))
        } else if crate::text::same_text(id, "quote") {
            Some(Command::Quote)
        } else if crate::text::same_text(id, "bullet") {
            Some(Command::Bullet)
        } else if crate::text::same_text(id, "task") {
            Some(Command::Task)
        } else if crate::text::same_text(id, "code-block") {
            Some(Command::CodeBlock)
        } else if crate::text::same_text(id, "table") {
            Some(Command::Table)
        } else if crate::text::same_text(id, "rule") {
            Some(Command::Rule)
        } else {
            None
        }
    }

    /// What the menu item says. Header capitalisation, as the platform wants.
    pub fn label(self) -> (label: &'static str)
        ensures
            label@ == label_of(self),
    {
        match self {
            Command::Bold => "Bold",
            Command::Italic => "Italic",
            Command::Strikethrough => "Strikethrough",
            Command::Code => "Inline Code",
            Command::Link => "Insert Link…",
            Command::Paragraph => "Paragraph",
            Command::Heading(level) => if level == 1 {
                "Heading 1"
            } else if level == 2 {
                "Heading 2"
            } else {
                "Heading 3"
            },
            Command::Quote => "Block Quote",
            Command::Bullet => "Bulleted List",
            Command::Task => "Task List",
            Command::CodeBlock => "Code Block",
            Command::Table => "Table",
            Command::Rule => "Horizontal Rule",
        }
    }

    /// The accelerator, in the platform-neutral `Ctrl`/`Alt` spelling.
    pub fn accelerator(self) -> (accelerator: Option<&'static str>)
        ensures
            match accelerator {
                Some(a) => accelerator_of(self) == Some(a@),
                None => accelerator_of(self) is None,
            },
    {
        match self {
            Command::Bold => Some("Ctrl+B"),
            Command::Italic => Some("Ctrl+I"),
            Command::Code => Some("Ctrl+E"),
            Command::Link => Some("Ctrl+K"),
            Command::Paragraph => Some("Alt+0"),
            Command::Heading(level) => if level == 1 {
                Some("Alt+1")
            } else if level == 2 {
                Some("Alt+2")
            } else {
                Some("Alt+3")
            },
            _ => None,
        }
    }
}


/// No two commands in the menu share an id, and looking up the id of any of
/// them gives that command back.
pub proof fn lemma_command_ids_round_trip()
    ensures
        forall|i: int|
            0 <= i < all_commands_spec().len() ==> command_with_id(
                #[trigger] id_of(all_commands_spec()[i]),
            ) == Some(all_commands_spec()[i]),
        forall|i: int, j: int|
            0 <= i < j < all_commands_spec().len() ==> id_of(all_commands_spec()[i]) != id_of(
                all_commands_spec()[j],
            ),
{
    let all = all_commands_spec();
    assert forall|i: int| 0 <= i < all.len() implies command_with_id(#[trigger] id_of(all[i]))
        == Some(all[i]) by {
        reveal_strlit("bold");
        reveal_strlit("italic");
        reveal_strlit("strikethrough");
        reveal_strlit("code");
        reveal_strlit("link");
        reveal_strlit("paragraph");
        reveal_strlit("heading-1");
        reveal_strlit("heading-2");
        reveal_strlit("heading-3");
        reveal_strlit("quote");
        reveal_strlit("bullet");
        reveal_strlit("task");
        reveal_strlit("code-block");
        reveal_strlit("table");
        reveal_strlit("rule");
        assert("bold"@.len() == 4);
        assert("italic"@.len() == 6);
        assert("strikethrough"@.len() == 13);
        assert("code"@.len() == 4);
        assert("link"@.len() == 4);
        assert("paragraph"@.len() == 9);
        assert("heading-1"@.len() == 9);
        assert("heading-2"@.len() == 9);
        assert("heading-3"@.len() == 9);
        assert("quote"@.len() == 5);
        assert("bullet"@.len() == 6);
        assert("task"@.len() == 4);
        assert("code-block"@.len() == 10);
        assert("table"@.len() == 5);
        assert("rule"@.len() == 4);
        if i == 0 {
            assert(all[0] == Command::Bold);
            assert(id_of(all[0]) == "bold"@);
            assert("bold"@[0] != "code"@[0]);
            assert("bold"@[0] != "link"@[0]);
            assert("bold"@[0] != "task"@[0]);
            assert("bold"@[0] != "rule"@[0]);
            assert(command_with_id("bold"@) == Some(Command::Bold));
        } else if i == 1 {
            assert(all[1] == Command::Italic);
            assert(id_of(all[1]) == "italic"@);
            assert("italic"@[0] != "bullet"@[0]);
            assert(command_with_id("italic"@) == Some(Command::Italic));
        } else if i == 2 {
            assert(all[2] == Command::Strikethrough);
            assert(id_of(all[2]) == "strikethrough"@);

            assert(command_with_id("strikethrough"@) == Some(Command::Strikethrough));
        } else if i == 3 {
            assert(all[3] == Command::Code);
            assert(id_of(all[3]) == "code"@);
            assert("code"@[0] != "bold"@[0]);
            assert("code"@[0] != "link"@[0]);
            assert("code"@[0] != "task"@[0]);
            assert("code"@[0] != "rule"@[0]);
            assert(command_with_id("code"@) == Some(Command::Code));
        } else if i == 4 {
            assert(all[4] == Command::Link);
            assert(id_of(all[4]) == "link"@);
            assert("link"@[0] != "bold"@[0]);
            assert("link"@[0] != "code"@[0]);
            assert("link"@[0] != "task"@[0]);
            assert("link"@[0] != "rule"@[0]);
            assert(command_with_id("link"@) == Some(Command::Link));
        } else if i == 5 {
            assert(all[5] == Command::Paragraph);
            assert(id_of(all[5]) == "paragraph"@);
            assert("paragraph"@[0] != "heading-1"@[0]);
            assert("paragraph"@[0] != "heading-2"@[0]);
            assert("paragraph"@[0] != "heading-3"@[0]);
            assert(command_with_id("paragraph"@) == Some(Command::Paragraph));
        } else if i == 6 {
            assert(all[6] == Command::Heading(1));
            assert(id_of(all[6]) == "heading-1"@);
            assert("heading-1"@[0] != "paragraph"@[0]);
            assert("heading-1"@[8] != "heading-2"@[8]);
            assert("heading-1"@[8] != "heading-3"@[8]);
            assert(command_with_id("heading-1"@) == Some(Command::Heading(1)));
        } else if i == 7 {
            assert(all[7] == Command::Heading(2));
            assert(id_of(all[7]) == "heading-2"@);
            assert("heading-2"@[0] != "paragraph"@[0]);
            assert("heading-2"@[8] != "heading-1"@[8]);
            assert("heading-2"@[8] != "heading-3"@[8]);
            assert(command_with_id("heading-2"@) == Some(Command::Heading(2)));
        } else if i == 8 {
            assert(all[8] == Command::Heading(3));
            assert(id_of(all[8]) == "heading-3"@);
            assert("heading-3"@[0] != "paragraph"@[0]);
            assert("heading-3"@[8] != "heading-1"@[8]);
            assert("heading-3"@[8] != "heading-2"@[8]);
            assert(command_with_id("heading-3"@) == Some(Command::Heading(3)));
        } else if i == 9 {
            assert(all[9] == Command::Quote);
            assert(id_of(all[9]) == "quote"@);
            assert("quote"@[0] != "table"@[0]);
            assert(command_with_id("quote"@) == Some(Command::Quote));
        } else if i == 10 {
            assert(all[10] == Command::Bullet);
            assert(id_of(all[10]) == "bullet"@);
            assert("bullet"@[0] != "italic"@[0]);
            assert(command_with_id("bullet"@) == Some(Command::Bullet));
        } else if i == 11 {
            assert(all[11] == Command::Task);
            assert(id_of(all[11]) == "task"@);
            assert("task"@[0] != "bold"@[0]);
            assert("task"@[0] != "code"@[0]);
            assert("task"@[0] != "link"@[0]);
            assert("task"@[0] != "rule"@[0]);
            assert(command_with_id("task"@) == Some(Command::Task));
        } else if i == 12 {
            assert(all[12] == Command::CodeBlock);
            assert(id_of(all[12]) == "code-block"@);

            assert(command_with_id("code-block"@) == Some(Command::CodeBlock));
        } else if i == 13 {
            assert(all[13] == Command::Table);
            assert(id_of(all[13]) == "table"@);
            assert("table"@[0] != "quote"@[0]);
            assert(command_with_id("table"@) == Some(Command::Table));
        } else if i == 14 {
            assert(all[14] == Command::Rule);
            assert(id_of(all[14]) == "rule"@);
            assert("rule"@[0] != "bold"@[0]);
            assert("rule"@[0] != "code"@[0]);
            assert("rule"@[0] != "link"@[0]);
            assert("rule"@[0] != "task"@[0]);
            assert(command_with_id("rule"@) == Some(Command::Rule));
        }
    }
    assert forall|i: int, j: int| 0 <= i < j < all.len() implies id_of(all[i]) != id_of(all[j]) by {
        if id_of(all[i]) == id_of(all[j]) {
            assert(command_with_id(id_of(all[i])) == Some(all[i]));
            assert(command_with_id(id_of(all[j])) == Some(all[j]));
            if i == 0 {
                assert(all[0] == Command::Bold);
            } else if i == 1 {
                assert(all[1] == Command::Italic);
            } else if i == 2 {
                assert(all[2] == Command::Strikethrough);
            } else if i == 3 {
                assert(all[3] == Command::Code);
            } else if i == 4 {
                assert(all[4] == Command::Link);
            } else if i == 5 {
                assert(all[5] == Command::Paragraph);
            } else if i == 6 {
                assert(all[6] == Command::Heading(1));
            } else if i == 7 {
                assert(all[7] == Command::Heading(2));
            } else if i == 8 {
                assert(all[8] == Command::Heading(3));
            } else if i == 9 {
                assert(all[9] == Command::Quote);
            } else if i == 10 {
                assert(all[10] == Command::Bullet);
            } else if i == 11 {
                assert(all[11] == Command::Task);
            } else if i == 12 {
                assert(all[12] == Command::CodeBlock);
            } else if i == 13 {
                assert(all[13] == Command::Table);
            } else if i == 14 {
                assert(all[14] == Command::Rule);
            }
            if j == 0 {
                assert(all[0] == Command::Bold);
            } else if j == 1 {
                assert(all[1] == Command::Italic);
            } else if j == 2 {
                assert(all[2] == Command::Strikethrough);
            } else if j == 3 {
                assert(all[3] == Command::Code);
            } else if j == 4 {
                assert(all[4] == Command::Link);
            } else if j == 5 {
                assert(all[5] == Command::Paragraph);
            } else if j == 6 {
                assert(all[6] == Command::Heading(1));
            } else if j == 7 {
                assert(all[7] == Command::Heading(2));
            } else if j == 8 {
                assert(all[8] == Command::Heading(3));
            } else if j == 9 {
                assert(all[9] == Command::Quote);
            } else if j == 10 {
                assert(all[10] == Command::Bullet);
            } else if j == 11 {
                assert(all[11] == Command::Task);
            } else if j == 12 {
                assert(all[12] == Command::CodeBlock);
            } else if j == 13 {
                assert(all[13] == Command::Table);
            } else if j == 14 {
                assert(all[14] == Command::Rule);
            }
        }
    }
}

} // verus!
