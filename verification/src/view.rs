//! How much of the document's Markdown is on show, and whether the page is
//! light or dark.
//!
//! Both are settings a reader chooses and the app remembers, so each has a
//! stable id that is what gets written down, and a reading of that id that
//! never fails: a value from a future version or a hand-edited one opens the
//! app in the safe default rather than stopping it.

use vstd::prelude::*;
use crate::style::Mode;
use crate::text::same_text;

verus! {

broadcast use vstd::string::group_string_axioms;

/// How much of the document's Markdown is on show.
#[derive(Debug, Clone, Copy, PartialEq, Eq, Structural)]
pub enum ViewMode {
    /// The syntax of the construct holding the caret, and nothing else.
    Live,
    /// Every marker, for when the Markdown itself is what you are working on.
    Source,
    /// None of it, and no caret: the document as it would be published. The
    /// mode a document opens in.
    Reading,
}

pub open spec fn view_mode_id(mode: ViewMode) -> Seq<char> {
    match mode {
        ViewMode::Live => "live"@,
        ViewMode::Source => "source"@,
        ViewMode::Reading => "reading"@,
    }
}

/// The mode a stored id names; anything unknown opens rendered, the one
/// mode that cannot be typed into by accident.
pub open spec fn view_mode_named(id: Seq<char>) -> ViewMode {
    if id == "live"@ {
        ViewMode::Live
    } else if id == "source"@ {
        ViewMode::Source
    } else {
        ViewMode::Reading
    }
}

/// Whether a marker is on show in `mode`, given whether the caret is where
/// the scanner says reveals it.
pub open spec fn reveals_marker(mode: ViewMode, revealed_by_caret: bool) -> bool {
    match mode {
        ViewMode::Source => true,
        ViewMode::Reading => false,
        ViewMode::Live => revealed_by_caret,
    }
}

impl Default for ViewMode {
    fn default() -> (mode: ViewMode)
        ensures
            mode == ViewMode::Reading,
    {
        ViewMode::Reading
    }
}

impl ViewMode {
    /// Stable across releases: it is the toggle name and the stored setting.
    pub fn id(self) -> (id: &'static str)
        ensures
            id@ == view_mode_id(self),
    {
        match self {
            ViewMode::Live => "live",
            ViewMode::Source => "source",
            ViewMode::Reading => "reading",
        }
    }

    pub fn from_id(id: &str) -> (mode: ViewMode)
        ensures
            mode == view_mode_named(id@),
    {
        if same_text(id, "live") {
            ViewMode::Live
        } else if same_text(id, "source") {
            ViewMode::Source
        } else {
            ViewMode::Reading
        }
    }

    pub fn label(self) -> (label: &'static str)
        ensures
            label@ == (match self {
                ViewMode::Live => "Live"@,
                ViewMode::Source => "Source"@,
                ViewMode::Reading => "Reading"@,
            }),
    {
        match self {
            ViewMode::Live => "Live",
            ViewMode::Source => "Source",
            ViewMode::Reading => "Reading",
        }
    }

    /// Reading is a reader. Typing into a document whose syntax is hidden
    /// everywhere would let you delete a marker you cannot see.
    pub fn editable(self) -> (b: bool)
        ensures
            b == (self != ViewMode::Reading),
    {
        match self {
            ViewMode::Reading => false,
            _ => true,
        }
    }

    /// Whether a syntax marker is on show: every one in source mode, none in
    /// reading mode, and in live mode those the caret is in.
    pub fn reveals(self, revealed_by_caret: bool) -> (shown: bool)
        ensures
            shown == reveals_marker(self, revealed_by_caret),
    {
        match self {
            ViewMode::Source => true,
            ViewMode::Reading => false,
            ViewMode::Live => revealed_by_caret,
        }
    }
}

/// Every mode comes back from its own id, an unknown id opens the reading
/// mode, and only the reading mode refuses edits.
pub proof fn lemma_view_modes_round_trip(mode: ViewMode, unknown: Seq<char>)
    requires
        unknown != "live"@,
        unknown != "source"@,
    ensures
        view_mode_named(view_mode_id(mode)) == mode,
        view_mode_named(unknown) == ViewMode::Reading,
{
    reveal_strlit("live");
    reveal_strlit("source");
    reveal_strlit("reading");
    assert("live"@.len() == 4);
    assert("source"@.len() == 6);
    assert("reading"@.len() == 7);
}

/// How the page decides between light and dark.
#[derive(Debug, Clone, Copy, PartialEq, Eq, Structural)]
pub enum Appearance {
    /// Follow the desktop, which is what an app should do unless told not to.
    System,
    Light,
    Dark,
}

pub open spec fn appearance_id(appearance: Appearance) -> Seq<char> {
    match appearance {
        Appearance::System => "system"@,
        Appearance::Light => "light"@,
        Appearance::Dark => "dark"@,
    }
}

pub open spec fn appearance_named(id: Seq<char>) -> Appearance {
    if id == "light"@ {
        Appearance::Light
    } else if id == "dark"@ {
        Appearance::Dark
    } else {
        Appearance::System
    }
}

/// The mode an appearance resolves to, given the desktop's preference.
pub open spec fn resolved(appearance: Appearance, system_is_dark: bool) -> Mode {
    match appearance {
        Appearance::Light => Mode::Light,
        Appearance::Dark => Mode::Dark,
        Appearance::System => if system_is_dark {
            Mode::Dark
        } else {
            Mode::Light
        },
    }
}

impl Default for Appearance {
    fn default() -> (appearance: Appearance)
        ensures
            appearance == Appearance::System,
    {
        Appearance::System
    }
}

impl Appearance {
    pub fn id(self) -> (id: &'static str)
        ensures
            id@ == appearance_id(self),
    {
        match self {
            Appearance::System => "system",
            Appearance::Light => "light",
            Appearance::Dark => "dark",
        }
    }

    pub fn from_id(id: &str) -> (appearance: Appearance)
        ensures
            appearance == appearance_named(id@),
    {
        if same_text(id, "light") {
            Appearance::Light
        } else if same_text(id, "dark") {
            Appearance::Dark
        } else {
            Appearance::System
        }
    }

    /// The mode this resolves to, given what the desktop is currently set to.
    pub fn resolve(self, system_is_dark: bool) -> (mode: Mode)
        ensures
            mode == resolved(self, system_is_dark),
    {
        match self {
            Appearance::Light => Mode::Light,
            Appearance::Dark => Mode::Dark,
            Appearance::System => if system_is_dark {
                Mode::Dark
            } else {
                Mode::Light
            },
        }
    }
}

/// Every appearance comes back from its own id and an unknown id follows the
/// desktop; only the system setting follows the desktop, and an explicit
/// choice holds whatever the desktop says.
pub proof fn lemma_appearance_round_trip(appearance: Appearance, unknown: Seq<char>, dark: bool)
    requires
        unknown != "light"@,
        unknown != "dark"@,
    ensures
        appearance_named(appearance_id(appearance)) == appearance,
        appearance_named(unknown) == Appearance::System,
        appearance != Appearance::System ==> resolved(appearance, dark) == resolved(
            appearance,
            !dark,
        ),
        resolved(Appearance::System, dark) == (if dark {
            Mode::Dark
        } else {
            Mode::Light
        }),
{
    reveal_strlit("system");
    reveal_strlit("light");
    reveal_strlit("dark");
    assert("system"@.len() == 6);
    assert("light"@.len() == 5);
    assert("dark"@.len() == 4);
}

} // verus!
