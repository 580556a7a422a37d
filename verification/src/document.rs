//! The open file.
//!
//! Reading and writing the disk are the frontend's: it hands this module what
//! a read gave back and what a write came to, and this module decides what the
//! document is afterwards and what the window is told.

use vstd::prelude::*;
use vstd::utf8::{decode_utf8, valid_utf8};
use crate::scan::{Scan, Span, SpanStyle};
use crate::text::{
    chars_of, decimal, push_decimal, push_str, same_chars, string_of, trim_range, trimmed,
};

verus! {

broadcast use vstd::string::group_string_axioms;

/// Everything that can go wrong opening or saving, in the words the banner
/// would use.
#[derive(Debug, Clone, PartialEq, Eq)]
pub enum DocumentError {
    NotFound,
    /// The file exists and cannot be read or written: permissions, a full
    /// disk, a disconnected share.
    Denied(String),
    /// Not text. Opening it as text and writing it back would destroy it.
    NotText,
    /// Save was asked for on a document that has never had a path.
    NoPath,
}

/// How a read or a write of the disk failed, as the frontend saw it.
#[derive(Debug, Clone, PartialEq, Eq)]
pub enum IoError {
    /// Nothing is at the path.
    NotFound,
    /// Anything else, with the system's description of it.
    Other(String),
}

/// A moment, as the time since the Unix epoch; negative before it.
#[derive(Debug, Clone, Copy, PartialEq, Eq, Structural)]
pub struct Timestamp {
    pub nanos_since_epoch: i128,
}

impl Timestamp {
    pub fn from_secs(secs: u64) -> (t: Timestamp)
        ensures
            t.nanos_since_epoch == secs * 1_000_000_000,
    {
        Timestamp { nanos_since_epoch: secs as i128 * 1_000_000_000 }
    }

    /// A clock reading: `nanos` after the epoch, or before it. A reading
    /// too far off to hold is held at the furthest moment that can be.
    pub fn from_reading(after_epoch: bool, nanos: u128) -> (t: Timestamp)
        ensures
            ({
                let held = if nanos > i128::MAX {
                    i128::MAX as int
                } else {
                    nanos as int
                };
                t.nanos_since_epoch == if after_epoch {
                    held
                } else {
                    -held
                }
            }),
    {
        let held: i128 = if nanos > i128::MAX as u128 {
            i128::MAX
        } else {
            nanos as i128
        };
        if after_epoch {
            Timestamp { nanos_since_epoch: held }
        } else {
            Timestamp { nanos_since_epoch: -held }
        }
    }
}

/// Where a document lives: the path as given, and the two parts of it that
/// the window shows.
#[derive(Debug, Clone, PartialEq, Eq)]
pub struct DocPath {
    pub full: String,
    /// The last component, if the path has one.
    pub file_name: Option<String>,
    /// Everything before the last component, if there is anything.
    pub parent: Option<String>,
}

pub struct DocPathView {
    pub full: Seq<char>,
    pub file_name: Option<Seq<char>>,
    pub parent: Option<Seq<char>>,
}

pub open spec fn opt_view(o: Option<String>) -> Option<Seq<char>> {
    match o {
        Some(s) => Some(s@),
        None => None,
    }
}

impl View for DocPath {
    type V = DocPathView;

    open spec fn view(&self) -> DocPathView {
        DocPathView {
            full: self.full@,
            file_name: opt_view(self.file_name),
            parent: opt_view(self.parent),
        }
    }
}

/// A Markdown document, open or unsaved.
#[derive(Debug, Clone)]
pub struct Document {
    path: Option<DocPath>,
    text: String,
    /// The text as it is on disk. Comparing against it is what "modified"
    /// means, so typing a character and deleting it again leaves the
    /// document clean.
    saved: String,
    modified_at: Option<Timestamp>,
}

pub struct DocumentModel {
    pub path: Option<DocPathView>,
    pub text: Seq<char>,
    pub saved: Seq<char>,
    pub modified_at: Option<Timestamp>,
}

impl View for Document {
    type V = DocumentModel;

    closed spec fn view(&self) -> DocumentModel {
        DocumentModel {
            path: match self.path {
                Some(p) => Some(p@),
                None => None,
            },
            text: self.text@,
            saved: self.saved@,
            modified_at: self.modified_at,
        }
    }
}

/// Whether the text differs from what is on disk.
pub open spec fn modified(d: DocumentModel) -> bool {
    d.text != d.saved
}

/// The document with its text replaced.
pub open spec fn with_text(d: DocumentModel, text: Seq<char>) -> DocumentModel {
    DocumentModel { text, ..d }
}

/// The document once its text has been written to its own path.
pub open spec fn after_save(d: DocumentModel, written_at: Option<Timestamp>) -> DocumentModel {
    DocumentModel { saved: d.text, modified_at: written_at, ..d }
}

/// The document once its text has been written to `path`, which it adopts.
pub open spec fn after_save_as(
    d: DocumentModel,
    path: DocPathView,
    written_at: Option<Timestamp>,
) -> DocumentModel {
    DocumentModel { path: Some(path), text: d.text, saved: d.text, modified_at: written_at }
}

/// Modification is a comparison, not a flag: whatever was typed in between,
/// a document whose text is back to what is on disk is unmodified, and one
/// whose text differs from it is modified. Saving, to its own path or to a
/// new one, leaves the text as it was and the document unmodified.
pub proof fn lemma_modification_is_a_comparison(
    d: DocumentModel,
    text: Seq<char>,
    path: DocPathView,
    written_at: Option<Timestamp>,
)
    ensures
        modified(with_text(d, text)) == (text != d.saved),
        !modified(with_text(d, d.saved)),
        !modified(after_save(d, written_at)),
        after_save(d, written_at).text == d.text,
        !modified(after_save_as(d, path, written_at)),
        after_save_as(d, path, written_at).text == d.text,
        after_save_as(d, path, written_at).path == Some(path),
{
}

/// What an I/O failure means for the document.
pub open spec fn classified(err: IoError) -> DocumentError {
    match err {
        IoError::NotFound => DocumentError::NotFound,
        IoError::Other(why) => DocumentError::Denied(why),
    }
}

/// What the banner says about an error.
pub open spec fn message_of(err: DocumentError) -> Seq<char> {
    match err {
        DocumentError::NotFound => "the file no longer exists"@,
        DocumentError::Denied(why) => why@,
        DocumentError::NotText => "this is not a text file"@,
        DocumentError::NoPath => "this document has not been saved yet"@,
    }
}

/// The first heading span of a scan, if any.
pub open spec fn first_heading_span(spans: Seq<Span>) -> Option<Span>
    decreases spans.len(),
{
    if spans.len() == 0 {
        None
    } else if spans[0].style is Heading {
        Some(spans[0])
    } else {
        first_heading_span(spans.drop_first())
    }
}

/// The heading a document is named by is its earliest heading: when there is
/// one, it is a heading span of the scan and no span before it is a heading;
/// when there is none, no span of the scan is a heading.
pub proof fn lemma_first_heading_is_the_earliest(spans: Seq<Span>)
    ensures
        match first_heading_span(spans) {
            Some(sp) => exists|i: int|
                0 <= i < spans.len() && #[trigger] spans[i] == sp && sp.style is Heading && forall|
                    j: int,
                | 0 <= j < i ==> !(#[trigger] spans[j].style is Heading),
            None => forall|i: int| 0 <= i < spans.len() ==> !(#[trigger] spans[i].style is Heading),
        },
    decreases spans.len(),
{
    if spans.len() > 0 {
        let rest = spans.drop_first();
        lemma_first_heading_is_the_earliest(rest);
        if spans[0].style is Heading {
            assert(spans[0] == spans[0]);
        } else {
            match first_heading_span(rest) {
                Some(sp) => {
                    let i = choose|i: int|
                        0 <= i < rest.len() && #[trigger] rest[i] == sp && sp.style is Heading
                            && forall|j: int| 0 <= j < i ==> !(#[trigger] rest[j].style is Heading);
                    assert(spans[i + 1] == sp);
                    assert forall|j: int| 0 <= j < i + 1 implies !(#[trigger] spans[j].style is Heading) by {
                        if j > 0 {
                            assert(spans[j] == rest[j - 1]);
                        }
                    }
                },
                None => {
                    assert forall|i: int| 0 <= i < spans.len() implies !(#[trigger] spans[i].style is Heading) by {
                        if i > 0 {
                            assert(spans[i] == rest[i - 1]);
                        }
                    }
                },
            }
        }
    }
}

pub open spec fn clamp_end(s: Seq<char>, end: int) -> int {
    if end < s.len() {
        end
    } else {
        s.len() as int
    }
}

/// The first heading span's content lies within the text, which is what
/// reading it needs.
pub open spec fn first_heading_fits(s: Seq<char>, spans: Seq<Span>) -> bool {
    match first_heading_span(spans) {
        Some(span) => span.start <= clamp_end(s, span.end as int),
        None => true,
    }
}

/// The heading an unsaved document names itself by: the first heading,
/// trimmed, unless that leaves nothing.
pub open spec fn first_heading(s: Seq<char>, spans: Seq<Span>) -> Option<Seq<char>> {
    match first_heading_span(spans) {
        Some(span) => {
            let t = trimmed(s.subrange(span.start as int, clamp_end(s, span.end as int)));
            if t.len() > 0 {
                Some(t)
            } else {
                None
            }
        },
        None => None,
    }
}

/// What the window is called: the file name, or the first heading of an
/// unsaved document, or "Untitled".
pub open spec fn title_of(doc: DocumentModel, spans: Seq<Span>) -> Seq<char> {
    match doc.path {
        Some(p) if p.file_name is Some => p.file_name->0,
        _ => match first_heading(doc.text, spans) {
            Some(t) => t,
            None => "Untitled"@,
        },
    }
}

/// `dir` is the home directory `home` or lies under it: `home` is a whole
/// leading run of its path components, not merely a prefix of its text.
pub open spec fn under_home(dir: Seq<char>, home: Seq<char>) -> bool {
    &&& home.len() > 0
    &&& home.len() <= dir.len()
    &&& dir.subrange(0, home.len() as int) == home
    &&& (home.len() == dir.len() || dir[home.len() as int] == '/' || home.last() == '/')
}

/// The directory, with the home directory written as `~`. Empty for a
/// document that has never been saved.
pub open spec fn location_of(doc: DocumentModel, home: Option<Seq<char>>) -> Seq<char> {
    match doc.path {
        Some(p) if p.parent is Some => {
            let shown = p.parent->0;
            match home {
                Some(h) if under_home(shown, h) => "~"@ + shown.subrange(
                    h.len() as int,
                    shown.len() as int,
                ),
                _ => shown,
            }
        },
        _ => seq![],
    }
}

/// "1 min ago", "4 mins ago": a count of at least one, with its unit.
pub open spec fn plural_phrase(count: nat, unit: Seq<char>) -> Seq<char> {
    let count = if count < 1 {
        1
    } else {
        count
    };
    if count == 1 {
        "1 "@ + unit + " ago"@
    } else {
        decimal(count) + " "@ + unit + "s ago"@
    }
}

/// The phrase for `seconds` elapsed.
pub open spec fn elapsed_phrase(seconds: nat) -> Seq<char> {
    if seconds <= 44 {
        "just now"@
    } else if seconds < 3600 {
        plural_phrase(seconds / 60, "min"@)
    } else if seconds < 86400 {
        plural_phrase(seconds / 3600, "hour"@)
    } else if seconds < 2 * 86400 {
        "yesterday"@
    } else if seconds < 30 * 86400 {
        plural_phrase(seconds / 86400, "day"@)
    } else {
        "a while ago"@
    }
}

/// The phrase for the time from `then` to `now`. A moment in the future reads
/// as "just now".
pub open spec fn relative_phrase(then: Timestamp, now: Timestamp) -> Seq<char> {
    if now.nanos_since_epoch < then.nanos_since_epoch {
        "just now"@
    } else {
        elapsed_phrase(
            ((now.nanos_since_epoch - then.nanos_since_epoch) / 1_000_000_000) as nat,
        )
    }
}

/// A timestamp in the future, from a clock that has moved backwards or a
/// file written on another machine, reads as "just now"; so does anything
/// within the last three-quarters of a minute.
pub proof fn lemma_the_future_is_just_now(then: Timestamp, now: Timestamp)
    requires
        now.nanos_since_epoch < then.nanos_since_epoch + 45_000_000_000,
    ensures
        relative_phrase(then, now) == "just now"@,
{
    if now.nanos_since_epoch >= then.nanos_since_epoch {
        let elapsed = (now.nanos_since_epoch - then.nanos_since_epoch) as int;
        assert(elapsed / 1_000_000_000 <= 44) by (nonlinear_arith)
            requires
                0 <= elapsed < 45_000_000_000,
        ;
    }
}

/// Turn bytes read from disk into text, if they are UTF-8.
#[verifier::external_body]
fn decode_utf8_bytes(bytes: Vec<u8>) -> (text: Option<String>)
    ensures
        match text {
            Some(t) => valid_utf8(bytes@) && t@ == decode_utf8(bytes@),
            None => !valid_utf8(bytes@),
        },
{
    String::from_utf8(bytes).ok()
}

/// The system clock, read with `SystemTime::now`: whether the moment is after
/// the Unix epoch, and how many nanoseconds it is from it.
#[verifier::external_body]
fn clock_reading() -> (reading: (bool, u128)) {
    match std::time::SystemTime::now().duration_since(std::time::UNIX_EPOCH) {
        Ok(since) => (true, since.as_nanos()),
        Err(before) => (false, before.duration().as_nanos()),
    }
}

/// What an I/O failure means for the document.
pub fn classify(err: IoError) -> (e: DocumentError)
    ensures
        e == classified(err),
{
    match err {
        IoError::NotFound => DocumentError::NotFound,
        IoError::Other(why) => DocumentError::Denied(why),
    }
}

impl DocumentError {
    /// What the banner says.
    pub fn message(&self) -> (m: String)
        ensures
            m@ == message_of(*self),
    {
        match self {
            DocumentError::NotFound => String::from_str("the file no longer exists"),
            DocumentError::Denied(why) => why.clone(),
            DocumentError::NotText => String::from_str("this is not a text file"),
            DocumentError::NoPath => String::from_str("this document has not been saved yet"),
        }
    }
}

fn clone_opt(o: &Option<String>) -> (c: Option<String>)
    ensures
        opt_view(c) == opt_view(*o),
{
    match o {
        Some(s) => Some(s.clone()),
        None => None,
    }
}

impl DocPath {
    /// A copy of this path.
    pub fn copy(&self) -> (c: DocPath)
        ensures
            c@ == self@,
    {
        DocPath {
            full: self.full.clone(),
            file_name: clone_opt(&self.file_name),
            parent: clone_opt(&self.parent),
        }
    }
}

/// The first heading of `chars` according to `spans`, if it has any text.
fn first_heading_of(chars: &Vec<char>, spans: &Vec<Span>) -> (h: Option<String>)
    requires
        first_heading_fits(chars@, spans@),
    ensures
        opt_view(h) == first_heading(chars@, spans@),
{
    let mut i: usize = 0;
    assert(spans@.skip(0) =~= spans@);
    while i < spans.len()
        invariant
            i <= spans.len(),
            first_heading_fits(chars@, spans@),
            first_heading_span(spans@) == first_heading_span(spans@.skip(i as int)),
        decreases spans.len() - i,
    {
        assert(spans@.skip(i as int).drop_first() =~= spans@.skip(i + 1));
        let span = spans[i];
        if let SpanStyle::Heading(_) = span.style {
            let end = if span.end < chars.len() {
                span.end
            } else {
                chars.len()
            };
            let t = trim_range(chars, span.start, end);
            if t.len() > 0 {
                return Some(string_of(&t));
            } else {
                return None;
            }
        }
        i = i + 1;
    }
    None
}

/// `count` of `unit` ago, with a count of at least one.
pub fn plural(count: u64, unit: &str) -> (phrase: String)
    ensures
        phrase@ == plural_phrase(count as nat, unit@),
{
    let count = if count < 1 {
        1
    } else {
        count
    };
    let mut out = String::new();
    if count == 1 {
        push_str(&mut out, "1 ");
        push_str(&mut out, unit);
        push_str(&mut out, " ago");
    } else {
        push_decimal(&mut out, count);
        push_str(&mut out, " ");
        push_str(&mut out, unit);
        push_str(&mut out, "s ago");
    }
    out
}

/// "just now", "4 mins ago", "yesterday": the time from `then` to `now`.
pub fn relative_time(then: Timestamp, now: Timestamp) -> (phrase: String)
    ensures
        phrase@ == relative_phrase(then, now),
{
    if now.nanos_since_epoch < then.nanos_since_epoch {
        return String::from_str("just now");
    }
    let (a, b) = (now.nanos_since_epoch, then.nanos_since_epoch);
    let elapsed: u128 = if b >= 0 {
        (a - b) as u128
    } else if a >= 0 {
        a as u128 + (-(b + 1)) as u128 + 1
    } else {
        (a - b) as u128
    };
    assert(elapsed as int == a - b);
    let seconds = elapsed / 1_000_000_000;
    if seconds <= 44 {
        String::from_str("just now")
    } else if seconds < 3600 {
        plural((seconds / 60) as u64, "min")
    } else if seconds < 86400 {
        plural((seconds / 3600) as u64, "hour")
    } else if seconds < 2 * 86400 {
        String::from_str("yesterday")
    } else if seconds < 30 * 86400 {
        plural((seconds / 86400) as u64, "day")
    } else {
        String::from_str("a while ago")
    }
}

/// The time from `then` to the moment the clock is read.
pub fn relative_to_now(then: Timestamp) -> (phrase: String)
    ensures
        exists|now: Timestamp| phrase@ == #[trigger] relative_phrase(then, now),
{
    let (after_epoch, nanos) = clock_reading();
    let now = Timestamp::from_reading(after_epoch, nanos);
    let phrase = relative_time(then, now);
    assert(phrase@ == relative_phrase(then, now));
    phrase
}

impl Document {
    pub fn blank() -> (d: Document)
        ensures
            d@ == (DocumentModel {
                path: None,
                text: Seq::<char>::empty(),
                saved: Seq::<char>::empty(),
                modified_at: None,
            }),
    {
        Document { path: None, text: String::new(), saved: String::new(), modified_at: None }
    }

    /// The document a read of `path` gave, or why it cannot be opened: the
    /// read failed, or what came back is not UTF-8 text. `modified_at` is the
    /// file's modification time, where the system reported one.
    pub fn open(
        path: DocPath,
        read: Result<Vec<u8>, IoError>,
        modified_at: Option<Timestamp>,
    ) -> (r: Result<Document, DocumentError>)
        ensures
            match read {
                Err(e) => r == Err::<Document, DocumentError>(classified(e)),
                Ok(bytes) => if valid_utf8(bytes@) {
                    match r {
                        Ok(d) => d@ == (DocumentModel {
                            path: Some(path@),
                            text: decode_utf8(bytes@),
                            saved: decode_utf8(bytes@),
                            modified_at,
                        }),
                        Err(_) => false,
                    }
                } else {
                    r == Err::<Document, DocumentError>(DocumentError::NotText)
                },
            },
    {
        let bytes = match read {
            Ok(bytes) => bytes,
            Err(e) => return Err(classify(e)),
        };
        match decode_utf8_bytes(bytes) {
            Some(text) => {
                let saved = text.clone();
                Ok(Document { path: Some(path), text, saved, modified_at })
            },
            None => Err(DocumentError::NotText),
        }
    }

    pub fn text(&self) -> (t: &str)
        ensures
            t@ == self@.text,
    {
        self.text.as_str()
    }

    pub fn set_text(&mut self, text: String)
        ensures
            final(self)@ == with_text(old(self)@, text@),
    {
        self.text = text;
    }

    pub fn path(&self) -> (p: Option<&DocPath>)
        ensures
            match p {
                Some(p) => self@.path == Some(p@),
                None => self@.path is None,
            },
    {
        self.path.as_ref()
    }

    pub fn modified_at(&self) -> (m: Option<Timestamp>)
        ensures
            m == self@.modified_at,
    {
        self.modified_at
    }

    /// Whether the text differs from what is on disk.
    pub fn is_modified(&self) -> (b: bool)
        ensures
            b == modified(self@),
    {
        !(self.text == self.saved)
    }

    /// Record the outcome of writing the text to the document's own path.
    /// A document that has never had a path cannot be saved.
    pub fn save(&mut self, written: Result<Option<Timestamp>, IoError>) -> (r: Result<
        (),
        DocumentError,
    >)
        ensures
            old(self)@.path is None ==> r == Err::<(), DocumentError>(DocumentError::NoPath)
                && final(self)@ == old(self)@,
            old(self)@.path is Some ==> match written {
                Err(e) => r == Err::<(), DocumentError>(classified(e)) && final(self)@ == old(
                    self,
                )@,
                Ok(m) => r is Ok && final(self)@ == after_save(old(self)@, m),
            },
    {
        if self.path.is_none() {
            return Err(DocumentError::NoPath);
        }
        match written {
            Err(e) => Err(classify(e)),
            Ok(m) => {
                self.saved = self.text.clone();
                self.modified_at = m;
                Ok(())
            },
        }
    }

    /// Record the outcome of writing the text to `path`; on success the
    /// document adopts `path` as its own.
    pub fn save_as(&mut self, path: DocPath, written: Result<Option<Timestamp>, IoError>) -> (r:
        Result<(), DocumentError>)
        ensures
            match written {
                Err(e) => r == Err::<(), DocumentError>(classified(e)) && final(self)@ == old(
                    self,
                )@,
                Ok(m) => r is Ok && final(self)@ == after_save_as(old(self)@, path@, m),
            },
    {
        match written {
            Err(e) => Err(classify(e)),
            Ok(m) => {
                self.saved = self.text.clone();
                self.path = Some(path);
                self.modified_at = m;
                Ok(())
            },
        }
    }

    /// What the window is called: the file name, or the first heading of an
    /// unsaved document, or "Untitled". `scan` is the scan of the text.
    pub fn title(&self, scan: &Scan) -> (t: String)
        requires
            match self@.path {
                Some(p) => p.file_name is None,
                None => true,
            } ==> first_heading_fits(self@.text, scan.spans@),
        ensures
            t@ == title_of(self@, scan.spans@),
    {
        if let Some(path) = &self.path {
            if let Some(name) = &path.file_name {
                return name.clone();
            }
        }
        let chars = chars_of(self.text.as_str());
        match first_heading_of(&chars, &scan.spans) {
            Some(heading) => heading,
            None => String::from_str("Untitled"),
        }
    }

    /// The directory, with the home directory `home` written as `~`, for
    /// the window subtitle. Empty for a document that has never been saved.
    pub fn location(&self, home: Option<&str>) -> (l: String)
        ensures
            l@ == location_of(
                self@,
                match home {
                    Some(h) => Some(h@),
                    None => None,
                },
            ),
    {
        let shown = match &self.path {
            Some(path) => match &path.parent {
                Some(parent) => parent,
                None => return String::new(),
            },
            None => return String::new(),
        };
        let shown_chars = chars_of(shown.as_str());
        if let Some(home) = home {
            let h = chars_of(home);
            if h.len() > 0 && h.len() <= shown_chars.len() {
                let mut head: Vec<char> = Vec::new();
                let mut i: usize = 0;
                while i < h.len()
                    invariant
                        i <= h.len() <= shown_chars.len(),
                        head@ == shown_chars@.subrange(0, i as int),
                    decreases h.len() - i,
                {
                    head.push(shown_chars[i]);
                    i = i + 1;
                    assert(head@ =~= shown_chars@.subrange(0, i as int));
                }
                let boundary = h.len() == shown_chars.len() || shown_chars[h.len()] == '/'
                    || h[h.len() - 1] == '/';
                if boundary && same_chars(&head, &h) {
                    let mut out: Vec<char> = Vec::new();
                    out.push('~');
                    let mut j = h.len();
                    while j < shown_chars.len()
                        invariant
                            h.len() <= j <= shown_chars.len(),
                            out@ == seq!['~'] + shown_chars@.subrange(h.len() as int, j as int),
                        decreases shown_chars.len() - j,
                    {
                        out.push(shown_chars[j]);
                        j = j + 1;
                        assert(out@ =~= seq!['~'] + shown_chars@.subrange(
                            h.len() as int,
                            j as int,
                        ));
                    }
                    proof {
                        reveal_strlit("~");
                        assert("~"@ =~= seq!['~']);
                    }
                    return string_of(&out);
                }
            }
        }
        shown.clone()
    }
}

} // verus!
