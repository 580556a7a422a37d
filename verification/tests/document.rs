use vellum::document::{
    classify, plural, relative_time, relative_to_now, DocPath, Document, DocumentError, IoError,
    Timestamp,
};
use vellum::scan::{Scan, Span, SpanStyle};

const DAY: u64 = 24 * 60 * 60;

fn path(full: &str) -> DocPath {
    let (parent, name) = match full.rfind('/') {
        Some(at) => (Some(full[..at].to_string()), full[at + 1..].to_string()),
        None => (None, full.to_string()),
    };
    DocPath { full: full.to_string(), file_name: Some(name), parent }
}

/// A scan with the one heading at `content`, which the text must contain.
fn scan_with_heading(text: &str, content: &str, level: u8) -> Scan {
    let at = text.find(content).expect("present");
    let start = text[..at].chars().count();
    let lines = text.chars().filter(|c| *c == '\n').count() + 1;
    Scan {
        spans: vec![Span {
            start,
            end: start + content.chars().count(),
            style: SpanStyle::Heading(level),
        }],
        fenced: vec![false; lines],
    }
}

fn empty_scan(text: &str) -> Scan {
    let lines = text.chars().filter(|c| *c == '\n').count() + 1;
    Scan { spans: Vec::new(), fenced: vec![false; lines] }
}

fn seconds_before(now: Timestamp, seconds: u64) -> Timestamp {
    Timestamp { nanos_since_epoch: now.nanos_since_epoch - seconds as i128 * 1_000_000_000 }
}

#[test]
fn a_blank_document_is_unmodified_and_untitled() {
    let mut document = Document::blank();
    assert!(!document.is_modified());
    assert_eq!(document.title(&empty_scan("")), "Untitled");
    assert_eq!(document.location(Some("/home/reader")), "");
    assert_eq!(document.save(Ok(None)), Err(DocumentError::NoPath));
}

#[test]
fn modification_is_a_comparison_not_a_flag() {
    let document = Document::open(path("/tmp/notes.md"), Ok(b"# Notes\n".to_vec()), None);
    let mut document = document.expect("open");
    assert!(!document.is_modified());

    document.set_text("# Notes\nmore".to_string());
    assert!(document.is_modified());

    document.set_text("# Notes\n".to_string());
    assert!(!document.is_modified());
}

#[test]
fn saving_writes_the_text_and_clears_the_modification() {
    let document = Document::open(path("/tmp/notes.md"), Ok(b"old\n".to_vec()), None);
    let mut document = document.expect("open");
    document.set_text("new\n".to_string());
    assert!(document.is_modified());
    let written = Timestamp::from_secs(1_000);
    document.save(Ok(Some(written))).expect("save");

    assert_eq!(document.text(), "new\n");
    assert!(!document.is_modified());
    assert_eq!(document.modified_at(), Some(written));
}

#[test]
fn a_failed_save_leaves_the_document_modified() {
    let document = Document::open(path("/tmp/notes.md"), Ok(b"old\n".to_vec()), None);
    let mut document = document.expect("open");
    document.set_text("new\n".to_string());
    let outcome = document.save(Err(IoError::Other("disk full".to_string())));
    assert_eq!(outcome, Err(DocumentError::Denied("disk full".to_string())));
    assert!(document.is_modified());
    assert_eq!(document.text(), "new\n");
}

#[test]
fn save_as_adopts_the_new_path() {
    let mut document = Document::blank();
    document.set_text("body\n".to_string());
    document
        .save_as(path("/tmp/dir/renamed.md"), Ok(Some(Timestamp::from_secs(5))))
        .expect("save");

    assert_eq!(document.path().map(|p| p.full.as_str()), Some("/tmp/dir/renamed.md"));
    assert_eq!(document.title(&empty_scan("body\n")), "renamed.md");
    assert!(document.modified_at().is_some());
    assert!(!document.is_modified());
}

#[test]
fn opening_something_that_is_not_there_says_so() {
    let opened = Document::open(path("/tmp/absent.md"), Err(IoError::NotFound), None);
    assert_eq!(opened.err(), Some(DocumentError::NotFound));
}

#[test]
fn opening_a_binary_file_is_refused_rather_than_mangled() {
    let opened = Document::open(path("/tmp/image.md"), Ok(vec![0xff, 0xfe, 0x00, 0x01]), None);
    assert_eq!(opened.err(), Some(DocumentError::NotText));
}

#[test]
fn an_unsaved_document_is_named_by_its_first_heading() {
    let mut document = Document::blank();
    let text = "Some prose first.\n\n# The Real Title\n";
    document.set_text(text.to_string());
    assert_eq!(document.title(&scan_with_heading(text, "The Real Title", 1)), "The Real Title");
}

#[test]
fn a_blank_heading_does_not_name_the_document() {
    let mut document = Document::blank();
    let text = "#   \nProse.\n";
    document.set_text(text.to_string());
    let scan = Scan {
        spans: vec![Span { start: 2, end: 4, style: SpanStyle::Heading(1) }],
        fenced: vec![false; 3],
    };
    assert_eq!(document.title(&scan), "Untitled");
}

#[test]
fn elapsed_time_reads_as_a_phrase() {
    let now = Timestamp::from_secs(10 * DAY);
    let said = |seconds: u64| relative_time(seconds_before(now, seconds), now);

    assert_eq!(said(0), "just now");
    assert_eq!(said(44), "just now");
    assert_eq!(said(60), "1 min ago");
    assert_eq!(said(4 * 60), "4 mins ago");
    assert_eq!(said(60 * 60), "1 hour ago");
    assert_eq!(said(5 * 60 * 60), "5 hours ago");
    assert_eq!(said(25 * 60 * 60), "yesterday");
    assert_eq!(said(3 * DAY), "3 days ago");
    assert_eq!(said(400 * DAY), "a while ago");
}

#[test]
fn a_timestamp_in_the_future_reads_as_just_now() {
    let now = Timestamp::from_secs(1000);
    let later = Timestamp::from_secs(1000 + 500);
    assert_eq!(relative_time(later, now), "just now");
}

#[test]
fn a_moment_ago_by_the_clock_is_just_now() {
    let phrase = relative_to_now(Timestamp::from_reading(true, 0));
    assert!(phrase.ends_with("ago"), "{phrase:?}");
    let future = Timestamp::from_reading(true, u128::MAX);
    assert_eq!(relative_to_now(future), "just now");
}

#[test]
fn a_reading_before_the_epoch_is_negative() {
    assert_eq!(Timestamp::from_reading(false, 5).nanos_since_epoch, -5);
    assert_eq!(Timestamp::from_reading(true, 5).nanos_since_epoch, 5);
    assert_eq!(Timestamp::from_reading(true, u128::MAX).nanos_since_epoch, i128::MAX);
}

#[test]
fn a_count_of_nothing_still_reads_as_one() {
    assert_eq!(plural(0, "min"), "1 min ago");
    assert_eq!(plural(1, "hour"), "1 hour ago");
    assert_eq!(plural(12, "day"), "12 days ago");
}

#[test]
fn the_home_directory_is_written_as_a_tilde() {
    let document = Document::open(path("/home/reader/notes/today.md"), Ok(Vec::new()), None);
    let document = document.expect("open");
    assert_eq!(document.location(Some("/home/reader")), "~/notes");
    assert_eq!(document.location(None), "/home/reader/notes");
    assert_eq!(document.location(Some("/home/other")), "/home/reader/notes");
    assert_eq!(document.location(Some("")), "/home/reader/notes");
    assert_eq!(document.location(Some("/home/reader/notes")), "~");
}

#[test]
fn a_neighbouring_directory_is_not_home() {
    let document = Document::open(path("/home/alice/today.md"), Ok(Vec::new()), None);
    let document = document.expect("open");
    assert_eq!(document.location(Some("/home/al")), "/home/alice");
    assert_eq!(document.location(Some("/home/alice")), "~");
    assert_eq!(document.location(Some("/home/")), "~alice");
}

#[test]
fn every_failure_says_what_went_wrong() {
    assert_eq!(classify(IoError::NotFound), DocumentError::NotFound);
    assert_eq!(
        classify(IoError::Other("permission denied".to_string())),
        DocumentError::Denied("permission denied".to_string())
    );
    assert_eq!(DocumentError::NotFound.message(), "the file no longer exists");
    assert_eq!(DocumentError::NotText.message(), "this is not a text file");
}
