//! Tests for catalog records and selection movement.

use matrix65::filehost::{filter_loadable, Record};
use matrix65::ui::{next_selection, previous_selection};
use matrix65::M65Error;

fn record(title: &str, filename: &str) -> Record {
    let mut r = Record::default();
    r.title = title.to_string();
    r.kind = "game".to_string();
    r.author = "someone".to_string();
    r.filename = filename.to_string();
    r
}

#[test]
fn columns_show_title_kind_and_author() {
    let r = record("Boulder", "boulder.prg");
    let cols = r.columns();
    assert_eq!(cols, vec!["Boulder", "game", "someone"]);
}

#[test]
fn filter_keeps_programs_and_disk_images_in_order() {
    let records = vec![
        record("a", "a.prg"),
        record("b", "b.txt"),
        record("c", "c.D81"),
        record("d", "d.d64"),
        record("e", "e.PRG"),
    ];
    let kept = filter_loadable(records);
    let names: Vec<&str> = kept.iter().map(|r| r.filename.as_str()).collect();
    // d64 images are not loadable catalog entries, only prg and d81
    assert_eq!(names, vec!["a.prg", "c.D81", "e.PRG"]);
}

#[test]
fn filter_of_empty_catalog_is_empty() {
    assert!(filter_loadable(Vec::new()).is_empty());
}

#[test]
fn sorting_orders_by_title_and_keeps_all_records() {
    let records = vec![
        record("delta", "d.prg"),
        record("alpha", "a.prg"),
        record("charlie", "c.prg"),
        record("bravo", "b.prg"),
        record("alpha", "a2.prg"),
    ];
    let sorted = matrix65::filehost::sort_by_title(records);
    let titles: Vec<&str> = sorted.iter().map(|r| r.title.as_str()).collect();
    assert_eq!(titles, vec!["alpha", "alpha", "bravo", "charlie", "delta"]);
    let mut names: Vec<&str> = sorted.iter().map(|r| r.filename.as_str()).collect();
    names.sort();
    assert_eq!(names, vec!["a.prg", "a2.prg", "b.prg", "c.prg", "d.prg"]);
}

#[test]
fn sorting_keeps_equal_titles_in_their_input_order() {
    let records = vec![
        record("same", "first.prg"),
        record("other", "x.prg"),
        record("same", "second.prg"),
        record("same", "third.prg"),
    ];
    let sorted = matrix65::filehost::sort_by_title(records);
    let names: Vec<&str> = sorted.iter().map(|r| r.filename.as_str()).collect();
    assert_eq!(names, vec!["x.prg", "first.prg", "second.prg", "third.prg"]);
}

#[test]
fn sorting_an_empty_catalog_yields_an_empty_catalog() {
    assert!(matrix65::filehost::sort_by_title(Vec::new()).is_empty());
}

#[test]
fn selection_wraps_around() {
    assert_eq!(next_selection(None, 3), Some(0));
    assert_eq!(next_selection(Some(0), 3), Some(1));
    assert_eq!(next_selection(Some(2), 3), Some(0));
    assert_eq!(previous_selection(None, 3), Some(0));
    assert_eq!(previous_selection(Some(0), 3), Some(2));
    assert_eq!(previous_selection(Some(2), 3), Some(1));
}

#[test]
fn empty_listing_has_no_selection() {
    assert_eq!(next_selection(None, 0), None);
    assert_eq!(previous_selection(Some(1), 0), None);
}

#[test]
fn error_descriptions_are_stable() {
    assert_eq!(M65Error::Protocol.describe(), "protocol error");
    assert_eq!(M65Error::Transport.describe(), "transport error");
    assert_eq!(M65Error::EmptyPayload.describe(), "empty payload");
    assert_eq!(
        M65Error::AddressOverflow.describe(),
        "write outside the 16-bit address space"
    );
    assert_eq!(M65Error::UnsupportedLoadAddress.describe(), "unsupported load address");
    assert_eq!(M65Error::InvalidFormat.describe(), "invalid file format");
    assert_eq!(M65Error::InvalidSelection.describe(), "invalid selection");
}
