//! Tests of the line codec: parsing, serialization, round trips.

use todotxt::codec::{parse, serialize, ParseError};
use todotxt::date::Date;

fn roundtrip(line: &[u8]) -> Vec<u8> {
    let t = parse(line).expect("line should parse");
    serialize(&t)
}

#[test]
fn parse_bare_description() {
    let t = parse(b"buy milk").unwrap();
    assert!(!t.completed);
    assert_eq!(t.priority, None);
    assert_eq!(t.completion_date, None);
    assert_eq!(t.creation_date, None);
    assert_eq!(t.description, b"buy milk".to_vec());
}

#[test]
fn parse_completed_marker() {
    let t = parse(b"x done thing").unwrap();
    assert!(t.completed);
    assert_eq!(t.description, b"done thing".to_vec());
}

#[test]
fn parse_priority_uppercase() {
    let t = parse(b"(A) important").unwrap();
    assert_eq!(t.priority, Some(b'A'));
    assert_eq!(t.description, b"important".to_vec());
}

#[test]
fn parse_priority_lowercase_normalized() {
    let t = parse(b"(b) call mom").unwrap();
    assert_eq!(t.priority, Some(b'B'));
    assert_eq!(serialize(&t), b"(B) call mom".to_vec());
}

#[test]
fn parse_priority_not_a_letter() {
    assert_eq!(parse(b"(5) oops"), Err(ParseError::InvalidPriority(b'5')));
}

#[test]
fn parse_single_date_is_creation() {
    let t = parse(b"2024-01-01 buy milk").unwrap();
    assert!(!t.completed);
    assert_eq!(t.creation_date, Some(Date { year: 2024, month: 1, day: 1 }));
    assert_eq!(t.completion_date, None);
    assert_eq!(t.description, b"buy milk".to_vec());
}

#[test]
fn parse_two_dates_completed() {
    let t = parse(b"x 2024-03-02 2024-03-01 review pull request").unwrap();
    assert!(t.completed);
    assert_eq!(t.completion_date, Some(Date { year: 2024, month: 3, day: 2 }));
    assert_eq!(t.creation_date, Some(Date { year: 2024, month: 3, day: 1 }));
    assert_eq!(t.description, b"review pull request".to_vec());
}

#[test]
fn parse_two_dates_without_marker_fails() {
    assert_eq!(
        parse(b"2024-01-01 2024-01-02 foo"),
        Err(ParseError::CompletionDateWithoutMarker)
    );
}

#[test]
fn parse_full_line() {
    let t = parse(b"x (C) 2024-05-20 2024-04-30 measure space +chapelShelving @chapel").unwrap();
    assert!(t.completed);
    assert_eq!(t.priority, Some(b'C'));
    assert_eq!(t.completion_date, Some(Date { year: 2024, month: 5, day: 20 }));
    assert_eq!(t.creation_date, Some(Date { year: 2024, month: 4, day: 30 }));
    assert_eq!(
        t.description,
        b"measure space +chapelShelving @chapel".to_vec()
    );
}

#[test]
fn parse_trims_trailing_whitespace() {
    let t = parse(b"2024-01-01 tidy desk   \t").unwrap();
    assert_eq!(t.description, b"tidy desk".to_vec());
}

#[test]
fn parse_keeps_inner_whitespace() {
    let t = parse(b"a  b").unwrap();
    assert_eq!(t.description, b"a  b".to_vec());
}

#[test]
fn parse_date_without_following_space_is_text() {
    let t = parse(b"2024-01-01").unwrap();
    assert_eq!(t.creation_date, None);
    assert_eq!(t.description, b"2024-01-01".to_vec());
}

#[test]
fn parse_invalid_calendar_date_is_text() {
    let t = parse(b"2024-13-01 foo").unwrap();
    assert_eq!(t.creation_date, None);
    assert_eq!(t.description, b"2024-13-01 foo".to_vec());
}

#[test]
fn parse_leap_day() {
    let t = parse(b"2024-02-29 leap").unwrap();
    assert_eq!(t.creation_date, Some(Date { year: 2024, month: 2, day: 29 }));
}

#[test]
fn parse_leap_day_in_common_year_is_text() {
    let t = parse(b"2023-02-29 not a date").unwrap();
    assert_eq!(t.creation_date, None);
    assert_eq!(t.description, b"2023-02-29 not a date".to_vec());
}

#[test]
fn parse_century_leap_rules() {
    // 2000 was a leap year, 1900 was not.
    assert!(parse(b"2000-02-29 ok").unwrap().creation_date.is_some());
    assert!(parse(b"1900-02-29 no").unwrap().creation_date.is_none());
}

#[test]
fn serialize_all_fields() {
    let t = parse(b"x (A) 2024-01-02 2024-01-01 ship it").unwrap();
    assert_eq!(serialize(&t), b"x (A) 2024-01-02 2024-01-01 ship it".to_vec());
}

#[test]
fn serialize_pads_date_digits() {
    let t = parse(b"0007-04-09 old task").unwrap();
    assert_eq!(serialize(&t), b"0007-04-09 old task".to_vec());
}

#[test]
fn roundtrip_various_lines() {
    let lines: Vec<&[u8]> = vec![
        b"buy milk",
        b"x done",
        b"(Z) lowest letter",
        b"2024-06-15 with date",
        b"x 2024-06-16 2024-06-15 both dates",
        b"x (B) 2024-06-16 2024-06-15 everything",
        b"x (B) 2024-06-15 only one date after priority",
        b"plain text with 2024-01-01 inside",
        b"",
    ];
    for line in lines {
        assert_eq!(roundtrip(line), line.to_vec());
    }
}

#[test]
fn roundtrip_trims_only_trailing_whitespace() {
    assert_eq!(roundtrip(b"note  \t "), b"note".to_vec());
    assert_eq!(roundtrip(b"  indented"), b"  indented".to_vec());
}

#[test]
fn empty_line_parses_to_empty_task() {
    let t = parse(b"").unwrap();
    assert!(!t.completed);
    assert_eq!(t.description, b"".to_vec());
    assert_eq!(serialize(&t), b"".to_vec());
}
