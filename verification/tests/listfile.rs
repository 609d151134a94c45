//! Tests of whole-file loading and persisting, date helpers, and the
//! path resolution.

use todotxt::codec::ParseError;
use todotxt::date::{days_in_month, is_leap_year, today, Date};
use todotxt::error::TodoPluginError;
use todotxt::list::TaskList;
use todotxt::util::get_todo_file_path;

#[test]
fn load_empty_file_gives_empty_list() {
    let list = TaskList::from_bytes(b"").unwrap();
    assert_eq!(list.len(), 0);
    assert_eq!(list.to_bytes(), b"".to_vec());
}

#[test]
fn load_skips_empty_lines() {
    let list = TaskList::from_bytes(b"a\n\n\nb\n\n").unwrap();
    assert_eq!(list.len(), 2);
    assert_eq!(list.to_bytes(), b"a\nb\n".to_vec());
}

#[test]
fn load_without_trailing_newline() {
    let list = TaskList::from_bytes(b"a\nb").unwrap();
    assert_eq!(list.len(), 2);
    assert_eq!(list.to_bytes(), b"a\nb\n".to_vec());
}

#[test]
fn load_keeps_file_order() {
    let list = TaskList::from_bytes(b"first\nsecond\nthird\n").unwrap();
    let lines = list.to_bytes();
    assert_eq!(lines, b"first\nsecond\nthird\n".to_vec());
}

#[test]
fn load_is_all_or_nothing() {
    // One bad line fails the whole load.
    let r = TaskList::from_bytes(b"good\n(9) bad\nalso good\n");
    assert_eq!(r.err(), Some(ParseError::InvalidPriority(b'9')));
}

#[test]
fn load_reports_first_error() {
    let r = TaskList::from_bytes(b"(!) first\n2020-01-01 2020-01-02 second\n");
    assert_eq!(r.err(), Some(ParseError::InvalidPriority(b'!')));
}

#[test]
fn load_handles_carriage_returns() {
    // A CR before the LF is trailing whitespace of the line.
    let list = TaskList::from_bytes(b"a\r\nb\r\n").unwrap();
    assert_eq!(list.to_bytes(), b"a\nb\n".to_vec());
}

#[test]
fn persist_roundtrips_through_load() {
    let content: &[u8] = b"x (A) 2024-01-02 2024-01-01 done\n(B) 2024-01-03 open\nbare\n";
    let list = TaskList::from_bytes(content).unwrap();
    assert_eq!(list.to_bytes(), content.to_vec());
    let again = TaskList::from_bytes(&list.to_bytes()).unwrap();
    assert_eq!(again.to_bytes(), content.to_vec());
}

#[test]
fn push_appends_at_the_end() {
    let mut list = TaskList::from_bytes(b"a\n").unwrap();
    let t = todotxt::codec::parse(b"b").unwrap();
    list.push(t);
    assert_eq!(list.to_bytes(), b"a\nb\n".to_vec());
}

#[test]
fn remove_indices_shifts_later_positions() {
    let mut list = TaskList::from_bytes(b"a\nb\nc\nd\n").unwrap();
    list.remove_indices(&[1, 3]);
    assert_eq!(list.to_bytes(), b"a\nc\n".to_vec());
}

#[test]
fn date_from_ymd_checks_the_calendar() {
    assert!(Date::from_ymd(2024, 2, 29).is_some());
    assert!(Date::from_ymd(2023, 2, 29).is_none());
    assert!(Date::from_ymd(2024, 0, 1).is_none());
    assert!(Date::from_ymd(2024, 13, 1).is_none());
    assert!(Date::from_ymd(2024, 4, 31).is_none());
}

#[test]
fn leap_year_rules() {
    assert!(is_leap_year(2024));
    assert!(!is_leap_year(2023));
    assert!(is_leap_year(2000));
    assert!(!is_leap_year(1900));
    assert_eq!(days_in_month(2024, 2), 29);
    assert_eq!(days_in_month(2023, 2), 28);
    assert_eq!(days_in_month(2024, 4), 30);
    assert_eq!(days_in_month(2024, 12), 31);
}

#[test]
fn date_renders_zero_padded() {
    let d = Date::from_ymd(7, 4, 9).unwrap();
    assert_eq!(d.render(), b"0007-04-09".to_vec());
}

#[test]
fn today_is_a_real_calendar_date() {
    // The clock wrapper must hand back a date the calendar accepts,
    // not its inputs or a fixed value.
    let d = today().expect("the current year fits four digits");
    assert!(d.year >= 2024);
    assert!((1..=12).contains(&d.month));
    assert!(d.day >= 1 && d.day <= days_in_month(d.year, d.month));
    assert_eq!(Date::from_ymd(d.year, d.month, d.day), Some(d));
}

#[test]
fn path_prefers_the_explicit_flag() {
    let r = get_todo_file_path(Some(b"/tmp/other.txt".to_vec()), Some(b"/home/me".to_vec()));
    assert_eq!(r, Ok(b"/tmp/other.txt".to_vec()));
}

#[test]
fn path_falls_back_to_home_directory() {
    let r = get_todo_file_path(None, Some(b"/home/me".to_vec()));
    assert_eq!(r, Ok(b"/home/me/todo.txt".to_vec()));
}

#[test]
fn path_fails_without_home() {
    let r = get_todo_file_path(None, None);
    assert_eq!(r, Err(TodoPluginError::MissingHomeDirectory));
}
