//! Tests of the add, list, remove and table commands over an
//! in-memory task list, with today's date handed in.

use todotxt::codec::ParseError;
use todotxt::date::Date;
use todotxt::error::TodoPluginError;
use todotxt::list::TaskList;
use todotxt::todo_add::{build_task_line, TodoAdd};
use todotxt::todo_list::TodoList;
use todotxt::todo_rm::{validate_ids, TodoRm};
use todotxt::todo_table::TodoTable;
use todotxt::TodoTxtPlugin;

fn day(y: u16, m: u8, d: u8) -> Date {
    Date::from_ymd(y, m, d).expect("date should exist")
}

fn load(content: &[u8]) -> TaskList {
    TaskList::from_bytes(content).expect("file should load")
}

#[test]
fn add_plain_task_gets_creation_date() {
    let mut list = TaskList::new();
    let r = TodoAdd.run(
        &mut list,
        &b"buy milk".to_vec(),
        false,
        false,
        None,
        day(2024, 1, 1),
    );
    assert_eq!(r, Ok(()));
    assert_eq!(list.to_bytes(), b"2024-01-01 buy milk\n".to_vec());
}

#[test]
fn add_completed_task_gets_both_dates() {
    let mut list = TaskList::new();
    let r = TodoAdd.run(
        &mut list,
        &b"buy milk".to_vec(),
        true,
        false,
        None,
        day(2024, 1, 1),
    );
    assert_eq!(r, Ok(()));
    assert_eq!(list.to_bytes(), b"x 2024-01-01 2024-01-01 buy milk\n".to_vec());
}

#[test]
fn add_lowercase_priority_is_uppercased_before_the_date() {
    let mut list = TaskList::new();
    let r = TodoAdd.run(
        &mut list,
        &b"call mom".to_vec(),
        false,
        false,
        Some(b'b'),
        day(2024, 1, 1),
    );
    assert_eq!(r, Ok(()));
    assert_eq!(list.to_bytes(), b"(B) 2024-01-01 call mom\n".to_vec());
}

#[test]
fn add_invalid_priority_fails_and_changes_nothing() {
    let mut list = load(b"keep me\n");
    let before = list.to_bytes();
    let r = TodoAdd.run(
        &mut list,
        &b"x".to_vec(),
        false,
        false,
        Some(b'5'),
        day(2024, 1, 1),
    );
    assert_eq!(r, Err(TodoPluginError::UnknownPriority(b'5')));
    assert_eq!(list.to_bytes(), before);
}

#[test]
fn add_without_date() {
    let mut list = TaskList::new();
    let r = TodoAdd.run(
        &mut list,
        &b"no date here".to_vec(),
        false,
        true,
        None,
        day(2024, 1, 1),
    );
    assert_eq!(r, Ok(()));
    assert_eq!(list.to_bytes(), b"no date here\n".to_vec());
}

#[test]
fn add_rejects_line_the_grammar_rejects() {
    // Without dates, a description that itself starts with two date
    // tokens builds a line with a completion date but no marker.
    let mut list = TaskList::new();
    let r = TodoAdd.run(
        &mut list,
        &b"2024-01-01 2024-01-02 q".to_vec(),
        false,
        true,
        None,
        day(2024, 1, 1),
    );
    assert_eq!(
        r,
        Err(TodoPluginError::Malformed(ParseError::CompletionDateWithoutMarker))
    );
    assert_eq!(list.to_bytes(), b"".to_vec());
}

#[test]
fn build_task_line_exact_bytes() {
    let line = build_task_line(&b"d".to_vec(), true, false, Some(b'a'), day(2024, 12, 31));
    assert_eq!(line, Ok(b"x (A) 2024-12-31 2024-12-31 d".to_vec()));
}

#[test]
fn build_task_line_unknown_priority() {
    let line = build_task_line(&b"d".to_vec(), false, true, Some(b'!'), day(2024, 1, 1));
    assert_eq!(line, Err(TodoPluginError::UnknownPriority(b'!')));
}

#[test]
fn list_default_hides_completed() {
    let list = load(b"x 2024-01-01 2024-01-01 done task\nopen task\n");
    let shown = TodoList.run(&list, false);
    assert_eq!(shown.len(), 1);
    assert_eq!(shown[0].0, 1);
    assert_eq!(shown[0].1, b"open task".to_vec());
}

#[test]
fn list_all_keeps_file_order() {
    let list = load(b"x 2024-01-01 2024-01-01 done task\nopen task\n");
    let shown = TodoList.run(&list, true);
    assert_eq!(shown.len(), 2);
    assert_eq!(shown[0].0, 0);
    assert_eq!(shown[0].1, b"x 2024-01-01 2024-01-01 done task".to_vec());
    assert_eq!(shown[1].0, 1);
    assert_eq!(shown[1].1, b"open task".to_vec());
}

#[test]
fn list_twice_is_identical_and_file_untouched() {
    let list = load(b"x a\nb\nc\n");
    let bytes_before = list.to_bytes();
    let first = TodoList.run(&list, false);
    let second = TodoList.run(&list, false);
    assert_eq!(first, second);
    assert_eq!(list.to_bytes(), bytes_before);
}

#[test]
fn remove_keeps_only_unnamed_positions() {
    let mut list = load(b"task zero\ntask one\ntask two\n");
    let r = TodoRm.run(&mut list, &[0, 2], false);
    assert!(r.is_ok());
    assert_eq!(list.to_bytes(), b"task one\n".to_vec());
}

#[test]
fn remove_with_no_ids_fails() {
    let mut list = load(b"a\nb\nc\n");
    let before = list.to_bytes();
    let r = TodoRm.run(&mut list, &[], false);
    assert_eq!(r, Err(TodoPluginError::NoIndex));
    assert_eq!(list.to_bytes(), before);
}

#[test]
fn remove_out_of_range_fails() {
    let mut list = load(b"a\nb\nc\n");
    let before = list.to_bytes();
    let r = TodoRm.run(&mut list, &[5], false);
    assert_eq!(r, Err(TodoPluginError::IndexOutOfRange));
    assert_eq!(list.to_bytes(), before);
}

#[test]
fn remove_dry_run_reports_and_changes_nothing() {
    let mut list = load(b"a\nb\nc\n");
    let before = list.to_bytes();
    let rep = TodoRm.run(&mut list, &[0, 2], true).unwrap();
    assert_eq!(rep.len(), 2);
    assert_eq!(rep[0].0, 0);
    assert_eq!(rep[0].1, b"a".to_vec());
    assert_eq!(rep[1].0, 2);
    assert_eq!(rep[1].1, b"c".to_vec());
    assert_eq!(list.to_bytes(), before);
}

#[test]
fn validate_ids_cases() {
    assert_eq!(validate_ids(&[], 3), Err(TodoPluginError::NoIndex));
    assert_eq!(validate_ids(&[3], 3), Err(TodoPluginError::IndexOutOfRange));
    assert_eq!(validate_ids(&[0, 1, 2], 3), Ok(()));
}

#[test]
fn table_projects_every_field() {
    let list = load(b"x (A) 2024-01-02 2024-01-01 all fields\nbare\n");
    let rows = TodoTable.run(&list);
    assert_eq!(rows.len(), 2);
    assert!(rows[0].completed);
    assert_eq!(rows[0].priority, Some(b'A'));
    assert_eq!(rows[0].completion_date, Some(Date { year: 2024, month: 1, day: 2 }));
    assert_eq!(rows[0].creation_date, Some(Date { year: 2024, month: 1, day: 1 }));
    assert_eq!(rows[0].description, b"all fields".to_vec());
    assert!(!rows[1].completed);
    assert_eq!(rows[1].description, b"bare".to_vec());
}

#[test]
fn table_twice_is_identical_and_file_untouched() {
    let list = load(b"x a\nb\n");
    let bytes_before = list.to_bytes();
    let r1 = TodoTable.run(&list);
    let r2 = TodoTable.run(&list);
    assert_eq!(r1.len(), r2.len());
    for (a, b) in r1.iter().zip(r2.iter()) {
        assert_eq!(a.completed, b.completed);
        assert_eq!(a.priority, b.priority);
        assert_eq!(a.completion_date, b.completion_date);
        assert_eq!(a.creation_date, b.creation_date);
        assert_eq!(a.description, b.description);
    }
    assert_eq!(list.to_bytes(), bytes_before);
}

#[test]
fn plugin_serves_four_commands() {
    let names = TodoTxtPlugin.commands();
    assert_eq!(names, vec!["todo table", "todo add", "todo list", "todo rm"]);
    assert_eq!(TodoTxtPlugin.version(), "0.1.0");
    assert_eq!(TodoAdd.name(), "todo add");
    assert_eq!(TodoList.name(), "todo list");
    assert_eq!(TodoRm.name(), "todo rm");
    assert_eq!(TodoTable.name(), "todo table");
    assert_eq!(TodoAdd.description(), "add a new todo item to your todo.txt file");
}
