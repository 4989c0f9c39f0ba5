//! Record stream and tag index tests: parsing, printing, splitting,
//! joining and the sorted tag rows.

use wyrcan::date::Date;
use wyrcan::lines::load_collection;
use wyrcan::lines::serialize_collection;
use wyrcan::tags::contexts_of;
use wyrcan::tags::projects_of;
use wyrcan::task::NO_PRIORITY;

fn day(year: i32, month: u8, d: u8) -> Date {
    Date::new(year, month, d)
}

#[test]
fn well_formed_lines_round_trip() {
    let today = day(2024, 1, 2);
    let text = "2024-01-01 buy milk +errands @store\ncall mom @phone\nx 2024-01-01 2023-12-31 file taxes +errands";
    let tasks = load_collection(text, today);
    assert_eq!(tasks.len(), 3);
    assert_eq!(serialize_collection(&tasks), text);
}

#[test]
fn parser_extracts_fields() {
    let today = day(2024, 1, 2);
    let tasks = load_collection("x 2024-01-01 2023-12-31 file taxes +errands due:2024-04-15", today);
    let t = &tasks[0];
    assert!(t.finished);
    assert_eq!(t.completion_date, Some(day(2024, 1, 1)));
    assert_eq!(t.creation_date, Some(day(2023, 12, 31)));
    assert_eq!(t.due_date, Some(day(2024, 4, 15)));
    assert_eq!(t.subject, "file taxes +errands due:2024-04-15");
    assert_eq!(t.projects, vec![String::from("errands")]);
    assert!(t.contexts.is_empty());
}

#[test]
fn empty_lines_become_placeholder_records() {
    let today = day(2024, 1, 2);
    let tasks = load_collection("a\n\nb", today);
    assert_eq!(tasks.len(), 3);
    assert_eq!(tasks[1].subject, "");
    assert!(!tasks[1].finished);
    assert_eq!(serialize_collection(&tasks), "a\n\nb");
}

#[test]
fn empty_text_is_one_empty_record() {
    let today = day(2024, 1, 2);
    let tasks = load_collection("", today);
    assert_eq!(tasks.len(), 1);
    assert_eq!(tasks[0].subject, "");
    assert_eq!(serialize_collection(&tasks), "");
}

#[test]
fn trailing_newline_keeps_its_empty_record() {
    let today = day(2024, 1, 2);
    let tasks = load_collection("a\n", today);
    assert_eq!(tasks.len(), 2);
    assert_eq!(tasks[1].subject, "");
    assert_eq!(serialize_collection(&tasks), "a\n");
}

#[test]
fn priority_markers_survive_round_trip_and_toggle() {
    let today = day(2024, 1, 2);
    let mut tasks = load_collection("(A) call mom @phone\n(b) no marker", today);
    assert_eq!(tasks[0].priority, 0);
    assert_eq!(tasks[0].subject, "call mom @phone");
    // A lowercase letter is not a priority marker; it stays in the text.
    assert_eq!(tasks[1].priority, NO_PRIORITY);
    assert_eq!(tasks[1].subject, "(b) no marker");
    assert_eq!(serialize_collection(&tasks), "(A) call mom @phone\n(b) no marker");
    // Completing and un-completing keeps the marker in its place.
    tasks[0].toggle(today);
    assert_eq!(
        serialize_collection(&tasks),
        "x (A) 2024-01-02 call mom @phone\n(b) no marker"
    );
    tasks[0].toggle(today);
    assert_eq!(serialize_collection(&tasks), "(A) call mom @phone\n(b) no marker");
}

#[test]
fn prioritized_lines_round_trip_with_dates() {
    let today = day(2024, 1, 2);
    let text = "(B) 2024-01-01 buy milk +errands\nx (C) 2024-01-02 2024-01-01 done";
    let tasks = load_collection(text, today);
    assert_eq!(tasks[0].priority, 1);
    assert_eq!(tasks[1].priority, 2);
    assert_eq!(serialize_collection(&tasks), text);
}

#[test]
fn tag_rows_are_sorted_and_distinct() {
    let today = day(2024, 1, 2);
    let tasks = load_collection("t +b +a\nu +a @z\nv @y @z", today);
    assert_eq!(projects_of(&tasks), vec![String::from("a"), String::from("b")]);
    assert_eq!(contexts_of(&tasks), vec![String::from("y"), String::from("z")]);
}

#[test]
fn tag_rows_of_empty_collection_are_empty() {
    let tasks = Vec::new();
    assert_eq!(projects_of(&tasks), Vec::<String>::new());
    assert_eq!(contexts_of(&tasks), Vec::<String>::new());
}

#[test]
fn relative_dates_resolve_against_today() {
    let today = day(2024, 1, 2);
    // todo_lib resolves special tag dates such as due: against the base
    // date; a fixed date stays fixed whatever today is.
    let a = load_collection("pay rent due:2024-02-01", today);
    let b = load_collection("pay rent due:2024-02-01", day(2030, 6, 7));
    assert_eq!(a[0].due_date, b[0].due_date);
}
