//! Session engine tests: panes, navigation, mutation and persistence.

use wyrcan::app::App;
use wyrcan::app::Command;
use wyrcan::app::EngineError;
use wyrcan::date::Date;
use wyrcan::filter::resolve;
use wyrcan::lines::load_collection;
use wyrcan::lines::serialize_collection;
use wyrcan::nav::Focus;
use wyrcan::task::Task;
use wyrcan::task::NO_PRIORITY;

fn day(year: i32, month: u8, day: u8) -> Date {
    Date::new(year, month, day)
}

fn app_from(text: &str, today: Date) -> App {
    App::new(load_collection(text, today), None)
}

#[test]
fn empty_collection_is_safe() {
    let today = day(2024, 1, 2);
    let mut app = App::new(Vec::new(), None);
    assert_eq!(app.get_projects(), Vec::<String>::new());
    assert_eq!(app.get_contexts(), Vec::<String>::new());
    assert_eq!(app.get_todo_list(), Vec::<usize>::new());
    // Navigation on every pane of an empty collection is a no-op.
    for _ in 0..3 {
        app.next();
        app.previous();
        assert_eq!(app.task_selected, None);
        assert_eq!(app.project_selected, None);
        assert_eq!(app.context_selected, None);
        app.next_pane();
    }
    let r = app.step(Command::Next, today);
    assert!(!r.quit && r.save.is_none() && r.error.is_none());
}

#[test]
fn filter_by_project_keeps_each_match_once() {
    let today = day(2024, 1, 2);
    let tasks = load_collection("a +x\nb +y\nc +x\nd", today);
    let ids = resolve(&tasks, &Some(String::from("x")), &None, false);
    assert_eq!(ids, vec![0, 2]);
    let ids = resolve(&tasks, &Some(String::from("y")), &None, false);
    assert_eq!(ids, vec![1]);
    let ids = resolve(&tasks, &Some(String::from("zzz")), &None, false);
    assert_eq!(ids, Vec::<usize>::new());
}

#[test]
fn filter_by_both_dimensions() {
    let today = day(2024, 1, 2);
    let tasks = load_collection("a +x @p\nb +x\nc @p\nd +x @p @q", today);
    let ids = resolve(&tasks, &Some(String::from("x")), &Some(String::from("p")), false);
    assert_eq!(ids, vec![0, 3]);
    let ids = resolve(&tasks, &None, &Some(String::from("p")), false);
    assert_eq!(ids, vec![0, 2, 3]);
    let ids = resolve(&tasks, &None, &None, false);
    assert_eq!(ids, vec![0, 1, 2, 3]);
}

#[test]
fn sort_groups_unfinished_first_stably() {
    let today = day(2024, 1, 2);
    let tasks = load_collection("x 2024-01-01 a\nb\nx 2024-01-01 c\nd", today);
    let ids = resolve(&tasks, &None, &None, true);
    assert_eq!(ids, vec![1, 3, 0, 2]);
    // Without sorting the collection order stays.
    let ids = resolve(&tasks, &None, &None, false);
    assert_eq!(ids, vec![0, 1, 2, 3]);
}

#[test]
fn toggle_twice_restores_task_under_fixed_clock() {
    let today = day(2024, 3, 4);
    let tasks = load_collection("buy milk +errands", today);
    let mut task = tasks.into_iter().next().unwrap();
    assert!(!task.finished);
    task.toggle(today);
    assert!(task.finished);
    assert_eq!(task.completion_date, Some(today));
    task.toggle(today);
    assert!(!task.finished);
    assert_eq!(task.completion_date, None);
    assert_eq!(task.subject, "buy milk +errands");
    assert_eq!(task.projects, vec![String::from("errands")]);
}

#[test]
fn navigation_wraps_around() {
    let today = day(2024, 1, 2);
    let mut app = app_from("a\nb\nc", today);
    assert_eq!(app.focus, Focus::Tasks);
    app.next();
    assert_eq!(app.task_selected, Some(0));
    app.next();
    app.next();
    assert_eq!(app.task_selected, Some(2));
    app.next();
    assert_eq!(app.task_selected, Some(0));
    app.previous();
    assert_eq!(app.task_selected, Some(2));
}

#[test]
fn focus_cycles_both_ways_without_moving_selections() {
    let today = day(2024, 1, 2);
    let mut app = app_from("a +p @c", today);
    app.next();
    assert_eq!(app.task_selected, Some(0));
    app.next_pane();
    assert_eq!(app.focus, Focus::Projects);
    app.next_pane();
    assert_eq!(app.focus, Focus::Contexts);
    app.next_pane();
    assert_eq!(app.focus, Focus::Tasks);
    app.prev_pane();
    assert_eq!(app.focus, Focus::Contexts);
    assert_eq!(app.task_selected, Some(0));
    assert_eq!(app.project_selected, None);
}

#[test]
fn no_selection_is_a_safe_no_op() {
    let today = day(2024, 1, 2);
    let mut app = app_from("a +x\nb", today);
    let before = serialize_collection(&app.tasks);
    assert_eq!(app.remove_selected_item(), Err(EngineError::NoSelection));
    assert_eq!(app.toggle_complete(today), Err(EngineError::NoSelection));
    assert_eq!(app.start_edit(), Err(EngineError::NoSelection));
    assert_eq!(serialize_collection(&app.tasks), before);
    assert!(!app.adding_item);
    // Through the command interface no save is requested either.
    let r = app.step(Command::Delete, today);
    assert_eq!(r.error, Some(EngineError::NoSelection));
    assert!(r.save.is_none());
    let r = app.step(Command::ToggleComplete, today);
    assert_eq!(r.error, Some(EngineError::NoSelection));
    assert!(r.save.is_none());
    let r = app.step(Command::StartEdit, today);
    assert_eq!(r.error, Some(EngineError::NoSelection));
    assert!(r.prefill.is_none());
}

#[test]
fn errands_scenario_end_to_end() {
    let today = day(2024, 1, 2);
    let mut app = app_from(
        "buy milk +errands\ncall mom @phone\nx 2024-01-01 file taxes +errands",
        today,
    );
    assert_eq!(app.get_projects(), vec![String::from("errands")]);
    assert_eq!(app.get_contexts(), vec![String::from("phone")]);
    // Select project "errands".
    let r = app.step(Command::FocusNext, today);
    assert!(r.save.is_none());
    assert_eq!(app.focus, Focus::Projects);
    app.step(Command::Next, today);
    assert_eq!(app.project_selected, Some(0));
    assert_eq!(app.get_selected_project(), Some(String::from("errands")));
    // The resolved view: both errands tasks, unfinished first.
    assert_eq!(app.get_todo_list(), vec![0, 2]);
    // Back to the tasks pane, select the first row, complete it.
    app.step(Command::FocusPrevious, today);
    assert_eq!(app.focus, Focus::Tasks);
    app.step(Command::Next, today);
    assert_eq!(app.task_selected, Some(0));
    assert_eq!(app.get_selected_item(), Some(0));
    let r = app.step(Command::ToggleComplete, today);
    assert!(app.tasks[0].finished);
    assert_eq!(app.tasks[0].completion_date, Some(today));
    let saved = r.save.expect("a changed stream must be written");
    assert_eq!(
        saved,
        "x 2024-01-02 buy milk +errands\ncall mom @phone\nx 2024-01-01 file taxes +errands"
    );
    // Unchanged stream: completing and un-completing writes twice, the
    // second toggle restoring the original text would still differ from
    // the last write, so it is written again.
    let r = app.step(Command::ToggleComplete, today);
    let saved = r.save.expect("the stream changed back");
    assert_eq!(
        saved,
        "buy milk +errands\ncall mom @phone\nx 2024-01-01 file taxes +errands"
    );
}

#[test]
fn toggle_sort_reorders_display_without_saving() {
    let today = day(2024, 1, 2);
    let mut app = app_from("x 2024-01-01 a\nb", today);
    assert_eq!(app.get_todo_list(), vec![1, 0]);
    let r = app.step(Command::ToggleSort, today);
    assert!(r.save.is_none());
    assert!(!app.sorting);
    assert_eq!(app.get_todo_list(), vec![0, 1]);
}

#[test]
fn commit_add_appends_and_stamps_creation_date() {
    let today = day(2024, 5, 6);
    let mut app = App::new(Vec::new(), None);
    app.step(Command::StartAdd, today);
    assert!(app.adding_item);
    let r = app.step(Command::CommitAdd(String::from("new thing +x")), today);
    assert!(!app.adding_item);
    assert_eq!(app.tasks.len(), 1);
    assert_eq!(app.tasks[0].subject, "new thing +x");
    assert_eq!(app.tasks[0].creation_date, Some(today));
    assert!(r.save.is_some());
    // A line carrying its own creation date keeps it.
    app.step(Command::StartAdd, today);
    app.step(Command::CommitAdd(String::from("2023-05-05 dated")), today);
    assert_eq!(app.tasks[1].creation_date, Some(day(2023, 5, 5)));
}

#[test]
fn edit_replaces_in_place_and_cancel_loses_nothing() {
    let today = day(2024, 1, 2);
    let mut app = app_from("a\nb\nc", today);
    app.sorting = false;
    app.task_selected = Some(1);
    // Cancelling an edit leaves the record untouched.
    let r = app.step(Command::StartEdit, today);
    assert_eq!(r.prefill, Some(String::from("b")));
    assert!(app.adding_item);
    app.step(Command::CancelAdd, today);
    assert!(!app.adding_item);
    assert_eq!(app.tasks.len(), 3);
    assert_eq!(app.tasks[1].subject, "b");
    // Committing replaces the record in place.
    app.step(Command::StartEdit, today);
    let r = app.step(Command::CommitAdd(String::from("b2 +tag")), today);
    assert_eq!(app.tasks.len(), 3);
    assert_eq!(app.tasks[1].subject, "b2 +tag");
    assert_eq!(app.tasks[1].creation_date, Some(day(2024, 1, 2)));
    assert_eq!(app.tasks[2].subject, "c");
    // The fresh commit was stamped with today's creation date.
    assert_eq!(r.save.as_deref(), Some("a\n2024-01-02 b2 +tag\nc"));
}

#[test]
fn delete_removes_the_selected_position() {
    let today = day(2024, 1, 2);
    let mut app = app_from("a\nsame +d\nsame +d", today);
    app.sorting = false;
    app.task_selected = Some(2);
    let r = app.step(Command::Delete, today);
    assert_eq!(app.tasks.len(), 2);
    assert_eq!(app.tasks[0].subject, "a");
    assert_eq!(app.tasks[1].subject, "same +d");
    assert_eq!(r.save.as_deref(), Some("a\nsame +d"));
}

#[test]
fn stale_pane_selection_filters_nothing() {
    let today = day(2024, 1, 2);
    let mut app = app_from("a +x\nb", today);
    app.project_selected = Some(7);
    assert_eq!(app.get_selected_project(), None);
    assert_eq!(app.get_todo_list(), vec![0, 1]);
}

#[test]
fn imported_records_are_appended() {
    let today = day(2024, 1, 2);
    let local = load_collection("a", today);
    let imported = load_collection("b +remote", today);
    let app = App::new(local, Some(imported));
    assert_eq!(app.tasks.len(), 2);
    assert_eq!(app.tasks[1].subject, "b +remote");
    assert_eq!(app.get_projects(), vec![String::from("remote")]);
}

#[test]
fn quit_changes_nothing() {
    let today = day(2024, 1, 2);
    let mut app = app_from("a", today);
    let r = app.step(Command::Quit, today);
    assert!(r.quit);
    assert!(r.save.is_none() && r.error.is_none() && r.prefill.is_none());
    assert_eq!(app.tasks.len(), 1);
}

#[test]
fn unchanged_stream_is_not_rewritten() {
    let today = day(2024, 1, 2);
    let mut app = app_from("2024-01-01 a\nb", today);
    app.sorting = false;
    app.task_selected = Some(0);
    let r = app.step(Command::ToggleComplete, today);
    assert!(r.save.is_some());
    app.last_saved = serialize_collection(&app.tasks);
    // An edit committed without a change serializes to the same stream.
    app.step(Command::StartEdit, today);
    let r = app.step(Command::CommitAdd(String::from("x 2024-01-02 2024-01-01 a")), today);
    assert_eq!(serialize_collection(&app.tasks), app.last_saved);
    assert!(r.save.is_none());
}

#[test]
fn tasks_compare_structurally() {
    let today = day(2024, 1, 2);
    let a = load_collection("x 2024-01-01 done +p @c", today);
    let b = load_collection("x 2024-01-01 done +p @c", today);
    assert_eq!(a, b);
    let c = load_collection("x 2024-01-01 done +p @d", today);
    assert_ne!(a, c);
}

#[test]
fn date_holds_its_components() {
    let d = Date::new(2024, 12, 31);
    assert_eq!(d.year, 2024);
    assert_eq!(d.month, 12);
    assert_eq!(d.day, 31);
    let task = Task {
        subject: String::from("s"),
        priority: NO_PRIORITY,
        finished: false,
        completion_date: None,
        creation_date: Some(d),
        due_date: None,
        projects: Vec::new(),
        contexts: Vec::new(),
    };
    assert_eq!(task.creation_date, Some(Date::new(2024, 12, 31)));
}
