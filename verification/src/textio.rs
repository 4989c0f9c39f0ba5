//! The text-parsing collaborator.
//!
//! Splitting a text line into subject, flags, dates and tags — and the
//! inverse formatting — is the todo.txt grammar, provided by the
//! `todo_lib` crate. Both directions are deterministic functions of their
//! arguments, so the engine names their results and states everything
//! else it does in terms of those names.

use chrono::Datelike;
use vstd::prelude::*;

use crate::date::Date;
use crate::task::Task;
use crate::task::TaskView;

verus! {

/// A base date the parser may shift by any relative-date expression
/// without leaving the calendar's supported range: chrono's `NaiveDate`
/// covers the years -262143 through 262142, and the largest step the
/// todo.txt grammar admits is 255 weeks (plus a few business-day
/// corrections), well under the six years held back at the top.
pub open spec fn valid_parse_base(d: Date) -> bool {
    -262143 <= d.year <= 262136
}

/// The task record that the text parser yields for a line, given the
/// base date used to resolve relative date expressions.
pub uninterp spec fn parse_of(text: Seq<char>, today: Date) -> TaskView;

/// The canonical text form of a task record.
pub uninterp spec fn text_of(t: TaskView) -> Seq<char>;

/// Relies on todo_lib's `todotxt::Task::parse`: it accepts any line and
/// its result depends on the line and the base date alone. Dates cross
/// the boundary through chrono's `NaiveDate::from_ymd_opt` (out-of-range
/// components fall back to chrono's default date) and the `Datelike`
/// accessors, both functions of their arguments. The base-date bound
/// keeps the parser's relative-date arithmetic inside the calendar's
/// range, where chrono's date addition would otherwise abort.
#[verifier::external_body]
pub(crate) fn parse_task(text: &str, today: Date) -> (t: Task)
    requires
        valid_parse_base(today),
    ensures
        t@ == parse_of(text@, today),
{
    let base = chrono::NaiveDate::from_ymd_opt(today.year, today.month as u32, today.day as u32)
        .unwrap_or_default();
    let u = todo_lib::todotxt::Task::parse(text, base);
    let c = |d: chrono::NaiveDate| Date { year: d.year(), month: d.month() as u8, day: d.day() as u8 };
    Task {
        subject: u.subject,
        priority: u.priority,
        finished: u.finished,
        completion_date: u.finish_date.map(c),
        creation_date: u.create_date.map(c),
        due_date: u.due_date.map(c),
        projects: u.projects,
        contexts: u.contexts,
    }
}

/// Relies on todo_lib's `Display` for `todotxt::Task`: the printed line
/// is a function of the completion flag, the priority marker, the
/// completion and creation dates and the subject alone (tags stay
/// embedded in the subject).
/// Dates cross the boundary through chrono's `NaiveDate::from_ymd_opt`,
/// a function of its arguments.
#[verifier::external_body]
pub(crate) fn serialize_task(t: &Task) -> (r: String)
    ensures
        r@ == text_of(t@),
{
    let c = |d: &Date| {
        chrono::NaiveDate::from_ymd_opt(d.year, d.month as u32, d.day as u32).unwrap_or_default()
    };
    let mut u = todo_lib::todotxt::Task::default();
    u.subject = t.subject.clone();
    u.priority = t.priority;
    u.finished = t.finished;
    u.finish_date = t.completion_date.as_ref().map(c);
    u.create_date = t.creation_date.as_ref().map(c);
    u.to_string()
}

} // verus!
