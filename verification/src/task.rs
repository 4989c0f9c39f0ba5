//! The task record: the atomic unit of data.
//!
//! A task is plain data: a subject line, a completion flag, three optional
//! dates and the project/context tags that the text parser extracted from
//! the subject. The only behaviour a task has of its own is the completion
//! transition, which couples `finished` with `completion_date`.

use vstd::prelude::*;

use crate::date::Date;

verus! {

/// The priority value that stands for "no priority", as the text
/// parser holds it (priorities run from 0 for `(A)` up to 25 for `(Z)`).
pub const NO_PRIORITY: u8 = 26;

/// A single task record. Equality is structural over all fields.
#[derive(Debug, PartialEq, Eq)]
pub struct Task {
    /// Free text description; inline tags stay embedded in it.
    pub subject: String,
    /// Priority marker, 0 for `(A)` through 25 for `(Z)`, `NO_PRIORITY`
    /// when the record has none; carried through every mutation
    /// untouched.
    pub priority: u8,
    /// Completion flag.
    pub finished: bool,
    /// Set exactly when `finished` turns true, cleared when it turns false.
    pub completion_date: Option<Date>,
    /// Set once when the engine creates a task without one.
    pub creation_date: Option<Date>,
    /// Used only for display; never changed by the engine.
    pub due_date: Option<Date>,
    /// Distinct project tags of the record.
    pub projects: Vec<String>,
    /// Distinct context tags of the record.
    pub contexts: Vec<String>,
}

/// The mathematical model of a task record.
#[verifier::ext_equal]
pub ghost struct TaskView {
    pub subject: Seq<char>,
    pub priority: u8,
    pub finished: bool,
    pub completion_date: Option<Date>,
    pub creation_date: Option<Date>,
    pub due_date: Option<Date>,
    pub projects: Seq<Seq<char>>,
    pub contexts: Seq<Seq<char>>,
}

impl View for Task {
    type V = TaskView;

    open spec fn view(&self) -> TaskView {
        TaskView {
            subject: self.subject@,
            priority: self.priority,
            finished: self.finished,
            completion_date: self.completion_date,
            creation_date: self.creation_date,
            due_date: self.due_date,
            projects: self.projects.deep_view(),
            contexts: self.contexts.deep_view(),
        }
    }
}

/// The record invariant: a finished task carries a completion date,
/// an unfinished one carries none.
pub open spec fn task_wf(t: TaskView) -> bool {
    t.finished <==> t.completion_date is Some
}

/// The completion transition: finishing stamps today's date, un-finishing
/// clears it. Every other field is untouched.
pub open spec fn toggle_spec(t: TaskView, today: Date) -> TaskView {
    if t.finished {
        TaskView { finished: false, completion_date: None, ..t }
    } else {
        TaskView { finished: true, completion_date: Some(today), ..t }
    }
}

/// The model of a sequence of task records.
pub open spec fn task_views(ts: Seq<Task>) -> Seq<TaskView> {
    ts.map_values(|t: Task| t@)
}

impl Task {
    /// Flips the completion state, stamping or clearing the completion date.
    pub fn toggle(&mut self, today: Date)
        ensures
            final(self)@ == toggle_spec(old(self)@, today),
            task_wf(final(self)@),
    {
        if self.finished {
            self.finished = false;
            self.completion_date = None;
        } else {
            self.finished = true;
            self.completion_date = Some(today);
        }
        proof {
            assert(self@ =~= toggle_spec(old(self)@, today));
        }
    }
}

/// Toggling completion twice restores the task: exactly, when the task is
/// unfinished or its completion date matches the date of the second toggle;
/// in `finished` and in the presence of a completion date, always.
pub proof fn lemma_toggle_round_trip(t: TaskView, d1: Date, d2: Date)
    requires
        task_wf(t),
    ensures
        toggle_spec(toggle_spec(t, d1), d2).finished == t.finished,
        toggle_spec(toggle_spec(t, d1), d2).completion_date is Some <==> t.completion_date is Some,
        toggle_spec(toggle_spec(t, d1), d2).subject == t.subject,
        toggle_spec(toggle_spec(t, d1), d2).priority == t.priority,
        toggle_spec(toggle_spec(t, d1), d2).creation_date == t.creation_date,
        toggle_spec(toggle_spec(t, d1), d2).due_date == t.due_date,
        toggle_spec(toggle_spec(t, d1), d2).projects == t.projects,
        toggle_spec(toggle_spec(t, d1), d2).contexts == t.contexts,
        !t.finished || t.completion_date == Some(d2) ==> toggle_spec(toggle_spec(t, d1), d2) == t,
{
    if !t.finished || t.completion_date == Some(d2) {
        assert(toggle_spec(toggle_spec(t, d1), d2) =~= t);
    }
}

} // verus!
