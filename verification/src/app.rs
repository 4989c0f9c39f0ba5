//! The session engine: three coupled panes over one task collection.
//!
//! The `App` holds the collection, the focus, one optional selected row
//! per pane, the sort toggle and the add/edit mode. Every command handler
//! is a function of this explicit state; the panes' row lists are derived
//! fresh from the collection on every use, never cached. Positions into
//! the collection identify records and are invalidated by any structural
//! mutation, so each handler recomputes the resolved view before using a
//! selection.

use vstd::prelude::*;

use crate::date::Date;
use crate::filter::opt_text;
use crate::filter::resolve;
use crate::filter::resolve_spec;
use crate::filter::lemma_resolve_elements;
use crate::lines::collection_text;
use crate::lines::serialize_collection;
use crate::nav::focus_next_spec;
use crate::nav::focus_prev_spec;
use crate::nav::next_sel;
use crate::nav::next_sel_spec;
use crate::nav::prev_sel;
use crate::nav::prev_sel_spec;
use crate::nav::Focus;
use crate::tags::contexts_of;
use crate::tags::contexts_rows;
use crate::tags::projects_of;
use crate::tags::projects_rows;
use crate::task::task_views;
use crate::task::toggle_spec;
use crate::task::Task;
use crate::task::TaskView;
use crate::textio::parse_of;
use crate::textio::parse_task;
use crate::textio::serialize_task;
use crate::textio::text_of;
use crate::textio::valid_parse_base;

verus! {

/// A recoverable refusal of a command.
#[derive(PartialEq, Eq, Structural, Clone, Copy, Debug)]
pub enum EngineError {
    /// A mutation needing a target ran with no row selected in the
    /// tasks pane; the command is a no-op.
    NoSelection,
}

/// The session state.
pub struct App {
    /// The task collection, in insertion order.
    pub tasks: Vec<Task>,
    /// The focused pane.
    pub focus: Focus,
    /// Selected row of the projects pane, indexing its sorted tag rows.
    pub project_selected: Option<usize>,
    /// Selected row of the tasks pane, indexing the resolved view.
    pub task_selected: Option<usize>,
    /// Selected row of the contexts pane, indexing its sorted tag rows.
    pub context_selected: Option<usize>,
    /// Whether the resolved view regroups by completion status.
    pub sorting: bool,
    /// Whether the session is in add/edit mode.
    pub adding_item: bool,
    /// While editing: the position of the record being edited, replaced
    /// on commit and untouched on cancel.
    pub edit_target: Option<usize>,
    /// The record stream as last handed to the persistence adapter.
    pub last_saved: String,
}

/// The mathematical model of the session state.
#[verifier::ext_equal]
pub ghost struct AppView {
    pub tasks: Seq<TaskView>,
    pub focus: Focus,
    pub project_selected: Option<usize>,
    pub task_selected: Option<usize>,
    pub context_selected: Option<usize>,
    pub sorting: bool,
    pub adding_item: bool,
    pub edit_target: Option<usize>,
    pub last_saved: Seq<char>,
}

impl View for App {
    type V = AppView;

    open spec fn view(&self) -> AppView {
        AppView {
            tasks: task_views(self.tasks@),
            focus: self.focus,
            project_selected: self.project_selected,
            task_selected: self.task_selected,
            context_selected: self.context_selected,
            sorting: self.sorting,
            adding_item: self.adding_item,
            edit_target: self.edit_target,
            last_saved: self.last_saved@,
        }
    }
}

/// The project tag selected as the active filter, if the projects pane
/// selection lands on a row.
pub open spec fn selected_project_spec(v: AppView) -> Option<Seq<char>> {
    match v.project_selected {
        Some(i) => if i < projects_rows(v.tasks).len() {
            Some(projects_rows(v.tasks)[i as int])
        } else {
            None
        },
        None => None,
    }
}

/// The context tag selected as the active filter.
pub open spec fn selected_context_spec(v: AppView) -> Option<Seq<char>> {
    match v.context_selected {
        Some(i) => if i < contexts_rows(v.tasks).len() {
            Some(contexts_rows(v.tasks)[i as int])
        } else {
            None
        },
        None => None,
    }
}

/// The rows of the tasks pane: the resolved view under the active
/// filters and the sort toggle.
pub open spec fn task_rows_spec(v: AppView) -> Seq<usize> {
    resolve_spec(v.tasks, selected_project_spec(v), selected_context_spec(v), v.sorting)
}

/// The collection position of the record the tasks pane selection
/// targets, if the selection lands on a row of the resolved view.
pub open spec fn target_spec(v: AppView) -> Option<usize> {
    match v.task_selected {
        Some(i) => if i < task_rows_spec(v).len() {
            Some(task_rows_spec(v)[i as int])
        } else {
            None
        },
        None => None,
    }
}

/// Moving the selection down in the focused pane.
pub open spec fn nav_next_spec(v: AppView) -> AppView {
    match v.focus {
        Focus::Projects => AppView {
            project_selected: next_sel_spec(v.project_selected, projects_rows(v.tasks).len()),
            ..v
        },
        Focus::Tasks => AppView {
            task_selected: next_sel_spec(v.task_selected, task_rows_spec(v).len()),
            ..v
        },
        Focus::Contexts => AppView {
            context_selected: next_sel_spec(v.context_selected, contexts_rows(v.tasks).len()),
            ..v
        },
    }
}

/// Moving the selection up in the focused pane.
pub open spec fn nav_prev_spec(v: AppView) -> AppView {
    match v.focus {
        Focus::Projects => AppView {
            project_selected: prev_sel_spec(v.project_selected, projects_rows(v.tasks).len()),
            ..v
        },
        Focus::Tasks => AppView {
            task_selected: prev_sel_spec(v.task_selected, task_rows_spec(v).len()),
            ..v
        },
        Focus::Contexts => AppView {
            context_selected: prev_sel_spec(v.context_selected, contexts_rows(v.tasks).len()),
            ..v
        },
    }
}

impl App {
    /// Builds a fresh session over the loaded collection, appending any
    /// records the import adapter handed over. The tasks pane starts
    /// focused, nothing selected, sorting on, no text written yet.
    pub fn new(tasks: Vec<Task>, imported: Option<Vec<Task>>) -> (app: App)
        ensures
            app@.tasks == task_views(tasks@) + (match imported {
                Some(v) => task_views(v@),
                None => Seq::<TaskView>::empty(),
            }),
            app@.focus == Focus::Tasks,
            app@.project_selected is None,
            app@.task_selected is None,
            app@.context_selected is None,
            app@.sorting == true,
            app@.adding_item == false,
            app@.edit_target is None,
            app@.last_saved == Seq::<char>::empty(),
    {
        let ghost t0 = tasks@;
        let mut all = tasks;
        match imported {
            Some(mut extra) => {
                let ghost e0 = extra@;
                all.append(&mut extra);
                proof {
                    assert(task_views(all@) =~= task_views(t0) + task_views(e0));
                }
            },
            None => {
                proof {
                    assert(task_views(all@) =~= task_views(t0) + Seq::<TaskView>::empty());
                }
            },
        }
        App {
            tasks: all,
            focus: Focus::Tasks,
            project_selected: None,
            task_selected: None,
            context_selected: None,
            sorting: true,
            adding_item: false,
            edit_target: None,
            last_saved: String::new(),
        }
    }

    /// The rows of the projects pane.
    pub fn get_projects(&self) -> (rows: Vec<String>)
        ensures
            rows.deep_view() == projects_rows(self@.tasks),
    {
        projects_of(&self.tasks)
    }

    /// The rows of the contexts pane.
    pub fn get_contexts(&self) -> (rows: Vec<String>)
        ensures
            rows.deep_view() == contexts_rows(self@.tasks),
    {
        contexts_of(&self.tasks)
    }

    /// The active project filter: the tag under the projects pane
    /// selection, if any.
    pub fn get_selected_project(&self) -> (r: Option<String>)
        ensures
            opt_text(r) == selected_project_spec(self@),
    {
        match self.project_selected {
            None => None,
            Some(i) => {
                let rows = self.get_projects();
                if i < rows.len() {
                    Some(rows[i].clone())
                } else {
                    None
                }
            },
        }
    }

    /// The active context filter: the tag under the contexts pane
    /// selection, if any.
    pub fn get_selected_context(&self) -> (r: Option<String>)
        ensures
            opt_text(r) == selected_context_spec(self@),
    {
        match self.context_selected {
            None => None,
            Some(i) => {
                let rows = self.get_contexts();
                if i < rows.len() {
                    Some(rows[i].clone())
                } else {
                    None
                }
            },
        }
    }

    /// The rows of the tasks pane: collection positions of the records
    /// passing the active filters, regrouped by status when sorting.
    pub fn get_todo_list(&self) -> (ids: Vec<usize>)
        ensures
            ids@ == task_rows_spec(self@),
    {
        let pf = self.get_selected_project();
        let cf = self.get_selected_context();
        resolve(&self.tasks, &pf, &cf, self.sorting)
    }

    /// The collection position of the selected task, if the tasks pane
    /// selection lands on a row.
    pub fn get_selected_item(&self) -> (r: Option<usize>)
        ensures
            r == target_spec(self@),
    {
        match self.task_selected {
            None => None,
            Some(i) => {
                let ids = self.get_todo_list();
                if i < ids.len() {
                    Some(ids[i])
                } else {
                    None
                }
            },
        }
    }

    /// Moves the tasks pane selection down one row, wrapping.
    fn next_todo(&mut self)
        ensures
            final(self)@ == (AppView {
                task_selected: next_sel_spec(
                    old(self)@.task_selected,
                    task_rows_spec(old(self)@).len(),
                ),
                ..old(self)@
            }),
    {
        let len = self.get_todo_list().len();
        self.task_selected = next_sel(self.task_selected, len);
        proof {
            assert(self@ =~= (AppView {
                task_selected: next_sel_spec(
                    old(self)@.task_selected,
                    task_rows_spec(old(self)@).len(),
                ),
                ..old(self)@
            }));
        }
    }

    /// Moves the projects pane selection down one row, wrapping.
    fn next_project(&mut self)
        ensures
            final(self)@ == (AppView {
                project_selected: next_sel_spec(
                    old(self)@.project_selected,
                    projects_rows(old(self)@.tasks).len(),
                ),
                ..old(self)@
            }),
    {
        let len = self.get_projects().len();
        self.project_selected = next_sel(self.project_selected, len);
        proof {
            assert(self@ =~= (AppView {
                project_selected: next_sel_spec(
                    old(self)@.project_selected,
                    projects_rows(old(self)@.tasks).len(),
                ),
                ..old(self)@
            }));
        }
    }

    /// Moves the contexts pane selection down one row, wrapping.
    fn next_context(&mut self)
        ensures
            final(self)@ == (AppView {
                context_selected: next_sel_spec(
                    old(self)@.context_selected,
                    contexts_rows(old(self)@.tasks).len(),
                ),
                ..old(self)@
            }),
    {
        let len = self.get_contexts().len();
        self.context_selected = next_sel(self.context_selected, len);
        proof {
            assert(self@ =~= (AppView {
                context_selected: next_sel_spec(
                    old(self)@.context_selected,
                    contexts_rows(old(self)@.tasks).len(),
                ),
                ..old(self)@
            }));
        }
    }

    /// Moves the selection down in the focused pane; on an empty pane
    /// the selection stays absent.
    pub fn next(&mut self)
        ensures
            final(self)@ == nav_next_spec(old(self)@),
    {
        match self.focus {
            Focus::Projects => self.next_project(),
            Focus::Tasks => self.next_todo(),
            Focus::Contexts => self.next_context(),
        }
    }

    /// Moves the tasks pane selection up one row, wrapping.
    pub fn previous_todo(&mut self)
        ensures
            final(self)@ == (AppView {
                task_selected: prev_sel_spec(
                    old(self)@.task_selected,
                    task_rows_spec(old(self)@).len(),
                ),
                ..old(self)@
            }),
    {
        let len = self.get_todo_list().len();
        self.task_selected = prev_sel(self.task_selected, len);
        proof {
            assert(self@ =~= (AppView {
                task_selected: prev_sel_spec(
                    old(self)@.task_selected,
                    task_rows_spec(old(self)@).len(),
                ),
                ..old(self)@
            }));
        }
    }

    /// Moves the projects pane selection up one row, wrapping.
    pub fn previous_project(&mut self)
        ensures
            final(self)@ == (AppView {
                project_selected: prev_sel_spec(
                    old(self)@.project_selected,
                    projects_rows(old(self)@.tasks).len(),
                ),
                ..old(self)@
            }),
    {
        let len = self.get_projects().len();
        self.project_selected = prev_sel(self.project_selected, len);
        proof {
            assert(self@ =~= (AppView {
                project_selected: prev_sel_spec(
                    old(self)@.project_selected,
                    projects_rows(old(self)@.tasks).len(),
                ),
                ..old(self)@
            }));
        }
    }

    /// Moves the contexts pane selection up one row, wrapping.
    pub fn previous_context(&mut self)
        ensures
            final(self)@ == (AppView {
                context_selected: prev_sel_spec(
                    old(self)@.context_selected,
                    contexts_rows(old(self)@.tasks).len(),
                ),
                ..old(self)@
            }),
    {
        let len = self.get_contexts().len();
        self.context_selected = prev_sel(self.context_selected, len);
        proof {
            assert(self@ =~= (AppView {
                context_selected: prev_sel_spec(
                    old(self)@.context_selected,
                    contexts_rows(old(self)@.tasks).len(),
                ),
                ..old(self)@
            }));
        }
    }

    /// Moves the selection up in the focused pane; on an empty pane the
    /// selection stays absent.
    pub fn previous(&mut self)
        ensures
            final(self)@ == nav_prev_spec(old(self)@),
    {
        match self.focus {
            Focus::Projects => self.previous_project(),
            Focus::Tasks => self.previous_todo(),
            Focus::Contexts => self.previous_context(),
        }
    }

    /// Cycles the focus forward; no pane's selection moves.
    pub fn next_pane(&mut self)
        ensures
            final(self)@ == (AppView { focus: focus_next_spec(old(self)@.focus), ..old(self)@ }),
    {
        self.focus = match self.focus {
            Focus::Projects => Focus::Contexts,
            Focus::Tasks => Focus::Projects,
            Focus::Contexts => Focus::Tasks,
        };
        proof {
            assert(self@ =~= (AppView { focus: focus_next_spec(old(self)@.focus), ..old(self)@ }));
        }
    }

    /// Cycles the focus backward; no pane's selection moves.
    pub fn prev_pane(&mut self)
        ensures
            final(self)@ == (AppView { focus: focus_prev_spec(old(self)@.focus), ..old(self)@ }),
    {
        self.focus = match self.focus {
            Focus::Projects => Focus::Tasks,
            Focus::Tasks => Focus::Contexts,
            Focus::Contexts => Focus::Projects,
        };
        proof {
            assert(self@ =~= (AppView { focus: focus_prev_spec(old(self)@.focus), ..old(self)@ }));
        }
    }

    /// Clears every pane's selection and focuses the tasks pane.
    pub fn clear_selection(&mut self)
        ensures
            final(self)@ == (AppView {
                focus: Focus::Tasks,
                project_selected: None,
                task_selected: None,
                context_selected: None,
                ..old(self)@
            }),
    {
        self.project_selected = None;
        self.task_selected = None;
        self.context_selected = None;
        self.focus = Focus::Tasks;
        proof {
            assert(self@ =~= (AppView {
                focus: Focus::Tasks,
                project_selected: None,
                task_selected: None,
                context_selected: None,
                ..old(self)@
            }));
        }
    }

    /// Flips the sort toggle of the resolved view; display only, so no
    /// persistence follows.
    pub fn toggle_sort(&mut self)
        ensures
            final(self)@ == (AppView { sorting: !old(self)@.sorting, ..old(self)@ }),
    {
        self.sorting = !self.sorting;
        proof {
            assert(self@ =~= (AppView { sorting: !old(self)@.sorting, ..old(self)@ }));
        }
    }

    /// Flips the completion state of the selected task, stamping today
    /// on completion. With no row selected the collection and the whole
    /// session are left untouched and `NoSelection` is returned.
    pub fn toggle_complete(&mut self, today: Date) -> (r: Result<(), EngineError>)
        ensures
            final(self)@ == toggle_complete_spec(old(self)@, today),
            r is Ok <==> target_spec(old(self)@) is Some,
            r is Err ==> r == Result::<(), EngineError>::Err(EngineError::NoSelection)
                && *final(self) == *old(self),
    {
        let ids = self.get_todo_list();
        let ghost v = self@;
        match self.task_selected {
            None => Err(EngineError::NoSelection),
            Some(i) => {
                if i < ids.len() {
                    let id = ids[i];
                    let n = self.tasks.len();
                    proof {
                        assert(v.tasks.len() == n as int);
                        lemma_resolve_elements(
                            v.tasks,
                            selected_project_spec(v),
                            selected_context_spec(v),
                            v.sorting,
                        );
                        assert(id < v.tasks.len());
                    }
                    let ghost before = self.tasks@;
                    let mut t = self.tasks.remove(id);
                    t.toggle(today);
                    self.tasks.insert(id, t);
                    proof {
                        let updated = v.tasks.update(id as int, toggle_spec(v.tasks[id as int], today));
                        assert forall|k: int| 0 <= k < self.tasks@.len() implies task_views(
                            self.tasks@,
                        )[k] == updated[k] by {
                            if k < id {
                                assert(self.tasks@[k] == before.remove(id as int)[k]);
                                assert(before.remove(id as int)[k] == before[k]);
                            } else if k > id {
                                assert(self.tasks@[k] == before.remove(id as int)[k - 1]);
                                assert(before.remove(id as int)[k - 1] == before[k]);
                            }
                        }
                        assert(task_views(self.tasks@) =~= updated);
                        assert(self@ =~= toggle_complete_spec(v, today));
                    }
                    Ok(())
                } else {
                    Err(EngineError::NoSelection)
                }
            },
        }
    }

    /// Deletes the selected task, by the collection position captured at
    /// selection time, so a duplicate record never makes it remove the
    /// wrong instance. With no row selected the session is untouched and
    /// `NoSelection` is returned.
    pub fn remove_selected_item(&mut self) -> (r: Result<(), EngineError>)
        ensures
            final(self)@ == delete_spec(old(self)@),
            r is Ok <==> target_spec(old(self)@) is Some,
            r is Err ==> r == Result::<(), EngineError>::Err(EngineError::NoSelection)
                && *final(self) == *old(self),
    {
        let ids = self.get_todo_list();
        let ghost v = self@;
        match self.task_selected {
            None => Err(EngineError::NoSelection),
            Some(i) => {
                if i < ids.len() {
                    let id = ids[i];
                    let n = self.tasks.len();
                    proof {
                        assert(v.tasks.len() == n as int);
                        lemma_resolve_elements(
                            v.tasks,
                            selected_project_spec(v),
                            selected_context_spec(v),
                            v.sorting,
                        );
                        assert(id < v.tasks.len());
                    }
                    let ghost before = self.tasks@;
                    self.tasks.remove(id);
                    proof {
                        assert forall|k: int| 0 <= k < self.tasks@.len() implies task_views(
                            self.tasks@,
                        )[k] == v.tasks.remove(id as int)[k] by {
                            if k < id {
                                assert(self.tasks@[k] == before[k]);
                            } else {
                                assert(self.tasks@[k] == before[k + 1]);
                            }
                        }
                        assert(task_views(self.tasks@) =~= v.tasks.remove(id as int));
                        assert(self@ =~= delete_spec(v));
                    }
                    Ok(())
                } else {
                    Err(EngineError::NoSelection)
                }
            },
        }
    }

    /// Starts editing the selected task: enters add/edit mode, remembers
    /// the target's position for the commit to replace, and returns the
    /// task's full text form to prefill the input buffer. The record
    /// itself stays in the collection, so cancelling loses nothing.
    pub fn start_edit(&mut self) -> (r: Result<String, EngineError>)
        ensures
            final(self)@ == start_edit_spec(old(self)@),
            r is Ok <==> target_spec(old(self)@) is Some,
            target_spec(old(self)@) matches Some(id) ==> (r matches Ok(text) && text@ == text_of(
                old(self)@.tasks[id as int],
            )),
            r is Err ==> r == Result::<String, EngineError>::Err(EngineError::NoSelection)
                && *final(self) == *old(self),
    {
        let ids = self.get_todo_list();
        let ghost v = self@;
        match self.task_selected {
            None => Err(EngineError::NoSelection),
            Some(i) => {
                if i < ids.len() {
                    let id = ids[i];
                    let n = self.tasks.len();
                    proof {
                        assert(v.tasks.len() == n as int);
                        lemma_resolve_elements(
                            v.tasks,
                            selected_project_spec(v),
                            selected_context_spec(v),
                            v.sorting,
                        );
                        assert(id < v.tasks.len());
                    }
                    let text = serialize_task(&self.tasks[id]);
                    self.adding_item = true;
                    self.edit_target = Some(id);
                    proof {
                        assert(self@ =~= start_edit_spec(v));
                    }
                    Ok(text)
                } else {
                    Err(EngineError::NoSelection)
                }
            },
        }
    }

    /// Enters add mode for a fresh record.
    pub fn start_add(&mut self)
        ensures
            final(self)@ == start_add_spec(old(self)@),
    {
        self.adding_item = true;
        self.edit_target = None;
        proof {
            assert(self@ =~= start_add_spec(old(self)@));
        }
    }

    /// Leaves add/edit mode without touching the collection; a pending
    /// edit target is dropped and its record stays as it was.
    pub fn cancel_add(&mut self)
        ensures
            final(self)@ == cancel_add_spec(old(self)@),
    {
        self.adding_item = false;
        self.edit_target = None;
        proof {
            assert(self@ =~= cancel_add_spec(old(self)@));
        }
    }

    /// Commits the text buffer: parses it, stamps today as the creation
    /// date when the parse produced none, then replaces the pending edit
    /// target in place — or appends when none is pending — and leaves
    /// add/edit mode. The base date must sit inside the calendar range
    /// the parser may shift within.
    pub fn commit_add(&mut self, text: &str, today: Date)
        requires
            valid_parse_base(today),
        ensures
            final(self)@ == commit_add_spec(old(self)@, text@, today),
    {
        let ghost v = self@;
        let mut t = parse_task(text, today);
        if t.creation_date.is_none() {
            t.creation_date = Some(today);
        }
        proof {
            assert(t@ =~= finalize_new(parse_of(text@, today), today));
        }
        let ghost tv = t@;
        let replace = match self.edit_target {
            Some(id) => if id < self.tasks.len() {
                Some(id)
            } else {
                None
            },
            None => None,
        };
        match replace {
            Some(id) => {
                let ghost before = self.tasks@;
                self.tasks.set(id, t);
                proof {
                    assert forall|k: int| 0 <= k < self.tasks@.len() implies task_views(
                        self.tasks@,
                    )[k] == v.tasks.update(id as int, tv)[k] by {
                        if k != id {
                            assert(self.tasks@[k] == before[k]);
                        }
                    }
                    assert(task_views(self.tasks@) =~= v.tasks.update(id as int, tv));
                }
            },
            None => {
                let ghost before = self.tasks@;
                self.tasks.push(t);
                proof {
                    assert forall|k: int| 0 <= k < self.tasks@.len() implies task_views(
                        self.tasks@,
                    )[k] == v.tasks.push(tv)[k] by {
                        if k < before.len() {
                            assert(self.tasks@[k] == before[k]);
                        }
                    }
                    assert(task_views(self.tasks@) =~= v.tasks.push(tv));
                }
            },
        }
        self.adding_item = false;
        self.edit_target = None;
        proof {
            assert(self@ =~= commit_add_spec(v, text@, today));
        }
    }

    /// Serializes the collection and, when the record stream differs
    /// from the last one written, remembers and returns it for the
    /// persistence adapter; an unchanged stream is not re-written.
    fn save_if_changed(&mut self) -> (r: Option<String>)
        ensures
            final(self)@ == sync_spec(old(self)@),
            r is Some <==> save_due(old(self)@),
            r matches Some(s) ==> s@ == collection_text(old(self)@.tasks),
    {
        let text = serialize_collection(&self.tasks);
        if text == self.last_saved {
            proof {
                assert(self@ =~= sync_spec(old(self)@));
            }
            None
        } else {
            let out = text.clone();
            self.last_saved = text;
            proof {
                assert(self@ =~= sync_spec(old(self)@));
            }
            Some(out)
        }
    }

    /// Runs one engine command to completion and reports what the
    /// surrounding program must do: quit, hand a prefill to the input
    /// buffer, surface a refusal, or persist the returned record stream.
    /// Committing text parses it, so that command needs a base date
    /// inside the calendar range the parser may shift within.
    pub fn step(&mut self, cmd: Command, today: Date) -> (r: StepResult)
        requires
            cmd is CommitAdd ==> valid_parse_base(today),
        ensures
            final(self)@ == step_spec(old(self)@, cmd, today),
            r.quit == (cmd is Quit),
            r.error is Some <==> ((cmd is Delete || cmd is ToggleComplete || cmd is StartEdit)
                && target_spec(old(self)@) is None),
            r.error is Some ==> r.error == Some(EngineError::NoSelection),
            r.prefill is Some <==> (cmd is StartEdit && target_spec(old(self)@) is Some),
            cmd is StartEdit ==> (target_spec(old(self)@) matches Some(id) ==> (
            r.prefill matches Some(p) && p@ == text_of(old(self)@.tasks[id as int]))),
            r.save is Some <==> ((cmd is Delete && target_spec(old(self)@) is Some && save_due(
                delete_spec(old(self)@),
            )) || (cmd is ToggleComplete && target_spec(old(self)@) is Some && save_due(
                toggle_complete_spec(old(self)@, today),
            )) || (cmd matches Command::CommitAdd(text) && save_due(
                commit_add_spec(old(self)@, text@, today),
            ))),
            r.save matches Some(s) ==> s@ == collection_text(step_spec(old(self)@, cmd, today).tasks),
    {
        let mut r = StepResult { quit: false, save: None, prefill: None, error: None };
        match cmd {
            Command::Next => {
                self.next();
            },
            Command::Previous => {
                self.previous();
            },
            Command::FocusNext => {
                self.next_pane();
            },
            Command::FocusPrevious => {
                self.prev_pane();
            },
            Command::ClearSelection => {
                self.clear_selection();
            },
            Command::ToggleSort => {
                self.toggle_sort();
            },
            Command::StartAdd => {
                self.start_add();
            },
            Command::CommitAdd(text) => {
                self.commit_add(text.as_str(), today);
                r.save = self.save_if_changed();
            },
            Command::CancelAdd => {
                self.cancel_add();
            },
            Command::StartEdit => {
                match self.start_edit() {
                    Ok(p) => {
                        r.prefill = Some(p);
                    },
                    Err(e) => {
                        r.error = Some(e);
                    },
                }
            },
            Command::Delete => {
                match self.remove_selected_item() {
                    Ok(_) => {
                        r.save = self.save_if_changed();
                    },
                    Err(e) => {
                        r.error = Some(e);
                    },
                }
            },
            Command::ToggleComplete => {
                match self.toggle_complete(today) {
                    Ok(_) => {
                        r.save = self.save_if_changed();
                    },
                    Err(e) => {
                        r.error = Some(e);
                    },
                }
            },
            Command::Quit => {
                r.quit = true;
            },
        }
        r
    }
}

/// The completion transition applied to the selected task; without a
/// target the session is unchanged.
pub open spec fn toggle_complete_spec(v: AppView, today: Date) -> AppView {
    match target_spec(v) {
        Some(id) => AppView {
            tasks: v.tasks.update(id as int, toggle_spec(v.tasks[id as int], today)),
            ..v
        },
        None => v,
    }
}

/// The selected task removed from the collection; without a target the
/// session is unchanged.
pub open spec fn delete_spec(v: AppView) -> AppView {
    match target_spec(v) {
        Some(id) => AppView { tasks: v.tasks.remove(id as int), ..v },
        None => v,
    }
}

/// Entering edit mode on the selected task; without a target the
/// session is unchanged.
pub open spec fn start_edit_spec(v: AppView) -> AppView {
    match target_spec(v) {
        Some(id) => AppView { adding_item: true, edit_target: Some(id), ..v },
        None => v,
    }
}

/// Entering add mode for a fresh record.
pub open spec fn start_add_spec(v: AppView) -> AppView {
    AppView { adding_item: true, edit_target: None, ..v }
}

/// Leaving add/edit mode with the collection untouched.
pub open spec fn cancel_add_spec(v: AppView) -> AppView {
    AppView { adding_item: false, edit_target: None, ..v }
}

/// A freshly committed record: the parse result, with today stamped as
/// the creation date when the parse produced none.
pub open spec fn finalize_new(t: TaskView, today: Date) -> TaskView {
    if t.creation_date is None {
        TaskView { creation_date: Some(today), ..t }
    } else {
        t
    }
}

/// The committed text replacing the pending edit target in place, or
/// appended when none is pending, leaving add/edit mode.
pub open spec fn commit_add_spec(v: AppView, text: Seq<char>, today: Date) -> AppView {
    let t = finalize_new(parse_of(text, today), today);
    let tasks = match v.edit_target {
        Some(id) => if id < v.tasks.len() {
            v.tasks.update(id as int, t)
        } else {
            v.tasks.push(t)
        },
        None => v.tasks.push(t),
    };
    AppView { tasks, adding_item: false, edit_target: None, ..v }
}

/// The record stream brought up to date after a mutation.
pub open spec fn sync_spec(v: AppView) -> AppView {
    AppView { last_saved: collection_text(v.tasks), ..v }
}

/// Whether the record stream differs from the last one written.
pub open spec fn save_due(v: AppView) -> bool {
    collection_text(v.tasks) != v.last_saved
}

/// An engine command, as the input dispatcher hands it over.
pub enum Command {
    Next,
    Previous,
    FocusNext,
    FocusPrevious,
    ClearSelection,
    ToggleSort,
    StartAdd,
    CommitAdd(String),
    CancelAdd,
    StartEdit,
    Delete,
    ToggleComplete,
    Quit,
}

/// What the surrounding program must do after a command.
pub struct StepResult {
    /// The session is over.
    pub quit: bool,
    /// A changed record stream to hand to the persistence adapter.
    pub save: Option<String>,
    /// Text to prefill the input buffer with, on entering an edit.
    pub prefill: Option<String>,
    /// A recoverable refusal to surface.
    pub error: Option<EngineError>,
}

/// The session state after one command.
pub open spec fn step_spec(v: AppView, cmd: Command, today: Date) -> AppView {
    match cmd {
        Command::Next => nav_next_spec(v),
        Command::Previous => nav_prev_spec(v),
        Command::FocusNext => AppView { focus: focus_next_spec(v.focus), ..v },
        Command::FocusPrevious => AppView { focus: focus_prev_spec(v.focus), ..v },
        Command::ClearSelection => AppView {
            focus: Focus::Tasks,
            project_selected: None,
            task_selected: None,
            context_selected: None,
            ..v
        },
        Command::ToggleSort => AppView { sorting: !v.sorting, ..v },
        Command::StartAdd => start_add_spec(v),
        Command::CommitAdd(text) => sync_spec(commit_add_spec(v, text@, today)),
        Command::CancelAdd => cancel_add_spec(v),
        Command::StartEdit => start_edit_spec(v),
        Command::Delete => if target_spec(v) is Some {
            sync_spec(delete_spec(v))
        } else {
            v
        },
        Command::ToggleComplete => if target_spec(v) is Some {
            sync_spec(toggle_complete_spec(v, today))
        } else {
            v
        },
        Command::Quit => v,
    }
}

} // verus!
