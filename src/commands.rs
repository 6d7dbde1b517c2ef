use vstd::prelude::*;
use crate::model::{has_index, opt_text, well_formed, Command, Project, ProjectView, TaskError, TaskView};
use crate::ops::{added, kept, marked, position_of};
use crate::select::unresolved;
use crate::text::{is_blank, text_eq};

verus! {

/// What is left to do, outside the project in memory, once a command has been applied.
#[derive(Debug, Clone, PartialEq, Eq)]
pub enum Action {
    /// Render the task list; nothing is written.
    Show,
    /// Write the project back to its file.
    Save,
    /// Remove the project file.
    Delete,
    /// Open `current` in `editor`, then hand the outcome to `Project::finish_edit`.
    Edit { editor: String, index: usize, current: String },
    /// Create a project file in the current directory.
    Create { name: Option<String>, force: bool },
    /// Print the completion script for a shell; no project is involved.
    PrintCompletion(String),
}

/// What came back from the editor.
#[derive(Debug, Clone, PartialEq, Eq)]
pub enum EditResult {
    Changed(String),
    Cancelled,
}

/// The description of the task with index `k` in `p`.
pub open spec fn description_at(p: ProjectView, k: usize) -> Seq<char> {
    p.tasks[position_of(p.tasks, k)].desc
}

/// `p` with the description of the task with index `k` replaced.
pub open spec fn described(p: ProjectView, k: usize, desc: Seq<char>) -> ProjectView {
    ProjectView {
        tasks: p.tasks.update(
            position_of(p.tasks, k),
            TaskView { desc, ..p.tasks[position_of(p.tasks, k)] },
        ),
        ..p
    }
}

impl Project {
    /// Applies `cmd` to the project in memory and says what must follow. A failing command
    /// leaves the project as it was.
    pub fn apply(&mut self, cmd: Command) -> (r: Result<Action, TaskError>)
        requires
            well_formed(old(self)@),
        ensures
            well_formed(final(self)@),
            r is Err ==> final(self)@ == old(self)@,
            match cmd {
                Command::Show => r == Ok::<Action, TaskError>(Action::Show) && final(self)@
                    == old(self)@,
                Command::NewProject { name, force } => r == Ok::<Action, TaskError>(
                    Action::Create { name, force },
                ) && final(self)@ == old(self)@,
                Command::PrintCompletion(shell) => r == Ok::<Action, TaskError>(
                    Action::PrintCompletion(shell),
                ) && final(self)@ == old(self)@,
                Command::RemoveProject => r == Ok::<Action, TaskError>(Action::Delete)
                    && final(self)@ == old(self)@,
                Command::AddTask { desc, completed } => if is_blank(desc@) {
                    r == Err::<Action, TaskError>(TaskError::EmptyDescription)
                } else if old(self).next_index == usize::MAX {
                    r == Err::<Action, TaskError>(TaskError::IndicesExhausted)
                } else {
                    r == Ok::<Action, TaskError>(Action::Save) && final(self)@ == added(
                        old(self)@,
                        desc@,
                        completed,
                    )
                },
                Command::MarkCompletion(value, sel) => match unresolved(sel, old(self)@.tasks) {
                    Some(k) => r == Err::<Action, TaskError>(TaskError::IndexNotFound(k)),
                    None => r == Ok::<Action, TaskError>(Action::Save) && final(self)@ == (
                    ProjectView { tasks: marked(sel, old(self)@.tasks, value), ..old(self)@ }),
                },
                Command::RemoveTask(sel) => match unresolved(sel, old(self)@.tasks) {
                    Some(k) => r == Err::<Action, TaskError>(TaskError::IndexNotFound(k)),
                    None => r == Ok::<Action, TaskError>(Action::Save) && final(self)@ == (
                    ProjectView { tasks: kept(sel, old(self)@.tasks), ..old(self)@ }),
                },
                Command::EditTask(editor, index) => final(self)@ == old(self)@ && if has_index(
                    old(self)@.tasks,
                    index,
                ) {
                    r is Ok && r->Ok_0 is Edit && r->Ok_0->Edit_editor == editor
                        && r->Ok_0->Edit_index == index && r->Ok_0->Edit_current@
                        == description_at(old(self)@, index)
                } else {
                    r == Err::<Action, TaskError>(TaskError::IndexNotFound(index))
                },
            },
    {
        match cmd {
            Command::Show => Ok(Action::Show),
            Command::NewProject { name, force } => Ok(Action::Create { name, force }),
            Command::PrintCompletion(shell) => Ok(Action::PrintCompletion(shell)),
            Command::RemoveProject => Ok(Action::Delete),
            Command::AddTask { desc, completed } => {
                match self.add_task(desc, completed) {
                    Ok(_) => Ok(Action::Save),
                    Err(e) => Err(e),
                }
            },
            Command::MarkCompletion(value, sel) => {
                match self.mark_completion(value, &sel) {
                    Ok(()) => Ok(Action::Save),
                    Err(e) => Err(e),
                }
            },
            Command::RemoveTask(sel) => {
                match self.remove_tasks(&sel) {
                    Ok(()) => Ok(Action::Save),
                    Err(e) => Err(e),
                }
            },
            Command::EditTask(editor, index) => {
                match self.description_of(index) {
                    Ok(current) => Ok(Action::Edit { editor, index, current }),
                    Err(e) => Err(e),
                }
            },
        }
    }

    /// Takes in what the editor gave back for the task with index `index`. A cancelled edit,
    /// or a text equal to the current one, changes nothing and returns `Ok(false)`; a new
    /// text replaces the description and returns `Ok(true)`.
    pub fn finish_edit(&mut self, index: usize, result: EditResult) -> (r: Result<bool, TaskError>)
        requires
            well_formed(old(self)@),
        ensures
            well_formed(final(self)@),
            (r is Err || r == Ok::<bool, TaskError>(false)) ==> final(self)@ == old(self)@,
            !has_index(old(self)@.tasks, index) ==> r == Err::<bool, TaskError>(
                TaskError::IndexNotFound(index),
            ),
            has_index(old(self)@.tasks, index) ==> match result {
                EditResult::Cancelled => r == Ok::<bool, TaskError>(false),
                EditResult::Changed(text) => if text@ == description_at(old(self)@, index) {
                    r == Ok::<bool, TaskError>(false)
                } else if is_blank(text@) {
                    r == Err::<bool, TaskError>(TaskError::EmptyDescription)
                } else {
                    r == Ok::<bool, TaskError>(true) && final(self)@ == described(
                        old(self)@,
                        index,
                        text@,
                    )
                },
            },
    {
        let current = match self.description_of(index) {
            Ok(c) => c,
            Err(e) => return Err(e),
        };
        match result {
            EditResult::Cancelled => Ok(false),
            EditResult::Changed(text) => {
                if text_eq(text.as_str(), current.as_str()) {
                    return Ok(false);
                }
                match self.set_description(index, text) {
                    Ok(()) => Ok(true),
                    Err(e) => Err(e),
                }
            },
        }
    }
}

/// Picks the project root among the directories searched, closest first: `found[i]` says
/// whether the `i`-th holds a project file. The first that does is the root.
pub fn locate_root(found: &Vec<bool>) -> (r: Result<usize, TaskError>)
    ensures
        match r {
            Ok(i) => i < found@.len() && found@[i as int] && forall|j: int|
                0 <= j < i ==> !found@[j],
            Err(e) => e == TaskError::ProjectNotFound && forall|j: int|
                0 <= j < found@.len() ==> !found@[j],
        },
{
    let mut i: usize = 0;
    while i < found.len()
        invariant
            i <= found@.len(),
            forall|j: int| 0 <= j < i ==> !found@[j],
        decreases found.len() - i,
    {
        if found[i] {
            return Ok(i);
        }
        i = i + 1;
    }
    Err(TaskError::ProjectNotFound)
}

/// The project to write when a new one is asked for in a directory; `present` says whether
/// that directory already holds a project file, which only `force` may replace.
pub fn create_project(name: Option<String>, present: bool, force: bool) -> (r: Result<
    Project,
    TaskError,
>)
    ensures
        present && !force ==> r == Err::<Project, TaskError>(TaskError::ProjectAlreadyExists),
        (!present || force) ==> r is Ok && r->Ok_0@ == (ProjectView {
            name: opt_text(name),
            tasks: Seq::empty(),
            next_index: 0,
        }),
        r is Ok ==> well_formed(r->Ok_0@),
{
    if present && !force {
        return Err(TaskError::ProjectAlreadyExists);
    }
    let p = Project::new(name);
    assert(p@.tasks == Seq::<TaskView>::empty());
    Ok(p)
}

} // verus!
