use vstd::prelude::*;

verus! {

/// One item of a todo list.
#[derive(Debug, Clone, PartialEq, Eq)]
pub struct Task {
    pub index: usize,
    pub desc: String,
    pub completed: bool,
}

/// What a task holds, as plain values.
pub struct TaskView {
    pub index: usize,
    pub desc: Seq<char>,
    pub completed: bool,
}

impl View for Task {
    type V = TaskView;

    open spec fn view(&self) -> TaskView {
        TaskView { index: self.index, desc: self.desc@, completed: self.completed }
    }
}

/// A todo list: its tasks in display order, and the index the next task will get.
#[derive(Debug, Clone, PartialEq, Eq)]
pub struct Project {
    pub name: Option<String>,
    pub tasks: Vec<Task>,
    pub next_index: usize,
}

pub struct ProjectView {
    pub name: Option<Seq<char>>,
    pub tasks: Seq<TaskView>,
    pub next_index: usize,
}

pub open spec fn opt_text(o: Option<String>) -> Option<Seq<char>> {
    match o {
        Some(s) => Some(s@),
        None => None,
    }
}

pub open spec fn task_views(ts: Seq<Task>) -> Seq<TaskView> {
    ts.map_values(|t: Task| t@)
}

impl View for Project {
    type V = ProjectView;

    open spec fn view(&self) -> ProjectView {
        ProjectView {
            name: opt_text(self.name),
            tasks: task_views(self.tasks@),
            next_index: self.next_index,
        }
    }
}

/// No two tasks of `ts` share an index.
pub open spec fn distinct_indices(ts: Seq<TaskView>) -> bool {
    forall|i: int, j: int|
        0 <= i < ts.len() && 0 <= j < ts.len() && i != j ==> (#[trigger] ts[i]).index
            != (#[trigger] ts[j]).index
}

/// Every task of `ts` has an index below `n`.
pub open spec fn indices_below(ts: Seq<TaskView>, n: usize) -> bool {
    forall|i: int| 0 <= i < ts.len() ==> (#[trigger] ts[i]).index < n
}

/// Indices are pairwise distinct, and all of them lie below the next index to hand out.
pub open spec fn well_formed(p: ProjectView) -> bool {
    distinct_indices(p.tasks) && indices_below(p.tasks, p.next_index)
}

/// Whether some task of `ts` has index `k`.
pub open spec fn has_index(ts: Seq<TaskView>, k: usize) -> bool {
    exists|i: int| 0 <= i < ts.len() && (#[trigger] ts[i]).index == k
}

/// Which tasks a command should affect.
#[derive(Debug, Clone, PartialEq, Eq)]
pub enum TaskSelector {
    Indexed(Vec<usize>),
    All,
    Completed,
}

/// Whether `sel` picks the task `t`.
pub open spec fn selects(sel: TaskSelector, t: TaskView) -> bool {
    match sel {
        TaskSelector::Indexed(ids) => ids@.contains(t.index),
        TaskSelector::All => true,
        TaskSelector::Completed => t.completed,
    }
}

/// The command to execute.
#[derive(Debug, Clone, PartialEq, Eq)]
pub enum Command {
    Show,
    NewProject { name: Option<String>, force: bool },
    AddTask { desc: String, completed: bool },
    MarkCompletion(bool, TaskSelector),
    RemoveTask(TaskSelector),
    EditTask(String, usize),
    PrintCompletion(String),
    RemoveProject,
}

/// Why a command on a project failed.
#[derive(PartialEq, Eq, Structural, Debug, Clone, Copy)]
pub enum TaskError {
    ProjectNotFound,
    ProjectAlreadyExists,
    MalformedProjectFile,
    IndexNotFound(usize),
    EmptyDescription,
    /// Every index a task can carry has been handed out.
    IndicesExhausted,
}

impl Project {
    /// A project without tasks.
    pub fn new(name: Option<String>) -> (r: Project)
        ensures
            r@.name == opt_text(name),
            r@.tasks.len() == 0,
            r@.next_index == 0,
            well_formed(r@),
    {
        Project { name, tasks: Vec::new(), next_index: 0 }
    }

    pub fn tasks(&self) -> (r: &Vec<Task>)
        ensures
            r == &self.tasks,
    {
        &self.tasks
    }
}

} // verus!
