use tutel::commands::{create_project, locate_root, Action, EditResult};
use tutel::model::{Command, Project, Task, TaskError, TaskSelector};
use tutel::select::resolve;

fn task(index: usize, desc: &str, completed: bool) -> Task {
    Task { index, desc: desc.to_string(), completed }
}

fn two_tasks() -> Project {
    let mut p = Project::new(None);
    p.add_task("a".to_string(), false).unwrap();
    p.add_task("b".to_string(), false).unwrap();
    p
}

#[test]
fn add_to_empty_project() {
    let mut p = Project::new(None);
    let r = p.apply(Command::AddTask { desc: "buy milk".to_string(), completed: false });
    assert_eq!(r, Ok(Action::Save));
    assert_eq!(p.tasks(), &vec![task(0, "buy milk", false)]);
}

#[test]
fn mark_one_task_completed() {
    let mut p = two_tasks();
    let r = p.apply(Command::MarkCompletion(true, TaskSelector::Indexed(vec![1])));
    assert_eq!(r, Ok(Action::Save));
    assert_eq!(p.tasks(), &vec![task(0, "a", false), task(1, "b", true)]);
}

#[test]
fn remove_keeps_other_indices() {
    let mut p = two_tasks();
    p.apply(Command::MarkCompletion(true, TaskSelector::Indexed(vec![1]))).unwrap();
    let r = p.apply(Command::RemoveTask(TaskSelector::Indexed(vec![0])));
    assert_eq!(r, Ok(Action::Save));
    assert_eq!(p.tasks(), &vec![task(1, "b", true)]);
}

#[test]
fn remove_missing_index_fails_unchanged() {
    let mut p = two_tasks();
    let before = p.clone();
    let r = p.apply(Command::RemoveTask(TaskSelector::Indexed(vec![5])));
    assert_eq!(r, Err(TaskError::IndexNotFound(5)));
    assert_eq!(p, before);
}

#[test]
fn failing_selection_names_first_missing_index() {
    let mut p = two_tasks();
    let before = p.clone();
    let r = p.mark_completion(true, &TaskSelector::Indexed(vec![1, 7, 3]));
    assert_eq!(r, Err(TaskError::IndexNotFound(7)));
    assert_eq!(p, before);
}

#[test]
fn new_project_over_existing_one() {
    assert_eq!(create_project(None, true, false), Err(TaskError::ProjectAlreadyExists));
    let p = create_project(Some("home".to_string()), true, true).unwrap();
    assert!(p.tasks().is_empty());
    assert_eq!(p.name, Some("home".to_string()));
    let q = create_project(None, false, false).unwrap();
    assert!(q.tasks().is_empty());
}

#[test]
fn indices_count_up_from_zero() {
    let mut p = Project::new(None);
    for i in 0..5usize {
        assert_eq!(p.add_task(format!("t{}", i), false), Ok(i));
    }
    let idx: Vec<usize> = p.tasks().iter().map(|t| t.index).collect();
    assert_eq!(idx, vec![0, 1, 2, 3, 4]);
}

#[test]
fn index_not_reused_after_removal() {
    let mut p = two_tasks();
    p.remove_tasks(&TaskSelector::Indexed(vec![1])).unwrap();
    assert_eq!(p.add_task("c".to_string(), false), Ok(2));
    p.remove_tasks(&TaskSelector::All).unwrap();
    assert_eq!(p.add_task("d".to_string(), true), Ok(3));
    assert_eq!(p.tasks(), &vec![task(3, "d", true)]);
}

#[test]
fn blank_description_refused() {
    let mut p = Project::new(None);
    assert_eq!(p.add_task("  \t\n".to_string(), false), Err(TaskError::EmptyDescription));
    assert_eq!(p.add_task("\u{3000}\u{a0}".to_string(), false), Err(TaskError::EmptyDescription));
    assert_eq!(p.add_task(String::new(), false), Err(TaskError::EmptyDescription));
    assert!(p.tasks().is_empty());
    assert_eq!(p.add_task(" x ".to_string(), false), Ok(0));
}

#[test]
fn resolve_all_and_completed() {
    let mut p = two_tasks();
    p.add_task("c".to_string(), true).unwrap();
    assert_eq!(resolve(&TaskSelector::All, p.tasks()), Ok(vec![0, 1, 2]));
    assert_eq!(resolve(&TaskSelector::Completed, p.tasks()), Ok(vec![2]));
    let empty = Project::new(None);
    assert_eq!(resolve(&TaskSelector::Completed, empty.tasks()), Ok(vec![]));
}

#[test]
fn resolve_single_index() {
    let p = two_tasks();
    assert_eq!(resolve(&TaskSelector::Indexed(vec![1]), p.tasks()), Ok(vec![1]));
    assert_eq!(resolve(&TaskSelector::Indexed(vec![4]), p.tasks()), Err(4));
}

#[test]
fn repeated_index_selects_once() {
    let p = two_tasks();
    assert_eq!(
        resolve(&TaskSelector::Indexed(vec![1, 1]), p.tasks()),
        resolve(&TaskSelector::Indexed(vec![1]), p.tasks())
    );
    let mut a = two_tasks();
    let mut b = two_tasks();
    a.remove_tasks(&TaskSelector::Indexed(vec![0, 0])).unwrap();
    b.remove_tasks(&TaskSelector::Indexed(vec![0])).unwrap();
    assert_eq!(a, b);
    assert_eq!(resolve(&TaskSelector::Indexed(vec![3, 3]), p.tasks()), Err(3));
}

#[test]
fn mark_all_not_done() {
    let mut p = two_tasks();
    p.mark_completion(true, &TaskSelector::All).unwrap();
    p.mark_completion(false, &TaskSelector::Indexed(vec![0])).unwrap();
    assert_eq!(p.tasks(), &vec![task(0, "a", false), task(1, "b", true)]);
}

#[test]
fn cleanup_removes_completed() {
    let mut p = two_tasks();
    p.add_task("c".to_string(), true).unwrap();
    p.apply(Command::RemoveTask(TaskSelector::Completed)).unwrap();
    assert_eq!(p.tasks(), &vec![task(0, "a", false), task(1, "b", false)]);
}

#[test]
fn edit_flow() {
    let mut p = two_tasks();
    let r = p.apply(Command::EditTask("vi".to_string(), 1));
    assert_eq!(
        r,
        Ok(Action::Edit { editor: "vi".to_string(), index: 1, current: "b".to_string() })
    );
    assert_eq!(p.finish_edit(1, EditResult::Cancelled), Ok(false));
    assert_eq!(p.finish_edit(1, EditResult::Changed("b".to_string())), Ok(false));
    assert_eq!(p.finish_edit(1, EditResult::Changed(" ".to_string())), Err(TaskError::EmptyDescription));
    assert_eq!(p.finish_edit(1, EditResult::Changed("bee".to_string())), Ok(true));
    assert_eq!(p.tasks(), &vec![task(0, "a", false), task(1, "bee", false)]);
    assert_eq!(p.finish_edit(9, EditResult::Cancelled), Err(TaskError::IndexNotFound(9)));
    assert_eq!(p.apply(Command::EditTask("vi".to_string(), 9)), Err(TaskError::IndexNotFound(9)));
}

#[test]
fn commands_without_change() {
    let mut p = two_tasks();
    let before = p.clone();
    assert_eq!(p.apply(Command::Show), Ok(Action::Show));
    assert_eq!(p.apply(Command::RemoveProject), Ok(Action::Delete));
    assert_eq!(
        p.apply(Command::PrintCompletion("bash".to_string())),
        Ok(Action::PrintCompletion("bash".to_string()))
    );
    assert_eq!(
        p.apply(Command::NewProject { name: None, force: true }),
        Ok(Action::Create { name: None, force: true })
    );
    assert_eq!(p, before);
}

#[test]
fn locate_closest_project() {
    assert_eq!(locate_root(&vec![false, false, true, true]), Ok(2));
    assert_eq!(locate_root(&vec![true]), Ok(0));
    assert_eq!(locate_root(&vec![false, false]), Err(TaskError::ProjectNotFound));
    assert_eq!(locate_root(&vec![]), Err(TaskError::ProjectNotFound));
}
