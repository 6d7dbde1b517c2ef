use tutel::cli::{parse_cli, CliError};
use tutel::model::{Command, TaskSelector};

fn args(v: &[&str]) -> Vec<String> {
    v.iter().map(|s| s.to_string()).collect()
}

fn parse(v: &[&str]) -> Result<Command, CliError> {
    parse_cli(&args(v), None)
}

#[test]
fn no_words_shows() {
    assert_eq!(parse(&[]), Ok(Command::Show));
}

#[test]
fn add_joins_words() {
    assert_eq!(
        parse(&["add", "buy", "milk"]),
        Ok(Command::AddTask { desc: "buy milk".to_string(), completed: false })
    );
    assert_eq!(
        parse(&["a", "-c", "done", "already"]),
        Ok(Command::AddTask { desc: "done already".to_string(), completed: true })
    );
    assert_eq!(parse(&["add"]), Err(CliError::MissingArgument));
    assert_eq!(parse(&["add", "-z", "x"]), Err(CliError::UnknownOption));
}

#[test]
fn done_selectors() {
    assert_eq!(
        parse(&["done", "1", "2"]),
        Ok(Command::MarkCompletion(true, TaskSelector::Indexed(vec![1, 2])))
    );
    assert_eq!(parse(&["d", "--all"]), Ok(Command::MarkCompletion(true, TaskSelector::All)));
    assert_eq!(
        parse(&["done", "-!", "3"]),
        Ok(Command::MarkCompletion(false, TaskSelector::Indexed(vec![3])))
    );
    assert_eq!(parse(&["done", "-a", "1"]), Err(CliError::InvalidSelector));
    assert_eq!(parse(&["done"]), Err(CliError::InvalidSelector));
    assert_eq!(parse(&["done", "x"]), Err(CliError::InvalidIndex));
    assert_eq!(parse(&["done", "99999999999999999999999"]), Err(CliError::InvalidIndex));
}

#[test]
fn rm_selectors() {
    assert_eq!(parse(&["rm", "4"]), Ok(Command::RemoveTask(TaskSelector::Indexed(vec![4]))));
    assert_eq!(parse(&["rm", "-a"]), Ok(Command::RemoveTask(TaskSelector::All)));
    assert_eq!(parse(&["rm", "--cleanup"]), Ok(Command::RemoveTask(TaskSelector::Completed)));
    assert_eq!(parse(&["rm", "--project"]), Ok(Command::RemoveProject));
    assert_eq!(parse(&["rm", "-a", "-c"]), Err(CliError::InvalidSelector));
    assert_eq!(parse(&["rm"]), Err(CliError::InvalidSelector));
}

#[test]
fn edit_editor_sources() {
    assert_eq!(
        parse_cli(&args(&["edit", "3"]), Some("nano".to_string())),
        Ok(Command::EditTask("nano".to_string(), 3))
    );
    assert_eq!(
        parse_cli(&args(&["e", "-e", "vim", "3"]), Some("nano".to_string())),
        Ok(Command::EditTask("vim".to_string(), 3))
    );
    assert_eq!(parse(&["edit", "3"]), Err(CliError::MissingEditor));
    assert_eq!(parse(&["edit"]), Err(CliError::MissingArgument));
    assert_eq!(parse(&["edit", "3", "--editor"]), Err(CliError::MissingArgument));
    assert_eq!(parse(&["edit", "1", "2"]), Err(CliError::UnexpectedArgument));
}

#[test]
fn new_and_completions() {
    assert_eq!(parse(&["new"]), Ok(Command::NewProject { name: None, force: false }));
    assert_eq!(
        parse(&["new", "-f", "home"]),
        Ok(Command::NewProject { name: Some("home".to_string()), force: true })
    );
    assert_eq!(parse(&["new", "a", "b"]), Err(CliError::UnexpectedArgument));
    assert_eq!(parse(&["completions", "bash"]), Ok(Command::PrintCompletion("bash".to_string())));
    assert_eq!(parse(&["completions"]), Err(CliError::MissingArgument));
    assert_eq!(parse(&["bogus"]), Err(CliError::UnknownCommand));
}
