use tutel::complete::complete_indices;
use tutel::model::Project;

fn project(n: usize) -> Project {
    let mut p = Project::new(None);
    for i in 0..n {
        p.add_task(format!("task {}", i), false).unwrap();
    }
    p
}

fn pairs(v: &[(&str, &str)]) -> Vec<(String, String)> {
    v.iter().map(|(a, b)| (a.to_string(), b.to_string())).collect()
}

#[test]
fn completes_indices_by_prefix() {
    let p = project(13);
    let input = vec!["1".to_string()];
    assert_eq!(
        complete_indices(p.tasks(), &input),
        pairs(&[("1", "task 1"), ("10", "task 10"), ("11", "task 11"), ("12", "task 12")])
    );
}

#[test]
fn skips_indices_already_given() {
    let p = project(13);
    let input = vec!["10".to_string(), "3".to_string(), "1".to_string()];
    assert_eq!(
        complete_indices(p.tasks(), &input),
        pairs(&[("1", "task 1"), ("11", "task 11"), ("12", "task 12")])
    );
}

#[test]
fn empty_word_offers_every_task() {
    let p = project(3);
    let input = vec![String::new()];
    assert_eq!(
        complete_indices(p.tasks(), &input),
        pairs(&[("0", "task 0"), ("1", "task 1"), ("2", "task 2")])
    );
    let none = vec!["7".to_string()];
    assert_eq!(complete_indices(p.tasks(), &none), vec![]);
}
