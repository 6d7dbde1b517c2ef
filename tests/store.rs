use tutel::codec::{decode, encode};
use tutel::model::{Project, TaskError, TaskSelector};

#[test]
fn round_trip_keeps_tasks() {
    let mut p = Project::new(Some("work: q3".to_string()));
    p.add_task("buy milk".to_string(), false).unwrap();
    p.add_task("line one\nline two: 12 x".to_string(), true).unwrap();
    p.add_task("naïve café ✓".to_string(), false).unwrap();
    p.remove_tasks(&TaskSelector::Indexed(vec![0])).unwrap();
    let text = encode(&p);
    assert_eq!(decode(&text), Ok(p));
}

#[test]
fn round_trip_empty_project() {
    let p = Project::new(None);
    let text = encode(&p);
    assert_eq!(text, "0\n-\n");
    assert_eq!(decode(&text), Ok(p));
}

#[test]
fn encoded_text_layout() {
    let mut p = Project::new(Some("home".to_string()));
    p.add_task("a b".to_string(), false).unwrap();
    p.add_task("c".to_string(), true).unwrap();
    assert_eq!(encode(&p), "2\n+4:home\n0 - 3:a b\n1 x 1:c\n");
}

#[test]
fn malformed_files_refused() {
    let bad = [
        "",
        "x\n-\n",
        "1\n",
        "1\n?\n",
        "2\n-\n0 - 1:a\n0 - 1:b\n",
        "1\n-\n1 - 1:a\n",
        "1\n-\n0 - 5:a\n",
        "1\n-\n0 * 1:a\n",
        "1\n-\n0 - 1:a",
        "99999999999999999999999\n-\n",
    ];
    for b in bad.iter() {
        assert_eq!(decode(b), Err(TaskError::MalformedProjectFile), "{:?}", b);
    }
}

#[test]
fn largest_next_index_has_no_room() {
    let mut p = decode("18446744073709551615\n-\n").unwrap();
    assert_eq!(p.next_index, usize::MAX);
    assert_eq!(p.add_task("x".to_string(), false), Err(TaskError::IndicesExhausted));
}
