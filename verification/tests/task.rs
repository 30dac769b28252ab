use sudoku::task_status::TaskStatus;

#[test]
fn status_settles_only_once() {
    let mut status: TaskStatus<u32> = TaskStatus::Waiting(17);
    status.update(None);
    assert!(matches!(status, TaskStatus::Waiting(17)));

    status.update(Some(Some(5)));
    match &status {
        TaskStatus::Done(v) => assert_eq!(**v, 5),
        _ => panic!("a delivered result settles the status"),
    }

    // A settled status never moves again, whatever arrives.
    status.update(Some(None));
    assert!(matches!(status, TaskStatus::Done(_)));
    status.update(Some(Some(9)));
    match &status {
        TaskStatus::Done(v) => assert_eq!(**v, 5),
        _ => panic!("a settled status is final"),
    }
}

#[test]
fn status_fails_once_and_stays_failed() {
    let mut status: TaskStatus<u32> = TaskStatus::Waiting(0);
    status.update(Some(None));
    assert!(matches!(status, TaskStatus::Failed));
    status.update(Some(Some(3)));
    assert!(matches!(status, TaskStatus::Failed));
}

#[test]
fn status_waits_until_an_answer_arrives() {
    let mut status: TaskStatus<u32> = TaskStatus::Waiting(2);
    for _ in 0..5 {
        status.update(None);
        assert!(matches!(status, TaskStatus::Waiting(2)));
    }
}
