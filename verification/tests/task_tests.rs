use doer::breaks::FocusBreak;
use doer::task::{Task, TaskId};

#[test]
fn new_is_not_done() {
    let task = Task::new("Test".to_string());
    assert!(!task.done);
}

#[test]
fn new_has_name() {
    let task = Task::new("Test".to_string());
    assert_eq!(task.name, "Test");
}

#[test]
fn new_has_id() {
    let task = Task::new("Test".to_string());
    assert_ne!(task.id, TaskId::nil());
}

#[test]
fn is_not_over() {
    let break_ = FocusBreak::start();
    assert!(!break_.is_over());
}

#[test]
fn is_over() {
    let mut break_ = FocusBreak::start();
    break_.end().unwrap();
    assert!(break_.is_over());
}

#[test]
fn ending_twice_fails() {
    let mut break_ = FocusBreak::start();
    break_.end().unwrap();
    let result = break_.end();
    assert!(result.is_err());
}

#[test]
fn set_done_toggles() {
    let mut task = Task::new("Test".to_string());
    task.set_done(true);
    assert!(task.done);
    task.set_done(false);
    assert!(!task.done);
}
