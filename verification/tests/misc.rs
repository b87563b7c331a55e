use tsugi::error::TsugiError;
use tsugi::notice::new_task_notices;
use tsugi::task::{GetTasksResponse, Task};

fn task(title: &str) -> Task {
    Task {
        id: "1".to_string(),
        kind: "k".to_string(),
        url: "u".to_string(),
        title: title.to_string(),
        description: "description".to_string(),
        state: "open".to_string(),
        created_at: "c".to_string(),
        updated_at: "u".to_string(),
        closed_at: "none".to_string(),
        requestor: "r".to_string(),
    }
}

#[test]
fn error_shows_its_message() {
    let e = TsugiError::new("disk full".to_string());
    assert_eq!(e.message(), "disk full");
    assert_eq!(e.to_string(), "TsugiError: disk full");
}

#[test]
fn notices_name_the_plugin_and_task() {
    let ns = new_task_notices("GitHub PR Review", &vec![task("Fix"), task("Add")]);
    assert_eq!(ns.len(), 2);
    assert_eq!(ns[0].title, "New GitHub PR Review");
    assert_eq!(ns[0].body, "Fix");
    assert_eq!(ns[1].body, "Add");
    assert!(new_task_notices("x", &vec![]).is_empty());
}

#[test]
fn response_carries_tasks() {
    let r = GetTasksResponse { tasks: vec![task("a")] };
    assert_eq!(r.tasks.len(), 1);
    assert_eq!(r.clone(), r);
}
