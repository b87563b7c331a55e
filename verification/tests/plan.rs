use tsugi::plugin::PluginTask;
use tsugi::storage::{close_params, plan_update, row_params, update_params, Write};
use tsugi::task::Task;

fn ptask(key: &str, title: &str, state: &str, created_at: &str) -> PluginTask {
    PluginTask {
        key: key.to_string(),
        url: format!("https://example.com/{key}"),
        title: title.to_string(),
        description: "description".to_string(),
        state: state.to_string(),
        created_at: created_at.to_string(),
        updated_at: "2024-01-02".to_string(),
        closed_at: "none".to_string(),
        requestor: "alice".to_string(),
    }
}

fn stored(kind: &str, key: &str, title: &str, state: &str, created_at: &str) -> Task {
    ptask(key, title, state, created_at).to(kind.to_string())
}

fn sorted_ids(tasks: &[Task]) -> Vec<String> {
    let mut ids: Vec<String> = tasks.iter().map(|t| t.id.clone()).collect();
    ids.sort();
    ids
}

#[test]
fn to_files_task_under_kind() {
    let t = ptask("17", "Fix it", "open", "2024-01-01").to("GitHub PR Review".to_string());
    assert_eq!(t.id, "17");
    assert_eq!(t.kind, "GitHub PR Review");
    assert_eq!(t.url, "https://example.com/17");
    assert_eq!(t.title, "Fix it");
    assert_eq!(t.description, "description");
    assert_eq!(t.state, "open");
    assert_eq!(t.created_at, "2024-01-01");
    assert_eq!(t.updated_at, "2024-01-02");
    assert_eq!(t.closed_at, "none");
    assert_eq!(t.requestor, "alice");
}

#[test]
fn empty_store_opens_every_reported_task() {
    let plan = plan_update("k", &vec![], vec![ptask("1", "a", "open", "d1"), ptask("2", "b", "open", "d2")]);
    assert_eq!(sorted_ids(&plan.opens), vec!["1", "2"]);
    assert!(plan.opens.iter().all(|t| t.kind == "k"));
    assert!(plan.updates.is_empty());
    assert!(plan.closes.is_empty());
}

#[test]
fn unchanged_task_is_left_alone() {
    let previous = vec![stored("k", "1", "a", "open", "d1")];
    let plan = plan_update("k", &previous, vec![ptask("1", "a", "open", "d1")]);
    assert!(plan.opens.is_empty());
    assert!(plan.updates.is_empty());
    assert!(plan.closes.is_empty());
}

#[test]
fn changed_task_is_rewritten() {
    let previous = vec![stored("k", "1", "a", "open", "d1")];
    let plan = plan_update("k", &previous, vec![ptask("1", "renamed", "open", "d1")]);
    assert!(plan.opens.is_empty());
    assert_eq!(plan.updates.len(), 1);
    assert_eq!(plan.updates[0].title, "renamed");
    assert!(plan.closes.is_empty());
}

#[test]
fn vanished_task_is_closed_once() {
    let previous = vec![stored("k", "1", "a", "open", "d1"), stored("k", "2", "b", "closed", "d2")];
    let plan = plan_update("k", &previous, vec![]);
    assert!(plan.opens.is_empty());
    assert!(plan.updates.is_empty());
    assert_eq!(plan.closes, vec!["1".to_string()]);
}

#[test]
fn later_reported_task_with_same_key_wins() {
    let plan = plan_update("k", &vec![], vec![ptask("1", "first", "open", "d1"), ptask("1", "second", "open", "d1")]);
    assert_eq!(plan.opens.len(), 1);
    assert_eq!(plan.opens[0].title, "second");
}

#[test]
fn later_stored_task_with_same_id_counts() {
    let previous = vec![stored("k", "1", "old", "open", "d1"), stored("k", "1", "a", "open", "d1")];
    let plan = plan_update("k", &previous, vec![ptask("1", "a", "open", "d1")]);
    assert!(plan.updates.is_empty());
    assert!(plan.opens.is_empty());
    let plan = plan_update("k", &previous, vec![]);
    assert_eq!(plan.closes, vec!["1".to_string()]);
}

#[test]
fn mixed_update() {
    let previous = vec![
        stored("k", "1", "a", "open", "d1"),
        stored("k", "2", "b", "open", "d2"),
        stored("k", "3", "c", "open", "d3"),
    ];
    let current = vec![ptask("2", "b2", "open", "d2"), ptask("3", "c", "open", "d3"), ptask("4", "d", "open", "d4")];
    let plan = plan_update("k", &previous, current);
    assert_eq!(sorted_ids(&plan.opens), vec!["4"]);
    assert_eq!(sorted_ids(&plan.updates), vec!["2"]);
    assert_eq!(plan.closes, vec!["1".to_string()]);
}

#[test]
fn statements_follow_the_plan() {
    let previous = vec![stored("k", "1", "a", "open", "d1"), stored("k", "2", "b", "open", "d2")];
    let plan = plan_update("k", &previous, vec![ptask("2", "b2", "open", "d2"), ptask("3", "c", "open", "d3")]);
    let sts = plan.statements("k");
    assert_eq!(sts.len(), 3);
    assert_eq!(sts[0].write, Write::Open);
    assert_eq!(sts[0].params[0], "3");
    assert_eq!(sts[0].params[1], "k");
    assert_eq!(sts[1].write, Write::Update);
    assert_eq!(sts[1].params[7], "k");
    assert_eq!(sts[1].params[8], "2");
    assert_eq!(sts[2].write, Write::Close);
    assert_eq!(sts[2].params, vec!["k".to_string(), "1".to_string()]);
    assert!(sts[0].sql().contains("INSERT INTO tasks"));
    assert!(sts[1].sql().contains("SET url = ?"));
    assert!(sts[2].sql().contains("SET state = 'closed'"));
}

#[test]
fn params_are_in_column_order() {
    let t = stored("k", "9", "t", "open", "c");
    assert_eq!(
        row_params("other", &t),
        vec!["9", "other", "https://example.com/9", "t", "description", "open", "c", "2024-01-02", "none", "alice"]
    );
    assert_eq!(
        update_params("k", &t),
        vec!["https://example.com/9", "t", "description", "open", "2024-01-02", "none", "alice", "k", "9"]
    );
    assert_eq!(close_params("k", &"9".to_string()), vec!["k", "9"]);
}

#[test]
fn task_copy_and_comparison() {
    let a = stored("k", "1", "a", "open", "d1");
    let b = a.duplicate();
    assert!(a.same_as(&b));
    assert_eq!(a, b);
    let c = stored("k", "1", "a", "open", "other");
    assert!(!a.same_as(&c));
}

#[test]
fn report_order_does_not_matter() {
    let previous = vec![stored("k", "1", "a", "open", "d1"), stored("k", "2", "b", "open", "d2")];
    let r1 = vec![ptask("2", "b2", "open", "d2"), ptask("3", "c", "open", "d3"), ptask("4", "d", "open", "d4")];
    let r2 = vec![ptask("4", "d", "open", "d4"), ptask("2", "b2", "open", "d2"), ptask("3", "c", "open", "d3")];
    let p1 = plan_update("k", &previous, r1);
    let p2 = plan_update("k", &previous, r2);
    assert_eq!(sorted_ids(&p1.opens), sorted_ids(&p2.opens));
    assert_eq!(sorted_ids(&p1.updates), sorted_ids(&p2.updates));
    assert_eq!(p1.closes, p2.closes);
}
