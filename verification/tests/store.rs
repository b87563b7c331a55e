use rusqlite::Connection;
use tsugi::plugin::PluginTask;
use tsugi::storage::{plan_update, KIND_SQL, LIST_SQL, SCHEMA_SQL};
use tsugi::task::Task;

fn ptask(key: &str, title: &str, created_at: &str) -> PluginTask {
    PluginTask {
        key: key.to_string(),
        url: format!("https://example.com/{key}"),
        title: title.to_string(),
        description: "description".to_string(),
        state: "open".to_string(),
        created_at: created_at.to_string(),
        updated_at: "u".to_string(),
        closed_at: "none".to_string(),
        requestor: "bob".to_string(),
    }
}

fn read(conn: &Connection, sql: &str, kind: Option<&str>) -> Vec<Task> {
    let mut stmt = conn.prepare(sql).unwrap();
    let map = |row: &rusqlite::Row<'_>| -> rusqlite::Result<Task> {
        Ok(Task {
            kind: row.get("kind")?,
            id: row.get("id")?,
            url: row.get("url")?,
            title: row.get("title")?,
            description: row.get("description")?,
            state: row.get("state")?,
            created_at: row.get("created_at")?,
            updated_at: row.get("updated_at")?,
            closed_at: row.get("closed_at")?,
            requestor: row.get("requestor")?,
        })
    };
    let rows: Vec<Task> = match kind {
        Some(k) => stmt.query_map([k], map).unwrap().map(|r| r.unwrap()).collect(),
        None => stmt.query_map([], map).unwrap().map(|r| r.unwrap()).collect(),
    };
    rows
}

fn update(conn: &Connection, kind: &str, tasks: Vec<PluginTask>) -> Vec<Task> {
    let previous = read(conn, KIND_SQL, Some(kind));
    let plan = plan_update(kind, &previous, tasks);
    for st in plan.statements(kind) {
        conn.execute(st.sql(), rusqlite::params_from_iter(st.params.iter())).unwrap();
    }
    plan.opens
}

#[test]
fn running_the_statements_mirrors_the_plugin() {
    let conn = Connection::open_in_memory().unwrap();
    conn.execute(SCHEMA_SQL, []).unwrap();

    let new = update(&conn, "k", vec![ptask("1", "a", "c1"), ptask("2", "b", "c2")]);
    assert_eq!(new.len(), 2);

    // 1 vanishes, 2 changes title and creation time, 3 appears.
    let new = update(&conn, "k", vec![ptask("2", "b2", "c2x"), ptask("3", "c", "c3")]);
    assert_eq!(new.iter().map(|t| t.id.clone()).collect::<Vec<_>>(), vec!["3"]);

    let mut rows = read(&conn, KIND_SQL, Some("k"));
    rows.sort_by(|a, b| a.id.cmp(&b.id));
    assert_eq!(rows.len(), 3);
    assert_eq!(rows[0].id, "1");
    assert_eq!(rows[0].state, "closed");
    assert_eq!(rows[0].title, "a");
    assert_eq!(rows[1].id, "2");
    assert_eq!(rows[1].title, "b2");
    assert_eq!(rows[1].created_at, "c2");
    assert_eq!(rows[2].id, "3");
    assert_eq!(rows[2].state, "open");

    // A second run with the same tasks reports nothing new.
    let new = update(&conn, "k", vec![ptask("2", "b2", "c2x"), ptask("3", "c", "c3")]);
    assert!(new.is_empty());
    let previous = read(&conn, KIND_SQL, Some("k"));
    let plan = plan_update("k", &previous, vec![ptask("2", "b2", "c2x"), ptask("3", "c", "c3")]);
    assert!(plan.opens.is_empty());
    assert!(plan.closes.is_empty());
    assert_eq!(plan.updates.iter().map(|t| t.id.clone()).collect::<Vec<_>>(), vec!["2"]);
}

#[test]
fn kinds_are_kept_apart() {
    let conn = Connection::open_in_memory().unwrap();
    conn.execute(SCHEMA_SQL, []).unwrap();
    update(&conn, "a", vec![ptask("1", "x", "c")]);
    let new = update(&conn, "b", vec![ptask("1", "x", "c")]);
    assert_eq!(new.len(), 1);
    update(&conn, "a", vec![]);
    let all = read(&conn, LIST_SQL, None);
    assert_eq!(all.len(), 2);
    // open tasks come first
    assert_eq!(all[0].kind, "b");
    assert_eq!(all[0].state, "open");
    assert_eq!(all[1].kind, "a");
    assert_eq!(all[1].state, "closed");
}

#[test]
fn interrupted_update_leaves_each_task_before_or_after() {
    let conn = Connection::open_in_memory().unwrap();
    conn.execute(SCHEMA_SQL, []).unwrap();
    update(&conn, "k", vec![ptask("1", "a", "c1"), ptask("2", "b", "c2")]);
    let previous = read(&conn, KIND_SQL, Some("k"));
    let plan = plan_update("k", &previous, vec![ptask("2", "b2", "c2"), ptask("3", "c", "c3")]);
    let sts = plan.statements("k");
    // run only the first statement (the insert of 3)
    conn.execute(sts[0].sql(), rusqlite::params_from_iter(sts[0].params.iter())).unwrap();
    let mut rows = read(&conn, KIND_SQL, Some("k"));
    rows.sort_by(|a, b| a.id.cmp(&b.id));
    assert_eq!(rows.len(), 3);
    assert_eq!(rows[0].state, "open");
    assert_eq!(rows[1].title, "b");
    assert_eq!(rows[2].title, "c");
}
