use tsugi::decimal::decimal_string;
use tsugi::github::{
    authored_query, items_without_number, parse_search_items, review_requested_query, search_issues_url, search_response_tasks,
    task_from_item, tasks_from_items, user_login, SearchItem,
};

#[test]
fn decimal_text_matches_to_string() {
    for n in [0i64, 7, 10, 42, 1999, -1, -7, -100, i64::MAX, i64::MIN] {
        assert_eq!(decimal_string(n), n.to_string());
    }
}

fn item(number: Option<i64>) -> SearchItem {
    SearchItem {
        number,
        html_url: Some("https://github.com/o/r/pull/5".to_string()),
        title: Some("Add feature".to_string()),
        state: Some("open".to_string()),
        created_at: Some("2024-05-01T00:00:00Z".to_string()),
        updated_at: Some("2024-05-02T00:00:00Z".to_string()),
        closed_at: None,
        user_login: Some("carol".to_string()),
    }
}

#[test]
fn item_becomes_task() {
    let t = task_from_item(&item(Some(5))).unwrap();
    assert_eq!(t.key, "5");
    assert_eq!(t.url, "https://github.com/o/r/pull/5");
    assert_eq!(t.title, "Add feature");
    assert_eq!(t.description, "description");
    assert_eq!(t.state, "open");
    assert_eq!(t.closed_at, "none");
    assert_eq!(t.requestor, "carol");
    assert!(task_from_item(&item(None)).is_none());
}

#[test]
fn items_without_number_are_skipped() {
    let ts = tasks_from_items(&vec![item(Some(1)), item(None), item(Some(3))]);
    assert_eq!(ts.iter().map(|t| t.key.clone()).collect::<Vec<_>>(), vec!["1", "3"]);
}

#[test]
fn search_response_is_read() {
    let body = r#"{"total_count": 2, "items": [
        {"number": 12, "html_url": "https://github.com/o/r/pull/12", "title": "T", "state": "open",
         "created_at": "c", "updated_at": "u", "closed_at": null, "user": {"login": "dave"}},
        {"number": "x", "title": "no number"},
        {"number": 13}
    ]}"#;
    let ts = search_response_tasks(body).unwrap();
    assert_eq!(ts.len(), 2);
    assert_eq!(ts[0].key, "12");
    assert_eq!(ts[0].url, "https://github.com/o/r/pull/12");
    assert_eq!(ts[0].closed_at, "none");
    assert_eq!(ts[0].requestor, "dave");
    assert_eq!(ts[1].key, "13");
    assert_eq!(ts[1].title, "none");
    assert_eq!(ts[1].requestor, "none");
    let items = parse_search_items(body).unwrap();
    assert_eq!(items.len(), 3);
    assert_eq!(items[1].number, None);
    assert_eq!(items[1].title.as_deref(), Some("no number"));
}

#[test]
fn search_response_without_items_has_no_tasks() {
    assert!(search_response_tasks(r#"{"message": "Bad credentials"}"#).unwrap().is_empty());
    assert!(search_response_tasks(r#"{"items": 3}"#).unwrap().is_empty());
}

#[test]
fn search_response_that_is_not_json_fails() {
    let e = search_response_tasks("<html>").unwrap_err();
    assert!(!e.message().is_empty());
    assert!(parse_search_items("").is_err());
}

#[test]
fn login_is_read() {
    assert_eq!(user_login(r#"{"login": "erin", "id": 1}"#).unwrap(), Some("erin".to_string()));
    assert_eq!(user_login(r#"{"id": 1}"#).unwrap(), None);
    assert!(user_login("nope").is_err());
}

#[test]
fn requests_are_built() {
    assert_eq!(
        review_requested_query("frank"),
        "is:pr+is:open+archived:false+review-requested:frank"
    );
    assert_eq!(authored_query("frank"), "is:pr+is:open+archived:false+author:frank");
    assert_eq!(
        search_issues_url("is:pr"),
        "https://api.github.com/search/issues?q=is:pr"
    );
}

#[test]
fn items_without_number_are_counted() {
    assert_eq!(items_without_number(&vec![item(Some(1)), item(None), item(None)]), 2);
    assert_eq!(items_without_number(&vec![]), 0);
    let items = vec![item(Some(1)), item(None), item(Some(3))];
    assert_eq!(tasks_from_items(&items).len() + items_without_number(&items), items.len());
}

#[test]
fn not_json_error_carries_serde_message() {
    let expected = serde_json::from_str::<serde_json::Value>("<html>").unwrap_err().to_string();
    let e = search_response_tasks("<html>").unwrap_err();
    assert_eq!(e.message(), expected);
    assert_eq!(e.to_string(), format!("TsugiError: {expected}"));
    let e = user_login("{").unwrap_err();
    assert_eq!(e.message(), serde_json::from_str::<serde_json::Value>("{").unwrap_err().to_string());
}

#[test]
fn login_that_is_not_text_reads_none() {
    assert_eq!(user_login(r#"{"login": 5}"#).unwrap(), None);
    assert_eq!(user_login(r#"[1, 2]"#).unwrap(), None);
}
