use orchestra_core::json::JsonValue;
use orchestra_core::linear::normalize_linear_issue;
use orchestra_core::linear::normalize_linear_issue_page;
use orchestra_core::linear::parse_i64_text;
use orchestra_core::linear::LinearReadError;

fn s(text: &str) -> JsonValue {
    JsonValue::String(text.to_string())
}

fn n(text: &str) -> JsonValue {
    JsonValue::Number(text.to_string())
}

fn obj(members: Vec<(&str, JsonValue)>) -> JsonValue {
    JsonValue::Object(members.into_iter().map(|(k, v)| (k.to_string(), v)).collect())
}

fn arr(items: Vec<JsonValue>) -> JsonValue {
    JsonValue::Array(items)
}

fn nodes(items: Vec<JsonValue>) -> JsonValue {
    obj(vec![("nodes", arr(items))])
}

fn issue(identifier: &str, state: &str) -> JsonValue {
    obj(vec![
        ("id", s(&format!("id-{identifier}"))),
        ("identifier", s(identifier)),
        ("title", s(&format!("  {identifier} title  "))),
        ("description", s(" description ")),
        ("priority", n("0")),
        ("state", obj(vec![("name", s(state))])),
        ("branchName", s(" branch ")),
        ("url", s(&format!("https://linear.app/issue/{identifier}"))),
        (
            "labels",
            nodes(vec![
                obj(vec![("name", s(" Automation "))]),
                obj(vec![("name", s("bug"))]),
                obj(vec![("name", s("BUG"))]),
            ]),
        ),
        (
            "relations",
            nodes(vec![obj(vec![
                ("type", s("blocked_by")),
                (
                    "relatedIssue",
                    obj(vec![
                        ("id", s("blocker-2")),
                        ("identifier", s("ORC-2")),
                        ("state", obj(vec![("name", s("Todo"))])),
                    ]),
                ),
            ])]),
        ),
        (
            "inverseRelations",
            nodes(vec![obj(vec![
                ("type", s("blocks")),
                (
                    "issue",
                    obj(vec![
                        ("id", s("blocker-1")),
                        ("identifier", s("ORC-1")),
                        ("state", obj(vec![("name", s("Done"))])),
                    ]),
                ),
            ])]),
        ),
        ("createdAt", s("2026-07-01T00:00:00.000Z")),
        ("updatedAt", s("2026-07-16T00:00:00.000Z")),
    ])
}

fn page(issues: Vec<JsonValue>, has_next: bool, cursor: JsonValue) -> JsonValue {
    obj(vec![(
        "data",
        obj(vec![(
            "project",
            obj(vec![(
                "issues",
                obj(vec![
                    ("nodes", arr(issues)),
                    ("pageInfo", obj(vec![("hasNextPage", JsonValue::Bool(has_next)), ("endCursor", cursor)])),
                ]),
            )]),
        )]),
    )])
}

#[test]
fn paginated_linear_values_normalize_stably_without_raw_graphql() {
    let response = page(vec![issue("ORC-35", "In Progress"), issue("ORC-12", "Done")], true, s("cursor-2"));
    let page = normalize_linear_issue_page(&response).unwrap();
    assert_eq!(page.issues[0].identifier, "ORC-12");
    assert_eq!(page.issues[1].labels, vec!["automation", "bug"]);
    assert_eq!(page.issues[1].priority, None);
    assert_eq!(
        page.issues[1]
            .blocked_by
            .iter()
            .map(|blocker| blocker.identifier.as_deref().unwrap())
            .collect::<Vec<_>>(),
        vec!["ORC-1", "ORC-2"]
    );
    assert!(page.has_next_page);
    assert_eq!(page.end_cursor.as_deref(), Some("cursor-2"));
}

#[test]
fn refresh_and_graphql_failures_are_typed() {
    let refreshed = normalize_linear_issue(&obj(vec![("data", obj(vec![("issue", issue("ORC-35", "Done"))]))])).unwrap();
    assert_eq!(refreshed.state, "Done");
    assert_eq!(refreshed.title, "ORC-35 title");
    match normalize_linear_issue_page(&obj(vec![("errors", arr(vec![obj(vec![("message", s("rate limited"))])]))])) {
        Err(LinearReadError::GraphQl(message)) => assert_eq!(message, "rate limited"),
        _ => panic!("expected a GraphQL error"),
    }
}

#[test]
fn normalized_issue_text_is_trimmed_and_blank_optionals_dropped() {
    let page = normalize_linear_issue_page(&page(vec![issue("ORC-7", "Todo")], false, JsonValue::Null)).unwrap();
    let issue = &page.issues[0];
    assert_eq!(issue.description.as_deref(), Some("description"));
    assert_eq!(issue.branch_name.as_deref(), Some("branch"));
    assert_eq!(issue.blocked_by[0].id.as_deref(), Some("blocker-1"));
    assert_eq!(issue.blocked_by[1].state.as_deref(), Some("Todo"));
    assert!(!page.has_next_page);
    assert_eq!(page.end_cursor, None);
}

#[test]
fn empty_cursor_is_no_cursor() {
    let page = normalize_linear_issue_page(&page(vec![], false, s(""))).unwrap();
    assert!(page.issues.is_empty());
    assert_eq!(page.end_cursor, None);
}

#[test]
fn workspace_issue_connection_is_read_when_no_project() {
    let response = obj(vec![(
        "data",
        obj(vec![(
            "issues",
            obj(vec![
                ("nodes", arr(vec![issue("ORC-9", "Todo")])),
                ("pageInfo", obj(vec![("hasNextPage", JsonValue::Bool(false))])),
            ]),
        )]),
    )]);
    let page = normalize_linear_issue_page(&response).unwrap();
    assert_eq!(page.issues.len(), 1);
}

#[test]
fn missing_issue_data_and_blank_required_text_are_typed() {
    assert!(matches!(
        normalize_linear_issue_page(&obj(vec![("data", obj(vec![]))])),
        Err(LinearReadError::MissingData)
    ));
    assert!(matches!(normalize_linear_issue(&obj(vec![])), Err(LinearReadError::MissingData)));
    let mut blank = issue("ORC-3", "Todo");
    if let JsonValue::Object(members) = &mut blank {
        members[2].1 = s("   ");
    }
    match normalize_linear_issue_page(&page(vec![blank], false, JsonValue::Null)) {
        Err(LinearReadError::InvalidData(message)) => assert_eq!(message, "`title` is empty"),
        _ => panic!("expected invalid data"),
    }
    let mut wrong = issue("ORC-4", "Todo");
    if let JsonValue::Object(members) = &mut wrong {
        members[4].1 = n("1.5");
    }
    assert!(matches!(
        normalize_linear_issue_page(&page(vec![wrong], false, JsonValue::Null)),
        Err(LinearReadError::InvalidData(_))
    ));
}

#[test]
fn graphql_messages_are_joined_and_capped_at_four() {
    let errors: Vec<JsonValue> = (1..=6).map(|i| obj(vec![("message", s(&format!("e{i}")))])).collect();
    match normalize_linear_issue_page(&obj(vec![("errors", arr(errors))])) {
        Err(LinearReadError::GraphQl(message)) => assert_eq!(message, "e1; e2; e3; e4"),
        _ => panic!("expected a GraphQL error"),
    }
    match normalize_linear_issue_page(&obj(vec![("errors", arr(vec![obj(vec![])]))])) {
        Err(LinearReadError::GraphQl(message)) => assert_eq!(message, "unknown GraphQL error"),
        _ => panic!("expected a GraphQL error"),
    }
    assert_eq!(
        LinearReadError::GraphQl("x".into()).message(),
        "Linear returned GraphQL errors: x"
    );
}

#[test]
fn integer_text_parses_within_i64_only() {
    assert_eq!(parse_i64_text("42"), Some(42));
    assert_eq!(parse_i64_text("-9223372036854775808"), Some(i64::MIN));
    assert_eq!(parse_i64_text("9223372036854775808"), None);
    assert_eq!(parse_i64_text("4.0"), None);
    assert_eq!(parse_i64_text("-"), None);
}
