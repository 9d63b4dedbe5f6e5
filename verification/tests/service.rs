use tracker_bridge::bulk::OutcomeStatus;
use tracker_bridge::error::{AppError, ErrorBody, ErrorKind};
use tracker_bridge::json::{array_of, object_of, text_list, text_value, JsonValue};
use tracker_bridge::payload::{convert_to_jira_payload, IncomingFields, IncomingParentPayload};
use tracker_bridge::service::{
    bulk_create_url, conclude_bulk_create, conclude_search, conclude_story_update, plan_search,
    TrackerReply,
};
use tracker_bridge::verification::{TaskInput, VerificationEntry};

fn text(s: &str) -> JsonValue {
    JsonValue::Str(s.to_string())
}

fn object(members: Vec<(&str, JsonValue)>) -> JsonValue {
    JsonValue::Object(members.into_iter().map(|(k, v)| (k.to_string(), v)).collect())
}

fn message(kind: ErrorKind, words: &str) -> AppError {
    AppError { kind, body: ErrorBody::Message(words.to_string()) }
}

fn parent_error(index: u64) -> JsonValue {
    object(vec![
        ("failedElementNumber", JsonValue::PosInt(index)),
        ("elementErrors", object(vec![("errors", object(vec![("parent", text("gone"))]))])),
    ])
}

fn unauthorized() -> JsonValue {
    object(vec![("status", JsonValue::PosInt(401))])
}

fn created(id: &str, key: &str) -> JsonValue {
    object(vec![("id", text(id)), ("key", text(key))])
}

fn answer(issues: Vec<JsonValue>, errors: Vec<JsonValue>) -> TrackerReply {
    TrackerReply::Answer(object(vec![
        ("issues", JsonValue::Array(issues)),
        ("errors", JsonValue::Array(errors)),
    ]))
}

fn conclude(reply: &TrackerReply) -> Result<tracker_bridge::bulk::BulkOutcome, AppError> {
    let items = vec![
        IncomingFields {
            parent: IncomingParentPayload { key: "AB-1".to_string() },
            summary: "one".to_string(),
        },
        IncomingFields {
            parent: IncomingParentPayload { key: "AB-2".to_string() },
            summary: "two".to_string(),
        },
    ];
    let payload = convert_to_jira_payload(items, "PRJ", "10003");
    conclude_bulk_create("https://tracker.example", &payload, reply)
}

fn task(parent: &str, category: &str) -> TaskInput {
    TaskInput { subtask: parent.to_string(), category: category.to_string() }
}

#[test]
fn bulk_url_is_under_the_base_url() {
    assert_eq!(bulk_create_url("https://tracker.example"), "https://tracker.example/rest/api/2/issue/bulk");
}

#[test]
fn bulk_success_is_returned_as_the_report() {
    let out = conclude(&answer(vec![created("1", "AB-5")], vec![])).unwrap();
    assert_eq!(out.status, OutcomeStatus::Succeeded);
    assert_eq!(out.created_items.len(), 1);
}

#[test]
fn bulk_partial_failure_carries_the_report() {
    let err = conclude(&answer(vec![created("1", "AB-5")], vec![parent_error(1)])).unwrap_err();
    assert_eq!(err.kind, ErrorKind::PartialFailure);
    match &err.body {
        ErrorBody::Bulk(out) => {
            assert_eq!(out.status, OutcomeStatus::Failed);
            assert_eq!(out.created_items.len(), 1);
            assert_eq!(out.error_messages, vec!["Subtasks for story AB-2 were not created"]);
        }
        other => panic!("unexpected body {:?}", other),
    }
    assert_eq!(
        err.body_json(),
        object(vec![
            (
                "createdItems",
                JsonValue::Array(vec![object(vec![
                    ("id", text("1")),
                    ("key", text("AB-5")),
                    ("link", text("https://tracker.example/browse/AB-5")),
                ])])
            ),
            (
                "errorMessages",
                JsonValue::Array(vec![text("Subtasks for story AB-2 were not created")])
            ),
            ("status", text("error")),
        ])
    );
}

#[test]
fn bulk_full_failure_is_a_failure() {
    let err = conclude(&answer(vec![], vec![parent_error(0)])).unwrap_err();
    assert_eq!(err.kind, ErrorKind::Failure);
    let err = conclude(&TrackerReply::Answer(object(vec![]))).unwrap_err();
    assert_eq!(err.kind, ErrorKind::Failure);
}

#[test]
fn bulk_refused_login_is_an_authentication_error() {
    let err = conclude(&answer(vec![], vec![unauthorized()])).unwrap_err();
    assert_eq!(err.kind, ErrorKind::Authentication);
    let err = conclude(&answer(vec![created("1", "AB-5")], vec![unauthorized()])).unwrap_err();
    assert_eq!(err.kind, ErrorKind::Authentication);
}

#[test]
fn bulk_without_answer_is_an_error_in_plain_words() {
    assert_eq!(
        conclude(&TrackerReply::Unreachable("connection reset".to_string())),
        Err(message(ErrorKind::Transport, "connection reset"))
    );
    assert_eq!(
        conclude(&TrackerReply::Refused("<html>502</html>".to_string())),
        Err(message(ErrorKind::Transport, "<html>502</html>"))
    );
    assert_eq!(
        conclude(&TrackerReply::Unreadable("expected value at line 1".to_string())),
        Err(message(ErrorKind::Parse, "expected value at line 1"))
    );
}

#[test]
fn search_is_refused_for_no_tasks() {
    assert_eq!(
        plan_search("https://tracker.example", &Vec::new()),
        Err(message(ErrorKind::Validation, "No tasks provided."))
    );
}

#[test]
fn search_is_planned_as_one_call() {
    assert_eq!(
        plan_search("https://tracker.example", &vec![task("AB-1", "FE"), task("AB-2", "FE")]),
        Ok("https://tracker.example/rest/api/3/search/jql?jql=parent%20IN%20%28%22AB-1%22%2C%20%22AB-2%22%29&fields=summary".to_string())
    );
}

#[test]
fn search_answer_is_compared_with_what_is_expected() {
    let reply = TrackerReply::Answer(object(vec![(
        "issues",
        JsonValue::Array(vec![object(vec![(
            "fields",
            object(vec![("summary", text("(AB-1) FE - Development"))]),
        )])]),
    )]));
    assert_eq!(
        conclude_search(&vec![task("AB-1", "FE")], &reply),
        Ok(vec![
            VerificationEntry { summary: "(AB-1) FE - Review Requirements".to_string(), exists: false },
            VerificationEntry { summary: "(AB-1) FE - Development".to_string(), exists: true },
            VerificationEntry { summary: "(AB-1) FE - Unit Testing".to_string(), exists: false },
        ])
    );
}

#[test]
fn search_without_answer_is_an_error_in_plain_words() {
    let tasks = vec![task("AB-1", "FE")];
    assert_eq!(
        conclude_search(&tasks, &TrackerReply::Unreachable("timed out".to_string())),
        Err(message(ErrorKind::Transport, "timed out"))
    );
    assert_eq!(
        conclude_search(&tasks, &TrackerReply::Refused("{\"errorMessages\":[\"bad jql\"]}".to_string())),
        Err(message(ErrorKind::Transport, "{\"errorMessages\":[\"bad jql\"]}"))
    );
    assert_eq!(
        conclude_search(&tasks, &TrackerReply::Unreadable("EOF".to_string())),
        Err(message(ErrorKind::Parse, "EOF"))
    );
}

#[test]
fn story_update_without_failures_is_the_report() {
    let out = conclude_story_update(vec![Ok("a".to_string()), Ok("b".to_string())]).unwrap();
    assert_eq!(out.updated, vec!["a", "b"]);
    assert!(out.failed.is_empty());
    assert!(conclude_story_update(Vec::new()).is_ok());
}

#[test]
fn story_update_with_failures_is_an_error() {
    let err = conclude_story_update(vec![Ok("a".to_string()), Err("b".to_string())]).unwrap_err();
    assert_eq!(err.kind, ErrorKind::PartialFailure);
    match &err.body {
        ErrorBody::Stories(out) => {
            assert_eq!(out.updated, vec!["a"]);
            assert_eq!(out.failed, vec!["b"]);
        }
        other => panic!("unexpected body {:?}", other),
    }
    let err = conclude_story_update(vec![Err("a".to_string())]).unwrap_err();
    assert_eq!(err.kind, ErrorKind::Failure);
    assert_eq!(
        err.body_json(),
        object(vec![
            ("message", text("All story points update failed")),
            ("status", text("error")),
            ("updated", JsonValue::Null),
            ("failed", JsonValue::Array(vec![text("a")])),
        ])
    );
}

#[test]
fn error_in_plain_words_has_status_and_message() {
    let err = AppError::with_message(ErrorKind::Validation, "No tasks provided.");
    assert_eq!(err, message(ErrorKind::Validation, "No tasks provided."));
    assert_eq!(
        err.body_json(),
        object(vec![("status", text("error")), ("message", text("No tasks provided."))])
    );
}

#[test]
fn json_readers() {
    let value = object(vec![
        ("a", JsonValue::PosInt(1)),
        ("b", text("two")),
        ("a", JsonValue::PosInt(3)),
        ("list", JsonValue::Array(vec![JsonValue::Null, JsonValue::Bool(true)])),
    ]);
    assert_eq!(value.get("a"), Some(&JsonValue::PosInt(1)));
    assert_eq!(value.get("b").and_then(|v| v.as_str()), Some("two"));
    assert_eq!(value.get("c"), None);
    assert_eq!(value.get(""), None);
    assert_eq!(value.get("list").and_then(|v| v.as_array()).map(|l| l.len()), Some(2));
    assert_eq!(JsonValue::Array(vec![]).get("a"), None);
    assert_eq!(text("a").get("a"), None);
    assert_eq!(text("a").as_array(), None);
    assert_eq!(JsonValue::PosInt(1).as_str(), None);
}

#[test]
fn json_numbers() {
    assert_eq!(JsonValue::PosInt(401).as_i64(), Some(401));
    assert_eq!(JsonValue::PosInt(401).as_u64(), Some(401));
    assert_eq!(JsonValue::PosInt(i64::MAX as u64).as_i64(), Some(i64::MAX));
    assert_eq!(JsonValue::PosInt(i64::MAX as u64 + 1).as_i64(), None);
    assert_eq!(JsonValue::PosInt(u64::MAX).as_u64(), Some(u64::MAX));
    assert_eq!(JsonValue::NegInt(-5).as_i64(), Some(-5));
    assert_eq!(JsonValue::NegInt(-5).as_u64(), None);
    assert_eq!(JsonValue::Float(0x4079_1000_0000_0000).as_i64(), None);
    assert_eq!(JsonValue::Float(0x4079_1000_0000_0000).as_u64(), None);
    assert_eq!(text("401").as_i64(), None);
    assert_eq!(JsonValue::Bool(true).as_u64(), None);
    assert_eq!(JsonValue::Null.as_i64(), None);
}

#[test]
fn json_builders() {
    assert_eq!(text_value("a"), text("a"));
    assert_eq!(text_list(&vec!["a".to_string(), "b".to_string()]), JsonValue::Array(vec![text("a"), text("b")]));
    assert_eq!(text_list(&Vec::new()), JsonValue::Array(vec![]));
    assert_eq!(array_of(vec![JsonValue::Null]), JsonValue::Array(vec![JsonValue::Null]));
    assert_eq!(object_of(vec![("k".to_string(), JsonValue::Null)]), object(vec![("k", JsonValue::Null)]));
}
