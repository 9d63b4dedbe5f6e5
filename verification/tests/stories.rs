use tracker_bridge::json::JsonValue;
use tracker_bridge::story::{
    partition_calls, story_update_body, story_update_url, BatchResult, StoryUpdateOutcome,
    UpdateStoryPoint,
};

fn text(s: &str) -> JsonValue {
    JsonValue::Str(s.to_string())
}

fn object(members: Vec<(&str, JsonValue)>) -> JsonValue {
    JsonValue::Object(members.into_iter().map(|(k, v)| (k.to_string(), v)).collect())
}

fn texts(list: &[&str]) -> JsonValue {
    JsonValue::Array(list.iter().map(|s| text(s)).collect())
}

fn ok(name: &str) -> Result<String, String> {
    Ok(name.to_string())
}

fn err(name: &str) -> Result<String, String> {
    Err(name.to_string())
}

#[test]
fn all_succeeding_twice_gives_the_same_report() {
    let batch = vec![
        UpdateStoryPoint { story_name: "AB-1".to_string(), story_points: 3 },
        UpdateStoryPoint { story_name: "AB-2".to_string(), story_points: 5 },
        UpdateStoryPoint { story_name: "AB-1".to_string(), story_points: 8 },
    ];
    for _ in 0..2 {
        let calls = batch.iter().map(|item| Ok(item.story_name.clone())).collect();
        let outcome = partition_calls(calls);
        assert_eq!(outcome.updated, vec!["AB-1", "AB-2", "AB-1"]);
        assert!(outcome.failed.is_empty());
        assert_eq!(outcome.classify(), BatchResult::Success);
    }
}

#[test]
fn calls_are_parted_in_order() {
    let outcome = partition_calls(vec![ok("a"), err("b"), ok("c"), err("d"), err("e")]);
    assert_eq!(outcome.updated, vec!["a", "c"]);
    assert_eq!(outcome.failed, vec!["b", "d", "e"]);
    assert_eq!(outcome.classify(), BatchResult::PartialSuccess);
}

#[test]
fn all_failing_is_an_error() {
    let outcome = partition_calls(vec![err("a"), err("b")]);
    assert!(outcome.updated.is_empty());
    assert_eq!(outcome.failed, vec!["a", "b"]);
    assert_eq!(outcome.classify(), BatchResult::Error);
}

#[test]
fn empty_batch_is_a_success() {
    let outcome = partition_calls(Vec::new());
    assert_eq!(outcome, StoryUpdateOutcome { updated: vec![], failed: vec![] });
    assert_eq!(outcome.classify(), BatchResult::Success);
}

#[test]
fn report_of_success() {
    let outcome = partition_calls(vec![ok("a"), ok("b")]);
    assert_eq!(
        outcome.to_json(),
        object(vec![
            ("message", text("All story points updated successfully")),
            ("status", text("success")),
            ("updated", texts(&["a", "b"])),
            ("failed", JsonValue::Null),
        ])
    );
}

#[test]
fn report_of_partial_success() {
    let outcome = partition_calls(vec![ok("a"), err("b")]);
    assert_eq!(
        outcome.to_json(),
        object(vec![
            ("message", text("Some story points updated successfully")),
            ("status", text("error")),
            ("updated", texts(&["a"])),
            ("failed", texts(&["b"])),
        ])
    );
}

#[test]
fn report_of_error() {
    let outcome = partition_calls(vec![err("a"), err("b")]);
    assert_eq!(
        outcome.to_json(),
        object(vec![
            ("message", text("All story points update failed")),
            ("status", text("error")),
            ("updated", JsonValue::Null),
            ("failed", texts(&["a", "b"])),
        ])
    );
}

#[test]
fn update_url_names_the_story() {
    assert_eq!(
        story_update_url("https://tracker.example", "AB-12"),
        "https://tracker.example/rest/api/3/issue/AB-12"
    );
}

#[test]
fn update_body_sets_the_custom_field() {
    assert_eq!(
        story_update_body("customfield_10016", 5),
        object(vec![("fields", object(vec![("customfield_10016", JsonValue::PosInt(5))]))])
    );
    assert_eq!(
        story_update_body("cf", 0),
        object(vec![("fields", object(vec![("cf", JsonValue::PosInt(0))]))])
    );
    assert_eq!(
        story_update_body("cf", -2),
        object(vec![("fields", object(vec![("cf", JsonValue::NegInt(-2))]))])
    );
    assert_eq!(
        story_update_body("cf", i32::MIN),
        object(vec![("fields", object(vec![("cf", JsonValue::NegInt(-2147483648))]))])
    );
}
