use tracker_bridge::json::JsonValue;
use tracker_bridge::verification::{
    compare_summaries, contains_text, distinct_parents, extract_jira_summaries,
    generate_expected_summaries, search_url, verify_tasks, TaskInput, VerificationEntry,
};

fn strings(list: &[&str]) -> Vec<String> {
    list.iter().map(|s| s.to_string()).collect()
}

fn text(s: &str) -> JsonValue {
    JsonValue::Str(s.to_string())
}

fn object(members: Vec<(&str, JsonValue)>) -> JsonValue {
    JsonValue::Object(members.into_iter().map(|(k, v)| (k.to_string(), v)).collect())
}

fn issue(summary: JsonValue) -> JsonValue {
    object(vec![("fields", object(vec![("summary", summary)]))])
}

fn task(parent: &str, category: &str) -> TaskInput {
    TaskInput { subtask: parent.to_string(), category: category.to_string() }
}

fn entry(summary: &str, exists: bool) -> VerificationEntry {
    VerificationEntry { summary: summary.to_string(), exists }
}

#[test]
fn both_yields_six_names_in_order() {
    assert_eq!(
        generate_expected_summaries("AB-1", "Both"),
        strings(&[
            "(AB-1) FE - Review Requirements",
            "(AB-1) FE - Development",
            "(AB-1) FE - Unit Testing",
            "(AB-1) BE - Review Requirements",
            "(AB-1) BE - Development",
            "(AB-1) BE - Unit Testing",
        ])
    );
}

#[test]
fn front_end_yields_three_names() {
    assert_eq!(
        generate_expected_summaries("XY-7", "FE"),
        strings(&[
            "(XY-7) FE - Review Requirements",
            "(XY-7) FE - Development",
            "(XY-7) FE - Unit Testing",
        ])
    );
}

#[test]
fn back_end_yields_three_names() {
    assert_eq!(
        generate_expected_summaries("XY-7", "BE"),
        strings(&[
            "(XY-7) BE - Review Requirements",
            "(XY-7) BE - Development",
            "(XY-7) BE - Unit Testing",
        ])
    );
}

#[test]
fn unknown_category_yields_nothing() {
    assert!(generate_expected_summaries("AB-1", "QA").is_empty());
    assert!(generate_expected_summaries("AB-1", "").is_empty());
    assert!(generate_expected_summaries("AB-1", "both").is_empty());
    assert!(generate_expected_summaries("AB-1", "FE ").is_empty());
}

#[test]
fn empty_parent_is_generated_as_it_is() {
    assert_eq!(generate_expected_summaries("", "FE")[0], "() FE - Review Requirements");
}

#[test]
fn first_found_names_are_marked() {
    let expected = generate_expected_summaries("AB-1", "Both");
    let actual: Vec<String> = expected[..4].to_vec();
    let entries = compare_summaries(expected.clone(), &actual);
    assert_eq!(entries.len(), 6);
    for (i, e) in entries.iter().enumerate() {
        assert_eq!(e.summary, expected[i]);
        assert_eq!(e.exists, i < 4);
    }
}

#[test]
fn nothing_found_marks_nothing() {
    let expected = generate_expected_summaries("AB-1", "FE");
    let entries = compare_summaries(expected, &Vec::new());
    assert_eq!(entries.len(), 3);
    assert!(entries.iter().all(|e| !e.exists));
}

#[test]
fn comparison_is_exact() {
    let expected = strings(&["(AB-1) FE - Development"]);
    let actual = strings(&["(ab-1) fe - development", "(AB-1) FE - Development ", " (AB-1) FE - Development"]);
    assert_eq!(compare_summaries(expected, &actual), vec![entry("(AB-1) FE - Development", false)]);
}

#[test]
fn repeated_expected_names_are_all_marked() {
    let expected = strings(&["a", "a", "b"]);
    let actual = strings(&["a"]);
    assert_eq!(
        compare_summaries(expected, &actual),
        vec![entry("a", true), entry("a", true), entry("b", false)]
    );
}

#[test]
fn contains_text_finds_exact_text() {
    let list = strings(&["a", "bc", ""]);
    assert!(contains_text(&list, "bc"));
    assert!(contains_text(&list, ""));
    assert!(!contains_text(&list, "b"));
    assert!(!contains_text(&Vec::new(), "a"));
}

#[test]
fn summaries_are_extracted_in_order() {
    let response = object(vec![(
        "issues",
        JsonValue::Array(vec![issue(text("one")), issue(text("two")), issue(text("one"))]),
    )]);
    assert_eq!(extract_jira_summaries(&response), strings(&["one", "two", "one"]));
}

#[test]
fn malformed_issues_are_skipped() {
    let response = object(vec![(
        "issues",
        JsonValue::Array(vec![
            issue(text("one")),
            issue(JsonValue::PosInt(3)),
            object(vec![("fields", JsonValue::Null)]),
            object(vec![]),
            JsonValue::Str("stray".to_string()),
            issue(text("two")),
        ]),
    )]);
    assert_eq!(extract_jira_summaries(&response), strings(&["one", "two"]));
}

#[test]
fn missing_issues_give_no_summaries() {
    assert!(extract_jira_summaries(&object(vec![])).is_empty());
    assert!(extract_jira_summaries(&object(vec![("issues", text("none"))])).is_empty());
    assert!(extract_jira_summaries(&JsonValue::Null).is_empty());
    assert!(extract_jira_summaries(&JsonValue::Array(vec![issue(text("one"))])).is_empty());
}

#[test]
fn tasks_are_verified_in_input_order() {
    let tasks = vec![task("AB-2", "BE"), task("AB-1", "FE"), task("AB-3", "QA")];
    let actual = strings(&["(AB-1) FE - Development", "(AB-2) BE - Unit Testing", "(AB-2) FE - Development"]);
    assert_eq!(
        verify_tasks(&tasks, &actual),
        vec![
            entry("(AB-2) BE - Review Requirements", false),
            entry("(AB-2) BE - Development", false),
            entry("(AB-2) BE - Unit Testing", true),
            entry("(AB-1) FE - Review Requirements", false),
            entry("(AB-1) FE - Development", true),
            entry("(AB-1) FE - Unit Testing", false),
        ]
    );
}

#[test]
fn no_tasks_give_no_findings() {
    assert!(verify_tasks(&Vec::new(), &strings(&["a"])).is_empty());
}

#[test]
fn parents_are_collected_once() {
    let tasks = vec![task("AB-2", "BE"), task("AB-1", "FE"), task("AB-2", "FE"), task("AB-1", "Both")];
    assert_eq!(distinct_parents(&tasks), strings(&["AB-2", "AB-1"]));
}

#[test]
fn search_url_for_one_parent() {
    let url = search_url("https://tracker.example", &vec![task("AB-1", "FE")]);
    assert_eq!(
        url,
        "https://tracker.example/rest/api/3/search/jql?jql=parent%20IN%20%28%22AB-1%22%29&fields=summary"
    );
}

#[test]
fn search_url_for_several_parents() {
    let tasks = vec![task("AB-1", "FE"), task("CD-2", "BE"), task("AB-1", "BE")];
    let url = search_url("https://tracker.example", &tasks);
    assert_eq!(
        url,
        "https://tracker.example/rest/api/3/search/jql?jql=parent%20IN%20%28%22AB-1%22%2C%20%22CD-2%22%29&fields=summary"
    );
}

#[test]
fn search_url_encodes_every_reserved_byte() {
    let url = search_url("b", &vec![task("a_b.c~d é/%", "FE")]);
    assert_eq!(
        url,
        "b/rest/api/3/search/jql?jql=parent%20IN%20%28%22a_b.c~d%20%C3%A9%2F%25%22%29&fields=summary"
    );
}
