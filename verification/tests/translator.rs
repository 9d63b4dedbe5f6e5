use tracker_bridge::payload::{
    convert_to_jira_payload, IncomingFields, IncomingParentPayload, JiraPayload,
};
use tracker_bridge::text::{insert_key, str_eq, str_le};

fn item(parent: &str, summary: &str) -> IncomingFields {
    IncomingFields {
        parent: IncomingParentPayload { key: parent.to_string() },
        summary: summary.to_string(),
    }
}

fn pairs(payload: &JiraPayload) -> Vec<(String, String)> {
    payload
        .issue_updates
        .iter()
        .map(|u| (u.fields.parent.key.clone(), u.fields.summary.clone()))
        .collect()
}

fn pair(parent: &str, summary: &str) -> (String, String) {
    (parent.to_string(), summary.to_string())
}

#[test]
fn empty_input_gives_empty_request() {
    let payload = convert_to_jira_payload(Vec::new(), "PRJ", "10003");
    assert!(payload.issue_updates.is_empty());
}

#[test]
fn every_item_becomes_one_entry() {
    let items = vec![item("AB-3", "c"), item("AB-1", "a"), item("AB-2", "b"), item("AB-1", "d")];
    let payload = convert_to_jira_payload(items, "PRJ", "10003");
    assert_eq!(payload.issue_updates.len(), 4);
}

#[test]
fn entries_carry_project_and_issue_type() {
    let payload = convert_to_jira_payload(vec![item("AB-1", "a"), item("AB-0", "b")], "PRJ", "10003");
    for update in &payload.issue_updates {
        assert_eq!(update.fields.project.key, "PRJ");
        assert_eq!(update.fields.issuetype.id, "10003");
    }
}

#[test]
fn entries_are_sorted_by_parent_key() {
    let items = vec![item("AB-3", "c"), item("AB-1", "a"), item("AB-2", "b")];
    let payload = convert_to_jira_payload(items, "PRJ", "10003");
    assert_eq!(pairs(&payload), vec![pair("AB-1", "a"), pair("AB-2", "b"), pair("AB-3", "c")]);
}

#[test]
fn equal_parent_keys_keep_input_order() {
    let items = vec![
        item("AB-2", "first"),
        item("AB-1", "second"),
        item("AB-2", "third"),
        item("AB-1", "fourth"),
        item("AB-2", "fifth"),
    ];
    let payload = convert_to_jira_payload(items, "PRJ", "10003");
    assert_eq!(
        pairs(&payload),
        vec![
            pair("AB-1", "second"),
            pair("AB-1", "fourth"),
            pair("AB-2", "first"),
            pair("AB-2", "third"),
            pair("AB-2", "fifth"),
        ]
    );
}

#[test]
fn order_is_by_bytes_not_by_number() {
    let items = vec![item("AB-9", "nine"), item("AB-10", "ten"), item("ab-1", "lower"), item("AB-", "bare")];
    let payload = convert_to_jira_payload(items, "PRJ", "10003");
    assert_eq!(
        pairs(&payload),
        vec![pair("AB-", "bare"), pair("AB-10", "ten"), pair("AB-9", "nine"), pair("ab-1", "lower")]
    );
}

#[test]
fn empty_parent_key_is_passed_through() {
    let payload = convert_to_jira_payload(vec![item("AB-1", "a"), item("", "")], "PRJ", "10003");
    assert_eq!(pairs(&payload), vec![pair("", ""), pair("AB-1", "a")]);
}

#[test]
fn translation_agrees_with_a_stable_sort() {
    let keys = ["b", "a", "c", "a", "b", "", "é", "z", "a", "Z", "é", "b"];
    let items: Vec<IncomingFields> =
        keys.iter().enumerate().map(|(i, k)| item(k, &i.to_string())).collect();
    let mut expected: Vec<(String, String)> =
        keys.iter().enumerate().map(|(i, k)| pair(k, &i.to_string())).collect();
    expected.sort_by(|a, b| a.0.cmp(&b.0));
    let payload = convert_to_jira_payload(items, "PRJ", "10003");
    assert_eq!(pairs(&payload), expected);
}

#[test]
fn byte_order_of_strings() {
    assert!(str_le("", ""));
    assert!(str_le("", "a"));
    assert!(!str_le("a", ""));
    assert!(str_le("AB-1", "AB-1"));
    assert!(str_le("AB-1", "AB-10"));
    assert!(!str_le("AB-10", "AB-1"));
    assert!(str_le("AB-10", "AB-9"));
    assert!(str_le("Z", "a"));
    assert!(str_le("z", "é"));
    assert!(!str_le("é", "z"));
}

#[test]
fn equality_of_strings() {
    assert!(str_eq("", ""));
    assert!(str_eq("AB-1", "AB-1"));
    assert!(!str_eq("AB-1", "AB-2"));
    assert!(!str_eq("AB-1", "AB-10"));
    assert!(!str_eq("FE", "fe"));
}

#[test]
fn keys_are_kept_sorted_and_distinct() {
    let mut keys: Vec<String> = Vec::new();
    for key in ["AB-2", "AB-1", "AB-2", "AB-3", "AB-1", "AB-0"] {
        insert_key(&mut keys, key);
    }
    assert_eq!(keys, vec!["AB-0", "AB-1", "AB-2", "AB-3"]);
}
