//! Expected-versus-actual verification of sub-task names.

use vstd::prelude::*;
use vstd::string::StringExecFns;
use crate::encoding::{percent_encode, percent_encoded};
use crate::json::{array_of, listed, member_models, models, nested, object_of, text_value, JsonModel, JsonValue};
use crate::text::{str_eq, texts};

verus! {

/// The name expected under `parent` for one category tag and one phase.
pub open spec fn expected_name(parent: Seq<char>, tag: Seq<char>, phase: Seq<char>) -> Seq<char> {
    "("@ + parent + ") "@ + tag + " - "@ + phase
}

/// Builds one expected name.
fn make_expected_name(parent: &str, tag: &str, phase: &str) -> (name: String)
    ensures
        name@ == expected_name(parent@, tag@, phase@),
{
    let mut name = String::from_str("(");
    name.append(parent);
    name.append(") ");
    name.append(tag);
    name.append(" - ");
    name.append(phase);
    name
}

/// The three phases of work, in the order in which names are generated.
pub open spec fn phase_names() -> Seq<Seq<char>> {
    seq!["Review Requirements"@, "Development"@, "Unit Testing"@]
}

/// The names of one category tag under `parent`, one for each phase.
pub open spec fn expected_block(parent: Seq<char>, tag: Seq<char>) -> Seq<Seq<char>> {
    Seq::new(3, |i: int| expected_name(parent, tag, phase_names()[i]))
}

/// The names expected under `parent` for a category: the front-end block for
/// "FE", the back-end block for "BE", the first followed by the second for
/// "Both", and nothing for any other category.
pub open spec fn expected_summaries(parent: Seq<char>, category: Seq<char>) -> Seq<Seq<char>> {
    if category == "FE"@ {
        expected_block(parent, "FE"@)
    } else if category == "BE"@ {
        expected_block(parent, "BE"@)
    } else if category == "Both"@ {
        expected_block(parent, "FE"@) + expected_block(parent, "BE"@)
    } else {
        Seq::empty()
    }
}

/// Appends the block of one category tag to `names`.
fn push_expected_block(names: &mut Vec<String>, parent: &str, tag: &str)
    ensures
        texts(final(names)@) == texts(old(names)@) + expected_block(parent@, tag@),
{
    names.push(make_expected_name(parent, tag, "Review Requirements"));
    names.push(make_expected_name(parent, tag, "Development"));
    names.push(make_expected_name(parent, tag, "Unit Testing"));
    assert(texts(names@) =~= texts(old(names)@) + expected_block(parent@, tag@));
}

/// Generates the ordered names expected to exist under `parent` for the
/// category `task_type`.
pub fn generate_expected_summaries(parent: &str, task_type: &str) -> (names: Vec<String>)
    ensures
        texts(names@) == expected_summaries(parent@, task_type@),
{
    let mut names: Vec<String> = Vec::new();
    assert(texts(names@) =~= Seq::empty());
    if str_eq(task_type, "FE") {
        push_expected_block(&mut names, parent, "FE");
    } else if str_eq(task_type, "BE") {
        push_expected_block(&mut names, parent, "BE");
    } else if str_eq(task_type, "Both") {
        push_expected_block(&mut names, parent, "FE");
        push_expected_block(&mut names, parent, "BE");
    }
    assert(texts(names@) =~= expected_summaries(parent@, task_type@));
    names
}

/// One parent to verify: its key, and the category of work planned under it.
#[derive(Debug, Clone, PartialEq, Eq)]
pub struct TaskInput {
    pub subtask: String,
    pub category: String,
}

/// The parent keys of the tasks, in their order.
pub open spec fn parent_keys(tasks: Seq<TaskInput>) -> Seq<Seq<char>> {
    tasks.map_values(|t: TaskInput| t.subtask@)
}

/// The texts of `keys` without repetition: each at the place where it first
/// occurs.
pub open spec fn distinct_in_order(keys: Seq<Seq<char>>) -> Seq<Seq<char>>
    decreases keys.len(),
{
    if keys.len() == 0 {
        Seq::empty()
    } else {
        let rest = distinct_in_order(keys.drop_last());
        if rest.contains(keys.last()) {
            rest
        } else {
            rest.push(keys.last())
        }
    }
}

/// A key between double quotes.
pub open spec fn quoted(key: Seq<char>) -> Seq<char> {
    "\""@ + key + "\""@
}

/// The quoted keys, separated by a comma and a space.
pub open spec fn quoted_list(keys: Seq<Seq<char>>) -> Seq<char>
    decreases keys.len(),
{
    if keys.len() == 0 {
        Seq::empty()
    } else if keys.len() == 1 {
        quoted(keys[0])
    } else {
        quoted_list(keys.drop_last()) + ", "@ + quoted(keys.last())
    }
}

/// The filter that selects the issues whose parent is one of `keys`.
pub open spec fn parent_filter(keys: Seq<Seq<char>>) -> Seq<char> {
    "parent IN ("@ + quoted_list(keys) + ")"@
}

/// The address of the one search that fetches the summaries of all issues
/// under the parents of `tasks`.
pub open spec fn search_address(base_url: Seq<char>, tasks: Seq<TaskInput>) -> Seq<char> {
    base_url + "/rest/api/3/search/jql?jql="@ + percent_encoded(
        parent_filter(distinct_in_order(parent_keys(tasks))),
    ) + "&fields=summary"@
}

/// Tells whether `list` holds the text `key`.
pub fn contains_text(list: &Vec<String>, key: &str) -> (found: bool)
    ensures
        found == texts(list@).contains(key@),
{
    let mut i: usize = 0;
    while i < list.len()
        invariant
            i <= list.len(),
            forall|k: int| 0 <= k < i ==> (#[trigger] list[k])@ != key@,
        decreases list.len() - i,
    {
        if str_eq(list[i].as_str(), key) {
            assert(texts(list@)[i as int] == key@);
            return true;
        }
        i += 1;
    }
    assert forall|k: int| 0 <= k < list.len() implies #[trigger] texts(list@)[k] != key@ by {
        assert(texts(list@)[k] == list[k]@);
    }
    false
}

/// Collects the parent keys of the tasks, each once, in the order in which
/// they first occur.
pub fn distinct_parents(tasks: &Vec<TaskInput>) -> (keys: Vec<String>)
    ensures
        texts(keys@) == distinct_in_order(parent_keys(tasks@)),
{
    let mut keys: Vec<String> = Vec::new();
    let ghost all = parent_keys(tasks@);
    let mut i: usize = 0;
    assert(all.take(0) =~= Seq::empty());
    assert(texts(keys@) =~= Seq::empty());
    while i < tasks.len()
        invariant
            i <= tasks.len(),
            all == parent_keys(tasks@),
            texts(keys@) == distinct_in_order(all.take(i as int)),
        decreases tasks.len() - i,
    {
        let key = tasks[i].subtask.as_str();
        let ghost before = texts(keys@);
        proof {
            assert(all.take(i + 1).drop_last() =~= all.take(i as int));
            assert(all.take(i + 1).last() == key@);
        }
        if !contains_text(&keys, key) {
            keys.push(key.to_owned());
            assert(texts(keys@) =~= before.push(key@));
        }
        i += 1;
    }
    assert(all.take(i as int) =~= all);
    keys
}

/// Builds the filter that selects the issues under any of `keys`.
fn make_parent_filter(keys: &Vec<String>) -> (filter: String)
    ensures
        filter@ == parent_filter(texts(keys@)),
{
    let mut filter = String::from_str("parent IN (");
    let ghost all = texts(keys@);
    let mut i: usize = 0;
    assert(all.take(0) =~= Seq::empty());
    assert(filter@ =~= "parent IN ("@ + quoted_list(all.take(0)));
    while i < keys.len()
        invariant
            i <= keys.len(),
            all == texts(keys@),
            filter@ == "parent IN ("@ + quoted_list(all.take(i as int)),
        decreases keys.len() - i,
    {
        let ghost before = filter@;
        proof {
            assert(all.take(i + 1).drop_last() =~= all.take(i as int));
            assert(all.take(i + 1).last() == keys[i as int]@);
            assert(all.take(i + 1)[0] == all[0]);
        }
        if i > 0 {
            filter.append(", ");
        }
        filter.append("\"");
        filter.append(keys[i].as_str());
        filter.append("\"");
        proof {
            let key = keys[i as int]@;
            if i > 0 {
                assert(filter@ =~= before + ", "@ + quoted(key));
            } else {
                assert(quoted_list(all.take(0)) =~= Seq::<char>::empty());
                assert(filter@ =~= "parent IN ("@ + quoted(key));
            }
            assert(filter@ =~= "parent IN ("@ + quoted_list(all.take(i + 1)));
        }
        i += 1;
    }
    assert(all.take(i as int) =~= all);
    filter.append(")");
    filter
}

/// Builds the address of the one search that covers all `tasks`.
pub fn search_url(base_url: &str, tasks: &Vec<TaskInput>) -> (url: String)
    ensures
        url@ == search_address(base_url@, tasks@),
{
    let keys = distinct_parents(tasks);
    let filter = make_parent_filter(&keys);
    let encoded = percent_encode(filter.as_str());
    let mut url = String::from_str(base_url);
    url.append("/rest/api/3/search/jql?jql=");
    url.append(encoded.as_str());
    url.append("&fields=summary");
    url
}

/// Whether one expected name exists on the tracker.
#[derive(Debug, Clone, PartialEq, Eq)]
pub struct VerificationEntry {
    pub summary: String,
    pub exists: bool,
}

/// What a verification entry says.
pub struct Finding {
    pub summary: Seq<char>,
    pub exists: bool,
}

impl View for VerificationEntry {
    type V = Finding;

    open spec fn view(&self) -> Finding {
        Finding { summary: self.summary@, exists: self.exists }
    }
}

/// What a list of verification entries says.
pub open spec fn findings(entries: Seq<VerificationEntry>) -> Seq<Finding> {
    entries.map_values(|e: VerificationEntry| e@)
}

/// The summary of one issue of a search response: its `fields.summary`, where
/// that is a string.
pub open spec fn summary_of(issue: JsonModel) -> Option<Seq<char>> {
    match nested(issue, "fields"@, "summary"@) {
        Some(v) => v.text(),
        None => None,
    }
}

/// The summaries of the issues, in their order, without the issues that have
/// none.
pub open spec fn summaries_among(issues: Seq<JsonModel>) -> Seq<Seq<char>>
    decreases issues.len(),
{
    if issues.len() == 0 {
        Seq::empty()
    } else {
        match summary_of(issues.last()) {
            Some(t) => summaries_among(issues.drop_last()).push(t),
            None => summaries_among(issues.drop_last()),
        }
    }
}

/// The summaries that a search response returns; none where its `issues` is
/// missing or no array.
pub open spec fn returned_summaries(response: JsonModel) -> Seq<Seq<char>> {
    match listed(response, "issues"@) {
        Some(issues) => summaries_among(issues),
        None => Seq::empty(),
    }
}

/// The finding for each expected name, in the order of the names: whether
/// `actual` holds exactly that text.
pub open spec fn compared(expected: Seq<Seq<char>>, actual: Seq<Seq<char>>) -> Seq<Finding> {
    expected.map_values(|name: Seq<char>| Finding { summary: name, exists: actual.contains(name) })
}

/// The findings for all tasks: those of the first task, then those of the
/// second, and so on, each in the order in which its names are generated.
pub open spec fn verification_report(tasks: Seq<TaskInput>, actual: Seq<Seq<char>>) -> Seq<Finding>
    decreases tasks.len(),
{
    if tasks.len() == 0 {
        Seq::empty()
    } else {
        verification_report(tasks.drop_last(), actual) + compared(
            expected_summaries(tasks.last().subtask@, tasks.last().category@),
            actual,
        )
    }
}

/// Where the tracker returned exactly the first `found` of the expected
/// names, and no expected name occurs twice, the comparison has one entry for
/// each expected name, in their order; the first `found` say that the name
/// exists, and the others that it does not.
pub proof fn lemma_found_prefix(expected: Seq<Seq<char>>, actual: Seq<Seq<char>>, found: int)
    requires
        0 <= found <= expected.len(),
        expected.no_duplicates(),
        forall|name: Seq<char>| actual.contains(name) <==> expected.take(found).contains(name),
    ensures
        compared(expected, actual).len() == expected.len(),
        forall|i: int|
            0 <= i < expected.len() ==> (#[trigger] compared(expected, actual)[i]) == (Finding {
                summary: expected[i],
                exists: i < found,
            }),
{
    assert forall|i: int| 0 <= i < expected.len() implies (#[trigger] compared(
        expected,
        actual,
    )[i]) == (Finding { summary: expected[i], exists: i < found }) by {
        let first = expected.take(found);
        if i < found {
            assert(first[i] == expected[i]);
            assert(first.contains(expected[i]));
        } else if first.contains(expected[i]) {
            let k = choose|k: int| 0 <= k < first.len() && first[k] == expected[i];
            assert(expected[k] == expected[i]);
        }
    }
}

/// A finding as JSON: its `summary` and whether it `exists`.
pub open spec fn finding_json(finding: Finding) -> JsonModel {
    JsonModel::Object(
        seq![
            ("summary"@, JsonModel::Str(finding.summary)),
            ("exists"@, JsonModel::Bool(finding.exists)),
        ],
    )
}

/// The findings as JSON: an array with one object for each, in their order.
pub open spec fn findings_json(all: Seq<Finding>) -> JsonModel {
    JsonModel::Array(all.map_values(|f: Finding| finding_json(f)))
}

impl VerificationEntry {
    /// Renders the entry as JSON.
    pub fn to_json(&self) -> (value: JsonValue)
        ensures
            value@ == finding_json(self@),
    {
        let mut members: Vec<(String, JsonValue)> = Vec::new();
        members.push(("summary".to_owned(), text_value(self.summary.as_str())));
        members.push(("exists".to_owned(), JsonValue::Bool(self.exists)));
        assert(member_models(members@) =~= finding_json(self@)->Object_0);
        object_of(members)
    }
}

/// Renders the findings of a verification as JSON.
pub fn render_findings(entries: &Vec<VerificationEntry>) -> (value: JsonValue)
    ensures
        value@ == findings_json(findings(entries@)),
{
    let mut items: Vec<JsonValue> = Vec::new();
    let mut i: usize = 0;
    while i < entries.len()
        invariant
            i <= entries.len(),
            items.len() == i,
            forall|k: int| 0 <= k < i ==> (#[trigger] items[k])@ == finding_json(entries[k]@),
        decreases entries.len() - i,
    {
        items.push(entries[i].to_json());
        i += 1;
    }
    assert(models(items@) =~= findings(entries@).map_values(|f: Finding| finding_json(f)));
    array_of(items)
}

/// Reads the summary of one issue of a search response.
fn issue_summary(issue: &JsonValue) -> (r: Option<&str>)
    ensures
        match r {
            Some(t) => summary_of(issue@) == Some(t@),
            None => summary_of(issue@) is None,
        },
{
    match issue.get("fields") {
        Some(fields) => match fields.get("summary") {
            Some(v) => v.as_str(),
            None => None,
        },
        None => None,
    }
}

/// Extracts the summaries that a search response returns.
pub fn extract_jira_summaries(jira_json: &JsonValue) -> (summaries: Vec<String>)
    ensures
        texts(summaries@) == returned_summaries(jira_json@),
{
    let mut summaries: Vec<String> = Vec::new();
    assert(texts(summaries@) =~= Seq::empty());
    let issues = match jira_json.get("issues") {
        Some(v) => v.as_array(),
        None => None,
    };
    match issues {
        Some(issues) => {
            let ghost all = models(issues@);
            let mut i: usize = 0;
            assert(all.take(0) =~= Seq::empty());
            while i < issues.len()
                invariant
                    i <= issues.len(),
                    all == models(issues@),
                    texts(summaries@) == summaries_among(all.take(i as int)),
                decreases issues.len() - i,
            {
                let ghost before = texts(summaries@);
                proof {
                    assert(all.take(i + 1).drop_last() =~= all.take(i as int));
                    assert(all.take(i + 1).last() == issues[i as int]@);
                }
                match issue_summary(&issues[i]) {
                    Some(t) => {
                        summaries.push(t.to_owned());
                        assert(texts(summaries@) =~= before.push(t@));
                    },
                    None => {},
                }
                i += 1;
            }
            assert(all.take(i as int) =~= all);
        },
        None => {},
    }
    summaries
}

/// Compares the expected names with the summaries that the tracker returned:
/// one entry for each expected name, in their order, which says whether a
/// returned summary is exactly that text.
pub fn compare_summaries(expected: Vec<String>, actual: &Vec<String>) -> (entries: Vec<
    VerificationEntry,
>)
    ensures
        findings(entries@) == compared(texts(expected@), texts(actual@)),
{
    let mut entries: Vec<VerificationEntry> = Vec::new();
    let mut i: usize = 0;
    while i < expected.len()
        invariant
            i <= expected.len(),
            entries.len() == i,
            forall|k: int|
                0 <= k < i ==> (#[trigger] entries[k])@ == (Finding {
                    summary: expected[k]@,
                    exists: texts(actual@).contains(expected[k]@),
                }),
        decreases expected.len() - i,
    {
        let name = expected[i].as_str();
        let exists = contains_text(actual, name);
        entries.push(VerificationEntry { summary: name.to_owned(), exists });
        i += 1;
    }
    assert(findings(entries@) =~= compared(texts(expected@), texts(actual@)));
    entries
}

/// Verifies all tasks against the summaries that the tracker returned.
pub fn verify_tasks(tasks: &Vec<TaskInput>, actual: &Vec<String>) -> (entries: Vec<
    VerificationEntry,
>)
    ensures
        findings(entries@) == verification_report(tasks@, texts(actual@)),
{
    let mut entries: Vec<VerificationEntry> = Vec::new();
    let mut i: usize = 0;
    assert(tasks@.take(0) =~= Seq::empty());
    assert(findings(entries@) =~= Seq::empty());
    while i < tasks.len()
        invariant
            i <= tasks.len(),
            findings(entries@) == verification_report(tasks@.take(i as int), texts(actual@)),
        decreases tasks.len() - i,
    {
        let task = &tasks[i];
        let expected = generate_expected_summaries(task.subtask.as_str(), task.category.as_str());
        let mut found = compare_summaries(expected, actual);
        let ghost before = findings(entries@);
        let ghost added = findings(found@);
        proof {
            assert(tasks@.take(i + 1).drop_last() =~= tasks@.take(i as int));
            assert(tasks@.take(i + 1).last() == *task);
        }
        entries.append(&mut found);
        assert(findings(entries@) =~= before + added);
        i += 1;
    }
    assert(tasks@.take(i as int) =~= tasks@);
    entries
}

} // verus!
