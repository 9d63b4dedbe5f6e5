//! Reconciliation of the tracker's answer to a bulk-create request.

use vstd::prelude::*;
use vstd::string::StringExecFns;
use crate::json::{
    array_of, listed, member_models, models, nested, object_of, text_array, text_list, text_value,
    JsonModel, JsonValue,
};
use crate::payload::{is_translation, BulkEntry, JiraPayload, WorkItem};
use crate::text::{insert_key, lemma_ascending_unique, strictly_ascending, texts};

verus! {

/// One issue that the tracker confirmed as created.
#[derive(Debug, Clone, PartialEq, Eq)]
pub struct CreatedItem {
    pub id: String,
    pub key: String,
    pub link: String,
}

/// Whether a report stands for success or carries errors.
#[derive(Debug, Clone, Copy, PartialEq, Eq, Structural)]
pub enum OutcomeStatus {
    Succeeded,
    Failed,
}

/// The normalised report on one bulk-create request.
#[derive(Debug, Clone, PartialEq, Eq)]
pub struct BulkOutcome {
    pub created_items: Vec<CreatedItem>,
    pub error_messages: Vec<String>,
    pub status: OutcomeStatus,
}

impl BulkOutcome {
    /// A report stands for success exactly when something was created and
    /// there is no error message.
    pub open spec fn well_formed(self) -> bool {
        self.status is Succeeded <==> (self.created_items@.len() > 0 && self.error_messages@.len()
            == 0)
    }
}

/// What a created item says.
pub struct CreatedRecord {
    pub id: Seq<char>,
    pub key: Seq<char>,
    pub link: Seq<char>,
}

impl View for CreatedItem {
    type V = CreatedRecord;

    open spec fn view(&self) -> CreatedRecord {
        CreatedRecord { id: self.id@, key: self.key@, link: self.link@ }
    }
}

/// What a list of created items says.
pub open spec fn created_views(items: Seq<CreatedItem>) -> Seq<CreatedRecord> {
    items.map_values(|c: CreatedItem| c@)
}

/// The text of the member `name` of `entry`; empty where the member is
/// missing or is not a string.
pub open spec fn field_text(entry: JsonModel, name: Seq<char>) -> Seq<char> {
    match entry.member(name) {
        Some(v) => match v.text() {
            Some(t) => t,
            None => Seq::empty(),
        },
        None => Seq::empty(),
    }
}

/// The address under which a user finds the issue `key` on the tracker.
pub open spec fn browse_link(base_url: Seq<char>, key: Seq<char>) -> Seq<char> {
    base_url + "/browse/"@ + key
}

/// The created item that one entry of `issues` stands for.
pub open spec fn created_from(entry: JsonModel, base_url: Seq<char>) -> CreatedRecord {
    CreatedRecord {
        id: field_text(entry, "id"@),
        key: field_text(entry, "key"@),
        link: browse_link(base_url, field_text(entry, "key"@)),
    }
}

/// The created items that a response reports: one for each entry of its
/// `issues`, in their order; none where `issues` is missing or no array.
pub open spec fn created_records(response: JsonModel, base_url: Seq<char>) -> Seq<CreatedRecord> {
    match listed(response, "issues"@) {
        Some(issues) => issues.map_values(|e: JsonModel| created_from(e, base_url)),
        None => Seq::empty(),
    }
}

/// Reads the text of a member, with the empty text for one that is missing or
/// malformed.
fn text_field<'a>(entry: &'a JsonValue, name: &str) -> (text: &'a str)
    ensures
        text@ == field_text(entry@, name@),
{
    proof {
        reveal_strlit("");
    }
    match entry.get(name) {
        Some(v) => match v.as_str() {
            Some(t) => t,
            None => {
                assert(""@ =~= Seq::empty());
                ""
            },
        },
        None => {
            assert(""@ =~= Seq::empty());
            ""
        },
    }
}

/// Reads a member that is an array.
fn list_member<'a>(response: &'a JsonValue, name: &str) -> (list: Option<&'a Vec<JsonValue>>)
    ensures
        match list {
            Some(items) => listed(response@, name@) == Some(models(items@)),
            None => listed(response@, name@) is None,
        },
{
    match response.get(name) {
        Some(v) => v.as_array(),
        None => None,
    }
}

/// Builds the created item for one entry of `issues`.
fn make_created(entry: &JsonValue, base_url: &str) -> (item: CreatedItem)
    ensures
        item@ == created_from(entry@, base_url@),
{
    let id = text_field(entry, "id");
    let key = text_field(entry, "key");
    let mut link = String::from_str(base_url);
    link.append("/browse/");
    link.append(key);
    CreatedItem { id: String::from_str(id), key: String::from_str(key), link }
}

/// Collects the created items that a response reports.
fn collect_created(response: &JsonValue, base_url: &str) -> (created: Vec<CreatedItem>)
    ensures
        created_views(created@) == created_records(response@, base_url@),
{
    let mut created: Vec<CreatedItem> = Vec::new();
    match list_member(response, "issues") {
        Some(issues) => {
            let mut i: usize = 0;
            while i < issues.len()
                invariant
                    i <= issues.len(),
                    created.len() == i,
                    forall|k: int|
                        0 <= k < i ==> (#[trigger] created[k])@ == created_from(
                            issues[k]@,
                            base_url@,
                        ),
                decreases issues.len() - i,
            {
                created.push(make_created(&issues[i], base_url));
                i += 1;
            }
            assert(created_views(created@) =~= created_records(response@, base_url@));
        },
        None => {
            assert(created_views(created@) =~= created_records(response@, base_url@));
        },
    }
    created
}

/// The entries of `errors` in a response; none where it is missing or no
/// array.
pub open spec fn error_entries(response: JsonModel) -> Seq<JsonModel> {
    match listed(response, "errors"@) {
        Some(errors) => errors,
        None => Seq::empty(),
    }
}

/// Whether an error entry has the status 401.
pub open spec fn is_unauthorized(entry: JsonModel) -> bool {
    match entry.member("status"@) {
        Some(v) => v.signed() == Some(401int),
        None => false,
    }
}

/// Whether any of the error entries has the status 401.
pub open spec fn any_unauthorized(errors: Seq<JsonModel>) -> bool {
    exists|i: int| 0 <= i < errors.len() && is_unauthorized(#[trigger] errors[i])
}

/// The tracker's own words for a refused login: the first of the
/// `elementErrors.errorMessages` of the first error entry, where that is a
/// string.
pub open spec fn first_error_text(errors: Seq<JsonModel>) -> Option<Seq<char>> {
    if errors.len() == 0 {
        None
    } else {
        match nested(errors[0], "elementErrors"@, "errorMessages"@) {
            Some(v) => match v.elements() {
                Some(list) => if list.len() > 0 {
                    list[0].text()
                } else {
                    None
                },
                None => None,
            },
            None => None,
        }
    }
}

/// The message for a refused login: one where any entry has the status 401,
/// in the tracker's words where it gave any.
pub open spec fn unauthorized_messages(errors: Seq<JsonModel>) -> Seq<Seq<char>> {
    if any_unauthorized(errors) {
        match first_error_text(errors) {
            Some(t) => seq![t],
            None => seq!["Unauthorized"@],
        }
    } else {
        Seq::empty()
    }
}

/// Whether an error entry says that the parent of a sub-task was refused.
pub open spec fn has_parent_error(entry: JsonModel) -> bool {
    match nested(entry, "elementErrors"@, "errors"@) {
        Some(v) => v.member("parent"@) is Some,
        None => false,
    }
}

/// The position in the sent request that an error entry is about.
pub open spec fn failed_position(entry: JsonModel) -> Option<int> {
    match entry.member("failedElementNumber"@) {
        Some(v) => v.unsigned(),
        None => None,
    }
}

/// Whether an error entry reports a refused parent at a position of the sent
/// request at which the parent key is `key`.
pub open spec fn implicates(entry: JsonModel, entries: Seq<BulkEntry>, key: Seq<char>) -> bool {
    &&& has_parent_error(entry)
    &&& failed_position(entry) matches Some(p)
    &&& 0 <= p < entries.len()
    &&& entries[p].parent_key == key
}

/// Whether any of the error entries implicates the parent key `key`.
pub open spec fn is_implicated(errors: Seq<JsonModel>, entries: Seq<BulkEntry>, key: Seq<char>) -> bool {
    exists|i: int| 0 <= i < errors.len() && implicates(#[trigger] errors[i], entries, key)
}

/// Whether `keys` lists exactly the implicated parent keys, each once, in
/// ascending byte order.
pub open spec fn is_failure_listing(
    keys: Seq<Seq<char>>,
    errors: Seq<JsonModel>,
    entries: Seq<BulkEntry>,
) -> bool {
    &&& strictly_ascending(keys)
    &&& forall|k: Seq<char>| keys.contains(k) <==> is_implicated(errors, entries, k)
}

/// The message for a parent under which sub-tasks were not created.
pub open spec fn parent_message(key: Seq<char>) -> Seq<char> {
    "Subtasks for story "@ + key + " were not created"@
}

/// The error messages of a report: that for a refused login, then one for
/// each of `keys`.
pub open spec fn error_texts(errors: Seq<JsonModel>, keys: Seq<Seq<char>>) -> Seq<Seq<char>> {
    unauthorized_messages(errors) + keys.map_values(|k: Seq<char>| parent_message(k))
}

/// Reads the member `inner` of the member `outer` of an entry.
fn nested_member<'a>(entry: &'a JsonValue, outer: &str, inner: &str) -> (r: Option<&'a JsonValue>)
    ensures
        match r {
            Some(v) => nested(entry@, outer@, inner@) == Some(v@),
            None => nested(entry@, outer@, inner@) is None,
        },
{
    match entry.get(outer) {
        Some(v) => v.get(inner),
        None => None,
    }
}

/// Tells whether an error entry has the status 401.
fn entry_is_unauthorized(entry: &JsonValue) -> (r: bool)
    ensures
        r == is_unauthorized(entry@),
{
    match entry.get("status") {
        Some(v) => match v.as_i64() {
            Some(n) => n == 401,
            None => false,
        },
        None => false,
    }
}

/// Tells whether any of the error entries has the status 401.
fn scan_unauthorized(errors: &Vec<JsonValue>) -> (r: bool)
    ensures
        r == any_unauthorized(models(errors@)),
{
    let mut i: usize = 0;
    while i < errors.len()
        invariant
            i <= errors.len(),
            forall|k: int| 0 <= k < i ==> !is_unauthorized((#[trigger] errors[k])@),
        decreases errors.len() - i,
    {
        if entry_is_unauthorized(&errors[i]) {
            assert(is_unauthorized(models(errors@)[i as int]));
            return true;
        }
        i += 1;
    }
    assert forall|k: int| 0 <= k < errors.len() implies !is_unauthorized(
        #[trigger] models(errors@)[k],
    ) by {
        assert(models(errors@)[k] == errors[k]@);
    }
    false
}

/// Reads the tracker's own words for a refused login.
fn first_message(errors: &Vec<JsonValue>) -> (r: Option<&str>)
    ensures
        match r {
            Some(t) => first_error_text(models(errors@)) == Some(t@),
            None => first_error_text(models(errors@)) is None,
        },
{
    if errors.len() == 0 {
        return None;
    }
    match nested_member(&errors[0], "elementErrors", "errorMessages") {
        Some(v) => match v.as_array() {
            Some(list) => if list.len() > 0 {
                list[0].as_str()
            } else {
                None
            },
            None => None,
        },
        None => None,
    }
}

/// Tells whether an error entry reports a refused parent.
fn entry_has_parent_error(entry: &JsonValue) -> (r: bool)
    ensures
        r == has_parent_error(entry@),
{
    match nested_member(entry, "elementErrors", "errors") {
        Some(v) => v.get("parent").is_some(),
        None => false,
    }
}

/// Reads the position that an error entry is about.
fn entry_failed_position(entry: &JsonValue) -> (r: Option<u64>)
    ensures
        match r {
            Some(p) => failed_position(entry@) == Some(p as int),
            None => failed_position(entry@) is None,
        },
{
    match entry.get("failedElementNumber") {
        Some(v) => v.as_u64(),
        None => None,
    }
}

/// Collects the parent keys under which the tracker refused a sub-task: the
/// keys that the sent request holds at the positions of the parent errors.
fn collect_failed_parents(errors: &Vec<JsonValue>, payload: &JiraPayload) -> (keys: Vec<String>)
    ensures
        is_failure_listing(texts(keys@), models(errors@), payload@),
{
    let mut keys: Vec<String> = Vec::new();
    let ghost entries = payload@;
    let mut i: usize = 0;
    assert(texts(keys@) =~= Seq::empty());
    while i < errors.len()
        invariant
            i <= errors.len(),
            entries == payload@,
            strictly_ascending(texts(keys@)),
            forall|k: Seq<char>|
                texts(keys@).contains(k) <==> is_implicated(models(errors@).take(i as int), entries, k),
        decreases errors.len() - i,
    {
        let ghost listed_before = texts(keys@);
        let ghost seen = models(errors@).take(i as int);
        let ghost seen_next = models(errors@).take(i + 1);
        let entry = &errors[i];
        let mut added: Option<usize> = None;
        if entry_has_parent_error(entry) {
            match entry_failed_position(entry) {
                Some(p) => {
                    if p < payload.issue_updates.len() as u64 {
                        added = Some(p as usize);
                    }
                },
                None => {},
            }
        }
        match added {
            Some(p) => {
                let update = &payload.issue_updates[p];
                insert_key(&mut keys, update.fields.parent.key.as_str());
                proof {
                    let key = entries[p as int].parent_key;
                    assert(entries[p as int] == payload.issue_updates[p as int]@);
                    assert(implicates(entry@, entries, key));
                    assert forall|k: Seq<char>| texts(keys@).contains(k) <==> is_implicated(
                        seen_next,
                        entries,
                        k,
                    ) by {
                        if is_implicated(seen_next, entries, k) {
                            let w = choose|w: int|
                                0 <= w < seen_next.len() && implicates(
                                    #[trigger] seen_next[w],
                                    entries,
                                    k,
                                );
                            if w < i {
                                assert(seen[w] == seen_next[w]);
                                assert(is_implicated(seen, entries, k));
                            }
                        }
                        if listed_before.contains(k) {
                            let w = choose|w: int|
                                0 <= w < seen.len() && implicates(#[trigger] seen[w], entries, k);
                            assert(seen_next[w] == seen[w]);
                        }
                        if k == key {
                            assert(seen_next[i as int] == entry@);
                        }
                    }
                }
            },
            None => {
                proof {
                    assert forall|k: Seq<char>| texts(keys@).contains(k) <==> is_implicated(
                        seen_next,
                        entries,
                        k,
                    ) by {
                        if is_implicated(seen_next, entries, k) {
                            let w = choose|w: int|
                                0 <= w < seen_next.len() && implicates(
                                    #[trigger] seen_next[w],
                                    entries,
                                    k,
                                );
                            assert(w < i);
                            assert(seen[w] == seen_next[w]);
                            assert(is_implicated(seen, entries, k));
                        }
                        if listed_before.contains(k) {
                            let w = choose|w: int|
                                0 <= w < seen.len() && implicates(#[trigger] seen[w], entries, k);
                            assert(seen_next[w] == seen[w]);
                        }
                    }
                }
            },
        }
        i += 1;
    }
    assert(models(errors@).take(i as int) =~= models(errors@));
    keys
}

/// Whether `messages` are the error messages owed for a response to the
/// request `entries`.
pub open spec fn are_error_messages(
    messages: Seq<Seq<char>>,
    response: JsonModel,
    entries: Seq<BulkEntry>,
) -> bool {
    exists|keys: Seq<Seq<char>>|
        #![trigger error_texts(error_entries(response), keys)]
        is_failure_listing(keys, error_entries(response), entries) && messages == error_texts(
            error_entries(response),
            keys,
        )
}

/// Whether `outcome` is the report owed for a response to the request
/// `entries`: the created items that the response lists, with links under
/// `base_url`; the message for a refused login and one message for each
/// parent key that a parent error implicates; and the status that follows
/// from the two.
pub open spec fn is_bulk_report(
    outcome: BulkOutcome,
    response: JsonModel,
    base_url: Seq<char>,
    entries: Seq<BulkEntry>,
) -> bool {
    &&& outcome.well_formed()
    &&& created_views(outcome.created_items@) == created_records(response, base_url)
    &&& are_error_messages(texts(outcome.error_messages@), response, entries)
}

/// A parent error at a position of the sent request is reported under the
/// parent key that the translation put at that position: the key of the item
/// that `order` names there.
pub proof fn lemma_failure_names_sent_parent(
    outcome: BulkOutcome,
    response: JsonModel,
    base_url: Seq<char>,
    entries: Seq<BulkEntry>,
    order: Seq<int>,
    items: Seq<WorkItem>,
    project_key: Seq<char>,
    issue_type_id: Seq<char>,
    error: int,
    position: int,
)
    requires
        is_translation(entries, order, items, project_key, issue_type_id),
        is_bulk_report(outcome, response, base_url, entries),
        0 <= error < error_entries(response).len(),
        has_parent_error(error_entries(response)[error]),
        failed_position(error_entries(response)[error]) == Some(position),
        0 <= position < entries.len(),
    ensures
        entries[position].parent_key == items[order[position]].parent_key,
        texts(outcome.error_messages@).contains(parent_message(entries[position].parent_key)),
        outcome.status is Failed,
{
    let errors = error_entries(response);
    let messages = texts(outcome.error_messages@);
    let key = entries[position].parent_key;
    let keys = choose|keys: Seq<Seq<char>>|
        #![trigger error_texts(error_entries(response), keys)]
        is_failure_listing(keys, errors, entries) && messages == error_texts(errors, keys);
    assert(implicates(errors[error], entries, key));
    assert(is_implicated(errors, entries, key));
    assert(keys.contains(key));
    let k = choose|k: int| 0 <= k < keys.len() && keys[k] == key;
    let told = keys.map_values(|k: Seq<char>| parent_message(k));
    assert(told[k] == parent_message(key));
    assert(messages[unauthorized_messages(errors).len() + k] == parent_message(key));
}

/// A response to a request has one report: two reports that both meet the
/// contract of the reconciler say the same.
pub proof fn lemma_bulk_report_unique(
    first: BulkOutcome,
    second: BulkOutcome,
    response: JsonModel,
    base_url: Seq<char>,
    entries: Seq<BulkEntry>,
)
    requires
        is_bulk_report(first, response, base_url, entries),
        is_bulk_report(second, response, base_url, entries),
    ensures
        created_views(first.created_items@) == created_views(second.created_items@),
        texts(first.error_messages@) == texts(second.error_messages@),
        first.status == second.status,
{
    let errors = error_entries(response);
    let a = choose|keys: Seq<Seq<char>>|
        #![trigger error_texts(error_entries(response), keys)]
        is_failure_listing(keys, errors, entries) && texts(first.error_messages@) == error_texts(
            errors,
            keys,
        );
    let b = choose|keys: Seq<Seq<char>>|
        #![trigger error_texts(error_entries(response), keys)]
        is_failure_listing(keys, errors, entries) && texts(second.error_messages@) == error_texts(
            errors,
            keys,
        );
    lemma_ascending_unique(a, b);
    assert(created_views(first.created_items@).len() == first.created_items@.len());
    assert(created_views(second.created_items@).len() == second.created_items@.len());
    assert(texts(first.error_messages@).len() == first.error_messages@.len());
    assert(texts(second.error_messages@).len() == second.error_messages@.len());
}

/// Builds the message for one parent key.
fn make_parent_message(key: &str) -> (message: String)
    ensures
        message@ == parent_message(key@),
{
    let mut message = String::from_str("Subtasks for story ");
    message.append(key);
    message.append(" were not created");
    message
}

/// Collects the error messages owed for a response.
fn collect_messages(response: &JsonValue, payload: &JiraPayload) -> (messages: Vec<String>)
    ensures
        are_error_messages(texts(messages@), response@, payload@),
{
    let mut messages: Vec<String> = Vec::new();
    assert(texts(messages@) =~= Seq::empty());
    match list_member(response, "errors") {
        Some(errors) => {
            let ghost all = models(errors@);
            if scan_unauthorized(errors) {
                match first_message(errors) {
                    Some(t) => messages.push(String::from_str(t)),
                    None => messages.push(String::from_str("Unauthorized")),
                }
            }
            assert(texts(messages@) =~= unauthorized_messages(all));
            let keys = collect_failed_parents(errors, payload);
            let ghost listing = texts(keys@);
            let mut i: usize = 0;
            while i < keys.len()
                invariant
                    i <= keys.len(),
                    listing == texts(keys@),
                    texts(messages@) == unauthorized_messages(all) + listing.take(
                        i as int,
                    ).map_values(|k: Seq<char>| parent_message(k)),
                decreases keys.len() - i,
            {
                let ghost before = texts(messages@);
                messages.push(make_parent_message(keys[i].as_str()));
                proof {
                    let key = keys[i as int]@;
                    let told = listing.take(i as int).map_values(|k: Seq<char>| parent_message(k));
                    assert(listing[i as int] == key);
                    assert(listing.take(i + 1) =~= listing.take(i as int).push(key));
                    assert(listing.take(i + 1).map_values(|k: Seq<char>| parent_message(k))
                        =~= told.push(parent_message(key)));
                    assert(texts(messages@) =~= before.push(parent_message(key)));
                    assert(texts(messages@) =~= unauthorized_messages(all) + listing.take(
                        i + 1,
                    ).map_values(|k: Seq<char>| parent_message(k)));
                }
                i += 1;
            }
            proof {
                assert(listing.take(i as int) =~= listing);
                assert(texts(messages@) == error_texts(error_entries(response@), listing));
            }
        },
        None => {
            proof {
                let none = Seq::<Seq<char>>::empty();
                assert(is_failure_listing(none, error_entries(response@), payload@));
                assert(texts(messages@) =~= error_texts(error_entries(response@), none));
            }
        },
    }
    messages
}

/// Tells whether a response reports a refused login.
pub fn reports_refused_login(response: &JsonValue) -> (r: bool)
    ensures
        r == any_unauthorized(error_entries(response@)),
{
    match list_member(response, "errors") {
        Some(errors) => scan_unauthorized(errors),
        None => false,
    }
}

/// Reconciles the tracker's answer to a bulk-create request into one report.
///
/// `payload` is the request as it was sent: the positions that the tracker
/// reports are read against it. The report holds every created item that the
/// response lists, also where it carries errors.
pub fn reconcile_bulk_response(base_url: &str, response: &JsonValue, payload: &JiraPayload) -> (outcome:
    BulkOutcome)
    ensures
        is_bulk_report(outcome, response@, base_url@, payload@),
{
    let created_items = collect_created(response, base_url);
    let error_messages = collect_messages(response, payload);
    let status = if created_items.len() > 0 && error_messages.len() == 0 {
        OutcomeStatus::Succeeded
    } else {
        OutcomeStatus::Failed
    };
    BulkOutcome { created_items, error_messages, status }
}

/// A created item as JSON: its `id`, `key` and `link`.
pub open spec fn created_json(item: CreatedRecord) -> JsonModel {
    JsonModel::Object(
        seq![
            ("id"@, JsonModel::Str(item.id)),
            ("key"@, JsonModel::Str(item.key)),
            ("link"@, JsonModel::Str(item.link)),
        ],
    )
}

/// The word for a status.
pub open spec fn status_word(status: OutcomeStatus) -> Seq<char> {
    match status {
        OutcomeStatus::Succeeded => "ok"@,
        OutcomeStatus::Failed => "error"@,
    }
}

/// A report as JSON: `createdItems`, `errorMessages` and `status`.
/// `errorMessages` is null in a report of full success, `createdItems` in one
/// of errors with nothing created.
pub open spec fn bulk_json(
    created: Seq<CreatedRecord>,
    messages: Seq<Seq<char>>,
    status: OutcomeStatus,
) -> JsonModel {
    JsonModel::Object(
        seq![
            (
                "createdItems"@,
                if created.len() == 0 && messages.len() > 0 {
                    JsonModel::Null
                } else {
                    JsonModel::Array(created.map_values(|c: CreatedRecord| created_json(c)))
                },
            ),
            (
                "errorMessages"@,
                if created.len() > 0 && messages.len() == 0 {
                    JsonModel::Null
                } else {
                    text_array(messages)
                },
            ),
            ("status"@, JsonModel::Str(status_word(status))),
        ],
    )
}

impl CreatedItem {
    /// Renders the item as JSON.
    pub fn to_json(&self) -> (value: JsonValue)
        ensures
            value@ == created_json(self@),
    {
        let mut members: Vec<(String, JsonValue)> = Vec::new();
        members.push(("id".to_owned(), text_value(self.id.as_str())));
        members.push(("key".to_owned(), text_value(self.key.as_str())));
        members.push(("link".to_owned(), text_value(self.link.as_str())));
        assert(member_models(members@) =~= created_json(self@)->Object_0);
        object_of(members)
    }
}

impl BulkOutcome {
    /// Renders the report as JSON.
    pub fn to_json(&self) -> (value: JsonValue)
        ensures
            value@ == bulk_json(
                created_views(self.created_items@),
                texts(self.error_messages@),
                self.status,
            ),
    {
        let created = if self.created_items.len() == 0 && self.error_messages.len() > 0 {
            JsonValue::Null
        } else {
            let mut items: Vec<JsonValue> = Vec::new();
            let mut i: usize = 0;
            while i < self.created_items.len()
                invariant
                    i <= self.created_items.len(),
                    items.len() == i,
                    forall|k: int|
                        0 <= k < i ==> (#[trigger] items[k])@ == created_json(
                            self.created_items[k]@,
                        ),
                decreases self.created_items.len() - i,
            {
                items.push(self.created_items[i].to_json());
                i += 1;
            }
            assert(models(items@) =~= created_views(self.created_items@).map_values(
                |c: CreatedRecord| created_json(c),
            ));
            array_of(items)
        };
        let messages = if self.created_items.len() > 0 && self.error_messages.len() == 0 {
            JsonValue::Null
        } else {
            text_list(&self.error_messages)
        };
        let word = match self.status {
            OutcomeStatus::Succeeded => "ok",
            OutcomeStatus::Failed => "error",
        };
        let mut members: Vec<(String, JsonValue)> = Vec::new();
        members.push(("createdItems".to_owned(), created));
        members.push(("errorMessages".to_owned(), messages));
        members.push(("status".to_owned(), text_value(word)));
        assert(member_models(members@) =~= bulk_json(
            created_views(self.created_items@),
            texts(self.error_messages@),
            self.status,
        )->Object_0);
        object_of(members)
    }
}

} // verus!
