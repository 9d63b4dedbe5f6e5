//! The decisions around the three calls to the tracker: what to ask for, and
//! what to make of each way a call can end.

use vstd::prelude::*;
use vstd::string::StringExecFns;
use crate::bulk::{
    any_unauthorized, error_entries, is_bulk_report, reconcile_bulk_response,
    reports_refused_login, BulkOutcome, OutcomeStatus,
};
use crate::error::{AppError, ErrorBody, ErrorKind};
use crate::json::{JsonModel, JsonValue};
use crate::payload::{BulkEntry, JiraPayload};
use crate::story::{call_views, failed_among, partition_calls, updated_among, StoryUpdateOutcome};
use crate::text::texts;
use crate::verification::{
    extract_jira_summaries, findings, returned_summaries, search_address, search_url,
    verification_report, verify_tasks, TaskInput, VerificationEntry,
};

verus! {

/// How a call to the tracker ended.
#[derive(Debug, PartialEq, Eq)]
pub enum TrackerReply {
    /// The call did not complete; the words say why.
    Unreachable(String),
    /// The tracker refused the call as a whole; the text is its raw answer.
    Refused(String),
    /// The tracker answered, and the answer could not be read; the words say
    /// why.
    Unreadable(String),
    /// The tracker's answer.
    Answer(JsonValue),
}

/// The address of the bulk-create call.
pub open spec fn bulk_address(base_url: Seq<char>) -> Seq<char> {
    base_url + "/rest/api/2/issue/bulk"@
}

/// Builds the address of the bulk-create call.
pub fn bulk_create_url(base_url: &str) -> (url: String)
    ensures
        url@ == bulk_address(base_url@),
{
    let mut url = String::from_str(base_url);
    url.append("/rest/api/2/issue/bulk");
    url
}

/// The kind of error that a bulk report with errors is: a refused login
/// where the response reports one, else a partial failure where something
/// was created, else a failure.
pub open spec fn bulk_error_kind(response: JsonModel, created: nat) -> ErrorKind {
    if any_unauthorized(error_entries(response)) {
        ErrorKind::Authentication
    } else if created > 0 {
        ErrorKind::PartialFailure
    } else {
        ErrorKind::Failure
    }
}

/// Whether `result` is what a bulk-create call that ended in `reply` comes
/// to: the report, where the tracker answered and the report is one of
/// success; an error that carries the report, where it is not; and a
/// transport or parse error in plain words, where there is no answer.
pub open spec fn is_bulk_conclusion(
    result: Result<BulkOutcome, AppError>,
    base_url: Seq<char>,
    entries: Seq<BulkEntry>,
    reply: TrackerReply,
) -> bool {
    match reply {
        TrackerReply::Unreachable(words) => result matches Err(e) && e.says(
            ErrorKind::Transport,
            words@,
        ),
        TrackerReply::Refused(text) => result matches Err(e) && e.says(
            ErrorKind::Transport,
            text@,
        ),
        TrackerReply::Unreadable(words) => result matches Err(e) && e.says(
            ErrorKind::Parse,
            words@,
        ),
        TrackerReply::Answer(response) => match result {
            Ok(outcome) => {
                &&& is_bulk_report(outcome, response@, base_url, entries)
                &&& outcome.status is Succeeded
            },
            Err(e) => {
                &&& e.body matches ErrorBody::Bulk(outcome)
                &&& is_bulk_report(outcome, response@, base_url, entries)
                &&& outcome.status is Failed
                &&& e.kind == bulk_error_kind(response@, outcome.created_items@.len())
            },
        },
    }
}

/// Concludes a bulk-create call: `payload` is the request that was sent,
/// `reply` how the call ended.
pub fn conclude_bulk_create(base_url: &str, payload: &JiraPayload, reply: &TrackerReply) -> (result:
    Result<BulkOutcome, AppError>)
    ensures
        is_bulk_conclusion(result, base_url@, payload@, *reply),
{
    match reply {
        TrackerReply::Unreachable(words) => Err(
            AppError::with_message(ErrorKind::Transport, words.as_str()),
        ),
        TrackerReply::Refused(text) => Err(
            AppError::with_message(ErrorKind::Transport, text.as_str()),
        ),
        TrackerReply::Unreadable(words) => Err(
            AppError::with_message(ErrorKind::Parse, words.as_str()),
        ),
        TrackerReply::Answer(response) => {
            let outcome = reconcile_bulk_response(base_url, response, payload);
            match outcome.status {
                OutcomeStatus::Succeeded => Ok(outcome),
                OutcomeStatus::Failed => {
                    let kind = if reports_refused_login(response) {
                        ErrorKind::Authentication
                    } else if outcome.created_items.len() > 0 {
                        ErrorKind::PartialFailure
                    } else {
                        ErrorKind::Failure
                    };
                    Err(AppError { kind, body: ErrorBody::Bulk(outcome) })
                },
            }
        },
    }
}

/// Plans the one search of a verification: its address, or the refusal of an
/// empty list of tasks, for which no call is made.
pub fn plan_search(base_url: &str, tasks: &Vec<TaskInput>) -> (result: Result<String, AppError>)
    ensures
        match result {
            Ok(url) => tasks@.len() > 0 && url@ == search_address(base_url@, tasks@),
            Err(e) => tasks@.len() == 0 && e.says(ErrorKind::Validation, "No tasks provided."@),
        },
{
    if tasks.len() == 0 {
        Err(AppError::with_message(ErrorKind::Validation, "No tasks provided."))
    } else {
        Ok(search_url(base_url, tasks))
    }
}

/// Whether `result` is what a search that ended in `reply` comes to: the
/// findings for all tasks against the summaries of the answer, or a
/// transport or parse error in plain words.
pub open spec fn is_search_conclusion(
    result: Result<Vec<VerificationEntry>, AppError>,
    tasks: Seq<TaskInput>,
    reply: TrackerReply,
) -> bool {
    match reply {
        TrackerReply::Unreachable(words) => result matches Err(e) && e.says(
            ErrorKind::Transport,
            words@,
        ),
        TrackerReply::Refused(text) => result matches Err(e) && e.says(
            ErrorKind::Transport,
            text@,
        ),
        TrackerReply::Unreadable(words) => result matches Err(e) && e.says(
            ErrorKind::Parse,
            words@,
        ),
        TrackerReply::Answer(response) => result matches Ok(entries) && findings(entries@)
            == verification_report(tasks, returned_summaries(response@)),
    }
}

/// Concludes the search of a verification: `reply` is how the call ended.
pub fn conclude_search(tasks: &Vec<TaskInput>, reply: &TrackerReply) -> (result: Result<
    Vec<VerificationEntry>,
    AppError,
>)
    ensures
        is_search_conclusion(result, tasks@, *reply),
{
    match reply {
        TrackerReply::Unreachable(words) => Err(
            AppError::with_message(ErrorKind::Transport, words.as_str()),
        ),
        TrackerReply::Refused(text) => Err(
            AppError::with_message(ErrorKind::Transport, text.as_str()),
        ),
        TrackerReply::Unreadable(words) => Err(
            AppError::with_message(ErrorKind::Parse, words.as_str()),
        ),
        TrackerReply::Answer(response) => {
            let actual = extract_jira_summaries(response);
            Ok(verify_tasks(tasks, &actual))
        },
    }
}

/// Concludes a batch of story-point updates: the report where no call
/// failed, else an error that carries the report.
pub fn conclude_story_update(calls: Vec<Result<String, String>>) -> (result: Result<
    StoryUpdateOutcome,
    AppError,
>)
    ensures
        match result {
            Ok(outcome) => {
                &&& texts(outcome.updated@) == updated_among(call_views(calls@))
                &&& texts(outcome.failed@) == failed_among(call_views(calls@))
                &&& outcome.failed@.len() == 0
            },
            Err(e) => {
                &&& e.body matches ErrorBody::Stories(outcome)
                &&& texts(outcome.updated@) == updated_among(call_views(calls@))
                &&& texts(outcome.failed@) == failed_among(call_views(calls@))
                &&& outcome.failed@.len() > 0
                &&& e.kind == if outcome.updated@.len() > 0 {
                    ErrorKind::PartialFailure
                } else {
                    ErrorKind::Failure
                }
            },
        },
{
    let outcome = partition_calls(calls);
    if outcome.failed.len() == 0 {
        Ok(outcome)
    } else {
        let kind = if outcome.updated.len() > 0 {
            ErrorKind::PartialFailure
        } else {
            ErrorKind::Failure
        };
        Err(AppError { kind, body: ErrorBody::Stories(outcome) })
    }
}

} // verus!
