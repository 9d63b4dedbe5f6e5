//! The one error type of the service, and the body it is answered with.

use vstd::prelude::*;
use crate::bulk::{bulk_json, created_views, BulkOutcome};
use crate::json::{member_models, object_of, text_value, JsonModel, JsonValue};
use crate::story::{story_json, StoryUpdateOutcome};
use crate::text::texts;

verus! {

/// What went wrong.
#[derive(Debug, Clone, Copy, PartialEq, Eq, Structural)]
pub enum ErrorKind {
    /// The call to the tracker did not complete, or was refused as a whole.
    Transport,
    /// The tracker reported a refused login inside its answer.
    Authentication,
    /// Nothing of what was asked for was done.
    Failure,
    /// Some of what was asked for was done, and some was not.
    PartialFailure,
    /// The request was rejected before any call was made.
    Validation,
    /// The tracker's answer could not be read.
    Parse,
}

/// What an error carries to the caller: plain words, or a report.
#[derive(Debug, Clone, PartialEq, Eq)]
pub enum ErrorBody {
    Message(String),
    Bulk(BulkOutcome),
    Stories(StoryUpdateOutcome),
}

/// An error of the service.
#[derive(Debug, Clone, PartialEq, Eq)]
pub struct AppError {
    pub kind: ErrorKind,
    pub body: ErrorBody,
}

/// The body for an error in plain words.
pub open spec fn message_json(message: Seq<char>) -> JsonModel {
    JsonModel::Object(
        seq![("status"@, JsonModel::Str("error"@)), ("message"@, JsonModel::Str(message))],
    )
}

impl AppError {
    /// Whether this is the error of kind `kind` with the words `message`.
    pub open spec fn says(self, kind: ErrorKind, message: Seq<char>) -> bool {
        &&& self.kind == kind
        &&& self.body matches ErrorBody::Message(m)
        &&& m@ == message
    }

    /// The body that answers the caller: the report where the error carries
    /// one, else the status `error` and the message.
    pub open spec fn body_model(self) -> JsonModel {
        match self.body {
            ErrorBody::Message(m) => message_json(m@),
            ErrorBody::Bulk(outcome) => bulk_json(
                created_views(outcome.created_items@),
                texts(outcome.error_messages@),
                outcome.status,
            ),
            ErrorBody::Stories(outcome) => story_json(
                texts(outcome.updated@),
                texts(outcome.failed@),
            ),
        }
    }

    /// Makes an error in plain words.
    pub fn with_message(kind: ErrorKind, message: &str) -> (error: AppError)
        ensures
            error.says(kind, message@),
    {
        AppError { kind, body: ErrorBody::Message(message.to_owned()) }
    }

    /// Renders the body that answers the caller.
    pub fn body_json(&self) -> (value: JsonValue)
        ensures
            value@ == self.body_model(),
    {
        match &self.body {
            ErrorBody::Message(m) => {
                let mut members: Vec<(String, JsonValue)> = Vec::new();
                members.push(("status".to_owned(), text_value("error")));
                members.push(("message".to_owned(), text_value(m.as_str())));
                assert(member_models(members@) =~= message_json(m@)->Object_0);
                object_of(members)
            },
            ErrorBody::Bulk(outcome) => outcome.to_json(),
            ErrorBody::Stories(outcome) => outcome.to_json(),
        }
    }
}

} // verus!
