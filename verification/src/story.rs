//! Story-point updates: the request for one story, and the report on a batch
//! of update calls.

use vstd::prelude::*;
use vstd::string::StringExecFns;
use crate::json::{member_models, object_of, text_array, text_list, text_value, JsonModel, JsonValue};
use crate::text::texts;

verus! {

/// The new story points of one story.
#[derive(Debug, Clone, PartialEq, Eq)]
pub struct UpdateStoryPoint {
    pub story_name: String,
    pub story_points: i32,
}

/// The stories of a batch, parted by how their update calls ended.
#[derive(Debug, Clone, PartialEq, Eq)]
pub struct StoryUpdateOutcome {
    pub updated: Vec<String>,
    pub failed: Vec<String>,
}

/// How a batch of update calls ended as a whole.
#[derive(Debug, Clone, Copy, PartialEq, Eq, Structural)]
pub enum BatchResult {
    /// No call failed.
    Success,
    /// Some calls succeeded and some failed.
    PartialSuccess,
    /// Calls failed and none succeeded.
    Error,
}

/// How one update call ended, as texts: the story it was for.
pub open spec fn call_views(calls: Seq<Result<String, String>>) -> Seq<Result<Seq<char>, Seq<char>>> {
    calls.map_values(
        |c: Result<String, String>|
            match c {
                Ok(name) => Ok(name@),
                Err(name) => Err(name@),
            },
    )
}

/// The stories whose calls succeeded, in the order of the calls.
pub open spec fn updated_among(calls: Seq<Result<Seq<char>, Seq<char>>>) -> Seq<Seq<char>>
    decreases calls.len(),
{
    if calls.len() == 0 {
        Seq::empty()
    } else {
        match calls.last() {
            Ok(name) => updated_among(calls.drop_last()).push(name),
            Err(_) => updated_among(calls.drop_last()),
        }
    }
}

/// The stories whose calls failed, in the order of the calls.
pub open spec fn failed_among(calls: Seq<Result<Seq<char>, Seq<char>>>) -> Seq<Seq<char>>
    decreases calls.len(),
{
    if calls.len() == 0 {
        Seq::empty()
    } else {
        match calls.last() {
            Ok(_) => failed_among(calls.drop_last()),
            Err(name) => failed_among(calls.drop_last()).push(name),
        }
    }
}

/// The calls of a batch for the stories `names` of which every one
/// succeeded.
pub open spec fn all_succeeded(names: Seq<Seq<char>>) -> Seq<Result<Seq<char>, Seq<char>>> {
    names.map_values(|name: Seq<char>| Ok::<Seq<char>, Seq<char>>(name))
}

/// Where every call succeeds, every story of the batch is among the updated
/// ones, in the order of the batch, and none among the failed ones, however
/// often the batch is sent.
pub proof fn lemma_all_succeeded(names: Seq<Seq<char>>)
    ensures
        updated_among(all_succeeded(names)) == names,
        failed_among(all_succeeded(names)).len() == 0,
    decreases names.len(),
{
    if names.len() > 0 {
        lemma_all_succeeded(names.drop_last());
        assert(all_succeeded(names).drop_last() =~= all_succeeded(names.drop_last()));
        assert(updated_among(all_succeeded(names)) =~= names);
    } else {
        assert(updated_among(all_succeeded(names)) =~= names);
    }
}

/// Every call of a batch puts its story among the updated ones or among the
/// failed ones, and the two lists together are as long as the batch.
pub proof fn lemma_calls_parted(calls: Seq<Result<Seq<char>, Seq<char>>>)
    ensures
        updated_among(calls).len() + failed_among(calls).len() == calls.len(),
        forall|i: int|
            0 <= i < calls.len() ==> match #[trigger] calls[i] {
                Ok(name) => updated_among(calls).contains(name),
                Err(name) => failed_among(calls).contains(name),
            },
        forall|name: Seq<char>|
            updated_among(calls).contains(name) ==> calls.contains(
                Ok::<Seq<char>, Seq<char>>(name),
            ),
        forall|name: Seq<char>|
            failed_among(calls).contains(name) ==> calls.contains(
                Err::<Seq<char>, Seq<char>>(name),
            ),
    decreases calls.len(),
{
    if calls.len() > 0 {
        let rest = calls.drop_last();
        lemma_calls_parted(rest);
        let updated = updated_among(calls);
        let failed = failed_among(calls);
        assert forall|i: int| 0 <= i < calls.len() implies match #[trigger] calls[i] {
            Ok(name) => updated.contains(name),
            Err(name) => failed.contains(name),
        } by {
            if i < calls.len() - 1 {
                assert(rest[i] == calls[i]);
                match calls[i] {
                    Ok(name) => {
                        let k = choose|k: int|
                            0 <= k < updated_among(rest).len() && updated_among(rest)[k] == name;
                        assert(updated[k] == name);
                    },
                    Err(name) => {
                        let k = choose|k: int|
                            0 <= k < failed_among(rest).len() && failed_among(rest)[k] == name;
                        assert(failed[k] == name);
                    },
                }
            } else {
                match calls[i] {
                    Ok(name) => {
                        assert(updated[updated.len() - 1] == name);
                    },
                    Err(name) => {
                        assert(failed[failed.len() - 1] == name);
                    },
                }
            }
        }
        assert forall|name: Seq<char>| updated.contains(name) implies calls.contains(
            Ok::<Seq<char>, Seq<char>>(name),
        ) by {
            let k = choose|k: int| 0 <= k < updated.len() && updated[k] == name;
            if k < updated_among(rest).len() {
                assert(updated_among(rest)[k] == name);
                assert(updated_among(rest).contains(name));
                let w = choose|w: int|
                    0 <= w < rest.len() && rest[w] == Ok::<Seq<char>, Seq<char>>(name);
                assert(calls[w] == rest[w]);
            } else {
                assert(calls[calls.len() - 1] == Ok::<Seq<char>, Seq<char>>(name));
            }
        }
        assert forall|name: Seq<char>| failed.contains(name) implies calls.contains(
            Err::<Seq<char>, Seq<char>>(name),
        ) by {
            let k = choose|k: int| 0 <= k < failed.len() && failed[k] == name;
            if k < failed_among(rest).len() {
                assert(failed_among(rest)[k] == name);
                assert(failed_among(rest).contains(name));
                let w = choose|w: int|
                    0 <= w < rest.len() && rest[w] == Err::<Seq<char>, Seq<char>>(name);
                assert(calls[w] == rest[w]);
            } else {
                assert(calls[calls.len() - 1] == Err::<Seq<char>, Seq<char>>(name));
            }
        }
    }
}

/// The story that a call was for.
pub open spec fn call_name(call: Result<Seq<char>, Seq<char>>) -> Seq<char> {
    match call {
        Ok(name) => name,
        Err(name) => name,
    }
}

/// Where no two calls of a batch are for the same story, no story is both
/// among the updated and among the failed ones.
pub proof fn lemma_distinct_stories_parted(calls: Seq<Result<Seq<char>, Seq<char>>>)
    requires
        forall|i: int, j: int|
            0 <= i < j < calls.len() ==> call_name(#[trigger] calls[i]) != call_name(
                #[trigger] calls[j],
            ),
    ensures
        forall|name: Seq<char>|
            !(updated_among(calls).contains(name) && failed_among(calls).contains(name)),
{
    lemma_calls_parted(calls);
    assert forall|name: Seq<char>|
        !(updated_among(calls).contains(name) && failed_among(calls).contains(name)) by {
        if updated_among(calls).contains(name) && failed_among(calls).contains(name) {
            let good = Ok::<Seq<char>, Seq<char>>(name);
            let bad = Err::<Seq<char>, Seq<char>>(name);
            assert(calls.contains(good));
            assert(calls.contains(bad));
            let i = choose|i: int| 0 <= i < calls.len() && calls[i] == good;
            let j = choose|j: int| 0 <= j < calls.len() && calls[j] == bad;
            if i < j {
                assert(call_name(calls[i]) != call_name(calls[j]));
            } else {
                assert(call_name(calls[j]) != call_name(calls[i]));
            }
        }
    }
}

/// The address of the update call for one story.
pub open spec fn story_address(base_url: Seq<char>, story_name: Seq<char>) -> Seq<char> {
    base_url + "/rest/api/3/issue/"@ + story_name
}

/// How a batch with these many updated and failed stories ended.
pub open spec fn batch_result(updated: nat, failed: nat) -> BatchResult {
    if failed == 0 {
        BatchResult::Success
    } else if updated == 0 {
        BatchResult::Error
    } else {
        BatchResult::PartialSuccess
    }
}

impl StoryUpdateOutcome {
    /// How the batch ended as a whole.
    pub open spec fn result(self) -> BatchResult {
        batch_result(self.updated@.len(), self.failed@.len())
    }

    /// Classifies the batch: success where nothing failed, an error where
    /// nothing was updated, and a partial success otherwise.
    pub fn classify(&self) -> (r: BatchResult)
        ensures
            r == self.result(),
    {
        if self.failed.len() == 0 {
            BatchResult::Success
        } else if self.updated.len() == 0 {
            BatchResult::Error
        } else {
            BatchResult::PartialSuccess
        }
    }
}

/// Builds the address of the update call for one story.
pub fn story_update_url(base_url: &str, story_name: &str) -> (url: String)
    ensures
        url@ == story_address(base_url@, story_name@),
{
    let mut url = String::from_str(base_url);
    url.append("/rest/api/3/issue/");
    url.append(story_name);
    url
}

/// Parts the stories of a batch by how their calls ended. `calls` holds, for
/// each call in the order of the batch, the story's name: in `Ok` where the
/// call succeeded, in `Err` where it failed.
pub fn partition_calls(calls: Vec<Result<String, String>>) -> (outcome: StoryUpdateOutcome)
    ensures
        texts(outcome.updated@) == updated_among(call_views(calls@)),
        texts(outcome.failed@) == failed_among(call_views(calls@)),
{
    let mut updated: Vec<String> = Vec::new();
    let mut failed: Vec<String> = Vec::new();
    let ghost all = call_views(calls@);
    let mut i: usize = 0;
    assert(all.take(0) =~= Seq::empty());
    assert(texts(updated@) =~= Seq::empty());
    assert(texts(failed@) =~= Seq::empty());
    while i < calls.len()
        invariant
            i <= calls.len(),
            all == call_views(calls@),
            texts(updated@) == updated_among(all.take(i as int)),
            texts(failed@) == failed_among(all.take(i as int)),
        decreases calls.len() - i,
    {
        let ghost updated_before = texts(updated@);
        let ghost failed_before = texts(failed@);
        proof {
            assert(all.take(i + 1).drop_last() =~= all.take(i as int));
            assert(all.take(i + 1).last() == all[i as int]);
        }
        match &calls[i] {
            Ok(name) => {
                updated.push(name.clone());
                assert(texts(updated@) =~= updated_before.push(name@));
            },
            Err(name) => {
                failed.push(name.clone());
                assert(texts(failed@) =~= failed_before.push(name@));
            },
        }
        i += 1;
    }
    assert(all.take(i as int) =~= all);
    StoryUpdateOutcome { updated, failed }
}

/// What the report says in words for each way a batch can end.
pub open spec fn batch_message(result: BatchResult) -> Seq<char> {
    match result {
        BatchResult::Success => "All story points updated successfully"@,
        BatchResult::PartialSuccess => "Some story points updated successfully"@,
        BatchResult::Error => "All story points update failed"@,
    }
}

/// The word for the status of a batch: only a batch without failures is a
/// success.
pub open spec fn batch_status_word(result: BatchResult) -> Seq<char> {
    match result {
        BatchResult::Success => "success"@,
        _ => "error"@,
    }
}

/// The report on a batch as JSON: `message`, `status`, `updated` and
/// `failed`. `failed` is null where nothing failed, `updated` where every
/// call failed.
pub open spec fn story_json(updated: Seq<Seq<char>>, failed: Seq<Seq<char>>) -> JsonModel {
    let result = batch_result(updated.len(), failed.len());
    JsonModel::Object(
        seq![
            ("message"@, JsonModel::Str(batch_message(result))),
            ("status"@, JsonModel::Str(batch_status_word(result))),
            (
                "updated"@,
                if result is Error {
                    JsonModel::Null
                } else {
                    text_array(updated)
                },
            ),
            (
                "failed"@,
                if result is Success {
                    JsonModel::Null
                } else {
                    text_array(failed)
                },
            ),
        ],
    )
}

/// The body of the update call for one story: the custom field `field_id`
/// set to `points`, under `fields`.
pub open spec fn story_body(field_id: Seq<char>, points: i32) -> JsonModel {
    JsonModel::Object(
        seq![
            (
                "fields"@,
                JsonModel::Object(
                    seq![
                        (
                            field_id,
                            if points >= 0 {
                                JsonModel::PosInt(points as u64)
                            } else {
                                JsonModel::NegInt(points as i64)
                            },
                        ),
                    ],
                ),
            ),
        ],
    )
}

/// Builds the body of the update call for one story.
pub fn story_update_body(field_id: &str, points: i32) -> (body: JsonValue)
    ensures
        body@ == story_body(field_id@, points),
{
    let number = if points >= 0 {
        JsonValue::PosInt(points as u64)
    } else {
        JsonValue::NegInt(points as i64)
    };
    let mut inner: Vec<(String, JsonValue)> = Vec::new();
    inner.push((field_id.to_owned(), number));
    assert(member_models(inner@) =~= seq![(field_id@, number@)]);
    let fields = object_of(inner);
    let mut outer: Vec<(String, JsonValue)> = Vec::new();
    outer.push(("fields".to_owned(), fields));
    assert(member_models(outer@) =~= seq![("fields"@, fields@)]);
    object_of(outer)
}

impl StoryUpdateOutcome {
    /// Renders the report on the batch as JSON.
    pub fn to_json(&self) -> (value: JsonValue)
        ensures
            value@ == story_json(texts(self.updated@), texts(self.failed@)),
    {
        let result = self.classify();
        let (message, word) = match result {
            BatchResult::Success => ("All story points updated successfully", "success"),
            BatchResult::PartialSuccess => ("Some story points updated successfully", "error"),
            BatchResult::Error => ("All story points update failed", "error"),
        };
        let updated = match result {
            BatchResult::Error => JsonValue::Null,
            _ => text_list(&self.updated),
        };
        let failed = match result {
            BatchResult::Success => JsonValue::Null,
            _ => text_list(&self.failed),
        };
        let mut members: Vec<(String, JsonValue)> = Vec::new();
        members.push(("message".to_owned(), text_value(message)));
        members.push(("status".to_owned(), text_value(word)));
        members.push(("updated".to_owned(), updated));
        members.push(("failed".to_owned(), failed));
        assert(member_models(members@) =~= story_json(
            texts(self.updated@),
            texts(self.failed@),
        )->Object_0);
        object_of(members)
    }
}

} // verus!
