//! A JSON tree as plain data, with the few readers that reconciliation needs.

use vstd::prelude::*;
use crate::text::{str_eq, texts};

verus! {

/// A JSON value.
///
/// Numbers are kept in three forms: a non-negative integer, a negative
/// integer, and any other number, of which only the bit pattern is kept.
/// The members of an object are kept in their order; a reader takes the first
/// member of a name.
#[derive(Debug, PartialEq, Eq)]
pub enum JsonValue {
    Null,
    Bool(bool),
    PosInt(u64),
    NegInt(i64),
    Float(u64),
    Str(String),
    Array(Vec<JsonValue>),
    Object(Vec<(String, JsonValue)>),
}

/// What a JSON value says.
pub enum JsonModel {
    Null,
    Bool(bool),
    PosInt(u64),
    NegInt(i64),
    Float(u64),
    Str(Seq<char>),
    Array(Seq<JsonModel>),
    Object(Seq<(Seq<char>, JsonModel)>),
}

/// What a JSON value says: the same tree, with texts and sequences in place
/// of strings and vectors.
pub open spec fn model_of(value: JsonValue) -> JsonModel
    decreases value,
{
    match value {
        JsonValue::Null => JsonModel::Null,
        JsonValue::Bool(b) => JsonModel::Bool(b),
        JsonValue::PosInt(n) => JsonModel::PosInt(n),
        JsonValue::NegInt(n) => JsonModel::NegInt(n),
        JsonValue::Float(bits) => JsonModel::Float(bits),
        JsonValue::Str(s) => JsonModel::Str(s@),
        JsonValue::Array(items) => JsonModel::Array(
            Seq::new(
                items@.len(),
                |i: int|
                    if 0 <= i < items@.len() {
                        model_of(items@[i])
                    } else {
                        JsonModel::Null
                    },
            ),
        ),
        JsonValue::Object(members) => JsonModel::Object(
            Seq::new(
                members@.len(),
                |i: int|
                    if 0 <= i < members@.len() {
                        (members@[i].0@, model_of(members@[i].1))
                    } else {
                        (Seq::empty(), JsonModel::Null)
                    },
            ),
        ),
    }
}

impl View for JsonValue {
    type V = JsonModel;

    open spec fn view(&self) -> JsonModel {
        model_of(*self)
    }
}

/// What a sequence of JSON values says.
pub open spec fn models(items: Seq<JsonValue>) -> Seq<JsonModel> {
    items.map_values(|v: JsonValue| v@)
}

/// What a sequence of named JSON values says.
pub open spec fn member_models(members: Seq<(String, JsonValue)>) -> Seq<(Seq<char>, JsonModel)> {
    members.map_values(|m: (String, JsonValue)| (m.0@, m.1@))
}

/// The view of an array is that of its elements.
pub proof fn lemma_array_view(items: Vec<JsonValue>)
    ensures
        JsonValue::Array(items)@ == JsonModel::Array(models(items@)),
{
    assert(JsonValue::Array(items)@->Array_0 =~= models(items@));
}

/// The view of an object is that of its members.
pub proof fn lemma_object_view(members: Vec<(String, JsonValue)>)
    ensures
        JsonValue::Object(members)@ == JsonModel::Object(member_models(members@)),
{
    assert(JsonValue::Object(members)@->Object_0 =~= member_models(members@));
}

/// The value of the first member named `key` among `members`, if there is one.
pub open spec fn lookup(members: Seq<(Seq<char>, JsonModel)>, key: Seq<char>) -> Option<JsonModel>
    decreases members.len(),
{
    if members.len() == 0 {
        None
    } else if members[0].0 == key {
        Some(members[0].1)
    } else {
        lookup(members.skip(1), key)
    }
}

impl JsonModel {
    /// The member `key` of an object; `None` for a missing member and for
    /// anything that is not an object.
    pub open spec fn member(self, key: Seq<char>) -> Option<JsonModel> {
        match self {
            JsonModel::Object(members) => lookup(members, key),
            _ => None,
        }
    }

    /// The elements of an array; `None` for anything else.
    pub open spec fn elements(self) -> Option<Seq<JsonModel>> {
        match self {
            JsonModel::Array(items) => Some(items),
            _ => None,
        }
    }

    /// The text of a string; `None` for anything else.
    pub open spec fn text(self) -> Option<Seq<char>> {
        match self {
            JsonModel::Str(s) => Some(s),
            _ => None,
        }
    }

    /// The value as a signed 64-bit integer, where it is an integer that fits.
    pub open spec fn signed(self) -> Option<int> {
        match self {
            JsonModel::PosInt(n) => if n <= i64::MAX {
                Some(n as int)
            } else {
                None
            },
            JsonModel::NegInt(n) => Some(n as int),
            _ => None,
        }
    }

    /// The value as an unsigned integer, where it is kept as a non-negative
    /// integer.
    pub open spec fn unsigned(self) -> Option<int> {
        match self {
            JsonModel::PosInt(n) => Some(n as int),
            _ => None,
        }
    }
}

/// The elements of the member `name` of `value`, where it is an array.
pub open spec fn listed(value: JsonModel, name: Seq<char>) -> Option<Seq<JsonModel>> {
    match value.member(name) {
        Some(v) => v.elements(),
        None => None,
    }
}

/// The member `inner` of the member `outer` of `value`.
pub open spec fn nested(value: JsonModel, outer: Seq<char>, inner: Seq<char>) -> Option<JsonModel> {
    match value.member(outer) {
        Some(v) => v.member(inner),
        None => None,
    }
}

/// The array of the strings that say `list`.
pub open spec fn text_array(list: Seq<Seq<char>>) -> JsonModel {
    JsonModel::Array(list.map_values(|t: Seq<char>| JsonModel::Str(t)))
}

impl JsonValue {
    /// Reads the member `key` of an object.
    pub fn get(&self, key: &str) -> (r: Option<&JsonValue>)
        ensures
            match r {
                Some(v) => self@.member(key@) == Some(v@),
                None => self@.member(key@) is None,
            },
    {
        match self {
            JsonValue::Object(members) => {
                let ghost all = member_models(members@);
                let mut i: usize = 0;
                proof {
                    lemma_object_view(*members);
                    assert(all.skip(0) =~= all);
                }
                while i < members.len()
                    invariant
                        i <= members.len(),
                        all == member_models(members@),
                        self@.member(key@) == lookup(all, key@),
                        lookup(all, key@) == lookup(all.skip(i as int), key@),
                    decreases members.len() - i,
                {
                    proof {
                        assert(all.skip(i as int).skip(1) =~= all.skip(i + 1));
                        assert(all.skip(i as int)[0] == all[i as int]);
                    }
                    if str_eq(members[i].0.as_str(), key) {
                        return Some(&members[i].1);
                    }
                    i += 1;
                }
                None
            },
            _ => None,
        }
    }

    /// Reads the elements of an array.
    pub fn as_array(&self) -> (r: Option<&Vec<JsonValue>>)
        ensures
            match r {
                Some(items) => self@.elements() == Some(models(items@)),
                None => self@.elements() is None,
            },
    {
        match self {
            JsonValue::Array(items) => {
                proof {
                    lemma_array_view(*items);
                }
                Some(items)
            },
            _ => None,
        }
    }

    /// Reads the text of a string.
    pub fn as_str(&self) -> (r: Option<&str>)
        ensures
            match r {
                Some(s) => self@.text() == Some(s@),
                None => self@.text() is None,
            },
    {
        match self {
            JsonValue::Str(s) => Some(s.as_str()),
            _ => None,
        }
    }

    /// Reads the value as an `i64`.
    pub fn as_i64(&self) -> (r: Option<i64>)
        ensures
            match r {
                Some(n) => self@.signed() == Some(n as int),
                None => self@.signed() is None,
            },
    {
        match self {
            JsonValue::PosInt(n) => if *n <= 0x7fff_ffff_ffff_ffff {
                Some(*n as i64)
            } else {
                None
            },
            JsonValue::NegInt(n) => Some(*n),
            _ => None,
        }
    }

    /// Reads the value as a `u64`.
    pub fn as_u64(&self) -> (r: Option<u64>)
        ensures
            match r {
                Some(n) => self@.unsigned() == Some(n as int),
                None => self@.unsigned() is None,
            },
    {
        match self {
            JsonValue::PosInt(n) => Some(*n),
            _ => None,
        }
    }
}

/// Makes the string that says `text`.
pub fn text_value(text: &str) -> (value: JsonValue)
    ensures
        value@ == JsonModel::Str(text@),
{
    JsonValue::Str(text.to_owned())
}

/// Makes the array of `items`.
pub fn array_of(items: Vec<JsonValue>) -> (value: JsonValue)
    ensures
        value@ == JsonModel::Array(models(items@)),
{
    proof {
        lemma_array_view(items);
    }
    JsonValue::Array(items)
}

/// Makes the object of `members`.
pub fn object_of(members: Vec<(String, JsonValue)>) -> (value: JsonValue)
    ensures
        value@ == JsonModel::Object(member_models(members@)),
{
    proof {
        lemma_object_view(members);
    }
    JsonValue::Object(members)
}

/// Makes the array of the strings that say `list`.
pub fn text_list(list: &Vec<String>) -> (value: JsonValue)
    ensures
        value@ == text_array(texts(list@)),
{
    let mut items: Vec<JsonValue> = Vec::new();
    let mut i: usize = 0;
    while i < list.len()
        invariant
            i <= list.len(),
            items.len() == i,
            forall|k: int| 0 <= k < i ==> (#[trigger] items[k])@ == JsonModel::Str(list[k]@),
        decreases list.len() - i,
    {
        items.push(text_value(list[i].as_str()));
        i += 1;
    }
    assert(models(items@) =~= texts(list@).map_values(|t: Seq<char>| JsonModel::Str(t)));
    array_of(items)
}

} // verus!
