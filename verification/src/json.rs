//! JSON values as event payloads and sink fields carry them.

use vstd::prelude::*;

use crate::text::str_eq;

verus! {

/// A JSON number as the logic reads it: its canonical text and its value when
/// that is an integer in the `i64` range.
#[derive(Debug, PartialEq, Eq)]
pub struct JsonNumber {
    pub text: String,
    pub as_i64: Option<i64>,
}

/// A JSON value; an object holds its members in order, and a key names its first member.
#[derive(Debug, PartialEq, Eq)]
pub enum JsonValue {
    Null,
    Bool(bool),
    Number(JsonNumber),
    String(String),
    Array(Vec<JsonValue>),
    Object(Vec<(String, JsonValue)>),
}

/// The mathematical form of a JSON value.
pub enum JsonModel {
    Null,
    Bool(bool),
    Number(Seq<char>, Option<i64>),
    Str(Seq<char>),
    Array(Seq<JsonModel>),
    Object(Seq<(Seq<char>, JsonModel)>),
}

impl JsonValue {
    /// The mathematical form of this value.
    pub open spec fn model(self) -> JsonModel
        decreases self,
    {
        match self {
            JsonValue::Null => JsonModel::Null,
            JsonValue::Bool(b) => JsonModel::Bool(b),
            JsonValue::Number(n) => JsonModel::Number(n.text@, n.as_i64),
            JsonValue::String(s) => JsonModel::Str(s@),
            JsonValue::Array(items) => JsonModel::Array(item_models(items@)),
            JsonValue::Object(entries) => JsonModel::Object(entry_models(entries@)),
        }
    }
}

/// The models of a sequence of values.
pub open spec fn item_models(s: Seq<JsonValue>) -> Seq<JsonModel>
    decreases s,
{
    if s.len() == 0 {
        seq![]
    } else {
        seq![s[0].model()] + item_models(s.drop_first())
    }
}

/// The models of a sequence of object members.
pub open spec fn entry_models(s: Seq<(String, JsonValue)>) -> Seq<(Seq<char>, JsonModel)>
    decreases s,
{
    if s.len() == 0 {
        seq![]
    } else {
        seq![(s[0].0@, s[0].1.model())] + entry_models(s.drop_first())
    }
}

impl View for JsonValue {
    type V = JsonModel;

    open spec fn view(&self) -> JsonModel {
        self.model()
    }
}

/// The models of a sequence of values, position by position.
pub proof fn lemma_item_models(s: Seq<JsonValue>)
    ensures
        item_models(s).len() == s.len(),
        forall|i: int| 0 <= i < s.len() ==> #[trigger] item_models(s)[i] == s[i].model(),
    decreases s.len(),
{
    if s.len() > 0 {
        lemma_item_models(s.drop_first());
    }
}

/// The models of a sequence of members, position by position.
pub proof fn lemma_entry_models(s: Seq<(String, JsonValue)>)
    ensures
        entry_models(s).len() == s.len(),
        forall|i: int|
            0 <= i < s.len() ==> #[trigger] entry_models(s)[i] == (s[i].0@, s[i].1.model()),
    decreases s.len(),
{
    if s.len() > 0 {
        lemma_entry_models(s.drop_first());
    }
}

/// The value of the first member of `entries` whose key is `key`.
pub open spec fn lookup(entries: Seq<(Seq<char>, JsonModel)>, key: Seq<char>) -> Option<JsonModel>
    decreases entries.len(),
{
    if entries.len() == 0 {
        None
    } else if entries[0].0 == key {
        Some(entries[0].1)
    } else {
        lookup(entries.drop_first(), key)
    }
}

/// The member `key` of `v` when `v` is an object (`Value::get`).
pub open spec fn json_get(v: JsonModel, key: Seq<char>) -> Option<JsonModel> {
    match v {
        JsonModel::Object(entries) => lookup(entries, key),
        _ => None,
    }
}

/// `lookup` after skipping members whose keys differ from `key`.
proof fn lemma_lookup_skip(entries: Seq<(Seq<char>, JsonModel)>, key: Seq<char>, k: int)
    requires
        0 <= k < entries.len(),
        entries[k].0 != key,
    ensures
        lookup(entries.skip(k), key) == lookup(entries.skip(k + 1), key),
{
    assert(entries.skip(k).drop_first() =~= entries.skip(k + 1));
}

impl JsonValue {
    /// The member `key` of this value when it is an object (`Value::get`).
    pub fn get(&self, key: &str) -> (r: Option<&JsonValue>)
        ensures
            match r {
                Some(x) => json_get(self@, key@) == Some(x.model()),
                None => json_get(self@, key@) is None,
            },
    {
        match self {
            JsonValue::Object(entries) => {
                let ghost ms = entry_models(entries@);
                proof {
                    lemma_entry_models(entries@);
                }
                assert(ms.skip(0) =~= ms);
                assert(self@ == JsonModel::Object(ms));
                let mut k: usize = 0;
                while k < entries.len()
                    invariant
                        ms == entry_models(entries@),
                        ms.len() == entries@.len(),
                        forall|i: int|
                            0 <= i < entries@.len() ==> #[trigger] ms[i] == (
                                entries@[i].0@,
                                entries@[i].1.model(),
                            ),
                        k <= entries@.len(),
                        lookup(ms, key@) == lookup(ms.skip(k as int), key@),
                        self@ == JsonModel::Object(ms),
                    decreases entries@.len() - k,
                {
                    let entry = &entries[k];
                    assert(ms[k as int] == (entry.0@, entry.1.model()));
                    if str_eq(entry.0.as_str(), key) {
                        assert(ms.skip(k as int).len() > 0);
                        assert(ms.skip(k as int)[0] == ms[k as int]);
                        assert(ms.skip(k as int)[0].0 == key@);
                        assert(lookup(ms.skip(k as int), key@) == Some(entry.1.model()));
                        return Some(&entry.1);
                    }
                    proof {
                        lemma_lookup_skip(ms, key@, k as int);
                    }
                    k = k + 1;
                }
                None
            },
            _ => None,
        }
    }

    /// A copy of this value with the same model.
    pub fn duplicate(&self) -> (r: JsonValue)
        ensures
            r@ == self@,
        decreases self,
    {
        match self {
            JsonValue::Null => JsonValue::Null,
            JsonValue::Bool(b) => JsonValue::Bool(*b),
            JsonValue::Number(n) => JsonValue::Number(
                JsonNumber { text: n.text.clone(), as_i64: n.as_i64 },
            ),
            JsonValue::String(s) => JsonValue::String(s.clone()),
            JsonValue::Array(items) => {
                let mut out: Vec<JsonValue> = Vec::new();
                let mut k: usize = 0;
                while k < items.len()
                    invariant
                        k <= items@.len(),
                        out@.len() == k,
                        forall|i: int| 0 <= i < k ==> #[trigger] out@[i]@ == items@[i]@,
                        *self == JsonValue::Array(*items),
                    decreases items@.len() - k,
                {
                    proof {
                        assert(decreases_to!(*items => items[k as int]));
                        assert(decreases_to!(*self => self->Array_0));
                        assert(decreases_to!(*self => items[k as int]));
                    }
                    let item = items[k].duplicate();
                    out.push(item);
                    k = k + 1;
                }
                proof {
                    lemma_item_models(out@);
                    lemma_item_models(items@);
                }
                assert forall|i: int| 0 <= i < items@.len() implies item_models(out@)[i]
                    == item_models(items@)[i] by {
                    assert(out@[i]@ == items@[i]@);
                }
                assert(item_models(out@) =~= item_models(items@));
                JsonValue::Array(out)
            },
            JsonValue::Object(entries) => {
                let mut out: Vec<(String, JsonValue)> = Vec::new();
                let mut k: usize = 0;
                while k < entries.len()
                    invariant
                        k <= entries@.len(),
                        out@.len() == k,
                        forall|i: int|
                            0 <= i < k ==> #[trigger] out@[i].0@ == entries@[i].0@ && out@[i].1@
                                == entries@[i].1@,
                        *self == JsonValue::Object(*entries),
                    decreases entries@.len() - k,
                {
                    proof {
                        assert(decreases_to!(*entries => entries[k as int]));
                        assert(decreases_to!(*self => self->Object_0));
                        assert(decreases_to!(entries[k as int] => entries[k as int].1));
                        assert(decreases_to!(*self => entries[k as int].1));
                    }
                    let value = entries[k].1.duplicate();
                    let key = entries[k].0.clone();
                    out.push((key, value));
                    k = k + 1;
                }
                proof {
                    lemma_entry_models(out@);
                    lemma_entry_models(entries@);
                }
                assert(entry_models(out@) =~= entry_models(entries@));
                JsonValue::Object(out)
            },
        }
    }
}

} // verus!
