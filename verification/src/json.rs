//! The JSON data model: a recursive tagged union mirroring a JSON document,
//! with a mathematical view used by every contract that speaks of JSON.
//!
//! Objects keep their members as an ordered sequence of key/value pairs, so
//! insertion order is preserved; lookup returns the first member with a
//! matching key. Numbers are held as signed integers: the pipeline never
//! computes with them, it only carries them through and prints them.

use vstd::prelude::*;

verus! {

/// A JSON document as executable data.
pub enum JsonValue {
    Null,
    Bool(bool),
    Number(i64),
    Text(String),
    Array(Vec<JsonValue>),
    Object(Vec<(String, JsonValue)>),
}

/// The mathematical model of a JSON document.
pub enum JsonSpec {
    Null,
    Bool(bool),
    Number(int),
    Text(Seq<char>),
    Array(Seq<JsonSpec>),
    Object(Seq<(Seq<char>, JsonSpec)>),
}

/// The model of one executable JSON value.
pub open spec fn model(v: JsonValue) -> JsonSpec
    decreases v,
{
    match v {
        JsonValue::Null => JsonSpec::Null,
        JsonValue::Bool(b) => JsonSpec::Bool(b),
        JsonValue::Number(n) => JsonSpec::Number(n as int),
        JsonValue::Text(s) => JsonSpec::Text(s@),
        JsonValue::Array(items) => JsonSpec::Array(model_seq(items@)),
        JsonValue::Object(members) => JsonSpec::Object(model_members(members@)),
    }
}

/// The models of a sequence of array elements, in order.
pub open spec fn model_seq(items: Seq<JsonValue>) -> Seq<JsonSpec>
    decreases items,
{
    if items.len() == 0 {
        Seq::empty()
    } else {
        seq![model(items[0])] + model_seq(items.subrange(1, items.len() as int))
    }
}

/// The models of a sequence of object members, in order.
pub open spec fn model_members(members: Seq<(String, JsonValue)>) -> Seq<(Seq<char>, JsonSpec)>
    decreases members,
{
    if members.len() == 0 {
        Seq::empty()
    } else {
        seq![(members[0].0@, model(members[0].1))] + model_members(
            members.subrange(1, members.len() as int),
        )
    }
}

impl View for JsonValue {
    type V = JsonSpec;

    open spec fn view(&self) -> JsonSpec {
        model(*self)
    }
}

impl DeepView for JsonValue {
    type V = JsonSpec;

    open spec fn deep_view(&self) -> JsonSpec {
        model(*self)
    }
}

/// An exact copy of `v`.
pub fn clone_json(v: &JsonValue) -> (r: JsonValue)
    ensures
        r@ == v@,
    decreases *v,
{
    match v {
        JsonValue::Null => JsonValue::Null,
        JsonValue::Bool(b) => JsonValue::Bool(*b),
        JsonValue::Number(n) => JsonValue::Number(*n),
        JsonValue::Text(s) => JsonValue::Text(s.clone()),
        JsonValue::Array(items) => {
            let cloned = clone_array(items);
            proof {
                lemma_model_seq(items@);
                lemma_model_seq(cloned@);
                assert forall|i: int|
                    0 <= i < model_seq(cloned@).len() implies model_seq(cloned@)[i] == model_seq(
                    items@,
                )[i] by {
                    assert(cloned@[i]@ == items@[i]@);
                }
                assert(model_seq(cloned@) =~= model_seq(items@));
            }
            JsonValue::Array(cloned)
        },
        JsonValue::Object(members) => {
            let cloned = clone_object(members);
            proof {
                lemma_model_members(members@);
                lemma_model_members(cloned@);
                assert forall|i: int|
                    0 <= i < model_members(cloned@).len() implies model_members(cloned@)[i]
                    == model_members(members@)[i] by {
                    assert(cloned@[i].0@ == members@[i].0@ && cloned@[i].1@ == members@[i].1@);
                }
                assert(model_members(cloned@) =~= model_members(members@));
            }
            JsonValue::Object(cloned)
        },
    }
}

/// An exact copy of each element of `items`.
fn clone_array(items: &Vec<JsonValue>) -> (r: Vec<JsonValue>)
    ensures
        r@.len() == items@.len(),
        forall|i: int| 0 <= i < items@.len() ==> (#[trigger] r@[i])@ == items@[i]@,
    decreases items@,
{
    let mut out: Vec<JsonValue> = Vec::new();
    let n = items.len();
    let mut i: usize = 0;
    while i < n
        invariant
            0 <= i <= n,
            n == items@.len(),
            out@.len() == i,
            forall|j: int| 0 <= j < i ==> (#[trigger] out@[j])@ == items@[j]@,
        decreases n - i,
    {
        out.push(clone_json(&items[i]));
        i = i + 1;
    }
    out
}

/// An exact copy of each member of `members`.
fn clone_object(members: &Vec<(String, JsonValue)>) -> (r: Vec<(String, JsonValue)>)
    ensures
        r@.len() == members@.len(),
        forall|i: int|
            0 <= i < members@.len() ==> (#[trigger] r@[i]).0@ == members@[i].0@ && r@[i].1@
                == members@[i].1@,
    decreases members@,
{
    let mut out: Vec<(String, JsonValue)> = Vec::new();
    let n = members.len();
    let mut i: usize = 0;
    while i < n
        invariant
            0 <= i <= n,
            n == members@.len(),
            out@.len() == i,
            forall|j: int|
                0 <= j < i ==> (#[trigger] out@[j]).0@ == members@[j].0@ && out@[j].1@
                    == members@[j].1@,
        decreases n - i,
    {
        let member = &members[i];
        out.push((member.0.clone(), clone_json(&member.1)));
        i = i + 1;
    }
    out
}

/// The string form a value is persisted under: the characters of a text
/// value, and the empty string for every other kind of value.
pub open spec fn string_form(j: JsonSpec) -> Seq<char> {
    match j {
        JsonSpec::Text(s) => s,
        _ => Seq::empty(),
    }
}

/// The string form of `v`, computed.
pub fn string_form_exec(v: &JsonValue) -> (r: String)
    ensures
        r@ == string_form(v@),
{
    match v {
        JsonValue::Text(s) => s.clone(),
        _ => String::new(),
    }
}

/// Each array element's model stands at its own index.
pub proof fn lemma_model_seq(items: Seq<JsonValue>)
    ensures
        model_seq(items).len() == items.len(),
        forall|i: int|
            0 <= i < items.len() ==> model_seq(items)[i] == model(#[trigger] items[i]),
    decreases items.len(),
{
    if items.len() > 0 {
        let rest = items.subrange(1, items.len() as int);
        lemma_model_seq(rest);
        assert forall|i: int| 0 <= i < items.len() implies model_seq(items)[i] == model(
            #[trigger] items[i],
        ) by {
            if i > 0 {
                assert(rest[i - 1] == items[i]);
                assert(model_seq(items)[i] == model_seq(rest)[i - 1]);
            }
        }
    }
}

/// Each object member's model stands at its own index.
pub proof fn lemma_model_members(members: Seq<(String, JsonValue)>)
    ensures
        model_members(members).len() == members.len(),
        forall|i: int|
            0 <= i < members.len() ==> model_members(members)[i] == (
                #[trigger] members[i].0@,
                model(members[i].1),
            ),
    decreases members.len(),
{
    if members.len() > 0 {
        let rest = members.subrange(1, members.len() as int);
        lemma_model_members(rest);
        assert forall|i: int| 0 <= i < members.len() implies model_members(members)[i] == (
            #[trigger] members[i].0@,
            model(members[i].1),
        ) by {
            if i > 0 {
                assert(rest[i - 1] == members[i]);
                assert(model_members(members)[i] == model_members(rest)[i - 1]);
            }
        }
    }
}

} // verus!
