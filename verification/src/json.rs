//! JSON values as the library holds them, and their mathematical model.
use vstd::prelude::*;
use crate::ordered::{distinct_keys, inserted};

verus! {

/// A JSON value. A number is held as the text of its literal; an object
/// holds its members in the order in which they were written.
#[derive(Debug, PartialEq, Eq)]
pub enum Json {
    Null,
    Bool(bool),
    Number(String),
    Str(String),
    Array(Vec<Json>),
    Object(Vec<Member>),
}

/// One member of a JSON object: a name and the value it stands for.
#[derive(Debug, PartialEq, Eq)]
pub struct Member {
    pub name: String,
    pub value: Json,
}

/// The mathematical model of a [`Json`] value.
pub enum JsonValue {
    Null,
    Bool(bool),
    Number(Seq<char>),
    Str(Seq<char>),
    Array(Seq<JsonValue>),
    Object(Seq<(Seq<char>, JsonValue)>),
}

/// The model of a JSON value: the same tree, with sequences in place of
/// vectors and strings.
pub open spec fn json_model(j: Json) -> JsonValue
    decreases j,
{
    match j {
        Json::Null => JsonValue::Null,
        Json::Bool(b) => JsonValue::Bool(b),
        Json::Number(n) => JsonValue::Number(n@),
        Json::Str(s) => JsonValue::Str(s@),
        Json::Array(items) => JsonValue::Array(
            Seq::new(
                items.len() as nat,
                |i: int|
                    if 0 <= i < items.len() {
                        json_model(items[i])
                    } else {
                        JsonValue::Null
                    },
            ),
        ),
        Json::Object(members) => JsonValue::Object(
            Seq::new(
                members.len() as nat,
                |i: int|
                    if 0 <= i < members.len() {
                        (members[i].name@, json_model(members[i].value))
                    } else {
                        (Seq::empty(), JsonValue::Null)
                    },
            ),
        ),
    }
}

impl View for Json {
    type V = JsonValue;

    open spec fn view(&self) -> JsonValue {
        json_model(*self)
    }
}

/// The models of a list of JSON values, in order.
pub open spec fn items_view(items: Seq<Json>) -> Seq<JsonValue> {
    Seq::new(items.len(), |i: int| items[i]@)
}

/// The models of a list of named JSON values, in order.
pub open spec fn members_view(members: Seq<Member>) -> Seq<(Seq<char>, JsonValue)> {
    Seq::new(members.len(), |i: int| (members[i].name@, members[i].value@))
}

/// An array's model holds the models of its items.
pub proof fn lemma_array_view(items: Vec<Json>)
    ensures
        Json::Array(items)@ == JsonValue::Array(items_view(items@)),
{
    let j = Json::Array(items);
    assert(j@->Array_0 =~= items_view(items@));
}

/// An object's model holds the names and the models of its members.
pub proof fn lemma_object_view(members: Vec<Member>)
    ensures
        Json::Object(members)@ == JsonValue::Object(members_view(members@)),
{
    let j = Json::Object(members);
    assert(j@->Object_0 =~= members_view(members@));
}

/// In every object of the value, no two members have the same name.
pub open spec fn well_named(j: JsonValue) -> bool
    decreases j,
{
    match j {
        JsonValue::Array(items) => forall|i: int|
            0 <= i < items.len() ==> well_named(#[trigger] items[i]),
        JsonValue::Object(members) => distinct_keys(members) && forall|i: int|
            0 <= i < members.len() ==> well_named((#[trigger] members[i]).1),
        _ => true,
    }
}

/// `serde_json`'s JSON value, carried through as it is.
#[verifier::external_type_specification]
#[verifier::external_body]
pub struct ExSerdeValue(serde_json::Value);

/// What a `serde_json::Value` holds: the same tree, each number as the text
/// that `serde_json` prints for it, each object's members in the order in
/// which the value keeps them.
pub uninterp spec fn json_document(v: serde_json::Value) -> JsonValue;

/// What `serde_json` makes of the text of a number: what the number read
/// from it holds, or `null` for a text that it reads no number from. This
/// crate asks for the `float_roundtrip` feature, with which `serde_json`
/// reads the text that it wrote for a number back as the same number.
pub uninterp spec fn number_form(text: Seq<char>) -> JsonValue;

/// The compact JSON text that `serde_json` writes for a value.
pub uninterp spec fn json_text(j: JsonValue) -> Seq<char>;

/// What stands at the root of a `serde_json::Value`, with the values
/// below it as they are.
pub(crate) enum SerdeParts<'a> {
    Null,
    Bool(bool),
    Number(String),
    Str(String),
    Array(Vec<&'a serde_json::Value>),
    Object(Vec<(String, &'a serde_json::Value)>),
}

/// What stands at the root of a `serde_json::Value` that is to be built,
/// with the values below it already built.
pub(crate) enum SerdeBuild {
    Null,
    Bool(bool),
    Number(String),
    Str(String),
    Array(Vec<serde_json::Value>),
    Object(Vec<(String, serde_json::Value)>),
}

/// What a list of borrowed values holds.
pub open spec fn borrowed_documents(items: Seq<&serde_json::Value>) -> Seq<JsonValue> {
    Seq::new(items.len(), |i: int| json_document(*items[i]))
}

/// What a list of named borrowed values holds.
pub open spec fn borrowed_members(members: Seq<(String, &serde_json::Value)>) -> Seq<
    (Seq<char>, JsonValue),
> {
    Seq::new(members.len(), |i: int| (members[i].0@, json_document(*members[i].1)))
}

/// What a list of values holds.
pub open spec fn documents(items: Seq<serde_json::Value>) -> Seq<JsonValue> {
    Seq::new(items.len(), |i: int| json_document(items[i]))
}

/// What a list of named values holds.
pub open spec fn member_documents(members: Seq<(String, serde_json::Value)>) -> Seq<
    (Seq<char>, JsonValue),
> {
    Seq::new(members.len(), |i: int| (members[i].0@, json_document(members[i].1)))
}

/// The first `n` of `members`, put into an empty object one after
/// another: a name that is there keeps its place and takes the new value,
/// a new name goes to the end.
pub open spec fn gathered(members: Seq<(Seq<char>, JsonValue)>, n: nat) -> Seq<(Seq<char>, JsonValue)>
    decreases n,
{
    if n == 0 || n > members.len() {
        Seq::empty()
    } else {
        inserted(gathered(members, (n - 1) as nat), members[n - 1].0, members[n - 1].1)
    }
}

/// Takes a `serde_json::Value` apart, variant by variant. A number comes
/// as the text of `Number::to_string`; an array's items come in order; an
/// object's members come in the order of `Map::iter`, which is the order
/// of insertion with the `preserve_order` feature that this crate asks
/// for, and since a `serde_json::Map` holds each key once, no name comes
/// twice.
#[verifier::external_body]
pub(crate) fn serde_parts<'a>(v: &'a serde_json::Value) -> (r: SerdeParts<'a>)
    ensures
        json_document(*v) == (match r {
            SerdeParts::Null => JsonValue::Null,
            SerdeParts::Bool(b) => JsonValue::Bool(b),
            SerdeParts::Number(text) => JsonValue::Number(text@),
            SerdeParts::Str(s) => JsonValue::Str(s@),
            SerdeParts::Array(items) => JsonValue::Array(borrowed_documents(items@)),
            SerdeParts::Object(members) => JsonValue::Object(borrowed_members(members@)),
        }),
        r matches SerdeParts::Object(members) ==> distinct_keys(borrowed_members(members@)),
{
    match v {
        serde_json::Value::Null => SerdeParts::Null,
        serde_json::Value::Bool(b) => SerdeParts::Bool(*b),
        serde_json::Value::Number(n) => SerdeParts::Number(n.to_string()),
        serde_json::Value::String(s) => SerdeParts::Str(s.clone()),
        serde_json::Value::Array(a) => SerdeParts::Array(a.iter().collect()),
        serde_json::Value::Object(o) => SerdeParts::Object(
            o.iter().map(|(k, v)| (k.clone(), v)).collect(),
        ),
    }
}

/// Builds a `serde_json::Value`, variant by variant. A number's text goes
/// through `Number::from_str`, and a text that no number is read from
/// gives `Null`. An object's members are collected into a
/// `serde_json::Map`, which, with the `preserve_order` feature that this
/// crate asks for, is an `IndexMap` and inserts them in order: a name
/// that is there keeps its place and takes the new value.
#[verifier::external_body]
pub(crate) fn serde_build(parts: SerdeBuild) -> (r: serde_json::Value)
    ensures
        json_document(r) == (match parts {
            SerdeBuild::Null => JsonValue::Null,
            SerdeBuild::Bool(b) => JsonValue::Bool(b),
            SerdeBuild::Number(text) => number_form(text@),
            SerdeBuild::Str(s) => JsonValue::Str(s@),
            SerdeBuild::Array(items) => JsonValue::Array(documents(items@)),
            SerdeBuild::Object(members) => JsonValue::Object(
                gathered(member_documents(members@), members.len() as nat),
            ),
        }),
{
    match parts {
        SerdeBuild::Null => serde_json::Value::Null,
        SerdeBuild::Bool(b) => serde_json::Value::Bool(b),
        SerdeBuild::Number(n) => n.parse().map_or(serde_json::Value::Null, serde_json::Value::Number),
        SerdeBuild::Str(s) => serde_json::Value::String(s),
        SerdeBuild::Array(a) => serde_json::Value::Array(a),
        SerdeBuild::Object(o) => serde_json::Value::Object(o.into_iter().collect()),
    }
}

/// The value that `serde_json` makes of a JSON value: the same tree, but
/// each number as `serde_json` reads it, and in each object a name that
/// comes again takes the place of the one before.
pub open spec fn normal_form(j: JsonValue) -> JsonValue
    decreases j,
{
    match j {
        JsonValue::Number(text) => number_form(text),
        JsonValue::Array(items) => JsonValue::Array(normal_items(items)),
        JsonValue::Object(members) => JsonValue::Object(
            gathered(normal_members(members), members.len()),
        ),
        _ => j,
    }
}

/// The normal forms of `items`, in order.
pub open spec fn normal_items(items: Seq<JsonValue>) -> Seq<JsonValue>
    decreases items,
{
    Seq::new(
        items.len(),
        |i: int|
            if 0 <= i < items.len() {
                normal_form(items[i])
            } else {
                JsonValue::Null
            },
    )
}

/// `members`, each with the normal form of its value.
pub open spec fn normal_members(members: Seq<(Seq<char>, JsonValue)>) -> Seq<(Seq<char>, JsonValue)>
    decreases members,
{
    Seq::new(
        members.len(),
        |i: int|
            if 0 <= i < members.len() {
                (members[i].0, normal_form(members[i].1))
            } else {
                (Seq::empty(), JsonValue::Null)
            },
    )
}

/// Reads a `serde_json::Value` into a [`Json`] that holds the same.
pub fn from_serde(v: &serde_json::Value) -> (r: Json)
    ensures
        r@ == json_document(*v),
        well_named(r@),
    decreases json_document(*v),
{
    match serde_parts(v) {
        SerdeParts::Null => Json::Null,
        SerdeParts::Bool(b) => Json::Bool(b),
        SerdeParts::Number(text) => Json::Number(text),
        SerdeParts::Str(s) => Json::Str(s),
        SerdeParts::Array(items) => {
            let ghost docs = borrowed_documents(items@);
            let mut out: Vec<Json> = Vec::new();
            let mut i: usize = 0;
            while i < items.len()
                invariant
                    i <= items.len(),
                    docs == borrowed_documents(items@),
                    json_document(*v) == JsonValue::Array(docs),
                    out.len() == i,
                    forall|k: int| 0 <= k < i ==> #[trigger] out[k]@ == docs[k] && well_named(out[k]@),
                decreases items.len() - i,
            {
                assert(docs[i as int] == json_document(*items[i as int]));
                assert(json_document(*v)->Array_0 == docs);
                assert(decreases_to!(json_document(*v) => json_document(*v)->Array_0[i as int]));
                let item = from_serde(items[i]);
                let ghost before = out@;
                out.push(item);
                assert forall|k: int| 0 <= k <= i implies #[trigger] out[k]@ == docs[k]
                    && well_named(out[k]@) by {
                    if k < i {
                        assert(out[k] == before[k]);
                    }
                }
                i += 1;
            }
            proof {
                lemma_array_view(out);
                assert(items_view(out@) =~= docs);
            }
            Json::Array(out)
        },
        SerdeParts::Object(members) => {
            let ghost docs = borrowed_members(members@);
            let mut out: Vec<Member> = Vec::new();
            let mut i: usize = 0;
            while i < members.len()
                invariant
                    i <= members.len(),
                    docs == borrowed_members(members@),
                    json_document(*v) == JsonValue::Object(docs),
                    out.len() == i,
                    forall|k: int|
                        0 <= k < i ==> out[k].name@ == docs[k].0 && out[k].value@ == docs[k].1
                            && well_named(out[k].value@),
                decreases members.len() - i,
            {
                assert(docs[i as int].1 == json_document(*members[i as int].1));
                assert(json_document(*v)->Object_0 == docs);
                assert(decreases_to!(json_document(*v) => json_document(*v)->Object_0[i as int].1));
                out.push(Member { name: members[i].0.clone(), value: from_serde(members[i].1) });
                i += 1;
            }
            proof {
                lemma_object_view(out);
                assert(members_view(out@) =~= docs);
            }
            Json::Object(out)
        },
    }
}

/// Builds the `serde_json::Value` for a [`Json`]: what it holds is the
/// value's [`normal_form`].
pub fn to_serde(j: &Json) -> (r: serde_json::Value)
    ensures
        json_document(r) == normal_form(j@),
    decreases j,
{
    match j {
        Json::Null => serde_build(SerdeBuild::Null),
        Json::Bool(b) => serde_build(SerdeBuild::Bool(*b)),
        Json::Number(text) => {
            let r = serde_build(SerdeBuild::Number(text.clone()));
            assert(json_document(r) == normal_form(j@));
            r
        },
        Json::Str(s) => {
            let r = serde_build(SerdeBuild::Str(s.clone()));
            assert(json_document(r) == normal_form(j@));
            r
        },
        Json::Array(items) => {
            proof {
                lemma_array_view(*items);
            }
            let mut out: Vec<serde_json::Value> = Vec::new();
            let mut i: usize = 0;
            while i < items.len()
                invariant
                    *j == Json::Array(*items),
                    i <= items.len(),
                    out.len() == i,
                    forall|k: int| 0 <= k < i ==> json_document(out[k]) == normal_form(items[k]@),
                decreases items.len() - i,
            {
                assert(decreases_to!(*j => j->Array_0[i as int]));
                out.push(to_serde(&items[i]));
                i += 1;
            }
            assert(documents(out@) =~= normal_items(items_view(items@)));
            let r = serde_build(SerdeBuild::Array(out));
            assert(json_document(r) == normal_form(j@));
            r
        },
        Json::Object(members) => {
            proof {
                lemma_object_view(*members);
            }
            let mut out: Vec<(String, serde_json::Value)> = Vec::new();
            let mut i: usize = 0;
            while i < members.len()
                invariant
                    *j == Json::Object(*members),
                    i <= members.len(),
                    out.len() == i,
                    forall|k: int|
                        0 <= k < i ==> out[k].0@ == members[k].name@ && json_document(out[k].1)
                            == normal_form(members[k].value@),
                decreases members.len() - i,
            {
                assert(decreases_to!(*j => j->Object_0[i as int].value));
                out.push((members[i].name.clone(), to_serde(&members[i].value)));
                i += 1;
            }
            assert(member_documents(out@) =~= normal_members(members_view(members@)));
            let r = serde_build(SerdeBuild::Object(out));
            assert(json_document(r) == normal_form(j@));
            r
        },
    }
}

/// `serde_json::Value`'s `to_string`: the compact JSON text of the value,
/// which is a function of what the value holds.
#[verifier::external_body]
pub(crate) fn serde_text(v: &serde_json::Value) -> (r: String)
    ensures
        r@ == json_text(json_document(*v)),
{
    v.to_string()
}

impl Clone for Member {
    /// A deep copy: the copy has the same name and the same model.
    fn clone(&self) -> (r: Member)
        ensures
            r.name@ == self.name@,
            r.value@ == self.value@,
    {
        Member { name: self.name.clone(), value: self.value.clone() }
    }
}

impl Clone for Json {
    /// A deep copy: the copy has the same model.
    fn clone(&self) -> (r: Json)
        ensures
            r@ == self@,
        decreases self,
    {
        match self {
            Json::Null => Json::Null,
            Json::Bool(b) => Json::Bool(*b),
            Json::Number(n) => Json::Number(n.clone()),
            Json::Str(s) => Json::Str(s.clone()),
            Json::Array(items) => {
                let mut out: Vec<Json> = Vec::new();
                let mut i: usize = 0;
                while i < items.len()
                    invariant
                        *self == Json::Array(*items),
                        i <= items.len(),
                        out.len() == i,
                        forall|k: int| 0 <= k < i ==> out[k]@ == items[k]@,
                    decreases items.len() - i,
                {
                    assert(decreases_to!(*self => self->Array_0[i as int]));
                    out.push(items[i].clone());
                    i += 1;
                }
                proof {
                    lemma_array_view(out);
                    lemma_array_view(*items);
                    assert(items_view(out@) =~= items_view(items@));
                }
                Json::Array(out)
            },
            Json::Object(members) => {
                let mut out: Vec<Member> = Vec::new();
                let mut i: usize = 0;
                while i < members.len()
                    invariant
                        *self == Json::Object(*members),
                        i <= members.len(),
                        out.len() == i,
                        forall|k: int|
                            0 <= k < i ==> out[k].name@ == members[k].name@ && out[k].value@
                                == members[k].value@,
                    decreases members.len() - i,
                {
                    assert(decreases_to!(*self => self->Object_0[i as int].value));
                    out.push(Member { name: members[i].name.clone(), value: members[i].value.clone() });
                    i += 1;
                }
                proof {
                    lemma_object_view(out);
                    lemma_object_view(*members);
                    assert(members_view(out@) =~= members_view(members@));
                }
                Json::Object(out)
            },
        }
    }
}

/// Deep copies of `items`, in order.
pub fn clone_items(items: &Vec<Json>) -> (r: Vec<Json>)
    ensures
        items_view(r@) == items_view(items@),
{
    let mut out: Vec<Json> = Vec::new();
    let mut i: usize = 0;
    while i < items.len()
        invariant
            i <= items.len(),
            out.len() == i,
            forall|k: int| 0 <= k < i ==> out[k]@ == items[k]@,
        decreases items.len() - i,
    {
        out.push(items[i].clone());
        i += 1;
    }
    assert(items_view(out@) =~= items_view(items@));
    out
}

} // verus!
