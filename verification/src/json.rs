//! JSON values.

use vstd::prelude::*;
use vstd::string::*;

verus! {

/// A JSON value. A number is either a `u64` or given by its literal, and the
/// fields of an object are kept in order.
#[derive(Debug, PartialEq, Eq)]
pub enum Json {
    Null,
    Bool(bool),
    UInt(u64),
    Number(String),
    Str(String),
    Array(Vec<Json>),
    Object(Vec<JsonField>),
}

/// A field of a JSON object.
#[derive(Debug, PartialEq, Eq)]
pub struct JsonField {
    pub name: String,
    pub value: Json,
}

/// What a `Json` says.
pub enum JsonView {
    Null,
    Bool(bool),
    UInt(u64),
    Number(Seq<char>),
    Str(Seq<char>),
    Array(Seq<JsonView>),
    Object(Seq<(Seq<char>, JsonView)>),
}

impl View for Json {
    type V = JsonView;

    open spec fn view(&self) -> JsonView {
        json_view(*self)
    }
}

/// What `j` says.
pub open spec fn json_view(j: Json) -> JsonView
    decreases j,
{
    match j {
        Json::Null => JsonView::Null,
        Json::Bool(b) => JsonView::Bool(b),
        Json::UInt(n) => JsonView::UInt(n),
        Json::Number(s) => JsonView::Number(s@),
        Json::Str(s) => JsonView::Str(s@),
        Json::Array(items) => JsonView::Array(
            Seq::new(
                items@.len(),
                |i: int|
                    if 0 <= i < items@.len() {
                        json_view(items@[i])
                    } else {
                        JsonView::Null
                    },
            ),
        ),
        Json::Object(fields) => JsonView::Object(
            Seq::new(
                fields@.len(),
                |i: int|
                    if 0 <= i < fields@.len() {
                        (fields@[i].name@, json_view(fields@[i].value))
                    } else {
                        (Seq::empty(), JsonView::Null)
                    },
            ),
        ),
    }
}

impl Clone for Json {
    fn clone(&self) -> (r: Json)
        ensures
            r@ == self@,
        decreases self,
    {
        match self {
            Json::Null => Json::Null,
            Json::Bool(b) => Json::Bool(*b),
            Json::UInt(n) => Json::UInt(*n),
            Json::Number(s) => Json::Number(s.clone()),
            Json::Str(s) => Json::Str(s.clone()),
            Json::Array(items) => {
                let mut copy: Vec<Json> = Vec::new();
                let n: usize = items.len();
                let mut i: usize = 0;
                while i < n
                    invariant
                        *self == Json::Array(*items),
                        n == items@.len(),
                        i <= n,
                        copy@.len() == i,
                        forall|j: int| 0 <= j < i ==> (#[trigger] copy@[j])@ == items@[j]@,
                    decreases n - i,
                {
                    assert(decreases_to!(*self => self->Array_0));
                    assert(decreases_to!(items@ => items@[i as int]));
                    copy.push(items[i].clone());
                    i += 1;
                }
                let r: Json = Json::Array(copy);
                assert(r@->Array_0 =~= self@->Array_0);
                r
            },
            Json::Object(fields) => {
                let mut copy: Vec<JsonField> = Vec::new();
                let n: usize = fields.len();
                let mut i: usize = 0;
                while i < n
                    invariant
                        *self == Json::Object(*fields),
                        n == fields@.len(),
                        i <= n,
                        copy@.len() == i,
                        forall|j: int|
                            0 <= j < i ==> (#[trigger] copy@[j]).name@ == fields@[j].name@
                                && copy@[j].value@ == fields@[j].value@,
                    decreases n - i,
                {
                    assert(decreases_to!(*self => self->Object_0));
                    assert(decreases_to!(fields@ => fields@[i as int]));
                    copy.push(
                        JsonField { name: fields[i].name.clone(), value: fields[i].value.clone() },
                    );
                    i += 1;
                }
                let r: Json = Json::Object(copy);
                assert(r@->Object_0 =~= self@->Object_0);
                r
            },
        }
    }
}

/// A JSON string.
pub fn string(s: &str) -> (r: Json)
    ensures
        r@ == JsonView::Str(s@),
{
    Json::Str(s.to_owned())
}

/// A field of a JSON object.
pub fn field(name: &str, value: Json) -> (r: JsonField)
    ensures
        r.name@ == name@,
        r.value == value,
{
    JsonField { name: name.to_owned(), value }
}

/// What the fields of a JSON object say.
pub open spec fn fields_view(fields: Seq<JsonField>) -> Seq<(Seq<char>, JsonView)> {
    Seq::new(fields.len(), |i: int| (fields[i].name@, fields[i].value@))
}

/// A JSON object.
pub fn object(fields: Vec<JsonField>) -> (r: Json)
    ensures
        r@ == JsonView::Object(fields_view(fields@)),
{
    let r: Json = Json::Object(fields);
    assert(r@->Object_0 =~= fields_view(fields@));
    r
}

/// A JSON array.
pub fn array(items: Vec<Json>) -> (r: Json)
    ensures
        r@ == JsonView::Array(Seq::new(items@.len(), |i: int| items@[i]@)),
{
    let r: Json = Json::Array(items);
    assert(r@->Array_0 =~= Seq::new(items@.len(), |i: int| items@[i]@));
    r
}

/// A JSON value says what it is made of: an array its items and an object its
/// fields, each in order and none else, and any other value itself.
pub proof fn law_json_view(j: Json)
    ensures
        j is Null ==> j@ == JsonView::Null,
        j matches Json::Bool(b) ==> j@ == JsonView::Bool(b),
        j matches Json::UInt(n) ==> j@ == JsonView::UInt(n),
        j matches Json::Number(s) ==> j@ == JsonView::Number(s@),
        j matches Json::Str(s) ==> j@ == JsonView::Str(s@),
        j matches Json::Array(items) ==> (j@ is Array && j@->Array_0.len() == items@.len()
            && forall|i: int|
            0 <= i < items@.len() ==> #[trigger] j@->Array_0[i] == items@[i]@),
        j matches Json::Object(fields) ==> (j@ is Object && j@->Object_0.len() == fields@.len()
            && forall|i: int|
            0 <= i < fields@.len() ==> #[trigger] j@->Object_0[i] == (
                fields@[i].name@,
                fields@[i].value@,
            )),
        j matches Json::Object(fields) ==> fields_view(fields@) == j@->Object_0,
{
    if let Json::Object(fields) = j {
        assert(fields_view(fields@) =~= j@->Object_0);
    }
}

} // verus!
