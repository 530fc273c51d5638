//! JSON values.
use vstd::prelude::*;

use crate::text::str_eq;

verus! {

/// A JSON value.
#[derive(Debug)]
pub enum Json {
    Null,
    Bool(bool),
    /// An integer that is not negative.
    UInt(u64),
    /// A negative integer.
    Int(i64),
    /// Any other number, as it is written.
    Decimal(String),
    Str(String),
    Array(Vec<Json>),
    Object(Vec<(String, Json)>),
}

/// The model of a [`Json`] value.
pub enum JsonView {
    Null,
    Bool(bool),
    UInt(u64),
    Int(i64),
    Decimal(Seq<char>),
    Str(Seq<char>),
    Array(Seq<JsonView>),
    Object(Seq<(Seq<char>, JsonView)>),
}

/// The model of a JSON value.
pub open spec fn json_view(j: Json) -> JsonView
    decreases j,
{
    match j {
        Json::Null => JsonView::Null,
        Json::Bool(b) => JsonView::Bool(b),
        Json::UInt(n) => JsonView::UInt(n),
        Json::Int(n) => JsonView::Int(n),
        Json::Decimal(s) => JsonView::Decimal(s@),
        Json::Str(s) => JsonView::Str(s@),
        Json::Array(v) => JsonView::Array(
            Seq::new(
                v@.len(),
                |i: int|
                    if 0 <= i < v@.len() {
                        json_view(v@[i])
                    } else {
                        JsonView::Null
                    },
            ),
        ),
        Json::Object(v) => JsonView::Object(
            Seq::new(
                v@.len(),
                |i: int|
                    if 0 <= i < v@.len() {
                        (v@[i].0@, json_view(v@[i].1))
                    } else {
                        (Seq::empty(), JsonView::Null)
                    },
            ),
        ),
    }
}

impl View for Json {
    type V = JsonView;

    open spec fn view(&self) -> JsonView {
        json_view(*self)
    }
}

/// The value of the first field of that name.
pub open spec fn field_of(fields: Seq<(Seq<char>, JsonView)>, key: Seq<char>) -> Option<JsonView>
    decreases fields.len(),
{
    if fields.len() == 0 {
        None
    } else if fields.first().0 == key {
        Some(fields.first().1)
    } else {
        field_of(fields.drop_first(), key)
    }
}

/// The JSON value of an integer.
pub open spec fn integer(n: int) -> JsonView {
    if n >= 0 {
        JsonView::UInt(n as u64)
    } else {
        JsonView::Int(n as i64)
    }
}

impl JsonView {
    /// The value of a field; nothing where the value is no object or lacks the field.
    pub open spec fn field(self, key: Seq<char>) -> Option<JsonView> {
        match self {
            JsonView::Object(fields) => field_of(fields, key),
            _ => None,
        }
    }

    /// The text, where the value is one.
    pub open spec fn text(self) -> Option<Seq<char>> {
        match self {
            JsonView::Str(s) => Some(s),
            _ => None,
        }
    }

    /// The number, where the value is an integer that is not negative.
    pub open spec fn number(self) -> Option<u64> {
        match self {
            JsonView::UInt(n) => Some(n),
            _ => None,
        }
    }

    /// The text of a field; nothing where there is no such field, or it is no text.
    pub open spec fn text_field(self, key: Seq<char>) -> Option<Seq<char>> {
        match self.field(key) {
            Some(v) => v.text(),
            None => None,
        }
    }

    /// The number in a field; nothing where there is no such field, or it is no integer from zero
    /// on.
    pub open spec fn number_field(self, key: Seq<char>) -> Option<u64> {
        match self.field(key) {
            Some(v) => v.number(),
            None => None,
        }
    }
}

impl Json {
    /// The value of a field; nothing where the value is no object or lacks the field.
    pub fn get(&self, key: &str) -> (r: Option<&Json>)
        ensures
            match r {
                Some(v) => self@.field(key@) == Some(v@),
                None => self@.field(key@) is None,
            },
    {
        match self {
            Json::Object(fields) => {
                let n: usize = fields.len();
                let mut i: usize = 0;
                let ghost all = self@->Object_0;
                assert(all.skip(0) =~= all);
                while i < n
                    invariant
                        i <= n,
                        n == fields@.len(),
                        n == all.len(),
                        self@ == JsonView::Object(all),
                        forall|k: int|
                            0 <= k < n ==> #[trigger] all[k] == (fields@[k].0@, fields@[k].1@),
                        field_of(all, key@) == field_of(all.skip(i as int), key@),
                    decreases n - i,
                {
                    assert(all.skip(i as int).first() == all[i as int]);
                    assert(all.skip(i as int).drop_first() =~= all.skip(i + 1));
                    if str_eq(fields[i].0.as_str(), key) {
                        return Some(&fields[i].1);
                    }
                    i = i + 1;
                }
                None
            },
            _ => None,
        }
    }

    /// The text, where the value is one.
    pub fn as_str(&self) -> (r: Option<&str>)
        ensures
            match r {
                Some(s) => self@.text() == Some(s@),
                None => self@.text() is None,
            },
    {
        match self {
            Json::Str(s) => Some(s.as_str()),
            _ => None,
        }
    }

    /// The number, where the value is an integer that is not negative.
    pub fn as_u64(&self) -> (r: Option<u64>)
        ensures
            r == self@.number(),
    {
        match self {
            Json::UInt(n) => Some(*n),
            _ => None,
        }
    }

    /// The text of a field; nothing where there is no such field, or it is no text.
    pub fn get_str(&self, key: &str) -> (r: Option<&str>)
        ensures
            match r {
                Some(s) => self@.text_field(key@) == Some(s@),
                None => self@.text_field(key@) is None,
            },
    {
        match self.get(key) {
            Some(v) => v.as_str(),
            None => None,
        }
    }

    /// The number in a field; nothing where there is no such field, or it is no integer from zero
    /// on.
    pub fn get_u64(&self, key: &str) -> (r: Option<u64>)
        ensures
            r == self@.number_field(key@),
    {
        match self.get(key) {
            Some(v) => v.as_u64(),
            None => None,
        }
    }

    /// The same value once more.
    pub fn copy(&self) -> (r: Json)
        ensures
            r@ == self@,
        decreases self,
    {
        match self {
            Json::Null => Json::Null,
            Json::Bool(b) => Json::Bool(*b),
            Json::UInt(n) => Json::UInt(*n),
            Json::Int(n) => Json::Int(*n),
            Json::Decimal(s) => Json::Decimal(s.clone()),
            Json::Str(s) => Json::Str(s.clone()),
            Json::Array(v) => {
                let n: usize = v.len();
                let mut items: Vec<Json> = Vec::new();
                let mut i: usize = 0;
                while i < n
                    invariant
                        i <= n,
                        n == v@.len(),
                        *self == Json::Array(*v),
                        items@.len() == i,
                        forall|k: int| 0 <= k < i ==> (#[trigger] items@[k])@ == v@[k]@,
                    decreases n - i,
                {
                    assert(decreases_to!(*self => self->Array_0));
                    assert(decreases_to!(*v => v@));
                    assert(decreases_to!(v@ => v@[i as int]));
                    items.push(v[i].copy());
                    i = i + 1;
                }
                let r: Json = Json::Array(items);
                assert(r@->Array_0 =~= self@->Array_0);
                r
            },
            Json::Object(v) => {
                let n: usize = v.len();
                let mut fields: Vec<(String, Json)> = Vec::new();
                let mut i: usize = 0;
                while i < n
                    invariant
                        i <= n,
                        n == v@.len(),
                        *self == Json::Object(*v),
                        fields@.len() == i,
                        forall|k: int|
                            0 <= k < i ==> (#[trigger] fields@[k]).0@ == v@[k].0@ && fields@[k].1@
                                == v@[k].1@,
                    decreases n - i,
                {
                    assert(decreases_to!(*self => self->Object_0));
                    assert(decreases_to!(*v => v@));
                    assert(decreases_to!(v@ => v@[i as int]));
                    assert(decreases_to!(v@[i as int] => v@[i as int].1));
                    fields.push((v[i].0.clone(), v[i].1.copy()));
                    i = i + 1;
                }
                let r: Json = Json::Object(fields);
                assert(r@->Object_0 =~= self@->Object_0);
                r
            },
        }
    }

    /// An integer.
    pub fn from_int(n: i64) -> (r: Json)
        ensures
            r@ == integer(n as int),
    {
        if n >= 0 {
            Json::UInt(n as u64)
        } else {
            Json::Int(n)
        }
    }

    /// A text.
    pub fn from_text(s: &str) -> (r: Json)
        ensures
            r@ == JsonView::Str(s@),
    {
        Json::Str(s.to_owned())
    }

    /// An object without fields.
    pub fn object0() -> (r: Json)
        ensures
            r@ == JsonView::Object(Seq::empty()),
    {
        let fields: Vec<(String, Json)> = Vec::new();
        let r: Json = Json::Object(fields);
        assert(r@->Object_0 =~= Seq::<(Seq<char>, JsonView)>::empty());
        r
    }

    /// An object with one field.
    pub fn object1(k0: &str, v0: Json) -> (r: Json)
        ensures
            r@ == JsonView::Object(seq![(k0@, v0@)]),
    {
        let mut fields: Vec<(String, Json)> = Vec::new();
        fields.push((k0.to_owned(), v0));
        let r: Json = Json::Object(fields);
        assert(r@->Object_0 =~= seq![(k0@, v0@)]);
        r
    }

    /// An object with two fields.
    pub fn object2(k0: &str, v0: Json, k1: &str, v1: Json) -> (r: Json)
        ensures
            r@ == JsonView::Object(seq![(k0@, v0@), (k1@, v1@)]),
    {
        let mut fields: Vec<(String, Json)> = Vec::new();
        fields.push((k0.to_owned(), v0));
        fields.push((k1.to_owned(), v1));
        let r: Json = Json::Object(fields);
        assert(r@->Object_0 =~= seq![(k0@, v0@), (k1@, v1@)]);
        r
    }

    /// An object with three fields.
    pub fn object3(k0: &str, v0: Json, k1: &str, v1: Json, k2: &str, v2: Json) -> (r: Json)
        ensures
            r@ == JsonView::Object(seq![(k0@, v0@), (k1@, v1@), (k2@, v2@)]),
    {
        let mut fields: Vec<(String, Json)> = Vec::new();
        fields.push((k0.to_owned(), v0));
        fields.push((k1.to_owned(), v1));
        fields.push((k2.to_owned(), v2));
        let r: Json = Json::Object(fields);
        assert(r@->Object_0 =~= seq![(k0@, v0@), (k1@, v1@), (k2@, v2@)]);
        r
    }

    /// An array of one value.
    pub fn array1(v0: Json) -> (r: Json)
        ensures
            r@ == JsonView::Array(seq![v0@]),
    {
        let mut items: Vec<Json> = Vec::new();
        items.push(v0);
        let r: Json = Json::Array(items);
        assert(r@->Array_0 =~= seq![v0@]);
        r
    }

    /// An array of two values.
    pub fn array2(v0: Json, v1: Json) -> (r: Json)
        ensures
            r@ == JsonView::Array(seq![v0@, v1@]),
    {
        let mut items: Vec<Json> = Vec::new();
        items.push(v0);
        items.push(v1);
        let r: Json = Json::Array(items);
        assert(r@->Array_0 =~= seq![v0@, v1@]);
        r
    }
}

/// A field is found by its name: its value is that of the first field of an object with this name,
/// and there is none where no field has it. What is no object has no fields.
pub proof fn law_fields_are_found_by_name(
    fields: Seq<(Seq<char>, JsonView)>,
    key: Seq<char>,
    i: int,
)
    ensures
        0 <= i < fields.len() && fields[i].0 == key && (forall|j: int|
            0 <= j < i ==> (#[trigger] fields[j]).0 != key) ==> JsonView::Object(fields).field(key)
            == Some(fields[i].1),
        (forall|j: int| 0 <= j < fields.len() ==> (#[trigger] fields[j]).0 != key)
            ==> JsonView::Object(fields).field(key) is None,
    decreases fields.len(),
{
    if fields.len() > 0 && fields.first().0 != key {
        let rest = fields.drop_first();
        law_fields_are_found_by_name(rest, key, i - 1);
        if 0 <= i < fields.len() && fields[i].0 == key && (forall|j: int|
            0 <= j < i ==> (#[trigger] fields[j]).0 != key) {
            assert(i > 0);
            assert(rest[i - 1] == fields[i]);
            assert forall|j: int| 0 <= j < i - 1 implies (#[trigger] rest[j]).0 != key by {
                assert(rest[j] == fields[j + 1]);
            }
        }
        if forall|j: int| 0 <= j < fields.len() ==> (#[trigger] fields[j]).0 != key {
            assert forall|j: int| 0 <= j < rest.len() implies (#[trigger] rest[j]).0 != key by {
                assert(rest[j] == fields[j + 1]);
            }
        }
    } else if fields.len() > 0 {
        assert(fields[0].0 == key);
        if i > 0 && (forall|j: int| 0 <= j < i ==> (#[trigger] fields[j]).0 != key) {
            assert(fields[0].0 != key);
        }
    }
}

/// A text is read as it is and nothing else is read as one; a number is read as it is, and nothing
/// but an integer that is not negative is read as one; and only an object has fields.
pub proof fn law_values_are_read_as_they_are(j: JsonView, s: Seq<char>, n: u64, key: Seq<char>)
    ensures
        j.text() == Some(s) <==> j == JsonView::Str(s),
        j.number() == Some(n) <==> j == JsonView::UInt(n),
        j.text() is Some <==> j is Str,
        j.number() is Some <==> j is UInt,
        j !is Object ==> j.field(key) is None,
        j.text_field(key) == Some(s) <==> j.field(key) == Some(JsonView::Str(s)),
        j.number_field(key) == Some(n) <==> j.field(key) == Some(JsonView::UInt(n)),
{
}

/// An integer is written as itself, below zero and from zero on.
pub proof fn law_integers_are_written_as_they_are(n: i64)
    ensures
        n >= 0 ==> integer(n as int) == JsonView::UInt(n as u64),
        n < 0 ==> integer(n as int) == JsonView::Int(n),
{
}

/// The model of a value has all that the value has: what is in an array or an object in its order,
/// and everything else as it is.
pub proof fn law_models_have_all_of_a_value(
    b: bool,
    n: u64,
    m: i64,
    s: String,
    items: Vec<Json>,
    fields: Vec<(String, Json)>,
)
    ensures
        Json::Null@ == JsonView::Null,
        Json::Bool(b)@ == JsonView::Bool(b),
        Json::UInt(n)@ == JsonView::UInt(n),
        Json::Int(m)@ == JsonView::Int(m),
        Json::Decimal(s)@ == JsonView::Decimal(s@),
        Json::Str(s)@ == JsonView::Str(s@),
        Json::Array(items)@ == JsonView::Array(items@.map_values(|item: Json| item@)),
        Json::Object(fields)@ == JsonView::Object(
            fields@.map_values(|field: (String, Json)| (field.0@, field.1@)),
        ),
{
    assert(Json::Array(items)@->Array_0 =~= items@.map_values(|item: Json| item@));
    assert(Json::Object(fields)@->Object_0 =~= fields@.map_values(
        |field: (String, Json)| (field.0@, field.1@),
    ));
}

} // verus!
