//! JSON values.

use vstd::prelude::*;

use crate::text::same_str;

verus! {

/// A JSON value. A name that an object lists twice stands for the value listed last.
#[derive(Debug)]
pub enum Json {
    Null,
    Bool(bool),
    Number(serde_json::Number),
    Str(String),
    Array(Vec<Json>),
    Object(Vec<(String, Json)>),
}

/// What a JSON value is: objects are maps, so the order of their names is immaterial.
#[verifier::ext_equal]
pub enum JsonView {
    Null,
    Bool(bool),
    Number(serde_json::Number),
    Str(Seq<char>),
    Array(Seq<JsonView>),
    Object(Map<Seq<char>, JsonView>),
}

/// The declaration of `serde_json::Number`.
#[verifier::external_type_specification]
#[verifier::external_body]
pub struct ExNumber(serde_json::Number);

impl View for Json {
    type V = JsonView;

    open spec fn view(&self) -> JsonView
        decreases self,
    {
        match self {
            Json::Null => JsonView::Null,
            Json::Bool(b) => JsonView::Bool(*b),
            Json::Number(n) => JsonView::Number(*n),
            Json::Str(s) => JsonView::Str(s@),
            Json::Array(items) => JsonView::Array(array_view(items@)),
            Json::Object(fields) => JsonView::Object(object_view(fields@)),
        }
    }
}

/// The elements of an array, each taken by its view.
pub open spec fn array_view(items: Seq<Json>) -> Seq<JsonView>
    decreases items,
{
    Seq::new(
        items.len(),
        |i: int|
            if 0 <= i < items.len() {
                items[i]@
            } else {
                JsonView::Null
            },
    )
}

/// The members of an object: a later one takes the place of an earlier one of the same name.
pub open spec fn object_view(fields: Seq<(String, Json)>) -> Map<Seq<char>, JsonView>
    decreases fields,
{
    if fields.len() == 0 {
        Map::empty()
    } else {
        object_view(fields.subrange(0, fields.len() - 1)).insert(
            fields[fields.len() - 1].0@,
            fields[fields.len() - 1].1@,
        )
    }
}

/// The whole number, if it is one from 0 to `u64::MAX`, that a JSON number is.
pub uninterp spec fn number_as_u64(n: serde_json::Number) -> Option<u64>;

/// `serde_json::Number::as_u64`: the number as a `u64` where it is an integer in that range,
/// and nothing otherwise.
pub assume_specification[ serde_json::Number::as_u64 ](n: &serde_json::Number) -> (r: Option<u64>)
    ensures
        r == number_as_u64(*n),
;

/// The whole number, if it is one from `i64::MIN` to `i64::MAX`, that a JSON number is.
pub uninterp spec fn number_as_i64(n: serde_json::Number) -> Option<i64>;

/// `serde_json::Number::as_i64`: the number as an `i64` where it is an integer in that range,
/// and nothing otherwise.
pub assume_specification[ serde_json::Number::as_i64 ](n: &serde_json::Number) -> (r: Option<i64>)
    ensures
        r == number_as_i64(*n),
;

/// The JSON number made of a whole number.
pub uninterp spec fn number_from(n: u64) -> serde_json::Number;

/// `From<u64>` of `serde_json::Number`: one number for each `n`, which `as_u64` gives back.
#[verifier::external_body]
fn number_from_u64(n: u64) -> (r: serde_json::Number)
    ensures
        r == number_from(n),
        number_as_u64(r) == Some(n),
{
    serde_json::Number::from(n)
}

impl JsonView {
    /// The member of that name, where this is an object that has it.
    pub open spec fn get(self, key: Seq<char>) -> Option<JsonView> {
        match self {
            JsonView::Object(m) => if m.contains_key(key) {
                Some(m[key])
            } else {
                None
            },
            _ => None,
        }
    }

    /// The member of that name, or `Null`.
    pub open spec fn at(self, key: Seq<char>) -> JsonView {
        match self.get(key) {
            Some(v) => v,
            None => JsonView::Null,
        }
    }

    /// The text, where this is one.
    pub open spec fn as_str(self) -> Option<Seq<char>> {
        match self {
            JsonView::Str(s) => Some(s),
            _ => None,
        }
    }

    /// The elements, where this is an array.
    pub open spec fn as_array(self) -> Option<Seq<JsonView>> {
        match self {
            JsonView::Array(items) => Some(items),
            _ => None,
        }
    }

    /// The number, where this is one from 0 to `u64::MAX`.
    pub open spec fn as_u64(self) -> Option<u64> {
        match self {
            JsonView::Number(n) => number_as_u64(n),
            _ => None,
        }
    }

    /// The number, where this is one from `i64::MIN` to `i64::MAX`.
    pub open spec fn as_i64(self) -> Option<i64> {
        match self {
            JsonView::Number(n) => number_as_i64(n),
            _ => None,
        }
    }

    /// The member of that name, where it is a text that is not empty.
    pub open spec fn str_field(self, key: Seq<char>) -> Option<Seq<char>> {
        match self.at(key).as_str() {
            Some(s) => if s.len() == 0 {
                None
            } else {
                Some(s)
            },
            None => None,
        }
    }

    /// The member of that name, where it is a number from 0 to `u64::MAX`.
    pub open spec fn u64_field(self, key: Seq<char>) -> Option<u64> {
        self.at(key).as_u64()
    }
}

/// The `i`th of `fields` is the last one named `key`.
pub open spec fn last_named(fields: Seq<(String, Json)>, key: Seq<char>, i: int) -> bool {
    &&& 0 <= i < fields.len()
    &&& fields[i].0@ == key
    &&& forall|j: int| i < j < fields.len() ==> (#[trigger] fields[j]).0@ != key
}

/// An object's member is the one listed last under that name.
pub proof fn lemma_object_last(fields: Seq<(String, Json)>, key: Seq<char>, i: int)
    requires
        last_named(fields, key, i),
    ensures
        object_view(fields).contains_key(key),
        object_view(fields)[key] == fields[i].1@,
    decreases fields.len(),
{
    reveal_with_fuel(object_view, 2);
    let rest = fields.subrange(0, fields.len() - 1);
    if i < fields.len() - 1 {
        assert(fields[fields.len() - 1].0@ != key);
        assert(last_named(rest, key, i));
        lemma_object_last(rest, key, i);
    }
}

/// An object has no member of a name that it does not list.
pub proof fn lemma_object_absent(fields: Seq<(String, Json)>, key: Seq<char>)
    requires
        forall|j: int| 0 <= j < fields.len() ==> (#[trigger] fields[j]).0@ != key,
    ensures
        !object_view(fields).contains_key(key),
    decreases fields.len(),
{
    reveal_with_fuel(object_view, 2);
    if fields.len() > 0 {
        let rest = fields.subrange(0, fields.len() - 1);
        assert forall|j: int| 0 <= j < rest.len() implies (#[trigger] rest[j]).0@ != key by {
            assert(rest[j] == fields[j]);
        }
        lemma_object_absent(rest, key);
    }
}

/// Listing one more member inserts it.
pub proof fn lemma_object_push(fields: Seq<(String, Json)>, field: (String, Json))
    ensures
        object_view(fields.push(field)) == object_view(fields).insert(field.0@, field.1@),
{
    reveal_with_fuel(object_view, 2);
    assert(fields.push(field).subrange(0, fields.len() as int) == fields);
}

/// The position of the member listed last under a name.
pub fn last_position(fields: &Vec<(String, Json)>, key: &str) -> (r: Option<usize>)
    ensures
        match r {
            Some(i) => {
                &&& last_named(fields@, key@, i as int)
                &&& object_view(fields@).contains_key(key@)
                &&& object_view(fields@)[key@] == fields@[i as int].1@
            },
            None => !object_view(fields@).contains_key(key@),
        },
{
    let mut i: usize = fields.len();
    while i > 0
        invariant
            i <= fields@.len(),
            forall|j: int| i <= j < fields@.len() ==> (#[trigger] fields@[j]).0@ != key@,
        decreases i,
    {
        i = i - 1;
        if same_str(fields[i].0.as_str(), key) {
            proof {
                lemma_object_last(fields@, key@, i as int);
            }
            return Some(i);
        }
    }
    proof {
        lemma_object_absent(fields@, key@);
    }
    None
}

impl Json {
    /// The member of that name, where this is an object that has it.
    pub fn get(&self, key: &str) -> (r: Option<&Json>)
        ensures
            match r {
                Some(v) => self@.get(key@) == Some(v@),
                None => self@.get(key@) is None,
            },
    {
        match self {
            Json::Object(fields) => match last_position(fields, key) {
                Some(i) => Some(&fields[i].1),
                None => None,
            },
            _ => None,
        }
    }

    /// The text, where this is one.
    pub fn as_str(&self) -> (r: Option<&str>)
        ensures
            match r {
                Some(s) => self@.as_str() == Some(s@),
                None => self@.as_str() is None,
            },
    {
        match self {
            Json::Str(s) => Some(s.as_str()),
            _ => None,
        }
    }

    /// The number, where this is one from 0 to `u64::MAX`.
    pub fn as_u64(&self) -> (r: Option<u64>)
        ensures
            r == self@.as_u64(),
    {
        match self {
            Json::Number(n) => n.as_u64(),
            _ => None,
        }
    }

    /// The number, where this is one from `i64::MIN` to `i64::MAX`.
    pub fn as_i64(&self) -> (r: Option<i64>)
        ensures
            r == self@.as_i64(),
    {
        match self {
            Json::Number(n) => n.as_i64(),
            _ => None,
        }
    }

    /// The elements, where this is an array.
    pub fn as_array(&self) -> (r: Option<&Vec<Json>>)
        ensures
            match r {
                Some(items) => self@.as_array() == Some(array_view(items@)),
                None => self@.as_array() is None,
            },
    {
        match self {
            Json::Array(items) => Some(items),
            _ => None,
        }
    }

    /// The number `n`.
    pub fn from_u64(n: u64) -> (r: Json)
        ensures
            r@ == JsonView::Number(number_from(n)),
            r@.as_u64() == Some(n),
    {
        Json::Number(number_from_u64(n))
    }

    /// The text `s`.
    pub fn from_str(s: &str) -> (r: Json)
        ensures
            r@ == JsonView::Str(s@),
    {
        Json::Str(s.to_owned())
    }
}

/// An array shows its elements one for one.
pub proof fn lemma_array_view(items: Seq<Json>)
    ensures
        array_view(items).len() == items.len(),
        forall|i: int| 0 <= i < items.len() ==> #[trigger] array_view(items)[i] == items[i]@,
{
    reveal_with_fuel(array_view, 2);
}

/// One more element shows as one more element.
pub proof fn lemma_array_push(items: Seq<Json>, item: Json)
    ensures
        array_view(items.push(item)) == array_view(items).push(item@),
{
    lemma_array_view(items);
    lemma_array_view(items.push(item));
    assert(array_view(items.push(item)) =~= array_view(items).push(item@));
}

/// Taking the member listed last under a name out of the list touches no other name.
proof fn lemma_object_remove(fields: Seq<(String, Json)>, key: Seq<char>, i: int)
    requires
        last_named(fields, key, i),
    ensures
        object_view(fields.remove(i)).remove(key) == object_view(fields).remove(key),
    decreases fields.len(),
{
    reveal_with_fuel(object_view, 2);
    let rest = fields.subrange(0, fields.len() - 1);
    let less = fields.remove(i);
    if i == fields.len() - 1 {
        assert(less == rest);
        assert(object_view(less).remove(key) =~= object_view(fields).remove(key));
    } else {
        let last = fields[fields.len() - 1];
        assert(last.0@ != key);
        assert(last_named(rest, key, i));
        lemma_object_remove(rest, key, i);
        assert(less.subrange(0, less.len() - 1) == rest.remove(i));
        assert(less[less.len() - 1] == last);
        assert(object_view(less) == object_view(rest.remove(i)).insert(last.0@, last.1@));
        assert(object_view(fields) == object_view(rest).insert(last.0@, last.1@));
        assert(object_view(less).remove(key) =~= object_view(rest.remove(i)).remove(key).insert(
            last.0@,
            last.1@,
        ));
        assert(object_view(fields).remove(key) =~= object_view(rest).remove(key).insert(
            last.0@,
            last.1@,
        ));
    }
}

/// Takes out the member of that name.
pub fn take_member(fields: &mut Vec<(String, Json)>, key: &str) -> (r: Option<Json>)
    ensures
        match r {
            Some(v) => {
                &&& object_view(old(fields)@).contains_key(key@)
                &&& object_view(old(fields)@)[key@] == v@
            },
            None => !object_view(old(fields)@).contains_key(key@),
        },
        object_view(final(fields)@) == object_view(old(fields)@).remove(key@),
    decreases old(fields)@.len(),
{
    match last_position(fields, key) {
        Some(i) => {
            let (_, v) = fields.remove(i);
            proof {
                lemma_object_remove(old(fields)@, key@, i as int);
            }
            take_member(fields, key);
            Some(v)
        },
        None => {
            assert(object_view(fields@) =~= object_view(fields@).remove(key@));
            None
        },
    }
}

/// Lists one more member.
pub fn add_member(fields: &mut Vec<(String, Json)>, name: &str, value: Json)
    ensures
        object_view(final(fields)@) == object_view(old(fields)@).insert(name@, value@),
{
    let member = (name.to_owned(), value);
    proof {
        lemma_object_push(fields@, member);
    }
    fields.push(member);
}

/// The member of that name, where it is a text that is not empty.
pub fn str_field<'a>(v: &'a Json, key: &str) -> (r: Option<&'a str>)
    ensures
        match r {
            Some(s) => v@.str_field(key@) == Some(s@),
            None => v@.str_field(key@) is None,
        },
{
    match v.get(key) {
        Some(m) => match m.as_str() {
            Some(s) => if s.is_empty() {
                None
            } else {
                Some(s)
            },
            None => None,
        },
        None => None,
    }
}

/// The member of that name, where it is a number from 0 to `u64::MAX`.
pub fn u64_field(v: &Json, key: &str) -> (r: Option<u64>)
    ensures
        r == v@.u64_field(key@),
{
    match v.get(key) {
        Some(m) => m.as_u64(),
        None => None,
    }
}

} // verus!
