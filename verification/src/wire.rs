//! JSON text: reading it into `Json` and writing `Json` out, by way of `serde_json::Value`.

use vstd::prelude::*;

use crate::json::{
    array_view, lemma_array_push, lemma_object_push, number_as_i64, number_as_u64, object_view, Json, JsonView,
};
use crate::text::same_str;

verus! {

/// The declaration of `serde_json::Value`.
#[verifier::external_type_specification]
#[verifier::external_body]
pub struct ExValue(serde_json::Value);

/// What a `serde_json::Value` holds: the JSON value that it stands for.
pub uninterp spec fn value_holds(v: serde_json::Value) -> JsonView;

/// One level of a `serde_json::Value`.
pub enum Layer {
    Null,
    Bool(bool),
    Number(serde_json::Number),
    Str(String),
    Array(Vec<serde_json::Value>),
    Object(Vec<(String, serde_json::Value)>),
}

/// The JSON values that the elements stand for.
pub open spec fn elements_hold(items: Seq<serde_json::Value>) -> Seq<JsonView> {
    items.map_values(|v: serde_json::Value| value_holds(v))
}

/// The members, a later one in the place of an earlier one of the same name.
pub open spec fn members_hold(fields: Seq<(String, serde_json::Value)>) -> Map<
    Seq<char>,
    JsonView,
>
    decreases fields.len(),
{
    if fields.len() == 0 {
        Map::empty()
    } else {
        members_hold(fields.drop_last()).insert(fields.last().0@, value_holds(fields.last().1))
    }
}

/// No name is listed twice.
pub open spec fn distinct_names(fields: Seq<(String, serde_json::Value)>) -> bool {
    forall|i: int, j: int|
        0 <= i < j < fields.len() ==> (#[trigger] fields[i]).0@ != (#[trigger] fields[j]).0@
}

/// The JSON value that a layer stands for.
pub open spec fn layer_holds(layer: Layer) -> JsonView {
    match layer {
        Layer::Null => JsonView::Null,
        Layer::Bool(b) => JsonView::Bool(b),
        Layer::Number(n) => JsonView::Number(n),
        Layer::Str(s) => JsonView::Str(s@),
        Layer::Array(items) => JsonView::Array(elements_hold(items@)),
        Layer::Object(fields) => JsonView::Object(members_hold(fields@)),
    }
}

/// The variants of `serde_json::Value`, taken apart one level deep; the members of an object
/// come out through `IntoIterator` of `serde_json::Map`, each name once.
#[verifier::external_body]
fn unpack(v: serde_json::Value) -> (r: Layer)
    ensures
        value_holds(v) == layer_holds(r),
        r matches Layer::Object(fields) ==> distinct_names(fields@),
{
    match v {
        serde_json::Value::Null => Layer::Null,
        serde_json::Value::Bool(b) => Layer::Bool(b),
        serde_json::Value::Number(n) => Layer::Number(n),
        serde_json::Value::String(s) => Layer::Str(s),
        serde_json::Value::Array(items) => Layer::Array(items),
        serde_json::Value::Object(fields) => Layer::Object(fields.into_iter().collect()),
    }
}

/// The variants of `serde_json::Value`, put together from one level; the members of an object
/// go in through `FromIterator` of `serde_json::Map`, which keeps them all where no name comes
/// twice.
#[verifier::external_body]
fn pack(layer: Layer) -> (r: serde_json::Value)
    requires
        layer matches Layer::Object(fields) ==> distinct_names(fields@),
    ensures
        value_holds(r) == layer_holds(layer),
{
    match layer {
        Layer::Null => serde_json::Value::Null,
        Layer::Bool(b) => serde_json::Value::Bool(b),
        Layer::Number(n) => serde_json::Value::Number(n),
        Layer::Str(s) => serde_json::Value::String(s),
        Layer::Array(items) => serde_json::Value::Array(items),
        Layer::Object(fields) => serde_json::Value::Object(fields.into_iter().collect()),
    }
}

proof fn lemma_members_push(
    fields: Seq<(String, serde_json::Value)>,
    field: (String, serde_json::Value),
)
    ensures
        members_hold(fields.push(field)) == members_hold(fields).insert(
            field.0@,
            value_holds(field.1),
        ),
{
    assert(fields.push(field).drop_last() == fields);
}

proof fn lemma_member(fields: Seq<(String, serde_json::Value)>, i: int)
    requires
        distinct_names(fields),
        0 <= i < fields.len(),
    ensures
        members_hold(fields).dom().finite(),
        members_hold(fields).contains_key(fields[i].0@),
        members_hold(fields)[fields[i].0@] == value_holds(fields[i].1),
    decreases fields.len(),
{
    let rest = fields.drop_last();
    assert(members_hold(Seq::empty()).dom().finite());
    if rest.len() > 0 {
        assert(distinct_names(rest));
        lemma_member(rest, if i < rest.len() { i } else { 0 });
    } else {
        assert(rest == Seq::<(String, serde_json::Value)>::empty());
    }
}

proof fn lemma_members_update(
    fields: Seq<(String, serde_json::Value)>,
    i: int,
    field: (String, serde_json::Value),
)
    requires
        distinct_names(fields),
        0 <= i < fields.len(),
        fields[i].0@ == field.0@,
    ensures
        members_hold(fields.update(i, field)) == members_hold(fields).insert(
            field.0@,
            value_holds(field.1),
        ),
    decreases fields.len(),
{
    let rest = fields.drop_last();
    let changed = fields.update(i, field);
    if i == rest.len() {
        assert(changed.drop_last() =~= rest);
    } else {
        assert(distinct_names(rest));
        lemma_members_update(rest, i, field);
        assert(changed.drop_last() =~= rest.update(i, field));
        assert(fields[i].0@ != fields[fields.len() - 1].0@);
    }
    assert(members_hold(changed) =~= members_hold(fields).insert(field.0@, value_holds(field.1)));
}

/// Lists a member, in the place of one of the same name.
fn place_member(
    fields: &mut Vec<(String, serde_json::Value)>,
    name: String,
    value: serde_json::Value,
)
    requires
        distinct_names(old(fields)@),
    ensures
        distinct_names(final(fields)@),
        members_hold(final(fields)@) == members_hold(old(fields)@).insert(
            name@,
            value_holds(value),
        ),
{
    let mut i: usize = 0;
    while i < fields.len()
        invariant
            fields@ == old(fields)@,
            distinct_names(fields@),
            i <= fields@.len(),
            forall|k: int| 0 <= k < i ==> (#[trigger] fields@[k]).0@ != name@,
        decreases fields@.len() - i,
    {
        if same_str(fields[i].0.as_str(), name.as_str()) {
            proof {
                lemma_members_update(fields@, i as int, (name, value));
            }
            fields.set(i, (name, value));
            return;
        }
        i = i + 1;
    }
    proof {
        lemma_members_push(fields@, (name, value));
    }
    fields.push((name, value));
}

/// The library's own form of a `serde_json::Value`.
pub fn from_value(v: serde_json::Value) -> (r: Json)
    ensures
        r@ == value_holds(v),
    decreases value_holds(v),
{
    match unpack(v) {
        Layer::Null => Json::Null,
        Layer::Bool(b) => Json::Bool(b),
        Layer::Number(n) => Json::Number(n),
        Layer::Str(s) => Json::Str(s),
        Layer::Array(items) => {
            let mut out: Vec<Json> = Vec::new();
            let ghost all = items@;
            assert(array_view(out@) =~= elements_hold(all.take(0)));
            for item in it: items
                invariant
                    it.seq() == all,
                    value_holds(v) == JsonView::Array(elements_hold(all)),
                    array_view(out@) == elements_hold(all.take(it.index())),
            {
                proof {
                    assert(item == all[it.index()]);
                    assert(elements_hold(all)[it.index()] == value_holds(item));
                    assert(decreases_to!(value_holds(v) => value_holds(v)->Array_0));
                    assert(all.take(it.index() + 1) == all.take(it.index()).push(item));
                    assert(elements_hold(all.take(it.index() + 1)) =~= elements_hold(
                        all.take(it.index()),
                    ).push(value_holds(item)));
                }
                let ghost before = out@;
                let element = from_value(item);
                proof {
                    lemma_array_push(before, element);
                }
                out.push(element);
            }
            assert(all.take(all.len() as int) == all);
            Json::Array(out)
        },
        Layer::Object(fields) => {
            let mut out: Vec<(String, Json)> = Vec::new();
            let ghost all = fields@;
            for field in it: fields
                invariant
                    it.seq() == all,
                    distinct_names(all),
                    value_holds(v) == JsonView::Object(members_hold(all)),
                    object_view(out@) == members_hold(all.take(it.index())),
            {
                let ghost before = out@;
                let (name, member) = field;
                proof {
                    lemma_member(all, it.index());
                    assert(decreases_to!(value_holds(v) => value_holds(v)->Object_0));
                    assert(decreases_to!(members_hold(all) => members_hold(all)[name@]));
                }
                let value = from_value(member);
                proof {
                    assert(all.take(it.index() + 1) == all.take(it.index()).push(field));
                    lemma_members_push(all.take(it.index()), field);
                    lemma_object_push(before, (name, value));
                }
                out.push((name, value));
            }
            assert(all.take(all.len() as int) == all);
            Json::Object(out)
        },
    }
}

/// The `serde_json::Value` of a value of the library.
pub fn into_value(j: Json) -> (r: serde_json::Value)
    ensures
        value_holds(r) == j@,
    decreases j,
{
    match j {
        Json::Null => pack(Layer::Null),
        Json::Bool(b) => pack(Layer::Bool(b)),
        Json::Number(n) => pack(Layer::Number(n)),
        Json::Str(s) => pack(Layer::Str(s)),
        Json::Array(items) => {
            let mut out: Vec<serde_json::Value> = Vec::new();
            let ghost all = items@;
            assert(array_view(all.take(0)) =~= elements_hold(out@));
            for item in it: items
                invariant
                    it.seq() == all,
                    j matches Json::Array(a) && a@ == all,
                    elements_hold(out@) == array_view(all.take(it.index())),
            {
                let ghost before = out@;
                proof {
                    assert(item == all[it.index()]);
                    assert(decreases_to!(j => j->Array_0));
                    assert(decreases_to!(j->Array_0 => j->Array_0@));
                    assert(decreases_to!(j->Array_0@ => j->Array_0@[it.index()]));
                    assert(all.take(it.index() + 1) == all.take(it.index()).push(item));
                    lemma_array_push(all.take(it.index()), item);
                }
                let element = into_value(item);
                assert(elements_hold(before.push(element)) =~= elements_hold(before).push(
                    value_holds(element),
                ));
                out.push(element);
            }
            assert(all.take(all.len() as int) == all);
            pack(Layer::Array(out))
        },
        Json::Object(fields) => {
            let mut out: Vec<(String, serde_json::Value)> = Vec::new();
            let ghost all = fields@;
            for field in it: fields
                invariant
                    it.seq() == all,
                    j matches Json::Object(f) && f@ == all,
                    distinct_names(out@),
                    members_hold(out@) == object_view(all.take(it.index())),
            {
                let (name, member) = field;
                proof {
                    assert(field == all[it.index()]);
                    assert(decreases_to!(j => j->Object_0));
                    assert(decreases_to!(j->Object_0 => j->Object_0@));
                    assert(decreases_to!(j->Object_0@ => j->Object_0@[it.index()]));
                    assert(decreases_to!(field => field.1));
                    assert(all.take(it.index() + 1) == all.take(it.index()).push(field));
                    lemma_object_push(all.take(it.index()), field);
                }
                let value = into_value(member);
                place_member(&mut out, name, value);
            }
            assert(all.take(all.len() as int) == all);
            pack(Layer::Object(out))
        },
    }
}

/// What `serde_json::from_slice` reads from the bytes: a JSON value, or what its error says.
pub uninterp spec fn slice_reads(bytes: Seq<u8>) -> Result<JsonView, Seq<char>>;

/// `serde_json::from_slice` into a `serde_json::Value`. What it accepts, the value that it reads
/// and the wording of its errors are left to the name.
#[verifier::external_body]
fn read_slice(bytes: &[u8]) -> (r: Result<serde_json::Value, String>)
    ensures
        match r {
            Ok(v) => slice_reads(bytes@) == Ok::<JsonView, Seq<char>>(value_holds(v)),
            Err(e) => slice_reads(bytes@) == Err::<JsonView, Seq<char>>(e@),
        },
{
    serde_json::from_slice::<serde_json::Value>(bytes).map_err(|e| e.to_string())
}

/// What `serde_json::from_str` reads from the text: a JSON value, or what its error says.
pub uninterp spec fn str_reads(text: Seq<char>) -> Result<JsonView, Seq<char>>;

/// The text reads as that value.
pub open spec fn reads_as(text: Seq<char>, v: JsonView) -> bool {
    str_reads(text) == Ok::<JsonView, Seq<char>>(v)
}

/// `serde_json::from_str` into a `serde_json::Value`. What it accepts, the value that it reads
/// and the wording of its errors are left to the name.
#[verifier::external_body]
fn read_str(text: &str) -> (r: Result<serde_json::Value, String>)
    ensures
        match r {
            Ok(v) => str_reads(text@) == Ok::<JsonView, Seq<char>>(value_holds(v)),
            Err(e) => str_reads(text@) == Err::<JsonView, Seq<char>>(e@),
        },
{
    serde_json::from_str::<serde_json::Value>(text).map_err(|e| e.to_string())
}

/// The value is made of texts, truth values, nulls and whole numbers from `i64::MIN` to `u64::MAX`,
/// in arrays and objects nested at most `depth` deep; no name in it is the crate's mark of raw text.
pub open spec fn plain(v: JsonView, depth: nat) -> bool
    decreases depth,
{
    match v {
        JsonView::Null => true,
        JsonView::Bool(_) => true,
        JsonView::Number(n) => number_as_u64(n) is Some || number_as_i64(n) is Some,
        JsonView::Str(_) => true,
        JsonView::Array(items) => depth > 0 && forall|i: int|
            0 <= i < items.len() ==> plain(#[trigger] items[i], (depth - 1) as nat),
        JsonView::Object(members) => depth > 0 && forall|name: Seq<char>| #[trigger]
            members.contains_key(name) ==> plain_name(name) && plain(
                members[name],
                (depth - 1) as nat,
            ),
    }
}

/// The name is not the one under which `serde_json` keeps raw text.
pub open spec fn plain_name(name: Seq<char>) -> bool {
    name != "$serde_json::private::RawValue"@
}

/// A short name is no such mark.
pub proof fn lemma_plain_name(name: Seq<char>)
    requires
        name.len() < 30,
    ensures
        plain_name(name),
{
    reveal_strlit("$serde_json::private::RawValue");
}

/// The members of a plain object are plain.
pub proof fn lemma_plain_member(v: JsonView, name: Seq<char>, d: nat)
    requires
        plain(v, d),
        v is Object,
        v->Object_0.contains_key(name),
    ensures
        d > 0,
        plain(v->Object_0[name], (d - 1) as nat),
{
}

/// A plain object stays plain with one more plain member.
pub proof fn lemma_plain_insert(v: JsonView, name: Seq<char>, member: JsonView, d: nat)
    requires
        plain(v, d),
        v is Object,
        plain_name(name),
        plain(member, (d - 1) as nat),
    ensures
        plain(JsonView::Object(v->Object_0.insert(name, member)), d),
{
    let more = v->Object_0.insert(name, member);
    assert forall|k: Seq<char>| #[trigger] more.contains_key(k) implies plain_name(k) && plain(
        more[k],
        (d - 1) as nat,
    ) by {
        if k != name {
            assert(v->Object_0.contains_key(k));
        }
    }
}

/// What is nested at most so deep is nested at most deeper.
pub proof fn lemma_plain_deeper(v: JsonView, d: nat, e: nat)
    requires
        plain(v, d),
        d <= e,
    ensures
        plain(v, e),
    decreases d,
{
    match v {
        JsonView::Array(items) => {
            assert forall|i: int| 0 <= i < items.len() implies plain(
                #[trigger] items[i],
                (e - 1) as nat,
            ) by {
                lemma_plain_deeper(items[i], (d - 1) as nat, (e - 1) as nat);
            }
        },
        JsonView::Object(members) => {
            assert forall|name: Seq<char>| #[trigger] members.contains_key(name) implies plain_name(
                name,
            ) && plain(members[name], (e - 1) as nat) by {
                lemma_plain_deeper(members[name], (d - 1) as nat, (e - 1) as nat);
            }
        },
        _ => {},
    }
}

/// The text is a single line.
pub open spec fn one_line(text: Seq<char>) -> bool {
    forall|i: int| 0 <= i < text.len() ==> #[trigger] text[i] != '\n' && text[i] != '\r'
}

/// The text that `Display` of `serde_json::Value` writes for a JSON value.
pub uninterp spec fn compact_text(v: JsonView) -> Seq<char>;

/// `to_string` of `serde_json::Value`, by its `Display`: the value as compact JSON text. Objects
/// are kept in a `BTreeMap` (the crate's `preserve_order` is off), so the text depends on what
/// the value holds and on nothing else. It has no line breaks: those of the texts in it are
/// escaped. `serde_json::from_str` reads the value back, where the value is nested no deeper than
/// reading goes; this is claimed neither of numbers other than whole ones from `i64::MIN` to
/// `u64::MAX` nor of objects with the name under which the crate keeps raw text.
#[verifier::external_body]
fn write_compact(v: &serde_json::Value) -> (r: String)
    ensures
        r@ == compact_text(value_holds(*v)),
        one_line(r@),
        plain(value_holds(*v), 127) ==> reads_as(r@, value_holds(*v)),
{
    v.to_string()
}

/// The text that `serde_json::to_string_pretty` writes for a JSON value.
pub uninterp spec fn pretty_text(v: JsonView) -> Seq<char>;

/// `serde_json::to_string_pretty` of a `serde_json::Value`: the value as indented JSON text. As
/// with the compact form, the text depends on what the value holds and on nothing else. No value
/// fails to be written: the names in an object are texts, and the text is written to memory. As
/// with the compact form, and under the same conditions, `serde_json::from_str` reads the value
/// back; it passes over a line feed behind the text.
#[verifier::external_body]
fn write_pretty(v: &serde_json::Value) -> (r: Result<String, String>)
    ensures
        match r {
            Ok(s) => {
                &&& s@ == pretty_text(value_holds(*v))
                &&& plain(value_holds(*v), 127) ==> reads_as(s@ + "\n"@, value_holds(*v))
            },
            Err(_) => false,
        },
{
    serde_json::to_string_pretty(v).map_err(|e| e.to_string())
}

/// What reading gave, taken by its view.
pub open spec fn read_view(r: Result<Json, String>) -> Result<JsonView, Seq<char>> {
    match r {
        Ok(j) => Ok(j@),
        Err(e) => Err(e@),
    }
}

/// Reads JSON from bytes.
pub fn parse_bytes(bytes: &[u8]) -> (r: Result<Json, String>)
    ensures
        read_view(r) == slice_reads(bytes@),
{
    match read_slice(bytes) {
        Ok(v) => Ok(from_value(v)),
        Err(e) => Err(e),
    }
}

/// Reads JSON from text.
pub fn parse_text(text: &str) -> (r: Result<Json, String>)
    ensures
        read_view(r) == str_reads(text@),
{
    match read_str(text) {
        Ok(v) => Ok(from_value(v)),
        Err(e) => Err(e),
    }
}

/// The value as compact JSON text.
pub fn compact(j: Json) -> (r: String)
    ensures
        r@ == compact_text(j@),
        one_line(r@),
        plain(j@, 127) ==> reads_as(r@, j@),
{
    write_compact(&into_value(j))
}

/// The value as indented JSON text.
pub fn pretty(j: Json) -> (r: Result<String, String>)
    ensures
        r matches Ok(s) && s@ == pretty_text(j@) && (plain(j@, 127) ==> reads_as(s@ + "\n"@, j@)),
{
    write_pretty(&into_value(j))
}

} // verus!
