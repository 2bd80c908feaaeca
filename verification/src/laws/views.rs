//! Laws of how values are taken by their views: nothing is left out, renamed or put in another
//! order.

use vstd::prelude::*;

use crate::feed::{json_views, texts, LinkAction};
use crate::json::{array_view, lemma_array_view, lemma_object_push, object_view, Json, JsonView};
use crate::settings::outcome;
use crate::state::{str_view, text_view, Node};
use crate::wire::{read_view, reads_as, str_reads};

verus! {

/// A JSON value is viewed as what it is.
pub proof fn law_json_is_viewed_as_it_is(j: Json)
    ensures
        j is Null ==> j@ is Null,
        j matches Json::Bool(b) ==> j@ == JsonView::Bool(b),
        j matches Json::Number(n) ==> j@ == JsonView::Number(n),
        j matches Json::Str(s) ==> j@ == JsonView::Str(s@),
        j matches Json::Array(items) ==> j@ == JsonView::Array(array_view(items@)),
        j matches Json::Object(fields) ==> j@ == JsonView::Object(object_view(fields@)),
{
    reveal_with_fuel(array_view, 2);
    reveal_with_fuel(object_view, 2);
}

/// Elements are viewed one for one, in their order; of members the last of a name counts.
pub proof fn law_elements_and_members(
    items: Seq<Json>,
    i: int,
    fields: Seq<(String, Json)>,
    field: (String, Json),
    name: Seq<char>,
)
    ensures
        array_view(items).len() == items.len(),
        0 <= i < items.len() ==> array_view(items)[i] == items[i]@,
        !object_view(Seq::empty()).contains_key(name),
        object_view(fields.push(field)).contains_key(field.0@),
        object_view(fields.push(field))[field.0@] == field.1@,
        name != field.0@ ==> object_view(fields.push(field)).contains_key(name) == object_view(
            fields,
        ).contains_key(name) && object_view(fields.push(field))[name] == object_view(fields)[name],
{
    reveal_with_fuel(object_view, 2);
    lemma_array_view(items);
    lemma_object_push(fields, field);
}

/// A node is viewed field by field.
pub proof fn law_nodes_are_viewed_field_by_field(n: Node)
    ensures
        n@.id == n.id@,
        n@.status == n.status,
        n@.started_at_ms == n.started_at_ms,
        n@.started == n.started,
        n@.last_event == n.last_event,
        n@.tokens == n.tokens,
        n@.duration_ms == n.duration_ms,
        n@.tool_calls == n.tool_calls,
        n.parent matches Some(s) ==> n@.parent == Some(s@),
        n.parent is None ==> n@.parent is None,
        n.agent_type matches Some(s) ==> n@.agent_type == Some(s@),
        n.agent_type is None ==> n@.agent_type is None,
        n.cwd matches Some(s) ==> n@.cwd == Some(s@),
        n.cwd is None ==> n@.cwd is None,
        n.model matches Some(s) ==> n@.model == Some(s@),
        n.model is None ==> n@.model is None,
{
}

/// An optional text is viewed as the text, or as none.
pub proof fn law_optional_texts(a: Option<String>, b: Option<&str>)
    ensures
        a matches Some(s) ==> text_view(a) == Some(s@),
        a is None ==> text_view(a) is None,
        b matches Some(s) ==> str_view(b) == Some(s@),
        b is None ==> str_view(b) is None,
{
}

/// Values and texts are viewed one for one, in their order.
pub proof fn law_rows_are_viewed_one_for_one(values: Seq<Json>, rows: Seq<String>, i: int)
    ensures
        json_views(values).len() == values.len(),
        0 <= i < values.len() ==> json_views(values)[i] == values[i]@,
        texts(rows).len() == rows.len(),
        0 <= i < rows.len() ==> texts(rows)[i] == rows[i]@,
{
}

/// What to do is viewed as what it is.
pub proof fn law_actions_are_viewed_as_they_are(a: LinkAction)
    ensures
        a@.log == a.log,
        a@.retry == a.retry,
        a@.wait_secs == a.wait_secs,
        a@.publish.len() == a.publish@.len(),
        forall|i: int| 0 <= i < a.publish@.len() ==> a@.publish[i] == #[trigger] a.publish@[i]@,
{
}

/// A result is viewed as the same kind of result, with its value or its message.
pub proof fn law_results_keep_their_kind(
    read: Result<Json, String>,
    done: Result<(), String>,
    text: Seq<char>,
    v: JsonView,
)
    ensures
        read matches Ok(j) ==> read_view(read) == Ok::<JsonView, Seq<char>>(j@),
        read matches Err(e) ==> read_view(read) == Err::<JsonView, Seq<char>>(e@),
        done is Ok ==> outcome(done) is Ok,
        done matches Err(e) ==> outcome(done) == Err::<(), Seq<char>>(e@),
        reads_as(text, v) <==> str_reads(text) == Ok::<JsonView, Seq<char>>(v),
{
}

} // verus!
