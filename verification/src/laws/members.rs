//! Laws of what a snapshot says of each node and of what the tray makes of it, member by member.

use vstd::prelude::*;

use crate::json::JsonView;
use crate::laws::shown::lemma_decimal;
use crate::model::{NodeView, Tree};
use crate::state::snapshot::{
    exact_numbers, label, listed_before, listing, node_json, nodes_json, shown_as, shows,
};
use crate::state::Status;
use crate::text::{decimal, lemma_text_less_not_self, text_less};
use crate::tray::{
    count_with, counted_status, icon_style_of, out_of_reach, shown_aggregate, tally, tooltip,
    wrapped, IconStyle,
};

verus! {

/// The value is that text, or null where there is none.
pub open spec fn says_text(v: JsonView, o: Option<Seq<char>>) -> bool {
    match o {
        Some(s) => v == JsonView::Str(s),
        None => v is Null,
    }
}

/// The value is that number, or null where there is none.
pub open spec fn says_number(v: JsonView, o: Option<u64>) -> bool {
    match o {
        Some(n) => v.as_u64() == Some(n),
        None => v is Null,
    }
}

/// The word for a status.
pub open spec fn word(s: Status) -> Seq<char> {
    match s {
        Status::Blocked => "blocked"@,
        Status::Working => "working"@,
        Status::Error => "error"@,
        Status::Done => "done"@,
        Status::Idle => "idle"@,
    }
}

/// The JSON says of the node, under the name of each field, what that field is; under `age_ms` how
/// many whole milliseconds it is since the node started; and nothing else.
pub open spec fn says_node(j: JsonView, n: NodeView, at: u128) -> bool {
    &&& j is Object
    &&& j->Object_0.dom() == set![
        "id"@,
        "parent"@,
        "agent_type"@,
        "cwd"@,
        "status"@,
        "started_at_ms"@,
        "age_ms"@,
        "tokens"@,
        "duration_ms"@,
        "tool_calls"@,
        "model"@,
    ]
    &&& j.at("id"@) == JsonView::Str(n.id)
    &&& says_text(j.at("parent"@), n.parent)
    &&& says_text(j.at("agent_type"@), n.agent_type)
    &&& says_text(j.at("cwd"@), n.cwd)
    &&& j.at("status"@) == JsonView::Str(word(n.status))
    &&& says_number(j.at("started_at_ms"@), Some(n.started_at_ms))
    &&& says_number(j.at("tokens"@), n.tokens)
    &&& says_number(j.at("duration_ms"@), n.duration_ms)
    &&& says_number(j.at("tool_calls"@), n.tool_calls)
    &&& says_text(j.at("model"@), n.model)
    &&& j.at("age_ms"@).as_u64() is Some
    &&& at < n.started ==> j.at("age_ms"@).as_u64() == Some(0u64)
    &&& at >= n.started && (at - n.started) / 1_000_000 <= u64::MAX ==> ({
        let ms = j.at("age_ms"@).as_u64()->0;
        ms * 1_000_000 <= at - n.started < (ms + 1) * 1_000_000
    })
}

proof fn lemma_member_names()
    ensures
        "id"@.len() == 2,
        "cwd"@.len() == 3,
        "model"@.len() == 5 && "model"@[0] == 'm',
        "nodes"@.len() == 5 && "nodes"@[0] == 'n',
        "parent"@.len() == 6 && "parent"@[0] == 'p',
        "status"@.len() == 6 && "status"@[0] == 's',
        "age_ms"@.len() == 6 && "age_ms"@[0] == 'a',
        "tokens"@.len() == 6 && "tokens"@[0] == 't',
        "aggregate"@.len() == 9 && "aggregate"@[0] == 'a',
        "connected"@.len() == 9 && "connected"@[0] == 'c',
        "agent_type"@.len() == 10 && "agent_type"@[0] == 'a',
        "tool_calls"@.len() == 10 && "tool_calls"@[0] == 't',
        "duration_ms"@.len() == 11,
        "started_at_ms"@.len() == 13,
{
    reveal_strlit("id");
    reveal_strlit("cwd");
    reveal_strlit("model");
    reveal_strlit("nodes");
    reveal_strlit("parent");
    reveal_strlit("status");
    reveal_strlit("age_ms");
    reveal_strlit("tokens");
    reveal_strlit("aggregate");
    reveal_strlit("connected");
    reveal_strlit("agent_type");
    reveal_strlit("tool_calls");
    reveal_strlit("duration_ms");
    reveal_strlit("started_at_ms");
}

#[verifier::spinoff_prover]
proof fn lemma_node_is_said(n: NodeView, at: u128)
    requires
        exact_numbers(n, at),
    ensures
        says_node(node_json(n, at), n, at),
{
    lemma_member_names();
    let j = node_json(n, at);
    assert(j->Object_0.dom() =~= set![
        "id"@,
        "parent"@,
        "agent_type"@,
        "cwd"@,
        "status"@,
        "started_at_ms"@,
        "age_ms"@,
        "tokens"@,
        "duration_ms"@,
        "tool_calls"@,
        "model"@,
    ]);
}

/// A snapshot is an object of a status and a list of nodes: each node of the tree is in the list,
/// once, said field by field; earlier ones come first, and of those that started in the same
/// millisecond the one with the smaller id.
pub proof fn law_snapshot_says_every_node(t: Tree, at: u128, shown: JsonView)
    requires
        shows(t, at, shown),
    ensures
        ({
            let nodes = shown.at("nodes"@)->Array_0;
            &&& shown is Object && shown->Object_0.dom() == set!["aggregate"@, "nodes"@]
            &&& shown.at("nodes"@) is Array
            &&& forall|id: Seq<char>| #[trigger]
                t.contains_key(id) ==> exists|i: int|
                    0 <= i < nodes.len() && says_node(#[trigger] nodes[i], t[id], at) && t[id].id
                        == id
            &&& forall|i: int|
                0 <= i < nodes.len() ==> (#[trigger] nodes[i]).at("id"@) is Str && t.contains_key(
                    nodes[i].at("id"@)->Str_0,
                ) && says_node(nodes[i], t[nodes[i].at("id"@)->Str_0], at)
            &&& forall|i: int, k: int|
                0 <= i < k < nodes.len() ==> ({
                    let a = t[(#[trigger] nodes[i]).at("id"@)->Str_0];
                    let b = t[(#[trigger] nodes[k]).at("id"@)->Str_0];
                    &&& a.id != b.id
                    &&& a.started_at_ms <= b.started_at_ms
                    &&& a.started_at_ms == b.started_at_ms ==> text_less(a.id, b.id)
                })
        }),
{
    lemma_member_names();
    let order = choose|order: Seq<NodeView>| #[trigger] shown_as(t, at, order, shown);
    let nodes = nodes_json(order, at);
    assert(shown.at("nodes"@) == JsonView::Array(nodes));
    assert(shown->Object_0.dom() =~= set!["aggregate"@, "nodes"@]);
    assert forall|i: int| 0 <= i < nodes.len() implies says_node(#[trigger] nodes[i], order[i], at)
        && nodes[i].at("id"@) == JsonView::Str(order[i].id) && t[order[i].id] == order[i]
        && t.contains_key(order[i].id) by {
        assert(exact_numbers(order[i], at));
        lemma_node_is_said(order[i], at);
        assert(nodes[i] == node_json(order[i], at));
        assert(t.contains_key(order[i].id));
    }
    assert forall|id: Seq<char>| #[trigger] t.contains_key(id) implies exists|i: int|
        0 <= i < nodes.len() && says_node(#[trigger] nodes[i], t[id], at) && t[id].id == id by {
        let i = choose|i: int| 0 <= i < order.len() && (#[trigger] order[i]).id == id;
        assert(says_node(nodes[i], order[i], at));
    }
    assert forall|i: int, k: int| 0 <= i < k < nodes.len() implies ({
        let a = t[(#[trigger] nodes[i]).at("id"@)->Str_0];
        let b = t[(#[trigger] nodes[k]).at("id"@)->Str_0];
        &&& a.id != b.id
        &&& a.started_at_ms <= b.started_at_ms
        &&& a.started_at_ms == b.started_at_ms ==> text_less(a.id, b.id)
    }) by {
        assert(says_node(nodes[i], order[i], at));
        assert(says_node(nodes[k], order[k], at));
        assert(listed_before(order[i], order[k]));
        lemma_text_less_not_self(order[i].id);
        if order[i].id == order[k].id {
            assert(order[i] == t[order[i].id] && order[k] == t[order[k].id]);
        }
    }
}

/// The status of a snapshot is the word for one that some node has and that no node's status
/// outranks, or idle where there is no node: blocked outranks working, working outranks error,
/// error outranks done, and done outranks idle.
pub proof fn law_snapshot_says_the_worst(t: Tree, at: u128, shown: JsonView, id: Seq<char>)
    requires
        shows(t, at, shown),
    ensures
        ({
            let said = shown.at("aggregate"@);
            let s = t[id].status;
            &&& (forall|k: Seq<char>| !t.contains_key(k)) ==> said == JsonView::Str("idle"@)
            &&& t.contains_key(id) ==> ({
                &&& s == Status::Blocked ==> said == JsonView::Str("blocked"@)
                &&& s == Status::Working ==> said == JsonView::Str("working"@) || said
                    == JsonView::Str("blocked"@)
                &&& s == Status::Error ==> said != JsonView::Str("done"@) && said != JsonView::Str(
                    "idle"@,
                )
                &&& s == Status::Done ==> said != JsonView::Str("idle"@)
            })
            &&& t.contains_key(id) ==> exists|k: Seq<char>| #[trigger]
                t.contains_key(k) && said == JsonView::Str(word(t[k].status))
        }),
{
    lemma_member_names();
    lemma_words();
    let order = choose|order: Seq<NodeView>| #[trigger] shown_as(t, at, order, shown);
    crate::laws::shown::law_worst_is_most_severe(t);
    if t.contains_key(id) {
        let w = crate::state::snapshot::worst(t);
        assert(crate::state::snapshot::has_status(t, w));
        let k = choose|k: Seq<char>| #[trigger] t.contains_key(k) && t[k].status == w;
        assert(t.contains_key(k) && shown.at("aggregate"@) == JsonView::Str(word(t[k].status)));
    } else if forall|k: Seq<char>| !t.contains_key(k) {
        assert(!crate::state::snapshot::has_status(t, Status::Blocked));
    }
}

proof fn lemma_words()
    ensures
        "blocked"@.len() == 7 && "blocked"@[0] == 'b',
        "working"@.len() == 7 && "working"@[0] == 'w',
        "error"@.len() == 5,
        "done"@.len() == 4 && "done"@[0] == 'd',
        "idle"@.len() == 4 && "idle"@[0] == 'i',
        "unreachable"@.len() == 11,
{
    reveal_strlit("blocked");
    reveal_strlit("working");
    reveal_strlit("error");
    reveal_strlit("done");
    reveal_strlit("idle");
    reveal_strlit("unreachable");
}

/// How many nodes of the tree have that status.
pub open spec fn number_with(t: Tree, s: Status) -> nat {
    Set::new(|id: Seq<char>| t.contains_key(id) && t[id].status == s).len()
}

/// The ids, among the first `k` nodes, of those that have that status.
spec fn first_with(order: Seq<NodeView>, k: int, s: Status) -> Set<Seq<char>> {
    Set::new(|id: Seq<char>| exists|i: int| #[trigger] holds(order, i, id, s) && i < k)
}

spec fn holds(order: Seq<NodeView>, i: int, id: Seq<char>, s: Status) -> bool {
    0 <= i < order.len() && order[i].id == id && order[i].status == s
}

proof fn lemma_first_with(t: Tree, order: Seq<NodeView>, k: int, s: Status, at: u128)
    requires
        listing(t, order),
        0 <= k <= order.len(),
    ensures
        first_with(order, k, s).finite(),
        first_with(order, k, s).len() == count_with(nodes_json(order, at).take(k), word(s)),
    decreases k,
{
    let nodes = nodes_json(order, at);
    let now = first_with(order, k, s);
    if k == 0 {
        assert(now =~= Set::empty());
    } else {
        lemma_first_with(t, order, k - 1, s, at);
        lemma_member_names();
        lemma_words();
        let before = first_with(order, k - 1, s);
        let n = order[k - 1];
        assert(nodes.take(k).drop_last() =~= nodes.take(k - 1));
        assert(nodes.take(k).last() == node_json(n, at));
        assert(node_json(n, at).at("status"@) == JsonView::Str(word(n.status)));
        if n.status == s {
            assert(holds(order, k - 1, n.id, s));
            assert(!before.contains(n.id)) by {
                if before.contains(n.id) {
                    let i = choose|i: int| #[trigger] holds(order, i, n.id, s) && i < k - 1;
                    assert(listed_before(order[i], order[k - 1]));
                    lemma_text_less_not_self(n.id);
                    assert(t[order[i].id] == order[i] && t[order[k - 1].id] == order[k - 1]);
                }
            }
            assert(now =~= before.insert(n.id)) by {
                assert forall|id: Seq<char>| now.contains(id) implies before.insert(n.id).contains(
                    id,
                ) by {
                    let i = choose|i: int| #[trigger] holds(order, i, id, s) && i < k;
                    if i < k - 1 {
                        assert(before.contains(id));
                    }
                }
            }
        } else {
            assert(now =~= before) by {
                assert forall|id: Seq<char>| now.contains(id) implies before.contains(id) by {
                    let i = choose|i: int| #[trigger] holds(order, i, id, s) && i < k;
                    assert(i < k - 1);
                }
            }
        }
    }
}

proof fn lemma_count_is_number(t: Tree, order: Seq<NodeView>, s: Status, at: u128)
    requires
        listing(t, order),
    ensures
        count_with(nodes_json(order, at), word(s)) == number_with(t, s),
{
    let n = order.len() as int;
    lemma_first_with(t, order, n, s, at);
    assert(nodes_json(order, at).take(n) =~= nodes_json(order, at));
    let all = Set::new(|id: Seq<char>| t.contains_key(id) && t[id].status == s);
    assert forall|id: Seq<char>| all.contains(id) implies first_with(order, n, s).contains(id) by {
        let i = choose|i: int| 0 <= i < order.len() && (#[trigger] order[i]).id == id;
        assert(holds(order, i, id, s));
    }
    assert forall|id: Seq<char>| first_with(order, n, s).contains(id) implies all.contains(id) by {
        let i = choose|i: int| #[trigger] holds(order, i, id, s) && i < n;
        assert(t.contains_key(order[i].id));
    }
    assert(all =~= first_with(order, n, s));
}

/// One count and its word; nothing where the count is 0.
pub open spec fn told(n: nat, word: Seq<char>) -> Seq<char> {
    if n == 0 {
        Seq::empty()
    } else {
        decimal(n) + " "@ + word
    }
}

/// Two texts with a comma between them, where neither is empty.
pub open spec fn with_comma(a: Seq<char>, b: Seq<char>) -> Seq<char> {
    if a.len() == 0 {
        b
    } else if b.len() == 0 {
        a
    } else {
        a + ", "@ + b
    }
}

proof fn lemma_tally(nodes: Seq<JsonView>, k: int)
    requires
        k > 0,
    ensures
        tally(nodes, k) == with_comma(
            tally(nodes, k - 1),
            told(count_with(nodes, counted_status(k - 1)), counted_status(k - 1)),
        ),
{
    let count = count_with(nodes, counted_status(k - 1));
    let before = tally(nodes, k - 1);
    if count > 0 {
        lemma_decimal(count);
        assert(before + ", "@ + decimal(count) + " "@ + counted_status(k - 1) =~= before + ", "@ + (
        decimal(count) + " "@ + counted_status(k - 1)));
        if before.len() == 0 {
            assert(before + decimal(count) + " "@ + counted_status(k - 1) =~= decimal(count) + " "@
                + counted_status(k - 1));
        }
    }
}

/// The tooltip of a daemon with agents counts its nodes, sessions and subagents alike, by status:
/// how many are blocked, working, in error, done and idle, in this order, those of 0 left out.
pub proof fn law_tooltip_counts_the_nodes(t: Tree, at: u128, shown: JsonView, id: Seq<char>)
    requires
        shows(t, at, shown),
        t.contains_key(id),
    ensures
        ({
            let blocked = told(number_with(t, Status::Blocked), "blocked"@);
            let working = told(number_with(t, Status::Working), "working"@);
            let error = told(number_with(t, Status::Error), "error"@);
            let done = told(number_with(t, Status::Done), "done"@);
            let idle = told(number_with(t, Status::Idle), "idle"@);
            tooltip(wrapped(shown)) == "agentdeck — "@ + with_comma(
                with_comma(with_comma(with_comma(blocked, working), error), done),
                idle,
            )
        }),
{
    lemma_member_names();
    let order = choose|order: Seq<NodeView>| #[trigger] shown_as(t, at, order, shown);
    let nodes = nodes_json(order, at);
    let i = choose|i: int| 0 <= i < order.len() && (#[trigger] order[i]).id == id;
    assert(wrapped(shown).at("nodes"@) == JsonView::Array(nodes));
    assert(wrapped(shown).at("connected"@) == JsonView::Bool(true));
    assert(nodes.len() > 0);
    lemma_tally(nodes, 1);
    lemma_tally(nodes, 2);
    lemma_tally(nodes, 3);
    lemma_tally(nodes, 4);
    lemma_tally(nodes, 5);
    assert(tally(nodes, 0).len() == 0);
    lemma_count_is_number(t, order, Status::Blocked, at);
    lemma_count_is_number(t, order, Status::Working, at);
    lemma_count_is_number(t, order, Status::Error, at);
    lemma_count_is_number(t, order, Status::Done, at);
    lemma_count_is_number(t, order, Status::Idle, at);
}

/// The numbers over all statuses add up to the number of nodes.
pub proof fn law_counts_add_up(t: Tree, at: u128, shown: JsonView)
    requires
        shows(t, at, shown),
    ensures
        t.dom().finite(),
        number_with(t, Status::Blocked) + number_with(t, Status::Working) + number_with(
            t,
            Status::Error,
        ) + number_with(t, Status::Done) + number_with(t, Status::Idle) == t.dom().len(),
        shown.at("nodes"@)->Array_0.len() == t.dom().len(),
{
    lemma_member_names();
    let order = choose|order: Seq<NodeView>| #[trigger] shown_as(t, at, order, shown);
    let nodes = nodes_json(order, at);
    lemma_count_is_number(t, order, Status::Blocked, at);
    lemma_count_is_number(t, order, Status::Working, at);
    lemma_count_is_number(t, order, Status::Error, at);
    lemma_count_is_number(t, order, Status::Done, at);
    lemma_count_is_number(t, order, Status::Idle, at);
    lemma_sum(order, order.len() as int, at);
    assert(nodes.take(order.len() as int) =~= nodes);
    let ids = order.map_values(|n: NodeView| n.id);
    assert forall|i: int, k: int| 0 <= i < k < ids.len() implies ids[i] != ids[k] by {
        assert(listed_before(order[i], order[k]));
        lemma_text_less_not_self(order[i].id);
        if order[i].id == order[k].id {
            assert(t[order[i].id] == order[i] && t[order[k].id] == order[k]);
        }
    }
    assert(ids.no_duplicates());
    ids.unique_seq_to_set();
    assert forall|id: Seq<char>| ids.to_set().contains(id) implies t.dom().contains(id) by {
        let i = choose|i: int| 0 <= i < ids.len() && ids[i] == id;
        assert(t.contains_key(order[i].id));
    }
    assert forall|id: Seq<char>| t.dom().contains(id) implies ids.to_set().contains(id) by {
        let i = choose|i: int| 0 <= i < order.len() && (#[trigger] order[i]).id == id;
        assert(ids[i] == id);
    }
    assert(ids.to_set() =~= t.dom());
}

proof fn lemma_sum(order: Seq<NodeView>, k: int, at: u128)
    requires
        0 <= k <= order.len(),
    ensures
        ({
            let nodes = nodes_json(order, at).take(k);
            count_with(nodes, "blocked"@) + count_with(nodes, "working"@) + count_with(
                nodes,
                "error"@,
            ) + count_with(nodes, "done"@) + count_with(nodes, "idle"@) == k
        }),
    decreases k,
{
    if k > 0 {
        lemma_sum(order, k - 1, at);
        lemma_member_names();
        lemma_words();
        let nodes = nodes_json(order, at);
        let n = order[k - 1];
        assert(nodes.take(k).drop_last() =~= nodes.take(k - 1));
        assert(nodes.take(k).last() == node_json(n, at));
        assert(node_json(n, at).at("status"@) == JsonView::Str(word(n.status)));
    }
}

/// The places in a list of nodes that have that status.
pub open spec fn places_with(nodes: Seq<JsonView>, status: Seq<char>) -> Set<int> {
    Set::new(|i: int| 0 <= i < nodes.len() && nodes[i].at("status"@) == JsonView::Str(status))
}

/// The tooltip of any connected state that lists something counts what it lists by status.
pub proof fn law_tooltip_counts_what_is_listed(state: JsonView, nodes: Seq<JsonView>)
    requires
        state.at("connected"@) == JsonView::Bool(true),
        state.at("nodes"@) == JsonView::Array(nodes),
        nodes.len() > 0,
    ensures
        ({
            let blocked = told(places_with(nodes, "blocked"@).len(), "blocked"@);
            let working = told(places_with(nodes, "working"@).len(), "working"@);
            let error = told(places_with(nodes, "error"@).len(), "error"@);
            let done = told(places_with(nodes, "done"@).len(), "done"@);
            let idle = told(places_with(nodes, "idle"@).len(), "idle"@);
            tooltip(state) == "agentdeck — "@ + with_comma(
                with_comma(with_comma(with_comma(blocked, working), error), done),
                idle,
            )
        }),
{
    lemma_tally(nodes, 1);
    lemma_tally(nodes, 2);
    lemma_tally(nodes, 3);
    lemma_tally(nodes, 4);
    lemma_tally(nodes, 5);
    assert(tally(nodes, 0).len() == 0);
    law_count_is_by_status_alone(nodes, "blocked"@);
    law_count_is_by_status_alone(nodes, "working"@);
    law_count_is_by_status_alone(nodes, "error"@);
    law_count_is_by_status_alone(nodes, "done"@);
    law_count_is_by_status_alone(nodes, "idle"@);
}

/// Whatever a state lists, the count of a status is the number of places in the list that have that
/// status, whatever else stands there.
pub proof fn law_count_is_by_status_alone(nodes: Seq<JsonView>, status: Seq<char>)
    ensures
        places_with(nodes, status).finite(),
        count_with(nodes, status) == places_with(nodes, status).len(),
    decreases nodes.len(),
{
    let places = places_with(nodes, status);
    if nodes.len() == 0 {
        assert(places =~= Set::empty());
    } else {
        let rest = nodes.drop_last();
        law_count_is_by_status_alone(rest, status);
        let fewer = places_with(rest, status);
        if nodes.last().at("status"@) == JsonView::Str(status) {
            assert(places =~= fewer.insert(rest.len() as int));
        } else {
            assert(places =~= fewer);
        }
    }
}

/// The state that the tray makes of what it is sent: connected, with the status and the nodes that
/// it was sent, idle and without nodes where it was sent none.
pub proof fn law_wrapping_keeps_what_was_sent(sent: JsonView)
    ensures
        ({
            let state = wrapped(sent);
            &&& state is Object && state->Object_0.dom() == set![
                "connected"@,
                "aggregate"@,
                "nodes"@,
            ]
            &&& state.at("connected"@) == JsonView::Bool(true)
            &&& sent.get("aggregate"@) is Some ==> state.at("aggregate"@) == sent.at("aggregate"@)
            &&& sent.get("aggregate"@) is None ==> state.at("aggregate"@) == JsonView::Str("idle"@)
            &&& sent.get("nodes"@) is Some ==> state.at("nodes"@) == sent.at("nodes"@)
            &&& sent.get("nodes"@) is None ==> state.at("nodes"@) == JsonView::Array(Seq::empty())
        }),
{
    lemma_member_names();
    assert(wrapped(sent)->Object_0.dom() =~= set!["connected"@, "aggregate"@, "nodes"@]);
}

/// The state while the daemon is out of reach: not connected, of no status and without nodes.
pub proof fn law_out_of_reach_is_empty()
    ensures
        out_of_reach() is Object && out_of_reach()->Object_0.dom() == set![
            "connected"@,
            "aggregate"@,
            "nodes"@,
        ],
        out_of_reach().at("connected"@) == JsonView::Bool(false),
        out_of_reach().at("aggregate"@) == JsonView::Str("unreachable"@),
        out_of_reach().at("nodes"@) == JsonView::Array(Seq::empty()),
{
    lemma_member_names();
    assert(out_of_reach()->Object_0.dom() =~= set!["connected"@, "aggregate"@, "nodes"@]);
}

/// The label of a state is its status where that is a text, and otherwise that it is out of reach.
pub proof fn law_label_is_the_status(state: JsonView)
    ensures
        state.at("aggregate"@) is Str ==> shown_aggregate(state) == state.at("aggregate"@)->Str_0,
        !(state.at("aggregate"@) is Str) ==> shown_aggregate(state) == "unreachable"@,
{
}

/// The tooltip goes by the connection first: a state that is not connected is out of reach, and a
/// connected one without nodes has no agents.
pub proof fn law_tooltip_goes_by_the_connection(state: JsonView)
    ensures
        state.at("connected"@) != JsonView::Bool(true) ==> tooltip(state)
            == "agentdeck — daemon unreachable"@,
        state.at("connected"@) == JsonView::Bool(true) && (state.at("nodes"@) matches JsonView::Array(
            nodes,
        ) ==> nodes.len() == 0) ==> tooltip(state) == "agentdeck — no agents"@,
{
}

/// Blocked is amber, working blue, error red, done green and idle gray, each a disc; anything else
/// is a gray ring.
pub proof fn law_colours(s: Status, other: Seq<char>)
    requires
        forall|k: Status| #[trigger] word(k) != other,
    ensures
        icon_style_of(word(s)) == (match s {
            Status::Blocked => IconStyle { red: 245, green: 158, blue: 11, hollow: false },
            Status::Working => IconStyle { red: 59, green: 130, blue: 246, hollow: false },
            Status::Error => IconStyle { red: 239, green: 68, blue: 68, hollow: false },
            Status::Done => IconStyle { red: 34, green: 197, blue: 94, hollow: false },
            Status::Idle => IconStyle { red: 156, green: 163, blue: 175, hollow: false },
        }),
        label(s) == word(s),
        icon_style_of(other) == (IconStyle { red: 156, green: 163, blue: 175, hollow: true }),
{
    lemma_words();
    assert(word(Status::Blocked) != other && word(Status::Working) != other);
    assert(word(Status::Error) != other && word(Status::Done) != other);
    assert(word(Status::Idle) != other);
}

} // verus!
