//! Laws of what is removed, on the fields of the nodes.

use vstd::prelude::*;

use crate::clock::Reading;
use crate::json::JsonView;
use crate::laws::events::reports;
use crate::model::{
    ancestor, any_expired, descends, expired, lemma_descends_child, lemma_descends_self,
    purged, step, swept, without_tree, Tree,
};
use crate::state::Status;

verus! {

/// A set of ids that has, with each, those of its children.
pub open spec fn has_children_too(t: Tree, ids: Set<Seq<char>>) -> bool {
    forall|id: Seq<char>| #[trigger]
        t.contains_key(id) && (t[id].parent matches Some(p) && ids.contains(p)) ==> ids.contains(id)
}

proof fn lemma_descendants_are_in(t: Tree, ids: Set<Seq<char>>, root: Seq<char>, id: Seq<char>, n: nat)
    requires
        ids.contains(root),
        has_children_too(t, ids),
        ancestor(t, id, n) == Some(root),
    ensures
        ids.contains(id),
    decreases n,
{
    if n > 0 {
        assert(t.contains_key(id));
        lemma_descendants_are_in(t, ids, root, t[id].parent->0, (n - 1) as nat);
    }
}

/// Removing a node takes it away, takes away each child of what it takes away, and takes away no
/// more than that: what lies outside some set that has the node and the children of all in it is
/// as it was. Where the node is not known, nothing happens.
pub proof fn law_removal_takes_the_node_and_all_below_it(
    t: Tree,
    root: Seq<char>,
    id: Seq<char>,
    ids: Set<Seq<char>>,
)
    ensures
        ({
            let r = without_tree(t, root);
            &&& !r.contains_key(root)
            &&& !t.contains_key(root) ==> r == t
            &&& r.contains_key(id) ==> t.contains_key(id) && r[id] == t[id]
            &&& t.contains_key(root) && t.contains_key(id) && (t[id].parent matches Some(p)
                && t.contains_key(p) && !r.contains_key(p)) ==> !r.contains_key(id)
            &&& ids.contains(root) && has_children_too(t, ids) && t.contains_key(id)
                && !ids.contains(id) ==> r.contains_key(id)
        }),
{
    let r = without_tree(t, root);
    lemma_descends_self(t, root);
    if t.contains_key(root) && t.contains_key(id) {
        if t[id].parent is Some && t.contains_key(t[id].parent->0) && !r.contains_key(
            t[id].parent->0,
        ) {
            lemma_descends_child(t, root, id);
        }
        if ids.contains(root) && has_children_too(t, ids) && descends(t, root, id) {
            let n = choose|n: nat| #[trigger] ancestor(t, id, n) == Some(root);
            lemma_descendants_are_in(t, ids, root, id, n);
        }
    }
}

/// The end of a session removes the session, whatever subagent the event names, and counts as a
/// change exactly where the session was known.
pub proof fn law_sessions_end_with_their_trees(t: Tree, ev: JsonView, now: Reading, s: Seq<char>)
    requires
        reports(ev, "SessionEnd"@, s),
    ensures
        step(t, ev, now) == (without_tree(t, s), t.contains_key(s)),
{
    reveal_strlit("SessionStart");
    reveal_strlit("UserPromptSubmit");
    reveal_strlit("SubagentStart");
    reveal_strlit("SubagentStop");
    reveal_strlit("Stop");
    reveal_strlit("StopFailure");
    reveal_strlit("Notification");
    reveal_strlit("PreToolUse");
    reveal_strlit("PostToolUse");
    reveal_strlit("SessionEnd");
    assert("SessionEnd"@.len() == 10 && "PreToolUse"@.len() == 10);
    assert("SessionEnd"@[0] == 'S' && "PreToolUse"@[0] == 'P');
}

/// A node's time is up: nothing has been heard of it for longer than `stale`, whatever its status;
/// or its parent is gone; or it is a subagent, done or in error, and nothing has been heard of it
/// for `done`.
pub open spec fn time_is_up(t: Tree, id: Seq<char>, stale: nat, done: nat, at: u128) -> bool {
    let n = t[id];
    let over = if at > n.last_event {
        at - n.last_event
    } else {
        0
    };
    ||| over > stale
    ||| n.parent is Some && !t.contains_key(n.parent->0)
    ||| n.parent is Some && n.status == Status::Done && over >= done
    ||| n.parent is Some && n.status == Status::Error && over >= done
}

/// A round of removal takes away each node whose time is up and each child of what it takes away,
/// and takes away no more than that: what lies outside some set that has the nodes whose time is up
/// and the children of all in it is as it was. It counts as a change exactly where some node's time
/// is up.
pub proof fn law_rounds_take_what_is_due(
    t: Tree,
    stale: nat,
    done: nat,
    at: u128,
    id: Seq<char>,
    ids: Set<Seq<char>>,
)
    ensures
        ({
            let r = purged(t, stale, done, at);
            &&& r.contains_key(id) ==> t.contains_key(id) && r[id] == t[id]
            &&& t.contains_key(id) && time_is_up(t, id, stale, done, at) ==> !r.contains_key(id)
                && any_expired(t, stale, done, at)
            &&& t.contains_key(id) && (t[id].parent matches Some(p) && !r.contains_key(p))
                ==> !r.contains_key(id)
            &&& has_children_too(t, ids) && (forall|d: Seq<char>| #[trigger]
                t.contains_key(d) && time_is_up(t, d, stale, done, at) ==> ids.contains(d))
                && t.contains_key(id) && !ids.contains(id) ==> r.contains_key(id)
            &&& any_expired(t, stale, done, at) ==> exists|d: Seq<char>| #[trigger]
                t.contains_key(d) && time_is_up(t, d, stale, done, at)
        }),
{
    let r = purged(t, stale, done, at);
    assert forall|d: Seq<char>| #[trigger] t.contains_key(d) implies time_is_up(
        t,
        d,
        stale,
        done,
        at,
    ) == expired(t, t[d], stale, done, at) by {}
    if t.contains_key(id) {
        lemma_descends_self(t, id);
        if time_is_up(t, id, stale, done, at) {
            assert(swept(t, id, stale, done, at));
        }
        if t[id].parent is Some && !r.contains_key(t[id].parent->0) {
            let p = t[id].parent->0;
            if t.contains_key(p) {
                assert(swept(t, p, stale, done, at));
                let d = choose|d: Seq<char>|
                    #![trigger descends(t, d, p)]
                    t.contains_key(d) && expired(t, t[d], stale, done, at) && descends(t, d, p);
                lemma_descends_child(t, d, id);
                assert(swept(t, id, stale, done, at));
            } else {
                assert(time_is_up(t, id, stale, done, at));
                assert(swept(t, id, stale, done, at));
            }
        }
        if has_children_too(t, ids) && (forall|d: Seq<char>| #[trigger]
            t.contains_key(d) && time_is_up(t, d, stale, done, at) ==> ids.contains(d))
            && !ids.contains(id) && swept(t, id, stale, done, at) {
            let d = choose|d: Seq<char>|
                #![trigger descends(t, d, id)]
                t.contains_key(d) && expired(t, t[d], stale, done, at) && descends(t, d, id);
            assert(t.contains_key(d) && time_is_up(t, d, stale, done, at));
            let n = choose|n: nat| #[trigger] ancestor(t, id, n) == Some(d);
            lemma_descendants_are_in(t, ids, d, id, n);
        }
    }
}

} // verus!
