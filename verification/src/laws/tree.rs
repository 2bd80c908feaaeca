//! Laws of the session tree.

use vstd::prelude::*;

use crate::clock::Reading;
use crate::json::JsonView;
use crate::model::{
    agent_of, any_expired, descends, enriched, expired, hook_of, keyed, lemma_descends_child,
    lemma_descends_self, lemma_descends_unfold, notified_status, notified_task, or, orphaned,
    purged, response_child, session_of, silence, step, subject_of, swept, tag_number,
    uses_agent_tool, with_response, without_tree, NodeView, Tree,
};
use crate::state::Status;

verus! {

/// A payload that counts as no change leaves the tree as it was.
pub proof fn law_no_change_is_no_change(t: Tree, ev: JsonView, now: Reading)
    ensures
        !step(t, ev, now).1 ==> step(t, ev, now).0 == t,
{
}

/// A payload without a name, without a session or with an unknown name is turned down.
pub proof fn law_malformed_is_rejected(t: Tree, ev: JsonView, now: Reading)
    ensures
        ev.str_field("hook_event_name"@) is None || ev.str_field("session_id"@) is None || hook_of(ev)
            is Other ==> step(t, ev, now) == (t, false),
{
}

/// What is no object is turned down.
pub proof fn law_non_object_is_rejected(t: Tree, ev: JsonView, now: Reading)
    requires
        !(ev is Object),
    ensures
        step(t, ev, now) == (t, false),
{
}

/// Each node stays under its own id.
pub proof fn law_step_keeps_keyed(t: Tree, ev: JsonView, now: Reading)
    requires
        keyed(t),
    ensures
        keyed(step(t, ev, now).0),
{
}

/// Only the session and the subagent that a payload names can be new afterwards.
pub proof fn law_only_named_nodes_appear(t: Tree, ev: JsonView, now: Reading, id: Seq<char>)
    requires
        step(t, ev, now).0.contains_key(id),
    ensures
        t.contains_key(id) || id == session_of(ev) || agent_of(ev) == Some(id),
{
}

/// A subagent is taken in when it starts, or when one of a known type stops, and by nothing else.
pub proof fn law_subagents_start_or_stop_into_being(
    t: Tree,
    ev: JsonView,
    now: Reading,
    id: Seq<char>,
)
    requires
        !t.contains_key(id),
        step(t, ev, now).0.contains_key(id),
        id != session_of(ev),
    ensures
        agent_of(ev) == Some(id),
        hook_of(ev) is SubagentStart || hook_of(ev) is SubagentStop && ev.str_field(
            "agent_type"@,
        ) is Some,
{
}

/// A prompt inside a subagent takes in no node and drops none.
pub proof fn law_subagent_prompt_creates_nothing(t: Tree, ev: JsonView, now: Reading)
    requires
        hook_of(ev) is UserPromptSubmit,
        agent_of(ev) is Some,
    ensures
        step(t, ev, now).0.dom() == t.dom(),
        step(t, ev, now).1 == t.contains_key(agent_of(ev)->0),
{
    assert(step(t, ev, now).0.dom() =~= t.dom());
}

/// Nothing but the end of a session takes a node away.
pub proof fn law_only_session_end_removes(t: Tree, ev: JsonView, now: Reading, id: Seq<char>)
    requires
        t.contains_key(id),
        !(hook_of(ev) is SessionEnd),
    ensures
        step(t, ev, now).0.contains_key(id),
{
}

/// The end of a session takes away the session and all that is below it, and nothing else; the
/// end of a session that is not known does nothing.
pub proof fn law_session_end_removes_the_tree(t: Tree, ev: JsonView, now: Reading, id: Seq<char>)
    requires
        hook_of(ev) is SessionEnd,
    ensures
        !t.contains_key(session_of(ev)) ==> step(t, ev, now) == (t, false),
        t.contains_key(session_of(ev)) ==> step(t, ev, now).1,
        t.contains_key(session_of(ev)) ==> (step(t, ev, now).0.contains_key(id) <==> t.contains_key(
            id,
        ) && !descends(t, session_of(ev), id)),
        !step(t, ev, now).0.contains_key(session_of(ev)),
        step(t, ev, now).0.contains_key(id) ==> step(t, ev, now).0[id] == t[id],
{
    lemma_descends_self(t, session_of(ev));
}

/// Removing a tree orphans no node.
pub proof fn law_removal_orphans_nothing(t: Tree, root: Seq<char>, id: Seq<char>)
    requires
        without_tree(t, root).contains_key(id),
        orphaned(without_tree(t, root), without_tree(t, root)[id]),
    ensures
        orphaned(t, t[id]),
{
    if t.contains_key(root) && t.contains_key(t[id].parent->0) {
        lemma_descends_child(t, root, id);
    }
}

/// A node that a payload changes has just been heard of; the others are as they were.
pub proof fn law_changed_nodes_are_heard_of(t: Tree, ev: JsonView, now: Reading, id: Seq<char>)
    requires
        step(t, ev, now).0.contains_key(id),
    ensures
        step(t, ev, now).0[id].last_event == now.at || t.contains_key(id) && step(t, ev, now).0[id]
            == t[id],
{
}

/// A payload changes no node but its session, its subagent, the subagent that it reports launched
/// and the task that it notifies of; the end of a session changes none that it leaves.
pub proof fn law_other_nodes_stay(t: Tree, ev: JsonView, now: Reading, id: Seq<char>)
    requires
        t.contains_key(id),
        step(t, ev, now).0.contains_key(id),
        id != session_of(ev),
        agent_of(ev) != Some(id),
        ev.at("tool_response"@).str_field("agentId"@) != Some(id),
        ev.str_field("prompt"@) is Some ==> notified_task(ev.str_field("prompt"@)->0) != Some(id),
    ensures
        step(t, ev, now).0[id] == t[id],
{
}

/// A session's status after an event of its own. A notification of an unknown type leaves it as it
/// is.
pub proof fn law_session_status(t: Tree, ev: JsonView, now: Reading)
    requires
        agent_of(ev) is None,
    ensures
        ({
            let r = step(t, ev, now).0;
            let s = session_of(ev);
            &&& hook_of(ev) is SessionStart ==> r.contains_key(s) && r[s].status == Status::Idle
            &&& hook_of(ev) is UserPromptSubmit ==> r.contains_key(s) && r[s].status
                == Status::Working
            &&& hook_of(ev) is Stop ==> r.contains_key(s) && r[s].status == Status::Done
            &&& hook_of(ev) is StopFailure ==> r.contains_key(s) && r[s].status == Status::Error
            &&& hook_of(ev) is Notification && notified_status(
                ev.str_field("notification_type"@),
            ) is Some ==> r.contains_key(s) && r[s].status == notified_status(
                ev.str_field("notification_type"@),
            )->0
            &&& hook_of(ev) is Notification && notified_status(
                ev.str_field("notification_type"@),
            ) is None && t.contains_key(s) ==> r.contains_key(s) && r[s].status == t[s].status
                && r[s].last_event == now.at && step(t, ev, now).1
            &&& hook_of(ev) is Notification && notified_status(
                ev.str_field("notification_type"@),
            ) is None && !t.contains_key(s) ==> step(t, ev, now) == (t, false)
        }),
{
}

/// A known subagent's status after an event inside it.
pub proof fn law_subagent_status(t: Tree, ev: JsonView, now: Reading)
    requires
        agent_of(ev) is Some,
        t.contains_key(agent_of(ev)->0),
    ensures
        ({
            let r = step(t, ev, now).0;
            let a = agent_of(ev)->0;
            &&& hook_of(ev) is UserPromptSubmit ==> r[a].status == Status::Working
            &&& hook_of(ev) is SubagentStart ==> r[a].status == Status::Working
            &&& hook_of(ev) is SubagentStop ==> r[a].status == Status::Done
            &&& hook_of(ev) is Stop ==> r[a].status == Status::Done
            &&& hook_of(ev) is StopFailure ==> r[a].status == Status::Error
            &&& hook_of(ev) is Notification ==> r[a].status == match notified_status(
                ev.str_field("notification_type"@),
            ) {
                Some(s) => s,
                None => t[a].status,
            }
        }),
{
}

/// A subagent that starts is there and at work, below its session where it is new; its session
/// is there too.
pub proof fn law_subagent_start(t: Tree, ev: JsonView, now: Reading)
    requires
        hook_of(ev) is SubagentStart,
        agent_of(ev) is Some,
    ensures
        ({
            let r = step(t, ev, now).0;
            let a = agent_of(ev)->0;
            let s = session_of(ev);
            &&& step(t, ev, now).1
            &&& r.contains_key(a) && r[a].status == Status::Working
            &&& r.contains_key(s) && r[s].status == Status::Working
            &&& !t.contains_key(a) && a != s ==> r[a].parent == Some(s)
            &&& t.contains_key(a) ==> r[a].parent == t[a].parent
        }),
{
}

/// A stop makes an end of a start: the subagent is done, and where it was new it is still below
/// its session.
pub proof fn law_stop_after_start(
    t: Tree,
    start: JsonView,
    stop: JsonView,
    first: Reading,
    then: Reading,
)
    requires
        hook_of(start) is SubagentStart,
        hook_of(stop) is SubagentStop,
        agent_of(start) is Some,
        agent_of(stop) == agent_of(start),
    ensures
        ({
            let a = agent_of(start)->0;
            let r = step(step(t, start, first).0, stop, then).0;
            &&& r.contains_key(a)
            &&& r[a].status == Status::Done
            &&& r[a].last_event == then.at
            &&& r[a].parent == step(t, start, first).0[a].parent
        }),
{
}

/// The response of a launch makes a known subagent the child of a known launcher, at any depth.
pub proof fn law_true_parent(t: Tree, ev: JsonView, now: Reading)
    requires
        hook_of(ev) is PostToolUse,
        uses_agent_tool(ev),
        t.contains_key(subject_of(ev)),
        response_child(t, subject_of(ev), ev.at("tool_response"@)) is Some,
    ensures
        ({
            let child = response_child(t, subject_of(ev), ev.at("tool_response"@))->0;
            let r = step(t, ev, now);
            &&& r.1
            &&& r.0[child].parent == Some(subject_of(ev))
            &&& r.0[subject_of(ev)].status == Status::Working
        }),
{
}

/// A launch that is not completed brings no numbers and no status.
pub proof fn law_launch_alone_brings_no_numbers(t: Tree, ev: JsonView, now: Reading, id: Seq<char>)
    requires
        hook_of(ev) is PostToolUse,
        ev.at("tool_response"@).str_field("status"@) != Some("completed"@),
        t.contains_key(id),
    ensures
        ({
            let n = step(t, ev, now).0[id];
            &&& n.tokens == t[id].tokens
            &&& n.duration_ms == t[id].duration_ms
            &&& n.tool_calls == t[id].tool_calls
            &&& id != subject_of(ev) ==> n.status == t[id].status
        }),
{
}

/// The response of a completed launch brings the numbers that it gives and keeps the others.
pub proof fn law_completed_launch_brings_numbers(t: Tree, ev: JsonView, now: Reading)
    requires
        hook_of(ev) is PostToolUse,
        uses_agent_tool(ev),
        ev.at("tool_response"@).str_field("status"@) == Some("completed"@),
        response_child(t, subject_of(ev), ev.at("tool_response"@)) is Some,
    ensures
        ({
            let resp = ev.at("tool_response"@);
            let child = response_child(t, subject_of(ev), resp)->0;
            let n = step(t, ev, now).0[child];
            &&& n.status == Status::Done
            &&& n.tokens == or(resp.u64_field("totalTokens"@), t[child].tokens)
            &&& n.duration_ms == or(
                resp.u64_field("totalDurationMs"@),
                t[child].duration_ms,
            )
            &&& n.tool_calls == or(
                resp.u64_field("totalToolUseCount"@),
                t[child].tool_calls,
            )
        }),
{
}

/// A subagent that is gone is not brought back by the response of its launch.
pub proof fn law_launch_resurrects_nothing(t: Tree, ev: JsonView, now: Reading)
    requires
        hook_of(ev) is PostToolUse || hook_of(ev) is PreToolUse,
    ensures
        step(t, ev, now).0.dom() == t.dom(),
{
    assert(step(t, ev, now).0.dom() =~= t.dom());
}

/// What a node is and when it started stays the same as long as the node stays.
pub proof fn law_identity_is_kept(t: Tree, ev: JsonView, now: Reading, id: Seq<char>)
    requires
        t.contains_key(id),
        step(t, ev, now).0.contains_key(id),
    ensures
        ({
            let n = step(t, ev, now).0[id];
            &&& n.id == t[id].id
            &&& n.started == t[id].started
            &&& n.started_at_ms == t[id].started_at_ms
        }),
{
}

/// What is known of a node is replaced, never forgotten.
#[verifier::spinoff_prover]
#[verifier::rlimit(60)]
pub proof fn law_knowledge_is_kept(t: Tree, ev: JsonView, now: Reading, id: Seq<char>)
    requires
        t.contains_key(id),
        step(t, ev, now).0.contains_key(id),
    ensures
        ({
            let n = step(t, ev, now).0[id];
            &&& t[id].tokens is Some ==> n.tokens is Some
            &&& t[id].duration_ms is Some ==> n.duration_ms is Some
            &&& t[id].tool_calls is Some ==> n.tool_calls is Some
            &&& t[id].agent_type is Some ==> n.agent_type is Some
            &&& t[id].cwd is Some ==> n.cwd is Some
            &&& t[id].model is Some ==> n.model is Some
            &&& t[id].parent is Some ==> n.parent is Some
        }),
{
}

/// A subagent without a type that was never seen before stops unnoticed.
pub proof fn law_internal_subagents_are_ignored(t: Tree, ev: JsonView, now: Reading)
    requires
        hook_of(ev) is SubagentStop,
        agent_of(ev) is Some ==> !t.contains_key(agent_of(ev)->0),
        ev.str_field("agent_type"@) is None,
    ensures
        step(t, ev, now) == (t, false),
{
}

/// A task notification brings the numbers that it gives for a known background agent and keeps
/// the others; the agent's status and parent stay.
pub proof fn law_notification_brings_numbers(t: Tree, ev: JsonView, now: Reading)
    requires
        hook_of(ev) is UserPromptSubmit,
        agent_of(ev) is None,
        ev.str_field("prompt"@) is Some,
        notified_task(ev.str_field("prompt"@)->0) is Some,
        t.contains_key(notified_task(ev.str_field("prompt"@)->0)->0),
        notified_task(ev.str_field("prompt"@)->0)->0 != session_of(ev),
    ensures
        ({
            let prompt = ev.str_field("prompt"@)->0;
            let id = notified_task(prompt)->0;
            let n = step(t, ev, now).0[id];
            &&& n.tokens == or(tag_number(prompt, "subagent_tokens"@), t[id].tokens)
            &&& n.tool_calls == or(tag_number(prompt, "tool_uses"@), t[id].tool_calls)
            &&& n.duration_ms == or(tag_number(prompt, "duration_ms"@), t[id].duration_ms)
            &&& n.status == t[id].status
            &&& n.parent == t[id].parent
            &&& n.last_event == now.at
        }),
{
}

/// The response of a launch counts as a change exactly where it names a known subagent other than
/// the launcher. It takes in no node and drops none, and no other node changes.
pub proof fn law_response_is_about_one_child(
    t: Tree,
    launcher: Seq<char>,
    resp: JsonView,
    now: Reading,
    id: Seq<char>,
)
    ensures
        ({
            let (r, changed) = with_response(t, launcher, resp, now);
            &&& changed <==> (resp.str_field("agentId"@) matches Some(child) && child != launcher
                && t.contains_key(child))
            &&& !changed ==> r == t
            &&& r.dom() == t.dom()
            &&& resp.str_field("agentId"@) != Some(id) ==> r[id] == t[id]
        }),
{
    assert(with_response(t, launcher, resp, now).0.dom() =~= t.dom());
}

/// A prompt brings numbers to the known task that it notifies of and to no other node. It takes in
/// no node and drops none. Of the task it changes the numbers that it gives and when the task was
/// last heard of, and nothing else.
pub proof fn law_enrichment_is_about_one_task(t: Tree, prompt: Seq<char>, now: Reading, id: Seq<char>)
    ensures
        ({
            let r = enriched(t, prompt, now);
            &&& r.dom() == t.dom()
            &&& notified_task(prompt) != Some(id) ==> r[id] == t[id]
            &&& !(notified_task(prompt) matches Some(task) && t.contains_key(task)) ==> r == t
            &&& notified_task(prompt) == Some(id) && t.contains_key(id) ==> r[id] == (NodeView {
                last_event: now.at,
                tokens: or(tag_number(prompt, "subagent_tokens"@), t[id].tokens),
                tool_calls: or(tag_number(prompt, "tool_uses"@), t[id].tool_calls),
                duration_ms: or(tag_number(prompt, "duration_ms"@), t[id].duration_ms),
                ..t[id]
            })
        }),
{
    assert(enriched(t, prompt, now).dom() =~= t.dom());
}

/// After a round of removal nothing is up for removal.
pub proof fn law_purge_leaves_nothing_expired(t: Tree, stale: nat, done: nat, at: u128)
    ensures
        !any_expired(purged(t, stale, done, at), stale, done, at),
{
    let r = purged(t, stale, done, at);
    assert forall|d: Seq<char>| #[trigger] r.contains_key(d) implies !expired(
        r,
        r[d],
        stale,
        done,
        at,
    ) by {
        lemma_survivor_not_expired(t, stale, done, at, d);
    }
}

proof fn lemma_survivor_not_expired(t: Tree, stale: nat, done: nat, at: u128, d: Seq<char>)
    requires
        purged(t, stale, done, at).contains_key(d),
    ensures
        !expired(t, t[d], stale, done, at),
        !orphaned(purged(t, stale, done, at), t[d]),
        !expired(purged(t, stale, done, at), t[d], stale, done, at),
{
    lemma_descends_self(t, d);
    if expired(t, t[d], stale, done, at) {
        assert(swept(t, d, stale, done, at));
    }
    if t[d].parent is Some {
        let p = t[d].parent->0;
        if t.contains_key(p) && swept(t, p, stale, done, at) {
            let e = choose|e: Seq<char>|
                #![trigger descends(t, e, p)]
                t.contains_key(e) && expired(t, t[e], stale, done, at) && descends(t, e, p);
            lemma_descends_child(t, e, d);
            assert(swept(t, d, stale, done, at));
        }
    }
}

/// A second round of removal at the same time removes nothing.
pub proof fn law_purge_is_idempotent(t: Tree, stale: nat, done: nat, at: u128)
    ensures
        purged(purged(t, stale, done, at), stale, done, at) == purged(t, stale, done, at),
{
    let r = purged(t, stale, done, at);
    law_purge_leaves_nothing_expired(t, stale, done, at);
    assert forall|id: Seq<char>| !swept(r, id, stale, done, at) by {
        if swept(r, id, stale, done, at) {
            let d = choose|d: Seq<char>|
                #![trigger descends(r, d, id)]
                r.contains_key(d) && expired(r, r[d], stale, done, at) && descends(r, d, id);
            assert(r.contains_key(d) && expired(r, r[d], stale, done, at));
        }
    }
    assert(purged(r, stale, done, at) =~= r);
}

/// No node outlives the time of staleness, whatever was missed: one that has been silent for longer
/// is gone, with all that is below it.
pub proof fn law_zombies_die(t: Tree, stale: nat, done: nat, at: u128, zombie: Seq<char>, id: Seq<char>)
    requires
        t.contains_key(zombie),
        silence(t[zombie], at) > stale,
        descends(t, zombie, id),
    ensures
        !purged(t, stale, done, at).contains_key(zombie),
        !purged(t, stale, done, at).contains_key(id),
{
    lemma_descends_self(t, zombie);
    assert(swept(t, zombie, stale, done, at));
    assert(swept(t, id, stale, done, at));
}

/// A finished subagent lingers for its time and is gone after it.
pub proof fn law_finished_subagents_go(t: Tree, stale: nat, done: nat, at: u128, id: Seq<char>)
    requires
        t.contains_key(id),
        t[id].parent is Some,
        t[id].status == Status::Done || t[id].status == Status::Error,
        silence(t[id], at) >= done,
    ensures
        !purged(t, stale, done, at).contains_key(id),
{
    lemma_descends_self(t, id);
    assert(swept(t, id, stale, done, at));
}

/// A session that has been heard of in time stays, whatever its status.
pub proof fn law_live_sessions_stay(t: Tree, stale: nat, done: nat, at: u128, id: Seq<char>)
    requires
        t.contains_key(id),
        t[id].parent is None,
        silence(t[id], at) <= stale,
    ensures
        purged(t, stale, done, at).contains_key(id),
        purged(t, stale, done, at)[id] == t[id],
{
    if swept(t, id, stale, done, at) {
        let d = choose|d: Seq<char>|
            #![trigger descends(t, d, id)]
            t.contains_key(d) && expired(t, t[d], stale, done, at) && descends(t, d, id);
        lemma_descends_unfold(t, d, id);
    }
}

/// A subagent stays where it has been heard of in time, has not finished too long ago and its
/// parent stays.
pub proof fn law_live_subagents_stay(t: Tree, stale: nat, done: nat, at: u128, id: Seq<char>)
    requires
        t.contains_key(id),
        t[id].parent is Some,
        purged(t, stale, done, at).contains_key(t[id].parent->0),
        silence(t[id], at) <= stale,
        silence(t[id], at) < done || !(t[id].status == Status::Done || t[id].status
            == Status::Error),
    ensures
        purged(t, stale, done, at).contains_key(id),
        purged(t, stale, done, at)[id] == t[id],
{
    if swept(t, id, stale, done, at) {
        let d = choose|d: Seq<char>|
            #![trigger descends(t, d, id)]
            t.contains_key(d) && expired(t, t[d], stale, done, at) && descends(t, d, id);
        lemma_descends_unfold(t, d, id);
        if d != id {
            assert(swept(t, t[id].parent->0, stale, done, at));
        }
    }
}

/// After a round of removal every subagent's parent is there.
pub proof fn law_purge_leaves_no_orphan(t: Tree, stale: nat, done: nat, at: u128, id: Seq<char>)
    requires
        purged(t, stale, done, at).contains_key(id),
    ensures
        !orphaned(purged(t, stale, done, at), purged(t, stale, done, at)[id]),
{
    lemma_survivor_not_expired(t, stale, done, at, id);
}

/// A round of removal counts as a change exactly where it takes a node away.
pub proof fn law_purge_reports_change(t: Tree, stale: nat, done: nat, at: u128)
    ensures
        any_expired(t, stale, done, at) <==> purged(t, stale, done, at) != t,
{
    let r = purged(t, stale, done, at);
    if any_expired(t, stale, done, at) {
        let d = choose|d: Seq<char>| #[trigger]
            t.contains_key(d) && expired(t, t[d], stale, done, at);
        lemma_descends_self(t, d);
        assert(swept(t, d, stale, done, at));
        assert(!r.contains_key(d));
    } else {
        assert forall|id: Seq<char>| !swept(t, id, stale, done, at) by {
            if swept(t, id, stale, done, at) {
                let d = choose|d: Seq<char>|
                    #![trigger descends(t, d, id)]
                    t.contains_key(d) && expired(t, t[d], stale, done, at) && descends(t, d, id);
                assert(t.contains_key(d) && expired(t, t[d], stale, done, at));
            }
        }
        assert(r =~= t);
    }
}

} // verus!
