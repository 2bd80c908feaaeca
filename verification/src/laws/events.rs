//! Laws of what each event does, on the members of its payload and the fields of the nodes.

use vstd::prelude::*;

use crate::clock::Reading;
use crate::json::{number_as_i64, number_as_u64, JsonView};
use crate::model::{hook_named, step, Hook, NodeView, Tree};
use crate::state::Status;
use crate::text::{occurs, parsed_u64, tag_text};

verus! {

/// The member of a payload, where it is a text that is not empty.
pub open spec fn text_at(v: JsonView, key: Seq<char>) -> Option<Seq<char>> {
    match v.at(key) {
        JsonView::Str(s) => if s.len() > 0 {
            Some(s)
        } else {
            None
        },
        _ => None,
    }
}

/// A payload of that name, of that session.
pub open spec fn reports(ev: JsonView, name: Seq<char>, session: Seq<char>) -> bool {
    text_at(ev, "hook_event_name"@) == Some(name) && text_at(ev, "session_id"@) == Some(session)
}

/// The new text where there is one, and otherwise the one that was there.
pub open spec fn newer(new: Option<Seq<char>>, kept: Option<Seq<char>>) -> Option<Seq<char>> {
    if new is Some {
        new
    } else {
        kept
    }
}

/// A node of which nothing is known but that it has come up just now.
pub open spec fn just_met(
    id: Seq<char>,
    parent: Option<Seq<char>>,
    status: Status,
    now: Reading,
) -> NodeView {
    NodeView {
        id: id,
        parent: parent,
        agent_type: None,
        cwd: None,
        status: status,
        started_at_ms: now.epoch_ms,
        started: now.at,
        last_event: now.at,
        tokens: None,
        duration_ms: None,
        tool_calls: None,
        model: None,
    }
}

/// A session as it is after an event of its own: it has that status and has just been heard of,
/// its directory is the one that the event names, and all else is as it was.
pub open spec fn session_after(
    t: Tree,
    s: Seq<char>,
    status: Status,
    ev: JsonView,
    now: Reading,
) -> NodeView {
    if t.contains_key(s) {
        NodeView {
            status: status,
            last_event: now.at,
            cwd: newer(text_at(ev, "cwd"@), t[s].cwd),
            ..t[s]
        }
    } else {
        NodeView { cwd: text_at(ev, "cwd"@), ..just_met(s, None, status, now) }
    }
}

/// A member of an object is what stands under its name; what is not there, or stands in no object,
/// reads as null.
pub proof fn law_members_are_looked_up(m: Map<Seq<char>, JsonView>, v: JsonView, key: Seq<char>)
    ensures
        m.contains_key(key) ==> JsonView::Object(m).get(key) == Some(m[key])
            && JsonView::Object(m).at(key) == m[key],
        !m.contains_key(key) ==> JsonView::Object(m).get(key) is None && JsonView::Object(m).at(key)
            is Null,
        !(v is Object) ==> v.get(key) is None && v.at(key) is Null,
        v.str_field(key) == text_at(v, key),
        v.u64_field(key) == v.at(key).as_u64(),
        JsonView::Array(seq![v]).as_array() == Some(seq![v]),
        v.as_str() matches Some(s) ==> v == JsonView::Str(s),
        v.as_array() matches Some(a) ==> v == JsonView::Array(a),
        v is Number ==> v.as_u64() == number_as_u64(v->Number_0) && v.as_i64() == number_as_i64(
            v->Number_0,
        ),
        !(v is Number) ==> v.as_u64() is None && v.as_i64() is None,
        v is Str <==> v.as_str() is Some,
        v is Array <==> v.as_array() is Some,
{
}

proof fn lemma_hook_names()
    ensures
        hook_named("SessionStart"@) == Hook::SessionStart,
        hook_named("UserPromptSubmit"@) == Hook::UserPromptSubmit,
        hook_named("SubagentStart"@) == Hook::SubagentStart,
        hook_named("SubagentStop"@) == Hook::SubagentStop,
        hook_named("Stop"@) == Hook::Stop,
        hook_named("StopFailure"@) == Hook::StopFailure,
        hook_named("Notification"@) == Hook::Notification,
        hook_named("PreToolUse"@) == Hook::PreToolUse,
        hook_named("PostToolUse"@) == Hook::PostToolUse,
        hook_named("SessionEnd"@) == Hook::SessionEnd,
{
    reveal_strlit("SessionStart");
    reveal_strlit("UserPromptSubmit");
    reveal_strlit("SubagentStart");
    reveal_strlit("SubagentStop");
    reveal_strlit("Stop");
    reveal_strlit("StopFailure");
    reveal_strlit("Notification");
    reveal_strlit("PreToolUse");
    reveal_strlit("PostToolUse");
    reveal_strlit("SessionEnd");
    assert("SubagentStart"@.len() == 13 && "SubagentStop"@.len() == 12);
    assert("UserPromptSubmit"@.len() == 16 && "Stop"@.len() == 4);
    assert("StopFailure"@.len() == 11 && "Notification"@.len() == 12);
    assert("PostToolUse"@.len() == 11 && "PreToolUse"@.len() == 10);
    assert("SessionEnd"@.len() == 10 && "SessionStart"@.len() == 12);
    assert("SubagentStop"@[1] == 'u' && "SessionStart"@[1] == 'e' && "Notification"@[0] == 'N');
    assert("SubagentStop"@[0] == 'S' && "SessionStart"@[0] == 'S');
    assert("StopFailure"@[0] == 'S' && "PostToolUse"@[0] == 'P');
    assert("PreToolUse"@[0] == 'P' && "SessionEnd"@[0] == 'S');
}

/// Ten events mean something; any other leaves the tree as it is and counts as no change, and so
/// does a payload without a name or without a session.
pub proof fn law_other_events_mean_nothing(t: Tree, ev: JsonView, now: Reading)
    requires
        text_at(ev, "session_id"@) is None || text_at(ev, "hook_event_name"@) is None || ({
            let name = text_at(ev, "hook_event_name"@)->0;
            &&& name != "SessionStart"@ && name != "UserPromptSubmit"@ && name != "SubagentStart"@
            &&& name != "SubagentStop"@ && name != "Stop"@ && name != "StopFailure"@
            &&& name != "Notification"@ && name != "PreToolUse"@ && name != "PostToolUse"@
            &&& name != "SessionEnd"@
        }),
    ensures
        step(t, ev, now) == (t, false),
{
}

/// The start of a session shows it idle, with the model that the event names, whether or not it
/// was known; no other node changes.
pub proof fn law_session_start_shows_idle(t: Tree, ev: JsonView, now: Reading, s: Seq<char>)
    requires
        reports(ev, "SessionStart"@, s),
    ensures
        ({
            let (r, changed) = step(t, ev, now);
            let n = session_after(t, s, Status::Idle, ev, now);
            &&& changed
            &&& r.contains_key(s)
            &&& r[s] == (NodeView { model: newer(text_at(ev, "model"@), n.model), ..n })
            &&& r.remove(s) == t.remove(s)
        }),
{
    lemma_hook_names();
    assert(step(t, ev, now).0.remove(s) =~= t.remove(s));
}

/// The end of a session's turn shows it done, a failed one shows it in error; no other node
/// changes.
pub proof fn law_turns_end_done_or_in_error(t: Tree, ev: JsonView, now: Reading, s: Seq<char>)
    requires
        reports(ev, "Stop"@, s) || reports(ev, "StopFailure"@, s),
        text_at(ev, "agent_id"@) is None,
    ensures
        ({
            let (r, changed) = step(t, ev, now);
            &&& changed
            &&& r.contains_key(s)
            &&& reports(ev, "Stop"@, s) ==> r[s] == session_after(t, s, Status::Done, ev, now)
            &&& reports(ev, "StopFailure"@, s) ==> r[s] == session_after(
                t,
                s,
                Status::Error,
                ev,
                now,
            )
            &&& r.remove(s) == t.remove(s)
        }),
{
    lemma_hook_names();
    assert(step(t, ev, now).0.remove(s) =~= t.remove(s));
}

/// A notification that asks for input shows the session blocked and takes it in where it is new,
/// one that reports completion shows it done, and any other leaves the status of a known session as
/// it is and takes in no new one; no other node changes.
pub proof fn law_notifications_block_or_complete(t: Tree, ev: JsonView, now: Reading, s: Seq<char>)
    requires
        reports(ev, "Notification"@, s),
        text_at(ev, "agent_id"@) is None,
    ensures
        ({
            let (r, changed) = step(t, ev, now);
            let kind = text_at(ev, "notification_type"@);
            let asks = kind == Some("permission_prompt"@) || kind == Some("idle_prompt"@) || kind
                == Some("agent_needs_input"@);
            let completes = kind == Some("agent_completed"@);
            &&& asks ==> changed && r.contains_key(s) && r[s] == session_after(
                t,
                s,
                Status::Blocked,
                ev,
                now,
            )
            &&& completes ==> changed && r.contains_key(s) && r[s] == session_after(
                t,
                s,
                Status::Done,
                ev,
                now,
            )
            &&& !asks && !completes && t.contains_key(s) ==> changed && r.contains_key(s) && r[s]
                == session_after(t, s, t[s].status, ev, now)
            &&& !asks && !completes && !t.contains_key(s) ==> !changed && r == t
            &&& r.remove(s) == t.remove(s)
        }),
{
    lemma_hook_names();
    reveal_strlit("agent_completed");
    reveal_strlit("permission_prompt");
    reveal_strlit("idle_prompt");
    reveal_strlit("agent_needs_input");
    assert("agent_completed"@.len() == 15 && "permission_prompt"@.len() == 17);
    assert("idle_prompt"@.len() == 11 && "agent_needs_input"@.len() == 17);
    assert(step(t, ev, now).0.remove(s) =~= t.remove(s));
}

/// The number in a tag of a prompt where it is one, and otherwise the number that was there.
pub open spec fn number_in(prompt: Seq<char>, tag: Seq<char>, kept: Option<u64>) -> Option<u64> {
    match tag_text(prompt, tag) {
        Some(s) => if parsed_u64(s) is Some {
            parsed_u64(s)
        } else {
            kept
        },
        None => kept,
    }
}

/// A prompt shows its session at work and takes it in where it is new. Where it notifies of a task
/// that is a known node, that node gets the numbers that the prompt gives and is heard of; nothing
/// else changes.
pub proof fn law_prompts_put_to_work(
    t: Tree,
    ev: JsonView,
    now: Reading,
    s: Seq<char>,
    prompt: Seq<char>,
    id: Seq<char>,
)
    requires
        reports(ev, "UserPromptSubmit"@, s),
        text_at(ev, "agent_id"@) is None,
        prompt == (match text_at(ev, "prompt"@) {
            Some(p) => p,
            None => Seq::empty(),
        }),
    ensures
        ({
            let (r, changed) = step(t, ev, now);
            let notified = occurs(prompt, "<task-notification>"@) && tag_text(prompt, "task-id"@)
                == Some(id);
            &&& changed
            &&& r.contains_key(s)
            &&& r.contains_key(id) == (id == s || t.contains_key(id))
            &&& id == s && !notified ==> r[s] == session_after(t, s, Status::Working, ev, now)
            &&& id == s && notified ==> ({
                let n = session_after(t, s, Status::Working, ev, now);
                r[s] == (NodeView {
                    tokens: number_in(prompt, "subagent_tokens"@, n.tokens),
                    tool_calls: number_in(prompt, "tool_uses"@, n.tool_calls),
                    duration_ms: number_in(prompt, "duration_ms"@, n.duration_ms),
                    ..n
                })
            })
            &&& id != s && notified && t.contains_key(id) ==> r[id] == (NodeView {
                last_event: now.at,
                tokens: number_in(prompt, "subagent_tokens"@, t[id].tokens),
                tool_calls: number_in(prompt, "tool_uses"@, t[id].tool_calls),
                duration_ms: number_in(prompt, "duration_ms"@, t[id].duration_ms),
                ..t[id]
            })
            &&& id != s && !notified ==> r[id] == t[id]
        }),
{
    lemma_hook_names();
    if text_at(ev, "prompt"@) is None {
        reveal_strlit("<task-notification>");
        assert(!occurs(prompt, "<task-notification>"@));
    }
}

/// A prompt, the end of a turn or a notification inside a subagent is about that subagent alone: it
/// sets the status where the subagent is known, and takes in nothing where it is not.
pub proof fn law_events_inside_a_subagent(
    t: Tree,
    ev: JsonView,
    now: Reading,
    s: Seq<char>,
    a: Seq<char>,
)
    requires
        text_at(ev, "agent_id"@) == Some(a),
        reports(ev, "UserPromptSubmit"@, s) || reports(ev, "Stop"@, s) || reports(
            ev,
            "StopFailure"@,
            s,
        ) || reports(ev, "Notification"@, s),
    ensures
        ({
            let (r, changed) = step(t, ev, now);
            let kind = text_at(ev, "notification_type"@);
            let asks = kind == Some("permission_prompt"@) || kind == Some("idle_prompt"@) || kind
                == Some("agent_needs_input"@);
            &&& changed == t.contains_key(a)
            &&& !t.contains_key(a) ==> r == t
            &&& t.contains_key(a) ==> r.contains_key(a) && r[a] == (NodeView {
                status: r[a].status,
                last_event: now.at,
                ..t[a]
            })
            &&& r.remove(a) == t.remove(a)
            &&& t.contains_key(a) && reports(ev, "UserPromptSubmit"@, s) ==> r[a].status
                == Status::Working
            &&& t.contains_key(a) && reports(ev, "Stop"@, s) ==> r[a].status == Status::Done
            &&& t.contains_key(a) && reports(ev, "StopFailure"@, s) ==> r[a].status == Status::Error
            &&& t.contains_key(a) && reports(ev, "Notification"@, s) ==> r[a].status == (if asks {
                Status::Blocked
            } else if kind == Some("agent_completed"@) {
                Status::Done
            } else {
                t[a].status
            })
        }),
{
    lemma_hook_names();
    assert(step(t, ev, now).0.remove(a) =~= t.remove(a));
}

/// The start of a subagent shows it and its session at work. A new subagent is a child of its
/// session; a known one keeps its parent and all else that the event does not name.
pub proof fn law_subagents_start_at_work(
    t: Tree,
    ev: JsonView,
    now: Reading,
    s: Seq<char>,
    a: Seq<char>,
)
    requires
        reports(ev, "SubagentStart"@, s),
        text_at(ev, "agent_id"@) == Some(a),
    ensures
        ({
            let (r, changed) = step(t, ev, now);
            let n = if a == s {
                session_after(t, s, Status::Working, ev, now)
            } else if t.contains_key(a) {
                t[a]
            } else {
                just_met(a, Some(s), Status::Working, now)
            };
            &&& changed
            &&& r.contains_key(s) && r.contains_key(a)
            &&& a != s ==> r[s] == session_after(t, s, Status::Working, ev, now)
            &&& r[a] == (NodeView {
                status: Status::Working,
                last_event: now.at,
                agent_type: newer(text_at(ev, "agent_type"@), n.agent_type),
                cwd: newer(text_at(ev, "cwd"@), n.cwd),
                ..n
            })
            &&& r.remove(s).remove(a) == t.remove(s).remove(a)
        }),
{
    lemma_hook_names();
    assert(step(t, ev, now).0.remove(s).remove(a) =~= t.remove(s).remove(a));
}

/// A subagent event that names no subagent does nothing.
pub proof fn law_subagent_events_name_one(t: Tree, ev: JsonView, now: Reading, s: Seq<char>)
    requires
        reports(ev, "SubagentStart"@, s) || reports(ev, "SubagentStop"@, s),
        text_at(ev, "agent_id"@) is None,
    ensures
        step(t, ev, now) == (t, false),
{
    lemma_hook_names();
}

/// The stop of a subagent shows it done. One never seen before is taken in below its session where
/// the event names its type, and otherwise nothing happens; no other node changes.
pub proof fn law_subagents_stop_done(
    t: Tree,
    ev: JsonView,
    now: Reading,
    s: Seq<char>,
    a: Seq<char>,
)
    requires
        reports(ev, "SubagentStop"@, s),
        text_at(ev, "agent_id"@) == Some(a),
    ensures
        ({
            let (r, changed) = step(t, ev, now);
            let kind = text_at(ev, "agent_type"@);
            &&& t.contains_key(a) ==> changed && r.contains_key(a) && r[a] == (NodeView {
                status: Status::Done,
                last_event: now.at,
                ..t[a]
            })
            &&& !t.contains_key(a) && kind is Some ==> changed && r.contains_key(a) && r[a] == (
            NodeView {
                agent_type: kind,
                cwd: text_at(ev, "cwd"@),
                ..just_met(a, Some(s), Status::Done, now)
            })
            &&& !t.contains_key(a) && kind is None ==> !changed && r == t
            &&& r.remove(a) == t.remove(a)
        }),
{
    lemma_hook_names();
    assert(step(t, ev, now).0.remove(a) =~= t.remove(a));
}

/// A tool event is about the subagent that it fired in, and otherwise about the session.
pub open spec fn fired_in(ev: JsonView, s: Seq<char>) -> Seq<char> {
    match text_at(ev, "agent_id"@) {
        Some(a) => a,
        None => s,
    }
}

/// A known node that is about to launch a subagent is at work and has just been heard of; all else
/// of it, and every other node, is as it was.
pub proof fn law_launchers_are_at_work(t: Tree, ev: JsonView, now: Reading, s: Seq<char>)
    requires
        reports(ev, "PreToolUse"@, s),
        text_at(ev, "tool_name"@) == Some("Agent"@),
    ensures
        ({
            let (r, changed) = step(t, ev, now);
            let who = fired_in(ev, s);
            &&& changed == t.contains_key(who)
            &&& !t.contains_key(who) ==> r == t
            &&& t.contains_key(who) ==> r.contains_key(who) && r[who] == (NodeView {
                status: Status::Working,
                last_event: now.at,
                ..t[who]
            })
            &&& r.remove(who) == t.remove(who)
        }),
{
    lemma_hook_names();
    assert(step(t, ev, now).0.remove(fired_in(ev, s)) =~= t.remove(fired_in(ev, s)));
}

/// The use of any other tool does nothing.
pub proof fn law_other_tools_mean_nothing(t: Tree, ev: JsonView, now: Reading, s: Seq<char>)
    requires
        reports(ev, "PreToolUse"@, s) || reports(ev, "PostToolUse"@, s),
        text_at(ev, "tool_name"@) != Some("Agent"@),
    ensures
        step(t, ev, now) == (t, false),
{
    lemma_hook_names();
}

/// The number of a response where it gives one, and otherwise the number that was there.
pub open spec fn number_given(resp: JsonView, key: Seq<char>, kept: Option<u64>) -> Option<u64> {
    if resp.at(key).as_u64() is Some {
        resp.at(key).as_u64()
    } else {
        kept
    }
}

/// A node that has launched a subagent is at work. The subagent that the response names, where it
/// is another known node, becomes a child of a known launcher and takes over the type and the model
/// that the response gives; a completed one is done and takes over the numbers that the response
/// gives, and any other keeps its status and its numbers. No other node changes, and none is taken
/// in.
pub proof fn law_launches_name_the_parent(
    t: Tree,
    ev: JsonView,
    now: Reading,
    s: Seq<char>,
    id: Seq<char>,
)
    requires
        reports(ev, "PostToolUse"@, s),
        text_at(ev, "tool_name"@) == Some("Agent"@),
    ensures
        ({
            let (r, changed) = step(t, ev, now);
            let who = fired_in(ev, s);
            let resp = ev.at("tool_response"@);
            let child = text_at(resp, "agentId"@);
            let completed = text_at(resp, "status"@) == Some("completed"@);
            &&& changed <==> t.contains_key(who) || (child matches Some(c) && c != who
                && t.contains_key(c))
            &&& r.contains_key(id) == t.contains_key(id)
            &&& id == who && t.contains_key(id) ==> r[id] == (NodeView {
                status: Status::Working,
                last_event: now.at,
                ..t[id]
            })
            &&& id != who && child == Some(id) && t.contains_key(id) ==> r[id] == (NodeView {
                parent: if t.contains_key(who) {
                    Some(who)
                } else {
                    t[id].parent
                },
                last_event: now.at,
                agent_type: newer(text_at(resp, "agentType"@), t[id].agent_type),
                model: newer(text_at(resp, "resolvedModel"@), t[id].model),
                status: if completed {
                    Status::Done
                } else {
                    t[id].status
                },
                tokens: if completed {
                    number_given(resp, "totalTokens"@, t[id].tokens)
                } else {
                    t[id].tokens
                },
                duration_ms: if completed {
                    number_given(resp, "totalDurationMs"@, t[id].duration_ms)
                } else {
                    t[id].duration_ms
                },
                tool_calls: if completed {
                    number_given(resp, "totalToolUseCount"@, t[id].tool_calls)
                } else {
                    t[id].tool_calls
                },
                ..t[id]
            })
            &&& id != who && child != Some(id) ==> r[id] == t[id]
        }),
{
    lemma_hook_names();
}

} // verus!
