//! What the session tree is and what each hook event does to it.

use vstd::prelude::*;

use crate::clock::Reading;
use crate::json::JsonView;
use crate::state::Status;
use crate::text::{occurs, parsed_u64, tag_text};

verus! {

/// A session or a subagent, with its texts taken by their views.
#[verifier::ext_equal]
pub struct NodeView {
    pub id: Seq<char>,
    pub parent: Option<Seq<char>>,
    pub agent_type: Option<Seq<char>>,
    pub cwd: Option<Seq<char>>,
    pub status: Status,
    pub started_at_ms: u64,
    pub started: u128,
    pub last_event: u128,
    pub tokens: Option<u64>,
    pub duration_ms: Option<u64>,
    pub tool_calls: Option<u64>,
    pub model: Option<Seq<char>>,
}

/// All nodes, each under its id.
pub type Tree = Map<Seq<char>, NodeView>;

/// Each node stands under its own id.
pub open spec fn keyed(t: Tree) -> bool {
    forall|id: Seq<char>| #[trigger] t.contains_key(id) ==> t[id].id == id
}

/// `a`, or `b` where there is no `a`.
pub open spec fn or<T>(a: Option<T>, b: Option<T>) -> Option<T> {
    match a {
        Some(_) => a,
        None => b,
    }
}

/// The hook events that mean something to the tree.
#[derive(Clone, Copy, Debug, PartialEq, Eq, Structural)]
pub enum Hook {
    SessionStart,
    UserPromptSubmit,
    SubagentStart,
    SubagentStop,
    Stop,
    StopFailure,
    Notification,
    PreToolUse,
    PostToolUse,
    SessionEnd,
    Other,
}

/// The event of that name.
pub open spec fn hook_named(name: Seq<char>) -> Hook {
    if name == "SessionStart"@ {
        Hook::SessionStart
    } else if name == "UserPromptSubmit"@ {
        Hook::UserPromptSubmit
    } else if name == "SubagentStart"@ {
        Hook::SubagentStart
    } else if name == "SubagentStop"@ {
        Hook::SubagentStop
    } else if name == "Stop"@ {
        Hook::Stop
    } else if name == "StopFailure"@ {
        Hook::StopFailure
    } else if name == "Notification"@ {
        Hook::Notification
    } else if name == "PreToolUse"@ {
        Hook::PreToolUse
    } else if name == "PostToolUse"@ {
        Hook::PostToolUse
    } else if name == "SessionEnd"@ {
        Hook::SessionEnd
    } else {
        Hook::Other
    }
}

/// The event that a payload reports; one without a name or a session reports none.
pub open spec fn hook_of(ev: JsonView) -> Hook {
    match ev.str_field("hook_event_name"@) {
        Some(name) => if ev.str_field("session_id"@) is Some {
            hook_named(name)
        } else {
            Hook::Other
        },
        None => Hook::Other,
    }
}

/// The session of a payload.
pub open spec fn session_of(ev: JsonView) -> Seq<char> {
    ev.str_field("session_id"@)->0
}

/// The subagent in which the event fired, if it fired in one.
pub open spec fn agent_of(ev: JsonView) -> Option<Seq<char>> {
    ev.str_field("agent_id"@)
}

/// The node that the event is about: the subagent, or else the session.
pub open spec fn subject_of(ev: JsonView) -> Seq<char> {
    match agent_of(ev) {
        Some(a) => a,
        None => session_of(ev),
    }
}

/// The working directory that a payload names.
pub open spec fn cwd_of(ev: JsonView) -> Option<Seq<char>> {
    ev.str_field("cwd"@)
}

/// A node seen for the first time.
pub open spec fn fresh(
    id: Seq<char>,
    parent: Option<Seq<char>>,
    status: Status,
    now: Reading,
) -> NodeView {
    NodeView {
        id,
        parent,
        agent_type: None,
        cwd: None,
        status,
        started_at_ms: now.epoch_ms,
        started: now.at,
        last_event: now.at,
        tokens: None,
        duration_ms: None,
        tool_calls: None,
        model: None,
    }
}

/// The node of that id, or a fresh one.
pub open spec fn known_or_fresh(
    t: Tree,
    id: Seq<char>,
    parent: Option<Seq<char>>,
    status: Status,
    now: Reading,
) -> NodeView {
    if t.contains_key(id) {
        t[id]
    } else {
        fresh(id, parent, status, now)
    }
}

/// The session is there, has that status and has just been heard of.
pub open spec fn with_root(
    t: Tree,
    session: Seq<char>,
    cwd: Option<Seq<char>>,
    status: Status,
    now: Reading,
) -> Tree {
    let n = known_or_fresh(t, session, None, status, now);
    t.insert(session, NodeView { status, last_event: now.at, cwd: or(cwd, n.cwd), ..n })
}

/// The node, where it is there, has just been heard of, and has the status where one is given.
pub open spec fn touched(t: Tree, id: Seq<char>, status: Option<Status>, now: Reading) -> Tree {
    if t.contains_key(id) {
        let n = t[id];
        t.insert(
            id,
            NodeView {
                last_event: now.at,
                status: match status {
                    Some(s) => s,
                    None => n.status,
                },
                ..n
            },
        )
    } else {
        t
    }
}

/// A number that a tag of `text` gives.
pub open spec fn tag_number(text: Seq<char>, tag: Seq<char>) -> Option<u64> {
    match tag_text(text, tag) {
        Some(s) => parsed_u64(s),
        None => None,
    }
}

/// The node that a task notification is about.
pub open spec fn notified_task(prompt: Seq<char>) -> Option<Seq<char>> {
    if occurs(prompt, "<task-notification>"@) {
        tag_text(prompt, "task-id"@)
    } else {
        None
    }
}

/// A task notification brings the numbers of a background agent; any other prompt brings
/// nothing.
pub open spec fn enriched(t: Tree, prompt: Seq<char>, now: Reading) -> Tree {
    match notified_task(prompt) {
        Some(id) => if t.contains_key(id) {
            let n = t[id];
            t.insert(
                id,
                NodeView {
                    last_event: now.at,
                    tokens: or(tag_number(prompt, "subagent_tokens"@), n.tokens),
                    tool_calls: or(tag_number(prompt, "tool_uses"@), n.tool_calls),
                    duration_ms: or(tag_number(prompt, "duration_ms"@), n.duration_ms),
                    ..n
                },
            )
        } else {
            t
        },
        None => t,
    }
}

/// A session starts.
pub open spec fn after_session_start(t: Tree, ev: JsonView, now: Reading) -> Tree {
    let session = session_of(ev);
    let r = with_root(t, session, cwd_of(ev), Status::Idle, now);
    r.insert(session, NodeView { model: or(ev.str_field("model"@), r[session].model), ..r[session] })
}

/// A prompt is submitted.
pub open spec fn after_prompt(t: Tree, ev: JsonView, now: Reading) -> (Tree, bool) {
    match agent_of(ev) {
        Some(a) => (touched(t, a, Some(Status::Working), now), t.contains_key(a)),
        None => {
            let r = with_root(t, session_of(ev), cwd_of(ev), Status::Working, now);
            match ev.str_field("prompt"@) {
                Some(prompt) => (enriched(r, prompt, now), true),
                None => (r, true),
            }
        },
    }
}

/// A subagent starts.
pub open spec fn after_subagent_start(t: Tree, ev: JsonView, now: Reading) -> (Tree, bool) {
    match agent_of(ev) {
        Some(a) => {
            let r = with_root(t, session_of(ev), cwd_of(ev), Status::Working, now);
            let n = known_or_fresh(r, a, Some(session_of(ev)), Status::Working, now);
            (
                r.insert(
                    a,
                    NodeView {
                        status: Status::Working,
                        last_event: now.at,
                        agent_type: or(ev.str_field("agent_type"@), n.agent_type),
                        cwd: or(cwd_of(ev), n.cwd),
                        ..n
                    },
                ),
                true,
            )
        },
        None => (t, false),
    }
}

/// A subagent stops. One never seen before is taken in where its type is known.
pub open spec fn after_subagent_stop(t: Tree, ev: JsonView, now: Reading) -> (Tree, bool) {
    match agent_of(ev) {
        Some(a) => if t.contains_key(a) {
            (touched(t, a, Some(Status::Done), now), true)
        } else {
            match ev.str_field("agent_type"@) {
                Some(kind) => (
                    t.insert(
                        a,
                        NodeView {
                            agent_type: Some(kind),
                            cwd: cwd_of(ev),
                            ..fresh(a, Some(session_of(ev)), Status::Done, now)
                        },
                    ),
                    true,
                ),
                None => (t, false),
            }
        },
        None => (t, false),
    }
}

/// A turn ends, well or badly.
pub open spec fn after_turn(t: Tree, ev: JsonView, status: Status, now: Reading) -> (Tree, bool) {
    match agent_of(ev) {
        Some(a) => (touched(t, a, Some(status), now), t.contains_key(a)),
        None => (with_root(t, session_of(ev), cwd_of(ev), status, now), true),
    }
}

/// The status that a notification of that type brings.
pub open spec fn notified_status(kind: Option<Seq<char>>) -> Option<Status> {
    match kind {
        Some(k) => if k == "permission_prompt"@ || k == "idle_prompt"@ || k
            == "agent_needs_input"@ {
            Some(Status::Blocked)
        } else if k == "agent_completed"@ {
            Some(Status::Done)
        } else {
            None
        },
        None => None,
    }
}

/// A notification comes. One of an unknown type leaves the status as it is, and takes in no
/// session that is not known.
pub open spec fn after_notification(t: Tree, ev: JsonView, now: Reading) -> (Tree, bool) {
    let status = notified_status(ev.str_field("notification_type"@));
    match agent_of(ev) {
        Some(a) => (touched(t, a, status, now), t.contains_key(a)),
        None => match status {
            Some(s) => (with_root(t, session_of(ev), cwd_of(ev), s, now), true),
            None => if t.contains_key(session_of(ev)) {
                (
                    with_root(t, session_of(ev), cwd_of(ev), t[session_of(ev)].status, now),
                    true,
                )
            } else {
                (t, false)
            },
        },
    }
}

/// The tool that launches subagents is in use.
pub open spec fn uses_agent_tool(ev: JsonView) -> bool {
    ev.str_field("tool_name"@) == Some("Agent"@)
}

/// A node is about to launch a subagent.
pub open spec fn after_pre_tool(t: Tree, ev: JsonView, now: Reading) -> (Tree, bool) {
    if uses_agent_tool(ev) {
        (touched(t, subject_of(ev), Some(Status::Working), now), t.contains_key(subject_of(ev)))
    } else {
        (t, false)
    }
}

/// The subagent that a tool response is about, where it is a known one other than the launcher.
pub open spec fn response_child(t: Tree, launcher: Seq<char>, resp: JsonView) -> Option<Seq<char>> {
    match resp.str_field("agentId"@) {
        Some(child) => if child != launcher && t.contains_key(child) {
            Some(child)
        } else {
            None
        },
        None => None,
    }
}

/// A subagent as the response of its launch shows it: launched by a known launcher it is that
/// launcher's child, and where it is completed it is done and has its numbers.
pub open spec fn launched(
    t: Tree,
    n: NodeView,
    launcher: Seq<char>,
    resp: JsonView,
    now: Reading,
) -> NodeView {
    let completed = resp.str_field("status"@) == Some("completed"@);
    NodeView {
        parent: if t.contains_key(launcher) {
            Some(launcher)
        } else {
            n.parent
        },
        last_event: now.at,
        agent_type: or(resp.str_field("agentType"@), n.agent_type),
        model: or(resp.str_field("resolvedModel"@), n.model),
        status: if completed {
            Status::Done
        } else {
            n.status
        },
        tokens: if completed {
            or(resp.u64_field("totalTokens"@), n.tokens)
        } else {
            n.tokens
        },
        duration_ms: if completed {
            or(resp.u64_field("totalDurationMs"@), n.duration_ms)
        } else {
            n.duration_ms
        },
        tool_calls: if completed {
            or(resp.u64_field("totalToolUseCount"@), n.tool_calls)
        } else {
            n.tool_calls
        },
        ..n
    }
}

/// The response of a launch is in.
pub open spec fn with_response(
    t: Tree,
    launcher: Seq<char>,
    resp: JsonView,
    now: Reading,
) -> (Tree, bool) {
    match response_child(t, launcher, resp) {
        Some(child) => (t.insert(child, launched(t, t[child], launcher, resp, now)), true),
        None => (t, false),
    }
}

/// A node has launched a subagent.
pub open spec fn after_post_tool(t: Tree, ev: JsonView, now: Reading) -> (Tree, bool) {
    if uses_agent_tool(ev) {
        let r = touched(t, subject_of(ev), Some(Status::Working), now);
        match ev.get("tool_response"@) {
            Some(resp) => {
                let (s, changed) = with_response(r, subject_of(ev), resp, now);
                (s, changed || t.contains_key(subject_of(ev)))
            },
            None => (r, t.contains_key(subject_of(ev))),
        }
    } else {
        (t, false)
    }
}

/// Where `n` steps from child to parent lead, as long as the nodes on the way are there.
pub open spec fn ancestor(t: Tree, id: Seq<char>, n: nat) -> Option<Seq<char>>
    decreases n,
{
    if n == 0 {
        Some(id)
    } else if t.contains_key(id) && t[id].parent is Some {
        ancestor(t, t[id].parent->0, (n - 1) as nat)
    } else {
        None
    }
}

/// `id` is `root` itself or below it.
pub open spec fn descends(t: Tree, root: Seq<char>, id: Seq<char>) -> bool {
    exists|n: nat| #[trigger] ancestor(t, id, n) == Some(root)
}

/// A node descends from itself.
pub proof fn lemma_descends_self(t: Tree, id: Seq<char>)
    ensures
        descends(t, id, id),
{
    assert(ancestor(t, id, 0) == Some(id));
}

/// What descends from a node's parent's ancestor does so through the parent.
pub proof fn lemma_descends_child(t: Tree, root: Seq<char>, id: Seq<char>)
    requires
        t.contains_key(id),
        t[id].parent is Some,
        descends(t, root, t[id].parent->0),
    ensures
        descends(t, root, id),
{
    let n = choose|n: nat| #[trigger] ancestor(t, t[id].parent->0, n) == Some(root);
    assert(ancestor(t, id, n + 1) == ancestor(t, t[id].parent->0, n));
}

/// To descend from a node is to be it or to have a parent that descends from it.
pub proof fn lemma_descends_unfold(t: Tree, root: Seq<char>, id: Seq<char>)
    requires
        descends(t, root, id),
    ensures
        id == root || t.contains_key(id) && t[id].parent is Some && descends(
            t,
            root,
            t[id].parent->0,
        ),
{
    let n = choose|n: nat| #[trigger] ancestor(t, id, n) == Some(root);
    if n > 0 {
        assert(ancestor(t, id, n) == ancestor(t, t[id].parent->0, (n - 1) as nat));
    }
}

/// The tree without `root` and all that is below it.
pub open spec fn without_tree(t: Tree, root: Seq<char>) -> Tree {
    if t.contains_key(root) {
        Map::new(|id: Seq<char>| t.contains_key(id) && !descends(t, root, id), |id: Seq<char>| t[id])
    } else {
        t
    }
}

/// What a payload does to the tree, and whether it counts as a change.
pub open spec fn step(t: Tree, ev: JsonView, now: Reading) -> (Tree, bool) {
    match hook_of(ev) {
        Hook::SessionStart => (after_session_start(t, ev, now), true),
        Hook::UserPromptSubmit => after_prompt(t, ev, now),
        Hook::SubagentStart => after_subagent_start(t, ev, now),
        Hook::SubagentStop => after_subagent_stop(t, ev, now),
        Hook::Stop => after_turn(t, ev, Status::Done, now),
        Hook::StopFailure => after_turn(t, ev, Status::Error, now),
        Hook::Notification => after_notification(t, ev, now),
        Hook::PreToolUse => after_pre_tool(t, ev, now),
        Hook::PostToolUse => after_post_tool(t, ev, now),
        Hook::SessionEnd => (without_tree(t, session_of(ev)), t.contains_key(session_of(ev))),
        Hook::Other => (t, false),
    }
}

/// How long a node has been silent, in nanoseconds.
pub open spec fn silence(n: NodeView, at: u128) -> nat {
    if at >= n.last_event {
        (at - n.last_event) as nat
    } else {
        0
    }
}

/// A node's parent is gone.
pub open spec fn orphaned(t: Tree, n: NodeView) -> bool {
    n.parent is Some && !t.contains_key(n.parent->0)
}

/// A node is up for removal: silent for longer than it may be, an orphan, or a subagent that has
/// finished long enough ago.
pub open spec fn expired(t: Tree, n: NodeView, stale: nat, done: nat, at: u128) -> bool {
    ||| silence(n, at) > stale
    ||| orphaned(t, n)
    ||| n.parent is Some && (n.status == Status::Done || n.status == Status::Error) && silence(n, at)
        >= done
}

/// `id` is an expired node or below one.
pub open spec fn swept(t: Tree, id: Seq<char>, stale: nat, done: nat, at: u128) -> bool {
    exists|d: Seq<char>|
        #![trigger descends(t, d, id)]
        t.contains_key(d) && expired(t, t[d], stale, done, at) && descends(t, d, id)
}

/// Some node is expired.
pub open spec fn any_expired(t: Tree, stale: nat, done: nat, at: u128) -> bool {
    exists|d: Seq<char>| #[trigger] t.contains_key(d) && expired(t, t[d], stale, done, at)
}

/// The tree without the expired nodes and all that is below them.
pub open spec fn purged(t: Tree, stale: nat, done: nat, at: u128) -> Tree {
    Map::new(
        |id: Seq<char>| t.contains_key(id) && !swept(t, id, stale, done, at),
        |id: Seq<char>| t[id],
    )
}

/// To descend is transitive.
pub proof fn lemma_descends_through(t: Tree, a: Seq<char>, b: Seq<char>, c: Seq<char>)
    requires
        descends(t, a, b),
        descends(t, b, c),
    ensures
        descends(t, a, c),
{
    let m = choose|m: nat| #[trigger] ancestor(t, b, m) == Some(a);
    let n = choose|n: nat| #[trigger] ancestor(t, c, n) == Some(b);
    lemma_ancestor_sum(t, c, n, m);
    assert(ancestor(t, c, n + m) == Some(a));
}

proof fn lemma_ancestor_sum(t: Tree, id: Seq<char>, n: nat, m: nat)
    requires
        ancestor(t, id, n) is Some,
    ensures
        ancestor(t, id, n + m) == ancestor(t, ancestor(t, id, n)->0, m),
    decreases n,
{
    if n > 0 {
        lemma_ancestor_sum(t, t[id].parent->0, (n - 1) as nat, m);
        assert((n - 1) + m == (n + m) - 1);
    }
}

/// `c` is a part of `t` that has with each node the node's parent, where `t` has it.
pub open spec fn upper_part(t: Tree, c: Tree) -> bool {
    forall|id: Seq<char>| #[trigger]
        c.contains_key(id) ==> {
            &&& t.contains_key(id)
            &&& c[id] == t[id]
            &&& t[id].parent is Some && t.contains_key(t[id].parent->0) ==> c.contains_key(
                t[id].parent->0,
            )
        }
}

proof fn lemma_upper_ancestor(t: Tree, c: Tree, id: Seq<char>, n: nat)
    requires
        upper_part(t, c),
        c.contains_key(id) || !t.contains_key(id),
    ensures
        ancestor(c, id, n) == ancestor(t, id, n),
    decreases n,
{
    if n > 0 {
        if c.contains_key(id) {
            if t[id].parent is Some {
                lemma_upper_ancestor(t, c, t[id].parent->0, (n - 1) as nat);
            }
        }
    }
}

/// In such a part the nodes descend from the same nodes as in the whole.
pub proof fn lemma_upper_descends(t: Tree, c: Tree, root: Seq<char>, id: Seq<char>)
    requires
        upper_part(t, c),
        c.contains_key(id),
    ensures
        descends(c, root, id) == descends(t, root, id),
{
    if descends(t, root, id) {
        let n = choose|n: nat| #[trigger] ancestor(t, id, n) == Some(root);
        lemma_upper_ancestor(t, c, id, n);
        assert(ancestor(c, id, n) == Some(root));
    }
    if descends(c, root, id) {
        let n = choose|n: nat| #[trigger] ancestor(c, id, n) == Some(root);
        lemma_upper_ancestor(t, c, id, n);
        assert(ancestor(t, id, n) == Some(root));
    }
}

/// `id` descends from one of the first `k` of `roots`.
pub open spec fn below_any(t: Tree, roots: Seq<Seq<char>>, k: int, id: Seq<char>) -> bool {
    exists|m: int| 0 <= m < k && descends(t, #[trigger] roots[m], id)
}

/// The tree without the first `k` of `roots` and all that is below them.
pub open spec fn without_trees(t: Tree, roots: Seq<Seq<char>>, k: int) -> Tree {
    Map::new(
        |id: Seq<char>| t.contains_key(id) && !below_any(t, roots, k, id),
        |id: Seq<char>| t[id],
    )
}

/// Removing trees one after the other removes what descended from any of their roots at first.
pub proof fn lemma_without_next(t: Tree, roots: Seq<Seq<char>>, k: int)
    requires
        0 <= k < roots.len(),
        t.contains_key(roots[k]),
    ensures
        without_tree(without_trees(t, roots, k), roots[k]) == without_trees(t, roots, k + 1),
{
    let c = without_trees(t, roots, k);
    let d = roots[k];
    assert(upper_part(t, c)) by {
        assert forall|id: Seq<char>| #[trigger] c.contains_key(id) && t[id].parent is Some
            && t.contains_key(t[id].parent->0) implies c.contains_key(t[id].parent->0) by {
            let p = t[id].parent->0;
            if below_any(t, roots, k, p) {
                let m = choose|m: int| 0 <= m < k && descends(t, #[trigger] roots[m], p);
                lemma_descends_child(t, roots[m], id);
            }
        }
    }
    let left = without_tree(c, d);
    let right = without_trees(t, roots, k + 1);
    assert forall|id: Seq<char>| #[trigger] left.contains_key(id) implies right.contains_key(id)
        && left[id] == right[id] by {
        if below_any(t, roots, k + 1, id) {
            let m = choose|m: int| 0 <= m < k + 1 && descends(t, #[trigger] roots[m], id);
            if m < k {
                assert(below_any(t, roots, k, id));
            } else if c.contains_key(d) {
                lemma_upper_descends(t, c, d, id);
            } else {
                let q = choose|q: int| 0 <= q < k && descends(t, #[trigger] roots[q], d);
                lemma_descends_through(t, roots[q], d, id);
                assert(below_any(t, roots, k, id));
            }
        }
    }
    assert forall|id: Seq<char>| #[trigger] right.contains_key(id) implies left.contains_key(id) by {
        assert(!below_any(t, roots, k, id)) by {
            if below_any(t, roots, k, id) {
                let m = choose|m: int| 0 <= m < k && descends(t, #[trigger] roots[m], id);
                assert(below_any(t, roots, k + 1, id));
            }
        }
        if descends(t, roots[k], id) {
            assert(below_any(t, roots, k + 1, id));
        }
        lemma_upper_descends(t, c, d, id);
    }
    assert(left =~= right);
}

} // verus!
