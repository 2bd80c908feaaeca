//! The laws of the session tree, on concrete payloads and readings of the clocks.

use agentdeck::clock::Reading;
use agentdeck::json::Json;
use agentdeck::state::{Status, Store};
use agentdeck::wire::parse_text;
use std::time::Duration;

fn json(text: &str) -> Json {
    parse_text(text).unwrap_or_else(|e| panic!("{text}: {e}"))
}

fn secs(n: u64) -> Reading {
    Reading { at: n as u128 * 1_000_000_000, epoch_ms: 1_000 * n }
}

/// Takes in an event of session `s`, with more members where `rest` gives some.
fn event(store: &mut Store, name: &str, rest: &str, at: u64) -> bool {
    let text = format!(r#"{{"hook_event_name":"{name}","session_id":"s"{rest}}}"#);
    store.apply_at(&json(&text), &secs(at))
}

fn status(store: &Store, id: &str) -> Status {
    store.get(id).unwrap().status
}

const STALE: Duration = Duration::from_secs(300);
const DONE: Duration = Duration::from_secs(60);

fn purge(store: &mut Store, at: u64) -> bool {
    store.purge_at(STALE, DONE, secs(at).at)
}

#[test]
fn an_event_that_changes_nothing_leaves_the_tree() {
    let mut store = Store::default();
    event(&mut store, "SessionStart", "", 1);
    assert!(!event(&mut store, "PreToolUse", r#","tool_name":"Bash""#, 2));
    assert!(!event(&mut store, "PostToolUse", r#","tool_name":"Bash""#, 2));
    assert!(!event(&mut store, "SubagentStart", "", 2));
    assert!(!event(&mut store, "Unheard", "", 2));
    assert_eq!(store.len(), 1);
    assert_eq!(store.get("s").unwrap().last_event, secs(1).at);
}

#[test]
fn empty_texts_count_as_absent() {
    let mut store = Store::default();
    assert!(!store.apply_at(&json(r#"{"hook_event_name":"","session_id":"s"}"#), &secs(1)));
    assert!(!store.apply_at(&json(r#"{"hook_event_name":"Stop","session_id":""}"#), &secs(1)));
    // An empty agent id makes it an event of the session itself.
    assert!(event(&mut store, "Stop", r#","agent_id":"""#, 1));
    assert_eq!(status(&store, "s"), Status::Done);
}

#[test]
fn session_events_set_its_status() {
    for (name, rest, want) in [
        ("SessionStart", "", Status::Idle),
        ("UserPromptSubmit", "", Status::Working),
        ("Stop", "", Status::Done),
        ("StopFailure", "", Status::Error),
        ("Notification", r#","notification_type":"permission_prompt""#, Status::Blocked),
        ("Notification", r#","notification_type":"idle_prompt""#, Status::Blocked),
        ("Notification", r#","notification_type":"agent_needs_input""#, Status::Blocked),
        ("Notification", r#","notification_type":"agent_completed""#, Status::Done),
    ] {
        let mut store = Store::default();
        assert!(event(&mut store, name, rest, 1), "{name}{rest}");
        assert_eq!(status(&store, "s"), want, "{name}{rest}");
        assert_eq!(store.len(), 1);
    }
}

#[test]
fn subagent_events_set_its_status() {
    for (name, rest, want) in [
        ("UserPromptSubmit", "", Status::Working),
        ("SubagentStart", "", Status::Working),
        ("SubagentStop", "", Status::Done),
        ("Stop", "", Status::Done),
        ("StopFailure", "", Status::Error),
        ("Notification", r#","notification_type":"idle_prompt""#, Status::Blocked),
        ("Notification", r#","notification_type":"agent_completed""#, Status::Done),
        ("Notification", r#","notification_type":"brand_new""#, Status::Working),
        ("Notification", "", Status::Working),
    ] {
        let mut store = Store::default();
        event(&mut store, "SubagentStart", r#","agent_id":"a","agent_type":"Explore""#, 1);
        assert!(event(&mut store, name, &format!(r#","agent_id":"a"{rest}"#), 2), "{name}{rest}");
        assert_eq!(status(&store, "a"), want, "{name}{rest}");
        assert_eq!(store.get("a").unwrap().last_event, secs(2).at);
    }
}

#[test]
fn an_unknown_notification_only_touches() {
    let mut store = Store::default();
    assert!(!event(&mut store, "Notification", r#","notification_type":"brand_new""#, 1));
    assert!(store.is_empty());
    event(&mut store, "UserPromptSubmit", "", 2);
    assert!(event(&mut store, "Notification", r#","notification_type":"some_future_type""#, 3));
    assert_eq!(status(&store, "s"), Status::Working);
    assert_eq!(store.get("s").unwrap().last_event, secs(3).at);
    event(&mut store, "StopFailure", "", 4);
    assert!(event(&mut store, "Notification", "", 5));
    assert_eq!(status(&store, "s"), Status::Error);
}

#[test]
fn a_subagent_starts_below_its_session() {
    let mut store = Store::default();
    assert!(event(&mut store, "SubagentStart", r#","agent_id":"a","agent_type":"Plan","cwd":"/w""#, 5));
    assert_eq!(store.len(), 2);
    let a = store.get("a").unwrap();
    assert_eq!(a.parent.as_deref(), Some("s"));
    assert_eq!(a.agent_type.as_deref(), Some("Plan"));
    assert_eq!(a.cwd.as_deref(), Some("/w"));
    assert_eq!(a.started, secs(5).at);
    assert_eq!(a.started_at_ms, 5_000);
    assert_eq!(store.get("s").unwrap().parent, None);
    assert_eq!(status(&store, "s"), Status::Working);
}

#[test]
fn a_stop_makes_an_end_of_a_start() {
    let mut store = Store::default();
    event(&mut store, "SubagentStart", r#","agent_id":"a","agent_type":"Plan""#, 5);
    assert!(event(&mut store, "SubagentStop", r#","agent_id":"a","agent_type":"""#, 6));
    let a = store.get("a").unwrap();
    assert_eq!(a.status, Status::Done);
    assert_eq!(a.last_event, secs(6).at);
    assert_eq!(a.started, secs(5).at);
    assert_eq!(a.agent_type.as_deref(), Some("Plan"));
    assert_eq!(a.parent.as_deref(), Some("s"));
}

#[test]
fn a_stop_without_a_start_takes_in_the_subagent_alone() {
    let mut store = Store::default();
    assert!(event(&mut store, "SubagentStop", r#","agent_id":"a","agent_type":"Plan","cwd":"/w""#, 1));
    assert_eq!(store.len(), 1);
    let a = store.get("a").unwrap();
    assert_eq!(a.parent.as_deref(), Some("s"));
    assert_eq!(a.cwd.as_deref(), Some("/w"));
    // Its session is not there, so the next round takes it away.
    assert!(purge(&mut store, 1));
    assert!(store.is_empty());
}

#[test]
fn a_prompt_inside_a_subagent_takes_in_nothing() {
    let mut store = Store::default();
    event(&mut store, "SubagentStart", r#","agent_id":"a","agent_type":"Plan""#, 1);
    event(&mut store, "SubagentStop", r#","agent_id":"a","agent_type":"Plan""#, 2);
    assert!(event(&mut store, "UserPromptSubmit", r#","agent_id":"a","prompt":"go on""#, 3));
    assert_eq!(status(&store, "a"), Status::Working);
    assert!(!event(&mut store, "UserPromptSubmit", r#","agent_id":"b","prompt":"go on""#, 3));
    assert_eq!(store.len(), 2);
}

#[test]
fn the_end_of_a_session_takes_its_whole_tree_and_no_more() {
    let mut store = Store::default();
    for (agent, session) in [("a", "s"), ("b", "s"), ("x", "t")] {
        let text = format!(
            r#"{{"hook_event_name":"SubagentStart","session_id":"{session}","agent_id":"{agent}","agent_type":"Plan"}}"#
        );
        store.apply_at(&json(&text), &secs(1));
    }
    // b is launched by a: two steps below its session.
    event(
        &mut store,
        "PostToolUse",
        r#","agent_id":"a","tool_name":"Agent","tool_response":{"agentId":"b","status":"async_launched"}"#,
        2,
    );
    assert_eq!(store.get("b").unwrap().parent.as_deref(), Some("a"));
    assert_eq!(store.len(), 5);
    assert!(event(&mut store, "SessionEnd", "", 3));
    assert_eq!(store.len(), 2);
    assert!(store.get("t").is_some() && store.get("x").is_some());
    assert!(!event(&mut store, "SessionEnd", "", 4));
    assert_eq!(store.len(), 2);
}

#[test]
fn a_tree_that_runs_in_a_circle_can_be_removed() {
    let mut store = Store::default();
    event(&mut store, "SubagentStart", r#","agent_id":"a","agent_type":"Plan""#, 1);
    event(&mut store, "SubagentStart", r#","agent_id":"b","agent_type":"Plan""#, 1);
    event(&mut store, "PostToolUse", r#","agent_id":"a","tool_name":"Agent","tool_response":{"agentId":"b"}"#, 2);
    event(&mut store, "PostToolUse", r#","agent_id":"b","tool_name":"Agent","tool_response":{"agentId":"a"}"#, 2);
    assert_eq!(store.get("a").unwrap().parent.as_deref(), Some("b"));
    assert_eq!(store.get("b").unwrap().parent.as_deref(), Some("a"));
    assert!(store.remove_tree("a"));
    assert_eq!(store.len(), 1);
    assert!(!store.remove_tree("a"));
    assert!(store.remove_tree("s"));
    assert!(store.is_empty());
}

#[test]
fn a_launch_that_is_not_completed_brings_no_numbers() {
    let mut store = Store::default();
    event(&mut store, "SubagentStart", r#","agent_id":"a","agent_type":"Plan""#, 1);
    assert!(event(
        &mut store,
        "PostToolUse",
        r#","tool_name":"Agent","tool_response":{"agentId":"a","status":"async_launched","totalTokens":7,"resolvedModel":"m","agentType":"Explore"}"#,
        2,
    ));
    let a = store.get("a").unwrap();
    assert_eq!(a.tokens, None);
    assert_eq!(a.status, Status::Working);
    assert_eq!(a.model.as_deref(), Some("m"));
    assert_eq!(a.agent_type.as_deref(), Some("Explore"));
    assert_eq!(a.last_event, secs(2).at);
}

#[test]
fn a_completed_launch_brings_the_numbers_that_it_gives() {
    let mut store = Store::default();
    event(&mut store, "SubagentStart", r#","agent_id":"a","agent_type":"Plan""#, 1);
    let first = r#","tool_name":"Agent","tool_response":{"agentId":"a","status":"completed","totalTokens":7,"totalToolUseCount":3}"#;
    event(&mut store, "PostToolUse", first, 2);
    // Neither a negative number, nor a fraction, nor a text is a count.
    let second = r#","tool_name":"Agent","tool_response":{"agentId":"a","status":"completed","totalTokens":-1,"totalToolUseCount":4.5,"totalDurationMs":"9"}"#;
    event(&mut store, "PostToolUse", second, 3);
    let a = store.get("a").unwrap();
    assert_eq!(a.status, Status::Done);
    assert_eq!((a.tokens, a.tool_calls, a.duration_ms), (Some(7), Some(3), None));
}

#[test]
fn a_launch_brings_nothing_back() {
    let mut store = Store::default();
    event(&mut store, "SessionStart", "", 1);
    // The launcher is heard of; the subagent is not known and stays so.
    assert!(event(
        &mut store,
        "PostToolUse",
        r#","tool_name":"Agent","tool_response":{"agentId":"gone","status":"completed"}"#,
        2,
    ));
    assert_eq!(store.len(), 1);
    assert_eq!(status(&store, "s"), Status::Working);
    // No node is its own parent.
    event(&mut store, "PostToolUse", r#","tool_name":"Agent","tool_response":{"agentId":"s"}"#, 3);
    assert_eq!(store.get("s").unwrap().parent, None);
}

#[test]
fn a_response_is_about_its_child_alone() {
    let mut store = Store::default();
    event(&mut store, "SubagentStart", r#","agent_id":"a","agent_type":"Plan""#, 1);
    let resp = json(r#"{"agentId":"a","status":"completed","totalTokens":5}"#);
    assert!(!store.apply_agent_response("a", &resp, &secs(2)));
    assert!(!store.apply_agent_response("s", &json(r#"{"agentId":"gone"}"#), &secs(2)));
    assert!(!store.apply_agent_response("s", &json(r#"{"agentId":""}"#), &secs(2)));
    assert_eq!(store.get("a").unwrap().last_event, secs(1).at);
    assert!(store.apply_agent_response("s", &resp, &secs(2)));
    assert_eq!(store.get("a").unwrap().tokens, Some(5));
    assert_eq!(store.get("s").unwrap().last_event, secs(1).at);
    assert_eq!(store.len(), 2);
}

#[test]
fn a_task_notification_is_about_its_task_alone() {
    let mut store = Store::default();
    event(&mut store, "SubagentStart", r#","agent_id":"a","agent_type":"Plan""#, 1);
    store.enrich_from_task_notification("<task-id>a</task-id><tool_uses>4</tool_uses>", &secs(2));
    assert_eq!(store.get("a").unwrap().tool_calls, None);
    store.enrich_from_task_notification(
        "<task-notification><task-id>a</task-id><tool_uses>4</tool_uses>",
        &secs(3),
    );
    let a = store.get("a").unwrap();
    assert_eq!((a.tokens, a.tool_calls, a.duration_ms), (None, Some(4), None));
    assert_eq!((a.status, a.last_event), (Status::Working, secs(3).at));
    assert_eq!(a.parent.as_deref(), Some("s"));
    assert_eq!(store.get("s").unwrap().last_event, secs(1).at);
    store.enrich_from_task_notification("<task-notification><task-id>b</task-id>", &secs(4));
    assert_eq!(store.len(), 2);
}

#[test]
fn an_unknown_launcher_leaves_the_parent() {
    let mut store = Store::default();
    event(&mut store, "SubagentStart", r#","agent_id":"a","agent_type":"Plan""#, 1);
    assert!(event(
        &mut store,
        "PostToolUse",
        r#","agent_id":"never","tool_name":"Agent","tool_response":{"agentId":"a","status":"completed"}"#,
        2,
    ));
    assert_eq!(store.get("a").unwrap().parent.as_deref(), Some("s"));
    assert_eq!(status(&store, "a"), Status::Done);
    assert_eq!(store.len(), 2);
}

#[test]
fn a_notification_keeps_what_it_does_not_give() {
    let mut store = Store::default();
    event(&mut store, "SubagentStart", r#","agent_id":"a","agent_type":"Plan""#, 1);
    event(
        &mut store,
        "UserPromptSubmit",
        r#","prompt":"<task-notification><task-id> a </task-id><subagent_tokens>+12</subagent_tokens><tool_uses>x</tool_uses><duration_ms>18446744073709551616</duration_ms>""#,
        2,
    );
    let a = store.get("a").unwrap();
    assert_eq!((a.tokens, a.tool_calls, a.duration_ms), (Some(12), None, None));
    assert_eq!(a.status, Status::Working);
    assert_eq!(a.last_event, secs(2).at);
    // A prompt that is no notification brings nothing.
    event(&mut store, "UserPromptSubmit", r#","prompt":"<task-id>a</task-id><subagent_tokens>99</subagent_tokens>""#, 3);
    assert_eq!(store.get("a").unwrap().tokens, Some(12));
    assert_eq!(store.get("a").unwrap().last_event, secs(2).at);
}

#[test]
fn other_sessions_are_left_alone() {
    let mut store = Store::default();
    store.apply_at(&json(r#"{"hook_event_name":"SessionStart","session_id":"t","model":"m"}"#), &secs(1));
    event(&mut store, "SubagentStart", r#","agent_id":"a","agent_type":"Plan""#, 2);
    event(&mut store, "StopFailure", "", 3);
    let t = store.get("t").unwrap();
    assert_eq!(t.status, Status::Idle);
    assert_eq!(t.last_event, secs(1).at);
    assert_eq!(t.model.as_deref(), Some("m"));
}

#[test]
fn what_is_known_is_not_forgotten() {
    let mut store = Store::default();
    event(&mut store, "SessionStart", r#","cwd":"/w","model":"m""#, 1);
    event(&mut store, "SessionStart", "", 2);
    let s = store.get("s").unwrap();
    assert_eq!(s.cwd.as_deref(), Some("/w"));
    assert_eq!(s.model.as_deref(), Some("m"));
    assert_eq!(s.started, secs(1).at);
    assert_eq!(s.started_at_ms, 1_000);
    assert_eq!(s.last_event, secs(2).at);
    assert_eq!(s.status, Status::Idle);
}

#[test]
fn nodes_go_when_their_time_is_up() {
    let mut store = Store::default();
    event(&mut store, "SubagentStart", r#","agent_id":"a","agent_type":"Plan""#, 0);
    // Silent for just that long is not longer.
    assert!(!purge(&mut store, 300));
    assert_eq!(store.len(), 2);
    assert!(!store.purge_at(STALE, DONE, secs(300).at));
    assert!(store.purge_at(STALE, DONE, secs(300).at + 1));
    assert!(store.is_empty());
    assert!(!purge(&mut store, 301));
}

#[test]
fn finished_subagents_linger_and_go() {
    for name in ["SubagentStop", "StopFailure"] {
        let mut store = Store::default();
        event(&mut store, "SubagentStart", r#","agent_id":"a","agent_type":"Plan""#, 0);
        event(&mut store, name, r#","agent_id":"a""#, 0);
        assert!(!purge(&mut store, 59));
        assert!(purge(&mut store, 60));
        assert_eq!(store.len(), 1);
        // The session is finished too, but it is no subagent.
        event(&mut store, "Stop", "", 60);
        assert!(!purge(&mut store, 360));
        assert!(purge(&mut store, 361));
    }
}

#[test]
fn what_is_below_an_expired_node_goes_with_it() {
    let mut store = Store::default();
    event(&mut store, "SubagentStart", r#","agent_id":"a","agent_type":"Plan""#, 0);
    event(&mut store, "SubagentStart", r#","agent_id":"b","agent_type":"Plan""#, 0);
    event(&mut store, "PostToolUse", r#","agent_id":"a","tool_name":"Agent","tool_response":{"agentId":"b"}"#, 0);
    event(&mut store, "SubagentStop", r#","agent_id":"a""#, 0);
    event(&mut store, "UserPromptSubmit", r#","agent_id":"b""#, 70);
    event(&mut store, "UserPromptSubmit", "", 70);
    assert!(purge(&mut store, 71));
    assert!(store.get("a").is_none() && store.get("b").is_none());
    assert!(store.get("s").is_some());
    assert!(!purge(&mut store, 71));
}

#[test]
fn a_store_reads_its_own_clock() {
    tokio::runtime::Builder::new_current_thread()
        .enable_time()
        .start_paused(true)
        .build()
        .unwrap()
        .block_on(async {
            let mut store = Store::default();
            store.apply(&json(r#"{"hook_event_name":"SessionStart","session_id":"s"}"#));
            tokio::time::advance(STALE).await;
            assert!(!store.purge(STALE, DONE));
            assert!(store.get("s").is_some());
            let age = store.snapshot().get("nodes").unwrap().as_array().unwrap()[0]
                .get("age_ms")
                .unwrap()
                .as_u64();
            assert_eq!(age, Some(300_000));
            tokio::time::advance(Duration::from_nanos(1)).await;
            assert!(store.purge(STALE, DONE));
            assert!(store.is_empty());
            // The clock still counts from the store's start.
            assert_eq!(store.now().at, STALE.as_nanos() + 1);
        });
}

#[test]
fn a_clock_that_goes_back_removes_nothing() {
    let mut store = Store::default();
    event(&mut store, "SessionStart", "", 500);
    assert!(!purge(&mut store, 100));
    assert_eq!(store.len(), 1);
}

#[test]
fn the_most_severe_status_is_shown() {
    let mut store = Store::default();
    let steps = [
        ("SessionStart", Status::Idle),
        ("Stop", Status::Done),
        ("StopFailure", Status::Error),
        ("UserPromptSubmit", Status::Working),
    ];
    for (i, (name, want)) in steps.iter().enumerate() {
        let text = format!(r#"{{"hook_event_name":"{name}","session_id":"s{i}"}}"#);
        store.apply_at(&json(&text), &secs(1));
        assert_eq!(store.aggregate(), *want);
    }
    event(&mut store, "Notification", r#","notification_type":"idle_prompt""#, 1);
    assert_eq!(store.aggregate(), Status::Blocked);
    assert!(Status::Blocked > Status::Working && Status::Working > Status::Error);
    assert!(Status::Error > Status::Done && Status::Done > Status::Idle);
}
