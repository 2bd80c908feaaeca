//! What a hook request is answered and what it does: 204 with an EMPTY body, always — a non-empty
//! 2xx body would be injected into the conversation.

use agentdeck::daemon::{answer_hook, ingest, snapshot_text, Ingested, STATE_EVENT};
use agentdeck::feed::{Link, LinkEvent};
use agentdeck::state::Store;
use agentdeck::tray::{aggregate_label, tray_tooltip};
use agentdeck::wire::parse_text;
use axum::response::sse::{Event, Sse};
use axum::response::IntoResponse;
use std::convert::Infallible;

const SESSION_START: &str = r#"{"hook_event_name":"SessionStart","session_id":"097177f4-db9c-4cbd-b942-664dc6733cac","cwd":"/home/user/agentdeck","source":"startup"}"#;
const SUBAGENT_START: &str = r#"{"hook_event_name":"SubagentStart","session_id":"097177f4-db9c-4cbd-b942-664dc6733cac","cwd":"/home/user/agentdeck","agent_id":"a48ec88ddb26aeff3","agent_type":"general-purpose"}"#;

/// A request comes in: it is answered, and then its body is taken in.
fn assert_204_empty(store: &mut Store, body: &str) -> Ingested {
    let answer = answer_hook(true);
    assert_eq!(answer.status, 204);
    assert!(answer.body.is_empty(), "hook response body MUST be empty");
    ingest(store, body.as_bytes())
}

#[test]
fn hook_responds_204_empty_and_state_updates() {
    let mut store = Store::default();
    assert_204_empty(&mut store, SESSION_START);
    assert_204_empty(&mut store, SUBAGENT_START);
    assert_eq!(store.len(), 2);

    let snapshot = parse_text(&snapshot_text(&store)).unwrap();
    assert_eq!(snapshot.get("aggregate").unwrap().as_str(), Some("working"));
    assert_eq!(snapshot.get("nodes").unwrap().as_array().unwrap().len(), 2);
}

#[test]
fn hook_survives_garbage_and_keeps_working() {
    let mut store = Store::default();
    assert!(matches!(
        assert_204_empty(&mut store, "not json at all {{{"),
        Ingested::Dropped(_)
    ));
    assert!(matches!(assert_204_empty(&mut store, ""), Ingested::Dropped(_)));
    assert!(matches!(
        assert_204_empty(&mut store, r#"{"hook_event_name": 42, "session_id": null}"#),
        Ingested::Unchanged
    ));
    // Still alive and processing after garbage:
    assert!(matches!(
        assert_204_empty(&mut store, SESSION_START),
        Ingested::Changed(_)
    ));
    assert_eq!(store.len(), 1);
}

#[test]
fn sse_sends_snapshot_on_connect() {
    let mut store = Store::default();
    assert_204_empty(&mut store, SESSION_START);
    assert_eq!(store.len(), 1);

    let event = Event::default().event(STATE_EVENT).data(snapshot_text(&store));
    let stream = tokio_stream::once(Ok::<Event, Infallible>(event));
    let body = Sse::new(stream).into_response().into_body();
    let bytes = tokio::runtime::Builder::new_current_thread()
        .build()
        .unwrap()
        .block_on(axum::body::to_bytes(body, usize::MAX))
        .unwrap();
    let text = String::from_utf8_lossy(&bytes);
    assert!(text.contains("event: state"), "got: {text}");
    assert!(text.contains("\"aggregate\":\"idle\""), "got: {text}");

    // What the server's own framing puts out is what the tray takes in.
    let mut link = Link::new();
    link.on_event(LinkEvent::Answered { success: true });
    let action = link.on_event(LinkEvent::Chunk { bytes: bytes.to_vec() });
    assert_eq!(action.publish.len(), 1);
    assert_eq!(aggregate_label(&action.publish[0]), "idle");
    assert_eq!(tray_tooltip(&action.publish[0]), "agentdeck — 1 idle");
}

#[test]
fn a_request_that_cannot_be_handed_on_is_answered_the_same() {
    let answer = answer_hook(false);
    assert_eq!(answer.status, 204);
    assert!(answer.body.is_empty());
}
