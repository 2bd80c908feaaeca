//! What the snapshot, the tray and the event stream show.

use agentdeck::clock::Reading;
use agentdeck::daemon::snapshot_text_at;
use agentdeck::feed::{state_of_read, Link, LinkEvent, LinkLog, SseBuffer, RETRY_SECS};
use agentdeck::json::Json;
use agentdeck::state::{Status, Store};
use agentdeck::tray::{
    aggregate_label, icon_style, react_to_window, tray_tooltip, unreachable_state, wrap_snapshot,
    IconStyle, WindowChange, WindowReaction,
};
use agentdeck::wire::{compact, parse_text};

fn json(text: &str) -> Json {
    parse_text(text).unwrap_or_else(|e| panic!("{text}: {e}"))
}

fn ms(n: u64) -> Reading {
    Reading { at: n as u128 * 1_000_000, epoch_ms: n }
}

fn apply(store: &mut Store, text: &str, at: u64) {
    assert!(store.apply_at(&json(text), &ms(at)), "{text}");
}

#[test]
fn a_snapshot_lists_the_nodes_in_order() {
    let mut store = Store::default();
    apply(&mut store, r#"{"hook_event_name":"SessionStart","session_id":"b","cwd":"/w","model":"m"}"#, 5);
    apply(&mut store, r#"{"hook_event_name":"SessionStart","session_id":"a"}"#, 5);
    apply(&mut store, r#"{"hook_event_name":"SessionStart","session_id":"ab"}"#, 5);
    apply(&mut store, r#"{"hook_event_name":"Stop","session_id":"c"}"#, 3);
    assert_eq!(
        snapshot_text_at(&store, 12_999_999),
        concat_lines(&[
            r#"{"aggregate":"done","nodes":["#,
            r#"{"age_ms":9,"agent_type":null,"cwd":null,"duration_ms":null,"id":"c","model":null,"parent":null,"started_at_ms":3,"status":"done","tokens":null,"tool_calls":null},"#,
            r#"{"age_ms":7,"agent_type":null,"cwd":null,"duration_ms":null,"id":"a","model":null,"parent":null,"started_at_ms":5,"status":"idle","tokens":null,"tool_calls":null},"#,
            r#"{"age_ms":7,"agent_type":null,"cwd":null,"duration_ms":null,"id":"ab","model":null,"parent":null,"started_at_ms":5,"status":"idle","tokens":null,"tool_calls":null},"#,
            r#"{"age_ms":7,"agent_type":null,"cwd":"/w","duration_ms":null,"id":"b","model":"m","parent":null,"started_at_ms":5,"status":"idle","tokens":null,"tool_calls":null}"#,
            r#"]}"#,
        ])
    );
}

fn concat_lines(lines: &[&str]) -> String {
    lines.join("")
}

#[test]
fn a_snapshot_has_the_numbers_of_a_subagent() {
    let mut store = Store::default();
    apply(&mut store, r#"{"hook_event_name":"SubagentStart","session_id":"s","agent_id":"z","agent_type":"Plan"}"#, 1);
    apply(
        &mut store,
        r#"{"hook_event_name":"PostToolUse","session_id":"s","tool_name":"Agent","tool_response":{"agentId":"z","status":"completed","totalTokens":18446744073709551615,"totalDurationMs":0,"totalToolUseCount":2}}"#,
        2,
    );
    let text = snapshot_text_at(&store, 0);
    assert!(
        text.ends_with(r#"{"age_ms":0,"agent_type":"Plan","cwd":null,"duration_ms":0,"id":"z","model":null,"parent":"s","started_at_ms":1,"status":"done","tokens":18446744073709551615,"tool_calls":2}]}"#),
        "{text}"
    );
    assert!(text.starts_with(r#"{"aggregate":"working","nodes":["#), "{text}");
}

#[test]
fn an_empty_store_is_idle() {
    let store = Store::default();
    assert_eq!(snapshot_text_at(&store, 7), r#"{"aggregate":"idle","nodes":[]}"#);
    assert_eq!(compact(store.snapshot()), r#"{"aggregate":"idle","nodes":[]}"#);
}

#[test]
fn statuses_have_names() {
    assert_eq!(Status::Idle.label(), "idle");
    assert_eq!(Status::Done.label(), "done");
    assert_eq!(Status::Error.label(), "error");
    assert_eq!(Status::Working.label(), "working");
    assert_eq!(Status::Blocked.label(), "blocked");
}

#[test]
fn each_status_has_an_icon() {
    let style = |red, green, blue, hollow| IconStyle { red, green, blue, hollow };
    assert_eq!(icon_style("blocked"), style(0xf5, 0x9e, 0x0b, false));
    assert_eq!(icon_style("working"), style(0x3b, 0x82, 0xf6, false));
    assert_eq!(icon_style("error"), style(0xef, 0x44, 0x44, false));
    assert_eq!(icon_style("done"), style(0x22, 0xc5, 0x5e, false));
    assert_eq!(icon_style("idle"), style(0x9c, 0xa3, 0xaf, false));
    assert_eq!(icon_style("unreachable"), style(0x9c, 0xa3, 0xaf, true));
    assert_eq!(icon_style(""), style(0x9c, 0xa3, 0xaf, true));
}

#[test]
fn a_snapshot_is_wrapped() {
    let wrapped = wrap_snapshot(json(r#"{"aggregate":"done","nodes":[1],"more":2}"#));
    assert_eq!(aggregate_label(&wrapped), "done");
    assert_eq!(compact(wrapped), r#"{"aggregate":"done","connected":true,"nodes":[1]}"#);
    for bare in ["{}", "[]", "3"] {
        assert_eq!(
            compact(wrap_snapshot(json(bare))),
            r#"{"aggregate":"idle","connected":true,"nodes":[]}"#
        );
    }
    assert_eq!(
        compact(unreachable_state()),
        r#"{"aggregate":"unreachable","connected":false,"nodes":[]}"#
    );
}

#[test]
fn a_state_without_a_status_shows_unreachable() {
    assert_eq!(aggregate_label(&json(r#"{"aggregate":1}"#)), "unreachable");
    assert_eq!(aggregate_label(&json("{}")), "unreachable");
    assert_eq!(aggregate_label(&unreachable_state()), "unreachable");
}

#[test]
fn no_agents_is_not_unreachable() {
    let none = wrap_snapshot(Store::default().snapshot());
    assert_eq!(tray_tooltip(&none), "agentdeck — no agents");
    assert_eq!(tray_tooltip(&unreachable_state()), "agentdeck — daemon unreachable");
    assert_ne!(icon_style(aggregate_label(&none)), icon_style(aggregate_label(&unreachable_state())));
    assert_eq!(tray_tooltip(&json(r#"{"connected":true,"nodes":"x"}"#)), "agentdeck — no agents");
    assert_eq!(tray_tooltip(&json(r#"{"connected":"true","nodes":[]}"#)), "agentdeck — daemon unreachable");
}

#[test]
fn the_tooltip_counts_by_status() {
    let state = json(
        r#"{"connected":true,"nodes":[{"status":"idle"},{"status":"working"},{"status":"idle"},{"status":"blocked"},{"status":"odd"},{}]}"#,
    );
    assert_eq!(tray_tooltip(&state), "agentdeck — 1 blocked, 1 working, 2 idle");
    let state = json(r#"{"connected":true,"nodes":[{"status":"error"},{"status":"done"}]}"#);
    assert_eq!(tray_tooltip(&state), "agentdeck — 1 error, 1 done");
    let odd = json(r#"{"connected":true,"nodes":[{"status":"odd"}]}"#);
    assert_eq!(tray_tooltip(&odd), "agentdeck — ");
    let many = format!(
        r#"{{"connected":true,"nodes":[{}]}}"#,
        vec![r#"{"status":"done"}"#; 120].join(",")
    );
    assert_eq!(tray_tooltip(&json(&many)), "agentdeck — 120 done");
}

#[test]
fn frames_come_out_whole() {
    let mut buffer = SseBuffer::new();
    assert_eq!(buffer.push("event: state\ndata: {\"a\""), Vec::<String>::new());
    assert_eq!(buffer.push(":1}\n"), Vec::<String>::new());
    assert_eq!(buffer.push("\ndata: 2\n\nda"), vec!["{\"a\":1}".to_string(), "2".to_string()]);
    assert_eq!(buffer.push("ta: 3\r\ndata: 4\n\n"), vec!["3".to_string(), "4".to_string()]);
    // Comments, other fields and a mark without its blank carry nothing.
    assert_eq!(buffer.push(":\n\ndata:5\n\n data: 6\n\nid: 7\n\n"), Vec::<String>::new());
    assert_eq!(buffer.push("data: \n\n"), vec!["".to_string()]);
    assert_eq!(buffer.push("data: é\n\n"), vec!["é".to_string()]);
}

#[test]
fn cutting_the_stream_makes_no_difference() {
    let stream = "event: state\ndata: one\n\n:\n\nevent: state\ndata: two\n\n\ndata: three\n\ndata: fo";
    let mut whole = SseBuffer::new();
    let want = whole.push(stream);
    assert_eq!(want, vec!["one".to_string(), "two".to_string(), "three".to_string()]);
    for cut in 0..stream.len() {
        let mut parts = SseBuffer::new();
        let mut got = parts.push(&stream[..cut]);
        got.extend(parts.push(&stream[cut..]));
        assert_eq!(got, want, "cut at {cut}");
        assert_eq!(parts.push("ur\n\n"), vec!["four".to_string()]);
    }
}

#[test]
fn cutting_the_bytes_between_characters_makes_no_difference() {
    let stream = "data: {\"aggregate\":\"é\"}\n\ndata: {\"aggregate\":\"日本\"}\n\ndata: 3";
    let collect = |cuts: &[&str]| {
        let mut link = Link::new();
        link.on_event(LinkEvent::Answered { success: true });
        let mut shown: Vec<String> = Vec::new();
        for cut in cuts {
            let action = link.on_event(LinkEvent::Chunk { bytes: cut.as_bytes().to_vec() });
            for state in &action.publish {
                shown.push(aggregate_label(state).to_string());
            }
        }
        shown
    };
    let want = collect(&[stream]);
    assert_eq!(want, vec!["é".to_string(), "日本".to_string()]);
    for (cut, _) in stream.char_indices() {
        assert_eq!(collect(&[&stream[..cut], &stream[cut..]]), want, "cut at {cut}");
    }
}

#[test]
fn the_tray_shows_what_the_daemon_sends() {
    let mut store = Store::default();
    apply(
        &mut store,
        "{\"hook_event_name\":\"UserPromptSubmit\",\"session_id\":\"s\\n\\r\\u2028é\"}",
        5,
    );
    let text = snapshot_text_at(&store, 5_000_000);
    assert!(!text.contains('\n') && !text.contains('\r'));
    let mut link = Link::new();
    link.on_event(LinkEvent::Answered { success: true });
    let frame = format!("event: state\ndata: {text}\n\n");
    let mut action = link.on_event(LinkEvent::Chunk { bytes: frame.into_bytes() });
    assert_eq!(action.publish.len(), 1);
    let state = action.publish.remove(0);
    assert_eq!(aggregate_label(&state), "working");
    assert_eq!(tray_tooltip(&state), "agentdeck — 1 working");
    let nodes = state.get("nodes").unwrap().as_array().unwrap();
    assert_eq!(nodes[0].get("id").unwrap().as_str(), Some("s\n\r\u{2028}é"));
}

#[test]
fn payloads_that_do_not_read_are_passed_over() {
    assert!(state_of_read(parse_text("{")).is_none());
    assert!(state_of_read(parse_text("{}")).is_some());
    let mut link = Link::new();
    link.on_event(LinkEvent::Answered { success: true });
    let action = link.on_event(LinkEvent::Chunk {
        bytes: b"data: {\n\ndata: {\"aggregate\":\"done\"}\n\n".to_vec(),
    });
    assert_eq!(action.publish.len(), 1);
    assert_eq!(aggregate_label(&action.publish[0]), "done");
    assert_eq!(action.log, LinkLog::Nothing);
    assert!(!action.retry);
}

#[test]
fn bytes_that_are_no_text_are_replaced() {
    let mut link = Link::new();
    link.on_event(LinkEvent::Answered { success: true });
    let action = link.on_event(LinkEvent::Chunk { bytes: b"data: \"\xff\"\n\ndata: {}\n\n".to_vec() });
    assert_eq!(action.publish.len(), 2);
    let action = link.on_event(LinkEvent::Chunk {
        bytes: b"data: {\"aggregate\":\"x\xffy\"}\n\n".to_vec(),
    });
    assert_eq!(aggregate_label(&action.publish[0]), "x\u{fffd}y");
}

#[test]
fn every_end_of_an_attempt_shows_unreachable() {
    for end in [
        LinkEvent::SendFailed,
        LinkEvent::Answered { success: false },
        LinkEvent::ChunkFailed,
        LinkEvent::Ended,
    ] {
        let mut link = Link::new();
        let action = link.on_event(end);
        assert!(action.retry);
        assert_eq!(action.publish.len(), 1);
        assert_eq!(aggregate_label(&action.publish[0]), "unreachable");
    }
    let mut link = Link::new();
    let action = link.on_event(LinkEvent::Answered { success: true });
    assert!(!action.retry);
    assert!(action.publish.is_empty());
    assert_eq!(action.log, LinkLog::Connected);
}

#[test]
fn over_many_attempts_unreachable_comes_last() {
    let mut link = Link::new();
    let mut shown: Vec<String> = Vec::new();
    let events = [
        (LinkEvent::SendFailed, true),
        (LinkEvent::Answered { success: true }, false),
        (LinkEvent::Chunk { bytes: b"data: {\"aggregate\":\"done\"}\n\n".to_vec() }, false),
        (LinkEvent::ChunkFailed, true),
        (LinkEvent::Answered { success: false }, true),
        (LinkEvent::Answered { success: true }, false),
        (LinkEvent::Ended, true),
    ];
    for (event, over) in events {
        let action = link.on_event(event);
        for state in &action.publish {
            shown.push(aggregate_label(state).to_string());
        }
        assert_eq!(action.retry, over);
        assert_eq!(action.wait_secs, if over { RETRY_SECS } else { 0 });
        assert_eq!(RETRY_SECS, 3);
        if over {
            assert_eq!(shown.last().map(String::as_str), Some("unreachable"));
        }
    }
    assert_eq!(shown, vec!["unreachable", "done", "unreachable", "unreachable", "unreachable"]);
}

#[test]
fn a_failure_is_logged_once() {
    let mut link = Link::new();
    assert_eq!(link.on_event(LinkEvent::SendFailed).log, LinkLog::Unreachable);
    assert_eq!(link.on_event(LinkEvent::SendFailed).log, LinkLog::Nothing);
    assert_eq!(link.on_event(LinkEvent::Answered { success: false }).log, LinkLog::Nothing);
    assert_eq!(link.on_event(LinkEvent::Answered { success: true }).log, LinkLog::Connected);
    assert_eq!(link.on_event(LinkEvent::Ended).log, LinkLog::Nothing);
    assert_eq!(link.on_event(LinkEvent::Answered { success: false }).log, LinkLog::BadStatus);
    assert_eq!(link.on_event(LinkEvent::SendFailed).log, LinkLog::Nothing);
    // A stream that breaks off counts as a failure that is told already.
    assert_eq!(link.on_event(LinkEvent::Answered { success: true }).log, LinkLog::Connected);
    assert_eq!(link.on_event(LinkEvent::ChunkFailed).log, LinkLog::Nothing);
    assert_eq!(link.on_event(LinkEvent::SendFailed).log, LinkLog::Nothing);
}

#[test]
fn a_new_answer_starts_afresh() {
    let mut link = Link::new();
    link.on_event(LinkEvent::Answered { success: true });
    link.on_event(LinkEvent::Chunk { bytes: b"data: {\"aggregate\":".to_vec() });
    link.on_event(LinkEvent::ChunkFailed);
    link.on_event(LinkEvent::Answered { success: true });
    let action = link.on_event(LinkEvent::Chunk { bytes: b"data: {}\n\n".to_vec() });
    assert_eq!(action.publish.len(), 1);
    assert_eq!(aggregate_label(&action.publish[0]), "idle");
}

#[test]
fn the_window_hides_and_never_quits() {
    let react = |prevent_close, hide| WindowReaction { prevent_close, hide };
    assert_eq!(react_to_window(WindowChange::CloseRequested, false), react(true, true));
    assert_eq!(react_to_window(WindowChange::CloseRequested, true), react(true, true));
    assert_eq!(react_to_window(WindowChange::FocusLost, false), react(false, true));
    assert_eq!(react_to_window(WindowChange::FocusLost, true), react(false, false));
    assert_eq!(react_to_window(WindowChange::Other, false), react(false, false));
}
