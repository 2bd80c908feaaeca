//! The installation of hook entries.

use agentdeck::json::Json;
use agentdeck::settings::{installed_text, merge_hooks, read_settings, HOOK_URL};
use agentdeck::wire::{compact, parse_text};

fn json(text: &str) -> Json {
    parse_text(text).unwrap_or_else(|e| panic!("{text}: {e}"))
}

fn entries<'a>(settings: &'a Json, event: &str) -> &'a Vec<Json> {
    settings.get("hooks").unwrap().get(event).unwrap().as_array().unwrap()
}

fn hook<'a>(entry: &'a Json, key: &str) -> Option<&'a str> {
    entry.get("hooks")?.as_array()?[0].get(key)?.as_str()
}

const FOREIGN: &str = r#"{
    "model": "fable-5[1m]",
    "hooks": {
        "PreToolUse": [
            { "matcher": "Bash", "hooks": [{ "type": "command", "command": "python3 gate.py" }] }
        ]
    }
}"#;

#[test]
fn merge_preserves_foreign_hooks_and_is_idempotent() {
    let mut once = json(FOREIGN);
    merge_hooks(&mut once).unwrap();
    let mut settings = json(FOREIGN);
    merge_hooks(&mut settings).unwrap();
    merge_hooks(&mut settings).unwrap();

    // Foreign hook survived, ours was appended.
    let pre = entries(&settings, "PreToolUse");
    assert_eq!(pre.len(), 2);
    assert_eq!(hook(&pre[0], "command"), Some("python3 gate.py"));
    assert_eq!(pre[1].get("matcher").unwrap().as_str(), Some("Agent"));
    assert_eq!(hook(&pre[1], "url"), Some(HOOK_URL));
    // Unrelated top-level settings untouched.
    assert_eq!(settings.get("model").unwrap().as_str(), Some("fable-5[1m]"));
    // SessionStart got the curl command hook, not http.
    assert_eq!(hook(&entries(&settings, "SessionStart")[0], "type"), Some("command"));
    // All nine http events present.
    for ev in [
        "SubagentStart", "SubagentStop", "UserPromptSubmit", "Stop",
        "StopFailure", "Notification", "PostToolUse", "SessionEnd",
    ] {
        assert!(
            entries(&settings, ev).iter().any(|e| hook(e, "url") == Some(HOOK_URL)),
            "missing {ev}"
        );
    }
    assert_eq!(compact(settings), compact(once), "second install must change nothing");
}

#[test]
fn merge_rejects_malformed_settings() {
    assert!(merge_hooks(&mut json("[]")).is_err());
    assert!(merge_hooks(&mut json(r#"{ "hooks": "nope" }"#)).is_err());
}

#[test]
fn each_refusal_says_why() {
    assert_eq!(
        merge_hooks(&mut json("[]")),
        Err("settings.json is not a JSON object".to_string())
    );
    assert_eq!(
        merge_hooks(&mut json(r#"{ "hooks": "nope" }"#)),
        Err("settings.json \"hooks\" is not an object".to_string())
    );
    assert_eq!(
        merge_hooks(&mut json(r#"{ "hooks": { "Stop": {} } }"#)),
        Err("hooks.Stop is not an array".to_string())
    );
    assert_eq!(
        merge_hooks(&mut json(r#"{ "hooks": { "SessionStart": 1 } }"#)),
        Err("hooks.SessionStart is not an array".to_string())
    );
}

#[test]
fn a_refusal_halfway_leaves_the_earlier_entries() {
    let mut settings = json(r#"{ "hooks": { "Stop": {} }, "x": 1 }"#);
    assert!(merge_hooks(&mut settings).is_err());
    assert_eq!(entries(&settings, "SubagentStart").len(), 1);
    assert_eq!(entries(&settings, "UserPromptSubmit").len(), 1);
    assert!(settings.get("hooks").unwrap().get("StopFailure").is_none());
    assert_eq!(settings.get("x").unwrap().as_u64(), Some(1));
    assert!(settings.get("hooks").unwrap().get("Stop").unwrap().as_array().is_none());
}

#[test]
fn entries_of_ours_are_replaced_wherever_they_stand() {
    let mut settings = json(
        r#"{ "hooks": { "Stop": [
            { "hooks": [{ "type": "command", "command": "wget http://127.0.0.1:4747/hook -q" }] },
            { "hooks": [{ "type": "http", "url": "http://example.com/hook" }] },
            { "hooks": [{ "type": "http", "url": "http://127.0.0.1:4747/hook", "timeout": 60 }] },
            { "hooks": "nothing" }
        ] } }"#,
    );
    merge_hooks(&mut settings).unwrap();
    let stop = entries(&settings, "Stop");
    assert_eq!(stop.len(), 3);
    assert_eq!(hook(&stop[0], "url"), Some("http://example.com/hook"));
    assert_eq!(stop[1].get("hooks").unwrap().as_str(), Some("nothing"));
    assert_eq!(hook(&stop[2], "url"), Some("http://127.0.0.1:4747/hook"));
    assert_eq!(
        stop[2].get("hooks").unwrap().as_array().unwrap()[0].get("timeout").unwrap().as_u64(),
        Some(5)
    );
}

#[test]
fn a_hook_beside_one_of_ours_stays() {
    let mut settings = json(
        r#"{"hooks":{"Stop":[{"matcher":"m","hooks":[{"type":"command","command":"foreign.sh"},{"type":"http","url":"http://127.0.0.1:4747/hook"}]}]}}"#,
    );
    merge_hooks(&mut settings).unwrap();
    let text = compact(settings);
    assert!(
        text.contains(r#""Stop":[{"hooks":[{"command":"foreign.sh","type":"command"}],"matcher":"m"},{"hooks":[{"timeout":5,"type":"http","url":"http://127.0.0.1:4747/hook"}]}]"#),
        "{text}"
    );
    let mut again = json(&text);
    merge_hooks(&mut again).unwrap();
    assert_eq!(compact(again), text);
}

#[test]
fn common_settings_are_installed_twice_without_a_change() {
    let settings = r#"{"$schema":"https://example.com/s.json","hooks":{"Stop":[]},"n":7,"m":-9223372036854775808,"deep":[[{}]]}"#;
    let once = installed_text(read_settings(settings).unwrap()).unwrap();
    let twice = installed_text(read_settings(&once).unwrap()).unwrap();
    assert_eq!(once, twice);
    assert!(once.contains("\"$schema\": \"https://example.com/s.json\""));
}

#[test]
fn the_start_of_a_session_is_passed_on_by_a_command() {
    let mut settings = json("{}");
    merge_hooks(&mut settings).unwrap();
    assert_eq!(
        hook(&entries(&settings, "SessionStart")[0], "command"),
        Some("curl -s --max-time 1 -X POST -H 'Content-Type: application/json' --data-binary @- http://127.0.0.1:4747/hook > /dev/null 2>&1; exit 0")
    );
    assert!(entries(&settings, "Stop")[0].get("matcher").is_none());
    assert_eq!(entries(&settings, "PostToolUse")[0].get("matcher").unwrap().as_str(), Some("Agent"));
}

#[test]
fn other_numbers_survive() {
    let mut settings = json(r#"{ "a": -3, "b": 1.5, "c": 18446744073709551615, "hooks": { "Mine": [1] } }"#);
    merge_hooks(&mut settings).unwrap();
    assert_eq!(settings.get("c").unwrap().as_u64(), Some(u64::MAX));
    assert_eq!(settings.get("a").unwrap().as_u64(), None);
    assert_eq!(settings.get("a").unwrap().as_i64(), Some(-3));
    assert_eq!(settings.get("b").unwrap().as_i64(), None);
    assert_eq!(settings.get("c").unwrap().as_i64(), None);
    let text = compact(settings);
    assert!(text.starts_with(r#"{"a":-3,"b":1.5,"c":18446744073709551615,"hooks":{"Mine":[1],"#), "{text}");
}

#[test]
fn the_installed_text_reads_back_and_is_stable() {
    let text = installed_text(read_settings(FOREIGN).unwrap()).unwrap();
    assert!(text.ends_with("}\n"));
    assert!(text.starts_with("{\n  \"hooks\": {\n    \"Notification\": [\n"), "{text}");
    let again = installed_text(read_settings(&text).unwrap()).unwrap();
    assert_eq!(text, again);
}

#[test]
fn a_file_that_is_no_json_is_refused() {
    let e = read_settings("{").unwrap_err();
    assert!(e.starts_with("settings.json is not valid JSON: EOF"), "{e}");
    let e = installed_text(json("3")).unwrap_err();
    assert_eq!(e, "settings.json is not a JSON object");
}
