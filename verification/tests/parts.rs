//! Texts, JSON, clocks, the daemon's settings and rounds, and what discovery keeps.

use agentdeck::clock::{epoch_ms, epoch_ms_of, whole_millis, Clock, Reading};
use agentdeck::daemon::{ingest, ingest_at, reap, reap_at, Config, Ingested};
use agentdeck::discover::{dump, dump_file, dump_of};
use agentdeck::json::{add_member, str_field, take_member, u64_field, Json};
use agentdeck::state::Store;
use agentdeck::text::{contains_str, extract_tag, parse_u64, push_decimal, str_less};
use agentdeck::wire::{compact, from_value, into_value, parse_bytes, parse_text, pretty};
use std::time::Duration;

fn json(text: &str) -> Json {
    parse_text(text).unwrap_or_else(|e| panic!("{text}: {e}"))
}

#[test]
fn tags_are_extracted() {
    assert_eq!(extract_tag("<a>1</a>", "a"), Some("1"));
    assert_eq!(extract_tag("x<a> \t é \u{3000}\n</a><a>2</a>", "a"), Some("é"));
    assert_eq!(extract_tag("</a><a>1</a>", "a"), Some("1"));
    assert_eq!(extract_tag("<a><b>1</b></a>", "b"), Some("1"));
    assert_eq!(extract_tag("<a></a>", "a"), Some(""));
    assert_eq!(extract_tag("<a>1", "a"), None);
    assert_eq!(extract_tag("1</a>", "a"), None);
    assert_eq!(extract_tag("<ab>1</ab>", "a"), None);
    assert_eq!(extract_tag("", "a"), None);
}

#[test]
fn numbers_are_read_and_written() {
    assert_eq!(parse_u64("0"), Some(0));
    assert_eq!(parse_u64("+7"), Some(7));
    assert_eq!(parse_u64("007"), Some(7));
    assert_eq!(parse_u64("18446744073709551615"), Some(u64::MAX));
    for bad in ["", "+", "-1", "++1", " 1", "1 ", "1_0", "0x1", "18446744073709551616", "٣"] {
        assert_eq!(parse_u64(bad), None, "{bad}");
        assert_eq!(bad.parse::<u64>().ok(), None, "{bad}");
    }
    for n in [0, 9, 10, 99, 100, 1_234_567, u64::MAX] {
        let mut text = String::from("n=");
        push_decimal(&mut text, n);
        assert_eq!(text, format!("n={n}"));
        assert_eq!(parse_u64(&text[2..]), Some(n));
    }
}

#[test]
fn texts_are_searched_and_ordered() {
    assert!(contains_str("abcabd", "abd"));
    assert!(contains_str("abc", ""));
    assert!(!contains_str("ab", "abc"));
    for (a, b) in [("", "a"), ("a", "b"), ("a", "ab"), ("ab", "b"), ("z", "é"), ("é", "\u{10000}")] {
        assert!(str_less(a, b) && a < b, "{a} {b}");
        assert!(!str_less(b, a));
        assert!(!str_less(a, a));
    }
}

#[test]
fn json_is_read_and_written() {
    let text = r#"{"a":[1,-2,1.5,true,null,"x\n"],"b":{"c":{}}}"#;
    assert_eq!(compact(json(text)), text);
    assert_eq!(compact(parse_bytes(text.as_bytes()).unwrap()), text);
    assert_eq!(pretty(json(r#"{"a":[1]}"#)).unwrap(), "{\n  \"a\": [\n    1\n  ]\n}");
    assert_eq!(compact(json(r#"{"b":1,"a":2,"b":3}"#)), r#"{"a":2,"b":3}"#);
    assert_eq!(parse_text("").unwrap_err(), "EOF while parsing a value at line 1 column 0");
    assert_eq!(parse_bytes(b"[1,]").unwrap_err(), "trailing comma at line 1 column 4");
}

#[test]
fn values_pass_both_ways() {
    let value: serde_json::Value = serde_json::from_str(r#"{"a":[1,{"b":"c"}],"d":null}"#).unwrap();
    let own = from_value(value.clone());
    assert_eq!(own.get("a").unwrap().as_array().unwrap()[0].as_u64(), Some(1));
    assert_eq!(into_value(own), value);
}

#[test]
fn a_name_listed_twice_stands_for_the_last() {
    let mut fields: Vec<(String, Json)> = Vec::new();
    add_member(&mut fields, "a", Json::from_u64(1));
    add_member(&mut fields, "b", Json::from_u64(2));
    fields.push(("a".to_string(), Json::from_u64(3)));
    let object = Json::Object(fields);
    assert_eq!(object.get("a").unwrap().as_u64(), Some(3));
    assert_eq!(compact(object), r#"{"a":3,"b":2}"#);
    let mut fields: Vec<(String, Json)> = Vec::new();
    fields.push(("a".to_string(), Json::from_u64(1)));
    fields.push(("a".to_string(), Json::from_u64(3)));
    assert_eq!(take_member(&mut fields, "a").unwrap().as_u64(), Some(3));
    assert!(take_member(&mut fields, "a").is_none());
}

#[test]
fn fields_are_read_by_kind() {
    let v = json(r#"{"s":"x","e":"","n":3,"m":-3,"f":3.0}"#);
    assert_eq!(str_field(&v, "s"), Some("x"));
    assert_eq!(str_field(&v, "e"), None);
    assert_eq!(str_field(&v, "n"), None);
    assert_eq!(str_field(&v, "z"), None);
    assert_eq!(u64_field(&v, "n"), Some(3));
    assert_eq!(u64_field(&v, "m"), None);
    assert_eq!(u64_field(&v, "f"), None);
    assert_eq!(u64_field(&v, "s"), None);
    assert_eq!(str_field(&json("[]"), "s"), None);
    assert_eq!(v.get("s").unwrap().as_array().map(|a| a.len()), None);
}

#[test]
fn milliseconds_are_whole() {
    assert_eq!(whole_millis(1_999_999), 1);
    assert_eq!(whole_millis(0), 0);
    assert_eq!(whole_millis((u64::MAX as u128 + 1) * 1_000_000 + 5_000_000), 5);
    assert_eq!(epoch_ms_of(Some(Duration::from_millis(1234))), 1234);
    assert_eq!(epoch_ms_of(None), 0);
    assert!(epoch_ms() > 1_600_000_000_000);
    let clock = Clock::start();
    let first = clock.read();
    let then = clock.now();
    assert!(then >= first.at);
    assert!(first.epoch_ms > 1_600_000_000_000);
}

#[test]
fn the_clock_advances_with_time() {
    tokio::runtime::Builder::new_current_thread()
        .enable_time()
        .start_paused(true)
        .build()
        .unwrap()
        .block_on(async {
            let clock = Clock::start();
            let before = clock.now();
            tokio::time::advance(Duration::from_nanos(1_500_000_001)).await;
            assert_eq!(clock.now() - before, 1_500_000_001);
        });
}

#[test]
fn the_settings_come_from_two_variables() {
    let d = Config::default();
    assert_eq!(d.stale_ttl, Duration::from_secs(300));
    assert_eq!(d.done_ttl, Duration::from_secs(60));
    assert_eq!(d.reap_interval, Duration::from_secs(15));
    let c = Config::from_env(None, None);
    assert_eq!((c.stale_ttl, c.done_ttl), (d.stale_ttl, d.done_ttl));
    let c = Config::from_env(Some("10"), Some("x"));
    assert_eq!((c.stale_ttl, c.done_ttl), (Duration::from_secs(10), d.done_ttl));
    let c = Config::from_env(Some("-1"), Some("0"));
    assert_eq!((c.stale_ttl, c.done_ttl), (d.stale_ttl, Duration::from_secs(0)));
    assert_eq!(c.reap_interval, Duration::from_secs(15));
}

#[test]
fn a_payload_is_taken_in() {
    let mut store = Store::default();
    let now = Reading { at: 7_000_000, epoch_ms: 3 };
    let read = parse_text(r#"{"hook_event_name":"Stop","session_id":"s"}"#);
    match ingest_at(&mut store, read, &now) {
        Ingested::Changed(text) => assert_eq!(
            text,
            r#"{"aggregate":"done","nodes":[{"age_ms":0,"agent_type":null,"cwd":null,"duration_ms":null,"id":"s","model":null,"parent":null,"started_at_ms":3,"status":"done","tokens":null,"tool_calls":null}]}"#
        ),
        _ => panic!("it changed the tree"),
    }
    assert!(matches!(ingest_at(&mut store, Ok(Json::Null), &now), Ingested::Unchanged));
    match ingest_at(&mut store, Err("no".to_string()), &now) {
        Ingested::Dropped(e) => assert_eq!(e, "no"),
        _ => panic!("it was no JSON"),
    }
    assert_eq!(store.len(), 1);
}

#[test]
fn one_snapshot_goes_out_per_change() {
    let mut store = Store::default();
    let bodies = [
        r#"{"hook_event_name":"SessionStart","session_id":"a"}"#,
        "not json",
        r#"{"hook_event_name":"Odd","session_id":"a"}"#,
        "",
        r#"{"hook_event_name":"Stop","session_id":"b"}"#,
        r#"{"hook_event_name":"SessionEnd","session_id":"a"}"#,
        r#"{"hook_event_name":"SessionEnd","session_id":"a"}"#,
    ];
    let mut sent: Vec<String> = Vec::new();
    for body in bodies {
        if let Ingested::Changed(text) = ingest(&mut store, body.as_bytes()) {
            sent.push(text);
        }
    }
    let counts: Vec<usize> = sent
        .iter()
        .map(|text| json(text).get("nodes").unwrap().as_array().unwrap().len())
        .collect();
    assert_eq!(counts, vec![1, 2, 1]);
    assert!(store.get("b").is_some() && store.get("a").is_none());
}

#[test]
fn a_round_of_removal_shows_what_is_left() {
    let mut store = Store::default();
    let event = json(r#"{"hook_event_name":"Stop","session_id":"s"}"#);
    store.apply_at(&event, &Reading { at: 0, epoch_ms: 0 });
    let config = Config::from_env(Some("2"), None);
    assert_eq!(reap_at(&mut store, &config, 2_000_000_000), None);
    assert_eq!(
        reap_at(&mut store, &config, 2_000_000_001),
        Some(r#"{"aggregate":"idle","nodes":[]}"#.to_string())
    );
    assert_eq!(reap(&mut store, &config), None);
}

#[test]
fn payloads_are_kept_as_they_come() {
    let kept = dump(br#"{"hook_event_name":"Stop","x":1}"#);
    assert_eq!(kept.event, "Stop");
    assert_eq!(kept.text, "{\n  \"hook_event_name\": \"Stop\",\n  \"x\": 1\n}");
    assert_eq!(kept.problem, None);
    let kept = dump(b"{\"x\":1}");
    assert_eq!(kept.event, "unknown");
    let kept = dump(b"{\"hook_event_name\":1}");
    assert_eq!(kept.event, "unknown");
    let kept = dump(b"[1\xff");
    assert_eq!(kept.event, "invalid");
    assert_eq!(kept.text, "[1\u{fffd}");
    assert!(kept.problem.is_some());
    let kept = dump_of(Err("why".to_string()), "raw".to_string());
    assert_eq!((kept.text.as_str(), kept.problem.as_deref()), ("raw", Some("why")));
}

#[test]
fn kept_payloads_are_numbered() {
    assert_eq!(dump_file("Stop", 0), "Stop-0000.json");
    assert_eq!(dump_file("Stop", 12), "Stop-0012.json");
    assert_eq!(dump_file("x", 999), "x-0999.json");
    assert_eq!(dump_file("x", 1000), "x-1000.json");
    assert_eq!(dump_file("x", 123456), "x-123456.json");
    assert_eq!(dump_file("x", 7), format!("x-{:04}.json", 7));
}
