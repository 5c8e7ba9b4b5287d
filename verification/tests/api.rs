use vastline::api::{
    curl_failure_message, fleet_counts, instance_list, instance_status, is_running, read_response,
    FleetCounts,
};
use vastline::config::{api_base_from, VAST_API_BASE_DEFAULT};
use vastline::json::JsonValue;

fn text(s: &str) -> JsonValue {
    JsonValue::Text(s.to_string())
}

fn num(s: &str) -> JsonValue {
    JsonValue::Number(s.to_string())
}

fn obj(entries: Vec<(&str, JsonValue)>) -> JsonValue {
    JsonValue::Object(entries.into_iter().map(|(k, v)| (k.to_string(), v)).collect())
}

fn instances(list: Vec<JsonValue>) -> JsonValue {
    obj(vec![("instances", JsonValue::Array(list))])
}

#[test]
fn running_status_is_case_insensitive() {
    assert!(is_running(Some("running")));
    assert!(is_running(Some("RUNNING")));
    assert!(!is_running(Some("exited")));
    assert!(!is_running(Some(" running")));
    assert!(!is_running(None));
}

#[test]
fn status_prefers_actual_over_requested() {
    let i = obj(vec![("actual_status", text("exited")), ("cur_state", text("running"))]);
    assert_eq!(instance_status(&i), Some("exited"));
    let i = obj(vec![("actual_status", JsonValue::Null), ("cur_state", text("running"))]);
    assert_eq!(instance_status(&i), Some("running"));
    let i = obj(vec![("actual_status", num("1"))]);
    assert_eq!(instance_status(&i), None);
}

#[test]
fn counts_of_a_mixed_fleet() {
    let v = instances(vec![
        obj(vec![("actual_status", text("running")), ("dph_total", num("1.2"))]),
        obj(vec![("actual_status", text("running")), ("dph_total", num("0.64"))]),
        obj(vec![("actual_status", text("exited")), ("dph_total", num("0.57")), ("storage_total_cost", num("0.01"))]),
    ]);
    assert_eq!(fleet_counts(&v), FleetCounts { running: 2, total: 3 });
}

#[test]
fn counts_fall_back_to_cur_state() {
    let v = instances(vec![obj(vec![("cur_state", text("running")), ("dph_total", text("0.50"))])]);
    assert_eq!(fleet_counts(&v), FleetCounts { running: 1, total: 1 });
}

#[test]
fn counts_of_missing_or_odd_lists() {
    assert_eq!(fleet_counts(&instances(vec![])), FleetCounts { running: 0, total: 0 });
    assert_eq!(fleet_counts(&obj(vec![])), FleetCounts { running: 0, total: 0 });
    assert_eq!(fleet_counts(&obj(vec![("instances", text("x"))])), FleetCounts { running: 0, total: 0 });
    assert!(instance_list(&obj(vec![("instances", JsonValue::Null)])).is_none());
}

#[test]
fn curl_messages() {
    assert_eq!(curl_failure_message(""), "curl: request failed");
    assert_eq!(curl_failure_message("curl: (6) Could not resolve host\n"), "curl: curl: (6) Could not resolve host");
    assert_eq!(curl_failure_message("first\nsecond\r\n"), "curl: second");
    assert_eq!(curl_failure_message("first\n  last  "), "curl: last");
    assert_eq!(curl_failure_message("a\n\n"), "curl: ");
}

#[test]
fn curl_message_agrees_with_std_lines() {
    for s in ["", "x", "x\n", "x\r\n", "a\nb", "a\nb\n", "a\n\n", "\n", "a\r", " a \r\n"] {
        let expected = format!("curl: {}", s.lines().last().unwrap_or("request failed").trim());
        assert_eq!(curl_failure_message(s), expected, "{s:?}");
    }
}

#[test]
fn api_base_override() {
    assert_eq!(api_base_from(None), VAST_API_BASE_DEFAULT);
    assert_eq!(api_base_from(Some("   ")), VAST_API_BASE_DEFAULT);
    assert_eq!(api_base_from(Some(" https://x.test/api/// ")), "https://x.test/api");
    assert_eq!(api_base_from(Some("/")), "");
    assert_eq!(VAST_API_BASE_DEFAULT, "https://console.vast.ai/api/v0");
}

#[test]
fn responses() {
    let body = br#"{ "instances": [ { "actual_status": "running", "dph_total": 1.2 } ] }"#;
    let v = read_response(true, "", body, "https://x/instances/").unwrap();
    assert_eq!(fleet_counts(&v), FleetCounts { running: 1, total: 1 });
    assert_eq!(
        read_response(false, "curl: (22) The requested URL returned error: 401\n", body, "u"),
        Err("curl: curl: (22) The requested URL returned error: 401".to_string())
    );
    let err = read_response(true, "", b"<html>", "https://x/users/current/").unwrap_err();
    let serde_err = serde_json::from_slice::<serde_json::Value>(b"<html>").unwrap_err();
    assert_eq!(err, format!("bad JSON from https://x/users/current/: {serde_err}"));
    assert_eq!(read_response(true, "", b"{\"credit\": 15.0}", "u"), Ok(obj(vec![("credit", num("15.0"))])));
}
