use std::collections::hash_map::DefaultHasher;
use std::hash::{Hash, Hasher};

use boson_spectra_telemetry::hashing::hash_label_value;
use boson_spectra_telemetry::json::{JsonNumber, JsonValue};
use boson_spectra_telemetry::ops_log::{
    allowlist_label_value, event_field_keys, filter_metric_labels, metric_label_keys,
    sanitize_event_payload, sanitize_event_string_field, sanitize_metric_label,
};

fn text(s: &str) -> JsonValue {
    JsonValue::String(s.to_owned())
}

fn integer(n: i64) -> JsonValue {
    JsonValue::Number(JsonNumber { text: n.to_string(), as_i64: Some(n) })
}

fn object(members: Vec<(&str, JsonValue)>) -> JsonValue {
    JsonValue::Object(members.into_iter().map(|(k, v)| (k.to_owned(), v)).collect())
}

fn member_text<'a>(v: &'a JsonValue, key: &str) -> Option<&'a str> {
    match v.get(key) {
        Some(JsonValue::String(s)) => Some(s.as_str()),
        _ => None,
    }
}

#[test]
fn hash_label_value_is_stable_and_bounded() {
    let a = hash_label_value("send_email");
    let b = hash_label_value("send_email");
    let c = hash_label_value("other_task");
    assert_eq!(a, b);
    assert_ne!(a, c);
    assert!(a.starts_with('h'));
    assert_eq!(a.len(), 17);
}

#[test]
fn hash_label_value_matches_str_hash_of_default_hasher() {
    for value in ["send_email", "", "t", "héllo wörld"] {
        let mut hasher = DefaultHasher::new();
        value.hash(&mut hasher);
        let expected = format!("h{:016x}", hasher.finish());
        assert_eq!(hash_label_value(value), expected);
    }
}

#[test]
fn hash_label_value_is_lower_hex() {
    let a = hash_label_value("demo");
    assert!(a[1..].chars().all(|c| c.is_ascii_digit() || ('a'..='f').contains(&c)));
}

#[test]
fn filter_metric_labels_hashes_task_name_sad() {
    let filtered = filter_metric_labels(
        "boson_tasks_enqueued",
        &[("task_name", "demo"), ("mode", "local")],
    )
    .expect("known metric");
    assert_eq!(filtered.len(), 2);
    assert_eq!(filtered[0].0, "task_name");
    assert_ne!(filtered[0].1, "demo");
    assert_eq!(filtered[1].0, "mode");
    assert_eq!(filtered[1].1, "local");
}

#[test]
fn filter_metric_labels_unknown_mode_maps_to_unknown_sad() {
    let filtered = filter_metric_labels(
        "boson_tasks_failed",
        &[
            ("task_name", "t"),
            ("mode", "tenant-prod"),
            ("reason", "handler_error"),
        ],
    )
    .expect("known metric");
    assert_eq!(filtered[1].1, "unknown");
    assert_eq!(filtered[2].1, "handler_error");
}

#[test]
fn unknown_metric_name_returns_none_sad() {
    assert!(filter_metric_labels("unknown_boson_metric", &[]).is_none());
}

#[test]
fn filter_metric_labels_drops_unlisted_keys_and_keeps_order() {
    let filtered = filter_metric_labels(
        "boson_remote_errors",
        &[("task_name", "t"), ("operation", "enqueue"), ("mode", "local"), ("operation", "poll")],
    )
    .expect("known metric");
    assert_eq!(
        filtered,
        vec![
            ("operation".to_owned(), "enqueue".to_owned()),
            ("operation".to_owned(), "poll".to_owned()),
        ]
    );
}

#[test]
fn filter_metric_labels_task_name_is_hash_of_value() {
    let filtered =
        filter_metric_labels("boson_task_duration_ms", &[("task_name", "send_email")]).unwrap();
    assert_eq!(filtered, vec![("task_name".to_owned(), hash_label_value("send_email"))]);
}

#[test]
fn allowlist_label_value_normalizes_known_values() {
    assert_eq!(allowlist_label_value("mode", "  Local\t"), "local");
    assert_eq!(allowlist_label_value("mode", "DISTRIBUTED"), "distributed");
    assert_eq!(allowlist_label_value("mode", "remote "), "remote");
    assert_eq!(allowlist_label_value("reason", " Rate_Limited"), "rate_limited");
    assert_eq!(allowlist_label_value("reason", "panic"), "unknown");
    assert_eq!(allowlist_label_value("mode", "unknown"), "unknown");
    assert_eq!(allowlist_label_value("mode", ""), "unknown");
    assert_eq!(allowlist_label_value("mode", "\u{3000}local\u{a0}"), "local");
}

#[test]
fn allowlist_label_value_other_keys_pass_or_hash() {
    assert_eq!(allowlist_label_value("operation", " Poll "), " Poll ");
    assert_eq!(allowlist_label_value("task_name", "t"), hash_label_value("t"));
}

#[test]
fn allowlist_is_idempotent_on_mode_and_reason() {
    for key in ["mode", "reason"] {
        for value in [" LOCAL", "tenant-prod", "Persistence", "", "unknown"] {
            let once = allowlist_label_value(key, value);
            assert_eq!(allowlist_label_value(key, &once), once);
        }
    }
}

#[test]
fn sanitize_metric_label_hashes_only_task_name() {
    assert_eq!(sanitize_metric_label("task_name", "demo"), hash_label_value("demo"));
    assert_eq!(sanitize_metric_label("mode", "Demo"), "Demo");
}

#[test]
fn metric_and_event_keys_tables() {
    assert_eq!(metric_label_keys("boson_tasks_completed"), Some(&["task_name", "mode"][..]));
    assert_eq!(metric_label_keys("boson_tasks_failed"), Some(&["task_name", "mode", "reason"][..]));
    assert_eq!(metric_label_keys("boson_remote_errors"), Some(&["operation"][..]));
    assert_eq!(metric_label_keys("boson_task_log"), None);
    assert_eq!(event_field_keys("boson_runtime_log"), Some(&["component", "message", "mode"][..]));
    assert_eq!(event_field_keys("boson_tasks_enqueued"), None);
    assert_eq!(event_field_keys("boson_task_log").map(|v| v.len()), Some(9));
}

#[test]
fn sanitize_event_string_field_by_kind() {
    assert_eq!(sanitize_event_string_field("error", "boom token=abc"), "boom token=[redacted]");
    assert_eq!(sanitize_event_string_field("run_id", "r"), hash_label_value("r"));
    assert_eq!(sanitize_event_string_field("mode", "Remote"), "remote");
    assert_eq!(sanitize_event_string_field("pool", "Default "), "Default ");
}

#[test]
fn sanitize_event_payload_hashes_ids_and_strips_unknown_fields_sad() {
    let payload = object(vec![
        ("task_id", text("run-abc")),
        ("job_id", text("job-xyz")),
        ("task_name", text("demo")),
        ("attempt", integer(1)),
        ("pool", text("default")),
        ("mode", text("local")),
        ("duration_ms", integer(3)),
        ("status", text("failed")),
        ("message", text("db failed password=hunter2")),
        ("secret", text("drop-me")),
    ]);
    let filtered = sanitize_event_payload("boson_task_log", &payload).expect("known event");
    assert_ne!(member_text(&filtered, "task_id"), Some("run-abc"));
    assert_ne!(member_text(&filtered, "job_id"), Some("job-xyz"));
    assert_eq!(member_text(&filtered, "task_name"), Some("demo"));
    assert!(filtered.get("secret").is_none());
    assert!(member_text(&filtered, "message").is_some_and(|m| m.contains("[redacted]")));
}

#[test]
fn sanitize_handler_error_payload_hashes_run_id_sad() {
    let payload = object(vec![
        ("task_name", text("demo")),
        ("job_id", text("job-1")),
        ("run_id", text("run-1")),
        ("error", text("handler boom")),
    ]);
    let filtered =
        sanitize_event_payload("boson_handler_error", &payload).expect("known event");
    assert_ne!(member_text(&filtered, "job_id"), Some("job-1"));
    assert_ne!(member_text(&filtered, "run_id"), Some("run-1"));
    assert_eq!(member_text(&filtered, "error"), Some("handler boom"));
}

#[test]
fn sanitize_event_payload_exact_result() {
    let payload = object(vec![
        ("extra", text("x")),
        ("mode", text(" Distributed")),
        ("message", text("ready")),
        ("component", JsonValue::Array(vec![integer(1), JsonValue::Null])),
    ]);
    let filtered = sanitize_event_payload("boson_runtime_log", &payload).unwrap();
    assert_eq!(
        filtered,
        object(vec![
            ("component", JsonValue::Array(vec![integer(1), JsonValue::Null])),
            ("message", text("ready")),
            ("mode", text("distributed")),
        ])
    );
}

#[test]
fn sanitize_event_payload_unknown_event_or_non_object_is_none() {
    assert!(sanitize_event_payload("unknown_boson_event", &object(vec![])).is_none());
    assert!(sanitize_event_payload("boson_runtime_log", &text("x")).is_none());
    assert!(sanitize_event_payload("boson_runtime_log", &JsonValue::Null).is_none());
    assert_eq!(
        sanitize_event_payload("boson_runtime_log", &object(vec![])),
        Some(object(vec![]))
    );
}
