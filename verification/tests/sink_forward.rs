use boson_spectra_telemetry::install::{backend_for_setting, SpectraOpsLog, TelemetryBackend};
use boson_spectra_telemetry::json::{JsonNumber, JsonValue};
use boson_spectra_telemetry::sink_forward::{
    event_row, field_i64, field_str, metric_for_name, parse_i64, BosonMetric, EventRow,
};

fn text(s: &str) -> JsonValue {
    JsonValue::String(s.to_owned())
}

fn number(t: &str, v: Option<i64>) -> JsonValue {
    JsonValue::Number(JsonNumber { text: t.to_owned(), as_i64: v })
}

fn object(members: Vec<(&str, JsonValue)>) -> JsonValue {
    JsonValue::Object(members.into_iter().map(|(k, v)| (k.to_owned(), v)).collect())
}

#[test]
fn field_str_and_i64_happy_coercions() {
    let fields = object(vec![
        ("s", text("hello")),
        ("b", JsonValue::Bool(true)),
        ("n", number("42", Some(42))),
        ("ns", text("7")),
    ]);
    assert_eq!(field_str(&fields, "s"), "hello");
    assert_eq!(field_str(&fields, "b"), "true");
    assert_eq!(field_str(&fields, "n"), "42");
    assert_eq!(field_i64(&fields, "n"), 42);
    assert_eq!(field_i64(&fields, "ns"), 7);
}

#[test]
fn field_str_and_i64_missing_or_invalid_default_sad() {
    let fields = object(vec![
        ("arr", JsonValue::Array(vec![])),
        ("obj", object(vec![])),
        ("bad", text("not-a-number")),
        ("null", JsonValue::Null),
    ]);
    assert_eq!(field_str(&fields, "missing"), "");
    assert_eq!(field_str(&fields, "arr"), "");
    assert_eq!(field_str(&fields, "obj"), "");
    assert_eq!(field_str(&fields, "null"), "");
    assert_eq!(field_i64(&fields, "missing"), 0);
    assert_eq!(field_i64(&fields, "bad"), 0);
    assert_eq!(field_i64(&fields, "arr"), 0);
    assert_eq!(field_i64(&fields, "null"), 0);
}

#[test]
fn field_readers_on_non_objects_and_floats() {
    assert_eq!(field_str(&text("x"), "x"), "");
    assert_eq!(field_i64(&JsonValue::Null, "x"), 0);
    let fields = object(vec![("f", number("2.5", None)), ("b", JsonValue::Bool(false))]);
    assert_eq!(field_str(&fields, "f"), "2.5");
    assert_eq!(field_i64(&fields, "f"), 0);
    assert_eq!(field_str(&fields, "b"), "false");
    assert_eq!(field_i64(&fields, "b"), 0);
}

#[test]
fn parse_i64_matches_std() {
    for s in [
        "0", "7", "+7", "-7", "007", "-0", "9223372036854775807", "-9223372036854775808",
        "9223372036854775808", "-9223372036854775809", "", "+", "-", "12a", " 1", "1 ",
        "--1", "+-1", "٣", "00000000000000000000000000000042", "99999999999999999999999",
    ] {
        assert_eq!(parse_i64(s), s.parse::<i64>().ok(), "input {s:?}");
    }
}

#[test]
fn metric_names_map_to_recorders() {
    assert_eq!(metric_for_name("boson_tasks_enqueued"), Some(BosonMetric::TasksEnqueued));
    assert_eq!(metric_for_name("boson_tasks_completed"), Some(BosonMetric::TasksCompleted));
    assert_eq!(metric_for_name("boson_tasks_failed"), Some(BosonMetric::TasksFailed));
    assert_eq!(metric_for_name("boson_remote_errors"), Some(BosonMetric::RemoteErrors));
    assert_eq!(metric_for_name("boson_task_duration_ms"), Some(BosonMetric::TaskDurationMs));
    assert_eq!(metric_for_name("not_a_boson_metric"), None);
}

#[test]
fn event_rows_read_fields_with_defaults() {
    let row = event_row(
        "boson_task_log",
        &object(vec![
            ("task_id", text("r")),
            ("job_id", text("j")),
            ("task_name", text("t")),
            ("attempt", number("1", Some(1))),
            ("pool", text("default")),
            ("mode", text("local")),
            ("duration_ms", text("3")),
            ("status", text("completed")),
            ("message", text("ok")),
        ]),
    );
    assert_eq!(
        row,
        Some(EventRow::TaskLog {
            task_id: "r".to_owned(),
            job_id: "j".to_owned(),
            task_name: "t".to_owned(),
            attempt: 1,
            pool: "default".to_owned(),
            mode: "local".to_owned(),
            duration_ms: 3,
            status: "completed".to_owned(),
            message: "ok".to_owned(),
        })
    );
    assert_eq!(
        event_row("boson_handler_error", &object(vec![("task_name", JsonValue::Null)])),
        Some(EventRow::HandlerError {
            task_name: String::new(),
            job_id: String::new(),
            run_id: String::new(),
            error: String::new(),
        })
    );
    assert_eq!(
        event_row(
            "boson_runtime_log",
            &object(vec![
                ("component", JsonValue::Array(vec![])),
                ("message", object(vec![])),
                ("mode", JsonValue::Bool(true)),
            ]),
        ),
        Some(EventRow::RuntimeLog {
            component: String::new(),
            message: String::new(),
            mode: "true".to_owned(),
        })
    );
    assert_eq!(event_row("unknown_table", &object(vec![])), None);
}

#[test]
fn telemetry_setting_selects_backend() {
    for off in ["off", "0", "false", "none", " OFF ", "None\n", "FaLsE"] {
        assert_eq!(backend_for_setting(Some(off)), TelemetryBackend::Off, "{off:?}");
    }
    assert_eq!(backend_for_setting(Some("console")), TelemetryBackend::Console);
    assert_eq!(backend_for_setting(Some(" Console\t")), TelemetryBackend::Console);
    assert_eq!(backend_for_setting(Some("spectra")), TelemetryBackend::Spectra);
    assert_eq!(backend_for_setting(Some("")), TelemetryBackend::Spectra);
    assert_eq!(backend_for_setting(Some("o ff")), TelemetryBackend::Spectra);
    assert_eq!(backend_for_setting(None), TelemetryBackend::Spectra);
}

#[test]
fn spectra_ops_log_new_is_default() {
    assert_eq!(SpectraOpsLog::new(), SpectraOpsLog::default());
}
