//! Consumer-side forwarding: which typed Spectra recorder or logger a raw emit goes
//! to, and the row values read from its JSON fields.

use vstd::prelude::*;

use crate::json::{json_get, JsonModel, JsonValue};
use crate::text::{chars_of, str_eq};

verus! {

/// Whether `c` is an ASCII decimal digit.
pub open spec fn is_digit(c: char) -> bool {
    '0' <= c <= '9'
}

/// The value of the decimal digit `c`.
pub open spec fn digit_value(c: char) -> int {
    (c as u32) - 48
}

/// Whether every character of `d` is a decimal digit.
pub open spec fn all_digits(d: Seq<char>) -> bool {
    forall|i: int| 0 <= i < d.len() ==> is_digit(#[trigger] d[i])
}

/// The number the decimal digits `d` spell.
pub open spec fn digits_value(d: Seq<char>) -> int
    decreases d.len(),
{
    if d.len() == 0 {
        0
    } else {
        digits_value(d.drop_last()) * 10 + digit_value(d.last())
    }
}

/// The result of `str::parse::<i64>`: an optional `+` or `-`, then one or more
/// decimal digits, whose value fits in `i64`.
pub open spec fn parsed_i64(s: Seq<char>) -> Option<i64> {
    if s.len() == 0 {
        None
    } else {
        let negative = s[0] == '-';
        let d = if s[0] == '+' || s[0] == '-' {
            s.drop_first()
        } else {
            s
        };
        if d.len() == 0 || !all_digits(d) {
            None
        } else {
            let v = if negative {
                -digits_value(d)
            } else {
                digits_value(d)
            };
            if i64::MIN <= v <= i64::MAX {
                Some(v as i64)
            } else {
                None
            }
        }
    }
}

/// The value of digits is never negative and never falls as digits are appended.
pub proof fn lemma_digits_value_prefix(d: Seq<char>, k: int)
    requires
        all_digits(d),
        0 <= k <= d.len(),
    ensures
        0 <= digits_value(d.take(k)) <= digits_value(d),
    decreases d.len(),
{
    if d.len() > 0 {
        assert(all_digits(d.drop_last())) by {
            assert forall|i: int| 0 <= i < d.drop_last().len() implies is_digit(
                #[trigger] d.drop_last()[i],
            ) by {
                assert(d.drop_last()[i] == d[i]);
            }
        }
        assert(is_digit(d[d.len() - 1]));
        if k == d.len() {
            assert(d.take(k) =~= d);
            lemma_digits_value_prefix(d.drop_last(), 0);
        } else {
            lemma_digits_value_prefix(d.drop_last(), k);
            assert(d.drop_last().take(k) =~= d.take(k));
            lemma_digits_value_prefix(d.drop_last(), d.len() - 1);
            assert(d.drop_last().take(d.len() - 1) =~= d.drop_last());
        }
    } else {
        assert(d.take(k) =~= d);
    }
}

/// Parses a decimal `i64` as `str::parse::<i64>` does: an optional sign, then
/// at least one ASCII digit, within the `i64` range.
pub fn parse_i64(s: &str) -> (r: Option<i64>)
    ensures
        r == parsed_i64(s@),
{
    let c = chars_of(s);
    let n = c.len();
    if n == 0 {
        return None;
    }
    let negative = c[0] == '-';
    let start: usize = if c[0] == '+' || c[0] == '-' {
        1
    } else {
        0
    };
    let ghost d = c@.skip(start as int);
    assert(d =~= (if c@[0] == '+' || c@[0] == '-' {
        c@.drop_first()
    } else {
        c@
    }));
    if start == n {
        assert(s@.drop_first().len() == 0);
        return None;
    }
    let mut j: usize = start;
    while j < n
        invariant
            start <= j <= n == c@.len(),
            d == c@.skip(start as int),
            forall|i: int| 0 <= i < j - start ==> is_digit(#[trigger] d[i]),
            c@ == s@,
            d =~= (if c@[0] == '+' || c@[0] == '-' {
                c@.drop_first()
            } else {
                c@
            }),
        decreases n - j,
    {
        if !('0' <= c[j] && c[j] <= '9') {
            assert(!is_digit(d[j - start]));
            return None;
        }
        j = j + 1;
    }
    assert(all_digits(d));
    let limit: u128 = if negative {
        9223372036854775808
    } else {
        9223372036854775807
    };
    let mut acc: u128 = 0;
    let mut j: usize = start;
    assert(d.take(0) =~= seq![]);
    while j < n
        invariant
            start <= j <= n == c@.len(),
            d == c@.skip(start as int),
            all_digits(d),
            acc == digits_value(d.take(j - start)),
            c@ == s@,
            n > 0,
            negative == (c@[0] == '-'),
            d =~= (if c@[0] == '+' || c@[0] == '-' {
                c@.drop_first()
            } else {
                c@
            }),
            acc <= limit,
            limit == (if negative {
                9223372036854775808u128
            } else {
                9223372036854775807u128
            }),
        decreases n - j,
    {
        let ghost k = j - start;
        assert(is_digit(d[k]));
        assert(d[k] == c@[j as int]);
        let dv = ((c[j] as u32) - 48) as u128;
        let next = acc * 10 + dv;
        assert(d.take(k + 1).drop_last() =~= d.take(k));
        assert(next == digits_value(d.take(k + 1)));
        if next > limit {
            proof {
                lemma_digits_value_prefix(d, k + 1);
            }
            return None;
        }
        acc = next;
        j = j + 1;
    }
    assert(d.take(n - start) =~= d);
    let v: i128 = if negative {
        -(acc as i128)
    } else {
        acc as i128
    };
    Some(v as i64)
}

/// The text `field_str` reads for `key`: a string as is, a boolean or number as
/// its text, anything else (or a missing field) as the empty string.
pub open spec fn field_text(fields: JsonModel, key: Seq<char>) -> Seq<char> {
    match json_get(fields, key) {
        Some(JsonModel::Str(s)) => s,
        Some(JsonModel::Bool(b)) => if b {
            "true"@
        } else {
            "false"@
        },
        Some(JsonModel::Number(text, _)) => text,
        _ => seq![],
    }
}

/// The integer `field_i64` reads for `key`: an `i64` number, a string that parses
/// as one, `0` otherwise.
pub open spec fn field_int(fields: JsonModel, key: Seq<char>) -> i64 {
    match json_get(fields, key) {
        Some(JsonModel::Number(_, v)) => match v {
            Some(n) => n,
            None => 0,
        },
        Some(JsonModel::Str(s)) => match parsed_i64(s) {
            Some(n) => n,
            None => 0,
        },
        _ => 0,
    }
}

/// Reads `key` of `fields` as text: strings as is, booleans and numbers as their
/// text; missing or other values give the empty string.
pub fn field_str(fields: &JsonValue, key: &str) -> (r: String)
    ensures
        r@ == field_text(fields@, key@),
{
    match fields.get(key) {
        Some(JsonValue::String(s)) => s.clone(),
        Some(JsonValue::Bool(b)) => if *b {
            "true".to_owned()
        } else {
            "false".to_owned()
        },
        Some(JsonValue::Number(n)) => n.text.clone(),
        _ => String::new(),
    }
}

/// Reads `key` of `fields` as an integer: `i64` numbers as is, strings parsed as
/// `i64`; anything else gives `0`.
pub fn field_i64(fields: &JsonValue, key: &str) -> (r: i64)
    ensures
        r == field_int(fields@, key@),
{
    match fields.get(key) {
        Some(JsonValue::Number(n)) => match n.as_i64 {
            Some(v) => v,
            None => 0,
        },
        Some(JsonValue::String(s)) => match parse_i64(s.as_str()) {
            Some(v) => v,
            None => 0,
        },
        _ => 0,
    }
}

/// The Boson counters and gauges that have a typed Spectra recorder.
#[derive(Debug, Clone, Copy, PartialEq, Eq, Structural)]
pub enum BosonMetric {
    RemoteErrors,
    TaskDurationMs,
    TasksCompleted,
    TasksEnqueued,
    TasksFailed,
}

/// The recorder a metric name is forwarded to.
pub open spec fn metric_for(name: Seq<char>) -> Option<BosonMetric> {
    if name == "boson_remote_errors"@ {
        Some(BosonMetric::RemoteErrors)
    } else if name == "boson_task_duration_ms"@ {
        Some(BosonMetric::TaskDurationMs)
    } else if name == "boson_tasks_completed"@ {
        Some(BosonMetric::TasksCompleted)
    } else if name == "boson_tasks_enqueued"@ {
        Some(BosonMetric::TasksEnqueued)
    } else if name == "boson_tasks_failed"@ {
        Some(BosonMetric::TasksFailed)
    } else {
        None
    }
}

/// The typed recorder for a raw metric name; `None` (the emit is dropped) for any
/// name without one.
pub fn metric_for_name(name: &str) -> (r: Option<BosonMetric>)
    ensures
        r == metric_for(name@),
{
    if str_eq(name, "boson_remote_errors") {
        Some(BosonMetric::RemoteErrors)
    } else if str_eq(name, "boson_task_duration_ms") {
        Some(BosonMetric::TaskDurationMs)
    } else if str_eq(name, "boson_tasks_completed") {
        Some(BosonMetric::TasksCompleted)
    } else if str_eq(name, "boson_tasks_enqueued") {
        Some(BosonMetric::TasksEnqueued)
    } else if str_eq(name, "boson_tasks_failed") {
        Some(BosonMetric::TasksFailed)
    } else {
        None
    }
}

/// A row for one of the typed Boson event loggers, read from raw event fields.
#[derive(Debug, PartialEq, Eq)]
pub enum EventRow {
    HandlerError { task_name: String, job_id: String, run_id: String, error: String },
    RuntimeLog { component: String, message: String, mode: String },
    TaskLog {
        task_id: String,
        job_id: String,
        task_name: String,
        attempt: i64,
        pool: String,
        mode: String,
        duration_ms: i64,
        status: String,
        message: String,
    },
}

/// Whether `table` names a Boson event table.
pub open spec fn is_event_table(table: Seq<char>) -> bool {
    table == "boson_handler_error"@ || table == "boson_runtime_log"@ || table
        == "boson_task_log"@
}

/// The row forwarded for an event emit on `table`; `None` (the emit is dropped)
/// for a table without a typed logger. Missing or unusable fields read as `""` or `0`.
pub fn event_row(table: &str, fields: &JsonValue) -> (r: Option<EventRow>)
    ensures
        r is None <==> !is_event_table(table@),
        match r {
            Some(EventRow::HandlerError { task_name, job_id, run_id, error }) => {
                &&& table@ == "boson_handler_error"@
                &&& task_name@ == field_text(fields@, "task_name"@)
                &&& job_id@ == field_text(fields@, "job_id"@)
                &&& run_id@ == field_text(fields@, "run_id"@)
                &&& error@ == field_text(fields@, "error"@)
            },
            Some(EventRow::RuntimeLog { component, message, mode }) => {
                &&& table@ == "boson_runtime_log"@
                &&& component@ == field_text(fields@, "component"@)
                &&& message@ == field_text(fields@, "message"@)
                &&& mode@ == field_text(fields@, "mode"@)
            },
            Some(
                EventRow::TaskLog {
                    task_id,
                    job_id,
                    task_name,
                    attempt,
                    pool,
                    mode,
                    duration_ms,
                    status,
                    message,
                },
            ) => {
                &&& table@ == "boson_task_log"@
                &&& task_id@ == field_text(fields@, "task_id"@)
                &&& job_id@ == field_text(fields@, "job_id"@)
                &&& task_name@ == field_text(fields@, "task_name"@)
                &&& attempt == field_int(fields@, "attempt"@)
                &&& pool@ == field_text(fields@, "pool"@)
                &&& mode@ == field_text(fields@, "mode"@)
                &&& duration_ms == field_int(fields@, "duration_ms"@)
                &&& status@ == field_text(fields@, "status"@)
                &&& message@ == field_text(fields@, "message"@)
            },
            None => true,
        },
{
    if str_eq(table, "boson_handler_error") {
        Some(
            EventRow::HandlerError {
                task_name: field_str(fields, "task_name"),
                job_id: field_str(fields, "job_id"),
                run_id: field_str(fields, "run_id"),
                error: field_str(fields, "error"),
            },
        )
    } else if str_eq(table, "boson_runtime_log") {
        Some(
            EventRow::RuntimeLog {
                component: field_str(fields, "component"),
                message: field_str(fields, "message"),
                mode: field_str(fields, "mode"),
            },
        )
    } else if str_eq(table, "boson_task_log") {
        Some(
            EventRow::TaskLog {
                task_id: field_str(fields, "task_id"),
                job_id: field_str(fields, "job_id"),
                task_name: field_str(fields, "task_name"),
                attempt: field_i64(fields, "attempt"),
                pool: field_str(fields, "pool"),
                mode: field_str(fields, "mode"),
                duration_ms: field_i64(fields, "duration_ms"),
                status: field_str(fields, "status"),
                message: field_str(fields, "message"),
            },
        )
    } else {
        None
    }
}

/// What `field_str` and `field_i64` read back: a string field unchanged, a boolean as
/// `true` or `false`, a number as its text; an `i64` number as its value, a string
/// field as its parsed value; a missing field as `""` and `0`.
pub proof fn lemma_field_readers(fields: JsonModel, key: Seq<char>)
    ensures
        json_get(fields, key) matches Some(JsonModel::Str(s)) ==> field_text(fields, key) == s,
        json_get(fields, key) == Some(JsonModel::Bool(true)) ==> field_text(fields, key)
            == "true"@,
        json_get(fields, key) == Some(JsonModel::Bool(false)) ==> field_text(fields, key)
            == "false"@,
        json_get(fields, key) matches Some(JsonModel::Number(t, _)) ==> field_text(fields, key)
            == t,
        json_get(fields, key) matches Some(JsonModel::Number(_, Some(n))) ==> field_int(
            fields,
            key,
        ) == n,
        json_get(fields, key) matches Some(JsonModel::Str(s)) ==> field_int(fields, key) == (
        match parsed_i64(s) {
            Some(n) => n,
            None => 0,
        }),
        json_get(fields, key) is None ==> field_text(fields, key) == Seq::<char>::empty()
            && field_int(fields, key) == 0,
{
}

} // verus!
