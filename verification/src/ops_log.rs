//! Filtered remapping of Boson ops signals onto the Spectra schemas: which labels and
//! event fields leave the process, and in which form.

use vstd::prelude::*;

use crate::hashing::{hash_label_value, hashed_label, is_lower_hex, lemma_hashed_label_shape};
use crate::json::{
    entry_models, lemma_entry_models, lookup, JsonModel, JsonValue,
};
use crate::sanitize::{sanitize_error_message, sanitized_message, MAX_ERROR_MESSAGE_CHARS};
use crate::text::{
    ascii_lower, is_whitespace, list_contains, normalize, normalized, str_eq, str_views, trim,
    trim_end, trim_start,
};

verus! {

/// Metric labels whose values identify individual tasks and are hashed.
pub open spec fn high_cardinality_metric_labels() -> Seq<Seq<char>> {
    seq!["task_name"@]
}

/// Event fields whose values identify individual runs and are hashed.
pub open spec fn high_cardinality_event_fields() -> Seq<Seq<char>> {
    seq!["task_id"@, "job_id"@, "run_id"@]
}

/// Event fields that carry free text and are redacted.
pub open spec fn event_text_fields() -> Seq<Seq<char>> {
    seq!["error"@, "message"@]
}

/// The execution modes a `mode` label may carry.
pub open spec fn allowed_modes() -> Seq<Seq<char>> {
    seq!["local"@, "distributed"@, "remote"@]
}

/// The failure reasons a `reason` label may carry.
pub open spec fn allowed_failure_reasons() -> Seq<Seq<char>> {
    seq!["handler_error"@, "rate_limited"@, "persistence"@, "unknown"@]
}

/// `value` in canonical form when that form is allowed, `unknown` otherwise.
pub open spec fn pick_allowed(allowed: Seq<Seq<char>>, value: Seq<char>) -> Seq<char> {
    if allowed.contains(normalized(value)) {
        normalized(value)
    } else {
        "unknown"@
    }
}

/// A metric label value with high-cardinality keys hashed.
pub open spec fn sanitized_metric_label(key: Seq<char>, value: Seq<char>) -> Seq<char> {
    if high_cardinality_metric_labels().contains(key) {
        hashed_label(value)
    } else {
        value
    }
}

/// The value a label leaves the process with.
pub open spec fn allowlisted_label(key: Seq<char>, value: Seq<char>) -> Seq<char> {
    if key == "mode"@ {
        pick_allowed(allowed_modes(), value)
    } else if key == "reason"@ {
        pick_allowed(allowed_failure_reasons(), value)
    } else {
        sanitized_metric_label(key, value)
    }
}

/// The label keys each known metric keeps.
pub open spec fn metric_keys(name: Seq<char>) -> Option<Seq<Seq<char>>> {
    if name == "boson_tasks_enqueued"@ || name == "boson_tasks_completed"@ || name
        == "boson_task_duration_ms"@ {
        Some(seq!["task_name"@, "mode"@])
    } else if name == "boson_tasks_failed"@ {
        Some(seq!["task_name"@, "mode"@, "reason"@])
    } else if name == "boson_remote_errors"@ {
        Some(seq!["operation"@])
    } else {
        None
    }
}

/// The fields each known event keeps.
pub open spec fn event_keys(name: Seq<char>) -> Option<Seq<Seq<char>>> {
    if name == "boson_handler_error"@ {
        Some(seq!["task_name"@, "job_id"@, "run_id"@, "error"@])
    } else if name == "boson_runtime_log"@ {
        Some(seq!["component"@, "message"@, "mode"@])
    } else if name == "boson_task_log"@ {
        Some(
            seq![
                "task_id"@,
                "job_id"@,
                "task_name"@,
                "attempt"@,
                "pool"@,
                "mode"@,
                "duration_ms"@,
                "status"@,
                "message"@,
            ],
        )
    } else {
        None
    }
}

/// The views of a list of label pairs.
pub open spec fn pair_views(s: Seq<(&str, &str)>) -> Seq<(Seq<char>, Seq<char>)> {
    s.map_values(|p: (&str, &str)| (p.0@, p.1@))
}

/// The views of a list of owned label pairs.
pub open spec fn string_pair_views(s: Seq<(String, String)>) -> Seq<(Seq<char>, Seq<char>)> {
    s.map_values(|p: (String, String)| (p.0@, p.1@))
}

/// The labels of `labels` whose key is in `allowed`, in order, with allowlisted values.
pub open spec fn filtered_labels(
    allowed: Seq<Seq<char>>,
    labels: Seq<(Seq<char>, Seq<char>)>,
) -> Seq<(Seq<char>, Seq<char>)>
    decreases labels.len(),
{
    if labels.len() == 0 {
        seq![]
    } else {
        let rest = filtered_labels(allowed, labels.drop_last());
        let last = labels.last();
        if allowed.contains(last.0) {
            rest.push((last.0, allowlisted_label(last.0, last.1)))
        } else {
            rest
        }
    }
}

/// The labels a metric keeps, or `None` for a metric this crate does not know.
pub open spec fn filtered_metric_labels(
    name: Seq<char>,
    labels: Seq<(Seq<char>, Seq<char>)>,
) -> Option<Seq<(Seq<char>, Seq<char>)>> {
    match metric_keys(name) {
        Some(allowed) => Some(filtered_labels(allowed, labels)),
        None => None,
    }
}

/// The form in which a string field of an event leaves the process.
pub open spec fn sanitized_event_field(key: Seq<char>, text: Seq<char>) -> Seq<char> {
    if event_text_fields().contains(key) {
        sanitized_message(text)
    } else if high_cardinality_event_fields().contains(key) {
        hashed_label(text)
    } else if key == "mode"@ {
        allowlisted_label(key, text)
    } else {
        text
    }
}

/// The form in which a field value of an event leaves the process.
pub open spec fn sanitized_event_value(key: Seq<char>, v: JsonModel) -> JsonModel {
    match v {
        JsonModel::Str(text) => JsonModel::Str(sanitized_event_field(key, text)),
        other => other,
    }
}

/// The members of `entries` named in `allowed`, in the order of `allowed`, sanitized.
pub open spec fn sanitized_entries(
    allowed: Seq<Seq<char>>,
    entries: Seq<(Seq<char>, JsonModel)>,
) -> Seq<(Seq<char>, JsonModel)>
    decreases allowed.len(),
{
    if allowed.len() == 0 {
        seq![]
    } else {
        let rest = sanitized_entries(allowed.drop_last(), entries);
        let key = allowed.last();
        match lookup(entries, key) {
            Some(v) => rest.push((key, sanitized_event_value(key, v))),
            None => rest,
        }
    }
}

/// The payload an event keeps, or `None` for an unknown event or a payload that is
/// not an object.
pub open spec fn sanitized_payload(name: Seq<char>, payload: JsonModel) -> Option<JsonModel> {
    match (event_keys(name), payload) {
        (Some(allowed), JsonModel::Object(entries)) => Some(
            JsonModel::Object(sanitized_entries(allowed, entries)),
        ),
        _ => None,
    }
}

/// Restricts a `mode` or `reason` label to its allowed values: the trimmed,
/// lower-cased value when allowed, `unknown` otherwise. Other keys go through
/// `sanitize_metric_label`.
pub fn allowlist_label_value(key: &str, value: &str) -> (r: String)
    ensures
        r@ == allowlisted_label(key@, value@),
{
    let allowed: &'static [&'static str] = if str_eq(key, "mode") {
        let v: &'static [&'static str] = &["local", "distributed", "remote"];
        assert(str_views(v@) =~= allowed_modes());
        v
    } else if str_eq(key, "reason") {
        let v: &'static [&'static str] = &["handler_error", "rate_limited", "persistence", "unknown"];
        assert(str_views(v@) =~= allowed_failure_reasons());
        v
    } else {
        return sanitize_metric_label(key, value);
    };
    let n = normalize(value);
    if list_contains(allowed, n.as_str()) {
        n
    } else {
        "unknown".to_owned()
    }
}

/// Hashes the value of a high-cardinality metric label (`task_name`); other values
/// pass unchanged.
pub fn sanitize_metric_label(key: &str, value: &str) -> (r: String)
    ensures
        r@ == sanitized_metric_label(key@, value@),
{
    let high: &'static [&'static str] = &["task_name"];
    assert(str_views(high@) =~= high_cardinality_metric_labels());
    if list_contains(high, key) {
        hash_label_value(value)
    } else {
        value.to_owned()
    }
}

/// The label keys a known metric keeps; `None` for any other metric name.
pub fn metric_label_keys(name: &str) -> (r: Option<&'static [&'static str]>)
    ensures
        match r {
            Some(v) => metric_keys(name@) == Some(str_views(v@)),
            None => metric_keys(name@) is None,
        },
{
    if str_eq(name, "boson_tasks_enqueued") || str_eq(name, "boson_tasks_completed") || str_eq(
        name,
        "boson_task_duration_ms",
    ) {
        let v: &'static [&'static str] = &["task_name", "mode"];
        assert(str_views(v@) =~= seq!["task_name"@, "mode"@]);
        Some(v)
    } else if str_eq(name, "boson_tasks_failed") {
        let v: &'static [&'static str] = &["task_name", "mode", "reason"];
        assert(str_views(v@) =~= seq!["task_name"@, "mode"@, "reason"@]);
        Some(v)
    } else if str_eq(name, "boson_remote_errors") {
        let v: &'static [&'static str] = &["operation"];
        assert(str_views(v@) =~= seq!["operation"@]);
        Some(v)
    } else {
        None
    }
}

/// Keeps the labels of a known metric whose key the metric allows, in order, with
/// allowlisted values; `None` for an unknown metric.
pub fn filter_metric_labels(name: &str, labels: &[(&str, &str)]) -> (r: Option<
    Vec<(String, String)>,
>)
    ensures
        match r {
            Some(v) => filtered_metric_labels(name@, pair_views(labels@)) == Some(
                string_pair_views(v@),
            ),
            None => filtered_metric_labels(name@, pair_views(labels@)) is None,
        },
{
    let allowed = match metric_label_keys(name) {
        Some(a) => a,
        None => return None,
    };
    let ghost keys = str_views(allowed@);
    let ghost lv = pair_views(labels@);
    let mut out: Vec<(String, String)> = Vec::new();
    let mut i: usize = 0;
    assert(lv.take(0) =~= seq![]);
    while i < labels.len()
        invariant
            keys == str_views(allowed@),
            lv == pair_views(labels@),
            i <= labels@.len(),
            string_pair_views(out@) == filtered_labels(keys, lv.take(i as int)),
        decreases labels@.len() - i,
    {
        let (key, value) = labels[i];
        assert(lv.take(i + 1).drop_last() =~= lv.take(i as int));
        assert(lv.take(i + 1).last() == (key@, value@));
        if list_contains(allowed, key) {
            let v = allowlist_label_value(key, value);
            out.push((key.to_owned(), v));
            assert(string_pair_views(out@) =~= filtered_labels(keys, lv.take(i as int)).push(
                (key@, allowlisted_label(key@, value@)),
            ));
        }
        i = i + 1;
    }
    assert(lv.take(labels@.len() as int) =~= lv);
    Some(out)
}

/// The fields a known event keeps; `None` for any other event name.
pub fn event_field_keys(name: &str) -> (r: Option<&'static [&'static str]>)
    ensures
        match r {
            Some(v) => event_keys(name@) == Some(str_views(v@)),
            None => event_keys(name@) is None,
        },
{
    if str_eq(name, "boson_handler_error") {
        let v: &'static [&'static str] = &["task_name", "job_id", "run_id", "error"];
        assert(str_views(v@) =~= seq!["task_name"@, "job_id"@, "run_id"@, "error"@]);
        Some(v)
    } else if str_eq(name, "boson_runtime_log") {
        let v: &'static [&'static str] = &["component", "message", "mode"];
        assert(str_views(v@) =~= seq!["component"@, "message"@, "mode"@]);
        Some(v)
    } else if str_eq(name, "boson_task_log") {
        let v: &'static [&'static str] = &[
                "task_id",
                "job_id",
                "task_name",
                "attempt",
                "pool",
                "mode",
                "duration_ms",
                "status",
                "message",
            ];
        assert(str_views(v@) =~= seq![
            "task_id"@,
            "job_id"@,
            "task_name"@,
            "attempt"@,
            "pool"@,
            "mode"@,
            "duration_ms"@,
            "status"@,
            "message"@,
        ]);
        Some(v)
    } else {
        None
    }
}

/// Sanitizes a string field of an event: free-text fields are redacted and clipped,
/// run identifiers hashed, `mode` allowlisted; other fields pass unchanged.
pub fn sanitize_event_string_field(key: &str, text: &str) -> (r: String)
    ensures
        r@ == sanitized_event_field(key@, text@),
{
    let text_fields: &'static [&'static str] = &["error", "message"];
    assert(str_views(text_fields@) =~= event_text_fields());
    let id_fields: &'static [&'static str] = &["task_id", "job_id", "run_id"];
    assert(str_views(id_fields@) =~= high_cardinality_event_fields());
    if list_contains(text_fields, key) {
        sanitize_error_message(text)
    } else if list_contains(id_fields, key) {
        hash_label_value(text)
    } else if str_eq(key, "mode") {
        allowlist_label_value(key, text)
    } else {
        text.to_owned()
    }
}

/// Keeps the fields of a known event that its schema names, in schema order, with
/// string values sanitized and other values unchanged; `None` for an unknown event
/// or a payload that is not an object.
pub fn sanitize_event_payload(name: &str, payload: &JsonValue) -> (r: Option<JsonValue>)
    ensures
        match r {
            Some(v) => sanitized_payload(name@, payload@) == Some(v@),
            None => sanitized_payload(name@, payload@) is None,
        },
{
    let allowed = match event_field_keys(name) {
        Some(a) => a,
        None => return None,
    };
    let entries = match payload {
        JsonValue::Object(entries) => entries,
        _ => return None,
    };
    let ghost keys = str_views(allowed@);
    let ghost source = entry_models(entries@);
    assert(payload@ == JsonModel::Object(source));
    let mut filtered: Vec<(String, JsonValue)> = Vec::new();
    let mut k: usize = 0;
    assert(keys.take(0) =~= seq![]);
    while k < allowed.len()
        invariant
            keys == str_views(allowed@),
            source == entry_models(entries@),
            payload@ == JsonModel::Object(source),
            k <= allowed@.len(),
            entry_models(filtered@) == sanitized_entries(keys.take(k as int), source),
        decreases allowed@.len() - k,
    {
        let key = allowed[k];
        assert(keys.take(k + 1).drop_last() =~= keys.take(k as int));
        assert(keys.take(k + 1).last() == key@);
        match payload.get(key) {
            Some(value) => {
                let sanitized = match value {
                    JsonValue::String(text) => JsonValue::String(
                        sanitize_event_string_field(key, text.as_str()),
                    ),
                    other => other.duplicate(),
                };
                assert(sanitized@ == sanitized_event_value(key@, value@));
                let ghost prev = filtered@;
                filtered.push((key.to_owned(), sanitized));
                proof {
                    lemma_entry_models(prev);
                    lemma_entry_models(filtered@);
                }
                assert(entry_models(filtered@) =~= entry_models(prev).push(
                    (key@, sanitized_event_value(key@, value@)),
                ));
            },
            None => {},
        }
        k = k + 1;
    }
    assert(keys.take(allowed@.len() as int) =~= keys);
    Some(JsonValue::Object(filtered))
}

/// Whether `v` has the shape of a hashed label: `h` and sixteen lower-case hex digits.
pub open spec fn is_hashed_token(v: Seq<char>) -> bool {
    &&& v.len() == 17
    &&& v[0] == 'h'
    &&& forall|i: int| 1 <= i < 17 ==> is_lower_hex(#[trigger] v[i])
}

/// The bound on the value of a label that leaves the process: a `mode` is one of the
/// known modes or `unknown`, a `reason` one of the known reasons, a `task_name` a
/// hashed token.
pub open spec fn label_bounded(key: Seq<char>, value: Seq<char>) -> bool {
    &&& key == "mode"@ ==> allowed_modes().contains(value) || value == "unknown"@
    &&& key == "reason"@ ==> allowed_failure_reasons().contains(value)
    &&& key == "task_name"@ ==> is_hashed_token(value)
}

/// Every allowlisted label value is bounded.
pub proof fn lemma_allowlisted_label_bounded(key: Seq<char>, value: Seq<char>)
    ensures
        label_bounded(key, allowlisted_label(key, value)),
{
    reveal_strlit("task_name");
    reveal_strlit("mode");
    reveal_strlit("reason");
    assert("task_name"@.len() == 9 && "mode"@.len() == 4 && "reason"@.len() == 6);
    assert(allowed_failure_reasons()[3] == "unknown"@);
    if key == "task_name"@ {
        assert(high_cardinality_metric_labels()[0] == key);
        lemma_hashed_label_shape(value);
    }
}

/// The labels kept from `labels` are at most as many, have allowed keys and bounded values.
pub proof fn lemma_filtered_labels_bounded(
    allowed: Seq<Seq<char>>,
    labels: Seq<(Seq<char>, Seq<char>)>,
)
    ensures
        filtered_labels(allowed, labels).len() <= labels.len(),
        forall|i: int|
            0 <= i < filtered_labels(allowed, labels).len() ==> {
                let p = #[trigger] filtered_labels(allowed, labels)[i];
                allowed.contains(p.0) && label_bounded(p.0, p.1)
            },
    decreases labels.len(),
{
    if labels.len() > 0 {
        lemma_filtered_labels_bounded(allowed, labels.drop_last());
        let last = labels.last();
        lemma_allowlisted_label_bounded(last.0, last.1);
    }
}

/// Label cardinality stays bounded: whatever labels a caller passes, a known metric
/// keeps only its own label keys, each `mode` is a known mode or `unknown`, each
/// `reason` a known reason, each `task_name` a hashed token; an unknown metric keeps
/// nothing.
pub proof fn lemma_metric_labels_bounded(name: Seq<char>, labels: Seq<(Seq<char>, Seq<char>)>)
    ensures
        metric_keys(name) is None ==> filtered_metric_labels(name, labels) is None,
        filtered_metric_labels(name, labels) matches Some(out) ==> {
            &&& out.len() <= labels.len()
            &&& forall|i: int|
                0 <= i < out.len() ==> metric_keys(name).unwrap().contains(#[trigger] out[i].0)
                    && label_bounded(out[i].0, out[i].1)
        },
{
    if let Some(allowed) = metric_keys(name) {
        lemma_filtered_labels_bounded(allowed, labels);
    }
}

/// Looking a key up after appending a member.
pub proof fn lemma_lookup_push(
    s: Seq<(Seq<char>, JsonModel)>,
    x: (Seq<char>, JsonModel),
    key: Seq<char>,
)
    ensures
        lookup(s.push(x), key) == (if lookup(s, key) is Some {
            lookup(s, key)
        } else if x.0 == key {
            Some(x.1)
        } else {
            None
        }),
    decreases s.len(),
{
    if s.len() > 0 {
        assert(s.push(x).drop_first() =~= s.drop_first().push(x));
        lemma_lookup_push(s.drop_first(), x, key);
    } else {
        assert(s.push(x).drop_first() =~= s);
    }
}

/// The members kept from `entries`: allowed keys only, each carrying the sanitized
/// value of that key in `entries`; a key outside `allowed` is absent.
pub proof fn lemma_sanitized_entries(allowed: Seq<Seq<char>>, entries: Seq<(Seq<char>, JsonModel)>)
    ensures
        sanitized_entries(allowed, entries).len() <= allowed.len(),
        forall|i: int|
            0 <= i < sanitized_entries(allowed, entries).len() ==> {
                let p = #[trigger] sanitized_entries(allowed, entries)[i];
                &&& allowed.contains(p.0)
                &&& lookup(entries, p.0) is Some
                &&& p.1 == sanitized_event_value(p.0, lookup(entries, p.0).unwrap())
            },
        forall|key: Seq<char>|
            !allowed.contains(key) ==> #[trigger] lookup(sanitized_entries(allowed, entries), key)
                is None,
    decreases allowed.len(),
{
    if allowed.len() > 0 {
        let rest = sanitized_entries(allowed.drop_last(), entries);
        lemma_sanitized_entries(allowed.drop_last(), entries);
        let key = allowed.last();
        assert(allowed.contains(key)) by {
            assert(allowed[allowed.len() - 1] == key);
        }
        assert forall|k: Seq<char>| allowed.drop_last().contains(k) implies allowed.contains(k) by {
            let j = choose|j: int| 0 <= j < allowed.drop_last().len() && allowed.drop_last()[j] == k;
            assert(allowed[j] == k);
        }
        match lookup(entries, key) {
            Some(v) => {
                assert forall|k: Seq<char>| !allowed.contains(k) implies #[trigger] lookup(
                    sanitized_entries(allowed, entries),
                    k,
                ) is None by {
                    lemma_lookup_push(rest, (key, sanitized_event_value(key, v)), k);
                }
            },
            None => {},
        }
    }
}

/// Event payloads keep only their schema's fields: for a known event and an object
/// payload, every kept member is a schema field carrying its sanitized value, any
/// other field (such as an unknown `secret`) is absent, run identifiers are hashed
/// tokens and free-text fields at most `MAX_ERROR_MESSAGE_CHARS` long. An unknown
/// event, or a payload that is not an object, keeps nothing.
pub proof fn lemma_event_payload_filtered(name: Seq<char>, payload: JsonModel)
    ensures
        event_keys(name) is None ==> sanitized_payload(name, payload) is None,
        !(payload is Object) ==> sanitized_payload(name, payload) is None,
        sanitized_payload(name, payload) matches Some(JsonModel::Object(out)) ==> {
            &&& forall|i: int|
                0 <= i < out.len() ==> event_keys(name).unwrap().contains(#[trigger] out[i].0)
            &&& forall|key: Seq<char>|
                !event_keys(name).unwrap().contains(key) ==> #[trigger] lookup(out, key) is None
            &&& forall|i: int|
                0 <= i < out.len() && high_cardinality_event_fields().contains(out[i].0)
                    && #[trigger] out[i].1 is Str ==> is_hashed_token(out[i].1->Str_0)
            &&& forall|i: int|
                0 <= i < out.len() && event_text_fields().contains(out[i].0)
                    && #[trigger] out[i].1 is Str ==> out[i].1->Str_0.len()
                    <= MAX_ERROR_MESSAGE_CHARS
        },
{
    if let (Some(allowed), JsonModel::Object(entries)) = (event_keys(name), payload) {
        let out = sanitized_entries(allowed, entries);
        lemma_sanitized_entries(allowed, entries);
        reveal_strlit("task_id");
        reveal_strlit("job_id");
        reveal_strlit("run_id");
        reveal_strlit("error");
        reveal_strlit("message");
        assert forall|i: int|
            0 <= i < out.len() && high_cardinality_event_fields().contains(out[i].0)
                && #[trigger] out[i].1 is Str implies is_hashed_token(out[i].1->Str_0) by {
            let key = out[i].0;
            let v = lookup(entries, key).unwrap();
            assert(v is Str);
            assert(!event_text_fields().contains(key)) by {
                assert("task_id"@[0] == 't' && "job_id"@[0] == 'j' && "run_id"@[0] == 'r');
                assert("error"@[0] == 'e' && "message"@[0] == 'm');
                if event_text_fields().contains(key) {
                    let a = choose|a: int|
                        0 <= a < event_text_fields().len() && event_text_fields()[a] == key;
                    let b = choose|b: int|
                        0 <= b < high_cardinality_event_fields().len()
                            && high_cardinality_event_fields()[b] == key;
                    assert(event_text_fields()[a][0] == high_cardinality_event_fields()[b][0]);
                }
            }
            lemma_hashed_label_shape(v->Str_0);
        }
    }
}

/// Whether `s` has no whitespace and no ASCII upper-case letter.
pub open spec fn is_plain(s: Seq<char>) -> bool {
    forall|i: int| 0 <= i < s.len() ==> !is_whitespace(#[trigger] s[i]) && !('A' <= s[i] <= 'Z')
}

/// A plain string is its own canonical form.
pub proof fn lemma_plain_normalized(s: Seq<char>)
    requires
        is_plain(s),
    ensures
        normalized(s) == s,
{
    assert(trim_start(s) == s);
    assert(trim_end(s) == s);
    assert(trim(s) == s);
    assert(ascii_lower(s) =~= s);
}

/// Every allowed mode, every allowed reason and `unknown` are plain.
proof fn lemma_allowed_values_plain()
    ensures
        forall|i: int| 0 <= i < allowed_modes().len() ==> is_plain(#[trigger] allowed_modes()[i]),
        forall|i: int|
            0 <= i < allowed_failure_reasons().len() ==> is_plain(
                #[trigger] allowed_failure_reasons()[i],
            ),
        is_plain("unknown"@),
{
    reveal_strlit("local");
    reveal_strlit("distributed");
    reveal_strlit("remote");
    reveal_strlit("unknown");
    reveal_strlit("handler_error");
    reveal_strlit("rate_limited");
    reveal_strlit("persistence");
    assert(is_plain("local"@));
    assert(is_plain("distributed"@));
    assert(is_plain("remote"@));
    assert(is_plain("unknown"@));
    assert(is_plain("handler_error"@));
    assert(is_plain("rate_limited"@));
    assert(is_plain("persistence"@));
}

/// Allowlisting a `mode` or `reason` label twice gives what allowlisting it once gives,
/// so labels that pass through a sink and are filtered again keep their values.
pub proof fn lemma_allowlist_idempotent(key: Seq<char>, value: Seq<char>)
    requires
        key == "mode"@ || key == "reason"@,
    ensures
        allowlisted_label(key, allowlisted_label(key, value)) == allowlisted_label(key, value),
{
    lemma_allowed_values_plain();
    lemma_plain_normalized("unknown"@);
    reveal_strlit("mode");
    reveal_strlit("reason");
    reveal_strlit("unknown");
    reveal_strlit("local");
    reveal_strlit("distributed");
    reveal_strlit("remote");
    assert("mode"@.len() == 4 && "reason"@.len() == 6);
    let r = allowlisted_label(key, value);
    let allowed = if key == "mode"@ {
        allowed_modes()
    } else {
        allowed_failure_reasons()
    };
    assert(r == pick_allowed(allowed, value));
    if allowed.contains(normalized(value)) {
        let i = choose|i: int| 0 <= i < allowed.len() && allowed[i] == normalized(value);
        lemma_plain_normalized(allowed[i]);
    } else {
        assert(r == "unknown"@);
        if key == "mode"@ {
            assert("unknown"@.len() == 7 && "local"@.len() == 5 && "distributed"@.len() == 11
                && "remote"@.len() == 6);
            assert(!allowed_modes().contains("unknown"@));
        } else {
            assert(allowed_failure_reasons()[3] == "unknown"@);
        }
    }
}

/// The label keys of each known metric: the task counters and the duration gauge keep
/// `task_name` and `mode`, failed tasks also `reason`, remote errors `operation`; any
/// other metric name has none.
pub proof fn lemma_metric_keys_table(name: Seq<char>)
    ensures
        metric_keys("boson_tasks_enqueued"@) == Some(seq!["task_name"@, "mode"@]),
        metric_keys("boson_tasks_completed"@) == Some(seq!["task_name"@, "mode"@]),
        metric_keys("boson_task_duration_ms"@) == Some(seq!["task_name"@, "mode"@]),
        metric_keys("boson_tasks_failed"@) == Some(seq!["task_name"@, "mode"@, "reason"@]),
        metric_keys("boson_remote_errors"@) == Some(seq!["operation"@]),
        name != "boson_tasks_enqueued"@ && name != "boson_tasks_completed"@ && name
            != "boson_task_duration_ms"@ && name != "boson_tasks_failed"@ && name
            != "boson_remote_errors"@ ==> metric_keys(name) is None,
{
    reveal_strlit("boson_tasks_enqueued");
    reveal_strlit("boson_tasks_completed");
    reveal_strlit("boson_task_duration_ms");
    reveal_strlit("boson_tasks_failed");
    reveal_strlit("boson_remote_errors");
    assert("boson_tasks_enqueued"@.len() == 20 && "boson_tasks_completed"@.len() == 21
        && "boson_task_duration_ms"@.len() == 22 && "boson_tasks_failed"@.len() == 18
        && "boson_remote_errors"@.len() == 19);
}

/// A `mode` or `reason` value whose trimmed, lower-cased form is one of the allowed
/// values (`local`, `distributed`, `remote`; `handler_error`, `rate_limited`,
/// `persistence`, `unknown`) is kept in that form; any other value becomes `unknown`.
pub proof fn lemma_allowlist_keeps_allowed(value: Seq<char>)
    ensures
        seq!["local"@, "distributed"@, "remote"@].contains(normalized(value)) ==> allowlisted_label(
            "mode"@,
            value,
        ) == normalized(value),
        !seq!["local"@, "distributed"@, "remote"@].contains(normalized(value))
            ==> allowlisted_label("mode"@, value) == "unknown"@,
        seq!["handler_error"@, "rate_limited"@, "persistence"@, "unknown"@].contains(
            normalized(value),
        ) ==> allowlisted_label("reason"@, value) == normalized(value),
        !seq!["handler_error"@, "rate_limited"@, "persistence"@, "unknown"@].contains(
            normalized(value),
        ) ==> allowlisted_label("reason"@, value) == "unknown"@,
{
    reveal_strlit("mode");
    reveal_strlit("reason");
    assert("mode"@.len() == 4 && "reason"@.len() == 6);
}

/// A string field of an event that is neither free text (`error`, `message`), nor a
/// run identifier (`task_id`, `job_id`, `run_id`), nor `mode` passes unchanged; a
/// free-text field is redacted and clipped.
pub proof fn lemma_event_field_passthrough(key: Seq<char>, text: Seq<char>)
    ensures
        !seq!["error"@, "message"@, "task_id"@, "job_id"@, "run_id"@, "mode"@].contains(key)
            ==> sanitized_event_field(key, text) == text,
        seq!["error"@, "message"@].contains(key) ==> sanitized_event_field(key, text)
            == sanitized_message(text),
{
    if !seq!["error"@, "message"@, "task_id"@, "job_id"@, "run_id"@, "mode"@].contains(key) {
        let all = seq!["error"@, "message"@, "task_id"@, "job_id"@, "run_id"@, "mode"@];
        if event_text_fields().contains(key) {
            let i = choose|i: int|
                0 <= i < event_text_fields().len() && event_text_fields()[i] == key;
            assert(all[i] == key);
        }
        if high_cardinality_event_fields().contains(key) {
            let i = choose|i: int|
                0 <= i < high_cardinality_event_fields().len()
                    && high_cardinality_event_fields()[i] == key;
            assert(all[i + 2] == key);
        }
        assert(all[5] == "mode"@);
    }
}

/// Each allowed key present in `entries` is found in the kept members with its
/// sanitized value.
proof fn lemma_sanitized_entries_lookup(
    allowed: Seq<Seq<char>>,
    entries: Seq<(Seq<char>, JsonModel)>,
    key: Seq<char>,
)
    requires
        allowed.contains(key),
    ensures
        lookup(entries, key) is None ==> lookup(sanitized_entries(allowed, entries), key) is None,
        lookup(entries, key) matches Some(v) ==> lookup(sanitized_entries(allowed, entries), key)
            == Some(sanitized_event_value(key, v)),
    decreases allowed.len(),
{
    let rest = sanitized_entries(allowed.drop_last(), entries);
    let last = allowed.last();
    let in_rest = allowed.drop_last().contains(key);
    if in_rest {
        lemma_sanitized_entries_lookup(allowed.drop_last(), entries, key);
    } else {
        lemma_sanitized_entries(allowed.drop_last(), entries);
        let i = choose|i: int| 0 <= i < allowed.len() && allowed[i] == key;
        if i < allowed.len() - 1 {
            assert(allowed.drop_last()[i] == key);
        }
        assert(last == key);
    }
    match lookup(entries, last) {
        Some(lv) => {
            lemma_lookup_push(rest, (last, sanitized_event_value(last, lv)), key);
        },
        None => {},
    }
}

/// For a known event and an object payload, every schema field the payload holds is
/// kept: a string value in its sanitized form, any other value exactly as the payload
/// holds it; a schema field the payload lacks stays absent.
pub proof fn lemma_event_payload_keeps_fields(name: Seq<char>, entries: Seq<(Seq<char>, JsonModel)>, key: Seq<char>)
    requires
        event_keys(name) matches Some(allowed) && allowed.contains(key),
    ensures
        sanitized_payload(name, JsonModel::Object(entries)) matches Some(JsonModel::Object(out)) && {
            &&& lookup(entries, key) is None ==> lookup(out, key) is None
            &&& lookup(entries, key) is Some ==> lookup(out, key) is Some
            &&& lookup(entries, key) is Some && !(lookup(entries, key)->0 is Str) ==> lookup(
                out,
                key,
            ) == lookup(entries, key)
            &&& lookup(entries, key) matches Some(JsonModel::Str(t)) ==> lookup(out, key) == Some(
                JsonModel::Str(sanitized_event_field(key, t)),
            )
        },
{
    let allowed = event_keys(name).unwrap();
    lemma_sanitized_entries_lookup(allowed, entries, key);
}

} // verus!
