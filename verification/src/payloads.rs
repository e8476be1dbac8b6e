use vstd::prelude::*;
use crate::json::{lemma_json_fields, lemma_json_seq, json_fields, json_seq, Json, JsonValue};
use crate::text::{concat, decimal, decimal_string, owned};

verus! {

/// A message on the event bus: a channel name and a JSON payload.
pub struct Envelope {
    pub channel: String,
    pub payload: JsonValue,
}

/// The JSON object with `keys[i]` set to `values[i]`, in order.
pub open spec fn object_of(keys: Seq<&str>, values: Seq<JsonValue>) -> Json {
    Json::Object(Seq::new(keys.len(), |i: int| (keys[i]@, values[i]@)))
}

/// The JSON object with `keys[i]` set to `values[i]`.
pub fn object(keys: Vec<&str>, values: Vec<JsonValue>) -> (r: JsonValue)
    requires
        keys@.len() == values@.len(),
    ensures
        r@ == object_of(keys@, values@),
{
    let mut fields: Vec<(String, JsonValue)> = Vec::new();
    let mut values = values;
    let ghost vals = values@;
    let n = keys.len();
    let mut i: usize = 0;
    while i < n
        invariant
            i <= n,
            n == keys@.len(),
            n == vals.len(),
            values@ == vals.subrange(i as int, n as int),
            fields@.len() == i,
            forall|k: int| 0 <= k < i ==> (#[trigger] fields@[k]).0@ == keys@[k]@ && fields@[k].1@ == vals[k]@,
        decreases n - i,
    {
        let v = values.remove(0);
        proof {
            assert(v == vals[i as int]);
            assert(values@ =~= vals.subrange(i as int + 1, n as int));
        }
        fields.push((owned(keys[i]), v));
        i += 1;
    }
    proof {
        lemma_json_fields(fields@);
        assert(json_fields(fields@) =~= Seq::new(keys@.len(), |i: int| (keys@[i]@, vals[i]@)));
    }
    JsonValue::Object(fields)
}

fn text(s: &str) -> (r: JsonValue)
    ensures
        r@ == Json::Str(s@),
{
    JsonValue::Str(owned(s))
}

fn empty_array() -> (r: JsonValue)
    ensures
        r@ == Json::Array(Seq::empty()),
{
    let v: Vec<JsonValue> = Vec::new();
    proof {
        assert(json_seq(v@) =~= Seq::<Json>::empty());
    }
    JsonValue::Array(v)
}

/// The message for a file over the size limit: `File '<name>' (<size>) exceeds max size (<max> MB)`,
/// where `size` is the file's size as shown to the user.
pub fn too_large_message(name: &str, size_text: &str, max_mb: u64) -> (r: String)
    ensures
        r@ == "File '"@ + name@ + "' ("@ + size_text@ + ") exceeds max size ("@ + decimal(max_mb as nat)
            + " MB)"@,
{
    let max = decimal_string(max_mb as u128);
    let a = concat("File '", name);
    let b = concat(a.as_str(), "' (");
    let c = concat(b.as_str(), size_text);
    let d = concat(c.as_str(), ") exceeds max size (");
    let e = concat(d.as_str(), max.as_str());
    concat(e.as_str(), " MB)")
}

/// The error event for a file over the size limit.
pub fn file_too_large_payload(file: &str, size_bytes: u64, max_bytes: u64, message: &str) -> (r: JsonValue)
    ensures
        r@ == Json::Object(seq![
            ("type"@, Json::Str("FILE_TOO_LARGE"@)),
            ("file"@, Json::Str(file@)),
            ("size_bytes"@, Json::Int(size_bytes as int)),
            ("max_bytes"@, Json::Int(max_bytes as int)),
            ("message"@, Json::Str(message@)),
        ]),
{
    let keys = vec!["type", "file", "size_bytes", "max_bytes", "message"];
    let values = vec![
        text("FILE_TOO_LARGE"),
        text(file),
        JsonValue::Int(size_bytes as i128),
        JsonValue::Int(max_bytes as i128),
        text(message),
    ];
    let r = object(keys, values);
    proof {
        assert(object_of(keys@, values@)->Object_0 =~= seq![
            ("type"@, Json::Str("FILE_TOO_LARGE"@)),
            ("file"@, Json::Str(file@)),
            ("size_bytes"@, Json::Int(size_bytes as int)),
            ("max_bytes"@, Json::Int(max_bytes as int)),
            ("message"@, Json::Str(message@)),
        ]);
    }
    r
}


/// The file list of an ingest event: the one file taken in.
pub fn files_payload(path: &str, name: &str, ext: &str, size_bytes: u64, sha256: &str) -> (r: JsonValue)
    ensures
        r@ == Json::Array(seq![Json::Object(seq![
            ("path"@, Json::Str(path@)),
            ("name"@, Json::Str(name@)),
            ("ext"@, Json::Str(ext@)),
            ("sizeBytes"@, Json::Int(size_bytes as int)),
            ("sha256"@, Json::Str(sha256@)),
        ])]),
{
    let keys = vec!["path", "name", "ext", "sizeBytes", "sha256"];
    let values = vec![text(path), text(name), text(ext), JsonValue::Int(size_bytes as i128), text(sha256)];
    let file = object(keys, values);
    proof {
        assert(object_of(keys@, values@)->Object_0 =~= seq![
            ("path"@, Json::Str(path@)),
            ("name"@, Json::Str(name@)),
            ("ext"@, Json::Str(ext@)),
            ("sizeBytes"@, Json::Int(size_bytes as int)),
            ("sha256"@, Json::Str(sha256@)),
        ]);
    }
    let items = vec![file];
    proof {
        lemma_json_seq(items@);
        assert(json_seq(items@) =~= seq![file@]);
    }
    JsonValue::Array(items)
}

/// Where a desktop drop came from: this machine, by its name.
pub fn source_payload(device_name: &str) -> (r: JsonValue)
    ensures
        r@ == Json::Object(seq![
            ("kind"@, Json::Str("desktop_drop"@)),
            ("deviceName"@, Json::Str(device_name@)),
            ("ip"@, Json::Str("127.0.0.1"@)),
        ]),
{
    let keys = vec!["kind", "deviceName", "ip"];
    let values = vec![text("desktop_drop"), text(device_name), text("127.0.0.1")];
    let r = object(keys, values);
    proof {
        assert(object_of(keys@, values@)->Object_0 =~= seq![
            ("kind"@, Json::Str("desktop_drop"@)),
            ("deviceName"@, Json::Str(device_name@)),
            ("ip"@, Json::Str("127.0.0.1"@)),
        ]);
    }
    r
}

/// The event announcing an ingest.
pub fn event_ingested(event_id: &str, time: &str, source: JsonValue, files: JsonValue) -> (r: JsonValue)
    ensures
        r@ == Json::Object(seq![
            ("type"@, Json::Str("EVENT_INGESTED"@)),
            ("eventId"@, Json::Str(event_id@)),
            ("time"@, Json::Str(time@)),
            ("source"@, source@),
            ("files"@, files@),
        ]),
{
    let ghost (sv, fv) = (source@, files@);
    let keys = vec!["type", "eventId", "time", "source", "files"];
    let values = vec![text("EVENT_INGESTED"), text(event_id), text(time), source, files];
    let r = object(keys, values);
    proof {
        assert(object_of(keys@, values@)->Object_0 =~= seq![
            ("type"@, Json::Str("EVENT_INGESTED"@)),
            ("eventId"@, Json::Str(event_id@)),
            ("time"@, Json::Str(time@)),
            ("source"@, sv),
            ("files"@, fv),
        ]);
    }
    r
}

/// The event announcing that a run started.
pub fn run_started(run_id: &str, event_id: &str, rule_id: &str, workflow_id: &str, started_at: &str) -> (r: JsonValue)
    ensures
        r@ == Json::Object(seq![
            ("type"@, Json::Str("RUN_STARTED"@)),
            ("runId"@, Json::Str(run_id@)),
            ("eventId"@, Json::Str(event_id@)),
            ("ruleId"@, Json::Str(rule_id@)),
            ("workflowId"@, Json::Str(workflow_id@)),
            ("startedAt"@, Json::Str(started_at@)),
        ]),
{
    let keys = vec!["type", "runId", "eventId", "ruleId", "workflowId", "startedAt"];
    let values = vec![text("RUN_STARTED"), text(run_id), text(event_id), text(rule_id), text(workflow_id), text(started_at)];
    let r = object(keys, values);
    proof {
        assert(object_of(keys@, values@)->Object_0 =~= seq![
            ("type"@, Json::Str("RUN_STARTED"@)),
            ("runId"@, Json::Str(run_id@)),
            ("eventId"@, Json::Str(event_id@)),
            ("ruleId"@, Json::Str(rule_id@)),
            ("workflowId"@, Json::Str(workflow_id@)),
            ("startedAt"@, Json::Str(started_at@)),
        ]);
    }
    r
}

/// The event announcing that a run finished; it produced no artifacts it reports.
pub fn run_finished(run_id: &str, event_id: &str, rule_id: &str, workflow_id: &str, summary: &str) -> (r: JsonValue)
    ensures
        r@ == Json::Object(seq![
            ("type"@, Json::Str("RUN_FINISHED"@)),
            ("runId"@, Json::Str(run_id@)),
            ("eventId"@, Json::Str(event_id@)),
            ("ruleId"@, Json::Str(rule_id@)),
            ("workflowId"@, Json::Str(workflow_id@)),
            ("summary"@, Json::Str(summary@)),
            ("artifacts"@, Json::Array(Seq::empty())),
        ]),
{
    let keys = vec!["type", "runId", "eventId", "ruleId", "workflowId", "summary", "artifacts"];
    let values = vec![
        text("RUN_FINISHED"),
        text(run_id),
        text(event_id),
        text(rule_id),
        text(workflow_id),
        text(summary),
        empty_array(),
    ];
    let r = object(keys, values);
    proof {
        assert(object_of(keys@, values@)->Object_0 =~= seq![
            ("type"@, Json::Str("RUN_FINISHED"@)),
            ("runId"@, Json::Str(run_id@)),
            ("eventId"@, Json::Str(event_id@)),
            ("ruleId"@, Json::Str(rule_id@)),
            ("workflowId"@, Json::Str(workflow_id@)),
            ("summary"@, Json::Str(summary@)),
            ("artifacts"@, Json::Array(Seq::empty())),
        ]);
    }
    r
}

/// The event announcing that a run failed with `error`.
pub fn run_failed(run_id: &str, event_id: &str, rule_id: &str, workflow_id: &str, error: JsonValue) -> (r: JsonValue)
    ensures
        r@ == Json::Object(seq![
            ("type"@, Json::Str("RUN_FAILED"@)),
            ("runId"@, Json::Str(run_id@)),
            ("eventId"@, Json::Str(event_id@)),
            ("ruleId"@, Json::Str(rule_id@)),
            ("workflowId"@, Json::Str(workflow_id@)),
            ("failedNodeId"@, Json::Null),
            ("error"@, error@),
            ("partialArtifacts"@, Json::Array(Seq::empty())),
        ]),
{
    let ghost ev = error@;
    let keys = vec!["type", "runId", "eventId", "ruleId", "workflowId", "failedNodeId", "error", "partialArtifacts"];
    let values = vec![
        text("RUN_FAILED"),
        text(run_id),
        text(event_id),
        text(rule_id),
        text(workflow_id),
        JsonValue::Null,
        error,
        empty_array(),
    ];
    let r = object(keys, values);
    proof {
        assert(object_of(keys@, values@)->Object_0 =~= seq![
            ("type"@, Json::Str("RUN_FAILED"@)),
            ("runId"@, Json::Str(run_id@)),
            ("eventId"@, Json::Str(event_id@)),
            ("ruleId"@, Json::Str(rule_id@)),
            ("workflowId"@, Json::Str(workflow_id@)),
            ("failedNodeId"@, Json::Null),
            ("error"@, ev),
            ("partialArtifacts"@, Json::Array(Seq::empty())),
        ]);
    }
    r
}

} // verus!
