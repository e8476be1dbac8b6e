use vstd::prelude::*;
use crate::auth::error_json;
use crate::json::{lemma_json_fields, json_fields, Json, JsonValue};
use crate::api::{is_error, ApiError};
use crate::text::{concat, owned};
use crate::undo::UndoEntry;

verus! {

/// The query of an event listing.
pub struct ListQuery {
    pub limit: Option<u32>,
}

/// How many events a listing returns: `limit`, 50 by default.
pub fn list_limit(q: &ListQuery) -> (r: u32)
    ensures
        r == match q.limit { Some(l) => l, None => 50 },
{
    match q.limit {
        Some(l) => l,
        None => 50,
    }
}

/// How an ingest is reversed.
pub enum UndoStep {
    /// The file was copied into the inbox: remove the copy at `dst_path`, if it is still there.
    RemoveCopy { event_id: String, src_path: String, dst_path: String },
    /// The file was moved into the inbox: move it back from `dst_path` to `src_path`.
    MoveBack { event_id: String, src_path: String, dst_path: String },
}

/// How to reverse the ingest recorded in `entry`.
pub fn undo_step(entry: UndoEntry) -> (r: UndoStep)
    ensures
        entry.is_copy <==> r is RemoveCopy,
        match r {
            UndoStep::RemoveCopy { event_id, src_path, dst_path } => event_id@ == entry.event_id@
                && src_path@ == entry.src_path@ && dst_path@ == entry.dst_path@,
            UndoStep::MoveBack { event_id, src_path, dst_path } => event_id@ == entry.event_id@
                && src_path@ == entry.src_path@ && dst_path@ == entry.dst_path@,
        },
{
    if entry.is_copy {
        UndoStep::RemoveCopy { event_id: entry.event_id, src_path: entry.src_path, dst_path: entry.dst_path }
    } else {
        UndoStep::MoveBack { event_id: entry.event_id, src_path: entry.src_path, dst_path: entry.dst_path }
    }
}

/// The error when there is nothing to undo for an event.
pub fn undo_not_found() -> (r: ApiError)
    ensures
        is_error(r, 404, "UNDO_NOT_FOUND"@, "No undo entry for this event, or the undo window has expired"@),
{
    ApiError {
        status: 404,
        body: error_json("UNDO_NOT_FOUND", "No undo entry for this event, or the undo window has expired"),
    }
}

/// The error when reversing the file operation failed.
pub fn undo_failed(message: &str) -> (r: ApiError)
    ensures
        is_error(r, 500, "UNDO_FAILED"@, message@),
{
    ApiError { status: 500, body: error_json("UNDO_FAILED", message) }
}

/// The message when the inbox copy could not be removed.
pub fn remove_failed_message(cause: &str) -> (r: String)
    ensures
        r@ == "Failed to remove inbox copy: "@ + cause@,
{
    concat("Failed to remove inbox copy: ", cause)
}

/// The message when the moved file could not be put back.
pub fn restore_failed_message(cause: &str) -> (r: String)
    ensures
        r@ == "Failed to restore file: "@ + cause@,
{
    concat("Failed to restore file: ", cause)
}

/// The answer to a successful undo.
pub fn undone_body(event_id: &str, src_path: &str, dst_path: &str) -> (r: JsonValue)
    ensures
        r@ == Json::Object(seq![
            ("event_id"@, Json::Str(event_id@)),
            ("undone"@, Json::Object(seq![("src_path"@, Json::Str(src_path@)), ("dst_path"@, Json::Str(dst_path@))])),
        ]),
{
    let mut inner: Vec<(String, JsonValue)> = Vec::new();
    inner.push((owned("src_path"), JsonValue::Str(owned(src_path))));
    inner.push((owned("dst_path"), JsonValue::Str(owned(dst_path))));
    let ghost inner_json = seq![("src_path"@, Json::Str(src_path@)), ("dst_path"@, Json::Str(dst_path@))];
    proof {
        lemma_json_fields(inner@);
        assert(json_fields(inner@) =~= inner_json);
    }
    let mut outer: Vec<(String, JsonValue)> = Vec::new();
    outer.push((owned("event_id"), JsonValue::Str(owned(event_id))));
    outer.push((owned("undone"), JsonValue::Object(inner)));
    proof {
        lemma_json_fields(outer@);
        assert(json_fields(outer@) =~= seq![("event_id"@, Json::Str(event_id@)), ("undone"@, Json::Object(inner_json))]);
    }
    JsonValue::Object(outer)
}

/// The answer when the inbox copy is gone already: a workflow has taken the file.
pub fn already_processed_body(event_id: &str) -> (r: JsonValue)
    ensures
        r@ == Json::Object(seq![
            ("event_id"@, Json::Str(event_id@)),
            ("undone"@, Json::Bool(false)),
            ("message"@, Json::Str("File was already processed by a workflow and cannot be restored from inbox"@)),
        ]),
{
    let mut fields: Vec<(String, JsonValue)> = Vec::new();
    fields.push((owned("event_id"), JsonValue::Str(owned(event_id))));
    fields.push((owned("undone"), JsonValue::Bool(false)));
    fields.push((
        owned("message"),
        JsonValue::Str(owned("File was already processed by a workflow and cannot be restored from inbox")),
    ));
    proof {
        lemma_json_fields(fields@);
        assert(json_fields(fields@) =~= seq![
            ("event_id"@, Json::Str(event_id@)),
            ("undone"@, Json::Bool(false)),
            ("message"@, Json::Str("File was already processed by a workflow and cannot be restored from inbox"@)),
        ]);
    }
    JsonValue::Object(fields)
}

} // verus!
