use vstd::prelude::*;
use crate::api::{api_error, is_error, ApiError};
use crate::executors::{get_field, param_str, str_param};
use crate::json::{Json, JsonValue};
use crate::text::str_eq;

verus! {

/// The query of a run listing.
pub struct ListQuery {
    pub status: Option<String>,
    pub limit: Option<u32>,
    pub offset: Option<u32>,
}

/// The page a listing asks for: at most `limit` runs (50 by default) after skipping
/// `offset` (0 by default).
pub fn page(q: &ListQuery) -> (r: (u32, u32))
    ensures
        r.0 == match q.limit { Some(l) => l, None => 50 },
        r.1 == match q.offset { Some(o) => o, None => 0 },
{
    let limit = match q.limit {
        Some(l) => l,
        None => 50,
    };
    let offset = match q.offset {
        Some(o) => o,
        None => 0,
    };
    (limit, offset)
}

/// Only a failed run can be retried.
pub fn check_retryable(status: &str) -> (r: Result<(), ApiError>)
    ensures
        r is Ok <==> status@ == "failed"@,
        r matches Err(e) ==> is_error(e, 400, "BAD_REQUEST"@, "Only failed runs can be retried"@),
{
    if str_eq(status, "failed") {
        Ok(())
    } else {
        Err(api_error(400, "BAD_REQUEST", "Only failed runs can be retried"))
    }
}

/// The path of the first file of an event: `files[0].path`.
pub open spec fn first_file_path(files: Json) -> Option<Seq<char>> {
    match files {
        Json::Array(items) => if items.len() > 0 {
            str_param(items[0], "path"@)
        } else {
            None
        },
        _ => None,
    }
}

/// The file a retried run works on: the path of the first file of its event.
/// `files` is the event's stored file list; anything but an array is refused as
/// an invalid payload.
pub fn retry_work_dir(files: &JsonValue) -> (r: Result<String, ApiError>)
    ensures
        !(files@ is Array) ==> (r matches Err(e) && is_error(e, 500, "INTERNAL_ERROR"@, "Invalid files payload"@)),
        files@ is Array ==> match first_file_path(files@) {
            Some(p) => r matches Ok(w) && w@ == p,
            None => r matches Err(e) && is_error(e, 500, "INTERNAL_ERROR"@, "No file path in event"@),
        },
{
    match files {
        JsonValue::Array(items) => {
            proof {
                crate::json::lemma_json_seq(items@);
            }
            if items.len() > 0 {
                match param_str(&items[0], "path") {
                    Some(p) => Ok(p),
                    None => Err(api_error(500, "INTERNAL_ERROR", "No file path in event")),
                }
            } else {
                Err(api_error(500, "INTERNAL_ERROR", "No file path in event"))
            }
        },
        _ => Err(api_error(500, "INTERNAL_ERROR", "Invalid files payload")),
    }
}

/// The error for an unknown run.
pub fn run_not_found() -> (r: ApiError)
    ensures
        is_error(r, 404, "NOT_FOUND"@, "Run not found"@),
{
    api_error(404, "NOT_FOUND", "Run not found")
}

/// The error for a run whose event is gone.
pub fn event_not_found() -> (r: ApiError)
    ensures
        is_error(r, 404, "NOT_FOUND"@, "Event not found"@),
{
    api_error(404, "NOT_FOUND", "Event not found")
}

/// The error for a run whose workflow is gone.
pub fn workflow_not_found() -> (r: ApiError)
    ensures
        is_error(r, 404, "NOT_FOUND"@, "Workflow not found"@),
{
    api_error(404, "NOT_FOUND", "Workflow not found")
}

} // verus!
