use vstd::prelude::*;
use crate::auth::error_json;
use crate::api::{is_error, ApiError};
use crate::text::concat;

verus! {

/// A request to watch folders.
pub struct StartWatcherRequest {
    pub paths: Vec<String>,
}

/// The first of `paths` that does not exist, where `exists[i]` says whether
/// `paths[i]` does; a watch starts only when every path exists.
pub fn check_watch_paths(req: &StartWatcherRequest, exists: &[bool]) -> (r: Result<(), ApiError>)
    requires
        exists@.len() == req.paths@.len(),
    ensures
        r is Ok <==> forall|i: int| 0 <= i < exists@.len() ==> #[trigger] exists@[i],
        r is Err ==> exists|i: int| 0 <= i < exists@.len() && !exists@[i]
            && (forall|j: int| 0 <= j < i ==> #[trigger] exists@[j])
            && is_error(r->Err_0, 422, "INVALID_PATH"@, "Path does not exist: "@ + req.paths@[i]@),
{
    let mut i: usize = 0;
    while i < exists.len()
        invariant
            i <= exists@.len(),
            exists@.len() == req.paths@.len(),
            forall|j: int| 0 <= j < i ==> #[trigger] exists@[j],
        decreases exists@.len() - i,
    {
        if !exists[i] {
            let message = concat("Path does not exist: ", req.paths[i].as_str());
            let e = ApiError { status: 422, body: error_json("INVALID_PATH", message.as_str()) };
            proof {
                assert(is_error(e, 422, "INVALID_PATH"@, "Path does not exist: "@ + req.paths@[i as int]@));
            }
            return Err(e);
        }
        i += 1;
    }
    Ok(())
}

/// The error when no watch is running.
pub fn not_running_error() -> (r: ApiError)
    ensures
        is_error(r, 409, "NOT_RUNNING"@, "No active watcher"@),
{
    ApiError { status: 409, body: error_json("NOT_RUNNING", "No active watcher") }
}

} // verus!
