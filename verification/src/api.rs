use vstd::prelude::*;
use crate::auth::{error_body, error_json};
use crate::crud::CrudError;
use crate::json::JsonValue;
use crate::text::{concat, decimal, decimal_string};

verus! {

/// An API error: the HTTP status and the JSON body.
pub struct ApiError {
    pub status: u16,
    pub body: JsonValue,
}

pub open spec fn is_error(e: ApiError, status: u16, code: Seq<char>, message: Seq<char>) -> bool {
    e.status == status && e.body@ == error_body(code, message)
}

/// The error with `status`, `code` and `message`.
pub fn api_error(status: u16, code: &str, message: &str) -> (r: ApiError)
    ensures
        is_error(r, status, code@, message@),
{
    ApiError { status, body: error_json(code, message) }
}

/// An internal error with `message`.
pub fn internal_error(message: &str) -> (r: ApiError)
    ensures
        is_error(r, 500, "INTERNAL_ERROR"@, message@),
{
    api_error(500, "INTERNAL_ERROR", message)
}

/// The answer to a refused change of a stored rule or workflow; `what` names the
/// kind of item ("Rule" or "Workflow").
pub fn crud_api_error(e: CrudError, what: &str) -> (r: ApiError)
    ensures
        e == CrudError::NotFound ==> is_error(r, 404, "NOT_FOUND"@, what@ + " not found"@),
        e == CrudError::Conflict ==> is_error(r, 409, "CONFLICT"@, what@ + " with this id already exists"@),
{
    match e {
        CrudError::NotFound => {
            let m = concat(what, " not found");
            api_error(404, "NOT_FOUND", m.as_str())
        },
        CrudError::Conflict => {
            let m = concat(what, " with this id already exists");
            api_error(409, "CONFLICT", m.as_str())
        },
    }
}

/// The ports the API server tries, in order: `base` and the nine after it.
pub fn candidate_ports(base: u16) -> (r: Vec<u16>)
    requires
        base + 9 <= u16::MAX,
    ensures
        r@.len() == 10,
        forall|i: int| 0 <= i < 10 ==> #[trigger] r@[i] == base + i,
{
    let mut r: Vec<u16> = Vec::new();
    let mut k: u16 = 0;
    while k < 10
        invariant
            k <= 10,
            base + 9 <= u16::MAX,
            r@.len() == k,
            forall|i: int| 0 <= i < k ==> #[trigger] r@[i] == base + i,
        decreases 10 - k,
    {
        r.push(base + k);
        k += 1;
    }
    r
}

/// The error when none of the ports could be bound.
pub fn no_port_message(base: u16) -> (r: String)
    requires
        base + 9 <= u16::MAX,
    ensures
        r@ == "Could not bind to any port in range "@ + decimal(base as nat) + ".."@ + decimal((base + 9) as nat),
{
    let a = decimal_string(base as u128);
    let b = decimal_string((base + 9) as u128);
    let s1 = concat("Could not bind to any port in range ", a.as_str());
    let s2 = concat(s1.as_str(), "..");
    concat(s2.as_str(), b.as_str())
}

} // verus!
