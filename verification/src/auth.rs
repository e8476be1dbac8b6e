use vstd::prelude::*;
use crate::hex::{hex_encode, hex_of, is_hex_digit, lemma_hex_of};
use crate::json::{lemma_json_fields, json_fields, Json, JsonValue};
use crate::text::{owned, starts_with, str_eq, strip_prefix};

verus! {

/// `n` bytes from the operating system's random source: `rand::rngs::OsRng` through
/// `TryRngCore::try_fill_bytes`, which asks `getrandom` and reports its failure as an
/// error rather than panicking; that failure gives `None`. The bytes are random: only
/// their number is claimed.
#[verifier::external_body]
pub(crate) fn random_bytes(n: usize) -> (r: Option<Vec<u8>>)
    ensures
        r matches Some(b) ==> b@.len() == n,
{
    let mut buf = vec![0u8; n];
    match rand::TryRngCore::try_fill_bytes(&mut rand::rngs::OsRng, &mut buf) {
        Ok(()) => Some(buf),
        Err(_) => None,
    }
}

/// A fresh API token: 32 random bytes as 64 lowercase hexadecimal digits; `None` when
/// the operating system's random source fails.
pub fn generate_token() -> (r: Option<String>)
    ensures
        r matches Some(t) ==> {
            &&& t@.len() == 64
            &&& forall|i: int| 0 <= i < 64 ==> is_hex_digit(#[trigger] t@[i])
            &&& exists|bytes: Seq<u8>| bytes.len() == 32 && t@ == #[trigger] hex_of(bytes)
        },
{
    match random_bytes(32) {
        Some(bytes) => {
            let r = hex_encode(bytes.as_slice());
            proof {
                lemma_hex_of(bytes@);
            }
            Some(r)
        },
        None => None,
    }
}

/// Whether a request may pass the bearer check: preflight (`OPTIONS`) requests pass;
/// others need an `Authorization` header `Bearer <token>` with the expected token.
pub open spec fn bearer_ok(is_options: bool, header: Option<Seq<char>>, expected: Seq<char>) -> bool {
    is_options || match header {
        Some(h) => starts_with(h, "Bearer "@) && h.subrange("Bearer "@.len() as int, h.len() as int) == expected,
        None => false,
    }
}

/// The bearer check on a request.
pub fn bearer_authorized(is_options: bool, header: Option<&str>, expected: &str) -> (r: bool)
    ensures
        r == bearer_ok(is_options, match header { Some(h) => Some(h@), None => None }, expected@),
{
    if is_options {
        return true;
    }
    match header {
        Some(h) => match strip_prefix(h, "Bearer ") {
            Some(token) => str_eq(token.as_str(), expected),
            None => false,
        },
        None => false,
    }
}

/// The JSON body of an API error: `{"error": {"code": .., "message": ..}}`.
pub open spec fn error_body(code: Seq<char>, message: Seq<char>) -> Json {
    Json::Object(seq![("error"@, Json::Object(seq![("code"@, Json::Str(code)), ("message"@, Json::Str(message))]))])
}

/// The JSON body of an API error.
pub fn error_json(code: &str, message: &str) -> (r: JsonValue)
    ensures
        r@ == error_body(code@, message@),
{
    let mut inner: Vec<(String, JsonValue)> = Vec::new();
    inner.push((owned("code"), JsonValue::Str(owned(code))));
    inner.push((owned("message"), JsonValue::Str(owned(message))));
    proof {
        lemma_json_fields(inner@);
        assert(json_fields(inner@) =~= seq![("code"@, Json::Str(code@)), ("message"@, Json::Str(message@))]);
    }
    let inner_value = JsonValue::Object(inner);
    let mut outer: Vec<(String, JsonValue)> = Vec::new();
    outer.push((owned("error"), inner_value));
    proof {
        lemma_json_fields(outer@);
        assert(json_fields(outer@) =~= seq![("error"@, error_body(code@, message@)->Object_0[0].1)]);
    }
    JsonValue::Object(outer)
}

/// The answer to a request that fails the bearer check (status 401).
pub fn unauthorized_body() -> (r: JsonValue)
    ensures
        r@ == error_body("UNAUTHORIZED"@, "Missing or invalid Bearer token"@),
{
    error_json("UNAUTHORIZED", "Missing or invalid Bearer token")
}

/// The query of a websocket upgrade.
pub struct WsParams {
    pub token: Option<String>,
}

/// Whether a websocket upgrade carries the expected token (a missing token counts
/// as the empty one).
pub fn ws_authorized(params: &WsParams, expected: &str) -> (r: bool)
    ensures
        r == (match params.token {
            Some(t) => t@,
            None => Seq::<char>::empty(),
        } == expected@),
{
    match &params.token {
        Some(t) => str_eq(t.as_str(), expected),
        None => {
            proof {
                reveal_strlit("");
                assert(""@ =~= Seq::<char>::empty());
            }
            str_eq("", expected)
        },
    }
}

/// The answer to a websocket upgrade without the right token (status 401).
pub fn ws_unauthorized_body() -> (r: JsonValue)
    ensures
        r@ == error_body("UNAUTHORIZED"@, "Missing or invalid token"@),
{
    error_json("UNAUTHORIZED", "Missing or invalid token")
}

/// An IP address, as the connection reports it.
pub enum IpAddress {
    V4([u8; 4]),
    V6([u16; 8]),
}

/// A loopback address: `127.0.0.0/8`, or `::1` (`IpAddr::is_loopback`).
pub open spec fn is_loopback_spec(ip: IpAddress) -> bool {
    match ip {
        IpAddress::V4(o) => o@[0] == 127,
        IpAddress::V6(s) => s@ == seq![0u16, 0, 0, 0, 0, 0, 0, 1],
    }
}

/// Whether requests from `ip` are served: only loopback addresses are.
pub fn is_loopback(ip: &IpAddress) -> (r: bool)
    ensures
        r == is_loopback_spec(*ip),
{
    match ip {
        IpAddress::V4(o) => o[0] == 127,
        IpAddress::V6(s) => {
            let r = s[0] == 0 && s[1] == 0 && s[2] == 0 && s[3] == 0 && s[4] == 0 && s[5] == 0 && s[6] == 0 && s[7] == 1;
            proof {
                if r {
                    assert(s@ =~= seq![0u16, 0, 0, 0, 0, 0, 0, 1]);
                }
            }
            r
        },
    }
}

} // verus!
