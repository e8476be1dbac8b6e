use vstd::prelude::*;
use crate::auth::random_bytes;
use crate::hex::{hex_of, is_hex_digit, lemma_hex_of};
use crate::text::concat;

verus! {

/// The 16 bytes of the version 4 UUID made of `bytes`: the version, 4, in the high half
/// of byte 6, and the RFC 4122 variant, binary 10, in the top two bits of byte 8.
pub open spec fn v4_bytes(bytes: Seq<u8>) -> Seq<u8> {
    bytes.update(6, (bytes[6] & 0x0f) | 0x40).update(8, (bytes[8] & 0x3f) | 0x80)
}

/// The simple form of the version 4 UUID that `uuid::Builder::from_random_bytes` makes of
/// `bytes`: `with_variant` sets byte 8 to `(b & 0x3f) | 0x80`, `with_version` sets byte 6
/// to `(b & 0x0f) | 0x40`, and `Uuid::simple` writes the 16 bytes in order as 32
/// lowercase hexadecimal digits, the high half of each byte first.
#[verifier::external_body]
fn uuid_simple_from(bytes: &Vec<u8>) -> (r: String)
    requires
        bytes@.len() == 16,
    ensures
        r@ == hex_of(v4_bytes(bytes@)),
{
    let mut raw = [0u8; 16];
    raw.copy_from_slice(bytes.as_slice());
    uuid::Builder::from_random_bytes(raw).into_uuid().simple().to_string()
}

/// `id` is `prefix` followed by the simple form of a version 4 UUID.
pub open spec fn is_v4_id(id: Seq<char>, prefix: Seq<char>) -> bool {
    exists|bytes: Seq<u8>| bytes.len() == 16 && id == prefix + #[trigger] hex_of(v4_bytes(bytes))
}

/// An id made of `prefix` and the 32 hexadecimal digits of a random version 4
/// UUID; `None` when the operating system's random source fails.
pub open spec fn is_prefixed_id(id: Seq<char>, prefix: Seq<char>) -> bool {
    &&& id.len() == prefix.len() + 32
    &&& id.subrange(0, prefix.len() as int) == prefix
    &&& forall|i: int| prefix.len() <= i < id.len() ==> is_hex_digit(#[trigger] id[i])
}

/// `prefix` and a fresh random version 4 UUID; `None` when the operating system's
/// random source fails.
fn prefixed_id(prefix: &str) -> (r: Option<String>)
    ensures
        r matches Some(id) ==> is_prefixed_id(id@, prefix@) && is_v4_id(id@, prefix@),
{
    match random_bytes(16) {
        Some(bytes) => {
            let u = uuid_simple_from(&bytes);
            let r = concat(prefix, u.as_str());
            proof {
                lemma_hex_of(v4_bytes(bytes@));
                assert(r@.subrange(0, prefix@.len() as int) =~= prefix@);
                assert forall|i: int| prefix@.len() <= i < r@.len() implies is_hex_digit(#[trigger] r@[i]) by {
                    assert(r@[i] == u@[i - prefix@.len()]);
                }
                assert(r@ == prefix@ + hex_of(v4_bytes(bytes@)));
            }
            Some(r)
        },
        None => None,
    }
}

/// A fresh event id: `evt_` and the 32 hexadecimal digits of a random version 4
/// UUID; `None` when the operating system's random source fails.
pub fn new_event_id() -> (r: Option<String>)
    ensures
        r matches Some(id) ==> is_prefixed_id(id@, "evt_"@) && is_v4_id(id@, "evt_"@),
{
    prefixed_id("evt_")
}

/// A fresh run id: `run_` and the 32 hexadecimal digits of a random version 4
/// UUID; `None` when the operating system's random source fails.
pub fn new_run_id() -> (r: Option<String>)
    ensures
        r matches Some(id) ==> is_prefixed_id(id@, "run_"@) && is_v4_id(id@, "run_"@),
{
    prefixed_id("run_")
}

/// A fresh rule id: `rule_` and the 32 hexadecimal digits of a random version 4
/// UUID; `None` when the operating system's random source fails.
pub fn new_rule_id() -> (r: Option<String>)
    ensures
        r matches Some(id) ==> is_prefixed_id(id@, "rule_"@) && is_v4_id(id@, "rule_"@),
{
    prefixed_id("rule_")
}

/// A fresh workflow id: `wf_` and the 32 hexadecimal digits of a random version 4
/// UUID; `None` when the operating system's random source fails.
pub fn new_workflow_id() -> (r: Option<String>)
    ensures
        r matches Some(id) ==> is_prefixed_id(id@, "wf_"@) && is_v4_id(id@, "wf_"@),
{
    prefixed_id("wf_")
}

} // verus!
