//! The two sources of fresh values that creating an element needs: a random
//! UUID and the current time.
use vstd::prelude::*;

verus! {

/// Calls `uuid::Uuid::new_v4` and hands back its 128 bits. The bits are
/// random but for the version, 4, and the RFC 4122 variant, which the
/// crate sets in every UUID it makes this way; only those are stated.
#[verifier::external_body]
pub(crate) fn new_uuid() -> (r: u128)
    ensures
        (r >> 76u32) & 0xfu128 == 4u128,
        (r >> 62u32) & 3u128 == 2u128,
{
    uuid::Uuid::new_v4().as_u128()
}

/// Calls `chrono::Utc::now` and hands back the time as microseconds since
/// the Unix epoch. The result is the machine's clock, so nothing is stated
/// of it.
#[verifier::external_body]
pub(crate) fn now_micros() -> (r: i64) {
    chrono::Utc::now().naive_utc().and_utc().timestamp_micros()
}

} // verus!
