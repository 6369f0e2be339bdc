//! The clock and other sources of values that differ on every call.
//!
//! Nothing is promised of what these return: each result rests on the time
//! or on chance, and the functions that use them hold whatever came back.
use vstd::prelude::*;

verus! {

/// `chrono::Utc::now().to_rfc3339()`: the current time in RFC 3339 form.
#[verifier::external_body]
pub(crate) fn now_rfc3339() -> String {
    chrono::Utc::now().to_rfc3339()
}

/// `chrono::Utc::now().format("%Y%m%d-%H%M%S")`: the current UTC time as a
/// compact, sortable stamp.
#[verifier::external_body]
pub(crate) fn utc_stamp() -> String {
    chrono::Utc::now().format("%Y%m%d-%H%M%S").to_string()
}

/// `chrono::Utc::now().timestamp()`: the current time in seconds since the
/// Unix epoch.
#[verifier::external_body]
pub(crate) fn unix_now() -> i64 {
    chrono::Utc::now().timestamp()
}

/// `chrono::Utc::now().timestamp_subsec_nanos()`: the sub-second part of the
/// current time, in nanoseconds; chrono documents it as below 10^9, or below
/// 2 * 10^9 during a leap second.
#[verifier::external_body]
pub(crate) fn subsec_nanos() -> (n: u32)
    ensures
        n < 2_000_000_000,
{
    chrono::Utc::now().timestamp_subsec_nanos()
}

/// `BuildHasher::hash_one` under a fresh `RandomState`: std seeds each
/// `RandomState` with new keys, so the hash of a fixed value differs from
/// call to call.
#[verifier::external_body]
pub(crate) fn entropy() -> u64 {
    std::hash::BuildHasher::hash_one(&std::collections::hash_map::RandomState::new(), 0u8)
}

} // verus!
