//! The process clock, read through `chrono`.
use vstd::prelude::*;

verus! {

/// Relies on `chrono::Utc::now`: the current time in whole seconds since the
/// Unix epoch. The crate builds the value from the system clock, panicking on
/// a clock before 1970, and keeps every `DateTime` within about 262,000 years
/// of the epoch, so the timestamp is non-negative and far below 2^46.
#[verifier::external_body]
pub(crate) fn now_seconds() -> (r: u64)
    ensures
        r < 0x4000_0000_0000,
{
    chrono::Utc::now().timestamp() as u64
}

} // verus!
