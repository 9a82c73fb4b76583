//! The wall clock.
use vstd::prelude::*;

verus! {

/// Reads the current time with `chrono::Utc::now()` and gives it as
/// seconds since the Unix epoch (`DateTime::timestamp`). What it returns
/// depends on the moment of the call, so nothing is stated of it. chrono
/// panics when the system clock reads a time before the Unix epoch; that
/// depends on the machine, not on anything a caller passes.
#[verifier::external_body]
pub(crate) fn utc_now_timestamp() -> (t: i64) {
    chrono::Utc::now().timestamp()
}

} // verus!
