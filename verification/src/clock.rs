//! Wall-clock reading: the one nondeterministic input of the store.
//!
//! Every scoring operation takes the observation time as an argument; the
//! public operations that mirror the command-line tool read it here.

use vstd::prelude::*;

verus! {

/// Relies on `std::time::SystemTime::now` and `duration_since(UNIX_EPOCH)`:
/// whole seconds since the Unix epoch.  Nothing can be promised about which
/// instant comes back; a clock standing before the epoch reads as zero, so
/// the result is never negative.
#[verifier::external_body]
pub(crate) fn now_seconds() -> (t: i64)
    ensures
        0 <= t,
{
    match std::time::SystemTime::now().duration_since(std::time::UNIX_EPOCH) {
        Ok(d) => i64::try_from(d.as_secs()).unwrap_or(i64::MAX),
        Err(_) => 0,
    }
}

} // verus!
