//! The time of day.

use vstd::prelude::*;

verus! {

/// The whole seconds since the epoch, or, where the clock is before it, what std says of that.
///
/// Calls `std::time::SystemTime::elapsed` on the epoch, and hands its error on in words. Nothing
/// is claimed of the result: it is the machine's time.
#[verifier::external_body]
pub(crate) fn seconds_since_epoch() -> (r: Result<u64, String>) {
    match std::time::UNIX_EPOCH.elapsed() {
        Ok(elapsed) => Ok(elapsed.as_secs()),
        Err(error) => Err(error.to_string()),
    }
}

} // verus!
