//! Wall-clock time.

use vstd::prelude::*;

verus! {

/// Relies on `SystemTime::now` and `duration_since(UNIX_EPOCH)`: nanoseconds since
/// the epoch, or zero for a clock set before it. Nothing is promised of the value.
#[verifier::external_body]
pub(crate) fn now_nanos() -> (r: u64) {
    std::time::SystemTime::now().duration_since(std::time::UNIX_EPOCH).unwrap_or_default().as_nanos() as u64
}

} // verus!
