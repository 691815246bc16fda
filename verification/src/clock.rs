//! The one outside reading the builder depends on: the wall clock.

use vstd::prelude::*;

use crate::ClockError;

verus! {

/// Relies on `std::time::SystemTime::now` and
/// `SystemTime::duration_since(UNIX_EPOCH)`: the current wall-clock time as
/// nanoseconds since the Unix epoch, or an error when the clock stands before
/// the epoch. Nothing is assumed of the value returned; callers must hold for
/// every outcome.
#[verifier::external_body]
pub(crate) fn now_unix_nanos() -> Result<u128, ClockError> {
    match std::time::SystemTime::now().duration_since(std::time::UNIX_EPOCH) {
        Ok(d) => Ok(d.as_nanos()),
        Err(_) => Err(ClockError),
    }
}

} // verus!
