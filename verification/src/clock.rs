//! The session clock: the one place where the library asks the outside
//! world for the time.

use vstd::prelude::*;

verus! {

/// Relies on chrono's `Local::now` for the current local time and on
/// `DateTime::timestamp` to turn it into whole seconds since the Unix
/// epoch. Nothing can be promised of a clock reading. Note that chrono
/// itself aborts the process on a system clock set before the epoch, so
/// in practice this call returns only non-negative values; the contract
/// does not rely on that.
#[verifier::external_body]
fn now_seconds() -> i64 {
    chrono::Local::now().timestamp()
}

/// The current time as seconds since the Unix epoch. The clamp to zero
/// establishes the library's own guarantee without assuming anything of
/// the clock wrapper's result.
pub fn current_timestamp() -> (r: i64)
    ensures
        r >= 0,
{
    let t = now_seconds();
    if t < 0 {
        0
    } else {
        t
    }
}

} // verus!
