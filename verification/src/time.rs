use vstd::prelude::*;

verus! {

/// A point in time, as seconds of local wall-clock time since the epoch.
///
/// The log only ever compares and copies timestamps; it never computes with
/// them, so a single integer is all the structure a day needs.
#[derive(Clone, Copy, PartialEq, Eq, Structural, Debug, Hash)]
pub struct Timestamp {
    pub secs: u64,
}

/// Reads the wall clock.
///
/// Relies on `chrono::Local::now`: the local civil time, converted to seconds.
/// The value depends on the machine's clock, so nothing is promised of it; on
/// a machine whose clock is set before 1970 the underlying call does not
/// return.
#[verifier::external_body]
pub fn clock_now() -> Timestamp {
    Timestamp { secs: chrono::Local::now().naive_local().and_utc().timestamp() as u64 }
}

} // verus!
