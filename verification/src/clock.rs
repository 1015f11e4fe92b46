//! Monotonic time, as nanoseconds since an origin instant.
use vstd::prelude::*;

verus! {

#[verifier::external_type_specification]
#[verifier::external_body]
pub struct ExInstant(std::time::Instant);

/// `std::time::Instant::now()`.  Nothing is promised of the value.
#[verifier::external_body]
pub(crate) fn instant_now() -> (r: std::time::Instant) {
    std::time::Instant::now()
}

/// Nanoseconds elapsed since `origin` (`Instant::elapsed`, then
/// `Duration::as_nanos`).  The value depends on the clock: nothing is
/// promised of it.
#[verifier::external_body]
pub(crate) fn nanos_since(origin: &std::time::Instant) -> (r: u64) {
    origin.elapsed().as_nanos() as u64
}

/// Time from `t` to `now` in nanoseconds, zero when `t` is later
/// (`Instant::duration_since` saturates).
pub open spec fn elapsed(now: u64, t: u64) -> nat {
    if now >= t {
        (now - t) as nat
    } else {
        0
    }
}

pub fn elapsed_nanos(now: u64, t: u64) -> (r: u64)
    ensures
        r == elapsed(now, t),
{
    if now >= t {
        now - t
    } else {
        0
    }
}

pub open spec fn nanos_of_secs(secs: u64) -> nat {
    secs as nat * 1_000_000_000
}

} // verus!
