//! Monotonic time points for gesture deadlines.
use vstd::prelude::*;
use std::time::{Duration, Instant};

verus! {

#[verifier::external_type_specification]
#[verifier::external_body]
pub struct ExInstant(Instant);

/// `now` plus `millis` milliseconds (std's `Instant::checked_add`), `None`
/// where the platform clock cannot represent the sum.
pub uninterp spec fn instant_checked_after_millis(now: Instant, millis: u64) -> Option<Instant>;

/// Whether `now` is at or after `deadline` (std's `Instant` ordering).
pub uninterp spec fn instant_reached(now: Instant, deadline: Instant) -> bool;

/// The deadline `millis` milliseconds after `now`; `now` itself where the
/// sum is not representable.
pub open spec fn deadline_after(now: Instant, millis: u64) -> Instant {
    match instant_checked_after_millis(now, millis) {
        Some(d) => d,
        None => now,
    }
}

/// `now + millis` milliseconds through std's `Instant::checked_add`.
#[verifier::external_body]
fn checked_after_millis(now: Instant, millis: u64) -> (r: Option<Instant>)
    ensures
        r == instant_checked_after_millis(now, millis),
{
    now.checked_add(Duration::from_millis(millis))
}

/// The deadline `millis` milliseconds after `now`.
pub fn deadline(now: Instant, millis: u64) -> (r: Instant)
    ensures
        r == deadline_after(now, millis),
{
    match checked_after_millis(now, millis) {
        Some(d) => d,
        None => now,
    }
}

/// The current time, through std's `Instant::now`. Nothing is stated of the
/// result: it depends on the clock.
#[verifier::external_body]
pub(crate) fn current_instant() -> (r: Instant)
{
    Instant::now()
}

/// Whether `now >= deadline`, through std's `PartialOrd for Instant`.
#[verifier::external_body]
pub(crate) fn reached(now: Instant, deadline: Instant) -> (r: bool)
    ensures
        r == instant_reached(now, deadline),
{
    now >= deadline
}

} // verus!
