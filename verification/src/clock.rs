//! Time spans and clock readings.
//!
//! The library reasons about time in whole nanoseconds. What it takes from the
//! standard library is declared here, with what each call is relied on to do.
use std::time::{Duration, Instant};
use vstd::prelude::*;

verus! {

pub const NANOS_PER_SEC: u128 = 1_000_000_000;

pub const NANOS_PER_MILLI: u128 = 1_000_000;

/// One more than the largest whole number of seconds in a [`Duration`].
pub const SECS_END: u128 = 0x1_0000_0000_0000_0000;

/// A reading of the monotonic clock.
#[verifier::external_type_specification]
#[verifier::external_body]
pub struct ExInstant(std::time::Instant);

/// The total number of nanoseconds in a span, as [`Duration::as_nanos`] returns it.
pub uninterp spec fn duration_nanos(span: Duration) -> nat;

/// The reading `nanos` nanoseconds after `start`, where the clock has one, as
/// [`Instant::checked_add`] returns it.
pub uninterp spec fn instant_plus(start: Instant, nanos: nat) -> Option<Instant>;

/// The nanoseconds from `earlier` to `later`, as
/// [`Instant::saturating_duration_since`] returns them.
pub uninterp spec fn nanos_between(later: Instant, earlier: Instant) -> nat;

/// [`Duration::as_nanos`]: the total number of nanoseconds. A span is a `u64`
/// of seconds and less than one second on top.
pub assume_specification[ Duration::as_nanos ](span: &Duration) -> (r: u128)
    ensures
        r == duration_nanos(*span),
        r < SECS_END * NANOS_PER_SEC,
;

/// [`Duration::new`]: the span of that many seconds and nanoseconds. It panics
/// where the nanoseconds carry into seconds that do not fit, which needs a
/// whole second of them.
pub assume_specification[ Duration::new ](secs: u64, nanos: u32) -> (r: Duration)
    requires
        nanos < NANOS_PER_SEC,
    ensures
        duration_nanos(r) == secs * NANOS_PER_SEC + nanos,
;

/// [`Instant::now`]: nothing is claimed of the reading.
pub assume_specification[ Instant::now ]() -> Instant
;

/// [`Instant::checked_add`]: a function of the reading and the length of the
/// span. A reading that it returns is later by the span that was added. How far
/// the clock reaches is left open.
pub assume_specification[ Instant::checked_add ](start: &Instant, span: Duration) -> (r: Option<
    Instant,
>)
    ensures
        r == instant_plus(*start, duration_nanos(span)),
        r matches Some(t) ==> nanos_between(t, *start) == duration_nanos(span),
;

/// [`Instant::saturating_duration_since`]: a function of the two readings.
pub assume_specification[ Instant::saturating_duration_since ](
    later: &Instant,
    earlier: Instant,
) -> (r: Duration)
    ensures
        duration_nanos(r) == nanos_between(*later, earlier),
;

/// The span of `nanos` nanoseconds.
pub fn span_of(nanos: u128) -> (r: Duration)
    requires
        nanos < SECS_END * NANOS_PER_SEC,
    ensures
        duration_nanos(r) == nanos,
{
    let secs: u128 = nanos / NANOS_PER_SEC;
    let rest: u128 = nanos % NANOS_PER_SEC;
    Duration::new(secs as u64, rest as u32)
}

/// The span of `millis` milliseconds.
pub fn span_of_millis(millis: u64) -> (r: Duration)
    ensures
        duration_nanos(r) == millis * NANOS_PER_MILLI,
{
    span_of(millis as u128 * NANOS_PER_MILLI)
}

/// The whole milliseconds of a span, in the width that the clock is kept in:
/// what does not fit wraps round.
pub open spec fn whole_millis(nanos: nat) -> u64 {
    (nanos / (NANOS_PER_MILLI as nat) % (SECS_END as nat)) as u64
}

/// The whole milliseconds of a span that is at least one of them long, in the
/// width that the clock is kept in.
pub open spec fn whole_millis_from_one(nanos: nat) -> u64 {
    if nanos < NANOS_PER_MILLI {
        1
    } else {
        whole_millis(nanos)
    }
}

/// The reading `nanos` nanoseconds after `start`; `start` itself where the
/// clock does not reach that far.
pub open spec fn deadline(start: Instant, nanos: nat) -> Instant {
    match instant_plus(start, nanos) {
        Some(reading) => reading,
        None => start,
    }
}

/// Whether a reading is `nanos` nanoseconds after `start`: it is the deadline,
/// and as long as the clock reaches that far, it is later by that much.
pub open spec fn is_deadline(reading: Instant, start: Instant, nanos: nat) -> bool {
    &&& reading == deadline(start, nanos)
    &&& instant_plus(start, nanos) is Some ==> nanos_between(reading, start) == nanos
}

/// The reading `span` after `start`.
pub fn deadline_after(start: Instant, span: Duration) -> (r: Instant)
    ensures
        is_deadline(r, start, duration_nanos(span)),
{
    match start.checked_add(span) {
        Some(reading) => reading,
        None => start,
    }
}

} // verus!
