//! The table's clock: microseconds elapsed since a table-local origin.

use std::time::Duration;
use std::time::Instant;
use vstd::prelude::*;

verus! {

/// A point in time as the table records it: microseconds since the table's origin.
pub type LastAccessDate = u64;

/// How far in the past a freshly reported split is dated, in seconds.
pub const NEWLY_REPORTED_SPLIT_LAST_TIME_SECS: u64 = 600;

/// How far in the past a freshly reported split is dated, in microseconds.
pub const NEWLY_REPORTED_SPLIT_LAST_TIME_MICROS: u64 = 600_000_000;

/// `std::time::Instant`, a reading of the monotonic clock, carried as an
/// opaque value.
#[verifier::external_type_specification]
#[verifier::external_body]
pub struct ExInstant(Instant);

/// `Instant::now`: the current reading of the monotonic clock. Nothing is
/// claimed of the value.
pub assume_specification[ Instant::now ]() -> (now: Instant)
;

/// `Instant::saturating_duration_since`: the time from `earlier` to `now`, zero
/// when `earlier` is the later of the two. Nothing is claimed of the value.
pub assume_specification[ Instant::saturating_duration_since ](
    now: &Instant,
    earlier: Instant,
) -> (elapsed: Duration)
;

/// `Instant::checked_sub`: the instant `duration` before `instant`, where the
/// platform can represent it. Nothing is claimed of the value.
pub assume_specification[ Instant::checked_sub ](instant: &Instant, duration: Duration) -> (earlier:
    Option<Instant>)
;

/// `Duration::from_secs`: the duration of that many whole seconds. Nothing is
/// claimed of the value.
pub assume_specification[ Duration::from_secs ](secs: u64) -> (duration: Duration)
;

/// `Duration::as_micros`: the whole microseconds in the duration. Nothing is
/// claimed of the value.
pub assume_specification[ Duration::as_micros ](duration: &Duration) -> (micros: u128)
;

/// The timestamp that stands for a count of microseconds: its low 64 bits.
pub open spec fn timestamp_of_micros(micros: u128) -> u64 {
    (micros % 0x1_0000_0000_0000_0000) as u64
}

/// Narrows a count of microseconds to a timestamp.
pub fn micros_to_timestamp(micros: u128) -> (timestamp: LastAccessDate)
    ensures
        timestamp == timestamp_of_micros(micros),
{
    let low: u128 = micros & 0xffff_ffff_ffff_ffff;
    assert(low == micros % 0x1_0000_0000_0000_0000) by (bit_vector)
        requires
            low == micros & 0xffff_ffff_ffff_ffff,
    ;
    low as u64
}

/// The origin of a table created now: the newly-reported offset before the
/// present, or the present itself where the clock cannot go back that far.
pub fn backdated_origin() -> (origin: Instant) {
    let now = Instant::now();
    let offset = Duration::from_secs(NEWLY_REPORTED_SPLIT_LAST_TIME_SECS);
    // `None` where the clock cannot go back that far.
    let earlier = now.checked_sub(offset);
    origin_or(earlier, now)
}

/// Microseconds elapsed since `start`, as a timestamp.
pub fn compute_timestamp(start: Instant) -> (timestamp: LastAccessDate) {
    let now = Instant::now();
    let elapsed = now.saturating_duration_since(start);
    micros_to_timestamp(elapsed.as_micros())
}

/// The date given to a split first heard of at `now`: the newly-reported
/// offset earlier, and the origin where `now` is nearer to it than that.
pub open spec fn backdated(now: u64) -> u64 {
    if now >= NEWLY_REPORTED_SPLIT_LAST_TIME_MICROS {
        (now - NEWLY_REPORTED_SPLIT_LAST_TIME_MICROS) as u64
    } else {
        0
    }
}

/// Dates a fresh report made at `now`.
pub fn backdate(now: LastAccessDate) -> (date: LastAccessDate)
    ensures
        date == backdated(now),
{
    if now >= NEWLY_REPORTED_SPLIT_LAST_TIME_MICROS {
        now - NEWLY_REPORTED_SPLIT_LAST_TIME_MICROS
    } else {
        0
    }
}

/// The origin of a table: the instant `earlier`, the offset before the
/// instant of creation, where the clock could go back that far, and the
/// instant of creation itself, `created`, where it could not.
pub fn origin_or(earlier: Option<Instant>, created: Instant) -> (origin: Instant)
    ensures
        origin == match earlier {
            Some(instant) => instant,
            None => created,
        },
{
    match earlier {
        Some(instant) => instant,
        None => created,
    }
}

} // verus!
