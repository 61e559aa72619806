//! The wall clock, as far as the frame codec needs it.

use std::time::{Duration, SystemTime, SystemTimeError, UNIX_EPOCH};
use vstd::prelude::*;

verus! {

/// `std::time::SystemTime`, carried through as an opaque value.
#[verifier::external_type_specification]
#[verifier::external_body]
pub struct ExSystemTime(SystemTime);

/// `std::time::SystemTimeError`, carried through as an opaque value.
#[verifier::external_type_specification]
#[verifier::external_body]
pub struct ExSystemTimeError(SystemTimeError);

/// `SystemTime::now` reads the clock: nothing is claimed of what it returns.
pub assume_specification[ SystemTime::now ]() -> (now: SystemTime);

/// Calls `SystemTime::duration_since` with the Unix epoch as the earlier
/// point. It fails where the clock stands before the epoch: nothing is claimed
/// of which case comes about.
#[verifier::external_body]
fn since_epoch(time: &SystemTime) -> (elapsed: Result<Duration, SystemTimeError>) {
    time.duration_since(UNIX_EPOCH)
}

/// The whole seconds of a duration.
pub uninterp spec fn duration_secs(duration: Duration) -> u64;

/// The part of a duration below one second, in whole microseconds.
pub uninterp spec fn duration_micros(duration: Duration) -> u32;

/// `Duration::as_secs` gives the whole seconds of a duration.
pub assume_specification[ Duration::as_secs ](duration: &Duration) -> (seconds: u64)
    ensures
        seconds == duration_secs(*duration),
;

/// `Duration::subsec_micros` gives the part of a duration below one second
/// in whole microseconds, which std documents to be under one million.
pub assume_specification[ Duration::subsec_micros ](duration: &Duration) -> (micros: u32)
    ensures
        micros == duration_micros(*duration),
        micros < 1_000_000,
;

/// The reading that the time elapsed since the Unix epoch gives: its whole
/// seconds and the microseconds beyond them; the epoch itself where the clock
/// stands before the epoch, so that there is no such time.
pub open spec fn reading_of(elapsed: Result<Duration, SystemTimeError>) -> (u64, u32) {
    match elapsed {
        Ok(duration) => (duration_secs(duration), duration_micros(duration)),
        Err(_) => (0u64, 0u32),
    }
}

/// The time stamp of a frame for a reading of the clock: the seconds reduced
/// to 32 bits, and the microseconds as they are.
pub open spec fn stamp_of(reading: (u64, u32)) -> (u32, u32) {
    ((reading.0 % 0x1_0000_0000) as u32, reading.1)
}

/// Takes up what asking for the time since the Unix epoch ended in.
pub fn epoch_reading(elapsed: Result<Duration, SystemTimeError>) -> (reading: (u64, u32))
    ensures
        reading == reading_of(elapsed),
        reading.1 < 1_000_000,
{
    match elapsed {
        Ok(elapsed) => (elapsed.as_secs(), elapsed.subsec_micros()),
        Err(_) => (0, 0),
    }
}

/// Seconds and microseconds since the Unix epoch, as `reading_of` makes them
/// of what the clock answered; a clock that is set before the epoch reads as
/// the epoch itself.
pub fn unix_time() -> (now: (u64, u32))
    ensures
        now.1 < 1_000_000,
        exists|elapsed: Result<Duration, SystemTimeError>| now == #[trigger] reading_of(elapsed),
{
    let time = SystemTime::now();
    let elapsed = since_epoch(&time);
    let now = epoch_reading(elapsed);
    assert(now == reading_of(elapsed));
    now
}

/// The time stamp of a frame for a reading of the clock.
pub fn stamp(reading: (u64, u32)) -> (stamped: (u32, u32))
    ensures
        stamped == stamp_of(reading),
{
    ((reading.0 % 0x1_0000_0000) as u32, reading.1)
}

} // verus!
