//! The system clock.

use std::time::Duration;
use std::time::SystemTimeError;
use vstd::prelude::*;

verus! {

#[verifier::external_type_specification]
#[verifier::external_body]
pub struct ExSystemTimeError(SystemTimeError);

/// The whole seconds that a duration contains, as `Duration::as_secs` counts them.
pub uninterp spec fn whole_seconds(d: Duration) -> u64;

/// `Duration::as_secs` gives the whole seconds of a duration, a number that depends
/// on the duration alone.
pub assume_specification[ Duration::as_secs ](d: &Duration) -> (secs: u64)
    ensures
        secs == whole_seconds(*d),
;

/// `SystemTime::elapsed`, called on the start of Unix time, gives the time
/// since then, or an error where the clock stands before it. Nothing is
/// claimed of the result: it depends on the moment of the call.
#[verifier::external_body]
fn since_epoch() -> Result<Duration, SystemTimeError> {
    std::time::UNIX_EPOCH.elapsed()
}

/// The seconds that a reading of the clock gives: its whole seconds, zero where the
/// clock stands before 1970.
pub open spec fn seconds_in(reading: Result<Duration, SystemTimeError>) -> u64 {
    match reading {
        Ok(d) => whole_seconds(d),
        Err(_) => 0,
    }
}

/// The seconds that a reading of the clock gives.
pub fn seconds_of(reading: Result<Duration, SystemTimeError>) -> (secs: u64)
    ensures
        secs == seconds_in(reading),
{
    match reading {
        Ok(d) => d.as_secs(),
        Err(_) => 0,
    }
}

/// Unix seconds, or zero where the clock stands before 1970: the seconds of a
/// reading of the clock. Which reading that is is not stated: two calls may differ.
pub fn unix_now() -> (secs: u64)
    ensures
        exists|reading: Result<Duration, SystemTimeError>| secs == #[trigger] seconds_in(reading),
{
    seconds_of(since_epoch())
}

/// A reading of the clock gives its whole seconds, and zero where there is none.
pub proof fn law_a_reading_gives_its_seconds(reading: Result<Duration, SystemTimeError>)
    ensures
        forall|secs: u64| #[trigger]
            call_ensures(seconds_of, (reading,), secs) ==> match reading {
                Ok(d) => secs == whole_seconds(d),
                Err(_) => secs == 0,
            },
{
}

} // verus!
