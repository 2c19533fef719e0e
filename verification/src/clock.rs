//! The wall clock.

use vstd::prelude::*;

verus! {

/// A reading of the system clock.
#[verifier::external_type_specification]
#[verifier::external_body]
pub struct ExSystemTime(std::time::SystemTime);

/// `SystemTime::now`: whatever the clock shows.
pub assume_specification[ std::time::SystemTime::now ]() -> std::time::SystemTime;

/// `SystemTime::duration_since` the Unix epoch; nothing for a reading before the epoch. Neither a
/// reading nor a duration has a value to state this over.
#[verifier::external_body]
fn since_epoch(t: std::time::SystemTime) -> Option<std::time::Duration> {
    t.duration_since(std::time::UNIX_EPOCH).ok()
}

/// `Duration::as_micros`: the whole microseconds of a duration.
pub assume_specification[ std::time::Duration::as_micros ](d: &std::time::Duration) -> u128;

/// The low 64 bits of a count of microseconds, and 0 for none.
pub fn micros_or_zero(micros: Option<u128>) -> (r: u64)
    ensures
        r == (match micros {
            Some(m) => m as int % 0x1_0000_0000_0000_0000,
            None => 0,
        }),
{
    match micros {
        Some(m) => (m % 0x1_0000_0000_0000_0000) as u64,
        None => 0,
    }
}

/// Microseconds since the Unix epoch, by the system clock; 0 where the clock is before the epoch.
/// Two readings need not be in order.
pub fn now_micros() -> u64 {
    let micros: Option<u128> = match since_epoch(std::time::SystemTime::now()) {
        Some(d) => Some(d.as_micros()),
        None => None,
    };
    micros_or_zero(micros)
}

} // verus!
