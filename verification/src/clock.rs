//! The time of day.

use vstd::prelude::*;

verus! {

/// Calls `SystemTime::now` and `duration_since(UNIX_EPOCH)`: the milliseconds
/// since the epoch, or none where the clock stands before it. Nothing is claimed
/// of the number.
#[verifier::external_body]
fn system_millis() -> (r: Option<u128>) {
    std::time::SystemTime::now().duration_since(std::time::UNIX_EPOCH).ok().map(|d| d.as_millis())
}

/// The timestamp for a reading of the clock: its low 64 bits, and 0 where the
/// clock stands before the epoch.
pub open spec fn timestamp_of(reading: Option<u128>) -> u64 {
    match reading {
        Some(ms) => (ms % 0x1_0000_0000_0000_0000) as u64,
        None => 0,
    }
}

/// Computes [`timestamp_of`] a reading.
pub fn timestamp_ms(reading: Option<u128>) -> (r: u64)
    ensures
        r == timestamp_of(reading),
{
    match reading {
        Some(ms) => (ms % 0x1_0000_0000_0000_0000) as u64,
        None => 0,
    }
}

/// Get current timestamp in milliseconds.
pub fn now_ms() -> (r: u64)
    ensures
        exists|reading: Option<u128>| r == #[trigger] timestamp_of(reading),
{
    let reading = system_millis();
    timestamp_ms(reading)
}

/// A reading of the clock that fits is the timestamp itself; a later one starts over, and
/// before the epoch there is only zero.
pub proof fn law_timestamps(ms: u128)
    ensures
        ms < 0x1_0000_0000_0000_0000 ==> timestamp_of(Some(ms)) == ms,
        ms <= u128::MAX - 0x1_0000_0000_0000_0000 ==> timestamp_of(Some((ms + 0x1_0000_0000_0000_0000) as u128))
            == timestamp_of(Some(ms)),
        timestamp_of(None) == 0,
{
}

} // verus!
