//! The wall clock.

use vstd::prelude::*;
use crate::time::UnixMs;

verus! {

/// `chrono::Utc::now` and `DateTime::timestamp_millis`: milliseconds since the Unix
/// epoch by the system clock. Nothing is claimed of the value, which depends on the
/// machine.
#[verifier::external_body]
pub(crate) fn utc_now_millis() -> i64 {
    chrono::Utc::now().timestamp_millis()
}

/// A time before the epoch as a count of milliseconds: it wraps to the end of the range.
pub open spec fn unsigned(ms: int) -> UnixMs {
    UnixMs(
        if ms >= 0 {
            ms as u64
        } else {
            (ms + 0x1_0000_0000_0000_0000) as u64
        },
    )
}

impl UnixMs {
    /// A number of milliseconds since the epoch, or before it, as a count.
    pub fn from_signed(ms: i64) -> (t: UnixMs)
        ensures
            t == unsigned(ms as int),
    {
        if ms >= 0 {
            UnixMs(ms as u64)
        } else {
            let back: i64 = -1 - ms;
            UnixMs(u64::MAX - (back as u64))
        }
    }

    /// The current time.
    pub fn now() -> (t: UnixMs)
        ensures
            exists|ms: i64| t == #[trigger] unsigned(ms as int),
    {
        let ms = utc_now_millis();
        UnixMs::from_signed(ms)
    }
}

} // verus!
