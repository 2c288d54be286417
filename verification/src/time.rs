//! Timestamps and candle widths.

use vstd::prelude::*;
use vstd::string::*;
use crate::text::{law_two_digits_read_back, number_of, push_two_digits, two_digits};

verus! {

/// Milliseconds since the Unix epoch.
#[derive(Debug, Clone, Copy, PartialEq, Eq, PartialOrd, Ord, Hash, Structural)]
pub struct UnixMs(pub u64);

/// The larger of two timestamps.
pub open spec fn later(a: UnixMs, b: UnixMs) -> UnixMs {
    if a.0 >= b.0 {
        a
    } else {
        b
    }
}

/// The smaller of two timestamps.
pub open spec fn earlier(a: UnixMs, b: UnixMs) -> UnixMs {
    if a.0 <= b.0 {
        a
    } else {
        b
    }
}

/// The time of day of `ms` in UTC as `HH:MM:SS`.
pub open spec fn clock_text(ms: nat) -> Seq<char> {
    let s = ms / 1000;
    two_digits((s / 3600) % 24) + seq![':'] + two_digits((s / 60) % 60) + seq![':'] + two_digits(s % 60)
}

impl UnixMs {
    /// Wraps a count of milliseconds.
    pub fn new(ms: u64) -> (t: Self)
        ensures
            t.0 == ms,
    {
        UnixMs(ms)
    }

    /// The count of milliseconds.
    pub fn as_u64(self) -> (ms: u64)
        ensures
            ms == self.0,
    {
        self.0
    }

    /// This many milliseconds later, at most the last timestamp there is.
    pub fn saturating_add(self, ms: u64) -> (t: Self)
        ensures
            t.0 == if self.0 + ms <= u64::MAX {
                self.0 + ms
            } else {
                u64::MAX as int
            },
    {
        UnixMs(self.0.saturating_add(ms))
    }

    /// This many milliseconds earlier, at least the epoch.
    pub fn saturating_sub(self, ms: u64) -> (t: Self)
        ensures
            t.0 == if self.0 >= ms {
                self.0 - ms
            } else {
                0
            },
    {
        UnixMs(self.0.saturating_sub(ms))
    }

    /// The milliseconds from `earlier` to `self`, 0 when `earlier` is not earlier.
    pub fn saturating_diff(self, earlier: Self) -> (ms: u64)
        ensures
            ms == if self.0 >= earlier.0 {
                self.0 - earlier.0
            } else {
                0
            },
    {
        self.0.saturating_sub(earlier.0)
    }

    /// The larger of two timestamps.
    pub fn later_of(self, other: Self) -> (t: Self)
        ensures
            t == later(self, other),
    {
        if self.0 >= other.0 {
            self
        } else {
            other
        }
    }

    /// The smaller of two timestamps.
    pub fn earlier_of(self, other: Self) -> (t: Self)
        ensures
            t == earlier(self, other),
    {
        if self.0 <= other.0 {
            self
        } else {
            other
        }
    }
}

/// The time of day of `t` in UTC as `HH:MM:SS`.
pub fn format_time_short(t: UnixMs) -> (s: String)
    ensures
        s@ == clock_text(t.0 as nat),
{
    proof {
        reveal_strlit(":");
    }
    let secs: u64 = t.0 / 1000;
    let mut out = String::new();
    push_two_digits(&mut out, (secs / 3600) % 24);
    out.append(":");
    push_two_digits(&mut out, (secs / 60) % 60);
    out.append(":");
    push_two_digits(&mut out, secs % 60);
    assert(out@ =~= clock_text(t.0 as nat));
    out
}

/// The width of one candle.
#[derive(Debug, Clone, Copy, PartialEq, Eq, PartialOrd, Ord, Hash, Structural)]
pub enum Timeframe {
    MS100,
    MS200,
    MS300,
    MS500,
    MS1000,
    M1,
    M3,
    M5,
    M15,
    M30,
    H1,
    H2,
    H4,
    H12,
    D1,
}

impl Timeframe {
    /// The width in milliseconds.
    pub open spec fn millis(self) -> nat {
        match self {
            Timeframe::MS100 => 100,
            Timeframe::MS200 => 200,
            Timeframe::MS300 => 300,
            Timeframe::MS500 => 500,
            Timeframe::MS1000 => 1_000,
            Timeframe::M1 => 60_000,
            Timeframe::M3 => 180_000,
            Timeframe::M5 => 300_000,
            Timeframe::M15 => 900_000,
            Timeframe::M30 => 1_800_000,
            Timeframe::H1 => 3_600_000,
            Timeframe::H2 => 7_200_000,
            Timeframe::H4 => 14_400_000,
            Timeframe::H12 => 43_200_000,
            Timeframe::D1 => 86_400_000,
        }
    }

    /// The short name, such as `5m`.
    pub open spec fn name(self) -> Seq<char> {
        match self {
            Timeframe::MS100 => "100ms"@,
            Timeframe::MS200 => "200ms"@,
            Timeframe::MS300 => "300ms"@,
            Timeframe::MS500 => "500ms"@,
            Timeframe::MS1000 => "1s"@,
            Timeframe::M1 => "1m"@,
            Timeframe::M3 => "3m"@,
            Timeframe::M5 => "5m"@,
            Timeframe::M15 => "15m"@,
            Timeframe::M30 => "30m"@,
            Timeframe::H1 => "1h"@,
            Timeframe::H2 => "2h"@,
            Timeframe::H4 => "4h"@,
            Timeframe::H12 => "12h"@,
            Timeframe::D1 => "1d"@,
        }
    }

    /// The width in milliseconds.
    pub fn to_milliseconds(self) -> (ms: u64)
        ensures
            ms == self.millis(),
            ms > 0,
    {
        match self {
            Timeframe::MS100 => 100,
            Timeframe::MS200 => 200,
            Timeframe::MS300 => 300,
            Timeframe::MS500 => 500,
            Timeframe::MS1000 => 1_000,
            Timeframe::M1 => 60_000,
            Timeframe::M3 => 180_000,
            Timeframe::M5 => 300_000,
            Timeframe::M15 => 900_000,
            Timeframe::M30 => 1_800_000,
            Timeframe::H1 => 3_600_000,
            Timeframe::H2 => 7_200_000,
            Timeframe::H4 => 14_400_000,
            Timeframe::H12 => 43_200_000,
            Timeframe::D1 => 86_400_000,
        }
    }

    /// The short name, such as `5m`.
    pub fn label(self) -> (s: &'static str)
        ensures
            s@ == self.name(),
    {
        match self {
            Timeframe::MS100 => "100ms",
            Timeframe::MS200 => "200ms",
            Timeframe::MS300 => "300ms",
            Timeframe::MS500 => "500ms",
            Timeframe::MS1000 => "1s",
            Timeframe::M1 => "1m",
            Timeframe::M3 => "3m",
            Timeframe::M5 => "5m",
            Timeframe::M15 => "15m",
            Timeframe::M30 => "30m",
            Timeframe::H1 => "1h",
            Timeframe::H2 => "2h",
            Timeframe::H4 => "4h",
            Timeframe::H12 => "12h",
            Timeframe::D1 => "1d",
        }
    }
}

/// The width of a candle is the number in its name, of the unit in its name: a minute has sixty
/// seconds, an hour sixty minutes, a day twenty-four hours.
pub proof fn law_widths_follow_their_units()
    ensures
        Timeframe::MS1000.millis() == 1_000,
        Timeframe::M1.millis() == 60 * Timeframe::MS1000.millis(),
        Timeframe::M3.millis() == 3 * Timeframe::M1.millis(),
        Timeframe::M5.millis() == 5 * Timeframe::M1.millis(),
        Timeframe::M15.millis() == 15 * Timeframe::M1.millis(),
        Timeframe::M30.millis() == 30 * Timeframe::M1.millis(),
        Timeframe::H1.millis() == 60 * Timeframe::M1.millis(),
        Timeframe::H2.millis() == 2 * Timeframe::H1.millis(),
        Timeframe::H4.millis() == 4 * Timeframe::H1.millis(),
        Timeframe::H12.millis() == 12 * Timeframe::H1.millis(),
        Timeframe::D1.millis() == 24 * Timeframe::H1.millis(),
{
}

/// The later of two times is one of them, and neither is later; the earlier likewise.
pub proof fn law_later_and_earlier(a: UnixMs, b: UnixMs)
    ensures
        later(a, b) == a || later(a, b) == b,
        later(a, b).0 >= a.0 && later(a, b).0 >= b.0,
        earlier(a, b) == a || earlier(a, b) == b,
        earlier(a, b).0 <= a.0 && earlier(a, b).0 <= b.0,
{
}

/// The time of day is told in hours, minutes and seconds, which together make up the seconds of the
/// day.
pub proof fn law_clock_tells_the_time_of_day(ms: nat)
    ensures
        clock_text(ms).len() == 8,
        clock_text(ms)[2] == ':' && clock_text(ms)[5] == ':',
        3_600 * number_of(clock_text(ms).subrange(0, 2)) + 60 * number_of(
            clock_text(ms).subrange(3, 5),
        ) + number_of(clock_text(ms).subrange(6, 8)) == (ms / 1_000) % 86_400,
        number_of(clock_text(ms).subrange(0, 2)) < 24,
        number_of(clock_text(ms).subrange(3, 5)) < 60,
        number_of(clock_text(ms).subrange(6, 8)) < 60,
{
    let s = ms / 1000;
    let h = (s / 3600) % 24;
    let m = (s / 60) % 60;
    let c = s % 60;
    law_two_digits_read_back(h);
    law_two_digits_read_back(m);
    law_two_digits_read_back(c);
    let t = clock_text(ms);
    assert(t.subrange(0, 2) =~= two_digits(h));
    assert(t.subrange(3, 5) =~= two_digits(m));
    assert(t.subrange(6, 8) =~= two_digits(c));
    assert(3_600 * h + 60 * m + c == s % 86_400);
}

} // verus!
