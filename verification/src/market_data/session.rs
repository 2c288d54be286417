//! Trading sessions and the ranges of time they stand for.

use vstd::prelude::*;
use vstd::string::*;
use crate::clock::{unsigned, utc_now_millis};
use crate::market_data::range::MarketDataRange;
use crate::text::{decimal, push_decimal, same_text};
use crate::time::UnixMs;

verus! {

/// The first day of the calendar, counted from the first of January 1970.
pub const FIRST_DAY: i32 = -96_465_292;

/// The last day of the calendar.
pub const LAST_DAY: i32 = 95_026_236;

/// Milliseconds of an hour.
pub const HOUR_MS: i64 = 3_600_000;

/// Milliseconds of a day.
pub const DAY_MS: i64 = 86_400_000;

/// True for a day of the calendar.
pub open spec fn in_calendar(day: int) -> bool {
    FIRST_DAY <= day <= LAST_DAY
}

/// The milliseconds since the epoch at an hour of a day, in UTC.
pub open spec fn moment(day: int, hour: int) -> int {
    day * DAY_MS + hour * HOUR_MS
}

/// The day of a timestamp.
pub open spec fn day_of(ms: int) -> int {
    ms / (DAY_MS as int)
}

/// The hour of a timestamp.
pub open spec fn hour_of(ms: int) -> int {
    (ms / (HOUR_MS as int)) % 24
}

/// `chrono::DateTime::from_timestamp_millis` with `DateTime::date_naive`,
/// `NaiveDate::to_epoch_days` and `Timelike::hour`: the day and the hour, in UTC, of a number of
/// milliseconds since the epoch. There are none outside the calendar, which goes from the year
/// -262143 to the year 262142.
#[verifier::external_body]
fn utc_parts(ms: i64) -> (r: Option<(i32, u32)>)
    ensures
        match r {
            Some((day, hour)) => in_calendar(day_of(ms as int)) && day == day_of(ms as int) && hour
                == hour_of(ms as int),
            None => !in_calendar(day_of(ms as int)),
        },
{
    chrono::DateTime::from_timestamp_millis(ms).map(
        |t| (t.date_naive().to_epoch_days(), chrono::Timelike::hour(&t)),
    )
}

/// `chrono::NaiveDate::from_epoch_days` with `NaiveDate::and_hms_opt`, `NaiveDateTime::and_utc`
/// and `DateTime::timestamp_millis`: the milliseconds since the epoch at a full hour of a day, in
/// UTC. There are none for a day outside the calendar, nor for an hour past 23.
#[verifier::external_body]
fn utc_millis(day: i32, hour: u32) -> (r: Option<i64>)
    ensures
        match r {
            Some(ms) => in_calendar(day as int) && hour <= 23 && ms == moment(
                day as int,
                hour as int,
            ),
            None => !in_calendar(day as int) || hour > 23,
        },
{
    chrono::NaiveDate::from_epoch_days(day).and_then(|d| d.and_hms_opt(hour, 0, 0)).map(
        |t| t.and_utc().timestamp_millis(),
    )
}

/// A text in lower case.
pub uninterp spec fn lowercase(s: Seq<char>) -> Seq<char>;

/// True for a character of the ASCII alphabet.
pub open spec fn is_ascii_char(c: char) -> bool {
    (c as u32) < 128
}

/// A character of the ASCII alphabet in lower case.
pub open spec fn ascii_lower(c: char) -> char {
    if 'A' <= c && c <= 'Z' {
        ((c as u32) + 32) as char
    } else {
        c
    }
}

/// `str::to_lowercase`: the lower case of a text. Of a text of ASCII characters alone it is the
/// one in which the letters `A` to `Z` become `a` to `z`.
#[verifier::external_body]
fn to_lowercase(s: &str) -> (r: String)
    ensures
        r@ == lowercase(s@),
        (forall|i: int| 0 <= i < s@.len() ==> is_ascii_char(#[trigger] s@[i])) ==> r@
            == s@.map_values(|c: char| ascii_lower(c)),
{
    s.to_lowercase()
}

/// A day of the calendar.
#[derive(Debug, Clone, Copy, PartialEq, Eq)]
pub struct Day {
    number: i32,
}

impl View for Day {
    type V = int;

    closed spec fn view(&self) -> int {
        self.number as int
    }
}

impl Day {
    #[verifier::type_invariant]
    spec fn inv(self) -> bool {
        in_calendar(self.number as int)
    }

    /// The day that is `number` days after the first of January 1970.
    pub fn new(number: i32) -> (d: Option<Self>)
        ensures
            d is Some <==> in_calendar(number as int),
            d matches Some(day) ==> day@ == number,
    {
        if FIRST_DAY <= number && number <= LAST_DAY {
            Some(Day { number })
        } else {
            None
        }
    }

    /// The first of January 1970.
    pub fn epoch() -> (d: Self)
        ensures
            d@ == 0,
    {
        Day { number: 0 }
    }

    /// The next day, where there is one.
    pub fn succ(self) -> (d: Self)
        ensures
            in_calendar(self@),
            d@ == if self@ < LAST_DAY {
                self@ + 1
            } else {
                self@
            },
    {
        proof {
            use_type_invariant(self);
        }
        if self.number < LAST_DAY {
            Day { number: self.number + 1 }
        } else {
            self
        }
    }

    /// The day before, where there is one.
    pub fn pred(self) -> (d: Self)
        ensures
            in_calendar(self@),
            d@ == if self@ > FIRST_DAY {
                self@ - 1
            } else {
                self@
            },
    {
        proof {
            use_type_invariant(self);
        }
        if self.number > FIRST_DAY {
            Day { number: self.number - 1 }
        } else {
            self
        }
    }

    /// The milliseconds since the epoch at a full hour of the day.
    fn at(self, hour: u32) -> (ms: i64)
        requires
            hour < 24,
        ensures
            ms == moment(self@, hour as int),
    {
        proof {
            use_type_invariant(self);
        }
        match utc_millis(self.number, hour) {
            Some(ms) => ms,
            None => 0,
        }
    }
}

/// A day and an hour of it, in UTC.
#[derive(Debug, Clone, Copy, PartialEq, Eq)]
pub struct UtcTime {
    pub day: Day,
    pub hour: u8,
}

/// A count of milliseconds as a signed number: beyond half of the range it counts from the epoch
/// backwards.
pub open spec fn signed(ts: UnixMs) -> int {
    if ts.0 <= i64::MAX {
        ts.0 as int
    } else {
        ts.0 - 0x1_0000_0000_0000_0000
    }
}

fn to_signed(ts: UnixMs) -> (ms: i64)
    ensures
        ms == signed(ts),
{
    if ts.0 <= i64::MAX as u64 {
        ts.0 as i64
    } else {
        let back: u64 = u64::MAX - ts.0;
        -1 - (back as i64)
    }
}

impl UtcTime {
    /// True for a time with an hour of the day.
    pub open spec fn wf(self) -> bool {
        self.hour < 24 && in_calendar(self.day@)
    }

    /// The day and the hour of a number of milliseconds since the epoch. There are none outside
    /// the calendar.
    pub fn from_millis(ms: i64) -> (t: Option<Self>)
        ensures
            t is Some <==> in_calendar(day_of(ms as int)),
            t matches Some(time) ==> time.wf() && time.day@ == day_of(ms as int) && time.hour
                == hour_of(ms as int),
    {
        match utc_parts(ms) {
            Some((number, hour)) => match Day::new(number) {
                Some(day) => Some(UtcTime { day, hour: hour as u8 }),
                None => None,
            },
            None => None,
        }
    }

    /// The first hour of the first of January 1970.
    pub fn epoch() -> (t: Self)
        ensures
            t.wf(),
            t.day@ == 0,
            t.hour == 0,
    {
        UtcTime { day: Day::epoch(), hour: 0 }
    }

    /// The current day and hour.
    pub fn now() -> (t: Self)
        ensures
            t.wf(),
    {
        match UtcTime::from_millis(utc_now_millis()) {
            Some(t) => t,
            None => UtcTime::epoch(),
        }
    }
}

/// A trading session: a window of hours, in UTC, that recurs each day.
#[derive(Debug, Clone, Copy, PartialEq, Eq, Hash, Structural)]
pub enum Session {
    /// From midnight to 8 o'clock.
    Asian,
    /// From 8 to 16 o'clock.
    London,
    /// From 13 to 21 o'clock.
    NewYork,
    /// The whole day.
    Daily,
    /// Between two hours of choice.
    Custom { from_hour: u8, to_hour: u8 },
}

impl Session {
    /// The first hour of the session, and the hour at which it is over.
    pub open spec fn window(self) -> (u8, u8) {
        match self {
            Session::Asian => (0, 8),
            Session::London => (8, 16),
            Session::NewYork => (13, 21),
            Session::Daily => (0, 24),
            Session::Custom { from_hour, to_hour } => (from_hour, to_hour),
        }
    }

    /// When the session of a day starts. An hour that the day does not have counts as midnight.
    pub open spec fn opens(self, day: int) -> int {
        moment(
            day,
            if self.window().0 < 24 {
                self.window().0 as int
            } else {
                0
            },
        )
    }

    /// When the session of a day is over: at the end of the day, where it goes on until then.
    pub open spec fn closes(self, day: int) -> int {
        if self.window().1 >= 24 {
            moment(
                if day < LAST_DAY {
                    day + 1
                } else {
                    day
                },
                0,
            )
        } else {
            moment(day, self.window().1 as int)
        }
    }

    /// The range of the session of a day.
    pub open spec fn range_on(self, day: int) -> MarketDataRange {
        MarketDataRange { from: unsigned(self.opens(day)), to: unsigned(self.closes(day)) }
    }

    /// The day whose session is the current one, or else the next.
    pub open spec fn current_or_next_day(self, t: UtcTime) -> int {
        let (from, to) = self.window();
        if t.hour >= from && t.hour >= to && to < 24 && t.day@ < LAST_DAY {
            t.day@ + 1
        } else {
            t.day@
        }
    }

    /// The day whose session is the current one, or else the last.
    pub open spec fn current_or_last_day(self, t: UtcTime) -> int {
        if t.hour < self.window().0 && t.day@ > FIRST_DAY {
            t.day@ - 1
        } else {
            t.day@
        }
    }

    /// Its name.
    pub open spec fn name(self) -> Seq<char> {
        match self {
            Session::Asian => "Asian"@,
            Session::London => "London"@,
            Session::NewYork => "New York"@,
            Session::Daily => "Daily"@,
            Session::Custom { from_hour, to_hour } => "Custom ("@ + decimal(from_hour as nat)
                + ":00-"@ + decimal(to_hour as nat) + ":00 UTC)"@,
        }
    }

    /// The session with a name in lower case.
    pub open spec fn named(name: Seq<char>) -> Option<Session> {
        if name == "asian"@ {
            Some(Session::Asian)
        } else if name == "london"@ {
            Some(Session::London)
        } else if name == "new_york"@ || name == "newyork"@ || name == "ny"@ {
            Some(Session::NewYork)
        } else if name == "daily"@ {
            Some(Session::Daily)
        } else {
            None
        }
    }

    /// The first hour of the session, and the hour at which it is over.
    pub fn hours(&self) -> (h: (u8, u8))
        ensures
            h == self.window(),
    {
        match self {
            Session::Asian => (0, 8),
            Session::London => (8, 16),
            Session::NewYork => (13, 21),
            Session::Daily => (0, 24),
            Session::Custom { from_hour, to_hour } => (*from_hour, *to_hour),
        }
    }

    /// The range of the session of a day.
    pub fn resolve_range(&self, date: Day) -> (r: MarketDataRange)
        ensures
            r == self.range_on(date@),
    {
        let (from_hour, to_hour) = self.hours();
        let from = date.at(
            if from_hour < 24 {
                from_hour as u32
            } else {
                0
            },
        );
        let to = if to_hour >= 24 {
            date.succ().at(0)
        } else {
            date.at(to_hour as u32)
        };
        MarketDataRange::new_unchecked(UnixMs::from_signed(from), UnixMs::from_signed(to))
    }

    /// When the session starts that is the current one, or else the next.
    pub fn current_or_next_session_start(&self, now: UtcTime) -> (t: UnixMs)
        ensures
            t == unsigned(self.opens(self.current_or_next_day(now))),
    {
        let (from_hour, to_hour) = self.hours();
        let next = now.day.succ();
        if now.hour >= from_hour && !(now.hour < to_hour || to_hour >= 24) {
            self.resolve_range(next).from
        } else {
            self.resolve_range(now.day).from
        }
    }

    /// When the session started that is the current one, or else the last.
    pub fn current_session_start_ms(&self, now: UtcTime) -> (t: UnixMs)
        ensures
            t == unsigned(self.opens(self.current_or_last_day(now))),
    {
        let (from_hour, _) = self.hours();
        let last = now.day.pred();
        if now.hour >= from_hour {
            self.resolve_range(now.day).from
        } else {
            self.resolve_range(last).from
        }
    }

    /// Its name.
    pub fn display_name(&self) -> (s: String)
        ensures
            s@ == self.name(),
    {
        match self {
            Session::Asian => String::from_str("Asian"),
            Session::London => String::from_str("London"),
            Session::NewYork => String::from_str("New York"),
            Session::Daily => String::from_str("Daily"),
            Session::Custom { from_hour, to_hour } => {
                let mut s = String::from_str("Custom (");
                push_decimal(&mut s, *from_hour as u64);
                s.append(":00-");
                push_decimal(&mut s, *to_hour as u64);
                s.append(":00 UTC)");
                s
            },
        }
    }

    /// The session with a name in lower case.
    pub fn from_lowercase(name: &str) -> (s: Option<Self>)
        ensures
            s == Session::named(name@),
    {
        if same_text(name, "asian") {
            Some(Session::Asian)
        } else if same_text(name, "london") {
            Some(Session::London)
        } else if same_text(name, "new_york") || same_text(name, "newyork") || same_text(
            name,
            "ny",
        ) {
            Some(Session::NewYork)
        } else if same_text(name, "daily") {
            Some(Session::Daily)
        } else {
            None
        }
    }

    /// The session with a name, in upper or lower case.
    pub fn parse(name: &str) -> (s: Option<Self>)
        ensures
            s == Session::named(lowercase(name@)),
            (forall|i: int| 0 <= i < name@.len() ==> is_ascii_char(#[trigger] name@[i])) ==> s
                == Session::named(name@.map_values(|c: char| ascii_lower(c))),
    {
        Session::from_lowercase(to_lowercase(name).as_str())
    }
}

/// The named sessions that an hour belongs to, but for the whole day.
pub open spec fn sessions_at(hour: int) -> Seq<Session> {
    seq![Session::Asian, Session::London, Session::NewYork].filter(
        |s: Session| s.window().0 <= hour < s.window().1,
    )
}

/// The first named session that an hour belongs to.
pub open spec fn session_at(hour: int) -> Session {
    if hour < 8 {
        Session::Asian
    } else if hour < 16 {
        Session::London
    } else if hour < 21 && hour >= 13 {
        Session::NewYork
    } else {
        Session::Daily
    }
}

/// The session that a day and an hour belong to, and its day. Between sessions it is the next one,
/// the Asian one of the next day.
pub open spec fn current_at(day: int, hour: int) -> (Session, int) {
    if session_at(hour) is Daily {
        (
            Session::Asian,
            if day < LAST_DAY {
                day + 1
            } else {
                day
            },
        )
    } else {
        (session_at(hour), day)
    }
}

fn session_at_hour(hour: u8) -> (s: Session)
    ensures
        s == session_at(hour as int),
{
    if hour < 8 {
        Session::Asian
    } else if hour < 16 {
        Session::London
    } else if hour < 21 {
        Session::NewYork
    } else {
        Session::Daily
    }
}

/// Finds the sessions of timestamps, and the ranges of sessions.
pub struct SessionResolver;

impl SessionResolver {
    /// The named sessions.
    pub fn standard_sessions() -> (s: Vec<Session>)
        ensures
            s@ == seq![Session::Asian, Session::London, Session::NewYork, Session::Daily],
    {
        let mut s: Vec<Session> = Vec::new();
        s.push(Session::Asian);
        s.push(Session::London);
        s.push(Session::NewYork);
        s.push(Session::Daily);
        assert(s@ =~= seq![Session::Asian, Session::London, Session::NewYork, Session::Daily]);
        s
    }

    /// The first named session that a timestamp belongs to. There is none outside the calendar.
    pub fn session_for_timestamp(ts: UnixMs) -> (s: Option<Session>)
        ensures
            s == if in_calendar(day_of(signed(ts))) {
                Some(session_at(hour_of(signed(ts))))
            } else {
                None::<Session>
            },
    {
        match UtcTime::from_millis(to_signed(ts)) {
            Some(t) => Some(session_at_hour(t.hour)),
            None => None,
        }
    }

    /// All named sessions that a timestamp belongs to, or else the whole day.
    pub fn sessions_for_timestamp(ts: UnixMs) -> (r: Vec<Session>)
        ensures
            r@ == if in_calendar(day_of(signed(ts))) && sessions_at(hour_of(signed(ts))).len() > 0 {
                sessions_at(hour_of(signed(ts)))
            } else {
                seq![Session::Daily]
            },
    {
        let mut sessions: Vec<Session> = Vec::new();
        match UtcTime::from_millis(to_signed(ts)) {
            Some(t) => {
                let ghost all = seq![Session::Asian, Session::London, Session::NewYork];
                let ghost p = |s: Session| s.window().0 <= t.hour < s.window().1;
                proof {
                    crate::seqs::lemma_filter_take(all, 0, p);
                    crate::seqs::lemma_filter_take(all, 1, p);
                    crate::seqs::lemma_filter_take(all, 2, p);
                    reveal(Seq::filter);
                    assert(all.take(0).filter(p) =~= Seq::empty());
                    assert(all.take(3) =~= all);
                    assert(p =~= (|s: Session|
                        s.window().0 <= hour_of(signed(ts)) < s.window().1));
                }
                if t.hour < 8 {
                    sessions.push(Session::Asian);
                }
                if t.hour >= 8 && t.hour < 16 {
                    sessions.push(Session::London);
                }
                if t.hour >= 13 && t.hour < 21 {
                    sessions.push(Session::NewYork);
                }
                assert(sessions@ =~= all.filter(p));
            },
            None => {},
        }
        if sessions.len() == 0 {
            sessions.push(Session::Daily);
            assert(sessions@ =~= seq![Session::Daily]);
        }
        sessions
    }

    /// The range of a session of a day.
    pub fn resolve(session: Session, date: Day) -> (r: MarketDataRange)
        ensures
            r == session.range_on(date@),
    {
        session.resolve_range(date)
    }

    /// The first named session that a timestamp belongs to, or else the next one, and its range.
    /// A timestamp outside the calendar counts as the epoch.
    pub fn resolve_current(ts: UnixMs) -> (r: (Session, MarketDataRange))
        ensures
            ({
                let ms = if in_calendar(day_of(signed(ts))) {
                    signed(ts)
                } else {
                    0
                };
                let (session, day) = current_at(day_of(ms), hour_of(ms));
                r == (session, session.range_on(day))
            }),
    {
        let t = match UtcTime::from_millis(to_signed(ts)) {
            Some(t) => t,
            None => UtcTime::epoch(),
        };
        let session = session_at_hour(t.hour);
        if session == Session::Daily {
            (Session::Asian, Session::Asian.resolve_range(t.day.succ()))
        } else {
            (session, session.resolve_range(t.day))
        }
    }

    /// The range of the session of the current day.
    pub fn today(session: Session) -> (r: MarketDataRange)
        ensures
            exists|t: UtcTime| t.wf() && r == #[trigger] session.range_on(t.day@),
    {
        let now = UtcTime::now();
        assert(now.wf());
        session.resolve_range(now.day)
    }

    /// The range of the session that is the current one at a time, or else the next.
    pub fn current_or_next_at(session: Session, now: UtcTime) -> (r: MarketDataRange)
        requires
            session.window().0 <= 24,
            session.window().1 < 24 ==> session.window().0 <= session.window().1,
        ensures
            r == session.current_or_next_range(now),
    {
        let start = session.current_or_next_session_start(now);
        let (from_hour, to_hour) = session.hours();
        let hours: u64 = if to_hour >= 24 {
            24 - from_hour as u64
        } else {
            (to_hour - from_hour) as u64
        };
        MarketDataRange::new_unchecked(start, start.saturating_add(hours * 3_600_000))
    }

    /// The range of the session that is the current one, or else the next.
    pub fn current_or_next(session: Session) -> (r: MarketDataRange)
        requires
            session.window().0 <= 24,
            session.window().1 < 24 ==> session.window().0 <= session.window().1,
        ensures
            exists|t: UtcTime| t.wf() && r == #[trigger] session.current_or_next_range(t),
    {
        let now = UtcTime::now();
        SessionResolver::current_or_next_at(session, now)
    }
}

impl Session {
    /// How many hours the session lasts.
    pub open spec fn length(self) -> int {
        let (from, to) = self.window();
        if to >= 24 {
            24 - from
        } else {
            to - from
        }
    }

    /// The range of the session that is the current one at a time, or else the next.
    pub open spec fn current_or_next_range(self, t: UtcTime) -> MarketDataRange {
        let start = unsigned(self.opens(self.current_or_next_day(t)));
        let end = start.0 + self.length() * HOUR_MS;
        MarketDataRange {
            from: start,
            to: UnixMs(
                if end <= u64::MAX {
                    end as u64
                } else {
                    u64::MAX
                },
            ),
        }
    }
}

/// From the epoch on, the range of a session lasts as many hours as the session does.
pub proof fn law_session_length(session: Session, day: int)
    requires
        0 <= day < LAST_DAY,
        session.window().0 < 24,
        session.window().0 < session.window().1,
    ensures
        session.range_on(day).valid(),
        session.range_on(day).span() == session.length() * HOUR_MS,
{
}

/// Each timestamp from the epoch on lies in the range of its session. The current session is that
/// one, or starts later where the timestamp lies between sessions: it is never over.
pub proof fn law_timestamp_lies_in_its_session(ts: UnixMs)
    requires
        ts.0 <= i64::MAX,
        day_of(ts.0 as int) < LAST_DAY,
    ensures
        session_at(hour_of(ts.0 as int)).range_on(day_of(ts.0 as int)).covers(ts.0 as int),
        ({
            let (session, day) = current_at(day_of(ts.0 as int), hour_of(ts.0 as int));
            if sessions_at(hour_of(ts.0 as int)).len() > 0 {
                session.range_on(day).covers(ts.0 as int)
            } else {
                session.range_on(day).from.0 > ts.0
            }
        }),
{
    let ms = ts.0 as int;
    let day = day_of(ms);
    let hour = hour_of(ms);
    assert(ms / 3_600_000 == day * 24 + hour) by (nonlinear_arith)
        requires
            day == ms / 86_400_000,
            hour == (ms / 3_600_000) % 24,
            ms >= 0,
    ;
    assert(moment(day, hour) <= ms < moment(day, hour + 1)) by (nonlinear_arith)
        requires
            ms / 3_600_000 == day * 24 + hour,
            moment(day, hour) == day * 86_400_000 + hour * 3_600_000,
            moment(day, hour + 1) == day * 86_400_000 + (hour + 1) * 3_600_000,
            ms >= 0,
    ;
    assert(moment(day, 24) == moment(day + 1, 0)) by (nonlinear_arith)
        requires
            moment(day, 24) == day * 86_400_000 + 24 * 3_600_000,
            moment(day + 1, 0) == (day + 1) * 86_400_000 + 0 * 3_600_000,
    ;
    let all = seq![Session::Asian, Session::London, Session::NewYork];
    let p = |s: Session| s.window().0 <= hour < s.window().1;
    if session_at(hour) is Daily {
        if all.filter(p).len() > 0 {
            let s = all.filter(p)[0];
            all.lemma_filter_pred(p, 0);
            assert(all.filter(p).contains(s));
            all.lemma_filter_contains_rev(p, s);
        }
    } else {
        let i: int = if hour < 8 {
            0
        } else if hour < 16 {
            1
        } else {
            2
        };
        assert(all[i] == session_at(hour));
        all.lemma_filter_contains(p, i);
    }
}

/// The sessions of a day follow one another: the Asian one ends when the one of London starts,
/// and each day ends when the next one starts.
pub proof fn law_sessions_follow(day: int)
    requires
        0 <= day < LAST_DAY - 1,
    ensures
        Session::Asian.range_on(day).to == Session::London.range_on(day).from,
        Session::Daily.range_on(day).to == Session::Daily.range_on(day + 1).from,
        Session::Daily.range_on(day).encloses(Session::Asian.range_on(day)),
        Session::Daily.range_on(day).encloses(Session::London.range_on(day)),
        Session::Daily.range_on(day).encloses(Session::NewYork.range_on(day)),
{
}

/// From the epoch on, the session of a day goes from its first hour to the hour at which it is
/// over, at the latest to the end of the day.
pub proof fn law_session_hours(session: Session, day: int)
    requires
        0 <= day < LAST_DAY,
        session.window().0 < 24,
    ensures
        session.range_on(day).from.0 == day * 86_400_000 + session.window().0 * 3_600_000,
        session.range_on(day).to.0 == day * 86_400_000 + (if session.window().1 < 24 {
            session.window().1 as int
        } else {
            24
        }) * 3_600_000,
{
}

/// The hour that a time lies in, of the day that it lies in.
proof fn lemma_hour_bounds(ms: int)
    requires
        ms >= 0,
    ensures
        day_of(ms) * 86_400_000 + hour_of(ms) * 3_600_000 <= ms,
        ms < day_of(ms) * 86_400_000 + (hour_of(ms) + 1) * 3_600_000,
        0 <= hour_of(ms) < 24,
        day_of(ms) >= 0,
{
    let day = day_of(ms);
    let hour = hour_of(ms);
    assert(ms / 3_600_000 == day * 24 + hour) by (nonlinear_arith)
        requires
            day == ms / 86_400_000,
            hour == (ms / 3_600_000) % 24,
            ms >= 0,
    ;
    assert(day * 86_400_000 + hour * 3_600_000 <= ms < day * 86_400_000 + (hour + 1) * 3_600_000)
        by (nonlinear_arith)
        requires
            ms / 3_600_000 == day * 24 + hour,
            ms >= 0,
    ;
}

/// The current or next session is the first one that is not over: it ends later than now, and the
/// one of the day before is over by now.
pub proof fn law_first_session_not_over(session: Session, t: UtcTime, ms: int)
    requires
        t.wf(),
        ms >= 0,
        t.day@ == ms / 86_400_000,
        t.hour == (ms / 3_600_000) % 24,
        t.day@ < LAST_DAY - 1,
        session.window().0 < session.window().1 <= 24,
    ensures
        ({
            let r = session.current_or_next_range(t);
            let (from, to) = session.window();
            &&& unsigned(session.opens(session.current_or_next_day(t))) == r.from
            &&& r.to.0 > ms
            &&& r.to.0 - 86_400_000 <= ms
            &&& r.to.0 - r.from.0 == (to - from) * 3_600_000
            &&& (r.from.0 - from * 3_600_000) % 86_400_000 == 0
        }),
        forall|day: int|
            0 <= day < LAST_DAY && (#[trigger] session.range_on(day)).to.0 > ms
                ==> session.range_on(day).from.0 >= session.current_or_next_range(t).from.0,
{
    lemma_hour_bounds(ms);
    let (from, to) = session.window();
    let chosen = session.current_or_next_day(t);
    let r = session.current_or_next_range(t);
    assert(r.from.0 == chosen * 86_400_000 + from * 3_600_000);
    assert(r.to.0 == chosen * 86_400_000 + to * 3_600_000);
    assert((r.from.0 - from * 3_600_000) % 86_400_000 == 0) by (nonlinear_arith)
        requires
            r.from.0 == chosen * 86_400_000 + from * 3_600_000,
    ;
    assert forall|day: int|
        0 <= day < LAST_DAY && (#[trigger] session.range_on(day)).to.0
            > ms implies session.range_on(day).from.0 >= r.from.0 by {
        law_session_hours(session, day);
        if day < chosen {
            assert(day * 86_400_000 <= (chosen - 1) * 86_400_000);
        }
    }
}

/// The current or last session is the last one that has started: it starts no later than now, and
/// the one of the next day starts later.
pub proof fn law_last_session_started(session: Session, t: UtcTime, ms: int)
    requires
        t.wf(),
        ms >= 86_400_000,
        t.day@ == ms / 86_400_000,
        t.hour == (ms / 3_600_000) % 24,
        session.window().0 < 24,
    ensures
        ({
            let start = unsigned(session.opens(session.current_or_last_day(t)));
            &&& start.0 <= ms
            &&& start.0 + 86_400_000 > ms
            &&& (start.0 - session.window().0 * 3_600_000) % 86_400_000 == 0
        }),
{
    lemma_hour_bounds(ms);
    let from = session.window().0;
    let chosen = session.current_or_last_day(t);
    let start = unsigned(session.opens(chosen));
    assert(chosen >= 0);
    assert(start.0 == chosen * 86_400_000 + from * 3_600_000);
    assert((start.0 - from * 3_600_000) % 86_400_000 == 0) by (nonlinear_arith)
        requires
            start.0 == chosen * 86_400_000 + from * 3_600_000,
    ;
}

/// An hour belongs to exactly those named sessions that have started and are not over, and the one
/// that counts is the first of them, or else the whole day.
pub proof fn law_sessions_of_an_hour(hour: int, s: Session)
    requires
        0 <= hour < 24,
    ensures
        sessions_at(hour).contains(s) <==> (s is Asian || s is London || s is NewYork)
            && s.window().0 <= hour < s.window().1,
        session_at(hour) == if sessions_at(hour).len() > 0 {
            sessions_at(hour)[0]
        } else {
            Session::Daily
        },
        sessions_at(hour).contains(s) && session_at(hour) != s ==> session_at(hour).window().0
            < s.window().0,
        sessions_at(hour).no_duplicates(),
{
    let all = seq![Session::Asian, Session::London, Session::NewYork];
    let p = |s: Session| s.window().0 <= hour < s.window().1;
    crate::seqs::lemma_filter_take(all, 0, p);
    crate::seqs::lemma_filter_take(all, 1, p);
    crate::seqs::lemma_filter_take(all, 2, p);
    reveal(Seq::filter);
    assert(all.take(0).filter(p) =~= Seq::empty());
    assert(all.take(3) =~= all);
    let own = sessions_at(hour);
    if hour < 8 {
        assert(own =~= seq![Session::Asian]);
        assert(own[0] == Session::Asian);
    } else if hour < 13 {
        assert(own =~= seq![Session::London]);
        assert(own[0] == Session::London);
    } else if hour < 16 {
        assert(own =~= seq![Session::London, Session::NewYork]);
        assert(own[0] == Session::London && own[1] == Session::NewYork);
    } else if hour < 21 {
        assert(own =~= seq![Session::NewYork]);
        assert(own[0] == Session::NewYork);
    } else {
        assert(own =~= Seq::<Session>::empty());
    }
}

/// Between sessions the current session is the first one to come: no named session starts earlier
/// than it but after the timestamp.
pub proof fn law_next_session_is_the_first_to_come(ts: UnixMs, other: Session, day: int)
    requires
        ts.0 <= i64::MAX,
        day_of(ts.0 as int) < LAST_DAY - 1,
        0 <= day < LAST_DAY,
        other is Asian || other is London || other is NewYork,
        other.range_on(day).from.0 > ts.0,
    ensures
        ({
            let (session, own) = current_at(day_of(ts.0 as int), hour_of(ts.0 as int));
            session.range_on(own).from.0 > ts.0 ==> session.range_on(own).from.0 <= other.range_on(
                day,
            ).from.0
        }),
{
    let ms = ts.0 as int;
    lemma_hour_bounds(ms);
    let (session, own) = current_at(day_of(ms), hour_of(ms));
    law_session_hours(session, own);
    law_session_hours(other, day);
    law_timestamp_lies_in_its_session(ts);
    let today = day_of(ms);
    if session.range_on(own).from.0 > ts.0 {
        if day < today {
            assert(day * 86_400_000 <= (today - 1) * 86_400_000);
        } else if day > today {
            assert(day * 86_400_000 >= (today + 1) * 86_400_000);
        }
    }
}

} // verus!
