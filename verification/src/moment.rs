//! Points in time, and the calendar days they fall on.

use chrono::{Datelike, Timelike};
use vstd::prelude::*;

verus! {

/// Nanoseconds in a second.
pub const SECOND: i128 = 1_000_000_000;

/// A point in time: whole seconds since the Unix epoch, and the nanoseconds
/// behind them. A leap second is the second before it with a billion more
/// nanoseconds, as chrono writes it.
#[derive(Debug, Clone, Copy, PartialEq, Eq)]
pub struct Moment {
    pub secs: i64,
    pub nanos: u32,
}

/// The seconds of a moment that RFC 3339 can write lie in this range: four
/// digits of year, and less than a day of offset from UTC either way.
pub const EARLIEST: i64 = -62_167_305_600;
pub const LATEST: i64 = 253_402_387_200;

/// The seconds of a moment that chrono can hold.
pub const FIRST: i64 = -8_334_601_228_800;
pub const LAST: i64 = 8_210_266_876_799;

impl Moment {
    /// A moment of a year that is written with four digits.
    pub open spec fn usable(self) -> bool {
        &&& EARLIEST <= self.secs <= LATEST
        &&& self.nanos < 1_000_000_000 || (self.nanos < 2_000_000_000 && self.secs % 60 == 59)
    }

    /// A moment that chrono can hold: of a year from 262143 before the first to
    /// 262142.
    pub open spec fn representable(self) -> bool {
        &&& FIRST <= self.secs <= LAST
        &&& self.nanos < 1_000_000_000 || (self.nanos < 2_000_000_000 && self.secs % 60 == 59)
    }

    /// A moment that chrono can hold with a day to spare on either side, and
    /// which therefore has a date wherever a machine is.
    pub open spec fn datable(self) -> bool {
        self.representable() && FIRST + 86_400 <= self.secs <= LAST - 86_400
    }

    /// Whether this moment comes after `other`.
    pub open spec fn is_after(self, other: Moment) -> bool {
        self.secs > other.secs || (self.secs == other.secs && self.nanos > other.nanos)
    }

    /// The nanoseconds from `earlier` to this moment. A leap second that lies
    /// between the two times of day counts for a second of its own.
    pub open spec fn since(self, earlier: Moment) -> int {
        let here = self.secs % 86_400;
        let there = earlier.secs % 86_400;
        let leap: int = if here > there && earlier.nanos >= 1_000_000_000 {
            1
        } else if here < there && self.nanos >= 1_000_000_000 {
            -1
        } else {
            0
        };
        (self.secs - earlier.secs + leap) * SECOND + (self.nanos - earlier.nanos)
    }

    /// The whole seconds from `earlier` to this moment, none where `earlier`
    /// is the later of the two by less than one.
    pub open spec fn seconds_since(self, earlier: Moment) -> Option<nat> {
        let n = self.since(earlier);
        if n <= -SECOND {
            None
        } else if n < 0 {
            Some(0)
        } else {
            Some((n / SECOND as int) as nat)
        }
    }

    /// The whole milliseconds from `earlier` to this moment, none of them
    /// negative.
    pub open spec fn millis_since(self, earlier: Moment) -> nat {
        let n = self.since(earlier);
        if n < 0 {
            0
        } else {
            (n / 1_000_000) as nat
        }
    }

    pub fn after(&self, other: &Moment) -> (r: bool)
        ensures
            r == self.is_after(*other),
    {
        self.secs > other.secs || (self.secs == other.secs && self.nanos > other.nanos)
    }

    fn nanos_since(&self, earlier: &Moment) -> (r: i128)
        ensures
            r == self.since(*earlier),
            -0x1_0000_0000_0000_0000_0000_0000 < r < 0x1_0000_0000_0000_0000_0000_0000,
    {
        let here: i64 = time_of_day(self.secs);
        let there: i64 = time_of_day(earlier.secs);
        let mut leap: i128 = 0;
        if here > there && earlier.nanos >= 1_000_000_000 {
            leap = 1;
        } else if here < there && self.nanos >= 1_000_000_000 {
            leap = -1;
        }
        (self.secs as i128 - earlier.secs as i128 + leap) * SECOND + (self.nanos as i128
            - earlier.nanos as i128)
    }

    pub fn secs_since(&self, earlier: &Moment) -> (r: Option<u128>)
        ensures
            match r {
                Some(secs) => self.seconds_since(*earlier) == Some(secs as nat),
                None => self.seconds_since(*earlier) is None,
            },
    {
        let n: i128 = self.nanos_since(earlier);
        if n <= -SECOND {
            None
        } else if n < 0 {
            Some(0)
        } else {
            let secs: i128 = n / SECOND;
            Some(secs as u128)
        }
    }

    pub fn whole_millis_since(&self, earlier: &Moment) -> (r: u128)
        ensures
            r == self.millis_since(*earlier),
    {
        let n: i128 = self.nanos_since(earlier);
        if n < 0 {
            0
        } else {
            (n / 1_000_000) as u128
        }
    }
}

/// Two moments are never so far apart that the seconds between them are more
/// than one over what 64 bits hold.
pub proof fn lemma_seconds_fit(now: Moment, earlier: Moment)
    ensures
        now.seconds_since(earlier) matches Some(secs) ==> secs <= u64::MAX + 5,
{
}

fn time_of_day(secs: i64) -> (r: i64)
    ensures
        r == secs % 86_400,
{
    if secs >= 0 {
        secs % 86_400
    } else {
        // The remainder of a negative number, from that of the number above
        // it that is not.
        let below: i64 = -(secs + 1);
        86_399 - below % 86_400
    }
}

// ── RFC 3339 ─────────────────────────────────────────────────────────

/// The seconds and nanoseconds of the moment that chrono reads in an RFC 3339
/// text, or `None` where it reads none.
pub uninterp spec fn rfc3339(text: Seq<char>) -> Option<(i64, u32)>;

/// `DateTime::parse_from_rfc3339` of chrono, and the `timestamp` and
/// `timestamp_subsec_nanos` of what it gives: what it makes of a text is a
/// function of the text, and a moment in it has a year of four digits.
#[verifier::external_body]
fn parse_rfc3339(text: &str) -> (r: Option<(i64, u32)>)
    ensures
        r == rfc3339(text@),
        r matches Some((secs, nanos)) ==> (Moment { secs, nanos }).usable(),
{
    chrono::DateTime::parse_from_rfc3339(text).ok().map(
        |time| (time.timestamp(), time.timestamp_subsec_nanos()),
    )
}

/// The moment that an RFC 3339 text names.
pub open spec fn named(text: Seq<char>) -> Option<Moment> {
    match rfc3339(text) {
        Some((secs, nanos)) => Some(Moment { secs, nanos }),
        None => None,
    }
}

pub fn parse(text: &str) -> (r: Option<Moment>)
    ensures
        r == named(text@),
        r matches Some(at) ==> at.usable(),
{
    match parse_rfc3339(text) {
        Some((secs, nanos)) => Some(Moment { secs, nanos }),
        None => None,
    }
}

// ── The clock and the calendar ───────────────────────────────────────

/// `Utc::now` of chrono. Of what the clock says, only that chrono can hold it.
#[verifier::external_body]
pub(crate) fn now() -> (r: Moment)
    ensures
        r.representable(),
{
    let time = chrono::Utc::now();
    Moment { secs: time.timestamp(), nanos: time.timestamp_subsec_nanos() }
}

/// Whether a day of the local calendar can be the one that `at` falls on: it
/// is at most one off the day in UTC. Days are counted from the first of the
/// year one.
pub open spec fn may_be_day(number: int, at: Moment) -> bool {
    719_162 <= number - (at.secs as int) / 86_400 <= 719_164
}

/// `DateTime::from_timestamp`, `with_timezone` and `date_naive` of chrono, and
/// `num_days_from_ce` of the date: the day that `at` falls on where this
/// machine is. Which it is depends on the machine's time zone, which is less
/// than a day away from UTC.
#[verifier::external_body]
fn local_day_number(at: Moment) -> (r: i32)
    requires
        at.datable(),
    ensures
        may_be_day(r as int, at),
{
    let time = chrono::DateTime::from_timestamp(at.secs, at.nanos).unwrap();
    time.with_timezone(&chrono::Local).date_naive().num_days_from_ce()
}

/// A day of the calendar.
#[derive(Debug, Clone, Copy, PartialEq, Eq)]
pub struct Day {
    /// Counted from the first of January of the year one, which is day one.
    pub number: i32,
    pub year: i32,
    /// From 1.
    pub month: u32,
    /// From 1.
    pub day: u32,
}

/// The years with a twenty-ninth of February.
pub open spec fn is_leap(year: int) -> bool {
    year % 4 == 0 && (year % 100 != 0 || year % 400 == 0)
}

/// How many days a month has.
pub open spec fn month_days(year: int, month: int) -> int {
    if month == 2 {
        if is_leap(year) {
            29
        } else {
            28
        }
    } else if month == 4 || month == 6 || month == 9 || month == 11 {
        30
    } else {
        31
    }
}

/// How many days of a year lie before a month of it.
pub open spec fn days_before(year: int, month: int) -> int
    decreases month,
{
    if month <= 1 {
        0
    } else {
        days_before(year, month - 1) + month_days(year, month - 1)
    }
}

/// How many days lie between the first of the year one and the first of a year.
pub open spec fn new_year(year: int) -> int {
    let past = year - 1;
    365 * past + past / 4 - past / 100 + past / 400
}

impl Day {
    /// The number and the date are those of one day, by the Gregorian calendar
    /// carried on in both directions.
    pub open spec fn sound(self) -> bool {
        let year = self.year as int;
        let month = self.month as int;
        &&& 1 <= month <= 12
        &&& 1 <= self.day <= month_days(year, month)
        &&& self.number == new_year(year) + days_before(year, month) + self.day
    }
}

/// The days that [`calendar_date`] takes: those that chrono can hold.
pub open spec fn on_calendar(number: int) -> bool {
    -95_746_129 <= number <= 95_745_399
}

/// `NaiveDate::from_num_days_from_ce_opt` of chrono, and the `year`, `month`
/// and `day` of what it gives: the date of the day of that number, by the
/// proleptic Gregorian calendar.
#[verifier::external_body]
fn calendar_date(number: i32) -> (r: Day)
    requires
        on_calendar(number as int),
    ensures
        r.number == number,
        r.sound(),
{
    let date = chrono::NaiveDate::from_num_days_from_ce_opt(number).unwrap();
    Day { number, year: date.year(), month: date.month(), day: date.day() }
}

/// The day that `at` falls on, on this machine's calendar.
pub fn local_day(at: Moment) -> (r: Day)
    requires
        at.datable(),
    ensures
        may_be_day(r.number as int, at),
        r.sound(),
{
    let number: i32 = local_day_number(at);
    calendar_date(number)
}

proof fn lemma_days_before(year: int, month: int)
    requires
        1 <= month <= 12,
    ensures
        0 <= days_before(year, month),
        days_before(year, month) + month_days(year, month) <= (if is_leap(year) {
            366int
        } else {
            365
        }),
{
    reveal_with_fuel(days_before, 12);
}

proof fn lemma_months_in_order(year: int, early: int, late: int)
    requires
        1 <= early < late <= 12,
    ensures
        days_before(year, early) + month_days(year, early) <= days_before(year, late),
    decreases late,
{
    if early < late - 1 {
        lemma_months_in_order(year, early, late - 1);
    }
}

proof fn lemma_years_in_order(early: int, late: int)
    requires
        early < late,
    ensures
        new_year(early) + (if is_leap(early) {
            366int
        } else {
            365
        }) <= new_year(late),
    decreases late - early,
{
    if early < late - 1 {
        lemma_years_in_order(early, late - 1);
        lemma_years_in_order(late - 1, late);
    } else {
        let past = early - 1;
        assert((past + 1) / 4 == past / 4 + (if early % 4 == 0 {
            1int
        } else {
            0
        }));
        assert((past + 1) / 100 == past / 100 + (if early % 100 == 0 {
            1int
        } else {
            0
        }));
        assert((past + 1) / 400 == past / 400 + (if early % 400 == 0 {
            1int
        } else {
            0
        }));
    }
}

proof fn lemma_dates_in_order(a: Day, b: Day)
    requires
        a.sound(),
        b.sound(),
        a.year < b.year || (a.year == b.year && (a.month < b.month || (a.month == b.month && a.day
            < b.day))),
    ensures
        a.number < b.number,
{
    let year = a.year as int;
    lemma_days_before(year, a.month as int);
    lemma_days_before(b.year as int, b.month as int);
    if a.year < b.year {
        lemma_years_in_order(year, b.year as int);
    } else if a.month < b.month {
        lemma_months_in_order(year, a.month as int, b.month as int);
    }
}

/// A day number has one date, and later dates have higher numbers.
pub proof fn law_dates_are_numbered_in_order(a: Day, b: Day)
    requires
        a.sound(),
        b.sound(),
    ensures
        a.number == b.number ==> a == b,
        a.number < b.number <==> (a.year < b.year || (a.year == b.year && (a.month < b.month || (
        a.month == b.month && a.day < b.day)))),
{
    if a.year < b.year || (a.year == b.year && (a.month < b.month || (a.month == b.month && a.day
        < b.day))) {
        lemma_dates_in_order(a, b);
    } else if a != b {
        lemma_dates_in_order(b, a);
    }
}

/// `DateTime::from_timestamp` and `with_timezone` of chrono, and the `hour`,
/// `minute` and `second` of what they give: the time of day that `at` is where
/// this machine is. Which it is depends on the machine's time zone.
#[verifier::external_body]
pub(crate) fn local_time(at: Moment) -> (r: (u32, u32, u32))
    requires
        at.representable(),
    ensures
        r.0 < 24,
        r.1 < 60,
        r.2 < 60,
{
    let time = chrono::DateTime::from_timestamp(at.secs, at.nanos).unwrap();
    let time = time.with_timezone(&chrono::Local);
    (time.hour(), time.minute(), time.second())
}

/// Moments that are whole seconds apart, away from leap seconds.
pub proof fn lemma_apart(now: Moment, earlier: Moment, secs: nat)
    requires
        earlier.nanos < 1_000_000_000,
        now.nanos == earlier.nanos,
        now.secs == earlier.secs + secs,
    ensures
        now.seconds_since(earlier) == Some(secs),
{
    assert(now.since(earlier) == secs * 1_000_000_000);
    assert((secs * 1_000_000_000) / 1_000_000_000 == secs as int);
}

/// Of two moments one is the later, or they are the same; and what is later
/// than what is later is later.
pub proof fn law_moments_are_in_order(a: Moment, b: Moment, c: Moment)
    ensures
        a != b ==> (a.is_after(b) <==> !b.is_after(a)),
        !a.is_after(a),
        a.is_after(b) && b.is_after(c) ==> a.is_after(c),
        a.secs > b.secs ==> a.is_after(b),
        a.secs == b.secs ==> (a.is_after(b) <==> a.nanos > b.nanos),
{
}

/// Away from leap seconds, so many whole seconds lie between two moments as can
/// be added to the earlier without going past the later, and so many
/// milliseconds as their thousandths; none where the later is the earlier, and
/// nothing can be said where it is so by a second or more.
pub proof fn law_time_between_is_counted_whole(now: Moment, earlier: Moment, secs: nat)
    requires
        now.nanos < 1_000_000_000,
        earlier.nanos < 1_000_000_000,
    ensures
        now.seconds_since(earlier) == Some(secs) && (now == earlier || now.is_after(earlier)) ==> {
            let whole = earlier.secs + secs;
            &&& whole < now.secs || (whole == now.secs && earlier.nanos <= now.nanos)
            &&& now.secs < whole + 1 || (now.secs == whole + 1 && now.nanos < earlier.nanos)
        },
        earlier.secs > now.secs + 1 ==> now.seconds_since(earlier) is None,
        now == earlier || now.is_after(earlier) ==> now.seconds_since(earlier) is Some,
        now == earlier ==> now.seconds_since(earlier) == Some(0nat) && now.millis_since(earlier) == 0,
        earlier.is_after(now) ==> now.millis_since(earlier) == 0,
        !earlier.is_after(now) ==> now.millis_since(earlier) == ((now.secs - earlier.secs) * 1000
            + (now.nanos - earlier.nanos) / 1_000_000),
{
    let s = now.secs - earlier.secs;
    let n = now.nanos - earlier.nanos;
    assert(now.since(earlier) == s * 1_000_000_000 + n);
    assert((s * 1_000_000_000 + n) / 1_000_000 == s * 1000 + n / 1_000_000);
}

} // verus!
