//! Instants on the UTC clock and the civil time of New York.
//!
//! New York keeps UTC-5 in winter and UTC-4 in summer. Summer time begins on
//! the second Sunday of March and ends on the first Sunday of November, both
//! at two o'clock on the local clock: 07:00 UTC in March, 06:00 UTC in
//! November.

use crate::calendar::{
    days_in_month, lemma_day_of_year_bounds, ymd, CalendarDate, Month, Weekday, Ymd, MAX_YEAR,
    MIN_YEAR,
};
use vstd::prelude::*;

verus! {

/// Day number of 1970-01-01, the day on which Unix time starts.
pub open spec fn unix_epoch_day() -> int {
    719528
}

/// Mathematical model of an instant: a date and a time of day, in UTC.
pub struct Clock {
    pub date: Ymd,
    pub hour: int,
    pub minute: int,
    pub second: int,
}

impl Clock {
    /// A date of the calendar and a time of day.
    pub open spec fn valid(self) -> bool {
        &&& self.date.valid()
        &&& 0 <= self.hour < 24
        &&& 0 <= self.minute < 60
        &&& 0 <= self.second < 60
    }

    /// Seconds since 1970-01-01 00:00:00 UTC.
    pub open spec fn unix_seconds(self) -> int {
        (self.date.day_number() - unix_epoch_day()) * 86400 + self.hour * 3600 + self.minute * 60
            + self.second
    }

    /// Whether the instant is at or after the start of the given hour of
    /// the given day of its own year.
    pub open spec fn at_or_after(self, month: int, day: int, hour: int) -> bool {
        self.date.month > month || (self.date.month == month && (self.date.day > day || (
        self.date.day == day && self.hour >= hour)))
    }

    /// Whether New York keeps summer time at this instant.
    pub open spec fn in_daylight_time(self) -> bool {
        &&& self.at_or_after(3, daylight_start_day(self.date.year), 7)
        &&& !self.at_or_after(11, daylight_end_day(self.date.year), 6)
    }

    /// Hours that New York's clock differs from UTC at this instant.
    pub open spec fn ny_offset(self) -> int {
        if self.in_daylight_time() {
            -4
        } else {
            -5
        }
    }

    /// Day number of the date that New York's calendar shows at this
    /// instant.
    pub open spec fn ny_day_number(self) -> int {
        if self.hour + self.ny_offset() < 0 {
            self.date.day_number() - 1
        } else {
            self.date.day_number()
        }
    }
}

/// Day of the month on which the given weekday falls for the `n`th time.
/// Weekdays are counted from Monday, which is 0.
pub open spec fn nth_weekday_day(year: int, month: int, weekday: int, n: int) -> int {
    1 + (weekday - ymd(year, month, 1).weekday_index() + 7) % 7 + 7 * (n - 1)
}

/// Day of March on which summer time begins: the second Sunday.
pub open spec fn daylight_start_day(year: int) -> int {
    nth_weekday_day(year, 3, 6, 2)
}

/// Day of November on which summer time ends: the first Sunday.
pub open spec fn daylight_end_day(year: int) -> int {
    nth_weekday_day(year, 11, 6, 1)
}

/// The `n`th occurrence of a weekday in a month falls on that weekday, is
/// preceded in the month by exactly `n - 1` days of the same weekday, and no
/// other day of the month has both properties.
pub proof fn lemma_nth_weekday(year: int, month: int, weekday: int, n: int, other: int)
    requires
        0 <= weekday < 7,
        1 <= n,
    ensures
        ymd(year, month, nth_weekday_day(year, month, weekday, n)).weekday_index() == weekday,
        7 * (n - 1) < nth_weekday_day(year, month, weekday, n) <= 7 * n,
        ymd(year, month, other).weekday_index() == weekday && 7 * (n - 1) < other <= 7 * n
            ==> other == nth_weekday_day(year, month, weekday, n),
{
    let first = ymd(year, month, 1).day_number();
    let day = nth_weekday_day(year, month, weekday, n);
    assert(ymd(year, month, day).day_number() == first + day - 1);
    assert(ymd(year, month, other).day_number() == first + other - 1);
}

/// An instant on the UTC clock, to the second.
#[derive(Clone, Copy, Debug, PartialEq, Eq, Structural)]
pub struct UtcInstant {
    date: CalendarDate,
    hour: u8,
    minute: u8,
    second: u8,
}

impl View for UtcInstant {
    type V = Clock;

    closed spec fn view(&self) -> Clock {
        Clock {
            date: self.date@,
            hour: self.hour as int,
            minute: self.minute as int,
            second: self.second as int,
        }
    }
}

impl UtcInstant {
    #[verifier::type_invariant]
    pub open spec fn well_formed(self) -> bool {
        self@.valid()
    }

    /// The instant at the given time of the given day, if the time is one
    /// of the day.
    pub fn new(date: CalendarDate, hour: u8, minute: u8, second: u8) -> (r: Option<UtcInstant>)
        ensures
            r is Some <==> hour < 24 && minute < 60 && second < 60,
            r matches Some(t) ==> t@.date == date@ && t@.hour == hour && t@.minute == minute
                && t@.second == second,
    {
        proof {
            use_type_invariant(&date);
        }
        if hour < 24 && minute < 60 && second < 60 {
            Some(UtcInstant { date, hour, minute, second })
        } else {
            None
        }
    }

    /// The instant with the given components, if they name a date of the
    /// calendar and a time of day.
    pub fn from_components(
        year: i32,
        month: u8,
        day: u8,
        hour: u8,
        minute: u8,
        second: u8,
    ) -> (r: Option<UtcInstant>)
        ensures
            r is Some <==> ymd(year as int, month as int, day as int).valid() && hour < 24 && minute
                < 60 && second < 60,
            r matches Some(t) ==> t@.date == ymd(year as int, month as int, day as int) && t@.hour
                == hour && t@.minute == minute && t@.second == second,
    {
        match CalendarDate::from_ymd(year, month, day) {
            Some(date) => UtcInstant::new(date, hour, minute, second),
            None => None,
        }
    }

    /// The date on the UTC calendar.
    pub fn date(&self) -> (d: CalendarDate)
        ensures
            d@ == self@.date,
            self@.valid(),
    {
        proof {
            use_type_invariant(self);
        }
        self.date
    }

    /// The hour of the day.
    pub fn hour(&self) -> (h: u8)
        ensures
            h == self@.hour,
            self@.valid(),
    {
        proof {
            use_type_invariant(self);
        }
        self.hour
    }

    /// The minute of the hour.
    pub fn minute(&self) -> (m: u8)
        ensures
            m == self@.minute,
            self@.valid(),
    {
        proof {
            use_type_invariant(self);
        }
        self.minute
    }

    /// The second of the minute.
    pub fn second(&self) -> (s: u8)
        ensures
            s == self@.second,
            self@.valid(),
    {
        proof {
            use_type_invariant(self);
        }
        self.second
    }

    /// Seconds since 1970-01-01 00:00:00 UTC.
    pub fn unix_timestamp(&self) -> (seconds: i64)
        ensures
            seconds == self@.unix_seconds(),
    {
        proof {
            use_type_invariant(self);
        }
        let day: i64 = self.date.day_number() as i64;
        (day - 719528) * 86400 + (self.hour as i64) * 3600 + (self.minute as i64) * 60 + (
        self.second as i64)
    }
}

/// The date on which a weekday falls for the `n`th time in a month, if the
/// year is one of the calendar and the month has that many.
pub fn nth_weekday_of_month(year: i32, month: Month, weekday: Weekday, n: u8) -> (r: Option<
    CalendarDate,
>)
    ensures
        r is Some <==> MIN_YEAR <= year <= MAX_YEAR && 1 <= n && nth_weekday_day(
            year as int,
            month.number(),
            weekday.index(),
            n as int,
        ) <= days_in_month(year as int, month.number()),
        r matches Some(d) ==> d@ == ymd(
            year as int,
            month.number(),
            nth_weekday_day(year as int, month.number(), weekday.index(), n as int),
        ),
{
    if n < 1 {
        return None;
    }
    let first = match CalendarDate::from_calendar_date(year, month, 1) {
        Some(d) => d,
        None => {
            return None;
        },
    };
    let from: u8 = first.weekday().number_days_from_monday();
    let to: u8 = weekday.number_days_from_monday();
    let day: u32 = 1 + ((to + 7 - from) % 7) as u32 + 7 * ((n - 1) as u32);
    if day > 31 {
        return None;
    }
    CalendarDate::from_calendar_date(year, month, day as u8)
}

/// New York's offset from UTC at an instant in March.
fn march_offset(utc: &UtcInstant) -> (hours: i8)
    requires
        utc@.date.month == 3,
    ensures
        hours == utc@.ny_offset(),
{
    let date = utc.date();
    let start = nth_weekday_of_month(date.year(), Month::March, Weekday::Sunday, 2);
    proof {
        lemma_nth_weekday(date@.year, 3, 6, 2, 0);
    }
    match start {
        Some(second_sunday) => {
            let day: u8 = second_sunday.day();
            if date.day() > day || (date.day() == day && utc.hour() >= 7) {
                -4
            } else {
                -5
            }
        },
        None => unreached(),
    }
}

/// New York's offset from UTC at an instant in November.
fn november_offset(utc: &UtcInstant) -> (hours: i8)
    requires
        utc@.date.month == 11,
    ensures
        hours == utc@.ny_offset(),
{
    let date = utc.date();
    let end = nth_weekday_of_month(date.year(), Month::November, Weekday::Sunday, 1);
    proof {
        lemma_nth_weekday(date@.year, 11, 6, 1, 0);
    }
    match end {
        Some(first_sunday) => {
            let day: u8 = first_sunday.day();
            if date.day() > day || (date.day() == day && utc.hour() >= 6) {
                -5
            } else {
                -4
            }
        },
        None => unreached(),
    }
}

/// Hours that New York's clock differs from UTC at the given instant: -4
/// while summer time is kept, -5 otherwise.
pub fn get_current_ny_offset(now: &UtcInstant) -> (hours: i8)
    ensures
        hours == now@.ny_offset(),
        hours == -4 || hours == -5,
{
    let month = now.date().month();
    proof {
        lemma_nth_weekday(now@.date.year, 3, 6, 2, 0);
        lemma_nth_weekday(now@.date.year, 11, 6, 1, 0);
    }
    match month {
        Month::March => march_offset(now),
        Month::November => november_offset(now),
        Month::December => -5,
        Month::January => -5,
        Month::February => -5,
        Month::April => -4,
        Month::May => -4,
        Month::June => -4,
        Month::July => -4,
        Month::August => -4,
        Month::September => -4,
        Month::October => -4,
    }
}

/// A time on New York's clock.
#[derive(Clone, Copy, Debug, PartialEq, Eq, Structural)]
pub struct RegionalTime {
    /// The date that New York's calendar shows.
    pub date: CalendarDate,
    /// The hour of the day.
    pub hour: u8,
    /// The minute of the hour.
    pub minute: u8,
    /// The second of the minute.
    pub second: u8,
    /// Hours that the clock differs from UTC.
    pub offset_hours: i8,
}

/// Noon of the day that New York's calendar shows at the given instant,
/// with the minute and second of the instant. None when that day lies
/// before the first date of the calendar.
pub fn today_at(now: &UtcInstant) -> (r: Option<RegionalTime>)
    ensures
        r is None <==> now@.ny_day_number() < 0,
        r matches Some(t) ==> {
            &&& t.date@.valid()
            &&& t.date@.day_number() == now@.ny_day_number()
            &&& t.offset_hours == now@.ny_offset()
            &&& t.hour == 12
            &&& t.minute == now@.minute
            &&& t.second == now@.second
        },
{
    let offset: i8 = get_current_ny_offset(now);
    let utc_date = now.date();
    proof {
        lemma_day_of_year_bounds(utc_date@);
    }
    let date = if (now.hour() as i8) + offset < 0 {
        match utc_date.previous_day() {
            Some(d) => d,
            None => {
                return None;
            },
        }
    } else {
        utc_date
    };
    proof {
        use_type_invariant(&date);
        lemma_day_of_year_bounds(date@);
    }
    Some(
        RegionalTime {
            date,
            hour: 12,
            minute: now.minute(),
            second: now.second(),
            offset_hours: offset,
        },
    )
}

/// Reads the system clock through `time::OffsetDateTime::now_utc` and hands
/// back the year, month, day, hour, minute and second of the UTC date and
/// time it reports. Nothing is claimed of the values: the caller checks
/// them.
#[verifier::external_body]
fn clock_components() -> (r: (i32, u8, u8, u8, u8, u8)) {
    let now = time::OffsetDateTime::now_utc();
    (now.year(), u8::from(now.month()), now.day(), now.hour(), now.minute(), now.second())
}

/// The present instant, if the system clock shows a date of the calendar.
pub fn now_utc() -> (r: Option<UtcInstant>)
    ensures
        r matches Some(t) ==> t@.valid(),
{
    let (year, month, day, hour, minute, second) = clock_components();
    UtcInstant::from_components(year, month, day, hour, minute, second)
}

/// Noon of the present day in New York, if the system clock shows a date of
/// the calendar.
pub fn today() -> (r: Option<RegionalTime>)
    ensures
        r matches Some(t) ==> t.date@.valid() && t.hour == 12 && (t.offset_hours == -4
            || t.offset_hours == -5),
{
    match now_utc() {
        Some(now) => today_at(&now),
        None => None,
    }
}

} // verus!
