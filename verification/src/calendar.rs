//! Dates of the proleptic Gregorian calendar, years 0 through 9999.
//!
//! Every date is modelled by its year, month and day ([`Ymd`]) and by its
//! day number: the count of days since 0000-01-01. All arithmetic on dates is
//! stated over day numbers and proved against the definitions below.

use vstd::prelude::*;

verus! {

/// First year the calendar covers.
pub const MIN_YEAR: i32 = 0;

/// Last year the calendar covers.
pub const MAX_YEAR: i32 = 9999;

/// Gregorian leap-year rule.
pub open spec fn is_leap_year(year: int) -> bool {
    year % 4 == 0 && (year % 100 != 0 || year % 400 == 0)
}

/// One in a leap year, zero otherwise.
pub open spec fn leap_day(year: int) -> int {
    if is_leap_year(year) {
        1
    } else {
        0
    }
}

/// Length of a year in days.
pub open spec fn days_in_year(year: int) -> int {
    365 + leap_day(year)
}

/// Length of a month in days.
pub open spec fn days_in_month(year: int, month: int) -> int {
    if month == 2 {
        28 + leap_day(year)
    } else if month == 4 || month == 6 || month == 9 || month == 11 {
        30
    } else {
        31
    }
}

/// Days in the years `0..year`.
pub open spec fn days_before_year(year: int) -> int
    decreases year,
{
    if year <= 0 {
        0
    } else {
        days_before_year(year - 1) + days_in_year(year - 1)
    }
}

/// Days in the months `1..month` of `year`.
pub open spec fn days_before_month(year: int, month: int) -> int
    decreases month,
{
    if month <= 1 {
        0
    } else {
        days_before_month(year, month - 1) + days_in_month(year, month - 1)
    }
}

/// Leap years among `0..year`, in closed form.
pub open spec fn leap_years_before(year: int) -> int {
    (year + 3) / 4 - (year + 99) / 100 + (year + 399) / 400
}

/// Weekday of a day number, Monday being 0 and Sunday 6. Day 0, the first of
/// January of year 0, is a Saturday.
pub open spec fn weekday_index_of(day_number: int) -> int {
    (day_number + 5) % 7
}

/// Whether a day number falls on a Sunday.
pub open spec fn is_sunday(day_number: int) -> bool {
    weekday_index_of(day_number) == 6
}

/// Mathematical model of a date.
pub struct Ymd {
    pub year: int,
    pub month: int,
    pub day: int,
}

/// The model with the given components.
pub open spec fn ymd(year: int, month: int, day: int) -> Ymd {
    Ymd { year, month, day }
}

impl Ymd {
    /// A date of the calendar: the year is covered, the month exists and the
    /// day exists in that month.
    pub open spec fn valid(self) -> bool {
        &&& MIN_YEAR <= self.year <= MAX_YEAR
        &&& 1 <= self.month <= 12
        &&& 1 <= self.day <= days_in_month(self.year, self.month)
    }

    /// Days since 0000-01-01.
    pub open spec fn day_number(self) -> int {
        days_before_year(self.year) + days_before_month(self.year, self.month) + self.day - 1
    }

    /// Weekday, Monday being 0.
    pub open spec fn weekday_index(self) -> int {
        weekday_index_of(self.day_number())
    }

    /// Chronological order, read off the components.
    pub open spec fn precedes(self, other: Ymd) -> bool {
        self.year < other.year || (self.year == other.year && (self.month < other.month || (
        self.month == other.month && self.day < other.day)))
    }

    /// The date one day later, by month and year rollover.
    pub open spec fn successor(self) -> Ymd {
        if self.day < days_in_month(self.year, self.month) {
            ymd(self.year, self.month, self.day + 1)
        } else if self.month < 12 {
            ymd(self.year, self.month + 1, 1)
        } else {
            ymd(self.year + 1, 1, 1)
        }
    }

    /// The date one day earlier.
    pub open spec fn predecessor(self) -> Ymd {
        if self.day > 1 {
            ymd(self.year, self.month, self.day - 1)
        } else if self.month > 1 {
            ymd(self.year, self.month - 1, days_in_month(self.year, self.month - 1))
        } else {
            ymd(self.year - 1, 12, 31)
        }
    }
}

/// The last date of the calendar.
pub open spec fn last_date() -> Ymd {
    ymd(MAX_YEAR as int, 12, 31)
}

/// The first date of the calendar.
pub open spec fn first_date() -> Ymd {
    ymd(MIN_YEAR as int, 1, 1)
}

proof fn lemma_leap_years_step(year: int)
    requires
        0 <= year,
    ensures
        leap_years_before(year + 1) == leap_years_before(year) + leap_day(year),
{
    let a = (year + 3) / 4;
    let b = (year + 99) / 100;
    let c = (year + 399) / 400;
    assert((year + 4) / 4 == a + (if year % 4 == 0 { 1int } else { 0int }));
    assert((year + 100) / 100 == b + (if year % 100 == 0 { 1int } else { 0int }));
    assert((year + 400) / 400 == c + (if year % 400 == 0 { 1int } else { 0int }));
    assert(year % 400 == 0 ==> year % 100 == 0);
    assert(year % 100 == 0 ==> year % 4 == 0);
}

/// The days before a year, counted year by year, equal the closed form.
pub proof fn lemma_days_before_year_closed(year: int)
    requires
        0 <= year,
    ensures
        days_before_year(year) == 365 * year + leap_years_before(year),
    decreases year,
{
    if year > 0 {
        lemma_days_before_year_closed(year - 1);
        lemma_leap_years_step(year - 1);
    }
}

/// The days before each month, as a table.
pub proof fn lemma_days_before_month(year: int)
    ensures
        days_before_month(year, 1) == 0,
        days_before_month(year, 2) == 31,
        days_before_month(year, 3) == 59 + leap_day(year),
        days_before_month(year, 4) == 90 + leap_day(year),
        days_before_month(year, 5) == 120 + leap_day(year),
        days_before_month(year, 6) == 151 + leap_day(year),
        days_before_month(year, 7) == 181 + leap_day(year),
        days_before_month(year, 8) == 212 + leap_day(year),
        days_before_month(year, 9) == 243 + leap_day(year),
        days_before_month(year, 10) == 273 + leap_day(year),
        days_before_month(year, 11) == 304 + leap_day(year),
        days_before_month(year, 12) == 334 + leap_day(year),
        days_before_month(year, 13) == days_in_year(year),
{
    reveal_with_fuel(days_before_month, 14);
}

/// Later years start on later days, at least a year's length apart.
pub proof fn lemma_days_before_year_grows(earlier: int, later: int)
    requires
        0 <= earlier < later,
    ensures
        days_before_year(earlier) + days_in_year(earlier) <= days_before_year(later),
    decreases later - earlier,
{
    if earlier + 1 < later {
        lemma_days_before_year_grows(earlier, later - 1);
    }
}

/// A valid date lies within its year.
pub proof fn lemma_day_of_year_bounds(d: Ymd)
    requires
        d.valid(),
    ensures
        0 <= days_before_month(d.year, d.month) + d.day - 1 < days_in_year(d.year),
        0 <= d.day_number(),
        d.day_number() <= last_date().day_number(),
        last_date().day_number() == 3652424,
{
    lemma_days_before_month(d.year);
    lemma_days_before_month(9999);
    lemma_days_before_year_closed(9999);
    if d.year < 9999 {
        lemma_days_before_year_grows(d.year, 9999);
    }
    lemma_days_before_year_closed(d.year);
}

/// The day number orders valid dates as the calendar does.
pub proof fn lemma_day_number_order(a: Ymd, b: Ymd)
    requires
        a.valid(),
        b.valid(),
    ensures
        a.precedes(b) <==> a.day_number() < b.day_number(),
        a == b <==> a.day_number() == b.day_number(),
{
    lemma_days_before_month(a.year);
    lemma_days_before_month(b.year);
    lemma_day_of_year_bounds(a);
    lemma_day_of_year_bounds(b);
    if a.year < b.year {
        lemma_days_before_year_grows(a.year, b.year);
    } else if b.year < a.year {
        lemma_days_before_year_grows(b.year, a.year);
    }
}

/// The calendar successor of a valid date other than the last is valid and
/// has the next day number.
pub proof fn lemma_successor(d: Ymd)
    requires
        d.valid(),
        d != last_date(),
    ensures
        d.successor().valid(),
        d.successor().day_number() == d.day_number() + 1,
{
    lemma_days_before_month(d.year);
    lemma_days_before_month(d.year + 1);
    assert(days_before_year(d.year + 1) == days_before_year(d.year) + days_in_year(d.year));
}

/// The calendar predecessor of a valid date other than the first is valid
/// and has the previous day number.
pub proof fn lemma_predecessor(d: Ymd)
    requires
        d.valid(),
        d != first_date(),
    ensures
        d.predecessor().valid(),
        d.predecessor().day_number() == d.day_number() - 1,
{
    lemma_days_before_month(d.year);
    lemma_days_before_month(d.year - 1);
    if d.year > 0 {
        assert(days_before_year(d.year) == days_before_year(d.year - 1) + days_in_year(
            d.year - 1,
        ));
    }
}

/// Day of the week.
#[derive(Clone, Copy, Debug, PartialEq, Eq, Structural, Hash)]
pub enum Weekday {
    Monday,
    Tuesday,
    Wednesday,
    Thursday,
    Friday,
    Saturday,
    Sunday,
}

impl Weekday {
    /// Position in the week, Monday being 0.
    pub open spec fn index(self) -> int {
        match self {
            Weekday::Monday => 0,
            Weekday::Tuesday => 1,
            Weekday::Wednesday => 2,
            Weekday::Thursday => 3,
            Weekday::Friday => 4,
            Weekday::Saturday => 5,
            Weekday::Sunday => 6,
        }
    }

    /// Position in the week, Monday being 0.
    pub fn number_days_from_monday(self) -> (n: u8)
        ensures
            n == self.index(),
    {
        match self {
            Weekday::Monday => 0,
            Weekday::Tuesday => 1,
            Weekday::Wednesday => 2,
            Weekday::Thursday => 3,
            Weekday::Friday => 4,
            Weekday::Saturday => 5,
            Weekday::Sunday => 6,
        }
    }
}

/// Month of the year.
#[derive(Clone, Copy, Debug, PartialEq, Eq, Structural, Hash)]
pub enum Month {
    January,
    February,
    March,
    April,
    May,
    June,
    July,
    August,
    September,
    October,
    November,
    December,
}

impl Month {
    /// Number of the month, January being 1.
    pub open spec fn number(self) -> int {
        match self {
            Month::January => 1,
            Month::February => 2,
            Month::March => 3,
            Month::April => 4,
            Month::May => 5,
            Month::June => 6,
            Month::July => 7,
            Month::August => 8,
            Month::September => 9,
            Month::October => 10,
            Month::November => 11,
            Month::December => 12,
        }
    }

    /// Number of the month, January being 1.
    pub fn to_number(self) -> (n: u8)
        ensures
            n == self.number(),
    {
        match self {
            Month::January => 1,
            Month::February => 2,
            Month::March => 3,
            Month::April => 4,
            Month::May => 5,
            Month::June => 6,
            Month::July => 7,
            Month::August => 8,
            Month::September => 9,
            Month::October => 10,
            Month::November => 11,
            Month::December => 12,
        }
    }

    /// The month with the given number; none outside 1 to 12.
    pub fn from_number(n: u8) -> (r: Option<Month>)
        ensures
            r is Some <==> 1 <= n <= 12,
            r matches Some(m) ==> m.number() == n,
    {
        match n {
            1 => Some(Month::January),
            2 => Some(Month::February),
            3 => Some(Month::March),
            4 => Some(Month::April),
            5 => Some(Month::May),
            6 => Some(Month::June),
            7 => Some(Month::July),
            8 => Some(Month::August),
            9 => Some(Month::September),
            10 => Some(Month::October),
            11 => Some(Month::November),
            12 => Some(Month::December),
            _ => None,
        }
    }
}

fn leap_year(year: i32) -> (r: bool)
    requires
        0 <= year,
    ensures
        r == is_leap_year(year as int),
{
    year % 4 == 0 && (year % 100 != 0 || year % 400 == 0)
}

fn month_length(year: i32, month: u8) -> (n: u8)
    requires
        0 <= year,
    ensures
        n == days_in_month(year as int, month as int),
{
    if month == 2 {
        if leap_year(year) {
            29
        } else {
            28
        }
    } else if month == 4 || month == 6 || month == 9 || month == 11 {
        30
    } else {
        31
    }
}

/// A date of the calendar. Immutable; always valid.
#[derive(Clone, Copy, Debug, PartialEq, Eq, Structural, PartialOrd, Ord, Hash)]
pub struct CalendarDate {
    year: i32,
    month: u8,
    day: u8,
}

impl View for CalendarDate {
    type V = Ymd;

    closed spec fn view(&self) -> Ymd {
        ymd(self.year as int, self.month as int, self.day as int)
    }
}

impl CalendarDate {
    #[verifier::type_invariant]
    pub open spec fn well_formed(self) -> bool {
        self@.valid()
    }

    /// Two dates with the same model are the same date.
    pub proof fn lemma_view_injective(a: CalendarDate, b: CalendarDate)
        requires
            a@ == b@,
        ensures
            a == b,
    {
    }

    /// The date with the given components, if there is one.
    pub fn from_ymd(year: i32, month: u8, day: u8) -> (r: Option<CalendarDate>)
        ensures
            r is Some <==> ymd(year as int, month as int, day as int).valid(),
            r matches Some(d) ==> d@ == ymd(year as int, month as int, day as int),
    {
        if year < MIN_YEAR || year > MAX_YEAR || month < 1 || month > 12 || day < 1 {
            return None;
        }
        if day > month_length(year, month) {
            return None;
        }
        Some(CalendarDate { year, month, day })
    }

    /// The date with the given year, month and day of the month, if there is
    /// one.
    pub fn from_calendar_date(year: i32, month: Month, day: u8) -> (r: Option<CalendarDate>)
        ensures
            r is Some <==> ymd(year as int, month.number(), day as int).valid(),
            r matches Some(d) ==> d@ == ymd(year as int, month.number(), day as int),
    {
        CalendarDate::from_ymd(year, month.to_number(), day)
    }

    /// The year.
    pub fn year(&self) -> (y: i32)
        ensures
            y == self@.year,
            self@.valid(),
    {
        proof {
            use_type_invariant(self);
        }
        self.year
    }

    /// The month, as a number from 1 to 12.
    pub fn month_number(&self) -> (m: u8)
        ensures
            m == self@.month,
            self@.valid(),
    {
        proof {
            use_type_invariant(self);
        }
        self.month
    }

    /// The month.
    pub fn month(&self) -> (m: Month)
        ensures
            m.number() == self@.month,
            self@.valid(),
    {
        proof {
            use_type_invariant(self);
        }
        match Month::from_number(self.month) {
            Some(m) => m,
            None => Month::January,
        }
    }

    /// The day of the month.
    pub fn day(&self) -> (d: u8)
        ensures
            d == self@.day,
            self@.valid(),
    {
        proof {
            use_type_invariant(self);
        }
        self.day
    }

    /// Days since 0000-01-01.
    pub fn day_number(&self) -> (n: i32)
        ensures
            n == self@.day_number(),
            0 <= n <= 3652424,
            self@.valid(),
    {
        proof {
            use_type_invariant(self);
            lemma_days_before_year_closed(self.year as int);
            lemma_days_before_month(self.year as int);
            lemma_day_of_year_bounds(self@);
        }
        let y: i32 = self.year;
        let leap: i32 = if leap_year(y) {
            1
        } else {
            0
        };
        let before_month: i32 = match self.month {
            1 => 0,
            2 => 31,
            3 => 59 + leap,
            4 => 90 + leap,
            5 => 120 + leap,
            6 => 151 + leap,
            7 => 181 + leap,
            8 => 212 + leap,
            9 => 243 + leap,
            10 => 273 + leap,
            11 => 304 + leap,
            _ => 334 + leap,
        };
        let before_year: i32 = 365 * y + (y + 3) / 4 - (y + 99) / 100 + (y + 399) / 400;
        before_year + before_month + (self.day as i32) - 1
    }

    /// The day of the week.
    pub fn weekday(&self) -> (w: Weekday)
        ensures
            w.index() == self@.weekday_index(),
    {
        let n: i32 = self.day_number();
        let i: i32 = (n + 5) % 7;
        match i {
            0 => Weekday::Monday,
            1 => Weekday::Tuesday,
            2 => Weekday::Wednesday,
            3 => Weekday::Thursday,
            4 => Weekday::Friday,
            5 => Weekday::Saturday,
            _ => Weekday::Sunday,
        }
    }

    /// The next calendar date; none after the last date of the calendar.
    pub fn next_day(&self) -> (r: Option<CalendarDate>)
        ensures
            r is None <==> self@ == last_date(),
            r matches Some(n) ==> n@ == self@.successor() && n@.valid() && n@.day_number()
                == self@.day_number() + 1,
    {
        proof {
            use_type_invariant(self);
            if self@ != last_date() {
                lemma_successor(self@);
            }
        }
        if self.day < month_length(self.year, self.month) {
            Some(CalendarDate { year: self.year, month: self.month, day: self.day + 1 })
        } else if self.month < 12 {
            Some(CalendarDate { year: self.year, month: self.month + 1, day: 1 })
        } else if self.year < MAX_YEAR {
            Some(CalendarDate { year: self.year + 1, month: 1, day: 1 })
        } else {
            None
        }
    }

    /// The previous calendar date; none before the first date of the
    /// calendar.
    pub fn previous_day(&self) -> (r: Option<CalendarDate>)
        ensures
            r is None <==> self@ == first_date(),
            r matches Some(p) ==> p@ == self@.predecessor() && p@.valid() && p@.day_number()
                == self@.day_number() - 1,
    {
        proof {
            use_type_invariant(self);
            if self@ != first_date() {
                lemma_predecessor(self@);
            }
        }
        if self.day > 1 {
            Some(CalendarDate { year: self.year, month: self.month, day: self.day - 1 })
        } else if self.month > 1 {
            let month: u8 = self.month - 1;
            Some(CalendarDate { year: self.year, month, day: month_length(self.year, month) })
        } else if self.year > MIN_YEAR {
            Some(CalendarDate { year: self.year - 1, month: 12, day: 31 })
        } else {
            None
        }
    }

    /// Whether this date is earlier than `other`.
    pub fn is_before(&self, other: &CalendarDate) -> (r: bool)
        ensures
            r == (self@.day_number() < other@.day_number()),
            r == self@.precedes(other@),
    {
        proof {
            use_type_invariant(self);
            use_type_invariant(other);
            lemma_day_number_order(self@, other@);
        }
        self.day_number() < other.day_number()
    }
}

} // verus!
