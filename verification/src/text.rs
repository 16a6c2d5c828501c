//! Dates as text: the fixed `YYYY-MM-DD` form, decimal numbers and month
//! abbreviations.

use crate::calendar::{ymd, CalendarDate, Month, Ymd};
use vstd::prelude::*;

verus! {

/// Whether a character is a decimal digit.
pub open spec fn is_digit(c: char) -> bool {
    48 <= c as u32 <= 57
}

/// Value of a decimal digit.
pub open spec fn digit_value(c: char) -> int {
    (c as u32) as int - 48
}

/// The character of a one-digit number.
pub open spec fn digit_char(d: int) -> char {
    ((d + 48) as u8) as char
}

/// A number below a hundred in two digits.
pub open spec fn two_digits(n: int) -> Seq<char> {
    seq![digit_char(n / 10), digit_char(n % 10)]
}

/// A number below ten thousand in four digits.
pub open spec fn four_digits(n: int) -> Seq<char> {
    two_digits(n / 100) + two_digits(n % 100)
}

/// A natural number in decimal, without leading zeros.
pub open spec fn decimal_text(n: int) -> Seq<char>
    decreases n,
{
    if n < 10 {
        seq![digit_char(n)]
    } else {
        decimal_text(n / 10).push(digit_char(n % 10))
    }
}

/// A date as `YYYY-MM-DD`.
pub open spec fn date_text(d: Ymd) -> Seq<char> {
    four_digits(d.year) + seq!['-'] + two_digits(d.month) + seq!['-'] + two_digits(d.day)
}

/// Whether a text has the shape `YYYY-MM-DD`: ten characters, digits but for
/// the two hyphens.
pub open spec fn has_date_shape(s: Seq<char>) -> bool {
    &&& s.len() == 10
    &&& is_digit(s[0])
    &&& is_digit(s[1])
    &&& is_digit(s[2])
    &&& is_digit(s[3])
    &&& s[4] == '-'
    &&& is_digit(s[5])
    &&& is_digit(s[6])
    &&& s[7] == '-'
    &&& is_digit(s[8])
    &&& is_digit(s[9])
}

/// The components that a text of the shape `YYYY-MM-DD` spells.
pub open spec fn spelled_date(s: Seq<char>) -> Ymd {
    ymd(
        1000 * digit_value(s[0]) + 100 * digit_value(s[1]) + 10 * digit_value(s[2]) + digit_value(
            s[3],
        ),
        10 * digit_value(s[5]) + digit_value(s[6]),
        10 * digit_value(s[8]) + digit_value(s[9]),
    )
}

/// Whether a text spells a date of the calendar.
pub open spec fn spells_date(s: Seq<char>) -> bool {
    has_date_shape(s) && spelled_date(s).valid()
}

/// The earliest date that the remote service has a puzzle for: 2011-04-01.
pub open spec fn earliest_supported() -> Ymd {
    ymd(2011, 4, 1)
}

/// Abbreviation of a month's English name.
pub open spec fn month_abbreviation(month: Month) -> Seq<char> {
    match month {
        Month::January => seq!['J', 'a', 'n'],
        Month::February => seq!['F', 'e', 'b'],
        Month::March => seq!['M', 'a', 'r'],
        Month::April => seq!['A', 'p', 'r'],
        Month::May => seq!['M', 'a', 'y'],
        Month::June => seq!['J', 'u', 'n'],
        Month::July => seq!['J', 'u', 'l'],
        Month::August => seq!['A', 'u', 'g'],
        Month::September => seq!['S', 'e', 'p'],
        Month::October => seq!['O', 'c', 't'],
        Month::November => seq!['N', 'o', 'v'],
        Month::December => seq!['D', 'e', 'c'],
    }
}

/// Writing a date of the calendar as text and reading the text again gives
/// the date back.
pub proof fn lemma_date_text_round_trip(d: Ymd)
    requires
        d.valid(),
    ensures
        has_date_shape(date_text(d)),
        spelled_date(date_text(d)) == d,
        spells_date(date_text(d)),
{
    let s = date_text(d);
    let y = d.year;
    assert(0 <= y / 100 <= 99);
    assert(s.len() == 10);
    assert(s[0] == digit_char((y / 100) / 10));
    assert(s[1] == digit_char((y / 100) % 10));
    assert(s[2] == digit_char((y % 100) / 10));
    assert(s[3] == digit_char((y % 100) % 10));
    assert(s[4] == '-');
    assert(s[5] == digit_char(d.month / 10));
    assert(s[6] == digit_char(d.month % 10));
    assert(s[7] == '-');
    assert(s[8] == digit_char(d.day / 10));
    assert(s[9] == digit_char(d.day % 10));
    lemma_digit_char_value((y / 100) / 10);
    lemma_digit_char_value((y / 100) % 10);
    lemma_digit_char_value((y % 100) / 10);
    lemma_digit_char_value((y % 100) % 10);
    lemma_digit_char_value(d.month / 10);
    lemma_digit_char_value(d.month % 10);
    lemma_digit_char_value(d.day / 10);
    lemma_digit_char_value(d.day % 10);
}

/// The character of a digit is a digit and has the digit's value.
pub proof fn lemma_digit_char_value(d: int)
    requires
        0 <= d <= 9,
    ensures
        is_digit(digit_char(d)),
        digit_value(digit_char(d)) == d,
{
    let b = (d + 48) as u8;
    assert(b as int == d + 48);
    assert((b as char) as u32 == b as u32);
}

/// Why a text was not accepted as a date.
#[derive(Clone, Copy, Debug, PartialEq, Eq, Structural)]
pub enum DateError {
    /// The text does not spell a date as `YYYY-MM-DD`.
    InvalidFormat,
    /// The text spells this date, which lies before 2011-04-01.
    DateTooEarly(CalendarDate),
}

/// What a date error says.
pub open spec fn error_text(e: DateError) -> Seq<char> {
    match e {
        DateError::InvalidFormat => "Invalid date, expected the form YYYY-MM-DD"@,
        DateError::DateTooEarly(d) => "Invalid date "@ + date_text(d@) + " is before 2011-04-01"@,
    }
}

impl DateError {
    /// The message for the operator.
    pub fn message(&self) -> (text: String)
        ensures
            text@ == error_text(*self),
    {
        match self {
            DateError::InvalidFormat => String::from_str(
                "Invalid date, expected the form YYYY-MM-DD",
            ),
            DateError::DateTooEarly(d) => {
                let mut text = String::from_str("Invalid date ");
                let date = format_date(d);
                text.append(date.as_str());
                text.append(" is before 2011-04-01");
                text
            },
        }
    }
}

/// The text of a one-digit number.
pub(crate) fn digit_str(d: u8) -> (text: &'static str)
    requires
        d <= 9,
    ensures
        text@ == seq![digit_char(d as int)],
{
    proof {
        reveal_strlit("0");
        reveal_strlit("1");
        reveal_strlit("2");
        reveal_strlit("3");
        reveal_strlit("4");
        reveal_strlit("5");
        reveal_strlit("6");
        reveal_strlit("7");
        reveal_strlit("8");
        reveal_strlit("9");
    }
    let text = match d {
        0 => "0",
        1 => "1",
        2 => "2",
        3 => "3",
        4 => "4",
        5 => "5",
        6 => "6",
        7 => "7",
        8 => "8",
        _ => "9",
    };
    assert(text@ =~= seq![digit_char(d as int)]);
    text
}

/// Appends a number below a hundred in two digits.
pub(crate) fn push_two_digits(text: &mut String, n: u8)
    requires
        n <= 99,
    ensures
        final(text)@ == old(text)@ + two_digits(n as int),
{
    text.append(digit_str(n / 10));
    text.append(digit_str(n % 10));
    assert(text@ =~= old(text)@ + two_digits(n as int));
}

/// Appends a natural number in decimal, without leading zeros.
pub(crate) fn push_decimal(text: &mut String, n: u32)
    ensures
        final(text)@ == old(text)@ + decimal_text(n as int),
    decreases n,
{
    if n < 10 {
        text.append(digit_str(n as u8));
        assert(text@ =~= old(text)@ + decimal_text(n as int));
    } else {
        push_decimal(text, n / 10);
        text.append(digit_str((n % 10) as u8));
        assert(text@ =~= old(text)@ + decimal_text(n as int));
    }
}

/// The date as `YYYY-MM-DD`.
pub fn format_date(date: &CalendarDate) -> (text: String)
    ensures
        text@ == date_text(date@),
{
    let year: i32 = date.year();
    let mut text = String::new();
    push_two_digits(&mut text, (year / 100) as u8);
    push_two_digits(&mut text, (year % 100) as u8);
    text.append("-");
    push_two_digits(&mut text, date.month_number());
    text.append("-");
    push_two_digits(&mut text, date.day());
    proof {
        reveal_strlit("-");
        assert("-"@ =~= seq!['-']);
        assert(text@ =~= date_text(date@));
    }
    text
}

/// The three-letter abbreviation of a month.
pub fn month_str(month: Month) -> (text: &'static str)
    ensures
        text@ == month_abbreviation(month),
{
    proof {
        reveal_strlit("Jan");
        reveal_strlit("Feb");
        reveal_strlit("Mar");
        reveal_strlit("Apr");
        reveal_strlit("May");
        reveal_strlit("Jun");
        reveal_strlit("Jul");
        reveal_strlit("Aug");
        reveal_strlit("Sep");
        reveal_strlit("Oct");
        reveal_strlit("Nov");
        reveal_strlit("Dec");
    }
    let text = match month {
        Month::January => "Jan",
        Month::February => "Feb",
        Month::March => "Mar",
        Month::April => "Apr",
        Month::May => "May",
        Month::June => "Jun",
        Month::July => "Jul",
        Month::August => "Aug",
        Month::September => "Sep",
        Month::October => "Oct",
        Month::November => "Nov",
        Month::December => "Dec",
    };
    assert(text@ =~= month_abbreviation(month));
    text
}

/// The earliest date that the remote service has a puzzle for.
pub fn earliest_date() -> (d: CalendarDate)
    ensures
        d@ == earliest_supported(),
{
    match CalendarDate::from_ymd(2011, 4, 1) {
        Some(d) => d,
        None => {
            proof {
                assert(earliest_supported().valid());
            }
            unreached()
        },
    }
}

fn digit_of(c: char) -> (r: Option<u8>)
    ensures
        r is Some <==> is_digit(c),
        r matches Some(d) ==> d == digit_value(c) && d <= 9,
{
    let code: u32 = c as u32;
    if 48 <= code && code <= 57 {
        Some((code - 48) as u8)
    } else {
        None
    }
}

fn two_digit_number(text: &str, at: usize) -> (r: Option<u8>)
    requires
        at + 1 < text@.len(),
        at < usize::MAX,
    ensures
        r is Some <==> is_digit(text@[at as int]) && is_digit(text@[at + 1]),
        r matches Some(n) ==> n == 10 * digit_value(text@[at as int]) + digit_value(text@[at + 1]),
{
    let high = digit_of(text.get_char(at));
    let low = digit_of(text.get_char(at + 1));
    match (high, low) {
        (Some(h), Some(l)) => Some(10 * h + l),
        _ => None,
    }
}

/// Reads a date written as `YYYY-MM-DD`.
///
/// The text is refused as malformed unless it spells a date of the
/// calendar, and as too early when that date lies before 2011-04-01.
pub fn parse_date(v: &str) -> (r: Result<CalendarDate, DateError>)
    ensures
        match r {
            Ok(d) => spells_date(v@) && d@ == spelled_date(v@) && !d@.precedes(
                earliest_supported(),
            ),
            Err(DateError::InvalidFormat) => !spells_date(v@),
            Err(DateError::DateTooEarly(d)) => spells_date(v@) && d@ == spelled_date(v@)
                && d@.precedes(earliest_supported()),
        },
{
    if v.unicode_len() != 10 {
        return Err(DateError::InvalidFormat);
    }
    if v.get_char(4) != '-' || v.get_char(7) != '-' {
        return Err(DateError::InvalidFormat);
    }
    let century = two_digit_number(v, 0);
    let years = two_digit_number(v, 2);
    let month = two_digit_number(v, 5);
    let day = two_digit_number(v, 8);
    match (century, years, month, day) {
        (Some(c), Some(y), Some(m), Some(d)) => {
            let year: i32 = 100 * (c as i32) + (y as i32);
            match CalendarDate::from_ymd(year, m, d) {
                Some(date) => {
                    if date.is_before(&earliest_date()) {
                        Err(DateError::DateTooEarly(date))
                    } else {
                        Ok(date)
                    }
                },
                None => Err(DateError::InvalidFormat),
            }
        },
        _ => Err(DateError::InvalidFormat),
    }
}

} // verus!
