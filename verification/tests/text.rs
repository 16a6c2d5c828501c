use time::Date;
use xword_fetch::calendar::{CalendarDate, Month};
use xword_fetch::text::{earliest_date, format_date, month_str, parse_date, DateError};

fn date(year: i32, month: u8, day: u8) -> CalendarDate {
    CalendarDate::from_ymd(year, month, day).unwrap()
}

#[test]
fn parse_date_refuses_the_day_before_the_earliest() {
    assert_eq!(parse_date("2011-03-31"), Err(DateError::DateTooEarly(date(2011, 3, 31))));
}

#[test]
fn parse_date_accepts_the_earliest_date() {
    assert_eq!(parse_date("2011-04-01"), Ok(date(2011, 4, 1)));
    assert_eq!(earliest_date(), date(2011, 4, 1));
}

#[test]
fn parse_date_reads_year_month_and_day() {
    assert_eq!(parse_date("2023-01-02"), Ok(date(2023, 1, 2)));
    assert_eq!(parse_date("2024-02-29"), Ok(date(2024, 2, 29)));
    assert_eq!(parse_date("9999-12-31"), Ok(date(9999, 12, 31)));
    assert_eq!(parse_date("2011-12-09"), Ok(date(2011, 12, 9)));
}

#[test]
fn parse_date_tells_too_early_from_malformed() {
    assert_eq!(parse_date("0000-01-01"), Err(DateError::DateTooEarly(date(0, 1, 1))));
    assert_eq!(parse_date("1970-01-01"), Err(DateError::DateTooEarly(date(1970, 1, 1))));
    assert_eq!(parse_date("2010-12-31"), Err(DateError::DateTooEarly(date(2010, 12, 31))));
    assert_eq!(parse_date("2011-02-30"), Err(DateError::InvalidFormat));
}

#[test]
fn parse_date_refuses_what_is_not_a_date() {
    for text in [
        "",
        "2011",
        "2011-4-1",
        "2011-04-1",
        "2011-04-011",
        "02011-04-01",
        "2011/04/01",
        "2011-04_01",
        "20110401",
        "abcd-ef-gh",
        "2o11-04-01",
        "2023-00-10",
        "2023-13-10",
        "2023-01-00",
        "2023-01-32",
        "2023-02-29",
        "2023-04-31",
        " 2023-01-01",
        "2023-01-01 ",
        "-2023-01-01",
        "+2023-01-0",
        "２０２３-01-01",
        "2023-01-0１",
        "2023-01-01\n",
    ] {
        assert_eq!(parse_date(text), Err(DateError::InvalidFormat), "{text:?}");
    }
}

#[test]
fn format_date_pads_with_zeros() {
    assert_eq!(format_date(&date(2023, 1, 2)), "2023-01-02");
    assert_eq!(format_date(&date(2011, 12, 31)), "2011-12-31");
    assert_eq!(format_date(&date(987, 6, 5)), "0987-06-05");
    assert_eq!(format_date(&date(0, 1, 1)), "0000-01-01");
    assert_eq!(format_date(&date(9999, 12, 31)), "9999-12-31");
}

#[test]
fn parsing_what_was_formatted_gives_the_date_back() {
    let mut d = date(2011, 4, 1);
    let end = date(2031, 1, 1);
    while d.is_before(&end) {
        assert_eq!(parse_date(&format_date(&d)), Ok(d));
        d = d.next_day().unwrap();
    }
    let parsed = parse_date("2024-02-29").unwrap();
    assert_eq!(parse_date(&format_date(&parsed)), Ok(parsed));
    let last = date(9999, 12, 31);
    assert_eq!(parse_date(&format_date(&last)), Ok(last));
}

#[test]
fn formatting_what_was_parsed_gives_the_text_back() {
    for text in ["2011-04-01", "2020-02-29", "2023-10-09", "9999-12-31"] {
        assert_eq!(format_date(&parse_date(text).unwrap()), text);
    }
}

#[test]
fn parse_date_agrees_with_the_time_crate_on_unsigned_texts() {
    let form = time::format_description::parse_owned::<2>("[year]-[month]-[day]").unwrap();
    for text in [
        "2011-04-01",
        "2024-02-29",
        "2023-02-29",
        "2023-13-01",
        "2023-1-01",
        "2023-01-01x",
        "20230101",
        "2023-00-00",
        "9999-12-31",
        "2015-06-31",
        "2015-06-30",
    ] {
        let theirs = Date::parse(text, &form).ok();
        let ours = parse_date(text).ok();
        assert_eq!(ours.is_some(), theirs.is_some(), "{text:?}");
        if let (Some(a), Some(b)) = (ours, theirs) {
            assert_eq!((a.year(), a.month_number(), a.day()), (b.year(), u8::from(b.month()), b.day()));
            assert_eq!(format_date(&a), b.format(&form).unwrap());
        }
    }
}

#[test]
fn month_str_is_the_english_abbreviation() {
    let expected = [
        (Month::January, "Jan"),
        (Month::February, "Feb"),
        (Month::March, "Mar"),
        (Month::April, "Apr"),
        (Month::May, "May"),
        (Month::June, "Jun"),
        (Month::July, "Jul"),
        (Month::August, "Aug"),
        (Month::September, "Sep"),
        (Month::October, "Oct"),
        (Month::November, "Nov"),
        (Month::December, "Dec"),
    ];
    for (month, text) in expected {
        assert_eq!(month_str(month), text);
        assert_eq!(text.len(), 3);
    }
}

#[test]
fn date_errors_say_what_went_wrong() {
    assert_eq!(
        parse_date("2011-03-31").unwrap_err().message(),
        "Invalid date 2011-03-31 is before 2011-04-01"
    );
    assert_eq!(
        DateError::InvalidFormat.message(),
        "Invalid date, expected the form YYYY-MM-DD"
    );
}
