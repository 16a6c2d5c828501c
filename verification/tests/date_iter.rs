use time::{Date, Weekday as ClockWeekday};
use xword_fetch::calendar::{CalendarDate, Month, Weekday};
use xword_fetch::range::DateIter;

fn date(year: i32, month: Month, day: u8) -> CalendarDate {
    CalendarDate::from_calendar_date(year, month, day).unwrap()
}

fn same_day(ours: CalendarDate, theirs: Date) -> bool {
    ours.year() == theirs.year()
        && ours.month_number() == u8::from(theirs.month())
        && ours.day() == theirs.day()
}

#[test]
fn date_iter_works_with_sundays() {
    let mut current = Date::from_calendar_date(2001, time::Month::January, 1).unwrap();
    let mut iter = DateIter {
        next: Some(date(2001, Month::January, 1)),
        end: date(2002, Month::January, 1),
        skip_sunday: false,
    };
    let mut seen = 0;
    while let Some(dt) = iter.next() {
        assert!(same_day(dt, current), "{dt:?} is not {current}");
        current = current.next_day().unwrap();
        seen += 1;
    }
    assert_eq!(seen, 365);
}

#[test]
fn date_iter_works_no_sundays() {
    let mut current = Date::from_calendar_date(1970, time::Month::January, 1).unwrap();
    let mut iter = DateIter {
        next: Some(date(1970, Month::January, 1)),
        end: date(2024, Month::January, 1),
        skip_sunday: true,
    };
    let mut seen = 0;
    while let Some(dt) = iter.next() {
        assert!(same_day(dt, current), "{dt:?} is not {current}");
        current = current.next_day().unwrap();
        if current.weekday() == ClockWeekday::Sunday {
            current = current.next_day().unwrap();
        }
        seen += 1;
    }
    // 19723 days, of which 2818 are Sundays
    assert_eq!(seen, 19723 - 2818);
}

#[test]
fn new_starts_at_start_without_skipping() {
    let it = DateIter::new(date(2023, Month::January, 1), date(2023, Month::January, 3));
    assert_eq!(it.next, Some(date(2023, Month::January, 1)));
    assert_eq!(it.end, date(2023, Month::January, 3));
    assert!(!it.skip_sunday);
}

#[test]
fn emits_each_day_of_the_range_once_in_order() {
    let mut it = DateIter::new(date(2023, Month::December, 30), date(2024, Month::January, 2));
    assert_eq!(it.next(), Some(date(2023, Month::December, 30)));
    assert_eq!(it.next(), Some(date(2023, Month::December, 31)));
    assert_eq!(it.next(), Some(date(2024, Month::January, 1)));
    assert_eq!(it.next(), None);
    assert_eq!(it.next(), None);
}

#[test]
fn day_numbers_of_emitted_dates_go_up_by_one() {
    let start = date(2019, Month::February, 20);
    let end = date(2021, Month::March, 5);
    let mut it = DateIter::new(start, end);
    let dates = it.collect_remaining();
    assert_eq!(dates.len() as i32, end.day_number() - start.day_number());
    for (i, d) in dates.iter().enumerate() {
        assert_eq!(d.day_number(), start.day_number() + i as i32);
    }
    assert_eq!(it.next(), None);
}

#[test]
fn empty_when_start_is_not_before_end() {
    let mut same = DateIter::new(date(2023, Month::January, 1), date(2023, Month::January, 1));
    assert_eq!(same.next(), None);
    let mut backwards = DateIter::new(date(2023, Month::January, 2), date(2023, Month::January, 1));
    assert_eq!(backwards.next(), None);
    assert_eq!(backwards.next, Some(date(2023, Month::January, 2)));
    assert!(backwards.collect_remaining().is_empty());
}

#[test]
fn exhausted_iterator_with_no_pending_date_emits_nothing() {
    let mut it = DateIter { next: None, end: date(2023, Month::January, 1), skip_sunday: false };
    assert_eq!(it.next(), None);
    it.skip_sunday();
    assert!(it.skip_sunday);
    assert_eq!(it.next, None);
    assert_eq!(it.next(), None);
}

#[test]
fn skip_sunday_leaves_out_every_sunday() {
    // 2023-01-01 is a Sunday; January 2023 has five of them
    let mut it = DateIter::new(date(2023, Month::January, 1), date(2023, Month::February, 1));
    it.skip_sunday();
    assert!(it.skip_sunday);
    assert_eq!(it.next, Some(date(2023, Month::January, 2)));
    let dates = it.collect_remaining();
    assert_eq!(dates.len(), 31 - 5);
    assert_eq!(dates[0], date(2023, Month::January, 2));
    assert_eq!(dates[5], date(2023, Month::January, 7));
    assert_eq!(dates[6], date(2023, Month::January, 9));
    assert_eq!(dates[25], date(2023, Month::January, 31));
    for d in &dates {
        assert_ne!(d.weekday(), Weekday::Sunday);
    }
    for pair in dates.windows(2) {
        assert!(pair[0] < pair[1]);
    }
}

#[test]
fn skip_sunday_keeps_a_pending_weekday() {
    let mut it = DateIter::new(date(2023, Month::January, 6), date(2023, Month::January, 10));
    it.skip_sunday();
    assert_eq!(it.next(), Some(date(2023, Month::January, 6)));
    assert_eq!(it.next(), Some(date(2023, Month::January, 7)));
    assert_eq!(it.next(), Some(date(2023, Month::January, 9)));
    assert_eq!(it.next(), None);
}

#[test]
fn skip_sunday_twice_changes_nothing_more() {
    let mut it = DateIter::new(date(2023, Month::January, 1), date(2023, Month::January, 4));
    it.skip_sunday();
    it.skip_sunday();
    assert_eq!(it.collect_remaining(), vec![date(2023, Month::January, 2), date(2023, Month::January, 3)]);
}

#[test]
fn skip_sunday_on_a_range_of_one_sunday_emits_nothing() {
    let mut it = DateIter::new(date(2023, Month::January, 1), date(2023, Month::January, 2));
    it.skip_sunday();
    assert_eq!(it.next(), None);
}

#[test]
fn a_sunday_that_ends_the_range_is_not_emitted() {
    let mut it = DateIter::new(date(2023, Month::January, 7), date(2023, Month::January, 8));
    it.skip_sunday();
    assert_eq!(it.next(), Some(date(2023, Month::January, 7)));
    assert_eq!(it.next(), None);
}

#[test]
fn the_last_day_of_the_calendar_has_no_successor_to_store() {
    let last = date(9999, Month::December, 31);
    let mut it = DateIter::new(date(9999, Month::December, 30), last);
    assert_eq!(it.next(), Some(date(9999, Month::December, 30)));
    assert_eq!(it.next, Some(last));
    assert_eq!(it.next(), None);
}

#[test]
fn count_with_skipping_is_count_without_less_the_sundays() {
    let start = date(2020, Month::February, 1);
    let end = date(2020, Month::April, 1);
    let all = DateIter::new(start, end).collect_remaining();
    let sundays = all.iter().filter(|d| d.weekday() == Weekday::Sunday).count();
    let mut skipping = DateIter::new(start, end);
    skipping.skip_sunday();
    let kept = skipping.collect_remaining();
    assert_eq!(all.len(), 60);
    assert_eq!(sundays, 9);
    assert_eq!(kept.len(), all.len() - sundays);
    let expected: Vec<CalendarDate> =
        all.iter().copied().filter(|d| d.weekday() != Weekday::Sunday).collect();
    assert_eq!(kept, expected);
}
