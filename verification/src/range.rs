//! A forward-only sequence of dates over a half-open interval, with an
//! optional rule that leaves Sundays out.
//!
//! The sequence is modelled by the day numbers still to be emitted.

use crate::calendar::{is_sunday, last_date, lemma_day_of_year_bounds, CalendarDate, Weekday};
use vstd::prelude::*;

verus! {

/// The day numbers `from..to`, in order.
pub open spec fn day_span(from: int, to: int) -> Seq<int> {
    Seq::new(
        if to > from {
            (to - from) as nat
        } else {
            0
        },
        |i: int| from + i,
    )
}

/// Whether a day is emitted under the given Sunday rule.
pub open spec fn keeps(skip_sunday: bool, day: int) -> bool {
    !(skip_sunday && is_sunday(day))
}

/// The Sunday rule as a predicate on day numbers.
pub open spec fn kept(skip_sunday: bool) -> spec_fn(int) -> bool {
    |day: int| keeps(skip_sunday, day)
}

/// The predicate that holds of Sundays.
pub open spec fn sundays() -> spec_fn(int) -> bool {
    |day: int| is_sunday(day)
}

/// The days of `from..to` that the Sunday rule lets through.
pub open spec fn kept_days(from: int, to: int, skip_sunday: bool) -> Seq<int> {
    day_span(from, to).filter(kept(skip_sunday))
}

/// The day that follows `day` in the sequence: the next day, or the one
/// after it when Sundays are skipped and the next day is one.
pub open spec fn advance(day: int, skip_sunday: bool) -> int {
    if skip_sunday && is_sunday(day + 1) {
        day + 2
    } else {
        day + 1
    }
}

/// What is still to be emitted when `next` is pending: the pending day
/// itself, if it lies before `end`, then the days after it that the Sunday
/// rule lets through.
pub open spec fn pending_days(next: Option<int>, end: int, skip_sunday: bool) -> Seq<int> {
    if next is Some && next->0 < end {
        seq![next->0] + kept_days(next->0 + 1, end, skip_sunday)
    } else {
        Seq::empty()
    }
}

/// A span that is not empty starts with its first day.
pub proof fn lemma_day_span_unfold(from: int, to: int)
    requires
        from < to,
    ensures
        day_span(from, to) == seq![from] + day_span(from + 1, to),
{
    assert(day_span(from, to) =~= seq![from] + day_span(from + 1, to));
}

/// Filtering a sequence that starts with `first` keeps or drops `first`
/// and filters the rest.
pub proof fn lemma_filter_first(first: int, rest: Seq<int>, keep: spec_fn(int) -> bool)
    ensures
        (seq![first] + rest).filter(keep) == if keep(first) {
            seq![first] + rest.filter(keep)
        } else {
            rest.filter(keep)
        },
{
    reveal_with_fuel(Seq::filter, 2);
    let one = seq![first];
    Seq::filter_distributes_over_add(one, rest, keep);
    assert(one.drop_last() =~= Seq::<int>::empty());
    assert(one.last() == first);
    if keep(first) {
        assert(one.filter(keep) =~= one);
    } else {
        assert(one.filter(keep) =~= Seq::<int>::empty());
        assert(Seq::<int>::empty() + rest.filter(keep) =~= rest.filter(keep));
    }
}

/// The kept days of a span, read from its first day on.
pub proof fn lemma_kept_days_unfold(from: int, to: int, skip_sunday: bool)
    ensures
        from >= to ==> kept_days(from, to, skip_sunday) == Seq::<int>::empty(),
        from < to && keeps(skip_sunday, from) ==> kept_days(from, to, skip_sunday) == seq![from]
            + kept_days(from + 1, to, skip_sunday),
        from < to && !keeps(skip_sunday, from) ==> kept_days(from, to, skip_sunday) == kept_days(
            from + 1,
            to,
            skip_sunday,
        ),
{
    if from < to {
        lemma_day_span_unfold(from, to);
        lemma_filter_first(from, day_span(from + 1, to), kept(skip_sunday));
    } else {
        reveal_with_fuel(Seq::filter, 1);
        assert(day_span(from, to) =~= Seq::<int>::empty());
    }
}

/// With Sundays let through, every day of the span is kept: the sequence is
/// the span itself, each day once, in increasing order.
pub proof fn lemma_kept_days_all(from: int, to: int)
    ensures
        kept_days(from, to, false) == day_span(from, to),
    decreases to - from,
{
    lemma_kept_days_unfold(from, to, false);
    if from < to {
        lemma_kept_days_all(from + 1, to);
        lemma_day_span_unfold(from, to);
    } else {
        assert(day_span(from, to) =~= Seq::<int>::empty());
    }
}

/// The days that a Sunday-skipping sequence emits from a span: none is a
/// Sunday, they increase strictly, each lies in the span, and they are as
/// many as the days of the span less its Sundays.
pub proof fn lemma_kept_days_without_sundays(from: int, to: int)
    ensures
        forall|i: int|
            0 <= i < kept_days(from, to, true).len() ==> {
                &&& !is_sunday(#[trigger] kept_days(from, to, true)[i])
                &&& from <= kept_days(from, to, true)[i] < to
            },
        forall|i: int, j: int|
            0 <= i < j < kept_days(from, to, true).len() ==> kept_days(from, to, true)[i]
                < kept_days(from, to, true)[j],
        kept_days(from, to, true).len() == day_span(from, to).len() - day_span(from, to).filter(
            sundays(),
        ).len(),
    decreases to - from,
{
    lemma_kept_days_unfold(from, to, true);
    if from < to {
        lemma_kept_days_without_sundays(from + 1, to);
        lemma_day_span_unfold(from, to);
        lemma_sundays_unfold(from, to);
        let rest = kept_days(from + 1, to, true);
        let all = kept_days(from, to, true);
        if keeps(true, from) {
            assert(all == seq![from] + rest);
            assert forall|i: int| 0 <= i < all.len() implies {
                &&& !is_sunday(#[trigger] all[i])
                &&& from <= all[i] < to
            } by {
                if i > 0 {
                    assert(all[i] == rest[i - 1]);
                }
            }
            assert forall|i: int, j: int| 0 <= i < j < all.len() implies all[i] < all[j] by {
                assert(all[j] == rest[j - 1]);
                if i > 0 {
                    assert(all[i] == rest[i - 1]);
                }
            }
        }
    } else {
        assert(day_span(from, to) =~= Seq::<int>::empty());
        reveal_with_fuel(Seq::filter, 1);
    }
}

/// The Sundays of a span, read from its first day on.
proof fn lemma_sundays_unfold(from: int, to: int)
    requires
        from < to,
    ensures
        day_span(from, to).filter(sundays()).len() == day_span(from + 1, to).filter(
            sundays(),
        ).len() + if is_sunday(from) {
            1int
        } else {
            0int
        },
{
    lemma_day_span_unfold(from, to);
    lemma_filter_first(from, day_span(from + 1, to), sundays());
}

/// A sequence of dates over the half-open interval from `next` to `end`.
#[derive(Clone, Copy, Debug)]
pub struct DateIter {
    /// The date to emit next; none once the calendar has no later date.
    pub next: Option<CalendarDate>,
    /// The first date that is not emitted.
    pub end: CalendarDate,
    /// Whether Sundays after the pending date are left out.
    pub skip_sunday: bool,
}

impl DateIter {
    /// Both dates held are dates of the calendar.
    pub open spec fn valid(self) -> bool {
        &&& self.end@.valid()
        &&& self.next matches Some(d) ==> d@.valid()
    }

    /// Day number of the pending date.
    pub open spec fn next_day_number(self) -> Option<int> {
        match self.next {
            Some(d) => Some(d@.day_number()),
            None => None,
        }
    }

    /// The day numbers still to be emitted, in the order of emission.
    pub open spec fn remaining(self) -> Seq<int> {
        pending_days(self.next_day_number(), self.end@.day_number(), self.skip_sunday)
    }

    /// The sequence at its start: `start` pending, Sundays let through.
    pub open spec fn started(start: CalendarDate, end: CalendarDate) -> DateIter {
        DateIter { next: Some(start), end, skip_sunday: false }
    }

    /// A sequence over the dates from `start` up to but excluding `end`.
    /// It is empty when `start` is not before `end`.
    pub fn new(start: CalendarDate, end: CalendarDate) -> (it: DateIter)
        ensures
            it == DateIter::started(start, end),
            it.valid(),
            it.remaining() == day_span(start@.day_number(), end@.day_number()),
    {
        proof {
            use_type_invariant(&start);
            use_type_invariant(&end);
            DateIter::lemma_emits_whole_range(start, end);
        }
        DateIter { next: Some(start), end, skip_sunday: false }
    }

    /// A fresh sequence emits exactly the days from `start` up to but
    /// excluding `end`: one after the other, without gap or repetition.
    pub proof fn lemma_emits_whole_range(start: CalendarDate, end: CalendarDate)
        ensures
            DateIter::started(start, end).remaining() == day_span(
                start@.day_number(),
                end@.day_number(),
            ),
            start@.day_number() < end@.day_number() ==> DateIter::started(
                start,
                end,
            ).remaining().len() == end@.day_number() - start@.day_number(),
            forall|i: int|
                0 <= i < DateIter::started(start, end).remaining().len() ==> (
                #[trigger] DateIter::started(start, end).remaining()[i]) == start@.day_number()
                    + i,
    {
        let s = start@.day_number();
        let e = end@.day_number();
        lemma_kept_days_all(s + 1, e);
        if s < e {
            lemma_day_span_unfold(s, e);
        } else {
            assert(day_span(s, e) =~= Seq::<int>::empty());
        }
    }

    /// Leaves Sundays out from here on. A pending Sunday is passed over
    /// first, so that what is emitted next is never a Sunday.
    pub fn skip_sunday(&mut self)
        ensures
            final(self).end == old(self).end,
            final(self).skip_sunday,
            final(self).valid(),
            old(self).next is Some ==> final(self).remaining() == kept_days(
                old(self).next->0@.day_number(),
                old(self).end@.day_number(),
                true,
            ),
            old(self).next is None ==> final(self).next is None && final(self).remaining()
                == Seq::<int>::empty(),
            old(self).next matches Some(d) ==> if is_sunday(d@.day_number()) && d@.day_number()
                < old(self).end@.day_number() {
                final(self).next matches Some(n) && n@ == d@.successor()
            } else {
                final(self).next == old(self).next
            },
    {
        proof {
            use_type_invariant(&self.end);
        }
        match self.next {
            Some(d) => {
                proof {
                    use_type_invariant(&d);
                    lemma_day_of_year_bounds(d@);
                    lemma_day_of_year_bounds(self.end@);
                    let n = d@.day_number();
                    let e = self.end@.day_number();
                    lemma_kept_days_unfold(n, e, true);
                    lemma_kept_days_unfold(n + 1, e, true);
                }
                if d.weekday() == Weekday::Sunday && d.is_before(&self.end) {
                    let after = d.next_day();
                    self.next = after;
                }
            },
            None => {},
        }
        self.skip_sunday = true;
    }

    /// Emits the pending date and moves on, or emits nothing once the
    /// pending date is not before `end`.
    pub fn next(&mut self) -> (r: Option<CalendarDate>)
        ensures
            final(self).end == old(self).end,
            final(self).skip_sunday == old(self).skip_sunday,
            final(self).valid(),
            old(self).remaining().len() == 0 ==> r is None && *final(self) == *old(self),
            old(self).remaining().len() > 0 ==> {
                &&& r == old(self).next
                &&& r matches Some(d) && d@.valid() && d@.day_number() == old(self).remaining()[0]
                &&& final(self).remaining() == old(self).remaining().drop_first()
                &&& final(self).next matches Some(n) ==> n@.day_number() == advance(
                    old(self).remaining()[0],
                    old(self).skip_sunday,
                )
                &&& final(self).next is None ==> advance(
                    old(self).remaining()[0],
                    old(self).skip_sunday,
                ) > last_date().day_number()
            },
    {
        proof {
            use_type_invariant(&self.end);
            lemma_day_of_year_bounds(self.end@);
        }
        let current = match self.next {
            Some(d) => d,
            None => {
                return None;
            },
        };
        proof {
            use_type_invariant(&current);
        }
        if !current.is_before(&self.end) {
            return None;
        }
        let ghost n = current@.day_number();
        let ghost e = self.end@.day_number();
        let ghost skip = self.skip_sunday;
        proof {
            lemma_day_of_year_bounds(current@);
            lemma_kept_days_unfold(n + 1, e, skip);
            lemma_kept_days_unfold(n + 2, e, skip);
            assert(old(self).remaining().drop_first() =~= kept_days(n + 1, e, skip));
        }
        let mut following = current.next_day();
        if self.skip_sunday {
            match following {
                Some(f) => {
                    if f.weekday() == Weekday::Sunday {
                        following = f.next_day();
                        proof {
                            if following is Some {
                                lemma_day_of_year_bounds(following->0@);
                            }
                        }
                    }
                },
                None => {},
            }
        }
        self.next = following;
        Some(current)
    }

    /// Emits everything that is left, in order.
    pub fn collect_remaining(&mut self) -> (dates: Vec<CalendarDate>)
        ensures
            final(self).end == old(self).end,
            final(self).skip_sunday == old(self).skip_sunday,
            final(self).remaining() == Seq::<int>::empty(),
            dates@.len() == old(self).remaining().len(),
            forall|i: int|
                0 <= i < dates@.len() ==> (#[trigger] dates@[i])@.valid() && dates@[i]@.day_number()
                    == old(self).remaining()[i],
    {
        let mut dates: Vec<CalendarDate> = Vec::new();
        loop
            invariant
                self.end == old(self).end,
                self.skip_sunday == old(self).skip_sunday,
                dates@.len() + self.remaining().len() == old(self).remaining().len(),
                forall|i: int|
                    0 <= i < dates@.len() ==> (#[trigger] dates@[i])@.valid()
                        && dates@[i]@.day_number() == old(self).remaining()[i],
                forall|i: int|
                    0 <= i < self.remaining().len() ==> (#[trigger] self.remaining()[i]) == old(
                        self,
                    ).remaining()[dates@.len() + i],
            ensures
                self.end == old(self).end,
                self.skip_sunday == old(self).skip_sunday,
                self.remaining() == Seq::<int>::empty(),
                dates@.len() == old(self).remaining().len(),
                forall|i: int|
                    0 <= i < dates@.len() ==> (#[trigger] dates@[i])@.valid()
                        && dates@[i]@.day_number() == old(self).remaining()[i],
            decreases self.remaining().len(),
        {
            let ghost before = self.remaining();
            match self.next() {
                Some(d) => {
                    proof {
                        assert(before.len() > 0);
                        assert forall|i: int| 0 <= i < self.remaining().len() implies (
                        #[trigger] self.remaining()[i]) == old(self).remaining()[dates@.len() + 1
                            + i] by {
                            assert(self.remaining()[i] == before[i + 1]);
                        }
                    }
                    dates.push(d);
                },
                None => {
                    proof {
                        assert(before.len() == 0);
                        assert(self.remaining() =~= Seq::<int>::empty());
                    }
                    break ;
                },
            }
        }
        dates
    }
}

} // verus!
