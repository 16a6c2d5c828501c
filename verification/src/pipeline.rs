//! The decisions of a run: which cookie store to ask, which puzzle to fetch
//! next, and when to stop.
//!
//! The run itself, with its requests, files and pauses, belongs to the
//! caller. It asks [`Pipeline::next_action`] what to do, does it, and hands
//! back what a cookie store held through [`Pipeline::offer_cookies`] and what
//! the service sent through [`crate::target::judge_response`].

use crate::calendar::{last_date, CalendarDate};
use crate::credential::{
    first_usable, provider_at, provider_order, scan_cookies, Browser, Credential, CredentialRecord,
};
use crate::range::{kept_days, lemma_kept_days_all, DateIter};
use crate::target::{cookie_header, cookie_text, FatalReason, FetchTarget};
use vstd::prelude::*;

verus! {

/// Seconds to pause after each request, whatever came of it.
pub const REQUEST_DELAY_SECONDS: u64 = 1;

/// What the caller is to do next.
#[derive(Clone, Debug)]
pub enum Action {
    /// Read the cookie store of this browser and offer what it holds.
    QueryProvider(Browser),
    /// Request the target with this cookie header, judge the response, and
    /// pause.
    Fetch { target: FetchTarget, cookie: String },
    /// Every date has been dealt with.
    Finish,
    /// Stop at once.
    Halt(FatalReason),
}

/// State of a run.
#[derive(Clone, Debug)]
pub struct Pipeline {
    /// The dates still to be fetched.
    pub dates: DateIter,
    /// The present day in the region of the service.
    pub today: CalendarDate,
    /// The token, once there is one.
    pub token: Option<String>,
    /// Position in the order of browsers of the next store to ask.
    pub provider: usize,
    /// Why the run has stopped, once it has.
    pub halted: Option<FatalReason>,
}

/// The date that stands for one that was not given: today.
pub open spec fn date_or(given: Option<CalendarDate>, today: CalendarDate) -> CalendarDate {
    match given {
        Some(d) => d,
        None => today,
    }
}

/// Plans a run over the dates from `start` to `end`, both included, each of
/// them today if not given. The range is refused when it ends before the
/// day before it starts.
///
/// The last date of the calendar cannot end a range, as no date follows it.
pub fn execute(
    start: Option<CalendarDate>,
    end: Option<CalendarDate>,
    token: Option<String>,
    skip_sunday: bool,
    today: CalendarDate,
) -> (r: Result<Pipeline, FatalReason>)
    requires
        date_or(end, today)@ != last_date(),
    ensures
        r is Err <==> date_or(end, today)@.day_number() + 1 < date_or(start, today)@.day_number(),
        r matches Err(reason) ==> reason == FatalReason::InvalidRange,
        r matches Ok(p) ==> {
            &&& p.today == today
            &&& p.token == token
            &&& p.provider == 0
            &&& p.halted is None
            &&& p.dates.skip_sunday == skip_sunday
            &&& p.dates.end@.day_number() == date_or(end, today)@.day_number() + 1
            &&& p.dates.remaining() == kept_days(
                date_or(start, today)@.day_number(),
                date_or(end, today)@.day_number() + 1,
                skip_sunday,
            )
        },
{
    let first = match start {
        Some(d) => d,
        None => today,
    };
    let last = match end {
        Some(d) => d,
        None => today,
    };
    let bound = match last.next_day() {
        Some(d) => d,
        None => unreached(),
    };
    if bound.is_before(&first) {
        return Err(FatalReason::InvalidRange);
    }
    let mut dates = DateIter::new(first, bound);
    if skip_sunday {
        dates.skip_sunday();
    } else {
        proof {
            lemma_kept_days_all(first@.day_number(), bound@.day_number());
        }
    }
    Ok(Pipeline { dates, today, token, provider: 0, halted: None })
}

impl Pipeline {
    /// Whether the run has neither a token nor stopped.
    pub open spec fn seeks_credential(self) -> bool {
        self.halted is None && self.token is None
    }

    /// The state after a store that held nothing usable: the next store is
    /// up, all else as it was.
    pub open spec fn passed_over(self) -> Pipeline {
        Pipeline { provider: next_provider(self.provider), ..self }
    }

    /// The state of a run that has stopped for the given reason, all else as
    /// it was.
    pub open spec fn stopped(self, reason: FatalReason) -> Pipeline {
        Pipeline { halted: Some(reason), ..self }
    }

    /// What is to be done while the run seeks a credential: ask the store
    /// that is up, or stop when none is left.
    pub open spec fn credential_action(self) -> Action {
        if self.provider < provider_order().len() {
            Action::QueryProvider(provider_order()[self.provider as int])
        } else {
            Action::Halt(FatalReason::NoCredentialFound)
        }
    }

    /// While a run seeks a credential nothing is fetched: a store is asked
    /// or the run stops, and a store that holds nothing usable leaves the
    /// run seeking, with its dates untouched.
    pub proof fn lemma_no_fetch_without_credential(p: Pipeline)
        requires
            p.seeks_credential(),
        ensures
            !(p.credential_action() is Fetch),
            !(p.credential_action() is Finish),
            p.credential_action() is Halt <==> p.provider >= provider_order().len(),
            p.passed_over().seeks_credential(),
            p.passed_over().dates == p.dates,
            p.passed_over().today == p.today,
    {
    }

    /// A run that starts without a token and finds nothing usable in any
    /// store asks Firefox, Chrome, Brave and Safari, each once and in this
    /// order, and then stops for want of a credential. No date is taken
    /// from the range on the way.
    pub proof fn lemma_no_credential_found(p: Pipeline)
        requires
            p.seeks_credential(),
            p.provider == 0,
        ensures
            p.credential_action() == Action::QueryProvider(Browser::Firefox),
            p.passed_over().credential_action() == Action::QueryProvider(Browser::Chrome),
            p.passed_over().passed_over().credential_action() == Action::QueryProvider(
                Browser::Brave,
            ),
            p.passed_over().passed_over().passed_over().credential_action()
                == Action::QueryProvider(Browser::Safari),
            p.passed_over().passed_over().passed_over().passed_over().credential_action()
                == Action::Halt(FatalReason::NoCredentialFound),
            p.passed_over().passed_over().passed_over().passed_over().seeks_credential(),
            p.passed_over().passed_over().passed_over().passed_over().dates == p.dates,
    {
    }

    /// Says what to do next.
    ///
    /// A run that has stopped stays stopped. Without a token, the next
    /// cookie store is to be asked, and the run stops when none is left.
    /// With a token, the next date is taken: the run is finished when there
    /// is none, stops when the date lies after today, and otherwise fetches
    /// the target of that date.
    pub fn next_action(&mut self) -> (action: Action)
        ensures
            final(self).today == old(self).today,
            final(self).token == old(self).token,
            final(self).provider == old(self).provider,
            final(self).dates.end == old(self).dates.end,
            final(self).dates.skip_sunday == old(self).dates.skip_sunday,
            match old(self).halted {
                Some(reason) => *final(self) == *old(self) && action == Action::Halt(reason),
                None => match old(self).token {
                    None => {
                        &&& action == old(self).credential_action()
                        &&& *final(self) == if old(self).provider < provider_order().len() {
                            *old(self)
                        } else {
                            old(self).stopped(FatalReason::NoCredentialFound)
                        }
                    },
                    Some(token) => if old(self).dates.remaining().len() == 0 {
                        &&& *final(self) == *old(self)
                        &&& action == Action::Finish
                    } else {
                        &&& final(self).dates.remaining() == old(self).dates.remaining().drop_first()
                        &&& if old(self).dates.remaining()[0] > old(self).today@.day_number() {
                            &&& final(self).halted == Some(FatalReason::FuturePuzzleRequested)
                            &&& action == Action::Halt(FatalReason::FuturePuzzleRequested)
                        } else {
                            &&& final(self).halted is None
                            &&& action matches Action::Fetch { target, cookie }
                            &&& target.derived()
                            &&& target.date@.day_number() == old(self).dates.remaining()[0]
                            &&& cookie@ == cookie_text(token@)
                        }
                    },
                },
            },
    {
        if let Some(reason) = self.halted {
            return Action::Halt(reason);
        }
        let cookie = match &self.token {
            Some(token) => cookie_header(token.as_str()),
            None => {
                return match provider_at(self.provider) {
                    Some(browser) => Action::QueryProvider(browser),
                    None => {
                        self.halted = Some(FatalReason::NoCredentialFound);
                        Action::Halt(FatalReason::NoCredentialFound)
                    },
                };
            },
        };
        let date = match self.dates.next() {
            Some(d) => d,
            None => {
                return Action::Finish;
            },
        };
        if self.today.is_before(&date) {
            self.halted = Some(FatalReason::FuturePuzzleRequested);
            return Action::Halt(FatalReason::FuturePuzzleRequested);
        }
        Action::Fetch { target: FetchTarget::for_date(date), cookie }
    }

    /// Takes what the cookie store that was asked holds; `None` when it
    /// could not be read. The first usable record, if there is one, gives
    /// the token and is handed back; otherwise the next store is up.
    ///
    /// Nothing changes once there is a token or the run has stopped.
    pub fn offer_cookies(&mut self, cookies: Option<&Vec<CredentialRecord>>, now: i64) -> (found:
        Option<Credential>)
        ensures
            final(self).dates == old(self).dates,
            final(self).today == old(self).today,
            final(self).halted == old(self).halted,
            !old(self).seeks_credential() ==> found is None && *final(self) == *old(self),
            old(self).seeks_credential() ==> if holds_usable(cookies, now as int) {
                &&& found matches Some(credential)
                &&& credential.token@ == cookies->0@[first_usable(cookies->0@, now as int)].value@
                &&& credential.expires == cookies->0@[first_usable(
                    cookies->0@,
                    now as int,
                )].expires
                &&& final(self).token matches Some(token)
                &&& token@ == credential.token@
                &&& final(self).provider == old(self).provider
            } else {
                &&& found is None
                &&& *final(self) == old(self).passed_over()
            },
    {
        if self.token.is_some() || self.halted.is_some() {
            return None;
        }
        let found = match cookies {
            Some(held) => scan_cookies(held, now),
            None => None,
        };
        match &found {
            Some(credential) => {
                self.token = Some(credential.token.clone());
            },
            None => {
                if self.provider < 4 {
                    self.provider = self.provider + 1;
                }
            },
        }
        found
    }
}

/// Whether a cookie store was read and holds a record that is usable at
/// `now`.
pub open spec fn holds_usable(cookies: Option<&Vec<CredentialRecord>>, now: int) -> bool {
    cookies matches Some(held) && first_usable(held@, now) < held@.len()
}

/// Position of the store to ask after the one at `position`; past the end
/// of the order it stays where it is.
pub open spec fn next_provider(position: usize) -> usize {
    if position < provider_order().len() {
        (position + 1) as usize
    } else {
        position
    }
}

} // verus!
