//! Session credentials: what a browser's cookie store yields, and which of
//! its records may be used.

use vstd::prelude::*;

verus! {

/// The text that the name of the session cookie contains: `NYT-S`.
pub open spec fn session_marker() -> Seq<char> {
    seq!['N', 'Y', 'T', '-', 'S']
}

/// Whether `needle` occurs in `haystack` as a run of adjacent characters.
pub open spec fn contains_text(haystack: Seq<char>, needle: Seq<char>) -> bool {
    exists|i: int|
        0 <= i && i + needle.len() <= haystack.len() && #[trigger] haystack.subrange(
            i,
            i + needle.len(),
        ) == needle
}

/// One record of a cookie store.
#[derive(Clone, Debug)]
pub struct CredentialRecord {
    /// Name of the cookie.
    pub name: String,
    /// Value of the cookie.
    pub value: String,
    /// Second of Unix time at which the cookie expires, if it does.
    pub expires: Option<u64>,
}

/// A bearer token and the second of Unix time at which it expires, if it
/// does.
#[derive(Clone, Debug)]
pub struct Credential {
    /// The token, as sent to the service.
    pub token: String,
    /// Second of Unix time at which the token expires, if it does.
    pub expires: Option<u64>,
}

/// Whether something that expires at `expires` is still good at `now`: it
/// never expires, or expires strictly later.
pub open spec fn unexpired(expires: Option<u64>, now: int) -> bool {
    expires matches Some(at) ==> at > now
}

/// Whether a record holds a session credential that is good at `now`.
pub open spec fn usable(record: CredentialRecord, now: int) -> bool {
    contains_text(record.name@, session_marker()) && unexpired(record.expires, now)
}

/// Index of the first usable record at or after `from`; the length of the
/// sequence if there is none.
pub open spec fn first_usable_from(records: Seq<CredentialRecord>, now: int, from: int) -> int
    decreases records.len() - from,
{
    if from >= records.len() {
        records.len() as int
    } else if usable(records[from], now) {
        from
    } else {
        first_usable_from(records, now, from + 1)
    }
}

/// Index of the first usable record; the length of the sequence if there is
/// none.
pub open spec fn first_usable(records: Seq<CredentialRecord>, now: int) -> int {
    first_usable_from(records, now, 0)
}

/// The first usable record is usable, and no record before it is.
pub proof fn lemma_first_usable(records: Seq<CredentialRecord>, now: int, from: int)
    requires
        0 <= from,
    ensures
        from <= first_usable_from(records, now, from) || first_usable_from(records, now, from)
            == records.len(),
        first_usable_from(records, now, from) <= records.len(),
        first_usable_from(records, now, from) < records.len() ==> usable(
            records[first_usable_from(records, now, from)],
            now,
        ),
        forall|j: int|
            from <= j < first_usable_from(records, now, from) ==> !usable(#[trigger] records[j], now),
    decreases records.len() - from,
{
    if from < records.len() && !usable(records[from], now) {
        lemma_first_usable(records, now, from + 1);
    }
}

/// Tells whether `needle` occurs in `haystack`, by `str::contains` of the
/// standard library, which reports whether the pattern matches a part of the
/// string.
#[verifier::external_body]
fn str_contains(haystack: &str, needle: &str) -> (found: bool)
    ensures
        found == contains_text(haystack@, needle@),
{
    haystack.contains(needle)
}

/// Whether something that expires at `expires` is still good at `now`.
pub fn is_unexpired(expires: Option<u64>, now: i64) -> (r: bool)
    ensures
        r == unexpired(expires, now as int),
{
    match expires {
        Some(at) => now < 0 || at > now as u64,
        None => true,
    }
}

impl CredentialRecord {
    /// Whether the record holds a session credential that is good at the
    /// second `now` of Unix time.
    pub fn is_usable(&self, now: i64) -> (r: bool)
        ensures
            r == usable(*self, now as int),
    {
        proof {
            reveal_strlit("NYT-S");
            assert("NYT-S"@ =~= session_marker());
        }
        str_contains(self.name.as_str(), "NYT-S") && is_unexpired(self.expires, now)
    }
}

impl Credential {
    /// Whether the credential is good at the second `now` of Unix time.
    pub fn is_usable(&self, now: i64) -> (r: bool)
        ensures
            r == unexpired(self.expires, now as int),
    {
        is_unexpired(self.expires, now)
    }

    /// Seconds for which the credential stays good from `now` on: none if
    /// it never expires or has expired.
    pub fn remaining_seconds(&self, now: i64) -> (r: Option<u64>)
        ensures
            r is Some <==> self.expires is Some && self.expires->0 > now,
            r matches Some(left) ==> left == self.expires->0 - now || (left == u64::MAX
                && self.expires->0 - now > u64::MAX),
    {
        match self.expires {
            Some(at) => {
                if now < 0 {
                    let back: u64 = if now == i64::MIN {
                        9223372036854775808u64
                    } else {
                        (-now) as u64
                    };
                    if at <= u64::MAX - back {
                        Some(at + back)
                    } else {
                        Some(u64::MAX)
                    }
                } else if at > now as u64 {
                    Some(at - now as u64)
                } else {
                    None
                }
            },
            None => None,
        }
    }
}

/// The first record of a cookie store that holds a session credential good
/// at the second `now` of Unix time.
pub fn scan_cookies(cookies: &Vec<CredentialRecord>, now: i64) -> (r: Option<Credential>)
    ensures
        r is Some <==> first_usable(cookies@, now as int) < cookies@.len(),
        r matches Some(c) ==> c.token@ == cookies@[first_usable(cookies@, now as int)].value@
            && c.expires == cookies@[first_usable(cookies@, now as int)].expires,
{
    let mut i: usize = 0;
    while i < cookies.len()
        invariant
            i <= cookies@.len(),
            first_usable(cookies@, now as int) == first_usable_from(cookies@, now as int, i as int),
        decreases cookies@.len() - i,
    {
        let record = &cookies[i];
        if record.is_usable(now) {
            return Some(Credential { token: record.value.clone(), expires: record.expires });
        }
        i += 1;
    }
    None
}

/// A browser whose cookie store can be asked for credentials.
#[derive(Clone, Copy, Debug, PartialEq, Eq, Structural)]
pub enum Browser {
    Firefox,
    Chrome,
    Brave,
    Safari,
}

/// The browsers in the order in which their stores are asked.
pub open spec fn provider_order() -> Seq<Browser> {
    seq![Browser::Firefox, Browser::Chrome, Browser::Brave, Browser::Safari]
}

/// The browser at a position of the order; none past its end.
pub fn provider_at(position: usize) -> (r: Option<Browser>)
    ensures
        r is Some <==> position < provider_order().len(),
        r matches Some(b) ==> b == provider_order()[position as int],
{
    match position {
        0 => Some(Browser::Firefox),
        1 => Some(Browser::Chrome),
        2 => Some(Browser::Brave),
        3 => Some(Browser::Safari),
        _ => None,
    }
}

} // verus!
