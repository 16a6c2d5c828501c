//! What is fetched for a date and where it is kept, and the judgement of
//! what the service sent back.

use crate::calendar::{CalendarDate, Month, Ymd};
use crate::text::{
    decimal_text, month_abbreviation, month_str, push_decimal, push_two_digits, two_digits,
};
use vstd::prelude::*;
use vstd::slice::slice_subrange;

verus! {

/// The month with the given number; December for a number that has none.
pub open spec fn month_of(number: int) -> Month {
    if number == 1 {
        Month::January
    } else if number == 2 {
        Month::February
    } else if number == 3 {
        Month::March
    } else if number == 4 {
        Month::April
    } else if number == 5 {
        Month::May
    } else if number == 6 {
        Month::June
    } else if number == 7 {
        Month::July
    } else if number == 8 {
        Month::August
    } else if number == 9 {
        Month::September
    } else if number == 10 {
        Month::October
    } else if number == 11 {
        Month::November
    } else {
        Month::December
    }
}

/// The year as the resource's name carries it: its last two digits.
pub open spec fn short_year_text(year: int) -> Seq<char> {
    two_digits(year % 100)
}

/// Address of the puzzle of a date.
pub open spec fn url_text(d: Ymd) -> Seq<char> {
    "https://www.nytimes.com/svc/crosswords/v2/puzzle/print/"@ + month_abbreviation(
        month_of(d.month),
    ) + two_digits(d.day) + short_year_text(d.year) + ".pdf"@
}

/// Name of the directory of a date's year.
pub open spec fn year_dir_text(d: Ymd) -> Seq<char> {
    decimal_text(d.year)
}

/// Name of the directory of a date's month, below that of its year.
pub open spec fn month_dir_text(d: Ymd) -> Seq<char> {
    two_digits(d.month)
}

/// Name of the file of a date, below the directory of its month.
pub open spec fn file_name_text(d: Ymd) -> Seq<char> {
    two_digits(d.day) + ".pdf"@
}

/// Place of the file of a date below the destination directory.
pub open spec fn relative_path_text(d: Ymd) -> Seq<char> {
    year_dir_text(d) + "/"@ + month_dir_text(d) + "/"@ + file_name_text(d)
}

/// Value of the header that carries the token.
pub open spec fn cookie_text(token: Seq<char>) -> Seq<char> {
    "NYT-S="@ + token
}

/// What is fetched for a date and where it is kept.
#[derive(Clone, Debug)]
pub struct FetchTarget {
    /// The date of the puzzle.
    pub date: CalendarDate,
    /// Address of the puzzle.
    pub url: String,
    /// Name of the year's directory below the destination.
    pub year_dir: String,
    /// Name of the month's directory below that of the year.
    pub month_dir: String,
    /// Name of the file below the month's directory.
    pub file_name: String,
}

impl FetchTarget {
    /// Every text of the target is the one that its date determines.
    pub open spec fn derived(self) -> bool {
        &&& self.date@.valid()
        &&& self.url@ == url_text(self.date@)
        &&& self.year_dir@ == year_dir_text(self.date@)
        &&& self.month_dir@ == month_dir_text(self.date@)
        &&& self.file_name@ == file_name_text(self.date@)
    }

    /// The target of a date.
    pub fn for_date(date: CalendarDate) -> (target: FetchTarget)
        ensures
            target.date == date,
            target.derived(),
    {
        let year: i32 = date.year();
        let month = date.month();
        let day: u8 = date.day();
        let mut url = String::from_str("https://www.nytimes.com/svc/crosswords/v2/puzzle/print/");
        url.append(month_str(month));
        push_two_digits(&mut url, day);
        push_two_digits(&mut url, (year % 100) as u8);
        url.append(".pdf");
        let mut year_dir = String::new();
        push_decimal(&mut year_dir, year as u32);
        let mut month_dir = String::new();
        push_two_digits(&mut month_dir, date.month_number());
        let mut file_name = String::new();
        push_two_digits(&mut file_name, day);
        file_name.append(".pdf");
        proof {
            assert(month_of(date@.month) == month);
            assert(url@ =~= url_text(date@));
            assert(year_dir@ =~= year_dir_text(date@));
            assert(month_dir@ =~= month_dir_text(date@));
            assert(file_name@ =~= file_name_text(date@));
        }
        FetchTarget { date, url, year_dir, month_dir, file_name }
    }

    /// Place of the file below the destination directory, its parts joined
    /// by `/`.
    pub fn relative_path(&self) -> (path: String)
        ensures
            path@ == self.year_dir@ + "/"@ + self.month_dir@ + "/"@ + self.file_name@,
            self.derived() ==> path@ == relative_path_text(self.date@),
    {
        let mut path = self.year_dir.clone();
        path.append("/");
        path.append(self.month_dir.as_str());
        path.append("/");
        path.append(self.file_name.as_str());
        path
    }
}

/// Value of the header that carries the token.
pub fn cookie_header(token: &str) -> (header: String)
    ensures
        header@ == cookie_text(token@),
{
    let mut header = String::from_str("NYT-S=");
    header.append(token);
    header
}

/// The five bytes that every accepted document starts with: `%PDF-`.
pub open spec fn pdf_signature() -> Seq<u8> {
    seq![0x25u8, 0x50u8, 0x44u8, 0x46u8, 0x2du8]
}

/// Whether a payload starts with the signature.
pub open spec fn is_pdf(body: Seq<u8>) -> bool {
    body.len() >= 5 && body.subrange(0, 5) == pdf_signature()
}

/// Most bytes of a refused payload that are shown to the operator.
pub const PREVIEW_LIMIT: usize = 255;

/// The part of a payload that is shown to the operator: its first bytes, up
/// to the limit.
pub open spec fn preview_of(body: Seq<u8>) -> Seq<u8> {
    if body.len() <= PREVIEW_LIMIT {
        body
    } else {
        body.subrange(0, PREVIEW_LIMIT as int)
    }
}

/// The text that `String::from_utf8_lossy` makes of the given bytes.
pub uninterp spec fn lossy_text(bytes: Seq<u8>) -> Seq<char>;

/// Turns bytes into text by `String::from_utf8_lossy` of the standard
/// library, which decodes UTF-8 and puts U+FFFD in place of what is not.
/// The result is a function of the bytes alone; it is named, not stated.
#[verifier::external_body]
fn utf8_lossy(bytes: &[u8]) -> (text: String)
    ensures
        text@ == lossy_text(bytes@),
{
    String::from_utf8_lossy(bytes).into_owned()
}

/// Whether a payload starts with the signature of a PDF document.
pub fn has_pdf_signature(body: &[u8]) -> (r: bool)
    ensures
        r == is_pdf(body@),
{
    if body.len() < 5 {
        return false;
    }
    let r = body[0] == 0x25 && body[1] == 0x50 && body[2] == 0x44 && body[3] == 0x46 && body[4]
        == 0x2d;
    proof {
        let head = body@.subrange(0, 5);
        if r {
            assert(head =~= pdf_signature());
        } else {
            assert(head[0] == body@[0] && head[1] == body@[1] && head[2] == body@[2] && head[3]
                == body@[3] && head[4] == body@[4]);
        }
    }
    r
}

/// The first bytes of a payload, up to the limit.
pub fn preview_bytes(body: &[u8]) -> (head: &[u8])
    ensures
        head@ == preview_of(body@),
{
    if body.len() <= PREVIEW_LIMIT {
        body
    } else {
        slice_subrange(body, 0, PREVIEW_LIMIT)
    }
}

/// The first bytes of a payload as text, for the operator.
pub fn payload_preview(body: &[u8]) -> (text: String)
    ensures
        text@ == lossy_text(preview_of(body@)),
{
    utf8_lossy(preview_bytes(body))
}

/// Why the run stopped.
#[derive(Clone, Copy, Debug, PartialEq, Eq, Structural)]
pub enum FatalReason {
    /// The range ends before it starts.
    InvalidRange,
    /// No token was handed in and no cookie store holds one.
    NoCredentialFound,
    /// A date of the range lies after today.
    FuturePuzzleRequested,
    /// The service could not be reached.
    TransportError,
}

/// Why nothing was kept for a date.
#[derive(Clone, Copy, Debug, PartialEq, Eq, Structural)]
pub enum SkipReason {
    /// What the service sent is not a PDF document.
    InvalidPayload,
}

/// What became of the fetch for one date.
#[derive(Clone, Debug)]
pub enum FetchResult {
    /// The payload is to be kept at this place below the destination.
    Saved(String),
    /// Nothing is kept; the run goes on.
    Skipped(SkipReason),
    /// The run stops.
    Fatal(FatalReason),
}

/// Judges what came of the request for a target: no response stops the run,
/// a PDF document is kept at the target's place, anything else is skipped.
pub fn judge_response(target: &FetchTarget, response: Option<&[u8]>) -> (r: FetchResult)
    ensures
        match response {
            None => r == FetchResult::Fatal(FatalReason::TransportError),
            Some(body) => if is_pdf(body@) {
                r matches FetchResult::Saved(path) && path@ == target.year_dir@ + "/"@
                    + target.month_dir@ + "/"@ + target.file_name@
            } else {
                r == FetchResult::Skipped(SkipReason::InvalidPayload)
            },
        },
{
    match response {
        None => FetchResult::Fatal(FatalReason::TransportError),
        Some(body) => {
            if has_pdf_signature(body) {
                FetchResult::Saved(target.relative_path())
            } else {
                FetchResult::Skipped(SkipReason::InvalidPayload)
            }
        },
    }
}

} // verus!
