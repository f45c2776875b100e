use vstd::prelude::*;
use chrono::Datelike;
use chrono::NaiveDate;

verus! {

/// A calendar date, held as year, month (1-12) and day of month (1-31).
#[derive(Clone, Copy, Debug, PartialEq, Eq, Structural)]
pub struct CalendarDate {
    pub year: i32,
    pub month: u32,
    pub day: u32,
}

impl View for CalendarDate {
    type V = (int, int, int);

    open spec fn view(&self) -> (int, int, int) {
        (self.year as int, self.month as int, self.day as int)
    }
}

/// The date that a `YYYY-MM-DD` text denotes when the whole text is read, if any.
pub uninterp spec fn date_of_text(s: Seq<char>) -> Option<(int, int, int)>;

/// The date that the `YYYY-MM-DD` head of a text denotes, the rest of the text
/// left unread, if any.
pub uninterp spec fn date_of_head(s: Seq<char>) -> Option<(int, int, int)>;

/// Chronological order on (year, month, day) triples.
pub open spec fn date_before(a: (int, int, int), b: (int, int, int)) -> bool {
    a.0 < b.0 || (a.0 == b.0 && (a.1 < b.1 || (a.1 == b.1 && a.2 < b.2)))
}

/// Relies on chrono's `NaiveDate::parse_from_str` with the format `%Y-%m-%d`:
/// the date that the whole text denotes, or an error.
#[verifier::external_body]
pub(crate) fn parse_date(s: &str) -> (r: Option<CalendarDate>)
    ensures
        r.is_some() == date_of_text(s@).is_some(),
        r.is_some() ==> date_of_text(s@) == Some(r.unwrap()@),
{
    match NaiveDate::parse_from_str(s, "%Y-%m-%d") {
        Ok(d) => Some(CalendarDate { year: d.year(), month: d.month(), day: d.day() }),
        Err(_) => None,
    }
}

/// Relies on chrono's `NaiveDate::parse_and_remainder` with the format `%Y-%m-%d`:
/// the date that the head of the text denotes, or an error.
#[verifier::external_body]
pub(crate) fn parse_date_head(s: &str) -> (r: Option<CalendarDate>)
    ensures
        r.is_some() == date_of_head(s@).is_some(),
        r.is_some() ==> date_of_head(s@) == Some(r.unwrap()@),
{
    match NaiveDate::parse_and_remainder(s, "%Y-%m-%d") {
        Ok((d, _)) => Some(CalendarDate { year: d.year(), month: d.month(), day: d.day() }),
        Err(_) => None,
    }
}

/// Whether `a` falls strictly before `b`.
pub fn is_before(a: &CalendarDate, b: &CalendarDate) -> (r: bool)
    ensures
        r == date_before(a@, b@),
{
    a.year < b.year || (a.year == b.year && (a.month < b.month || (a.month == b.month
        && a.day < b.day)))
}

} // verus!
