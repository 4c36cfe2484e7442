//! Listing timestamps, held as plain calendar fields.
//!
//! The portal prints upload times in one fixed `Www Mmm  d hh:mm:ss yyyy`
//! shape.  Reading that shape (month names, field ranges, and the
//! weekday's consistency with the date) is delegated to chrono behind a
//! trusted wrapper; everything downstream works on the plain fields.

use chrono::Datelike;
use chrono::Timelike;
use vstd::prelude::*;

verus! {

/// An upload time from a directory listing.
#[derive(Clone, Copy, Debug, PartialEq, Eq, Structural)]
pub struct Timestamp {
    pub year: i32,
    pub month: u8,
    pub day: u8,
    pub hour: u8,
    pub minute: u8,
    pub second: u8,
}

impl Timestamp {
    /// Field ranges every parsed timestamp lies in.
    pub open spec fn wf(self) -> bool {
        &&& 1 <= self.month <= 12
        &&& 1 <= self.day <= 31
        &&& self.hour <= 23
        &&& self.minute <= 59
        &&& self.second <= 59
    }

    /// Chronological order: most significant calendar field first.
    pub open spec fn spec_le(self, other: Timestamp) -> bool {
        if self.year != other.year {
            self.year < other.year
        } else if self.month != other.month {
            self.month < other.month
        } else if self.day != other.day {
            self.day < other.day
        } else if self.hour != other.hour {
            self.hour < other.hour
        } else if self.minute != other.minute {
            self.minute < other.minute
        } else {
            self.second <= other.second
        }
    }

    /// Executable form of `spec_le`.
    pub fn le(&self, other: &Timestamp) -> (r: bool)
        ensures
            r == self.spec_le(*other),
    {
        if self.year != other.year {
            self.year < other.year
        } else if self.month != other.month {
            self.month < other.month
        } else if self.day != other.day {
            self.day < other.day
        } else if self.hour != other.hour {
            self.hour < other.hour
        } else if self.minute != other.minute {
            self.minute < other.minute
        } else {
            self.second <= other.second
        }
    }
}

/// What the portal's timestamp text denotes: the calendar fields when the
/// text parses in the fixed format, and nothing otherwise.
pub uninterp spec fn ts_of(s: Seq<char>) -> Option<Timestamp>;

/// Relies on chrono's `NaiveDateTime::parse_from_str` with the fixed
/// format `%a %b  %d %H:%M:%S %Y`: the result is a function of the text
/// alone, and chrono documents its calendar accessors to lie in the usual
/// ranges (month 1..=12, day 1..=31, hour 0..=23, minute and second
/// 0..=59).
#[verifier::external_body]
pub fn parse_timestamp(s: &str) -> (r: Option<Timestamp>)
    ensures
        r == ts_of(s@),
        r matches Some(t) ==> t.wf(),
{
    match chrono::NaiveDateTime::parse_from_str(s, "%a %b  %d %H:%M:%S %Y") {
        Ok(dt) => Some(
            Timestamp {
                year: dt.year(),
                month: dt.month() as u8,
                day: dt.day() as u8,
                hour: dt.hour() as u8,
                minute: dt.minute() as u8,
                second: dt.second() as u8,
            },
        ),
        Err(_) => None,
    }
}

} // verus!
