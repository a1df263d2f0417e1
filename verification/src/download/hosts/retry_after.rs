//! How long a server wants a pause to be.

use chrono::DateTime;
use vstd::prelude::*;
use crate::utils::numbers::parse_number;
#[allow(unused_imports)]
use crate::utils::numbers::number_in;
use crate::utils::text::chars_of;

verus! {

/// A moment in time: whole seconds since the beginning of 1970, and nanoseconds. A
/// leap second has more than a second's worth of nanoseconds.
#[derive(Debug, Clone, Copy, PartialEq, Eq, Structural)]
pub struct Moment {
    pub seconds: i64,
    pub nanos: u32,
}

/// What `DateTime::parse_from_rfc2822` reads: the seconds and nanoseconds of the
/// moment that a text names, if it names one.
pub uninterp spec fn rfc2822_moment(text: Seq<char>) -> Option<(i64, u32)>;

/// `DateTime::parse_from_rfc2822`, with `timestamp` and `timestamp_subsec_nanos` of
/// what it reads. What texts it takes is left open.
#[verifier::external_body]
fn parse_rfc2822(text: &str) -> (r: Option<(i64, u32)>)
    ensures
        r == rfc2822_moment(text@),
{
    match DateTime::parse_from_rfc2822(text) {
        Ok(date) => Some((date.timestamp(), date.timestamp_subsec_nanos())),
        Err(_) => None,
    }
}

impl Moment {
    /// The second of the day.
    pub open spec fn second_of_day(self) -> int {
        self.seconds as int % 86400
    }

    /// The nanoseconds from another moment to this one. A leap second between the
    /// two counts if it is over.
    pub open spec fn nanos_since(self, other: Moment) -> int {
        let leap: int = if self.second_of_day() > other.second_of_day() && other.nanos
            >= 1_000_000_000 {
            1
        } else if self.second_of_day() < other.second_of_day() && self.nanos >= 1_000_000_000 {
            -1
        } else {
            0
        };
        (self.seconds - other.seconds + leap) * 1_000_000_000 + (self.nanos - other.nanos)
    }

    /// The whole seconds from now until this moment, none if it is over.
    pub open spec fn seconds_from(self, now: Moment) -> nat {
        if self.nanos_since(now) <= 0 {
            0
        } else {
            (self.nanos_since(now) / 1_000_000_000) as nat
        }
    }

    fn day_second(&self) -> (r: i64)
        ensures
            r == self.second_of_day(),
    {
        let r: i64 = self.seconds % 86400;
        if r < 0 {
            r + 86400
        } else {
            r
        }
    }

    /// The whole seconds from now until this moment, none if it is over, and no more
    /// than can be told.
    pub fn wait_from(&self, now: &Moment) -> (r: u64)
        ensures
            r == if self.seconds_from(*now) <= u64::MAX {
                self.seconds_from(*now)
            } else {
                u64::MAX as nat
            },
    {
        let here: i64 = self.day_second();
        let there: i64 = now.day_second();
        let leap: i128 = if here > there && now.nanos >= 1_000_000_000 {
            1
        } else if here < there && self.nanos >= 1_000_000_000 {
            -1
        } else {
            0
        };
        let nanos: i128 = (self.seconds as i128 - now.seconds as i128 + leap) * 1_000_000_000 + (
        self.nanos as i128 - now.nanos as i128);
        if nanos <= 0 {
            return 0;
        }
        let seconds: i128 = nanos / 1_000_000_000;
        if seconds <= u64::MAX as i128 {
            seconds as u64
        } else {
            u64::MAX
        }
    }
}

/// How many seconds a server wants a pause to be: a number of them, or a moment in
/// the form that mail uses. What is neither says nothing.
pub fn parse_retry_after(header: Option<&str>, now: &Moment) -> (r: Option<u64>)
    ensures
        match header {
            None => r.is_none(),
            Some(text) => match number_in(text@) {
                Some(seconds) => r == Some(seconds),
                None => match rfc2822_moment(text@) {
                    Some((seconds, nanos)) => {
                        let wait = (Moment { seconds, nanos }).seconds_from(*now);
                        r == Some(
                            if wait <= u64::MAX {
                                wait as u64
                            } else {
                                u64::MAX
                            },
                        )
                    },
                    None => r.is_none(),
                },
            },
        },
{
    let text = match header {
        Some(text) => text,
        None => {
            return None;
        },
    };
    let chars = chars_of(text);
    if let Some(seconds) = parse_number(&chars) {
        return Some(seconds);
    }
    match parse_rfc2822(text) {
        Some((seconds, nanos)) => {
            let date = Moment { seconds, nanos };
            Some(date.wait_from(now))
        },
        None => None,
    }
}

} // verus!
