//! The `Range` header: which part of a stream is meant, in normal play time.

use crate::rtsp::error::{Error, ErrorView};
use crate::text::{
    all_digits, bytes_eq, copy_of, decimal, digits_value, has_prefix, is_digit, lit, parse_number,
    parse_unsigned, push_all, push_decimal, split, split_at_each, split_once, split_once_at,
    starts_with, views, COLON, DASH, DOT, EQUALS, PLUS, SEMICOLON,
};
use vstd::prelude::*;

verus! {

/// A point in normal play time: now, or so many seconds and thousandths of a second from
/// the beginning.
#[derive(Debug, Clone, Copy, PartialEq, Eq, Structural)]
pub enum NptTime {
    Now,
    Time { seconds: u64, millis: u16 },
}

/// A part of a stream, from `start` to `end`; an open side has no time.
#[derive(Debug, Clone, Copy, PartialEq, Eq, Structural)]
pub struct Range {
    pub start: Option<NptTime>,
    pub end: Option<NptTime>,
}

/// Reading of an unsigned number without a sign: one or more digits.
pub open spec fn plain_number(s: Seq<u8>, max: nat) -> Option<nat> {
    if s.len() > 0 && s[0] == PLUS {
        None
    } else {
        parse_unsigned(s, max)
    }
}

/// The thousandths that the digits behind a decimal point spell: the first three of them,
/// with zeros for those that are not there.
pub open spec fn millis_of(fraction: Seq<u8>) -> nat {
    digits_value((fraction + seq![48u8, 48u8, 48u8]).take(3))
}

/// Reading of seconds: digits, and behind a point more digits, with at least one digit on
/// one side of the point. Digits behind the third after the point are not read.
pub open spec fn seconds_parsed(s: Seq<u8>) -> Option<(u64, u16)> {
    let (whole, fraction) = match split_once(s, DOT) {
        Some((whole, fraction)) => (whole, fraction),
        None => (s, Seq::<u8>::empty()),
    };
    if whole.len() + fraction.len() == 0 || !all_digits(fraction) {
        None
    } else if whole.len() == 0 {
        Some((0u64, millis_of(fraction) as u16))
    } else {
        match plain_number(whole, u64::MAX as nat) {
            Some(seconds) => Some((seconds as u64, millis_of(fraction) as u16)),
            None => None,
        }
    }
}

/// Three digits for `millis`, with zeros in front.
pub open spec fn millis_text(millis: u16) -> Seq<u8> {
    seq![
        (48 + (millis / 100) % 10) as u8,
        (48 + (millis / 10) % 10) as u8,
        (48 + millis % 10) as u8,
    ]
}

impl NptTime {
    pub open spec fn text(self) -> Seq<u8> {
        match self {
            NptTime::Now => lit("now"),
            NptTime::Time { seconds, millis } => decimal(seconds as nat) + seq![DOT] + millis_text(
                millis,
            ),
        }
    }

    /// Reading of a time: `now`, seconds, or hours, minutes and seconds with colons between
    /// them.
    pub open spec fn of_text(s: Seq<u8>) -> Option<NptTime> {
        if s == lit("now") {
            Some(NptTime::Now)
        } else {
            let parts = split(s, COLON);
            if parts.len() == 1 {
                match seconds_parsed(parts[0]) {
                    Some((seconds, millis)) => Some(NptTime::Time { seconds, millis }),
                    None => None,
                }
            } else if parts.len() == 3 {
                match (
                    plain_number(parts[0], u32::MAX as nat),
                    plain_number(parts[1], u32::MAX as nat),
                    seconds_parsed(parts[2]),
                ) {
                    (Some(hours), Some(minutes), Some((seconds, millis))) => if hours * 3600
                        + minutes * 60 + seconds <= u64::MAX {
                        Some(
                            NptTime::Time {
                                seconds: (hours * 3600 + minutes * 60 + seconds) as u64,
                                millis,
                            },
                        )
                    } else {
                        None
                    },
                    _ => None,
                }
            } else {
                None
            }
        }
    }

    pub fn to_bytes(&self) -> (r: Vec<u8>)
        ensures
            r@ == self.text(),
    {
        match self {
            NptTime::Now => crate::text::text_of("now"),
            NptTime::Time { seconds, millis } => {
                let mut out: Vec<u8> = Vec::new();
                push_decimal(&mut out, *seconds);
                out.push(DOT);
                out.push((48 + (*millis / 100) % 10) as u8);
                out.push((48 + (*millis / 10) % 10) as u8);
                out.push((48 + *millis % 10) as u8);
                assert(out@ =~= self.text());
                out
            },
        }
    }

    pub fn from_bytes(s: &[u8]) -> (r: Result<NptTime, Error>)
        ensures
            match NptTime::of_text(s@) {
                Some(time) => r matches Ok(t) && t == time,
                None => r matches Err(e) && e@ == (ErrorView::RangeNptTimeMalfored { value: s@ }),
            },
    {
        if bytes_eq(s, "now".as_bytes()) {
            return Ok(NptTime::Now);
        }
        let parts = split_at_each(s, COLON);
        assert(views(parts@)[0] == parts@[0]@);
        if parts.len() == 1 {
            match parse_seconds(parts[0].as_slice()) {
                Some((seconds, millis)) => Ok(NptTime::Time { seconds, millis }),
                None => Err(Error::RangeNptTimeMalfored { value: copy_of(s) }),
            }
        } else if parts.len() == 3 {
            assert(views(parts@)[1] == parts@[1]@);
            assert(views(parts@)[2] == parts@[2]@);
            let hours = parse_plain(parts[0].as_slice(), u32::MAX as u64);
            let minutes = parse_plain(parts[1].as_slice(), u32::MAX as u64);
            let seconds = parse_seconds(parts[2].as_slice());
            match (hours, minutes, seconds) {
                (Some(hours), Some(minutes), Some((seconds, millis))) => {
                    let more = hours * 3600 + minutes * 60;
                    if seconds <= u64::MAX - more {
                        Ok(NptTime::Time { seconds: more + seconds, millis })
                    } else {
                        Err(Error::RangeNptTimeMalfored { value: copy_of(s) })
                    }
                },
                _ => Err(Error::RangeNptTimeMalfored { value: copy_of(s) }),
            }
        } else {
            Err(Error::RangeNptTimeMalfored { value: copy_of(s) })
        }
    }
}

fn parse_plain(s: &[u8], max: u64) -> (r: Option<u64>)
    ensures
        match r {
            Some(v) => plain_number(s@, max as nat) == Some(v as nat),
            None => plain_number(s@, max as nat) is None,
        },
{
    if s.len() > 0 && s[0] == PLUS {
        None
    } else {
        parse_number(s, max)
    }
}

fn digit_at(s: &[u8], i: usize) -> (r: u16)
    requires
        all_digits(s@),
    ensures
        r <= 9,
        r == if i < s@.len() {
            (s@[i as int] - 48) as int
        } else {
            0
        },
{
    if i < s.len() {
        assert(is_digit(s@[i as int]));
        (s[i] - 48) as u16
    } else {
        0
    }
}

fn parse_seconds(s: &[u8]) -> (r: Option<(u64, u16)>)
    ensures
        r == seconds_parsed(s@),
{
    let (whole, fraction): (&[u8], &[u8]) = match split_once_at(s, DOT) {
        Some((whole, fraction)) => (whole, fraction),
        None => {
            let empty = vstd::slice::slice_subrange(s, 0, 0);
            assert(empty@ =~= Seq::<u8>::empty());
            (s, empty)
        },
    };
    if whole.len() == 0 && fraction.len() == 0 {
        return None;
    }
    let mut i: usize = 0;
    while i < fraction.len()
        invariant
            0 <= i <= fraction@.len(),
            forall|j: int| 0 <= j < i ==> is_digit(#[trigger] fraction@[j]),
            (whole@, fraction@) == (match split_once(s@, DOT) {
                Some((whole, fraction)) => (whole, fraction),
                None => (s@, Seq::<u8>::empty()),
            }),
            whole@.len() + fraction@.len() > 0,
        decreases fraction@.len() - i,
    {
        if fraction[i] < 48 || fraction[i] > 57 {
            assert(!is_digit(fraction@[i as int]));
            return None;
        }
        i += 1;
    }
    let millis = digit_at(fraction, 0) * 100 + digit_at(fraction, 1) * 10 + digit_at(fraction, 2);
    proof {
        let padded = (fraction@ + seq![48u8, 48u8, 48u8]).take(3);
        let d0 = padded.take(1);
        let d1 = padded.take(2);
        assert(d0.drop_last() =~= Seq::<u8>::empty());
        assert(d1.drop_last() =~= d0);
        assert(padded.drop_last() =~= d1);
        assert(digits_value(d0.drop_last()) == 0);
        assert(digits_value(d0) == padded[0] - 48);
        assert(digits_value(d1) == digits_value(d0) * 10 + (padded[1] - 48));
        assert(digits_value(padded) == digits_value(d1) * 10 + (padded[2] - 48));
        assert(millis == millis_of(fraction@));
    }
    if whole.len() == 0 {
        Some((0, millis))
    } else {
        match parse_plain(whole, u64::MAX) {
            Some(seconds) => Some((seconds, millis)),
            None => None,
        }
    }
}

impl Range {
    pub open spec fn text(self) -> Seq<u8> {
        lit("npt=") + (match self.start {
            Some(start) => start.text(),
            None => Seq::<u8>::empty(),
        }) + seq![DASH] + (match self.end {
            Some(end) => end.text(),
            None => Seq::<u8>::empty(),
        })
    }

    /// Reading of one side of a range: no time where there is no text.
    pub open spec fn side_of_text(s: Seq<u8>) -> Result<Option<NptTime>, ErrorView> {
        if s.len() == 0 {
            Ok(None)
        } else {
            match NptTime::of_text(s) {
                Some(time) => Ok(Some(time)),
                None => Err(ErrorView::RangeNptTimeMalfored { value: s }),
            }
        }
    }

    /// Reading of a range: `npt=`, then the start and the end with a dash between them, each
    /// of which may be left out. A range with a unit other than `npt`, or with an effective
    /// time behind a semicolon, is not supported.
    pub open spec fn of_text(s: Seq<u8>) -> Result<Range, ErrorView> {
        match split_once(s, SEMICOLON) {
            Some((_, time)) => if has_prefix(time, lit("time=")) {
                Err(ErrorView::RangeTimeNotSupported { value: s })
            } else {
                Err(ErrorView::RangeMalformed { value: s })
            },
            None => match split_once(s, EQUALS) {
                None => Err(ErrorView::RangeMalformed { value: s }),
                Some((unit, value)) => if unit != lit("npt") {
                    Err(ErrorView::RangeUnitNotSupported { value: s })
                } else {
                    match split_once(value, DASH) {
                        None => Err(ErrorView::RangeMalformed { value: s }),
                        Some((start, end)) => match Range::side_of_text(start) {
                            Err(e) => Err(e),
                            Ok(start) => match Range::side_of_text(end) {
                                Err(e) => Err(e),
                                Ok(end) => Ok(Range { start, end }),
                            },
                        },
                    }
                },
            },
        }
    }

    /// The range from `start` to `end`.
    pub fn new(start: NptTime, end: NptTime) -> (r: Range)
        ensures
            r == (Range { start: Some(start), end: Some(end) }),
    {
        Range { start: Some(start), end: Some(end) }
    }

    /// The range from now on.
    pub fn new_for_live() -> (r: Range)
        ensures
            r == (Range { start: Some(NptTime::Now), end: None }),
    {
        Range { start: Some(NptTime::Now), end: None }
    }

    pub fn to_bytes(&self) -> (r: Vec<u8>)
        ensures
            r@ == self.text(),
    {
        let mut out: Vec<u8> = Vec::new();
        push_all(&mut out, "npt=".as_bytes());
        if let Some(start) = &self.start {
            push_all(&mut out, start.to_bytes().as_slice());
        }
        out.push(DASH);
        if let Some(end) = &self.end {
            push_all(&mut out, end.to_bytes().as_slice());
        }
        assert(out@ =~= self.text());
        out
    }

    fn side_from_bytes(s: &[u8]) -> (r: Result<Option<NptTime>, Error>)
        ensures
            match Range::side_of_text(s@) {
                Ok(side) => r matches Ok(t) && t == side,
                Err(e) => r matches Err(x) && x@ == e,
            },
    {
        if s.len() == 0 {
            Ok(None)
        } else {
            match NptTime::from_bytes(s) {
                Ok(time) => Ok(Some(time)),
                Err(e) => Err(e),
            }
        }
    }

    pub fn from_bytes(s: &[u8]) -> (r: Result<Range, Error>)
        ensures
            match Range::of_text(s@) {
                Ok(range) => r matches Ok(x) && x == range,
                Err(e) => r matches Err(x) && x@ == e,
            },
    {
        match split_once_at(s, SEMICOLON) {
            Some((_, time)) => {
                if starts_with(time, "time=".as_bytes()) {
                    Err(Error::RangeTimeNotSupported { value: copy_of(s) })
                } else {
                    Err(Error::RangeMalformed { value: copy_of(s) })
                }
            },
            None => match split_once_at(s, EQUALS) {
                None => Err(Error::RangeMalformed { value: copy_of(s) }),
                Some((unit, value)) => {
                    if !bytes_eq(unit, "npt".as_bytes()) {
                        return Err(Error::RangeUnitNotSupported { value: copy_of(s) });
                    }
                    match split_once_at(value, DASH) {
                        None => Err(Error::RangeMalformed { value: copy_of(s) }),
                        Some((start, end)) => {
                            let start = match Range::side_from_bytes(start) {
                                Ok(start) => start,
                                Err(e) => {
                                    return Err(e);
                                },
                            };
                            let end = match Range::side_from_bytes(end) {
                                Ok(end) => end,
                                Err(e) => {
                                    return Err(e);
                                },
                            };
                            Ok(Range { start, end })
                        },
                    }
                },
            },
        }
    }
}

} // verus!
