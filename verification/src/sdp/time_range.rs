//! Preset time ranges for a session.

use std::time::SystemTime;
use vstd::prelude::*;

verus! {

/// `std::time::SystemTime`, which is carried through and never looked into.
#[verifier::external_type_specification]
#[verifier::external_body]
pub struct ExSystemTime(std::time::SystemTime);

/// The seconds between the first of January 1900 and the first of January 1970.
pub const SECONDS_FROM_1900_TO_1970: u64 = 2208988800;

/// When a session is active: without end, or from `start` to `end` in seconds since 1900.
#[derive(Debug, Clone, Copy, PartialEq, Eq, Structural)]
pub enum TimeRange {
    Live,
    Playback { start: u64, end: u64 },
}

/// What the library reads of a system time: the whole seconds from the Unix epoch to `time`,
/// or nothing where `time` lies before the epoch.
pub uninterp spec fn unix_seconds(time: SystemTime) -> Option<u64>;

/// `SystemTime::duration_since` with the Unix epoch, and `Duration::as_secs` of what it gives:
/// the whole seconds from the epoch to `time`, or nothing where `time` lies before the epoch.
/// The contract gives that result its name and says no more of it.
#[verifier::external_body]
fn seconds_since_epoch(time: SystemTime) -> (r: Option<u64>)
    ensures
        r == unix_seconds(time),
{
    match time.duration_since(std::time::UNIX_EPOCH) {
        Ok(duration) => Some(duration.as_secs()),
        Err(_) => None,
    }
}

/// The seconds since 1970 that stand for `time`: the whole seconds from the Unix epoch to
/// `time`, and zero for a time before the epoch.
pub open spec fn unix_time(time: SystemTime) -> u64 {
    match unix_seconds(time) {
        Some(seconds) => seconds,
        None => 0,
    }
}

/// The whole seconds from the Unix epoch to `time`, and zero for a time before the epoch.
#[inline]
pub fn convert_time_to_unix_epoch(time: SystemTime) -> (r: u64)
    ensures
        r == unix_time(time),
{
    match seconds_since_epoch(time) {
        Some(seconds) => seconds,
        None => 0,
    }
}

/// `SystemTime::now`: the time of the call.
#[verifier::external_body]
pub(crate) fn current_time() -> SystemTime {
    SystemTime::now()
}

/// The time of the session description for `unix` seconds since 1970: so many seconds
/// since 1900, and the largest time there is where that is too large.
pub open spec fn sdp_time(unix: u64) -> u64 {
    if unix + SECONDS_FROM_1900_TO_1970 <= u64::MAX {
        (unix + SECONDS_FROM_1900_TO_1970) as u64
    } else {
        u64::MAX
    }
}

/// The time of the session description for `unix` seconds since 1970.
pub fn convert_unix_epoch_to_sdp_time(unix: u64) -> (r: u64)
    ensures
        r == sdp_time(unix),
{
    unix.saturating_add(SECONDS_FROM_1900_TO_1970)
}

/// The time of the session description for a system time.
#[inline(always)]
pub fn convert_system_time_to_sdp_time(time: SystemTime) -> (r: u64)
    ensures
        r == sdp_time(unix_time(time)),
{
    convert_unix_epoch_to_sdp_time(convert_time_to_unix_epoch(time))
}

impl TimeRange {
    /// A session without end.
    #[inline]
    pub fn live() -> (r: TimeRange)
        ensures
            r == TimeRange::Live,
    {
        TimeRange::Live
    }

    /// A session from `start` to `end`.
    #[inline]
    pub fn playback(start: SystemTime, end: SystemTime) -> (r: TimeRange)
        ensures
            r == (TimeRange::Playback {
                start: sdp_time(unix_time(start)),
                end: sdp_time(unix_time(end)),
            }),
    {
        TimeRange::playback_between(
            convert_time_to_unix_epoch(start),
            convert_time_to_unix_epoch(end),
        )
    }

    /// A session from `start` to `end`, both in seconds since 1970.
    pub fn playback_between(start: u64, end: u64) -> (r: TimeRange)
        ensures
            r == (TimeRange::Playback { start: sdp_time(start), end: sdp_time(end) }),
    {
        TimeRange::Playback {
            start: convert_unix_epoch_to_sdp_time(start),
            end: convert_unix_epoch_to_sdp_time(end),
        }
    }

    /// The time range in words.
    pub open spec fn text(self) -> Seq<u8> {
        match self {
            TimeRange::Live => crate::text::lit("live"),
            TimeRange::Playback { start, end } => crate::text::lit("from ") + crate::text::decimal(
                start as nat,
            ) + crate::text::lit(" to ") + crate::text::decimal(end as nat),
        }
    }

    /// The time range in words.
    pub fn to_bytes(&self) -> (r: Vec<u8>)
        ensures
            r@ == self.text(),
    {
        match self {
            TimeRange::Live => crate::text::text_of("live"),
            TimeRange::Playback { start, end } => {
                let mut out = crate::text::text_of("from ");
                crate::text::push_decimal(&mut out, *start);
                crate::text::push_all(&mut out, " to ".as_bytes());
                crate::text::push_decimal(&mut out, *end);
                assert(out@ =~= self.text());
                out
            },
        }
    }
}

} // verus!
