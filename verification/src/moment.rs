//! Instants, as token expiry dates name them.

use vstd::prelude::*;
use vstd::string::*;

use time::format_description::well_known::Rfc3339;
use time::{OffsetDateTime, UtcOffset};

verus! {

/// The seconds of the earliest and the latest wall-clock time that a timestamp
/// can show, the years -9999 to 9999 being the ones that it has.
pub const FIRST_SECOND: i128 = -377_705_116_800;

pub const LAST_SECOND: i128 = 253_402_300_799;

/// How far from UTC a timestamp's offset can be, in seconds.
pub const WIDEST_OFFSET: i32 = 93_599;

/// A wall-clock time and the offset from UTC that it was written with.
#[derive(Clone, Copy, Debug)]
pub struct Timestamp {
    local_nanos: i128,
    offset_seconds: i32,
}

/// A timestamp as the contracts speak of it: the wall-clock time, in nanoseconds
/// from the wall-clock time 1970-01-01T00:00:00, and the offset from UTC.
pub ghost struct TimestampView {
    pub local_nanos: int,
    pub offset_seconds: int,
}

impl TimestampView {
    /// The instant that is meant, in nanoseconds from the Unix epoch.
    pub open spec fn instant(self) -> int {
        self.local_nanos - self.offset_seconds * 1_000_000_000
    }

    /// Whether a timestamp can show that time.
    pub open spec fn in_range(self) -> bool {
        &&& FIRST_SECOND * 1_000_000_000 <= self.local_nanos
        &&& self.local_nanos < (LAST_SECOND + 1) * 1_000_000_000
        &&& -WIDEST_OFFSET <= self.offset_seconds <= WIDEST_OFFSET
    }

    /// The timestamp written out, as a client is shown it.
    pub open spec fn shown(self) -> Seq<char> {
        match rfc3339(self.local_nanos as i128, self.offset_seconds as i32) {
            Some(text) => text,
            None => "an earlier date"@,
        }
    }
}

impl View for Timestamp {
    type V = TimestampView;

    closed spec fn view(&self) -> TimestampView {
        TimestampView {
            local_nanos: self.local_nanos as int,
            offset_seconds: self.offset_seconds as int,
        }
    }
}

/// A wall-clock time and an offset written as RFC 3339 asks; `None` where that
/// format cannot show them.
pub uninterp spec fn rfc3339(local_nanos: i128, offset_seconds: i32) -> Option<Seq<char>>;

/// `OffsetDateTime::format` of `time` with `Rfc3339`. The contract claims that
/// the text, or that there is none, depends on the wall-clock time and the offset
/// alone.
#[verifier::external_body]
fn format_rfc3339(local_nanos: i128, offset_seconds: i32) -> (r: Option<String>)
    ensures
        (match r {
            Some(text) => Some(text@),
            None => None,
        }) == rfc3339(local_nanos, offset_seconds),
{
    let local = OffsetDateTime::from_unix_timestamp_nanos(local_nanos).ok()?;
    let offset = UtcOffset::from_whole_seconds(offset_seconds).ok()?;
    local.replace_offset(offset).format(&Rfc3339).ok()
}

impl Timestamp {
    #[verifier::type_invariant]
    spec fn well_formed(self) -> bool {
        self@.in_range()
    }

    /// The timestamp that shows a wall-clock time at an offset from UTC; `None`
    /// where there is no such timestamp.
    pub fn new(local_nanos: i128, offset_seconds: i32) -> (r: Option<Self>)
        ensures
            ({
                let view = (TimestampView {
                    local_nanos: local_nanos as int,
                    offset_seconds: offset_seconds as int,
                });
                &&& r is Some <==> view.in_range()
                &&& r matches Some(t) ==> t@ == view
            }),
    {
        if FIRST_SECOND * 1_000_000_000 <= local_nanos
            && local_nanos < (LAST_SECOND + 1) * 1_000_000_000
            && -WIDEST_OFFSET <= offset_seconds && offset_seconds <= WIDEST_OFFSET {
            Some(Timestamp { local_nanos, offset_seconds })
        } else {
            None
        }
    }

    /// The instant that is meant, in nanoseconds from the Unix epoch.
    pub fn instant(&self) -> (r: i128)
        ensures
            r == self@.instant(),
            -1_000_000_000_000_000_000_000 < r < 1_000_000_000_000_000_000_000,
    {
        proof {
            use_type_invariant(self);
        }
        self.local_nanos - (self.offset_seconds as i128) * 1_000_000_000
    }

    /// Whether this is the same instant as `other`, or a later one.
    pub fn reaches(&self, other: &Timestamp) -> (r: bool)
        ensures
            r == (self@.instant() >= other@.instant()),
    {
        self.instant() >= other.instant()
    }

    /// How many nanoseconds it is from `other` to this instant: negative where
    /// `other` is the later one.
    pub fn since(&self, other: &Timestamp) -> (r: i128)
        ensures
            r == self@.instant() - other@.instant(),
    {
        self.instant() - other.instant()
    }

    /// The timestamp written out, as a client is shown it.
    pub fn show(&self) -> (r: String)
        ensures
            r@ == self@.shown(),
    {
        match format_rfc3339(self.local_nanos, self.offset_seconds) {
            Some(text) => text,
            None => "an earlier date".to_owned(),
        }
    }
}

// ---------------------------------------------------------------------------
// What holds of timestamps
// ---------------------------------------------------------------------------

/// A wall-clock time at UTC is the instant itself. The same wall-clock time a second
/// further east of UTC is a second earlier, and a later wall-clock time is later by
/// as much.
pub proof fn an_offset_is_taken_away(t: TimestampView, seconds: int, nanos: int)
    ensures
        t.offset_seconds == 0 ==> t.instant() == t.local_nanos,
        (TimestampView { offset_seconds: t.offset_seconds + seconds, ..t }).instant()
            == t.instant() - seconds * 1_000_000_000,
        (TimestampView { local_nanos: t.local_nanos + nanos, ..t }).instant() == t.instant()
            + nanos,
{
}

/// A timestamp is shown with the wall-clock time and the offset that it was written
/// with, wherever RFC 3339 can show them.
pub proof fn a_timestamp_is_shown_as_it_was_written(t: TimestampView)
    ensures
        rfc3339(t.local_nanos as i128, t.offset_seconds as i32) matches Some(text) ==> t.shown()
            == text,
        rfc3339(t.local_nanos as i128, t.offset_seconds as i32) is None ==> t.shown()
            == "an earlier date"@,
{
}

/// A timestamp can show the years -9999 to 9999, and offsets of less than 26 hours.
pub proof fn a_timestamp_shows_the_years_it_has(t: TimestampView)
    ensures
        t.in_range() <==> -377_705_116_800_000_000_000 <= t.local_nanos
            < 253_402_300_800_000_000_000 && -93_600 < t.offset_seconds < 93_600,
{
}

} // verus!
