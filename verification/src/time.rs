//! Instants of time, and the whole seconds between two of them.

use vstd::prelude::*;

verus! {

/// The seconds of the earliest instant: the start of the year -262143.
pub const EARLIEST_SECONDS: i64 = -8_334_601_228_800;

/// The seconds of the latest instant: the last second of the year 262142.
pub const LATEST_SECONDS: i64 = 8_210_266_876_799;

/// The seconds of the start of the year 1904, from which font files count
/// time.
pub const EPOCH_1904_SECONDS: i64 = -2_082_844_800;

/// What a `Timestamp` is, as plain values.
pub struct TimestampView {
    /// The whole seconds since the start of 1970, leap seconds not counted.
    pub seconds: int,
    /// The nanoseconds since the last whole second.
    pub nanos: int,
}

/// The whole seconds from `earlier` to `later`: the difference, rounded
/// towards zero.
pub open spec fn whole_seconds(later: TimestampView, earlier: TimestampView) -> int {
    let nanos = (later.seconds - earlier.seconds) * 1_000_000_000 + (later.nanos - earlier.nanos);
    if nanos >= 0 {
        nanos / 1_000_000_000
    } else {
        -((-nanos) / 1_000_000_000)
    }
}

/// The instants that a `Timestamp` can hold.
pub open spec fn in_range(seconds: int, nanos: int) -> bool {
    EARLIEST_SECONDS <= seconds <= LATEST_SECONDS && 0 <= nanos < 1_000_000_000
}

/// `chrono::DateTime::from_timestamp` for each of the two instants, then
/// `DateTime::signed_duration_since` and `TimeDelta::num_seconds`: the
/// instants are in chrono's range and hold no leap second, so both exist;
/// the duration is their exact difference, and its whole seconds are that
/// difference rounded towards zero.
#[verifier::external_body]
fn seconds_between(
    later_seconds: i64,
    later_nanos: u32,
    earlier_seconds: i64,
    earlier_nanos: u32,
) -> (seconds: i64)
    requires
        in_range(later_seconds as int, later_nanos as int),
        in_range(earlier_seconds as int, earlier_nanos as int),
    ensures
        seconds == whole_seconds(
            TimestampView { seconds: later_seconds as int, nanos: later_nanos as int },
            TimestampView { seconds: earlier_seconds as int, nanos: earlier_nanos as int },
        ),
{
    let later = chrono::DateTime::from_timestamp(later_seconds, later_nanos).unwrap();
    let earlier = chrono::DateTime::from_timestamp(earlier_seconds, earlier_nanos).unwrap();
    later.signed_duration_since(earlier).num_seconds()
}

/// An instant of universal time, to the nanosecond, without leap seconds.
#[derive(Debug, Clone, Copy, PartialEq, Eq)]
pub struct Timestamp {
    seconds: i64,
    nanos: u32,
}

impl View for Timestamp {
    type V = TimestampView;

    closed spec fn view(&self) -> TimestampView {
        TimestampView { seconds: self.seconds as int, nanos: self.nanos as int }
    }
}

impl Timestamp {
    #[verifier::type_invariant]
    spec fn valid(self) -> bool {
        in_range(self.seconds as int, self.nanos as int)
    }

    /// The instant `nanos` nanoseconds after the second `seconds`, counted
    /// from the start of 1970, if it lies between the years -262143 and
    /// 262142 and `nanos` is less than a second.
    pub fn try_create(seconds: i64, nanos: u32) -> (timestamp: Option<Self>)
        ensures
            timestamp is Some <==> in_range(seconds as int, nanos as int),
            timestamp matches Some(t) ==> t@.seconds == seconds && t@.nanos == nanos,
    {
        if EARLIEST_SECONDS <= seconds && seconds <= LATEST_SECONDS && nanos < 1_000_000_000 {
            Some(Self { seconds, nanos })
        } else {
            None
        }
    }

    /// The start of the year 1904.
    pub fn epoch_1904() -> (epoch: Self)
        ensures
            epoch@.seconds == EPOCH_1904_SECONDS,
            epoch@.nanos == 0,
    {
        Self { seconds: EPOCH_1904_SECONDS, nanos: 0 }
    }

    /// The whole seconds since the start of 1970.
    pub fn seconds(&self) -> (seconds: i64)
        ensures
            seconds == self@.seconds,
            in_range(self@.seconds, self@.nanos),
    {
        proof {
            use_type_invariant(self);
        }
        self.seconds
    }

    /// The nanoseconds since the last whole second.
    pub fn subsec_nanos(&self) -> (nanos: u32)
        ensures
            nanos == self@.nanos,
    {
        self.nanos
    }

    /// The whole seconds from `earlier` to this instant, rounded towards
    /// zero.
    pub fn seconds_since(&self, earlier: &Timestamp) -> (seconds: i64)
        ensures
            seconds == whole_seconds(self@, earlier@),
    {
        proof {
            use_type_invariant(self);
            use_type_invariant(earlier);
        }
        seconds_between(self.seconds, self.nanos, earlier.seconds, earlier.nanos)
    }
}

} // verus!
