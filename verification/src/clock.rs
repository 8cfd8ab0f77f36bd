//! Local time and durations, in milliseconds.

use vstd::prelude::*;

verus! {

/// Seconds since Epoch.
pub type Timestamp = u64;

/// Time duration as measured locally.
#[derive(Debug, Copy, Clone, PartialEq, Eq, PartialOrd, Ord, Structural)]
pub struct LocalDuration(pub u128);

impl LocalDuration {
    /// Create a new duration from whole seconds.
    pub fn from_secs(secs: u64) -> (d: LocalDuration)
        ensures
            d.0 == secs * 1000,
    {
        LocalDuration(secs as u128 * 1000)
    }

    /// Create a new duration from whole minutes.
    pub fn from_mins(mins: u64) -> (d: LocalDuration)
        requires
            mins * 60 <= u64::MAX,
        ensures
            d.0 == mins * 60 * 1000,
    {
        LocalDuration(mins as u128 * 60 * 1000)
    }

    /// Construct a new duration from milliseconds.
    pub fn from_millis(millis: u128) -> (d: LocalDuration)
        ensures
            d.0 == millis,
    {
        LocalDuration(millis)
    }

    /// Return the number of milliseconds in this duration.
    pub fn as_millis(&self) -> (millis: u128)
        ensures
            millis == self.0,
    {
        self.0
    }

    /// Whether this duration is at least as long as `other`.
    pub fn at_least(&self, other: LocalDuration) -> (r: bool)
        ensures
            r == (self.0 >= other.0),
    {
        self.0 >= other.0
    }
}

/// Local time. Holds at most `u64::MAX` whole seconds.
#[derive(Debug, Copy, Clone)]
pub struct LocalTime {
    millis: u128,
}

impl LocalTime {
    #[verifier::type_invariant]
    spec fn in_range(self) -> bool {
        self.millis / 1000 <= u64::MAX
    }

    /// Milliseconds since Epoch.
    pub closed spec fn millis(self) -> nat {
        self.millis as nat
    }

    /// Whole seconds since Epoch.
    pub open spec fn secs(self) -> nat {
        self.millis() / 1000
    }

    /// Whole seconds since Epoch, as a timestamp.
    pub open spec fn stamp(self) -> Timestamp {
        self.secs() as u64
    }

    /// The Epoch itself.
    pub fn epoch() -> (t: LocalTime)
        ensures
            t.millis() == 0,
    {
        LocalTime { millis: 0 }
    }

    /// Construct a local time from whole seconds since Epoch.
    pub fn from_secs(secs: u64) -> (t: LocalTime)
        ensures
            t.millis() == secs * 1000,
    {
        LocalTime { millis: secs as u128 * 1000 }
    }

    /// Construct a local time from milliseconds since Epoch.
    pub fn from_millis(millis: u64) -> (t: LocalTime)
        ensures
            t.millis() == millis,
    {
        LocalTime { millis: millis as u128 }
    }

    /// Whole seconds since Epoch.
    pub fn as_secs(&self) -> (secs: Timestamp)
        ensures
            secs == self.secs(),
            secs == self.stamp(),
    {
        proof {
            use_type_invariant(self);
        }
        (self.millis / 1000) as u64
    }

    /// Milliseconds since Epoch.
    pub fn as_millis(&self) -> (millis: u128)
        ensures
            millis == self.millis(),
    {
        self.millis
    }

    /// The time from `earlier` to this time; nothing if `earlier` is the
    /// later of the two.
    pub fn since(&self, earlier: LocalTime) -> (d: LocalDuration)
        ensures
            d.0 == if self.millis() >= earlier.millis() {
                self.millis() - earlier.millis()
            } else {
                0
            },
    {
        if self.millis >= earlier.millis {
            LocalDuration(self.millis - earlier.millis)
        } else {
            LocalDuration(0)
        }
    }
}

/// The time between `earlier` and `now`, counting a clock that went back as
/// no time at all.
pub open spec fn elapsed(now: LocalTime, earlier: LocalTime) -> nat {
    if now.millis() >= earlier.millis() {
        (now.millis() - earlier.millis()) as nat
    } else {
        0
    }
}

/// Clock. Tells the time that it was last set to.
#[derive(Debug, Copy, Clone)]
pub struct RefClock {
    now: LocalTime,
}

impl RefClock {
    /// The time the clock shows.
    pub closed spec fn time(self) -> LocalTime {
        self.now
    }

    /// A clock that shows `now`.
    pub fn new(now: LocalTime) -> (clock: RefClock)
        ensures
            clock.time() == now,
    {
        RefClock { now }
    }

    /// Set the clock.
    pub fn set(&mut self, now: LocalTime)
        ensures
            final(self).time() == now,
    {
        self.now = now;
    }

    /// The time the clock shows.
    pub fn local_time(&self) -> (now: LocalTime)
        ensures
            now == self.time(),
    {
        self.now
    }

    /// The time the clock shows, in whole seconds.
    pub fn timestamp(&self) -> (secs: Timestamp)
        ensures
            secs == self.time().secs(),
            secs == self.time().stamp(),
    {
        self.now.as_secs()
    }
}

} // verus!
