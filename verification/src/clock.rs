//! Instants, and the one place where the library reads the system clock.
use std::time::{SystemTime, UNIX_EPOCH};
use vstd::prelude::*;

verus! {

/// An instant: whole seconds since the start of 1970 (UTC) and the
/// nanoseconds beyond them.
#[derive(Debug, PartialEq, Eq, Clone, Copy, Structural)]
pub struct Timestamp {
    pub secs: u64,
    pub nanos: u32,
}

/// How old a proposal may get, in seconds: two hours.
pub const MAX_AGE_SECS: u64 = 7200;

/// The nanoseconds in a second.
pub const NANOS_PER_SEC: u64 = 1_000_000_000;

impl Timestamp {
    /// Whether the nanoseconds are less than a second, so that no other pair
    /// of numbers stands for the same instant.
    pub open spec fn is_normal(self) -> bool {
        self.nanos < NANOS_PER_SEC
    }

    /// The instant as a count of nanoseconds.
    pub open spec fn total(self) -> int {
        self.secs * NANOS_PER_SEC + self.nanos
    }

    /// Whether something made at the instant `self` has reached the maximal
    /// age at the instant `now`. Nothing has that was made after `now`.
    pub open spec fn expired_at(self, now: Timestamp) -> bool {
        now.total() - self.total() >= MAX_AGE_SECS * NANOS_PER_SEC
    }

    /// Tests `expired_at`.
    pub fn is_expired_at(&self, now: &Timestamp) -> (b: bool)
        ensures
            b == self.expired_at(*now),
    {
        let made: u128 = self.secs as u128 * 1_000_000_000 + self.nanos as u128;
        let read: u128 = now.secs as u128 * 1_000_000_000 + now.nanos as u128;
        let limit: u128 = 7200 * 1_000_000_000;
        read >= made && read - made >= limit
    }

    /// What the system clock shows: an instant whose nanoseconds are less than
    /// a second. A clock that is set before 1970 reads as the start of 1970.
    pub fn now() -> (t: Timestamp)
        ensures
            t.is_normal(),
    {
        let t = SystemTime::now();
        match since_epoch(&t) {
            Some((secs, nanos)) => Timestamp { secs, nanos },
            None => Timestamp { secs: 0, nanos: 0 },
        }
    }
}

/// `SystemTime` of the standard library: a reading of the system clock, of
/// which nothing is known here.
#[verifier::external_type_specification]
#[verifier::external_body]
pub struct ExSystemTime(SystemTime);

/// `SystemTime::now` of the standard library. Nothing is claimed of the
/// instant it returns.
pub assume_specification[ SystemTime::now ]() -> (t: SystemTime)
;

/// `SystemTime::duration_since` of the standard library, against
/// `UNIX_EPOCH`: the seconds and nanoseconds from the start of 1970 to `t`, or
/// nothing where `t` lies before it. The nanoseconds are what
/// `Duration::subsec_nanos` gives, which is less than a second; nothing else
/// is claimed of the numbers.
#[verifier::external_body]
fn since_epoch(t: &SystemTime) -> (r: Option<(u64, u32)>)
    ensures
        r matches Some((_, nanos)) ==> nanos < NANOS_PER_SEC,
{
    match t.duration_since(UNIX_EPOCH) {
        Ok(d) => Some((d.as_secs(), d.subsec_nanos())),
        Err(_) => None,
    }
}

} // verus!
