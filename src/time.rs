//! A monotonic time line measured in nanoseconds.
use vstd::prelude::*;

verus! {

/// The `Duration` of exactly `nanos` nanoseconds.
pub uninterp spec fn duration_of_nanos(nanos: u64) -> std::time::Duration;

/// Relies on `Duration::from_nanos`, whose value depends on its count alone.
pub assume_specification[ std::time::Duration::from_nanos ](nanos: u64) -> (r: std::time::Duration)
    ensures
        r == duration_of_nanos(nanos),
;

/// A point on a monotonic time line, counted in nanoseconds from an
/// arbitrary origin fixed by the clock that produced it.
#[derive(Clone, Copy, Debug, PartialEq, Eq, Structural)]
pub struct Instant {
    pub nanos: u64,
}

impl View for Instant {
    type V = nat;

    open spec fn view(&self) -> nat {
        self.nanos as nat
    }
}

/// Elapsed nanoseconds from `earlier` to `later`, zero when `earlier` is the later one.
pub open spec fn elapsed(later: nat, earlier: nat) -> nat {
    if earlier <= later {
        (later - earlier) as nat
    } else {
        0
    }
}

impl Instant {
    /// The instant `nanos` nanoseconds after the origin.
    pub fn from_nanos(nanos: u64) -> (r: Instant)
        ensures
            r@ == nanos,
    {
        Instant { nanos }
    }

    /// Nanoseconds from the origin to this instant.
    pub fn as_nanos(&self) -> (r: u64)
        ensures
            r == self@,
    {
        self.nanos
    }

    /// Nanoseconds elapsed from `earlier` to `self`, clamped to zero when the
    /// samples are out of order.
    pub fn nanos_since(&self, earlier: Instant) -> (r: u64)
        ensures
            r == elapsed(self@, earlier@),
    {
        if earlier.nanos <= self.nanos {
            self.nanos - earlier.nanos
        } else {
            0
        }
    }

    /// The duration from `earlier` to `self`, clamped to zero when the samples
    /// are out of order.
    pub fn duration_since(&self, earlier: Instant) -> (r: std::time::Duration)
        ensures
            r == duration_of_nanos(elapsed(self@, earlier@) as u64),
    {
        std::time::Duration::from_nanos(self.nanos_since(earlier))
    }

    /// The instant `nanos` nanoseconds after `self`, held at the end of the
    /// time line when the sum does not fit.
    pub fn saturating_add_nanos(&self, nanos: u64) -> (r: Instant)
        ensures
            r@ == if self@ + nanos <= u64::MAX { self@ + nanos } else { u64::MAX as int },
    {
        if nanos <= u64::MAX - self.nanos {
            Instant { nanos: self.nanos + nanos }
        } else {
            Instant { nanos: u64::MAX }
        }
    }

    /// Whether `self` is no later than `other`.
    pub fn is_at_or_before(&self, other: &Instant) -> (r: bool)
        ensures
            r == (self@ <= other@),
    {
        self.nanos <= other.nanos
    }
}

} // verus!
