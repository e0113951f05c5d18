//! Spans of time and instants, as whole numbers of nanoseconds.

use vstd::prelude::*;

verus! {

/// The nanoseconds in one second.
pub const NANOS_PER_SEC: u32 = 1_000_000_000;

/// A span of time: whole seconds and the nanoseconds beyond them.
#[derive(Debug, Clone, Copy, PartialEq, Eq)]
pub struct Duration {
    secs: u64,
    nanos: u32,
}

/// A point in time, counted in nanoseconds from a beginning that the
/// caller chooses and keeps.
#[derive(Debug, Clone, Copy, PartialEq, Eq)]
pub struct Instant {
    pub nanos: u128,
}

impl Duration {
    #[verifier::type_invariant]
    spec fn well_formed(&self) -> bool {
        self.nanos < NANOS_PER_SEC
    }

    /// The span in nanoseconds.
    pub closed spec fn total_nanos(&self) -> nat {
        (self.secs * NANOS_PER_SEC + self.nanos) as nat
    }

    /// `secs` whole seconds and `nanos` nanoseconds beyond them.
    pub fn new(secs: u64, nanos: u32) -> (d: Self)
        requires
            nanos < NANOS_PER_SEC,
        ensures
            d.total_nanos() == secs * NANOS_PER_SEC + nanos,
    {
        Duration { secs, nanos }
    }

    /// `secs` whole seconds.
    pub fn from_secs(secs: u64) -> (d: Self)
        ensures
            d.total_nanos() == secs * NANOS_PER_SEC,
    {
        Duration { secs, nanos: 0 }
    }

    /// `millis` whole milliseconds.
    pub fn from_millis(millis: u64) -> (d: Self)
        ensures
            d.total_nanos() == millis * 1_000_000,
    {
        let secs = millis / 1000;
        let nanos = ((millis % 1000) as u32) * 1_000_000;
        assert(secs * NANOS_PER_SEC + nanos == millis * 1_000_000) by (nonlinear_arith)
            requires
                secs == millis / 1000,
                nanos == (millis % 1000) * 1_000_000,
                NANOS_PER_SEC == 1_000_000_000,
        ;
        Duration { secs, nanos }
    }

    /// `nanos` nanoseconds.
    pub fn from_nanos(nanos: u128) -> (d: Self)
        requires
            nanos <= u64::MAX * NANOS_PER_SEC + (NANOS_PER_SEC - 1),
        ensures
            d.total_nanos() == nanos,
    {
        let secs = nanos / (NANOS_PER_SEC as u128);
        let rest = nanos % (NANOS_PER_SEC as u128);
        assert(secs <= u64::MAX) by (nonlinear_arith)
            requires
                secs == nanos / (NANOS_PER_SEC as u128),
                nanos <= u64::MAX * NANOS_PER_SEC + (NANOS_PER_SEC - 1),
                NANOS_PER_SEC == 1_000_000_000,
        ;
        assert(secs * NANOS_PER_SEC + rest == nanos) by (nonlinear_arith)
            requires
                secs == nanos / (NANOS_PER_SEC as u128),
                rest == nanos % (NANOS_PER_SEC as u128),
                NANOS_PER_SEC == 1_000_000_000,
        ;
        Duration { secs: secs as u64, nanos: rest as u32 }
    }

    /// The whole seconds of the span.
    pub fn as_secs(&self) -> (secs: u64)
        ensures
            secs == self.total_nanos() / (NANOS_PER_SEC as nat),
    {
        proof {
            use_type_invariant(self);
            let s = self.secs;
            let n = self.nanos;
            assert((s * NANOS_PER_SEC + n) / (NANOS_PER_SEC as int) == s) by (nonlinear_arith)
                requires
                    0 <= n < NANOS_PER_SEC,
                    NANOS_PER_SEC == 1_000_000_000,
                    0 <= s,
            ;
        }
        self.secs
    }

    /// The span in nanoseconds.
    pub fn as_nanos(&self) -> (nanos: u128)
        ensures
            nanos == self.total_nanos(),
    {
        proof {
            use_type_invariant(self);
            let s = self.secs;
            assert(s * NANOS_PER_SEC <= u64::MAX * 1_000_000_000) by (nonlinear_arith)
                requires
                    s <= u64::MAX,
                    NANOS_PER_SEC == 1_000_000_000,
            ;
        }
        (self.secs as u128) * (NANOS_PER_SEC as u128) + (self.nanos as u128)
    }

    /// Whether the span is empty.
    pub fn is_zero(&self) -> (r: bool)
        ensures
            r == (self.total_nanos() == 0),
    {
        proof {
            use_type_invariant(self);
            let s = self.secs;
            assert(s > 0 ==> s * NANOS_PER_SEC > 0) by (nonlinear_arith)
                requires
                    NANOS_PER_SEC == 1_000_000_000,
            ;
        }
        self.secs == 0 && self.nanos == 0
    }

    /// Half the span, rounded down to a nanosecond.
    pub fn half(&self) -> (d: Self)
        ensures
            d.total_nanos() == self.total_nanos() / 2,
    {
        let total = self.as_nanos();
        proof {
            use_type_invariant(self);
        }
        Duration::from_nanos(total / 2)
    }
}

impl Instant {
    /// The nanoseconds from the beginning to this instant.
    pub open spec fn nanos(&self) -> nat {
        self.nanos as nat
    }

    /// The instant `nanos` nanoseconds after the beginning.
    pub fn from_nanos(nanos: u128) -> (t: Self)
        ensures
            t.nanos() == nanos,
    {
        Instant { nanos }
    }

    /// The nanoseconds from the beginning to this instant.
    pub fn as_nanos(&self) -> (nanos: u128)
        ensures
            nanos == self.nanos(),
    {
        self.nanos
    }
}

} // verus!
