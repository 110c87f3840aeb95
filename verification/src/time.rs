//! Spans of time, in whole nanoseconds.

use vstd::prelude::*;

verus! {

/// Nanoseconds per millisecond.
pub const NANOS_PER_MILLI: u128 = 1_000_000;

/// Nanoseconds per second.
pub const NANOS_PER_SEC: u128 = 1_000_000_000;

/// The longest span: 2^64 - 1 seconds and 999,999,999 nanoseconds.
pub const MAX_NANOS: u128 = 18_446_744_073_709_551_615_999_999_999;

/// A span of time.
#[derive(Debug, Clone, Copy, PartialEq, Eq, PartialOrd, Ord, Structural)]
pub struct Duration {
    nanos: u128,
}

impl Duration {
    /// The span's length in nanoseconds.
    pub closed spec fn ns(self) -> nat {
        self.nanos as nat
    }

    /// The span of so many nanoseconds.
    pub closed spec fn of(ns: nat) -> Duration {
        Duration { nanos: ns as u128 }
    }

    /// No span is longer than the longest.
    #[verifier::type_invariant]
    pub open spec fn bounded(self) -> bool {
        self.ns() <= MAX_NANOS
    }

    /// The span's length in whole milliseconds.
    pub open spec fn ms(self) -> nat {
        self.ns() / 1_000_000
    }

    /// No time at all.
    #[must_use]
    pub fn zero() -> (span: Duration)
        ensures
            span.ns() == 0,
    {
        Duration { nanos: 0 }
    }

    /// A span of so many nanoseconds, or the longest span if that is less.
    #[must_use]
    pub fn from_nanos(nanos: u128) -> (span: Duration)
        ensures
            span.ns() == (if nanos > MAX_NANOS {
                MAX_NANOS as nat
            } else {
                nanos as nat
            }),
    {
        if nanos > MAX_NANOS {
            Duration { nanos: MAX_NANOS }
        } else {
            Duration { nanos }
        }
    }

    /// A span of so many milliseconds.
    #[must_use]
    pub fn from_millis(millis: u64) -> (span: Duration)
        ensures
            span.ns() == millis * 1_000_000,
            span == Duration::of(millis as nat * 1_000_000),
    {
        Duration { nanos: millis as u128 * NANOS_PER_MILLI }
    }

    /// A span of so many seconds.
    #[must_use]
    pub fn from_secs(secs: u64) -> (span: Duration)
        ensures
            span.ns() == secs * 1_000_000_000,
    {
        Duration { nanos: secs as u128 * NANOS_PER_SEC }
    }

    /// The length in nanoseconds.
    #[must_use]
    pub fn as_nanos(self) -> (nanos: u128)
        ensures
            nanos == self.ns(),
            nanos <= MAX_NANOS,
    {
        proof {
            use_type_invariant(&self);
        }
        self.nanos
    }

    /// The length in whole milliseconds.
    #[must_use]
    pub fn as_millis(self) -> (millis: u128)
        ensures
            millis == self.ms(),
    {
        self.nanos / NANOS_PER_MILLI
    }

    /// The length in whole milliseconds, modulo 2^64.
    #[must_use]
    pub fn as_millis_u64(self) -> (millis: u64)
        ensures
            millis == self.ms() % 0x1_0000_0000_0000_0000,
    {
        (self.as_millis() % 0x1_0000_0000_0000_0000) as u64
    }

    /// The two spans one after the other, or the longest span if that is less.
    #[must_use]
    pub fn saturating_add(self, other: Duration) -> (sum: Duration)
        ensures
            sum.ns() == (if self.ns() + other.ns() > MAX_NANOS {
                MAX_NANOS as nat
            } else {
                self.ns() + other.ns()
            }),
    {
        proof {
            use_type_invariant(&self);
            use_type_invariant(&other);
        }
        Duration::from_nanos(self.nanos + other.nanos)
    }

    /// What is left after `other`, if anything.
    #[must_use]
    pub fn saturating_sub(self, other: Duration) -> (difference: Duration)
        ensures
            difference.ns() == (if self.ns() < other.ns() {
                0
            } else {
                (self.ns() - other.ns()) as nat
            }),
    {
        proof {
            use_type_invariant(&self);
        }
        Duration { nanos: self.nanos.saturating_sub(other.nanos) }
    }

    /// The span `factor` times over, or the longest span if that is less.
    #[must_use]
    pub fn saturating_mul(self, factor: u32) -> (product: Duration)
        ensures
            product.ns() == (if self.ns() * factor > MAX_NANOS {
                MAX_NANOS as nat
            } else {
                (self.ns() * factor) as nat
            }),
    {
        proof {
            use_type_invariant(&self);
            assert(self.nanos * factor <= 18_446_744_073_709_551_615_999_999_999 * 4_294_967_295)
                by (nonlinear_arith)
                requires
                    0 <= self.nanos <= 18_446_744_073_709_551_615_999_999_999,
                    0 <= factor <= 4_294_967_295,
            ;
        }
        Duration::from_nanos(self.nanos * factor as u128)
    }

    /// One of `parts` equal parts, rounded down.
    #[must_use]
    pub fn divided_by(self, parts: u32) -> (part: Duration)
        requires
            parts > 0,
        ensures
            part.ns() == self.ns() / (parts as nat),
    {
        proof {
            use_type_invariant(&self);
            assert(self.nanos / (parts as u128) <= self.nanos) by (nonlinear_arith)
                requires
                    parts > 0,
            ;
        }
        Duration { nanos: self.nanos / parts as u128 }
    }

    /// The shorter of two spans.
    #[must_use]
    pub fn shorter(self, other: Duration) -> (span: Duration)
        ensures
            span.ns() == (if self.ns() <= other.ns() {
                self.ns()
            } else {
                other.ns()
            }),
    {
        if self.nanos <= other.nanos {
            self
        } else {
            other
        }
    }
}

/// The span of so many nanoseconds is so many nanoseconds long.
pub broadcast proof fn lemma_of(ns: nat)
    requires
        ns <= MAX_NANOS,
    ensures
        (#[trigger] Duration::of(ns)).ns() == ns,
{
}

} // verus!
