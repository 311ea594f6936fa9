//! Spans of elapsed time: whole seconds and the nanoseconds beyond them.

use crate::token::NANOS_PER_SEC;
use vstd::prelude::*;

verus! {

/// A span of time that is not negative: whole seconds, and less than a second
/// of nanoseconds on top. It also stands for a reading of a clock that only
/// moves forward: the time since the clock began.
#[derive(Clone, Copy, Debug)]
pub struct Elapsed {
    secs: u64,
    nanos: u32,
}

impl Elapsed {
    #[verifier::type_invariant]
    spec fn inv(self) -> bool {
        self.nanos < NANOS_PER_SEC
    }

    /// The whole seconds of the span.
    pub closed spec fn secs(self) -> nat {
        self.secs as nat
    }

    /// The nanoseconds of the span beyond its whole seconds.
    pub closed spec fn nanos(self) -> nat {
        self.nanos as nat
    }

    /// The whole span in nanoseconds.
    pub open spec fn total_nanos(self) -> nat {
        self.secs() * 1_000_000_000 + self.nanos()
    }

    /// The span of `secs` seconds and `nanos` nanoseconds, where `nanos` is
    /// less than a second; no span otherwise.
    pub fn new(secs: u64, nanos: u32) -> (span: Option<Elapsed>)
        ensures
            match span {
                Some(e) => nanos < 1_000_000_000 && e.secs() == secs && e.nanos() == nanos,
                None => nanos >= 1_000_000_000,
            },
    {
        if nanos < NANOS_PER_SEC {
            Some(Elapsed { secs, nanos })
        } else {
            None
        }
    }

    /// The empty span.
    pub fn zero() -> (span: Elapsed)
        ensures
            span.secs() == 0,
            span.nanos() == 0,
    {
        Elapsed { secs: 0, nanos: 0 }
    }

    /// The whole seconds of the span.
    pub fn as_secs(&self) -> (secs: u64)
        ensures
            secs == self.secs(),
    {
        self.secs
    }

    /// The nanoseconds of the span beyond its whole seconds.
    pub fn subsec_nanos(&self) -> (nanos: u32)
        ensures
            nanos == self.nanos(),
            nanos < 1_000_000_000,
    {
        proof {
            use_type_invariant(self);
        }
        self.nanos
    }

    /// The time from `earlier` to `self`, and the empty span where `earlier`
    /// is the later of the two: a clock that ran backwards counts as one
    /// that stood still.
    pub fn since(&self, earlier: &Elapsed) -> (gap: Elapsed)
        ensures
            gap.nanos() < 1_000_000_000,
            gap.total_nanos() == if self.total_nanos() >= earlier.total_nanos() {
                self.total_nanos() - earlier.total_nanos()
            } else {
                0
            },
    {
        proof {
            use_type_invariant(self);
            use_type_invariant(earlier);
        }
        if self.secs < earlier.secs || (self.secs == earlier.secs && self.nanos < earlier.nanos) {
            Elapsed { secs: 0, nanos: 0 }
        } else if self.nanos >= earlier.nanos {
            Elapsed { secs: self.secs - earlier.secs, nanos: self.nanos - earlier.nanos }
        } else {
            Elapsed {
                secs: self.secs - earlier.secs - 1,
                nanos: self.nanos + (NANOS_PER_SEC - earlier.nanos),
            }
        }
    }
}

} // verus!
