use crate::clock::{duration_as_secs, duration_subsec_nanos, instant_elapsed};
use std::time::Instant;
use vstd::prelude::*;

verus! {

/// The number of nanoseconds in a second.
pub const NANOS_PER_SEC: u32 = 1_000_000_000;

/// A span of time since the start of a session, kept as whole seconds and the
/// nanoseconds below a second (as `std::time::Duration` keeps it).
#[derive(Debug, Clone, Copy, PartialEq, Eq, Structural)]
pub struct Elapsed {
    secs: u64,
    nanos: u32,
}

impl View for Elapsed {
    type V = int;

    /// The span in nanoseconds.
    closed spec fn view(&self) -> int {
        self.secs * 1_000_000_000 + self.nanos
    }
}

impl Elapsed {
    /// The representation is canonical: the sub-second part is below a second.
    pub closed spec fn wf(self) -> bool {
        self.nanos < NANOS_PER_SEC
    }

    pub closed spec fn spec_secs(self) -> u64 {
        self.secs
    }

    pub closed spec fn spec_subsec_nanos(self) -> u32 {
        self.nanos
    }

    /// The span in nanoseconds is made of its whole seconds and the nanoseconds below.
    pub proof fn lemma_parts(self)
        ensures
            self@ == self.spec_secs() * 1_000_000_000 + self.spec_subsec_nanos(),
            self.wf() == (self.spec_subsec_nanos() < 1_000_000_000),
    {
    }

    /// Builds a span from whole seconds and the nanoseconds below a second.
    pub fn new(secs: u64, nanos: u32) -> (e: Elapsed)
        requires
            nanos < NANOS_PER_SEC,
        ensures
            e.wf(),
            e.spec_secs() == secs,
            e.spec_subsec_nanos() == nanos,
            e@ == secs * 1_000_000_000 + nanos,
    {
        Elapsed { secs, nanos }
    }

    /// Builds a span from a number of milliseconds.
    pub fn from_millis(millis: u64) -> (e: Elapsed)
        ensures
            e.wf(),
            e@ == millis * 1_000_000,
    {
        let secs = millis / 1000;
        let rest = millis % 1000;
        assert(rest * 1_000_000 < 1_000_000_000) by (nonlinear_arith)
            requires rest < 1000;
        let nanos = (rest as u32) * 1_000_000;
        assert(secs * 1_000_000_000 + nanos == millis * 1_000_000) by (nonlinear_arith)
            requires secs == millis / 1000, rest == millis % 1000, nanos == rest * 1_000_000;
        Elapsed { secs, nanos }
    }

    /// Whole seconds of the span.
    pub fn secs(&self) -> (s: u64)
        ensures
            s == self.spec_secs(),
    {
        self.secs
    }

    /// Nanoseconds of the span below the whole seconds.
    pub fn subsec_nanos(&self) -> (n: u32)
        ensures
            n == self.spec_subsec_nanos(),
    {
        self.nanos
    }

    /// Whether this span is strictly shorter than `other`.
    pub fn is_shorter_than(&self, other: &Elapsed) -> (r: bool)
        requires
            self.wf(),
            other.wf(),
        ensures
            r == (self@ < other@),
    {
        proof {
            lemma_lexicographic(self.secs as int, self.nanos as int, other.secs as int, other.nanos as int);
        }
        self.secs < other.secs || (self.secs == other.secs && self.nanos < other.nanos)
    }

    /// The time that passed since `start`, read from the clock.
    pub fn since(start: &Instant) -> (e: Elapsed)
        ensures
            e.wf(),
    {
        let d = instant_elapsed(start);
        let secs = duration_as_secs(&d);
        let nanos = duration_subsec_nanos(&d);
        Elapsed { secs, nanos }
    }
}

/// Comparing (seconds, nanoseconds) pairs lexicographically is comparing total nanoseconds.
pub proof fn lemma_lexicographic(s1: int, n1: int, s2: int, n2: int)
    requires
        0 <= n1 < 1_000_000_000,
        0 <= n2 < 1_000_000_000,
    ensures
        (s1 * 1_000_000_000 + n1 < s2 * 1_000_000_000 + n2) <==> (s1 < s2 || (s1 == s2 && n1 < n2)),
{
    if s1 < s2 {
        assert(s1 * 1_000_000_000 + 1_000_000_000 <= s2 * 1_000_000_000) by (nonlinear_arith)
            requires s1 < s2;
    } else if s1 > s2 {
        assert(s2 * 1_000_000_000 + 1_000_000_000 <= s1 * 1_000_000_000) by (nonlinear_arith)
            requires s2 < s1;
    }
}

} // verus!
