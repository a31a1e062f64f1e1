//! Replaying a record: when each recorded input is due.
use crate::record::elapsed::Elapsed;
use vstd::prelude::*;

verus! {

/// How long to wait before replaying an input recorded at `at`, when `since_start` has
/// passed since the replay started: the time left until `at`, or nothing if it is past.
pub fn replay_delay(at: &Elapsed, since_start: &Elapsed) -> (d: Elapsed)
    requires
        at.wf(),
        since_start.wf(),
    ensures
        d.wf(),
        d@ == if at@ > since_start@ { at@ - since_start@ } else { 0 },
{
    if !since_start.is_shorter_than(at) {
        return Elapsed::new(0, 0);
    }
    let (a_s, a_n) = (at.secs(), at.subsec_nanos());
    let (b_s, b_n) = (since_start.secs(), since_start.subsec_nanos());
    proof {
        at.lemma_parts();
        since_start.lemma_parts();
        crate::record::elapsed::lemma_lexicographic(b_s as int, b_n as int, a_s as int, a_n as int);
    }
    if a_n >= b_n {
        Elapsed::new(a_s - b_s, a_n - b_n)
    } else {
        Elapsed::new(a_s - b_s - 1, a_n + 1_000_000_000 - b_n)
    }
}

} // verus!
