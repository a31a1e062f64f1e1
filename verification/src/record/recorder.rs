use super::elapsed::Elapsed;
use super::input::InputResultRecord;
use crate::app::InputResult;
use crate::clock::instant_now;
use std::time::Instant;
use vstd::prelude::*;

verus! {

/// Records each input result of a session with the time at which it came.
pub struct InputResultRecorder {
    start: Instant,
    record: InputResultRecord,
}

impl InputResultRecorder {
    /// The record so far.
    pub closed spec fn spec_record(&self) -> InputResultRecord {
        self.record
    }

    /// The instant the recorder's clock started at.
    pub closed spec fn spec_start(&self) -> Instant {
        self.start
    }

    /// A recorder that starts its clock now, with an empty record.
    pub fn new() -> (r: InputResultRecorder)
        ensures
            r.spec_record().inputs@.len() == 0,
            r.spec_record().wf(),
    {
        InputResultRecorder { start: instant_now(), record: InputResultRecord { inputs: Vec::new() } }
    }

    /// Appends `input` to the record, stamped with the time elapsed since the start (read
    /// from the clock); what was recorded before and the start stay as they were.
    pub fn push(&mut self, input: InputResult)
        requires
            old(self).spec_record().wf(),
        ensures
            final(self).spec_record().wf(),
            final(self).spec_start() == old(self).spec_start(),
            final(self).spec_record().inputs@.len() == old(self).spec_record().inputs@.len() + 1,
            final(self).spec_record().inputs@.drop_last() == old(self).spec_record().inputs@,
            final(self).spec_record().inputs@.last().1 == input,
    {
        let elapsed = self.elapsed();
        self.record.inputs.push((elapsed, input));
        assert(self.record.inputs@.drop_last() =~= old(self).record.inputs@);
    }

    /// The record so far.
    pub fn record(&self) -> (r: &InputResultRecord)
        ensures
            *r == self.spec_record(),
    {
        &self.record
    }

    /// The time elapsed since the recorder started, read from the clock.
    pub fn elapsed(&self) -> (e: Elapsed)
        ensures
            e.wf(),
    {
        Elapsed::since(&self.start)
    }
}

} // verus!
