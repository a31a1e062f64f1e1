//! Records of the chars typed in a session, each with the time it came at.
pub use crate::record::elapsed::Elapsed;
pub use crate::record::manager::{RecordManager, RecordManagerError};

use crate::clock::instant_now;
use std::time::Instant;
use vstd::prelude::*;

verus! {

/// The chars typed in a session, in order, each with the time since the start.
#[derive(Debug, Clone)]
pub struct InputRecord {
    pub inputs: Vec<(Elapsed, char)>,
}

/// Records each typed char with the time at which it came.
pub struct InputRecorder {
    start: Instant,
    record: InputRecord,
}

impl InputRecorder {
    /// The record so far: each char typed, in order, with its time stamp.
    pub closed spec fn spec_record(&self) -> InputRecord {
        self.record
    }

    /// The instant the recorder's clock started at.
    pub closed spec fn spec_start(&self) -> Instant {
        self.start
    }

    /// The chars recorded so far, in order.
    pub open spec fn spec_chars(&self) -> Seq<char> {
        self.spec_record().inputs@.map_values(|e: (Elapsed, char)| e.1)
    }

    /// Every time stamp is canonical.
    pub open spec fn wf(&self) -> bool {
        forall|i: int| 0 <= i < self.spec_record().inputs@.len() ==> (#[trigger] self.spec_record().inputs@[i]).0.wf()
    }

    /// A recorder whose clock starts now, with nothing recorded.
    pub fn new() -> (r: Self)
        ensures
            r.wf(),
            r.spec_record().inputs@.len() == 0,
    {
        InputRecorder { start: instant_now(), record: InputRecord { inputs: Vec::new() } }
    }

    /// Records `ch`, stamped with the time since the start (read from the clock); what was
    /// recorded before and the start stay as they were.
    pub fn push(&mut self, ch: char)
        requires
            old(self).wf(),
        ensures
            final(self).wf(),
            final(self).spec_start() == old(self).spec_start(),
            final(self).spec_record().inputs@.len() == old(self).spec_record().inputs@.len() + 1,
            final(self).spec_record().inputs@.drop_last() == old(self).spec_record().inputs@,
            final(self).spec_record().inputs@.last().1 == ch,
    {
        let elapsed = Elapsed::since(&self.start);
        self.record.inputs.push((elapsed, ch));
        assert(self.record.inputs@.drop_last() =~= old(self).record.inputs@);
        assert forall|i: int| 0 <= i < self.spec_record().inputs@.len() implies (
        #[trigger] self.spec_record().inputs@[i]).0.wf() by {
            if i < old(self).spec_record().inputs@.len() {
                assert(self.spec_record().inputs@[i] == old(self).spec_record().inputs@[i]);
            } else {
                assert(self.spec_record().inputs@[i] == (elapsed, ch));
            }
        }
    }

    /// The record so far.
    pub fn record(&self) -> (r: &InputRecord)
        ensures
            *r == self.spec_record(),
    {
        &self.record
    }
}

} // verus!
