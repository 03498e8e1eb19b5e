//! The lifecycle of one connection's pipeline. Its reader and its writer
//! run apart and each reports when it has finished; the connection is torn
//! down (unregistered, both halves closed, the observer told) exactly once,
//! by whichever of the two finishes last.
use vstd::prelude::*;

verus! {

/// Where a connection's pipeline stands.
#[derive(PartialEq, Eq, Structural, Clone, Copy, Debug)]
pub enum PipelineState {
    /// Both loops run.
    Active,
    /// One loop has finished; the other drains.
    Draining,
    /// Both loops have finished.
    Closed,
}

/// The state of the pipeline in which the reader has finished (`reader`) or
/// not, and likewise the writer.
pub open spec fn state_of(reader: bool, writer: bool) -> PipelineState {
    if reader && writer {
        PipelineState::Closed
    } else if reader || writer {
        PipelineState::Draining
    } else {
        PipelineState::Active
    }
}

/// Which loops of one connection have finished.
#[derive(PartialEq, Eq, Structural, Clone, Copy, Debug)]
pub struct Pipeline {
    reader_done: bool,
    writer_done: bool,
}

impl Pipeline {
    pub closed spec fn reader_finished(&self) -> bool {
        self.reader_done
    }

    pub closed spec fn writer_finished(&self) -> bool {
        self.writer_done
    }

    pub open spec fn spec_state(&self) -> PipelineState {
        state_of(self.reader_finished(), self.writer_finished())
    }

    /// A pipeline whose loops both run.
    pub fn new() -> (r: Pipeline)
        ensures
            !r.reader_finished(),
            !r.writer_finished(),
            r.spec_state() == PipelineState::Active,
    {
        Pipeline { reader_done: false, writer_done: false }
    }

    /// Where the pipeline stands.
    pub fn state(&self) -> (r: PipelineState)
        ensures
            r == self.spec_state(),
    {
        if self.reader_done && self.writer_done {
            PipelineState::Closed
        } else if self.reader_done || self.writer_done {
            PipelineState::Draining
        } else {
            PipelineState::Active
        }
    }

    /// Whether the reader has finished: the writer then stops once its queue
    /// is written.
    pub fn reader_has_finished(&self) -> (r: bool)
        ensures
            r == self.reader_finished(),
    {
        self.reader_done
    }

    /// The reader has finished (the peer closed, or a read failed). Returns
    /// whether the caller now tears the connection down: exactly when this
    /// report closed the pipeline.
    pub fn finish_reader(&mut self) -> (teardown: bool)
        ensures
            final(self).reader_finished(),
            final(self).writer_finished() == old(self).writer_finished(),
            teardown == (old(self).spec_state() != PipelineState::Closed && final(self).spec_state()
                == PipelineState::Closed),
    {
        let teardown = !self.reader_done && self.writer_done;
        self.reader_done = true;
        teardown
    }

    /// The writer has finished (the shutdown notice was written, a write
    /// failed, or the peer was dropped). Returns whether the caller now tears
    /// the connection down: exactly when this report closed the pipeline.
    pub fn finish_writer(&mut self) -> (teardown: bool)
        ensures
            final(self).writer_finished(),
            final(self).reader_finished() == old(self).reader_finished(),
            teardown == (old(self).spec_state() != PipelineState::Closed && final(self).spec_state()
                == PipelineState::Closed),
    {
        let teardown = self.reader_done && !self.writer_done;
        self.writer_done = true;
        teardown
    }
}

/// `reports` holds a report of the reader (`true`).
pub open spec fn has_reader_report(reports: Seq<bool>) -> bool {
    exists|i: int| 0 <= i < reports.len() && reports[i]
}

/// `reports` holds a report of the writer (`false`).
pub open spec fn has_writer_report(reports: Seq<bool>) -> bool {
    exists|i: int| 0 <= i < reports.len() && !reports[i]
}

/// The number of reports, in order, that tear down a pipeline whose reader
/// and writer have finished as given; in `reports`, `true` is the reader's
/// report and `false` the writer's.
pub open spec fn teardowns(reader: bool, writer: bool, reports: Seq<bool>) -> nat
    decreases reports.len(),
{
    if reports.len() == 0 {
        0
    } else {
        let r = reader || reports[0];
        let w = writer || !reports[0];
        let now: nat = if !(reader && writer) && (r && w) {
            1
        } else {
            0
        };
        now + teardowns(r, w, reports.drop_first())
    }
}

/// Whatever the order in which the reader and the writer report, and however
/// often each does, a pipeline is torn down once when both have reported,
/// and not at all before.
pub proof fn lemma_teardown_once(reports: Seq<bool>)
    ensures
        has_reader_report(reports) && has_writer_report(reports) ==> teardowns(false, false, reports)
            == 1,
        !(has_reader_report(reports) && has_writer_report(reports)) ==> teardowns(
            false,
            false,
            reports,
        ) == 0,
{
    lemma_teardowns(false, false, reports);
}

proof fn lemma_teardowns(reader: bool, writer: bool, reports: Seq<bool>)
    ensures
        reader && writer ==> teardowns(reader, writer, reports) == 0,
        !(reader && writer) && (reader || has_reader_report(reports)) && (writer
            || has_writer_report(reports)) ==> teardowns(reader, writer, reports) == 1,
        !((reader || has_reader_report(reports)) && (writer || has_writer_report(reports)))
            ==> teardowns(reader, writer, reports) == 0,
    decreases reports.len(),
{
    if reports.len() > 0 {
        let rest = reports.drop_first();
        let r = reader || reports[0];
        let w = writer || !reports[0];
        lemma_teardowns(r, w, rest);
        if has_reader_report(reports) && !r {
            let i = choose|i: int| 0 <= i < reports.len() && reports[i];
            assert(rest[i - 1]);
        }
        if has_writer_report(reports) && !w {
            let i = choose|i: int| 0 <= i < reports.len() && !reports[i];
            assert(!rest[i - 1]);
        }
        if has_reader_report(rest) {
            let i = choose|i: int| 0 <= i < rest.len() && rest[i];
            assert(reports[i + 1]);
        }
        if has_writer_report(rest) {
            let i = choose|i: int| 0 <= i < rest.len() && !rest[i];
            assert(!reports[i + 1]);
        }
    }
}

} // verus!
