//! The reporting pipeline's decisions: faults produced by one or more
//! producers flow through a channel to a single consumer, which
//! renders and buffers each fault in arrival order and flushes
//! exactly once, after the stream ends. The channel, the scheduler
//! and the output sink live with the host environment; the library
//! decides every step and models the whole single-producer run.

use vstd::prelude::*;

use crate::fault::{fault_wf, render_fault, Fault};

verus! {

/// What a non-blocking send came back with: accepted, the channel
/// full (the message comes back), or no consumer left (the message
/// comes back).
pub enum SendPoll {
    Sent,
    Full(Fault),
    Closed(Fault),
}

/// What the producer does next: done; yield the scheduler turn and
/// retry with the returned message; or fail permanently, handing the
/// message back rather than losing it.
pub enum SendStep {
    Done,
    Retry(Fault),
    Fail(Fault),
}

/// The producer protocol: retry with a yield while the channel is
/// full, fail permanently — message in hand — once no consumer is
/// left.
pub fn send_step(poll: SendPoll) -> (r: SendStep)
    ensures
        match poll {
            SendPoll::Sent => r is Done,
            SendPoll::Full(f) => r matches SendStep::Retry(g) && g == f,
            SendPoll::Closed(f) => r matches SendStep::Fail(g) && g == f,
        },
{
    match poll {
        SendPoll::Sent => SendStep::Done,
        SendPoll::Full(f) => SendStep::Retry(f),
        SendPoll::Closed(f) => SendStep::Fail(f),
    }
}

/// What a non-blocking receive came back with: a fault, an empty
/// channel, or a closed and drained channel.
pub enum RecvPoll {
    Item(Fault),
    Empty,
    Closed,
}

/// What the consumer does next: write the rendered block to its
/// buffered sink, yield the scheduler turn and poll again, or flush
/// once and stop.
pub enum RecvStep {
    Write(String),
    Yield,
    Flush,
}

/// The single consumer of the pipeline, modelling its buffered sink:
/// the rendered blocks written so far, in arrival order, and how
/// often it has flushed.
pub struct Report {
    pub written: Vec<String>,
    pub flushes: usize,
    pub done: bool,
}

impl Report {
    /// Nothing written and never flushed until the stream ends.
    pub open spec fn wf(self) -> bool {
        !self.done ==> self.flushes == 0
    }

    pub fn new() -> (r: Report)
        ensures
            r.wf(),
            !r.done,
            r.written@.len() == 0,
            r.flushes == 0,
    {
        Report { written: Vec::new(), flushes: 0, done: false }
    }

    /// The consumer protocol: render and buffer each fault as it is
    /// received, yield while the channel is empty, and stop with
    /// exactly one flush once the producer side is closed and
    /// drained. A flush mid-stream never happens.
    pub fn handle(&mut self, poll: RecvPoll) -> (r: RecvStep)
        requires
            old(self).wf(),
            !old(self).done,
            poll matches RecvPoll::Item(f) ==> fault_wf(f@),
        ensures
            final(self).wf(),
            match poll {
                RecvPoll::Item(f) => {
                    &&& final(self).written@ == old(self).written@.push(final(self).written@.last())
                    &&& final(self).written@.last()@ == render_fault(f@)
                    &&& final(self).flushes == old(self).flushes
                    &&& !final(self).done
                    &&& r matches RecvStep::Write(s) && s@ == render_fault(f@)
                },
                RecvPoll::Empty => *final(self) == *old(self) && r is Yield,
                RecvPoll::Closed => {
                    &&& final(self).written@ == old(self).written@
                    &&& final(self).flushes == 1
                    &&& final(self).done
                    &&& r is Flush
                },
            },
    {
        match poll {
            RecvPoll::Item(f) => {
                let s = f.render();
                let copy = s.clone();
                self.written.push(s);
                RecvStep::Write(copy)
            },
            RecvPoll::Empty => RecvStep::Yield,
            RecvPoll::Closed => {
                self.flushes = self.flushes + 1;
                self.done = true;
                RecvStep::Flush
            },
        }
    }
}

/// The whole single-producer run, end to end: the faults sent in
/// order into the pipeline, the producer then closed. Exactly one
/// rendered block per fault reaches the sink, in send order, followed
/// by exactly one flush.
pub fn run_pipeline(faults: Vec<Fault>) -> (r: Report)
    requires
        forall|k: int| 0 <= k < faults@.len() ==> fault_wf(#[trigger] faults@[k]@),
    ensures
        r.written@.len() == faults@.len(),
        forall|k: int|
            0 <= k < faults@.len() ==> #[trigger] r.written@[k]@ == render_fault(faults@[k]@),
        r.flushes == 1,
        r.done,
{
    let mut report = Report::new();
    let n = faults.len();
    let mut i: usize = 0;
    while i < n
        invariant
            0 <= i <= n,
            n == faults@.len(),
            forall|k: int| 0 <= k < faults@.len() ==> fault_wf(#[trigger] faults@[k]@),
            report.wf(),
            !report.done,
            report.flushes == 0,
            report.written@.len() == i,
            forall|k: int|
                0 <= k < i ==> #[trigger] report.written@[k]@ == render_fault(faults@[k]@),
        decreases n - i,
    {
        let f = faults[i].clone();
        report.handle(RecvPoll::Item(f));
        i = i + 1;
    }
    report.handle(RecvPoll::Closed);
    report
}

} // verus!
