//! Writing a byte sequence to a session in full.
//!
//! A sink may take only part of what it is offered. A `WriteJob` decides,
//! from what the sink reported so far, what to do next: offer the rest,
//! flush, or stop with the result. The caller performs each step on the
//! session's write handle and reports back what happened.

use vstd::prelude::*;
use vstd::slice::slice_subrange;

verus! {

/// A failed operation on a known session, with the text of the underlying
/// error.
#[derive(Clone, Debug, PartialEq, Eq)]
pub struct IoError {
    pub message: String,
}

/// What the sink reported for one step.
#[derive(Clone, Debug, PartialEq, Eq)]
pub enum WriteOutcome {
    /// The sink took this many bytes from the front of what was offered.
    Wrote(usize),
    /// The sink flushed what it had taken.
    Flushed,
    /// The step failed. `interrupted` tells an interrupted call, which is
    /// worth repeating, from every other error.
    Failed { interrupted: bool, message: String },
}

/// A `WriteOutcome` as a mathematical value.
pub enum WriteOutcomeView {
    Wrote(nat),
    Flushed,
    Failed { interrupted: bool, message: Seq<char> },
}

impl View for WriteOutcome {
    type V = WriteOutcomeView;

    open spec fn view(&self) -> WriteOutcomeView {
        match self {
            WriteOutcome::Wrote(count) => WriteOutcomeView::Wrote(*count as nat),
            WriteOutcome::Flushed => WriteOutcomeView::Flushed,
            WriteOutcome::Failed { interrupted, message } => WriteOutcomeView::Failed {
                interrupted: *interrupted,
                message: message@,
            },
        }
    }
}

/// How far a job has come.
pub enum WriteStatus {
    /// Bytes are left to offer to the sink.
    Writing,
    /// Every byte was taken; the sink is to be flushed.
    Flushing,
    /// Every byte was taken and flushed, or there was no session to write
    /// to.
    Succeeded,
    /// The job gave up with this error.
    Failed { message: Seq<char> },
}

/// The error text for a sink that takes no byte of a non-empty offer.
pub open spec fn write_zero_message() -> Seq<char> {
    "failed to write whole buffer"@
}

/// A write job as a mathematical value: the bytes to deliver, how many of
/// them the sink has taken, and how far the job has come.
pub struct WriteJobState {
    pub data: Seq<u8>,
    pub sent: nat,
    pub status: WriteStatus,
}

impl WriteJobState {
    /// The invariant that every operation keeps.
    pub open spec fn wf(self) -> bool {
        &&& self.sent <= self.data.len()
        &&& self.status is Writing ==> self.sent < self.data.len()
        &&& (self.status is Flushing || self.status is Succeeded) ==> self.sent == self.data.len()
    }

    /// A job that has `data` to deliver and has offered nothing yet.
    pub open spec fn fresh(data: Seq<u8>) -> Self {
        WriteJobState {
            data,
            sent: 0,
            status: if data.len() == 0 {
                WriteStatus::Flushing
            } else {
                WriteStatus::Writing
            },
        }
    }

    /// The job for a session that is not there: done, with nothing written.
    pub open spec fn skipped() -> Self {
        WriteJobState { data: Seq::empty(), sent: 0, status: WriteStatus::Succeeded }
    }

    /// The bytes that the sink has not taken yet.
    pub open spec fn remaining(self) -> Seq<u8> {
        self.data.skip(self.sent as int)
    }

    /// Whether nothing is left to do.
    pub open spec fn finished(self) -> bool {
        self.status is Succeeded || self.status is Failed
    }

    /// Whether `outcome` can be what the sink reports for the step that the
    /// job asked for: a sink cannot take more than it was offered.
    pub open spec fn admits(self, outcome: WriteOutcomeView) -> bool {
        (self.status is Writing && outcome is Wrote) ==> outcome->Wrote_0 <= self.data.len()
            - self.sent
    }

    /// The bytes that the sink took in a step with this outcome.
    pub open spec fn taken(self, outcome: WriteOutcomeView) -> Seq<u8> {
        if self.status is Writing && outcome is Wrote {
            self.data.subrange(self.sent as int, (self.sent + outcome->Wrote_0) as int)
        } else {
            Seq::empty()
        }
    }

    /// The job after a step with this outcome.
    pub open spec fn record(self, outcome: WriteOutcomeView) -> Self {
        match self.status {
            WriteStatus::Writing => match outcome {
                WriteOutcomeView::Wrote(count) => if count == 0 {
                    WriteJobState {
                        status: WriteStatus::Failed { message: write_zero_message() },
                        ..self
                    }
                } else if self.sent + count == self.data.len() {
                    WriteJobState {
                        sent: self.sent + count,
                        status: WriteStatus::Flushing,
                        ..self
                    }
                } else {
                    WriteJobState { sent: self.sent + count, ..self }
                },
                WriteOutcomeView::Failed { interrupted, message } => if interrupted {
                    self
                } else {
                    WriteJobState { status: WriteStatus::Failed { message }, ..self }
                },
                WriteOutcomeView::Flushed => self,
            },
            WriteStatus::Flushing => match outcome {
                WriteOutcomeView::Flushed => WriteJobState {
                    status: WriteStatus::Succeeded,
                    ..self
                },
                WriteOutcomeView::Failed { interrupted, message } => WriteJobState {
                    status: WriteStatus::Failed { message },
                    ..self
                },
                WriteOutcomeView::Wrote(count) => self,
            },
            _ => self,
        }
    }

    /// Whether each of `outcomes` can be reported in the state that the
    /// outcomes before it lead to.
    pub open spec fn admits_all(self, outcomes: Seq<WriteOutcomeView>) -> bool
        decreases outcomes.len(),
    {
        if outcomes.len() == 0 {
            true
        } else {
            self.admits(outcomes[0]) && self.record(outcomes[0]).admits_all(outcomes.drop_first())
        }
    }

    /// The job after a run of steps with these outcomes.
    pub open spec fn run(self, outcomes: Seq<WriteOutcomeView>) -> Self
        decreases outcomes.len(),
    {
        if outcomes.len() == 0 {
            self
        } else {
            self.record(outcomes[0]).run(outcomes.drop_first())
        }
    }

    /// All the bytes that the sink took over a run of steps, in the order in
    /// which it took them.
    pub open spec fn delivered(self, outcomes: Seq<WriteOutcomeView>) -> Seq<u8>
        decreases outcomes.len(),
    {
        if outcomes.len() == 0 {
            Seq::empty()
        } else {
            self.taken(outcomes[0]) + self.record(outcomes[0]).delivered(outcomes.drop_first())
        }
    }
}

/// One complete call of `write` on a live session: the bytes handed in and
/// what the sink reported, step by step.
pub struct WriteCall {
    pub data: Seq<u8>,
    pub outcomes: Seq<WriteOutcomeView>,
}

impl WriteCall {
    /// The call ran a fresh job for its bytes to success.
    pub open spec fn succeeded(self) -> bool {
        &&& WriteJobState::fresh(self.data).admits_all(self.outcomes)
        &&& WriteJobState::fresh(self.data).run(self.outcomes).status is Succeeded
    }
}

/// The bytes handed to a sequence of calls, one call after the other.
pub open spec fn written(calls: Seq<WriteCall>) -> Seq<u8>
    decreases calls.len(),
{
    if calls.len() == 0 {
        Seq::empty()
    } else {
        written(calls.drop_last()) + calls.last().data
    }
}

/// The bytes that the sink took over a sequence of calls, in the order in
/// which it took them.
pub open spec fn observed(calls: Seq<WriteCall>) -> Seq<u8>
    decreases calls.len(),
{
    if calls.len() == 0 {
        Seq::empty()
    } else {
        observed(calls.drop_last()) + WriteJobState::fresh(calls.last().data).delivered(
            calls.last().outcomes,
        )
    }
}

/// The part of each call's bytes that its sink had taken when the call
/// ended, one call after the other.
pub open spec fn taken_up(calls: Seq<WriteCall>) -> Seq<u8>
    decreases calls.len(),
{
    if calls.len() == 0 {
        Seq::empty()
    } else {
        taken_up(calls.drop_last()) + calls.last().data.take(
            WriteJobState::fresh(calls.last().data).run(calls.last().outcomes).sent as int,
        )
    }
}

/// Steps keep a job well formed, and a finished job stays as it is.
pub proof fn law_record_preserves_wf(job: WriteJobState, outcome: WriteOutcomeView)
    requires
        job.wf(),
        job.admits(outcome),
    ensures
        job.record(outcome).wf(),
        job.record(outcome).data == job.data,
        job.finished() ==> job.record(outcome) == job,
{
}

/// What the sink has taken is always the front of the data, without gap,
/// repetition or reordering: the bytes taken over a run extend the part
/// already sent to the part sent afterwards.
pub proof fn law_delivery_is_a_prefix(job: WriteJobState, outcomes: Seq<WriteOutcomeView>)
    requires
        job.wf(),
        job.admits_all(outcomes),
    ensures
        job.run(outcomes).wf(),
        job.run(outcomes).data == job.data,
        job.sent <= job.run(outcomes).sent,
        job.data.take(job.sent as int) + job.delivered(outcomes) == job.data.take(
            job.run(outcomes).sent as int,
        ),
    decreases outcomes.len(),
{
    if outcomes.len() == 0 {
        assert(job.data.take(job.sent as int) + Seq::<u8>::empty() =~= job.data.take(
            job.sent as int,
        ));
    } else {
        let next = job.record(outcomes[0]);
        law_record_preserves_wf(job, outcomes[0]);
        law_delivery_is_a_prefix(next, outcomes.drop_first());
        assert(job.data.take(job.sent as int) + job.taken(outcomes[0]) =~= job.data.take(
            next.sent as int,
        ));
        assert(job.data.take(job.sent as int) + job.delivered(outcomes) =~= (job.data.take(
            job.sent as int,
        ) + job.taken(outcomes[0])) + next.delivered(outcomes.drop_first()));
    }
}

/// A write that succeeds has delivered exactly its bytes.
pub proof fn law_success_delivers_all(data: Seq<u8>, outcomes: Seq<WriteOutcomeView>)
    requires
        WriteJobState::fresh(data).admits_all(outcomes),
        WriteJobState::fresh(data).run(outcomes).status is Succeeded,
    ensures
        WriteJobState::fresh(data).delivered(outcomes) == data,
{
    let job = WriteJobState::fresh(data);
    law_delivery_is_a_prefix(job, outcomes);
    assert(data.take(0) + job.delivered(outcomes) =~= job.delivered(outcomes));
    assert(data.take(data.len() as int) =~= data);
}

/// For every sequence of successful writes, the bytes that the sink has
/// taken are the written byte sequences joined in call order.
pub proof fn law_writes_concatenate(calls: Seq<WriteCall>)
    requires
        forall|i: int| 0 <= i < calls.len() ==> (#[trigger] calls[i]).succeeded(),
    ensures
        observed(calls) == written(calls),
    decreases calls.len(),
{
    if calls.len() > 0 {
        let before = calls.drop_last();
        assert forall|i: int| 0 <= i < before.len() implies (#[trigger] before[i]).succeeded() by {
            assert(before[i] == calls[i]);
        }
        law_writes_concatenate(before);
        assert(calls.last().succeeded());
        law_success_delivers_all(calls.last().data, calls.last().outcomes);
    }
}

/// Whether the calls succeed or fail, what the sink has taken is, call by
/// call and in call order, a front part of each call's bytes: a failed
/// write leaves its bytes cut short, and never out of order or doubled.
pub proof fn law_writes_keep_their_order(calls: Seq<WriteCall>)
    requires
        forall|i: int|
            0 <= i < calls.len() ==> WriteJobState::fresh((#[trigger] calls[i]).data).admits_all(
                calls[i].outcomes,
            ),
    ensures
        observed(calls) == taken_up(calls),
    decreases calls.len(),
{
    if calls.len() > 0 {
        let before = calls.drop_last();
        assert forall|i: int| 0 <= i < before.len() implies WriteJobState::fresh(
            (#[trigger] before[i]).data,
        ).admits_all(before[i].outcomes) by {
            assert(before[i] == calls[i]);
        }
        law_writes_keep_their_order(before);
        let call = calls.last();
        assert(call == calls[calls.len() - 1]);
        let job = WriteJobState::fresh(call.data);
        law_delivery_is_a_prefix(job, call.outcomes);
        assert(call.data.take(0) + job.delivered(call.outcomes) =~= job.delivered(call.outcomes));
    }
}

/// The step that a job asks its caller to perform.
#[derive(Debug, PartialEq, Eq)]
pub enum WriteStep {
    /// Offer the job's bytes from `offset` on to the sink.
    Write { offset: usize },
    /// Flush the sink.
    Flush,
    /// Nothing is left to do; this is the result of the write.
    Finished(Result<(), IoError>),
}

/// A `WriteStep` as a mathematical value.
pub enum WriteStepView {
    Write { offset: nat },
    Flush,
    Finished(Result<(), Seq<char>>),
}

impl View for WriteStep {
    type V = WriteStepView;

    open spec fn view(&self) -> WriteStepView {
        match self {
            WriteStep::Write { offset } => WriteStepView::Write { offset: *offset as nat },
            WriteStep::Flush => WriteStepView::Flush,
            WriteStep::Finished(result) => WriteStepView::Finished(
                match result {
                    Ok(()) => Ok(()),
                    Err(error) => Err(error.message@),
                },
            ),
        }
    }
}

/// The step that a job in this state asks for.
pub open spec fn step_of(job: WriteJobState) -> WriteStepView {
    match job.status {
        WriteStatus::Writing => WriteStepView::Write { offset: job.sent },
        WriteStatus::Flushing => WriteStepView::Flush,
        WriteStatus::Succeeded => WriteStepView::Finished(Ok(())),
        WriteStatus::Failed { message } => WriteStepView::Finished(Err(message)),
    }
}

enum Progress {
    Writing,
    Flushing,
    Succeeded,
    Failed(String),
}

/// The delivery of one byte sequence to one sink.
pub struct WriteJob {
    data: Vec<u8>,
    sent: usize,
    progress: Progress,
}

impl View for WriteJob {
    type V = WriteJobState;

    closed spec fn view(&self) -> WriteJobState {
        WriteJobState {
            data: self.data@,
            sent: self.sent as nat,
            status: match self.progress {
                Progress::Writing => WriteStatus::Writing,
                Progress::Flushing => WriteStatus::Flushing,
                Progress::Succeeded => WriteStatus::Succeeded,
                Progress::Failed(message) => WriteStatus::Failed { message: message@ },
            },
        }
    }
}

impl WriteJob {
    /// The invariant that every operation keeps.
    pub open spec fn wf(&self) -> bool {
        self@.wf()
    }

    /// A job that delivers `data`. With no bytes to deliver it goes straight
    /// to flushing.
    pub fn new(data: Vec<u8>) -> (job: Self)
        ensures
            job@ == WriteJobState::fresh(data@),
            job.wf(),
    {
        let progress = if data.len() == 0 {
            Progress::Flushing
        } else {
            Progress::Writing
        };
        WriteJob { data, sent: 0, progress }
    }

    /// The job for a session that is not there: it is done, successfully,
    /// and asks for no step.
    pub fn skipped() -> (job: Self)
        ensures
            job@ == WriteJobState::skipped(),
            job.wf(),
    {
        WriteJob { data: Vec::new(), sent: 0, progress: Progress::Succeeded }
    }

    /// What the caller is to do next.
    pub fn step(&self) -> (step: WriteStep)
        requires
            self.wf(),
        ensures
            step@ == step_of(self@),
    {
        match &self.progress {
            Progress::Writing => WriteStep::Write { offset: self.sent },
            Progress::Flushing => WriteStep::Flush,
            Progress::Succeeded => WriteStep::Finished(Ok(())),
            Progress::Failed(message) => WriteStep::Finished(
                Err(IoError { message: message.clone() }),
            ),
        }
    }

    /// The bytes that the sink has not taken yet: what a `Write` step offers.
    pub fn pending(&self) -> (bytes: &[u8])
        requires
            self.wf(),
        ensures
            bytes@ == self@.remaining(),
    {
        slice_subrange(self.data.as_slice(), self.sent, self.data.len())
    }

    /// Takes note of what the sink reported for the step last asked for.
    ///
    /// While writing, a sink that took some bytes moves the job on by that
    /// many, and to flushing once none is left; a sink that took none fails
    /// the job; an interrupted call changes nothing, so the same bytes are
    /// offered again; any other error fails the job. While flushing, a flush
    /// completes the job and any error fails it. A finished job ignores
    /// every report.
    pub fn record(&mut self, outcome: WriteOutcome)
        requires
            old(self).wf(),
            old(self)@.admits(outcome@),
        ensures
            final(self).wf(),
            final(self)@ == old(self)@.record(outcome@),
    {
        match self.progress {
            Progress::Writing => match outcome {
                WriteOutcome::Wrote(count) => {
                    if count == 0 {
                        self.progress = Progress::Failed("failed to write whole buffer".to_owned());
                    } else {
                        assert(self@.sent == self.sent && self@.data.len() == self.data.len());
                        self.sent = self.sent + count;
                        if self.sent == self.data.len() {
                            self.progress = Progress::Flushing;
                        }
                    }
                },
                WriteOutcome::Failed { interrupted, message } => {
                    if !interrupted {
                        self.progress = Progress::Failed(message);
                    }
                },
                WriteOutcome::Flushed => {},
            },
            Progress::Flushing => match outcome {
                WriteOutcome::Flushed => {
                    self.progress = Progress::Succeeded;
                },
                WriteOutcome::Failed { interrupted, message } => {
                    self.progress = Progress::Failed(message);
                },
                WriteOutcome::Wrote(count) => {},
            },
            _ => {},
        }
    }
}

} // verus!
