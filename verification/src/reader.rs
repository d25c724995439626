//! The background unit of a pseudo-terminal session: what it emits for each
//! result of a read, and how it ends.
//!
//! The unit reads a chunk, hands the result to its `ReadLoop`, emits the
//! event that comes back, and does what the directive says. When reading is
//! over it closes the loop, which takes the session out of the registry and
//! only then gives the `Exit` event.

use crate::event::{PtyEvent, PtyEventView};
use crate::pty::{PtyInstance, PtyManager};
use vstd::prelude::*;

verus! {

/// The number of bytes that one read asks for.
pub const READ_CHUNK_SIZE: usize = 4096;

/// Where a session's background unit stands.
#[derive(Clone, Copy, Debug, PartialEq, Eq, Structural)]
pub enum ReaderPhase {
    /// Reading from the terminal.
    Reading,
    /// Reading is over; the session is still to be taken out of the
    /// registry.
    Closing,
    /// The session is out of the registry and `Exit` was emitted.
    Finished,
}

/// The result of one blocking read.
#[derive(Clone, Debug, PartialEq, Eq)]
pub enum ReadOutcome {
    /// The read returned these bytes; none means the end of the stream.
    Chunk(Vec<u8>),
    /// The read failed with this error text.
    Failed(String),
}

/// What happens to a background unit, as a mathematical value: a read
/// returns, or the unit closes.
pub enum ReaderInput {
    Chunk(Seq<u8>),
    Failed(Seq<char>),
    Closed,
}

impl View for ReadOutcome {
    type V = ReaderInput;

    open spec fn view(&self) -> ReaderInput {
        match self {
            ReadOutcome::Chunk(data) => ReaderInput::Chunk(data@),
            ReadOutcome::Failed(message) => ReaderInput::Failed(message@),
        }
    }
}

/// What the background unit does next.
#[derive(Clone, Copy, Debug, PartialEq, Eq, Structural)]
pub enum ReaderDirective {
    /// Read the next chunk.
    Read,
    /// Close the loop.
    Close,
    /// Stop: the unit is done.
    Stop,
}

impl ReaderPhase {
    /// What a unit in this phase has to do.
    pub open spec fn directive(self) -> ReaderDirective {
        match self {
            ReaderPhase::Reading => ReaderDirective::Read,
            ReaderPhase::Closing => ReaderDirective::Close,
            ReaderPhase::Finished => ReaderDirective::Stop,
        }
    }

    /// The phase after `input`. Bytes keep the unit reading; the end of the
    /// stream or a failed read ends the reading; closing finishes a unit
    /// whose reading is over. An input that does not belong to the phase
    /// changes nothing.
    pub open spec fn after(self, input: ReaderInput) -> ReaderPhase {
        match (self, input) {
            (ReaderPhase::Reading, ReaderInput::Chunk(data)) => if data.len() == 0 {
                ReaderPhase::Closing
            } else {
                ReaderPhase::Reading
            },
            (ReaderPhase::Reading, ReaderInput::Failed(message)) => ReaderPhase::Closing,
            (ReaderPhase::Closing, ReaderInput::Closed) => ReaderPhase::Finished,
            _ => self,
        }
    }

    /// The event emitted for `input`: the bytes of a non-empty chunk exactly
    /// as they were read, the error of a failed read, and `Exit` on
    /// closing. An input that does not belong to the phase emits nothing.
    pub open spec fn emits(self, input: ReaderInput) -> Option<PtyEventView> {
        match (self, input) {
            (ReaderPhase::Reading, ReaderInput::Chunk(data)) => if data.len() == 0 {
                None
            } else {
                Some(PtyEventView::Output { data })
            },
            (ReaderPhase::Reading, ReaderInput::Failed(message)) => Some(
                PtyEventView::Error { message },
            ),
            (ReaderPhase::Closing, ReaderInput::Closed) => Some(PtyEventView::Exit),
            _ => None,
        }
    }

    /// The phase after `inputs`, taken in order.
    pub open spec fn after_all(self, inputs: Seq<ReaderInput>) -> ReaderPhase
        decreases inputs.len(),
    {
        if inputs.len() == 0 {
            self
        } else {
            self.after_all(inputs.drop_last()).after(inputs.last())
        }
    }

    /// The events emitted over `inputs`, in order.
    pub open spec fn stream(self, inputs: Seq<ReaderInput>) -> Seq<PtyEventView>
        decreases inputs.len(),
    {
        if inputs.len() == 0 {
            Seq::empty()
        } else {
            let before = self.stream(inputs.drop_last());
            match self.after_all(inputs.drop_last()).emits(inputs.last()) {
                Some(event) => before.push(event),
                None => before,
            }
        }
    }
}

/// The order of a session's events: `Exit` only at the very end, `Error`
/// only at the end or directly before `Exit`, and output without bytes
/// nowhere.
pub open spec fn ordered(events: Seq<PtyEventView>) -> bool {
    &&& forall|i: int|
        0 <= i < events.len() && (#[trigger] events[i]) is Exit ==> i == events.len() - 1
    &&& forall|i: int|
        0 <= i < events.len() && (#[trigger] events[i]) is Error ==> i == events.len() - 1 || (i
            == events.len() - 2 && events.last() is Exit)
    &&& forall|i: int|
        0 <= i < events.len() && (#[trigger] events[i]) is Output ==> events[i]->data.len() > 0
}

/// How the events emitted so far fit the phase reached: while reading, only
/// output was emitted; once reading is over, no `Exit` was emitted yet; a
/// finished unit has emitted `Exit` last.
pub open spec fn fits(phase: ReaderPhase, events: Seq<PtyEventView>) -> bool {
    match phase {
        ReaderPhase::Reading => forall|i: int|
            0 <= i < events.len() ==> (#[trigger] events[i]) is Output,
        ReaderPhase::Closing => forall|i: int|
            0 <= i < events.len() ==> !((#[trigger] events[i]) is Exit),
        ReaderPhase::Finished => events.len() > 0 && events.last() is Exit,
    }
}

/// Whatever a session's background unit is fed, its events are in order:
/// `Exit` is emitted at most once and is then the last event, and it has
/// been emitted exactly when the unit is finished.
pub proof fn law_exit_is_last(inputs: Seq<ReaderInput>)
    ensures
        ordered(ReaderPhase::Reading.stream(inputs)),
        fits(ReaderPhase::Reading.after_all(inputs), ReaderPhase::Reading.stream(inputs)),
        ReaderPhase::Reading.after_all(inputs) is Finished <==> ReaderPhase::Reading.stream(
            inputs,
        ).len() > 0 && ReaderPhase::Reading.stream(inputs).last() is Exit,
    decreases inputs.len(),
{
    if inputs.len() > 0 {
        law_exit_is_last(inputs.drop_last());
        let start = ReaderPhase::Reading;
        let before = start.stream(inputs.drop_last());
        let phase = start.after_all(inputs.drop_last());
        let events = start.stream(inputs);
        match phase.emits(inputs.last()) {
            Some(event) => {
                assert(events == before.push(event));
                assert forall|i: int| 0 <= i < events.len() - 1 implies events[i] == before[i] by {}
                assert(events.last() == event);
            },
            None => {
                assert(events == before);
            },
        }
    }
}

/// A finished unit emits nothing more and stays finished.
pub proof fn law_nothing_after_exit(inputs: Seq<ReaderInput>)
    ensures
        ReaderPhase::Finished.after_all(inputs) == ReaderPhase::Finished,
        ReaderPhase::Finished.stream(inputs) == Seq::<PtyEventView>::empty(),
    decreases inputs.len(),
{
    if inputs.len() > 0 {
        law_nothing_after_exit(inputs.drop_last());
    }
}

/// The phase and the events over `first` followed by `second` are those of
/// `second` run from where `first` ends, after the events of `first`.
pub proof fn law_stream_continues(
    phase: ReaderPhase,
    first: Seq<ReaderInput>,
    second: Seq<ReaderInput>,
)
    ensures
        phase.after_all(first + second) == phase.after_all(first).after_all(second),
        phase.stream(first + second) == phase.stream(first) + phase.after_all(first).stream(
            second,
        ),
    decreases second.len(),
{
    if second.len() == 0 {
        assert(first + second =~= first);
        assert(phase.stream(first) + Seq::<PtyEventView>::empty() =~= phase.stream(first));
    } else {
        law_stream_continues(phase, first, second.drop_last());
        assert((first + second).drop_last() =~= first + second.drop_last());
        assert((first + second).last() == second.last());
        let middle = phase.after_all(first);
        match middle.after_all(second.drop_last()).emits(second.last()) {
            Some(event) => {
                assert((phase.stream(first) + middle.stream(second.drop_last())).push(event)
                    =~= phase.stream(first) + middle.stream(second.drop_last()).push(event));
            },
            None => {},
        }
    }
}

/// Once `Exit` was emitted nothing follows it, whatever the unit is fed
/// afterwards: the events stay as they were.
pub proof fn law_no_event_after_exit(inputs: Seq<ReaderInput>, later: Seq<ReaderInput>)
    requires
        ReaderPhase::Reading.after_all(inputs) is Finished,
    ensures
        ReaderPhase::Reading.stream(inputs + later) == ReaderPhase::Reading.stream(inputs),
        ReaderPhase::Reading.after_all(inputs + later) is Finished,
{
    law_stream_continues(ReaderPhase::Reading, inputs, later);
    law_nothing_after_exit(later);
    assert(ReaderPhase::Reading.stream(inputs) + Seq::<PtyEventView>::empty()
        =~= ReaderPhase::Reading.stream(inputs));
}

/// A unit whose reading ends, by the end of the stream or by a failed read,
/// and which is then closed, is finished: it has emitted exactly one
/// `Exit`, as its last event.
pub proof fn law_ended_read_leads_to_exit(inputs: Seq<ReaderInput>, end: ReaderInput)
    requires
        ReaderPhase::Reading.after_all(inputs) is Reading,
        end is Failed || (end is Chunk && end->Chunk_0.len() == 0),
    ensures
        ReaderPhase::Reading.after_all(inputs.push(end).push(ReaderInput::Closed)) is Finished,
        ReaderPhase::Reading.stream(inputs.push(end).push(ReaderInput::Closed)).last() is Exit,
{
    let ended = inputs.push(end);
    let closed = ended.push(ReaderInput::Closed);
    assert(ended.drop_last() =~= inputs);
    assert(closed.drop_last() =~= ended);
    assert(ReaderPhase::Reading.after_all(ended) is Closing);
    law_exit_is_last(closed);
}

/// While only bytes arrive, each chunk is emitted as one `Output` event
/// holding exactly its bytes, in the order of the reads: nothing is joined,
/// split, dropped or reordered.
pub proof fn law_output_mirrors_reads(chunks: Seq<Seq<u8>>)
    requires
        forall|i: int| 0 <= i < chunks.len() ==> (#[trigger] chunks[i]).len() > 0,
    ensures
        ReaderPhase::Reading.after_all(chunks.map_values(|data: Seq<u8>| ReaderInput::Chunk(data)))
            is Reading,
        ReaderPhase::Reading.stream(chunks.map_values(|data: Seq<u8>| ReaderInput::Chunk(data)))
            == chunks.map_values(|data: Seq<u8>| PtyEventView::Output { data }),
    decreases chunks.len(),
{
    let as_input = |data: Seq<u8>| ReaderInput::Chunk(data);
    let as_event = |data: Seq<u8>| PtyEventView::Output { data };
    if chunks.len() > 0 {
        law_output_mirrors_reads(chunks.drop_last());
        assert(chunks.map_values(as_input).drop_last() =~= chunks.drop_last().map_values(
            as_input,
        ));
        assert(chunks.map_values(as_input).last() == ReaderInput::Chunk(chunks.last()));
        assert(chunks.drop_last().map_values(as_event).push(as_event(chunks.last()))
            =~= chunks.map_values(as_event));
    } else {
        assert(chunks.map_values(as_event) =~= Seq::<PtyEventView>::empty());
    }
}

/// One step of the background unit: the event to emit, if any, and what to
/// do afterwards.
#[derive(Debug, PartialEq, Eq)]
pub struct ReaderStep {
    pub emit: Option<PtyEvent>,
    pub next: ReaderDirective,
}

/// The view of an optional event.
pub open spec fn event_of(event: Option<PtyEvent>) -> Option<PtyEventView> {
    match event {
        Some(event) => Some(event@),
        None => None,
    }
}

/// The background unit of the session `id`.
pub struct ReadLoop {
    id: u32,
    phase: ReaderPhase,
}

impl View for ReadLoop {
    type V = ReaderPhase;

    closed spec fn view(&self) -> ReaderPhase {
        self.phase
    }
}

impl ReadLoop {
    /// The session that the unit belongs to.
    pub closed spec fn session(&self) -> u32 {
        self.id
    }

    /// The unit of the session `id`, about to read for the first time.
    pub fn new(id: u32) -> (unit: Self)
        ensures
            unit.session() == id,
            unit@ == ReaderPhase::Reading,
    {
        ReadLoop { id, phase: ReaderPhase::Reading }
    }

    /// The session that the unit belongs to.
    pub fn id(&self) -> (id: u32)
        ensures
            id == self.session(),
    {
        self.id
    }

    /// Where the unit stands.
    pub fn phase(&self) -> (phase: ReaderPhase)
        ensures
            phase == self@,
    {
        self.phase
    }

    /// What the unit has to do now.
    pub fn directive(&self) -> (next: ReaderDirective)
        ensures
            next == self@.directive(),
    {
        match self.phase {
            ReaderPhase::Reading => ReaderDirective::Read,
            ReaderPhase::Closing => ReaderDirective::Close,
            ReaderPhase::Finished => ReaderDirective::Stop,
        }
    }

    /// Takes the result of a read. Bytes are emitted as one `Output` event,
    /// exactly as read, and the unit reads on. The end of the stream emits
    /// nothing and a failed read emits `Error`; either ends the reading, and
    /// the unit is to close. A unit that is not reading ignores the result.
    pub fn on_read(&mut self, outcome: ReadOutcome) -> (step: ReaderStep)
        ensures
            final(self).session() == old(self).session(),
            final(self)@ == old(self)@.after(outcome@),
            event_of(step.emit) == old(self)@.emits(outcome@),
            step.next == final(self)@.directive(),
    {
        match self.phase {
            ReaderPhase::Reading => match outcome {
                ReadOutcome::Chunk(data) => {
                    if data.len() == 0 {
                        self.phase = ReaderPhase::Closing;
                        ReaderStep { emit: None, next: ReaderDirective::Close }
                    } else {
                        ReaderStep {
                            emit: Some(PtyEvent::Output { data }),
                            next: ReaderDirective::Read,
                        }
                    }
                },
                ReadOutcome::Failed(message) => {
                    self.phase = ReaderPhase::Closing;
                    ReaderStep {
                        emit: Some(PtyEvent::Error { message }),
                        next: ReaderDirective::Close,
                    }
                },
            },
            ReaderPhase::Closing => ReaderStep { emit: None, next: ReaderDirective::Close },
            ReaderPhase::Finished => ReaderStep { emit: None, next: ReaderDirective::Stop },
        }
    }

    /// Closes a unit whose reading is over: takes its session out of the
    /// registry, which does nothing where a kill has removed it already, and
    /// gives `Exit`, the session's last event. Whoever sees that event can
    /// rely on the session being gone from the registry. The removed
    /// session comes back for the caller to drop. On a unit that is still
    /// reading, or finished, nothing happens.
    pub fn close<H>(&mut self, manager: &mut PtyManager<H>) -> (closed: (
        Option<PtyInstance<H>>,
        Option<PtyEvent>,
    ))
        requires
            old(manager).wf(),
        ensures
            final(manager).wf(),
            final(self).session() == old(self).session(),
            final(self)@ == old(self)@.after(ReaderInput::Closed),
            event_of(closed.1) == old(self)@.emits(ReaderInput::Closed),
            old(self)@ is Closing ==> final(manager)@ == old(manager)@.remove(old(self).session())
                && closed.0 == old(manager)@.get(old(self).session()),
            !(old(self)@ is Closing) ==> final(manager)@ == old(manager)@ && closed.0 is None,
            closed.1 is Some ==> !final(manager)@.contains(old(self).session()),
    {
        match self.phase {
            ReaderPhase::Closing => {
                let removed = crate::pty::kill_pty(manager, self.id);
                self.phase = ReaderPhase::Finished;
                (removed, Some(PtyEvent::Exit {  }))
            },
            _ => (None, None),
        }
    }
}

} // verus!
