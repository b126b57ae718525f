//! The ingestion loop as a state machine.
//!
//! The machine decides, the driver acts. Each [`Action`] names one piece of
//! outside work (poll the queue, write to the store, acknowledge a batch,
//! commit the offsets); the driver performs it and hands the outcome back
//! as an [`Event`]. Decoding is the machine's own work: it happens when a
//! batch is taken up, before any action is asked for that batch.
//!
//! A poll cycle runs through the batches of one poll in order:
//! polling, then for each batch decoding, persisting and acknowledging, then
//! the commit. A batch that does not decode, or whose write fails, is
//! passed over without acknowledgement, so that the queue delivers it anew.

use crate::bar::Bar;
use crate::bar::BarView;
use crate::codec::bars_of;
use crate::codec::decode_all;
use crate::codec::decode_batch;
use crate::codec::payloads_of;
use crate::codec::Rejection;
use crate::codec::RejectionView;
use vstd::prelude::*;

verus! {

/// The messages of one poll that are acknowledged together, with the marker
/// by which the queue knows them.
#[derive(Debug, Clone, PartialEq, Eq)]
pub struct Batch {
    pub marker: u64,
    pub messages: Vec<Vec<u8>>,
}

/// The mathematical content of a [`Batch`].
pub struct BatchView {
    pub marker: u64,
    pub payloads: Seq<Seq<u8>>,
}

impl View for Batch {
    type V = BatchView;

    open spec fn view(&self) -> BatchView {
        BatchView { marker: self.marker, payloads: payloads_of(self.messages@) }
    }
}

/// The views of a run of batches.
pub open spec fn batches_of(batches: Seq<Batch>) -> Seq<BatchView> {
    batches.map_values(|b: Batch| b@)
}

/// The errors that end the loop.
#[derive(Debug, Clone, Copy, PartialEq, Eq, Structural)]
pub enum FatalError {
    /// The queue could not be polled.
    QueueFetch,
    /// The queue did not take an acknowledgement or the offset commit.
    OffsetCommit,
    /// The driver handed in an event that does not answer the last action.
    OutOfTurn,
}

/// Where the machine stands: what the last action was, and so which events
/// it awaits.
#[derive(Debug, Clone, Copy, PartialEq, Eq, Structural)]
pub enum Phase {
    /// A poll was asked for.
    Polling,
    /// The current batch did not decode, and a warning was asked for.
    Rejecting,
    /// The current batch was decoded, and its write was asked for.
    Persisting,
    /// The current batch was written, and its acknowledgement was asked for.
    Acknowledging,
    /// All batches of the poll are done, and the commit was asked for.
    Committing,
    /// The loop has ended.
    Halted(FatalError),
}

/// What the driver reports back.
#[derive(Debug, Clone, PartialEq, Eq)]
pub enum Event {
    /// The poll returned these batches; none, where it timed out.
    Polled(Vec<Batch>),
    /// The poll failed.
    FetchFailed,
    /// The warning was taken note of.
    Warned,
    /// The store applied the write and inserted this many rows.
    Written(usize),
    /// The store did not apply the write.
    WriteFailed,
    /// The queue marked the batch as consumed.
    Acknowledged,
    /// The queue did not mark the batch.
    AcknowledgeFailed,
    /// The queue stored the offsets of what was consumed.
    Committed,
    /// The queue did not store the offsets.
    CommitFailed,
}

/// The mathematical content of an [`Event`].
pub enum EventView {
    Polled(Seq<BatchView>),
    FetchFailed,
    Warned,
    Written(usize),
    WriteFailed,
    Acknowledged,
    AcknowledgeFailed,
    Committed,
    CommitFailed,
}

impl View for Event {
    type V = EventView;

    open spec fn view(&self) -> EventView {
        match self {
            Event::Polled(batches) => EventView::Polled(batches_of(batches@)),
            Event::FetchFailed => EventView::FetchFailed,
            Event::Warned => EventView::Warned,
            Event::Written(n) => EventView::Written(*n),
            Event::WriteFailed => EventView::WriteFailed,
            Event::Acknowledged => EventView::Acknowledged,
            Event::AcknowledgeFailed => EventView::AcknowledgeFailed,
            Event::Committed => EventView::Committed,
            Event::CommitFailed => EventView::CommitFailed,
        }
    }
}

/// What the machine asks the driver to do next.
#[derive(Debug, Clone, PartialEq, Eq)]
pub enum Action {
    /// Poll the queue for the next batches.
    Poll,
    /// Report that the batch under the marker was rejected, and why.
    Warn { marker: u64, rejection: Rejection },
    /// Write the bars of the batch under the marker to the store, as one
    /// write.
    Write { marker: u64, bars: Vec<Bar> },
    /// Mark the batch under the marker as consumed.
    Acknowledge { marker: u64 },
    /// Store the offsets of what was consumed.
    Commit,
    /// Stop: the loop has ended with this error.
    Halt(FatalError),
}

/// The mathematical content of an [`Action`].
pub enum ActionView {
    Poll,
    Warn { marker: u64, rejection: RejectionView },
    Write { marker: u64, bars: Seq<BarView> },
    Acknowledge { marker: u64 },
    Commit,
    Halt(FatalError),
}

impl View for Action {
    type V = ActionView;

    open spec fn view(&self) -> ActionView {
        match self {
            Action::Poll => ActionView::Poll,
            Action::Warn { marker, rejection } => ActionView::Warn {
                marker: *marker,
                rejection: rejection@,
            },
            Action::Write { marker, bars } => ActionView::Write {
                marker: *marker,
                bars: bars_of(bars@),
            },
            Action::Acknowledge { marker } => ActionView::Acknowledge { marker: *marker },
            Action::Commit => ActionView::Commit,
            Action::Halt(error) => ActionView::Halt(*error),
        }
    }
}

/// The mathematical content of an [`Ingest`]: the phase, the batches of the
/// poll at hand, and the position of the current batch among them.
pub struct IngestView {
    pub phase: Phase,
    pub batches: Seq<BatchView>,
    pub cursor: int,
}

impl IngestView {
    /// The state in which a machine starts, and to which each commit
    /// returns it.
    pub open spec fn idle() -> IngestView {
        IngestView { phase: Phase::Polling, batches: Seq::empty(), cursor: 0 }
    }

    /// The batch at the cursor.
    pub open spec fn current(self) -> BatchView {
        self.batches[self.cursor]
    }

    pub open spec fn wf(self) -> bool {
        &&& 0 <= self.cursor <= self.batches.len()
        &&& match self.phase {
            Phase::Polling => self.cursor == 0,
            Phase::Rejecting => self.cursor < self.batches.len() && decode_all(
                self.current().payloads,
            ) is Err,
            Phase::Persisting | Phase::Acknowledging => self.cursor < self.batches.len()
                && decode_all(self.current().payloads) is Ok,
            Phase::Committing => self.cursor == self.batches.len(),
            Phase::Halted(_) => true,
        }
    }

    /// The state with the loop ended.
    pub open spec fn halted(self, error: FatalError) -> IngestView {
        IngestView { phase: Phase::Halted(error), ..self }
    }
}

/// Takes up the batch at `cursor`: decodes it and asks for its write, or
/// for a warning where it does not decode; past the last batch, asks for
/// the commit.
pub open spec fn take_up(batches: Seq<BatchView>, cursor: int) -> (IngestView, ActionView) {
    if cursor >= batches.len() {
        (IngestView { phase: Phase::Committing, batches, cursor }, ActionView::Commit)
    } else {
        match decode_all(batches[cursor].payloads) {
            Ok(bars) => (
                IngestView { phase: Phase::Persisting, batches, cursor },
                ActionView::Write { marker: batches[cursor].marker, bars },
            ),
            Err(rejection) => (
                IngestView { phase: Phase::Rejecting, batches, cursor },
                ActionView::Warn { marker: batches[cursor].marker, rejection },
            ),
        }
    }
}

/// One transition: the state and the event give the next state and the
/// action to perform.
pub open spec fn step_spec(state: IngestView, event: EventView) -> (IngestView, ActionView) {
    match (state.phase, event) {
        (Phase::Halted(error), _) => (state, ActionView::Halt(error)),
        (Phase::Polling, EventView::Polled(batches)) => take_up(batches, 0),
        (Phase::Polling, EventView::FetchFailed) => (
            state.halted(FatalError::QueueFetch),
            ActionView::Halt(FatalError::QueueFetch),
        ),
        (Phase::Rejecting, EventView::Warned) => take_up(state.batches, state.cursor + 1),
        (Phase::Persisting, EventView::Written(_)) => (
            IngestView { phase: Phase::Acknowledging, ..state },
            ActionView::Acknowledge { marker: state.current().marker },
        ),
        (Phase::Persisting, EventView::WriteFailed) => take_up(state.batches, state.cursor + 1),
        (Phase::Acknowledging, EventView::Acknowledged) => take_up(
            state.batches,
            state.cursor + 1,
        ),
        (Phase::Acknowledging, EventView::AcknowledgeFailed) => (
            state.halted(FatalError::OffsetCommit),
            ActionView::Halt(FatalError::OffsetCommit),
        ),
        (Phase::Committing, EventView::Committed) => (IngestView::idle(), ActionView::Poll),
        (Phase::Committing, EventView::CommitFailed) => (
            state.halted(FatalError::OffsetCommit),
            ActionView::Halt(FatalError::OffsetCommit),
        ),
        _ => (state.halted(FatalError::OutOfTurn), ActionView::Halt(FatalError::OutOfTurn)),
    }
}

/// The action that was asked for last, which the state alone tells.
pub open spec fn awaited(state: IngestView) -> ActionView {
    match state.phase {
        Phase::Polling => ActionView::Poll,
        Phase::Rejecting => ActionView::Warn {
            marker: state.current().marker,
            rejection: decode_all(state.current().payloads)->Err_0,
        },
        Phase::Persisting => ActionView::Write {
            marker: state.current().marker,
            bars: decode_all(state.current().payloads)->Ok_0,
        },
        Phase::Acknowledging => ActionView::Acknowledge { marker: state.current().marker },
        Phase::Committing => ActionView::Commit,
        Phase::Halted(error) => ActionView::Halt(error),
    }
}

/// A bound on the number of transitions that are left before the machine
/// polls again or stops.
pub open spec fn steps_left(state: IngestView) -> int {
    match state.phase {
        Phase::Polling | Phase::Halted(_) => 0,
        Phase::Committing => 1,
        Phase::Acknowledging => 3 * (state.batches.len() - state.cursor),
        Phase::Rejecting | Phase::Persisting => 3 * (state.batches.len() - state.cursor) + 1,
    }
}

/// The ingestion state machine.
#[derive(Debug)]
pub struct Ingest {
    place: Place,
    batches: Vec<Batch>,
}

/// The phase and the position of the current batch, which change together.
#[derive(Debug, Clone, Copy)]
struct Place {
    phase: Phase,
    cursor: usize,
}

impl View for Ingest {
    type V = IngestView;

    closed spec fn view(&self) -> IngestView {
        IngestView {
            phase: self.place.phase,
            batches: batches_of(self.batches@),
            cursor: self.place.cursor as int,
        }
    }
}

impl Ingest {
    /// Holds of every machine: each transition sees to it.
    #[verifier::type_invariant]
    pub open spec fn wf(&self) -> bool {
        self@.wf()
    }

    /// A machine that has asked for its first poll.
    pub fn new() -> (machine: Ingest)
        ensures
            machine.wf(),
            machine@ == IngestView::idle(),
    {
        let machine = Ingest {
            place: Place { phase: Phase::Polling, cursor: 0 },
            batches: Vec::new(),
        };
        assert(batches_of(machine.batches@) =~= Seq::<BatchView>::empty());
        machine
    }

    /// Where the machine stands.
    pub fn phase(&self) -> (phase: Phase)
        ensures
            phase == self@.phase,
    {
        self.place.phase
    }

    /// The marker of the batch at hand, while there is one.
    pub fn current_marker(&self) -> (marker: Option<u64>)
        ensures
            marker is Some <==> 0 <= self@.cursor < self@.batches.len(),
            marker is Some ==> marker->0 == self@.current().marker,
    {
        if self.place.cursor < self.batches.len() {
            Some(self.batches[self.place.cursor].marker)
        } else {
            None
        }
    }

    fn halt(&mut self, error: FatalError) -> (action: Action)
        ensures
            final(self)@ == old(self)@.halted(error),
            action@ == ActionView::Halt(error),
    {
        proof {
            use_type_invariant(&*self);
        }
        self.place = Place { phase: Phase::Halted(error), cursor: self.place.cursor };
        Action::Halt(error)
    }

    fn take_up(&mut self, cursor: usize) -> (action: Action)
        requires
            cursor <= old(self).batches@.len(),
        ensures
            (final(self)@, action@) == take_up(old(self)@.batches, cursor as int),
    {
        if cursor >= self.batches.len() {
            self.place = Place { phase: Phase::Committing, cursor };
            return Action::Commit;
        }
        let marker: u64 = self.batches[cursor].marker;
        match decode_batch(&self.batches[cursor].messages) {
            Ok(bars) => {
                self.place = Place { phase: Phase::Persisting, cursor };
                Action::Write { marker, bars }
            },
            Err(rejection) => {
                self.place = Place { phase: Phase::Rejecting, cursor };
                Action::Warn { marker, rejection }
            },
        }
    }

    /// Takes the outcome of the last action and gives the next action.
    ///
    /// An event that does not answer the last action ends the loop, as does
    /// every failure of the queue; a batch that does not decode and a write
    /// that fails do not.
    pub fn step(&mut self, event: Event) -> (action: Action)
        ensures
            final(self).wf(),
            (final(self)@, action@) == step_spec(old(self)@, event@),
    {
        proof {
            use_type_invariant(&*self);
        }
        let count: usize = self.batches.len();
        assert(batches_of(self.batches@).len() == count);
        let cursor: usize = self.place.cursor;
        let action = match self.place.phase {
            Phase::Halted(error) => Action::Halt(error),
            Phase::Polling => match event {
                Event::Polled(batches) => {
                    self.batches = batches;
                    self.take_up(0)
                },
                Event::FetchFailed => self.halt(FatalError::QueueFetch),
                _ => self.halt(FatalError::OutOfTurn),
            },
            Phase::Rejecting => match event {
                Event::Warned => self.take_up(cursor + 1),
                _ => self.halt(FatalError::OutOfTurn),
            },
            Phase::Persisting => match event {
                Event::Written(_) => {
                    self.place = Place { phase: Phase::Acknowledging, cursor };
                    Action::Acknowledge { marker: self.batches[cursor].marker }
                },
                Event::WriteFailed => self.take_up(cursor + 1),
                _ => self.halt(FatalError::OutOfTurn),
            },
            Phase::Acknowledging => match event {
                Event::Acknowledged => self.take_up(cursor + 1),
                Event::AcknowledgeFailed => self.halt(FatalError::OffsetCommit),
                _ => self.halt(FatalError::OutOfTurn),
            },
            Phase::Committing => match event {
                Event::Committed => {
                    self.place = Place { phase: Phase::Polling, cursor: 0 };
                    self.batches = Vec::new();
                    assert(batches_of(self.batches@) =~= Seq::<BatchView>::empty());
                    Action::Poll
                },
                Event::CommitFailed => self.halt(FatalError::OffsetCommit),
                _ => self.halt(FatalError::OutOfTurn),
            },
        };
        proof {
            use_type_invariant(&*self);
        }
        action
    }
}

/// Every transition keeps the state well formed, and so every state that a
/// run reaches is.
pub proof fn lemma_step_keeps_wf(state: IngestView, event: EventView)
    requires
        state.wf(),
    ensures
        step_spec(state, event).0.wf(),
{
}

/// Acknowledgement follows persistence: the acknowledgement of a batch is
/// asked for only in answer to the store's confirmation of the write of
/// that batch, and the batch is one that decoded as a whole.
pub proof fn lemma_acknowledge_follows_write(state: IngestView, event: EventView)
    requires
        state.wf(),
        step_spec(state, event).1 is Acknowledge,
    ensures
        state.phase == Phase::Persisting,
        event is Written,
        step_spec(state, event).1->Acknowledge_marker == state.current().marker,
        step_spec(state, event).0.phase == Phase::Acknowledging,
        decode_all(state.current().payloads) is Ok,
{
}

/// An acknowledgement answers a write: whenever two transitions in a row
/// end in the acknowledgement of a batch, the first has asked for the write
/// of that batch, with the bars of all its messages, and the second has
/// taken the store's confirmation. A machine that has just started has no
/// write to answer, and asks for no acknowledgement.
pub proof fn lemma_acknowledge_answers_write(state: IngestView, first: EventView, second: EventView)
    requires
        state.wf(),
        step_spec(step_spec(state, first).0, second).1 is Acknowledge,
    ensures
        ({
            let (between, asked) = step_spec(state, first);
            let marker = step_spec(between, second).1->Acknowledge_marker;
            &&& second is Written
            &&& asked == (ActionView::Write {
                marker,
                bars: decode_all(between.current().payloads)->Ok_0,
            })
            &&& between.current().marker == marker
            &&& decode_all(between.current().payloads) is Ok
        }),
        !(step_spec(IngestView::idle(), first).1 is Acknowledge),
{
    lemma_step_keeps_wf(state, first);
    lemma_action_is_awaited(state, first);
}

/// A write carries a whole batch: the bars handed to the store are those of
/// every message of the batch at hand, in order.
pub proof fn lemma_write_is_whole_batch(state: IngestView, event: EventView)
    requires
        state.wf(),
        step_spec(state, event).1 is Write,
    ensures
        ({
            let (next, action) = step_spec(state, event);
            &&& next.phase == Phase::Persisting
            &&& 0 <= next.cursor < next.batches.len()
            &&& action->Write_marker == next.current().marker
            &&& decode_all(next.current().payloads) == Ok::<Seq<BarView>, RejectionView>(
                action->Write_bars,
            )
        }),
{
}

/// A batch with a message that is no bar is passed over: when it is taken
/// up, a warning is asked for and nothing else; and whatever the driver
/// answers, neither a write nor an acknowledgement of that batch follows.
pub proof fn lemma_malformed_batch_is_passed_over(
    batches: Seq<BatchView>,
    cursor: int,
    event: EventView,
)
    requires
        0 <= cursor < batches.len(),
        decode_all(batches[cursor].payloads) is Err,
    ensures
        ({
            let (rejecting, warning) = take_up(batches, cursor);
            let (next, action) = step_spec(rejecting, event);
            &&& rejecting.phase == Phase::Rejecting
            &&& warning == (ActionView::Warn {
                marker: batches[cursor].marker,
                rejection: decode_all(batches[cursor].payloads)->Err_0,
            })
            &&& !(action is Acknowledge)
            &&& action is Write ==> next.cursor == cursor + 1
            &&& next.phase is Halted || next.cursor == cursor + 1
        }),
{
}

/// A failed write is passed over without acknowledgement: the next action
/// belongs to the next batch or closes the poll.
pub proof fn lemma_failed_write_is_not_acknowledged(state: IngestView)
    requires
        state.wf(),
        state.phase == Phase::Persisting,
    ensures
        ({
            let (next, action) = step_spec(state, EventView::WriteFailed);
            &&& !(action is Acknowledge)
            &&& !(action is Halt)
            &&& next.cursor == state.cursor + 1
        }),
{
}

/// The commit closes the poll: it is asked for only when every batch of the
/// poll has been taken up.
pub proof fn lemma_commit_closes_the_poll(state: IngestView, event: EventView)
    requires
        state.wf(),
        step_spec(state, event).1 is Commit,
    ensures
        step_spec(state, event).0.phase == Phase::Committing,
        step_spec(state, event).0.cursor == step_spec(state, event).0.batches.len(),
{
}

/// Only the queue ends the loop: from a well-formed state, an event that
/// answers the last action ends it exactly when the poll, an
/// acknowledgement or the commit has failed.
pub proof fn lemma_only_the_queue_is_fatal(state: IngestView, event: EventView)
    requires
        state.wf(),
        !(state.phase is Halted),
        step_spec(state, event).1 is Halt,
        step_spec(state, event).1 != ActionView::Halt(FatalError::OutOfTurn),
    ensures
        event is FetchFailed || event is AcknowledgeFailed || event is CommitFailed,
{
}

/// The action that a transition gives is the one that its new state
/// awaits.
pub proof fn lemma_action_is_awaited(state: IngestView, event: EventView)
    requires
        state.wf(),
    ensures
        step_spec(state, event).1 == awaited(step_spec(state, event).0),
{
}

/// A cycle ends: while the machine neither polls nor stops, each
/// transition brings it closer to doing so.
pub proof fn lemma_cycle_ends(state: IngestView, event: EventView)
    requires
        state.wf(),
        !(state.phase is Polling),
        !(state.phase is Halted),
    ensures
        0 <= steps_left(step_spec(state, event).0) < steps_left(state),
{
}

} // verus!
