//! The driver of a device as a state machine.
//!
//! A device repeats one cycle for ever: collect the neighbour states from
//! the mailbox, evaluate one round of the aggregate program on them, publish
//! the export of that round, take in at most one message from the network,
//! sleep. Evaluating, publishing, receiving and sleeping are done by the
//! embedding program; every decision between them is taken here. The program
//! performs the [`Action`] that a step returns and reports the outcome as the
//! next [`Event`]. While it waits for an update or sleeps it may report
//! [`Event::Cancelled`] instead, which ends the loop.

use crate::mailbox::factory::ProcessingPolicy;
use crate::mailbox::{
    after_enqueue, after_messages, current_messages, exports_of, keyed_by_source,
    lemma_enqueue_keeps_keys, lemma_messages_keep_keys, AsStates, Mailbox,
};
use crate::message::Message;
use crate::network::NetworkUpdate;
use crate::state::States;
use crate::wire::{delivered, framed, law_round_trip, message_of, payload_of};
use rf_core::export::Export;
use vstd::prelude::*;

verus! {

broadcast use vstd::std_specs::hash::group_hash_axioms;

/// The seconds that a device sleeps between two rounds unless configured
/// otherwise.
pub const ROUND_INTERVAL_SECS: u64 = 2;

/// Where in its cycle a device is.
///
/// Collecting the snapshot needs no outside work, so the machine does not
/// rest there: it collects while it handles `Started` or `Woke`.
#[derive(Clone, Copy, Debug, PartialEq, Eq, Structural)]
pub enum Phase {
    /// Built, not yet started.
    Idle,
    /// A round is being evaluated on the snapshot that was handed out.
    Evaluating,
    /// The export of the round is being published.
    Publishing,
    /// One receive attempt is under way.
    AwaitingUpdate,
    /// The device sleeps until the next round.
    Sleeping,
    /// The loop has ended with an error.
    Stopped,
}

/// Why a platform has stopped.
#[derive(Clone, Copy, Debug, PartialEq, Eq, Structural)]
pub enum PlatformError {
    /// The transport is closed for good.
    Transport,
    /// The evaluator could not run the round; the configuration is at fault.
    Evaluator,
    /// An event was reported that the pending action cannot have caused.
    Protocol,
    /// The embedding program has asked the loop to end.
    Cancelled,
}

/// What has happened outside since the last step.
#[derive(Debug, PartialEq)]
pub enum Event {
    /// The embedding program starts the loop.
    Started,
    /// The evaluator has finished the round at time `now` with `export`.
    Evaluated { export: Export, now: u64 },
    /// The evaluator has failed.
    EvaluationFailed,
    /// The broadcast went out.
    Published,
    /// The broadcast failed; `closed` tells whether the transport is closed
    /// for good.
    PublishFailed { closed: bool },
    /// The receive attempt returned `update`. `parsed` is the export that
    /// was read from the payload of an update, or nothing if the payload
    /// holds none that can be read.
    Received { update: NetworkUpdate, parsed: Option<Export> },
    /// The receive attempt failed; `closed` tells whether the transport is
    /// closed for good.
    ReceiveFailed { closed: bool },
    /// The sleep is over.
    Woke,
    /// The loop is asked to end. A request is taken where the loop is
    /// suspended: while it waits for an update or sleeps.
    Cancelled,
}

/// What the embedding program has to do next.
#[derive(Debug, PartialEq)]
pub enum Action {
    /// Evaluate one round on these neighbour states.
    Evaluate { states: States },
    /// Serialize `message` and publish it on the device's own channel.
    Broadcast { message: Message },
    /// Try once to receive from the network.
    Receive,
    /// Sleep for so many seconds.
    Sleep { seconds: u64 },
    /// End the loop and report `error`.
    Stop { error: PlatformError },
}

/// An action with the snapshot as a mathematical map.
pub enum ActionView {
    Evaluate { states: Map<i32, Export> },
    Broadcast { message: Message },
    Receive,
    Sleep { seconds: u64 },
    Stop { error: PlatformError },
}

impl View for Action {
    type V = ActionView;

    open spec fn view(&self) -> ActionView {
        match self {
            Action::Evaluate { states } => ActionView::Evaluate { states: states@ },
            Action::Broadcast { message } => ActionView::Broadcast { message: *message },
            Action::Receive => ActionView::Receive,
            Action::Sleep { seconds } => ActionView::Sleep { seconds: *seconds },
            Action::Stop { error } => ActionView::Stop { error: *error },
        }
    }
}

/// The state of a platform.
pub struct PlatformState {
    /// Where in its cycle the device is.
    pub phase: Phase,
    /// The device's own identifier.
    pub self_id: i32,
    /// The neighbours of the device.
    pub neighbors: Seq<i32>,
    /// The seconds between two rounds.
    pub interval: u64,
    /// The policy of the mailbox.
    pub policy: ProcessingPolicy,
    /// What the mailbox has buffered.
    pub buffers: Map<i32, Seq<Message>>,
}

impl PlatformState {
    /// The same state in another phase.
    pub open spec fn in_phase(self, phase: Phase) -> PlatformState {
        PlatformState { phase, ..self }
    }
}

/// The start of a round: the mailbox hands out its messages, and their
/// exports are the snapshot to evaluate.
pub open spec fn collect(state: PlatformState) -> (PlatformState, ActionView) {
    (
        PlatformState {
            phase: Phase::Evaluating,
            buffers: after_messages(state.policy, state.buffers),
            ..state
        },
        ActionView::Evaluate {
            states: exports_of(current_messages(state.policy, state.buffers)),
        },
    )
}

/// The end of the loop.
pub open spec fn stop(state: PlatformState, error: PlatformError) -> (PlatformState, ActionView) {
    (state.in_phase(Phase::Stopped), ActionView::Stop { error })
}

/// The end of a cycle: sleep until the next round.
pub open spec fn rest(state: PlatformState) -> (PlatformState, ActionView) {
    (state.in_phase(Phase::Sleeping), ActionView::Sleep { seconds: state.interval })
}

/// After a failure of the transport: the loop ends if the transport is
/// closed, else the cycle goes on to its sleep and the next round tries
/// again.
pub open spec fn after_transport_failure(state: PlatformState, closed: bool) -> (
    PlatformState,
    ActionView,
) {
    if closed {
        stop(state, PlatformError::Transport)
    } else {
        rest(state)
    }
}

/// The message that a receive attempt has brought, if it brought one: the
/// message that the payload of the update delivers with the export read
/// from it.
pub open spec fn accepted(update: NetworkUpdate, export: Option<Export>) -> Option<Message> {
    match update {
        NetworkUpdate::Update { msg } => delivered(msg@, export),
        NetworkUpdate::NoUpdate => None,
    }
}

/// One step of the platform: the state and the action that follow from
/// `state` when `event` is reported.
pub open spec fn next(state: PlatformState, event: Event) -> (PlatformState, ActionView) {
    match (state.phase, event) {
        (Phase::Idle, Event::Started) => collect(state),
        (Phase::Sleeping, Event::Woke) => collect(state),
        (Phase::Evaluating, Event::Evaluated { export, now }) => (
            state.in_phase(Phase::Publishing),
            ActionView::Broadcast {
                message: Message { source: state.self_id, export, timestamp: now },
            },
        ),
        (Phase::Evaluating, Event::EvaluationFailed) => stop(state, PlatformError::Evaluator),
        (Phase::Publishing, Event::Published) => (
            state.in_phase(Phase::AwaitingUpdate),
            ActionView::Receive,
        ),
        (Phase::Publishing, Event::PublishFailed { closed }) => after_transport_failure(
            state,
            closed,
        ),
        (Phase::AwaitingUpdate, Event::Received { update, parsed }) => match accepted(
            update,
            parsed,
        ) {
            Some(msg) => rest(
                PlatformState { buffers: after_enqueue(state.policy, state.buffers, msg), ..state },
            ),
            None => rest(state),
        },
        (Phase::AwaitingUpdate, Event::ReceiveFailed { closed }) => after_transport_failure(
            state,
            closed,
        ),
        (Phase::AwaitingUpdate, Event::Cancelled) => stop(state, PlatformError::Cancelled),
        (Phase::Sleeping, Event::Cancelled) => stop(state, PlatformError::Cancelled),
        _ => stop(state, PlatformError::Protocol),
    }
}

/// A broadcast that fails while the transport stays open does not end the
/// loop: the device sleeps with its mailbox untouched, and its next round
/// ends in another broadcast, of that round's export.
pub proof fn law_failed_broadcast_is_tried_again(state: PlatformState, export: Export, now: u64)
    requires
        state.phase == Phase::Publishing,
    ensures
        ({
            let (failed, first) = next(state, Event::PublishFailed { closed: false });
            let (woken, second) = next(failed, Event::Woke);
            let (evaluated, third) = next(woken, Event::Evaluated { export, now });
            &&& first == ActionView::Sleep { seconds: state.interval }
            &&& failed == state.in_phase(Phase::Sleeping)
            &&& second == ActionView::Evaluate {
                states: exports_of(current_messages(state.policy, state.buffers)),
            }
            &&& woken.phase == Phase::Evaluating
            &&& third == ActionView::Broadcast {
                message: Message { source: state.self_id, export, timestamp: now },
            }
            &&& evaluated.phase == Phase::Publishing
        }),
{
}

/// An update whose payload is malformed is dropped: if the text is the
/// payload of no message, or its export cannot be read, nothing enters the
/// mailbox, and the device goes on to its sleep as after any other receive.
pub proof fn law_malformed_payload_is_dropped(
    state: PlatformState,
    msg: String,
    export: Option<Export>,
)
    requires
        state.phase == Phase::AwaitingUpdate,
        framed(msg@) is None || export is None,
    ensures
        next(state, Event::Received { update: NetworkUpdate::Update { msg }, parsed: export }) == (
            state.in_phase(Phase::Sleeping),
            ActionView::Sleep { seconds: state.interval },
        ),
{
}

/// An update with a well-formed payload enters the mailbox as the message of
/// the source and the time that stand in the payload.
pub proof fn law_payload_fixes_the_message(
    state: PlatformState,
    source: i32,
    timestamp: u64,
    text: Seq<char>,
    msg: String,
    export: Export,
)
    requires
        state.phase == Phase::AwaitingUpdate,
        msg@ == payload_of(source, timestamp, text),
    ensures
        next(state, Event::Received { update: NetworkUpdate::Update { msg }, parsed: Some(export) })
            == rest(
            PlatformState {
                buffers: after_enqueue(
                    state.policy,
                    state.buffers,
                    Message { source, export, timestamp },
                ),
                ..state
            },
        ),
{
    law_round_trip(source, timestamp, text);
}

/// The mailbox of a platform keeps every message under its source.
pub proof fn law_buffers_stay_keyed(state: PlatformState, event: Event)
    requires
        keyed_by_source(state.buffers),
    ensures
        keyed_by_source(next(state, event).0.buffers),
{
    lemma_messages_keep_keys(state.policy, state.buffers);
    if state.phase == Phase::AwaitingUpdate {
        if let Event::Received { update, parsed } = event {
            if let Some(msg) = accepted(update, parsed) {
                lemma_enqueue_keeps_keys(state.policy, state.buffers, msg);
            }
        }
    }
}

/// Rounds do not overlap: a snapshot is handed out only to a device that is
/// idle or has slept, and never while a round is being evaluated, published
/// or followed by a receive.
pub proof fn law_rounds_do_not_overlap(state: PlatformState, event: Event)
    ensures
        next(state, event).1 is Evaluate ==> (state.phase == Phase::Idle || state.phase
            == Phase::Sleeping) && next(state, event).0.phase == Phase::Evaluating,
{
}

/// The mailbox is read only at the start of a round and written only by a
/// well-formed update: every other step leaves the buffers as they are.
pub proof fn law_buffers_change_only_at_round_start_and_receive(
    state: PlatformState,
    event: Event,
)
    ensures
        next(state, event).0.buffers == state.buffers || next(state, event).1 is Evaluate || (
        state.phase == Phase::AwaitingUpdate && event is Received),
        next(state, event).0.self_id == state.self_id,
        next(state, event).0.neighbors == state.neighbors,
        next(state, event).0.interval == state.interval,
        next(state, event).0.policy == state.policy,
{
}

/// A request to end the loop is honoured only where the loop is suspended,
/// never while a round is evaluated: the platform stops as cancelled exactly
/// if the request comes while it waits for an update or sleeps.
pub proof fn law_cancelled_only_while_suspended(state: PlatformState, event: Event)
    ensures
        next(state, event).1 == (ActionView::Stop { error: PlatformError::Cancelled }) <==> (
        event is Cancelled && (state.phase == Phase::AwaitingUpdate || state.phase
            == Phase::Sleeping)),
        next(state, event).1 is Stop ==> next(state, event).0 == state.in_phase(Phase::Stopped),
{
}

/// A platform that has stopped stays stopped.
pub proof fn law_stopped_is_final(state: PlatformState, event: Event)
    requires
        state.phase == Phase::Stopped,
    ensures
        next(state, event) == stop(state, PlatformError::Protocol),
        next(state, event).0 == state,
{
}

/// The platform of one device: its mailbox, its identity and its place in the
/// cycle.
pub struct Platform<M: Mailbox> {
    mailbox: M,
    self_id: i32,
    nbrs: Vec<i32>,
    interval: u64,
    phase: Phase,
}

impl<M: Mailbox> View for Platform<M> {
    type V = PlatformState;

    closed spec fn view(&self) -> PlatformState {
        PlatformState {
            phase: self.phase,
            self_id: self.self_id,
            neighbors: self.nbrs@,
            interval: self.interval,
            policy: self.mailbox.policy(),
            buffers: self.mailbox.buffered(),
        }
    }
}

impl<M: Mailbox> Platform<M> {
    /// The platform of device `self_id` around `mailbox`, idle, with the
    /// neighbours `nbrs` (none if absent) and the default interval.
    pub fn new(mailbox: M, self_id: i32, nbrs: Option<Vec<i32>>) -> (platform: Self)
        ensures
            platform@ == (PlatformState {
                phase: Phase::Idle,
                self_id,
                neighbors: match nbrs {
                    Some(nbrs) => nbrs@,
                    None => Seq::empty(),
                },
                interval: ROUND_INTERVAL_SECS,
                policy: mailbox.policy(),
                buffers: mailbox.buffered(),
            }),
    {
        if let Some(nbrs) = nbrs {
            Self { mailbox, self_id, nbrs, interval: ROUND_INTERVAL_SECS, phase: Phase::Idle }
        } else {
            Self {
                mailbox,
                self_id,
                nbrs: Vec::new(),
                interval: ROUND_INTERVAL_SECS,
                phase: Phase::Idle,
            }
        }
    }

    /// The same platform with `seconds` between two rounds.
    pub fn with_interval(self, seconds: u64) -> (platform: Self)
        ensures
            platform@ == (PlatformState { interval: seconds, ..self@ }),
    {
        let mut platform = self;
        platform.interval = seconds;
        platform
    }

    /// Where in its cycle the device is.
    pub fn phase(&self) -> (phase: Phase)
        ensures
            phase == self@.phase,
    {
        self.phase
    }

    /// The device's own identifier.
    pub fn self_id(&self) -> (id: i32)
        ensures
            id == self@.self_id,
    {
        self.self_id
    }

    /// The neighbours of the device.
    pub fn neighbors(&self) -> (nbrs: &Vec<i32>)
        ensures
            nbrs@ == self@.neighbors,
    {
        &self.nbrs
    }

    /// Adds `nbr` at the end of the neighbours.
    pub fn add_nbr(&mut self, nbr: i32)
        ensures
            final(self)@ == (PlatformState {
                neighbors: old(self)@.neighbors.push(nbr),
                ..old(self)@
            }),
    {
        self.nbrs.push(nbr);
    }

    /// Removes every occurrence of `nbr` from the neighbours; the others
    /// keep their order.
    pub fn remove_nbr(&mut self, nbr: i32)
        ensures
            final(self)@ == (PlatformState {
                neighbors: old(self)@.neighbors.filter(|n: i32| n != nbr),
                ..old(self)@
            }),
    {
        let ghost keep = |n: i32| n != nbr;
        let mut kept: Vec<i32> = Vec::new();
        let mut i: usize = 0;
        proof {
            reveal(Seq::filter);
            assert(self.nbrs@.take(0) =~= Seq::<i32>::empty());
        }
        while i < self.nbrs.len()
            invariant
                i <= self.nbrs.len(),
                self.nbrs@ == old(self).nbrs@,
                self.mailbox == old(self).mailbox,
                self.self_id == old(self).self_id,
                self.interval == old(self).interval,
                self.phase == old(self).phase,
                keep == (|n: i32| n != nbr),
                kept@ == self.nbrs@.take(i as int).filter(keep),
            decreases self.nbrs.len() - i,
        {
            let n = self.nbrs[i];
            proof {
                reveal(Seq::filter);
                assert(self.nbrs@.take(i as int + 1).drop_last() =~= self.nbrs@.take(i as int));
                assert(self.nbrs@.take(i as int + 1).last() == n);
            }
            if n != nbr {
                kept.push(n);
            }
            i = i + 1;
        }
        assert(self.nbrs@.take(i as int) =~= self.nbrs@);
        self.nbrs = kept;
    }

    /// Takes `event` in and says what to do next.
    pub fn step(&mut self, event: Event) -> (action: Action)
        ensures
            (final(self)@, action@) == next(old(self)@, event),
    {
        match (self.phase, event) {
            (Phase::Idle, Event::Started) => self.begin_round(),
            (Phase::Sleeping, Event::Woke) => self.begin_round(),
            (Phase::Evaluating, Event::Evaluated { export, now }) => {
                self.phase = Phase::Publishing;
                Action::Broadcast { message: Message::new(self.self_id, export, now) }
            },
            (Phase::Evaluating, Event::EvaluationFailed) => self.halt(PlatformError::Evaluator),
            (Phase::Publishing, Event::Published) => {
                self.phase = Phase::AwaitingUpdate;
                Action::Receive
            },
            (Phase::Publishing, Event::PublishFailed { closed }) => self.transport_failed(closed),
            (Phase::AwaitingUpdate, Event::Received { update, parsed }) => {
                match update {
                    NetworkUpdate::Update { msg } => {
                        match message_of(msg.as_str(), parsed) {
                            Some(message) => {
                                self.mailbox.enqueue(message);
                            },
                            None => {},
                        }
                    },
                    NetworkUpdate::NoUpdate => {},
                }
                self.sleep()
            },
            (Phase::AwaitingUpdate, Event::ReceiveFailed { closed }) => self.transport_failed(
                closed,
            ),
            (Phase::AwaitingUpdate, Event::Cancelled) => self.halt(PlatformError::Cancelled),
            (Phase::Sleeping, Event::Cancelled) => self.halt(PlatformError::Cancelled),
            _ => self.halt(PlatformError::Protocol),
        }
    }

    fn begin_round(&mut self) -> (action: Action)
        ensures
            (final(self)@, action@) == collect(old(self)@),
    {
        let states = self.mailbox.messages().as_states();
        self.phase = Phase::Evaluating;
        Action::Evaluate { states }
    }

    fn sleep(&mut self) -> (action: Action)
        ensures
            (final(self)@, action@) == rest(old(self)@),
    {
        self.phase = Phase::Sleeping;
        Action::Sleep { seconds: self.interval }
    }

    fn halt(&mut self, error: PlatformError) -> (action: Action)
        ensures
            (final(self)@, action@) == stop(old(self)@, error),
    {
        self.phase = Phase::Stopped;
        Action::Stop { error }
    }

    fn transport_failed(&mut self, closed: bool) -> (action: Action)
        ensures
            (final(self)@, action@) == after_transport_failure(old(self)@, closed),
    {
        if closed {
            self.halt(PlatformError::Transport)
        } else {
            self.sleep()
        }
    }
}

} // verus!
