//! A queue of incoming messages together with the rule by which rounds
//! consume it.

use crate::message::message_queue::MessageQueueIterator;
use crate::message::Message;
use crate::state::{states_of, FromMessageQueue, States};
use rf_core::export::Export;
use std::collections::HashMap;
use vstd::prelude::*;

verus! {

broadcast use vstd::std_specs::hash::group_hash_axioms;

/// How many of the queued messages a round is given.
#[derive(Clone, Copy, Debug, PartialEq, Eq, Structural)]
pub enum MessageProcessingPolicy {
    /// A round is given the oldest queued message, which leaves the queue.
    OneAtATime,
    /// A round is given all queued messages, which stay queued.
    AllAtOnce,
}

/// The states that one message carries.
pub open spec fn state_of(msg: Message) -> Map<i32, Export> {
    Map::<i32, Export>::empty().insert(msg.source, msg.export)
}

/// Keeps the incoming messages and turns them into the states of the next
/// round.
pub struct StatesManager<T: MessageQueueIterator> {
    msg_queue: T,
    policy: MessageProcessingPolicy,
}

impl<T> StatesManager<T> where T: MessageQueueIterator + Clone {
    /// The queue that holds the incoming messages.
    pub closed spec fn queue(&self) -> T {
        self.msg_queue
    }

    /// The rule by which rounds consume the queue.
    pub closed spec fn policy(&self) -> MessageProcessingPolicy {
        self.policy
    }

    /// A manager of `msg_queue` that hands out one message at a time.
    pub fn new(msg_queue: T) -> (manager: Self)
        ensures
            manager.queue() == msg_queue,
            manager.policy() == MessageProcessingPolicy::OneAtATime,
    {
        Self { msg_queue, policy: MessageProcessingPolicy::OneAtATime }
    }

    /// The same manager under another policy.
    pub fn with_policy(self, policy: MessageProcessingPolicy) -> (manager: Self)
        ensures
            manager.queue() == self.queue(),
            manager.policy() == policy,
    {
        let mut manager = self;
        manager.policy = policy;
        manager
    }

    /// Queues `msg` behind the messages that came before it.
    pub fn enqueue(&mut self, msg: Message)
        ensures
            final(self).queue().queued() == old(self).queue().queued().push(msg),
            final(self).policy() == old(self).policy(),
    {
        self.msg_queue.push(msg);
    }

    /// The states for the next round.
    ///
    /// One at a time: the oldest message leaves the queue and its export is
    /// the only state; with an empty queue there is none. All at once: the
    /// states are those that a copy of the queue leaves behind, and the queue
    /// itself keeps its messages.
    pub fn next_set_of_states(&mut self) -> (states: States)
        ensures
            final(self).policy() == old(self).policy(),
            match old(self).policy() {
                MessageProcessingPolicy::OneAtATime => {
                    let waiting = old(self).queue().queued();
                    if waiting.len() == 0 {
                        &&& states@ == Map::<i32, Export>::empty()
                        &&& final(self).queue().queued() == waiting
                    } else {
                        &&& states@ == state_of(waiting.first())
                        &&& final(self).queue().queued() == waiting.drop_first()
                    }
                },
                MessageProcessingPolicy::AllAtOnce => {
                    &&& final(self).queue() == old(self).queue()
                    &&& exists|copy: T| #[trigger]
                        cloned::<T>(old(self).queue(), copy) && states@ == states_of(
                            copy.queued(),
                        )
                },
            },
    {
        match self.policy {
            MessageProcessingPolicy::OneAtATime => {
                let mut states: States = HashMap::new();
                match self.msg_queue.pop() {
                    Some(msg) => {
                        states.insert(msg.source, msg.export);
                        assert(states@ =~= state_of(msg));
                    },
                    None => {
                        assert(states@ =~= Map::<i32, Export>::empty());
                    },
                }
                states
            },
            MessageProcessingPolicy::AllAtOnce => {
                let copy = self.msg_queue.clone();
                let states = States::from_messages(copy);
                assert(cloned::<T>(old(self).queue(), copy) && states@ == states_of(copy.queued()));
                states
            },
        }
    }
}

} // verus!
