//! A message queue kept in a double-ended buffer.

use crate::message::message_queue::{MessageQueue, MessageQueueIterator};
use crate::message::Message;
use std::collections::VecDeque;
use vstd::prelude::*;

verus! {

/// A first-in, first-out queue of messages.
#[derive(Debug)]
pub struct MessageDeque {
    deque: VecDeque<Message>,
}

impl View for MessageDeque {
    type V = Seq<Message>;

    closed spec fn view(&self) -> Seq<Message> {
        self.deque@
    }
}

impl MessageDeque {
    /// An empty queue.
    pub fn new() -> (queue: Self)
        ensures
            queue@ == Seq::<Message>::empty(),
    {
        Self { deque: VecDeque::new() }
    }
}

impl Clone for MessageDeque {
    fn clone(&self) -> (copy: Self)
        ensures
            copy@ == self@,
    {
        let deque = self.deque.clone();
        assert(deque@ =~= self.deque@);
        Self { deque }
    }
}

impl MessageQueue for MessageDeque {
    open spec fn queued(&self) -> Seq<Message> {
        self@
    }

    fn push(&mut self, msg: Message) {
        self.deque.push_back(msg);
    }

    fn pop(&mut self) -> (popped: Option<Message>) {
        self.deque.pop_front()
    }

    fn empty(&self) -> (is_empty: bool) {
        self.deque.len() == 0
    }
}

impl MessageQueueIterator for MessageDeque {
    fn next(&mut self) -> (item: Option<Message>) {
        self.pop()
    }
}

} // verus!
