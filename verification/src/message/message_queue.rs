//! First-in, first-out queues of messages.

use crate::message::Message;
use vstd::prelude::*;

pub mod deque;

verus! {

/// Taking from a queue: of `before` the oldest message is `taken` and the
/// others are `after`; of an empty queue nothing is taken and nothing changes.
pub open spec fn took_oldest(
    before: Seq<Message>,
    taken: Option<Message>,
    after: Seq<Message>,
) -> bool {
    if before.len() == 0 {
        taken.is_none() && after == before
    } else {
        taken == Some(before.first()) && after == before.drop_first()
    }
}

/// A queue of messages that hands them back in the order of arrival.
pub trait MessageQueue: Sized {
    /// The queued messages, oldest first.
    spec fn queued(&self) -> Seq<Message>;

    /// Appends `msg` at the back of the queue.
    fn push(&mut self, msg: Message)
        ensures
            final(self).queued() == old(self).queued().push(msg),
    ;

    /// Removes and returns the oldest message, if there is one.
    fn pop(&mut self) -> (popped: Option<Message>)
        ensures
            took_oldest(old(self).queued(), popped, final(self).queued()),
    ;

    /// Whether no message is queued.
    fn empty(&self) -> (is_empty: bool)
        ensures
            is_empty == (self.queued().len() == 0),
    ;
}

/// A message queue that can be walked: each step takes the oldest message out.
pub trait MessageQueueIterator: MessageQueue {
    /// The next message of the walk, which is the one that `pop` would return.
    fn next(&mut self) -> (item: Option<Message>)
        ensures
            took_oldest(old(self).queued(), item, final(self).queued()),
    ;
}

} // verus!
