//! The mailbox policies and the mailboxes that implement them.

use crate::mailbox::{
    after_enqueue, after_messages, buffer_of, chosen, current_messages, insert_in_order,
    insertion_point, keyed_by_source, lemma_chosen_is_extreme, lemma_insert_in_order_keeps_order,
    lemma_insertion_point_bounds, lemma_messages_keep_keys, neighbors_of, remainder,
    time_ordered, Mailbox, Messages,
};
use crate::message::Message;
use std::collections::HashMap;
use std::collections::VecDeque;
use vstd::prelude::*;

verus! {

broadcast use vstd::std_specs::hash::group_hash_axioms;

/// How a mailbox resolves the messages that a neighbour has sent since the
/// last round.
#[derive(Clone, Copy, Debug, PartialEq, Eq, Structural)]
pub enum ProcessingPolicy {
    /// Only the last message received from a neighbour is kept, and it stays
    /// until the next one replaces it.
    MemoryLess,
    /// Every message is kept until a round takes the most recent one of a
    /// neighbour; the older ones of that neighbour are discarded with it.
    MostRecent,
    /// Every message is kept; a round takes the least recent one of each
    /// neighbour, so that no message is skipped.
    LeastRecent,
}

/// A mailbox that keeps one message per neighbour.
pub struct MemoryLessMailbox {
    messages: HashMap<i32, Message>,
}

impl MemoryLessMailbox {
    /// Every message is kept under its source.
    #[verifier::type_invariant]
    spec fn keyed(self) -> bool {
        forall|neighbor: i32| #[trigger]
            self.messages@.contains_key(neighbor) ==> self.messages@[neighbor].source == neighbor
    }
}

impl Mailbox for MemoryLessMailbox {
    open spec fn policy(&self) -> ProcessingPolicy {
        ProcessingPolicy::MemoryLess
    }

    closed spec fn buffered(&self) -> Map<i32, Seq<Message>> {
        self.messages@.map_values(|msg: Message| seq![msg])
    }

    fn enqueue(&mut self, msg: Message) {
        proof {
            use_type_invariant(&*self);
        }
        let mut kept: HashMap<i32, Message> = HashMap::new();
        std::mem::swap(&mut kept, &mut self.messages);
        kept.insert(msg.source, msg);
        self.messages = kept;
        assert(self.buffered() =~= after_enqueue(
            ProcessingPolicy::MemoryLess,
            old(self).buffered(),
            msg,
        ));
    }

    fn messages(&mut self) -> (current: Messages) {
        proof {
            use_type_invariant(&*self);
        }
        let current = self.messages.clone();
        assert(current@ =~= current_messages(ProcessingPolicy::MemoryLess, self.buffered()));
        assert(self.buffered() =~= after_messages(ProcessingPolicy::MemoryLess, self.buffered()));
        current
    }
}

/// Puts `msg` into `queue` behind the last message that is not younger.
fn insert_by_time(queue: &mut VecDeque<Message>, msg: Message)
    ensures
        final(queue)@ == insert_in_order(old(queue)@, msg),
{
    let mut at: usize = queue.len();
    assert(queue@.take(at as int) =~= queue@);
    while at > 0 && queue[at - 1].timestamp > msg.timestamp
        invariant
            at <= queue.len(),
            queue@ == old(queue)@,
            insertion_point(queue@, msg.timestamp) == insertion_point(
                queue@.take(at as int),
                msg.timestamp,
            ),
        decreases at,
    {
        assert(queue@.take(at as int).drop_last() =~= queue@.take(at as int - 1));
        at = at - 1;
    }
    queue.insert(at, msg);
}

/// A mailbox that keeps every message of a neighbour in time order. Under
/// the least recent policy it hands them out one by one from the old end;
/// under the most recent policy it hands out the youngest and drops the
/// rest.
pub struct TimeOrderedMailbox {
    messages: HashMap<i32, VecDeque<Message>>,
    pop_first: bool,
}

/// Whether every message of `queue` is in time order and comes from
/// `neighbor`.
spec fn well_kept(neighbor: i32, queue: Seq<Message>) -> bool {
    &&& time_ordered(queue)
    &&& forall|i: int| 0 <= i < queue.len() ==> (#[trigger] queue[i]).source == neighbor
}

impl TimeOrderedMailbox {
    /// Every buffer is in time order and holds the messages of its neighbour
    /// only.
    #[verifier::type_invariant]
    spec fn in_order(self) -> bool {
        forall|neighbor: i32| #[trigger]
            self.messages@.contains_key(neighbor) ==> well_kept(
                neighbor,
                self.messages@[neighbor]@,
            )
    }

    /// Whether rounds are given the least recent message, and not the most
    /// recent one.
    pub closed spec fn pops_first(&self) -> bool {
        self.pop_first
    }
}

impl Mailbox for TimeOrderedMailbox {
    open spec fn policy(&self) -> ProcessingPolicy {
        if self.pops_first() {
            ProcessingPolicy::LeastRecent
        } else {
            ProcessingPolicy::MostRecent
        }
    }

    closed spec fn buffered(&self) -> Map<i32, Seq<Message>> {
        self.messages@.map_values(|queue: VecDeque<Message>| queue@)
    }

    fn enqueue(&mut self, msg: Message) {
        proof {
            use_type_invariant(&*self);
        }
        let source = msg.source;
        let mut buffers: HashMap<i32, VecDeque<Message>> = HashMap::new();
        std::mem::swap(&mut buffers, &mut self.messages);
        let mut queue = match buffers.remove(&source) {
            Some(queue) => queue,
            None => VecDeque::new(),
        };
        assert(queue@ == buffer_of(old(self).buffered(), source));
        let ghost before = queue@;
        proof {
            lemma_insert_in_order_keeps_order(before, msg);
            lemma_insertion_point_bounds(before, msg.timestamp);
        }
        insert_by_time(&mut queue, msg);
        proof {
            let at = insertion_point(before, msg.timestamp);
            assert forall|i: int| 0 <= i < queue@.len() implies (#[trigger] queue@[i]).source
                == source by {
                if i < at {
                    assert(queue@[i] == before[i]);
                } else if i > at {
                    assert(queue@[i] == before[i - 1]);
                }
            }
        }
        buffers.insert(source, queue);
        self.messages = buffers;
        assert(self.buffered() =~= after_enqueue(old(self).policy(), old(self).buffered(), msg));
    }

    fn messages(&mut self) -> (current: Messages) {
        proof {
            use_type_invariant(&*self);
        }
        let ghost policy = self.policy();
        let ghost before = self.buffered();
        let pop_first = self.pop_first;
        proof {
            assert forall|neighbor: i32, i: int|
                before.contains_key(neighbor) && 0 <= i < before[neighbor].len()
                    implies crate::mailbox::in_choice_order(
                policy,
                chosen(policy, before[neighbor]),
                #[trigger] before[neighbor][i],
            ) by {
                assert(self.messages@.contains_key(neighbor));
                lemma_chosen_is_extreme(policy, before[neighbor]);
            }
            assert(keyed_by_source(before)) by {
                assert forall|neighbor: i32, i: int|
                    before.contains_key(neighbor) && 0 <= i < before[neighbor].len() implies (
                #[trigger] before[neighbor][i]).source == neighbor by {
                    assert(self.messages@.contains_key(neighbor));
                }
            }
            lemma_messages_keep_keys(policy, before);
        }
        let mut buffers: HashMap<i32, VecDeque<Message>> = HashMap::new();
        std::mem::swap(&mut buffers, &mut self.messages);
        let neighbors = neighbors_of(&buffers);
        let mut current: Messages = HashMap::new();
        let mut i: usize = 0;
        while i < neighbors.len()
            invariant
                i <= neighbors.len(),
                neighbors@.no_duplicates(),
                neighbors@.to_set() == before.dom(),
                policy == if pop_first {
                    ProcessingPolicy::LeastRecent
                } else {
                    ProcessingPolicy::MostRecent
                },
                buffers@.dom() == before.dom(),
                forall|neighbor: i32| #[trigger]
                    buffers@.contains_key(neighbor) ==> well_kept(neighbor, buffers@[neighbor]@),
                forall|j: int|
                    0 <= j < i ==> buffers@[#[trigger] neighbors[j]]@ == remainder(
                        policy,
                        before[neighbors[j]],
                    ),
                forall|j: int|
                    i <= j < neighbors.len() ==> buffers@[#[trigger] neighbors[j]]@
                        == before[neighbors[j]],
                forall|neighbor: i32| #[trigger]
                    current@.contains_key(neighbor) <==> before[neighbor].len() > 0 && exists|
                        j: int,
                    |
                        0 <= j < i && neighbors[j] == neighbor,
                forall|neighbor: i32| #[trigger]
                    current@.contains_key(neighbor) ==> current@[neighbor] == chosen(
                        policy,
                        before[neighbor],
                    ),
            decreases neighbors.len() - i,
        {
            let neighbor = neighbors[i];
            assert(neighbors@.to_set().contains(neighbor));
            match buffers.remove(&neighbor) {
                Some(mut queue) => {
                    assert(queue@ == before[neighbor]);
                    let popped = if pop_first {
                        queue.pop_front()
                    } else {
                        let youngest = queue.pop_back();
                        queue.clear();
                        youngest
                    };
                    assert(queue@ =~= remainder(policy, before[neighbor]));
                    assert(well_kept(neighbor, queue@)) by {
                        let waiting = before[neighbor];
                        let rest = queue@;
                        assert forall|a: int, b: int| 0 <= a <= b < rest.len() implies rest[a].timestamp
                            <= rest[b].timestamp by {
                            assert(waiting[a + 1].timestamp <= waiting[b + 1].timestamp);
                        }
                        assert forall|a: int| 0 <= a < rest.len() implies (#[trigger] rest[a]).source
                            == neighbor by {
                            assert(rest[a] == waiting[a + 1]);
                        }
                    }
                    match popped {
                        Some(msg) => {
                            current.insert(neighbor, msg);
                        },
                        None => {},
                    }
                    buffers.insert(neighbor, queue);
                    assert(buffers@.dom() =~= before.dom());
                },
                None => {
                    assert(false);
                },
            }
            i = i + 1;
        }
        self.messages = buffers;
        assert forall|neighbor: i32| #[trigger]
            before.contains_key(neighbor) implies exists|j: int|
            0 <= j < i && neighbors[j] == neighbor by {
            assert(neighbors@.to_set().contains(neighbor));
            let j = choose|j: int| 0 <= j < neighbors@.len() && neighbors@[j] == neighbor;
            assert(neighbors[j] == neighbor);
        }
        assert(current@ =~= current_messages(policy, before));
        assert(self.buffered() =~= after_messages(policy, before));
        current
    }
}

/// A mailbox of any of the three policies.
pub enum PolicyMailbox {
    /// One message per neighbour.
    MemoryLess(MemoryLessMailbox),
    /// Every message, in time order.
    TimeOrdered(TimeOrderedMailbox),
}

impl Mailbox for PolicyMailbox {
    open spec fn policy(&self) -> ProcessingPolicy {
        match self {
            PolicyMailbox::MemoryLess(mailbox) => mailbox.policy(),
            PolicyMailbox::TimeOrdered(mailbox) => mailbox.policy(),
        }
    }

    open spec fn buffered(&self) -> Map<i32, Seq<Message>> {
        match self {
            PolicyMailbox::MemoryLess(mailbox) => mailbox.buffered(),
            PolicyMailbox::TimeOrdered(mailbox) => mailbox.buffered(),
        }
    }

    fn enqueue(&mut self, msg: Message) {
        match self {
            PolicyMailbox::MemoryLess(mailbox) => mailbox.enqueue(msg),
            PolicyMailbox::TimeOrdered(mailbox) => mailbox.enqueue(msg),
        }
    }

    fn messages(&mut self) -> (current: Messages) {
        match self {
            PolicyMailbox::MemoryLess(mailbox) => mailbox.messages(),
            PolicyMailbox::TimeOrdered(mailbox) => mailbox.messages(),
        }
    }
}

/// Builds mailboxes.
pub struct MailboxFactory;

impl MailboxFactory {
    /// A mailbox of the given policy in which no neighbour has sent.
    pub fn from_policy(policy: ProcessingPolicy) -> (mailbox: PolicyMailbox)
        ensures
            mailbox.policy() == policy,
            mailbox.buffered() == Map::<i32, Seq<Message>>::empty(),
            keyed_by_source(mailbox.buffered()),
    {
        match policy {
            ProcessingPolicy::MemoryLess => {
                let mailbox = MemoryLessMailbox { messages: HashMap::new() };
                assert(mailbox.buffered() =~= Map::<i32, Seq<Message>>::empty());
                PolicyMailbox::MemoryLess(mailbox)
            },
            ProcessingPolicy::MostRecent => {
                let mailbox = TimeOrderedMailbox { messages: HashMap::new(), pop_first: false };
                assert(mailbox.buffered() =~= Map::<i32, Seq<Message>>::empty());
                PolicyMailbox::TimeOrdered(mailbox)
            },
            ProcessingPolicy::LeastRecent => {
                let mailbox = TimeOrderedMailbox { messages: HashMap::new(), pop_first: true };
                assert(mailbox.buffered() =~= Map::<i32, Seq<Message>>::empty());
                PolicyMailbox::TimeOrdered(mailbox)
            },
        }
    }
}

} // verus!
