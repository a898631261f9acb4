//! The neighbour states that a round of the aggregate program is given.

use crate::message::message_queue::MessageQueueIterator;
use crate::message::Message;
use rf_core::export::Export;
use std::collections::HashMap;
use vstd::prelude::*;

pub mod states_manager;

verus! {

broadcast use vstd::std_specs::hash::group_hash_axioms;

/// The export of each neighbour, as a round receives them.
pub type States = HashMap<i32, Export>;

/// The states that a sequence of messages leaves behind: for every source the
/// export of its last message.
pub open spec fn states_of(msgs: Seq<Message>) -> Map<i32, Export>
    decreases msgs.len(),
{
    if msgs.len() == 0 {
        Map::empty()
    } else {
        states_of(msgs.drop_last()).insert(msgs.last().source, msgs.last().export)
    }
}

/// Whether `source` has sent one of the messages.
pub open spec fn has_sent(msgs: Seq<Message>, source: i32) -> bool {
    exists|i: int| 0 <= i < msgs.len() && (#[trigger] msgs[i]).source == source
}

/// A source has a state exactly if it has sent one of the messages.
pub proof fn lemma_states_of_senders(msgs: Seq<Message>, source: i32)
    ensures
        states_of(msgs).contains_key(source) <==> has_sent(msgs, source),
    decreases msgs.len(),
{
    if msgs.len() > 0 {
        let earlier = msgs.drop_last();
        let end = msgs.len() - 1;
        lemma_states_of_senders(earlier, source);
        if msgs[end].source == source {
            assert(has_sent(msgs, source));
        } else if has_sent(earlier, source) {
            let i = choose|i: int|
                0 <= i < earlier.len() && (#[trigger] earlier[i]).source == source;
            assert(msgs[i].source == source);
        } else if has_sent(msgs, source) {
            let i = choose|i: int| 0 <= i < msgs.len() && (#[trigger] msgs[i]).source == source;
            assert(earlier[i].source == source);
        }
    }
}

/// The state of a source is the export of the last message that it has sent.
pub proof fn lemma_states_of_last_message(msgs: Seq<Message>, at: int)
    requires
        0 <= at < msgs.len(),
        forall|j: int| at < j < msgs.len() ==> (#[trigger] msgs[j]).source != msgs[at].source,
    ensures
        states_of(msgs).contains_key(msgs[at].source),
        states_of(msgs)[msgs[at].source] == msgs[at].export,
    decreases msgs.len(),
{
    let end = msgs.len() - 1;
    if at < end {
        let earlier = msgs.drop_last();
        assert(msgs[end].source != msgs[at].source);
        assert(earlier[at] == msgs[at]);
        assert forall|j: int| at < j < earlier.len() implies (#[trigger] earlier[j]).source
            != earlier[at].source by {
            assert(earlier[j] == msgs[j]);
        }
        lemma_states_of_last_message(earlier, at);
    }
}

/// Building a value out of all the messages of a queue.
pub trait FromMessageQueue<T: MessageQueueIterator>: Sized {
    /// The states that the value holds.
    spec fn held(&self) -> Map<i32, Export>;

    /// Walks `queue` to its end and keeps, for every source, the export of
    /// its last message.
    fn from_messages(queue: T) -> (states: Self)
        ensures
            states.held() == states_of(queue.queued()),
    ;
}

impl<T: MessageQueueIterator> FromMessageQueue<T> for States {
    open spec fn held(&self) -> Map<i32, Export> {
        self@
    }

    fn from_messages(queue: T) -> (states: Self) {
        let mut queue = queue;
        let mut states: States = HashMap::new();
        let ghost all = queue.queued();
        let ghost mut done: int = 0;
        proof {
            assert(all.skip(0) =~= all);
            assert(all.take(0) =~= Seq::<Message>::empty());
        }
        loop
            invariant_except_break
                0 <= done <= all.len(),
                queue.queued() == all.skip(done),
                states@ == states_of(all.take(done)),
            ensures
                states@ == states_of(all),
            decreases all.len() - done,
        {
            match queue.next() {
                Some(msg) => {
                    proof {
                        assert(all.skip(done).drop_first() =~= all.skip(done + 1));
                        assert(all.take(done + 1).drop_last() =~= all.take(done));
                        assert(all.take(done + 1).last() == msg);
                        done = done + 1;
                    }
                    states.insert(msg.source, msg.export);
                },
                None => {
                    proof {
                        assert(all.take(done) =~= all);
                    }
                    break ;
                },
            }
        }
        states
    }
}

} // verus!
