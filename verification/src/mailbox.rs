//! The mailbox: neighbour messages buffered between rounds, and the policy
//! that decides which of them a round sees.

use crate::mailbox::factory::ProcessingPolicy;
use crate::message::Message;
use crate::state::States;
use rf_core::export::Export;
use std::collections::HashMap;
use vstd::prelude::*;
use vstd::std_specs::iter::IteratorSpec;

pub mod factory;

verus! {

broadcast use vstd::std_specs::hash::group_hash_axioms;

/// One message per neighbour, as a round receives them.
pub type Messages = HashMap<i32, Message>;

/// A buffer is in time order when no message stands before an older one.
pub open spec fn time_ordered(buffer: Seq<Message>) -> bool {
    forall|i: int, j: int|
        0 <= i <= j < buffer.len() ==> buffer[i].timestamp <= buffer[j].timestamp
}

/// Where a message of time `timestamp` enters a buffer: behind the last
/// message that is not younger than it. Messages of equal time therefore stay
/// in their order of arrival.
pub open spec fn insertion_point(buffer: Seq<Message>, timestamp: u64) -> int
    decreases buffer.len(),
{
    if buffer.len() == 0 {
        0
    } else if buffer.last().timestamp <= timestamp {
        buffer.len() as int
    } else {
        insertion_point(buffer.drop_last(), timestamp)
    }
}

/// The buffer after `msg` has entered it at its place in time.
pub open spec fn insert_in_order(buffer: Seq<Message>, msg: Message) -> Seq<Message> {
    buffer.insert(insertion_point(buffer, msg.timestamp), msg)
}

/// What a neighbour has buffered; nothing, if it has never sent.
pub open spec fn buffer_of(buffers: Map<i32, Seq<Message>>, neighbor: i32) -> Seq<Message> {
    if buffers.contains_key(neighbor) {
        buffers[neighbor]
    } else {
        Seq::empty()
    }
}

/// The buffers after `msg` has been enqueued under `policy`.
///
/// A memoryless mailbox replaces what the sender had buffered; the other two
/// keep everything, in time order.
pub open spec fn after_enqueue(
    policy: ProcessingPolicy,
    buffers: Map<i32, Seq<Message>>,
    msg: Message,
) -> Map<i32, Seq<Message>> {
    match policy {
        ProcessingPolicy::MemoryLess => buffers.insert(msg.source, seq![msg]),
        _ => buffers.insert(msg.source, insert_in_order(buffer_of(buffers, msg.source), msg)),
    }
}

/// The message of a non-empty buffer that `policy` hands to the next round.
pub open spec fn chosen(policy: ProcessingPolicy, buffer: Seq<Message>) -> Message {
    match policy {
        ProcessingPolicy::LeastRecent => buffer.first(),
        _ => buffer.last(),
    }
}

/// What is left of a buffer once its chosen message has been handed out.
///
/// A memoryless mailbox keeps its message. The most recent policy hands out
/// the youngest message and discards the older ones with it, so that nothing
/// is left. The least recent policy hands out the oldest message and keeps
/// the others.
pub open spec fn remainder(policy: ProcessingPolicy, buffer: Seq<Message>) -> Seq<Message> {
    if buffer.len() == 0 {
        buffer
    } else {
        match policy {
            ProcessingPolicy::MemoryLess => buffer,
            ProcessingPolicy::MostRecent => Seq::empty(),
            ProcessingPolicy::LeastRecent => buffer.drop_first(),
        }
    }
}

/// The messages that a round receives: the chosen one of every neighbour
/// that has buffered data, and nothing for the others.
pub open spec fn current_messages(
    policy: ProcessingPolicy,
    buffers: Map<i32, Seq<Message>>,
) -> Map<i32, Message> {
    Map::new(
        |neighbor: i32| buffers.contains_key(neighbor) && buffers[neighbor].len() > 0,
        |neighbor: i32| chosen(policy, buffers[neighbor]),
    )
}

/// The buffers after a round has taken its messages.
pub open spec fn after_messages(
    policy: ProcessingPolicy,
    buffers: Map<i32, Seq<Message>>,
) -> Map<i32, Seq<Message>> {
    buffers.map_values(|buffer: Seq<Message>| remainder(policy, buffer))
}

/// Whether `taken` is the message that `policy` prefers to `other`: the least
/// recent policy takes none that is younger than another, the other two none
/// that is older.
pub open spec fn in_choice_order(policy: ProcessingPolicy, taken: Message, other: Message) -> bool {
    match policy {
        ProcessingPolicy::LeastRecent => taken.timestamp <= other.timestamp,
        _ => other.timestamp <= taken.timestamp,
    }
}

/// Every buffer is in time order.
pub open spec fn all_time_ordered(buffers: Map<i32, Seq<Message>>) -> bool {
    forall|neighbor: i32| #[trigger]
        buffers.contains_key(neighbor) ==> time_ordered(buffers[neighbor])
}

/// Every buffered message stands under its own source.
pub open spec fn keyed_by_source(buffers: Map<i32, Seq<Message>>) -> bool {
    forall|neighbor: i32, i: int|
        buffers.contains_key(neighbor) && 0 <= i < buffers[neighbor].len() ==> (
        #[trigger] buffers[neighbor][i]).source == neighbor
}

/// Enqueuing keeps every message under its source.
pub proof fn lemma_enqueue_keeps_keys(
    policy: ProcessingPolicy,
    buffers: Map<i32, Seq<Message>>,
    msg: Message,
)
    requires
        keyed_by_source(buffers),
    ensures
        keyed_by_source(after_enqueue(policy, buffers, msg)),
{
    let after = after_enqueue(policy, buffers, msg);
    let before = buffer_of(buffers, msg.source);
    let at = insertion_point(before, msg.timestamp);
    assert forall|neighbor: i32, i: int|
        after.contains_key(neighbor) && 0 <= i < after[neighbor].len() implies (
    #[trigger] after[neighbor][i]).source == neighbor by {
        if neighbor == msg.source && policy != ProcessingPolicy::MemoryLess {
            lemma_insertion_point_bounds(before, msg.timestamp);
            if i < at {
                assert(after[neighbor][i] == before[i]);
            } else if i > at {
                assert(after[neighbor][i] == before[i - 1]);
            }
        } else if neighbor != msg.source {
            assert(after[neighbor][i] == buffers[neighbor][i]);
        }
    }
}

/// Handing out messages keeps every message under its source, and every
/// message handed out stands under its source.
pub proof fn lemma_messages_keep_keys(policy: ProcessingPolicy, buffers: Map<i32, Seq<Message>>)
    requires
        keyed_by_source(buffers),
    ensures
        keyed_by_source(after_messages(policy, buffers)),
        forall|neighbor: i32| #[trigger]
            current_messages(policy, buffers).contains_key(neighbor) ==> current_messages(
                policy,
                buffers,
            )[neighbor].source == neighbor,
{
    let after = after_messages(policy, buffers);
    assert forall|neighbor: i32, i: int|
        after.contains_key(neighbor) && 0 <= i < after[neighbor].len() implies (
    #[trigger] after[neighbor][i]).source == neighbor by {
        let buffer = buffers[neighbor];
        if policy == ProcessingPolicy::LeastRecent {
            assert(after[neighbor][i] == buffer[i + 1]);
        } else {
            assert(after[neighbor][i] == buffer[i]);
        }
    }
    assert forall|neighbor: i32| #[trigger]
        current_messages(policy, buffers).contains_key(neighbor) implies current_messages(
        policy,
        buffers,
    )[neighbor].source == neighbor by {
        let buffer = buffers[neighbor];
        assert(buffer[0].source == neighbor);
        assert(buffer[buffer.len() - 1].source == neighbor);
    }
}

/// The insertion point lies within the buffer or at its end.
pub proof fn lemma_insertion_point_bounds(buffer: Seq<Message>, timestamp: u64)
    ensures
        0 <= insertion_point(buffer, timestamp) <= buffer.len(),
    decreases buffer.len(),
{
    if buffer.len() > 0 && buffer.last().timestamp > timestamp {
        lemma_insertion_point_bounds(buffer.drop_last(), timestamp);
    }
}

/// The buffers after the messages `msgs` have been enqueued one after the
/// other.
pub open spec fn after_enqueue_all(
    policy: ProcessingPolicy,
    buffers: Map<i32, Seq<Message>>,
    msgs: Seq<Message>,
) -> Map<i32, Seq<Message>>
    decreases msgs.len(),
{
    if msgs.len() == 0 {
        buffers
    } else {
        after_enqueue(policy, after_enqueue_all(policy, buffers, msgs.drop_last()), msgs.last())
    }
}

/// Where `insertion_point` puts a message, a buffer in time order is split
/// into the messages that are not younger and those that are.
pub proof fn lemma_insertion_point_splits(buffer: Seq<Message>, timestamp: u64)
    requires
        time_ordered(buffer),
    ensures
        0 <= insertion_point(buffer, timestamp) <= buffer.len(),
        forall|i: int|
            0 <= i < insertion_point(buffer, timestamp) ==> buffer[i].timestamp <= timestamp,
        forall|i: int|
            insertion_point(buffer, timestamp) <= i < buffer.len() ==> buffer[i].timestamp
                > timestamp,
    decreases buffer.len(),
{
    if buffer.len() > 0 {
        let end = buffer.len() - 1;
        if buffer[end].timestamp <= timestamp {
            assert forall|i: int| 0 <= i < buffer.len() implies buffer[i].timestamp
                <= timestamp by {
                assert(buffer[i].timestamp <= buffer[end].timestamp);
            }
        } else {
            let rest = buffer.drop_last();
            assert forall|i: int, j: int| 0 <= i <= j < rest.len() implies rest[i].timestamp
                <= rest[j].timestamp by {
                assert(buffer[i].timestamp <= buffer[j].timestamp);
            }
            lemma_insertion_point_splits(rest, timestamp);
            let at = insertion_point(rest, timestamp);
            assert forall|i: int| 0 <= i < at implies buffer[i].timestamp <= timestamp by {
                assert(rest[i] == buffer[i]);
            }
            assert forall|i: int| at <= i < buffer.len() implies buffer[i].timestamp
                > timestamp by {
                if i < end {
                    assert(rest[i] == buffer[i]);
                }
            }
        }
    }
}

/// A buffer in time order is still in time order after a message has entered
/// it at its place.
pub proof fn lemma_insert_in_order_keeps_order(buffer: Seq<Message>, msg: Message)
    requires
        time_ordered(buffer),
    ensures
        time_ordered(insert_in_order(buffer, msg)),
{
    lemma_insertion_point_splits(buffer, msg.timestamp);
}

/// In a buffer in time order, the place that splits it into the messages
/// that are not younger than `timestamp` and those that are is the insertion
/// point.
pub proof fn lemma_insertion_point_is(buffer: Seq<Message>, timestamp: u64, at: int)
    requires
        time_ordered(buffer),
        0 <= at <= buffer.len(),
        forall|i: int| 0 <= i < at ==> (#[trigger] buffer[i]).timestamp <= timestamp,
        forall|i: int| at <= i < buffer.len() ==> (#[trigger] buffer[i]).timestamp > timestamp,
    ensures
        insertion_point(buffer, timestamp) == at,
{
    lemma_insertion_point_splits(buffer, timestamp);
    let found = insertion_point(buffer, timestamp);
    if found < at {
        assert(buffer[found].timestamp <= timestamp);
    } else if at < found {
        assert(buffer[at].timestamp > timestamp);
    }
}

/// Two messages of different times end up in the same places whichever of
/// them arrives first.
pub proof fn law_time_order_absorbs_arrival_order(buffer: Seq<Message>, a: Message, b: Message)
    requires
        time_ordered(buffer),
        a.timestamp != b.timestamp,
    ensures
        insert_in_order(insert_in_order(buffer, a), b) == insert_in_order(
            insert_in_order(buffer, b),
            a,
        ),
{
    if a.timestamp < b.timestamp {
        lemma_inserts_commute(buffer, a, b);
    } else {
        lemma_inserts_commute(buffer, b, a);
    }
}

/// The older of two messages may enter a buffer before or behind the
/// younger one.
proof fn lemma_inserts_commute(buffer: Seq<Message>, older: Message, younger: Message)
    requires
        time_ordered(buffer),
        older.timestamp < younger.timestamp,
    ensures
        insert_in_order(insert_in_order(buffer, older), younger) == insert_in_order(
            insert_in_order(buffer, younger),
            older,
        ),
{
    let low = insertion_point(buffer, older.timestamp);
    let high = insertion_point(buffer, younger.timestamp);
    lemma_insertion_point_splits(buffer, older.timestamp);
    lemma_insertion_point_splits(buffer, younger.timestamp);
    if high < low {
        assert(buffer[high].timestamp <= older.timestamp);
    }
    assert(low <= high);
    let with_older = buffer.insert(low, older);
    let with_younger = buffer.insert(high, younger);
    lemma_insert_in_order_keeps_order(buffer, older);
    lemma_insert_in_order_keeps_order(buffer, younger);
    assert forall|i: int| 0 <= i < high + 1 implies (#[trigger] with_older[i]).timestamp
        <= younger.timestamp by {
        if i < low {
            assert(with_older[i] == buffer[i]);
        } else if i > low {
            assert(with_older[i] == buffer[i - 1]);
        }
    }
    assert forall|i: int| high + 1 <= i < with_older.len() implies (#[trigger] with_older[
        i
    ]).timestamp > younger.timestamp by {
        assert(with_older[i] == buffer[i - 1]);
    }
    lemma_insertion_point_is(with_older, younger.timestamp, high + 1);
    assert forall|i: int| 0 <= i < low implies (#[trigger] with_younger[i]).timestamp
        <= older.timestamp by {
        assert(with_younger[i] == buffer[i]);
    }
    assert forall|i: int| low <= i < with_younger.len() implies (#[trigger] with_younger[
        i
    ]).timestamp > older.timestamp by {
        if i < high {
            assert(with_younger[i] == buffer[i]);
        } else if i > high {
            assert(with_younger[i] == buffer[i - 1]);
        }
    }
    lemma_insertion_point_is(with_younger, older.timestamp, low);
    assert(with_older.insert(high + 1, younger) =~= with_younger.insert(low, older));
}

/// Messages of equal time keep their order of arrival: the second of two
/// such messages enters the buffer right behind the first.
pub proof fn law_equal_times_keep_arrival_order(
    buffer: Seq<Message>,
    first: Message,
    second: Message,
)
    requires
        time_ordered(buffer),
        first.timestamp == second.timestamp,
    ensures
        ({
            let at = insertion_point(buffer, first.timestamp);
            let after = insert_in_order(insert_in_order(buffer, first), second);
            &&& 0 <= at <= buffer.len()
            &&& after[at] == first
            &&& after[at + 1] == second
        }),
{
    let at = insertion_point(buffer, first.timestamp);
    lemma_insertion_point_splits(buffer, first.timestamp);
    let with_first = buffer.insert(at, first);
    lemma_insert_in_order_keeps_order(buffer, first);
    assert forall|i: int| 0 <= i < at + 1 implies (#[trigger] with_first[i]).timestamp
        <= second.timestamp by {
        if i < at {
            assert(with_first[i] == buffer[i]);
        }
    }
    assert forall|i: int| at + 1 <= i < with_first.len() implies (#[trigger] with_first[
        i
    ]).timestamp > second.timestamp by {
        assert(with_first[i] == buffer[i - 1]);
    }
    lemma_insertion_point_is(with_first, second.timestamp, at + 1);
}

/// The buffers after so many rounds have taken their messages and nothing
/// has been enqueued between them.
pub open spec fn after_rounds(
    policy: ProcessingPolicy,
    buffers: Map<i32, Seq<Message>>,
    rounds: nat,
) -> Map<i32, Seq<Message>>
    decreases rounds,
{
    if rounds == 0 {
        buffers
    } else {
        after_messages(policy, after_rounds(policy, buffers, (rounds - 1) as nat))
    }
}

/// Least recent policy: what a neighbour has buffered is handed out one
/// message per round, from the oldest to the youngest, each message once;
/// when all are handed out, the rounds get nothing from that neighbour.
pub proof fn law_each_message_is_surfaced_once(
    buffers: Map<i32, Seq<Message>>,
    neighbor: i32,
    round: nat,
)
    ensures
        ({
            let policy = ProcessingPolicy::LeastRecent;
            let buffer = buffer_of(buffers, neighbor);
            let then = after_rounds(policy, buffers, round);
            let current = current_messages(policy, then);
            &&& then.dom() == buffers.dom()
            &&& round <= buffer.len() ==> buffer_of(then, neighbor) == buffer.skip(round as int)
            &&& round >= buffer.len() ==> buffer_of(then, neighbor).len() == 0
            &&& current.contains_key(neighbor) <==> round < buffer.len()
            &&& round < buffer.len() ==> current[neighbor] == buffer[round as int]
        }),
    decreases round,
{
    let policy = ProcessingPolicy::LeastRecent;
    let buffer = buffer_of(buffers, neighbor);
    let then = after_rounds(policy, buffers, round);
    if round == 0 {
        assert(buffer.skip(0) =~= buffer);
    } else {
        let before = after_rounds(policy, buffers, (round - 1) as nat);
        law_each_message_is_surfaced_once(buffers, neighbor, (round - 1) as nat);
        assert(then == after_messages(policy, before));
        assert(then.dom() =~= before.dom());
        let waiting = buffer_of(before, neighbor);
        if round <= buffer.len() {
            assert(waiting.drop_first() =~= buffer.skip(round as int));
        }
    }
}

/// Most recent policy: a round gets the youngest message that a neighbour
/// has buffered, and with it the buffer of that neighbour is emptied. The
/// rounds that follow get nothing from the neighbour until it sends again;
/// the first message that it then sends is what the next round gets.
pub proof fn law_most_recent_read_empties(
    buffers: Map<i32, Seq<Message>>,
    neighbor: i32,
    rounds: nat,
    msg: Message,
)
    requires
        rounds >= 1,
        msg.source == neighbor,
    ensures
        ({
            let policy = ProcessingPolicy::MostRecent;
            let buffer = buffer_of(buffers, neighbor);
            let first = current_messages(policy, buffers);
            let then = after_rounds(policy, buffers, rounds);
            let again = after_enqueue(policy, then, msg);
            &&& first.contains_key(neighbor) <==> buffer.len() > 0
            &&& buffer.len() > 0 ==> first[neighbor] == buffer.last()
            &&& then.dom() == buffers.dom()
            &&& buffer_of(then, neighbor).len() == 0
            &&& !current_messages(policy, then).contains_key(neighbor)
            &&& again[neighbor] == seq![msg]
            &&& current_messages(policy, again).contains_key(neighbor)
            &&& current_messages(policy, again)[neighbor] == msg
        }),
    decreases rounds,
{
    let policy = ProcessingPolicy::MostRecent;
    let then = after_rounds(policy, buffers, rounds);
    let before = after_rounds(policy, buffers, (rounds - 1) as nat);
    assert(then == after_messages(policy, before));
    assert(then.dom() =~= before.dom());
    if rounds > 1 {
        law_most_recent_read_empties(buffers, neighbor, (rounds - 1) as nat, msg);
    }
    assert(buffer_of(then, neighbor) =~= Seq::<Message>::empty());
    let again = after_enqueue(policy, then, msg);
    assert(again[neighbor] =~= seq![msg]);
}

/// A neighbour that has sent stays known: enqueuing adds the sender to the
/// neighbours that have a buffer, and handing out messages removes none.
pub proof fn law_senders_stay_known(
    policy: ProcessingPolicy,
    buffers: Map<i32, Seq<Message>>,
    msg: Message,
)
    ensures
        after_enqueue(policy, buffers, msg).dom() == buffers.dom().insert(msg.source),
        after_messages(policy, buffers).dom() == buffers.dom(),
        forall|neighbor: i32|
            neighbor != msg.source ==> buffer_of(after_enqueue(policy, buffers, msg), neighbor)
                == buffer_of(buffers, neighbor),
{
    assert(after_enqueue(policy, buffers, msg).dom() =~= buffers.dom().insert(msg.source));
    assert(after_messages(policy, buffers).dom() =~= buffers.dom());
}

/// Enqueuing keeps every buffer in time order.
pub proof fn lemma_enqueue_keeps_order(
    policy: ProcessingPolicy,
    buffers: Map<i32, Seq<Message>>,
    msg: Message,
)
    requires
        all_time_ordered(buffers),
    ensures
        all_time_ordered(after_enqueue(policy, buffers, msg)),
{
    lemma_insert_in_order_keeps_order(buffer_of(buffers, msg.source), msg);
}

/// Handing out messages keeps every buffer in time order.
pub proof fn lemma_messages_keep_order(policy: ProcessingPolicy, buffers: Map<i32, Seq<Message>>)
    requires
        all_time_ordered(buffers),
    ensures
        all_time_ordered(after_messages(policy, buffers)),
{
    let after = after_messages(policy, buffers);
    assert forall|neighbor: i32| #[trigger] after.contains_key(neighbor) implies time_ordered(
        after[neighbor],
    ) by {
        let buffer = buffers[neighbor];
        assert(time_ordered(buffer));
        let rest = remainder(policy, buffer);
        assert forall|i: int, j: int| 0 <= i <= j < rest.len() implies rest[i].timestamp
            <= rest[j].timestamp by {
            if policy == ProcessingPolicy::LeastRecent {
                assert(buffer[i + 1].timestamp <= buffer[j + 1].timestamp);
            }
        }
    }
}

/// In a buffer in time order the chosen message is the oldest under the least
/// recent policy and the youngest under the other two.
pub proof fn lemma_chosen_is_extreme(policy: ProcessingPolicy, buffer: Seq<Message>)
    requires
        time_ordered(buffer),
        buffer.len() > 0,
    ensures
        forall|i: int|
            0 <= i < buffer.len() ==> in_choice_order(
                policy,
                chosen(policy, buffer),
                #[trigger] buffer[i],
            ),
{
    assert forall|i: int| 0 <= i < buffer.len() implies in_choice_order(
        policy,
        chosen(policy, buffer),
        #[trigger] buffer[i],
    ) by {
        assert(buffer[0].timestamp <= buffer[i].timestamp);
        assert(buffer[i].timestamp <= buffer[buffer.len() - 1].timestamp);
    }
}

/// Memoryless mailbox, one neighbour: whatever that neighbour sends, the
/// mailbox is as if only its last message had been enqueued. A round gets
/// that message, every later round gets it again, and the earlier ones are
/// gone.
pub proof fn law_memoryless_keeps_only_last(
    buffers: Map<i32, Seq<Message>>,
    msgs: Seq<Message>,
    neighbor: i32,
)
    requires
        msgs.len() > 0,
        forall|i: int| 0 <= i < msgs.len() ==> (#[trigger] msgs[i]).source == neighbor,
    ensures
        ({
            let after = after_enqueue_all(ProcessingPolicy::MemoryLess, buffers, msgs);
            let current = current_messages(ProcessingPolicy::MemoryLess, after);
            &&& after == after_enqueue(ProcessingPolicy::MemoryLess, buffers, msgs.last())
            &&& after[neighbor] == seq![msgs.last()]
            &&& current.contains_key(neighbor)
            &&& current[neighbor] == msgs.last()
            &&& after_messages(ProcessingPolicy::MemoryLess, after) == after
        }),
    decreases msgs.len(),
{
    let policy = ProcessingPolicy::MemoryLess;
    let earlier = msgs.drop_last();
    let after = after_enqueue_all(policy, buffers, msgs);
    assert(msgs.last().source == neighbor);
    if earlier.len() > 0 {
        assert forall|i: int| 0 <= i < earlier.len() implies (#[trigger] earlier[i]).source
            == neighbor by {
            assert(earlier[i] == msgs[i]);
        }
        law_memoryless_keeps_only_last(buffers, earlier, neighbor);
        assert(earlier.last().source == neighbor);
    }
    let prev = after_enqueue_all(policy, buffers, earlier);
    assert(after == after_enqueue(policy, prev, msgs.last()));
    assert(after =~= after_enqueue(policy, buffers, msgs.last()));
    assert(after_messages(policy, after) =~= after);
}

/// The buffers after three messages have been enqueued in the order given.
pub open spec fn after_three(
    policy: ProcessingPolicy,
    buffers: Map<i32, Seq<Message>>,
    first: Message,
    second: Message,
    third: Message,
) -> Map<i32, Seq<Message>> {
    after_enqueue(
        policy,
        after_enqueue(policy, after_enqueue(policy, buffers, first), second),
        third,
    )
}

/// Three messages of one neighbour with rising timestamps, enqueued into a
/// time-ordered mailbox that held nothing of that neighbour, are buffered
/// oldest first.
pub proof fn lemma_three_in_time_order(
    policy: ProcessingPolicy,
    buffers: Map<i32, Seq<Message>>,
    first: Message,
    second: Message,
    third: Message,
)
    requires
        policy != ProcessingPolicy::MemoryLess,
        first.source == second.source == third.source,
        first.timestamp < second.timestamp < third.timestamp,
        buffer_of(buffers, first.source).len() == 0,
    ensures
        after_three(policy, buffers, first, second, third)[first.source] == seq![
            first,
            second,
            third,
        ],
{
    let neighbor = first.source;
    let one = after_enqueue(policy, buffers, first);
    assert(buffer_of(buffers, neighbor) =~= Seq::<Message>::empty());
    assert(one[neighbor] =~= seq![first]);
    let two = after_enqueue(policy, one, second);
    assert(seq![first].last() == first);
    assert(two[neighbor] =~= seq![first, second]);
    let three = after_enqueue(policy, two, third);
    assert(seq![first, second].last() == second);
    assert(three[neighbor] =~= seq![first, second, third]);
}

/// Most recent policy: after messages of times t1 < t2 < t3 from one
/// neighbour, the next round gets the one of t3. The two older messages are
/// discarded with it: the round after that gets nothing from the neighbour.
pub proof fn law_most_recent_takes_latest(
    buffers: Map<i32, Seq<Message>>,
    first: Message,
    second: Message,
    third: Message,
)
    requires
        first.source == second.source == third.source,
        first.timestamp < second.timestamp < third.timestamp,
        buffer_of(buffers, first.source).len() == 0,
    ensures
        ({
            let policy = ProcessingPolicy::MostRecent;
            let neighbor = first.source;
            let after = after_three(policy, buffers, first, second, third);
            let rest = after_messages(policy, after);
            &&& current_messages(policy, after).contains_key(neighbor)
            &&& current_messages(policy, after)[neighbor] == third
            &&& rest[neighbor] == Seq::<Message>::empty()
            &&& !current_messages(policy, rest).contains_key(neighbor)
        }),
{
    let policy = ProcessingPolicy::MostRecent;
    let neighbor = first.source;
    lemma_three_in_time_order(policy, buffers, first, second, third);
    let after = after_three(policy, buffers, first, second, third);
    assert(after.contains_key(neighbor));
}

/// What the round after a round finds: under the most recent policy nothing
/// from any neighbour, under the least recent policy something from exactly
/// the neighbours that had two or more messages buffered.
pub proof fn law_next_round_after_taking(
    policy: ProcessingPolicy,
    buffers: Map<i32, Seq<Message>>,
    neighbor: i32,
)
    requires
        policy != ProcessingPolicy::MemoryLess,
    ensures
        current_messages(policy, after_messages(policy, buffers)).contains_key(neighbor) <==> (
        policy == ProcessingPolicy::LeastRecent && buffer_of(buffers, neighbor).len() >= 2),
{
}

/// Least recent policy: after messages of times t1 < t2 < t3 from one
/// neighbour, three rounds get them in this order, one each, and the fourth
/// round gets nothing from that neighbour.
pub proof fn law_least_recent_surfaces_each_once(
    buffers: Map<i32, Seq<Message>>,
    first: Message,
    second: Message,
    third: Message,
)
    requires
        first.source == second.source == third.source,
        first.timestamp < second.timestamp < third.timestamp,
        buffer_of(buffers, first.source).len() == 0,
    ensures
        ({
            let policy = ProcessingPolicy::LeastRecent;
            let neighbor = first.source;
            let after = after_three(policy, buffers, first, second, third);
            let after_one = after_messages(policy, after);
            let after_two = after_messages(policy, after_one);
            let after_all = after_messages(policy, after_two);
            &&& current_messages(policy, after).contains_key(neighbor)
            &&& current_messages(policy, after)[neighbor] == first
            &&& current_messages(policy, after_one).contains_key(neighbor)
            &&& current_messages(policy, after_one)[neighbor] == second
            &&& current_messages(policy, after_two).contains_key(neighbor)
            &&& current_messages(policy, after_two)[neighbor] == third
            &&& !current_messages(policy, after_all).contains_key(neighbor)
        }),
{
    let policy = ProcessingPolicy::LeastRecent;
    let neighbor = first.source;
    lemma_three_in_time_order(policy, buffers, first, second, third);
    let after = after_three(policy, buffers, first, second, third);
    assert(after.contains_key(neighbor));
    let after_one = after_messages(policy, after);
    assert(after_one[neighbor] =~= seq![second, third]);
    let after_two = after_messages(policy, after_one);
    assert(after_two[neighbor] =~= seq![third]);
    let after_all = after_messages(policy, after_two);
    assert(after_all[neighbor] =~= Seq::<Message>::empty());
}

/// The neighbours that have an entry in `map`, each of them once.
pub fn neighbors_of<V>(map: &HashMap<i32, V>) -> (neighbors: Vec<i32>)
    ensures
        neighbors@.no_duplicates(),
        neighbors@.to_set() == map@.dom(),
{
    let mut neighbors: Vec<i32> = Vec::new();
    let ghost keys: Seq<i32> = map.keys().remaining().unref();
    for neighbor in it: map.keys()
        invariant
            it.seq().unref() == keys,
            neighbors@ == keys.take(it.index()),
    {
        assert(keys.take(it.index() + 1) =~= keys.take(it.index()).push(*neighbor));
        neighbors.push(*neighbor);
    }
    assert(neighbors@ =~= keys);
    neighbors
}

/// Buffers of neighbour messages with the policy that resolves them.
///
/// A mailbox keeps every message under its source: `keyed_by_source` holds of
/// what it has buffered, from the start and after every call.
pub trait Mailbox {
    /// The policy that this mailbox was built with.
    spec fn policy(&self) -> ProcessingPolicy;

    /// The buffered messages of each neighbour that has sent, in the order
    /// in which the policy keeps them.
    spec fn buffered(&self) -> Map<i32, Seq<Message>>;

    /// Buffers `msg` under its source.
    fn enqueue(&mut self, msg: Message)
        ensures
            final(self).policy() == old(self).policy(),
            final(self).buffered() == after_enqueue(old(self).policy(), old(self).buffered(), msg),
            keyed_by_source(final(self).buffered()),
    ;

    /// Hands out one message per neighbour that has buffered data and
    /// removes what the policy consumes.
    fn messages(&mut self) -> (current: Messages)
        ensures
            final(self).policy() == old(self).policy(),
            current@ == current_messages(old(self).policy(), old(self).buffered()),
            final(self).buffered() == after_messages(old(self).policy(), old(self).buffered()),
            forall|neighbor: i32, i: int|
                current@.contains_key(neighbor) && 0 <= i < old(self).buffered()[neighbor].len()
                    ==> in_choice_order(
                    old(self).policy(),
                    current@[neighbor],
                    #[trigger] old(self).buffered()[neighbor][i],
                ),
            forall|neighbor: i32| #[trigger]
                current@.contains_key(neighbor) ==> current@[neighbor].source == neighbor,
            keyed_by_source(old(self).buffered()),
            keyed_by_source(final(self).buffered()),
    ;
}

/// The export of each neighbour, taken out of its message.
pub open spec fn exports_of(messages: Map<i32, Message>) -> Map<i32, Export> {
    messages.map_values(|msg: Message| msg.export)
}

/// Messages seen as the neighbour states that a round is given.
pub trait AsStates {
    /// The states that these messages carry.
    spec fn carried(&self) -> Map<i32, Export>;

    /// The export of each neighbour that has a message.
    fn as_states(&self) -> (states: States)
        ensures
            states@ == self.carried(),
    ;
}

impl AsStates for Messages {
    open spec fn carried(&self) -> Map<i32, Export> {
        exports_of(self@)
    }

    fn as_states(&self) -> (states: States) {
        let mut states: States = HashMap::new();
        let neighbors = neighbors_of(self);
        let mut i: usize = 0;
        while i < neighbors.len()
            invariant
                i <= neighbors.len(),
                neighbors@.to_set() == self@.dom(),
                forall|neighbor: i32| #[trigger]
                    states@.contains_key(neighbor) <==> exists|j: int|
                        0 <= j < i && neighbors[j] == neighbor,
                forall|neighbor: i32| #[trigger]
                    states@.contains_key(neighbor) ==> states@[neighbor]
                        == self@[neighbor].export,
            decreases neighbors.len() - i,
        {
            let neighbor = neighbors[i];
            assert(neighbors@.to_set().contains(neighbor));
            match self.get(&neighbor) {
                Some(msg) => {
                    states.insert(neighbor, msg.export.clone());
                },
                None => {
                    assert(false);
                },
            }
            i = i + 1;
        }
        assert forall|neighbor: i32| #[trigger] self@.contains_key(neighbor) implies exists|
            j: int,
        |
            0 <= j < i && neighbors[j] == neighbor by {
            assert(neighbors@.to_set().contains(neighbor));
            let j = choose|j: int| 0 <= j < neighbors@.len() && neighbors@[j] == neighbor;
            assert(neighbors[j] == neighbor);
        }
        assert(states@ =~= exports_of(self@));
        states
    }
}

} // verus!
