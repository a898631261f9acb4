use rf_core::export::Export;
use rf_core::path::Path;
use rf_distributed::mailbox::factory::{MailboxFactory, PolicyMailbox, ProcessingPolicy};
use rf_distributed::mailbox::{neighbors_of, AsStates, Mailbox, Messages};
use rf_distributed::message::Message;
use rf_distributed::state::States;
use std::collections::HashMap;

fn export_of(value: i32) -> Export {
    let mut export = Export::new();
    export.put(Path::new(), value);
    export
}

fn msg(source: i32, value: i32, timestamp: u64) -> Message {
    Message::new(source, export_of(value), timestamp)
}

fn mailbox(policy: ProcessingPolicy) -> PolicyMailbox {
    MailboxFactory::from_policy(policy)
}

#[test]
fn test_as_states() {
    let mut messages = HashMap::new();
    let export_1 = export_of(1);
    let export_2 = export_of(2);
    let export_3 = export_of(3);
    messages.insert(1, Message::new(1, export_1.clone(), 0));
    messages.insert(2, Message::new(2, export_2.clone(), 0));
    messages.insert(3, Message::new(3, export_3.clone(), 0));

    let states: States = messages.as_states();
    assert_eq!(states.len(), 3);
    assert_eq!(states.get(&1).unwrap(), &export_1);
    assert_eq!(states.get(&2).unwrap(), &export_2);
    assert_eq!(states.get(&3).unwrap(), &export_3);
}

#[test]
fn as_states_of_no_messages_is_empty() {
    let messages: Messages = HashMap::new();
    assert!(messages.as_states().is_empty());
}

#[test]
fn as_states_is_keyed_by_the_map_key() {
    let mut messages: Messages = HashMap::new();
    messages.insert(9, msg(4, 40, 1));
    let states = messages.as_states();
    assert_eq!(states.len(), 1);
    assert_eq!(states.get(&9).unwrap().root::<i32>(), 40);
    assert!(states.get(&4).is_none());
}

#[test]
fn neighbors_of_lists_every_key_once() {
    let mut messages: Messages = HashMap::new();
    messages.insert(3, msg(3, 1, 1));
    messages.insert(1, msg(1, 1, 1));
    messages.insert(2, msg(2, 1, 1));
    messages.insert(3, msg(3, 2, 2));
    let mut neighbors = neighbors_of(&messages);
    neighbors.sort();
    assert_eq!(neighbors, vec![1, 2, 3]);
    let none: Messages = HashMap::new();
    assert_eq!(neighbors_of(&none), Vec::<i32>::new());
}

#[test]
fn a_new_mailbox_has_no_messages() {
    for policy in [
        ProcessingPolicy::MemoryLess,
        ProcessingPolicy::MostRecent,
        ProcessingPolicy::LeastRecent,
    ] {
        let mut mailbox = mailbox(policy);
        assert!(mailbox.messages().is_empty());
        assert!(mailbox.messages().is_empty());
    }
}

#[test]
fn from_policy_builds_the_matching_variant() {
    assert!(matches!(
        mailbox(ProcessingPolicy::MemoryLess),
        PolicyMailbox::MemoryLess(_)
    ));
    assert!(matches!(
        mailbox(ProcessingPolicy::MostRecent),
        PolicyMailbox::TimeOrdered(_)
    ));
    assert!(matches!(
        mailbox(ProcessingPolicy::LeastRecent),
        PolicyMailbox::TimeOrdered(_)
    ));
}

#[test]
fn memoryless_returns_only_the_last_enqueued() {
    let mut mailbox = mailbox(ProcessingPolicy::MemoryLess);
    mailbox.enqueue(msg(1, 10, 30));
    mailbox.enqueue(msg(1, 20, 10));
    mailbox.enqueue(msg(1, 30, 20));
    let current = mailbox.messages();
    assert_eq!(current.len(), 1);
    assert_eq!(current.get(&1), Some(&msg(1, 30, 20)));
}

#[test]
fn memoryless_reads_are_repeatable() {
    let mut mailbox = mailbox(ProcessingPolicy::MemoryLess);
    mailbox.enqueue(msg(1, 10, 1));
    mailbox.enqueue(msg(2, 20, 2));
    let first = mailbox.messages();
    let second = mailbox.messages();
    assert_eq!(first, second);
    assert_eq!(second.len(), 2);
    assert_eq!(second.get(&1), Some(&msg(1, 10, 1)));
    assert_eq!(second.get(&2), Some(&msg(2, 20, 2)));
    mailbox.enqueue(msg(1, 11, 3));
    let third = mailbox.messages();
    assert_eq!(third.get(&1), Some(&msg(1, 11, 3)));
    assert_eq!(third.get(&2), Some(&msg(2, 20, 2)));
}

#[test]
fn most_recent_returns_the_latest_first() {
    let mut mailbox = mailbox(ProcessingPolicy::MostRecent);
    mailbox.enqueue(msg(1, 10, 100));
    mailbox.enqueue(msg(1, 20, 200));
    mailbox.enqueue(msg(1, 30, 300));
    let first = mailbox.messages();
    assert_eq!(first.len(), 1);
    assert_eq!(first.get(&1), Some(&msg(1, 30, 300)));
}

#[test]
fn most_recent_discards_the_older_messages() {
    let mut mailbox = mailbox(ProcessingPolicy::MostRecent);
    mailbox.enqueue(msg(1, 10, 100));
    mailbox.enqueue(msg(1, 20, 200));
    mailbox.enqueue(msg(1, 30, 300));
    assert_eq!(mailbox.messages().get(&1), Some(&msg(1, 30, 300)));
    assert!(mailbox.messages().get(&1).is_none());
    assert!(mailbox.messages().is_empty());
}

#[test]
fn most_recent_starts_afresh_after_a_read() {
    let mut mailbox = mailbox(ProcessingPolicy::MostRecent);
    mailbox.enqueue(msg(1, 10, 100));
    mailbox.enqueue(msg(1, 20, 200));
    assert_eq!(mailbox.messages().get(&1), Some(&msg(1, 20, 200)));
    mailbox.enqueue(msg(1, 5, 50));
    let current = mailbox.messages();
    assert_eq!(current.len(), 1);
    assert_eq!(current.get(&1), Some(&msg(1, 5, 50)));
    assert!(mailbox.messages().is_empty());
}

#[test]
fn most_recent_single_message_then_nothing() {
    let mut mailbox = mailbox(ProcessingPolicy::MostRecent);
    mailbox.enqueue(msg(1, 10, 100));
    assert_eq!(mailbox.messages().get(&1), Some(&msg(1, 10, 100)));
    assert!(mailbox.messages().get(&1).is_none());
}

#[test]
fn least_recent_surfaces_every_message_once() {
    let mut mailbox = mailbox(ProcessingPolicy::LeastRecent);
    mailbox.enqueue(msg(1, 10, 100));
    mailbox.enqueue(msg(1, 20, 200));
    mailbox.enqueue(msg(1, 30, 300));
    assert_eq!(mailbox.messages().get(&1), Some(&msg(1, 10, 100)));
    assert_eq!(mailbox.messages().get(&1), Some(&msg(1, 20, 200)));
    assert_eq!(mailbox.messages().get(&1), Some(&msg(1, 30, 300)));
    assert!(mailbox.messages().is_empty());
}

#[test]
fn time_order_does_not_depend_on_arrival_order() {
    let mut least = mailbox(ProcessingPolicy::LeastRecent);
    least.enqueue(msg(1, 20, 200));
    least.enqueue(msg(1, 30, 300));
    least.enqueue(msg(1, 10, 100));
    for message in [msg(1, 10, 100), msg(1, 20, 200), msg(1, 30, 300)] {
        assert_eq!(least.messages().get(&1), Some(&message));
    }
    assert!(least.messages().is_empty());

    let mut most = mailbox(ProcessingPolicy::MostRecent);
    most.enqueue(msg(1, 20, 200));
    most.enqueue(msg(1, 30, 300));
    most.enqueue(msg(1, 10, 100));
    assert_eq!(most.messages().get(&1), Some(&msg(1, 30, 300)));
    assert!(most.messages().is_empty());
}

#[test]
fn equal_timestamps_keep_their_arrival_order() {
    let mut least = mailbox(ProcessingPolicy::LeastRecent);
    least.enqueue(msg(1, 1, 50));
    least.enqueue(msg(1, 2, 50));
    least.enqueue(msg(1, 3, 50));
    least.enqueue(msg(1, 0, 40));
    assert_eq!(least.messages().get(&1), Some(&msg(1, 0, 40)));
    assert_eq!(least.messages().get(&1), Some(&msg(1, 1, 50)));
    assert_eq!(least.messages().get(&1), Some(&msg(1, 2, 50)));
    assert_eq!(least.messages().get(&1), Some(&msg(1, 3, 50)));

    let mut most = mailbox(ProcessingPolicy::MostRecent);
    most.enqueue(msg(1, 1, 50));
    most.enqueue(msg(1, 2, 50));
    most.enqueue(msg(1, 3, 50));
    most.enqueue(msg(1, 0, 40));
    assert_eq!(most.messages().get(&1), Some(&msg(1, 3, 50)));
    assert!(most.messages().is_empty());
}

#[test]
fn neighbors_are_buffered_apart() {
    let mut mailbox = mailbox(ProcessingPolicy::LeastRecent);
    mailbox.enqueue(msg(1, 10, 5));
    mailbox.enqueue(msg(2, 20, 1));
    mailbox.enqueue(msg(1, 11, 6));
    let first = mailbox.messages();
    assert_eq!(first.len(), 2);
    assert_eq!(first.get(&1), Some(&msg(1, 10, 5)));
    assert_eq!(first.get(&2), Some(&msg(2, 20, 1)));
    let second = mailbox.messages();
    assert_eq!(second.len(), 1);
    assert_eq!(second.get(&1), Some(&msg(1, 11, 6)));
    assert!(second.get(&2).is_none());
    mailbox.enqueue(msg(2, 21, 0));
    let third = mailbox.messages();
    assert_eq!(third.len(), 1);
    assert_eq!(third.get(&2), Some(&msg(2, 21, 0)));
}

#[test]
fn extreme_timestamps_and_sources() {
    let mut most = mailbox(ProcessingPolicy::MostRecent);
    most.enqueue(msg(i32::MIN, 1, u64::MAX));
    most.enqueue(msg(i32::MIN, 2, 0));
    most.enqueue(msg(i32::MAX, 3, 7));
    let current = most.messages();
    assert_eq!(current.len(), 2);
    assert_eq!(current.get(&i32::MIN), Some(&msg(i32::MIN, 1, u64::MAX)));
    assert_eq!(current.get(&i32::MAX), Some(&msg(i32::MAX, 3, 7)));
    assert!(most.messages().is_empty());

    let mut least = mailbox(ProcessingPolicy::LeastRecent);
    least.enqueue(msg(i32::MIN, 1, u64::MAX));
    least.enqueue(msg(i32::MIN, 2, 0));
    least.enqueue(msg(i32::MAX, 3, 7));
    let current = least.messages();
    assert_eq!(current.get(&i32::MIN), Some(&msg(i32::MIN, 2, 0)));
    assert_eq!(current.get(&i32::MAX), Some(&msg(i32::MAX, 3, 7)));
    let next = least.messages();
    assert_eq!(next.len(), 1);
    assert_eq!(next.get(&i32::MIN), Some(&msg(i32::MIN, 1, u64::MAX)));
}

#[test]
fn least_recent_rounds_take_one_message_each() {
    let mut mailbox = mailbox(ProcessingPolicy::LeastRecent);
    let times = [40, 10, 30, 20, 50];
    for (value, time) in times.iter().enumerate() {
        mailbox.enqueue(msg(8, value as i32, *time));
    }
    let mut seen = Vec::new();
    for _ in 0..times.len() {
        let current = mailbox.messages();
        assert_eq!(current.len(), 1);
        seen.push(current.get(&8).unwrap().timestamp);
    }
    assert!(mailbox.messages().is_empty());
    assert_eq!(seen, vec![10, 20, 30, 40, 50]);
}

#[test]
fn most_recent_round_takes_the_youngest_of_many() {
    let mut mailbox = mailbox(ProcessingPolicy::MostRecent);
    for (value, time) in [40, 10, 30, 20, 50].iter().enumerate() {
        mailbox.enqueue(msg(8, value as i32, *time));
    }
    let current = mailbox.messages();
    assert_eq!(current.len(), 1);
    assert_eq!(current.get(&8), Some(&msg(8, 4, 50)));
    assert!(mailbox.messages().is_empty());
}

#[test]
fn every_message_is_handed_out_under_its_source() {
    for policy in [
        ProcessingPolicy::MemoryLess,
        ProcessingPolicy::MostRecent,
        ProcessingPolicy::LeastRecent,
    ] {
        let mut mailbox = mailbox(policy);
        for (source, time) in [(3, 9), (-1, 4), (3, 2), (7, 7), (-1, 8)] {
            mailbox.enqueue(msg(source, 0, time));
        }
        let current = mailbox.messages();
        assert_eq!(current.len(), 3);
        for (key, message) in current.iter() {
            assert_eq!(message.source, *key);
        }
    }
}
