use rf_core::export::Export;
use rf_core::path::Path;
use rf_core::slot::Slot;
use rf_core::slot::Slot::{Nbr, Rep};
use rf_distributed::message::message_queue::deque::MessageDeque;
use rf_distributed::message::message_queue::{MessageQueue, MessageQueueIterator};
use rf_distributed::message::Message;

fn path(slots: Vec<Slot>) -> Path {
    let mut slots = slots;
    slots.reverse();
    Path::from(slots)
}

fn export(entries: Vec<(Path, i32)>) -> Export {
    let mut export = Export::new();
    for (path, value) in entries {
        export.put(path, value);
    }
    export
}

fn nested_export(value: i32) -> Export {
    export(vec![
        (path(vec![]), value),
        (path(vec![Rep(0)]), value),
        (path(vec![Rep(0), Nbr(0)]), value),
    ])
}

#[test]
fn test_new() {
    let export = export(vec![(Path::new(), 1)]);
    let msg = Message::new(1, export.clone(), 0);
    assert_eq!(msg.source, 1);
    assert_eq!(msg.export, export);
}

#[test]
fn new_keeps_the_timestamp() {
    let msg = Message::new(7, nested_export(3), 1_700_000_000_000);
    assert_eq!(msg.source, 7);
    assert_eq!(msg.timestamp, 1_700_000_000_000);
    assert_eq!(msg.export, nested_export(3));
}

#[test]
fn clone_is_equal_in_every_field() {
    let msg = Message::new(-4, nested_export(9), 12);
    let copy = msg.clone();
    assert_eq!(copy, msg);
    assert_eq!(copy.source, -4);
    assert_eq!(copy.timestamp, 12);
    assert_eq!(copy.export.root::<i32>(), 9);
}

#[test]
fn test_push_and_pop() {
    let export = nested_export(2);
    let msg = Message::new(1, export, 0);
    let mut deque = MessageDeque::new();
    deque.push(msg.clone());
    assert_eq!(deque.pop(), Some(msg));
}

#[test]
fn test_pop_removes_the_item() {
    let export = nested_export(2);
    let msg = Message::new(1, export, 0);
    let mut deque = MessageDeque::new();
    deque.push(msg.clone());
    deque.pop();
    assert!(deque.empty());
}

#[test]
fn new_deque_is_empty() {
    let mut deque = MessageDeque::new();
    assert!(deque.empty());
    assert_eq!(deque.pop(), None);
    assert_eq!(deque.next(), None);
    assert!(deque.empty());
}

#[test]
fn deque_pops_in_arrival_order() {
    let mut deque = MessageDeque::new();
    deque.push(Message::new(1, nested_export(10), 30));
    deque.push(Message::new(2, nested_export(20), 10));
    deque.push(Message::new(1, nested_export(30), 20));
    assert!(!deque.empty());
    assert_eq!(deque.pop(), Some(Message::new(1, nested_export(10), 30)));
    assert_eq!(deque.pop(), Some(Message::new(2, nested_export(20), 10)));
    assert!(!deque.empty());
    assert_eq!(deque.pop(), Some(Message::new(1, nested_export(30), 20)));
    assert_eq!(deque.pop(), None);
}

#[test]
fn deque_next_is_pop() {
    let mut deque = MessageDeque::new();
    deque.push(Message::new(5, nested_export(1), 1));
    deque.push(Message::new(6, nested_export(2), 2));
    assert_eq!(deque.next(), Some(Message::new(5, nested_export(1), 1)));
    assert_eq!(deque.pop(), Some(Message::new(6, nested_export(2), 2)));
    assert_eq!(deque.next(), None);
}

#[test]
fn deque_clone_holds_the_same_messages() {
    let mut deque = MessageDeque::new();
    deque.push(Message::new(5, nested_export(1), 1));
    deque.push(Message::new(6, nested_export(2), 2));
    let mut copy = deque.clone();
    assert_eq!(copy.pop(), Some(Message::new(5, nested_export(1), 1)));
    assert_eq!(copy.pop(), Some(Message::new(6, nested_export(2), 2)));
    assert!(copy.empty());
    assert!(!deque.empty());
    assert_eq!(deque.pop(), Some(Message::new(5, nested_export(1), 1)));
}
