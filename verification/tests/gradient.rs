use rf_core::context::Context;
use rf_core::export::Export;
use rf_core::lang::builtins::{foldhood_plus, mux};
use rf_core::lang::execution::round;
use rf_core::lang::{nbr, rep};
use rf_core::sensor_id::{sensor, SensorId};
use rf_core::vm::round_vm::RoundVM;
use rf_distributed::mailbox::factory::{MailboxFactory, PolicyMailbox, ProcessingPolicy};
use rf_distributed::mailbox::{AsStates, Mailbox};
use rf_distributed::message::Message;
use rf_distributed::network::NetworkUpdate;
use rf_distributed::platform::{Action, Event, Phase, Platform};
use rf_distributed::state::States;
use rf_distributed::topology::{line_neighbors, line_ranges};
use rf_distributed::wire::{decode, encode};
use std::any::Any;
use std::collections::{HashMap, VecDeque};
use std::iter;
use std::rc::Rc;

fn gradient(vm: &mut RoundVM) -> f64 {
    fn is_source(vm: &mut RoundVM) -> bool {
        vm.local_sense::<bool>(&sensor("source")).unwrap().clone()
    }

    rep(
        vm,
        |_| f64::INFINITY,
        |vm1, d| {
            mux(
                vm1,
                is_source,
                |_vm| 0.0,
                |vm2| {
                    foldhood_plus(
                        vm2,
                        |_vm| f64::INFINITY,
                        |a, b| a.min(b),
                        |vm3| nbr(vm3, |_vm| d) + 1.0,
                    )
                },
            )
        },
    )
}

fn local_sensors(source: bool) -> HashMap<SensorId, Rc<Box<dyn Any>>> {
    let mut sensors: HashMap<SensorId, Rc<Box<dyn Any>>> = HashMap::new();
    sensors.insert(sensor("source"), Rc::new(Box::new(source) as Box<dyn Any>));
    sensors
}

fn nbr_sensors(id: i32) -> HashMap<SensorId, HashMap<i32, Rc<Box<dyn Any>>>> {
    let mut ranges: HashMap<i32, Rc<Box<dyn Any>>> = HashMap::new();
    for (nbr, range) in line_ranges(id) {
        ranges.insert(nbr, Rc::new(Box::new(range) as Box<dyn Any>));
    }
    let mut sensors = HashMap::new();
    sensors.insert(sensor("nbr_range"), ranges);
    sensors
}

/// One round of the gradient on device `id`.
fn evaluate(id: i32, source: bool, states: States) -> Export {
    let context = Context::new(id, local_sensors(source), nbr_sensors(id), states);
    let mut vm = RoundVM::new(context);
    vm.new_export_stack();
    round(&mut vm, gradient);
    vm.export_data().clone()
}

/// Runs the devices in the order of `scheduling`; what a device exports is in
/// the mailbox of each of its neighbours before the next device runs.
fn run_on_line(devices: &[i32], sources: &[i32], scheduling: &[i32]) -> HashMap<i32, f64> {
    let mut mailboxes: HashMap<i32, PolicyMailbox> = devices
        .iter()
        .map(|d| (*d, MailboxFactory::from_policy(ProcessingPolicy::MemoryLess)))
        .collect();
    let mut results: HashMap<i32, f64> = HashMap::new();
    let mut now = 0;
    for d in scheduling {
        let states = mailboxes.get_mut(d).unwrap().messages().as_states();
        let export = evaluate(*d, sources.contains(d), states);
        results.insert(*d, export.root::<f64>());
        now += 1;
        for nbr in line_neighbors(*d) {
            let message = Message::new(*d, export.clone(), now);
            mailboxes.get_mut(&nbr).unwrap().enqueue(message);
        }
    }
    results
}

fn line_results(values: [f64; 5]) -> HashMap<i32, f64> {
    HashMap::from([
        (1, values[0]),
        (2, values[1]),
        (3, values[2]),
        (4, values[3]),
        (5, values[4]),
    ])
}

#[test]
fn test_single_source() {
    let devices = vec![1, 2, 3, 4, 5];
    let scheduling: Vec<i32> = iter::repeat(devices.clone()).take(10).flatten().collect();
    let expected_results: HashMap<i32, HashMap<i32, f64>> = HashMap::from([
        (1, line_results([0.0, 1.0, 2.0, 3.0, 4.0])),
        (2, line_results([1.0, 0.0, 1.0, 2.0, 3.0])),
        (3, line_results([2.0, 1.0, 0.0, 1.0, 2.0])),
        (4, line_results([3.0, 2.0, 1.0, 0.0, 1.0])),
        (5, line_results([4.0, 3.0, 2.0, 1.0, 0.0])),
    ]);

    for d in devices.clone() {
        let results = run_on_line(&devices, &[d], &scheduling);
        assert_eq!(results, expected_results.get(&d).unwrap().clone());
    }
}

#[test]
fn test_multiple_sources() {
    let devices = vec![1, 2, 3, 4, 5];
    let scheduling: Vec<i32> = iter::repeat(devices.clone()).take(5).flatten().collect();
    let results = run_on_line(&devices, &[1, 5], &scheduling);
    let expected_results = line_results([0.0, 1.0, 2.0, 1.0, 0.0]);
    assert_eq!(results, expected_results);
}

/// A device behind a transport that keeps the last payload published on each
/// channel that the device listens to, and hands them over one per receive
/// attempt, the channel that has waited longest first.
struct Device {
    id: i32,
    source: bool,
    platform: Platform<PolicyMailbox>,
    inbox: VecDeque<(i32, String)>,
    exported: Option<f64>,
}

impl Device {
    fn deliver(&mut self, sender: i32, payload: String) {
        match self.inbox.iter_mut().find(|(waiting, _)| *waiting == sender) {
            Some(entry) => entry.1 = payload,
            None => self.inbox.push_back((sender, payload)),
        }
    }
}

/// One cycle of `device`; returns the payload that it published.
fn cycle(device: &mut Device, now: u64) -> String {
    let wake = if device.platform.phase() == Phase::Idle { Event::Started } else { Event::Woke };
    let states = match device.platform.step(wake) {
        Action::Evaluate { states } => states,
        other => panic!("expected a snapshot, got {:?}", other),
    };
    let export = evaluate(device.id, device.source, states);
    device.exported = Some(export.root::<f64>());
    let message = match device.platform.step(Event::Evaluated { export, now }) {
        Action::Broadcast { message } => message,
        other => panic!("expected a broadcast, got {:?}", other),
    };
    let text = serde_json::to_string(&message.export).unwrap();
    let payload = encode(message.source, message.timestamp, &text);
    assert_eq!(device.platform.step(Event::Published), Action::Receive);
    let event = match device.inbox.pop_front() {
        Some((_, msg)) => {
            let parsed = decode(&msg)
                .and_then(|frame| serde_json::from_str::<Export>(&frame.export).ok());
            Event::Received { update: NetworkUpdate::Update { msg }, parsed }
        }
        None => Event::Received { update: NetworkUpdate::NoUpdate, parsed: None },
    };
    assert!(matches!(device.platform.step(event), Action::Sleep { .. }));
    payload
}

fn converge_on_line(sources: &[i32], policy: ProcessingPolicy, sweeps: usize) -> HashMap<i32, f64> {
    let ids = [1, 2, 3, 4, 5];
    let mut devices: Vec<Device> = ids
        .iter()
        .map(|id| Device {
            id: *id,
            source: sources.contains(id),
            platform: Platform::new(
                MailboxFactory::from_policy(policy),
                *id,
                Some(line_neighbors(*id)),
            ),
            inbox: VecDeque::new(),
            exported: None,
        })
        .collect();
    let mut now = 0;
    for _ in 0..sweeps {
        for at in 0..devices.len() {
            now += 1;
            let payload = cycle(&mut devices[at], now);
            let listeners = devices[at].platform.neighbors().clone();
            let sender = devices[at].id;
            for device in devices.iter_mut() {
                if listeners.contains(&device.id) {
                    device.deliver(sender, payload.clone());
                }
            }
        }
    }
    devices.iter().map(|device| (device.id, device.exported.unwrap())).collect()
}

#[test]
fn platforms_converge_to_the_distance_from_the_source() {
    let results = converge_on_line(&[3], ProcessingPolicy::MemoryLess, 60);
    assert_eq!(results, line_results([2.0, 1.0, 0.0, 1.0, 2.0]));
    let results = converge_on_line(&[1], ProcessingPolicy::MemoryLess, 60);
    assert_eq!(results, line_results([0.0, 1.0, 2.0, 3.0, 4.0]));
}

#[test]
fn platforms_converge_to_the_distance_from_the_nearest_source() {
    let results = converge_on_line(&[1, 5], ProcessingPolicy::MemoryLess, 60);
    assert_eq!(results, line_results([0.0, 1.0, 2.0, 1.0, 0.0]));
}
