//! Round coordination for devices that run an aggregate program and exchange
//! their exported state with their neighbours over a publish/subscribe
//! transport.
//!
//! The crate holds the message and queue types, the mailbox with its
//! buffering policies, the snapshot of neighbour states handed to a round,
//! the driver's decisions as a state machine, the form in which a message
//! travels and the names of the channels. The transport itself, the
//! evaluation of a round and the serialisation of the export tree are
//! performed by the embedding program.

pub mod message;
pub mod mailbox;
pub mod state;
pub mod network;
pub mod platform;
pub mod decimal;
pub mod arguments;
pub mod wire;
pub mod topology;
