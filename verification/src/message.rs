//! The unit that devices exchange: one device's exported state and the time
//! at which it was produced.

use rf_core::export::Export;
use vstd::prelude::*;

pub mod message_queue;

verus! {

/// The export tree that a round of the aggregate program produces.
///
/// Its content belongs to the evaluation engine; this crate only carries it
/// from one device to a neighbour's next round.
#[verifier::external_type_specification]
#[verifier::external_body]
pub struct ExExport(Export);

/// `Export::clone`, the derived clone of the export tree: every path keeps
/// its value (the values are reference counted and shared), so the copy is
/// the same tree.
pub assume_specification[ <Export as Clone>::clone ](export: &Export) -> (copy: Export)
    ensures
        copy == *export,
;

/// A message sent between devices.
#[derive(Debug, PartialEq)]
pub struct Message {
    /// The device that produced the export.
    pub source: i32,
    /// The exported state of `source`.
    pub export: Export,
    /// When the export was produced, on the clock shared by the deployment.
    pub timestamp: u64,
}

impl Message {
    /// Builds the message that `source` sends at time `timestamp`.
    pub fn new(source: i32, export: Export, timestamp: u64) -> (msg: Self)
        ensures
            msg.source == source,
            msg.export == export,
            msg.timestamp == timestamp,
    {
        Self { source, export, timestamp }
    }
}

impl Clone for Message {
    fn clone(&self) -> (copy: Self)
        ensures
            copy == *self,
    {
        Self { source: self.source, export: self.export.clone(), timestamp: self.timestamp }
    }
}

} // verus!
