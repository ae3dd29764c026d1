//! The read-only status snapshot: a point-in-time projection of the printer
//! registry and the reader assignment table for an external monitoring
//! surface. The two structures are captured under independent short-held
//! locks by the caller; each capture here is a faithful copy of the
//! structure it was given.

use vstd::prelude::*;
use crate::pool::PoolTable;
use crate::reader::ReaderEntry;
use crate::registry::{PrinterInfo, PrinterRegistry};
use crate::roundrobin::RoundRobinTable;

verus! {

/// What the monitoring surface sees: every printer's identity and every
/// reader row (name, connectivity, assignment).
pub struct StatusSnapshot {
    pub printers: Vec<PrinterInfo>,
    pub readers: Vec<ReaderEntry>,
}

/// Capture the state of a round-robin deployment.
pub fn capture_round_robin(registry: &PrinterRegistry, table: &RoundRobinTable) -> (s:
    StatusSnapshot)
    ensures
        s.printers@.len() == registry@.len(),
        forall|i: int| 0 <= i < s.printers@.len() ==> (#[trigger] s.printers@[i])@ == registry@[i],
        s.readers@.len() == table@.len(),
        forall|i: int| 0 <= i < s.readers@.len() ==> (#[trigger] s.readers@[i])@ == table@[i],
{
    StatusSnapshot { printers: registry.printer_list(), readers: table.snapshot_readers() }
}

/// Capture the state of a claim/release deployment.
pub fn capture_pool(registry: &PrinterRegistry, table: &PoolTable) -> (s: StatusSnapshot)
    ensures
        s.printers@.len() == registry@.len(),
        forall|i: int| 0 <= i < s.printers@.len() ==> (#[trigger] s.printers@[i])@ == registry@[i],
        s.readers@.len() == table@.readers.len(),
        forall|i: int|
            0 <= i < s.readers@.len() ==> (#[trigger] s.readers@[i])@ == table@.readers[i],
{
    StatusSnapshot { printers: registry.printer_list(), readers: table.snapshot_readers() }
}

} // verus!
