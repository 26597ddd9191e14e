use crate::address::Address;
use vstd::prelude::*;

verus! {

/// Which side of a transfer a process stands for.
#[derive(Clone, Copy, Debug, PartialEq, Eq, Structural)]
pub enum Role {
    Seeder,
    Requester,
}

/// Progress of one transfer with one counterparty.
#[derive(Clone, Copy, Debug)]
pub struct Process {
    pub id: u32,
    pub counterparty: Address,
    pub role: Role,
    /// Chunks sent (seeder) or received (requester) so far.
    pub sequence_no: usize,
    /// Chunks already reconciled by a confirmed payment.
    pub rfp_sequence_no: usize,
    /// A request for payment is outstanding and not yet confirmed.
    pub awaiting_payment: bool,
    /// Scheduler ticks spent so far waiting for the outstanding payment.
    pub waited_ticks: u32,
}

/// A transfer as the seeder tracks it.
pub type SProcess = Process;

/// A transfer as the requester tracks it.
pub type RProcess = Process;

/// The unpaid chunks of `p` stay within `window`.
pub open spec fn within_window(p: Process, window: nat) -> bool {
    p.rfp_sequence_no <= p.sequence_no && p.sequence_no - p.rfp_sequence_no <= window
}

impl Process {
    /// A fresh transfer: nothing sent, nothing reconciled, nothing awaited.
    pub open spec fn new_spec(id: u32, counterparty: Address, role: Role) -> Process {
        Process {
            id,
            counterparty,
            role,
            sequence_no: 0,
            rfp_sequence_no: 0,
            awaiting_payment: false,
            waited_ticks: 0,
        }
    }

    /// A fresh transfer: nothing sent, nothing reconciled.
    pub fn new(id: u32, counterparty: Address, role: Role) -> (r: Process)
        ensures
            r.id == id,
            r.counterparty == counterparty,
            r.role == role,
            r.sequence_no == 0,
            r.rfp_sequence_no == 0,
            !r.awaiting_payment,
            r.waited_ticks == 0,
    {
        Process {
            id,
            counterparty,
            role,
            sequence_no: 0,
            rfp_sequence_no: 0,
            awaiting_payment: false,
            waited_ticks: 0,
        }
    }
}

} // verus!
