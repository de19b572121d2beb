//! Thread control blocks and the domain schedule.
use crate::addr::VAddr;
use crate::fault::{Fault, LookupFault, ThreadState};
use crate::objects::ArchTCB;
use vstd::prelude::*;

verus! {

/// One entry of the domain schedule: a domain and how long it runs.
#[derive(Clone, Copy, PartialEq, Eq, Structural, Debug)]
pub struct DomainSchedule {
    pub domain: u64,
    pub length: u64,
}

impl DomainSchedule {
    pub fn new(domain: u64, length: u64) -> (r: Self)
        ensures
            r == (DomainSchedule { domain, length }),
    {
        DomainSchedule { domain, length }
    }
}

/// The kernel's domain-schedule state: the schedule and the running entry.
/// Lock-protected after boot; during the single-core bootstrap it is owned
/// by the boot procedure.
pub struct DomainScheduleState {
    pub schedule: Vec<DomainSchedule>,
    pub idx: usize,
}

impl DomainScheduleState {
    pub open spec fn wf(self) -> bool {
        &&& self.schedule@.len() > 0
        &&& self.idx < self.schedule@.len()
    }

    /// The boot-time schedule: one domain, one slot.
    pub fn initial() -> (r: Self)
        ensures
            r.wf(),
            r.schedule@.len() == 1,
            r.schedule@[0] == (DomainSchedule { domain: 0u64, length: 1u64 }),
            r.idx == 0,
    {
        let mut schedule: Vec<DomainSchedule> = Vec::new();
        schedule.push(DomainSchedule { domain: 0, length: 1 });
        DomainScheduleState { schedule, idx: 0 }
    }

    /// The entry now scheduled.
    pub fn current(&self) -> (r: DomainSchedule)
        requires
            self.wf(),
        ensures
            r == self.schedule@[self.idx as int],
    {
        self.schedule[self.idx]
    }
}

/// A thread control block. The scheduler and IPC queue links are slot
/// numbers into the kernel's TCB storage; nothing runs yet at boot, so all
/// links are empty.
pub struct TCB {
    pub arch: ArchTCB,
    pub state: ThreadState,
    pub bound_notification: u64,
    pub fault: Fault,
    pub lookup_failure: LookupFault,
    pub domain: u64,
    pub mcp: u64,
    pub priority: u64,
    pub time_slice: u64,
    pub fault_handler: u64,
    pub ipc_buffer: VAddr,
    pub sched_next: u64,
    pub sched_prev: u64,
    pub ep_next: u64,
    pub ep_prev: u64,
}

} // verus!
