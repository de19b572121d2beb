//! Fault and thread-state records, as the kernel stores them per thread.
use vstd::prelude::*;

verus! {

/// Why an address lookup failed.
#[derive(Clone, Copy, PartialEq, Eq, Structural, Debug)]
pub enum LookupFault {
    InvalidRoot,
    MissingCapability { bits_left: u8 },
    DepthMismatch { bits_left: u8, bits_found: u8 },
    GuardMismatch { bits_left: u8, bits_found: u8, guard_found: u64 },
}

/// A virtual-memory fault kind.
#[derive(Clone, Copy, PartialEq, Eq, Structural, Debug)]
pub enum VMFault {
    DataFault,
    InstructionFault,
}

/// The fault a thread last raised.
#[derive(Clone, Copy, PartialEq, Eq, Structural, Debug)]
pub enum Fault {
    NullFault,
    CapFault { address: u64, in_receive_phase: bool },
    UnknownSyscall { syscall_number: u64 },
    UserException { number: u32, code: u32 },
    VMFault(VMFault),
}

/// What a thread is doing.
#[derive(Clone, Copy, PartialEq, Eq, Structural, Debug)]
pub enum ThreadStateType {
    InActive,
    Running,
    Restart,
    BlockedOnReceive,
    BlockedOnSend,
    BlockedOnReply,
    BlockedOnNotification,
    IdleThreadState,
}

/// A thread's full state record.
#[derive(Clone, Copy, PartialEq, Eq, Structural, Debug)]
pub struct ThreadState {
    pub blocking_ipc_badge: u64,
    pub blocking_ipc_can_grant: bool,
    pub blocking_ipc_can_grant_reply: bool,
    pub blocking_ipc_is_call: bool,
    pub tcb_queued: bool,
    pub blocking_object: u64,
    pub ts_type: ThreadStateType,
}

} // verus!
