//! IPC object state and the in-memory layout of a thread's IPC buffer.
use vstd::prelude::*;

verus! {

/// Longest message, in words.
pub const MSG_MAX_LENGTH: usize = 120;

/// Most capabilities one message can carry.
pub const MSG_MAX_EXTRA_CAPS: usize = 3;

/// What an endpoint is doing.
#[derive(Clone, Copy, PartialEq, Eq, Structural, Debug)]
pub enum EndPointState {
    Idle,
    Send,
    Recv,
}

/// What a notification is doing.
#[derive(Clone, Copy, PartialEq, Eq, Structural, Debug)]
pub enum NotificationState {
    Idle,
    Waiting,
    Active,
}

/// The tag word of a message: label, capability count and length.
#[derive(Clone, Copy, PartialEq, Eq, Structural, Debug)]
pub struct MessageInfo(pub u64);

/// A thread's IPC buffer.
pub struct IPCBuffer {
    pub tag: MessageInfo,
    pub msg: [u64; MSG_MAX_LENGTH],
    pub user_data: u64,
    pub caps_or_badges: [u64; MSG_MAX_EXTRA_CAPS],
    pub recv_cnode: u64,
    pub recv_index: u64,
    pub recv_depth: u64,
}

} // verus!
