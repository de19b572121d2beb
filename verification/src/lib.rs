//! Early-boot subsystem of a capability-based microkernel, modeled for
//! verification: address and region algebra, the free-memory registry,
//! the root-server layout allocator, the capability space, and the
//! four-level page-table builder.
pub mod addr;
pub mod consts;
pub mod cspace;
pub mod platform;
pub mod pte;
pub mod asid;
pub mod boot;
pub mod boot_info;
pub mod cap;
pub mod fault;
pub mod ipc;
pub mod irq;
pub mod mdb;
pub mod mem;
pub mod objects;
pub mod region_vec;
pub mod root_server;
pub mod tcb;
pub mod vspace;
