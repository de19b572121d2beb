//! The boot-info structure handed to the initial task, and the procedure
//! that fills its fixed fields into the carved boot-info frame.
use crate::addr::VAddr;
use crate::boot::NdksBoot;
use crate::consts::{
    RootCNodeCapSlots, MAX_NUM_BOOTINFO_UNTYPED_CAPS, ROOT_CNODE_SIZE_BITS,
};
use crate::root_server::RootServerMem;
use crate::tcb::DomainSchedule;
use vstd::prelude::*;

verus! {

/// A dense range of capability slots, half-open.
#[derive(Clone, Copy, PartialEq, Eq, Structural, Debug)]
pub struct SlotRegion {
    pub start: usize,
    pub end: usize,
}

/// Describes one untyped object handed to the initial task.
#[derive(Clone, Copy, PartialEq, Eq, Structural, Debug)]
pub struct UntypedDesc {
    pub paddr: u64,
    pub size_bits: u8,
    pub is_device: u8,
}

/// Header in front of any extra boot info block.
#[derive(Clone, Copy, PartialEq, Eq, Structural, Debug)]
pub struct BootInfoHeader {
    pub id: u64,
    pub len: u64,
}

/// The boot-info structure: what the initial task learns about its
/// capabilities and memory.
pub struct BootInfo {
    pub extra_len: u64,
    pub node_id: u64,
    pub num_nodes: u64,
    pub num_io_pt_levels: u64,
    pub ipc_buffer: VAddr,
    pub empty: SlotRegion,
    pub shared_frames: SlotRegion,
    pub user_image_frames: SlotRegion,
    pub user_image_paging: SlotRegion,
    pub io_space_caps: SlotRegion,
    pub extra_bi_pages: SlotRegion,
    pub it_cnode_size_bits: u64,
    pub it_domain: u64,
    pub untyped: SlotRegion,
    pub untyped_list: Vec<UntypedDesc>,
}

/// The slot region `[0, 0)`: no slots.
pub open spec fn empty_slot_region() -> SlotRegion {
    SlotRegion { start: 0usize, end: 0usize }
}

impl BootInfo {
    /// Every field zeroed, as the frame's memory is before population.
    pub open spec fn is_zeroed(self) -> bool {
        &&& self.extra_len == 0
        &&& self.node_id == 0
        &&& self.num_nodes == 0
        &&& self.num_io_pt_levels == 0
        &&& self.ipc_buffer.0 == 0
        &&& self.empty == empty_slot_region()
        &&& self.shared_frames == empty_slot_region()
        &&& self.user_image_frames == empty_slot_region()
        &&& self.user_image_paging == empty_slot_region()
        &&& self.io_space_caps == empty_slot_region()
        &&& self.extra_bi_pages == empty_slot_region()
        &&& self.it_cnode_size_bits == 0
        &&& self.it_domain == 0
        &&& self.untyped == empty_slot_region()
        &&& self.untyped_list@.len() == MAX_NUM_BOOTINFO_UNTYPED_CAPS
        &&& forall|i: int|
            0 <= i < MAX_NUM_BOOTINFO_UNTYPED_CAPS ==> self.untyped_list@[i] == (UntypedDesc {
                paddr: 0u64,
                size_bits: 0u8,
                is_device: 0u8,
            })
    }

    /// A zero-filled boot info, as the carved frame holds it.
    pub fn zeroed() -> (r: Self)
        ensures
            r.is_zeroed(),
    {
        let mut untyped_list: Vec<UntypedDesc> = Vec::new();
        let mut i: usize = 0;
        while i < MAX_NUM_BOOTINFO_UNTYPED_CAPS
            invariant
                i <= MAX_NUM_BOOTINFO_UNTYPED_CAPS,
                untyped_list@.len() == i,
                forall|j: int|
                    0 <= j < i ==> untyped_list@[j] == (UntypedDesc {
                        paddr: 0u64,
                        size_bits: 0u8,
                        is_device: 0u8,
                    }),
            decreases MAX_NUM_BOOTINFO_UNTYPED_CAPS - i,
        {
            untyped_list.push(UntypedDesc { paddr: 0, size_bits: 0, is_device: 0 });
            i = i + 1;
        }
        BootInfo {
            extra_len: 0,
            node_id: 0,
            num_nodes: 0,
            num_io_pt_levels: 0,
            ipc_buffer: VAddr(0),
            empty: SlotRegion { start: 0, end: 0 },
            shared_frames: SlotRegion { start: 0, end: 0 },
            user_image_frames: SlotRegion { start: 0, end: 0 },
            user_image_paging: SlotRegion { start: 0, end: 0 },
            io_space_caps: SlotRegion { start: 0, end: 0 },
            extra_bi_pages: SlotRegion { start: 0, end: 0 },
            it_cnode_size_bits: 0,
            it_domain: 0,
            untyped: SlotRegion { start: 0, end: 0 },
            untyped_list,
        }
    }
}

/// Fill the boot-info frame: zero it, then set the fixed fields, record
/// the frame's address in the registry, and move the slot cursor past the
/// well-known slots so dynamically minted capabilities follow them.
pub fn populate_bi_frame(
    root_server_mem: &RootServerMem,
    node_id: u64,
    num_nodes: u64,
    ipcbuf_vptr: VAddr,
    extra_bi_size: u64,
    dom_schedule: &DomainSchedule,
    ndks: &mut NdksBoot,
) -> (bi: BootInfo)
    ensures
        bi.node_id == node_id,
        bi.num_nodes == num_nodes,
        bi.num_io_pt_levels == 0,
        bi.ipc_buffer == ipcbuf_vptr,
        bi.it_cnode_size_bits == ROOT_CNODE_SIZE_BITS,
        bi.it_domain == dom_schedule.domain,
        bi.extra_len == extra_bi_size,
        bi.empty == empty_slot_region(),
        bi.shared_frames == empty_slot_region(),
        bi.user_image_frames == empty_slot_region(),
        bi.user_image_paging == empty_slot_region(),
        bi.io_space_caps == empty_slot_region(),
        bi.extra_bi_pages == empty_slot_region(),
        bi.untyped == empty_slot_region(),
        bi.untyped_list@.len() == MAX_NUM_BOOTINFO_UNTYPED_CAPS,
        forall|i: int|
            0 <= i < MAX_NUM_BOOTINFO_UNTYPED_CAPS ==> bi.untyped_list@[i] == (UntypedDesc {
                paddr: 0u64,
                size_bits: 0u8,
                is_device: 0u8,
            }),
        final(ndks).bi_frame.0 == root_server_mem.boot_info.0,
        final(ndks).slot_pos_cur == RootCNodeCapSlots::NumInitialCaps.index_spec(),
        final(ndks).reserved == old(ndks).reserved,
        final(ndks).reserved_count == old(ndks).reserved_count,
        final(ndks).freemem == old(ndks).freemem,
{
    let mut bi = BootInfo::zeroed();
    bi.node_id = node_id;
    bi.num_nodes = num_nodes;
    bi.num_io_pt_levels = 0;
    bi.ipc_buffer = ipcbuf_vptr;
    bi.it_cnode_size_bits = ROOT_CNODE_SIZE_BITS;
    bi.it_domain = dom_schedule.domain;
    bi.extra_len = extra_bi_size;
    ndks.bi_frame = VAddr(root_server_mem.boot_info.raw());
    ndks.slot_pos_cur = RootCNodeCapSlots::NumInitialCaps.index();
    bi
}

} // verus!
