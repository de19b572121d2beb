//! Page-table entry, capability, capability-space and address-space
//! builder tests.
use kernel_boot::addr::{KAddr, KVirtRegion, PAddr, VAddr, VirtRegion};
use kernel_boot::asid::{bind_asid, AsidPool, AsidTable};
use kernel_boot::boot::NdksBoot;
use kernel_boot::boot_info::{populate_bi_frame, BootInfo};
use kernel_boot::cap::{AsidMapVSpace, CNodeCap, CapTrait, PageTableCap, VSpaceCap};
use kernel_boot::consts::RootCNodeCapSlots;
use kernel_boot::cspace::CNode;
use kernel_boot::irq::{init_irqs, IrqState};
use kernel_boot::mdb::MDBNode;
use kernel_boot::pte::{PTEFlags, PTE, PTE_AF, PTE_ATTR_INDX, PTE_NG, PTE_PXN, PTE_VALID};
use kernel_boot::root_server::{create_rootserver_objects, RootServerMem};
use kernel_boot::tcb::DomainScheduleState;
use kernel_boot::vspace::{GlobalPageTable, PTMem, VSpace};

const PPTR_BASE: u64 = 0xFFFF_FF80_0000_0000;
const BOOT_FLAGS: u64 = PTE_VALID | PTE_AF | PTE_ATTR_INDX | PTE_NG;

#[test]
fn pte_encodes_flags_and_address() {
    let t = PTE::new_table(0x4000_1000);
    assert_eq!(t.0, 0x4000_1003);
    assert!(t.is_valid());
    assert!(t.is_table());
    assert_eq!(t.address(), 0x4000_1000);
    let p = PTE::new_page(0x20_0000, PTEFlags::new(BOOT_FLAGS));
    assert_eq!(p.0, 0x20_0000 | 0xC1D);
    assert!(p.is_valid());
    assert!(!p.is_table());
    assert_eq!(p.address(), 0x20_0000);
    assert_eq!(p.flags().bits(), 0xC1D);
}

#[test]
fn mdb_node_flag_bits_never_alias_the_link() {
    let mut n: MDBNode<u64> = MDBNode::new(7);
    n.set_next(0x1000);
    n.set_revocable(true);
    n.set_first_badged(true);
    assert_eq!(n.next(), 0x1000);
    assert!(n.revocable());
    assert!(n.first_badge());
    n.set_next(0x2000);
    assert!(n.revocable());
    assert!(n.first_badge());
    n.set_revocable(false);
    assert_eq!(n.next(), 0x2000);
    assert!(!n.revocable());
    assert!(n.first_badge());
    n.set_prev(0x3000);
    assert_eq!(n.prev(), 0x3000);
    assert_eq!(n.value, 7);
}

#[test]
fn cnode_write_sets_fresh_revocable_linkage() {
    let mut cnode = CNode::new(VAddr(0x1000));
    assert_eq!(cnode.slots.len(), 4096);
    let cap = CNodeCap::empty().with_cnode_radix(12).with_cnode_guard_size(52).with_cnode_ptr(
        0x1000,
    );
    cnode.write(2, &cap);
    let slot = &cnode.slots[2];
    assert_eq!(slot.value.0, cap.raw_cap().0);
    assert_eq!(slot.next, 3);
    assert_eq!(slot.prev, 0);
    // Untouched slots stay empty.
    assert_eq!(cnode.slots[3].value.0, [0, 0]);
}

#[test]
fn cnode_cap_packs_its_fields() {
    let cap = CNodeCap::empty().with_cnode_radix(12).with_cnode_guard_size(52).with_cnode_ptr(
        0xABCD,
    );
    let raw = cap.raw_cap();
    assert_eq!(raw.0[0], 1 | (12 << 5) | (52 << 11));
    assert_eq!(raw.0[1], 0xABCD);
}

#[test]
fn kernel_window_mapping_covers_the_window_in_blocks() {
    let mut gpt = GlobalPageTable::new();
    let base = PAddr(0x4100_0000);
    gpt.map_kernel_window(base);
    assert_eq!(gpt.pgd[511].0, (0x4100_0000 + 0x2000) | 3);
    assert_eq!(gpt.pud[0].0, (0x4100_0000 + 0x3000) | 3);
    assert_eq!(gpt.pud[511].0, (0x4100_0000 + 0x3000 + 511 * 0x1000) | 3);
    assert_eq!(gpt.pds[0].0, BOOT_FLAGS);
    assert_eq!(gpt.pds[1].0, 0x20_0000 | BOOT_FLAGS);
    let last = 512 * 512 - 1;
    assert_eq!(gpt.pds[last].0, (last as u64) * 0x20_0000 | BOOT_FLAGS);
    assert_eq!(gpt.pgd[0].0, 0);
    assert_eq!(gpt.pt[0].0, 0);
}

/// A small bootstrap state around a fresh address-space root.
fn setup() -> (CNode, RootServerMem, NdksBoot, PTMem, BootInfo, VirtRegion) {
    let it_v_reg = VirtRegion { start: VAddr(0x40_0000), end: VAddr(0x40_1000) };
    let start = KAddr(PPTR_BASE + 0x4000_0000);
    let mut rsm = create_rootserver_objects(start, it_v_reg, 0);
    let mut ndks = NdksBoot::empty();
    let mut mem = PTMem::new();
    mem.insert_zeroed(rsm.vspace);
    let dom = DomainScheduleState::initial();
    let bi = populate_bi_frame(&rsm, 0, 1, VAddr(0x41_0000), 0, &dom.current(), &mut ndks);
    rsm.create_root_cnode();
    let cnode = std::mem::replace(&mut rsm.cnode, CNode::new(VAddr(0)));
    (cnode, rsm, ndks, mem, bi, it_v_reg)
}

#[test]
fn populate_bi_frame_sets_fixed_fields() {
    let (_, rsm, ndks, _, bi, _) = setup();
    assert_eq!(bi.node_id, 0);
    assert_eq!(bi.num_nodes, 1);
    assert_eq!(bi.ipc_buffer.0, 0x41_0000);
    assert_eq!(bi.it_cnode_size_bits, 12);
    assert_eq!(bi.it_domain, 0);
    assert_eq!(bi.extra_len, 0);
    assert_eq!(bi.untyped_list.len(), 230);
    assert_eq!(ndks.bi_frame.0, rsm.boot_info.0);
    assert_eq!(ndks.slot_pos_cur, 16);
}

#[test]
fn address_space_creation_mints_one_capability_per_level() {
    let (mut cnode, mut rsm, mut ndks, mut mem, mut bi, it_v_reg) = setup();
    let root = rsm.vspace;
    let pg0 = rsm.paging.start.0;
    let vcap = cnode.create_it_address_space(
        &mut rsm.paging,
        root,
        &mut ndks,
        &mut mem,
        &mut bi,
        it_v_reg,
    );
    assert_eq!(vcap.get_vs_base_ptr(), root);
    assert_eq!(vcap.get_vs_mapped_asid(), 1);
    assert!(vcap.get_vs_is_mapped());
    // Exactly one page-table capability per level below the root.
    assert_eq!(ndks.slot_pos_cur, 19);
    assert_eq!(bi.user_image_paging.start, 16);
    assert_eq!(bi.user_image_paging.end, 19);
    // The root capability sits in its well-known slot.
    assert_eq!(cnode.slots[3].value.0, vcap.raw_cap().0);
    // Each minted capability records its backing page and mapped address.
    let expected = [
        PageTableCap::empty().with_pt_base_ptr(KAddr(pg0)).with_pt_is_mapped(true)
            .with_pt_mapped_asid(1).with_pt_mapped_address(0),
        PageTableCap::empty().with_pt_base_ptr(KAddr(pg0 + 4096)).with_pt_is_mapped(true)
            .with_pt_mapped_asid(1).with_pt_mapped_address(0),
        PageTableCap::empty().with_pt_base_ptr(KAddr(pg0 + 8192)).with_pt_is_mapped(true)
            .with_pt_mapped_asid(1).with_pt_mapped_address(0x40_0000),
    ];
    for (i, cap) in expected.iter().enumerate() {
        assert_eq!(cnode.slots[16 + i].value.0, cap.raw_cap().0);
    }
    // The paging region was consumed exactly.
    assert_eq!(rsm.paging.start.0, pg0 + 3 * 4096);
    assert_eq!(rsm.paging.start, rsm.paging.end);
    // The installed hierarchy walks from the root down to the leaf table.
    let e3 = mem.get_entry(root.0, 0);
    assert!(e3.is_table());
    assert_eq!(e3.address() + PPTR_BASE, pg0);
    let e2 = mem.get_entry(pg0, 0);
    assert_eq!(e2.address() + PPTR_BASE, pg0 + 4096);
    let e1 = mem.get_entry(pg0 + 4096, 2);
    assert_eq!(e1.address() + PPTR_BASE, pg0 + 8192);
}

#[test]
fn single_frame_mapping_mints_one_frame_capability() {
    let (mut cnode, mut rsm, mut ndks, mut mem, mut bi, it_v_reg) = setup();
    let root = rsm.vspace;
    let pg0 = rsm.paging.start.0;
    let vcap = cnode.create_it_address_space(
        &mut rsm.paging,
        root,
        &mut ndks,
        &mut mem,
        &mut bi,
        it_v_reg,
    );
    // Map the task's single image page through all four freshly built
    // levels.
    let frame_kaddr = KAddr(PPTR_BASE + 0x4100_0000);
    let reg = KVirtRegion { start: frame_kaddr, end: KAddr(frame_kaddr.0 + 4096) };
    let pv_offset = frame_kaddr.0 - PPTR_BASE - 0x40_0000;
    let before = ndks.slot_pos_cur;
    let sr = cnode
        .create_frames_of_region(&mut ndks, &mut mem, &vcap, reg, true, pv_offset)
        .unwrap();
    assert_eq!(sr.start, before);
    assert_eq!(sr.end, before + 1);
    assert_eq!(ndks.slot_pos_cur, before + 1);
    let frame = &cnode.slots[before].value;
    // The frame capability records base, size, mapped address and ASID.
    let expected = kernel_boot::cap::FrameCap::empty().with_mapped_asid(1).with_base_ptr(
        frame_kaddr,
    ).with_size(4096).with_mapped_address(0x40_0000).with_is_device(false).with_fvm_rights(2);
    assert_eq!(frame.0, expected.raw_cap().0);
    // The leaf entry maps the frame's physical page, execute allowed.
    let e0 = mem.get_entry(pg0 + 8192, 0);
    assert_eq!(e0.0, 0x4100_0000 | BOOT_FLAGS);
    assert!(e0.is_valid());
}

#[test]
fn boot_info_frame_mapping_is_not_executable() {
    let (mut cnode, mut rsm, mut ndks, mut mem, mut bi, it_v_reg) = setup();
    let root = rsm.vspace;
    let pg0 = rsm.paging.start.0;
    let vcap = cnode.create_it_address_space(
        &mut rsm.paging,
        root,
        &mut ndks,
        &mut mem,
        &mut bi,
        it_v_reg,
    );
    cnode.create_bi_frame_cap(&mut mem, &mut rsm, &vcap, VAddr(0x40_0000));
    let slot = &cnode.slots[RootCNodeCapSlots::BootInfoFrame.index()].value;
    let expected = kernel_boot::cap::FrameCap::empty().with_mapped_asid(1).with_base_ptr(
        rsm.boot_info,
    ).with_size(4096).with_mapped_address(0x40_0000).with_is_device(false).with_fvm_rights(2);
    assert_eq!(slot.0, expected.raw_cap().0);
    let e0 = mem.get_entry(pg0 + 8192, 0);
    assert_eq!(e0.0, (rsm.boot_info.0 - PPTR_BASE) | BOOT_FLAGS | PTE_PXN);
}

#[test]
fn ipc_buffer_cap_lands_in_its_slot() {
    let (mut cnode, mut rsm, mut ndks, mut mem, mut bi, it_v_reg) = setup();
    let root = rsm.vspace;
    let vcap = cnode.create_it_address_space(
        &mut rsm.paging,
        root,
        &mut ndks,
        &mut mem,
        &mut bi,
        it_v_reg,
    );
    let cap = cnode.create_ipcbuf_frame_cap(&mut mem, &mut rsm, &vcap, VAddr(0x40_0000));
    assert_eq!(cap.get_base_ptr(), rsm.ipc_buf);
    assert_eq!(cap.get_mapped_address(), 0x40_0000);
    let slot = &cnode.slots[RootCNodeCapSlots::InitThreadIPCBuffer.index()].value;
    assert_eq!(slot.0, cap.raw_cap().0);
}

#[test]
fn asid_pool_caps_land_in_their_slots() {
    let (mut cnode, mut rsm, _, _, _, _) = setup();
    let cap = cnode.create_it_asid_pool(&mut rsm);
    assert_eq!(cap.get_asid_base(), 0);
    assert_eq!(cap.get_asid_pool(), rsm.asid_pool.0);
    let pool_slot = &cnode.slots[RootCNodeCapSlots::InitThreadASIDPool.index()].value;
    assert_eq!(pool_slot.0, cap.raw_cap().0);
    let ctrl_slot = &cnode.slots[RootCNodeCapSlots::ASIDControl.index()].value;
    assert_eq!(ctrl_slot.0, [5, 0]);
}

#[test]
fn root_cnode_names_itself() {
    let (cnode, _, _, _, _, _) = setup();
    let slot = &cnode.slots[RootCNodeCapSlots::InitThreadCNode.index()].value;
    let expected = CNodeCap::empty().with_cnode_radix(12).with_cnode_guard_size(52)
        .with_cnode_ptr(cnode.addr.0);
    assert_eq!(slot.0, expected.raw_cap().0);
}

#[test]
fn domain_cap_lands_in_its_slot() {
    let (mut cnode, _, _, _, _, _) = setup();
    cnode.create_domain_cap();
    assert_eq!(cnode.slots[RootCNodeCapSlots::Domain.index()].value.0, [7, 0]);
}

#[test]
fn irq_setup_marks_only_the_timer() {
    let mut cnode = CNode::new(VAddr(0x1000));
    let table = init_irqs(&mut cnode);
    assert_eq!(table.states.len(), 160);
    assert_eq!(table.states[1], IrqState::IRQTimer);
    assert_eq!(table.states[0], IrqState::IRQInactive);
    assert_eq!(table.states[159], IrqState::IRQInactive);
    assert_eq!(cnode.slots[RootCNodeCapSlots::IRQControl.index()].value.0, [8, 0]);
}

#[test]
fn asid_binding_records_pool_and_root() {
    let mut table = AsidTable::new();
    let mut pool = AsidPool::new();
    let pool_base = KAddr(PPTR_BASE + 0x5000_0000);
    bind_asid(&mut table, &mut pool, pool_base, 1, 0x4800_0000);
    assert_eq!(pool.slots[1], AsidMapVSpace { vspace_root: 0x4800_0000 });
    assert_eq!(pool.slots[0], AsidMapVSpace { vspace_root: 0 });
    assert_eq!(table.pools[0], pool_base);
    assert_eq!(table.pools[1], KAddr(0));
}

#[test]
fn vspace_cap_round_trips_its_fields() {
    let cap = VSpaceCap::empty().with_vs_mapped_asid(1).with_vs_base_ptr(KAddr(0x1234))
        .with_vs_is_mapped(true);
    assert_eq!(cap.get_vs_mapped_asid(), 1);
    assert_eq!(cap.get_vs_base_ptr(), KAddr(0x1234));
    assert!(cap.get_vs_is_mapped());
    let vs = VSpace::new(KAddr(0x9000));
    assert_eq!(vs.vspace_addr(), KAddr(0x9000));
}

#[test]
fn large_frame_mapping_uses_the_large_page_size() {
    let (_, mut rsm, mut ndks, mut mem, mut bi, it_v_reg) = setup();
    let root = rsm.vspace;
    let mut cnode_local = CNode::new(VAddr(0x2000));
    let _ = cnode_local.create_it_address_space(
        &mut rsm.paging,
        root,
        &mut ndks,
        &mut mem,
        &mut bi,
        it_v_reg,
    );
    let mut vs = VSpace::new(root);
    let cap = vs.create_mapped_it_frame_cap(
        &mut mem,
        KAddr(PPTR_BASE + 0x4200_0000),
        VAddr(0x40_0000),
        1,
        true,
        false,
    );
    // A large page is 2 MiB.
    assert_eq!(cap.get_size(), 1 << 21);
}

#[test]
fn two_page_region_maps_both_leaf_entries() {
    let it_v_reg = VirtRegion { start: VAddr(0x40_0000), end: VAddr(0x40_2000) };
    let start = KAddr(PPTR_BASE + 0x4000_0000);
    let mut rsm = create_rootserver_objects(start, it_v_reg, 0);
    let mut ndks = NdksBoot::empty();
    let mut mem = PTMem::new();
    mem.insert_zeroed(rsm.vspace);
    let dom = DomainScheduleState::initial();
    let mut bi = populate_bi_frame(&rsm, 0, 1, VAddr(0x41_0000), 0, &dom.current(), &mut ndks);
    rsm.create_root_cnode();
    let mut cnode = std::mem::replace(&mut rsm.cnode, CNode::new(VAddr(0)));
    let root = rsm.vspace;
    let pg0 = rsm.paging.start.0;
    let vcap = cnode.create_it_address_space(
        &mut rsm.paging,
        root,
        &mut ndks,
        &mut mem,
        &mut bi,
        it_v_reg,
    );
    let reg = KVirtRegion {
        start: KAddr(PPTR_BASE + 0x4100_0000),
        end: KAddr(PPTR_BASE + 0x4100_2000),
    };
    let pv_offset = 0x4100_0000 - 0x40_0000;
    let before = ndks.slot_pos_cur;
    let sr = cnode
        .create_frames_of_region(&mut ndks, &mut mem, &vcap, reg, true, pv_offset)
        .unwrap();
    assert_eq!(sr.end - sr.start, 2);
    assert_eq!(ndks.slot_pos_cur, before + 2);
    // Both pages of the shared leaf table carry their descriptors.
    let e0 = mem.get_entry(pg0 + 8192, 0);
    let e1 = mem.get_entry(pg0 + 8192, 1);
    assert_eq!(e0.0, 0x4100_0000 | BOOT_FLAGS);
    assert_eq!(e1.0, 0x4100_1000 | BOOT_FLAGS);
}
