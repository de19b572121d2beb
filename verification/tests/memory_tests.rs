//! Free-memory registry, root-server allocator and address algebra tests.
use kernel_boot::addr::{KAddr, KVirtRegion, PAddr, PhysRegion, VAddr, VirtRegion};
use kernel_boot::boot::{init_free_mem, sweep_free_memory, BootError, NdksBoot};
use kernel_boot::mem::{arch_get_n_paging, arch_init_free_mem};
use kernel_boot::root_server::{
    calculate_rootserver_size, create_rootserver_objects, rootserver_max_size_bits,
};

const PPTR_BASE: u64 = 0xFFFF_FF80_0000_0000;

#[test]
fn round_trip_addressing() {
    for raw in [0u64, 0x1000, 0x4000_0000, 0x7F_FFFF_F000] {
        let p = PAddr(raw);
        assert_eq!(p.pptr().paddr(), p);
    }
}

#[test]
fn kernel_window_translation_is_addition() {
    let p = PAddr(0x4000_0000);
    assert_eq!(p.pptr().0, 0x4000_0000 + PPTR_BASE);
}

#[test]
fn alignment_operators() {
    assert_eq!(VAddr(0x1F_F123).align_down(21).0, 0);
    assert_eq!(VAddr(0x1F_F123).align_up(21).0, 0x20_0000);
    assert_eq!(VAddr(0x20_0000).align_up(21).0, 0x20_0000);
    assert_eq!(VAddr(0x20_0001).align_down(12).0, 0x20_0000);
}

#[test]
fn reserve_merges_adjacent_regions() {
    let mut nb = NdksBoot::empty();
    assert!(nb.reserve_region(PhysRegion { start: PAddr(10), end: PAddr(20) }));
    assert!(nb.reserve_region(PhysRegion { start: PAddr(30), end: PAddr(40) }));
    assert!(nb.reserve_region(PhysRegion { start: PAddr(20), end: PAddr(30) }));
    assert_eq!(nb.reserved_count, 1);
    assert_eq!(nb.reserved[0].start.0, 10);
    assert_eq!(nb.reserved[0].end.0, 40);
}

#[test]
fn reserve_keeps_list_sorted_regardless_of_order() {
    let mut nb = NdksBoot::empty();
    assert!(nb.reserve_region(PhysRegion { start: PAddr(0x3000), end: PAddr(0x4000) }));
    assert!(nb.reserve_region(PhysRegion { start: PAddr(0x1000), end: PAddr(0x1800) }));
    assert!(nb.reserve_region(PhysRegion { start: PAddr(0x2000), end: PAddr(0x2800) }));
    assert_eq!(nb.reserved_count, 3);
    for i in 0..nb.reserved_count - 1 {
        assert!(nb.reserved[i].end.0 < nb.reserved[i + 1].start.0);
    }
    assert_eq!(nb.reserved[0].start.0, 0x1000);
    assert_eq!(nb.reserved[1].start.0, 0x2000);
    assert_eq!(nb.reserved[2].start.0, 0x3000);
}

#[test]
fn reserve_drops_when_list_is_full() {
    let mut nb = NdksBoot::empty();
    // Nine disjoint regions fill the list up to its insertion limit.
    for i in 0..9u64 {
        assert!(nb.reserve_region(PhysRegion {
            start: PAddr(i * 0x1000),
            end: PAddr(i * 0x1000 + 0x800),
        }));
    }
    assert_eq!(nb.reserved_count, 9);
    // A tenth disjoint region no longer fits and is dropped.
    let dropped = nb.reserve_region(PhysRegion {
        start: PAddr(0x10_0000),
        end: PAddr(0x10_0800),
    });
    assert!(!dropped);
    assert_eq!(nb.reserved_count, 9);
    // A region that merges into an existing entry is still recorded.
    assert!(nb.reserve_region(PhysRegion { start: PAddr(0x800), end: PAddr(0x1000) }));
    assert_eq!(nb.reserved_count, 8);
}

#[test]
fn empty_region_reservation_is_a_no_op() {
    let mut nb = NdksBoot::empty();
    assert!(nb.reserve_region(PhysRegion { start: PAddr(0x100), end: PAddr(0x100) }));
    assert_eq!(nb.reserved_count, 0);
}

fn demo_inputs() -> (Vec<PhysRegion>, Vec<KVirtRegion>) {
    let availables = vec![PhysRegion { start: PAddr(0x4000_0000), end: PAddr(0x8000_0000) }];
    let kernel = PhysRegion { start: PAddr(0x4000_0000), end: PAddr(0x4010_0000) };
    let ui = PhysRegion { start: PAddr(0x4010_0000), end: PAddr(0x4020_0000) };
    let reserveds = vec![kernel.pptr(), ui.pptr()];
    (availables, reserveds)
}

#[test]
fn sweep_splits_free_memory_around_reservations() {
    let (availables, reserveds) = demo_inputs();
    let nb = sweep_free_memory(&availables, &reserveds).unwrap();
    assert_eq!(nb.reserved_count, 1);
    assert_eq!(nb.reserved[0].start.0, 0x4000_0000);
    assert_eq!(nb.reserved[0].end.0, 0x4020_0000);
    assert_eq!(nb.freemem.len(), 1);
    assert_eq!(nb.freemem[0].start.0, 0x4020_0000 + PPTR_BASE);
    assert_eq!(nb.freemem[0].end.0, 0x8000_0000 + PPTR_BASE);
}

#[test]
fn sweep_conserves_every_byte() {
    let availables = vec![
        PhysRegion { start: PAddr(0x4000_0000), end: PAddr(0x5000_0000) },
        PhysRegion { start: PAddr(0x6000_0000), end: PAddr(0x6800_0000) },
    ];
    let reserveds = vec![
        PhysRegion { start: PAddr(0x4100_0000), end: PAddr(0x4200_0000) }.pptr(),
        PhysRegion { start: PAddr(0x6100_0000), end: PAddr(0x6200_0000) }.pptr(),
    ];
    let nb = sweep_free_memory(&availables, &reserveds).unwrap();
    let free_total: u64 = (0..nb.freemem.len())
        .map(|i| nb.freemem[i].end.0 - nb.freemem[i].start.0)
        .sum();
    let resv_total: u64 = (0..nb.reserved_count)
        .map(|i| nb.reserved[i].end.0 - nb.reserved[i].start.0)
        .sum();
    let avail_total: u64 = availables.iter().map(|r| r.end.0 - r.start.0).sum();
    assert_eq!(free_total + resv_total, avail_total);
}

#[test]
fn carve_fails_when_no_region_is_big_enough() {
    let availables = vec![PhysRegion { start: PAddr(0x4000_0000), end: PAddr(0x4004_0000) }];
    let reserveds: Vec<KVirtRegion> = Vec::new();
    let mut nb = sweep_free_memory(&availables, &reserveds).unwrap();
    let before: Vec<(u64, u64)> = (0..nb.freemem.len())
        .map(|i| (nb.freemem[i].start.0, nb.freemem[i].end.0))
        .collect();
    // The only free region holds 256 KiB; ask for 1 MiB.
    let r = nb.carve_rootserver_block(0x10_0000, 17);
    assert_eq!(r, Err(BootError::NoRootServerRegion));
    // No partial state: the free list is exactly as before.
    let after: Vec<(u64, u64)> = (0..nb.freemem.len())
        .map(|i| (nb.freemem[i].start.0, nb.freemem[i].end.0))
        .collect();
    assert_eq!(before, after);
}

#[test]
fn carve_takes_top_of_highest_region() {
    let (availables, reserveds) = demo_inputs();
    let mut nb = sweep_free_memory(&availables, &reserveds).unwrap();
    let addr = nb.carve_rootserver_block(0x4_0000, 17).unwrap();
    assert_eq!(addr.0 % (1u64 << 17), 0);
    // The block sits at the aligned top of the free region.
    assert_eq!(addr.0, (0x8000_0000u64 + PPTR_BASE - 0x4_0000) & !((1u64 << 17) - 1));
}

#[test]
fn paging_object_counts_across_one_boundary() {
    // A region spanning exactly one 2-MiB boundary: one table at each of
    // the two upper levels, two leaf tables.
    let reg = VirtRegion { start: VAddr(0x1F_F000), end: VAddr(0x20_1000) };
    assert_eq!(kernel_boot::boot::get_n_paging(reg, 39), 1);
    assert_eq!(kernel_boot::boot::get_n_paging(reg, 30), 1);
    assert_eq!(kernel_boot::boot::get_n_paging(reg, 21), 2);
    assert_eq!(arch_get_n_paging(reg), 4);
}

#[test]
fn rootserver_size_formula() {
    // One page of initial task image: one paging object per level.
    let reg = VirtRegion { start: VAddr(0x40_0000), end: VAddr(0x40_1000) };
    assert_eq!(arch_get_n_paging(reg), 3);
    let size = calculate_rootserver_size(reg, 0);
    assert_eq!(size, (1 << 17) + (1 << 11) + 4 * (1 << 12) + 3 * (1 << 12));
    assert_eq!(rootserver_max_size_bits(0), 17);
    assert_eq!(rootserver_max_size_bits(20), 20);
}

#[test]
fn rootserver_objects_are_aligned_and_exhaust_the_block() {
    let reg = VirtRegion { start: VAddr(0x40_0000), end: VAddr(0x40_1000) };
    let size = calculate_rootserver_size(reg, 0);
    let start = KAddr(PPTR_BASE + 0x4000_0000);
    let rsm = create_rootserver_objects(start, reg, 0);
    assert_eq!(rsm.cnode.cnode_addr().0 % (1 << 17), 0);
    assert_eq!(rsm.vspace.0 % (1 << 12), 0);
    assert_eq!(rsm.asid_pool.0 % (1 << 12), 0);
    assert_eq!(rsm.ipc_buf.0 % (1 << 12), 0);
    assert_eq!(rsm.boot_info.0 % (1 << 12), 0);
    assert_eq!(rsm.paging.start.0 % (1 << 12), 0);
    assert_eq!(rsm.tcb.0 % (1 << 11), 0);
    assert_eq!(rsm.extra_bi.0, 0);
    // The bump cursor finished exactly at the block's end.
    assert_eq!(rsm.tcb.0 + (1 << 11), start.0 + size);
    // Three pages of page-table working storage.
    assert_eq!(rsm.paging.end.0 - rsm.paging.start.0, 3 * 4096);
}

#[test]
fn rootserver_extra_boot_info_placement() {
    let reg = VirtRegion { start: VAddr(0x40_0000), end: VAddr(0x40_1000) };
    // A dominating extra block comes first.
    let start = KAddr(PPTR_BASE + 0x4000_0000);
    let rsm = create_rootserver_objects(start, reg, 18);
    assert_eq!(rsm.extra_bi.0, start.0);
    assert_eq!(rsm.cnode.cnode_addr().0, start.0 + (1 << 18));
    // A smaller one lands right after the capability node.
    let rsm2 = create_rootserver_objects(start, reg, 13);
    assert_eq!(rsm2.cnode.cnode_addr().0, start.0);
    assert_eq!(rsm2.extra_bi.0, start.0 + (1 << 17));
    assert_eq!(rsm2.extra_bi.0 % (1 << 13), 0);
}

#[test]
fn init_free_mem_carves_and_reports() {
    let (availables, reserveds) = demo_inputs();
    let it_v_reg = VirtRegion { start: VAddr(0x40_0000), end: VAddr(0x40_1000) };
    let (nb, rsm) = init_free_mem(&availables, &reserveds, it_v_reg, 0).unwrap();
    let size = calculate_rootserver_size(it_v_reg, 0);
    // The carved block was taken out of free memory.
    let free_total: u64 = (0..nb.freemem.len())
        .map(|i| nb.freemem[i].end.0 - nb.freemem[i].start.0)
        .sum();
    assert_eq!(free_total, 0x8000_0000 - 0x4020_0000 - size);
    assert_eq!(rsm.tcb.0 % (1 << 11), 0);
    assert_eq!(nb.reserved_count, 1);
}

#[test]
fn init_free_mem_fails_when_image_fills_memory() {
    // Available memory far too small for the root-server block.
    let availables = vec![PhysRegion { start: PAddr(0x4000_0000), end: PAddr(0x4001_0000) }];
    let reserveds: Vec<KVirtRegion> = Vec::new();
    let it_v_reg = VirtRegion { start: VAddr(0x40_0000), end: VAddr(0x40_1000) };
    let r = init_free_mem(&availables, &reserveds, it_v_reg, 0);
    assert_eq!(r.err().unwrap(), BootError::NoRootServerRegion);
}

#[test]
fn arch_setup_reserves_both_images() {
    let ui = PhysRegion { start: PAddr(0x4020_0000), end: PAddr(0x4030_0000) };
    let it_v_reg = VirtRegion { start: VAddr(0x20_0000), end: VAddr(0x31_2000) };
    let (nb, rsm) = arch_init_free_mem(ui, it_v_reg, 0, PAddr(0x4010_0000)).unwrap();
    // Kernel image and task image are separate reserved entries: a gap
    // lies between them.
    assert_eq!(nb.reserved_count, 2);
    assert_eq!(nb.reserved[0].start.0, 0x4000_0000);
    assert_eq!(nb.reserved[0].end.0, 0x4010_0000);
    assert_eq!(nb.reserved[1].start.0, 0x4020_0000);
    assert_eq!(nb.reserved[1].end.0, 0x4030_0000);
    // The root server was carved out of the top of free memory.
    assert!(rsm.paging.end.0 <= 0x8000_0000 + PPTR_BASE);
    assert_eq!(rsm.vspace.0 % 4096, 0);
}

#[test]
fn sweep_clips_memory_above_the_window_top() {
    // The second available region sits beyond the kernel window and is
    // clipped away entirely.
    let availables = vec![
        PhysRegion { start: PAddr(0x4000_0000), end: PAddr(0x5000_0000) },
        PhysRegion { start: PAddr(0x7F_D000_0000), end: PAddr(0x7F_E000_0000) },
    ];
    let reserveds: Vec<KVirtRegion> = Vec::new();
    let nb = sweep_free_memory(&availables, &reserveds).unwrap();
    assert_eq!(nb.freemem.len(), 1);
    assert_eq!(nb.freemem[0].start.0, 0x4000_0000 + PPTR_BASE);
    assert_eq!(nb.freemem[0].end.0, 0x5000_0000 + PPTR_BASE);
}

#[test]
fn sweep_fails_when_reserved_list_overflows() {
    let availables = vec![PhysRegion { start: PAddr(0x4000_0000), end: PAddr(0x8000_0000) }];
    // Ten separated reservations: one more than the list can hold.
    let reserveds: Vec<KVirtRegion> = (0..10u64)
        .map(|i| {
            PhysRegion {
                start: PAddr(0x4000_0000 + i * 0x10_0000),
                end: PAddr(0x4000_0000 + i * 0x10_0000 + 0x8_0000),
            }
            .pptr()
        })
        .collect();
    let r = sweep_free_memory(&availables, &reserveds);
    assert_eq!(r.err().unwrap(), BootError::TooManyReservedRegions);
}

#[test]
fn sweep_fails_when_free_list_overflows() {
    // Nine separated reservations split one region into ten free pieces;
    // the final slack check then finds the list full.
    let availables = vec![PhysRegion { start: PAddr(0x4000_0000), end: PAddr(0x8000_0000) }];
    let reserveds: Vec<KVirtRegion> = (0..9u64)
        .map(|i| {
            PhysRegion {
                start: PAddr(0x4100_0000 + i * 0x10_0000),
                end: PAddr(0x4100_0000 + i * 0x10_0000 + 0x8_0000),
            }
            .pptr()
        })
        .collect();
    let r = sweep_free_memory(&availables, &reserveds);
    assert_eq!(r.err().unwrap(), BootError::TooManyFreememRegions);
}

#[test]
fn sweep_skips_null_reservations() {
    // A null entry among the reservations is skipped, as the emptiness
    // test defines it.
    let availables = vec![PhysRegion { start: PAddr(0x4000_0000), end: PAddr(0x8000_0000) }];
    let kernel = PhysRegion { start: PAddr(0x4000_0000), end: PAddr(0x4010_0000) };
    let reserveds = vec![
        KVirtRegion { start: KAddr(0), end: KAddr(0) },
        kernel.pptr(),
        KVirtRegion { start: KAddr(0), end: KAddr(0) },
    ];
    let nb = sweep_free_memory(&availables, &reserveds).unwrap();
    assert_eq!(nb.reserved_count, 1);
    assert_eq!(nb.reserved[0].start.0, 0x4000_0000);
    assert_eq!(nb.reserved[0].end.0, 0x4010_0000);
    assert_eq!(nb.freemem.len(), 1);
    assert_eq!(nb.freemem[0].start.0, 0x4010_0000 + PPTR_BASE);
}

#[test]
fn empty_reservation_inside_an_entry_is_a_no_op() {
    let mut nb = NdksBoot::empty();
    assert!(nb.reserve_region(PhysRegion { start: PAddr(0x1000), end: PAddr(0x2000) }));
    // A zero-length region inside the recorded one changes nothing.
    assert!(nb.reserve_region(PhysRegion { start: PAddr(0x1800), end: PAddr(0x1800) }));
    assert_eq!(nb.reserved_count, 1);
    assert_eq!(nb.reserved[0].start.0, 0x1000);
    assert_eq!(nb.reserved[0].end.0, 0x2000);
}
