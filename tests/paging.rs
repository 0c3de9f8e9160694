use uhyvelib::consts::{
    GDT_OFFSET, MIN_PHYSMEM_SIZE, PAGETABLES_END, PAGETABLES_OFFSET, PDE_OFFSET, PDPTE_OFFSET,
    PML4_OFFSET, PTE_ADDR_MASK, PTE_HUGE_PAGE, PTE_PRESENT, PTE_WRITABLE,
};
use uhyvelib::mem::MmapMemory;
use uhyvelib::paging::{
    create_gdt_entry, initialize_pagetables, virt_to_phys, BumpAllocator, PagetableError,
    UhyvePageTable,
};

fn entry(mem: &MmapMemory, gpa: u64) -> u64 {
    mem.read_typed::<u64>(gpa).unwrap()
}

#[test]
fn test_pagetable_initialization() {
    let gaddrs = [0x0u64, 0x11120000, 0x111ff000, 0xe1120000];
    for &guest_address in gaddrs.iter() {
        let mut mem = MmapMemory::new((MIN_PHYSMEM_SIZE * 2) as usize,
            guest_address);
        initialize_pagetables(&mut mem);
        let root = guest_address + PML4_OFFSET;

        for address in [guest_address, guest_address + 3 * 0x20_0000] {
            // PML4 entry 0 points to the PDPTE
            let addr_pdpte = entry(&mem, root);
            assert!((addr_pdpte & PTE_ADDR_MASK) - guest_address >= PAGETABLES_OFFSET);
            assert!((addr_pdpte & PTE_ADDR_MASK) - guest_address <= PAGETABLES_END);
            assert_eq!(
                addr_pdpte & (PTE_PRESENT | PTE_WRITABLE),
                PTE_PRESENT | PTE_WRITABLE
            );

            // PDPTE entry 0 points to the page directory
            let addr_pde = entry(&mem, addr_pdpte & PTE_ADDR_MASK);
            assert!((addr_pde & PTE_ADDR_MASK) - guest_address >= PAGETABLES_OFFSET);
            assert!((addr_pde & PTE_ADDR_MASK) - guest_address <= PAGETABLES_END);
            assert_eq!(
                addr_pde & (PTE_PRESENT | PTE_WRITABLE),
                PTE_PRESENT | PTE_WRITABLE
            );

            if address < 0x4000_0000 {
                let idx2 = (address >> 21) & 0x1ff;
                let pde = entry(&mem, (addr_pde & PTE_ADDR_MASK) + 8 * idx2);
                assert_eq!(pde & PTE_ADDR_MASK, address & !0x1f_ffff);
                assert_eq!(virt_to_phys(address, &mem, root), Ok(address));
            } else {
                // only the first GiB is identity-mapped
                assert_eq!(
                    virt_to_phys(address, &mem, root),
                    Err(PagetableError::InvalidAddress)
                );
            }
        }

        // Test GDT
        let gdt_results = [0x0u64, 0xAF9B000000FFFF, 0xCF93000000FFFF];
        for (i, res) in gdt_results.iter().enumerate() {
            let gdt_addr = guest_address + GDT_OFFSET + i as u64 * 8;
            let bytes = mem.slice_at(gdt_addr, 8).unwrap();
            let gdt_entry = u64::from_le_bytes(bytes.try_into().unwrap());
            assert_eq!(*res, gdt_entry);
        }
    }
}

#[test]
fn test_bump_frame_allocator() {
    let mut ba = BumpAllocator::new(0x40_0000, 4);
    assert_eq!(ba.allocate_frame(), Some(0x40_0000));
    assert_eq!(ba.allocate_frame(), Some(0x40_1000));
    assert_eq!(ba.allocate_frame(), Some(0x40_2000));
    assert_eq!(ba.allocate_frame(), Some(0x40_3000));
    assert_eq!(ba.allocate_frame(), None);
}

#[test]
fn identity_map_of_the_first_gib() {
    let base = 0x11120000u64;
    let mut mem = MmapMemory::new(0x80_0000, base);
    initialize_pagetables(&mut mem);
    let root = base + PML4_OFFSET;
    let gva = base + 3 * 0x20_0000;
    let idx2 = (gva >> 21) & 0x1ff;
    let pde = entry(&mem, base + PDE_OFFSET + 8 * idx2);
    assert_eq!(pde & PTE_ADDR_MASK, gva & !0x1f_ffff);
    assert_eq!(pde & PTE_HUGE_PAGE, PTE_HUGE_PAGE);
    assert_eq!(virt_to_phys(gva, &mem, root), Ok(gva));
    for gva in [0u64, 0x1234, 0x20_0000, 0x3fff_ffff, 0x1234_5678] {
        assert_eq!(virt_to_phys(gva, &mem, root), Ok(gva));
    }
    assert_eq!(
        virt_to_phys(0x4000_0000, &mem, root),
        Err(PagetableError::InvalidAddress)
    );
}

#[test]
fn boot_tables_layout() {
    let base = 0x20_0000u64;
    let mut mem = MmapMemory::new(MIN_PHYSMEM_SIZE as usize, base);
    initialize_pagetables(&mut mem);
    assert_eq!(entry(&mem, base + PML4_OFFSET), (base + PDPTE_OFFSET) | 0x3);
    assert_eq!(entry(&mem, base + PML4_OFFSET + 8 * 511), (base + PML4_OFFSET) | 0x3);
    assert_eq!(entry(&mem, base + PML4_OFFSET + 8), 0);
    assert_eq!(entry(&mem, base + PDPTE_OFFSET), (base + PDE_OFFSET) | 0x3);
    assert_eq!(entry(&mem, base + PDE_OFFSET), 0x83);
    assert_eq!(entry(&mem, base + PDE_OFFSET + 8 * 511), 511 * 0x20_0000 + 0x83);
    // bytes outside the tables stay zero
    assert_eq!(entry(&mem, base), 0);
    assert_eq!(entry(&mem, base + 0x5000), 0);
}

#[test]
fn virt_to_phys_outside_memory() {
    let mem = MmapMemory::new(0x1000, 0x10_0000);
    assert_eq!(
        virt_to_phys(0x1000, &mem, 0x10_0000 + PML4_OFFSET),
        Err(PagetableError::InvalidAddress)
    );
}

#[test]
fn four_level_walk_with_small_pages() {
    // PML4 at 0x1000, PDPT at 0x2000, PD at 0x3000, PT at 0x4000, all at base 0
    let mut mem = MmapMemory::new(0x10000, 0);
    let gva: u64 = (1 << 39) | (2 << 30) | (3 << 21) | (4 << 12) | 0x567;
    mem.write_typed(0x1000 + 8 * 1, &(0x2000u64 | 0x3)).unwrap();
    mem.write_typed(0x2000 + 8 * 2, &(0x3000u64 | 0x3)).unwrap();
    mem.write_typed(0x3000 + 8 * 3, &(0x4000u64 | 0x3)).unwrap();
    mem.write_typed(0x4000 + 8 * 4, &(0xabc000u64 | 0x3)).unwrap();
    assert_eq!(virt_to_phys(gva, &mem, 0x1000), Ok(0xabc567));
    // a 1 GiB page at the PDPT level
    mem.write_typed(0x2000 + 8 * 2, &(0x4000_0000u64 | 0x83)).unwrap();
    assert_eq!(virt_to_phys(gva, &mem, 0x1000), Ok(0x4000_0000 + (gva & 0x3fff_ffff)));
    // an absent entry
    mem.write_typed(0x1000 + 8 * 1, &0u64).unwrap();
    assert_eq!(virt_to_phys(gva, &mem, 0x1000), Err(PagetableError::InvalidAddress));
}

#[test]
fn gdt_entries() {
    assert_eq!(create_gdt_entry(0xA09B, 0, 0xFFFFF), 0xAF9B000000FFFF);
    assert_eq!(create_gdt_entry(0xC093, 0, 0xFFFFF), 0xCF93000000FFFF);
    assert_eq!(create_gdt_entry(0, 0x12345678, 0), 0x1200_0034_5678_0000);
}

#[test]
fn page_table_addresses() {
    let pt = UhyvePageTable::new(0x100_0000);
    assert_eq!(pt.boot_gdt, 0x100_1000);
    assert_eq!(pt.boot_pml4, 0x101_0000);
    assert_eq!(pt.boot_pdpte, 0x101_1000);
    assert_eq!(pt.boot_pde, 0x101_2000);
    assert_eq!(pt.boot_info_addr, 0x100_9000);
    assert_eq!(pt.get_min_physmem_size(), MIN_PHYSMEM_SIZE as usize);
    assert_eq!(pt.create_gdt_entry(0xA09B, 0, 0xFFFFF), 0xAF9B000000FFFF);
    let mut mem = MmapMemory::new(MIN_PHYSMEM_SIZE as usize, 0x100_0000);
    pt.init_guest_mem(&mut mem);
    assert_eq!(virt_to_phys(0x1234, &mem, pt.boot_pml4), Ok(0x1234));
}
