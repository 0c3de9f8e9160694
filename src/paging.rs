//! Boot GDT and pagetables, and guest-virtual to guest-physical translation.
use vstd::prelude::*;

use vstd::bytes::spec_u64_to_le_bytes;

use crate::consts::{
    BOOT_GDT_CODE, BOOT_GDT_DATA, BOOT_GDT_NULL, BOOT_INFO_OFFSET, GDT_OFFSET, GUEST_PAGE_SIZE,
    MIN_PHYSMEM_SIZE, PAGETABLES_END, PAGETABLES_OFFSET, PAGE_SIZE, PDE_OFFSET, PDPTE_OFFSET,
    PGT_OFFSET, PML4_OFFSET, PTE_ADDR_MASK, PTE_HUGE_PAGE, PTE_PRESENT, PTE_WRITABLE,
};
use crate::mem::{GuestValue, MmapMemory};

verus! {

/// The GDT (or LDT) segment descriptor for `flags`, `base` and `limit`.
pub open spec fn gdt_entry(flags: u64, base: u64, limit: u64) -> u64 {
    ((base & 0xff000000u64) << 32u64) | ((flags & 0x0000f0ffu64) << 40u64) | ((limit
        & 0x000f0000u64) << 32u64) | ((base & 0x00ffffffu64) << 16u64) | (limit & 0x0000ffffu64)
}

/// Constructor for a conventional segment GDT (or LDT) entry.
pub fn create_gdt_entry(flags: u64, base: u64, limit: u64) -> (r: u64)
    ensures
        r == gdt_entry(flags, base, limit),
{
    ((base & 0xff000000u64) << (56 - 24)) | ((flags & 0x0000f0ffu64) << 40) | ((limit
        & 0x000f0000u64) << (48 - 16)) | ((base & 0x00ffffffu64) << 16) | (limit & 0x0000ffffu64)
}

/// The entry of a table that points to the next-level table at `addr`.
pub open spec fn table_entry_to(addr: int) -> u64 {
    addr as u64 | PTE_PRESENT | PTE_WRITABLE
}

/// The entry of the page directory that maps large page `i`.
pub open spec fn pde_entry(i: u64) -> u64 {
    (i * 0x200000) as u64 | PTE_PRESENT | PTE_WRITABLE | PTE_HUGE_PAGE
}

/// The physical address a pagetable entry holds.
pub open spec fn entry_addr(e: u64) -> u64 {
    e & PTE_ADDR_MASK
}

pub open spec fn is_present(e: u64) -> bool {
    e & PTE_PRESENT != 0
}

pub open spec fn is_huge(e: u64) -> bool {
    e & PTE_HUGE_PAGE != 0
}

/// The 9-bit table index of `gva` whose lowest bit is bit `shift`.
pub open spec fn table_index(gva: u64, shift: u64) -> u64 {
    (gva >> shift) & 0x1ff
}

/// The 64-bit word at `gpa`, where it lies in `m`.
pub open spec fn read_entry(m: MmapMemory, gpa: int) -> Option<u64> {
    if m.in_bounds(gpa, 8) {
        Some(m.value_at::<u64>(gpa))
    } else {
        None
    }
}

/// Entry `index` of the table at `table`.
pub open spec fn table_entry(m: MmapMemory, table: u64, index: u64) -> Option<u64> {
    read_entry(m, table + 8 * index)
}

/// The guest-physical address that `gva` maps to through the four-level
/// pagetable rooted at `root`, with 1 GiB and 2 MiB pages; `None` where an
/// entry on the walk is absent or lies outside guest memory.
pub open spec fn translate(m: MmapMemory, root: u64, gva: u64) -> Option<u64> {
    match table_entry(m, root, table_index(gva, 39)) {
        Some(e4) if is_present(e4) => match table_entry(m, entry_addr(e4), table_index(gva, 30)) {
            Some(e3) if is_present(e3) => if is_huge(e3) {
                Some((entry_addr(e3) + (gva & 0x3fff_ffff)) as u64)
            } else {
                match table_entry(m, entry_addr(e3), table_index(gva, 21)) {
                    Some(e2) if is_present(e2) => if is_huge(e2) {
                        Some((entry_addr(e2) + (gva & 0x1f_ffff)) as u64)
                    } else {
                        match table_entry(m, entry_addr(e2), table_index(gva, 12)) {
                            Some(e1) if is_present(e1) => Some(
                                (entry_addr(e1) + (gva & 0xfff)) as u64,
                            ),
                            _ => None,
                        }
                    },
                    _ => None,
                }
            },
            _ => None,
        },
        _ => None,
    }
}

/// Errors of pagetable walks.
#[derive(Debug, Clone, Copy, PartialEq, Eq, Structural)]
pub enum PagetableError {
    /// The accessed virtual address is not mapped.
    InvalidAddress,
}

proof fn lemma_entry_bounds(e: u64)
    ensures
        entry_addr(e) <= PTE_ADDR_MASK,
{
    assert(e & 0x000f_ffff_ffff_f000u64 <= 0x000f_ffff_ffff_f000u64) by (bit_vector);
}

/// Entry `index` of the table at `table`.
fn read_table_entry(mem: &MmapMemory, table: u64, index: u64) -> (r: Option<u64>)
    requires
        mem.wf(),
        table <= PTE_ADDR_MASK,
        index < 512,
    ensures
        r == table_entry(*mem, table, index),
{
    match mem.read_typed::<u64>(table + 8 * index) {
        Ok(e) => Some(e),
        Err(_) => None,
    }
}

/// Translates the guest-virtual address `gva` to a guest-physical address by
/// walking the guest's pagetable rooted at `root_pml4`.
pub fn virt_to_phys(gva: u64, mem: &MmapMemory, root_pml4: u64) -> (r: Result<u64, PagetableError>)
    requires
        mem.wf(),
        root_pml4 <= PTE_ADDR_MASK,
    ensures
        r == match translate(*mem, root_pml4, gva) {
            Some(p) => Ok::<u64, PagetableError>(p),
            None => Err(PagetableError::InvalidAddress),
        },
{
    assert(gva & 0x3fff_ffff <= 0x3fff_ffff && gva & 0x1f_ffff <= 0x1f_ffff && gva & 0xfff <= 0xfff)
        by (bit_vector);
    let i4 = (gva >> 39u64) & 0x1ff;
    assert(i4 < 512) by (bit_vector)
        requires
            i4 == (gva >> 39u64) & 0x1ff,
    ;
    let e4 = match read_table_entry(mem, root_pml4, i4) {
        Some(e) => e,
        None => return Err(PagetableError::InvalidAddress),
    };
    if e4 & PTE_PRESENT == 0 {
        return Err(PagetableError::InvalidAddress);
    }
    proof {
        lemma_entry_bounds(e4);
    }
    let i3 = (gva >> 30u64) & 0x1ff;
    assert(i3 < 512) by (bit_vector)
        requires
            i3 == (gva >> 30u64) & 0x1ff,
    ;
    let e3 = match read_table_entry(mem, e4 & PTE_ADDR_MASK, i3) {
        Some(e) => e,
        None => return Err(PagetableError::InvalidAddress),
    };
    if e3 & PTE_PRESENT == 0 {
        return Err(PagetableError::InvalidAddress);
    }
    proof {
        lemma_entry_bounds(e3);
    }
    if e3 & PTE_HUGE_PAGE != 0 {
        return Ok((e3 & PTE_ADDR_MASK) + (gva & 0x3fff_ffff));
    }
    let i2 = (gva >> 21u64) & 0x1ff;
    assert(i2 < 512) by (bit_vector)
        requires
            i2 == (gva >> 21u64) & 0x1ff,
    ;
    let e2 = match read_table_entry(mem, e3 & PTE_ADDR_MASK, i2) {
        Some(e) => e,
        None => return Err(PagetableError::InvalidAddress),
    };
    if e2 & PTE_PRESENT == 0 {
        return Err(PagetableError::InvalidAddress);
    }
    proof {
        lemma_entry_bounds(e2);
    }
    if e2 & PTE_HUGE_PAGE != 0 {
        return Ok((e2 & PTE_ADDR_MASK) + (gva & 0x1f_ffff));
    }
    let i1 = (gva >> 12u64) & 0x1ff;
    assert(i1 < 512) by (bit_vector)
        requires
            i1 == (gva >> 12u64) & 0x1ff,
    ;
    let e1 = match read_table_entry(mem, e2 & PTE_ADDR_MASK, i1) {
        Some(e) => e,
        None => return Err(PagetableError::InvalidAddress),
    };
    if e1 & PTE_PRESENT == 0 {
        return Err(PagetableError::InvalidAddress);
    }
    proof {
        lemma_entry_bounds(e1);
    }
    Ok((e1 & PTE_ADDR_MASK) + (gva & 0xfff))
}

/// A bump allocator of 4 KiB frames for the boot pagetables: frame `k` is
/// `start + k * PAGE_SIZE`, and at most `length` frames are handed out.
pub struct BumpAllocator {
    start: u64,
    length: u64,
    cnt: u64,
}

impl BumpAllocator {
    pub closed spec fn start(&self) -> u64 {
        self.start
    }

    pub closed spec fn length(&self) -> u64 {
        self.length
    }

    /// Number of frames handed out so far.
    pub closed spec fn count(&self) -> u64 {
        self.cnt
    }

    pub closed spec fn wf(&self) -> bool {
        &&& self.cnt <= self.length
        &&& self.start + self.length * PAGE_SIZE <= u64::MAX
    }

    /// An allocator of `length` frames from `start` on; `start` must be 4 KiB
    /// aligned.
    pub fn new(start: u64, length: u64) -> (r: BumpAllocator)
        requires
            start % PAGE_SIZE == 0,
            start + length * PAGE_SIZE <= u64::MAX,
        ensures
            r.wf(),
            r.start() == start,
            r.length() == length,
            r.count() == 0,
    {
        BumpAllocator { start, length, cnt: 0 }
    }

    /// The next frame's start address, or `None` once `length` frames are
    /// handed out.
    pub fn allocate_frame(&mut self) -> (r: Option<u64>)
        requires
            old(self).wf(),
        ensures
            final(self).wf(),
            final(self).start() == old(self).start(),
            final(self).length() == old(self).length(),
            old(self).count() < old(self).length() ==> r == Some(
                (old(self).start() + old(self).count() * PAGE_SIZE) as u64,
            ) && final(self).count() == old(self).count() + 1,
            old(self).count() >= old(self).length() ==> r == None::<u64> && final(self).count()
                == old(self).count(),
    {
        if self.cnt < self.length {
            proof {
                assert(self.cnt * PAGE_SIZE <= self.length * PAGE_SIZE) by (nonlinear_arith)
                    requires
                        self.cnt <= self.length,
                ;
            }
            let f = self.start + self.cnt * PAGE_SIZE;
            self.cnt += 1;
            Some(f)
        } else {
            None
        }
    }
}

/// The bytes that writing the boot GDT and pagetables changes, as offsets
/// into guest memory.
pub open spec fn boot_written(j: int) -> bool {
    ||| GDT_OFFSET <= j < GDT_OFFSET + 24
    ||| PML4_OFFSET <= j < PML4_OFFSET + 8
    ||| PML4_OFFSET + 8 * 511 <= j < PML4_OFFSET + 8 * 512
    ||| PDPTE_OFFSET <= j < PDPTE_OFFSET + 8
    ||| PDE_OFFSET <= j < PDE_OFFSET + 8 * 512
}

/// `m` holds the boot GDT and the boot pagetables that identity-map the
/// first GiB with 2 MiB pages.
pub open spec fn has_boot_pagetables(m: MmapMemory) -> bool {
    let b = m.base();
    &&& m.value_at::<u64>(b + GDT_OFFSET) == 0
    &&& m.value_at::<u64>(b + GDT_OFFSET + 8) == gdt_entry(0xA09B, 0, 0xFFFFF)
    &&& m.value_at::<u64>(b + GDT_OFFSET + 16) == gdt_entry(0xC093, 0, 0xFFFFF)
    &&& m.value_at::<u64>(b + PML4_OFFSET) == table_entry_to(b + PDPTE_OFFSET)
    &&& m.value_at::<u64>(b + PML4_OFFSET + 8 * 511) == table_entry_to(b + PML4_OFFSET)
    &&& m.value_at::<u64>(b + PDPTE_OFFSET) == table_entry_to(b + PDE_OFFSET)
    &&& forall|i: u64|
        i < 512 ==> m.value_at::<u64>(b + PDE_OFFSET + 8 * i) == #[trigger] pde_entry(i)
}

/// Writes the 64-bit word `v` at `gpa`.
fn write_entry(mem: &mut MmapMemory, gpa: u64, v: u64)
    requires
        old(mem).wf(),
        old(mem).in_bounds(gpa as int, 8),
    ensures
        final(mem).wf(),
        final(mem).base() == old(mem).base(),
        final(mem).bytes().len() == old(mem).bytes().len(),
        final(mem).value_at::<u64>(gpa as int) == v,
        forall|j: int|
            0 <= j < old(mem).bytes().len() && !(old(mem).offset(gpa as int) <= j < old(mem).offset(gpa as int) + 8) ==> final(mem).bytes()[j] == old(mem).bytes()[j],
        forall|a: int|
            old(mem).in_bounds(a, 8) && (a + 8 <= gpa || gpa + 8 <= a) ==> #[trigger] final(mem).value_at::<u64>(a) == old(mem).value_at::<u64>(a),
{
    let _ = mem.write_typed(gpa, &v);
    proof {
        u64::lemma_round_trip(v);
        assert(mem.bytes_at(gpa as int, 8) =~= spec_u64_to_le_bytes(v));
        assert forall|a: int|
            old(mem).in_bounds(a, 8) && (a + 8 <= gpa || gpa + 8 <= a) implies #[trigger] mem.value_at::<u64>(a) == old(mem).value_at::<u64>(a) by {
            lemma_same_word(*mem, *old(mem), a);
        }
    }
}

/// The 64-bit word at `gpa` is the same in `a` and `b` where none of its
/// bytes differ.
proof fn lemma_same_word(a: MmapMemory, b: MmapMemory, gpa: int)
    requires
        a.base() == b.base(),
        a.in_bounds(gpa, 8),
        a.bytes().len() == b.bytes().len(),
        forall|j: int| a.offset(gpa) <= j < a.offset(gpa) + 8 ==> a.bytes()[j] == b.bytes()[j],
    ensures
        a.value_at::<u64>(gpa) == b.value_at::<u64>(gpa),
{
    assert(a.bytes_at(gpa, 8) =~= b.bytes_at(gpa, 8));
}

/// Creates the GDT and the boot pagetables in guest memory: a PML4 whose
/// entry 0 points to the PDPTE and whose entry 511 points to itself, a PDPTE
/// whose entry 0 points to the page directory, and a page directory whose 512
/// entries map the first GiB with 2 MiB pages, identity-mapped.
/// Guest memory must be zeroed where the tables lie.
pub fn initialize_pagetables(mem: &mut MmapMemory)
    requires
        old(mem).wf(),
        old(mem).bytes().len() >= MIN_PHYSMEM_SIZE,
        old(mem).base() % PAGE_SIZE == 0,
        old(mem).base() + MIN_PHYSMEM_SIZE <= PTE_ADDR_MASK,
    ensures
        final(mem).wf(),
        final(mem).base() == old(mem).base(),
        final(mem).bytes().len() == old(mem).bytes().len(),
        has_boot_pagetables(*final(mem)),
        forall|j: int|
            0 <= j < old(mem).bytes().len() && !boot_written(j) ==> final(mem).bytes()[j] == old(mem).bytes()[j],
{
    let base = mem.guest_address();
    let gdt = base + GDT_OFFSET;
    write_entry(mem, gdt + 8 * BOOT_GDT_NULL as u64, 0);
    write_entry(mem, gdt + 8 * BOOT_GDT_CODE as u64, create_gdt_entry(0xA09B, 0, 0xFFFFF));
    write_entry(mem, gdt + 8 * BOOT_GDT_DATA as u64, create_gdt_entry(0xC093, 0, 0xFFFFF));
    // recursive mapping of the PML4
    let pml4 = base + PML4_OFFSET;
    write_entry(mem, pml4 + 8 * 511, pml4 | PTE_PRESENT | PTE_WRITABLE);
    let mut frames = BumpAllocator::new(
        base + PAGETABLES_OFFSET,
        (PAGETABLES_END - PAGETABLES_OFFSET) / PAGE_SIZE,
    );
    let pdpte = match frames.allocate_frame() {
        Some(f) => f,
        None => return ,
    };
    let pde = match frames.allocate_frame() {
        Some(f) => f,
        None => return ,
    };
    assert(pdpte == base + PDPTE_OFFSET && pde == base + PDE_OFFSET);
    write_entry(mem, pml4, pdpte | PTE_PRESENT | PTE_WRITABLE);
    write_entry(mem, pdpte, pde | PTE_PRESENT | PTE_WRITABLE);
    let ghost m6 = *mem;
    let mut i: u64 = 0;
    while i < 512
        invariant
            mem.wf(),
            mem.base() == base,
            mem.bytes().len() == m6.bytes().len(),
            m6.base() == base,
            m6.bytes().len() >= MIN_PHYSMEM_SIZE,
            base + MIN_PHYSMEM_SIZE <= PTE_ADDR_MASK,
            pde == base + PDE_OFFSET,
            i <= 512,
            forall|a: int|
                m6.in_bounds(a, 8) && (a + 8 <= base + PDE_OFFSET || base + PDE_OFFSET + 4096
                    <= a) ==> #[trigger] mem.value_at::<u64>(a) == m6.value_at::<u64>(a),
            forall|k: u64|
                k < i ==> mem.value_at::<u64>(base + PDE_OFFSET + 8 * k) == #[trigger] pde_entry(
                    k,
                ),
            forall|j: int|
                0 <= j < m6.bytes().len() && !(PDE_OFFSET <= j < PDE_OFFSET + 8 * i)
                    ==> mem.bytes()[j] == m6.bytes()[j],
        decreases 512 - i,
    {
        let ghost prev = *mem;
        let e = (i * GUEST_PAGE_SIZE) | PTE_PRESENT | PTE_WRITABLE | PTE_HUGE_PAGE;
        write_entry(mem, pde + 8 * i, e);
        proof {
            assert forall|a: int|
                m6.in_bounds(a, 8) && (a + 8 <= base + PDE_OFFSET || base + PDE_OFFSET + 4096
                    <= a) implies #[trigger] mem.value_at::<u64>(a) == m6.value_at::<u64>(a) by {
                assert(prev.value_at::<u64>(a) == m6.value_at::<u64>(a));
            }
            assert forall|k: u64| k < i + 1 implies mem.value_at::<u64>(
                base + PDE_OFFSET + 8 * k,
            ) == #[trigger] pde_entry(k) by {
                if k < i {
                    lemma_same_word(*mem, prev, base + PDE_OFFSET + 8 * k);
                }
            }
        }
        i += 1;
    }
}

proof fn lemma_table_entry_to(x: u64)
    requires
        x % 4096 == 0,
        x <= PTE_ADDR_MASK,
    ensures
        is_present(x | PTE_PRESENT | PTE_WRITABLE),
        !is_huge(x | PTE_PRESENT | PTE_WRITABLE),
        entry_addr(x | PTE_PRESENT | PTE_WRITABLE) == x,
{
    assert(x % 4096 == 0 && x <= 0x000f_ffff_ffff_f000u64 ==> (x | 1u64 | 2u64) & 1u64 != 0 && (x
        | 1u64 | 2u64) & 0x80u64 == 0 && (x | 1u64 | 2u64) & 0x000f_ffff_ffff_f000u64 == x)
        by (bit_vector);
}

proof fn lemma_large_page(gva: u64, p: u64)
    requires
        gva < 0x4000_0000,
        p == table_index(gva, 21) * 0x200000,
    ensures
        is_present(p | PTE_PRESENT | PTE_WRITABLE | PTE_HUGE_PAGE),
        is_huge(p | PTE_PRESENT | PTE_WRITABLE | PTE_HUGE_PAGE),
        entry_addr(p | PTE_PRESENT | PTE_WRITABLE | PTE_HUGE_PAGE) + (gva & 0x1f_ffff) == gva,
{
    let i = table_index(gva, 21);
    assert(i == gva >> 21u64 && i < 512) by (bit_vector)
        requires
            gva < 0x4000_0000u64,
            i == (gva >> 21u64) & 0x1ffu64,
    ;
    assert(p == i << 21u64) by (bit_vector)
        requires
            i < 512u64,
            p == i * 0x200000u64,
    ;
    let e = p | 1u64 | 2u64 | 0x80u64;
    assert(e & 1u64 != 0 && e & 0x80u64 != 0 && e & 0x000f_ffff_ffff_f000u64 == p) by (bit_vector)
        requires
            e == p | 1u64 | 2u64 | 0x80u64,
            p == i << 21u64,
            i < 512u64,
    ;
    assert(p + (gva & 0x1f_ffffu64) == gva) by (bit_vector)
        requires
            p == (gva >> 21u64) << 21u64,
            gva < 0x4000_0000u64,
    ;
}

/// After the boot pagetables are written, every address of the first GiB
/// translates to itself.
pub proof fn lemma_identity_map(m: MmapMemory, gva: u64)
    requires
        has_boot_pagetables(m),
        m.bytes().len() >= MIN_PHYSMEM_SIZE,
        m.base() % PAGE_SIZE == 0,
        m.base() + MIN_PHYSMEM_SIZE <= PTE_ADDR_MASK,
        gva < 0x4000_0000,
    ensures
        translate(m, (m.base() + PML4_OFFSET) as u64, gva) == Some(gva),
{
    let b = m.base();
    assert(table_index(gva, 39) == 0 && table_index(gva, 30) == 0) by (bit_vector)
        requires
            gva < 0x4000_0000u64,
    ;
    lemma_table_entry_to((b + PDPTE_OFFSET) as u64);
    lemma_table_entry_to((b + PDE_OFFSET) as u64);
    let i = table_index(gva, 21);
    assert(i < 512) by (bit_vector)
        requires
            i == (gva >> 21u64) & 0x1ffu64,
    ;
    assert(pde_entry(i) == m.value_at::<u64>(b + PDE_OFFSET + 8 * i));
    lemma_large_page(gva, (i * 0x200000) as u64);
}

/// Guest-physical addresses of the boot structures of a guest whose memory
/// starts at `guest_address`.
#[derive(Clone, Copy, Debug)]
pub struct UhyvePageTable {
    pub guest_address: u64,
    pub boot_gdt: u64,
    pub boot_pml4: u64,
    pub boot_pgt: u64,
    pub boot_pdpte: u64,
    pub boot_pde: u64,
    pub boot_info_addr: u64,
}

impl UhyvePageTable {
    /// Each address is `guest_address` plus the structure's fixed offset.
    pub open spec fn wf(&self) -> bool {
        let b = self.guest_address;
        &&& b + MIN_PHYSMEM_SIZE <= u64::MAX
        &&& self.boot_gdt == b + GDT_OFFSET
        &&& self.boot_pml4 == b + PML4_OFFSET
        &&& self.boot_pgt == b + PGT_OFFSET
        &&& self.boot_pdpte == b + PDPTE_OFFSET
        &&& self.boot_pde == b + PDE_OFFSET
        &&& self.boot_info_addr == b + BOOT_INFO_OFFSET
    }

    pub fn new(guest_address: u64) -> (r: UhyvePageTable)
        requires
            guest_address + MIN_PHYSMEM_SIZE <= u64::MAX,
        ensures
            r.wf(),
            r.guest_address == guest_address,
    {
        UhyvePageTable {
            guest_address,
            boot_gdt: guest_address + GDT_OFFSET,
            boot_pml4: guest_address + PML4_OFFSET,
            boot_pgt: guest_address + PGT_OFFSET,
            boot_pdpte: guest_address + PDPTE_OFFSET,
            boot_pde: guest_address + PDE_OFFSET,
            boot_info_addr: guest_address + BOOT_INFO_OFFSET,
        }
    }

    /// Creates the GDT and the boot pagetables in guest memory, as the free
    /// function of that name does.
    pub fn initialize_pagetables(&self, mem: &mut MmapMemory)
        requires
            self.wf(),
            old(mem).wf(),
            old(mem).base() == self.guest_address,
            old(mem).bytes().len() >= self.get_min_physmem_size_spec(),
            old(mem).base() % PAGE_SIZE == 0,
            old(mem).base() + MIN_PHYSMEM_SIZE <= PTE_ADDR_MASK,
        ensures
            final(mem).wf(),
            final(mem).base() == old(mem).base(),
            final(mem).bytes().len() == old(mem).bytes().len(),
            has_boot_pagetables(*final(mem)),
            forall|j: int|
                0 <= j < old(mem).bytes().len() && !boot_written(j) ==> final(mem).bytes()[j]
                    == old(mem).bytes()[j],
    {
        initialize_pagetables(mem);
    }

    /// Writes the boot GDT and pagetables into guest memory.
    pub fn init_guest_mem(&self, mem: &mut MmapMemory)
        requires
            self.wf(),
            old(mem).wf(),
            old(mem).base() == self.guest_address,
            old(mem).bytes().len() >= self.get_min_physmem_size_spec(),
            old(mem).base() % PAGE_SIZE == 0,
            old(mem).base() + MIN_PHYSMEM_SIZE <= PTE_ADDR_MASK,
        ensures
            final(mem).wf(),
            final(mem).base() == old(mem).base(),
            final(mem).bytes().len() == old(mem).bytes().len(),
            has_boot_pagetables(*final(mem)),
            forall|j: int|
                0 <= j < old(mem).bytes().len() && !boot_written(j) ==> final(mem).bytes()[j]
                    == old(mem).bytes()[j],
    {
        self.initialize_pagetables(mem);
    }

    pub open spec fn get_min_physmem_size_spec(&self) -> int {
        self.boot_pde - self.guest_address + PAGE_SIZE
    }

    /// The least size of guest memory that holds the boot structures.
    pub fn get_min_physmem_size(&self) -> (r: usize)
        requires
            self.wf(),
        ensures
            r == self.get_min_physmem_size_spec(),
            r == MIN_PHYSMEM_SIZE,
    {
        (self.boot_pde - self.guest_address + PAGE_SIZE) as usize
    }

    /// Constructor for a conventional segment GDT (or LDT) entry.
    pub fn create_gdt_entry(&self, flags: u64, base: u64, limit: u64) -> (r: u64)
        ensures
            r == gdt_entry(flags, base, limit),
    {
        create_gdt_entry(flags, base, limit)
    }
}

} // verus!
