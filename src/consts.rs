//! Fixed layout of the guest's low memory, open flags and error numbers.
use vstd::prelude::*;

verus! {

pub const PAGE_SIZE: u64 = 0x1000;

/// Guest-physical address of guest memory where it is not placed at random.
pub const RAM_START: u64 = 0x0;

/// Offsets from the start of guest memory.
pub const GDT_OFFSET: u64 = 0x1000;
pub const FDT_OFFSET: u64 = 0x5000;
pub const BOOT_INFO_OFFSET: u64 = 0x9000;
pub const PML4_OFFSET: u64 = 0x10000;
pub const PGT_OFFSET: u64 = 0x10000;
pub const PDPTE_OFFSET: u64 = 0x11000;
pub const PDE_OFFSET: u64 = 0x12000;
pub const MIN_PHYSMEM_SIZE: u64 = 0x13000;

/// Start of the frames that boot pagetables may be allocated from.
pub const PAGETABLES_OFFSET: u64 = 0x11000;
/// End of the frames that boot pagetables may be allocated from.
pub const PAGETABLES_END: u64 = 0x13000;

pub const BOOT_GDT_NULL: usize = 0;
pub const BOOT_GDT_CODE: usize = 1;
pub const BOOT_GDT_DATA: usize = 2;

pub const KERNEL_STACK_SIZE: u64 = 32_768;
/// Offset of the kernel image from the start of guest memory.
pub const KERNEL_OFFSET: u64 = 0x40_0000;
/// Size of the large pages of the boot identity map.
pub const GUEST_PAGE_SIZE: u64 = 0x200000;

/// Page table entry flags.
pub const PTE_PRESENT: u64 = 0x1;
pub const PTE_WRITABLE: u64 = 0x2;
pub const PTE_HUGE_PAGE: u64 = 0x80;
/// Bits of a page table entry that hold the physical address.
pub const PTE_ADDR_MASK: u64 = 0x000f_ffff_ffff_f000;

// File operations supported by the guest kernel.
pub const O_RDONLY: i32 = 0o0000;
pub const O_WRONLY: i32 = 0o0001;
pub const O_RDWR: i32 = 0o0002;
pub const O_CREAT: i32 = 0o0100;
pub const O_EXCL: i32 = 0o0200;
pub const O_TRUNC: i32 = 0o1000;
pub const O_APPEND: i32 = 0o2000;
pub const O_DIRECT: i32 = 0o40000;
pub const O_DIRECTORY: i32 = 0o200000;

pub const ALLOWED_OPEN_FLAGS: i32 = O_RDONLY | O_WRONLY | O_RDWR | O_CREAT | O_EXCL | O_TRUNC
    | O_APPEND | O_DIRECT | O_DIRECTORY;

// Error numbers reported to the guest (negated).
pub const ENOENT: i32 = 2;
pub const EBADF: i32 = 9;
pub const EFAULT: i32 = 14;
pub const EINVAL: i32 = 22;

/// Most argument and environment strings handed to the guest.
pub const MAX_ARGC_ENVC: usize = 128;

} // verus!
