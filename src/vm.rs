//! Decisions of the VM orchestrator: where the guest's memory and the kernel
//! go, where the boot stack starts, how the kernel's arguments are split
//! from the application's, and which CPU frequency the guest is told.
use vstd::prelude::*;

use rand::Rng;

use crate::consts::{BOOT_INFO_OFFSET, FDT_OFFSET, KERNEL_OFFSET, KERNEL_STACK_SIZE, RAM_START};

verus! {

/// Reasons for vCPU exits.
#[derive(Debug, Clone, Copy, PartialEq, Eq, Structural)]
pub enum VcpuStopReason {
    /// The vCPU stopped for debugging.
    Debug,
    /// The vCPU exited with the specified exit code.
    Exit(i32),
    /// The vCPU got kicked.
    Kick,
}

/// The outcome of running a VM.
#[derive(Debug)]
pub struct VmResult {
    /// The guest's exit code.
    pub code: i32,
    /// What the guest wrote to the serial sink, where it was kept in memory.
    pub output: Option<String>,
}

/// Errors of placing the kernel in guest memory.
#[derive(Debug, Clone, Copy, PartialEq, Eq, Structural)]
pub enum LoadKernelError {
    /// The guest memory size is not large enough.
    InsufficientMemory,
}

/// The CPU frequency could not be detected.
#[derive(Debug, Clone, Copy, PartialEq, Eq, Structural)]
pub struct FrequencyDetectionFailed;

/// Bound of the guest addresses chosen at random.
pub const ASLR_ADDRESS_LIMIT: u64 = 0x000F_FFFF_FFFF_0000;

/// Least guest address chosen at random.
pub const ASLR_ADDRESS_MIN: u64 = 0x100000;

/// Relies on rand's `Rng::gen_range` on `thread_rng()`: a value in
/// `lo..hi`; it panics on an empty range.
#[verifier::external_body]
fn random_in_range(lo: u64, hi: u64) -> (r: u64)
    requires
        lo < hi,
    ensures
        lo <= r < hi,
{
    rand::thread_rng().gen_range(lo..hi)
}

/// The guest address made of the draw `x`: `x` with its low 16 bits and
/// its bits from 52 up cleared.
pub fn address_from_draw(x: u64, object_mem_size: u64) -> (r: u64)
    requires
        ASLR_ADDRESS_MIN <= x,
        x + object_mem_size + KERNEL_OFFSET < ASLR_ADDRESS_LIMIT,
    ensures
        r == x & ASLR_ADDRESS_LIMIT,
        r & 0xffff == 0,
        ASLR_ADDRESS_MIN <= r,
        r + object_mem_size + KERNEL_OFFSET < ASLR_ADDRESS_LIMIT,
{
    let r = x & ASLR_ADDRESS_LIMIT;
    assert(r & 0xffff == 0 && r <= x && (x >= 0x100000 ==> r >= 0x100000)) by (bit_vector)
        requires
            r == x & 0x000F_FFFF_FFFF_0000u64,
            x < 0x000F_FFFF_FFFF_0000u64,
    ;
    r
}

/// A random guest address for a kernel of `object_mem_size` bytes: a draw
/// from `ASLR_ADDRESS_MIN` up to what leaves room for the kernel below
/// `ASLR_ADDRESS_LIMIT`, made an address by `address_from_draw`.
pub fn generate_address(object_mem_size: u64) -> (r: u64)
    requires
        ASLR_ADDRESS_MIN + object_mem_size + KERNEL_OFFSET < ASLR_ADDRESS_LIMIT,
    ensures
        r & 0xffff == 0,
        ASLR_ADDRESS_MIN <= r,
        r + object_mem_size + KERNEL_OFFSET < ASLR_ADDRESS_LIMIT,
{
    let upper = ASLR_ADDRESS_LIMIT - object_mem_size - KERNEL_OFFSET;
    let x = random_in_range(ASLR_ADDRESS_MIN, upper);
    address_from_draw(x, object_mem_size)
}

/// The base of guest memory for a relocatable kernel of `object_mem_size`
/// bytes: a random address where `aslr` is asked for and the kernel fits
/// below `ASLR_ADDRESS_LIMIT`, else `RAM_START`.
pub fn relocation_base(aslr: bool, object_mem_size: u64) -> (r: u64)
    ensures
        !(aslr && ASLR_ADDRESS_MIN + object_mem_size + KERNEL_OFFSET < ASLR_ADDRESS_LIMIT) ==> r
            == RAM_START,
        aslr && ASLR_ADDRESS_MIN + object_mem_size + KERNEL_OFFSET < ASLR_ADDRESS_LIMIT ==> r
            & 0xffff == 0 && ASLR_ADDRESS_MIN <= r && r + object_mem_size + KERNEL_OFFSET
            < ASLR_ADDRESS_LIMIT,
{
    if aslr && object_mem_size < ASLR_ADDRESS_LIMIT - ASLR_ADDRESS_MIN - KERNEL_OFFSET {
        generate_address(object_mem_size)
    } else {
        RAM_START
    }
}

/// Where guest memory and the kernel go, as `(guest address, kernel
/// address)`: a kernel linked for `start_addr` goes there, with guest memory
/// at `RAM_START`; a relocatable kernel goes `KERNEL_OFFSET` into guest
/// memory placed at `relocated_base`.
pub fn place_kernel(start_addr: Option<u64>, relocated_base: u64) -> (r: (u64, u64))
    requires
        relocated_base + KERNEL_OFFSET <= u64::MAX,
    ensures
        match start_addr {
            Some(s) => r == (RAM_START, s),
            None => r == (relocated_base, (relocated_base + KERNEL_OFFSET) as u64),
        },
{
    match start_addr {
        Some(s) => (RAM_START, s),
        None => (relocated_base, relocated_base + KERNEL_OFFSET),
    }
}

/// Whether a kernel of `kernel_mem_size` bytes at `kernel_address` lies
/// inside guest memory of `memory_size` bytes at `guest_address`.
pub fn check_kernel_fits(
    guest_address: u64,
    memory_size: u64,
    kernel_address: u64,
    kernel_mem_size: u64,
) -> (r: Result<(), LoadKernelError>)
    ensures
        r is Ok <==> guest_address <= kernel_address && kernel_address + kernel_mem_size
            <= guest_address + memory_size,
        r is Err ==> r == Err::<(), LoadKernelError>(LoadKernelError::InsufficientMemory),
{
    if kernel_address < guest_address || kernel_address - guest_address > memory_size
        || memory_size - (kernel_address - guest_address) < kernel_mem_size {
        Err(LoadKernelError::InsufficientMemory)
    } else {
        Ok(())
    }
}

/// Whether a device tree of `len` bytes fits between its place and the boot
/// information.
pub fn fdt_fits(len: usize) -> (r: bool)
    ensures
        r == (len < BOOT_INFO_OFFSET - FDT_OFFSET),
{
    (len as u64) < BOOT_INFO_OFFSET - FDT_OFFSET
}

/// The top of the boot stack, which lies right below the kernel.
pub fn stack_address(kernel_address: u64) -> (r: u64)
    requires
        kernel_address > KERNEL_STACK_SIZE,
    ensures
        r == kernel_address - KERNEL_STACK_SIZE,
{
    kernel_address - KERNEL_STACK_SIZE
}

/// Whether `s` is the separator `--` between kernel and application
/// arguments.
pub fn is_separator(s: &str) -> (r: bool)
    ensures
        r == (s@ == seq!['-', '-']),
{
    if s.unicode_len() != 2 {
        return false;
    }
    let r = s.get_char(0) == '-' && s.get_char(1) == '-';
    assert(r ==> s@ =~= seq!['-', '-']);
    r
}

/// Index of the first `--` in `args`, or `args.len()` if none.
pub open spec fn separator_index(args: Seq<String>, from: int) -> int
    decreases args.len() - from,
{
    if from >= args.len() {
        args.len() as int
    } else if args[from]@ == seq!['-', '-'] {
        from
    } else {
        separator_index(args, from + 1)
    }
}

/// Splits `args` at the first `--` into the kernel's arguments and the
/// application's; the separator belongs to neither.
pub fn split_args(args: &Vec<String>) -> (r: (Vec<String>, Vec<String>))
    ensures
        r.0@ == args@.subrange(0, separator_index(args@, 0)),
        separator_index(args@, 0) < args@.len() ==> r.1@ == args@.subrange(
            separator_index(args@, 0) + 1,
            args@.len() as int,
        ),
        separator_index(args@, 0) == args@.len() ==> r.1@.len() == 0,
{
    let mut kernel: Vec<String> = Vec::new();
    let mut i: usize = 0;
    while i < args.len() && !is_separator(args[i].as_str())
        invariant
            i <= args@.len(),
            separator_index(args@, 0) == separator_index(args@, i as int),
            kernel@ == args@.subrange(0, i as int),
        decreases args.len() - i,
    {
        kernel.push(args[i].clone());
        assert(kernel@ =~= args@.subrange(0, i + 1));
        i += 1;
    }
    let sep = i;
    let mut app: Vec<String> = Vec::new();
    if sep < args.len() {
        let mut j: usize = sep + 1;
        while j < args.len()
            invariant
                sep < j <= args@.len(),
                app@ == args@.subrange(sep + 1, j as int),
            decreases args.len() - j,
        {
            app.push(args[j].clone());
            assert(app@ =~= args@.subrange(sep + 1, j + 1));
            j += 1;
        }
    }
    (kernel, app)
}

/// The CPU frequency in MHz from the frequencies the host reports for its
/// CPUs: that of the first CPU, which counts whether or not the others
/// agree. Fails where none is reported, it is zero, or it does not fit.
pub fn frequency_from_cpus(frequencies: &Vec<u64>) -> (r: Result<u32, FrequencyDetectionFailed>)
    ensures
        frequencies@.len() > 0 && 0 < frequencies@[0] <= u32::MAX ==> r == Ok::<
            u32,
            FrequencyDetectionFailed,
        >(frequencies@[0] as u32),
        !(frequencies@.len() > 0 && 0 < frequencies@[0] <= u32::MAX) ==> r is Err,
{
    if frequencies.len() == 0 {
        return Err(FrequencyDetectionFailed);
    }
    let f = frequencies[0];
    if f > 0 && f <= u32::MAX as u64 {
        Ok(f as u32)
    } else {
        Err(FrequencyDetectionFailed)
    }
}

} // verus!
