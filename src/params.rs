//! Parameter records of hypercalls: packed little-endian structures in guest
//! memory, read field by field and written back where the host answers.
use vstd::prelude::*;

use crate::mem::{splice, GuestValue, MemoryError, MmapMemory};

verus! {

/// Parameters of a file-open hypercall.
#[derive(Debug, Clone, Copy)]
pub struct OpenParams {
    /// Guest-physical address of the NUL-terminated path.
    pub name: u64,
    pub flags: i32,
    pub mode: i32,
    /// The opened file descriptor, or a negated error number.
    pub ret: i32,
}

/// Parameters of a file-close hypercall.
#[derive(Debug, Clone, Copy)]
pub struct CloseParams {
    pub fd: i32,
    pub ret: i32,
}

/// Parameters of a file-read hypercall.
#[derive(Debug, Clone, Copy)]
pub struct ReadParams {
    /// File descriptor of the file.
    pub fd: i32,
    /// Guest-virtual address of the buffer to read the file into.
    pub buf: u64,
    /// Number of bytes to read into the buffer.
    pub len: usize,
    /// Number of bytes read on success. `-1` on failure.
    pub ret: isize,
}

/// Parameters of a file-write hypercall.
#[derive(Debug, Clone, Copy)]
pub struct WriteParams {
    /// File descriptor of the file.
    pub fd: i32,
    /// Guest-virtual address of the buffer to be written into the file.
    pub buf: u64,
    /// Number of bytes in the buffer to be written.
    pub len: usize,
}

/// Parameters of a file-seek hypercall.
#[derive(Debug, Clone, Copy)]
pub struct LseekParams {
    pub fd: i32,
    /// The requested offset; the resulting offset, or `-1`, on return.
    pub offset: isize,
    pub whence: i32,
}

/// Parameters of a file-unlink hypercall.
#[derive(Debug, Clone, Copy)]
pub struct UnlinkParams {
    /// Guest-physical address of the NUL-terminated path.
    pub name: u64,
    pub ret: i32,
}

/// Parameters of a serial buffer write hypercall.
#[derive(Debug, Clone, Copy)]
pub struct SerialWriteBufferParams {
    /// Guest-physical address of the bytes.
    pub buf: u64,
    pub len: usize,
}

/// Parameters of the hypercall that copies the arguments and the
/// environment into the guest.
#[derive(Debug, Clone, Copy)]
pub struct CmdvalParams {
    /// Guest-physical address of the table of argument destinations.
    pub argv: u64,
    /// Guest-physical address of the table of environment destinations.
    pub envp: u64,
}

/// Parameters of a serial read hypercall.
#[derive(Debug, Clone, Copy)]
pub struct SerialReadBufferParams {
    /// Address to write to.
    pub buf: u64,
    /// Length of `buf`.
    pub maxlen: usize,
    /// Amount of bytes actually written.
    pub len: usize,
}

/// Errors of opening shared memory.
#[derive(Debug, Clone, Copy, PartialEq, Eq, Structural)]
pub enum SharedMemOpenError {
    /// The shared memory could not be opened due to invalid parameters.
    InvalidParams,
    /// New shared memory creation was requested, but the shared memory already exists.
    AlreadyExisting,
    /// The limit of shared memories is exceeded.
    TooManySharedMems,
    /// Unspecified error.
    Unspecified,
}

/// The shared memory should be created if not present.
pub const SHARED_MEM_CREATE: u8 = 0b0000_0001;

/// Return an error if the shared memory exists.
pub const SHARED_MEM_CREATE_EXCLUSIVE: u8 = 0b0000_0010;

/// Map the shared memory in read-only mode.
pub const SHARED_MEM_READ_ONLY: u8 = 0b0000_0100;

/// Create a shared memory that only the current VM can write.
pub const SHARED_MEM_CREATE_EXCLUSIVE_WRITE: u8 = 0b0000_1000;

/// Flags for opening shared memory.
#[derive(Debug, Clone, Copy, PartialEq, Eq, Structural)]
pub struct SharedMemFlags(pub u8);

impl SharedMemFlags {
    pub open spec fn spec_bits(&self) -> u8 {
        self.0
    }

    /// The flags of `bits`; unknown bits are dropped.
    pub fn from_bits_truncate(bits: u8) -> (r: SharedMemFlags)
        ensures
            r.spec_bits() == bits & 0b0000_1111,
    {
        SharedMemFlags(bits & 0b0000_1111)
    }

    pub fn bits(&self) -> (r: u8)
        ensures
            r == self.spec_bits(),
    {
        self.0
    }

    /// Whether all flags of `other` are set.
    pub fn contains(&self, other: u8) -> (r: bool)
        ensures
            r == (self.spec_bits() & other == other),
    {
        self.0 & other == other
    }
}

/// Parameters of a shared memory open hypercall.
#[derive(Debug, Clone, Copy)]
pub struct SharedMemOpenParams {
    /// Address of the mapped shared memory in the guest. Is set by the host.
    pub buf: Result<u64, SharedMemOpenError>,
    /// Length of `buf`.
    pub len: usize,
    /// Address of the shared memory identifier utf8 string.
    pub identifier: u64,
    /// Length of `identifier` in bytes.
    pub identifier_len: usize,
    /// Flags for opening the shared memory.
    pub flags: SharedMemFlags,
}

/// Errors of closing shared memory.
#[derive(Debug, Clone, Copy, PartialEq, Eq, Structural)]
pub enum SharedMemCloseError {
    /// The identifier is not valid.
    InvalidIdentifier,
    /// The shared memory does not exist.
    NotExisting,
    /// Unspecified error.
    Unspecified,
}

/// Parameters of a shared memory close hypercall.
#[derive(Debug, Clone, Copy)]
pub struct SharedMemCloseParams {
    /// Address of the shared memory identifier utf8 string.
    pub identifier: u64,
    /// Length of `identifier` in bytes.
    pub identifier_len: usize,
    /// Result of closing the shared memory.
    pub result: Result<(), SharedMemCloseError>,
}

/// `value`, the record of `size` bytes at `gpa`, where the record lies inside
/// guest memory.
pub open spec fn record_at<T>(m: MmapMemory, gpa: int, size: int, value: T) -> Result<T, MemoryError> {
    if m.in_bounds(gpa, size) {
        Ok(value)
    } else {
        Err(MemoryError::BoundsViolation)
    }
}

impl OpenParams {
    pub open spec fn at(m: MmapMemory, gpa: int) -> OpenParams {
        OpenParams {
            name: m.value_at::<u64>(gpa),
            flags: m.value_at::<i32>(gpa + 8),
            mode: m.value_at::<i32>(gpa + 12),
            ret: m.value_at::<i32>(gpa + 16),
        }
    }

    /// The record at `gpa`.
    pub fn read_from(mem: &MmapMemory, gpa: u64) -> (r: Result<OpenParams, MemoryError>)
        requires
            mem.wf(),
        ensures
            r == record_at(*mem, gpa as int, 20, OpenParams::at(*mem, gpa as int)),
    {
        proof {
            mem.lemma_wf_bounds();
        }
        if mem.offset_of(gpa, 20).is_err() {
            return Err(MemoryError::BoundsViolation);
        }
        match (
            mem.read_typed::<u64>(gpa),
            mem.read_typed::<i32>(gpa + 8),
            mem.read_typed::<i32>(gpa + 12),
            mem.read_typed::<i32>(gpa + 16),
        ) {
            (Ok(name), Ok(flags), Ok(mode), Ok(ret)) => Ok(OpenParams { name, flags, mode, ret }),
            _ => Err(MemoryError::BoundsViolation),
        }
    }

    /// Writes `ret` back into the record at `gpa`.
    pub fn store_ret(&self, mem: &mut MmapMemory, gpa: u64) -> (r: Result<(), MemoryError>)
        requires
            old(mem).wf(),
            gpa + 20 <= u64::MAX,
        ensures
            final(mem).wf(),
            final(mem).base() == old(mem).base(),
            r is Ok ==> final(mem).value_at::<i32>(gpa + 16) == self.ret,
            old(mem).in_bounds(gpa as int, 20) ==> r is Ok,
            r is Ok ==> final(mem).bytes() == splice(
                old(mem).bytes(),
                old(mem).offset(gpa + 16),
                self.ret.encode(),
            ),
            r is Err ==> final(mem).bytes() == old(mem).bytes(),
    {
        let r = mem.write_typed(gpa + 16, &self.ret);
        proof {
            if r is Ok {
                crate::mem::lemma_write_then_read(*old(mem), *mem, gpa + 16, self.ret);
            }
        }
        r
    }
}

impl CloseParams {
    pub open spec fn at(m: MmapMemory, gpa: int) -> CloseParams {
        CloseParams {
            fd: m.value_at::<i32>(gpa),
            ret: m.value_at::<i32>(gpa + 4),
        }
    }

    /// The record at `gpa`.
    pub fn read_from(mem: &MmapMemory, gpa: u64) -> (r: Result<CloseParams, MemoryError>)
        requires
            mem.wf(),
        ensures
            r == record_at(*mem, gpa as int, 8, CloseParams::at(*mem, gpa as int)),
    {
        proof {
            mem.lemma_wf_bounds();
        }
        if mem.offset_of(gpa, 8).is_err() {
            return Err(MemoryError::BoundsViolation);
        }
        match (
            mem.read_typed::<i32>(gpa),
            mem.read_typed::<i32>(gpa + 4),
        ) {
            (Ok(fd), Ok(ret)) => Ok(CloseParams { fd, ret }),
            _ => Err(MemoryError::BoundsViolation),
        }
    }

    /// Writes `ret` back into the record at `gpa`.
    pub fn store_ret(&self, mem: &mut MmapMemory, gpa: u64) -> (r: Result<(), MemoryError>)
        requires
            old(mem).wf(),
            gpa + 8 <= u64::MAX,
        ensures
            final(mem).wf(),
            final(mem).base() == old(mem).base(),
            r is Ok ==> final(mem).value_at::<i32>(gpa + 4) == self.ret,
            old(mem).in_bounds(gpa as int, 8) ==> r is Ok,
            r is Ok ==> final(mem).bytes() == splice(
                old(mem).bytes(),
                old(mem).offset(gpa + 4),
                self.ret.encode(),
            ),
            r is Err ==> final(mem).bytes() == old(mem).bytes(),
    {
        let r = mem.write_typed(gpa + 4, &self.ret);
        proof {
            if r is Ok {
                crate::mem::lemma_write_then_read(*old(mem), *mem, gpa + 4, self.ret);
            }
        }
        r
    }
}

impl ReadParams {
    pub open spec fn at(m: MmapMemory, gpa: int) -> ReadParams {
        ReadParams {
            fd: m.value_at::<i32>(gpa),
            buf: m.value_at::<u64>(gpa + 4),
            len: m.value_at::<usize>(gpa + 12),
            ret: m.value_at::<isize>(gpa + 20),
        }
    }

    /// The record at `gpa`.
    pub fn read_from(mem: &MmapMemory, gpa: u64) -> (r: Result<ReadParams, MemoryError>)
        requires
            mem.wf(),
        ensures
            r == record_at(*mem, gpa as int, 28, ReadParams::at(*mem, gpa as int)),
    {
        proof {
            mem.lemma_wf_bounds();
        }
        if mem.offset_of(gpa, 28).is_err() {
            return Err(MemoryError::BoundsViolation);
        }
        match (
            mem.read_typed::<i32>(gpa),
            mem.read_typed::<u64>(gpa + 4),
            mem.read_typed::<usize>(gpa + 12),
            mem.read_typed::<isize>(gpa + 20),
        ) {
            (Ok(fd), Ok(buf), Ok(len), Ok(ret)) => Ok(ReadParams { fd, buf, len, ret }),
            _ => Err(MemoryError::BoundsViolation),
        }
    }

    /// Writes `ret` back into the record at `gpa`.
    pub fn store_ret(&self, mem: &mut MmapMemory, gpa: u64) -> (r: Result<(), MemoryError>)
        requires
            old(mem).wf(),
            gpa + 28 <= u64::MAX,
        ensures
            final(mem).wf(),
            final(mem).base() == old(mem).base(),
            r is Ok ==> final(mem).value_at::<isize>(gpa + 20) == self.ret,
            old(mem).in_bounds(gpa as int, 28) ==> r is Ok,
            r is Ok ==> final(mem).bytes() == splice(
                old(mem).bytes(),
                old(mem).offset(gpa + 20),
                self.ret.encode(),
            ),
            r is Err ==> final(mem).bytes() == old(mem).bytes(),
    {
        let r = mem.write_typed(gpa + 20, &self.ret);
        proof {
            if r is Ok {
                crate::mem::lemma_write_then_read(*old(mem), *mem, gpa + 20, self.ret);
            }
        }
        r
    }
}

impl WriteParams {
    pub open spec fn at(m: MmapMemory, gpa: int) -> WriteParams {
        WriteParams {
            fd: m.value_at::<i32>(gpa),
            buf: m.value_at::<u64>(gpa + 4),
            len: m.value_at::<usize>(gpa + 12),
        }
    }

    /// The record at `gpa`.
    pub fn read_from(mem: &MmapMemory, gpa: u64) -> (r: Result<WriteParams, MemoryError>)
        requires
            mem.wf(),
        ensures
            r == record_at(*mem, gpa as int, 20, WriteParams::at(*mem, gpa as int)),
    {
        proof {
            mem.lemma_wf_bounds();
        }
        if mem.offset_of(gpa, 20).is_err() {
            return Err(MemoryError::BoundsViolation);
        }
        match (
            mem.read_typed::<i32>(gpa),
            mem.read_typed::<u64>(gpa + 4),
            mem.read_typed::<usize>(gpa + 12),
        ) {
            (Ok(fd), Ok(buf), Ok(len)) => Ok(WriteParams { fd, buf, len }),
            _ => Err(MemoryError::BoundsViolation),
        }
    }
}

impl LseekParams {
    pub open spec fn at(m: MmapMemory, gpa: int) -> LseekParams {
        LseekParams {
            fd: m.value_at::<i32>(gpa),
            offset: m.value_at::<isize>(gpa + 4),
            whence: m.value_at::<i32>(gpa + 12),
        }
    }

    /// The record at `gpa`.
    pub fn read_from(mem: &MmapMemory, gpa: u64) -> (r: Result<LseekParams, MemoryError>)
        requires
            mem.wf(),
        ensures
            r == record_at(*mem, gpa as int, 16, LseekParams::at(*mem, gpa as int)),
    {
        proof {
            mem.lemma_wf_bounds();
        }
        if mem.offset_of(gpa, 16).is_err() {
            return Err(MemoryError::BoundsViolation);
        }
        match (
            mem.read_typed::<i32>(gpa),
            mem.read_typed::<isize>(gpa + 4),
            mem.read_typed::<i32>(gpa + 12),
        ) {
            (Ok(fd), Ok(offset), Ok(whence)) => Ok(LseekParams { fd, offset, whence }),
            _ => Err(MemoryError::BoundsViolation),
        }
    }

    /// Writes `offset` back into the record at `gpa`.
    pub fn store_offset(&self, mem: &mut MmapMemory, gpa: u64) -> (r: Result<(), MemoryError>)
        requires
            old(mem).wf(),
            gpa + 16 <= u64::MAX,
        ensures
            final(mem).wf(),
            final(mem).base() == old(mem).base(),
            r is Ok ==> final(mem).value_at::<isize>(gpa + 4) == self.offset,
            old(mem).in_bounds(gpa as int, 16) ==> r is Ok,
            r is Ok ==> final(mem).bytes() == splice(
                old(mem).bytes(),
                old(mem).offset(gpa + 4),
                self.offset.encode(),
            ),
            r is Err ==> final(mem).bytes() == old(mem).bytes(),
    {
        let r = mem.write_typed(gpa + 4, &self.offset);
        proof {
            if r is Ok {
                crate::mem::lemma_write_then_read(*old(mem), *mem, gpa + 4, self.offset);
            }
        }
        r
    }
}

impl UnlinkParams {
    pub open spec fn at(m: MmapMemory, gpa: int) -> UnlinkParams {
        UnlinkParams {
            name: m.value_at::<u64>(gpa),
            ret: m.value_at::<i32>(gpa + 8),
        }
    }

    /// The record at `gpa`.
    pub fn read_from(mem: &MmapMemory, gpa: u64) -> (r: Result<UnlinkParams, MemoryError>)
        requires
            mem.wf(),
        ensures
            r == record_at(*mem, gpa as int, 12, UnlinkParams::at(*mem, gpa as int)),
    {
        proof {
            mem.lemma_wf_bounds();
        }
        if mem.offset_of(gpa, 12).is_err() {
            return Err(MemoryError::BoundsViolation);
        }
        match (
            mem.read_typed::<u64>(gpa),
            mem.read_typed::<i32>(gpa + 8),
        ) {
            (Ok(name), Ok(ret)) => Ok(UnlinkParams { name, ret }),
            _ => Err(MemoryError::BoundsViolation),
        }
    }

    /// Writes `ret` back into the record at `gpa`.
    pub fn store_ret(&self, mem: &mut MmapMemory, gpa: u64) -> (r: Result<(), MemoryError>)
        requires
            old(mem).wf(),
            gpa + 12 <= u64::MAX,
        ensures
            final(mem).wf(),
            final(mem).base() == old(mem).base(),
            r is Ok ==> final(mem).value_at::<i32>(gpa + 8) == self.ret,
            old(mem).in_bounds(gpa as int, 12) ==> r is Ok,
            r is Ok ==> final(mem).bytes() == splice(
                old(mem).bytes(),
                old(mem).offset(gpa + 8),
                self.ret.encode(),
            ),
            r is Err ==> final(mem).bytes() == old(mem).bytes(),
    {
        let r = mem.write_typed(gpa + 8, &self.ret);
        proof {
            if r is Ok {
                crate::mem::lemma_write_then_read(*old(mem), *mem, gpa + 8, self.ret);
            }
        }
        r
    }
}

impl SerialWriteBufferParams {
    pub open spec fn at(m: MmapMemory, gpa: int) -> SerialWriteBufferParams {
        SerialWriteBufferParams {
            buf: m.value_at::<u64>(gpa),
            len: m.value_at::<usize>(gpa + 8),
        }
    }

    /// The record at `gpa`.
    pub fn read_from(mem: &MmapMemory, gpa: u64) -> (r: Result<SerialWriteBufferParams, MemoryError>)
        requires
            mem.wf(),
        ensures
            r == record_at(*mem, gpa as int, 16, SerialWriteBufferParams::at(*mem, gpa as int)),
    {
        proof {
            mem.lemma_wf_bounds();
        }
        if mem.offset_of(gpa, 16).is_err() {
            return Err(MemoryError::BoundsViolation);
        }
        match (
            mem.read_typed::<u64>(gpa),
            mem.read_typed::<usize>(gpa + 8),
        ) {
            (Ok(buf), Ok(len)) => Ok(SerialWriteBufferParams { buf, len }),
            _ => Err(MemoryError::BoundsViolation),
        }
    }
}

impl CmdvalParams {
    pub open spec fn at(m: MmapMemory, gpa: int) -> CmdvalParams {
        CmdvalParams {
            argv: m.value_at::<u64>(gpa),
            envp: m.value_at::<u64>(gpa + 8),
        }
    }

    /// The record at `gpa`.
    pub fn read_from(mem: &MmapMemory, gpa: u64) -> (r: Result<CmdvalParams, MemoryError>)
        requires
            mem.wf(),
        ensures
            r == record_at(*mem, gpa as int, 16, CmdvalParams::at(*mem, gpa as int)),
    {
        proof {
            mem.lemma_wf_bounds();
        }
        if mem.offset_of(gpa, 16).is_err() {
            return Err(MemoryError::BoundsViolation);
        }
        match (mem.read_typed::<u64>(gpa), mem.read_typed::<u64>(gpa + 8)) {
            (Ok(argv), Ok(envp)) => Ok(CmdvalParams { argv, envp }),
            _ => Err(MemoryError::BoundsViolation),
        }
    }
}

} // verus!
