//! Hypercalls: decoding a guest's port write into a typed call with its
//! parameter record, and the host's decisions for each call. Where a call
//! needs the host's file system, a handler returns the host operation to
//! perform and a `*_done` function takes its result.
use vstd::prelude::*;

use vstd::slice::slice_to_vec;
use vstd::utf8::valid_utf8;

use crate::consts::{
    ALLOWED_OPEN_FLAGS, EBADF, EFAULT, EINVAL, ENOENT, O_CREAT, O_DIRECTORY, O_EXCL, PTE_ADDR_MASK,
};
use crate::filemap::{after_lookup, fd_set_after_open, is_temporary_path, resolve, UhyveFileMap};
use crate::mem::{GuestValue, MemoryError, MmapMemory};
use crate::paging::{translate, virt_to_phys};
use crate::params::{
    CmdvalParams, CloseParams, LseekParams, OpenParams, ReadParams, SerialWriteBufferParams, UnlinkParams,
    WriteParams,
};

verus! {

/// The I/O ports the guest writes to for hypercalls.
#[derive(Debug, Clone, Copy, PartialEq, Eq, Structural)]
pub enum HypercallAddress {
    FileWrite,
    FileOpen,
    FileClose,
    FileRead,
    Exit,
    FileLseek,
    Cmdsize,
    Cmdval,
    Uart,
    FileUnlink,
    SerialBufferWrite,
}

/// The port of each hypercall.
pub open spec fn port_of(a: HypercallAddress) -> u16 {
    match a {
        HypercallAddress::FileWrite => 0x400,
        HypercallAddress::FileOpen => 0x440,
        HypercallAddress::FileClose => 0x480,
        HypercallAddress::FileRead => 0x500,
        HypercallAddress::Exit => 0x540,
        HypercallAddress::FileLseek => 0x580,
        HypercallAddress::Cmdsize => 0x740,
        HypercallAddress::Cmdval => 0x780,
        HypercallAddress::Uart => 0x800,
        HypercallAddress::FileUnlink => 0x840,
        HypercallAddress::SerialBufferWrite => 0x880,
    }
}

/// `port` is the port of a hypercall.
pub open spec fn is_hypercall_port(port: u64) -> bool {
    ||| port == 0x400
    ||| port == 0x440
    ||| port == 0x480
    ||| port == 0x500
    ||| port == 0x540
    ||| port == 0x580
    ||| port == 0x740
    ||| port == 0x780
    ||| port == 0x800
    ||| port == 0x840
    ||| port == 0x880
}

impl HypercallAddress {
    pub fn port(self) -> (r: u16)
        ensures
            r == port_of(self),
    {
        match self {
            HypercallAddress::FileWrite => 0x400,
            HypercallAddress::FileOpen => 0x440,
            HypercallAddress::FileClose => 0x480,
            HypercallAddress::FileRead => 0x500,
            HypercallAddress::Exit => 0x540,
            HypercallAddress::FileLseek => 0x580,
            HypercallAddress::Cmdsize => 0x740,
            HypercallAddress::Cmdval => 0x780,
            HypercallAddress::Uart => 0x800,
            HypercallAddress::FileUnlink => 0x840,
            HypercallAddress::SerialBufferWrite => 0x880,
        }
    }

    /// The hypercall of `port`, if it is one.
    pub fn from_port(port: u64) -> (r: Option<HypercallAddress>)
        ensures
            match r {
                Some(a) => port_of(a) == port,
                None => !is_hypercall_port(port),
            },
    {
        if port == 0x400 {
            Some(HypercallAddress::FileWrite)
        } else if port == 0x440 {
            Some(HypercallAddress::FileOpen)
        } else if port == 0x480 {
            Some(HypercallAddress::FileClose)
        } else if port == 0x500 {
            Some(HypercallAddress::FileRead)
        } else if port == 0x540 {
            Some(HypercallAddress::Exit)
        } else if port == 0x580 {
            Some(HypercallAddress::FileLseek)
        } else if port == 0x740 {
            Some(HypercallAddress::Cmdsize)
        } else if port == 0x780 {
            Some(HypercallAddress::Cmdval)
        } else if port == 0x800 {
            Some(HypercallAddress::Uart)
        } else if port == 0x840 {
            Some(HypercallAddress::FileUnlink)
        } else if port == 0x880 {
            Some(HypercallAddress::SerialBufferWrite)
        } else {
            None
        }
    }
}

/// A decoded hypercall with its parameter record and the record's
/// guest-physical address.
#[derive(Debug, Clone, Copy)]
pub enum Hypercall {
    FileClose(u64, CloseParams),
    FileLseek(u64, LseekParams),
    FileOpen(u64, OpenParams),
    FileRead(u64, ReadParams),
    FileWrite(WriteParams),
    FileUnlink(u64, UnlinkParams),
    Exit(i32),
    SerialWriteByte(u8),
    SerialWriteBuffer(SerialWriteBufferParams),
    /// The address of the size record to fill.
    Cmdsize(u64),
    Cmdval(CmdvalParams),
}

/// The hypercall that writing `data` to `port` makes, where the port is one
/// this host serves and the parameter record lies inside guest memory.
pub open spec fn decode_hypercall(m: MmapMemory, port: u64, data: u64) -> Option<Hypercall> {
    let d = data as int;
    if port == 0x480 && m.in_bounds(d, 8) {
        Some(Hypercall::FileClose(data, CloseParams::at(m, d)))
    } else if port == 0x580 && m.in_bounds(d, 16) {
        Some(Hypercall::FileLseek(data, LseekParams::at(m, d)))
    } else if port == 0x440 && m.in_bounds(d, 20) {
        Some(Hypercall::FileOpen(data, OpenParams::at(m, d)))
    } else if port == 0x500 && m.in_bounds(d, 28) {
        Some(Hypercall::FileRead(data, ReadParams::at(m, d)))
    } else if port == 0x400 && m.in_bounds(d, 20) {
        Some(Hypercall::FileWrite(WriteParams::at(m, d)))
    } else if port == 0x840 && m.in_bounds(d, 12) {
        Some(Hypercall::FileUnlink(data, UnlinkParams::at(m, d)))
    } else if port == 0x540 && m.in_bounds(d, 4) {
        Some(Hypercall::Exit(m.value_at::<i32>(d)))
    } else if port == 0x800 {
        Some(Hypercall::SerialWriteByte(data as u8))
    } else if port == 0x880 && m.in_bounds(d, 16) {
        Some(Hypercall::SerialWriteBuffer(SerialWriteBufferParams::at(m, d)))
    } else if port == 0x740 && m.in_bounds(d, 1032) {
        Some(Hypercall::Cmdsize(data))
    } else if port == 0x780 && m.in_bounds(d, 16) {
        Some(Hypercall::Cmdval(CmdvalParams::at(m, d)))
    } else {
        None
    }
}

/// An exit code written at `data` with `write_typed` is the code that the
/// exit hypercall on `data` carries.
pub proof fn lemma_exit_code_round_trip(before: MmapMemory, after: MmapMemory, data: u64, code: i32)
    requires
        before.in_bounds(data as int, 4),
        after.base() == before.base(),
        after.bytes() == crate::mem::splice(before.bytes(), before.offset(data as int), code.encode()),
    ensures
        decode_hypercall(after, 0x540, data) == Some(Hypercall::Exit(code)),
{
    i32::lemma_round_trip(code);
    crate::mem::lemma_splice_frame(before.bytes(), before.offset(data as int), code.encode());
    crate::mem::lemma_write_then_read(before, after, data as int, code);
}

/// Decodes the guest's write of `data` to port `addr` into a hypercall.
/// `data` is the guest-physical address of the parameter record, but for the
/// serial byte, whose payload is the low byte of `data`. `None` for a port
/// that is no hypercall this host serves, or a record outside guest memory.
pub fn address_to_hypercall(mem: &MmapMemory, addr: u64, data: u64) -> (r: Option<Hypercall>)
    requires
        mem.wf(),
    ensures
        r == decode_hypercall(*mem, addr, data),
{
    let port = match HypercallAddress::from_port(addr) {
        Some(p) => p,
        None => return None,
    };
    match port {
        HypercallAddress::FileClose => match CloseParams::read_from(mem, data) {
            Ok(p) => Some(Hypercall::FileClose(data, p)),
            Err(_) => None,
        },
        HypercallAddress::FileLseek => match LseekParams::read_from(mem, data) {
            Ok(p) => Some(Hypercall::FileLseek(data, p)),
            Err(_) => None,
        },
        HypercallAddress::FileOpen => match OpenParams::read_from(mem, data) {
            Ok(p) => Some(Hypercall::FileOpen(data, p)),
            Err(_) => None,
        },
        HypercallAddress::FileRead => match ReadParams::read_from(mem, data) {
            Ok(p) => Some(Hypercall::FileRead(data, p)),
            Err(_) => None,
        },
        HypercallAddress::FileWrite => match WriteParams::read_from(mem, data) {
            Ok(p) => Some(Hypercall::FileWrite(p)),
            Err(_) => None,
        },
        HypercallAddress::FileUnlink => match UnlinkParams::read_from(mem, data) {
            Ok(p) => Some(Hypercall::FileUnlink(data, p)),
            Err(_) => None,
        },
        HypercallAddress::Exit => match mem.read_typed::<i32>(data) {
            Ok(code) => Some(Hypercall::Exit(code)),
            Err(_) => None,
        },
        HypercallAddress::Uart => Some(Hypercall::SerialWriteByte(#[verifier::truncate] (data as u8))),
        HypercallAddress::SerialBufferWrite => match SerialWriteBufferParams::read_from(mem, data) {
            Ok(p) => Some(Hypercall::SerialWriteBuffer(p)),
            Err(_) => None,
        },
        HypercallAddress::Cmdsize => match mem.offset_of(data, 1032) {
            Ok(_) => Some(Hypercall::Cmdsize(data)),
            Err(_) => None,
        },
        HypercallAddress::Cmdval => match CmdvalParams::read_from(mem, data) {
            Ok(p) => Some(Hypercall::Cmdval(p)),
            Err(_) => None,
        },
    }
}

/// Relies on `std::str::from_utf8`: it succeeds exactly on valid UTF-8.
#[verifier::external_body]
fn is_valid_utf8(b: &[u8]) -> (r: bool)
    ensures
        r == valid_utf8(b@),
{
    std::str::from_utf8(b).is_ok()
}

/// The open flags the host honours; the guest's other flags are dropped.
pub open spec fn open_flags(f: i32) -> i32 {
    f & ALLOWED_OPEN_FLAGS
}

/// `O_DIRECTORY` and `O_CREAT` together, which the host refuses.
pub open spec fn conflicting_flags(f: i32) -> bool {
    f & (O_DIRECTORY | O_CREAT) == O_DIRECTORY | O_CREAT
}

/// A host `open` to perform for the guest.
pub struct HostOpen {
    pub path: Vec<u8>,
    pub flags: i32,
    pub mode: i32,
}

/// Handles an open hypercall: checks the flags, reads the guest path and
/// looks it up. Returns the host open to perform, whose result goes to
/// `open_done`; without one, `ret` holds the negated error number.
/// An unmapped path opened with `O_CREAT` becomes a temporary file, opened
/// with `O_EXCL` added.
pub fn open(mem: &MmapMemory, sysopen: &mut OpenParams, file_map: &mut UhyveFileMap) -> (r: Option<
    HostOpen,
>)
    requires
        mem.wf(),
        old(file_map).wf(),
    ensures
        final(file_map).wf(),
        final(file_map).fd_set() == old(file_map).fd_set(),
        final(file_map).tempdir_path() == old(file_map).tempdir_path(),
        final(sysopen).name == old(sysopen).name,
        final(sysopen).flags == old(sysopen).flags,
        final(sysopen).mode == old(sysopen).mode,
        conflicting_flags(open_flags(old(sysopen).flags)) ==> r is None && final(sysopen).ret
            == -EINVAL && final(file_map)@ == old(file_map)@,
        !conflicting_flags(open_flags(old(sysopen).flags)) ==> match mem.cstr_at(
            old(sysopen).name as int,
        ) {
            None => r is None && final(sysopen).ret == -EFAULT && final(file_map)@ == old(file_map)@,
            Some(g) => if !valid_utf8(g) {
                r is None && final(sysopen).ret == -EINVAL && final(file_map)@ == old(file_map)@
            } else {
                match resolve(old(file_map)@, g) {
                    Some(h) => r matches Some(o) && o.path@ == h && o.flags == open_flags(
                        old(sysopen).flags,
                    ) && o.mode == old(sysopen).mode && final(file_map)@ == after_lookup(
                        old(file_map)@,
                        g,
                    ) && final(sysopen).ret == old(sysopen).ret,
                    None => if open_flags(old(sysopen).flags) & O_CREAT == O_CREAT {
                        r matches Some(o) && is_temporary_path(
                            old(file_map)@,
                            old(file_map).tempdir_path(),
                            g,
                            o.path@,
                        ) && (forall|k: Seq<u8>|
                            old(file_map)@.contains_key(k) ==> old(file_map)@[k] != o.path@)
                            && o.flags == open_flags(old(sysopen).flags) | O_EXCL && o.mode == old(sysopen).mode && final(file_map)@ == old(file_map)@.insert(g, o.path@)
                            && final(sysopen).ret == old(sysopen).ret
                    } else {
                        r is None && final(sysopen).ret == -ENOENT && final(file_map)@ == old(file_map)@
                    },
                }
            },
        },
{
    let flags = sysopen.flags & ALLOWED_OPEN_FLAGS;
    if flags & (O_DIRECTORY | O_CREAT) == O_DIRECTORY | O_CREAT {
        sysopen.ret = -EINVAL;
        return None;
    }
    let guest_path = match mem.read_cstr(sysopen.name) {
        Ok(g) => g,
        Err(_) => {
            sysopen.ret = -EFAULT;
            return None;
        },
    };
    if !is_valid_utf8(guest_path.as_slice()) {
        sysopen.ret = -EINVAL;
        return None;
    }
    match file_map.get_host_path_bytes(guest_path.as_slice()) {
        Some(host_path) => Some(HostOpen { path: host_path, flags, mode: sysopen.mode }),
        None => {
            if flags & O_CREAT == O_CREAT {
                // An existing file would be in the map; with `O_EXCL` a file
                // planted under the temporary name makes the open fail.
                let path = file_map.create_temporary_file(guest_path.as_slice());
                Some(HostOpen { path, flags: flags | O_EXCL, mode: sysopen.mode })
            } else {
                sysopen.ret = -ENOENT;
                None
            }
        },
    }
}

/// Takes the result of the host open: the file descriptor, or a negated
/// error number. A file descriptor is handed to the guest.
pub fn open_done(sysopen: &mut OpenParams, file_map: &mut UhyveFileMap, fd: i32)
    ensures
        final(sysopen).ret == fd,
        final(sysopen).name == old(sysopen).name,
        final(sysopen).flags == old(sysopen).flags,
        final(sysopen).mode == old(sysopen).mode,
        final(file_map).fd_set() == fd_set_after_open(old(file_map).fd_set(), fd),
        final(file_map)@ == old(file_map)@,
        old(file_map).wf() ==> final(file_map).wf(),
        final(file_map).tempdir_path() == old(file_map).tempdir_path(),
{
    sysopen.ret = fd;
    file_map.insert_fd(fd);
}

/// Handles a close hypercall. Returns whether the host must close `fd`,
/// whose result goes to `close_done`. Closing the standard streams does
/// nothing and succeeds; closing a file descriptor the guest did not open
/// fails with `-EBADF`.
pub fn close(sysclose: &mut CloseParams, file_map: &UhyveFileMap) -> (r: bool)
    ensures
        final(sysclose).fd == old(sysclose).fd,
        0 <= old(sysclose).fd <= 2 ==> !r && final(sysclose).ret == 0,
        !(0 <= old(sysclose).fd <= 2) && file_map.fd_set().contains(old(sysclose).fd) ==> r
            && final(sysclose).ret == old(sysclose).ret,
        !(0 <= old(sysclose).fd <= 2) && !file_map.fd_set().contains(old(sysclose).fd) ==> !r
            && final(sysclose).ret == -EBADF,
{
    if 0 <= sysclose.fd && sysclose.fd <= 2 {
        // The host's own standard streams stay open.
        sysclose.ret = 0;
        false
    } else if file_map.is_fd_present(sysclose.fd) {
        true
    } else {
        sysclose.ret = -EBADF;
        false
    }
}

/// Takes the result of the host close, after which the guest may no longer
/// use the file descriptor.
pub fn close_done(sysclose: &mut CloseParams, file_map: &mut UhyveFileMap, host_ret: i32)
    ensures
        final(sysclose).fd == old(sysclose).fd,
        final(sysclose).ret == host_ret,
        final(file_map).fd_set() == old(file_map).fd_set().remove(old(sysclose).fd),
        final(file_map)@ == old(file_map)@,
        old(file_map).wf() ==> final(file_map).wf(),
        final(file_map).tempdir_path() == old(file_map).tempdir_path(),
{
    sysclose.ret = host_ret;
    file_map.remove_fd(sysclose.fd);
}

/// After the host opened `fd` for the guest and closed it again, the guest
/// may no longer use `fd`; its other file descriptors are as before.
pub proof fn lemma_open_then_close(before: Set<i32>, fd: i32)
    ensures
        !fd_set_after_open(before, fd).remove(fd).contains(fd),
        forall|x: i32|
            x != fd ==> (#[trigger] fd_set_after_open(before, fd).remove(fd).contains(x)
                <==> before.contains(x)),
{
}

/// Handles a read hypercall. Returns the guest-physical address of the
/// buffer that the host reads `len` bytes of `fd` into, whose result goes to
/// `read_done`; without one, `ret` holds the negated error number.
pub fn read(mem: &MmapMemory, sysread: &mut ReadParams, root_pt: u64, file_map: &UhyveFileMap) -> (r:
    Option<u64>)
    requires
        mem.wf(),
        root_pt <= PTE_ADDR_MASK,
    ensures
        final(sysread).fd == old(sysread).fd,
        final(sysread).buf == old(sysread).buf,
        final(sysread).len == old(sysread).len,
        !file_map.fd_set().contains(old(sysread).fd) ==> r is None && final(sysread).ret == -EBADF,
        file_map.fd_set().contains(old(sysread).fd) ==> match translate(
            *mem,
            root_pt,
            old(sysread).buf,
        ) {
            Some(p) => if mem.in_bounds(p as int, old(sysread).len as int) {
                r == Some(p) && final(sysread).ret == old(sysread).ret
            } else {
                r is None && final(sysread).ret == -EFAULT
            },
            None => r is None && final(sysread).ret == -EFAULT,
        },
{
    if !file_map.is_fd_present(sysread.fd) {
        sysread.ret = -EBADF as isize;
        return None;
    }
    match virt_to_phys(sysread.buf, mem, root_pt) {
        Ok(p) => {
            if mem.offset_of(p, sysread.len).is_ok() {
                Some(p)
            } else {
                sysread.ret = -EFAULT as isize;
                None
            }
        },
        Err(_) => {
            sysread.ret = -EFAULT as isize;
            None
        },
    }
}

/// Takes the result of the host read into the buffer at `phys`: the bytes
/// read, or `None` where the read failed.
pub fn read_done(
    mem: &mut MmapMemory,
    sysread: &mut ReadParams,
    phys: u64,
    bytes: Option<Vec<u8>>,
)
    requires
        old(mem).wf(),
        old(mem).in_bounds(phys as int, old(sysread).len as int),
        bytes matches Some(b) ==> b@.len() <= old(sysread).len,
    ensures
        final(mem).wf(),
        final(mem).base() == old(mem).base(),
        final(sysread).fd == old(sysread).fd,
        final(sysread).buf == old(sysread).buf,
        final(sysread).len == old(sysread).len,
        match bytes {
            Some(b) => final(sysread).ret == b@.len() && final(mem).bytes()
                == crate::mem::splice(old(mem).bytes(), old(mem).offset(phys as int), b@),
            None => final(sysread).ret == -1 && final(mem).bytes() == old(mem).bytes(),
        },
{
    proof {
        mem.lemma_wf_bounds();
    }
    match bytes {
        Some(b) => {
            let _ = mem.write_bytes(phys, b.as_slice());
            sysread.ret = b.len() as isize;
        },
        None => {
            sysread.ret = -1;
        },
    }
}


/// The next step of a write hypercall.
pub enum WriteStep {
    /// The write is over.
    Done,
    /// Hand these bytes to the serial sink; the write is then over.
    Serial(Vec<u8>),
    /// Write these bytes to the host file descriptor, add the number the
    /// host wrote to the bytes written so far, and take the next step.
    Host(Vec<u8>),
    /// The buffer does not lie inside guest memory.
    Fault,
}

/// Decides the next step of a write hypercall after `written` bytes of the
/// guest's buffer were written. Writes to the standard output and error go
/// to the serial sink; writes to a file descriptor the guest did not open,
/// and writes whose next address does not translate, end without writing.
pub fn write(
    mem: &MmapMemory,
    syswrite: &WriteParams,
    root_pt: u64,
    file_map: &UhyveFileMap,
    written: usize,
) -> (r: WriteStep)
    requires
        mem.wf(),
        root_pt <= PTE_ADDR_MASK,
        written <= syswrite.len,
    ensures
        written == syswrite.len ==> r is Done,
        written < syswrite.len && syswrite.buf + written > u64::MAX ==> r is Done,
        written < syswrite.len && syswrite.buf + written <= u64::MAX ==> match translate(
            *mem,
            root_pt,
            (syswrite.buf + written) as u64,
        ) {
            None => r is Done,
            Some(p) => if syswrite.fd == 1 || syswrite.fd == 2 {
                if mem.in_bounds(p as int, syswrite.len - written) {
                    r matches WriteStep::Serial(b) && b@ == mem.bytes_at(
                        p as int,
                        syswrite.len - written,
                    )
                } else {
                    r is Fault
                }
            } else if !file_map.fd_set().contains(syswrite.fd) {
                r is Done
            } else if mem.in_bounds(p as int, syswrite.len - written) {
                r matches WriteStep::Host(b) && b@ == mem.bytes_at(
                    p as int,
                    syswrite.len - written,
                )
            } else {
                r is Fault
            },
        },
{
    if written == syswrite.len {
        return WriteStep::Done;
    }
    let gva = match syswrite.buf.checked_add(written as u64) {
        Some(a) => a,
        None => return WriteStep::Done,
    };
    let p = match virt_to_phys(gva, mem, root_pt) {
        Ok(p) => p,
        Err(_) => return WriteStep::Done,
    };
    let remaining = syswrite.len - written;
    if syswrite.fd == 1 || syswrite.fd == 2 {
        match mem.slice_at(p, remaining) {
            Ok(b) => WriteStep::Serial(slice_to_vec(b)),
            Err(_) => WriteStep::Fault,
        }
    } else if !file_map.is_fd_present(syswrite.fd) {
        // There is no return value to report the error through, and a write
        // need not write anything.
        WriteStep::Done
    } else {
        match mem.slice_at(p, remaining) {
            Ok(b) => WriteStep::Host(slice_to_vec(b)),
            Err(_) => WriteStep::Fault,
        }
    }
}

/// The bytes of a write written after the host wrote `step` of the
/// `remaining` bytes it was handed, `written` bytes having been written
/// before; `None` where the host wrote nothing or failed, which ends the
/// write.
pub fn write_advance(written: usize, remaining: usize, step: isize) -> (r: Option<usize>)
    requires
        written + remaining <= usize::MAX,
    ensures
        step <= 0 ==> r is None,
        0 < step <= remaining ==> r == Some((written + step) as usize),
        step > remaining ==> r == Some((written + remaining) as usize),
{
    if step <= 0 {
        None
    } else if step as usize <= remaining {
        Some(written + step as usize)
    } else {
        Some(written + remaining)
    }
}

/// Handles a seek hypercall. Returns whether the host must seek, whose
/// result goes to `lseek_done`; a file descriptor the guest did not open
/// gets offset `-1`.
pub fn lseek(syslseek: &mut LseekParams, file_map: &UhyveFileMap) -> (r: bool)
    ensures
        final(syslseek).fd == old(syslseek).fd,
        final(syslseek).whence == old(syslseek).whence,
        r == file_map.fd_set().contains(old(syslseek).fd),
        r ==> final(syslseek).offset == old(syslseek).offset,
        !r ==> final(syslseek).offset == -1,
{
    if file_map.is_fd_present(syslseek.fd) {
        true
    } else {
        syslseek.offset = -1;
        false
    }
}

/// Takes the offset that the host seek returned.
pub fn lseek_done(syslseek: &mut LseekParams, offset: isize)
    ensures
        final(syslseek).fd == old(syslseek).fd,
        final(syslseek).whence == old(syslseek).whence,
        final(syslseek).offset == offset,
{
    syslseek.offset = offset;
}

/// Handles an unlink hypercall. Returns the host path to unlink, whose
/// result goes to `unlink_done`; without one, `ret` holds the negated error
/// number.
pub fn unlink(mem: &MmapMemory, sysunlink: &mut UnlinkParams, file_map: &mut UhyveFileMap) -> (r:
    Option<Vec<u8>>)
    requires
        mem.wf(),
        old(file_map).wf(),
    ensures
        final(file_map).wf(),
        final(file_map).fd_set() == old(file_map).fd_set(),
        final(file_map).tempdir_path() == old(file_map).tempdir_path(),
        final(sysunlink).name == old(sysunlink).name,
        match mem.cstr_at(old(sysunlink).name as int) {
            None => r is None && final(sysunlink).ret == -EFAULT && final(file_map)@ == old(file_map)@,
            Some(g) => if !valid_utf8(g) {
                r is None && final(sysunlink).ret == -EINVAL && final(file_map)@ == old(file_map)@
            } else {
                final(file_map)@ == after_lookup(old(file_map)@, g) && match resolve(
                    old(file_map)@,
                    g,
                ) {
                    Some(h) => r matches Some(p) && p@ == h && final(sysunlink).ret == old(sysunlink).ret,
                    None => r is None && final(sysunlink).ret == -ENOENT,
                }
            },
        },
{
    let guest_path = match mem.read_cstr(sysunlink.name) {
        Ok(g) => g,
        Err(_) => {
            sysunlink.ret = -EFAULT;
            return None;
        },
    };
    if !is_valid_utf8(guest_path.as_slice()) {
        sysunlink.ret = -EINVAL;
        return None;
    }
    match file_map.get_host_path_bytes(guest_path.as_slice()) {
        Some(host_path) => Some(host_path),
        None => {
            sysunlink.ret = -ENOENT;
            None
        },
    }
}

/// Takes the result of the host unlink.
pub fn unlink_done(sysunlink: &mut UnlinkParams, host_ret: i32)
    ensures
        final(sysunlink).name == old(sysunlink).name,
        final(sysunlink).ret == host_ret,
{
    sysunlink.ret = host_ret;
}

/// The bytes of a serial buffer write.
pub fn serial_buffer(mem: &MmapMemory, params: &SerialWriteBufferParams) -> (r: Result<
    Vec<u8>,
    MemoryError,
>)
    requires
        mem.wf(),
    ensures
        mem.in_bounds(params.buf as int, params.len as int) ==> (r matches Ok(b) && b@
            == mem.bytes_at(params.buf as int, params.len as int)),
        !mem.in_bounds(params.buf as int, params.len as int) ==> r == Err::<Vec<u8>, MemoryError>(
            MemoryError::BoundsViolation,
        ),
{
    match mem.slice_at(params.buf, params.len) {
        Ok(b) => Ok(slice_to_vec(b)),
        Err(e) => Err(e),
    }
}

} // verus!
