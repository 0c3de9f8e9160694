use uhyvelib::consts::{
    ALLOWED_OPEN_FLAGS, EBADF, EFAULT, EINVAL, ENOENT, O_APPEND, O_CREAT, O_DIRECTORY, O_EXCL,
    O_RDONLY, O_WRONLY, PML4_OFFSET,
};
use uhyvelib::filemap::UhyveFileMap;
use uhyvelib::hypercall::{
    address_to_hypercall, close, close_done, lseek, lseek_done, open, open_done, read, read_done,
    serial_buffer, unlink, unlink_done, write_advance, Hypercall, HypercallAddress, WriteStep,
};
use uhyvelib::mem::{MemoryError, MmapMemory};
use uhyvelib::paging::initialize_pagetables;
use uhyvelib::params::{
    CloseParams, LseekParams, OpenParams, ReadParams, SerialWriteBufferParams, UnlinkParams,
    WriteParams,
};

const ROOT: u64 = PML4_OFFSET;

fn guest() -> MmapMemory {
    let mut mem = MmapMemory::new(0x40000, 0);
    initialize_pagetables(&mut mem);
    mem
}

fn bytes(s: &str) -> Vec<u8> {
    s.as_bytes().to_vec()
}

fn open_params(name: u64, flags: i32) -> OpenParams {
    OpenParams { name, flags, mode: 0o644, ret: 0 }
}

#[test]
fn decodes_hypercalls() {
    let mut mem = guest();
    mem.write_typed(0x20000, &7i32).unwrap();
    mem.write_typed(0x20004, &-3i32).unwrap();
    match address_to_hypercall(&mem, 0x480, 0x20000) {
        Some(Hypercall::FileClose(addr, p)) => {
            assert_eq!(addr, 0x20000);
            assert_eq!((p.fd, p.ret), (7, -3));
        }
        _ => panic!("expected a close"),
    }
    match address_to_hypercall(&mem, 0x540, 0x20004) {
        Some(Hypercall::Exit(code)) => assert_eq!(code, -3),
        _ => panic!("expected an exit"),
    }
    match address_to_hypercall(&mem, 0x800, 0x1_2341) {
        Some(Hypercall::SerialWriteByte(b)) => assert_eq!(b, 0x41),
        _ => panic!("expected a serial byte"),
    }
    // open record: name, flags, mode, ret
    mem.write_typed(0x20100, &0x3000u64).unwrap();
    mem.write_typed(0x20108, &(O_WRONLY | O_CREAT)).unwrap();
    mem.write_typed(0x2010c, &0o600i32).unwrap();
    match address_to_hypercall(&mem, 0x440, 0x20100) {
        Some(Hypercall::FileOpen(_, p)) => {
            assert_eq!(p.name, 0x3000);
            assert_eq!(p.flags, O_WRONLY | O_CREAT);
            assert_eq!(p.mode, 0o600);
        }
        _ => panic!("expected an open"),
    }
    // write record: fd, buf, len
    mem.write_typed(0x20200, &1i32).unwrap();
    mem.write_typed(0x20204, &0x5000u64).unwrap();
    mem.write_typed(0x2020c, &13usize).unwrap();
    match address_to_hypercall(&mem, 0x400, 0x20200) {
        Some(Hypercall::FileWrite(p)) => {
            let (fd, buf, len) = (p.fd, p.buf, p.len);
            assert_eq!((fd, buf, len), (1, 0x5000, 13));
        }
        _ => panic!("expected a write"),
    }
    // unknown ports and records outside memory are no hypercalls
    assert!(address_to_hypercall(&mem, 0x123, 0x20000).is_none());
    assert!(matches!(
        address_to_hypercall(&mem, 0x740, 0x20000),
        Some(Hypercall::Cmdsize(0x20000))
    ));
    assert!(address_to_hypercall(&mem, 0x740, 0x3fc00).is_none());
    assert!(address_to_hypercall(&mem, 0x480, 0x3fffc).is_none());
    assert!(address_to_hypercall(&mem, 0x500, 0x50000).is_none());
}

#[test]
fn hypercall_ports() {
    assert_eq!(HypercallAddress::FileOpen.port(), 0x440);
    assert_eq!(HypercallAddress::from_port(0x880), Some(HypercallAddress::SerialBufferWrite));
    assert_eq!(HypercallAddress::from_port(0x881), None);
}

#[test]
fn open_mapped_file() {
    let mut mem = guest();
    mem.write_bytes(0x3000, b"guest.txt\0").unwrap();
    let mut map = UhyveFileMap::new(&Some(vec!["/host/out.txt:guest.txt".to_string()]), &Vec::new(), b"/t");
    let mut p = open_params(0x3000, O_WRONLY | O_CREAT | O_EXCL | 0o10000000);
    let host = open(&mem, &mut p, &mut map).unwrap();
    assert_eq!(host.path, bytes("/host/out.txt"));
    // flags outside the allowed set are dropped
    assert_eq!(host.flags, (O_WRONLY | O_CREAT | O_EXCL | 0o10000000) & ALLOWED_OPEN_FLAGS);
    assert_eq!(host.flags, O_WRONLY | O_CREAT | O_EXCL);
    assert_eq!(host.mode, 0o644);
    open_done(&mut p, &mut map, 5);
    assert_eq!(p.ret, 5);
    assert!(map.is_fd_present(5));
    p.store_ret(&mut mem, 0x20000).unwrap();
    assert_eq!(mem.read_typed::<i32>(0x20010), Ok(5));
}

#[test]
fn open_flags_are_filtered() {
    let mut mem = guest();
    mem.write_bytes(0x3000, b"f\0").unwrap();
    let mut map = UhyveFileMap::new(&Some(vec!["/h:f".to_string()]), &Vec::new(), b"/t");
    for f in [0i32, O_APPEND, -1 & !O_DIRECTORY, 0x7fff_ffff & !O_CREAT, 0o4000000] {
        let mut p = open_params(0x3000, f);
        let host = open(&mem, &mut p, &mut map).unwrap();
        assert_eq!(host.flags, f & ALLOWED_OPEN_FLAGS);
    }
}

#[test]
fn open_creates_temporary_file_on_miss() {
    let mut mem = guest();
    mem.write_bytes(0x3000, b"foo.txt\0").unwrap();
    let mut map = UhyveFileMap::new(&None, &Vec::new(), b"/tmp/x-uhyve");
    let mut p = open_params(0x3000, O_WRONLY | O_CREAT | O_EXCL);
    let host = open(&mem, &mut p, &mut map).unwrap();
    assert_eq!(host.path, bytes("/tmp/x-uhyve/foo.txt"));
    assert_eq!(host.flags, O_WRONLY | O_CREAT | O_EXCL);
    let mut p = open_params(0x3000, O_WRONLY | O_CREAT);
    let mut map2 = UhyveFileMap::new(&None, &Vec::new(), b"/tmp/y");
    let host = open(&mem, &mut p, &mut map2).unwrap();
    // O_EXCL is forced on temporary files
    assert_eq!(host.flags, O_WRONLY | O_CREAT | O_EXCL);
    assert_eq!(map2.get_host_path("foo.txt"), Some(bytes("/tmp/y/foo.txt")));
}

#[test]
fn open_without_create_on_miss_is_enoent() {
    let mut mem = guest();
    mem.write_bytes(0x3000, b"missing.txt\0").unwrap();
    let mut map = UhyveFileMap::new(&None, &Vec::new(), b"/t");
    let mut p = open_params(0x3000, O_RDONLY);
    assert!(open(&mem, &mut p, &mut map).is_none());
    assert_eq!(p.ret, -ENOENT);
    assert_eq!(map.get_host_path("missing.txt"), None);
}

#[test]
fn open_directory_with_create_is_einval() {
    let mut mem = guest();
    mem.write_bytes(0x3000, b"d\0").unwrap();
    let mut map = UhyveFileMap::new(&Some(vec!["/h:d".to_string()]), &Vec::new(), b"/t");
    let mut p = open_params(0x3000, O_DIRECTORY | O_CREAT);
    assert!(open(&mem, &mut p, &mut map).is_none());
    assert_eq!(p.ret, -EINVAL);
}

#[test]
fn open_bad_names() {
    let mut mem = guest();
    let mut map = UhyveFileMap::new(&Some(vec!["/h:d".to_string()]), &Vec::new(), b"/t");
    // outside guest memory
    let mut p = open_params(0x80000, O_RDONLY);
    assert!(open(&mem, &mut p, &mut map).is_none());
    assert_eq!(p.ret, -EFAULT);
    // not UTF-8
    mem.write_bytes(0x3000, b"d/\xff\xfe\0").unwrap();
    let mut p = open_params(0x3000, O_RDONLY);
    assert!(open(&mem, &mut p, &mut map).is_none());
    assert_eq!(p.ret, -EINVAL);
}

#[test]
fn open_then_close() {
    let mut mem = guest();
    mem.write_bytes(0x3000, b"a\0").unwrap();
    let mut map = UhyveFileMap::new(&Some(vec!["/h/a:a".to_string()]), &Vec::new(), b"/t");
    let mut p = open_params(0x3000, O_RDONLY);
    open(&mem, &mut p, &mut map).unwrap();
    open_done(&mut p, &mut map, 9);
    assert!(map.is_fd_present(9));
    let mut c = CloseParams { fd: 9, ret: 1 };
    assert!(close(&mut c, &map));
    close_done(&mut c, &mut map, 0);
    assert_eq!(c.ret, 0);
    assert!(!map.is_fd_present(9));
    // a second close fails
    let mut c = CloseParams { fd: 9, ret: 1 };
    assert!(!close(&mut c, &map));
    assert_eq!(c.ret, -EBADF);
}

#[test]
fn failed_open_is_not_tracked() {
    let mut map = UhyveFileMap::new(&None, &Vec::new(), b"/t");
    let mut p = open_params(0, O_RDONLY);
    open_done(&mut p, &mut map, -2);
    assert_eq!(p.ret, -2);
    assert!(!map.is_fd_present(-2));
}

#[test]
fn closing_standard_streams_is_a_no_op() {
    let map = UhyveFileMap::new(&None, &Vec::new(), b"/t");
    for fd in 0..3 {
        let mut c = CloseParams { fd, ret: 7 };
        assert!(!close(&mut c, &map));
        assert_eq!(c.ret, 0);
    }
}

#[test]
fn read_into_guest_buffer() {
    let mut mem = guest();
    let mut map = UhyveFileMap::new(&None, &Vec::new(), b"/t");
    map.insert_fd(4);
    let mut r = ReadParams { fd: 4, buf: 0x30000, len: 8, ret: 0 };
    let phys = read(&mem, &mut r, ROOT, &map).unwrap();
    assert_eq!(phys, 0x30000);
    read_done(&mut mem, &mut r, phys, Some(b"hello".to_vec()));
    let ret = r.ret;
    assert_eq!(ret, 5);
    assert_eq!(mem.slice_at(0x30000, 5).unwrap(), b"hello");
    read_done(&mut mem, &mut r, phys, None);
    let ret = r.ret;
    assert_eq!(ret, -1);
}

#[test]
fn read_errors() {
    let mem = guest();
    let mut map = UhyveFileMap::new(&None, &Vec::new(), b"/t");
    let mut r = ReadParams { fd: 4, buf: 0x30000, len: 8, ret: 0 };
    assert!(read(&mem, &mut r, ROOT, &map).is_none());
    let ret = r.ret;
    assert_eq!(ret, -EBADF as isize);
    map.insert_fd(4);
    // not mapped
    let mut r = ReadParams { fd: 4, buf: 0x4000_0000, len: 8, ret: 0 };
    assert!(read(&mem, &mut r, ROOT, &map).is_none());
    let ret = r.ret;
    assert_eq!(ret, -EFAULT as isize);
    // mapped, but outside guest memory
    let mut r = ReadParams { fd: 4, buf: 0x3fffc, len: 8, ret: 0 };
    assert!(read(&mem, &mut r, ROOT, &map).is_none());
    let ret = r.ret;
    assert_eq!(ret, -EFAULT as isize);
}

#[test]
fn write_to_standard_output_goes_to_serial() {
    let mut mem = guest();
    mem.write_bytes(0x30000, b"Hello").unwrap();
    let map = UhyveFileMap::new(&None, &Vec::new(), b"/t");
    let w = WriteParams { fd: 1, buf: 0x30000, len: 5 };
    match uhyvelib::hypercall::write(&mem, &w, ROOT, &map, 0) {
        WriteStep::Serial(b) => assert_eq!(b, b"Hello".to_vec()),
        _ => panic!("expected serial output"),
    }
    let w = WriteParams { fd: 2, buf: 0x3fffe, len: 5 };
    assert!(matches!(uhyvelib::hypercall::write(&mem, &w, ROOT, &map, 0), WriteStep::Fault));
}

#[test]
fn write_to_a_file() {
    let mut mem = guest();
    mem.write_bytes(0x30000, b"Hello, world!").unwrap();
    let mut map = UhyveFileMap::new(&None, &Vec::new(), b"/t");
    let w = WriteParams { fd: 6, buf: 0x30000, len: 13 };
    // unknown descriptors write nothing
    assert!(matches!(uhyvelib::hypercall::write(&mem, &w, ROOT, &map, 0), WriteStep::Done));
    map.insert_fd(6);
    match uhyvelib::hypercall::write(&mem, &w, ROOT, &map, 0) {
        WriteStep::Host(b) => assert_eq!(b, b"Hello, world!".to_vec()),
        _ => panic!("expected a host write"),
    }
    // after a short write, the rest
    match uhyvelib::hypercall::write(&mem, &w, ROOT, &map, 7) {
        WriteStep::Host(b) => assert_eq!(b, b"world!".to_vec()),
        _ => panic!("expected a host write"),
    }
    assert!(matches!(uhyvelib::hypercall::write(&mem, &w, ROOT, &map, 13), WriteStep::Done));
    // untranslatable buffers end the write
    let w = WriteParams { fd: 6, buf: 0x4000_0000, len: 3 };
    assert!(matches!(uhyvelib::hypercall::write(&mem, &w, ROOT, &map, 0), WriteStep::Done));
}

#[test]
fn seek() {
    let mut map = UhyveFileMap::new(&None, &Vec::new(), b"/t");
    let mut s = LseekParams { fd: 8, offset: 100, whence: 0 };
    assert!(!lseek(&mut s, &map));
    let offset = s.offset;
    assert_eq!(offset, -1);
    map.insert_fd(8);
    let mut s = LseekParams { fd: 8, offset: 100, whence: 0 };
    assert!(lseek(&mut s, &map));
    lseek_done(&mut s, 100);
    let offset = s.offset;
    assert_eq!(offset, 100);
}

#[test]
fn unlink_mapped_and_unmapped() {
    let mut mem = guest();
    mem.write_bytes(0x3000, b"dir/file\0").unwrap();
    mem.write_bytes(0x3100, b"nope\0").unwrap();
    let mut map = UhyveFileMap::new(&Some(vec!["/h/d:dir".to_string()]), &Vec::new(), b"/t");
    let mut u = UnlinkParams { name: 0x3000, ret: 1 };
    assert_eq!(unlink(&mem, &mut u, &mut map), Some(bytes("/h/d/file")));
    unlink_done(&mut u, 0);
    assert_eq!(u.ret, 0);
    let mut u = UnlinkParams { name: 0x3100, ret: 1 };
    assert_eq!(unlink(&mem, &mut u, &mut map), None);
    assert_eq!(u.ret, -ENOENT);
    let mut u = UnlinkParams { name: 0x90000, ret: 1 };
    assert_eq!(unlink(&mem, &mut u, &mut map), None);
    assert_eq!(u.ret, -EFAULT);
}

#[test]
fn serial_buffer_bytes() {
    let mut mem = guest();
    mem.write_bytes(0x30000, b"Hello").unwrap();
    let p = SerialWriteBufferParams { buf: 0x30000, len: 5 };
    assert_eq!(serial_buffer(&mem, &p), Ok(b"Hello".to_vec()));
    let p = SerialWriteBufferParams { buf: 0x3ffff, len: 5 };
    assert_eq!(serial_buffer(&mem, &p), Err(MemoryError::BoundsViolation));
}

#[test]
fn write_progress() {
    assert_eq!(write_advance(3, 10, 4), Some(7));
    assert_eq!(write_advance(3, 10, 20), Some(13));
    assert_eq!(write_advance(3, 10, 0), None);
    assert_eq!(write_advance(3, 10, -1), None);
}

#[test]
fn temporary_file_is_fresh_through_open() {
    let mut mem = guest();
    mem.write_bytes(0x3000, b"a/x\0").unwrap();
    mem.write_bytes(0x3100, b"b/x\0").unwrap();
    let mut map = UhyveFileMap::new(&None, &Vec::new(), b"/t");
    let mut p = open_params(0x3000, O_WRONLY | O_CREAT);
    let first = open(&mem, &mut p, &mut map).unwrap();
    let mut p = open_params(0x3100, O_WRONLY | O_CREAT);
    let second = open(&mem, &mut p, &mut map).unwrap();
    assert_eq!(first.path, bytes("/t/x"));
    assert_eq!(second.path, bytes("/t/x~"));
}
