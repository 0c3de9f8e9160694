use uhyvelib::mem::{MemoryError, MmapMemory};

#[test]
fn write_then_read_round_trips() {
    let mut mem = MmapMemory::new(0x2000, 0x8000);
    mem.write_typed(0x8010, &0x1122_3344_5566_7788u64).unwrap();
    assert_eq!(mem.read_typed::<u64>(0x8010), Ok(0x1122_3344_5566_7788));
    mem.write_typed(0x8020, &-5i32).unwrap();
    assert_eq!(mem.read_typed::<i32>(0x8020), Ok(-5));
    mem.write_typed(0x8030, &-7isize).unwrap();
    assert_eq!(mem.read_typed::<isize>(0x8030), Ok(-7));
    mem.write_typed(0x8040, &usize::MAX).unwrap();
    assert_eq!(mem.read_typed::<usize>(0x8040), Ok(usize::MAX));
    // the last 8 bytes of the region
    mem.write_typed(0x9ff8, &42u64).unwrap();
    assert_eq!(mem.read_typed::<u64>(0x9ff8), Ok(42));
}

#[test]
fn values_are_little_endian() {
    let mut mem = MmapMemory::new(0x100, 0);
    mem.write_typed(0, &0x0102_0304u32).unwrap();
    assert_eq!(mem.slice_at(0, 4).unwrap(), &[4u8, 3, 2, 1][..]);
}

#[test]
fn reads_past_the_end_are_bounds_violations() {
    let mut mem = MmapMemory::new(0x1000, 0x4000);
    assert_eq!(mem.read_typed::<u64>(0x4ff9), Err(MemoryError::BoundsViolation));
    assert_eq!(mem.read_typed::<u64>(0x5000), Err(MemoryError::BoundsViolation));
    assert_eq!(mem.read_typed::<u32>(0x3fff), Err(MemoryError::BoundsViolation));
    assert_eq!(mem.write_typed(0x4ffc, &1u64), Err(MemoryError::BoundsViolation));
    assert_eq!(mem.read_typed::<u32>(0x4ffc), Ok(0));
    assert_eq!(mem.slice_at(0x4800, 0x801), Err(MemoryError::BoundsViolation));
}

#[test]
fn memory_starts_zeroed() {
    let mem = MmapMemory::new(0x100, 0x1000);
    assert_eq!(mem.guest_address(), 0x1000);
    assert_eq!(mem.memory_size(), 0x100);
    assert!(mem.slice_at(0x1000, 0x100).unwrap().iter().all(|b| *b == 0));
}

#[test]
fn c_strings() {
    let mut mem = MmapMemory::new(0x100, 0x1000);
    mem.write_bytes(0x1010, b"foo.txt\0").unwrap();
    assert_eq!(mem.read_cstr(0x1010), Ok(b"foo.txt".to_vec()));
    assert_eq!(mem.read_cstr(0x1017), Ok(Vec::new()));
    mem.write_bytes(0x10fc, b"abcd").unwrap();
    assert_eq!(mem.read_cstr(0x10fc), Err(MemoryError::BoundsViolation));
    assert_eq!(mem.read_cstr(0x2000), Err(MemoryError::BoundsViolation));
}
