use uhyvelib::consts::{KERNEL_OFFSET, RAM_START};
use uhyvelib::vm::{
    address_from_draw, check_kernel_fits, fdt_fits, frequency_from_cpus, generate_address,
    is_separator, place_kernel, relocation_base, split_args, stack_address,
    FrequencyDetectionFailed, LoadKernelError, ASLR_ADDRESS_LIMIT, ASLR_ADDRESS_MIN,
};

#[test]
fn random_addresses_are_aligned_and_in_range() {
    let mut seen = Vec::new();
    for _ in 0..32 {
        let a = generate_address(0x10_0000);
        assert_eq!(a & 0xffff, 0);
        assert!(a >= ASLR_ADDRESS_MIN);
        assert!(a + 0x10_0000 + KERNEL_OFFSET < ASLR_ADDRESS_LIMIT);
        seen.push(a);
    }
    assert!(seen.iter().any(|a| *a != seen[0]));
}

#[test]
fn kernel_placement() {
    assert_eq!(check_kernel_fits(0x1000, 0x10000, 0x2000, 0xf000), Ok(()));
    assert_eq!(
        check_kernel_fits(0x1000, 0x10000, 0x2000, 0xf001),
        Err(LoadKernelError::InsufficientMemory)
    );
    assert_eq!(
        check_kernel_fits(0x1000, 0x10000, 0x800, 0x10),
        Err(LoadKernelError::InsufficientMemory)
    );
    assert_eq!(stack_address(0x40_0000), 0x40_0000 - 32_768);
}

#[test]
fn arguments_split_at_separator() {
    let args: Vec<String> = ["-v", "--", "app", "--", "x"].iter().map(|s| s.to_string()).collect();
    let (k, a) = split_args(&args);
    assert_eq!(k, vec!["-v".to_string()]);
    assert_eq!(a, vec!["app".to_string(), "--".to_string(), "x".to_string()]);
    let args: Vec<String> = vec!["a".to_string(), "b".to_string()];
    let (k, a) = split_args(&args);
    assert_eq!(k, args);
    assert!(a.is_empty());
    assert!(is_separator("--"));
    assert!(!is_separator("---"));
    assert!(!is_separator("-"));
}

#[test]
fn frequency_of_the_first_cpu() {
    assert_eq!(frequency_from_cpus(&vec![2400, 3000]), Ok(2400));
    assert_eq!(frequency_from_cpus(&vec![0, 3000]), Err(FrequencyDetectionFailed));
    assert_eq!(frequency_from_cpus(&Vec::new()), Err(FrequencyDetectionFailed));
    assert_eq!(frequency_from_cpus(&vec![1 << 40]), Err(FrequencyDetectionFailed));
}

#[test]
fn addresses_from_draws() {
    assert_eq!(address_from_draw(0x100000, 0x1000), 0x100000);
    assert_eq!(address_from_draw(0x1234_5678, 0x1000), 0x1234_0000);
    assert_eq!(address_from_draw(0x000F_FFFF_FFF0_ffff - 0x80_0000, 0x1000), 0x000F_FFFF_FF70_0000);
}

#[test]
fn kernel_and_memory_placement() {
    assert_eq!(place_kernel(Some(0x20_0000), 0x50_0000), (RAM_START, 0x20_0000));
    assert_eq!(place_kernel(None, 0x50_0000), (0x50_0000, 0x50_0000 + KERNEL_OFFSET));
    assert_eq!(relocation_base(false, 0x1000), RAM_START);
    assert_eq!(relocation_base(true, ASLR_ADDRESS_LIMIT), RAM_START);
    let base = relocation_base(true, 0x1000);
    assert_eq!(base & 0xffff, 0);
    assert!(base >= ASLR_ADDRESS_MIN);
}

#[test]
fn device_tree_size() {
    assert!(fdt_fits(0x3fff));
    assert!(!fdt_fits(0x4000));
}
