use velos::host::{host_resources, parse_sysctl_value, validate_capacity, CapacityError, HostResources};
use velos::memory::Memory;

const GB: u64 = 1024 * 1024 * 1024;

fn host() -> HostResources {
    HostResources { cpu: 8, memory_bytes: 16 * GB }
}

#[test]
fn accepts_capacity_within_host() {
    assert!(validate_capacity(8, Memory::from_bytes(16 * GB), host()).is_ok());
    assert!(validate_capacity(1, Memory::from_bytes(GB), host()).is_ok());
}

#[test]
fn rejects_too_many_cores() {
    let e = validate_capacity(9, Memory::from_bytes(GB), host()).unwrap_err();
    assert_eq!(e, CapacityError::TooManyCores { requested: 9, available: 8 });
    assert_eq!(e.message(), "requested 9 cores but machine has 8");
}

#[test]
fn rejects_too_much_memory() {
    let e = validate_capacity(1, Memory::from_bytes(32 * GB), host()).unwrap_err();
    assert_eq!(e.message(), "requested 32G memory but machine has 16G");
}

#[test]
fn rejects_zero() {
    assert_eq!(validate_capacity(0, Memory::from_bytes(GB), host()), Err(CapacityError::ZeroCpu));
    assert_eq!(validate_capacity(1, Memory::from_bytes(0), host()), Err(CapacityError::ZeroMemory));
    assert_eq!(CapacityError::ZeroCpu.message(), "cpu must be at least 1");
    assert_eq!(CapacityError::ZeroMemory.message(), "memory must be greater than 0");
}

#[test]
fn sysctl_output_is_read() {
    assert_eq!(parse_sysctl_value("17179869184\n"), Some(17179869184));
    assert_eq!(parse_sysctl_value("  8 "), Some(8));
    assert_eq!(parse_sysctl_value("eight"), None);
    assert_eq!(host_resources(10, 5), HostResources { cpu: 10, memory_bytes: 5 });
    assert_eq!(host_resources(1 << 40, 5).cpu, u32::MAX);
}
