//! The machine a worker runs on, and the check that a worker never
//! advertises more than that machine has.

use vstd::prelude::*;
use crate::memory::{memory_text, Memory};
use crate::text::{chars_of, decimal, parse_u64, parse_u64_spec, push_str, string_from, trim, trim_chars, u64_text};

verus! {

/// The physical resources of a machine.
#[derive(Debug, Clone, Copy, PartialEq, Eq, Structural)]
pub struct HostResources {
    pub cpu: u32,
    pub memory_bytes: u64,
}

/// Why advertised capacity was refused.
#[derive(Debug, Clone, Copy, PartialEq, Eq, Structural)]
pub enum CapacityError {
    /// No cores advertised.
    ZeroCpu,
    /// More cores advertised than the machine has.
    TooManyCores { requested: u32, available: u32 },
    /// No memory advertised.
    ZeroMemory,
    /// More memory advertised than the machine has.
    TooMuchMemory { requested: Memory, available: Memory },
}

/// The verdict on advertised capacity: zero cores, then too many cores,
/// then zero memory, then too much memory are refused, in that order.
pub open spec fn capacity_verdict(cpu: u32, memory: Memory, host: HostResources) -> Option<CapacityError> {
    if cpu == 0 {
        Some(CapacityError::ZeroCpu)
    } else if cpu > host.cpu {
        Some(CapacityError::TooManyCores { requested: cpu, available: host.cpu })
    } else if memory@ == 0 {
        Some(CapacityError::ZeroMemory)
    } else if memory@ > host.memory_bytes {
        Some(CapacityError::TooMuchMemory { requested: memory, available: Memory::from_bytes_spec(host.memory_bytes) })
    } else {
        None
    }
}

/// Refuses capacity that is zero or exceeds the machine's.
pub fn validate_capacity(cpu: u32, memory: Memory, host: HostResources) -> (r: Result<(), CapacityError>)
    ensures
        match capacity_verdict(cpu, memory, host) {
            None => r is Ok,
            Some(e) => r == Err::<(), CapacityError>(e),
        },
{
    if cpu == 0 {
        return Err(CapacityError::ZeroCpu);
    }
    if cpu > host.cpu {
        return Err(CapacityError::TooManyCores { requested: cpu, available: host.cpu });
    }
    let want = memory.bytes();
    if want == 0 {
        return Err(CapacityError::ZeroMemory);
    }
    if want > host.memory_bytes {
        return Err(CapacityError::TooMuchMemory { requested: memory, available: Memory::from_bytes(host.memory_bytes) });
    }
    Ok(())
}

/// The message of a capacity error.
pub open spec fn capacity_message(e: CapacityError) -> Seq<char> {
    match e {
        CapacityError::ZeroCpu => "cpu must be at least 1"@,
        CapacityError::TooManyCores { requested, available } => "requested "@ + decimal(requested as nat)
            + " cores but machine has "@ + decimal(available as nat),
        CapacityError::ZeroMemory => "memory must be greater than 0"@,
        CapacityError::TooMuchMemory { requested, available } => "requested "@ + memory_text(requested@)
            + " memory but machine has "@ + memory_text(available@),
    }
}

impl CapacityError {
    /// The message telling what was refused.
    pub fn message(&self) -> (r: String)
        ensures
            r@ == capacity_message(*self),
    {
        match self {
            CapacityError::ZeroCpu => string_from("cpu must be at least 1"),
            CapacityError::TooManyCores { requested, available } => {
                let mut s = string_from("requested ");
                push_str(&mut s, u64_text(*requested as u64).as_str());
                push_str(&mut s, " cores but machine has ");
                push_str(&mut s, u64_text(*available as u64).as_str());
                s
            },
            CapacityError::ZeroMemory => string_from("memory must be greater than 0"),
            CapacityError::TooMuchMemory { requested, available } => {
                let mut s = string_from("requested ");
                push_str(&mut s, requested.to_string().as_str());
                push_str(&mut s, " memory but machine has ");
                push_str(&mut s, available.to_string().as_str());
                s
            },
        }
    }
}

/// The value `sysctl -n` printed, read as a `u64` after trimming.
pub fn parse_sysctl_value(output: &str) -> (r: Option<u64>)
    ensures
        r == parse_u64_spec(trim(output@)),
{
    let v = chars_of(output);
    let t = trim_chars(&v);
    parse_u64(&t)
}

/// The machine's resources from its logical core count and memory size;
/// a core count beyond `u32` is taken as `u32::MAX`.
pub fn host_resources(logical_cpus: u64, memsize: u64) -> (r: HostResources)
    ensures
        r.cpu == (if logical_cpus <= u32::MAX { logical_cpus as u32 } else { u32::MAX }),
        r.memory_bytes == memsize,
{
    let cpu: u32 = if logical_cpus <= u32::MAX as u64 { logical_cpus as u32 } else { u32::MAX };
    HostResources { cpu, memory_bytes: memsize }
}

} // verus!
