use velos::scheduler::{schedule, ResourceRequest, WorkerName, WorkerView};

const GB: u64 = 1024 * 1024 * 1024;

fn worker(name: &str, ready: bool, unschedulable: bool, cpu: u32, mem: u64, used_cpu: u32, used_mem: u64) -> WorkerView {
    WorkerView {
        name: WorkerName(name.to_string()),
        ready,
        unschedulable,
        allocatable: ResourceRequest { cpu, memory_bytes: mem },
        allocated: ResourceRequest { cpu: used_cpu, memory_bytes: used_mem },
    }
}

#[test]
fn picks_first_fitting_ready_worker() {
    let req = ResourceRequest { cpu: 2, memory_bytes: 2 * GB };
    let workers = vec![
        worker("w1", true, false, 1, 8 * GB, 0, 0),
        worker("w2", true, false, 4, 8 * GB, 0, 0),
    ];
    assert_eq!(schedule(&req, &workers), Some(WorkerName("w2".to_string())));
}

#[test]
fn skips_not_ready_and_unschedulable_workers() {
    let req = ResourceRequest { cpu: 1, memory_bytes: GB };
    let workers = vec![
        worker("w1", false, false, 8, 16 * GB, 0, 0),
        worker("w2", true, true, 8, 16 * GB, 0, 0),
        worker("w3", true, false, 8, 16 * GB, 0, 0),
    ];
    assert_eq!(schedule(&req, &workers), Some(WorkerName("w3".to_string())));
}

#[test]
fn respects_already_allocated_capacity() {
    let req = ResourceRequest { cpu: 2, memory_bytes: GB };
    let workers = vec![worker("w1", true, false, 4, 8 * GB, 3, 0)];
    assert_eq!(schedule(&req, &workers), None);
}

#[test]
fn returns_none_when_nothing_fits() {
    let req = ResourceRequest { cpu: 64, memory_bytes: 256 * GB };
    let workers = vec![worker("w1", true, false, 8, 16 * GB, 0, 0)];
    assert_eq!(schedule(&req, &workers), None);
}

#[test]
fn free_resources_never_go_below_zero() {
    let w = worker("w1", true, false, 2, GB, 5, 2 * GB);
    assert_eq!(w.free_cpu(), 0);
    assert_eq!(w.free_memory(), 0);
    let v = worker("w2", true, false, 8, 4 * GB, 3, GB);
    assert_eq!(v.free_cpu(), 5);
    assert_eq!(v.free_memory(), 3 * GB);
}

#[test]
fn exact_fit_is_admitted() {
    let w = worker("w1", true, false, 4, 4 * GB, 2, 2 * GB);
    assert!(w.admits(&ResourceRequest { cpu: 2, memory_bytes: 2 * GB }));
    assert!(!w.admits(&ResourceRequest { cpu: 3, memory_bytes: 2 * GB }));
    assert!(!w.admits(&ResourceRequest { cpu: 2, memory_bytes: 2 * GB + 1 }));
}

#[test]
fn empty_worker_list_schedules_nothing() {
    assert_eq!(schedule(&ResourceRequest { cpu: 0, memory_bytes: 0 }, &[]), None);
}
