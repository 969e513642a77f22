use velos::clock::{parse_rfc3339, UtcTime};
use velos::controllers::{
    bind_container, evict_container, expired_workers, phase, plan_bindings, plan_node_lifecycle, plan_scheduling,
    ready_since, set_readiness, usage_for, worker_ready, ControllerConfig, LeaseView, PendingContainer,
};
use velos::json::Json;
use velos::scheduler::{ResourceRequest, WorkerName, WorkerView};
use velos::store::StoredObject;

const GB: u64 = 1024 * 1024 * 1024;

fn s(x: &str) -> Json {
    Json::Str(x.to_string())
}

fn obj(members: Vec<(&str, Json)>) -> Json {
    Json::Object(members.into_iter().map(|(k, v)| (k.to_string(), v)).collect())
}

fn time(t: &str) -> UtcTime {
    parse_rfc3339(t).unwrap()
}

fn stored(kind: &str, name: &str, node: Option<&str>, document: Json) -> StoredObject {
    StoredObject {
        kind: kind.to_string(),
        name: name.to_string(),
        uid: format!("uid-{name}"),
        resource_version: 1,
        node_name: node.map(str::to_string),
        labels: vec![],
        document,
    }
}

fn view(name: &str, cpu: u32, mem: u64) -> WorkerView {
    WorkerView {
        name: WorkerName(name.to_string()),
        ready: true,
        unschedulable: false,
        allocatable: ResourceRequest { cpu, memory_bytes: mem },
        allocated: ResourceRequest { cpu: 0, memory_bytes: 0 },
    }
}

fn req(cpu: u32, mem: u64) -> ResourceRequest {
    ResourceRequest { cpu, memory_bytes: mem }
}

#[test]
fn plan_bindings_packs_until_capacity_then_leaves_pending() {
    let pending = vec![
        PendingContainer { name: "a".into(), request: req(2, GB) },
        PendingContainer { name: "b".into(), request: req(2, GB) },
        PendingContainer { name: "c".into(), request: req(2, GB) },
    ];
    let workers = vec![view("w1", 4, 8 * GB)];
    let bindings = plan_bindings(&pending, &workers);
    assert_eq!(bindings.len(), 2);
    assert_eq!(bindings[0].worker, "w1");
    assert_eq!(bindings[1].worker, "w1");
}

#[test]
fn expired_workers_detects_stale_leases() {
    let now = time("2026-06-27T00:01:00Z");
    let leases = vec![
        LeaseView { worker: "fresh".into(), renew_time: time("2026-06-27T00:00:55Z"), duration: 40 },
        LeaseView { worker: "stale".into(), renew_time: time("2026-06-27T00:00:00Z"), duration: 40 },
    ];
    assert_eq!(expired_workers(&leases, now), vec!["stale".to_string()]);
}

#[test]
fn a_lease_exactly_at_its_duration_is_not_expired() {
    let now = time("2026-06-27T00:00:40Z");
    let leases = vec![LeaseView { worker: "w".into(), renew_time: time("2026-06-27T00:00:00Z"), duration: 40 }];
    assert!(expired_workers(&leases, now).is_empty());
    let later = time("2026-06-27T00:00:40.000000001Z");
    assert_eq!(expired_workers(&leases, later), vec!["w".to_string()]);
}

#[test]
fn bindings_spill_to_the_next_worker() {
    let pending = vec![
        PendingContainer { name: "a".into(), request: req(3, GB) },
        PendingContainer { name: "b".into(), request: req(3, GB) },
    ];
    let mut cordoned = view("w0", 16, 16 * GB);
    cordoned.unschedulable = true;
    let workers = vec![cordoned, view("w1", 4, 8 * GB), view("w2", 4, 8 * GB)];
    let bindings = plan_bindings(&pending, &workers);
    assert_eq!(bindings.len(), 2);
    assert_eq!((bindings[0].container.as_str(), bindings[0].worker.as_str()), ("a", "w1"));
    assert_eq!((bindings[1].container.as_str(), bindings[1].worker.as_str()), ("b", "w2"));
}

fn ready_worker_doc(name: &str, conditions: Vec<Json>) -> Json {
    obj(vec![
        ("metadata", obj(vec![("name", s(name))])),
        ("spec", obj(vec![("unschedulable", Json::Bool(false))])),
        (
            "status",
            obj(vec![
                ("allocatable", obj(vec![("cpu", Json::UInt(8)), ("memoryBytes", Json::UInt(16 * GB))])),
                ("conditions", Json::Array(conditions)),
            ]),
        ),
    ])
}

fn ready_true() -> Json {
    obj(vec![("conditionType", s("Ready")), ("status", Json::Bool(true))])
}

#[test]
fn scheduling_pass_binds_pending_to_ready_worker() {
    let workers = vec![stored("Worker", "w1", None, ready_worker_doc("w1", vec![ready_true()]))];
    let c1 = stored(
        "Container",
        "c1",
        None,
        obj(vec![
            ("metadata", obj(vec![("name", s("c1"))])),
            ("spec", obj(vec![("image", s("img")), ("resources", obj(vec![("cpu", Json::UInt(2)), ("memoryBytes", Json::UInt(GB))]))])),
            ("status", obj(vec![("phase", s("Pending"))])),
        ]),
    );
    let containers = vec![c1];
    let bindings = plan_scheduling(&containers, &workers).unwrap();
    assert_eq!(bindings.len(), 1);
    assert_eq!(bindings[0].container, "c1");
    assert_eq!(bindings[0].worker, "w1");
    let bound = bind_container(&containers[0], "w1", 7);
    assert_eq!(bound.node_name.as_deref(), Some("w1"));
    assert_eq!(bound.resource_version, 7);
    assert_eq!(phase(&bound.document).map(|p| p.as_str()), Some("Scheduled"));
    assert_eq!(bound.document.get("spec").unwrap().get("nodeName").unwrap().as_str().unwrap(), "w1");
    assert_eq!(bound.document.get("status").unwrap().get("workerName").unwrap().as_str().unwrap(), "w1");
}

#[test]
fn not_ready_workers_get_no_bindings_and_usage_counts_bound_containers() {
    let workers = vec![stored("Worker", "w1", None, ready_worker_doc("w1", vec![]))];
    let pending = stored(
        "Container",
        "c1",
        None,
        obj(vec![("metadata", obj(vec![("name", s("c1"))])), ("status", obj(vec![("phase", s("Pending"))]))]),
    );
    let running = stored(
        "Container",
        "c2",
        Some("w1"),
        obj(vec![("metadata", obj(vec![("name", s("c2"))])), ("status", obj(vec![("phase", s("Running"))]))]),
    );
    let containers = vec![pending, running];
    assert!(plan_scheduling(&containers, &workers).unwrap().is_empty());
    let used = usage_for(&containers, "w1");
    assert_eq!(used, req(1, 512 * 1024 * 1024));
}

#[test]
fn node_lifecycle_marks_ready_then_notready() {
    let worker = stored("Worker", "w1", None, ready_worker_doc("w1", vec![]));
    let lease = stored(
        "Lease",
        "w1",
        None,
        obj(vec![
            ("metadata", obj(vec![("name", s("w1"))])),
            (
                "spec",
                obj(vec![
                    ("holderIdentity", s("w1")),
                    ("renewTime", s("2026-06-27T00:00:05Z")),
                    ("leaseDurationSeconds", Json::UInt(40)),
                ]),
            ),
        ]),
    );
    let t0 = time("2026-06-27T00:00:10Z");
    let plan = plan_node_lifecycle(&[lease.duplicate()], &[worker.duplicate()], &[], t0, 300);
    assert_eq!(plan.readiness.len(), 1);
    assert_eq!((plan.readiness[0].worker, plan.readiness[0].ready), (0, true));
    assert!(plan.evictions.is_empty());
    let w = set_readiness(&worker, t0, true, 2);
    assert!(worker_ready(&w.document));
    assert_eq!(ready_since(&w.document), Some(t0));

    let t1 = time("2026-06-27T00:05:00Z");
    let plan = plan_node_lifecycle(&[lease], &[w.duplicate()], &[], t1, 300);
    assert_eq!(plan.readiness.len(), 1);
    assert_eq!((plan.readiness[0].worker, plan.readiness[0].ready), (0, false));
    let w = set_readiness(&w, t1, false, 3);
    assert!(!worker_ready(&w.document));
}

#[test]
fn node_lifecycle_evicts_containers_after_grace() {
    let dead = obj(vec![
        ("conditionType", s("Ready")),
        ("status", Json::Bool(false)),
        ("lastTransitionTime", s("2026-06-27T00:00:00Z")),
        ("reason", s("LeaseExpired")),
    ]);
    let worker = stored("Worker", "w1", None, ready_worker_doc("w1", vec![dead]));
    let c1 = stored(
        "Container",
        "c1",
        Some("w1"),
        obj(vec![
            ("metadata", obj(vec![("name", s("c1"))])),
            ("spec", obj(vec![("image", s("img")), ("nodeName", s("w1"))])),
            ("status", obj(vec![("phase", s("Running"))])),
        ]),
    );
    let now = time("2026-06-27T00:10:00Z");
    let plan = plan_node_lifecycle(&[], &[worker.duplicate()], &[c1.duplicate()], now, 300);
    assert!(plan.readiness.is_empty());
    assert_eq!(plan.evictions.len(), 1);
    assert_eq!((plan.evictions[0].container, plan.evictions[0].reschedule), (0, false));
    let evicted = evict_container(&c1, false, 9);
    assert_eq!(phase(&evicted.document).map(|p| p.as_str()), Some("Unknown"));
    assert_eq!(evicted.node_name.as_deref(), Some("w1"));

    let early = time("2026-06-27T00:04:00Z");
    let plan = plan_node_lifecycle(&[], &[worker], &[c1], early, 300);
    assert!(plan.evictions.is_empty());
}

#[test]
fn a_worker_just_marked_not_ready_keeps_its_containers_through_the_grace() {
    let ready = obj(vec![
        ("conditionType", s("Ready")),
        ("status", Json::Bool(true)),
        ("lastTransitionTime", s("2026-06-27T00:00:00Z")),
    ]);
    let worker = stored("Worker", "w1", None, ready_worker_doc("w1", vec![ready]));
    let lease = stored(
        "Lease",
        "w1",
        None,
        obj(vec![
            ("metadata", obj(vec![("name", s("w1"))])),
            (
                "spec",
                obj(vec![
                    ("holderIdentity", s("w1")),
                    ("renewTime", s("2026-06-27T00:09:00Z")),
                    ("leaseDurationSeconds", Json::UInt(40)),
                ]),
            ),
        ]),
    );
    let c1 = stored(
        "Container",
        "c1",
        Some("w1"),
        obj(vec![
            ("metadata", obj(vec![("name", s("c1"))])),
            ("spec", obj(vec![("image", s("img")), ("nodeName", s("w1"))])),
            ("status", obj(vec![("phase", s("Running"))])),
        ]),
    );
    let now = time("2026-06-27T00:10:00Z");
    let plan = plan_node_lifecycle(&[lease.duplicate()], &[worker.duplicate()], &[c1.duplicate()], now, 300);
    assert_eq!(plan.readiness.len(), 1);
    assert_eq!((plan.readiness[0].worker, plan.readiness[0].ready), (0, false));
    assert!(plan.evictions.is_empty());

    // Still inside the grace after the flip: nothing is evicted.
    let w = set_readiness(&worker, now, false, 2);
    let later = time("2026-06-27T00:14:00Z");
    let plan = plan_node_lifecycle(&[lease.duplicate()], &[w.duplicate()], &[c1.duplicate()], later, 300);
    assert!(plan.readiness.is_empty());
    assert!(plan.evictions.is_empty());

    // Past the grace since the worker turned NotReady: its container goes.
    let past = time("2026-06-27T00:15:01Z");
    let plan = plan_node_lifecycle(&[lease], &[w], &[c1], past, 300);
    assert_eq!(plan.evictions.len(), 1);
    assert_eq!((plan.evictions[0].container, plan.evictions[0].reschedule), (0, false));
}

#[test]
fn reschedulable_containers_return_to_pending_unbound() {
    let mut c = stored(
        "Container",
        "c1",
        Some("w1"),
        obj(vec![
            ("metadata", obj(vec![("name", s("c1")), ("labels", obj(vec![("velos.io/reschedulable", s("true"))]))])),
            ("spec", obj(vec![("nodeName", s("w1"))])),
            ("status", obj(vec![("phase", s("Scheduled"))])),
        ]),
    );
    c.resource_version = 4;
    let e = evict_container(&c, true, 5);
    assert_eq!(e.node_name, None);
    assert_eq!(phase(&e.document).map(|p| p.as_str()), Some("Pending"));
    assert!(e.document.get("spec").unwrap().get("nodeName").is_none());
    assert_eq!(e.document.get("metadata").unwrap().get("resourceVersion").unwrap().as_u64(), Some(5));
}

#[test]
fn controller_defaults_follow_the_design() {
    let c = ControllerConfig::default();
    assert_eq!(c.schedule_interval, 2);
    assert_eq!(c.lifecycle_interval, 5);
    assert_eq!(c.eviction_timeout, 300);
}
