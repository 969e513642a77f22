//! Control loops hosted by the server.
//!
//! Each controller is a decision function from observed objects to intended
//! changes; the code that reads and writes the store applies those changes.
//! Documents are opaque JSON: only the envelope fields below are read.

use vstd::prelude::*;
use crate::clock::{epoch_nanos, format_rfc3339, parse_rfc3339, rfc3339_instant, rfc3339_text, valid_time, UtcTime};
use crate::json::{array_of, bool_of, empty_object_view, jremove, jremove_in, jset, jset_in, json_get, json_get_opt, lemma_entries_set_twice, lemma_jset_get, str_of, u64_of, Json, JsonView};
use crate::scheduler::{admits_spec, is_first_fit, lemma_schedule_first_fit_unique, schedule, ResourceRequest, WorkerName, WorkerView};
use crate::store::{copy_opt_string, opt_str_view, StoredObject, StoredView, stored_view};
use crate::text::str_eq;

verus! {

/// Default whole-core ask when a container omits `spec.resources.cpu`.
pub const DEFAULT_CPU: u32 = 1;
/// Default memory ask (512 MiB) when a container omits `spec.resources.memoryBytes`.
pub const DEFAULT_MEM: u64 = 536870912;
/// Label opting a container into rescheduling when its node dies.
pub const RESCHEDULABLE_LABEL: &'static str = "velos.io/reschedulable";

/// Tunables for the controller loops, in seconds.
#[derive(Debug, Clone, Copy)]
pub struct ControllerConfig {
    pub schedule_interval: u64,
    pub lifecycle_interval: u64,
    pub eviction_timeout: u64,
}

impl Default for ControllerConfig {
    fn default() -> (r: ControllerConfig)
        ensures
            r.schedule_interval == 2,
            r.lifecycle_interval == 5,
            r.eviction_timeout == 300,
    {
        ControllerConfig { schedule_interval: 2, lifecycle_interval: 5, eviction_timeout: 300 }
    }
}

// ---------------------------------------------------------------------------
// Envelope readers
// ---------------------------------------------------------------------------

/// Member `a`, then `b`.
pub open spec fn get2(doc: JsonView, a: Seq<char>, b: Seq<char>) -> Option<JsonView> {
    json_get_opt(json_get(doc, a), b)
}

/// Member `a`, then `b`, then `c`.
pub open spec fn get3(doc: JsonView, a: Seq<char>, b: Seq<char>, c: Seq<char>) -> Option<JsonView> {
    json_get_opt(get2(doc, a, b), c)
}

/// Member `a`, then `b`.
pub fn get2_ref<'a>(doc: &'a Json, a: &str, b: &str) -> (r: Option<&'a Json>)
    ensures
        match r {
            Some(x) => get2(doc@, a@, b@) == Some(x@),
            None => get2(doc@, a@, b@) is None,
        },
{
    match doc.get(a) {
        Some(x) => x.get(b),
        None => None,
    }
}

/// Member `a`, then `b`, then `c`.
pub fn get3_ref<'a>(doc: &'a Json, a: &str, b: &str, c: &str) -> (r: Option<&'a Json>)
    ensures
        match r {
            Some(x) => get3(doc@, a@, b@, c@) == Some(x@),
            None => get3(doc@, a@, b@, c@) is None,
        },
{
    match get2_ref(doc, a, b) {
        Some(x) => x.get(c),
        None => None,
    }
}

/// The `status.phase` of a document.
pub open spec fn phase_of(doc: JsonView) -> Option<Seq<char>> {
    str_of(get2(doc, "status"@, "phase"@))
}

/// The `status.phase` of a document.
pub fn phase(doc: &Json) -> (r: Option<&String>)
    ensures
        phase_of(doc@) == (match r {
            Some(s) => Some(s@),
            None => None::<Seq<char>>,
        }),
{
    match get2_ref(doc, "status", "phase") {
        Some(x) => x.as_str(),
        None => None,
    }
}

/// Whether the document's phase is `want`.
pub fn phase_is(doc: &Json, want: &str) -> (r: bool)
    ensures
        r == (phase_of(doc@) == Some(want@)),
{
    match phase(doc) {
        Some(p) => str_eq(p.as_str(), want),
        None => false,
    }
}

/// Whether a phase counts against its worker's capacity.
pub open spec fn occupies(doc: JsonView) -> bool {
    phase_of(doc) == Some("Scheduled"@) || phase_of(doc) == Some("Running"@)
}

/// The resource ask of a container document, with defaults for what it omits.
pub open spec fn request_of(doc: JsonView) -> ResourceRequest {
    ResourceRequest {
        cpu: match u64_of(get3(doc, "spec"@, "resources"@, "cpu"@)) {
            Some(c) => c as u32,
            None => DEFAULT_CPU,
        },
        memory_bytes: match u64_of(get3(doc, "spec"@, "resources"@, "memoryBytes"@)) {
            Some(m) => m,
            None => DEFAULT_MEM,
        },
    }
}

/// The resource ask of a container document, with defaults for what it omits.
pub fn container_request(doc: &Json) -> (r: ResourceRequest)
    ensures
        r == request_of(doc@),
{
    let cpu = match get3_ref(doc, "spec", "resources", "cpu") {
        Some(x) => match x.as_u64() {
            Some(c) => c as u32,
            None => DEFAULT_CPU,
        },
        None => DEFAULT_CPU,
    };
    let memory_bytes = match get3_ref(doc, "spec", "resources", "memoryBytes") {
        Some(x) => match x.as_u64() {
            Some(m) => m,
            None => DEFAULT_MEM,
        },
        None => DEFAULT_MEM,
    };
    ResourceRequest { cpu, memory_bytes }
}

// ---------------------------------------------------------------------------
// Scheduler controller
// ---------------------------------------------------------------------------

/// A container awaiting placement.
#[derive(Debug, Clone, PartialEq)]
pub struct PendingContainer {
    pub name: String,
    pub request: ResourceRequest,
}

/// A decided placement of a container onto a worker.
#[derive(Debug, Clone, PartialEq)]
pub struct Binding {
    pub container: String,
    pub worker: String,
}

/// The value of a binding: (container, worker).
pub open spec fn binding_view(b: Binding) -> (Seq<char>, Seq<char>) {
    (b.container@, b.worker@)
}

/// The values of a list of bindings.
pub open spec fn bindings_view(bs: Seq<Binding>) -> Seq<(Seq<char>, Seq<char>)> {
    bs.map_values(|b: Binding| binding_view(b))
}

/// Whether a stored container awaits placement: `Pending` and bound nowhere.
pub open spec fn is_pending(c: StoredView) -> bool {
    phase_of(c.document) == Some("Pending"@) && c.node_name is None
}

/// The containers awaiting placement, in order, with their asks.
pub open spec fn pending_spec(cs: Seq<StoredView>) -> Seq<(Seq<char>, ResourceRequest)>
    decreases cs.len(),
{
    if cs.len() == 0 {
        Seq::empty()
    } else {
        pending_spec(cs.drop_last()) + (if is_pending(cs.last()) {
            seq![(cs.last().name, request_of(cs.last().document))]
        } else {
            Seq::empty()
        })
    }
}

/// The values of a list of pending containers.
pub open spec fn pending_view(ps: Seq<PendingContainer>) -> Seq<(Seq<char>, ResourceRequest)> {
    ps.map_values(|p: PendingContainer| (p.name@, p.request))
}

/// Containers that are `Pending` and not yet bound to a node.
pub fn pending_containers(containers: &[StoredObject]) -> (r: Vec<PendingContainer>)
    ensures
        pending_view(r@) == pending_spec(stored_view(containers@)),
{
    let ghost cs = stored_view(containers@);
    let mut out: Vec<PendingContainer> = Vec::new();
    let mut i: usize = 0;
    while i < containers.len()
        invariant
            cs == stored_view(containers@),
            0 <= i <= containers@.len(),
            pending_view(out@) == pending_spec(cs.take(i as int)),
        decreases containers@.len() - i,
    {
        let ghost before = pending_view(out@);
        assert(cs.take(i as int + 1).drop_last() =~= cs.take(i as int));
        assert(cs.take(i as int + 1).last() == cs[i as int]);
        let c = &containers[i];
        if phase_is(&c.document, "Pending") && c.node_name.is_none() {
            out.push(PendingContainer { name: c.name.clone(), request: container_request(&c.document) });
            assert(pending_view(out@) =~= before + seq![(cs[i as int].name, request_of(cs[i as int].document))]);
        } else {
            assert(pending_view(out@) =~= before + Seq::<(Seq<char>, ResourceRequest)>::empty());
        }
        i += 1;
    }
    assert(cs.take(containers@.len() as int) =~= cs);
    out
}

/// Whether stored container `c` is bound to worker `w` and occupies it.
pub open spec fn counts_against(c: StoredView, w: Seq<char>) -> bool {
    c.node_name == Some(w) && occupies(c.document)
}

/// Cores committed to worker `w` by the containers bound to it.
pub open spec fn usage_cpu(cs: Seq<StoredView>, w: Seq<char>) -> int
    decreases cs.len(),
{
    if cs.len() == 0 {
        0
    } else {
        usage_cpu(cs.drop_last(), w) + (if counts_against(cs.last(), w) {
            request_of(cs.last().document).cpu as int
        } else {
            0
        })
    }
}

/// Memory committed to worker `w` by the containers bound to it.
pub open spec fn usage_memory(cs: Seq<StoredView>, w: Seq<char>) -> int
    decreases cs.len(),
{
    if cs.len() == 0 {
        0
    } else {
        usage_memory(cs.drop_last(), w) + (if counts_against(cs.last(), w) {
            request_of(cs.last().document).memory_bytes as int
        } else {
            0
        })
    }
}

/// A container's `status.phase`, read straight from its document.
pub open spec fn status_phase(doc: JsonView) -> Option<Seq<char>> {
    str_of(json_get_opt(json_get(doc, "status"@), "phase"@))
}

/// Committed usage counts exactly the containers that hold a worker: adding
/// one more stored container raises worker `w`'s committed cores and memory
/// by that container's request when it is bound to `w` and its phase is
/// `Scheduled` or `Running` (a container bound but not yet running holds its
/// resources too), and leaves them unchanged otherwise.
pub proof fn law_usage_counts_scheduled_and_running(cs: Seq<StoredView>, c: StoredView, w: Seq<char>)
    ensures
        usage_cpu(cs.push(c), w) == usage_cpu(cs, w) + (if c.node_name == Some(w)
            && (status_phase(c.document) == Some("Scheduled"@) || status_phase(c.document) == Some("Running"@)) {
            request_of(c.document).cpu as int
        } else {
            0
        }),
        usage_memory(cs.push(c), w) == usage_memory(cs, w) + (if c.node_name == Some(w)
            && (status_phase(c.document) == Some("Scheduled"@) || status_phase(c.document) == Some("Running"@)) {
            request_of(c.document).memory_bytes as int
        } else {
            0
        }),
{
    assert(cs.push(c).drop_last() =~= cs);
    assert(cs.push(c).last() == c);
}

/// A container's resource ask is what its `spec.resources` states: a
/// `cpu` given as a whole number that fits is the cores asked for, and a
/// `memoryBytes` given as a whole number is the memory asked for.
pub proof fn law_request_reads_spec_resources(doc: JsonView, cpu: u64, memory: u64)
    ensures
        json_get_opt(json_get_opt(json_get(doc, "spec"@), "resources"@), "cpu"@) == Some(JsonView::UInt(cpu))
            && cpu <= u32::MAX ==> request_of(doc).cpu == cpu,
        json_get_opt(json_get_opt(json_get(doc, "spec"@), "resources"@), "memoryBytes"@) == Some(JsonView::UInt(memory))
            ==> request_of(doc).memory_bytes == memory,
{
}

proof fn lemma_usage_prefix(cs: Seq<StoredView>, w: Seq<char>, i: int)
    requires
        0 <= i <= cs.len(),
    ensures
        0 <= usage_cpu(cs.take(i), w) <= usage_cpu(cs, w),
        0 <= usage_memory(cs.take(i), w) <= usage_memory(cs, w),
    decreases cs.len() - i,
{
    if i < cs.len() {
        lemma_usage_prefix(cs, w, i + 1);
        assert(cs.take(i + 1).drop_last() =~= cs.take(i));
    } else {
        assert(cs.take(i) =~= cs);
    }
    lemma_usage_nonneg(cs.take(i), w);
}

proof fn lemma_usage_nonneg(cs: Seq<StoredView>, w: Seq<char>)
    ensures
        0 <= usage_cpu(cs, w),
        0 <= usage_memory(cs, w),
    decreases cs.len(),
{
    if cs.len() > 0 {
        lemma_usage_nonneg(cs.drop_last(), w);
    }
}

/// The committed usage of worker `w` fits the integer widths it is kept in.
pub open spec fn usage_fits(cs: Seq<StoredView>, w: Seq<char>) -> bool {
    usage_cpu(cs, w) <= u32::MAX && usage_memory(cs, w) <= u64::MAX
}

/// Resources currently committed to a worker by containers bound to it.
pub fn usage_for(containers: &[StoredObject], worker: &str) -> (r: ResourceRequest)
    requires
        usage_fits(stored_view(containers@), worker@),
    ensures
        r.cpu == usage_cpu(stored_view(containers@), worker@),
        r.memory_bytes == usage_memory(stored_view(containers@), worker@),
{
    let ghost cs = stored_view(containers@);
    let mut cpu: u32 = 0;
    let mut mem: u64 = 0;
    let mut i: usize = 0;
    while i < containers.len()
        invariant
            cs == stored_view(containers@),
            usage_fits(cs, worker@),
            0 <= i <= containers@.len(),
            cpu == usage_cpu(cs.take(i as int), worker@),
            mem == usage_memory(cs.take(i as int), worker@),
        decreases containers@.len() - i,
    {
        assert(cs.take(i as int + 1).drop_last() =~= cs.take(i as int));
        assert(cs.take(i as int + 1).last() == cs[i as int]);
        proof {
            lemma_usage_prefix(cs, worker@, i as int + 1);
        }
        let c = &containers[i];
        let bound = match &c.node_name {
            Some(n) => str_eq(n.as_str(), worker),
            None => false,
        };
        if bound && (phase_is(&c.document, "Scheduled") || phase_is(&c.document, "Running")) {
            let r = container_request(&c.document);
            cpu = cpu + r.cpu;
            mem = mem + r.memory_bytes;
        }
        i += 1;
    }
    assert(cs.take(containers@.len() as int) =~= cs);
    ResourceRequest { cpu, memory_bytes: mem }
}

/// Whether a worker document carries a `Ready` condition whose status is true.
pub open spec fn ready_of(doc: JsonView) -> bool {
    match crate::json::array_of(get2(doc, "status"@, "conditions"@)) {
        Some(conds) => any_ready_true(conds),
        None => false,
    }
}

/// Whether some condition of `conds` is `Ready` with status true.
pub open spec fn any_ready_true(conds: Seq<JsonView>) -> bool {
    exists|i: int| 0 <= i < conds.len() && #[trigger] is_ready_true(conds[i])
}

/// A condition of type `Ready` whose status is true.
pub open spec fn is_ready_true(c: JsonView) -> bool {
    str_of(json_get(c, "conditionType"@)) == Some("Ready"@) && bool_of(json_get(c, "status"@)) == Some(true)
}

/// Whether a condition has type `Ready`.
fn is_ready_condition(c: &Json) -> (r: bool)
    ensures
        r == (str_of(json_get(c@, "conditionType"@)) == Some("Ready"@)),
{
    match c.get("conditionType") {
        Some(t) => match t.as_str() {
            Some(s) => str_eq(s.as_str(), "Ready"),
            None => false,
        },
        None => false,
    }
}

/// Whether a worker document is `Ready`.
pub fn worker_ready(doc: &Json) -> (r: bool)
    ensures
        r == ready_of(doc@),
{
    match get2_ref(doc, "status", "conditions") {
        Some(x) => match x.as_array() {
            Some(conds) => {
                let ghost cv = crate::json::items_view(conds@);
                assert(get2(doc@, "status"@, "conditions"@) == Some(JsonView::Array(cv)));
                let mut i: usize = 0;
                while i < conds.len()
                    invariant
                        get2(doc@, "status"@, "conditions"@) == Some(JsonView::Array(cv)),
                        cv == crate::json::items_view(conds@),
                        0 <= i <= conds@.len(),
                        forall|j: int| 0 <= j < i ==> !is_ready_true(#[trigger] cv[j]),
                    decreases conds@.len() - i,
                {
                    let c = &conds[i];
                    let status_true = match c.get("status") {
                        Some(s) => match s.as_bool() {
                            Some(b) => b,
                            None => false,
                        },
                        None => false,
                    };
                    if is_ready_condition(c) && status_true {
                        assert(c@ == cv[i as int]);
                        assert(is_ready_true(cv[i as int]));
                        assert(0 <= i < cv.len());
                        assert(any_ready_true(cv));
                        return true;
                    }
                    i += 1;
                }
                false
            },
            None => false,
        },
        None => false,
    }
}

/// The `spec.unschedulable` flag of a worker document (false when absent).
pub open spec fn unschedulable_of(doc: JsonView) -> bool {
    match bool_of(get2(doc, "spec"@, "unschedulable"@)) {
        Some(b) => b,
        None => false,
    }
}

/// The `status.allocatable` resources of a worker document (zero when absent).
pub open spec fn allocatable_of(doc: JsonView) -> ResourceRequest {
    ResourceRequest {
        cpu: match u64_of(get3(doc, "status"@, "allocatable"@, "cpu"@)) {
            Some(c) => c as u32,
            None => 0,
        },
        memory_bytes: match u64_of(get3(doc, "status"@, "allocatable"@, "memoryBytes"@)) {
            Some(m) => m,
            None => 0,
        },
    }
}

/// `v` is the scheduler's view of stored worker `w` among containers `cs`.
pub open spec fn is_view_of(v: WorkerView, w: StoredView, cs: Seq<StoredView>) -> bool {
    &&& v.name@ == w.name
    &&& v.ready == ready_of(w.document)
    &&& v.unschedulable == unschedulable_of(w.document)
    &&& v.allocatable == allocatable_of(w.document)
    &&& v.allocated.cpu == usage_cpu(cs, w.name)
    &&& v.allocated.memory_bytes == usage_memory(cs, w.name)
}

/// The scheduler's view of each stored worker.
pub fn build_worker_views(workers: &[StoredObject], containers: &[StoredObject]) -> (r: Vec<WorkerView>)
    requires
        forall|i: int| 0 <= i < workers@.len() ==> usage_fits(stored_view(containers@), #[trigger] workers@[i].name@),
    ensures
        r@.len() == workers@.len(),
        forall|i: int| 0 <= i < workers@.len() ==> is_view_of(#[trigger] r@[i], workers@[i]@, stored_view(containers@)),
{
    let mut out: Vec<WorkerView> = Vec::new();
    let mut i: usize = 0;
    while i < workers.len()
        invariant
            forall|i: int| 0 <= i < workers@.len() ==> usage_fits(stored_view(containers@), #[trigger] workers@[i].name@),
            0 <= i <= workers@.len(),
            out@.len() == i,
            forall|j: int| 0 <= j < i ==> is_view_of(#[trigger] out@[j], workers@[j]@, stored_view(containers@)),
        decreases workers@.len() - i,
    {
        let w = &workers[i];
        let allocated = usage_for(containers, w.name.as_str());
        let unschedulable = match get2_ref(&w.document, "spec", "unschedulable") {
            Some(x) => match x.as_bool() {
                Some(b) => b,
                None => false,
            },
            None => false,
        };
        let cpu = match get3_ref(&w.document, "status", "allocatable", "cpu") {
            Some(x) => match x.as_u64() {
                Some(c) => c as u32,
                None => 0,
            },
            None => 0,
        };
        let memory_bytes = match get3_ref(&w.document, "status", "allocatable", "memoryBytes") {
            Some(x) => match x.as_u64() {
                Some(m) => m,
                None => 0,
            },
            None => 0,
        };
        out.push(WorkerView {
            name: WorkerName(w.name.clone()),
            ready: worker_ready(&w.document),
            unschedulable,
            allocatable: ResourceRequest { cpu, memory_bytes },
            allocated,
        });
        i += 1;
    }
    out
}

/// Position of the first worker named `name`, when one is.
pub open spec fn first_named(ws: Seq<WorkerView>, name: Seq<char>) -> Option<int> {
    if exists|j: int| 0 <= j < ws.len() && #[trigger] ws[j].name@ == name {
        Some(choose|j: int| 0 <= j < ws.len() && ws[j].name@ == name && forall|k: int| 0 <= k < j ==> #[trigger] ws[k].name@ != name)
    } else {
        None
    }
}

/// Position of the first worker that admits `req`, when one does.
pub open spec fn first_fit(req: ResourceRequest, ws: Seq<WorkerView>) -> Option<int> {
    if exists|i: int| is_first_fit(req, ws, i) {
        Some(choose|i: int| is_first_fit(req, ws, i))
    } else {
        None
    }
}

/// `w` with `req` added to its committed resources.
pub open spec fn commit(w: WorkerView, req: ResourceRequest) -> WorkerView {
    WorkerView {
        allocated: ResourceRequest {
            cpu: (w.allocated.cpu + req.cpu) as u32,
            memory_bytes: (w.allocated.memory_bytes + req.memory_bytes) as u64,
        },
        ..w
    }
}

/// Whether committing `req` to `w` stays within the integer widths.
pub open spec fn commit_fits(w: WorkerView, req: ResourceRequest) -> bool {
    w.allocated.cpu + req.cpu <= u32::MAX && w.allocated.memory_bytes + req.memory_bytes <= u64::MAX
}

#[verifier::opaque]
/// Placing one pending container: the first worker that admits it takes it,
/// and its resources are committed to the first worker of that name.
pub open spec fn place(ws: Seq<WorkerView>, p: (Seq<char>, ResourceRequest)) -> (Seq<WorkerView>, Option<(Seq<char>, Seq<char>)>) {
    match first_fit(p.1, ws) {
        None => (ws, None),
        Some(i) => {
            let name = ws[i].name@;
            match first_named(ws, name) {
                Some(j) => (ws.update(j, commit(ws[j], p.1)), Some((p.0, name))),
                None => (ws, Some((p.0, name))),
            }
        },
    }
}

/// Greedy placement of every pending container in order: the workers after
/// the pass, and the bindings made.
#[verifier::opaque]
pub open spec fn plan_spec(ps: Seq<(Seq<char>, ResourceRequest)>, ws: Seq<WorkerView>) -> (Seq<WorkerView>, Seq<(Seq<char>, Seq<char>)>)
    decreases ps.len(),
{
    if ps.len() == 0 {
        (ws, Seq::empty())
    } else {
        let prev = plan_spec(ps.drop_last(), ws);
        let step = place(prev.0, ps.last());
        (step.0, prev.1 + opt_seq(step.1))
    }
}

/// Whether every commitment made by the greedy pass fits the integer widths.
#[verifier::opaque]
pub open spec fn plan_fits(ps: Seq<(Seq<char>, ResourceRequest)>, ws: Seq<WorkerView>) -> bool
    decreases ps.len(),
{
    if ps.len() == 0 {
        true
    } else {
        let prev = plan_spec(ps.drop_last(), ws);
        &&& plan_fits(ps.drop_last(), ws)
        &&& match first_fit(ps.last().1, prev.0) {
            Some(i) => match first_named(prev.0, prev.0[i].name@) {
                Some(j) => commit_fits(prev.0[j], ps.last().1),
                None => true,
            },
            None => true,
        }
    }
}

/// The elements of an optional value, as a sequence.
pub open spec fn opt_seq<A>(o: Option<A>) -> Seq<A> {
    match o {
        Some(a) => seq![a],
        None => Seq::empty(),
    }
}

proof fn lemma_first_fit_is(req: ResourceRequest, ws: Seq<WorkerView>, i: int)
    requires
        is_first_fit(req, ws, i),
    ensures
        first_fit(req, ws) == Some(i),
{
    let k = choose|k: int| is_first_fit(req, ws, k);
    lemma_schedule_first_fit_unique(req, ws, i, k);
}

proof fn lemma_first_fit_none(req: ResourceRequest, ws: Seq<WorkerView>)
    requires
        forall|i: int| 0 <= i < ws.len() ==> !admits_spec(#[trigger] ws[i], req),
    ensures
        first_fit(req, ws) is None,
{
}

proof fn lemma_first_named_is(ws: Seq<WorkerView>, name: Seq<char>, j: int)
    requires
        0 <= j < ws.len(),
        ws[j].name@ == name,
        forall|k: int| 0 <= k < j ==> #[trigger] ws[k].name@ != name,
    ensures
        first_named(ws, name) == Some(j),
{
    let c = choose|c: int| 0 <= c < ws.len() && ws[c].name@ == name && forall|k: int| 0 <= k < c ==> #[trigger] ws[k].name@ != name;
    if c < j {
        assert(ws[c].name@ != name);
    }
    if j < c {
        assert(ws[j].name@ != name);
    }
}

/// Position of the first view named `name`.
fn find_named(views: &Vec<WorkerView>, name: &str) -> (r: Option<usize>)
    ensures
        match r {
            Some(j) => first_named(views@, name@) == Some(j as int) && j < views@.len(),
            None => first_named(views@, name@) is None,
        },
{
    let mut j: usize = 0;
    while j < views.len()
        invariant
            0 <= j <= views@.len(),
            forall|k: int| 0 <= k < j ==> #[trigger] views@[k].name@ != name@,
        decreases views@.len() - j,
    {
        if str_eq(views[j].name.0.as_str(), name) {
            proof {
                lemma_first_named_is(views@, name@, j as int);
            }
            return Some(j);
        }
        j += 1;
    }
    None
}

/// Whether placing `p` into `ws` commits only what fits the integer widths.
#[verifier::opaque]
pub open spec fn place_fits(ws: Seq<WorkerView>, p: (Seq<char>, ResourceRequest)) -> bool {
    match first_fit(p.1, ws) {
        Some(i) => match first_named(ws, ws[i].name@) {
            Some(j) => commit_fits(ws[j], p.1),
            None => true,
        },
        None => true,
    }
}

/// A copy of a list of worker views.
fn copy_views(workers: &[WorkerView]) -> (r: Vec<WorkerView>)
    ensures
        r@ == workers@,
{
    let mut views: Vec<WorkerView> = Vec::new();
    let mut w: usize = 0;
    while w < workers.len()
        invariant
            0 <= w <= workers@.len(),
            views@ == workers@.take(w as int),
        decreases workers@.len() - w,
    {
        views.push(workers[w].duplicate());
        assert(views@ =~= workers@.take(w as int + 1));
        w += 1;
    }
    assert(views@ =~= workers@);
    views
}

/// Places one pending container into `views`.
fn place_one(views: &mut Vec<WorkerView>, p: &PendingContainer) -> (r: Option<Binding>)
    requires
        place_fits(old(views)@, (p.name@, p.request)),
    ensures
        final(views)@ == place(old(views)@, (p.name@, p.request)).0,
        match r {
            Some(b) => place(old(views)@, (p.name@, p.request)).1 == Some(binding_view(b)),
            None => place(old(views)@, (p.name@, p.request)).1 is None,
        },
{
    reveal(place);
    reveal(place_fits);
    match schedule(&p.request, views.as_slice()) {
        Some(WorkerName(name)) => {
            proof {
                let k = choose|k: int| is_first_fit(p.request, views@, k) && name@ == views@[k].name@;
                lemma_first_fit_is(p.request, views@, k);
            }
            match find_named(views, name.as_str()) {
                Some(j) => {
                    let mut v = views[j].duplicate();
                    v.allocated.cpu = v.allocated.cpu + p.request.cpu;
                    v.allocated.memory_bytes = v.allocated.memory_bytes + p.request.memory_bytes;
                    views.set(j, v);
                },
                None => {},
            }
            Some(Binding { container: p.name.clone(), worker: name })
        },
        None => {
            proof {
                lemma_first_fit_none(p.request, views@);
            }
            None
        },
    }
}

proof fn lemma_plan_fits_step(ps: Seq<(Seq<char>, ResourceRequest)>, ws: Seq<WorkerView>, n: int)
    requires
        0 <= n < ps.len(),
        plan_fits(ps, ws),
    ensures
        place_fits(plan_spec(ps.take(n), ws).0, ps[n]),
        plan_spec(ps.take(n + 1), ws) == ({
            let prev = plan_spec(ps.take(n), ws);
            let step = place(prev.0, ps[n]);
            (step.0, prev.1 + opt_seq(step.1))
        }),
{
    reveal(plan_fits);
    reveal(plan_spec);
    reveal(place_fits);
    lemma_plan_fits_prefix(ps, ws, n + 1);
    assert(ps.take(n + 1).drop_last() =~= ps.take(n));
    assert(ps.take(n + 1).last() == ps[n]);
}

/// Greedily place each pending container, accounting for prior placements in
/// the same pass so one worker is not overcommitted.
pub fn plan_bindings(pending: &[PendingContainer], workers: &[WorkerView]) -> (r: Vec<Binding>)
    requires
        plan_fits(pending_view(pending@), workers@),
    ensures
        bindings_view(r@) == plan_spec(pending_view(pending@), workers@).1,
{
    let ghost pv = pending_view(pending@);
    let mut views = copy_views(workers);
    proof {
        reveal(plan_spec);
        assert(pv.take(0) =~= Seq::<(Seq<char>, ResourceRequest)>::empty());
    }
    let mut out: Vec<Binding> = Vec::new();
    let mut i: usize = 0;
    while i < pending.len()
        invariant
            pv == pending_view(pending@),
            plan_fits(pv, workers@),
            0 <= i <= pending@.len(),
            views@ == plan_spec(pv.take(i as int), workers@).0,
            bindings_view(out@) == plan_spec(pv.take(i as int), workers@).1,
        decreases pending@.len() - i,
    {
        proof {
            lemma_plan_fits_step(pv, workers@, i as int);
        }
        let ghost before = bindings_view(out@);
        match place_one(&mut views, &pending[i]) {
            Some(b) => {
                out.push(b);
                assert(bindings_view(out@) =~= before + opt_seq(place(plan_spec(pv.take(i as int), workers@).0, pv[i as int]).1));
            },
            None => {
                assert(bindings_view(out@) =~= before + opt_seq(place(plan_spec(pv.take(i as int), workers@).0, pv[i as int]).1));
            },
        }
        i += 1;
    }
    assert(pv.take(pending@.len() as int) =~= pv);
    out
}

/// Whether placing `p` into `views` commits only what fits.
fn place_fits_check(views: &Vec<WorkerView>, p: &PendingContainer) -> (r: bool)
    ensures
        r == place_fits(views@, (p.name@, p.request)),
{
    reveal(place_fits);
    match schedule(&p.request, views.as_slice()) {
        Some(WorkerName(name)) => {
            proof {
                let k = choose|k: int| is_first_fit(p.request, views@, k) && name@ == views@[k].name@;
                lemma_first_fit_is(p.request, views@, k);
            }
            match find_named(views, name.as_str()) {
                Some(j) => {
                    let w = &views[j];
                    (w.allocated.cpu as u64) + (p.request.cpu as u64) <= (u32::MAX as u64)
                        && w.allocated.memory_bytes <= u64::MAX - p.request.memory_bytes
                },
                None => true,
            }
        },
        None => {
            proof {
                lemma_first_fit_none(p.request, views@);
            }
            true
        },
    }
}

/// Whether every commitment of the greedy pass over `pending` fits.
pub fn plan_fits_check(pending: &[PendingContainer], workers: &[WorkerView]) -> (r: bool)
    ensures
        r == plan_fits(pending_view(pending@), workers@),
{
    let ghost pv = pending_view(pending@);
    let mut views = copy_views(workers);
    proof {
        reveal(plan_spec);
        reveal(plan_fits);
        assert(pv.take(0) =~= Seq::<(Seq<char>, ResourceRequest)>::empty());
    }
    let mut i: usize = 0;
    while i < pending.len()
        invariant
            pv == pending_view(pending@),
            0 <= i <= pending@.len(),
            plan_fits(pv.take(i as int), workers@),
            views@ == plan_spec(pv.take(i as int), workers@).0,
        decreases pending@.len() - i,
    {
        proof {
            reveal(plan_spec);
            reveal(plan_fits);
            reveal(place_fits);
            assert(pv.take(i as int + 1).drop_last() =~= pv.take(i as int));
            assert(pv.take(i as int + 1).last() == pv[i as int]);
            assert(pv[i as int] == (pending@[i as int].name@, pending@[i as int].request));
        }
        if !place_fits_check(&views, &pending[i]) {
            proof {
                reveal(plan_fits);
                reveal(place_fits);
                assert(!plan_fits(pv.take(i as int + 1), workers@));
                if plan_fits(pv, workers@) {
                    lemma_plan_fits_prefix(pv, workers@, i as int + 1);
                }
            }
            return false;
        }
        let _ = place_one(&mut views, &pending[i]);
        proof {
            reveal(plan_fits);
            reveal(place_fits);
        }
        i += 1;
    }
    assert(pv.take(pending@.len() as int) =~= pv);
    true
}

/// Whether committed usage fits its integer widths for worker `worker`.
pub fn usage_fits_check(containers: &[StoredObject], worker: &str) -> (r: bool)
    ensures
        r == usage_fits(stored_view(containers@), worker@),
{
    let ghost cs = stored_view(containers@);
    let mut cpu: u64 = 0;
    let mut mem: u64 = 0;
    let mut i: usize = 0;
    while i < containers.len()
        invariant
            cs == stored_view(containers@),
            0 <= i <= containers@.len(),
            cpu == usage_cpu(cs.take(i as int), worker@),
            mem == usage_memory(cs.take(i as int), worker@),
            cpu <= u32::MAX,
        decreases containers@.len() - i,
    {
        assert(cs.take(i as int + 1).drop_last() =~= cs.take(i as int));
        assert(cs.take(i as int + 1).last() == cs[i as int]);
        let c = &containers[i];
        let bound = match &c.node_name {
            Some(n) => str_eq(n.as_str(), worker),
            None => false,
        };
        if bound && (phase_is(&c.document, "Scheduled") || phase_is(&c.document, "Running")) {
            let r = container_request(&c.document);
            if cpu + (r.cpu as u64) > (u32::MAX as u64) || mem > u64::MAX - r.memory_bytes {
                proof {
                    lemma_usage_prefix(cs, worker@, i as int + 1);
                }
                return false;
            }
            cpu = cpu + (r.cpu as u64);
            mem = mem + r.memory_bytes;
        }
        i += 1;
    }
    assert(cs.take(containers@.len() as int) =~= cs);
    true
}

/// `vs` is the scheduler's view of the stored workers `ws` among `cs`.
pub open spec fn views_of(vs: Seq<WorkerView>, ws: Seq<StoredView>, cs: Seq<StoredView>) -> bool {
    &&& vs.len() == ws.len()
    &&& forall|i: int| 0 <= i < ws.len() ==> is_view_of(#[trigger] vs[i], ws[i], cs)
}

/// One scheduling pass's decision: the pending containers (in order) placed
/// greedily onto the stored workers, each seen with the resources its bound
/// containers already commit. `None` when committed usage or a commitment of
/// the pass would not fit its integer widths.
pub fn plan_scheduling(containers: &[StoredObject], workers: &[StoredObject]) -> (r: Option<Vec<Binding>>)
    ensures
        ({
            let cs = stored_view(containers@);
            let ws = stored_view(workers@);
            let fits = forall|i: int| 0 <= i < ws.len() ==> usage_fits(cs, #[trigger] ws[i].name);
            match r {
                Some(b) => fits && forall|vs: Seq<WorkerView>| #[trigger] views_of(vs, ws, cs) ==> plan_fits(pending_spec(cs), vs)
                    && bindings_view(b@) == plan_spec(pending_spec(cs), vs).1,
                None => !fits || forall|vs: Seq<WorkerView>| #[trigger] views_of(vs, ws, cs) ==> !plan_fits(pending_spec(cs), vs),
            }
        }),
{
    let ghost cs = stored_view(containers@);
    let ghost ws = stored_view(workers@);
    let mut k: usize = 0;
    while k < workers.len()
        invariant
            cs == stored_view(containers@),
            ws == stored_view(workers@),
            0 <= k <= workers@.len(),
            forall|i: int| 0 <= i < k ==> usage_fits(cs, #[trigger] ws[i].name),
        decreases workers@.len() - k,
    {
        if !usage_fits_check(containers, workers[k].name.as_str()) {
            assert(!usage_fits(cs, ws[k as int].name));
            return None;
        }
        k += 1;
    }
    assert forall|i: int| 0 <= i < workers@.len() implies usage_fits(stored_view(containers@), #[trigger] workers@[i].name@) by {
        assert(ws[i].name == workers@[i].name@);
    }
    let pending = pending_containers(containers);
    let views = build_worker_views(workers, containers);
    assert(views_of(views@, ws, cs)) by {
        assert forall|i: int| 0 <= i < ws.len() implies is_view_of(#[trigger] views@[i], ws[i], cs) by {
            assert(is_view_of(views@[i], workers@[i]@, stored_view(containers@)));
        }
    }
    if !plan_fits_check(pending.as_slice(), views.as_slice()) {
        proof {
            assert forall|vs: Seq<WorkerView>| #[trigger] views_of(vs, ws, cs) implies !plan_fits(pending_spec(cs), vs) by {
                lemma_views_same(views@, vs, ws, cs);
                lemma_plan_same(pending_spec(cs), views@, vs);
            }
        }
        return None;
    }
    let b = plan_bindings(pending.as_slice(), views.as_slice());
    proof {
        assert forall|vs: Seq<WorkerView>| #[trigger] views_of(vs, ws, cs) implies plan_fits(pending_spec(cs), vs)
            && bindings_view(b@) == plan_spec(pending_spec(cs), vs).1 by {
            lemma_views_same(views@, vs, ws, cs);
            lemma_plan_same(pending_spec(cs), views@, vs);
        }
    }
    Some(b)
}

proof fn lemma_plan_fits_prefix(ps: Seq<(Seq<char>, ResourceRequest)>, ws: Seq<WorkerView>, n: int)
    requires
        0 <= n <= ps.len(),
        plan_fits(ps, ws),
    ensures
        plan_fits(ps.take(n), ws),
    decreases ps.len() - n,
{
    reveal(plan_fits);
    if n < ps.len() {
        lemma_plan_fits_prefix(ps, ws, n + 1);
        assert(ps.take(n + 1).drop_last() =~= ps.take(n));
    } else {
        assert(ps.take(n) =~= ps);
    }
}

/// No worker has committed more than it can hold.
pub open spec fn within_capacity(ws: Seq<WorkerView>) -> bool {
    forall|k: int| 0 <= k < ws.len() ==> {
        &&& (#[trigger] ws[k]).allocated.cpu <= ws[k].allocatable.cpu
        &&& ws[k].allocated.memory_bytes <= ws[k].allocatable.memory_bytes
    }
}

/// No two workers share a name.
pub open spec fn names_distinct(ws: Seq<WorkerView>) -> bool {
    forall|a: int, b: int| 0 <= a < ws.len() && 0 <= b < ws.len() && a != b ==> #[trigger] ws[a].name@ != #[trigger] ws[b].name@
}

/// `after` keeps the workers of `before` in place, names unchanged.
pub open spec fn same_workers(before: Seq<WorkerView>, after: Seq<WorkerView>) -> bool {
    &&& after.len() == before.len()
    &&& forall|k: int| 0 <= k < before.len() ==> (#[trigger] after[k]).name == before[k].name
        && after[k].allocatable == before[k].allocatable
}

proof fn lemma_place_keeps_capacity(ws: Seq<WorkerView>, p: (Seq<char>, ResourceRequest))
    requires
        within_capacity(ws),
        names_distinct(ws),
    ensures
        within_capacity(place(ws, p).0),
        same_workers(ws, place(ws, p).0),
        place_fits(ws, p),
{
    reveal(place);
    reveal(place_fits);
    match first_fit(p.1, ws) {
        Some(i) => {
            let k = choose|k: int| is_first_fit(p.1, ws, k);
            assert(is_first_fit(p.1, ws, k));
            lemma_first_named_is(ws, ws[i].name@, i);
        },
        None => {},
    }
}

proof fn lemma_plan_keeps_capacity(ps: Seq<(Seq<char>, ResourceRequest)>, ws: Seq<WorkerView>)
    requires
        within_capacity(ws),
        names_distinct(ws),
    ensures
        within_capacity(plan_spec(ps, ws).0),
        same_workers(ws, plan_spec(ps, ws).0),
        plan_fits(ps, ws),
    decreases ps.len(),
{
    reveal(plan_spec);
    reveal(plan_fits);
    if ps.len() > 0 {
        lemma_plan_keeps_capacity(ps.drop_last(), ws);
        let prev = plan_spec(ps.drop_last(), ws).0;
        assert(names_distinct(prev)) by {
            assert forall|a: int, b: int| 0 <= a < prev.len() && 0 <= b < prev.len() && a != b implies #[trigger] prev[a].name@ != #[trigger] prev[b].name@ by {
                assert(prev[a].name == ws[a].name);
                assert(prev[b].name == ws[b].name);
            }
        }
        lemma_place_keeps_capacity(prev, ps.last());
        reveal(place_fits);
    }
}

/// Scheduling a batch never overcommits a worker: when no two workers share
/// a name and none is over capacity to begin with, every commitment of the
/// greedy pass fits, and after the pass every worker still holds no more than
/// it can, with names and capacities unchanged.
pub proof fn law_plan_never_overcommits(ps: Seq<(Seq<char>, ResourceRequest)>, ws: Seq<WorkerView>)
    requires
        within_capacity(ws),
        names_distinct(ws),
    ensures
        plan_fits(ps, ws),
        within_capacity(plan_spec(ps, ws).0),
        same_workers(ws, plan_spec(ps, ws).0),
{
    lemma_plan_keeps_capacity(ps, ws);
}

// ---------------------------------------------------------------------------
// Document updates
// ---------------------------------------------------------------------------

/// The document after `doc["status"]["phase"] = phase`, where `status` is
/// first made an (empty) object unless it already is one.
pub open spec fn with_phase(doc: JsonView, phase: Seq<char>) -> JsonView {
    let base = if doc is Null { empty_object_view() } else { doc };
    let status = match json_get(doc, "status"@) {
        Some(JsonView::Object(m)) => JsonView::Object(m),
        _ => empty_object_view(),
    };
    jset(base, "status"@, jset(status, "phase"@, JsonView::Str(phase)))
}

/// The document with `metadata.resourceVersion` set to `rv` (when `metadata`
/// is an object).
pub open spec fn with_rv(doc: JsonView, rv: u64) -> JsonView {
    jset_in(doc, "metadata"@, "resourceVersion"@, JsonView::UInt(rv))
}

/// Sets `status.phase`, making `status` an object first when it is not one.
pub fn set_phase(doc: &mut Json, phase: &str)
    requires
        old(doc)@ is Object || old(doc)@ is Null,
    ensures
        final(doc)@ == with_phase(old(doc)@, phase@),
{
    let ghost before = doc@;
    let is_obj = match doc.get("status") {
        Some(x) => x.is_object(),
        None => false,
    };
    if !is_obj {
        doc.set_index("status", Json::empty_object());
        proof {
            let base = if before is Null { empty_object_view() } else { before };
            lemma_jset_get(base, "status"@, empty_object_view(), "status"@);
            lemma_entries_set_twice(base->Object_0, "status"@, empty_object_view(),
                jset(empty_object_view(), "phase"@, JsonView::Str(phase@)));
        }
    }
    doc.update_member("status", "phase", Json::string(phase));
}

/// Sets `metadata.resourceVersion` when `metadata` is an object.
pub fn set_rv(doc: &mut Json, rv: u64)
    ensures
        final(doc)@ == with_rv(old(doc)@, rv),
{
    doc.update_member("metadata", "resourceVersion", Json::UInt(rv));
}

/// The document of a container bound to `worker` at resource version `rv`.
pub open spec fn bound_document(doc: JsonView, worker: Seq<char>, rv: u64) -> JsonView {
    let d1 = jset_in(doc, "spec"@, "nodeName"@, JsonView::Str(worker));
    let d2 = with_phase(d1, "Scheduled"@);
    let d3 = jset_in(d2, "status"@, "workerName"@, JsonView::Str(worker));
    with_rv(d3, rv)
}

/// `after` keeps the kind, name, uid and labels of `before`.
pub open spec fn same_identity(before: StoredView, after: StoredView) -> bool {
    &&& after.kind == before.kind
    &&& after.name == before.name
    &&& after.uid == before.uid
    &&& after.labels == before.labels
}

/// Binds a container to `worker`: `spec.nodeName` and `status.workerName`
/// name it, the phase becomes `Scheduled`, and the resource version is `rv`.
pub fn bind_container(obj: &StoredObject, worker: &str, rv: u64) -> (r: StoredObject)
    requires
        obj.document@ is Object || obj.document@ is Null,
    ensures
        same_identity(obj@, r@),
        r@.resource_version == rv,
        r@.node_name == Some(worker@),
        r@.document == bound_document(obj.document@, worker@, rv),
{
    let mut o = obj.duplicate();
    o.document.update_member("spec", "nodeName", Json::string(worker));
    set_phase(&mut o.document, "Scheduled");
    o.document.update_member("status", "workerName", Json::string(worker));
    set_rv(&mut o.document, rv);
    o.resource_version = rv;
    o.node_name = Some(worker.to_owned());
    o
}

/// The document with `metadata.labels[key]`.
pub open spec fn label_of(doc: JsonView, key: Seq<char>) -> Option<Seq<char>> {
    str_of(json_get_opt(get2(doc, "metadata"@, "labels"@), key))
}

/// Whether a container document opts into rescheduling.
pub open spec fn reschedulable(doc: JsonView) -> bool {
    label_of(doc, RESCHEDULABLE_LABEL@) == Some("true"@)
}

/// Whether a container document carries `metadata.labels[velos.io/reschedulable] == "true"`.
pub fn is_reschedulable(doc: &Json) -> (r: bool)
    ensures
        r == reschedulable(doc@),
{
    match get2_ref(doc, "metadata", "labels") {
        Some(labels) => match labels.get(RESCHEDULABLE_LABEL) {
            Some(v) => match v.as_str() {
                Some(s) => str_eq(s.as_str(), "true"),
                None => false,
            },
            None => false,
        },
        None => false,
    }
}

/// The document of a container evicted from its worker at resource version
/// `rv`: back to `Pending` and unbound when it may be rescheduled, else
/// `Unknown`.
pub open spec fn evicted_document(doc: JsonView, reschedule: bool, rv: u64) -> JsonView {
    if reschedule {
        with_rv(with_phase(jremove_in(doc, "spec"@, "nodeName"@), "Pending"@), rv)
    } else {
        with_rv(with_phase(doc, "Unknown"@), rv)
    }
}

/// Evicts a container from its worker.
pub fn evict_container(obj: &StoredObject, reschedule: bool, rv: u64) -> (r: StoredObject)
    requires
        obj.document@ is Object || obj.document@ is Null,
    ensures
        same_identity(obj@, r@),
        r@.resource_version == rv,
        r@.node_name == (if reschedule { None } else { obj@.node_name }),
        r@.document == evicted_document(obj.document@, reschedule, rv),
{
    let mut o = obj.duplicate();
    if reschedule {
        o.document.remove_member("spec", "nodeName");
        o.node_name = None;
        set_phase(&mut o.document, "Pending");
    } else {
        set_phase(&mut o.document, "Unknown");
    }
    set_rv(&mut o.document, rv);
    o.resource_version = rv;
    o
}

// ---------------------------------------------------------------------------
// Node-lifecycle controller
// ---------------------------------------------------------------------------

/// A lease as seen by the lifecycle loop.
#[derive(Debug, Clone, PartialEq)]
pub struct LeaseView {
    pub worker: String,
    pub renew_time: UtcTime,
    /// How long the lease lasts, in seconds.
    pub duration: u64,
}

/// The value of a lease: (holder, renewal instant, duration in seconds).
pub open spec fn lease_value(l: LeaseView) -> (Seq<char>, UtcTime, u64) {
    (l.worker@, l.renew_time, l.duration)
}

/// More than `secs` seconds passed from `then` to `now`.
pub open spec fn elapsed_over(now: UtcTime, then: UtcTime, secs: u64) -> bool {
    epoch_nanos(now) - epoch_nanos(then) > secs * 1_000_000_000
}

/// More than `secs` seconds passed from `then` to `now`.
pub fn elapsed_exceeds(now: UtcTime, then: UtcTime, secs: u64) -> (r: bool)
    ensures
        r == elapsed_over(now, then, secs),
{
    let a: i128 = now.secs as i128 * 1_000_000_000i128 + now.nanos as i128;
    let b: i128 = then.secs as i128 * 1_000_000_000i128 + then.nanos as i128;
    let limit: i128 = secs as i128 * 1_000_000_000i128;
    proof {
        assert(-9223372036854775808 * 1_000_000_000 <= now.secs * 1_000_000_000 <= 9223372036854775807 * 1_000_000_000) by (nonlinear_arith)
            requires -9223372036854775808 <= now.secs <= 9223372036854775807;
        assert(-9223372036854775808 * 1_000_000_000 <= then.secs * 1_000_000_000 <= 9223372036854775807 * 1_000_000_000) by (nonlinear_arith)
            requires -9223372036854775808 <= then.secs <= 9223372036854775807;
        assert(0 <= secs * 1_000_000_000 <= 18446744073709551615 * 1_000_000_000) by (nonlinear_arith)
            requires 0 <= secs <= 18446744073709551615;
    }
    a - b > limit
}

/// Whether lease `l` has not been renewed within its duration at `now`.
pub open spec fn lease_expired(l: (Seq<char>, UtcTime, u64), now: UtcTime) -> bool {
    elapsed_over(now, l.1, l.2)
}

/// The holders of the leases that expired at `now`, in order.
pub open spec fn expired_spec(ls: Seq<(Seq<char>, UtcTime, u64)>, now: UtcTime) -> Seq<Seq<char>>
    decreases ls.len(),
{
    if ls.len() == 0 {
        Seq::empty()
    } else {
        expired_spec(ls.drop_last(), now) + (if lease_expired(ls.last(), now) {
            seq![ls.last().0]
        } else {
            Seq::empty()
        })
    }
}

/// The values of a list of leases.
pub open spec fn leases_value(ls: Seq<LeaseView>) -> Seq<(Seq<char>, UtcTime, u64)> {
    ls.map_values(|l: LeaseView| lease_value(l))
}

/// Names of workers whose lease has not been renewed within its duration.
pub fn expired_workers(leases: &[LeaseView], now: UtcTime) -> (r: Vec<String>)
    ensures
        crate::runtime::strings_view(r@) == expired_spec(leases_value(leases@), now),
{
    let ghost lv = leases_value(leases@);
    let mut out: Vec<String> = Vec::new();
    let mut i: usize = 0;
    while i < leases.len()
        invariant
            lv == leases_value(leases@),
            0 <= i <= leases@.len(),
            crate::runtime::strings_view(out@) == expired_spec(lv.take(i as int), now),
        decreases leases@.len() - i,
    {
        let ghost before = crate::runtime::strings_view(out@);
        assert(lv.take(i as int + 1).drop_last() =~= lv.take(i as int));
        assert(lv.take(i as int + 1).last() == lv[i as int]);
        let l = &leases[i];
        if elapsed_exceeds(now, l.renew_time, l.duration) {
            out.push(l.worker.clone());
            assert(crate::runtime::strings_view(out@) =~= before + seq![lv[i as int].0]);
        } else {
            assert(crate::runtime::strings_view(out@) =~= before + Seq::<Seq<char>>::empty());
        }
        i += 1;
    }
    assert(lv.take(leases@.len() as int) =~= lv);
    out
}

/// The lease a stored `Lease` document describes: holder, renewal instant,
/// and duration (40 seconds when absent); `None` when the holder or a
/// parseable renewal time is missing.
pub open spec fn lease_of(doc: JsonView) -> Option<(Seq<char>, UtcTime, u64)> {
    match str_of(get2(doc, "spec"@, "holderIdentity"@)) {
        Some(holder) => match str_of(get2(doc, "spec"@, "renewTime"@)) {
            Some(renew) => match rfc3339_instant(renew) {
                Some(t) => Some((holder, t, match u64_of(get2(doc, "spec"@, "leaseDurationSeconds"@)) {
                    Some(s) => s,
                    None => 40,
                })),
                None => None,
            },
            None => None,
        },
        None => None,
    }
}

/// Reads a stored `Lease`.
pub fn parse_lease(obj: &StoredObject) -> (r: Option<LeaseView>)
    ensures
        match r {
            Some(l) => lease_of(obj.document@) == Some(lease_value(l)),
            None => lease_of(obj.document@) is None,
        },
{
    let holder = match get2_ref(&obj.document, "spec", "holderIdentity") {
        Some(x) => match x.as_str() {
            Some(s) => s,
            None => return None,
        },
        None => return None,
    };
    let renew = match get2_ref(&obj.document, "spec", "renewTime") {
        Some(x) => match x.as_str() {
            Some(s) => s,
            None => return None,
        },
        None => return None,
    };
    let renew_time = match parse_rfc3339(renew.as_str()) {
        Some(t) => t,
        None => return None,
    };
    let duration = match get2_ref(&obj.document, "spec", "leaseDurationSeconds") {
        Some(x) => match x.as_u64() {
            Some(s) => s,
            None => 40,
        },
        None => 40,
    };
    Some(LeaseView { worker: holder.clone(), renew_time, duration })
}

/// The leases the stored `Lease` objects describe, skipping unreadable ones.
pub open spec fn leases_of(objs: Seq<StoredView>) -> Seq<(Seq<char>, UtcTime, u64)>
    decreases objs.len(),
{
    if objs.len() == 0 {
        Seq::empty()
    } else {
        leases_of(objs.drop_last()) + match lease_of(objs.last().document) {
            Some(l) => seq![l],
            None => Seq::empty(),
        }
    }
}

/// A worker has a fresh lease: some lease names it and none of its leases
/// has expired.
pub open spec fn has_fresh_lease(ls: Seq<(Seq<char>, UtcTime, u64)>, name: Seq<char>, now: UtcTime) -> bool {
    &&& exists|i: int| 0 <= i < ls.len() && #[trigger] ls[i].0 == name
    &&& !exists|i: int| 0 <= i < ls.len() && #[trigger] ls[i].0 == name && lease_expired(ls[i], now)
}

/// The `Ready` condition of a worker: `conditionType` `Ready`, the given
/// status, the transition time, and the reason.
pub open spec fn ready_condition_view(now: UtcTime, ready: bool) -> JsonView {
    JsonView::Object(seq![
        ("conditionType"@, JsonView::Str("Ready"@)),
        ("lastTransitionTime"@, JsonView::Str(rfc3339_text(now))),
        ("reason"@, JsonView::Str(if ready { "LeaseRenewed"@ } else { "LeaseExpired"@ })),
        ("status"@, JsonView::Bool(ready)),
    ])
}

/// Builds the `Ready` condition for a readiness flip at `now`.
pub fn ready_condition(now: UtcTime, ready: bool) -> (r: Json)
    requires
        valid_time(now),
    ensures
        r@ == ready_condition_view(now, ready),
        crate::clock::four_digit_year(now) ==> rfc3339_instant(rfc3339_text(now)) == Some(now),
{
    let ghost k1 = "conditionType"@;
    let ghost k2 = "lastTransitionTime"@;
    let ghost k3 = "reason"@;
    let ghost k4 = "status"@;
    proof {
        reveal_strlit("conditionType");
        reveal_strlit("lastTransitionTime");
        reveal_strlit("reason");
        reveal_strlit("status");
        assert(k1.len() == 13 && k2.len() == 18 && k3.len() == 6 && k4.len() == 6);
        assert(k3[0] != k4[0]);
    }
    let time = Json::Str(format_rfc3339(now));
    let ghost e1 = seq![(k1, JsonView::Str("Ready"@))];
    let ghost e2 = e1.push((k2, time@));
    let ghost e3 = e2.push((k3, JsonView::Str(if ready { "LeaseRenewed"@ } else { "LeaseExpired"@ })));
    let mut c = Json::empty_object();
    c.insert("conditionType", Json::string("Ready"));
    proof {
        crate::json::lemma_entries_set_shape(Seq::empty(), k1, JsonView::Str("Ready"@), 0);
        assert(Seq::<(Seq<char>, JsonView)>::empty().push((k1, JsonView::Str("Ready"@))) =~= e1);
    }
    c.insert("lastTransitionTime", time);
    proof {
        crate::json::lemma_entries_set_shape(e1, k2, time@, 1);
    }
    c.insert("reason", Json::string(if ready { "LeaseRenewed" } else { "LeaseExpired" }));
    proof {
        crate::json::lemma_entries_set_shape(e2, k3, e3.last().1, 2);
    }
    c.insert("status", Json::Bool(ready));
    proof {
        crate::json::lemma_entries_set_shape(e3, k4, JsonView::Bool(ready), 3);
        assert(c@->Object_0 =~= ready_condition_view(now, ready)->Object_0);
    }
    c
}

/// The document after its worker's readiness flips to `ready` at `now`: the
/// conditions become exactly the new `Ready` condition.
pub open spec fn with_readiness(doc: JsonView, now: UtcTime, ready: bool) -> JsonView {
    let conds = JsonView::Array(seq![ready_condition_view(now, ready)]);
    match json_get(doc, "status"@) {
        Some(JsonView::Object(m)) => jset(doc, "status"@, jset(JsonView::Object(m), "conditions"@, conds)),
        _ => jset(
            if doc is Null { empty_object_view() } else { doc },
            "status"@,
            JsonView::Object(seq![("conditions"@, conds)]),
        ),
    }
}

/// Flips a worker's readiness at `now`, at resource version `rv`.
pub fn set_readiness(obj: &StoredObject, now: UtcTime, ready: bool, rv: u64) -> (r: StoredObject)
    requires
        valid_time(now),
        obj.document@ is Object || obj.document@ is Null,
    ensures
        same_identity(obj@, r@),
        r@.node_name == obj@.node_name,
        r@.resource_version == rv,
        r@.document == with_rv(with_readiness(obj.document@, now, ready), rv),
        ready_of(r@.document) == ready,
        crate::clock::four_digit_year(now) ==> since_of(r@.document) == Some(now),
{
    proof {
        law_readiness_flip_sets_ready(obj.document@, now, ready, rv);
    }
    let mut o = obj.duplicate();
    let conds = Json::single_array(ready_condition(now, ready));
    let status_is_object = match o.document.get("status") {
        Some(x) => x.is_object(),
        None => false,
    };
    if status_is_object {
        o.document.update_member("status", "conditions", conds);
    } else {
        o.document.set_index("status", Json::single_member("conditions", conds));
    }
    set_rv(&mut o.document, rv);
    o.resource_version = rv;
    proof {
        lemma_readiness_conditions(obj.document@, now, ready, rv);
        let cond = ready_condition_view(now, ready);
        lemma_ready_condition_fields(now, ready);
        assert(seq![cond].drop_first() =~= Seq::<JsonView>::empty());
        assert(first_ready(seq![cond]) == Some(cond));
        lemma_ready_condition_time(now, ready);
    }
    o
}

/// The first condition of type `Ready`.
pub open spec fn first_ready(conds: Seq<JsonView>) -> Option<JsonView>
    decreases conds.len(),
{
    if conds.len() == 0 {
        None
    } else if str_of(json_get(conds[0], "conditionType"@)) == Some("Ready"@) {
        Some(conds[0])
    } else {
        first_ready(conds.drop_first())
    }
}

/// When a worker's `Ready` condition last changed: the transition time of its
/// first `Ready` condition.
pub open spec fn since_of(doc: JsonView) -> Option<UtcTime> {
    match array_of(get2(doc, "status"@, "conditions"@)) {
        Some(conds) => match first_ready(conds) {
            Some(c) => match str_of(json_get(c, "lastTransitionTime"@)) {
                Some(t) => rfc3339_instant(t),
                None => None,
            },
            None => None,
        },
        None => None,
    }
}

/// When a worker's `Ready` condition last changed.
pub fn ready_since(doc: &Json) -> (r: Option<UtcTime>)
    ensures
        r == since_of(doc@),
{
    let conds = match get2_ref(doc, "status", "conditions") {
        Some(x) => match x.as_array() {
            Some(a) => a,
            None => return None,
        },
        None => return None,
    };
    let ghost cv = crate::json::items_view(conds@);
    assert(array_of(get2(doc@, "status"@, "conditions"@)) == Some(cv));
    let mut i: usize = 0;
    assert(cv.skip(0) =~= cv);
    while i < conds.len()
        invariant
            cv == crate::json::items_view(conds@),
            array_of(get2(doc@, "status"@, "conditions"@)) == Some(cv),
            0 <= i <= conds@.len(),
            first_ready(cv) == first_ready(cv.skip(i as int)),
        decreases conds@.len() - i,
    {
        assert(cv.skip(i as int)[0] == cv[i as int]);
        let c = &conds[i];
        if is_ready_condition(c) {
            assert(first_ready(cv) == Some(c@));
            return transition_time(c);
        }
        assert(cv.skip(i as int).drop_first() =~= cv.skip(i as int + 1));
        i += 1;
    }
    assert(cv.skip(i as int).len() == 0);
    None
}

/// The `lastTransitionTime` of a condition, read as an RFC 3339 instant.
fn transition_time(c: &Json) -> (r: Option<UtcTime>)
    ensures
        r == (match str_of(json_get(c@, "lastTransitionTime"@)) {
            Some(t) => rfc3339_instant(t),
            None => None,
        }),
{
    match c.get("lastTransitionTime") {
        Some(t) => match t.as_str() {
            Some(ts) => parse_rfc3339(ts.as_str()),
            None => None,
        },
        None => None,
    }
}

/// The leases read from a list of stored `Lease` objects.
pub fn lease_views(leases: &[StoredObject]) -> (r: Vec<LeaseView>)
    ensures
        leases_value(r@) == leases_of(stored_view(leases@)),
{
    let ghost lv = stored_view(leases@);
    let mut out: Vec<LeaseView> = Vec::new();
    let mut i: usize = 0;
    while i < leases.len()
        invariant
            lv == stored_view(leases@),
            0 <= i <= leases@.len(),
            leases_value(out@) == leases_of(lv.take(i as int)),
        decreases leases@.len() - i,
    {
        let ghost before = leases_value(out@);
        assert(lv.take(i as int + 1).drop_last() =~= lv.take(i as int));
        assert(lv.take(i as int + 1).last() == lv[i as int]);
        match parse_lease(&leases[i]) {
            Some(l) => {
                out.push(l);
                assert(leases_value(out@) =~= before + seq![lease_value(l)]);
            },
            None => {
                assert(leases_value(out@) =~= before + Seq::<(Seq<char>, UtcTime, u64)>::empty());
            },
        }
        i += 1;
    }
    assert(lv.take(leases@.len() as int) =~= lv);
    out
}

/// Whether `name` has a fresh lease among `leases` at `now`.
pub fn fresh_lease(leases: &Vec<LeaseView>, name: &str, now: UtcTime) -> (r: bool)
    ensures
        r == has_fresh_lease(leases_value(leases@), name@, now),
{
    let ghost lv = leases_value(leases@);
    let mut found = false;
    let mut i: usize = 0;
    while i < leases.len()
        invariant
            lv == leases_value(leases@),
            0 <= i <= leases@.len(),
            found == exists|j: int| 0 <= j < i && #[trigger] lv[j].0 == name@,
            forall|j: int| 0 <= j < i ==> !(#[trigger] lv[j].0 == name@ && lease_expired(lv[j], now)),
        decreases leases@.len() - i,
    {
        let l = &leases[i];
        if str_eq(l.worker.as_str(), name) {
            assert(lv[i as int].0 == name@);
            found = true;
            if elapsed_exceeds(now, l.renew_time, l.duration) {
                assert(lv[i as int].0 == name@ && lease_expired(lv[i as int], now));
                return false;
            }
        }
        i += 1;
    }
    found
}

/// A change of one worker's readiness, by position in the worker list.
#[derive(Debug, Clone, Copy, PartialEq, Eq)]
pub struct ReadinessChange {
    pub worker: usize,
    pub ready: bool,
}

/// The eviction of one container, by position in the container list.
#[derive(Debug, Clone, Copy, PartialEq, Eq)]
pub struct Eviction {
    pub container: usize,
    pub reschedule: bool,
}

/// What one node-lifecycle pass changes: readiness flips first, then evictions.
#[derive(Debug, Clone)]
pub struct NodeLifecyclePlan {
    pub readiness: Vec<ReadinessChange>,
    pub evictions: Vec<Eviction>,
}

/// Readiness flips for the first `n` workers: every worker whose `Ready`
/// condition disagrees with the freshness of its lease.
pub open spec fn readiness_upto(ws: Seq<StoredView>, ls: Seq<(Seq<char>, UtcTime, u64)>, now: UtcTime, n: int) -> Seq<(int, bool)>
    decreases n,
{
    if n <= 0 {
        Seq::empty()
    } else {
        let k = n - 1;
        let target = has_fresh_lease(ls, ws[k].name, now);
        readiness_upto(ws, ls, now, n - 1) + (if target != ready_of(ws[k].document) {
            seq![(k, target)]
        } else {
            Seq::empty()
        })
    }
}

/// Whether a worker's containers are evicted: it has no fresh lease, its
/// stored `Ready` condition already says `NotReady`, and it turned `NotReady`
/// more than `timeout` seconds ago. A worker that is only now being marked
/// `NotReady` counts as `NotReady` since `now`, so it keeps its containers
/// for the whole grace.
pub open spec fn evict_due(w: StoredView, ls: Seq<(Seq<char>, UtcTime, u64)>, now: UtcTime, timeout: u64) -> bool {
    &&& !has_fresh_lease(ls, w.name, now)
    &&& !ready_of(w.document)
    &&& match since_of(w.document) {
        Some(t) => elapsed_over(now, t, timeout),
        None => false,
    }
}

/// Evictions, among the first `m` containers, of those bound to worker `name`
/// and occupying it.
pub open spec fn container_evictions(cs: Seq<StoredView>, name: Seq<char>, m: int) -> Seq<(int, bool)>
    decreases m,
{
    if m <= 0 {
        Seq::empty()
    } else {
        container_evictions(cs, name, m - 1) + (if counts_against(cs[m - 1], name) {
            seq![(m - 1, reschedulable(cs[m - 1].document))]
        } else {
            Seq::empty()
        })
    }
}

/// Evictions for the first `n` workers, worker by worker.
pub open spec fn evictions_upto(
    ws: Seq<StoredView>,
    cs: Seq<StoredView>,
    ls: Seq<(Seq<char>, UtcTime, u64)>,
    now: UtcTime,
    timeout: u64,
    n: int,
) -> Seq<(int, bool)>
    decreases n,
{
    if n <= 0 {
        Seq::empty()
    } else {
        evictions_upto(ws, cs, ls, now, timeout, n - 1) + (if evict_due(ws[n - 1], ls, now, timeout) {
            container_evictions(cs, ws[n - 1].name, cs.len() as int)
        } else {
            Seq::empty()
        })
    }
}

/// The values of readiness changes.
pub open spec fn readiness_value(rs: Seq<ReadinessChange>) -> Seq<(int, bool)> {
    rs.map_values(|c: ReadinessChange| (c.worker as int, c.ready))
}

/// The values of evictions.
pub open spec fn evictions_value(es: Seq<Eviction>) -> Seq<(int, bool)> {
    es.map_values(|e: Eviction| (e.container as int, e.reschedule))
}

/// Evictions of the containers bound to worker `name` that occupy it.
fn evictions_for(containers: &[StoredObject], name: &str, out: &mut Vec<Eviction>)
    ensures
        evictions_value(final(out)@) == evictions_value(old(out)@)
            + container_evictions(stored_view(containers@), name@, containers@.len() as int),
{
    let ghost cs = stored_view(containers@);
    let ghost start = evictions_value(out@);
    let mut j: usize = 0;
    while j < containers.len()
        invariant
            cs == stored_view(containers@),
            0 <= j <= containers@.len(),
            evictions_value(out@) == start + container_evictions(cs, name@, j as int),
        decreases containers@.len() - j,
    {
        let ghost before = evictions_value(out@);
        let c = &containers[j];
        let bound = match &c.node_name {
            Some(n) => str_eq(n.as_str(), name),
            None => false,
        };
        if bound && (phase_is(&c.document, "Scheduled") || phase_is(&c.document, "Running")) {
            out.push(Eviction { container: j, reschedule: is_reschedulable(&c.document) });
            assert(evictions_value(out@) =~= before + seq![(j as int, reschedulable(cs[j as int].document))]);
        } else {
            assert(evictions_value(out@) =~= before + Seq::<(int, bool)>::empty());
        }
        j += 1;
    }
}

/// Decides one node-lifecycle pass: flip each worker's readiness to the
/// freshness of its lease, then evict the containers of every worker that
/// has no fresh lease and has been `NotReady` for more than
/// `eviction_timeout` seconds.
pub fn plan_node_lifecycle(
    leases: &[StoredObject],
    workers: &[StoredObject],
    containers: &[StoredObject],
    now: UtcTime,
    eviction_timeout: u64,
) -> (r: NodeLifecyclePlan)
    ensures
        readiness_value(r.readiness@) == readiness_upto(
            stored_view(workers@),
            leases_of(stored_view(leases@)),
            now,
            workers@.len() as int,
        ),
        evictions_value(r.evictions@) == evictions_upto(
            stored_view(workers@),
            stored_view(containers@),
            leases_of(stored_view(leases@)),
            now,
            eviction_timeout,
            workers@.len() as int,
        ),
{
    let lvs = lease_views(leases);
    let ghost ls = leases_of(stored_view(leases@));
    let ghost ws = stored_view(workers@);
    let ghost cs = stored_view(containers@);
    let mut readiness: Vec<ReadinessChange> = Vec::new();
    let mut k: usize = 0;
    while k < workers.len()
        invariant
            leases_value(lvs@) == ls,
            ws == stored_view(workers@),
            0 <= k <= workers@.len(),
            readiness_value(readiness@) == readiness_upto(ws, ls, now, k as int),
        decreases workers@.len() - k,
    {
        let ghost before = readiness_value(readiness@);
        let w = &workers[k];
        let target = fresh_lease(&lvs, w.name.as_str(), now);
        if target != worker_ready(&w.document) {
            readiness.push(ReadinessChange { worker: k, ready: target });
            assert(readiness_value(readiness@) =~= before + seq![(k as int, target)]);
        } else {
            assert(readiness_value(readiness@) =~= before + Seq::<(int, bool)>::empty());
        }
        k += 1;
    }
    let mut evictions: Vec<Eviction> = Vec::new();
    let mut k: usize = 0;
    while k < workers.len()
        invariant
            leases_value(lvs@) == ls,
            ws == stored_view(workers@),
            cs == stored_view(containers@),
            0 <= k <= workers@.len(),
            evictions_value(evictions@) == evictions_upto(ws, cs, ls, now, eviction_timeout, k as int),
        decreases workers@.len() - k,
    {
        let ghost before = evictions_value(evictions@);
        let w = &workers[k];
        let due = if fresh_lease(&lvs, w.name.as_str(), now) || worker_ready(&w.document) {
            false
        } else {
            match ready_since(&w.document) {
                Some(since) => elapsed_exceeds(now, since, eviction_timeout),
                None => false,
            }
        };
        if due {
            evictions_for(containers, w.name.as_str(), &mut evictions);
        } else {
            assert(evictions_value(evictions@) =~= before + Seq::<(int, bool)>::empty());
        }
        k += 1;
    }
    NodeLifecyclePlan { readiness, evictions }
}

// ---------------------------------------------------------------------------
// Laws of the node-lifecycle pass
// ---------------------------------------------------------------------------

proof fn lemma_ready_condition_fields(now: UtcTime, ready: bool)
    ensures
        str_of(json_get(ready_condition_view(now, ready), "conditionType"@)) == Some("Ready"@),
        bool_of(json_get(ready_condition_view(now, ready), "status"@)) == Some(ready),
{
    reveal_strlit("conditionType");
    reveal_strlit("lastTransitionTime");
    reveal_strlit("reason");
    reveal_strlit("status");
    let m = ready_condition_view(now, ready)->Object_0;
    assert("lastTransitionTime"@[0] != "status"@[0]);
    assert("reason"@[0] != "status"@[0]);
    assert("conditionType"@[0] != "status"@[0]);
    assert(m.drop_first()[0].0 == "lastTransitionTime"@);
    assert(m.drop_first().drop_first()[0].0 == "reason"@);
    assert(m.drop_first().drop_first().drop_first()[0].0 == "status"@);
    reveal_with_fuel(crate::json::lookup, 5);
}

/// A readiness flip decides readiness: the document stored for a worker whose
/// readiness was set to `ready` (at any resource version) is `Ready` exactly
/// when `ready` is true.
pub proof fn law_readiness_flip_sets_ready(doc: JsonView, now: UtcTime, ready: bool, rv: u64)
    requires
        doc is Object || doc is Null,
    ensures
        ready_of(with_rv(with_readiness(doc, now, ready), rv)) == ready,
{
    let cond = ready_condition_view(now, ready);
    lemma_readiness_conditions(doc, now, ready, rv);
    lemma_ready_condition_fields(now, ready);
    if ready {
        assert(is_ready_true(seq![cond][0]));
    } else {
        assert forall|i: int| 0 <= i < 1 implies !is_ready_true(#[trigger] seq![cond][i]) by {
            assert(seq![cond][i] == cond);
        }
    }
}

proof fn lemma_concat_contains<A>(a: Seq<A>, b: Seq<A>, x: A)
    ensures
        (a + b).contains(x) <==> (a.contains(x) || b.contains(x)),
{
    if (a + b).contains(x) {
        let i = choose|i: int| 0 <= i < (a + b).len() && (a + b)[i] == x;
        if i < a.len() {
            assert(a[i] == x);
        } else {
            assert(b[i - a.len()] == x);
        }
    }
    if a.contains(x) {
        let i = choose|i: int| 0 <= i < a.len() && a[i] == x;
        assert((a + b)[i] == x);
    }
    if b.contains(x) {
        let i = choose|i: int| 0 <= i < b.len() && b[i] == x;
        assert((a + b)[a.len() + i] == x);
    }
}

proof fn lemma_readiness_indices(ws: Seq<StoredView>, ls: Seq<(Seq<char>, UtcTime, u64)>, now: UtcTime, n: int, x: (int, bool))
    requires
        readiness_upto(ws, ls, now, n).contains(x),
    ensures
        0 <= x.0 < n,
    decreases n,
{
    if n > 0 {
        let k = n - 1;
        let target = has_fresh_lease(ls, ws[k].name, now);
        let tail = if target != ready_of(ws[k].document) {
            seq![(k, target)]
        } else {
            Seq::<(int, bool)>::empty()
        };
        lemma_concat_contains(readiness_upto(ws, ls, now, n - 1), tail, x);
        if readiness_upto(ws, ls, now, n - 1).contains(x) {
            lemma_readiness_indices(ws, ls, now, n - 1, x);
        } else {
            assert(tail[0] == x);
        }
    }
}

/// The readiness flips a lifecycle pass plans are exactly those that bring a
/// worker's `Ready` condition in line with whether it holds a fresh lease:
/// worker `k` is flipped to `t` when, and only when, `t` is its lease
/// freshness and differs from its current readiness.
pub proof fn law_readiness_plan_follows_leases(
    ws: Seq<StoredView>,
    ls: Seq<(Seq<char>, UtcTime, u64)>,
    now: UtcTime,
    n: int,
    k: int,
    t: bool,
)
    requires
        0 <= k < n <= ws.len(),
    ensures
        readiness_upto(ws, ls, now, n).contains((k, t)) <==> (t == has_fresh_lease(ls, ws[k].name, now) && t
            != ready_of(ws[k].document)),
    decreases n,
{
    let m = n - 1;
    let target = has_fresh_lease(ls, ws[m].name, now);
    let tail = if target != ready_of(ws[m].document) {
        seq![(m, target)]
    } else {
        Seq::<(int, bool)>::empty()
    };
    assert(readiness_upto(ws, ls, now, n) == readiness_upto(ws, ls, now, m) + tail);
    lemma_concat_contains(readiness_upto(ws, ls, now, m), tail, (k, t));
    if k < m {
        law_readiness_plan_follows_leases(ws, ls, now, m, k, t);
        if tail.contains((k, t)) {
            assert(tail[0] == (k, t));
        }
    } else {
        if readiness_upto(ws, ls, now, m).contains((k, t)) {
            lemma_readiness_indices(ws, ls, now, m, (k, t));
        }
        if t == target && t != ready_of(ws[m].document) {
            assert(tail[0] == (k, t));
        }
        if tail.contains((k, t)) {
            assert(tail[0] == (k, t));
        }
    }
}

proof fn lemma_container_evictions(cs: Seq<StoredView>, name: Seq<char>, m: int, c: int, r: bool)
    requires
        0 <= m <= cs.len(),
    ensures
        container_evictions(cs, name, m).contains((c, r)) <==> (0 <= c < m && counts_against(cs[c], name) && r
            == reschedulable(cs[c].document)),
    decreases m,
{
    if m > 0 {
        let tail = if counts_against(cs[m - 1], name) {
            seq![(m - 1, reschedulable(cs[m - 1].document))]
        } else {
            Seq::<(int, bool)>::empty()
        };
        assert(container_evictions(cs, name, m) == container_evictions(cs, name, m - 1) + tail);
        lemma_concat_contains(container_evictions(cs, name, m - 1), tail, (c, r));
        lemma_container_evictions(cs, name, m - 1, c, r);
        if tail.contains((c, r)) {
            assert(tail[0] == (c, r));
        }
        if c == m - 1 && counts_against(cs[c], name) && r == reschedulable(cs[c].document) {
            assert(tail[0] == (c, r));
        }
    }
}

/// The evictions a lifecycle pass plans are exactly the containers that
/// occupy (are `Scheduled` or `Running` on) a worker that holds no fresh
/// lease and has been `NotReady` for longer than the timeout, each marked
/// for rescheduling exactly when it carries the reschedulable label.
pub proof fn law_eviction_plan_targets_dead_workers(
    ws: Seq<StoredView>,
    cs: Seq<StoredView>,
    ls: Seq<(Seq<char>, UtcTime, u64)>,
    now: UtcTime,
    timeout: u64,
    n: int,
    c: int,
    r: bool,
)
    requires
        0 <= n <= ws.len(),
    ensures
        evictions_upto(ws, cs, ls, now, timeout, n).contains((c, r)) <==> {
            &&& 0 <= c < cs.len()
            &&& r == reschedulable(cs[c].document)
            &&& exists|w: int| 0 <= w < n && evict_due(ws[w], ls, now, timeout) && #[trigger] counts_against(cs[c], ws[w].name)
        },
    decreases n,
{
    if n > 0 {
        let w = n - 1;
        let tail = if evict_due(ws[w], ls, now, timeout) {
            container_evictions(cs, ws[w].name, cs.len() as int)
        } else {
            Seq::<(int, bool)>::empty()
        };
        assert(evictions_upto(ws, cs, ls, now, timeout, n) == evictions_upto(ws, cs, ls, now, timeout, n - 1) + tail);
        lemma_concat_contains(evictions_upto(ws, cs, ls, now, timeout, n - 1), tail, (c, r));
        law_eviction_plan_targets_dead_workers(ws, cs, ls, now, timeout, n - 1, c, r);
        lemma_container_evictions(cs, ws[w].name, cs.len() as int, c, r);
        if 0 <= c < cs.len() && r == reschedulable(cs[c].document) && exists|v: int| 0 <= v < n && evict_due(ws[v], ls, now, timeout) && #[trigger] counts_against(cs[c], ws[v].name) {
            let v = choose|v: int| 0 <= v < n && evict_due(ws[v], ls, now, timeout) && #[trigger] counts_against(cs[c], ws[v].name);
            if v < n - 1 {
                assert(evictions_upto(ws, cs, ls, now, timeout, n - 1).contains((c, r)));
            }
        }
    }
}

/// Eviction waits out the grace: a worker stored as `Ready` (one that this
/// pass may only now mark `NotReady`), a worker holding a fresh lease, and a
/// worker that turned `NotReady` no more than `timeout` seconds ago all keep
/// their containers in this pass.
pub proof fn law_eviction_waits_for_grace(
    w: StoredView,
    ls: Seq<(Seq<char>, UtcTime, u64)>,
    now: UtcTime,
    timeout: u64,
)
    ensures
        ready_of(w.document) ==> !evict_due(w, ls, now, timeout),
        has_fresh_lease(ls, w.name, now) ==> !evict_due(w, ls, now, timeout),
        (since_of(w.document) matches Some(t) && !elapsed_over(now, t, timeout)) ==> !evict_due(w, ls, now, timeout),
        evict_due(w, ls, now, timeout) <==> {
            &&& !has_fresh_lease(ls, w.name, now)
            &&& !ready_of(w.document)
            &&& since_of(w.document) matches Some(t)
            &&& elapsed_over(now, t, timeout)
        },
{
}

/// The reschedulable label, read straight from a document: its
/// `metadata.labels` maps `velos.io/reschedulable` to the text `true`.
pub open spec fn carries_reschedulable_label(doc: JsonView) -> bool {
    str_of(json_get_opt(json_get_opt(json_get(doc, "metadata"@), "labels"@), "velos.io/reschedulable"@)) == Some("true"@)
}

/// Rescheduling is opted into by the container's own metadata label: a
/// container is reschedulable exactly when its `metadata.labels` maps
/// `velos.io/reschedulable` to `true`, and every eviction a lifecycle pass
/// plans carries that flag, so such a container goes back to `Pending`
/// unbound and any other is marked `Unknown` in place.
pub proof fn law_eviction_reschedules_labelled_containers(
    ws: Seq<StoredView>,
    cs: Seq<StoredView>,
    ls: Seq<(Seq<char>, UtcTime, u64)>,
    now: UtcTime,
    timeout: u64,
    c: int,
    r: bool,
)
    ensures
        forall|doc: JsonView| #[trigger] reschedulable(doc) <==> carries_reschedulable_label(doc),
        evictions_upto(ws, cs, ls, now, timeout, ws.len() as int).contains((c, r)) ==> {
            &&& 0 <= c < cs.len()
            &&& r == carries_reschedulable_label(cs[c].document)
        },
{
    reveal_strlit("velos.io/reschedulable");
    law_eviction_plan_targets_dead_workers(ws, cs, ls, now, timeout, ws.len() as int, c, r);
}

/// `after` keeps the workers of `before` in place with their names and
/// readiness flags.
pub open spec fn same_flags(before: Seq<WorkerView>, after: Seq<WorkerView>) -> bool {
    &&& after.len() == before.len()
    &&& forall|k: int| 0 <= k < before.len() ==> (#[trigger] after[k]).name == before[k].name
        && after[k].ready == before[k].ready && after[k].unschedulable == before[k].unschedulable
}

/// Worker `name` is one of `ws` that is `Ready` and schedulable.
pub open spec fn names_ready_worker(ws: Seq<WorkerView>, name: Seq<char>) -> bool {
    exists|k: int| 0 <= k < ws.len() && ws[k].name@ == name && ws[k].ready && !ws[k].unschedulable
}

/// Every binding names a `Ready`, schedulable worker of `ws`.
pub open spec fn bound_to_ready(ws: Seq<WorkerView>, bs: Seq<(Seq<char>, Seq<char>)>) -> bool {
    forall|j: int| 0 <= j < bs.len() ==> names_ready_worker(ws, (#[trigger] bs[j]).1)
}

proof fn lemma_commit_keeps_flags(ws: Seq<WorkerView>, prev: Seq<WorkerView>, j: int, req: ResourceRequest)
    requires
        same_flags(ws, prev),
        0 <= j < prev.len(),
    ensures
        same_flags(ws, prev.update(j, commit(prev[j], req))),
{
    let next = prev.update(j, commit(prev[j], req));
    assert forall|k: int| 0 <= k < ws.len() implies (#[trigger] next[k]).name == ws[k].name && next[k].ready
        == ws[k].ready && next[k].unschedulable == ws[k].unschedulable by {
        if k == j {
            assert(next[k] == commit(prev[j], req));
        } else {
            assert(next[k] == prev[k]);
        }
    }
}

proof fn lemma_first_named_exists(ws: Seq<WorkerView>, name: Seq<char>, i: int)
    requires
        0 <= i < ws.len(),
        ws[i].name@ == name,
    ensures
        first_named(ws, name) matches Some(j) && 0 <= j <= i && ws[j].name@ == name,
    decreases i,
{
    if exists|k: int| 0 <= k < i && #[trigger] ws[k].name@ == name {
        let k = choose|k: int| 0 <= k < i && #[trigger] ws[k].name@ == name;
        lemma_first_named_exists(ws, name, k);
    } else {
        lemma_first_named_is(ws, name, i);
    }
}

#[verifier::spinoff_prover]
proof fn lemma_place_keeps_flags(ws: Seq<WorkerView>, prev: Seq<WorkerView>, p: (Seq<char>, ResourceRequest))
    requires
        same_flags(ws, prev),
    ensures
        same_flags(ws, place(prev, p).0),
        place(prev, p).1 matches Some(b) ==> names_ready_worker(ws, b.1),
{
    reveal(place);
    match first_fit(p.1, prev) {
        Some(i) => {
            let k = choose|k: int| is_first_fit(p.1, prev, k);
            assert(is_first_fit(p.1, prev, k));
            assert(i == k);
            assert(admits_spec(prev[i], p.1));
            assert(ws[i].name == prev[i].name);
            assert(ws[i].name@ == prev[i].name@ && ws[i].ready && !ws[i].unschedulable);
            let name = prev[i].name@;
            assert(names_ready_worker(ws, name));
            lemma_first_named_exists(prev, name, i);
            let j = first_named(prev, name).unwrap();
            lemma_commit_keeps_flags(ws, prev, j, p.1);
        },
        None => {},
    }
}

proof fn lemma_plan_keeps_flags(ps: Seq<(Seq<char>, ResourceRequest)>, ws: Seq<WorkerView>)
    ensures
        same_flags(ws, plan_spec(ps, ws).0),
        bound_to_ready(ws, plan_spec(ps, ws).1),
    decreases ps.len(),
{
    reveal(plan_spec);
    if ps.len() > 0 {
        lemma_plan_keeps_flags(ps.drop_last(), ws);
        let prev = plan_spec(ps.drop_last(), ws);
        let step = place(prev.0, ps.last());
        lemma_place_keeps_flags(ws, prev.0, ps.last());
        let out = plan_spec(ps, ws);
        assert(out.1 == prev.1 + opt_seq(step.1));
        assert forall|j: int| 0 <= j < out.1.len() implies names_ready_worker(ws, (#[trigger] out.1[j]).1) by {
            if j < prev.1.len() {
                assert(out.1[j] == prev.1[j]);
            } else {
                assert(out.1[j] == step.1.unwrap());
            }
        }
    } else {
        assert(same_flags(ws, ws));
    }
}

/// Scheduling binds containers only to workers that are `Ready` and
/// schedulable: every binding a pass makes names such a worker.
pub proof fn law_bindings_go_to_ready_workers(ps: Seq<(Seq<char>, ResourceRequest)>, ws: Seq<WorkerView>)
    ensures
        bound_to_ready(ws, plan_spec(ps, ws).1),
{
    lemma_plan_keeps_flags(ps, ws);
}

proof fn lemma_readiness_conditions(doc: JsonView, now: UtcTime, ready: bool, rv: u64)
    requires
        doc is Object || doc is Null,
    ensures
        get2(with_rv(with_readiness(doc, now, ready), rv), "status"@, "conditions"@) == Some(
            JsonView::Array(seq![ready_condition_view(now, ready)]),
        ),
{
    let cond = ready_condition_view(now, ready);
    let conds = JsonView::Array(seq![cond]);
    let d1 = with_readiness(doc, now, ready);
    reveal_strlit("status");
    reveal_strlit("conditions");
    reveal_strlit("metadata");
    assert("status"@ != "metadata"@) by {
        assert("status"@[0] != "metadata"@[0]);
    }
    match json_get(doc, "status"@) {
        Some(JsonView::Object(m)) => {
            lemma_jset_get(JsonView::Object(m), "conditions"@, conds, "conditions"@);
            lemma_jset_get(doc, "status"@, jset(JsonView::Object(m), "conditions"@, conds), "status"@);
        },
        _ => {
            let base = if doc is Null { empty_object_view() } else { doc };
            lemma_jset_get(base, "status"@, JsonView::Object(seq![("conditions"@, conds)]), "status"@);
        },
    }
    match json_get(d1, "metadata"@) {
        Some(JsonView::Object(mm)) => {
            lemma_jset_get(d1, "metadata"@, jset(JsonView::Object(mm), "resourceVersion"@, JsonView::UInt(rv)), "status"@);
        },
        _ => {},
    }
}

proof fn lemma_ready_condition_time(now: UtcTime, ready: bool)
    ensures
        str_of(json_get(ready_condition_view(now, ready), "lastTransitionTime"@)) == Some(rfc3339_text(now)),
{
    reveal_strlit("conditionType");
    reveal_strlit("lastTransitionTime");
    assert("conditionType"@[0] != "lastTransitionTime"@[0]);
    let m = ready_condition_view(now, ready)->Object_0;
    assert(m.drop_first()[0].0 == "lastTransitionTime"@);
    reveal_with_fuel(crate::json::lookup, 3);
}

/// Two views of a worker that agree on everything scheduling reads.
pub open spec fn same_value(a: WorkerView, b: WorkerView) -> bool {
    &&& a.name@ == b.name@
    &&& a.ready == b.ready
    &&& a.unschedulable == b.unschedulable
    &&& a.allocatable == b.allocatable
    &&& a.allocated == b.allocated
}

/// Two lists of worker views that agree worker by worker.
pub open spec fn same_values(xs: Seq<WorkerView>, ys: Seq<WorkerView>) -> bool {
    &&& xs.len() == ys.len()
    &&& forall|k: int| 0 <= k < xs.len() ==> same_value(#[trigger] xs[k], ys[k])
}

proof fn lemma_first_fit_same(req: ResourceRequest, xs: Seq<WorkerView>, ys: Seq<WorkerView>)
    requires
        same_values(xs, ys),
    ensures
        first_fit(req, xs) == first_fit(req, ys),
{
    assert forall|i: int| is_first_fit(req, xs, i) implies is_first_fit(req, ys, i) by {
        assert(same_value(xs[i], ys[i]));
        assert forall|j: int| 0 <= j < i implies !admits_spec(#[trigger] ys[j], req) by {
            assert(same_value(xs[j], ys[j]));
            assert(!admits_spec(xs[j], req));
        }
    }
    assert forall|i: int| is_first_fit(req, ys, i) implies is_first_fit(req, xs, i) by {
        assert(same_value(xs[i], ys[i]));
        assert forall|j: int| 0 <= j < i implies !admits_spec(#[trigger] xs[j], req) by {
            assert(same_value(xs[j], ys[j]));
            assert(!admits_spec(ys[j], req));
        }
    }
    if exists|i: int| is_first_fit(req, xs, i) {
        let a = choose|i: int| is_first_fit(req, xs, i);
        let b = choose|i: int| is_first_fit(req, ys, i);
        assert(is_first_fit(req, ys, a));
        lemma_schedule_first_fit_unique(req, ys, a, b);
    }
}

proof fn lemma_first_named_value(ws: Seq<WorkerView>, name: Seq<char>)
    ensures
        match first_named(ws, name) {
            Some(j) => 0 <= j < ws.len() && ws[j].name@ == name && forall|k: int| 0 <= k < j ==> #[trigger] ws[k].name@ != name,
            None => forall|j: int| 0 <= j < ws.len() ==> #[trigger] ws[j].name@ != name,
        },
{
    if exists|j: int| 0 <= j < ws.len() && #[trigger] ws[j].name@ == name {
        let j = choose|j: int| 0 <= j < ws.len() && #[trigger] ws[j].name@ == name;
        let m = lemma_least_named(ws, name, j);
        lemma_first_named_is(ws, name, m);
    }
}

proof fn lemma_least_named(ws: Seq<WorkerView>, name: Seq<char>, i: int) -> (m: int)
    requires
        0 <= i < ws.len(),
        ws[i].name@ == name,
    ensures
        0 <= m <= i,
        ws[m].name@ == name,
        forall|k: int| 0 <= k < m ==> #[trigger] ws[k].name@ != name,
    decreases i,
{
    if exists|k: int| 0 <= k < i && #[trigger] ws[k].name@ == name {
        let k = choose|k: int| 0 <= k < i && #[trigger] ws[k].name@ == name;
        lemma_least_named(ws, name, k)
    } else {
        i
    }
}

proof fn lemma_first_named_same(xs: Seq<WorkerView>, ys: Seq<WorkerView>, name: Seq<char>)
    requires
        same_values(xs, ys),
    ensures
        first_named(xs, name) == first_named(ys, name),
{
    lemma_first_named_value(xs, name);
    lemma_first_named_value(ys, name);
    match first_named(xs, name) {
        Some(a) => {
            assert(same_value(xs[a], ys[a]));
            match first_named(ys, name) {
                Some(b) => {
                    if a < b {
                        assert(ys[a].name@ != name);
                    } else if b < a {
                        assert(same_value(xs[b], ys[b]));
                        assert(xs[b].name@ != name);
                    }
                },
                None => {
                    assert(ys[a].name@ != name);
                },
            }
        },
        None => {
            match first_named(ys, name) {
                Some(b) => {
                    assert(same_value(xs[b], ys[b]));
                    assert(xs[b].name@ != name);
                },
                None => {},
            }
        },
    }
}

proof fn lemma_place_same(xs: Seq<WorkerView>, ys: Seq<WorkerView>, p: (Seq<char>, ResourceRequest))
    requires
        same_values(xs, ys),
    ensures
        same_values(place(xs, p).0, place(ys, p).0),
        place(xs, p).1 == place(ys, p).1,
        place_fits(xs, p) == place_fits(ys, p),
{
    reveal(place);
    reveal(place_fits);
    lemma_first_fit_same(p.1, xs, ys);
    match first_fit(p.1, xs) {
        Some(i) => {
            let k = choose|k: int| is_first_fit(p.1, xs, k);
            assert(is_first_fit(p.1, xs, k));
            assert(same_value(xs[i], ys[i]));
            let name = xs[i].name@;
            lemma_first_named_same(xs, ys, name);
            lemma_first_named_exists(xs, name, i);
            let j = first_named(xs, name).unwrap();
            assert(same_value(xs[j], ys[j]));
            let nx = xs.update(j, commit(xs[j], p.1));
            let ny = ys.update(j, commit(ys[j], p.1));
            assert forall|m: int| 0 <= m < nx.len() implies same_value(#[trigger] nx[m], ny[m]) by {
                assert(same_value(xs[m], ys[m]));
            }
        },
        None => {},
    }
}

proof fn lemma_plan_same(ps: Seq<(Seq<char>, ResourceRequest)>, xs: Seq<WorkerView>, ys: Seq<WorkerView>)
    requires
        same_values(xs, ys),
    ensures
        same_values(plan_spec(ps, xs).0, plan_spec(ps, ys).0),
        plan_spec(ps, xs).1 == plan_spec(ps, ys).1,
        plan_fits(ps, xs) == plan_fits(ps, ys),
    decreases ps.len(),
{
    reveal(plan_spec);
    reveal(plan_fits);
    if ps.len() > 0 {
        lemma_plan_same(ps.drop_last(), xs, ys);
        let px = plan_spec(ps.drop_last(), xs).0;
        let py = plan_spec(ps.drop_last(), ys).0;
        lemma_place_same(px, py, ps.last());
        reveal(place_fits);
        lemma_first_fit_same(ps.last().1, px, py);
        match first_fit(ps.last().1, px) {
            Some(i) => {
                assert(same_value(px[i], py[i]));
                lemma_first_named_same(px, py, px[i].name@);
                match first_named(px, px[i].name@) {
                    Some(j) => {
                        lemma_first_named_exists(px, px[i].name@, i);
                        assert(same_value(px[j], py[j]));
                    },
                    None => {},
                }
            },
            None => {},
        }
    }
}

/// Any two lists of views of the same stored workers agree on everything
/// scheduling reads.
proof fn lemma_views_same(xs: Seq<WorkerView>, ys: Seq<WorkerView>, ws: Seq<StoredView>, cs: Seq<StoredView>)
    requires
        views_of(xs, ws, cs),
        views_of(ys, ws, cs),
    ensures
        same_values(xs, ys),
{
    assert forall|k: int| 0 <= k < xs.len() implies same_value(#[trigger] xs[k], ys[k]) by {
        assert(is_view_of(xs[k], ws[k], cs));
        assert(is_view_of(ys[k], ws[k], cs));
    }
}

} // verus!
