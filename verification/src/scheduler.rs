//! First-fit placement of one container onto a worker.
//!
//! `schedule` is a total function of its inputs: it looks at the candidate
//! workers in the given order and picks the first one that is ready, not
//! cordoned, and has enough free cpu and memory left for the request.

use vstd::prelude::*;

verus! {

/// A worker's name.
#[derive(Debug, Clone, PartialEq, Eq, Hash)]
pub struct WorkerName(pub String);

impl View for WorkerName {
    type V = Seq<char>;

    open spec fn view(&self) -> Seq<char> {
        self.0@
    }
}

/// A resource ask (or usage). cpu is a whole-core count; memory in bytes.
#[derive(Debug, Clone, Copy, PartialEq, Eq)]
pub struct ResourceRequest {
    pub cpu: u32,
    pub memory_bytes: u64,
}

/// The scheduler's view of one candidate worker.
#[derive(Debug, Clone)]
pub struct WorkerView {
    pub name: WorkerName,
    pub ready: bool,
    pub unschedulable: bool,
    /// Total schedulable resources on the node.
    pub allocatable: ResourceRequest,
    /// Resources already committed to containers bound here.
    pub allocated: ResourceRequest,
}

/// Free cores: allocatable minus allocated, never below zero.
pub open spec fn free_cpu_of(w: WorkerView) -> int {
    if w.allocatable.cpu >= w.allocated.cpu {
        w.allocatable.cpu - w.allocated.cpu
    } else {
        0
    }
}

/// Free memory bytes: allocatable minus allocated, never below zero.
pub open spec fn free_memory_of(w: WorkerView) -> int {
    if w.allocatable.memory_bytes >= w.allocated.memory_bytes {
        w.allocatable.memory_bytes - w.allocated.memory_bytes
    } else {
        0
    }
}

/// Whether `w` can take one more container asking for `req`.
pub open spec fn admits_spec(w: WorkerView, req: ResourceRequest) -> bool {
    &&& w.ready
    &&& !w.unschedulable
    &&& free_cpu_of(w) >= req.cpu
    &&& free_memory_of(w) >= req.memory_bytes
}

/// `i` is the position of the first worker in `ws` that admits `req`.
pub open spec fn is_first_fit(req: ResourceRequest, ws: Seq<WorkerView>, i: int) -> bool {
    &&& 0 <= i < ws.len()
    &&& admits_spec(ws[i], req)
    &&& forall|j: int| 0 <= j < i ==> !admits_spec(#[trigger] ws[j], req)
}

impl WorkerView {
    /// Free cpu cores after accounting for already-allocated containers.
    pub fn free_cpu(&self) -> (r: u32)
        ensures
            r == free_cpu_of(*self),
    {
        self.allocatable.cpu.saturating_sub(self.allocated.cpu)
    }

    /// Free memory bytes after accounting for already-allocated containers.
    pub fn free_memory(&self) -> (r: u64)
        ensures
            r == free_memory_of(*self),
    {
        self.allocatable.memory_bytes.saturating_sub(self.allocated.memory_bytes)
    }

    /// Whether this worker can admit one more container needing `req`.
    pub fn admits(&self, req: &ResourceRequest) -> (r: bool)
        ensures
            r == admits_spec(*self, *req),
    {
        self.ready && !self.unschedulable && self.free_cpu() >= req.cpu && self.free_memory()
            >= req.memory_bytes
    }

    /// A field-by-field copy of this view.
    pub fn duplicate(&self) -> (r: WorkerView)
        ensures
            r == *self,
    {
        WorkerView {
            name: WorkerName(self.name.0.clone()),
            ready: self.ready,
            unschedulable: self.unschedulable,
            allocatable: self.allocatable,
            allocated: self.allocated,
        }
    }
}

/// First-fit: the name of the first worker, in the given order, that can
/// admit `req`; `None` when no worker can, so the container stays `Pending`.
pub fn schedule(req: &ResourceRequest, workers: &[WorkerView]) -> (r: Option<WorkerName>)
    ensures
        r is None <==> forall|i: int| 0 <= i < workers@.len() ==> !admits_spec(#[trigger] workers@[i], *req),
        r matches Some(n) ==> exists|i: int| is_first_fit(*req, workers@, i) && n@ == workers@[i].name@,
{
    let mut i: usize = 0;
    while i < workers.len()
        invariant
            0 <= i <= workers@.len(),
            forall|j: int| 0 <= j < i ==> !admits_spec(#[trigger] workers@[j], *req),
        decreases workers@.len() - i,
    {
        if workers[i].admits(req) {
            assert(is_first_fit(*req, workers@, i as int));
            return Some(WorkerName(workers[i].name.0.clone()));
        }
        i += 1;
    }
    None
}

/// Laws of first-fit placement: a chosen worker really has room for the
/// request, and `schedule` never passes over a worker that could take it.
pub proof fn lemma_schedule_first_fit_unique(req: ResourceRequest, ws: Seq<WorkerView>, i: int, k: int)
    requires
        is_first_fit(req, ws, i),
        is_first_fit(req, ws, k),
    ensures
        i == k,
{
}

} // verus!
