//! The typed wire objects: object metadata and containers.

use vstd::prelude::*;
use crate::auth::is_lower_hex;
use crate::clock::{now_utc, valid_time, UtcTime};
use crate::reconcile::RestartPolicy;
use crate::runtime::{pairs_view, strings_view};
use crate::text::string_from;

verus! {

/// Whether `t` is a uuid in hyphenated form: 32 lowercase hexadecimal digits
/// in groups of 8, 4, 4, 4 and 12.
pub open spec fn is_hyphenated_uuid(t: Seq<char>) -> bool {
    &&& t.len() == 36
    &&& forall|i: int| 0 <= i < 36 ==> if i == 8 || i == 13 || i == 18 || i == 23 {
        #[trigger] t[i] == '-'
    } else {
        is_lower_hex(t[i])
    }
}

/// A fresh random version-4 uuid in hyphenated form, from
/// `uuid::Uuid::new_v4()` printed with `Display`. Which digits come is left
/// open.
#[verifier::external_body]
fn random_uuid() -> (r: String)
    ensures
        is_hyphenated_uuid(r@),
{
    uuid::Uuid::new_v4().to_string()
}

/// A fresh object uid: a random uuid in hyphenated form.
pub fn fresh_uid() -> (r: String)
    ensures
        is_hyphenated_uuid(r@),
{
    random_uuid()
}

/// The metadata every object carries.
#[derive(Debug, Clone)]
pub struct ObjectMeta {
    pub name: String,
    pub uid: String,
    pub labels: Vec<(String, String)>,
    pub annotations: Vec<(String, String)>,
    pub resource_version: u64,
    pub creation_timestamp: UtcTime,
    pub deletion_timestamp: Option<UtcTime>,
    pub finalizers: Vec<String>,
}

/// Resources a container asks for.
#[derive(Debug, Clone, Copy, PartialEq, Eq, Structural)]
pub struct ResourceReqs {
    pub cpu: u32,
    pub memory_bytes: u64,
}

/// Where a container is in its life.
#[derive(Debug, Clone, Copy, PartialEq, Eq, Structural)]
pub enum ContainerPhase {
    Pending,
    Scheduled,
    Running,
    Succeeded,
    Failed,
    Unknown,
}

/// What a container should run.
#[derive(Debug, Clone)]
pub struct ContainerSpec {
    pub image: String,
    pub command: Vec<String>,
    pub env: Vec<(String, String)>,
    pub resources: ResourceReqs,
    pub restart_policy: RestartPolicy,
    /// Set by the scheduler.
    pub node_name: Option<String>,
}

/// What a container's worker reports.
#[derive(Debug, Clone)]
pub struct ContainerStatus {
    pub phase: ContainerPhase,
    pub worker_name: Option<String>,
    pub container_id: Option<String>,
    pub started_at: Option<UtcTime>,
    pub finished_at: Option<UtcTime>,
    pub exit_code: Option<i32>,
    pub message: Option<String>,
}

/// A container object.
#[derive(Debug, Clone)]
pub struct Container {
    pub metadata: ObjectMeta,
    pub spec: ContainerSpec,
    pub status: ContainerStatus,
}

impl ObjectMeta {
    /// Fresh metadata for `name`: a random uid, resource version 0, created
    /// now, with no labels, annotations, deletion mark or finalizers.
    pub fn new_named(name: &str) -> (r: ObjectMeta)
        ensures
            r.name@ == name@,
            is_hyphenated_uuid(r.uid@),
            r.labels@.len() == 0,
            r.annotations@.len() == 0,
            r.resource_version == 0,
            valid_time(r.creation_timestamp),
            r.deletion_timestamp is None,
            r.finalizers@.len() == 0,
    {
        ObjectMeta {
            name: string_from(name),
            uid: fresh_uid(),
            labels: Vec::new(),
            annotations: Vec::new(),
            resource_version: 0,
            creation_timestamp: now_utc(),
            deletion_timestamp: None,
            finalizers: Vec::new(),
        }
    }
}

impl Container {
    /// A minimal `Pending` container for an image: fresh metadata, no command
    /// or environment, one CPU and 512 MiB, restart policy `Never`, not yet
    /// bound, and an empty status.
    pub fn pending(name: &str, image: &str) -> (r: Container)
        ensures
            r.metadata.name@ == name@,
            is_hyphenated_uuid(r.metadata.uid@),
            r.metadata.labels@.len() == 0,
            r.metadata.annotations@.len() == 0,
            r.metadata.resource_version == 0,
            valid_time(r.metadata.creation_timestamp),
            r.metadata.deletion_timestamp is None,
            r.metadata.finalizers@.len() == 0,
            r.spec.image@ == image@,
            r.spec.command@.len() == 0,
            r.spec.env@.len() == 0,
            r.spec.resources == (ResourceReqs { cpu: 1, memory_bytes: 536870912 }),
            r.spec.restart_policy == RestartPolicy::Never,
            r.spec.node_name is None,
            r.status.phase == ContainerPhase::Pending,
            r.status.worker_name is None,
            r.status.container_id is None,
            r.status.started_at is None,
            r.status.finished_at is None,
            r.status.exit_code is None,
            r.status.message is None,
    {
        Container {
            metadata: ObjectMeta::new_named(name),
            spec: ContainerSpec {
                image: string_from(image),
                command: Vec::new(),
                env: Vec::new(),
                resources: ResourceReqs { cpu: 1, memory_bytes: 536870912 },
                restart_policy: RestartPolicy::Never,
                node_name: None,
            },
            status: ContainerStatus {
                phase: ContainerPhase::Pending,
                worker_name: None,
                container_id: None,
                started_at: None,
                finished_at: None,
                exit_code: None,
                message: None,
            },
        }
    }
}

} // verus!
