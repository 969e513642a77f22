use velos::models::{fresh_uid, Container, ContainerPhase, ObjectMeta, ResourceReqs};
use velos::reconcile::RestartPolicy;

fn hyphenated(t: &str) -> bool {
    t.len() == 36
        && t.char_indices().all(|(i, c)| {
            if [8, 13, 18, 23].contains(&i) {
                c == '-'
            } else {
                c.is_ascii_digit() || ('a'..='f').contains(&c)
            }
        })
}

#[test]
fn pending_container_is_minimal() {
    let c = Container::pending("c1", "alpine:latest");
    assert_eq!(c.metadata.name, "c1");
    assert!(hyphenated(&c.metadata.uid));
    assert_eq!(c.metadata.resource_version, 0);
    assert!(c.metadata.labels.is_empty() && c.metadata.annotations.is_empty() && c.metadata.finalizers.is_empty());
    assert!(c.metadata.deletion_timestamp.is_none());
    assert!(c.metadata.creation_timestamp.secs > 1_600_000_000);
    assert_eq!(c.spec.image, "alpine:latest");
    assert_eq!(c.spec.resources, ResourceReqs { cpu: 1, memory_bytes: 512 * 1024 * 1024 });
    assert_eq!(c.spec.restart_policy, RestartPolicy::Never);
    assert!(c.spec.node_name.is_none() && c.spec.command.is_empty() && c.spec.env.is_empty());
    assert_eq!(c.status.phase, ContainerPhase::Pending);
    assert!(c.status.exit_code.is_none() && c.status.worker_name.is_none());
}

#[test]
fn fresh_uids_differ() {
    let a = ObjectMeta::new_named("x").uid;
    let b = fresh_uid();
    assert!(hyphenated(&a) && hyphenated(&b));
    assert_ne!(a, b);
}
