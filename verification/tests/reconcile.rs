use velos::reconcile::{reconcile, Action, DesiredContainer, ObservedInstance, RestartPolicy};
use velos::runtime::{InstanceState, RunSpec};

fn desired(name: &str, phase: &str, policy: RestartPolicy) -> DesiredContainer {
    DesiredContainer {
        name: name.to_string(),
        uid: format!("uid-{name}"),
        image: "img".to_string(),
        command: vec![],
        env: vec![],
        restart_policy: policy,
        phase: phase.to_string(),
        marked_for_deletion: false,
        has_finalizer: true,
    }
}

fn observed(name: &str, state: InstanceState) -> ObservedInstance {
    ObservedInstance { uid: format!("uid-{name}"), state }
}

#[test]
fn starts_pending_container_with_no_instance() {
    let d = vec![desired("c1", "Scheduled", RestartPolicy::Never)];
    let actions = reconcile(&d, &[]);
    assert_eq!(actions.len(), 1);
    assert!(matches!(&actions[0], Action::Start { name, .. } if name == "c1"));
}

#[test]
fn reports_running_when_status_is_stale() {
    let d = vec![desired("c1", "Scheduled", RestartPolicy::Never)];
    let o = vec![observed("c1", InstanceState::Running)];
    assert_eq!(reconcile(&d, &o), vec![Action::ReportRunning { name: "c1".to_string() }]);
}

#[test]
fn no_action_when_running_and_reported() {
    let d = vec![desired("c1", "Running", RestartPolicy::Never)];
    let o = vec![observed("c1", InstanceState::Running)];
    assert!(reconcile(&d, &o).is_empty());
}

#[test]
fn reports_succeeded_on_clean_exit_with_never_policy() {
    let d = vec![desired("c1", "Running", RestartPolicy::Never)];
    let o = vec![observed("c1", InstanceState::Exited { exit_code: 0 })];
    assert_eq!(
        reconcile(&d, &o),
        vec![Action::ReportTerminal { name: "c1".to_string(), phase: "Succeeded".to_string(), exit_code: 0 }]
    );
}

#[test]
fn restarts_on_failure_policy_when_exit_nonzero() {
    let d = vec![desired("c1", "Running", RestartPolicy::OnFailure)];
    let o = vec![observed("c1", InstanceState::Exited { exit_code: 1 })];
    assert!(matches!(&reconcile(&d, &o)[0], Action::Restart { name, .. } if name == "c1"));
}

#[test]
fn always_policy_restarts_even_on_clean_exit() {
    let d = vec![desired("c1", "Running", RestartPolicy::Always)];
    let o = vec![observed("c1", InstanceState::Exited { exit_code: 0 })];
    assert!(matches!(&reconcile(&d, &o)[0], Action::Restart { .. }));
}

#[test]
fn terminal_container_without_instance_is_left_alone() {
    let d = vec![desired("c1", "Succeeded", RestartPolicy::Never)];
    assert!(reconcile(&d, &[]).is_empty());
}

#[test]
fn deletion_with_instance_cleans_up_and_clears_finalizer() {
    let mut d = desired("c1", "Running", RestartPolicy::Never);
    d.marked_for_deletion = true;
    let o = vec![observed("c1", InstanceState::Running)];
    assert_eq!(
        reconcile(&[d], &o),
        vec![Action::Cleanup { name: "c1".to_string(), uid: "uid-c1".to_string(), clear_finalizer: true }]
    );
}

#[test]
fn deletion_without_instance_just_clears_finalizer() {
    let mut d = desired("c1", "Running", RestartPolicy::Never);
    d.marked_for_deletion = true;
    assert_eq!(reconcile(&[d], &[]), vec![Action::ClearFinalizer { name: "c1".to_string() }]);
}

#[test]
fn orphan_instance_is_reaped() {
    let o = vec![observed("ghost", InstanceState::Running)];
    assert_eq!(reconcile(&[], &o), vec![Action::Reap { uid: "uid-ghost".to_string() }]);
}

#[test]
fn failed_exit_under_never_is_reported_failed() {
    let d = vec![desired("c1", "Running", RestartPolicy::Never)];
    let o = vec![observed("c1", InstanceState::Exited { exit_code: 3 })];
    assert_eq!(
        reconcile(&d, &o),
        vec![Action::ReportTerminal { name: "c1".to_string(), phase: "Failed".to_string(), exit_code: 3 }]
    );
}

#[test]
fn on_failure_policy_reports_clean_exit() {
    let d = vec![desired("c1", "Running", RestartPolicy::OnFailure)];
    let o = vec![observed("c1", InstanceState::Exited { exit_code: 0 })];
    assert_eq!(
        reconcile(&d, &o),
        vec![Action::ReportTerminal { name: "c1".to_string(), phase: "Succeeded".to_string(), exit_code: 0 }]
    );
}

#[test]
fn start_carries_the_run_spec() {
    let mut d = desired("c1", "Pending", RestartPolicy::Never);
    d.command = vec!["sh".to_string(), "-c".to_string()];
    d.env = vec![("K".to_string(), "V".to_string())];
    let actions = reconcile(&[d], &[]);
    assert_eq!(
        actions,
        vec![Action::Start {
            name: "c1".to_string(),
            spec: RunSpec {
                uid: "uid-c1".to_string(),
                image: "img".to_string(),
                command: vec!["sh".to_string(), "-c".to_string()],
                env: vec![("K".to_string(), "V".to_string())],
            },
        }]
    );
}

#[test]
fn deletion_without_finalizer_and_instance_does_nothing() {
    let mut d = desired("c1", "Running", RestartPolicy::Never);
    d.marked_for_deletion = true;
    d.has_finalizer = false;
    assert!(reconcile(&[d], &[]).is_empty());
}

#[test]
fn converged_state_needs_no_action() {
    let d = vec![desired("a", "Running", RestartPolicy::Always), desired("b", "Succeeded", RestartPolicy::Never)];
    let o = vec![observed("a", InstanceState::Running)];
    assert!(reconcile(&d, &o).is_empty());
}

#[test]
fn policy_parse_fails_closed() {
    assert_eq!(RestartPolicy::parse("Always"), RestartPolicy::Always);
    assert_eq!(RestartPolicy::parse("OnFailure"), RestartPolicy::OnFailure);
    assert_eq!(RestartPolicy::parse("Never"), RestartPolicy::Never);
    assert_eq!(RestartPolicy::parse("always"), RestartPolicy::Never);
    assert!(RestartPolicy::OnFailure.should_restart(1));
    assert!(!RestartPolicy::OnFailure.should_restart(0));
    assert!(!RestartPolicy::Never.should_restart(9));
}
