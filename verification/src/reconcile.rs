//! Worker reconciliation.
//!
//! `reconcile(desired, observed)` compares the containers the server assigned
//! to this worker against what the runtime reports and returns the actions
//! that converge the two. All matching is keyed by container uid, which makes
//! the result idempotent across crashes.

use vstd::prelude::*;
use crate::runtime::{copy_pairs, copy_strings, pairs_view, strings_view, InstanceState, RunSpec, RunSpecView};
use crate::text::str_eq;

verus! {

/// Restart behavior for a container.
#[derive(Debug, Clone, Copy, PartialEq, Eq, Structural)]
pub enum RestartPolicy {
    Never,
    OnFailure,
    Always,
}

/// The policy a wire string names; anything unknown fails closed to `Never`.
pub open spec fn parse_policy(s: Seq<char>) -> RestartPolicy {
    if s == "Always"@ {
        RestartPolicy::Always
    } else if s == "OnFailure"@ {
        RestartPolicy::OnFailure
    } else {
        RestartPolicy::Never
    }
}

/// Whether an instance that exited with `exit_code` is launched again.
pub open spec fn should_restart_spec(p: RestartPolicy, exit_code: i32) -> bool {
    match p {
        RestartPolicy::Always => true,
        RestartPolicy::OnFailure => exit_code != 0,
        RestartPolicy::Never => false,
    }
}

impl RestartPolicy {
    /// Parse the wire string; unknown values fail closed to `Never`.
    pub fn parse(s: &str) -> (r: RestartPolicy)
        ensures
            r == parse_policy(s@),
    {
        if str_eq(s, "Always") {
            RestartPolicy::Always
        } else if str_eq(s, "OnFailure") {
            RestartPolicy::OnFailure
        } else {
            RestartPolicy::Never
        }
    }

    /// Whether an instance that exited with `exit_code` is launched again.
    pub fn should_restart(self, exit_code: i32) -> (r: bool)
        ensures
            r == should_restart_spec(self, exit_code),
    {
        match self {
            RestartPolicy::Always => true,
            RestartPolicy::OnFailure => exit_code != 0,
            RestartPolicy::Never => false,
        }
    }
}

/// A container the server has assigned to this worker.
#[derive(Debug, Clone, PartialEq, Eq)]
pub struct DesiredContainer {
    pub name: String,
    pub uid: String,
    pub image: String,
    pub command: Vec<String>,
    pub env: Vec<(String, String)>,
    pub restart_policy: RestartPolicy,
    pub phase: String,
    pub marked_for_deletion: bool,
    pub has_finalizer: bool,
}

/// The value of an assigned container.
pub struct DesiredView {
    pub name: Seq<char>,
    pub uid: Seq<char>,
    pub image: Seq<char>,
    pub command: Seq<Seq<char>>,
    pub env: Seq<(Seq<char>, Seq<char>)>,
    pub restart_policy: RestartPolicy,
    pub phase: Seq<char>,
    pub marked_for_deletion: bool,
    pub has_finalizer: bool,
}

impl View for DesiredContainer {
    type V = DesiredView;

    open spec fn view(&self) -> DesiredView {
        DesiredView {
            name: self.name@,
            uid: self.uid@,
            image: self.image@,
            command: strings_view(self.command@),
            env: pairs_view(self.env@),
            restart_policy: self.restart_policy,
            phase: self.phase@,
            marked_for_deletion: self.marked_for_deletion,
            has_finalizer: self.has_finalizer,
        }
    }
}

/// The launch request for an assigned container.
pub open spec fn run_spec_of(d: DesiredView) -> RunSpecView {
    RunSpecView { uid: d.uid, image: d.image, command: d.command, env: d.env }
}

impl DesiredContainer {
    /// The launch request for this container.
    pub fn run_spec(&self) -> (r: RunSpec)
        ensures
            r@ == run_spec_of(self@),
    {
        RunSpec {
            uid: self.uid.clone(),
            image: self.image.clone(),
            command: copy_strings(&self.command),
            env: copy_pairs(&self.env),
        }
    }
}

/// What the runtime reports for one instance.
#[derive(Debug, Clone, PartialEq, Eq)]
pub struct ObservedInstance {
    pub uid: String,
    pub state: InstanceState,
}

/// The value of an observed instance.
pub struct ObservedView {
    pub uid: Seq<char>,
    pub state: InstanceState,
}

impl View for ObservedInstance {
    type V = ObservedView;

    open spec fn view(&self) -> ObservedView {
        ObservedView { uid: self.uid@, state: self.state }
    }
}

/// An intended action; the actuator turns these into runtime and server calls.
#[derive(Debug, Clone, PartialEq, Eq)]
pub enum Action {
    /// Launch the instance, then report `Running`.
    Start { name: String, spec: RunSpec },
    /// Remove the exited instance and launch a fresh one (restart policy).
    Restart { name: String, uid: String, spec: RunSpec },
    /// Instance is running but status is stale: report `Running`.
    ReportRunning { name: String },
    /// Instance exited and won't restart: report `Succeeded`/`Failed`.
    ReportTerminal { name: String, phase: String, exit_code: i32 },
    /// Container is being deleted: stop and remove the instance, optionally clear the finalizer.
    Cleanup { name: String, uid: String, clear_finalizer: bool },
    /// Container is being deleted, has no instance, but still holds our finalizer.
    ClearFinalizer { name: String },
    /// An instance with no matching assignment: reap the orphan.
    Reap { uid: String },
}

/// The value of an action.
pub enum ActionView {
    Start { name: Seq<char>, spec: RunSpecView },
    Restart { name: Seq<char>, uid: Seq<char>, spec: RunSpecView },
    ReportRunning { name: Seq<char> },
    ReportTerminal { name: Seq<char>, phase: Seq<char>, exit_code: i32 },
    Cleanup { name: Seq<char>, uid: Seq<char>, clear_finalizer: bool },
    ClearFinalizer { name: Seq<char> },
    Reap { uid: Seq<char> },
}

impl View for Action {
    type V = ActionView;

    open spec fn view(&self) -> ActionView {
        match self {
            Action::Start { name, spec } => ActionView::Start { name: name@, spec: spec@ },
            Action::Restart { name, uid, spec } => ActionView::Restart { name: name@, uid: uid@, spec: spec@ },
            Action::ReportRunning { name } => ActionView::ReportRunning { name: name@ },
            Action::ReportTerminal { name, phase, exit_code } => ActionView::ReportTerminal {
                name: name@,
                phase: phase@,
                exit_code: *exit_code,
            },
            Action::Cleanup { name, uid, clear_finalizer } => ActionView::Cleanup {
                name: name@,
                uid: uid@,
                clear_finalizer: *clear_finalizer,
            },
            Action::ClearFinalizer { name } => ActionView::ClearFinalizer { name: name@ },
            Action::Reap { uid } => ActionView::Reap { uid: uid@ },
        }
    }
}

/// Whether a phase is terminal.
pub open spec fn is_terminal_spec(phase: Seq<char>) -> bool {
    phase == "Succeeded"@ || phase == "Failed"@
}

/// The terminal phase an exit code maps to.
pub open spec fn terminal_phase_spec(exit_code: i32) -> Seq<char> {
    if exit_code == 0 {
        "Succeeded"@
    } else {
        "Failed"@
    }
}

/// Whether a phase is terminal (`Succeeded` or `Failed`).
pub fn is_terminal(phase: &str) -> (r: bool)
    ensures
        r == is_terminal_spec(phase@),
{
    str_eq(phase, "Succeeded") || str_eq(phase, "Failed")
}

/// The terminal phase an exit code maps to.
pub fn terminal_phase(exit_code: i32) -> (r: &'static str)
    ensures
        r@ == terminal_phase_spec(exit_code),
{
    if exit_code == 0 {
        "Succeeded"
    } else {
        "Failed"
    }
}

/// The first observed instance carrying `uid`.
pub open spec fn first_observed(os: Seq<ObservedView>, uid: Seq<char>) -> Option<ObservedView>
    decreases os.len(),
{
    if os.len() == 0 {
        None
    } else if os[0].uid == uid {
        Some(os[0])
    } else {
        first_observed(os.drop_first(), uid)
    }
}

/// The one action (if any) that converges assigned container `d`.
pub open spec fn decide(d: DesiredView, os: Seq<ObservedView>) -> Option<ActionView> {
    let obs = first_observed(os, d.uid);
    if d.marked_for_deletion {
        match obs {
            Some(_) => Some(ActionView::Cleanup { name: d.name, uid: d.uid, clear_finalizer: d.has_finalizer }),
            None => if d.has_finalizer {
                Some(ActionView::ClearFinalizer { name: d.name })
            } else {
                None
            },
        }
    } else {
        match obs {
            None => if !is_terminal_spec(d.phase) {
                Some(ActionView::Start { name: d.name, spec: run_spec_of(d) })
            } else {
                None
            },
            Some(o) => match o.state {
                InstanceState::Running => if d.phase != "Running"@ {
                    Some(ActionView::ReportRunning { name: d.name })
                } else {
                    None
                },
                InstanceState::Exited { exit_code } => if should_restart_spec(d.restart_policy, exit_code) {
                    Some(ActionView::Restart { name: d.name, uid: d.uid, spec: run_spec_of(d) })
                } else if d.phase != terminal_phase_spec(exit_code) {
                    Some(ActionView::ReportTerminal {
                        name: d.name,
                        phase: terminal_phase_spec(exit_code),
                        exit_code,
                    })
                } else {
                    None
                },
            },
        }
    }
}

/// The elements of an optional value, as a sequence.
pub open spec fn opt_seq<A>(o: Option<A>) -> Seq<A> {
    match o {
        Some(a) => seq![a],
        None => Seq::empty(),
    }
}

/// The actions for every assigned container, in order.
pub open spec fn desired_actions(ds: Seq<DesiredView>, os: Seq<ObservedView>) -> Seq<ActionView>
    decreases ds.len(),
{
    if ds.len() == 0 {
        Seq::empty()
    } else {
        desired_actions(ds.drop_last(), os) + opt_seq(decide(ds.last(), os))
    }
}

/// Whether some assigned container carries `uid`.
pub open spec fn is_assigned(ds: Seq<DesiredView>, uid: Seq<char>) -> bool {
    exists|i: int| 0 <= i < ds.len() && #[trigger] ds[i].uid == uid
}

/// A reap for every observed instance no assigned container claims, in order.
pub open spec fn reap_actions(os: Seq<ObservedView>, ds: Seq<DesiredView>) -> Seq<ActionView>
    decreases os.len(),
{
    if os.len() == 0 {
        Seq::empty()
    } else {
        reap_actions(os.drop_last(), ds) + (if is_assigned(ds, os.last().uid) {
            Seq::empty()
        } else {
            seq![ActionView::Reap { uid: os.last().uid }]
        })
    }
}

/// What reconciliation decides: the per-container actions, then the reaps.
pub open spec fn reconcile_spec(ds: Seq<DesiredView>, os: Seq<ObservedView>) -> Seq<ActionView> {
    desired_actions(ds, os) + reap_actions(os, ds)
}

/// The values of a list of assigned containers.
pub open spec fn desired_view(ds: Seq<DesiredContainer>) -> Seq<DesiredView> {
    ds.map_values(|d: DesiredContainer| d@)
}

/// The values of a list of observed instances.
pub open spec fn observed_view(os: Seq<ObservedInstance>) -> Seq<ObservedView> {
    os.map_values(|o: ObservedInstance| o@)
}

/// The values of a list of actions.
pub open spec fn actions_view(acts: Seq<Action>) -> Seq<ActionView> {
    acts.map_values(|a: Action| a@)
}

/// Position of the first observed instance carrying `uid`.
fn find_observed(observed: &[ObservedInstance], uid: &str) -> (r: Option<usize>)
    ensures
        match r {
            Some(i) => i < observed@.len() && first_observed(observed_view(observed@), uid@) == Some(observed@[i as int]@),
            None => first_observed(observed_view(observed@), uid@) is None,
        },
{
    let ghost ov = observed_view(observed@);
    let mut i: usize = 0;
    assert(ov.skip(0) =~= ov);
    while i < observed.len()
        invariant
            ov == observed_view(observed@),
            0 <= i <= observed@.len(),
            first_observed(ov, uid@) == first_observed(ov.skip(i as int), uid@),
        decreases observed@.len() - i,
    {
        assert(ov.skip(i as int)[0] == ov[i as int]);
        if str_eq(observed[i].uid.as_str(), uid) {
            return Some(i);
        }
        assert(ov.skip(i as int).drop_first() =~= ov.skip(i as int + 1));
        i += 1;
    }
    assert(ov.skip(i as int).len() == 0);
    None
}

/// Whether some assigned container carries `uid`.
fn assigned(desired: &[DesiredContainer], uid: &str) -> (r: bool)
    ensures
        r == is_assigned(desired_view(desired@), uid@),
{
    let ghost dv = desired_view(desired@);
    let mut i: usize = 0;
    while i < desired.len()
        invariant
            dv == desired_view(desired@),
            0 <= i <= desired@.len(),
            forall|j: int| 0 <= j < i ==> #[trigger] dv[j].uid != uid@,
        decreases desired@.len() - i,
    {
        if str_eq(desired[i].uid.as_str(), uid) {
            assert(dv[i as int].uid == uid@);
            return true;
        }
        i += 1;
    }
    false
}

/// The one action (if any) that converges assigned container `d`.
fn decide_one(d: &DesiredContainer, observed: &[ObservedInstance]) -> (r: Option<Action>)
    ensures
        match r {
            Some(a) => decide(d@, observed_view(observed@)) == Some(a@),
            None => decide(d@, observed_view(observed@)) is None,
        },
{
    let obs = find_observed(observed, d.uid.as_str());
    if d.marked_for_deletion {
        return match obs {
            Some(_) => Some(Action::Cleanup { name: d.name.clone(), uid: d.uid.clone(), clear_finalizer: d.has_finalizer }),
            None => if d.has_finalizer {
                Some(Action::ClearFinalizer { name: d.name.clone() })
            } else {
                None
            },
        };
    }
    match obs {
        None => if !is_terminal(d.phase.as_str()) {
            Some(Action::Start { name: d.name.clone(), spec: d.run_spec() })
        } else {
            None
        },
        Some(i) => match observed[i].state {
            InstanceState::Running => if !str_eq(d.phase.as_str(), "Running") {
                Some(Action::ReportRunning { name: d.name.clone() })
            } else {
                None
            },
            InstanceState::Exited { exit_code } => if d.restart_policy.should_restart(exit_code) {
                Some(Action::Restart { name: d.name.clone(), uid: d.uid.clone(), spec: d.run_spec() })
            } else {
                let phase = terminal_phase(exit_code);
                if !str_eq(d.phase.as_str(), phase) {
                    Some(Action::ReportTerminal { name: d.name.clone(), phase: phase.to_owned(), exit_code })
                } else {
                    None
                }
            },
        },
    }
}

/// Decide the actions that converge `observed` toward `desired`: for each
/// assigned container in order, at most one action; then a reap for every
/// instance no assigned container claims.
pub fn reconcile(desired: &[DesiredContainer], observed: &[ObservedInstance]) -> (r: Vec<Action>)
    ensures
        actions_view(r@) == reconcile_spec(desired_view(desired@), observed_view(observed@)),
{
    let ghost dv = desired_view(desired@);
    let ghost ov = observed_view(observed@);
    let mut actions: Vec<Action> = Vec::new();
    let mut i: usize = 0;
    while i < desired.len()
        invariant
            dv == desired_view(desired@),
            ov == observed_view(observed@),
            0 <= i <= desired@.len(),
            actions_view(actions@) == desired_actions(dv.take(i as int), ov),
        decreases desired@.len() - i,
    {
        let ghost before = actions_view(actions@);
        assert(dv.take(i as int + 1).drop_last() =~= dv.take(i as int));
        assert(dv.take(i as int + 1).last() == dv[i as int]);
        match decide_one(&desired[i], observed) {
            Some(a) => {
                actions.push(a);
                assert(actions_view(actions@) =~= before + opt_seq(decide(dv[i as int], ov)));
            },
            None => {
                assert(actions_view(actions@) =~= before + opt_seq(decide(dv[i as int], ov)));
            },
        }
        i += 1;
    }
    assert(dv.take(desired@.len() as int) =~= dv);
    let ghost head = actions_view(actions@);
    let mut k: usize = 0;
    while k < observed.len()
        invariant
            dv == desired_view(desired@),
            ov == observed_view(observed@),
            0 <= k <= observed@.len(),
            head == desired_actions(dv, ov),
            actions_view(actions@) == head + reap_actions(ov.take(k as int), dv),
        decreases observed@.len() - k,
    {
        let ghost before = actions_view(actions@);
        assert(ov.take(k as int + 1).drop_last() =~= ov.take(k as int));
        assert(ov.take(k as int + 1).last() == ov[k as int]);
        if !assigned(desired, observed[k].uid.as_str()) {
            actions.push(Action::Reap { uid: observed[k].uid.clone() });
            assert(actions_view(actions@) =~= before + seq![ActionView::Reap { uid: ov[k as int].uid }]);
        } else {
            assert(actions_view(actions@) =~= before + Seq::<ActionView>::empty());
        }
        assert(head + reap_actions(ov.take(k as int + 1), dv) =~= before + (if is_assigned(dv, ov[k as int].uid) {
            Seq::<ActionView>::empty()
        } else {
            seq![ActionView::Reap { uid: ov[k as int].uid }]
        }));
        k += 1;
    }
    assert(ov.take(observed@.len() as int) =~= ov);
    actions
}

/// Every per-container action comes from deciding one assigned container.
proof fn lemma_desired_actions_origin(ds: Seq<DesiredView>, os: Seq<ObservedView>)
    ensures
        desired_actions(ds, os).len() <= ds.len(),
        forall|k: int| #![trigger desired_actions(ds, os)[k]] 0 <= k < desired_actions(ds, os).len() ==>
            exists|i: int| 0 <= i < ds.len() && #[trigger] decide(ds[i], os) == Some(desired_actions(ds, os)[k]),
    decreases ds.len(),
{
    if ds.len() > 0 {
        let prev = ds.drop_last();
        lemma_desired_actions_origin(prev, os);
        let all = desired_actions(ds, os);
        assert forall|k: int| #![trigger all[k]] 0 <= k < all.len() implies exists|i: int| 0 <= i < ds.len() && #[trigger] decide(ds[i], os) == Some(all[k]) by {
            if k < desired_actions(prev, os).len() {
                let i = choose|i: int| 0 <= i < prev.len() && #[trigger] decide(prev[i], os) == Some(desired_actions(prev, os)[k]);
                assert(ds[i] == prev[i]);
            } else {
                assert(decide(ds[ds.len() - 1], os) == Some(all[k]));
            }
        }
    }
}

/// Every reap names an observed instance that no assigned container claims,
/// and every such instance is reaped.
proof fn lemma_reap_actions_exact(os: Seq<ObservedView>, ds: Seq<DesiredView>)
    ensures
        forall|k: int| 0 <= k < reap_actions(os, ds).len() ==> {
            let a = #[trigger] reap_actions(os, ds)[k];
            &&& a is Reap
            &&& exists|j: int| 0 <= j < os.len() && os[j].uid == a->Reap_uid && !is_assigned(ds, os[j].uid)
        },
        forall|j: int| 0 <= j < os.len() && !is_assigned(ds, #[trigger] os[j].uid) ==>
            reap_actions(os, ds).contains(ActionView::Reap { uid: os[j].uid }),
    decreases os.len(),
{
    if os.len() > 0 {
        let prev = os.drop_last();
        lemma_reap_actions_exact(prev, ds);
        let all = reap_actions(os, ds);
        let head = reap_actions(prev, ds);
        assert forall|k: int| 0 <= k < all.len() implies {
            let a = #[trigger] all[k];
            &&& a is Reap
            &&& exists|j: int| 0 <= j < os.len() && os[j].uid == a->Reap_uid && !is_assigned(ds, os[j].uid)
        } by {
            if k < head.len() {
                assert(all[k] == head[k]);
                let j = choose|j: int| 0 <= j < prev.len() && prev[j].uid == head[k]->Reap_uid && !is_assigned(ds, prev[j].uid);
                assert(os[j] == prev[j]);
            } else {
                assert(os[os.len() - 1].uid == all[k]->Reap_uid);
            }
        }
        assert forall|j: int| 0 <= j < os.len() && !is_assigned(ds, #[trigger] os[j].uid) implies
            all.contains(ActionView::Reap { uid: os[j].uid }) by {
            if j < prev.len() {
                assert(prev[j] == os[j]);
                let k = choose|k: int| 0 <= k < head.len() && head[k] == ActionView::Reap { uid: prev[j].uid };
                assert(all[k] == head[k]);
            } else {
                assert(all[all.len() - 1] == ActionView::Reap { uid: os[j].uid });
            }
        }
    }
}

/// Reconciliation decides at most one action per assigned container, plus
/// one reap per orphaned instance: it reaps exactly the observed instances
/// that no assigned container claims, and only those.
pub proof fn law_reap_exactly_orphans(ds: Seq<DesiredView>, os: Seq<ObservedView>, uid: Seq<char>)
    ensures
        reconcile_spec(ds, os).contains(ActionView::Reap { uid })
            <==> (exists|j: int| 0 <= j < os.len() && #[trigger] os[j].uid == uid) && !is_assigned(ds, uid),
{
    lemma_desired_actions_origin(ds, os);
    lemma_reap_actions_exact(os, ds);
    let head = desired_actions(ds, os);
    let tail = reap_actions(os, ds);
    let all = reconcile_spec(ds, os);
    if all.contains(ActionView::Reap { uid }) {
        let k = choose|k: int| 0 <= k < all.len() && all[k] == ActionView::Reap { uid };
        if k < head.len() {
            assert(all[k] == head[k]);
            let i = choose|i: int| 0 <= i < ds.len() && #[trigger] decide(ds[i], os) == Some(head[k]);
            assert(decide(ds[i], os) == Some(head[k]));
        } else {
            assert(all[k] == tail[k - head.len()]);
        }
    }
    if (exists|j: int| 0 <= j < os.len() && #[trigger] os[j].uid == uid) && !is_assigned(ds, uid) {
        let j = choose|j: int| 0 <= j < os.len() && #[trigger] os[j].uid == uid;
        let k = choose|k: int| 0 <= k < tail.len() && tail[k] == ActionView::Reap { uid: os[j].uid };
        assert(all[head.len() + k] == tail[k]);
    }
}

/// The runtime shows the first instance carrying `uid` in state `st`.
pub open spec fn observed_in(os: Seq<ObservedView>, uid: Seq<char>, st: InstanceState) -> bool {
    match first_observed(os, uid) {
        Some(o) => o.state == st,
        None => false,
    }
}

/// The worker is authoritative for status: it reports a container running
/// only when the runtime shows that container's instance running, and it
/// reports a terminal phase only for an instance that exited with that code
/// under a policy that does not restart it.
pub proof fn law_reports_follow_observation(ds: Seq<DesiredView>, os: Seq<ObservedView>, k: int)
    requires
        0 <= k < reconcile_spec(ds, os).len(),
    ensures
        reconcile_spec(ds, os)[k] is ReportRunning ==> exists|i: int|
            0 <= i < ds.len() && ds[i].name == reconcile_spec(ds, os)[k]->ReportRunning_name
            && #[trigger] observed_in(os, ds[i].uid, InstanceState::Running),
        reconcile_spec(ds, os)[k] is ReportTerminal ==> exists|i: int|
            0 <= i < ds.len() && ds[i].name == reconcile_spec(ds, os)[k]->ReportTerminal_name
            && #[trigger] observed_in(os, ds[i].uid, InstanceState::Exited { exit_code: reconcile_spec(ds, os)[k]->ReportTerminal_exit_code })
            && !should_restart_spec(ds[i].restart_policy, reconcile_spec(ds, os)[k]->ReportTerminal_exit_code)
            && reconcile_spec(ds, os)[k]->ReportTerminal_phase == terminal_phase_spec(reconcile_spec(ds, os)[k]->ReportTerminal_exit_code),
{
    lemma_desired_actions_origin(ds, os);
    lemma_reap_actions_exact(os, ds);
    let head = desired_actions(ds, os);
    let all = reconcile_spec(ds, os);
    if k < head.len() {
        assert(all[k] == head[k]);
        let i = choose|i: int| 0 <= i < ds.len() && #[trigger] decide(ds[i], os) == Some(head[k]);
        assert(decide(ds[i], os) == Some(all[k]));
        if all[k] is ReportRunning {
            assert(observed_in(os, ds[i].uid, InstanceState::Running));
        }
        if all[k] is ReportTerminal {
            assert(observed_in(os, ds[i].uid, InstanceState::Exited { exit_code: all[k]->ReportTerminal_exit_code }));
        }
    } else {
        assert(all[k] == reap_actions(os, ds)[k - head.len()]);
    }
}

/// A container whose restart policy is `Never` is never restarted.
pub proof fn law_never_policy_never_restarts(ds: Seq<DesiredView>, os: Seq<ObservedView>, k: int)
    requires
        0 <= k < reconcile_spec(ds, os).len(),
        forall|i: int| 0 <= i < ds.len() ==> (#[trigger] ds[i]).restart_policy == RestartPolicy::Never,
    ensures
        !(reconcile_spec(ds, os)[k] is Restart),
{
    lemma_desired_actions_origin(ds, os);
    lemma_reap_actions_exact(os, ds);
    let head = desired_actions(ds, os);
    let all = reconcile_spec(ds, os);
    if k < head.len() {
        assert(all[k] == head[k]);
        let i = choose|i: int| 0 <= i < ds.len() && #[trigger] decide(ds[i], os) == Some(head[k]);
        assert(decide(ds[i], os) == Some(all[k]));
    } else {
        assert(all[k] == reap_actions(os, ds)[k - head.len()]);
    }
}

/// A converged worker is left alone: when every assigned container (none
/// being deleted) has a running instance already reported `Running`, and
/// every instance belongs to an assigned container, there is nothing to do.
pub proof fn law_converged_state_is_fixpoint(ds: Seq<DesiredView>, os: Seq<ObservedView>)
    requires
        forall|i: int| 0 <= i < ds.len() ==> {
            &&& !(#[trigger] ds[i]).marked_for_deletion
            &&& ds[i].phase == "Running"@
            &&& observed_in(os, ds[i].uid, InstanceState::Running)
        },
        forall|j: int| 0 <= j < os.len() ==> is_assigned(ds, #[trigger] os[j].uid),
    ensures
        reconcile_spec(ds, os).len() == 0,
{
    lemma_desired_actions_origin(ds, os);
    lemma_reap_actions_exact(os, ds);
    let head = desired_actions(ds, os);
    if head.len() > 0 {
        let i = choose|i: int| 0 <= i < ds.len() && #[trigger] decide(ds[i], os) == Some(head[0]);
        assert(decide(ds[i], os) is None);
    }
    let tail = reap_actions(os, ds);
    if tail.len() > 0 {
        let a = tail[0];
        let j = choose|j: int| 0 <= j < os.len() && os[j].uid == a->Reap_uid && !is_assigned(ds, os[j].uid);
        assert(is_assigned(ds, os[j].uid));
    }
}

/// A finished container stays finished: every `Start` that reconciliation
/// decides comes from an assigned container that is not being deleted, has
/// no instance yet, and whose phase is neither `Succeeded` nor `Failed`, and
/// it launches exactly that container's run spec. So a container that
/// failed or succeeded is never launched again by a start.
pub proof fn law_finished_containers_are_not_started(ds: Seq<DesiredView>, os: Seq<ObservedView>, k: int)
    requires
        0 <= k < reconcile_spec(ds, os).len(),
        reconcile_spec(ds, os)[k] is Start,
    ensures
        exists|i: int| #![trigger ds[i]]
            0 <= i < ds.len()
            && ds[i].name == reconcile_spec(ds, os)[k]->Start_name
            && reconcile_spec(ds, os)[k]->Start_spec == run_spec_of(ds[i])
            && ds[i].phase != "Failed"@
            && ds[i].phase != "Succeeded"@
            && !ds[i].marked_for_deletion
            && first_observed(os, ds[i].uid) is None,
{
    reveal_strlit("Failed");
    reveal_strlit("Succeeded");
    lemma_desired_actions_origin(ds, os);
    lemma_reap_actions_exact(os, ds);
    let head = desired_actions(ds, os);
    let all = reconcile_spec(ds, os);
    if k < head.len() {
        assert(all[k] == head[k]);
        let i = choose|i: int| 0 <= i < ds.len() && #[trigger] decide(ds[i], os) == Some(head[k]);
        assert(decide(ds[i], os) == Some(all[k]));
        assert(ds[i] == ds[i]);
    } else {
        assert(all[k] == reap_actions(os, ds)[k - head.len()]);
    }
}

} // verus!
