//! The container runtime seam: what the worker asks a runtime to launch and
//! what a runtime reports back. Every instance is keyed by the Velos
//! container uid, which makes actuation idempotent.

use vstd::prelude::*;
use crate::json::{i64_of, items_view, json_get, json_get_opt, json_text_value, parse_json, str_of, Json, JsonView};
use crate::text::{push_char, push_str, str_eq, string_from};

verus! {

/// Why a runtime call failed.
#[derive(Debug, Clone, PartialEq, Eq)]
pub enum RuntimeError {
    Command(String),
    Io(String),
    Lock,
}

/// The runtime-local identifier of a launched instance.
#[derive(Debug, Clone, PartialEq, Eq)]
pub struct InstanceId(pub String);

/// What the worker asks the runtime to launch.
#[derive(Debug, Clone, PartialEq, Eq)]
pub struct RunSpec {
    pub uid: String,
    pub image: String,
    pub command: Vec<String>,
    pub env: Vec<(String, String)>,
}

/// The value of a launch request.
pub struct RunSpecView {
    pub uid: Seq<char>,
    pub image: Seq<char>,
    pub command: Seq<Seq<char>>,
    pub env: Seq<(Seq<char>, Seq<char>)>,
}

/// The texts of a list of strings.
pub open spec fn strings_view(v: Seq<String>) -> Seq<Seq<char>> {
    v.map_values(|s: String| s@)
}

/// The texts of a list of string pairs.
pub open spec fn pairs_view(v: Seq<(String, String)>) -> Seq<(Seq<char>, Seq<char>)> {
    v.map_values(|p: (String, String)| (p.0@, p.1@))
}

impl View for RunSpec {
    type V = RunSpecView;

    open spec fn view(&self) -> RunSpecView {
        RunSpecView {
            uid: self.uid@,
            image: self.image@,
            command: strings_view(self.command@),
            env: pairs_view(self.env@),
        }
    }
}

/// Observed liveness of an instance. An instance the runtime cannot account
/// for is simply not listed.
#[derive(Debug, Clone, Copy, PartialEq, Eq)]
pub enum InstanceState {
    Running,
    Exited { exit_code: i32 },
}

/// One instance the runtime is tracking, tagged with its Velos uid.
#[derive(Debug, Clone, PartialEq, Eq)]
pub struct Instance {
    pub uid: String,
    pub id: InstanceId,
    pub state: InstanceState,
}

/// A copy of a list of strings.
pub fn copy_strings(v: &Vec<String>) -> (r: Vec<String>)
    ensures
        strings_view(r@) == strings_view(v@),
{
    let mut out: Vec<String> = Vec::new();
    let mut i: usize = 0;
    while i < v.len()
        invariant
            0 <= i <= v@.len(),
            out@.len() == i,
            forall|j: int| 0 <= j < i ==> #[trigger] out@[j]@ == v@[j]@,
        decreases v@.len() - i,
    {
        out.push(v[i].clone());
        i += 1;
    }
    assert(strings_view(out@) =~= strings_view(v@));
    out
}

/// A copy of a list of string pairs.
pub fn copy_pairs(v: &Vec<(String, String)>) -> (r: Vec<(String, String)>)
    ensures
        pairs_view(r@) == pairs_view(v@),
{
    let mut out: Vec<(String, String)> = Vec::new();
    let mut i: usize = 0;
    while i < v.len()
        invariant
            0 <= i <= v@.len(),
            out@.len() == i,
            forall|j: int| 0 <= j < i ==> #[trigger] out@[j].0@ == v@[j].0@ && out@[j].1@ == v@[j].1@,
        decreases v@.len() - i,
    {
        out.push((v[i].0.clone(), v[i].1.clone()));
        i += 1;
    }
    assert(pairs_view(out@) =~= pairs_view(v@));
    out
}

/// The value of an instance: its uid, runtime id and state.
pub open spec fn instance_value(i: Instance) -> (Seq<char>, Seq<char>, InstanceState) {
    (i.uid@, i.id.0@, i.state)
}

/// The values of a list of instances.
pub open spec fn instances_value(v: Seq<Instance>) -> Seq<(Seq<char>, Seq<char>, InstanceState)> {
    v.map_values(|i: Instance| instance_value(i))
}

/// The runtime id and state of the instance tagged `uid`, if there is one.
pub open spec fn find_instance(s: Seq<(Seq<char>, Seq<char>, InstanceState)>, uid: Seq<char>) -> Option<(Seq<char>, InstanceState)>
    decreases s.len(),
{
    if s.len() == 0 {
        None
    } else if s.last().0 == uid {
        Some((s.last().1, s.last().2))
    } else {
        find_instance(s.drop_last(), uid)
    }
}

/// Whether no uid tags two instances.
pub open spec fn uids_distinct(s: Seq<(Seq<char>, Seq<char>, InstanceState)>) -> bool {
    forall|i: int, j: int| 0 <= i < j < s.len() ==> #[trigger] s[i].0 != #[trigger] s[j].0
}

proof fn lemma_find_at(s: Seq<(Seq<char>, Seq<char>, InstanceState)>, k: int)
    requires
        uids_distinct(s),
        0 <= k < s.len(),
    ensures
        find_instance(s, s[k].0) == Some((s[k].1, s[k].2)),
    decreases s.len(),
{
    if k < s.len() - 1 {
        assert(s[k].0 != s[s.len() - 1].0);
        assert(s.drop_last()[k] == s[k]);
        lemma_find_at(s.drop_last(), k);
    }
}

proof fn lemma_find_absent(s: Seq<(Seq<char>, Seq<char>, InstanceState)>, uid: Seq<char>)
    requires
        forall|k: int| 0 <= k < s.len() ==> #[trigger] s[k].0 != uid,
    ensures
        find_instance(s, uid) is None,
    decreases s.len(),
{
    if s.len() > 0 {
        assert forall|k: int| 0 <= k < s.len() - 1 implies #[trigger] s.drop_last()[k].0 != uid by {
            assert(s.drop_last()[k] == s[k]);
        }
        lemma_find_absent(s.drop_last(), uid);
    }
}

/// What a lookup gives for every uid: that of the entry tagged with it.
proof fn lemma_find_all(s: Seq<(Seq<char>, Seq<char>, InstanceState)>, uid: Seq<char>)
    requires
        uids_distinct(s),
    ensures
        find_instance(s, uid) == (if exists|k: int| 0 <= k < s.len() && #[trigger] s[k].0 == uid {
            let k = choose|k: int| 0 <= k < s.len() && #[trigger] s[k].0 == uid;
            Some((s[k].1, s[k].2))
        } else {
            None
        }),
{
    if exists|k: int| 0 <= k < s.len() && #[trigger] s[k].0 == uid {
        let k = choose|k: int| 0 <= k < s.len() && #[trigger] s[k].0 == uid;
        lemma_find_at(s, k);
    } else {
        lemma_find_absent(s, uid);
    }
}

/// What the worker needs of a container runtime. Every instance is tagged
/// with the Velos uid it was launched for.
pub trait ContainerRuntime {
    /// Launches an instance tagged with `spec.uid`.
    fn run(&mut self, spec: &RunSpec) -> (r: Result<InstanceId, RuntimeError>);

    /// Stops the instance tagged `uid`; no effect when there is none.
    fn stop(&mut self, uid: &str) -> (r: Result<(), RuntimeError>);

    /// Removes the instance tagged `uid`; no effect when there is none.
    fn remove(&mut self, uid: &str) -> (r: Result<(), RuntimeError>);

    /// All instances the runtime knows of.
    fn list(&self) -> (r: Result<Vec<Instance>, RuntimeError>);

    /// The runtime's version text.
    fn version(&self) -> (r: Result<String, RuntimeError>);
}

/// An in-memory runtime for tests and local runs: it launches nothing and
/// tracks one instance per uid; an exit can be simulated.
pub struct FakeRuntime {
    instances: Vec<Instance>,
}

impl View for FakeRuntime {
    type V = Seq<(Seq<char>, Seq<char>, InstanceState)>;

    closed spec fn view(&self) -> Seq<(Seq<char>, Seq<char>, InstanceState)> {
        instances_value(self.instances@)
    }
}

/// Whether a runtime's instances are tagged with distinct uids.
pub open spec fn runtime_wf(s: Seq<(Seq<char>, Seq<char>, InstanceState)>) -> bool {
    uids_distinct(s)
}

/// The position of the instance tagged `uid`.
fn position_in(v: &Vec<Instance>, uid: &str) -> (r: Option<usize>)
    ensures
        match r {
            Some(k) => k < v@.len() && instances_value(v@)[k as int].0 == uid@,
            None => forall|k: int| 0 <= k < v@.len() ==> #[trigger] instances_value(v@)[k].0 != uid@,
        },
{
    let mut k: usize = 0;
    while k < v.len()
        invariant
            0 <= k <= v@.len(),
            forall|j: int| 0 <= j < k ==> #[trigger] instances_value(v@)[j].0 != uid@,
        decreases v@.len() - k,
    {
        if str_eq(v[k].uid.as_str(), uid) {
            return Some(k);
        }
        k += 1;
    }
    None
}

/// Sets the state of the instance tagged `uid`, if there is one.
fn set_state_in(v: &mut Vec<Instance>, uid: &str, state: InstanceState)
    requires
        runtime_wf(instances_value(old(v)@)),
    ensures
        runtime_wf(instances_value(final(v)@)),
        find_instance(instances_value(final(v)@), uid@) == match find_instance(instances_value(old(v)@), uid@) {
            Some((id, _)) => Some((id, state)),
            None => None,
        },
        forall|u: Seq<char>| u != uid@ ==> #[trigger] find_instance(instances_value(final(v)@), u) == find_instance(instances_value(old(v)@), u),
{
    let ghost before = instances_value(v@);
    match position_in(v, uid) {
        Some(k) => {
            let old_inst = &v[k];
            let inst = Instance { uid: old_inst.uid.clone(), id: InstanceId(old_inst.id.0.clone()), state };
            v.set(k, inst);
            proof {
                let after = instances_value(v@);
                assert(after =~= before.update(k as int, (before[k as int].0, before[k as int].1, state)));
                assert forall|i: int, j: int| 0 <= i < j < after.len() implies #[trigger] after[i].0 != #[trigger] after[j].0 by {
                    assert(after[i].0 == before[i].0 && after[j].0 == before[j].0);
                }
                lemma_find_at(before, k as int);
                lemma_find_at(after, k as int);
                assert forall|u: Seq<char>| u != uid@ implies #[trigger] find_instance(after, u) == find_instance(before, u) by {
                    lemma_find_all(before, u);
                    lemma_find_all(after, u);
                    if exists|j: int| 0 <= j < before.len() && #[trigger] before[j].0 == u {
                        let j = choose|j: int| 0 <= j < before.len() && #[trigger] before[j].0 == u;
                        assert(after[j].0 == u);
                        let j2 = choose|j2: int| 0 <= j2 < after.len() && #[trigger] after[j2].0 == u;
                        assert(j == j2);
                    } else {
                        assert forall|j: int| 0 <= j < after.len() implies #[trigger] after[j].0 != u by {
                            assert(after[j].0 == before[j].0);
                        }
                    }
                }
            }
        },
        None => {
            proof {
                lemma_find_absent(before, uid@);
            }
        },
    }
}

/// Records a running instance tagged `spec.uid` with id `fake-{uid}`,
/// replacing one already tagged so.
fn run_in(v: &mut Vec<Instance>, spec: &RunSpec) -> (r: InstanceId)
    requires
        runtime_wf(instances_value(old(v)@)),
    ensures
        runtime_wf(instances_value(final(v)@)),
        r.0@ == "fake-"@ + spec.uid@,
        find_instance(instances_value(final(v)@), spec.uid@) == Some(("fake-"@ + spec.uid@, InstanceState::Running)),
        forall|u: Seq<char>| u != spec.uid@ ==> #[trigger] find_instance(instances_value(final(v)@), u) == find_instance(instances_value(old(v)@), u),
{
    let mut id_text = string_from("fake-");
    push_str(&mut id_text, spec.uid.as_str());
    let ghost before = instances_value(v@);
    let inst = Instance { uid: spec.uid.clone(), id: InstanceId(id_text.clone()), state: InstanceState::Running };
    match position_in(v, spec.uid.as_str()) {
        Some(k) => {
            v.set(k, inst);
            proof {
                let after = instances_value(v@);
                assert(after =~= before.update(k as int, (spec.uid@, id_text@, InstanceState::Running)));
                assert forall|i: int, j: int| 0 <= i < j < after.len() implies #[trigger] after[i].0 != #[trigger] after[j].0 by {
                    assert(after[i].0 == before[i].0 && after[j].0 == before[j].0);
                }
                lemma_find_at(after, k as int);
                assert forall|u: Seq<char>| u != spec.uid@ implies #[trigger] find_instance(after, u) == find_instance(before, u) by {
                    lemma_find_all(before, u);
                    lemma_find_all(after, u);
                    if exists|j: int| 0 <= j < before.len() && #[trigger] before[j].0 == u {
                        let j = choose|j: int| 0 <= j < before.len() && #[trigger] before[j].0 == u;
                        assert(after[j].0 == u);
                        let j2 = choose|j2: int| 0 <= j2 < after.len() && #[trigger] after[j2].0 == u;
                        assert(j == j2);
                    } else {
                        assert forall|j: int| 0 <= j < after.len() implies #[trigger] after[j].0 != u by {
                            assert(after[j].0 == before[j].0 || j == k);
                        }
                    }
                }
            }
        },
        None => {
            v.push(inst);
            proof {
                let after = instances_value(v@);
                assert(after =~= before.push((spec.uid@, id_text@, InstanceState::Running)));
                assert forall|i: int, j: int| 0 <= i < j < after.len() implies #[trigger] after[i].0 != #[trigger] after[j].0 by {
                    if j < before.len() {
                        assert(after[i] == before[i] && after[j] == before[j]);
                    } else {
                        assert(after[i] == before[i]);
                    }
                }
                assert(after.drop_last() =~= before);
            }
        },
    }
    InstanceId(id_text)
}

/// Removes the instance tagged `uid`, if there is one.
fn remove_in(v: &mut Vec<Instance>, uid: &str)
    requires
        runtime_wf(instances_value(old(v)@)),
    ensures
        runtime_wf(instances_value(final(v)@)),
        find_instance(instances_value(final(v)@), uid@) is None,
        forall|u: Seq<char>| u != uid@ ==> #[trigger] find_instance(instances_value(final(v)@), u) == find_instance(instances_value(old(v)@), u),
{
    let ghost before = instances_value(v@);
    match position_in(v, uid) {
        Some(k) => {
            v.remove(k);
            proof {
                let after = instances_value(v@);
                assert(after =~= before.remove(k as int));
                assert forall|i: int, j: int| 0 <= i < j < after.len() implies #[trigger] after[i].0 != #[trigger] after[j].0 by {
                    let i2 = if i < k { i } else { i + 1 };
                    let j2 = if j < k { j } else { j + 1 };
                    assert(after[i] == before[i2] && after[j] == before[j2]);
                }
                assert forall|j: int| 0 <= j < after.len() implies #[trigger] after[j].0 != uid@ by {
                    if j < k {
                        assert(after[j] == before[j]);
                    } else {
                        assert(after[j] == before[j + 1]);
                    }
                }
                lemma_find_absent(after, uid@);
                assert forall|u: Seq<char>| u != uid@ implies #[trigger] find_instance(after, u) == find_instance(before, u) by {
                    lemma_find_all(before, u);
                    lemma_find_all(after, u);
                    if exists|j: int| 0 <= j < before.len() && #[trigger] before[j].0 == u {
                        let j = choose|j: int| 0 <= j < before.len() && #[trigger] before[j].0 == u;
                        let j2 = if j < k { j } else { j - 1 };
                        assert(after[j2] == before[j]);
                        let j3 = choose|j3: int| 0 <= j3 < after.len() && #[trigger] after[j3].0 == u;
                        let j4 = if j3 < k { j3 } else { j3 + 1 };
                        assert(after[j3] == before[j4]);
                        assert(j4 == j);
                    } else {
                        assert forall|j: int| 0 <= j < after.len() implies #[trigger] after[j].0 != u by {
                            if j < k {
                                assert(after[j] == before[j]);
                            } else {
                                assert(after[j] == before[j + 1]);
                            }
                        }
                    }
                }
            }
        },
        None => {
            proof {
                lemma_find_absent(before, uid@);
            }
        },
    }
}

impl FakeRuntime {
    /// No uid tags two of the runtime's instances.
    #[verifier::type_invariant]
    spec fn instances_distinct(self) -> bool {
        runtime_wf(self@)
    }

    /// A runtime with no instances.
    pub fn new() -> (r: FakeRuntime)
        ensures
            r@.len() == 0,
    {
        let r = FakeRuntime { instances: Vec::new() };
        assert(r@ =~= Seq::<(Seq<char>, Seq<char>, InstanceState)>::empty());
        r
    }

    /// Takes the instances out, leaving none; the runtime keeps its invariant
    /// meanwhile, and the instances are put back with `restore`.
    fn take_instances(&mut self) -> (r: Vec<Instance>)
        ensures
            instances_value(r@) == old(self)@,
            runtime_wf(instances_value(r@)),
            final(self)@.len() == 0,
    {
        proof {
            use_type_invariant(&*self);
        }
        let mut v: Vec<Instance> = Vec::new();
        proof {
            assert(instances_value(v@) =~= Seq::<(Seq<char>, Seq<char>, InstanceState)>::empty());
        }
        std::mem::swap(&mut v, &mut self.instances);
        v
    }

    /// Simulates the instance tagged `uid` exiting with `exit_code`; no
    /// effect when there is none.
    pub fn set_exited(&mut self, uid: &str, exit_code: i32) -> (r: Result<(), RuntimeError>)
        ensures
            r is Ok,
            find_instance(final(self)@, uid@) == match find_instance(old(self)@, uid@) {
                Some((id, _)) => Some((id, InstanceState::Exited { exit_code })),
                None => None,
            },
            forall|u: Seq<char>| u != uid@ ==> #[trigger] find_instance(final(self)@, u) == find_instance(old(self)@, u),
    {
        let mut v = self.take_instances();
        set_state_in(&mut v, uid, InstanceState::Exited { exit_code });
        self.instances = v;
        Ok(())
    }

    /// Launches (records) an instance tagged `spec.uid`, running, with id
    /// `fake-{uid}`; one already tagged so is replaced.
    pub fn run(&mut self, spec: &RunSpec) -> (r: Result<InstanceId, RuntimeError>)
        ensures
            r matches Ok(id) && id.0@ == "fake-"@ + spec.uid@,
            find_instance(final(self)@, spec.uid@) == Some(("fake-"@ + spec.uid@, InstanceState::Running)),
            forall|u: Seq<char>| u != spec.uid@ ==> #[trigger] find_instance(final(self)@, u) == find_instance(old(self)@, u),
    {
        let mut v = self.take_instances();
        let id = run_in(&mut v, spec);
        self.instances = v;
        Ok(id)
    }

    /// Stops the instance tagged `uid` (it is recorded as exited with code 0);
    /// no effect when there is none.
    pub fn stop(&mut self, uid: &str) -> (r: Result<(), RuntimeError>)
        ensures
            r is Ok,
            find_instance(final(self)@, uid@) == match find_instance(old(self)@, uid@) {
                Some((id, _)) => Some((id, InstanceState::Exited { exit_code: 0 })),
                None => None,
            },
            forall|u: Seq<char>| u != uid@ ==> #[trigger] find_instance(final(self)@, u) == find_instance(old(self)@, u),
    {
        let mut v = self.take_instances();
        set_state_in(&mut v, uid, InstanceState::Exited { exit_code: 0 });
        self.instances = v;
        Ok(())
    }

    /// Removes the instance tagged `uid`; no effect when there is none.
    pub fn remove(&mut self, uid: &str) -> (r: Result<(), RuntimeError>)
        ensures
            r is Ok,
            find_instance(final(self)@, uid@) is None,
            forall|u: Seq<char>| u != uid@ ==> #[trigger] find_instance(final(self)@, u) == find_instance(old(self)@, u),
    {
        let mut v = self.take_instances();
        remove_in(&mut v, uid);
        self.instances = v;
        Ok(())
    }

    /// All instances, each uid once.
    pub fn list(&self) -> (r: Result<Vec<Instance>, RuntimeError>)
        ensures
            r matches Ok(v) && instances_value(v@) == self@,
    {
        let mut out: Vec<Instance> = Vec::new();
        let mut k: usize = 0;
        while k < self.instances.len()
            invariant
                0 <= k <= self.instances@.len(),
                out@.len() == k,
                forall|j: int| 0 <= j < k ==> #[trigger] instance_value(out@[j]) == instance_value(self.instances@[j]),
            decreases self.instances@.len() - k,
        {
            let i = &self.instances[k];
            out.push(Instance { uid: i.uid.clone(), id: InstanceId(i.id.0.clone()), state: i.state });
            k += 1;
        }
        assert(instances_value(out@) =~= self@);
        Ok(out)
    }

    /// The runtime's version text.
    pub fn version(&self) -> (r: Result<String, RuntimeError>)
        ensures
            r matches Ok(v) && v@ == "fake-runtime/1.0"@,
    {
        Ok(string_from("fake-runtime/1.0"))
    }
}

// ---------------------------------------------------------------------------
// The `container` command-line runtime
// ---------------------------------------------------------------------------

/// The label that tags every instance with its Velos uid.
pub const UID_LABEL: &'static str = "velos.uid";

/// The runtime backed by the `container` command-line tool; the commands run
/// outside this library, which builds their arguments and reads their output.
#[derive(Debug, Clone)]
pub struct AppleContainer {
    bin: String,
}

impl View for AppleContainer {
    type V = Seq<char>;

    closed spec fn view(&self) -> Seq<char> {
        self.bin@
    }
}

impl AppleContainer {
    /// The runtime using the `container` binary found on the path.
    pub fn new() -> (r: AppleContainer)
        ensures
            r@ == "container"@,
    {
        AppleContainer { bin: string_from("container") }
    }

    /// The runtime using another binary.
    pub fn with_binary(bin: &str) -> (r: AppleContainer)
        ensures
            r@ == bin@,
    {
        AppleContainer { bin: string_from(bin) }
    }

    /// The binary this runtime runs.
    pub fn binary(&self) -> (r: &str)
        ensures
            r@ == self@,
    {
        self.bin.as_str()
    }
}

impl Default for AppleContainer {
    fn default() -> (r: AppleContainer)
        ensures
            r@ == "container"@,
    {
        AppleContainer::new()
    }
}

/// `key=value`.
pub open spec fn assignment(k: Seq<char>, v: Seq<char>) -> Seq<char> {
    k + seq!['='] + v
}

/// The `--env` arguments for an environment, in order.
pub open spec fn env_args(env: Seq<(Seq<char>, Seq<char>)>) -> Seq<Seq<char>>
    decreases env.len(),
{
    if env.len() == 0 {
        Seq::empty()
    } else {
        env_args(env.drop_last()) + seq!["--env"@, assignment(env.last().0, env.last().1)]
    }
}

/// The arguments that launch an instance: detached, labelled with its uid,
/// with its environment, image and command.
pub open spec fn run_args_spec(spec: RunSpecView) -> Seq<Seq<char>> {
    seq!["run"@, "--detach"@, "--label"@, assignment(UID_LABEL@, spec.uid)] + env_args(spec.env) + seq![spec.image]
        + spec.command
}

/// Builds `key=value`.
fn assign_text(k: &str, v: &str) -> (r: String)
    ensures
        r@ == assignment(k@, v@),
{
    let mut s = string_from(k);
    push_char(&mut s, '=');
    push_str(&mut s, v);
    s
}

/// The arguments that launch an instance for a launch request.
pub fn run_args(spec: &RunSpec) -> (r: Vec<String>)
    ensures
        strings_view(r@) == run_args_spec(spec@),
{
    let mut args: Vec<String> = Vec::new();
    args.push(string_from("run"));
    args.push(string_from("--detach"));
    args.push(string_from("--label"));
    args.push(assign_text(UID_LABEL, spec.uid.as_str()));
    let ghost head = strings_view(args@);
    let ghost ev = pairs_view(spec.env@);
    let mut i: usize = 0;
    assert(ev.take(0) =~= Seq::<(Seq<char>, Seq<char>)>::empty());
    assert(strings_view(args@) =~= head + env_args(ev.take(0)));
    while i < spec.env.len()
        invariant
            ev == pairs_view(spec.env@),
            0 <= i <= spec.env@.len(),
            strings_view(args@) == head + env_args(ev.take(i as int)),
        decreases spec.env@.len() - i,
    {
        let ghost before = strings_view(args@);
        assert(ev.take(i as int + 1).drop_last() =~= ev.take(i as int));
        assert(ev.take(i as int + 1).last() == ev[i as int]);
        args.push(string_from("--env"));
        args.push(assign_text(spec.env[i].0.as_str(), spec.env[i].1.as_str()));
        assert(strings_view(args@) =~= before + seq!["--env"@, assignment(ev[i as int].0, ev[i as int].1)]);
        i += 1;
    }
    assert(ev.take(spec.env@.len() as int) =~= ev);
    let ghost mid = strings_view(args@);
    args.push(spec.image.clone());
    let mut j: usize = 0;
    while j < spec.command.len()
        invariant
            0 <= j <= spec.command@.len(),
            strings_view(args@) == mid + seq![spec.image@] + strings_view(spec.command@).take(j as int),
        decreases spec.command@.len() - j,
    {
        let ghost before = strings_view(args@);
        args.push(spec.command[j].clone());
        assert(strings_view(args@) =~= before.push(spec.command@[j as int]@));
        assert(strings_view(spec.command@).take(j as int + 1) =~= strings_view(spec.command@).take(j as int).push(
            spec.command@[j as int]@,
        ));
        j += 1;
    }
    assert(strings_view(spec.command@).take(spec.command@.len() as int) =~= strings_view(spec.command@));
    assert(strings_view(args@) =~= run_args_spec(spec@));
    args
}

/// The arguments `{command} {id}` for stopping or removing an instance.
pub fn instance_args(command: &str, id: &str) -> (r: Vec<String>)
    ensures
        strings_view(r@) == seq![command@, id@],
{
    let mut args: Vec<String> = Vec::new();
    args.push(string_from(command));
    args.push(string_from(id));
    assert(strings_view(args@) =~= seq![command@, id@]);
    args
}

/// The arguments that list every instance as JSON.
pub fn list_args() -> (r: Vec<String>)
    ensures
        strings_view(r@) == seq!["ls"@, "--all"@, "--format"@, "json"@],
{
    let mut args: Vec<String> = Vec::new();
    args.push(string_from("ls"));
    args.push(string_from("--all"));
    args.push(string_from("--format"));
    args.push(string_from("json"));
    assert(strings_view(args@) =~= seq!["ls"@, "--all"@, "--format"@, "json"@]);
    args
}

/// A text, or a default when there is none.
pub open spec fn or_text(t: Option<Seq<char>>, default: Seq<char>) -> Seq<char> {
    match t {
        Some(s) => s,
        None => default,
    }
}

/// The instance one entry of `container ls` describes, when it carries the
/// uid label: its id defaults to the uid, a status other than `running`
/// means it exited (with its `exitCode`, default 0, as an `i32`).
pub open spec fn ls_entry(e: JsonView) -> Option<(Seq<char>, Seq<char>, InstanceState)> {
    match str_of(json_get_opt(json_get(e, "labels"@), UID_LABEL@)) {
        Some(uid) => {
            let status = or_text(str_of(json_get(e, "status"@)), "unknown"@);
            let code: i64 = match i64_of(json_get(e, "exitCode"@)) {
                Some(c) => c,
                None => 0,
            };
            Some(
                (
                    uid,
                    or_text(str_of(json_get(e, "id"@)), uid),
                    if status == "running"@ {
                        InstanceState::Running
                    } else {
                        InstanceState::Exited { exit_code: code as i32 }
                    },
                ),
            )
        },
        None => None,
    }
}

/// The instances the entries of `container ls` describe, in order.
pub open spec fn ls_instances(entries: Seq<JsonView>) -> Seq<(Seq<char>, Seq<char>, InstanceState)>
    decreases entries.len(),
{
    if entries.len() == 0 {
        Seq::empty()
    } else {
        ls_instances(entries.drop_last()) + match ls_entry(entries.last()) {
            Some(i) => seq![i],
            None => Seq::empty(),
        }
    }
}

/// The instance of one `container ls` entry, if it is tagged.
fn instance_of_entry(e: &Json) -> (r: Option<Instance>)
    ensures
        match r {
            Some(i) => ls_entry(e@) == Some(instance_value(i)),
            None => ls_entry(e@) is None,
        },
{
    let uid = match e.get("labels") {
        Some(l) => match l.get(UID_LABEL) {
            Some(u) => match u.as_str() {
                Some(s) => s.clone(),
                None => return None,
            },
            None => return None,
        },
        None => return None,
    };
    let id = match e.get("id") {
        Some(v) => match v.as_str() {
            Some(s) => s.clone(),
            None => uid.clone(),
        },
        None => uid.clone(),
    };
    let running = match e.get("status") {
        Some(v) => match v.as_str() {
            Some(s) => str_eq(s.as_str(), "running"),
            None => false,
        },
        None => false,
    };
    proof {
        reveal_strlit("running");
        reveal_strlit("unknown");
        assert("unknown"@ != "running"@) by {
            assert("unknown"@[0] != "running"@[0]);
        }
    }
    let state = if running {
        InstanceState::Running
    } else {
        let code: i64 = match e.get("exitCode") {
            Some(v) => match v.as_i64() {
                Some(c) => c,
                None => 0,
            },
            None => 0,
        };
        InstanceState::Exited { exit_code: code as i32 }
    };
    Some(Instance { uid, id: InstanceId(id), state })
}

/// The instances a `container ls --format json` document describes: the
/// tagged entries of its top-level array (nothing when it is not an array).
pub fn instances_from_ls(doc: &Json) -> (r: Vec<Instance>)
    ensures
        instances_value(r@) == match doc@ {
            JsonView::Array(a) => ls_instances(a),
            _ => Seq::empty(),
        },
{
    let mut out: Vec<Instance> = Vec::new();
    let a = match doc.as_array() {
        Some(a) => a,
        None => {
            assert(instances_value(out@) =~= Seq::<(Seq<char>, Seq<char>, InstanceState)>::empty());
            return out;
        },
    };
    let ghost av = items_view(a@);
    let mut i: usize = 0;
    assert(av.take(0) =~= Seq::<JsonView>::empty());
    assert(instances_value(out@) =~= Seq::<(Seq<char>, Seq<char>, InstanceState)>::empty());
    while i < a.len()
        invariant
            av == items_view(a@),
            doc@ == JsonView::Array(av),
            0 <= i <= a@.len(),
            instances_value(out@) == ls_instances(av.take(i as int)),
        decreases a@.len() - i,
    {
        let ghost before = instances_value(out@);
        assert(av.take(i as int + 1).drop_last() =~= av.take(i as int));
        assert(av.take(i as int + 1).last() == av[i as int]);
        match instance_of_entry(&a[i]) {
            Some(inst) => {
                let ghost iv = instance_value(inst);
                out.push(inst);
                assert(instances_value(out@) =~= before + seq![iv]);
            },
            None => {
                assert(instances_value(out@) =~= before + Seq::<(Seq<char>, Seq<char>, InstanceState)>::empty());
            },
        }
        i += 1;
    }
    assert(av.take(a@.len() as int) =~= av);
    out
}

/// Reads the output of `container ls --format json`: no output lists
/// nothing; output that is not JSON is a command error; otherwise the tagged
/// entries of its top-level array.
pub fn parse_ls(raw: &str) -> (r: Result<Vec<Instance>, RuntimeError>)
    ensures
        raw@.len() == 0 ==> (r matches Ok(v) && v@.len() == 0),
        raw@.len() > 0 ==> match r {
            Ok(v) => json_text_value(raw@) matches Some(d) && instances_value(v@) == match d {
                JsonView::Array(a) => ls_instances(a),
                _ => Seq::empty(),
            },
            Err(e) => json_text_value(raw@) is None && e is Command,
        },
{
    if raw.is_empty() {
        return Ok(Vec::new());
    }
    match parse_json(raw) {
        Ok(doc) => Ok(instances_from_ls(&doc)),
        Err(m) => Err(RuntimeError::Command(m)),
    }
}

/// The first listed instance tagged `uid`.
pub open spec fn first_tagged(s: Seq<(Seq<char>, Seq<char>, InstanceState)>, uid: Seq<char>) -> Option<(Seq<char>, Seq<char>, InstanceState)>
    decreases s.len(),
{
    if s.len() == 0 {
        None
    } else if s[0].0 == uid {
        Some(s[0])
    } else {
        first_tagged(s.drop_first(), uid)
    }
}

/// The first listed instance tagged `uid`, as the runtime resolves a uid to
/// the instance it stops or removes.
pub fn find_tagged(list: &Vec<Instance>, uid: &str) -> (r: Option<Instance>)
    ensures
        match r {
            Some(i) => first_tagged(instances_value(list@), uid@) == Some(instance_value(i)),
            None => first_tagged(instances_value(list@), uid@) is None,
        },
{
    let ghost lv = instances_value(list@);
    let mut k: usize = 0;
    assert(lv.skip(0) =~= lv);
    while k < list.len()
        invariant
            lv == instances_value(list@),
            0 <= k <= list@.len(),
            first_tagged(lv, uid@) == first_tagged(lv.skip(k as int), uid@),
        decreases list@.len() - k,
    {
        assert(lv.skip(k as int)[0] == lv[k as int]);
        if str_eq(list[k].uid.as_str(), uid) {
            let i = &list[k];
            return Some(Instance { uid: i.uid.clone(), id: InstanceId(i.id.0.clone()), state: i.state });
        }
        assert(lv.skip(k as int).drop_first() =~= lv.skip(k as int + 1));
        k += 1;
    }
    assert(lv.skip(k as int).len() == 0);
    None
}

impl ContainerRuntime for FakeRuntime {
    fn run(&mut self, spec: &RunSpec) -> (r: Result<InstanceId, RuntimeError>)
        ensures
            r matches Ok(id) && id.0@ == "fake-"@ + spec.uid@,
            find_instance(final(self)@, spec.uid@) == Some(("fake-"@ + spec.uid@, InstanceState::Running)),
            forall|u: Seq<char>| u != spec.uid@ ==> #[trigger] find_instance(final(self)@, u) == find_instance(old(self)@, u),
    {
        FakeRuntime::run(self, spec)
    }

    fn stop(&mut self, uid: &str) -> (r: Result<(), RuntimeError>)
        ensures
            r is Ok,
            find_instance(final(self)@, uid@) == match find_instance(old(self)@, uid@) {
                Some((id, _)) => Some((id, InstanceState::Exited { exit_code: 0 })),
                None => None,
            },
            forall|u: Seq<char>| u != uid@ ==> #[trigger] find_instance(final(self)@, u) == find_instance(old(self)@, u),
    {
        FakeRuntime::stop(self, uid)
    }

    fn remove(&mut self, uid: &str) -> (r: Result<(), RuntimeError>)
        ensures
            r is Ok,
            find_instance(final(self)@, uid@) is None,
            forall|u: Seq<char>| u != uid@ ==> #[trigger] find_instance(final(self)@, u) == find_instance(old(self)@, u),
    {
        FakeRuntime::remove(self, uid)
    }

    fn list(&self) -> (r: Result<Vec<Instance>, RuntimeError>)
        ensures
            r matches Ok(v) && instances_value(v@) == self@,
    {
        FakeRuntime::list(self)
    }

    fn version(&self) -> (r: Result<String, RuntimeError>)
        ensures
            r matches Ok(v) && v@ == "fake-runtime/1.0"@,
    {
        FakeRuntime::version(self)
    }
}

} // verus!
