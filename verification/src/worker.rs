//! The worker's side of the control loop: reading the containers assigned to
//! it into what the reconcile core needs, the steps that carry out each
//! decided action, the status documents it reports, how it releases its
//! finalizer, and the lease it renews as a heartbeat.

use vstd::prelude::*;
use crate::controllers::{get2, get2_ref};
use crate::json::{array_of, items_view, json_get, members_view, str_of, Json, JsonView};
use crate::memory::Memory;
use crate::reconcile::{
    actions_view, desired_view, observed_view, parse_policy, reconcile, reconcile_spec, Action, ActionView,
    DesiredContainer, DesiredView, ObservedInstance, RestartPolicy,
};
use crate::runtime::{pairs_view, strings_view, Instance, RunSpec, RuntimeError};
use crate::server::{marked_for_deletion, string_members};
use crate::text::{push_str, str_eq, string_from};

verus! {

/// The finalizer this worker owns: while it is present the server keeps a
/// container that is being deleted, until the worker has removed its instance.
pub const FINALIZER: &'static str = "veloslet";

/// Why a call to the API server failed.
#[derive(Debug, Clone, PartialEq, Eq)]
pub enum ClientError {
    /// The request did not complete, or the reply was not JSON.
    Http(String),
    /// The server answered with an error status.
    Status { status: u16, body: String },
}

/// Why a worker pass failed.
#[derive(Debug, Clone, PartialEq, Eq)]
pub enum VelosletError {
    Client(ClientError),
    Runtime(RuntimeError),
}

/// The string items of an array, in order.
pub open spec fn string_items(a: Seq<JsonView>) -> Seq<Seq<char>>
    decreases a.len(),
{
    if a.len() == 0 {
        Seq::empty()
    } else {
        string_items(a.drop_last()) + match a.last() {
            JsonView::Str(s) => seq![s],
            _ => Seq::empty(),
        }
    }
}

/// A text, or a default when there is none.
pub open spec fn text_or(t: Option<Seq<char>>, default: Seq<char>) -> Seq<char> {
    match t {
        Some(s) => s,
        None => default,
    }
}

/// Whether a container document carries this worker's finalizer.
pub open spec fn holds_finalizer(doc: JsonView) -> bool {
    match array_of(get2(doc, "metadata"@, "finalizers"@)) {
        Some(a) => a.contains(JsonView::Str(FINALIZER@)),
        None => false,
    }
}

/// What the reconcile core needs from an assigned container's document;
/// `None` without a string name and uid.
pub open spec fn desired_of(doc: JsonView) -> Option<DesiredView> {
    match (str_of(get2(doc, "metadata"@, "name"@)), str_of(get2(doc, "metadata"@, "uid"@))) {
        (Some(name), Some(uid)) => Some(
            DesiredView {
                name,
                uid,
                image: text_or(str_of(get2(doc, "spec"@, "image"@)), ""@),
                command: match array_of(get2(doc, "spec"@, "command"@)) {
                    Some(a) => string_items(a),
                    None => Seq::empty(),
                },
                env: match get2(doc, "spec"@, "env"@) {
                    Some(JsonView::Object(m)) => string_members(m),
                    _ => Seq::empty(),
                },
                restart_policy: parse_policy(text_or(str_of(get2(doc, "spec"@, "restartPolicy"@)), "Never"@)),
                phase: text_or(str_of(get2(doc, "status"@, "phase"@)), "Pending"@),
                marked_for_deletion: marked_for_deletion(doc),
                has_finalizer: holds_finalizer(doc),
            },
        ),
        _ => None,
    }
}

/// A string member at `a`, then `b`, as text.
fn text_at(doc: &Json, a: &str, b: &str) -> (r: Option<String>)
    ensures
        crate::store::opt_str_view(r) == str_of(get2(doc@, a@, b@)),
{
    match get2_ref(doc, a, b) {
        Some(v) => match v.as_str() {
            Some(s) => Some(s.clone()),
            None => None,
        },
        None => None,
    }
}

/// A string member at `a`, then `b`, or `default`.
fn text_at_or(doc: &Json, a: &str, b: &str, default: &str) -> (r: String)
    ensures
        r@ == text_or(str_of(get2(doc@, a@, b@)), default@),
{
    match text_at(doc, a, b) {
        Some(s) => s,
        None => string_from(default),
    }
}

/// The string items of an array, in order.
fn strings_in(a: &Vec<Json>) -> (r: Vec<String>)
    ensures
        strings_view(r@) == string_items(items_view(a@)),
{
    let ghost av = items_view(a@);
    let mut out: Vec<String> = Vec::new();
    let mut i: usize = 0;
    while i < a.len()
        invariant
            av == items_view(a@),
            0 <= i <= a@.len(),
            strings_view(out@) == string_items(av.take(i as int)),
        decreases a@.len() - i,
    {
        let ghost before = strings_view(out@);
        assert(av.take(i as int + 1).drop_last() =~= av.take(i as int));
        assert(av.take(i as int + 1).last() == av[i as int]);
        match a[i].as_str() {
            Some(s) => {
                out.push(s.clone());
                assert(strings_view(out@) =~= before + seq![s@]);
            },
            None => {
                assert(strings_view(out@) =~= before + Seq::<Seq<char>>::empty());
            },
        }
        i += 1;
    }
    assert(av.take(a@.len() as int) =~= av);
    out
}

/// The string-valued members of an object, in order.
fn string_pairs_in(m: &Vec<(String, Json)>) -> (r: Vec<(String, String)>)
    ensures
        pairs_view(r@) == string_members(members_view(m@)),
{
    let ghost mv = members_view(m@);
    let mut out: Vec<(String, String)> = Vec::new();
    let mut i: usize = 0;
    while i < m.len()
        invariant
            mv == members_view(m@),
            0 <= i <= m@.len(),
            pairs_view(out@) == string_members(mv.take(i as int)),
        decreases m@.len() - i,
    {
        let ghost before = pairs_view(out@);
        assert(mv.take(i as int + 1).drop_last() =~= mv.take(i as int));
        assert(mv.take(i as int + 1).last() == mv[i as int]);
        match m[i].1.as_str() {
            Some(s) => {
                out.push((m[i].0.clone(), s.clone()));
                assert(pairs_view(out@) =~= before + seq![(mv[i as int].0, s@)]);
            },
            None => {
                assert(pairs_view(out@) =~= before + Seq::<(Seq<char>, Seq<char>)>::empty());
            },
        }
        i += 1;
    }
    assert(mv.take(m@.len() as int) =~= mv);
    out
}

/// Whether a container document carries this worker's finalizer.
pub fn has_worker_finalizer(doc: &Json) -> (r: bool)
    ensures
        r == holds_finalizer(doc@),
{
    let a = match get2_ref(doc, "metadata", "finalizers") {
        Some(v) => match v.as_array() {
            Some(a) => a,
            None => return false,
        },
        None => return false,
    };
    let ghost av = items_view(a@);
    let mut i: usize = 0;
    while i < a.len()
        invariant
            av == items_view(a@),
            array_of(get2(doc@, "metadata"@, "finalizers"@)) == Some(av),
            0 <= i <= a@.len(),
            forall|k: int| 0 <= k < i ==> av[k] != JsonView::Str(FINALIZER@),
        decreases a@.len() - i,
    {
        let hit = match a[i].as_str() {
            Some(s) => str_eq(s.as_str(), FINALIZER),
            None => false,
        };
        if hit {
            assert(av[i as int] == JsonView::Str(FINALIZER@));
            return true;
        }
        i += 1;
    }
    assert(!av.contains(JsonView::Str(FINALIZER@)));
    false
}

/// Reads an assigned container's document into what the reconcile core
/// needs: name and uid (required), image, command and env (string entries
/// only), restart policy (default `Never`), phase (default `Pending`), the
/// deletion mark and whether this worker's finalizer is present.
pub fn desired_from_doc(doc: &Json) -> (r: Option<DesiredContainer>)
    ensures
        match r {
            Some(d) => desired_of(doc@) == Some(d@),
            None => desired_of(doc@) is None,
        },
{
    let name = match text_at(doc, "metadata", "name") {
        Some(n) => n,
        None => return None,
    };
    let uid = match text_at(doc, "metadata", "uid") {
        Some(u) => u,
        None => return None,
    };
    let image = text_at_or(doc, "spec", "image", "");
    let command = match get2_ref(doc, "spec", "command") {
        Some(v) => match v.as_array() {
            Some(a) => strings_in(a),
            None => {
                let c: Vec<String> = Vec::new();
                assert(strings_view(c@) =~= Seq::<Seq<char>>::empty());
                c
            },
        },
        None => {
            let c: Vec<String> = Vec::new();
            assert(strings_view(c@) =~= Seq::<Seq<char>>::empty());
            c
        },
    };
    let env = match get2_ref(doc, "spec", "env") {
        Some(v) => match v.as_object() {
            Some(m) => string_pairs_in(m),
            None => {
                let e: Vec<(String, String)> = Vec::new();
                assert(pairs_view(e@) =~= Seq::<(Seq<char>, Seq<char>)>::empty());
                e
            },
        },
        None => {
            let e: Vec<(String, String)> = Vec::new();
            assert(pairs_view(e@) =~= Seq::<(Seq<char>, Seq<char>)>::empty());
            e
        },
    };
    let policy_text = text_at_or(doc, "spec", "restartPolicy", "Never");
    let restart_policy = RestartPolicy::parse(policy_text.as_str());
    let phase = text_at_or(doc, "status", "phase", "Pending");
    let marked = crate::server::is_marked_for_deletion(doc);
    let has_finalizer = has_worker_finalizer(doc);
    let ghost cmd = command@;
    assert(strings_view(cmd) == match array_of(get2(doc@, "spec"@, "command"@)) {
        Some(a) => string_items(a),
        None => Seq::empty(),
    });
    assert(pairs_view(env@) == match get2(doc@, "spec"@, "env"@) {
        Some(JsonView::Object(m)) => string_members(m),
        _ => Seq::empty(),
    });
    Some(DesiredContainer {
        name,
        uid,
        image,
        command,
        env,
        restart_policy,
        phase,
        marked_for_deletion: marked,
        has_finalizer,
    })
}

/// The containers the reconcile core sees for a list of assigned documents:
/// those that read as containers, in order.
pub open spec fn desired_all(docs: Seq<JsonView>) -> Seq<DesiredView>
    decreases docs.len(),
{
    if docs.len() == 0 {
        Seq::empty()
    } else {
        desired_all(docs.drop_last()) + match desired_of(docs.last()) {
            Some(d) => seq![d],
            None => Seq::empty(),
        }
    }
}

/// The instances the reconcile core sees: each instance's uid and state.
pub open spec fn observed_of(instances: Seq<Instance>) -> Seq<crate::reconcile::ObservedView> {
    instances.map_values(|i: Instance| crate::reconcile::ObservedView { uid: i.uid@, state: i.state })
}

/// One reconcile pass's decision: the actions for the assigned documents that
/// read as containers, against the instances the runtime lists.
pub fn plan_pass(assigned: &Vec<Json>, instances: &Vec<Instance>) -> (r: Vec<Action>)
    ensures
        actions_view(r@) == reconcile_spec(desired_all(items_view(assigned@)), observed_of(instances@)),
{
    let ghost av = items_view(assigned@);
    let mut desired: Vec<DesiredContainer> = Vec::new();
    let mut i: usize = 0;
    while i < assigned.len()
        invariant
            av == items_view(assigned@),
            0 <= i <= assigned@.len(),
            desired_view(desired@) == desired_all(av.take(i as int)),
        decreases assigned@.len() - i,
    {
        let ghost before = desired_view(desired@);
        assert(av.take(i as int + 1).drop_last() =~= av.take(i as int));
        assert(av.take(i as int + 1).last() == av[i as int]);
        match desired_from_doc(&assigned[i]) {
            Some(d) => {
                desired.push(d);
                assert(desired_view(desired@) =~= before + seq![desired_of(av[i as int]).unwrap()]);
            },
            None => {
                assert(desired_view(desired@) =~= before + Seq::<DesiredView>::empty());
            },
        }
        i += 1;
    }
    assert(av.take(assigned@.len() as int) =~= av);
    let mut observed: Vec<ObservedInstance> = Vec::new();
    let mut j: usize = 0;
    while j < instances.len()
        invariant
            0 <= j <= instances@.len(),
            observed@.len() == j,
            forall|k: int| 0 <= k < j ==> (#[trigger] observed@[k]).uid@ == instances@[k].uid@ && observed@[k].state == instances@[k].state,
        decreases instances@.len() - j,
    {
        observed.push(ObservedInstance { uid: instances[j].uid.clone(), state: instances[j].state });
        j += 1;
    }
    assert(observed_view(observed@) =~= observed_of(instances@));
    reconcile(desired.as_slice(), observed.as_slice())
}

// ---------------------------------------------------------------------------
// Reports and writes
// ---------------------------------------------------------------------------

/// The JSON number of an integer.
pub open spec fn int_view(n: i64) -> JsonView {
    if n >= 0 {
        JsonView::UInt(n as u64)
    } else {
        JsonView::Int(n)
    }
}

/// The JSON number of an integer.
pub fn int_json(n: i64) -> (r: Json)
    ensures
        r@ == int_view(n),
{
    if n >= 0 {
        Json::UInt(n as u64)
    } else {
        Json::Int(n)
    }
}

/// The status a worker reports for a running container.
pub open spec fn running_status_view(node: Seq<char>, instance_id: Seq<char>, now: Seq<char>) -> JsonView {
    JsonView::Object(seq![
        ("phase"@, JsonView::Str("Running"@)),
        ("workerName"@, JsonView::Str(node)),
        ("containerID"@, JsonView::Str(instance_id)),
        ("startedAt"@, JsonView::Str(now)),
    ])
}

/// Builds the status of a running container, started at `now`.
pub fn running_status(node: &str, instance_id: &str, now: &str) -> (r: Json)
    ensures
        r@ == running_status_view(node@, instance_id@, now@),
{
    let mut m: Vec<(String, Json)> = Vec::new();
    m.push((string_from("phase"), Json::string("Running")));
    m.push((string_from("workerName"), Json::string(node)));
    m.push((string_from("containerID"), Json::string(instance_id)));
    m.push((string_from("startedAt"), Json::string(now)));
    let r = Json::object(m);
    assert(members_view(m@) =~= seq![
        ("phase"@, JsonView::Str("Running"@)),
        ("workerName"@, JsonView::Str(node@)),
        ("containerID"@, JsonView::Str(instance_id@)),
        ("startedAt"@, JsonView::Str(now@)),
    ]);
    r
}

/// The status a worker reports for a container whose instance ended.
pub open spec fn terminal_status_view(node: Seq<char>, phase: Seq<char>, exit_code: i32, now: Seq<char>) -> JsonView {
    JsonView::Object(seq![
        ("phase"@, JsonView::Str(phase)),
        ("workerName"@, JsonView::Str(node)),
        ("exitCode"@, int_view(exit_code as i64)),
        ("finishedAt"@, JsonView::Str(now)),
    ])
}

/// Builds the status of a container whose instance ended, finished at `now`.
pub fn terminal_status(node: &str, phase: &str, exit_code: i32, now: &str) -> (r: Json)
    ensures
        r@ == terminal_status_view(node@, phase@, exit_code, now@),
{
    let mut m: Vec<(String, Json)> = Vec::new();
    m.push((string_from("phase"), Json::string(phase)));
    m.push((string_from("workerName"), Json::string(node)));
    m.push((string_from("exitCode"), int_json(exit_code as i64)));
    m.push((string_from("finishedAt"), Json::string(now)));
    let r = Json::object(m);
    assert(members_view(m@) =~= seq![
        ("phase"@, JsonView::Str(phase@)),
        ("workerName"@, JsonView::Str(node@)),
        ("exitCode"@, int_view(exit_code as i64)),
        ("finishedAt"@, JsonView::Str(now@)),
    ]);
    r
}

/// The body of a status write: `{"status": status}`.
pub fn status_body(status: Json) -> (r: Json)
    ensures
        r@ == JsonView::Object(seq![("status"@, status@)]),
{
    Json::single_member("status", status)
}

/// The finalizers other than this worker's, in order.
pub open spec fn other_finalizers(a: Seq<JsonView>) -> Seq<JsonView>
    decreases a.len(),
{
    if a.len() == 0 {
        Seq::empty()
    } else {
        other_finalizers(a.drop_last()) + if a.last() == JsonView::Str(FINALIZER@) {
            Seq::empty()
        } else {
            seq![a.last()]
        }
    }
}

/// A container document with this worker's finalizer released: when
/// `metadata` is an object, its `finalizers` become the others (none when
/// there was no list).
pub open spec fn released_doc(doc: JsonView) -> JsonView {
    crate::json::jset_in(
        doc,
        "metadata"@,
        "finalizers"@,
        JsonView::Array(
            match array_of(get2(doc, "metadata"@, "finalizers"@)) {
                Some(a) => other_finalizers(a),
                None => Seq::empty(),
            },
        ),
    )
}

/// Releases this worker's finalizer from a container document.
pub fn release_finalizer(doc: &mut Json)
    ensures
        final(doc)@ == released_doc(old(doc)@),
{
    let mut kept: Vec<Json> = Vec::new();
    let ghost mut source: Seq<JsonView> = Seq::empty();
    match get2_ref(doc, "metadata", "finalizers") {
        Some(v) => match v.as_array() {
            Some(a) => {
                let ghost av = items_view(a@);
                proof {
                    source = av;
                }
                let mut i: usize = 0;
                while i < a.len()
                    invariant
                        av == items_view(a@),
                        0 <= i <= a@.len(),
                        items_view(kept@) == other_finalizers(av.take(i as int)),
                    decreases a@.len() - i,
                {
                    let ghost before = items_view(kept@);
                    assert(av.take(i as int + 1).drop_last() =~= av.take(i as int));
                    assert(av.take(i as int + 1).last() == av[i as int]);
                    let mine = match a[i].as_str() {
                        Some(s) => str_eq(s.as_str(), FINALIZER),
                        None => false,
                    };
                    if mine {
                        assert(items_view(kept@) =~= before + Seq::<JsonView>::empty());
                    } else {
                        let ghost item = a[i as int]@;
                        kept.push(a[i].deep_clone());
                        assert(items_view(kept@) =~= before + seq![item]);
                    }
                    i += 1;
                }
                assert(av.take(a@.len() as int) =~= av);
            },
            None => {},
        },
        None => {},
    }
    assert(items_view(kept@) == match array_of(get2(doc@, "metadata"@, "finalizers"@)) {
        Some(a) => other_finalizers(a),
        None => Seq::empty(),
    });
    doc.update_member("metadata", "finalizers", Json::array(kept));
}

/// The lease a worker renews: held by `node`, renewed at `now`, for
/// `duration_secs` seconds.
pub open spec fn lease_view(node: Seq<char>, now: Seq<char>, duration_secs: u32) -> JsonView {
    JsonView::Object(seq![
        ("metadata"@, JsonView::Object(seq![("name"@, JsonView::Str(node))])),
        ("spec"@, JsonView::Object(seq![
            ("holderIdentity"@, JsonView::Str(node)),
            ("renewTime"@, JsonView::Str(now)),
            ("leaseDurationSeconds"@, JsonView::UInt(duration_secs as u64)),
        ])),
    ])
}

/// Builds the lease document a worker writes as its heartbeat.
pub fn lease_document(node: &str, now: &str, duration_secs: u32) -> (r: Json)
    ensures
        r@ == lease_view(node@, now@, duration_secs),
{
    let mut spec: Vec<(String, Json)> = Vec::new();
    spec.push((string_from("holderIdentity"), Json::string(node)));
    spec.push((string_from("renewTime"), Json::string(now)));
    spec.push((string_from("leaseDurationSeconds"), Json::UInt(duration_secs as u64)));
    let spec_doc = Json::object(spec);
    let meta = Json::single_member("name", Json::string(node));
    let ghost sv = spec_doc@;
    let ghost mv = meta@;
    let mut top: Vec<(String, Json)> = Vec::new();
    top.push((string_from("metadata"), meta));
    top.push((string_from("spec"), spec_doc));
    let r = Json::object(top);
    assert(members_view(spec@) =~= seq![
        ("holderIdentity"@, JsonView::Str(node@)),
        ("renewTime"@, JsonView::Str(now@)),
        ("leaseDurationSeconds"@, JsonView::UInt(duration_secs as u64)),
    ]);
    assert(members_view(top@) =~= seq![("metadata"@, mv), ("spec"@, sv)]);
    r
}

/// The registration request a worker sends: its name, its capacity (cores
/// and memory in bytes), no addresses, and its runtime's version.
pub open spec fn registration_request_view(node: Seq<char>, cpu: u32, memory: u64, version: Seq<char>) -> JsonView {
    JsonView::Object(seq![
        ("name"@, JsonView::Str(node)),
        ("capacity"@, JsonView::Object(seq![
            ("cpu"@, JsonView::UInt(cpu as u64)),
            ("memoryBytes"@, JsonView::UInt(memory)),
        ])),
        ("addresses"@, JsonView::Array(Seq::empty())),
        ("containerRuntimeVersion"@, JsonView::Str(version)),
    ])
}

/// Builds the registration request a worker sends.
pub fn registration_request(node: &str, cpu: u32, memory: Memory, version: &str) -> (r: Json)
    ensures
        r@ == registration_request_view(node@, cpu, memory@, version@),
{
    let mut cap: Vec<(String, Json)> = Vec::new();
    cap.push((string_from("cpu"), Json::UInt(cpu as u64)));
    cap.push((string_from("memoryBytes"), Json::UInt(memory.bytes())));
    let cap_doc = Json::object(cap);
    let none: Vec<Json> = Vec::new();
    proof {
        assert(items_view(none@) =~= Seq::<JsonView>::empty());
    }
    let addresses = Json::array(none);
    let ghost cv = cap_doc@;
    let ghost av = addresses@;
    let mut top: Vec<(String, Json)> = Vec::new();
    top.push((string_from("name"), Json::string(node)));
    top.push((string_from("capacity"), cap_doc));
    top.push((string_from("addresses"), addresses));
    top.push((string_from("containerRuntimeVersion"), Json::string(version)));
    let r = Json::object(top);
    assert(members_view(cap@) =~= seq![
        ("cpu"@, JsonView::UInt(cpu as u64)),
        ("memoryBytes"@, JsonView::UInt(memory@)),
    ]);
    assert(members_view(top@) =~= seq![
        ("name"@, JsonView::Str(node@)),
        ("capacity"@, cv),
        ("addresses"@, av),
        ("containerRuntimeVersion"@, JsonView::Str(version@)),
    ]);
    r
}

/// The credential a worker uses after registering: the `token` of the
/// server's reply when it carries one as text, else the bootstrap token.
pub open spec fn client_credential_text(reply: JsonView, token: Seq<char>) -> Seq<char> {
    match str_of(json_get(reply, "token"@)) {
        Some(t) => t,
        None => token,
    }
}

/// Picks the credential a worker uses after registering.
pub fn client_credential(reply: &Json, token: &str) -> (r: String)
    ensures
        r@ == client_credential_text(reply@, token@),
{
    match reply.get("token") {
        Some(v) => match v.as_str() {
            Some(t) => t.clone(),
            None => string_from(token),
        },
        None => string_from(token),
    }
}

/// The containers of a list reply: its `items` array, or none.
pub fn list_items(body: &Json) -> (r: Vec<Json>)
    ensures
        items_view(r@) == match array_of(crate::json::json_get(body@, "items"@)) {
            Some(a) => a,
            None => Seq::empty(),
        },
{
    let mut out: Vec<Json> = Vec::new();
    match body.get("items") {
        Some(v) => match v.as_array() {
            Some(a) => {
                let mut i: usize = 0;
                while i < a.len()
                    invariant
                        0 <= i <= a@.len(),
                        out@.len() == i,
                        forall|k: int| 0 <= k < i ==> (#[trigger] out@[k])@ == a@[k]@,
                    decreases a@.len() - i,
                {
                    out.push(a[i].deep_clone());
                    i += 1;
                }
                assert(items_view(out@) =~= items_view(a@));
            },
            None => {
                assert(items_view(out@) =~= Seq::<JsonView>::empty());
            },
        },
        None => {
            assert(items_view(out@) =~= Seq::<JsonView>::empty());
        },
    }
    out
}

/// The URL listing the containers assigned to `node`.
pub fn assigned_url(base: &str, node: &str) -> (r: String)
    ensures
        r@ == base@ + "/api/v1/containers?fieldSelector=spec.nodeName="@ + node@,
{
    let mut u = string_from(base);
    push_str(&mut u, "/api/v1/containers?fieldSelector=spec.nodeName=");
    push_str(&mut u, node);
    u
}

/// The URL of one container.
pub fn container_url(base: &str, name: &str) -> (r: String)
    ensures
        r@ == base@ + "/api/v1/containers/"@ + name@,
{
    let mut u = string_from(base);
    push_str(&mut u, "/api/v1/containers/");
    push_str(&mut u, name);
    u
}

/// The URL of one container's status.
pub fn status_url(base: &str, name: &str) -> (r: String)
    ensures
        r@ == base@ + "/api/v1/containers/"@ + name@ + "/status"@,
{
    let mut u = container_url(base, name);
    push_str(&mut u, "/status");
    u
}

/// The URL of a worker's lease, or of the lease collection when `node` is
/// `None`.
pub fn lease_url(base: &str, node: Option<&str>) -> (r: String)
    ensures
        r@ == match node {
            Some(n) => base@ + "/api/v1/leases/"@ + n@,
            None => base@ + "/api/v1/leases"@,
        },
{
    let mut u = string_from(base);
    match node {
        Some(n) => {
            push_str(&mut u, "/api/v1/leases/");
            push_str(&mut u, n);
        },
        None => push_str(&mut u, "/api/v1/leases"),
    }
    u
}

// ---------------------------------------------------------------------------
// Carrying out actions
// ---------------------------------------------------------------------------

/// One call the worker makes to carry out an action.
#[derive(Debug)]
pub enum Step {
    /// Launch an instance.
    Run(RunSpec),
    /// Stop the instance with this uid.
    Stop(String),
    /// Remove the instance with this uid.
    Remove(String),
    /// Report the container `Running`: with the id of the instance the step
    /// before launched when `launched`, else with an empty id.
    ReportRunning { name: String, launched: bool },
    /// Report the container's terminal phase and exit code.
    ReportTerminal { name: String, phase: String, exit_code: i32 },
    /// Release this worker's finalizer from the container.
    ClearFinalizer(String),
}

/// The value of a step.
pub enum StepView {
    Run(crate::runtime::RunSpecView),
    Stop(Seq<char>),
    Remove(Seq<char>),
    ReportRunning { name: Seq<char>, launched: bool },
    ReportTerminal { name: Seq<char>, phase: Seq<char>, exit_code: i32 },
    ClearFinalizer(Seq<char>),
}

impl View for Step {
    type V = StepView;

    open spec fn view(&self) -> StepView {
        match self {
            Step::Run(spec) => StepView::Run(spec@),
            Step::Stop(uid) => StepView::Stop(uid@),
            Step::Remove(uid) => StepView::Remove(uid@),
            Step::ReportRunning { name, launched } => StepView::ReportRunning { name: name@, launched: *launched },
            Step::ReportTerminal { name, phase, exit_code } => StepView::ReportTerminal {
                name: name@,
                phase: phase@,
                exit_code: *exit_code,
            },
            Step::ClearFinalizer(name) => StepView::ClearFinalizer(name@),
        }
    }
}

/// The values of a list of steps.
pub open spec fn steps_view(steps: Seq<Step>) -> Seq<StepView> {
    steps.map_values(|s: Step| s@)
}

/// The calls that carry out an action, in order: a start launches and
/// reports `Running`; a restart removes the old instance first; a cleanup
/// stops and removes the instance, then releases the finalizer when asked;
/// a reap stops and removes the orphan.
pub open spec fn steps_of(a: ActionView) -> Seq<StepView> {
    match a {
        ActionView::Start { name, spec } => seq![
            StepView::Run(spec),
            StepView::ReportRunning { name, launched: true },
        ],
        ActionView::Restart { name, uid, spec } => seq![
            StepView::Remove(uid),
            StepView::Run(spec),
            StepView::ReportRunning { name, launched: true },
        ],
        ActionView::ReportRunning { name } => seq![StepView::ReportRunning { name, launched: false }],
        ActionView::ReportTerminal { name, phase, exit_code } => seq![
            StepView::ReportTerminal { name, phase, exit_code },
        ],
        ActionView::Cleanup { name, uid, clear_finalizer } => seq![StepView::Stop(uid), StepView::Remove(uid)]
            + if clear_finalizer {
            seq![StepView::ClearFinalizer(name)]
        } else {
            Seq::empty()
        },
        ActionView::ClearFinalizer { name } => seq![StepView::ClearFinalizer(name)],
        ActionView::Reap { uid } => seq![StepView::Stop(uid), StepView::Remove(uid)],
    }
}

/// The calls that carry out an action.
pub fn action_steps(action: Action) -> (r: Vec<Step>)
    ensures
        steps_view(r@) == steps_of(action@),
{
    let ghost av = action@;
    let mut out: Vec<Step> = Vec::new();
    match action {
        Action::Start { name, spec } => {
            out.push(Step::Run(spec));
            out.push(Step::ReportRunning { name, launched: true });
        },
        Action::Restart { name, uid, spec } => {
            out.push(Step::Remove(uid));
            out.push(Step::Run(spec));
            out.push(Step::ReportRunning { name, launched: true });
        },
        Action::ReportRunning { name } => {
            out.push(Step::ReportRunning { name, launched: false });
        },
        Action::ReportTerminal { name, phase, exit_code } => {
            out.push(Step::ReportTerminal { name, phase, exit_code });
        },
        Action::Cleanup { name, uid, clear_finalizer } => {
            let again = uid.clone();
            out.push(Step::Stop(uid));
            out.push(Step::Remove(again));
            if clear_finalizer {
                out.push(Step::ClearFinalizer(name));
            }
        },
        Action::ClearFinalizer { name } => {
            out.push(Step::ClearFinalizer(name));
        },
        Action::Reap { uid } => {
            let again = uid.clone();
            out.push(Step::Stop(uid));
            out.push(Step::Remove(again));
        },
    }
    assert(steps_view(out@) =~= steps_of(av));
    out
}

proof fn lemma_other_finalizers(a: Seq<JsonView>)
    ensures
        !other_finalizers(a).contains(JsonView::Str(FINALIZER@)),
        forall|x: JsonView| x != JsonView::Str(FINALIZER@) ==> (a.contains(x) <==> #[trigger] other_finalizers(a).contains(x)),
    decreases a.len(),
{
    if a.len() > 0 {
        lemma_other_finalizers(a.drop_last());
        let prev = other_finalizers(a.drop_last());
        let tail = if a.last() == JsonView::Str(FINALIZER@) {
            Seq::<JsonView>::empty()
        } else {
            seq![a.last()]
        };
        assert(other_finalizers(a) == prev + tail);
        assert forall|x: JsonView| #![auto] (prev + tail).contains(x) <==> (prev.contains(x) || tail.contains(x)) by {
            if (prev + tail).contains(x) {
                let i = choose|i: int| 0 <= i < (prev + tail).len() && (prev + tail)[i] == x;
                if i < prev.len() {
                    assert(prev[i] == x);
                } else {
                    assert(tail[i - prev.len()] == x);
                }
            }
            if prev.contains(x) {
                let i = choose|i: int| 0 <= i < prev.len() && prev[i] == x;
                assert((prev + tail)[i] == x);
            }
            if tail.contains(x) {
                assert((prev + tail)[prev.len() as int] == x);
            }
        }
        assert forall|x: JsonView| #![auto] a.contains(x) <==> (a.drop_last().contains(x) || a.last() == x) by {
            if a.contains(x) {
                let i = choose|i: int| 0 <= i < a.len() && a[i] == x;
                if i < a.len() - 1 {
                    assert(a.drop_last()[i] == x);
                }
            }
            if a.drop_last().contains(x) {
                let i = choose|i: int| 0 <= i < a.drop_last().len() && a.drop_last()[i] == x;
                assert(a[i] == x);
            }
            if a.last() == x {
                assert(a[a.len() - 1] == x);
            }
        }
        if tail.contains(JsonView::Str(FINALIZER@)) {
            assert(tail[0] == JsonView::Str(FINALIZER@));
        }
        assert forall|x: JsonView| x != JsonView::Str(FINALIZER@) implies (a.contains(x) <==> #[trigger] other_finalizers(a).contains(x)) by {
            assert(a.drop_last().contains(x) <==> prev.contains(x));
            if a.last() == x {
                assert(tail[0] == x);
            }
            if tail.contains(x) {
                assert(tail[0] == x);
            }
        }
    }
}

/// Releasing its finalizer removes this worker's finalizer from a container
/// whose `metadata` is an object, and keeps every other finalizer.
pub proof fn law_release_drops_only_own_finalizer(doc: JsonView)
    requires
        crate::json::json_get(doc, "metadata"@) matches Some(JsonView::Object(_)),
    ensures
        !holds_finalizer(released_doc(doc)),
        forall|x: JsonView| x != JsonView::Str(FINALIZER@) ==> ((match array_of(get2(doc, "metadata"@, "finalizers"@)) {
            Some(a) => a.contains(x),
            None => false,
        }) <==> #[trigger] array_of(get2(released_doc(doc), "metadata"@, "finalizers"@)).unwrap().contains(x)),
{
    let kept = match array_of(get2(doc, "metadata"@, "finalizers"@)) {
        Some(a) => other_finalizers(a),
        None => Seq::empty(),
    };
    let m = crate::json::json_get(doc, "metadata"@).unwrap();
    reveal_strlit("metadata");
    reveal_strlit("finalizers");
    crate::json::lemma_jset_get(m, "finalizers"@, JsonView::Array(kept), "finalizers"@);
    crate::json::lemma_jset_get(doc, "metadata"@, crate::json::jset(m, "finalizers"@, JsonView::Array(kept)), "metadata"@);
    assert(get2(released_doc(doc), "metadata"@, "finalizers"@) == Some(JsonView::Array(kept)));
    match array_of(get2(doc, "metadata"@, "finalizers"@)) {
        Some(a) => {
            lemma_other_finalizers(a);
        },
        None => {
            assert(!kept.contains(JsonView::Str(FINALIZER@)));
        },
    }
}

/// Reaping an orphan ends it: the steps that carry out a reap of instance
/// `uid` stop that instance and then remove it, and do nothing else; a
/// cleanup of a deleted container likewise starts by stopping and then
/// removing its instance.
pub proof fn law_reap_stops_then_removes(a: ActionView)
    ensures
        a matches ActionView::Reap { uid } ==> {
            &&& steps_of(a).len() == 2
            &&& steps_of(a)[0] == StepView::Stop(uid)
            &&& steps_of(a)[1] == StepView::Remove(uid)
        },
        a matches ActionView::Cleanup { uid, .. } ==> {
            &&& steps_of(a).len() >= 2
            &&& steps_of(a)[0] == StepView::Stop(uid)
            &&& steps_of(a)[1] == StepView::Remove(uid)
        },
{
}

} // verus!
