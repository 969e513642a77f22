use velos::json::Json;
use velos::reconcile::{Action, RestartPolicy};
use velos::runtime::{Instance, InstanceId, InstanceState, RunSpec};
use velos::memory::Memory;
use velos::worker::{
    action_steps, client_credential, registration_request, assigned_url, container_url, desired_from_doc, has_worker_finalizer, lease_document, lease_url,
    list_items, plan_pass, release_finalizer, running_status, status_url, terminal_status, Step, FINALIZER,
};

fn s(x: &str) -> Json {
    Json::Str(x.to_string())
}

fn obj(members: Vec<(&str, Json)>) -> Json {
    Json::Object(members.into_iter().map(|(k, v)| (k.to_string(), v)).collect())
}

fn text<'a>(doc: &'a Json, path: &[&str]) -> Option<&'a str> {
    doc.get_path(path).and_then(|v| v.as_str()).map(|v| v.as_str())
}

fn container_doc() -> Json {
    obj(vec![
        (
            "metadata",
            obj(vec![
                ("name", s("c1")),
                ("uid", s("u1")),
                ("finalizers", Json::Array(vec![s("other"), s("veloslet")])),
            ]),
        ),
        (
            "spec",
            obj(vec![
                ("image", s("alpine")),
                ("command", Json::Array(vec![s("sleep"), Json::UInt(5), s("10")])),
                ("env", obj(vec![("A", s("1")), ("B", Json::Bool(true))])),
                ("restartPolicy", s("OnFailure")),
            ]),
        ),
    ])
}

#[test]
fn assigned_documents_read_as_desired_containers() {
    let d = desired_from_doc(&container_doc()).unwrap();
    assert_eq!(d.name, "c1");
    assert_eq!(d.uid, "u1");
    assert_eq!(d.image, "alpine");
    assert_eq!(d.command, vec!["sleep".to_string(), "10".to_string()]);
    assert_eq!(d.env, vec![("A".to_string(), "1".to_string())]);
    assert_eq!(d.restart_policy, RestartPolicy::OnFailure);
    assert_eq!(d.phase, "Pending");
    assert!(!d.marked_for_deletion);
    assert!(d.has_finalizer);

    let minimal = obj(vec![("metadata", obj(vec![("name", s("c2")), ("uid", s("u2"))]))]);
    let d = desired_from_doc(&minimal).unwrap();
    assert_eq!(d.image, "");
    assert_eq!(d.restart_policy, RestartPolicy::Never);
    assert!(!d.has_finalizer);
    assert!(desired_from_doc(&obj(vec![("metadata", obj(vec![("name", s("c3"))]))])).is_none());
}

#[test]
fn a_pass_starts_new_containers_and_reaps_orphans() {
    let assigned = vec![container_doc(), Json::Null];
    let instances = vec![Instance { uid: "ghost".into(), id: InstanceId("g".into()), state: InstanceState::Running }];
    let actions = plan_pass(&assigned, &instances);
    assert_eq!(actions.len(), 2);
    assert!(matches!(&actions[0], Action::Start { name, .. } if name == "c1"));
    assert_eq!(actions[1], Action::Reap { uid: "ghost".to_string() });
}

#[test]
fn actions_become_runtime_and_server_steps() {
    let spec = RunSpec { uid: "u1".into(), image: "img".into(), command: vec![], env: vec![] };
    let steps = action_steps(Action::Restart { name: "c1".into(), uid: "u1".into(), spec: spec.clone() });
    assert_eq!(steps.len(), 3);
    assert!(matches!(&steps[0], Step::Remove(u) if u == "u1"));
    assert!(matches!(&steps[1], Step::Run(s) if *s == spec));
    assert!(matches!(&steps[2], Step::ReportRunning { name, launched: true } if name == "c1"));
    let steps = action_steps(Action::Cleanup { name: "c1".into(), uid: "u1".into(), clear_finalizer: false });
    assert_eq!(steps.len(), 2);
    assert!(matches!(&steps[0], Step::Stop(u) if u == "u1"));
    let steps = action_steps(Action::Cleanup { name: "c1".into(), uid: "u1".into(), clear_finalizer: true });
    assert!(matches!(&steps[2], Step::ClearFinalizer(n) if n == "c1"));
    let steps = action_steps(Action::ReportRunning { name: "c1".into() });
    assert!(matches!(&steps[0], Step::ReportRunning { launched: false, .. }));
}

#[test]
fn releasing_the_finalizer_keeps_the_others() {
    let mut doc = container_doc();
    assert!(has_worker_finalizer(&doc));
    release_finalizer(&mut doc);
    assert!(!has_worker_finalizer(&doc));
    let fins = doc.get_path(&["metadata", "finalizers"]).unwrap().as_array().unwrap();
    assert_eq!(fins.len(), 1);
    assert_eq!(fins[0].as_str().unwrap(), "other");
    let mut none = obj(vec![("metadata", obj(vec![]))]);
    release_finalizer(&mut none);
    assert_eq!(none.get_path(&["metadata", "finalizers"]).unwrap().as_array().unwrap().len(), 0);
    assert_eq!(FINALIZER, "veloslet");
}

#[test]
fn status_and_lease_documents() {
    let r = running_status("w1", "abc", "t0");
    assert_eq!(text(&r, &["phase"]), Some("Running"));
    assert_eq!(text(&r, &["workerName"]), Some("w1"));
    assert_eq!(text(&r, &["containerID"]), Some("abc"));
    assert_eq!(text(&r, &["startedAt"]), Some("t0"));
    let t = terminal_status("w1", "Failed", -2, "t1");
    assert_eq!(t.get("exitCode").unwrap().as_i64(), Some(-2));
    assert_eq!(text(&t, &["finishedAt"]), Some("t1"));
    let l = lease_document("w1", "t2", 40);
    assert_eq!(text(&l, &["metadata", "name"]), Some("w1"));
    assert_eq!(text(&l, &["spec", "holderIdentity"]), Some("w1"));
    assert_eq!(l.get_path(&["spec", "leaseDurationSeconds"]).unwrap().as_u64(), Some(40));
}

#[test]
fn client_urls_and_list_replies() {
    assert_eq!(assigned_url("http://h", "w1"), "http://h/api/v1/containers?fieldSelector=spec.nodeName=w1");
    assert_eq!(container_url("http://h", "c1"), "http://h/api/v1/containers/c1");
    assert_eq!(status_url("http://h", "c1"), "http://h/api/v1/containers/c1/status");
    assert_eq!(lease_url("http://h", Some("w1")), "http://h/api/v1/leases/w1");
    assert_eq!(lease_url("http://h", None), "http://h/api/v1/leases");
    let reply = obj(vec![("items", Json::Array(vec![s("a"), s("b")]))]);
    assert_eq!(list_items(&reply).len(), 2);
    assert!(list_items(&Json::Null).is_empty());
}

#[test]
fn registration_request_carries_name_capacity_and_runtime_version() {
    let r = registration_request("w1", 4, Memory::from_bytes(8 * 1024 * 1024 * 1024), "0.7.1");
    assert_eq!(r.get("name").and_then(|v| v.as_str()).map(|v| v.as_str()), Some("w1"));
    let cap = r.get("capacity").unwrap();
    assert_eq!(cap.get("cpu").and_then(|v| v.as_u64()), Some(4));
    assert_eq!(cap.get("memoryBytes").and_then(|v| v.as_u64()), Some(8 * 1024 * 1024 * 1024));
    assert!(matches!(r.get("addresses"), Some(Json::Array(items)) if items.is_empty()));
    assert_eq!(
        r.get("containerRuntimeVersion").and_then(|v| v.as_str()).map(|v| v.as_str()),
        Some("0.7.1")
    );
}

#[test]
fn the_issued_credential_replaces_the_bootstrap_token() {
    let reply = Json::Object(vec![
        ("workerName".to_string(), s("w1")),
        ("token".to_string(), s("w1.abc")),
    ]);
    assert_eq!(client_credential(&reply, "tok.secret"), "w1.abc");
    let bare = Json::Object(vec![("workerName".to_string(), s("w1"))]);
    assert_eq!(client_credential(&bare, "tok.secret"), "tok.secret");
    let odd = Json::Object(vec![("token".to_string(), Json::UInt(7))]);
    assert_eq!(client_credential(&odd, "tok.secret"), "tok.secret");
}
