use velos::runtime::{
    find_tagged, instance_args, list_args, parse_ls, run_args, AppleContainer, ContainerRuntime, FakeRuntime,
    Instance, InstanceId, InstanceState, RunSpec, RuntimeError,
};

fn spec(uid: &str) -> RunSpec {
    RunSpec { uid: uid.to_string(), image: "alpine".to_string(), command: vec![], env: vec![] }
}

#[test]
fn fake_runtime_run_list_exit_remove() {
    let mut rt = FakeRuntime::new();
    rt.run(&spec("u1")).unwrap();
    let list = rt.list().unwrap();
    assert_eq!(list.len(), 1);
    assert_eq!(list[0].state, InstanceState::Running);

    rt.set_exited("u1", 3).unwrap();
    let list = rt.list().unwrap();
    assert_eq!(list[0].state, InstanceState::Exited { exit_code: 3 });

    rt.remove("u1").unwrap();
    assert!(rt.list().unwrap().is_empty());
}

#[test]
fn parse_ls_filters_to_velos_instances() {
    let raw = r#"[
        {"id":"abc","status":"running","labels":{"velos.uid":"u1"}},
        {"id":"def","status":"stopped","labels":{"velos.uid":"u2"},"exitCode":2},
        {"id":"ghi","status":"running","labels":{"other":"x"}}
    ]"#;
    let mut got = parse_ls(raw).unwrap();
    got.sort_by(|a, b| a.uid.cmp(&b.uid));
    assert_eq!(got.len(), 2);
    assert_eq!(got[0].uid, "u1");
    assert_eq!(got[0].state, InstanceState::Running);
    assert_eq!(got[1].state, InstanceState::Exited { exit_code: 2 });
}

#[test]
fn parse_ls_defaults_and_errors() {
    assert!(parse_ls("").unwrap().is_empty());
    assert!(matches!(parse_ls("not json"), Err(RuntimeError::Command(_))));
    assert!(parse_ls("{}").unwrap().is_empty());
    let got = parse_ls(r#"[{"labels":{"velos.uid":"u9"}}]"#).unwrap();
    assert_eq!(got, vec![Instance { uid: "u9".into(), id: InstanceId("u9".into()), state: InstanceState::Exited { exit_code: 0 } }]);
}

#[test]
fn fake_runtime_ids_versions_and_replacement() {
    let mut rt = FakeRuntime::new();
    assert_eq!(rt.run(&spec("a")).unwrap(), InstanceId("fake-a".to_string()));
    rt.run(&spec("b")).unwrap();
    rt.stop("a").unwrap();
    rt.run(&spec("a")).unwrap();
    let list = rt.list().unwrap();
    assert_eq!(list.len(), 2);
    assert!(list.iter().all(|i| i.state == InstanceState::Running));
    rt.stop("missing").unwrap();
    rt.remove("missing").unwrap();
    assert_eq!(rt.list().unwrap().len(), 2);
    assert_eq!(rt.version().unwrap(), "fake-runtime/1.0");
    assert_eq!(ContainerRuntime::version(&rt).unwrap(), "fake-runtime/1.0");
}

#[test]
fn container_cli_arguments() {
    let mut s = spec("u1");
    s.env = vec![("A".into(), "1".into()), ("B".into(), "x=y".into())];
    s.command = vec!["sleep".into(), "5".into()];
    assert_eq!(
        run_args(&s),
        vec!["run", "--detach", "--label", "velos.uid=u1", "--env", "A=1", "--env", "B=x=y", "alpine", "sleep", "5"]
    );
    assert_eq!(instance_args("stop", "abc"), vec!["stop", "abc"]);
    assert_eq!(list_args(), vec!["ls", "--all", "--format", "json"]);
    assert_eq!(AppleContainer::new().binary(), "container");
    assert_eq!(AppleContainer::with_binary("/opt/c").binary(), "/opt/c");
}

#[test]
fn uid_resolves_to_the_first_tagged_instance() {
    let list = vec![
        Instance { uid: "u1".into(), id: InstanceId("a".into()), state: InstanceState::Running },
        Instance { uid: "u1".into(), id: InstanceId("b".into()), state: InstanceState::Running },
    ];
    assert_eq!(find_tagged(&list, "u1").unwrap().id, InstanceId("a".into()));
    assert!(find_tagged(&list, "u2").is_none());
}
