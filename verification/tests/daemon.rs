use velos::daemon::{
    default_heartbeat_secs, default_lease_secs, default_reconcile_secs, render_info_plist, render_launch_agent,
    resolve_run_config, xml_escape, MissingSetting, RunFlags, WorkerConfig,
};
use velos::memory::Memory;

#[test]
fn launch_agent_carries_associated_bundle_id_and_args() {
    let args = vec![
        "/Applications/Velos.app/Contents/MacOS/veloslet".to_string(),
        "run".to_string(),
        "--config".to_string(),
        "/home/u/.velos/veloslet.json".to_string(),
    ];
    let plist = render_launch_agent(&args, "/usr/local/bin:/usr/bin:/bin", "/o.log", "/e.log");
    assert!(plist.contains("<key>AssociatedBundleIdentifiers</key>"));
    assert!(plist.contains("<string>com.velos.veloslet</string>"));
    assert!(plist.contains("<string>run</string>"));
    assert!(plist.contains("<string>/home/u/.velos/veloslet.json</string>"));
}

#[test]
fn info_plist_declares_identity_and_local_network_usage() {
    let info = render_info_plist("0.1.1");
    assert!(info.contains("<key>CFBundleIdentifier</key><string>com.velos.veloslet</string>"));
    assert!(info.contains("<key>NSLocalNetworkUsageDescription</key>"));
}

#[test]
fn xml_escape_neutralizes_markup() {
    assert_eq!(xml_escape("a&b<c>"), "a&amp;b&lt;c&gt;");
}

#[test]
fn escaping_is_per_character_and_not_repeated() {
    assert_eq!(xml_escape(""), "");
    assert_eq!(xml_escape("&amp;"), "&amp;amp;");
    assert_eq!(xml_escape("\"quoted\" 'x'"), "\"quoted\" 'x'");
}

#[test]
fn info_plist_escapes_the_version_twice() {
    let info = render_info_plist("1<2");
    assert!(info.contains("<key>CFBundleVersion</key><string>1&lt;2</string>"));
    assert!(info.contains("<key>CFBundleShortVersionString</key><string>1&lt;2</string>"));
    assert!(info.starts_with("<?xml version=\"1.0\" encoding=\"UTF-8\"?>\n"));
    assert!(info.ends_with("</plist>\n"));
}

#[test]
fn launch_agent_joins_arguments_with_newlines_and_escapes_paths() {
    let args = vec!["a&b".to_string(), "c".to_string()];
    let plist = render_launch_agent(&args, "/p&q", "/o<.log", "/e>.log");
    assert!(plist.contains("        <string>a&amp;b</string>\n        <string>c</string>\n    </array>"));
    assert!(plist.contains("<string>/p&amp;q</string>"));
    assert!(plist.contains("<string>/o&lt;.log</string>"));
    assert!(plist.contains("<string>/e&gt;.log</string>"));
    let none = render_launch_agent(&[], "", "", "");
    assert!(none.contains("<key>ProgramArguments</key>\n    <array>\n\n    </array>"));
}

#[test]
fn interval_defaults() {
    assert_eq!(default_reconcile_secs(), 5);
    assert_eq!(default_heartbeat_secs(), 10);
    assert_eq!(default_lease_secs(), 40);
    let cfg = WorkerConfig {
        server: "http://h:1".to_string(),
        node: "n".to_string(),
        token: "t".to_string(),
        cpu: 4,
        memory: Memory::from_bytes(8 * 1024 * 1024 * 1024),
        reconcile_secs: default_reconcile_secs(),
        heartbeat_secs: default_heartbeat_secs(),
        lease_secs: default_lease_secs(),
    };
    assert_eq!(cfg.clone(), cfg);
}

fn no_flags() -> RunFlags {
    RunFlags {
        server: None,
        node: None,
        token: None,
        cpu: None,
        memory: None,
        reconcile_secs: None,
        heartbeat_secs: None,
        lease_secs: None,
    }
}

#[test]
fn flags_alone_need_every_required_setting() {
    let mut flags = no_flags();
    assert_eq!(resolve_run_config(None, &flags), Err(MissingSetting::Server));
    flags.server = Some("http://h:1".to_string());
    flags.node = Some("n".to_string());
    assert_eq!(resolve_run_config(None, &flags), Err(MissingSetting::Token));
    flags.token = Some("id.s".to_string());
    flags.cpu = Some(2);
    assert_eq!(resolve_run_config(None, &flags), Err(MissingSetting::Memory));
    assert_eq!(MissingSetting::Memory.message(), "--memory is required when --config is not given");
    flags.memory = Some(Memory::from_bytes(1024));
    flags.lease_secs = Some(60);
    let cfg = resolve_run_config(None, &flags).unwrap();
    assert_eq!((cfg.cpu, cfg.memory.bytes(), cfg.reconcile_secs, cfg.heartbeat_secs, cfg.lease_secs), (2, 1024, 5, 10, 60));
}

#[test]
fn flags_override_the_file() {
    let file = WorkerConfig {
        server: "http://file".to_string(),
        node: "n".to_string(),
        token: "t".to_string(),
        cpu: 4,
        memory: Memory::from_bytes(1 << 30),
        reconcile_secs: 7,
        heartbeat_secs: 8,
        lease_secs: 9,
    };
    let mut flags = no_flags();
    flags.server = Some("http://flag".to_string());
    flags.cpu = Some(1);
    let cfg = resolve_run_config(Some(file.clone()), &flags).unwrap();
    assert_eq!(cfg.server, "http://flag");
    assert_eq!(cfg.cpu, 1);
    assert_eq!((cfg.node.as_str(), cfg.memory, cfg.reconcile_secs, cfg.lease_secs), ("n", file.memory, 7, 9));
    assert_eq!(resolve_run_config(Some(file.clone()), &no_flags()).unwrap(), file);
}
