//! The files that install the worker as a login agent: the app bundle's
//! `Info.plist`, which gives the worker a stable identity and the text shown
//! when it asks for local-network access, and the agent's own plist; plus
//! the worker's persisted configuration.

use vstd::prelude::*;
use crate::memory::Memory;
use crate::text::{chars_of, push_char, push_str, string_from};

verus! {

/// The agent label and the app bundle's identifier.
pub const BUNDLE_ID: &'static str = "com.velos.veloslet";

/// The bundle name shown in the local-network privacy prompt.
pub const BUNDLE_DISPLAY_NAME: &'static str = "Velos Worker";

/// The executable's name inside the bundle.
pub const BUNDLE_EXECUTABLE: &'static str = "veloslet";

/// A fixed part of the `Info.plist` text.
pub const INFO_HEAD: &'static str = "<?xml version=\"1.0\" encoding=\"UTF-8\"?>\n<!DOCTYPE plist PUBLIC \"-//Apple//DTD PLIST 1.0//EN\" \"http://www.apple.com/DTDs/PropertyList-1.0.dtd\">\n<plist version=\"1.0\">\n<dict>\n    <key>CFBundleName</key><string>Velos</string>\n    <key>CFBundleDisplayName</key><string>";

/// A fixed part of the `Info.plist` text.
pub const INFO_AFTER_NAME: &'static str = "</string>\n    <key>CFBundleIdentifier</key><string>";

/// A fixed part of the `Info.plist` text.
pub const INFO_AFTER_ID: &'static str = "</string>\n    <key>CFBundleExecutable</key><string>";

/// A fixed part of the `Info.plist` text.
pub const INFO_AFTER_EXE: &'static str = "</string>\n    <key>CFBundlePackageType</key><string>APPL</string>\n    <key>CFBundleInfoDictionaryVersion</key><string>6.0</string>\n    <key>CFBundleVersion</key><string>";

/// A fixed part of the `Info.plist` text.
pub const INFO_AFTER_VERSION: &'static str = "</string>\n    <key>CFBundleShortVersionString</key><string>";

/// A fixed part of the `Info.plist` text.
pub const INFO_TAIL: &'static str = "</string>\n    <key>LSBackgroundOnly</key><true/>\n    <key>NSLocalNetworkUsageDescription</key>\n    <string>Velos Worker connects to the Velos control-plane server on your local network to register this machine and reconcile containers.</string>\n</dict>\n</plist>\n";

/// A fixed part of the agent plist text.
pub const AGENT_HEAD: &'static str = "<?xml version=\"1.0\" encoding=\"UTF-8\"?>\n<!DOCTYPE plist PUBLIC \"-//Apple//DTD PLIST 1.0//EN\" \"http://www.apple.com/DTDs/PropertyList-1.0.dtd\">\n<plist version=\"1.0\">\n<dict>\n    <key>Label</key>\n    <string>";

/// A fixed part of the agent plist text.
pub const AGENT_AFTER_LABEL: &'static str = "</string>\n\n    <!-- Tell macOS which signed bundle is responsible for this agent's network\n         access so Local Network Privacy can attribute (and prompt for) the\n         connection instead of silently denying it. (Apple TN3179) -->\n    <key>AssociatedBundleIdentifiers</key>\n    <array>\n        <string>";

/// A fixed part of the agent plist text.
pub const AGENT_AFTER_BUNDLE: &'static str = "</string>\n    </array>\n\n    <key>ProgramArguments</key>\n    <array>\n";

/// A fixed part of the agent plist text.
pub const AGENT_AFTER_ARGS: &'static str = "\n    </array>\n\n    <!-- launchd's default PATH is minimal; add /usr/local/bin so the Apple\n         `container` CLI is discoverable by the runtime. -->\n    <key>EnvironmentVariables</key>\n    <dict>\n        <key>PATH</key>\n        <string>";

/// A fixed part of the agent plist text.
pub const AGENT_AFTER_PATH: &'static str = "</string>\n        <key>RUST_LOG</key>\n        <string>info</string>\n    </dict>\n\n    <key>RunAtLoad</key>\n    <true/>\n    <key>KeepAlive</key>\n    <true/>\n\n    <key>StandardOutPath</key>\n    <string>";

/// A fixed part of the agent plist text.
pub const AGENT_AFTER_STDOUT: &'static str = "</string>\n    <key>StandardErrorPath</key>\n    <string>";

/// A fixed part of the agent plist text.
pub const AGENT_TAIL: &'static str = "</string>\n</dict>\n</plist>\n";

/// Seconds between reconcile passes when the configuration names none.
pub fn default_reconcile_secs() -> (r: u64)
    ensures
        r == 5,
{
    5
}

/// Seconds between heartbeats when the configuration names none.
pub fn default_heartbeat_secs() -> (r: u64)
    ensures
        r == 10,
{
    10
}

/// Lease length in seconds when the configuration names none.
pub fn default_lease_secs() -> (r: u32)
    ensures
        r == 40,
{
    40
}

/// The worker's persisted configuration. The bootstrap token lives here, not
/// on the agent's command line, so it never shows in the process table.
#[derive(Debug, Clone, PartialEq, Eq)]
pub struct WorkerConfig {
    /// Server base URL.
    pub server: String,
    /// This worker's name.
    pub node: String,
    /// Bootstrap token (`id.secret`) presented when registering.
    pub token: String,
    /// Advertised cores; checked against the host at startup.
    pub cpu: u32,
    /// Advertised memory; checked against the host at startup.
    pub memory: Memory,
    pub reconcile_secs: u64,
    pub heartbeat_secs: u64,
    pub lease_secs: u32,
}

/// The escaped form of one character: `&`, `<` and `>` become entities.
pub open spec fn escaped_char(c: char) -> Seq<char> {
    if c == '&' {
        seq!['&', 'a', 'm', 'p', ';']
    } else if c == '<' {
        seq!['&', 'l', 't', ';']
    } else if c == '>' {
        seq!['&', 'g', 't', ';']
    } else {
        seq![c]
    }
}

/// XML text escaping, character by character.
pub open spec fn xml_escaped(s: Seq<char>) -> Seq<char>
    decreases s.len(),
{
    if s.len() == 0 {
        Seq::empty()
    } else {
        xml_escaped(s.drop_last()) + escaped_char(s.last())
    }
}

/// Escapes text for a plist `<string>` value: `&`, `<` and `>`.
pub fn xml_escape(s: &str) -> (r: String)
    ensures
        r@ == xml_escaped(s@),
{
    let v = chars_of(s);
    let mut out = String::new();
    let mut i: usize = 0;
    while i < v.len()
        invariant
            v@ == s@,
            0 <= i <= v@.len(),
            out@ == xml_escaped(v@.take(i as int)),
        decreases v@.len() - i,
    {
        let c = v[i];
        let ghost before = out@;
        if c == '&' {
            push_char(&mut out, '&');
            push_char(&mut out, 'a');
            push_char(&mut out, 'm');
            push_char(&mut out, 'p');
            push_char(&mut out, ';');
        } else if c == '<' {
            push_char(&mut out, '&');
            push_char(&mut out, 'l');
            push_char(&mut out, 't');
            push_char(&mut out, ';');
        } else if c == '>' {
            push_char(&mut out, '&');
            push_char(&mut out, 'g');
            push_char(&mut out, 't');
            push_char(&mut out, ';');
        } else {
            push_char(&mut out, c);
        }
        assert(out@ =~= before + escaped_char(c));
        assert(v@.take(i as int + 1).drop_last() =~= v@.take(i as int));
        i += 1;
    }
    assert(v@.take(v@.len() as int) =~= v@);
    out
}

/// Appends the escaped form of `t`.
fn push_escaped(out: &mut String, t: &str)
    ensures
        final(out)@ == old(out)@ + xml_escaped(t@),
{
    let e = xml_escape(t);
    push_str(out, e.as_str());
}

/// The app bundle's `Info.plist` for a version.
pub open spec fn info_plist_text(version: Seq<char>) -> Seq<char> {
    INFO_HEAD@ + xml_escaped(BUNDLE_DISPLAY_NAME@) + INFO_AFTER_NAME@ + xml_escaped(BUNDLE_ID@)
        + INFO_AFTER_ID@ + xml_escaped(BUNDLE_EXECUTABLE@) + INFO_AFTER_EXE@ + xml_escaped(version)
        + INFO_AFTER_VERSION@ + xml_escaped(version) + INFO_TAIL@
}

/// Renders the app bundle's `Info.plist`: the bundle's identity, the version
/// (escaped) and the local-network usage text.
pub fn render_info_plist(version: &str) -> (r: String)
    ensures
        r@ == info_plist_text(version@),
{
    let mut out = String::new();
    push_str(&mut out, INFO_HEAD);
    push_escaped(&mut out, BUNDLE_DISPLAY_NAME);
    push_str(&mut out, INFO_AFTER_NAME);
    push_escaped(&mut out, BUNDLE_ID);
    push_str(&mut out, INFO_AFTER_ID);
    push_escaped(&mut out, BUNDLE_EXECUTABLE);
    push_str(&mut out, INFO_AFTER_EXE);
    push_escaped(&mut out, version);
    push_str(&mut out, INFO_AFTER_VERSION);
    push_escaped(&mut out, version);
    push_str(&mut out, INFO_TAIL);
    out
}

/// One program argument as a plist array line.
pub open spec fn argument_line(a: Seq<char>) -> Seq<char> {
    seq![' ', ' ', ' ', ' ', ' ', ' ', ' ', ' ', '<', 's', 't', 'r', 'i', 'n', 'g', '>'] + xml_escaped(a)
        + seq!['<', '/', 's', 't', 'r', 'i', 'n', 'g', '>']
}

/// The argument lines, joined by newlines.
pub open spec fn argument_lines(args: Seq<Seq<char>>) -> Seq<char>
    decreases args.len(),
{
    if args.len() == 0 {
        Seq::empty()
    } else if args.len() == 1 {
        argument_line(args[0])
    } else {
        argument_lines(args.drop_last()) + seq!['\n'] + argument_line(args.last())
    }
}

/// The texts of a list of strings.
pub open spec fn texts(v: Seq<String>) -> Seq<Seq<char>> {
    v.map_values(|s: String| s@)
}

/// The agent plist for the given arguments, `PATH` and log files.
pub open spec fn launch_agent_text(
    args: Seq<Seq<char>>,
    path_env: Seq<char>,
    stdout_path: Seq<char>,
    stderr_path: Seq<char>,
) -> Seq<char> {
    AGENT_HEAD@ + xml_escaped(BUNDLE_ID@) + AGENT_AFTER_LABEL@ + xml_escaped(BUNDLE_ID@)
        + AGENT_AFTER_BUNDLE@ + argument_lines(args) + AGENT_AFTER_ARGS@ + xml_escaped(path_env)
        + AGENT_AFTER_PATH@ + xml_escaped(stdout_path) + AGENT_AFTER_STDOUT@
        + xml_escaped(stderr_path) + AGENT_TAIL@
}

fn push_argument_lines(out: &mut String, args: &[String])
    ensures
        final(out)@ == old(out)@ + argument_lines(texts(args@)),
{
    let ghost start = out@;
    let ghost ts = texts(args@);
    let mut i: usize = 0;
    while i < args.len()
        invariant
            ts == texts(args@),
            0 <= i <= args@.len(),
            out@ == start + argument_lines(ts.take(i as int)),
        decreases args@.len() - i,
    {
        let ghost before = out@;
        if i > 0 {
            push_char(out, '\n');
        }
        push_str(out, "        <string>");
        push_escaped(out, args[i].as_str());
        push_str(out, "</string>");
        proof {
            reveal_strlit("        <string>");
            reveal_strlit("</string>");
            let tk = ts.take(i as int + 1);
            assert(tk.drop_last() =~= ts.take(i as int));
            assert(tk.last() == args@[i as int]@);
            if i == 0 {
                assert(out@ =~= before + argument_line(tk[0]));
            } else {
                assert(out@ =~= before + seq!['\n'] + argument_line(tk.last()));
            }
        }
        i += 1;
    }
    assert(ts.take(args@.len() as int) =~= ts);
}

/// Renders the login agent's plist: its label, the bundle it belongs to, the
/// program arguments, `PATH`, and the log files, each escaped.
pub fn render_launch_agent(program_args: &[String], path_env: &str, stdout_path: &str, stderr_path: &str) -> (r: String)
    ensures
        r@ == launch_agent_text(texts(program_args@), path_env@, stdout_path@, stderr_path@),
{
    let mut out = String::new();
    push_str(&mut out, AGENT_HEAD);
    push_escaped(&mut out, BUNDLE_ID);
    push_str(&mut out, AGENT_AFTER_LABEL);
    push_escaped(&mut out, BUNDLE_ID);
    push_str(&mut out, AGENT_AFTER_BUNDLE);
    push_argument_lines(&mut out, program_args);
    push_str(&mut out, AGENT_AFTER_ARGS);
    push_escaped(&mut out, path_env);
    push_str(&mut out, AGENT_AFTER_PATH);
    push_escaped(&mut out, stdout_path);
    push_str(&mut out, AGENT_AFTER_STDOUT);
    push_escaped(&mut out, stderr_path);
    push_str(&mut out, AGENT_TAIL);
    out
}

/// Settings given on the command line, each overriding the configuration.
#[derive(Debug, Clone, PartialEq, Eq)]
pub struct RunFlags {
    pub server: Option<String>,
    pub node: Option<String>,
    pub token: Option<String>,
    pub cpu: Option<u32>,
    pub memory: Option<Memory>,
    pub reconcile_secs: Option<u64>,
    pub heartbeat_secs: Option<u64>,
    pub lease_secs: Option<u32>,
}

/// A setting that must be given on the command line when there is no
/// configuration file.
#[derive(Debug, Clone, Copy, PartialEq, Eq, Structural)]
pub enum MissingSetting {
    Server,
    Node,
    Token,
    Cpu,
    Memory,
}

/// The message of a missing setting.
pub open spec fn missing_message(m: MissingSetting) -> Seq<char> {
    match m {
        MissingSetting::Server => "--server is required when --config is not given"@,
        MissingSetting::Node => "--node is required when --config is not given"@,
        MissingSetting::Token => "--token is required when --config is not given"@,
        MissingSetting::Cpu => "--cpu is required when --config is not given"@,
        MissingSetting::Memory => "--memory is required when --config is not given"@,
    }
}

impl MissingSetting {
    /// The message telling which flag is required.
    pub fn message(&self) -> (r: String)
        ensures
            r@ == missing_message(*self),
    {
        match self {
            MissingSetting::Server => string_from("--server is required when --config is not given"),
            MissingSetting::Node => string_from("--node is required when --config is not given"),
            MissingSetting::Token => string_from("--token is required when --config is not given"),
            MissingSetting::Cpu => string_from("--cpu is required when --config is not given"),
            MissingSetting::Memory => string_from("--memory is required when --config is not given"),
        }
    }
}

/// The text of an optional string.
pub open spec fn opt_text(o: Option<String>) -> Option<Seq<char>> {
    match o {
        Some(s) => Some(s@),
        None => None,
    }
}

/// A value, or the override when one is given.
pub open spec fn overridden<A>(base: A, flag: Option<A>) -> A {
    match flag {
        Some(v) => v,
        None => base,
    }
}

/// Whether `cfg` is `base` with every given flag overriding its field.
pub open spec fn merged(cfg: WorkerConfig, base: WorkerConfig, flags: RunFlags) -> bool {
    &&& cfg.server@ == overridden(base.server@, opt_text(flags.server))
    &&& cfg.node@ == overridden(base.node@, opt_text(flags.node))
    &&& cfg.token@ == overridden(base.token@, opt_text(flags.token))
    &&& cfg.cpu == overridden(base.cpu, flags.cpu)
    &&& cfg.memory == overridden(base.memory, flags.memory)
    &&& cfg.reconcile_secs == overridden(base.reconcile_secs, flags.reconcile_secs)
    &&& cfg.heartbeat_secs == overridden(base.heartbeat_secs, flags.heartbeat_secs)
    &&& cfg.lease_secs == overridden(base.lease_secs, flags.lease_secs)
}

/// The first setting the command line lacks when there is no configuration
/// file, in the order server, node, token, cpu, memory.
pub open spec fn first_missing(flags: RunFlags) -> Option<MissingSetting> {
    if flags.server is None {
        Some(MissingSetting::Server)
    } else if flags.node is None {
        Some(MissingSetting::Node)
    } else if flags.token is None {
        Some(MissingSetting::Token)
    } else if flags.cpu is None {
        Some(MissingSetting::Cpu)
    } else if flags.memory is None {
        Some(MissingSetting::Memory)
    } else {
        None
    }
}

/// The configuration a worker runs with: the configuration file's when there
/// is one, else one made of the command line's settings (all of server,
/// node, token, cpu and memory required) with the default intervals; then
/// every setting given on the command line overrides.
pub fn resolve_run_config(file: Option<WorkerConfig>, flags: &RunFlags) -> (r: Result<WorkerConfig, MissingSetting>)
    ensures
        match file {
            Some(base) => r matches Ok(cfg) && merged(cfg, base, *flags),
            None => match first_missing(*flags) {
                Some(m) => r == Err::<WorkerConfig, MissingSetting>(m),
                None => r matches Ok(cfg) && cfg.server@ == flags.server.unwrap()@ && cfg.node@
                    == flags.node.unwrap()@ && cfg.token@ == flags.token.unwrap()@ && cfg.cpu
                    == flags.cpu.unwrap() && cfg.memory == flags.memory.unwrap() && cfg.reconcile_secs
                    == overridden(5, flags.reconcile_secs) && cfg.heartbeat_secs == overridden(10, flags.heartbeat_secs)
                    && cfg.lease_secs == overridden(40, flags.lease_secs),
            },
        },
{
    let base = match file {
        Some(c) => c,
        None => {
            let server = match &flags.server {
                Some(v) => v.clone(),
                None => return Err(MissingSetting::Server),
            };
            let node = match &flags.node {
                Some(v) => v.clone(),
                None => return Err(MissingSetting::Node),
            };
            let token = match &flags.token {
                Some(v) => v.clone(),
                None => return Err(MissingSetting::Token),
            };
            let cpu = match flags.cpu {
                Some(v) => v,
                None => return Err(MissingSetting::Cpu),
            };
            let memory = match flags.memory {
                Some(v) => v,
                None => return Err(MissingSetting::Memory),
            };
            WorkerConfig {
                server,
                node,
                token,
                cpu,
                memory,
                reconcile_secs: default_reconcile_secs(),
                heartbeat_secs: default_heartbeat_secs(),
                lease_secs: default_lease_secs(),
            }
        },
    };
    let server = match &flags.server {
        Some(v) => v.clone(),
        None => base.server,
    };
    let node = match &flags.node {
        Some(v) => v.clone(),
        None => base.node,
    };
    let token = match &flags.token {
        Some(v) => v.clone(),
        None => base.token,
    };
    Ok(WorkerConfig {
        server,
        node,
        token,
        cpu: match flags.cpu {
            Some(v) => v,
            None => base.cpu,
        },
        memory: match flags.memory {
            Some(v) => v,
            None => base.memory,
        },
        reconcile_secs: match flags.reconcile_secs {
            Some(v) => v,
            None => base.reconcile_secs,
        },
        heartbeat_secs: match flags.heartbeat_secs {
            Some(v) => v,
            None => base.heartbeat_secs,
        },
        lease_secs: match flags.lease_secs {
            Some(v) => v,
            None => base.lease_secs,
        },
    })
}

} // verus!
