use sshx::cli::{Cli, Commands, ConfigAction};
use sshx::connect::{
    after_ssh, connect_target, host_position, plan_connect, resolve_position, route, ConnectTarget,
    Route, SshExit,
};
use sshx::error::SshxError;
use sshx::includes::{walk_from, IncludeAction, IncludeEvent};
use sshx::index::ConfigIndex;
use sshx::parser::parse_content;

const CONFIG: &str = "Host jump-host\n    HostName 198.51.100.10\n    User tunnel\n    ## sshx: alias = jh\n\nHost prod-app\n    HostName 203.0.113.50\n    User deploy\n    ## sshx: alias = prod\n    ## sshx: requires = jump-host\n    ## sshx: after_connect = \"echo done\"\n\nHost test-box\n    HostName example.com\n    Port 2222\n    User alice\n    ## sshx: password = pw\n";

fn index() -> ConfigIndex {
    ConfigIndex::build(parse_content(CONFIG, "cfg", "").unwrap()).unwrap()
}

fn cli(command: Option<Commands>, host_alias: Option<&str>) -> Cli {
    Cli {
        command,
        host_alias: host_alias.map(|s| s.to_string()),
        config: None,
        no_clipboard: false,
        dry_run: true,
        verbose: false,
    }
}

#[test]
fn routes_of_the_command_line() {
    match route(&cli(None, Some("prod"))) {
        Route::Connect(h) => assert_eq!(h.as_deref(), Some("prod")),
        _ => panic!("expected connect"),
    }
    match route(&cli(Some(Commands::Connect { host_alias: Some("a".to_string()) }), Some("b"))) {
        Route::Connect(h) => assert_eq!(h.as_deref(), Some("a")),
        _ => panic!("expected connect"),
    }
    match route(&cli(Some(Commands::Connect { host_alias: None }), Some("b"))) {
        Route::Connect(h) => assert_eq!(h.as_deref(), Some("b")),
        _ => panic!("expected connect"),
    }
    match route(&cli(Some(Commands::Config { action: ConfigAction::Show { host_alias: "x".to_string() } }), None)) {
        Route::Config(ConfigAction::Show { host_alias }) => assert_eq!(host_alias, "x"),
        _ => panic!("expected config show"),
    }
    assert!(matches!(route(&cli(Some(Commands::Version), None)), Route::Version));
}

#[test]
fn targets_by_alias_name_or_selector() {
    let ix = index();
    assert!(matches!(connect_target(&ix, Some("prod")), ConnectTarget::Host(1)));
    assert!(matches!(connect_target(&ix, Some("test-box")), ConnectTarget::Host(2)));
    match connect_target(&ix, Some("pro")) {
        ConnectTarget::Select(Some(q)) => assert_eq!(q, "pro"),
        _ => panic!("expected the selector with a query"),
    }
    assert!(matches!(connect_target(&ix, None), ConnectTarget::Select(None)));
    assert_eq!(resolve_position(&ix, "jh"), Some(0));
    assert_eq!(host_position(&ix, "jh"), None);
    assert_eq!(host_position(&ix, "jump-host"), Some(0));
}

#[test]
fn dry_run_text_of_the_cli_examples() {
    let ix = index();
    let p = plan_connect(&ix, 1);
    assert_eq!(p.dry_run_text, "Command: ssh deploy@203.0.113.50");
    assert_eq!(p.jump_host, Some(0));
    assert_eq!(p.after_connect.as_deref(), Some("echo done"));
    assert!(!p.uses_sshpass);

    let p = plan_connect(&ix, 2);
    assert_eq!(p.command, "sshpass -p pw ssh -p 2222 alice@example.com");
    assert_eq!(p.parts, vec!["sshpass", "-p", "pw", "ssh", "-p", "2222", "alice@example.com"]);
    assert_eq!(p.jump_host, None);
    assert!(p.uses_sshpass);
}

#[test]
fn outcomes_of_ssh() {
    let ix = index();
    let p = plan_connect(&ix, 1);
    assert_eq!(after_ssh(&p, SshExit::Success).unwrap().as_deref(), Some("echo done"));
    match after_ssh(&p, SshExit::Failed(Some(255))) {
        Err(SshxError::SshCommandFailed { exit_code }) => assert_eq!(exit_code, Some(255)),
        other => panic!("unexpected {:?}", other),
    }
    assert!(matches!(after_ssh(&p, SshExit::ProgramMissing), Err(SshxError::SshNotFound)));
    let q = plan_connect(&ix, 2);
    assert!(matches!(after_ssh(&q, SshExit::ProgramMissing), Err(SshxError::SshpassNotFound)));
    assert_eq!(after_ssh(&q, SshExit::Success).unwrap(), None);
}

/// Loads the config `root` from the files of `files`, as `sshx --config
/// ROOT` does from disk.
fn load(root: &str, files: &[(&str, &str)]) -> ConfigIndex {
    let mut w = walk_from(root, "/home/tester", Some("/home/tester".to_string()));
    loop {
        match w.next_action() {
            IncludeAction::Canonicalize { path } => w.step(IncludeEvent::Canonical { path }),
            IncludeAction::Read { path } => match files.iter().find(|(p, _)| *p == path) {
                Some((_, text)) => w.step(IncludeEvent::Contents { text: text.to_string() }),
                None => w.step(IncludeEvent::Missing),
            },
            IncludeAction::Glob { pattern } => {
                let m: Vec<String> = files.iter().filter(|(p, _)| **p == pattern).map(|(p, _)| p.to_string()).collect();
                w.step(IncludeEvent::Matches { files: m })
            }
            IncludeAction::Done => break,
        }
    }
    let (hosts, source_files) = w.finish().unwrap();
    ConfigIndex::from_parsed(hosts, source_files).unwrap()
}

/// What `sshx --dry-run INPUT` prints for the config `index`.
fn dry_run(index: &ConfigIndex, input: &str) -> String {
    match connect_target(index, Some(input)) {
        ConnectTarget::Host(pos) => plan_connect(index, pos).dry_run_text,
        ConnectTarget::Select(_) => panic!("{} does not name a host", input),
    }
}

#[test]
fn dry_run_connect_builds_real_ssh_command() {
    let root = "/tmp/t/config";
    let index = load(root, &[(root, "Host test-box\n    HostName example.com\n    Port 2222\n    User alice\n")]);
    assert!(dry_run(&index, "test-box").contains("Command: ssh -p 2222 alice@example.com"));
}

#[test]
fn dry_run_resolves_alias_without_executing() {
    let root = "/tmp/t/config";
    let index = load(
        root,
        &[(root, "Host prod-app\n    HostName 203.0.113.50\n    User deploy\n    ## sshx: alias = prod\n")],
    );
    assert!(dry_run(&index, "prod").contains("Command: ssh deploy@203.0.113.50"));
}

#[test]
fn dry_run_resolves_host_from_included_config() {
    let included = "/tmp/t/included.conf";
    let root = "/tmp/t/config";
    let root_text = format!("Include {}\nHost root-box\n    HostName 192.0.2.10\n", included);
    let index = load(
        root,
        &[
            (included, "Host included-box\n    HostName 10.10.10.10\n    User included\n"),
            (root, root_text.as_str()),
        ],
    );
    assert!(dry_run(&index, "included-box").contains("Command: ssh included@10.10.10.10"));
}
