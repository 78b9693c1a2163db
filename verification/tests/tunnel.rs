use sshx::config::TunnelConfig;
use sshx::error::SshxError;
use sshx::model::SSHHost;
use sshx::parser::parse_content;
use sshx::tunnel::{tunnel_poll, tunnel_ports, tunnel_spawn_failed, tunnel_start, TunnelPoll, TunnelStart};

const CONFIG: &str = "Host bastion\n    HostName 198.51.100.10\n    User tunnel\n    LocalForward 15432 db.internal:5432\n    LocalForward 16379 cache.internal:6379\n    ## sshx: background = true\n\nHost reporting-db\n    HostName 127.0.0.1\n    Port 15432\n    ## sshx: requires = bastion\n";

fn hosts() -> Vec<SSHHost> {
    parse_content(CONFIG, "cfg", "").unwrap()
}

fn cfg() -> TunnelConfig {
    TunnelConfig { check_interval_ms: 500, connect_timeout_s: 10 }
}

#[test]
fn tunnel_ports_are_the_local_forward_ports() {
    let hs = hosts();
    assert_eq!(tunnel_ports(&hs[0]), vec![15432, 16379]);
    assert!(tunnel_ports(&hs[1]).is_empty());
}

#[test]
fn a_host_without_forwards_needs_no_tunnel() {
    let hs = hosts();
    assert!(matches!(tunnel_start(&hs[1], &vec![]), Ok(TunnelStart::NothingToDo)));
}

#[test]
fn a_tunnel_already_up_is_left_alone() {
    let hs = hosts();
    assert!(matches!(tunnel_start(&hs[0], &vec![true, true]), Ok(TunnelStart::AlreadyUp)));
}

#[test]
fn a_port_taken_by_something_else_is_reported() {
    let hs = hosts();
    match tunnel_start(&hs[0], &vec![false, true]) {
        Err(SshxError::TunnelPortBusy { port }) => assert_eq!(port, 16379),
        other => panic!("unexpected {:?}", other),
    }
}

#[test]
fn a_tunnel_down_is_started_in_the_background() {
    let hs = hosts();
    match tunnel_start(&hs[0], &vec![false, false]) {
        Ok(TunnelStart::Spawn(parts)) => assert_eq!(
            parts,
            vec![
                "ssh",
                "-L",
                "15432:db.internal:5432",
                "-L",
                "16379:cache.internal:6379",
                "-f",
                "-N",
                "tunnel@198.51.100.10"
            ]
            .into_iter()
            .map(String::from)
            .collect::<Vec<String>>()
        ),
        other => panic!("unexpected {:?}", other),
    }
}

#[test]
fn polling_a_tunnel() {
    let hs = hosts();
    let c = cfg();
    assert!(matches!(tunnel_poll(&hs[0], &c, 20_000, None, &vec![true, true]), Ok(TunnelPoll::Ready)));
    assert!(matches!(tunnel_poll(&hs[0], &c, 100, None, &vec![true, false]), Ok(TunnelPoll::Wait(500))));
    assert!(matches!(tunnel_poll(&hs[0], &c, 100, Some(Some(0)), &vec![false, false]), Ok(TunnelPoll::Wait(500))));
    match tunnel_poll(&hs[0], &c, 100, Some(Some(255)), &vec![false, false]) {
        Err(SshxError::TunnelDiedEarly { jump_host, exit_code }) => {
            assert_eq!(jump_host, "bastion");
            assert_eq!(exit_code, Some(255));
        }
        other => panic!("unexpected {:?}", other),
    }
    match tunnel_poll(&hs[0], &c, 100, Some(None), &vec![false, false]) {
        Err(SshxError::TunnelDiedEarly { exit_code, .. }) => assert_eq!(exit_code, None),
        other => panic!("unexpected {:?}", other),
    }
    match tunnel_poll(&hs[0], &c, 10_000, None, &vec![false, false]) {
        Err(SshxError::TunnelTimeout { jump_host, timeout_s }) => {
            assert_eq!(jump_host, "bastion");
            assert_eq!(timeout_s, 10);
        }
        other => panic!("unexpected {:?}", other),
    }
    assert!(matches!(tunnel_poll(&hs[0], &c, 9_999, None, &vec![false, false]), Ok(TunnelPoll::Wait(500))));
}

#[test]
fn a_failed_start_names_the_jump_host() {
    let hs = hosts();
    match tunnel_spawn_failed(&hs[0], "no ssh".to_string()) {
        SshxError::TunnelSpawnFailed { jump_host, reason } => {
            assert_eq!(jump_host, "bastion");
            assert_eq!(reason, "no ssh");
        }
        other => panic!("unexpected {:?}", other),
    }
}
