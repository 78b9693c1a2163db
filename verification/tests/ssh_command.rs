use sshx::model::{LocalForward, SSHHost, SSHXAnnotations, SourceLocation, StrictHostChecking};
use sshx::ssh_command::SSHCommand;

fn plain_host(name: &str, hostname: &str) -> SSHHost {
    SSHHost {
        name: name.to_string(),
        hostname: hostname.to_string(),
        port: None,
        user: None,
        identity_file: None,
        local_forwards: Vec::new(),
        strict_host_checking: None,
        user_known_hosts_file: None,
        extra_options: Vec::new(),
        sshx: SSHXAnnotations::default(),
        source: SourceLocation::default(),
    }
}

#[test]
fn test_basic_ssh_command() {
    let host = SSHHost {
        name: "test".to_string(),
        hostname: "example.com".to_string(),
        port: Some(22),
        user: Some("alice".to_string()),
        identity_file: None,
        local_forwards: Vec::new(),
        strict_host_checking: None,
        user_known_hosts_file: None,
        extra_options: Vec::new(),
        sshx: SSHXAnnotations::default(),
        source: SourceLocation::default(),
    };

    let cmd = SSHCommand::from_host(&host);
    assert_eq!(cmd.host, "example.com");
    assert_eq!(cmd.port, Some(22));
    assert_eq!(cmd.user, Some("alice".to_string()));
    assert!(cmd.identity_file.is_none());
    assert!(cmd.local_forwards.is_empty());
    assert!(!cmd.background);
    assert!(cmd.password.is_none());
}

#[test]
fn test_command_with_local_forwards() {
    let host = SSHHost {
        name: "forwarded".to_string(),
        hostname: "example.com".to_string(),
        port: None,
        user: None,
        identity_file: None,
        local_forwards: vec![
            LocalForward {
                local_port: 8080,
                remote_host: "localhost".to_string(),
                remote_port: 3000,
            },
            LocalForward {
                local_port: 9090,
                remote_host: "remote.db".to_string(),
                remote_port: 5432,
            },
        ],
        strict_host_checking: None,
        user_known_hosts_file: None,
        extra_options: Vec::new(),
        sshx: SSHXAnnotations::default(),
        source: SourceLocation::default(),
    };

    let cmd = SSHCommand::from_host(&host);
    let parts = cmd.build_parts();

    assert_eq!(parts[0], "ssh");
    assert!(parts.contains(&"-L".to_string()));
    assert!(parts.contains(&"8080:localhost:3000".to_string()));
    assert!(parts.contains(&"9090:remote.db:5432".to_string()));
    assert!(parts.contains(&"example.com".to_string()));
}

#[test]
fn test_command_with_password_uses_sshpass() {
    let host = SSHHost {
        name: "test".to_string(),
        hostname: "example.com".to_string(),
        port: None,
        user: None,
        identity_file: None,
        local_forwards: Vec::new(),
        strict_host_checking: None,
        user_known_hosts_file: None,
        extra_options: Vec::new(),
        sshx: SSHXAnnotations {
            password: Some("secret123".to_string()),
            ..Default::default()
        },
        source: SourceLocation::default(),
    };

    let cmd = SSHCommand::from_host(&host);
    let parts = cmd.build_parts();

    assert_eq!(parts[0..4], ["sshpass", "-p", "secret123", "ssh"]);
    assert!(parts.contains(&"example.com".to_string()));
}

#[test]
fn test_background_mode() {
    let host = SSHHost {
        name: "test".to_string(),
        hostname: "example.com".to_string(),
        port: None,
        user: None,
        identity_file: None,
        local_forwards: Vec::new(),
        strict_host_checking: None,
        user_known_hosts_file: None,
        extra_options: Vec::new(),
        sshx: SSHXAnnotations {
            background: true,
            ..Default::default()
        },
        source: SourceLocation::default(),
    };

    let cmd = SSHCommand::from_host(&host);
    let parts = cmd.build_parts();

    assert!(parts.contains(&"-f".to_string()));
    assert!(parts.contains(&"-N".to_string()));
    assert!(parts.contains(&"example.com".to_string()));
}

#[test]
fn test_command_orders_ssh_port_and_user() {
    let host = SSHHost {
        name: "test".to_string(),
        hostname: "example.com".to_string(),
        port: Some(2222),
        user: Some("alice".to_string()),
        identity_file: None,
        local_forwards: Vec::new(),
        strict_host_checking: None,
        user_known_hosts_file: None,
        extra_options: Vec::new(),
        sshx: SSHXAnnotations::default(),
        source: SourceLocation::default(),
    };

    let cmd = SSHCommand::from_host(&host);

    assert_eq!(cmd.build_parts(), vec!["ssh", "-p", "2222", "alice@example.com"]);
}

#[test]
fn test_build_returns_string() {
    let host = SSHHost {
        name: "test".to_string(),
        hostname: "example.com".to_string(),
        port: Some(2222),
        user: Some("bob".to_string()),
        identity_file: Some("/path/to/key".to_string()),
        local_forwards: vec![LocalForward {
            local_port: 8080,
            remote_host: "localhost".to_string(),
            remote_port: 3000,
        }],
        strict_host_checking: None,
        user_known_hosts_file: None,
        extra_options: Vec::new(),
        sshx: SSHXAnnotations::default(),
        source: SourceLocation::default(),
    };

    let cmd = SSHCommand::from_host(&host);
    let built = cmd.build();

    assert!(built.starts_with("ssh "));
    assert!(!built.contains("sshpass"));
    assert!(built.contains("-p"));
    assert!(built.contains("2222"));
    assert!(built.contains("-i"));
    assert!(built.contains("/path/to/key"));
    assert!(built.contains("-L"));
    assert!(built.contains("8080:localhost:3000"));
    assert!(built.contains("bob@example.com"));
}

// ---------------------------------------------------------------------------
// Further cases
// ---------------------------------------------------------------------------

#[test]
fn every_part_in_its_place() {
    let mut host = plain_host("full", "h.example");
    host.port = Some(65535);
    host.user = Some("u".to_string());
    host.identity_file = Some("/k".to_string());
    host.local_forwards = vec![LocalForward { local_port: 0, remote_host: "r".to_string(), remote_port: 1 }];
    host.strict_host_checking = Some(StrictHostChecking::AcceptNew);
    host.user_known_hosts_file = Some("/dev/null".to_string());
    host.extra_options = vec![("ServerAliveInterval".to_string(), "30".to_string())];
    host.sshx.password = Some("pw".to_string());
    host.sshx.background = true;

    let cmd = SSHCommand::from_host(&host);
    assert_eq!(
        cmd.extra_args,
        vec![
            "-o StrictHostKeyChecking=accept-new",
            "-o UserKnownHostsFile=/dev/null",
            "-o ServerAliveInterval=30",
        ]
    );
    assert_eq!(
        cmd.build_parts(),
        vec![
            "sshpass",
            "-p",
            "pw",
            "ssh",
            "-p",
            "65535",
            "-i",
            "/k",
            "-L",
            "0:r:1",
            "-f",
            "-N",
            "-o StrictHostKeyChecking=accept-new",
            "-o UserKnownHostsFile=/dev/null",
            "-o ServerAliveInterval=30",
            "u@h.example",
        ]
    );
}

#[test]
fn strict_host_checking_values() {
    for (v, t) in [
        (StrictHostChecking::Yes, "yes"),
        (StrictHostChecking::No, "no"),
        (StrictHostChecking::Ask, "ask"),
        (StrictHostChecking::AcceptNew, "accept-new"),
    ] {
        let mut host = plain_host("s", "h");
        host.strict_host_checking = Some(v);
        let cmd = SSHCommand::from_host(&host);
        assert_eq!(cmd.extra_args, vec![format!("-o StrictHostKeyChecking={}", t)]);
    }
}

#[test]
fn build_quotes_what_the_shell_would_split() {
    let mut host = plain_host("q", "example.com");
    host.extra_options = vec![("ProxyCommand".to_string(), "nc %h %p".to_string())];
    host.sshx.password = Some("it's".to_string());
    let cmd = SSHCommand::from_host(&host);
    assert_eq!(
        cmd.build(),
        "sshpass -p 'it'\\''s' ssh '-o ProxyCommand=nc %h %p' example.com"
    );
}

#[test]
fn build_of_the_dry_run_example() {
    let mut host = plain_host("test-box", "example.com");
    host.port = Some(2222);
    host.user = Some("alice".to_string());
    assert_eq!(SSHCommand::from_host(&host).build(), "ssh -p 2222 alice@example.com");
}

#[test]
fn an_empty_argument_is_quoted() {
    let cmd = SSHCommand::from_host(&plain_host("e", ""));
    assert_eq!(cmd.build(), "ssh ''");
}
