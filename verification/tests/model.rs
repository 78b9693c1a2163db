use sshx::model::{LocalForward, SSHHost, SSHXAnnotations};

#[test]
fn test_ssh_host_default() {
    let host = SSHHost::default();
    assert!(host.name.is_empty());
    assert!(host.hostname.is_empty());
    assert!(host.port.is_none());
    assert!(host.user.is_none());
    assert!(host.identity_file.is_none());
    assert!(host.local_forwards.is_empty());
    assert!(host.strict_host_checking.is_none());
    assert!(host.user_known_hosts_file.is_none());
    assert!(host.extra_options.is_empty());
    assert_eq!(host.sshx, SSHXAnnotations::default());
    assert!(host.source.file.is_empty());
    assert_eq!(host.source.line_start, 0);
    assert_eq!(host.source.line_end, 0);
}

#[test]
fn test_local_forward() {
    let forward = LocalForward {
        local_port: 8080,
        remote_host: String::from("localhost"),
        remote_port: 3000,
    };
    assert_eq!(forward.local_port, 8080);
    assert_eq!(forward.remote_host, "localhost");
    assert_eq!(forward.remote_port, 3000);
}

#[test]
fn test_annotations_default() {
    let annotations = SSHXAnnotations::default();
    assert!(annotations.group.is_none());
    assert!(annotations.password.is_none());
    assert!(annotations.requires.is_none());
    assert!(annotations.alias.is_none());
    assert!(!annotations.background);
    assert!(annotations.description.is_none());
    assert!(annotations.after_connect.is_none());
}
