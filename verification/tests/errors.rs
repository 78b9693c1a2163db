use sshx::error::SshxError;

fn all_errors() -> Vec<SshxError> {
    vec![
        SshxError::ConfigFileNotFound { path: "/path".to_string() },
        SshxError::ConfigFileUnreadable { path: "/path".to_string(), reason: "test".to_string() },
        SshxError::AnnotationParseError { file: "/path".to_string(), line: 1, raw: "test".to_string() },
        SshxError::UnknownAnnotationKey { file: "/path".to_string(), line: 1, key: "test".to_string() },
        SshxError::DuplicateAlias { alias: "test".to_string(), host1: "h1".to_string(), host2: "h2".to_string() },
        SshxError::HostNotFound { input: "test".to_string() },
        SshxError::AliasAmbiguous { input: "test".to_string(), matches: vec!["a".to_string(), "b".to_string()] },
        SshxError::RequiresHostNotFound { host: "test".to_string(), requires: "req".to_string() },
        SshxError::CircularRequires { host: "test".to_string() },
        SshxError::TunnelSpawnFailed { jump_host: "test".to_string(), reason: "test".to_string() },
        SshxError::TunnelPortBusy { port: 22 },
        SshxError::TunnelTimeout { jump_host: "test".to_string(), timeout_s: 10 },
        SshxError::TunnelDiedEarly { jump_host: "test".to_string(), exit_code: Some(1) },
        SshxError::SshpassNotFound,
        SshxError::SshNotFound,
        SshxError::SshCommandFailed { exit_code: Some(1) },
        SshxError::ClipboardUnavailable { reason: "test".to_string() },
        SshxError::ConfigWriteFailed { path: "/path".to_string(), reason: "test".to_string() },
        SshxError::HostAlreadyExists { name: "test".to_string() },
        SshxError::InvalidHostName { name: "test".to_string() },
        SshxError::InvalidPort { input: "test".to_string() },
        SshxError::SshxConfigParseFailed { path: "/path".to_string(), reason: "test".to_string() },
        SshxError::SshxConfigWriteFailed { path: "/path".to_string(), reason: "test".to_string() },
    ]
}

#[test]
fn test_all_variants_have_codes() {
    for error in all_errors() {
        let code = error.code();
        assert!(!code.is_empty(), "Error {:?} has empty code", error);
    }
}

#[test]
fn test_display_full_format() {
    let error = SshxError::TunnelTimeout {
        jump_host: "test-host".to_string(),
        timeout_s: 10,
    };

    let display = error.display_full();
    assert!(display.starts_with("✗"), "Should start with ✗");
    assert!(display.contains("[E022]"), "Should contain code E022");
    assert!(display.contains("Tunnel timeout"), "Should contain title");
    assert!(display.contains("Hint:"), "Should contain hint");
}

#[test]
fn test_all_codes_unique() {
    let errors = all_errors();
    let codes: Vec<_> = errors.iter().map(|e| e.code()).collect();
    let unique_codes: std::collections::HashSet<_> = codes.iter().collect();
    assert_eq!(codes.len(), unique_codes.len(), "All error codes should be unique");
}

#[test]
fn codes_are_e_and_three_digits() {
    for error in all_errors() {
        let code = error.code();
        assert_eq!(code.len(), 4);
        assert!(code.starts_with('E'));
        assert!(code[1..].chars().all(|c| c.is_ascii_digit()));
    }
}

#[test]
fn titles_carry_the_values() {
    let e = SshxError::AnnotationParseError { file: "/etc/ssh/config".to_string(), line: 12, raw: "## sshx: x".to_string() };
    assert_eq!(e.title(), "Annotation parse error in /etc/ssh/config:12: `## sshx: x`");
    let e = SshxError::TunnelTimeout { jump_host: "bastion".to_string(), timeout_s: 10 };
    assert_eq!(e.title(), "Tunnel timeout — bastion did not become ready in 10s");
    let e = SshxError::TunnelDiedEarly { jump_host: "bastion".to_string(), exit_code: Some(-255) };
    assert_eq!(e.title(), "Tunnel died early: bastion (exit code: Some(-255))");
    let e = SshxError::SshCommandFailed { exit_code: None };
    assert_eq!(e.title(), "SSH command failed (exit code: None)");
    let e = SshxError::AliasAmbiguous { input: "p".to_string(), matches: vec!["prod".to_string(), "pdb".to_string()] };
    assert_eq!(e.title(), "Alias ambiguous: `p` matches [prod, pdb]");
    let e = SshxError::DuplicateAlias { alias: "same".to_string(), host1: "host1".to_string(), host2: "host2".to_string() };
    assert_eq!(e.title(), "Duplicate alias `same` used by both host1 and host2");
    let e = SshxError::TunnelPortBusy { port: 8080 };
    assert_eq!(e.title(), "Tunnel port 8080 is already in use");
}

#[test]
fn context_lines_follow_the_variant() {
    let e = SshxError::UnknownAnnotationKey { file: "cfg".to_string(), line: 3, key: "grp".to_string() };
    assert_eq!(e.context_label(), Some("File"));
    assert_eq!(e.context_value(), Some("cfg:3".to_string()));
    let e = SshxError::SshpassNotFound;
    assert_eq!(e.context_label(), None);
    assert_eq!(e.context_value(), None);
    let e = SshxError::AliasAmbiguous { input: "p".to_string(), matches: vec!["a".to_string(), "b".to_string()] };
    assert_eq!(e.context_value(), Some("p (matches: a, b)".to_string()));
    let e = SshxError::SshCommandFailed { exit_code: Some(2) };
    assert_eq!(e.context_value(), Some("Some(2)".to_string()));
}

#[test]
fn display_with_lays_out_the_error() {
    let e = SshxError::HostNotFound { input: "web".to_string() };
    assert_eq!(
        e.display_with("X", "E010"),
        "X [E010] Host not found: web\n  Input:    web\n  Hint:    Check the host name or alias exists in your SSH config"
    );
    let e = SshxError::SshNotFound;
    assert_eq!(e.display_with("X", "C"), "X [C] ssh not found in PATH\n  Hint:    Install OpenSSH client");
}

#[test]
fn hints_are_fixed_per_variant() {
    let e = SshxError::InvalidPort { input: "x".to_string() };
    assert_eq!(e.hint(), "Port must be a number between 1 and 65535");
}

#[test]
fn hints_are_set_by_the_kind_alone() {
    for e in all_errors() {
        assert!(!e.hint().is_empty());
    }
    let a = SshxError::HostNotFound { input: "a".to_string() };
    let b = SshxError::HostNotFound { input: "something else".to_string() };
    assert_eq!(a.hint(), b.hint());
    let k = SshxError::UnknownAnnotationKey { file: "f".to_string(), line: 3, key: "colour".to_string() };
    assert_eq!(
        k.hint(),
        "Check for typos. Valid keys: group, password, requires, alias, background, description, after_connect"
    );
}
