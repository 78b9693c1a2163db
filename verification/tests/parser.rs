use sshx::error::SshxError;
use sshx::includes::{
    parse_with_includes, resolve_include_pattern, walk_from, IncludeAction, IncludeEvent, IncludeWalk,
};
use sshx::model::{SSHHost, StrictHostChecking};
use sshx::parser::parse_content;

const BASIC_CONFIG: &str = "Host web-server\n    HostName 192.168.1.10\n    Port 22\n    User admin\n\nHost db-server\n    HostName 10.0.0.5\n    Port 5432\n";

const ANNOTATED_CONFIG: &str = "# Production and staging\nHost prod-app\n    HostName 203.0.113.50\n    Port 2222\n    User deploy\n    LocalForward 8080 localhost:80\n    LocalForward 3306 db.internal:3306\n    StrictHostKeyChecking no\n    UserKnownHostsFile /dev/null\n    ## sshx: group = production\n    ## sshx: alias = prod\n    ## sshx: description = \"Main production app server\"\n    ## sshx: password = s3cret\n    ## sshx: after_connect = \"curl -s http://localhost:8080/health\"\n\nHost staging-app\n    HostName 203.0.113.60\n    User deploy\n    ## sshx: group = staging\n    ## sshx: requires = prod-app\n";

const MULTI_GROUP_CONFIG: &str = "Host jump-host\n    HostName 198.51.100.10\n    User tunnel\n    ## sshx: group = infra\n    ## sshx: alias = jh\n\nHost prod-app\n    HostName 10.1.0.10\n    ## sshx: group = production\n    ## sshx: requires = jump-host\n\nHost prod-db\n    HostName 10.1.0.20\n    ## sshx: group = production\n    ## sshx: alias = pdb\n\nHost dev-box\n    HostName 192.168.56.10\n    ## sshx: group = development\n";

fn parse_fixture(name: &str, content: &str) -> Vec<SSHHost> {
    parse_content(content, name, "/home/tester").unwrap()
}

/// Follows a walk over `root` with the files of `files` standing for the
/// disk.
fn walk(root: &str, files: &[(&str, &str)]) -> Result<(Vec<SSHHost>, Vec<String>), SshxError> {
    drive(walk_from(root, "/home/tester", Some("/home/tester".to_string())), files)
}

/// Follows the walk `w` with the files of `files` standing for the disk.
fn drive(mut w: IncludeWalk, files: &[(&str, &str)]) -> Result<(Vec<SSHHost>, Vec<String>), SshxError> {
    let mut steps = 0;
    loop {
        steps += 1;
        assert!(steps < 1000, "the walk does not end");
        match w.next_action() {
            IncludeAction::Canonicalize { path } => w.step(IncludeEvent::Canonical { path }),
            IncludeAction::Read { path } => match files.iter().find(|(p, _)| *p == path) {
                Some((_, text)) => w.step(IncludeEvent::Contents { text: text.to_string() }),
                None => w.step(IncludeEvent::Missing),
            },
            IncludeAction::Glob { pattern } => {
                let matches: Vec<String> = files
                    .iter()
                    .filter(|(p, _)| glob_match(&pattern, p))
                    .map(|(p, _)| p.to_string())
                    .collect();
                w.step(IncludeEvent::Matches { files: matches })
            }
            IncludeAction::Done => break,
        }
    }
    w.finish()
}

fn glob_match(pattern: &str, path: &str) -> bool {
    match pattern.find('*') {
        Some(i) => path.starts_with(&pattern[..i]) && path.ends_with(&pattern[i + 1..]) && path.len() >= pattern.len() - 1,
        None => pattern == path,
    }
}

#[test]
fn test_parse_basic_config() {
    let hosts = parse_fixture("basic_config", BASIC_CONFIG);
    assert_eq!(hosts.len(), 2);
    let web = &hosts[0];
    assert_eq!(web.name, "web-server");
    assert_eq!(web.hostname, "192.168.1.10");
    assert_eq!(web.port, Some(22));
    assert_eq!(web.user.as_deref(), Some("admin"));
    let db = &hosts[1];
    assert_eq!(db.name, "db-server");
    assert_eq!(db.hostname, "10.0.0.5");
    assert_eq!(db.port, Some(5432));
}

#[test]
fn test_parse_empty_config() {
    let hosts = parse_fixture("empty_config", "");
    assert!(hosts.is_empty());
}

#[test]
fn test_parse_annotated_config() {
    let hosts = parse_fixture("annotated_config", ANNOTATED_CONFIG);
    assert_eq!(hosts.len(), 2);

    let prod = &hosts[0];
    assert_eq!(prod.name, "prod-app");
    assert_eq!(prod.hostname, "203.0.113.50");
    assert_eq!(prod.port, Some(2222));
    assert_eq!(prod.user.as_deref(), Some("deploy"));
    assert_eq!(prod.sshx.group.as_deref(), Some("production"));
    assert_eq!(prod.sshx.alias.as_deref(), Some("prod"));
    assert_eq!(prod.sshx.password.as_deref(), Some("s3cret"));
    assert_eq!(
        prod.sshx.description.as_deref(),
        Some("Main production app server")
    );
    assert_eq!(
        prod.sshx.after_connect.as_deref(),
        Some("curl -s http://localhost:8080/health")
    );
    assert_eq!(prod.local_forwards.len(), 2);
    assert_eq!(prod.strict_host_checking, Some(StrictHostChecking::No));

    let staging = &hosts[1];
    assert_eq!(staging.name, "staging-app");
    assert_eq!(staging.sshx.group.as_deref(), Some("staging"));
    assert_eq!(staging.sshx.requires.as_deref(), Some("prod-app"));
}

#[test]
fn test_parse_multi_group() {
    let hosts = parse_fixture("multi_group_config", MULTI_GROUP_CONFIG);
    assert_eq!(hosts.len(), 4);

    let jump = &hosts[0];
    assert_eq!(jump.name, "jump-host");
    assert_eq!(jump.sshx.group.as_deref(), Some("infra"));
    assert_eq!(jump.sshx.alias.as_deref(), Some("jh"));

    let prod_app = &hosts[1];
    assert_eq!(prod_app.name, "prod-app");
    assert_eq!(prod_app.sshx.group.as_deref(), Some("production"));
    assert_eq!(prod_app.sshx.requires.as_deref(), Some("jump-host"));

    let prod_db = &hosts[2];
    assert_eq!(prod_db.name, "prod-db");
    assert_eq!(prod_db.sshx.group.as_deref(), Some("production"));
    assert_eq!(prod_db.sshx.alias.as_deref(), Some("pdb"));

    let dev = &hosts[3];
    assert_eq!(dev.name, "dev-box");
    assert_eq!(dev.sshx.group.as_deref(), Some("development"));
}

#[test]
fn test_parse_source_locations() {
    let path = "annotated_config";
    let hosts = parse_fixture(path, ANNOTATED_CONFIG);
    assert_eq!(hosts.len(), 2);

    let prod = &hosts[0];
    let staging = &hosts[1];

    assert!(prod.source.line_start > 0);
    assert!(prod.source.line_end >= prod.source.line_start);
    assert_eq!(prod.source.file, path);
    assert!(staging.source.line_start > prod.source.line_end);
    assert!(staging.source.line_end >= staging.source.line_start);
    assert_eq!(staging.source.file, path);
}

#[test]
fn test_parse_content_final_host_line_end_without_trailing_newline() {
    let path = "inline_config";
    let content = "Host one\n  HostName 1.1.1.1\nHost two\n  HostName 2.2.2.2";

    let hosts = parse_content(content, path, "").unwrap();

    assert_eq!(hosts.len(), 2);
    assert_eq!(hosts[0].name, "one");
    assert_eq!(hosts[0].source.line_end, 2);
    assert_eq!(hosts[1].name, "two");
    assert_eq!(hosts[1].source.line_start, 3);
    assert_eq!(hosts[1].source.line_end, 4);
}

#[test]
fn test_parse_option_keywords_case_insensitively() {
    let path = "inline_config";
    let content = "Host github.com\n  Hostname github.com\n  User git\n  IdentityFile ~/.ssh/github/seenark\n  IdentitiesOnly yes";

    let hosts = parse_content(content, path, "/home/tester").unwrap();

    assert_eq!(hosts.len(), 1);
    assert_eq!(hosts[0].hostname, "github.com");
    assert_eq!(hosts[0].user.as_deref(), Some("git"));
    assert!(hosts[0].identity_file.is_some());
    assert!(
        hosts[0]
            .extra_options
            .contains(&(String::from("IdentitiesOnly"), String::from("yes")))
    );
}

#[test]
fn test_parse_strict_host_checking() {
    let hosts = parse_fixture("annotated_config", ANNOTATED_CONFIG);
    let prod = &hosts[0];
    assert_eq!(prod.strict_host_checking, Some(StrictHostChecking::No));
    assert_eq!(prod.user_known_hosts_file.as_deref(), Some("/dev/null"));
}

#[test]
fn test_resolve_include_pattern() {
    let ssh_dir = "/tmp/ssh";
    let home = "/Users/tester";

    assert_eq!(
        resolve_include_pattern("~/.ssh/github/config", ssh_dir, Some(home)),
        "/Users/tester/.ssh/github/config"
    );
    assert_eq!(
        resolve_include_pattern("~", ssh_dir, Some(home)),
        "/Users/tester"
    );
    assert_eq!(
        resolve_include_pattern("included/*.conf", ssh_dir, Some(home)),
        "/tmp/ssh/included/*.conf"
    );
    assert_eq!(
        resolve_include_pattern("/etc/ssh/config", ssh_dir, Some(home)),
        "/etc/ssh/config"
    );
    assert_eq!(
        resolve_include_pattern("~/.ssh/github/config", ssh_dir, None),
        "~/.ssh/github/config"
    );
}

#[test]
fn test_parse_with_includes() {
    let root = "/fixtures/config_with_include";
    let files = [
        (root, "Include included_config\n\nHost main-host\n    HostName 10.0.0.1\n"),
        ("/fixtures/included_config", "Host included-host\n    HostName 10.0.0.2\n"),
    ];
    let (hosts, source_files) = drive(parse_with_includes(root, "/home/tester"), &files).unwrap();
    assert_eq!(hosts.len(), 2);
    assert_eq!(source_files.len(), 2);
    assert!(hosts.iter().any(|h| h.name == "included-host"));
}

#[test]
fn test_parse_with_multiple_include_patterns() {
    let included_a = "/tmp/walk/included-a.conf";
    let included_b = "/tmp/walk/included-b.conf";
    let root = "/tmp/walk/config";
    let root_text = format!("Include {} {}\nHost root-host\n    HostName 10.0.0.3\n", included_a, included_b);
    let files = [
        (included_a, "Host included-a\n    HostName 10.0.0.1\n"),
        (included_b, "Host included-b\n    HostName 10.0.0.2\n"),
        (root, root_text.as_str()),
    ];

    let (hosts, _) = walk(root, &files).unwrap();

    assert_eq!(hosts.len(), 3);
    assert!(hosts.iter().any(|host| host.name == "included-a"));
    assert!(hosts.iter().any(|host| host.name == "included-b"));
    assert!(hosts.iter().any(|host| host.name == "root-host"));
}

#[test]
fn test_circular_include_prevention() {
    let file_a = "/tmp/sshx_circular_test/a.conf";
    let file_b = "/tmp/sshx_circular_test/b.conf";
    let files = [
        (file_a, "Include b.conf\nHost host-a\n    HostName 1.1.1.1"),
        (file_b, "Include a.conf\nHost host-b\n    HostName 2.2.2.2"),
    ];

    let (hosts, source_files) = walk(file_a, &files).unwrap();

    assert_eq!(hosts.len(), 2);
    assert!(source_files.len() <= 2);
}

#[test]
fn included_hosts_come_before_the_including_file() {
    let files = [
        ("/c/config", "Include /c/inc/*.conf\nHost root\n    HostName r\n"),
        ("/c/inc/x.conf", "Host x\n    HostName x\n"),
        ("/c/inc/y.conf", "Host y\n    HostName y\n"),
    ];
    let (hosts, source_files) = walk("/c/config", &files).unwrap();
    let names: Vec<&str> = hosts.iter().map(|h| h.name.as_str()).collect();
    assert_eq!(names, vec!["x", "y", "root"]);
    assert_eq!(source_files, vec!["/c/config", "/c/inc/x.conf", "/c/inc/y.conf"]);
    assert_eq!(hosts[0].source.file, "/c/inc/x.conf");
}

#[test]
fn missing_root_is_reported() {
    match walk("/nowhere/config", &[]) {
        Err(SshxError::ConfigFileNotFound { path }) => assert_eq!(path, "/nowhere/config"),
        other => panic!("unexpected: {:?}", other.map(|(h, f)| (h.len(), f))),
    }
}

#[test]
fn unreadable_file_is_reported() {
    let mut w = walk_from("/etc/cfg", "", None);
    assert!(matches!(w.next_action(), IncludeAction::Canonicalize { .. }));
    w.step(IncludeEvent::Canonical { path: "/etc/cfg".to_string() });
    assert!(matches!(w.next_action(), IncludeAction::Read { .. }));
    w.step(IncludeEvent::Unreadable { reason: "denied".to_string() });
    assert!(matches!(w.next_action(), IncludeAction::Done));
    match w.finish() {
        Err(SshxError::ConfigFileUnreadable { path, reason }) => {
            assert_eq!(path, "/etc/cfg");
            assert_eq!(reason, "denied");
        }
        _ => panic!("expected an unreadable error"),
    }
}

#[test]
fn an_error_in_an_included_file_ends_the_walk() {
    let files = [
        ("/d/config", "Include other\nHost root\n"),
        ("/d/other", "Host bad\n    ## sshx: colour = blue\n"),
    ];
    match walk("/d/config", &files) {
        Err(SshxError::UnknownAnnotationKey { file, line, key }) => {
            assert_eq!(file, "/d/other");
            assert_eq!(line, 2);
            assert_eq!(key, "colour");
        }
        _ => panic!("expected an unknown key"),
    }
}

#[test]
fn annotations_before_any_host_are_ignored() {
    let hosts = parse_content("## sshx: alias = x\nPort 22\nHost a\n", "f", "").unwrap();
    assert_eq!(hosts.len(), 1);
    assert!(hosts[0].sshx.alias.is_none());
    assert!(hosts[0].port.is_none());
}

#[test]
fn malformed_annotation_is_an_error() {
    match parse_content("Host a\n  ## sshx: group production\n", "cfg", "") {
        Err(SshxError::AnnotationParseError { file, line, raw }) => {
            assert_eq!(file, "cfg");
            assert_eq!(line, 2);
            assert_eq!(raw, "## sshx: group production");
        }
        _ => panic!("expected a parse error"),
    }
}

#[test]
fn background_and_quotes_in_annotations() {
    let hosts = parse_content(
        "Host a\n## sshx: background = 1\n## sshx: description = \"\"quoted\"\"\nHost b\n## sshx: background = yes\n",
        "cfg",
        "",
    )
    .unwrap();
    assert!(hosts[0].sshx.background);
    assert_eq!(hosts[0].sshx.description.as_deref(), Some("quoted"));
    assert!(!hosts[1].sshx.background);
}

#[test]
fn options_edge_cases() {
    let content = "Host a\n  Port +2222\n  Port 70000\n  LocalForward 1 h:2:3\n  LocalForward 10 h:20 extra\n  LocalForward 11 db:5432\n  StrictHostKeyChecking accept_new\n  IdentityFile ~/k~\n  PORTX\n  ProxyJump   bastion  \r\n";
    let hosts = parse_content(content, "cfg", "/h").unwrap();
    let a = &hosts[0];
    assert_eq!(a.port, Some(2222));
    assert_eq!(a.local_forwards.len(), 1);
    assert_eq!(a.local_forwards[0].local_port, 11);
    assert_eq!(a.local_forwards[0].remote_host, "db");
    assert_eq!(a.local_forwards[0].remote_port, 5432);
    assert_eq!(a.strict_host_checking, Some(StrictHostChecking::AcceptNew));
    assert_eq!(a.identity_file.as_deref(), Some("/h/k/h"));
    assert_eq!(a.extra_options, vec![("ProxyJump".to_string(), "bastion".to_string())]);
    assert_eq!(a.source.line_end, 10);
}

#[test]
fn unknown_strict_value_clears_it() {
    let hosts = parse_content("Host a\n  StrictHostKeyChecking yes\n  StrictHostKeyChecking maybe\n", "cfg", "").unwrap();
    assert_eq!(hosts[0].strict_host_checking, None);
}

#[test]
fn blocks_partition_the_lines() {
    let hosts = parse_content("# top\nHost a\n x y\n\nHost b\nHost c\n", "cfg", "").unwrap();
    let ranges: Vec<(usize, usize)> = hosts.iter().map(|h| (h.source.line_start, h.source.line_end)).collect();
    assert_eq!(ranges, vec![(2, 4), (5, 5), (6, 6)]);
}

#[test]
fn includes_under_the_home_directory() {
    let files = [
        ("/cfg/config", "Include ~/.ssh/extra.conf\nHost main\n  HostName 1\n"),
        ("/home/tester/.ssh/extra.conf", "Host extra\n  HostName 2\n  IdentityFile ~/id\n"),
    ];
    let (hosts, source_files) = walk("/cfg/config", &files).unwrap();
    let names: Vec<&str> = hosts.iter().map(|h| h.name.as_str()).collect();
    assert_eq!(names, vec!["extra", "main"]);
    assert_eq!(hosts[0].identity_file.as_deref(), Some("/home/tester/id"));
    assert_eq!(source_files, vec!["/cfg/config".to_string(), "/home/tester/.ssh/extra.conf".to_string()]);
}

#[test]
fn hosts_follow_the_host_lines() {
    let text = "# top\n\nUser nobody\nHost  one \n  HostName a\n# c\n  Host two\nHost three\n";
    let hs = sshx::parser::parse_content(text, "f", "").unwrap();
    let names: Vec<&str> = hs.iter().map(|h| h.name.as_str()).collect();
    assert_eq!(names, vec!["one", "two", "three"]);
    let starts: Vec<usize> = hs.iter().map(|h| h.source.line_start).collect();
    assert_eq!(starts, vec![4, 7, 8]);
}

#[test]
fn the_first_bad_annotation_is_reported() {
    let text = "## sshx: nothing\nHost a\n## sshx: group = g\n## sshx: colour = red\n## sshx: broken\n";
    match sshx::parser::parse_content(text, "f", "") {
        Err(sshx::error::SshxError::UnknownAnnotationKey { file, line, key }) => {
            assert_eq!(file, "f");
            assert_eq!(line, 4);
            assert_eq!(key, "colour");
        }
        other => panic!("unexpected {:?}", other),
    }
}
