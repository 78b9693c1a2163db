use sshx::error::SshxError;
use sshx::includes::{walk_from, IncludeAction, IncludeEvent};
use sshx::index::ConfigIndex;
use sshx::model::{SSHHost, SSHXAnnotations};
use sshx::parser::parse_content;

const BASIC_CONFIG: &str = "Host web-server\n    HostName 192.168.1.10\n    Port 22\n    User admin\n\nHost db-server\n    HostName 10.0.0.5\n    Port 5432\n";

const ANNOTATED_CONFIG: &str = "# Production and staging\nHost prod-app\n    HostName 203.0.113.50\n    Port 2222\n    User deploy\n    LocalForward 8080 localhost:80\n    LocalForward 3306 db.internal:3306\n    StrictHostKeyChecking no\n    UserKnownHostsFile /dev/null\n    ## sshx: group = production\n    ## sshx: alias = prod\n    ## sshx: description = \"Main production app server\"\n    ## sshx: password = s3cret\n    ## sshx: after_connect = \"curl -s http://localhost:8080/health\"\n\nHost staging-app\n    HostName 203.0.113.60\n    User deploy\n    ## sshx: group = staging\n    ## sshx: requires = prod-app\n";

const MULTI_GROUP_CONFIG: &str = "Host jump-host\n    HostName 198.51.100.10\n    User tunnel\n    ## sshx: group = infra\n    ## sshx: alias = jh\n\nHost prod-app\n    HostName 10.1.0.10\n    ## sshx: group = production\n    ## sshx: requires = jump-host\n\nHost prod-db\n    HostName 10.1.0.20\n    ## sshx: group = production\n    ## sshx: alias = pdb\n\nHost dev-box\n    HostName 192.168.56.10\n    ## sshx: group = development\n";

fn fixture_hosts(name: &str) -> Vec<SSHHost> {
    let content = match name {
        "basic_config" => BASIC_CONFIG,
        "annotated_config" => ANNOTATED_CONFIG,
        "multi_group_config" => MULTI_GROUP_CONFIG,
        _ => panic!("no fixture {}", name),
    };
    parse_content(content, name, "/home/tester").unwrap()
}

fn host(name: &str, hostname: &str, sshx: SSHXAnnotations) -> SSHHost {
    SSHHost {
        name: name.to_string(),
        hostname: hostname.to_string(),
        sshx,
        ..Default::default()
    }
}

/// Loads a config held in memory: a walk over its includes, then the index.
fn load(root: &str, files: &[(&str, &str)]) -> Result<ConfigIndex, SshxError> {
    let mut w = walk_from(root, "/home/tester", Some("/home/tester".to_string()));
    let mut steps = 0;
    loop {
        steps += 1;
        assert!(steps < 1000, "the walk does not end");
        match w.next_action() {
            IncludeAction::Canonicalize { path } => w.step(IncludeEvent::Canonical { path }),
            IncludeAction::Read { path } => match files.iter().find(|(p, _)| *p == path) {
                Some((_, text)) => w.step(IncludeEvent::Contents { text: text.to_string() }),
                None => w.step(IncludeEvent::Missing),
            },
            IncludeAction::Glob { pattern } => {
                let matches: Vec<String> = files
                    .iter()
                    .filter(|(p, _)| **p == pattern)
                    .map(|(p, _)| p.to_string())
                    .collect();
                w.step(IncludeEvent::Matches { files: matches })
            }
            IncludeAction::Done => break,
        }
    }
    let (hosts, source_files) = w.finish()?;
    ConfigIndex::from_parsed(hosts, source_files)
}

#[test]
fn test_build_index_basic() {
    let hosts = fixture_hosts("basic_config");
    let index = ConfigIndex::build(hosts).unwrap();
    assert_eq!(index.hosts.len(), 2);
    assert!(index.groups.is_empty());
    assert!(index.aliases.is_empty());
}

#[test]
fn test_find_host_by_name() {
    let hosts = fixture_hosts("basic_config");
    let index = ConfigIndex::build(hosts).unwrap();
    let web = index.find_host("web-server");
    assert!(web.is_some());
    assert_eq!(web.unwrap().hostname, "192.168.1.10");
}

#[test]
fn test_resolve_alias() {
    let hosts = fixture_hosts("annotated_config");
    let index = ConfigIndex::build(hosts).unwrap();
    let prod = index.resolve_alias("prod");
    assert!(prod.is_some());
    assert_eq!(prod.unwrap().name, "prod-app");
}

#[test]
fn test_hosts_in_group() {
    let hosts = fixture_hosts("multi_group_config");
    let index = ConfigIndex::build(hosts).unwrap();
    let production_hosts = index.hosts_in_group("production");
    assert_eq!(production_hosts.len(), 2);
    let names: Vec<&str> = production_hosts.iter().map(|h| h.name.as_str()).collect();
    assert!(names.contains(&"prod-app"));
    assert!(names.contains(&"prod-db"));
}

#[test]
fn test_jump_host_for() {
    let hosts = fixture_hosts("multi_group_config");
    let index = ConfigIndex::build(hosts).unwrap();
    let prod_app = index.find_host("prod-app").unwrap();
    let jump = index.jump_host_for(prod_app);
    assert!(jump.is_some());
    assert_eq!(jump.unwrap().name, "jump-host");
}

#[test]
fn test_duplicate_alias_error() {
    let hosts = vec![
        host(
            "host1",
            "192.168.1.1",
            SSHXAnnotations { alias: Some("same".to_string()), ..Default::default() },
        ),
        host(
            "host2",
            "192.168.1.2",
            SSHXAnnotations { alias: Some("same".to_string()), ..Default::default() },
        ),
    ];
    let result = ConfigIndex::build(hosts);
    assert!(result.is_err());
    let err = result.unwrap_err();
    match err {
        SshxError::DuplicateAlias { alias, host1, host2 } => {
            assert_eq!(alias, "same");
            assert_eq!(host1, "host1");
            assert_eq!(host2, "host2");
        }
        _ => panic!("Expected DuplicateAlias error"),
    }
}

#[test]
fn test_requires_not_found_error() {
    let hosts = vec![host(
        "myhost",
        "192.168.1.1",
        SSHXAnnotations { requires: Some("nonexistent".to_string()), ..Default::default() },
    )];
    let result = ConfigIndex::build(hosts);
    assert!(result.is_err());
    let err = result.unwrap_err();
    match err {
        SshxError::RequiresHostNotFound { host, requires } => {
            assert_eq!(host, "myhost");
            assert_eq!(requires, "nonexistent");
        }
        _ => panic!("Expected RequiresHostNotFound error"),
    }
}

#[test]
fn test_circular_requires_error() {
    let hosts = vec![
        host(
            "host-a",
            "192.168.1.1",
            SSHXAnnotations { requires: Some("host-b".to_string()), ..Default::default() },
        ),
        host(
            "host-b",
            "192.168.1.2",
            SSHXAnnotations { requires: Some("host-a".to_string()), ..Default::default() },
        ),
    ];
    let result = ConfigIndex::build(hosts);
    assert!(result.is_err());
    let err = result.unwrap_err();
    match err {
        SshxError::CircularRequires { host } => {
            assert_eq!(host, "host-a");
        }
        _ => panic!("Expected CircularRequires error"),
    }
}

#[test]
fn test_full_load_pipeline() {
    let path = "/fixtures/multi_group_config";
    let index = load(path, &[(path, MULTI_GROUP_CONFIG)]).unwrap();
    assert_eq!(index.hosts.len(), 4);
    assert_eq!(index.groups.len(), 3);
    assert_eq!(index.aliases.len(), 2);
    assert_eq!(index.source_files, vec![path.to_string()]);
}

// ---------------------------------------------------------------------------
// Further cases
// ---------------------------------------------------------------------------

#[test]
fn groups_keep_the_order_names_first_appear() {
    let index = ConfigIndex::build(fixture_hosts("multi_group_config")).unwrap();
    assert_eq!(index.groups.len(), 3);
    let (g0, m0) = index.groups.get_index(0).unwrap();
    let (g1, m1) = index.groups.get_index(1).unwrap();
    let (g2, m2) = index.groups.get_index(2).unwrap();
    assert_eq!((g0.as_str(), m0.clone()), ("infra", vec![0]));
    assert_eq!((g1.as_str(), m1.clone()), ("production", vec![1, 2]));
    assert_eq!((g2.as_str(), m2.clone()), ("development", vec![3]));
    assert!(index.groups.get_index(3).is_none());
}

#[test]
fn aliases_point_at_their_hosts() {
    let index = ConfigIndex::build(fixture_hosts("multi_group_config")).unwrap();
    assert_eq!(index.aliases, vec![("jh".to_string(), 0), ("pdb".to_string(), 2)]);
    assert_eq!(index.resolve_alias("jh").unwrap().name, "jump-host");
    assert_eq!(index.resolve_alias("pdb").unwrap().name, "prod-db");
}

#[test]
fn resolve_alias_falls_back_to_the_name() {
    let index = ConfigIndex::build(fixture_hosts("multi_group_config")).unwrap();
    assert_eq!(index.resolve_alias("dev-box").unwrap().hostname, "192.168.56.10");
    assert!(index.resolve_alias("nowhere").is_none());
}

#[test]
fn an_alias_wins_over_a_host_name() {
    let hosts = vec![
        host("web", "10.0.0.1", SSHXAnnotations::default()),
        host("other", "10.0.0.2", SSHXAnnotations { alias: Some("web".to_string()), ..Default::default() }),
    ];
    let index = ConfigIndex::build(hosts).unwrap();
    assert_eq!(index.resolve_alias("web").unwrap().name, "other");
    assert_eq!(index.find_host("web").unwrap().name, "web");
}

#[test]
fn find_host_takes_the_first_of_equal_names() {
    let hosts = vec![
        host("twin", "10.0.0.1", SSHXAnnotations::default()),
        host("twin", "10.0.0.2", SSHXAnnotations::default()),
    ];
    let index = ConfigIndex::build(hosts).unwrap();
    assert_eq!(index.find_host("twin").unwrap().hostname, "10.0.0.1");
    assert!(index.find_host("TWIN").is_none());
}

#[test]
fn unknown_group_lists_nothing() {
    let index = ConfigIndex::build(fixture_hosts("multi_group_config")).unwrap();
    assert!(index.hosts_in_group("staging").is_empty());
    assert_eq!(index.hosts_in_group("infra")[0].name, "jump-host");
}

#[test]
fn a_host_without_requires_has_no_jump_host() {
    let index = ConfigIndex::build(fixture_hosts("multi_group_config")).unwrap();
    let dev = index.find_host("dev-box").unwrap();
    assert!(index.jump_host_for(dev).is_none());
}

#[test]
fn a_host_requiring_itself_is_circular() {
    let hosts = vec![host(
        "loop",
        "10.0.0.1",
        SSHXAnnotations { requires: Some("loop".to_string()), ..Default::default() },
    )];
    match ConfigIndex::build(hosts) {
        Err(SshxError::CircularRequires { host }) => assert_eq!(host, "loop"),
        other => panic!("unexpected {:?}", other.map(|i| i.hosts.len())),
    }
}

#[test]
fn a_long_chain_of_requires_is_accepted() {
    let hosts = vec![
        host("a", "1", SSHXAnnotations { requires: Some("b".to_string()), ..Default::default() }),
        host("b", "2", SSHXAnnotations { requires: Some("c".to_string()), ..Default::default() }),
        host("c", "3", SSHXAnnotations { requires: Some("d".to_string()), ..Default::default() }),
        host("d", "4", SSHXAnnotations::default()),
    ];
    let index = ConfigIndex::build(hosts).unwrap();
    let a = index.find_host("a").unwrap();
    assert_eq!(index.jump_host_for(a).unwrap().name, "b");
}

#[test]
fn a_cycle_reached_from_a_host_outside_it_names_that_host() {
    let hosts = vec![
        host("entry", "1", SSHXAnnotations { requires: Some("x".to_string()), ..Default::default() }),
        host("x", "2", SSHXAnnotations { requires: Some("y".to_string()), ..Default::default() }),
        host("y", "3", SSHXAnnotations { requires: Some("x".to_string()), ..Default::default() }),
    ];
    match ConfigIndex::build(hosts) {
        Err(SshxError::CircularRequires { host }) => assert_eq!(host, "entry"),
        other => panic!("unexpected {:?}", other.map(|i| i.hosts.len())),
    }
}

#[test]
fn duplicate_alias_is_found_before_a_missing_requires() {
    let hosts = vec![
        host("h1", "1", SSHXAnnotations { requires: Some("none".to_string()), ..Default::default() }),
        host("h2", "2", SSHXAnnotations { alias: Some("a".to_string()), ..Default::default() }),
        host("h3", "3", SSHXAnnotations { alias: Some("a".to_string()), ..Default::default() }),
    ];
    match ConfigIndex::build(hosts) {
        Err(SshxError::DuplicateAlias { alias, host1, host2 }) => {
            assert_eq!((alias.as_str(), host1.as_str(), host2.as_str()), ("a", "h2", "h3"));
        }
        other => panic!("unexpected {:?}", other.map(|i| i.hosts.len())),
    }
}

#[test]
fn load_reports_an_error_of_the_index() {
    let path = "/fixtures/cfg";
    let text = "Host a\n  HostName 1\n  ## sshx: requires = b\n";
    match load(path, &[(path, text)]) {
        Err(SshxError::RequiresHostNotFound { host, requires }) => {
            assert_eq!((host.as_str(), requires.as_str()), ("a", "b"));
        }
        other => panic!("unexpected {:?}", other.map(|i| i.hosts.len())),
    }
}

#[test]
fn tables_of_a_built_index() {
    let text = "Host a\n## sshx: group = web\n## sshx: alias = x\nHost b\n## sshx: group = db\nHost c\n## sshx: group = web\n## sshx: alias = y\nHost d\n";
    let ix = sshx::index::ConfigIndex::build(sshx::parser::parse_content(text, "f", "").unwrap()).unwrap();
    assert_eq!(ix.aliases, vec![("x".to_string(), 0), ("y".to_string(), 2)]);
    assert_eq!(ix.groups.len(), 2);
    assert_eq!(ix.groups.get_index(0).unwrap(), (&"web".to_string(), &vec![0usize, 2]));
    assert_eq!(ix.groups.get_index(1).unwrap(), (&"db".to_string(), &vec![1usize]));
    assert!(ix.source_files.is_empty());
}
