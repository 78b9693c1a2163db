use sshx::commands::{
    append_block, check_new_host_name, edit_command, host_row, list_hosts, parse_port_input, remove_host_lines,
    render_new_host, resolve_host, show_block, show_host, Heading, Listing, NewHost,
};
use sshx::error::SshxError;
use sshx::index::ConfigIndex;
use sshx::model::{LocalForward, SSHHost, StrictHostChecking};
use sshx::parser::parse_content;

const MULTI_GROUP_CONFIG: &str = "Host jump-host\n    HostName 198.51.100.10\n    User tunnel\n    ## sshx: group = infra\n    ## sshx: alias = jh\n\nHost prod-app\n    HostName 10.1.0.10\n    ## sshx: group = production\n    ## sshx: requires = jump-host\n\nHost prod-db\n    HostName 10.1.0.20\n    ## sshx: group = production\n    ## sshx: alias = pdb\n\nHost dev-box\n    HostName 192.168.56.10\n    ## sshx: group = development\n";

fn index_of(text: &str) -> ConfigIndex {
    ConfigIndex::build(parse_content(text, "cfg", "/home/tester").unwrap()).unwrap()
}

fn new_host(name: &str, port: u16, user: &str, group: &str, description: &str, alias: &str) -> NewHost {
    NewHost {
        name: name.to_string(),
        hostname: "10.0.0.9".to_string(),
        port,
        user: user.to_string(),
        group: group.to_string(),
        description: description.to_string(),
        alias: alias.to_string(),
    }
}

#[test]
fn remove_takes_out_the_block_lines() {
    let content = "Host a\n  HostName 1\nHost b\n  HostName 2\nHost c\n  HostName 3\n";
    assert_eq!(remove_host_lines(content, 3, 4), "Host a\n  HostName 1\nHost c\n  HostName 3");
}

#[test]
fn remove_of_everything_leaves_nothing() {
    assert_eq!(remove_host_lines("Host a\n  HostName 1\n", 1, 2), "");
}

#[test]
fn remove_finds_the_parsed_block() {
    let content = "# top\nHost a\n  HostName 1\n\nHost b\n  HostName 2\n";
    let hosts = parse_content(content, "cfg", "").unwrap();
    let b = &hosts[1];
    let left = remove_host_lines(content, b.source.line_start, b.source.line_end);
    assert_eq!(left, "# top\nHost a\n  HostName 1\n");
    let again = parse_content(&left, "cfg", "").unwrap();
    assert_eq!(again.len(), 1);
    assert_eq!(again[0].name, "a");
}

#[test]
fn new_block_with_everything() {
    let block = render_new_host(&new_host("web", 2222, "admin", "prod", "Web server", "w"));
    assert_eq!(
        block,
        "Host web\n    HostName 10.0.0.9\n    Port 2222\n    User admin\n    ## sshx: group = prod\n    ## sshx: description = \"Web server\"\n    ## sshx: alias = w\n"
    );
}

#[test]
fn new_block_leaves_out_port_22_and_empty_answers() {
    let block = render_new_host(&new_host("web", 22, "", "", "", ""));
    assert_eq!(block, "Host web\n    HostName 10.0.0.9\n");
}

#[test]
fn a_new_block_reads_back() {
    let block = render_new_host(&new_host("web", 2200, "admin", "prod", "Web server", "w"));
    let text = append_block("Host old\n  HostName 1", &block);
    let hosts = parse_content(&text, "cfg", "").unwrap();
    assert_eq!(hosts.len(), 2);
    let h = &hosts[1];
    assert_eq!(h.name, "web");
    assert_eq!(h.hostname, "10.0.0.9");
    assert_eq!(h.port, Some(2200));
    assert_eq!(h.user.as_deref(), Some("admin"));
    assert_eq!(h.sshx.group.as_deref(), Some("prod"));
    assert_eq!(h.sshx.description.as_deref(), Some("Web server"));
    assert_eq!(h.sshx.alias.as_deref(), Some("w"));
}

#[test]
fn append_starts_a_new_line_when_needed() {
    assert_eq!(append_block("", "B\n"), "B\n");
    assert_eq!(append_block("A\n", "B\n"), "A\nB\n");
    assert_eq!(append_block("A", "B\n"), "A\nB\n");
}

#[test]
fn new_host_names_are_checked() {
    let index = index_of(MULTI_GROUP_CONFIG);
    match check_new_host_name(&index, "my host") {
        Err(SshxError::InvalidHostName { name }) => assert_eq!(name, "my host"),
        other => panic!("unexpected {:?}", other),
    }
    match check_new_host_name(&index, "tab\there") {
        Err(SshxError::InvalidHostName { name }) => assert_eq!(name, "tab\there"),
        other => panic!("unexpected {:?}", other),
    }
    match check_new_host_name(&index, "prod-db") {
        Err(SshxError::HostAlreadyExists { name }) => assert_eq!(name, "prod-db"),
        other => panic!("unexpected {:?}", other),
    }
    assert!(check_new_host_name(&index, "fresh").is_ok());
}

#[test]
fn ports_are_read_as_u16() {
    assert_eq!(parse_port_input("22").unwrap(), 22);
    assert_eq!(parse_port_input("+8022").unwrap(), 8022);
    assert_eq!(parse_port_input("65535").unwrap(), 65535);
    for bad in ["", "65536", "-1", "22a", " 22", "+"] {
        match parse_port_input(bad) {
            Err(SshxError::InvalidPort { input }) => assert_eq!(input, bad),
            other => panic!("unexpected {:?} for {:?}", other, bad),
        }
    }
}

#[test]
fn edit_command_quotes_the_file() {
    assert_eq!(edit_command("vi", 12, "/home/me/.ssh/config"), "vi +12 /home/me/.ssh/config");
    assert_eq!(edit_command("code -w", 3, "/tmp/my config"), "code -w +3 '/tmp/my config'");
}

#[test]
fn rows_show_the_optional_pieces() {
    let mut h = SSHHost::default();
    h.name = "web".to_string();
    h.hostname = "10.0.0.1".to_string();
    let r = host_row(&h);
    assert_eq!((r.name.as_str(), r.alias.as_str(), r.address.as_str(), r.description.as_str()), ("web", "", "10.0.0.1", ""));
    h.port = Some(2222);
    h.sshx.alias = Some("w".to_string());
    h.sshx.description = Some("Web".to_string());
    let r = host_row(&h);
    assert_eq!(
        (r.alias.as_str(), r.address.as_str(), r.description.as_str()),
        (" (w)", "10.0.0.1:2222", " — Web")
    );
}

fn table_names(l: &Listing) -> Vec<(String, Vec<String>)> {
    match l {
        Listing::Tables(ts) => ts
            .iter()
            .map(|t| {
                let head = match &t.heading {
                    Heading::Plain => String::new(),
                    Heading::Group(g) => format!("[{}]", g),
                    Heading::Ungrouped => "[ungrouped]".to_string(),
                };
                (head, t.rows.iter().map(|r| r.name.clone()).collect())
            })
            .collect(),
        Listing::NoHostsInGroup(g) => panic!("no hosts in {}", g),
    }
}

#[test]
fn listing_by_groups() {
    let text = format!("{}\nHost loose\n    HostName 1.2.3.4\n", MULTI_GROUP_CONFIG);
    let index = index_of(&text);
    let l = list_hosts(&index, None);
    assert_eq!(
        table_names(&l),
        vec![
            ("[infra]".to_string(), vec!["jump-host".to_string()]),
            ("[production]".to_string(), vec!["prod-app".to_string(), "prod-db".to_string()]),
            ("[development]".to_string(), vec!["dev-box".to_string()]),
            ("[ungrouped]".to_string(), vec!["loose".to_string()]),
        ]
    );
}

#[test]
fn listing_without_groups_and_with_a_filter() {
    let index = index_of("Host a\n  HostName 1\nHost b\n  HostName 2\n");
    assert_eq!(table_names(&list_hosts(&index, None)), vec![(String::new(), vec!["a".to_string(), "b".to_string()])]);

    let index = index_of(MULTI_GROUP_CONFIG);
    assert_eq!(
        table_names(&list_hosts(&index, Some("production"))),
        vec![(String::new(), vec!["prod-app".to_string(), "prod-db".to_string()])]
    );
    match list_hosts(&index, Some("nope")) {
        Listing::NoHostsInGroup(g) => assert_eq!(g, "nope"),
        _ => panic!("expected no hosts"),
    }
}

#[test]
fn show_lays_out_a_host() {
    let mut h = SSHHost::default();
    h.name = "prod-app".to_string();
    h.hostname = "203.0.113.50".to_string();
    h.port = Some(2222);
    h.user = Some("deploy".to_string());
    h.identity_file = Some("/k".to_string());
    h.local_forwards = vec![LocalForward { local_port: 8080, remote_host: "localhost".to_string(), remote_port: 80 }];
    h.strict_host_checking = Some(StrictHostChecking::No);
    h.user_known_hosts_file = Some("/dev/null".to_string());
    h.extra_options = vec![("ServerAliveInterval".to_string(), "30".to_string())];
    h.sshx.group = Some("production".to_string());
    h.sshx.alias = Some("prod".to_string());
    h.sshx.description = Some("Main".to_string());
    h.sshx.password = Some("pässwd".to_string());
    h.sshx.requires = Some("bastion".to_string());
    h.sshx.background = true;
    h.sshx.after_connect = Some("echo hi".to_string());
    h.source.file = "/etc/cfg".to_string();
    h.source.line_start = 3;
    h.source.line_end = 19;

    let b = show_block(&h);
    assert_eq!(b.title, "Host prod-app");
    assert_eq!(
        b.settings,
        vec![
            "  HostName 203.0.113.50",
            "  Port 2222",
            "  User deploy",
            "  IdentityFile /k",
            "  LocalForward 8080 localhost:80",
            "  StrictHostKeyChecking no",
            "  UserKnownHostsFile /dev/null",
            "  ServerAliveInterval 30",
        ]
    );
    assert_eq!(
        b.annotations,
        vec![
            "sshx: group = production",
            "sshx: alias = prod",
            "sshx: description = \"Main\"",
            "sshx: password = *******",
            "sshx: requires = bastion",
            "sshx: background = true",
            "sshx: after_connect = \"echo hi\"",
        ]
    );
    assert_eq!(b.source, "  Source: /etc/cfg:3-19");
}

#[test]
fn show_of_a_bare_host() {
    let mut h = SSHHost::default();
    h.name = "x".to_string();
    let b = show_block(&h);
    assert_eq!(b.settings, vec!["  HostName "]);
    assert!(b.annotations.is_empty());
    assert_eq!(b.source, "  Source: :0-0");
}

#[test]
fn show_of_an_unknown_host_is_an_error() {
    let ix = ConfigIndex::build(
        parse_content("Host a\n    HostName 1.2.3.4\n    ## sshx: alias = aa\n    ## sshx: password = secret\n", "c", "").unwrap(),
    )
    .unwrap();
    match show_host(&ix, "nope") {
        Err(SshxError::HostNotFound { input }) => assert_eq!(input, "nope"),
        other => panic!("unexpected {:?}", other),
    }
    let b = show_host(&ix, "aa").unwrap();
    assert_eq!(b.title, "Host a");
    assert_eq!(b.annotations, vec!["sshx: alias = aa", "sshx: password = ******"]);
    assert!(!b.annotations.iter().any(|l| l.contains("secret")));
    assert_eq!(resolve_host(&ix, "a").unwrap().hostname, "1.2.3.4");
    assert!(matches!(resolve_host(&ix, "b"), Err(SshxError::HostNotFound { .. })));
}

#[test]
fn passwords_of_one_length_are_shown_alike() {
    let mut h1 = SSHHost::default();
    h1.name = "x".to_string();
    h1.sshx.password = Some("abcd".to_string());
    let mut h2 = SSHHost::default();
    h2.name = "x".to_string();
    h2.sshx.password = Some("wxyz".to_string());
    assert_eq!(show_block(&h1).annotations, show_block(&h2).annotations);
}
