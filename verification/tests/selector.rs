use sshx::model::SSHHost;
use sshx::selector::{host_items, picked_host, HostItem};

fn item(group: Option<&str>, alias: Option<&str>, description: Option<&str>, port: Option<u16>) -> HostItem {
    HostItem {
        host: "web".to_string(),
        hostname: "10.0.0.1".to_string(),
        group: group.map(|s| s.to_string()),
        alias: alias.map(|s| s.to_string()),
        description: description.map(|s| s.to_string()),
        port,
    }
}

#[test]
fn search_text_holds_every_field() {
    assert_eq!(item(Some("prod"), Some("w"), Some("Web"), Some(22)).text(), "web 10.0.0.1 prod w Web");
    assert_eq!(item(None, None, None, None).text(), "web 10.0.0.1   ");
}

#[test]
fn display_line() {
    assert_eq!(
        item(Some("prod"), Some("w"), Some("Web"), Some(2222)).display_text(),
        "[prod] web   (w)10.0.0.1:2222 — Web"
    );
    assert_eq!(item(None, None, None, None).display_text(), "web  10.0.0.1");
}

#[test]
fn preview_lines() {
    assert_eq!(
        item(Some("prod"), Some("w"), Some("Web"), Some(2222)).preview_text(),
        "Host: web\nHostName: 10.0.0.1\nPort: 2222\nGroup: prod\nAlias: w\nDescription: Web"
    );
    assert_eq!(item(None, None, None, None).preview_text(), "Host: web\nHostName: 10.0.0.1");
}

#[test]
fn items_follow_the_hosts() {
    let mut a = SSHHost::default();
    a.name = "a".to_string();
    a.hostname = "1".to_string();
    a.sshx.group = Some("g".to_string());
    let mut b = SSHHost::default();
    b.name = "b".to_string();
    b.port = Some(7);
    let items = host_items(&vec![a, b]);
    assert_eq!(items.len(), 2);
    assert_eq!(items[0].host, "a");
    assert_eq!(items[0].group.as_deref(), Some("g"));
    assert_eq!(items[1].port, Some(7));
    let one = HostItem::from_host(&items_host());
    assert_eq!(one.alias.as_deref(), Some("x"));
}

fn items_host() -> SSHHost {
    let mut h = SSHHost::default();
    h.sshx.alias = Some("x".to_string());
    h
}

#[test]
fn the_pick_names_the_host_chosen() {
    let mut a = SSHHost::default();
    a.name = "alpha".to_string();
    let mut b = SSHHost::default();
    b.name = "beta".to_string();
    let hosts = vec![a, b];
    assert_eq!(picked_host(&hosts, Some(1)), Some("beta".to_string()));
    assert_eq!(picked_host(&hosts, Some(0)), Some("alpha".to_string()));
    assert_eq!(picked_host(&hosts, Some(2)), None);
    assert_eq!(picked_host(&hosts, None), None);
}
