//! The texts of the entries of the interactive host selector: what the
//! fuzzy matcher searches, what a line shows and what the preview pane
//! shows.

use vstd::prelude::*;

use crate::commands::wrapped;
use crate::model::SSHHost;
use crate::text::{dec, push_dec, push_str};

verus! {

/// One entry of the selector.
#[derive(Debug)]
pub struct HostItem {
    pub host: String,
    pub hostname: String,
    pub group: Option<String>,
    pub alias: Option<String>,
    pub description: Option<String>,
    pub port: Option<u16>,
}

/// Model of a `HostItem`.
pub struct ItemModel {
    pub host: Seq<char>,
    pub hostname: Seq<char>,
    pub group: Option<Seq<char>>,
    pub alias: Option<Seq<char>>,
    pub description: Option<Seq<char>>,
    pub port: Option<u16>,
}

impl View for HostItem {
    type V = ItemModel;

    open spec fn view(&self) -> ItemModel {
        ItemModel {
            host: self.host@,
            hostname: self.hostname@,
            group: self.group.deep_view(),
            alias: self.alias.deep_view(),
            description: self.description.deep_view(),
            port: self.port,
        }
    }
}

/// The value, or an empty text.
pub open spec fn or_empty(o: Option<Seq<char>>) -> Seq<char> {
    match o {
        Some(x) => x,
        None => Seq::empty(),
    }
}

/// What the matcher searches: host, hostname, group, alias and
/// description, separated by single spaces (absent ones empty).
pub open spec fn item_text(i: ItemModel) -> Seq<char> {
    i.host + " "@ + i.hostname + " "@ + or_empty(i.group) + " "@ + or_empty(i.alias) + " "@ + or_empty(
        i.description,
    )
}

/// `:port`, or nothing.
pub open spec fn port_suffix(p: Option<u16>) -> Seq<char> {
    match p {
        Some(p) => ":"@ + dec(p as nat),
        None => Seq::empty(),
    }
}

/// The line of an entry: `[group] host  (alias)hostname:port — description`,
/// each optional piece left out when absent.
pub open spec fn item_line(i: ItemModel) -> Seq<char> {
    wrapped("["@, i.group, "] "@) + i.host + "  "@ + wrapped(" ("@, i.alias, ")"@) + i.hostname
        + port_suffix(i.port) + wrapped(" — "@, i.description, Seq::empty())
}

/// The preview of an entry: `Host:` and `HostName:` lines, then `Port:`,
/// `Group:`, `Alias:` and `Description:` lines for what is set.
pub open spec fn item_preview(i: ItemModel) -> Seq<char> {
    "Host: "@ + i.host + "\nHostName: "@ + i.hostname + (match i.port {
        Some(p) => "\nPort: "@ + dec(p as nat),
        None => Seq::empty(),
    }) + wrapped("\nGroup: "@, i.group, Seq::empty()) + wrapped("\nAlias: "@, i.alias, Seq::empty())
        + wrapped("\nDescription: "@, i.description, Seq::empty())
}

/// Appends the value to `s` when there is one.
fn push_opt(s: &mut String, o: &Option<String>)
    ensures
        final(s)@ == old(s)@ + or_empty(o.deep_view()),
{
    match o {
        Some(x) => push_str(s, x.as_str()),
        None => {},
    }
}

/// Appends `prefix`, the value and `suffix` to `s` when there is a value.
fn push_wrapped(s: &mut String, prefix: &str, o: &Option<String>, suffix: &str)
    ensures
        final(s)@ == old(s)@ + wrapped(prefix@, o.deep_view(), suffix@),
{
    match o {
        Some(x) => {
            push_str(s, prefix);
            push_str(s, x.as_str());
            push_str(s, suffix);
        },
        None => {},
    }
}

impl HostItem {
    /// The entry for `h`.
    pub fn from_host(h: &SSHHost) -> (r: HostItem)
        ensures
            r@ == (ItemModel {
                host: h.name@,
                hostname: h.hostname@,
                group: h.sshx.group.deep_view(),
                alias: h.sshx.alias.deep_view(),
                description: h.sshx.description.deep_view(),
                port: h.port,
            }),
    {
        HostItem {
            host: h.name.clone(),
            hostname: h.hostname.clone(),
            group: crate::model::clone_opt_string(&h.sshx.group),
            alias: crate::model::clone_opt_string(&h.sshx.alias),
            description: crate::model::clone_opt_string(&h.sshx.description),
            port: h.port,
        }
    }

    /// What the matcher searches.
    pub fn text(&self) -> (r: String)
        ensures
            r@ == item_text(self@),
    {
        let mut s = self.host.clone();
        push_str(&mut s, " ");
        push_str(&mut s, self.hostname.as_str());
        push_str(&mut s, " ");
        push_opt(&mut s, &self.group);
        push_str(&mut s, " ");
        push_opt(&mut s, &self.alias);
        push_str(&mut s, " ");
        push_opt(&mut s, &self.description);
        s
    }

    /// The line shown for the entry.
    pub fn display_text(&self) -> (r: String)
        ensures
            r@ == item_line(self@),
    {
        proof {
            reveal_strlit("");
        }
        let mut s = String::new();
        push_wrapped(&mut s, "[", &self.group, "] ");
        push_str(&mut s, self.host.as_str());
        push_str(&mut s, "  ");
        push_wrapped(&mut s, " (", &self.alias, ")");
        push_str(&mut s, self.hostname.as_str());
        match self.port {
            Some(p) => {
                push_str(&mut s, ":");
                push_dec(&mut s, p as u64);
            },
            None => {},
        }
        push_wrapped(&mut s, " — ", &self.description, "");
        assert(s@ =~= item_line(self@));
        s
    }

    /// The text of the preview pane.
    pub fn preview_text(&self) -> (r: String)
        ensures
            r@ == item_preview(self@),
    {
        proof {
            reveal_strlit("");
        }
        let mut s = "Host: ".to_owned();
        push_str(&mut s, self.host.as_str());
        push_str(&mut s, "\nHostName: ");
        push_str(&mut s, self.hostname.as_str());
        match self.port {
            Some(p) => {
                push_str(&mut s, "\nPort: ");
                push_dec(&mut s, p as u64);
            },
            None => {},
        }
        push_wrapped(&mut s, "\nGroup: ", &self.group, "");
        push_wrapped(&mut s, "\nAlias: ", &self.alias, "");
        push_wrapped(&mut s, "\nDescription: ", &self.description, "");
        assert(s@ =~= item_preview(self@));
        s
    }
}

/// The entries of the selector: one per host, in order.
pub fn host_items(hosts: &Vec<SSHHost>) -> (r: Vec<HostItem>)
    ensures
        r@.len() == hosts@.len(),
        forall|i: int|
            0 <= i < hosts@.len() ==> (#[trigger] r@[i])@ == (ItemModel {
                host: hosts@[i].name@,
                hostname: hosts@[i].hostname@,
                group: hosts@[i].sshx.group.deep_view(),
                alias: hosts@[i].sshx.alias.deep_view(),
                description: hosts@[i].sshx.description.deep_view(),
                port: hosts@[i].port,
            }),
{
    let mut r: Vec<HostItem> = Vec::new();
    for i in 0..hosts.len()
        invariant
            r@.len() == i,
            forall|j: int|
                0 <= j < i ==> (#[trigger] r@[j])@ == (ItemModel {
                    host: hosts@[j].name@,
                    hostname: hosts@[j].hostname@,
                    group: hosts@[j].sshx.group.deep_view(),
                    alias: hosts@[j].sshx.alias.deep_view(),
                    description: hosts@[j].sshx.description.deep_view(),
                    port: hosts@[j].port,
                }),
    {
        r.push(HostItem::from_host(&hosts[i]));
    }
    r
}

/// What the picker's outcome selects: nothing when it was left without a
/// choice; else the name of the host at the position of the entry chosen
/// (nothing for a position no host has). So a name given back always names
/// a host of the list.
pub fn picked_host(hosts: &Vec<SSHHost>, picked: Option<usize>) -> (r: Option<String>)
    ensures
        match picked {
            Some(i) => if i < hosts@.len() {
                r matches Some(n) && n@ == hosts@[i as int].name@
            } else {
                r is None
            },
            None => r is None,
        },
        r matches Some(n) ==> exists|i: int| 0 <= i < hosts@.len() && n@ == hosts@[i].name@,
{
    match picked {
        Some(i) => if i < hosts.len() {
            Some(hosts[i].name.clone())
        } else {
            None
        },
        None => None,
    }
}

} // verus!
