//! The decisions of `sshx [HOST]` and `sshx connect [HOST]`: which host to
//! connect to (or whether to ask through the selector), what to run, and
//! what the outcome of `ssh` means. Running the selector, the tunnel and
//! the command is left to the caller.

use vstd::prelude::*;

use crate::cli::{Cli, Commands, ConfigAction};
use crate::error::{ErrorView, SshxError};
use crate::index::{aliases_view, first_named, resolution, ConfigIndex};
use crate::model::{hosts_view, HostModel, SSHHost};
use crate::ssh_command::{argv, command_of, shell_join, texts_view, SSHCommand};
use crate::text::{eq_string, push_str};

verus! {

// ---------------------------------------------------------------------------
// The command line
// ---------------------------------------------------------------------------

/// What the command line asks for.
#[derive(Debug)]
pub enum Route {
    /// Connect, to the host named if one is.
    Connect(Option<String>),
    Config(ConfigAction),
    Version,
}

/// What `sshx` does for a command line: a bare `sshx [HOST]` connects; so
/// does `sshx connect [HOST]`, taking the host named after `connect`, else
/// the one named before it.
pub fn route(cli: &Cli) -> (r: Route)
    ensures
        match cli.command {
            None => r matches Route::Connect(h) && h.deep_view() == cli.host_alias.deep_view(),
            Some(Commands::Connect { host_alias }) => r matches Route::Connect(h) && h.deep_view() == match host_alias {
                Some(a) => Some(a@),
                None => cli.host_alias.deep_view(),
            },
            Some(Commands::Config { action }) => r matches Route::Config(a) && a@ == action@,
            Some(Commands::Version) => r is Version,
        },
{
    match &cli.command {
        None => Route::Connect(crate::model::clone_opt_string(&cli.host_alias)),
        Some(Commands::Connect { host_alias }) => match host_alias {
            Some(a) => Route::Connect(Some(a.clone())),
            None => Route::Connect(crate::model::clone_opt_string(&cli.host_alias)),
        },
        Some(Commands::Config { action }) => Route::Config(action.copy()),
        Some(Commands::Version) => Route::Version,
    }
}

// ---------------------------------------------------------------------------
// Which host
// ---------------------------------------------------------------------------

/// Where a connection goes: to the host at a position of the index, or to
/// the selector, with the input as its query if there was one.
#[derive(Debug)]
pub enum ConnectTarget {
    Host(usize),
    Select(Option<String>),
}

/// The position of the first host named `name`.
pub fn host_position(index: &ConfigIndex, name: &str) -> (r: Option<usize>)
    ensures
        match first_named(hosts_view(index.hosts@), name@, 0) {
            Some(i) => r == Some(i as usize),
            None => r is None,
        },
{
    let ghost hv = hosts_view(index.hosts@);
    let name_s = name.to_owned();
    let mut i: usize = 0;
    while i < index.hosts.len()
        invariant
            i <= index.hosts@.len(),
            hv == hosts_view(index.hosts@),
            name_s@ == name@,
            first_named(hv, name@, 0) == first_named(hv, name@, i as int),
        decreases index.hosts@.len() - i,
    {
        assert(hv[i as int] == index.hosts@[i as int]@);
        if eq_string(&index.hosts[i].name, &name_s) {
            return Some(i);
        }
        i = i + 1;
    }
    None
}

/// The position of the host `input` names, through its alias if it is one,
/// else by host name (as `ConfigIndex::resolve_alias`).
pub fn resolve_position(index: &ConfigIndex, input: &str) -> (r: Option<usize>)
    ensures
        match resolution(hosts_view(index.hosts@), aliases_view(index.aliases@), input@) {
            Some(i) => r == Some(i as usize),
            None => r is None,
        },
{
    let ghost al = aliases_view(index.aliases@);
    let input_s = input.to_owned();
    let mut i: usize = 0;
    while i < index.aliases.len()
        invariant
            i <= index.aliases@.len(),
            al == aliases_view(index.aliases@),
            input_s@ == input@,
            crate::index::alias_lookup(al, input@, 0) == crate::index::alias_lookup(al, input@, i as int),
        decreases index.aliases@.len() - i,
    {
        assert(al[i as int] == (index.aliases@[i as int].0@, index.aliases@[i as int].1));
        if eq_string(&index.aliases[i].0, &input_s) {
            let t = index.aliases[i].1;
            if t < index.hosts.len() {
                return Some(t);
            } else {
                return None;
            }
        }
        i = i + 1;
    }
    host_position(index, input)
}

/// Where `sshx [input]` connects: no input opens the selector; an input
/// that names a host (by alias, then by name) goes there; any other input
/// opens the selector with the input as query.
pub fn connect_target(index: &ConfigIndex, input: Option<&str>) -> (r: ConnectTarget)
    ensures
        match input {
            None => r matches ConnectTarget::Select(q) && q is None,
            Some(s) => match resolution(hosts_view(index.hosts@), aliases_view(index.aliases@), s@) {
                Some(i) => r == ConnectTarget::Host(i as usize),
                None => r matches ConnectTarget::Select(q) && q matches Some(t) && t@ == s@,
            },
        },
{
    match input {
        None => ConnectTarget::Select(None),
        Some(s) => match resolve_position(index, s) {
            Some(i) => ConnectTarget::Host(i),
            None => ConnectTarget::Select(Some(s.to_owned())),
        },
    }
}

// ---------------------------------------------------------------------------
// What to run
// ---------------------------------------------------------------------------

/// The host that `h` requires, by position: the first host with the
/// required name.
pub open spec fn jump_of(hosts: Seq<HostModel>, h: HostModel) -> Option<int> {
    match h.sshx.requires {
        Some(r) => first_named(hosts, r, 0),
        None => None,
    }
}

/// What connecting to a host takes: the host whose tunnel must be up
/// first, the argument vector of `ssh`, the same as one shell line, what
/// `--dry-run` prints, and the command to run after `ssh` succeeds.
#[derive(Debug)]
pub struct ConnectPlan {
    pub jump_host: Option<usize>,
    pub parts: Vec<String>,
    pub command: String,
    pub dry_run_text: String,
    pub after_connect: Option<String>,
    pub uses_sshpass: bool,
}

/// The plan for connecting to the host at `pos`.
pub fn plan_connect(index: &ConfigIndex, pos: usize) -> (r: ConnectPlan)
    requires
        pos < index.hosts@.len(),
    ensures
        match jump_of(hosts_view(index.hosts@), index.hosts@[pos as int]@) {
            Some(j) => r.jump_host == Some(j as usize),
            None => r.jump_host is None,
        },
        texts_view(r.parts@) == argv(command_of(index.hosts@[pos as int]@)),
        r.command@ == shell_join(argv(command_of(index.hosts@[pos as int]@))),
        r.dry_run_text@ == "Command: "@ + r.command@,
        r.after_connect.deep_view() == index.hosts@[pos as int]@.sshx.after_connect,
        r.uses_sshpass == index.hosts@[pos as int]@.sshx.password is Some,
{
    let host: &SSHHost = &index.hosts[pos];
    let cmd = SSHCommand::from_host(host);
    let parts = cmd.build_parts();
    let command = cmd.build();
    let mut dry_run_text = "Command: ".to_owned();
    push_str(&mut dry_run_text, command.as_str());
    let jump_host = match &host.sshx.requires {
        Some(req) => host_position(index, req.as_str()),
        None => None,
    };
    ConnectPlan {
        jump_host,
        parts,
        command,
        dry_run_text,
        after_connect: crate::model::clone_opt_string(&host.sshx.after_connect),
        uses_sshpass: host.sshx.password.is_some(),
    }
}

// ---------------------------------------------------------------------------
// What came of it
// ---------------------------------------------------------------------------

/// How the `ssh` (or `sshpass`) process ended.
#[derive(Debug)]
pub enum SshExit {
    Success,
    /// It ran and failed, with its exit code if it has one.
    Failed(Option<i32>),
    /// The program could not be found.
    ProgramMissing,
}

/// What follows the end of `ssh`: on success the `after_connect` command
/// if there is one; a failure with its exit code; a missing program as
/// `sshpass` or `ssh` not found, whichever the command starts with.
pub fn after_ssh(plan: &ConnectPlan, exit: SshExit) -> (r: Result<Option<String>, SshxError>)
    ensures
        match exit {
            SshExit::Success => r matches Ok(c) && c.deep_view() == plan.after_connect.deep_view(),
            SshExit::Failed(code) => r matches Err(e) && e@ == (ErrorView::SshCommandFailed { exit_code: code }),
            SshExit::ProgramMissing => r matches Err(e) && e@ == if plan.uses_sshpass {
                ErrorView::SshpassNotFound
            } else {
                ErrorView::SshNotFound
            },
        },
{
    match exit {
        SshExit::Success => Ok(crate::model::clone_opt_string(&plan.after_connect)),
        SshExit::Failed(code) => Err(SshxError::SshCommandFailed { exit_code: code }),
        SshExit::ProgramMissing => if plan.uses_sshpass {
            Err(SshxError::SshpassNotFound)
        } else {
            Err(SshxError::SshNotFound)
        },
    }
}

} // verus!
