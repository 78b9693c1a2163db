//! The data model: hosts as they are read from an OpenSSH config, with
//! their `## sshx:` annotations and the place they were read from.

use vstd::prelude::*;

verus! {

/// `std::time::SystemTime`, carried through as an opaque value.
#[verifier::external_type_specification]
#[verifier::external_body]
pub struct ExSystemTime(std::time::SystemTime);

/// A fully parsed SSH host with all SSHX annotations resolved.
/// Paths are held as the text they were written with.
#[derive(Debug, Clone)]
pub struct SSHHost {
    pub name: String,
    pub hostname: String,
    pub port: Option<u16>,
    pub user: Option<String>,
    pub identity_file: Option<String>,
    pub local_forwards: Vec<LocalForward>,
    pub strict_host_checking: Option<StrictHostChecking>,
    pub user_known_hosts_file: Option<String>,
    pub extra_options: Vec<(String, String)>,
    pub sshx: SSHXAnnotations,
    pub source: SourceLocation,
}

/// A `LocalForward` directive: `local_port remote_host:remote_port`.
#[derive(Debug, Clone, PartialEq)]
pub struct LocalForward {
    pub local_port: u16,
    pub remote_host: String,
    pub remote_port: u16,
}

/// The values of `StrictHostKeyChecking` that are understood.
#[derive(Debug, Clone, Copy, PartialEq, Eq, Structural)]
pub enum StrictHostChecking {
    Yes,
    No,
    Ask,
    AcceptNew,
}

/// The `## sshx: key = value` annotations of one host block.
#[derive(Debug, Clone, PartialEq)]
pub struct SSHXAnnotations {
    pub group: Option<String>,
    pub password: Option<String>,
    pub requires: Option<String>,
    pub alias: Option<String>,
    pub background: bool,
    pub description: Option<String>,
    pub after_connect: Option<String>,
}

/// Where a host block stands: its file and its 1-based line range.
#[derive(Debug, Clone)]
pub struct SourceLocation {
    pub file: String,
    pub line_start: usize,
    pub line_end: usize,
}

/// Runtime state of a background tunnel.
#[derive(Debug, PartialEq)]
pub struct TunnelProcess {
    pub jump_host: String,
    pub pid: u32,
    pub local_ports: Vec<u16>,
    pub started_at: std::time::SystemTime,
}

/// What is known of a background tunnel.
#[derive(Debug, PartialEq)]
pub enum TunnelStatus {
    NotRunning,
    Running(TunnelProcess),
    PortConflict(u16),
    Failed(String),
}

// ---------------------------------------------------------------------------
// Mathematical models
// ---------------------------------------------------------------------------

/// Model of a `LocalForward`.
pub struct ForwardModel {
    pub local_port: u16,
    pub remote_host: Seq<char>,
    pub remote_port: u16,
}

/// Model of the annotations of a host.
pub struct AnnotationsModel {
    pub group: Option<Seq<char>>,
    pub password: Option<Seq<char>>,
    pub requires: Option<Seq<char>>,
    pub alias: Option<Seq<char>>,
    pub background: bool,
    pub description: Option<Seq<char>>,
    pub after_connect: Option<Seq<char>>,
}

/// Model of a source location.
pub struct SourceModel {
    pub file: Seq<char>,
    pub line_start: usize,
    pub line_end: usize,
}

/// Model of a host.
pub struct HostModel {
    pub name: Seq<char>,
    pub hostname: Seq<char>,
    pub port: Option<u16>,
    pub user: Option<Seq<char>>,
    pub identity_file: Option<Seq<char>>,
    pub local_forwards: Seq<ForwardModel>,
    pub strict_host_checking: Option<StrictHostChecking>,
    pub user_known_hosts_file: Option<Seq<char>>,
    pub extra_options: Seq<(Seq<char>, Seq<char>)>,
    pub sshx: AnnotationsModel,
    pub source: SourceModel,
}

impl View for LocalForward {
    type V = ForwardModel;

    open spec fn view(&self) -> ForwardModel {
        ForwardModel {
            local_port: self.local_port,
            remote_host: self.remote_host@,
            remote_port: self.remote_port,
        }
    }
}

impl View for SSHXAnnotations {
    type V = AnnotationsModel;

    open spec fn view(&self) -> AnnotationsModel {
        AnnotationsModel {
            group: self.group.deep_view(),
            password: self.password.deep_view(),
            requires: self.requires.deep_view(),
            alias: self.alias.deep_view(),
            background: self.background,
            description: self.description.deep_view(),
            after_connect: self.after_connect.deep_view(),
        }
    }
}

impl View for SourceLocation {
    type V = SourceModel;

    open spec fn view(&self) -> SourceModel {
        SourceModel { file: self.file@, line_start: self.line_start, line_end: self.line_end }
    }
}

/// The models of a list of forwards.
pub open spec fn forwards_view(v: Seq<LocalForward>) -> Seq<ForwardModel> {
    v.map_values(|f: LocalForward| f@)
}

/// The models of a list of `key value` options.
pub open spec fn options_view(v: Seq<(String, String)>) -> Seq<(Seq<char>, Seq<char>)> {
    v.map_values(|p: (String, String)| (p.0@, p.1@))
}

impl View for SSHHost {
    type V = HostModel;

    open spec fn view(&self) -> HostModel {
        HostModel {
            name: self.name@,
            hostname: self.hostname@,
            port: self.port,
            user: self.user.deep_view(),
            identity_file: self.identity_file.deep_view(),
            local_forwards: forwards_view(self.local_forwards@),
            strict_host_checking: self.strict_host_checking,
            user_known_hosts_file: self.user_known_hosts_file.deep_view(),
            extra_options: options_view(self.extra_options@),
            sshx: self.sshx@,
            source: self.source@,
        }
    }
}

/// The models of a list of hosts.
pub open spec fn hosts_view(v: Seq<SSHHost>) -> Seq<HostModel> {
    v.map_values(|h: SSHHost| h@)
}

/// Annotations with nothing set.
pub open spec fn empty_annotations() -> AnnotationsModel {
    AnnotationsModel {
        group: None,
        password: None,
        requires: None,
        alias: None,
        background: false,
        description: None,
        after_connect: None,
    }
}

/// A host with the given name, nothing else set, read from `file` at
/// `line_start`; its end is not known yet.
pub open spec fn fresh_host(name: Seq<char>, file: Seq<char>, line_start: usize) -> HostModel {
    HostModel {
        name,
        hostname: Seq::empty(),
        port: None,
        user: None,
        identity_file: None,
        local_forwards: Seq::empty(),
        strict_host_checking: None,
        user_known_hosts_file: None,
        extra_options: Seq::empty(),
        sshx: empty_annotations(),
        source: SourceModel { file, line_start, line_end: 0 },
    }
}

// ---------------------------------------------------------------------------
// Defaults and copies
// ---------------------------------------------------------------------------

impl Default for SSHXAnnotations {
    fn default() -> (r: Self)
        ensures
            r@ == empty_annotations(),
    {
        SSHXAnnotations {
            group: None,
            password: None,
            requires: None,
            alias: None,
            background: false,
            description: None,
            after_connect: None,
        }
    }
}

impl Default for SourceLocation {
    fn default() -> (r: Self)
        ensures
            r@ == (SourceModel { file: Seq::empty(), line_start: 0, line_end: 0 }),
    {
        SourceLocation { file: String::new(), line_start: 0, line_end: 0 }
    }
}

impl Default for SSHHost {
    fn default() -> (r: Self)
        ensures
            r@ == fresh_host(Seq::empty(), Seq::empty(), 0),
    {
        let r = SSHHost {
            name: String::new(),
            hostname: String::new(),
            port: None,
            user: None,
            identity_file: None,
            local_forwards: Vec::new(),
            strict_host_checking: None,
            user_known_hosts_file: None,
            extra_options: Vec::new(),
            sshx: SSHXAnnotations::default(),
            source: SourceLocation::default(),
        };
        assert(forwards_view(r.local_forwards@) =~= Seq::empty());
        assert(options_view(r.extra_options@) =~= Seq::empty());
        r
    }
}

/// A copy of an optional text.
pub fn clone_opt_string(o: &Option<String>) -> (r: Option<String>)
    ensures
        r.deep_view() == o.deep_view(),
{
    match o {
        Some(s) => Some(s.clone()),
        None => None,
    }
}

/// A copy of a forward.
pub fn clone_forward(f: &LocalForward) -> (r: LocalForward)
    ensures
        r@ == f@,
{
    LocalForward {
        local_port: f.local_port,
        remote_host: f.remote_host.clone(),
        remote_port: f.remote_port,
    }
}

/// A copy of a list of forwards.
pub fn clone_forwards(v: &Vec<LocalForward>) -> (r: Vec<LocalForward>)
    ensures
        forwards_view(r@) == forwards_view(v@),
{
    let mut r: Vec<LocalForward> = Vec::new();
    for i in 0..v.len()
        invariant
            r@.len() == i,
            forall|j: int| 0 <= j < i ==> #[trigger] r@[j]@ == v@[j]@,
    {
        r.push(clone_forward(&v[i]));
    }
    assert(forwards_view(r@) =~= forwards_view(v@));
    r
}

} // verus!
