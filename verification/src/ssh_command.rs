//! The `ssh` command line for a host.

use vstd::prelude::*;

use crate::model::{
    clone_forwards, clone_opt_string, forwards_view, ForwardModel, HostModel, LocalForward,
    SSHHost, StrictHostChecking,
};
use crate::text::{dec, push_chars, push_dec, push_str};

verus! {

// ---------------------------------------------------------------------------
// Shell quoting (shell_words)
// ---------------------------------------------------------------------------

/// A character that makes `shell_words::quote` quote a word.
pub open spec fn shell_special(c: char) -> bool {
    ||| c == '\n'
    ||| c == '\''
    ||| c == '|'
    ||| c == '&'
    ||| c == ';'
    ||| c == '<'
    ||| c == '>'
    ||| c == '('
    ||| c == ')'
    ||| c == '$'
    ||| c == '`'
    ||| c == '\\'
    ||| c == '"'
    ||| c == ' '
    ||| c == '\t'
    ||| c == '*'
    ||| c == '?'
    ||| c == '['
    ||| c == '#'
    ||| c == '~'
    ||| c == '='
    ||| c == '%'
}

/// `s` with every single quote written as `'\''`.
pub open spec fn escape_single_quotes(s: Seq<char>) -> Seq<char>
    decreases s.len(),
{
    if s.len() == 0 {
        Seq::empty()
    } else {
        escape_single_quotes(s.drop_last()) + if s.last() == '\'' {
            seq!['\'', '\\', '\'', '\'']
        } else {
            seq![s.last()]
        }
    }
}

/// `shell_words::quote`: an empty word becomes `''`; a word with no
/// special character stays as it is; a word with a newline and no single
/// quote is wrapped in single quotes; any other word is wrapped in single
/// quotes with each single quote inside written as `'\''`.
pub open spec fn shell_quote(s: Seq<char>) -> Seq<char> {
    if s.len() == 0 {
        seq!['\'', '\'']
    } else if forall|i: int| 0 <= i < s.len() ==> !shell_special(#[trigger] s[i]) {
        s
    } else if s.contains('\n') && !s.contains('\'') {
        seq!['\''] + s + seq!['\'']
    } else {
        seq!['\''] + escape_single_quotes(s) + seq!['\'']
    }
}

/// The words `ws` joined by single spaces.
pub open spec fn join_spaced(ws: Seq<Seq<char>>) -> Seq<char>
    decreases ws.len(),
{
    if ws.len() == 0 {
        Seq::empty()
    } else if ws.len() == 1 {
        ws[0]
    } else {
        join_spaced(ws.drop_last()) + seq![' '] + ws.last()
    }
}

/// `shell_words::join`: every word quoted as `shell_quote` does, joined by
/// single spaces.
pub open spec fn shell_join(ws: Seq<Seq<char>>) -> Seq<char> {
    join_spaced(ws.map_values(|w: Seq<char>| shell_quote(w)))
}

/// `shell_words::quote`: the word, quoted for a POSIX shell.
#[verifier::external_body]
pub(crate) fn quote_word(s: &str) -> (r: String)
    ensures
        r@ == shell_quote(s@),
{
    shell_words::quote(s).into_owned()
}

/// `shell_words::join`: the words quoted one by one and joined by single
/// spaces.
#[verifier::external_body]
fn join_words(words: &Vec<String>) -> (r: String)
    ensures
        r@ == shell_join(words@.map_values(|w: String| w@)),
{
    shell_words::join(words)
}

// ---------------------------------------------------------------------------
// The command
// ---------------------------------------------------------------------------

/// The pieces of an `ssh` invocation.
#[derive(Debug, Clone)]
pub struct SSHCommand {
    pub host: String,
    pub port: Option<u16>,
    pub user: Option<String>,
    pub identity_file: Option<String>,
    pub local_forwards: Vec<LocalForward>,
    pub background: bool,
    pub extra_args: Vec<String>,
    pub password: Option<String>,
}

/// Model of an `SSHCommand`.
pub struct CommandModel {
    pub host: Seq<char>,
    pub port: Option<u16>,
    pub user: Option<Seq<char>>,
    pub identity_file: Option<Seq<char>>,
    pub local_forwards: Seq<ForwardModel>,
    pub background: bool,
    pub extra_args: Seq<Seq<char>>,
    pub password: Option<Seq<char>>,
}

impl View for SSHCommand {
    type V = CommandModel;

    open spec fn view(&self) -> CommandModel {
        CommandModel {
            host: self.host@,
            port: self.port,
            user: self.user.deep_view(),
            identity_file: self.identity_file.deep_view(),
            local_forwards: forwards_view(self.local_forwards@),
            background: self.background,
            extra_args: self.extra_args@.map_values(|s: String| s@),
            password: self.password.deep_view(),
        }
    }
}

/// The text of a `StrictHostKeyChecking` value.
pub open spec fn strict_text(s: StrictHostChecking) -> Seq<char> {
    match s {
        StrictHostChecking::Yes => "yes"@,
        StrictHostChecking::No => "no"@,
        StrictHostChecking::Ask => "ask"@,
        StrictHostChecking::AcceptNew => "accept-new"@,
    }
}

/// The `-o` option for an extra `key value` option.
pub open spec fn option_arg(kv: (Seq<char>, Seq<char>)) -> Seq<char> {
    "-o "@ + kv.0 + "="@ + kv.1
}

/// The `-o` arguments for a host: host key checking, known hosts file,
/// then every other option in order.
pub open spec fn extra_args_of(h: HostModel) -> Seq<Seq<char>> {
    (match h.strict_host_checking {
        Some(v) => seq!["-o StrictHostKeyChecking="@ + strict_text(v)],
        None => Seq::empty(),
    }) + (match h.user_known_hosts_file {
        Some(f) => seq!["-o UserKnownHostsFile="@ + f],
        None => Seq::empty(),
    }) + h.extra_options.map_values(|kv: (Seq<char>, Seq<char>)| option_arg(kv))
}

/// The command for a host.
pub open spec fn command_of(h: HostModel) -> CommandModel {
    CommandModel {
        host: h.hostname,
        port: h.port,
        user: h.user,
        identity_file: h.identity_file,
        local_forwards: h.local_forwards,
        background: h.sshx.background,
        extra_args: extra_args_of(h),
        password: h.sshx.password,
    }
}

/// `local:host:remote`.
pub open spec fn forward_text(f: ForwardModel) -> Seq<char> {
    dec(f.local_port as nat) + seq![':'] + f.remote_host + seq![':'] + dec(f.remote_port as nat)
}

/// `-L` and the forward text, for each forward in order.
pub open spec fn forward_args(fs: Seq<ForwardModel>) -> Seq<Seq<char>>
    decreases fs.len(),
{
    if fs.len() == 0 {
        Seq::empty()
    } else {
        forward_args(fs.drop_last()) + seq!["-L"@, forward_text(fs.last())]
    }
}

/// The argument vector of a command: `ssh` (behind `sshpass -p PASSWORD`
/// when there is a password), `-p PORT`, `-i FILE`, the forwards, `-f -N`
/// in background mode, the extra arguments, and `[USER@]HOST`.
pub open spec fn argv(c: CommandModel) -> Seq<Seq<char>> {
    (match c.password {
        Some(p) => seq!["sshpass"@, "-p"@, p, "ssh"@],
        None => seq!["ssh"@],
    }) + (match c.port {
        Some(p) => seq!["-p"@, dec(p as nat)],
        None => Seq::empty(),
    }) + (match c.identity_file {
        Some(f) => seq!["-i"@, f],
        None => Seq::empty(),
    }) + forward_args(c.local_forwards) + (if c.background {
        seq!["-f"@, "-N"@]
    } else {
        Seq::empty()
    }) + c.extra_args + seq![
        match c.user {
            Some(u) => u + seq!['@'] + c.host,
            None => c.host,
        },
    ]
}

/// The models of a list of texts.
pub open spec fn texts_view(v: Seq<String>) -> Seq<Seq<char>> {
    v.map_values(|s: String| s@)
}

/// A text made of a literal.
fn text(lit: &str) -> (r: String)
    ensures
        r@ == lit@,
{
    lit.to_owned()
}

/// Appends `t` to the list of texts `v`.
fn push_text(v: &mut Vec<String>, t: String)
    ensures
        texts_view(final(v)@) == texts_view(old(v)@).push(t@),
{
    let ghost before = texts_view(v@);
    v.push(t);
    assert(texts_view(v@) =~= before.push(t@));
}

impl SSHCommand {
    /// The command that connects to `host`.
    pub fn from_host(host: &SSHHost) -> (r: SSHCommand)
        ensures
            r@ == command_of(host@),
    {
        let mut extra_args: Vec<String> = Vec::new();
        let ghost e0 = texts_view(extra_args@);
        assert(e0 =~= Seq::<Seq<char>>::empty());
        match host.strict_host_checking {
            Some(shc) => {
                let val = match shc {
                    StrictHostChecking::Yes => "yes",
                    StrictHostChecking::No => "no",
                    StrictHostChecking::Ask => "ask",
                    StrictHostChecking::AcceptNew => "accept-new",
                };
                let mut s = text("-o StrictHostKeyChecking=");
                push_str(&mut s, val);
                push_text(&mut extra_args, s);
            },
            None => {},
        }
        let ghost e1 = texts_view(extra_args@);
        match &host.user_known_hosts_file {
            Some(f) => {
                let mut s = text("-o UserKnownHostsFile=");
                push_str(&mut s, f.as_str());
                push_text(&mut extra_args, s);
            },
            None => {},
        }
        let ghost e2 = texts_view(extra_args@);
        let ghost opts = host@.extra_options;
        for i in 0..host.extra_options.len()
            invariant
                opts == host@.extra_options,
                opts.len() == host.extra_options@.len(),
                texts_view(extra_args@) == e2 + opts.take(i as int).map_values(
                    |kv: (Seq<char>, Seq<char>)| option_arg(kv),
                ),
        {
            let (k, v) = &host.extra_options[i];
            assert(opts[i as int] == (k@, v@));
            let mut s = text("-o ");
            push_str(&mut s, k.as_str());
            push_str(&mut s, "=");
            push_str(&mut s, v.as_str());
            let ghost before = texts_view(extra_args@);
            push_text(&mut extra_args, s);
            assert(opts.take(i + 1).map_values(|kv: (Seq<char>, Seq<char>)| option_arg(kv))
                =~= opts.take(i as int).map_values(|kv: (Seq<char>, Seq<char>)| option_arg(kv)).push(
                option_arg(opts[i as int]),
            ));
        }
        assert(opts.take(opts.len() as int) =~= opts);
        assert(texts_view(extra_args@) =~= extra_args_of(host@));
        SSHCommand {
            host: host.hostname.clone(),
            port: host.port,
            user: clone_opt_string(&host.user),
            identity_file: clone_opt_string(&host.identity_file),
            local_forwards: clone_forwards(&host.local_forwards),
            background: host.sshx.background,
            extra_args,
            password: clone_opt_string(&host.sshx.password),
        }
    }

    /// The argument vector of the command.
    #[verifier::rlimit(50)]
    pub fn build_parts(&self) -> (r: Vec<String>)
        ensures
            texts_view(r@) == argv(self@),
    {
        let mut parts: Vec<String> = Vec::new();
        match &self.password {
            Some(password) => {
                push_text(&mut parts, text("sshpass"));
                push_text(&mut parts, text("-p"));
                push_text(&mut parts, password.clone());
                push_text(&mut parts, text("ssh"));
            },
            None => {
                push_text(&mut parts, text("ssh"));
            },
        }
        let ghost p0 = texts_view(parts@);
        assert(p0 =~= (match self@.password {
            Some(p) => seq!["sshpass"@, "-p"@, p, "ssh"@],
            None => seq!["ssh"@],
        }));
        match self.port {
            Some(port) => {
                push_text(&mut parts, text("-p"));
                let mut s = String::new();
                push_dec(&mut s, port as u64);
                push_text(&mut parts, s);
            },
            None => {},
        }
        let ghost p1 = texts_view(parts@);
        assert(p1 =~= p0 + (match self@.port {
            Some(p) => seq!["-p"@, dec(p as nat)],
            None => Seq::empty(),
        }));
        match &self.identity_file {
            Some(f) => {
                push_text(&mut parts, text("-i"));
                push_text(&mut parts, f.clone());
            },
            None => {},
        }
        let ghost p2 = texts_view(parts@);
        assert(p2 =~= p1 + (match self@.identity_file {
            Some(f) => seq!["-i"@, f],
            None => Seq::empty(),
        }));
        let ghost fs = forwards_view(self.local_forwards@);
        for i in 0..self.local_forwards.len()
            invariant
                fs == forwards_view(self.local_forwards@),
                fs.len() == self.local_forwards@.len(),
                texts_view(parts@) == p2 + forward_args(fs.take(i as int)),
        {
            let f = &self.local_forwards[i];
            assert(fs[i as int] == f@);
            let mut s = String::new();
            push_dec(&mut s, f.local_port as u64);
            push_str(&mut s, ":");
            push_str(&mut s, f.remote_host.as_str());
            push_str(&mut s, ":");
            push_dec(&mut s, f.remote_port as u64);
            proof {
                reveal_strlit(":");
            }
            assert(s@ =~= forward_text(f@));
            push_text(&mut parts, text("-L"));
            push_text(&mut parts, s);
            assert(fs.take(i + 1).drop_last() =~= fs.take(i as int));
            assert(p2 + forward_args(fs.take(i + 1)) =~= p2 + forward_args(fs.take(i as int))
                + seq!["-L"@, forward_text(f@)]);
        }
        assert(fs.take(fs.len() as int) =~= fs);
        let ghost p3 = texts_view(parts@);
        if self.background {
            push_text(&mut parts, text("-f"));
            push_text(&mut parts, text("-N"));
        }
        let ghost p4 = texts_view(parts@);
        assert(p4 =~= p3 + (if self@.background {
            seq!["-f"@, "-N"@]
        } else {
            Seq::empty()
        }));
        let ghost xs = self.extra_args@.map_values(|s: String| s@);
        for i in 0..self.extra_args.len()
            invariant
                xs == self.extra_args@.map_values(|s: String| s@),
                xs.len() == self.extra_args@.len(),
                texts_view(parts@) == p4 + xs.take(i as int),
        {
            assert(xs[i as int] == self.extra_args@[i as int]@);
            push_text(&mut parts, self.extra_args[i].clone());
            assert(xs.take(i + 1) =~= xs.take(i as int).push(xs[i as int]));
        }
        assert(xs.take(xs.len() as int) =~= xs);
        let user_host = match &self.user {
            Some(user) => {
                let mut s = user.clone();
                push_str(&mut s, "@");
                push_str(&mut s, self.host.as_str());
                proof {
                    reveal_strlit("@");
                }
                s
            },
            None => self.host.clone(),
        };
        let ghost p5 = texts_view(parts@);
        assert(p5 == p4 + self@.extra_args);
        assert(user_host@ == match self@.user {
            Some(u) => u + seq!['@'] + self@.host,
            None => self@.host,
        });
        push_text(&mut parts, user_host);
        assert(texts_view(parts@) =~= argv(self@));
        parts
    }

    /// The command as one shell line: every argument quoted for the shell,
    /// separated by spaces.
    pub fn build(&self) -> (r: String)
        ensures
            r@ == shell_join(argv(self@)),
    {
        let parts = self.build_parts();
        assert(parts@.map_values(|w: String| w@) == texts_view(parts@));
        join_words(&parts)
    }
}

} // verus!

verus! {

// ---------------------------------------------------------------------------
// Laws
// ---------------------------------------------------------------------------

/// `forward_args` holds `-L` and the forward text for each forward, in
/// order, and nothing else.
proof fn lemma_forward_args(fs: Seq<ForwardModel>)
    ensures
        forward_args(fs).len() == 2 * fs.len(),
        forall|i: int| 0 <= i < fs.len() ==> #[trigger] forward_args(fs)[2 * i] == "-L"@,
        forall|i: int| 0 <= i < fs.len() ==> #[trigger] forward_args(fs)[2 * i + 1] == forward_text(fs[i]),
    decreases fs.len(),
{
    if fs.len() > 0 {
        let d = fs.drop_last();
        lemma_forward_args(d);
        let tail = seq!["-L"@, forward_text(fs.last())];
        assert(forward_args(fs) == forward_args(d) + tail);
        assert forall|i: int| 0 <= i < fs.len() implies #[trigger] forward_args(fs)[2 * i] == "-L"@ by {
            if i < fs.len() - 1 {
                assert(forward_args(d)[2 * i] == "-L"@);
                assert(forward_args(fs)[2 * i] == forward_args(d)[2 * i]);
            } else {
                assert(forward_args(fs)[2 * i] == tail[0]);
            }
        }
        assert forall|i: int| 0 <= i < fs.len() implies #[trigger] forward_args(fs)[2 * i + 1] == forward_text(
            fs[i],
        ) by {
            if i < fs.len() - 1 {
                assert(d[i] == fs[i]);
                assert(forward_args(d)[2 * i + 1] == forward_text(d[i]));
                assert(forward_args(fs)[2 * i + 1] == forward_args(d)[2 * i + 1]);
            } else {
                assert(forward_args(fs)[2 * i + 1] == tail[1]);
            }
        }
    }
}

/// A piece `mid` that stands between `pre` and `post` in `v` is found at
/// the length of `pre`.
proof fn lemma_segment(v: Seq<Seq<char>>, pre: Seq<Seq<char>>, mid: Seq<Seq<char>>, post: Seq<Seq<char>>)
    requires
        v == pre + mid + post,
    ensures
        forall|x: int| 0 <= x < mid.len() ==> pre.len() + x < v.len() && v[pre.len() + x] == #[trigger] mid[x],
{
}

/// The pieces of the argument vector of `c`: the program, the port, the
/// identity file, the forwards, background mode, the extra arguments and
/// the destination.
pub open spec fn argv_pieces(c: CommandModel) -> Seq<Seq<Seq<char>>> {
    seq![
        match c.password {
            Some(p) => seq!["sshpass"@, "-p"@, p, "ssh"@],
            None => seq!["ssh"@],
        },
        match c.port {
            Some(p) => seq!["-p"@, dec(p as nat)],
            None => Seq::empty(),
        },
        match c.identity_file {
            Some(f) => seq!["-i"@, f],
            None => Seq::empty(),
        },
        forward_args(c.local_forwards),
        if c.background {
            seq!["-f"@, "-N"@]
        } else {
            Seq::empty()
        },
        c.extra_args,
        seq![
            match c.user {
                Some(u) => u + seq!['@'] + c.host,
                None => c.host,
            },
        ],
    ]
}

/// The argument vector of `c` is its pieces one after the other.
proof fn lemma_argv_is_pieces(c: CommandModel)
    ensures
        argv(c) == argv_pieces(c)[0] + argv_pieces(c)[1] + argv_pieces(c)[2] + argv_pieces(c)[3]
            + argv_pieces(c)[4] + argv_pieces(c)[5] + argv_pieces(c)[6],
{
}

proof fn lemma_program(c: CommandModel)
    ensures
        match c.password {
            Some(p) => argv(c).take(4) == seq!["sshpass"@, "-p"@, p, "ssh"@],
            None => argv(c)[0] == "ssh"@,
        },
{
    let ps = argv_pieces(c);
    let v = argv(c);
    lemma_argv_is_pieces(c);
    assert(v =~= ps[0] + (ps[1] + ps[2] + ps[3] + ps[4] + ps[5] + ps[6]));
    if c.password is Some {
        assert(v.take(4) =~= ps[0]);
    }
}

proof fn lemma_port(c: CommandModel)
    ensures
        c.port matches Some(p) ==> exists|k: int|
            0 <= k && k + 1 < argv(c).len() && argv(c)[k] == "-p"@ && #[trigger] argv(c)[k + 1] == dec(p as nat),
{
    if let Some(p) = c.port {
        let ps = argv_pieces(c);
        let v = argv(c);
        lemma_argv_is_pieces(c);
        assert(v =~= ps[0] + ps[1] + (ps[2] + ps[3] + ps[4] + ps[5] + ps[6]));
        lemma_segment(v, ps[0], ps[1], ps[2] + ps[3] + ps[4] + ps[5] + ps[6]);
        let k = ps[0].len() as int;
        assert(ps[1][0] == v[k] && ps[1][1] == v[k + 1]);
    }
}

proof fn lemma_identity(c: CommandModel)
    ensures
        c.identity_file matches Some(f) ==> exists|k: int|
            0 <= k && k + 1 < argv(c).len() && argv(c)[k] == "-i"@ && #[trigger] argv(c)[k + 1] == f,
{
    if let Some(f) = c.identity_file {
        let ps = argv_pieces(c);
        let v = argv(c);
        lemma_argv_is_pieces(c);
        assert(v =~= (ps[0] + ps[1]) + ps[2] + (ps[3] + ps[4] + ps[5] + ps[6]));
        lemma_segment(v, ps[0] + ps[1], ps[2], ps[3] + ps[4] + ps[5] + ps[6]);
        let k = (ps[0] + ps[1]).len() as int;
        assert(ps[2][0] == v[k] && ps[2][1] == v[k + 1]);
    }
}

proof fn lemma_background(c: CommandModel)
    ensures
        c.background ==> exists|k: int|
            0 <= k && k + 1 < argv(c).len() && argv(c)[k] == "-f"@ && #[trigger] argv(c)[k + 1] == "-N"@,
{
    if c.background {
        let ps = argv_pieces(c);
        let v = argv(c);
        lemma_argv_is_pieces(c);
        assert(v =~= (ps[0] + ps[1] + ps[2] + ps[3]) + ps[4] + (ps[5] + ps[6]));
        lemma_segment(v, ps[0] + ps[1] + ps[2] + ps[3], ps[4], ps[5] + ps[6]);
        let k = (ps[0] + ps[1] + ps[2] + ps[3]).len() as int;
        assert(ps[4][0] == v[k] && ps[4][1] == v[k + 1]);
    }
}

/// What the SSH command of a host keeps of it: with a password it runs
/// `ssh` through `sshpass -p PASSWORD`, else `ssh` itself; the port is
/// passed as `-p PORT` and the identity file as `-i FILE`; background mode
/// adds `-f -N`; the destination, `user@hostname` or the hostname alone,
/// comes last.
pub proof fn law_command_keeps_host_settings(h: HostModel)
    ensures
        match h.sshx.password {
            Some(p) => argv(command_of(h)).take(4) == seq!["sshpass"@, "-p"@, p, "ssh"@],
            None => argv(command_of(h))[0] == "ssh"@,
        },
        h.port matches Some(p) ==> exists|k: int|
            0 <= k && k + 1 < argv(command_of(h)).len() && argv(command_of(h))[k] == "-p"@ && #[trigger] argv(
                command_of(h),
            )[k + 1] == dec(p as nat),
        h.identity_file matches Some(f) ==> exists|k: int|
            0 <= k && k + 1 < argv(command_of(h)).len() && argv(command_of(h))[k] == "-i"@ && #[trigger] argv(
                command_of(h),
            )[k + 1] == f,
        h.sshx.background ==> exists|k: int|
            0 <= k && k + 1 < argv(command_of(h)).len() && argv(command_of(h))[k] == "-f"@ && #[trigger] argv(
                command_of(h),
            )[k + 1] == "-N"@,
        argv(command_of(h)).last() == match h.user {
            Some(u) => u + seq!['@'] + h.hostname,
            None => h.hostname,
        },
{
    let c = command_of(h);
    lemma_program(c);
    lemma_port(c);
    lemma_identity(c);
    lemma_background(c);
}

/// Every local forward of a host reaches its SSH command as `-L` followed
/// by `local:host:remote`.
pub proof fn law_forwards_are_passed(h: HostModel, i: int)
    requires
        0 <= i < h.local_forwards.len(),
    ensures
        exists|k: int|
            0 <= k && k + 1 < argv(command_of(h)).len() && argv(command_of(h))[k] == "-L"@ && #[trigger] argv(
                command_of(h),
            )[k + 1] == forward_text(h.local_forwards[i]),
{
    let c = command_of(h);
    let ps = argv_pieces(c);
    let v = argv(c);
    lemma_forward_args(h.local_forwards);
    lemma_argv_is_pieces(c);
    assert(v =~= (ps[0] + ps[1] + ps[2]) + ps[3] + (ps[4] + ps[5] + ps[6]));
    lemma_segment(v, ps[0] + ps[1] + ps[2], ps[3], ps[4] + ps[5] + ps[6]);
    let k0 = (ps[0] + ps[1] + ps[2]).len() as int;
    assert(ps[3][2 * i] == v[k0 + 2 * i]);
    assert(ps[3][2 * i + 1] == v[k0 + 2 * i + 1]);
}

/// The host key checking, known hosts file and every other option of a
/// host reach its SSH command as `-o key=value` arguments.
pub proof fn law_options_are_passed(h: HostModel)
    ensures
        h.strict_host_checking matches Some(v) ==> argv(command_of(h)).contains(
            "-o StrictHostKeyChecking="@ + strict_text(v),
        ),
        h.user_known_hosts_file matches Some(f) ==> argv(command_of(h)).contains("-o UserKnownHostsFile="@ + f),
        forall|i: int|
            0 <= i < h.extra_options.len() ==> argv(command_of(h)).contains(
                #[trigger] option_arg(h.extra_options[i]),
            ),
{
    let c = command_of(h);
    let ps = argv_pieces(c);
    let v = argv(c);
    lemma_argv_is_pieces(c);
    assert(v =~= (ps[0] + ps[1] + ps[2] + ps[3] + ps[4]) + ps[5] + ps[6]);
    lemma_segment(v, ps[0] + ps[1] + ps[2] + ps[3] + ps[4], ps[5], ps[6]);
    let k0 = (ps[0] + ps[1] + ps[2] + ps[3] + ps[4]).len() as int;
    let s0 = match h.strict_host_checking {
        Some(x) => seq!["-o StrictHostKeyChecking="@ + strict_text(x)],
        None => Seq::<Seq<char>>::empty(),
    };
    let s1 = match h.user_known_hosts_file {
        Some(f) => seq!["-o UserKnownHostsFile="@ + f],
        None => Seq::<Seq<char>>::empty(),
    };
    let s2 = h.extra_options.map_values(|kv: (Seq<char>, Seq<char>)| option_arg(kv));
    assert(ps[5] == s0 + s1 + s2);
    if let Some(x) = h.strict_host_checking {
        assert(ps[5][0] == v[k0]);
    }
    if let Some(f) = h.user_known_hosts_file {
        assert(ps[5][s0.len() as int] == v[k0 + s0.len()]);
    }
    assert forall|i: int| 0 <= i < h.extra_options.len() implies v.contains(
        #[trigger] option_arg(h.extra_options[i]),
    ) by {
        let x = s0.len() + s1.len() + i;
        assert(ps[5][x] == s2[i]);
        assert(ps[5][x] == v[k0 + x]);
    }
}

} // verus!
