//! What the `sshx config` subcommands compute: the host added by the
//! wizard, the text left when a host is removed, the editor command line,
//! the listing of hosts and the description of one host. Reading input,
//! writing files and printing are left to the caller.

use vstd::prelude::*;

use crate::error::{ErrorView, SshxError};
use crate::index::{
    groups_of, hosts_at, key_position, lemma_groups_of, lemma_key_position, lemma_positions_in_group,
    positions_in_group, aliases_view, first_named, group_entries, resolution, group_listing, group_map_get_index, group_map_len, host_refs_view, ConfigIndex,
};
use crate::model::{
    forwards_view, hosts_view, AnnotationsModel, ForwardModel, HostModel, SSHHost, SourceModel, StrictHostChecking,
};
use crate::ssh_command::{quote_word, shell_quote, strict_text};
use crate::text::{
    chars_of, dec, join_strings, join_with, lines, lines_vec, parse_u16, parse_u16_vec, push_char, push_dec,
    push_str, seqs_view, string_of,
};
use vstd::utf8::encode_utf8;

verus! {

// ---------------------------------------------------------------------------
// Removing a host block
// ---------------------------------------------------------------------------

/// Among the first `k` lines of `ls`, those whose 1-based number lies
/// outside `start..=end`, in order.
pub open spec fn lines_kept(ls: Seq<Seq<char>>, start: int, end: int, k: int) -> Seq<Seq<char>>
    decreases k,
{
    if k <= 0 {
        Seq::empty()
    } else {
        lines_kept(ls, start, end, k - 1) + if k < start || k > end {
            seq![ls[k - 1]]
        } else {
            Seq::empty()
        }
    }
}

/// The text `content` without its lines `start..=end` (1-based): the other
/// lines joined by `'\n'`.
pub open spec fn without_lines(content: Seq<char>, start: int, end: int) -> Seq<char> {
    join_with(lines_kept(lines(content), start, end, lines(content).len() as int), "\n"@)
}

/// The config text `content` once the lines `line_start..=line_end` of a
/// host block are taken out.
pub fn remove_host_lines(content: &str, line_start: usize, line_end: usize) -> (r: String)
    ensures
        r@ == without_lines(content@, line_start as int, line_end as int),
{
    let v = chars_of(content);
    let ls = lines_vec(&v);
    let ghost lv = seqs_view(ls@);
    let mut kept: Vec<String> = Vec::new();
    let mut i: usize = 0;
    while i < ls.len()
        invariant
            i <= ls@.len(),
            lv == seqs_view(ls@),
            lv == lines(content@),
            kept@.map_values(|s: String| s@) == lines_kept(lv, line_start as int, line_end as int, i as int),
        decreases ls@.len() - i,
    {
        let num = i + 1;
        let ghost before = kept@.map_values(|s: String| s@);
        if num < line_start || num > line_end {
            let line = string_of(&ls[i]);
            kept.push(line);
            assert(kept@.map_values(|s: String| s@) =~= before.push(lv[i as int]));
        } else {
            assert(kept@.map_values(|s: String| s@) =~= before + Seq::<Seq<char>>::empty());
        }
        i = i + 1;
    }
    join_strings(&kept, "\n")
}

// ---------------------------------------------------------------------------
// Adding a host
// ---------------------------------------------------------------------------

/// What the wizard of `sshx config add` asks for. Empty texts stand for
/// answers left out.
#[derive(Debug)]
pub struct NewHost {
    pub name: String,
    pub hostname: String,
    pub port: u16,
    pub user: String,
    pub group: String,
    pub description: String,
    pub alias: String,
}

/// Model of a `NewHost`.
pub struct NewHostModel {
    pub name: Seq<char>,
    pub hostname: Seq<char>,
    pub port: u16,
    pub user: Seq<char>,
    pub group: Seq<char>,
    pub description: Seq<char>,
    pub alias: Seq<char>,
}

impl View for NewHost {
    type V = NewHostModel;

    open spec fn view(&self) -> NewHostModel {
        NewHostModel {
            name: self.name@,
            hostname: self.hostname@,
            port: self.port,
            user: self.user@,
            group: self.group@,
            description: self.description@,
            alias: self.alias@,
        }
    }
}

/// `line` alone when `cond` holds, else nothing.
pub open spec fn line_if(cond: bool, line: Seq<char>) -> Seq<Seq<char>> {
    if cond {
        seq![line]
    } else {
        Seq::empty()
    }
}

/// The lines of the block for a new host: `Host` and `HostName`, `Port`
/// unless it is 22, `User`, and the group, description and alias
/// annotations when given, then an empty line.
pub open spec fn new_host_lines(h: NewHostModel) -> Seq<Seq<char>> {
    seq!["Host "@ + h.name, "    HostName "@ + h.hostname]
        + line_if(h.port != 22, "    Port "@ + dec(h.port as nat))
        + line_if(h.user.len() > 0, "    User "@ + h.user)
        + line_if(h.group.len() > 0, "    ## sshx: group = "@ + h.group)
        + line_if(h.description.len() > 0, "    ## sshx: description = \""@ + h.description + "\""@)
        + line_if(h.alias.len() > 0, "    ## sshx: alias = "@ + h.alias)
        + seq![Seq::<char>::empty()]
}

/// The block for a new host: its lines joined by `'\n'`.
pub open spec fn new_host_block(h: NewHostModel) -> Seq<char> {
    join_with(new_host_lines(h), "\n"@)
}

/// A text made of a literal and a text.
fn text2(lit: &str, t: &str) -> (r: String)
    ensures
        r@ == lit@ + t@,
{
    let mut s = lit.to_owned();
    push_str(&mut s, t);
    s
}

/// Appends `t` to the texts `v` when `cond` holds.
fn push_line_if(v: &mut Vec<String>, cond: bool, t: String)
    ensures
        final(v)@.map_values(|s: String| s@) == old(v)@.map_values(|s: String| s@) + line_if(cond, t@),
{
    let ghost before = v@.map_values(|s: String| s@);
    if cond {
        v.push(t);
        assert(v@.map_values(|s: String| s@) =~= before + seq![t@]);
    } else {
        assert(v@.map_values(|s: String| s@) =~= before + Seq::<Seq<char>>::empty());
    }
}

/// The config block that `sshx config add` appends for `h`.
pub fn render_new_host(h: &NewHost) -> (r: String)
    ensures
        r@ == new_host_block(h@),
{
    let mut lines: Vec<String> = Vec::new();
    lines.push(text2("Host ", h.name.as_str()));
    lines.push(text2("    HostName ", h.hostname.as_str()));
    let ghost l0 = lines@.map_values(|s: String| s@);
    assert(l0 =~= seq!["Host "@ + h.name@, "    HostName "@ + h.hostname@]);
    let mut port_line = "    Port ".to_owned();
    push_dec(&mut port_line, h.port as u64);
    push_line_if(&mut lines, h.port != 22, port_line);
    push_line_if(&mut lines, !h.user.as_str().is_empty(), text2("    User ", h.user.as_str()));
    push_line_if(&mut lines, !h.group.as_str().is_empty(), text2("    ## sshx: group = ", h.group.as_str()));
    let mut desc_line = text2("    ## sshx: description = \"", h.description.as_str());
    push_str(&mut desc_line, "\"");
    push_line_if(&mut lines, !h.description.as_str().is_empty(), desc_line);
    push_line_if(&mut lines, !h.alias.as_str().is_empty(), text2("    ## sshx: alias = ", h.alias.as_str()));
    let ghost l1 = lines@.map_values(|s: String| s@);
    lines.push(String::new());
    assert(lines@.map_values(|s: String| s@) =~= l1.push(Seq::<char>::empty()));
    assert(lines@.map_values(|s: String| s@) =~= new_host_lines(h@));
    join_strings(&lines, "\n")
}

/// `existing` with `block` after it, on a line of its own.
pub open spec fn appended(existing: Seq<char>, block: Seq<char>) -> Seq<char> {
    if existing.len() == 0 || existing.last() == '\n' {
        existing + block
    } else {
        existing + seq!['\n'] + block
    }
}

/// Appends `block` to the config text `existing`, starting a new line
/// first if `existing` does not end with one.
pub fn append_block(existing: &str, block: &str) -> (r: String)
    ensures
        r@ == appended(existing@, block@),
{
    let v = chars_of(existing);
    let mut r = existing.to_owned();
    if v.len() > 0 && v[v.len() - 1] != '\n' {
        push_char(&mut r, '\n');
    }
    push_str(&mut r, block);
    r
}

/// Why a new host cannot be named `name`: it holds a space or a tab, or a
/// host of that name exists.
pub open spec fn new_name_fault(hosts: Seq<crate::model::HostModel>, name: Seq<char>) -> Option<ErrorView> {
    if name.contains(' ') || name.contains('\t') {
        Some(ErrorView::InvalidHostName { name })
    } else if first_named(hosts, name, 0) is Some {
        Some(ErrorView::HostAlreadyExists { name })
    } else {
        None
    }
}

/// Law: a name for a new host is refused as invalid exactly when it holds
/// a space or a tab; a name without them is refused as taken exactly when
/// some host already has it, and is accepted otherwise.
pub proof fn law_new_host_name(hosts: Seq<crate::model::HostModel>, name: Seq<char>)
    ensures
        (new_name_fault(hosts, name) == Some(ErrorView::InvalidHostName { name })) <==> (name.contains(' ')
            || name.contains('\t')),
        (new_name_fault(hosts, name) == Some(ErrorView::HostAlreadyExists { name })) <==> (!name.contains(' ')
            && !name.contains('\t') && exists|i: int| 0 <= i < hosts.len() && hosts[i].name == name),
        new_name_fault(hosts, name) is None <==> (!name.contains(' ') && !name.contains('\t') && forall|i: int|
            0 <= i < hosts.len() ==> hosts[i].name != name),
{
    crate::index::lemma_first_named(hosts, name, 0);
}

/// Checks the name given for a new host.
pub fn check_new_host_name(index: &ConfigIndex, name: &str) -> (r: Result<(), SshxError>)
    ensures
        match new_name_fault(hosts_view(index.hosts@), name@) {
            Some(e) => r matches Err(x) && x@ == e,
            None => r is Ok,
        },
{
    let v = chars_of(name);
    let mut i: usize = 0;
    while i < v.len()
        invariant
            i <= v@.len(),
            v@ == name@,
            forall|j: int| 0 <= j < i ==> v@[j] != ' ' && v@[j] != '\t',
        decreases v@.len() - i,
    {
        if v[i] == ' ' || v[i] == '\t' {
            assert(name@.contains(v@[i as int]));
            return Err(SshxError::InvalidHostName { name: name.to_owned() });
        }
        i = i + 1;
    }
    assert(!name@.contains(' ') && !name@.contains('\t'));
    if index.find_host(name).is_some() {
        return Err(SshxError::HostAlreadyExists { name: name.to_owned() });
    }
    Ok(())
}

/// Reads the port answered to the wizard.
pub fn parse_port_input(input: &str) -> (r: Result<u16, SshxError>)
    ensures
        match parse_u16(input@) {
            Some(p) => r == Ok::<u16, SshxError>(p),
            None => r matches Err(x) && x@ == (ErrorView::InvalidPort { input: input@ }),
        },
{
    let v = chars_of(input);
    match parse_u16_vec(&v) {
        Some(p) => Ok(p),
        None => Err(SshxError::InvalidPort { input: input.to_owned() }),
    }
}

// ---------------------------------------------------------------------------
// Showing a host
// ---------------------------------------------------------------------------

/// `prefix` and the value, as a line, when there is a value.
pub open spec fn opt_line(prefix: Seq<char>, o: Option<Seq<char>>) -> Seq<Seq<char>> {
    match o {
        Some(x) => seq![prefix + x],
        None => Seq::empty(),
    }
}

/// The `LocalForward` lines of `fs`, in order.
pub open spec fn forward_lines(fs: Seq<ForwardModel>) -> Seq<Seq<char>>
    decreases fs.len(),
{
    if fs.len() == 0 {
        Seq::empty()
    } else {
        forward_lines(fs.drop_last()) + seq![
            "  LocalForward "@ + dec(fs.last().local_port as nat) + " "@ + fs.last().remote_host + ":"@
                + dec(fs.last().remote_port as nat),
        ]
    }
}

/// The lines of the other options, `key value`, in order.
pub open spec fn option_lines(kvs: Seq<(Seq<char>, Seq<char>)>) -> Seq<Seq<char>> {
    kvs.map_values(|kv: (Seq<char>, Seq<char>)| "  "@ + kv.0 + " "@ + kv.1)
}

/// The SSH settings of a host as `sshx config show` prints them.
pub open spec fn show_settings(h: HostModel) -> Seq<Seq<char>> {
    seq!["  HostName "@ + h.hostname]
        + (match h.port {
        Some(p) => seq!["  Port "@ + dec(p as nat)],
        None => Seq::empty(),
    })
        + opt_line("  User "@, h.user)
        + opt_line("  IdentityFile "@, h.identity_file)
        + forward_lines(h.local_forwards)
        + (match h.strict_host_checking {
        Some(v) => seq!["  StrictHostKeyChecking "@ + strict_text(v)],
        None => Seq::empty(),
    })
        + opt_line("  UserKnownHostsFile "@, h.user_known_hosts_file)
        + option_lines(h.extra_options)
}

/// One `*` for each byte of the UTF-8 form of `pw`.
pub open spec fn password_mask(pw: Seq<char>) -> Seq<char> {
    Seq::new((encode_utf8(pw).len() as usize) as nat, |i: int| '*')
}

/// The annotations of a host as `sshx config show` prints them, each after
/// a `##` marker; the password is masked.
pub open spec fn show_annotations(a: AnnotationsModel) -> Seq<Seq<char>> {
    opt_line("sshx: group = "@, a.group)
        + opt_line("sshx: alias = "@, a.alias)
        + (match a.description {
        Some(d) => seq!["sshx: description = \""@ + d + "\""@],
        None => Seq::empty(),
    })
        + (match a.password {
        Some(pw) => seq!["sshx: password = "@ + password_mask(pw)],
        None => Seq::empty(),
    })
        + opt_line("sshx: requires = "@, a.requires)
        + line_if(a.background, "sshx: background = true"@)
        + (match a.after_connect {
        Some(c) => seq!["sshx: after_connect = \""@ + c + "\""@],
        None => Seq::empty(),
    })
}

/// The source line of a host: `file:start-end`.
pub open spec fn show_source(src: SourceModel) -> Seq<char> {
    "  Source: "@ + src.file + ":"@ + dec(src.line_start as nat) + "-"@ + dec(src.line_end as nat)
}

/// What `sshx config show` prints of a host: a title, the settings, the
/// annotations and where the block stands.
#[derive(Debug)]
pub struct ShowBlock {
    pub title: String,
    pub settings: Vec<String>,
    pub annotations: Vec<String>,
    pub source: String,
}

/// The models of a list of texts.
pub open spec fn texts(v: Seq<String>) -> Seq<Seq<char>> {
    v.map_values(|s: String| s@)
}

/// Appends `t` to `v`.
fn push_text(v: &mut Vec<String>, t: String)
    ensures
        texts(final(v)@) == texts(old(v)@).push(t@),
{
    let ghost before = texts(v@);
    v.push(t);
    assert(texts(v@) =~= before.push(t@));
}

/// Appends the line `prefix` and value when there is a value.
fn push_opt_line(v: &mut Vec<String>, prefix: &str, o: &Option<String>)
    ensures
        texts(final(v)@) == texts(old(v)@) + opt_line(prefix@, o.deep_view()),
{
    let ghost before = texts(v@);
    match o {
        Some(x) => {
            push_text(v, text2(prefix, x.as_str()));
            assert(texts(v@) =~= before + seq![prefix@ + x@]);
        },
        None => {
            assert(texts(v@) =~= before + Seq::<Seq<char>>::empty());
        },
    }
}

/// The password mask.
fn mask(pw: &str) -> (r: String)
    ensures
        r@ == password_mask(pw@),
{
    let n = pw.len();
    let mut r = String::new();
    let mut i: usize = 0;
    while i < n
        invariant
            i <= n,
            n == (encode_utf8(pw@).len() as usize),
            r@ == Seq::new(i as nat, |k: int| '*'),
        decreases n - i,
    {
        push_char(&mut r, '*');
        assert(r@ =~= Seq::new((i + 1) as nat, |k: int| '*'));
        i = i + 1;
    }
    r
}

/// What `sshx config show` prints of `host`.
#[verifier::rlimit(40)]
pub fn show_block(host: &SSHHost) -> (r: ShowBlock)
    ensures
        r.title@ == "Host "@ + host.name@,
        texts(r.settings@) == show_settings(host@),
        texts(r.annotations@) == show_annotations(host.sshx@),
        r.source@ == show_source(host.source@),
{
    let h = host;
    let mut st: Vec<String> = Vec::new();
    push_text(&mut st, text2("  HostName ", h.hostname.as_str()));
    let ghost s0 = texts(st@);
    match h.port {
        Some(p) => {
            let mut l = "  Port ".to_owned();
            push_dec(&mut l, p as u64);
            push_text(&mut st, l);
        },
        None => {},
    }
    assert(texts(st@) =~= s0 + (match h@.port {
        Some(p) => seq!["  Port "@ + dec(p as nat)],
        None => Seq::empty(),
    }));
    push_opt_line(&mut st, "  User ", &h.user);
    push_opt_line(&mut st, "  IdentityFile ", &h.identity_file);
    let ghost s1 = texts(st@);
    let ghost fs = forwards_view(h.local_forwards@);
    for i in 0..h.local_forwards.len()
        invariant
            fs == forwards_view(h.local_forwards@),
            fs.len() == h.local_forwards@.len(),
            texts(st@) == s1 + forward_lines(fs.take(i as int)),
    {
        let f = &h.local_forwards[i];
        assert(fs[i as int] == f@);
        let mut l = "  LocalForward ".to_owned();
        push_dec(&mut l, f.local_port as u64);
        push_str(&mut l, " ");
        push_str(&mut l, f.remote_host.as_str());
        push_str(&mut l, ":");
        push_dec(&mut l, f.remote_port as u64);
        push_text(&mut st, l);
        assert(fs.take(i + 1).drop_last() =~= fs.take(i as int));
        assert(s1 + forward_lines(fs.take(i + 1)) =~= s1 + forward_lines(fs.take(i as int)) + seq![
            "  LocalForward "@ + dec(f@.local_port as nat) + " "@ + f@.remote_host + ":"@ + dec(
                f@.remote_port as nat,
            ),
        ]);
    }
    assert(fs.take(fs.len() as int) =~= fs);
    let ghost s2 = texts(st@);
    match h.strict_host_checking {
        Some(v) => {
            let val = match v {
                StrictHostChecking::Yes => "yes",
                StrictHostChecking::No => "no",
                StrictHostChecking::Ask => "ask",
                StrictHostChecking::AcceptNew => "accept-new",
            };
            push_text(&mut st, text2("  StrictHostKeyChecking ", val));
        },
        None => {},
    }
    assert(texts(st@) =~= s2 + (match h@.strict_host_checking {
        Some(v) => seq!["  StrictHostKeyChecking "@ + strict_text(v)],
        None => Seq::empty(),
    }));
    push_opt_line(&mut st, "  UserKnownHostsFile ", &h.user_known_hosts_file);
    let ghost s3 = texts(st@);
    let ghost kvs = h@.extra_options;
    for i in 0..h.extra_options.len()
        invariant
            kvs == h@.extra_options,
            kvs.len() == h.extra_options@.len(),
            texts(st@) == s3 + option_lines(kvs.take(i as int)),
    {
        let (k, v) = &h.extra_options[i];
        assert(kvs[i as int] == (k@, v@));
        let mut l = text2("  ", k.as_str());
        push_str(&mut l, " ");
        push_str(&mut l, v.as_str());
        push_text(&mut st, l);
        assert(option_lines(kvs.take(i + 1)) =~= option_lines(kvs.take(i as int)).push(l@));
    }
    assert(kvs.take(kvs.len() as int) =~= kvs);
    assert(texts(st@) =~= show_settings(h@));

    let a = &h.sshx;
    let mut an: Vec<String> = Vec::new();
    assert(texts(an@) =~= Seq::<Seq<char>>::empty());
    push_opt_line(&mut an, "sshx: group = ", &a.group);
    push_opt_line(&mut an, "sshx: alias = ", &a.alias);
    let ghost a0 = texts(an@);
    match &a.description {
        Some(d) => {
            let mut l = text2("sshx: description = \"", d.as_str());
            push_str(&mut l, "\"");
            push_text(&mut an, l);
        },
        None => {},
    }
    assert(texts(an@) =~= a0 + (match a@.description {
        Some(d) => seq!["sshx: description = \""@ + d + "\""@],
        None => Seq::empty(),
    }));
    let ghost a1 = texts(an@);
    match &a.password {
        Some(pw) => {
            let m = mask(pw.as_str());
            push_text(&mut an, text2("sshx: password = ", m.as_str()));
        },
        None => {},
    }
    assert(texts(an@) =~= a1 + (match a@.password {
        Some(pw) => seq!["sshx: password = "@ + password_mask(pw)],
        None => Seq::empty(),
    }));
    push_opt_line(&mut an, "sshx: requires = ", &a.requires);
    let ghost a2 = texts(an@);
    if a.background {
        push_text(&mut an, "sshx: background = true".to_owned());
    }
    assert(texts(an@) =~= a2 + line_if(a.background, "sshx: background = true"@));
    let ghost a3 = texts(an@);
    match &a.after_connect {
        Some(c) => {
            let mut l = text2("sshx: after_connect = \"", c.as_str());
            push_str(&mut l, "\"");
            push_text(&mut an, l);
        },
        None => {},
    }
    assert(texts(an@) =~= a3 + (match a@.after_connect {
        Some(c) => seq!["sshx: after_connect = \""@ + c + "\""@],
        None => Seq::empty(),
    }));
    assert(texts(an@) =~= show_annotations(a@));

    let mut src = text2("  Source: ", h.source.file.as_str());
    push_str(&mut src, ":");
    push_dec(&mut src, h.source.line_start as u64);
    push_str(&mut src, "-");
    push_dec(&mut src, h.source.line_end as u64);
    ShowBlock { title: text2("Host ", h.name.as_str()), settings: st, annotations: an, source: src }
}

/// The host `input` names in `index` (by alias, else by name), or the
/// error that no host goes by it.
pub fn resolve_host<'a>(index: &'a ConfigIndex, input: &str) -> (r: Result<&'a SSHHost, SshxError>)
    ensures
        match resolution(hosts_view(index.hosts@), aliases_view(index.aliases@), input@) {
            Some(i) => r matches Ok(h) && h@ == index.hosts@[i]@,
            None => r matches Err(e) && e@ == (ErrorView::HostNotFound { input: input@ }),
        },
{
    match index.resolve_alias(input) {
        Some(h) => Ok(h),
        None => Err(SshxError::HostNotFound { input: input.to_owned() }),
    }
}

/// What `sshx config show input` prints: the block of the host `input`
/// names, or the error that no host goes by it (then nothing is shown).
pub fn show_host(index: &ConfigIndex, input: &str) -> (r: Result<ShowBlock, SshxError>)
    ensures
        match resolution(hosts_view(index.hosts@), aliases_view(index.aliases@), input@) {
            Some(i) => r matches Ok(b) && {
                let h = index.hosts@[i]@;
                &&& b.title@ == "Host "@ + h.name
                &&& texts(b.settings@) == show_settings(h)
                &&& texts(b.annotations@) == show_annotations(h.sshx)
                &&& b.source@ == show_source(h.source)
            },
            None => r matches Err(e) && e@ == (ErrorView::HostNotFound { input: input@ }),
        },
{
    let h = resolve_host(index, input)?;
    Ok(show_block(h))
}

/// Law: what `sshx config show` prints of a host depends on its password
/// only through the password's length: two hosts that differ in nothing
/// but passwords of the same UTF-8 length are shown alike, so the text of
/// a password is never shown; the password line is `sshx: password = `
/// and one `*` per byte.
pub proof fn law_show_hides_the_password(h1: HostModel, h2: HostModel, pw1: Seq<char>, pw2: Seq<char>)
    requires
        h1.sshx.password == Some(pw1),
        h2.sshx.password == Some(pw2),
        encode_utf8(pw1).len() == encode_utf8(pw2).len(),
        h2 == (HostModel { sshx: AnnotationsModel { password: Some(pw2), ..h1.sshx }, ..h1 }),
    ensures
        show_settings(h1) == show_settings(h2),
        show_annotations(h1.sshx) == show_annotations(h2.sshx),
        show_source(h1.source) == show_source(h2.source),
        h1.name == h2.name,
        show_annotations(h1.sshx).contains("sshx: password = "@ + Seq::new(
            (encode_utf8(pw1).len() as usize) as nat,
            |i: int| '*',
        )),
{
    assert(password_mask(pw1) == password_mask(pw2));
    let a = h1.sshx;
    let pl = seq!["sshx: password = "@ + password_mask(pw1)];
    let before = opt_line("sshx: group = "@, a.group)
        + opt_line("sshx: alias = "@, a.alias)
        + (match a.description {
        Some(d) => seq!["sshx: description = \""@ + d + "\""@],
        None => Seq::empty(),
    });
    let s = show_annotations(a);
    assert(s[before.len() as int] == pl[0]);
}

// ---------------------------------------------------------------------------
// Editing a host
// ---------------------------------------------------------------------------

/// The shell command that opens `file` at line `line` in `editor`.
pub open spec fn edit_command_line(editor: Seq<char>, line: usize, file: Seq<char>) -> Seq<char> {
    editor + " +"@ + dec(line as nat) + " "@ + shell_quote(file)
}

/// The command `sshx config edit` runs: the editor, `+LINE`, and the file
/// quoted for the shell.
pub fn edit_command(editor: &str, line: usize, file: &str) -> (r: String)
    ensures
        r@ == edit_command_line(editor@, line, file@),
{
    let mut r = text2(editor, " +");
    push_dec(&mut r, line as u64);
    push_str(&mut r, " ");
    let q = quote_word(file);
    push_str(&mut r, q.as_str());
    r
}

// ---------------------------------------------------------------------------
// Listing hosts
// ---------------------------------------------------------------------------

/// One host in a listing: its name, ` (alias)`, `hostname[:port]` and
/// ` — description`, each piece empty when there is nothing to show.
#[derive(Debug)]
pub struct HostRow {
    pub name: String,
    pub alias: String,
    pub address: String,
    pub description: String,
}

/// Model of a `HostRow`.
pub struct RowModel {
    pub name: Seq<char>,
    pub alias: Seq<char>,
    pub address: Seq<char>,
    pub description: Seq<char>,
}

impl View for HostRow {
    type V = RowModel;

    open spec fn view(&self) -> RowModel {
        RowModel {
            name: self.name@,
            alias: self.alias@,
            address: self.address@,
            description: self.description@,
        }
    }
}

/// `text` with `prefix` before it and `suffix` after it when there is a
/// text, else nothing.
pub open spec fn wrapped(prefix: Seq<char>, o: Option<Seq<char>>, suffix: Seq<char>) -> Seq<char> {
    match o {
        Some(x) => prefix + x + suffix,
        None => Seq::empty(),
    }
}

/// The row of a host.
pub open spec fn row_of(h: HostModel) -> RowModel {
    RowModel {
        name: h.name,
        alias: wrapped(" ("@, h.sshx.alias, ")"@),
        address: h.hostname + match h.port {
            Some(p) => ":"@ + dec(p as nat),
            None => Seq::empty(),
        },
        description: wrapped(" — "@, h.sshx.description, Seq::empty()),
    }
}

/// The rows of some hosts, in order.
pub open spec fn rows_of(hs: Seq<HostModel>) -> Seq<RowModel> {
    hs.map_values(|h: HostModel| row_of(h))
}

/// The models of a list of rows.
pub open spec fn rows_view(v: Seq<HostRow>) -> Seq<RowModel> {
    v.map_values(|r: HostRow| r@)
}

/// `prefix`, the value and `suffix` when there is a value, else an empty
/// text.
fn wrap(prefix: &str, o: &Option<String>, suffix: &str) -> (r: String)
    ensures
        r@ == wrapped(prefix@, o.deep_view(), suffix@),
{
    match o {
        Some(x) => {
            let mut r = text2(prefix, x.as_str());
            push_str(&mut r, suffix);
            r
        },
        None => String::new(),
    }
}

/// The row of `h` in a listing.
pub fn host_row(h: &SSHHost) -> (r: HostRow)
    ensures
        r@ == row_of(h@),
{
    proof {
        reveal_strlit("");
    }
    let mut address = h.hostname.clone();
    match h.port {
        Some(p) => {
            push_str(&mut address, ":");
            push_dec(&mut address, p as u64);
        },
        None => {},
    }
    let name = h.name.clone();
    let alias = wrap(" (", &h.sshx.alias, ")");
    let description = wrap(" — ", &h.sshx.description, "");
    assert(address@ == row_of(h@).address);
    assert(alias@ == row_of(h@).alias);
    assert(description@ == row_of(h@).description);
    HostRow { name, alias, address, description }
}

/// The rows of the hosts `hs`.
fn rows_of_refs(hs: &Vec<&SSHHost>) -> (r: Vec<HostRow>)
    ensures
        rows_view(r@) == rows_of(host_refs_view(hs@)),
{
    let mut r: Vec<HostRow> = Vec::new();
    for i in 0..hs.len()
        invariant
            rows_view(r@) == rows_of(host_refs_view(hs@.take(i as int))),
    {
        let row = host_row(hs[i]);
        let ghost before = rows_view(r@);
        r.push(row);
        assert(host_refs_view(hs@.take(i + 1)) =~= host_refs_view(hs@.take(i as int)).push(hs@[i as int]@));
        assert(rows_view(r@) =~= before.push(row@));
    }
    assert(hs@.take(hs@.len() as int) =~= hs@);
    r
}

/// What a table of a listing is headed by.
#[derive(Debug)]
pub enum Heading {
    Plain,
    Group(String),
    Ungrouped,
}

/// Model of a `Heading`.
pub enum HeadingModel {
    Plain,
    Group(Seq<char>),
    Ungrouped,
}

impl View for Heading {
    type V = HeadingModel;

    open spec fn view(&self) -> HeadingModel {
        match self {
            Heading::Plain => HeadingModel::Plain,
            Heading::Group(g) => HeadingModel::Group(g@),
            Heading::Ungrouped => HeadingModel::Ungrouped,
        }
    }
}

/// A table of hosts under a heading.
#[derive(Debug)]
pub struct Table {
    pub heading: Heading,
    pub rows: Vec<HostRow>,
}

/// Model of a `Table`.
pub struct TableModel {
    pub heading: HeadingModel,
    pub rows: Seq<RowModel>,
}

impl View for Table {
    type V = TableModel;

    open spec fn view(&self) -> TableModel {
        TableModel { heading: self.heading@, rows: rows_view(self.rows@) }
    }
}

/// What `sshx config list` shows.
#[derive(Debug)]
pub enum Listing {
    /// The group asked for has no host.
    NoHostsInGroup(String),
    Tables(Vec<Table>),
}

/// Model of a `Listing`.
pub enum ListingModel {
    NoHostsInGroup(Seq<char>),
    Tables(Seq<TableModel>),
}

impl View for Listing {
    type V = ListingModel;

    open spec fn view(&self) -> ListingModel {
        match self {
            Listing::NoHostsInGroup(g) => ListingModel::NoHostsInGroup(g@),
            Listing::Tables(ts) => ListingModel::Tables(ts@.map_values(|t: Table| t@)),
        }
    }
}

/// Among the first `k` hosts, those without a group, in order.
pub open spec fn ungrouped(hosts: Seq<HostModel>, k: int) -> Seq<HostModel>
    decreases k,
{
    if k <= 0 {
        Seq::empty()
    } else {
        ungrouped(hosts, k - 1) + if hosts[k - 1].sshx.group is None {
            seq![hosts[k - 1]]
        } else {
            Seq::empty()
        }
    }
}

/// One table per group, in the order of the groups.
pub open spec fn group_tables(entries: Seq<(Seq<char>, Seq<usize>)>, hosts: Seq<HostModel>) -> Seq<TableModel> {
    Seq::new(
        entries.len(),
        |i: int|
            TableModel {
                heading: HeadingModel::Group(entries[i].0),
                rows: rows_of(group_listing(entries, hosts, entries[i].0)),
            },
    )
}

/// The listing of an index with groups `entries` and hosts `hosts`: with
/// a group asked for, its hosts (or that it has none); else, when there
/// are groups, one table per group and one for the hosts without a group
/// if there are any; else all hosts.
pub open spec fn listing_of(
    entries: Seq<(Seq<char>, Seq<usize>)>,
    hosts: Seq<HostModel>,
    filter: Option<Seq<char>>,
) -> ListingModel {
    match filter {
        Some(g) => {
            let l = group_listing(entries, hosts, g);
            if l.len() == 0 {
                ListingModel::NoHostsInGroup(g)
            } else {
                ListingModel::Tables(seq![TableModel { heading: HeadingModel::Plain, rows: rows_of(l) }])
            }
        },
        None => if entries.len() > 0 {
            let u = ungrouped(hosts, hosts.len() as int);
            ListingModel::Tables(
                group_tables(entries, hosts) + if u.len() > 0 {
                    seq![TableModel { heading: HeadingModel::Ungrouped, rows: rows_of(u) }]
                } else {
                    Seq::empty()
                },
            )
        } else {
            ListingModel::Tables(seq![TableModel { heading: HeadingModel::Plain, rows: rows_of(hosts) }])
        },
    }
}

/// Among the first `k` hosts, the positions of those without a group.
pub open spec fn ungrouped_positions(hosts: Seq<HostModel>, k: int) -> Seq<usize>
    decreases k,
{
    if k <= 0 {
        Seq::empty()
    } else {
        ungrouped_positions(hosts, k - 1) + if hosts[k - 1].sshx.group is None {
            seq![(k - 1) as usize]
        } else {
            Seq::<usize>::empty()
        }
    }
}

proof fn lemma_ungrouped_positions(hosts: Seq<HostModel>, k: int)
    requires
        0 <= k <= hosts.len(),
        hosts.len() <= usize::MAX,
    ensures
        ungrouped(hosts, k) == hosts_at(hosts, ungrouped_positions(hosts, k)),
        forall|j: int|
            0 <= j < ungrouped_positions(hosts, k).len() ==> {
                &&& #[trigger] ungrouped_positions(hosts, k)[j] < k
                &&& hosts[ungrouped_positions(hosts, k)[j] as int].sshx.group is None
            },
        forall|j1: int, j2: int|
            0 <= j1 < j2 < ungrouped_positions(hosts, k).len() ==> #[trigger] ungrouped_positions(
                hosts,
                k,
            )[j1] < #[trigger] ungrouped_positions(hosts, k)[j2],
        forall|i: int|
            0 <= i < k && (#[trigger] hosts[i]).sshx.group is None ==> ungrouped_positions(hosts, k).contains(
                i as usize,
            ),
    decreases k,
{
    if k > 0 {
        lemma_ungrouped_positions(hosts, k - 1);
        let p0 = ungrouped_positions(hosts, k - 1);
        let p1 = ungrouped_positions(hosts, k);
        if hosts[k - 1].sshx.group is None {
            assert(p1 == p0.push((k - 1) as usize));
            assert(p1.drop_last() =~= p0);
            assert forall|i: int| 0 <= i < k && (#[trigger] hosts[i]).sshx.group is None implies p1.contains(i as usize) by {
                if i == k - 1 {
                    assert(p1[p0.len() as int] == i as usize);
                } else {
                    let j = choose|j: int| 0 <= j < p0.len() && p0[j] == i as usize;
                    assert(p1[j] == i as usize);
                }
            }
        } else {
            assert(p1 =~= p0);
            assert(ungrouped(hosts, k) =~= ungrouped(hosts, k - 1));
        }
    }
}

/// Law: listing all hosts of an index shows each host exactly once. With
/// groups, there is one table per group, holding the hosts at the
/// group's positions, then, if some host has no group, a table of the
/// hosts at the positions without a group; every position is in exactly
/// one of these lists, once. Without groups, one table holds all hosts.
pub proof fn law_listing_shows_each_host_once(hosts: Seq<HostModel>)
    requires
        hosts.len() <= usize::MAX,
    ensures
        ({
            let n = hosts.len() as int;
            let e = groups_of(hosts, n);
            let u = ungrouped_positions(hosts, n);
            &&& e.len() > 0 ==> listing_of(e, hosts, None) == ListingModel::Tables(
                group_tables(e, hosts) + if u.len() > 0 {
                    seq![TableModel { heading: HeadingModel::Ungrouped, rows: rows_of(hosts_at(hosts, u)) }]
                } else {
                    Seq::empty()
                },
            )
            &&& e.len() == 0 ==> listing_of(e, hosts, None) == ListingModel::Tables(
                seq![TableModel { heading: HeadingModel::Plain, rows: rows_of(hosts) }],
            )
            &&& forall|p: int| 0 <= p < e.len() ==> group_listing(e, hosts, (#[trigger] e[p]).0) == hosts_at(hosts, e[p].1)
            &&& forall|p: int| 0 <= p < e.len() ==> (#[trigger] e[p]).1.no_duplicates()
            &&& u.no_duplicates()
            &&& forall|i: int|
                0 <= i < n && (#[trigger] hosts[i]).sshx.group is None ==> u.contains(i as usize)
                    && forall|p: int| 0 <= p < e.len() ==> !(#[trigger] e[p]).1.contains(i as usize)
            &&& forall|i: int|
                0 <= i < n && (#[trigger] hosts[i]).sshx.group is Some ==> !u.contains(i as usize)
                    && exists|p: int|
                    0 <= p < e.len() && (#[trigger] e[p]).1.contains(i as usize) && forall|q: int|
                        0 <= q < e.len() && q != p ==> !(#[trigger] e[q]).1.contains(i as usize)
        }),
{
    let n = hosts.len() as int;
    let e = groups_of(hosts, n);
    let u = ungrouped_positions(hosts, n);
    lemma_groups_of(hosts, n);
    lemma_ungrouped_positions(hosts, n);
    assert forall|p: int| 0 <= p < e.len() implies group_listing(e, hosts, (#[trigger] e[p]).0) == hosts_at(hosts, e[p].1) by {
        lemma_key_position(e, e[p].0);
    }
    assert forall|p: int| 0 <= p < e.len() implies (#[trigger] e[p]).1.no_duplicates() by {
        lemma_positions_in_group(hosts, e[p].0, n);
    }
    assert forall|i: int|
        0 <= i < n && (#[trigger] hosts[i]).sshx.group is None implies u.contains(i as usize)
            && forall|p: int| 0 <= p < e.len() ==> !(#[trigger] e[p]).1.contains(i as usize) by {
        assert forall|p: int| 0 <= p < e.len() implies !(#[trigger] e[p]).1.contains(i as usize) by {
            lemma_positions_in_group(hosts, e[p].0, n);
            if e[p].1.contains(i as usize) {
                let j = choose|j: int| 0 <= j < e[p].1.len() && e[p].1[j] == i as usize;
                assert(hosts[e[p].1[j] as int].sshx.group == Some(e[p].0));
            }
        }
    }
    assert forall|i: int|
        0 <= i < n && (#[trigger] hosts[i]).sshx.group is Some implies !u.contains(i as usize)
            && exists|p: int|
            0 <= p < e.len() && (#[trigger] e[p]).1.contains(i as usize) && forall|q: int|
                0 <= q < e.len() && q != p ==> !(#[trigger] e[q]).1.contains(i as usize) by {
        let g = hosts[i].sshx.group->Some_0;
        if u.contains(i as usize) {
            let j = choose|j: int| 0 <= j < u.len() && u[j] == i as usize;
            assert(hosts[u[j] as int].sshx.group is None);
        }
        lemma_positions_in_group(hosts, g, n);
        let j = choose|j: int| 0 <= j < positions_in_group(hosts, g, n).len() && positions_in_group(hosts, g, n)[j] == i;
        lemma_key_position(e, g);
        assert(key_position(e, g) is Some);
        let p = key_position(e, g)->Some_0;
        assert(e[p].1 == positions_in_group(hosts, g, n));
        assert(e[p].1[j] == i as usize);
        assert forall|q: int| 0 <= q < e.len() && q != p implies !(#[trigger] e[q]).1.contains(i as usize) by {
            lemma_positions_in_group(hosts, e[q].0, n);
            assert(e[q].0 != g);
            if e[q].1.contains(i as usize) {
                let jj = choose|jj: int| 0 <= jj < e[q].1.len() && e[q].1[jj] == i as usize;
                assert(hosts[e[q].1[jj] as int].sshx.group == Some(e[q].0));
            }
        }
    }
}

/// The model of an optional text.
pub open spec fn opt_text(o: Option<&str>) -> Option<Seq<char>> {
    match o {
        Some(s) => Some(s@),
        None => None,
    }
}

/// What `sshx config list` shows of `index`, for group `group` if one is
/// asked for.
pub fn list_hosts(index: &ConfigIndex, group: Option<&str>) -> (r: Listing)
    ensures
        r@ == listing_of(group_entries(index.groups), hosts_view(index.hosts@), opt_text(group)),
{
    let ghost hv = hosts_view(index.hosts@);
    let ghost entries = group_entries(index.groups);
    match group {
        Some(g) => {
            let hs = index.hosts_in_group(g);
            assert(host_refs_view(hs@).len() == hs@.len());
            if hs.len() == 0 {
                let r = Listing::NoHostsInGroup(g.to_owned());
                assert(group_listing(entries, hv, g@).len() == 0);
                assert(opt_text(group) == Some(g@));
                assert(r@ == listing_of(entries, hv, opt_text(group)));
                return r;
            }
            let rows = rows_of_refs(&hs);
            let mut ts: Vec<Table> = Vec::new();
            ts.push(Table { heading: Heading::Plain, rows });
            let r = Listing::Tables(ts);
            assert(ts@.map_values(|t: Table| t@) =~= seq![
                TableModel { heading: HeadingModel::Plain, rows: rows_of(group_listing(entries, hv, g@)) },
            ]);
            assert(opt_text(group) == Some(g@));
            assert(group_listing(entries, hv, g@).len() != 0);
            assert(r@ == listing_of(entries, hv, opt_text(group)));
            r
        },
        None => {
            let n = group_map_len(&index.groups);
            let mut ts: Vec<Table> = Vec::new();
            if n > 0 {
                let mut i: usize = 0;
                while i < n
                    invariant
                        i <= n,
                        n == entries.len(),
                        entries == group_entries(index.groups),
                        hv == hosts_view(index.hosts@),
                        ts@.map_values(|t: Table| t@) == group_tables(entries, hv).take(i as int),
                    decreases n - i,
                {
                    let (name, _) = group_map_get_index(&index.groups, i).unwrap();
                    let hs = index.hosts_in_group(name.as_str());
                    let rows = rows_of_refs(&hs);
                    let ghost before = ts@.map_values(|t: Table| t@);
                    let t = Table { heading: Heading::Group(name.clone()), rows };
                    ts.push(t);
                    assert(ts@.map_values(|t: Table| t@) =~= before.push(t@));
                    assert(group_tables(entries, hv).take(i + 1) =~= group_tables(entries, hv).take(
                        i as int,
                    ).push(t@));
                    i = i + 1;
                }
                let mut urows: Vec<HostRow> = Vec::new();
                let mut k: usize = 0;
                while k < index.hosts.len()
                    invariant
                        k <= index.hosts@.len(),
                        hv == hosts_view(index.hosts@),
                        rows_view(urows@) == rows_of(ungrouped(hv, k as int)),
                    decreases index.hosts@.len() - k,
                {
                    let h = &index.hosts[k];
                    assert(hv[k as int] == h@);
                    let ghost before = rows_view(urows@);
                    if h.sshx.group.is_none() {
                        let row = host_row(h);
                        urows.push(row);
                        assert(rows_view(urows@) =~= before.push(row@));
                        assert(rows_of(ungrouped(hv, k + 1)) =~= rows_of(ungrouped(hv, k as int)).push(
                            row_of(hv[k as int]),
                        ));
                    } else {
                        assert(ungrouped(hv, k + 1) =~= ungrouped(hv, k as int));
                    }
                    k = k + 1;
                }
                let ghost gt = ts@.map_values(|t: Table| t@);
                assert(hv.len() == index.hosts@.len());
                assert(rows_view(urows@).len() == urows@.len());
                let ghost u = ungrouped(hv, hv.len() as int);
                assert(rows_of(u).len() == u.len());
                assert(group_tables(entries, hv).take(n as int) =~= group_tables(entries, hv));
                assert(gt == group_tables(entries, hv));
                assert(n > 0 && opt_text(group) is None);
                if urows.len() > 0 {
                    let t = Table { heading: Heading::Ungrouped, rows: urows };
                    ts.push(t);
                    assert(ts@.map_values(|t: Table| t@) =~= gt.push(t@));
                    assert(t@ == TableModel { heading: HeadingModel::Ungrouped, rows: rows_of(u) });
                    assert(gt.push(t@) =~= gt + seq![t@]);
                } else {
                    assert(gt + Seq::<TableModel>::empty() =~= gt);
                }
                let r = Listing::Tables(ts);
                assert(r@ == listing_of(entries, hv, opt_text(group)));
                r
            } else {
                let mut refs: Vec<&SSHHost> = Vec::new();
                for k in 0..index.hosts.len()
                    invariant
                        host_refs_view(refs@) == hv.take(k as int),
                        hv == hosts_view(index.hosts@),
                        hv.len() == index.hosts@.len(),
                {
                    assert(hv[k as int] == index.hosts@[k as int]@);
                    let ghost before = host_refs_view(refs@);
                    refs.push(&index.hosts[k]);
                    assert(host_refs_view(refs@) =~= before.push(index.hosts@[k as int]@));
                    assert(hv.take(k + 1) =~= hv.take(k as int).push(hv[k as int]));
                }
                assert(hv.take(hv.len() as int) =~= hv);
                let rows = rows_of_refs(&refs);
                let t = Table { heading: Heading::Plain, rows };
                assert(ts@.len() == 0);
                ts.push(t);
                assert(ts@.map_values(|t: Table| t@) =~= seq![t@]);
                let r = Listing::Tables(ts);
                assert(r@ == listing_of(entries, hv, opt_text(group)));
                r
            }
        },
    }
}

} // verus!
