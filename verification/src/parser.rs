//! The OpenSSH config parser: `Host` blocks, the options `sshx` knows, and
//! `## sshx: key = value` annotations.

use vstd::prelude::*;

use crate::error::{annotation_keys, ErrorView, SshxError};
use crate::ssh_command::strict_text;
use crate::model::{
    empty_annotations, forwards_view, fresh_host, hosts_view, options_view, AnnotationsModel, ForwardModel,
    HostModel, LocalForward, SSHHost, SourceModel, StrictHostChecking,
};
use crate::text::{
    in_class, is_ws, lemma_back_while_bounds, lemma_find_from_at, lemma_skip_while_at, lemma_trim_by_at,
    lemma_trim_ws_suffix, back_while, CharClass, chars_of, eq_str, find_char_from, find_from, lemma_find_from_bounds, lines, lines_vec,
    lower_seq, lower_vec, parse_u16, parse_u16_vec, replace_tilde, replace_tilde_vec, seqs_view,
    starts_with, starts_with_str, string_of, strip_prefix_all, strip_prefix_all_vec, sub_vec,
    trim, trim_quotes, trim_quotes_vec, trim_vec, words, words_vec,
};

verus! {

// ---------------------------------------------------------------------------
// Specification
// ---------------------------------------------------------------------------

/// Why an annotation line was refused.
pub enum AnnotationFault {
    /// No `=` after `## sshx:`.
    Malformed,
    /// A key that is not one of the seven known ones.
    UnknownKey(Seq<char>),
}

/// The text after the `## sshx:` marker of an annotation line, trimmed.
pub open spec fn annotation_body(raw: Seq<char>) -> Seq<char> {
    trim(strip_prefix_all(raw, "## sshx:"@))
}

/// The annotations `a` after applying the annotation line `raw`.
pub open spec fn apply_annotation(a: AnnotationsModel, raw: Seq<char>) -> Result<
    AnnotationsModel,
    AnnotationFault,
> {
    let body = annotation_body(raw);
    let e = find_from(body, '=', 0);
    if e >= body.len() {
        Err(AnnotationFault::Malformed)
    } else {
        let key = trim(body.subrange(0, e));
        let value = trim_quotes(trim(body.subrange(e + 1, body.len() as int)));
        if key == "group"@ {
            Ok(AnnotationsModel { group: Some(value), ..a })
        } else if key == "password"@ {
            Ok(AnnotationsModel { password: Some(value), ..a })
        } else if key == "requires"@ {
            Ok(AnnotationsModel { requires: Some(value), ..a })
        } else if key == "alias"@ {
            Ok(AnnotationsModel { alias: Some(value), ..a })
        } else if key == "background"@ {
            Ok(AnnotationsModel { background: value == "true"@ || value == "1"@, ..a })
        } else if key == "description"@ {
            Ok(AnnotationsModel { description: Some(value), ..a })
        } else if key == "after_connect"@ {
            Ok(AnnotationsModel { after_connect: Some(value), ..a })
        } else {
            Err(AnnotationFault::UnknownKey(key))
        }
    }
}

/// A `LocalForward` value: two whitespace-separated words, a port and
/// `host:port` with exactly one colon.
pub open spec fn local_forward_of(value: Seq<char>) -> Option<ForwardModel> {
    let w = words(value);
    if w.len() != 2 {
        None
    } else {
        let r = w[1];
        let c = find_from(r, ':', 0);
        if c >= r.len() || find_from(r, ':', c + 1) < r.len() {
            None
        } else {
            match (parse_u16(w[0]), parse_u16(r.subrange(c + 1, r.len() as int))) {
                (Some(l), Some(p)) => Some(
                    ForwardModel { local_port: l, remote_host: r.subrange(0, c), remote_port: p },
                ),
                _ => None,
            }
        }
    }
}

/// A `StrictHostKeyChecking` value.
pub open spec fn strict_value(v: Seq<char>) -> Option<StrictHostChecking> {
    if v == "yes"@ {
        Some(StrictHostChecking::Yes)
    } else if v == "no"@ {
        Some(StrictHostChecking::No)
    } else if v == "ask"@ {
        Some(StrictHostChecking::Ask)
    } else if v == "accept-new"@ || v == "accept_new"@ {
        Some(StrictHostChecking::AcceptNew)
    } else {
        None
    }
}

/// The host `h` after the option line `line` (`Key value`, the key matched
/// without regard to ASCII case); `~` in an identity file becomes `home`.
pub open spec fn apply_option(h: HostModel, line: Seq<char>, home: Seq<char>) -> HostModel {
    let e = find_from(line, ' ', 0);
    if e >= line.len() {
        h
    } else {
        let key = line.subrange(0, e);
        let value = trim(line.subrange(e + 1, line.len() as int));
        let k = lower_seq(key);
        if k == "hostname"@ {
            HostModel { hostname: value, ..h }
        } else if k == "port"@ {
            match parse_u16(value) {
                Some(p) => HostModel { port: Some(p), ..h },
                None => h,
            }
        } else if k == "user"@ {
            HostModel { user: Some(value), ..h }
        } else if k == "identityfile"@ {
            HostModel { identity_file: Some(replace_tilde(value, home)), ..h }
        } else if k == "localforward"@ {
            match local_forward_of(value) {
                Some(f) => HostModel { local_forwards: h.local_forwards.push(f), ..h },
                None => h,
            }
        } else if k == "stricthostkeychecking"@ {
            HostModel { strict_host_checking: strict_value(value), ..h }
        } else if k == "userknownhostsfile"@ {
            HostModel { user_known_hosts_file: Some(value), ..h }
        } else {
            HostModel { extra_options: h.extra_options.push((key, value)), ..h }
        }
    }
}

/// The hosts finished so far and the host block being read.
pub struct ParseState {
    pub hosts: Seq<HostModel>,
    pub current: Option<HostModel>,
}

/// `h` with its block ending at line `end`.
pub open spec fn close_host(h: HostModel, end: usize) -> HostModel {
    HostModel { source: SourceModel { line_end: end, ..h.source }, ..h }
}

/// The state after the line `line`, the `idx`-th (from 0) of `file`.
pub open spec fn parse_step(
    st: ParseState,
    line: Seq<char>,
    idx: usize,
    file: Seq<char>,
    home: Seq<char>,
) -> Result<ParseState, ErrorView> {
    let t = trim(line);
    if t.len() == 0 {
        Ok(st)
    } else if t[0] == '#' && !starts_with(t, "## sshx:"@) {
        Ok(st)
    } else if starts_with(t, "## sshx:"@) {
        match st.current {
            None => Ok(st),
            Some(h) => match apply_annotation(h.sshx, t) {
                Ok(a) => Ok(ParseState { current: Some(HostModel { sshx: a, ..h }), ..st }),
                Err(AnnotationFault::Malformed) => Err(
                    ErrorView::AnnotationParseError { file, line: (idx + 1) as usize, raw: t },
                ),
                Err(AnnotationFault::UnknownKey(key)) => Err(
                    ErrorView::UnknownAnnotationKey { file, line: (idx + 1) as usize, key },
                ),
            },
        }
    } else if starts_with(t, "Host "@) {
        let hosts = match st.current {
            Some(h) => st.hosts.push(close_host(h, idx)),
            None => st.hosts,
        };
        Ok(
            ParseState {
                hosts,
                current: Some(
                    fresh_host(trim(t.subrange(5, t.len() as int)), file, (idx + 1) as usize),
                ),
            },
        )
    } else {
        match st.current {
            Some(h) => Ok(ParseState { current: Some(apply_option(h, t, home)), ..st }),
            None => Ok(st),
        }
    }
}

/// The state after the first `k` lines of `ls`.
pub open spec fn parse_prefix(
    ls: Seq<Seq<char>>,
    k: int,
    file: Seq<char>,
    home: Seq<char>,
) -> Result<ParseState, ErrorView>
    decreases k,
{
    if k <= 0 {
        Ok(ParseState { hosts: Seq::empty(), current: None })
    } else {
        match parse_prefix(ls, k - 1, file, home) {
            Err(e) => Err(e),
            Ok(st) => parse_step(st, ls[k - 1], (k - 1) as usize, file, home),
        }
    }
}

/// The hosts of a config text read from `file`, or the first error on its
/// lines; `home` stands for `~` in identity files.
pub open spec fn parse_config(content: Seq<char>, file: Seq<char>, home: Seq<char>) -> Result<
    Seq<HostModel>,
    ErrorView,
> {
    let ls = lines(content);
    match parse_prefix(ls, ls.len() as int, file, home) {
        Err(e) => Err(e),
        Ok(st) => Ok(
            match st.current {
                Some(h) => st.hosts.push(close_host(h, ls.len() as usize)),
                None => st.hosts,
            },
        ),
    }
}

/// The model of a parse result.
pub open spec fn hosts_result_view(r: Result<Vec<SSHHost>, SshxError>) -> Result<
    Seq<HostModel>,
    ErrorView,
> {
    match r {
        Ok(v) => Ok(hosts_view(v@)),
        Err(e) => Err(e@),
    }
}

// ---------------------------------------------------------------------------
// Implementation
// ---------------------------------------------------------------------------

/// Applies the annotation line `raw` (line `line` of `file`) to `host`.
pub fn parse_annotation(host: &mut SSHHost, raw: &Vec<char>, file: &str, line: usize) -> (r: Result<
    (),
    SshxError,
>)
    ensures
        match apply_annotation(old(host).sshx@, raw@) {
            Ok(a) => r is Ok && final(host)@ == (HostModel { sshx: a, ..old(host)@ }),
            Err(AnnotationFault::Malformed) => r matches Err(e) && e@
                == (ErrorView::AnnotationParseError { file: file@, line, raw: raw@ }),
            Err(AnnotationFault::UnknownKey(key)) => r matches Err(e) && e@
                == (ErrorView::UnknownAnnotationKey { file: file@, line, key }),
        },
        r is Err ==> final(host)@ == old(host)@,
{
    let stripped = strip_prefix_all_vec(raw, "## sshx:");
    let body = trim_vec(&stripped);
    let e = find_char_from(&body, '=', 0);
    proof {
        lemma_find_from_bounds(body@, '=', 0);
    }
    if e >= body.len() {
        return Err(
            SshxError::AnnotationParseError {
                file: file.to_owned(),
                line,
                raw: string_of(raw),
            },
        );
    }
    let key_raw = sub_vec(&body, 0, e);
    let key = trim_vec(&key_raw);
    let value_raw = sub_vec(&body, e + 1, body.len());
    let value_trimmed = trim_vec(&value_raw);
    let value = trim_quotes_vec(&value_trimmed);
    if eq_str(&key, "group") {
        host.sshx.group = Some(string_of(&value));
    } else if eq_str(&key, "password") {
        host.sshx.password = Some(string_of(&value));
    } else if eq_str(&key, "requires") {
        host.sshx.requires = Some(string_of(&value));
    } else if eq_str(&key, "alias") {
        host.sshx.alias = Some(string_of(&value));
    } else if eq_str(&key, "background") {
        host.sshx.background = eq_str(&value, "true") || eq_str(&value, "1");
    } else if eq_str(&key, "description") {
        host.sshx.description = Some(string_of(&value));
    } else if eq_str(&key, "after_connect") {
        host.sshx.after_connect = Some(string_of(&value));
    } else {
        return Err(
            SshxError::UnknownAnnotationKey { file: file.to_owned(), line, key: string_of(&key) },
        );
    }
    Ok(())
}

/// Parses a `LocalForward` value.
pub fn parse_local_forward(value: &Vec<char>) -> (r: Option<LocalForward>)
    ensures
        match local_forward_of(value@) {
            Some(f) => r matches Some(x) && x@ == f,
            None => r is None,
        },
{
    let parts = words_vec(value);
    if parts.len() != 2 {
        return None;
    }
    let local_port = match parse_u16_vec(&parts[0]) {
        Some(p) => p,
        None => {
            return None;
        },
    };
    let remote = &parts[1];
    let c = find_char_from(remote, ':', 0);
    proof {
        lemma_find_from_bounds(remote@, ':', 0);
    }
    if c >= remote.len() {
        return None;
    }
    let c2 = find_char_from(remote, ':', c + 1);
    if c2 < remote.len() {
        return None;
    }
    let port_text = sub_vec(remote, c + 1, remote.len());
    let remote_port = match parse_u16_vec(&port_text) {
        Some(p) => p,
        None => {
            return None;
        },
    };
    let host_text = sub_vec(remote, 0, c);
    Some(LocalForward { local_port, remote_host: string_of(&host_text), remote_port })
}

/// Parses a `StrictHostKeyChecking` value.
fn parse_strict(value: &Vec<char>) -> (r: Option<StrictHostChecking>)
    ensures
        r == strict_value(value@),
{
    if eq_str(value, "yes") {
        Some(StrictHostChecking::Yes)
    } else if eq_str(value, "no") {
        Some(StrictHostChecking::No)
    } else if eq_str(value, "ask") {
        Some(StrictHostChecking::Ask)
    } else if eq_str(value, "accept-new") || eq_str(value, "accept_new") {
        Some(StrictHostChecking::AcceptNew)
    } else {
        None
    }
}

/// Applies the option line `line` to `host`.
pub fn parse_option(host: &mut SSHHost, line: &Vec<char>, home: &str)
    ensures
        final(host)@ == apply_option(old(host)@, line@, home@),
{
    let e = find_char_from(line, ' ', 0);
    proof {
        lemma_find_from_bounds(line@, ' ', 0);
    }
    if e >= line.len() {
        return;
    }
    let key = sub_vec(line, 0, e);
    let rest = sub_vec(line, e + 1, line.len());
    let value = trim_vec(&rest);
    let k = lower_vec(&key);
    if eq_str(&k, "hostname") {
        host.hostname = string_of(&value);
    } else if eq_str(&k, "port") {
        match parse_u16_vec(&value) {
            Some(p) => {
                host.port = Some(p);
            },
            None => {},
        }
    } else if eq_str(&k, "user") {
        host.user = Some(string_of(&value));
    } else if eq_str(&k, "identityfile") {
        host.identity_file = Some(replace_tilde_vec(&value, home));
    } else if eq_str(&k, "localforward") {
        match parse_local_forward(&value) {
            Some(f) => {
                let ghost before = host.local_forwards@;
                host.local_forwards.push(f);
                assert(forwards_view(host.local_forwards@) =~= forwards_view(before).push(f@));
            },
            None => {},
        }
    } else if eq_str(&k, "stricthostkeychecking") {
        host.strict_host_checking = parse_strict(&value);
    } else if eq_str(&k, "userknownhostsfile") {
        host.user_known_hosts_file = Some(string_of(&value));
    } else {
        let ghost before = host.extra_options@;
        let pair = (string_of(&key), string_of(&value));
        host.extra_options.push(pair);
        assert(options_view(host.extra_options@) =~= options_view(before).push((key@, value@)));
    }
}

/// A host named `name`, read from `file` at line `line_start`, with
/// nothing else set.
fn new_host(name: String, file: &str, line_start: usize) -> (h: SSHHost)
    ensures
        h@ == fresh_host(name@, file@, line_start),
{
    let mut h = SSHHost::default();
    h.name = name;
    h.source.file = file.to_owned();
    h.source.line_start = line_start;
    h
}

/// Parses the text of an SSH config file `file_path` into its hosts, in
/// the order they appear; `home` stands for `~` in `IdentityFile` values.
/// One host comes of each `Host` line, named by the rest of that line and
/// holding the lines up to the next one; the parse fails at the first
/// refused annotation inside a host block.
pub fn parse_content(content: &str, file_path: &str, home: &str) -> (r: Result<
    Vec<SSHHost>,
    SshxError,
>)
    ensures
        hosts_result_view(r) == parse_config(content@, file_path@, home@),
        lines(content@).len() < usize::MAX ==> match first_faulty_line(
            lines(content@),
            lines(content@).len() as int,
        ) {
            None => r is Ok,
            Some(i) => {
                &&& faulty_line(lines(content@), i)
                &&& forall|q: int| 0 <= q < i ==> !#[trigger] faulty_line(lines(content@), q)
                &&& r matches Err(e) && annotation_error(lines(content@), i, file_path@) == Some(e@)
            },
        },
        lines(content@).len() < usize::MAX && r is Ok ==> ({
            let ls = lines(content@);
            let hs = hosts_view(r->Ok_0@);
            let pos = host_line_positions(ls, ls.len() as int);
            &&& hs.len() == pos.len()
            &&& forall|j: int|
                0 <= j < hs.len() ==> {
                    &&& 0 <= #[trigger] pos[j] < ls.len()
                    &&& is_host_line(ls[pos[j]])
                    &&& hs[j].name == host_line_name(ls[pos[j]])
                    &&& hs[j].source.file == file_path@
                    &&& hs[j].source.line_start == pos[j] + 1
                    &&& hs[j].source.line_start <= hs[j].source.line_end <= ls.len()
                }
            &&& forall|j: int|
                0 <= j < hs.len() - 1 ==> (#[trigger] hs[j]).source.line_end + 1 == hs[j + 1].source.line_start
            &&& hs.len() > 0 ==> hs.last().source.line_end == ls.len()
            &&& forall|i: int|
                0 <= i < ls.len() && #[trigger] is_host_line(ls[i]) ==> exists|j: int|
                    0 <= j < pos.len() && pos[j] == i
        }),
{
    let r = parse_content_steps(content, file_path, home);
    proof {
        if lines(content@).len() < usize::MAX {
            law_parse_fails_on_first_bad_annotation(content@, file_path@, home@);
            if r is Ok {
                law_hosts_are_the_host_lines(content@, file_path@, home@);
                law_host_blocks_partition_lines(content@, file_path@, home@);
            }
        }
    }
    r
}

/// Parses the text line by line, as `parse_config` reads it.
fn parse_content_steps(content: &str, file_path: &str, home: &str) -> (r: Result<
    Vec<SSHHost>,
    SshxError,
>)
    ensures
        hosts_result_view(r) == parse_config(content@, file_path@, home@),
{
    let chars = chars_of(content);
    let ls = lines_vec(&chars);
    let ghost lsv = seqs_view(ls@);
    let mut hosts: Vec<SSHHost> = Vec::new();
    let mut cur = SSHHost::default();
    let mut has_cur = false;
    let mut idx: usize = 0;
    assert(hosts_view(hosts@) =~= Seq::<HostModel>::empty());
    while idx < ls.len()
        invariant
            lsv == lines(content@),
            lsv == seqs_view(ls@),
            idx <= ls@.len(),
            parse_prefix(lsv, idx as int, file_path@, home@) == Ok::<ParseState, ErrorView>(
                ParseState {
                    hosts: hosts_view(hosts@),
                    current: if has_cur {
                        Some(cur@)
                    } else {
                        None
                    },
                },
            ),
        decreases ls@.len() - idx,
    {
        let line = &ls[idx];
        assert(lsv[idx as int] == line@);
        let t = trim_vec(line);
        if t.len() == 0 {
        } else if t[0] == '#' && !starts_with_str(&t, "## sshx:") {
        } else if starts_with_str(&t, "## sshx:") {
            if has_cur {
                let res = parse_annotation(&mut cur, &t, file_path, idx + 1);
                match res {
                    Ok(()) => {},
                    Err(e) => {
                        proof {
                            assert(parse_prefix(lsv, idx + 1, file_path@, home@) == Err::<
                                ParseState,
                                ErrorView,
                            >(e@));
                            lemma_parse_prefix_err_sticky(lsv, idx + 1, ls@.len() as int, file_path@, home@);
                        }
                        return Err(e);
                    },
                }
            }
        } else if starts_with_str(&t, "Host ") {
            let ghost h0 = hosts_view(hosts@);
            if has_cur {
                let ghost c0 = cur@;
                cur.source.line_end = idx;
                assert(cur@ == close_host(c0, idx));
                hosts.push(cur);
                assert(hosts_view(hosts@) =~= h0.push(close_host(c0, idx)));
            }
            proof {
                reveal_strlit("Host ");
            }
            let name_raw = sub_vec(&t, 5, t.len());
            let name_chars = trim_vec(&name_raw);
            let name = string_of(&name_chars);
            cur = new_host(name, file_path, idx + 1);
            has_cur = true;
        } else {
            if has_cur {
                parse_option(&mut cur, &t, home);
            }
        }
        idx = idx + 1;
    }
    if has_cur {
        let ghost h0 = hosts_view(hosts@);
        let ghost c0 = cur@;
        cur.source.line_end = ls.len();
        assert(cur@ == close_host(c0, ls@.len() as usize));
        hosts.push(cur);
        assert(hosts_view(hosts@) =~= h0.push(close_host(c0, ls@.len() as usize)));
    }
    Ok(hosts)
}

/// Parsing the first `k` lines looks at those lines alone.
pub proof fn lemma_parse_prefix_agree(
    a: Seq<Seq<char>>,
    b: Seq<Seq<char>>,
    k: int,
    file: Seq<char>,
    home: Seq<char>,
)
    requires
        0 <= k <= a.len(),
        k <= b.len(),
        forall|i: int| 0 <= i < k ==> a[i] == b[i],
    ensures
        parse_prefix(a, k, file, home) == parse_prefix(b, k, file, home),
    decreases k,
{
    if k > 0 {
        lemma_parse_prefix_agree(a, b, k - 1, file, home);
    }
}

/// Once an error is reached, it is the result of every longer prefix.
proof fn lemma_parse_prefix_err_sticky(
    ls: Seq<Seq<char>>,
    k: int,
    n: int,
    file: Seq<char>,
    home: Seq<char>,
)
    requires
        0 <= k <= n,
        parse_prefix(ls, k, file, home) is Err,
    ensures
        parse_prefix(ls, n, file, home) == parse_prefix(ls, k, file, home),
    decreases n - k,
{
    if k < n {
        lemma_parse_prefix_err_sticky(ls, k, n - 1, file, home);
    }
}

} // verus!

verus! {

// ---------------------------------------------------------------------------
// Laws
// ---------------------------------------------------------------------------

/// What holds of the state after `k` lines: every block read lies in
/// `file`, starts at its `Host` line and ends just before the next block.
pub open spec fn blocks_ordered(st: ParseState, k: int, file: Seq<char>) -> bool {
    &&& forall|i: int|
        0 <= i < st.hosts.len() ==> {
            &&& (#[trigger] st.hosts[i]).source.file == file
            &&& 1 <= st.hosts[i].source.line_start <= st.hosts[i].source.line_end
            &&& st.hosts[i].source.line_end < k
        }
    &&& forall|i: int|
        0 <= i < st.hosts.len() - 1 ==> (#[trigger] st.hosts[i]).source.line_end + 1
            == st.hosts[i + 1].source.line_start
    &&& match st.current {
        Some(c) => {
            &&& c.source.file == file
            &&& 1 <= c.source.line_start <= k
            &&& st.hosts.len() > 0 ==> st.hosts.last().source.line_end + 1 == c.source.line_start
        },
        None => st.hosts.len() == 0,
    }
}

proof fn lemma_parse_prefix_ordered(
    ls: Seq<Seq<char>>,
    k: int,
    file: Seq<char>,
    home: Seq<char>,
)
    requires
        0 <= k <= ls.len(),
        ls.len() < usize::MAX,
        parse_prefix(ls, k, file, home) is Ok,
    ensures
        blocks_ordered(parse_prefix(ls, k, file, home)->Ok_0, k, file),
    decreases k,
{
    if k > 0 {
        lemma_parse_prefix_ordered(ls, k - 1, file, home);
        let st = parse_prefix(ls, k - 1, file, home)->Ok_0;
        let t = trim(ls[k - 1]);
        if let Some(h) = st.current {
            let e = find_from(t, ' ', 0);
            assert(apply_option(h, t, home).source == h.source);
        }
    }
}

/// Law: the host blocks that a parse yields all lie in the parsed file,
/// each runs from its `Host` line to the line before the next block (the
/// last to the last line), and so they are non-empty, in order and do not
/// overlap.
pub proof fn law_host_blocks_partition_lines(content: Seq<char>, file: Seq<char>, home: Seq<char>)
    requires
        parse_config(content, file, home) is Ok,
        lines(content).len() < usize::MAX,
    ensures
        ({
            let hs = parse_config(content, file, home)->Ok_0;
            &&& forall|i: int|
                0 <= i < hs.len() ==> {
                    &&& (#[trigger] hs[i]).source.file == file
                    &&& 1 <= hs[i].source.line_start <= hs[i].source.line_end
                    &&& hs[i].source.line_end <= lines(content).len()
                }
            &&& forall|i: int|
                0 <= i < hs.len() - 1 ==> (#[trigger] hs[i]).source.line_end + 1 == hs[i
                    + 1].source.line_start
            &&& hs.len() > 0 ==> hs.last().source.line_end == lines(content).len()
        }),
{
    let ls = lines(content);
    lemma_parse_prefix_ordered(ls, ls.len() as int, file, home);
    let st = parse_prefix(ls, ls.len() as int, file, home)->Ok_0;
    let hs = parse_config(content, file, home)->Ok_0;
    if let Some(c) = st.current {
        assert(hs == st.hosts.push(close_host(c, ls.len() as usize)));
    }
}


/// The line `l` opens a host block: trimmed, it starts with `Host `.
pub open spec fn is_host_line(l: Seq<char>) -> bool {
    starts_with(trim(l), "Host "@)
}

/// The host name a `Host` line gives: what follows `Host `, trimmed.
pub open spec fn host_line_name(l: Seq<char>) -> Seq<char> {
    trim(trim(l).subrange(5, trim(l).len() as int))
}

/// The positions (from 0) of the `Host` lines among the first `k` lines,
/// in order.
pub open spec fn host_line_positions(ls: Seq<Seq<char>>, k: int) -> Seq<int>
    decreases k,
{
    if k <= 0 {
        Seq::empty()
    } else {
        host_line_positions(ls, k - 1) + if is_host_line(ls[k - 1]) {
            seq![k - 1]
        } else {
            Seq::<int>::empty()
        }
    }
}

/// The hosts finished and the one being read.
pub open spec fn all_hosts(st: ParseState) -> Seq<HostModel> {
    match st.current {
        Some(c) => st.hosts.push(c),
        None => st.hosts,
    }
}

/// How an annotation line is refused, whatever the host held before: the
/// annotation is malformed, or its key unknown.
pub open spec fn annotation_fault(raw: Seq<char>) -> Option<AnnotationFault> {
    match apply_annotation(empty_annotations(), raw) {
        Err(f) => Some(f),
        Ok(_) => None,
    }
}

/// Line `i` (from 0) is a refused annotation inside a host block.
pub open spec fn faulty_line(ls: Seq<Seq<char>>, i: int) -> bool {
    &&& starts_with(trim(ls[i]), "## sshx:"@)
    &&& annotation_fault(trim(ls[i])) is Some
    &&& host_line_positions(ls, i).len() > 0
}

/// The first refused annotation inside a host block among the first `k`
/// lines.
pub open spec fn first_faulty_line(ls: Seq<Seq<char>>, k: int) -> Option<int>
    decreases k,
{
    if k <= 0 {
        None
    } else {
        match first_faulty_line(ls, k - 1) {
            Some(i) => Some(i),
            None => if faulty_line(ls, k - 1) {
                Some(k - 1)
            } else {
                None
            },
        }
    }
}

/// The error a refused annotation at line `i` (from 0) of `file` gives.
pub open spec fn annotation_error(ls: Seq<Seq<char>>, i: int, file: Seq<char>) -> Option<ErrorView> {
    let t = trim(ls[i]);
    match annotation_fault(t) {
        Some(AnnotationFault::Malformed) => Some(
            ErrorView::AnnotationParseError { file, line: (i + 1) as usize, raw: t },
        ),
        Some(AnnotationFault::UnknownKey(key)) => Some(
            ErrorView::UnknownAnnotationKey { file, line: (i + 1) as usize, key },
        ),
        None => None,
    }
}

proof fn lemma_annotation_fault(a: AnnotationsModel, raw: Seq<char>)
    ensures
        match apply_annotation(a, raw) {
            Ok(_) => annotation_fault(raw) is None,
            Err(f) => annotation_fault(raw) == Some(f),
        },
{
}

proof fn lemma_host_line_positions(ls: Seq<Seq<char>>, k: int)
    requires
        0 <= k <= ls.len(),
    ensures
        forall|j: int|
            0 <= j < host_line_positions(ls, k).len() ==> {
                &&& 0 <= #[trigger] host_line_positions(ls, k)[j] < k
                &&& is_host_line(ls[host_line_positions(ls, k)[j]])
            },
        forall|j1: int, j2: int|
            0 <= j1 < j2 < host_line_positions(ls, k).len() ==> #[trigger] host_line_positions(
                ls,
                k,
            )[j1] < #[trigger] host_line_positions(ls, k)[j2],
        forall|i: int|
            0 <= i < k && #[trigger] is_host_line(ls[i]) ==> exists|j: int|
                0 <= j < host_line_positions(ls, k).len() && host_line_positions(ls, k)[j] == i,
    decreases k,
{
    if k > 0 {
        lemma_host_line_positions(ls, k - 1);
        let h0 = host_line_positions(ls, k - 1);
        let h1 = host_line_positions(ls, k);
        if is_host_line(ls[k - 1]) {
            assert(h1 == h0.push(k - 1));
            assert forall|i: int| 0 <= i < k && #[trigger] is_host_line(ls[i]) implies exists|j: int|
                0 <= j < h1.len() && h1[j] == i by {
                if i == k - 1 {
                    assert(h1[h0.len() as int] == i);
                } else {
                    let j = choose|j: int| 0 <= j < h0.len() && h0[j] == i;
                    assert(h1[j] == i);
                }
            }
        } else {
            assert(h1 =~= h0);
        }
    }
}

/// What holds after the first `k` lines: an error is the one of the first
/// refused annotation inside a host block; else there is none, and the
/// hosts read so far are those of the `Host` lines met, in order, each
/// named by its line and starting at it.
proof fn lemma_parse_prefix_lines(ls: Seq<Seq<char>>, k: int, file: Seq<char>, home: Seq<char>)
    requires
        0 <= k <= ls.len(),
        ls.len() < usize::MAX,
    ensures
        match parse_prefix(ls, k, file, home) {
            Err(e) => first_faulty_line(ls, k) matches Some(i) && annotation_error(ls, i, file)
                == Some(e),
            Ok(st) => {
                let hs = all_hosts(st);
                let pos = host_line_positions(ls, k);
                &&& first_faulty_line(ls, k) is None
                &&& (st.current is Some <==> pos.len() > 0)
                &&& hs.len() == pos.len()
                &&& forall|j: int|
                    0 <= j < hs.len() ==> (#[trigger] hs[j]).source.line_start == pos[j] + 1
                        && hs[j].name == host_line_name(ls[pos[j]])
            },
        },
    decreases k,
{
    if k > 0 {
        lemma_parse_prefix_lines(ls, k - 1, file, home);
        reveal_strlit("Host ");
        reveal_strlit("## sshx:");
        let pos0 = host_line_positions(ls, k - 1);
        let pos1 = host_line_positions(ls, k);
        match parse_prefix(ls, k - 1, file, home) {
            Err(e) => {},
            Ok(st) => {
                let t = trim(ls[k - 1]);
                let hs0 = all_hosts(st);
                if t.len() > 0 && t[0] == '#' {
                    assert(!is_host_line(ls[k - 1])) by {
                        if is_host_line(ls[k - 1]) {
                            assert(t.subrange(0, 5)[0] == t[0]);
                        }
                    }
                    assert(pos1 =~= pos0);
                }
                if starts_with(t, "## sshx:"@) {
                    assert(t.subrange(0, 8)[0] == t[0]);
                    if let Some(h) = st.current {
                        lemma_annotation_fault(h.sshx, t);
                        match apply_annotation(h.sshx, t) {
                            Ok(a) => {
                                let st2 = parse_prefix(ls, k, file, home)->Ok_0;
                                let hs2 = all_hosts(st2);
                                assert(hs2 == hs0.update(hs0.len() - 1, HostModel { sshx: a, ..h }));
                                assert(hs0[hs0.len() - 1] == h);
                                assert forall|j: int| 0 <= j < hs2.len() implies (#[trigger] hs2[j]).source.line_start
                                    == pos1[j] + 1 && hs2[j].name == host_line_name(ls[pos1[j]]) by {
                                    assert(hs2[j].name == hs0[j].name && hs2[j].source == hs0[j].source);
                                }
                            },
                            Err(f) => {},
                        }
                    }
                } else if t.len() == 0 || t[0] == '#' {
                    if t.len() == 0 {
                        assert(pos1 =~= pos0);
                    }
                } else if starts_with(t, "Host "@) {
                    assert(pos1 == pos0.push(k - 1));
                    let st2 = parse_prefix(ls, k, file, home)->Ok_0;
                    let hs2 = all_hosts(st2);
                    match st.current {
                        Some(h) => {
                            assert(st2.hosts == st.hosts.push(close_host(h, (k - 1) as usize)));
                            assert forall|j: int| 0 <= j < hs2.len() implies (#[trigger] hs2[j]).source.line_start
                                == pos1[j] + 1 && hs2[j].name == host_line_name(ls[pos1[j]]) by {
                                if j < hs0.len() {
                                    assert(hs2[j].name == hs0[j].name);
                                    assert(pos1[j] == pos0[j]);
                                }
                            }
                        },
                        None => {
                            assert forall|j: int| 0 <= j < hs2.len() implies (#[trigger] hs2[j]).source.line_start
                                == pos1[j] + 1 && hs2[j].name == host_line_name(ls[pos1[j]]) by {
                                assert(j == 0);
                            }
                        },
                    }
                } else {
                    assert(pos1 =~= pos0);
                    if let Some(h) = st.current {
                        let st2 = parse_prefix(ls, k, file, home)->Ok_0;
                        let e = find_from(t, ' ', 0);
                        assert(apply_option(h, t, home).source == h.source);
                        assert(apply_option(h, t, home).name == h.name);
                        let hs2 = all_hosts(st2);
                        assert(hs2 == hs0.update(hs0.len() - 1, apply_option(h, t, home)));
                        assert(hs0[hs0.len() - 1] == h);
                        assert forall|j: int| 0 <= j < hs2.len() implies (#[trigger] hs2[j]).source.line_start
                            == pos1[j] + 1 && hs2[j].name == host_line_name(ls[pos1[j]]) by {
                            assert(hs2[j].name == hs0[j].name && hs2[j].source == hs0[j].source);
                        }
                    }
                }
            },
        }
    }
}

/// Law: a parse that succeeds gives one host per `Host` line, in the
/// order of the lines; each host is named by what follows `Host ` on its
/// line and its block starts at that line. Blank lines, comments and
/// lines before the first `Host` line make no host.
pub proof fn law_hosts_are_the_host_lines(content: Seq<char>, file: Seq<char>, home: Seq<char>)
    requires
        parse_config(content, file, home) is Ok,
        lines(content).len() < usize::MAX,
    ensures
        ({
            let ls = lines(content);
            let hs = parse_config(content, file, home)->Ok_0;
            let pos = host_line_positions(ls, ls.len() as int);
            &&& hs.len() == pos.len()
            &&& forall|j: int|
                0 <= j < hs.len() ==> {
                    &&& 0 <= #[trigger] pos[j] < ls.len()
                    &&& is_host_line(ls[pos[j]])
                    &&& hs[j].source.line_start == pos[j] + 1
                    &&& hs[j].name == host_line_name(ls[pos[j]])
                }
            &&& forall|j1: int, j2: int| 0 <= j1 < j2 < pos.len() ==> #[trigger] pos[j1] < #[trigger] pos[j2]
            &&& forall|i: int|
                0 <= i < ls.len() && #[trigger] is_host_line(ls[i]) ==> exists|j: int|
                    0 <= j < pos.len() && pos[j] == i
        }),
{
    let ls = lines(content);
    let n = ls.len() as int;
    lemma_parse_prefix_lines(ls, n, file, home);
    lemma_host_line_positions(ls, n);
    let st = parse_prefix(ls, n, file, home)->Ok_0;
    let hs = parse_config(content, file, home)->Ok_0;
    let a = all_hosts(st);
    if let Some(c) = st.current {
        assert(hs == st.hosts.push(close_host(c, ls.len() as usize)));
        assert forall|j: int| 0 <= j < hs.len() implies hs[j].name == a[j].name
            && hs[j].source.line_start == a[j].source.line_start by {
            if j < st.hosts.len() {
                assert(hs[j] == a[j]);
            }
        }
    } else {
        assert(hs == a);
    }
}

/// Law: a parse fails exactly when some annotation line inside a host
/// block is refused (it has no `=`, or its key is not one of `group`,
/// `password`, `requires`, `alias`, `background`, `description`,
/// `after_connect`); the error is that of the first such line, with the
/// file and the line's number (from 1).
pub proof fn law_parse_fails_on_first_bad_annotation(content: Seq<char>, file: Seq<char>, home: Seq<char>)
    requires
        lines(content).len() < usize::MAX,
    ensures
        ({
            let ls = lines(content);
            match first_faulty_line(ls, ls.len() as int) {
                None => parse_config(content, file, home) is Ok,
                Some(i) => {
                    &&& 0 <= i < ls.len()
                    &&& faulty_line(ls, i)
                    &&& forall|q: int| 0 <= q < i ==> !#[trigger] faulty_line(ls, q)
                    &&& parse_config(content, file, home) matches Err(e) && annotation_error(ls, i, file) == Some(e)
                },
            }
        }),
{
    let ls = lines(content);
    let n = ls.len() as int;
    lemma_parse_prefix_lines(ls, n, file, home);
    lemma_first_faulty_line(ls, n);
}

proof fn lemma_first_faulty_line(ls: Seq<Seq<char>>, k: int)
    requires
        0 <= k <= ls.len(),
    ensures
        match first_faulty_line(ls, k) {
            None => forall|q: int| 0 <= q < k ==> !#[trigger] faulty_line(ls, q),
            Some(i) => 0 <= i < k && faulty_line(ls, i) && forall|q: int| 0 <= q < i ==> !#[trigger] faulty_line(ls, q),
        },
    decreases k,
{
    if k > 0 {
        lemma_first_faulty_line(ls, k - 1);
    }
}

/// Law: an annotation with an `=` is accepted exactly when its key is one
/// of the keys the hint of an unknown key lists.
pub proof fn law_annotation_keys_accepted(a: AnnotationsModel, raw: Seq<char>)
    requires
        find_from(annotation_body(raw), '=', 0) < annotation_body(raw).len(),
    ensures
        apply_annotation(a, raw) is Ok <==> annotation_keys().contains(
            trim(annotation_body(raw).subrange(0, find_from(annotation_body(raw), '=', 0))),
        ),
{
    let body = annotation_body(raw);
    let key = trim(body.subrange(0, find_from(body, '=', 0)));
    let ks = annotation_keys();
    if apply_annotation(a, raw) is Ok {
        if key == "group"@ {
            assert(ks[0] == key);
        } else if key == "password"@ {
            assert(ks[1] == key);
        } else if key == "requires"@ {
            assert(ks[2] == key);
        } else if key == "alias"@ {
            assert(ks[3] == key);
        } else if key == "background"@ {
            assert(ks[4] == key);
        } else if key == "description"@ {
            assert(ks[5] == key);
        } else {
            assert(ks[6] == key);
        }
    } else {
        assert forall|i: int| 0 <= i < ks.len() implies ks[i] != key by {
            assert(ks[0] == "group"@ && ks[1] == "password"@ && ks[2] == "requires"@ && ks[3] == "alias"@);
            assert(ks[4] == "background"@ && ks[5] == "description"@ && ks[6] == "after_connect"@);
        }
    }
}

/// The text of `## sshx:` + `p` + `background` + `q` + `=` + `v`.
pub open spec fn background_line(p: Seq<char>, q: Seq<char>, v: Seq<char>) -> Seq<char> {
    "## sshx:"@ + p + "background"@ + q + "="@ + v
}

/// The body of such a line runs from `background` to a point `b` past
/// the `=`, after which only blanks follow.
proof fn lemma_background_body(p: Seq<char>, q: Seq<char>, v: Seq<char>) -> (b: int)
    requires
        forall|k: int| 0 <= k < p.len() ==> is_ws(#[trigger] p[k]),
    ensures
        ({
            let s1 = p + "background"@ + q + "="@ + v;
            &&& p.len() + 10 + q.len() < b <= s1.len()
            &&& annotation_body(background_line(p, q, v)) == s1.subrange(p.len() as int, b)
            &&& forall|k: int| b <= k < s1.len() ==> is_ws(#[trigger] s1[k])
        }),
{
    reveal_strlit("## sshx:");
    reveal_strlit("background");
    reveal_strlit("=");
    let m = "## sshx:"@;
    let kw = "background"@;
    let raw = background_line(p, q, v);
    let s1 = p + kw + q + "="@ + v;
    let pl = p.len() as int;
    let ql = q.len() as int;
    let e = pl + 10 + ql;
    assert(raw =~= m + s1);
    assert(starts_with(raw, m)) by {
        assert(raw.subrange(0, 8) =~= m);
    }
    assert(raw.subrange(8, raw.len() as int) =~= s1);
    assert(!starts_with(s1, m)) by {
        if starts_with(s1, m) {
            assert(s1.subrange(0, 8)[0] == s1[0]);
            if pl > 0 {
                assert(s1[0] == p[0]);
            } else {
                assert(s1[0] == kw[0]);
            }
        }
    }
    assert(m.len() == 8);
    assert(strip_prefix_all(raw, m) == strip_prefix_all(raw.subrange(8, raw.len() as int), m));
    assert(strip_prefix_all(s1, m) == s1);
    assert forall|k: int| 0 <= k < pl implies in_class(s1[k], CharClass::Space) by {
        assert(s1[k] == p[k]);
    }
    assert(s1[pl] == 'b');
    lemma_skip_while_at(s1, 0, CharClass::Space, pl);
    let b = back_while(s1, s1.len() as int, pl, CharClass::Space);
    lemma_back_while_bounds(s1, s1.len() as int, pl, CharClass::Space);
    assert(s1[e] == '=');
    assert(b > e) by {
        if b <= e {
            assert(in_class(s1[e], CharClass::Space));
        }
    }
    b
}

/// Law: an annotation `## sshx: background = V`, with any blanks around
/// `background` and the `=`, switches background mode on exactly when
/// `V`, trimmed and unquoted, is `true` or `1`; it changes nothing else.
#[verifier::rlimit(40)]
pub proof fn law_background_annotation(a: AnnotationsModel, p: Seq<char>, q: Seq<char>, v: Seq<char>)
    requires
        forall|k: int| 0 <= k < p.len() ==> is_ws(#[trigger] p[k]),
        forall|k: int| 0 <= k < q.len() ==> is_ws(#[trigger] q[k]),
    ensures
        apply_annotation(a, background_line(p, q, v)) == Ok::<AnnotationsModel, AnnotationFault>(
            AnnotationsModel {
                background: trim_quotes(trim(v)) == "true"@ || trim_quotes(trim(v)) == "1"@,
                ..a
            },
        ),
{
    let b = lemma_background_body(p, q, v);
    reveal_strlit("background");
    reveal_strlit("=");
    reveal_strlit("group");
    reveal_strlit("password");
    reveal_strlit("requires");
    reveal_strlit("alias");
    let kw = "background"@;
    let s1 = p + kw + q + "="@ + v;
    let pl = p.len() as int;
    let ql = q.len() as int;
    let e = pl + 10 + ql;
    let body = s1.subrange(pl, b);
    assert forall|k: int| 0 <= k < 10 + ql implies body[k] != '=' by {
        if k < 10 {
            assert(body[k] == kw[k]);
        } else {
            assert(body[k] == q[k - 10]);
        }
    }
    assert(body[10 + ql] == '=');
    lemma_find_from_at(body, '=', 0, 10 + ql);
    assert(body.subrange(0, 10 + ql) =~= kw + q);
    lemma_trim_ws_suffix(kw, q);
    lemma_trim_by_at(kw, CharClass::Space, 0, 10);
    assert(kw.subrange(0, 10) =~= kw);
    let vl = b - e - 1;
    let vs = v.subrange(vl, v.len() as int);
    assert(body.subrange(11 + ql, body.len() as int) =~= v.subrange(0, vl));
    assert(v =~= v.subrange(0, vl) + vs);
    assert forall|k: int| 0 <= k < vs.len() implies is_ws(#[trigger] vs[k]) by {
        assert(vs[k] == s1[b + k]);
    }
    lemma_trim_ws_suffix(v.subrange(0, vl), vs);
}

/// Law: a `StrictHostKeyChecking` value names the setting of the same
/// name: `yes`, `no`, `ask`, and `accept-new` (or `accept_new`); every
/// other value names none.
pub proof fn law_strict_keywords(v: Seq<char>)
    ensures
        strict_value(v) == Some(StrictHostChecking::Yes) <==> v == "yes"@,
        strict_value(v) == Some(StrictHostChecking::No) <==> v == "no"@,
        strict_value(v) == Some(StrictHostChecking::Ask) <==> v == "ask"@,
        strict_value(v) == Some(StrictHostChecking::AcceptNew) <==> (v == "accept-new"@ || v == "accept_new"@),
        strict_value(v) is None <==> !(v == "yes"@ || v == "no"@ || v == "ask"@ || v == "accept-new"@
            || v == "accept_new"@),
{
    reveal_strlit("yes");
    reveal_strlit("no");
    reveal_strlit("ask");
    reveal_strlit("accept-new");
    reveal_strlit("accept_new");
    assert("no"@.len() != "yes"@.len());
    assert("ask"@[0] != "yes"@[0]);
    assert("ask"@.len() != "no"@.len());
    assert("accept-new"@.len() != "yes"@.len());
    assert("accept-new"@.len() != "no"@.len());
    assert("accept-new"@.len() != "ask"@.len());
    assert("accept_new"@.len() != "yes"@.len());
    assert("accept_new"@.len() != "no"@.len());
    assert("accept_new"@.len() != "ask"@.len());
}

/// Law: the value the SSH command is given for a setting reads back as
/// that setting, so a config's setting reaches `ssh` unchanged.
pub proof fn law_strict_round_trip(s: StrictHostChecking)
    ensures
        strict_value(strict_text(s)) == Some(s),
{
    reveal_strlit("yes");
    reveal_strlit("no");
    reveal_strlit("ask");
    reveal_strlit("accept-new");
    reveal_strlit("accept_new");
    assert("no"@.len() != "yes"@.len());
    assert("ask"@[0] != "yes"@[0]);
    assert("ask"@.len() != "no"@.len());
    assert("accept-new"@.len() != "yes"@.len());
    assert("accept-new"@.len() != "no"@.len());
    assert("accept-new"@.len() != "ask"@.len());
    assert("accept_new"@.len() != "yes"@.len());
    assert("accept_new"@.len() != "no"@.len());
    assert("accept_new"@.len() != "ask"@.len());
}

} // verus!
