//! What the parser makes of the lines that `sshx config add` writes: the
//! host that was entered, and nothing else changed.

use vstd::prelude::*;

use crate::commands::{appended, line_if, new_host_block, new_host_lines, NewHostModel};
use crate::model::{empty_annotations, fresh_host, AnnotationsModel, HostModel};
use crate::parser::{
    annotation_body, apply_annotation, apply_option, close_host, lemma_parse_prefix_agree,
    parse_config, parse_prefix, parse_step, ParseState,
};
use crate::text::{
    find_from, in_class, is_ws, lemma_find_from_at, lemma_lines_append, lemma_lines_newline_end,
    lemma_lines_of_joined, lemma_trim_by_at, lemma_trim_strip_cr, lines, lower_seq, starts_with, strip_cr,
    strip_last_cr, strip_prefix_all, trim, trim_quotes, CharClass,
};

verus! {

/// An answer that reads back as it was typed: no newline, and no
/// whitespace at either end.
pub open spec fn plain_answer(s: Seq<char>) -> bool {
    &&& !s.contains('\n')
    &&& s.len() > 0 ==> !is_ws(s[0]) && !is_ws(s.last())
}

/// A text that does not start or end with a double quote.
pub open spec fn unquoted(s: Seq<char>) -> bool {
    s.len() > 0 ==> s[0] != '"' && s.last() != '"'
}

/// A text trims to itself when it starts and ends with non-whitespace.
proof fn lemma_trim_plain(s: Seq<char>)
    requires
        s.len() > 0,
        !is_ws(s[0]),
        !is_ws(s.last()),
    ensures
        trim(s) == s,
{
    lemma_trim_by_at(s, CharClass::Space, 0, s.len() as int);
    assert(s.subrange(0, s.len() as int) =~= s);
}

/// The `Host` line of a new block.
proof fn lemma_step_host_line(st: ParseState, name: Seq<char>, idx: usize, file: Seq<char>, home: Seq<char>)
    requires
        name.len() > 0,
        plain_answer(name),
        idx < usize::MAX,
    ensures
        parse_step(st, "Host "@ + name, idx, file, home) == Ok::<ParseState, crate::error::ErrorView>(
            ParseState {
                hosts: match st.current {
                    Some(c) => st.hosts.push(close_host(c, idx)),
                    None => st.hosts,
                },
                current: Some(fresh_host(name, file, (idx + 1) as usize)),
            },
        ),
{
    reveal_strlit("Host ");
    reveal_strlit("## sshx:");
    let line = "Host "@ + name;
    assert(line[0] == 'H');
    assert(line.last() == name.last());
    lemma_trim_plain(line);
    let t = trim(line);
    assert(t == line);
    assert(!starts_with(t, "## sshx:"@)) by {
        if t.len() >= 8 {
            assert(t.subrange(0, 8)[0] == t[0]);
        }
    }
    assert(t.subrange(0, 5) =~= "Host "@);
    assert(t.subrange(5, t.len() as int) =~= name);
    lemma_trim_plain(name);
}

/// A key made of non-whitespace characters that is not `Host` and does not
/// start a comment.
pub open spec fn option_key(key: Seq<char>) -> bool {
    &&& key.len() > 0
    &&& forall|i: int| 0 <= i < key.len() ==> !is_ws(#[trigger] key[i])
    &&& key[0] != '#'
    &&& key != "Host"@
}

/// A line that starts with `key` is no `Host` line.
proof fn lemma_not_host_line(t: Seq<char>, key: Seq<char>)
    requires
        option_key(key),
        key.len() <= t.len(),
        t.subrange(0, key.len() as int) == key,
        key.len() < t.len() ==> t[key.len() as int] == ' ',
    ensures
        !starts_with(t, "Host "@),
{
    reveal_strlit("Host ");
    reveal_strlit("Host");
    if starts_with(t, "Host "@) {
        let h = "Host "@;
        assert(t.subrange(0, 5) == h);
        if key.len() >= 5 {
            assert(t[4] == key[4]);
            assert(t[4] == h[4]);
        } else if key.len() == 4 {
            assert forall|i: int| 0 <= i < 4 implies key[i] == "Host"@[i] by {
                assert(t[i] == key[i]);
                assert(t[i] == h[i]);
            }
            assert(key =~= "Host"@);
        } else {
            let n = key.len() as int;
            assert(t[n] == ' ');
            assert(t[n] == h[n]);
        }
    }
}

/// An option line `    KEY VALUE` of a new block is applied to the host
/// being read; with no value the line is `KEY` alone.
proof fn lemma_step_option(st: ParseState, key: Seq<char>, v: Seq<char>, idx: usize, file: Seq<char>, home: Seq<char>)
    requires
        st.current is Some,
        option_key(key),
        plain_answer(v),
    ensures
        parse_step(st, "    "@ + key + " "@ + v, idx, file, home) == Ok::<ParseState, crate::error::ErrorView>(
            ParseState {
                current: Some(
                    apply_option(
                        st.current->Some_0,
                        if v.len() > 0 {
                            key + " "@ + v
                        } else {
                            key
                        },
                        home,
                    ),
                ),
                ..st
            },
        ),
{
    reveal_strlit("    ");
    reveal_strlit(" ");
    reveal_strlit("## sshx:");
    let line = "    "@ + key + " "@ + v;
    let n = key.len() as int;
    assert forall|k: int| 0 <= k < 4 implies in_class(#[trigger] line[k], CharClass::Space) by {
        assert(line[k] == ' ');
    }
    assert(line[4] == key[0]);
    let t = trim(line);
    if v.len() > 0 {
        assert(line.last() == v.last());
        lemma_trim_by_at(line, CharClass::Space, 4, line.len() as int);
        assert(t =~= key + " "@ + v);
        assert(t.subrange(0, n) =~= key);
        assert(t[n] == ' ');
    } else {
        assert(line[4 + n - 1] == key[n - 1]);
        assert(line[4 + n] == ' ');
        assert(line.len() == 5 + n);
        lemma_trim_by_at(line, CharClass::Space, 4, 4 + n);
        assert(t =~= key);
        assert(t.subrange(0, n) =~= key);
    }
    assert(t[0] == key[0]);
    assert(!starts_with(t, "## sshx:"@)) by {
        if t.len() >= 8 {
            assert(t.subrange(0, 8)[0] == t[0]);
        }
    }
    lemma_not_host_line(t, key);
}

/// An option line `KEY VALUE` splits at its first space into the key and
/// the value.
proof fn lemma_option_parts(key: Seq<char>, v: Seq<char>)
    requires
        option_key(key),
        v.len() > 0,
        plain_answer(v),
    ensures
        ({
            let line = key + " "@ + v;
            &&& find_from(line, ' ', 0) == key.len()
            &&& line.subrange(0, key.len() as int) == key
            &&& trim(line.subrange(key.len() + 1int, line.len() as int)) == v
        }),
{
    reveal_strlit(" ");
    let line = key + " "@ + v;
    let n = key.len() as int;
    assert forall|k: int| 0 <= k < n implies line[k] != ' ' by {
        assert(line[k] == key[k]);
        assert(!is_ws(key[k]));
    }
    assert(line[n] == ' ');
    lemma_find_from_at(line, ' ', 0, n);
    assert(line.subrange(0, n) =~= key);
    assert(line.subrange(n + 1, line.len() as int) =~= v);
    lemma_trim_plain(v);
}

/// The keys of the options a new block holds, in lower case.
proof fn lemma_option_keys()
    ensures
        option_key("HostName"@),
        option_key("Port"@),
        option_key("User"@),
        lower_seq("HostName"@) == "hostname"@,
        lower_seq("Port"@) == "port"@,
        lower_seq("User"@) == "user"@,
{
    reveal_strlit("HostName");
    reveal_strlit("Port");
    reveal_strlit("User");
    reveal_strlit("Host");
    reveal_strlit("hostname");
    reveal_strlit("port");
    reveal_strlit("user");
    assert(lower_seq("HostName"@) =~= "hostname"@);
    assert(lower_seq("Port"@) =~= "port"@);
    assert(lower_seq("User"@) =~= "user"@);
    assert("HostName"@ != "Host"@);
    assert("Port"@ != "Host"@) by {
        assert("Port"@[0] != "Host"@[0]);
    }
    assert("User"@ != "Host"@) by {
        assert("User"@[0] != "Host"@[0]);
    }
}

/// An annotation key: non-whitespace characters other than `=`.
pub open spec fn annotation_key(key: Seq<char>) -> bool {
    &&& key.len() > 0
    &&& forall|i: int| 0 <= i < key.len() ==> !is_ws(#[trigger] key[i]) && key[i] != '='
}

/// An annotation value as a new block writes it: it starts and ends with
/// non-whitespace and holds no newline.
pub open spec fn annotation_text(x: Seq<char>) -> bool {
    &&& x.len() > 0
    &&& !is_ws(x[0])
    &&& !is_ws(x.last())
    &&& !x.contains('\n')
}

/// The annotation `## sshx: KEY = VALUE` splits into the key and the value.
proof fn lemma_annotation_parts(key: Seq<char>, x: Seq<char>)
    requires
        annotation_key(key),
        annotation_text(x),
    ensures
        ({
            let t = "## sshx: "@ + key + " = "@ + x;
            let body = annotation_body(t);
            let e = find_from(body, '=', 0);
            &&& body == key + " = "@ + x
            &&& e == key.len() + 1
            &&& trim(body.subrange(0, e)) == key
            &&& trim(body.subrange(e + 1, body.len() as int)) == x
        }),
{
    reveal_strlit("## sshx: ");
    reveal_strlit("## sshx:");
    reveal_strlit(" = ");
    reveal_strlit(" ");
    let t = "## sshx: "@ + key + " = "@ + x;
    let p = "## sshx:"@;
    assert(t.subrange(0, 8) =~= p);
    let r = t.subrange(8, t.len() as int);
    assert(r =~= " "@ + key + " = "@ + x);
    assert(!starts_with(r, p)) by {
        if r.len() >= 8 {
            assert(r.subrange(0, 8)[0] == r[0]);
        }
    }
    assert(strip_prefix_all(r, p) == r);
    assert(strip_prefix_all(t, p) == strip_prefix_all(t.subrange(p.len() as int, t.len() as int), p));
    assert(strip_prefix_all(t, p) == r);
    let n = key.len() as int;
    assert(r[0] == ' ');
    assert(r[1] == key[0]);
    assert(r.last() == x.last());
    lemma_trim_by_at(r, CharClass::Space, 1, r.len() as int);
    let body = r.subrange(1, r.len() as int);
    assert(body =~= key + " = "@ + x);
    assert(annotation_body(t) == body);
    assert forall|k: int| 0 <= k < n + 1 implies body[k] != '=' by {
        if k < n {
            assert(body[k] == key[k]);
        } else {
            assert(body[k] == ' ');
        }
    }
    assert(body[n + 1] == '=');
    lemma_find_from_at(body, '=', 0, n + 1);
    let kpart = body.subrange(0, n + 1);
    assert(kpart[n - 1] == key[n - 1]);
    assert(kpart[n] == ' ');
    lemma_trim_by_at(kpart, CharClass::Space, 0, n);
    assert(kpart.subrange(0, n) =~= key);
    let vpart = body.subrange(n + 2, body.len() as int);
    assert(vpart =~= " "@ + x);
    assert(vpart[1] == x[0]);
    assert(vpart.last() == x.last());
    assert(vpart[0] == ' ');
    lemma_trim_by_at(vpart, CharClass::Space, 1, vpart.len() as int);
    assert(vpart.subrange(1, vpart.len() as int) =~= x);
}

/// An annotation line `    ## sshx: KEY = VALUE` of a new block is applied
/// to the host being read.
proof fn lemma_step_annotation(
    st: ParseState,
    key: Seq<char>,
    x: Seq<char>,
    idx: usize,
    file: Seq<char>,
    home: Seq<char>,
)
    requires
        st.current is Some,
        annotation_key(key),
        annotation_text(x),
        apply_annotation(st.current->Some_0.sshx, "## sshx: "@ + key + " = "@ + x) is Ok,
    ensures
        parse_step(st, "    "@ + ("## sshx: "@ + key + " = "@ + x), idx, file, home) == Ok::<
            ParseState,
            crate::error::ErrorView,
        >(
            ParseState {
                current: Some(
                    HostModel {
                        sshx: apply_annotation(st.current->Some_0.sshx, "## sshx: "@ + key + " = "@ + x)->Ok_0,
                        ..st.current->Some_0
                    },
                ),
                ..st
            },
        ),
{
    reveal_strlit("    ");
    reveal_strlit("## sshx: ");
    reveal_strlit("## sshx:");
    let t = "## sshx: "@ + key + " = "@ + x;
    let line = "    "@ + t;
    assert forall|k: int| 0 <= k < 4 implies in_class(#[trigger] line[k], CharClass::Space) by {
        assert(line[k] == ' ');
    }
    assert(line[4] == '#');
    assert(line.last() == x.last());
    lemma_trim_by_at(line, CharClass::Space, 4, line.len() as int);
    assert(trim(line) =~= t);
    assert(t.subrange(0, 8) =~= "## sshx:"@);
    assert(t[0] == '#');
}

/// A text trims of quotes to itself when it does not start or end with one.
proof fn lemma_trim_quotes_unquoted(s: Seq<char>)
    requires
        s.len() > 0,
        unquoted(s),
    ensures
        trim_quotes(s) == s,
{
    lemma_trim_by_at(s, CharClass::Quote, 0, s.len() as int);
    assert(s.subrange(0, s.len() as int) =~= s);
}

/// The annotation keys a new block holds, and how they compare with the
/// others.
proof fn lemma_annotation_keys()
    ensures
        annotation_key("group"@),
        annotation_key("description"@),
        annotation_key("alias"@),
        "description"@ != "group"@,
        "description"@ != "password"@,
        "description"@ != "requires"@,
        "description"@ != "alias"@,
        "description"@ != "background"@,
        "alias"@ != "group"@,
        "alias"@ != "password"@,
        "alias"@ != "requires"@,
{
    reveal_strlit("group");
    reveal_strlit("description");
    reveal_strlit("alias");
    reveal_strlit("password");
    reveal_strlit("requires");
    reveal_strlit("background");
    assert("alias"@[0] != "group"@[0]);
    assert("description"@.len() != "background"@.len());
}

/// `## sshx: group = G` sets the group to `G`.
proof fn lemma_apply_group(a: crate::model::AnnotationsModel, g: Seq<char>)
    requires
        annotation_text(g),
        unquoted(g),
    ensures
        apply_annotation(a, "## sshx: "@ + "group"@ + " = "@ + g) == Ok::<
            crate::model::AnnotationsModel,
            crate::parser::AnnotationFault,
        >(crate::model::AnnotationsModel { group: Some(g), ..a }),
{
    lemma_annotation_keys();
    lemma_annotation_parts("group"@, g);
    lemma_trim_quotes_unquoted(g);
}

/// `## sshx: alias = A` sets the alias to `A`.
proof fn lemma_apply_alias(a: crate::model::AnnotationsModel, x: Seq<char>)
    requires
        annotation_text(x),
        unquoted(x),
    ensures
        apply_annotation(a, "## sshx: "@ + "alias"@ + " = "@ + x) == Ok::<
            crate::model::AnnotationsModel,
            crate::parser::AnnotationFault,
        >(crate::model::AnnotationsModel { alias: Some(x), ..a }),
{
    lemma_annotation_keys();
    lemma_annotation_parts("alias"@, x);
    lemma_trim_quotes_unquoted(x);
}

/// `## sshx: description = "D"` sets the description to `D`.
proof fn lemma_apply_description(a: crate::model::AnnotationsModel, d: Seq<char>)
    requires
        d.len() > 0,
        !d.contains('\n'),
        unquoted(d),
    ensures
        annotation_text("\""@ + d + "\""@),
        apply_annotation(a, "## sshx: "@ + "description"@ + " = "@ + ("\""@ + d + "\""@)) == Ok::<
            crate::model::AnnotationsModel,
            crate::parser::AnnotationFault,
        >(crate::model::AnnotationsModel { description: Some(d), ..a }),
{
    reveal_strlit("\"");
    let x = "\""@ + d + "\""@;
    assert(x[0] == '"');
    assert(x.last() == '"');
    assert(!x.contains('\n')) by {
        if x.contains('\n') {
            let k = choose|k: int| 0 <= k < x.len() && x[k] == '\n';
            assert(d[k - 1] == x[k]);
        }
    }
    lemma_annotation_keys();
    lemma_annotation_parts("description"@, x);
    assert(x[1] == d[0]);
    assert(x[x.len() - 2] == d.last());
    lemma_trim_by_at(x, CharClass::Quote, 1, x.len() - 1);
    assert(x.subrange(1, x.len() - 1) =~= d);
}

/// `HostName VALUE` sets the hostname; a bare `HostName` changes nothing.
proof fn lemma_apply_hostname(h: HostModel, v: Seq<char>, home: Seq<char>)
    requires
        plain_answer(v),
    ensures
        apply_option(
            h,
            if v.len() > 0 {
                "HostName"@ + " "@ + v
            } else {
                "HostName"@
            },
            home,
        ) == if v.len() > 0 {
            HostModel { hostname: v, ..h }
        } else {
            h
        },
{
    lemma_option_keys();
    if v.len() > 0 {
        lemma_option_parts("HostName"@, v);
    } else {
        let k = "HostName"@;
        assert forall|i: int| 0 <= i < k.len() implies k[i] != ' ' by {
            assert(!is_ws(k[i]));
        }
        lemma_find_from_at(k, ' ', 0, k.len() as int);
    }
}

/// `Port N` sets the port to `N`.
proof fn lemma_apply_port(h: HostModel, p: u16, home: Seq<char>)
    ensures
        plain_answer(crate::text::dec(p as nat)),
        apply_option(h, "Port"@ + " "@ + crate::text::dec(p as nat), home) == (HostModel { port: Some(p), ..h }),
{
    reveal_strlit("port");
    reveal_strlit("hostname");
    reveal_strlit("Port");
    let d = crate::text::dec(p as nat);
    crate::text::lemma_parse_dec_u16(p);
    assert(!d.contains('\n')) by {
        if d.contains('\n') {
            let k = choose|k: int| 0 <= k < d.len() && d[k] == '\n';
            assert(crate::text::is_digit(d[k]));
        }
    }
    assert(crate::text::is_digit(d[0]));
    assert(crate::text::is_digit(d[d.len() - 1]));
    assert(plain_answer(d));
    lemma_option_keys();
    lemma_option_parts("Port"@, d);
    let line = "Port"@ + " "@ + d;
    let e = find_from(line, ' ', 0);
    assert(e == 4);
    let key = line.subrange(0, e);
    assert(key == "Port"@);
    let value = trim(line.subrange(e + 1, line.len() as int));
    assert(value == d);
    assert(lower_seq(key) == "port"@);
    assert("port"@ != "hostname"@) by {
        assert("port"@.len() != "hostname"@.len());
    }
    assert(crate::text::parse_u16(value) == Some(p));
}

/// `User U` sets the user to `U`.
proof fn lemma_apply_user(h: HostModel, u: Seq<char>, home: Seq<char>)
    requires
        u.len() > 0,
        plain_answer(u),
    ensures
        apply_option(h, "User"@ + " "@ + u, home) == (HostModel { user: Some(u), ..h }),
{
    reveal_strlit("user");
    reveal_strlit("port");
    reveal_strlit("hostname");
    assert("user"@[0] != "port"@[0]);
    lemma_option_keys();
    lemma_option_parts("User"@, u);
}

/// Parsing one more line takes one more step.
proof fn lemma_prefix_push(ls: Seq<Seq<char>>, x: Seq<char>, file: Seq<char>, home: Seq<char>)
    ensures
        crate::parser::parse_prefix(ls.push(x), ls.len() + 1int, file, home) == match crate::parser::parse_prefix(
            ls,
            ls.len() as int,
            file,
            home,
        ) {
            Err(e) => Err(e),
            Ok(st) => parse_step(st, x, ls.len() as usize, file, home),
        },
{
    lemma_parse_prefix_agree(ls.push(x), ls, ls.len() as int, file, home);
    assert(ls.push(x)[ls.len() as int] == x);
}

// ---------------------------------------------------------------------------
// The block of a new host
// ---------------------------------------------------------------------------

/// Answers to the wizard that read back as they were typed: a name, and no
/// newline anywhere; no whitespace at the ends of the name, hostname, user,
/// group and alias; no double quote at the ends of the group, description
/// and alias.
pub open spec fn answers_read_back(h: NewHostModel) -> bool {
    &&& h.name.len() > 0
    &&& plain_answer(h.name)
    &&& plain_answer(h.hostname)
    &&& plain_answer(h.user)
    &&& plain_answer(h.group) && unquoted(h.group)
    &&& !h.description.contains('\n') && unquoted(h.description)
    &&& plain_answer(h.alias) && unquoted(h.alias)
}

/// A text, or nothing when it is empty.
pub open spec fn nonempty(s: Seq<char>) -> Option<Seq<char>> {
    if s.len() > 0 {
        Some(s)
    } else {
        None
    }
}

/// The host the answers `h` describe, its block starting at line
/// `line_start` of `file` (its end not known yet): the name, the hostname,
/// the port unless it is 22, the user, group, description and alias when
/// given, and nothing else.
pub open spec fn entered_host(h: NewHostModel, file: Seq<char>, line_start: usize) -> HostModel {
    HostModel {
        hostname: h.hostname,
        port: if h.port != 22 {
            Some(h.port)
        } else {
            None
        },
        user: nonempty(h.user),
        sshx: AnnotationsModel {
            group: nonempty(h.group),
            alias: nonempty(h.alias),
            description: nonempty(h.description),
            ..empty_annotations()
        },
        ..fresh_host(h.name, file, line_start)
    }
}

/// The lines of the block for `h`, without the empty line it ends with.
pub open spec fn block_lines(h: NewHostModel) -> Seq<Seq<char>> {
    new_host_lines(h).drop_last()
}

/// The parse of `p` in state `st` with a host being read, after one more
/// option line.
proof fn lemma_push_option(
    p: Seq<Seq<char>>,
    st: ParseState,
    key: Seq<char>,
    v: Seq<char>,
    file: Seq<char>,
    home: Seq<char>,
)
    requires
        parse_prefix(p, p.len() as int, file, home) == Ok::<ParseState, crate::error::ErrorView>(st),
        st.current is Some,
        option_key(key),
        plain_answer(v),
    ensures
        parse_prefix(p.push("    "@ + key + " "@ + v), p.len() + 1int, file, home) == Ok::<
            ParseState,
            crate::error::ErrorView,
        >(
            ParseState {
                current: Some(
                    apply_option(
                        st.current->Some_0,
                        if v.len() > 0 {
                            key + " "@ + v
                        } else {
                            key
                        },
                        home,
                    ),
                ),
                ..st
            },
        ),
{
    lemma_prefix_push(p, "    "@ + key + " "@ + v, file, home);
    lemma_step_option(st, key, v, p.len() as usize, file, home);
}

/// The parse of `p` in state `st` with a host being read, after one more
/// annotation line.
proof fn lemma_push_annotation(
    p: Seq<Seq<char>>,
    st: ParseState,
    key: Seq<char>,
    x: Seq<char>,
    file: Seq<char>,
    home: Seq<char>,
)
    requires
        parse_prefix(p, p.len() as int, file, home) == Ok::<ParseState, crate::error::ErrorView>(st),
        st.current is Some,
        annotation_key(key),
        annotation_text(x),
        apply_annotation(st.current->Some_0.sshx, "## sshx: "@ + key + " = "@ + x) is Ok,
    ensures
        parse_prefix(p.push("    "@ + ("## sshx: "@ + key + " = "@ + x)), p.len() + 1int, file, home) == Ok::<
            ParseState,
            crate::error::ErrorView,
        >(
            ParseState {
                current: Some(
                    HostModel {
                        sshx: apply_annotation(st.current->Some_0.sshx, "## sshx: "@ + key + " = "@ + x)->Ok_0,
                        ..st.current->Some_0
                    },
                ),
                ..st
            },
        ),
{
    lemma_prefix_push(p, "    "@ + ("## sshx: "@ + key + " = "@ + x), file, home);
    lemma_step_annotation(st, key, x, p.len() as usize, file, home);
}

/// A parse state reading host `x` after the hosts `hosts`.
pub open spec fn reading(hosts: Seq<HostModel>, x: HostModel) -> ParseState {
    ParseState { hosts, current: Some(x) }
}

/// The parse of all the lines `p`.
#[verifier::opaque]
pub open spec fn parsed(p: Seq<Seq<char>>, file: Seq<char>, home: Seq<char>) -> Result<
    ParseState,
    crate::error::ErrorView,
> {
    parse_prefix(p, p.len() as int, file, home)
}

/// The parse after a block's `Host` and `HostName` lines.
proof fn lemma_stage_head(ls0: Seq<Seq<char>>, h: NewHostModel, file: Seq<char>, home: Seq<char>)
    requires
        answers_read_back(h),
        parsed(ls0, file, home) is Ok,
        ls0.len() + 8 < usize::MAX,
    ensures
        ({
            let st0 = parsed(ls0, file, home)->Ok_0;
            let hosts1 = match st0.current {
                Some(c) => st0.hosts.push(close_host(c, ls0.len() as usize)),
                None => st0.hosts,
            };
            let p = ls0 + seq!["Host "@ + h.name, "    HostName "@ + h.hostname];
            parsed(p, file, home) == Ok::<ParseState, crate::error::ErrorView>(
                reading(
                    hosts1,
                    HostModel { hostname: h.hostname, ..fresh_host(h.name, file, (ls0.len() + 1) as usize) },
                ),
            )
        }),
{
    reveal(parsed);
    reveal_strlit("    HostName ");
    reveal_strlit("    ");
    reveal_strlit("HostName");
    reveal_strlit(" ");
    lemma_option_keys();
    let n0 = ls0.len() as int;
    let st0 = parsed(ls0, file, home)->Ok_0;
    let l1 = "Host "@ + h.name;
    lemma_prefix_push(ls0, l1, file, home);
    lemma_step_host_line(st0, h.name, n0 as usize, file, home);
    let p1 = ls0.push(l1);
    let h1 = fresh_host(h.name, file, (n0 + 1) as usize);
    let l2 = "    HostName "@ + h.hostname;
    assert(l2 =~= "    "@ + "HostName"@ + " "@ + h.hostname);
    let st1 = parse_prefix(p1, p1.len() as int, file, home)->Ok_0;
    lemma_push_option(p1, st1, "HostName"@, h.hostname, file, home);
    lemma_apply_hostname(h1, h.hostname, home);
    if h.hostname.len() == 0 {
        assert(h.hostname =~= Seq::<char>::empty());
        assert(HostModel { hostname: h.hostname, ..h1 } == h1);
    }
    assert(ls0 + seq![l1, l2] =~= p1.push(l2));
}

/// The parse after a block's `Port` line, if there is one.
proof fn lemma_stage_port(p: Seq<Seq<char>>, hosts: Seq<HostModel>, x: HostModel, port: u16, file: Seq<char>, home: Seq<char>)
    requires
        parsed(p, file, home) == Ok::<ParseState, crate::error::ErrorView>(reading(hosts, x)),
    ensures
        ({
            let q = p + line_if(port != 22, "    Port "@ + crate::text::dec(port as nat));
            parsed(q, file, home) == Ok::<ParseState, crate::error::ErrorView>(
                reading(
                    hosts,
                    HostModel {
                        port: if port != 22 {
                            Some(port)
                        } else {
                            x.port
                        },
                        ..x
                    },
                ),
            )
        }),
{
    reveal(parsed);
    let l = "    Port "@ + crate::text::dec(port as nat);
    let q = p + line_if(port != 22, l);
    if port != 22 {
        reveal_strlit("    Port ");
        reveal_strlit("    ");
        reveal_strlit("Port");
        reveal_strlit(" ");
        lemma_option_keys();
        assert(l =~= "    "@ + "Port"@ + " "@ + crate::text::dec(port as nat));
        lemma_apply_port(x, port, home);
        lemma_push_option(p, reading(hosts, x), "Port"@, crate::text::dec(port as nat), file, home);
        assert(q =~= p.push(l));
    } else {
        assert(q =~= p);
        assert(HostModel { port: x.port, ..x } == x);
    }
}

/// The parse after a block's `User` line, if there is one.
proof fn lemma_stage_user(p: Seq<Seq<char>>, hosts: Seq<HostModel>, x: HostModel, u: Seq<char>, file: Seq<char>, home: Seq<char>)
    requires
        parsed(p, file, home) == Ok::<ParseState, crate::error::ErrorView>(reading(hosts, x)),
        plain_answer(u),
    ensures
        ({
            let q = p + line_if(u.len() > 0, "    User "@ + u);
            parsed(q, file, home) == Ok::<ParseState, crate::error::ErrorView>(
                reading(
                    hosts,
                    HostModel {
                        user: if u.len() > 0 {
                            Some(u)
                        } else {
                            x.user
                        },
                        ..x
                    },
                ),
            )
        }),
{
    reveal(parsed);
    let l = "    User "@ + u;
    let q = p + line_if(u.len() > 0, l);
    if u.len() > 0 {
        reveal_strlit("    User ");
        reveal_strlit("    ");
        reveal_strlit("User");
        reveal_strlit(" ");
        lemma_option_keys();
        assert(l =~= "    "@ + "User"@ + " "@ + u);
        lemma_apply_user(x, u, home);
        lemma_push_option(p, reading(hosts, x), "User"@, u, file, home);
        assert(q =~= p.push(l));
    } else {
        assert(q =~= p);
        assert(HostModel { user: x.user, ..x } == x);
    }
}

/// The parse after a block's group annotation, if there is one.
proof fn lemma_stage_group(p: Seq<Seq<char>>, hosts: Seq<HostModel>, x: HostModel, g: Seq<char>, file: Seq<char>, home: Seq<char>)
    requires
        parsed(p, file, home) == Ok::<ParseState, crate::error::ErrorView>(reading(hosts, x)),
        plain_answer(g),
        unquoted(g),
    ensures
        ({
            let q = p + line_if(g.len() > 0, "    ## sshx: group = "@ + g);
            parsed(q, file, home) == Ok::<ParseState, crate::error::ErrorView>(
                reading(
                    hosts,
                    HostModel {
                        sshx: AnnotationsModel {
                            group: if g.len() > 0 {
                                Some(g)
                            } else {
                                x.sshx.group
                            },
                            ..x.sshx
                        },
                        ..x
                    },
                ),
            )
        }),
{
    reveal(parsed);
    let l = "    ## sshx: group = "@ + g;
    let q = p + line_if(g.len() > 0, l);
    if g.len() > 0 {
        reveal_strlit("    ## sshx: group = ");
        reveal_strlit("    ");
        reveal_strlit("## sshx: ");
        reveal_strlit("group");
        reveal_strlit(" = ");
        lemma_annotation_keys();
        assert(l =~= "    "@ + ("## sshx: "@ + "group"@ + " = "@ + g));
        lemma_apply_group(x.sshx, g);
        lemma_push_annotation(p, reading(hosts, x), "group"@, g, file, home);
        assert(q =~= p.push(l));
    } else {
        assert(q =~= p);
        assert(HostModel { sshx: AnnotationsModel { group: x.sshx.group, ..x.sshx }, ..x } == x);
    }
}

/// The parse after a block's description annotation, if there is one.
proof fn lemma_stage_description(
    p: Seq<Seq<char>>,
    hosts: Seq<HostModel>,
    x: HostModel,
    d: Seq<char>,
    file: Seq<char>,
    home: Seq<char>,
)
    requires
        parsed(p, file, home) == Ok::<ParseState, crate::error::ErrorView>(reading(hosts, x)),
        !d.contains('\n'),
        unquoted(d),
    ensures
        ({
            let q = p + line_if(d.len() > 0, "    ## sshx: description = \""@ + d + "\""@);
            parsed(q, file, home) == Ok::<ParseState, crate::error::ErrorView>(
                reading(
                    hosts,
                    HostModel {
                        sshx: AnnotationsModel {
                            description: if d.len() > 0 {
                                Some(d)
                            } else {
                                x.sshx.description
                            },
                            ..x.sshx
                        },
                        ..x
                    },
                ),
            )
        }),
{
    reveal(parsed);
    let l = "    ## sshx: description = \""@ + d + "\""@;
    let q = p + line_if(d.len() > 0, l);
    if d.len() > 0 {
        reveal_strlit("    ## sshx: description = \"");
        reveal_strlit("    ");
        reveal_strlit("## sshx: ");
        reveal_strlit("description");
        reveal_strlit(" = ");
        reveal_strlit("\"");
        lemma_annotation_keys();
        let v = "\""@ + d + "\""@;
        assert(l =~= "    "@ + ("## sshx: "@ + "description"@ + " = "@ + v));
        lemma_apply_description(x.sshx, d);
        lemma_push_annotation(p, reading(hosts, x), "description"@, v, file, home);
        assert(q =~= p.push(l));
    } else {
        assert(q =~= p);
        assert(HostModel { sshx: AnnotationsModel { description: x.sshx.description, ..x.sshx }, ..x } == x);
    }
}

/// The parse after a block's alias annotation, if there is one.
proof fn lemma_stage_alias(p: Seq<Seq<char>>, hosts: Seq<HostModel>, x: HostModel, a: Seq<char>, file: Seq<char>, home: Seq<char>)
    requires
        parsed(p, file, home) == Ok::<ParseState, crate::error::ErrorView>(reading(hosts, x)),
        plain_answer(a),
        unquoted(a),
    ensures
        ({
            let q = p + line_if(a.len() > 0, "    ## sshx: alias = "@ + a);
            parsed(q, file, home) == Ok::<ParseState, crate::error::ErrorView>(
                reading(
                    hosts,
                    HostModel {
                        sshx: AnnotationsModel {
                            alias: if a.len() > 0 {
                                Some(a)
                            } else {
                                x.sshx.alias
                            },
                            ..x.sshx
                        },
                        ..x
                    },
                ),
            )
        }),
{
    reveal(parsed);
    let l = "    ## sshx: alias = "@ + a;
    let q = p + line_if(a.len() > 0, l);
    if a.len() > 0 {
        reveal_strlit("    ## sshx: alias = ");
        reveal_strlit("    ");
        reveal_strlit("## sshx: ");
        reveal_strlit("alias");
        reveal_strlit(" = ");
        lemma_annotation_keys();
        assert(l =~= "    "@ + ("## sshx: "@ + "alias"@ + " = "@ + a));
        lemma_apply_alias(x.sshx, a);
        lemma_push_annotation(p, reading(hosts, x), "alias"@, a, file, home);
        assert(q =~= p.push(l));
    } else {
        assert(q =~= p);
        assert(HostModel { sshx: AnnotationsModel { alias: x.sshx.alias, ..x.sshx }, ..x } == x);
    }
}

/// The lines of a new block, piece by piece.
proof fn lemma_block_shape(h: NewHostModel)
    ensures
        block_lines(h) == seq!["Host "@ + h.name, "    HostName "@ + h.hostname]
            + line_if(h.port != 22, "    Port "@ + crate::text::dec(h.port as nat))
            + line_if(h.user.len() > 0, "    User "@ + h.user)
            + line_if(h.group.len() > 0, "    ## sshx: group = "@ + h.group)
            + line_if(h.description.len() > 0, "    ## sshx: description = \""@ + h.description + "\""@)
            + line_if(h.alias.len() > 0, "    ## sshx: alias = "@ + h.alias),
{
    let b = seq!["Host "@ + h.name, "    HostName "@ + h.hostname]
        + line_if(h.port != 22, "    Port "@ + crate::text::dec(h.port as nat))
        + line_if(h.user.len() > 0, "    User "@ + h.user)
        + line_if(h.group.len() > 0, "    ## sshx: group = "@ + h.group)
        + line_if(h.description.len() > 0, "    ## sshx: description = \""@ + h.description + "\""@)
        + line_if(h.alias.len() > 0, "    ## sshx: alias = "@ + h.alias);
    assert(new_host_lines(h) == b + seq![Seq::<char>::empty()]);
    assert((b + seq![Seq::<char>::empty()]).drop_last() =~= b);
}

/// Parsing the lines of a new block after other lines closes the host
/// being read and leaves the entered host open.
#[verifier::rlimit(40)]
proof fn lemma_block_lines(ls0: Seq<Seq<char>>, h: NewHostModel, file: Seq<char>, home: Seq<char>)
    requires
        answers_read_back(h),
        parsed(ls0, file, home) is Ok,
        ls0.len() + 8 < usize::MAX,
    ensures
        ({
            let st0 = parsed(ls0, file, home)->Ok_0;
            let hosts1 = match st0.current {
                Some(c) => st0.hosts.push(close_host(c, ls0.len() as usize)),
                None => st0.hosts,
            };
            let p = ls0 + block_lines(h);
            parsed(p, file, home) == Ok::<ParseState, crate::error::ErrorView>(
                reading(hosts1, entered_host(h, file, (ls0.len() + 1) as usize)),
            )
        }),
{
    let n0 = ls0.len() as int;
    let st0 = parsed(ls0, file, home)->Ok_0;
    let hosts1 = match st0.current {
        Some(c) => st0.hosts.push(close_host(c, n0 as usize)),
        None => st0.hosts,
    };
    lemma_stage_head(ls0, h, file, home);
    let p2 = ls0 + seq!["Host "@ + h.name, "    HostName "@ + h.hostname];
    let x2 = HostModel { hostname: h.hostname, ..fresh_host(h.name, file, (n0 + 1) as usize) };
    lemma_stage_port(p2, hosts1, x2, h.port, file, home);
    let p3 = p2 + line_if(h.port != 22, "    Port "@ + crate::text::dec(h.port as nat));
    let x3 = HostModel { port: if h.port != 22 { Some(h.port) } else { x2.port }, ..x2 };
    lemma_stage_user(p3, hosts1, x3, h.user, file, home);
    let p4 = p3 + line_if(h.user.len() > 0, "    User "@ + h.user);
    let x4 = HostModel { user: if h.user.len() > 0 { Some(h.user) } else { x3.user }, ..x3 };
    lemma_stage_group(p4, hosts1, x4, h.group, file, home);
    let p5 = p4 + line_if(h.group.len() > 0, "    ## sshx: group = "@ + h.group);
    let x5 = HostModel {
        sshx: AnnotationsModel { group: if h.group.len() > 0 { Some(h.group) } else { x4.sshx.group }, ..x4.sshx },
        ..x4
    };
    lemma_stage_description(p5, hosts1, x5, h.description, file, home);
    let p6 = p5 + line_if(h.description.len() > 0, "    ## sshx: description = \""@ + h.description + "\""@);
    let x6 = HostModel {
        sshx: AnnotationsModel {
            description: if h.description.len() > 0 { Some(h.description) } else { x5.sshx.description },
            ..x5.sshx
        },
        ..x5
    };
    lemma_stage_alias(p6, hosts1, x6, h.alias, file, home);
    let p7 = p6 + line_if(h.alias.len() > 0, "    ## sshx: alias = "@ + h.alias);
    let x7 = HostModel {
        sshx: AnnotationsModel { alias: if h.alias.len() > 0 { Some(h.alias) } else { x6.sshx.alias }, ..x6.sshx },
        ..x6
    };
    assert(x7 == entered_host(h, file, (n0 + 1) as usize));
    lemma_block_shape(h);
    assert(ls0 + block_lines(h) =~= p7);
}

/// A line that reads back as it is: no newline, and no carriage return at
/// its end.
pub open spec fn clean_line(l: Seq<char>) -> bool {
    !l.contains('\n') && (l.len() > 0 ==> l.last() != '\r')
}

/// Every line of `ls` reads back as it is.
pub open spec fn clean_lines(ls: Seq<Seq<char>>) -> bool {
    forall|i: int| 0 <= i < ls.len() ==> clean_line(#[trigger] ls[i])
}

/// A literal without newlines followed by a text without newlines is a
/// clean line when the text, or else the literal, does not end with a
/// carriage return.
proof fn lemma_clean_concat(lit: Seq<char>, x: Seq<char>)
    requires
        !lit.contains('\n'),
        !x.contains('\n'),
        x.len() > 0 ==> x.last() != '\r',
        x.len() == 0 ==> lit.len() > 0 && lit.last() != '\r',
    ensures
        clean_line(lit + x),
{
    let l = lit + x;
    if l.contains('\n') {
        let k = choose|k: int| 0 <= k < l.len() && l[k] == '\n';
        if k < lit.len() {
            assert(lit[k] == l[k]);
        } else {
            assert(x[k - lit.len()] == l[k]);
        }
    }
    if x.len() > 0 {
        assert(l.last() == x.last());
    } else {
        assert(l.last() == lit.last());
    }
}

/// Two texts without newlines make one without newlines.
proof fn lemma_no_newline_concat(a: Seq<char>, b: Seq<char>)
    requires
        !a.contains('\n'),
        !b.contains('\n'),
    ensures
        !(a + b).contains('\n'),
{
    let l = a + b;
    if l.contains('\n') {
        let k = choose|k: int| 0 <= k < l.len() && l[k] == '\n';
        if k < a.len() {
            assert(a[k] == l[k]);
        } else {
            assert(b[k - a.len()] == l[k]);
        }
    }
}

/// Lines joined one after the other stay clean.
proof fn lemma_clean_lines_concat(a: Seq<Seq<char>>, b: Seq<Seq<char>>)
    requires
        clean_lines(a),
        clean_lines(b),
    ensures
        clean_lines(a + b),
{
    assert forall|i: int| 0 <= i < (a + b).len() implies clean_line(#[trigger] (a + b)[i]) by {
        if i < a.len() {
            assert((a + b)[i] == a[i]);
        } else {
            assert((a + b)[i] == b[i - a.len()]);
        }
    }
}

/// The lines of a new block are clean.
proof fn lemma_block_clean(h: NewHostModel)
    requires
        answers_read_back(h),
    ensures
        clean_lines(block_lines(h)),
{
    reveal_strlit("Host ");
    reveal_strlit("    HostName ");
    reveal_strlit("    Port ");
    reveal_strlit("    User ");
    reveal_strlit("    ## sshx: group = ");
    reveal_strlit("    ## sshx: description = \"");
    reveal_strlit("\"");
    reveal_strlit("    ## sshx: alias = ");
    lemma_block_shape(h);
    let l1 = "Host "@ + h.name;
    let l2 = "    HostName "@ + h.hostname;
    lemma_clean_concat("Host "@, h.name);
    lemma_clean_concat("    HostName "@, h.hostname);
    let head = seq![l1, l2];
    assert(clean_lines(head)) by {
        assert(head[0] == l1);
        assert(head[1] == l2);
    }
    lemma_apply_port(fresh_host(h.name, Seq::empty(), 0), h.port, Seq::empty());
    let d = crate::text::dec(h.port as nat);
    crate::text::lemma_parse_dec_u16(h.port);
    assert(crate::text::is_digit(d.last()));
    lemma_clean_concat("    Port "@, d);
    let lp = line_if(h.port != 22, "    Port "@ + d);
    assert(clean_lines(lp));
    if h.user.len() > 0 {
        lemma_clean_concat("    User "@, h.user);
    }
    let lu = line_if(h.user.len() > 0, "    User "@ + h.user);
    assert(clean_lines(lu));
    if h.group.len() > 0 {
        lemma_clean_concat("    ## sshx: group = "@, h.group);
    }
    let lg = line_if(h.group.len() > 0, "    ## sshx: group = "@ + h.group);
    assert(clean_lines(lg));
    if h.description.len() > 0 {
        lemma_no_newline_concat("    ## sshx: description = \""@, h.description);
        assert(("    ## sshx: description = \""@ + h.description).len() > 0);
        lemma_clean_concat("    ## sshx: description = \""@ + h.description, "\""@);
    }
    let ld = line_if(h.description.len() > 0, "    ## sshx: description = \""@ + h.description + "\""@);
    assert(clean_lines(ld));
    if h.alias.len() > 0 {
        lemma_clean_concat("    ## sshx: alias = "@, h.alias);
    }
    let la = line_if(h.alias.len() > 0, "    ## sshx: alias = "@ + h.alias);
    assert(clean_lines(la));
    lemma_clean_lines_concat(head, lp);
    lemma_clean_lines_concat(head + lp, lu);
    lemma_clean_lines_concat(head + lp + lu, lg);
    lemma_clean_lines_concat(head + lp + lu + lg, ld);
    lemma_clean_lines_concat(head + lp + lu + lg + ld, la);
}

/// The text of a new block reads back as its lines.
proof fn lemma_block_text_lines(h: NewHostModel)
    requires
        answers_read_back(h),
    ensures
        lines(new_host_block(h)) == block_lines(h),
{
    lemma_block_clean(h);
    let b = block_lines(h);
    lemma_block_shape(h);
    assert(new_host_lines(h) =~= b.push(Seq::empty()));
    lemma_lines_of_joined(b);
}

/// The number of lines of a new block: at most seven.
proof fn lemma_block_len(h: NewHostModel)
    ensures
        2 <= block_lines(h).len() <= 7,
{
    lemma_block_shape(h);
}

/// Law: the block that `sshx config add` writes for answers that read back
/// as they were typed is read back as exactly the host that was entered,
/// spanning all its lines.
pub proof fn law_new_host_block_reads_back(h: NewHostModel, file: Seq<char>, home: Seq<char>)
    requires
        answers_read_back(h),
    ensures
        parse_config(new_host_block(h), file, home) == Ok::<Seq<HostModel>, crate::error::ErrorView>(
            seq![close_host(entered_host(h, file, 1), block_lines(h).len() as usize)],
        ),
{
    lemma_block_text_lines(h);
    lemma_block_len(h);
    let e = Seq::<Seq<char>>::empty();
    assert(parsed(e, file, home) == Ok::<ParseState, crate::error::ErrorView>(
        ParseState { hosts: Seq::empty(), current: None },
    )) by {
        reveal(parsed);
    }
    lemma_block_lines(e, h, file, home);
    assert(e + block_lines(h) =~= block_lines(h));
    reveal(parsed);
    assert(Seq::<HostModel>::empty().push(close_host(entered_host(h, file, 1), block_lines(h).len() as usize))
        =~= seq![close_host(entered_host(h, file, 1), block_lines(h).len() as usize)]);
}

/// Taking a carriage return off the end of the last line changes nothing
/// in a parse.
proof fn lemma_parsed_strip_last_cr(ls: Seq<Seq<char>>, file: Seq<char>, home: Seq<char>)
    requires
        ls.len() > 0,
    ensures
        parsed(strip_last_cr(ls), file, home) == parsed(ls, file, home),
{
    reveal(parsed);
    let n = ls.len() as int;
    let ls2 = strip_last_cr(ls);
    lemma_parse_prefix_agree(ls, ls2, n - 1, file, home);
    assert(ls2[n - 1] == strip_cr(ls[n - 1]));
    lemma_trim_strip_cr(ls[n - 1]);
    match parse_prefix(ls, n - 1, file, home) {
        Ok(st) => {
            assert(parse_step(st, ls2[n - 1], (n - 1) as usize, file, home) == parse_step(
                st,
                ls[n - 1],
                (n - 1) as usize,
                file,
                home,
            ));
        },
        Err(e) => {},
    }
}

/// Law: appending the block that `sshx config add` writes for answers that
/// read back as they were typed to a config that parses keeps every host
/// of that config and adds exactly the host that was entered, spanning the
/// lines of the block.
pub proof fn law_added_host_reads_back(existing: Seq<char>, h: NewHostModel, file: Seq<char>, home: Seq<char>)
    requires
        answers_read_back(h),
        parse_config(existing, file, home) is Ok,
        lines(existing).len() + 8 < usize::MAX,
    ensures
        parse_config(appended(existing, new_host_block(h)), file, home) == Ok::<
            Seq<HostModel>,
            crate::error::ErrorView,
        >(
            parse_config(existing, file, home)->Ok_0.push(
                close_host(
                    entered_host(h, file, (lines(existing).len() + 1) as usize),
                    (lines(existing).len() + block_lines(h).len()) as usize,
                ),
            ),
        ),
{
    let b = new_host_block(h);
    let bl = block_lines(h);
    lemma_block_text_lines(h);
    lemma_block_len(h);
    let ls0 = lines(existing);
    let m = ls0.len() as int;
    assert(parsed(ls0, file, home) == parse_prefix(ls0, m, file, home)) by {
        reveal(parsed);
    }
    let text = appended(existing, b);
    let ls1 = if existing.len() == 0 || existing.last() == '\n' {
        ls0
    } else {
        strip_last_cr(ls0)
    };
    if existing.len() == 0 || existing.last() == '\n' {
        lemma_lines_append(existing, b);
        assert(lines(text) == ls1 + bl);
    } else {
        let e1 = existing + seq!['\n'];
        assert(text =~= e1 + b);
        lemma_lines_newline_end(existing);
        lemma_lines_append(e1, b);
        lemma_parsed_strip_last_cr(ls0, file, home);
        assert(lines(text) == ls1 + bl);
    }
    assert(ls1.len() == m);
    assert(parsed(ls1, file, home) == parsed(ls0, file, home));
    lemma_block_lines(ls1, h, file, home);
    reveal(parsed);
}

} // verus!
