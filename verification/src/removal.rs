//! What the parser makes of the text that `sshx config remove` leaves: the
//! other hosts, with their settings unchanged.

use vstd::prelude::*;

use crate::commands::{lines_kept, without_lines};
use crate::error::ErrorView;
use crate::model::{HostModel, SourceModel};
use crate::parser::{
    close_host, lemma_parse_prefix_agree, parse_config, parse_prefix, parse_step, ParseState,
};
use crate::text::{
    join_with, joined_lines, lemma_lines_of_join, lemma_trim_strip_cr, lines, starts_with, strip_cr, trim,
};

verus! {

// ---------------------------------------------------------------------------
// Settings, and parsing from a state
// ---------------------------------------------------------------------------

/// A host without the lines its block spans: its settings and its file.
pub open spec fn settings_of(h: HostModel) -> HostModel {
    HostModel { source: SourceModel { line_start: 0, line_end: 0, ..h.source }, ..h }
}

/// The settings of some hosts, in order.
pub open spec fn settings_list(hs: Seq<HostModel>) -> Seq<HostModel> {
    hs.map_values(|h: HostModel| settings_of(h))
}

/// The settings of the host being read, if any.
pub open spec fn current_settings(c: Option<HostModel>) -> Option<HostModel> {
    match c {
        Some(h) => Some(settings_of(h)),
        None => None,
    }
}

/// The state after the lines `ls` from state `st`, the first of them being
/// line `k0` (from 0) of the file.
pub open spec fn run(st: ParseState, ls: Seq<Seq<char>>, k0: int, file: Seq<char>, home: Seq<char>) -> Result<
    ParseState,
    ErrorView,
>
    decreases ls.len(),
{
    if ls.len() == 0 {
        Ok(st)
    } else {
        match run(st, ls.drop_last(), k0, file, home) {
            Err(e) => Err(e),
            Ok(s2) => parse_step(s2, ls.last(), (k0 + ls.len() - 1) as usize, file, home),
        }
    }
}

/// Parsing lines `a` then `l` is running `l` from the state after `a`.
proof fn lemma_run_prefix(a: Seq<Seq<char>>, l: Seq<Seq<char>>, file: Seq<char>, home: Seq<char>)
    ensures
        parse_prefix(a + l, (a.len() + l.len()) as int, file, home) == match parse_prefix(a, a.len() as int, file, home) {
            Err(e) => Err(e),
            Ok(st) => run(st, l, a.len() as int, file, home),
        },
    decreases l.len(),
{
    if l.len() == 0 {
        assert(a + l =~= a);
    } else {
        let l2 = l.drop_last();
        lemma_run_prefix(a, l2, file, home);
        lemma_parse_prefix_agree(a + l, a + l2, (a.len() + l2.len()) as int, file, home);
        assert((a + l)[a.len() + l.len() - 1] == l.last());
        match parse_prefix(a, a.len() as int, file, home) {
            Err(e) => {},
            Ok(st) => {},
        }
    }
}

// ---------------------------------------------------------------------------
// Where blocks start and end
// ---------------------------------------------------------------------------

/// A `Host` line.
pub open spec fn host_line(l: Seq<char>) -> bool {
    starts_with(trim(l), "Host "@)
}

/// The lines `start..end` (1-based) of `ls` form a block: the first is a
/// `Host` line and no other is; a closed block is followed by one.
pub open spec fn block_marked(ls: Seq<Seq<char>>, start: int, end: int, closed: bool) -> bool {
    &&& 1 <= start <= end <= ls.len()
    &&& host_line(ls[start - 1])
    &&& forall|q: int| start <= q < end ==> !host_line(#[trigger] ls[q])
    &&& closed ==> end < ls.len() && host_line(ls[end])
}

/// Every block of the state after `k` lines is marked by its `Host` line.
pub open spec fn blocks_marked(ls: Seq<Seq<char>>, st: ParseState, k: int) -> bool {
    &&& forall|i: int|
        0 <= i < st.hosts.len() ==> block_marked(
            ls,
            (#[trigger] st.hosts[i]).source.line_start as int,
            st.hosts[i].source.line_end as int,
            true,
        )
    &&& st.current matches Some(c) ==> block_marked(ls, c.source.line_start as int, k, false)
}

/// A line that is no `Host` line leaves the hosts as they are and the
/// block of the host being read where it is.
proof fn lemma_step_kinds(st: ParseState, x: Seq<char>, idx: usize, file: Seq<char>, home: Seq<char>)
    requires
        parse_step(st, x, idx, file, home) is Ok,
    ensures
        !host_line(x) ==> parse_step(st, x, idx, file, home)->Ok_0.hosts == st.hosts,
        !host_line(x) ==> match st.current {
            Some(c) => parse_step(st, x, idx, file, home)->Ok_0.current matches Some(c2) && c2.source == c.source,
            None => parse_step(st, x, idx, file, home)->Ok_0.current is None,
        },
        host_line(x) ==> parse_step(st, x, idx, file, home) == Ok::<ParseState, ErrorView>(
            ParseState {
                hosts: match st.current {
                    Some(c) => st.hosts.push(close_host(c, idx)),
                    None => st.hosts,
                },
                current: Some(
                    crate::model::fresh_host(
                        trim(trim(x).subrange(5, trim(x).len() as int)),
                        file,
                        (idx + 1) as usize,
                    ),
                ),
            },
        ),
{
    reveal_strlit("Host ");
    reveal_strlit("## sshx:");
    let t = trim(x);
    if host_line(x) {
        assert(t.subrange(0, 5)[0] == t[0]);
        assert(t[0] == 'H');
        assert(!starts_with(t, "## sshx:"@)) by {
            if t.len() >= 8 {
                assert(t.subrange(0, 8)[0] == t[0]);
            }
        }
    } else {
        if let Some(h) = st.current {
            assert(crate::parser::apply_option(h, t, home).source == h.source);
        }
    }
}

/// The blocks of every state of a parse are marked.
proof fn lemma_prefix_marked(ls: Seq<Seq<char>>, k: int, file: Seq<char>, home: Seq<char>)
    requires
        0 <= k <= ls.len(),
        ls.len() < usize::MAX,
        parse_prefix(ls, k, file, home) is Ok,
    ensures
        blocks_marked(ls, parse_prefix(ls, k, file, home)->Ok_0, k),
    decreases k,
{
    if k > 0 {
        lemma_prefix_marked(ls, k - 1, file, home);
        let st = parse_prefix(ls, k - 1, file, home)->Ok_0;
        let x = ls[k - 1];
        lemma_step_kinds(st, x, (k - 1) as usize, file, home);
        let st2 = parse_prefix(ls, k, file, home)->Ok_0;
        if host_line(x) {
            assert forall|i: int| 0 <= i < st2.hosts.len() implies block_marked(
                ls,
                (#[trigger] st2.hosts[i]).source.line_start as int,
                st2.hosts[i].source.line_end as int,
                true,
            ) by {
                if i < st.hosts.len() {
                    assert(st2.hosts[i] == st.hosts[i]);
                }
            }
        } else {
            assert forall|i: int| 0 <= i < st2.hosts.len() implies block_marked(
                ls,
                (#[trigger] st2.hosts[i]).source.line_start as int,
                st2.hosts[i].source.line_end as int,
                true,
            ) by {
                assert(st2.hosts[i] == st.hosts[i]);
            }
        }
    }
}

/// The blocks of the hosts of a parse are marked; the last runs to the
/// end.
proof fn lemma_config_marked(content: Seq<char>, file: Seq<char>, home: Seq<char>)
    requires
        parse_config(content, file, home) is Ok,
        lines(content).len() < usize::MAX,
    ensures
        forall|i: int|
            0 <= i < parse_config(content, file, home)->Ok_0.len() ==> block_marked(
                lines(content),
                (#[trigger] parse_config(content, file, home)->Ok_0[i]).source.line_start as int,
                parse_config(content, file, home)->Ok_0[i].source.line_end as int,
                parse_config(content, file, home)->Ok_0[i].source.line_end < lines(content).len(),
            ),
{
    let ls = lines(content);
    let n = ls.len() as int;
    lemma_prefix_marked(ls, n, file, home);
    let st = parse_prefix(ls, n, file, home)->Ok_0;
    let hs = parse_config(content, file, home)->Ok_0;
    assert forall|i: int| 0 <= i < hs.len() implies block_marked(
        ls,
        (#[trigger] hs[i]).source.line_start as int,
        hs[i].source.line_end as int,
        hs[i].source.line_end < ls.len(),
    ) by {
        if i < st.hosts.len() {
            assert(hs[i] == st.hosts[i]);
        }
    }
}

// ---------------------------------------------------------------------------
// Running lines from related states
// ---------------------------------------------------------------------------

/// Running two lists of lines one after the other.
proof fn lemma_run_concat(
    st: ParseState,
    a: Seq<Seq<char>>,
    b: Seq<Seq<char>>,
    k: int,
    file: Seq<char>,
    home: Seq<char>,
)
    ensures
        run(st, a + b, k, file, home) == match run(st, a, k, file, home) {
            Err(e) => Err(e),
            Ok(s1) => run(s1, b, k + a.len(), file, home),
        },
    decreases b.len(),
{
    if b.len() == 0 {
        assert(a + b =~= a);
    } else {
        lemma_run_concat(st, a, b.drop_last(), k, file, home);
        assert((a + b).drop_last() =~= a + b.drop_last());
        assert((a + b).last() == b.last());
    }
}

/// States that agree on the settings of their hosts.
pub open spec fn same_settings(a: ParseState, b: ParseState) -> bool {
    &&& settings_list(a.hosts) == settings_list(b.hosts)
    &&& current_settings(a.current) == current_settings(b.current)
}

/// The state `st` without its host at position `p`.
pub open spec fn without_host(st: ParseState, p: int) -> ParseState {
    ParseState { hosts: st.hosts.remove(p), ..st }
}

/// The settings of a host after an option line depend on its settings
/// alone.
proof fn lemma_apply_option_settings(h1: HostModel, h2: HostModel, t: Seq<char>, home: Seq<char>)
    requires
        settings_of(h1) == settings_of(h2),
    ensures
        settings_of(crate::parser::apply_option(h1, t, home)) == settings_of(crate::parser::apply_option(h2, t, home)),
{
    assert(h1.local_forwards == settings_of(h1).local_forwards);
    assert(h1.extra_options == settings_of(h1).extra_options);
}

/// One line from states that agree on settings, at any positions, gives
/// states that agree on settings.
proof fn lemma_step_same(
    a: ParseState,
    b: ParseState,
    x: Seq<char>,
    ia: usize,
    ib: usize,
    file: Seq<char>,
    home: Seq<char>,
)
    requires
        same_settings(a, b),
        parse_step(a, x, ia, file, home) is Ok,
    ensures
        parse_step(b, x, ib, file, home) is Ok,
        same_settings(parse_step(a, x, ia, file, home)->Ok_0, parse_step(b, x, ib, file, home)->Ok_0),
{
    lemma_step_kinds(a, x, ia, file, home);
    let t = trim(x);
    match (a.current, b.current) {
        (Some(ca), Some(cb)) => {
            assert(ca.sshx == cb.sshx);
            lemma_apply_option_settings(ca, cb, t, home);
            let ra = parse_step(a, x, ia, file, home)->Ok_0;
            let rb = parse_step(b, x, ib, file, home)->Ok_0;
            if host_line(x) {
                lemma_step_kinds(b, x, ib, file, home);
                assert(settings_list(a.hosts.push(close_host(ca, ia))) =~= settings_list(a.hosts).push(
                    settings_of(close_host(ca, ia)),
                ));
                assert(settings_list(b.hosts.push(close_host(cb, ib))) =~= settings_list(b.hosts).push(
                    settings_of(close_host(cb, ib)),
                ));
            }
        },
        _ => {
            if host_line(x) {
                lemma_step_kinds(b, x, ib, file, home);
            }
        },
    }
}

/// One line from a state, and from the same state without its host at
/// position `p`, gives states that differ in that host alone.
proof fn lemma_step_without(o: ParseState, p: int, x: Seq<char>, i: usize, file: Seq<char>, home: Seq<char>)
    requires
        0 <= p < o.hosts.len(),
        parse_step(o, x, i, file, home) is Ok,
    ensures
        parse_step(without_host(o, p), x, i, file, home) == Ok::<ParseState, ErrorView>(
            without_host(parse_step(o, x, i, file, home)->Ok_0, p),
        ),
        p < parse_step(o, x, i, file, home)->Ok_0.hosts.len(),
        parse_step(o, x, i, file, home)->Ok_0.hosts[p] == o.hosts[p],
{
    lemma_step_kinds(o, x, i, file, home);
    lemma_step_kinds(without_host(o, p), x, i, file, home);
    if host_line(x) {
        if let Some(c) = o.current {
            assert(o.hosts.push(close_host(c, i)).remove(p) =~= o.hosts.remove(p).push(close_host(c, i)));
        }
    }
}

/// Running lines from a state and from a state that agrees on settings
/// with it once its host at position `p` is left out.
proof fn lemma_run_without(
    o: ParseState,
    w: ParseState,
    p: int,
    ls: Seq<Seq<char>>,
    io: int,
    iw: int,
    file: Seq<char>,
    home: Seq<char>,
)
    requires
        0 <= p < o.hosts.len(),
        same_settings(without_host(o, p), w),
        run(o, ls, io, file, home) is Ok,
    ensures
        run(w, ls, iw, file, home) is Ok,
        p < run(o, ls, io, file, home)->Ok_0.hosts.len(),
        run(o, ls, io, file, home)->Ok_0.hosts[p] == o.hosts[p],
        same_settings(without_host(run(o, ls, io, file, home)->Ok_0, p), run(w, ls, iw, file, home)->Ok_0),
    decreases ls.len(),
{
    if ls.len() > 0 {
        let l2 = ls.drop_last();
        lemma_run_without(o, w, p, l2, io, iw, file, home);
        let o2 = run(o, l2, io, file, home)->Ok_0;
        let w2 = run(w, l2, iw, file, home)->Ok_0;
        let x = ls.last();
        let i_o = (io + ls.len() - 1) as usize;
        let i_w = (iw + ls.len() - 1) as usize;
        lemma_step_without(o2, p, x, i_o, file, home);
        lemma_step_same(without_host(o2, p), w2, x, i_o, i_w, file, home);
    }
}

/// Running lines with no `Host` line keeps the hosts and the block of the
/// host being read.
proof fn lemma_run_no_host(st: ParseState, ls: Seq<Seq<char>>, k: int, file: Seq<char>, home: Seq<char>)
    requires
        st.current is Some,
        forall|i: int| 0 <= i < ls.len() ==> !host_line(#[trigger] ls[i]),
        run(st, ls, k, file, home) is Ok,
    ensures
        run(st, ls, k, file, home)->Ok_0.hosts == st.hosts,
        run(st, ls, k, file, home)->Ok_0.current matches Some(c) && c.source == st.current->Some_0.source,
    decreases ls.len(),
{
    if ls.len() > 0 {
        let l2 = ls.drop_last();
        assert forall|i: int| 0 <= i < l2.len() implies !host_line(#[trigger] l2[i]) by {
            assert(l2[i] == ls[i]);
        }
        lemma_run_no_host(st, l2, k, file, home);
        let s2 = run(st, l2, k, file, home)->Ok_0;
        assert(!host_line(ls[ls.len() - 1]));
        lemma_step_kinds(s2, ls.last(), (k + ls.len() - 1) as usize, file, home);
    }
}

/// Carriage returns at the ends of lines change nothing in a parse.
proof fn lemma_prefix_strip_cr(ls: Seq<Seq<char>>, k: int, file: Seq<char>, home: Seq<char>)
    requires
        0 <= k <= ls.len(),
    ensures
        parse_prefix(ls.map_values(|l: Seq<char>| strip_cr(l)), k, file, home) == parse_prefix(ls, k, file, home),
    decreases k,
{
    if k > 0 {
        lemma_prefix_strip_cr(ls, k - 1, file, home);
        let m = ls.map_values(|l: Seq<char>| strip_cr(l));
        assert(m[k - 1] == strip_cr(ls[k - 1]));
        lemma_trim_strip_cr(ls[k - 1]);
        match parse_prefix(ls, k - 1, file, home) {
            Ok(st) => {
                assert(parse_step(st, m[k - 1], (k - 1) as usize, file, home) == parse_step(
                    st,
                    ls[k - 1],
                    (k - 1) as usize,
                    file,
                    home,
                ));
            },
            Err(e) => {},
        }
    }
}

/// Lines joined by newlines parse as the lines themselves.
proof fn lemma_prefix_joined(ls: Seq<Seq<char>>, file: Seq<char>, home: Seq<char>)
    requires
        ls.len() > 0,
    ensures
        parse_prefix(joined_lines(ls), joined_lines(ls).len() as int, file, home) == parse_prefix(
            ls,
            ls.len() as int,
            file,
            home,
        ),
{
    reveal_strlit("Host ");
    let d = ls.drop_last();
    let m = d.map_values(|l: Seq<char>| strip_cr(l));
    let n = ls.len() as int;
    lemma_prefix_strip_cr(d, d.len() as int, file, home);
    lemma_parse_prefix_agree(ls, d, n - 1, file, home);
    let j = joined_lines(ls);
    lemma_parse_prefix_agree(j, m, n - 1, file, home);
    assert(d.len() == n - 1);
    if ls.last().len() > 0 {
        assert(j == m.push(ls.last()));
        assert(j[n - 1] == ls[n - 1]);
    } else {
        assert(j =~= m);
        match parse_prefix(ls, n - 1, file, home) {
            Ok(st) => {
                assert(ls[n - 1] =~= Seq::<char>::empty());
                assert(trim(ls[n - 1]).len() == 0);
                assert(parse_step(st, ls[n - 1], (n - 1) as usize, file, home) == Ok::<ParseState, ErrorView>(st));
            },
            Err(e) => {},
        }
    }
}

/// The lines kept when lines `s..e` (1-based) are removed: those before
/// and those after.
proof fn lemma_lines_kept_shape(ls: Seq<Seq<char>>, s: int, e: int, k: int)
    requires
        1 <= s <= e <= ls.len(),
        0 <= k <= ls.len(),
    ensures
        lines_kept(ls, s, e, k) == if k < s {
            ls.take(k)
        } else if k <= e {
            ls.take(s - 1)
        } else {
            ls.take(s - 1) + ls.subrange(e, k)
        },
    decreases k,
{
    if k > 0 {
        lemma_lines_kept_shape(ls, s, e, k - 1);
        if k < s {
            assert(ls.take(k - 1).push(ls[k - 1]) =~= ls.take(k));
        } else if k == s {
            assert(ls.take(k - 1) =~= ls.take(s - 1));
        } else if k <= e {
        } else if k == e + 1 {
            assert(ls.take(s - 1) + seq![ls[k - 1]] =~= ls.take(s - 1) + ls.subrange(e, k));
        } else {
            assert(ls.take(s - 1) + ls.subrange(e, k - 1) + seq![ls[k - 1]] =~= ls.take(s - 1) + ls.subrange(e, k));
        }
    }
}

/// The blocks of a parse start at strictly increasing lines.
proof fn lemma_starts_increase(content: Seq<char>, file: Seq<char>, home: Seq<char>, a: int, b: int)
    requires
        parse_config(content, file, home) is Ok,
        lines(content).len() < usize::MAX,
        0 <= a < b < parse_config(content, file, home)->Ok_0.len(),
    ensures
        parse_config(content, file, home)->Ok_0[a].source.line_start < parse_config(content, file, home)->Ok_0[b].source.line_start,
    decreases b - a,
{
    crate::parser::law_host_blocks_partition_lines(content, file, home);
    let hs = parse_config(content, file, home)->Ok_0;
    assert(hs[a].source.line_start <= hs[a].source.line_end);
    assert(hs[a].source.line_end + 1 == hs[a + 1].source.line_start);
    if a + 1 < b {
        lemma_starts_increase(content, file, home, a + 1, b);
    }
}

/// The hosts of a state once the host being read is closed at `end`.
pub open spec fn closed_hosts(st: ParseState, end: usize) -> Seq<HostModel> {
    match st.current {
        Some(c) => st.hosts.push(close_host(c, end)),
        None => st.hosts,
    }
}

/// A parse split at a block: the state before its lines and the state after
/// them.
proof fn lemma_split_at_block(ls: Seq<Seq<char>>, s: int, e: int, file: Seq<char>, home: Seq<char>) -> (r: (
    ParseState,
    ParseState,
))
    requires
        parse_prefix(ls, ls.len() as int, file, home) is Ok,
        block_marked(ls, s, e, e < ls.len()),
        ls.len() < usize::MAX,
    ensures
        parse_prefix(ls.take(s - 1), s - 1, file, home) == Ok::<ParseState, ErrorView>(r.0),
        run(r.1, ls.subrange(e, ls.len() as int), e, file, home) == parse_prefix(ls, ls.len() as int, file, home),
        r.1.hosts == closed_hosts(r.0, (s - 1) as usize),
        r.1.current matches Some(x) && x.source.line_start == s,
{
    let n = ls.len() as int;
    let pre = ls.take(s - 1);
    let blk = ls.subrange(s - 1, e);
    let post = ls.subrange(e, n);
    assert(ls =~= pre + (blk + post));
    lemma_run_prefix(pre, blk + post, file, home);
    assert(pre.len() + (blk + post).len() == n);
    let a = parse_prefix(pre, pre.len() as int, file, home)->Ok_0;
    lemma_run_concat(a, blk, post, s - 1, file, home);
    let hl = seq![ls[s - 1]];
    let brest = ls.subrange(s, e);
    assert(blk =~= hl + brest);
    lemma_run_concat(a, hl, brest, s - 1, file, home);
    assert(hl.drop_last() =~= Seq::<Seq<char>>::empty());
    assert(run(a, hl.drop_last(), s - 1, file, home) == Ok::<ParseState, ErrorView>(a));
    assert(run(a, hl, s - 1, file, home) == parse_step(a, ls[s - 1], (s - 1) as usize, file, home));
    lemma_step_kinds(a, ls[s - 1], (s - 1) as usize, file, home);
    let a1 = run(a, hl, s - 1, file, home)->Ok_0;
    assert forall|i: int| 0 <= i < brest.len() implies !host_line(#[trigger] brest[i]) by {
        assert(brest[i] == ls[s + i]);
    }
    lemma_run_no_host(a1, brest, s, file, home);
    let b = run(a, blk, s - 1, file, home)->Ok_0;
    (a, b)
}

/// The lines after a block, run from the state after the block and from
/// the state before it: the hosts differ by the block's host alone.
proof fn lemma_after_block(
    a: ParseState,
    b: ParseState,
    post: Seq<Seq<char>>,
    s: int,
    e: int,
    end1: usize,
    end2: usize,
    file: Seq<char>,
    home: Seq<char>,
)
    requires
        run(b, post, e, file, home) is Ok,
        b.hosts == closed_hosts(a, (s - 1) as usize),
        b.current matches Some(x) && x.source.line_start == s,
        post.len() > 0 ==> host_line(post[0]),
        1 <= s <= e,
        e + post.len() < usize::MAX,
    ensures
        run(a, post, s - 1, file, home) is Ok,
        ({
            let f1 = closed_hosts(run(b, post, e, file, home)->Ok_0, end1);
            let f2 = closed_hosts(run(a, post, s - 1, file, home)->Ok_0, end2);
            &&& b.hosts.len() < f1.len()
            &&& f1[b.hosts.len() as int].source.line_start == s
            &&& settings_list(f1.remove(b.hosts.len() as int)) == settings_list(f2)
        }),
{
    let p = b.hosts.len() as int;
    let x = b.current->Some_0;
    if post.len() == 0 {
        let f1 = closed_hosts(b, end1);
        let f2 = closed_hosts(a, end2);
        assert(f1.remove(p) =~= b.hosts);
        match a.current {
            Some(c) => {
                assert(settings_list(b.hosts) =~= settings_list(a.hosts).push(settings_of(c)));
                assert(settings_list(f2) =~= settings_list(a.hosts).push(settings_of(c)));
            },
            None => {},
        }
    } else {
        let h2 = seq![post[0]];
        let prest = post.drop_first();
        assert(post =~= h2 + prest);
        assert(h2.drop_last() =~= Seq::<Seq<char>>::empty());
        lemma_run_concat(b, h2, prest, e, file, home);
        lemma_run_concat(a, h2, prest, s - 1, file, home);
        assert(run(b, h2.drop_last(), e, file, home) == Ok::<ParseState, ErrorView>(b));
        assert(run(a, h2.drop_last(), s - 1, file, home) == Ok::<ParseState, ErrorView>(a));
        assert(run(b, h2, e, file, home) == parse_step(b, post[0], e as usize, file, home));
        assert(run(a, h2, s - 1, file, home) == parse_step(a, post[0], (s - 1) as usize, file, home));
        lemma_step_kinds(b, post[0], e as usize, file, home);
        lemma_step_same(b, b, post[0], e as usize, (s - 1) as usize, file, home);
        lemma_step_kinds(a, post[0], (s - 1) as usize, file, home);
        let o1 = run(b, h2, e, file, home)->Ok_0;
        let w1 = run(a, h2, s - 1, file, home)->Ok_0;
        assert(without_host(o1, p).hosts =~= b.hosts);
        assert(w1.hosts == b.hosts);
        assert(same_settings(without_host(o1, p), w1));
        lemma_run_without(o1, w1, p, prest, e + 1, s, file, home);
        let ro = run(o1, prest, e + 1, file, home)->Ok_0;
        let rw = run(w1, prest, s, file, home)->Ok_0;
        assert(ro.hosts[p] == close_host(x, e as usize));
        match (ro.current, rw.current) {
            (Some(c), Some(cw)) => {
                let f1 = ro.hosts.push(close_host(c, end1));
                assert(f1.remove(p) =~= ro.hosts.remove(p).push(close_host(c, end1)));
                assert(settings_list(ro.hosts.remove(p).push(close_host(c, end1))) =~= settings_list(
                    ro.hosts.remove(p),
                ).push(settings_of(close_host(c, end1))));
                assert(settings_list(rw.hosts.push(close_host(cw, end2))) =~= settings_list(rw.hosts).push(
                    settings_of(close_host(cw, end2)),
                ));
            },
            _ => {},
        }
    }
}

/// Law: the text that `sshx config remove` leaves after taking out the
/// block of one host of a config that parses (its lines, from its `Host`
/// line to the line before the next block) parses, and holds the other
/// hosts, in the same order and with the same settings.
pub proof fn law_removed_host_leaves_the_others(content: Seq<char>, file: Seq<char>, home: Seq<char>, j: int)
    requires
        parse_config(content, file, home) is Ok,
        0 <= j < parse_config(content, file, home)->Ok_0.len(),
        lines(content).len() + 1 < usize::MAX,
    ensures
        ({
            let hs = parse_config(content, file, home)->Ok_0;
            let left = without_lines(content, hs[j].source.line_start as int, hs[j].source.line_end as int);
            &&& parse_config(left, file, home) is Ok
            &&& settings_list(parse_config(left, file, home)->Ok_0) == settings_list(hs.remove(j))
        }),
{
    reveal_strlit("\n");
    let ls = lines(content);
    let n = ls.len() as int;
    let hs = parse_config(content, file, home)->Ok_0;
    let s = hs[j].source.line_start as int;
    let e = hs[j].source.line_end as int;
    lemma_config_marked(content, file, home);
    assert(block_marked(ls, s, e, e < n));
    let (a, b) = lemma_split_at_block(ls, s, e, file, home);
    let pre = ls.take(s - 1);
    let post = ls.subrange(e, n);
    assert(e < n ==> post[0] == ls[e]);

    // What is left: the lines before and after the block.
    lemma_lines_kept_shape(ls, s, e, n);
    let kept = lines_kept(ls, s, e, n);
    assert(kept =~= pre + post);
    let left = without_lines(content, s, e);
    assert(left == join_with(kept, "\n"@));
    lemma_run_prefix(pre, post, file, home);
    crate::text::lemma_lines_no_newline(content, 0);
    if kept.len() > 0 {
        assert forall|i: int| 0 <= i < kept.len() implies !(#[trigger] kept[i]).contains('\n') by {
            if i < pre.len() {
                assert(kept[i] == ls[i]);
            } else {
                assert(kept[i] == ls[e + i - pre.len()]);
            }
        }
        lemma_lines_of_join(kept);
        lemma_prefix_joined(kept, file, home);
    } else {
        assert(left == Seq::<char>::empty());
        assert(lines(left) =~= Seq::<Seq<char>>::empty());
    }
    let m = lines(left).len();
    assert(parse_prefix(lines(left), m as int, file, home) == run(a, post, s - 1, file, home));
    lemma_after_block(a, b, post, s, e, n as usize, m as usize, file, home);
    assert(hs == closed_hosts(run(b, post, e, file, home)->Ok_0, n as usize));
    let p = b.hosts.len() as int;
    if j != p {
        if j < p {
            lemma_starts_increase(content, file, home, j, p);
        } else {
            lemma_starts_increase(content, file, home, p, j);
        }
    }
}

} // verus!
