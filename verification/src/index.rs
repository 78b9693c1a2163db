//! The index of all hosts: their groups, their aliases, and the checks
//! that an index is sound (unique aliases, existing and acyclic `requires`).

use vstd::prelude::*;

use indexmap::IndexMap;

use crate::error::{ErrorView, SshxError};
use crate::model::{hosts_view, HostModel, SSHHost};
use crate::text::eq_string;

verus! {

// ---------------------------------------------------------------------------
// IndexMap
// ---------------------------------------------------------------------------

/// `indexmap::IndexMap`, an insertion-ordered hash map.
#[verifier::external_type_specification]
#[verifier::external_body]
#[verifier::reject_recursive_types(K)]
#[verifier::reject_recursive_types(V)]
#[verifier::reject_recursive_types(S)]
pub struct ExIndexMap<K, V, S>(IndexMap<K, V, S>);

/// What a map of groups holds: its entries (key and value), in the map's
/// order.
pub uninterp spec fn group_entries(m: IndexMap<String, Vec<usize>>) -> Seq<(Seq<char>, Seq<usize>)>;

/// The first position of an entry with key `key`.
pub open spec fn key_position(e: Seq<(Seq<char>, Seq<usize>)>, key: Seq<char>) -> Option<int>
    decreases e.len(),
{
    if e.len() == 0 {
        None
    } else {
        match key_position(e.drop_last(), key) {
            Some(p) => Some(p),
            None => if e.last().0 == key {
                Some(e.len() - 1)
            } else {
                None
            },
        }
    }
}

/// No key occurs twice.
pub open spec fn distinct_keys(e: Seq<(Seq<char>, Seq<usize>)>) -> bool {
    forall|i: int, j: int| 0 <= i < j < e.len() ==> e[i].0 != e[j].0
}

/// `IndexMap::new`: a map with no entries.
#[verifier::external_body]
fn group_map_new() -> (m: IndexMap<String, Vec<usize>>)
    ensures
        group_entries(m) == Seq::<(Seq<char>, Seq<usize>)>::empty(),
{
    IndexMap::new()
}

/// `IndexMap::get`: the value of the entry with key `key`, if there is one.
#[verifier::external_body]
fn group_map_get<'a>(m: &'a IndexMap<String, Vec<usize>>, key: &str) -> (r: Option<&'a Vec<usize>>)
    ensures
        match key_position(group_entries(*m), key@) {
            Some(p) => r matches Some(v) && v@ == group_entries(*m)[p].1,
            None => r is None,
        },
{
    m.get(key)
}

/// `IndexMap::insert`: an existing entry with key `key` keeps its place and
/// takes `value`; otherwise the entry is added last.
#[verifier::external_body]
fn group_map_insert(m: &mut IndexMap<String, Vec<usize>>, key: String, value: Vec<usize>)
    ensures
        key_position(group_entries(*old(m)), key@) is Some ==> group_entries(*final(m))
            == group_entries(*old(m)).update(
            key_position(group_entries(*old(m)), key@)->Some_0,
            (key@, value@),
        ),
        key_position(group_entries(*old(m)), key@) is None ==> group_entries(*final(m))
            == group_entries(*old(m)).push((key@, value@)),
{
    m.insert(key, value);
}

/// `IndexMap::len`: the number of entries.
#[verifier::external_body]
pub(crate) fn group_map_len(m: &IndexMap<String, Vec<usize>>) -> (r: usize)
    ensures
        r == group_entries(*m).len(),
{
    m.len()
}

/// `IndexMap::get_index`: the entry at position `i`, if there is one.
#[verifier::external_body]
pub(crate) fn group_map_get_index(m: &IndexMap<String, Vec<usize>>, i: usize) -> (r: Option<(&String, &Vec<usize>)>)
    ensures
        r is Some <==> i < group_entries(*m).len(),
        r is Some ==> r->Some_0.0@ == group_entries(*m)[i as int].0,
        r is Some ==> r->Some_0.1@ == group_entries(*m)[i as int].1,
{
    m.get_index(i)
}

// ---------------------------------------------------------------------------
// Specification
// ---------------------------------------------------------------------------

/// The groups of the first `k` hosts: one entry per group name, in the
/// order the names first appear, holding the positions of its hosts.
pub open spec fn groups_of(hosts: Seq<HostModel>, k: int) -> Seq<(Seq<char>, Seq<usize>)>
    decreases k,
{
    if k <= 0 {
        Seq::empty()
    } else {
        let g = groups_of(hosts, k - 1);
        match hosts[k - 1].sshx.group {
            None => g,
            Some(name) => match key_position(g, name) {
                Some(p) => g.update(p, (name, g[p].1.push((k - 1) as usize))),
                None => g.push((name, seq![(k - 1) as usize])),
            },
        }
    }
}

/// The aliases of the first `k` hosts, each with the position of its host,
/// in host order.
pub open spec fn aliases_of(hosts: Seq<HostModel>, k: int) -> Seq<(Seq<char>, usize)>
    decreases k,
{
    if k <= 0 {
        Seq::empty()
    } else {
        let a = aliases_of(hosts, k - 1);
        match hosts[k - 1].sshx.alias {
            None => a,
            Some(name) => a.push((name, (k - 1) as usize)),
        }
    }
}

/// The first host from position `i` on whose alias is `a`.
pub open spec fn first_with_alias(hosts: Seq<HostModel>, a: Seq<char>, i: int) -> Option<int>
    decreases hosts.len() - i,
{
    if i < 0 || i >= hosts.len() {
        None
    } else if hosts[i].sshx.alias == Some(a) {
        Some(i)
    } else {
        first_with_alias(hosts, a, i + 1)
    }
}

/// Host `j` has an alias that an earlier host has too.
pub open spec fn alias_taken(hosts: Seq<HostModel>, j: int) -> bool {
    match hosts[j].sshx.alias {
        Some(a) => exists|i: int| 0 <= i < j && hosts[i].sshx.alias == Some(a),
        None => false,
    }
}

/// The first host from position `j` on whose alias was taken before it.
pub open spec fn first_taken_alias(hosts: Seq<HostModel>, j: int) -> Option<int>
    decreases hosts.len() - j,
{
    if j < 0 || j >= hosts.len() {
        None
    } else if alias_taken(hosts, j) {
        Some(j)
    } else {
        first_taken_alias(hosts, j + 1)
    }
}

/// Some host is named `name`.
pub open spec fn has_host_named(hosts: Seq<HostModel>, name: Seq<char>) -> bool {
    exists|i: int| 0 <= i < hosts.len() && hosts[i].name == name
}

/// Host `j` requires a host that is not there.
pub open spec fn requires_missing(hosts: Seq<HostModel>, j: int) -> bool {
    match hosts[j].sshx.requires {
        Some(r) => !has_host_named(hosts, r),
        None => false,
    }
}

/// The first host from position `j` on that requires a missing host.
pub open spec fn first_missing_requires(hosts: Seq<HostModel>, j: int) -> Option<int>
    decreases hosts.len() - j,
{
    if j < 0 || j >= hosts.len() {
        None
    } else if requires_missing(hosts, j) {
        Some(j)
    } else {
        first_missing_requires(hosts, j + 1)
    }
}

/// The last host named `name` from position `k` down (`k` excluded).
pub open spec fn last_named_before(hosts: Seq<HostModel>, name: Seq<char>, k: int) -> Option<int>
    decreases k,
{
    if k <= 0 {
        None
    } else if hosts[k - 1].name == name {
        Some(k - 1)
    } else {
        last_named_before(hosts, name, k - 1)
    }
}

/// The host that host `i` requires: the last one with the required name;
/// `-1` when there is none.
pub open spec fn next_required(hosts: Seq<HostModel>, i: int) -> int {
    if 0 <= i < hosts.len() {
        match hosts[i].sshx.requires {
            Some(r) => match last_named_before(hosts, r, hosts.len() as int) {
                Some(t) => t,
                None => -1,
            },
            None => -1,
        }
    } else {
        -1
    }
}

/// The `k`-th host of the chain of requirements that starts at `i`.
pub open spec fn chain(hosts: Seq<HostModel>, i: int, k: nat) -> int
    decreases k,
{
    if k == 0 {
        i
    } else {
        next_required(hosts, chain(hosts, i, (k - 1) as nat))
    }
}

/// The chain of requirements from host `i` never ends: every host on it
/// requires another.
pub open spec fn requires_cycle(hosts: Seq<HostModel>, i: int) -> bool {
    forall|k: nat| #[trigger] chain(hosts, i, k) != -1
}

/// The first host from position `j` on whose chain of requirements never
/// ends.
pub open spec fn first_cycle(hosts: Seq<HostModel>, j: int) -> Option<int>
    decreases hosts.len() - j,
{
    if j < 0 || j >= hosts.len() {
        None
    } else if requires_cycle(hosts, j) {
        Some(j)
    } else {
        first_cycle(hosts, j + 1)
    }
}

/// The verdict on a list of hosts: the first duplicate alias, else the
/// first missing requirement, else the first cycle of requirements, else
/// none.
pub open spec fn index_fault(hosts: Seq<HostModel>) -> Option<ErrorView> {
    match first_taken_alias(hosts, 0) {
        Some(j) => {
            let a = hosts[j].sshx.alias->Some_0;
            Some(
                ErrorView::DuplicateAlias {
                    alias: a,
                    host1: hosts[first_with_alias(hosts, a, 0)->Some_0].name,
                    host2: hosts[j].name,
                },
            )
        },
        None => match first_missing_requires(hosts, 0) {
            Some(j) => Some(
                ErrorView::RequiresHostNotFound {
                    host: hosts[j].name,
                    requires: hosts[j].sshx.requires->Some_0,
                },
            ),
            None => match first_cycle(hosts, 0) {
                Some(j) => Some(ErrorView::CircularRequires { host: hosts[j].name }),
                None => None,
            },
        },
    }
}

// ---------------------------------------------------------------------------
// The index
// ---------------------------------------------------------------------------

/// Everything `sshx` knows of the hosts of a config.
#[derive(Debug)]
pub struct ConfigIndex {
    pub hosts: Vec<SSHHost>,
    pub groups: IndexMap<String, Vec<usize>>,
    pub aliases: Vec<(String, usize)>,
    pub source_files: Vec<String>,
}

/// The model of the alias table.
pub open spec fn aliases_view(v: Seq<(String, usize)>) -> Seq<(Seq<char>, usize)> {
    v.map_values(|p: (String, usize)| (p.0@, p.1))
}

/// The model of a list of texts.
pub open spec fn strings_view(v: Seq<String>) -> Seq<Seq<char>> {
    v.map_values(|s: String| s@)
}

} // verus!

verus! {

// ---------------------------------------------------------------------------
// Lemmas
// ---------------------------------------------------------------------------

proof fn lemma_first_with_alias(hosts: Seq<HostModel>, a: Seq<char>, i: int)
    requires
        0 <= i,
    ensures
        match first_with_alias(hosts, a, i) {
            Some(p) => i <= p < hosts.len() && hosts[p].sshx.alias == Some(a) && forall|q: int|
                i <= q < p ==> hosts[q].sshx.alias != Some(a),
            None => forall|q: int| i <= q < hosts.len() ==> hosts[q].sshx.alias != Some(a),
        },
    decreases hosts.len() - i,
{
    if i < hosts.len() && hosts[i].sshx.alias != Some(a) {
        lemma_first_with_alias(hosts, a, i + 1);
    }
}

proof fn lemma_first_taken_alias_none(hosts: Seq<HostModel>, j: int)
    requires
        0 <= j,
        first_taken_alias(hosts, j) is None,
    ensures
        forall|q: int| j <= q < hosts.len() ==> !alias_taken(hosts, q),
    decreases hosts.len() - j,
{
    if j < hosts.len() {
        lemma_first_taken_alias_none(hosts, j + 1);
    }
}

proof fn lemma_first_missing_none(hosts: Seq<HostModel>, j: int)
    requires
        0 <= j,
        first_missing_requires(hosts, j) is None,
    ensures
        forall|q: int| j <= q < hosts.len() ==> !requires_missing(hosts, q),
    decreases hosts.len() - j,
{
    if j < hosts.len() {
        lemma_first_missing_none(hosts, j + 1);
    }
}

proof fn lemma_first_cycle_none(hosts: Seq<HostModel>, j: int)
    requires
        0 <= j,
        first_cycle(hosts, j) is None,
    ensures
        forall|q: int| j <= q < hosts.len() ==> !requires_cycle(hosts, q),
    decreases hosts.len() - j,
{
    if j < hosts.len() {
        lemma_first_cycle_none(hosts, j + 1);
    }
}

proof fn lemma_last_named(hosts: Seq<HostModel>, name: Seq<char>, k: int)
    requires
        0 <= k <= hosts.len(),
    ensures
        match last_named_before(hosts, name, k) {
            Some(t) => 0 <= t < k && hosts[t].name == name,
            None => forall|q: int| 0 <= q < k ==> hosts[q].name != name,
        },
    decreases k,
{
    if k > 0 && hosts[k - 1].name != name {
        lemma_last_named(hosts, name, k - 1);
    }
}

proof fn lemma_chain_shift(hosts: Seq<HostModel>, i: int, a: nat, b: nat, m: nat)
    requires
        chain(hosts, i, a) == chain(hosts, i, b),
    ensures
        chain(hosts, i, a + m) == chain(hosts, i, b + m),
    decreases m,
{
    if m > 0 {
        lemma_chain_shift(hosts, i, a, b, (m - 1) as nat);
        assert(chain(hosts, i, a + m) == next_required(hosts, chain(hosts, i, (a + m - 1) as nat)));
        assert(chain(hosts, i, b + m) == next_required(hosts, chain(hosts, i, (b + m - 1) as nat)));
    }
}

proof fn lemma_chain_repeats(hosts: Seq<HostModel>, i: int, j: nat, p: nat, x: nat)
    requires
        j < p,
        chain(hosts, i, j) == chain(hosts, i, p),
        forall|m: nat| m <= p ==> #[trigger] chain(hosts, i, m) != -1,
    ensures
        chain(hosts, i, x) != -1,
    decreases x,
{
    if x > p {
        let m = (x - p) as nat;
        lemma_chain_shift(hosts, i, j, p, m);
        lemma_chain_repeats(hosts, i, j, p, (j + m) as nat);
    }
}

/// The number of `true` marks.
pub open spec fn count_true(s: Seq<bool>) -> nat
    decreases s.len(),
{
    if s.len() == 0 {
        0
    } else {
        count_true(s.drop_last()) + if s.last() {
            1nat
        } else {
            0nat
        }
    }
}

proof fn lemma_count_true_bound(s: Seq<bool>)
    ensures
        count_true(s) <= s.len(),
    decreases s.len(),
{
    if s.len() > 0 {
        lemma_count_true_bound(s.drop_last());
    }
}

proof fn lemma_count_true_set(s: Seq<bool>, i: int)
    requires
        0 <= i < s.len(),
        !s[i],
    ensures
        count_true(s.update(i, true)) == count_true(s) + 1,
    decreases s.len(),
{
    let t = s.update(i, true);
    if i == s.len() - 1 {
        assert(t.drop_last() =~= s.drop_last());
    } else {
        lemma_count_true_set(s.drop_last(), i);
        assert(t.drop_last() =~= s.drop_last().update(i, true));
    }
}

proof fn lemma_count_true_none(n: nat)
    ensures
        count_true(Seq::new(n, |_i: int| false)) == 0,
    decreases n,
{
    if n > 0 {
        lemma_count_true_none((n - 1) as nat);
        assert(Seq::new(n, |_i: int| false).drop_last() =~= Seq::new((n - 1) as nat, |_i: int| false));
    }
}

// ---------------------------------------------------------------------------
// Searches
// ---------------------------------------------------------------------------

/// The last host named `name`.
fn last_named(hosts: &Vec<SSHHost>, name: &String) -> (r: Option<usize>)
    ensures
        match last_named_before(hosts_view(hosts@), name@, hosts@.len() as int) {
            Some(t) => r == Some(t as usize),
            None => r is None,
        },
{
    let ghost hv = hosts_view(hosts@);
    let mut k = hosts.len();
    while k > 0
        invariant
            k <= hosts@.len(),
            hv == hosts_view(hosts@),
            last_named_before(hv, name@, hosts@.len() as int) == last_named_before(hv, name@, k as int),
        decreases k,
    {
        if eq_string(&hosts[k - 1].name, name) {
            return Some(k - 1);
        }
        k = k - 1;
    }
    None
}

/// The first host, before position `upto`, whose alias is `a`.
fn first_alias_before(hosts: &Vec<SSHHost>, a: &String, upto: usize) -> (r: Option<usize>)
    requires
        upto <= hosts@.len(),
    ensures
        match r {
            Some(p) => p < upto && first_with_alias(hosts_view(hosts@), a@, 0) == Some(p as int),
            None => forall|q: int|
                0 <= q < upto ==> hosts_view(hosts@)[q].sshx.alias != Some(a@),
        },
{
    let ghost hv = hosts_view(hosts@);
    proof {
        lemma_first_with_alias(hv, a@, 0);
    }
    let mut i: usize = 0;
    while i < upto
        invariant
            i <= upto <= hosts@.len(),
            hv == hosts_view(hosts@),
            forall|q: int| 0 <= q < i ==> hv[q].sshx.alias != Some(a@),
            match first_with_alias(hv, a@, 0) {
                Some(p) => 0 <= p < hv.len() && hv[p].sshx.alias == Some(a@) && forall|q: int|
                    0 <= q < p ==> hv[q].sshx.alias != Some(a@),
                None => forall|q: int| 0 <= q < hv.len() ==> hv[q].sshx.alias != Some(a@),
            },
        decreases upto - i,
    {
        match &hosts[i].sshx.alias {
            Some(x) => {
                if eq_string(x, a) {
                    assert(hv[i as int] == hosts@[i as int]@);
                    assert(hv[i as int].sshx.alias == Some(a@));
                    proof {
                        match first_with_alias(hv, a@, 0) {
                            Some(p) => {
                                if p < i {
                                    assert(hv[p].sshx.alias != Some(a@));
                                }
                                assert(!(p > i));
                            },
                            None => {
                                assert(hv[i as int].sshx.alias != Some(a@));
                            },
                        }
                    }
                    return Some(i);
                }
            },
            None => {},
        }
        i = i + 1;
    }
    None
}

/// Whether some host is named `name`.
fn any_named(hosts: &Vec<SSHHost>, name: &String) -> (r: bool)
    ensures
        r == has_host_named(hosts_view(hosts@), name@),
{
    let ghost hv = hosts_view(hosts@);
    let mut i: usize = 0;
    while i < hosts.len()
        invariant
            i <= hosts@.len(),
            hv == hosts_view(hosts@),
            forall|q: int| 0 <= q < i ==> hv[q].name != name@,
        decreases hosts@.len() - i,
    {
        if eq_string(&hosts[i].name, name) {
            assert(hv[i as int].name == name@);
            return true;
        }
        i = i + 1;
    }
    false
}

/// A copy of a list of positions.
fn copy_positions(v: &Vec<usize>) -> (r: Vec<usize>)
    ensures
        r@ == v@,
{
    let mut r: Vec<usize> = Vec::new();
    for i in 0..v.len()
        invariant
            r@ == v@.take(i as int),
    {
        r.push(v[i]);
        assert(v@.take(i + 1) =~= v@.take(i as int).push(v@[i as int]));
    }
    assert(v@.take(v@.len() as int) =~= v@);
    r
}

/// Whether the chain of requirements from host `idx` never ends.
fn detect_cycle(hosts: &Vec<SSHHost>, idx: usize) -> (r: bool)
    requires
        idx < hosts@.len(),
        forall|q: int| 0 <= q < hosts@.len() ==> !requires_missing(hosts_view(hosts@), q),
    ensures
        r == requires_cycle(hosts_view(hosts@), idx as int),
{
    let ghost hv = hosts_view(hosts@);
    let n = hosts.len();
    let r0 = match &hosts[idx].sshx.requires {
        Some(r0) => r0,
        None => {
            assert(hv[idx as int] == hosts@[idx as int]@);
            assert(chain(hv, idx as int, 0) == idx);
            assert(chain(hv, idx as int, 1) == -1);
            return false;
        },
    };
    let mut marks: Vec<bool> = Vec::new();
    for q in 0..n
        invariant
            marks@ == Seq::new(q as nat, |_i: int| false),
    {
        marks.push(false);
        assert(marks@ =~= Seq::new((q + 1) as nat, |_i: int| false));
    }
    proof {
        lemma_count_true_none(n as nat);
        lemma_count_true_set(marks@, idx as int);
    }
    marks[idx] = true;
    let mut count: usize = 1;
    proof {
        assert(!requires_missing(hv, idx as int));
        lemma_last_named(hv, r0@, n as int);
    }
    let mut cur = match last_named(hosts, r0) {
        Some(t) => t,
        None => {
            proof {
                assert(false);
            }
            return false;
        },
    };
    let ghost mut k: nat = 1;
    assert(hv[idx as int] == hosts@[idx as int]@);
    assert(chain(hv, idx as int, 0) == idx);
    assert(chain(hv, idx as int, 1) == cur);
    loop
        invariant
            hv == hosts_view(hosts@),
            n == hosts@.len(),
            forall|q: int| 0 <= q < n ==> !requires_missing(hv, q),
            idx < n,
            cur < n,
            k >= 1,
            cur == chain(hv, idx as int, k),
            forall|m: nat| m <= k ==> #[trigger] chain(hv, idx as int, m) != -1,
            forall|m: nat| m <= k ==> 0 <= #[trigger] chain(hv, idx as int, m) < n,
            marks@.len() == n,
            forall|x: int|
                0 <= x < n ==> (#[trigger] marks@[x] <==> (x == idx || exists|m: nat|
                    2 <= m <= k && chain(hv, idx as int, m) == x)),
            count == count_true(marks@),
        decreases n - count,
    {
        proof {
            lemma_count_true_bound(marks@);
        }
        match &hosts[cur].sshx.requires {
            None => {
                assert(hv[cur as int] == hosts@[cur as int]@);
                assert(chain(hv, idx as int, k + 1) == -1);
                return false;
            },
            Some(rr) => {
                proof {
                    assert(!requires_missing(hv, cur as int));
                    lemma_last_named(hv, rr@, n as int);
                }
                let nxt = match last_named(hosts, rr) {
                    Some(t) => t,
                    None => {
                        proof {
                            assert(false);
                        }
                        return false;
                    },
                };
                assert(hv[cur as int] == hosts@[cur as int]@);
                assert(chain(hv, idx as int, k + 1) == nxt);
                if marks[nxt] {
                    proof {
                        let j: nat = if nxt == idx {
                            0
                        } else {
                            choose|m: nat| 2 <= m <= k && chain(hv, idx as int, m) == nxt
                        };
                        assert(chain(hv, idx as int, j) == chain(hv, idx as int, k + 1));
                        assert forall|x: nat| #[trigger] chain(hv, idx as int, x) != -1 by {
                            lemma_chain_repeats(hv, idx as int, j, k + 1, x);
                        }
                    }
                    return true;
                }
                proof {
                    lemma_count_true_set(marks@, nxt as int);
                    lemma_count_true_bound(marks@.update(nxt as int, true));
                }
                let ghost old_marks = marks@;
                marks[nxt] = true;
                count = count + 1;
                cur = nxt;
                proof {
                    k = k + 1;
                    assert forall|x: int|
                        0 <= x < n implies (#[trigger] marks@[x] <==> (x == idx || exists|m: nat|
                        2 <= m <= k && chain(hv, idx as int, m) == x)) by {
                        if x == nxt {
                            assert(chain(hv, idx as int, k) == x);
                        } else {
                            assert(marks@[x] == old_marks[x]);
                            if exists|m: nat| 2 <= m <= k && chain(hv, idx as int, m) == x {
                                let m = choose|m: nat| 2 <= m <= k && chain(hv, idx as int, m) == x;
                                assert(m != k);
                            }
                        }
                    }
                }
            },
        }
    }
}

} // verus!

verus! {

/// The model of a build result: the error, or the index's hosts, groups,
/// aliases and source files.
pub open spec fn index_sound(ix: ConfigIndex, hosts: Seq<HostModel>) -> bool {
    &&& hosts_view(ix.hosts@) == hosts
    &&& group_entries(ix.groups) == groups_of(hosts, hosts.len() as int)
    &&& aliases_view(ix.aliases@) == aliases_of(hosts, hosts.len() as int)
}

impl ConfigIndex {
    /// Builds the index of `hosts`: groups in order of first appearance,
    /// aliases, and the checks that no alias is used twice, that every
    /// `requires` names a host and that no chain of `requires` is endless.
    pub fn build(hosts: Vec<SSHHost>) -> (r: Result<ConfigIndex, SshxError>)
        ensures
            match index_fault(hosts_view(hosts@)) {
                Some(e) => r matches Err(x) && x@ == e,
                None => r matches Ok(ix) && index_sound(ix, hosts_view(hosts@))
                    && ix.source_files@.len() == 0,
            },
    {
        let ghost hv = hosts_view(hosts@);
        let n = hosts.len();
        let mut groups = group_map_new();
        let mut aliases: Vec<(String, usize)> = Vec::new();
        assert(aliases_view(aliases@) =~= Seq::<(Seq<char>, usize)>::empty());
        let mut idx: usize = 0;
        while idx < n
            invariant
                n == hosts@.len(),
                hv == hosts_view(hosts@),
                idx <= n,
                group_entries(groups) == groups_of(hv, idx as int),
                aliases_view(aliases@) == aliases_of(hv, idx as int),
                first_taken_alias(hv, 0) == first_taken_alias(hv, idx as int),
            decreases n - idx,
        {
            let host = &hosts[idx];
            assert(hv[idx as int] == host@);
            match &host.sshx.group {
                Some(g) => {
                    let existing = group_map_get(&groups, g.as_str());
                    match existing {
                        Some(v) => {
                            let mut nv = copy_positions(v);
                            nv.push(idx);
                            group_map_insert(&mut groups, g.clone(), nv);
                        },
                        None => {
                            let mut nv: Vec<usize> = Vec::new();
                            nv.push(idx);
                            assert(nv@ =~= seq![idx]);
                            group_map_insert(&mut groups, g.clone(), nv);
                        },
                    }
                },
                None => {},
            }
            match &host.sshx.alias {
                Some(a) => {
                    match first_alias_before(&hosts, a, idx) {
                        Some(p) => {
                            proof {
                                lemma_first_with_alias(hv, a@, 0);
                                assert(hv[p as int].sshx.alias == Some(a@));
                            }
                            assert(alias_taken(hv, idx as int));
                            return Err(
                                SshxError::DuplicateAlias {
                                    alias: a.clone(),
                                    host1: hosts[p].name.clone(),
                                    host2: host.name.clone(),
                                },
                            );
                        },
                        None => {
                            assert(!alias_taken(hv, idx as int));
                            let ghost a0 = aliases_view(aliases@);
                            aliases.push((a.clone(), idx));
                            assert(aliases_view(aliases@) =~= a0.push((a@, idx)));
                        },
                    }
                },
                None => {},
            }
            idx = idx + 1;
        }
        proof {
            lemma_first_taken_alias_none(hv, 0);
        }
        let mut j: usize = 0;
        while j < n
            invariant
                n == hosts@.len(),
                hv == hosts_view(hosts@),
                j <= n,
                first_taken_alias(hv, 0) is None,
                first_missing_requires(hv, 0) == first_missing_requires(hv, j as int),
            decreases n - j,
        {
            assert(hv[j as int] == hosts@[j as int]@);
            match &hosts[j].sshx.requires {
                Some(req) => {
                    if !any_named(&hosts, req) {
                        assert(requires_missing(hv, j as int));
                        return Err(
                            SshxError::RequiresHostNotFound {
                                host: hosts[j].name.clone(),
                                requires: req.clone(),
                            },
                        );
                    }
                },
                None => {},
            }
            j = j + 1;
        }
        proof {
            lemma_first_missing_none(hv, 0);
        }
        let mut c: usize = 0;
        while c < n
            invariant
                n == hosts@.len(),
                hv == hosts_view(hosts@),
                c <= n,
                first_taken_alias(hv, 0) is None,
                first_missing_requires(hv, 0) is None,
                forall|q: int| 0 <= q < n ==> !requires_missing(hv, q),
                first_cycle(hv, 0) == first_cycle(hv, c as int),
            decreases n - c,
        {
            if detect_cycle(&hosts, c) {
                return Err(SshxError::CircularRequires { host: hosts[c].name.clone() });
            }
            c = c + 1;
        }
        Ok(ConfigIndex { hosts, groups, aliases, source_files: Vec::new() })
    }
}

} // verus!

verus! {

/// The first host from position `i` on named `name`.
pub open spec fn first_named(hosts: Seq<HostModel>, name: Seq<char>, i: int) -> Option<int>
    decreases hosts.len() - i,
{
    if i < 0 || i >= hosts.len() {
        None
    } else if hosts[i].name == name {
        Some(i)
    } else {
        first_named(hosts, name, i + 1)
    }
}

/// The host position of the first alias entry from `i` on with key `a`.
pub open spec fn alias_lookup(al: Seq<(Seq<char>, usize)>, a: Seq<char>, i: int) -> Option<usize>
    decreases al.len() - i,
{
    if i < 0 || i >= al.len() {
        None
    } else if al[i].0 == a {
        Some(al[i].1)
    } else {
        alias_lookup(al, a, i + 1)
    }
}

/// Which host `input` resolves to: the host of its alias entry (none if
/// that position is out of range), else the first host with that name.
pub open spec fn resolution(hosts: Seq<HostModel>, al: Seq<(Seq<char>, usize)>, input: Seq<char>) -> Option<int> {
    match alias_lookup(al, input, 0) {
        Some(t) => if t < hosts.len() {
            Some(t as int)
        } else {
            None
        },
        None => first_named(hosts, input, 0),
    }
}

/// The hosts at the positions `pos` that exist, in that order.
pub open spec fn hosts_at(hosts: Seq<HostModel>, pos: Seq<usize>) -> Seq<HostModel>
    decreases pos.len(),
{
    if pos.len() == 0 {
        Seq::empty()
    } else {
        hosts_at(hosts, pos.drop_last()) + if pos.last() < hosts.len() {
            seq![hosts[pos.last() as int]]
        } else {
            Seq::empty()
        }
    }
}

/// What a listing of group `g` holds.
pub open spec fn group_listing(
    entries: Seq<(Seq<char>, Seq<usize>)>,
    hosts: Seq<HostModel>,
    g: Seq<char>,
) -> Seq<HostModel> {
    match key_position(entries, g) {
        Some(p) => hosts_at(hosts, entries[p].1),
        None => Seq::empty(),
    }
}

/// The models of a list of host references.
pub open spec fn host_refs_view(v: Seq<&SSHHost>) -> Seq<HostModel> {
    v.map_values(|h: &SSHHost| h@)
}

impl ConfigIndex {
    /// The first host named `name`.
    pub fn find_host(&self, name: &str) -> (r: Option<&SSHHost>)
        ensures
            match first_named(hosts_view(self.hosts@), name@, 0) {
                Some(i) => r matches Some(h) && h@ == self.hosts@[i]@,
                None => r is None,
            },
    {
        let ghost hv = hosts_view(self.hosts@);
        let name_s = name.to_owned();
        let mut i: usize = 0;
        while i < self.hosts.len()
            invariant
                i <= self.hosts@.len(),
                hv == hosts_view(self.hosts@),
                name_s@ == name@,
                first_named(hv, name@, 0) == first_named(hv, name@, i as int),
            decreases self.hosts@.len() - i,
        {
            assert(hv[i as int] == self.hosts@[i as int]@);
            if eq_string(&self.hosts[i].name, &name_s) {
                return Some(&self.hosts[i]);
            }
            i = i + 1;
        }
        None
    }

    /// The host `input` names: through its alias if it is one, else by
    /// host name.
    pub fn resolve_alias(&self, input: &str) -> (r: Option<&SSHHost>)
        ensures
            match resolution(hosts_view(self.hosts@), aliases_view(self.aliases@), input@) {
                Some(i) => r matches Some(h) && h@ == self.hosts@[i]@,
                None => r is None,
            },
    {
        let ghost al = aliases_view(self.aliases@);
        let input_s = input.to_owned();
        let mut i: usize = 0;
        while i < self.aliases.len()
            invariant
                i <= self.aliases@.len(),
                al == aliases_view(self.aliases@),
                input_s@ == input@,
                alias_lookup(al, input@, 0) == alias_lookup(al, input@, i as int),
            decreases self.aliases@.len() - i,
        {
            assert(al[i as int] == (self.aliases@[i as int].0@, self.aliases@[i as int].1));
            if eq_string(&self.aliases[i].0, &input_s) {
                let t = self.aliases[i].1;
                if t < self.hosts.len() {
                    return Some(&self.hosts[t]);
                } else {
                    return None;
                }
            }
            i = i + 1;
        }
        self.find_host(input)
    }

    /// The hosts of group `group`, in config order.
    pub fn hosts_in_group(&self, group: &str) -> (r: Vec<&SSHHost>)
        ensures
            host_refs_view(r@) == group_listing(group_entries(self.groups), hosts_view(self.hosts@), group@),
    {
        let ghost hv = hosts_view(self.hosts@);
        let mut r: Vec<&SSHHost> = Vec::new();
        match group_map_get(&self.groups, group) {
            Some(pos) => {
                let mut i: usize = 0;
                while i < pos.len()
                    invariant
                        i <= pos@.len(),
                        hv == hosts_view(self.hosts@),
                        host_refs_view(r@) == hosts_at(hv, pos@.take(i as int)),
                    decreases pos@.len() - i,
                {
                    let t = pos[i];
                    assert(pos@.take(i + 1).drop_last() =~= pos@.take(i as int));
                    let ghost before = host_refs_view(r@);
                    if t < self.hosts.len() {
                        r.push(&self.hosts[t]);
                        assert(host_refs_view(r@) =~= before + seq![hv[t as int]]);
                    } else {
                        assert(before + Seq::<HostModel>::empty() =~= before);
                    }
                    i = i + 1;
                }
                assert(pos@.take(pos@.len() as int) =~= pos@);
            },
            None => {
                assert(host_refs_view(r@) =~= Seq::<HostModel>::empty());
            },
        }
        r
    }

    /// The host that `host` requires, if it names one.
    pub fn jump_host_for(&self, host: &SSHHost) -> (r: Option<&SSHHost>)
        ensures
            match host.sshx.requires {
                Some(req) => match first_named(hosts_view(self.hosts@), req@, 0) {
                    Some(i) => r matches Some(h) && h@ == self.hosts@[i]@,
                    None => r is None,
                },
                None => r is None,
            },
    {
        match &host.sshx.requires {
            Some(req) => self.find_host(req.as_str()),
            None => None,
        }
    }
}

} // verus!

verus! {

// ---------------------------------------------------------------------------
// Laws
// ---------------------------------------------------------------------------

/// The positions of the first `k` hosts whose group is `g`, in order.
pub open spec fn positions_in_group(hosts: Seq<HostModel>, g: Seq<char>, k: int) -> Seq<usize>
    decreases k,
{
    if k <= 0 {
        Seq::empty()
    } else {
        positions_in_group(hosts, g, k - 1) + if hosts[k - 1].sshx.group == Some(g) {
            seq![(k - 1) as usize]
        } else {
            Seq::empty()
        }
    }
}

/// The first `k` hosts whose group is `g`, in order.
pub open spec fn members_of(hosts: Seq<HostModel>, g: Seq<char>, k: int) -> Seq<HostModel>
    decreases k,
{
    if k <= 0 {
        Seq::empty()
    } else {
        members_of(hosts, g, k - 1) + if hosts[k - 1].sshx.group == Some(g) {
            seq![hosts[k - 1]]
        } else {
            Seq::empty()
        }
    }
}

pub(crate) proof fn lemma_key_position(e: Seq<(Seq<char>, Seq<usize>)>, g: Seq<char>)
    ensures
        match key_position(e, g) {
            Some(p) => 0 <= p < e.len() && e[p].0 == g && forall|q: int| 0 <= q < p ==> e[q].0 != g,
            None => forall|q: int| 0 <= q < e.len() ==> e[q].0 != g,
        },
    decreases e.len(),
{
    if e.len() > 0 {
        lemma_key_position(e.drop_last(), g);
        assert(forall|q: int| 0 <= q < e.len() - 1 ==> e.drop_last()[q] == e[q]);
    }
}

pub(crate) proof fn lemma_groups_of(hosts: Seq<HostModel>, k: int)
    requires
        0 <= k <= hosts.len(),
    ensures
        distinct_keys(groups_of(hosts, k)),
        forall|p: int|
            0 <= p < groups_of(hosts, k).len() ==> (#[trigger] groups_of(hosts, k)[p]).1
                == positions_in_group(hosts, groups_of(hosts, k)[p].0, k),
        forall|g: Seq<char>|
            key_position(#[trigger] groups_of(hosts, k), g) is None ==> positions_in_group(
                hosts,
                g,
                k,
            ) == Seq::<usize>::empty(),
    decreases k,
{
    if k > 0 {
        lemma_groups_of(hosts, k - 1);
        let g0 = groups_of(hosts, k - 1);
        let g1 = groups_of(hosts, k);
        match hosts[k - 1].sshx.group {
            None => {
                assert forall|g: Seq<char>| true implies positions_in_group(hosts, g, k)
                    == positions_in_group(hosts, g, k - 1) by {
                    assert(positions_in_group(hosts, g, k) =~= positions_in_group(hosts, g, k - 1));
                }
            },
            Some(name) => {
                lemma_key_position(g0, name);
                assert forall|g: Seq<char>| g != name implies positions_in_group(hosts, g, k)
                    == positions_in_group(hosts, g, k - 1) by {
                    assert(positions_in_group(hosts, g, k) =~= positions_in_group(hosts, g, k - 1));
                }
                assert(positions_in_group(hosts, name, k) == positions_in_group(hosts, name, k
                    - 1).push((k - 1) as usize));
                match key_position(g0, name) {
                    Some(p) => {
                        assert(g1 == g0.update(p, (name, g0[p].1.push((k - 1) as usize))));
                        assert forall|g: Seq<char>|
                            key_position(g1, g) is None implies positions_in_group(hosts, g, k)
                            == Seq::<usize>::empty() by {
                            lemma_key_position(g1, g);
                            lemma_key_position(g0, g);
                            if key_position(g0, g) is Some {
                                let q = key_position(g0, g)->Some_0;
                                assert(g1[q].0 == g);
                            }
                        }
                    },
                    None => {
                        assert(g1 == g0.push((name, seq![(k - 1) as usize])));
                        assert(positions_in_group(hosts, name, k - 1) == Seq::<usize>::empty());
                        assert(positions_in_group(hosts, name, k) =~= seq![(k - 1) as usize]);
                        assert forall|g: Seq<char>|
                            key_position(g1, g) is None implies positions_in_group(hosts, g, k)
                            == Seq::<usize>::empty() by {
                            lemma_key_position(g1, g);
                            lemma_key_position(g0, g);
                            if key_position(g0, g) is Some {
                                let q = key_position(g0, g)->Some_0;
                                assert(g1[q].0 == g);
                            }
                            assert(g1[g1.len() - 1].0 == name);
                        }
                    },
                }
            },
        }
    }
}

proof fn lemma_hosts_at_positions(hosts: Seq<HostModel>, g: Seq<char>, k: int)
    requires
        0 <= k <= hosts.len(),
        hosts.len() <= usize::MAX,
    ensures
        hosts_at(hosts, positions_in_group(hosts, g, k)) == members_of(hosts, g, k),
    decreases k,
{
    if k > 0 {
        lemma_hosts_at_positions(hosts, g, k - 1);
        let p0 = positions_in_group(hosts, g, k - 1);
        if hosts[k - 1].sshx.group == Some(g) {
            let p1 = p0.push((k - 1) as usize);
            assert(positions_in_group(hosts, g, k) == p1);
            assert(p1.drop_last() =~= p0);
        } else {
            assert(positions_in_group(hosts, g, k) =~= p0);
            assert(members_of(hosts, g, k) =~= members_of(hosts, g, k - 1));
        }
    }
}

/// Law: in the groups an index builds, listing a group gives exactly the
/// hosts whose `group` annotation names it, in config order (none for a
/// name no host carries).
pub proof fn law_group_listing_is_its_members(hosts: Seq<HostModel>, g: Seq<char>)
    requires
        hosts.len() <= usize::MAX,
    ensures
        group_listing(groups_of(hosts, hosts.len() as int), hosts, g) == members_of(
            hosts,
            g,
            hosts.len() as int,
        ),
{
    let n = hosts.len() as int;
    lemma_groups_of(hosts, n);
    lemma_hosts_at_positions(hosts, g, n);
    let e = groups_of(hosts, n);
    lemma_key_position(e, g);
    match key_position(e, g) {
        Some(p) => {
            assert(e[p].1 == positions_in_group(hosts, g, n));
        },
        None => {
            assert(positions_in_group(hosts, g, n) == Seq::<usize>::empty());
            assert(hosts_at(hosts, Seq::<usize>::empty()) == Seq::<HostModel>::empty());
        },
    }
}

proof fn lemma_alias_lookup_push(al: Seq<(Seq<char>, usize)>, x: (Seq<char>, usize), a: Seq<char>, i: int)
    requires
        0 <= i <= al.len(),
    ensures
        alias_lookup(al.push(x), a, i) == match alias_lookup(al, a, i) {
            Some(t) => Some(t),
            None => if x.0 == a {
                Some(x.1)
            } else {
                None
            },
        },
    decreases al.len() - i,
{
    if i < al.len() {
        assert(al.push(x)[i] == al[i]);
        lemma_alias_lookup_push(al, x, a, i + 1);
    } else {
        assert(al.push(x)[i] == x);
        assert(alias_lookup(al.push(x), a, i + 1) == None::<usize>);
    }
}

proof fn lemma_aliases_of_lookup(hosts: Seq<HostModel>, a: Seq<char>, k: int)
    requires
        0 <= k <= hosts.len(),
        hosts.len() <= usize::MAX,
    ensures
        match alias_lookup(aliases_of(hosts, k), a, 0) {
            Some(t) => t < k && hosts[t as int].sshx.alias == Some(a) && forall|q: int|
                0 <= q < t ==> hosts[q].sshx.alias != Some(a),
            None => forall|q: int| 0 <= q < k ==> hosts[q].sshx.alias != Some(a),
        },
    decreases k,
{
    if k > 0 {
        lemma_aliases_of_lookup(hosts, a, k - 1);
        let al = aliases_of(hosts, k - 1);
        match hosts[k - 1].sshx.alias {
            Some(name) => {
                lemma_alias_lookup_push(al, (name, (k - 1) as usize), a, 0);
            },
            None => {},
        }
    }
}

/// Law: in an index that builds, every alias resolves to the host that
/// declares it.
pub proof fn law_alias_resolves_to_its_host(hosts: Seq<HostModel>, j: int, a: Seq<char>)
    requires
        hosts.len() <= usize::MAX,
        index_fault(hosts) is None,
        0 <= j < hosts.len(),
        hosts[j].sshx.alias == Some(a),
    ensures
        resolution(hosts, aliases_of(hosts, hosts.len() as int), a) == Some(j),
{
    let n = hosts.len() as int;
    lemma_aliases_of_lookup(hosts, a, n);
    lemma_first_taken_alias_none(hosts, 0);
    match alias_lookup(aliases_of(hosts, n), a, 0) {
        Some(t) => {
            if (t as int) < j {
                assert(alias_taken(hosts, j));
            }
        },
        None => {},
    }
}

pub(crate) proof fn lemma_first_named(hosts: Seq<HostModel>, name: Seq<char>, i: int)
    requires
        0 <= i,
    ensures
        match first_named(hosts, name, i) {
            Some(p) => i <= p < hosts.len() && hosts[p].name == name,
            None => forall|q: int| i <= q < hosts.len() ==> hosts[q].name != name,
        },
    decreases hosts.len() - i,
{
    if i < hosts.len() && hosts[i].name != name {
        lemma_first_named(hosts, name, i + 1);
    }
}

proof fn lemma_first_named_exists(hosts: Seq<HostModel>, name: Seq<char>, i: int, w: int)
    requires
        0 <= i <= w < hosts.len(),
        hosts[w].name == name,
    ensures
        first_named(hosts, name, i) is Some,
    decreases w - i,
{
    if hosts[i].name != name {
        lemma_first_named_exists(hosts, name, i + 1, w);
    }
}

/// Law: in an index that builds, the host a `requires` annotation names
/// is found (the jump host of every host that requires one exists).
pub proof fn law_required_host_found(hosts: Seq<HostModel>, j: int)
    requires
        index_fault(hosts) is None,
        0 <= j < hosts.len(),
        hosts[j].sshx.requires is Some,
    ensures
        first_named(hosts, hosts[j].sshx.requires->Some_0, 0) is Some,
{
    lemma_first_taken_alias_none(hosts, 0);
    lemma_first_missing_none(hosts, 0);
    assert(!requires_missing(hosts, j));
    let r = hosts[j].sshx.requires->Some_0;
    let w = choose|w: int| 0 <= w < hosts.len() && hosts[w].name == r;
    lemma_first_named_exists(hosts, r, 0, w);
}

/// Law: in an index that builds, following `requires` from any host ends
/// at a host that requires nothing.
pub proof fn law_requires_chains_end(hosts: Seq<HostModel>, j: int)
    requires
        index_fault(hosts) is None,
        0 <= j < hosts.len(),
    ensures
        exists|k: nat| chain(hosts, j, k) == -1,
{
    lemma_first_taken_alias_none(hosts, 0);
    lemma_first_missing_none(hosts, 0);
    lemma_first_cycle_none(hosts, 0);
    assert(!requires_cycle(hosts, j));
}

pub(crate) proof fn lemma_positions_in_group(hosts: Seq<HostModel>, g: Seq<char>, k: int)
    requires
        0 <= k <= hosts.len(),
        hosts.len() <= usize::MAX,
    ensures
        forall|j: int|
            0 <= j < positions_in_group(hosts, g, k).len() ==> {
                &&& #[trigger] positions_in_group(hosts, g, k)[j] < k
                &&& hosts[positions_in_group(hosts, g, k)[j] as int].sshx.group == Some(g)
            },
        forall|j1: int, j2: int|
            0 <= j1 < j2 < positions_in_group(hosts, g, k).len() ==> #[trigger] positions_in_group(
                hosts,
                g,
                k,
            )[j1] < #[trigger] positions_in_group(hosts, g, k)[j2],
        forall|i: int|
            0 <= i < k && #[trigger] hosts[i].sshx.group == Some(g) ==> exists|j: int|
                0 <= j < positions_in_group(hosts, g, k).len() && positions_in_group(hosts, g, k)[j]
                    == i,
    decreases k,
{
    if k > 0 {
        lemma_positions_in_group(hosts, g, k - 1);
        let p0 = positions_in_group(hosts, g, k - 1);
        let p1 = positions_in_group(hosts, g, k);
        if hosts[k - 1].sshx.group == Some(g) {
            assert(p1 == p0.push((k - 1) as usize));
            assert forall|i: int| 0 <= i < k && #[trigger] hosts[i].sshx.group == Some(g) implies exists|j: int|
                0 <= j < p1.len() && p1[j] == i by {
                if i == k - 1 {
                    assert(p1[p0.len() as int] == i);
                } else {
                    let j = choose|j: int| 0 <= j < p0.len() && p0[j] == i;
                    assert(p1[j] == i);
                }
            }
        } else {
            assert(p1 =~= p0);
        }
    }
}

/// The groups of the first `k` hosts are never empty, and they come in
/// the order of their first hosts.
proof fn lemma_groups_order(hosts: Seq<HostModel>, k: int)
    requires
        0 <= k <= hosts.len(),
        hosts.len() <= usize::MAX,
    ensures
        forall|p: int|
            0 <= p < groups_of(hosts, k).len() ==> (#[trigger] groups_of(hosts, k)[p]).1.len() > 0,
        forall|p: int, x: int|
            0 <= p < groups_of(hosts, k).len() && 0 <= x < groups_of(hosts, k)[p].1.len() ==> #[trigger] groups_of(
                hosts,
                k,
            )[p].1[x] < k,
        forall|p: int, q: int|
            0 <= p < q < groups_of(hosts, k).len() ==> (#[trigger] groups_of(hosts, k)[p]).1[0]
                < (#[trigger] groups_of(hosts, k)[q]).1[0],
    decreases k,
{
    if k > 0 {
        lemma_groups_order(hosts, k - 1);
        let g0 = groups_of(hosts, k - 1);
        let g1 = groups_of(hosts, k);
        match hosts[k - 1].sshx.group {
            None => {},
            Some(name) => {
                match key_position(g0, name) {
                    Some(p) => {
                        lemma_key_position(g0, name);
                        assert(g1 == g0.update(p, (name, g0[p].1.push((k - 1) as usize))));
                        assert forall|q: int| 0 <= q < g1.len() implies (#[trigger] g1[q]).1[0] == g0[q].1[0]
                            && g1[q].1.len() > 0 by {
                            if q == p {
                                assert(g1[q].1 == g0[p].1.push((k - 1) as usize));
                            }
                        }
                        assert forall|q: int, x: int| 0 <= q < g1.len() && 0 <= x < g1[q].1.len() implies #[trigger] g1[q].1[x] < k by {
                            if q == p {
                                assert(g1[q].1 == g0[p].1.push((k - 1) as usize));
                                if x < g0[p].1.len() {
                                    assert(g1[q].1[x] == g0[p].1[x]);
                                }
                            } else {
                                assert(g1[q] == g0[q]);
                            }
                        }
                        assert forall|a: int, b: int| 0 <= a < b < g1.len() implies (#[trigger] g1[a]).1[0]
                            < (#[trigger] g1[b]).1[0] by {
                            assert(g1[a].1[0] == g0[a].1[0]);
                            assert(g1[b].1[0] == g0[b].1[0]);
                        }
                    },
                    None => {
                        assert(g1 == g0.push((name, seq![(k - 1) as usize])));
                        assert forall|q: int, x: int| 0 <= q < g1.len() && 0 <= x < g1[q].1.len() implies #[trigger] g1[q].1[x] < k by {
                            if q < g0.len() {
                                assert(g1[q] == g0[q]);
                            }
                        }
                        assert forall|a: int, b: int| 0 <= a < b < g1.len() implies (#[trigger] g1[a]).1[0]
                            < (#[trigger] g1[b]).1[0] by {
                            assert(g1[a] == g0[a]);
                            if b < g0.len() {
                                assert(g1[b] == g0[b]);
                            } else {
                                assert(g0[a].1[0] < k - 1);
                            }
                        }
                    },
                }
            },
        }
    }
}

/// Law: the tables of an index that builds. An alias finds host `i`
/// exactly when host `i` declares it. The groups hold each group name
/// once, in the order the names first appear among the hosts, each with
/// the ascending positions of all the hosts that carry it; a name that no
/// host carries has no entry.
pub proof fn law_index_tables(hosts: Seq<HostModel>)
    requires
        hosts.len() <= usize::MAX,
        index_fault(hosts) is None,
    ensures
        ({
            let n = hosts.len() as int;
            let al = aliases_of(hosts, n);
            let e = groups_of(hosts, n);
            &&& forall|a: Seq<char>|
                #[trigger] alias_lookup(al, a, 0) is Some ==> alias_lookup(al, a, 0)->Some_0 < n
            &&& forall|a: Seq<char>, i: int|
                #![trigger alias_lookup(al, a, 0), hosts[i]]
                0 <= i < n ==> (alias_lookup(al, a, 0) == Some(i as usize) <==> hosts[i].sshx.alias
                    == Some(a))
            &&& distinct_keys(e)
            &&& forall|p: int|
                0 <= p < e.len() ==> (#[trigger] e[p]).1 == positions_in_group(hosts, e[p].0, n)
                    && e[p].1.len() > 0
            &&& forall|p: int, q: int| 0 <= p < q < e.len() ==> (#[trigger] e[p]).1[0] < (#[trigger] e[q]).1[0]
            &&& forall|g: Seq<char>|
                #[trigger] key_position(e, g) is None <==> positions_in_group(hosts, g, n).len() == 0
        }),
{
    let n = hosts.len() as int;
    let al = aliases_of(hosts, n);
    let e = groups_of(hosts, n);
    lemma_first_taken_alias_none(hosts, 0);
    assert forall|a: Seq<char>| #[trigger] alias_lookup(al, a, 0) is Some implies alias_lookup(al, a, 0)->Some_0 < n by {
        lemma_aliases_of_lookup(hosts, a, n);
    }
    assert forall|a: Seq<char>, i: int| #![trigger alias_lookup(al, a, 0), hosts[i]] 0 <= i < n implies (alias_lookup(al, a, 0) == Some(i as usize)
        <==> hosts[i].sshx.alias == Some(a)) by {
        lemma_aliases_of_lookup(hosts, a, n);
        if hosts[i].sshx.alias == Some(a) {
            match alias_lookup(al, a, 0) {
                Some(t) => {
                    if (t as int) < i {
                        assert(alias_taken(hosts, i));
                    }
                },
                None => {},
            }
        }
    }
    lemma_groups_of(hosts, n);
    lemma_groups_order(hosts, n);
    assert forall|g: Seq<char>| #[trigger] key_position(e, g) is None <==> positions_in_group(hosts, g, n).len() == 0 by {
        lemma_key_position(e, g);
        if let Some(p) = key_position(e, g) {
            assert(e[p].1 == positions_in_group(hosts, g, n));
        }
    }
}

/// Law: the positions a group holds are those of all the hosts that
/// carry the group, each once, in ascending order.
pub proof fn law_group_positions(hosts: Seq<HostModel>, g: Seq<char>)
    requires
        hosts.len() <= usize::MAX,
    ensures
        ({
            let n = hosts.len() as int;
            let pos = positions_in_group(hosts, g, n);
            &&& forall|j: int|
                0 <= j < pos.len() ==> #[trigger] pos[j] < n && hosts[pos[j] as int].sshx.group == Some(g)
            &&& forall|j1: int, j2: int| 0 <= j1 < j2 < pos.len() ==> #[trigger] pos[j1] < #[trigger] pos[j2]
            &&& forall|i: int|
                0 <= i < n && #[trigger] hosts[i].sshx.group == Some(g) ==> exists|j: int|
                    0 <= j < pos.len() && pos[j] == i
        }),
{
    lemma_positions_in_group(hosts, g, hosts.len() as int);
}

/// No two hosts declare the same alias.
pub open spec fn aliases_distinct(hosts: Seq<HostModel>) -> bool {
    forall|i: int, j: int|
        0 <= i < j < hosts.len() && (#[trigger] hosts[i]).sshx.alias is Some ==> hosts[i].sshx.alias
            != (#[trigger] hosts[j]).sshx.alias
}

/// Every `requires` names a host of the list.
pub open spec fn requires_all_found(hosts: Seq<HostModel>) -> bool {
    forall|i: int|
        0 <= i < hosts.len() ==> match (#[trigger] hosts[i]).sshx.requires {
            Some(r) => has_host_named(hosts, r),
            None => true,
        }
}

/// Following `requires` from host `i` meets some host a second time.
pub open spec fn chain_revisits(hosts: Seq<HostModel>, i: int) -> bool {
    exists|j: nat, p: nat|
        j < p && #[trigger] chain(hosts, i, j) == #[trigger] chain(hosts, i, p) && forall|m: nat|
            m <= p ==> #[trigger] chain(hosts, i, m) != -1
}

/// From no host does following `requires` meet a host twice.
pub open spec fn chains_never_revisit(hosts: Seq<HostModel>) -> bool {
    forall|i: int| 0 <= i < hosts.len() ==> !#[trigger] chain_revisits(hosts, i)
}

proof fn lemma_first_taken_alias_some(hosts: Seq<HostModel>, j: int)
    requires
        0 <= j,
    ensures
        first_taken_alias(hosts, j) matches Some(p) ==> 0 <= p < hosts.len() && alias_taken(hosts, p),
    decreases hosts.len() - j,
{
    if j < hosts.len() && !alias_taken(hosts, j) {
        lemma_first_taken_alias_some(hosts, j + 1);
    }
}

proof fn lemma_first_missing_some(hosts: Seq<HostModel>, j: int)
    requires
        0 <= j,
    ensures
        first_missing_requires(hosts, j) matches Some(p) ==> 0 <= p < hosts.len() && requires_missing(hosts, p),
    decreases hosts.len() - j,
{
    if j < hosts.len() && !requires_missing(hosts, j) {
        lemma_first_missing_some(hosts, j + 1);
    }
}

proof fn lemma_first_cycle_some(hosts: Seq<HostModel>, j: int)
    requires
        0 <= j,
    ensures
        first_cycle(hosts, j) matches Some(p) ==> 0 <= p < hosts.len() && requires_cycle(hosts, p),
    decreases hosts.len() - j,
{
    if j < hosts.len() && !requires_cycle(hosts, j) {
        lemma_first_cycle_some(hosts, j + 1);
    }
}

proof fn lemma_chain_range(hosts: Seq<HostModel>, i: int, m: nat)
    requires
        0 <= i < hosts.len(),
    ensures
        chain(hosts, i, m) == -1 || 0 <= chain(hosts, i, m) < hosts.len(),
    decreases m,
{
    if m > 0 {
        lemma_chain_range(hosts, i, (m - 1) as nat);
        let c = chain(hosts, i, (m - 1) as nat);
        if 0 <= c < hosts.len() {
            if let Some(r) = hosts[c].sshx.requires {
                lemma_last_named(hosts, r, hosts.len() as int);
            }
        }
    }
}

/// An endless chain of requirements meets some host twice, and one that
/// meets a host twice is endless.
proof fn lemma_cycle_iff_revisit(hosts: Seq<HostModel>, i: int)
    requires
        0 <= i < hosts.len(),
    ensures
        requires_cycle(hosts, i) <==> chain_revisits(hosts, i),
{
    broadcast use vstd::seq_lib::group_seq_properties;
    let n = hosts.len();
    if chain_revisits(hosts, i) {
        let (j, p) = choose|j: nat, p: nat|
            j < p && #[trigger] chain(hosts, i, j) == #[trigger] chain(hosts, i, p) && forall|m: nat|
                m <= p ==> #[trigger] chain(hosts, i, m) != -1;
        assert forall|x: nat| #[trigger] chain(hosts, i, x) != -1 by {
            lemma_chain_repeats(hosts, i, j, p, x);
        }
    }
    if requires_cycle(hosts, i) {
        let s = Seq::new((n + 1) as nat, |m: int| chain(hosts, i, m as nat));
        assert forall|m: int| 0 <= m < s.len() implies 0 <= #[trigger] s[m] < n by {
            lemma_chain_range(hosts, i, m as nat);
            assert(chain(hosts, i, m as nat) != -1);
        }
        if s.no_duplicates() {
            s.unique_seq_to_set();
            vstd::set_lib::lemma_int_range(0, n as int);
            assert(s.to_set().subset_of(vstd::set_lib::set_int_range(0, n as int))) by {
                assert forall|x: int| s.to_set().contains(x) implies vstd::set_lib::set_int_range(0, n as int).contains(x) by {
                    assert(s.contains(x));
                    let m = choose|m: int| 0 <= m < s.len() && s[m] == x;
                    assert(0 <= s[m] < n);
                }
            }
            vstd::set_lib::lemma_len_subset(s.to_set(), vstd::set_lib::set_int_range(0, n as int));
            assert(false);
        }
        let (a, b) = choose|a: int, b: int| 0 <= a < s.len() && 0 <= b < s.len() && a != b && s[a] == s[b];
        let (j, p): (nat, nat) = if a < b { (a as nat, b as nat) } else { (b as nat, a as nat) };
        assert(chain(hosts, i, j) == chain(hosts, i, p));
        assert(forall|m: nat| m <= p ==> #[trigger] chain(hosts, i, m) != -1);
        assert(chain_revisits(hosts, i));
    }
}

/// Law: an index builds exactly when no alias is declared twice, every
/// `requires` names a host, and following `requires` from any host never
/// meets a host twice. When several of these fail, a duplicate alias is
/// reported first, then a missing required host, then a circular chain.
pub proof fn law_build_verdict(hosts: Seq<HostModel>)
    ensures
        index_fault(hosts) is None <==> aliases_distinct(hosts) && requires_all_found(hosts)
            && chains_never_revisit(hosts),
        !aliases_distinct(hosts) ==> index_fault(hosts) matches Some(ErrorView::DuplicateAlias { .. }),
        aliases_distinct(hosts) && !requires_all_found(hosts) ==> index_fault(hosts) matches Some(
            ErrorView::RequiresHostNotFound { .. },
        ),
        aliases_distinct(hosts) && requires_all_found(hosts) && !chains_never_revisit(hosts)
            ==> index_fault(hosts) matches Some(ErrorView::CircularRequires { .. }),
{
    lemma_first_taken_alias_some(hosts, 0);
    lemma_first_missing_some(hosts, 0);
    lemma_first_cycle_some(hosts, 0);
    if first_taken_alias(hosts, 0) is None {
        lemma_first_taken_alias_none(hosts, 0);
        assert forall|i: int, j: int|
            0 <= i < j < hosts.len() && (#[trigger] hosts[i]).sshx.alias is Some implies hosts[i].sshx.alias
                != (#[trigger] hosts[j]).sshx.alias by {
            if hosts[i].sshx.alias == hosts[j].sshx.alias {
                assert(alias_taken(hosts, j));
            }
        }
    } else {
        let p = first_taken_alias(hosts, 0)->Some_0;
        let q = choose|q: int| 0 <= q < p && hosts[q].sshx.alias == hosts[p].sshx.alias;
        assert(hosts[q].sshx.alias == hosts[p].sshx.alias);
        assert(!aliases_distinct(hosts));
    }
    if first_missing_requires(hosts, 0) is None {
        lemma_first_missing_none(hosts, 0);
        assert forall|i: int| 0 <= i < hosts.len() implies match (#[trigger] hosts[i]).sshx.requires {
            Some(r) => has_host_named(hosts, r),
            None => true,
        } by {
            assert(!requires_missing(hosts, i));
        }
    } else {
        let p = first_missing_requires(hosts, 0)->Some_0;
        assert(!requires_all_found(hosts)) by {
            assert(requires_missing(hosts, p));
            let _x = hosts[p];
        }
    }
    if first_cycle(hosts, 0) is None {
        lemma_first_cycle_none(hosts, 0);
        assert forall|i: int| 0 <= i < hosts.len() implies !#[trigger] chain_revisits(hosts, i) by {
            lemma_cycle_iff_revisit(hosts, i);
        }
    } else {
        let p = first_cycle(hosts, 0)->Some_0;
        lemma_cycle_iff_revisit(hosts, p);
        assert(!chains_never_revisit(hosts));
    }
}

} // verus!

verus! {

impl ConfigIndex {
    /// The index of the hosts read from the files `source_files`, as a
    /// walk over a config and its includes gives them.
    pub fn from_parsed(hosts: Vec<SSHHost>, source_files: Vec<String>) -> (r: Result<ConfigIndex, SshxError>)
        ensures
            match index_fault(hosts_view(hosts@)) {
                Some(e) => r matches Err(x) && x@ == e,
                None => r matches Ok(ix) && index_sound(ix, hosts_view(hosts@))
                    && strings_view(ix.source_files@) == strings_view(source_files@),
            },
    {
        let mut index = ConfigIndex::build(hosts)?;
        index.source_files = source_files;
        Ok(index)
    }
}

} // verus!
