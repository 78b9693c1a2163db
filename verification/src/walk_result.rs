//! What a finished walk over a config and its includes gives: the files
//! it read, each entered under a canonical path not met before, and the
//! hosts of all of them.

use vstd::prelude::*;

use crate::error::ErrorView;
use crate::includes::{
    advance, initial_walk, law_each_file_entered_once, new_frame, walk_step, walk_wf, EventModel,
    FrameModel, WalkModel, Waiting,
};
use crate::model::HostModel;
use crate::parser::parse_config;

verus! {

/// A file a walk read: the path asked for, the canonical path it was
/// entered under, and its text.
pub struct FileRead {
    pub path: Seq<char>,
    pub canonical: Seq<char>,
    pub content: Seq<char>,
}

/// The walk `w` after the outcomes `evs`, in turn.
pub open spec fn walk_run(w: WalkModel, evs: Seq<EventModel>) -> WalkModel
    decreases evs.len(),
{
    if evs.len() == 0 {
        w
    } else {
        walk_step(walk_run(w, evs.drop_last()), evs.last())
    }
}

/// The file that the outcome `ev` gives the walk `w`, if it is the text
/// of the file `w` waits for.
pub open spec fn read_by(w: WalkModel, ev: EventModel) -> Seq<FileRead> {
    match (w.waiting, ev) {
        (Waiting::Contents(p), EventModel::Contents(t)) => seq![
            FileRead { path: p, canonical: w.visited.last(), content: t },
        ],
        _ => Seq::empty(),
    }
}

/// The files read by the walk from `w` with the outcomes `evs`, in order.
pub open spec fn walk_reads(w: WalkModel, evs: Seq<EventModel>) -> Seq<FileRead>
    decreases evs.len(),
{
    if evs.len() == 0 {
        Seq::empty()
    } else {
        walk_reads(w, evs.drop_last()) + read_by(walk_run(w, evs.drop_last()), evs.last())
    }
}

/// The hosts of a file's text; none when it does not parse.
pub open spec fn hosts_of(content: Seq<char>, path: Seq<char>, home: Seq<char>) -> Seq<HostModel> {
    match parse_config(content, path, home) {
        Ok(hs) => hs,
        Err(_) => Seq::empty(),
    }
}

/// The hosts of the files being followed, outermost first.
pub open spec fn frames_hosts(fs: Seq<FrameModel>, home: Seq<char>) -> Seq<HostModel>
    decreases fs.len(),
{
    if fs.len() == 0 {
        Seq::empty()
    } else {
        frames_hosts(fs.drop_last(), home) + hosts_of(fs.last().content, fs.last().path, home)
    }
}

/// The hosts of the files read, in the order they were read.
pub open spec fn reads_hosts(rs: Seq<FileRead>, home: Seq<char>) -> Seq<HostModel>
    decreases rs.len(),
{
    if rs.len() == 0 {
        Seq::empty()
    } else {
        reads_hosts(rs.drop_last(), home) + hosts_of(rs.last().content, rs.last().path, home)
    }
}

/// The paths of the files read.
pub open spec fn read_paths(rs: Seq<FileRead>) -> Seq<Seq<char>> {
    rs.map_values(|r: FileRead| r.path)
}

/// The canonical paths of the files read.
pub open spec fn read_canonicals(rs: Seq<FileRead>) -> Seq<Seq<char>> {
    rs.map_values(|r: FileRead| r.canonical)
}

/// The hosts gathered and those of the files still being followed are,
/// together, those of the files read.
spec fn hosts_accounted(hosts: Seq<HostModel>, fs: Seq<FrameModel>, rs: Seq<FileRead>, home: Seq<char>) -> bool {
    (hosts + frames_hosts(fs, home)).to_multiset() == reads_hosts(rs, home).to_multiset()
}

/// Every file read whose text does not parse is still being followed.
spec fn errors_pending(fs: Seq<FrameModel>, rs: Seq<FileRead>, home: Seq<char>) -> bool {
    forall|k: int|
        0 <= k < rs.len() && (#[trigger] parse_config(rs[k].content, rs[k].path, home)) is Err ==> exists|f: int|
            0 <= f < fs.len() && fs[f].path == rs[k].path && fs[f].content == rs[k].content
}

/// What holds of a walk from the config file `root` that has read `rs`.
spec fn walk_tracks(root: Seq<char>, home: Seq<char>, w: WalkModel, rs: Seq<FileRead>) -> bool {
    &&& walk_wf(w)
    &&& w.home_env == home
    &&& w.failure is None ==> {
        &&& w.files == read_paths(rs)
        &&& if w.waiting is Contents {
            w.visited.len() > 0 && w.visited.drop_last() == read_canonicals(rs)
        } else {
            w.visited == read_canonicals(rs)
        }
        &&& hosts_accounted(w.hosts, w.frames, rs, home)
        &&& errors_pending(w.frames, rs, home)
        &&& w.waiting is Nothing ==> w.frames.len() == 0
        &&& rs.len() == 0 ==> w.frames.len() == 0 && (w.waiting == Waiting::Canonical(root)
            || w.waiting == Waiting::Contents(root))
        &&& rs.len() > 0 ==> rs[0].path == root
    }
}

proof fn lemma_frames_hosts_top(rest: Seq<FrameModel>, x: FrameModel, home: Seq<char>)
    ensures
        frames_hosts(rest.push(x), home) == frames_hosts(rest, home) + hosts_of(x.content, x.path, home),
{
    assert(rest.push(x).drop_last() =~= rest);
}

proof fn lemma_reads_hosts_push(rs: Seq<FileRead>, x: FileRead, home: Seq<char>)
    ensures
        reads_hosts(rs.push(x), home) == reads_hosts(rs, home) + hosts_of(x.content, x.path, home),
{
    assert(rs.push(x).drop_last() =~= rs);
}

proof fn lemma_frames_ok_with(fs: Seq<FrameModel>, n: int, x: FrameModel)
    requires
        crate::includes::frames_ok(fs),
        0 <= n <= fs.len(),
        crate::includes::frame_ok(x),
    ensures
        crate::includes::frames_ok(fs.subrange(0, n).push(x)),
{
    let a = fs.subrange(0, n).push(x);
    assert forall|i: int| 0 <= i < a.len() implies crate::includes::frame_ok(#[trigger] a[i]) by {
        if i < n {
            assert(a[i] == fs[i]);
        }
    }
}

/// Replacing the innermost frame by one of the same file keeps the
/// account of hosts and of pending errors.
proof fn lemma_replace_top(w: WalkModel, x: FrameModel, rs: Seq<FileRead>, home: Seq<char>)
    requires
        w.frames.len() > 0,
        x.path == w.frames.last().path,
        x.content == w.frames.last().content,
        hosts_accounted(w.hosts, w.frames, rs, home),
        errors_pending(w.frames, rs, home),
    ensures
        hosts_accounted(w.hosts, w.frames.drop_last().push(x), rs, home),
        errors_pending(w.frames.drop_last().push(x), rs, home),
{
    let rest = w.frames.drop_last();
    let fs2 = rest.push(x);
    lemma_frames_hosts_top(rest, x, home);
    lemma_frames_hosts_top(rest, w.frames.last(), home);
    assert(rest.push(w.frames.last()) =~= w.frames);
    assert forall|k: int|
        0 <= k < rs.len() && (#[trigger] parse_config(rs[k].content, rs[k].path, home)) is Err implies exists|f: int|
            0 <= f < fs2.len() && fs2[f].path == rs[k].path && fs2[f].content == rs[k].content by {
        let f = choose|f: int|
            0 <= f < w.frames.len() && w.frames[f].path == rs[k].path && w.frames[f].content == rs[k].content;
        if f < rest.len() {
            assert(fs2[f] == w.frames[f]);
        } else {
            assert(fs2[f] == x);
        }
    }
}

/// Advancing a walk keeps the account of hosts and of pending errors,
/// its files and entered paths; it ends waiting for nothing only when no
/// file is left to follow, and never waits for a file's text.
proof fn lemma_advance_tracks(w: WalkModel, rs: Seq<FileRead>)
    requires
        walk_wf(WalkModel { waiting: Waiting::Nothing, ..w }),
        w.failure is None,
        hosts_accounted(w.hosts, w.frames, rs, w.home_env),
        errors_pending(w.frames, rs, w.home_env),
    ensures
        ({
            let a = advance(w);
            &&& a.files == w.files
            &&& a.visited == w.visited
            &&& a.home_env == w.home_env
            &&& a.failure is Some ==> a.waiting is Nothing
            &&& a.failure is None ==> {
                &&& hosts_accounted(a.hosts, a.frames, rs, w.home_env)
                &&& errors_pending(a.frames, rs, w.home_env)
                &&& !(a.waiting is Contents)
                &&& a.waiting is Nothing ==> a.frames.len() == 0
            }
        }),
    decreases w.frames.len(),
{
    broadcast use vstd::seq_lib::lemma_multiset_commutative;
    broadcast use vstd::multiset::group_multiset_axioms;

    let home = w.home_env;
    if w.frames.len() > 0 {
        let top = w.frames.last();
        let rest = w.frames.drop_last();
        if top.next_entry < top.entries.len() {
            lemma_replace_top(w, FrameModel { next_entry: top.next_entry + 1, ..top }, rs, home);
        } else if top.next_pattern < top.patterns.len() {
            lemma_replace_top(w, FrameModel { next_pattern: top.next_pattern + 1, ..top }, rs, home);
        } else {
            match parse_config(top.content, top.path, home) {
                Err(e) => {},
                Ok(hs) => {
                    let w2 = WalkModel { frames: rest, hosts: w.hosts + hs, ..w };
                    lemma_frames_hosts_top(rest, top, home);
                    assert(rest.push(top) =~= w.frames);
                    let fr = frames_hosts(rest, home);
                    assert((w.hosts + hs + fr).to_multiset() =~= (w.hosts + (fr + hs)).to_multiset()) by {
                        assert((w.hosts + hs + fr).to_multiset() =~= w.hosts.to_multiset().add(
                            hs.to_multiset(),
                        ).add(fr.to_multiset()));
                        assert((w.hosts + (fr + hs)).to_multiset() =~= w.hosts.to_multiset().add(
                            fr.to_multiset().add(hs.to_multiset()),
                        ));
                    }
                    assert(hosts_accounted(w2.hosts, w2.frames, rs, home));
                    assert forall|k: int|
                        0 <= k < rs.len() && (#[trigger] parse_config(rs[k].content, rs[k].path, home)) is Err implies exists|f: int|
                            0 <= f < rest.len() && rest[f].path == rs[k].path && rest[f].content
                                == rs[k].content by {
                        let f = choose|f: int|
                            0 <= f < w.frames.len() && w.frames[f].path == rs[k].path && w.frames[f].content
                                == rs[k].content;
                        assert(f != w.frames.len() - 1);
                        assert(rest[f] == w.frames[f]);
                    }
                    assert(walk_wf(WalkModel { waiting: Waiting::Nothing, ..w2 })) by {
                        assert forall|i: int| 0 <= i < rest.len() implies crate::includes::frame_ok(#[trigger] rest[i]) by {
                            assert(rest[i] == w.frames[i]);
                        }
                    }
                    lemma_advance_tracks(w2, rs);
                },
            }
        }
    }
}

/// One outcome keeps what is known of a walk and of the files it read.
proof fn lemma_walk_tracks_step(root: Seq<char>, home: Seq<char>, w: WalkModel, rs: Seq<FileRead>, ev: EventModel)
    requires
        walk_tracks(root, home, w, rs),
    ensures
        walk_tracks(root, home, walk_step(w, ev), rs + read_by(w, ev)),
{
    broadcast use vstd::seq_lib::lemma_multiset_commutative;
    broadcast use vstd::multiset::group_multiset_axioms;

    law_each_file_entered_once(w, ev);
    let w2 = walk_step(w, ev);
    let rs2 = rs + read_by(w, ev);
    if w.failure is None {
        match w.waiting {
            Waiting::Canonical(p) => {
                assert(rs2 =~= rs);
                match ev {
                    EventModel::Canonical(c) => {
                        if w.visited.contains(c) {
                            let i = choose|i: int| 0 <= i < w.visited.len() && w.visited[i] == c;
                            assert(read_canonicals(rs).len() > 0);
                            lemma_advance_tracks(w, rs);
                        } else {
                            assert(w2.visited.drop_last() =~= w.visited);
                        }
                    },
                    _ => {},
                }
            },
            Waiting::Contents(p) => {
                match ev {
                    EventModel::Contents(t) => {
                        let x = FileRead { path: p, canonical: w.visited.last(), content: t };
                        assert(rs2 == rs.push(x));
                        let f = new_frame(p, t, w.home_dir);
                        let w1 = WalkModel { files: w.files.push(p), frames: w.frames.push(f), ..w };
                        assert(w1.files =~= read_paths(rs2));
                        assert(w.visited =~= read_canonicals(rs2)) by {
                            assert(w.visited =~= w.visited.drop_last().push(w.visited.last()));
                        }
                        lemma_frames_hosts_top(w.frames, f, home);
                        lemma_reads_hosts_push(rs, x, home);
                        let fh = frames_hosts(w.frames, home);
                        let hx = hosts_of(t, p, home);
                        assert((w.hosts + (fh + hx)).to_multiset() =~= (w.hosts + fh).to_multiset().add(
                            hx.to_multiset(),
                        ));
                        assert(hosts_accounted(w1.hosts, w1.frames, rs2, home));
                        assert forall|k: int|
                            0 <= k < rs2.len() && (#[trigger] parse_config(rs2[k].content, rs2[k].path, home)) is Err implies exists|g: int|
                                0 <= g < w1.frames.len() && w1.frames[g].path == rs2[k].path
                                    && w1.frames[g].content == rs2[k].content by {
                            if k < rs.len() {
                                assert(rs2[k] == rs[k]);
                                let g = choose|g: int|
                                    0 <= g < w.frames.len() && w.frames[g].path == rs[k].path
                                        && w.frames[g].content == rs[k].content;
                                assert(w1.frames[g] == w.frames[g]);
                            } else {
                                assert(w1.frames[w.frames.len() as int] == f);
                            }
                        }
                        lemma_frames_ok_with(w.frames, w.frames.len() as int, f);
                        assert(w.frames.subrange(0, w.frames.len() as int) =~= w.frames);
                        lemma_advance_tracks(w1, rs2);
                        if rs.len() == 0 {
                            assert(rs2[0] == x);
                        } else {
                            assert(rs2[0] == rs[0]);
                        }
                    },
                    EventModel::Missing => { assert(rs2 =~= rs); },
                    EventModel::Unreadable(_) => { assert(rs2 =~= rs); },
                    _ => { assert(rs2 =~= rs); },
                }
            },
            Waiting::Matches => {
                assert(rs2 =~= rs);
                match ev {
                    EventModel::Matches(fs) => {
                        let top = w.frames.last();
                        let x = FrameModel { entries: fs, next_entry: 0, ..top };
                        lemma_replace_top(w, x, rs, home);
                        let w1 = WalkModel { frames: w.frames.drop_last().push(x), ..w };
                        lemma_frames_ok_with(w.frames, w.frames.len() - 1, x);
                        assert(w.frames.subrange(0, w.frames.len() - 1) =~= w.frames.drop_last());
                        lemma_advance_tracks(w1, rs);
                    },
                    _ => {},
                }
            },
            Waiting::Nothing => {
                assert(rs2 =~= rs);
            },
        }
    } else {
        assert(w2 == w);
    }
}

proof fn lemma_walk_run_tracks(root: Seq<char>, home_env: Seq<char>, home_dir: Option<Seq<char>>, evs: Seq<EventModel>)
    ensures
        walk_tracks(
            root,
            home_env,
            walk_run(initial_walk(root, home_env, home_dir), evs),
            walk_reads(initial_walk(root, home_env, home_dir), evs),
        ),
    decreases evs.len(),
{
    let w0 = initial_walk(root, home_env, home_dir);
    if evs.len() == 0 {
        assert(read_paths(Seq::<FileRead>::empty()) =~= Seq::<Seq<char>>::empty());
        assert(read_canonicals(Seq::<FileRead>::empty()) =~= Seq::<Seq<char>>::empty());
        assert(w0.hosts + frames_hosts(w0.frames, home_env) =~= Seq::<HostModel>::empty());
    } else {
        lemma_walk_run_tracks(root, home_env, home_dir, evs.drop_last());
        lemma_walk_tracks_step(
            root,
            home_env,
            walk_run(w0, evs.drop_last()),
            walk_reads(w0, evs.drop_last()),
            evs.last(),
        );
    }
}

/// Law: a walk over the config file `root` that ends without an error,
/// whatever the outside answered, has read `root` first; its files are
/// the files it read, in order, each entered under a canonical path that
/// no other file read has; every file read parses; and its hosts are,
/// taken together, the hosts of all the files read.
pub proof fn law_walk_result(root: Seq<char>, home_env: Seq<char>, home_dir: Option<Seq<char>>, evs: Seq<EventModel>)
    ensures
        ({
            let w = walk_run(initial_walk(root, home_env, home_dir), evs);
            let rs = walk_reads(initial_walk(root, home_env, home_dir), evs);
            w.waiting is Nothing && w.failure is None ==> {
                &&& rs.len() > 0
                &&& rs[0].path == root
                &&& w.files == read_paths(rs)
                &&& read_canonicals(rs).no_duplicates()
                &&& forall|k: int| 0 <= k < rs.len() ==> (#[trigger] parse_config(rs[k].content, rs[k].path, home_env)) is Ok
                &&& w.hosts.to_multiset() == reads_hosts(rs, home_env).to_multiset()
            }
        }),
{
    lemma_walk_run_tracks(root, home_env, home_dir, evs);
    let w = walk_run(initial_walk(root, home_env, home_dir), evs);
    let rs = walk_reads(initial_walk(root, home_env, home_dir), evs);
    if w.waiting is Nothing && w.failure is None {
        assert(frames_hosts(w.frames, home_env) =~= Seq::<HostModel>::empty());
        assert(w.hosts + frames_hosts(w.frames, home_env) =~= w.hosts);
    }
}

/// Law: a config file that does not exist ends the walk at once with the
/// error that names it.
pub proof fn law_missing_root_is_reported(root: Seq<char>, home_env: Seq<char>, home_dir: Option<Seq<char>>, c: Seq<char>)
    ensures
        ({
            let w = walk_run(
                initial_walk(root, home_env, home_dir),
                seq![EventModel::Canonical(c), EventModel::Missing],
            );
            &&& w.waiting is Nothing
            &&& w.failure == Some(ErrorView::ConfigFileNotFound { path: root })
        }),
{
    let w0 = initial_walk(root, home_env, home_dir);
    let evs = seq![EventModel::Canonical(c), EventModel::Missing];
    assert(evs.drop_last() =~= seq![EventModel::Canonical(c)]);
    assert(seq![EventModel::Canonical(c)].drop_last() =~= Seq::<EventModel>::empty());
    assert(!w0.visited.contains(c));
    let e1 = seq![EventModel::Canonical(c)];
    assert(walk_run(w0, e1.drop_last()) == w0);
    let w1 = walk_run(w0, e1);
    assert(w1 == walk_step(w0, EventModel::Canonical(c)));
    assert(w1.waiting == Waiting::Contents(root));
    assert(evs.last() == EventModel::Missing);
    assert(walk_run(w0, evs) == walk_step(w1, EventModel::Missing));
}

} // verus!
