//! Following `Include` directives across files.
//!
//! Reading files, canonicalizing paths and expanding glob patterns is the
//! caller's work; the decisions are made here. A walk starts at a config
//! file, asks for one piece of outside work at a time (`next_action`), and
//! takes the answer back (`step`) until it is done.

use vstd::prelude::*;

use crate::error::{ErrorView, SshxError};
use crate::model::{hosts_view, HostModel, SSHHost};
use crate::parser::{hosts_result_view, parse_config, parse_content};
use crate::text::{
    chars_of, lines, lines_vec, seqs_view, starts_with, starts_with_str, sub_vec, trim, trim_vec,
    words, words_vec,
};

verus! {

// ---------------------------------------------------------------------------
// Paths (std::path)
// ---------------------------------------------------------------------------

/// What `Path::new(base).join(p)` gives, as text (Unix): an absolute `p`
/// replaces `base`; else `p` follows `base`, with a `/` between them
/// unless `base` is empty or already ends in `/`.
pub open spec fn path_joined(base: Seq<char>, p: Seq<char>) -> Seq<char> {
    if is_absolute_path(p) {
        p
    } else if base.len() == 0 || base.last() == '/' {
        base + p
    } else {
        base + "/"@ + p
    }
}

/// What `Path::new(p).parent()` gives, as text.
pub uninterp spec fn path_parent(p: Seq<char>) -> Option<Seq<char>>;

/// A path that starts at the root (`Path::is_absolute` on Unix).
pub open spec fn is_absolute_path(p: Seq<char>) -> bool {
    p.len() > 0 && p[0] == '/'
}

/// `Path::join`: `p` appended to `base` with one separator; an absolute
/// `p` replaces `base`.
#[verifier::external_body]
pub(crate) fn join_path(base: &str, p: &str) -> (r: String)
    ensures
        r@ == path_joined(base@, p@),
{
    std::path::Path::new(base).join(p).to_string_lossy().into_owned()
}

/// `Path::parent`: the path without its last component, if it has one.
#[verifier::external_body]
fn parent_path(p: &str) -> (r: Option<String>)
    ensures
        r.deep_view() == path_parent(p@),
{
    std::path::Path::new(p).parent().map(|x| x.to_string_lossy().into_owned())
}

/// `Path::is_absolute`: on Unix, whether the path starts with `/`.
#[verifier::external_body]
fn path_is_absolute(p: &str) -> (r: bool)
    ensures
        r == is_absolute_path(p@),
{
    std::path::Path::new(p).is_absolute()
}

/// Where an `Include` pattern points: `~` and `~/...` are taken from the
/// home directory (and kept as written when there is none), absolute
/// patterns stay, others are relative to the directory of the file.
pub open spec fn resolved_pattern(pattern: Seq<char>, ssh_dir: Seq<char>, home: Option<Seq<char>>) -> Seq<char> {
    if pattern == "~"@ {
        match home {
            Some(h) => h,
            None => pattern,
        }
    } else if starts_with(pattern, "~/"@) {
        match home {
            Some(h) => path_joined(h, pattern.subrange(2, pattern.len() as int)),
            None => pattern,
        }
    } else if is_absolute_path(pattern) {
        pattern
    } else {
        path_joined(ssh_dir, pattern)
    }
}

/// Resolves an `Include` pattern against the directory of the file and
/// the home directory.
pub fn resolve_include_pattern(pattern: &str, ssh_dir: &str, home_dir: Option<&str>) -> (r: String)
    ensures
        r@ == resolved_pattern(pattern@, ssh_dir@, match home_dir {
            Some(h) => Some(h@),
            None => None,
        }),
{
    let pv = chars_of(pattern);
    if crate::text::eq_str(&pv, "~") {
        return match home_dir {
            Some(h) => h.to_owned(),
            None => pattern.to_owned(),
        };
    }
    if starts_with_str(&pv, "~/") {
        proof {
            reveal_strlit("~/");
        }
        return match home_dir {
            Some(h) => {
                let rest = sub_vec(&pv, 2, pv.len());
                let rest_s = crate::text::string_of(&rest);
                join_path(h, rest_s.as_str())
            },
            None => pattern.to_owned(),
        };
    }
    if path_is_absolute(pattern) {
        return pattern.to_owned();
    }
    join_path(ssh_dir, pattern)
}

/// The directory of a config file: its parent, or `.`.
pub open spec fn dir_of(path: Seq<char>) -> Seq<char> {
    match path_parent(path) {
        Some(d) => d,
        None => "."@,
    }
}

/// The patterns of the `Include` lines among `ls[..k]`, resolved, in order.
pub open spec fn include_patterns_of(
    ls: Seq<Seq<char>>,
    k: int,
    ssh_dir: Seq<char>,
    home: Option<Seq<char>>,
) -> Seq<Seq<char>>
    decreases k,
{
    if k <= 0 {
        Seq::empty()
    } else {
        let t = trim(ls[k - 1]);
        include_patterns_of(ls, k - 1, ssh_dir, home) + if starts_with(t, "Include "@) {
            words(t.subrange(8, t.len() as int)).map_values(
                |w: Seq<char>| resolved_pattern(w, ssh_dir, home),
            )
        } else {
            Seq::empty()
        }
    }
}

/// The resolved patterns of all `Include` lines of a config text.
pub open spec fn include_patterns(content: Seq<char>, ssh_dir: Seq<char>, home: Option<Seq<char>>) -> Seq<Seq<char>> {
    include_patterns_of(lines(content), lines(content).len() as int, ssh_dir, home)
}

/// The model of an optional text.
pub open spec fn opt_view(o: Option<String>) -> Option<Seq<char>> {
    o.deep_view()
}

/// The resolved patterns of all `Include` lines of `content`.
fn collect_include_patterns(content: &str, ssh_dir: &str, home_dir: &Option<String>) -> (r: Vec<String>)
    ensures
        r@.map_values(|s: String| s@) == include_patterns(content@, ssh_dir@, opt_view(*home_dir)),
{
    let chars = chars_of(content);
    let ls = lines_vec(&chars);
    let ghost lsv = seqs_view(ls@);
    let ghost home = opt_view(*home_dir);
    let mut r: Vec<String> = Vec::new();
    let mut k: usize = 0;
    assert(r@.map_values(|s: String| s@) =~= Seq::<Seq<char>>::empty());
    while k < ls.len()
        invariant
            lsv == seqs_view(ls@),
            lsv == lines(content@),
            home == opt_view(*home_dir),
            k <= ls@.len(),
            r@.map_values(|s: String| s@) == include_patterns_of(lsv, k as int, ssh_dir@, home),
        decreases ls@.len() - k,
    {
        assert(lsv[k as int] == ls@[k as int]@);
        let t = trim_vec(&ls[k]);
        let ghost before = r@.map_values(|s: String| s@);
        if starts_with_str(&t, "Include ") {
            proof {
                reveal_strlit("Include ");
            }
            let rest = sub_vec(&t, 8, t.len());
            let ws = words_vec(&rest);
            let ghost wsv = seqs_view(ws@);
            let mut i: usize = 0;
            while i < ws.len()
                invariant
                    wsv == seqs_view(ws@),
                    home == opt_view(*home_dir),
                    i <= ws@.len(),
                    r@.map_values(|s: String| s@) == before + wsv.take(i as int).map_values(
                        |w: Seq<char>| resolved_pattern(w, ssh_dir@, home),
                    ),
                decreases ws@.len() - i,
            {
                let w = crate::text::string_of(&ws[i]);
                assert(wsv[i as int] == ws@[i as int]@);
                let h = match home_dir {
                    Some(h) => Some(h.as_str()),
                    None => None,
                };
                let p = resolve_include_pattern(w.as_str(), ssh_dir, h);
                let ghost r0 = r@.map_values(|s: String| s@);
                r.push(p);
                assert(r@.map_values(|s: String| s@) =~= r0.push(p@));
                assert(wsv.take(i + 1).map_values(|w: Seq<char>| resolved_pattern(w, ssh_dir@, home))
                    =~= wsv.take(i as int).map_values(
                    |w: Seq<char>| resolved_pattern(w, ssh_dir@, home),
                ).push(resolved_pattern(wsv[i as int], ssh_dir@, home)));
                i = i + 1;
            }
            assert(wsv.take(wsv.len() as int) =~= wsv);
        } else {
            assert(before + Seq::<Seq<char>>::empty() =~= before);
        }
        k = k + 1;
    }
    r
}

// ---------------------------------------------------------------------------
// The walk
// ---------------------------------------------------------------------------

/// The outside work a walk waits for.
pub enum IncludeAction {
    /// The canonical form of `path` is wanted (the path itself when it has
    /// none).
    Canonicalize { path: String },
    /// The file `path` is to be read.
    Read { path: String },
    /// The files matching the glob `pattern` are wanted, in glob order.
    Glob { pattern: String },
    /// The walk is over; `finish` gives its result.
    Done,
}

/// The outcome of a piece of outside work.
pub enum IncludeEvent {
    /// The canonical form of the path asked for.
    Canonical { path: String },
    /// The file asked for does not exist.
    Missing,
    /// The file asked for exists but could not be read.
    Unreadable { reason: String },
    /// The text of the file asked for.
    Contents { text: String },
    /// The files that match the pattern asked for.
    Matches { files: Vec<String> },
}

/// One file whose includes are being followed.
struct Frame {
    path: String,
    content: String,
    patterns: Vec<String>,
    next_pattern: usize,
    entries: Vec<String>,
    next_entry: usize,
}

/// Model of a frame.
pub struct FrameModel {
    pub path: Seq<char>,
    pub content: Seq<char>,
    pub patterns: Seq<Seq<char>>,
    pub next_pattern: int,
    pub entries: Seq<Seq<char>>,
    pub next_entry: int,
}

/// What a walk waits for.
pub enum Waiting {
    /// The canonical form of this path.
    Canonical(Seq<char>),
    /// The contents of this path.
    Contents(Seq<char>),
    /// The matches of the current pattern of the innermost file.
    Matches,
    /// Nothing: the walk is over.
    Nothing,
}

/// What a walk waits for (executable form).
enum Wait {
    Canonical(String),
    Contents(String),
    Matches,
    Nothing,
}

impl View for Wait {
    type V = Waiting;

    closed spec fn view(&self) -> Waiting {
        match self {
            Wait::Canonical(p) => Waiting::Canonical(p@),
            Wait::Contents(p) => Waiting::Contents(p@),
            Wait::Matches => Waiting::Matches,
            Wait::Nothing => Waiting::Nothing,
        }
    }
}

/// Model of an event.
pub enum EventModel {
    Canonical(Seq<char>),
    Missing,
    Unreadable(Seq<char>),
    Contents(Seq<char>),
    Matches(Seq<Seq<char>>),
}

impl View for IncludeEvent {
    type V = EventModel;

    open spec fn view(&self) -> EventModel {
        match self {
            IncludeEvent::Canonical { path } => EventModel::Canonical(path@),
            IncludeEvent::Missing => EventModel::Missing,
            IncludeEvent::Unreadable { reason } => EventModel::Unreadable(reason@),
            IncludeEvent::Contents { text } => EventModel::Contents(text@),
            IncludeEvent::Matches { files } => EventModel::Matches(files@.map_values(|s: String| s@)),
        }
    }
}

/// Model of a walk.
pub struct WalkModel {
    pub frames: Seq<FrameModel>,
    pub waiting: Waiting,
    pub visited: Seq<Seq<char>>,
    pub hosts: Seq<HostModel>,
    pub files: Seq<Seq<char>>,
    pub home_env: Seq<char>,
    pub home_dir: Option<Seq<char>>,
    pub failure: Option<ErrorView>,
}

/// A walk over a config file and the files it includes.
pub struct IncludeWalk {
    frames: Vec<Frame>,
    waiting: Wait,
    visited: Vec<String>,
    hosts: Vec<SSHHost>,
    files: Vec<String>,
    home_env: String,
    home_dir: Option<String>,
    failure: Option<SshxError>,
}

impl View for Frame {
    type V = FrameModel;

    closed spec fn view(&self) -> FrameModel {
        FrameModel {
            path: self.path@,
            content: self.content@,
            patterns: self.patterns@.map_values(|s: String| s@),
            next_pattern: self.next_pattern as int,
            entries: self.entries@.map_values(|s: String| s@),
            next_entry: self.next_entry as int,
        }
    }
}

/// The models of a list of frames.
pub open spec fn frames_view(v: Seq<Frame>) -> Seq<FrameModel> {
    v.map_values(|f: Frame| f@)
}

impl View for IncludeWalk {
    type V = WalkModel;

    closed spec fn view(&self) -> WalkModel {
        WalkModel {
            frames: frames_view(self.frames@),
            waiting: self.waiting@,
            visited: self.visited@.map_values(|s: String| s@),
            hosts: hosts_view(self.hosts@),
            files: self.files@.map_values(|s: String| s@),
            home_env: self.home_env@,
            home_dir: self.home_dir.deep_view(),
            failure: match self.failure {
                Some(e) => Some(e@),
                None => None,
            },
        }
    }
}

/// A frame's places in its patterns and matches are in range.
pub open spec fn frame_ok(f: FrameModel) -> bool {
    &&& 0 <= f.next_pattern <= f.patterns.len()
    &&& 0 <= f.next_entry <= f.entries.len()
}

/// Every frame is in range.
pub open spec fn frames_ok(fs: Seq<FrameModel>) -> bool {
    forall|i: int| 0 <= i < fs.len() ==> frame_ok(#[trigger] fs[i])
}

proof fn lemma_frames_ok_pop_push(fs: Seq<FrameModel>, x: FrameModel)
    requires
        frames_ok(fs),
        fs.len() > 0,
    ensures
        frames_ok(fs.drop_last()),
        frame_ok(fs.last()),
        frame_ok(x) ==> frames_ok(fs.drop_last().push(x)),
        frame_ok(x) ==> frames_ok(fs.push(x)),
{
    assert(fs[fs.len() - 1] == fs.last());
    assert forall|i: int| 0 <= i < fs.drop_last().len() implies frame_ok(#[trigger] fs.drop_last()[i]) by {
        assert(fs.drop_last()[i] == fs[i]);
    }
    if frame_ok(x) {
        let a = fs.drop_last().push(x);
        assert forall|i: int| 0 <= i < a.len() implies frame_ok(#[trigger] a[i]) by {
            if i < fs.len() - 1 {
                assert(a[i] == fs[i]);
            }
        }
        let b = fs.push(x);
        assert forall|i: int| 0 <= i < b.len() implies frame_ok(#[trigger] b[i]) by {
            if i < fs.len() {
                assert(b[i] == fs[i]);
            }
        }
    }
}

/// A sound walk: every file's place in its patterns and matches is in
/// range, a walk waiting for matches has a pattern asked for, no canonical
/// path was entered twice, and a failed walk waits for nothing.
pub open spec fn walk_wf(w: WalkModel) -> bool {
    &&& frames_ok(w.frames)
    &&& w.waiting is Matches ==> w.frames.len() > 0 && w.frames.last().next_pattern >= 1
    &&& w.visited.no_duplicates()
    &&& w.failure is Some ==> w.waiting is Nothing
}

/// The innermost file after taking its next piece of work.
pub open spec fn advance(w: WalkModel) -> WalkModel
    decreases w.frames.len(),
{
    if w.frames.len() == 0 {
        WalkModel { waiting: Waiting::Nothing, ..w }
    } else {
        let top = w.frames.last();
        let rest = w.frames.drop_last();
        if top.next_entry < top.entries.len() {
            WalkModel {
                frames: rest.push(FrameModel { next_entry: top.next_entry + 1, ..top }),
                waiting: Waiting::Canonical(top.entries[top.next_entry]),
                ..w
            }
        } else if top.next_pattern < top.patterns.len() {
            WalkModel {
                frames: rest.push(FrameModel { next_pattern: top.next_pattern + 1, ..top }),
                waiting: Waiting::Matches,
                ..w
            }
        } else {
            match parse_config(top.content, top.path, w.home_env) {
                Err(e) => WalkModel {
                    frames: rest,
                    waiting: Waiting::Nothing,
                    failure: Some(e),
                    ..w
                },
                Ok(hs) => advance(WalkModel { frames: rest, hosts: w.hosts + hs, ..w }),
            }
        }
    }
}

/// The frame of a file just read.
pub open spec fn new_frame(path: Seq<char>, content: Seq<char>, home_dir: Option<Seq<char>>) -> FrameModel {
    FrameModel {
        path,
        content,
        patterns: include_patterns(content, dir_of(path), home_dir),
        next_pattern: 0,
        entries: Seq::empty(),
        next_entry: 0,
    }
}

/// The walk after the outcome `ev` of the work it waits for. A canonical
/// path met before is skipped; a new one is entered and its file asked
/// for. A missing or unreadable file ends the walk with an error. A file
/// read is recorded, and its `Include` patterns are followed, one after
/// another, each match in turn, before its own hosts are parsed and
/// appended. An outcome of other work than the one waited for changes
/// nothing.
pub open spec fn walk_step(w: WalkModel, ev: EventModel) -> WalkModel {
    match w.waiting {
        Waiting::Canonical(p) => match ev {
            EventModel::Canonical(c) => if w.visited.contains(c) {
                advance(w)
            } else {
                WalkModel { visited: w.visited.push(c), waiting: Waiting::Contents(p), ..w }
            },
            _ => w,
        },
        Waiting::Contents(p) => match ev {
            EventModel::Missing => WalkModel {
                waiting: Waiting::Nothing,
                failure: Some(ErrorView::ConfigFileNotFound { path: p }),
                ..w
            },
            EventModel::Unreadable(r) => WalkModel {
                waiting: Waiting::Nothing,
                failure: Some(ErrorView::ConfigFileUnreadable { path: p, reason: r }),
                ..w
            },
            EventModel::Contents(t) => advance(
                WalkModel {
                    files: w.files.push(p),
                    frames: w.frames.push(new_frame(p, t, w.home_dir)),
                    ..w
                },
            ),
            _ => w,
        },
        Waiting::Matches => match ev {
            EventModel::Matches(fs) => {
                let top = w.frames.last();
                advance(
                    WalkModel {
                        frames: w.frames.drop_last().push(
                            FrameModel { entries: fs, next_entry: 0, ..top },
                        ),
                        ..w
                    },
                )
            },
            _ => w,
        },
        Waiting::Nothing => w,
    }
}

} // verus!

verus! {

/// Whether `v` holds the text `s`.
fn contains_text(v: &Vec<String>, s: &String) -> (r: bool)
    ensures
        r == v@.map_values(|x: String| x@).contains(s@),
{
    let ghost vv = v@.map_values(|x: String| x@);
    let mut i: usize = 0;
    while i < v.len()
        invariant
            i <= v@.len(),
            vv == v@.map_values(|x: String| x@),
            forall|q: int| 0 <= q < i ==> vv[q] != s@,
        decreases v@.len() - i,
    {
        if crate::text::eq_string(&v[i], s) {
            assert(vv[i as int] == s@);
            return true;
        }
        i = i + 1;
    }
    false
}

/// The directory of a config file.
fn dir_of_path(path: &str) -> (r: String)
    ensures
        r@ == dir_of(path@),
{
    match parent_path(path) {
        Some(d) => d,
        None => ".".to_owned(),
    }
}

/// A walk that has not started: it waits for the canonical form of `path`.
pub open spec fn initial_walk(path: Seq<char>, home_env: Seq<char>, home_dir: Option<Seq<char>>) -> WalkModel {
    WalkModel {
        frames: Seq::empty(),
        waiting: Waiting::Canonical(path),
        visited: Seq::empty(),
        hosts: Seq::empty(),
        files: Seq::empty(),
        home_env,
        home_dir,
        failure: None,
    }
}

/// `dirs::home_dir`: the home directory of the user, if one is known. It
/// comes from the environment or the system's user database, so nothing is
/// stated of it.
#[verifier::external_body]
pub(crate) fn home_dir() -> (r: Option<String>) {
    dirs::home_dir().map(|h| h.to_string_lossy().into_owned())
}

/// Starts the walk over the config file `path`. `home_env` stands for `~`
/// in identity files and `home_dir` for `~` in `Include` patterns.
pub fn walk_from(path: &str, home_env: &str, home_dir: Option<String>) -> (w: IncludeWalk)
    ensures
        w.wf(),
        w@ == initial_walk(path@, home_env@, home_dir.deep_view()),
{
    let w = IncludeWalk {
        frames: Vec::new(),
        waiting: Wait::Canonical(path.to_owned()),
        visited: Vec::new(),
        hosts: Vec::new(),
        files: Vec::new(),
        home_env: home_env.to_owned(),
        home_dir,
        failure: None,
    };
    assert(w@.frames =~= Seq::<FrameModel>::empty());
    assert(w@.visited =~= Seq::<Seq<char>>::empty());
    assert(w@.hosts =~= Seq::<HostModel>::empty());
    assert(w@.files =~= Seq::<Seq<char>>::empty());
    w
}

/// Starts the walk over the config file `path`, with the user's home
/// directory for `~` in `Include` patterns and `home_env` for `~` in
/// identity files.
pub fn parse_with_includes(path: &str, home_env: &str) -> (w: IncludeWalk)
    ensures
        w.wf(),
        exists|home_dir: Option<Seq<char>>| w@ == initial_walk(path@, home_env@, home_dir),
{
    walk_from(path, home_env, home_dir())
}

impl IncludeWalk {
    /// The walk is sound.
    pub closed spec fn wf(&self) -> bool {
        walk_wf(self@)
    }

    /// The outside work the walk waits for.
    pub fn next_action(&self) -> (r: IncludeAction)
        requires
            self.wf(),
        ensures
            match self@.waiting {
                Waiting::Canonical(p) => r matches IncludeAction::Canonicalize { path } && path@ == p,
                Waiting::Contents(p) => r matches IncludeAction::Read { path } && path@ == p,
                Waiting::Matches => r matches IncludeAction::Glob { pattern } && pattern@
                    == self@.frames.last().patterns[self@.frames.last().next_pattern - 1],
                Waiting::Nothing => r is Done,
            },
    {
        match &self.waiting {
            Wait::Canonical(p) => IncludeAction::Canonicalize { path: p.clone() },
            Wait::Contents(p) => IncludeAction::Read { path: p.clone() },
            Wait::Matches => {
                let top = &self.frames[self.frames.len() - 1];
                assert(frames_view(self.frames@).last() == top@);
                assert(top@.patterns[top.next_pattern - 1] == top.patterns@[top.next_pattern - 1]@);
                IncludeAction::Glob { pattern: top.patterns[top.next_pattern - 1].clone() }
            },
            Wait::Nothing => IncludeAction::Done,
        }
    }

    /// The hosts of all files, in the order the walk completed them, and the
    /// files read, in the order they were entered; or the error that ended
    /// the walk.
    pub fn finish(self) -> (r: Result<(Vec<SSHHost>, Vec<String>), SshxError>)
        ensures
            match self@.failure {
                Some(e) => r matches Err(x) && x@ == e,
                None => r matches Ok(p) && hosts_view(p.0@) == self@.hosts && p.1@.map_values(
                    |s: String| s@,
                ) == self@.files,
            },
    {
        match self.failure {
            Some(e) => Err(e),
            None => Ok((self.hosts, self.files)),
        }
    }

    /// Takes the innermost file's next piece of work.
    fn advance(&mut self)
        requires
            walk_wf(WalkModel { waiting: Waiting::Nothing, ..old(self)@ }),
            old(self)@.failure is None,
        ensures
            final(self)@ == advance(old(self)@),
            walk_wf(final(self)@),
    {
        let ghost target = advance(self@);
        loop
            invariant_except_break
                advance(self@) == target,
                walk_wf(WalkModel { waiting: Waiting::Nothing, ..self@ }),
                self@.failure is None,
            ensures
                self@ == target,
                walk_wf(self@),
            decreases self.frames@.len(),
        {
            let ghost s = self@;
            let ghost fr = frames_view(self.frames@);
            let popped = self.frames.pop();
            let mut top = match popped {
                Some(t) => t,
                None => {
                    self.waiting = Wait::Nothing;
                    assert(self@.frames =~= s.frames);
                    assert(self@ == advance(s));
                    break;
                },
            };
            assert(frames_view(self.frames@) =~= fr.drop_last());
            assert(fr.last() == top@);
            if top.next_entry < top.entries.len() {
                let p = top.entries[top.next_entry].clone();
                assert(top@.entries[top.next_entry as int] == p@);
                top.next_entry = top.next_entry + 1;
                let ghost f0 = frames_view(self.frames@);
                self.frames.push(top);
                assert(frames_view(self.frames@) =~= f0.push(top@));
                self.waiting = Wait::Canonical(p);
                assert(self@ == advance(s));
                proof {
                    lemma_advance_keeps(s);
                }
                break;
            }
            if top.next_pattern < top.patterns.len() {
                top.next_pattern = top.next_pattern + 1;
                let ghost f0 = frames_view(self.frames@);
                self.frames.push(top);
                assert(frames_view(self.frames@) =~= f0.push(top@));
                self.waiting = Wait::Matches;
                assert(self@ == advance(s));
                proof {
                    lemma_advance_keeps(s);
                }
                break;
            }
            match parse_content(top.content.as_str(), top.path.as_str(), self.home_env.as_str()) {
                Err(e) => {
                    self.failure = Some(e);
                    self.waiting = Wait::Nothing;
                    break;
                },
                Ok(mut hs) => {
                    let ghost h0 = hosts_view(self.hosts@);
                    let ghost hsv = hosts_view(hs@);
                    self.hosts.append(&mut hs);
                    assert(hosts_view(self.hosts@) =~= h0 + hsv);
                },
            }
        }
    }

    /// Takes the outcome of the work the walk waited for.
    pub fn step(&mut self, ev: IncludeEvent)
        requires
            old(self).wf(),
        ensures
            final(self).wf(),
            final(self)@ == walk_step(old(self)@, ev@),
    {
        let ghost w0 = self@;
        match &self.waiting {
            Wait::Canonical(p) => {
                let p = p.clone();
                match ev {
                    IncludeEvent::Canonical { path: c } => {
                        if contains_text(&self.visited, &c) {
                            self.advance();
                        } else {
                            let ghost v0 = self@.visited;
                            self.visited.push(c);
                            assert(self@.visited =~= v0.push(c@));
                            self.waiting = Wait::Contents(p);
                        }
                    },
                    _ => {},
                }
            },
            Wait::Contents(p) => {
                let p = p.clone();
                match ev {
                    IncludeEvent::Missing => {
                        self.failure = Some(SshxError::ConfigFileNotFound { path: p });
                        self.waiting = Wait::Nothing;
                    },
                    IncludeEvent::Unreadable { reason } => {
                        self.failure = Some(SshxError::ConfigFileUnreadable { path: p, reason });
                        self.waiting = Wait::Nothing;
                    },
                    IncludeEvent::Contents { text } => {
                        let dir = dir_of_path(p.as_str());
                        let patterns = collect_include_patterns(text.as_str(), dir.as_str(), &self.home_dir);
                        let ghost fl0 = self@.files;
                        self.files.push(p.clone());
                        assert(self@.files =~= fl0.push(p@));
                        let frame = Frame {
                            path: p,
                            content: text,
                            patterns,
                            next_pattern: 0,
                            entries: Vec::new(),
                            next_entry: 0,
                        };
                        assert(frame@.entries =~= Seq::<Seq<char>>::empty());
                        let ghost f0 = frames_view(self.frames@);
                        self.frames.push(frame);
                        assert(frames_view(self.frames@) =~= f0.push(frame@));
                        self.advance();
                    },
                    _ => {},
                }
            },
            Wait::Matches => {
                match ev {
                    IncludeEvent::Matches { files } => {
                        let ghost fr = frames_view(self.frames@);
                        let mut top = self.frames.pop().unwrap();
                        assert(frames_view(self.frames@) =~= fr.drop_last());
                        assert(fr.last() == top@);
                        top.entries = files;
                        top.next_entry = 0;
                        let ghost f0 = frames_view(self.frames@);
                        self.frames.push(top);
                        assert(frames_view(self.frames@) =~= f0.push(top@));
                        self.advance();
                    },
                    _ => {},
                }
            },
            Wait::Nothing => {},
        }
    }
}

/// Law: a walk stays sound whatever comes back from the outside, and it
/// asks to read a file only right after entering a canonical path it had
/// not met before; so no file is read twice and circular includes end.
pub proof fn law_each_file_entered_once(w: WalkModel, ev: EventModel)
    requires
        walk_wf(w),
    ensures
        walk_wf(walk_step(w, ev)),
        walk_step(w, ev).waiting is Contents && !(w.waiting is Contents) ==> {
            &&& walk_step(w, ev).visited.len() == w.visited.len() + 1
            &&& !w.visited.contains(walk_step(w, ev).visited.last())
        },
{
    lemma_advance_keeps(w);
    match w.waiting {
        Waiting::Canonical(p) => {
            match ev {
                EventModel::Canonical(c) => {
                    if !w.visited.contains(c) {
                        let w2 = walk_step(w, ev);
                        assert(w2.visited == w.visited.push(c));
                        assert(w2.visited.last() == c);
                    }
                },
                _ => {},
            }
        },
        Waiting::Contents(p) => {
            match ev {
                EventModel::Contents(t) => {
                    let w1 = WalkModel {
                        files: w.files.push(p),
                        frames: w.frames.push(new_frame(p, t, w.home_dir)),
                        ..w
                    };
                    lemma_advance_keeps(w1);
                },
                _ => {},
            }
        },
        Waiting::Matches => {
            match ev {
                EventModel::Matches(fs) => {
                    let top = w.frames.last();
                    let w1 = WalkModel {
                        frames: w.frames.drop_last().push(
                            FrameModel { entries: fs, next_entry: 0, ..top },
                        ),
                        ..w
                    };
                    lemma_advance_keeps(w1);
                },
                _ => {},
            }
        },
        Waiting::Nothing => {},
    }
}

/// Advancing a sound walk gives a sound walk with the same entered paths,
/// waiting for a canonical form, matches or nothing.
proof fn lemma_advance_keeps(w: WalkModel)
    ensures
        walk_wf(WalkModel { waiting: Waiting::Nothing, ..w }) && w.failure is None ==> {
            &&& walk_wf(advance(w))
            &&& advance(w).visited == w.visited
            &&& !(advance(w).waiting is Contents)
        },
    decreases w.frames.len(),
{
    if w.frames.len() > 0 && walk_wf(WalkModel { waiting: Waiting::Nothing, ..w }) && w.failure is None {
        let top = w.frames.last();
        let rest = w.frames.drop_last();
        let x1 = FrameModel { next_entry: top.next_entry + 1, ..top };
        let x2 = FrameModel { next_pattern: top.next_pattern + 1, ..top };
        lemma_frames_ok_pop_push(w.frames, x1);
        lemma_frames_ok_pop_push(w.frames, x2);
        if top.next_entry >= top.entries.len() && top.next_pattern >= top.patterns.len() {
            match parse_config(top.content, top.path, w.home_env) {
                Ok(hs) => {
                    lemma_advance_keeps(WalkModel { frames: rest, hosts: w.hosts + hs, ..w });
                },
                Err(e) => {},
            }
        }
    }
}

/// Law: a walk over a config file with no `Include` line reads that file
/// alone and gives its own hosts, or the error in it.
pub proof fn law_file_without_includes_reads_alone(
    path: Seq<char>,
    home_env: Seq<char>,
    home_dir: Option<Seq<char>>,
    canonical: Seq<char>,
    text: Seq<char>,
)
    requires
        include_patterns(text, dir_of(path), home_dir).len() == 0,
    ensures
        ({
            let w = walk_step(
                walk_step(initial_walk(path, home_env, home_dir), EventModel::Canonical(canonical)),
                EventModel::Contents(text),
            );
            &&& w.waiting is Nothing
            &&& w.files == seq![path]
            &&& match parse_config(text, path, home_env) {
                Ok(hs) => w.failure is None && w.hosts == hs,
                Err(e) => w.failure == Some(e),
            }
        }),
{
    let w0 = initial_walk(path, home_env, home_dir);
    assert(!w0.visited.contains(canonical));
    let w1 = walk_step(w0, EventModel::Canonical(canonical));
    assert(w1.waiting == Waiting::Contents(path));
    let f = new_frame(path, text, home_dir);
    let w2 = WalkModel { files: w1.files.push(path), frames: w1.frames.push(f), ..w1 };
    assert(w2.frames.last() == f);
    assert(w2.frames.drop_last() =~= Seq::<FrameModel>::empty());
    assert(w1.files.push(path) =~= seq![path]);
    match parse_config(text, path, home_env) {
        Ok(hs) => {
            let w3 = WalkModel { frames: Seq::empty(), hosts: w2.hosts + hs, ..w2 };
            assert(w2.hosts + hs =~= hs);
            assert(advance(w3) == WalkModel { waiting: Waiting::Nothing, ..w3 });
        },
        Err(e) => {},
    }
}

/// Law: when a config file includes, through its one `Include` pattern,
/// one other file that includes nothing, the walk reads the config file,
/// then the included file, and gives the included file's hosts before the
/// config file's own.
pub proof fn law_included_hosts_come_first(
    root: Seq<char>,
    home_env: Seq<char>,
    home_dir: Option<Seq<char>>,
    c0: Seq<char>,
    t0: Seq<char>,
    pattern: Seq<char>,
    f: Seq<char>,
    c1: Seq<char>,
    t1: Seq<char>,
)
    requires
        include_patterns(t0, dir_of(root), home_dir) == seq![pattern],
        include_patterns(t1, dir_of(f), home_dir).len() == 0,
        c1 != c0,
        parse_config(t0, root, home_env) is Ok,
        parse_config(t1, f, home_env) is Ok,
    ensures
        ({
            let w1 = walk_step(initial_walk(root, home_env, home_dir), EventModel::Canonical(c0));
            let w2 = walk_step(w1, EventModel::Contents(t0));
            let w3 = walk_step(w2, EventModel::Matches(seq![f]));
            let w4 = walk_step(w3, EventModel::Canonical(c1));
            let w5 = walk_step(w4, EventModel::Contents(t1));
            &&& w2.waiting is Matches
            &&& w3.waiting == Waiting::Canonical(f)
            &&& w4.waiting == Waiting::Contents(f)
            &&& w5.waiting is Nothing
            &&& w5.failure is None
            &&& w5.hosts == parse_config(t1, f, home_env)->Ok_0 + parse_config(t0, root, home_env)->Ok_0
            &&& w5.files == seq![root, f]
        }),
{
    let h0 = parse_config(t0, root, home_env)->Ok_0;
    let h1 = parse_config(t1, f, home_env)->Ok_0;
    let w0 = initial_walk(root, home_env, home_dir);
    assert(!w0.visited.contains(c0));
    let w1 = walk_step(w0, EventModel::Canonical(c0));
    assert(w1.visited == seq![c0]);

    let f0 = new_frame(root, t0, home_dir);
    let v2 = WalkModel { files: w1.files.push(root), frames: w1.frames.push(f0), ..w1 };
    assert(v2.frames.last() == f0);
    assert(v2.frames.drop_last() =~= Seq::<FrameModel>::empty());
    let f0b = FrameModel { next_pattern: 1, ..f0 };
    let w2 = walk_step(w1, EventModel::Contents(t0));
    assert(w2 == WalkModel { frames: seq![f0b], waiting: Waiting::Matches, ..v2 }) by {
        assert(Seq::<FrameModel>::empty().push(f0b) =~= seq![f0b]);
    }
    assert(w2.frames.last().patterns[w2.frames.last().next_pattern - 1] == pattern);

    let f0c = FrameModel { entries: seq![f], next_entry: 0, ..f0b };
    let v3 = WalkModel { frames: w2.frames.drop_last().push(f0c), ..w2 };
    assert(w2.frames.drop_last() =~= Seq::<FrameModel>::empty());
    assert(v3.frames.last() == f0c);
    assert(v3.frames.drop_last() =~= Seq::<FrameModel>::empty());
    let f0d = FrameModel { next_entry: 1, ..f0c };
    let w3 = walk_step(w2, EventModel::Matches(seq![f]));
    assert(w3 == WalkModel { frames: seq![f0d], waiting: Waiting::Canonical(f), ..v3 }) by {
        assert(Seq::<FrameModel>::empty().push(f0d) =~= seq![f0d]);
    }

    assert(!w3.visited.contains(c1)) by {
        assert(w3.visited == seq![c0]);
        if w3.visited.contains(c1) {
            assert(w3.visited[0] == c1);
        }
    }
    let w4 = walk_step(w3, EventModel::Canonical(c1));
    assert(w4.waiting == Waiting::Contents(f));

    let f1 = new_frame(f, t1, home_dir);
    let v5 = WalkModel { files: w4.files.push(f), frames: w4.frames.push(f1), ..w4 };
    assert(v5.frames.last() == f1);
    assert(v5.frames.drop_last() =~= seq![f0d]);
    let v6 = WalkModel { frames: seq![f0d], hosts: v5.hosts + h1, ..v5 };
    assert(v6.frames.last() == f0d);
    assert(v6.frames.drop_last() =~= Seq::<FrameModel>::empty());
    let v7 = WalkModel { frames: Seq::empty(), hosts: v6.hosts + h0, ..v6 };
    assert(advance(v7) == WalkModel { waiting: Waiting::Nothing, ..v7 });
    assert(advance(v6) == advance(v7));
    assert(advance(v5) == advance(v6));
    let w5 = walk_step(w4, EventModel::Contents(t1));
    assert(w5 == advance(v5));
    assert(w1.hosts =~= Seq::<HostModel>::empty());
    assert(v7.hosts =~= h1 + h0);
    assert(v5.files =~= seq![root, f]);
}

} // verus!
