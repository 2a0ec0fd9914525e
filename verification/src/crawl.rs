use vstd::prelude::*;
use crate::crawler::File;
use crate::file_crawler::{Directory, DirectoryBuilder, TreeBuilderView, TreeNode};
use crate::paths::{entry_name, is_hidden, is_hidden_name, path_entry_name};

verus! {

/// What the file system says an entry of a directory is.
#[derive(Debug, Clone, Copy, PartialEq, Eq, Structural)]
pub enum EntryKind {
    File,
    Directory,
    Other,
}

/// What the file system answered to the last action of a crawl.
#[derive(Debug)]
pub enum CrawlEvent {
    /// Whether the path of a `Probe` exists, and whether it is a directory.
    Probed { exists: bool, is_dir: bool },
    /// The directory of an `Open` can be read.
    Opened,
    /// The next entry of the directory being read.
    Entry { path: String, kind: EntryKind },
    /// The directory being read has no more entries.
    EndOfDirectory,
    /// The size of the file of a `Measure`.
    Measured { size: u64 },
    /// The file system refused the action, with the kind of the refusal and its message.
    Failed { io_kind: IoKind, message: String },
}

/// The kind of a refusal by the file system.
#[derive(Debug, Clone, Copy, PartialEq, Eq, Structural)]
pub enum IoKind {
    NotFound,
    PermissionDenied,
    AlreadyExists,
    InvalidInput,
    InvalidData,
    TimedOut,
    Interrupted,
    UnexpectedEof,
    OutOfMemory,
    Unsupported,
    Other,
}

/// Why a crawl stopped without a result.
#[derive(Debug)]
pub enum CrawlError {
    /// The path to crawl does not exist.
    NotFound { path: String },
    /// The path to crawl is not a directory.
    NotADirectory { path: String },
    /// The file system refused an action.
    Io { io_kind: IoKind, message: String },
}

/// What a crawl asks of the file system next, or how it ended.
#[derive(Debug)]
pub enum CrawlAction {
    /// Find out whether `path` exists and whether it is a directory.
    Probe { path: String },
    /// Start reading the entries of the directory `path`.
    Open { path: String },
    /// Read the next entry of the directory opened last and not yet exhausted.
    ReadEntry,
    /// Find out the size of the file `path`.
    Measure { path: String },
    /// The crawl is complete.
    Finished { root: Directory },
    /// The crawl stopped.
    Stopped { error: CrawlError },
}

enum Phase {
    Probing { path: String },
    Opening,
    Reading,
    Measuring { path: String },
    Ended,
}

/// What a crawl is waiting for.
pub enum PhaseView {
    Probing(Seq<char>),
    Opening,
    Reading,
    Measuring(Seq<char>),
    Ended,
}

/// The state of a crawl: its settings, the directories that are open (the
/// root first, the one being read last), and what it waits for.
pub struct SessionView {
    pub max_depth: Option<usize>,
    pub include_hidden: bool,
    pub drop_at_limit: bool,
    pub frames: Seq<TreeBuilderView>,
    pub phase: PhaseView,
}

/// A crawl of a directory tree in progress. It decides; whoever drives it
/// performs each action on the file system and hands back the answer.
pub struct CrawlSession {
    max_depth: Option<usize>,
    include_hidden: bool,
    drop_at_limit: bool,
    frames: Vec<DirectoryBuilder>,
    phase: Phase,
}

impl View for CrawlSession {
    type V = SessionView;

    closed spec fn view(&self) -> SessionView {
        SessionView {
            max_depth: self.max_depth,
            include_hidden: self.include_hidden,
            drop_at_limit: self.drop_at_limit,
            frames: self.frames@.map_values(|b: DirectoryBuilder| b@),
            phase: match self.phase {
                Phase::Probing { path } => PhaseView::Probing(path@),
                Phase::Opening => PhaseView::Opening,
                Phase::Reading => PhaseView::Reading,
                Phase::Measuring { path } => PhaseView::Measuring(path@),
                Phase::Ended => PhaseView::Ended,
            },
        }
    }
}

/// A directory at `depth` (the root at 0) is not read when the depth limit is reached.
pub open spec fn depth_reached(max_depth: Option<usize>, depth: int) -> bool {
    match max_depth {
        Some(m) => depth >= m,
        None => false,
    }
}

/// A crawl takes the entry at `path` of `kind`, found at `depth`: it is kept
/// by its name, it is a file or a directory, and it is not a directory that a
/// crawl leaving out directories at the depth limit finds at that limit.
pub open spec fn takes(
    path: Seq<char>,
    kind: EntryKind,
    depth: int,
    max_depth: Option<usize>,
    include_hidden: bool,
    drop_at_limit: bool,
) -> bool {
    &&& keeps(include_hidden, entry_name(path))
    &&& !(kind is Other)
    &&& !(drop_at_limit && kind is Directory && depth_reached(max_depth, depth))
}

/// An entry named `name` is kept: hidden entries are kept only when asked for.
pub open spec fn keeps(include_hidden: bool, name: Seq<char>) -> bool {
    include_hidden || !is_hidden_name(name)
}

/// The empty directory that a crawl starts for `path`.
pub open spec fn fresh_dir(path: Seq<char>) -> TreeBuilderView {
    TreeBuilderView {
        path,
        name: entry_name(path),
        is_hidden: is_hidden_name(entry_name(path)),
        children: Seq::empty(),
    }
}

/// `d` is the directory that `b` holds.
pub open spec fn built(d: Directory, b: TreeBuilderView) -> bool {
    &&& d.path@ == b.path
    &&& d.name@ == b.name
    &&& d.is_hidden == b.is_hidden
    &&& d.children@ == b.children
}

/// `b` with `n` added after its entries.
pub open spec fn with_child(b: TreeBuilderView, n: TreeNode) -> TreeBuilderView {
    TreeBuilderView { children: b.children.push(n), ..b }
}

/// `new` is `old` with one entry added to the directory being read.
pub open spec fn top_gained(old: Seq<TreeBuilderView>, new: Seq<TreeBuilderView>) -> bool {
    &&& old.len() > 0
    &&& new.len() == old.len()
    &&& new.drop_last() == old.drop_last()
    &&& new.last() == with_child(old.last(), new.last().children.last())
}

/// The entry that was added last to the directory being read.
pub open spec fn added(frames: Seq<TreeBuilderView>) -> TreeNode {
    frames.last().children.last()
}

/// The events that a crawl waiting in `phase` takes.
pub open spec fn accepts(phase: PhaseView, e: CrawlEvent) -> bool {
    match phase {
        PhaseView::Probing(_) => e is Probed || e is Failed,
        PhaseView::Opening => e is Opened || e is Failed,
        PhaseView::Reading => e is Entry || e is EndOfDirectory || e is Failed,
        PhaseView::Measuring(_) => e is Measured || e is Failed,
        PhaseView::Ended => false,
    }
}

/// The directory `b` is complete: it becomes an entry of the directory that
/// is open around it, or, where there is none, the crawl's result.
pub open spec fn completes(
    frames: Seq<TreeBuilderView>,
    b: TreeBuilderView,
    t: SessionView,
    a: CrawlAction,
) -> bool {
    if frames.len() == 0 {
        &&& t.frames == frames
        &&& t.phase is Ended
        &&& a matches CrawlAction::Finished { root } && built(root, b)
    } else {
        &&& t.phase is Reading
        &&& a is ReadEntry
        &&& top_gained(frames, t.frames)
        &&& added(t.frames) matches TreeNode::Directory(d) && built(d, b)
    }
}

/// One step of a crawl: the state `s` takes the answer `e`, becomes `t` and asks `a`.
pub open spec fn step_spec(s: SessionView, e: CrawlEvent, t: SessionView, a: CrawlAction) -> bool {
    &&& t.max_depth == s.max_depth
    &&& t.include_hidden == s.include_hidden
    &&& t.drop_at_limit == s.drop_at_limit
    &&& match e {
        CrawlEvent::Failed { io_kind, message } => {
            &&& t.frames == s.frames
            &&& t.phase is Ended
            &&& a matches CrawlAction::Stopped { error: CrawlError::Io { io_kind: k, message: m } }
                && k == io_kind && m@ == message@
        },
        CrawlEvent::Probed { exists, is_dir } => match s.phase {
            PhaseView::Probing(p) => if !exists {
                &&& t.frames == s.frames
                &&& t.phase is Ended
                &&& a matches CrawlAction::Stopped { error: CrawlError::NotFound { path } } && path@
                    == p
            } else if !is_dir {
                &&& t.frames == s.frames
                &&& t.phase is Ended
                &&& a matches CrawlAction::Stopped { error: CrawlError::NotADirectory { path } }
                    && path@ == p
            } else if depth_reached(s.max_depth, s.frames.len() as int) {
                completes(s.frames, fresh_dir(p), t, a)
            } else {
                &&& t.frames == s.frames.push(fresh_dir(p))
                &&& t.phase is Opening
                &&& a matches CrawlAction::Open { path } && path@ == p
            },
            _ => false,
        },
        CrawlEvent::Opened => {
            &&& t.frames == s.frames
            &&& t.phase is Reading
            &&& a is ReadEntry
        },
        CrawlEvent::Entry { path, kind } => {
            &&& t.frames == s.frames
            &&& if !takes(
                path@,
                kind,
                s.frames.len() as int,
                s.max_depth,
                s.include_hidden,
                s.drop_at_limit,
            ) {
                &&& t.phase is Reading
                &&& a is ReadEntry
            } else if kind is File {
                &&& t.phase == PhaseView::Measuring(path@)
                &&& a matches CrawlAction::Measure { path: q } && q@ == path@
            } else {
                &&& t.phase == PhaseView::Probing(path@)
                &&& a matches CrawlAction::Probe { path: q } && q@ == path@
            }
        },
        CrawlEvent::EndOfDirectory => completes(s.frames.drop_last(), s.frames.last(), t, a),
        CrawlEvent::Measured { size } => match s.phase {
            PhaseView::Measuring(p) => {
                &&& t.phase is Reading
                &&& a is ReadEntry
                &&& top_gained(s.frames, t.frames)
                &&& added(t.frames) matches TreeNode::File(f) && f.path@ == p && f.size == size
                    && f.well_formed()
            },
            _ => false,
        },
    }
}

/// The entries of a directory at `depth` are sound: each is named by its
/// path, is kept by the crawl's settings, and, for a directory, holds nothing
/// where the depth limit is reached and sound entries below.
pub open spec fn node_sound(n: TreeNode, depth: nat, max_depth: Option<usize>, include_hidden: bool) -> bool
    decreases n, 1nat,
{
    match n {
        TreeNode::File(f) => f.well_formed() && keeps(include_hidden, f.name@),
        TreeNode::Directory(d) => keeps(include_hidden, d.name@) && dir_sound(
            d,
            depth,
            max_depth,
            include_hidden,
        ),
    }
}

/// Every entry of `ns`, found at `depth`, is sound.
pub open spec fn nodes_sound(
    ns: Seq<TreeNode>,
    depth: nat,
    max_depth: Option<usize>,
    include_hidden: bool,
) -> bool
    decreases ns, 0nat,
{
    if ns.len() == 0 {
        true
    } else {
        nodes_sound(ns.drop_last(), depth, max_depth, include_hidden) && node_sound(
            ns.last(),
            depth,
            max_depth,
            include_hidden,
        )
    }
}

/// A directory at `depth` is sound: it is named by its path, it holds nothing
/// where the depth limit is reached, and its entries are sound.
pub open spec fn dir_sound(d: Directory, depth: nat, max_depth: Option<usize>, include_hidden: bool) -> bool
    decreases d, 0nat,
{
    &&& d.name@ == entry_name(d.path@)
    &&& d.is_hidden == is_hidden_name(d.name@)
    &&& depth_reached(max_depth, depth as int) ==> d.children@.len() == 0
    &&& nodes_sound(d.children@, depth + 1, max_depth, include_hidden)
}

/// The open directory at index `i` (its depth) is sound.
pub open spec fn frame_sound(s: SessionView, i: int, b: TreeBuilderView) -> bool {
    &&& b.name == entry_name(b.path)
    &&& b.is_hidden == is_hidden_name(b.name)
    &&& !depth_reached(s.max_depth, i)
    &&& nodes_sound(b.children, (i + 1) as nat, s.max_depth, s.include_hidden)
    &&& i > 0 ==> keeps(s.include_hidden, b.name)
}

/// A crawl's state is sound: its open directories are, and it waits for
/// something that fits them.
pub open spec fn sound(s: SessionView) -> bool {
    &&& forall|i: int| 0 <= i < s.frames.len() ==> frame_sound(s, i, #[trigger] s.frames[i])
    &&& match s.phase {
        PhaseView::Probing(p) => s.frames.len() > 0 ==> keeps(s.include_hidden, entry_name(p)),
        PhaseView::Opening => s.frames.len() > 0,
        PhaseView::Reading => s.frames.len() > 0,
        PhaseView::Measuring(p) => s.frames.len() > 0 && keeps(s.include_hidden, entry_name(p)),
        PhaseView::Ended => true,
    }
}

impl CrawlSession {
    fn add_to_top(&mut self, node: TreeNode)
        requires
            old(self).frames@.len() > 0,
        ensures
            final(self).max_depth == old(self).max_depth,
            final(self).include_hidden == old(self).include_hidden,
            final(self).drop_at_limit == old(self).drop_at_limit,
            final(self).phase == old(self).phase,
            final(self)@.frames == old(self)@.frames.drop_last().push(
                with_child(old(self)@.frames.last(), node),
            ),
            top_gained(old(self)@.frames, final(self)@.frames),
            added(final(self)@.frames) == node,
    {
        let ghost before = self.frames@;
        let top = self.frames.pop().unwrap();
        let top = top.add_child(node);
        self.frames.push(top);
        proof {
            let f = |b: DirectoryBuilder| b@;
            assert(self.frames@ == before.drop_last().push(top));
            assert(self.frames@.map_values(f) =~= before.map_values(f).drop_last().push(
                with_child(before.map_values(f).last(), node),
            ));
            assert(self@.frames.drop_last() =~= before.map_values(f).drop_last());
        }
    }

    /// Hands on the complete directory `d`, with the phase set to `Ended` beforehand.
    fn complete(&mut self, d: Directory) -> (a: CrawlAction)
        requires
            old(self).phase is Ended,
        ensures
            final(self).max_depth == old(self).max_depth,
            final(self).include_hidden == old(self).include_hidden,
            final(self).drop_at_limit == old(self).drop_at_limit,
            old(self)@.frames.len() == 0 ==> {
                &&& final(self)@.frames == old(self)@.frames
                &&& final(self)@.phase is Ended
                &&& a == CrawlAction::Finished { root: d }
            },
            old(self)@.frames.len() > 0 ==> {
                &&& final(self)@.phase is Reading
                &&& a is ReadEntry
                &&& final(self)@.frames == old(self)@.frames.drop_last().push(
                    with_child(old(self)@.frames.last(), TreeNode::Directory(d)),
                )
                &&& top_gained(old(self)@.frames, final(self)@.frames)
                &&& added(final(self)@.frames) == TreeNode::Directory(d)
            },
    {
        if self.frames.len() == 0 {
            CrawlAction::Finished { root: d }
        } else {
            self.add_to_top(TreeNode::Directory(d));
            self.phase = Phase::Reading;
            CrawlAction::ReadEntry
        }
    }

    /// A crawl of the tree at `root`: directories at depth `max_depth` and
    /// below (the root at depth 0) are not read, and, with `drop_at_limit`,
    /// directories found at that depth are left out altogether; hidden entries
    /// are skipped unless `include_hidden`. It asks first to probe `root`.
    pub fn start(
        max_depth: Option<usize>,
        include_hidden: bool,
        drop_at_limit: bool,
        root: String,
    ) -> (r: (CrawlSession, CrawlAction))
        ensures
            r.0@.max_depth == max_depth,
            r.0@.include_hidden == include_hidden,
            r.0@.drop_at_limit == drop_at_limit,
            r.0@.frames.len() == 0,
            r.0@.phase == PhaseView::Probing(root@),
            r.1 matches CrawlAction::Probe { path } && path@ == root@,
            sound(r.0@),
    {
        let probe = root.clone();
        let s = CrawlSession {
            max_depth,
            include_hidden,
            drop_at_limit,
            frames: Vec::new(),
            phase: Phase::Probing { path: root },
        };
        proof {
            assert(s@.frames =~= Seq::<TreeBuilderView>::empty());
        }
        (s, CrawlAction::Probe { path: probe })
    }

    /// Whether the crawl takes `e` now.
    pub fn accepts(&self, e: &CrawlEvent) -> (b: bool)
        ensures
            b == accepts(self@.phase, *e),
    {
        match (&self.phase, e) {
            (Phase::Probing { .. }, CrawlEvent::Probed { .. }) => true,
            (Phase::Opening, CrawlEvent::Opened) => true,
            (Phase::Reading, CrawlEvent::Entry { .. }) => true,
            (Phase::Reading, CrawlEvent::EndOfDirectory) => true,
            (Phase::Measuring { .. }, CrawlEvent::Measured { .. }) => true,
            (Phase::Ended, _) => false,
            (_, CrawlEvent::Failed { .. }) => true,
            _ => false,
        }
    }
}

impl CrawlSession {
    /// Takes the file system's answer to the last action and gives the next action.
    pub fn step(&mut self, event: CrawlEvent) -> (action: CrawlAction)
        requires
            accepts(old(self)@.phase, event),
            sound(old(self)@),
        ensures
            step_spec(old(self)@, event, final(self)@, action),
            sound(final(self)@),
    {
        let ghost s = self@;
        let ghost ev = event;
        let mut phase = Phase::Ended;
        std::mem::swap(&mut phase, &mut self.phase);
        proof {
            assert(self@.frames == s.frames);
        }
        let action = match event {
            CrawlEvent::Failed { io_kind, message } => {
                CrawlAction::Stopped { error: CrawlError::Io { io_kind, message } }
            },
            CrawlEvent::Probed { exists, is_dir } => {
                match phase {
                    Phase::Probing { path } => {
                        if !exists {
                            CrawlAction::Stopped { error: CrawlError::NotFound { path } }
                        } else if !is_dir {
                            CrawlAction::Stopped { error: CrawlError::NotADirectory { path } }
                        } else {
                            let depth = self.frames.len();
                            let reached = match self.max_depth {
                                Some(m) => depth >= m,
                                None => false,
                            };
                            let open_path = path.clone();
                            let b = DirectoryBuilder::new(path);
                            if reached {
                                let d = b.build();
                                let a = self.complete(d);
                                proof {
                                    assert(b@.children =~= fresh_dir(open_path@).children);
                                }
                                a
                            } else {
                                self.frames.push(b);
                                self.phase = Phase::Opening;
                                proof {
                                    assert(b@.children =~= fresh_dir(open_path@).children);
                                    assert(b@ == fresh_dir(open_path@));
                                    assert(self.frames@.map_values(|b: DirectoryBuilder| b@)
                                        =~= s.frames.push(fresh_dir(open_path@)));
                                }
                                CrawlAction::Open { path: open_path }
                            }
                        }
                    },
                    _ => {
                        proof {
                            assert(false);
                        }
                        CrawlAction::ReadEntry
                    },
                }
            },
            CrawlEvent::Opened => {
                self.phase = Phase::Reading;
                CrawlAction::ReadEntry
            },
            CrawlEvent::Entry { path, kind } => {
                let name = path_entry_name(path.as_str());
                if !self.include_hidden && is_hidden(name.as_str()) {
                    self.phase = Phase::Reading;
                    CrawlAction::ReadEntry
                } else {
                    match kind {
                        EntryKind::Other => {
                            self.phase = Phase::Reading;
                            CrawlAction::ReadEntry
                        },
                        EntryKind::File => {
                            let q = path.clone();
                            self.phase = Phase::Measuring { path };
                            CrawlAction::Measure { path: q }
                        },
                        EntryKind::Directory => {
                            let depth = self.frames.len();
                            let reached = match self.max_depth {
                                Some(m) => depth >= m,
                                None => false,
                            };
                            if self.drop_at_limit && reached {
                                self.phase = Phase::Reading;
                                CrawlAction::ReadEntry
                            } else {
                                let q = path.clone();
                                self.phase = Phase::Probing { path };
                                CrawlAction::Probe { path: q }
                            }
                        },
                    }
                }
            },
            CrawlEvent::EndOfDirectory => {
                let top = self.frames.pop().unwrap();
                proof {
                    assert(self.frames@.map_values(|b: DirectoryBuilder| b@) =~= s.frames.drop_last());
                    assert(top@ == s.frames.last());
                }
                let d = top.build();
                self.complete(d)
            },
            CrawlEvent::Measured { size } => {
                match phase {
                    Phase::Measuring { path } => {
                        let f = File::new(path, size);
                        self.add_to_top(TreeNode::File(f));
                        self.phase = Phase::Reading;
                        CrawlAction::ReadEntry
                    },
                    _ => {
                        proof {
                            assert(false);
                        }
                        CrawlAction::ReadEntry
                    },
                }
            },
        };
        proof {
            law_step_keeps_sound(s, ev, self@, action);
        }
        action
    }
}

proof fn lemma_nodes_sound_push(
    ns: Seq<TreeNode>,
    n: TreeNode,
    depth: nat,
    max_depth: Option<usize>,
    include_hidden: bool,
)
    ensures
        nodes_sound(ns.push(n), depth, max_depth, include_hidden) == (nodes_sound(
            ns,
            depth,
            max_depth,
            include_hidden,
        ) && node_sound(n, depth, max_depth, include_hidden)),
{
    assert(ns.push(n).drop_last() =~= ns);
}

/// Adding a sound entry to the directory being read keeps a sound state sound.
proof fn lemma_top_gained_sound(s: SessionView, t: SessionView)
    requires
        forall|i: int| 0 <= i < s.frames.len() ==> frame_sound(s, i, #[trigger] s.frames[i]),
        t.max_depth == s.max_depth,
        t.include_hidden == s.include_hidden,
        top_gained(s.frames, t.frames),
        node_sound(added(t.frames), s.frames.len() as nat, s.max_depth, s.include_hidden),
    ensures
        forall|i: int| 0 <= i < t.frames.len() ==> frame_sound(t, i, #[trigger] t.frames[i]),
{
    let k = s.frames.len() - 1;
    assert forall|i: int| 0 <= i < t.frames.len() implies frame_sound(t, i, #[trigger] t.frames[i]) by {
        if i < k {
            assert(t.frames.drop_last()[i] == s.frames.drop_last()[i]);
            assert(frame_sound(s, i, s.frames[i]));
        } else {
            assert(frame_sound(s, k, s.frames[k]));
            lemma_nodes_sound_push(
                s.frames[k].children,
                added(t.frames),
                (k + 1) as nat,
                s.max_depth,
                s.include_hidden,
            );
        }
    }
}

/// Every step keeps a sound crawl sound: the directories it holds are named by
/// their paths, hold no hidden entry unless hidden entries are asked for, and
/// hold nothing where the depth limit is reached.
pub proof fn law_step_keeps_sound(s: SessionView, e: CrawlEvent, t: SessionView, a: CrawlAction)
    requires
        sound(s),
        accepts(s.phase, e),
        step_spec(s, e, t, a),
    ensures
        sound(t),
{
    match e {
        CrawlEvent::Probed { exists, is_dir } => {
            if let PhaseView::Probing(p) = s.phase {
                if exists && is_dir {
                    let fresh = fresh_dir(p);
                    if depth_reached(s.max_depth, s.frames.len() as int) {
                        if s.frames.len() > 0 {
                            if let TreeNode::Directory(d) = added(t.frames) {
                                assert(d.children@ =~= Seq::<TreeNode>::empty());
                                assert(dir_sound(d, s.frames.len() as nat, s.max_depth, s.include_hidden));
                            }
                            lemma_top_gained_sound(s, t);
                        }
                    } else {
                        assert forall|i: int| 0 <= i < t.frames.len() implies frame_sound(
                            t,
                            i,
                            #[trigger] t.frames[i],
                        ) by {
                            if i < s.frames.len() {
                                assert(t.frames[i] == s.frames[i]);
                                assert(frame_sound(s, i, s.frames[i]));
                            } else {
                                assert(t.frames[i] == fresh);
                            }
                        }
                    }
                }
            }
        },
        CrawlEvent::EndOfDirectory => {
            let k = s.frames.len() - 1;
            let rest = s.frames.drop_last();
            let top = s.frames.last();
            assert(frame_sound(s, k, s.frames[k]));
            if rest.len() > 0 {
                let s2 = SessionView { frames: rest, ..s };
                assert forall|i: int| 0 <= i < s2.frames.len() implies frame_sound(
                    s2,
                    i,
                    #[trigger] s2.frames[i],
                ) by {
                    assert(frame_sound(s, i, s.frames[i]));
                }
                lemma_top_gained_sound(s2, t);
            }
        },
        CrawlEvent::Measured { size } => {
            lemma_top_gained_sound(s, t);
        },
        _ => {},
    }
}

/// The tree that a sound crawl finishes with is sound at depth 0: every entry
/// is named by its path, none is hidden unless hidden entries were asked for,
/// and no directory at the depth limit or below it holds anything.
pub proof fn law_finished_tree_sound(s: SessionView, e: CrawlEvent, t: SessionView, a: CrawlAction)
    requires
        sound(s),
        accepts(s.phase, e),
        step_spec(s, e, t, a),
        a is Finished,
    ensures
        dir_sound(a->root, 0, s.max_depth, s.include_hidden),
{
    match e {
        CrawlEvent::Probed { .. } => {
            let d = a->root;
            assert(d.children@ =~= Seq::<TreeNode>::empty());
        },
        CrawlEvent::EndOfDirectory => {
            assert(frame_sound(s, 0, s.frames[0]));
        },
        _ => {},
    }
}

/// The text of a crawl error: the path with what is wrong with it, or the
/// file system's own message.
pub open spec fn error_text(e: CrawlError) -> Seq<char> {
    match e {
        CrawlError::NotFound { path } => "Path '"@ + path@ + "' does not exist"@,
        CrawlError::NotADirectory { path } => "Path '"@ + path@ + "' is not a directory"@,
        CrawlError::Io { message, .. } => message@,
    }
}

/// The kind of a crawl error: not found, an input that is no directory, or
/// the kind of the file system's refusal.
pub open spec fn error_kind(e: CrawlError) -> IoKind {
    match e {
        CrawlError::NotFound { .. } => IoKind::NotFound,
        CrawlError::NotADirectory { .. } => IoKind::InvalidInput,
        CrawlError::Io { io_kind, .. } => io_kind,
    }
}

impl CrawlError {
    /// The error as text: `Path '<path>' does not exist`, `Path '<path>' is
    /// not a directory`, or the file system's own message.
    pub fn message(&self) -> (s: String)
        ensures
            s@ == error_text(*self),
    {
        match self {
            CrawlError::NotFound { path } => {
                let mut s = String::from_str("Path '");
                s.append(path.as_str());
                s.append("' does not exist");
                s
            },
            CrawlError::NotADirectory { path } => {
                let mut s = String::from_str("Path '");
                s.append(path.as_str());
                s.append("' is not a directory");
                s
            },
            CrawlError::Io { message, .. } => message.clone(),
        }
    }

    /// The kind of the error (see `error_kind`).
    pub fn kind(&self) -> (k: IoKind)
        ensures
            k == error_kind(*self),
    {
        match self {
            CrawlError::NotFound { .. } => IoKind::NotFound,
            CrawlError::NotADirectory { .. } => IoKind::InvalidInput,
            CrawlError::Io { io_kind, .. } => *io_kind,
        }
    }
}

} // verus!
