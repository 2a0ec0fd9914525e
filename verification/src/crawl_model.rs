use vstd::prelude::*;
use crate::crawl::{
    accepts, added, depth_reached, fresh_dir, keeps, step_spec, takes, CrawlAction, CrawlError, CrawlEvent,
    EntryKind,
    PhaseView, SessionView,
};
use crate::file_crawler::{Directory, TreeBuilderView, TreeNode};
use crate::paths::{entry_name, is_hidden_name};

verus! {

/// An entry of a directory as the file system lists it.
pub struct FsEntry {
    pub path: Seq<char>,
    pub kind: EntryKind,
}

/// A file system as a crawl sees it: which paths exist, which are
/// directories, what each directory lists (in the order it lists it) and how
/// large each file is.
pub struct FsModel {
    pub exists: spec_fn(Seq<char>) -> bool,
    pub is_dir: spec_fn(Seq<char>) -> bool,
    pub entries: spec_fn(Seq<char>) -> Seq<FsEntry>,
    pub size: spec_fn(Seq<char>) -> u64,
}

/// An entry, found at `depth`, that a crawl takes into its tree (see `takes`).
pub open spec fn listed(
    e: FsEntry,
    depth: nat,
    max_depth: Option<usize>,
    include_hidden: bool,
    drop_at_limit: bool,
) -> bool {
    takes(e.path, e.kind, depth as int, max_depth, include_hidden, drop_at_limit)
}

/// The directory `d`, found at `depth`, is what the file system holds at its
/// path: the path exists and is a directory, the name is the path's, and,
/// unless the depth limit is reached there, its entries are exactly those the
/// file system lists there and the crawl takes, in the same order.
pub open spec fn tree_matches(
    fs: FsModel,
    d: Directory,
    depth: nat,
    max_depth: Option<usize>,
    include_hidden: bool,
    drop_at_limit: bool,
) -> bool
    decreases d, 0nat,
{
    &&& (fs.exists)(d.path@)
    &&& (fs.is_dir)(d.path@)
    &&& d.name@ == entry_name(d.path@)
    &&& d.is_hidden == is_hidden_name(d.name@)
    &&& if depth_reached(max_depth, depth as int) {
        d.children@.len() == 0
    } else {
        children_match(fs, d.children@, (fs.entries)(d.path@), depth + 1, max_depth, include_hidden, drop_at_limit)
    }
}

/// The entries `cs`, found at `depth`, are those of the listing `es` that the
/// crawl takes, in order, each matching what the file system holds.
pub open spec fn children_match(
    fs: FsModel,
    cs: Seq<TreeNode>,
    es: Seq<FsEntry>,
    depth: nat,
    max_depth: Option<usize>,
    include_hidden: bool,
    drop_at_limit: bool,
) -> bool
    decreases cs, es.len(),
{
    if es.len() == 0 {
        cs.len() == 0
    } else if !listed(es.last(), depth, max_depth, include_hidden, drop_at_limit) {
        children_match(fs, cs, es.drop_last(), depth, max_depth, include_hidden, drop_at_limit)
    } else {
        &&& cs.len() > 0
        &&& node_matches(fs, cs.last(), es.last(), depth, max_depth, include_hidden, drop_at_limit)
        &&& children_match(fs, cs.drop_last(), es.drop_last(), depth, max_depth, include_hidden, drop_at_limit)
    }
}

/// The entry `n`, found at `depth`, is what the file system holds for the listed entry `e`.
pub open spec fn node_matches(
    fs: FsModel,
    n: TreeNode,
    e: FsEntry,
    depth: nat,
    max_depth: Option<usize>,
    include_hidden: bool,
    drop_at_limit: bool,
) -> bool
    decreases n, 0nat,
{
    match n {
        TreeNode::File(f) => {
            &&& e.kind is File
            &&& f.path@ == e.path
            &&& f.size == (fs.size)(e.path)
            &&& f.well_formed()
        },
        TreeNode::Directory(d) => {
            &&& e.kind is Directory
            &&& d.path@ == e.path
            &&& tree_matches(fs, d, depth, max_depth, include_hidden, drop_at_limit)
        },
    }
}

/// The open directory `b` at depth `j` is a directory of the file system, named by its path.
pub open spec fn frame_ok(fs: FsModel, b: TreeBuilderView, j: int, max_depth: Option<usize>) -> bool {
    &&& (fs.exists)(b.path)
    &&& (fs.is_dir)(b.path)
    &&& b.name == entry_name(b.path)
    &&& b.is_hidden == is_hidden_name(b.name)
    &&& !depth_reached(max_depth, j)
}

/// The open directory `b` at depth `j` has read its first `n` listed entries,
/// and all of them are handled.
pub open spec fn read_up_to(
    fs: FsModel,
    b: TreeBuilderView,
    j: int,
    n: nat,
    max_depth: Option<usize>,
    include_hidden: bool,
    drop_at_limit: bool,
) -> bool {
    let es = (fs.entries)(b.path);
    &&& n <= es.len()
    &&& children_match(fs, b.children, es.take(n as int), (j + 1) as nat, max_depth, include_hidden, drop_at_limit)
}

/// The open directory `b` at depth `j` has read its first `n` listed
/// entries; the last of them, a taken entry of `kind` at `path`, is being
/// handled, and those before it are handled.
pub open spec fn waiting_on(
    fs: FsModel,
    b: TreeBuilderView,
    j: int,
    n: nat,
    kind: EntryKind,
    path: Seq<char>,
    max_depth: Option<usize>,
    include_hidden: bool,
    drop_at_limit: bool,
) -> bool {
    let es = (fs.entries)(b.path);
    &&& 1 <= n <= es.len()
    &&& es[n - 1].kind == kind
    &&& es[n - 1].path == path
    &&& listed(es[n - 1], (j + 1) as nat, max_depth, include_hidden, drop_at_limit)
    &&& children_match(fs, b.children, es.take(n - 1), (j + 1) as nat, max_depth, include_hidden, drop_at_limit)
}

/// A crawl of `root` agrees with the file system `fs`, the reader of each
/// open directory standing at `pos`: every open directory is a directory of
/// the file system, what it holds matches the entries read from it so far,
/// and each open directory but the last waits on the next one.
pub open spec fn agrees(fs: FsModel, root: Seq<char>, s: SessionView, pos: Seq<nat>) -> bool {
    let k = s.frames.len();
    &&& k - 1 <= pos.len() <= k
    &&& k > 0 ==> s.frames[0].path == root
    &&& forall|j: int| 0 <= j < k ==> frame_ok(fs, #[trigger] s.frames[j], j, s.max_depth)
    &&& forall|j: int|
        0 <= j < k - 1 ==> waiting_on(
            fs,
            #[trigger] s.frames[j],
            j,
            pos[j],
            EntryKind::Directory,
            s.frames[j + 1].path,
            s.max_depth,
            s.include_hidden,
            s.drop_at_limit,
        )
    &&& match s.phase {
        PhaseView::Probing(p) => if k == 0 {
            p == root && pos.len() == 0
        } else {
            &&& pos.len() == k
            &&& waiting_on(
                fs,
                s.frames[k - 1],
                k - 1,
                pos[k - 1],
                EntryKind::Directory,
                p,
                s.max_depth,
                s.include_hidden,
                s.drop_at_limit,
            )
        },
        PhaseView::Opening => k > 0 && pos.len() == k - 1 && s.frames[k - 1].children.len() == 0,
        PhaseView::Reading => {
            &&& k > 0
            &&& pos.len() == k
            &&& read_up_to(fs, s.frames[k - 1], k - 1, pos[k - 1], s.max_depth, s.include_hidden, s.drop_at_limit)
        },
        PhaseView::Measuring(p) => {
            &&& k > 0
            &&& pos.len() == k
            &&& waiting_on(
                fs,
                s.frames[k - 1],
                k - 1,
                pos[k - 1],
                EntryKind::File,
                p,
                s.max_depth,
                s.include_hidden,
                s.drop_at_limit,
            )
        },
        PhaseView::Ended => pos.len() <= k,
    }
}

/// The event `e` is the file system's true answer to what the crawl `s` asked,
/// its readers standing at `pos`; a refusal may come at any time.
pub open spec fn answers(fs: FsModel, s: SessionView, pos: Seq<nat>, e: CrawlEvent) -> bool {
    let k = s.frames.len();
    match e {
        CrawlEvent::Probed { exists, is_dir } => s.phase matches PhaseView::Probing(p) && exists
            == (fs.exists)(p) && is_dir == (fs.is_dir)(p),
        CrawlEvent::Opened => true,
        CrawlEvent::Entry { path, kind } => {
            let es = (fs.entries)(s.frames[k - 1].path);
            &&& pos.len() == k
            &&& k > 0
            &&& pos[k - 1] < es.len()
            &&& path@ == es[pos[k - 1] as int].path
            &&& kind == es[pos[k - 1] as int].kind
        },
        CrawlEvent::EndOfDirectory => {
            &&& pos.len() == k
            &&& k > 0
            &&& pos[k - 1] == (fs.entries)(s.frames[k - 1].path).len()
        },
        CrawlEvent::Measured { size } => s.phase matches PhaseView::Measuring(p) && size == (fs.size)(
            p,
        ),
        CrawlEvent::Failed { .. } => true,
    }
}

/// Where the readers stand after the answer `e`: a directory that opens gets a
/// reader at its start, an entry moves the last reader on, and the end of a
/// directory drops its reader.
pub open spec fn next_pos(pos: Seq<nat>, e: CrawlEvent) -> Seq<nat> {
    match e {
        CrawlEvent::Opened => pos.push(0),
        CrawlEvent::Entry { .. } => pos.update(pos.len() - 1, pos.last() + 1),
        CrawlEvent::EndOfDirectory => pos.drop_last(),
        _ => pos,
    }
}

proof fn lemma_match_listed(
    fs: FsModel,
    cs: Seq<TreeNode>,
    node: TreeNode,
    es: Seq<FsEntry>,
    n: int,
    depth: nat,
    max_depth: Option<usize>,
    include_hidden: bool,
    drop_at_limit: bool,
)
    requires
        1 <= n <= es.len(),
        listed(es[n - 1], depth, max_depth, include_hidden, drop_at_limit),
        node_matches(fs, node, es[n - 1], depth, max_depth, include_hidden, drop_at_limit),
        children_match(fs, cs, es.take(n - 1), depth, max_depth, include_hidden, drop_at_limit),
    ensures
        children_match(fs, cs.push(node), es.take(n), depth, max_depth, include_hidden, drop_at_limit),
{
    let t = es.take(n);
    assert(t.last() == es[n - 1]);
    assert(t.drop_last() =~= es.take(n - 1));
    assert(cs.push(node).last() == node);
    assert(cs.push(node).drop_last() =~= cs);
}

proof fn lemma_match_unlisted(
    fs: FsModel,
    cs: Seq<TreeNode>,
    es: Seq<FsEntry>,
    n: int,
    depth: nat,
    max_depth: Option<usize>,
    include_hidden: bool,
    drop_at_limit: bool,
)
    requires
        1 <= n <= es.len(),
        !listed(es[n - 1], depth, max_depth, include_hidden, drop_at_limit),
    ensures
        children_match(fs, cs, es.take(n), depth, max_depth, include_hidden, drop_at_limit) == children_match(
            fs,
            cs,
            es.take(n - 1),
            depth,
            max_depth,
            include_hidden,
            drop_at_limit,
        ),
{
    let t = es.take(n);
    assert(t.last() == es[n - 1]);
    assert(t.drop_last() =~= es.take(n - 1));
}

/// The open directories below the last one agree after the last one gained an entry.
proof fn lemma_lower_frames_kept(fs: FsModel, s: SessionView, t: SessionView, pos: Seq<nat>, m: int)
    requires
        0 < m <= s.frames.len(),
        t.frames.len() == m,
        t.max_depth == s.max_depth,
        t.include_hidden == s.include_hidden,
        t.drop_at_limit == s.drop_at_limit,
        forall|j: int| 0 <= j < m - 1 ==> t.frames[j] == s.frames[j],
        t.frames[m - 1].path == s.frames[m - 1].path,
        t.frames[m - 1].name == s.frames[m - 1].name,
        t.frames[m - 1].is_hidden == s.frames[m - 1].is_hidden,
        forall|j: int| 0 <= j < s.frames.len() ==> frame_ok(fs, #[trigger] s.frames[j], j, s.max_depth),
        forall|j: int|
            0 <= j < s.frames.len() - 1 ==> waiting_on(
                fs,
                #[trigger] s.frames[j],
                j,
                pos[j],
                EntryKind::Directory,
                s.frames[j + 1].path,
                s.max_depth,
                s.include_hidden,
                s.drop_at_limit,
            ),
    ensures
        forall|j: int| 0 <= j < m ==> frame_ok(fs, #[trigger] t.frames[j], j, t.max_depth),
        forall|j: int|
            0 <= j < m - 1 ==> waiting_on(
                fs,
                #[trigger] t.frames[j],
                j,
                pos[j],
                EntryKind::Directory,
                t.frames[j + 1].path,
                t.max_depth,
                t.include_hidden,
                t.drop_at_limit,
            ),
{
    assert forall|j: int| 0 <= j < m implies frame_ok(fs, #[trigger] t.frames[j], j, t.max_depth) by {
        assert(frame_ok(fs, s.frames[j], j, s.max_depth));
    }
    assert forall|j: int| 0 <= j < m - 1 implies waiting_on(
        fs,
        #[trigger] t.frames[j],
        j,
        pos[j],
        EntryKind::Directory,
        t.frames[j + 1].path,
        t.max_depth,
        t.include_hidden,
        t.drop_at_limit,
    ) by {
        assert(waiting_on(
            fs,
            s.frames[j],
            j,
            pos[j],
            EntryKind::Directory,
            s.frames[j + 1].path,
            s.max_depth,
            s.include_hidden,
            s.drop_at_limit,
        ));
        if j + 1 == m - 1 {
            assert(t.frames[j + 1].path == s.frames[j + 1].path);
        } else {
            assert(t.frames[j + 1] == s.frames[j + 1]);
        }
    }
}

/// A crawl of `root` starts out agreeing with any file system, no directory open.
pub proof fn law_crawl_starts_agreeing(fs: FsModel, root: Seq<char>, s: SessionView)
    requires
        s.frames.len() == 0,
        s.phase == PhaseView::Probing(root),
    ensures
        agrees(fs, root, s, Seq::empty()),
{
}

/// A crawl answered truthfully by a file system goes on agreeing with it, and
/// the tree it finishes with is exactly what the file system holds at the
/// crawled path: every directory down to the depth limit with all its taken
/// entries in the order the file system lists them, and every file with its
/// size. It stops as not found only for a path that does not exist, and as
/// not a directory only for one that exists and is no directory.
pub proof fn law_crawl_follows_file_system(
    fs: FsModel,
    root: Seq<char>,
    s: SessionView,
    pos: Seq<nat>,
    e: CrawlEvent,
    t: SessionView,
    a: CrawlAction,
)
    requires
        agrees(fs, root, s, pos),
        accepts(s.phase, e),
        answers(fs, s, pos, e),
        step_spec(s, e, t, a),
    ensures
        agrees(fs, root, t, next_pos(pos, e)),
        a matches CrawlAction::Finished { root: d } ==> d.path@ == root && tree_matches(
            fs,
            d,
            0,
            s.max_depth,
            s.include_hidden,
            s.drop_at_limit,
        ),
        a matches CrawlAction::Stopped { error: CrawlError::NotFound { path } } ==> !(fs.exists)(
            path@,
        ),
        a matches CrawlAction::Stopped { error: CrawlError::NotADirectory { path } } ==> (fs.exists)(
            path@,
        ) && !(fs.is_dir)(path@),
{
    let k = s.frames.len() as int;
    let mx = s.max_depth;
    let inc = s.include_hidden;
    let drp = s.drop_at_limit;
    match e {
        CrawlEvent::Probed { exists, is_dir } => {
            let p = s.phase->Probing_0;
            if exists && is_dir {
                let fresh = fresh_dir(p);
                if depth_reached(mx, k) {
                    if k == 0 {
                        let d = a->root;
                        assert(d.children@ =~= Seq::<TreeNode>::empty());
                    } else {
                        let top = s.frames[k - 1];
                        let n = pos[k - 1];
                        let es = (fs.entries)(top.path);
                        if let TreeNode::Directory(d) = added(t.frames) {
                            assert(d.children@ =~= Seq::<TreeNode>::empty());
                            assert(tree_matches(fs, d, k as nat, mx, inc, drp));
                            assert(node_matches(fs, added(t.frames), es[n - 1], k as nat, mx, inc, drp));
                            lemma_match_listed(fs, top.children, added(t.frames), es, n as int, k as nat, mx, inc, drp);
                        }
                        assert(t.frames[k - 1].children == top.children.push(added(t.frames)));
                        assert forall|j: int| 0 <= j < k - 1 implies t.frames[j] == s.frames[j] by {
                            assert(t.frames.drop_last()[j] == s.frames.drop_last()[j]);
                        }
                        lemma_lower_frames_kept(fs, s, t, pos, k);
                    }
                } else {
                    assert forall|j: int| 0 <= j < k implies t.frames[j] == s.frames[j] by {}
                    assert(t.frames[k] == fresh);
                    assert forall|j: int| 0 <= j < k + 1 implies frame_ok(fs, #[trigger] t.frames[j], j, t.max_depth) by {
                        if j < k {
                            assert(frame_ok(fs, s.frames[j], j, s.max_depth));
                        }
                    }
                    assert forall|j: int| 0 <= j < k implies waiting_on(
                        fs,
                        #[trigger] t.frames[j],
                        j,
                        pos[j],
                        EntryKind::Directory,
                        t.frames[j + 1].path,
                        t.max_depth,
                        t.include_hidden,
                        t.drop_at_limit,
                    ) by {
                        if j < k - 1 {
                            assert(waiting_on(
                                fs,
                                s.frames[j],
                                j,
                                pos[j],
                                EntryKind::Directory,
                                s.frames[j + 1].path,
                                mx,
                                inc,
                                drp,
                            ));
                        }
                    }
                }
            }
        },
        CrawlEvent::Opened => {
            let top = s.frames[k - 1];
            let np = pos.push(0);
            assert((fs.entries)(top.path).take(0) =~= Seq::<FsEntry>::empty());
            assert(top.children =~= Seq::<TreeNode>::empty());
            assert forall|j: int| 0 <= j < k - 1 implies np[j] == pos[j] by {}
        },
        CrawlEvent::Entry { path, kind } => {
            let top = s.frames[k - 1];
            let n = pos[k - 1];
            let es = (fs.entries)(top.path);
            let np = pos.update(k - 1, n + 1);
            assert(np[k - 1] == n + 1);
            assert forall|j: int| 0 <= j < k - 1 implies np[j] == pos[j] by {}
            if !listed(es[n as int], k as nat, mx, inc, drp) {
                lemma_match_unlisted(fs, top.children, es, (n + 1) as int, k as nat, mx, inc, drp);
            }
        },
        CrawlEvent::EndOfDirectory => {
            let top = s.frames[k - 1];
            let es = (fs.entries)(top.path);
            assert(es.take(es.len() as int) =~= es);
            assert(frame_ok(fs, s.frames[k - 1], k - 1, mx));
            if k == 1 {
                let d = a->root;
                assert(tree_matches(fs, d, 0, mx, inc, drp));
            } else {
                let parent = s.frames[k - 2];
                let pn = pos[k - 2];
                let pes = (fs.entries)(parent.path);
                assert(waiting_on(fs, s.frames[k - 2], k - 2, pn, EntryKind::Directory, s.frames[k - 1].path, mx, inc, drp));
                if let TreeNode::Directory(d) = added(t.frames) {
                    assert(tree_matches(fs, d, (k - 1) as nat, mx, inc, drp));
                    assert(node_matches(fs, added(t.frames), pes[pn - 1], (k - 1) as nat, mx, inc, drp));
                    lemma_match_listed(fs, parent.children, added(t.frames), pes, pn as int, (k - 1) as nat, mx, inc, drp);
                }
                let rest = s.frames.drop_last();
                assert(t.frames[k - 2].children == parent.children.push(added(t.frames)));
                assert forall|j: int| 0 <= j < k - 2 implies t.frames[j] == s.frames[j] by {
                    assert(t.frames.drop_last()[j] == rest.drop_last()[j]);
                }
                lemma_lower_frames_kept(fs, s, t, pos, k - 1);
                let np = pos.drop_last();
                assert forall|j: int| 0 <= j < k - 1 implies np[j] == pos[j] by {}
            }
        },
        CrawlEvent::Measured { size } => {
            let top = s.frames[k - 1];
            let n = pos[k - 1];
            let es = (fs.entries)(top.path);
            assert(node_matches(fs, added(t.frames), es[n - 1], k as nat, mx, inc, drp));
            lemma_match_listed(fs, top.children, added(t.frames), es, n as int, k as nat, mx, inc, drp);
            assert(t.frames[k - 1].children == top.children.push(added(t.frames)));
            assert forall|j: int| 0 <= j < k - 1 implies t.frames[j] == s.frames[j] by {
                assert(t.frames.drop_last()[j] == s.frames.drop_last()[j]);
            }
            lemma_lower_frames_kept(fs, s, t, pos, k);
        },
        CrawlEvent::Failed { .. } => {},
    }
}

/// Two depth limits, counted from `d1` and from `d2`, leave the same depth to go.
pub open spec fn same_remaining(d1: nat, m1: Option<usize>, d2: nat, m2: Option<usize>) -> bool {
    match (m1, m2) {
        (None, None) => true,
        (Some(a), Some(b)) => a - d1 == b - d2,
        _ => false,
    }
}

proof fn lemma_remaining_tree(
    fs: FsModel,
    d: Directory,
    d1: nat,
    m1: Option<usize>,
    d2: nat,
    m2: Option<usize>,
    inc: bool,
    drp: bool,
)
    requires
        same_remaining(d1, m1, d2, m2),
    ensures
        tree_matches(fs, d, d1, m1, inc, drp) == tree_matches(fs, d, d2, m2, inc, drp),
    decreases d, 0nat,
{
    assert(depth_reached(m1, d1 as int) == depth_reached(m2, d2 as int));
    lemma_remaining_children(fs, d.children@, (fs.entries)(d.path@), d1 + 1, m1, d2 + 1, m2, inc, drp);
}

proof fn lemma_remaining_children(
    fs: FsModel,
    cs: Seq<TreeNode>,
    es: Seq<FsEntry>,
    d1: nat,
    m1: Option<usize>,
    d2: nat,
    m2: Option<usize>,
    inc: bool,
    drp: bool,
)
    requires
        same_remaining(d1, m1, d2, m2),
    ensures
        children_match(fs, cs, es, d1, m1, inc, drp) == children_match(fs, cs, es, d2, m2, inc, drp),
    decreases cs, es.len(),
{
    if es.len() > 0 {
        assert(depth_reached(m1, d1 as int) == depth_reached(m2, d2 as int));
        assert(listed(es.last(), d1, m1, inc, drp) == listed(es.last(), d2, m2, inc, drp));
        if !listed(es.last(), d1, m1, inc, drp) {
            lemma_remaining_children(fs, cs, es.drop_last(), d1, m1, d2, m2, inc, drp);
        } else if cs.len() > 0 {
            lemma_remaining_node(fs, cs.last(), es.last(), d1, m1, d2, m2, inc, drp);
            lemma_remaining_children(fs, cs.drop_last(), es.drop_last(), d1, m1, d2, m2, inc, drp);
        }
    }
}

proof fn lemma_remaining_node(
    fs: FsModel,
    n: TreeNode,
    e: FsEntry,
    d1: nat,
    m1: Option<usize>,
    d2: nat,
    m2: Option<usize>,
    inc: bool,
    drp: bool,
)
    requires
        same_remaining(d1, m1, d2, m2),
    ensures
        node_matches(fs, n, e, d1, m1, inc, drp) == node_matches(fs, n, e, d2, m2, inc, drp),
    decreases n, 0nat,
{
    if let TreeNode::Directory(d) = n {
        lemma_remaining_tree(fs, d, d1, m1, d2, m2, inc, drp);
    }
}

/// Only the depth that remains matters: a directory matches the file system
/// at depth `d1` under the limit `m1` exactly when it does at depth `d2` under
/// `m2`, where both leave the same depth to go (or neither limits depth).
pub proof fn law_only_remaining_depth_matters(
    fs: FsModel,
    d: Directory,
    d1: nat,
    m1: Option<usize>,
    d2: nat,
    m2: Option<usize>,
    include_hidden: bool,
    drop_at_limit: bool,
)
    requires
        same_remaining(d1, m1, d2, m2),
    ensures
        tree_matches(fs, d, d1, m1, include_hidden, drop_at_limit) == tree_matches(
            fs,
            d,
            d2,
            m2,
            include_hidden,
            drop_at_limit,
        ),
{
    lemma_remaining_tree(fs, d, d1, m1, d2, m2, include_hidden, drop_at_limit);
}

proof fn lemma_drop_free_tree(fs: FsModel, d: Directory, depth: nat, inc: bool)
    ensures
        tree_matches(fs, d, depth, None, inc, false) == tree_matches(fs, d, depth, None, inc, true),
    decreases d, 0nat,
{
    lemma_drop_free_children(fs, d.children@, (fs.entries)(d.path@), depth + 1, inc);
}

proof fn lemma_drop_free_children(fs: FsModel, cs: Seq<TreeNode>, es: Seq<FsEntry>, depth: nat, inc: bool)
    ensures
        children_match(fs, cs, es, depth, None, inc, false) == children_match(fs, cs, es, depth, None, inc, true),
    decreases cs, es.len(),
{
    if es.len() > 0 {
        assert(!depth_reached(None, depth as int));
        assert(listed(es.last(), depth, None, inc, false) == listed(es.last(), depth, None, inc, true));
        if !listed(es.last(), depth, None, inc, false) {
            lemma_drop_free_children(fs, cs, es.drop_last(), depth, inc);
        } else if cs.len() > 0 {
            if let TreeNode::Directory(d) = cs.last() {
                lemma_drop_free_tree(fs, d, depth, inc);
            }
            assert(node_matches(fs, cs.last(), es.last(), depth, None, inc, false) == node_matches(
                fs,
                cs.last(),
                es.last(),
                depth,
                None,
                inc,
                true,
            ));
            lemma_drop_free_children(fs, cs.drop_last(), es.drop_last(), depth, inc);
        }
    }
}

/// Two directories hold the same: same path, name and hidden flag, and the
/// same entries in the same order.
pub open spec fn tree_same(a: Directory, b: Directory) -> bool
    decreases a, 0nat,
{
    &&& a.path@ == b.path@
    &&& a.name@ == b.name@
    &&& a.is_hidden == b.is_hidden
    &&& nodes_same(a.children@, b.children@)
}

/// Two entry lists hold the same, entry by entry.
pub open spec fn nodes_same(xs: Seq<TreeNode>, ys: Seq<TreeNode>) -> bool
    decreases xs, 1nat,
{
    if xs.len() == 0 {
        ys.len() == 0
    } else {
        &&& ys.len() > 0
        &&& node_same(xs.last(), ys.last())
        &&& nodes_same(xs.drop_last(), ys.drop_last())
    }
}

/// Two entries hold the same: equal files, or directories that hold the same.
pub open spec fn node_same(x: TreeNode, y: TreeNode) -> bool
    decreases x, 0nat,
{
    match (x, y) {
        (TreeNode::File(f), TreeNode::File(g)) => {
            &&& f.path@ == g.path@
            &&& f.name@ == g.name@
            &&& f.size == g.size
            &&& f.is_hidden == g.is_hidden
        },
        (TreeNode::Directory(a), TreeNode::Directory(b)) => tree_same(a, b),
        _ => false,
    }
}

proof fn lemma_unique_tree(
    fs: FsModel,
    a: Directory,
    b: Directory,
    depth: nat,
    mx: Option<usize>,
    inc: bool,
    drp: bool,
)
    requires
        a.path@ == b.path@,
        tree_matches(fs, a, depth, mx, inc, drp),
        tree_matches(fs, b, depth, mx, inc, drp),
    ensures
        tree_same(a, b),
    decreases a, 0nat,
{
    if depth_reached(mx, depth as int) {
        assert(a.children@.len() == 0);
        assert(b.children@.len() == 0);
    } else {
        lemma_unique_children(fs, a.children@, b.children@, (fs.entries)(a.path@), depth + 1, mx, inc, drp);
    }
}

proof fn lemma_unique_children(
    fs: FsModel,
    xs: Seq<TreeNode>,
    ys: Seq<TreeNode>,
    es: Seq<FsEntry>,
    depth: nat,
    mx: Option<usize>,
    inc: bool,
    drp: bool,
)
    requires
        children_match(fs, xs, es, depth, mx, inc, drp),
        children_match(fs, ys, es, depth, mx, inc, drp),
    ensures
        nodes_same(xs, ys),
    decreases xs, es.len(),
{
    if es.len() > 0 {
        if !listed(es.last(), depth, mx, inc, drp) {
            lemma_unique_children(fs, xs, ys, es.drop_last(), depth, mx, inc, drp);
        } else {
            lemma_unique_node(fs, xs.last(), ys.last(), es.last(), depth, mx, inc, drp);
            lemma_unique_children(fs, xs.drop_last(), ys.drop_last(), es.drop_last(), depth, mx, inc, drp);
        }
    }
}

proof fn lemma_unique_node(
    fs: FsModel,
    x: TreeNode,
    y: TreeNode,
    e: FsEntry,
    depth: nat,
    mx: Option<usize>,
    inc: bool,
    drp: bool,
)
    requires
        node_matches(fs, x, e, depth, mx, inc, drp),
        node_matches(fs, y, e, depth, mx, inc, drp),
    ensures
        node_same(x, y),
    decreases x, 0nat,
{
    if let TreeNode::Directory(a) = x {
        if let TreeNode::Directory(b) = y {
            lemma_unique_tree(fs, a, b, depth, mx, inc, drp);
        }
    }
}

/// A file system holds one tree at a path: two results that both match it
/// under the same settings hold the same.
pub proof fn law_crawl_result_unique(
    fs: FsModel,
    a: Directory,
    b: Directory,
    max_depth: Option<usize>,
    include_hidden: bool,
    drop_at_limit: bool,
)
    requires
        a.path@ == b.path@,
        tree_matches(fs, a, 0, max_depth, include_hidden, drop_at_limit),
        tree_matches(fs, b, 0, max_depth, include_hidden, drop_at_limit),
    ensures
        tree_same(a, b),
{
    lemma_unique_tree(fs, a, b, 0, max_depth, include_hidden, drop_at_limit);
}

/// Without a depth limit, a crawl that keeps directories at the limit (as
/// `Crawler` does) and one that leaves them out (as `DefaultFileCrawler`
/// does) give, against the same file system, trees that hold the same.
pub proof fn law_crawlers_agree_without_limit(
    fs: FsModel,
    a: Directory,
    b: Directory,
    include_hidden: bool,
)
    requires
        a.path@ == b.path@,
        tree_matches(fs, a, 0, None, include_hidden, false),
        tree_matches(fs, b, 0, None, include_hidden, true),
    ensures
        tree_same(a, b),
{
    lemma_drop_free_tree(fs, b, 0, include_hidden);
    lemma_unique_tree(fs, a, b, 0, None, include_hidden, false);
}

/// The name of an entry.
pub open spec fn node_name(n: TreeNode) -> Seq<char> {
    match n {
        TreeNode::File(f) => f.name@,
        TreeNode::Directory(d) => d.name@,
    }
}

/// `m1` limits depth at least as much as `m2` (no limit being the weakest).
pub open spec fn limit_within(m1: Option<usize>, m2: Option<usize>) -> bool {
    match (m1, m2) {
        (_, None) => true,
        (Some(a), Some(b)) => a <= b,
        (None, Some(_)) => false,
    }
}

/// The directory `a`, at `depth`, is `b` cut down to the settings `m1`,
/// `h1`: the same directory, emptied where the limit `m1` is reached, and
/// otherwise holding `b`'s entries but those the settings leave out.
pub open spec fn tree_cut(
    a: Directory,
    b: Directory,
    depth: nat,
    m1: Option<usize>,
    h1: bool,
    drp: bool,
) -> bool
    decreases b, 0nat,
{
    &&& a.path@ == b.path@
    &&& a.name@ == b.name@
    &&& a.is_hidden == b.is_hidden
    &&& if depth_reached(m1, depth as int) {
        a.children@.len() == 0
    } else {
        nodes_cut(a.children@, b.children@, depth + 1, m1, h1, drp)
    }
}

/// The entries `xs`, at `depth`, are `ys` without those that the settings
/// leave out (a hidden entry, or a directory at the limit where such are left
/// out), each of the rest cut down in turn.
pub open spec fn nodes_cut(
    xs: Seq<TreeNode>,
    ys: Seq<TreeNode>,
    depth: nat,
    m1: Option<usize>,
    h1: bool,
    drp: bool,
) -> bool
    decreases ys, 1nat,
{
    if ys.len() == 0 {
        xs.len() == 0
    } else if !keeps(h1, node_name(ys.last())) || (drp && ys.last() is Directory && depth_reached(
        m1,
        depth as int,
    )) {
        nodes_cut(xs, ys.drop_last(), depth, m1, h1, drp)
    } else {
        &&& xs.len() > 0
        &&& node_cut(xs.last(), ys.last(), depth, m1, h1, drp)
        &&& nodes_cut(xs.drop_last(), ys.drop_last(), depth, m1, h1, drp)
    }
}

/// The entry `x` is `y` cut down: the same file, or the directory cut down.
pub open spec fn node_cut(x: TreeNode, y: TreeNode, depth: nat, m1: Option<usize>, h1: bool, drp: bool) -> bool
    decreases y, 0nat,
{
    match (x, y) {
        (TreeNode::File(f), TreeNode::File(g)) => {
            &&& f.path@ == g.path@
            &&& f.name@ == g.name@
            &&& f.size == g.size
            &&& f.is_hidden == g.is_hidden
        },
        (TreeNode::Directory(a), TreeNode::Directory(b)) => tree_cut(a, b, depth, m1, h1, drp),
        _ => false,
    }
}

proof fn lemma_cut_tree(
    fs: FsModel,
    a: Directory,
    b: Directory,
    depth: nat,
    m1: Option<usize>,
    m2: Option<usize>,
    h1: bool,
    h2: bool,
    drp: bool,
)
    requires
        limit_within(m1, m2),
        h1 ==> h2,
        a.path@ == b.path@,
        tree_matches(fs, a, depth, m1, h1, drp),
        tree_matches(fs, b, depth, m2, h2, drp),
    ensures
        tree_cut(a, b, depth, m1, h1, drp),
    decreases b, 0nat,
{
    if !depth_reached(m1, depth as int) {
        assert(!depth_reached(m2, depth as int));
        lemma_cut_children(fs, a.children@, b.children@, (fs.entries)(a.path@), depth + 1, m1, m2, h1, h2, drp);
    }
}

proof fn lemma_cut_children(
    fs: FsModel,
    xs: Seq<TreeNode>,
    ys: Seq<TreeNode>,
    es: Seq<FsEntry>,
    depth: nat,
    m1: Option<usize>,
    m2: Option<usize>,
    h1: bool,
    h2: bool,
    drp: bool,
)
    requires
        limit_within(m1, m2),
        h1 ==> h2,
        children_match(fs, xs, es, depth, m1, h1, drp),
        children_match(fs, ys, es, depth, m2, h2, drp),
    ensures
        nodes_cut(xs, ys, depth, m1, h1, drp),
    decreases ys, es.len(),
{
    if es.len() > 0 {
        let e = es.last();
        assert(depth_reached(m2, depth as int) ==> depth_reached(m1, depth as int));
        if !listed(e, depth, m2, h2, drp) {
            assert(!listed(e, depth, m1, h1, drp));
            lemma_cut_children(fs, xs, ys, es.drop_last(), depth, m1, m2, h1, h2, drp);
        } else {
            let y = ys.last();
            assert(node_matches(fs, y, e, depth, m2, h2, drp));
            assert(node_name(y) == entry_name(e.path));
            if !listed(e, depth, m1, h1, drp) {
                lemma_cut_children(fs, xs, ys.drop_last(), es.drop_last(), depth, m1, m2, h1, h2, drp);
            } else {
                lemma_cut_node(fs, xs.last(), y, e, depth, m1, m2, h1, h2, drp);
                lemma_cut_children(
                    fs,
                    xs.drop_last(),
                    ys.drop_last(),
                    es.drop_last(),
                    depth,
                    m1,
                    m2,
                    h1,
                    h2,
                    drp,
                );
            }
        }
    }
}

proof fn lemma_cut_node(
    fs: FsModel,
    x: TreeNode,
    y: TreeNode,
    e: FsEntry,
    depth: nat,
    m1: Option<usize>,
    m2: Option<usize>,
    h1: bool,
    h2: bool,
    drp: bool,
)
    requires
        limit_within(m1, m2),
        h1 ==> h2,
        node_matches(fs, x, e, depth, m1, h1, drp),
        node_matches(fs, y, e, depth, m2, h2, drp),
    ensures
        node_cut(x, y, depth, m1, h1, drp),
    decreases y, 0nat,
{
    if let TreeNode::Directory(b) = y {
        if let TreeNode::Directory(a) = x {
            lemma_cut_tree(fs, a, b, depth, m1, m2, h1, h2, drp);
        }
    }
}

/// Crawls of one file system differ only by their settings: a crawl with a
/// tighter depth limit gives the looser crawl's tree emptied at the tighter
/// limit (and, where directories at the limit are left out, without them),
/// and a crawl that skips hidden entries gives the crawl that keeps them
/// without every hidden entry and what lies below it.
pub proof fn law_crawl_settings_cut(
    fs: FsModel,
    a: Directory,
    b: Directory,
    m1: Option<usize>,
    m2: Option<usize>,
    h1: bool,
    h2: bool,
    drop_at_limit: bool,
)
    requires
        limit_within(m1, m2),
        h1 ==> h2,
        a.path@ == b.path@,
        tree_matches(fs, a, 0, m1, h1, drop_at_limit),
        tree_matches(fs, b, 0, m2, h2, drop_at_limit),
    ensures
        tree_cut(a, b, 0, m1, h1, drop_at_limit),
{
    lemma_cut_tree(fs, a, b, 0, m1, m2, h1, h2, drop_at_limit);
}

} // verus!
