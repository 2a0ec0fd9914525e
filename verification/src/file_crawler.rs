use vstd::prelude::*;
use crate::crawler::{default_settings, with_depth, with_hidden, CrawlSettings, File};
use crate::crawl::{CrawlAction, CrawlSession, PhaseView, sound};
use crate::paths::{entry_name, is_hidden, is_hidden_name, path_entry_name};
use crate::units::{bytes_text, format_bytes};

verus! {

/// A directory found by a crawl, with its entries in the order they were found.
#[derive(Debug)]
pub struct Directory {
    pub path: String,
    pub name: String,
    pub is_hidden: bool,
    pub children: Vec<TreeNode>,
}

/// An entry of a crawled tree: a file or a directory.
#[derive(Debug)]
pub enum TreeNode {
    File(File),
    Directory(Directory),
}

/// The summed size of the files in a tree.
pub open spec fn node_size(n: TreeNode) -> nat
    decreases n,
{
    match n {
        TreeNode::File(f) => f.size as nat,
        TreeNode::Directory(d) => nodes_size(d.children@),
    }
}

/// The summed size of the files in some trees.
pub open spec fn nodes_size(ns: Seq<TreeNode>) -> nat
    decreases ns,
{
    if ns.len() == 0 {
        0
    } else {
        nodes_size(ns.drop_last()) + node_size(ns.last())
    }
}

/// The summed size of the files in a directory and in all directories below it.
pub open spec fn tree_dir_size(d: Directory) -> nat {
    nodes_size(d.children@)
}

proof fn lemma_nodes_size_step(ns: Seq<TreeNode>, i: int)
    requires
        0 <= i < ns.len(),
    ensures
        nodes_size(ns.take(i + 1)) == nodes_size(ns.take(i)) + node_size(ns[i]),
{
    assert(ns.take(i + 1).drop_last() =~= ns.take(i));
}

proof fn lemma_nodes_size_prefix(ns: Seq<TreeNode>, i: int)
    requires
        0 <= i <= ns.len(),
    ensures
        nodes_size(ns.take(i)) <= nodes_size(ns),
    decreases ns.len(),
{
    if i == ns.len() {
        assert(ns.take(i) =~= ns);
    } else {
        assert(ns.drop_last().take(i) =~= ns.take(i));
        lemma_nodes_size_prefix(ns.drop_last(), i);
    }
}

impl Directory {
    /// The summed size of the files in this directory and in all directories below it.
    pub fn total_size(&self) -> (t: u64)
        requires
            tree_dir_size(*self) <= u64::MAX,
        ensures
            t == tree_dir_size(*self),
        decreases self,
    {
        let mut total: u64 = 0;
        let mut i: usize = 0;
        while i < self.children.len()
            invariant
                i <= self.children@.len(),
                nodes_size(self.children@) <= u64::MAX,
                total == nodes_size(self.children@.take(i as int)),
            decreases self.children@.len() - i,
        {
            proof {
                lemma_nodes_size_step(self.children@, i as int);
                lemma_nodes_size_prefix(self.children@, i + 1);
            }
            let size = match &self.children[i] {
                TreeNode::File(f) => f.size,
                TreeNode::Directory(d) => d.total_size(),
            };
            total = total + size;
            i = i + 1;
        }
        proof {
            assert(self.children@.take(self.children@.len() as int) =~= self.children@);
        }
        total
    }

    /// The directory as text: its name with a trailing `/` and the total size
    /// of the files below it, as `name/ (total: 123B)`.
    pub fn describe(&self) -> (s: String)
        requires
            tree_dir_size(*self) <= u64::MAX,
        ensures
            s@ == self.name@ + "/ (total: "@ + bytes_text(tree_dir_size(*self) as u64) + seq![')'],
    {
        let mut s = self.name.clone();
        s.append("/ (total: ");
        let size = format_bytes(self.total_size());
        s.append(size.as_str());
        s.append(")");
        proof {
            reveal_strlit("/ (total: ");
            reveal_strlit(")");
        }
        s
    }
}

impl From<File> for TreeNode {
    fn from(f: File) -> (n: TreeNode) {
        TreeNode::File(f)
    }
}

impl vstd::std_specs::convert::FromSpecImpl<File> for TreeNode {
    open spec fn obeys_from_spec() -> bool {
        true
    }

    open spec fn from_spec(f: File) -> TreeNode {
        TreeNode::File(f)
    }
}

impl From<Directory> for TreeNode {
    fn from(d: Directory) -> (n: TreeNode) {
        TreeNode::Directory(d)
    }
}

impl vstd::std_specs::convert::FromSpecImpl<Directory> for TreeNode {
    open spec fn obeys_from_spec() -> bool {
        true
    }

    open spec fn from_spec(d: Directory) -> TreeNode {
        TreeNode::Directory(d)
    }
}

/// What a `DirectoryBuilder` holds so far.
pub struct TreeBuilderView {
    pub path: Seq<char>,
    pub name: Seq<char>,
    pub is_hidden: bool,
    pub children: Seq<TreeNode>,
}

/// Collects the entries of a directory, then builds the `Directory`.
pub struct DirectoryBuilder {
    path: String,
    name: String,
    is_hidden: bool,
    children: Vec<TreeNode>,
}

impl View for DirectoryBuilder {
    type V = TreeBuilderView;

    closed spec fn view(&self) -> TreeBuilderView {
        TreeBuilderView {
            path: self.path@,
            name: self.name@,
            is_hidden: self.is_hidden,
            children: self.children@,
        }
    }
}

impl DirectoryBuilder {
    /// An empty directory at `path`, named by the path's final component and
    /// hidden when that name starts with `.`.
    pub fn new(path: String) -> (b: DirectoryBuilder)
        ensures
            b@.path == path@,
            b@.name == entry_name(path@),
            b@.is_hidden == is_hidden_name(b@.name),
            b@.children.len() == 0,
    {
        let name = path_entry_name(path.as_str());
        let hidden = is_hidden(name.as_str());
        DirectoryBuilder { path, name, is_hidden: hidden, children: Vec::new() }
    }

    /// Adds an entry after those added so far.
    pub fn add_child(self, child: TreeNode) -> (b: DirectoryBuilder)
        ensures
            b@ == (TreeBuilderView { children: self@.children.push(child), ..self@ }),
    {
        let mut b = self;
        b.children.push(child);
        b
    }

    /// The directory with everything added so far.
    pub fn build(self) -> (d: Directory)
        ensures
            d.path@ == self@.path,
            d.name@ == self@.name,
            d.is_hidden == self@.is_hidden,
            d.children@ == self@.children,
    {
        Directory {
            path: self.path,
            name: self.name,
            is_hidden: self.is_hidden,
            children: self.children,
        }
    }
}

/// Crawls a directory tree.
pub trait FileCrawler {
    /// The depth limit of a crawl that is given `given`.
    spec fn depth_limit(&self, given: Option<usize>) -> Option<usize>;

    /// Starts a crawl of the tree at `root` with the depth limit that
    /// `depth_limit` gives for `max_depth`: directories at that depth or
    /// deeper (the root at 0) are not read, and directories found at that
    /// depth are left out; hidden entries are kept only if `include_hidden`.
    /// It first asks to probe `root`.
    fn crawl(&self, root: String, max_depth: Option<usize>, include_hidden: bool) -> (r: (
        CrawlSession,
        CrawlAction,
    ))
        ensures
            r.0@.max_depth == self.depth_limit(max_depth),
            r.0@.include_hidden == include_hidden,
            r.0@.drop_at_limit,
            r.0@.frames.len() == 0,
            r.0@.phase == PhaseView::Probing(root@),
            r.1 matches CrawlAction::Probe { path } && path@ == root@,
            sound(r.0@),
    ;
}

/// The file crawler of this library.
pub struct DefaultFileCrawler {
    max_depth: Option<usize>,
    include_hidden: bool,
}

impl View for DefaultFileCrawler {
    type V = CrawlSettings;

    closed spec fn view(&self) -> CrawlSettings {
        CrawlSettings { max_depth: self.max_depth, include_hidden: self.include_hidden }
    }
}

impl DefaultFileCrawler {
    /// A crawler with no depth limit that skips hidden entries.
    pub fn new() -> (c: DefaultFileCrawler)
        ensures
            c@ == default_settings(),
    {
        DefaultFileCrawler { max_depth: None, include_hidden: false }
    }

    /// The crawler with the depth limit `depth` set.
    pub fn with_max_depth(self, depth: usize) -> (c: DefaultFileCrawler)
        ensures
            c@ == with_depth(self@, depth),
    {
        let mut c = self;
        c.max_depth = Some(depth);
        c
    }

    /// The crawler with hidden entries kept if and only if `enabled`.
    pub fn include_hidden(self, enabled: bool) -> (c: DefaultFileCrawler)
        ensures
            c@ == with_hidden(self@, enabled),
    {
        let mut c = self;
        c.include_hidden = enabled;
        c
    }
}

impl Default for DefaultFileCrawler {
    fn default() -> (c: DefaultFileCrawler)
        ensures
            c@ == default_settings(),
    {
        DefaultFileCrawler::new()
    }
}

/// A depth limit given to a crawl is the one it uses, whatever limit the
/// crawler holds; the crawler's own limit is used only when none is given.
pub proof fn law_given_limit_overrides(c: DefaultFileCrawler, d: usize)
    ensures
        c.depth_limit(Some(d)) == Some(d),
        c.depth_limit(None) == c@.max_depth,
{
}

impl FileCrawler for DefaultFileCrawler {
    /// The limit given, or, where none is given, the crawler's own.
    open spec fn depth_limit(&self, given: Option<usize>) -> Option<usize> {
        match given {
            Some(d) => Some(d),
            None => self@.max_depth,
        }
    }

    fn crawl(&self, root: String, max_depth: Option<usize>, include_hidden: bool) -> (r: (
        CrawlSession,
        CrawlAction,
    )) {
        let limit = match max_depth {
            Some(d) => Some(d),
            None => self.max_depth,
        };
        CrawlSession::start(limit, include_hidden, true, root)
    }
}

} // verus!
