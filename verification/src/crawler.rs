use vstd::prelude::*;
use crate::paths::{entry_name, is_hidden, is_hidden_name, path_entry_name};
use crate::units::{bytes_text, decimal, format_bytes, push_decimal};
use crate::crawl::{depth_reached, takes, CrawlAction, CrawlSession, EntryKind, PhaseView, sound};
use crate::file_crawler::{node_size, nodes_size, tree_dir_size, TreeNode};

verus! {

/// A file found by a crawl.
#[derive(Debug, Clone)]
pub struct File {
    pub path: String,
    pub name: String,
    pub size: u64,
    pub is_hidden: bool,
}

impl File {
    /// The name and the hidden flag are those that the path gives.
    pub open spec fn well_formed(&self) -> bool {
        &&& self.name@ == entry_name(self.path@)
        &&& self.is_hidden == is_hidden_name(self.name@)
    }

    /// A file at `path` whose size, read from the file system, is `size`.
    pub fn new(path: String, size: u64) -> (f: File)
        ensures
            f.path@ == path@,
            f.size == size,
            f.well_formed(),
    {
        let name = path_entry_name(path.as_str());
        let hidden = is_hidden(name.as_str());
        File { path, name, size, is_hidden: hidden }
    }

    /// The file as text: its name and its size in bytes, as `name (123B)`.
    pub fn describe(&self) -> (s: String)
        ensures
            s@ == self.name@ + seq![' ', '('] + decimal(self.size as nat) + seq!['B', ')'],
    {
        let mut s = self.name.clone();
        s.append(" (");
        push_decimal(&mut s, self.size);
        s.append("B)");
        proof {
            reveal_strlit(" (");
            reveal_strlit("B)");
        }
        s
    }
}

/// The summed size of some files.
pub open spec fn files_size(files: Seq<File>) -> nat
    decreases files.len(),
{
    if files.len() == 0 {
        0
    } else {
        files_size(files.drop_last()) + files.last().size as nat
    }
}

/// A directory found by a crawl, with the files and the directories directly in it.
#[derive(Debug)]
pub struct Directory {
    pub path: String,
    pub name: String,
    pub is_hidden: bool,
    pub files: Vec<File>,
    pub subdirectories: Vec<Directory>,
}

/// The number of files in a directory and in all directories below it.
pub open spec fn dir_file_count(d: Directory) -> nat
    decreases d,
{
    d.files@.len() + dirs_file_count(d.subdirectories@)
}

/// The number of files in some directories and in all directories below them.
pub open spec fn dirs_file_count(ds: Seq<Directory>) -> nat
    decreases ds,
{
    if ds.len() == 0 {
        0
    } else {
        dirs_file_count(ds.drop_last()) + dir_file_count(ds.last())
    }
}

/// The summed size of the files in a directory and in all directories below it.
pub open spec fn dir_size(d: Directory) -> nat
    decreases d,
{
    files_size(d.files@) + dirs_size(d.subdirectories@)
}

/// The summed size of the files in some directories and in all directories below them.
pub open spec fn dirs_size(ds: Seq<Directory>) -> nat
    decreases ds,
{
    if ds.len() == 0 {
        0
    } else {
        dirs_size(ds.drop_last()) + dir_size(ds.last())
    }
}


proof fn lemma_files_size_step(files: Seq<File>, i: int)
    requires
        0 <= i < files.len(),
    ensures
        files_size(files.take(i + 1)) == files_size(files.take(i)) + files[i].size,
{
    assert(files.take(i + 1).drop_last() =~= files.take(i));
}

proof fn lemma_files_size_prefix(files: Seq<File>, i: int)
    requires
        0 <= i <= files.len(),
    ensures
        files_size(files.take(i)) <= files_size(files),
    decreases files.len(),
{
    if i == files.len() {
        assert(files.take(i) =~= files);
    } else {
        assert(files.drop_last().take(i) =~= files.take(i));
        lemma_files_size_prefix(files.drop_last(), i);
    }
}

proof fn lemma_dirs_size_step(ds: Seq<Directory>, i: int)
    requires
        0 <= i < ds.len(),
    ensures
        dirs_size(ds.take(i + 1)) == dirs_size(ds.take(i)) + dir_size(ds[i]),
{
    assert(ds.take(i + 1).drop_last() =~= ds.take(i));
}

proof fn lemma_dirs_size_prefix(ds: Seq<Directory>, i: int)
    requires
        0 <= i <= ds.len(),
    ensures
        dirs_size(ds.take(i)) <= dirs_size(ds),
    decreases ds.len(),
{
    if i == ds.len() {
        assert(ds.take(i) =~= ds);
    } else {
        assert(ds.drop_last().take(i) =~= ds.take(i));
        lemma_dirs_size_prefix(ds.drop_last(), i);
    }
}

proof fn lemma_dirs_count_step(ds: Seq<Directory>, i: int)
    requires
        0 <= i < ds.len(),
    ensures
        dirs_file_count(ds.take(i + 1)) == dirs_file_count(ds.take(i)) + dir_file_count(ds[i]),
{
    assert(ds.take(i + 1).drop_last() =~= ds.take(i));
}

proof fn lemma_dirs_count_prefix(ds: Seq<Directory>, i: int)
    requires
        0 <= i <= ds.len(),
    ensures
        dirs_file_count(ds.take(i)) <= dirs_file_count(ds),
    decreases ds.len(),
{
    if i == ds.len() {
        assert(ds.take(i) =~= ds);
    } else {
        assert(ds.drop_last().take(i) =~= ds.take(i));
        lemma_dirs_count_prefix(ds.drop_last(), i);
    }
}

/// The summed size of `files`.
pub fn sum_file_sizes(files: &Vec<File>) -> (t: u64)
    requires
        files_size(files@) <= u64::MAX,
    ensures
        t == files_size(files@),
{
    let mut total: u64 = 0;
    let mut i: usize = 0;
    while i < files.len()
        invariant
            i <= files@.len(),
            files_size(files@) <= u64::MAX,
            total == files_size(files@.take(i as int)),
        decreases files@.len() - i,
    {
        proof {
            lemma_files_size_step(files@, i as int);
            lemma_files_size_prefix(files@, i + 1);
        }
        total = total + files[i].size;
        i = i + 1;
    }
    proof {
        assert(files@.take(files@.len() as int) =~= files@);
    }
    total
}

impl Directory {
    /// The number of files in this directory and in all directories below it.
    pub fn total_files(&self) -> (n: usize)
        requires
            dir_file_count(*self) <= usize::MAX,
        ensures
            n == dir_file_count(*self),
        decreases self,
    {
        let mut total: usize = self.files.len();
        let mut i: usize = 0;
        while i < self.subdirectories.len()
            invariant
                i <= self.subdirectories@.len(),
                dir_file_count(*self) <= usize::MAX,
                total == self.files@.len() + dirs_file_count(self.subdirectories@.take(i as int)),
            decreases self.subdirectories@.len() - i,
        {
            proof {
                lemma_dirs_count_step(self.subdirectories@, i as int);
                lemma_dirs_count_prefix(self.subdirectories@, i + 1);
            }
            let n = self.subdirectories[i].total_files();
            total = total + n;
            i = i + 1;
        }
        proof {
            assert(self.subdirectories@.take(self.subdirectories@.len() as int)
                =~= self.subdirectories@);
        }
        total
    }

    /// The summed size of the files in this directory and in all directories below it.
    pub fn total_size(&self) -> (t: u64)
        requires
            dir_size(*self) <= u64::MAX,
        ensures
            t == dir_size(*self),
        decreases self,
    {
        let mut total: u64 = sum_file_sizes(&self.files);
        let mut i: usize = 0;
        while i < self.subdirectories.len()
            invariant
                i <= self.subdirectories@.len(),
                dir_size(*self) <= u64::MAX,
                total == files_size(self.files@) + dirs_size(self.subdirectories@.take(i as int)),
            decreases self.subdirectories@.len() - i,
        {
            proof {
                lemma_dirs_size_step(self.subdirectories@, i as int);
                lemma_dirs_size_prefix(self.subdirectories@, i + 1);
            }
            let t = self.subdirectories[i].total_size();
            total = total + t;
            i = i + 1;
        }
        proof {
            assert(self.subdirectories@.take(self.subdirectories@.len() as int)
                =~= self.subdirectories@);
        }
        total
    }
}


impl Directory {
    /// The directory as text: its name with a trailing `/` and the total size
    /// of the files below it, as `name/ (total: 123B)`.
    pub fn describe(&self) -> (s: String)
        requires
            dir_size(*self) <= u64::MAX,
        ensures
            s@ == self.name@ + "/ (total: "@ + bytes_text(dir_size(*self) as u64) + seq![')'],
    {
        let mut s = self.name.clone();
        s.append("/ (total: ");
        let size = format_bytes(self.total_size());
        s.append(size.as_str());
        s.append(")");
        proof {
            reveal_strlit("/ (total: ");
            reveal_strlit(")");
        }
        s
    }
}

/// The total size of a directory is at least the summed size of the files
/// directly in it.
pub proof fn law_total_size_covers_direct_files(d: Directory)
    ensures
        dir_size(d) >= files_size(d.files@),
{
}

/// The number of files below a directory is at least the number of files
/// directly in it.
pub proof fn law_total_files_covers_direct_files(d: Directory)
    ensures
        dir_file_count(d) >= d.files@.len(),
{
}

/// What a `DirectoryBuilder` holds so far.
pub struct BuilderView {
    pub path: Seq<char>,
    pub name: Seq<char>,
    pub is_hidden: bool,
    pub files: Seq<File>,
    pub subdirectories: Seq<Directory>,
}

/// Collects the contents of a directory, then builds the `Directory`.
pub struct DirectoryBuilder {
    path: String,
    name: String,
    is_hidden: bool,
    files: Vec<File>,
    subdirectories: Vec<Directory>,
}

impl View for DirectoryBuilder {
    type V = BuilderView;

    closed spec fn view(&self) -> BuilderView {
        BuilderView {
            path: self.path@,
            name: self.name@,
            is_hidden: self.is_hidden,
            files: self.files@,
            subdirectories: self.subdirectories@,
        }
    }
}

impl DirectoryBuilder {
    /// An empty directory at `path`, named by the path's final component and
    /// hidden when that name starts with `.`.
    pub fn new(path: String) -> (b: DirectoryBuilder)
        ensures
            b@.path == path@,
            b@.name == entry_name(path@),
            b@.is_hidden == is_hidden_name(b@.name),
            b@.files.len() == 0,
            b@.subdirectories.len() == 0,
    {
        let name = path_entry_name(path.as_str());
        let hidden = is_hidden(name.as_str());
        DirectoryBuilder {
            path,
            name,
            is_hidden: hidden,
            files: Vec::new(),
            subdirectories: Vec::new(),
        }
    }

    /// Adds a file after those added so far.
    pub fn add_file(self, file: File) -> (b: DirectoryBuilder)
        ensures
            b@ == (BuilderView { files: self@.files.push(file), ..self@ }),
    {
        let mut b = self;
        b.files.push(file);
        b
    }

    /// Adds a subdirectory after those added so far.
    pub fn add_subdirectory(self, directory: Directory) -> (b: DirectoryBuilder)
        ensures
            b@ == (BuilderView { subdirectories: self@.subdirectories.push(directory), ..self@ }),
    {
        let mut b = self;
        b.subdirectories.push(directory);
        b
    }

    /// The directory with everything added so far.
    pub fn build(self) -> (d: Directory)
        ensures
            d.path@ == self@.path,
            d.name@ == self@.name,
            d.is_hidden == self@.is_hidden,
            d.files@ == self@.files,
            d.subdirectories@ == self@.subdirectories,
    {
        Directory {
            path: self.path,
            name: self.name,
            is_hidden: self.is_hidden,
            files: self.files,
            subdirectories: self.subdirectories,
        }
    }
}

/// The settings of a crawler: how deep it reads and whether it keeps hidden entries.
pub struct CrawlSettings {
    pub max_depth: Option<usize>,
    pub include_hidden: bool,
}

/// The settings of a new crawler: no depth limit, hidden entries skipped.
pub open spec fn default_settings() -> CrawlSettings {
    CrawlSettings { max_depth: None, include_hidden: false }
}

/// `s` with the depth limit `depth`.
pub open spec fn with_depth(s: CrawlSettings, depth: usize) -> CrawlSettings {
    CrawlSettings { max_depth: Some(depth), ..s }
}

/// `s` keeping hidden entries if and only if `enabled`.
pub open spec fn with_hidden(s: CrawlSettings, enabled: bool) -> CrawlSettings {
    CrawlSettings { include_hidden: enabled, ..s }
}

/// The last depth limit set wins, the last hidden-entry setting wins, the two
/// setters leave each other's setting alone and so commute, and a new crawler
/// already skips hidden entries.
pub proof fn law_settings(s: CrawlSettings, a: usize, b: usize, x: bool, y: bool)
    ensures
        with_depth(with_depth(s, a), b) == with_depth(s, b),
        with_hidden(with_hidden(s, x), y) == with_hidden(s, y),
        with_hidden(with_depth(s, a), x) == with_depth(with_hidden(s, x), a),
        with_depth(with_depth(s, a), a) == with_depth(s, a),
        with_hidden(with_hidden(s, x), x) == with_hidden(s, x),
        with_hidden(default_settings(), false) == default_settings(),
{
}

/// A new crawler has no depth limit and skips hidden entries: the limit is
/// reached at no depth, so a crawl with it reads directories at every depth,
/// and it takes every file or directory whose name is not hidden, wherever
/// it is found.
pub proof fn law_new_crawler_reads_every_depth(
    path: Seq<char>,
    kind: EntryKind,
    depth: int,
    drop_at_limit: bool,
)
    ensures
        default_settings().max_depth is None,
        !default_settings().include_hidden,
        !depth_reached(default_settings().max_depth, depth),
        !(kind is Other) ==> (takes(
            path,
            kind,
            depth,
            default_settings().max_depth,
            default_settings().include_hidden,
            drop_at_limit,
        ) <==> !is_hidden_name(entry_name(path))),
{
}

/// Crawls a directory tree into a `Directory`.
pub struct Crawler {
    max_depth: Option<usize>,
    include_hidden: bool,
}

impl View for Crawler {
    type V = CrawlSettings;

    closed spec fn view(&self) -> CrawlSettings {
        CrawlSettings { max_depth: self.max_depth, include_hidden: self.include_hidden }
    }
}

impl Crawler {
    /// A crawler with no depth limit that skips hidden entries.
    pub fn new() -> (c: Crawler)
        ensures
            c@ == default_settings(),
    {
        Crawler { max_depth: None, include_hidden: false }
    }

    /// The crawler with the depth limit `depth`: directories at that depth
    /// (the root at 0) or deeper are not read.
    pub fn with_max_depth(self, depth: usize) -> (c: Crawler)
        ensures
            c@ == with_depth(self@, depth),
    {
        let mut c = self;
        c.max_depth = Some(depth);
        c
    }

    /// The crawler that keeps hidden entries if and only if `enabled`.
    pub fn include_hidden(self, enabled: bool) -> (c: Crawler)
        ensures
            c@ == with_hidden(self@, enabled),
    {
        let mut c = self;
        c.include_hidden = enabled;
        c
    }

    /// Starts a crawl of the tree at `path` with this crawler's settings; it
    /// first asks to probe `path`. The tree it finishes with becomes a
    /// `Directory` through `Directory::from_tree`.
    pub fn crawl(&self, path: String) -> (r: (CrawlSession, CrawlAction))
        ensures
            r.0@.max_depth == self@.max_depth,
            r.0@.include_hidden == self@.include_hidden,
            !r.0@.drop_at_limit,
            r.0@.frames.len() == 0,
            r.0@.phase == PhaseView::Probing(path@),
            r.1 matches CrawlAction::Probe { path: p } && p@ == path@,
            sound(r.0@),
    {
        CrawlSession::start(self.max_depth, self.include_hidden, false, path)
    }
}

impl Default for Crawler {
    fn default() -> (c: Crawler)
        ensures
            c@ == default_settings(),
    {
        Crawler::new()
    }
}

/// The files among some entries, in order.
pub open spec fn files_of(ns: Seq<TreeNode>) -> Seq<File>
    decreases ns.len(),
{
    if ns.len() == 0 {
        Seq::empty()
    } else {
        let r = files_of(ns.drop_last());
        match ns.last() {
            TreeNode::File(f) => r.push(f),
            TreeNode::Directory(_) => r,
        }
    }
}

/// `cd` holds what the tree directory `td` holds, its entries split into
/// files and subdirectories, each kept in order.
pub open spec fn converts(cd: Directory, td: crate::file_crawler::Directory) -> bool
    decreases td, 1nat,
{
    &&& cd.path@ == td.path@
    &&& cd.name@ == td.name@
    &&& cd.is_hidden == td.is_hidden
    &&& cd.files@ == files_of(td.children@)
    &&& converts_all(cd.subdirectories@, td.children@)
}

/// `cds` are the subdirectories among the entries `ns`, each converted, in order.
pub open spec fn converts_all(cds: Seq<Directory>, ns: Seq<TreeNode>) -> bool
    decreases ns, 0nat,
{
    if ns.len() == 0 {
        cds.len() == 0
    } else {
        match ns.last() {
            TreeNode::File(_) => converts_all(cds, ns.drop_last()),
            TreeNode::Directory(td) => {
                &&& cds.len() > 0
                &&& converts(cds.last(), td)
                &&& converts_all(cds.drop_last(), ns.drop_last())
            },
        }
    }
}

impl Directory {
    /// The directory that a crawled tree directory gives, its entries split
    /// into files and subdirectories.
    pub fn from_tree(td: crate::file_crawler::Directory) -> (cd: Directory)
        ensures
            converts(cd, td),
        decreases td,
    {
        let ghost all = td.children@;
        let crate::file_crawler::Directory { path, name, is_hidden, children } = td;
        let mut rest = children;
        let mut files: Vec<File> = Vec::new();
        let mut subdirectories: Vec<Directory> = Vec::new();
        let ghost mut i: int = 0;
        proof {
            assert(all.take(0) =~= Seq::<TreeNode>::empty());
            assert(all.skip(0) =~= all);
        }
        while rest.len() > 0
            invariant
                0 <= i <= all.len(),
                all == td.children@,
                rest@ == all.skip(i),
                files@ == files_of(all.take(i)),
                converts_all(subdirectories@, all.take(i)),
            decreases rest@.len(),
        {
            let child = rest.remove(0);
            proof {
                assert(child == all[i]);
                assert(all.take(i + 1).drop_last() =~= all.take(i));
                assert(rest@ =~= all.skip(i + 1));
            }
            match child {
                TreeNode::File(f) => {
                    files.push(f);
                },
                TreeNode::Directory(sub) => {
                    let ghost before = subdirectories@;
                    let c = Directory::from_tree(sub);
                    subdirectories.push(c);
                    proof {
                        assert(subdirectories@.drop_last() =~= before);
                    }
                },
            }
            proof {
                i = i + 1;
            }
        }
        proof {
            assert(all.take(i) =~= all);
        }
        Directory { path, name, is_hidden, files, subdirectories }
    }
}

proof fn lemma_files_size_push(files: Seq<File>, f: File)
    ensures
        files_size(files.push(f)) == files_size(files) + f.size,
{
    assert(files.push(f).drop_last() =~= files);
}

/// A tree directory and the directory it converts to hold files of the same total size.
pub proof fn law_conversion_keeps_size(cd: Directory, td: crate::file_crawler::Directory)
    requires
        converts(cd, td),
    ensures
        dir_size(cd) == tree_dir_size(td),
    decreases td, 1nat,
{
    law_conversion_keeps_sizes(cd.subdirectories@, td.children@);
}

/// Split entries and the entries they come from hold files of the same total size.
pub proof fn law_conversion_keeps_sizes(cds: Seq<Directory>, ns: Seq<TreeNode>)
    requires
        converts_all(cds, ns),
    ensures
        files_size(files_of(ns)) + dirs_size(cds) == nodes_size(ns),
    decreases ns, 0nat,
{
    if ns.len() > 0 {
        match ns.last() {
            TreeNode::File(f) => {
                law_conversion_keeps_sizes(cds, ns.drop_last());
                lemma_files_size_push(files_of(ns.drop_last()), f);
                assert(files_of(ns) == files_of(ns.drop_last()).push(f));
                assert(node_size(ns.last()) == f.size);
            },
            TreeNode::Directory(td) => {
                law_conversion_keeps_sizes(cds.drop_last(), ns.drop_last());
                law_conversion_keeps_size(cds.last(), td);
                assert(files_of(ns) == files_of(ns.drop_last()));
                assert(node_size(ns.last()) == nodes_size(td.children@));
                assert(dirs_size(cds) == dirs_size(cds.drop_last()) + dir_size(cds.last()));
            },
        }
    }
}

proof fn lemma_nodes_cover_files(ns: Seq<TreeNode>)
    ensures
        nodes_size(ns) >= files_size(files_of(ns)),
    decreases ns.len(),
{
    if ns.len() > 0 {
        lemma_nodes_cover_files(ns.drop_last());
        match ns.last() {
            TreeNode::File(f) => {
                lemma_files_size_push(files_of(ns.drop_last()), f);
                assert(files_of(ns) == files_of(ns.drop_last()).push(f));
                assert(node_size(ns.last()) == f.size);
            },
            TreeNode::Directory(_) => {
                assert(files_of(ns) == files_of(ns.drop_last()));
            },
        }
        assert(nodes_size(ns) == nodes_size(ns.drop_last()) + node_size(ns.last()));
    }
}

/// The total size of a crawled tree directory is at least the summed size of
/// the files directly in it.
pub proof fn law_tree_total_covers_direct_files(d: crate::file_crawler::Directory)
    ensures
        tree_dir_size(d) >= files_size(files_of(d.children@)),
{
    lemma_nodes_cover_files(d.children@);
}

} // verus!
