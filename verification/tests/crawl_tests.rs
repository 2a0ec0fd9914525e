use autodoc::crawl::{CrawlAction, CrawlError, CrawlEvent, CrawlSession, EntryKind, IoKind};
use autodoc::crawler::{Crawler, Directory, DirectoryBuilder, File};
use autodoc::file_crawler::{self, DefaultFileCrawler, FileCrawler, TreeNode};

/// A file system held in memory: each entry is a path with the size of the
/// file there, or no size for a directory.
struct FakeFs {
    entries: Vec<(&'static str, Option<u64>)>,
}

impl FakeFs {
    /// A crate's directory: `Cargo.toml`, and in `src` the library's sources,
    /// a hidden file and a subdirectory.
    fn crate_dir() -> FakeFs {
        FakeFs {
            entries: vec![
                (".", None),
                ("./Cargo.toml", Some(312)),
                ("./src", None),
                ("./tests", None),
                ("./tests/crawl_tests.rs", Some(9000)),
                ("Cargo.toml", Some(312)),
                ("src", None),
                ("src/lib.rs", Some(150)),
                ("src/text.rs", Some(1900)),
                ("src/units.rs", Some(2600)),
                ("src/paths.rs", Some(7100)),
                ("src/crawler.rs", Some(16000)),
                ("src/file_crawler.rs", Some(9800)),
                ("src/crawl.rs", Some(23000)),
                ("src/tree_renderer.rs", Some(7900)),
                ("src/autodoc.rs", Some(10500)),
                ("src/plan.rs", Some(21000)),
                ("src/.notes", Some(12)),
                ("src/nested", None),
                ("src/nested/mod.rs", Some(120)),
            ],
        }
    }

    /// A small tree with hidden entries and nested directories.
    fn demo() -> FakeFs {
        FakeFs {
            entries: vec![
                ("demo", None),
                ("demo/a.txt", Some(10)),
                ("demo/.env", Some(5)),
                ("demo/.git", None),
                ("demo/.git/HEAD", Some(20)),
                ("demo/sub", None),
                ("demo/sub/b.txt", Some(30)),
                ("demo/sub/deeper", None),
                ("demo/sub/deeper/c.txt", Some(40)),
            ],
        }
    }

    fn lookup(&self, path: &str) -> Option<Option<u64>> {
        self.entries.iter().find(|(p, _)| *p == path).map(|(_, s)| *s)
    }

    fn children(&self, dir: &str) -> Vec<(String, EntryKind)> {
        let prefix = format!("{}/", dir);
        self.entries
            .iter()
            .filter(|(p, _)| p.starts_with(&prefix) && !p[prefix.len()..].contains('/'))
            .map(|(p, s)| (p.to_string(), if s.is_some() { EntryKind::File } else { EntryKind::Directory }))
            .collect()
    }

    /// Answers each action of a crawl until the crawl ends.
    fn drive(&self, mut session: CrawlSession, first: CrawlAction) -> Result<file_crawler::Directory, CrawlError> {
        let mut open: Vec<std::vec::IntoIter<(String, EntryKind)>> = Vec::new();
        let mut action = first;
        loop {
            let event = match action {
                CrawlAction::Probe { path } => match self.lookup(&path) {
                    None => CrawlEvent::Probed { exists: false, is_dir: false },
                    Some(size) => CrawlEvent::Probed { exists: true, is_dir: size.is_none() },
                },
                CrawlAction::Open { path } => {
                    open.push(self.children(&path).into_iter());
                    CrawlEvent::Opened
                }
                CrawlAction::ReadEntry => match open.last_mut().and_then(|entries| entries.next()) {
                    None => {
                        open.pop();
                        CrawlEvent::EndOfDirectory
                    }
                    Some((path, kind)) => CrawlEvent::Entry { path, kind },
                },
                CrawlAction::Measure { path } => match self.lookup(&path) {
                    Some(Some(size)) => CrawlEvent::Measured { size },
                    _ => CrawlEvent::Failed { io_kind: IoKind::NotFound, message: format!("cannot read {}", path) },
                },
                CrawlAction::Finished { root } => return Ok(root),
                CrawlAction::Stopped { error } => return Err(error),
            };
            assert!(session.accepts(&event));
            action = session.step(event);
        }
    }

    fn crawl(&self, crawler: &Crawler, path: &str) -> Result<Directory, CrawlError> {
        let (session, first) = crawler.crawl(String::from(path));
        self.drive(session, first).map(Directory::from_tree)
    }

    fn crawl_tree(
        &self,
        crawler: &DefaultFileCrawler,
        path: &str,
        max_depth: Option<usize>,
        include_hidden: bool,
    ) -> Result<TreeNode, CrawlError> {
        let (session, first) = crawler.crawl(String::from(path), max_depth, include_hidden);
        self.drive(session, first).map(TreeNode::from)
    }

    /// The file at `path`, with the size the file system holds for it.
    fn file(&self, path: &str) -> File {
        let size = self.lookup(path).flatten().expect("Failed to create File");
        File::new(String::from(path), size)
    }
}

#[test]
fn test_file_creation() {
    let file = FakeFs::crate_dir().file("Cargo.toml");

    assert_eq!(file.name, "Cargo.toml");
    assert!(!file.is_hidden);
    assert!(file.size > 0);
}

#[test]
fn test_crawler_basic() {
    let crawler = Crawler::new();
    let directory = FakeFs::crate_dir().crawl(&crawler, "src").expect("Failed to crawl directory");

    assert_eq!(directory.name, "src");
    assert!(directory.files.len() > 0);
    assert!(directory.total_files() >= 4);
}

#[test]
fn test_directory_totals() {
    let crawler = Crawler::new();
    let directory = FakeFs::crate_dir().crawl(&crawler, "src").expect("Failed to crawl directory");

    let total_files = directory.total_files();
    let total_size = directory.total_size();

    assert!(total_files > 0);
    assert!(total_size > 0);

    let direct_files_size: u64 = directory.files.iter().map(|f| f.size).sum();
    assert!(total_size >= direct_files_size);
}

#[test]
fn test_file_node_creation() {
    let file = FakeFs::crate_dir().file("Cargo.toml");
    let node = TreeNode::from(file);

    if let TreeNode::File(f) = node {
        assert_eq!(f.name, "Cargo.toml");
        assert!(!f.is_hidden);
        assert!(f.size > 0);
    } else {
        panic!("Expected File variant");
    }
}

#[test]
fn test_crawler_returns_directory_node() {
    let crawler = DefaultFileCrawler::new();
    let result = FakeFs::crate_dir().crawl_tree(&crawler, "src", None, true).expect("Failed to crawl directory");

    if let TreeNode::Directory(directory) = result {
        assert_eq!(directory.name, "src");
        assert!(directory.children.len() > 0);
        let file_count = directory.children.iter().filter(|n| matches!(n, TreeNode::File(_))).count();
        assert!(file_count >= 4);
    } else {
        panic!("Expected Directory variant");
    }
}

#[test]
fn test_crawler_with_max_depth() {
    let crawler = DefaultFileCrawler::new().with_max_depth(1);
    let result = FakeFs::crate_dir().crawl_tree(&crawler, "src", None, true).expect("Failed to crawl directory");

    if let TreeNode::Directory(directory) = result {
        assert!(directory.children.len() > 0);
        let dir_count = directory.children.iter().filter(|n| matches!(n, TreeNode::Directory(_))).count();
        assert_eq!(dir_count, 0);
    } else {
        panic!("Expected Directory variant");
    }
}

#[test]
fn test_crawler_error_cases() {
    let crawler = DefaultFileCrawler::new();
    let fs = FakeFs::crate_dir();

    assert!(fs.crawl_tree(&crawler, "nonexistent", None, true).is_err());
    assert!(fs.crawl_tree(&crawler, "Cargo.toml", None, true).is_err());
}

#[test]
fn test_hidden_file_handling() {
    let crawler = DefaultFileCrawler::new().include_hidden(false);
    let result = FakeFs::crate_dir().crawl_tree(&crawler, "src", None, false).expect("Failed to crawl directory");

    if let TreeNode::Directory(directory) = result {
        let hidden_count = directory
            .children
            .iter()
            .filter_map(|n| match n {
                TreeNode::File(f) => Some(f.is_hidden),
                _ => None,
            })
            .filter(|&h| h)
            .count();
        assert_eq!(hidden_count, 0);
    } else {
        panic!("Expected Directory variant");
    }
}

#[test]
fn tests_test_directory_totals() {
    let crawler = DefaultFileCrawler::new();
    let result = FakeFs::crate_dir().crawl_tree(&crawler, "src", None, true).expect("Failed to crawl directory");

    if let TreeNode::Directory(directory) = result {
        let total_size = directory.total_size();
        assert!(total_size > 0);

        let direct_files_size: u64 = directory
            .children
            .iter()
            .filter_map(|n| match n {
                TreeNode::File(f) => Some(f.size),
                _ => None,
            })
            .sum();
        assert!(total_size >= direct_files_size);
    } else {
        panic!("Expected Directory variant");
    }
}

#[test]
fn crawl_errors_carry_their_messages() {
    let crawler = Crawler::new();
    let fs = FakeFs::crate_dir();
    match fs.crawl(&crawler, "no/such/dir") {
        Err(e) => {
            assert!(matches!(e, CrawlError::NotFound { .. }));
            assert_eq!(e.kind(), IoKind::NotFound);
            assert_eq!(e.message(), "Path 'no/such/dir' does not exist");
        }
        Ok(_) => panic!("expected an error"),
    }
    match fs.crawl(&crawler, "Cargo.toml") {
        Err(e) => {
            assert!(matches!(e, CrawlError::NotADirectory { .. }));
            assert_eq!(e.kind(), IoKind::InvalidInput);
            assert_eq!(e.message(), "Path 'Cargo.toml' is not a directory");
        }
        Ok(_) => panic!("expected an error"),
    }
}

#[test]
fn hidden_entries_skipped_unless_asked_for() {
    let fs = FakeFs::demo();
    let skipping = fs.crawl(&Crawler::new(), "demo").expect("crawl");
    let names: Vec<&str> = skipping.files.iter().map(|f| f.name.as_str()).collect();
    assert_eq!(names, vec!["a.txt"]);
    let subs: Vec<&str> = skipping.subdirectories.iter().map(|d| d.name.as_str()).collect();
    assert_eq!(subs, vec!["sub"]);
    assert_eq!(skipping.total_files(), 3);
    assert_eq!(skipping.total_size(), 80);

    let keeping = fs.crawl(&Crawler::new().include_hidden(true), "demo").expect("crawl");
    let names: Vec<&str> = keeping.files.iter().map(|f| f.name.as_str()).collect();
    assert_eq!(names, vec!["a.txt", ".env"]);
    assert!(keeping.files[1].is_hidden);
    assert_eq!(keeping.subdirectories[0].name, ".git");
    assert!(keeping.subdirectories[0].is_hidden);
    assert_eq!(keeping.total_files(), 5);
    assert_eq!(keeping.total_size(), 105);
}

#[test]
fn depth_limit_leaves_deep_directories_empty() {
    let fs = FakeFs::demo();
    let d0 = fs.crawl(&Crawler::new().with_max_depth(0), "demo").expect("crawl");
    assert_eq!(d0.files.len(), 0);
    assert_eq!(d0.subdirectories.len(), 0);

    let d1 = fs.crawl(&Crawler::new().with_max_depth(1), "demo").expect("crawl");
    assert_eq!(d1.files.len(), 1);
    assert_eq!(d1.subdirectories.len(), 1);
    assert_eq!(d1.subdirectories[0].files.len(), 0);
    assert_eq!(d1.subdirectories[0].subdirectories.len(), 0);

    let d2 = fs.crawl(&Crawler::new().with_max_depth(2), "demo").expect("crawl");
    let sub = &d2.subdirectories[0];
    assert_eq!(sub.files.len(), 1);
    assert_eq!(sub.subdirectories[0].name, "deeper");
    assert_eq!(sub.subdirectories[0].files.len(), 0);
}

#[test]
fn tree_crawl_keeps_entry_order_and_agrees_with_split_crawl() {
    let fs = FakeFs::demo();
    let tree = fs.crawl_tree(&DefaultFileCrawler::new(), "demo", None, true).expect("crawl");
    let root = match tree {
        TreeNode::Directory(d) => d,
        _ => panic!("Expected Directory variant"),
    };
    let kinds: Vec<bool> = root.children.iter().map(|n| matches!(n, TreeNode::File(_))).collect();
    assert_eq!(kinds, vec![true, true, false, false]);
    assert_eq!(root.total_size(), 105);
    let split = Directory::from_tree(root);
    assert_eq!(split.total_size(), 105);
    assert_eq!(split.files.len(), 2);
    assert_eq!(split.subdirectories.len(), 2);
}

#[test]
fn crawl_session_step_by_step() {
    let (mut s, a) = CrawlSession::start(None, false, false, String::from("root"));
    assert!(matches!(a, CrawlAction::Probe { ref path } if path == "root"));
    let a = s.step(CrawlEvent::Probed { exists: true, is_dir: true });
    assert!(matches!(a, CrawlAction::Open { ref path } if path == "root"));
    assert!(!s.accepts(&CrawlEvent::EndOfDirectory));
    let a = s.step(CrawlEvent::Opened);
    assert!(matches!(a, CrawlAction::ReadEntry));
    let a = s.step(CrawlEvent::Entry { path: String::from("root/.hidden"), kind: EntryKind::File });
    assert!(matches!(a, CrawlAction::ReadEntry));
    let a = s.step(CrawlEvent::Entry { path: String::from("root/a.txt"), kind: EntryKind::File });
    assert!(matches!(a, CrawlAction::Measure { ref path } if path == "root/a.txt"));
    let a = s.step(CrawlEvent::Measured { size: 7 });
    assert!(matches!(a, CrawlAction::ReadEntry));
    let a = s.step(CrawlEvent::Entry { path: String::from("root/link"), kind: EntryKind::Other });
    assert!(matches!(a, CrawlAction::ReadEntry));
    let a = s.step(CrawlEvent::Entry { path: String::from("root/sub"), kind: EntryKind::Directory });
    assert!(matches!(a, CrawlAction::Probe { ref path } if path == "root/sub"));
    let a = s.step(CrawlEvent::Probed { exists: true, is_dir: true });
    assert!(matches!(a, CrawlAction::Open { .. }));
    let a = s.step(CrawlEvent::Opened);
    assert!(matches!(a, CrawlAction::ReadEntry));
    let a = s.step(CrawlEvent::EndOfDirectory);
    assert!(matches!(a, CrawlAction::ReadEntry));
    match s.step(CrawlEvent::EndOfDirectory) {
        CrawlAction::Finished { root } => {
            assert_eq!(root.name, "root");
            assert_eq!(root.children.len(), 2);
            assert_eq!(root.total_size(), 7);
        }
        _ => panic!("expected the crawl to finish"),
    }
}

#[test]
fn crawl_io_failure_stops() {
    let (mut s, _) = CrawlSession::start(Some(3), true, true, String::from("r"));
    s.step(CrawlEvent::Probed { exists: true, is_dir: true });
    match s.step(CrawlEvent::Failed { io_kind: IoKind::PermissionDenied, message: String::from("permission denied") }) {
        CrawlAction::Stopped { error } => {
            assert_eq!(error.message(), "permission denied");
            assert_eq!(error.kind(), IoKind::PermissionDenied);
        }
        _ => panic!("expected the crawl to stop"),
    }
}

#[test]
fn builder_keeps_order_of_files_and_subdirectories() {
    let a = File::new(String::from("d/a.txt"), 3);
    let b = File::new(String::from("d/.b"), 4);
    let sub = DirectoryBuilder::new(String::from("d/sub")).add_file(File::new(String::from("d/sub/c"), 5)).build();
    let d = DirectoryBuilder::new(String::from("d/")).add_file(a).add_subdirectory(sub).add_file(b).build();
    assert_eq!(d.name, "d");
    assert_eq!(d.path, "d/");
    let names: Vec<&str> = d.files.iter().map(|f| f.name.as_str()).collect();
    assert_eq!(names, vec!["a.txt", ".b"]);
    assert!(d.files[1].is_hidden);
    assert_eq!(d.subdirectories[0].name, "sub");
    assert_eq!(d.total_files(), 3);
    assert_eq!(d.total_size(), 12);
}

#[test]
fn file_crawler_limit_given_overrides_its_own() {
    let fs = FakeFs::demo();
    let crawler = DefaultFileCrawler::new().with_max_depth(0);
    let own = fs.crawl_tree(&crawler, "demo", None, false).expect("crawl");
    match own {
        TreeNode::Directory(d) => assert_eq!(d.children.len(), 0),
        _ => panic!("Expected Directory variant"),
    }
    let given = fs.crawl_tree(&crawler, "demo", Some(2), false).expect("crawl");
    match given {
        TreeNode::Directory(d) => {
            assert_eq!(d.children.len(), 2);
            match &d.children[1] {
                TreeNode::Directory(sub) => {
                    assert_eq!(sub.name, "sub");
                    let names: Vec<bool> = sub.children.iter().map(|n| matches!(n, TreeNode::File(_))).collect();
                    assert_eq!(names, vec![true]);
                }
                _ => panic!("Expected Directory variant"),
            }
        }
        _ => panic!("Expected Directory variant"),
    }
}

#[test]
fn crawler_settings_last_wins_and_commute() {
    let fs = FakeFs::demo();
    let a = fs.crawl(&Crawler::new().with_max_depth(0).with_max_depth(1), "demo").expect("crawl");
    let b = fs.crawl(&Crawler::new().with_max_depth(1), "demo").expect("crawl");
    assert_eq!(a.total_files(), b.total_files());
    assert_eq!(a.subdirectories.len(), b.subdirectories.len());
    let c = fs.crawl(&Crawler::new().include_hidden(true).with_max_depth(1), "demo").expect("crawl");
    let d = fs.crawl(&Crawler::new().with_max_depth(1).include_hidden(true), "demo").expect("crawl");
    assert_eq!(c.total_files(), d.total_files());
    assert_eq!(c.total_size(), d.total_size());
    let e = fs.crawl(&Crawler::default(), "demo").expect("crawl");
    let f = fs.crawl(&Crawler::new().include_hidden(false), "demo").expect("crawl");
    assert_eq!(e.total_files(), f.total_files());
}
