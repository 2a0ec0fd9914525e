use autodoc::crawler::{DirectoryBuilder, File};
use autodoc::file_crawler::{self, TreeNode};

#[test]
fn test_directory_builder() {
    let builder = DirectoryBuilder::new(String::from("src"));
    let directory = builder.build();

    assert_eq!(directory.name, "src");
    assert!(!directory.is_hidden);
    assert_eq!(directory.files.len(), 0);
    assert_eq!(directory.subdirectories.len(), 0);
}

#[test]
fn test_directory_node_creation() {
    let builder = file_crawler::DirectoryBuilder::new(String::from("src"));
    let directory = builder.build();
    let node = TreeNode::from(directory);

    if let TreeNode::Directory(d) = node {
        assert_eq!(d.name, "src");
        assert!(!d.is_hidden);
        assert_eq!(d.children.len(), 0);
    } else {
        panic!("Expected Directory variant");
    }
}

#[test]
fn hidden_directory_builder() {
    let d = DirectoryBuilder::new(String::from("/home/u/.git")).build();
    assert_eq!(d.name, ".git");
    assert!(d.is_hidden);
}

#[test]
fn file_and_directory_describe() {
    let f = File::new(String::from("x/file1.txt"), 100);
    assert_eq!(f.describe(), "file1.txt (100B)");
    let d = DirectoryBuilder::new(String::from("test")).add_file(f).build();
    assert_eq!(d.describe(), "test/ (total: 100B)");
}

#[test]
fn tree_directory_totals_and_describe() {
    let d = file_crawler::DirectoryBuilder::new(String::from("test"))
        .add_child(TreeNode::from(File::new(String::from("test/a"), 40)))
        .add_child(TreeNode::from(
            file_crawler::DirectoryBuilder::new(String::from("test/sub"))
                .add_child(TreeNode::from(File::new(String::from("test/sub/b"), 60)))
                .build(),
        ))
        .build();
    assert_eq!(d.total_size(), 100);
    assert_eq!(d.describe(), "test/ (total: 100B)");
}
