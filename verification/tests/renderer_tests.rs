use autodoc::crawler::{DirectoryBuilder, File};
use autodoc::tree_renderer::{render_directory_recursive, render_directory_tree};
use autodoc::units::format_bytes;

#[test]
fn test_render_simple_tree() {
    let file1 = File {
        path: "file1.txt".into(),
        name: "file1.txt".to_string(),
        size: 100,
        is_hidden: false,
    };

    let dir = DirectoryBuilder::new("test".into()).add_file(file1).build();

    let rendered = render_directory_tree(&dir, false);
    assert_eq!(rendered, "test/\n    ├── file1.txt\n");
}

#[test]
fn test_render_with_sizes() {
    let file1 = File {
        path: "file1.txt".into(),
        name: "file1.txt".to_string(),
        size: 100,
        is_hidden: false,
    };

    let dir = DirectoryBuilder::new("test".into()).add_file(file1).build();

    let rendered = render_directory_tree(&dir, true);
    assert_eq!(rendered, "test/ (100B)\n    ├── file1.txt (100B)\n");
}

#[test]
fn render_nested_tree_indents_subdirectories() {
    let inner = DirectoryBuilder::new("a/b".into())
        .add_file(File::new("a/b/c.rs".into(), 5))
        .build();
    let outer = DirectoryBuilder::new("a".into())
        .add_file(File::new("a/x".into(), 1))
        .add_subdirectory(inner)
        .build();
    assert_eq!(
        render_directory_tree(&outer, true),
        "a/ (6B)\n    ├── x (1B)\n    b/ (5B)\n        ├── c.rs (5B)\n"
    );
    assert_eq!(render_directory_tree(&outer, false), "a/\n    ├── x\n    b/\n        ├── c.rs\n");
}

#[test]
fn format_bytes_examples() {
    assert_eq!(format_bytes(0), "0B");
    assert_eq!(format_bytes(100), "100B");
    assert_eq!(format_bytes(1234567), "1234567B");
    assert_eq!(format_bytes(u64::MAX), "18446744073709551615B");
}

#[test]
fn render_at_depth_indents_every_line_and_sizes_only_add_suffixes() {
    let inner = DirectoryBuilder::new("a/b".into()).add_file(File::new("a/b/c.rs".into(), 5)).build();
    let outer = DirectoryBuilder::new("a".into()).add_file(File::new("a/x".into(), 1)).add_subdirectory(inner).build();
    let flat = render_directory_tree(&outer, false);
    let mut deep = String::from("prefix|");
    render_directory_recursive(&outer, 2, &mut deep, false);
    let indented: String = flat.lines().map(|l| format!("        {}\n", l)).collect();
    assert_eq!(deep, format!("prefix|{}", indented));

    let sized = render_directory_tree(&outer, true);
    let plain: Vec<&str> = flat.lines().collect();
    let with: Vec<&str> = sized.lines().collect();
    assert_eq!(plain.len(), with.len());
    let suffixes = [" (6B)", " (1B)", " (5B)", " (5B)"];
    for i in 0..plain.len() {
        assert_eq!(with[i], format!("{}{}", plain[i], suffixes[i]));
    }
}
