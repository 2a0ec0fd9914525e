use autodoc::paths::{is_hidden, path_entry_name, path_file_name};

#[test]
fn file_names_of_paths() {
    assert_eq!(path_file_name("src"), Some(String::from("src")));
    assert_eq!(path_file_name("a/b/c.txt"), Some(String::from("c.txt")));
    assert_eq!(path_file_name("/usr/lib/"), Some(String::from("lib")));
    assert_eq!(path_file_name("a//b/./"), Some(String::from("b")));
    assert_eq!(path_file_name("./x"), Some(String::from("x")));
    assert_eq!(path_file_name("/"), None);
    assert_eq!(path_file_name("."), None);
    assert_eq!(path_file_name(""), None);
    assert_eq!(path_file_name("a/.."), None);
    assert_eq!(path_entry_name("a/.."), "");
}

#[test]
fn hidden_names() {
    assert!(is_hidden(".git"));
    assert!(!is_hidden("git"));
    assert!(!is_hidden(""));
}

#[test]
fn file_names_agree_with_std_paths() {
    for p in ["src", "a/b/c.txt", "/usr/lib/", "a//b/./", "./x", "/", ".", "", "a/..", "..", ".hidden", "x/.y/"] {
        let ours = path_file_name(p);
        let theirs = std::path::Path::new(p).file_name().map(|n| n.to_string_lossy().into_owned());
        assert_eq!(ours, theirs, "path {:?}", p);
    }
}
