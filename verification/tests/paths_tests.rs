use vault::paths::{file_extension, strip_path_prefix};

#[test]
fn extension_of_ordinary_names() {
    assert_eq!(file_extension("a.png"), Some("png".to_string()));
    assert_eq!(file_extension("dir/sub/archive.tar.gz"), Some("gz".to_string()));
    assert_eq!(file_extension("A.PNG"), Some("PNG".to_string()));
}

#[test]
fn extension_absent_cases() {
    assert_eq!(file_extension("README"), None);
    assert_eq!(file_extension(""), None);
    assert_eq!(file_extension(".gitignore"), None);
    assert_eq!(file_extension("dir/.hidden"), None);
    // A dot in a directory name is not an extension of the file.
    assert_eq!(file_extension("v1.2/notes"), None);
}

#[test]
fn extension_trailing_dot_is_empty() {
    assert_eq!(file_extension("name."), Some(String::new()));
}

#[test]
fn strip_prefix_under_root() {
    assert_eq!(
        strip_path_prefix("/srv/pics", "/srv/pics/a/b.png"),
        Some("a/b.png".to_string())
    );
    assert_eq!(
        strip_path_prefix("/srv/pics/", "/srv/pics/a.png"),
        Some("a.png".to_string())
    );
    assert_eq!(strip_path_prefix("", "a.png"), Some("a.png".to_string()));
    assert_eq!(
        strip_path_prefix("C:\\pics", "C:\\pics\\a.png"),
        Some("a.png".to_string())
    );
}

#[test]
fn strip_prefix_outside_root() {
    assert_eq!(strip_path_prefix("/srv/pics", "/srv/other/a.png"), None);
    // A sibling directory sharing the prefix text is not under the root.
    assert_eq!(strip_path_prefix("/srv/pics", "/srv/pics2/a.png"), None);
    assert_eq!(strip_path_prefix("/srv/pics", "/srv"), None);
}
