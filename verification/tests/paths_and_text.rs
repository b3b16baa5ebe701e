use bark::paths::{extension, file_name, file_stem, same_path, strip_prefix, to_slashes};
use bark::text::{str_replace, trim_chars, usize_to_string};

#[test]
fn file_name_rules() {
    assert_eq!(file_name("src/main.rs"), Some("main.rs".to_string()));
    assert_eq!(file_name("src/"), Some("src".to_string()));
    assert_eq!(file_name("a/./"), Some("a".to_string()));
    assert_eq!(file_name("/"), None);
    assert_eq!(file_name("."), None);
    assert_eq!(file_name("a/.."), None);
    assert_eq!(file_name(""), None);
}

#[test]
fn stem_and_extension_rules() {
    assert_eq!(file_stem("src/main.rs"), Some("main".to_string()));
    assert_eq!(extension("src/main.rs"), Some("rs".to_string()));
    assert_eq!(file_stem("a.tar.gz"), Some("a.tar".to_string()));
    assert_eq!(extension("a.tar.gz"), Some("gz".to_string()));
    assert_eq!(file_stem(".gitignore"), Some(".gitignore".to_string()));
    assert_eq!(extension(".gitignore"), None);
    assert_eq!(file_stem("Makefile"), Some("Makefile".to_string()));
    assert_eq!(extension("Makefile"), None);
    assert_eq!(extension("a."), Some("".to_string()));
    assert_eq!(file_stem("a."), Some("a".to_string()));
    assert_eq!(extension("/"), None);
}

#[test]
fn strip_prefix_and_same_path() {
    assert_eq!(strip_prefix("/p/src/a.rs", "/p"), Some("src/a.rs".to_string()));
    assert_eq!(strip_prefix("/p/src/a.rs", "/"), Some("p/src/a.rs".to_string()));
    assert_eq!(strip_prefix("/p", "/p"), Some("".to_string()));
    assert_eq!(strip_prefix("/pq/a", "/p"), None);
    assert!(same_path("/a//b/", "/a/b"));
    assert!(!same_path("/a/b", "a/b"));
}

#[test]
fn text_helpers() {
    assert_eq!(to_slashes("a\\b\\c"), "a/b/c");
    assert_eq!(str_replace("aXbXc", "X", "--"), "a--b--c");
    assert_eq!(str_replace("aaa", "aa", "b"), "ba");
    // an empty pattern matches around every character, as in std
    assert_eq!(str_replace("ab", "", "X"), "XaXbX");
    assert_eq!(str_replace("", "", "X"), "X");
    assert_eq!(trim_chars(&[' ', 'a', '\t', 'b', '\n']), vec!['a', '\t', 'b']);
    assert_eq!(usize_to_string(0), "0");
    assert_eq!(usize_to_string(1024), "1024");
}
