use bark::config::{Config, CustomExtension, CustomFilename};
use bark::header::CommentStyle;
use bark::walker::{is_binary_content, is_own_output, is_path_excluded, Walker};

fn walker_with(config: Config) -> Walker {
    Walker::new(
        ".".to_string(),
        config,
        "tree.txt".to_string(),
        ".barks".to_string(),
    )
}

#[test]
fn is_excluded_dir_glob() {
    assert!(is_path_excluded("dist/foo.js", &["dist/**".to_string()]));
    assert!(is_path_excluded(
        "node_modules/lodash/index.js",
        &["node_modules/**".to_string()]
    ));
}

#[test]
fn is_excluded_wildcard_ext() {
    assert!(is_path_excluded("app.min.js", &["*.min.*".to_string()]));
    assert!(is_path_excluded(
        "vendor.bundle.js",
        &["*.bundle.*".to_string()]
    ));
}

#[test]
fn is_excluded_no_match() {
    let patterns = vec!["target/**".to_string(), "dist/**".to_string()];
    assert!(!is_path_excluded("src/main.rs", &patterns));
    assert!(!is_path_excluded("README.md", &patterns));
}

#[test]
fn is_excluded_empty_patterns() {
    assert!(!is_path_excluded("src/main.rs", &[]));
}

#[test]
fn is_excluded_subdir_filename_match() {
    // File in subdir: full path doesn't match *.min.* but filename does
    assert!(is_path_excluded(
        "subdir/app.min.js",
        &["*.min.*".to_string()]
    ));
    assert!(is_path_excluded(
        "deep/nested/vendor.bundle.js",
        &["*.bundle.*".to_string()]
    ));
}

#[test]
fn is_excluded_by_file_name_only() {
    // `main.rs` matches the file name of `src/main.rs`, not the whole path.
    assert!(is_path_excluded("src/main.rs", &["main.rs".to_string()]));
    assert!(!is_path_excluded("src/main.rs", &["lib.rs".to_string()]));
}

#[test]
fn is_excluded_invalid_pattern_matches_nothing() {
    assert!(!is_path_excluded("a[b", &["a[b".to_string()]));
}

#[test]
fn resolve_style_custom_overrides_builtin() {
    let mut config = Config::default();
    config.extensions.custom = vec![CustomExtension {
        ext: "rs".to_string(),
        style: "hash".to_string(),
    }];
    let walker = walker_with(config);
    // .rs normally maps to Slash; custom override sets it to Hash
    assert_eq!(walker.resolve_style("rs"), Some(CommentStyle::Hash));
}

#[test]
fn resolve_style_builtin_fallthrough() {
    let walker = walker_with(Config::default());
    assert_eq!(walker.resolve_style("go"), Some(CommentStyle::Slash));
    assert_eq!(walker.resolve_style("py"), Some(CommentStyle::Hash));
    assert_eq!(walker.resolve_style("xyz"), None);
}

#[test]
fn resolve_style_custom_css_and_html() {
    let mut config = Config::default();
    config.extensions.custom = vec![
        CustomExtension {
            ext: "mytml".to_string(),
            style: "html".to_string(),
        },
        CustomExtension {
            ext: "mystyle".to_string(),
            style: "css".to_string(),
        },
        CustomExtension {
            ext: "myunknown".to_string(),
            style: "invalid".to_string(),
        },
    ];
    let walker = walker_with(config);
    assert_eq!(walker.resolve_style("mytml"), Some(CommentStyle::Html));
    assert_eq!(walker.resolve_style("mystyle"), Some(CommentStyle::Css));
    assert_eq!(walker.resolve_style("myunknown"), None); // invalid style → None
}

#[test]
fn resolve_filename_style_custom_html_and_css() {
    let mut config = Config::default();
    config.extensions.filenames = vec![
        CustomFilename {
            name: "Jenkinsfile".to_string(),
            style: "hash".to_string(),
        },
        CustomFilename {
            name: "Appfile".to_string(),
            style: "slash".to_string(),
        },
        CustomFilename {
            name: "Webfile".to_string(),
            style: "html".to_string(),
        },
        CustomFilename {
            name: "Cssfile".to_string(),
            style: "css".to_string(),
        },
        CustomFilename {
            name: "Weirdfile".to_string(),
            style: "invalid".to_string(),
        },
    ];
    let walker = walker_with(config);
    assert_eq!(
        walker.resolve_filename_style("jenkinsfile"),
        Some(CommentStyle::Hash)
    );
    assert_eq!(
        walker.resolve_filename_style("appfile"),
        Some(CommentStyle::Slash)
    );
    assert_eq!(
        walker.resolve_filename_style("webfile"),
        Some(CommentStyle::Html)
    );
    assert_eq!(
        walker.resolve_filename_style("cssfile"),
        Some(CommentStyle::Css)
    );
    assert_eq!(walker.resolve_filename_style("weirdfile"), None);
}

#[test]
fn builtin_filenames_are_hash_style() {
    let walker = walker_with(Config::default());
    assert_eq!(
        walker.resolve_filename_style("makefile"),
        Some(CommentStyle::Hash)
    );
    assert_eq!(
        walker.resolve_filename_style("dockerfile"),
        Some(CommentStyle::Hash)
    );
    assert_eq!(walker.resolve_filename_style("readme"), None);
}

#[test]
fn style_for_by_extension_and_name() {
    let walker = walker_with(Config::default());
    assert_eq!(walker.style_for("src/main.rs"), Some(CommentStyle::Slash));
    // the extension is lower-cased before lookup
    assert_eq!(walker.style_for("App.TS"), Some(CommentStyle::Slash));
    assert_eq!(walker.style_for("Makefile"), Some(CommentStyle::Hash));
    // the file name is lower-cased too
    assert_eq!(walker.style_for("DOCKERFILE"), Some(CommentStyle::Hash));
    assert_eq!(walker.style_for("README.md"), None);
    assert_eq!(walker.style_for("file.xyz123"), None);
    // excluded by the default patterns
    assert_eq!(walker.style_for("target/debug/build.rs"), None);
    assert_eq!(walker.style_for("web/app.min.js"), None);
}

#[test]
fn style_for_skip_lists() {
    let mut config = Config::default();
    config.extensions.skip = vec!["rs".to_string()];
    config.extensions.filename_skip = vec!["makefile".to_string()];
    let walker = walker_with(config);
    assert_eq!(walker.style_for("hello.rs"), None);
    assert_eq!(walker.style_for("Makefile"), None);
    assert_eq!(walker.style_for("main.go"), Some(CommentStyle::Slash));
}

#[test]
fn entry_for_applies_size_and_content_checks() {
    let mut config = Config::default();
    config.general.max_file_size = 512;
    let walker = walker_with(config);
    let ok = walker.entry_for(
        "/p/a.rs".to_string(),
        "a.rs".to_string(),
        Some(10),
        b"fn main() {}\n",
    );
    let e = ok.expect("a small text file is taken");
    assert_eq!(e.rel_path, "a.rs");
    assert_eq!(e.abs_path, "/p/a.rs");
    assert_eq!(e.style, CommentStyle::Slash);
    assert!(walker
        .entry_for("/p/big.rs".to_string(), "big.rs".to_string(), Some(2048), b"x")
        .is_none());
    assert!(walker
        .entry_for("/p/bin.rs".to_string(), "bin.rs".to_string(), Some(4), b"ab\0c")
        .is_none());
    assert!(walker
        .entry_for("/p/u.rs".to_string(), "u.rs".to_string(), None, b"")
        .is_some());
}

#[test]
fn binary_content_rules() {
    assert!(!is_binary_content(b""));
    assert!(!is_binary_content("plain text ☔".as_bytes()));
    assert!(is_binary_content(b"abc\0def"));
    assert!(is_binary_content(b"%PDF-1.7"));
    assert!(is_binary_content(b"\x89PNG\r\n"));
    // a byte-order mark makes it text even with zero bytes
    assert!(!is_binary_content(b"\xFF\xFEa\0b\0"));
    // zero bytes after the first 1024 are not looked at
    let mut late = vec![b'a'; 1024];
    late.push(0);
    assert!(!is_binary_content(&late));
}

#[test]
fn own_output_and_backup_files() {
    assert!(is_own_output("/p/bark.txt", "/p/bark.txt", "/p/.barks"));
    assert!(is_own_output("/p/.barks/src/a.rs.1.bak", "/p/bark.txt", "/p/.barks"));
    assert!(!is_own_output("/p/.barksx/a.rs", "/p/bark.txt", "/p/.barks"));
    assert!(!is_own_output("/p/src/a.rs", "/p/bark.txt", "/p/.barks"));
}
