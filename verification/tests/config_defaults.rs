use bark::config::keys_are_unique;
use bark::config::{Config, ExcludeConfig, WatchConfig};

#[test]
fn config_defaults() {
    let c = Config::default();
    assert_eq!(c.general.output, "bark.txt");
    assert_eq!(c.general.backup_dir, ".barks");
    assert_eq!(c.general.max_file_size, 1_048_576);
    assert!(c.general.backup);
    assert_eq!(c.template.default, "File: {{file}}");
    assert_eq!(c.template.date_format, "%Y-%m-%d");
    assert!(!c.exclude.patterns.is_empty());
}

#[test]
fn watch_config_defaults() {
    let c = WatchConfig::default();
    assert_eq!(c.debounce_ms, 500);
    assert!(c.ignore.is_empty());
}

#[test]
fn exclude_config_defaults() {
    let c = ExcludeConfig::default();
    assert!(c.patterns.contains(&"*.min.*".to_string()));
    assert!(c.patterns.contains(&"target/**".to_string()));
}

#[test]
fn default_exclude_patterns_in_order() {
    let c = ExcludeConfig::default();
    assert_eq!(
        c.patterns,
        vec![
            "*.min.*",
            "*.bundle.*",
            "dist/**",
            "build/**",
            "node_modules/**",
            "vendor/**",
            "target/**"
        ]
    );
    assert!(c.header_skip.is_empty());
}

#[test]
fn extensions_default_to_nothing_extra() {
    let c = Config::default();
    assert!(c.extensions.custom.is_empty());
    assert!(c.extensions.skip.is_empty());
    assert!(c.extensions.filenames.is_empty());
    assert!(c.extensions.filename_skip.is_empty());
    assert!(c.template.variables.is_empty());
    assert!(c.template.overrides.is_empty());
    assert_eq!(c.watch.debounce_ms, 500);
}

#[test]
fn rwc_default_config_toml_content() {
    let toml = bark::default_config_toml();
    assert!(toml.contains("[general]"));
    assert!(toml.contains("[template]"));
    assert!(toml.contains("[exclude]"));
    assert!(toml.contains("{{file}}"));
}

#[test]
fn default_config_toml_matches_defaults() {
    let toml = bark::default_config_toml();
    assert!(toml.contains("output        = \"bark.txt\""));
    assert!(toml.contains("backup_dir    = \".barks\""));
    assert!(toml.contains("header_skip = []"));
    assert!(toml.contains("filename_skip = []"));
    assert!(toml.contains("debounce_ms = 500"));
}

#[test]
fn search_paths_walk_upward_then_home() {
    let v = Config::search_paths("/home/ann/proj", Some("/home/ann"));
    assert_eq!(
        v,
        vec![
            "/home/ann/proj/.bark.toml",
            "/home/ann/.bark.toml",
            "/home/.bark.toml",
            "/.bark.toml",
            "/home/ann/.config/bark/config.toml"
        ]
    );
}

#[test]
fn search_paths_relative_start_without_home() {
    let v = Config::search_paths("a/b", None);
    assert_eq!(v, vec!["a/b/.bark.toml", "a/.bark.toml", ".bark.toml"]);
    let root = Config::search_paths("/", None);
    assert_eq!(root, vec!["/.bark.toml"]);
}

#[test]
fn template_pairs_with_distinct_names() {
    let v = vec![("author".to_string(), "A".to_string()), ("team".to_string(), "T".to_string())];
    assert!(keys_are_unique(&v));
    let w = vec![("author".to_string(), "A".to_string()), ("author".to_string(), "B".to_string())];
    assert!(!keys_are_unique(&w));
    assert!(keys_are_unique(&Vec::new()));
}
