use bark::cli::{resolve_roots, Cli, Commands, TagArgs};

#[test]
fn tag_args_default_matches_the_command_line_defaults() {
    let a = TagArgs::default();
    assert_eq!(a.output, "tree.txt");
    assert_eq!(a.backup_dir, ".bark_backups");
    assert_eq!(a.threads, 0);
    assert!(a.roots.is_empty());
    assert!(!a.dry_run && !a.force && !a.no_tree);
}

#[test]
fn no_command_means_tag() {
    let cli = Cli { command: None, verbose: false, config: None };
    match cli.into_command() {
        Commands::Tag(a) => assert_eq!(a.output, "tree.txt"),
        _ => panic!("expected tag"),
    }
}

#[test]
fn roots_default_to_current_directory() {
    assert_eq!(resolve_roots(&Vec::new()), vec!["."]);
    let given = vec!["a".to_string(), "b".to_string()];
    assert_eq!(resolve_roots(&given), given);
}
