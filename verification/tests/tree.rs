use bark::tree::{name_less, node_less, sort_entries, TreeGenerator, TreeNode};

fn generator() -> TreeGenerator {
    TreeGenerator::new(
        "/p".to_string(),
        "/p/.barks".to_string(),
        "/p/bark.txt".to_string(),
        vec![
            "/p".to_string(),
            "/p/src".to_string(),
            "/p/src/main.rs".to_string(),
            "/p/dist".to_string(),
            "/p/bark.txt".to_string(),
            "/p/.barks".to_string(),
        ],
        &["dist/**".to_string(), "dist".to_string()],
    )
}

#[test]
fn should_include_rules() {
    let g = generator();
    assert!(g.should_include("/p/src"));
    assert!(g.should_include("/p/src/main.rs"));
    assert!(!g.should_include("/p/bark.txt"));
    assert!(!g.should_include("/p/.barks"));
    assert!(!g.should_include("/p/dist"));
    // not admitted by the ignore files
    assert!(!g.should_include("/p/target"));
}

#[test]
fn names_sort_by_characters() {
    assert!(name_less("a", "b"));
    assert!(name_less("Z", "a"));
    assert!(name_less("ab", "abc"));
    assert!(!name_less("b", "a"));
    assert!(!name_less("a", "a"));
}

#[test]
fn render_tree_layout() {
    let g = generator();
    let src = TreeNode::dir(
        "src".to_string(),
        vec![
            TreeNode::file("main.rs".to_string()),
            TreeNode::file("lib.rs".to_string()),
        ],
    );
    let out = g.render(vec![
        TreeNode::file("README.md".to_string()),
        src,
        TreeNode::file("Cargo.toml".to_string()),
    ]);
    assert_eq!(
        out,
        ".\n├── src/\n│   ├── lib.rs\n│   └── main.rs\n├── Cargo.toml\n└── README.md\n"
    );
}

#[test]
fn render_nested_prefixes() {
    let g = generator();
    let inner = TreeNode::dir("b".to_string(), vec![TreeNode::file("x".to_string())]);
    let a = TreeNode::dir("a".to_string(), vec![inner]);
    let out = g.render(vec![a, TreeNode::file("z".to_string())]);
    assert_eq!(
        out,
        ".\n├── a/\n│   └── b/\n│       └── x\n└── z\n"
    );
}

#[test]
fn render_empty_tree() {
    assert_eq!(generator().render(vec![]), ".\n");
}

#[test]
fn sort_entries_is_stable_by_name() {
    let v = sort_entries(vec![
        TreeNode::file("b".to_string()),
        TreeNode::file("a".to_string()),
        TreeNode::file("c".to_string()),
    ]);
    let names: Vec<&str> = v.iter().map(|n| n.name.as_str()).collect();
    assert_eq!(names, vec!["a", "b", "c"]);
}

#[test]
fn directories_come_before_files() {
    let v = sort_entries(vec![
        TreeNode::file("Cargo.toml".to_string()),
        TreeNode::dir("tests".to_string(), vec![]),
        TreeNode::file("README.md".to_string()),
        TreeNode::dir("src".to_string(), vec![]),
    ]);
    let names: Vec<&str> = v.iter().map(|n| n.name.as_str()).collect();
    assert_eq!(names, vec!["src", "tests", "Cargo.toml", "README.md"]);
    assert!(node_less(&TreeNode::dir("z".to_string(), vec![]), &TreeNode::file("a".to_string())));
    assert!(!node_less(&TreeNode::file("a".to_string()), &TreeNode::dir("z".to_string(), vec![])));
}

#[test]
fn render_matches_readme_example() {
    let g = generator();
    let src = TreeNode::dir(
        "src".to_string(),
        vec![TreeNode::file("main.rs".to_string()), TreeNode::file("cli.rs".to_string())],
    );
    let tests = TreeNode::dir("tests".to_string(), vec![TreeNode::file("integration.rs".to_string())]);
    let out = g.render(vec![
        TreeNode::file("README.md".to_string()),
        tests,
        TreeNode::file("Cargo.toml".to_string()),
        src,
    ]);
    assert_eq!(
        out,
        ".\n├── src/\n│   ├── cli.rs\n│   └── main.rs\n├── tests/\n│   └── integration.rs\n├── Cargo.toml\n└── README.md\n"
    );
}
