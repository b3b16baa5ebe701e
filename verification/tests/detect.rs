use bark::detect::{detect_from_markers, generate_config, ProjectKind, ProjectMarkers};

fn no_markers() -> ProjectMarkers {
    ProjectMarkers {
        package_json: false,
        tsconfig_json: false,
        go_mod: false,
        cargo_toml: false,
        terraform_dir: false,
        tf_file: false,
        dockerfile: false,
        compose_yml: false,
        compose_yaml: false,
    }
}

#[test]
fn generate_config_empty_includes_all_common_excludes() {
    let s = generate_config(&[]);
    assert!(s.contains("[general]"));
    assert!(s.contains("node_modules/**"));
    assert!(s.contains("vendor/**"));
    assert!(s.contains("target/**"));
    assert!(s.contains("dist/**"));
    assert!(s.contains("coverage/**"));
}

#[test]
fn generate_config_rust_adds_target_exactly_once() {
    let s = generate_config(&[ProjectKind::Rust]);
    assert!(s.contains("# Rust project detected"));
    assert_eq!(s.matches("\"target/**\"").count(), 1);
}

#[test]
fn generate_config_non_rust_still_adds_target() {
    let s = generate_config(&[ProjectKind::Docker]);
    assert!(s.contains("\"target/**\""));
}

#[test]
fn generate_config_go_adds_vendor() {
    let s = generate_config(&[ProjectKind::Go]);
    assert!(s.contains("\"vendor/**\""));
    assert!(s.contains("# Go project detected"));
}

#[test]
fn generate_config_go_adds_dist_when_react_absent() {
    let s = generate_config(&[ProjectKind::Go]);
    assert!(s.contains("\"dist/**\""));
}

#[test]
fn generate_config_react_adds_node_modules_and_header_skip() {
    let s = generate_config(&[ProjectKind::React]);
    assert!(s.contains("node_modules/**"));
    assert!(s.contains("# React / TypeScript project detected"));
    assert!(s.contains("\"*.md\""));
    assert!(s.contains("\"*.mdx\""));
}

#[test]
fn generate_config_typescript_same_as_react_block() {
    let s = generate_config(&[ProjectKind::TypeScript]);
    assert!(s.contains("# React / TypeScript project detected"));
    assert!(s.contains("node_modules/**"));
}

#[test]
fn generate_config_terraform_adds_dot_terraform() {
    let s = generate_config(&[ProjectKind::Terraform]);
    assert!(s.contains(".terraform/**"));
    assert!(s.contains("# Terraform project detected"));
}

#[test]
fn generate_config_docker_adds_comment() {
    let s = generate_config(&[ProjectKind::Docker]);
    assert!(s.contains("# Docker project detected"));
}

#[test]
fn generate_config_react_and_go_no_duplicate_dist() {
    let s = generate_config(&[ProjectKind::React, ProjectKind::Go]);
    assert_eq!(
        s.matches("\"dist/**\"").count(),
        1,
        "dist/** should not be duplicated when React is present"
    );
}

#[test]
fn generate_config_empty_no_project_comments() {
    let s = generate_config(&[]);
    assert!(!s.contains("# Rust project detected"));
    assert!(!s.contains("# Go project detected"));
    assert!(!s.contains("# React"));
}

#[test]
fn generate_config_output_is_valid_toml_structure() {
    let s = generate_config(&[ProjectKind::Rust, ProjectKind::Go]);
    assert!(s.contains("[general]"));
    assert!(s.contains("[template]"));
    assert!(s.contains("[exclude]"));
    assert!(s.contains("[watch]"));
}

#[test]
fn generate_config_rust_exact_patterns_block() {
    let s = generate_config(&[ProjectKind::Rust]);
    assert!(s.starts_with("# Rust project detected\n[general]\n"));
    assert!(s.contains(
        "patterns = [\n    \"*.min.*\",\n    \"*.bundle.*\",\n    \"target/**\",\n]\nheader_skip = []\n"
    ));
    assert!(s.ends_with("ignore      = []\n"));
}

#[test]
fn generate_config_empty_lists_target_twice() {
    // With nothing detected, target/** comes once as the non-Rust default
    // and once in the generic set.
    let s = generate_config(&[]);
    assert_eq!(s.matches("\"target/**\"").count(), 2);
    assert!(s.starts_with("[general]\n"));
}

#[test]
fn generate_config_web_header_skip_list() {
    let s = generate_config(&[ProjectKind::React, ProjectKind::TypeScript]);
    assert!(s.contains("header_skip = [\"*.md\", \"*.mdx\"]"));
    assert_eq!(s.matches("# React / TypeScript project detected").count(), 1);
}

#[test]
fn detect_from_markers_none() {
    assert!(detect_from_markers(no_markers()).is_empty());
}

#[test]
fn detect_from_markers_each_kind_in_order() {
    let m = ProjectMarkers {
        package_json: true,
        tsconfig_json: true,
        go_mod: true,
        cargo_toml: true,
        terraform_dir: false,
        tf_file: true,
        dockerfile: false,
        compose_yml: false,
        compose_yaml: true,
    };
    assert_eq!(
        detect_from_markers(m),
        vec![
            ProjectKind::React,
            ProjectKind::TypeScript,
            ProjectKind::Go,
            ProjectKind::Rust,
            ProjectKind::Terraform,
            ProjectKind::Docker
        ]
    );
}

#[test]
fn detect_from_markers_terraform_dir_and_dockerfile() {
    let mut m = no_markers();
    m.terraform_dir = true;
    m.dockerfile = true;
    assert_eq!(
        detect_from_markers(m),
        vec![ProjectKind::Terraform, ProjectKind::Docker]
    );
}

#[test]
fn generated_config_parses_as_toml_with_the_defaults() {
    for kinds in [
        vec![ProjectKind::Rust, ProjectKind::Go],
        vec![ProjectKind::React],
        vec![ProjectKind::TypeScript, ProjectKind::Docker],
        vec![],
    ] {
        let s = generate_config(&kinds);
        let t: toml::Table = toml::from_str(&s).expect("generated config is valid TOML");
        let general = t["general"].as_table().unwrap();
        assert_eq!(general["output"].as_str(), Some("bark.txt"));
        assert_eq!(general["backup_dir"].as_str(), Some(".barks"));
        assert_eq!(general["max_file_size"].as_integer(), Some(1048576));
        assert_eq!(t["template"]["default"].as_str(), Some("File: {{file}}"));
        assert_eq!(t["watch"]["debounce_ms"].as_integer(), Some(500));
        let skip: Vec<&str> = t["exclude"]["header_skip"]
            .as_array()
            .unwrap()
            .iter()
            .map(|v| v.as_str().unwrap())
            .collect();
        let web = kinds.contains(&ProjectKind::React) || kinds.contains(&ProjectKind::TypeScript);
        if web {
            assert_eq!(skip, vec!["*.md", "*.mdx"]);
        } else {
            assert!(skip.is_empty());
        }
        let patterns = t["exclude"]["patterns"].as_array().unwrap();
        assert!(patterns.iter().any(|v| v.as_str() == Some("*.min.*")));
    }
}
