use bark::config::{Config, CustomExtension};
use bark::header::CommentStyle;
use bark::processor::{
    relative_to, resolve_author, resolve_project, strip_summary, tag_summary, Processor, Stats,
    SummaryKind, TagResult,
};
use bark::template::TemplateContext;

fn processor(config: Config, dry_run: bool, template: Option<&str>) -> Processor {
    Processor::new(
        config,
        "/p/.bark_backups".to_string(),
        dry_run,
        false,
        false,
        template.map(|t| t.to_string()),
        "Alice".to_string(),
        "proj".to_string(),
    )
}

fn ctx(rel: &str) -> TemplateContext {
    TemplateContext::with_date(
        rel,
        "2026-03-25".into(),
        "2026".into(),
        "Alice".into(),
        "proj".into(),
        Vec::new(),
    )
}

#[test]
fn plan_tag_adds_a_header() {
    let p = processor(Config::default(), false, None);
    let plan = p.plan_tag_with("main.go", CommentStyle::Slash, "package main\n", &ctx("main.go"));
    assert_eq!(plan.result, TagResult::Tagged);
    assert_eq!(plan.write.as_deref(), Some("// File: main.go\n\npackage main\n"));
}

#[test]
fn plan_tag_current_and_updated() {
    let p = processor(Config::default(), false, None);
    let cur = p.plan_tag_with(
        "main.go",
        CommentStyle::Slash,
        "// File: main.go\n\npackage main\n",
        &ctx("main.go"),
    );
    assert_eq!(cur.result, TagResult::Current);
    assert!(cur.write.is_none());
    let upd = p.plan_tag_with(
        "main.go",
        CommentStyle::Slash,
        "// File: old.go\n\npackage main\n",
        &ctx("main.go"),
    );
    assert_eq!(upd.result, TagResult::Updated);
    assert_eq!(upd.write.as_deref(), Some("// File: main.go\n\npackage main\n"));
}

#[test]
fn plan_tag_dry_run_writes_nothing() {
    let p = processor(Config::default(), true, None);
    let plan = p.plan_tag_with("main.go", CommentStyle::Slash, "package main\n", &ctx("main.go"));
    assert_eq!(plan.result, TagResult::Tagged);
    assert!(plan.write.is_none());
}

#[test]
fn template_precedence() {
    let mut config = Config::default();
    config.template.overrides = vec![("rs".to_string(), "R: {{file}}".to_string())];
    let p = processor(config.clone(), false, None);
    assert_eq!(p.template_for("src/a.rs"), "R: {{file}}");
    assert_eq!(p.template_for("src/a.go"), "File: {{file}}");
    let cli = processor(config, false, Some("C: {{file}} | Bark"));
    assert_eq!(cli.template_for("src/a.rs"), "C: {{file}} | Bark");
    let plan = cli.plan_tag_with("a.rs", CommentStyle::Slash, "fn x() {}\n", &ctx("a.rs"));
    assert_eq!(plan.write.as_deref(), Some("// C: a.rs | Bark\n\nfn x() {}\n"));
}

#[test]
fn header_skip_leaves_the_file_alone() {
    let mut config = Config::default();
    config.exclude.header_skip = vec!["*.pb.go".to_string()];
    let p = processor(config, false, None);
    let plan = p.plan_tag_with("api/x.pb.go", CommentStyle::Slash, "package api\n", &ctx("api/x.pb.go"));
    assert_eq!(plan.result, TagResult::Skipped);
    assert!(plan.write.is_none());
}

#[test]
fn plan_tag_dates_now() {
    let p = processor(Config::default(), false, None);
    let plan = p.plan_tag("main.go", CommentStyle::Slash, "package main\n").unwrap();
    assert_eq!(plan.write.as_deref(), Some("// File: main.go\n\npackage main\n"));
    let mut bad = Config::default();
    bad.template.date_format = "%Q".to_string();
    assert!(processor(bad, false, None)
        .plan_tag("main.go", CommentStyle::Slash, "package main\n")
        .is_none());
}

#[test]
fn plan_strip_results() {
    let p = processor(Config::default(), false, None);
    let s = p.plan_strip("// File: main.go\n\npackage main\n", CommentStyle::Slash);
    assert!(s.stripped);
    assert_eq!(s.write.as_deref(), Some("package main\n"));
    let none = p.plan_strip("package main\n", CommentStyle::Slash);
    assert!(!none.stripped);
    assert!(none.write.is_none());
    let dry = processor(Config::default(), true, None).plan_strip("# File: a\n", CommentStyle::Hash);
    assert!(dry.stripped);
    assert!(dry.write.is_none());
}

#[test]
fn watch_entry_applies_the_config_rules() {
    let p = processor(Config::default(), false, None);
    let e = p.watch_entry("/p/src/Main.RS".to_string(), "/p", Some(10), b"fn main() {}").unwrap();
    assert_eq!(e.rel_path, "src/Main.RS");
    assert_eq!(e.style, CommentStyle::Slash);
    assert_eq!(p.watch_entry("/p/Makefile".to_string(), "/p", Some(10), b"all:").map(|e| e.style), Some(CommentStyle::Hash));
    assert!(p.watch_entry("/p/data.xyz".to_string(), "/p", Some(10), b"x").is_none());
    let mut config = Config::default();
    config.exclude.patterns = vec!["*.min.*".to_string()];
    config.extensions.custom = vec![CustomExtension { ext: "lua".to_string(), style: "slash".to_string() }];
    let p = processor(config, false, None);
    assert!(p.watch_entry("/p/app.min.js".to_string(), "/p", Some(10), b"x").is_none());
    let lua = p.watch_entry("/p/init.lua".to_string(), "/p", Some(10), b"x").unwrap();
    assert_eq!(lua.style, CommentStyle::Slash);
    assert_eq!(lua.rel_path, "init.lua");
    // binary content and oversized files are left alone, as in a walk
    assert!(p.watch_entry("/p/x.rs".to_string(), "/p", Some(10), b"a\0b").is_none());
    assert!(p.watch_entry("/p/x.rs".to_string(), "/p", Some(u64::MAX), b"a").is_none());
    assert_eq!(relative_to("/p/src/a.rs", "/p"), "src/a.rs");
    assert_eq!(relative_to("/q/a.rs", "/p"), "/q/a.rs");
}

#[test]
fn author_and_project() {
    let vars = vec![("author".to_string(), "Bob".to_string())];
    assert_eq!(resolve_author(&vars, Some("git user\n")), "Bob");
    assert_eq!(resolve_author(&Vec::new(), Some("  git user\n")), "git user");
    assert_eq!(resolve_author(&Vec::new(), Some("\n")), "unknown");
    assert_eq!(resolve_author(&Vec::new(), None), "unknown");
    assert_eq!(resolve_project(&Vec::new(), "/home/me/bark"), "bark");
    assert_eq!(resolve_project(&Vec::new(), "/"), "project");
    let pv = vec![("project".to_string(), "my-project".to_string())];
    assert_eq!(resolve_project(&pv, "/home/me/bark"), "my-project");
}

#[test]
fn stats_and_summaries() {
    let mut s = Stats::new();
    s.record_tag(TagResult::Tagged);
    s.record_tag(TagResult::Tagged);
    s.record_tag(TagResult::Current);
    s.record_tag(TagResult::Skipped);
    s.record_error();
    assert_eq!(
        tag_summary(&s),
        vec![
            (2, SummaryKind::Tagged),
            (1, SummaryKind::Current),
            (1, SummaryKind::Skipped),
            (1, SummaryKind::Errors)
        ]
    );
    assert!(tag_summary(&Stats::new()).is_empty());
    let mut t = Stats::new();
    t.record_strip(true);
    t.record_strip(false);
    assert_eq!(
        strip_summary(&t),
        vec![(1, SummaryKind::Stripped), (1, SummaryKind::NoHeader)]
    );
}
