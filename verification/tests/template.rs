use bark::template::{render, TemplateContext};

#[test]
fn lib_template_context_new() {
    let ctx = TemplateContext::new(
        "src/main.rs",
        "%Y-%m-%d",
        "Alice".to_string(),
        "myproject".to_string(),
        Vec::new(),
    );

    assert_eq!(ctx.file, "src/main.rs");
    assert_eq!(ctx.author, "Alice");
    assert_eq!(ctx.project, "myproject");
    assert_eq!(ctx.filename, "main");
    assert_eq!(ctx.ext, "rs");
    assert!(!ctx.year.is_empty(), "year should be populated");
    assert!(!ctx.date.is_empty(), "date should be populated");

    // Verify render works with this context
    let output = render("File: {{file}} ({{year}})", &ctx);
    assert!(
        output.starts_with("File: src/main.rs ("),
        "render should substitute vars"
    );
}

#[test]
fn context_date_follows_the_format() {
    let ctx = TemplateContext::new(
        "a.rs",
        "%Y-%m-%d",
        "a".to_string(),
        "p".to_string(),
        Vec::new(),
    );
    assert_eq!(ctx.year.len(), 4);
    assert!(ctx.year.chars().all(|c| c.is_ascii_digit()));
    assert_eq!(ctx.date.len(), 10);
    assert!(ctx.date.starts_with(&ctx.year));
    assert_eq!(&ctx.date[4..5], "-");
}

#[test]
fn try_new_rejects_an_invalid_date_format() {
    assert!(TemplateContext::try_new("a.rs", "%Q", "a".into(), "p".into(), Vec::new()).is_none());
    assert!(TemplateContext::try_new("a.rs", "%d.%m.%Y", "a".into(), "p".into(), Vec::new()).is_some());
}

#[test]
fn with_date_file_parts() {
    let ctx = TemplateContext::with_date(
        "dir\\sub\\x.tar.gz",
        "d".into(),
        "y".into(),
        "a".into(),
        "p".into(),
        Vec::new(),
    );
    assert_eq!(ctx.file, "dir/sub/x.tar.gz");
    let dot = TemplateContext::with_date(".gitignore", "d".into(), "y".into(), "a".into(), "p".into(), Vec::new());
    assert_eq!(dot.filename, ".gitignore");
    assert_eq!(dot.ext, "");
    let plain = TemplateContext::with_date("Makefile", "d".into(), "y".into(), "a".into(), "p".into(), Vec::new());
    assert_eq!(plain.filename, "Makefile");
    assert_eq!(plain.ext, "");
}

#[test]
fn render_all_builtin_variables() {
    let ctx = TemplateContext::with_date(
        "src/lib.rs",
        "2026-03-25".into(),
        "2026".into(),
        "Alice".into(),
        "bark".into(),
        Vec::new(),
    );
    assert_eq!(
        render(
            "{{file}}|{{date}}|{{year}}|{{author}}|{{project}}|{{filename}}|{{ext}}",
            &ctx
        ),
        "src/lib.rs|2026-03-25|2026|Alice|bark|lib|rs"
    );
}

#[test]
fn render_custom_variables_and_unknown_ones() {
    let ctx = TemplateContext::with_date(
        "a.rs",
        "d".into(),
        "y".into(),
        "a".into(),
        "p".into(),
        vec![("team".to_string(), "backend".to_string())],
    );
    assert_eq!(render("{{team}} {{other}}", &ctx), "backend {{other}}");
    assert_eq!(render("no variables here", &ctx), "no variables here");
}

#[test]
fn date_led_by_text_is_never_empty() {
    let ctx = TemplateContext::new("a.rs", "on %d", "a".to_string(), "p".to_string(), Vec::new());
    assert!(ctx.date.starts_with("on "));
    assert_eq!(ctx.date.len(), 5);
}

#[test]
fn parse_only_format_gives_no_context() {
    // `%#z` parses but cannot be formatted
    assert!(TemplateContext::try_new("a.rs", "%#z", "a".into(), "p".into(), Vec::new()).is_none());
    let ctx = TemplateContext::new("a.rs", "%#z", "a".into(), "p".into(), Vec::new());
    assert!(ctx.date.is_empty());
    assert!(ctx.year.is_empty());
}
