use bark::header::{analyze, apply_tag, build_header, strip, CommentStyle, HeaderAction};
use bark::template::TemplateContext;

fn ctx(file: &str) -> TemplateContext {
    TemplateContext::with_date(
        file,
        "2026-03-25".to_string(),
        "2026".to_string(),
        "Alice".to_string(),
        "bark".to_string(),
        Vec::new(),
    )
}

#[test]
fn from_ext_covers_the_four_styles() {
    assert_eq!(CommentStyle::from_ext("rs"), Some(CommentStyle::Slash));
    assert_eq!(CommentStyle::from_ext("go"), Some(CommentStyle::Slash));
    assert_eq!(CommentStyle::from_ext("zig"), Some(CommentStyle::Slash));
    assert_eq!(CommentStyle::from_ext("py"), Some(CommentStyle::Hash));
    assert_eq!(CommentStyle::from_ext("toml"), Some(CommentStyle::Hash));
    assert_eq!(CommentStyle::from_ext("tfvars"), Some(CommentStyle::Hash));
    assert_eq!(CommentStyle::from_ext("css"), Some(CommentStyle::Css));
    assert_eq!(CommentStyle::from_ext("styl"), Some(CommentStyle::Css));
    assert_eq!(CommentStyle::from_ext("html"), Some(CommentStyle::Html));
    assert_eq!(CommentStyle::from_ext("astro"), Some(CommentStyle::Html));
    assert_eq!(CommentStyle::from_ext("md"), None);
    assert_eq!(CommentStyle::from_ext("RS"), None);
    assert_eq!(CommentStyle::from_ext(""), None);
}

#[test]
fn filename_to_style_known_names() {
    assert_eq!(CommentStyle::filename_to_style("makefile"), Some(CommentStyle::Hash));
    assert_eq!(CommentStyle::filename_to_style("brewfile"), Some(CommentStyle::Hash));
    assert_eq!(CommentStyle::filename_to_style("Makefile"), None);
    assert_eq!(CommentStyle::filename_to_style("license"), None);
}

#[test]
fn wrap_each_style() {
    assert_eq!(CommentStyle::Slash.wrap("File: a"), "// File: a");
    assert_eq!(CommentStyle::Hash.wrap("File: a"), "# File: a");
    assert_eq!(CommentStyle::Css.wrap("File: a"), "/* File: a */");
    assert_eq!(CommentStyle::Html.wrap("File: a"), "<!-- File: a -->");
}

#[test]
fn build_header_renders_and_wraps() {
    let h = build_header(CommentStyle::Css, "File: {{file}} | {{author}}", &ctx("styles/main.css"));
    assert_eq!(h, "/* File: styles/main.css | Alice */");
}

#[test]
fn matches_line_recognises_headers() {
    assert!(CommentStyle::Slash.matches_line("// File: main.go"));
    assert!(CommentStyle::Slash.matches_line("  //\tx"));
    assert!(!CommentStyle::Slash.matches_line("//File: main.go"));
    assert!(!CommentStyle::Slash.matches_line("// "));
    assert!(!CommentStyle::Slash.matches_line("package main"));
    assert!(CommentStyle::Hash.matches_line("# File: x.py"));
    assert!(!CommentStyle::Hash.matches_line("#!/bin/sh"));
    assert!(CommentStyle::Css.matches_line("/* File: a.css */"));
    assert!(CommentStyle::Html.matches_line("<!-- File: a.html -->"));
    assert!(!CommentStyle::Html.matches_line("<html>"));
}

#[test]
fn analyze_actions() {
    let h = "// File: main.go";
    assert_eq!(analyze("package main\n", h, CommentStyle::Slash), HeaderAction::AddNew);
    assert_eq!(analyze("", h, CommentStyle::Slash), HeaderAction::AddNew);
    assert_eq!(
        analyze("// File: main.go\n\npackage main\n", h, CommentStyle::Slash),
        HeaderAction::AlreadyCurrent
    );
    assert_eq!(
        analyze("// File: old.go\npackage main\n", h, CommentStyle::Slash),
        HeaderAction::UpdateExisting
    );
    // the header after a shebang is the one examined
    assert_eq!(
        analyze("#!/usr/bin/env python3\n# File: a.py\n", "# File: a.py", CommentStyle::Hash),
        HeaderAction::AlreadyCurrent
    );
    assert_eq!(
        analyze("#!/bin/sh\n", "# File: a.sh", CommentStyle::Hash),
        HeaderAction::AddNew
    );
}

#[test]
fn tag_adds_header_with_blank_line() {
    let out = apply_tag("package main\n\nfunc main() {}\n", "// File: main.go", CommentStyle::Slash);
    assert_eq!(out, "// File: main.go\n\npackage main\n\nfunc main() {}\n");
    let lines: Vec<&str> = out.lines().collect();
    assert_eq!(lines.get(1), Some(&""));
    assert_eq!(lines.get(2), Some(&"package main"));
}

#[test]
fn tag_empty_file() {
    assert_eq!(apply_tag("", "// File: a.rs", CommentStyle::Slash), "// File: a.rs\n");
}

#[test]
fn tag_after_shebang() {
    let out = apply_tag(
        "#!/usr/bin/env python3\nimport sys\n",
        "# File: scripts/deploy.py",
        CommentStyle::Hash,
    );
    assert_eq!(out, "#!/usr/bin/env python3\n# File: scripts/deploy.py\n\nimport sys\n");
}

#[test]
fn tag_updates_stale_header() {
    let out = apply_tag("// File: old.go\n\npackage main\n", "// File: new.go", CommentStyle::Slash);
    assert_eq!(out, "// File: new.go\n\npackage main\n");
}

#[test]
fn tag_keeps_crlf_line_endings() {
    let out = apply_tag("a = 1\r\nb = 2\r\n", "# File: x.toml", CommentStyle::Hash);
    assert_eq!(out, "# File: x.toml\r\n\r\na = 1\r\nb = 2\r\n");
}

#[test]
fn tag_is_idempotent_on_text() {
    let once = apply_tag("package main\n", "// File: main.go", CommentStyle::Slash);
    let twice = apply_tag(&once, "// File: main.go", CommentStyle::Slash);
    assert_eq!(once, twice);
    assert_eq!(analyze(&once, "// File: main.go", CommentStyle::Slash), HeaderAction::AlreadyCurrent);
}

#[test]
fn retag_replaces_instead_of_stacking() {
    let c = "fn main() {}\n";
    let a = apply_tag(c, "// File: a.rs", CommentStyle::Slash);
    let b = apply_tag(&a, "// File: b.rs", CommentStyle::Slash);
    assert_eq!(b, apply_tag(c, "// File: b.rs", CommentStyle::Slash));
    assert_eq!(b.matches("// File:").count(), 1);
}

#[test]
fn strip_removes_header_and_blank_line() {
    assert_eq!(
        strip("// File: main.go\n\npackage main\n", CommentStyle::Slash),
        Some("package main\n".to_string())
    );
    assert_eq!(strip("package main\n", CommentStyle::Slash), None);
    assert_eq!(
        strip("#!/bin/sh\n# File: run.sh\necho hi\n", CommentStyle::Hash),
        Some("#!/bin/sh\necho hi\n".to_string())
    );
}

#[test]
fn strip_looks_at_three_lines_only() {
    assert_eq!(
        strip("a\nb\n// File: x\n", CommentStyle::Slash),
        Some("a\nb\n".to_string())
    );
    assert_eq!(strip("a\nb\nc\n// File: x\n", CommentStyle::Slash), None);
}

#[test]
fn strip_after_tag_gives_back_the_file() {
    let c = "package main\n\nfunc main() {}\n";
    let tagged = apply_tag(c, "// File: main.go", CommentStyle::Slash);
    assert_eq!(strip(&tagged, CommentStyle::Slash), Some(c.to_string()));
}
