//! Project detection, and the configuration text generated for a project.
use crate::header::{join, lemma_join_push};
use crate::text::{contains_seq, contains_string, occurs_at, push_str, str_contains, strings_view};
use vstd::prelude::*;

verus! {

broadcast use vstd::string::group_string_axioms;

/// A kind of project, recognised by a marker file.
#[derive(Debug, Clone, Copy, PartialEq, Eq, Structural)]
pub enum ProjectKind {
    React,
    TypeScript,
    Go,
    Rust,
    Terraform,
    Docker,
}

/// What was found in a directory: the marker files that `detect` looks for.
#[derive(Debug, Clone, Copy, PartialEq, Eq, Structural)]
pub struct ProjectMarkers {
    /// `package.json` is a file.
    pub package_json: bool,
    /// `tsconfig.json` is a file.
    pub tsconfig_json: bool,
    /// `go.mod` is a file.
    pub go_mod: bool,
    /// `Cargo.toml` is a file.
    pub cargo_toml: bool,
    /// `terraform` is a directory.
    pub terraform_dir: bool,
    /// Some entry of the directory has a name ending in `.tf`.
    pub tf_file: bool,
    /// `Dockerfile` is a file.
    pub dockerfile: bool,
    /// `docker-compose.yml` is a file.
    pub compose_yml: bool,
    /// `docker-compose.yaml` is a file.
    pub compose_yaml: bool,
}

/// The kinds a directory with these markers is, in this order: React,
/// TypeScript, Go, Rust, Terraform, Docker.
pub open spec fn kinds_of(m: ProjectMarkers) -> Seq<ProjectKind> {
    let k1 = if m.package_json {
        seq![ProjectKind::React]
    } else {
        seq![]
    };
    let k2 = if m.tsconfig_json {
        k1.push(ProjectKind::TypeScript)
    } else {
        k1
    };
    let k3 = if m.go_mod {
        k2.push(ProjectKind::Go)
    } else {
        k2
    };
    let k4 = if m.cargo_toml {
        k3.push(ProjectKind::Rust)
    } else {
        k3
    };
    let k5 = if m.terraform_dir || m.tf_file {
        k4.push(ProjectKind::Terraform)
    } else {
        k4
    };
    if m.dockerfile || m.compose_yml || m.compose_yaml {
        k5.push(ProjectKind::Docker)
    } else {
        k5
    }
}

/// Each marker shows its own kind, whatever else is found: `package.json`
/// React, `tsconfig.json` TypeScript, `go.mod` Go, `Cargo.toml` Rust, a
/// `terraform` directory or a `.tf` file Terraform, and `Dockerfile`,
/// `docker-compose.yml` or `docker-compose.yaml` Docker; a kind is detected
/// only when one of its markers is found.
pub proof fn law_each_marker_gives_its_kind(m: ProjectMarkers)
    ensures
        kinds_of(m).contains(ProjectKind::React) == m.package_json,
        kinds_of(m).contains(ProjectKind::TypeScript) == m.tsconfig_json,
        kinds_of(m).contains(ProjectKind::Go) == m.go_mod,
        kinds_of(m).contains(ProjectKind::Rust) == m.cargo_toml,
        kinds_of(m).contains(ProjectKind::Terraform) == (m.terraform_dir || m.tf_file),
        kinds_of(m).contains(ProjectKind::Docker) == (m.dockerfile || m.compose_yml || m.compose_yaml),
{
    let k = kinds_of(m);
    let k1 = if m.package_json {
        seq![ProjectKind::React]
    } else {
        seq![]
    };
    let k2 = if m.tsconfig_json {
        k1.push(ProjectKind::TypeScript)
    } else {
        k1
    };
    let k3 = if m.go_mod {
        k2.push(ProjectKind::Go)
    } else {
        k2
    };
    let k4 = if m.cargo_toml {
        k3.push(ProjectKind::Rust)
    } else {
        k3
    };
    let k5 = if m.terraform_dir || m.tf_file {
        k4.push(ProjectKind::Terraform)
    } else {
        k4
    };
    assert(k == if m.dockerfile || m.compose_yml || m.compose_yaml {
        k5.push(ProjectKind::Docker)
    } else {
        k5
    });
    lemma_push_contains(k1, ProjectKind::TypeScript);
    lemma_push_contains(k2, ProjectKind::Go);
    lemma_push_contains(k3, ProjectKind::Rust);
    lemma_push_contains(k4, ProjectKind::Terraform);
    lemma_push_contains(k5, ProjectKind::Docker);
    assert(seq![ProjectKind::React] =~= Seq::<ProjectKind>::empty().push(ProjectKind::React));
    lemma_push_contains(Seq::<ProjectKind>::empty(), ProjectKind::React);
    assert(!Seq::<ProjectKind>::empty().contains(ProjectKind::React));
    assert(forall|x: ProjectKind| !(#[trigger] Seq::<ProjectKind>::empty().contains(x)));
}

/// What a sequence holds after a push: what it held, and the pushed item.
proof fn lemma_push_contains(s: Seq<ProjectKind>, y: ProjectKind)
    ensures
        forall|x: ProjectKind| #[trigger] s.push(y).contains(x) == (s.contains(x) || x == y),
{
    assert forall|x: ProjectKind| #[trigger] s.push(y).contains(x) == (s.contains(x) || x == y) by {
        if s.contains(x) {
            let i = choose|i: int| 0 <= i < s.len() && s[i] == x;
            assert(s.push(y)[i] == x);
        }
        if x == y {
            assert(s.push(y)[s.len() as int] == y);
        }
        if s.push(y).contains(x) {
            let i = choose|i: int| 0 <= i < s.push(y).len() && s.push(y)[i] == x;
            if i < s.len() {
                assert(s[i] == x);
            }
        }
    }
}

/// The project kinds that the markers found in a directory show.
pub fn detect_from_markers(m: ProjectMarkers) -> (r: Vec<ProjectKind>)
    ensures
        r@ == kinds_of(m),
        r@.contains(ProjectKind::React) == m.package_json,
        r@.contains(ProjectKind::TypeScript) == m.tsconfig_json,
        r@.contains(ProjectKind::Go) == m.go_mod,
        r@.contains(ProjectKind::Rust) == m.cargo_toml,
        r@.contains(ProjectKind::Terraform) == (m.terraform_dir || m.tf_file),
        r@.contains(ProjectKind::Docker) == (m.dockerfile || m.compose_yml || m.compose_yaml),
{
    proof {
        law_each_marker_gives_its_kind(m);
    }
    let mut kinds: Vec<ProjectKind> = Vec::new();
    if m.package_json {
        kinds.push(ProjectKind::React);
    }
    if m.tsconfig_json {
        kinds.push(ProjectKind::TypeScript);
    }
    if m.go_mod {
        kinds.push(ProjectKind::Go);
    }
    if m.cargo_toml {
        kinds.push(ProjectKind::Rust);
    }
    if m.terraform_dir || m.tf_file {
        kinds.push(ProjectKind::Terraform);
    }
    if m.dockerfile || m.compose_yml || m.compose_yaml {
        kinds.push(ProjectKind::Docker);
    }
    assert(kinds@ =~= kinds_of(m));
    kinds
}

// ---------------------------------------------------------------------------
// The generated configuration
// ---------------------------------------------------------------------------

/// The configuration text before the exclude patterns.
pub const CONFIG_HEAD: &'static str = r#"[general]
output      = "bark.txt"        # tree output filename
backup_dir  = ".barks"          # where backups are stored
max_file_size = 1048576         # skip files larger than this (bytes)
backup      = true              # create backups before modifying files

[template]
# Available variables: {{file}}, {{date}}, {{year}}, {{author}}, {{project}}, {{filename}}, {{ext}}
default     = "File: {{file}}"
date_format = "%Y-%m-%d"

[template.overrides]
# rs = "File: {{file}} | Author: {{author}} | {{date}}"

[template.variables]
# author  = "Your Name"
# project = "my-project"

[exclude]
patterns = [
"#;

/// The configuration text between the exclude patterns and the header-skip list.
pub const CONFIG_MID: &'static str = ",\n]\nheader_skip = ";

/// The configuration text after the header-skip list.
pub const CONFIG_TAIL: &'static str = r#"

[extensions]
custom = []
skip = []
filenames = [
    # { name = "Dockerfile",  style = "hash"  },
    # { name = "Jenkinsfile", style = "slash" },
]
filename_skip = []

[watch]
debounce_ms = 500
ignore      = []
"#;

/// The exclude patterns a React or TypeScript project adds.
pub open spec fn react_excludes() -> Seq<Seq<char>> {
    seq![
        "\"dist/**\""@,
        "\"build/**\""@,
        "\"out/**\""@,
        "\".next/**\""@,
        "\"node_modules/**\""@,
        "\"coverage/**\""@,
    ]
}

/// The exclude patterns used when no project kind is known.
pub open spec fn generic_excludes() -> Seq<Seq<char>> {
    seq![
        "\"dist/**\""@,
        "\"build/**\""@,
        "\"node_modules/**\""@,
        "\"vendor/**\""@,
        "\"target/**\""@,
        "\"coverage/**\""@,
    ]
}

/// React or TypeScript was detected.
pub open spec fn is_web(kinds: Seq<ProjectKind>) -> bool {
    kinds.contains(ProjectKind::React) || kinds.contains(ProjectKind::TypeScript)
}

/// Some pattern mentions `target`.
pub open spec fn mentions_target(es: Seq<Seq<char>>) -> bool {
    exists|i: int| 0 <= i < es.len() && contains_seq(#[trigger] es[i], "target"@)
}

/// The exclude patterns, each quoted, in the order they are added: the
/// minified and bundled files; the web output directories for React or
/// TypeScript; `vendor` (and `dist` and `build` unless already there) for
/// Go; `target` (for Rust only when no pattern mentions it yet); `.terraform`
/// for Terraform; and a generic set when nothing was detected.
pub open spec fn excludes_for(kinds: Seq<ProjectKind>) -> Seq<Seq<char>> {
    let e2 = base_excludes(kinds);
    let e3 = if kinds.contains(ProjectKind::Rust) && mentions_target(e2) {
        e2
    } else {
        e2.push("\"target/**\""@)
    };
    let e4 = if kinds.contains(ProjectKind::Terraform) {
        e3.push("\".terraform/**\""@)
    } else {
        e3
    };
    if kinds.len() == 0 {
        e4 + generic_excludes()
    } else {
        e4
    }
}

/// The exclude patterns added before `target` is considered.
pub open spec fn base_excludes(kinds: Seq<ProjectKind>) -> Seq<Seq<char>> {
    let e0 = seq!["\"*.min.*\""@, "\"*.bundle.*\""@];
    let e1 = if is_web(kinds) {
        e0 + react_excludes()
    } else {
        e0
    };
    if kinds.contains(ProjectKind::Go) {
        if e1.contains("\"dist/**\""@) {
            e1.push("\"vendor/**\""@)
        } else {
            e1.push("\"vendor/**\""@).push("\"dist/**\""@).push("\"build/**\""@)
        }
    } else {
        e1
    }
}

/// The header-skip hints: Markdown for web projects.
pub open spec fn header_skip_for(kinds: Seq<ProjectKind>) -> Seq<Seq<char>> {
    if is_web(kinds) {
        seq!["\"*.md\""@, "\"*.mdx\""@]
    } else {
        seq![]
    }
}

/// One comment line per detected kind.
pub open spec fn comments_for(kinds: Seq<ProjectKind>) -> Seq<Seq<char>> {
    let c1 = if is_web(kinds) {
        seq!["# React / TypeScript project detected"@]
    } else {
        seq![]
    };
    let c2 = if kinds.contains(ProjectKind::Go) {
        c1.push("# Go project detected"@)
    } else {
        c1
    };
    let c3 = if kinds.contains(ProjectKind::Rust) {
        c2.push("# Rust project detected"@)
    } else {
        c2
    };
    let c4 = if kinds.contains(ProjectKind::Terraform) {
        c3.push("# Terraform project detected — .tf files are supported natively"@)
    } else {
        c3
    };
    if kinds.contains(ProjectKind::Docker) {
        c4.push("# Docker project detected — add Dockerfile support via [extensions.filenames]"@)
    } else {
        c4
    }
}

/// Each item with `prefix` in front.
pub open spec fn prefixed(items: Seq<Seq<char>>, prefix: Seq<char>) -> Seq<Seq<char>> {
    items.map_values(|x: Seq<char>| prefix + x)
}

/// The comment block: the comment lines, each ended by a newline.
pub open spec fn comments_text(cs: Seq<Seq<char>>) -> Seq<char> {
    if cs.len() == 0 {
        Seq::<char>::empty()
    } else {
        join(cs, "\n"@) + "\n"@
    }
}

/// The header-skip list as a TOML array.
pub open spec fn skip_list_text(hs: Seq<Seq<char>>) -> Seq<char> {
    if hs.len() == 0 {
        "[]"@
    } else {
        "["@ + join(hs, ", "@) + "]"@
    }
}

/// The configuration text generated for the detected kinds.
pub open spec fn config_text(kinds: Seq<ProjectKind>) -> Seq<char> {
    comments_text(comments_for(kinds)) + CONFIG_HEAD@ + join(
        prefixed(excludes_for(kinds), "    "@),
        ",\n"@,
    ) + CONFIG_MID@ + skip_list_text(header_skip_for(kinds)) + CONFIG_TAIL@
}

/// Whether `kinds` holds `k`.
fn has_kind(kinds: &[ProjectKind], k: ProjectKind) -> (r: bool)
    ensures
        r == kinds@.contains(k),
{
    let mut i: usize = 0;
    while i < kinds.len()
        invariant
            i <= kinds@.len(),
            forall|j: int| 0 <= j < i ==> kinds@[j] != k,
        decreases kinds.len() - i,
    {
        if kinds[i] == k {
            assert(kinds@[i as int] == k);
            return true;
        }
        i = i + 1;
    }
    false
}

/// Whether some string of `v` contains `p`.
fn any_contains(v: &Vec<String>, p: &str) -> (r: bool)
    ensures
        r == (exists|i: int| 0 <= i < v@.len() && contains_seq(#[trigger] strings_view(v@)[i], p@)),
{
    let mut i: usize = 0;
    while i < v.len()
        invariant
            i <= v@.len(),
            forall|j: int| 0 <= j < i ==> !contains_seq(#[trigger] strings_view(v@)[j], p@),
        decreases v.len() - i,
    {
        if str_contains(v[i].as_str(), p) {
            assert(strings_view(v@)[i as int] == v@[i as int]@);
            return true;
        }
        assert(strings_view(v@)[i as int] == v@[i as int]@);
        i = i + 1;
    }
    false
}

/// Appends an owned copy of `s`.
fn push_string(v: &mut Vec<String>, s: &str)
    ensures
        strings_view(final(v)@) == strings_view(old(v)@).push(s@),
{
    v.push(s.to_owned());
    assert(strings_view(v@) =~= strings_view(old(v)@).push(s@));
}

/// `items`, each with `prefix` in front, joined with `sep`.
fn join_prefixed(items: &Vec<String>, prefix: &str, sep: &str) -> (r: String)
    ensures
        r@ == join(prefixed(strings_view(items@), prefix@), sep@),
{
    let ghost all = prefixed(strings_view(items@), prefix@);
    let mut r = String::new();
    let mut i: usize = 0;
    assert(all.take(0) =~= Seq::<Seq<char>>::empty());
    while i < items.len()
        invariant
            i <= items@.len(),
            all == prefixed(strings_view(items@), prefix@),
            r@ == join(all.take(i as int), sep@),
        decreases items.len() - i,
    {
        let ghost before = r@;
        if i > 0 {
            push_str(&mut r, sep);
        }
        push_str(&mut r, prefix);
        push_str(&mut r, items[i].as_str());
        proof {
            assert(all[i as int] == prefix@ + items@[i as int]@);
            assert(all.take(i + 1) =~= all.take(i as int).push(all[i as int]));
            if i > 0 {
                lemma_join_push(all.take(i as int), all[i as int], sep@);
                assert(r@ =~= before + sep@ + all[i as int]);
            } else {
                assert(all.take(1) =~= seq![all[0]]);
                assert(r@ =~= all[0]);
            }
        }
        i = i + 1;
    }
    assert(all.take(items@.len() as int) =~= all);
    r
}

/// The configuration text for a project of the given kinds, with excludes
/// and hints tailored to them.
pub fn generate_config(kinds: &[ProjectKind]) -> (r: String)
    ensures
        r@ == config_text(kinds@),
{
    let mut excludes: Vec<String> = Vec::new();
    push_string(&mut excludes, "\"*.min.*\"");
    push_string(&mut excludes, "\"*.bundle.*\"");
    let mut header_skip_hints: Vec<String> = Vec::new();
    let mut comments: Vec<String> = Vec::new();
    let web = has_kind(kinds, ProjectKind::React) || has_kind(kinds, ProjectKind::TypeScript);
    if web {
        push_string(&mut excludes, "\"dist/**\"");
        push_string(&mut excludes, "\"build/**\"");
        push_string(&mut excludes, "\"out/**\"");
        push_string(&mut excludes, "\".next/**\"");
        push_string(&mut excludes, "\"node_modules/**\"");
        push_string(&mut excludes, "\"coverage/**\"");
        push_string(&mut header_skip_hints, "\"*.md\"");
        push_string(&mut header_skip_hints, "\"*.mdx\"");
        push_string(&mut comments, "# React / TypeScript project detected");
    }
    let ghost e0 = seq!["\"*.min.*\""@, "\"*.bundle.*\""@];
    assert(strings_view(excludes@) =~= if is_web(kinds@) {
        e0 + react_excludes()
    } else {
        e0
    });
    if has_kind(kinds, ProjectKind::Go) {
        let has_dist = contains_string(&excludes, "\"dist/**\"");
        push_string(&mut excludes, "\"vendor/**\"");
        if !has_dist {
            push_string(&mut excludes, "\"dist/**\"");
            push_string(&mut excludes, "\"build/**\"");
        }
        push_string(&mut comments, "# Go project detected");
    }
    if has_kind(kinds, ProjectKind::Rust) {
        if !any_contains(&excludes, "target") {
            push_string(&mut excludes, "\"target/**\"");
        }
        push_string(&mut comments, "# Rust project detected");
    } else {
        push_string(&mut excludes, "\"target/**\"");
    }
    if has_kind(kinds, ProjectKind::Terraform) {
        push_string(&mut excludes, "\".terraform/**\"");
        push_string(&mut comments, "# Terraform project detected — .tf files are supported natively");
    }
    if has_kind(kinds, ProjectKind::Docker) {
        push_string(
            &mut comments,
            "# Docker project detected — add Dockerfile support via [extensions.filenames]",
        );
    }
    if kinds.len() == 0 {
        push_string(&mut excludes, "\"dist/**\"");
        push_string(&mut excludes, "\"build/**\"");
        push_string(&mut excludes, "\"node_modules/**\"");
        push_string(&mut excludes, "\"vendor/**\"");
        push_string(&mut excludes, "\"target/**\"");
        push_string(&mut excludes, "\"coverage/**\"");
    }
    assert(strings_view(excludes@) =~= excludes_for(kinds@));
    assert(strings_view(header_skip_hints@) =~= header_skip_for(kinds@));
    assert(strings_view(comments@) =~= comments_for(kinds@));
    let patterns_str = join_prefixed(&excludes, "    ", ",\n");
    proof {
        reveal_strlit("");
        assert(prefixed(strings_view(comments@), ""@) =~= strings_view(comments@));
        assert(prefixed(strings_view(header_skip_hints@), ""@) =~= strings_view(header_skip_hints@));
    }
    let mut out = String::new();
    if comments.len() > 0 {
        let c = join_prefixed(&comments, "", "\n");
        push_str(&mut out, c.as_str());
        push_str(&mut out, "\n");
    }
    assert(out@ == comments_text(comments_for(kinds@)));
    push_str(&mut out, CONFIG_HEAD);
    push_str(&mut out, patterns_str.as_str());
    push_str(&mut out, CONFIG_MID);
    if header_skip_hints.len() == 0 {
        push_str(&mut out, "[]");
    } else {
        let h = join_prefixed(&header_skip_hints, "", ", ");
        push_str(&mut out, "[");
        push_str(&mut out, h.as_str());
        push_str(&mut out, "]");
    }
    assert(out@ =~= comments_text(comments_for(kinds@)) + CONFIG_HEAD@ + join(
        prefixed(excludes_for(kinds@), "    "@),
        ",\n"@,
    ) + CONFIG_MID@ + skip_list_text(header_skip_for(kinds@)));
    push_str(&mut out, CONFIG_TAIL);
    out
}


// ---------------------------------------------------------------------------
// Laws of the generated excludes
// ---------------------------------------------------------------------------

/// No pattern occurs twice.
pub open spec fn no_dups(s: Seq<Seq<char>>) -> bool {
    forall|i: int, j: int| 0 <= i < j < s.len() ==> s[i] != s[j]
}

/// A character of `s`.
pub open spec fn has_char(s: Seq<char>, c: char) -> bool {
    exists|i: int| 0 <= i < s.len() && s[i] == c
}

proof fn lemma_target_needs_t_and_g(s: Seq<char>)
    requires
        contains_seq(s, "target"@),
    ensures
        has_char(s, 't'),
        has_char(s, 'g'),
{
    reveal_strlit("target");
    let k = choose|k: int| occurs_at(s, "target"@, k);
    assert(s.subrange(k, k + 6)[0] == 't');
    assert(s.subrange(k, k + 6)[3] == 'g');
    assert(s[k] == 't');
    assert(s[k + 3] == 'g');
}

proof fn lemma_reveal_patterns()
    ensures
        "\"*.min.*\""@ =~= seq!['"', '*', '.', 'm', 'i', 'n', '.', '*', '"'],
        "\"*.bundle.*\""@ =~= seq!['"', '*', '.', 'b', 'u', 'n', 'd', 'l', 'e', '.', '*', '"'],
        "\"dist/**\""@ =~= seq!['"', 'd', 'i', 's', 't', '/', '*', '*', '"'],
        "\"build/**\""@ =~= seq!['"', 'b', 'u', 'i', 'l', 'd', '/', '*', '*', '"'],
        "\"out/**\""@ =~= seq!['"', 'o', 'u', 't', '/', '*', '*', '"'],
        "\".next/**\""@ =~= seq!['"', '.', 'n', 'e', 'x', 't', '/', '*', '*', '"'],
        "\"node_modules/**\""@ =~= seq![
            '"', 'n', 'o', 'd', 'e', '_', 'm', 'o', 'd', 'u', 'l', 'e', 's', '/', '*', '*', '"'
        ],
        "\"coverage/**\""@ =~= seq!['"', 'c', 'o', 'v', 'e', 'r', 'a', 'g', 'e', '/', '*', '*', '"'],
        "\"vendor/**\""@ =~= seq!['"', 'v', 'e', 'n', 'd', 'o', 'r', '/', '*', '*', '"'],
        "\"target/**\""@ =~= seq!['"', 't', 'a', 'r', 'g', 'e', 't', '/', '*', '*', '"'],
        "\".terraform/**\""@ =~= seq![
            '"', '.', 't', 'e', 'r', 'r', 'a', 'f', 'o', 'r', 'm', '/', '*', '*', '"'
        ],
{
    reveal_strlit("\"*.min.*\"");
    reveal_strlit("\"*.bundle.*\"");
    reveal_strlit("\"dist/**\"");
    reveal_strlit("\"build/**\"");
    reveal_strlit("\"out/**\"");
    reveal_strlit("\".next/**\"");
    reveal_strlit("\"node_modules/**\"");
    reveal_strlit("\"coverage/**\"");
    reveal_strlit("\"vendor/**\"");
    reveal_strlit("\"target/**\"");
    reveal_strlit("\".terraform/**\"");
}

/// The patterns that come before `target` never mention it.
proof fn lemma_no_target_before(kinds: Seq<ProjectKind>)
    ensures
        !mentions_target(base_excludes(kinds)),
{
    lemma_reveal_patterns();
    let e2 = base_excludes(kinds);
    assert forall|i: int| 0 <= i < e2.len() implies !contains_seq(#[trigger] e2[i], "target"@) by {
        let s = e2[i];
        if contains_seq(s, "target"@) {
            lemma_target_needs_t_and_g(s);
            let a = choose|a: int| 0 <= a < s.len() && s[a] == 't';
            let b = choose|b: int| 0 <= b < s.len() && s[b] == 'g';
        }
    }
}

/// Whatever was detected, the generated excludes keep minified files,
/// bundles and Rust's `target` directory out.
pub proof fn law_config_always_excludes_common_outputs(kinds: Seq<ProjectKind>)
    ensures
        excludes_for(kinds).contains("\"*.min.*\""@),
        excludes_for(kinds).contains("\"*.bundle.*\""@),
        excludes_for(kinds).contains("\"target/**\""@),
{
    lemma_no_target_before(kinds);
    let es = excludes_for(kinds);
    assert(es[0] == "\"*.min.*\""@);
    assert(es[1] == "\"*.bundle.*\""@);
    let e2 = base_excludes(kinds);
    assert(es[e2.len() as int] == "\"target/**\""@);
}

/// The exclude patterns start with those added before `target` is
/// considered.
proof fn lemma_base_is_prefix(kinds: Seq<ProjectKind>)
    ensures
        base_excludes(kinds).len() <= excludes_for(kinds).len(),
        forall|i: int| 0 <= i < base_excludes(kinds).len() ==> #[trigger] excludes_for(kinds)[i] == base_excludes(kinds)[i],
{
}

/// Each detected kind keeps its build output out: Go projects exclude
/// `vendor/**`, `dist/**` and `build/**`; React and TypeScript projects
/// `dist/**`, `build/**`, `out/**`, `.next/**`, `node_modules/**` and
/// `coverage/**`; Terraform projects `.terraform/**`; and with nothing
/// detected, the generic set `dist/**`, `build/**`, `node_modules/**`,
/// `vendor/**`, `target/**` and `coverage/**` is excluded.
pub proof fn law_config_excludes_each_kinds_outputs(kinds: Seq<ProjectKind>)
    ensures
        kinds.contains(ProjectKind::Go) ==> excludes_for(kinds).contains("\"vendor/**\""@)
            && excludes_for(kinds).contains("\"dist/**\""@) && excludes_for(kinds).contains(
            "\"build/**\""@,
        ),
        is_web(kinds) ==> excludes_for(kinds).contains("\"dist/**\""@) && excludes_for(kinds).contains(
            "\"build/**\""@,
        ) && excludes_for(kinds).contains("\"out/**\""@) && excludes_for(kinds).contains(
            "\".next/**\""@,
        ) && excludes_for(kinds).contains("\"node_modules/**\""@) && excludes_for(kinds).contains(
            "\"coverage/**\""@,
        ),
        kinds.contains(ProjectKind::Terraform) ==> excludes_for(kinds).contains("\".terraform/**\""@),
        kinds.len() == 0 ==> excludes_for(kinds).contains("\"dist/**\""@) && excludes_for(kinds).contains(
            "\"build/**\""@,
        ) && excludes_for(kinds).contains("\"node_modules/**\""@) && excludes_for(kinds).contains(
            "\"vendor/**\""@,
        ) && excludes_for(kinds).contains("\"coverage/**\""@),
{
    lemma_reveal_patterns();
    lemma_base_is_prefix(kinds);
    let es = excludes_for(kinds);
    let e0 = seq!["\"*.min.*\""@, "\"*.bundle.*\""@];
    let e1 = if is_web(kinds) {
        e0 + react_excludes()
    } else {
        e0
    };
    let base = base_excludes(kinds);
    assert(forall|i: int| 0 <= i < e1.len() ==> #[trigger] base[i] == e1[i]);
    if is_web(kinds) {
        assert(es[2] == "\"dist/**\""@);
        assert(es[3] == "\"build/**\""@);
        assert(es[4] == "\"out/**\""@);
        assert(es[5] == "\".next/**\""@);
        assert(es[6] == "\"node_modules/**\""@);
        assert(es[7] == "\"coverage/**\""@);
    }
    if kinds.contains(ProjectKind::Go) {
        if e1.contains("\"dist/**\""@) {
            if !is_web(kinds) {
                let i = choose|i: int| 0 <= i < e1.len() && e1[i] == "\"dist/**\""@;
                assert(e1[i] == e0[i]);
            }
            assert(es[e1.len() as int] == "\"vendor/**\""@);
        } else {
            assert(es[e1.len() as int] == "\"vendor/**\""@);
            assert(es[e1.len() as int + 1] == "\"dist/**\""@);
            assert(es[e1.len() as int + 2] == "\"build/**\""@);
        }
    }
    if kinds.contains(ProjectKind::Terraform) {
        let e2 = base;
        let e3 = if kinds.contains(ProjectKind::Rust) && mentions_target(e2) {
            e2
        } else {
            e2.push("\"target/**\""@)
        };
        assert(es[e3.len() as int] == "\".terraform/**\""@);
    }
    if kinds.len() == 0 {
        let g = generic_excludes();
        let n = (es.len() - g.len()) as int;
        assert(es[n] == "\"dist/**\""@);
        assert(es[n + 1] == "\"build/**\""@);
        assert(es[n + 2] == "\"node_modules/**\""@);
        assert(es[n + 3] == "\"vendor/**\""@);
        assert(es[n + 5] == "\"coverage/**\""@);
    }
}

/// Markdown files keep their headers untouched in React and TypeScript
/// projects, and only there; each detected kind is named in a comment at
/// the top of the generated file.
pub proof fn law_config_hints_follow_kinds(kinds: Seq<ProjectKind>)
    ensures
        is_web(kinds) ==> header_skip_for(kinds).contains("\"*.md\""@) && header_skip_for(kinds).contains(
            "\"*.mdx\""@,
        ),
        !is_web(kinds) ==> header_skip_for(kinds).len() == 0,
        is_web(kinds) ==> comments_for(kinds).contains("# React / TypeScript project detected"@),
        kinds.contains(ProjectKind::Go) ==> comments_for(kinds).contains("# Go project detected"@),
        kinds.contains(ProjectKind::Rust) ==> comments_for(kinds).contains("# Rust project detected"@),
        kinds.contains(ProjectKind::Terraform) ==> comments_for(kinds).contains(
            "# Terraform project detected — .tf files are supported natively"@,
        ),
        kinds.contains(ProjectKind::Docker) ==> comments_for(kinds).contains(
            "# Docker project detected — add Dockerfile support via [extensions.filenames]"@,
        ),
        kinds.len() == 0 ==> comments_for(kinds).len() == 0,
{
    let hs = header_skip_for(kinds);
    if is_web(kinds) {
        assert(hs[0] == "\"*.md\""@);
        assert(hs[1] == "\"*.mdx\""@);
    }
    let c1 = if is_web(kinds) {
        seq!["# React / TypeScript project detected"@]
    } else {
        seq![]
    };
    let c2 = if kinds.contains(ProjectKind::Go) {
        c1.push("# Go project detected"@)
    } else {
        c1
    };
    let c3 = if kinds.contains(ProjectKind::Rust) {
        c2.push("# Rust project detected"@)
    } else {
        c2
    };
    let c4 = if kinds.contains(ProjectKind::Terraform) {
        c3.push("# Terraform project detected — .tf files are supported natively"@)
    } else {
        c3
    };
    let c = comments_for(kinds);
    assert(forall|i: int| 0 <= i < c4.len() ==> #[trigger] c[i] == c4[i]);
    assert(forall|i: int| 0 <= i < c3.len() ==> #[trigger] c4[i] == c3[i]);
    assert(forall|i: int| 0 <= i < c2.len() ==> #[trigger] c3[i] == c2[i]);
    assert(forall|i: int| 0 <= i < c1.len() ==> #[trigger] c2[i] == c1[i]);
    if is_web(kinds) {
        assert(c[0] == c1[0]);
    }
    if kinds.contains(ProjectKind::Go) {
        assert(c[c2.len() - 1] == "# Go project detected"@);
    }
    if kinds.contains(ProjectKind::Rust) {
        assert(c[c3.len() - 1] == "# Rust project detected"@);
    }
    if kinds.contains(ProjectKind::Terraform) {
        assert(c[c4.len() - 1] == "# Terraform project detected — .tf files are supported natively"@);
    }
    if kinds.contains(ProjectKind::Docker) {
        assert(c[c.len() - 1] == "# Docker project detected — add Dockerfile support via [extensions.filenames]"@);
    }
}

/// `no_dups` of a push: the new pattern differs from every earlier one.
proof fn lemma_no_dups_push(s: Seq<Seq<char>>, x: Seq<char>)
    requires
        no_dups(s),
        forall|i: int| 0 <= i < s.len() ==> s[i] != x,
    ensures
        no_dups(s.push(x)),
{
    let t = s.push(x);
    assert forall|i: int, j: int| 0 <= i < j < t.len() implies t[i] != t[j] by {
        if j == s.len() {
            assert(t[i] == s[i]);
        } else {
            assert(t[i] == s[i] && t[j] == s[j]);
        }
    }
}

/// When a project kind was detected, no exclude pattern is generated twice
/// (React together with Go gets `dist/**` once; Rust gets `target/**` once).
/// With nothing detected, `target/**` is listed twice: once as the default
/// added for non-Rust projects and once in the generic set.
pub proof fn law_config_excludes_have_no_duplicates(kinds: Seq<ProjectKind>)
    requires
        kinds.len() > 0,
    ensures
        no_dups(excludes_for(kinds)),
{
    lemma_reveal_patterns();
    lemma_no_target_before(kinds);
    let a = "\"*.min.*\""@;
    let b = "\"*.bundle.*\""@;
    let d = "\"dist/**\""@;
    let bu = "\"build/**\""@;
    let o = "\"out/**\""@;
    let n = "\".next/**\""@;
    let nm = "\"node_modules/**\""@;
    let c = "\"coverage/**\""@;
    let v = "\"vendor/**\""@;
    let t = "\"target/**\""@;
    let tf = "\".terraform/**\""@;
    let e0 = seq![a, b];
    assert(no_dups(seq![a])) by {
        lemma_no_dups_push(Seq::<Seq<char>>::empty(), a);
        assert(Seq::<Seq<char>>::empty().push(a) =~= seq![a]);
    }
    lemma_no_dups_push(seq![a], b);
    assert(seq![a].push(b) =~= e0);
    let e1 = if is_web(kinds) {
        e0 + react_excludes()
    } else {
        e0
    };
    if is_web(kinds) {
        let w1 = e0.push(d);
        lemma_no_dups_push(e0, d);
        let w2 = w1.push(bu);
        lemma_no_dups_push(w1, bu);
        let w3 = w2.push(o);
        lemma_no_dups_push(w2, o);
        let w4 = w3.push(n);
        lemma_no_dups_push(w3, n);
        let w5 = w4.push(nm);
        lemma_no_dups_push(w4, nm);
        lemma_no_dups_push(w5, c);
        assert(w5.push(c) =~= e1);
        assert(e1[2] == d);
    } else {
        assert(!e1.contains(d)) by {
            if e1.contains(d) {
                let k = choose|k: int| 0 <= k < e1.len() && e1[k] == d;
                assert(k == 0 || k == 1);
            }
        }
    }
    assert(no_dups(e1));
    let e2 = base_excludes(kinds);
    if kinds.contains(ProjectKind::Go) {
        let g1 = e1.push(v);
        lemma_no_dups_push(e1, v);
        if !e1.contains(d) {
            let g2 = g1.push(d);
            lemma_no_dups_push(g1, d);
            lemma_no_dups_push(g2, bu);
        }
    }
    assert(no_dups(e2));
    let e3 = e2.push(t);
    lemma_no_dups_push(e2, t);
    if kinds.contains(ProjectKind::Terraform) {
        lemma_no_dups_push(e3, tf);
    }
}

} // verus!
