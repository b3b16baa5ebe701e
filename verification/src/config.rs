//! Configuration: what `.bark.toml` can set, and the built-in defaults.
//!
//! Reading and parsing the file is done by the caller; these are the plain
//! values the rest of the library works with.
use crate::backup::{join_path, join_paths};
use crate::header::{join, lemma_join_push};
use crate::paths::{components, path_components, piece_views};
use crate::text::{extend_chars, str_eq, string_from_chars, strings_view};
use vstd::prelude::*;

verus! {

broadcast use vstd::string::group_string_axioms;

/// The whole configuration.
#[derive(Debug, Clone)]
pub struct Config {
    pub general: GeneralConfig,
    pub template: TemplateConfig,
    pub exclude: ExcludeConfig,
    pub extensions: ExtensionsConfig,
    pub watch: WatchConfig,
}

/// `[general]`.
#[derive(Debug, Clone)]
pub struct GeneralConfig {
    /// Tree output file name.
    pub output: String,
    /// Where backups are stored.
    pub backup_dir: String,
    /// Files larger than this many bytes are skipped.
    pub max_file_size: u64,
    /// Whether backups are made before files are modified.
    pub backup: bool,
}

/// `[template]`.
#[derive(Debug, Clone)]
pub struct TemplateConfig {
    /// Header template applied to every file.
    pub default: String,
    /// strftime format of `{{date}}`.
    pub date_format: String,
    /// `[template.variables]`: static variables, `(name, value)`.
    pub variables: Vec<(String, String)>,
    /// `[template.overrides]`: per-extension templates, `(extension, template)`.
    pub overrides: Vec<(String, String)>,
}

/// `[exclude]`.
#[derive(Debug, Clone)]
pub struct ExcludeConfig {
    /// Glob patterns of paths that are skipped entirely.
    pub patterns: Vec<String>,
    /// Glob patterns of paths that stay in the tree but whose headers are
    /// never added or changed.
    pub header_skip: Vec<String>,
}

/// `[extensions]`.
#[derive(Debug, Clone)]
pub struct ExtensionsConfig {
    /// Extra extensions and their comment styles.
    pub custom: Vec<CustomExtension>,
    /// Extensions that are always skipped.
    pub skip: Vec<String>,
    /// Extra extensionless file names and their comment styles.
    pub filenames: Vec<CustomFilename>,
    /// Extensionless file names (lower case) that are always skipped.
    pub filename_skip: Vec<String>,
}

/// A user-defined extension: `{ ext = "lua", style = "slash" }`.
#[derive(Debug, Clone)]
pub struct CustomExtension {
    pub ext: String,
    pub style: String,
}

/// A user-defined extensionless file name: `{ name = "Dockerfile", style = "hash" }`.
#[derive(Debug, Clone)]
pub struct CustomFilename {
    pub name: String,
    pub style: String,
}

/// `[watch]`.
#[derive(Debug, Clone)]
pub struct WatchConfig {
    /// Milliseconds to wait after a change before processing.
    pub debounce_ms: u64,
    /// Extra glob patterns ignored in watch mode.
    pub ignore: Vec<String>,
}

/// The built-in exclude patterns.
pub open spec fn default_patterns_spec() -> Seq<Seq<char>> {
    seq![
        "*.min.*"@,
        "*.bundle.*"@,
        "dist/**"@,
        "build/**"@,
        "node_modules/**"@,
        "vendor/**"@,
        "target/**"@,
    ]
}

/// The default tree output file name.
pub fn default_output() -> (r: String)
    ensures
        r@ == "bark.txt"@,
{
    "bark.txt".to_owned()
}

/// The default backup directory.
pub fn default_backup_dir() -> (r: String)
    ensures
        r@ == ".barks"@,
{
    ".barks".to_owned()
}

/// The default size limit: 1 MiB.
pub fn default_max_file_size() -> (r: u64)
    ensures
        r == 1048576,
{
    1048576
}

/// Backups are on by default.
pub fn default_true() -> (r: bool)
    ensures
        r,
{
    true
}

/// The default header template.
pub fn default_template() -> (r: String)
    ensures
        r@ == "File: {{file}}"@,
{
    "File: {{file}}".to_owned()
}

/// The default date format.
pub fn default_date_format() -> (r: String)
    ensures
        r@ == "%Y-%m-%d"@,
{
    "%Y-%m-%d".to_owned()
}

/// The default exclude patterns.
pub fn default_exclude_patterns() -> (r: Vec<String>)
    ensures
        strings_view(r@) == default_patterns_spec(),
{
    let mut v: Vec<String> = Vec::new();
    v.push("*.min.*".to_owned());
    v.push("*.bundle.*".to_owned());
    v.push("dist/**".to_owned());
    v.push("build/**".to_owned());
    v.push("node_modules/**".to_owned());
    v.push("vendor/**".to_owned());
    v.push("target/**".to_owned());
    assert(strings_view(v@) =~= default_patterns_spec());
    v
}

/// The default watch debounce: 500 ms.
pub fn default_debounce_ms() -> (r: u64)
    ensures
        r == 500,
{
    500
}

impl GeneralConfig {
    /// The `[general]` defaults.
    pub open spec fn is_default(&self) -> bool {
        &&& self.output@ == "bark.txt"@
        &&& self.backup_dir@ == ".barks"@
        &&& self.max_file_size == 1048576
        &&& self.backup
    }
}

impl Default for GeneralConfig {
    fn default() -> (r: Self)
        ensures
            r.is_default(),
    {
        GeneralConfig {
            output: default_output(),
            backup_dir: default_backup_dir(),
            max_file_size: default_max_file_size(),
            backup: default_true(),
        }
    }
}

/// No two pairs share a name: the pairs stand for a map from names to
/// values (as `[template.variables]` and `[template.overrides]` are tables).
pub open spec fn keys_unique(pairs: Seq<(String, String)>) -> bool {
    forall|i: int, j: int| 0 <= i < j < pairs.len() ==> #[trigger] pairs[i].0@ != #[trigger] pairs[j].0@
}

/// Whether no two pairs share a name.
pub fn keys_are_unique(pairs: &Vec<(String, String)>) -> (r: bool)
    ensures
        r == keys_unique(pairs@),
{
    let mut j: usize = 0;
    while j < pairs.len()
        invariant
            j <= pairs@.len(),
            forall|a: int, b: int| 0 <= a < b < j ==> #[trigger] pairs@[a].0@ != #[trigger] pairs@[b].0@,
        decreases pairs.len() - j,
    {
        let mut i: usize = 0;
        while i < j
            invariant
                i <= j < pairs@.len(),
                forall|a: int, b: int| 0 <= a < b < j ==> #[trigger] pairs@[a].0@ != #[trigger] pairs@[b].0@,
                forall|a: int| 0 <= a < i ==> #[trigger] pairs@[a].0@ != pairs@[j as int].0@,
            decreases j - i,
        {
            if str_eq(pairs[i].0.as_str(), pairs[j].0.as_str()) {
                return false;
            }
            i = i + 1;
        }
        j = j + 1;
    }
    true
}

impl TemplateConfig {
    /// The invariant of `[template]`: variables and overrides are maps, each
    /// name at most once.
    pub open spec fn wf(&self) -> bool {
        keys_unique(self.variables@) && keys_unique(self.overrides@)
    }

    /// The `[template]` defaults.
    pub open spec fn is_default(&self) -> bool {
        &&& self.default@ == "File: {{file}}"@
        &&& self.date_format@ == "%Y-%m-%d"@
        &&& self.variables@.len() == 0
        &&& self.overrides@.len() == 0
    }
}

impl Default for TemplateConfig {
    fn default() -> (r: Self)
        ensures
            r.is_default(),
            r.wf(),
    {
        TemplateConfig {
            default: default_template(),
            date_format: default_date_format(),
            variables: Vec::new(),
            overrides: Vec::new(),
        }
    }
}

impl ExcludeConfig {
    /// The `[exclude]` defaults.
    pub open spec fn is_default(&self) -> bool {
        &&& strings_view(self.patterns@) == default_patterns_spec()
        &&& self.header_skip@.len() == 0
    }
}

impl Default for ExcludeConfig {
    fn default() -> (r: Self)
        ensures
            r.is_default(),
    {
        ExcludeConfig { patterns: default_exclude_patterns(), header_skip: Vec::new() }
    }
}

impl ExtensionsConfig {
    /// The `[extensions]` defaults: nothing added, nothing skipped.
    pub open spec fn is_default(&self) -> bool {
        &&& self.custom@.len() == 0
        &&& self.skip@.len() == 0
        &&& self.filenames@.len() == 0
        &&& self.filename_skip@.len() == 0
    }
}

impl Default for ExtensionsConfig {
    fn default() -> (r: Self)
        ensures
            r.is_default(),
    {
        ExtensionsConfig {
            custom: Vec::new(),
            skip: Vec::new(),
            filenames: Vec::new(),
            filename_skip: Vec::new(),
        }
    }
}

impl WatchConfig {
    /// The `[watch]` defaults.
    pub open spec fn is_default(&self) -> bool {
        &&& self.debounce_ms == 500
        &&& self.ignore@.len() == 0
    }
}

impl Default for WatchConfig {
    fn default() -> (r: Self)
        ensures
            r.is_default(),
    {
        WatchConfig { debounce_ms: default_debounce_ms(), ignore: Vec::new() }
    }
}

impl Config {
    /// Every section at its defaults.
    pub open spec fn is_default(&self) -> bool {
        &&& self.general.is_default()
        &&& self.template.is_default()
        &&& self.exclude.is_default()
        &&& self.extensions.is_default()
        &&& self.watch.is_default()
    }
}

impl Default for Config {
    fn default() -> (r: Self)
        ensures
            r.is_default(),
            r.template.wf(),
    {
        Config {
            general: GeneralConfig::default(),
            template: TemplateConfig::default(),
            exclude: ExcludeConfig::default(),
            extensions: ExtensionsConfig::default(),
            watch: WatchConfig::default(),
        }
    }
}

// ---------------------------------------------------------------------------
// Where the configuration is looked for
// ---------------------------------------------------------------------------

/// A path written from its components (the root component is `/`).
pub open spec fn render_components(cs: Seq<Seq<char>>) -> Seq<char> {
    if cs.len() > 0 && cs[0] == seq!['/'] {
        seq!['/'] + join(cs.drop_first(), seq!['/'])
    } else {
        join(cs, seq!['/'])
    }
}

/// The directories searched for `.bark.toml`, from `start` upward: `start`
/// with its last `k` components taken off, for every `k` until the root
/// (absolute paths) or the empty path (relative paths) is reached.
pub open spec fn search_dirs(cs: Seq<Seq<char>>, k: int) -> Seq<Seq<char>>
    decreases k,
{
    let lo: int = if cs.len() > 0 && cs[0] == seq!['/'] {
        1
    } else {
        0
    };
    if k < lo || k > cs.len() {
        seq![]
    } else if k == lo {
        seq![render_components(cs.take(k))]
    } else {
        seq![render_components(cs.take(k))] + search_dirs(cs, k - 1)
    }
}

proof fn lemma_search_dirs(cs: Seq<Seq<char>>, k: int)
    requires
        0 <= k <= cs.len(),
    ensures
        ({
            let lo: int = if cs.len() > 0 && cs[0] == seq!['/'] {
                1
            } else {
                0
            };
            &&& k >= lo ==> search_dirs(cs, k).len() == k - lo + 1
            &&& k < lo ==> search_dirs(cs, k).len() == 0
            &&& forall|m: int| 0 <= m < search_dirs(cs, k).len() ==> #[trigger] search_dirs(cs, k)[m] == render_components(cs.take(k - m))
        }),
    decreases k,
{
    let lo: int = if cs.len() > 0 && cs[0] == seq!['/'] {
        1
    } else {
        0
    };
    if k > lo {
        lemma_search_dirs(cs, k - 1);
        let d = search_dirs(cs, k);
        let rest = search_dirs(cs, k - 1);
        assert forall|m: int| 0 <= m < d.len() implies #[trigger] d[m] == render_components(cs.take(k - m)) by {
            if m > 0 {
                assert(d[m] == rest[m - 1]);
            }
        }
    }
}

/// The user configuration file under the home directory.
pub open spec fn user_config_path(home: Seq<char>) -> Seq<char> {
    join_path(join_path(join_path(home, ".config"@), "bark"@), "config.toml"@)
}

/// The config files tried, in order: `.bark.toml` in `start` and each of its
/// ancestors, then `~/.config/bark/config.toml` when the home directory is known.
pub open spec fn search_paths_spec(start: Seq<char>, home: Option<Seq<char>>) -> Seq<Seq<char>> {
    let cs = components(start);
    let dirs = search_dirs(cs, cs.len() as int);
    let local = dirs.map_values(|d: Seq<char>| join_path(d, ".bark.toml"@));
    match home {
        Some(h) => local.push(user_config_path(h)),
        None => local,
    }
}

/// The path made of the first `k` components of `cs`.
fn render_prefix(cs: &Vec<Vec<char>>, k: usize) -> (r: String)
    requires
        k <= cs@.len(),
    ensures
        r@ == render_components(piece_views(cs@).take(k as int)),
{
    let ghost all = piece_views(cs@);
    let ghost t = all.take(k as int);
    let rooted = k > 0 && cs[0].len() == 1 && cs[0][0] == '/';
    assert(k > 0 ==> all[0] == cs@[0]@);
    assert(rooted == (t.len() > 0 && t[0] == seq!['/'])) by {
        if t.len() > 0 && t[0].len() == 1 && t[0][0] == '/' {
            assert(t[0] =~= seq!['/']);
        }
    }
    let start: usize = if rooted {
        1
    } else {
        0
    };
    let ghost parts = t.skip(start as int);
    let mut out: Vec<char> = Vec::new();
    if rooted {
        out.push('/');
    }
    let ghost lead = out@;
    let mut i: usize = start;
    assert(parts.take(0) =~= Seq::<Seq<char>>::empty());
    while i < k
        invariant
            start <= i <= k <= cs@.len(),
            all == piece_views(cs@),
            t == all.take(k as int),
            parts == t.skip(start as int),
            out@ == lead + join(parts.take(i - start), seq!['/']),
        decreases k - i,
    {
        let ghost before = out@;
        let ghost j = i - start;
        if i > start {
            out.push('/');
        }
        extend_chars(&mut out, cs[i].as_slice());
        proof {
            assert(parts[j] == cs@[i as int]@);
            assert(parts.take(j + 1) =~= parts.take(j).push(parts[j]));
            if j > 0 {
                lemma_join_push(parts.take(j), parts[j], seq!['/']);
                assert(out@ =~= lead + (join(parts.take(j), seq!['/']) + seq!['/'] + parts[j]));
            } else {
                assert(parts.take(1) =~= seq![parts[0]]);
                assert(out@ =~= lead + parts[0]);
            }
        }
        i = i + 1;
    }
    assert(parts.take(k - start) =~= parts);
    proof {
        if rooted {
            assert(t.drop_first() =~= parts);
            assert(lead =~= seq!['/']);
        } else {
            assert(parts =~= t);
            assert(lead =~= Seq::<char>::empty());
        }
    }
    string_from_chars(out.as_slice())
}

impl Config {
    /// The config files to try, in order, for a run started in `start_dir`
    /// (`.bark.toml` upward from it, then the user config when `home` is
    /// known). The first that is a file is loaded.
    pub fn search_paths(start_dir: &str, home: Option<&str>) -> (r: Vec<String>)
        ensures
            strings_view(r@) == search_paths_spec(
                start_dir@,
                match home {
                    Some(h) => Some(h@),
                    None => None,
                },
            ),
    {
        let cs = path_components(start_dir);
        let ghost cv = piece_views(cs@);
        assert(cv.len() == cs@.len());
        let rooted = cs.len() > 0 && cs[0].len() == 1 && cs[0][0] == '/';
        assert(cs@.len() > 0 ==> cv[0] == cs@[0]@);
        assert(rooted == (cv.len() > 0 && cv[0] == seq!['/'])) by {
            if cv.len() > 0 && cv[0].len() == 1 && cv[0][0] == '/' {
                assert(cv[0] =~= seq!['/']);
            }
        }
        let lo: usize = if rooted {
            1
        } else {
            0
        };
        let n = cs.len();
        proof {
            lemma_search_dirs(cv, n as int);
        }
        let ghost dirs = search_dirs(cv, n as int);
        let ghost local = dirs.map_values(|d: Seq<char>| join_path(d, ".bark.toml"@));
        let mut out: Vec<String> = Vec::new();
        let mut k: usize = n;
        loop
            invariant_except_break
                lo <= k <= n,
                out@.len() + k == n,
            invariant
                lo <= 1,
                lo <= n,
                n == cv.len(),
                cv == piece_views(cs@),
                out@.len() <= n - lo + 1,
                forall|j: int| 0 <= j < out@.len() ==> (#[trigger] out@[j])@ == join_path(render_components(cv.take(n - j)), ".bark.toml"@),
            ensures
                out@.len() == n - lo + 1,
            decreases k,
        {
            let dir = render_prefix(&cs, k);
            let p = join_paths(dir.as_str(), ".bark.toml");
            out.push(p);
            if k == lo {
                break;
            }
            k = k - 1;
        }
        assert(strings_view(out@) =~= local);
        match home {
            Some(h) => {
                let a = join_paths(h, ".config");
                let b = join_paths(a.as_str(), "bark");
                let c = join_paths(b.as_str(), "config.toml");
                let ghost before = strings_view(out@);
                out.push(c);
                assert(strings_view(out@) =~= before.push(user_config_path(h@)));
            },
            None => {},
        }
        out
    }
}

/// The commented configuration file that `bark init` writes.
pub const DEFAULT_CONFIG_TOML: &'static str = r#"# .bark.toml: project configuration for bark

[general]
output        = "bark.txt"  # tree output filename
backup_dir    = ".barks"    # where backups are stored
max_file_size = 1048576     # skip files larger than this (bytes, default 1 MB)
backup        = true        # create backups before modifying files

[template]
# Available variables: {{file}}, {{date}}, {{year}}, {{author}},
#                      {{project}}, {{filename}}, {{ext}}
default     = "File: {{file}}"
date_format = "%Y-%m-%d"    # strftime format

# Per-extension overrides, keyed by extension without the dot
[template.overrides]
# rs = "File: {{file}} | Author: {{author}} | {{date}}"
# py = "File: {{file}} | Project: {{project}}"

# Static variables you can reference in any template
[template.variables]
# author  = "Your Name"
# project = "my-project"

[exclude]
# Glob patterns: bark skips any file whose relative path matches
patterns = [
    "*.min.*",
    "*.bundle.*",
    "dist/**",
    "build/**",
    "node_modules/**",
    "vendor/**",
    "target/**",
]
# Files matching these stay in the tree, but their headers are never added or updated
header_skip = []

[extensions]
# style: "slash" (// ...), "hash" (# ...), "css" (/* ... */), "html" (<!-- ... -->)
custom = [
    # { ext = "lua",   style = "slash" },
    # { ext = "bicep", style = "slash" },
]
# Extensions to always skip
skip = []
# Extensionless file names and their styles
filenames = [
    # { name = "Dockerfile",  style = "hash"  },
    # { name = "Jenkinsfile", style = "slash" },
]
# Extensionless file names to always skip
filename_skip = []

[watch]
debounce_ms = 500   # milliseconds to wait after a change before processing
ignore      = []    # additional glob patterns to ignore in watch mode
"#;

/// The configuration file written by `bark init`.
pub fn default_config_toml() -> (r: &'static str)
    ensures
        r@ == DEFAULT_CONFIG_TOML@,
{
    DEFAULT_CONFIG_TOML
}

} // verus!
