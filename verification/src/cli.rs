//! The command line: commands and their options, as plain values.
//!
//! Parsing the actual arguments is done by the caller, which fills these.
use vstd::prelude::*;

verus! {

broadcast use vstd::string::group_string_axioms;

/// The parsed command line.
#[derive(Debug)]
pub struct Cli {
    /// The command; `None` means `tag` with its defaults.
    pub command: Option<Commands>,
    /// Show detailed processing information.
    pub verbose: bool,
    /// Path to the config file (default: searched upward for `.bark.toml`).
    pub config: Option<String>,
}

/// The commands.
#[derive(Debug)]
pub enum Commands {
    /// Add or update file headers (the default command).
    Tag(TagArgs),
    /// Remove headers.
    Strip(StripArgs),
    /// Generate the directory tree only.
    Tree(TreeArgs),
    /// Watch directories and tag files on change.
    Watch(WatchArgs),
    /// Restore files from backups.
    Restore(RestoreArgs),
    /// Create a `.bark.toml` config file.
    Init(InitArgs),
    /// Check that every file has a current header.
    Check(CheckArgs),
    /// Remove old backups, keeping the most recent ones of each file.
    Clean(CleanArgs),
    /// Show the configuration in effect.
    Config(ConfigArgs),
}

/// `bark tag`.
#[derive(Debug)]
pub struct TagArgs {
    /// Preview changes without modifying files.
    pub dry_run: bool,
    /// Skip creating backups.
    pub force: bool,
    /// Output file for the directory tree.
    pub output: String,
    /// Directory to store backups.
    pub backup_dir: String,
    /// Root directories to process (none means the current directory).
    pub roots: Vec<String>,
    /// Header template for this run.
    pub template: Option<String>,
    /// Maximum file size to process, in bytes.
    pub max_size: Option<u64>,
    /// Number of threads (0 = automatic).
    pub threads: usize,
    /// Skip generating the tree.
    pub no_tree: bool,
    /// Only process the files staged in git.
    pub staged: bool,
}

/// `bark strip`.
#[derive(Debug)]
pub struct StripArgs {
    pub dry_run: bool,
    pub roots: Vec<String>,
    /// Create backups before stripping.
    pub backup: bool,
    pub backup_dir: String,
}

/// `bark watch`.
#[derive(Debug)]
pub struct WatchArgs {
    /// Root directories to watch (none means the current directory).
    pub roots: Vec<String>,
    /// Debounce delay in milliseconds.
    pub debounce: u64,
    pub dry_run: bool,
    /// Output file for tree regeneration.
    pub output: String,
}

/// `bark restore`.
#[derive(Debug)]
pub struct RestoreArgs {
    /// Project root (default: the current directory).
    pub root: Option<String>,
    /// Backup directory to restore from.
    pub backup_dir: String,
    /// Restore only backups of this file.
    pub file: Option<String>,
    pub dry_run: bool,
    /// Restore the most recent backup of each file.
    pub latest: bool,
}

/// `bark tree`.
#[derive(Debug)]
pub struct TreeArgs {
    pub roots: Vec<String>,
    pub output: String,
}

/// `bark init`.
#[derive(Debug)]
pub struct InitArgs {
    /// Directory to create `.bark.toml` in (default: the current directory).
    pub dir: Option<String>,
    /// Overwrite an existing `.bark.toml`.
    pub force: bool,
    /// Detect the project type and tailor the config to it.
    pub detect: bool,
}

/// `bark check`.
#[derive(Debug)]
pub struct CheckArgs {
    pub roots: Vec<String>,
}

/// `bark clean`.
#[derive(Debug)]
pub struct CleanArgs {
    /// Number of most recent backups to keep per file.
    pub keep: usize,
    pub backup_dir: String,
    pub dry_run: bool,
    pub roots: Vec<String>,
}

/// `bark config`.
#[derive(Debug)]
pub struct ConfigArgs {
    /// Directory to resolve the configuration for.
    pub dir: Option<String>,
    /// Also show which file the configuration came from.
    pub source: bool,
}

impl TagArgs {
    /// The options `bark tag` has when none is given.
    pub open spec fn is_default(&self) -> bool {
        &&& !self.dry_run
        &&& !self.force
        &&& self.output@ == "tree.txt"@
        &&& self.backup_dir@ == ".bark_backups"@
        &&& self.roots@.len() == 0
        &&& self.template is None
        &&& self.max_size is None
        &&& self.threads == 0
        &&& !self.no_tree
        &&& !self.staged
    }
}

impl Default for TagArgs {
    fn default() -> (r: Self)
        ensures
            r.is_default(),
    {
        TagArgs {
            dry_run: false,
            force: false,
            output: "tree.txt".to_owned(),
            backup_dir: ".bark_backups".to_owned(),
            roots: Vec::new(),
            template: None,
            max_size: None,
            threads: 0,
            no_tree: false,
            staged: false,
        }
    }
}

impl Cli {
    /// The command to run: the one given, or `tag` with its defaults (so
    /// that `bark` alone is `bark tag`).
    pub fn into_command(self) -> (r: Commands)
        ensures
            self.command is Some ==> r == self.command->0,
            self.command is None ==> (r matches Commands::Tag(a) && a.is_default()),
    {
        match self.command {
            Some(c) => c,
            None => Commands::Tag(TagArgs::default()),
        }
    }
}

/// Whether `tag` backs files up before changing them: backups are on in the
/// configuration and `--force` was not given.
pub fn backups_enabled(force: bool, config_backup: bool) -> (r: bool)
    ensures
        r == (!force && config_backup),
{
    !force && config_backup
}

/// The roots to process: those given, or the current directory `.`.
pub fn resolve_roots(roots: &Vec<String>) -> (r: Vec<String>)
    ensures
        roots@.len() == 0 ==> r@.len() == 1 && r@[0]@ == "."@,
        roots@.len() > 0 ==> r@ == roots@,
{
    if roots.len() == 0 {
        let mut v: Vec<String> = Vec::new();
        v.push(".".to_owned());
        v
    } else {
        crate::text::copy_strings(roots.as_slice())
    }
}

} // verus!
