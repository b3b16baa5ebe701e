//! Which files of a project are tagged, and in which comment style.
//!
//! The directory walk itself (honouring `.gitignore` and `.barkignore`) is
//! done by the caller; for every file it finds, the functions here decide
//! whether the file is taken and with which style.
use crate::config::{Config, CustomExtension, CustomFilename};
use crate::header::{ext_style, filename_style, style_from_name, style_named, CommentStyle};
use crate::paths::{
    extension, extension_of, file_name, file_name_of, path_starts_with, slashed, starts_with_path,
    to_slashes,
};
use crate::text::{contains_string, lowercase_of, str_eq, strings_view, to_lowercase};
use vstd::prelude::*;

verus! {

broadcast use vstd::string::group_string_axioms;

/// A file to be tagged.
pub struct WalkEntry {
    /// Absolute (canonical) path of the file.
    pub abs_path: String,
    /// Path relative to the project root.
    pub rel_path: String,
    /// Comment style of the file's header.
    pub style: CommentStyle,
}

/// The file selection of one project root.
pub struct Walker {
    pub root: String,
    pub config: Config,
    pub output_path: String,
    pub backup_dir: String,
}

// ---------------------------------------------------------------------------
// Outside functions
// ---------------------------------------------------------------------------

/// Whether `glob::Pattern::new(pattern)` succeeds and the compiled pattern
/// matches `text` (default `MatchOptions`).
pub uninterp spec fn glob_matches(pattern: Seq<char>, text: Seq<char>) -> bool;

/// `glob::Pattern::new(pattern)` then `Pattern::matches(text)`; a pattern
/// that does not compile matches nothing. Trusted: the result is named
/// `glob_matches` of the two texts; glob syntax itself is not stated.
#[verifier::external_body]
fn glob_match(pattern: &str, text: &str) -> (r: bool)
    ensures
        r == glob_matches(pattern@, text@),
{
    match glob::Pattern::new(pattern) {
        Ok(p) => p.matches(text),
        Err(_) => false,
    }
}

/// A byte-order mark opens the buffer.
pub open spec fn starts_with_bom(b: Seq<u8>) -> bool {
    ||| (b.len() >= 3 && b[0] == 0xEF && b[1] == 0xBB && b[2] == 0xBF)
    ||| (b.len() >= 4 && b[0] == 0x00 && b[1] == 0x00 && b[2] == 0xFE && b[3] == 0xFF)
    ||| (b.len() >= 2 && b[0] == 0xFE && b[1] == 0xFF)
    ||| (b.len() >= 2 && b[0] == 0xFF && b[1] == 0xFE)
}

/// `content_inspector`'s verdict on a buffer: binary when no byte-order
/// mark opens it and either a zero byte occurs among its first 1024 bytes,
/// or it starts with `%PDF` or `\x89PNG`.
pub open spec fn binary_content(b: Seq<u8>) -> bool {
    &&& !starts_with_bom(b)
    &&& {
        ||| (exists|i: int| 0 <= i < b.len() && i < 1024 && b[i] == 0)
        ||| (b.len() >= 4 && b[0] == 0x25 && b[1] == 0x50 && b[2] == 0x44 && b[3] == 0x46)
        ||| (b.len() >= 4 && b[0] == 0x89 && b[1] == 0x50 && b[2] == 0x4E && b[3] == 0x47)
    }
}

/// `content_inspector::inspect(buf) == ContentType::BINARY`. Trusted: the
/// crate's rule (byte-order marks first, then zero bytes in the first 1024
/// bytes, then the PDF and PNG magic numbers) is `binary_content`.
#[verifier::external_body]
fn inspect_is_binary(buf: &[u8]) -> (r: bool)
    ensures
        r == binary_content(buf@),
{
    match content_inspector::inspect(buf) {
        content_inspector::ContentType::BINARY => true,
        content_inspector::ContentType::UTF_8 => false,
        content_inspector::ContentType::UTF_8_BOM => false,
        content_inspector::ContentType::UTF_16LE => false,
        content_inspector::ContentType::UTF_16BE => false,
        content_inspector::ContentType::UTF_32LE => false,
        content_inspector::ContentType::UTF_32BE => false,
    }
}

/// Whether the first bytes of a file show it to be binary.
pub fn is_binary_content(head: &[u8]) -> (r: bool)
    ensures
        r == binary_content(head@),
{
    inspect_is_binary(head)
}

// ---------------------------------------------------------------------------
// Exclusion patterns
// ---------------------------------------------------------------------------

/// `path`, or its file name, matches some pattern.
pub open spec fn excluded_by(path: Seq<char>, patterns: Seq<Seq<char>>) -> bool {
    exists|i: int|
        0 <= i < patterns.len() && (glob_matches(#[trigger] patterns[i], path) || (
        file_name_of(path) matches Some(f) && glob_matches(patterns[i], f)))
}

/// Whether `path` (relative, `/`-separated) or its file name matches one of
/// the glob `patterns`. Patterns that do not compile match nothing.
pub fn is_path_excluded(path: &str, patterns: &[String]) -> (r: bool)
    ensures
        r == excluded_by(path@, strings_view(patterns@)),
{
    let ghost ps = strings_view(patterns@);
    let fname = file_name(path);
    let mut i: usize = 0;
    while i < patterns.len()
        invariant
            i <= patterns@.len(),
            ps == strings_view(patterns@),
            fname is None <==> file_name_of(path@) is None,
            fname matches Some(f) ==> file_name_of(path@) == Some(f@),
            forall|j: int|
                0 <= j < i ==> !(glob_matches(#[trigger] ps[j], path@) || (file_name_of(path@) matches Some(
                    f,
                ) && glob_matches(ps[j], f))),
        decreases patterns.len() - i,
    {
        assert(ps[i as int] == patterns@[i as int]@);
        if glob_match(patterns[i].as_str(), path) {
            return true;
        }
        match &fname {
            Some(f) => {
                if glob_match(patterns[i].as_str(), f.as_str()) {
                    return true;
                }
            },
            None => {},
        }
        i = i + 1;
    }
    false
}

// ---------------------------------------------------------------------------
// Styles
// ---------------------------------------------------------------------------

/// The user-defined style of an extension: `Some(style)` for the first
/// custom entry with that extension (`style` is `None` when its name is not
/// a style), `None` when there is no such entry.
pub open spec fn custom_ext_style(customs: Seq<CustomExtension>, ext: Seq<char>) -> Option<Option<CommentStyle>>
    decreases customs.len(),
{
    if customs.len() == 0 {
        None
    } else if customs[0].ext@ == ext {
        Some(style_named(customs[0].style@))
    } else {
        custom_ext_style(customs.drop_first(), ext)
    }
}

/// The style of an extension: a user-defined entry first, else the built-in one.
pub open spec fn resolve_style_spec(customs: Seq<CustomExtension>, ext: Seq<char>) -> Option<CommentStyle> {
    match custom_ext_style(customs, ext) {
        Some(s) => s,
        None => ext_style(ext),
    }
}

/// The user-defined style of an extensionless file name (entries compared in lower case).
pub open spec fn custom_name_style(customs: Seq<CustomFilename>, name: Seq<char>) -> Option<Option<CommentStyle>>
    decreases customs.len(),
{
    if customs.len() == 0 {
        None
    } else if lowercase_of(customs[0].name@) == name {
        Some(style_named(customs[0].style@))
    } else {
        custom_name_style(customs.drop_first(), name)
    }
}

/// The style of an extensionless file name: a user-defined entry first, else the built-in one.
pub open spec fn resolve_filename_spec(customs: Seq<CustomFilename>, name: Seq<char>) -> Option<CommentStyle> {
    match custom_name_style(customs, name) {
        Some(s) => s,
        None => filename_style(name),
    }
}

/// The style chosen for the file at `rel` (before the size and content
/// checks): by its lower-cased extension, or by its lower-cased name when it
/// has none; skipped extensions and names, unknown ones and excluded paths
/// give `None`.
pub open spec fn style_for_spec(config: Config, rel: Seq<char>) -> Option<CommentStyle> {
    let by_kind = match extension_of(rel) {
        Some(e) => {
            let ext = lowercase_of(e);
            if strings_view(config.extensions.skip@).contains(ext) {
                None
            } else {
                resolve_style_spec(config.extensions.custom@, ext)
            }
        },
        None => {
            let name = lowercase_of(
                match file_name_of(rel) {
                    Some(n) => n,
                    None => Seq::<char>::empty(),
                },
            );
            if strings_view(config.extensions.filename_skip@).contains(name) {
                None
            } else {
                resolve_filename_spec(config.extensions.filenames@, name)
            }
        },
    };
    match by_kind {
        Some(s) => if excluded_by(slashed(rel), strings_view(config.exclude.patterns@)) {
            None
        } else {
            Some(s)
        },
        None => None,
    }
}

impl Walker {
    pub fn new(root: String, config: Config, output_path: String, backup_dir: String) -> (r: Self)
        ensures
            r.root == root,
            r.config == config,
            r.output_path == output_path,
            r.backup_dir == backup_dir,
    {
        Walker { root, config, output_path, backup_dir }
    }

    /// The comment style of an extension: user-defined entries take
    /// priority over the built-in table.
    pub fn resolve_style(&self, ext: &str) -> (r: Option<CommentStyle>)
        ensures
            r == resolve_style_spec(self.config.extensions.custom@, ext@),
    {
        resolve_style_in(&self.config.extensions.custom, ext)
    }

    /// The comment style of an extensionless (lower-case) file name:
    /// user-defined entries take priority over the built-in table.
    pub fn resolve_filename_style(&self, name: &str) -> (r: Option<CommentStyle>)
        ensures
            r == resolve_filename_spec(self.config.extensions.filenames@, name@),
    {
        resolve_filename_in(&self.config.extensions.filenames, name)
    }

    /// The comment style of the file at `rel_path`, or `None` when the file
    /// is not tagged: skipped or unknown extension or name, or excluded path.
    pub fn style_for(&self, rel_path: &str) -> (r: Option<CommentStyle>)
        ensures
            r == style_for_spec(self.config, rel_path@),
    {
        style_for_config(&self.config, rel_path)
    }

    /// A file of `size` bytes is small enough to be processed (an unknown
    /// size is not held against it).
    pub fn within_size(&self, size: Option<u64>) -> (r: bool)
        ensures
            r == within_size_spec(self.config, size),
    {
        within_size_of(&self.config, size)
    }

    /// The entry for a file found by the walk: taken when it has a style,
    /// is within the size limit and its first bytes `head` are not binary.
    pub fn entry_for(&self, abs_path: String, rel_path: String, size: Option<u64>, head: &[u8]) -> (r: Option<WalkEntry>)
        ensures
            r == entry_spec(self.config, abs_path, rel_path, size, head@),
    {
        entry_for_config(&self.config, abs_path, rel_path, size, head)
    }
}

/// A file of `size` bytes is within the configured limit (an unknown size is
/// not held against it).
pub open spec fn within_size_spec(config: Config, size: Option<u64>) -> bool {
    match size {
        Some(n) => n <= config.general.max_file_size,
        None => true,
    }
}

/// The entry of a file under the configuration's rules: it has a style (see
/// `style_for_spec`), is within the size limit and its first bytes `head`
/// are not binary.
pub open spec fn entry_spec(config: Config, abs_path: String, rel_path: String, size: Option<u64>, head: Seq<u8>) -> Option<WalkEntry> {
    match style_for_spec(config, rel_path@) {
        Some(style) => if within_size_spec(config, size) && !binary_content(head) {
            Some(WalkEntry { abs_path, rel_path, style })
        } else {
            None
        },
        None => None,
    }
}

/// The size check of `config`.
pub fn within_size_of(config: &Config, size: Option<u64>) -> (r: bool)
    ensures
        r == within_size_spec(*config, size),
{
    match size {
        Some(n) => n <= config.general.max_file_size,
        None => true,
    }
}

/// The entry of the file at `rel_path` under the rules of `config`.
pub fn entry_for_config(config: &Config, abs_path: String, rel_path: String, size: Option<u64>, head: &[u8]) -> (r: Option<WalkEntry>)
    ensures
        r == entry_spec(*config, abs_path, rel_path, size, head@),
{
    match style_for_config(config, rel_path.as_str()) {
        None => None,
        Some(style) => {
            if !within_size_of(config, size) || is_binary_content(head) {
                None
            } else {
                Some(WalkEntry { abs_path, rel_path, style })
            }
        },
    }
}

/// The style of an extension under the user-defined entries `customs`,
/// else the built-in one.
pub fn resolve_style_in(customs: &Vec<CustomExtension>, ext: &str) -> (r: Option<CommentStyle>)
    ensures
        r == resolve_style_spec(customs@, ext@),
{
        assert(customs@.skip(0) =~= customs@);
        let mut i: usize = 0;
        while i < customs.len()
            invariant
                i <= customs@.len(),
                custom_ext_style(customs@, ext@) == custom_ext_style(customs@.skip(i as int), ext@),
            decreases customs.len() - i,
        {
            assert(customs@.skip(i as int)[0] == customs@[i as int]);
            assert(customs@.skip(i as int).drop_first() =~= customs@.skip(i + 1));
            if str_eq(customs[i].ext.as_str(), ext) {
                return style_from_name(customs[i].style.as_str());
            }
            i = i + 1;
        }
        assert(customs@.skip(i as int).len() == 0);
        CommentStyle::from_ext(ext)
}

/// The style of an extensionless (lower-case) file name under the
/// user-defined entries `customs`, else the built-in one.
pub fn resolve_filename_in(customs: &Vec<CustomFilename>, name: &str) -> (r: Option<CommentStyle>)
    ensures
        r == resolve_filename_spec(customs@, name@),
{
        assert(customs@.skip(0) =~= customs@);
        let mut i: usize = 0;
        while i < customs.len()
            invariant
                i <= customs@.len(),
                custom_name_style(customs@, name@) == custom_name_style(customs@.skip(i as int), name@),
            decreases customs.len() - i,
        {
            assert(customs@.skip(i as int)[0] == customs@[i as int]);
            assert(customs@.skip(i as int).drop_first() =~= customs@.skip(i + 1));
            let lower = to_lowercase(customs[i].name.as_str());
            if str_eq(lower.as_str(), name) {
                return style_from_name(customs[i].style.as_str());
            }
            i = i + 1;
        }
        assert(customs@.skip(i as int).len() == 0);
        CommentStyle::filename_to_style(name)
}

/// The comment style of the file at `rel_path` under the rules of `config`,
/// or `None` when the file is not tagged: skipped or unknown extension or
/// name, or excluded path.
pub fn style_for_config(config: &Config, rel_path: &str) -> (r: Option<CommentStyle>)
    ensures
        r == style_for_spec(*config, rel_path@),
{
    let by_kind = match extension(rel_path) {
        Some(e) => {
            let ext = to_lowercase(e.as_str());
            if contains_string(config.extensions.skip.as_slice(), ext.as_str()) {
                None
            } else {
                resolve_style_in(&config.extensions.custom, ext.as_str())
            }
        },
        None => {
            let fname = match file_name(rel_path) {
                Some(n) => n,
                None => String::new(),
            };
            let name = to_lowercase(fname.as_str());
            if contains_string(config.extensions.filename_skip.as_slice(), name.as_str()) {
                None
            } else {
                resolve_filename_in(&config.extensions.filenames, name.as_str())
            }
        },
    };
    match by_kind {
        Some(s) => {
            let rel = to_slashes(rel_path);
            if is_path_excluded(rel.as_str(), config.exclude.patterns.as_slice()) {
                None
            } else {
                Some(s)
            }
        },
        None => None,
    }
}

/// Which files are tagged, and how: a file whose lower-cased extension is
/// on the skip list, or whose path (or file name) matches an `[exclude]`
/// pattern, is not tagged; otherwise the first custom entry for its
/// extension decides its style, and without one the built-in table does. A
/// file over the size limit, or whose first bytes are binary, is not
/// tagged either.
pub proof fn law_walker_rules(config: Config, rel: Seq<char>, e: Seq<char>, i: int)
    ensures
        (extension_of(rel) == Some(e) && strings_view(config.extensions.skip@).contains(lowercase_of(e)))
            ==> style_for_spec(config, rel) is None,
        excluded_by(slashed(rel), strings_view(config.exclude.patterns@)) ==> style_for_spec(config, rel)
            is None,
        (extension_of(rel) == Some(e) && !strings_view(config.extensions.skip@).contains(lowercase_of(e))
            && !excluded_by(slashed(rel), strings_view(config.exclude.patterns@)) && 0 <= i
            < config.extensions.custom@.len() && config.extensions.custom@[i].ext@ == lowercase_of(e)
            && (forall|j: int| 0 <= j < i ==> #[trigger] config.extensions.custom@[j].ext@ != lowercase_of(e)))
            ==> style_for_spec(config, rel) == style_named(config.extensions.custom@[i].style@),
        (extension_of(rel) == Some(e) && !strings_view(config.extensions.skip@).contains(lowercase_of(e))
            && !excluded_by(slashed(rel), strings_view(config.exclude.patterns@)) && (forall|j: int|
            0 <= j < config.extensions.custom@.len() ==> #[trigger] config.extensions.custom@[j].ext@
                != lowercase_of(e))) ==> style_for_spec(config, rel) == ext_style(lowercase_of(e)),
{
    if extension_of(rel) == Some(e) {
        let cs = config.extensions.custom@;
        let le = lowercase_of(e);
        if 0 <= i < cs.len() && cs[i].ext@ == le && (forall|j: int| 0 <= j < i ==> #[trigger] cs[j].ext@ != le) {
            lemma_custom_first(cs, le, i);
        }
        lemma_custom_none(cs, le);
    }
}

proof fn lemma_custom_first(customs: Seq<CustomExtension>, ext: Seq<char>, i: int)
    requires
        0 <= i < customs.len(),
        customs[i].ext@ == ext,
        forall|j: int| 0 <= j < i ==> #[trigger] customs[j].ext@ != ext,
    ensures
        custom_ext_style(customs, ext) == Some(style_named(customs[i].style@)),
    decreases customs.len(),
{
    if i > 0 {
        let rest = customs.drop_first();
        assert forall|j: int| 0 <= j < i - 1 implies #[trigger] rest[j].ext@ != ext by {
            assert(rest[j] == customs[j + 1]);
            assert(customs[j + 1].ext@ != ext);
        }
        assert(customs[0].ext@ != ext);
        assert(rest[i - 1] == customs[i]);
        lemma_custom_first(rest, ext, i - 1);
    }
}

proof fn lemma_custom_none(customs: Seq<CustomExtension>, ext: Seq<char>)
    ensures
        (forall|j: int| 0 <= j < customs.len() ==> #[trigger] customs[j].ext@ != ext) ==> custom_ext_style(
            customs,
            ext,
        ) is None,
    decreases customs.len(),
{
    if customs.len() > 0 {
        let rest = customs.drop_first();
        if forall|j: int| 0 <= j < customs.len() ==> #[trigger] customs[j].ext@ != ext {
            assert(customs[0].ext@ != ext);
            assert forall|j: int| 0 <= j < rest.len() implies #[trigger] rest[j].ext@ != ext by {
                assert(rest[j] == customs[j + 1]);
            }
        }
        lemma_custom_none(rest, ext);
    }
}

/// A file over the size limit, or whose first bytes are binary, is never
/// tagged, whatever its name.
pub proof fn law_walker_skips_large_and_binary(
    config: Config,
    abs_path: String,
    rel_path: String,
    size: Option<u64>,
    head: Seq<u8>,
)
    ensures
        (size matches Some(n) && n > config.general.max_file_size) ==> entry_spec(
            config,
            abs_path,
            rel_path,
            size,
            head,
        ) is None,
        binary_content(head) ==> entry_spec(config, abs_path, rel_path, size, head) is None,
{
}

// ---------------------------------------------------------------------------
// The tool's own files
// ---------------------------------------------------------------------------

/// A file the tool writes itself: the tree output, or anything inside the
/// backup directory (all three paths canonical).
pub open spec fn is_own_file(abs: Seq<char>, output: Seq<char>, backup_dir: Seq<char>) -> bool {
    abs == output || path_starts_with(abs, backup_dir)
}

/// Whether the file at `abs` is the tree output or lies in the backup directory.
pub fn is_own_output(abs: &str, output: &str, backup_dir: &str) -> (r: bool)
    ensures
        r == is_own_file(abs@, output@, backup_dir@),
{
    str_eq(abs, output) || starts_with_path(abs, backup_dir)
}

} // verus!
