//! Tagging and stripping single files: which template applies, what the
//! header should be, and what is to be written back.
//!
//! Reading, backing up and writing files is done by the caller; it hands
//! over a file's content and carries out the returned plan.
use crate::backup::BackupManager;
use crate::config::{keys_unique, Config};
use crate::header::{
    analyze, analyze_spec, apply_tag, apply_tag_spec, build_header, strip, strip_spec, wrap_spec,
    CommentStyle, HeaderAction,
};
use crate::paths::{
    extension, extension_of, file_name, file_name_of, slashed, strip_prefix, strip_prefix_of,
    to_slashes,
};
use crate::template::{
    context_of, leads_with_text, lemma_render_keeps_first, lemma_render_without, render_spec,
    strftime_valid, values_without, year_text, TemplateContext,
};
use crate::text::{
    is_unicode_ws, str_eq, strings_view, to_lowercase, lowercase_of, trim, trim_chars, chars_of,
    string_from_chars,
};
use crate::walker::{
    binary_content, entry_for_config, excluded_by, is_path_excluded, style_for_spec, within_size_spec,
    WalkEntry,
};
use crate::header::is_marker;
use crate::header_laws::{law_tag_then_analyze_is_current, lemma_wrapped_header, one_line};
use vstd::prelude::*;

verus! {

broadcast use vstd::string::group_string_axioms;

/// What tagging did to a file.
#[derive(Debug, Clone, Copy, PartialEq, Eq, Structural)]
pub enum TagResult {
    /// A header was added.
    Tagged,
    /// An existing header was replaced.
    Updated,
    /// The header was already current.
    Current,
    /// The file matches `[exclude] header_skip`; its header is left alone.
    Skipped,
}

/// What is to be done to a file after tagging it.
pub struct TagPlan {
    pub result: TagResult,
    /// The new content, when the file is to be written.
    pub write: Option<String>,
}

/// What is to be done to a file after stripping it.
pub struct StripPlan {
    /// A header was found (and is, or would be, removed).
    pub stripped: bool,
    /// The new content, when the file is to be written.
    pub write: Option<String>,
}

/// Counts of what a run did.
#[derive(Debug, Clone, Copy, PartialEq, Eq, Structural)]
pub struct Stats {
    pub tagged: usize,
    pub updated: usize,
    pub current: usize,
    pub skipped: usize,
    pub stripped: usize,
    pub errors: usize,
}

/// Tags and strips the files of one project root.
pub struct Processor {
    pub config: Config,
    pub backup_mgr: BackupManager,
    pub dry_run: bool,
    pub verbose: bool,
    pub template_override: Option<String>,
    pub author: String,
    pub project: String,
}

// ---------------------------------------------------------------------------
// Author and project
// ---------------------------------------------------------------------------

/// The value of the first variable named `name`.
pub open spec fn lookup(pairs: Seq<(String, String)>, name: Seq<char>) -> Option<Seq<char>>
    decreases pairs.len(),
{
    if pairs.len() == 0 {
        None
    } else if pairs[0].0@ == name {
        Some(pairs[0].1@)
    } else {
        lookup(pairs.drop_first(), name)
    }
}

/// With each name at most once, looking a name up gives the value paired
/// with it, wherever the pair stands: the pairs behave as a map.
pub proof fn law_lookup_finds_each_pair(pairs: Seq<(String, String)>, i: int)
    requires
        keys_unique(pairs),
        0 <= i < pairs.len(),
    ensures
        lookup(pairs, pairs[i].0@) == Some(pairs[i].1@),
    decreases i,
{
    if i > 0 {
        let rest = pairs.drop_first();
        assert(pairs[0].0@ != pairs[i].0@);
        assert forall|a: int, b: int| 0 <= a < b < rest.len() implies #[trigger] rest[a].0@ != #[trigger] rest[b].0@ by {
            assert(rest[a] == pairs[a + 1]);
            assert(rest[b] == pairs[b + 1]);
        }
        assert(rest[i - 1] == pairs[i]);
        law_lookup_finds_each_pair(rest, i - 1);
    }
}

/// The value of the first pair whose name is `name`.
pub fn lookup_pair(pairs: &Vec<(String, String)>, name: &str) -> (r: Option<String>)
    ensures
        r is None <==> lookup(pairs@, name@) is None,
        r matches Some(v) ==> lookup(pairs@, name@) == Some(v@),
{
    let mut i: usize = 0;
    assert(pairs@.skip(0) =~= pairs@);
    while i < pairs.len()
        invariant
            i <= pairs@.len(),
            lookup(pairs@, name@) == lookup(pairs@.skip(i as int), name@),
        decreases pairs.len() - i,
    {
        assert(pairs@.skip(i as int)[0] == pairs@[i as int]);
        assert(pairs@.skip(i as int).drop_first() =~= pairs@.skip(i + 1));
        if str_eq(pairs[i].0.as_str(), name) {
            return Some(pairs[i].1.clone());
        }
        i = i + 1;
    }
    None
}

/// The author: `[template.variables] author`, else the git user name
/// (trimmed, when not empty), else `unknown`.
pub open spec fn author_spec(variables: Seq<(String, String)>, git_user: Option<Seq<char>>) -> Seq<char> {
    match lookup(variables, "author"@) {
        Some(a) => a,
        None => match git_user {
            Some(g) => if trim(g).len() > 0 {
                trim(g)
            } else {
                "unknown"@
            },
            None => "unknown"@,
        },
    }
}

/// The author of the headers, from the configured variables and the output
/// of `git config user.name` (`None` when git could not be run).
pub fn resolve_author(variables: &Vec<(String, String)>, git_user: Option<&str>) -> (r: String)
    ensures
        r@ == author_spec(
            variables@,
            match git_user {
                Some(g) => Some(g@),
                None => None,
            },
        ),
{
    match lookup_pair(variables, "author") {
        Some(a) => a,
        None => match git_user {
            Some(g) => {
                let gv = chars_of(g);
                let t = trim_chars(gv.as_slice());
                if t.len() > 0 {
                    string_from_chars(t.as_slice())
                } else {
                    "unknown".to_owned()
                }
            },
            None => "unknown".to_owned(),
        },
    }
}

/// The project name: `[template.variables] project`, else the name of the
/// (canonical) root directory, else `project`.
pub open spec fn project_spec(variables: Seq<(String, String)>, root: Seq<char>) -> Seq<char> {
    match lookup(variables, "project"@) {
        Some(p) => p,
        None => match file_name_of(root) {
            Some(n) => n,
            None => "project"@,
        },
    }
}

/// The project name of the headers.
pub fn resolve_project(variables: &Vec<(String, String)>, root: &str) -> (r: String)
    ensures
        r@ == project_spec(variables@, root@),
{
    match lookup_pair(variables, "project") {
        Some(p) => p,
        None => match file_name(root) {
            Some(n) => n,
            None => "project".to_owned(),
        },
    }
}

// ---------------------------------------------------------------------------
// Tagging
// ---------------------------------------------------------------------------

/// The template for a file: the one-off override, else the per-extension
/// override for its extension, else the default template.
pub open spec fn template_for(p: Processor, rel: Seq<char>) -> Seq<char> {
    match p.template_override {
        Some(t) => t@,
        None => match lookup(
            p.config.template.overrides@,
            match extension_of(rel) {
                Some(e) => e,
                None => Seq::<char>::empty(),
            },
        ) {
            Some(t) => t,
            None => p.config.template.default@,
        },
    }
}

/// The file at `rel` matches an `[exclude] header_skip` pattern.
pub open spec fn header_skipped(p: Processor, rel: Seq<char>) -> bool {
    excluded_by(slashed(rel), strings_view(p.config.exclude.header_skip@))
}

/// The header a file should carry, for a given context.
pub open spec fn desired_header(p: Processor, rel: Seq<char>, style: CommentStyle, ctx: TemplateContext) -> Seq<char> {
    wrap_spec(style, render_spec(template_for(p, rel), ctx))
}

/// The outcome of tagging `content` (the file at `rel`) for a given context:
/// the result, and the content to write back (none in a dry run, and none
/// when nothing changes).
pub open spec fn tag_outcome(p: Processor, rel: Seq<char>, style: CommentStyle, content: Seq<char>, ctx: TemplateContext) -> (TagResult, Option<Seq<char>>) {
    let h = desired_header(p, rel, style, ctx);
    if header_skipped(p, rel) {
        (TagResult::Skipped, None)
    } else {
        match analyze_spec(content, h, style) {
            HeaderAction::AlreadyCurrent => (TagResult::Current, None),
            HeaderAction::UpdateExisting => (
                TagResult::Updated,
                if p.dry_run {
                    None
                } else {
                    Some(apply_tag_spec(content, h, style))
                },
            ),
            HeaderAction::AddNew => (
                TagResult::Tagged,
                if p.dry_run {
                    None
                } else {
                    Some(apply_tag_spec(content, h, style))
                },
            ),
        }
    }
}

/// The view of a plan.
pub open spec fn plan_view(plan: TagPlan) -> (TagResult, Option<Seq<char>>) {
    (
        plan.result,
        match plan.write {
            Some(w) => Some(w@),
            None => None,
        },
    )
}

impl Processor {
    pub fn new(
        config: Config,
        backup_dir: String,
        dry_run: bool,
        verbose: bool,
        create_backups: bool,
        template_override: Option<String>,
        author: String,
        project: String,
    ) -> (r: Self)
        ensures
            r.config == config,
            r.backup_mgr.backup_dir == backup_dir,
            r.backup_mgr.enabled == create_backups,
            r.dry_run == dry_run,
            r.verbose == verbose,
            r.template_override == template_override,
            r.author == author,
            r.project == project,
    {
        Processor {
            config,
            backup_mgr: BackupManager::new(backup_dir, create_backups),
            dry_run,
            verbose,
            template_override,
            author,
            project,
        }
    }

    /// The template that applies to the file at `rel_path`.
    pub fn template_for(&self, rel_path: &str) -> (r: String)
        ensures
            r@ == template_for(*self, rel_path@),
    {
        match &self.template_override {
            Some(t) => t.clone(),
            None => {
                let ext = match extension(rel_path) {
                    Some(e) => e,
                    None => String::new(),
                };
                match lookup_pair(&self.config.template.overrides, ext.as_str()) {
                    Some(t) => t,
                    None => self.config.template.default.clone(),
                }
            },
        }
    }

    /// Tagging `content`, the file at `rel_path` in comment style `style`,
    /// with the template values `ctx`.
    pub fn plan_tag_with(&self, rel_path: &str, style: CommentStyle, content: &str, ctx: &TemplateContext) -> (r: TagPlan)
        ensures
            plan_view(r) == tag_outcome(*self, rel_path@, style, content@, *ctx),
    {
        let rel = to_slashes(rel_path);
        if is_path_excluded(rel.as_str(), self.config.exclude.header_skip.as_slice()) {
            return TagPlan { result: TagResult::Skipped, write: None };
        }
        let template = self.template_for(rel_path);
        let desired = build_header(style, template.as_str(), ctx);
        match analyze(content, desired.as_str(), style) {
            HeaderAction::AlreadyCurrent => TagPlan { result: TagResult::Current, write: None },
            HeaderAction::UpdateExisting => {
                let write = if self.dry_run {
                    None
                } else {
                    Some(apply_tag(content, desired.as_str(), style))
                };
                TagPlan { result: TagResult::Updated, write }
            },
            HeaderAction::AddNew => {
                let write = if self.dry_run {
                    None
                } else {
                    Some(apply_tag(content, desired.as_str(), style))
                };
                TagPlan { result: TagResult::Tagged, write }
            },
        }
    }

    /// Tagging `content`, the file at `rel_path`, dated now. `None` when the
    /// configured date format is not a valid strftime format, or chrono
    /// cannot format it.
    pub fn plan_tag(&self, rel_path: &str, style: CommentStyle, content: &str) -> (r: Option<TagPlan>)
        ensures
            !strftime_valid(self.config.template.date_format@) ==> r is None,
            r matches Some(plan) ==> exists|date: Seq<char>, year: Seq<char>, ctx: TemplateContext|
                context_of(
                    ctx,
                    rel_path@,
                    date,
                    year,
                    self.author@,
                    self.project@,
                    self.config.template.variables@,
                ) && year_text(year) && (leads_with_text(self.config.template.date_format@) ==> date.len() > 0)
                    && plan_view(plan) == tag_outcome(*self, rel_path@, style, content@, ctx),
    {
        let custom = self.copy_variables();
        match TemplateContext::try_new(
            rel_path,
            self.config.template.date_format.as_str(),
            self.author.clone(),
            self.project.clone(),
            custom,
        ) {
            None => None,
            Some(ctx) => {
                let plan = self.plan_tag_with(rel_path, style, content, &ctx);
                assert(context_of(
                    ctx,
                    rel_path@,
                    ctx.date@,
                    ctx.year@,
                    self.author@,
                    self.project@,
                    self.config.template.variables@,
                ));
                Some(plan)
            },
        }
    }

    /// A copy of the configured template variables.
    fn copy_variables(&self) -> (r: Vec<(String, String)>)
        ensures
            r@ == self.config.template.variables@,
    {
        let v = &self.config.template.variables;
        let mut r: Vec<(String, String)> = Vec::new();
        let mut i: usize = 0;
        while i < v.len()
            invariant
                i <= v@.len(),
                v == &self.config.template.variables,
                r@ == v@.take(i as int),
            decreases v.len() - i,
        {
            let pair = (v[i].0.clone(), v[i].1.clone());
            r.push(pair);
            assert(v@.take(i as int).push(v@[i as int]) =~= v@.take(i + 1));
            i = i + 1;
        }
        assert(v@.take(v@.len() as int) =~= v@);
        r
    }

    /// The entry of a single file tagged by its path below `root` (as the
    /// watcher does): the same rules as a walk of the root (skip lists,
    /// custom extensions and file names, `[exclude]` patterns, size and
    /// binary checks), applied to its path relative to `root`.
    pub fn watch_entry(&self, abs_path: String, root: &str, size: Option<u64>, head: &[u8]) -> (r: Option<WalkEntry>)
        ensures
            r is Some <==> (style_for_spec(self.config, relative_spec(abs_path@, root@)) is Some
                && within_size_spec(self.config, size) && !binary_content(head@)),
            r matches Some(e) ==> e.abs_path == abs_path && e.rel_path@ == relative_spec(abs_path@, root@)
                && Some(e.style) == style_for_spec(self.config, relative_spec(abs_path@, root@)),
    {
        let rel = relative_to(abs_path.as_str(), root);
        entry_for_config(&self.config, abs_path, rel, size, head)
    }

    /// Stripping the header of `content` in comment style `style`.
    pub fn plan_strip(&self, content: &str, style: CommentStyle) -> (r: StripPlan)
        ensures
            r.stripped == strip_spec(content@, style) is Some,
            r.write is Some <==> (strip_spec(content@, style) is Some && !self.dry_run),
            r.write matches Some(w) ==> strip_spec(content@, style) == Some(w@),
    {
        match strip(content, style) {
            None => StripPlan { stripped: false, write: None },
            Some(new_content) => {
                if self.dry_run {
                    StripPlan { stripped: true, write: None }
                } else {
                    StripPlan { stripped: true, write: Some(new_content) }
                }
            },
        }
    }
}

/// The path of a file relative to the root, as the watcher computes it:
/// the path below `root`, or the path itself.
pub open spec fn relative_spec(abs_path: Seq<char>, root: Seq<char>) -> Seq<char> {
    match strip_prefix_of(abs_path, root) {
        Some(s) => s,
        None => abs_path,
    }
}

/// The path of a file relative to the root, as the watcher computes it:
/// the path below `root`, or the path itself.
pub fn relative_to(abs_path: &str, root: &str) -> (r: String)
    ensures
        r@ == relative_spec(abs_path@, root@),
{
    match strip_prefix(abs_path, root) {
        Some(r) => r,
        None => abs_path.to_owned(),
    }
}

// ---------------------------------------------------------------------------
// Counting
// ---------------------------------------------------------------------------

/// A count after one more: counts wrap around, as atomic counters do.
pub open spec fn bump(x: usize) -> usize {
    if x == usize::MAX {
        0
    } else {
        (x + 1) as usize
    }
}

fn bump_exec(x: usize) -> (r: usize)
    ensures
        r == bump(x),
{
    if x == usize::MAX {
        0
    } else {
        x + 1
    }
}

impl Stats {
    /// All counts zero.
    pub fn new() -> (r: Self)
        ensures
            r == (Stats { tagged: 0, updated: 0, current: 0, skipped: 0, stripped: 0, errors: 0 }),
    {
        Stats { tagged: 0, updated: 0, current: 0, skipped: 0, stripped: 0, errors: 0 }
    }

    /// Counts one tagging result.
    pub fn record_tag(&mut self, r: TagResult)
        ensures
            *final(self) == (match r {
                TagResult::Tagged => Stats { tagged: bump(old(self).tagged), ..*old(self) },
                TagResult::Updated => Stats { updated: bump(old(self).updated), ..*old(self) },
                TagResult::Current => Stats { current: bump(old(self).current), ..*old(self) },
                TagResult::Skipped => Stats { skipped: bump(old(self).skipped), ..*old(self) },
            }),
    {
        match r {
            TagResult::Tagged => self.tagged = bump_exec(self.tagged),
            TagResult::Updated => self.updated = bump_exec(self.updated),
            TagResult::Current => self.current = bump_exec(self.current),
            TagResult::Skipped => self.skipped = bump_exec(self.skipped),
        }
    }

    /// Counts one stripping result: a removed header, or a file without one.
    pub fn record_strip(&mut self, stripped: bool)
        ensures
            *final(self) == (if stripped {
                Stats { stripped: bump(old(self).stripped), ..*old(self) }
            } else {
                Stats { current: bump(old(self).current), ..*old(self) }
            }),
    {
        if stripped {
            self.stripped = bump_exec(self.stripped);
        } else {
            self.current = bump_exec(self.current);
        }
    }

    /// Counts one file that could not be processed.
    pub fn record_error(&mut self)
        ensures
            *final(self) == (Stats { errors: bump(old(self).errors), ..*old(self) }),
    {
        self.errors = bump_exec(self.errors);
    }
}

/// A file passes `bark check` when its header is current (or it is one
/// whose header is left alone).
pub open spec fn passes_check(r: TagResult) -> bool {
    r == TagResult::Current || r == TagResult::Skipped
}

/// `bark check` fails exactly when some file's header is missing (it would
/// be tagged) or stale (it would be updated); current headers and files
/// whose headers are left alone pass.
pub proof fn law_check_fails_on_missing_or_stale(rs: Seq<TagResult>)
    ensures
        (forall|i: int| 0 <= i < rs.len() ==> passes_check(#[trigger] rs[i])) == (forall|i: int|
            0 <= i < rs.len() ==> #[trigger] rs[i] == TagResult::Current || rs[i] == TagResult::Skipped),
        (exists|i: int| 0 <= i < rs.len() && (#[trigger] rs[i] == TagResult::Tagged || rs[i] == TagResult::Updated))
            ==> !(forall|i: int| 0 <= i < rs.len() ==> passes_check(#[trigger] rs[i])),
        !passes_check(TagResult::Tagged),
        !passes_check(TagResult::Updated),
        passes_check(TagResult::Current),
        passes_check(TagResult::Skipped),
{
    if exists|i: int| 0 <= i < rs.len() && (#[trigger] rs[i] == TagResult::Tagged || rs[i] == TagResult::Updated) {
        let i = choose|i: int| 0 <= i < rs.len() && (#[trigger] rs[i] == TagResult::Tagged || rs[i] == TagResult::Updated);
        assert(!passes_check(rs[i]));
    }
}

/// Whether every checked file passes: no header is missing or stale.
pub fn check_passes(results: &[TagResult]) -> (r: bool)
    ensures
        r == (forall|i: int| 0 <= i < results@.len() ==> passes_check(#[trigger] results@[i])),
        r == (forall|i: int|
            0 <= i < results@.len() ==> #[trigger] results@[i] == TagResult::Current || results@[i]
                == TagResult::Skipped),
        (exists|i: int|
            0 <= i < results@.len() && (#[trigger] results@[i] == TagResult::Tagged || results@[i]
                == TagResult::Updated)) ==> !r,
{
    proof {
        law_check_fails_on_missing_or_stale(results@);
    }
    let mut i: usize = 0;
    while i < results.len()
        invariant
            i <= results@.len(),
            forall|k: int| 0 <= k < i ==> passes_check(#[trigger] results@[k]),
        decreases results.len() - i,
    {
        let r = results[i];
        if !(r == TagResult::Current || r == TagResult::Skipped) {
            assert(!passes_check(results@[i as int]));
            return false;
        }
        i = i + 1;
    }
    true
}

/// A line of a run's summary.
#[derive(Debug, Clone, Copy, PartialEq, Eq, Structural)]
pub enum SummaryKind {
    Tagged,
    Updated,
    Current,
    Skipped,
    Errors,
    Stripped,
    NoHeader,
}

/// The lines of the tagging summary: one per non-zero count, in the order
/// tagged, updated, current, skipped, errors.
pub open spec fn tag_summary_spec(s: Stats) -> Seq<(usize, SummaryKind)> {
    let l1 = if s.tagged > 0 {
        seq![(s.tagged, SummaryKind::Tagged)]
    } else {
        seq![]
    };
    let l2 = if s.updated > 0 {
        l1.push((s.updated, SummaryKind::Updated))
    } else {
        l1
    };
    let l3 = if s.current > 0 {
        l2.push((s.current, SummaryKind::Current))
    } else {
        l2
    };
    let l4 = if s.skipped > 0 {
        l3.push((s.skipped, SummaryKind::Skipped))
    } else {
        l3
    };
    if s.errors > 0 {
        l4.push((s.errors, SummaryKind::Errors))
    } else {
        l4
    }
}

/// The lines of the tagging summary. Empty exactly when no file was found
/// at all, in which case the caller prints the "no matching files" hint.
pub fn tag_summary(s: &Stats) -> (r: Vec<(usize, SummaryKind)>)
    ensures
        r@ == tag_summary_spec(*s),
{
    let mut v: Vec<(usize, SummaryKind)> = Vec::new();
    if s.tagged > 0 {
        v.push((s.tagged, SummaryKind::Tagged));
    }
    if s.updated > 0 {
        v.push((s.updated, SummaryKind::Updated));
    }
    if s.current > 0 {
        v.push((s.current, SummaryKind::Current));
    }
    if s.skipped > 0 {
        v.push((s.skipped, SummaryKind::Skipped));
    }
    if s.errors > 0 {
        v.push((s.errors, SummaryKind::Errors));
    }
    assert(v@ =~= tag_summary_spec(*s));
    v
}

/// The lines of the stripping summary: one per non-zero count, in the
/// order removed headers, files without a header, errors.
pub open spec fn strip_summary_spec(s: Stats) -> Seq<(usize, SummaryKind)> {
    let l1 = if s.stripped > 0 {
        seq![(s.stripped, SummaryKind::Stripped)]
    } else {
        seq![]
    };
    let l2 = if s.current > 0 {
        l1.push((s.current, SummaryKind::NoHeader))
    } else {
        l1
    };
    if s.errors > 0 {
        l2.push((s.errors, SummaryKind::Errors))
    } else {
        l2
    }
}

/// The lines of the stripping summary.
pub fn strip_summary(s: &Stats) -> (r: Vec<(usize, SummaryKind)>)
    ensures
        r@ == strip_summary_spec(*s),
{
    let mut v: Vec<(usize, SummaryKind)> = Vec::new();
    if s.stripped > 0 {
        v.push((s.stripped, SummaryKind::Stripped));
    }
    if s.current > 0 {
        v.push((s.current, SummaryKind::NoHeader));
    }
    if s.errors > 0 {
        v.push((s.errors, SummaryKind::Errors));
    }
    assert(v@ =~= strip_summary_spec(*s));
    v
}

/// The suffix of a summary's title: ` (dry run)` in a dry run.
pub fn mode_suffix(dry_run: bool) -> (r: &'static str)
    ensures
        r@ == (if dry_run {
            " (dry run)"@
        } else {
            ""@
        }),
{
    if dry_run {
        " (dry run)"
    } else {
        ""
    }
}

// ---------------------------------------------------------------------------
// Laws
// ---------------------------------------------------------------------------

/// Running bark twice never tags a file twice: after a file has been tagged
/// or updated, the second run (whose template values `ctx2` may differ from
/// the first run's `ctx1`, say in the date) finds its header current, as
/// long as both give the same header. It needs the header to be
/// recognisable as one: a single line that the style's header pattern
/// matches.
pub proof fn law_second_run_finds_header_current(
    p: Processor,
    rel: Seq<char>,
    style: CommentStyle,
    content: Seq<char>,
    ctx1: TemplateContext,
    ctx2: TemplateContext,
)
    requires
        is_marker(style, desired_header(p, rel, style, ctx1)),
        one_line(desired_header(p, rel, style, ctx1)),
        desired_header(p, rel, style, ctx2) == desired_header(p, rel, style, ctx1),
        !p.dry_run,
        tag_outcome(p, rel, style, content, ctx1).1 is Some,
    ensures
        tag_outcome(p, rel, style, tag_outcome(p, rel, style, content, ctx1).1->0, ctx2).0
            == TagResult::Current,
{
    let h = desired_header(p, rel, style, ctx1);
    law_tag_then_analyze_is_current(content, h, style);
}

/// Running bark twice never tags a file twice, for every template that
/// begins with a character other than whitespace and `{` and has no line
/// break, and template values without line breaks (the default template
/// `File: {{file}}` with any file path, for one): tagging what the first run
/// wrote finds its header current, whenever the second run's values render
/// the template as the first run's do (they agree on the variables the
/// template uses).
pub proof fn law_second_run_is_current_for_plain_templates(
    p: Processor,
    rel: Seq<char>,
    style: CommentStyle,
    content: Seq<char>,
    ctx1: TemplateContext,
    ctx2: TemplateContext,
)
    requires
        template_for(p, rel).len() > 0,
        template_for(p, rel)[0] != '{',
        !is_unicode_ws(template_for(p, rel)[0]),
        one_line(template_for(p, rel)),
        values_without(ctx1, '\n'),
        values_without(ctx1, '\r'),
        render_spec(template_for(p, rel), ctx2) == render_spec(template_for(p, rel), ctx1),
        !p.dry_run,
        tag_outcome(p, rel, style, content, ctx1).1 is Some,
    ensures
        tag_outcome(p, rel, style, tag_outcome(p, rel, style, content, ctx1).1->0, ctx2).0
            == TagResult::Current,
{
    let t = template_for(p, rel);
    let body = render_spec(t, ctx1);
    lemma_render_keeps_first(t, ctx1);
    lemma_render_without(t, ctx1, '\n');
    lemma_render_without(t, ctx1, '\r');
    assert(one_line(body)) by {
        assert forall|i: int| 0 <= i < body.len() implies body[i] != '\n' && body[i] != '\r' by {
            assert(body[i] != '\n');
            assert(body[i] != '\r');
        }
    }
    lemma_wrapped_header(style, body);
    law_second_run_finds_header_current(p, rel, style, content, ctx1, ctx2);
}

/// A dry run writes nothing, whatever the file holds.
pub proof fn law_dry_run_writes_nothing(
    p: Processor,
    rel: Seq<char>,
    style: CommentStyle,
    content: Seq<char>,
    ctx: TemplateContext,
)
    requires
        p.dry_run,
    ensures
        tag_outcome(p, rel, style, content, ctx).1 is None,
{
}

} // verus!
