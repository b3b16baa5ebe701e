//! Watch mode: which file-system events lead to tagging, and which changed
//! files of a batch are tagged.
//!
//! Receiving events, waiting out the debounce window and tagging are done by
//! the caller; it hands each batch of changed files to `WatchState::plan_batch`.
use crate::paths::{
    components, path_starts_with, same_path, slashed, starts_with_path, strip_prefix,
    strip_prefix_of, to_slashes,
};
use crate::processor::Processor;
use crate::text::strings_view;
use crate::walker::{excluded_by, is_path_excluded};
use vstd::prelude::*;

verus! {

broadcast use vstd::string::group_string_axioms;

/// The kind of a file-system event.
#[derive(Debug, Clone, Copy, PartialEq, Eq, Structural)]
pub enum WatchEventKind {
    /// A file or directory was created.
    Create,
    /// A file's content changed.
    ModifyData,
    /// Some other change: metadata, a rename, or an unknown kind.
    ModifyOther,
    /// A file or directory was removed.
    Remove,
    /// A file was accessed.
    Access,
    /// Anything else.
    Other,
}

/// Creation and content changes are what lead to tagging.
pub fn is_write_event(kind: WatchEventKind) -> (r: bool)
    ensures
        r == (kind == WatchEventKind::Create || kind == WatchEventKind::ModifyData),
{
    match kind {
        WatchEventKind::Create => true,
        WatchEventKind::ModifyData => true,
        _ => false,
    }
}

/// The watcher of one project root.
pub struct FileWatcher {
    pub processor: Processor,
    pub debounce_ms: u64,
    pub output_path: String,
    pub dry_run: bool,
}

impl FileWatcher {
    pub fn new(processor: Processor, debounce_ms: u64, output_path: String, dry_run: bool) -> (r: Self)
        ensures
            r.processor == processor,
            r.debounce_ms == debounce_ms,
            r.output_path == output_path,
            r.dry_run == dry_run,
    {
        FileWatcher { processor, debounce_ms, output_path, dry_run }
    }
}

/// The paths of a list, first occurrence of each path kept.
pub open spec fn unique_paths(s: Seq<Seq<char>>) -> Seq<Seq<char>>
    decreases s.len(),
{
    if s.len() == 0 {
        s
    } else {
        let prev = unique_paths(s.drop_last());
        if exists|j: int| 0 <= j < s.len() - 1 && components(#[trigger] s[j]) == components(s.last()) {
            prev
        } else {
            prev.push(s.last())
        }
    }
}

/// The ignore check of watch mode: the path below the root (with `/`)
/// matches a `[watch] ignore` pattern. Paths outside the root are not
/// ignored.
pub open spec fn watch_ignored(path: Seq<char>, root: Seq<char>, ignore: Seq<Seq<char>>) -> bool {
    ignore.len() > 0 && (strip_prefix_of(path, root) matches Some(rel) && excluded_by(slashed(rel), ignore))
}

/// The files bark itself has just written, so that the events of its own
/// writes are not taken for changes.
pub struct WatchState {
    pub recently_written: Vec<String>,
}

/// A recently written path among `rw`.
pub open spec fn in_written(rw: Seq<Seq<char>>, p: Seq<char>) -> bool {
    exists|j: int| 0 <= j < rw.len() && components(#[trigger] rw[j]) == components(p)
}

/// `rw` without the entries that are the path `p`.
pub open spec fn without_path(rw: Seq<Seq<char>>, p: Seq<char>) -> Seq<Seq<char>>
    decreases rw.len(),
{
    if rw.len() == 0 {
        rw
    } else if components(rw.last()) == components(p) {
        without_path(rw.drop_last(), p)
    } else {
        without_path(rw.drop_last(), p).push(rw.last())
    }
}

/// Whether `p` is among `paths`.
fn has_path(paths: &Vec<String>, p: &str) -> (r: bool)
    ensures
        r == in_written(strings_view(paths@), p@),
{
    let mut k: usize = 0;
    while k < paths.len()
        invariant
            k <= paths@.len(),
            forall|m: int| 0 <= m < k ==> components(#[trigger] strings_view(paths@)[m]) != components(p@),
        decreases paths.len() - k,
    {
        assert(strings_view(paths@)[k as int] == paths@[k as int]@);
        if same_path(paths[k].as_str(), p) {
            return true;
        }
        k = k + 1;
    }
    false
}

/// `paths` without the entries that are the path `p`.
fn remove_path(paths: &Vec<String>, p: &str) -> (r: Vec<String>)
    ensures
        strings_view(r@) == without_path(strings_view(paths@), p@),
{
    let ghost pv = strings_view(paths@);
    let mut out: Vec<String> = Vec::new();
    let mut k: usize = 0;
    assert(pv.take(0) =~= Seq::<Seq<char>>::empty());
    while k < paths.len()
        invariant
            k <= paths@.len(),
            pv == strings_view(paths@),
            strings_view(out@) == without_path(pv.take(k as int), p@),
        decreases paths.len() - k,
    {
        assert(pv[k as int] == paths@[k as int]@);
        assert(pv.take(k + 1).drop_last() =~= pv.take(k as int));
        assert(pv.take(k + 1).last() == pv[k as int]);
        if !same_path(paths[k].as_str(), p) {
            let ghost before = strings_view(out@);
            out.push(paths[k].clone());
            assert(strings_view(out@) =~= before.push(pv[k as int]));
        }
        k = k + 1;
    }
    assert(pv.take(paths@.len() as int) =~= pv);
    out
}

/// Whether a path before position `k` is the path at `k`.
fn seen_earlier(paths: &Vec<String>, k: usize) -> (r: bool)
    requires
        k < paths@.len(),
    ensures
        r == exists|m: int| 0 <= m < k && components(#[trigger] strings_view(paths@)[m]) == components(strings_view(paths@)[k as int]),
{
    let ghost pv = strings_view(paths@);
    assert(pv[k as int] == paths@[k as int]@);
    let mut j: usize = 0;
    while j < k
        invariant
            j <= k < paths@.len(),
            pv == strings_view(paths@),
            pv[k as int] == paths@[k as int]@,
            forall|m: int| 0 <= m < j ==> components(#[trigger] pv[m]) != components(pv[k as int]),
        decreases k - j,
    {
        assert(pv[j as int] == paths@[j as int]@);
        if same_path(paths[j].as_str(), paths[k].as_str()) {
            return true;
        }
        j = j + 1;
    }
    false
}

/// The paths, each path once (first occurrence kept).
pub fn dedup_paths(paths: &Vec<String>) -> (r: Vec<String>)
    ensures
        strings_view(r@) == unique_paths(strings_view(paths@)),
{
    let ghost pv = strings_view(paths@);
    let mut out: Vec<String> = Vec::new();
    let mut k: usize = 0;
    assert(pv.take(0) =~= Seq::<Seq<char>>::empty());
    while k < paths.len()
        invariant
            k <= paths@.len(),
            pv == strings_view(paths@),
            strings_view(out@) == unique_paths(pv.take(k as int)),
        decreases paths.len() - k,
    {
        let ghost t = pv.take(k + 1);
        assert(pv[k as int] == paths@[k as int]@);
        assert(t.drop_last() =~= pv.take(k as int));
        assert(t.last() == pv[k as int]);
        let seen = seen_earlier(paths, k);
        proof {
            if seen {
                let m = choose|m: int| 0 <= m < k && components(#[trigger] pv[m]) == components(pv[k as int]);
                assert(t[m] == pv[m]);
                assert(components(t[m]) == components(t.last()));
            } else {
                assert forall|m: int| 0 <= m < t.len() - 1 implies components(#[trigger] t[m]) != components(t.last()) by {
                    assert(t[m] == pv[m]);
                }
            }
        }
        if !seen {
            let ghost before = strings_view(out@);
            out.push(paths[k].clone());
            assert(strings_view(out@) =~= before.push(pv[k as int]));
        }
        k = k + 1;
    }
    assert(pv.take(paths@.len() as int) =~= pv);
    out
}

/// The paths of `s` that are not among `rw`.
pub open spec fn not_written(rw: Seq<Seq<char>>, s: Seq<Seq<char>>) -> Seq<Seq<char>>
    decreases s.len(),
{
    if s.len() == 0 {
        s
    } else if in_written(rw, s.last()) {
        not_written(rw, s.drop_last())
    } else {
        not_written(rw, s.drop_last()).push(s.last())
    }
}

/// The paths of `s` that watch mode does not ignore.
pub open spec fn not_ignored(s: Seq<Seq<char>>, root: Seq<char>, ignore: Seq<Seq<char>>) -> Seq<Seq<char>>
    decreases s.len(),
{
    if s.len() == 0 {
        s
    } else if watch_ignored(s.last(), root, ignore) {
        not_ignored(s.drop_last(), root, ignore)
    } else {
        not_ignored(s.drop_last(), root, ignore).push(s.last())
    }
}

/// `rw` without every path of `s`.
pub open spec fn without_paths(rw: Seq<Seq<char>>, s: Seq<Seq<char>>) -> Seq<Seq<char>>
    decreases s.len(),
{
    if s.len() == 0 {
        rw
    } else {
        without_path(without_paths(rw, s.drop_last()), s.last())
    }
}

/// The files of a batch to tag: each changed path once, without bark's own
/// recent writes, without the ignored paths.
pub open spec fn batch_to_tag(rw: Seq<Seq<char>>, changed: Seq<Seq<char>>, root: Seq<char>, ignore: Seq<Seq<char>>) -> Seq<Seq<char>> {
    not_ignored(not_written(rw, unique_paths(changed)), root, ignore)
}

impl WatchState {
    pub fn new() -> (r: Self)
        ensures
            r.recently_written@.len() == 0,
    {
        WatchState { recently_written: Vec::new() }
    }

    /// Whether `path` was written by bark itself since its last event; if
    /// so it is forgotten, so that later changes count again.
    pub fn take_own_write(&mut self, path: &str) -> (r: bool)
        ensures
            r == in_written(strings_view(old(self).recently_written@), path@),
            strings_view(final(self).recently_written@) == without_path(
                strings_view(old(self).recently_written@),
                path@,
            ),
    {
        let r = has_path(&self.recently_written, path);
        let rest = remove_path(&self.recently_written, path);
        self.recently_written = rest;
        r
    }

    /// The files of a batch of changed files (canonical paths) to tag. The
    /// events of bark's own writes are taken out, and every changed file is
    /// forgotten as one of bark's writes, so that its next change counts.
    /// The caller remembers a file (`mark_written`) once it has written it.
    pub fn plan_batch(&mut self, changed: &Vec<String>, root: &str, ignore: &Vec<String>) -> (r: Vec<String>)
        ensures
            strings_view(r@) == batch_to_tag(
                strings_view(old(self).recently_written@),
                strings_view(changed@),
                root@,
                strings_view(ignore@),
            ),
            strings_view(final(self).recently_written@) == without_paths(
                strings_view(old(self).recently_written@),
                unique_paths(strings_view(changed@)),
            ),
    {
        let ghost rw0 = strings_view(self.recently_written@);
        let snapshot = crate::text::copy_strings(self.recently_written.as_slice());
        let paths = dedup_paths(changed);
        let ghost u = strings_view(paths@);
        let mut fresh: Vec<String> = Vec::new();
        let mut k: usize = 0;
        assert(u.take(0) =~= Seq::<Seq<char>>::empty());
        while k < paths.len()
            invariant
                k <= paths@.len(),
                u == strings_view(paths@),
                strings_view(snapshot@) == rw0,
                strings_view(fresh@) == not_written(rw0, u.take(k as int)),
                strings_view(self.recently_written@) == without_paths(rw0, u.take(k as int)),
            decreases paths.len() - k,
        {
            assert(u[k as int] == paths@[k as int]@);
            assert(u.take(k + 1).drop_last() =~= u.take(k as int));
            assert(u.take(k + 1).last() == u[k as int]);
            let own = has_path(&snapshot, paths[k].as_str());
            assert(own == in_written(rw0, u[k as int]));
            let rest = remove_path(&self.recently_written, paths[k].as_str());
            self.recently_written = rest;
            if !own {
                let ghost before = strings_view(fresh@);
                fresh.push(paths[k].clone());
                assert(strings_view(fresh@) =~= before.push(u[k as int]));
            }
            k = k + 1;
        }
        assert(u.take(paths@.len() as int) =~= u);
        let ghost fv = strings_view(fresh@);
        let mut out: Vec<String> = Vec::new();
        let mut m: usize = 0;
        assert(fv.take(0) =~= Seq::<Seq<char>>::empty());
        while m < fresh.len()
            invariant
                m <= fresh@.len(),
                fv == strings_view(fresh@),
                strings_view(out@) == not_ignored(fv.take(m as int), root@, strings_view(ignore@)),
            decreases fresh.len() - m,
        {
            assert(fv[m as int] == fresh@[m as int]@);
            assert(fv.take(m + 1).drop_last() =~= fv.take(m as int));
            assert(fv.take(m + 1).last() == fv[m as int]);
            if !is_watch_ignored(fresh[m].as_str(), root, ignore) {
                let ghost before = strings_view(out@);
                out.push(fresh[m].clone());
                assert(strings_view(out@) =~= before.push(fv[m as int]));
            }
            m = m + 1;
        }
        assert(fv.take(fresh@.len() as int) =~= fv);
        out
    }

    /// Remembers that bark has just written `path`, so that the event of
    /// that write is not taken for a change.
    pub fn mark_written(&mut self, path: &str)
        ensures
            strings_view(final(self).recently_written@) == strings_view(old(self).recently_written@).push(
                path@,
            ),
    {
        let ghost before = strings_view(self.recently_written@);
        self.recently_written.push(path.to_owned());
        assert(strings_view(self.recently_written@) =~= before.push(path@));
    }
}

/// Whether the watcher ignores the changed file `path` of `root`.
pub fn is_watch_ignored(path: &str, root: &str, ignore: &Vec<String>) -> (r: bool)
    ensures
        r == watch_ignored(path@, root@, strings_view(ignore@)),
{
    if ignore.len() == 0 {
        return false;
    }
    match strip_prefix(path, root) {
        None => false,
        Some(rel) => {
            let rel_str = to_slashes(rel.as_str());
            is_path_excluded(rel_str.as_str(), ignore.as_slice())
        },
    }
}

/// The index of the first root that `path` lies under.
pub open spec fn root_index_spec(roots: Seq<Seq<char>>, path: Seq<char>) -> Option<int>
    decreases roots.len(),
{
    if roots.len() == 0 {
        None
    } else if path_starts_with(path, roots[0]) {
        Some(0)
    } else {
        match root_index_spec(roots.drop_first(), path) {
            Some(i) => Some(i + 1),
            None => None,
        }
    }
}

/// The first of the watched `roots` that `path` lies under.
pub fn root_index(roots: &Vec<String>, path: &str) -> (r: Option<usize>)
    ensures
        r is None <==> root_index_spec(strings_view(roots@), path@) is None,
        r matches Some(i) ==> root_index_spec(strings_view(roots@), path@) == Some(i as int),
{
    let ghost rv = strings_view(roots@);
    let mut i: usize = 0;
    assert(rv.skip(0) =~= rv);
    while i < roots.len()
        invariant
            i <= roots@.len(),
            rv == strings_view(roots@),
            forall|k: int| 0 <= k < i ==> !path_starts_with(path@, #[trigger] rv[k]),
            root_index_spec(rv, path@) == match root_index_spec(rv.skip(i as int), path@) {
                Some(k) => Some(k + i),
                None => None,
            },
        decreases roots.len() - i,
    {
        assert(rv[i as int] == roots@[i as int]@);
        assert(rv.skip(i as int)[0] == rv[i as int]);
        assert(rv.skip(i as int).drop_first() =~= rv.skip(i + 1));
        if starts_with_path(path, roots[i].as_str()) {
            return Some(i);
        }
        i = i + 1;
    }
    None
}

proof fn lemma_unique_from(s: Seq<Seq<char>>)
    ensures
        forall|i: int| 0 <= i < unique_paths(s).len() ==> exists|j: int| 0 <= j < s.len() && #[trigger] unique_paths(s)[i] == s[j],
    decreases s.len(),
{
    if s.len() > 0 {
        lemma_unique_from(s.drop_last());
        let prev = unique_paths(s.drop_last());
        assert forall|i: int| 0 <= i < unique_paths(s).len() implies exists|j: int| 0 <= j < s.len() && #[trigger] unique_paths(s)[i] == s[j] by {
            if i < prev.len() {
                assert(unique_paths(s)[i] == prev[i]);
                let j = choose|j: int| 0 <= j < s.drop_last().len() && prev[i] == s.drop_last()[j];
                assert(s.drop_last()[j] == s[j]);
            } else {
                assert(unique_paths(s)[i] == s.last());
                assert(s[s.len() - 1] == s.last());
            }
        }
    }
}

proof fn lemma_not_written_all_known(rw: Seq<Seq<char>>, s: Seq<Seq<char>>)
    requires
        forall|i: int| 0 <= i < s.len() ==> in_written(rw, #[trigger] s[i]),
    ensures
        not_written(rw, s).len() == 0,
    decreases s.len(),
{
    if s.len() > 0 {
        assert(in_written(rw, s[s.len() - 1]));
        assert forall|i: int| 0 <= i < s.drop_last().len() implies in_written(rw, #[trigger] s.drop_last()[i]) by {
            assert(s.drop_last()[i] == s[i]);
        }
        lemma_not_written_all_known(rw, s.drop_last());
    }
}

/// Watch mode never enters a self-tagging loop: once a batch has been
/// planned and the files bark then wrote have been remembered, the batch of
/// events that those writes cause tags nothing.
pub proof fn law_own_writes_are_not_retagged(
    rw: Seq<Seq<char>>,
    changed: Seq<Seq<char>>,
    written: Seq<Seq<char>>,
    root: Seq<char>,
    ignore: Seq<Seq<char>>,
)
    ensures
        ({
            let rw2 = without_paths(rw, unique_paths(changed)) + written;
            batch_to_tag(rw2, written, root, ignore).len() == 0
        }),
{
    let base = without_paths(rw, unique_paths(changed));
    let rw2 = base + written;
    let u = unique_paths(written);
    lemma_unique_from(written);
    assert forall|i: int| 0 <= i < u.len() implies in_written(rw2, #[trigger] u[i]) by {
        let j = choose|j: int| 0 <= j < written.len() && u[i] == written[j];
        assert(rw2[base.len() + j] == written[j]);
    }
    lemma_not_written_all_known(rw2, u);
    assert(not_written(rw2, u) =~= Seq::<Seq<char>>::empty());
}

proof fn lemma_without_path_elems(rw: Seq<Seq<char>>, q: Seq<char>)
    ensures
        forall|i: int|
            0 <= i < without_path(rw, q).len() ==> components(#[trigger] without_path(rw, q)[i])
                != components(q) && exists|j: int| 0 <= j < rw.len() && without_path(rw, q)[i] == rw[j],
    decreases rw.len(),
{
    if rw.len() > 0 {
        lemma_without_path_elems(rw.drop_last(), q);
        let prev = without_path(rw.drop_last(), q);
        let w = without_path(rw, q);
        assert forall|i: int| 0 <= i < w.len() implies components(#[trigger] w[i]) != components(q)
            && exists|j: int| 0 <= j < rw.len() && w[i] == rw[j] by {
            if i < prev.len() {
                assert(w[i] == prev[i]);
                let j = choose|j: int| 0 <= j < rw.drop_last().len() && prev[i] == rw.drop_last()[j];
                assert(rw.drop_last()[j] == rw[j]);
            } else {
                assert(w[i] == rw.last());
                assert(rw[rw.len() - 1] == rw.last());
            }
        }
    }
}

proof fn lemma_without_paths_forgets(rw: Seq<Seq<char>>, s: Seq<Seq<char>>)
    ensures
        forall|k: int| 0 <= k < s.len() ==> !in_written(without_paths(rw, s), #[trigger] s[k]),
    decreases s.len(),
{
    if s.len() > 0 {
        lemma_without_paths_forgets(rw, s.drop_last());
        let inner = without_paths(rw, s.drop_last());
        let w = without_paths(rw, s);
        lemma_without_path_elems(inner, s.last());
        assert forall|k: int| 0 <= k < s.len() implies !in_written(w, #[trigger] s[k]) by {
            if in_written(w, s[k]) {
                let i = choose|i: int| 0 <= i < w.len() && components(#[trigger] w[i]) == components(s[k]);
                let j = choose|j: int| 0 <= j < inner.len() && w[i] == inner[j];
                if k < s.len() - 1 {
                    assert(s.drop_last()[k] == s[k]);
                    assert(in_written(inner, s.drop_last()[k]));
                } else {
                    assert(s[k] == s.last());
                }
            }
        }
    }
}

proof fn lemma_unique_covers(s: Seq<Seq<char>>)
    ensures
        forall|j: int|
            0 <= j < s.len() ==> exists|i: int|
                0 <= i < unique_paths(s).len() && components(#[trigger] unique_paths(s)[i]) == components(
                    #[trigger] s[j],
                ),
    decreases s.len(),
{
    if s.len() > 0 {
        lemma_unique_covers(s.drop_last());
        let prev = unique_paths(s.drop_last());
        let u = unique_paths(s);
        assert forall|j: int| 0 <= j < s.len() implies exists|i: int|
            0 <= i < u.len() && components(#[trigger] u[i]) == components(#[trigger] s[j]) by {
            if j < s.len() - 1 {
                assert(s.drop_last()[j] == s[j]);
                let i = choose|i: int| 0 <= i < prev.len() && components(#[trigger] prev[i]) == components(s.drop_last()[j]);
                assert(u[i] == prev[i]);
            } else if exists|m: int| 0 <= m < s.len() - 1 && components(#[trigger] s[m]) == components(s.last()) {
                let m = choose|m: int| 0 <= m < s.len() - 1 && components(#[trigger] s[m]) == components(s.last());
                assert(s.drop_last()[m] == s[m]);
                let i = choose|i: int| 0 <= i < prev.len() && components(#[trigger] prev[i]) == components(s.drop_last()[m]);
                assert(u[i] == prev[i]);
                assert(s[j] == s.last());
            } else {
                assert(u[u.len() - 1] == s.last());
                assert(s[j] == s.last());
            }
        }
    }
}

/// Every save is followed by tagging: after a batch in which a file
/// changed (whether or not bark then wrote it), the next save of that file
/// alone is tagged, unless watch mode ignores it.
pub proof fn law_next_save_is_tagged(
    rw: Seq<Seq<char>>,
    changed: Seq<Seq<char>>,
    p: Seq<char>,
    root: Seq<char>,
    ignore: Seq<Seq<char>>,
)
    requires
        changed.contains(p),
        !watch_ignored(p, root, ignore),
    ensures
        batch_to_tag(without_paths(rw, unique_paths(changed)), seq![p], root, ignore) == seq![p],
{
    let u = unique_paths(changed);
    let w = without_paths(rw, u);
    let j = choose|j: int| 0 <= j < changed.len() && changed[j] == p;
    lemma_unique_covers(changed);
    let i = choose|i: int| 0 <= i < u.len() && components(#[trigger] u[i]) == components(changed[j]);
    lemma_without_paths_forgets(rw, u);
    assert(!in_written(w, u[i]));
    assert(!in_written(w, p));
    let one = seq![p];
    let e = Seq::<Seq<char>>::empty();
    assert(one.drop_last() =~= e);
    assert(one.last() == p);
    assert(unique_paths(e) == e);
    assert(e.push(p) =~= one);
    assert(unique_paths(one) == one);
    assert(not_written(w, e) == e);
    assert(not_written(w, one) == one);
    assert(not_ignored(e, root, ignore) == e);
    assert(not_ignored(one, root, ignore) == one);
}

} // verus!
