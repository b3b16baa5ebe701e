//! Backups: where a file's backup goes, how backup names are read back,
//! and which backups a restore picks.
//!
//! A backup of `<rel>` made at local time `YYYYMMDD_HHMMSS` is stored as
//! `<backup_dir>/<rel>.<YYYYMMDD_HHMMSS>.bak`. Copying files and listing the
//! backup directory are done by the caller.
use crate::paths::{
    clean_rel, components, file_name, file_name_of, last_named, lemma_components_join,
    lemma_join_split, lemma_split_concat, lemma_split_last_after_sep, lemma_split_no_sep,
    lemma_split_nonempty_from, same_path, slashed, split_on, strip_prefix, strip_prefix_of,
    to_slashes,
};
use crate::text::{
    chars_of, contains_seq, ends_with, push_str, str_contains, string_from_chars, chars_ends_with,
};
use crate::template::format_local_now;
use vstd::prelude::*;

verus! {

broadcast use vstd::string::group_string_axioms;

/// Where backups go, and whether they are made at all.
pub struct BackupManager {
    pub backup_dir: String,
    pub enabled: bool,
}

/// A backup found in the backup directory.
pub struct BackupEntry {
    /// The backed-up file, relative to the project root.
    pub original: String,
    /// The backup file.
    pub backup_path: String,
    /// When the backup was made: its local date and time, counted in
    /// seconds as if it were UTC (so that later backups have larger values).
    pub timestamp: i64,
}

/// The time-stamp format of backup names.
pub const STAMP_FORMAT: &'static str = "%Y%m%d_%H%M%S";

// ---------------------------------------------------------------------------
// Outside functions
// ---------------------------------------------------------------------------

/// The seconds (as if UTC) of the date and time that
/// `chrono::NaiveDateTime::parse_from_str(text, fmt)` reads, or `None` when
/// it fails.
pub uninterp spec fn naive_seconds(text: Seq<char>, fmt: Seq<char>) -> Option<i64>;

/// `chrono::NaiveDateTime::parse_from_str(text, fmt)`, the parsed value
/// given as `and_utc().timestamp()`. Trusted: the result is named
/// `naive_seconds` of the two texts; the parser itself is not stated.
#[verifier::external_body]
fn parse_naive_seconds(text: &str, fmt: &str) -> (r: Option<i64>)
    ensures
        r == naive_seconds(text@, fmt@),
{
    match chrono::NaiveDateTime::parse_from_str(text, fmt) {
        Ok(t) => Some(t.and_utc().timestamp()),
        Err(_) => None,
    }
}

// ---------------------------------------------------------------------------
// Backup names
// ---------------------------------------------------------------------------

/// `PathBuf::join` for `/`-separated paths: an absolute `x` replaces
/// `base`; otherwise a `/` is put between them unless `base` is empty or
/// already ends with one.
pub open spec fn join_path(base: Seq<char>, x: Seq<char>) -> Seq<char> {
    if x.len() > 0 && x[0] == '/' {
        x
    } else if base.len() == 0 || base.last() == '/' {
        base + x
    } else {
        base + seq!['/'] + x
    }
}

/// `base.join(x)`.
pub fn join_paths(base: &str, x: &str) -> (r: String)
    ensures
        r@ == join_path(base@, x@),
{
    let xv = chars_of(x);
    let bv = chars_of(base);
    if xv.len() > 0 && xv[0] == '/' {
        return string_from_chars(xv.as_slice());
    }
    let mut r = string_from_chars(bv.as_slice());
    if !(bv.len() == 0 || bv[bv.len() - 1] == '/') {
        push_str(&mut r, "/");
        proof {
            reveal_strlit("/");
        }
    }
    push_str(&mut r, x);
    proof {
        reveal_strlit("/");
        assert("/"@ =~= seq!['/']);
    }
    r
}

/// The file's path relative to `root`, or the path itself when it does not
/// lie under `root`, written with `/`.
pub open spec fn rel_text(file: Seq<char>, root: Seq<char>) -> Seq<char> {
    slashed(
        match strip_prefix_of(file, root) {
            Some(r) => r,
            None => file,
        },
    )
}

/// The backup path of `file` for the time stamp `stamp`.
pub open spec fn backup_path_spec(dir: Seq<char>, file: Seq<char>, root: Seq<char>, stamp: Seq<char>) -> Seq<char> {
    join_path(dir, rel_text(file, root) + seq!['.'] + stamp + ".bak"@)
}

impl BackupManager {
    pub fn new(backup_dir: String, enabled: bool) -> (r: Self)
        ensures
            r.backup_dir == backup_dir,
            r.enabled == enabled,
    {
        BackupManager { backup_dir, enabled }
    }

    /// Where the backup of `file` made at time stamp `stamp` goes: the
    /// file's path relative to `root` (with `/`), then `.`, the stamp and
    /// `.bak`, inside the backup directory.
    pub fn backup_path_for(&self, file: &str, root: &str, stamp: &str) -> (r: String)
        ensures
            r@ == backup_path_spec(self.backup_dir@, file@, root@, stamp@),
    {
        let rel = match strip_prefix(file, root) {
            Some(r) => r,
            None => file.to_owned(),
        };
        let mut name = to_slashes(rel.as_str());
        push_str(&mut name, ".");
        push_str(&mut name, stamp);
        push_str(&mut name, ".bak");
        proof {
            reveal_strlit(".");
            assert("."@ =~= seq!['.']);
        }
        join_paths(self.backup_dir.as_str(), name.as_str())
    }

    /// Where a backup of `file` made now goes: the local time in
    /// `STAMP_FORMAT` is the stamp. `None` when backups are off, and when the
    /// clock gives a stamp that would not read back (a year outside 0 to
    /// 9999).
    pub fn backup_target(&self, file: &str, root: &str) -> (r: Option<String>)
        ensures
            r is Some ==> self.enabled,
            r matches Some(p) ==> exists|stamp: Seq<char>|
                readable_stamp(stamp) && p@ == backup_path_spec(self.backup_dir@, file@, root@, stamp),
            r matches Some(p) ==> (clean_rel(rel_text(file@, root@)) ==> (parse_entry_spec(
                p@,
                self.backup_dir@,
            ) matches Some(e) && e.0 == rel_text(file@, root@))),
            r matches Some(p) ==> (clean_rel(rel_text(file@, root@)) ==> ({
                let l = newest_first(listed_entries(seq![p@], self.backup_dir@, None));
                l.len() == 1 && l[0].0 == rel_text(file@, root@) && l[0].1 == p@
            })),
    {
        if !self.enabled {
            return None;
        }
        let stamp = match format_local_now(STAMP_FORMAT, STAMP_FORMAT) {
            Some(t) => t.0,
            None => {
                return None;
            },
        };
        if !is_readable_stamp(stamp.as_str()) {
            return None;
        }
        let p = self.backup_path_for(file, root, stamp.as_str());
        proof {
            if clean_rel(rel_text(file@, root@)) {
                law_backup_name_reads_back(self.backup_dir@, file@, root@, stamp@);
                law_backup_is_listed(self.backup_dir@, file@, root@, stamp@, None);
            }
        }
        Some(p)
    }
}

/// A time stamp that backup names can carry and that reads back: fifteen
/// characters, no `/`, and chrono reads it with `STAMP_FORMAT`.
pub open spec fn readable_stamp(stamp: Seq<char>) -> bool {
    &&& stamp.len() == 15
    &&& forall|i: int| 0 <= i < stamp.len() ==> stamp[i] != '/'
    &&& naive_seconds(stamp, STAMP_FORMAT@) is Some
}

/// Whether `stamp` is a readable time stamp.
fn is_readable_stamp(stamp: &str) -> (r: bool)
    ensures
        r == readable_stamp(stamp@),
{
    let v = chars_of(stamp);
    if v.len() != 15 {
        return false;
    }
    let mut i: usize = 0;
    while i < v.len()
        invariant
            i <= v@.len(),
            v@ == stamp@,
            forall|j: int| 0 <= j < i ==> v@[j] != '/',
        decreases v.len() - i,
    {
        if v[i] == '/' {
            return false;
        }
        i = i + 1;
    }
    parse_naive_seconds(stamp, STAMP_FORMAT).is_some()
}

// ---------------------------------------------------------------------------
// Reading backup names back
// ---------------------------------------------------------------------------

/// The entry a backup path stands for: its path below the backup directory
/// must end in `.bak`, and the 16 characters before that must be `.` and a
/// time stamp that chrono reads with `STAMP_FORMAT`; what comes before is
/// the original file's relative path.
pub open spec fn parse_entry_spec(backup_path: Seq<char>, backup_dir: Seq<char>) -> Option<(Seq<char>, i64)> {
    match strip_prefix_of(backup_path, backup_dir) {
        None => None,
        Some(name) => if !ends_with(name, ".bak"@) {
            None
        } else {
            let wb = name.take(name.len() - 4);
            if wb.len() < 16 {
                None
            } else {
                let orig = wb.take(wb.len() - 16);
                let ts = wb.skip(wb.len() - 16);
                if ts[0] != '.' {
                    None
                } else {
                    match naive_seconds(ts.drop_first(), STAMP_FORMAT@) {
                        Some(t) => Some((orig, t)),
                        None => None,
                    }
                }
            }
        },
    }
}

/// The characters `v[from..to]` as a string.
fn substring(v: &Vec<char>, from: usize, to: usize) -> (r: String)
    requires
        from <= to <= v@.len(),
    ensures
        r@ == v@.subrange(from as int, to as int),
{
    let mut out: Vec<char> = Vec::new();
    let mut i: usize = from;
    while i < to
        invariant
            from <= i <= to <= v@.len(),
            out@ == v@.subrange(from as int, i as int),
        decreases to - i,
    {
        out.push(v[i]);
        assert(v@.subrange(from as int, i as int).push(v@[i as int]) =~= v@.subrange(
            from as int,
            i + 1,
        ));
        i = i + 1;
    }
    string_from_chars(out.as_slice())
}

/// Reads the backup file name at `backup_path` (inside `backup_dir`) back
/// into the entry it stands for.
pub fn parse_backup_entry(backup_path: &str, backup_dir: &str) -> (r: Option<BackupEntry>)
    ensures
        r is None <==> parse_entry_spec(backup_path@, backup_dir@) is None,
        r matches Some(e) ==> parse_entry_spec(backup_path@, backup_dir@) == Some((e.original@, e.timestamp))
            && e.backup_path@ == backup_path@,
{
    let name = match strip_prefix(backup_path, backup_dir) {
        Some(n) => n,
        None => {
            return None;
        },
    };
    let nv = chars_of(name.as_str());
    proof {
        reveal_strlit(".bak");
    }
    let bak: Vec<char> = vec!['.', 'b', 'a', 'k'];
    assert(bak@ =~= ".bak"@);
    if !chars_ends_with(nv.as_slice(), bak.as_slice()) {
        return None;
    }
    let wlen = nv.len() - 4;
    if wlen < 16 {
        return None;
    }
    let ghost wb = nv@.take(wlen as int);
    assert(wb.take(wb.len() - 16) =~= nv@.subrange(0, wlen - 16));
    assert(wb.skip(wb.len() - 16) =~= nv@.subrange(wlen - 16, wlen as int));
    if nv[wlen - 16] != '.' {
        return None;
    }
    let ts = substring(&nv, wlen - 15, wlen);
    assert(wb.skip(wb.len() - 16).drop_first() =~= ts@);
    match parse_naive_seconds(ts.as_str(), STAMP_FORMAT) {
        None => None,
        Some(t) => {
            let orig = substring(&nv, 0, wlen - 16);
            Some(BackupEntry { original: orig, backup_path: backup_path.to_owned(), timestamp: t })
        },
    }
}

// ---------------------------------------------------------------------------
// Listing and choosing backups
// ---------------------------------------------------------------------------

/// The view of an entry: original, backup path, time stamp.
pub open spec fn entry_view(e: BackupEntry) -> (Seq<char>, Seq<char>, i64) {
    (e.original@, e.backup_path@, e.timestamp)
}

/// The views of a list of entries.
pub open spec fn entries_view(s: Seq<BackupEntry>) -> Seq<(Seq<char>, Seq<char>, i64)> {
    s.map_values(|e: BackupEntry| entry_view(e))
}

/// The filter text for `--file`: the file relative to `root` (or as given),
/// written with `/`.
pub open spec fn filter_text_spec(filter_file: Option<Seq<char>>, root: Seq<char>) -> Option<Seq<char>> {
    match filter_file {
        Some(f) => Some(rel_text(f, root)),
        None => None,
    }
}

/// The text a `--file` filter is matched with.
pub fn filter_text(filter_file: Option<&str>, root: &str) -> (r: Option<String>)
    ensures
        r is None <==> filter_file is None,
        r matches Some(t) ==> filter_text_spec(
            match filter_file {
                Some(f) => Some(f@),
                None => None,
            },
            root@,
        ) == Some(t@),
{
    match filter_file {
        None => None,
        Some(f) => {
            let rel = match strip_prefix(f, root) {
                Some(r) => r,
                None => f.to_owned(),
            };
            Some(to_slashes(rel.as_str()))
        },
    }
}

/// A backup path found in the directory is listed: its file name ends in
/// `.bak`, it reads back as an entry, and that entry's original contains
/// the filter text (when there is one).
pub open spec fn listed(p: Seq<char>, dir: Seq<char>, filter: Option<Seq<char>>) -> bool {
    &&& (file_name_of(p) matches Some(n) && ends_with(n, ".bak"@))
    &&& parse_entry_spec(p, dir) matches Some(e) && (filter matches Some(f) ==> contains_seq(
        slashed(e.0),
        f,
    ))
}

/// The listed entries of `found`, in the order found.
pub open spec fn listed_entries(found: Seq<Seq<char>>, dir: Seq<char>, filter: Option<Seq<char>>) -> Seq<(Seq<char>, Seq<char>, i64)>
    decreases found.len(),
{
    if found.len() == 0 {
        seq![]
    } else {
        let prev = listed_entries(found.drop_last(), dir, filter);
        let p = found.last();
        if listed(p, dir, filter) {
            let e = parse_entry_spec(p, dir)->0;
            prev.push((e.0, p, e.1))
        } else {
            prev
        }
    }
}

/// `x` put into `s` (newest first) before the first entry older than it.
pub open spec fn insert_by_time(x: (Seq<char>, Seq<char>, i64), s: Seq<(Seq<char>, Seq<char>, i64)>) -> Seq<(Seq<char>, Seq<char>, i64)>
    decreases s.len(),
{
    if s.len() == 0 {
        seq![x]
    } else if s[0].2 < x.2 {
        seq![x] + s
    } else {
        seq![s[0]] + insert_by_time(x, s.drop_first())
    }
}

/// The entries, newest first; entries of equal time keep their order.
pub open spec fn newest_first(s: Seq<(Seq<char>, Seq<char>, i64)>) -> Seq<(Seq<char>, Seq<char>, i64)>
    decreases s.len(),
{
    if s.len() == 0 {
        s
    } else {
        insert_by_time(s.last(), newest_first(s.drop_last()))
    }
}

proof fn lemma_insert_by_time_at(x: (Seq<char>, Seq<char>, i64), s: Seq<(Seq<char>, Seq<char>, i64)>, p: int)
    requires
        0 <= p <= s.len(),
        forall|j: int| 0 <= j < p ==> !(#[trigger] s[j].2 < x.2),
        p < s.len() ==> s[p].2 < x.2,
    ensures
        insert_by_time(x, s) == s.insert(p, x),
    decreases s.len(),
{
    if s.len() == 0 {
        assert(s.insert(0, x) =~= seq![x]);
    } else if p == 0 {
        assert(seq![x] + s =~= s.insert(0, x));
    } else {
        let t = s.drop_first();
        assert forall|j: int| 0 <= j < p - 1 implies !(#[trigger] t[j].2 < x.2) by {
            assert(t[j] == s[j + 1]);
        }
        if p - 1 < t.len() {
            assert(t[p - 1] == s[p]);
        }
        lemma_insert_by_time_at(x, t, p - 1);
        assert(seq![s[0]] + t.insert(p - 1, x) =~= s.insert(p, x));
    }
}

impl BackupManager {
    /// The backups among the files `found` in the backup directory (full
    /// paths), restricted to those whose original contains `filter`, newest
    /// first.
    pub fn select_backups(&self, found: &Vec<String>, filter: &Option<String>) -> (r: Vec<BackupEntry>)
        ensures
            entries_view(r@) == newest_first(
                listed_entries(
                    found@.map_values(|s: String| s@),
                    self.backup_dir@,
                    match filter {
                        Some(f) => Some(f@),
                        None => None,
                    },
                ),
            ),
    {
        let ghost fv = found@.map_values(|s: String| s@);
        let ghost fl = match filter {
            Some(f) => Some(f@),
            None => None,
        };
        let mut out: Vec<BackupEntry> = Vec::new();
        let mut i: usize = 0;
        assert(fv.take(0) =~= Seq::<Seq<char>>::empty());
        while i < found.len()
            invariant
                i <= found@.len(),
                fv == found@.map_values(|s: String| s@),
                fl == match filter {
                    Some(f) => Some(f@),
                    None => None,
                },
                entries_view(out@) == newest_first(listed_entries(fv.take(i as int), self.backup_dir@, fl)),
            decreases found.len() - i,
        {
            let p = &found[i];
            assert(fv[i as int] == p@);
            assert(fv.take(i + 1).drop_last() =~= fv.take(i as int));
            assert(fv.take(i + 1).last() == p@);
            let mut keep: Option<BackupEntry> = None;
            let is_bak = match file_name(p.as_str()) {
                Some(n) => {
                    proof {
                        reveal_strlit(".bak");
                    }
                    let nv = chars_of(n.as_str());
                    let bak: Vec<char> = vec!['.', 'b', 'a', 'k'];
                    assert(bak@ =~= ".bak"@);
                    chars_ends_with(nv.as_slice(), bak.as_slice())
                },
                None => false,
            };
            if is_bak {
                match parse_backup_entry(p.as_str(), self.backup_dir.as_str()) {
                    Some(e) => {
                        let pass = match filter {
                            Some(f) => {
                                let orig = to_slashes(e.original.as_str());
                                str_contains(orig.as_str(), f.as_str())
                            },
                            None => true,
                        };
                        if pass {
                            keep = Some(e);
                        }
                    },
                    None => {},
                }
            }
            assert(keep is Some <==> listed(p@, self.backup_dir@, fl));
            let ghost prev = listed_entries(fv.take(i as int), self.backup_dir@, fl);
            match keep {
                Some(e) => {
                    let ghost x = entry_view(e);
                    let ghost pe = parse_entry_spec(p@, self.backup_dir@)->0;
                    assert(x == (pe.0, p@, pe.1));
                    assert(listed_entries(fv.take(i + 1), self.backup_dir@, fl) == prev.push(x));
                    assert(newest_first(prev.push(x)) == insert_by_time(x, newest_first(prev))) by {
                        assert(prev.push(x).drop_last() =~= prev);
                    }
                    let mut q: usize = 0;
                    while q < out.len() && !(out[q].timestamp < e.timestamp)
                        invariant
                            q <= out@.len(),
                            forall|j: int| 0 <= j < q ==> !(#[trigger] entries_view(out@)[j].2 < x.2),
                            x == entry_view(e),
                        decreases out.len() - q,
                    {
                        assert(entries_view(out@)[q as int] == entry_view(out@[q as int]));
                        q = q + 1;
                    }
                    proof {
                        if q < out@.len() {
                            assert(entries_view(out@)[q as int] == entry_view(out@[q as int]));
                        }
                        lemma_insert_by_time_at(x, entries_view(out@), q as int);
                    }
                    let ghost before = out@;
                    out.insert(q as usize, e);
                    assert(entries_view(out@) =~= entries_view(before).insert(q as int, x));
                },
                None => {
                    assert(listed_entries(fv.take(i + 1), self.backup_dir@, fl) == prev);
                },
            }
            i = i + 1;
        }
        assert(fv.take(found@.len() as int) =~= fv);
        out
    }
}

/// Whether an earlier entry has the same original as entry `i`.
pub open spec fn seen_before(s: Seq<(Seq<char>, Seq<char>, i64)>, i: int) -> bool {
    exists|j: int| 0 <= j < i && components(#[trigger] s[j].0) == components(s[i].0)
}

/// The first entry of each original (the newest, in a newest-first list).
pub open spec fn first_per_file(s: Seq<(Seq<char>, Seq<char>, i64)>) -> Seq<(Seq<char>, Seq<char>, i64)>
    decreases s.len(),
{
    if s.len() == 0 {
        s
    } else if seen_before(s, s.len() - 1) {
        first_per_file(s.drop_last())
    } else {
        first_per_file(s.drop_last()).push(s.last())
    }
}

/// How many entries before position `i` belong to the same file as entry `i`.
pub open spec fn same_file_before(s: Seq<(Seq<char>, Seq<char>, i64)>, i: int, upto: int) -> nat
    decreases upto,
{
    if upto <= 0 {
        0
    } else if components(s[upto - 1].0) == components(s[i].0) {
        1 + same_file_before(s, i, upto - 1)
    } else {
        same_file_before(s, i, upto - 1)
    }
}

/// The backup paths that `clean` removes from a newest-first list: every
/// entry with at least `keep` newer entries of the same file before it.
pub open spec fn stale_backups(s: Seq<(Seq<char>, Seq<char>, i64)>, keep: nat) -> Seq<Seq<char>>
    decreases s.len(),
{
    if s.len() == 0 {
        seq![]
    } else {
        let prev = stale_backups(s.drop_last(), keep);
        if same_file_before(s, s.len() - 1, s.len() - 1) >= keep {
            prev.push(s.last().1)
        } else {
            prev
        }
    }
}

proof fn lemma_same_file_before_prefix(s: Seq<(Seq<char>, Seq<char>, i64)>, i: int, upto: int)
    requires
        0 <= upto <= i < s.len() - 1,
    ensures
        same_file_before(s, i, upto) == same_file_before(s.drop_last(), i, upto),
    decreases upto,
{
    if upto > 0 {
        lemma_same_file_before_prefix(s, i, upto - 1);
        assert(s.drop_last()[upto - 1] == s[upto - 1]);
        assert(s.drop_last()[i] == s[i]);
    }
}

/// The backups `bark clean` deletes from a newest-first list, keeping the
/// `keep` most recent backups of each file.
pub fn backups_to_remove(entries: &Vec<BackupEntry>, keep: usize) -> (r: Vec<String>)
    ensures
        r@.map_values(|s: String| s@) == stale_backups(entries_view(entries@), keep as nat),
{
    let ghost ev = entries_view(entries@);
    let mut out: Vec<String> = Vec::new();
    let mut i: usize = 0;
    assert(ev.take(0) =~= Seq::<(Seq<char>, Seq<char>, i64)>::empty());
    while i < entries.len()
        invariant
            i <= entries@.len(),
            ev == entries_view(entries@),
            out@.map_values(|s: String| s@) == stale_backups(ev.take(i as int), keep as nat),
        decreases entries.len() - i,
    {
        let ghost t = ev.take(i + 1);
        assert(ev[i as int] == entry_view(entries@[i as int]));
        assert(t.drop_last() =~= ev.take(i as int));
        assert(t.last() == ev[i as int]);
        let mut count: usize = 0;
        let mut j: usize = 0;
        while j < i
            invariant
                j <= i < entries@.len(),
                ev == entries_view(entries@),
                t == ev.take(i + 1),
                count <= j,
                count as nat == same_file_before(t, i as int, j as int),
            decreases i - j,
        {
            assert(t[j as int] == ev[j as int]);
            assert(ev[j as int] == entry_view(entries@[j as int]));
            assert(t[i as int] == ev[i as int]);
            if same_path(entries[j].original.as_str(), entries[i].original.as_str()) {
                count = count + 1;
            }
            j = j + 1;
        }
        if count >= keep {
            let ghost before = out@.map_values(|s: String| s@);
            out.push(entries[i].backup_path.clone());
            assert(out@.map_values(|s: String| s@) =~= before.push(t.last().1));
        }
        i = i + 1;
    }
    assert(ev.take(entries@.len() as int) =~= ev);
    out
}

/// Whether some name of `names` is the same path as `p`.
fn any_same_path(names: &Vec<String>, p: &str) -> (r: bool)
    ensures
        r == exists|j: int| 0 <= j < names@.len() && components(#[trigger] names@[j]@) == components(p@),
{
    let mut k: usize = 0;
    while k < names.len()
        invariant
            k <= names@.len(),
            forall|m: int| 0 <= m < k ==> components(#[trigger] names@[m]@) != components(p@),
        decreases names.len() - k,
    {
        if same_path(names[k].as_str(), p) {
            return true;
        }
        k = k + 1;
    }
    false
}

/// Keeps the first entry of each original file (`--latest` on a
/// newest-first list).
pub fn latest_per_file(entries: Vec<BackupEntry>) -> (r: Vec<BackupEntry>)
    ensures
        entries_view(r@) == first_per_file(entries_view(entries@)),
{
    let ghost ev = entries_view(entries@);
    let mut out: Vec<BackupEntry> = Vec::new();
    let mut names: Vec<String> = Vec::new();
    let mut input = entries;
    let mut i: usize = 0;
    assert(ev.take(0) =~= Seq::<(Seq<char>, Seq<char>, i64)>::empty());
    assert(entries_view(input@) =~= ev.skip(0));
    let n = input.len();
    assert(ev.len() == n);
    while input.len() > 0
        invariant
            i <= ev.len(),
            ev.len() <= usize::MAX,
            i + input@.len() == ev.len(),
            ev == entries_view(entries@),
            entries_view(input@) == ev.skip(i as int),
            entries_view(out@) == first_per_file(ev.take(i as int)),
            names@.len() == i,
            forall|j: int| 0 <= j < i ==> (#[trigger] names@[j])@ == ev[j].0,
        decreases input.len(),
    {
        let ghost before_in = input@;
        let e = input.remove(0);
        proof {
            assert(entries_view(before_in)[0] == entry_view(e));
            assert(entry_view(e) == ev[i as int]);
            assert(input@ =~= before_in.drop_first());
            assert(entries_view(input@) =~= entries_view(before_in).drop_first());
            assert(ev.skip(i as int).drop_first() =~= ev.skip(i + 1));
        }
        let seen = any_same_path(&names, e.original.as_str());
        let ghost t = ev.take(i + 1);
        proof {
            assert(t.drop_last() =~= ev.take(i as int));
            assert(t.last() == ev[i as int]);
            if seen {
                let j = choose|j: int| 0 <= j < names@.len() && components(#[trigger] names@[j]@) == components(e.original@);
                assert(t[j] == ev[j]);
                assert(seen_before(t, i as int));
            } else {
                assert forall|j: int| 0 <= j < i implies components(#[trigger] t[j].0) != components(t[i as int].0) by {
                    assert(t[j] == ev[j]);
                    assert(names@[j]@ == ev[j].0);
                }
            }
        }
        names.push(e.original.clone());
        if !seen {
            let ghost before = entries_view(out@);
            out.push(e);
            assert(entries_view(out@) =~= before.push(ev[i as int]));
        }
        i = i + 1;
    }
    assert(ev.take(i as int) =~= ev);
    out
}

// ---------------------------------------------------------------------------
// The backup name law
// ---------------------------------------------------------------------------

/// A clean relative path with text appended that has no `/` is clean.
proof fn lemma_clean_append(r: Seq<char>, x: Seq<char>)
    requires
        clean_rel(r),
        x.len() >= 2,
        forall|i: int| 0 <= i < x.len() ==> x[i] != '/',
    ensures
        clean_rel(r + x),
{
    let sr = split_on(r, '/');
    lemma_split_nonempty_from(seq![], r, '/');
    lemma_split_concat(seq![], r, x, '/');
    lemma_split_no_sep(sr.last(), x, '/');
    let s = split_on(r + x, '/');
    assert(s == sr.drop_last() + seq![sr.last() + x]);
    assert forall|i: int| 0 <= i < s.len() implies (#[trigger] s[i]).len() > 0 && s[i] != seq!['.'] by {
        if i < sr.len() - 1 {
            assert(s[i] == sr[i]);
        } else {
            assert(i == sr.len() - 1);
            assert(s[i] == sr.last() + x);
            assert((sr.last() + x).len() >= 2);
        }
    }
}

/// A backup reads back as the file it was made of: the backup path of a file
/// whose path relative to the root is clean, made at a time stamp that chrono
/// reads (fifteen characters, no `/`), parses back into that relative path
/// and that time, whatever the backup directory.
pub proof fn law_backup_name_reads_back(dir: Seq<char>, file: Seq<char>, root: Seq<char>, stamp: Seq<char>)
    requires
        clean_rel(rel_text(file, root)),
        stamp.len() == 15,
        forall|i: int| 0 <= i < stamp.len() ==> stamp[i] != '/',
        naive_seconds(stamp, STAMP_FORMAT@) is Some,
    ensures
        parse_entry_spec(backup_path_spec(dir, file, root, stamp), dir) == Some(
            (rel_text(file, root), naive_seconds(stamp, STAMP_FORMAT@)->0),
        ),
{
    reveal_strlit(".bak");
    let r = rel_text(file, root);
    let x = seq!['.'] + stamp + ".bak"@;
    let name = r + x;
    assert(forall|i: int| 0 <= i < x.len() ==> x[i] != '/') by {
        assert forall|i: int| 0 <= i < x.len() implies x[i] != '/' by {
            if 1 <= i < 16 {
                assert(x[i] == stamp[i - 1]);
            }
        }
    }
    lemma_clean_append(r, x);
    assert(rel_text(file, root) + seq!['.'] + stamp + ".bak"@ =~= name);
    let sn = split_on(name, '/');
    lemma_split_nonempty_from(seq![], name, '/');
    // a clean path does not start with `/`
    assert(name.len() > 0 && name[0] != '/') by {
        assert(sn[0].len() > 0);
        if name[0] == '/' {
            assert(name.drop_first() =~= name.drop_first());
            assert(sn[0] == Seq::<char>::empty());
        }
    }
    let path = backup_path_spec(dir, file, root, stamp);
    assert(path == (if dir.len() == 0 {
        name
    } else if dir.last() == '/' {
        dir + name
    } else {
        dir + seq!['/'] + name
    }));
    lemma_components_join(dir, name, path);
    let cd = components(dir);
    assert(components(path).take(cd.len() as int) =~= cd);
    assert(components(path).skip(cd.len() as int) =~= sn);
    lemma_join_split(seq![], name, '/');
    assert(Seq::<char>::empty() + name =~= name);
    assert(strip_prefix_of(path, dir) == Some(name));
    assert(name.skip(name.len() - 4) =~= ".bak"@);
    let wb = name.take(name.len() - 4);
    assert(wb =~= r + seq!['.'] + stamp);
    assert(wb.take(wb.len() - 16) =~= r);
    assert(wb.skip(wb.len() - 16) =~= seq!['.'] + stamp);
    assert((seq!['.'] + stamp).drop_first() =~= stamp);
}

// ---------------------------------------------------------------------------
// The restore laws
// ---------------------------------------------------------------------------

/// Entries ordered newest first.
pub open spec fn is_newest_first(s: Seq<(Seq<char>, Seq<char>, i64)>) -> bool {
    forall|i: int, j: int| 0 <= i < j < s.len() ==> s[i].2 >= s[j].2
}

proof fn lemma_insert_by_time_elems(x: (Seq<char>, Seq<char>, i64), s: Seq<(Seq<char>, Seq<char>, i64)>)
    ensures
        insert_by_time(x, s).len() == s.len() + 1,
        forall|k: int| 0 <= k < insert_by_time(x, s).len() ==> (#[trigger] insert_by_time(x, s)[k] == x
            || exists|j: int| 0 <= j < s.len() && insert_by_time(x, s)[k] == s[j]),
    decreases s.len(),
{
    let r = insert_by_time(x, s);
    if s.len() == 0 {
    } else if s[0].2 < x.2 {
        assert forall|k: int| 0 <= k < r.len() implies (#[trigger] r[k] == x || exists|j: int| 0 <= j < s.len() && r[k] == s[j]) by {
            if k > 0 {
                assert(r[k] == s[k - 1]);
            }
        }
    } else {
        let t = s.drop_first();
        lemma_insert_by_time_elems(x, t);
        let rt = insert_by_time(x, t);
        assert forall|k: int| 0 <= k < r.len() implies (#[trigger] r[k] == x || exists|j: int| 0 <= j < s.len() && r[k] == s[j]) by {
            if k == 0 {
                assert(r[0] == s[0]);
            } else {
                assert(r[k] == rt[k - 1]);
                if rt[k - 1] != x {
                    let j = choose|j: int| 0 <= j < t.len() && rt[k - 1] == t[j];
                    assert(t[j] == s[j + 1]);
                }
            }
        }
    }
}

proof fn lemma_insert_by_time_sorted(x: (Seq<char>, Seq<char>, i64), s: Seq<(Seq<char>, Seq<char>, i64)>)
    requires
        is_newest_first(s),
    ensures
        is_newest_first(insert_by_time(x, s)),
    decreases s.len(),
{
    let r = insert_by_time(x, s);
    if s.len() == 0 {
    } else if s[0].2 < x.2 {
        assert forall|i: int, j: int| 0 <= i < j < r.len() implies r[i].2 >= r[j].2 by {
            if i == 0 {
                assert(r[j] == s[j - 1]);
                if j - 1 > 0 {
                    assert(s[0].2 >= s[j - 1].2);
                }
            } else {
                assert(r[i] == s[i - 1] && r[j] == s[j - 1]);
            }
        }
    } else {
        let t = s.drop_first();
        assert(is_newest_first(t)) by {
            assert forall|i: int, j: int| 0 <= i < j < t.len() implies t[i].2 >= t[j].2 by {
                assert(t[i] == s[i + 1] && t[j] == s[j + 1]);
            }
        }
        lemma_insert_by_time_sorted(x, t);
        lemma_insert_by_time_elems(x, t);
        let rt = insert_by_time(x, t);
        assert forall|i: int, j: int| 0 <= i < j < r.len() implies r[i].2 >= r[j].2 by {
            if i == 0 {
                assert(r[0] == s[0]);
                assert(r[j] == rt[j - 1]);
                if rt[j - 1] != x {
                    let m = choose|m: int| 0 <= m < t.len() && rt[j - 1] == t[m];
                    assert(t[m] == s[m + 1]);
                }
            } else {
                assert(r[i] == rt[i - 1] && r[j] == rt[j - 1]);
            }
        }
    }
}

proof fn lemma_backup_file_name(dir: Seq<char>, file: Seq<char>, root: Seq<char>, stamp: Seq<char>)
    requires
        clean_rel(rel_text(file, root)),
        readable_stamp(stamp),
    ensures
        file_name_of(backup_path_spec(dir, file, root, stamp)) matches Some(n) && ends_with(n, ".bak"@),
{
    reveal_strlit(".bak");
    let r = rel_text(file, root);
    let x = seq!['.'] + stamp + ".bak"@;
    let name = r + x;
    assert(rel_text(file, root) + seq!['.'] + stamp + ".bak"@ =~= name);
    assert forall|i: int| 0 <= i < x.len() implies x[i] != '/' by {
        if 1 <= i < 16 {
            assert(x[i] == stamp[i - 1]);
        }
    }
    let sr = split_on(r, '/');
    lemma_split_nonempty_from(seq![], r, '/');
    lemma_split_concat(seq![], r, x, '/');
    lemma_split_no_sep(sr.last(), x, '/');
    let sn = split_on(name, '/');
    assert(sn == sr.drop_last() + seq![sr.last() + x]);
    let n = sr.last() + x;
    assert(sn.last() == n);
    // a clean path does not start with `/`
    lemma_clean_append(r, x);
    lemma_split_nonempty_from(seq![], name, '/');
    assert(name.len() > 0 && name[0] != '/') by {
        assert(sn[0].len() > 0);
        if name.len() == 0 || name[0] == '/' {
            assert(sn[0] == Seq::<char>::empty());
        }
    }
    let path = backup_path_spec(dir, file, root, stamp);
    let pre = if dir.len() == 0 {
        Seq::<char>::empty()
    } else if dir.last() == '/' {
        dir
    } else {
        dir + seq!['/']
    };
    assert(path == pre + name);
    let sp = split_on(path, '/');
    if pre.len() == 0 {
        assert(pre + name =~= name);
        assert(sp.last() == n);
    } else {
        assert(pre.last() == '/');
        lemma_split_last_after_sep(seq![], pre, '/');
        lemma_split_concat(seq![], pre, name, '/');
        assert(sp == split_on(pre, '/').drop_last() + sn);
        assert(sp.last() == n);
    }
    assert(n.len() >= 20);
    assert(n != seq!['.']);
    assert(last_named(sp) == Some(n));
    assert(n != seq!['.', '.']);
    assert(n.skip(n.len() - 4) =~= ".bak"@);
}

/// A backup is listed: listing a backup directory in which the backup of a
/// file (clean relative path, readable time stamp) is the only path found
/// gives one entry, for that file, that path and that time; a `--file`
/// filter keeps it exactly when the file's path contains the filter text.
pub proof fn law_backup_is_listed(
    dir: Seq<char>,
    file: Seq<char>,
    root: Seq<char>,
    stamp: Seq<char>,
    filter: Option<Seq<char>>,
)
    requires
        clean_rel(rel_text(file, root)),
        readable_stamp(stamp),
    ensures
        ({
            let p = backup_path_spec(dir, file, root, stamp);
            let e = (rel_text(file, root), p, naive_seconds(stamp, STAMP_FORMAT@)->0);
            newest_first(listed_entries(seq![p], dir, filter)) == if (filter matches Some(f) ==> contains_seq(
                slashed(rel_text(file, root)),
                f,
            )) {
                seq![e]
            } else {
                Seq::<(Seq<char>, Seq<char>, i64)>::empty()
            }
        }),
{
    let p = backup_path_spec(dir, file, root, stamp);
    law_backup_name_reads_back(dir, file, root, stamp);
    lemma_backup_file_name(dir, file, root, stamp);
    let found = seq![p];
    assert(found.drop_last() =~= Seq::<Seq<char>>::empty());
    assert(found.last() == p);
    assert(listed_entries(Seq::<Seq<char>>::empty(), dir, filter) == Seq::<(Seq<char>, Seq<char>, i64)>::empty());
    let l = listed_entries(found, dir, filter);
    let e0 = Seq::<(Seq<char>, Seq<char>, i64)>::empty();
    if filter matches Some(f) ==> contains_seq(slashed(rel_text(file, root)), f) {
        assert(listed(p, dir, filter));
        assert(l == e0.push((rel_text(file, root), p, naive_seconds(stamp, STAMP_FORMAT@)->0)));
        assert(l.drop_last() =~= e0);
        assert(newest_first(e0) == e0);
        assert(newest_first(l) == insert_by_time(l.last(), e0));
        assert(newest_first(l) =~= seq![(rel_text(file, root), p, naive_seconds(stamp, STAMP_FORMAT@)->0)]);
    } else {
        assert(!listed(p, dir, filter));
        assert(l == e0);
        assert(newest_first(l) == e0);
    }
}

/// Backups are listed newest first.
pub proof fn law_listing_is_newest_first(s: Seq<(Seq<char>, Seq<char>, i64)>)
    ensures
        is_newest_first(newest_first(s)),
    decreases s.len(),
{
    if s.len() > 0 {
        law_listing_is_newest_first(s.drop_last());
        lemma_insert_by_time_sorted(s.last(), newest_first(s.drop_last()));
    }
}

proof fn lemma_seen_before_prefix(s: Seq<(Seq<char>, Seq<char>, i64)>, i: int)
    requires
        s.len() > 0,
        0 <= i < s.len() - 1,
    ensures
        seen_before(s, i) == seen_before(s.drop_last(), i),
{
    let t = s.drop_last();
    if seen_before(s, i) {
        let j = choose|j: int| 0 <= j < i && components(#[trigger] s[j].0) == components(s[i].0);
        assert(t[j] == s[j] && t[i] == s[i]);
    }
    if seen_before(t, i) {
        let j = choose|j: int| 0 <= j < i && components(#[trigger] t[j].0) == components(t[i].0);
        assert(t[j] == s[j] && t[i] == s[i]);
    }
}

proof fn lemma_first_per_file_from(s: Seq<(Seq<char>, Seq<char>, i64)>)
    ensures
        forall|k: int| 0 <= k < first_per_file(s).len() ==> exists|i: int|
            0 <= i < s.len() && #[trigger] first_per_file(s)[k] == s[i] && !seen_before(s, i),
    decreases s.len(),
{
    if s.len() > 0 {
        let t = s.drop_last();
        lemma_first_per_file_from(t);
        let rt = first_per_file(t);
        let r = first_per_file(s);
        let n = s.len() - 1;
        assert forall|k: int| 0 <= k < r.len() implies exists|i: int|
            0 <= i < s.len() && #[trigger] r[k] == s[i] && !seen_before(s, i) by {
            if k < rt.len() {
                assert(r[k] == rt[k]);
                let i = choose|i: int| 0 <= i < t.len() && rt[k] == t[i] && !seen_before(t, i);
                assert(t[i] == s[i]);
                lemma_seen_before_prefix(s, i);
            } else {
                assert(r[k] == s.last());
                assert(s[n] == s.last());
            }
        }
    }
}

proof fn lemma_first_per_file_covers(s: Seq<(Seq<char>, Seq<char>, i64)>)
    ensures
        forall|i: int| 0 <= i < s.len() ==> exists|k: int|
            0 <= k < first_per_file(s).len() && components(#[trigger] first_per_file(s)[k].0)
                == components((#[trigger] s[i]).0),
    decreases s.len(),
{
    if s.len() > 0 {
        let t = s.drop_last();
        lemma_first_per_file_covers(t);
        let rt = first_per_file(t);
        let r = first_per_file(s);
        let n = s.len() - 1;
        assert forall|i: int| 0 <= i < s.len() implies exists|k: int|
            0 <= k < r.len() && components(#[trigger] r[k].0) == components((#[trigger] s[i]).0) by {
            if i < n {
                assert(t[i] == s[i]);
                let k = choose|k: int| 0 <= k < rt.len() && components(#[trigger] rt[k].0) == components((#[trigger] t[i]).0);
                assert(r[k] == rt[k]);
                assert(components(r[k].0) == components(s[i].0));
            } else if seen_before(s, n) {
                let j = choose|j: int| 0 <= j < n && components(#[trigger] s[j].0) == components(s[n].0);
                assert(t[j] == s[j]);
                let k = choose|k: int| 0 <= k < rt.len() && components(#[trigger] rt[k].0) == components((#[trigger] t[j]).0);
                assert(r[k] == rt[k]);
                assert(components(r[k].0) == components(s[i].0));
            } else {
                let k = rt.len() as int;
                assert(r[k] == s.last());
                assert(s[n] == s.last());
                assert(components(r[k].0) == components(s[i].0));
            }
        }
    }
}

/// `--latest` restores the most recent backup of each file: on a list
/// ordered newest first, every backed-up file keeps exactly one entry, and no
/// backup of that file is newer than it.
pub proof fn law_latest_keeps_newest_of_each_file(s: Seq<(Seq<char>, Seq<char>, i64)>)
    requires
        is_newest_first(s),
    ensures
        forall|k: int, j: int|
            0 <= k < first_per_file(s).len() && 0 <= j < s.len() && components(s[j].0) == components(
                #[trigger] first_per_file(s)[k].0,
            ) ==> first_per_file(s)[k].2 >= #[trigger] s[j].2,
        forall|j: int| 0 <= j < s.len() ==> exists|k: int|
            0 <= k < first_per_file(s).len() && components(#[trigger] first_per_file(s)[k].0) == components((#[trigger] s[j]).0),
        forall|k1: int, k2: int|
            0 <= k1 < k2 < first_per_file(s).len() ==> components(#[trigger] first_per_file(s)[k1].0)
                != components(#[trigger] first_per_file(s)[k2].0),
{
    lemma_first_per_file_from(s);
    lemma_first_per_file_covers(s);
    lemma_first_per_file_order(s);
    let r = first_per_file(s);
    assert forall|k: int, j: int|
        0 <= k < r.len() && 0 <= j < s.len() && components(s[j].0) == components(#[trigger] r[k].0)
        implies r[k].2 >= #[trigger] s[j].2 by {
        let i = choose|i: int| 0 <= i < s.len() && r[k] == s[i] && !seen_before(s, i);
        if j < i {
            assert(seen_before(s, i));
        }
    }
}

proof fn lemma_first_per_file_order(s: Seq<(Seq<char>, Seq<char>, i64)>)
    ensures
        forall|k1: int, k2: int|
            0 <= k1 < k2 < first_per_file(s).len() ==> components(#[trigger] first_per_file(s)[k1].0)
                != components(#[trigger] first_per_file(s)[k2].0),
    decreases s.len(),
{
    if s.len() > 0 {
        let t = s.drop_last();
        lemma_first_per_file_order(t);
        lemma_first_per_file_from(t);
        let rt = first_per_file(t);
        let r = first_per_file(s);
        let n = s.len() - 1;
        if !seen_before(s, n) {
            assert forall|k1: int, k2: int| 0 <= k1 < k2 < r.len() implies components(#[trigger] r[k1].0)
                != components(#[trigger] r[k2].0) by {
                if k2 < rt.len() {
                    assert(r[k1] == rt[k1] && r[k2] == rt[k2]);
                } else {
                    assert(r[k2] == s[n]);
                    assert(r[k1] == rt[k1]);
                    let i = choose|i: int| 0 <= i < t.len() && rt[k1] == t[i] && !seen_before(t, i);
                    assert(t[i] == s[i]);
                    if components(r[k1].0) == components(r[k2].0) {
                        assert(components(s[i].0) == components(s[n].0));
                        assert(seen_before(s, n));
                    }
                }
            }
        }
    }
}

} // verus!
