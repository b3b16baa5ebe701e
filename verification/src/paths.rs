//! Relative paths as text: file names, stems and extensions.
//!
//! A path is a `Seq<char>` whose components are separated by `/`. Empty
//! components and `.` components name nothing; a final `..` has no file name.
//! These are the rules of `std::path::Path::{file_name, file_stem, extension}`
//! for `/`-separated paths.
use crate::header::{join, lemma_join_push};
use crate::text::{
    chars_eq, chars_of, copy_chars, extend_chars, replace_all, str_replace, string_from_chars,
};
use vstd::prelude::*;

verus! {

broadcast use vstd::string::group_string_axioms;

/// `str::split(sep)` continued from a partial piece `cur`.
pub open spec fn split_from(cur: Seq<char>, rest: Seq<char>, sep: char) -> Seq<Seq<char>>
    decreases rest.len(),
{
    if rest.len() == 0 {
        seq![cur]
    } else if rest[0] == sep {
        seq![cur] + split_from(seq![], rest.drop_first(), sep)
    } else {
        split_from(cur.push(rest[0]), rest.drop_first(), sep)
    }
}

/// The pieces of `s` between occurrences of `sep` (`str::split`).
pub open spec fn split_on(s: Seq<char>, sep: char) -> Seq<Seq<char>> {
    split_from(seq![], s, sep)
}

/// The last component that names something: neither empty nor `.`.
pub open spec fn last_named(segs: Seq<Seq<char>>) -> Option<Seq<char>>
    decreases segs.len(),
{
    if segs.len() == 0 {
        None
    } else if segs.last().len() == 0 || segs.last() == seq!['.'] {
        last_named(segs.drop_last())
    } else {
        Some(segs.last())
    }
}

/// `Path::file_name`: the final component, unless it is `..` or there is none.
pub open spec fn file_name_of(p: Seq<char>) -> Option<Seq<char>> {
    match last_named(split_on(p, '/')) {
        Some(n) => if n == seq!['.', '.'] {
            None
        } else {
            Some(n)
        },
        None => None,
    }
}

/// Index of the last `.` of `name`, if any.
pub open spec fn last_dot(name: Seq<char>) -> Option<int>
    decreases name.len(),
{
    if name.len() == 0 {
        None
    } else if name.last() == '.' {
        Some(name.len() - 1)
    } else {
        last_dot(name.drop_last())
    }
}

/// The stem of a file name: all of it when it has no `.` other than a
/// leading one, else the part before the final `.`.
pub open spec fn stem_of_name(name: Seq<char>) -> Seq<char> {
    match last_dot(name) {
        Some(d) => if d == 0 {
            name
        } else {
            name.take(d)
        },
        None => name,
    }
}

/// The extension of a file name: the part after the final `.`, unless that
/// `.` is missing or is the first character.
pub open spec fn ext_of_name(name: Seq<char>) -> Option<Seq<char>> {
    match last_dot(name) {
        Some(d) => if d == 0 {
            None
        } else {
            Some(name.skip(d + 1))
        },
        None => None,
    }
}

/// `Path::file_stem`.
pub open spec fn file_stem_of(p: Seq<char>) -> Option<Seq<char>> {
    match file_name_of(p) {
        Some(n) => Some(stem_of_name(n)),
        None => None,
    }
}

/// `Path::extension`.
pub open spec fn extension_of(p: Seq<char>) -> Option<Seq<char>> {
    match file_name_of(p) {
        Some(n) => ext_of_name(n),
        None => None,
    }
}

/// A path written with `/` only: every `\` replaced by `/`.
pub open spec fn slashed(p: Seq<char>) -> Seq<char> {
    replace_all(p, seq!['\\'], seq!['/'])
}

/// The views of a vector of pieces.
pub open spec fn piece_views(v: Seq<Vec<char>>) -> Seq<Seq<char>> {
    v.map_values(|x: Vec<char>| x@)
}

/// Split a character slice at every `sep`.
pub fn split_chars(s: &[char], sep: char) -> (r: Vec<Vec<char>>)
    ensures
        piece_views(r@) == split_on(s@, sep),
{
    let mut out: Vec<Vec<char>> = Vec::new();
    let mut cur: Vec<char> = Vec::new();
    let mut i: usize = 0;
    assert(s@.skip(0) =~= s@);
    while i < s.len()
        invariant
            i <= s@.len(),
            piece_views(out@) + split_from(cur@, s@.skip(i as int), sep) == split_on(s@, sep),
        decreases s.len() - i,
    {
        let ghost rest = s@.skip(i as int);
        assert(rest.drop_first() =~= s@.skip(i + 1));
        let c = s[i];
        if c == sep {
            let ghost before = piece_views(out@);
            let piece = cur;
            out.push(piece);
            cur = Vec::new();
            assert(piece_views(out@) =~= before.push(piece@));
            assert(before.push(piece@) + split_from(seq![], rest.drop_first(), sep) =~= before + (
            seq![piece@] + split_from(seq![], rest.drop_first(), sep)));
        } else {
            cur.push(c);
        }
        i = i + 1;
    }
    assert(s@.skip(s@.len() as int) =~= Seq::<char>::empty());
    let ghost before = piece_views(out@);
    out.push(cur);
    assert(piece_views(out@) =~= before.push(out@.last()@));
    assert(piece_views(out@) =~= split_on(s@, sep));
    out
}

/// `Path::file_name` of a `/`-separated path.
pub fn file_name(p: &str) -> (r: Option<String>)
    ensures
        r is None <==> file_name_of(p@) is None,
        r matches Some(n) ==> file_name_of(p@) == Some(n@),
{
    let cv = chars_of(p);
    let segs = split_chars(cv.as_slice(), '/');
    let ghost v = piece_views(segs@);
    let mut k: usize = segs.len();
    assert(v.take(k as int) =~= v);
    while k > 0
        invariant
            k <= segs@.len(),
            v == piece_views(segs@),
            v == split_on(p@, '/'),
            last_named(v.take(k as int)) == last_named(v),
        decreases k,
    {
        let seg = &segs[k - 1];
        assert(v[k - 1] == seg@);
        assert(v.take(k as int).last() == seg@);
        assert(v.take(k as int).drop_last() =~= v.take(k - 1));
        let is_dot = seg.len() == 1 && seg[0] == '.';
        assert(is_dot == (seg@ == seq!['.'])) by {
            if seg@.len() == 1 && seg@[0] == '.' {
                assert(seg@ =~= seq!['.']);
            }
        }
        if seg.len() == 0 || is_dot {
            k = k - 1;
        } else {
            let is_up = seg.len() == 2 && seg[0] == '.' && seg[1] == '.';
            assert(is_up == (seg@ == seq!['.', '.'])) by {
                if seg@.len() == 2 && seg@[0] == '.' && seg@[1] == '.' {
                    assert(seg@ =~= seq!['.', '.']);
                }
            }
            assert(last_named(v.take(k as int)) == Some(seg@));
            if is_up {
                return None;
            }
            return Some(string_from_chars(seg.as_slice()));
        }
    }
    assert(v.take(0) =~= Seq::<Seq<char>>::empty());
    None
}

/// Position of the last `.` of a character slice.
fn last_dot_exec(name: &[char]) -> (r: Option<usize>)
    ensures
        r is None <==> last_dot(name@) is None,
        r matches Some(d) ==> last_dot(name@) == Some(d as int) && d < name@.len(),
{
    let mut k: usize = name.len();
    assert(name@.take(k as int) =~= name@);
    while k > 0
        invariant
            k <= name@.len(),
            last_dot(name@.take(k as int)) == last_dot(name@),
        decreases k,
    {
        assert(name@.take(k as int).last() == name@[k - 1]);
        if name[k - 1] == '.' {
            return Some(k - 1);
        }
        assert(name@.take(k as int).drop_last() =~= name@.take(k - 1));
        k = k - 1;
    }
    assert(name@.take(0) =~= Seq::<char>::empty());
    None
}

/// Proof that `last_dot` points at a `.` inside the name.
pub proof fn lemma_last_dot(name: Seq<char>)
    ensures
        last_dot(name) matches Some(d) ==> 0 <= d < name.len() && name[d] == '.',
        last_dot(name) is None ==> forall|i: int| 0 <= i < name.len() ==> name[i] != '.',
    decreases name.len(),
{
    if name.len() > 0 && name.last() != '.' {
        lemma_last_dot(name.drop_last());
        assert forall|i: int| 0 <= i < name.len() && last_dot(name) is None implies name[i] != '.' by {
            if i < name.len() - 1 {
                assert(name[i] == name.drop_last()[i]);
            }
        }
    }
}

/// `Path::file_stem` of a `/`-separated path.
pub fn file_stem(p: &str) -> (r: Option<String>)
    ensures
        r is None <==> file_stem_of(p@) is None,
        r matches Some(n) ==> file_stem_of(p@) == Some(n@),
{
    match file_name(p) {
        None => None,
        Some(n) => {
            let nv = chars_of(n.as_str());
            match last_dot_exec(nv.as_slice()) {
                None => Some(n),
                Some(d) => {
                    if d == 0 {
                        Some(n)
                    } else {
                        let mut out: Vec<char> = Vec::new();
                        let mut i: usize = 0;
                        while i < d
                            invariant
                                d < nv@.len(),
                                i <= d,
                                out@ == nv@.take(i as int),
                            decreases d - i,
                        {
                            out.push(nv[i]);
                            assert(nv@.take(i as int).push(nv@[i as int]) =~= nv@.take(i + 1));
                            i = i + 1;
                        }
                        Some(string_from_chars(out.as_slice()))
                    }
                },
            }
        },
    }
}

/// `Path::extension` of a `/`-separated path.
pub fn extension(p: &str) -> (r: Option<String>)
    ensures
        r is None <==> extension_of(p@) is None,
        r matches Some(n) ==> extension_of(p@) == Some(n@),
{
    match file_name(p) {
        None => None,
        Some(n) => {
            let nv = chars_of(n.as_str());
            match last_dot_exec(nv.as_slice()) {
                None => None,
                Some(d) => {
                    let n = nv.len();
                    assert(d < n);
                    if d == 0 {
                        None
                    } else {
                        let mut out: Vec<char> = Vec::new();
                        let mut i: usize = d + 1;
                        while i < nv.len()
                            invariant
                                d < nv@.len(),
                                d + 1 <= i <= nv@.len(),
                                out@ == nv@.subrange(d + 1, i as int),
                            decreases nv.len() - i,
                        {
                            out.push(nv[i]);
                            assert(nv@.subrange(d + 1, i as int).push(nv@[i as int]) =~= nv@.subrange(
                                d + 1,
                                i + 1,
                            ));
                            i = i + 1;
                        }
                        assert(nv@.subrange(d + 1, nv@.len() as int) =~= nv@.skip(d + 1));
                        Some(string_from_chars(out.as_slice()))
                    }
                },
            }
        },
    }
}

/// The path with every `\` written as `/`.
pub fn to_slashes(p: &str) -> (r: String)
    ensures
        r@ == slashed(p@),
{
    proof {
        reveal_strlit("\\");
        reveal_strlit("/");
        assert("\\"@ =~= seq!['\\']);
        assert("/"@ =~= seq!['/']);
    }
    str_replace(p, "\\", "/")
}

// ---------------------------------------------------------------------------
// Components
// ---------------------------------------------------------------------------

/// The components that name something: neither empty nor `.`.
pub open spec fn named_parts(segs: Seq<Seq<char>>) -> Seq<Seq<char>>
    decreases segs.len(),
{
    if segs.len() == 0 {
        segs
    } else if segs.last().len() > 0 && segs.last() != seq!['.'] {
        named_parts(segs.drop_last()).push(segs.last())
    } else {
        named_parts(segs.drop_last())
    }
}

/// The components of a path: the root as `/` when the path is absolute, a
/// leading `.` of a relative path, then every component that is neither
/// empty nor `.`.
pub open spec fn components(p: Seq<char>) -> Seq<Seq<char>> {
    let segs = split_on(p, '/');
    let named = named_parts(segs);
    if p.len() > 0 && p[0] == '/' {
        seq![seq!['/']] + named
    } else if segs[0] == seq!['.'] {
        seq![seq!['.']] + named
    } else {
        named
    }
}

/// `Path::starts_with`: `base`'s components are the first components of `p`.
pub open spec fn path_starts_with(p: Seq<char>, base: Seq<char>) -> bool {
    let a = components(p);
    let b = components(base);
    b.len() <= a.len() && a.take(b.len() as int) == b
}

proof fn lemma_split_nonempty(cur: Seq<char>, rest: Seq<char>, sep: char)
    ensures
        split_from(cur, rest, sep).len() > 0,
    decreases rest.len(),
{
    if rest.len() > 0 {
        if rest[0] == sep {
            lemma_split_nonempty(seq![], rest.drop_first(), sep);
        } else {
            lemma_split_nonempty(cur.push(rest[0]), rest.drop_first(), sep);
        }
    }
}

/// The components of `p`.
pub fn path_components(p: &str) -> (r: Vec<Vec<char>>)
    ensures
        piece_views(r@) == components(p@),
{
    let cv = chars_of(p);
    let segs = split_chars(cv.as_slice(), '/');
    let ghost sv = piece_views(segs@);
    proof {
        lemma_split_nonempty(seq![], p@, '/');
    }
    assert(sv.len() > 0);
    let mut out: Vec<Vec<char>> = Vec::new();
    assert(sv[0] == segs@[0]@);
    let ghost lead_spec = if p@.len() > 0 && p@[0] == '/' {
        seq![seq!['/']]
    } else if sv[0] == seq!['.'] {
        seq![seq!['.']]
    } else {
        Seq::<Seq<char>>::empty()
    };
    if cv.len() > 0 && cv[0] == '/' {
        let root: Vec<char> = vec!['/'];
        assert(root@ =~= seq!['/']);
        out.push(root);
        assert(piece_views(out@) =~= lead_spec);
    } else if segs[0].len() == 1 && segs[0][0] == '.' {
        let cur: Vec<char> = vec!['.'];
        assert(cur@ =~= seq!['.']);
        assert(sv[0] =~= seq!['.']);
        out.push(cur);
        assert(piece_views(out@) =~= lead_spec);
    } else {
        assert(sv[0] != seq!['.']) by {
            if sv[0] == seq!['.'] {
                assert(sv[0].len() == 1 && sv[0][0] == '.');
            }
        }
        assert(piece_views(out@) =~= lead_spec);
    }
    let ghost lead = piece_views(out@);
    let mut i: usize = 0;
    assert(sv.take(0) =~= Seq::<Seq<char>>::empty());
    while i < segs.len()
        invariant
            i <= segs@.len(),
            sv == piece_views(segs@),
            piece_views(out@) == lead + named_parts(sv.take(i as int)),
        decreases segs.len() - i,
    {
        let seg = &segs[i];
        assert(sv[i as int] == seg@);
        assert(sv.take(i + 1).drop_last() =~= sv.take(i as int));
        assert(sv.take(i + 1).last() == seg@);
        let is_dot = seg.len() == 1 && seg[0] == '.';
        assert(is_dot == (seg@ == seq!['.'])) by {
            if seg@.len() == 1 && seg@[0] == '.' {
                assert(seg@ =~= seq!['.']);
            }
        }
        if seg.len() > 0 && !is_dot {
            let ghost before = piece_views(out@);
            out.push(copy_chars(seg.as_slice()));
            assert(piece_views(out@) =~= before.push(seg@));
        }
        i = i + 1;
    }
    assert(sv.take(segs@.len() as int) =~= sv);
    out
}

/// Whether `p` lies under `base` (`Path::starts_with`, component-wise).
pub fn starts_with_path(p: &str, base: &str) -> (r: bool)
    ensures
        r == path_starts_with(p@, base@),
{
    let a = path_components(p);
    let b = path_components(base);
    let ghost av = piece_views(a@);
    let ghost bv = piece_views(b@);
    assert(av.len() == a@.len() && bv.len() == b@.len());
    if b.len() > a.len() {
        return false;
    }
    let mut i: usize = 0;
    while i < b.len()
        invariant
            i <= b@.len() <= a@.len(),
            av == piece_views(a@),
            bv == piece_views(b@),
            av == components(p@),
            bv == components(base@),
            forall|j: int| 0 <= j < i ==> av[j] == bv[j],
        decreases b.len() - i,
    {
        assert(av[i as int] == a@[i as int]@ && bv[i as int] == b@[i as int]@);
        if !chars_eq(a[i].as_slice(), b[i].as_slice()) {
            assert(av.take(bv.len() as int)[i as int] != bv[i as int]);
            return false;
        }
        i = i + 1;
    }
    assert(av.take(bv.len() as int) =~= bv);
    true
}

/// The path `p` with the components of `base` taken off its front
/// (`Path::strip_prefix`), its remaining components joined with `/`.
pub open spec fn strip_prefix_of(p: Seq<char>, base: Seq<char>) -> Option<Seq<char>> {
    if path_starts_with(p, base) {
        Some(join(components(p).skip(components(base).len() as int), seq!['/']))
    } else {
        None
    }
}

/// `p` relative to `base`, or `None` when `p` does not lie under `base`.
pub fn strip_prefix(p: &str, base: &str) -> (r: Option<String>)
    ensures
        r is None <==> strip_prefix_of(p@, base@) is None,
        r matches Some(s) ==> strip_prefix_of(p@, base@) == Some(s@),
{
    if !starts_with_path(p, base) {
        return None;
    }
    let a = path_components(p);
    let b = path_components(base);
    let ghost av = piece_views(a@);
    let ghost rest = av.skip(b@.len() as int);
    let mut out: Vec<char> = Vec::new();
    let mut i: usize = b.len();
    assert(piece_views(b@).len() == b@.len());
    assert(rest.take(0) =~= Seq::<Seq<char>>::empty());
    while i < a.len()
        invariant
            b@.len() <= i <= a@.len(),
            av == piece_views(a@),
            rest == av.skip(b@.len() as int),
            out@ == join(rest.take(i - b@.len()), seq!['/']),
        decreases a.len() - i,
    {
        let ghost before = out@;
        let k = i - b.len();
        if i > b.len() {
            out.push('/');
        }
        extend_chars(&mut out, a[i].as_slice());
        proof {
            assert(rest[k as int] == a@[i as int]@);
            assert(rest.take(k + 1) =~= rest.take(k as int).push(rest[k as int]));
            if k > 0 {
                lemma_join_push(rest.take(k as int), rest[k as int], seq!['/']);
                assert(out@ =~= before + seq!['/'] + rest[k as int]);
            } else {
                assert(rest.take(1) =~= seq![rest[0]]);
                assert(out@ =~= rest[0]);
            }
        }
        i = i + 1;
    }
    assert(rest.take(a@.len() - b@.len()) =~= rest);
    Some(string_from_chars(out.as_slice()))
}

/// `p` is, component for component, one of the paths of `list`.
pub open spec fn listed_path(list: Seq<Seq<char>>, p: Seq<char>) -> bool {
    exists|j: int| 0 <= j < list.len() && components(#[trigger] list[j]) == components(p)
}

/// Whether `p` is one of the paths of `list` (`PathBuf` equality).
pub fn contains_path(list: &Vec<String>, p: &str) -> (r: bool)
    ensures
        r == listed_path(list@.map_values(|s: String| s@), p@),
{
    let ghost lv = list@.map_values(|s: String| s@);
    let mut k: usize = 0;
    while k < list.len()
        invariant
            k <= list@.len(),
            lv == list@.map_values(|s: String| s@),
            forall|m: int| 0 <= m < k ==> components(#[trigger] lv[m]) != components(p@),
        decreases list.len() - k,
    {
        assert(lv[k as int] == list@[k as int]@);
        if same_path(list[k].as_str(), p) {
            return true;
        }
        k = k + 1;
    }
    false
}

/// Two paths with the same components (`PathBuf` equality).
pub fn same_path(a: &str, b: &str) -> (r: bool)
    ensures
        r == (components(a@) == components(b@)),
{
    let x = path_components(a);
    let y = path_components(b);
    let ghost xv = piece_views(x@);
    let ghost yv = piece_views(y@);
    assert(xv.len() == x@.len() && yv.len() == y@.len());
    if x.len() != y.len() {
        return false;
    }
    let mut i: usize = 0;
    while i < x.len()
        invariant
            i <= x@.len() == y@.len(),
            xv == piece_views(x@),
            yv == piece_views(y@),
            xv == components(a@),
            yv == components(b@),
            forall|j: int| 0 <= j < i ==> xv[j] == yv[j],
        decreases x.len() - i,
    {
        assert(xv[i as int] == x@[i as int]@ && yv[i as int] == y@[i as int]@);
        if !chars_eq(x[i].as_slice(), y[i].as_slice()) {
            return false;
        }
        i = i + 1;
    }
    assert(xv =~= yv);
    true
}

// ---------------------------------------------------------------------------
// Facts about splitting and joining paths
// ---------------------------------------------------------------------------

pub(crate) proof fn lemma_split_nonempty_from(cur: Seq<char>, rest: Seq<char>, sep: char)
    ensures
        split_from(cur, rest, sep).len() > 0,
    decreases rest.len(),
{
    if rest.len() > 0 {
        if rest[0] == sep {
            lemma_split_nonempty_from(seq![], rest.drop_first(), sep);
        } else {
            lemma_split_nonempty_from(cur.push(rest[0]), rest.drop_first(), sep);
        }
    }
}

/// Splitting a concatenation: the last piece of the first part continues
/// into the second part.
pub(crate) proof fn lemma_split_concat(cur: Seq<char>, a: Seq<char>, b: Seq<char>, sep: char)
    ensures
        split_from(cur, a + b, sep) == split_from(cur, a, sep).drop_last() + split_from(
            split_from(cur, a, sep).last(),
            b,
            sep,
        ),
    decreases a.len(),
{
    lemma_split_nonempty_from(cur, a, sep);
    if a.len() == 0 {
        assert(a + b =~= b);
        assert(split_from(cur, a, sep) =~= seq![cur]);
        assert(seq![cur].drop_last() + split_from(cur, b, sep) =~= split_from(cur, b, sep));
    } else {
        assert((a + b)[0] == a[0]);
        assert((a + b).drop_first() =~= a.drop_first() + b);
        if a[0] == sep {
            lemma_split_concat(seq![], a.drop_first(), b, sep);
            lemma_split_nonempty_from(seq![], a.drop_first(), sep);
            let r = split_from(seq![], a.drop_first(), sep);
            assert(split_from(cur, a, sep) == seq![cur] + r);
            assert((seq![cur] + r).drop_last() =~= seq![cur] + r.drop_last());
            assert((seq![cur] + r).last() == r.last());
        } else {
            lemma_split_concat(cur.push(a[0]), a.drop_first(), b, sep);
        }
    }
}

/// A text ending in the separator ends in an empty piece.
pub(crate) proof fn lemma_split_last_after_sep(cur: Seq<char>, a: Seq<char>, sep: char)
    requires
        a.len() > 0,
        a.last() == sep,
    ensures
        split_from(cur, a, sep).last() == Seq::<char>::empty(),
        split_from(cur, a, sep).len() >= 2,
    decreases a.len(),
{
    if a.len() == 1 {
        assert(a[0] == sep);
        assert(a.drop_first() =~= Seq::<char>::empty());
    } else {
        assert(a.drop_first().last() == sep);
        if a[0] == sep {
            lemma_split_last_after_sep(seq![], a.drop_first(), sep);
        } else {
            lemma_split_last_after_sep(cur.push(a[0]), a.drop_first(), sep);
        }
    }
}

/// A text without the separator continues the current piece.
pub(crate) proof fn lemma_split_no_sep(cur: Seq<char>, x: Seq<char>, sep: char)
    requires
        forall|i: int| 0 <= i < x.len() ==> x[i] != sep,
    ensures
        split_from(cur, x, sep) == seq![cur + x],
    decreases x.len(),
{
    if x.len() == 0 {
        assert(cur + x =~= cur);
    } else {
        assert(x[0] != sep);
        assert forall|i: int| 0 <= i < x.drop_first().len() implies x.drop_first()[i] != sep by {
            assert(x.drop_first()[i] == x[i + 1]);
        }
        lemma_split_no_sep(cur.push(x[0]), x.drop_first(), sep);
        assert(cur.push(x[0]) + x.drop_first() =~= cur + x);
    }
}

/// Joining the pieces of a split with the separator gives the text back.
pub(crate) proof fn lemma_join_split(cur: Seq<char>, rest: Seq<char>, sep: char)
    ensures
        join(split_from(cur, rest, sep), seq![sep]) == cur + rest,
    decreases rest.len(),
{
    if rest.len() == 0 {
        assert(cur + rest =~= cur);
    } else if rest[0] == sep {
        lemma_join_split(seq![], rest.drop_first(), sep);
        lemma_split_nonempty_from(seq![], rest.drop_first(), sep);
        let r = split_from(seq![], rest.drop_first(), sep);
        let all = seq![cur] + r;
        assert(all[0] == cur);
        assert(all.drop_first() =~= r);
        assert(join(all, seq![sep]) == cur + seq![sep] + join(r, seq![sep]));
        assert(cur + seq![sep] + (Seq::<char>::empty() + rest.drop_first()) =~= cur + rest);
    } else {
        lemma_join_split(cur.push(rest[0]), rest.drop_first(), sep);
        assert(cur.push(rest[0]) + rest.drop_first() =~= cur + rest);
    }
}

/// `named_parts` of a concatenation.
pub(crate) proof fn lemma_named_concat(x: Seq<Seq<char>>, y: Seq<Seq<char>>)
    ensures
        named_parts(x + y) == named_parts(x) + named_parts(y),
    decreases y.len(),
{
    if y.len() == 0 {
        assert(x + y =~= x);
        assert(named_parts(x) + named_parts(y) =~= named_parts(x));
    } else {
        lemma_named_concat(x, y.drop_last());
        assert((x + y).drop_last() =~= x + y.drop_last());
        assert((x + y).last() == y.last());
        if y.last().len() > 0 && y.last() != seq!['.'] {
            assert(named_parts(x) + named_parts(y.drop_last()).push(y.last()) =~= (named_parts(x)
                + named_parts(y.drop_last())).push(y.last()));
        }
    }
}

/// Every piece names something: none is empty or `.`.
pub open spec fn all_named(s: Seq<Seq<char>>) -> bool {
    forall|i: int| 0 <= i < s.len() ==> (#[trigger] s[i]).len() > 0 && s[i] != seq!['.']
}

pub(crate) proof fn lemma_named_all(s: Seq<Seq<char>>)
    requires
        all_named(s),
    ensures
        named_parts(s) == s,
    decreases s.len(),
{
    if s.len() > 0 {
        assert(all_named(s.drop_last())) by {
            assert forall|i: int| 0 <= i < s.drop_last().len() implies (#[trigger] s.drop_last()[i]).len() > 0
                && s.drop_last()[i] != seq!['.'] by {
                assert(s.drop_last()[i] == s[i]);
            }
        }
        lemma_named_all(s.drop_last());
        assert(s[s.len() - 1] == s.last());
        assert(s.drop_last().push(s.last()) =~= s);
    }
}

/// A clean relative path: its `/`-pieces are none empty and none `.`.
pub open spec fn clean_rel(p: Seq<char>) -> bool {
    all_named(split_on(p, '/'))
}

/// The components of `base` joined with a clean relative path are the
/// components of `base` followed by the pieces of that path.
pub(crate) proof fn lemma_components_join(base: Seq<char>, name: Seq<char>, joined: Seq<char>)
    requires
        clean_rel(name),
        joined == (if base.len() == 0 {
            name
        } else if base.last() == '/' {
            base + name
        } else {
            base + seq!['/'] + name
        }),
    ensures
        components(joined) == components(base) + split_on(name, '/'),
{
    let sn = split_on(name, '/');
    let sb = split_on(base, '/');
    lemma_named_all(sn);
    lemma_split_nonempty_from(seq![], name, '/');
    lemma_split_nonempty_from(seq![], base, '/');
    assert(sn[0].len() > 0 && sn[0] != seq!['.']);
    // a clean path does not start with `/`
    assert(name.len() > 0 && name[0] != '/') by {
        if name.len() == 0 {
            assert(sn =~= seq![Seq::<char>::empty()]);
        } else if name[0] == '/' {
            assert(name.drop_first() =~= name.drop_first());
            assert(sn[0] == Seq::<char>::empty());
        }
    }
    if base.len() == 0 {
        assert(sb =~= seq![Seq::<char>::empty()]);
        assert(named_parts(sb) =~= Seq::<Seq<char>>::empty()) by {
            assert(sb.drop_last() =~= Seq::<Seq<char>>::empty());
            assert(sb.last().len() == 0);
            assert(named_parts(sb) == named_parts(sb.drop_last()));
        }
        assert(components(base) =~= Seq::<Seq<char>>::empty());
        assert(components(joined) == named_parts(sn));
    } else {
        let sj = split_on(joined, '/');
        if base.last() == '/' {
            lemma_split_concat(seq![], base, name, '/');
            lemma_split_last_after_sep(seq![], base, '/');
            assert(sj == sb.drop_last() + sn);
            lemma_named_concat(sb.drop_last(), sn);
            assert(sb.drop_last().push(sb.last()) =~= sb);
            assert(named_parts(sb) == named_parts(sb.drop_last()));
            assert(sj[0] == sb[0]);
            assert(joined[0] == base[0]);
        } else {
            let bs = base + seq!['/'];
            assert(joined =~= bs + name);
            lemma_split_concat(seq![], bs, name, '/');
            lemma_split_last_after_sep(seq![], bs, '/');
            lemma_split_concat(seq![], base, seq!['/'], '/');
            let tail = split_from(sb.last(), seq!['/'], '/');
            assert(seq!['/'].drop_first() =~= Seq::<char>::empty());
            assert(tail == seq![sb.last()] + split_from(seq![], Seq::<char>::empty(), '/'));
            assert(split_on(bs, '/') == sb.drop_last() + tail);
            assert(split_on(bs, '/').drop_last() =~= sb) by {
                assert(sb.drop_last().push(sb.last()) =~= sb);
            }
            assert(sj == sb + sn);
            lemma_named_concat(sb, sn);
            assert(sj[0] == sb[0]);
            assert(joined[0] == base[0]);
        }
    }
}

} // verus!
