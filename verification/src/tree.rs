//! The directory tree written to `bark.txt`.
//!
//! Reading directories is done by the caller; it hands over, for every
//! directory, the entries that `TreeGenerator::should_include` admits, as
//! `TreeNode`s. Ordering the entries and drawing the tree happen here.
use crate::backup::join_path;
use crate::paths::{
    clean_rel, components, lemma_components_join, lemma_join_split, lemma_named_all,
    lemma_split_nonempty_from, same_path, slashed, split_on, strip_prefix, strip_prefix_of,
    to_slashes,
};
use crate::text::{chars_of, copy_strings, push_str, strings_view};
use crate::walker::{excluded_by, is_path_excluded};
use vstd::prelude::*;

verus! {

broadcast use vstd::string::group_string_axioms;

/// An entry of the tree: a file, or a directory with its entries.
pub struct TreeNode {
    pub name: String,
    pub is_dir: bool,
    pub children: Vec<TreeNode>,
}

/// The tree of one project root.
pub struct TreeGenerator {
    /// Canonical project root.
    pub root: String,
    /// Canonical backup directory, left out of the tree.
    pub exclude_dir: String,
    /// Canonical output file, left out of the tree.
    pub output_file: String,
    /// Canonical paths that `.gitignore` and `.barkignore` admit.
    pub allowed_paths: Vec<String>,
    /// `[exclude]` patterns.
    pub exclude_patterns: Vec<String>,
}

// ---------------------------------------------------------------------------
// Ordering entries
// ---------------------------------------------------------------------------

/// `a` sorts before `b`: character by character, a proper prefix first (the
/// order of file names as byte strings).
pub open spec fn name_lt(a: Seq<char>, b: Seq<char>) -> bool
    decreases a.len(),
{
    if a.len() == 0 {
        b.len() > 0
    } else if b.len() == 0 {
        false
    } else if a[0] != b[0] {
        (a[0] as u32) < (b[0] as u32)
    } else {
        name_lt(a.drop_first(), b.drop_first())
    }
}

/// Entry `a` comes before entry `b`: directories before files, and within
/// each group by name.
pub open spec fn node_lt(a: TreeNode, b: TreeNode) -> bool {
    (a.is_dir && !b.is_dir) || (a.is_dir == b.is_dir && name_lt(a.name@, b.name@))
}

/// `x` put into the ordered `s`, after every entry that does not sort after it.
pub open spec fn insert_sorted(x: TreeNode, s: Seq<TreeNode>) -> Seq<TreeNode>
    decreases s.len(),
{
    if s.len() == 0 {
        seq![x]
    } else if node_lt(x, s[0]) {
        seq![x] + s
    } else {
        seq![s[0]] + insert_sorted(x, s.drop_first())
    }
}

/// The entries ordered: directories first, then files, each group by name
/// (a stable insertion order).
pub open spec fn sort_nodes(s: Seq<TreeNode>) -> Seq<TreeNode>
    decreases s.len(),
{
    if s.len() == 0 {
        s
    } else {
        insert_sorted(s.last(), sort_nodes(s.drop_last()))
    }
}

/// Whether `a` sorts before `b`.
pub fn name_less(a: &str, b: &str) -> (r: bool)
    ensures
        r == name_lt(a@, b@),
{
    let av = chars_of(a);
    let bv = chars_of(b);
    let mut i: usize = 0;
    assert(av@.skip(0) =~= av@);
    assert(bv@.skip(0) =~= bv@);
    while i < av.len() && i < bv.len() && av[i] == bv[i]
        invariant
            i <= av@.len(),
            i <= bv@.len(),
            name_lt(av@, bv@) == name_lt(av@.skip(i as int), bv@.skip(i as int)),
        decreases av.len() - i,
    {
        assert(av@.skip(i as int).drop_first() =~= av@.skip(i + 1));
        assert(bv@.skip(i as int).drop_first() =~= bv@.skip(i + 1));
        i = i + 1;
    }
    if i == av.len() {
        i < bv.len()
    } else if i == bv.len() {
        false
    } else {
        (av[i] as u32) < (bv[i] as u32)
    }
}

/// Whether entry `a` comes before entry `b`.
pub fn node_less(a: &TreeNode, b: &TreeNode) -> (r: bool)
    ensures
        r == node_lt(*a, *b),
{
    if a.is_dir != b.is_dir {
        a.is_dir
    } else {
        name_less(a.name.as_str(), b.name.as_str())
    }
}

proof fn lemma_insert_at(x: TreeNode, s: Seq<TreeNode>, p: int)
    requires
        0 <= p <= s.len(),
        forall|j: int| 0 <= j < p ==> !node_lt(x, #[trigger] s[j]),
        p < s.len() ==> node_lt(x, s[p]),
    ensures
        insert_sorted(x, s) == s.insert(p, x),
    decreases s.len(),
{
    if s.len() == 0 {
        assert(s.insert(0, x) =~= seq![x]);
    } else if p == 0 {
        assert(seq![x] + s =~= s.insert(0, x));
    } else {
        let t = s.drop_first();
        assert forall|j: int| 0 <= j < p - 1 implies !node_lt(x, #[trigger] t[j]) by {
            assert(t[j] == s[j + 1]);
        }
        if p - 1 < t.len() {
            assert(t[p - 1] == s[p]);
        }
        lemma_insert_at(x, t, p - 1);
        assert(seq![s[0]] + t.insert(p - 1, x) =~= s.insert(p, x));
    }
}

/// The entries ordered: directories first, then files, each group by name.
pub fn sort_entries(v: Vec<TreeNode>) -> (r: Vec<TreeNode>)
    ensures
        r@ == sort_nodes(v@),
{
    let ghost orig = v@;
    let mut input = v;
    assert(orig.len() == input.len());
    let mut out: Vec<TreeNode> = Vec::new();
    let mut i: usize = 0;
    assert(orig.take(0) =~= Seq::<TreeNode>::empty());
    assert(orig.skip(0) =~= orig);
    while input.len() > 0
        invariant
            i <= orig.len(),
            orig.len() <= usize::MAX,
            i + input@.len() == orig.len(),
            input@ == orig.skip(i as int),
            out@ == sort_nodes(orig.take(i as int)),
        decreases input.len(),
    {
        let x = input.remove(0);
        assert(x == orig[i as int]);
        assert(input@ =~= orig.skip(i + 1));
        let mut p: usize = 0;
        while p < out.len() && !node_less(&x, &out[p])
            invariant
                p <= out@.len(),
                forall|j: int| 0 <= j < p ==> !node_lt(x, #[trigger] out@[j]),
            decreases out.len() - p,
        {
            p = p + 1;
        }
        proof {
            lemma_insert_at(x, out@, p as int);
            assert(orig.take(i + 1).drop_last() =~= orig.take(i as int));
            assert(orig.take(i + 1).last() == x);
        }
        out.insert(p, x);
        i = i + 1;
    }
    assert(orig.take(i as int) =~= orig);
    out
}

impl TreeNode {
    /// A file entry.
    pub fn file(name: String) -> (r: Self)
        ensures
            r.name == name,
            !r.is_dir,
            r.children@.len() == 0,
    {
        TreeNode { name, is_dir: false, children: Vec::new() }
    }

    /// A directory entry, its entries ordered (directories first, then
    /// files, each group by name).
    pub fn dir(name: String, children: Vec<TreeNode>) -> (r: Self)
        ensures
            r.name == name,
            r.is_dir,
            r.children@ == sort_nodes(children@),
    {
        TreeNode { name, is_dir: true, children: sort_entries(children) }
    }
}

// ---------------------------------------------------------------------------
// Drawing the tree
// ---------------------------------------------------------------------------

/// The text of `nodes[i..]` drawn below `prefix`: one line per entry
/// (`├── ` or, for the last, `└── `, then the name, and `/` for a
/// directory), each directory followed by its entries indented with `│   `
/// (or four spaces below the last entry).
pub open spec fn draw_from(nodes: Seq<TreeNode>, i: int, prefix: Seq<char>) -> Seq<char>
    decreases nodes, nodes.len() - i,
{
    if i < 0 || i >= nodes.len() {
        Seq::<char>::empty()
    } else {
        let node = nodes[i];
        let is_last = i == nodes.len() - 1;
        let connector = if is_last {
            "└── "@
        } else {
            "├── "@
        };
        let rest = draw_from(nodes, i + 1, prefix);
        if node.is_dir {
            let line = prefix + connector + node.name@ + "/\n"@;
            let child_prefix = prefix + if is_last {
                "    "@
            } else {
                "│   "@
            };
            line + draw_from(node.children@, 0, child_prefix) + rest
        } else {
            prefix + connector + node.name@ + "\n"@ + rest
        }
    }
}

/// Draws `nodes[i..]` below `prefix` onto `out`.
fn draw(nodes: &Vec<TreeNode>, i: usize, prefix: &str, out: &mut String)
    requires
        i <= nodes@.len(),
    ensures
        final(out)@ == old(out)@ + draw_from(nodes@, i as int, prefix@),
    decreases nodes@, nodes@.len() - i,
{
    if i >= nodes.len() {
        return;
    }
    let node = &nodes[i];
    let is_last = i == nodes.len() - 1;
    let connector = if is_last {
        "└── "
    } else {
        "├── "
    };
    push_str(out, prefix);
    push_str(out, connector);
    push_str(out, node.name.as_str());
    if node.is_dir {
        push_str(out, "/\n");
        let mut child_prefix = String::new();
        push_str(&mut child_prefix, prefix);
        push_str(
            &mut child_prefix,
            if is_last {
                "    "
            } else {
                "│   "
            },
        );
        draw(&node.children, 0, child_prefix.as_str(), out);
    } else {
        push_str(out, "\n");
    }
    draw(nodes, i + 1, prefix, out);
}

/// The whole tree file: `.`, then the entries, ordered (directories first,
/// then files, each group by name) and drawn.
pub open spec fn tree_text(nodes: Seq<TreeNode>) -> Seq<char> {
    ".\n"@ + draw_from(sort_nodes(nodes), 0, Seq::<char>::empty())
}

/// Whether the generator admits the entry at the canonical path `p`: it is
/// neither the backup directory nor the output file, the ignore files admit
/// it, and its path relative to the root matches no exclude pattern.
pub open spec fn include_spec(g: TreeGenerator, p: Seq<char>) -> bool {
    let rel = match strip_prefix_of(p, g.root@) {
        Some(r) => r,
        None => p,
    };
    &&& components(p) != components(g.exclude_dir@)
    &&& components(p) != components(g.output_file@)
    &&& exists|i: int|
        0 <= i < g.allowed_paths@.len() && components(#[trigger] g.allowed_paths@[i]@) == components(p)
    &&& !excluded_by(slashed(rel), strings_view(g.exclude_patterns@))
}

impl TreeGenerator {
    /// A generator for `root` (all paths canonical), leaving out the backup
    /// directory and the output file, admitting the paths the ignore files
    /// admit, and applying the `[exclude]` patterns.
    pub fn new(
        root: String,
        exclude_dir: String,
        output_file: String,
        allowed_paths: Vec<String>,
        exclude_patterns: &[String],
    ) -> (r: Self)
        ensures
            r.root == root,
            r.exclude_dir == exclude_dir,
            r.output_file == output_file,
            r.allowed_paths == allowed_paths,
            r.exclude_patterns@ == exclude_patterns@,
    {
        TreeGenerator {
            root,
            exclude_dir,
            output_file,
            allowed_paths,
            exclude_patterns: copy_strings(exclude_patterns),
        }
    }

    /// Whether the ignore files admit the canonical path `path`.
    fn is_allowed(&self, path: &str) -> (r: bool)
        ensures
            r == exists|i: int|
                0 <= i < self.allowed_paths@.len() && components(#[trigger] self.allowed_paths@[i]@)
                    == components(path@),
    {
        let mut i: usize = 0;
        while i < self.allowed_paths.len()
            invariant
                i <= self.allowed_paths@.len(),
                forall|j: int|
                    0 <= j < i ==> components(#[trigger] self.allowed_paths@[j]@) != components(path@),
            decreases self.allowed_paths.len() - i,
        {
            if same_path(self.allowed_paths[i].as_str(), path) {
                return true;
            }
            i = i + 1;
        }
        false
    }

    /// Whether the entry at the canonical path `path` appears in the tree.
    pub fn should_include(&self, path: &str) -> (r: bool)
        ensures
            r == include_spec(*self, path@),
            (strip_prefix_of(path@, self.root@) matches Some(rel) && excluded_by(
                slashed(rel),
                strings_view(self.exclude_patterns@),
            )) ==> !r,
    {
        proof {
            law_tree_leaves_out_excluded(*self, path@);
        }
        if same_path(path, self.exclude_dir.as_str()) || same_path(path, self.output_file.as_str()) {
            return false;
        }
        if !self.is_allowed(path) {
            return false;
        }
        let rel = match strip_prefix(path, self.root.as_str()) {
            Some(r) => r,
            None => path.to_owned(),
        };
        let rel_str = to_slashes(rel.as_str());
        !is_path_excluded(rel_str.as_str(), self.exclude_patterns.as_slice())
    }

    /// The tree file for the top-level entries `top`: `.`, then the
    /// entries ordered (directories first, then files, each group by name)
    /// and drawn.
    pub fn render(&self, top: Vec<TreeNode>) -> (r: String)
        ensures
            r@ == tree_text(top@),
    {
        let nodes = sort_entries(top);
        let mut out = String::new();
        push_str(&mut out, ".\n");
        draw(&nodes, 0, "", &mut out);
        proof {
            reveal_strlit("");
            assert(""@ =~= Seq::<char>::empty());
        }
        out
    }
}

/// The tree leaves out what the `[exclude]` patterns match, judged by the
/// path relative to the root: an entry below the root whose relative path
/// (or its file name) matches a pattern is not in the tree. Neither are the
/// backup directory, the output file, and what the ignore files do not
/// admit.
pub proof fn law_tree_leaves_out_excluded(g: TreeGenerator, p: Seq<char>)
    ensures
        (strip_prefix_of(p, g.root@) matches Some(rel) && excluded_by(
            slashed(rel),
            strings_view(g.exclude_patterns@),
        )) ==> !include_spec(g, p),
        components(p) == components(g.exclude_dir@) ==> !include_spec(g, p),
        components(p) == components(g.output_file@) ==> !include_spec(g, p),
        (forall|i: int| 0 <= i < g.allowed_paths@.len() ==> components(#[trigger] g.allowed_paths@[i]@) != components(p))
            ==> !include_spec(g, p),
{
}

/// The same, for an entry written as the root joined with a clean relative
/// path `rel` (`root/rel`): when `rel` (or its file name) matches an
/// `[exclude]` pattern, the entry is not in the tree.
pub proof fn law_tree_leaves_out_excluded_below_root(g: TreeGenerator, rel: Seq<char>)
    requires
        clean_rel(rel),
        excluded_by(slashed(rel), strings_view(g.exclude_patterns@)),
    ensures
        !include_spec(g, join_path(g.root@, rel)),
{
    let base = g.root@;
    let p = join_path(base, rel);
    let sn = split_on(rel, '/');
    lemma_split_nonempty_from(seq![], rel, '/');
    lemma_named_all(sn);
    // a clean path does not start with `/`
    assert(rel.len() > 0 && rel[0] != '/') by {
        assert(sn[0].len() > 0);
        if rel.len() == 0 || rel[0] == '/' {
            assert(sn[0] == Seq::<char>::empty());
        }
    }
    assert(p == (if base.len() == 0 {
        rel
    } else if base.last() == '/' {
        base + rel
    } else {
        base + seq!['/'] + rel
    }));
    lemma_components_join(base, rel, p);
    let cb = components(base);
    assert(components(p).take(cb.len() as int) =~= cb);
    assert(components(p).skip(cb.len() as int) =~= sn);
    lemma_join_split(seq![], rel, '/');
    assert(Seq::<char>::empty() + rel =~= rel);
    assert(strip_prefix_of(p, base) == Some(rel));
}

proof fn lemma_name_lt_trans(a: Seq<char>, b: Seq<char>, c: Seq<char>)
    requires
        name_lt(a, b),
        name_lt(b, c),
    ensures
        name_lt(a, c),
    decreases a.len(),
{
    if a.len() > 0 && b.len() > 0 && c.len() > 0 && a[0] == b[0] && b[0] == c[0] {
        lemma_name_lt_trans(a.drop_first(), b.drop_first(), c.drop_first());
    }
}

proof fn lemma_name_lt_asym(a: Seq<char>, b: Seq<char>)
    requires
        name_lt(a, b),
    ensures
        !name_lt(b, a),
    decreases a.len(),
{
    if a.len() > 0 && b.len() > 0 && a[0] == b[0] {
        lemma_name_lt_asym(a.drop_first(), b.drop_first());
    }
}

proof fn lemma_node_lt_trans(a: TreeNode, b: TreeNode, c: TreeNode)
    requires
        node_lt(a, b),
        node_lt(b, c),
    ensures
        node_lt(a, c),
{
    if a.is_dir == b.is_dir && b.is_dir == c.is_dir {
        lemma_name_lt_trans(a.name@, b.name@, c.name@);
    }
}

proof fn lemma_node_lt_asym(a: TreeNode, b: TreeNode)
    requires
        node_lt(a, b),
    ensures
        !node_lt(b, a),
{
    if a.is_dir == b.is_dir {
        lemma_name_lt_asym(a.name@, b.name@);
    }
}

/// The entries are in tree order: every directory before every file, and
/// within each group no entry has a name that sorts before an earlier one.
pub open spec fn in_tree_order(s: Seq<TreeNode>) -> bool {
    forall|i: int, j: int|
        #![trigger s[i], s[j]]
        0 <= i < j < s.len() ==> (s[j].is_dir ==> s[i].is_dir) && (s[i].is_dir == s[j].is_dir
            ==> !name_lt(s[j].name@, s[i].name@))
}

proof fn lemma_insert_elems(x: TreeNode, s: Seq<TreeNode>)
    ensures
        insert_sorted(x, s).len() == s.len() + 1,
        forall|k: int| 0 <= k < insert_sorted(x, s).len() ==> #[trigger] insert_sorted(x, s)[k] == x || s.contains(insert_sorted(x, s)[k]),
        insert_sorted(x, s).contains(x),
        forall|k: int| 0 <= k < s.len() ==> insert_sorted(x, s).contains(#[trigger] s[k]),
    decreases s.len(),
{
    let r = insert_sorted(x, s);
    if s.len() == 0 {
        assert(r[0] == x);
    } else if node_lt(x, s[0]) {
        assert(r[0] == x);
        assert forall|k: int| 0 <= k < r.len() implies #[trigger] r[k] == x || s.contains(r[k]) by {
            if k > 0 {
                assert(r[k] == s[k - 1]);
            }
        }
        assert forall|k: int| 0 <= k < s.len() implies r.contains(#[trigger] s[k]) by {
            assert(r[k + 1] == s[k]);
        }
    } else {
        let t = s.drop_first();
        lemma_insert_elems(x, t);
        let rt = insert_sorted(x, t);
        assert(r == seq![s[0]] + rt);
        assert forall|k: int| 0 <= k < r.len() implies #[trigger] r[k] == x || s.contains(r[k]) by {
            if k == 0 {
                assert(r[0] == s[0]);
            } else {
                assert(r[k] == rt[k - 1]);
                if rt[k - 1] != x {
                    let m = choose|m: int| 0 <= m < t.len() && t[m] == rt[k - 1];
                    assert(s[m + 1] == t[m]);
                }
            }
        }
        let m = choose|m: int| 0 <= m < rt.len() && rt[m] == x;
        assert(r[m + 1] == x);
        assert forall|k: int| 0 <= k < s.len() implies r.contains(#[trigger] s[k]) by {
            if k == 0 {
                assert(r[0] == s[0]);
            } else {
                assert(t[k - 1] == s[k]);
                let q = choose|q: int| 0 <= q < rt.len() && rt[q] == t[k - 1];
                assert(r[q + 1] == s[k]);
            }
        }
    }
}

proof fn lemma_insert_in_order(x: TreeNode, s: Seq<TreeNode>)
    requires
        in_tree_order(s),
    ensures
        in_tree_order(insert_sorted(x, s)),
    decreases s.len(),
{
    let r = insert_sorted(x, s);
    if s.len() == 0 {
    } else if node_lt(x, s[0]) {
        assert(r == seq![x] + s);
        assert forall|i: int, j: int|
            #![trigger r[i], r[j]]
            0 <= i < j < r.len() implies (r[j].is_dir ==> r[i].is_dir)
            && (r[i].is_dir == r[j].is_dir ==> !name_lt(r[j].name@, r[i].name@)) by {
            if i == 0 {
                let y = r[j];
                assert(y == s[j - 1]);
                if j - 1 > 0 {
                    assert(!node_lt(s[j - 1], s[0])) by {
                        assert(s[j - 1].is_dir ==> s[0].is_dir);
                        if s[0].is_dir == s[j - 1].is_dir {
                            assert(!name_lt(s[j - 1].name@, s[0].name@));
                        }
                    }
                    if node_lt(y, x) {
                        lemma_node_lt_trans(y, x, s[0]);
                    }
                } else {
                    lemma_node_lt_asym(x, s[0]);
                }
                assert(!node_lt(y, x));
            } else {
                assert(r[i] == s[i - 1]);
                assert(r[j] == s[j - 1]);
            }
        }
    } else {
        let t = s.drop_first();
        assert(in_tree_order(t)) by {
            assert forall|i: int, j: int|
                #![trigger t[i], t[j]]
                0 <= i < j < t.len() implies (t[j].is_dir ==> t[i].is_dir)
                && (t[i].is_dir == t[j].is_dir ==> !name_lt(t[j].name@, t[i].name@)) by {
                assert(t[i] == s[i + 1]);
                assert(t[j] == s[j + 1]);
            }
        }
        lemma_insert_in_order(x, t);
        lemma_insert_elems(x, t);
        let rt = insert_sorted(x, t);
        assert(r == seq![s[0]] + rt);
        assert forall|i: int, j: int|
            #![trigger r[i], r[j]]
            0 <= i < j < r.len() implies (r[j].is_dir ==> r[i].is_dir)
            && (r[i].is_dir == r[j].is_dir ==> !name_lt(r[j].name@, r[i].name@)) by {
            if i == 0 {
                let y = r[j];
                assert(y == rt[j - 1]);
                if y != x {
                    let m = choose|m: int| 0 <= m < t.len() && t[m] == y;
                    assert(s[m + 1] == y);
                    assert(s[m + 1].is_dir ==> s[0].is_dir);
                    if s[0].is_dir == s[m + 1].is_dir {
                        assert(!name_lt(s[m + 1].name@, s[0].name@));
                    }
                }
                assert(!node_lt(y, s[0]));
            } else {
                assert(r[i] == rt[i - 1]);
                assert(r[j] == rt[j - 1]);
            }
        }
    }
}

/// The tree lists each directory's entries in order: directories first,
/// then files, each group by name (character by character); ordering keeps
/// every entry and adds none.
pub proof fn law_tree_order(s: Seq<TreeNode>)
    ensures
        in_tree_order(sort_nodes(s)),
        sort_nodes(s).len() == s.len(),
        forall|k: int| 0 <= k < s.len() ==> sort_nodes(s).contains(#[trigger] s[k]),
        forall|k: int| 0 <= k < sort_nodes(s).len() ==> s.contains(#[trigger] sort_nodes(s)[k]),
    decreases s.len(),
{
    if s.len() > 0 {
        let t = s.drop_last();
        law_tree_order(t);
        let st = sort_nodes(t);
        lemma_insert_in_order(s.last(), st);
        lemma_insert_elems(s.last(), st);
        let r = sort_nodes(s);
        assert(r == insert_sorted(s.last(), st));
        assert forall|k: int| 0 <= k < s.len() implies r.contains(#[trigger] s[k]) by {
            if k == s.len() - 1 {
                assert(s[k] == s.last());
            } else {
                assert(t[k] == s[k]);
                let q = choose|q: int| 0 <= q < st.len() && st[q] == t[k];
            }
        }
        assert forall|k: int| 0 <= k < r.len() implies s.contains(#[trigger] r[k]) by {
            if r[k] == s.last() {
                assert(s[s.len() - 1] == s.last());
            } else {
                let q = choose|q: int| 0 <= q < st.len() && st[q] == r[k];
                let m = choose|m: int| 0 <= m < t.len() && t[m] == st[q];
                assert(s[m] == t[m]);
            }
        }
    }
}

proof fn lemma_name_lt_at(a: Seq<char>, b: Seq<char>, k: int)
    requires
        0 <= k <= a.len(),
        k <= b.len(),
        a.take(k) == b.take(k),
        (k < a.len() && k < b.len() && (a[k] as u32) < (b[k] as u32)) || (k == a.len() && k < b.len()),
    ensures
        name_lt(a, b),
    decreases k,
{
    if k > 0 {
        assert(a[0] == a.take(k)[0]);
        assert(b[0] == b.take(k)[0]);
        assert(a.drop_first().take(k - 1) =~= a.take(k).drop_first());
        assert(b.drop_first().take(k - 1) =~= b.take(k).drop_first());
        lemma_name_lt_at(a.drop_first(), b.drop_first(), k - 1);
    }
}

/// Names are ordered character by character: at the first position where
/// two names differ, the smaller character comes first; a name that is a
/// proper prefix of another comes first; and the order is a strict order
/// (never both ways, and transitive).
pub proof fn law_names_sort_by_characters(a: Seq<char>, b: Seq<char>, c: Seq<char>, k: int)
    ensures
        (0 <= k < a.len() && k < b.len() && a.take(k) == b.take(k) && (a[k] as u32) < (b[k] as u32))
            ==> name_lt(a, b),
        (a.len() < b.len() && b.take(a.len() as int) == a) ==> name_lt(a, b),
        name_lt(a, b) ==> !name_lt(b, a),
        (name_lt(a, b) && name_lt(b, c)) ==> name_lt(a, c),
{
    if 0 <= k < a.len() && k < b.len() && a.take(k) == b.take(k) && (a[k] as u32) < (b[k] as u32) {
        lemma_name_lt_at(a, b, k);
    }
    if a.len() < b.len() && b.take(a.len() as int) == a {
        assert(a.take(a.len() as int) =~= a);
        lemma_name_lt_at(a, b, a.len() as int);
    }
    if name_lt(a, b) {
        lemma_name_lt_asym(a, b);
        if name_lt(b, c) {
            lemma_name_lt_trans(a, b, c);
        }
    }
}

} // verus!
