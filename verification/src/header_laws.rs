//! Laws of the header operations: what tagging twice, tagging then checking,
//! and re-tagging with another header give.
use crate::header::{
    apply_tag_spec, body_start, candidate, chomp_cr, crlf, ends_with_newline, finish,
    has_text_line, is_marker, is_shebang, join, line_ending, lines_from, lines_of, opener,
    space_run, tagged_lines, analyze_spec, lemma_join_push, strip_spec, first_marker_from,
    is_ascii_space, wrap_spec, ext_style, filename_style, CommentStyle, HeaderAction,
};
use crate::text::{contains_seq, ends_with, is_blank, is_unicode_ws, occurs_at};
use vstd::prelude::*;

verus! {

// ---------------------------------------------------------------------------
// Line-level facts
// ---------------------------------------------------------------------------

/// `l` has no `\n`.
pub open spec fn no_nl(l: Seq<char>) -> bool {
    forall|i: int| 0 <= i < l.len() ==> l[i] != '\n'
}

/// No line of `ls` has a `\n`.
pub open spec fn all_no_nl(ls: Seq<Seq<char>>) -> bool {
    forall|i: int| 0 <= i < ls.len() ==> no_nl(#[trigger] ls[i])
}

/// `l` ends with `\r`.
pub open spec fn ends_cr(l: Seq<char>) -> bool {
    l.len() > 0 && l.last() == '\r'
}

/// A line as `str::lines` gives it back after it was written followed by `sep`.
pub open spec fn sep_line(l: Seq<char>, sep: Seq<char>) -> Seq<char> {
    if sep == crlf() {
        l
    } else {
        chomp_cr(l)
    }
}

/// The two line endings a file can use.
pub open spec fn is_sep(sep: Seq<char>) -> bool {
    sep == crlf() || sep == seq!['\n']
}

proof fn lemma_lines_from_append(cur: Seq<char>, a: Seq<char>, t: Seq<char>)
    requires
        no_nl(a),
    ensures
        lines_from(cur, a + t) == lines_from(cur + a, t),
    decreases a.len(),
{
    if a.len() == 0 {
        assert(a + t =~= t);
        assert(cur + a =~= cur);
    } else {
        assert((a + t)[0] == a[0]);
        assert((a + t).drop_first() =~= a.drop_first() + t);
        lemma_lines_from_append(cur.push(a[0]), a.drop_first(), t);
        assert(cur.push(a[0]) + a.drop_first() =~= cur + a);
    }
}

proof fn lemma_lines_line_sep(l: Seq<char>, sep: Seq<char>, t: Seq<char>)
    requires
        no_nl(l),
        is_sep(sep),
    ensures
        lines_from(seq![], l + sep + t) == seq![sep_line(l, sep)] + lines_from(seq![], t),
{
    let nt = seq!['\n'] + t;
    assert(nt[0] == '\n');
    assert(nt.drop_first() =~= t);
    if sep == crlf() {
        let lr = l.push('\r');
        assert(no_nl(lr));
        assert(l + sep + t =~= lr + nt);
        lemma_lines_from_append(seq![], lr, nt);
        assert(Seq::<char>::empty() + lr =~= lr);
        assert(chomp_cr(lr) =~= l);
    } else {
        assert(l + sep + t =~= l + nt);
        lemma_lines_from_append(seq![], l, nt);
        assert(Seq::<char>::empty() + l =~= l);
    }
}

proof fn lemma_lines_single(l: Seq<char>)
    requires
        no_nl(l),
    ensures
        lines_of(l) == (if l.len() == 0 {
            Seq::<Seq<char>>::empty()
        } else {
            seq![l]
        }),
{
    lemma_lines_from_append(seq![], l, seq![]);
    assert(l + Seq::<char>::empty() =~= l);
    assert(Seq::<char>::empty() + l =~= l);
}

/// `str::lines` of lines joined with `sep` and ended with `sep`.
pub proof fn lemma_lines_join_term(out: Seq<Seq<char>>, sep: Seq<char>)
    requires
        out.len() > 0,
        all_no_nl(out),
        is_sep(sep),
    ensures
        lines_of(join(out, sep) + sep) == out.map_values(|l: Seq<char>| sep_line(l, sep)),
    decreases out.len(),
{
    let x = out[0];
    assert(no_nl(x));
    if out.len() == 1 {
        lemma_lines_line_sep(x, sep, seq![]);
        assert(x + sep + Seq::<char>::empty() =~= x + sep);
        assert(lines_from(seq![], Seq::<char>::empty()) =~= Seq::<Seq<char>>::empty());
        assert(out.map_values(|l: Seq<char>| sep_line(l, sep)) =~= seq![sep_line(x, sep)]);
    } else {
        let rest = out.drop_first();
        assert(all_no_nl(rest)) by {
            assert forall|i: int| 0 <= i < rest.len() implies no_nl(#[trigger] rest[i]) by {
                assert(rest[i] == out[i + 1]);
            }
        }
        lemma_lines_join_term(rest, sep);
        lemma_lines_line_sep(x, sep, join(rest, sep) + sep);
        assert(join(out, sep) + sep =~= x + sep + (join(rest, sep) + sep));
        assert(out.map_values(|l: Seq<char>| sep_line(l, sep)) =~= seq![sep_line(x, sep)]
            + rest.map_values(|l: Seq<char>| sep_line(l, sep)));
    }
}

/// `str::lines` of lines joined with `sep`: the last line comes back as it
/// is (or not at all when empty), the others as `sep_line` gives them.
pub proof fn lemma_lines_join(out: Seq<Seq<char>>, sep: Seq<char>)
    requires
        out.len() > 0,
        all_no_nl(out),
        is_sep(sep),
    ensures
        lines_of(join(out, sep)) == out.drop_last().map_values(|l: Seq<char>| sep_line(l, sep))
            + (if out.last().len() == 0 {
            Seq::<Seq<char>>::empty()
        } else {
            seq![out.last()]
        }),
    decreases out.len(),
{
    let x = out[0];
    assert(no_nl(x));
    if out.len() == 1 {
        lemma_lines_single(x);
        assert(out.drop_last() =~= Seq::<Seq<char>>::empty());
        assert(out.drop_last().map_values(|l: Seq<char>| sep_line(l, sep)) =~= Seq::<
            Seq<char>,
        >::empty());
    } else {
        let rest = out.drop_first();
        assert(all_no_nl(rest)) by {
            assert forall|i: int| 0 <= i < rest.len() implies no_nl(#[trigger] rest[i]) by {
                assert(rest[i] == out[i + 1]);
            }
        }
        lemma_lines_join(rest, sep);
        lemma_lines_line_sep(x, sep, join(rest, sep));
        assert(join(out, sep) == x + sep + join(rest, sep));
        assert(rest.last() == out.last());
        assert(out.drop_last().map_values(|l: Seq<char>| sep_line(l, sep)) =~= seq![
            sep_line(x, sep),
        ] + rest.drop_last().map_values(|l: Seq<char>| sep_line(l, sep)));
    }
}

/// What `str::lines` gives back: lines without `\n`; a line ending in `\r`
/// only where the text has a `\r\n` or at its very end; a last empty line only
/// when the text ends with a newline.
pub proof fn lemma_lines_from_props(cur: Seq<char>, rest: Seq<char>)
    requires
        no_nl(cur),
    ensures
        all_no_nl(lines_from(cur, rest)),
        forall|i: int|
            0 <= i < lines_from(cur, rest).len() && ends_cr(#[trigger] lines_from(cur, rest)[i])
                ==> contains_seq(cur + rest, crlf()) || (i == lines_from(cur, rest).len() - 1
                && !ends_with_newline(cur + rest)),
        lines_from(cur, rest).len() > 0 && lines_from(cur, rest).last().len() == 0
            ==> ends_with_newline(cur + rest),
        lines_from(cur, rest).len() == 0 ==> cur.len() == 0 && rest.len() == 0,
    decreases rest.len(),
{
    let r = lines_from(cur, rest);
    if rest.len() == 0 {
        assert(cur + rest =~= cur);
        if cur.len() > 0 {
            assert(r =~= seq![cur]);
            assert(all_no_nl(r)) by {
                assert forall|i: int| 0 <= i < r.len() implies no_nl(#[trigger] r[i]) by {
                    assert(r[i] == cur);
                }
            }
            if ends_with_newline(cur) {
                assert(cur[cur.len() - 1] == '\n');
            }
        }
    } else if rest[0] == '\n' {
        let rp = rest.drop_first();
        lemma_lines_from_props(seq![], rp);
        let r2 = lines_from(seq![], rp);
        let c0 = chomp_cr(cur);
        assert(r == seq![c0] + r2);
        assert(Seq::<char>::empty() + rp =~= rp);
        assert(no_nl(c0)) by {
            assert forall|i: int| 0 <= i < c0.len() implies c0[i] != '\n' by {
                assert(c0[i] == cur[i]);
            }
        }
        assert(all_no_nl(r)) by {
            assert forall|i: int| 0 <= i < r.len() implies no_nl(#[trigger] r[i]) by {
                if i > 0 {
                    assert(r[i] == r2[i - 1]);
                }
            }
        }
        let s = cur + rest;
        assert(s.len() == cur.len() + rest.len());
        assert forall|i: int|
            0 <= i < r.len() && ends_cr(#[trigger] r[i]) implies contains_seq(s, crlf()) || (i
            == r.len() - 1 && !ends_with_newline(s)) by {
            if i == 0 {
                assert(cur.len() > 0 && cur.last() == '\r');
                assert(s.subrange(cur.len() - 1, cur.len() + 1 as int) =~= crlf());
                assert(occurs_at(s, crlf(), cur.len() - 1));
            } else {
                assert(r[i] == r2[i - 1]);
                if contains_seq(rp, crlf()) {
                    let p = choose|p: int| occurs_at(rp, crlf(), p);
                    assert(s.subrange(p + cur.len() + 1, p + cur.len() + 3) =~= rp.subrange(
                        p,
                        p + 2,
                    ));
                    assert(occurs_at(s, crlf(), p + cur.len() + 1));
                } else {
                    assert(rp.len() > 0);
                    assert(s.last() == rp.last());
                }
            }
        }
        if r.last().len() == 0 {
            if r2.len() > 0 {
                assert(r.last() == r2.last());
                assert(s.last() == rp.last());
            } else {
                assert(rp.len() == 0);
                assert(s.last() == rest[0]);
            }
        }
    } else {
        let cp = cur.push(rest[0]);
        assert(no_nl(cp)) by {
            assert forall|i: int| 0 <= i < cp.len() implies cp[i] != '\n' by {
                if i < cur.len() {
                    assert(cp[i] == cur[i]);
                }
            }
        }
        lemma_lines_from_props(cp, rest.drop_first());
        assert(cp + rest.drop_first() =~= cur + rest);
    }
}


proof fn lemma_join_ends_nl(out: Seq<Seq<char>>, sep: Seq<char>)
    requires
        out.len() > 0,
        all_no_nl(out),
        is_sep(sep),
    ensures
        ends_with_newline(join(out, sep)) == (out.len() >= 2 && out.last().len() == 0),
    decreases out.len(),
{
    let x = out[0];
    assert(no_nl(x));
    if out.len() == 1 {
        if x.len() > 0 {
            assert(x[x.len() - 1] != '\n');
        }
    } else {
        let rest = out.drop_first();
        assert(all_no_nl(rest)) by {
            assert forall|i: int| 0 <= i < rest.len() implies no_nl(#[trigger] rest[i]) by {
                assert(rest[i] == out[i + 1]);
            }
        }
        lemma_join_ends_nl(rest, sep);
        let r = join(rest, sep);
        let j = x + sep + r;
        assert(join(out, sep) == j);
        assert(rest.last() == out.last());
        if r.len() > 0 {
            assert(j.last() == r.last());
        } else {
            assert(j.last() == sep.last());
            if rest.len() >= 2 {
                assert(ends_with_newline(r) == (rest.last().len() == 0));
            } else {
                assert(r == rest[0]);
            }
        }
        if rest.len() == 1 && r.len() > 0 {
            assert(r == rest[0]);
            assert(no_nl(rest[0]));
            assert(r[r.len() - 1] != '\n');
        }
    }
}

proof fn lemma_join_crlf_sep(out: Seq<Seq<char>>)
    requires
        out.len() >= 2,
    ensures
        contains_seq(join(out, crlf()), crlf()),
{
    let x = out[0];
    let j = x + crlf() + join(out.drop_first(), crlf());
    assert(join(out, crlf()) == j);
    assert(j.subrange(x.len() as int, x.len() + 2int) =~= crlf());
    assert(occurs_at(j, crlf(), x.len() as int));
}

proof fn lemma_join_nl_crlf(out: Seq<Seq<char>>)
    requires
        out.len() > 0,
        all_no_nl(out),
    ensures
        contains_seq(join(out, seq!['\n']), crlf()) == exists|i: int|
            0 <= i < out.len() - 1 && #[trigger] ends_cr(out[i]),
    decreases out.len(),
{
    let nl = seq!['\n'];
    let x = out[0];
    assert(no_nl(x));
    if out.len() == 1 {
        if contains_seq(join(out, nl), crlf()) {
            let p = choose|p: int| occurs_at(join(out, nl), crlf(), p);
            assert(x.subrange(p, p + 2)[1] == '\n');
            assert(x[p + 1] == '\n');
        }
    } else {
        let rest = out.drop_first();
        assert(all_no_nl(rest)) by {
            assert forall|i: int| 0 <= i < rest.len() implies no_nl(#[trigger] rest[i]) by {
                assert(rest[i] == out[i + 1]);
            }
        }
        lemma_join_nl_crlf(rest);
        let r = join(rest, nl);
        let j = x + nl + r;
        assert(join(out, nl) == j);
        if contains_seq(j, crlf()) {
            let p = choose|p: int| occurs_at(j, crlf(), p);
            assert(j.subrange(p, p + 2)[0] == '\r');
            assert(j.subrange(p, p + 2)[1] == '\n');
            assert(j[p] == '\r' && j[p + 1] == '\n');
            if p + 1 < x.len() {
                assert(j[p + 1] == x[p + 1]);
            } else if p + 1 == x.len() {
                assert(j[p] == x[p]);
                assert(ends_cr(out[0]));
            } else if p == x.len() {
                assert(j[p] == '\n');
            } else {
                let q = p - x.len() - 1;
                assert(r.subrange(q, q + 2) =~= j.subrange(p, p + 2));
                assert(occurs_at(r, crlf(), q));
                let i = choose|i: int| 0 <= i < rest.len() - 1 && #[trigger] ends_cr(rest[i]);
                assert(rest[i] == out[i + 1]);
                assert(ends_cr(out[i + 1]));
            }
        }
        if exists|i: int| 0 <= i < out.len() - 1 && #[trigger] ends_cr(out[i]) {
            let i = choose|i: int| 0 <= i < out.len() - 1 && #[trigger] ends_cr(out[i]);
            if i == 0 {
                assert(j.subrange(x.len() - 1, x.len() + 1 as int) =~= crlf());
                assert(occurs_at(j, crlf(), x.len() - 1));
            } else {
                assert(rest[i - 1] == out[i]);
                assert(ends_cr(rest[i - 1]));
                let q = choose|q: int| occurs_at(r, crlf(), q);
                assert(j.subrange(q + x.len() + 1, q + x.len() + 3) =~= r.subrange(q, q + 2));
                assert(occurs_at(j, crlf(), q + x.len() + 1));
            }
        }
    }
}

proof fn lemma_map_sep_identity(xs: Seq<Seq<char>>, sep: Seq<char>)
    requires
        sep == crlf() || forall|i: int| 0 <= i < xs.len() ==> !ends_cr(#[trigger] xs[i]),
    ensures
        xs.map_values(|l: Seq<char>| sep_line(l, sep)) == xs,
{
    assert(xs.map_values(|l: Seq<char>| sep_line(l, sep)) =~= xs);
}

/// A header line is neither empty nor a shebang.
pub proof fn lemma_marker_not_shebang(style: CommentStyle, l: Seq<char>)
    requires
        is_marker(style, l),
    ensures
        !is_shebang(l),
        l.len() > 0,
{
    let o = opener(style);
    let k = space_run(l, 0) as int;
    assert(l.subrange(k, k + o.len()) == o);
    assert(l[k] == o[0]);
    if is_shebang(l) {
        assert(l[0] == '#');
        assert(space_run(l, 0) == 0);
        assert(k == 0);
        if style == CommentStyle::Hash {
            assert(space_run(l, 1) >= 1);
            assert(l[1] == '!');
        }
    }
}


// ---------------------------------------------------------------------------
// The shape of a tagged file
// ---------------------------------------------------------------------------

/// The shebang line of a file as a list of zero or one line.
pub open spec fn prefix_lines(ls: Seq<Seq<char>>) -> Seq<Seq<char>> {
    if is_shebang(ls[0]) {
        seq![ls[0]]
    } else {
        seq![]
    }
}

/// The lines that follow the shebang, the old header and its blank line.
pub open spec fn body_lines(ls: Seq<Seq<char>>, style: CommentStyle) -> Seq<Seq<char>> {
    ls.skip(body_start(ls, style))
}

/// The blank line put between the header and the body when the body has text.
pub open spec fn gap_lines(body: Seq<Seq<char>>) -> Seq<Seq<char>> {
    if has_text_line(body) {
        seq![Seq::<char>::empty()]
    } else {
        seq![]
    }
}

/// A header fit to be a line of its own: no `\n` and no `\r`.
pub open spec fn one_line(h: Seq<char>) -> bool {
    forall|i: int| 0 <= i < h.len() ==> h[i] != '\n' && h[i] != '\r'
}

/// The body without a final empty line.
pub open spec fn drop_final_empty(b: Seq<Seq<char>>) -> Seq<Seq<char>> {
    if b.len() > 0 && b.last().len() == 0 {
        b.drop_last()
    } else {
        b
    }
}

/// The shebang line ends in a bare `\r` that ends a `\n`-separated file.
pub open spec fn shebang_cr_corner(c: Seq<char>) -> bool {
    let ls = lines_of(c);
    &&& line_ending(c) == seq!['\n']
    &&& ls.len() == 1
    &&& is_shebang(ls[0])
    &&& ends_cr(ls[0])
}

/// The lines of a tagged file before they are joined.
pub open spec fn tag_out(c: Seq<char>, h: Seq<char>, style: CommentStyle) -> Seq<Seq<char>> {
    let ls = lines_of(c);
    prefix_lines(ls) + seq![h] + gap_lines(body_lines(ls, style)) + body_lines(ls, style)
}

proof fn lemma_tag_basics(c: Seq<char>, h: Seq<char>, style: CommentStyle)
    requires
        lines_of(c).len() > 0,
        is_marker(style, h),
        one_line(h),
    ensures
        ({
            let ls = lines_of(c);
            let le = line_ending(c);
            let t = ends_with_newline(c);
            let p = prefix_lines(ls);
            let b = body_lines(ls, style);
            let g = gap_lines(b);
            let out1 = tag_out(c, h, style);
            &&& tagged_lines(ls, h, style) == out1
            &&& out1 == p + seq![h] + g + b
            &&& all_no_nl(out1)
            &&& is_sep(le)
            &&& contains_seq(c, crlf()) == (le == crlf())
            &&& no_nl(h) && !ends_cr(h) && !is_shebang(h) && h.len() > 0
            &&& g.len() > 0 ==> b.len() > 0
            &&& out1.last() == (if b.len() > 0 {
                b.last()
            } else {
                h
            })
            &&& (b.len() > 0 && b.last().len() == 0) ==> t
            &&& forall|i: int|
                0 <= i < out1.len() && le == seq!['\n'] && ends_cr(#[trigger] out1[i]) ==> (i
                    == out1.len() - 1 && !t) || (i == 0 && p.len() == 1 && shebang_cr_corner(c))
            &&& shebang_cr_corner(c) ==> b.len() == 0 && !t && out1 == seq![ls[0], h] && p
                == seq![ls[0]]
            &&& p.len() == 1 ==> p[0] == ls[0] && is_shebang(ls[0])
        }),
{
    let ls = lines_of(c);
    let le = line_ending(c);
    let t = ends_with_newline(c);
    let nl = seq!['\n'];
    let p = prefix_lines(ls);
    let b = body_lines(ls, style);
    let g = gap_lines(b);
    let out1 = tag_out(c, h, style);
    let bs = body_start(ls, style);
    lemma_lines_from_props(seq![], c);
    assert(Seq::<char>::empty() + c =~= c);
    assert(0 <= bs <= ls.len());
    assert(forall|i: int| 0 <= i < b.len() ==> b[i] == ls[bs + i]);
    assert(no_nl(h)) by {
        assert forall|i: int| 0 <= i < h.len() implies h[i] != '\n' by {
            assert(one_line(h));
        }
    }
    assert(!ends_cr(h)) by {
        if h.len() > 0 {
            assert(h[h.len() - 1] != '\r');
        }
    }
    lemma_marker_not_shebang(style, h);
    assert(all_no_nl(out1)) by {
        assert forall|i: int| 0 <= i < out1.len() implies no_nl(#[trigger] out1[i]) by {
            if i < p.len() {
                assert(out1[i] == ls[0]);
            } else if i == p.len() {
                assert(out1[i] == h);
            } else if i < p.len() + 1 + g.len() {
                assert(out1[i] == Seq::<char>::empty());
            } else {
                assert(out1[i] == b[i - p.len() - 1 - g.len()]);
            }
        }
    }
    assert(crlf() != nl) by {
        assert(crlf().len() != nl.len());
    }
    if b.len() > 0 {
        assert(b.last() == ls.last());
    }
    if g.len() > 0 {
        assert(has_text_line(b));
        let w = choose|w: int| 0 <= w < b.len() && (#[trigger] b[w]).len() > 0;
    }
    assert forall|i: int|
        0 <= i < out1.len() && le == nl && ends_cr(#[trigger] out1[i]) implies (i == out1.len()
        - 1 && !t) || (i == 0 && p.len() == 1 && shebang_cr_corner(c)) by {
        if i < p.len() {
            assert(out1[i] == ls[0]);
            assert(ls.len() == 1);
            assert(bs == 1);
        } else if i == p.len() {
        } else if i < p.len() + 1 + g.len() {
            assert(out1[i] == Seq::<char>::empty());
        } else {
            assert(out1[i] == b[i - p.len() - 1 - g.len()]);
            assert(ls[bs + (i - p.len() - 1 - g.len())] == out1[i]);
        }
    }
    if shebang_cr_corner(c) {
        assert(bs == 1);
        assert(b.len() == 0);
        assert(g.len() == 0);
        assert(out1 =~= seq![ls[0], h]);
        assert(!t) by {
            assert(ends_cr(ls[0]));
            assert(!contains_seq(c, crlf()));
        }
    }
}

/// `r` with `le` added when the text it came from ended with a newline and `r` does not.
pub open spec fn finish_t(r: Seq<char>, t: bool, le: Seq<char>) -> Seq<char> {
    if t && !ends_with_newline(r) {
        r + le
    } else {
        r
    }
}

/// The facts about the parts of a tagged file that the shape lemma needs.
pub open spec fn shape_facts(
    p: Seq<Seq<char>>,
    h: Seq<char>,
    g: Seq<Seq<char>>,
    b: Seq<Seq<char>>,
    le: Seq<char>,
    t: bool,
    corner: bool,
) -> bool {
    let out = p + seq![h] + g + b;
    &&& is_sep(le)
    &&& all_no_nl(out)
    &&& no_nl(h) && !ends_cr(h) && h.len() > 0
    &&& p.len() <= 1
    &&& (g == Seq::<Seq<char>>::empty() || g == seq![Seq::<char>::empty()])
    &&& g.len() > 0 ==> b.len() > 0
    &&& (b.len() > 0 && b.last().len() == 0) ==> t
    &&& forall|i: int|
        0 <= i < out.len() && le == seq!['\n'] && ends_cr(#[trigger] out[i]) ==> (i == out.len()
            - 1 && !t) || (i == 0 && p.len() == 1 && corner)
    &&& corner ==> b.len() == 0 && !t && g.len() == 0 && p.len() == 1 && le == seq!['\n']
        && ends_cr(p[0])
}

proof fn lemma_shape_term(
    p: Seq<Seq<char>>,
    h: Seq<char>,
    g: Seq<Seq<char>>,
    b: Seq<Seq<char>>,
    le: Seq<char>,
    t: bool,
    corner: bool,
)
    requires
        shape_facts(p, h, g, b, le, t, corner),
        t,
        !ends_with_newline(join(p + seq![h] + g + b, le)),
    ensures
        ({
            let out = p + seq![h] + g + b;
            let j = finish_t(join(out, le), t, le);
            &&& ends_with_newline(j)
            &&& lines_of(j) == p + seq![h] + g + drop_final_empty(b)
            &&& !corner
            &&& p.map_values(|l: Seq<char>| sep_line(l, le)) == p
            &&& contains_seq(j, crlf()) == (le == crlf())
        }),
{
    let nl = seq!['\n'];
    let out = p + seq![h] + g + b;
    let jn = join(out, le);
    let j = finish_t(jn, t, le);
    assert(out.len() > 0) by {
        assert(out[p.len() as int] == h);
    }
    lemma_join_ends_nl(out, le);
    assert(j == jn + le);
    assert(ends_with_newline(j)) by {
        assert(j.last() == le.last());
    }
    lemma_lines_join_term(out, le);
    lemma_map_sep_identity(out, le);
    assert(b.len() > 0 ==> b.last() == out.last());
    assert(drop_final_empty(b) == b);
    assert forall|i: int| 0 <= i < p.len() implies le == crlf() || !ends_cr(#[trigger] p[i]) by {
        assert(out[i] == p[i]);
    }
    lemma_map_sep_identity(p, le);
    assert(crlf() != nl) by {
        assert(crlf().len() != nl.len());
    }
    if le == nl {
        lemma_join_push(out, Seq::<char>::empty(), nl);
        assert(jn + nl + Seq::<char>::empty() =~= jn + nl);
        let o2 = out.push(Seq::<char>::empty());
        assert(all_no_nl(o2)) by {
            assert forall|i: int| 0 <= i < o2.len() implies no_nl(#[trigger] o2[i]) by {
                if i < out.len() {
                    assert(o2[i] == out[i]);
                }
            }
        }
        lemma_join_nl_crlf(o2);
        assert forall|i: int| 0 <= i < o2.len() - 1 implies !ends_cr(#[trigger] o2[i]) by {
            assert(o2[i] == out[i]);
        }
    } else {
        assert(j.subrange(j.len() - 2, j.len() as int) =~= crlf());
        assert(occurs_at(j, crlf(), j.len() - 2));
    }
}

proof fn lemma_shape_join(
    p: Seq<Seq<char>>,
    h: Seq<char>,
    g: Seq<Seq<char>>,
    b: Seq<Seq<char>>,
    le: Seq<char>,
    t: bool,
    corner: bool,
)
    requires
        shape_facts(p, h, g, b, le, t, corner),
        !(t && !ends_with_newline(join(p + seq![h] + g + b, le))),
    ensures
        ({
            let out = p + seq![h] + g + b;
            let j = finish_t(join(out, le), t, le);
            &&& ends_with_newline(j) == t
            &&& lines_of(j) == p.map_values(|l: Seq<char>| sep_line(l, le)) + seq![h] + g
                + drop_final_empty(b)
            &&& corner ==> contains_seq(j, crlf())
            &&& !corner ==> p.map_values(|l: Seq<char>| sep_line(l, le)) == p
            &&& !corner && (le == seq!['\n'] || out.len() >= 2 || t) ==> contains_seq(j, crlf())
                == (le == crlf())
        }),
{
    let nl = seq!['\n'];
    let out = p + seq![h] + g + b;
    let jn = join(out, le);
    let j = finish_t(jn, t, le);
    assert(out.len() > 0) by {
        assert(out[p.len() as int] == h);
    }
    assert(out.last() == (if b.len() > 0 {
        b.last()
    } else {
        h
    }));
    lemma_join_ends_nl(out, le);
    assert(j == jn);
    lemma_lines_join(out, le);
    let d = out.drop_last();
    let dm = d.map_values(|l: Seq<char>| sep_line(l, le));
    let pm = p.map_values(|l: Seq<char>| sep_line(l, le));
    assert(crlf() != nl) by {
        assert(crlf().len() != nl.len());
    }
    assert forall|i: int| 0 <= i < d.len() && !(i == 0 && p.len() == 1) implies le == crlf()
        || !ends_cr(#[trigger] d[i]) by {
        assert(d[i] == out[i]);
    }
    if !corner {
        if p.len() == 1 {
            assert(le == crlf() || !ends_cr(p[0])) by {
                assert(out[0] == p[0]);
            }
        }
        lemma_map_sep_identity(p, le);
    }
    if t {
        assert(b.len() > 0 && b.last().len() == 0);
        assert(d =~= p + seq![h] + g + b.drop_last());
        lemma_map_sep_identity(d, le);
        assert(lines_of(j) =~= pm + seq![h] + g + drop_final_empty(b));
    } else {
        assert(drop_final_empty(b) == b);
        if b.len() > 0 {
            assert(d =~= p + seq![h] + g + b.drop_last());
            assert(dm =~= pm + seq![h] + g + b.drop_last()) by {
                assert forall|i: int| 0 <= i < d.len() implies dm[i] == (pm + seq![h] + g
                    + b.drop_last())[i] by {
                    if i >= p.len() {
                        assert(le == crlf() || !ends_cr(d[i]));
                    } else {
                        assert(d[i] == p[i]);
                    }
                }
            }
            assert(lines_of(j) =~= pm + seq![h] + g + b);
        } else {
            assert(d =~= p);
            assert(lines_of(j) =~= pm + seq![h] + g + b);
        }
    }
    if le == crlf() {
        if out.len() >= 2 {
            lemma_join_crlf_sep(out);
        }
    } else {
        lemma_join_nl_crlf(out);
        if corner {
            assert(out[0] == p[0]);
            assert(ends_cr(out[0]));
        } else {
            assert forall|i: int| 0 <= i < out.len() - 1 implies !ends_cr(#[trigger] out[i]) by {
            }
        }
    }
}

/// Tagging keeps the shebang and the body: the lines of a tagged file are
/// the shebang (if any), the header, a blank line when text follows, and the
/// body lines (a final empty line is folded into the final newline); the
/// final newline is kept, and so is the line ending (but for a lone shebang
/// line ending in a bare `\r`).
pub proof fn law_tag_keeps_shebang_and_body(c: Seq<char>, h: Seq<char>, style: CommentStyle)
    requires
        lines_of(c).len() > 0,
        is_marker(style, h),
        one_line(h),
    ensures
        ({
            let ls = lines_of(c);
            let le = line_ending(c);
            let j = apply_tag_spec(c, h, style);
            let p = prefix_lines(ls);
            let b = body_lines(ls, style);
            let g = gap_lines(b);
            &&& ends_with_newline(j) == ends_with_newline(c)
            &&& lines_of(j) == p.map_values(|l: Seq<char>| sep_line(l, le)) + seq![h] + g
                + drop_final_empty(b)
            &&& shebang_cr_corner(c) ==> line_ending(j) == crlf() && !ends_with_newline(c)
                && b.len() == 0
            &&& !shebang_cr_corner(c) ==> p.map_values(|l: Seq<char>| sep_line(l, le)) == p
            &&& !shebang_cr_corner(c) && (le == seq!['\n'] || tag_out(c, h, style).len() >= 2
                || ends_with_newline(c)) ==> line_ending(j) == le
        }),
{
    let ls = lines_of(c);
    let le = line_ending(c);
    let t = ends_with_newline(c);
    let p = prefix_lines(ls);
    let b = body_lines(ls, style);
    let g = gap_lines(b);
    let corner = shebang_cr_corner(c);
    lemma_tag_basics(c, h, style);
    let out1 = tag_out(c, h, style);
    assert(shape_facts(p, h, g, b, le, t, corner));
    let j = apply_tag_spec(c, h, style);
    assert(j == finish_t(join(out1, le), t, le));
    if t && !ends_with_newline(join(out1, le)) {
        lemma_shape_term(p, h, g, b, le, t, corner);
    } else {
        lemma_shape_join(p, h, g, b, le, t, corner);
    }
}

// ---------------------------------------------------------------------------
// Laws
// ---------------------------------------------------------------------------

proof fn lemma_chomp_shebang(l: Seq<char>, le: Seq<char>)
    requires
        is_shebang(l),
    ensures
        is_shebang(sep_line(l, le)),
{
    if sep_line(l, le) != l {
        assert(ends_cr(l));
        assert(l.len() >= 3);
        assert(sep_line(l, le) == l.drop_last());
        assert(l.drop_last()[0] == l[0] && l.drop_last()[1] == l[1]);
    }
}

proof fn lemma_body_of_tagged(
    p1: Seq<Seq<char>>,
    h1: Seq<char>,
    g: Seq<Seq<char>>,
    b1: Seq<Seq<char>>,
    style: CommentStyle,
)
    requires
        p1.len() <= 1,
        p1.len() == 1 ==> is_shebang(p1[0]),
        is_marker(style, h1),
        g == Seq::<Seq<char>>::empty() || g == seq![Seq::<char>::empty()],
    ensures
        prefix_lines(p1 + seq![h1] + g + b1) == p1,
        body_lines(p1 + seq![h1] + g + b1, style) == (if g.len() > 0 {
            b1
        } else if b1.len() > 0 && is_blank(b1[0]) {
            b1.drop_first()
        } else {
            b1
        }),
{
    lemma_marker_not_shebang(style, h1);
    let l1 = p1 + seq![h1] + g + b1;
    let k = p1.len() as int;
    assert(l1[k] == h1);
    if p1.len() == 1 {
        assert(l1[0] == p1[0]);
        assert(prefix_lines(l1) =~= p1);
    } else {
        assert(l1[0] == h1);
        assert(prefix_lines(l1) =~= p1);
    }
    if g.len() > 0 {
        assert(l1[k + 1] == Seq::<char>::empty());
        assert(is_blank(l1[k + 1]));
        assert(body_start(l1, style) == k + 2);
        assert(l1.skip(k + 2) =~= b1);
    } else {
        assert(l1 =~= p1 + seq![h1] + b1);
        if b1.len() > 0 {
            assert(l1[k + 1] == b1[0]);
            if is_blank(b1[0]) {
                assert(body_start(l1, style) == k + 2);
                assert(l1.skip(k + 2) =~= b1.drop_first());
            } else {
                assert(body_start(l1, style) == k + 1);
                assert(l1.skip(k + 1) =~= b1);
            }
        } else {
            assert(body_start(l1, style) == k + 1);
            assert(l1.skip(k + 1) =~= b1);
        }
    }
}

/// The body ends with two empty lines.
pub open spec fn ends_with_two_empty_lines(b: Seq<Seq<char>>) -> bool {
    b.len() >= 2 && b[b.len() - 1].len() == 0 && b[b.len() - 2].len() == 0
}

proof fn lemma_has_text_drop_final(b: Seq<Seq<char>>)
    requires
        has_text_line(b),
    ensures
        has_text_line(drop_final_empty(b)),
{
    let w = choose|w: int| 0 <= w < b.len() && (#[trigger] b[w]).len() > 0;
    if b.len() > 0 && b.last().len() == 0 {
        assert(w < b.len() - 1);
        assert(drop_final_empty(b)[w] == b[w]);
    }
}

proof fn lemma_no_text_all_empty(b: Seq<Seq<char>>)
    requires
        !has_text_line(b),
    ensures
        forall|i: int| 0 <= i < b.len() ==> (#[trigger] b[i]).len() == 0,
{
    assert forall|i: int| 0 <= i < b.len() implies (#[trigger] b[i]).len() == 0 by {
        if b[i].len() > 0 {
            assert(has_text_line(b));
        }
    }
}

/// Tagging a file and then checking it finds its header current: after
/// `apply_tag`, `analyze` with the same header answers `AlreadyCurrent`,
/// whatever the file held before.
pub proof fn law_tag_then_analyze_is_current(c: Seq<char>, h: Seq<char>, style: CommentStyle)
    requires
        is_marker(style, h),
        one_line(h),
    ensures
        analyze_spec(apply_tag_spec(c, h, style), h, style) == HeaderAction::AlreadyCurrent,
{
    let j = apply_tag_spec(c, h, style);
    lemma_marker_not_shebang(style, h);
    if lines_of(c).len() == 0 {
        let nl = seq!['\n'];
        assert(!contains_seq(c, crlf())) by {
            lemma_lines_from_props(seq![], c);
            assert(Seq::<char>::empty() + c =~= c);
            assert(c.len() == 0);
        }
        assert(j == h + nl);
        assert(no_nl(h));
        assert(all_no_nl(seq![h]));
        lemma_lines_join_term(seq![h], nl);
        assert(join(seq![h], nl) == h);
        assert(!ends_cr(h)) by {
            assert(h[h.len() - 1] != '\r');
        }
        assert(seq![h].map_values(|l: Seq<char>| sep_line(l, nl)) =~= seq![h]);
        assert(lines_of(j) == seq![h]);
    } else {
        law_tag_keeps_shebang_and_body(c, h, style);
        let ls = lines_of(c);
        let le = line_ending(c);
        let p = prefix_lines(ls);
        let pm = p.map_values(|l: Seq<char>| sep_line(l, le));
        let lj = lines_of(j);
        if p.len() == 1 {
            lemma_chomp_shebang(p[0], le);
            assert(lj[0] == pm[0]);
            assert(lj[1] == h);
        } else {
            assert(lj[0] == h);
        }
    }
}

/// Re-tagging replaces the header rather than adding a second one: tagging
/// a file with `h1` and then with `h2` gives what tagging it with `h2` alone
/// gives. With `h1 == h2` this is idempotence: tagging twice changes nothing
/// the second time.
///
/// It holds unless the file's body (what follows its shebang, old header and
/// the blank line after that header) ends with two empty lines: joining lines
/// keeps only one final line ending, so each run then removes one of them.
pub proof fn law_retag_replaces_header(c: Seq<char>, h1: Seq<char>, h2: Seq<char>, style: CommentStyle)
    requires
        is_marker(style, h1),
        one_line(h1),
        is_marker(style, h2),
        one_line(h2),
        lines_of(c).len() > 0 ==> !ends_with_two_empty_lines(body_lines(lines_of(c), style)),
    ensures
        apply_tag_spec(apply_tag_spec(c, h1, style), h2, style) == apply_tag_spec(c, h2, style),
{
    let nl = seq!['\n'];
    let j1 = apply_tag_spec(c, h1, style);
    lemma_marker_not_shebang(style, h1);
    lemma_marker_not_shebang(style, h2);
    assert(no_nl(h1) && no_nl(h2));
    assert(!ends_cr(h1)) by {
        assert(h1[h1.len() - 1] != '\r');
    }
    assert(!ends_cr(h2)) by {
        assert(h2[h2.len() - 1] != '\r');
    }
    if lines_of(c).len() == 0 {
        assert(!contains_seq(c, crlf())) by {
            lemma_lines_from_props(seq![], c);
            assert(Seq::<char>::empty() + c =~= c);
            assert(c.len() == 0);
        }
        assert(j1 == h1 + nl);
        assert(all_no_nl(seq![h1]));
        lemma_lines_join_term(seq![h1], nl);
        assert(join(seq![h1], nl) == h1);
        assert(seq![h1].map_values(|l: Seq<char>| sep_line(l, nl)) =~= seq![h1]);
        let l1 = lines_of(j1);
        assert(l1 == seq![h1]);
        assert(body_start(l1, style) == 1);
        assert(l1.skip(1) =~= Seq::<Seq<char>>::empty());
        assert(!has_text_line(Seq::<Seq<char>>::empty()));
        assert(tagged_lines(l1, h2, style) =~= seq![h2]);
        assert(join(seq![h2], line_ending(j1)) == h2);
        assert(ends_with_newline(j1)) by {
            assert(j1.last() == '\n');
        }
        assert(!ends_with_newline(h2)) by {
            assert(h2[h2.len() - 1] != '\n');
        }
        assert(line_ending(j1) == nl) by {
            if contains_seq(j1, crlf()) {
                let q = choose|q: int| occurs_at(j1, crlf(), q);
                assert(j1.subrange(q, q + 2)[1] == '\n');
                assert(j1[q + 1] == '\n');
                assert(q + 1 == h1.len());
                assert(j1[q] == h1[q]);
            }
        }
    } else {
        lemma_retag_nonempty(c, h1, h2, style);
    }
}

proof fn lemma_retag_nonempty(c: Seq<char>, h1: Seq<char>, h2: Seq<char>, style: CommentStyle)
    requires
        lines_of(c).len() > 0,
        is_marker(style, h1),
        one_line(h1),
        is_marker(style, h2),
        one_line(h2),
        no_nl(h2),
        !ends_cr(h2),
        !ends_with_two_empty_lines(body_lines(lines_of(c), style)),
    ensures
        apply_tag_spec(apply_tag_spec(c, h1, style), h2, style) == apply_tag_spec(c, h2, style),
{
    let nl = seq!['\n'];
    let ls = lines_of(c);
    let le = line_ending(c);
    let t = ends_with_newline(c);
    let p = prefix_lines(ls);
    let b = body_lines(ls, style);
    let g = gap_lines(b);
    let corner = shebang_cr_corner(c);
    let j1 = apply_tag_spec(c, h1, style);
    law_tag_keeps_shebang_and_body(c, h1, style);
    lemma_tag_basics(c, h1, style);
    lemma_tag_basics(c, h2, style);
    let pm = p.map_values(|l: Seq<char>| sep_line(l, le));
    let b1 = drop_final_empty(b);
    let l1 = lines_of(j1);
    let le1 = line_ending(j1);
    assert(l1 == pm + seq![h1] + g + b1);
    assert(pm.len() == p.len());
    if p.len() == 1 {
        lemma_chomp_shebang(p[0], le);
        assert(pm[0] == sep_line(p[0], le));
    }
    lemma_body_of_tagged(pm, h1, g, b1, style);
    assert(l1.len() > 0) by {
        assert(l1[pm.len() as int] == h1);
    }
    let b2 = body_lines(l1, style);
    let g2 = gap_lines(b2);
    let out2 = pm + seq![h2] + g2 + b2;
    let outc = p + seq![h2] + g + b;
    assert(tagged_lines(l1, h2, style) == out2);
    assert(tagged_lines(ls, h2, style) == outc);
    assert(apply_tag_spec(j1, h2, style) == finish_t(join(out2, le1), t, le1));
    assert(apply_tag_spec(c, h2, style) == finish_t(join(outc, le), t, le));
    if g.len() > 0 {
        assert(has_text_line(b));
        lemma_has_text_drop_final(b);
        assert(b2 == b1);
        assert(g2 == g);
    } else {
        lemma_no_text_all_empty(b);
        if b.len() >= 2 {
            assert(ends_with_two_empty_lines(b));
        }
        assert(b1.len() == 0);
        assert(b2 =~= Seq::<Seq<char>>::empty());
        assert(!has_text_line(b2));
        assert(g2 =~= Seq::<Seq<char>>::empty());
    }
    assert(all_no_nl(outc));
    if corner {
        assert(le1 == crlf());
        assert(b.len() == 0 && !t && p.len() == 1);
        assert(out2 =~= seq![pm[0], h2]);
        assert(outc =~= seq![p[0], h2]);
        assert(ends_cr(p[0]));
        assert(pm[0] == p[0].drop_last());
        let two_m = seq![pm[0], h2];
        let two_c = seq![p[0], h2];
        assert(two_m.drop_first() =~= seq![h2]);
        assert(two_c.drop_first() =~= seq![h2]);
        assert(join(seq![h2], crlf()) == h2);
        assert(join(seq![h2], le) == h2);
        assert(join(two_m, crlf()) == pm[0] + crlf() + h2);
        assert(join(two_c, le) == p[0] + le + h2);
        assert(pm[0] + crlf() + h2 =~= p[0] + le + h2);
    } else {
        assert(pm == p);
        if le == crlf() && outc.len() < 2 && !t {
            // a lone header line: the line ending never shows
            assert(outc.len() == 1);
            assert(p.len() == 0 && g.len() == 0 && b.len() == 0);
            assert(out2 =~= seq![h2]);
            assert(outc =~= seq![h2]);
        } else {
            assert(tag_out(c, h1, style).len() == outc.len());
            assert(le1 == le);
            if b1 == b {
                assert(out2 == outc);
            } else {
                // the body ends with an empty line that the first run folded into the final newline
                assert(b.len() > 0 && b.last().len() == 0 && t);
                lemma_join_folded_empty(pm, h2, g, b, le);
            }
        }
    }
}

/// Joining lines that end with one empty line, and then adding the final
/// line ending, gives the same text as joining them without that empty line.
proof fn lemma_join_folded_empty(
    p: Seq<Seq<char>>,
    h: Seq<char>,
    g: Seq<Seq<char>>,
    b: Seq<Seq<char>>,
    le: Seq<char>,
)
    requires
        b.len() > 0,
        b.last().len() == 0,
        !ends_with_two_empty_lines(b),
        is_sep(le),
        h.len() > 0,
        g == gap_lines(b),
        all_no_nl(p + seq![h] + g + b),
    ensures
        finish_t(join(p + seq![h] + g + drop_final_empty(b), le), true, le) == finish_t(
            join(p + seq![h] + g + b, le),
            true,
            le,
        ),
{
    let outc = p + seq![h] + g + b;
    let b1 = drop_final_empty(b);
    let out2 = p + seq![h] + g + b1;
    assert(b1 == b.drop_last());
    assert(b.last() =~= Seq::<char>::empty());
    assert(b =~= b1.push(Seq::<char>::empty()));
    assert(outc =~= out2.push(Seq::<char>::empty()));
    assert(out2.len() > 0) by {
        assert(out2[p.len() as int] == h);
    }
    lemma_join_push(out2, Seq::<char>::empty(), le);
    assert(join(outc, le) =~= join(out2, le) + le);
    assert(ends_with_newline(join(outc, le))) by {
        assert(join(outc, le).last() == le.last());
    }
    assert(all_no_nl(out2)) by {
        assert forall|i: int| 0 <= i < out2.len() implies no_nl(#[trigger] out2[i]) by {
            assert(out2[i] == outc[i]);
        }
    }
    lemma_join_ends_nl(out2, le);
    assert(out2.last().len() > 0) by {
        if b1.len() > 0 {
            assert(out2.last() == b1.last());
            assert(b1.last() == b[b.len() - 2]);
        } else {
            if has_text_line(b) {
                lemma_has_text_drop_final(b);
                let w = choose|w: int| 0 <= w < b1.len() && (#[trigger] b1[w]).len() > 0;
            }
            assert(g.len() == 0);
            assert(out2.last() == h);
        }
    }
}

/// A file written the way its own lines and line ending give it back: no
/// mixed line endings and no empty last line lost by `str::lines`.
pub open spec fn is_normal_text(c: Seq<char>) -> bool {
    lines_of(c).len() > 0 && finish(join(lines_of(c), line_ending(c)), c, line_ending(c)) == c
}

proof fn lemma_normal_last_line(c: Seq<char>)
    requires
        is_normal_text(c),
    ensures
        lines_of(c).last().len() == 0 ==> lines_of(c).len() == 1,
{
    let ls = lines_of(c);
    let le = line_ending(c);
    lemma_lines_from_props(seq![], c);
    assert(Seq::<char>::empty() + c =~= c);
    assert(is_sep(le));
    if ls.last().len() == 0 && ls.len() >= 2 {
        lemma_join_ends_nl(ls, le);
        assert(join(ls, le) == c);
        lemma_lines_join(ls, le);
        assert(lines_of(join(ls, le)).len() == ls.len() - 1);
    }
}

/// The strip of tagged lines: the header is the first header line, and
/// taking it and the blank line after it away leaves the shebang and body.
proof fn lemma_strip_lines_after_tag(
    p: Seq<Seq<char>>,
    h: Seq<char>,
    g: Seq<Seq<char>>,
    b1: Seq<Seq<char>>,
    style: CommentStyle,
)
    requires
        p.len() <= 1,
        p.len() == 1 ==> is_shebang(p[0]),
        is_marker(style, h),
        !is_shebang(h),
        g == Seq::<Seq<char>>::empty() || g == seq![Seq::<char>::empty()],
    ensures
        ({
            let lj = p + seq![h] + g + b1;
            let check: int = if lj.len() > 0 && is_shebang(lj[0]) {
                1
            } else {
                0
            };
            let out1 = lj.remove(check);
            &&& check == p.len()
            &&& first_marker_from(lj, style, check, 3) == Some(check)
            &&& out1 == p + g + b1
        }),
{
    let lj = p + seq![h] + g + b1;
    let k = p.len() as int;
    assert(lj[k] == h);
    if p.len() == 1 {
        assert(lj[0] == p[0]);
    } else {
        assert(lj[0] == h);
    }
    assert(lj.remove(k) =~= p + g + b1);
}

/// `strip_spec` of a text whose header is found at `check`, and whose
/// remaining lines join back to `c`.
proof fn lemma_strip_gives(j: Seq<char>, c: Seq<char>, style: CommentStyle, check: int)
    requires
        check == (if lines_of(j).len() > 0 && is_shebang(lines_of(j)[0]) {
            1int
        } else {
            0int
        }),
        first_marker_from(lines_of(j), style, check, 3) == Some(check),
        ({
            let out1 = lines_of(j).remove(check);
            let out = if check < out1.len() && is_blank(out1[check]) {
                out1.remove(check)
            } else {
                out1
            };
            finish(join(out, line_ending(j)), j, line_ending(j)) == c
        }),
    ensures
        strip_spec(j, style) == Some(c),
{
}

/// The lines, line ending and final newline of a tagged file, outside the
/// shebang corner.
proof fn lemma_tag_view(c: Seq<char>, h: Seq<char>, style: CommentStyle)
    requires
        lines_of(c).len() > 0,
        is_marker(style, h),
        one_line(h),
        !shebang_cr_corner(c),
        analyze_spec(c, h, style) == HeaderAction::AddNew,
    ensures
        ({
            let ls = lines_of(c);
            let p = prefix_lines(ls);
            let b = body_lines(ls, style);
            let g = gap_lines(b);
            let j = apply_tag_spec(c, h, style);
            &&& line_ending(j) == line_ending(c)
            &&& ends_with_newline(j) == ends_with_newline(c)
            &&& lines_of(j) == p + seq![h] + g + drop_final_empty(b)
            &&& p.len() <= 1
            &&& (p.len() == 1 ==> is_shebang(p[0]))
            &&& (g == Seq::<Seq<char>>::empty() || g == seq![Seq::<char>::empty()])
            &&& (g.len() > 0 <==> has_text_line(b))
        }),
{
    lemma_tag_basics(c, h, style);
    law_tag_keeps_shebang_and_body(c, h, style);
    lemma_no_header_body(c, h, style);
    let ls = lines_of(c);
    let p = prefix_lines(ls);
    let b = body_lines(ls, style);
    let out = tag_out(c, h, style);
    if p.len() == 0 {
        assert(b.len() == ls.len());
        assert(out.len() >= 2);
    } else {
        assert(out.len() >= 2);
    }
}

/// Without an old header, a file's lines are its shebang (if any) and its body.
proof fn lemma_no_header_body(c: Seq<char>, h: Seq<char>, style: CommentStyle)
    requires
        lines_of(c).len() > 0,
        analyze_spec(c, h, style) == HeaderAction::AddNew,
    ensures
        lines_of(c) == prefix_lines(lines_of(c)) + body_lines(lines_of(c), style),
{
    let ls = lines_of(c);
    let p = prefix_lines(ls);
    assert(body_start(ls, style) == p.len()) by {
        if is_shebang(ls[0]) {
            if ls.len() > 1 {
                assert(candidate(ls) == Some(ls[1]));
            }
        } else {
            assert(candidate(ls) == Some(ls[0]));
        }
    }
    assert(ls =~= p + body_lines(ls, style));
}

/// Stripping undoes tagging: a file that has no header yet comes back
/// unchanged when it is tagged and then stripped, provided it is written the
/// way its own lines and line ending give it back.
///
/// It fails for text that `str::lines` does not give back (mixed line
/// endings, such as `"a\r\nb\n"`), and for a lone shebang line ending in a
/// bare `\r` (`"#!sh\r"`): once the header follows it, that `\r` reads as part
/// of a `\r\n` line ending.
pub proof fn law_strip_undoes_tag(c: Seq<char>, h: Seq<char>, style: CommentStyle)
    requires
        is_marker(style, h),
        one_line(h),
        is_normal_text(c),
        analyze_spec(c, h, style) == HeaderAction::AddNew,
        !shebang_cr_corner(c),
    ensures
        strip_spec(apply_tag_spec(c, h, style), style) == Some(c),
{
    let ls = lines_of(c);
    let le = line_ending(c);
    let p = prefix_lines(ls);
    let b = body_lines(ls, style);
    let g = gap_lines(b);
    let b1 = drop_final_empty(b);
    let j = apply_tag_spec(c, h, style);
    lemma_marker_not_shebang(style, h);
    lemma_no_header_body(c, h, style);
    lemma_normal_last_line(c);
    lemma_tag_view(c, h, style);
    lemma_strip_lines_after_tag(p, h, g, b1, style);
    let check: int = p.len() as int;
    let out1 = p + g + b1;
    assert(lines_of(j).remove(check) == out1);
    if has_text_line(b) {
        assert(g =~= seq![Seq::<char>::empty()]);
        assert(b1 == b) by {
            if b.len() > 0 && b.last().len() == 0 {
                let w = choose|w: int| 0 <= w < b.len() && (#[trigger] b[w]).len() > 0;
                assert(ls.last() == b.last());
            }
        }
        assert(out1[check] == Seq::<char>::empty());
        assert(is_blank(out1[check]));
        assert(out1.remove(check) =~= ls);
    } else {
        lemma_no_text_all_empty(b);
        if b.len() > 0 {
            // the text is the single empty line `"\n"`
            assert(ls.last() == b.last());
            assert(ls.len() == 1);
            assert(b1 =~= Seq::<Seq<char>>::empty());
            assert(out1 =~= Seq::<Seq<char>>::empty());
        } else {
            assert(b1 =~= b);
            assert(out1 =~= ls);
        }
    }
    let le_j = line_ending(j);
    assert(le_j == le);
    assert(ends_with_newline(j) == ends_with_newline(c));
    lemma_strip_gives(j, c, style, check);
}

/// No `\r` in `s`.
pub open spec fn no_cr(s: Seq<char>) -> bool {
    forall|i: int| 0 <= i < s.len() ==> s[i] != '\r'
}

/// `s` without its final `\n`, if it has one.
pub open spec fn without_final_nl(s: Seq<char>) -> Seq<char> {
    if ends_with_newline(s) {
        s.drop_last()
    } else {
        s
    }
}

/// Text without `\r` is split into lines that `\n` joins back into the
/// text without its final `\n`; no line holds a `\r`.
proof fn lemma_lines_join_plain(cur: Seq<char>, rest: Seq<char>)
    requires
        no_nl(cur),
        no_cr(cur + rest),
    ensures
        join(lines_from(cur, rest), seq!['\n']) == without_final_nl(cur + rest),
        forall|k: int| 0 <= k < lines_from(cur, rest).len() ==> no_cr(#[trigger] lines_from(cur, rest)[k]),
    decreases rest.len(),
{
    let ls = lines_from(cur, rest);
    if rest.len() == 0 {
        assert(cur + rest =~= cur);
        if cur.len() > 0 {
            assert(ls =~= seq![cur]);
            assert(cur[cur.len() - 1] != '\n');
        }
    } else if rest[0] == '\n' {
        let rp = rest.drop_first();
        assert forall|i: int| 0 <= i < cur.len() implies cur[i] != '\r' by {
            assert((cur + rest)[i] == cur[i]);
        }
        assert(!ends_cr(cur)) by {
            if cur.len() > 0 {
                assert(cur[cur.len() - 1] != '\r');
            }
        }
        assert(chomp_cr(cur) == cur);
        assert forall|i: int| 0 <= i < rp.len() implies rp[i] != '\r' by {
            assert((cur + rest)[cur.len() + 1 + i] == rp[i]);
        }
        assert(Seq::<char>::empty() + rp =~= rp);
        lemma_lines_join_plain(seq![], rp);
        lemma_lines_from_props(seq![], rp);
        let l2 = lines_from(seq![], rp);
        assert(ls == seq![cur] + l2);
        assert((seq![cur] + l2).drop_first() =~= l2);
        assert(cur + rest =~= cur + seq!['\n'] + rp);
        if rp.len() == 0 {
            assert(l2.len() == 0);
            assert(ls =~= seq![cur]);
            assert((cur + rest).drop_last() =~= cur);
        } else {
            assert(l2.len() > 0);
            assert(join(ls, seq!['\n']) == cur + seq!['\n'] + join(l2, seq!['\n']));
            if ends_with_newline(rp) {
                assert((cur + rest).drop_last() =~= cur + seq!['\n'] + rp.drop_last());
            }
        }
        assert forall|k: int| 0 <= k < ls.len() implies no_cr(#[trigger] ls[k]) by {
            if k > 0 {
                assert(ls[k] == l2[k - 1]);
            }
        }
    } else {
        let c2 = cur.push(rest[0]);
        assert(c2 + rest.drop_first() =~= cur + rest);
        lemma_lines_join_plain(c2, rest.drop_first());
    }
}

/// Text without `\r`, not empty and not ending in an empty line, is written
/// the way its own lines and line ending give it back.
proof fn lemma_plain_text_is_normal(c: Seq<char>)
    requires
        c.len() > 0,
        no_cr(c),
        !ends_with(c, seq!['\n', '\n']),
    ensures
        is_normal_text(c),
        line_ending(c) == seq!['\n'],
        forall|k: int| 0 <= k < lines_of(c).len() ==> no_cr(#[trigger] lines_of(c)[k]),
{
    assert(!contains_seq(c, crlf())) by {
        if contains_seq(c, crlf()) {
            let i = choose|i: int| #[trigger] occurs_at(c, crlf(), i);
            assert(c.subrange(i, i + 2)[0] == c[i]);
        }
    }
    assert(Seq::<char>::empty() + c =~= c);
    lemma_lines_join_plain(seq![], c);
    lemma_lines_from_props(seq![], c);
    let r = join(lines_of(c), seq!['\n']);
    if ends_with_newline(c) {
        assert(r == c.drop_last());
        if c.len() >= 2 {
            assert(c.skip(c.len() - 2) =~= seq![c[c.len() - 2], c[c.len() - 1]]);
            assert(c[c.len() - 2] != '\n');
            assert(r.last() == c[c.len() - 2]);
        }
        assert(r + seq!['\n'] =~= c);
    }
}

/// Stripping undoes tagging, for text written with `\n` alone: a
/// non-empty file without `\r` that does not end in an empty line, and has
/// no header yet, comes back unchanged when it is tagged and then stripped.
pub proof fn law_strip_undoes_tag_plain(c: Seq<char>, h: Seq<char>, style: CommentStyle)
    requires
        is_marker(style, h),
        one_line(h),
        c.len() > 0,
        no_cr(c),
        !ends_with(c, seq!['\n', '\n']),
        analyze_spec(c, h, style) == HeaderAction::AddNew,
    ensures
        strip_spec(apply_tag_spec(c, h, style), style) == Some(c),
{
    lemma_plain_text_is_normal(c);
    assert(!shebang_cr_corner(c)) by {
        if lines_of(c).len() == 1 {
            assert(no_cr(lines_of(c)[0]));
            if ends_cr(lines_of(c)[0]) {
                let l = lines_of(c)[0];
                assert(l[l.len() - 1] == '\r');
            }
        }
    }
    law_strip_undoes_tag(c, h, style);
}

/// A body that begins with a non-whitespace character, wrapped in a comment
/// style, is a header line of that style; it is one line when the body is.
pub proof fn lemma_wrapped_header(style: CommentStyle, body: Seq<char>)
    requires
        body.len() > 0,
        !is_unicode_ws(body[0]),
    ensures
        is_marker(style, wrap_spec(style, body)),
        one_line(body) ==> one_line(wrap_spec(style, body)),
{
    let w = wrap_spec(style, body);
    let o = opener(style);
    let n: int = o.len() as int;
    assert(w[n] == ' ');
    assert(w[n + 1] == body[0]);
    assert(w.subrange(0, n) =~= o);
    assert(occurs_at(w, o, 0));
    assert(!is_ascii_space(w[0]));
    assert(space_run(w, 0) == 0);
    assert(!is_ascii_space(w[n + 1]));
    assert(space_run(w, n + 1) == 0);
    assert(space_run(w, n) == 1);
    if one_line(body) {
        assert forall|i: int| 0 <= i < w.len() implies w[i] != '\n' && w[i] != '\r' by {
            if n + 1 <= i < n + 1 + body.len() {
                assert(w[i] == body[i - n - 1]);
            }
        }
    }
}

/// The built-in extension table as the documentation lists it: every
/// extension (without the dot) with its comment style.
pub open spec fn documented_extensions() -> Seq<(Seq<char>, CommentStyle)> {
    seq![
        ("c"@, CommentStyle::Slash),
        ("cc"@, CommentStyle::Slash),
        ("cpp"@, CommentStyle::Slash),
        ("cxx"@, CommentStyle::Slash),
        ("h"@, CommentStyle::Slash),
        ("hpp"@, CommentStyle::Slash),
        ("hxx"@, CommentStyle::Slash),
        ("java"@, CommentStyle::Slash),
        ("kt"@, CommentStyle::Slash),
        ("kts"@, CommentStyle::Slash),
        ("scala"@, CommentStyle::Slash),
        ("groovy"@, CommentStyle::Slash),
        ("cs"@, CommentStyle::Slash),
        ("fs"@, CommentStyle::Slash),
        ("fsi"@, CommentStyle::Slash),
        ("fsx"@, CommentStyle::Slash),
        ("go"@, CommentStyle::Slash),
        ("rs"@, CommentStyle::Slash),
        ("swift"@, CommentStyle::Slash),
        ("m"@, CommentStyle::Slash),
        ("mm"@, CommentStyle::Slash),
        ("js"@, CommentStyle::Slash),
        ("mjs"@, CommentStyle::Slash),
        ("cjs"@, CommentStyle::Slash),
        ("jsx"@, CommentStyle::Slash),
        ("ts"@, CommentStyle::Slash),
        ("tsx"@, CommentStyle::Slash),
        ("mts"@, CommentStyle::Slash),
        ("cts"@, CommentStyle::Slash),
        ("php"@, CommentStyle::Slash),
        ("dart"@, CommentStyle::Slash),
        ("zig"@, CommentStyle::Slash),
        ("v"@, CommentStyle::Slash),
        ("odin"@, CommentStyle::Slash),
        ("gleam"@, CommentStyle::Slash),
        ("sol"@, CommentStyle::Slash),
        ("proto"@, CommentStyle::Slash),
        ("thrift"@, CommentStyle::Slash),
        ("wgsl"@, CommentStyle::Slash),
        ("glsl"@, CommentStyle::Slash),
        ("hlsl"@, CommentStyle::Slash),
        ("purs"@, CommentStyle::Slash),
        ("elm"@, CommentStyle::Slash),
        ("py"@, CommentStyle::Hash),
        ("rb"@, CommentStyle::Hash),
        ("cr"@, CommentStyle::Hash),
        ("nim"@, CommentStyle::Hash),
        ("ex"@, CommentStyle::Hash),
        ("exs"@, CommentStyle::Hash),
        ("jl"@, CommentStyle::Hash),
        ("tf"@, CommentStyle::Hash),
        ("tfvars"@, CommentStyle::Hash),
        ("hcl"@, CommentStyle::Hash),
        ("nix"@, CommentStyle::Hash),
        ("graphql"@, CommentStyle::Hash),
        ("gql"@, CommentStyle::Hash),
        ("toml"@, CommentStyle::Hash),
        ("yaml"@, CommentStyle::Hash),
        ("yml"@, CommentStyle::Hash),
        ("txt"@, CommentStyle::Hash),
        ("css"@, CommentStyle::Css),
        ("scss"@, CommentStyle::Css),
        ("sass"@, CommentStyle::Css),
        ("less"@, CommentStyle::Css),
        ("styl"@, CommentStyle::Css),
        ("html"@, CommentStyle::Html),
        ("htm"@, CommentStyle::Html),
        ("xml"@, CommentStyle::Html),
        ("svg"@, CommentStyle::Html),
        ("vue"@, CommentStyle::Html),
        ("svelte"@, CommentStyle::Html),
        ("astro"@, CommentStyle::Html)
    ]
}

/// The built-in extensionless file names as the documentation lists them
/// (lower case); all are `#`-style.
pub open spec fn documented_filenames() -> Seq<Seq<char>> {
    seq![
"makefile"@, "dockerfile"@, "jenkinsfile"@, "rakefile"@, "gemfile"@, "brewfile"@
]
}

proof fn lemma_extension_letters()
    ensures
        "c"@.len() == 1,
        "c"@[0] == 'c',
        "cc"@.len() == 2,
        "cc"@[0] == 'c',
        "cc"@[1] == 'c',
        "cpp"@.len() == 3,
        "cpp"@[0] == 'c',
        "cpp"@[1] == 'p',
        "cpp"@[2] == 'p',
        "cxx"@.len() == 3,
        "cxx"@[0] == 'c',
        "cxx"@[1] == 'x',
        "cxx"@[2] == 'x',
        "h"@.len() == 1,
        "h"@[0] == 'h',
        "hpp"@.len() == 3,
        "hpp"@[0] == 'h',
        "hpp"@[1] == 'p',
        "hpp"@[2] == 'p',
        "hxx"@.len() == 3,
        "hxx"@[0] == 'h',
        "hxx"@[1] == 'x',
        "hxx"@[2] == 'x',
        "java"@.len() == 4,
        "java"@[0] == 'j',
        "java"@[1] == 'a',
        "java"@[2] == 'v',
        "java"@[3] == 'a',
        "kt"@.len() == 2,
        "kt"@[0] == 'k',
        "kt"@[1] == 't',
        "kts"@.len() == 3,
        "kts"@[0] == 'k',
        "kts"@[1] == 't',
        "kts"@[2] == 's',
        "scala"@.len() == 5,
        "scala"@[0] == 's',
        "scala"@[1] == 'c',
        "scala"@[2] == 'a',
        "scala"@[3] == 'l',
        "scala"@[4] == 'a',
        "groovy"@.len() == 6,
        "groovy"@[0] == 'g',
        "groovy"@[1] == 'r',
        "groovy"@[2] == 'o',
        "groovy"@[3] == 'o',
        "groovy"@[4] == 'v',
        "groovy"@[5] == 'y',
        "cs"@.len() == 2,
        "cs"@[0] == 'c',
        "cs"@[1] == 's',
        "fs"@.len() == 2,
        "fs"@[0] == 'f',
        "fs"@[1] == 's',
        "fsi"@.len() == 3,
        "fsi"@[0] == 'f',
        "fsi"@[1] == 's',
        "fsi"@[2] == 'i',
        "fsx"@.len() == 3,
        "fsx"@[0] == 'f',
        "fsx"@[1] == 's',
        "fsx"@[2] == 'x',
        "go"@.len() == 2,
        "go"@[0] == 'g',
        "go"@[1] == 'o',
        "rs"@.len() == 2,
        "rs"@[0] == 'r',
        "rs"@[1] == 's',
        "swift"@.len() == 5,
        "swift"@[0] == 's',
        "swift"@[1] == 'w',
        "swift"@[2] == 'i',
        "swift"@[3] == 'f',
        "swift"@[4] == 't',
        "m"@.len() == 1,
        "m"@[0] == 'm',
        "mm"@.len() == 2,
        "mm"@[0] == 'm',
        "mm"@[1] == 'm',
        "js"@.len() == 2,
        "js"@[0] == 'j',
        "js"@[1] == 's',
        "mjs"@.len() == 3,
        "mjs"@[0] == 'm',
        "mjs"@[1] == 'j',
        "mjs"@[2] == 's',
        "cjs"@.len() == 3,
        "cjs"@[0] == 'c',
        "cjs"@[1] == 'j',
        "cjs"@[2] == 's',
        "jsx"@.len() == 3,
        "jsx"@[0] == 'j',
        "jsx"@[1] == 's',
        "jsx"@[2] == 'x',
        "ts"@.len() == 2,
        "ts"@[0] == 't',
        "ts"@[1] == 's',
        "tsx"@.len() == 3,
        "tsx"@[0] == 't',
        "tsx"@[1] == 's',
        "tsx"@[2] == 'x',
        "mts"@.len() == 3,
        "mts"@[0] == 'm',
        "mts"@[1] == 't',
        "mts"@[2] == 's',
        "cts"@.len() == 3,
        "cts"@[0] == 'c',
        "cts"@[1] == 't',
        "cts"@[2] == 's',
        "php"@.len() == 3,
        "php"@[0] == 'p',
        "php"@[1] == 'h',
        "php"@[2] == 'p',
        "dart"@.len() == 4,
        "dart"@[0] == 'd',
        "dart"@[1] == 'a',
        "dart"@[2] == 'r',
        "dart"@[3] == 't',
        "zig"@.len() == 3,
        "zig"@[0] == 'z',
        "zig"@[1] == 'i',
        "zig"@[2] == 'g',
        "v"@.len() == 1,
        "v"@[0] == 'v',
        "odin"@.len() == 4,
        "odin"@[0] == 'o',
        "odin"@[1] == 'd',
        "odin"@[2] == 'i',
        "odin"@[3] == 'n',
        "gleam"@.len() == 5,
        "gleam"@[0] == 'g',
        "gleam"@[1] == 'l',
        "gleam"@[2] == 'e',
        "gleam"@[3] == 'a',
        "gleam"@[4] == 'm',
        "sol"@.len() == 3,
        "sol"@[0] == 's',
        "sol"@[1] == 'o',
        "sol"@[2] == 'l',
        "proto"@.len() == 5,
        "proto"@[0] == 'p',
        "proto"@[1] == 'r',
        "proto"@[2] == 'o',
        "proto"@[3] == 't',
        "proto"@[4] == 'o',
        "thrift"@.len() == 6,
        "thrift"@[0] == 't',
        "thrift"@[1] == 'h',
        "thrift"@[2] == 'r',
        "thrift"@[3] == 'i',
        "thrift"@[4] == 'f',
        "thrift"@[5] == 't',
        "wgsl"@.len() == 4,
        "wgsl"@[0] == 'w',
        "wgsl"@[1] == 'g',
        "wgsl"@[2] == 's',
        "wgsl"@[3] == 'l',
        "glsl"@.len() == 4,
        "glsl"@[0] == 'g',
        "glsl"@[1] == 'l',
        "glsl"@[2] == 's',
        "glsl"@[3] == 'l',
        "hlsl"@.len() == 4,
        "hlsl"@[0] == 'h',
        "hlsl"@[1] == 'l',
        "hlsl"@[2] == 's',
        "hlsl"@[3] == 'l',
        "purs"@.len() == 4,
        "purs"@[0] == 'p',
        "purs"@[1] == 'u',
        "purs"@[2] == 'r',
        "purs"@[3] == 's',
        "elm"@.len() == 3,
        "elm"@[0] == 'e',
        "elm"@[1] == 'l',
        "elm"@[2] == 'm',
        "py"@.len() == 2,
        "py"@[0] == 'p',
        "py"@[1] == 'y',
        "rb"@.len() == 2,
        "rb"@[0] == 'r',
        "rb"@[1] == 'b',
        "cr"@.len() == 2,
        "cr"@[0] == 'c',
        "cr"@[1] == 'r',
        "nim"@.len() == 3,
        "nim"@[0] == 'n',
        "nim"@[1] == 'i',
        "nim"@[2] == 'm',
        "ex"@.len() == 2,
        "ex"@[0] == 'e',
        "ex"@[1] == 'x',
        "exs"@.len() == 3,
        "exs"@[0] == 'e',
        "exs"@[1] == 'x',
        "exs"@[2] == 's',
        "jl"@.len() == 2,
        "jl"@[0] == 'j',
        "jl"@[1] == 'l',
        "tf"@.len() == 2,
        "tf"@[0] == 't',
        "tf"@[1] == 'f',
        "tfvars"@.len() == 6,
        "tfvars"@[0] == 't',
        "tfvars"@[1] == 'f',
        "tfvars"@[2] == 'v',
        "tfvars"@[3] == 'a',
        "tfvars"@[4] == 'r',
        "tfvars"@[5] == 's',
        "hcl"@.len() == 3,
        "hcl"@[0] == 'h',
        "hcl"@[1] == 'c',
        "hcl"@[2] == 'l',
        "nix"@.len() == 3,
        "nix"@[0] == 'n',
        "nix"@[1] == 'i',
        "nix"@[2] == 'x',
        "graphql"@.len() == 7,
        "graphql"@[0] == 'g',
        "graphql"@[1] == 'r',
        "graphql"@[2] == 'a',
        "graphql"@[3] == 'p',
        "graphql"@[4] == 'h',
        "graphql"@[5] == 'q',
        "graphql"@[6] == 'l',
        "gql"@.len() == 3,
        "gql"@[0] == 'g',
        "gql"@[1] == 'q',
        "gql"@[2] == 'l',
        "toml"@.len() == 4,
        "toml"@[0] == 't',
        "toml"@[1] == 'o',
        "toml"@[2] == 'm',
        "toml"@[3] == 'l',
        "yaml"@.len() == 4,
        "yaml"@[0] == 'y',
        "yaml"@[1] == 'a',
        "yaml"@[2] == 'm',
        "yaml"@[3] == 'l',
        "yml"@.len() == 3,
        "yml"@[0] == 'y',
        "yml"@[1] == 'm',
        "yml"@[2] == 'l',
        "txt"@.len() == 3,
        "txt"@[0] == 't',
        "txt"@[1] == 'x',
        "txt"@[2] == 't',
        "css"@.len() == 3,
        "css"@[0] == 'c',
        "css"@[1] == 's',
        "css"@[2] == 's',
        "scss"@.len() == 4,
        "scss"@[0] == 's',
        "scss"@[1] == 'c',
        "scss"@[2] == 's',
        "scss"@[3] == 's',
        "sass"@.len() == 4,
        "sass"@[0] == 's',
        "sass"@[1] == 'a',
        "sass"@[2] == 's',
        "sass"@[3] == 's',
        "less"@.len() == 4,
        "less"@[0] == 'l',
        "less"@[1] == 'e',
        "less"@[2] == 's',
        "less"@[3] == 's',
        "styl"@.len() == 4,
        "styl"@[0] == 's',
        "styl"@[1] == 't',
        "styl"@[2] == 'y',
        "styl"@[3] == 'l',
        "html"@.len() == 4,
        "html"@[0] == 'h',
        "html"@[1] == 't',
        "html"@[2] == 'm',
        "html"@[3] == 'l',
        "htm"@.len() == 3,
        "htm"@[0] == 'h',
        "htm"@[1] == 't',
        "htm"@[2] == 'm',
        "xml"@.len() == 3,
        "xml"@[0] == 'x',
        "xml"@[1] == 'm',
        "xml"@[2] == 'l',
        "svg"@.len() == 3,
        "svg"@[0] == 's',
        "svg"@[1] == 'v',
        "svg"@[2] == 'g',
        "vue"@.len() == 3,
        "vue"@[0] == 'v',
        "vue"@[1] == 'u',
        "vue"@[2] == 'e',
        "svelte"@.len() == 6,
        "svelte"@[0] == 's',
        "svelte"@[1] == 'v',
        "svelte"@[2] == 'e',
        "svelte"@[3] == 'l',
        "svelte"@[4] == 't',
        "svelte"@[5] == 'e',
        "astro"@.len() == 5,
        "astro"@[0] == 'a',
        "astro"@[1] == 's',
        "astro"@[2] == 't',
        "astro"@[3] == 'r',
        "astro"@[4] == 'o',
{
    reveal_strlit("c");
    reveal_strlit("cc");
    reveal_strlit("cpp");
    reveal_strlit("cxx");
    reveal_strlit("h");
    reveal_strlit("hpp");
    reveal_strlit("hxx");
    reveal_strlit("java");
    reveal_strlit("kt");
    reveal_strlit("kts");
    reveal_strlit("scala");
    reveal_strlit("groovy");
    reveal_strlit("cs");
    reveal_strlit("fs");
    reveal_strlit("fsi");
    reveal_strlit("fsx");
    reveal_strlit("go");
    reveal_strlit("rs");
    reveal_strlit("swift");
    reveal_strlit("m");
    reveal_strlit("mm");
    reveal_strlit("js");
    reveal_strlit("mjs");
    reveal_strlit("cjs");
    reveal_strlit("jsx");
    reveal_strlit("ts");
    reveal_strlit("tsx");
    reveal_strlit("mts");
    reveal_strlit("cts");
    reveal_strlit("php");
    reveal_strlit("dart");
    reveal_strlit("zig");
    reveal_strlit("v");
    reveal_strlit("odin");
    reveal_strlit("gleam");
    reveal_strlit("sol");
    reveal_strlit("proto");
    reveal_strlit("thrift");
    reveal_strlit("wgsl");
    reveal_strlit("glsl");
    reveal_strlit("hlsl");
    reveal_strlit("purs");
    reveal_strlit("elm");
    reveal_strlit("py");
    reveal_strlit("rb");
    reveal_strlit("cr");
    reveal_strlit("nim");
    reveal_strlit("ex");
    reveal_strlit("exs");
    reveal_strlit("jl");
    reveal_strlit("tf");
    reveal_strlit("tfvars");
    reveal_strlit("hcl");
    reveal_strlit("nix");
    reveal_strlit("graphql");
    reveal_strlit("gql");
    reveal_strlit("toml");
    reveal_strlit("yaml");
    reveal_strlit("yml");
    reveal_strlit("txt");
    reveal_strlit("css");
    reveal_strlit("scss");
    reveal_strlit("sass");
    reveal_strlit("less");
    reveal_strlit("styl");
    reveal_strlit("html");
    reveal_strlit("htm");
    reveal_strlit("xml");
    reveal_strlit("svg");
    reveal_strlit("vue");
    reveal_strlit("svelte");
    reveal_strlit("astro");
}

#[verifier::rlimit(50)]
proof fn lemma_slash_rows()
    ensures
        forall|i: int| 0 <= i < 43 ==> ext_style(#[trigger] documented_extensions()[i].0) == Some(documented_extensions()[i].1),
{
    lemma_extension_letters();
    let t = documented_extensions();

    assert(ext_style(t[0].0) == Some(CommentStyle::Slash));
    assert(ext_style(t[1].0) == Some(CommentStyle::Slash));
    assert(ext_style(t[2].0) == Some(CommentStyle::Slash));
    assert(ext_style(t[3].0) == Some(CommentStyle::Slash));
    assert(ext_style(t[4].0) == Some(CommentStyle::Slash));
    assert(ext_style(t[5].0) == Some(CommentStyle::Slash));
    assert(ext_style(t[6].0) == Some(CommentStyle::Slash));
    assert(ext_style(t[7].0) == Some(CommentStyle::Slash));
    assert(ext_style(t[8].0) == Some(CommentStyle::Slash));
    assert(ext_style(t[9].0) == Some(CommentStyle::Slash));
    assert(ext_style(t[10].0) == Some(CommentStyle::Slash));
    assert(ext_style(t[11].0) == Some(CommentStyle::Slash));
    assert(ext_style(t[12].0) == Some(CommentStyle::Slash));
    assert(ext_style(t[13].0) == Some(CommentStyle::Slash));
    assert(ext_style(t[14].0) == Some(CommentStyle::Slash));
    assert(ext_style(t[15].0) == Some(CommentStyle::Slash));
    assert(ext_style(t[16].0) == Some(CommentStyle::Slash));
    assert(ext_style(t[17].0) == Some(CommentStyle::Slash));
    assert(ext_style(t[18].0) == Some(CommentStyle::Slash));
    assert(ext_style(t[19].0) == Some(CommentStyle::Slash));
    assert(ext_style(t[20].0) == Some(CommentStyle::Slash));
    assert(ext_style(t[21].0) == Some(CommentStyle::Slash));
    assert(ext_style(t[22].0) == Some(CommentStyle::Slash));
    assert(ext_style(t[23].0) == Some(CommentStyle::Slash));
    assert(ext_style(t[24].0) == Some(CommentStyle::Slash));
    assert(ext_style(t[25].0) == Some(CommentStyle::Slash));
    assert(ext_style(t[26].0) == Some(CommentStyle::Slash));
    assert(ext_style(t[27].0) == Some(CommentStyle::Slash));
    assert(ext_style(t[28].0) == Some(CommentStyle::Slash));
    assert(ext_style(t[29].0) == Some(CommentStyle::Slash));
    assert(ext_style(t[30].0) == Some(CommentStyle::Slash));
    assert(ext_style(t[31].0) == Some(CommentStyle::Slash));
    assert(ext_style(t[32].0) == Some(CommentStyle::Slash));
    assert(ext_style(t[33].0) == Some(CommentStyle::Slash));
    assert(ext_style(t[34].0) == Some(CommentStyle::Slash));
    assert(ext_style(t[35].0) == Some(CommentStyle::Slash));
    assert(ext_style(t[36].0) == Some(CommentStyle::Slash));
    assert(ext_style(t[37].0) == Some(CommentStyle::Slash));
    assert(ext_style(t[38].0) == Some(CommentStyle::Slash));
    assert(ext_style(t[39].0) == Some(CommentStyle::Slash));
    assert(ext_style(t[40].0) == Some(CommentStyle::Slash));
    assert(ext_style(t[41].0) == Some(CommentStyle::Slash));
    assert(ext_style(t[42].0) == Some(CommentStyle::Slash));
}

#[verifier::rlimit(50)]
proof fn lemma_hash_rows()
    ensures
        forall|i: int| 43 <= i < 60 ==> ext_style(#[trigger] documented_extensions()[i].0) == Some(documented_extensions()[i].1),
{
    lemma_extension_letters();
    let t = documented_extensions();

    assert(ext_style(t[43].0) == Some(CommentStyle::Hash));
    assert(ext_style(t[44].0) == Some(CommentStyle::Hash));
    assert(ext_style(t[45].0) == Some(CommentStyle::Hash));
    assert(ext_style(t[46].0) == Some(CommentStyle::Hash));
    assert(ext_style(t[47].0) == Some(CommentStyle::Hash));
    assert(ext_style(t[48].0) == Some(CommentStyle::Hash));
    assert(ext_style(t[49].0) == Some(CommentStyle::Hash));
    assert(ext_style(t[50].0) == Some(CommentStyle::Hash));
    assert(ext_style(t[51].0) == Some(CommentStyle::Hash));
    assert(ext_style(t[52].0) == Some(CommentStyle::Hash));
    assert(ext_style(t[53].0) == Some(CommentStyle::Hash));
    assert(ext_style(t[54].0) == Some(CommentStyle::Hash));
    assert(ext_style(t[55].0) == Some(CommentStyle::Hash));
    assert(ext_style(t[56].0) == Some(CommentStyle::Hash));
    assert(ext_style(t[57].0) == Some(CommentStyle::Hash));
    assert(ext_style(t[58].0) == Some(CommentStyle::Hash));
    assert(ext_style(t[59].0) == Some(CommentStyle::Hash));
}

#[verifier::rlimit(50)]
proof fn lemma_css_rows()
    ensures
        forall|i: int| 60 <= i < 65 ==> ext_style(#[trigger] documented_extensions()[i].0) == Some(documented_extensions()[i].1),
{
    lemma_extension_letters();
    let t = documented_extensions();

    assert(ext_style(t[60].0) == Some(CommentStyle::Css));
    assert(ext_style(t[61].0) == Some(CommentStyle::Css));
    assert(ext_style(t[62].0) == Some(CommentStyle::Css));
    assert(ext_style(t[63].0) == Some(CommentStyle::Css));
    assert(ext_style(t[64].0) == Some(CommentStyle::Css));
}

#[verifier::rlimit(50)]
proof fn lemma_html_rows()
    ensures
        forall|i: int| 65 <= i < 72 ==> ext_style(#[trigger] documented_extensions()[i].0) == Some(documented_extensions()[i].1),
{
    lemma_extension_letters();
    let t = documented_extensions();

    assert(ext_style(t[65].0) == Some(CommentStyle::Html));
    assert(ext_style(t[66].0) == Some(CommentStyle::Html));
    assert(ext_style(t[67].0) == Some(CommentStyle::Html));
    assert(ext_style(t[68].0) == Some(CommentStyle::Html));
    assert(ext_style(t[69].0) == Some(CommentStyle::Html));
    assert(ext_style(t[70].0) == Some(CommentStyle::Html));
    assert(ext_style(t[71].0) == Some(CommentStyle::Html));
}

proof fn lemma_no_other_extension(e: Seq<char>)
    ensures
        ext_style(e) matches Some(st) ==> exists|i: int|
            0 <= i < documented_extensions().len() && #[trigger] documented_extensions()[i] == (e, st),
{
    let t = documented_extensions();

    if e == "c"@ {
        assert(t[0] == (e, CommentStyle::Slash));
    }
    else if e == "cc"@ {
        assert(t[1] == (e, CommentStyle::Slash));
    }
    else if e == "cpp"@ {
        assert(t[2] == (e, CommentStyle::Slash));
    }
    else if e == "cxx"@ {
        assert(t[3] == (e, CommentStyle::Slash));
    }
    else if e == "h"@ {
        assert(t[4] == (e, CommentStyle::Slash));
    }
    else if e == "hpp"@ {
        assert(t[5] == (e, CommentStyle::Slash));
    }
    else if e == "hxx"@ {
        assert(t[6] == (e, CommentStyle::Slash));
    }
    else if e == "java"@ {
        assert(t[7] == (e, CommentStyle::Slash));
    }
    else if e == "kt"@ {
        assert(t[8] == (e, CommentStyle::Slash));
    }
    else if e == "kts"@ {
        assert(t[9] == (e, CommentStyle::Slash));
    }
    else if e == "scala"@ {
        assert(t[10] == (e, CommentStyle::Slash));
    }
    else if e == "groovy"@ {
        assert(t[11] == (e, CommentStyle::Slash));
    }
    else if e == "cs"@ {
        assert(t[12] == (e, CommentStyle::Slash));
    }
    else if e == "fs"@ {
        assert(t[13] == (e, CommentStyle::Slash));
    }
    else if e == "fsi"@ {
        assert(t[14] == (e, CommentStyle::Slash));
    }
    else if e == "fsx"@ {
        assert(t[15] == (e, CommentStyle::Slash));
    }
    else if e == "go"@ {
        assert(t[16] == (e, CommentStyle::Slash));
    }
    else if e == "rs"@ {
        assert(t[17] == (e, CommentStyle::Slash));
    }
    else if e == "swift"@ {
        assert(t[18] == (e, CommentStyle::Slash));
    }
    else if e == "m"@ {
        assert(t[19] == (e, CommentStyle::Slash));
    }
    else if e == "mm"@ {
        assert(t[20] == (e, CommentStyle::Slash));
    }
    else if e == "js"@ {
        assert(t[21] == (e, CommentStyle::Slash));
    }
    else if e == "mjs"@ {
        assert(t[22] == (e, CommentStyle::Slash));
    }
    else if e == "cjs"@ {
        assert(t[23] == (e, CommentStyle::Slash));
    }
    else if e == "jsx"@ {
        assert(t[24] == (e, CommentStyle::Slash));
    }
    else if e == "ts"@ {
        assert(t[25] == (e, CommentStyle::Slash));
    }
    else if e == "tsx"@ {
        assert(t[26] == (e, CommentStyle::Slash));
    }
    else if e == "mts"@ {
        assert(t[27] == (e, CommentStyle::Slash));
    }
    else if e == "cts"@ {
        assert(t[28] == (e, CommentStyle::Slash));
    }
    else if e == "php"@ {
        assert(t[29] == (e, CommentStyle::Slash));
    }
    else if e == "dart"@ {
        assert(t[30] == (e, CommentStyle::Slash));
    }
    else if e == "zig"@ {
        assert(t[31] == (e, CommentStyle::Slash));
    }
    else if e == "v"@ {
        assert(t[32] == (e, CommentStyle::Slash));
    }
    else if e == "odin"@ {
        assert(t[33] == (e, CommentStyle::Slash));
    }
    else if e == "gleam"@ {
        assert(t[34] == (e, CommentStyle::Slash));
    }
    else if e == "sol"@ {
        assert(t[35] == (e, CommentStyle::Slash));
    }
    else if e == "proto"@ {
        assert(t[36] == (e, CommentStyle::Slash));
    }
    else if e == "thrift"@ {
        assert(t[37] == (e, CommentStyle::Slash));
    }
    else if e == "wgsl"@ {
        assert(t[38] == (e, CommentStyle::Slash));
    }
    else if e == "glsl"@ {
        assert(t[39] == (e, CommentStyle::Slash));
    }
    else if e == "hlsl"@ {
        assert(t[40] == (e, CommentStyle::Slash));
    }
    else if e == "purs"@ {
        assert(t[41] == (e, CommentStyle::Slash));
    }
    else if e == "elm"@ {
        assert(t[42] == (e, CommentStyle::Slash));
    }
    else if e == "py"@ {
        assert(t[43] == (e, CommentStyle::Hash));
    }
    else if e == "rb"@ {
        assert(t[44] == (e, CommentStyle::Hash));
    }
    else if e == "cr"@ {
        assert(t[45] == (e, CommentStyle::Hash));
    }
    else if e == "nim"@ {
        assert(t[46] == (e, CommentStyle::Hash));
    }
    else if e == "ex"@ {
        assert(t[47] == (e, CommentStyle::Hash));
    }
    else if e == "exs"@ {
        assert(t[48] == (e, CommentStyle::Hash));
    }
    else if e == "jl"@ {
        assert(t[49] == (e, CommentStyle::Hash));
    }
    else if e == "tf"@ {
        assert(t[50] == (e, CommentStyle::Hash));
    }
    else if e == "tfvars"@ {
        assert(t[51] == (e, CommentStyle::Hash));
    }
    else if e == "hcl"@ {
        assert(t[52] == (e, CommentStyle::Hash));
    }
    else if e == "nix"@ {
        assert(t[53] == (e, CommentStyle::Hash));
    }
    else if e == "graphql"@ {
        assert(t[54] == (e, CommentStyle::Hash));
    }
    else if e == "gql"@ {
        assert(t[55] == (e, CommentStyle::Hash));
    }
    else if e == "toml"@ {
        assert(t[56] == (e, CommentStyle::Hash));
    }
    else if e == "yaml"@ {
        assert(t[57] == (e, CommentStyle::Hash));
    }
    else if e == "yml"@ {
        assert(t[58] == (e, CommentStyle::Hash));
    }
    else if e == "txt"@ {
        assert(t[59] == (e, CommentStyle::Hash));
    }
    else if e == "css"@ {
        assert(t[60] == (e, CommentStyle::Css));
    }
    else if e == "scss"@ {
        assert(t[61] == (e, CommentStyle::Css));
    }
    else if e == "sass"@ {
        assert(t[62] == (e, CommentStyle::Css));
    }
    else if e == "less"@ {
        assert(t[63] == (e, CommentStyle::Css));
    }
    else if e == "styl"@ {
        assert(t[64] == (e, CommentStyle::Css));
    }
    else if e == "html"@ {
        assert(t[65] == (e, CommentStyle::Html));
    }
    else if e == "htm"@ {
        assert(t[66] == (e, CommentStyle::Html));
    }
    else if e == "xml"@ {
        assert(t[67] == (e, CommentStyle::Html));
    }
    else if e == "svg"@ {
        assert(t[68] == (e, CommentStyle::Html));
    }
    else if e == "vue"@ {
        assert(t[69] == (e, CommentStyle::Html));
    }
    else if e == "svelte"@ {
        assert(t[70] == (e, CommentStyle::Html));
    }
    else if e == "astro"@ {
        assert(t[71] == (e, CommentStyle::Html));
    }
}

/// The built-in comment styles are those the documentation lists: each
/// documented extension gets its documented style (`java` `//`, `py` `#`,
/// `css` `/* */`, `html` `<!-- -->`, ...), each documented extensionless file
/// name `#`, and no other extension or name gets a style.
pub proof fn law_builtin_styles_are_documented(e: Seq<char>)
    ensures
        forall|i: int|
            0 <= i < documented_extensions().len() ==> ext_style(#[trigger] documented_extensions()[i].0)
                == Some(documented_extensions()[i].1),
        ext_style(e) matches Some(st) ==> exists|i: int|
            0 <= i < documented_extensions().len() && #[trigger] documented_extensions()[i] == (e, st),
        forall|i: int|
            0 <= i < documented_filenames().len() ==> filename_style(#[trigger] documented_filenames()[i])
                == Some(CommentStyle::Hash),
        filename_style(e) is Some ==> filename_style(e) == Some(CommentStyle::Hash)
            && documented_filenames().contains(e),
{
    lemma_slash_rows();
    lemma_hash_rows();
    lemma_css_rows();
    lemma_html_rows();
    lemma_no_other_extension(e);
    reveal_strlit("makefile");
    reveal_strlit("dockerfile");
    reveal_strlit("jenkinsfile");
    reveal_strlit("rakefile");
    reveal_strlit("gemfile");
    reveal_strlit("brewfile");
    let f = documented_filenames();

    assert(filename_style(f[0]) == Some(CommentStyle::Hash));
    assert(filename_style(f[1]) == Some(CommentStyle::Hash));
    assert(filename_style(f[2]) == Some(CommentStyle::Hash));
    assert(filename_style(f[3]) == Some(CommentStyle::Hash));
    assert(filename_style(f[4]) == Some(CommentStyle::Hash));
    assert(filename_style(f[5]) == Some(CommentStyle::Hash));
    if e == "makefile"@ {
        assert(f[0] == e);
    }
    else if e == "dockerfile"@ {
        assert(f[1] == e);
    }
    else if e == "jenkinsfile"@ {
        assert(f[2] == e);
    }
    else if e == "rakefile"@ {
        assert(f[3] == e);
    }
    else if e == "gemfile"@ {
        assert(f[4] == e);
    }
    else if e == "brewfile"@ {
        assert(f[5] == e);
    }
}

} // verus!
