//! Comment styles and the header line: detecting, adding, updating and removing it.
use crate::text::{
    chars_eq, chars_of, contains_chars, contains_seq, copy_chars, extend_chars, is_blank,
    is_blank_chars, is_unicode_ws, occurs_at, push_char, push_str, str_eq, string_from_chars, trim,
    trim_chars,
};
use crate::template::{render, render_spec, TemplateContext};
use vstd::prelude::*;

verus! {

broadcast use vstd::string::group_string_axioms;

/// The four comment syntaxes a header can be written in.
#[derive(Debug, Clone, Copy, PartialEq, Eq, Structural)]
pub enum CommentStyle {
    /// `// comment`
    Slash,
    /// `# comment`
    Hash,
    /// `/* comment */`
    Css,
    /// `<!-- comment -->`
    Html,
}

/// What has to be done to a file's header.
#[derive(Debug, Clone, Copy, PartialEq, Eq, Structural)]
pub enum HeaderAction {
    AlreadyCurrent,
    UpdateExisting,
    AddNew,
}

// ---------------------------------------------------------------------------
// Extensions and file names
// ---------------------------------------------------------------------------

/// Built-in comment style of a (lower-case) file extension.
pub open spec fn ext_style(ext: Seq<char>) -> Option<CommentStyle> {
    if ext == "c"@ || ext == "cc"@ || ext == "cpp"@ || ext == "cxx"@ || ext == "h"@ || ext
        == "hpp"@ || ext == "hxx"@ || ext == "java"@ || ext == "kt"@ || ext == "kts"@ || ext
        == "scala"@ || ext == "groovy"@ || ext == "cs"@ || ext == "fs"@ || ext == "fsi"@ || ext
        == "fsx"@ || ext == "go"@ || ext == "rs"@ || ext == "swift"@ || ext == "m"@ || ext
        == "mm"@ || ext == "js"@ || ext == "mjs"@ || ext == "cjs"@ || ext == "jsx"@ || ext
        == "ts"@ || ext == "tsx"@ || ext == "mts"@ || ext == "cts"@ || ext == "php"@ || ext
        == "dart"@ || ext == "zig"@ || ext == "v"@ || ext == "odin"@ || ext == "gleam"@ || ext
        == "sol"@ || ext == "proto"@ || ext == "thrift"@ || ext == "wgsl"@ || ext == "glsl"@
        || ext == "hlsl"@ || ext == "purs"@ || ext == "elm"@ {
        Some(CommentStyle::Slash)
    } else if ext == "py"@ || ext == "rb"@ || ext == "cr"@ || ext == "nim"@ || ext == "ex"@
        || ext == "exs"@ || ext == "jl"@ || ext == "tf"@ || ext == "tfvars"@ || ext == "hcl"@
        || ext == "nix"@ || ext == "graphql"@ || ext == "gql"@ || ext == "toml"@ || ext
        == "yaml"@ || ext == "yml"@ || ext == "txt"@ {
        Some(CommentStyle::Hash)
    } else if ext == "css"@ || ext == "scss"@ || ext == "sass"@ || ext == "less"@ || ext
        == "styl"@ {
        Some(CommentStyle::Css)
    } else if ext == "html"@ || ext == "htm"@ || ext == "xml"@ || ext == "svg"@ || ext
        == "vue"@ || ext == "svelte"@ || ext == "astro"@ {
        Some(CommentStyle::Html)
    } else {
        None
    }
}

/// Built-in comment style of a (lower-case) extensionless file name.
pub open spec fn filename_style(name: Seq<char>) -> Option<CommentStyle> {
    if name == "makefile"@ || name == "dockerfile"@ || name == "jenkinsfile"@ || name
        == "rakefile"@ || name == "gemfile"@ || name == "brewfile"@ {
        Some(CommentStyle::Hash)
    } else {
        None
    }
}

/// The comment style named by a configuration string.
pub open spec fn style_named(name: Seq<char>) -> Option<CommentStyle> {
    if name == "slash"@ {
        Some(CommentStyle::Slash)
    } else if name == "hash"@ {
        Some(CommentStyle::Hash)
    } else if name == "css"@ {
        Some(CommentStyle::Css)
    } else if name == "html"@ {
        Some(CommentStyle::Html)
    } else {
        None
    }
}

/// The comment style named by a configuration string (`"slash"`, `"hash"`,
/// `"css"`, `"html"`); any other name gives `None`.
pub fn style_from_name(name: &str) -> (r: Option<CommentStyle>)
    ensures
        r == style_named(name@),
{
    if str_eq(name, "slash") {
        Some(CommentStyle::Slash)
    } else if str_eq(name, "hash") {
        Some(CommentStyle::Hash)
    } else if str_eq(name, "css") {
        Some(CommentStyle::Css)
    } else if str_eq(name, "html") {
        Some(CommentStyle::Html)
    } else {
        None
    }
}

impl CommentStyle {
    /// The built-in comment style of an extension (without the dot).
    pub fn from_ext(ext: &str) -> (r: Option<Self>)
        ensures
            r == ext_style(ext@),
    {
        if str_eq(ext, "c") ||
            str_eq(ext, "cc") ||
            str_eq(ext, "cpp") ||
            str_eq(ext, "cxx") ||
            str_eq(ext, "h") ||
            str_eq(ext, "hpp") ||
            str_eq(ext, "hxx") ||
            str_eq(ext, "java") ||
            str_eq(ext, "kt") ||
            str_eq(ext, "kts") ||
            str_eq(ext, "scala") ||
            str_eq(ext, "groovy") ||
            str_eq(ext, "cs") ||
            str_eq(ext, "fs") ||
            str_eq(ext, "fsi") ||
            str_eq(ext, "fsx") ||
            str_eq(ext, "go") ||
            str_eq(ext, "rs") ||
            str_eq(ext, "swift") ||
            str_eq(ext, "m") ||
            str_eq(ext, "mm") ||
            str_eq(ext, "js") ||
            str_eq(ext, "mjs") ||
            str_eq(ext, "cjs") ||
            str_eq(ext, "jsx") ||
            str_eq(ext, "ts") ||
            str_eq(ext, "tsx") ||
            str_eq(ext, "mts") ||
            str_eq(ext, "cts") ||
            str_eq(ext, "php") ||
            str_eq(ext, "dart") ||
            str_eq(ext, "zig") ||
            str_eq(ext, "v") ||
            str_eq(ext, "odin") ||
            str_eq(ext, "gleam") ||
            str_eq(ext, "sol") ||
            str_eq(ext, "proto") ||
            str_eq(ext, "thrift") ||
            str_eq(ext, "wgsl") ||
            str_eq(ext, "glsl") ||
            str_eq(ext, "hlsl") ||
            str_eq(ext, "purs") ||
            str_eq(ext, "elm") {
            Some(CommentStyle::Slash)
        } else if str_eq(ext, "py") ||
            str_eq(ext, "rb") ||
            str_eq(ext, "cr") ||
            str_eq(ext, "nim") ||
            str_eq(ext, "ex") ||
            str_eq(ext, "exs") ||
            str_eq(ext, "jl") ||
            str_eq(ext, "tf") ||
            str_eq(ext, "tfvars") ||
            str_eq(ext, "hcl") ||
            str_eq(ext, "nix") ||
            str_eq(ext, "graphql") ||
            str_eq(ext, "gql") ||
            str_eq(ext, "toml") ||
            str_eq(ext, "yaml") ||
            str_eq(ext, "yml") ||
            str_eq(ext, "txt") {
            Some(CommentStyle::Hash)
        } else if str_eq(ext, "css") ||
            str_eq(ext, "scss") ||
            str_eq(ext, "sass") ||
            str_eq(ext, "less") ||
            str_eq(ext, "styl") {
            Some(CommentStyle::Css)
        } else if str_eq(ext, "html") ||
            str_eq(ext, "htm") ||
            str_eq(ext, "xml") ||
            str_eq(ext, "svg") ||
            str_eq(ext, "vue") ||
            str_eq(ext, "svelte") ||
            str_eq(ext, "astro") {
            Some(CommentStyle::Html)
        } else {
            None
        }
    }

    /// The built-in comment style of a (lower-case) extensionless file name
    /// such as `makefile` or `dockerfile`.
    pub fn filename_to_style(name: &str) -> (r: Option<Self>)
        ensures
            r == filename_style(name@),
    {
        if str_eq(name, "makefile") || str_eq(name, "dockerfile") || str_eq(name, "jenkinsfile")
            || str_eq(name, "rakefile") || str_eq(name, "gemfile") || str_eq(name, "brewfile") {
            Some(CommentStyle::Hash)
        } else {
            None
        }
    }
}


// ---------------------------------------------------------------------------
// Wrapping a body in a comment
// ---------------------------------------------------------------------------

/// The text that opens a comment of each style.
pub open spec fn opener(style: CommentStyle) -> Seq<char> {
    match style {
        CommentStyle::Slash => seq!['/', '/'],
        CommentStyle::Hash => seq!['#'],
        CommentStyle::Css => seq!['/', '*'],
        CommentStyle::Html => seq!['<', '!', '-', '-'],
    }
}

/// A body wrapped as a one-line comment of the given style.
pub open spec fn wrap_spec(style: CommentStyle, body: Seq<char>) -> Seq<char> {
    match style {
        CommentStyle::Slash => seq!['/', '/', ' '] + body,
        CommentStyle::Hash => seq!['#', ' '] + body,
        CommentStyle::Css => seq!['/', '*', ' '] + body + seq![' ', '*', '/'],
        CommentStyle::Html => seq!['<', '!', '-', '-', ' '] + body + seq![' ', '-', '-', '>'],
    }
}

impl CommentStyle {
    /// Wrap a rendered template body in this comment style.
    pub fn wrap(&self, body: &str) -> (r: String)
        ensures
            r@ == wrap_spec(*self, body@),
    {
        let mut r = String::new();
        match self {
            CommentStyle::Slash => {
                push_char(&mut r, '/');
                push_char(&mut r, '/');
                push_char(&mut r, ' ');
                push_str(&mut r, body);
            },
            CommentStyle::Hash => {
                push_char(&mut r, '#');
                push_char(&mut r, ' ');
                push_str(&mut r, body);
            },
            CommentStyle::Css => {
                push_char(&mut r, '/');
                push_char(&mut r, '*');
                push_char(&mut r, ' ');
                push_str(&mut r, body);
                push_char(&mut r, ' ');
                push_char(&mut r, '*');
                push_char(&mut r, '/');
            },
            CommentStyle::Html => {
                push_char(&mut r, '<');
                push_char(&mut r, '!');
                push_char(&mut r, '-');
                push_char(&mut r, '-');
                push_char(&mut r, ' ');
                push_str(&mut r, body);
                push_char(&mut r, ' ');
                push_char(&mut r, '-');
                push_char(&mut r, '-');
                push_char(&mut r, '>');
            },
        }
        assert(r@ =~= wrap_spec(*self, body@));
        r
    }
}

/// Build the full header line for a file: the rendered template, wrapped
/// in the comment style.
pub fn build_header(style: CommentStyle, template: &str, ctx: &TemplateContext) -> (r: String)
    ensures
        r@ == wrap_spec(style, render_spec(template@, *ctx)),
{
    let body = render(template, ctx);
    style.wrap(body.as_str())
}

// ---------------------------------------------------------------------------
// Recognising a header line
// ---------------------------------------------------------------------------

/// The regex class `[[:space:]]`: ASCII `\t \n \x0B \x0C \r` and space.
pub open spec fn is_ascii_space(c: char) -> bool {
    c == '\t' || c == '\n' || c == '\x0B' || c == '\x0C' || c == '\r' || c == ' '
}

/// Length of the run of `[[:space:]]` characters of `s` starting at `i`.
pub open spec fn space_run(s: Seq<char>, i: int) -> nat
    decreases s.len() - i,
{
    if 0 <= i < s.len() && is_ascii_space(s[i]) {
        1 + space_run(s, i + 1)
    } else {
        0
    }
}

/// `line` matches `^[[:space:]]*OPENER[[:space:]]+\S`: after its leading
/// `[[:space:]]` run comes the opener, then at least one `[[:space:]]`
/// character, then a character that is not Unicode whitespace.
/// (The opener starts with a non-space character, so the leading run is
/// maximal; `\S` excludes every `[[:space:]]` character, so the second run
/// is maximal too.)
pub open spec fn has_marker(open: Seq<char>, line: Seq<char>) -> bool {
    let k = space_run(line, 0) as int;
    let j = k + open.len();
    let m = space_run(line, j) as int;
    &&& occurs_at(line, open, k)
    &&& m >= 1
    &&& j + m < line.len()
    &&& !is_unicode_ws(line[j + m])
}

/// `line` looks like a header written in `style`.
pub open spec fn is_marker(style: CommentStyle, line: Seq<char>) -> bool {
    has_marker(opener(style), line)
}

/// The regular expression that broadly matches any header of a style.
pub open spec fn header_pattern(style: CommentStyle) -> Seq<char> {
    match style {
        CommentStyle::Slash => r"^[[:space:]]*//[[:space:]]+\S"@,
        CommentStyle::Hash => r"^[[:space:]]*#[[:space:]]+\S"@,
        CommentStyle::Css => r"^[[:space:]]*/\*[[:space:]]+\S"@,
        CommentStyle::Html => r"^[[:space:]]*<!--[[:space:]]+\S"@,
    }
}

/// The opener that a header pattern requires, for the four header patterns.
pub open spec fn pattern_opener(p: Seq<char>) -> Option<Seq<char>> {
    if p == header_pattern(CommentStyle::Slash) {
        Some(opener(CommentStyle::Slash))
    } else if p == header_pattern(CommentStyle::Hash) {
        Some(opener(CommentStyle::Hash))
    } else if p == header_pattern(CommentStyle::Css) {
        Some(opener(CommentStyle::Css))
    } else if p == header_pattern(CommentStyle::Html) {
        Some(opener(CommentStyle::Html))
    } else {
        None
    }
}

/// `regex::Regex::new(pattern)` followed by `Regex::is_match(text)`.
/// Trusted: for the four header patterns (which all compile), the match
/// result is `has_marker` of the pattern's opener, i.e. the regex crate's
/// semantics of `^`, `[[:space:]]` (ASCII whitespace), `+`, `*` and `\S`
/// (not Unicode `White_Space`) on these patterns. Other patterns are not admitted.
#[verifier::external_body]
fn regex_is_match(pattern: &str, text: &str) -> (r: bool)
    requires
        pattern_opener(pattern@) is Some,
    ensures
        r == has_marker(pattern_opener(pattern@)->0, text@),
{
    match regex::Regex::new(pattern) {
        Ok(re) => re.is_match(text),
        Err(_) => false,
    }
}

proof fn lemma_pattern_opener(style: CommentStyle)
    ensures
        pattern_opener(header_pattern(style)) == Some(opener(style)),
{
    reveal_strlit(r"^[[:space:]]*//[[:space:]]+\S");
    reveal_strlit(r"^[[:space:]]*#[[:space:]]+\S");
    reveal_strlit(r"^[[:space:]]*/\*[[:space:]]+\S");
    reveal_strlit(r"^[[:space:]]*<!--[[:space:]]+\S");
    assert(header_pattern(CommentStyle::Slash).len() == 29);
    assert(header_pattern(CommentStyle::Hash).len() == 28);
    assert(header_pattern(CommentStyle::Css).len() == 30);
    assert(header_pattern(CommentStyle::Html).len() == 31);
}

impl CommentStyle {
    /// The pattern that broadly matches any bark header in this style
    /// (intentionally broad, so that headers written with any template are found).
    pub fn detect_pattern(&self) -> (r: &'static str)
        ensures
            r@ == header_pattern(*self),
    {
        match self {
            CommentStyle::Slash => r"^[[:space:]]*//[[:space:]]+\S",
            CommentStyle::Hash => r"^[[:space:]]*#[[:space:]]+\S",
            CommentStyle::Css => r"^[[:space:]]*/\*[[:space:]]+\S",
            CommentStyle::Html => r"^[[:space:]]*<!--[[:space:]]+\S",
        }
    }

    /// Whether `line` looks like a header in this style.
    pub fn matches_line(&self, line: &str) -> (r: bool)
        ensures
            r == is_marker(*self, line@),
    {
        proof {
            lemma_pattern_opener(*self);
        }
        regex_is_match(self.detect_pattern(), line)
    }
}

fn marker_chars(style: CommentStyle, line: &[char]) -> (r: bool)
    ensures
        r == is_marker(style, line@),
{
    let s = string_from_chars(line);
    style.matches_line(s.as_str())
}


// ---------------------------------------------------------------------------
// Lines
// ---------------------------------------------------------------------------

/// A line without its final `\r` (the `\r` of a `\r\n` line ending).
pub open spec fn chomp_cr(l: Seq<char>) -> Seq<char> {
    if l.len() > 0 && l.last() == '\r' {
        l.drop_last()
    } else {
        l
    }
}

/// `str::lines` continued from a partial line `cur`: lines end at `\n` (a
/// `\r` right before it is dropped), and a final line without `\n` is kept
/// unless it is empty.
pub open spec fn lines_from(cur: Seq<char>, rest: Seq<char>) -> Seq<Seq<char>>
    decreases rest.len(),
{
    if rest.len() == 0 {
        if cur.len() == 0 {
            seq![]
        } else {
            seq![cur]
        }
    } else if rest[0] == '\n' {
        seq![chomp_cr(cur)] + lines_from(seq![], rest.drop_first())
    } else {
        lines_from(cur.push(rest[0]), rest.drop_first())
    }
}

/// `str::lines`.
pub open spec fn lines_of(s: Seq<char>) -> Seq<Seq<char>> {
    lines_from(seq![], s)
}

/// `join` of a list of lines with a separator.
pub open spec fn join(ls: Seq<Seq<char>>, sep: Seq<char>) -> Seq<char>
    decreases ls.len(),
{
    if ls.len() == 0 {
        seq![]
    } else if ls.len() == 1 {
        ls[0]
    } else {
        ls[0] + sep + join(ls.drop_first(), sep)
    }
}

/// The views of a vector of lines.
pub open spec fn views(ls: Seq<Vec<char>>) -> Seq<Seq<char>> {
    ls.map_values(|l: Vec<char>| l@)
}

pub proof fn lemma_join_push(ls: Seq<Seq<char>>, x: Seq<char>, sep: Seq<char>)
    requires
        ls.len() > 0,
    ensures
        join(ls.push(x), sep) == join(ls, sep) + sep + x,
    decreases ls.len(),
{
    let lx = ls.push(x);
    assert(lx[0] == ls[0]);
    if ls.len() == 1 {
        assert(lx.drop_first() =~= seq![x]);
        assert(join(seq![x], sep) == x);
        assert(join(lx, sep) == ls[0] + sep + join(lx.drop_first(), sep));
    } else {
        lemma_join_push(ls.drop_first(), x, sep);
        assert(lx.drop_first() =~= ls.drop_first().push(x));
        assert(join(lx, sep) == ls[0] + sep + join(lx.drop_first(), sep));
        let a = ls[0] + sep;
        let j = join(ls.drop_first(), sep);
        assert(a + (j + sep + x) =~= (a + j) + sep + x);
    }
}

/// Split a character slice into lines, as `str::lines` does.
pub fn split_lines(s: &[char]) -> (ls: Vec<Vec<char>>)
    ensures
        views(ls@) == lines_of(s@),
{
    let mut out: Vec<Vec<char>> = Vec::new();
    let mut cur: Vec<char> = Vec::new();
    let mut i: usize = 0;
    assert(s@.skip(0) =~= s@);
    while i < s.len()
        invariant
            i <= s@.len(),
            views(out@) + lines_from(cur@, s@.skip(i as int)) == lines_of(s@),
        decreases s.len() - i,
    {
        let ghost rest = s@.skip(i as int);
        assert(rest.drop_first() =~= s@.skip(i + 1));
        let c = s[i];
        if c == '\n' {
            let ghost before = views(out@);
            if cur.len() > 0 && cur[cur.len() - 1] == '\r' {
                cur.pop();
            }
            let line = cur;
            out.push(line);
            cur = Vec::new();
            assert(views(out@) =~= before.push(line@));
            assert(before.push(line@) + lines_from(seq![], rest.drop_first()) =~= before + (seq![
                line@,
            ] + lines_from(seq![], rest.drop_first())));
        } else {
            cur.push(c);
        }
        i = i + 1;
    }
    assert(s@.skip(s@.len() as int) =~= Seq::<char>::empty());
    if cur.len() > 0 {
        let ghost before = views(out@);
        out.push(cur);
        assert(views(out@) =~= before + lines_from(seq![], Seq::<char>::empty()).push(
            out@.last()@,
        ));
    }
    assert(views(out@) =~= lines_of(s@));
    out
}

/// Join lines with a separator.
pub fn join_lines(ls: &Vec<Vec<char>>, sep: &[char]) -> (r: Vec<char>)
    ensures
        r@ == join(views(ls@), sep@),
{
    let mut r: Vec<char> = Vec::new();
    if ls.len() == 0 {
        return r;
    }
    extend_chars(&mut r, ls[0].as_slice());
    let mut i: usize = 1;
    assert(views(ls@).take(1) =~= seq![ls@[0]@]);
    while i < ls.len()
        invariant
            1 <= i <= ls@.len(),
            r@ == join(views(ls@).take(i as int), sep@),
        decreases ls.len() - i,
    {
        extend_chars(&mut r, sep);
        extend_chars(&mut r, ls[i].as_slice());
        proof {
            lemma_join_push(views(ls@).take(i as int), ls@[i as int]@, sep@);
            assert(views(ls@).take(i as int).push(ls@[i as int]@) =~= views(ls@).take(i + 1));
        }
        i = i + 1;
    }
    assert(views(ls@).take(ls@.len() as int) =~= views(ls@));
    r
}

// ---------------------------------------------------------------------------
// The header model
// ---------------------------------------------------------------------------

/// `\r\n`.
pub open spec fn crlf() -> Seq<char> {
    seq!['\r', '\n']
}

/// The line ending a file uses: `\r\n` when it occurs anywhere, else `\n`.
pub open spec fn line_ending(s: Seq<char>) -> Seq<char> {
    if contains_seq(s, crlf()) {
        crlf()
    } else {
        seq!['\n']
    }
}

/// `s` ends with a newline.
pub open spec fn ends_with_newline(s: Seq<char>) -> bool {
    s.len() > 0 && s.last() == '\n'
}

/// A line that starts with `#!`.
pub open spec fn is_shebang(l: Seq<char>) -> bool {
    l.len() >= 2 && l[0] == '#' && l[1] == '!'
}

/// The line examined for an existing header: line 0, or line 1 after a shebang.
pub open spec fn candidate(ls: Seq<Seq<char>>) -> Option<Seq<char>> {
    if ls.len() == 0 {
        None
    } else if is_shebang(ls[0]) {
        if ls.len() > 1 {
            Some(ls[1])
        } else {
            None
        }
    } else {
        Some(ls[0])
    }
}

/// What has to be done to `content` so that `desired` is its header.
pub open spec fn analyze_spec(content: Seq<char>, desired: Seq<char>, style: CommentStyle) -> HeaderAction {
    match candidate(lines_of(content)) {
        Some(line) => if is_marker(style, line) {
            if trim(line) == trim(desired) {
                HeaderAction::AlreadyCurrent
            } else {
                HeaderAction::UpdateExisting
            }
        } else {
            HeaderAction::AddNew
        },
        None => HeaderAction::AddNew,
    }
}

/// Index of the first line after the shebang (if any), the old header (if
/// any) and one blank line following that header (if any).
pub open spec fn body_start(ls: Seq<Seq<char>>, style: CommentStyle) -> int {
    if is_shebang(ls[0]) {
        if ls.len() > 1 && is_marker(style, ls[1]) {
            if ls.len() > 2 && is_blank(ls[2]) {
                3
            } else {
                2
            }
        } else {
            1
        }
    } else if is_marker(style, ls[0]) {
        if ls.len() > 1 && is_blank(ls[1]) {
            2
        } else {
            1
        }
    } else {
        0
    }
}

/// Some line is not empty.
pub open spec fn has_text_line(ls: Seq<Seq<char>>) -> bool {
    exists|i: int| 0 <= i < ls.len() && (#[trigger] ls[i]).len() > 0
}

/// The lines of a tagged file: shebang (if any), the header, a blank line
/// when text follows, then the body.
pub open spec fn tagged_lines(ls: Seq<Seq<char>>, header: Seq<char>, style: CommentStyle) -> Seq<Seq<char>> {
    let prefix = if is_shebang(ls[0]) {
        seq![ls[0]]
    } else {
        seq![]
    };
    let body = ls.skip(body_start(ls, style));
    let gap = if has_text_line(body) {
        seq![Seq::<char>::empty()]
    } else {
        seq![]
    };
    prefix + seq![header] + gap + body
}

/// Restores a final line ending that joining lines does not produce.
pub open spec fn finish(r: Seq<char>, content: Seq<char>, le: Seq<char>) -> Seq<char> {
    if ends_with_newline(content) && !ends_with_newline(r) {
        r + le
    } else {
        r
    }
}

/// `content` with `header` added or put in place of its old header.
pub open spec fn apply_tag_spec(content: Seq<char>, header: Seq<char>, style: CommentStyle) -> Seq<char> {
    let le = line_ending(content);
    let ls = lines_of(content);
    if ls.len() == 0 {
        header + le
    } else {
        finish(join(tagged_lines(ls, header, style), le), content, le)
    }
}

/// The first header line among `count` lines starting at `from`.
pub open spec fn first_marker_from(ls: Seq<Seq<char>>, style: CommentStyle, from: int, count: int) -> Option<int>
    decreases count,
{
    if count <= 0 || from < 0 || from >= ls.len() {
        None
    } else if is_marker(style, ls[from]) {
        Some(from)
    } else {
        first_marker_from(ls, style, from + 1, count - 1)
    }
}

/// `content` without the header found among its first three lines (after a
/// shebang), and without one blank line that follows it; `None` when no
/// header is found.
pub open spec fn strip_spec(content: Seq<char>, style: CommentStyle) -> Option<Seq<char>> {
    let le = line_ending(content);
    let ls = lines_of(content);
    let check = if ls.len() > 0 && is_shebang(ls[0]) {
        1int
    } else {
        0int
    };
    match first_marker_from(ls, style, check, 3) {
        None => None,
        Some(idx) => {
            let out1 = ls.remove(idx);
            let out = if idx < out1.len() && is_blank(out1[idx]) {
                out1.remove(idx)
            } else {
                out1
            };
            Some(finish(join(out, le), content, le))
        },
    }
}


// ---------------------------------------------------------------------------
// Executable header operations
// ---------------------------------------------------------------------------

fn is_shebang_chars(l: &[char]) -> (r: bool)
    ensures
        r == is_shebang(l@),
{
    l.len() >= 2 && l[0] == '#' && l[1] == '!'
}

fn line_ending_of(cv: &[char]) -> (le: Vec<char>)
    ensures
        le@ == line_ending(cv@),
{
    let crlf_v: Vec<char> = vec!['\r', '\n'];
    assert(crlf_v@ =~= crlf());
    if contains_chars(cv, crlf_v.as_slice()) {
        crlf_v
    } else {
        let v: Vec<char> = vec!['\n'];
        assert(v@ =~= seq!['\n']);
        v
    }
}

fn ends_with_newline_chars(cv: &[char]) -> (r: bool)
    ensures
        r == ends_with_newline(cv@),
{
    cv.len() > 0 && cv[cv.len() - 1] == '\n'
}

/// Appends `le` to `r` when `content` ends with a newline and `r` does not.
fn finish_exec(r: &mut Vec<char>, trailing: bool, le: &[char])
    ensures
        trailing && !ends_with_newline(old(r)@) ==> final(r)@ == old(r)@ + le@,
        !(trailing && !ends_with_newline(old(r)@)) ==> final(r)@ == old(r)@,
{
    let ends = r.len() > 0 && r[r.len() - 1] == '\n';
    if trailing && !ends {
        extend_chars(r, le);
    }
}

/// The line to inspect for an existing header: line 0, or line 1 when line 0
/// is a shebang.
pub fn candidate_line(content: &str) -> (r: Option<String>)
    ensures
        r is None <==> candidate(lines_of(content@)) is None,
        r matches Some(l) ==> candidate(lines_of(content@)) == Some(l@),
{
    let cv = chars_of(content);
    let ls = split_lines(cv.as_slice());
    assert(views(ls@).len() == ls@.len());
    if ls.len() == 0 {
        return None;
    }
    assert(views(ls@)[0] == ls@[0]@);
    if is_shebang_chars(ls[0].as_slice()) {
        if ls.len() > 1 {
            assert(views(ls@)[1] == ls@[1]@);
            Some(string_from_chars(ls[1].as_slice()))
        } else {
            None
        }
    } else {
        Some(string_from_chars(ls[0].as_slice()))
    }
}

/// Determine what action should be taken on a file's header.
pub fn analyze(content: &str, desired_header: &str, style: CommentStyle) -> (r: HeaderAction)
    ensures
        r == analyze_spec(content@, desired_header@, style),
{
    match candidate_line(content) {
        None => HeaderAction::AddNew,
        Some(line) => {
            if !style.matches_line(line.as_str()) {
                HeaderAction::AddNew
            } else {
                let lv = chars_of(line.as_str());
                let dv = chars_of(desired_header);
                let t1 = trim_chars(lv.as_slice());
                let t2 = trim_chars(dv.as_slice());
                if chars_eq(t1.as_slice(), t2.as_slice()) {
                    HeaderAction::AlreadyCurrent
                } else {
                    HeaderAction::UpdateExisting
                }
            }
        },
    }
}

fn body_start_exec(ls: &Vec<Vec<char>>, style: CommentStyle) -> (r: usize)
    requires
        ls@.len() > 0,
    ensures
        r as int == body_start(views(ls@), style),
        r <= ls@.len(),
{
    let ghost v = views(ls@);
    assert(v[0] == ls@[0]@);
    if is_shebang_chars(ls[0].as_slice()) {
        if ls.len() > 1 && marker_chars(style, ls[1].as_slice()) {
            assert(v[1] == ls@[1]@);
            if ls.len() > 2 && is_blank_chars(ls[2].as_slice()) {
                assert(v[2] == ls@[2]@);
                3
            } else {
                proof {
                    if ls@.len() > 2 {
                        assert(v[2] == ls@[2]@);
                    }
                }
                2
            }
        } else {
            proof {
                if ls@.len() > 1 {
                    assert(v[1] == ls@[1]@);
                }
            }
            1
        }
    } else if marker_chars(style, ls[0].as_slice()) {
        if ls.len() > 1 && is_blank_chars(ls[1].as_slice()) {
            assert(v[1] == ls@[1]@);
            2
        } else {
            proof {
                if ls@.len() > 1 {
                    assert(v[1] == ls@[1]@);
                }
            }
            1
        }
    } else {
        0
    }
}

fn has_text_from(ls: &Vec<Vec<char>>, start: usize) -> (r: bool)
    requires
        start <= ls@.len(),
    ensures
        r == has_text_line(views(ls@).skip(start as int)),
{
    let ghost body = views(ls@).skip(start as int);
    let mut i: usize = start;
    while i < ls.len()
        invariant
            start <= i <= ls@.len(),
            body == views(ls@).skip(start as int),
            forall|j: int| 0 <= j < i - start ==> (#[trigger] body[j]).len() == 0,
        decreases ls.len() - i,
    {
        if ls[i].len() > 0 {
            assert(body[i - start] == ls@[i as int]@);
            return true;
        }
        assert(body[i - start] == ls@[i as int]@);
        i = i + 1;
    }
    false
}

/// Apply the header tag: the new file content with the header added, or put
/// in place of the old header.
pub fn apply_tag(content: &str, desired_header: &str, style: CommentStyle) -> (r: String)
    ensures
        r@ == apply_tag_spec(content@, desired_header@, style),
{
    let cv = chars_of(content);
    let hv = chars_of(desired_header);
    let le = line_ending_of(cv.as_slice());
    let trailing = ends_with_newline_chars(cv.as_slice());
    let ls = split_lines(cv.as_slice());
    let ghost v = views(ls@);
    if ls.len() == 0 {
        let mut r = copy_chars(hv.as_slice());
        extend_chars(&mut r, le.as_slice());
        return string_from_chars(r.as_slice());
    }
    assert(v[0] == ls@[0]@);
    let start = body_start_exec(&ls, style);
    let gap = has_text_from(&ls, start);
    let ghost prefix = if is_shebang(v[0]) {
        seq![v[0]]
    } else {
        seq![]
    };
    let ghost gap_s = if gap {
        seq![Seq::<char>::empty()]
    } else {
        seq![]
    };
    let mut out: Vec<Vec<char>> = Vec::new();
    if is_shebang_chars(ls[0].as_slice()) {
        out.push(copy_chars(ls[0].as_slice()));
    }
    out.push(hv);
    if gap {
        out.push(Vec::new());
    }
    assert(views(out@) =~= prefix + seq![desired_header@] + gap_s);
    let mut i: usize = start;
    while i < ls.len()
        invariant
            start <= i <= ls@.len(),
            v == views(ls@),
            views(out@) == prefix + seq![desired_header@] + gap_s + v.subrange(start as int, i as int),
        decreases ls.len() - i,
    {
        let ghost before = views(out@);
        out.push(copy_chars(ls[i].as_slice()));
        assert(views(out@) =~= before.push(v[i as int]));
        assert(v.subrange(start as int, i as int).push(v[i as int]) =~= v.subrange(
            start as int,
            i + 1,
        ));
        i = i + 1;
    }
    assert(v.subrange(start as int, v.len() as int) =~= v.skip(start as int));
    assert(views(out@) =~= tagged_lines(v, desired_header@, style));
    let mut r = join_lines(&out, le.as_slice());
    finish_exec(&mut r, trailing, le.as_slice());
    string_from_chars(r.as_slice())
}

/// Strip the bark-managed header (if any) from the file content.
pub fn strip(content: &str, style: CommentStyle) -> (r: Option<String>)
    ensures
        r is None <==> strip_spec(content@, style) is None,
        r matches Some(s) ==> strip_spec(content@, style) == Some(s@),
{
    let cv = chars_of(content);
    let le = line_ending_of(cv.as_slice());
    let trailing = ends_with_newline_chars(cv.as_slice());
    let ls = split_lines(cv.as_slice());
    let ghost v = views(ls@);
    let check: usize = if ls.len() > 0 && is_shebang_chars(ls[0].as_slice()) {
        1
    } else {
        0
    };
    assert(ls@.len() > 0 ==> v[0] == ls@[0]@);
    let mut idx: usize = check;
    let mut found = false;
    loop
        invariant_except_break
            !found,
        invariant
            check <= idx <= check + 3,
            check <= 1,
            v == views(ls@),
            first_marker_from(v, style, check as int, 3) == first_marker_from(
                v,
                style,
                idx as int,
                check + 3 - idx,
            ),
        ensures
            found ==> idx < ls@.len() && first_marker_from(v, style, check as int, 3) == Some(
                idx as int,
            ),
            !found ==> first_marker_from(v, style, check as int, 3) is None,
        decreases check + 3 - idx,
    {
        if idx >= check + 3 || idx >= ls.len() {
            break ;
        }
        assert(v[idx as int] == ls@[idx as int]@);
        if marker_chars(style, ls[idx].as_slice()) {
            found = true;
            break ;
        }
        idx = idx + 1;
    }
    if !found {
        return None;
    }
    assert(first_marker_from(v, style, check as int, 3) == Some(idx as int));
    let mut out: Vec<Vec<char>> = Vec::new();
    let mut j: usize = 0;
    while j < ls.len()
        invariant
            j <= ls@.len(),
            idx < ls@.len(),
            v == views(ls@),
            views(out@) == v.remove(idx as int).take(
                if j <= idx {
                    j as int
                } else {
                    j - 1
                },
            ),
        decreases ls.len() - j,
    {
        if j != idx {
            let ghost before = views(out@);
            out.push(copy_chars(ls[j].as_slice()));
            assert(views(out@) =~= before.push(v[j as int]));
            assert(v.remove(idx as int).take(
                if j <= idx {
                    j as int
                } else {
                    j - 1
                },
            ).push(v[j as int]) =~= v.remove(idx as int).take(
                if j + 1 <= idx {
                    j + 1
                } else {
                    j as int
                },
            ));
        } else {
            assert(v.remove(idx as int).take(j as int) =~= v.remove(idx as int).take(
                (j + 1) - 1,
            ));
        }
        j = j + 1;
    }
    let ghost out1 = v.remove(idx as int);
    assert(views(out@) =~= out1);
    if idx < out.len() && is_blank_chars(out[idx].as_slice()) {
        let ghost before = views(out@);
        out.remove(idx);
        assert(views(out@) =~= before.remove(idx as int));
    }
    let mut r = join_lines(&out, le.as_slice());
    finish_exec(&mut r, trailing, le.as_slice());
    Some(string_from_chars(r.as_slice()))
}

} // verus!
