//! Header templates: the values a template can refer to, and rendering.
use crate::paths::{extension, extension_of, file_stem, file_stem_of, slashed, to_slashes};
use crate::text::{
    contains_seq, lemma_replace_absent, lemma_replace_chars_from, lemma_replace_keeps_first, push_str,
    replace_all, str_replace,
};
use vstd::prelude::*;

verus! {

broadcast use vstd::string::group_string_axioms;

/// The values a header template can refer to.
pub struct TemplateContext {
    /// Relative file path, with `/` separators.
    pub file: String,
    /// Today's date, in the configured format.
    pub date: String,
    /// The current year.
    pub year: String,
    pub author: String,
    pub project: String,
    /// File stem: the file name without its extension.
    pub filename: String,
    /// File extension without the dot.
    pub ext: String,
    /// User-defined variables, `(name, value)`, applied in this order.
    pub custom: Vec<(String, String)>,
}

/// `{{name}}`: how a template refers to the variable `name`.
pub open spec fn token(name: Seq<char>) -> Seq<char> {
    seq!['{', '{'] + name + seq!['}', '}']
}

/// The views of the user-defined variables.
pub open spec fn pairs_view(v: Seq<(String, String)>) -> Seq<(Seq<char>, Seq<char>)> {
    v.map_values(|p: (String, String)| (p.0@, p.1@))
}

/// The built-in variables, replaced in this order.
pub open spec fn render_builtin(
    t: Seq<char>,
    file: Seq<char>,
    date: Seq<char>,
    year: Seq<char>,
    author: Seq<char>,
    project: Seq<char>,
    filename: Seq<char>,
    ext: Seq<char>,
) -> Seq<char> {
    let s1 = replace_all(t, "{{file}}"@, file);
    let s2 = replace_all(s1, "{{date}}"@, date);
    let s3 = replace_all(s2, "{{year}}"@, year);
    let s4 = replace_all(s3, "{{author}}"@, author);
    let s5 = replace_all(s4, "{{project}}"@, project);
    let s6 = replace_all(s5, "{{filename}}"@, filename);
    replace_all(s6, "{{ext}}"@, ext)
}

/// The user-defined variables, replaced one after the other.
pub open spec fn render_custom(s: Seq<char>, vars: Seq<(Seq<char>, Seq<char>)>) -> Seq<char>
    decreases vars.len(),
{
    if vars.len() == 0 {
        s
    } else {
        render_custom(replace_all(s, token(vars[0].0), vars[0].1), vars.drop_first())
    }
}

/// A template rendered with a context: every `{{name}}` of a built-in
/// variable, then of each user-defined variable, replaced by its value.
pub open spec fn render_spec(t: Seq<char>, ctx: TemplateContext) -> Seq<char> {
    render_custom(
        render_builtin(
            t,
            ctx.file@,
            ctx.date@,
            ctx.year@,
            ctx.author@,
            ctx.project@,
            ctx.filename@,
            ctx.ext@,
        ),
        pairs_view(ctx.custom@),
    )
}

/// The names of the built-in variables.
pub open spec fn builtin_names() -> Seq<Seq<char>> {
    seq!["file"@, "date"@, "year"@, "author"@, "project"@, "filename"@, "ext"@]
}

/// `t` refers to no built-in variable and to no variable of `vars`.
pub open spec fn no_known_token(t: Seq<char>, vars: Seq<(Seq<char>, Seq<char>)>) -> bool {
    &&& forall|i: int| 0 <= i < builtin_names().len() ==> !contains_seq(t, token(#[trigger] builtin_names()[i]))
    &&& forall|i: int| 0 <= i < vars.len() ==> !contains_seq(t, token(#[trigger] vars[i].0))
}

/// Renders `template` with `ctx`.
pub fn render(template: &str, ctx: &TemplateContext) -> (r: String)
    ensures
        r@ == render_spec(template@, *ctx),
{
    proof {
        reveal_strlit("{{file}}");
        reveal_strlit("{{date}}");
        reveal_strlit("{{year}}");
        reveal_strlit("{{author}}");
        reveal_strlit("{{project}}");
        reveal_strlit("{{filename}}");
        reveal_strlit("{{ext}}");
    }
    let mut result = str_replace(template, "{{file}}", ctx.file.as_str());
    result = str_replace(result.as_str(), "{{date}}", ctx.date.as_str());
    result = str_replace(result.as_str(), "{{year}}", ctx.year.as_str());
    result = str_replace(result.as_str(), "{{author}}", ctx.author.as_str());
    result = str_replace(result.as_str(), "{{project}}", ctx.project.as_str());
    result = str_replace(result.as_str(), "{{filename}}", ctx.filename.as_str());
    result = str_replace(result.as_str(), "{{ext}}", ctx.ext.as_str());
    let ghost vars = pairs_view(ctx.custom@);
    assert(vars.skip(0) =~= vars);
    let mut i: usize = 0;
    while i < ctx.custom.len()
        invariant
            i <= ctx.custom@.len(),
            vars == pairs_view(ctx.custom@),
            render_custom(result@, vars.skip(i as int)) == render_spec(template@, *ctx),
        decreases ctx.custom.len() - i,
    {
        let key = &ctx.custom[i].0;
        let value = &ctx.custom[i].1;
        let mut tok = String::new();
        proof {
            reveal_strlit("{{");
            reveal_strlit("}}");
        }
        push_str(&mut tok, "{{");
        push_str(&mut tok, key.as_str());
        push_str(&mut tok, "}}");
        assert(tok@ =~= token(vars[i as int].0));
        assert(vars.skip(i as int).drop_first() =~= vars.skip(i + 1));
        result = str_replace(result.as_str(), tok.as_str(), value.as_str());
        i = i + 1;
    }
    assert(vars.skip(ctx.custom@.len() as int) =~= Seq::<(Seq<char>, Seq<char>)>::empty());
    result
}

proof fn lemma_render_custom_absent(t: Seq<char>, vars: Seq<(Seq<char>, Seq<char>)>)
    requires
        forall|i: int| 0 <= i < vars.len() ==> !contains_seq(t, token(#[trigger] vars[i].0)),
    ensures
        render_custom(t, vars) == t,
    decreases vars.len(),
{
    if vars.len() > 0 {
        assert(!contains_seq(t, token(vars[0].0)));
        lemma_replace_absent(t, token(vars[0].0), vars[0].1);
        let rest = vars.drop_first();
        assert forall|i: int| 0 <= i < rest.len() implies !contains_seq(t, token(#[trigger] rest[i].0)) by {
            assert(rest[i] == vars[i + 1]);
        }
        lemma_render_custom_absent(t, rest);
    }
}

/// Unknown variables are passed through unchanged: a template that refers to
/// no built-in variable and to no user-defined variable renders to itself.
pub proof fn law_render_keeps_unknown_variables(t: Seq<char>, ctx: TemplateContext)
    requires
        no_known_token(t, pairs_view(ctx.custom@)),
    ensures
        render_spec(t, ctx) == t,
{
    reveal_strlit("file");
    reveal_strlit("date");
    reveal_strlit("year");
    reveal_strlit("author");
    reveal_strlit("project");
    reveal_strlit("filename");
    reveal_strlit("ext");
    reveal_strlit("{{file}}");
    reveal_strlit("{{date}}");
    reveal_strlit("{{year}}");
    reveal_strlit("{{author}}");
    reveal_strlit("{{project}}");
    reveal_strlit("{{filename}}");
    reveal_strlit("{{ext}}");
    let names = builtin_names();
    assert(token(names[0]) =~= "{{file}}"@);
    assert(token(names[1]) =~= "{{date}}"@);
    assert(token(names[2]) =~= "{{year}}"@);
    assert(token(names[3]) =~= "{{author}}"@);
    assert(token(names[4]) =~= "{{project}}"@);
    assert(token(names[5]) =~= "{{filename}}"@);
    assert(token(names[6]) =~= "{{ext}}"@);
    lemma_replace_absent(t, "{{file}}"@, ctx.file@);
    lemma_replace_absent(t, "{{date}}"@, ctx.date@);
    lemma_replace_absent(t, "{{year}}"@, ctx.year@);
    lemma_replace_absent(t, "{{author}}"@, ctx.author@);
    lemma_replace_absent(t, "{{project}}"@, ctx.project@);
    lemma_replace_absent(t, "{{filename}}"@, ctx.filename@);
    lemma_replace_absent(t, "{{ext}}"@, ctx.ext@);
    lemma_render_custom_absent(t, pairs_view(ctx.custom@));
}

/// A template that does not begin with `{` keeps its first character when
/// rendered: every variable reference begins with `{`.
pub proof fn lemma_render_keeps_first(t: Seq<char>, ctx: TemplateContext)
    requires
        t.len() > 0,
        t[0] != '{',
    ensures
        render_spec(t, ctx).len() > 0,
        render_spec(t, ctx)[0] == t[0],
{
    reveal_strlit("{{file}}");
    reveal_strlit("{{date}}");
    reveal_strlit("{{year}}");
    reveal_strlit("{{author}}");
    reveal_strlit("{{project}}");
    reveal_strlit("{{filename}}");
    reveal_strlit("{{ext}}");
    let s1 = replace_all(t, "{{file}}"@, ctx.file@);
    lemma_replace_keeps_first(t, "{{file}}"@, ctx.file@);
    let s2 = replace_all(s1, "{{date}}"@, ctx.date@);
    lemma_replace_keeps_first(s1, "{{date}}"@, ctx.date@);
    let s3 = replace_all(s2, "{{year}}"@, ctx.year@);
    lemma_replace_keeps_first(s2, "{{year}}"@, ctx.year@);
    let s4 = replace_all(s3, "{{author}}"@, ctx.author@);
    lemma_replace_keeps_first(s3, "{{author}}"@, ctx.author@);
    let s5 = replace_all(s4, "{{project}}"@, ctx.project@);
    lemma_replace_keeps_first(s4, "{{project}}"@, ctx.project@);
    let s6 = replace_all(s5, "{{filename}}"@, ctx.filename@);
    lemma_replace_keeps_first(s5, "{{filename}}"@, ctx.filename@);
    let s7 = replace_all(s6, "{{ext}}"@, ctx.ext@);
    lemma_replace_keeps_first(s6, "{{ext}}"@, ctx.ext@);
    lemma_custom_keeps_first(s7, pairs_view(ctx.custom@));
}

proof fn lemma_custom_keeps_first(s: Seq<char>, vars: Seq<(Seq<char>, Seq<char>)>)
    requires
        s.len() > 0,
        s[0] != '{',
    ensures
        render_custom(s, vars).len() > 0,
        render_custom(s, vars)[0] == s[0],
    decreases vars.len(),
{
    if vars.len() > 0 {
        lemma_replace_keeps_first(s, token(vars[0].0), vars[0].1);
        lemma_custom_keeps_first(replace_all(s, token(vars[0].0), vars[0].1), vars.drop_first());
    }
}

/// No value of `ctx` holds the character `c`.
pub open spec fn values_without(ctx: TemplateContext, c: char) -> bool {
    &&& forall|i: int| 0 <= i < ctx.file@.len() ==> ctx.file@[i] != c
    &&& forall|i: int| 0 <= i < ctx.date@.len() ==> ctx.date@[i] != c
    &&& forall|i: int| 0 <= i < ctx.year@.len() ==> ctx.year@[i] != c
    &&& forall|i: int| 0 <= i < ctx.author@.len() ==> ctx.author@[i] != c
    &&& forall|i: int| 0 <= i < ctx.project@.len() ==> ctx.project@[i] != c
    &&& forall|i: int| 0 <= i < ctx.filename@.len() ==> ctx.filename@[i] != c
    &&& forall|i: int| 0 <= i < ctx.ext@.len() ==> ctx.ext@[i] != c
    &&& forall|k: int, i: int|
        0 <= k < ctx.custom@.len() && 0 <= i < ctx.custom@[k].1@.len() ==> #[trigger] ctx.custom@[k].1@[i] != c
}

/// Rendering brings in no character that neither the template nor a value
/// of the context holds.
pub proof fn lemma_render_without(t: Seq<char>, ctx: TemplateContext, c: char)
    requires
        forall|i: int| 0 <= i < t.len() ==> t[i] != c,
        values_without(ctx, c),
    ensures
        forall|i: int| 0 <= i < render_spec(t, ctx).len() ==> #[trigger] render_spec(t, ctx)[i] != c,
{
    let s1 = replace_all(t, "{{file}}"@, ctx.file@);
    lemma_replace_chars_from(t, "{{file}}"@, ctx.file@, c);
    let s2 = replace_all(s1, "{{date}}"@, ctx.date@);
    lemma_replace_chars_from(s1, "{{date}}"@, ctx.date@, c);
    let s3 = replace_all(s2, "{{year}}"@, ctx.year@);
    lemma_replace_chars_from(s2, "{{year}}"@, ctx.year@, c);
    let s4 = replace_all(s3, "{{author}}"@, ctx.author@);
    lemma_replace_chars_from(s3, "{{author}}"@, ctx.author@, c);
    let s5 = replace_all(s4, "{{project}}"@, ctx.project@);
    lemma_replace_chars_from(s4, "{{project}}"@, ctx.project@, c);
    let s6 = replace_all(s5, "{{filename}}"@, ctx.filename@);
    lemma_replace_chars_from(s5, "{{filename}}"@, ctx.filename@, c);
    let s7 = replace_all(s6, "{{ext}}"@, ctx.ext@);
    lemma_replace_chars_from(s6, "{{ext}}"@, ctx.ext@, c);
    let pv = pairs_view(ctx.custom@);
    assert forall|k: int, i: int| 0 <= k < pv.len() && 0 <= i < pv[k].1.len() implies #[trigger] pv[k].1[i] != c by {
        assert(pv[k].1 == ctx.custom@[k].1@);
        assert(ctx.custom@[k].1@[i] != c);
    }
    lemma_custom_without(s7, pv, c);
}

proof fn lemma_custom_without(s: Seq<char>, vars: Seq<(Seq<char>, Seq<char>)>, c: char)
    requires
        forall|i: int| 0 <= i < s.len() ==> s[i] != c,
        forall|k: int, i: int| 0 <= k < vars.len() && 0 <= i < vars[k].1.len() ==> #[trigger] vars[k].1[i] != c,
    ensures
        forall|i: int| 0 <= i < render_custom(s, vars).len() ==> #[trigger] render_custom(s, vars)[i] != c,
    decreases vars.len(),
{
    if vars.len() > 0 {
        assert forall|i: int| 0 <= i < vars[0].1.len() implies vars[0].1[i] != c by {
            assert(vars[0].1[i] != c);
        }
        lemma_replace_chars_from(s, token(vars[0].0), vars[0].1, c);
        let rest = vars.drop_first();
        assert forall|k: int, i: int| 0 <= k < rest.len() && 0 <= i < rest[k].1.len() implies #[trigger] rest[k].1[i] != c by {
            assert(rest[k] == vars[k + 1]);
            assert(vars[k + 1].1[i] != c);
        }
        lemma_custom_without(replace_all(s, token(vars[0].0), vars[0].1), rest, c);
        assert(render_custom(s, vars) == render_custom(replace_all(s, token(vars[0].0), vars[0].1), rest));
    } else {
        assert(render_custom(s, vars) == s);
        assert forall|i: int| 0 <= i < render_custom(s, vars).len() implies #[trigger] render_custom(s, vars)[i] != c by {
            assert(s[i] != c);
        }
    }
}

// ---------------------------------------------------------------------------
// Building a context
// ---------------------------------------------------------------------------

/// Whether chrono accepts `fmt` as a strftime format string.
pub uninterp spec fn strftime_valid(fmt: Seq<char>) -> bool;

/// `chrono::format::StrftimeItems::new(fmt).parse()`: trusted to succeed
/// exactly on the format strings named valid; which strings those are (the
/// strftime specifier table) is not stated.
#[verifier::external_body]
fn strftime_is_valid(fmt: &str) -> (r: bool)
    ensures
        r == strftime_valid(fmt@),
{
    match chrono::format::StrftimeItems::new(fmt).parse() {
        Ok(_) => true,
        Err(_) => false,
    }
}

/// The text chrono writes for `%Y`: the year, four digits with zeros in
/// front for the years 0 to 9999, and otherwise a sign and at least four
/// digits.
pub open spec fn year_text(s: Seq<char>) -> bool {
    &&& s.len() >= 4
    &&& ('0' <= s[0] <= '9' || s[0] == '+' || s[0] == '-')
    &&& forall|i: int| 1 <= i < s.len() ==> '0' <= #[trigger] s[i] <= '9'
}

/// A date format whose text is never empty: it begins with `%Y` (the
/// year's digits come first) or with a character other than `%` (written
/// out as it is).
pub open spec fn leads_with_text(fmt: Seq<char>) -> bool {
    fmt.len() > 0 && (fmt[0] != '%' || (fmt.len() >= 2 && fmt[1] == 'Y'))
}

/// What is known of the text of the format `fmt`: the year for `%Y`, and
/// some text for a format that leads with text.
pub open spec fn now_text(fmt: Seq<char>, s: Seq<char>) -> bool {
    &&& fmt == "%Y"@ ==> year_text(s)
    &&& leads_with_text(fmt) ==> s.len() > 0
}

/// `chrono::Local::now()`, read once and formatted twice (`format(..)`,
/// written out with `DelayedFormat::write_to`), in `first` and in `second`;
/// `None` when either fails to format. A format can fail although chrono
/// parses it (`%#z` is parse-only), so success is not stated. Of the texts
/// only this is stated: `%Y` writes the year as chrono's `write_year` does,
/// and a format that begins with `%Y` or with a plain character writes
/// something. The rest depends on the clock and the time zone and is not
/// stated.
#[verifier::external_body]
pub(crate) fn format_local_now(first: &str, second: &str) -> (r: Option<(String, String)>)
    ensures
        r matches Some(t) ==> now_text(first@, t.0@) && now_text(second@, t.1@),
{
    let now = chrono::Local::now();
    let mut a = String::new();
    let mut b = String::new();
    match (now.format(first).write_to(&mut a), now.format(second).write_to(&mut b)) {
        (Ok(()), Ok(())) => Some((a, b)),
        _ => None,
    }
}

/// `Some(x)`'s value, or the empty string.
fn or_empty(o: Option<String>) -> (r: String)
    ensures
        r@ == (match o {
            Some(s) => s@,
            None => Seq::<char>::empty(),
        }),
{
    match o {
        Some(s) => s,
        None => String::new(),
    }
}

/// The text a missing path part stands for: the part, or nothing.
pub open spec fn part_or_empty(o: Option<Seq<char>>) -> Seq<char> {
    match o {
        Some(s) => s,
        None => Seq::<char>::empty(),
    }
}

/// `ctx` is the context of the file at `rel_path` with the given date and
/// year texts and the given author, project and variables.
pub open spec fn context_of(
    ctx: TemplateContext,
    rel_path: Seq<char>,
    date: Seq<char>,
    year: Seq<char>,
    author: Seq<char>,
    project: Seq<char>,
    custom: Seq<(String, String)>,
) -> bool {
    &&& ctx.file@ == slashed(rel_path)
    &&& ctx.date@ == date
    &&& ctx.year@ == year
    &&& ctx.author@ == author
    &&& ctx.project@ == project
    &&& ctx.filename@ == part_or_empty(file_stem_of(rel_path))
    &&& ctx.ext@ == part_or_empty(extension_of(rel_path))
    &&& ctx.custom@ == custom
}

impl TemplateContext {
    /// The context of the file at `rel_path`, with the date and year already
    /// written out.
    pub fn with_date(
        rel_path: &str,
        date: String,
        year: String,
        author: String,
        project: String,
        custom: Vec<(String, String)>,
    ) -> (r: Self)
        ensures
            context_of(r, rel_path@, date@, year@, author@, project@, custom@),
    {
        let file = to_slashes(rel_path);
        let filename = or_empty(file_stem(rel_path));
        let ext = or_empty(extension(rel_path));
        TemplateContext { file, date, year, author, project, filename, ext, custom }
    }

    /// The context of the file at `rel_path`, dated now (the clock is read
    /// once): `date` in `date_format`, `year` as `%Y`. When chrono cannot
    /// format `date_format` although it parses it (a parse-only specifier
    /// such as `%#z`), date and year are left empty.
    pub fn new(
        rel_path: &str,
        date_format: &str,
        author: String,
        project: String,
        custom: Vec<(String, String)>,
    ) -> (r: Self)
        requires
            strftime_valid(date_format@),
        ensures
            context_of(r, rel_path@, r.date@, r.year@, author@, project@, custom@),
            (r.date@.len() == 0 && r.year@.len() == 0) || (year_text(r.year@) && (leads_with_text(
                date_format@,
            ) ==> r.date@.len() > 0)),
    {
        let (date, year) = match format_local_now(date_format, "%Y") {
            Some(t) => t,
            None => (String::new(), String::new()),
        };
        proof {
            reveal_strlit("%Y");
        }
        TemplateContext::with_date(rel_path, date, year, author, project, custom)
    }

    /// The context of the file at `rel_path`, dated now, when chrono
    /// accepts `date_format` and formats it; `None` otherwise.
    pub fn try_new(
        rel_path: &str,
        date_format: &str,
        author: String,
        project: String,
        custom: Vec<(String, String)>,
    ) -> (r: Option<Self>)
        ensures
            !strftime_valid(date_format@) ==> r is None,
            r matches Some(c) ==> context_of(c, rel_path@, c.date@, c.year@, author@, project@, custom@)
                && year_text(c.year@) && (leads_with_text(date_format@) ==> c.date@.len() > 0),
    {
        if !strftime_is_valid(date_format) {
            return None;
        }
        proof {
            reveal_strlit("%Y");
        }
        match format_local_now(date_format, "%Y") {
            None => None,
            Some((date, year)) => Some(TemplateContext::with_date(rel_path, date, year, author, project, custom)),
        }
    }
}

} // verus!
