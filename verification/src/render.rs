use crate::cmd::{cmd_view, one_past_last_slash, rendered_spec, Cmd};
use crate::parse::{body_spec, description_spec, parse_description};
use crate::text::{push_spaces, spaces, trim_spec, trim_str};
use vstd::prelude::*;

verus! {

// ---------------------------------------------------------------------------
// Help-body preprocessing (pattern substitutions)
// ---------------------------------------------------------------------------

/// What `regex::Regex::replace_all` returns for a pattern, a replacement and
/// a text: a function of the three strings alone.
pub uninterp spec fn regex_replaced(pat: Seq<char>, rep: Seq<char>, text: Seq<char>) -> Seq<char>;

/// Whether `regex::Regex::new` accepts a pattern: a function of the pattern
/// string alone.
pub uninterp spec fn regex_pattern_ok(pat: Seq<char>) -> bool;

/// Relies on `regex::Regex::new` and `regex::Regex::replace_all`: replaces
/// every non-overlapping match of `pat` in `text` with `rep`; `None` exactly
/// when `pat` is not a valid pattern.
#[verifier::external_body]
fn regex_replace_all(pat: &str, rep: &str, text: &str) -> (r: Option<String>)
    ensures
        match r {
            Some(t) => regex_pattern_ok(pat@) && t@ == regex_replaced(pat@, rep@, text@),
            None => !regex_pattern_ok(pat@),
        },
{
    match regex::Regex::new(pat) {
        Ok(re) => Some(re.replace_all(text, rep).into_owned()),
        Err(_) => None,
    }
}

/// Every pattern of the rule list is one that the pattern engine accepts.
pub open spec fn rules_ok(rules: Seq<(Seq<char>, Seq<char>)>) -> bool {
    forall|x: int| 0 <= x < rules.len() ==> regex_pattern_ok((#[trigger] rules[x]).0)
}

/// The substitution rules applied in order, each over the previous result.
pub open spec fn apply_rules(rules: Seq<(Seq<char>, Seq<char>)>, s: Seq<char>) -> Seq<char>
    decreases rules.len(),
{
    if rules.len() == 0 {
        s
    } else {
        apply_rules(rules.subrange(1, rules.len() as int), regex_replaced(rules[0].0, rules[0].1, s))
    }
}

/// The shipped substitution configuration: no rules, an extension point.
pub fn default_replacements() -> (r: Vec<(String, String)>)
    ensures
        r@.len() == 0,
{
    Vec::new()
}

/// Applies each (pattern, replacement) rule in order to a help body; `None`
/// exactly when some pattern is not a valid one.
pub fn preprocess_help(s: &str, rules: &Vec<(String, String)>) -> (r: Option<String>)
    ensures
        match r {
            Some(t) => t@ == apply_rules(rules.deep_view(), s@),
            None => true,
        },
        (r is Some) <==> rules_ok(rules.deep_view()),
{
    let ghost rv = rules.deep_view();
    let mut cur: String = s.to_owned();
    let mut i: usize = 0;
    proof {
        assert(rv.subrange(0, rv.len() as int) =~~= rv);
    }
    while i < rules.len()
        invariant
            0 <= i <= rv.len(),
            rv == rules.deep_view(),
            rv.len() == rules@.len(),
            apply_rules(rv, s@) == apply_rules(rv.subrange(i as int, rv.len() as int), cur@),
            forall|x: int| 0 <= x < i ==> regex_pattern_ok((#[trigger] rv[x]).0),
        decreases rv.len() - i,
    {
        let ghost tailv = rv.subrange(i as int, rv.len() as int);
        proof {
            assert(tailv[0] == rv[i as int]);
            assert(tailv.subrange(1, tailv.len() as int) =~~= rv.subrange(i + 1, rv.len() as int));
        }
        let rule = &rules[i];
        match regex_replace_all(rule.0.as_str(), rule.1.as_str(), cur.as_str()) {
            Some(next) => {
                proof {
                    assert(rv[i as int].0 == rules@[i as int].0@);
                }
                cur = next;
            },
            None => {
                proof {
                    assert(!regex_pattern_ok(rv[i as int].0));
                }
                return None;
            },
        }
        i += 1;
    }
    Some(cur)
}

// ---------------------------------------------------------------------------
// Per-command document
// ---------------------------------------------------------------------------

/// The markdown body for one command's help output: the description, then a
/// fenced block with the literal invocation and the preprocessed usage body.
pub open spec fn help_markdown_spec(
    v: (Seq<char>, Seq<Seq<char>>),
    stdout: Seq<char>,
    rules: Seq<(Seq<char>, Seq<char>)>,
) -> Seq<char> {
    description_spec(stdout) + "\n\n```bash\n$ "@ + rendered_spec(v) + " --help\n"@ + apply_rules(
        rules,
        trim_spec(body_spec(stdout)),
    ) + "\n```"@
}

/// Renders the markdown body for one command's help output; `None` exactly
/// when a substitution pattern is invalid.
pub fn help_markdown(cmd: &Cmd, stdout: &str, rules: &Vec<(String, String)>) -> (r: Option<String>)
    ensures
        match r {
            Some(t) => t@ == help_markdown_spec(cmd_view(*cmd), stdout@, rules.deep_view()),
            None => true,
        },
        (r is Some) <==> rules_ok(rules.deep_view()),
{
    let (description, rest) = parse_description(stdout);
    let trimmed = trim_str(rest);
    match preprocess_help(trimmed, rules) {
        None => None,
        Some(processed) => {
            let mut out: String = description.to_owned();
            out.append("\n\n```bash\n$ ");
            let rend = cmd.rendered();
            out.append(rend.as_str());
            out.append(" --help\n");
            out.append(processed.as_str());
            out.append("\n```");
            Some(out)
        },
    }
}

/// The rendered form with each space replaced by a path separator.
pub open spec fn slashify(s: Seq<char>) -> Seq<char> {
    Seq::new(s.len(), |i: int| if s[i] == ' ' { '/' } else { s[i] })
}

/// The path-safe form of a command: its rendered form with spaces replaced
/// by path separators.
pub open spec fn path_safe_spec(v: (Seq<char>, Seq<Seq<char>>)) -> Seq<char> {
    slashify(rendered_spec(v))
}

pub fn slashify_str(s: &str) -> (r: String)
    ensures
        r@ == slashify(s@),
{
    let n = s.unicode_len();
    let mut out = String::new();
    let mut i: usize = 0;
    proof {
        assert(out@ =~= slashify(s@).subrange(0, 0));
    }
    while i < n
        invariant
            0 <= i <= n,
            n == s@.len(),
            out@ == slashify(s@).subrange(0, i as int),
        decreases n - i,
    {
        let c = s.get_char(i);
        if c == ' ' {
            crate::text::push_char(&mut out, '/');
        } else {
            crate::text::push_char(&mut out, c);
        }
        proof {
            assert(out@ =~= slashify(s@).subrange(0, i + 1));
        }
        i += 1;
    }
    proof {
        assert(slashify(s@).subrange(0, n as int) =~= slashify(s@));
    }
    out
}

/// The index of the last `.` of `p` strictly after `base`, if any.
pub open spec fn last_dot_after(p: Seq<char>, base: int) -> Option<int>
    decreases p.len(),
{
    if p.len() == 0 || p.len() <= base + 1 {
        None
    } else if p[p.len() - 1] == '.' {
        Some(p.len() - 1)
    } else {
        last_dot_after(p.drop_last(), base)
    }
}

/// The document path of a command, relative to the output directory: its
/// path-safe form with the final component's extension replaced by `md`, or
/// with `.md` appended when that component has no extension.
pub open spec fn md_path_spec(v: (Seq<char>, Seq<Seq<char>>)) -> Seq<char> {
    let p = path_safe_spec(v);
    match last_dot_after(p, one_past_last_slash(p)) {
        None => p + ".md"@,
        Some(k) => p.subrange(0, k) + ".md"@,
    }
}

/// The document path of a command, relative to the output directory.
pub fn md_path(cmd: &Cmd) -> (r: String)
    ensures
        r@ == md_path_spec(cmd_view(*cmd)),
{
    let rend = cmd.rendered();
    let path = slashify_str(rend.as_str());
    let p = path.as_str();
    let base = crate::cmd::one_past_last_slash_idx(p);
    let n = p.unicode_len();
    let mut k: usize = n;
    proof {
        assert(p@.subrange(0, n as int) =~= p@);
    }
    while k > 0 && k - 1 > base && p.get_char(k - 1) != '.'
        invariant
            0 <= k <= n,
            base <= n,
            n == p@.len(),
            last_dot_after(p@, base as int) == last_dot_after(
                p@.subrange(0, k as int),
                base as int,
            ),
        decreases k,
    {
        proof {
            assert(p@.subrange(0, k as int).drop_last() =~= p@.subrange(0, k - 1));
        }
        k -= 1;
    }
    let cut: usize = if k > 0 && k - 1 > base {
        k - 1
    } else {
        n
    };
    let mut out: String = p.substring_char(0, cut).to_owned();
    out.append(".md");
    proof {
        if k > 0 && k - 1 > base {
            assert(last_dot_after(p@.subrange(0, k as int), base as int) == Some(k - 1));
        } else {
            assert(p@.subrange(0, k as int).len() <= base + 1);
        }
    }
    out
}

/// The full markdown document for one command: a title line with its
/// rendered form, then the help body.
pub open spec fn doc_content_spec(
    v: (Seq<char>, Seq<Seq<char>>),
    stdout: Seq<char>,
    rules: Seq<(Seq<char>, Seq<char>)>,
) -> Seq<char> {
    "# "@ + rendered_spec(v) + "\n\n"@ + help_markdown_spec(v, stdout, rules)
}

/// Renders one command's document: its path relative to the output directory
/// and its content; `None` exactly when a substitution pattern is invalid.
pub fn cmd_markdown(cmd: &Cmd, stdout: &str, rules: &Vec<(String, String)>) -> (r: Option<
    (String, String),
>)
    ensures
        match r {
            Some(pc) => pc.0@ == md_path_spec(cmd_view(*cmd)) && pc.1@ == doc_content_spec(
                cmd_view(*cmd),
                stdout@,
                rules.deep_view(),
            ),
            None => true,
        },
        (r is Some) <==> rules_ok(rules.deep_view()),
{
    match help_markdown(cmd, stdout, rules) {
        None => None,
        Some(body) => {
            let path = md_path(cmd);
            let mut content: String = String::new();
            content.append("# ");
            let rend = cmd.rendered();
            content.append(rend.as_str());
            content.append("\n\n");
            content.append(body.as_str());
            Some((path, content))
        },
    }
}

// ---------------------------------------------------------------------------
// Summary listing
// ---------------------------------------------------------------------------

/// The view of an optional root prefix.
pub open spec fn opt_str_view(o: Option<&str>) -> Option<Seq<char>> {
    match o {
        None => None,
        Some(s) => Some(s@),
    }
}

/// The indentation of a command's summary line: the base indent plus two
/// spaces per nesting level.
pub open spec fn indent_of(v: (Seq<char>, Seq<Seq<char>>), base: int) -> int {
    base + 2 * v.1.len()
}

/// One line of the summary listing: indentation, then a markdown link from
/// the command's rendered form to its document path, optionally below a
/// root-relative directory.
pub open spec fn summary_line_spec(
    root: Option<Seq<char>>,
    v: (Seq<char>, Seq<Seq<char>>),
    indent: int,
) -> Seq<char> {
    let target = match root {
        None => path_safe_spec(v),
        Some(r) => r + "/"@ + path_safe_spec(v),
    };
    spaces(indent_of(v, indent)) + "- [`"@ + rendered_spec(v) + "`](./"@ + target + ".md)\n"@
}

/// Renders one summary line for a command.
pub fn cmd_summary(md_root: Option<&str>, cmd: &Cmd, indent: usize) -> (r: String)
    requires
        indent + 2 * cmd.subcommands@.len() <= usize::MAX,
    ensures
        r@ == summary_line_spec(opt_str_view(md_root), cmd_view(*cmd), indent as int),
{
    let rend = cmd.rendered();
    let path = slashify_str(rend.as_str());
    let ind: usize = indent + 2 * cmd.subcommands.len();
    let mut out = String::new();
    push_spaces(&mut out, ind);
    out.append("- [`");
    out.append(rend.as_str());
    out.append("`](./");
    match md_root {
        Some(root) => {
            out.append(root);
            out.append("/");
        },
        None => {},
    }
    out.append(path.as_str());
    out.append(".md)\n");
    proof {
        assert(out@ =~= summary_line_spec(opt_str_view(md_root), cmd_view(*cmd), indent as int));
    }
    out
}

/// The whole summary listing: one line per discovered command, in mapping
/// order.
pub open spec fn summary_spec(
    es: Seq<(Cmd, String)>,
    root: Option<Seq<char>>,
    indent: int,
) -> Seq<char>
    decreases es.len(),
{
    if es.len() == 0 {
        Seq::empty()
    } else {
        summary_line_spec(root, cmd_view(es[0].0), indent) + summary_spec(
            es.subrange(1, es.len() as int),
            root,
            indent,
        )
    }
}

pub proof fn lemma_summary_spec_snoc(
    es: Seq<(Cmd, String)>,
    e: (Cmd, String),
    root: Option<Seq<char>>,
    indent: int,
)
    ensures
        summary_spec(es.push(e), root, indent) == summary_spec(es, root, indent)
            + summary_line_spec(root, cmd_view(e.0), indent),
    decreases es.len(),
{
    let w = es.push(e);
    if es.len() == 0 {
        assert(w.subrange(1, w.len() as int) =~= Seq::<(Cmd, String)>::empty());
        assert(summary_spec(Seq::<(Cmd, String)>::empty(), root, indent) == Seq::<char>::empty());
        assert(w[0] == e);
        assert(summary_spec(w, root, indent) =~= summary_spec(es, root, indent)
            + summary_line_spec(root, cmd_view(e.0), indent));
    } else {
        assert(w.subrange(1, w.len() as int) =~= es.subrange(1, es.len() as int).push(e));
        lemma_summary_spec_snoc(es.subrange(1, es.len() as int), e, root, indent);
        assert(summary_spec(w, root, indent) =~= summary_spec(es, root, indent)
            + summary_line_spec(root, cmd_view(e.0), indent));
    }
}

/// Renders the summary listing for a completed discovery, in its order.
pub fn render_summary(entries: &Vec<(Cmd, String)>, md_root: Option<&str>, indent: usize) -> (r:
    String)
    requires
        forall|i: int|
            0 <= i < entries@.len() ==> indent + 2 * entries@[i].0.subcommands@.len()
                <= usize::MAX,
    ensures
        r@ == summary_spec(entries@, opt_str_view(md_root), indent as int),
{
    let mut out = String::new();
    let mut i: usize = 0;
    proof {
        assert(entries@.subrange(0, 0) =~= Seq::<(Cmd, String)>::empty());
    }
    while i < entries.len()
        invariant
            0 <= i <= entries@.len(),
            forall|k: int|
                0 <= k < entries@.len() ==> indent + 2 * entries@[k].0.subcommands@.len()
                    <= usize::MAX,
            out@ == summary_spec(entries@.subrange(0, i as int), opt_str_view(md_root), indent as int),
        decreases entries@.len() - i,
    {
        let e = &entries[i];
        let line = cmd_summary(md_root, &e.0, indent);
        out.append(line.as_str());
        proof {
            lemma_summary_spec_snoc(
                entries@.subrange(0, i as int),
                entries@[i as int],
                opt_str_view(md_root),
                indent as int,
            );
            assert(entries@.subrange(0, i as int).push(entries@[i as int]) =~= entries@.subrange(
                0,
                i + 1,
            ));
        }
        i += 1;
    }
    proof {
        assert(entries@.subrange(0, entries@.len() as int) =~= entries@);
    }
    out
}

/// Renders the standalone summary document: the listing with a final blank
/// line.
pub fn render_summary_doc(entries: &Vec<(Cmd, String)>) -> (r: String)
    requires
        forall|i: int| 0 <= i < entries@.len() ==> 2 * entries@[i].0.subcommands@.len() <= usize::MAX,
    ensures
        r@ == summary_spec(entries@, None, 0) + "\n"@,
{
    let mut out = render_summary(entries, None, 0);
    out.append("\n");
    out
}

// ---------------------------------------------------------------------------
// Root summary
// ---------------------------------------------------------------------------

/// What `pathdiff::diff_paths` returns for a pair of paths: a function of
/// the two path strings alone.
pub uninterp spec fn rel_path_of(path: Seq<char>, base: Seq<char>) -> Option<Seq<char>>;

/// Relies on `pathdiff::diff_paths`: computes the relative path that leads
/// from `base` to `path`, from the two strings alone.
#[verifier::external_body]
fn diff_paths_str(path: &str, base: &str) -> (r: Option<String>)
    ensures
        match r {
            Some(p) => rel_path_of(path@, base@) == Some(p@),
            None => rel_path_of(path@, base@) is None,
        },
{
    pathdiff::diff_paths(path, base).map(|p| p.to_string_lossy().into_owned())
}

/// Renders the summary listing with document paths resolved relative to a
/// separate root directory, for the index merge.
pub fn render_root_summary(
    entries: &Vec<(Cmd, String)>,
    out_dir: &str,
    root_dir: &str,
    indent: usize,
) -> (r: String)
    requires
        forall|i: int|
            0 <= i < entries@.len() ==> indent + 2 * entries@[i].0.subcommands@.len()
                <= usize::MAX,
    ensures
        r@ == summary_spec(entries@, rel_path_of(out_dir@, root_dir@), indent as int),
{
    match diff_paths_str(out_dir, root_dir) {
        Some(p) => render_summary(entries, Some(p.as_str()), indent),
        None => render_summary(entries, None, indent),
    }
}

// ---------------------------------------------------------------------------
// Readme
// ---------------------------------------------------------------------------

/// The static readme that points at the generated summary.
pub fn readme_text() -> (r: &'static str)
    ensures
        r@ == "# CLI Reference\n\nAutomatically-generated CLI reference from `--help` output.\n\n{{#include ./SUMMARY.md}}\n"@,
{
    "# CLI Reference\n\nAutomatically-generated CLI reference from `--help` output.\n\n{{#include ./SUMMARY.md}}\n"
}

// ---------------------------------------------------------------------------
// Indentation laws
// ---------------------------------------------------------------------------

/// With a fixed base indent, a summary line's indentation never decreases
/// when nesting depth does not decrease.
pub proof fn lemma_indent_monotone(
    v1: (Seq<char>, Seq<Seq<char>>),
    v2: (Seq<char>, Seq<Seq<char>>),
    base: int,
)
    requires
        v1.1.len() <= v2.1.len(),
    ensures
        indent_of(v1, base) <= indent_of(v2, base),
{
}

/// A command's summary line starts with exactly its indentation in spaces,
/// followed by the list marker.
pub proof fn lemma_summary_line_shape(
    root: Option<Seq<char>>,
    v: (Seq<char>, Seq<Seq<char>>),
    base: int,
)
    requires
        base >= 0,
    ensures
        forall|k: int| 0 <= k < indent_of(v, base) ==> summary_line_spec(root, v, base)[k] == ' ',
        summary_line_spec(root, v, base)[indent_of(v, base)] == '-',
{
    reveal_strlit("- [`");
    let line = summary_line_spec(root, v, base);
    let ind = indent_of(v, base);
    assert(spaces(ind).len() == ind);
    assert forall|k: int| 0 <= k < ind implies line[k] == ' ' by {
        assert(line[k] == spaces(ind)[k]);
    }
    assert((spaces(ind) + "- [`"@)[ind] == "- [`"@[0]);
    assert(line[ind] == (spaces(ind) + "- [`"@)[ind]);
}

/// A child command's summary line is indented exactly two spaces past its
/// parent's, hence strictly deeper; and each of the two lines consists of
/// exactly its own indentation in spaces followed by the list marker.
pub proof fn lemma_summary_indentation(
    root: Option<Seq<char>>,
    parent: (Seq<char>, Seq<Seq<char>>),
    child: (Seq<char>, Seq<Seq<char>>),
    base: int,
    seg: Seq<char>,
)
    requires
        base >= 0,
        child.1 == parent.1.push(seg),
    ensures
        indent_of(child, base) == indent_of(parent, base) + 2,
        indent_of(child, base) > indent_of(parent, base),
        forall|k: int|
            0 <= k < indent_of(child, base) ==> summary_line_spec(root, child, base)[k] == ' ',
        summary_line_spec(root, child, base)[indent_of(child, base)] == '-',
        summary_line_spec(root, parent, base)[indent_of(parent, base)] == '-',
{
    lemma_summary_line_shape(root, child, base);
    lemma_summary_line_shape(root, parent, base);
}

} // verus!
