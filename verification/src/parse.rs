use crate::text::{
    find, find_from, first_line_spec, first_ws_from, is_ws, is_ws_char, lemma_find_from_some,
    match_at, split_lines, split_lines_spec, trim_spec, trim_str, first_line_str,
};
use vstd::prelude::*;

verus! {

// ---------------------------------------------------------------------------
// Description / body split
// ---------------------------------------------------------------------------

/// The position of the first `Usage:` token in a help text.
pub open spec fn usage_pos(s: Seq<char>) -> Option<int> {
    find_from(s, "Usage:"@, 0)
}

/// The usage-and-body part: everything from the first `Usage:` on, or the
/// whole text when there is no `Usage:` token.
pub open spec fn body_spec(s: Seq<char>) -> Seq<char> {
    match usage_pos(s) {
        None => s,
        Some(i) => s.subrange(i, s.len() as int),
    }
}

/// The one-line description: the first line of the trimmed text before the
/// first `Usage:` token, or empty when there is no `Usage:` token.
pub open spec fn description_spec(s: Seq<char>) -> Seq<char> {
    match usage_pos(s) {
        None => Seq::empty(),
        Some(i) => first_line_spec(trim_spec(s.subrange(0, i))),
    }
}

/// Splits a help text into its one-line description and its usage body.
pub fn parse_description<'a>(s: &'a str) -> (r: (&'a str, &'a str))
    ensures
        r.0@ == description_spec(s@),
        r.1@ == body_spec(s@),
        usage_pos(s@) is None ==> r.0@.len() == 0 && r.1@ == s@,
{
    let n = s.unicode_len();
    match find(s, "Usage:") {
        None => {
            proof {
                reveal_strlit("");
                assert(""@ =~= Seq::<char>::empty());
            }
            ("", s)
        },
        Some(i) => {
            proof {
                lemma_find_from_some(s@, "Usage:"@, 0, i as int);
            }
            let pre = s.substring_char(0, i);
            let desc = first_line_str(trim_str(pre));
            let body = s.substring_char(i, n);
            (desc, body)
        },
    }
}

// ---------------------------------------------------------------------------
// Subcommand extraction
// ---------------------------------------------------------------------------

/// A line that ends the `Commands:` section.
pub open spec fn is_stop_line(l: Seq<char>) -> bool {
    match_at(l, "Options:"@, 0) || match_at(l, "Arguments:"@, 0)
}

/// The subcommand name on one line of a `Commands:` section: exactly two
/// leading spaces followed by a non-whitespace token.
pub open spec fn line_token(l: Seq<char>) -> Option<Seq<char>> {
    if l.len() > 2 && l[0] == ' ' && l[1] == ' ' && !is_ws_char(l[2]) {
        Some(l.subrange(2, first_ws_from(l, 2)))
    } else {
        None
    }
}

/// The tokens of the section lines up to the first `Options:`/`Arguments:`
/// line, in order, with the pseudo-subcommand `help` excluded.
pub open spec fn scan_lines(ls: Seq<Seq<char>>) -> Seq<Seq<char>>
    decreases ls.len(),
{
    if ls.len() == 0 {
        Seq::empty()
    } else if is_stop_line(ls[0]) {
        Seq::empty()
    } else {
        let rest = scan_lines(ls.subrange(1, ls.len() as int));
        match line_token(ls[0]) {
            Some(t) => if t != "help"@ {
                seq![t] + rest
            } else {
                rest
            },
            None => rest,
        }
    }
}

/// The subcommand names listed in a help text: the tokens of the lines that
/// follow the first `Commands:` header, up to the end of that section; empty
/// when there is no `Commands:` header.
pub open spec fn sub_commands_spec(s: Seq<char>) -> Seq<Seq<char>> {
    match find_from(s, "Commands:"@, 0) {
        None => Seq::empty(),
        Some(i) => scan_lines(
            split_lines_spec(s.subrange(i + "Commands:"@.len(), s.len() as int)),
        ),
    }
}

/// `pat` is a prefix of `l`.
fn starts_with(l: &str, pat: &str) -> (r: bool)
    ensures
        r == match_at(l@, pat@, 0),
{
    let n = l.unicode_len();
    let m = pat.unicode_len();
    if m > n {
        return false;
    }
    crate::text::match_here_at(l, pat, 0)
}

/// The two views are the same character sequence.
fn str_equal(a: &str, b: &str) -> (r: bool)
    ensures
        r == (a@ == b@),
{
    let n = a.unicode_len();
    let m = b.unicode_len();
    if n != m {
        return false;
    }
    let r = crate::text::match_here_at(a, b, 0);
    proof {
        if match_at(a@, b@, 0) {
            assert(a@ =~= b@);
        }
    }
    r
}

/// The subcommand token of one section line, if the line carries one.
fn token_of(l: &str) -> (r: Option<String>)
    ensures
        match r {
            Some(t) => line_token(l@) == Some(t@),
            None => line_token(l@) is None,
        },
{
    let n = l.unicode_len();
    if n > 2 && l.get_char(0) == ' ' && l.get_char(1) == ' ' && !is_ws(l.get_char(2)) {
        let mut k: usize = 2;
        while k < n && !is_ws(l.get_char(k))
            invariant
                2 <= k <= n,
                n == l@.len(),
                first_ws_from(l@, 2) == first_ws_from(l@, k as int),
            decreases n - k,
        {
            k += 1;
        }
        Some(l.substring_char(2, k).to_owned())
    } else {
        None
    }
}

/// Extracts the subcommand names from a help text, in the order their lines
/// appear; an empty list when the text has no `Commands:` header.
pub fn parse_sub_commands(s: &str) -> (r: Vec<String>)
    ensures
        r.deep_view() == sub_commands_spec(s@),
        find_from(s@, "Commands:"@, 0) is None ==> r@.len() == 0,
{
    match find(s, "Commands:") {
        None => {
            let r: Vec<String> = Vec::new();
            proof {
                assert(r.deep_view() =~~= Seq::<Seq<char>>::empty());
            }
            r
        },
        Some(i) => {
            let n = s.unicode_len();
            proof {
                lemma_find_from_some(s@, "Commands:"@, 0, i as int);
                reveal_strlit("Commands:");
            }
            let section = s.substring_char(i + 9, n);
            let lines = split_lines(section);
            let ghost lv = lines.deep_view();
            let mut out: Vec<String> = Vec::new();
            let mut idx: usize = 0;
            let mut stopped = false;
            proof {
                assert(lv.subrange(0, lv.len() as int) =~~= lv);
                assert(out.deep_view() + scan_lines(lv) =~~= scan_lines(lv));
            }
            while !stopped && idx < lines.len()
                invariant
                    0 <= idx <= lv.len(),
                    lv == lines.deep_view(),
                    lv.len() == lines@.len(),
                    scan_lines(lv) == sub_commands_spec(s@),
                    !stopped ==> scan_lines(lv) == out.deep_view() + scan_lines(
                        lv.subrange(idx as int, lv.len() as int),
                    ),
                    stopped ==> scan_lines(lv) == out.deep_view(),
                decreases lv.len() - idx + (if stopped { 0int } else { 1 }),
            {
                let ghost tailv = lv.subrange(idx as int, lv.len() as int);
                proof {
                    assert(tailv[0] == lv[idx as int]);
                    assert(tailv.subrange(1, tailv.len() as int) =~~= lv.subrange(
                        idx + 1,
                        lv.len() as int,
                    ));
                }
                let line = &lines[idx];
                if starts_with(line.as_str(), "Options:") || starts_with(
                    line.as_str(),
                    "Arguments:",
                ) {
                    stopped = true;
                    proof {
                        assert(scan_lines(tailv) =~~= Seq::<Seq<char>>::empty());
                        assert(out.deep_view() + scan_lines(tailv) =~~= out.deep_view());
                    }
                } else {
                    match token_of(line.as_str()) {
                        Some(t) => {
                            if !str_equal(t.as_str(), "help") {
                                let ghost prev = out.deep_view();
                                out.push(t);
                                proof {
                                    assert(out.deep_view() =~~= prev.push(t@));
                                    assert(scan_lines(tailv) == seq![t@] + scan_lines(
                                        tailv.subrange(1, tailv.len() as int),
                                    ));
                                    assert(prev + scan_lines(tailv) =~~= out.deep_view()
                                        + scan_lines(lv.subrange(idx + 1, lv.len() as int)));
                                }
                            }
                        },
                        None => {},
                    }
                    idx += 1;
                }
            }
            proof {
                if !stopped {
                    assert(lv.subrange(idx as int, lv.len() as int) =~~= Seq::<Seq<char>>::empty());
                    assert(out.deep_view() + scan_lines(
                        lv.subrange(idx as int, lv.len() as int),
                    ) =~~= out.deep_view());
                }
            }
            out
        },
    }
}

} // verus!
