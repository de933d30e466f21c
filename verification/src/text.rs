use vstd::prelude::*;

verus! {

// ---------------------------------------------------------------------------
// Characters
// ---------------------------------------------------------------------------

/// The Unicode `White_Space` characters: the class that both `str::trim` and
/// a help formatter's notion of a blank separator go by.
pub open spec fn is_ws_char(c: char) -> bool {
    c == ' ' || c == '\t' || c == '\n' || c == '\r' || c == '\u{b}' || c == '\u{c}'
        || c == '\u{85}' || c == '\u{a0}' || c == '\u{1680}' || c == '\u{2000}'
        || c == '\u{2001}' || c == '\u{2002}' || c == '\u{2003}' || c == '\u{2004}'
        || c == '\u{2005}' || c == '\u{2006}' || c == '\u{2007}' || c == '\u{2008}'
        || c == '\u{2009}' || c == '\u{200a}' || c == '\u{2028}' || c == '\u{2029}'
        || c == '\u{202f}' || c == '\u{205f}' || c == '\u{3000}'
}

pub fn is_ws(c: char) -> (r: bool)
    ensures
        r == is_ws_char(c),
{
    match c {
        ' ' | '\t' | '\n' | '\r' | '\u{b}' | '\u{c}' | '\u{85}' | '\u{a0}' | '\u{1680}'
            | '\u{2000}' | '\u{2001}' | '\u{2002}' | '\u{2003}' | '\u{2004}' | '\u{2005}'
            | '\u{2006}' | '\u{2007}' | '\u{2008}' | '\u{2009}' | '\u{200a}' | '\u{2028}'
            | '\u{2029}' | '\u{202f}' | '\u{205f}' | '\u{3000}' => true,
        _ => false,
    }
}

// ---------------------------------------------------------------------------
// Substring search
// ---------------------------------------------------------------------------

/// `pat` occurs in `s` starting at position `i`.
pub open spec fn match_at(s: Seq<char>, pat: Seq<char>, i: int) -> bool {
    &&& 0 <= i
    &&& i + pat.len() <= s.len()
    &&& forall|k: int| 0 <= k < pat.len() ==> s[i + k] == #[trigger] pat[k]
}

/// The position of the first occurrence of `pat` in `s` at or after `i`.
pub open spec fn find_from(s: Seq<char>, pat: Seq<char>, i: int) -> Option<int>
    decreases s.len() - i,
{
    if i < 0 || i + pat.len() > s.len() {
        None
    } else if match_at(s, pat, i) {
        Some(i)
    } else {
        find_from(s, pat, i + 1)
    }
}

pub proof fn lemma_find_from_some(s: Seq<char>, pat: Seq<char>, i: int, j: int)
    requires
        0 <= i,
        find_from(s, pat, i) == Some(j),
    ensures
        i <= j,
        match_at(s, pat, j),
        forall|k: int| i <= k < j ==> !match_at(s, pat, k),
    decreases s.len() - i,
{
    if !(i + pat.len() > s.len()) && !match_at(s, pat, i) {
        lemma_find_from_some(s, pat, i + 1, j);
    }
}

pub proof fn lemma_find_from_none(s: Seq<char>, pat: Seq<char>, i: int)
    requires
        0 <= i,
        find_from(s, pat, i) is None,
    ensures
        forall|k: int| i <= k ==> !match_at(s, pat, k),
    decreases s.len() - i,
{
    if i + pat.len() > s.len() {
        assert forall|k: int| i <= k implies !match_at(s, pat, k) by {
            assert(k + pat.len() > s.len());
        }
    } else {
        lemma_find_from_none(s, pat, i + 1);
    }
}

pub proof fn lemma_find_from_complete(s: Seq<char>, pat: Seq<char>, i: int, j: int)
    requires
        0 <= i <= j,
        match_at(s, pat, j),
        forall|k: int| i <= k < j ==> !match_at(s, pat, k),
    ensures
        find_from(s, pat, i) == Some(j),
    decreases j - i,
{
    if i < j {
        assert(!match_at(s, pat, i));
        lemma_find_from_complete(s, pat, i + 1, j);
    }
}

/// `pat` occurs in `s` at position `i`, checked character by character.
pub fn match_here_at(s: &str, pat: &str, i: usize) -> (r: bool)
    requires
        i + pat@.len() <= s@.len(),
    ensures
        r == match_at(s@, pat@, i as int),
{
    let n = s.unicode_len();
    let m = pat.unicode_len();
    let mut j: usize = 0;
    while j < m
        invariant
            0 <= j <= m,
            n == s@.len(),
            m == pat@.len(),
            i + m <= n,
            forall|k: int| 0 <= k < j ==> s@[i + k] == #[trigger] pat@[k],
        decreases m - j,
    {
        if s.get_char(i + j) != pat.get_char(j) {
            assert(!match_at(s@, pat@, i as int));
            return false;
        }
        j += 1;
    }
    true
}

/// The first occurrence of `pat` in `s` at or after `from`, as a character
/// index.
pub fn find_at(s: &str, pat: &str, from: usize) -> (r: Option<usize>)
    ensures
        match r {
            Some(i) => find_from(s@, pat@, from as int) == Some(i as int),
            None => find_from(s@, pat@, from as int) is None,
        },
{
    let n = s.unicode_len();
    let m = pat.unicode_len();
    if m > n || from > n - m {
        assert(find_from(s@, pat@, from as int) is None);
        return None;
    }
    let mut i: usize = from;
    while i <= n - m
        invariant
            from <= i,
            i <= n - m + 1,
            m <= n,
            n == s@.len(),
            m == pat@.len(),
            find_from(s@, pat@, from as int) == find_from(s@, pat@, i as int),
        decreases n - i,
    {
        if match_here_at(s, pat, i) {
            return Some(i);
        }
        assert(find_from(s@, pat@, i as int) == find_from(s@, pat@, i + 1));
        i += 1;
    }
    assert(find_from(s@, pat@, i as int) is None);
    None
}

/// The first occurrence of `pat` in `s`, as a character index.
pub fn find(s: &str, pat: &str) -> (r: Option<usize>)
    ensures
        match r {
            Some(i) => find_from(s@, pat@, 0) == Some(i as int),
            None => find_from(s@, pat@, 0) is None,
        },
{
    find_at(s, pat, 0)
}

// ---------------------------------------------------------------------------
// Line and whitespace scanning primitives
// ---------------------------------------------------------------------------

/// The index of the first newline in `s` at or after `k`, or `s.len()`.
pub open spec fn first_nl_from(s: Seq<char>, k: int) -> int
    decreases s.len() - k,
{
    if !(0 <= k < s.len()) {
        s.len() as int
    } else if s[k] == '\n' {
        k
    } else {
        first_nl_from(s, k + 1)
    }
}

/// The index of the first non-whitespace character at or after `k`, or `s.len()`.
pub open spec fn first_non_ws_from(s: Seq<char>, k: int) -> int
    decreases s.len() - k,
{
    if !(0 <= k < s.len()) {
        s.len() as int
    } else if !is_ws_char(s[k]) {
        k
    } else {
        first_non_ws_from(s, k + 1)
    }
}

/// The index of the first whitespace character at or after `k`, or `s.len()`.
pub open spec fn first_ws_from(s: Seq<char>, k: int) -> int
    decreases s.len() - k,
{
    if !(0 <= k < s.len()) {
        s.len() as int
    } else if is_ws_char(s[k]) {
        k
    } else {
        first_ws_from(s, k + 1)
    }
}

/// One past the last non-whitespace character of `s`; 0 if `s` is all whitespace.
pub open spec fn trim_end_idx(s: Seq<char>) -> int
    decreases s.len(),
{
    if s.len() == 0 {
        0
    } else if !is_ws_char(s[s.len() - 1]) {
        s.len() as int
    } else {
        trim_end_idx(s.drop_last())
    }
}

pub proof fn lemma_trim_end_idx(s: Seq<char>)
    ensures
        0 <= trim_end_idx(s) <= s.len(),
        forall|k: int| trim_end_idx(s) <= k < s.len() ==> is_ws_char(s[k]),
    decreases s.len(),
{
    if s.len() > 0 && is_ws_char(s[s.len() - 1]) {
        lemma_trim_end_idx(s.drop_last());
        assert forall|k: int| trim_end_idx(s) <= k < s.len() implies is_ws_char(s[k]) by {
            if k < s.len() - 1 {
                assert(s.drop_last()[k] == s[k]);
            }
        }
    }
}

/// `s` with leading and trailing whitespace removed.
pub open spec fn trim_spec(s: Seq<char>) -> Seq<char> {
    let a = first_non_ws_from(s, 0);
    let b = trim_end_idx(s);
    if a < b {
        s.subrange(a, b)
    } else {
        Seq::empty()
    }
}

/// The first line of `s`: everything before the first newline, with one
/// trailing carriage return removed if present.
pub open spec fn first_line_spec(s: Seq<char>) -> Seq<char> {
    let e = first_nl_from(s, 0);
    let l = s.subrange(0, e);
    if l.len() > 0 && l[l.len() - 1] == '\r' {
        l.drop_last()
    } else {
        l
    }
}

/// `s` without leading and trailing whitespace.
pub fn trim_str<'a>(s: &'a str) -> (r: &'a str)
    ensures
        r@ == trim_spec(s@),
{
    let n = s.unicode_len();
    let mut a: usize = 0;
    while a < n && is_ws(s.get_char(a))
        invariant
            0 <= a <= n,
            n == s@.len(),
            first_non_ws_from(s@, 0) == first_non_ws_from(s@, a as int),
        decreases n - a,
    {
        a += 1;
    }
    if a == n {
        proof {
            lemma_trim_end_idx(s@);
            assert(trim_spec(s@) =~= ""@) by {
                reveal_strlit("");
            }
        }
        return "";
    }
    let mut b: usize = n;
    proof {
        assert(s@.subrange(0, n as int) =~= s@);
    }
    while is_ws(s.get_char(b - 1))
        invariant
            a + 1 <= b <= n,
            a < n,
            n == s@.len(),
            !is_ws_char(s@[a as int]),
            trim_end_idx(s@) == trim_end_idx(s@.subrange(0, b as int)),
        decreases b,
    {
        proof {
            assert(s@.subrange(0, b as int).drop_last() =~= s@.subrange(0, b - 1));
        }
        b -= 1;
    }
    s.substring_char(a, b)
}

/// The first line of `s`, with one trailing carriage return removed.
pub fn first_line_str<'a>(s: &'a str) -> (r: &'a str)
    ensures
        r@ == first_line_spec(s@),
{
    let n = s.unicode_len();
    let mut e: usize = 0;
    while e < n && s.get_char(e) != '\n'
        invariant
            0 <= e <= n,
            n == s@.len(),
            first_nl_from(s@, 0) == first_nl_from(s@, e as int),
        decreases n - e,
    {
        e += 1;
    }
    let le: usize = if e > 0 && s.get_char(e - 1) == '\r' {
        e - 1
    } else {
        e
    };
    proof {
        let l = s@.subrange(0, first_nl_from(s@, 0));
        if l.len() > 0 && l[l.len() - 1] == '\r' {
            assert(l.drop_last() =~= s@.subrange(0, e - 1));
        }
    }
    s.substring_char(0, le)
}

// ---------------------------------------------------------------------------
// Splitting into lines
// ---------------------------------------------------------------------------

/// `s` split on newline characters; always at least one piece, and the
/// newlines themselves are not kept.
pub open spec fn split_lines_spec(s: Seq<char>) -> Seq<Seq<char>>
    decreases s.len(),
{
    if s.len() == 0 {
        seq![Seq::<char>::empty()]
    } else if s[0] == '\n' {
        seq![Seq::<char>::empty()] + split_lines_spec(s.subrange(1, s.len() as int))
    } else {
        let rest = split_lines_spec(s.subrange(1, s.len() as int));
        seq![seq![s[0]] + rest[0]] + rest.subrange(1, rest.len() as int)
    }
}

pub proof fn lemma_split_lines_len(s: Seq<char>)
    ensures
        split_lines_spec(s).len() >= 1,
    decreases s.len(),
{
    if s.len() > 0 {
        lemma_split_lines_len(s.subrange(1, s.len() as int));
    }
}

/// If the first newline of `s` is at `j`, the split is the prefix before `j`
/// followed by the split of the suffix after `j`.
pub proof fn lemma_split_lines_chunk(s: Seq<char>, j: int)
    requires
        0 <= j <= s.len(),
        forall|k: int| 0 <= k < j ==> s[k] != '\n',
        j < s.len() ==> s[j] == '\n',
    ensures
        j == s.len() ==> split_lines_spec(s) == seq![s],
        j < s.len() ==> split_lines_spec(s) == seq![s.subrange(0, j)] + split_lines_spec(
            s.subrange(j + 1, s.len() as int),
        ),
    decreases j,
{
    lemma_split_lines_len(s);
    if j == 0 {
        if s.len() == 0 {
            assert(seq![Seq::<char>::empty()] =~~= seq![s]);
        } else {
            assert(s[0] == '\n');
            assert(seq![Seq::<char>::empty()] + split_lines_spec(s.subrange(1, s.len() as int))
                =~~= seq![s.subrange(0, 0)] + split_lines_spec(s.subrange(1, s.len() as int)));
        }
    } else {
        let t = s.subrange(1, s.len() as int);
        lemma_split_lines_len(t);
        assert forall|k: int| 0 <= k < j - 1 implies t[k] != '\n' by {
            assert(t[k] == s[k + 1]);
        }
        lemma_split_lines_chunk(t, j - 1);
        let rest = split_lines_spec(t);
        if j == s.len() {
            assert(rest == seq![t]);
            assert(seq![seq![s[0]] + rest[0]] + rest.subrange(1, rest.len() as int) =~~= seq![s])
                by {
                assert(seq![s[0]] + t =~= s);
            }
        } else {
            assert(t.subrange(j, t.len() as int) =~= s.subrange(j + 1, s.len() as int));
            assert(rest == seq![t.subrange(0, j - 1)] + split_lines_spec(
                s.subrange(j + 1, s.len() as int),
            ));
            assert(seq![s[0]] + rest[0] =~= s.subrange(0, j)) by {
                assert(rest[0] == t.subrange(0, j - 1));
            }
            assert(seq![seq![s[0]] + rest[0]] + rest.subrange(1, rest.len() as int) =~= seq![
                s.subrange(0, j),
            ] + split_lines_spec(s.subrange(j + 1, s.len() as int)));
        }
    }
}

/// Splits `s` on newline characters, keeping empty pieces.
pub fn split_lines(s: &str) -> (r: Vec<String>)
    ensures
        r.deep_view() == split_lines_spec(s@),
    decreases s@.len(),
{
    proof {
        reveal_strlit("\n");
    }
    match find(s, "\n") {
        None => {
            proof {
                lemma_find_from_none(s@, "\n"@, 0);
                assert forall|k: int| 0 <= k < s@.len() implies s@[k] != '\n' by {
                    assert(!match_at(s@, "\n"@, k));
                }
                lemma_split_lines_chunk(s@, s@.len() as int);
            }
            let mut r: Vec<String> = Vec::new();
            r.push(s.to_owned());
            proof {
                assert(r.deep_view() =~= seq![s@]);
            }
            r
        },
        Some(j) => {
            proof {
                lemma_find_from_some(s@, "\n"@, 0, j as int);
                assert forall|k: int| 0 <= k < j implies s@[k] != '\n' by {
                    assert(!match_at(s@, "\n"@, k));
                }
                assert(match_at(s@, "\n"@, j as int));
                assert(s@[j as int] == "\n"@[0]);
                lemma_split_lines_chunk(s@, j as int);
            }
            let n = s.unicode_len();
            let first = s.substring_char(0, j).to_owned();
            let tail = s.substring_char(j + 1, n);
            let mut r = split_lines(tail);
            r.insert(0, first);
            proof {
                assert(r.deep_view() =~= seq![s@.subrange(0, j as int)] + split_lines_spec(
                    s@.subrange(j + 1, s@.len() as int),
                ));
            }
            r
        },
    }
}

// ---------------------------------------------------------------------------
// String building
// ---------------------------------------------------------------------------

/// Relies on `String::push`: appends exactly the given character.
#[verifier::external_body]
pub fn push_char(s: &mut String, c: char)
    ensures
        final(s)@ == old(s)@.push(c),
{
    s.push(c);
}

/// A run of `n` space characters.
pub open spec fn spaces(n: int) -> Seq<char> {
    Seq::new(if n >= 0 { n as nat } else { 0 }, |i: int| ' ')
}

/// Appends `n` spaces to `out`.
pub fn push_spaces(out: &mut String, n: usize)
    ensures
        final(out)@ == old(out)@ + spaces(n as int),
{
    let mut k: usize = 0;
    while k < n
        invariant
            0 <= k <= n,
            out@ == old(out)@ + spaces(k as int),
        decreases n - k,
    {
        push_char(out, ' ');
        proof {
            assert(old(out)@ + spaces(k + 1) =~= (old(out)@ + spaces(k as int)).push(' '));
        }
        k += 1;
    }
    proof {
        assert(out@ =~= old(out)@ + spaces(n as int));
    }
}

} // verus!
