use crate::errors::Error;
use crate::text::{
    find, find_at, find_from, is_ws, lemma_find_from_complete, lemma_find_from_some, match_at,
    push_char, trim_end_idx,
};
use vstd::prelude::*;

verus! {

/// The sentinel line that opens the managed region of the index file.
pub open spec fn start_marker() -> Seq<char> {
    "<!-- CLI_REFERENCE START -->"@
}

/// The sentinel line that closes the managed region of the index file.
pub open spec fn end_marker() -> Seq<char> {
    "<!-- CLI_REFERENCE END -->"@
}

/// The position of the first start marker in `c`.
pub open spec fn start_pos(c: Seq<char>) -> Option<int> {
    find_from(c, start_marker(), 0)
}

/// The position of the first end marker at or after the start marker at `i`.
pub open spec fn end_pos(c: Seq<char>, i: int) -> Option<int> {
    find_from(c, end_marker(), i + start_marker().len())
}

/// Both sentinel markers are present, in order.
pub open spec fn has_markers(c: Seq<char>) -> bool {
    match start_pos(c) {
        None => false,
        Some(i) => end_pos(c, i) is Some,
    }
}

/// One left-to-right pass collapsing each doubled newline to a single one.
pub open spec fn collapse_blank(s: Seq<char>) -> Seq<char>
    decreases s.len(),
{
    if s.len() >= 2 && s[0] == '\n' && s[1] == '\n' {
        seq!['\n'] + collapse_blank(s.subrange(2, s.len() as int))
    } else if s.len() == 0 {
        Seq::<char>::empty()
    } else {
        seq![s[0]] + collapse_blank(s.subrange(1, s.len() as int))
    }
}

/// The fragment as it is merged: trailing whitespace removed, doubled
/// newlines collapsed.
pub open spec fn norm_fragment(f: Seq<char>) -> Seq<char> {
    collapse_blank(f.subrange(0, trim_end_idx(f)))
}

/// The merged file: everything from the start marker through the end marker
/// (inclusive) replaced by the start marker, the normalized fragment and the
/// end marker; all other content unchanged.
pub open spec fn merged_spec(c: Seq<char>, f: Seq<char>) -> Seq<char>
    recommends
        has_markers(c),
{
    let i = start_pos(c)->Some_0;
    let j = end_pos(c, i)->Some_0;
    c.subrange(0, i) + start_marker() + seq!['\n'] + norm_fragment(f) + seq!['\n'] + end_marker()
        + c.subrange(j + end_marker().len(), c.len() as int)
}

/// Character-level facts about the two sentinel markers: each starts with
/// its only `<`, and neither contains a newline.
pub proof fn lemma_marker_chars()
    ensures
        start_marker().len() == 28,
        end_marker().len() == 26,
        start_marker()[0] == '<',
        end_marker()[0] == '<',
        forall|k: int| 1 <= k < 28 ==> start_marker()[k] != '<',
        forall|k: int| 1 <= k < 26 ==> end_marker()[k] != '<',
        forall|k: int| 0 <= k < 26 ==> end_marker()[k] != '\n',
{
    reveal_strlit("<!-- CLI_REFERENCE START -->");
    reveal_strlit("<!-- CLI_REFERENCE END -->");
}

/// `s` without trailing whitespace.
fn trim_end_str<'a>(s: &'a str) -> (r: &'a str)
    ensures
        r@ == s@.subrange(0, trim_end_idx(s@)),
{
    let n = s.unicode_len();
    let mut b: usize = n;
    proof {
        assert(s@.subrange(0, n as int) =~= s@);
    }
    while b > 0 && is_ws(s.get_char(b - 1))
        invariant
            0 <= b <= n,
            n == s@.len(),
            trim_end_idx(s@) == trim_end_idx(s@.subrange(0, b as int)),
        decreases b,
    {
        proof {
            assert(s@.subrange(0, b as int).drop_last() =~= s@.subrange(0, b - 1));
        }
        b -= 1;
    }
    s.substring_char(0, b)
}

/// Collapses each doubled newline of `s` to a single one, left to right.
fn collapse_blank_str(s: &str) -> (r: String)
    ensures
        r@ == collapse_blank(s@),
{
    let n = s.unicode_len();
    let mut out = String::new();
    let mut i: usize = 0;
    proof {
        assert(s@.subrange(0, n as int) =~= s@);
        assert(out@ + collapse_blank(s@.subrange(0, n as int)) =~= collapse_blank(s@));
    }
    while i < n
        invariant
            0 <= i <= n,
            n == s@.len(),
            out@ + collapse_blank(s@.subrange(i as int, n as int)) == collapse_blank(s@),
        decreases n - i,
    {
        let ghost tail = s@.subrange(i as int, n as int);
        let c = s.get_char(i);
        if c == '\n' && i + 1 < n && s.get_char(i + 1) == '\n' {
            push_char(&mut out, '\n');
            proof {
                assert(tail.subrange(2, tail.len() as int) =~= s@.subrange(i + 2, n as int));
                assert(collapse_blank(tail) == seq!['\n'] + collapse_blank(
                    s@.subrange(i + 2, n as int),
                ));
                assert(out@ + collapse_blank(s@.subrange(i + 2, n as int)) =~= collapse_blank(s@));
            }
            i += 2;
        } else {
            push_char(&mut out, c);
            proof {
                assert(tail.subrange(1, tail.len() as int) =~= s@.subrange(i + 1, n as int));
                assert(collapse_blank(tail) == seq![tail[0]] + collapse_blank(
                    s@.subrange(i + 1, n as int),
                ));
                assert(out@ + collapse_blank(s@.subrange(i + 1, n as int)) =~= collapse_blank(s@));
            }
            i += 1;
        }
    }
    proof {
        assert(collapse_blank(s@.subrange(n as int, n as int)) == Seq::<char>::empty());
        assert(out@ =~= collapse_blank(s@));
    }
    out
}

/// Replaces the sentinel-delimited region of an index file's content with
/// the freshly rendered summary fragment. Fails, and changes nothing, when
/// either marker is missing.
pub fn update_root_summary(content: &str, fragment: &str) -> (r: Result<String, Error>)
    ensures
        has_markers(content@) ==> (r matches Ok(t) && t@ == merged_spec(content@, fragment@)),
        !has_markers(content@) ==> r == Err::<String, Error>(Error::MissingIndexMarkers),
{
    match find(content, "<!-- CLI_REFERENCE START -->") {
        None => Err(Error::MissingIndexMarkers),
        Some(i) => {
            let n = content.unicode_len();
            proof {
                lemma_find_from_some(content@, start_marker(), 0, i as int);
                reveal_strlit("<!-- CLI_REFERENCE START -->");
                reveal_strlit("<!-- CLI_REFERENCE END -->");
            }
            match find_at(content, "<!-- CLI_REFERENCE END -->", i + 28) {
                None => Err(Error::MissingIndexMarkers),
                Some(j) => {
                    proof {
                        lemma_find_from_some(content@, end_marker(), i + 28, j as int);
                        reveal_strlit("\n");
                    }
                    let trimmed = trim_end_str(fragment);
                    let norm = collapse_blank_str(trimmed);
                    let mut out: String = content.substring_char(0, i).to_owned();
                    out.append("<!-- CLI_REFERENCE START -->");
                    out.append("\n");
                    out.append(norm.as_str());
                    out.append("\n");
                    out.append("<!-- CLI_REFERENCE END -->");
                    out.append(content.substring_char(j + 26, n).to_owned().as_str());
                    proof {
                        assert(out@ =~= merged_spec(content@, fragment@));
                    }
                    Ok(out)
                },
            }
        },
    }
}

/// Merge idempotence: merging the same fragment into an already-merged file
/// changes nothing, and content outside the marker-delimited region is never
/// altered (the merged file is the content before the start marker, the
/// fresh region, and the content after the end marker). The fragment must
/// not itself contain either sentinel marker.
pub proof fn lemma_merge_idempotent(c: Seq<char>, f: Seq<char>)
    requires
        has_markers(c),
        forall|k: int| !match_at(norm_fragment(f), start_marker(), k),
        forall|k: int| !match_at(norm_fragment(f), end_marker(), k),
    ensures
        has_markers(merged_spec(c, f)),
        merged_spec(merged_spec(c, f), f) == merged_spec(c, f),
{
    lemma_marker_chars();
    let s = start_marker();
    let e = end_marker();
    let i = start_pos(c)->Some_0;
    let j = end_pos(c, i)->Some_0;
    lemma_find_from_some(c, s, 0, i);
    lemma_find_from_some(c, e, i + 28, j);
    let nf = norm_fragment(f);
    let m1 = merged_spec(c, f);
    let pre = c.subrange(0, i);
    let post = c.subrange(j + 26, c.len() as int);
    let p0 = i + 28;
    let p1 = p0 + 1 + nf.len();
    let target = p1 + 1;

    // The shape of the merged file, index by index.
    assert(m1.len() == i + 28 + 1 + nf.len() + 1 + 26 + post.len());
    assert forall|x: int| 0 <= x < i implies m1[x] == c[x] by {
        assert(m1[x] == pre[x]);
    }
    assert forall|k: int| 0 <= k < 28 implies m1[i + k] == s[k] by {}
    assert(m1[p0] == '\n');
    assert forall|x: int| 0 <= x < nf.len() implies m1[p0 + 1 + x] == nf[x] by {}
    assert(m1[p1] == '\n');
    assert forall|k: int| 0 <= k < 26 implies m1[target + k] == e[k] by {}
    assert forall|x: int| 0 <= x < post.len() implies m1[target + 26 + x] == post[x] by {}

    // The first start marker of the merged file is the inserted one.
    assert(match_at(m1, s, i));
    assert forall|k: int| 0 <= k < i implies !match_at(m1, s, k) by {
        if match_at(m1, s, k) {
            if k + 28 <= i {
                assert(forall|q: int| 0 <= q < 28 ==> c[k + q] == #[trigger] s[q]);
                assert(match_at(c, s, k));
            } else {
                assert(m1[k + (i - k)] == s[i - k]);
                assert(s[i - k] == '<');
            }
        }
    }
    lemma_find_from_complete(m1, s, 0, i);

    // The first end marker after it is the inserted one.
    assert(match_at(m1, e, target));
    assert forall|k: int| i + 28 <= k < target implies !match_at(m1, e, k) by {
        if match_at(m1, e, k) {
            if k == p0 || k == p1 {
                assert(m1[k] == e[0]);
            } else if k + 26 <= p1 {
                assert forall|q: int| 0 <= q < 26 implies nf[(k - (p0 + 1)) + q] == #[trigger] e[q]
                    by {
                    assert(m1[k + q] == nf[(k - (p0 + 1)) + q]);
                }
                assert(match_at(nf, e, k - (p0 + 1)));
            } else {
                assert(m1[k + (p1 - k)] == e[p1 - k]);
                assert(e[p1 - k] == '\n');
            }
        }
    }
    lemma_find_from_complete(m1, e, i + 28, target);
    assert(start_pos(m1) == Some(i));
    assert(end_pos(m1, i) == Some(target));

    // Merging again rebuilds the same file.
    assert(m1.subrange(0, i) =~= pre);
    assert(m1.subrange(target + 26, m1.len() as int) =~= post);
    assert(merged_spec(m1, f) =~= m1);
}

} // verus!
