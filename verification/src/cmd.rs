use vstd::prelude::*;

verus! {

/// A target binary together with an ordered path of subcommand names.
///
/// The identity of a command is the pair of both fields; its textual form is
/// the binary's file name followed by the segments, space-joined.
pub struct Cmd {
    /// Path to the binary (e.g. `./target/debug/app`).
    pub cmd: String,
    /// Subcommand path (e.g. `["db", "stats"]`).
    pub subcommands: Vec<String>,
}

/// The mathematical identity of a command: (binary path, segment list).
pub open spec fn cmd_view(c: Cmd) -> (Seq<char>, Seq<Seq<char>>) {
    (c.cmd@, c.subcommands.deep_view())
}

/// One past the index of the last `/` in `p`; 0 if there is none.
pub open spec fn one_past_last_slash(p: Seq<char>) -> int
    decreases p.len(),
{
    if p.len() == 0 {
        0
    } else if p[p.len() - 1] == '/' {
        p.len() as int
    } else {
        one_past_last_slash(p.drop_last())
    }
}

/// The file name of a path: everything after the last `/`.
pub open spec fn file_name_spec(p: Seq<char>) -> Seq<char> {
    p.subrange(one_past_last_slash(p), p.len() as int)
}

pub proof fn lemma_one_past_last_slash(p: Seq<char>)
    ensures
        0 <= one_past_last_slash(p) <= p.len(),
    decreases p.len(),
{
    if p.len() > 0 && p[p.len() - 1] != '/' {
        lemma_one_past_last_slash(p.drop_last());
    }
}

/// One ` ` before each segment, segments in order.
pub open spec fn render_segs(ss: Seq<Seq<char>>) -> Seq<char>
    decreases ss.len(),
{
    if ss.len() == 0 {
        Seq::empty()
    } else {
        seq![' '] + ss[0] + render_segs(ss.subrange(1, ss.len() as int))
    }
}

pub proof fn lemma_render_segs_snoc(ss: Seq<Seq<char>>, x: Seq<char>)
    ensures
        render_segs(ss.push(x)) == render_segs(ss) + (seq![' '] + x),
    decreases ss.len(),
{
    let e = ss.push(x);
    if ss.len() == 0 {
        assert(e.subrange(1, e.len() as int) =~~= Seq::<Seq<char>>::empty());
        assert(seq![' '] + e[0] + render_segs(e.subrange(1, e.len() as int)) =~= render_segs(ss)
            + (seq![' '] + x));
    } else {
        assert(e.subrange(1, e.len() as int) =~~= ss.subrange(1, ss.len() as int).push(x));
        lemma_render_segs_snoc(ss.subrange(1, ss.len() as int), x);
        assert(render_segs(e) =~= render_segs(ss) + (seq![' '] + x));
    }
}

/// The rendered textual form of a command: file name of the binary, then the
/// segments, space-joined.
pub open spec fn rendered_spec(v: (Seq<char>, Seq<Seq<char>>)) -> Seq<char> {
    file_name_spec(v.0) + render_segs(v.1)
}

/// The position just after the last `/` of `p`, as an index.
pub fn one_past_last_slash_idx(p: &str) -> (k: usize)
    ensures
        k as int == one_past_last_slash(p@),
        k <= p@.len(),
{
    let n = p.unicode_len();
    let mut k: usize = n;
    proof {
        assert(p@.subrange(0, n as int) =~= p@);
    }
    while k > 0 && p.get_char(k - 1) != '/'
        invariant
            0 <= k <= n,
            n == p@.len(),
            one_past_last_slash(p@) == one_past_last_slash(p@.subrange(0, k as int)),
        decreases k,
    {
        proof {
            assert(p@.subrange(0, k as int).drop_last() =~= p@.subrange(0, k - 1));
        }
        k -= 1;
    }
    proof {
        if k == 0 {
            assert(p@.subrange(0, 0) =~= Seq::<char>::empty());
        }
        lemma_one_past_last_slash(p@);
    }
    k
}

/// Copies a vector of strings element by element.
pub fn clone_strings(v: &Vec<String>) -> (r: Vec<String>)
    ensures
        r@ == v@,
{
    let mut r: Vec<String> = Vec::new();
    let mut i: usize = 0;
    proof {
        assert(v@.subrange(0, 0) =~= Seq::<String>::empty());
    }
    while i < v.len()
        invariant
            0 <= i <= v@.len(),
            r@ == v@.subrange(0, i as int),
        decreases v@.len() - i,
    {
        r.push(v[i].clone());
        proof {
            assert(r@ =~= v@.subrange(0, i + 1));
        }
        i += 1;
    }
    proof {
        assert(v@.subrange(0, v@.len() as int) =~= v@);
    }
    r
}

impl Cmd {
    /// A seed command: a binary path with no subcommand segments.
    pub fn new(cmd: String) -> (r: Cmd)
        ensures
            r.cmd == cmd,
            r.subcommands@ == Seq::<String>::empty(),
    {
        Cmd { cmd, subcommands: Vec::new() }
    }

    /// The file name of the binary: the part of its path after the last `/`.
    pub fn command_name(&self) -> (r: &str)
        ensures
            r@ == file_name_spec(self.cmd@),
    {
        let p = self.cmd.as_str();
        let n = p.unicode_len();
        let k = one_past_last_slash_idx(p);
        p.substring_char(k, n)
    }

    /// The rendered form: file name, then each segment preceded by a space.
    pub fn rendered(&self) -> (r: String)
        ensures
            r@ == rendered_spec(cmd_view(*self)),
    {
        let mut out: String = self.command_name().to_owned();
        let ghost ss = self.subcommands.deep_view();
        let mut i: usize = 0;
        proof {
            assert(render_segs(ss.subrange(0, 0)) =~= Seq::<char>::empty());
            assert(out@ =~= file_name_spec(self.cmd@) + render_segs(ss.subrange(0, 0)));
        }
        while i < self.subcommands.len()
            invariant
                0 <= i <= ss.len(),
                ss == self.subcommands.deep_view(),
                ss.len() == self.subcommands@.len(),
                out@ == file_name_spec(self.cmd@) + render_segs(ss.subrange(0, i as int)),
            decreases ss.len() - i,
        {
            out.append(" ");
            out.append(self.subcommands[i].as_str());
            proof {
                reveal_strlit(" ");
                lemma_render_segs_snoc(ss.subrange(0, i as int), ss[i as int]);
                assert(ss.subrange(0, i as int).push(ss[i as int]) =~~= ss.subrange(0, i + 1));
                assert(out@ =~= file_name_spec(self.cmd@) + render_segs(ss.subrange(0, i + 1)));
            }
            i += 1;
        }
        proof {
            assert(ss.subrange(0, ss.len() as int) =~~= ss);
        }
        out
    }
}

impl Clone for Cmd {
    /// A field-by-field copy with the same identity.
    fn clone(&self) -> (r: Self)
        ensures
            r.cmd == self.cmd,
            r.subcommands@ == self.subcommands@,
    {
        Cmd { cmd: self.cmd.clone(), subcommands: clone_strings(&self.subcommands) }
    }
}

} // verus!
