use crate::cmd::{clone_strings, cmd_view, Cmd};
use crate::parse::{parse_sub_commands, sub_commands_spec, scan_lines, is_stop_line, line_token};
use indexmap::IndexMap;
use std::collections::hash_map::RandomState;
use vstd::prelude::*;

verus! {

/// The identity of a command, as the mapping holds it.
pub type CmdV = (Seq<char>, Seq<Seq<char>>);

/// One entry of the discovered mapping: a command and its raw help output.
pub type EntryV = ((Seq<char>, Seq<Seq<char>>), Seq<char>);

#[verifier::external_type_specification]
#[verifier::external_body]
#[verifier::reject_recursive_types(K)]
#[verifier::reject_recursive_types(V)]
#[verifier::reject_recursive_types(S)]
pub struct ExIndexMap<K, V, S>(IndexMap<K, V, S>);

/// What an insertion-ordered map holds: its (key, value) entries, as views,
/// in insertion order.
pub uninterp spec fn index_entries(
    m: IndexMap<(String, Vec<String>), String, RandomState>,
) -> Seq<((Seq<char>, Seq<Seq<char>>), Seq<char>)>;

/// How an insertion-ordered map takes one more entry: an equivalent key
/// keeps its place in the order and gets the new value; a new key is
/// appended last.
pub open spec fn imap_insert_spec(es: Seq<EntryV>, k: CmdV, v: Seq<char>) -> Seq<EntryV>
    decreases es.len(),
{
    if es.len() == 0 {
        seq![(k, v)]
    } else if es[0].0 == k {
        seq![(k, v)] + es.subrange(1, es.len() as int)
    } else {
        seq![es[0]] + imap_insert_spec(es.subrange(1, es.len() as int), k, v)
    }
}

/// Relies on `indexmap::IndexMap::new`: the new map is empty.
#[verifier::external_body]
fn imap_new() -> (m: IndexMap<(String, Vec<String>), String, RandomState>)
    ensures
        index_entries(m) == Seq::<EntryV>::empty(),
{
    IndexMap::new()
}

/// Relies on `indexmap::IndexMap::insert`: an equivalent key remains at its
/// place in the order and its value is updated; a new key is appended last.
#[verifier::external_body]
fn imap_insert(
    m: &mut IndexMap<(String, Vec<String>), String, RandomState>,
    k: (String, Vec<String>),
    v: String,
)
    ensures
        index_entries(*final(m)) == imap_insert_spec(
            index_entries(*old(m)),
            (k.0@, k.1.deep_view()),
            v@,
        ),
{
    m.insert(k, v);
}

/// Relies on `indexmap::IndexMap::iter`: the entries in insertion order,
/// copied out.
#[verifier::external_body]
fn imap_entries(m: &IndexMap<(String, Vec<String>), String, RandomState>) -> (r: Vec<
    ((String, Vec<String>), String),
>)
    ensures
        r@.len() == index_entries(*m).len(),
        forall|x: int|
            0 <= x < r@.len() ==> (#[trigger] r@[x]).0.0@ == index_entries(*m)[x].0.0
                && r@[x].0.1.deep_view() == index_entries(*m)[x].0.1 && r@[x].1@ == index_entries(
                *m,
            )[x].1,
{
    m.iter().map(|(k, v)| (k.clone(), v.clone())).collect()
}

/// The children a command gains from one help output: one command per
/// extracted subcommand name, each extending the parent by that name.
pub open spec fn children_of(c: CmdV, help: Seq<char>) -> Seq<CmdV> {
    sub_commands_spec(help).map(|x: int, name: Seq<char>| (c.0, c.1.push(name)))
}

/// One discovery step: the top of the worklist is popped, mapped to its help
/// output, and its children are pushed in reverse order, so that the
/// first-listed child is visited next (pre-order, depth-first).
pub open spec fn discover_step(st: (Seq<CmdV>, Seq<EntryV>), help: Seq<char>) -> (
    Seq<CmdV>,
    Seq<EntryV>,
) {
    if st.0.len() == 0 {
        st
    } else {
        let c = st.0.last();
        (st.0.drop_last() + children_of(c, help).reverse(), imap_insert_spec(st.1, c, help))
    }
}

/// A whole discovery run, one step per help output, until the worklist
/// drains.
pub open spec fn discover_run(st: (Seq<CmdV>, Seq<EntryV>), helps: Seq<Seq<char>>) -> (
    Seq<CmdV>,
    Seq<EntryV>,
)
    decreases helps.len(),
{
    if helps.len() == 0 || st.0.len() == 0 {
        st
    } else {
        discover_run(discover_step(st, helps[0]), helps.subrange(1, helps.len() as int))
    }
}

/// Determinism of discovery: from equal states, equal help outputs drive the
/// traversal to equal states, so the mapping and its order are a function of
/// the seeds and of the target binary's help texts alone.
pub proof fn lemma_discovery_deterministic(
    s1: (Seq<CmdV>, Seq<EntryV>),
    s2: (Seq<CmdV>, Seq<EntryV>),
    h1: Seq<Seq<char>>,
    h2: Seq<Seq<char>>,
)
    requires
        s1 == s2,
        h1 == h2,
    ensures
        discover_run(s1, h1) == discover_run(s2, h2),
{
}

/// The engine's state: the explicit worklist (a stack), and the mapping of
/// every visited command to its raw help output, in visit order.
pub struct Discovery {
    pub stack: Vec<Cmd>,
    pub found: IndexMap<(String, Vec<String>), String, RandomState>,
}

/// The worklist as command identities, bottom first.
pub open spec fn stack_view(d: Discovery) -> Seq<CmdV> {
    d.stack@.map(|x: int, c: Cmd| cmd_view(c))
}

/// The mapping as (command, help output) pairs, in insertion order.
pub open spec fn found_view(d: Discovery) -> Seq<EntryV> {
    index_entries(d.found)
}

/// The whole state of the engine.
pub open spec fn disc_view(d: Discovery) -> (Seq<CmdV>, Seq<EntryV>) {
    (stack_view(d), found_view(d))
}

impl Discovery {
    /// Starts a discovery over the given seed commands; at least one seed is
    /// required, and the seeds are visited in the order supplied.
    pub fn new(seeds: Vec<Cmd>) -> (r: Discovery)
        requires
            seeds@.len() >= 1,
        ensures
            stack_view(r) == seeds@.map(|x: int, c: Cmd| cmd_view(c)).reverse(),
            found_view(r) == Seq::<EntryV>::empty(),
            (forall|x: int|
                0 <= x < seeds@.len() ==> (#[trigger] seeds@[x]).subcommands@.len() == 0)
                ==> wf_state(disc_view(r)),
    {
        let ghost orig = seeds@;
        let mut seeds = seeds;
        let mut stack: Vec<Cmd> = Vec::new();
        while seeds.len() > 0
            invariant
                seeds@ == orig.subrange(0, seeds@.len() as int),
                stack@.len() == orig.len() - seeds@.len(),
                forall|q: int|
                    0 <= q < stack@.len() ==> stack@[q] == orig[orig.len() - 1 - q],
            decreases seeds@.len(),
        {
            let c = seeds.pop().unwrap();
            proof {
                assert(c == orig[seeds@.len() as int]);
                assert(seeds@ =~= orig.subrange(0, seeds@.len() as int));
            }
            stack.push(c);
        }
        let d = Discovery { stack, found: imap_new() };
        proof {
            assert(stack_view(d) =~~= orig.map(|x: int, c: Cmd| cmd_view(c)).reverse());
        }
        d
    }

    /// The command to be invoked next: a copy of the top of the worklist, or
    /// nothing when discovery is complete.
    pub fn next_command(&self) -> (r: Option<Cmd>)
        ensures
            match r {
                Some(c) => stack_view(*self).len() > 0 && cmd_view(c) == stack_view(*self).last(),
                None => stack_view(*self).len() == 0,
            },
    {
        if self.stack.len() == 0 {
            None
        } else {
            let c = &self.stack[self.stack.len() - 1];
            Some(c.clone())
        }
    }

    /// Records the help output of the top-of-stack command: pops it, maps it
    /// to the output, and pushes the children listed in the output in
    /// reverse order, so the first-listed child is visited next.
    pub fn record(&mut self, help: String)
        requires
            old(self).stack@.len() > 0,
        ensures
            disc_view(*final(self)) == discover_step(disc_view(*old(self)), help@),
    {
        let ghost st0 = disc_view(*old(self));
        let ghost bn = old(self).stack@.len() - 1;
        let cmd = self.stack.pop().unwrap();
        let ghost cv = cmd_view(cmd);
        proof {
            assert(cv == st0.0.last());
        }
        let subs = parse_sub_commands(help.as_str());
        let ghost kids = children_of(cv, help@);
        let ghost klen = kids.len() as int;
        proof {
            assert(klen == subs@.len());
        }
        let mut x: usize = subs.len();
        while x > 0
            invariant
                0 <= x <= subs@.len(),
                subs@.len() == klen,
                kids == children_of(cv, help@),
                kids.len() == klen,
                subs.deep_view() == sub_commands_spec(help@),
                cmd.cmd@ == cv.0,
                cmd.subcommands.deep_view() == cv.1,
                bn == old(self).stack@.len() - 1,
                0 <= bn,
                self.found == old(self).found,
                self.stack@.len() == bn + (klen - x),
                forall|q: int| 0 <= q < bn ==> self.stack@[q] == old(self).stack@[q],
                forall|q: int|
                    bn <= q < self.stack@.len() ==> cmd_view(#[trigger] self.stack@[q])
                        == kids[klen - 1 - (q - bn)],
            decreases x,
        {
            x -= 1;
            let name = subs[x].clone();
            let mut segs = clone_strings(&cmd.subcommands);
            segs.push(name);
            let child = Cmd { cmd: cmd.cmd.clone(), subcommands: segs };
            proof {
                assert(name@ == subs.deep_view()[x as int]);
                assert(child.subcommands.deep_view() =~~= cv.1.push(
                    sub_commands_spec(help@)[x as int],
                ));
                assert(kids[x as int] == (cv.0, cv.1.push(sub_commands_spec(help@)[x as int])));
                assert(cmd_view(child) == kids[x as int]);
            }
            let ghost prev = self.stack@;
            self.stack.push(child);
            proof {
                assert(self.stack@ == prev.push(child));
                assert forall|q: int|
                    bn <= q < self.stack@.len() implies cmd_view(#[trigger] self.stack@[q])
                    == kids[klen - 1 - (q - bn)] by {
                    if q < prev.len() {
                        assert(self.stack@[q] == prev[q]);
                    } else {
                        assert(self.stack@[q] == child);
                        assert(klen - 1 - (q - bn) == x);
                    }
                }
            }
        }
        let ghost fnd0 = index_entries(old(self).found);
        let ghost kb = cmd.cmd@;
        let ghost ks = cmd.subcommands.deep_view();
        proof {
            assert(fnd0 == st0.1);
            assert(index_entries(self.found) == fnd0);
            assert(cv == (kb, ks));
        }
        imap_insert(&mut self.found, (cmd.cmd, cmd.subcommands), help);
        proof {
            assert(index_entries(self.found) == imap_insert_spec(fnd0, (kb, ks), help@));
            assert(stack_view(*self) =~~= st0.0.drop_last() + kids.reverse());
            assert(found_view(*self) == imap_insert_spec(st0.1, cv, help@));
        }
    }

    /// The completed mapping: every visited command with its raw help
    /// output, in traversal order.
    pub fn entries(&self) -> (r: Vec<(Cmd, String)>)
        ensures
            r@.len() == found_view(*self).len(),
            forall|x: int|
                0 <= x < r@.len() ==> cmd_view((#[trigger] r@[x]).0) == found_view(*self)[x].0
                    && r@[x].1@ == found_view(*self)[x].1,
    {
        let raw = imap_entries(&self.found);
        let mut out: Vec<(Cmd, String)> = Vec::new();
        let mut i: usize = 0;
        while i < raw.len()
            invariant
                0 <= i <= raw@.len(),
                raw@.len() == found_view(*self).len(),
                forall|x: int|
                    0 <= x < raw@.len() ==> (#[trigger] raw@[x]).0.0@ == found_view(*self)[x].0.0
                        && raw@[x].0.1.deep_view() == found_view(*self)[x].0.1 && raw@[x].1@
                        == found_view(*self)[x].1,
                out@.len() == i,
                forall|x: int|
                    0 <= x < i ==> cmd_view((#[trigger] out@[x]).0) == found_view(*self)[x].0
                        && out@[x].1@ == found_view(*self)[x].1,
            decreases raw@.len() - i,
        {
            let t = &raw[i];
            let c = Cmd { cmd: t.0.0.clone(), subcommands: clone_strings(&t.0.1) };
            out.push((c, t.1.clone()));
            i += 1;
        }
        out
    }
}

// ---------------------------------------------------------------------------
// The pseudo-subcommand `help` never enters the mapping
// ---------------------------------------------------------------------------

/// The command does not end in a `help` segment (seeds have no segments).
pub open spec fn no_help_cmd(c: CmdV) -> bool {
    c.1.len() > 0 ==> c.1.last() != "help"@
}

/// Every worklist command and every mapping key is free of a final `help`
/// segment.
pub open spec fn wf_state(st: (Seq<CmdV>, Seq<EntryV>)) -> bool {
    &&& forall|x: int| 0 <= x < st.0.len() ==> no_help_cmd(#[trigger] st.0[x])
    &&& forall|x: int| 0 <= x < st.1.len() ==> no_help_cmd((#[trigger] st.1[x]).0)
}

proof fn lemma_scan_lines_no_help(ls: Seq<Seq<char>>)
    ensures
        forall|x: int| 0 <= x < scan_lines(ls).len() ==> #[trigger] scan_lines(ls)[x] != "help"@,
    decreases ls.len(),
{
    if ls.len() != 0 && !is_stop_line(ls[0]) {
        let rest = scan_lines(ls.subrange(1, ls.len() as int));
        lemma_scan_lines_no_help(ls.subrange(1, ls.len() as int));
        assert forall|x: int| 0 <= x < scan_lines(ls).len() implies #[trigger] scan_lines(ls)[x]
            != "help"@ by {
            match line_token(ls[0]) {
                Some(t) => {
                    if t != "help"@ {
                        assert(scan_lines(ls) == seq![t] + rest);
                        if x >= 1 {
                            assert(scan_lines(ls)[x] == rest[x - 1]);
                        }
                    } else {
                        assert(scan_lines(ls) == rest);
                    }
                },
                None => {
                    assert(scan_lines(ls) == rest);
                },
            }
        }
    }
}

/// Subcommand extraction never yields the name `help`.
pub proof fn lemma_sub_commands_no_help(s: Seq<char>)
    ensures
        forall|x: int|
            0 <= x < sub_commands_spec(s).len() ==> #[trigger] sub_commands_spec(s)[x] != "help"@,
{
    match crate::text::find_from(s, "Commands:"@, 0) {
        None => {},
        Some(i) => {
            lemma_scan_lines_no_help(
                crate::text::split_lines_spec(s.subrange(i + "Commands:"@.len(), s.len() as int)),
            );
        },
    }
}

proof fn lemma_imap_insert_no_help(es: Seq<EntryV>, k: CmdV, v: Seq<char>)
    requires
        forall|x: int| 0 <= x < es.len() ==> no_help_cmd((#[trigger] es[x]).0),
        no_help_cmd(k),
    ensures
        forall|x: int|
            0 <= x < imap_insert_spec(es, k, v).len() ==> no_help_cmd(
                (#[trigger] imap_insert_spec(es, k, v)[x]).0,
            ),
    decreases es.len(),
{
    let w = imap_insert_spec(es, k, v);
    if es.len() == 0 {
        assert(w[0].0 == k);
    } else if es[0].0 == k {
        assert forall|x: int| 0 <= x < w.len() implies no_help_cmd((#[trigger] w[x]).0) by {
            if x >= 1 {
                assert(w[x] == es[x]);
            }
        }
    } else {
        let tail = es.subrange(1, es.len() as int);
        assert forall|x: int| 0 <= x < tail.len() implies no_help_cmd(
            (#[trigger] tail[x]).0,
        ) by {
            assert(tail[x] == es[x + 1]);
        }
        lemma_imap_insert_no_help(tail, k, v);
        assert forall|x: int| 0 <= x < w.len() implies no_help_cmd((#[trigger] w[x]).0) by {
            if x == 0 {
                assert(w[0] == es[0]);
            } else {
                assert(w[x] == imap_insert_spec(tail, k, v)[x - 1]);
            }
        }
    }
}

/// The subcommand name `help` never appears as a mapping key: a discovery
/// step preserves the absence of `help` segments from the worklist and from
/// the mapping's keys, so a run started from plain seeds never visits a
/// `help` command.
pub proof fn lemma_step_preserves_no_help(st: (Seq<CmdV>, Seq<EntryV>), help: Seq<char>)
    requires
        wf_state(st),
    ensures
        wf_state(discover_step(st, help)),
{
    if st.0.len() > 0 {
        let c = st.0.last();
        let kids = children_of(c, help);
        lemma_sub_commands_no_help(help);
        let st1 = discover_step(st, help);
        assert forall|x: int| 0 <= x < st1.0.len() implies no_help_cmd(#[trigger] st1.0[x]) by {
            if x < st.0.len() - 1 {
                assert(st1.0[x] == st.0[x]);
            } else {
                let q = x - (st.0.len() - 1);
                assert(st1.0[x] == kids.reverse()[q]);
                assert(kids.reverse()[q] == kids[kids.len() - 1 - q]);
                let name = sub_commands_spec(help)[kids.len() - 1 - q];
                assert(kids[kids.len() - 1 - q] == (c.0, c.1.push(name)));
            }
        }
        lemma_imap_insert_no_help(st.1, c, help);
    }
}

} // verus!
