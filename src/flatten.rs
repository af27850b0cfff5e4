use vstd::prelude::*;

use crate::commands::{
    add_token, build_commands, close_command, close_group, empty_command, initial_state,
    is_operator, run, step, BuildState, CommandModel,
};

verus! {

/// The tokens that write one command: name, arguments, then `< in` and `> out`
/// when set.
pub open spec fn command_tokens(c: CommandModel) -> Seq<Seq<char>> {
    seq![c.name] + c.args + (match c.in_redirect {
        Some(f) => seq![seq!['<'], f],
        None => seq![],
    }) + (match c.out_redirect {
        Some(f) => seq![seq!['>'], f],
        None => seq![],
    })
}

/// The commands of a chain written out and joined by `|`.
pub open spec fn group_tokens(g: Seq<CommandModel>) -> Seq<Seq<char>>
    decreases g.len(),
{
    if g.len() == 0 {
        seq![]
    } else if g.len() == 1 {
        command_tokens(g[0])
    } else {
        group_tokens(g.drop_last()) + seq![seq!['|']] + command_tokens(g.last())
    }
}

/// The chains of a command set written out and joined by `&`.
pub open spec fn set_tokens(cs: Seq<Seq<CommandModel>>) -> Seq<Seq<char>>
    decreases cs.len(),
{
    if cs.len() == 0 {
        seq![]
    } else if cs.len() == 1 {
        group_tokens(cs[0])
    } else {
        set_tokens(cs.drop_last()) + seq![seq!['&']] + group_tokens(cs.last())
    }
}

/// A token that the builder reads as a word.
pub open spec fn is_word(t: Seq<char>) -> bool {
    t.len() > 0 && !is_operator(t)
}

/// A command as the builder makes it: a name that is a word, and arguments and
/// file names that are no operators.
pub open spec fn command_ok(c: CommandModel) -> bool {
    &&& is_word(c.name)
    &&& forall|i: int| 0 <= i < c.args.len() ==> !is_operator(#[trigger] c.args[i])
    &&& c.in_redirect is Some ==> !is_operator(c.in_redirect->0)
    &&& c.out_redirect is Some ==> !is_operator(c.out_redirect->0)
}

pub open spec fn group_ok(g: Seq<CommandModel>) -> bool {
    g.len() > 0 && forall|i: int| 0 <= i < g.len() ==> command_ok(#[trigger] g[i])
}

pub open spec fn set_ok(cs: Seq<Seq<CommandModel>>) -> bool {
    forall|i: int| 0 <= i < cs.len() ==> group_ok(#[trigger] cs[i])
}

/// The builder's state after `t`, starting from `s`.
pub open spec fn run_from(s: BuildState, t: Seq<Seq<char>>) -> BuildState
    decreases t.len(),
{
    if t.len() == 0 {
        s
    } else {
        step(run_from(s, t.drop_last()), t.last())
    }
}

proof fn lemma_run_is_run_from(t: Seq<Seq<char>>)
    ensures
        run(t) == run_from(initial_state(), t),
    decreases t.len(),
{
    if t.len() > 0 {
        lemma_run_is_run_from(t.drop_last());
    }
}

proof fn lemma_run_from_concat(s: BuildState, a: Seq<Seq<char>>, b: Seq<Seq<char>>)
    ensures
        run_from(s, a + b) == run_from(run_from(s, a), b),
    decreases b.len(),
{
    if b.len() == 0 {
        assert(a + b =~= a);
    } else {
        assert((a + b).drop_last() =~= a + b.drop_last());
        assert((a + b).last() == b.last());
        lemma_run_from_concat(s, a, b.drop_last());
    }
}

proof fn lemma_args(s: BuildState, args: Seq<Seq<char>>)
    requires
        s.cmd.name.len() > 0,
        !s.in_pending,
        !s.out_pending,
        forall|i: int| 0 <= i < args.len() ==> !is_operator(#[trigger] args[i]),
    ensures
        run_from(s, args) == (BuildState { cmd: CommandModel { args: s.cmd.args + args, ..s.cmd }, ..s }),
    decreases args.len(),
{
    if args.len() == 0 {
        assert(s.cmd.args + args =~= s.cmd.args);
    } else {
        lemma_args(s, args.drop_last());
        assert(!is_operator(args[args.len() - 1]));
        assert(s.cmd.args + args =~= (s.cmd.args + args.drop_last()).push(args.last()));
    }
}

/// Writing a command out and reading it back, from a state with no command in
/// progress, leaves exactly that command in progress.
proof fn lemma_command(s: BuildState, c: CommandModel)
    requires
        s.cmd == empty_command(),
        !s.in_pending,
        !s.out_pending,
        command_ok(c),
    ensures
        run_from(s, command_tokens(c)) == (BuildState { cmd: c, ..s }),
{
    let name_part = seq![c.name];
    let in_part: Seq<Seq<char>> = match c.in_redirect {
        Some(f) => seq![seq!['<'], f],
        None => seq![],
    };
    let out_part: Seq<Seq<char>> = match c.out_redirect {
        Some(f) => seq![seq!['>'], f],
        None => seq![],
    };
    assert(command_tokens(c) == name_part + c.args + in_part + out_part);
    lemma_run_from_concat(s, name_part + c.args + in_part, out_part);
    lemma_run_from_concat(s, name_part + c.args, in_part);
    lemma_run_from_concat(s, name_part, c.args);
    assert(name_part.drop_last() =~= seq![]);
    assert(run_from(s, name_part.drop_last()) == s);
    assert(name_part.last() == c.name);
    assert(!is_operator(c.name));
    let s1 = run_from(s, name_part);
    assert(s1 == BuildState { cmd: CommandModel { name: c.name, ..empty_command() }, ..s });
    lemma_args(s1, c.args);
    assert(seq![] + c.args =~= c.args);
    let s2 = run_from(s1, c.args);
    assert(s2 == BuildState { cmd: CommandModel { name: c.name, args: c.args, in_redirect: None, out_redirect: None }, ..s });
    let s3 = run_from(s2, in_part);
    match c.in_redirect {
        Some(f) => {
            assert(in_part.drop_last() =~= seq![seq!['<']]);
            assert(in_part.drop_last().drop_last() =~= Seq::<Seq<char>>::empty());
            assert(seq!['<'] != seq!['&']) by {
                assert(seq!['<'][0] != seq!['&'][0]);
            }
            assert(seq!['<'] != seq!['|']) by {
                assert(seq!['<'][0] != seq!['|'][0]);
            }
            assert(run_from(s2, in_part.drop_last().drop_last()) == s2);
            assert(run_from(s2, in_part.drop_last()) == BuildState { in_pending: true, ..s2 });
            assert(!is_operator(f));
            assert(s3 == BuildState { cmd: CommandModel { in_redirect: Some(f), ..s2.cmd }, ..s });
        },
        None => {},
    }
    assert(s3 == BuildState { cmd: CommandModel { name: c.name, args: c.args, in_redirect: c.in_redirect, out_redirect: None }, ..s });
    match c.out_redirect {
        Some(f) => {
            assert(out_part.drop_last() =~= seq![seq!['>']]);
            assert(out_part.drop_last().drop_last() =~= Seq::<Seq<char>>::empty());
            assert(seq!['>'] != seq!['&']) by {
                assert(seq!['>'][0] != seq!['&'][0]);
            }
            assert(seq!['>'] != seq!['|']) by {
                assert(seq!['>'][0] != seq!['|'][0]);
            }
            assert(seq!['>'] != seq!['<']) by {
                assert(seq!['>'][0] != seq!['<'][0]);
            }
            assert(run_from(s3, out_part.drop_last().drop_last()) == s3);
            assert(run_from(s3, out_part.drop_last()) == BuildState { out_pending: true, ..s3 });
            assert(!is_operator(f));
        },
        None => {},
    }
}

/// Reading a written-out chain leaves all but its last command in the chain
/// in progress and the last one as the command in progress.
proof fn lemma_group(s: BuildState, g: Seq<CommandModel>)
    requires
        s.cmd == empty_command(),
        !s.in_pending,
        !s.out_pending,
        group_ok(g),
    ensures
        run_from(s, group_tokens(g)) == (BuildState { group: s.group + g.drop_last(), cmd: g.last(), ..s }),
    decreases g.len(),
{
    assert(command_ok(g[g.len() - 1]));
    if g.len() == 1 {
        lemma_command(s, g[0]);
        assert(s.group + g.drop_last() =~= s.group);
    } else {
        let h = g.drop_last();
        assert forall|i: int| 0 <= i < h.len() implies command_ok(#[trigger] h[i]) by {
            assert(h[i] == g[i]);
        }
        lemma_group(s, h);
        let pipe: Seq<Seq<char>> = seq![seq!['|']];
        lemma_run_from_concat(s, group_tokens(h) + pipe, command_tokens(g.last()));
        lemma_run_from_concat(s, group_tokens(h), pipe);
        let s1 = run_from(s, group_tokens(h));
        assert(pipe.drop_last() =~= Seq::<Seq<char>>::empty());
        assert(seq!['|'] != seq!['&']) by {
            assert(seq!['|'][0] != seq!['&'][0]);
        }
        assert(command_ok(h.last()));
        assert(run_from(s1, pipe.drop_last()) == s1);
        assert(pipe.last() == seq!['|']);
        let s2 = run_from(s1, pipe);
        assert(s2 == BuildState { group: s.group + g.drop_last(), cmd: empty_command(), ..s }) by {
            assert(s.group + h.drop_last() + seq![h.last()] =~= s.group + g.drop_last());
            assert((s.group + h.drop_last()).push(h.last()) =~= s.group + g.drop_last());
        }
        lemma_command(s2, g.last());
    }
}

proof fn lemma_set(cs: Seq<Seq<CommandModel>>)
    requires
        cs.len() > 0,
        set_ok(cs),
    ensures
        run_from(initial_state(), set_tokens(cs)) == (BuildState {
            groups: cs.drop_last(),
            group: cs.last().drop_last(),
            cmd: cs.last().last(),
            in_pending: false,
            out_pending: false,
        }),
    decreases cs.len(),
{
    assert(group_ok(cs[cs.len() - 1]));
    if cs.len() == 1 {
        lemma_group(initial_state(), cs[0]);
        assert(seq![] + cs[0].drop_last() =~= cs[0].drop_last());
        assert(cs.drop_last() =~= seq![]);
    } else {
        let ds = cs.drop_last();
        assert forall|i: int| 0 <= i < ds.len() implies group_ok(#[trigger] ds[i]) by {
            assert(ds[i] == cs[i]);
        }
        lemma_set(ds);
        let amp: Seq<Seq<char>> = seq![seq!['&']];
        lemma_run_from_concat(initial_state(), set_tokens(ds) + amp, group_tokens(cs.last()));
        lemma_run_from_concat(initial_state(), set_tokens(ds), amp);
        assert(amp.drop_last() =~= Seq::<Seq<char>>::empty());
        assert(group_ok(ds.last()));
        assert(command_ok(ds.last().last()));
        let s1 = run_from(initial_state(), set_tokens(ds));
        assert(run_from(s1, amp.drop_last()) == s1);
        assert(amp.last() == seq!['&']);
        let s2 = run_from(s1, amp);
        assert(close_command(s1.group, s1.cmd) =~= ds.last());
        assert(s2 == BuildState { groups: cs.drop_last(), group: seq![], ..initial_state() }) by {
            assert(ds.drop_last().push(ds.last()) =~= cs.drop_last());
        }
        lemma_group(s2, cs.last());
        assert(seq![] + cs.last().drop_last() =~= cs.last().drop_last());
    }
}

/// A well-formed command set, written out and read back, is the same set.
pub proof fn lemma_read_back(cs: Seq<Seq<CommandModel>>)
    requires
        set_ok(cs),
    ensures
        build_commands(set_tokens(cs)) == cs,
{
    lemma_run_is_run_from(set_tokens(cs));
    if cs.len() > 0 {
        lemma_set(cs);
        assert(group_ok(cs.last()));
        assert(command_ok(cs.last().last()));
        assert(cs.last().drop_last().push(cs.last().last()) =~= cs.last());
        assert(cs.drop_last().push(cs.last()) =~= cs);
    }
}

pub open spec fn state_ok(s: BuildState) -> bool {
    &&& set_ok(s.groups)
    &&& forall|i: int| 0 <= i < s.group.len() ==> command_ok(#[trigger] s.group[i])
    &&& s.cmd.name.len() == 0 ==> s.cmd == empty_command()
    &&& s.cmd.name.len() > 0 ==> command_ok(s.cmd)
}

proof fn lemma_close_ok(s: BuildState)
    requires
        state_ok(s),
    ensures
        set_ok(close_group(s.groups, close_command(s.group, s.cmd))),
        forall|i: int|
            0 <= i < close_command(s.group, s.cmd).len() ==> command_ok(
                #[trigger] close_command(s.group, s.cmd)[i],
            ),
{
    let g = close_command(s.group, s.cmd);
    assert forall|i: int| 0 <= i < g.len() implies command_ok(#[trigger] g[i]) by {
        if i < s.group.len() {
            assert(g[i] == s.group[i]);
        }
    }
    let gs = close_group(s.groups, g);
    assert forall|i: int| 0 <= i < gs.len() implies group_ok(#[trigger] gs[i]) by {
        if i < s.groups.len() {
            assert(gs[i] == s.groups[i]);
        }
    }
}

proof fn lemma_run_ok(tokens: Seq<Seq<char>>)
    ensures
        state_ok(run(tokens)),
    decreases tokens.len(),
{
    if tokens.len() > 0 {
        let prefix = tokens.drop_last();
        lemma_run_ok(prefix);
        let s = run(prefix);
        let t = tokens.last();
        lemma_close_ok(s);
        let c = add_token(s.cmd, t, s.in_pending, s.out_pending);
        if !is_operator(t) && s.cmd.name.len() == 0 && t.len() == 0 {
            assert(t =~= Seq::<char>::empty());
            assert(s.cmd == empty_command());
            assert(c.name =~= empty_command().name);
            assert(c == empty_command());
        }
        if !is_operator(t) && s.cmd.name.len() > 0 && !s.in_pending && !s.out_pending {
            assert forall|i: int| 0 <= i < c.args.len() implies !is_operator(#[trigger] c.args[i]) by {
                if i < s.cmd.args.len() {
                    assert(c.args[i] == s.cmd.args[i]);
                }
            }
        }
    }
}

/// Reading a line, writing the command set back out as `name args [< in] [> out]`
/// per command, joined by `|` within a chain and `&` between chains, and reading
/// that again gives the same command set: the written-out line is equivalent to
/// the first.
pub proof fn law_round_trip(tokens: Seq<Seq<char>>)
    ensures
        build_commands(set_tokens(build_commands(tokens))) == build_commands(tokens),
{
    lemma_run_ok(tokens);
    lemma_close_ok(run(tokens));
    lemma_read_back(build_commands(tokens));
}

} // verus!
