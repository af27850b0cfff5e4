use vstd::prelude::*;
use vstd::string::*;

verus! {

/// The mathematical value of a single command.
pub struct CommandModel {
    pub name: Seq<char>,
    pub args: Seq<Seq<char>>,
    pub in_redirect: Option<Seq<char>>,
    pub out_redirect: Option<Seq<char>>,
}

pub open spec fn opt_view(o: Option<String>) -> Option<Seq<char>> {
    match o {
        Some(s) => Some(s@),
        None => None,
    }
}

/// A command that has not been given a name yet.
pub open spec fn empty_command() -> CommandModel {
    CommandModel { name: seq![], args: seq![], in_redirect: None, out_redirect: None }
}

/// The command after an ordinary token: the name comes first, then a pending
/// redirect slot, then the arguments.
pub open spec fn add_token(c: CommandModel, t: Seq<char>, inp: bool, outp: bool) -> CommandModel {
    if c.name.len() == 0 {
        CommandModel { name: t, ..c }
    } else if inp {
        CommandModel { in_redirect: Some(t), ..c }
    } else if outp {
        CommandModel { out_redirect: Some(t), ..c }
    } else {
        CommandModel { args: c.args.push(t), ..c }
    }
}

/// A pipe chain with `c` appended, unless `c` has no name.
pub open spec fn close_command(g: Seq<CommandModel>, c: CommandModel) -> Seq<CommandModel> {
    if c.name.len() == 0 {
        g
    } else {
        g.push(c)
    }
}

/// A command set with `g` appended, unless `g` is empty.
pub open spec fn close_group(gs: Seq<Seq<CommandModel>>, g: Seq<CommandModel>) -> Seq<Seq<CommandModel>> {
    if g.len() == 0 {
        gs
    } else {
        gs.push(g)
    }
}

/// Everything the builder keeps while it scans the tokens.
pub struct BuildState {
    pub groups: Seq<Seq<CommandModel>>,
    pub group: Seq<CommandModel>,
    pub cmd: CommandModel,
    pub in_pending: bool,
    pub out_pending: bool,
}

pub open spec fn initial_state() -> BuildState {
    BuildState { groups: seq![], group: seq![], cmd: empty_command(), in_pending: false, out_pending: false }
}

/// Whether the token is exactly the one-character operator `op`.
pub open spec fn is_op(t: Seq<char>, op: char) -> bool {
    t == seq![op]
}

pub open spec fn is_operator(t: Seq<char>) -> bool {
    is_op(t, '&') || is_op(t, '|') || is_op(t, '<') || is_op(t, '>')
}

/// One step of the grammar.
pub open spec fn step(s: BuildState, t: Seq<char>) -> BuildState {
    if is_op(t, '&') {
        BuildState {
            groups: close_group(s.groups, close_command(s.group, s.cmd)),
            group: seq![],
            cmd: empty_command(),
            ..s
        }
    } else if is_op(t, '|') {
        BuildState { group: close_command(s.group, s.cmd), cmd: empty_command(), ..s }
    } else if is_op(t, '<') {
        BuildState { in_pending: true, ..s }
    } else if is_op(t, '>') {
        BuildState { out_pending: true, ..s }
    } else {
        BuildState {
            cmd: add_token(s.cmd, t, s.in_pending, s.out_pending),
            in_pending: false,
            out_pending: false,
            ..s
        }
    }
}

/// The builder's state after scanning all of `tokens`.
pub open spec fn run(tokens: Seq<Seq<char>>) -> BuildState
    decreases tokens.len(),
{
    if tokens.len() == 0 {
        initial_state()
    } else {
        step(run(tokens.drop_last()), tokens.last())
    }
}

/// The command set that a token stream describes.
pub open spec fn build_commands(tokens: Seq<Seq<char>>) -> Seq<Seq<CommandModel>> {
    let s = run(tokens);
    close_group(s.groups, close_command(s.group, s.cmd))
}

/// Whether every token is non-empty, as the words of a line are.
pub open spec fn all_nonempty(tokens: Seq<Seq<char>>) -> bool {
    forall|i: int| 0 <= i < tokens.len() ==> #[trigger] tokens[i].len() > 0
}

pub open spec fn no_operators(tokens: Seq<Seq<char>>) -> bool {
    forall|i: int| 0 <= i < tokens.len() ==> !is_operator(#[trigger] tokens[i])
}

proof fn lemma_run_plain(tokens: Seq<Seq<char>>)
    requires
        tokens.len() >= 1,
        all_nonempty(tokens),
        no_operators(tokens),
    ensures
        run(tokens) == (BuildState {
            groups: seq![],
            group: seq![],
            cmd: CommandModel {
                name: tokens[0],
                args: tokens.subrange(1, tokens.len() as int),
                in_redirect: None,
                out_redirect: None,
            },
            in_pending: false,
            out_pending: false,
        }),
    decreases tokens.len(),
{
    let last = tokens.len() - 1;
    assert(!is_operator(tokens[last]));
    if tokens.len() == 1 {
        assert(tokens.drop_last() =~= seq![]);
        assert(tokens.subrange(1, 1) =~= seq![]);
    } else {
        let prefix = tokens.drop_last();
        assert(prefix[0] == tokens[0]);
        assert(tokens[0].len() > 0);
        lemma_run_plain(prefix);
        assert(tokens.subrange(1, tokens.len() as int) =~= prefix.subrange(1, prefix.len() as int).push(
            tokens.last(),
        ));
    }
}

/// A line with no operators is one group of one command: the first word names
/// the program and the others are its arguments, in order.
pub proof fn law_plain_line_is_one_command(tokens: Seq<Seq<char>>)
    requires
        tokens.len() >= 1,
        all_nonempty(tokens),
        no_operators(tokens),
    ensures
        build_commands(tokens) == seq![
            seq![
                CommandModel {
                    name: tokens[0],
                    args: tokens.subrange(1, tokens.len() as int),
                    in_redirect: None,
                    out_redirect: None,
                },
            ],
        ],
{
    lemma_run_plain(tokens);
    assert(tokens[0].len() > 0);
}

/// The number of commands in a command set.
pub open spec fn command_count(cs: Seq<Seq<CommandModel>>) -> nat
    decreases cs.len(),
{
    if cs.len() == 0 {
        0
    } else {
        command_count(cs.drop_last()) + cs.last().len()
    }
}

pub open spec fn is_separator(t: Seq<char>) -> bool {
    is_op(t, '&') || is_op(t, '|')
}

/// Whether the segment after the last `|` or `&` already holds an ordinary token.
pub open spec fn segment_occupied(tokens: Seq<Seq<char>>) -> bool
    decreases tokens.len(),
{
    if tokens.len() == 0 {
        false
    } else if is_separator(tokens.last()) {
        false
    } else if is_operator(tokens.last()) {
        segment_occupied(tokens.drop_last())
    } else {
        true
    }
}

/// The number of segments between `|` and `&` operators that hold at least
/// one ordinary token.
pub open spec fn occupied_segments(tokens: Seq<Seq<char>>) -> nat
    decreases tokens.len(),
{
    if tokens.len() == 0 {
        0
    } else {
        occupied_segments(tokens.drop_last()) + if !is_operator(tokens.last()) && !segment_occupied(
            tokens.drop_last(),
        ) {
            1nat
        } else {
            0nat
        }
    }
}

proof fn lemma_count_push(cs: Seq<Seq<CommandModel>>, g: Seq<CommandModel>)
    ensures
        command_count(cs.push(g)) == command_count(cs) + g.len(),
{
    assert(cs.push(g).drop_last() =~= cs);
}

proof fn lemma_run_counts(tokens: Seq<Seq<char>>)
    requires
        all_nonempty(tokens),
    ensures
        command_count(run(tokens).groups) + run(tokens).group.len() + (if run(tokens).cmd.name.len() > 0 {
            1nat
        } else {
            0nat
        }) == occupied_segments(tokens),
        (run(tokens).cmd.name.len() > 0) == segment_occupied(tokens),
    decreases tokens.len(),
{
    if tokens.len() > 0 {
        let prefix = tokens.drop_last();
        assert forall|i: int| 0 <= i < prefix.len() implies #[trigger] prefix[i].len() > 0 by {
            assert(prefix[i] == tokens[i]);
        }
        lemma_run_counts(prefix);
        assert(tokens.last().len() > 0);
        let s = run(prefix);
        let g2 = close_command(s.group, s.cmd);
        lemma_count_push(s.groups, g2);
        assert(command_count(seq![]) == 0);
    }
}

/// Every segment between `|` and `&` operators that holds an ordinary token
/// gives exactly one command, and no other command is made.
pub proof fn law_one_command_per_occupied_segment(tokens: Seq<Seq<char>>)
    requires
        all_nonempty(tokens),
    ensures
        command_count(build_commands(tokens)) == occupied_segments(tokens),
{
    lemma_run_counts(tokens);
    let s = run(tokens);
    lemma_count_push(s.groups, close_command(s.group, s.cmd));
}

/// A command with name and arguments, and optionally the files that replace
/// its standard input and output.
pub struct SingleCommand {
    pub name: String,
    pub args: Vec<String>,
    pub in_redirect: Option<String>,
    pub out_redirect: Option<String>,
}

impl View for SingleCommand {
    type V = CommandModel;

    open spec fn view(&self) -> CommandModel {
        CommandModel {
            name: self.name@,
            args: self.args@.map_values(|a: String| a@),
            in_redirect: opt_view(self.in_redirect),
            out_redirect: opt_view(self.out_redirect),
        }
    }
}

fn copy_opt(o: &Option<String>) -> (r: Option<String>)
    ensures
        opt_view(r) == opt_view(*o),
{
    match o {
        Some(s) => Some(s.clone()),
        None => None,
    }
}

impl SingleCommand {
    pub fn make() -> (r: Self)
        ensures
            r@ == empty_command(),
    {
        let r = SingleCommand { name: String::new(), args: Vec::new(), in_redirect: None, out_redirect: None };
        assert(r@.args =~= seq![]);
        r
    }

    pub fn is_uninitialized(&self) -> (r: bool)
        ensures
            r == (self@.name.len() == 0),
    {
        self.name.as_str().is_empty()
    }

    /// Adds a token to the name, the arguments, or a redirect slot.
    pub fn build(&mut self, token: &str, inp_redirection: bool, outp_redirection: bool)
        ensures
            final(self)@ == add_token(old(self)@, token@, inp_redirection, outp_redirection),
    {
        if self.name.as_str().is_empty() {
            self.name = token.to_owned();
        } else if inp_redirection {
            self.in_redirect = Some(token.to_owned());
        } else if outp_redirection {
            self.out_redirect = Some(token.to_owned());
        } else {
            let t = token.to_owned();
            self.args.push(t);
            assert(self@.args =~= old(self)@.args.push(token@));
        }
    }

    /// A field-by-field copy.
    pub fn duplicate(&self) -> (r: Self)
        ensures
            r@ == self@,
    {
        let mut args: Vec<String> = Vec::new();
        let mut i: usize = 0;
        while i < self.args.len()
            invariant
                i <= self.args@.len(),
                args@.len() == i,
                forall|j: int| 0 <= j < i ==> #[trigger] args@[j]@ == self.args@[j]@,
            decreases self.args@.len() - i,
        {
            let a = self.args[i].clone();
            assert(a@ == self.args@[i as int]@);
            args.push(a);
            i = i + 1;
        }
        let r = SingleCommand {
            name: self.name.clone(),
            args,
            in_redirect: copy_opt(&self.in_redirect),
            out_redirect: copy_opt(&self.out_redirect),
        };
        assert(r@.args =~= self@.args);
        r
    }
}

/// A chain of commands joined by pipes.
pub struct CommandGroup {
    commands: Vec<SingleCommand>,
}

pub open spec fn commands_view(v: Seq<SingleCommand>) -> Seq<CommandModel> {
    v.map_values(|c: SingleCommand| c@)
}

impl View for CommandGroup {
    type V = Seq<CommandModel>;

    closed spec fn view(&self) -> Seq<CommandModel> {
        commands_view(self.commands@)
    }
}

impl CommandGroup {
    pub fn make() -> (r: Self)
        ensures
            r@ == Seq::<CommandModel>::empty(),
    {
        let r = CommandGroup { commands: Vec::new() };
        assert(r@ =~= Seq::<CommandModel>::empty());
        r
    }

    pub fn append(&mut self, cmd: SingleCommand)
        ensures
            final(self)@ == old(self)@.push(cmd@),
    {
        self.commands.push(cmd);
        assert(final(self)@ =~= old(self)@.push(cmd@));
    }

    pub fn is_empty(&self) -> (r: bool)
        ensures
            r == (self@.len() == 0),
    {
        self.commands.len() == 0
    }

    pub fn len(&self) -> (r: usize)
        ensures
            r == self@.len(),
    {
        self.commands.len()
    }

    /// The commands from position `x` to the end.
    pub fn x_to_last(&self, x: usize) -> (r: &[SingleCommand])
        requires
            x <= self@.len(),
        ensures
            commands_view(r@) == self@.subrange(x as int, self@.len() as int),
    {
        let r = self.commands.as_slice().split_at(x).1;
        assert(commands_view(r@) =~= self@.subrange(x as int, self@.len() as int));
        r
    }

    pub fn first(&self) -> (r: Option<&SingleCommand>)
        ensures
            self@.len() == 0 ==> r.is_none(),
            self@.len() > 0 ==> r.is_some() && r.unwrap()@ == self@[0],
    {
        self.commands.as_slice().first()
    }

    /// The command at position `i`.
    pub fn get(&self, i: usize) -> (r: &SingleCommand)
        requires
            i < self@.len(),
        ensures
            r@ == self@[i as int],
    {
        &self.commands[i]
    }
}

/// All the pipe chains of one line, in the order they were written.
pub struct Commands {
    command_groups: Vec<CommandGroup>,
}

impl View for Commands {
    type V = Seq<Seq<CommandModel>>;

    closed spec fn view(&self) -> Seq<Seq<CommandModel>> {
        self.command_groups@.map_values(|g: CommandGroup| g@)
    }
}

impl Commands {
    pub fn make() -> (r: Self)
        ensures
            r@ == Seq::<Seq<CommandModel>>::empty(),
    {
        let r = Commands { command_groups: Vec::new() };
        assert(r@ =~= Seq::<Seq<CommandModel>>::empty());
        r
    }

    pub fn append(&mut self, cmd_group: CommandGroup)
        ensures
            final(self)@ == old(self)@.push(cmd_group@),
    {
        self.command_groups.push(cmd_group);
        assert(final(self)@ =~= old(self)@.push(cmd_group@));
    }

    /// Takes the most recently appended group out of the set.
    pub fn get_last(&mut self) -> (r: Option<CommandGroup>)
        ensures
            old(self)@.len() == 0 ==> r.is_none() && final(self)@ == old(self)@,
            old(self)@.len() > 0 ==> r.is_some() && r.unwrap()@ == old(self)@.last()
                && final(self)@ == old(self)@.drop_last(),
    {
        let r = self.command_groups.pop();
        if r.is_some() {
            assert(final(self)@ =~= old(self)@.drop_last());
        }
        r
    }

    pub fn has_more(&self) -> (r: bool)
        ensures
            r == (self@.len() > 0),
    {
        self.command_groups.len() > 0
    }
}

/// Whether `token` is exactly the one-character operator `op`.
fn token_is(token: &str, op: char) -> (r: bool)
    ensures
        r == is_op(token@, op),
{
    if token.unicode_len() == 1 {
        let c = token.get_char(0);
        if c == op {
            assert(token@ =~= seq![op]);
            true
        } else {
            false
        }
    } else {
        false
    }
}

/// Builds the command set from the tokens of one line.
pub fn make_commands(tokens: Vec<&str>) -> (r: Commands)
    ensures
        r@ == build_commands(tokens@.map_values(|t: &str| t@)),
{
    let ghost toks = tokens@.map_values(|t: &str| t@);
    let mut commands: Commands = Commands::make();
    let mut group: CommandGroup = CommandGroup::make();
    let mut command: SingleCommand = SingleCommand::make();
    let mut next_is_input_redirection = false;
    let mut next_is_output_redirection = false;
    let mut i: usize = 0;
    while i < tokens.len()
        invariant
            i <= tokens@.len(),
            toks == tokens@.map_values(|t: &str| t@),
            run(toks.take(i as int)) == (BuildState {
                groups: commands@,
                group: group@,
                cmd: command@,
                in_pending: next_is_input_redirection,
                out_pending: next_is_output_redirection,
            }),
        decreases tokens@.len() - i,
    {
        let token = tokens[i];
        assert(toks.take(i + 1).drop_last() =~= toks.take(i as int));
        assert(toks.take(i + 1).last() == token@);
        if token_is(token, '&') {
            if !command.is_uninitialized() {
                group.append(command);
            }
            command = SingleCommand::make();
            if !group.is_empty() {
                commands.append(group);
            }
            group = CommandGroup::make();
        } else if token_is(token, '|') {
            if !command.is_uninitialized() {
                group.append(command);
            }
            command = SingleCommand::make();
        } else if token_is(token, '<') {
            next_is_input_redirection = true;
        } else if token_is(token, '>') {
            next_is_output_redirection = true;
        } else {
            command.build(token, next_is_input_redirection, next_is_output_redirection);
            next_is_input_redirection = false;
            next_is_output_redirection = false;
        }
        i = i + 1;
    }
    assert(toks.take(i as int) =~= toks);
    if !command.is_uninitialized() {
        group.append(command);
    }
    if !group.is_empty() {
        commands.append(group);
    }
    commands
}

} // verus!
