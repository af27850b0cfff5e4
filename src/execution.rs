use vstd::prelude::*;

use crate::commands::{CommandGroup, CommandModel, Commands, SingleCommand};

verus! {

/// Where a process reads its standard input from.
pub enum StdinSource {
    /// The interpreter's own standard input.
    Inherit,
    /// The pipe on which the previous process of the chain writes.
    Pipe,
    /// A file opened for reading.
    File(String),
}

/// Where a process writes its standard output.
pub enum StdoutTarget {
    /// A fresh pipe, read by the next process or collected for the console.
    Pipe,
    /// A file created or truncated for writing.
    File(String),
}

pub enum InModel {
    Inherit,
    Pipe,
    File(Seq<char>),
}

pub enum OutModel {
    Pipe,
    File(Seq<char>),
}

impl View for StdinSource {
    type V = InModel;

    open spec fn view(&self) -> InModel {
        match self {
            StdinSource::Inherit => InModel::Inherit,
            StdinSource::Pipe => InModel::Pipe,
            StdinSource::File(f) => InModel::File(f@),
        }
    }
}

impl View for StdoutTarget {
    type V = OutModel;

    open spec fn view(&self) -> OutModel {
        match self {
            StdoutTarget::Pipe => OutModel::Pipe,
            StdoutTarget::File(f) => OutModel::File(f@),
        }
    }
}

/// One process to spawn: the command and how its standard streams are wired.
pub struct ProcessPlan {
    pub command: SingleCommand,
    pub stdin: StdinSource,
    pub stdout: StdoutTarget,
}

pub struct PlanModel {
    pub command: CommandModel,
    pub stdin: InModel,
    pub stdout: OutModel,
}

impl View for ProcessPlan {
    type V = PlanModel;

    open spec fn view(&self) -> PlanModel {
        PlanModel { command: self.command@, stdin: self.stdin@, stdout: self.stdout@ }
    }
}

/// Standard input of a command: its own input file if it names one, else the
/// previous process's pipe if there is one, else the interpreter's input.
pub open spec fn stdin_of(c: CommandModel, prev_piped: bool) -> InModel {
    match c.in_redirect {
        Some(f) => InModel::File(f),
        None => if prev_piped {
            InModel::Pipe
        } else {
            InModel::Inherit
        },
    }
}

/// Standard output of a command: its own output file if it names one, else a pipe.
pub open spec fn stdout_of(c: CommandModel) -> OutModel {
    match c.out_redirect {
        Some(f) => OutModel::File(f),
        None => OutModel::Pipe,
    }
}

/// Whether the command before position `i` of the chain writes to a pipe.
pub open spec fn prev_piped(g: Seq<CommandModel>, i: int) -> bool {
    i > 0 && g[i - 1].out_redirect is None
}

pub open spec fn plan_at(g: Seq<CommandModel>, i: int) -> PlanModel {
    PlanModel { command: g[i], stdin: stdin_of(g[i], prev_piped(g, i)), stdout: stdout_of(g[i]) }
}

/// The processes of one pipe chain, left to right.
pub open spec fn plan_of_group(g: Seq<CommandModel>) -> Seq<PlanModel> {
    Seq::new(g.len(), |i: int| plan_at(g, i))
}

pub open spec fn plans_view(v: Seq<ProcessPlan>) -> Seq<PlanModel> {
    v.map_values(|p: ProcessPlan| p@)
}

/// The order in which groups run: the last written first.
pub open spec fn drain_order(gs: Seq<Seq<CommandModel>>) -> Seq<Seq<CommandModel>> {
    Seq::new(gs.len(), |i: int| gs[gs.len() - 1 - i])
}

/// Decides how one command's standard streams are wired.
pub fn plan_command(cmd: &SingleCommand, prev_piped: bool) -> (r: ProcessPlan)
    ensures
        r@ == (PlanModel { command: cmd@, stdin: stdin_of(cmd@, prev_piped), stdout: stdout_of(cmd@) }),
{
    let stdin = match &cmd.in_redirect {
        Some(f) => StdinSource::File(f.clone()),
        None => if prev_piped {
            StdinSource::Pipe
        } else {
            StdinSource::Inherit
        },
    };
    let stdout = match &cmd.out_redirect {
        Some(f) => StdoutTarget::File(f.clone()),
        None => StdoutTarget::Pipe,
    };
    ProcessPlan { command: cmd.duplicate(), stdin, stdout }
}

/// Plans the processes of one pipe chain, left to right: each reads the pipe of
/// the one before it unless it has an input file, and writes to a pipe unless it
/// has an output file.
pub fn plan_group(group: &CommandGroup) -> (r: Vec<ProcessPlan>)
    ensures
        plans_view(r@) == plan_of_group(group@),
{
    let mut plans: Vec<ProcessPlan> = Vec::new();
    let mut piped = false;
    let mut i: usize = 0;
    while i < group.len()
        invariant
            i <= group@.len(),
            plans@.len() == i,
            piped == prev_piped(group@, i as int),
            forall|j: int| 0 <= j < i ==> #[trigger] plans@[j]@ == plan_at(group@, j),
        decreases group@.len() - i,
    {
        let cmd = group.get(i);
        let p = plan_command(cmd, piped);
        piped = cmd.out_redirect.is_none();
        plans.push(p);
        i = i + 1;
    }
    assert(plans_view(plans@) =~= plan_of_group(group@));
    plans
}

/// Empties the command set, planning its groups in drain order: the group
/// appended last comes first. Empty groups contribute no plan.
pub fn plan_commands(commands: &mut Commands) -> (r: Vec<Vec<ProcessPlan>>)
    ensures
        final(commands)@.len() == 0,
        r@.len() == old(commands)@.len(),
        forall|i: int| 0 <= i < r@.len() ==> plans_view(#[trigger] r@[i]@) == plan_of_group(
            drain_order(old(commands)@)[i],
        ),
{
    let ghost orig = commands@;
    let mut out: Vec<Vec<ProcessPlan>> = Vec::new();
    while commands.has_more()
        invariant
            commands@.len() + out@.len() == orig.len(),
            commands@ == orig.take(commands@.len() as int),
            forall|i: int| 0 <= i < out@.len() ==> plans_view(#[trigger] out@[i]@) == plan_of_group(
                drain_order(orig)[i],
            ),
        decreases commands@.len(),
    {
        let g = commands.get_last();
        match g {
            Some(group) => {
                assert(commands@ =~= orig.take(commands@.len() as int));
                out.push(plan_group(&group));
            },
            None => {},
        }
    }
    out
}

/// Whether the terminal process of a planned chain writes to a pipe, whose bytes
/// are then collected for the console.
pub fn collects_output(plans: &Vec<ProcessPlan>) -> (r: bool)
    ensures
        r == (plans@.len() > 0 && plans@.last().stdout@ is Pipe),
{
    if plans.len() == 0 {
        false
    } else {
        match plans[plans.len() - 1].stdout {
            StdoutTarget::Pipe => true,
            StdoutTarget::File(_) => false,
        }
    }
}

/// A command with an input file never reads a pipe, and one with an output file
/// never writes one, so the command after it reads no pipe either.
pub proof fn law_redirects_take_no_pipe(g: Seq<CommandModel>, i: int)
    requires
        0 <= i < g.len(),
    ensures
        g[i].in_redirect is Some ==> plan_of_group(g)[i].stdin == InModel::File(g[i].in_redirect->0),
        g[i].out_redirect is Some ==> plan_of_group(g)[i].stdout == OutModel::File(g[i].out_redirect->0),
        g[i].out_redirect is Some && i + 1 < g.len() ==> !(plan_of_group(g)[i + 1].stdin is Pipe),
{
}

} // verus!
