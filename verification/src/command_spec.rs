//! The executor's lowered view of a command expression: identical to the
//! algebra except that a command whose name is a registered built-in
//! becomes a `Builtin` node. Lowering is a structural one-pass map and
//! preserves pipeline flatness. This module also fixes the executor's
//! pure decisions: how a wait status maps to an exit code, how a
//! redirection opens its file, and how the stages of a pipeline are wired
//! to its pipes.

use vstd::prelude::*;
use crate::overlay::EnvOverlay;
use crate::envvalue::Val;
use crate::runnable::{
    Runnable, RunModel, RedirectTarget, TargetModel, pipe_flat, flat_stages, lemma_models_of,
    models_of,
};
use crate::strutil::{str_eq, to_owned_string};

verus! {

/// The in-process commands of the built-in registry.
#[derive(PartialEq, Eq, Structural, Clone, Copy, Debug)]
pub enum BuiltinKind {
    Cd,
    Pwd,
    Pushd,
    Popd,
    Dirs,
    Exit,
    Quit,
    Which,
}

/// The fixed dispatch table: which names are built-ins.
pub open spec fn spec_builtin(name: Seq<char>) -> Option<BuiltinKind> {
    if name == "cd"@ {
        Some(BuiltinKind::Cd)
    } else if name == "pwd"@ {
        Some(BuiltinKind::Pwd)
    } else if name == "pushd"@ {
        Some(BuiltinKind::Pushd)
    } else if name == "popd"@ {
        Some(BuiltinKind::Popd)
    } else if name == "dirs"@ {
        Some(BuiltinKind::Dirs)
    } else if name == "exit"@ {
        Some(BuiltinKind::Exit)
    } else if name == "quit"@ {
        Some(BuiltinKind::Quit)
    } else if name == "which"@ {
        Some(BuiltinKind::Which)
    } else {
        None
    }
}

/// Looks a name up in the built-in registry.
pub fn get_builtin(name: &str) -> (r: Option<BuiltinKind>)
    ensures
        r == spec_builtin(name@),
{
    if str_eq(name, "cd") {
        Some(BuiltinKind::Cd)
    } else if str_eq(name, "pwd") {
        Some(BuiltinKind::Pwd)
    } else if str_eq(name, "pushd") {
        Some(BuiltinKind::Pushd)
    } else if str_eq(name, "popd") {
        Some(BuiltinKind::Popd)
    } else if str_eq(name, "dirs") {
        Some(BuiltinKind::Dirs)
    } else if str_eq(name, "exit") {
        Some(BuiltinKind::Exit)
    } else if str_eq(name, "quit") {
        Some(BuiltinKind::Quit)
    } else if str_eq(name, "which") {
        Some(BuiltinKind::Which)
    } else {
        None
    }
}

/// The lowered command tree the executor walks.
#[derive(Debug)]
pub enum CommandSpec {
    Command { program: String, args: Vec<String> },
    Builtin { name: String, builtin: BuiltinKind, args: Vec<String> },
    Pipeline { predecessors: Vec<CommandSpec>, final_cmd: Box<CommandSpec> },
    Subshell { runnable: Box<CommandSpec> },
    Redirect { runnable: Box<CommandSpec>, target: RedirectTarget },
    WithEnv { runnable: Box<CommandSpec>, overlay: EnvOverlay },
}

/// Model of a lowered command tree.
#[verifier::ext_equal]
pub enum SpecModel {
    Command { program: Seq<char>, args: Seq<Seq<char>> },
    Builtin { name: Seq<char>, builtin: BuiltinKind, args: Seq<Seq<char>> },
    Pipeline { predecessors: Seq<SpecModel>, final_cmd: Box<SpecModel> },
    Subshell { runnable: Box<SpecModel> },
    Redirect { runnable: Box<SpecModel>, target: TargetModel },
    WithEnv { runnable: Box<SpecModel>, overlay: Seq<(Seq<char>, Val)> },
}

pub open spec fn spec_model_of(c: CommandSpec) -> SpecModel
    decreases c,
{
    match c {
        CommandSpec::Command { program, args } => SpecModel::Command {
            program: program@,
            args: Seq::new(args@.len(), |i: int| args@[i]@),
        },
        CommandSpec::Builtin { name, builtin, args } => SpecModel::Builtin {
            name: name@,
            builtin,
            args: Seq::new(args@.len(), |i: int| args@[i]@),
        },
        CommandSpec::Pipeline { predecessors, final_cmd } => SpecModel::Pipeline {
            predecessors: spec_models_of(predecessors@),
            final_cmd: Box::new(spec_model_of(*final_cmd)),
        },
        CommandSpec::Subshell { runnable } => SpecModel::Subshell {
            runnable: Box::new(spec_model_of(*runnable)),
        },
        CommandSpec::Redirect { runnable, target } => SpecModel::Redirect {
            runnable: Box::new(spec_model_of(*runnable)),
            target: target@,
        },
        CommandSpec::WithEnv { runnable, overlay } => SpecModel::WithEnv {
            runnable: Box::new(spec_model_of(*runnable)),
            overlay: overlay.omodel(),
        },
    }
}

pub open spec fn spec_models_of(cs: Seq<CommandSpec>) -> Seq<SpecModel>
    decreases cs,
{
    if cs.len() == 0 {
        Seq::empty()
    } else {
        seq![spec_model_of(cs[0])] + spec_models_of(cs.drop_first())
    }
}

pub proof fn lemma_spec_models_of(cs: Seq<CommandSpec>)
    ensures
        spec_models_of(cs).len() == cs.len(),
        forall|i: int| 0 <= i < cs.len() ==> #[trigger] spec_models_of(cs)[i] == spec_model_of(
            cs[i],
        ),
    decreases cs,
{
    if cs.len() > 0 {
        lemma_spec_models_of(cs.drop_first());
        assert forall|i: int| 0 <= i < cs.len() implies #[trigger] spec_models_of(cs)[i]
            == spec_model_of(cs[i]) by {
            if i > 0 {
                assert(cs.drop_first()[i - 1] == cs[i]);
                assert(spec_models_of(cs)[i] == spec_models_of(cs.drop_first())[i - 1]);
            }
        }
    }
}

impl View for CommandSpec {
    type V = SpecModel;

    open spec fn view(&self) -> SpecModel {
        spec_model_of(*self)
    }
}

/// What lowering denotes: the identity map, except that commands whose
/// name the registry knows become built-in nodes.
pub open spec fn lower_model(m: RunModel) -> SpecModel
    decreases m,
{
    match m {
        RunModel::Command { prog, args } => match spec_builtin(prog) {
            Some(b) => SpecModel::Builtin { name: prog, builtin: b, args },
            None => SpecModel::Command { program: prog, args },
        },
        RunModel::Pipeline { predecessors, final_cmd } => SpecModel::Pipeline {
            predecessors: lower_models(predecessors),
            final_cmd: Box::new(lower_model(*final_cmd)),
        },
        RunModel::Subshell { runnable } => SpecModel::Subshell {
            runnable: Box::new(lower_model(*runnable)),
        },
        RunModel::Redirect { runnable, target } => SpecModel::Redirect {
            runnable: Box::new(lower_model(*runnable)),
            target,
        },
        RunModel::WithEnv { runnable, overlay } => SpecModel::WithEnv {
            runnable: Box::new(lower_model(*runnable)),
            overlay,
        },
    }
}

pub open spec fn lower_models(ms: Seq<RunModel>) -> Seq<SpecModel>
    decreases ms,
{
    if ms.len() == 0 {
        Seq::empty()
    } else {
        seq![lower_model(ms[0])] + lower_models(ms.drop_first())
    }
}

pub proof fn lemma_lower_models(ms: Seq<RunModel>)
    ensures
        lower_models(ms).len() == ms.len(),
        forall|i: int| 0 <= i < ms.len() ==> #[trigger] lower_models(ms)[i] == lower_model(
            ms[i],
        ),
    decreases ms,
{
    if ms.len() > 0 {
        lemma_lower_models(ms.drop_first());
        assert forall|i: int| 0 <= i < ms.len() implies #[trigger] lower_models(ms)[i]
            == lower_model(ms[i]) by {
            if i > 0 {
                assert(ms.drop_first()[i - 1] == ms[i]);
                assert(lower_models(ms)[i] == lower_models(ms.drop_first())[i - 1]);
            }
        }
    }
}

/// Lowers a command expression, consulting the built-in registry at each
/// command node.
#[verifier::loop_isolation(false)]
pub fn lower(r: &Runnable) -> (c: CommandSpec)
    ensures
        c@ == lower_model(r@),
    decreases r,
{
    match r {
        Runnable::Command { prog, args } => {
            let mut out: Vec<String> = Vec::new();
            let mut i: usize = 0;
            while i < args.len()
                invariant
                    i <= args@.len(),
                    out@.len() == i,
                    forall|j: int| 0 <= j < i ==> (#[trigger] out@[j])@ == args@[j]@,
                decreases args@.len() - i,
            {
                out.push(to_owned_string(args[i].as_str()));
                i = i + 1;
            }
            proof {
                assert(Seq::new(out@.len(), |k: int| out@[k]@) =~= Seq::new(
                    args@.len(),
                    |k: int| args@[k]@,
                ));
            }
            match get_builtin(prog.as_str()) {
                Some(b) => CommandSpec::Builtin {
                    name: to_owned_string(prog.as_str()),
                    builtin: b,
                    args: out,
                },
                None => CommandSpec::Command { program: to_owned_string(prog.as_str()), args: out },
            }
        },
        Runnable::Pipeline { predecessors, final_cmd } => {
            proof {
                lemma_models_of(predecessors@);
            }
            let mut out: Vec<CommandSpec> = Vec::new();
            let mut i: usize = 0;
            while i < predecessors.len()
                invariant
                    i <= predecessors@.len(),
                    out@.len() == i,
                    forall|j: int| 0 <= j < i ==> (#[trigger] out@[j])@ == lower_model(
                        predecessors@[j]@,
                    ),
                decreases predecessors@.len() - i,
            {
                out.push(lower(&predecessors[i]));
                i = i + 1;
            }
            let fin = lower(&**final_cmd);
            let c = CommandSpec::Pipeline { predecessors: out, final_cmd: Box::new(fin) };
            proof {
                lemma_spec_models_of(out@);
                lemma_lower_models(models_of(predecessors@));
                assert(spec_models_of(out@) =~= lower_models(models_of(predecessors@)));
            }
            c
        },
        Runnable::Subshell { runnable } => CommandSpec::Subshell {
            runnable: Box::new(lower(&**runnable)),
        },
        Runnable::Redirect { runnable, target } => CommandSpec::Redirect {
            runnable: Box::new(lower(&**runnable)),
            target: target.duplicate(),
        },
        Runnable::WithEnv { runnable, overlay } => CommandSpec::WithEnv {
            runnable: Box::new(lower(&**runnable)),
            overlay: overlay.duplicate(),
        },
    }
}

/// Pipeline flatness of a lowered tree.
pub open spec fn spec_pipe_flat(m: SpecModel) -> bool
    decreases m,
{
    match m {
        SpecModel::Command { .. } => true,
        SpecModel::Builtin { .. } => true,
        SpecModel::Pipeline { predecessors, final_cmd } => predecessors.len() >= 1
            && spec_flat_stages(predecessors) && !(*final_cmd is Pipeline) && spec_pipe_flat(
            *final_cmd,
        ),
        SpecModel::Subshell { runnable } => spec_pipe_flat(*runnable),
        SpecModel::Redirect { runnable, .. } => spec_pipe_flat(*runnable),
        SpecModel::WithEnv { runnable, .. } => spec_pipe_flat(*runnable),
    }
}

pub open spec fn spec_flat_stages(ms: Seq<SpecModel>) -> bool
    decreases ms,
{
    if ms.len() == 0 {
        true
    } else {
        !(ms[0] is Pipeline) && spec_pipe_flat(ms[0]) && spec_flat_stages(ms.drop_first())
    }
}

/// Lowering preserves pipeline flatness: built-ins are resolved in place
/// and the shape of the tree never changes.
pub proof fn lemma_lower_preserves_flat(m: RunModel)
    requires
        pipe_flat(m),
    ensures
        spec_pipe_flat(lower_model(m)),
    decreases m,
{
    match m {
        RunModel::Command { .. } => {},
        RunModel::Pipeline { predecessors, final_cmd } => {
            lemma_lower_flat_stages(predecessors);
            lemma_lower_models(predecessors);
            lemma_lower_preserves_flat(*final_cmd);
            assert(!(lower_model(*final_cmd) is Pipeline));
        },
        RunModel::Subshell { runnable } => {
            lemma_lower_preserves_flat(*runnable);
        },
        RunModel::Redirect { runnable, .. } => {
            lemma_lower_preserves_flat(*runnable);
        },
        RunModel::WithEnv { runnable, .. } => {
            lemma_lower_preserves_flat(*runnable);
        },
    }
}

proof fn lemma_lower_flat_stages(ms: Seq<RunModel>)
    requires
        flat_stages(ms),
    ensures
        spec_flat_stages(lower_models(ms)),
    decreases ms,
{
    if ms.len() > 0 {
        lemma_lower_preserves_flat(ms[0]);
        lemma_lower_flat_stages(ms.drop_first());
        assert(lower_models(ms)[0] == lower_model(ms[0]));
        assert(lower_models(ms).drop_first() =~= lower_models(ms.drop_first()));
    }
}

/// The result of one execution: an exit code, and in capture mode two
/// readable descriptors holding the final stage's output.
pub enum ShellResult {
    ExitOnly { exit_code: u8 },
    Captured { exit_code: u8, stdout_fd: i32, stderr_fd: i32 },
}

impl ShellResult {
    pub open spec fn spec_exit_code(&self) -> int {
        match self {
            ShellResult::ExitOnly { exit_code } => *exit_code as int,
            ShellResult::Captured { exit_code, .. } => *exit_code as int,
        }
    }

    /// The exit code this result carries.
    pub fn exit_code(&self) -> (r: u8)
        ensures
            r as int == self.spec_exit_code(),
    {
        match self {
            ShellResult::ExitOnly { exit_code } => *exit_code,
            ShellResult::Captured { exit_code, .. } => *exit_code,
        }
    }
}

/// What a wait on a child reported: a normal exit with a code, or death
/// by a signal.
pub enum WaitOutcome {
    Exited { code: i32 },
    Signaled { signal: i32 },
}

/// Maps a wait status to the shell's exit code: a normal exit keeps its
/// code; a child killed by signal `s` produces `128 + s`.
pub fn exit_code_of_wait(w: &WaitOutcome) -> (r: u8)
    requires
        match w {
            WaitOutcome::Exited { code } => 0 <= *code <= 255,
            WaitOutcome::Signaled { signal } => 0 <= *signal < 128,
        },
    ensures
        match w {
            WaitOutcome::Exited { code } => r as int == *code,
            WaitOutcome::Signaled { signal } => r as int == 128 + *signal,
        },
{
    match w {
        WaitOutcome::Exited { code } => *code as u8,
        WaitOutcome::Signaled { signal } => (128 + *signal) as u8,
    }
}

/// How a redirection opens its target file: write and create always;
/// truncate exactly when not appending.
pub struct OpenPlan {
    pub write: bool,
    pub create: bool,
    pub truncate: bool,
    pub append: bool,
}

pub fn redirect_open_plan(append: bool) -> (r: OpenPlan)
    ensures
        r.write,
        r.create,
        r.truncate == !append,
        r.append == append,
{
    OpenPlan { write: true, create: true, truncate: !append, append }
}

/// How one pipeline stage is wired: where its standard input and output
/// come from, and whether it runs in the parent process.
pub struct StageWiring {
    pub stdin_pipe: Option<usize>,
    pub stdout_pipe: Option<usize>,
    pub run_in_parent: bool,
}

/// The construction plan of a pipeline of `n` predecessors and one final
/// stage: `n` pipes; stage `i` reads pipe `i - 1` (none for the first)
/// and writes pipe `i`; the final stage reads the last pipe, writes no
/// pipe, and runs in the parent exactly when it is a built-in.
pub struct PipelinePlan {
    pub pipe_count: usize,
    pub wirings: Vec<StageWiring>,
}

pub fn plan_pipeline(predecessors: &Vec<CommandSpec>, final_cmd: &CommandSpec) -> (p: PipelinePlan)
    requires
        predecessors@.len() < usize::MAX,
    ensures
        p.pipe_count == predecessors@.len(),
        p.wirings@.len() == predecessors@.len() + 1,
        forall|i: int| 0 <= i < predecessors@.len() ==> {
            &&& (#[trigger] p.wirings@[i]).stdout_pipe == Some(i as usize)
            &&& p.wirings@[i].stdin_pipe == (if i == 0 {
                None::<usize>
            } else {
                Some((i - 1) as usize)
            })
            &&& !p.wirings@[i].run_in_parent
        },
        p.wirings@.last().stdout_pipe is None,
        p.wirings@.last().stdin_pipe == (if predecessors@.len() == 0 {
            None::<usize>
        } else {
            Some((predecessors@.len() - 1) as usize)
        }),
        p.wirings@.last().run_in_parent == (final_cmd@ is Builtin),
{
    let n = predecessors.len();
    let mut wirings: Vec<StageWiring> = Vec::new();
    let mut i: usize = 0;
    while i < n
        invariant
            i <= n,
            n == predecessors@.len(),
            n < usize::MAX,
            wirings@.len() == i,
            forall|j: int| 0 <= j < i ==> {
                &&& (#[trigger] wirings@[j]).stdout_pipe == Some(j as usize)
                &&& wirings@[j].stdin_pipe == (if j == 0 {
                    None::<usize>
                } else {
                    Some((j - 1) as usize)
                })
                &&& !wirings@[j].run_in_parent
            },
        decreases n - i,
    {
        let stdin_pipe: Option<usize> = if i == 0 {
            None
        } else {
            Some(i - 1)
        };
        wirings.push(StageWiring { stdin_pipe, stdout_pipe: Some(i), run_in_parent: false });
        i = i + 1;
    }
    let final_in_parent = match final_cmd {
        CommandSpec::Builtin { .. } => true,
        _ => false,
    };
    let final_stdin: Option<usize> = if n == 0 {
        None
    } else {
        Some(n - 1)
    };
    wirings.push(
        StageWiring { stdin_pipe: final_stdin, stdout_pipe: None, run_in_parent: final_in_parent },
    );
    PipelinePlan { pipe_count: n, wirings }
}

} // verus!
