use vstd::prelude::*;

use crate::builtin::is_built_in;
use crate::builtin::is_built_in_name;
use crate::cmdline::CommandLine;
use crate::cmdline::stage_view;
use crate::error::ShellError;

verus! {

/// One step of a pipeline run, as the executor decides it.
#[derive(Debug, PartialEq)]
pub enum StageAction {
    /// Run a built-in inside the shell's own process.  `index` is the
    /// stage's position, handed on so `cd` can warn when it is not first.
    RunBuiltIn { index: usize, command: String, args: Vec<String> },
    /// Spawn `command` with `args` as a child process.  `stdin_from_prev`
    /// says the child reads the previously spawned stage's standard output;
    /// otherwise it inherits the shell's standard input.  `stdout_piped`
    /// says the child writes into a fresh pipe kept for the following stage;
    /// otherwise it inherits the shell's standard output.
    Spawn { command: String, args: Vec<String>, stdin_from_prev: bool, stdout_piped: bool },
}

/// The executor's whole wiring decision for one pipeline: one action per
/// stage, in execution order, and the command of the child that remains to
/// be waited on once the last stage has been started, if any stage spawned
/// one.  A wait failure is attributed to that command.
#[derive(Debug, PartialEq)]
pub struct PipelinePlan {
    pub actions: Vec<StageAction>,
    pub final_command: Option<String>,
}

/// Whether any of the first `upto` stages runs as an external process, i.e.
/// whether a spawned child is pending when stage `upto` is reached.
pub open spec fn any_external(stages: Seq<(int, Seq<char>, Seq<Seq<char>>)>, upto: int) -> bool {
    exists|j: int| 0 <= j < upto && !is_built_in_name((#[trigger] stages[j]).1)
}

/// The command of the last external stage among the first `upto`, if any:
/// the child still pending once stage `upto` is reached, which the executor
/// must wait on at the end of the pipeline.
pub open spec fn last_external_command(
    stages: Seq<(int, Seq<char>, Seq<Seq<char>>)>,
    upto: int,
) -> Option<Seq<char>>
    decreases upto,
{
    if upto <= 0 {
        None
    } else if !is_built_in_name(stages[upto - 1].1) {
        Some(stages[upto - 1].1)
    } else {
        last_external_command(stages, upto - 1)
    }
}

/// The action owed for stage `k` of `stages`: built-ins run in-process with
/// their stage position; an external command reads from the pending child if
/// one exists and writes into a pipe unless it is the last stage.
pub open spec fn action_for(
    stages: Seq<(int, Seq<char>, Seq<Seq<char>>)>,
    k: int,
    a: StageAction,
) -> bool {
    let st = stages[k];
    if is_built_in_name(st.1) {
        &&& a matches StageAction::RunBuiltIn { index, command, args }
        &&& index as int == st.0
        &&& command@ == st.1
        &&& args.deep_view() == st.2
    } else {
        &&& a matches StageAction::Spawn { command, args, stdin_from_prev, stdout_piped }
        &&& command@ == st.1
        &&& args.deep_view() == st.2
        &&& stdin_from_prev == any_external(stages, k)
        &&& stdout_piped == (k < stages.len() - 1)
    }
}

/// A plan that wires `stages` correctly, stage by stage, and names the
/// command of the last spawned child, the one to wait on at the end, exactly
/// when some stage spawned one.
pub open spec fn plan_matches(
    stages: Seq<(int, Seq<char>, Seq<Seq<char>>)>,
    plan: PipelinePlan,
) -> bool {
    &&& plan.actions@.len() == stages.len()
    &&& forall|k: int| 0 <= k < stages.len() ==> action_for(stages, k, #[trigger] plan.actions@[k])
    &&& plan.final_command.deep_view() == last_external_command(stages, stages.len() as int)
}

/// Decides, left to right, how one pipeline is wired and run.  The caller
/// carries the actions out in order, abandoning the remainder on the first
/// failure, and waits on the last spawned child when `final_command` names
/// one.
pub fn plan_pipeline(cli: &CommandLine) -> (plan: PipelinePlan)
    ensures
        plan_matches(cli.spec_stages(), plan),
{
    let ghost stages = cli.spec_stages();
    let n = cli.commands.len();
    let mut actions: Vec<StageAction> = Vec::new();
    let mut has_prev = false;
    let mut final_cmd: Option<String> = None;
    let mut k: usize = 0;
    proof {
        assert(stages.len() == cli.commands@.len());
    }
    while k < n
        invariant
            stages == cli.spec_stages(),
            n == cli.commands@.len(),
            stages.len() == n,
            k <= n,
            actions@.len() == k,
            has_prev == any_external(stages, k as int),
            final_cmd.deep_view() == last_external_command(stages, k as int),
            forall|j: int| 0 <= j < k ==> action_for(stages, j, #[trigger] actions@[j]),
        decreases n - k,
    {
        let stage = &cli.commands[k];
        proof {
            assert(stages[k as int] == stage_view(cli.commands@[k as int]));
        }
        let command = stage.1.clone();
        let args = stage.2.clone();
        proof {
            assert forall|t: int| 0 <= t < stage.2@.len() implies args@[t]@ == stage.2@[t]@ by {
                assert(cloned::<String>(stage.2@[t], args@[t]));
            }
            assert(args.deep_view() =~= stage.2.deep_view());
        }
        let action: StageAction = if is_built_in(command.as_str()) {
            StageAction::RunBuiltIn { index: stage.0, command, args }
        } else {
            final_cmd = Some(command.clone());
            let a = StageAction::Spawn {
                command,
                args,
                stdin_from_prev: has_prev,
                stdout_piped: k + 1 < n,
            };
            has_prev = true;
            a
        };
        proof {
            if !is_built_in_name(stages[k as int].1) {
                assert(!is_built_in_name((stages[k as int]).1));
                assert(any_external(stages, k as int + 1));
            } else {
                assert forall|j: int| 0 <= j < k as int + 1 implies is_built_in_name(
                    (#[trigger] stages[j]).1,
                ) || any_external(stages, k as int) by {
                    if j < k as int && !is_built_in_name(stages[j].1) {
                        assert(any_external(stages, k as int));
                    }
                }
                if any_external(stages, k as int + 1) {
                    let w = choose|j: int|
                        0 <= j < k as int + 1 && !is_built_in_name((#[trigger] stages[j]).1);
                    assert(w < k as int);
                    assert(any_external(stages, k as int));
                }
            }
            assert(action_for(stages, k as int, action));
            assert(last_external_command(stages, k as int + 1) == (if !is_built_in_name(
                stages[k as int].1,
            ) {
                Some(stages[k as int].1)
            } else {
                last_external_command(stages, k as int)
            }));
        }
        actions.push(action);
        k = k + 1;
    }
    PipelinePlan { actions, final_command: final_cmd }
}

/// The failure the executor reports when the OS fails a stage's process
/// step, spawning the stage or the final wait on it: the error names that
/// stage's command and carries the OS's description.  Reporting it abandons
/// the rest of the pipeline.
pub fn stage_failure(command: String, detail: String) -> (e: ShellError)
    ensures
        e.spec_command() == command@,
        e.spec_detail() == detail@,
{
    ShellError::CommandExecError(command, detail)
}

} // verus!
