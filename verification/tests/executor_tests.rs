use tsh::cmdline::CommandLine;
use tsh::error::ShellError;
use tsh::executor::PipelinePlan;
use tsh::executor::StageAction;
use tsh::executor::plan_pipeline;
use tsh::executor::stage_failure;

#[test]
fn test_plan_two_external_stages() {
    let cli = CommandLine::new("ls -l | grep test");
    let plan = plan_pipeline(&cli);
    assert_eq!(
        plan,
        PipelinePlan {
            actions: vec![
                StageAction::Spawn {
                    command: "ls".to_string(),
                    args: vec!["-l".to_string()],
                    stdin_from_prev: false,
                    stdout_piped: true,
                },
                StageAction::Spawn {
                    command: "grep".to_string(),
                    args: vec!["test".to_string()],
                    stdin_from_prev: true,
                    stdout_piped: false,
                },
            ],
            final_command: Some("grep".to_string()),
        }
    );
}

#[test]
fn test_plan_single_external_stage_inherits_both_streams() {
    let cli = CommandLine::new("ls");
    let plan = plan_pipeline(&cli);
    assert_eq!(
        plan,
        PipelinePlan {
            actions: vec![StageAction::Spawn {
                command: "ls".to_string(),
                args: vec![],
                stdin_from_prev: false,
                stdout_piped: false,
            }],
            final_command: Some("ls".to_string()),
        }
    );
}

#[test]
fn test_plan_built_in_only_needs_no_wait() {
    let cli = CommandLine::new("pwd");
    let plan = plan_pipeline(&cli);
    assert_eq!(
        plan,
        PipelinePlan {
            actions: vec![StageAction::RunBuiltIn {
                index: 0,
                command: "pwd".to_string(),
                args: vec![],
            }],
            final_command: None,
        }
    );
}

#[test]
fn test_plan_built_in_between_externals_keeps_pending_child() {
    // A built-in mid-pipeline is not wired into the pipe chain: the stage
    // after it still reads from the last spawned process.
    let cli = CommandLine::new("ls | pwd | wc");
    let plan = plan_pipeline(&cli);
    assert_eq!(plan.actions.len(), 3);
    assert_eq!(
        plan.actions[1],
        StageAction::RunBuiltIn { index: 1, command: "pwd".to_string(), args: vec![] }
    );
    assert_eq!(
        plan.actions[2],
        StageAction::Spawn {
            command: "wc".to_string(),
            args: vec![],
            stdin_from_prev: true,
            stdout_piped: false,
        }
    );
    assert_eq!(plan.final_command, Some("wc".to_string()));
}

#[test]
fn test_plan_empty_pipeline_is_a_no_op() {
    let cli = CommandLine::new("");
    let plan = plan_pipeline(&cli);
    assert_eq!(plan, PipelinePlan { actions: vec![], final_command: None });
}

#[test]
fn test_error_message_names_the_command() {
    let e = ShellError::CommandExecError(
        "nosuchprogram".to_string(),
        "spawn failed".to_string(),
    );
    let text = e.message();
    assert_eq!(
        text,
        "Error: The following Error is occured when execute 'nosuchprogram'.\nspawn failed"
    );
}

#[test]
fn test_stage_failure_names_the_command() {
    let e = stage_failure("nosuchprogram".to_string(), "No such file or directory".to_string());
    assert_eq!(
        e,
        ShellError::CommandExecError(
            "nosuchprogram".to_string(),
            "No such file or directory".to_string()
        )
    );
}
