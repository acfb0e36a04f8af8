use tsh::builtin::BuiltInAction;
use tsh::builtin::built_in_action;
use tsh::builtin::exec_built_in;
use tsh::builtin::is_built_in;
use tsh::error::ShellError;

#[test]
fn test_is_built_in() {
    let actual_exit: bool = is_built_in("exit");
    assert_eq!(actual_exit, true);

    let actual_ls: bool = is_built_in("ls");
    assert_eq!(actual_ls, false);
}

#[test]
fn test_is_built_in_whole_set() {
    assert!(is_built_in("exit"));
    assert!(is_built_in("cd"));
    assert!(is_built_in("pwd"));
    assert!(!is_built_in(""));
    assert!(!is_built_in("grep"));
    assert!(!is_built_in("exit "));
    assert!(!is_built_in("CD"));
}

#[test]
fn test_cd_no_arguments_goes_home() {
    let args: Vec<String> = vec![];
    let r = built_in_action(0, "cd", &args, Some("/home/someone".to_string()));
    assert_eq!(
        r,
        Ok(BuiltInAction::ChangeDir { target: "/home/someone".to_string(), warn: false })
    );
}

#[test]
fn test_cd_one_argument_goes_there() {
    let args = vec!["/tmp".to_string()];
    let r = built_in_action(0, "cd", &args, None);
    assert_eq!(r, Ok(BuiltInAction::ChangeDir { target: "/tmp".to_string(), warn: false }));
}

#[test]
fn test_cd_two_arguments_is_usage_error() {
    let args = vec!["a".to_string(), "b".to_string()];
    let r = built_in_action(0, "cd", &args, Some("/home/someone".to_string()));
    match r {
        Err(ShellError::CommandExecError(cmd, detail)) => {
            assert_eq!(cmd, "cd");
            assert_eq!(detail, "Too many arguments is inputed.\nUSAGE: cd [DIR_NAME]");
        }
        other => panic!("expected a usage failure, got {:?}", other),
    }
}

#[test]
fn test_cd_not_first_stage_warns() {
    let args = vec!["/tmp".to_string()];
    let r = built_in_action(1, "cd", &args, None);
    assert_eq!(r, Ok(BuiltInAction::ChangeDir { target: "/tmp".to_string(), warn: true }));
}

#[test]
fn test_cd_no_home_is_error() {
    let args: Vec<String> = vec![];
    let r = built_in_action(0, "cd", &args, None);
    match r {
        Err(ShellError::CommandExecError(cmd, detail)) => {
            assert_eq!(cmd, "cd");
            assert!(detail.contains("home"));
        }
        other => panic!("expected a failure, got {:?}", other),
    }
}

#[test]
fn test_exit_decides_exit() {
    let args: Vec<String> = vec![];
    assert_eq!(exec_built_in(&0, "exit", &args), Ok(BuiltInAction::Exit));
}

#[test]
fn test_pwd_decides_print() {
    let args: Vec<String> = vec![];
    assert_eq!(exec_built_in(&0, "pwd", &args), Ok(BuiltInAction::PrintWorkingDir));
}

#[test]
fn test_unknown_command_fails_closed() {
    let args: Vec<String> = vec![];
    let r = exec_built_in(&0, "ls", &args);
    match r {
        Err(ShellError::CommandExecError(cmd, _)) => assert_eq!(cmd, "ls"),
        other => panic!("expected a failure, got {:?}", other),
    }
}

#[test]
fn test_exec_built_in_cd_one_argument() {
    let args = vec!["/tmp".to_string()];
    let r = exec_built_in(&0, "cd", &args);
    assert_eq!(r, Ok(BuiltInAction::ChangeDir { target: "/tmp".to_string(), warn: false }));
}
