use vstd::prelude::*;
use vstd::string::StrSliceExecFns;
use vstd::string::StringExecFns;

use crate::error::ShellError;

verus! {

/// The fixed set of commands the shell handles in its own process.
pub open spec fn is_built_in_name(c: Seq<char>) -> bool {
    c == "exit"@ || c == "cd"@ || c == "pwd"@
}

/// Character-by-character equality of two string slices.
fn str_eq(a: &str, b: &str) -> (r: bool)
    ensures
        r == (a@ == b@),
{
    let na = a.unicode_len();
    let nb = b.unicode_len();
    if na != nb {
        return false;
    }
    let mut i: usize = 0;
    while i < na
        invariant
            na == a@.len(),
            nb == b@.len(),
            na == nb,
            i <= na,
            forall|j: int| 0 <= j < i ==> a@[j] == b@[j],
        decreases na - i,
    {
        if a.get_char(i) != b.get_char(i) {
            return false;
        }
        i = i + 1;
    }
    proof {
        assert(a@ =~= b@);
    }
    true
}

/// Pure membership test: does the shell run `command` in its own process?
pub fn is_built_in(command: &str) -> (r: bool)
    ensures
        r == is_built_in_name(command@),
{
    str_eq(command, "exit") || str_eq(command, "cd") || str_eq(command, "pwd")
}

/// What a built-in stage asks the surrounding process to do.  The dispatcher
/// only decides the effect; the caller carries it out on the process.
#[derive(Debug, PartialEq)]
pub enum BuiltInAction {
    /// Terminate the whole shell.
    Exit,
    /// Change the working directory to `target`.  `warn` notes that the
    /// stage was not the first of its pipeline, where a directory change has
    /// no effect beyond the shell's own process.
    ChangeDir { target: String, warn: bool },
    /// Print the current working directory.
    PrintWorkingDir,
}

/// Description the `cd` built-in reports when given too many arguments.
pub open spec fn cd_usage_detail() -> Seq<char> {
    "Too many arguments is inputed.\nUSAGE: cd [DIR_NAME]"@
}

/// Description the `cd` built-in reports when no home directory is known.
pub open spec fn cd_no_home_detail() -> Seq<char> {
    "the home directory could not be determined"@
}

/// Description reported when a command outside the built-in set reaches the
/// dispatcher, which fails closed rather than running anything.
pub open spec fn not_built_in_detail() -> Seq<char> {
    "not a built-in command"@
}

/// Exactly the result the dispatcher owes for the stage `(i, command, args)`
/// when the home directory lookup yields `home`.
pub open spec fn built_in_decision(
    i: int,
    command: Seq<char>,
    args: Seq<Seq<char>>,
    home: Option<Seq<char>>,
    r: Result<BuiltInAction, ShellError>,
) -> bool {
    if command == "exit"@ {
        r == Ok::<BuiltInAction, ShellError>(BuiltInAction::Exit)
    } else if command == "cd"@ {
        if args.len() >= 2 {
            &&& r matches Err(e)
            &&& e.spec_command() == "cd"@
            &&& e.spec_detail() == cd_usage_detail()
        } else if args.len() == 1 {
            &&& r matches Ok(BuiltInAction::ChangeDir { target, warn })
            &&& target@ == args[0]
            &&& warn == (i != 0)
        } else {
            match home {
                Some(h) => {
                    &&& r matches Ok(BuiltInAction::ChangeDir { target, warn })
                    &&& target@ == h
                    &&& warn == (i != 0)
                },
                None => {
                    &&& r matches Err(e)
                    &&& e.spec_command() == "cd"@
                    &&& e.spec_detail() == cd_no_home_detail()
                },
            }
        }
    } else if command == "pwd"@ {
        r == Ok::<BuiltInAction, ShellError>(BuiltInAction::PrintWorkingDir)
    } else {
        &&& r matches Err(e)
        &&& e.spec_command() == command
        &&& e.spec_detail() == not_built_in_detail()
    }
}

/// Decides the result of one built-in stage from the stage data and an
/// already looked-up home directory, so the decision is pinned down for every
/// value the lookup can take.
pub fn built_in_action(i: usize, command: &str, args: &Vec<String>, home: Option<String>) -> (r:
    Result<BuiltInAction, ShellError>)
    ensures
        built_in_decision(i as int, command@, args.deep_view(), home.deep_view(), r),
{
    if str_eq(command, "exit") {
        Ok(BuiltInAction::Exit)
    } else if str_eq(command, "cd") {
        if args.len() >= 2 {
            Err(
                ShellError::CommandExecError(
                    String::from_str("cd"),
                    String::from_str("Too many arguments is inputed.\nUSAGE: cd [DIR_NAME]"),
                ),
            )
        } else if args.len() == 1 {
            let target = args[0].clone();
            proof {
                assert(args.deep_view()[0] == args@[0]@);
            }
            Ok(BuiltInAction::ChangeDir { target, warn: i != 0 })
        } else {
            match home {
                Some(h) => Ok(BuiltInAction::ChangeDir { target: h, warn: i != 0 }),
                None => Err(
                    ShellError::CommandExecError(
                        String::from_str("cd"),
                        String::from_str("the home directory could not be determined"),
                    ),
                ),
            }
        }
    } else if str_eq(command, "pwd") {
        Ok(BuiltInAction::PrintWorkingDir)
    } else {
        Err(
            ShellError::CommandExecError(
                command.to_owned(),
                String::from_str("not a built-in command"),
            ),
        )
    }
}

/// `cd` with two or more arguments always fails with the usage description
/// and decides no action at all, whatever the home lookup yielded, so the
/// working directory stays untouched.
pub proof fn lemma_cd_usage_failure(
    i: int,
    args: Seq<Seq<char>>,
    home: Option<Seq<char>>,
    r: Result<BuiltInAction, ShellError>,
)
    requires
        args.len() >= 2,
        built_in_decision(i, "cd"@, args, home, r),
    ensures
        r is Err,
        r->Err_0.spec_command() == "cd"@,
        r->Err_0.spec_detail() == cd_usage_detail(),
{
    reveal_strlit("cd");
    reveal_strlit("exit");
    assert("cd"@.len() == 2);
    assert("exit"@.len() == 4);
}

/// Relies on dirs::home_dir: the user's home directory, if the environment
/// reports one.  The outcome depends on the environment alone, so nothing is
/// promised of it.
#[verifier::external_body]
fn query_home_dir() -> Option<String> {
    match dirs::home_dir() {
        Some(path) => Some(path.to_string_lossy().into_owned()),
        None => None,
    }
}

/// Routes one built-in stage to its decided action.  Only `cd` without
/// arguments consults the environment (for the home directory), so for every
/// other stage the result is pinned down exactly; for that one the result is
/// the decision for whatever the lookup yielded.
pub fn exec_built_in(i: &usize, command: &str, args: &Vec<String>) -> (r: Result<
    BuiltInAction,
    ShellError,
>)
    ensures
        exists|home: Option<Seq<char>>|
            built_in_decision(*i as int, command@, args.deep_view(), home, r),
        !(command@ == "cd"@ && args.deep_view().len() == 0) ==> built_in_decision(
            *i as int,
            command@,
            args.deep_view(),
            None,
            r,
        ),
{
    let home = if str_eq(command, "cd") && args.len() == 0 {
        query_home_dir()
    } else {
        None
    };
    let ghost home_view = home.deep_view();
    let r = built_in_action(*i, command, args, home);
    proof {
        assert(args.deep_view().len() == args@.len());
        assert(built_in_decision(*i as int, command@, args.deep_view(), home_view, r));
    }
    r
}

} // verus!
