use vstd::prelude::*;
use vstd::string::StringExecFns;

verus! {

/// The shell's single failure kind: the name of the offending command
/// together with a textual description of what went wrong.  Both built-in
/// failures and spawn/wait failures of external commands use this shape.
#[derive(Debug, PartialEq)]
pub enum ShellError {
    CommandExecError(String, String),
}

impl ShellError {
    /// The command this failure is attributed to.
    pub open spec fn spec_command(&self) -> Seq<char> {
        match self {
            ShellError::CommandExecError(cmd, _) => cmd@,
        }
    }

    /// The description of the failure.
    pub open spec fn spec_detail(&self) -> Seq<char> {
        match self {
            ShellError::CommandExecError(_, detail) => detail@,
        }
    }

    /// Renders the failure for the error stream, naming the command and
    /// repeating the recorded description.
    pub fn message(&self) -> (r: String)
        ensures
            r@ == "Error: The following Error is occured when execute '"@ + self.spec_command()
                + "'.\n"@ + self.spec_detail(),
    {
        match self {
            ShellError::CommandExecError(cmd, detail) => {
                let mut r = String::from_str("Error: The following Error is occured when execute '");
                r.append(cmd.as_str());
                r.append("'.\n");
                r.append(detail.as_str());
                r
            },
        }
    }
}

} // verus!
