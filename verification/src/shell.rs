//! The shell executor's decisions: which shell runs the commands, and
//! what a finished command hands back.

use vstd::prelude::*;
use crate::pipeline::Output;

verus! {

/// The shell that runs the commands of a pipeline: the user's session
/// shell where one was found, else `sh`.
pub fn get_shell(found: Option<String>) -> (res: String)
    ensures
        res@ == match found {
            Some(s) => s@,
            None => "sh"@,
        },
{
    match found {
        Some(s) => s,
        None => "sh".to_owned(),
    }
}

/// The user's session shell as a single command is run under it: the
/// shell that was found or, where none was, the error that names `sh`, so
/// that the command is not run.
pub fn session_shell(found: Option<String>) -> (res: Result<String, String>)
    ensures
        match found {
            Some(s) => res == Ok::<String, String>(s),
            None => res matches Err(e) && e@ == "sh"@,
        },
{
    match found {
        Some(s) => Ok(s),
        None => Err("sh".to_owned()),
    }
}

/// What a finished command hands back: what it wrote to its output where
/// it succeeded, what it wrote to its error stream where it failed.
pub fn shell(output: Output) -> (res: Result<String, String>)
    ensures
        res == if output.success() {
            Ok::<String, String>(output.stdout)
        } else {
            Err::<String, String>(output.stderr)
        },
{
    if output.code == 0 {
        Ok(output.stdout)
    } else {
        Err(output.stderr)
    }
}

} // verus!
