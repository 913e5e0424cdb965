//! A request to run a command.
use vstd::prelude::*;
use crate::models::command::Command;

verus! {

/// A command to run, with its arguments and how to run it.
pub struct ExecutionRequest {
    /// Print the script instead of running it.
    pub dry_run: bool,
    /// Print the script before running it.
    pub verbose: bool,
    /// In a dry run, substitute `$NAME` environment references.
    pub interpolate: bool,
    pub cmd: Command,
    pub name: String,
    pub args: Vec<String>,
}

impl ExecutionRequest {
    /// A request with every flag off.
    pub fn new(name: String, cmd: Command, args: Vec<String>) -> (r: Self)
        ensures
            !r.dry_run,
            !r.verbose,
            !r.interpolate,
            r.cmd == cmd,
            r.name == name,
            r.args == args,
    {
        ExecutionRequest {
            dry_run: false,
            verbose: false,
            interpolate: false,
            cmd: cmd,
            name: name,
            args: args,
        }
    }
}

} // verus!
