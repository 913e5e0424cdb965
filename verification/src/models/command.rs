//! Configured commands.
use vstd::prelude::*;
use crate::strmap::{clone_strings, StringMap};

verus! {

/// How a command's script is run.
#[derive(Clone, Copy, Debug, PartialEq, Eq, Structural)]
pub enum ExecutionMode {
    /// Handed to `sh -c` as written.
    Shell,
    /// Variable references are resolved first, then handed to `sh -c`.
    TemplateShell,
}

/// A configured command: a script, how to run it, and its parameters.
pub struct Command {
    pub kind: ExecutionMode,
    pub cmd: String,
    /// Names of the positional parameters, in order.
    pub params: Vec<String>,
    /// Values for parameters that were not given.
    pub defaults: StringMap<String>,
    /// Whether arguments beyond the parameters are passed on.
    pub allow_trailing_args: bool,
}

/// The mathematical form of a [`Command`].
pub struct CommandView {
    pub kind: ExecutionMode,
    pub cmd: Seq<char>,
    pub params: Seq<Seq<char>>,
    pub defaults: Map<Seq<char>, String>,
    pub allow_trailing_args: bool,
}

impl View for Command {
    type V = CommandView;

    open spec fn view(&self) -> CommandView {
        CommandView {
            kind: self.kind,
            cmd: self.cmd@,
            params: self.params@.map_values(|p: String| p@),
            defaults: self.defaults@,
            allow_trailing_args: self.allow_trailing_args,
        }
    }
}

/// The mode a command gets when its configuration names none.
pub fn kind() -> (m: ExecutionMode)
    ensures
        m == ExecutionMode::TemplateShell,
{
    ExecutionMode::TemplateShell
}

impl Command {
    /// A command with no parameters, no defaults and no trailing arguments.
    pub fn new(kind: ExecutionMode, cmd: String) -> (c: Self)
        ensures
            c.kind == kind,
            c.cmd == cmd,
            c.params@ == Seq::<String>::empty(),
            c.defaults@ == Map::<Seq<char>, String>::empty(),
            !c.allow_trailing_args,
    {
        Command {
            kind: kind,
            cmd: cmd,
            params: Vec::new(),
            defaults: StringMap::new(),
            allow_trailing_args: false,
        }
    }

    /// A copy of the command.
    pub fn duplicate(&self) -> (c: Self)
        ensures
            c@ == self@,
    {
        let params = self.params.clone();
        proof {
            assert forall|i: int| 0 <= i < params@.len() implies params@[i] == self.params@[i] by {
                assert(cloned(self.params@[i], params@[i]));
            }
            assert(params@.map_values(|p: String| p@) =~= self.params@.map_values(|p: String| p@));
        }
        Command {
            kind: self.kind,
            cmd: self.cmd.clone(),
            params,
            defaults: clone_strings(&self.defaults),
            allow_trailing_args: self.allow_trailing_args,
        }
    }
}

impl Clone for Command {
    fn clone(&self) -> (c: Self)
        ensures
            c@ == self@,
    {
        self.duplicate()
    }
}

} // verus!
