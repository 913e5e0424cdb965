//! Configured variables.
use vstd::prelude::*;
use crate::models::command::Command;

verus! {

/// A variable in the configuration: a fixed value, or a command whose
/// output is the value.
pub enum Variable {
    Provided(Provider),
    Literal(String),
}

/// A command that provides a variable's value.
pub struct Provider {
    pub run: Command,
}

impl Clone for Provider {
    fn clone(&self) -> (p: Self)
        ensures
            p.run@ == self.run@,
    {
        Provider { run: self.run.duplicate() }
    }
}

impl Clone for Variable {
    fn clone(&self) -> (v: Self)
        ensures
            match (*self, v) {
                (Variable::Literal(a), Variable::Literal(b)) => a@ == b@,
                (Variable::Provided(a), Variable::Provided(b)) => a.run@ == b.run@,
                _ => false,
            },
    {
        match self {
            Variable::Literal(s) => Variable::Literal(s.clone()),
            Variable::Provided(p) => Variable::Provided(p.clone()),
        }
    }
}

} // verus!
