//! A context of named variables and callable functions.
use vstd::prelude::*;
use crate::strmap::StringMap;
use crate::text::concat;

verus! {

broadcast use vstd::string::group_string_axioms;

/// Why an operation on a context failed.
#[derive(Debug, Clone, PartialEq, Eq)]
pub enum ContextError {
    /// No variable has this name.
    VariableNotFound(String),
    /// No function is registered under this name.
    FunctionNotRegistered(String),
    /// A function failed, with this message.
    Failed(String),
}

impl ContextError {
    /// The human-readable description of the error.
    pub fn message(&self) -> (m: String)
        ensures
            self matches ContextError::VariableNotFound(n) ==> m@ == "Variable '"@ + n@
                + "' not found"@,
            self matches ContextError::FunctionNotRegistered(n) ==> m@ == "Function '"@ + n@
                + "' not registered"@,
            self matches ContextError::Failed(msg) ==> m@ == msg@,
    {
        match self {
            ContextError::VariableNotFound(n) => {
                let a = concat("Variable '", n.as_str());
                concat(a.as_str(), "' not found")
            },
            ContextError::FunctionNotRegistered(n) => {
                let a = concat("Function '", n.as_str());
                concat(a.as_str(), "' not registered")
            },
            ContextError::Failed(msg) => msg.clone(),
        }
    }
}

/// Named string variables and named functions. A function gets the context
/// and its arguments and returns a string or an error.
pub struct ExecutionContext<F> {
    variables: StringMap<String>,
    functions: StringMap<F>,
}

impl<F> ExecutionContext<F> {
    /// The variables, by name.
    pub closed spec fn variables(&self) -> Map<Seq<char>, String> {
        self.variables@
    }

    /// The registered functions, by name.
    pub closed spec fn functions(&self) -> Map<Seq<char>, F> {
        self.functions@
    }

    /// A context with no variables and no functions.
    pub fn new() -> (c: Self)
        ensures
            c.variables() == Map::<Seq<char>, String>::empty(),
            c.functions() == Map::<Seq<char>, F>::empty(),
    {
        ExecutionContext { variables: StringMap::new(), functions: StringMap::new() }
    }

    /// Sets the variable `name` to `value`.
    pub fn set_var(&mut self, name: String, value: String)
        ensures
            final(self).variables() == old(self).variables().insert(name@, value),
            final(self).functions() == old(self).functions(),
    {
        self.variables.insert(name, value);
    }

    /// The value of the variable `name`.
    pub fn get_var(&self, name: &str) -> (r: Result<String, ContextError>)
        ensures
            self.variables().contains_key(name@) ==> r == Ok::<String, ContextError>(
                self.variables()[name@],
            ),
            !self.variables().contains_key(name@) ==> (r matches Err(
                ContextError::VariableNotFound(n),
            ) && n@ == name@),
    {
        match self.variables.get(name) {
            Some(v) => Ok(v.clone()),
            None => Err(ContextError::VariableNotFound(name.to_string())),
        }
    }

    /// Registers `func` under `name`, replacing any function registered
    /// there before.
    pub fn register_func(&mut self, name: String, func: F)
        ensures
            final(self).functions() == old(self).functions().insert(name@, func),
            final(self).variables() == old(self).variables(),
    {
        self.functions.insert(name, func);
    }
}

/// A variable read gives back the last value set: after `set_var(name,
/// value)`, `get_var(name)` succeeds with `value`, and other variables are
/// unchanged.
pub proof fn lemma_get_after_set(
    vars: Map<Seq<char>, String>,
    name: Seq<char>,
    value: String,
    other: Seq<char>,
)
    requires
        other != name,
    ensures
        vars.insert(name, value).contains_key(name),
        vars.insert(name, value)[name] == value,
        vars.insert(name, value).contains_key(other) == vars.contains_key(other),
        vars.contains_key(other) ==> vars.insert(name, value)[other] == vars[other],
{
}

/// A function that can be registered in a context. Its implementations
/// are supplied by the library's users.
pub trait ContextFunction: Sized {
    /// Whether `r` is a result the function may give when run with the
    /// context `ctx` and the arguments `args`.
    spec fn outcome(
        &self,
        ctx: ExecutionContext<Self>,
        args: Seq<String>,
        r: Result<String, ContextError>,
    ) -> bool;

    /// Runs the function with the calling context and its arguments.
    fn call(&self, ctx: &ExecutionContext<Self>, args: Vec<String>) -> (r: Result<
        String,
        ContextError,
    >)
        ensures
            self.outcome(*ctx, args@, r),
    ;
}

impl<F: ContextFunction> ExecutionContext<F> {
    /// Calls the function registered under `name` with this context and
    /// `args` and gives back what it returns; fails with
    /// `FunctionNotRegistered` when no function is registered there.
    pub fn execute_func(&self, name: &str, args: Vec<String>) -> (r: Result<String, ContextError>)
        ensures
            !self.functions().contains_key(name@) ==> (r matches Err(
                ContextError::FunctionNotRegistered(n),
            ) && n@ == name@),
            self.functions().contains_key(name@) ==> self.functions()[name@].outcome(
                *self,
                args@,
                r,
            ),
    {
        match self.functions.get(name) {
            Some(func) => func.call(self, args),
            None => Err(ContextError::FunctionNotRegistered(name.to_string())),
        }
    }
}

} // verus!
