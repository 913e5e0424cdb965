//! A registry of named functions over values of type `V`.
use vstd::prelude::*;
use crate::strmap::StringMap;
use crate::text::concat;

verus! {

broadcast use vstd::string::group_string_axioms;

/// A function that can be registered: it takes a list of values and gives
/// a value or an error message. Its implementations are supplied by the
/// library's users.
pub trait RegistryFunction<V>: Sized {
    /// Whether `r` is a result the function may give for `args`.
    spec fn outcome(&self, args: Seq<V>, r: Result<V, String>) -> bool;

    /// Runs the function on `args`.
    fn call(&self, args: &[V]) -> (r: Result<V, String>)
        ensures
            self.outcome(args@, r),
    ;
}

/// Why a registry call failed.
#[derive(Debug, Clone, PartialEq, Eq)]
pub enum RegistryError {
    /// No function is registered under this name.
    UnknownFunction(String),
    /// The function failed with this message.
    Failed(String),
}

impl RegistryError {
    /// The human-readable description of the error.
    pub fn message(&self) -> (m: String)
        ensures
            self matches RegistryError::UnknownFunction(n) ==> m@ == "Unknown function '"@ + n@
                + "'"@,
            self matches RegistryError::Failed(msg) ==> m@ == msg@,
    {
        match self {
            RegistryError::UnknownFunction(n) => {
                let a = concat("Unknown function '", n.as_str());
                concat(a.as_str(), "'")
            },
            RegistryError::Failed(msg) => msg.clone(),
        }
    }
}

/// What a function's result becomes when the registry passes it on: a
/// value as it is, an error message as `Failed`.
pub open spec fn passed_on<V>(r: Result<V, String>) -> Result<V, RegistryError> {
    match r {
        Ok(v) => Ok(v),
        Err(m) => Err(RegistryError::Failed(m)),
    }
}

/// Functions by name.
pub struct FunctionRegistry<F> {
    commands: StringMap<F>,
}

impl<F> FunctionRegistry<F> {
    /// The registered functions, by name.
    pub closed spec fn functions(&self) -> Map<Seq<char>, F> {
        self.commands@
    }

    /// A registry with no functions.
    pub fn new() -> (r: Self)
        ensures
            r.functions() == Map::<Seq<char>, F>::empty(),
    {
        FunctionRegistry { commands: StringMap::new() }
    }

    /// Registers `func` under `name`, replacing any function registered
    /// there before.
    pub fn register_func(&mut self, name: String, func: F)
        ensures
            final(self).functions() == old(self).functions().insert(name@, func),
    {
        self.commands.insert(name, func);
    }

    /// Runs the function registered under `name` on `args`, passing its
    /// value or its error message on; fails with `UnknownFunction` when no
    /// function is registered there.
    pub fn execute_func<V>(&self, name: &str, args: &[V]) -> (r: Result<V, RegistryError>) where
        F: RegistryFunction<V>,

        ensures
            !self.functions().contains_key(name@) ==> (r matches Err(
                RegistryError::UnknownFunction(n),
            ) && n@ == name@),
            self.functions().contains_key(name@) ==> exists|out: Result<V, String>|
                self.functions()[name@].outcome(args@, out) && r == passed_on(out),
    {
        match self.commands.get(name) {
            Some(func) => {
                let out = func.call(args);
                let ghost o = out;
                let r = match out {
                    Ok(v) => Ok(v),
                    Err(m) => Err(RegistryError::Failed(m)),
                };
                assert(func.outcome(args@, o) && r == passed_on(o));
                r
            },
            None => Err(RegistryError::UnknownFunction(name.to_string())),
        }
    }
}

} // verus!
