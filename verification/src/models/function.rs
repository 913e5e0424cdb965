//! A parameterised script.
use vstd::prelude::*;
use crate::strmap::StringMap;

verus! {

/// A script with named positional parameters and their defaults.
pub struct Function {
    pub run: String,
    pub params: Vec<String>,
    pub defaults: StringMap<String>,
    pub allow_trailing_args: bool,
}

} // verus!
