//! The data the engine works on: commands, variables, functions and
//! execution requests.
pub mod command;
pub mod function;
pub mod request;
pub mod variable;
