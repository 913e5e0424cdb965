//! Template parsing, variable resolution, command execution planning and
//! command listing.
pub mod discovery;
pub mod executor;
pub mod resolver;
pub mod tokenizer;
