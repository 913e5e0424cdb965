//! Execution contexts: named string variables and named functions that
//! scripts can call, and the persistent value store.
pub mod context;
pub mod persistent;
pub mod registry;
