//! One For All: reusable shell command macros configured in TOML, with
//! template variables, layered configuration and parameter binding.
pub mod app;
pub mod config;
pub mod context;
pub mod engine;
pub mod init;
pub mod lifecycle;
pub mod models;
pub mod order;
pub mod project;
pub mod store;
pub mod strmap;
pub mod text;
