//! Cleans notebooks of volatile fields: execution counters, captured outputs,
//! ephemeral identifiers and editor metadata, according to a declarative policy.
pub mod json;
pub mod utils;
pub mod schema;
pub mod extra_keys;
pub mod config;
pub mod files;
pub mod cell_impl;
pub mod settings;
pub mod strip;
pub mod check;
pub mod laws;
pub mod cli;
pub mod record;
pub mod smudge;
pub mod hooks;
pub mod install;
