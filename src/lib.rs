//! Command-file pipeline of a task runner: schema model, source-anchored
//! validation, variable resolution and a step coordinator.

pub mod scan;
pub mod text;
pub mod schema;
pub mod errors;
pub mod validation;
pub mod resolver;
pub mod context;
pub mod coordinator;
pub mod loader;
pub mod config;
pub mod commands;
