//! Command-line argument parsing and command routing.
pub mod context;
pub mod node;
pub mod spec;
pub mod validate;
pub mod commands;
