//! The satisfiability checker's own configuration, and the length of its jumps.
pub mod config;
pub mod jump;
