//! Arazzo workflow running: the action dispatcher and the runner's rules.

pub mod actions;
pub mod runner;
