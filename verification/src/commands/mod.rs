//! The command-line entry decisions: what each command does, separated from
//! the argument parsing and I/O around it.

pub mod browse;
pub mod config;
