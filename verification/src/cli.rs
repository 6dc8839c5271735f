//! The command line of a node and the commands typed at its prompt.
pub mod args;
pub mod commands;
