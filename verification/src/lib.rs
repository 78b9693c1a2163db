//! Verified core of `sshx`: parsing of OpenSSH configs with `## sshx:`
//! annotations and the files they include, the host index, SSH command
//! construction, and what the subcommands compute, with the laws that tie
//! them together.

pub mod text;
pub mod model;
pub mod error;
pub mod parser;
pub mod index;
pub mod ssh_command;
pub mod includes;
pub mod walk_result;
pub mod config;
pub mod cli;
pub mod commands;
pub mod selector;
pub mod connect;
pub mod tunnel;
pub mod readback;
pub mod removal;
