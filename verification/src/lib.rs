//! Jellycat: sends stacks of Jujutsu changesets to GitHub as pull requests.
//!
//! This crate holds the decisions of the tool: which `jj` and `gh` command
//! lines to run, how their output is read, how configuration is loaded, how
//! pull-request bodies and stack navigation are composed, and what each
//! subcommand does with what it learned. Running processes, prompting and
//! printing is left to the program that links this library.
pub mod text;
pub mod jj;
pub mod error;
pub mod pr_store;
pub mod config;
pub mod commands;
pub mod gh;
pub mod repo;
