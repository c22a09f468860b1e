//! The subcommands: each module holds the decisions of one command.
use vstd::prelude::*;

pub mod config;
pub mod context;
pub mod get;
pub mod init;
pub mod link;
pub mod publish;
pub mod pull;
pub mod status;
pub mod submit;
pub mod tidy;
pub mod unlink;

verus! {

/// The subcommands of `jc`.
#[derive(Debug)]
pub enum Commands {
    /// Push commits and create or update GitHub pull requests
    Submit(submit::SubmitArgs),
    /// Show the status of pull requests for the current stack
    Status(status::StatusArgs),
    /// Initialize jellycat configuration for the current repository
    Init(init::InitArgs),
    /// Associate a commit with an existing pull request
    Link(link::LinkArgs),
    /// Remove the pull request association from a commit
    Unlink(unlink::UnlinkArgs),
    /// Clean up merged bookmarks and their remote tracking branches
    Tidy(tidy::TidyArgs),
    /// Fetch a pull request's branch from GitHub
    Get(get::GetArgs),
    /// Mark pull requests ready for review (or back to draft)
    Publish(publish::PublishArgs),
    /// Update commit descriptions from their pull requests
    Pull(pull::PullArgs),
    /// Show the jellycat configuration
    Config,
    /// Print a reference for AI assistants
    Skills,
    /// Print shell completions
    Completions { shell: String },
}

/// The command runs without the repository's configuration.
pub open spec fn standalone(c: Commands) -> bool {
    c is Init || c is Config || c is Skills || c is Completions
}

/// The command needs the upstream repository to be configured.
pub open spec fn needs_upstream(c: Commands) -> bool {
    !standalone(c) && !(c is Link) && !(c is Unlink)
}

/// Whether the command runs before the configuration is loaded.
pub fn is_standalone(c: &Commands) -> (r: bool)
    ensures
        r == standalone(*c),
{
    match c {
        Commands::Init(_) | Commands::Config | Commands::Skills | Commands::Completions { .. } => true,
        _ => false,
    }
}

/// Whether the command refuses to run until `jc init` has configured the
/// upstream repository.
pub fn requires_upstream(c: &Commands) -> (r: bool)
    ensures
        r == needs_upstream(*c),
{
    match c {
        Commands::Init(_) | Commands::Config | Commands::Skills | Commands::Completions { .. } => false,
        Commands::Link(_) | Commands::Unlink(_) => false,
        _ => true,
    }
}

} // verus!
