//! Failures that the library reports, and the record of a failed command.
use vstd::prelude::*;
use crate::jj::strs;
use crate::text::{append, append_str, chars_of, dec, render_u64, string_of, sub_vec, trim};

verus! {

/// A process that exited unsuccessfully: its command line, its exit code
/// when it had one, and its trimmed standard error.
#[derive(Debug)]
pub struct CommandError {
    pub command: String,
    pub exit_code: Option<i32>,
    pub stderr: String,
}

/// Why an operation of the tool did not go through.
#[derive(Debug)]
pub enum JcError {
    /// `jellycat.upstream_repo` is not set.
    UpstreamRepoNotConfigured,
    /// `jellycat.origin` is not set.
    OriginNotConfigured,
    /// No git remote's URL mentions the upstream repository.
    UpstreamRemoteNotFound { upstream_repo: String },
    /// A git remote has no URL in `jj git remote list`.
    RemoteUrlNotFound { remote: String },
    /// A revset that must name one commit named this many.
    RevsetNotSingle { count: usize },
    /// `--smart` was combined with a PR number.
    SmartWithPrNumber,
    /// Neither a PR number nor `--smart` was given.
    PrNumberRequired,
    /// The commit is linked to another PR and `--force` was not given.
    AlreadyLinked { existing_pr: u32 },
    /// The repository has no git remote.
    NoGitRemotes,
    /// `gh` is not logged in to github.com.
    NoGithubAuth,
    /// The upstream repository is not written `owner/repo`.
    InvalidUpstreamFormat { upstream: String },
    /// A commit of the submitted set has no PR number.
    MissingPrNumber { change_id: String },
    /// A GitHub API call failed; `context` says which, `message` what it said.
    Api { context: String, message: String },
    /// A response lacked what the tool needs from it.
    BadResponse { message: String },
}

/// At most the first twelve characters of a change id, as ids are shown.
pub open spec fn short_id(id: Seq<char>) -> Seq<char> {
    if id.len() <= 12 {
        id
    } else {
        id.take(12)
    }
}

/// The message shown to the user for an error.
pub open spec fn message_spec(e: JcError) -> Seq<char> {
    match e {
        JcError::UpstreamRepoNotConfigured => "jellycat.upstream_repo not configured. Run 'jc init'."@,
        JcError::OriginNotConfigured => "jellycat.origin not configured. Run 'jc init'."@,
        JcError::UpstreamRemoteNotFound { upstream_repo } => "No remote found matching upstream repo '"@
            + upstream_repo@ + "'"@,
        JcError::RemoteUrlNotFound { remote } => "Could not find URL for remote '"@ + remote@ + "'"@,
        JcError::RevsetNotSingle { count } => "revset must resolve to exactly one commit, but got "@ + dec(
            count as nat,
        ),
        JcError::SmartWithPrNumber => "cannot combine --smart with a PR number"@,
        JcError::PrNumberRequired => "pr_number is required (or pass --smart)"@,
        JcError::AlreadyLinked { existing_pr } => "Commit is already linked to PR #"@ + dec(existing_pr as nat)
            + ". Use --force to overwrite."@,
        JcError::NoGitRemotes => "No git remotes found. Please add a remote using 'jj git remote add'."@,
        JcError::NoGithubAuth => "No github.com authentication found. Run 'gh auth login'."@,
        JcError::InvalidUpstreamFormat { upstream } => "Invalid upstream format '"@ + upstream@
            + "', expected 'owner/repo'"@,
        JcError::MissingPrNumber { change_id } => "No PR number for commit "@ + short_id(change_id@),
        JcError::Api { context, message } => context@ + ": "@ + message@,
        JcError::BadResponse { message } => message@,
    }
}

impl JcError {
    /// The message shown to the user for this error.
    pub fn message(&self) -> (r: String)
        ensures
            r@ == message_spec(*self),
    {
        let mut v: Vec<char> = Vec::new();
        match self {
            JcError::UpstreamRepoNotConfigured => {
                append_str(&mut v, "jellycat.upstream_repo not configured. Run 'jc init'.");
            },
            JcError::OriginNotConfigured => {
                append_str(&mut v, "jellycat.origin not configured. Run 'jc init'.");
            },
            JcError::UpstreamRemoteNotFound { upstream_repo } => {
                append_str(&mut v, "No remote found matching upstream repo '");
                append_str(&mut v, upstream_repo.as_str());
                append_str(&mut v, "'");
            },
            JcError::RemoteUrlNotFound { remote } => {
                append_str(&mut v, "Could not find URL for remote '");
                append_str(&mut v, remote.as_str());
                append_str(&mut v, "'");
            },
            JcError::RevsetNotSingle { count } => {
                append_str(&mut v, "revset must resolve to exactly one commit, but got ");
                let d = render_u64(*count as u64);
                append(&mut v, d.as_slice());
            },
            JcError::SmartWithPrNumber => {
                append_str(&mut v, "cannot combine --smart with a PR number");
            },
            JcError::PrNumberRequired => {
                append_str(&mut v, "pr_number is required (or pass --smart)");
            },
            JcError::AlreadyLinked { existing_pr } => {
                append_str(&mut v, "Commit is already linked to PR #");
                let d = render_u64(*existing_pr as u64);
                append(&mut v, d.as_slice());
                append_str(&mut v, ". Use --force to overwrite.");
            },
            JcError::NoGitRemotes => {
                append_str(&mut v, "No git remotes found. Please add a remote using 'jj git remote add'.");
            },
            JcError::NoGithubAuth => {
                append_str(&mut v, "No github.com authentication found. Run 'gh auth login'.");
            },
            JcError::InvalidUpstreamFormat { upstream } => {
                append_str(&mut v, "Invalid upstream format '");
                append_str(&mut v, upstream.as_str());
                append_str(&mut v, "', expected 'owner/repo'");
            },
            JcError::MissingPrNumber { change_id } => {
                append_str(&mut v, "No PR number for commit ");
                let c = chars_of(change_id.as_str());
                if c.len() <= 12 {
                    append(&mut v, c.as_slice());
                } else {
                    let t = sub_vec(c.as_slice(), 0, 12);
                    assert(t@ =~= c@.take(12));
                    append(&mut v, t.as_slice());
                }
            },
            JcError::Api { context, message } => {
                append_str(&mut v, context.as_str());
                append_str(&mut v, ": ");
                append_str(&mut v, message.as_str());
            },
            JcError::BadResponse { message } => {
                append_str(&mut v, message.as_str());
            },
        }
        assert(v@ =~= message_spec(*self));
        string_of(v.as_slice())
    }
}

/// `program arg1 arg2 ...`: a command line as it is shown to the user.
pub open spec fn command_line(program: Seq<char>, args: Seq<Seq<char>>) -> Seq<char>
    decreases args.len(),
{
    if args.len() == 0 {
        program
    } else {
        command_line(program, args.drop_last()) + " "@ + args.last()
    }
}

/// Shows a command line: the program, then each argument after a space.
pub fn format_cmd(program: &str, args: &Vec<String>) -> (r: String)
    ensures
        r@ == command_line(program@, strs(args@)),
{
    let mut out: Vec<char> = Vec::new();
    append_str(&mut out, program);
    let mut i: usize = 0;
    while i < args.len()
        invariant
            i <= args.len(),
            out@ == command_line(program@, strs(args@).take(i as int)),
        decreases args.len() - i,
    {
        append_str(&mut out, " ");
        append_str(&mut out, args[i].as_str());
        assert(strs(args@).take(i + 1).drop_last() == strs(args@).take(i as int));
        i = i + 1;
    }
    assert(strs(args@).take(args.len() as int) == strs(args@));
    string_of(out.as_slice())
}

/// Turns a finished process into success, or into the `CommandError` that
/// records it: `stderr` is the process's standard error, already decoded.
pub fn check_output(cmd_str: String, success: bool, exit_code: Option<i32>, stderr: &str) -> (r:
    Result<(), CommandError>)
    ensures
        success ==> r is Ok,
        !success ==> r is Err && r->Err_0.command == cmd_str && r->Err_0.exit_code == exit_code
            && r->Err_0.stderr@ == trim(stderr@),
{
    if success {
        return Ok(());
    }
    let t = crate::text::trim_str(stderr);
    Err(CommandError { command: cmd_str, exit_code, stderr: string_of(t.as_slice()) })
}

} // verus!
