//! The commit that a revset names.
use vstd::prelude::*;
use crate::error::JcError;
use crate::text::{lines, lines_str, string_of, views};

verus! {

/// A commit as `jj log` prints it in JSON, reduced to what the tool reads.
#[derive(Debug)]
pub struct JjLogCommit {
    pub change_id: String,
    pub description: String,
}

/// The one line of `jj log` output for a revset that must name exactly one
/// commit; an error that says how many it named otherwise.
pub fn single_commit_line(output: &str) -> (r: Result<String, JcError>)
    ensures
        lines(output@).len() == 1 ==> r is Ok && r->Ok_0@ == lines(output@)[0],
        lines(output@).len() != 1 ==> (r matches Err(JcError::RevsetNotSingle { count }) && count == lines(output@).len()),
{
    let ls = lines_str(output);
    if ls.len() != 1 {
        return Err(JcError::RevsetNotSingle { count: ls.len() });
    }
    assert(views(ls@)[0] == ls@[0]@);
    Ok(string_of(ls[0].as_slice()))
}

} // verus!
