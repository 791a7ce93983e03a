//! Checks of the local dotfiles repository.
use vstd::prelude::*;

use crate::text::{push_text, text_eq, trim, trimmed};

verus! {

/// The local repository's remote is not the expected one.
#[derive(Debug, Clone, PartialEq, Eq)]
pub struct RemoteMismatch {
    pub remote: String,
    pub expected: String,
}

impl RemoteMismatch {
    /// The text that reports the error.
    pub fn message(&self) -> (r: String)
        ensures
            r@ == "Repository remote URL '"@ + self.remote@ + "' does not match expected URL '"@
                + self.expected@ + "'"@,
    {
        let mut r = String::new();
        push_text(&mut r, "Repository remote URL '");
        push_text(&mut r, self.remote.as_str());
        push_text(&mut r, "' does not match expected URL '");
        push_text(&mut r, self.expected.as_str());
        push_text(&mut r, "'");
        r
    }
}

/// Checks the remote URL that `git remote get-url origin` printed, trimmed, against the
/// expected one.
pub fn verify_remote_matches(remote_output: &str, expected_url: &str) -> (r: Result<(), RemoteMismatch>)
    ensures
        r is Ok <==> trim(remote_output@) == expected_url@,
        r matches Err(e) ==> e.remote@ == trim(remote_output@) && e.expected@ == expected_url@,
{
    let remote = trimmed(remote_output);
    if text_eq(remote, expected_url) {
        Ok(())
    } else {
        Err(RemoteMismatch { remote: String::from_str(remote), expected: String::from_str(expected_url) })
    }
}

} // verus!
