//! The options of the `pre-push` hook.
use vstd::prelude::*;

verus! {

/// The options that `hk run pre-push` takes.
#[derive(Debug, Clone)]
pub struct PrePush {
    /// Run on all files instead of just staged files.
    pub all: bool,
    /// Run the fix command instead of the check command.
    pub fix: bool,
    /// Run the check command instead of the fix command.
    pub check: bool,
    /// The name of the remote.
    pub remote: String,
    /// Stash even where stashing is turned off.
    pub stash: bool,
    /// The URL of the remote.
    pub url: String,
}

} // verus!
