//! Plain data carried between the command-line front end and the
//! presentation engine: option values, command selectors and the record
//! shapes of the main voting API. The front end owns argument parsing and
//! carries mirror types with its parser attributes; these are the bare
//! types the engine's contracts speak of.

use vstd::prelude::*;

verus! {

/// Base addresses of the two remote services.
pub struct Options {
    /// The URI base for the main voting and query commands.
    pub main_api: String,
    /// The URI base of the database browser API.
    pub browser_api: String,
}

/// The kind of submissions to show.
#[derive(Clone, Copy, Debug, PartialEq, Eq, Structural)]
pub enum SubmissionKind {
    /// View title submissions.
    Title,
    /// View thumbnail submissions.
    Thumbnail,
}

/// The kind of information to query about a user.
pub enum UserSubcommand {
    /// View warnings associated with a user, received or issued.
    Warnings {
        /// The kind of warnings to show.
        kind: WarningKind,
        /// Only the newest `newest` warnings; `0` shows all.
        newest: usize,
    },
}

/// Whether to look at warnings a user issued or received.
#[derive(Clone, Copy, Debug, PartialEq, Eq, Structural)]
pub enum WarningKind {
    /// Warnings issued by the user.
    Issued,
    /// Warnings received by the user.
    Received,
}

impl WarningKind {
    /// The name of the warning direction as the browser API spells it in its
    /// URL paths.
    pub fn name(self) -> (r: &'static str)
        ensures
            self is Issued ==> r@ == "issued"@,
            self is Received ==> r@ == "received"@,
    {
        match self {
            WarningKind::Issued => "issued",
            WarningKind::Received => "received",
        }
    }
}

/// One title record of the main voting API's branding endpoint.
pub struct MainApiTitle {
    pub title: String,
    pub original: bool,
    pub votes: i32,
    pub locked: bool,
    pub uuid: String,
    pub user_id: String,
}

} // verus!
