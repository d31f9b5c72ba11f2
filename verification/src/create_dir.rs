//! Request and response shapes of the directory-creation operation.

use vstd::prelude::*;

verus! {

/// A request to create a directory at a user-relative path.
#[derive(Debug, Clone)]
pub struct Request {
    /// Path relative to the user's storage root.
    pub path: String,
}

/// The outcome of a directory-creation request.
#[derive(Debug, Clone)]
pub struct Response {
    /// Whether the directory was created.
    pub created: bool,
}

} // verus!
