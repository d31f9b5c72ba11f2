//! Error taxonomy of the library.
//!
//! Validation failures are always surfaced to the caller; token
//! failures are authorization failures; path failures are
//! security-relevant rejections; filesystem failures abort a listing
//! rather than returning partial results.

use vstd::prelude::*;

verus! {

/// Outcome of the user-store collaborator, reported as typed variants
/// rather than by matching on an error message.
#[derive(Debug, Clone, PartialEq, Eq)]
pub enum Error {
    UserNotFound,
    UserAlreadyExists,
    UnknowError(String),
}

/// Rejections of a malformed registration or login request.
#[derive(Debug, Clone, PartialEq, Eq, Structural)]
pub enum ValidationError {
    UsernameTooShort,
    UsernameTooLong,
    PasswordTooShort,
}

/// Failures of session-token verification.
#[derive(Debug, Clone, PartialEq, Eq, Structural)]
pub enum TokenError {
    /// The token's signature does not match the configured secret.
    InvalidSignature,
    /// The current time is at or past the token's expiry.
    Expired,
    /// The token cannot be decoded at all.
    Malformed,
}

/// Rejection of a client-supplied path that would escape the user's
/// storage root.
#[derive(Debug, Clone, PartialEq, Eq, Structural)]
pub enum PathError {
    InvalidPath,
}

/// Failures while listing a directory snapshot.
#[derive(Debug, Clone, PartialEq, Eq, Structural)]
pub enum FsError {
    /// The listed location could not be read at all.
    DirectoryNotFound,
    /// The listed location is a file, not a directory.
    NotADirectory,
    /// Some entry inside the listed tree could not be read; the whole
    /// listing fails rather than returning partial results.
    UnreadableEntry,
    /// A recursive size exceeds what a 64-bit byte count can hold.
    SizeOverflow,
}

} // verus!
