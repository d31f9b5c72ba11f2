//! Identity, credential, and access-mediation core of a personal
//! file-storage service.
//!
//! The library derives stable user identities and salted credential
//! hashes, issues and verifies signed session tokens, mediates
//! client-supplied relative paths so they cannot escape a user's
//! storage root, and aggregates directory listings over a snapshot of
//! a directory tree. All I/O stays with the caller.

pub mod bytes_util;
pub mod config;
pub mod create_dir;
pub mod credential;
pub mod digests;
pub mod errors;
pub mod listing;
pub mod numfmt;
pub mod path;
pub mod register;
pub mod token;
pub mod user;
