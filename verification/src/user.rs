//! The user record: stable id, case-normalized username, and salted
//! credential hash, together with the user's storage directory.

use vstd::prelude::*;

use crate::credential::{
    derive_identity, hash_credential, spec_derive_identity, spec_hash_credential,
};
use crate::digests::{lower_of, lowercase};

verus! {

/// A user row as the external store keeps it.
#[derive(Debug, Clone)]
pub struct User {
    /// Stable identifier, a pure function of the case-normalized
    /// username.
    pub id: String,
    /// Username, normalized to lowercase.
    pub username: String,
    /// Salted one-way credential hash, lowercase hex.
    pub password: String,
}

/// A `User` whose three fields stand in the stated relation to some
/// raw username/password pair.
pub open spec fn user_well_formed(user: User, username: Seq<char>, password: Seq<char>) -> bool {
    &&& user.id@ == spec_derive_identity(username)
    &&& user.username@ == lower_of(username)
    &&& user.password@ == spec_hash_credential(username, password)
}

impl User {
    /// Builds the record for a raw username/password pair: derives the
    /// stable id, normalizes the username to lowercase, and hashes the
    /// salted password. Creates nothing in any store.
    pub fn new(username: &str, password: &str) -> (r: User)
        ensures
            user_well_formed(r, username@, password@),
    {
        let id = derive_identity(username);
        let password_hash = hash_credential(username, password);
        let username_lower = lowercase(username);
        User { id, username: username_lower, password: password_hash }
    }

    /// The directory holding this user's files: the storage root, a
    /// path separator, and the username.
    pub fn user_dir(&self, storage: &str) -> (r: String)
        ensures
            r@ == storage@ + seq!['/'] + self.username@,
    {
        proof {
            reveal_strlit("/");
        }
        let r = storage.to_owned().concat("/").concat(self.username.as_str());
        assert(r@ =~= storage@ + seq!['/'] + self.username@);
        r
    }
}

} // verus!
