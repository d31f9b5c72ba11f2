//! The computing half of the registration flow: request validation and
//! construction of the user record. Persisting the record, issuing the
//! token, and creating the storage directory stay with the caller.

use vstd::prelude::*;

use crate::errors::ValidationError;
use crate::user::{user_well_formed, User};
use vstd::utf8::encode_utf8;

verus! {

/// Registration-request policy: the username must be 4 to 25 bytes and
/// the password at least 8 bytes, each measured over UTF-8.
pub open spec fn spec_validate_registration(username: Seq<char>, password: Seq<char>) -> Result<
    (),
    ValidationError,
> {
    if encode_utf8(username).len() < 4 {
        Err(ValidationError::UsernameTooShort)
    } else if encode_utf8(username).len() > 25 {
        Err(ValidationError::UsernameTooLong)
    } else if encode_utf8(password).len() < 8 {
        Err(ValidationError::PasswordTooShort)
    } else {
        Ok(())
    }
}

/// Checks a registration request against the length policy, reporting
/// the first violated rule.
pub fn validate_registration(username: &str, password: &str) -> (r: Result<(), ValidationError>)
    ensures
        r == spec_validate_registration(username@, password@),
{
    if username.as_bytes().len() < 4 {
        Err(ValidationError::UsernameTooShort)
    } else if username.as_bytes().len() > 25 {
        Err(ValidationError::UsernameTooLong)
    } else if password.as_bytes().len() < 8 {
        Err(ValidationError::PasswordTooShort)
    } else {
        Ok(())
    }
}

/// Validates the request and, when it passes, builds the user record
/// to hand to the store: derived id, lowercase username, salted hash.
pub fn prepare_registration(username: &str, password: &str) -> (r: Result<User, ValidationError>)
    ensures
        match r {
            Ok(user) => {
                &&& spec_validate_registration(username@, password@) is Ok
                &&& user_well_formed(user, username@, password@)
            },
            Err(e) => spec_validate_registration(username@, password@) == Err::<
                (),
                ValidationError,
            >(e),
        },
{
    match validate_registration(username, password) {
        Ok(()) => Ok(User::new(username, password)),
        Err(e) => Err(e),
    }
}

} // verus!
