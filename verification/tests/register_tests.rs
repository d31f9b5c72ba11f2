use homedisk::credential::{derive_identity, verify_credential};
use homedisk::errors::{Error, PathError, ValidationError};
use homedisk::path::resolve;
use homedisk::register::{prepare_registration, validate_registration};
use homedisk::token::TokenService;
use homedisk::user::User;

#[test]
fn validation_enforces_length_policy() {
    assert_eq!(validate_registration("abc", "longpassword"), Err(ValidationError::UsernameTooShort));
    assert_eq!(
        validate_registration("a-very-long-username-over-25-bytes", "longpassword"),
        Err(ValidationError::UsernameTooLong)
    );
    assert_eq!(validate_registration("medzik", "short"), Err(ValidationError::PasswordTooShort));
    assert_eq!(validate_registration("medzik", "longpassword"), Ok(()));
}

/// A user store of the surrounding service, reduced to what the
/// scenario needs: uniqueness of the derived id.
struct MemoryStore {
    users: Vec<User>,
}

impl MemoryStore {
    fn create(&mut self, user: User) -> Result<(), Error> {
        if self.users.iter().any(|u| u.id == user.id) {
            return Err(Error::UserAlreadyExists);
        }
        self.users.push(user);
        Ok(())
    }

    fn find_by_username(&self, username: &str) -> Result<&User, Error> {
        self.users
            .iter()
            .find(|u| u.username == username)
            .ok_or(Error::UserNotFound)
    }
}

#[test]
fn end_to_end_register_login_and_listing_guard() {
    let mut store = MemoryStore { users: vec![] };

    // register "Alice123" with a long enough password
    let user = prepare_registration("Alice123", "longpassword").expect("valid request");
    let id = user.id.clone();
    assert_eq!(id, derive_identity("Alice123"));
    store.create(user).expect("first registration succeeds");

    // registering "alice123" derives the same id and must collide
    let user_again = prepare_registration("alice123", "longpassword").expect("valid request");
    assert_eq!(user_again.id, id);
    assert!(matches!(store.create(user_again), Err(Error::UserAlreadyExists)));

    // login with the correct password issues a token
    let stored = store.find_by_username("alice123").expect("user exists");
    assert!(verify_credential("alice123", "longpassword", &stored.password));
    assert!(!verify_credential("alice123", "wrongpassword", &stored.password));
    let svc = TokenService::new(b"secret".to_vec(), 1);
    let now: u64 = 42;
    let token = svc.issue(&stored.id, now);
    let claims = svc.verify(&token, now).expect("fresh token verifies");
    assert_eq!(claims.sub, id);

    // a listing request for ".." is rejected before any filesystem
    // access: resolution is purely lexical
    assert_eq!(resolve("/storage", "alice123", ".."), Err(PathError::InvalidPath));
}
