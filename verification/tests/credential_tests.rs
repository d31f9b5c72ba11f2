use homedisk::credential::{derive_identity, hash_credential, verify_credential};

#[test]
fn derive_identity_ignores_letter_case() {
    let a = derive_identity("Alice123");
    let b = derive_identity("alice123");
    let c = derive_identity("ALICE123");
    assert_eq!(a, b);
    assert_eq!(b, c);
}

#[test]
fn derive_identity_differs_for_different_usernames() {
    assert_ne!(derive_identity("alice123"), derive_identity("bob456"));
}

#[test]
fn derive_identity_is_independent_of_password() {
    // the id is a function of the username alone: no password enters it
    let a = derive_identity("alice123");
    let user = homedisk::user::User::new("alice123", "some-password");
    let other = homedisk::user::User::new("alice123", "another-password");
    assert_eq!(a, user.id);
    assert_eq!(user.id, other.id);
}

#[test]
fn hash_credential_is_deterministic() {
    let first = hash_credential("username", "password");
    let second = hash_credential("username", "password");
    assert_eq!(first, second);
}

#[test]
fn hash_credential_changes_with_either_input() {
    let base = hash_credential("username", "password");
    assert_ne!(base, hash_credential("username2", "password"));
    assert_ne!(base, hash_credential("username", "password2"));
}

#[test]
fn verify_credential_accepts_fresh_hash() {
    let hash = hash_credential("medzik", "longpassword");
    assert!(verify_credential("medzik", "longpassword", &hash));
    // case-normalized username verifies the same hash
    assert!(verify_credential("mEDZIk", "longpassword", &hash));
}

#[test]
fn verify_credential_rejects_wrong_password() {
    let hash = hash_credential("medzik", "longpassword");
    assert!(!verify_credential("medzik", "wrongpassword", &hash));
    assert!(!verify_credential("medzik", "", &hash));
}
