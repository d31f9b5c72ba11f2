use homedisk::user::User;

/// Check if the username is in lowercase
#[test]
fn check_username_is_in_lowercase() {
    // example user data
    let username = "mEDZIk";
    let password = "password";

    // username in lowercase (expected username)
    let username_expected = "medzik";

    // create a new `User` type
    let user = User::new(username, password);

    // username validation with expected username
    assert_eq!(user.username, username_expected)
}

/// Check that the password is a checksum with a salt
#[test]
fn check_if_password_is_hashed_and_salted() {
    // example user data
    let username = "username";
    let password = "password";

    // create a new `User` type
    let user = User::new(username, password);

    // expected password salt (string)
    let password_expected_salt = format!("{username}${password}");

    // expected password (hashed)
    let password_expected = hex::encode(<sha2::Sha512 as sha2::Digest>::digest(
        password_expected_salt.as_bytes(),
    ));

    // password validation with expected password salt
    assert_eq!(user.password, password_expected)
}

#[test]
fn user_id_is_uuid_of_sha1_of_lowercase_username() {
    let user = User::new("mEDZIk", "password");
    let digest = <sha1::Sha1 as sha1::Digest>::digest("medzik".as_bytes());
    let expected = uuid::Uuid::new_v5(&uuid::Uuid::NAMESPACE_X500, digest.as_slice()).to_string();
    assert_eq!(user.id, expected);
}

#[test]
fn user_dir_joins_storage_root_and_username() {
    let user = User::new("medzik", "whatever");
    let dir = user.user_dir("/storage");
    assert_eq!(dir, "/storage/medzik");
}
