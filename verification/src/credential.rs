//! Deterministic derivation of a stable user identifier and a salted
//! one-way credential hash from a username/password pair, with
//! verification by recomputation.

use vstd::prelude::*;

use crate::bytes_util::str_eq_ct;
use crate::digests::{
    hex_encode, lower_of, lowercase, sha1_digest, sha1_of, sha512_digest, sha512_of, uuid_v5_of,
    uuid_v5_string,
};
use crate::numfmt::hex_of;
use vstd::utf8::encode_utf8;

verus! {

/// The stable identifier of a username: the version-5 UUID (X.500
/// namespace) of the SHA-1 digest of the case-normalized username.
/// Independent of any password.
pub open spec fn spec_derive_identity(username: Seq<char>) -> Seq<char> {
    uuid_v5_of(sha1_of(encode_utf8(lower_of(username))))
}

/// The salt string: case-normalized username, a `'$'` separator, and
/// the raw password.
pub open spec fn spec_salted(username: Seq<char>, password: Seq<char>) -> Seq<char> {
    lower_of(username) + seq!['$'] + password
}

/// The credential hash: lowercase hex of the SHA-512 digest of the
/// UTF-8 bytes of the salt string. Deterministic in its two inputs.
pub open spec fn spec_hash_credential(username: Seq<char>, password: Seq<char>) -> Seq<char> {
    hex_of(sha512_of(encode_utf8(spec_salted(username, password))))
}

/// Derives the stable user id of `username`, independent of letter
/// case.
pub fn derive_identity(username: &str) -> (r: String)
    ensures
        r@ == spec_derive_identity(username@),
{
    let lowered = lowercase(username);
    let digest = sha1_digest(lowered.as_str().as_bytes());
    uuid_v5_string(digest.as_slice())
}

/// Computes the salted credential hash of the pair; two calls on equal
/// inputs return equal strings.
pub fn hash_credential(username: &str, password: &str) -> (r: String)
    ensures
        r@ == spec_hash_credential(username@, password@),
{
    proof {
        reveal_strlit("$");
    }
    let lowered = lowercase(username);
    let salted = lowered.concat("$").concat(password);
    assert(salted@ =~= spec_salted(username@, password@));
    let digest = sha512_digest(salted.as_str().as_bytes());
    hex_encode(digest.as_slice())
}

/// Whether `stored` is the credential hash of the pair.
pub open spec fn spec_verify_credential(
    username: Seq<char>,
    password: Seq<char>,
    stored: Seq<char>,
) -> bool {
    stored == spec_hash_credential(username, password)
}

/// Recomputes the credential hash and compares it to `stored_hash`
/// without an early exit on the first differing byte. Returns true
/// exactly when the stored hash is the hash of the pair.
pub fn verify_credential(username: &str, password: &str, stored_hash: &str) -> (r: bool)
    ensures
        r == spec_verify_credential(username@, password@, stored_hash@),
{
    let computed = hash_credential(username, password);
    str_eq_ct(computed.as_str(), stored_hash)
}

/// Usernames equal up to letter case derive the same identity.
pub proof fn lemma_derive_identity_case_insensitive(a: Seq<char>, b: Seq<char>)
    requires
        lower_of(a) == lower_of(b),
    ensures
        spec_derive_identity(a) == spec_derive_identity(b),
{
}

/// A freshly computed credential hash always verifies against the pair
/// it was computed from.
pub proof fn lemma_verify_of_hashed(username: Seq<char>, password: Seq<char>)
    ensures
        spec_verify_credential(username, password, spec_hash_credential(username, password)),
{
}

} // verus!
