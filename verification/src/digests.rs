//! Trusted boundary to the outside digest, identifier and formatting
//! routines. Each result that has no short exact description is given
//! an uninterpreted name; all verified reasoning goes through these
//! names.

use vstd::prelude::*;

use crate::numfmt::hex_of;

verus! {

/// The SHA-1 digest of a byte sequence; a fixed function of the bytes
/// alone.
pub uninterp spec fn sha1_of(data: Seq<u8>) -> Seq<u8>;

/// The SHA-512 digest of a byte sequence; a fixed function of the bytes
/// alone.
pub uninterp spec fn sha512_of(data: Seq<u8>) -> Seq<u8>;

/// The hyphenated string form of the RFC 4122 version-5 UUID of a name
/// under the X.500 namespace; a fixed function of the name bytes alone.
pub uninterp spec fn uuid_v5_of(name: Seq<u8>) -> Seq<char>;

/// The Unicode lowercase form of a character sequence; a fixed,
/// locale-independent function of the characters alone.
pub uninterp spec fn lower_of(s: Seq<char>) -> Seq<char>;

/// The human-readable binary-unit label of a byte count (for example
/// `"1.5 KiB"`); a fixed function of the count alone.
pub uninterp spec fn size_label_of(n: nat) -> Seq<char>;

/// Relies on sha1::Sha1 through the Digest trait: a 20-byte digest
/// determined by the input bytes alone.
#[verifier::external_body]
pub fn sha1_digest(data: &[u8]) -> (r: Vec<u8>)
    ensures
        r@ == sha1_of(data@),
        r@.len() == 20,
{
    <sha1::Sha1 as sha1::Digest>::digest(data).to_vec()
}

/// Relies on sha2::Sha512 through the Digest trait: a 64-byte digest
/// determined by the input bytes alone.
#[verifier::external_body]
pub fn sha512_digest(data: &[u8]) -> (r: Vec<u8>)
    ensures
        r@ == sha512_of(data@),
        r@.len() == 64,
{
    <sha2::Sha512 as sha2::Digest>::digest(data).to_vec()
}

/// Relies on uuid::Uuid::new_v5 and its hyphenated display form: a
/// 36-character identifier determined by the name bytes alone.
#[verifier::external_body]
pub fn uuid_v5_string(name: &[u8]) -> (r: String)
    ensures
        r@ == uuid_v5_of(name@),
        r@.len() == 36,
{
    uuid::Uuid::new_v5(&uuid::Uuid::NAMESPACE_X500, name).to_string()
}

/// Relies on str::to_lowercase: the result depends on the characters
/// alone.
#[verifier::external_body]
pub fn lowercase(s: &str) -> (r: String)
    ensures
        r@ == lower_of(s@),
        s@.len() == 0 ==> r@.len() == 0,
{
    s.to_lowercase()
}

/// Relies on hex::encode: lowercase hexadecimal, two digits per byte,
/// high nibble first.
#[verifier::external_body]
pub fn hex_encode(data: &[u8]) -> (r: String)
    ensures
        r@ == hex_of(data@),
{
    hex::encode(data)
}

/// Relies on byte_unit::Byte::get_appropriate_unit with binary units
/// and its display form: a label determined by the byte count alone.
#[verifier::external_body]
pub fn format_size(n: u64) -> (r: String)
    ensures
        r@ == size_label_of(n as nat),
{
    byte_unit::Byte::from_u64(n).get_appropriate_unit(byte_unit::UnitType::Binary).to_string()
}

} // verus!
