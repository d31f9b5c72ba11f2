//! Issuance and verification of signed, time-bounded session tokens.
//!
//! A token is one string: a 128-character lowercase-hex MAC, then the
//! issue time and the expiry time as sixteen hex characters each, then
//! the subject. The MAC is the SHA-512 digest of the configured secret
//! followed by the UTF-8 bytes of everything after the MAC. A token is
//! accepted only if its MAC matches the current secret and the current
//! time is strictly before the expiry.

use vstd::prelude::*;

use crate::bytes_util::{extend_bytes, str_eq_ct};
use crate::digests::{hex_encode, sha512_digest, sha512_of};
use crate::errors::TokenError;
use crate::numfmt::{
    hex_fixed, hex_of, is_hex_seq, lemma_hex_fixed_parse, lemma_hex_of_len, lemma_p16_16,
    lemma_parse_hex_bound, parse_hex, parse_hex16, u64_to_hex_fixed,
};
use vstd::utf8::encode_utf8;

verus! {

/// The claims carried by a token.
#[derive(Debug, Clone)]
pub struct Claims {
    /// The authenticated user id.
    pub sub: String,
    /// Seconds timestamp at issuance.
    pub iat: u64,
    /// Seconds timestamp at which the token lapses.
    pub exp: u64,
}

/// The MAC of a payload under a secret: lowercase hex of the SHA-512
/// digest of the secret bytes followed by the payload's UTF-8 bytes.
pub open spec fn spec_mac(secret: Seq<u8>, payload: Seq<char>) -> Seq<char> {
    hex_of(sha512_of(secret + encode_utf8(payload)))
}

/// The signed part of a token: issue time, expiry time, subject.
pub open spec fn spec_payload(sub: Seq<char>, iat: u64, exp: u64) -> Seq<char> {
    hex_fixed(iat as nat, 16) + hex_fixed(exp as nat, 16) + sub
}

/// A whole token: the MAC of the payload, then the payload.
pub open spec fn spec_token(secret: Seq<u8>, sub: Seq<char>, iat: u64, exp: u64) -> Seq<char> {
    spec_mac(secret, spec_payload(sub, iat, exp)) + spec_payload(sub, iat, exp)
}

/// Verification outcome of a token string under a secret at time
/// `now`: `Malformed` when the token is too short to carry a MAC and
/// two timestamps or its timestamps are not hex; `InvalidSignature`
/// when the MAC does not match the secret; `Expired` when `now` is at
/// or past the expiry; otherwise the claims.
pub open spec fn spec_verify(secret: Seq<u8>, token: Seq<char>, now: u64) -> Result<
    (Seq<char>, u64, u64),
    TokenError,
> {
    if token.len() < 160 {
        Err(TokenError::Malformed)
    } else {
        let mac = token.subrange(0, 128);
        let iat_s = token.subrange(128, 144);
        let exp_s = token.subrange(144, 160);
        let sub = token.subrange(160, token.len() as int);
        if !is_hex_seq(iat_s) || !is_hex_seq(exp_s) {
            Err(TokenError::Malformed)
        } else if mac != spec_mac(secret, token.subrange(128, token.len() as int)) {
            Err(TokenError::InvalidSignature)
        } else if now as nat >= parse_hex(exp_s) {
            Err(TokenError::Expired)
        } else {
            Ok((sub, (parse_hex(iat_s) as u64), (parse_hex(exp_s) as u64)))
        }
    }
}

/// Issues and verifies session tokens under one immutable secret and
/// expiry duration.
pub struct TokenService {
    /// Signing secret bytes.
    pub secret: Vec<u8>,
    /// Validity window in hours.
    pub expires_hours: u64,
}

impl TokenService {
    /// A service signing with `secret` whose tokens lapse
    /// `expires_hours` hours after issuance.
    pub fn new(secret: Vec<u8>, expires_hours: u64) -> (r: TokenService)
        ensures
            r.secret == secret,
            r.expires_hours == expires_hours,
    {
        TokenService { secret, expires_hours }
    }

    /// The MAC string of `payload` under this service's secret.
    fn mac_hex(&self, payload: &str) -> (r: String)
        ensures
            r@ == spec_mac(self.secret@, payload@),
            r@.len() == 128,
    {
        let mut buf: Vec<u8> = Vec::new();
        extend_bytes(&mut buf, self.secret.as_slice());
        extend_bytes(&mut buf, payload.as_bytes());
        assert(buf@ =~= self.secret@ + encode_utf8(payload@));
        let digest = sha512_digest(buf.as_slice());
        let r = hex_encode(digest.as_slice());
        proof {
            lemma_hex_of_len(digest@);
        }
        r
    }

    /// Issues a token for `subject` at time `now` (seconds), expiring
    /// this service's configured number of hours later.
    pub fn issue(&self, subject: &str, now: u64) -> (r: String)
        requires
            now + self.expires_hours * 3600 <= u64::MAX,
        ensures
            r@ == spec_token(
                self.secret@,
                subject@,
                now,
                (now + self.expires_hours * 3600) as u64,
            ),
    {
        let exp = now + self.expires_hours * 3600;
        let iat_s = u64_to_hex_fixed(now, 16);
        let exp_s = u64_to_hex_fixed(exp, 16);
        let payload = iat_s.concat(exp_s.as_str()).concat(subject);
        assert(payload@ =~= spec_payload(subject@, now, exp));
        let mac = self.mac_hex(payload.as_str());
        let r = mac.concat(payload.as_str());
        assert(r@ =~= spec_token(self.secret@, subject@, now, exp));
        r
    }

    /// Decodes and checks `token` at time `now` (seconds): the result
    /// is exactly what `spec_verify` says for this secret.
    pub fn verify(&self, token: &str, now: u64) -> (r: Result<Claims, TokenError>)
        ensures
            match r {
                Ok(claims) => spec_verify(self.secret@, token@, now) == Ok::<
                    (Seq<char>, u64, u64),
                    TokenError,
                >((claims.sub@, claims.iat, claims.exp)),
                Err(e) => spec_verify(self.secret@, token@, now) == Err::<
                    (Seq<char>, u64, u64),
                    TokenError,
                >(e),
            },
    {
        let len = token.unicode_len();
        if len < 160 {
            return Err(TokenError::Malformed);
        }
        assert(token@.len() <= usize::MAX);
        let iat = match parse_hex16(token, 128) {
            Some(v) => v,
            None => {
                return Err(TokenError::Malformed);
            },
        };
        let exp = match parse_hex16(token, 144) {
            Some(v) => v,
            None => {
                return Err(TokenError::Malformed);
            },
        };
        proof {
            lemma_parse_hex_bound(token@.subrange(128, 144));
            lemma_parse_hex_bound(token@.subrange(144, 160));
            lemma_p16_16();
        }
        let payload = token.substring_char(128, len);
        let mac = self.mac_hex(payload);
        let token_mac = token.substring_char(0, 128);
        if !str_eq_ct(mac.as_str(), token_mac) {
            return Err(TokenError::InvalidSignature);
        }
        if now >= exp {
            return Err(TokenError::Expired);
        }
        let sub = token.substring_char(160, len).to_owned();
        Ok(Claims { sub, iat, exp })
    }
}

/// Verifying an unaltered issued token under the same secret yields its
/// claims while the clock is before the expiry, and `Expired` from the
/// expiry on. The digest length hypothesis restates what the signing
/// routine guarantees of every MAC it produces.
pub proof fn lemma_verify_of_issued(
    secret: Seq<u8>,
    sub: Seq<char>,
    iat: u64,
    exp: u64,
    now: u64,
)
    requires
        sha512_of(secret + encode_utf8(spec_payload(sub, iat, exp))).len() == 64,
    ensures
        spec_verify(secret, spec_token(secret, sub, iat, exp), now) == if now >= exp {
            Err::<(Seq<char>, u64, u64), TokenError>(TokenError::Expired)
        } else {
            Ok::<(Seq<char>, u64, u64), TokenError>((sub, iat, exp))
        },
{
    let payload = spec_payload(sub, iat, exp);
    let mac = spec_mac(secret, payload);
    let token = spec_token(secret, sub, iat, exp);
    lemma_hex_of_len(sha512_of(secret + encode_utf8(payload)));
    assert(mac.len() == 128);
    lemma_hex_fixed_parse(iat as nat, 16);
    lemma_hex_fixed_parse(exp as nat, 16);
    lemma_p16_16();
    assert(token.len() == 128 + payload.len());
    assert(payload.len() >= 32);
    assert(token.subrange(0, 128) =~= mac);
    assert(token.subrange(128, token.len() as int) =~= payload);
    assert(token.subrange(128, 144) =~= hex_fixed(iat as nat, 16));
    assert(token.subrange(144, 160) =~= hex_fixed(exp as nat, 16));
    assert(token.subrange(160, token.len() as int) =~= sub);
    assert(parse_hex(hex_fixed(iat as nat, 16)) == iat as nat % 0x1_0000_0000_0000_0000);
    assert(iat as nat % 0x1_0000_0000_0000_0000 == iat as nat);
    assert(parse_hex(hex_fixed(exp as nat, 16)) == exp as nat);
}

} // verus!
