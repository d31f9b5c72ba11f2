use homedisk::errors::TokenError;
use homedisk::token::TokenService;

fn service() -> TokenService {
    TokenService::new(b"test-secret".to_vec(), 1)
}

#[test]
fn verify_accepts_fresh_token_with_same_subject() {
    let svc = service();
    let now: u64 = 1_000_000;
    let token = svc.issue("user-id-1234", now);
    let claims = svc.verify(&token, now).expect("fresh token verifies");
    assert_eq!(claims.sub, "user-id-1234");
    assert_eq!(claims.iat, now);
    assert_eq!(claims.exp, now + 3600);
}

#[test]
fn verify_rejects_expired_token() {
    let svc = service();
    let now: u64 = 1_000_000;
    let token = svc.issue("user-id-1234", now);
    // valid until just before the expiry instant
    assert!(svc.verify(&token, now + 3599).is_ok());
    // at and after the expiry instant: expired
    assert!(matches!(svc.verify(&token, now + 3600), Err(TokenError::Expired)));
    assert!(matches!(svc.verify(&token, u64::MAX), Err(TokenError::Expired)));
}

#[test]
fn verify_rejects_any_altered_character() {
    let svc = service();
    let now: u64 = 1_000_000;
    let token = svc.issue("user-id-1234", now);
    for i in 0..token.len() {
        let mut chars: Vec<char> = token.chars().collect();
        // swap the character for a different hexadecimal digit, so the
        // token still parses and the failure is the signature check
        chars[i] = if chars[i] == 'a' { 'b' } else { 'a' };
        let altered: String = chars.into_iter().collect();
        assert!(
            matches!(svc.verify(&altered, now), Err(TokenError::InvalidSignature)),
            "altered position {i} was not rejected"
        );
    }
}

#[test]
fn verify_rejects_token_signed_with_other_secret() {
    let now: u64 = 1_000_000;
    let token = TokenService::new(b"other-secret".to_vec(), 1).issue("user-id-1234", now);
    assert!(matches!(service().verify(&token, now), Err(TokenError::InvalidSignature)));
}

#[test]
fn verify_rejects_malformed_tokens() {
    let svc = service();
    // far too short to carry a MAC and two timestamps
    assert!(matches!(svc.verify("short", 0), Err(TokenError::Malformed)));
    assert!(matches!(svc.verify("", 0), Err(TokenError::Malformed)));
    // long enough, but the timestamp characters are not hexadecimal
    let junk = "z".repeat(200);
    assert!(matches!(svc.verify(&junk, 0), Err(TokenError::Malformed)));
}

#[test]
fn subject_may_hold_any_characters() {
    let svc = service();
    let claims = svc.verify(&svc.issue("weird/sub.ject name", 5), 5).unwrap();
    assert_eq!(claims.sub, "weird/sub.ject name");
}
