use recipe_service::auth::{authorize, authorize_owner, Authorization, AuthenticationError, OwnershipError};
use recipe_service::token::{Rejected, TokenCodec};

const NOW: i64 = 1_700_000_000;

fn codec() -> TokenCodec {
    TokenCodec::new(b"a test signing key of fair length".to_vec())
}

#[test]
fn token_round_trip_returns_subject() {
    let c = codec();
    let token = c.issue(42, 3600, NOW);
    let claims = c.verify(&token, NOW).expect("fresh token verifies");
    assert_eq!(claims.sub, 42);
    assert_eq!(claims.exp, NOW + 3600);
}

#[test]
fn token_round_trip_many_subjects() {
    let c = codec();
    for sub in [i32::MIN, -7, 0, 1, 31337, i32::MAX] {
        let token = c.issue(sub, 60, NOW);
        assert_eq!(c.verify(&token, NOW).expect("verifies").sub, sub);
    }
}

#[test]
fn negative_ttl_is_expired() {
    let c = codec();
    let token = c.issue(42, -5, NOW);
    assert_eq!(c.verify(&token, NOW), Err(Rejected::Expired));
    let zero = c.issue(42, 0, NOW);
    assert_eq!(c.verify(&zero, NOW), Err(Rejected::Expired));
}

#[test]
fn issue_then_verify_matches_contract() {
    let c = codec();
    let ok = c.issue_then_verify(9, 120, NOW).expect("positive ttl verifies");
    assert_eq!(ok.sub, 9);
    assert_eq!(ok.exp, NOW + 120);
    assert_eq!(c.issue_then_verify(9, -1, NOW), Err(Rejected::Expired));
}

#[test]
fn token_expires_at_expiry_instant() {
    let c = codec();
    let token = c.issue(5, 100, NOW);
    assert!(c.verify(&token, NOW + 99).is_ok());
    assert_eq!(c.verify(&token, NOW + 100), Err(Rejected::Expired));
}

#[test]
fn tampering_with_any_signature_byte_is_bad_signature() {
    let c = codec();
    let token = c.issue(42, 3600, NOW);
    let dot = token.rfind('.').expect("token has a signature segment");
    let bytes = token.as_bytes();
    assert!(dot + 1 < bytes.len(), "signature segment is nonempty");
    for i in (dot + 1)..bytes.len() {
        let mut tampered = bytes.to_vec();
        tampered[i] = if tampered[i] == b'A' { b'B' } else { b'A' };
        if tampered[i] == bytes[i] {
            continue;
        }
        let tampered = String::from_utf8(tampered).unwrap();
        let got = c.verify(&tampered, NOW);
        assert_eq!(got, Err(Rejected::BadSignature), "byte {i} flipped");
    }
}

#[test]
fn truncating_the_signature_is_rejected_not_accepted() {
    let c = codec();
    let token = c.issue(42, 3600, NOW);
    let dot = token.rfind('.').unwrap();
    let truncated = &token[..dot + 1];
    assert!(c.verify(truncated, NOW).is_err());
}

#[test]
fn garbage_tokens_are_malformed() {
    let c = codec();
    assert_eq!(c.verify("", NOW), Err(Rejected::Malformed));
    assert_eq!(c.verify("not a token", NOW), Err(Rejected::Malformed));
    assert_eq!(c.verify("a.b.c", NOW), Err(Rejected::Malformed));
}

#[test]
fn a_different_key_rejects_the_token() {
    let c1 = codec();
    let c2 = TokenCodec::new(b"another key entirely".to_vec());
    let token = c1.issue(42, 3600, NOW);
    assert_eq!(c2.verify(&token, NOW), Err(Rejected::BadSignature));
}

#[test]
fn authorize_distinguishes_missing_and_invalid() {
    let c = codec();
    assert_eq!(authorize(None, &c, NOW), Err(AuthenticationError::Missing));
    let bogus = Authorization("junk".to_string());
    assert_eq!(authorize(Some(&bogus), &c, NOW), Err(AuthenticationError::Invalid));
    let stale = Authorization(c.issue(7, -10, NOW));
    assert_eq!(authorize(Some(&stale), &c, NOW), Err(AuthenticationError::Invalid));
    let good = Authorization(c.issue(7, 600, NOW));
    let identity = authorize(Some(&good), &c, NOW).expect("valid credential authorizes");
    assert_eq!(identity.sub, 7);
    assert_eq!(identity.exp, NOW + 600);
}

#[test]
fn authorize_owner_gates_on_the_recorded_author() {
    let c = codec();
    let good = Authorization(c.issue(7, 600, NOW));
    assert!(authorize_owner(Some(&good), 7, &c, NOW).is_ok());
    assert_eq!(authorize_owner(Some(&good), 8, &c, NOW), Err(OwnershipError::Forbidden));
    assert_eq!(authorize_owner(None, 7, &c, NOW), Err(OwnershipError::Missing));
    let stale = Authorization(c.issue(7, -1, NOW));
    assert_eq!(authorize_owner(Some(&stale), 7, &c, NOW), Err(OwnershipError::Invalid));
}
