use database::ordered_list::StoreError;
use database::orm::access_token::{
    envelope, inserted, session, AccessToken, Auth, CheckError, CreateError, EnvelopeError,
};
use database::secret::{decode_secret, SecretError};
use database::snowflake::Snowflake;
use std::collections::BTreeMap;

const SECRET: &[u8] = b"a secret that only the server holds";

fn user() -> Snowflake {
    Snowflake { timestamp: 77, machine_id: 3, increment: 9 }
}

fn sign(claims: &BTreeMap<&str, i64>, secret: &[u8]) -> String {
    jsonwebtoken::encode(
        &jsonwebtoken::Header::default(),
        claims,
        &jsonwebtoken::EncodingKey::from_secret(secret),
    )
    .unwrap()
}

#[test]
fn issued_token_checks_as_its_user() {
    let mut tokens = AccessToken::new();
    let bearer = tokens.create(user(), SECRET).unwrap();
    let (user_id, token) = tokens.check(&bearer, SECRET).unwrap();
    assert_eq!(user_id.into_number(), user().into_number());
    assert!(0 <= token && token < i64::MAX);
    assert_eq!(tokens.user_of(token), Some(user().into_number()));
    assert_eq!(Auth::decode(&bearer, SECRET).unwrap(), Auth::new(token));
}

#[test]
fn token_with_a_given_number_round_trips() {
    let mut tokens = AccessToken::new();
    let bearer = tokens.create_with(user(), 123_456_789, 55, SECRET).unwrap();
    let (user_id, token) = tokens.check(&bearer, SECRET).unwrap();
    assert_eq!((user_id.timestamp, user_id.machine_id, user_id.increment), (77, 3, 9));
    assert_eq!(token, 123_456_789);
    assert_eq!(bearer.matches('.').count(), 2);
    assert!(bearer.starts_with("eyJ0eXAiOiJKV1QiLCJhbGciOiJIUzI1NiJ9.eyJ0a24iOjEyMzQ1Njc4OX0."));
}

#[test]
fn envelope_is_the_same_for_the_same_number_and_secret() {
    let a = Auth::new(42).encode(SECRET).unwrap();
    let b = envelope(42, SECRET).unwrap();
    assert_eq!(a, b);
    assert_ne!(a, Auth::new(43).encode(SECRET).unwrap());
    assert_ne!(a, Auth::new(42).encode(b"another secret").unwrap());
    let mut claims = BTreeMap::new();
    claims.insert("tkn", 42);
    assert_eq!(a, sign(&claims, SECRET));
}

#[test]
fn changing_any_character_of_an_envelope_makes_it_undecodable() {
    let mut tokens = AccessToken::new();
    let bearer = tokens.create_with(user(), 99, 0, SECRET).unwrap();
    for at in 0..bearer.len() {
        let mut bytes = bearer.clone().into_bytes();
        bytes[at] = if bytes[at] == b'A' { b'B' } else { b'A' };
        let tampered = String::from_utf8(bytes).unwrap();
        match tokens.check(&tampered, SECRET) {
            Err(CheckError::JwtDecoding(_)) => {}
            other => panic!("position {}: {:?}", at, other),
        }
    }
    for at in 0..bearer.len() {
        let mut bytes = bearer.clone().into_bytes();
        bytes[at] ^= 1;
        let tampered = String::from_utf8(bytes).unwrap();
        assert!(matches!(tokens.check(&tampered, SECRET), Err(CheckError::JwtDecoding(_))));
    }
    assert!(tokens.check(&bearer, SECRET).is_ok());
}

#[test]
fn envelope_of_another_secret_is_rejected() {
    let mut tokens = AccessToken::new();
    let bearer = tokens.create_with(user(), 99, 0, SECRET).unwrap();
    assert!(matches!(
        tokens.check(&bearer, b"another secret"),
        Err(CheckError::JwtDecoding(EnvelopeError::Rejected(_)))
    ));
    assert!(matches!(Auth::decode("", SECRET), Err(EnvelopeError::Rejected(_))));
    assert!(matches!(Auth::decode("a.b.c", SECRET), Err(EnvelopeError::Rejected(_))));
    assert!(matches!(Auth::decode("not a token", SECRET), Err(EnvelopeError::Rejected(_))));
}

#[test]
fn envelope_needs_no_expiry_and_no_other_claim() {
    let mut claims = BTreeMap::new();
    claims.insert("tkn", 7);
    assert_eq!(Auth::decode(&sign(&claims, SECRET), SECRET).unwrap(), Auth::new(7));
    claims.insert("exp", 1);
    assert_eq!(Auth::decode(&sign(&claims, SECRET), SECRET).unwrap(), Auth::new(7));
    let mut other = BTreeMap::new();
    other.insert("sub", 7);
    assert!(matches!(
        Auth::decode(&sign(&other, SECRET), SECRET),
        Err(EnvelopeError::MissingClaim)
    ));
}

#[test]
fn claims_of_other_names_are_passed_over() {
    let mut claims = BTreeMap::new();
    claims.insert("tkn", serde_json::Value::from(7));
    claims.insert("iss", serde_json::Value::from("someone"));
    claims.insert("aud", serde_json::Value::from(1.5));
    let bearer = jsonwebtoken::encode(
        &jsonwebtoken::Header::default(),
        &claims,
        &jsonwebtoken::EncodingKey::from_secret(SECRET),
    )
    .unwrap();
    assert_eq!(Auth::decode(&bearer, SECRET).unwrap(), Auth::new(7));
    for value in [
        serde_json::Value::from("7"),
        serde_json::Value::from(7.5),
        serde_json::Value::from(u64::MAX),
        serde_json::Value::Null,
    ] {
        let mut claims = BTreeMap::new();
        claims.insert("tkn", value);
        let bearer = jsonwebtoken::encode(
            &jsonwebtoken::Header::default(),
            &claims,
            &jsonwebtoken::EncodingKey::from_secret(SECRET),
        )
        .unwrap();
        assert!(matches!(Auth::decode(&bearer, SECRET), Err(EnvelopeError::MissingClaim)));
    }
}

#[test]
fn revoked_token_is_invalid() {
    let mut tokens = AccessToken::new();
    let kept = tokens.create_with(user(), 1, 0, SECRET).unwrap();
    let revoked = tokens.create_with(user(), 2, 0, SECRET).unwrap();
    assert_eq!(tokens.revoke(2), 1);
    assert!(matches!(tokens.check(&revoked, SECRET), Err(CheckError::InvalidToken)));
    assert!(tokens.check(&kept, SECRET).is_ok());
    assert_eq!(tokens.revoke(2), 0);
    assert_eq!(tokens.user_of(2), None);
    assert_eq!(tokens.user_of(1), Some(user().into_number()));
}

#[test]
fn token_that_never_existed_is_invalid() {
    let tokens = AccessToken::new();
    let bearer = envelope(5, SECRET).unwrap();
    assert!(matches!(tokens.check(&bearer, SECRET), Err(CheckError::InvalidToken)));
}

#[test]
fn token_number_cannot_be_stored_twice() {
    let mut tokens = AccessToken::new();
    tokens.create_with(user(), 1, 0, SECRET).unwrap();
    let other = Snowflake::from_number(5);
    assert!(matches!(
        tokens.create_with(other, 1, 9, SECRET),
        Err(CreateError::DatabaseError(StoreError::DuplicateId))
    ));
    assert_eq!(tokens.user_of(1), Some(user().into_number()));
}

#[test]
fn session_is_decided_from_what_the_store_finds() {
    let (user_id, token) = session(Some(4_196_353), 8).unwrap();
    assert_eq!((user_id.timestamp, user_id.machine_id, user_id.increment), (2, 1, 1));
    assert_eq!(token, 8);
    assert!(matches!(session(None, 8), Err(CheckError::InvalidToken)));
    assert!(inserted(1).is_ok());
    assert!(matches!(inserted(0), Err(CreateError::NotInserted)));
    assert!(matches!(inserted(2), Err(CreateError::NotInserted)));
}

#[test]
fn secrets_are_standard_base64() {
    assert_eq!(decode_secret("c2VjcmV0").unwrap(), b"secret".to_vec());
    assert_eq!(decode_secret("").unwrap(), Vec::<u8>::new());
    assert_eq!(decode_secret("AQID/w==").unwrap(), vec![1, 2, 3, 255]);
    assert!(matches!(decode_secret("c2VjcmV0!"), Err(SecretError::NotBase64(_))));
    assert!(matches!(decode_secret("AQID_w=="), Err(SecretError::NotBase64(_))));
    assert!(matches!(decode_secret("AQID/w"), Err(SecretError::NotBase64(_))));
}
