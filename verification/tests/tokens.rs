//! The token wire format and its parsing.

use incrementor::api_v1::{extract_key, ApiError};
use incrementor::db::DataAccess;
use incrementor::api_v1::gen_key;
use incrementor::text::str_eq;
use incrementor::token::{build_token, ct_eq};

use base64::Engine;
use sha2::Digest;

const NOW: i64 = 1_700_000_000;

#[test]
fn token_is_two_base64_parts_joined_by_one_dot() {
    let mut data = DataAccess::new();
    let token = gen_key(&mut data, "alice@example.com", NOW).unwrap();
    assert_eq!(token.matches('.').count(), 1);
    // 6 bytes encode to 8 characters, 48 bytes to 64, plus the separator.
    assert_eq!(token.len(), 8 + 1 + 64);
    assert!(token.is_ascii());
}

#[test]
fn two_issued_tokens_differ() {
    let mut data = DataAccess::new();
    let a = gen_key(&mut data, "alice@example.com", NOW).unwrap();
    let b = gen_key(&mut data, "bob@example.com", NOW).unwrap();
    assert_ne!(a, b);
}

#[test]
fn build_token_and_extract_key_round_trip() {
    let prefix: Vec<u8> = vec![1, 2, 3, 4, 5, 6];
    let secret: Vec<u8> = vec![7u8; 48];
    let token = build_token(&prefix, &secret);
    let expected = format!(
        "{}.{}",
        base64::engine::general_purpose::STANDARD.encode(&prefix),
        base64::engine::general_purpose::STANDARD.encode(&secret)
    );
    assert_eq!(token, expected);
    let (p, h) = extract_key(Some(&token)).unwrap();
    assert_eq!(p, prefix);
    assert_eq!(h, sha2::Sha256::digest(&secret).to_vec());
}

#[test]
fn extract_key_rejects_missing_and_malformed() {
    assert_eq!(extract_key(None), Err(ApiError::Unauthorized));
    assert_eq!(extract_key(Some("")), Err(ApiError::MalformedCredential));
    assert_eq!(extract_key(Some("nodot")), Err(ApiError::MalformedCredential));
    assert_eq!(extract_key(Some("a.b.c")), Err(ApiError::MalformedCredential));
    assert_eq!(extract_key(Some(".tail")), Err(ApiError::MalformedCredential));
    assert_eq!(extract_key(Some("head.")), Err(ApiError::MalformedCredential));
    assert_eq!(extract_key(Some("not-base64!.QQ==")), Err(ApiError::MalformedCredential));
    assert_eq!(extract_key(Some("QQ==.not-base64!")), Err(ApiError::MalformedCredential));
    // Non-canonical padding is not accepted.
    assert_eq!(extract_key(Some("QQ.QQ==")), Err(ApiError::MalformedCredential));
}

#[test]
fn extract_key_digests_the_secret() {
    let token = build_token(&[0u8; 6], &[255u8; 48]);
    let (_, h) = extract_key(Some(&token)).unwrap();
    assert_eq!(h.len(), 32);
    assert_ne!(h, vec![255u8; 48], "the digest is not the secret itself");
    assert_eq!(h, sha2::Sha256::digest([255u8; 48]).to_vec());
}

#[test]
fn ct_eq_compares_whole_slices() {
    assert!(ct_eq(&[], &[]));
    assert!(ct_eq(&[1, 2, 3], &[1, 2, 3]));
    assert!(!ct_eq(&[1, 2, 3], &[1, 2, 4]));
    assert!(!ct_eq(&[1, 2, 3], &[1, 2]));
    assert!(!ct_eq(&[0, 2, 3], &[1, 2, 3]));
}

#[test]
fn str_eq_compares_by_characters() {
    assert!(str_eq("", ""));
    assert!(str_eq("clicks", "clicks"));
    assert!(!str_eq("clicks", "clacks"));
    assert!(!str_eq("clicks", "click"));
    assert!(str_eq("héllo", "héllo"));
    assert!(!str_eq("héllo", "hello"));
}
