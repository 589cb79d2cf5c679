//! End-to-end scenarios through the public operations, on a fresh store.

use incrementor::api_v1::{gen_key, get_counter, inc_counter, verify, ApiError};
use incrementor::db::{DataAccess, TxError};

use base64::Engine;
use sha2::Digest;

const NOW: i64 = 1_700_000_000;

fn issue(data: &mut DataAccess, email: &str) -> String {
    gen_key(data, email, NOW).expect("issuing a credential for a fresh email must succeed")
}

fn split_token(token: &str) -> (Vec<u8>, Vec<u8>) {
    let parts: Vec<&str> = token.split('.').collect();
    assert_eq!(parts.len(), 2, "a token has exactly two parts");
    let prefix = base64::engine::general_purpose::STANDARD
        .decode(parts[0])
        .expect("the prefix part is valid base64");
    let secret = base64::engine::general_purpose::STANDARD
        .decode(parts[1])
        .expect("the secret part is valid base64");
    (prefix, secret)
}

#[test]
fn scenario_issue_increment_read() {
    let mut data = DataAccess::new();
    let token = issue(&mut data, "alice@example.com");
    assert_eq!(inc_counter(&mut data, Some(&token), "clicks", NOW), Ok(1));
    assert_eq!(inc_counter(&mut data, Some(&token), "clicks", NOW), Ok(2));
    assert_eq!(get_counter(&data, Some(&token), "clicks"), Ok(2));
    assert_eq!(get_counter(&data, Some(&token), "other"), Ok(0));
    assert_eq!(
        gen_key(&mut data, "alice@example.com", NOW),
        Err(TxError::InnerError(ApiError::DuplicateIdentity))
    );
}

#[test]
fn issuing_twice_for_one_email_keeps_exactly_one_row() {
    let mut data = DataAccess::new();
    issue(&mut data, "alice@example.com");
    let second = gen_key(&mut data, "alice@example.com", NOW);
    assert_eq!(second, Err(TxError::InnerError(ApiError::DuplicateIdentity)));
    let rows = data
        .db
        .api_keys
        .iter()
        .filter(|r| r.email == "alice@example.com")
        .count();
    assert_eq!(rows, 1);
}

#[test]
fn counter_read_defaults_to_zero() {
    let mut data = DataAccess::new();
    let token = issue(&mut data, "alice@example.com");
    assert_eq!(get_counter(&data, Some(&token), "never-seen-tag"), Ok(0));
}

#[test]
fn n_increments_return_one_through_n_and_store_n() {
    let mut data = DataAccess::new();
    let token = issue(&mut data, "alice@example.com");
    let mut returned = Vec::new();
    for _ in 0..10 {
        returned.push(inc_counter(&mut data, Some(&token), "hits", NOW).unwrap());
    }
    assert_eq!(returned, vec![1, 2, 3, 4, 5, 6, 7, 8, 9, 10]);
    assert_eq!(get_counter(&data, Some(&token), "hits"), Ok(10));
    assert_eq!(data.db.counters.len(), 1);
    assert_eq!(data.db.counters[0].value, 10);
}

#[test]
fn two_first_time_increments_create_one_row() {
    let mut data = DataAccess::new();
    let token = issue(&mut data, "alice@example.com");
    let first = inc_counter(&mut data, Some(&token), "fresh", NOW).unwrap();
    let second = inc_counter(&mut data, Some(&token), "fresh", NOW).unwrap();
    assert_eq!((first, second), (1, 2));
    assert_eq!(data.db.counters.len(), 1);
    assert_eq!(data.db.counters[0].value, 2);
}

#[test]
fn counters_are_scoped_per_owner() {
    let mut data = DataAccess::new();
    let alice = issue(&mut data, "alice@example.com");
    let bob = issue(&mut data, "bob@example.com");
    assert_eq!(inc_counter(&mut data, Some(&alice), "clicks", NOW), Ok(1));
    assert_eq!(get_counter(&data, Some(&bob), "clicks"), Ok(0));
    assert_eq!(get_counter(&data, Some(&alice), "clicks"), Ok(1));
}

#[test]
fn stored_record_holds_digest_not_secret() {
    let mut data = DataAccess::new();
    let token = issue(&mut data, "alice@example.com");
    let (prefix, secret) = split_token(&token);
    assert_eq!(prefix.len(), 6);
    assert_eq!(secret.len(), 48);
    let row = &data.db.api_keys[0];
    assert_eq!(row.prefix, prefix);
    let digest = sha2::Sha256::digest(&secret).to_vec();
    assert_eq!(row.verifier, digest);
    assert_ne!(row.verifier, secret, "the verifier must not be the raw secret");
    assert_ne!(row.prefix, secret[..6], "the stored prefix must not spell the secret");
}

#[test]
fn presenting_the_digest_as_the_secret_fails() {
    let mut data = DataAccess::new();
    let token = issue(&mut data, "alice@example.com");
    let (prefix, _secret) = split_token(&token);
    let row_verifier = data.db.api_keys[0].verifier.clone();
    let forged = format!(
        "{}.{}",
        base64::engine::general_purpose::STANDARD.encode(&prefix),
        base64::engine::general_purpose::STANDARD.encode(&row_verifier)
    );
    assert_eq!(
        get_counter(&data, Some(&forged), "clicks"),
        Err(TxError::InnerError(ApiError::Unauthorized))
    );
}

#[test]
fn verify_returns_the_owning_credential() {
    let mut data = DataAccess::new();
    let alice = issue(&mut data, "alice@example.com");
    let bob = issue(&mut data, "bob@example.com");
    let alice_id = data.db.api_keys[0].id;
    let bob_id = data.db.api_keys[1].id;
    assert_ne!(alice_id, bob_id);
    assert_eq!(verify(&data.db, Some(&alice)), Ok(alice_id));
    assert_eq!(verify(&data.db, Some(&bob)), Ok(bob_id));
}

#[test]
fn single_bit_mutation_of_the_secret_is_unauthorized() {
    let mut data = DataAccess::new();
    let token = issue(&mut data, "alice@example.com");
    let (prefix, mut secret) = split_token(&token);
    secret[0] ^= 0x01;
    let mutated = format!(
        "{}.{}",
        base64::engine::general_purpose::STANDARD.encode(&prefix),
        base64::engine::general_purpose::STANDARD.encode(&secret)
    );
    assert_eq!(
        get_counter(&data, Some(&mutated), "clicks"),
        Err(TxError::InnerError(ApiError::Unauthorized))
    );
}

#[test]
fn missing_or_malformed_credentials_are_rejected() {
    let mut data = DataAccess::new();
    issue(&mut data, "alice@example.com");
    let unauthorized: Result<i64, TxError<ApiError>> =
        Err(TxError::InnerError(ApiError::Unauthorized));
    assert_eq!(get_counter(&data, None, "clicks"), unauthorized);
    assert_eq!(get_counter(&data, Some("nodot"), "clicks"), unauthorized);
    assert_eq!(get_counter(&data, Some("a.b.c"), "clicks"), unauthorized);
    assert_eq!(get_counter(&data, Some(".secret"), "clicks"), unauthorized);
    assert_eq!(get_counter(&data, Some("prefix."), "clicks"), unauthorized);
    assert_eq!(get_counter(&data, Some("!!!.###"), "clicks"), unauthorized);
    assert_eq!(
        inc_counter(&mut data, Some("QQ==.QR"), "clicks", NOW),
        unauthorized
    );
    assert_eq!(inc_counter(&mut data, None, "clicks", NOW), unauthorized);
}

#[test]
fn incrementing_a_counter_at_the_ceiling_is_a_store_fault() {
    let mut data = DataAccess::new();
    let token = issue(&mut data, "alice@example.com");
    let owner = data.db.api_keys[0].id;
    data.db
        .create_counter_with_id(10, owner, "maxed", i64::MAX, NOW)
        .unwrap();
    assert_eq!(
        inc_counter(&mut data, Some(&token), "maxed", NOW),
        Err(TxError::DbError(incrementor::db::Error::Overflow))
    );
    // The failed increment left the stored value untouched.
    assert_eq!(get_counter(&data, Some(&token), "maxed"), Ok(i64::MAX));
}

#[test]
fn unknown_but_well_formed_credential_is_unauthorized() {
    let mut data = DataAccess::new();
    issue(&mut data, "alice@example.com");
    let stranger = format!(
        "{}.{}",
        base64::engine::general_purpose::STANDARD.encode([9u8; 6]),
        base64::engine::general_purpose::STANDARD.encode([9u8; 48])
    );
    assert_eq!(
        get_counter(&data, Some(&stranger), "clicks"),
        Err(TxError::InnerError(ApiError::Unauthorized))
    );
}
