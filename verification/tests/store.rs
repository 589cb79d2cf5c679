//! The modeled store's row operations and the failure rendering.

use incrementor::api_v1::{inc_decide, ApiError, IncStep};
use incrementor::db::{Config, DataAccess, Error, TxError};
use incrementor::util::{unwrap_tx_error, web_error_of_api, WebApplicationError};

const NOW: i64 = 1_700_000_000;

#[test]
fn insert_api_key_rejects_duplicate_email_and_id() {
    let mut data = DataAccess::new();
    let tx = &mut data.db;
    assert_eq!(tx.insert_api_key_with_id(1, "a@x", &[1; 6], &[2; 32], NOW), Ok(()));
    assert_eq!(
        tx.insert_api_key_with_id(1, "b@x", &[3; 6], &[4; 32], NOW),
        Err(Error::UniqueViolation),
        "a used identifier is refused"
    );
    assert_eq!(
        tx.insert_api_key_with_id(2, "a@x", &[3; 6], &[4; 32], NOW),
        Err(Error::UniqueViolation),
        "a used email is refused"
    );
    assert_eq!(tx.api_keys.len(), 1);
    assert_eq!(tx.api_keys[0].created_at, NOW);
}

#[test]
fn email_exists_reports_presence() {
    let mut data = DataAccess::new();
    let tx = &mut data.db;
    assert_eq!(tx.email_exists("a@x"), Ok(false));
    tx.insert_api_key_with_id(1, "a@x", &[1; 6], &[2; 32], NOW).unwrap();
    assert_eq!(tx.email_exists("a@x"), Ok(true));
    assert_eq!(tx.email_exists("b@x"), Ok(false));
}

#[test]
fn get_user_id_by_key_matches_prefix_and_verifier() {
    let mut data = DataAccess::new();
    let tx = &mut data.db;
    tx.insert_api_key_with_id(1, "a@x", &[1; 6], &[2; 32], NOW).unwrap();
    tx.insert_api_key_with_id(2, "b@x", &[1; 6], &[9; 32], NOW).unwrap();
    assert_eq!(tx.get_user_id_by_key(&[1; 6], &[2; 32]), Ok(Some(1)));
    // A colliding prefix does not shadow a row: the lookup wants both the
    // prefix and the verifier, so the second row still authenticates.
    assert_eq!(tx.get_user_id_by_key(&[1; 6], &[9; 32]), Ok(Some(2)));
    // A known prefix with an unknown verifier matches nothing.
    assert_eq!(tx.get_user_id_by_key(&[1; 6], &[3; 32]), Ok(None));
    assert_eq!(tx.get_user_id_by_key(&[7; 6], &[2; 32]), Ok(None));
}

#[test]
fn create_counter_is_a_no_op_on_conflict() {
    let mut data = DataAccess::new();
    let tx = &mut data.db;
    assert_eq!(tx.create_counter_with_id(10, 1, "clicks", 1, NOW), Ok(true));
    assert_eq!(
        tx.create_counter_with_id(11, 1, "clicks", 1, NOW),
        Ok(false),
        "a second row for the same key affects zero rows"
    );
    assert_eq!(
        tx.create_counter_with_id(10, 1, "other", 1, NOW),
        Ok(false),
        "a used identifier affects zero rows"
    );
    assert_eq!(tx.counters.len(), 1);
}

#[test]
fn update_counter_rewrites_only_the_named_row() {
    let mut data = DataAccess::new();
    let tx = &mut data.db;
    tx.create_counter_with_id(10, 1, "clicks", 1, NOW).unwrap();
    tx.create_counter_with_id(11, 1, "other", 1, NOW).unwrap();
    assert_eq!(tx.update_counter(10, 5, NOW + 7), Ok(()));
    assert_eq!(tx.counters[0].value, 5);
    assert_eq!(tx.counters[0].last_updated, NOW + 7);
    assert_eq!(tx.counters[1].value, 1);
    assert_eq!(tx.update_counter(99, 8, NOW), Ok(()), "an absent row is a no-op");
    assert_eq!(tx.counters.len(), 2);
    assert_eq!(tx.counters[0].value, 5);
}

#[test]
fn get_counter_by_tag_locking_reads_the_row() {
    let mut data = DataAccess::new();
    let tx = &mut data.db;
    tx.create_counter_with_id(10, 1, "clicks", 1, NOW).unwrap();
    assert_eq!(tx.get_counter_by_tag_locking(1, "clicks"), Ok(Some((10, 1))));
    assert_eq!(tx.get_counter_by_tag_locking(1, "other"), Ok(None));
    assert_eq!(tx.get_counter_by_tag_locking(2, "clicks"), Ok(None));
}

#[test]
fn inc_decide_follows_the_observed_row() {
    assert_eq!(inc_decide(None), IncStep::Create { initial: 1 });
    assert_eq!(inc_decide(Some(1)), IncStep::Update { new_value: 2 });
    assert_eq!(inc_decide(Some(41)), IncStep::Update { new_value: 42 });
    assert_eq!(inc_decide(Some(i64::MAX)), IncStep::Fail);
}

#[test]
fn config_carries_its_parameters() {
    let c = Config::new("localhost", 5432, "incrementor", "incrementor", "inc");
    assert_eq!(c.host, "localhost");
    assert_eq!(c.port, 5432);
    assert_eq!(c.database, "incrementor");
    assert_eq!(c.username, "incrementor");
    assert_eq!(c.password, "inc");
}

#[test]
fn store_faults_render_as_opaque_server_errors() {
    let w = unwrap_tx_error(TxError::DbError(Error::UniqueViolation));
    assert_eq!(w.status, 500);
    assert_eq!(w.msg, "Internal Server Error");
    let w = unwrap_tx_error(TxError::DbError(Error::Overflow));
    assert_eq!(w.status, 500);
    assert_eq!(w.msg, "Internal Server Error");
}

#[test]
fn business_failures_render_with_their_own_meaning() {
    let inner = WebApplicationError::new_with_message(400, "Email already registered");
    let w = unwrap_tx_error(TxError::InnerError(inner));
    assert_eq!(w.status, 400);
    assert_eq!(w.msg, "Email already registered");

    let w = web_error_of_api(ApiError::DuplicateIdentity);
    assert_eq!(w.status, 400);
    assert_eq!(w.msg, "Email already registered");
    let w = web_error_of_api(ApiError::MalformedCredential);
    assert_eq!(w.status, 401);
    assert_eq!(w.msg, "Unauthorized");
    let w = web_error_of_api(ApiError::Unauthorized);
    assert_eq!(w.status, 401);
    assert_eq!(w.msg, "Unauthorized");
}

#[test]
fn canonical_status_phrases() {
    let w = WebApplicationError::new(400);
    assert_eq!((w.status, w.msg.as_str()), (400, "Bad Request"));
    let w = WebApplicationError::unauthorized();
    assert_eq!((w.status, w.msg.as_str()), (401, "Unauthorized"));
    let w = WebApplicationError::new(500);
    assert_eq!((w.status, w.msg.as_str()), (500, "Internal Server Error"));
    let w = WebApplicationError::new(404);
    assert_eq!((w.status, w.msg.as_str()), (404, ""));
}
