//! Rendering of failures for the transport layer.
//!
//! A business failure is reported with its own meaning; a store fault is
//! reported as an opaque server error, with no store-specific detail, and no
//! message ever says which part of a credential check failed.

use vstd::prelude::*;

use crate::api_v1::ApiError;
use crate::db::{IntoTxError, TxError};

verus! {

/// The canonical reason phrase of each status code this library uses.
pub open spec fn canonical_reason(status: u16) -> Seq<char> {
    if status == 400 {
        "Bad Request"@
    } else if status == 401 {
        "Unauthorized"@
    } else if status == 500 {
        "Internal Server Error"@
    } else {
        ""@
    }
}

/// A failure as the transport layer reports it: a status code with a plain
/// message.
pub struct WebApplicationError {
    pub status: u16,
    pub msg: String,
}

impl WebApplicationError {
    /// A failure carrying the canonical reason phrase of its status code.
    pub fn new(status: u16) -> (e: WebApplicationError)
        ensures
            e.status == status,
            e.msg@ == canonical_reason(status),
    {
        if status == 400 {
            WebApplicationError::new_with_message(status, "Bad Request")
        } else if status == 401 {
            WebApplicationError::new_with_message(status, "Unauthorized")
        } else if status == 500 {
            WebApplicationError::new_with_message(status, "Internal Server Error")
        } else {
            WebApplicationError::new_with_message(status, "")
        }
    }

    /// A failure carrying the given message.
    pub fn new_with_message(status: u16, msg: &str) -> (e: WebApplicationError)
        ensures
            e.status == status,
            e.msg@ == msg@,
    {
        WebApplicationError { status, msg: String::from_str(msg) }
    }

    /// The one undistinguishing client error for every credential failure.
    pub fn unauthorized() -> (e: WebApplicationError)
        ensures
            e.status == 401,
            e.msg@ == canonical_reason(401),
    {
        WebApplicationError::new(401)
    }
}

impl IntoTxError for WebApplicationError {

}

/// Renders a business failure: a duplicate identity is named as such; both
/// credential failures collapse to the same unauthorized reply, so a caller
/// cannot tell a malformed credential from a wrong one.
pub fn web_error_of_api(e: ApiError) -> (w: WebApplicationError)
    ensures
        e == ApiError::DuplicateIdentity ==> w.status == 400 && w.msg@
            == "Email already registered"@,
        e != ApiError::DuplicateIdentity ==> w.status == 401 && w.msg@ == canonical_reason(401),
{
    match e {
        ApiError::DuplicateIdentity => WebApplicationError::new_with_message(
            400,
            "Email already registered",
        ),
        ApiError::MalformedCredential => WebApplicationError::unauthorized(),
        ApiError::Unauthorized => WebApplicationError::unauthorized(),
    }
}

/// Renders a transaction failure: a store fault becomes an opaque server
/// error; a business failure is reported as itself.
pub fn unwrap_tx_error(txe: TxError<WebApplicationError>) -> (w: WebApplicationError)
    ensures
        (match txe {
            TxError::DbError(_) => w.status == 500 && w.msg@ == canonical_reason(500),
            TxError::InnerError(e) => w == e,
        }),
{
    match txe {
        TxError::DbError(_) => WebApplicationError::new(500),
        TxError::InnerError(e) => e,
    }
}

} // verus!
